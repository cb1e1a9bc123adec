use vstd::prelude::*;

verus! {

/// Where a consumer starts reading.
#[derive(PartialEq, Eq, Structural, Debug, Clone, Copy)]
pub enum OffsetSpec {
    Beginning,
    /// An absolute, non-negative position.
    Absolute(i64),
    /// This many records before the end.
    FromEnd(u32),
}

/// How the consumer's position is recorded.
#[derive(PartialEq, Eq, Structural, Debug, Clone, Copy)]
pub enum CommitStrategy {
    Auto,
    Manual,
}

/// A configuration that cannot be run.
#[derive(PartialEq, Eq, Structural, Debug, Clone, Copy)]
pub enum ConfigError {
    ConflictingOffsetSpec,
    InvalidOffset,
}

/// Resolves the optional absolute start and end-relative start into one
/// starting position. Giving both is a configuration error, as is a
/// negative absolute start; giving neither starts at the beginning.
pub fn resolve_offset(start: Option<i64>, end: Option<u32>) -> (r: Result<OffsetSpec, ConfigError>)
    ensures
        start is Some && end is Some ==> r == Err::<OffsetSpec, ConfigError>(
            ConfigError::ConflictingOffsetSpec,
        ),
        start is None && end is None ==> r == Ok::<OffsetSpec, ConfigError>(OffsetSpec::Beginning),
        start is Some && end is None ==> (if start->Some_0 >= 0 {
            r == Ok::<OffsetSpec, ConfigError>(OffsetSpec::Absolute(start->Some_0))
        } else {
            r == Err::<OffsetSpec, ConfigError>(ConfigError::InvalidOffset)
        }),
        start is None && end is Some ==> r == Ok::<OffsetSpec, ConfigError>(
            OffsetSpec::FromEnd(end->Some_0),
        ),
{
    match (start, end) {
        (None, None) => Ok(OffsetSpec::Beginning),
        (Some(s), None) => if s >= 0 {
            Ok(OffsetSpec::Absolute(s))
        } else {
            Err(ConfigError::InvalidOffset)
        },
        (None, Some(e)) => Ok(OffsetSpec::FromEnd(e)),
        (Some(_), Some(_)) => Err(ConfigError::ConflictingOffsetSpec),
    }
}

/// Per-run consumer state: the start position, the commit strategy, the
/// consumer group, and how far processing and commits have got.
pub struct ConsumerState {
    pub offset: OffsetSpec,
    pub strategy: CommitStrategy,
    pub group: String,
    pub processed: u64,
    pub committed: u64,
}

impl ConsumerState {
    pub fn new(offset: OffsetSpec, strategy: CommitStrategy, group: String) -> (r: Self)
        ensures
            r.offset == offset,
            r.strategy == strategy,
            r.group == group,
            r.processed == 0,
            r.committed == 0,
    {
        ConsumerState { offset, strategy, group, processed: 0, committed: 0 }
    }

    /// Notes one record processed successfully; with automatic commit the
    /// committed position follows it, with manual commit it stays.
    pub fn record_done(&mut self)
        requires
            old(self).processed < u64::MAX,
        ensures
            final(self).offset == old(self).offset,
            final(self).strategy == old(self).strategy,
            final(self).group == old(self).group,
            final(self).processed == old(self).processed + 1,
            final(self).committed == if old(self).strategy == CommitStrategy::Auto {
                final(self).processed
            } else {
                old(self).committed
            },
    {
        self.processed = self.processed + 1;
        if self.strategy == CommitStrategy::Auto {
            self.committed = self.processed;
        }
    }
}

} // verus!
