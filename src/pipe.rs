use vstd::prelude::*;

verus! {

/// A progress observation is due after every this many records.
pub const PROGRESS_INTERVAL: u64 = 5000;

/// Where a pipe stands in its run.
#[derive(PartialEq, Eq, Structural, Debug, Clone, Copy)]
pub enum PipeState {
    Running,
    Done,
    Failed,
}

/// What a pipe does with a record that cannot be decoded or converted.
#[derive(PartialEq, Eq, Structural, Debug, Clone, Copy)]
pub enum ErrorPolicy {
    /// The run fails.
    Abort,
    /// The record is skipped and counted; the run goes on.
    Skip,
}

/// Why a source could not produce a record.
#[derive(PartialEq, Eq, Structural, Debug, Clone, Copy)]
pub enum SourceError {
    Decode,
    Transport,
    EndOfInput,
}

/// What the source produced when the pipe last pulled from it.
#[derive(Debug, PartialEq)]
pub enum PipeEvent {
    /// A serialized record.
    Record(Vec<u8>),
    /// A record that could not be decoded or converted.
    BadRecord,
    /// The definitive end of the input.
    End,
    /// A cooperative stop request, taken between records: the run ends as at
    /// the end of the input.
    Stop,
    /// An unrecoverable source error.
    SourceFailed(SourceError),
}

/// What the caller does next on the pipe's behalf.
#[derive(Debug, PartialEq)]
pub enum PipeAction {
    /// Pull the next record.
    Pull,
    /// Send this batch to the sink, then pull the next record.
    Deliver(Vec<Vec<u8>>),
    /// Send the final batch, if any, then flush the sink: the run is done.
    Finish(Option<Vec<Vec<u8>>>),
    /// Stop: the run has failed.
    Abort,
}

/// How many more records a run may take: a limit counted down, or none.
pub struct RecordBudget {
    remaining: Option<u64>,
}

impl RecordBudget {
    pub closed spec fn spec_remaining(&self) -> Option<u64> {
        self.remaining
    }

    /// A budget of `limit` records, or an unlimited one.
    pub fn new(limit: Option<u64>) -> (r: Self)
        ensures
            r.spec_remaining() == limit,
    {
        RecordBudget { remaining: limit }
    }

    /// Takes one record from the budget: true while any are left, counting
    /// a limited budget down by one.
    pub fn take(&mut self) -> (r: bool)
        ensures
            old(self).spec_remaining() is None ==> r && final(self).spec_remaining() is None,
            old(self).spec_remaining() matches Some(n) ==> (r == (n > 0) && final(self).spec_remaining()
                == Some(if n > 0 { (n - 1) as u64 } else { 0u64 })),
    {
        match self.remaining {
            None => true,
            Some(n) => if n > 0 {
                self.remaining = Some(n - 1);
                true
            } else {
                false
            },
        }
    }
}

/// All batches of a sequence, concatenated in order.
pub open spec fn concat_all<T>(bs: Seq<Seq<T>>) -> Seq<T>
    decreases bs.len(),
{
    if bs.len() == 0 {
        Seq::empty()
    } else {
        concat_all(bs.drop_last()) + bs.last()
    }
}

/// The batches delivered and the records still pending after `records`
/// have been pushed, one at a time, through a pipe with batch threshold `k`.
pub open spec fn pushed<T>(records: Seq<T>, k: nat) -> (Seq<Seq<T>>, Seq<T>)
    decreases records.len(),
{
    if records.len() == 0 {
        (Seq::empty(), Seq::empty())
    } else {
        let (sent, pending) = pushed(records.drop_last(), k);
        let next = pending.push(records.last());
        if next.len() >= k {
            (sent.push(next), Seq::empty())
        } else {
            (sent, next)
        }
    }
}

/// Every batch the sink receives for `records`: the full batches, then the
/// final partial batch if one is left when the source ends.
pub open spec fn delivered<T>(records: Seq<T>, k: nat) -> Seq<Seq<T>> {
    let (sent, pending) = pushed(records, k);
    if pending.len() > 0 {
        sent.push(pending)
    } else {
        sent
    }
}

/// The sum of the lengths of some payloads.
pub open spec fn total_len(s: Seq<Vec<u8>>) -> nat
    decreases s.len(),
{
    if s.len() == 0 {
        0
    } else {
        total_len(s.drop_last()) + s.last()@.len()
    }
}

/// Accumulates serialized records into batches of a fixed number of
/// records, in the order they arrive.
pub struct StreamPipe {
    threshold: usize,
    batch: Vec<Vec<u8>>,
    batch_bytes: usize,
    count: u64,
    skipped: u64,
    state: PipeState,
}

impl StreamPipe {
    pub closed spec fn well_formed(&self) -> bool {
        &&& self.threshold > 0
        &&& self.batch@.len() < self.threshold
        &&& self.batch_bytes == total_len(self.batch@)
    }

    pub closed spec fn spec_threshold(&self) -> nat {
        self.threshold as nat
    }

    /// The records accepted and not yet handed out in a batch.
    pub closed spec fn pending(&self) -> Seq<Vec<u8>> {
        self.batch@
    }

    pub closed spec fn spec_count(&self) -> nat {
        self.count as nat
    }

    pub closed spec fn spec_state(&self) -> PipeState {
        self.state
    }

    pub closed spec fn spec_skipped(&self) -> nat {
        self.skipped as nat
    }

    /// A running pipe with an empty batch that hands out a batch every
    /// `threshold` records.
    pub fn new(threshold: usize) -> (r: Self)
        requires
            threshold > 0,
        ensures
            r.well_formed(),
            r.spec_threshold() == threshold,
            r.pending() == Seq::<Vec<u8>>::empty(),
            r.spec_count() == 0,
            r.spec_skipped() == 0,
            r.spec_state() == PipeState::Running,
    {
        StreamPipe {
            threshold,
            batch: Vec::new(),
            batch_bytes: 0,
            count: 0,
            skipped: 0,
            state: PipeState::Running,
        }
    }

    /// Records skipped under `ErrorPolicy::Skip`.
    pub fn skipped(&self) -> (r: u64)
        ensures
            r == self.spec_skipped(),
    {
        self.skipped
    }

    /// Handles a record that could not be decoded or converted: under
    /// `Abort` the run fails and the in-flight batch is dropped; under
    /// `Skip` the record is counted as skipped and the batch is kept.
    pub fn record_failed(&mut self, policy: ErrorPolicy)
        requires
            old(self).well_formed(),
            old(self).spec_skipped() < u64::MAX,
        ensures
            final(self).well_formed(),
            final(self).spec_threshold() == old(self).spec_threshold(),
            final(self).spec_count() == old(self).spec_count(),
            policy == ErrorPolicy::Abort ==> final(self).spec_state() == PipeState::Failed
                && final(self).pending().len() == 0 && final(self).spec_skipped()
                == old(self).spec_skipped(),
            policy == ErrorPolicy::Skip ==> final(self).spec_state() == old(self).spec_state()
                && final(self).pending() == old(self).pending() && final(self).spec_skipped()
                == old(self).spec_skipped() + 1,
    {
        match policy {
            ErrorPolicy::Abort => self.fail(),
            ErrorPolicy::Skip => {
                self.skipped = self.skipped + 1;
            },
        }
    }

    pub fn threshold(&self) -> (r: usize)
        ensures
            r == self.spec_threshold(),
    {
        self.threshold
    }

    /// Records accepted so far.
    pub fn count(&self) -> (r: u64)
        ensures
            r == self.spec_count(),
    {
        self.count
    }

    pub fn state(&self) -> (r: PipeState)
        ensures
            r == self.spec_state(),
    {
        self.state
    }

    /// Bytes held in the current batch.
    pub fn batch_bytes(&self) -> (r: usize)
        requires
            self.well_formed(),
        ensures
            r == total_len(self.pending()),
    {
        self.batch_bytes
    }

    /// Accepts one record. When the batch reaches the threshold it is
    /// handed out whole, in arrival order, and a new batch begins.
    pub fn push(&mut self, record: Vec<u8>) -> (r: Option<Vec<Vec<u8>>>)
        requires
            old(self).well_formed(),
            old(self).spec_state() == PipeState::Running,
            old(self).spec_count() < u64::MAX,
            total_len(old(self).pending()) + record@.len() <= usize::MAX,
        ensures
            final(self).well_formed(),
            final(self).spec_threshold() == old(self).spec_threshold(),
            final(self).spec_state() == PipeState::Running,
            final(self).spec_count() == old(self).spec_count() + 1,
            final(self).spec_skipped() == old(self).spec_skipped(),
            old(self).pending().len() + 1 == old(self).spec_threshold() ==> (r matches Some(b) && b@
                == old(self).pending().push(record) && final(self).pending().len() == 0),
            old(self).pending().len() + 1 < old(self).spec_threshold() ==> r is None
                && final(self).pending() == old(self).pending().push(record),
    {
        let ghost before = self.batch@;
        self.batch_bytes = self.batch_bytes + record.len();
        self.batch.push(record);
        assert(self.batch@.drop_last() =~= before);
        self.count = self.count + 1;
        if self.batch.len() >= self.threshold {
            let mut out: Vec<Vec<u8>> = Vec::new();
            core::mem::swap(&mut out, &mut self.batch);
            self.batch_bytes = 0;
            Some(out)
        } else {
            None
        }
    }

    /// Ends the run at the end of the input: the final partial batch, if
    /// any, is handed out and the pipe is done.
    pub fn drain(&mut self) -> (r: Option<Vec<Vec<u8>>>)
        requires
            old(self).well_formed(),
        ensures
            final(self).well_formed(),
            final(self).spec_threshold() == old(self).spec_threshold(),
            final(self).spec_count() == old(self).spec_count(),
            final(self).spec_skipped() == old(self).spec_skipped(),
            final(self).spec_state() == PipeState::Done,
            final(self).pending().len() == 0,
            old(self).pending().len() > 0 ==> (r matches Some(b) && b@ == old(self).pending()),
            old(self).pending().len() == 0 ==> r is None,
    {
        self.state = PipeState::Done;
        if self.batch.len() > 0 {
            let mut out: Vec<Vec<u8>> = Vec::new();
            core::mem::swap(&mut out, &mut self.batch);
            self.batch_bytes = 0;
            Some(out)
        } else {
            None
        }
    }

    /// Aborts the run after an unrecoverable error: the in-flight batch is
    /// dropped, not retried.
    pub fn fail(&mut self)
        requires
            old(self).well_formed(),
        ensures
            final(self).well_formed(),
            final(self).spec_threshold() == old(self).spec_threshold(),
            final(self).spec_count() == old(self).spec_count(),
            final(self).spec_skipped() == old(self).spec_skipped(),
            final(self).spec_state() == PipeState::Failed,
            final(self).pending().len() == 0,
    {
        self.state = PipeState::Failed;
        self.batch = Vec::new();
        self.batch_bytes = 0;
    }
}

impl StreamPipe {
    /// One transition of a running pipe on what the source produced.
    pub fn step(&mut self, event: PipeEvent, policy: ErrorPolicy) -> (r: PipeAction)
        requires
            old(self).well_formed(),
            old(self).spec_state() == PipeState::Running,
            old(self).spec_count() < u64::MAX,
            old(self).spec_skipped() < u64::MAX,
            event matches PipeEvent::Record(b) ==> total_len(old(self).pending()) + b@.len() <= usize::MAX,
        ensures
            final(self).well_formed(),
            final(self).spec_threshold() == old(self).spec_threshold(),
            event matches PipeEvent::Record(b) ==> {
                &&& final(self).spec_state() == PipeState::Running
                &&& final(self).spec_count() == old(self).spec_count() + 1
                &&& final(self).spec_skipped() == old(self).spec_skipped()
                &&& if old(self).pending().len() + 1 == old(self).spec_threshold() {
                    r matches PipeAction::Deliver(batch) && batch@ == old(self).pending().push(b)
                        && final(self).pending().len() == 0
                } else {
                    r == PipeAction::Pull && final(self).pending() == old(self).pending().push(b)
                }
            },
            event == PipeEvent::BadRecord && policy == ErrorPolicy::Skip ==> {
                &&& r == PipeAction::Pull
                &&& final(self).spec_state() == PipeState::Running
                &&& final(self).pending() == old(self).pending()
                &&& final(self).spec_count() == old(self).spec_count()
                &&& final(self).spec_skipped() == old(self).spec_skipped() + 1
            },
            event == PipeEvent::BadRecord && policy == ErrorPolicy::Abort ==> {
                &&& r == PipeAction::Abort
                &&& final(self).spec_state() == PipeState::Failed
                &&& final(self).pending().len() == 0
            },
            event == PipeEvent::End || event == PipeEvent::Stop ==> {
                &&& final(self).spec_state() == PipeState::Done
                &&& final(self).pending().len() == 0
                &&& final(self).spec_count() == old(self).spec_count()
                &&& if old(self).pending().len() > 0 {
                    r matches PipeAction::Finish(Some(batch)) && batch@ == old(self).pending()
                } else {
                    r == PipeAction::Finish(None)
                }
            },
            event is SourceFailed ==> {
                &&& r == PipeAction::Abort
                &&& final(self).spec_state() == PipeState::Failed
                &&& final(self).pending().len() == 0
            },
    {
        match event {
            PipeEvent::Record(b) => match self.push(b) {
                Some(batch) => PipeAction::Deliver(batch),
                None => PipeAction::Pull,
            },
            PipeEvent::BadRecord => {
                self.record_failed(policy);
                match policy {
                    ErrorPolicy::Skip => PipeAction::Pull,
                    ErrorPolicy::Abort => PipeAction::Abort,
                }
            },
            PipeEvent::End => PipeAction::Finish(self.drain()),
            PipeEvent::Stop => PipeAction::Finish(self.drain()),
            PipeEvent::SourceFailed(_) => {
                self.fail();
                PipeAction::Abort
            },
        }
    }
}

/// Whether a progress observation is due once `count` records are done.
pub fn progress_due(count: u64) -> (r: bool)
    ensures
        r == (count > 0 && count % PROGRESS_INTERVAL == 0),
{
    count > 0 && count % PROGRESS_INTERVAL == 0
}

proof fn lemma_pushed<T>(records: Seq<T>, k: nat)
    requires
        k > 0,
    ensures
        pushed(records, k).0.len() == records.len() / k,
        pushed(records, k).1.len() == records.len() % k,
        concat_all(pushed(records, k).0) + pushed(records, k).1 == records,
        forall|i: int| 0 <= i < pushed(records, k).0.len() ==> (#[trigger] pushed(records, k).0[i]).len() == k,
    decreases records.len(),
{
    let n = records.len();
    if n == 0 {
        assert(concat_all(Seq::<Seq<T>>::empty()) + Seq::<T>::empty() =~= records);
    } else {
        let d = records.drop_last();
        lemma_pushed(d, k);
        let (sent, pending) = pushed(d, k);
        let next = pending.push(records.last());
        let m = (n - 1) as nat;
        let q = m / k;
        let r = m % k;
        vstd::arithmetic::div_mod::lemma_fundamental_div_mod(m as int, k as int);
        assert(concat_all(sent) + next =~= records) by {
            assert(concat_all(sent) + pending == d);
            assert(d.push(records.last()) =~= records);
        }
        if next.len() >= k {
            assert(r + 1 == k);
            assert(n == (q + 1) * k) by (nonlinear_arith)
                requires
                    m == k * q + r,
                    r + 1 == k,
                    n == m + 1,
            ;
            vstd::arithmetic::div_mod::lemma_fundamental_div_mod_converse(n as int, k as int, (q + 1) as int, 0);
            let sent2 = sent.push(next);
            assert(sent2.drop_last() =~= sent);
            assert(concat_all(sent2) + Seq::<T>::empty() =~= concat_all(sent) + next);
            assert forall|i: int| 0 <= i < sent2.len() implies (#[trigger] sent2[i]).len() == k by {
                if i < sent.len() {
                    assert(sent2[i] == sent[i]);
                }
            }
        } else {
            vstd::arithmetic::div_mod::lemma_fundamental_div_mod_converse(n as int, k as int, q as int, (r + 1) as int);
        }
    }
}

/// Batching law: with threshold `k`, the sink receives ceil(n / k) batches
/// for `n` records (one final flush follows them); every batch but the last
/// holds exactly `k` records, none is empty, and the batches concatenated
/// give the records in source order.
pub proof fn lemma_batch_flush<T>(records: Seq<T>, k: nat)
    requires
        k > 0,
    ensures
        delivered(records, k).len() == records.len() / k + (if records.len() % k == 0 {
            0nat
        } else {
            1nat
        }),
        delivered(records, k).len() == (records.len() + k - 1) / k as int,
        concat_all(delivered(records, k)) == records,
        forall|i: int|
            0 <= i < delivered(records, k).len() ==> 0 < (#[trigger] delivered(records, k)[i]).len() <= k,
        forall|i: int|
            0 <= i < delivered(records, k).len() - 1 ==> (#[trigger] delivered(records, k)[i]).len() == k,
{
    lemma_pushed(records, k);
    let (sent, pending) = pushed(records, k);
    let n = records.len();
    vstd::arithmetic::div_mod::lemma_fundamental_div_mod(n as int, k as int);
    let q = n / k;
    let r = n % k;
    if pending.len() > 0 {
        let all = sent.push(pending);
        assert(all.drop_last() =~= sent);
        assert forall|i: int| 0 <= i < all.len() implies 0 < (#[trigger] all[i]).len() <= k by {
            if i < sent.len() {
                assert(all[i] == sent[i]);
            }
        }
        assert forall|i: int| 0 <= i < all.len() - 1 implies (#[trigger] all[i]).len() == k by {
            assert(all[i] == sent[i]);
        }
        assert(n + k - 1 == (q + 1) * k + (r - 1)) by (nonlinear_arith)
            requires
                n == k * q + r,
        ;
        vstd::arithmetic::div_mod::lemma_fundamental_div_mod_converse(
            (n + k - 1) as int,
            k as int,
            (q + 1) as int,
            (r - 1) as int,
        );
    } else {
        assert(concat_all(sent) + pending =~= concat_all(sent));
        assert(n + k - 1 == q * k + (k - 1)) by (nonlinear_arith)
            requires
                n == k * q + r,
                r == 0,
        ;
        vstd::arithmetic::div_mod::lemma_fundamental_div_mod_converse(
            (n + k - 1) as int,
            k as int,
            q as int,
            (k - 1) as int,
        );
    }
}

/// The batches of a payload sequence as vectors.
pub open spec fn batches_view(bs: Seq<Vec<Vec<u8>>>) -> Seq<Seq<Vec<u8>>> {
    bs.map_values(|b: Vec<Vec<u8>>| b@)
}

/// Runs `records` through a pipe with threshold `k` to the end of input and
/// returns every batch handed out, in order.
pub fn batch_all(records: Vec<Vec<u8>>, k: usize) -> (r: Vec<Vec<Vec<u8>>>)
    requires
        k > 0,
        records@.len() < u64::MAX,
        total_len(records@) <= usize::MAX,
    ensures
        batches_view(r@) == delivered(records@, k as nat),
{
    let mut pipe = StreamPipe::new(k);
    let mut out: Vec<Vec<Vec<u8>>> = Vec::new();
    let mut i: usize = 0;
    let ghost rs = records@;
    let n = records.len();
    let mut rest = records;
    assert(rs.subrange(0, rs.len() as int) =~= rs);
    assert(batches_view(out@) =~= Seq::empty());
    assert(rs.subrange(0, 0) =~= Seq::empty());
    while i < n
        invariant
            n == rs.len(),
            i <= rs.len() < u64::MAX,
            total_len(rs) <= usize::MAX,
            rest@ == rs.subrange(i as int, rs.len() as int),
            pipe.well_formed(),
            pipe.spec_threshold() == k,
            pipe.spec_state() == PipeState::Running,
            pipe.spec_count() == i,
            pipe.pending() == pushed(rs.subrange(0, i as int), k as nat).1,
            batches_view(out@) == pushed(rs.subrange(0, i as int), k as nat).0,
            total_len(pipe.pending()) <= total_len(rs.subrange(0, i as int)),
        decreases rs.len() - i,
    {
        let record = rest.remove(0);
        let ghost prev = rs.subrange(0, i as int);
        let ghost cur = rs.subrange(0, i + 1);
        proof {
            assert(cur.drop_last() =~= prev);
            assert(cur.last() == record);
            lemma_total_len_prefix(rs, i + 1);
        }
        let ghost old_out = out@;
        let ghost old_pending = pipe.pending();
        match pipe.push(record) {
            Some(b) => {
                out.push(b);
                assert(batches_view(out@) =~= batches_view(old_out).push(b@));
                assert(total_len(pipe.pending()) == 0);
            },
            None => {
                assert(pipe.pending().drop_last() =~= old_pending);
            },
        }
        proof {
            assert(rest@ =~= rs.subrange(i + 1, rs.len() as int));
        }
        i = i + 1;
    }
    assert(rs.subrange(0, i as int) =~= rs);
    let ghost old_out = out@;
    match pipe.drain() {
        Some(b) => {
            out.push(b);
            assert(batches_view(out@) =~= batches_view(old_out).push(b@));
        },
        None => {},
    }
    out
}

proof fn lemma_total_len_prefix(s: Seq<Vec<u8>>, j: int)
    requires
        0 <= j <= s.len(),
    ensures
        total_len(s.subrange(0, j)) <= total_len(s),
    decreases s.len(),
{
    if j < s.len() {
        lemma_total_len_prefix(s.drop_last(), j);
        assert(s.drop_last().subrange(0, j) =~= s.subrange(0, j));
    } else {
        assert(s.subrange(0, j) =~= s);
    }
}

} // verus!
