use vstd::prelude::*;
use opentelemetry_proto::tonic::collector::metrics::v1::ExportMetricsServiceRequest;
use opentelemetry_proto::tonic::metrics::v1::ResourceMetrics;
use prost::Message;
use vstd::string::StrSliceExecFns;

verus! {

/// The collector endpoint used when none is given.
pub const DEFAULT_METRICS_ENDPOINT: &'static str = "http://localhost:4318/v1/metrics";

/// The insert statement for events; its values are bound in the order that
/// `bind_values` gives them, never written into the text.
pub const INSERT_EVENT: &'static str = "INSERT INTO events (id, timestamp, payload) VALUES (?, ?, ?)";

/// Why a record could not be delivered.
#[derive(PartialEq, Eq, Debug)]
pub enum SinkError {
    Transport,
    /// The endpoint answered with a status outside 2xx; its body is kept verbatim.
    Delivery { status: u16, body: String },
    Serialization,
}

/// Whether bytes decode as one metrics resource message.
pub uninterp spec fn decodes_as_metrics(raw: Seq<u8>) -> bool;

/// The encoded export request holding exactly the one resource decoded from `raw`.
pub uninterp spec fn export_envelope_of(raw: Seq<u8>) -> Seq<u8>;

/// Relies on prost's `Message::decode` for opentelemetry-proto's
/// `ResourceMetrics` and `Message::encode_to_vec` for its
/// `ExportMetricsServiceRequest`: the decoded resource, wrapped as the one
/// element of an export request, re-encoded; nothing where decoding fails.
/// Both depend on the bytes alone.
#[verifier::external_body]
fn export_envelope(raw: &Vec<u8>) -> (r: Option<Vec<u8>>)
    ensures
        r.is_some() == decodes_as_metrics(raw@),
        r matches Some(b) ==> b@ == export_envelope_of(raw@),
{
    match ResourceMetrics::decode(raw.as_slice()) {
        Ok(rm) => Some(ExportMetricsServiceRequest { resource_metrics: vec![rm] }.encode_to_vec()),
        Err(_) => None,
    }
}

/// Turns one raw metrics record into the body of one export request: the
/// record is decoded as a single resource and re-wrapped alone in an
/// envelope. A record that does not decode is a serialization error.
pub fn metrics_envelope(raw: &Vec<u8>) -> (r: Result<Vec<u8>, SinkError>)
    ensures
        r is Ok <==> decodes_as_metrics(raw@),
        r matches Ok(b) ==> b@ == export_envelope_of(raw@),
        r matches Err(e) ==> e == SinkError::Serialization,
{
    match export_envelope(raw) {
        Some(b) => Ok(b),
        None => Err(SinkError::Serialization),
    }
}

/// Forwards metrics envelopes to a collector endpoint.
pub struct OtelMetrics {
    endpoint: String,
}

impl OtelMetrics {
    pub closed spec fn spec_endpoint(&self) -> Seq<char> {
        self.endpoint@
    }

    /// A forwarder for `in_endpoint`, or for the default endpoint when it is empty.
    pub fn new(in_endpoint: String) -> (r: Self)
        ensures
            in_endpoint@.len() == 0 ==> r.spec_endpoint() == DEFAULT_METRICS_ENDPOINT@,
            in_endpoint@.len() > 0 ==> r.spec_endpoint() == in_endpoint@,
    {
        let endpoint = if in_endpoint.as_str().is_empty() {
            String::from_str(DEFAULT_METRICS_ENDPOINT)
        } else {
            in_endpoint
        };
        OtelMetrics { endpoint }
    }

    pub fn endpoint(&self) -> (r: &str)
        ensures
            r@ == self.spec_endpoint(),
    {
        self.endpoint.as_str()
    }
}

/// The prefix that sends a destination to a metrics collector.
pub const METRICS_PREFIX: &'static str = "otelm:";

/// Whether `s` begins with `p`.
pub open spec fn has_prefix(s: Seq<char>, p: Seq<char>) -> bool {
    p.len() <= s.len() && s.subrange(0, p.len() as int) == p
}

/// `s` with every leading repetition of a non-empty `p` removed.
pub open spec fn strip_all(s: Seq<char>, p: Seq<char>) -> Seq<char>
    decreases s.len(),
{
    if p.len() > 0 && has_prefix(s, p) {
        strip_all(s.subrange(p.len() as int, s.len() as int), p)
    } else {
        s
    }
}

/// Where forwarded records go.
pub enum Destination {
    /// A metrics collector.
    Metrics(OtelMetrics),
    /// A topic of this name.
    Topic(String),
}

fn starts_with(s: &str, p: &str) -> (r: bool)
    ensures
        r == has_prefix(s@, p@),
{
    let n = p.unicode_len();
    let m = s.unicode_len();
    if n > m {
        return false;
    }
    let mut i: usize = 0;
    while i < n
        invariant
            n == p@.len() <= m == s@.len(),
            i <= n,
            forall|k: int| 0 <= k < i ==> s@[k] == p@[k],
        decreases n - i,
    {
        if s.get_char(i) != p.get_char(i) {
            assert(s@.subrange(0, n as int)[i as int] != p@[i as int]);
            return false;
        }
        i = i + 1;
    }
    assert(s@.subrange(0, n as int) =~= p@);
    true
}

/// Chooses the destination named by `dest`: after the prefix `otelm:` (all
/// its leading repetitions removed) comes a collector endpoint, the default
/// one when nothing follows; any other name is a topic.
pub fn destination(dest: &str) -> (r: Destination)
    ensures
        has_prefix(dest@, METRICS_PREFIX@) ==> (r matches Destination::Metrics(m) && (if strip_all(
            dest@,
            METRICS_PREFIX@,
        ).len() == 0 {
            m.spec_endpoint() == DEFAULT_METRICS_ENDPOINT@
        } else {
            m.spec_endpoint() == strip_all(dest@, METRICS_PREFIX@)
        })),
        !has_prefix(dest@, METRICS_PREFIX@) ==> (r matches Destination::Topic(t) && t@ == dest@),
{
    proof {
        reveal_strlit("otelm:");
    }
    let n = METRICS_PREFIX.unicode_len();
    if !starts_with(dest, METRICS_PREFIX) {
        return Destination::Topic(String::from_str(dest));
    }
    let mut rest: &str = dest;
    let mut more = true;
    while more
        invariant
            n == METRICS_PREFIX@.len() == 6,
            more == has_prefix(rest@, METRICS_PREFIX@),
            strip_all(rest@, METRICS_PREFIX@) == strip_all(dest@, METRICS_PREFIX@),
        decreases rest@.len(),
    {
        let len = rest.unicode_len();
        rest = rest.substring_char(n, len);
        more = starts_with(rest, METRICS_PREFIX);
    }
    Destination::Metrics(OtelMetrics::new(String::from_str(rest)))
}

/// The outcome of one delivery from the endpoint's status and body: any
/// 2xx status succeeds; any other is a delivery error carrying the status
/// and the body unchanged.
pub fn delivery_result(status: u16, body: String) -> (r: Result<(), SinkError>)
    ensures
        200 <= status < 300 ==> r is Ok,
        !(200 <= status < 300) ==> (r matches Err(SinkError::Delivery { status: s, body: b }) && s
            == status && b@ == body@),
{
    if 200 <= status && status < 300 {
        Ok(())
    } else {
        Err(SinkError::Delivery { status, body })
    }
}

/// One row for the analytical store.
#[derive(Debug, PartialEq)]
pub struct Event {
    pub id: String,
    pub timestamp: String,
    pub payload: String,
}

/// The values bound to the three placeholders of `INSERT_EVENT`, in order.
pub fn bind_values(e: &Event) -> (r: Vec<String>)
    ensures
        r@.len() == 3,
        r@[0]@ == e.id@,
        r@[1]@ == e.timestamp@,
        r@[2]@ == e.payload@,
{
    let mut r: Vec<String> = Vec::new();
    r.push(e.id.clone());
    r.push(e.timestamp.clone());
    r.push(e.payload.clone());
    r
}

} // verus!
