//! The telemetry record and the Telemetry Assembler.
//!
//! A [`Telemetry`] value accumulates what the filter observes about one
//! HTTP exchange. Every lifecycle phase contributes through one of the
//! `apply_*` methods; a failed extraction leaves the affected fields at
//! their empty defaults and never corrupts the rest of the record.

use crate::address::{address_host, address_ok, address_port, get_url_and_port};
use crate::identity::{
    find_name_and_namespace, find_upstream_name_and_namespace, peer_name, peer_namespace,
    upstream_name, upstream_namespace,
};
use vstd::pervasive::VecAdditionalExecFns;
use vstd::prelude::*;

verus! {

/// Mathematical view of a header list: name/value pairs of character
/// sequences.
pub type HeaderSeq = Seq<(Seq<char>, Seq<char>)>;

/// The header map denoted by a header list: one entry per name, the last
/// occurrence of a duplicate name winning.
pub open spec fn headers_map(hs: HeaderSeq) -> Map<Seq<char>, Seq<char>>
    decreases hs.len(),
{
    if hs.len() == 0 {
        Map::<Seq<char>, Seq<char>>::empty()
    } else {
        headers_map(hs.drop_last()).insert(hs.last().0, hs.last().1)
    }
}

/// No header name occurs twice.
pub open spec fn unique_keys(hs: HeaderSeq) -> bool {
    forall|i: int, j: int| 0 <= i < j < hs.len() ==> hs[i].0 != hs[j].0
}

/// View of an owned header list.
pub open spec fn headers_view(hs: Seq<(String, String)>) -> HeaderSeq {
    hs.map_values(|p: (String, String)| (p.0@, p.1@))
}

/// Replacing the value at an index whose key is `k` denotes the same map
/// as inserting `(k, v)`, provided no other index holds `k`.
proof fn lemma_headers_map_update(hs: HeaderSeq, j: int, k: Seq<char>, v: Seq<char>)
    requires
        0 <= j < hs.len(),
        hs[j].0 == k,
        unique_keys(hs),
    ensures
        headers_map(hs.update(j, (k, v))) =~= headers_map(hs).insert(k, v),
    decreases hs.len(),
{
    let hs2 = hs.update(j, (k, v));
    if j == hs.len() - 1 {
        assert(hs2.drop_last() =~= hs.drop_last());
        assert(hs2.last() == (k, v));
    } else {
        assert(hs2.drop_last() =~= hs.drop_last().update(j, (k, v)));
        assert(hs.drop_last()[j].0 == k);
        lemma_headers_map_update(hs.drop_last(), j, k, v);
        assert(hs.last().0 != k);
    }
}

/// A pushed pair denotes an insertion.
proof fn lemma_headers_map_push(hs: HeaderSeq, k: Seq<char>, v: Seq<char>)
    ensures
        headers_map(hs.push((k, v))) =~= headers_map(hs).insert(k, v),
{
    assert(hs.push((k, v)).drop_last() =~= hs);
    assert(hs.push((k, v)).last() == (k, v));
}

/// Some entry of `hs` bears the name `k`.
pub open spec fn has_key(hs: HeaderSeq, k: Seq<char>) -> bool {
    exists|j: int| 0 <= j < hs.len() && hs[j].0 == k
}

/// The index of the entry named `k` (unique when the keys are unique).
pub open spec fn key_index(hs: HeaderSeq, k: Seq<char>) -> int {
    choose|j: int| 0 <= j < hs.len() && hs[j].0 == k
}

/// The header list as stored: one entry per name in order of first
/// occurrence, each holding the last value seen for that name.
pub open spec fn dedup_headers(hs: HeaderSeq) -> HeaderSeq
    decreases hs.len(),
{
    if hs.len() == 0 {
        Seq::<(Seq<char>, Seq<char>)>::empty()
    } else {
        let prev = dedup_headers(hs.drop_last());
        if has_key(prev, hs.last().0) {
            prev.update(key_index(prev, hs.last().0), hs.last())
        } else {
            prev.push(hs.last())
        }
    }
}

/// The stored list has unique names and denotes the same map as the raw
/// list it came from.
pub proof fn lemma_dedup_headers(hs: HeaderSeq)
    ensures
        unique_keys(dedup_headers(hs)),
        headers_map(dedup_headers(hs)) == headers_map(hs),
        dedup_headers(hs).len() <= hs.len(),
    decreases hs.len(),
{
    if hs.len() > 0 {
        lemma_dedup_headers(hs.drop_last());
        let prev = dedup_headers(hs.drop_last());
        let k = hs.last().0;
        let v = hs.last().1;
        if has_key(prev, k) {
            let j = key_index(prev, k);
            assert(0 <= j < prev.len() && prev[j].0 == k);
            lemma_headers_map_update(prev, j, k, v);
            let upd = prev.update(j, (k, v));
            assert(forall|t: int| 0 <= t < prev.len() ==> upd[t].0 == prev[t].0);
            assert(headers_map(dedup_headers(hs)) =~= headers_map(hs));
        } else {
            lemma_headers_map_push(prev, k, v);
            assert(headers_map(dedup_headers(hs)) =~= headers_map(hs));
        }
    }
}

/// Position of the entry named `name`, if one exists.
fn find_key(out: &Vec<(String, String)>, name: &String) -> (r: Option<usize>)
    ensures
        match r {
            Some(j) => j < out@.len() && headers_view(out@)[j as int].0 == name@,
            None => forall|t: int| 0 <= t < out@.len() ==> headers_view(out@)[t].0 != name@,
        },
{
    let n = out.len();
    let mut j: usize = 0;
    while j < n
        invariant
            j <= n,
            n == out@.len(),
            forall|t: int| 0 <= t < j ==> headers_view(out@)[t].0 != name@,
        decreases n - j,
    {
        if out[j].0 == *name {
            proof {
                assert(headers_view(out@)[j as int].0 == out@[j as int].0@);
            }
            return Some(j);
        }
        proof {
            assert(headers_view(out@)[j as int].0 == out@[j as int].0@);
        }
        j += 1;
    }
    None
}

/// Store a host-delivered header list as a map: one entry per name in
/// order of first occurrence, with the last occurrence of a duplicate
/// name winning.
pub fn capture_headers(raw: Vec<(String, String)>) -> (out: Vec<(String, String)>)
    ensures
        headers_view(out@) == dedup_headers(headers_view(raw@)),
        unique_keys(headers_view(out@)),
        headers_map(headers_view(out@)) == headers_map(headers_view(raw@)),
        out@.len() <= raw@.len(),
{
    let ghost rawv = headers_view(raw@);
    let mut out: Vec<(String, String)> = Vec::new();
    let n = raw.len();
    let mut i: usize = 0;
    proof {
        assert(rawv.take(0) =~= Seq::<(Seq<char>, Seq<char>)>::empty());
    }
    while i < n
        invariant
            i <= n,
            n == raw@.len(),
            rawv == headers_view(raw@),
            headers_view(out@) == dedup_headers(rawv.take(i as int)),
            out@.len() <= i,
        decreases n - i,
    {
        let ghost prev = headers_view(out@);
        let name = raw[i].0.clone();
        let value = raw[i].1.clone();
        proof {
            lemma_dedup_headers(rawv.take(i as int));
            assert(rawv.take(i + 1).drop_last() =~= rawv.take(i as int));
            assert(rawv.take(i + 1).last() == (raw@[i as int].0@, raw@[i as int].1@));
        }
        match find_key(&out, &name) {
            Some(j) => {
                proof {
                    assert(prev[j as int].0 == name@);
                    assert(has_key(prev, name@));
                    let jj = key_index(prev, name@);
                    assert(0 <= jj < prev.len() && prev[jj].0 == name@);
                    assert(jj == j);
                }
                out.set(j, (name, value));
                proof {
                    assert(headers_view(out@) =~= prev.update(j as int, (raw@[i as int].0@, raw@[
                        i as int].1@)));
                    assert(headers_view(out@) =~= dedup_headers(rawv.take(i + 1)));
                }
            },
            None => {
                proof {
                    assert(!has_key(prev, name@));
                }
                out.push((name, value));
                proof {
                    assert(headers_view(out@) =~= prev.push((raw@[i as int].0@, raw@[
                        i as int].1@)));
                    assert(headers_view(out@) =~= dedup_headers(rawv.take(i + 1)));
                }
            },
        }
        i += 1;
    }
    proof {
        assert(rawv.take(n as int) =~= rawv);
        lemma_dedup_headers(rawv);
    }
    out
}

/// Identity and address of the workload on one side of an exchange.
pub struct Workload {
    pub name: String,
    pub namespace: String,
    pub ip: String,
    pub port: u16,
}

/// Mathematical view of a [`Workload`].
#[verifier::ext_equal]
pub ghost struct WorkloadModel {
    pub name: Seq<char>,
    pub namespace: Seq<char>,
    pub ip: Seq<char>,
    pub port: u16,
}

impl View for Workload {
    type V = WorkloadModel;

    open spec fn view(&self) -> WorkloadModel {
        WorkloadModel { name: self.name@, namespace: self.namespace@, ip: self.ip@, port: self.port }
    }
}

/// The all-empty workload: unset fields default to empty strings and a
/// zero port, never to an absent value.
pub open spec fn empty_workload() -> WorkloadModel {
    WorkloadModel { name: Seq::empty(), namespace: Seq::empty(), ip: Seq::empty(), port: 0 }
}

impl Workload {
    /// A workload with every field at its empty default.
    pub fn empty() -> (w: Workload)
        ensures
            w@ == empty_workload(),
    {
        let w = Workload {
            name: String::new(),
            namespace: String::new(),
            ip: String::new(),
            port: 0,
        };
        proof {
            assert(w@ =~= empty_workload());
        }
        w
    }
}

/// What the filter captured about the request half of an exchange.
pub struct RequestTelemetry {
    pub headers: Vec<(String, String)>,
    pub source: Workload,
    pub body: String,
}

/// What the filter captured about the response half of an exchange.
pub struct ResponseTelemetry {
    pub headers: Vec<(String, String)>,
    pub destination: Workload,
    pub body: String,
}

/// Mathematical view of one half of the record.
#[verifier::ext_equal]
pub ghost struct SectionModel {
    pub headers: HeaderSeq,
    pub who: WorkloadModel,
    pub body: Seq<char>,
}

impl View for RequestTelemetry {
    type V = SectionModel;

    open spec fn view(&self) -> SectionModel {
        SectionModel { headers: headers_view(self.headers@), who: self.source@, body: self.body@ }
    }
}

impl View for ResponseTelemetry {
    type V = SectionModel;

    open spec fn view(&self) -> SectionModel {
        SectionModel {
            headers: headers_view(self.headers@),
            who: self.destination@,
            body: self.body@,
        }
    }
}

/// The empty section.
pub open spec fn empty_section() -> SectionModel {
    SectionModel { headers: Seq::empty(), who: empty_workload(), body: Seq::empty() }
}

/// One exchange's telemetry record.
pub struct Telemetry {
    pub context_id: u32,
    pub request: RequestTelemetry,
    pub response: ResponseTelemetry,
}

/// Mathematical view of a [`Telemetry`] record.
#[verifier::ext_equal]
pub ghost struct TelemetryModel {
    pub context_id: u32,
    pub request: SectionModel,
    pub response: SectionModel,
}

impl View for Telemetry {
    type V = TelemetryModel;

    open spec fn view(&self) -> TelemetryModel {
        TelemetryModel {
            context_id: self.context_id,
            request: self.request@,
            response: self.response@,
        }
    }
}

/// Every header list of the record holds each name once.
pub open spec fn wf_telemetry(t: TelemetryModel) -> bool {
    unique_keys(t.request.headers) && unique_keys(t.response.headers)
}

/// The fresh record for a newly created exchange.
pub open spec fn empty_telemetry(context_id: u32) -> TelemetryModel {
    TelemetryModel {
        context_id: context_id,
        request: empty_section(),
        response: empty_section(),
    }
}

/// Address fields extracted from a `"host:port"` property, or the empty
/// defaults.
pub open spec fn extracted_host(s: Seq<char>) -> Seq<char> {
    if address_ok(s) {
        address_host(s)
    } else {
        Seq::<char>::empty()
    }
}

/// Port extracted from a `"host:port"` property, or zero.
pub open spec fn extracted_port(s: Seq<char>) -> u16 {
    if address_ok(s) {
        address_port(s)
    } else {
        0
    }
}

/// The request section after the request-headers phase: `headers` is the
/// raw host-delivered list, stored deduplicated.
pub open spec fn request_headers_applied(
    old_sec: SectionModel,
    headers: HeaderSeq,
    source_address: Seq<char>,
    peer_header: Seq<char>,
) -> SectionModel {
    SectionModel {
        headers: dedup_headers(headers),
        who: WorkloadModel {
            name: peer_name(peer_header),
            namespace: peer_namespace(peer_header),
            ip: extracted_host(source_address),
            port: extracted_port(source_address),
        },
        body: old_sec.body,
    }
}

/// The response section after the response-headers phase: `headers` is
/// the raw host-delivered list, stored deduplicated.
pub open spec fn response_headers_applied(
    old_sec: SectionModel,
    headers: HeaderSeq,
    destination_address: Seq<char>,
    upstream_metadata: Seq<char>,
) -> SectionModel {
    SectionModel {
        headers: dedup_headers(headers),
        who: WorkloadModel {
            name: upstream_name(upstream_metadata),
            namespace: upstream_namespace(upstream_metadata),
            ip: extracted_host(destination_address),
            port: extracted_port(destination_address),
        },
        body: old_sec.body,
    }
}

/// The captured body after one body-chunk phase: a non-empty chunk
/// replaces the stored body, an empty chunk leaves it untouched, so a
/// captured non-empty body never regresses to empty.
pub open spec fn body_applied(old_body: Seq<char>, chunk: Seq<char>) -> Seq<char> {
    if chunk.len() > 0 {
        chunk
    } else {
        old_body
    }
}

/// The captured body after a whole sequence of chunk events.
pub open spec fn body_after_chunks(b: Seq<char>, chunks: Seq<Seq<char>>) -> Seq<char>
    decreases chunks.len(),
{
    if chunks.len() == 0 {
        b
    } else {
        body_after_chunks(body_applied(b, chunks[0]), chunks.drop_first())
    }
}

/// A captured non-empty body never regresses to empty, however many
/// further chunk events arrive and however many of them are empty reads.
pub proof fn lemma_body_never_regresses(b: Seq<char>, chunks: Seq<Seq<char>>)
    requires
        b.len() > 0,
    ensures
        body_after_chunks(b, chunks).len() > 0,
    decreases chunks.len(),
{
    if chunks.len() > 0 {
        lemma_body_never_regresses(body_applied(b, chunks[0]), chunks.drop_first());
    }
}

impl Telemetry {
    /// The fresh record for a newly created exchange.
    pub fn new(context_id: u32) -> (t: Telemetry)
        ensures
            t@ == empty_telemetry(context_id),
            wf_telemetry(t@),
    {
        let t = Telemetry {
            context_id: context_id,
            request: RequestTelemetry {
                headers: Vec::new(),
                source: Workload::empty(),
                body: String::new(),
            },
            response: ResponseTelemetry {
                headers: Vec::new(),
                destination: Workload::empty(),
                body: String::new(),
            },
        };
        proof {
            assert(t@ =~= empty_telemetry(context_id));
        }
        t
    }

    /// Request-headers phase: capture the request header set, the source
    /// address, and the source identity. The response half and any
    /// captured request body are untouched.
    pub fn apply_request_headers(
        &mut self,
        headers: Vec<(String, String)>,
        source_address: String,
        peer_header: String,
    )
        ensures
            final(self)@.request == request_headers_applied(
                old(self)@.request,
                headers_view(headers@),
                source_address@,
                peer_header@,
            ),
            unique_keys(final(self)@.request.headers),
            headers_map(final(self)@.request.headers) == headers_map(headers_view(headers@)),
            final(self)@.response == old(self)@.response,
            final(self)@.context_id == old(self)@.context_id,
    {
        let captured = capture_headers(headers);
        let (ip, port) = get_url_and_port(source_address);
        let (name, namespace) = find_name_and_namespace(peer_header);
        self.request.headers = captured;
        self.request.source = Workload { name, namespace, ip, port };
        proof {
            assert(self@.request =~= request_headers_applied(
                old(self)@.request,
                headers_view(headers@),
                source_address@,
                peer_header@,
            ));
        }
    }

    /// Request-body phase: keep the latest non-empty chunk; an empty read
    /// never erases an already captured body.
    pub fn apply_request_body(&mut self, chunk: String)
        ensures
            final(self)@.request.body == body_applied(old(self)@.request.body, chunk@),
            final(self)@.request.headers == old(self)@.request.headers,
            final(self)@.request.who == old(self)@.request.who,
            final(self)@.response == old(self)@.response,
            final(self)@.context_id == old(self)@.context_id,
    {
        if !chunk.as_str().is_empty() {
            self.request.body = chunk;
        }
    }

    /// Response-headers phase: capture the response header set, the
    /// destination address, and the destination identity from the
    /// upstream workload metadata. The request half is untouched.
    pub fn apply_response_headers(
        &mut self,
        headers: Vec<(String, String)>,
        destination_address: String,
        upstream_metadata: String,
    )
        ensures
            final(self)@.response == response_headers_applied(
                old(self)@.response,
                headers_view(headers@),
                destination_address@,
                upstream_metadata@,
            ),
            unique_keys(final(self)@.response.headers),
            headers_map(final(self)@.response.headers) == headers_map(headers_view(headers@)),
            final(self)@.request == old(self)@.request,
            final(self)@.context_id == old(self)@.context_id,
    {
        let captured = capture_headers(headers);
        let (ip, port) = get_url_and_port(destination_address);
        let (name, namespace) = find_upstream_name_and_namespace(upstream_metadata);
        self.response.headers = captured;
        self.response.destination = Workload { name, namespace, ip, port };
        proof {
            assert(self@.response =~= response_headers_applied(
                old(self)@.response,
                headers_view(headers@),
                destination_address@,
                upstream_metadata@,
            ));
        }
    }

    /// Response-body phase: same non-empty-preserving policy as the
    /// request body.
    pub fn apply_response_body(&mut self, chunk: String)
        ensures
            final(self)@.response.body == body_applied(old(self)@.response.body, chunk@),
            final(self)@.response.headers == old(self)@.response.headers,
            final(self)@.response.who == old(self)@.response.who,
            final(self)@.request == old(self)@.request,
            final(self)@.context_id == old(self)@.context_id,
    {
        if !chunk.as_str().is_empty() {
            self.response.body = chunk;
        }
    }
}

} // verus!
