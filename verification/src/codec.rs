//! Record codec: the canonical JSON form of a telemetry record, written
//! and read without any outside serializer, with a proved round trip —
//! decoding what the encoder produced yields the identical record.

use crate::json::{
    dec_str, expect_lit, json_object, json_string, lemma_sp_lit, lemma_sp_object_inverts,
    lemma_sp_string_inverts, lemma_sp_u32_inverts, parse_object, parse_string, parse_u32,
    push_decimal, push_json_object, push_json_string, push_str_chars, sp_lit, sp_object,
    sp_string, sp_u32,
};
use crate::telemetry::{
    headers_view, RequestTelemetry, ResponseTelemetry, SectionModel, Telemetry, TelemetryModel,
    Workload, WorkloadModel,
};
use crate::text::{chars_vec, is_digit, string_from_chars};
use vstd::prelude::*;

verus! {

/// JSON form of a workload: name, namespace, ip and port, in this order.
pub open spec fn json_workload(w: WorkloadModel) -> Seq<char> {
    "{\"name\":"@ + json_string(w.name) + ",\"namespace\":"@ + json_string(w.namespace)
        + ",\"ip\":"@ + json_string(w.ip) + ",\"port\":"@ + dec_str(w.port as nat) + seq!['}']
}

/// JSON form of the request half: headers, source workload, body.
pub open spec fn json_request(s: SectionModel) -> Seq<char> {
    "{\"headers\":"@ + json_object(s.headers) + ",\"source\":"@ + json_workload(s.who)
        + ",\"body\":"@ + json_string(s.body) + seq!['}']
}

/// JSON form of the response half: headers, destination workload, body.
pub open spec fn json_response(s: SectionModel) -> Seq<char> {
    "{\"headers\":"@ + json_object(s.headers) + ",\"destination\":"@ + json_workload(s.who)
        + ",\"body\":"@ + json_string(s.body) + seq!['}']
}

/// JSON form of a whole telemetry record.
pub open spec fn json_telemetry(t: TelemetryModel) -> Seq<char> {
    "{\"context_id\":"@ + dec_str(t.context_id as nat) + ",\"request\":"@ + json_request(t.request)
        + ",\"response\":"@ + json_response(t.response) + seq!['}']
}

/// Read a workload object in canonical field order.
pub open spec fn sp_workload(s: Seq<char>) -> Option<(WorkloadModel, Seq<char>)> {
    match sp_lit(s, "{\"name\":"@) {
        None => None,
        Some(r1) => match sp_string(r1) {
            None => None,
            Some((name, r2)) => match sp_lit(r2, ",\"namespace\":"@) {
                None => None,
                Some(r3) => match sp_string(r3) {
                    None => None,
                    Some((namespace, r4)) => match sp_lit(r4, ",\"ip\":"@) {
                        None => None,
                        Some(r5) => match sp_string(r5) {
                            None => None,
                            Some((ip, r6)) => match sp_lit(r6, ",\"port\":"@) {
                                None => None,
                                Some(r7) => match sp_u32(r7) {
                                    None => None,
                                    Some((port, r8)) => if port <= u16::MAX as u32 && r8.len() > 0
                                        && r8[0] == '}' {
                                        Some(
                                            (
                                                WorkloadModel {
                                                    name,
                                                    namespace,
                                                    ip,
                                                    port: port as u16,
                                                },
                                                r8.skip(1),
                                            ),
                                        )
                                    } else {
                                        None
                                    },
                                },
                            },
                        },
                    },
                },
            },
        },
    }
}

/// Read one half of the record, with `who_key` naming the workload field
/// (`,"source":` or `,"destination":`).
pub open spec fn sp_section(s: Seq<char>, who_key: Seq<char>) -> Option<(SectionModel, Seq<char>)> {
    match sp_lit(s, "{\"headers\":"@) {
        None => None,
        Some(r1) => match sp_object(r1) {
            None => None,
            Some((headers, r2)) => match sp_lit(r2, who_key) {
                None => None,
                Some(r3) => match sp_workload(r3) {
                    None => None,
                    Some((who, r4)) => match sp_lit(r4, ",\"body\":"@) {
                        None => None,
                        Some(r5) => match sp_string(r5) {
                            None => None,
                            Some((body, r6)) => if r6.len() > 0 && r6[0] == '}' {
                                Some((SectionModel { headers, who, body }, r6.skip(1)))
                            } else {
                                None
                            },
                        },
                    },
                },
            },
        },
    }
}

/// Read a whole record; the input must be consumed exactly.
pub open spec fn sp_telemetry(s: Seq<char>) -> Option<TelemetryModel> {
    match sp_lit(s, "{\"context_id\":"@) {
        None => None,
        Some(r1) => match sp_u32(r1) {
            None => None,
            Some((context_id, r2)) => match sp_lit(r2, ",\"request\":"@) {
                None => None,
                Some(r3) => match sp_section(r3, ",\"source\":"@) {
                    None => None,
                    Some((request, r4)) => match sp_lit(r4, ",\"response\":"@) {
                        None => None,
                        Some(r5) => match sp_section(r5, ",\"destination\":"@) {
                            None => None,
                            Some((response, r6)) => if r6.len() == 1 && r6[0] == '}' {
                                Some(TelemetryModel { context_id, request, response })
                            } else {
                                None
                            },
                        },
                    },
                },
            },
        },
    }
}

/// Append the JSON form of a workload.
fn push_workload(out: &mut Vec<char>, w: &Workload)
    ensures
        final(out)@ == old(out)@ + json_workload(w@),
{
    push_str_chars(out, "{\"name\":");
    push_json_string(out, w.name.as_str());
    push_str_chars(out, ",\"namespace\":");
    push_json_string(out, w.namespace.as_str());
    push_str_chars(out, ",\"ip\":");
    push_json_string(out, w.ip.as_str());
    push_str_chars(out, ",\"port\":");
    push_decimal(out, w.port as u64);
    out.push('}');
    proof {
        assert(out@ =~= old(out)@ + json_workload(w@));
    }
}

/// Append the JSON form of the request half.
fn push_request(out: &mut Vec<char>, s: &RequestTelemetry)
    ensures
        final(out)@ == old(out)@ + json_request(s@),
{
    push_str_chars(out, "{\"headers\":");
    push_json_object(out, &s.headers);
    push_str_chars(out, ",\"source\":");
    push_workload(out, &s.source);
    push_str_chars(out, ",\"body\":");
    push_json_string(out, s.body.as_str());
    out.push('}');
    proof {
        assert(out@ =~= old(out)@ + json_request(s@));
    }
}

/// Append the JSON form of the response half.
fn push_response(out: &mut Vec<char>, s: &ResponseTelemetry)
    ensures
        final(out)@ == old(out)@ + json_response(s@),
{
    push_str_chars(out, "{\"headers\":");
    push_json_object(out, &s.headers);
    push_str_chars(out, ",\"destination\":");
    push_workload(out, &s.destination);
    push_str_chars(out, ",\"body\":");
    push_json_string(out, s.body.as_str());
    out.push('}');
    proof {
        assert(out@ =~= old(out)@ + json_response(s@));
    }
}

/// Serialize a telemetry record to its canonical JSON text.
pub fn encode_telemetry(t: &Telemetry) -> (r: String)
    ensures
        r@ == json_telemetry(t@),
{
    let mut out: Vec<char> = Vec::new();
    push_str_chars(&mut out, "{\"context_id\":");
    push_decimal(&mut out, t.context_id as u64);
    push_str_chars(&mut out, ",\"request\":");
    push_request(&mut out, &t.request);
    push_str_chars(&mut out, ",\"response\":");
    push_response(&mut out, &t.response);
    out.push('}');
    proof {
        assert(out@ =~= json_telemetry(t@));
    }
    string_from_chars(&out)
}

/// Read a workload object at position `i`.
fn parse_workload(s: &Vec<char>, i: usize) -> (r: Option<(Workload, usize)>)
    requires
        i <= s@.len(),
    ensures
        match r {
            Some((w, j)) => i <= j <= s@.len() && sp_workload(s@.skip(i as int)) == Some(
                (w@, s@.skip(j as int)),
            ),
            None => sp_workload(s@.skip(i as int)) is None,
        },
{
    let j1 = match expect_lit(s, i, "{\"name\":") {
        Some(j) => j,
        None => {
            return None;
        },
    };
    let (name, j2) = match parse_string(s, j1) {
        Some(p) => p,
        None => {
            return None;
        },
    };
    let j3 = match expect_lit(s, j2, ",\"namespace\":") {
        Some(j) => j,
        None => {
            return None;
        },
    };
    let (namespace, j4) = match parse_string(s, j3) {
        Some(p) => p,
        None => {
            return None;
        },
    };
    let j5 = match expect_lit(s, j4, ",\"ip\":") {
        Some(j) => j,
        None => {
            return None;
        },
    };
    let (ip, j6) = match parse_string(s, j5) {
        Some(p) => p,
        None => {
            return None;
        },
    };
    let j7 = match expect_lit(s, j6, ",\"port\":") {
        Some(j) => j,
        None => {
            return None;
        },
    };
    let (port, j8) = match parse_u32(s, j7) {
        Some(p) => p,
        None => {
            return None;
        },
    };
    if port > u16::MAX as u32 {
        return None;
    }
    if j8 == s.len() || s[j8] != '}' {
        proof {
            if j8 < s@.len() {
                assert(s@.skip(j8 as int)[0] == s@[j8 as int]);
            }
        }
        return None;
    }
    proof {
        assert(s@.skip(j8 as int)[0] == s@[j8 as int]);
        assert(s@.skip(j8 as int).skip(1) =~= s@.skip(j8 as int + 1));
    }
    let w = Workload { name, namespace, ip, port: port as u16 };
    Some((w, j8 + 1))
}

/// Read the request half at position `i`.
fn parse_request(s: &Vec<char>, i: usize) -> (r: Option<(RequestTelemetry, usize)>)
    requires
        i <= s@.len(),
    ensures
        match r {
            Some((sec, j)) => i <= j <= s@.len() && sp_section(
                s@.skip(i as int),
                ",\"source\":"@,
            ) == Some((sec@, s@.skip(j as int))),
            None => sp_section(s@.skip(i as int), ",\"source\":"@) is None,
        },
{
    let j1 = match expect_lit(s, i, "{\"headers\":") {
        Some(j) => j,
        None => {
            return None;
        },
    };
    let (headers, j2) = match parse_object(s, j1) {
        Some(p) => p,
        None => {
            return None;
        },
    };
    let j3 = match expect_lit(s, j2, ",\"source\":") {
        Some(j) => j,
        None => {
            return None;
        },
    };
    let (who, j4) = match parse_workload(s, j3) {
        Some(p) => p,
        None => {
            return None;
        },
    };
    let j5 = match expect_lit(s, j4, ",\"body\":") {
        Some(j) => j,
        None => {
            return None;
        },
    };
    let (body, j6) = match parse_string(s, j5) {
        Some(p) => p,
        None => {
            return None;
        },
    };
    if j6 == s.len() || s[j6] != '}' {
        proof {
            if j6 < s@.len() {
                assert(s@.skip(j6 as int)[0] == s@[j6 as int]);
            }
        }
        return None;
    }
    proof {
        assert(s@.skip(j6 as int)[0] == s@[j6 as int]);
        assert(s@.skip(j6 as int).skip(1) =~= s@.skip(j6 as int + 1));
    }
    let sec = RequestTelemetry { headers, source: who, body };
    Some((sec, j6 + 1))
}

/// Read the response half at position `i`.
fn parse_response(s: &Vec<char>, i: usize) -> (r: Option<(ResponseTelemetry, usize)>)
    requires
        i <= s@.len(),
    ensures
        match r {
            Some((sec, j)) => i <= j <= s@.len() && sp_section(
                s@.skip(i as int),
                ",\"destination\":"@,
            ) == Some((sec@, s@.skip(j as int))),
            None => sp_section(s@.skip(i as int), ",\"destination\":"@) is None,
        },
{
    let j1 = match expect_lit(s, i, "{\"headers\":") {
        Some(j) => j,
        None => {
            return None;
        },
    };
    let (headers, j2) = match parse_object(s, j1) {
        Some(p) => p,
        None => {
            return None;
        },
    };
    let j3 = match expect_lit(s, j2, ",\"destination\":") {
        Some(j) => j,
        None => {
            return None;
        },
    };
    let (who, j4) = match parse_workload(s, j3) {
        Some(p) => p,
        None => {
            return None;
        },
    };
    let j5 = match expect_lit(s, j4, ",\"body\":") {
        Some(j) => j,
        None => {
            return None;
        },
    };
    let (body, j6) = match parse_string(s, j5) {
        Some(p) => p,
        None => {
            return None;
        },
    };
    if j6 == s.len() || s[j6] != '}' {
        proof {
            if j6 < s@.len() {
                assert(s@.skip(j6 as int)[0] == s@[j6 as int]);
            }
        }
        return None;
    }
    proof {
        assert(s@.skip(j6 as int)[0] == s@[j6 as int]);
        assert(s@.skip(j6 as int).skip(1) =~= s@.skip(j6 as int + 1));
    }
    let sec = ResponseTelemetry { headers, destination: who, body };
    Some((sec, j6 + 1))
}

/// Parse the canonical JSON text of a telemetry record, as the collector
/// side would; anything but the exact canonical shape is refused.
#[verifier::rlimit(50)]
pub fn decode_telemetry(s: &str) -> (r: Option<Telemetry>)
    ensures
        match r {
            Some(t) => sp_telemetry(s@) == Some(t@),
            None => sp_telemetry(s@) is None,
        },
{
    let v = chars_vec(s);
    proof {
        assert(v@.skip(0) =~= v@);
    }
    let j1 = match expect_lit(&v, 0, "{\"context_id\":") {
        Some(j) => j,
        None => {
            return None;
        },
    };
    let (context_id, j2) = match parse_u32(&v, j1) {
        Some(p) => p,
        None => {
            return None;
        },
    };
    let j3 = match expect_lit(&v, j2, ",\"request\":") {
        Some(j) => j,
        None => {
            return None;
        },
    };
    let (request, j4) = match parse_request(&v, j3) {
        Some(p) => p,
        None => {
            return None;
        },
    };
    let j5 = match expect_lit(&v, j4, ",\"response\":") {
        Some(j) => j,
        None => {
            return None;
        },
    };
    let (response, j6) = match parse_response(&v, j5) {
        Some(p) => p,
        None => {
            return None;
        },
    };
    proof {
        if j6 < v@.len() {
            assert(v@.skip(j6 as int)[0] == v@[j6 as int]);
        }
    }
    if j6 == v.len() || v[j6] != '}' {
        return None;
    }
    if j6 + 1 != v.len() {
        return None;
    }
    let t = Telemetry { context_id, request, response };
    Some(t)
}

/// Reading a workload object undoes `json_workload` exactly.
pub proof fn lemma_workload_round_trip(w: WorkloadModel, rest: Seq<char>)
    ensures
        sp_workload(json_workload(w) + rest) == Some((w, rest)),
{
    let s = json_workload(w) + rest;
    let z1 = seq!['}'] + rest;
    let z2 = dec_str(w.port as nat) + z1;
    let z3 = ",\"port\":"@ + z2;
    let z4 = json_string(w.ip) + z3;
    let z5 = ",\"ip\":"@ + z4;
    let z6 = json_string(w.namespace) + z5;
    let z7 = ",\"namespace\":"@ + z6;
    let z8 = json_string(w.name) + z7;
    let z9 = "{\"name\":"@ + z8;
    assert(s =~= z9);
    lemma_sp_lit("{\"name\":"@, z8);
    lemma_sp_string_inverts(w.name, z7);
    lemma_sp_lit(",\"namespace\":"@, z6);
    lemma_sp_string_inverts(w.namespace, z5);
    lemma_sp_lit(",\"ip\":"@, z4);
    lemma_sp_string_inverts(w.ip, z3);
    lemma_sp_lit(",\"port\":"@, z2);
    assert(z1[0] == '}');
    assert(!is_digit('}'));
    lemma_sp_u32_inverts(w.port as nat, z1);
    assert(z1.skip(1) =~= rest);
    assert(WorkloadModel {
        name: w.name,
        namespace: w.namespace,
        ip: w.ip,
        port: ((w.port as nat) as u32) as u16,
    } =~= w);
}

/// Reading the request half undoes `json_request` exactly.
#[verifier::rlimit(80)]
pub proof fn lemma_request_round_trip(sec: SectionModel, rest: Seq<char>)
    ensures
        sp_section(json_request(sec) + rest, ",\"source\":"@) == Some((sec, rest)),
{
    let s = json_request(sec) + rest;
    let z1 = seq!['}'] + rest;
    let z2 = json_string(sec.body) + z1;
    let z3 = ",\"body\":"@ + z2;
    let z4 = json_workload(sec.who) + z3;
    let z5 = ",\"source\":"@ + z4;
    let z6 = json_object(sec.headers) + z5;
    let z7 = "{\"headers\":"@ + z6;
    assert(s =~= z7);
    lemma_sp_lit("{\"headers\":"@, z6);
    lemma_sp_object_inverts(sec.headers, z5);
    lemma_sp_lit(",\"source\":"@, z4);
    lemma_workload_round_trip(sec.who, z3);
    lemma_sp_lit(",\"body\":"@, z2);
    lemma_sp_string_inverts(sec.body, z1);
    assert(z1[0] == '}');
    assert(z1.skip(1) =~= rest);
    assert(SectionModel { headers: sec.headers, who: sec.who, body: sec.body } =~= sec);
}

/// Reading the response half undoes `json_response` exactly.
#[verifier::rlimit(80)]
pub proof fn lemma_response_round_trip(sec: SectionModel, rest: Seq<char>)
    ensures
        sp_section(json_response(sec) + rest, ",\"destination\":"@) == Some((sec, rest)),
{
    let s = json_response(sec) + rest;
    let z1 = seq!['}'] + rest;
    let z2 = json_string(sec.body) + z1;
    let z3 = ",\"body\":"@ + z2;
    let z4 = json_workload(sec.who) + z3;
    let z5 = ",\"destination\":"@ + z4;
    let z6 = json_object(sec.headers) + z5;
    let z7 = "{\"headers\":"@ + z6;
    assert(s =~= z7);
    lemma_sp_lit("{\"headers\":"@, z6);
    lemma_sp_object_inverts(sec.headers, z5);
    lemma_sp_lit(",\"destination\":"@, z4);
    lemma_workload_round_trip(sec.who, z3);
    lemma_sp_lit(",\"body\":"@, z2);
    lemma_sp_string_inverts(sec.body, z1);
    assert(z1[0] == '}');
    assert(z1.skip(1) =~= rest);
    assert(SectionModel { headers: sec.headers, who: sec.who, body: sec.body } =~= sec);
}

/// Schema round trip: the canonical JSON text of any record reads back as
/// the identical record, field for field.
#[verifier::rlimit(80)]
pub proof fn lemma_telemetry_round_trip(t: TelemetryModel)
    ensures
        sp_telemetry(json_telemetry(t)) == Some(t),
{
    let s = json_telemetry(t);
    let z1 = seq!['}'];
    let z2 = json_response(t.response) + z1;
    let z3 = ",\"response\":"@ + z2;
    let z4 = json_request(t.request) + z3;
    let z5 = ",\"request\":"@ + z4;
    let z6 = dec_str(t.context_id as nat) + z5;
    let z7 = "{\"context_id\":"@ + z6;
    assert(s =~= z7);
    lemma_sp_lit("{\"context_id\":"@, z6);
    reveal_strlit(",\"request\":");
    assert(z5[0] == ',');
    assert(!is_digit(','));
    lemma_sp_u32_inverts(t.context_id as nat, z5);
    lemma_sp_lit(",\"request\":"@, z4);
    lemma_request_round_trip(t.request, z3);
    lemma_sp_lit(",\"response\":"@, z2);
    lemma_response_round_trip(t.response, z1);
    assert(z1.len() == 1 && z1[0] == '}');
    assert(TelemetryModel {
        context_id: ((t.context_id as nat) as u32),
        request: t.request,
        response: t.response,
    } =~= t);
}

} // verus!
