//! Identity Extractor: decodes two distinct compact encodings of workload
//! identity into a `(name, namespace)` pair.
//!
//! * Source-peer decoding reads the tilde-delimited peer encoding
//!   `"<protocol>~<podIP>~<podName>.<namespace>~<serviceFQDN>"`.
//! * Destination-upstream decoding reads the semicolon-delimited upstream
//!   workload encoding `"<name>;<namespace>;<name>;;<platform>"`.
//!
//! Both decoders treat an absent or malformed input as "no identity
//! available" and yield the empty pair rather than failing.

use crate::text::{find_idx, split_chars, split_string};
use crate::text::find_char;
use vstd::prelude::*;
use vstd::string::StrSliceExecFns;
use vstd::string::StringExecFns;

verus! {

/// Leading portion of `s` up to (not including) the first `sep`, or all of
/// `s` when the separator is absent.
pub open spec fn first_segment(s: Seq<char>, sep: char) -> Seq<char> {
    if find_idx(s, sep) == -1 {
        s
    } else {
        s.take(find_idx(s, sep))
    }
}

/// The tilde-delimited peer encoding has enough fields to carry an
/// identity: the pod-name field (index 2) must exist.
pub open spec fn peer_ok(s: Seq<char>) -> bool {
    s.len() > 0 && split_chars(s, '~').len() >= 3
}

/// Workload name decoded from the peer encoding: the first dot-segment of
/// field index 2.
pub open spec fn peer_name(s: Seq<char>) -> Seq<char> {
    if peer_ok(s) {
        first_segment(split_chars(s, '~')[2], '.')
    } else {
        Seq::<char>::empty()
    }
}

/// Workload namespace decoded from the peer encoding: the first
/// dot-segment of the last field.
pub open spec fn peer_namespace(s: Seq<char>) -> Seq<char> {
    if peer_ok(s) {
        first_segment(split_chars(s, '~').last(), '.')
    } else {
        Seq::<char>::empty()
    }
}

/// Leading segment of `s` up to the first `sep`, as an owned string.
fn leading_segment(s: &str, sep: char) -> (r: String)
    ensures
        r@ == first_segment(s@, sep),
{
    match find_char(s, sep) {
        Some(i) => {
            let piece = s.substring_char(0, i);
            proof {
                assert(piece@ =~= s@.take(i as int));
            }
            String::from_str(piece)
        },
        None => String::from_str(s),
    }
}

/// Decode the tilde-delimited source-peer identity encoding. An input with
/// too few fields, or an empty input, yields the empty pair; no input makes
/// this fail.
pub fn find_name_and_namespace(src_and_ns_header: String) -> (r: (String, String))
    ensures
        r.0@ == peer_name(src_and_ns_header@),
        r.1@ == peer_namespace(src_and_ns_header@),
{
    if src_and_ns_header.as_str().is_empty() {
        return (String::new(), String::new());
    }
    let parts = split_string(src_and_ns_header.as_str(), '~');
    proof {
        assert(parts@.map_values(|p: String| p@).len() == parts@.len());
    }
    if parts.len() < 3 {
        return (String::new(), String::new());
    }
    proof {
        assert(parts@.map_values(|p: String| p@)[2] == parts@[2]@);
        assert(parts@.map_values(|p: String| p@).last() == parts@.last()@);
    }
    let name = leading_segment(parts[2].as_str(), '.');
    let namespace = leading_segment(parts[parts.len() - 1].as_str(), '.');
    (name, namespace)
}

/// The semicolon-delimited upstream encoding is accepted only with exactly
/// 4 or 5 fields.
pub open spec fn upstream_ok(s: Seq<char>) -> bool {
    split_chars(s, ';').len() == 4 || split_chars(s, ';').len() == 5
}

/// Workload name decoded from the upstream encoding: field index 0.
pub open spec fn upstream_name(s: Seq<char>) -> Seq<char> {
    if upstream_ok(s) {
        split_chars(s, ';')[0]
    } else {
        Seq::<char>::empty()
    }
}

/// Workload namespace decoded from the upstream encoding: field index 1.
pub open spec fn upstream_namespace(s: Seq<char>) -> Seq<char> {
    if upstream_ok(s) {
        split_chars(s, ';')[1]
    } else {
        Seq::<char>::empty()
    }
}

/// Decode the semicolon-delimited destination-upstream identity encoding.
/// Any field count other than 4 or 5 leaves the identity unset.
pub fn find_upstream_name_and_namespace(metadata: String) -> (r: (String, String))
    ensures
        r.0@ == upstream_name(metadata@),
        r.1@ == upstream_namespace(metadata@),
{
    let parts = split_string(metadata.as_str(), ';');
    proof {
        assert(parts@.map_values(|p: String| p@).len() == parts@.len());
    }
    if parts.len() == 4 || parts.len() == 5 {
        proof {
            assert(parts@.map_values(|p: String| p@)[0] == parts@[0]@);
            assert(parts@.map_values(|p: String| p@)[1] == parts@[1]@);
        }
        let name = parts[0].clone();
        let namespace = parts[1].clone();
        (name, namespace)
    } else {
        (String::new(), String::new())
    }
}

} // verus!
