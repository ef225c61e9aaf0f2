//! Address Extractor: parses `"host:port"` connection properties into a
//! host string and a numeric port. Anything that is not exactly one
//! separator between two non-empty parts, with a port in the 16-bit
//! range, yields the empty default `("", 0)`.
//!
//! IPv6 literals with embedded colons are not specially handled: they
//! split into more than two parts and so fall back to the default.

use crate::text::{all_digits, dec_value, parse_port, split_chars, split_string};
use vstd::prelude::*;
use vstd::string::StrSliceExecFns;

verus! {

/// The address has the accepted `"host:port"` shape: exactly one `:`,
/// non-empty host and port, port all digits and within 16 bits.
pub open spec fn address_ok(s: Seq<char>) -> bool {
    let parts = split_chars(s, ':');
    parts.len() == 2 && parts[0].len() > 0 && parts[1].len() > 0 && all_digits(parts[1])
        && dec_value(parts[1]) <= u16::MAX
}

/// Host part of an accepted address.
pub open spec fn address_host(s: Seq<char>) -> Seq<char> {
    split_chars(s, ':')[0]
}

/// Port part of an accepted address.
pub open spec fn address_port(s: Seq<char>) -> u16 {
    dec_value(split_chars(s, ':')[1]) as u16
}

/// Split a `"host:port"` connection property. An accepted address yields
/// its exact host substring and numeric port; every other shape yields
/// `("", 0)`.
pub fn get_url_and_port(address: String) -> (r: (String, u16))
    ensures
        address_ok(address@) ==> r.0@ == address_host(address@) && r.1 == address_port(address@),
        !address_ok(address@) ==> r.0@ == Seq::<char>::empty() && r.1 == 0,
{
    let parts = split_string(address.as_str(), ':');
    proof {
        assert(parts@.map_values(|p: String| p@).len() == parts@.len());
    }
    if parts.len() == 2 {
        proof {
            assert(parts@.map_values(|p: String| p@)[0] == parts@[0]@);
            assert(parts@.map_values(|p: String| p@)[1] == parts@[1]@);
        }
        if !parts[0].as_str().is_empty() {
            match parse_port(parts[1].as_str()) {
                Some(port) => {
                    let host = parts[0].clone();
                    return (host, port);
                },
                None => {
                    return (String::new(), 0);
                },
            }
        }
    }
    (String::new(), 0)
}

} // verus!
