//! Filter Configuration: the collector upstream name, request path and
//! authority, loaded once at filter startup and immutable afterwards.
//!
//! The configuration blob is a JSON object of string fields. A malformed
//! or missing blob yields the empty defaults rather than a failure, so a
//! configuration problem can never halt traffic processing.

use crate::json::{parse_object, sp_object};
use crate::telemetry::{headers_map, headers_view, HeaderSeq};
use crate::text::chars_vec;
use vstd::prelude::*;
use vstd::string::StringExecFns;

verus! {

/// Process-wide filter configuration.
pub struct FilterConfig {
    pub upstream_name: String,
    pub api_path: String,
    pub authority: String,
}

/// Mathematical view of a [`FilterConfig`].
#[verifier::ext_equal]
pub ghost struct FilterConfigModel {
    pub upstream_name: Seq<char>,
    pub api_path: Seq<char>,
    pub authority: Seq<char>,
}

impl View for FilterConfig {
    type V = FilterConfigModel;

    open spec fn view(&self) -> FilterConfigModel {
        FilterConfigModel {
            upstream_name: self.upstream_name@,
            api_path: self.api_path@,
            authority: self.authority@,
        }
    }
}

/// The defaults a failed configuration load leaves behind.
pub open spec fn empty_config() -> FilterConfigModel {
    FilterConfigModel {
        upstream_name: Seq::empty(),
        api_path: Seq::empty(),
        authority: Seq::empty(),
    }
}

impl FilterConfig {
    /// The empty default configuration.
    pub fn empty() -> (c: FilterConfig)
        ensures
            c@ == empty_config(),
    {
        let c = FilterConfig {
            upstream_name: String::new(),
            api_path: String::new(),
            authority: String::new(),
        };
        proof {
            assert(c@ =~= empty_config());
        }
        c
    }

    /// A copy sharing no storage, equal field for field.
    pub fn duplicate(&self) -> (c: FilterConfig)
        ensures
            c@ == self@,
    {
        let c = FilterConfig {
            upstream_name: self.upstream_name.clone(),
            api_path: self.api_path.clone(),
            authority: self.authority.clone(),
        };
        proof {
            assert(c@ =~= self@);
        }
        c
    }
}

/// `c` is insignificant JSON whitespace.
pub open spec fn is_ws(c: char) -> bool {
    c == ' ' || c == '\t' || c == '\n' || c == '\r'
}

/// `s` with whitespace outside string literals removed; `in_str` and
/// `esc_pending` carry the scan state across a string literal.
pub open spec fn strip_ws_from(s: Seq<char>, in_str: bool, esc_pending: bool) -> Seq<char>
    decreases s.len(),
{
    if s.len() == 0 {
        Seq::<char>::empty()
    } else {
        let c = s[0];
        if in_str {
            if esc_pending {
                seq![c] + strip_ws_from(s.drop_first(), true, false)
            } else if c == '\\' {
                seq![c] + strip_ws_from(s.drop_first(), true, true)
            } else if c == '"' {
                seq![c] + strip_ws_from(s.drop_first(), false, false)
            } else {
                seq![c] + strip_ws_from(s.drop_first(), true, false)
            }
        } else {
            if is_ws(c) {
                strip_ws_from(s.drop_first(), false, false)
            } else if c == '"' {
                seq![c] + strip_ws_from(s.drop_first(), true, false)
            } else {
                seq![c] + strip_ws_from(s.drop_first(), false, false)
            }
        }
    }
}

/// `s` with whitespace outside string literals removed.
pub open spec fn strip_ws(s: Seq<char>) -> Seq<char> {
    strip_ws_from(s, false, false)
}

/// Remove insignificant whitespace from the configuration text.
fn strip_whitespace(s: &str) -> (out: Vec<char>)
    ensures
        out@ == strip_ws(s@),
{
    let v = chars_vec(s);
    let n = v.len();
    let mut out: Vec<char> = Vec::new();
    let mut in_str = false;
    let mut esc_pending = false;
    let mut i: usize = 0;
    proof {
        assert(v@.skip(0) =~= v@);
    }
    while i < n
        invariant
            i <= n,
            n == v@.len(),
            v@ == s@,
            in_str ==> !esc_pending || in_str,
            out@ + strip_ws_from(v@.skip(i as int), in_str, esc_pending) == strip_ws(s@),
            !in_str ==> !esc_pending,
        decreases n - i,
    {
        let c = v[i];
        proof {
            assert(v@.skip(i as int)[0] == v@[i as int]);
            assert(v@.skip(i as int).drop_first() =~= v@.skip(i as int + 1));
        }
        let ghost mid = out@;
        if in_str {
            if esc_pending {
                out.push(c);
                esc_pending = false;
            } else if c == '\\' {
                out.push(c);
                esc_pending = true;
            } else if c == '"' {
                out.push(c);
                in_str = false;
            } else {
                out.push(c);
            }
        } else {
            if c == ' ' || c == '\t' || c == '\n' || c == '\r' {
                // dropped
            } else if c == '"' {
                out.push(c);
                in_str = true;
            } else {
                out.push(c);
            }
        }
        i += 1;
    }
    proof {
        assert(v@.skip(n as int) =~= Seq::<char>::empty());
        assert(out@ =~= out@ + strip_ws_from(v@.skip(n as int), in_str, esc_pending));
    }
    out
}

/// The string fields of the configuration object, if the blob (after
/// whitespace removal) is exactly one string-to-string JSON object.
pub open spec fn config_entries(s: Seq<char>) -> Option<HeaderSeq> {
    match sp_object(strip_ws(s)) {
        None => None,
        Some((entries, rest)) => if rest.len() == 0 {
            Some(entries)
        } else {
            None
        },
    }
}

/// The configuration a blob denotes: the three named string fields when
/// all are present (last occurrence of a repeated name winning), and the
/// empty defaults on any malformed or incomplete blob.
pub open spec fn config_of(s: Seq<char>) -> FilterConfigModel {
    match config_entries(s) {
        None => empty_config(),
        Some(entries) => {
            let m = headers_map(entries);
            if m.contains_key("upstream_name"@) && m.contains_key("api_path"@) && m.contains_key(
                "authority"@,
            ) {
                FilterConfigModel {
                    upstream_name: m["upstream_name"@],
                    api_path: m["api_path"@],
                    authority: m["authority"@],
                }
            } else {
                empty_config()
            }
        },
    }
}

/// Value of the last entry named `key`, as `headers_map` denotes it.
fn lookup_last(entries: &Vec<(String, String)>, key: &String) -> (r: Option<String>)
    ensures
        match r {
            Some(v) => headers_map(headers_view(entries@)).contains_key(key@) && v@ == headers_map(
                headers_view(entries@),
            )[key@],
            None => !headers_map(headers_view(entries@)).contains_key(key@),
        },
{
    let ghost full = headers_view(entries@);
    let mut i = entries.len();
    proof {
        assert(full.take(entries@.len() as int) =~= full);
    }
    while i > 0
        invariant
            i <= entries@.len(),
            full == headers_view(entries@),
            headers_map(full).contains_key(key@) == headers_map(full.take(i as int)).contains_key(
                key@,
            ),
            headers_map(full).contains_key(key@) ==> headers_map(full)[key@] == headers_map(
                full.take(i as int),
            )[key@],
        decreases i,
    {
        let ghost cur = full.take(i as int);
        proof {
            assert(cur.drop_last() =~= full.take(i - 1));
            assert(cur.last() == (entries@[i - 1].0@, entries@[i - 1].1@));
        }
        if entries[i - 1].0 == *key {
            let v = entries[i - 1].1.clone();
            proof {
                assert(headers_map(cur) == headers_map(full.take(i - 1)).insert(key@, v@));
            }
            return Some(v);
        }
        proof {
            assert(headers_map(cur) == headers_map(full.take(i - 1)).insert(
                cur.last().0,
                cur.last().1,
            ));
            assert(cur.last().0 != key@);
        }
        i -= 1;
    }
    proof {
        assert(full.take(0) =~= Seq::<(Seq<char>, Seq<char>)>::empty());
    }
    None
}

/// Load the filter configuration from its blob. A malformed blob, or one
/// missing any of the three fields, yields the empty defaults — never a
/// failure.
pub fn parse_filter_config(blob: &str) -> (c: FilterConfig)
    ensures
        c@ == config_of(blob@),
{
    let stripped = strip_whitespace(blob);
    proof {
        assert(stripped@.skip(0) =~= stripped@);
    }
    match parse_object(&stripped, 0) {
        None => FilterConfig::empty(),
        Some((entries, j)) => {
            if j != stripped.len() {
                proof {
                    assert(stripped@.skip(j as int).len() != 0);
                }
                return FilterConfig::empty();
            }
            proof {
                assert(stripped@.skip(j as int).len() == 0);
            }
            let upstream_key = String::from_str("upstream_name");
            let path_key = String::from_str("api_path");
            let authority_key = String::from_str("authority");
            let upstream_name = lookup_last(&entries, &upstream_key);
            let api_path = lookup_last(&entries, &path_key);
            let authority = lookup_last(&entries, &authority_key);
            match (upstream_name, api_path, authority) {
                (Some(u), Some(p), Some(a)) => {
                    let c = FilterConfig { upstream_name: u, api_path: p, authority: a };
                    proof {
                        assert(c@ =~= config_of(blob@));
                    }
                    c
                },
                _ => FilterConfig::empty(),
            }
        },
    }
}

} // verus!
