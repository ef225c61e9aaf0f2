//! Character-level string utilities: first-occurrence search, splitting on a
//! separator character, and decimal digit strings. These back the address and
//! identity extractors and the record codec.

use vstd::prelude::*;
use vstd::string::StrSliceExecFns;
use vstd::string::StringExecFns;

verus! {

/// Index of the first occurrence of `c` in `s`, or -1 if `c` does not occur.
pub open spec fn find_idx(s: Seq<char>, c: char) -> int
    decreases s.len(),
{
    if s.len() == 0 {
        -1
    } else if s[0] == c {
        0
    } else if find_idx(s.drop_first(), c) == -1 {
        -1
    } else {
        find_idx(s.drop_first(), c) + 1
    }
}

/// `find_idx` returns -1 exactly when `c` is absent, and otherwise the
/// smallest index holding `c`.
pub proof fn lemma_find_idx(s: Seq<char>, c: char)
    ensures
        (find_idx(s, c) == -1) <==> (forall|k: int| 0 <= k < s.len() ==> s[k] != c),
        find_idx(s, c) != -1 ==> 0 <= find_idx(s, c) < s.len() && s[find_idx(s, c)] == c
            && (forall|k: int| 0 <= k < find_idx(s, c) ==> s[k] != c),
    decreases s.len(),
{
    if s.len() != 0 && s[0] != c {
        lemma_find_idx(s.drop_first(), c);
        assert(forall|k: int| 1 <= k < s.len() ==> s[k] == s.drop_first()[k - 1]);
    }
}

/// Position of the first `c` in `s`, if any.
pub fn find_char(s: &str, c: char) -> (r: Option<usize>)
    ensures
        match r {
            Some(i) => i < s@.len() && find_idx(s@, c) == i as int,
            None => find_idx(s@, c) == -1,
        },
{
    let n = s.unicode_len();
    let mut i: usize = 0;
    while i < n
        invariant
            i <= n,
            n == s@.len(),
            forall|k: int| 0 <= k < i ==> s@[k] != c,
        decreases n - i,
    {
        if s.get_char(i) == c {
            proof {
                lemma_find_idx(s@, c);
            }
            return Some(i);
        }
        i += 1;
    }
    proof {
        lemma_find_idx(s@, c);
    }
    None
}

/// The fields of `s` split on the separator `c`: a string without the
/// separator is a single field, and every separator ends one field and
/// starts the next, so `n` separators yield `n + 1` fields.
pub open spec fn split_chars(s: Seq<char>, c: char) -> Seq<Seq<char>>
    decreases s.len(),
    via split_chars_decreases
{
    if find_idx(s, c) == -1 {
        seq![s]
    } else {
        seq![s.take(find_idx(s, c))] + split_chars(s.skip(find_idx(s, c) + 1), c)
    }
}

#[via_fn]
proof fn split_chars_decreases(s: Seq<char>, c: char) {
    lemma_find_idx(s, c);
}

/// Split `s` on the separator `c` into owned fields.
pub fn split_string(s: &str, c: char) -> (parts: Vec<String>)
    ensures
        parts@.map_values(|p: String| p@) == split_chars(s@, c),
{
    let mut parts: Vec<String> = Vec::new();
    let mut rest: &str = s;
    loop
        invariant_except_break
            split_chars(s@, c) == parts@.map_values(|p: String| p@) + split_chars(rest@, c),
        ensures
            parts@.map_values(|p: String| p@) == split_chars(s@, c),
        decreases rest@.len(),
    {
        let ghost prev_views = parts@.map_values(|p: String| p@);
        match find_char(rest, c) {
            Some(i) => {
                proof {
                    lemma_find_idx(rest@, c);
                }
                let piece = rest.substring_char(0, i);
                parts.push(String::from_str(piece));
                let n = rest.unicode_len();
                let tail = rest.substring_char(i + 1, n);
                proof {
                    assert(piece@ =~= rest@.take(i as int));
                    assert(tail@ =~= rest@.skip(i as int + 1));
                    assert(parts@.map_values(|p: String| p@) =~= prev_views + seq![
                        rest@.take(i as int),
                    ]);
                    assert(split_chars(rest@, c) == seq![rest@.take(i as int)] + split_chars(
                        rest@.skip(i as int + 1),
                        c,
                    ));
                    assert(prev_views + split_chars(rest@, c) =~= (prev_views + seq![
                        rest@.take(i as int),
                    ]) + split_chars(rest@.skip(i as int + 1), c));
                }
                rest = tail;
            },
            None => {
                parts.push(String::from_str(rest));
                proof {
                    assert(split_chars(rest@, c) == seq![rest@]);
                    assert(parts@.map_values(|p: String| p@) =~= prev_views + seq![rest@]);
                }
                break ;
            },
        }
    }
    parts
}

/// `c` is one of the ten decimal digit characters.
pub open spec fn is_digit(c: char) -> bool {
    '0' <= c && c <= '9'
}

/// Numeric value of a decimal digit character.
pub open spec fn digit_val(c: char) -> nat {
    (c as int - '0' as int) as nat
}

/// Every character of `s` is a decimal digit.
pub open spec fn all_digits(s: Seq<char>) -> bool {
    forall|k: int| 0 <= k < s.len() ==> is_digit(s[k])
}

/// Numeric value of a decimal digit string, most significant digit first.
pub open spec fn dec_value(s: Seq<char>) -> nat
    decreases s.len(),
{
    if s.len() == 0 {
        0
    } else {
        dec_value(s.drop_last()) * 10 + digit_val(s.last())
    }
}

/// A digit string is worth at least as much as any of its prefixes.
pub proof fn lemma_dec_value_prefix(s: Seq<char>, j: int)
    requires
        0 <= j <= s.len(),
    ensures
        dec_value(s.take(j)) <= dec_value(s),
    decreases s.len() - j,
{
    if j < s.len() {
        assert(s.take(j + 1).drop_last() =~= s.take(j));
        assert(dec_value(s.take(j + 1)) == dec_value(s.take(j)) * 10 + digit_val(
            s.take(j + 1).last(),
        ));
        lemma_dec_value_prefix(s, j + 1);
    } else {
        assert(s.take(j) =~= s);
    }
}

/// Parse a non-empty, all-digit string as a 16-bit port number; any other
/// input, and any value above the 16-bit range, is refused.
pub fn parse_port(s: &str) -> (r: Option<u16>)
    ensures
        match r {
            Some(p) => s@.len() > 0 && all_digits(s@) && dec_value(s@) == p as nat,
            None => s@.len() == 0 || !all_digits(s@) || dec_value(s@) > u16::MAX,
        },
{
    let n = s.unicode_len();
    if n == 0 {
        return None;
    }
    let mut acc: u32 = 0;
    let mut i: usize = 0;
    while i < n
        invariant
            i <= n,
            n == s@.len(),
            all_digits(s@.take(i as int)),
            acc as nat == dec_value(s@.take(i as int)),
            acc <= 65535,
        decreases n - i,
    {
        let ch = s.get_char(i);
        if !('0' <= ch && ch <= '9') {
            proof {
                assert(!is_digit(s@[i as int]));
            }
            return None;
        }
        let d: u32 = (ch as u32) - 48;
        proof {
            assert(s@.take(i + 1).drop_last() =~= s@.take(i as int));
            assert(s@.take(i + 1).last() == s@[i as int]);
            assert(d as nat == digit_val(s@[i as int]));
        }
        let next: u32 = acc * 10 + d;
        if next > 65535 {
            proof {
                lemma_dec_value_prefix(s@, i + 1);
            }
            return None;
        }
        acc = next;
        i += 1;
    }
    proof {
        assert(s@.take(n as int) =~= s@);
    }
    Some(acc as u16)
}

/// The characters of `s` as an indexable vector.
pub fn chars_vec(s: &str) -> (r: Vec<char>)
    ensures
        r@ == s@,
{
    let n = s.unicode_len();
    let mut r: Vec<char> = Vec::new();
    let mut i: usize = 0;
    while i < n
        invariant
            i <= n,
            n == s@.len(),
            r@ == s@.take(i as int),
        decreases n - i,
    {
        let ch = s.get_char(i);
        r.push(ch);
        proof {
            assert(r@ =~= s@.take(i as int + 1));
        }
        i += 1;
    }
    proof {
        assert(s@.take(n as int) =~= s@);
    }
    r
}

/// Relies on `String`'s `FromIterator<char>` implementation: collecting
/// characters yields the string of exactly those characters in order.
#[verifier::external_body]
pub fn string_from_chars(v: &Vec<char>) -> (r: String)
    ensures
        r@ == v@,
{
    v.iter().collect()
}

} // verus!
