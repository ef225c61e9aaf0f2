//! JSON text primitives: escaping, decimal rendering, and a strict
//! recursive-descent reader for the canonical shapes the encoder emits.
//! Both directions are specified over character sequences, so that the
//! record codec can state and prove an exact round trip.

use crate::text::{all_digits, dec_value, digit_val, is_digit};
use vstd::prelude::*;
use vstd::string::StrSliceExecFns;

verus! {

/// Lower-case hexadecimal digit character for a value below 16.
pub open spec fn hex_char(d: nat) -> char {
    if d == 0 {
        '0'
    } else if d == 1 {
        '1'
    } else if d == 2 {
        '2'
    } else if d == 3 {
        '3'
    } else if d == 4 {
        '4'
    } else if d == 5 {
        '5'
    } else if d == 6 {
        '6'
    } else if d == 7 {
        '7'
    } else if d == 8 {
        '8'
    } else if d == 9 {
        '9'
    } else if d == 10 {
        'a'
    } else if d == 11 {
        'b'
    } else if d == 12 {
        'c'
    } else if d == 13 {
        'd'
    } else if d == 14 {
        'e'
    } else {
        'f'
    }
}

/// `c` is a lower-case hexadecimal digit.
pub open spec fn is_hex(c: char) -> bool {
    ('0' <= c && c <= '9') || ('a' <= c && c <= 'f')
}

/// Value of a lower-case hexadecimal digit.
pub open spec fn hex_val(c: char) -> nat {
    if '0' <= c && c <= '9' {
        (c as int - '0' as int) as nat
    } else {
        (c as int - 'a' as int + 10) as nat
    }
}

/// JSON escape of one character: the double quote, the backslash, and
/// control characters are escaped; everything else stands for itself.
pub open spec fn esc_char(c: char) -> Seq<char> {
    if c == '"' {
        seq!['\\', '"']
    } else if c == '\\' {
        seq!['\\', '\\']
    } else if c == '\n' {
        seq!['\\', 'n']
    } else if c == '\r' {
        seq!['\\', 'r']
    } else if c == '\t' {
        seq!['\\', 't']
    } else if (c as u32) < 32 {
        seq!['\\', 'u', '0', '0', hex_char((c as u32 / 16) as nat), hex_char((c as u32 % 16) as nat)]
    } else {
        seq![c]
    }
}

/// JSON escape of a string body.
pub open spec fn esc(s: Seq<char>) -> Seq<char>
    decreases s.len(),
{
    if s.len() == 0 {
        Seq::<char>::empty()
    } else {
        esc_char(s[0]) + esc(s.drop_first())
    }
}

/// A quoted JSON string.
pub open spec fn json_string(s: Seq<char>) -> Seq<char> {
    seq!['"'] + esc(s) + seq!['"']
}

/// Decimal digit character for a value below 10.
pub open spec fn digit_char(d: nat) -> char {
    if d == 0 {
        '0'
    } else if d == 1 {
        '1'
    } else if d == 2 {
        '2'
    } else if d == 3 {
        '3'
    } else if d == 4 {
        '4'
    } else if d == 5 {
        '5'
    } else if d == 6 {
        '6'
    } else if d == 7 {
        '7'
    } else if d == 8 {
        '8'
    } else {
        '9'
    }
}

/// Decimal rendering of `n`, most significant digit first, no sign and no
/// leading zero (except for zero itself).
pub open spec fn dec_str(n: nat) -> Seq<char>
    decreases n,
{
    if n < 10 {
        seq![digit_char(n)]
    } else {
        dec_str(n / 10) + seq![digit_char(n % 10)]
    }
}

/// The decimal rendering consists of digits and reads back as `n`.
pub proof fn lemma_dec_str(n: nat)
    ensures
        dec_str(n).len() >= 1,
        all_digits(dec_str(n)),
        dec_value(dec_str(n)) == n,
    decreases n,
{
    if n < 10 {
        assert(dec_str(n) == seq![digit_char(n)]);
        assert(dec_str(n).drop_last() =~= Seq::<char>::empty());
        assert(dec_value(Seq::<char>::empty()) == 0);
        assert(dec_value(dec_str(n)) == 0 * 10 + digit_val(dec_str(n).last()));
        assert(digit_val(digit_char(n)) == n);
    } else {
        lemma_dec_str(n / 10);
        let w = dec_str(n / 10);
        let d = digit_char(n % 10);
        assert((w + seq![d]).drop_last() =~= w);
        assert((w + seq![d]).last() == d);
        assert(digit_val(d) == n % 10);
        assert(dec_value(w + seq![d]) == (n / 10) * 10 + n % 10);
        vstd::arithmetic::div_mod::lemma_fundamental_div_mod(n as int, 10);
        assert(forall|k: int| 0 <= k < w.len() ==> (w + seq![d])[k] == w[k]);
    }
}

/// Append every character of `s` to `out`.
pub fn push_str_chars(out: &mut Vec<char>, s: &str)
    ensures
        final(out)@ == old(out)@ + s@,
{
    let n = s.unicode_len();
    let mut i: usize = 0;
    while i < n
        invariant
            i <= n,
            n == s@.len(),
            out@ == old(out)@ + s@.take(i as int),
        decreases n - i,
    {
        let c = s.get_char(i);
        out.push(c);
        proof {
            assert(out@ =~= old(out)@ + s@.take(i as int + 1));
        }
        i += 1;
    }
    proof {
        assert(s@.take(n as int) =~= s@);
    }
}

/// Append the hexadecimal digit of a value below 16.
fn push_hex_digit(out: &mut Vec<char>, d: u32)
    requires
        d < 16,
    ensures
        final(out)@ == old(out)@ + seq![hex_char(d as nat)],
{
    let c: char = if d == 0 {
        '0'
    } else if d == 1 {
        '1'
    } else if d == 2 {
        '2'
    } else if d == 3 {
        '3'
    } else if d == 4 {
        '4'
    } else if d == 5 {
        '5'
    } else if d == 6 {
        '6'
    } else if d == 7 {
        '7'
    } else if d == 8 {
        '8'
    } else if d == 9 {
        '9'
    } else if d == 10 {
        'a'
    } else if d == 11 {
        'b'
    } else if d == 12 {
        'c'
    } else if d == 13 {
        'd'
    } else if d == 14 {
        'e'
    } else {
        'f'
    };
    out.push(c);
    proof {
        assert(out@ =~= old(out)@ + seq![hex_char(d as nat)]);
    }
}

/// Append the JSON escape of `s`.
pub fn push_escaped(out: &mut Vec<char>, s: &str)
    ensures
        final(out)@ == old(out)@ + esc(s@),
{
    let n = s.unicode_len();
    let mut i: usize = 0;
    proof {
        assert(s@.skip(0) =~= s@);
    }
    while i < n
        invariant
            i <= n,
            n == s@.len(),
            out@ + esc(s@.skip(i as int)) == old(out)@ + esc(s@),
        decreases n - i,
    {
        let c = s.get_char(i);
        proof {
            assert(s@.skip(i as int)[0] == s@[i as int]);
            assert(s@.skip(i as int).drop_first() =~= s@.skip(i as int + 1));
            assert(esc(s@.skip(i as int)) == esc_char(s@[i as int]) + esc(s@.skip(i as int + 1)));
        }
        let ghost mid = out@;
        if c == '"' {
            out.push('\\');
            out.push('"');
        } else if c == '\\' {
            out.push('\\');
            out.push('\\');
        } else if c == '\n' {
            out.push('\\');
            out.push('n');
        } else if c == '\r' {
            out.push('\\');
            out.push('r');
        } else if c == '\t' {
            out.push('\\');
            out.push('t');
        } else if (c as u32) < 32 {
            out.push('\\');
            out.push('u');
            out.push('0');
            out.push('0');
            let code = c as u32;
            push_hex_digit(out, code / 16);
            push_hex_digit(out, code % 16);
        } else {
            out.push(c);
        }
        proof {
            assert(out@ =~= mid + esc_char(s@[i as int]));
            assert(out@ + esc(s@.skip(i as int + 1)) =~= mid + esc(s@.skip(i as int)));
        }
        i += 1;
    }
    proof {
        assert(s@.skip(n as int) =~= Seq::<char>::empty());
        assert(out@ =~= out@ + esc(s@.skip(n as int)));
    }
}

/// Append the quoted JSON form of `s`.
pub fn push_json_string(out: &mut Vec<char>, s: &str)
    ensures
        final(out)@ == old(out)@ + json_string(s@),
{
    out.push('"');
    push_escaped(out, s);
    out.push('"');
    proof {
        assert(out@ =~= old(out)@ + json_string(s@));
    }
}

/// Append one decimal digit.
fn push_digit(out: &mut Vec<char>, d: u64)
    requires
        d < 10,
    ensures
        final(out)@ == old(out)@ + seq![digit_char(d as nat)],
{
    let c: char = if d == 0 {
        '0'
    } else if d == 1 {
        '1'
    } else if d == 2 {
        '2'
    } else if d == 3 {
        '3'
    } else if d == 4 {
        '4'
    } else if d == 5 {
        '5'
    } else if d == 6 {
        '6'
    } else if d == 7 {
        '7'
    } else if d == 8 {
        '8'
    } else {
        '9'
    };
    out.push(c);
    proof {
        assert(out@ =~= old(out)@ + seq![digit_char(d as nat)]);
    }
}

/// Append the decimal rendering of `n`.
pub fn push_decimal(out: &mut Vec<char>, n: u64)
    ensures
        final(out)@ == old(out)@ + dec_str(n as nat),
    decreases n,
{
    if n < 10 {
        push_digit(out, n);
    } else {
        push_decimal(out, n / 10);
        push_digit(out, n % 10);
        proof {
            assert(out@ =~= old(out)@ + dec_str(n as nat));
        }
    }
}

/// Character with code `n`, for codes below 256.
pub open spec fn code_char(n: nat) -> char {
    (n as u8) as char
}

/// Rest of `s` after the literal prefix `lit`, if `s` starts with it.
pub open spec fn sp_lit(s: Seq<char>, lit: Seq<char>) -> Option<Seq<char>> {
    if lit.len() <= s.len() && s.take(lit.len() as int) == lit {
        Some(s.skip(lit.len() as int))
    } else {
        None
    }
}

/// A literal prefix is read back exactly.
pub proof fn lemma_sp_lit(lit: Seq<char>, rest: Seq<char>)
    ensures
        sp_lit(lit + rest, lit) == Some(rest),
{
    assert((lit + rest).take(lit.len() as int) =~= lit);
    assert((lit + rest).skip(lit.len() as int) =~= rest);
}

/// Read a JSON string body up to and including the closing quote,
/// undoing the escapes the encoder produces. Yields the decoded
/// characters and the rest of the input.
pub open spec fn sp_str_body(s: Seq<char>) -> Option<(Seq<char>, Seq<char>)>
    decreases s.len(),
{
    if s.len() == 0 {
        None
    } else if s[0] == '"' {
        Some((Seq::<char>::empty(), s.drop_first()))
    } else if s[0] == '\\' {
        if s.len() < 2 {
            None
        } else if s[1] == '"' || s[1] == '\\' || s[1] == 'n' || s[1] == 'r' || s[1] == 't' {
            let decoded = if s[1] == '"' {
                '"'
            } else if s[1] == '\\' {
                '\\'
            } else if s[1] == 'n' {
                '\n'
            } else if s[1] == 'r' {
                '\r'
            } else {
                '\t'
            };
            match sp_str_body(s.skip(2)) {
                Some((v, r)) => Some((seq![decoded] + v, r)),
                None => None,
            }
        } else if s[1] == 'u' {
            if s.len() < 6 {
                None
            } else if s[2] == '0' && s[3] == '0' && is_hex(s[4]) && is_hex(s[5]) {
                match sp_str_body(s.skip(6)) {
                    Some((v, r)) => Some(
                        (seq![code_char(hex_val(s[4]) * 16 + hex_val(s[5]))] + v, r),
                    ),
                    None => None,
                }
            } else {
                None
            }
        } else {
            None
        }
    } else {
        match sp_str_body(s.drop_first()) {
            Some((v, r)) => Some((seq![s[0]] + v, r)),
            None => None,
        }
    }
}

/// Read a quoted JSON string.
pub open spec fn sp_string(s: Seq<char>) -> Option<(Seq<char>, Seq<char>)> {
    if s.len() > 0 && s[0] == '"' {
        sp_str_body(s.drop_first())
    } else {
        None
    }
}

/// A string body always consumes at least its closing quote.
pub proof fn lemma_sp_str_body_consumes(s: Seq<char>)
    ensures
        (match sp_str_body(s) {
            Some((v, r)) => r.len() < s.len(),
            None => true,
        }),
    decreases s.len(),
{
    if s.len() == 0 {
    } else if s[0] == '"' {
    } else if s[0] == '\\' {
        if s.len() >= 2 {
            lemma_sp_str_body_consumes(s.skip(2));
            if s.len() >= 6 {
                lemma_sp_str_body_consumes(s.skip(6));
            }
        }
    } else {
        lemma_sp_str_body_consumes(s.drop_first());
    }
}

/// A quoted string consumes at least its two quotes.
pub proof fn lemma_sp_string_consumes(s: Seq<char>)
    ensures
        (match sp_string(s) {
            Some((v, r)) => r.len() + 2 <= s.len(),
            None => true,
        }),
{
    if s.len() > 0 && s[0] == '"' {
        lemma_sp_str_body_consumes(s.drop_first());
    }
}

/// Length of the leading run of decimal digits.
pub open spec fn digit_run(s: Seq<char>) -> nat
    decreases s.len(),
{
    if s.len() > 0 && is_digit(s[0]) {
        (1 + digit_run(s.drop_first())) as nat
    } else {
        0
    }
}

/// The digit run covers exactly the leading digits.
pub proof fn lemma_digit_run(s: Seq<char>)
    ensures
        digit_run(s) <= s.len(),
        all_digits(s.take(digit_run(s) as int)),
        digit_run(s) < s.len() ==> !is_digit(s[digit_run(s) as int]),
    decreases s.len(),
{
    if s.len() > 0 && is_digit(s[0]) {
        lemma_digit_run(s.drop_first());
        let k = digit_run(s) as int;
        assert(forall|t: int| 1 <= t < s.len() ==> s[t] == s.drop_first()[t - 1]);
        assert(s.drop_first().take(k - 1) =~= s.take(k).drop_first());
        assert(forall|t: int| 0 <= t < k ==> is_digit(#[trigger] s.take(k)[t])) by {
            assert(s.take(k)[0] == s[0]);
            assert(forall|t: int|
                1 <= t < k ==> #[trigger] s.take(k)[t] == s.take(k).drop_first()[t - 1]);
        }
    }
}

/// Any all-digit prefix is no longer than the digit run.
pub proof fn lemma_digit_run_ge(s: Seq<char>, m: int)
    requires
        0 <= m <= s.len(),
        all_digits(s.take(m)),
    ensures
        digit_run(s) >= m,
    decreases s.len(),
{
    if m > 0 {
        assert(is_digit(s.take(m)[0]));
        assert(s.drop_first().take(m - 1) =~= s.take(m).drop_first());
        assert(all_digits(s.drop_first().take(m - 1))) by {
            assert(forall|t: int|
                0 <= t < m - 1 ==> #[trigger] s.drop_first().take(m - 1)[t] == s.take(m)[t + 1]);
        }
        lemma_digit_run_ge(s.drop_first(), m - 1);
    }
}

/// Read a decimal number that fits in 32 bits: the leading digit run,
/// refused when absent or when its value is out of range.
pub open spec fn sp_u32(s: Seq<char>) -> Option<(u32, Seq<char>)> {
    let k = digit_run(s) as int;
    if k == 0 {
        None
    } else if dec_value(s.take(k)) > u32::MAX {
        None
    } else {
        Some((dec_value(s.take(k)) as u32, s.skip(k)))
    }
}

/// Read the entries of a non-empty string-to-string JSON object, after
/// the opening brace, up to and including the closing brace.
pub open spec fn sp_entries(s: Seq<char>) -> Option<(Seq<(Seq<char>, Seq<char>)>, Seq<char>)>
    decreases s.len(),
    via sp_entries_decreases
{
    match sp_string(s) {
        None => None,
        Some((k, r1)) => {
            if r1.len() == 0 || r1[0] != ':' {
                None
            } else {
                match sp_string(r1.skip(1)) {
                    None => None,
                    Some((v, r2)) => {
                        if r2.len() > 0 && r2[0] == ',' {
                            match sp_entries(r2.skip(1)) {
                                None => None,
                                Some((es, r3)) => Some((seq![(k, v)] + es, r3)),
                            }
                        } else if r2.len() > 0 && r2[0] == '}' {
                            Some((seq![(k, v)], r2.skip(1)))
                        } else {
                            None
                        }
                    },
                }
            }
        },
    }
}

#[via_fn]
proof fn sp_entries_decreases(s: Seq<char>) {
    lemma_sp_string_consumes(s);
    match sp_string(s) {
        None => {},
        Some((k, r1)) => {
            if r1.len() > 0 && r1[0] == ':' {
                lemma_sp_string_consumes(r1.skip(1));
            }
        },
    }
}

/// Read a string-to-string JSON object, empty or not.
pub open spec fn sp_object(s: Seq<char>) -> Option<(Seq<(Seq<char>, Seq<char>)>, Seq<char>)> {
    if s.len() == 0 || s[0] != '{' {
        None
    } else {
        let t = s.skip(1);
        if t.len() > 0 && t[0] == '}' {
            Some((Seq::<(Seq<char>, Seq<char>)>::empty(), t.skip(1)))
        } else {
            sp_entries(t)
        }
    }
}

/// The entries of a string-to-string object, encoder side: key and value
/// quoted, separated by colons and commas.
pub open spec fn json_entries(hs: Seq<(Seq<char>, Seq<char>)>) -> Seq<char>
    decreases hs.len(),
{
    if hs.len() == 0 {
        Seq::<char>::empty()
    } else if hs.len() == 1 {
        json_string(hs[0].0) + seq![':'] + json_string(hs[0].1)
    } else {
        json_string(hs[0].0) + seq![':'] + json_string(hs[0].1) + seq![','] + json_entries(
            hs.drop_first(),
        )
    }
}

/// A string-to-string object, encoder side.
pub open spec fn json_object(hs: Seq<(Seq<char>, Seq<char>)>) -> Seq<char> {
    if hs.len() == 0 {
        seq!['{', '}']
    } else {
        seq!['{'] + json_entries(hs) + seq!['}']
    }
}

/// Match the literal `lit` at position `i`.
pub fn expect_lit(s: &Vec<char>, i: usize, lit: &str) -> (r: Option<usize>)
    requires
        i <= s@.len(),
    ensures
        match r {
            Some(j) => i <= j <= s@.len() && sp_lit(s@.skip(i as int), lit@) == Some(
                s@.skip(j as int),
            ),
            None => sp_lit(s@.skip(i as int), lit@) is None,
        },
{
    let m = lit.unicode_len();
    if m > s.len() - i {
        return None;
    }
    let total = s.len();
    let mut k: usize = 0;
    while k < m
        invariant
            k <= m,
            m == lit@.len(),
            i + m <= total,
            total == s@.len(),
            forall|t: int| 0 <= t < k ==> s@.skip(i as int)[t] == lit@[t],
        decreases m - k,
    {
        let c = s[i + k];
        proof {
            assert(s@.skip(i as int)[k as int] == s@[i as int + k]);
        }
        if c != lit.get_char(k) {
            proof {
                assert(s@.skip(i as int).take(m as int)[k as int] != lit@[k as int]);
            }
            return None;
        }
        k += 1;
    }
    proof {
        assert(s@.skip(i as int).take(m as int) =~= lit@);
        assert(s@.skip(i as int).skip(m as int) =~= s@.skip(i as int + m as int));
    }
    Some(i + m)
}

/// Read a quoted JSON string at position `i`, undoing the escapes.
pub fn parse_string(s: &Vec<char>, i: usize) -> (r: Option<(String, usize)>)
    requires
        i <= s@.len(),
    ensures
        match r {
            Some((v, j)) => i + 2 <= j <= s@.len() && sp_string(s@.skip(i as int)) == Some(
                (v@, s@.skip(j as int)),
            ),
            None => sp_string(s@.skip(i as int)) is None,
        },
{
    let n = s.len();
    if i == n || s[i] != '"' {
        proof {
            if i < n {
                assert(s@.skip(i as int)[0] == s@[i as int]);
            }
        }
        return None;
    }
    proof {
        assert(s@.skip(i as int)[0] == s@[i as int]);
        assert(s@.skip(i as int).drop_first() =~= s@.skip(i as int + 1));
    }
    let mut acc: Vec<char> = Vec::new();
    let mut cur: usize = i + 1;
    loop
        invariant
            i + 1 <= cur <= n,
            n == s@.len(),
            i + 1 <= n,
            sp_string(s@.skip(i as int)) == sp_str_body(s@.skip(i as int + 1)),
            (match sp_str_body(s@.skip(cur as int)) {
                Some((v, r)) => sp_str_body(s@.skip(i as int + 1)) == Some((acc@ + v, r)),
                None => sp_str_body(s@.skip(i as int + 1)) is None,
            }),
        decreases n - cur,
    {
        if cur == n {
            proof {
                assert(s@.skip(cur as int).len() == 0);
            }
            return None;
        }
        let c = s[cur];
        proof {
            assert(s@.skip(cur as int)[0] == s@[cur as int]);
            assert(s@.skip(cur as int).drop_first() =~= s@.skip(cur as int + 1));
        }
        if c == '"' {
            proof {
                assert(sp_str_body(s@.skip(cur as int)) == Some(
                    (Seq::<char>::empty(), s@.skip(cur as int + 1)),
                ));
                assert(acc@ + Seq::<char>::empty() =~= acc@);
            }
            let st = crate::text::string_from_chars(&acc);
            return Some((st, cur + 1));
        }
        let ghost prev_acc = acc@;
        if c == '\\' {
            if cur + 1 == n {
                proof {
                    assert(s@.skip(cur as int).len() == 1);
                }
                return None;
            }
            let e = s[cur + 1];
            proof {
                assert(s@.skip(cur as int)[1] == s@[cur as int + 1]);
                assert(s@.skip(cur as int).skip(2) =~= s@.skip(cur as int + 2));
            }
            if e == '"' || e == '\\' || e == 'n' || e == 'r' || e == 't' {
                let d: char = if e == '"' {
                    '"'
                } else if e == '\\' {
                    '\\'
                } else if e == 'n' {
                    '\n'
                } else if e == 'r' {
                    '\r'
                } else {
                    '\t'
                };
                acc.push(d);
                proof {
                    match sp_str_body(s@.skip(cur as int + 2)) {
                        Some((v, r)) => {
                            assert(prev_acc + (seq![d] + v) =~= acc@ + v);
                        },
                        None => {},
                    }
                }
                cur = cur + 2;
            } else if e == 'u' {
                if n - cur < 6 {
                    proof {
                        assert(s@.skip(cur as int).len() < 6);
                    }
                    return None;
                }
                let z1 = s[cur + 2];
                let z2 = s[cur + 3];
                let h1 = s[cur + 4];
                let h2 = s[cur + 5];
                proof {
                    assert(s@.skip(cur as int)[2] == s@[cur as int + 2]);
                    assert(s@.skip(cur as int)[3] == s@[cur as int + 3]);
                    assert(s@.skip(cur as int)[4] == s@[cur as int + 4]);
                    assert(s@.skip(cur as int)[5] == s@[cur as int + 5]);
                    assert(s@.skip(cur as int).skip(6) =~= s@.skip(cur as int + 6));
                }
                let h1_ok = ('0' <= h1 && h1 <= '9') || ('a' <= h1 && h1 <= 'f');
                let h2_ok = ('0' <= h2 && h2 <= '9') || ('a' <= h2 && h2 <= 'f');
                if z1 == '0' && z2 == '0' && h1_ok && h2_ok {
                    let hv1: u32 = if h1 <= '9' {
                        h1 as u32 - 48
                    } else {
                        h1 as u32 - 87
                    };
                    let hv2: u32 = if h2 <= '9' {
                        h2 as u32 - 48
                    } else {
                        h2 as u32 - 87
                    };
                    let code: u32 = hv1 * 16 + hv2;
                    let d: char = (code as u8) as char;
                    proof {
                        assert(hv1 as nat == hex_val(s@[cur as int + 4]));
                        assert(hv2 as nat == hex_val(s@[cur as int + 5]));
                        assert(d == code_char(
                            hex_val(s@[cur as int + 4]) * 16 + hex_val(s@[cur as int + 5]),
                        ));
                    }
                    acc.push(d);
                    proof {
                        match sp_str_body(s@.skip(cur as int + 6)) {
                            Some((v, r)) => {
                                assert(prev_acc + (seq![d] + v) =~= acc@ + v);
                            },
                            None => {},
                        }
                    }
                    cur = cur + 6;
                } else {
                    return None;
                }
            } else {
                return None;
            }
        } else {
            acc.push(c);
            proof {
                match sp_str_body(s@.skip(cur as int + 1)) {
                    Some((v, r)) => {
                        assert(prev_acc + (seq![c] + v) =~= acc@ + v);
                    },
                    None => {},
                }
            }
            cur = cur + 1;
        }
    }
}

/// Read a decimal number at position `i` that fits in 32 bits.
pub fn parse_u32(s: &Vec<char>, i: usize) -> (r: Option<(u32, usize)>)
    requires
        i <= s@.len(),
    ensures
        match r {
            Some((v, j)) => i < j <= s@.len() && sp_u32(s@.skip(i as int)) == Some(
                (v, s@.skip(j as int)),
            ),
            None => sp_u32(s@.skip(i as int)) is None,
        },
{
    let ghost tail = s@.skip(i as int);
    let n = s.len();
    let mut cur: usize = i;
    let mut acc: u64 = 0;
    loop
        invariant_except_break
            i <= cur <= n,
            n == s@.len(),
            tail == s@.skip(i as int),
            all_digits(tail.take(cur - i)),
            acc as nat == dec_value(tail.take(cur - i)),
            acc <= u32::MAX as u64,
        ensures
            i <= cur <= n,
            n == s@.len(),
            tail == s@.skip(i as int),
            all_digits(tail.take(cur - i)),
            acc as nat == dec_value(tail.take(cur - i)),
            acc <= u32::MAX as u64,
            cur == n || !is_digit(s@[cur as int]),
        decreases n - cur,
    {
        if cur == n {
            break ;
        }
        let c = s[cur];
        if !('0' <= c && c <= '9') {
            proof {
                assert(!is_digit(s@[cur as int]));
            }
            break ;
        }
        let d: u64 = c as u64 - 48;
        proof {
            assert(tail.take(cur - i + 1).drop_last() =~= tail.take(cur - i));
            assert(tail[cur - i] == s@[cur as int]);
            assert(tail.take(cur - i + 1).last() == tail[cur - i]);
            assert(d as nat == digit_val(s@[cur as int]));
        }
        let next: u64 = acc * 10 + d;
        if next > u32::MAX as u64 {
            proof {
                lemma_digit_run(tail);
                assert(forall|t: int|
                    0 <= t < cur - i + 1 ==> is_digit(#[trigger] tail.take(cur - i + 1)[t]));
                lemma_digit_run_ge(tail, cur - i + 1);
                let k = digit_run(tail) as int;
                crate::text::lemma_dec_value_prefix(tail.take(k), cur - i + 1);
                assert(tail.take(k).take(cur - i + 1) =~= tail.take(cur - i + 1));
            }
            return None;
        }
        acc = next;
        cur = cur + 1;
    }
    if cur == i {
        proof {
            if tail.len() > 0 {
                assert(tail[0] == s@[i as int]);
            }
            assert(digit_run(tail) == 0);
        }
        return None;
    }
    proof {
        lemma_digit_run(tail);
        lemma_digit_run_ge(tail, cur - i);
        let k = digit_run(tail) as int;
        if k > cur - i {
            assert(is_digit(tail.take(k)[cur - i]));
            assert(tail.take(k)[cur - i] == tail[cur - i]);
            assert(tail[cur - i] == s@[cur as int]);
        }
        assert(k == cur - i);
        assert(s@.skip(cur as int) =~= tail.skip(k));
    }
    Some((acc as u32, cur))
}

/// Read a string-to-string JSON object at position `i`.
pub fn parse_object(s: &Vec<char>, i: usize) -> (r: Option<(Vec<(String, String)>, usize)>)
    requires
        i <= s@.len(),
    ensures
        match r {
            Some((hs, j)) => i <= j <= s@.len() && sp_object(s@.skip(i as int)) == Some(
                (crate::telemetry::headers_view(hs@), s@.skip(j as int)),
            ),
            None => sp_object(s@.skip(i as int)) is None,
        },
{
    let n = s.len();
    if i == n || s[i] != '{' {
        proof {
            if i < n {
                assert(s@.skip(i as int)[0] == s@[i as int]);
            }
        }
        return None;
    }
    proof {
        assert(s@.skip(i as int)[0] == s@[i as int]);
        assert(s@.skip(i as int).skip(1) =~= s@.skip(i as int + 1));
    }
    if i + 1 < n && s[i + 1] == '}' {
        let out: Vec<(String, String)> = Vec::new();
        proof {
            assert(s@.skip(i as int + 1)[0] == s@[i as int + 1]);
            assert(s@.skip(i as int + 1).skip(1) =~= s@.skip(i as int + 2));
            assert(crate::telemetry::headers_view(out@) =~= Seq::<(Seq<char>, Seq<char>)>::empty());
        }
        return Some((out, i + 2));
    }
    proof {
        if i + 1 < n {
            assert(s@.skip(i as int + 1)[0] == s@[i as int + 1]);
        }
        // the entries branch of `sp_object` applies
        assert(!(s@.skip(i as int + 1).len() > 0 && s@.skip(i as int + 1)[0] == '}'));
    }
    let mut acc: Vec<(String, String)> = Vec::new();
    let mut cur: usize = i + 1;
    loop
        invariant
            i + 1 <= cur <= n,
            n == s@.len(),
            sp_object(s@.skip(i as int)) == sp_entries(s@.skip(i as int + 1)),
            (match sp_entries(s@.skip(cur as int)) {
                Some((es, r)) => sp_entries(s@.skip(i as int + 1)) == Some(
                    (crate::telemetry::headers_view(acc@) + es, r),
                ),
                None => sp_entries(s@.skip(i as int + 1)) is None,
            }),
        decreases n - cur,
    {
        let ghost prev = crate::telemetry::headers_view(acc@);
        let key_res = parse_string(s, cur);
        match key_res {
            None => {
                return None;
            },
            Some((k, c1)) => {
                if c1 == n || s[c1] != ':' {
                    proof {
                        if c1 < n {
                            assert(s@.skip(c1 as int)[0] == s@[c1 as int]);
                        }
                    }
                    return None;
                }
                proof {
                    assert(s@.skip(c1 as int)[0] == s@[c1 as int]);
                    assert(s@.skip(c1 as int).skip(1) =~= s@.skip(c1 as int + 1));
                }
                let val_res = parse_string(s, c1 + 1);
                match val_res {
                    None => {
                        return None;
                    },
                    Some((v, c2)) => {
                        let ghost kv = (k@, v@);
                        acc.push((k, v));
                        proof {
                            assert(crate::telemetry::headers_view(acc@) =~= prev.push(kv));
                        }
                        if c2 < n && s[c2] == ',' {
                            proof {
                                assert(s@.skip(c2 as int)[0] == s@[c2 as int]);
                                assert(s@.skip(c2 as int).skip(1) =~= s@.skip(c2 as int + 1));
                                match sp_entries(s@.skip(c2 as int + 1)) {
                                    Some((es, r)) => {
                                        assert(prev + (seq![kv] + es) =~= prev.push(kv) + es);
                                    },
                                    None => {},
                                }
                            }
                            cur = c2 + 1;
                        } else if c2 < n && s[c2] == '}' {
                            proof {
                                assert(s@.skip(c2 as int)[0] == s@[c2 as int]);
                                assert(s@.skip(c2 as int).skip(1) =~= s@.skip(c2 as int + 1));
                                assert(sp_entries(s@.skip(cur as int)) == Some(
                                    (seq![kv], s@.skip(c2 as int + 1)),
                                ));
                                assert(prev + seq![kv] =~= prev.push(kv));
                            }
                            return Some((acc, c2 + 1));
                        } else {
                            proof {
                                if c2 < n {
                                    assert(s@.skip(c2 as int)[0] == s@[c2 as int]);
                                }
                            }
                            return None;
                        }
                    },
                }
            },
        }
    }
}

/// Reading a string body undoes the escaping exactly.
pub proof fn lemma_sp_str_body_inverts(x: Seq<char>, rest: Seq<char>)
    ensures
        sp_str_body(esc(x) + seq!['"'] + rest) == Some((x, rest)),
    decreases x.len(),
{
    let s = esc(x) + seq!['"'] + rest;
    if x.len() == 0 {
        assert(esc(x) =~= Seq::<char>::empty());
        assert(s =~= seq!['"'] + rest);
        assert(s[0] == '"');
        assert(s.drop_first() =~= rest);
    } else {
        let c = x[0];
        let x1 = x.drop_first();
        assert(esc(x) == esc_char(c) + esc(x1));
        let s1 = esc(x1) + seq!['"'] + rest;
        lemma_sp_str_body_inverts(x1, rest);
        assert(seq![c] + x1 =~= x);
        if c == '"' {
            assert(s =~= seq!['\\', '"'] + s1);
            assert(s.skip(2) =~= s1);
        } else if c == '\\' {
            assert(s =~= seq!['\\', '\\'] + s1);
            assert(s.skip(2) =~= s1);
        } else if c == '\n' {
            assert(s =~= seq!['\\', 'n'] + s1);
            assert(s.skip(2) =~= s1);
        } else if c == '\r' {
            assert(s =~= seq!['\\', 'r'] + s1);
            assert(s.skip(2) =~= s1);
        } else if c == '\t' {
            assert(s =~= seq!['\\', 't'] + s1);
            assert(s.skip(2) =~= s1);
        } else if (c as u32) < 32 {
            let cu = c as u32;
            vstd::arithmetic::div_mod::lemma_fundamental_div_mod(cu as int, 16);
            let hi = (cu / 16) as nat;
            let lo = (cu % 16) as nat;
            assert(hi < 2);
            assert(lo < 16);
            assert(esc_char(c) == seq!['\\', 'u', '0', '0', hex_char(hi), hex_char(lo)]);
            assert(s =~= seq!['\\', 'u', '0', '0', hex_char(hi), hex_char(lo)] + s1);
            assert(is_hex(hex_char(hi)) && hex_val(hex_char(hi)) == hi);
            assert(is_hex(hex_char(lo)) && hex_val(hex_char(lo)) == lo);
            assert(s.skip(6) =~= s1);
            assert(hi * 16 + lo == cu as nat);
            vstd::utf8::char_u32_cast(c, cu);
            assert(code_char(hi * 16 + lo) == c);
        } else {
            assert(esc_char(c) == seq![c]);
            assert(s =~= seq![c] + s1);
            assert(s.drop_first() =~= s1);
        }
    }
}

/// Reading a quoted string undoes `json_string` exactly.
pub proof fn lemma_sp_string_inverts(x: Seq<char>, rest: Seq<char>)
    ensures
        sp_string(json_string(x) + rest) == Some((x, rest)),
{
    let s = json_string(x) + rest;
    assert(s[0] == '"');
    lemma_sp_str_body_inverts(x, rest);
    assert(s.drop_first() =~= esc(x) + seq!['"'] + rest);
}

/// Reading a decimal number undoes `dec_str`, provided what follows does
/// not begin with another digit.
pub proof fn lemma_sp_u32_inverts(n: nat, rest: Seq<char>)
    requires
        n <= u32::MAX,
        rest.len() == 0 || !is_digit(rest[0]),
    ensures
        sp_u32(dec_str(n) + rest) == Some((n as u32, rest)),
{
    let w = dec_str(n);
    let s = w + rest;
    lemma_dec_str(n);
    assert(s.take(w.len() as int) =~= w);
    lemma_digit_run_ge(s, w.len() as int);
    lemma_digit_run(s);
    let k = digit_run(s) as int;
    if k > w.len() {
        assert(is_digit(s.take(k)[w.len() as int]));
        assert(s.take(k)[w.len() as int] == s[w.len() as int]);
        assert(s[w.len() as int] == rest[0]);
    }
    assert(k == w.len());
    assert(s.skip(k) =~= rest);
}

/// Reading object entries undoes `json_entries` exactly.
pub proof fn lemma_sp_entries_inverts(hs: Seq<(Seq<char>, Seq<char>)>, rest: Seq<char>)
    requires
        hs.len() >= 1,
    ensures
        sp_entries(json_entries(hs) + seq!['}'] + rest) == Some((hs, rest)),
    decreases hs.len(),
{
    let k = hs[0].0;
    let v = hs[0].1;
    let s = json_entries(hs) + seq!['}'] + rest;
    if hs.len() == 1 {
        let after_k = seq![':'] + json_string(v) + seq!['}'] + rest;
        assert(s =~= json_string(k) + after_k);
        lemma_sp_string_inverts(k, after_k);
        assert(sp_string(s) == Some((k, after_k)));
        assert(after_k[0] == ':');
        let r2tail = seq!['}'] + rest;
        assert(after_k.skip(1) =~= json_string(v) + r2tail);
        lemma_sp_string_inverts(v, r2tail);
        assert(r2tail[0] == '}');
        assert(r2tail.skip(1) =~= rest);
        assert(seq![(k, v)] =~= hs);
    } else {
        let inner = json_entries(hs.drop_first());
        let after_k = seq![':'] + json_string(v) + seq![','] + inner + seq!['}'] + rest;
        assert(s =~= json_string(k) + after_k);
        lemma_sp_string_inverts(k, after_k);
        assert(sp_string(s) == Some((k, after_k)));
        assert(after_k[0] == ':');
        let r2tail = seq![','] + inner + seq!['}'] + rest;
        assert(after_k.skip(1) =~= json_string(v) + r2tail);
        lemma_sp_string_inverts(v, r2tail);
        assert(r2tail[0] == ',');
        assert(r2tail.skip(1) =~= inner + seq!['}'] + rest);
        lemma_sp_entries_inverts(hs.drop_first(), rest);
        assert(seq![(k, v)] + hs.drop_first() =~= hs);
    }
}

/// Reading a string-to-string object undoes `json_object` exactly.
pub proof fn lemma_sp_object_inverts(hs: Seq<(Seq<char>, Seq<char>)>, rest: Seq<char>)
    ensures
        sp_object(json_object(hs) + rest) == Some((hs, rest)),
{
    let s = json_object(hs) + rest;
    if hs.len() == 0 {
        assert(s =~= seq!['{', '}'] + rest);
        assert(s[0] == '{');
        let t = s.skip(1);
        assert(t =~= seq!['}'] + rest);
        assert(t[0] == '}');
        assert(t.skip(1) =~= rest);
        assert(hs =~= Seq::<(Seq<char>, Seq<char>)>::empty());
    } else {
        assert(s =~= seq!['{'] + (json_entries(hs) + seq!['}'] + rest));
        assert(s[0] == '{');
        let t = s.skip(1);
        assert(t =~= json_entries(hs) + seq!['}'] + rest);
        assert(json_string(hs[0].0)[0] == '"');
        assert(json_entries(hs)[0] == '"');
        assert(t[0] == '"');
        lemma_sp_entries_inverts(hs, rest);
    }
}

/// Append the string-to-string object form of an owned header list.
pub fn push_json_object(out: &mut Vec<char>, hs: &Vec<(String, String)>)
    ensures
        final(out)@ == old(out)@ + json_object(crate::telemetry::headers_view(hs@)),
{
    let ghost full = crate::telemetry::headers_view(hs@);
    let n = hs.len();
    if n == 0 {
        out.push('{');
        out.push('}');
        proof {
            assert(out@ =~= old(out)@ + json_object(full));
        }
        return ;
    }
    out.push('{');
    let mut i: usize = 0;
    while i < n
        invariant
            i <= n,
            1 <= n,
            n == hs@.len(),
            full == crate::telemetry::headers_view(hs@),
            i == 0 ==> out@ == old(out)@ + seq!['{'],
            i >= 1 ==> out@ + (if i < n {
                seq![','] + json_entries(full.skip(i as int))
            } else {
                Seq::<char>::empty()
            }) == old(out)@ + seq!['{'] + json_entries(full),
        decreases n - i,
    {
        let ghost outb = out@;
        if i > 0 {
            out.push(',');
        }
        let ghost pre = out@;
        push_json_string(out, hs[i].0.as_str());
        out.push(':');
        push_json_string(out, hs[i].1.as_str());
        proof {
            assert(full[i as int] == (hs@[i as int].0@, hs@[i as int].1@));
            let entry = json_string(full[i as int].0) + seq![':'] + json_string(full[i as int].1);
            assert(out@ =~= pre + entry);
            assert(full.skip(i as int)[0] == full[i as int]);
            assert(full.skip(i as int).drop_first() =~= full.skip(i as int + 1));
            if i + 1 < n {
                assert(json_entries(full.skip(i as int)) =~= entry + seq![','] + json_entries(
                    full.skip(i as int + 1),
                ));
            } else {
                assert(json_entries(full.skip(i as int)) =~= entry);
            }
            if i == 0 {
                assert(full.skip(0) =~= full);
                if i + 1 < n {
                    assert(out@ + (seq![','] + json_entries(full.skip(i as int + 1))) =~= old(
                        out,
                    )@ + seq!['{'] + json_entries(full));
                } else {
                    assert(out@ =~= old(out)@ + seq!['{'] + json_entries(full));
                }
            } else {
                assert(pre =~= outb + seq![',']);
                if i + 1 < n {
                    assert(out@ + (seq![','] + json_entries(full.skip(i as int + 1))) =~= outb + (
                    seq![','] + json_entries(full.skip(i as int))));
                    assert(out@ + (seq![','] + json_entries(full.skip(i as int + 1))) =~= old(
                        out,
                    )@ + seq!['{'] + json_entries(full));
                } else {
                    assert(out@ =~= outb + (seq![','] + json_entries(full.skip(i as int))));
                    assert(out@ =~= old(out)@ + seq!['{'] + json_entries(full));
                }
            }
        }
        i += 1;
    }
    out.push('}');
    proof {
        assert(out@ =~= old(out)@ + json_object(full));
    }
}

} // verus!
