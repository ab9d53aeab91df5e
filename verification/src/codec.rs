//! The size-unit codec: decoding human-readable capacity strings
//! ("100G", "512M", "1.5K") into byte counts, and encoding byte counts
//! back into human-readable strings. Pure, no I/O.
//!
//! Suffixes B/K/M/G/T denote binary multiples of 1024; no suffix means a
//! raw byte count. A number may carry a fractional part, floored after
//! scaling by the unit, so every string the encoder emits decodes again.

use vstd::prelude::*;

use crate::text::{
    find_first, is_space_char, lemma_find_first_is, spec_trim, spec_trim_end, spec_trim_start,
    str_to_chars, trim_str,
};

verus! {

/// A decimal digit.
pub open spec fn is_digit_char(c: char) -> bool {
    48 <= c as u32 <= 57
}

/// The numeric value of a decimal digit character.
pub open spec fn digit_val(c: char) -> int {
    c as u32 - 48
}

/// Every character of `s` is a decimal digit.
pub open spec fn all_digits(s: Seq<char>) -> bool {
    forall|i: int| 0 <= i < s.len() ==> is_digit_char(#[trigger] s[i])
}

/// The number a digit string denotes.
pub open spec fn digits_val(s: Seq<char>) -> int
    decreases s.len(),
{
    if s.len() == 0 {
        0int
    } else {
        digits_val(s.subrange(0, s.len() - 1)) * 10 + digit_val(s[s.len() - 1])
    }
}

/// The byte multiplier a size suffix denotes, if the character is one.
pub open spec fn suffix_unit(c: char) -> Option<int> {
    if c == 'B' {
        Some(1int)
    } else if c == 'K' {
        Some(1024int)
    } else if c == 'M' {
        Some(1048576int)
    } else if c == 'G' {
        Some(1073741824int)
    } else if c == 'T' {
        Some(1099511627776int)
    } else {
        None
    }
}

/// `s` without every trailing copy of `c`.
pub open spec fn strip_trailing(s: Seq<char>, c: char) -> Seq<char>
    decreases s.len(),
{
    if s.len() > 0 && s[s.len() - 1] == c {
        strip_trailing(s.subrange(0, s.len() - 1), c)
    } else {
        s
    }
}

/// The predicate a decimal-point search looks for.
pub open spec fn dot_pred() -> spec_fn(char) -> bool {
    |c: char| c == '.'
}

/// `floor(0.f1 f2 ... * unit)` for the fraction the digit string denotes.
pub open spec fn frac_floor(fp: Seq<char>, unit: int) -> int
    decreases fp.len(),
{
    if fp.len() == 0 {
        0int
    } else {
        (digit_val(fp[0]) * unit + frac_floor(fp.subrange(1, fp.len() as int), unit)) / 10
    }
}

/// The number of bytes a trimmed, suffix-stripped body denotes: an
/// optional leading plus sign, then digits with an optional nonempty
/// fractional part, scaled by `unit` and floored. `None` when the body
/// does not have that shape.
pub open spec fn spec_parse_body(b: Seq<char>, unit: int) -> Option<int> {
    let d = if b.len() > 0 && b[0] == '+' {
        b.subrange(1, b.len() as int)
    } else {
        b
    };
    let dot = find_first(d, dot_pred());
    if d.len() == 0 {
        None
    } else if dot >= d.len() {
        if all_digits(d) {
            Some(digits_val(d) * unit)
        } else {
            None
        }
    } else {
        let ip = d.subrange(0, dot);
        let fp = d.subrange(dot + 1, d.len() as int);
        if ip.len() > 0 && fp.len() > 0 && all_digits(ip) && all_digits(fp) {
            Some(digits_val(ip) * unit + frac_floor(fp, unit))
        } else {
            None
        }
    }
}

/// The byte count a human-readable capacity string denotes: whitespace
/// is trimmed, a recognised suffix (with every trailing copy of it)
/// selects the unit, and the remaining body is read per
/// `spec_parse_body`. `None` on any other content, and on a value beyond
/// `u64::MAX`.
pub open spec fn spec_parse_size(s: Seq<char>) -> Option<int> {
    let t = spec_trim(s);
    if t.len() == 0 {
        None
    } else {
        let last = t[t.len() - 1];
        let unit = match suffix_unit(last) {
            Some(u) => u,
            None => 1int,
        };
        let body = match suffix_unit(last) {
            Some(_) => strip_trailing(t, last),
            None => t,
        };
        match spec_parse_body(body, unit) {
            Some(v) => if v <= u64::MAX {
                Some(v)
            } else {
                None
            },
            None => None,
        }
    }
}

/// A digit string denotes a nonnegative number.
pub proof fn lemma_digits_val_nonneg(s: Seq<char>)
    requires
        all_digits(s),
    ensures
        digits_val(s) >= 0,
    decreases s.len(),
{
    if s.len() > 0 {
        let t = s.subrange(0, s.len() - 1);
        assert(all_digits(t));
        lemma_digits_val_nonneg(t);
    }
}

/// A fractional part scaled by a positive unit stays in `[0, unit)`.
pub proof fn lemma_frac_floor_range(fp: Seq<char>, unit: int)
    requires
        all_digits(fp),
        unit >= 1,
    ensures
        0 <= frac_floor(fp, unit) < unit,
    decreases fp.len(),
{
    if fp.len() > 0 {
        let t = fp.subrange(1, fp.len() as int);
        assert(all_digits(t));
        lemma_frac_floor_range(t, unit);
        let d = digit_val(fp[0]);
        let rest = frac_floor(t, unit);
        assert(0 <= d <= 9);
        assert((d * unit + rest) / 10 < unit && (d * unit + rest) / 10 >= 0) by (nonlinear_arith)
            requires
                0 <= d <= 9,
                0 <= rest < unit,
                unit >= 1,
        ;
    }
}

/// Reads the digit span `cs[from..to]`: `None` when some character is
/// not a digit; otherwise the value with a flag saying it exceeded
/// `u64::MAX` (the accumulator stops at the flag).
#[verifier::loop_isolation(false)]
fn scan_int_digits(cs: &Vec<char>, from: usize, to: usize) -> (r: Option<(u64, bool)>)
    requires
        from <= to <= cs@.len(),
    ensures
        r is Some <==> all_digits(cs@.subrange(from as int, to as int)),
        (match r {
            Some(p) => (p.1 ==> digits_val(cs@.subrange(from as int, to as int)) > u64::MAX) && (
            !p.1 ==> p.0 as int == digits_val(cs@.subrange(from as int, to as int))),
            None => true,
        }),
{
    let ghost tv = cs@;
    let mut acc: u64 = 0;
    let mut over: bool = false;
    let mut i: usize = from;
    proof {
        assert(tv.subrange(from as int, from as int) =~= Seq::<char>::empty());
    }
    while i < to
        invariant
            from <= i <= to,
            forall|k: int| from <= k < i ==> is_digit_char(#[trigger] tv[k]),
            !over ==> acc as int == digits_val(tv.subrange(from as int, i as int)),
            over ==> digits_val(tv.subrange(from as int, i as int)) > u64::MAX,
        decreases to - i,
    {
        let cu = cs[i] as u32;
        if cu < 48 || cu > 57 {
            proof {
                assert(!is_digit_char(tv[i as int]));
                assert(cs@.subrange(from as int, to as int)[i - from] == tv[i as int]);
            }
            return None;
        }
        let dv: u64 = ((cu - 48) as u64);
        let ghost prefix = tv.subrange(from as int, i as int);
        let ghost prefix1 = tv.subrange(from as int, i + 1);
        proof {
            assert(prefix1.subrange(0, prefix1.len() - 1) =~= prefix);
            assert(prefix1[prefix1.len() - 1] == tv[i as int]);
            assert(dv as int == digit_val(tv[i as int]));
        }
        if !over {
            let na: u128 = (acc as u128) * 10 + dv as u128;
            if na > u64::MAX as u128 {
                over = true;
                proof {
                    assert(digits_val(prefix1) == digits_val(prefix) * 10 + digit_val(
                        tv[i as int],
                    ));
                }
            } else {
                acc = na as u64;
            }
        } else {
            proof {
                assert(all_digits(prefix));
                lemma_digits_val_nonneg(prefix);
                assert(digits_val(prefix1) == digits_val(prefix) * 10 + digit_val(tv[i as int]));
            }
        }
        i = i + 1;
    }
    Some((acc, over))
}

/// Reads the digit span `cs[from..to]` as a fractional part: `None` when
/// some character is not a digit; otherwise the fraction scaled by
/// `unit` and floored, folded from the rightmost digit inward.
#[verifier::loop_isolation(false)]
fn scan_frac_digits(cs: &Vec<char>, from: usize, to: usize, unit: u64) -> (r: Option<u64>)
    requires
        from <= to <= cs@.len(),
        1 <= unit <= 1099511627776,
    ensures
        r is Some <==> all_digits(cs@.subrange(from as int, to as int)),
        r is Some ==> r->0 as int == frac_floor(cs@.subrange(from as int, to as int), unit as int)
            && r->0 < unit,
{
    let ghost tv = cs@;
    let mut fr: u64 = 0;
    let mut j: usize = to;
    proof {
        assert(tv.subrange(to as int, to as int) =~= Seq::<char>::empty());
    }
    while j > from
        invariant
            from <= j <= to,
            fr as int == frac_floor(tv.subrange(j as int, to as int), unit as int),
            fr < unit,
            forall|k: int| j <= k < to ==> is_digit_char(#[trigger] tv[k]),
        decreases j,
    {
        let cu = cs[j - 1] as u32;
        if cu < 48 || cu > 57 {
            proof {
                assert(!is_digit_char(tv[j - 1]));
                assert(cs@.subrange(from as int, to as int)[j - 1 - from] == tv[j - 1]);
            }
            return None;
        }
        let dv: u64 = ((cu - 48) as u64);
        proof {
            assert(dv as int == digit_val(tv[j - 1]));
            assert(dv * unit + fr < 10 * unit) by (nonlinear_arith)
                requires
                    dv <= 9,
                    fr < unit,
                    unit >= 1,
            ;
            assert(10 * unit <= 10 * 1099511627776) by (nonlinear_arith)
                requires
                    unit <= 1099511627776,
            ;
            assert((dv * unit + fr) / 10 < unit) by (nonlinear_arith)
                requires
                    dv * unit + fr < 10 * unit,
                    unit >= 1,
            ;
            assert(tv.subrange(j - 1, to as int).subrange(
                1,
                tv.subrange(j - 1, to as int).len() as int,
            ) =~= tv.subrange(j as int, to as int));
        }
        fr = (dv * unit + fr) / 10;
        j = j - 1;
    }
    Some(fr)
}

/// Decodes a human-readable capacity string, per `spec_parse_size`.
///
/// Non-numeric content is a decode failure (`None`), as is a value that
/// does not fit in a `u64`.
#[verifier::rlimit(100)]
#[verifier::loop_isolation(false)]
pub fn parse_size(s: &str) -> (r: Option<u64>)
    ensures
        r is Some <==> spec_parse_size(s@) is Some,
        r is Some ==> r->0 as int == spec_parse_size(s@)->0,
{
    let t = trim_str(s);
    let cs = str_to_chars(t);
    let ghost tv = t@;
    let n = cs.len();
    if n == 0 {
        return None;
    }
    let last = cs[n - 1];
    let (unit, has_suffix): (u64, bool) = if last == 'B' {
        (1, true)
    } else if last == 'K' {
        (1024, true)
    } else if last == 'M' {
        (1048576, true)
    } else if last == 'G' {
        (1073741824, true)
    } else if last == 'T' {
        (1099511627776, true)
    } else {
        (1, false)
    };
    proof {
        assert(has_suffix <==> suffix_unit(last) is Some);
        assert(has_suffix ==> unit as int == suffix_unit(last)->0);
    }
    let mut e: usize = n;
    if has_suffix {
        proof {
            assert(tv.subrange(0, n as int) =~= tv);
        }
        while e > 0 && cs[e - 1] == last
            invariant
                0 <= e <= n,
                n == cs@.len(),
                cs@ == tv,
                strip_trailing(tv, last) == strip_trailing(tv.subrange(0, e as int), last),
            decreases e,
        {
            proof {
                assert(tv.subrange(0, e as int).subrange(0, e - 1) =~= tv.subrange(0, e - 1));
            }
            e = e - 1;
        }
    }
    let ghost body = match suffix_unit(last) {
        Some(_) => strip_trailing(tv, last),
        None => tv,
    };
    proof {
        if has_suffix {
            assert(strip_trailing(tv.subrange(0, e as int), last) =~= tv.subrange(0, e as int));
        } else {
            assert(tv.subrange(0, e as int) =~= tv);
        }
        assert(body =~= tv.subrange(0, e as int));
    }
    // optional leading plus sign
    let start: usize = if e > 0 && cs[0] == '+' {
        1
    } else {
        0
    };
    let ghost d = if body.len() > 0 && body[0] == '+' {
        body.subrange(1, body.len() as int)
    } else {
        body
    };
    proof {
        assert(d =~= tv.subrange(start as int, e as int));
    }
    if e == start {
        return None;
    }
    // locate the decimal point
    let mut dot: usize = start;
    while dot < e && cs[dot] != '.'
        invariant
            start <= dot <= e <= n,
            n == cs@.len(),
            cs@ == tv,
            forall|k: int| start <= k < dot ==> (#[trigger] tv[k]) != '.',
        decreases e - dot,
    {
        dot = dot + 1;
    }
    proof {
        assert forall|k: int| 0 <= k < dot - start implies !(dot_pred()(d[k])) by {
            assert(d[k] == tv[start + k]);
        }
        if dot < e {
            assert(dot_pred()(d[dot - start]));
        }
        lemma_find_first_is(d, dot_pred(), dot - start);
    }
    if dot == start {
        // empty integer part (the body begins with the decimal point)
        proof {
            assert(d.subrange(0, 0).len() == 0);
            assert(spec_parse_body(body, unit as int) is None);
        }
        return None;
    }
    let ghost ip = d.subrange(0, dot - start);
    proof {
        assert(ip =~= tv.subrange(start as int, dot as int));
    }
    // integer part
    let int_scan = scan_int_digits(&cs, start, dot);
    let (acc, over): (u64, bool) = match int_scan {
        Some(p) => p,
        None => {
            proof {
                if dot < e {
                    assert(!all_digits(ip));
                } else {
                    assert(!all_digits(d));
                }
                assert(spec_parse_body(body, unit as int) is None);
            }
            return None;
        },
    };
    // fractional part
    let mut fr: u64 = 0;
    if dot < e {
        if dot + 1 == e {
            // empty fractional part after the decimal point
            return None;
        }
        let ghost fp = d.subrange(dot - start + 1, d.len() as int);
        proof {
            assert(fp =~= tv.subrange(dot + 1, e as int));
        }
        let frac_scan = scan_frac_digits(&cs, dot + 1, e, unit);
        match frac_scan {
            Some(f) => {
                fr = f;
            },
            None => {
                proof {
                    assert(!all_digits(fp));
                    assert(spec_parse_body(body, unit as int) is None);
                }
                return None;
            },
        }
    }
    if over {
        proof {
            let full = tv.subrange(start as int, dot as int);
            assert(all_digits(full));
            lemma_digits_val_nonneg(full);
            assert(digits_val(full) * unit >= digits_val(full)) by (nonlinear_arith)
                requires
                    digits_val(full) >= 0,
                    unit >= 1,
            ;
            if dot < e {
                let fp = d.subrange(dot - start + 1, d.len() as int);
                assert(fp =~= tv.subrange(dot + 1, e as int));
                assert(all_digits(fp));
                lemma_frac_floor_range(fp, unit as int);
            }
        }
        return None;
    }
    let total: u128 = {
        proof {
            assert((acc as u128) * (unit as u128) <= 0xffffffffffffffffu128 * 1099511627776u128)
                by (nonlinear_arith)
                requires
                    acc <= 0xffffffffffffffffu128,
                    unit <= 1099511627776,
                    unit >= 1,
            ;
        }
        (acc as u128) * (unit as u128) + fr as u128
    };
    if total > u64::MAX as u128 {
        return None;
    }
    Some(total as u64)
}

/// The character of a decimal digit.
pub open spec fn digit_char(d: int) -> char {
    if d == 0 {
        '0'
    } else if d == 1 {
        '1'
    } else if d == 2 {
        '2'
    } else if d == 3 {
        '3'
    } else if d == 4 {
        '4'
    } else if d == 5 {
        '5'
    } else if d == 6 {
        '6'
    } else if d == 7 {
        '7'
    } else if d == 8 {
        '8'
    } else {
        '9'
    }
}

/// The decimal digit string of a nonnegative number, most significant
/// digit first, without leading zeroes (a single zero for 0).
pub open spec fn spec_dec_digits(n: int) -> Seq<char>
    decreases n,
{
    if n < 10 {
        seq![digit_char(n)]
    } else {
        spec_dec_digits(n / 10).push(digit_char(n % 10))
    }
}

/// Which unit the encoder picks: the largest of B/K/M/G/T whose multiple
/// does not exceed the byte count (capped at T).
pub open spec fn spec_unit_index(bytes: u64) -> int {
    if bytes < 1024 {
        0int
    } else if bytes < 1048576 {
        1int
    } else if bytes < 1073741824 {
        2int
    } else if bytes < 1099511627776 {
        3int
    } else {
        4int
    }
}

/// The byte multiplier of each unit index.
pub open spec fn spec_unit_of(k: int) -> int {
    if k == 0 {
        1int
    } else if k == 1 {
        1024int
    } else if k == 2 {
        1048576int
    } else if k == 3 {
        1073741824int
    } else {
        1099511627776int
    }
}

/// The suffix character of each unit index.
pub open spec fn spec_suffix_char(k: int) -> char {
    if k == 0 {
        'B'
    } else if k == 1 {
        'K'
    } else if k == 2 {
        'M'
    } else if k == 3 {
        'G'
    } else {
        'T'
    }
}

/// The human-readable encoding of a byte count: below 1024, the plain
/// count with a `B` suffix; otherwise the count scaled by the chosen
/// unit, floored to one decimal place, with the unit's suffix.
pub open spec fn spec_format_size(bytes: u64) -> Seq<char> {
    let k = spec_unit_index(bytes);
    if k == 0 {
        spec_dec_digits(bytes as int).push('B')
    } else {
        let u = spec_unit_of(k);
        let t = bytes * 10 / u;
        spec_dec_digits(t / 10) + seq!['.', digit_char(t % 10), spec_suffix_char(k)]
    }
}

/// The one-character string of a decimal digit.
fn digit_str(d: u64) -> (r: &'static str)
    requires
        d < 10,
    ensures
        r@ == seq![digit_char(d as int)],
{
    if d == 0 {
        proof {
            reveal_strlit("0");
            assert("0"@ =~= seq![digit_char(0int)]);
        }
        "0"
    } else if d == 1 {
        proof {
            reveal_strlit("1");
            assert("1"@ =~= seq![digit_char(1int)]);
        }
        "1"
    } else if d == 2 {
        proof {
            reveal_strlit("2");
            assert("2"@ =~= seq![digit_char(2int)]);
        }
        "2"
    } else if d == 3 {
        proof {
            reveal_strlit("3");
            assert("3"@ =~= seq![digit_char(3int)]);
        }
        "3"
    } else if d == 4 {
        proof {
            reveal_strlit("4");
            assert("4"@ =~= seq![digit_char(4int)]);
        }
        "4"
    } else if d == 5 {
        proof {
            reveal_strlit("5");
            assert("5"@ =~= seq![digit_char(5int)]);
        }
        "5"
    } else if d == 6 {
        proof {
            reveal_strlit("6");
            assert("6"@ =~= seq![digit_char(6int)]);
        }
        "6"
    } else if d == 7 {
        proof {
            reveal_strlit("7");
            assert("7"@ =~= seq![digit_char(7int)]);
        }
        "7"
    } else if d == 8 {
        proof {
            reveal_strlit("8");
            assert("8"@ =~= seq![digit_char(8int)]);
        }
        "8"
    } else {
        proof {
            reveal_strlit("9");
            assert("9"@ =~= seq![digit_char(9int)]);
        }
        "9"
    }
}

/// The decimal digit string of `n`, per `spec_dec_digits`.
pub fn u64_to_string(n: u64) -> (r: String)
    ensures
        r@ == spec_dec_digits(n as int),
    decreases n,
{
    if n < 10 {
        digit_str(n).to_owned()
    } else {
        let mut s = u64_to_string(n / 10);
        s.append(digit_str(n % 10));
        proof {
            assert(s@ =~= spec_dec_digits((n / 10) as int).push(digit_char((n % 10) as int)));
        }
        s
    }
}

/// The suffix string of a scaled unit index.
fn suffix_str(k: usize) -> (r: &'static str)
    requires
        1 <= k <= 4,
    ensures
        r@ == seq![spec_suffix_char(k as int)],
{
    if k == 1 {
        proof {
            reveal_strlit("K");
            assert("K"@ =~= seq![spec_suffix_char(1int)]);
        }
        "K"
    } else if k == 2 {
        proof {
            reveal_strlit("M");
            assert("M"@ =~= seq![spec_suffix_char(2int)]);
        }
        "M"
    } else if k == 3 {
        proof {
            reveal_strlit("G");
            assert("G"@ =~= seq![spec_suffix_char(3int)]);
        }
        "G"
    } else {
        proof {
            reveal_strlit("T");
            assert("T"@ =~= seq![spec_suffix_char(4int)]);
        }
        "T"
    }
}

/// Encodes a byte count as a human-readable capacity string, per
/// `spec_format_size`.
pub fn format_size(bytes: u64) -> (r: String)
    ensures
        r@ == spec_format_size(bytes),
{
    if bytes < 1024 {
        let mut s = u64_to_string(bytes);
        s.append("B");
        proof {
            reveal_strlit("B");
            assert(s@ =~= spec_dec_digits(bytes as int).push('B'));
        }
        s
    } else {
        let (unit, k): (u64, usize) = if bytes < 1048576 {
            (1024, 1)
        } else if bytes < 1073741824 {
            (1048576, 2)
        } else if bytes < 1099511627776 {
            (1073741824, 3)
        } else {
            (1099511627776, 4)
        };
        proof {
            assert(k as int == spec_unit_index(bytes));
            assert(unit as int == spec_unit_of(k as int));
        }
        proof {
            assert((bytes as int) * 10 / (unit as int) < 0xffffffffffffffff) by (nonlinear_arith)
                requires
                    1024 <= unit as int,
                    bytes as int <= 0xffffffffffffffff,
            ;
        }
        let t128: u128 = (bytes as u128) * 10 / (unit as u128);
        let t: u64 = t128 as u64;
        let mut s = u64_to_string(t / 10);
        s.append(".");
        s.append(digit_str(t % 10));
        s.append(suffix_str(k));
        proof {
            reveal_strlit(".");
            assert(t as int == bytes * 10 / spec_unit_of(k as int));
            assert(s@ =~= spec_dec_digits((t / 10) as int) + seq![
                '.',
                digit_char((t % 10) as int),
                spec_suffix_char(k as int),
            ]);
        }
        s
    }
}

/// Digit characters and their values invert each other.
pub proof fn lemma_digit_char_val(d: int)
    requires
        0 <= d <= 9,
    ensures
        is_digit_char(digit_char(d)),
        digit_val(digit_char(d)) == d,
{
}

/// A rendered number is one or more digit characters.
pub proof fn lemma_dec_digits_shape(n: int)
    requires
        n >= 0,
    ensures
        spec_dec_digits(n).len() >= 1,
        all_digits(spec_dec_digits(n)),
    decreases n,
{
    if n < 10 {
        lemma_digit_char_val(n);
    } else {
        lemma_dec_digits_shape(n / 10);
        lemma_digit_char_val(n % 10);
    }
}

/// Reading a rendered number back gives the number.
pub proof fn lemma_dec_digits_val(n: int)
    requires
        n >= 0,
    ensures
        digits_val(spec_dec_digits(n)) == n,
    decreases n,
{
    let ds = spec_dec_digits(n);
    if n < 10 {
        lemma_digit_char_val(n);
        assert(ds.subrange(0, 0) =~= Seq::<char>::empty());
        assert(digits_val(Seq::<char>::empty()) == 0);
    } else {
        lemma_dec_digits_val(n / 10);
        lemma_digit_char_val(n % 10);
        assert(ds.subrange(0, ds.len() - 1) =~= spec_dec_digits(n / 10));
    }
}

/// A string whose first and last characters are not whitespace trims to
/// itself.
pub proof fn lemma_trim_identity(s: Seq<char>)
    requires
        s.len() > 0,
        !is_space_char(s[0]),
        !is_space_char(s[s.len() - 1]),
    ensures
        spec_trim(s) == s,
{
    assert(spec_trim_start(s) == s);
    assert(spec_trim_end(s) == s);
}

/// The floored one-decimal scaling `t = floor(b * 10 / u)`, read back as
/// `floor(t) . (t mod 10)` of the unit, lands within one unit below `b`,
/// and exactly on `b` when `b` is a multiple of the unit.
proof fn lemma_scaled_tenths(b: int, u: int)
    requires
        1024 <= u,
        u <= b,
    ensures
        ({
            let t = b * 10 / u;
            let v = (t / 10) * u + (t % 10) * u / 10;
            0 <= v <= b && b - v < u && (b % u == 0 ==> v == b)
        }),
{
    let t = b * 10 / u;
    let q = t / 10;
    let r = t % 10;
    let v = q * u + r * u / 10;
    assert(t >= 0 && t * u <= b * 10 && b * 10 < t * u + u) by (nonlinear_arith)
        requires
            u >= 1,
            b >= 1,
            t == b * 10 / u,
    ;
    assert(t == 10 * q + r && 0 <= r <= 9) by (nonlinear_arith)
        requires
            t >= 0,
            q == t / 10,
            r == t % 10,
    ;
    assert(v == t * u / 10 && v >= 0) by (nonlinear_arith)
        requires
            t == 10 * q + r,
            0 <= r <= 9,
            0 <= q,
            u >= 1,
            v == q * u + r * u / 10,
    ;
    assert(10 * v <= t * u && t * u < 10 * v + 10) by (nonlinear_arith)
        requires
            v == t * u / 10,
            t >= 0,
            u >= 1,
    ;
    assert(v <= b) by (nonlinear_arith)
        requires
            10 * v <= t * u,
            t * u <= b * 10,
    ;
    assert(b - v < u) by (nonlinear_arith)
        requires
            10 * b < t * u + u,
            t * u < 10 * v + 10,
            u >= 2,
    ;
    if b % u == 0 {
        let m = b / u;
        assert(b == m * u && m >= 1) by (nonlinear_arith)
            requires
                b % u == 0,
                m == b / u,
                b >= u,
                u >= 1,
        ;
        assert(t == 10 * m) by (nonlinear_arith)
            requires
                t == b * 10 / u,
                b == m * u,
                u >= 1,
                m >= 1,
        ;
        assert(v == b) by (nonlinear_arith)
            requires
                t == 10 * m,
                q == t / 10,
                r == t % 10,
                v == q * u + r * u / 10,
                b == m * u,
                m >= 1,
                u >= 1,
        ;
    }
}

/// Law: the codec round-trips. Decoding an encoded byte count always
/// succeeds and recovers a value within one step of the chosen unit
/// below the encoded count — encoding is lossy by design at large
/// magnitudes — and recovers the count exactly when it is an exact
/// multiple of the chosen unit (below 1024 the unit is one byte, so
/// every small count round-trips exactly).
pub proof fn lemma_size_codec_round_trip(bytes: u64)
    ensures
        spec_parse_size(spec_format_size(bytes)) is Some,
        spec_parse_size(spec_format_size(bytes))->0 <= bytes,
        bytes - spec_parse_size(spec_format_size(bytes))->0 < spec_unit_of(
            spec_unit_index(bytes),
        ),
        bytes as int % spec_unit_of(spec_unit_index(bytes)) == 0 ==> spec_parse_size(
            spec_format_size(bytes),
        )->0 == bytes,
{
    let k = spec_unit_index(bytes);
    let u = spec_unit_of(k);
    let f = spec_format_size(bytes);
    if k == 0 {
        let ds = spec_dec_digits(bytes as int);
        lemma_dec_digits_shape(bytes as int);
        assert(f == ds.push('B'));
        assert(!is_space_char(f[0]));
        assert(!is_space_char(f[f.len() - 1]));
        lemma_trim_identity(f);
        assert(suffix_unit('B') == Some(1int));
        assert(f.subrange(0, f.len() - 1) =~= ds);
        assert(strip_trailing(f, 'B') == strip_trailing(ds, 'B'));
        assert(!(ds[ds.len() - 1] == 'B'));
        assert(strip_trailing(ds, 'B') == ds);
        assert(ds[0] != '+');
        assert forall|j: int| 0 <= j < ds.len() implies !(dot_pred()(ds[j])) by {
            assert(is_digit_char(ds[j]));
        }
        lemma_find_first_is(ds, dot_pred(), ds.len() as int);
        lemma_dec_digits_val(bytes as int);
        assert(spec_parse_body(ds, 1) == Some(bytes as int));
        assert(spec_parse_size(f) == Some(bytes as int));
    } else {
        let t = bytes * 10 / u;
        let q = t / 10;
        let r = t % 10;
        assert(bytes >= u);
        lemma_scaled_tenths(bytes as int, u);
        assert(t >= 0 && q >= 0 && 0 <= r <= 9) by (nonlinear_arith)
            requires
                t == bytes * 10 / u,
                u >= 1024,
                bytes >= u,
                q == t / 10,
                r == t % 10,
        ;
        let ds = spec_dec_digits(q);
        lemma_dec_digits_shape(q);
        lemma_digit_char_val(r);
        let sc = spec_suffix_char(k);
        assert(f == ds + seq!['.', digit_char(r), sc]);
        assert(suffix_unit(sc) == Some(u));
        assert(!is_space_char(f[0]));
        assert(!is_space_char(f[f.len() - 1]));
        lemma_trim_identity(f);
        // the suffix is stripped exactly once: the character before it is
        // a digit
        let body = ds + seq!['.', digit_char(r)];
        assert(f.subrange(0, f.len() - 1) =~= body);
        assert(strip_trailing(f, sc) == strip_trailing(body, sc));
        assert(is_digit_char(body[body.len() - 1]));
        assert(!(body[body.len() - 1] == sc));
        assert(strip_trailing(body, sc) == body);
        assert(body[0] != '+');
        // the decimal point is first found right after the digits
        assert forall|j: int| 0 <= j < ds.len() implies !(dot_pred()(body[j])) by {
            assert(body[j] == ds[j]);
            assert(is_digit_char(ds[j]));
        }
        assert(dot_pred()(body[ds.len() as int]));
        lemma_find_first_is(body, dot_pred(), ds.len() as int);
        let ip = body.subrange(0, ds.len() as int);
        let fp = body.subrange(ds.len() as int + 1, body.len() as int);
        assert(ip =~= ds);
        assert(fp =~= seq![digit_char(r)]);
        lemma_dec_digits_val(q);
        // the one-digit fraction folds to its floored scaling
        assert(fp.subrange(1, 1) =~= Seq::<char>::empty());
        assert(frac_floor(Seq::<char>::empty(), u) == 0);
        assert(fp[0] == digit_char(r));
        assert(frac_floor(fp, u) == (r * u + 0) / 10);
        assert(all_digits(fp));
        let v = q * u + r * u / 10;
        assert(spec_parse_body(body, u) == Some(v));
        assert(v <= bytes && bytes - v < u && (bytes as int % u == 0 ==> v == bytes));
        assert(spec_parse_size(f) == Some(v));
    }
}

} // verus!
