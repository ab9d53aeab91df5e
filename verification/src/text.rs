//! Text utilities over tool output: lines, whitespace tokens, substring
//! tests. Each executable function is specified against a recursive
//! mathematical model of the same operation.

use vstd::prelude::*;

verus! {

/// The whitespace characters recognised when splitting and trimming.
pub open spec fn is_space_char(c: char) -> bool {
    c == ' ' || c == '\t' || c == '\n' || c == '\r' || c == '\u{b}' || c == '\u{c}'
}

/// A line is blank when every character is whitespace (an empty line is
/// blank).
pub open spec fn is_blank(s: Seq<char>) -> bool {
    forall|i: int| 0 <= i < s.len() ==> is_space_char(#[trigger] s[i])
}

/// Index of the first character satisfying `p`, or `s.len()` if none.
pub open spec fn find_first(s: Seq<char>, p: spec_fn(char) -> bool) -> int
    decreases s.len(),
{
    if s.len() == 0 {
        0
    } else if p(s[0]) {
        0
    } else {
        1 + find_first(s.subrange(1, s.len() as int), p)
    }
}

pub proof fn lemma_find_first(s: Seq<char>, p: spec_fn(char) -> bool)
    ensures
        0 <= find_first(s, p) <= s.len(),
        forall|i: int| 0 <= i < find_first(s, p) ==> !p(#[trigger] s[i]),
        find_first(s, p) < s.len() ==> p(s[find_first(s, p)]),
    decreases s.len(),
{
    if s.len() > 0 && !p(s[0]) {
        let t = s.subrange(1, s.len() as int);
        lemma_find_first(t, p);
        assert forall|i: int| 0 <= i < find_first(s, p) implies !p(#[trigger] s[i]) by {
            if i > 0 {
                assert(!p(t[i - 1]));
            }
        };
        if find_first(s, p) < s.len() {
            assert(p(t[find_first(t, p)]));
        }
    }
}

/// `find_first` is the unique index below which nothing satisfies `p` and
/// at which either the string ends or `p` holds.
pub proof fn lemma_find_first_is(s: Seq<char>, p: spec_fn(char) -> bool, i: int)
    requires
        0 <= i <= s.len(),
        forall|k: int| 0 <= k < i ==> !p(#[trigger] s[k]),
        i < s.len() ==> p(s[i]),
    ensures
        find_first(s, p) == i,
    decreases s.len(),
{
    if s.len() > 0 && !p(s[0]) {
        let t = s.subrange(1, s.len() as int);
        assert(forall|k: int| 0 <= k < i - 1 ==> !p(#[trigger] t[k]));
        lemma_find_first_is(t, p, i - 1);
    }
}

/// The predicate a newline split looks for.
pub open spec fn newline_pred() -> spec_fn(char) -> bool {
    |c: char| c == '\n'
}

/// The predicate a whitespace split looks for.
pub open spec fn space_pred() -> spec_fn(char) -> bool {
    |c: char| is_space_char(c)
}

/// A line segment that a newline terminated is stripped of one trailing
/// carriage return, so that both `\n` and `\r\n` endings are accepted.
pub open spec fn strip_cr(s: Seq<char>) -> Seq<char> {
    if s.len() > 0 && s[s.len() - 1] == '\r' {
        s.subrange(0, s.len() - 1)
    } else {
        s
    }
}

/// The lines of `s`: segments between newlines, each stripped of one
/// trailing carriage return; a final segment without a terminating
/// newline is kept whole, and a terminating newline at the very end
/// produces no empty final line.
pub open spec fn spec_lines(s: Seq<char>) -> Seq<Seq<char>>
    decreases s.len(),
    via spec_lines_dec
{
    if s.len() == 0 {
        Seq::empty()
    } else {
        let i = find_first(s, newline_pred());
        if i >= s.len() {
            seq![s]
        } else {
            seq![strip_cr(s.subrange(0, i))] + spec_lines(s.subrange(i + 1, s.len() as int))
        }
    }
}

#[via_fn]
proof fn spec_lines_dec(s: Seq<char>) {
    lemma_find_first(s, newline_pred());
}

/// The whitespace-separated tokens of `s`, in order; tokens are maximal
/// nonempty runs of non-whitespace characters.
pub open spec fn spec_tokens(s: Seq<char>) -> Seq<Seq<char>>
    decreases s.len(),
    via spec_tokens_dec
{
    if s.len() == 0 {
        Seq::empty()
    } else if is_space_char(s[0]) {
        spec_tokens(s.subrange(1, s.len() as int))
    } else {
        let i = find_first(s, space_pred());
        seq![s.subrange(0, i)] + spec_tokens(s.subrange(i, s.len() as int))
    }
}

#[via_fn]
proof fn spec_tokens_dec(s: Seq<char>) {
    lemma_find_first(s, space_pred());
    if s.len() > 0 && !is_space_char(s[0]) {
        assert(!(space_pred()(s[0])));
    }
}

/// `s` starts with `p`.
pub open spec fn spec_starts_with(s: Seq<char>, p: Seq<char>) -> bool {
    p.len() <= s.len() && s.subrange(0, p.len() as int) == p
}

/// `p` occurs somewhere in `s` as a contiguous substring.
pub open spec fn spec_contains(s: Seq<char>, p: Seq<char>) -> bool {
    exists|i: int|
        0 <= i && i + p.len() <= s.len() && #[trigger] s.subrange(i, i + p.len() as int) == p
}

/// Whether `c` is one of the recognised whitespace characters.
pub fn is_space(c: char) -> (r: bool)
    ensures
        r == is_space_char(c),
{
    c == ' ' || c == '\t' || c == '\n' || c == '\r' || c == '\u{b}' || c == '\u{c}'
}

/// Whether every character of `s` is whitespace.
pub fn is_blank_str(s: &str) -> (r: bool)
    ensures
        r == is_blank(s@),
{
    let n = s.unicode_len();
    let mut i: usize = 0;
    while i < n
        invariant
            0 <= i <= n,
            n == s@.len(),
            forall|k: int| 0 <= k < i ==> is_space_char(#[trigger] s@[k]),
        decreases n - i,
    {
        if !is_space(s.get_char(i)) {
            return false;
        }
        i = i + 1;
    }
    true
}

/// Whether the characters of `s` begin with those of `p`.
pub fn starts_with_str(s: &str, p: &str) -> (r: bool)
    ensures
        r == spec_starts_with(s@, p@),
{
    let n = s.unicode_len();
    let m = p.unicode_len();
    if m > n {
        return false;
    }
    let mut k: usize = 0;
    while k < m
        invariant
            0 <= k <= m <= n,
            n == s@.len(),
            m == p@.len(),
            forall|j: int| 0 <= j < k ==> s@[j] == p@[j],
        decreases m - k,
    {
        if s.get_char(k) != p.get_char(k) {
            proof {
                assert(s@.subrange(0, m as int)[k as int] != p@[k as int]);
            }
            return false;
        }
        k = k + 1;
    }
    proof {
        assert(s@.subrange(0, m as int) =~= p@);
    }
    true
}

/// Whether the characters of `p` occur contiguously in `s`, starting at
/// index `at`.
fn matches_at(s: &str, p: &str, at: usize) -> (r: bool)
    requires
        at + p@.len() <= s@.len(),
        s@.len() <= usize::MAX,
    ensures
        r == (s@.subrange(at as int, at + p@.len() as int) == p@),
{
    let m = p.unicode_len();
    let mut k: usize = 0;
    while k < m
        invariant
            0 <= k <= m,
            m == p@.len(),
            at + m <= s@.len(),
            s@.len() <= usize::MAX,
            forall|j: int| 0 <= j < k ==> s@[at + j] == p@[j],
        decreases m - k,
    {
        if s.get_char(at + k) != p.get_char(k) {
            proof {
                assert(s@.subrange(at as int, at + p@.len() as int)[k as int] != p@[k as int]);
            }
            return false;
        }
        k = k + 1;
    }
    proof {
        assert(s@.subrange(at as int, at + p@.len() as int) =~= p@);
    }
    true
}

/// Whether `p` occurs somewhere in `s` as a contiguous substring.
pub fn contains_str(s: &str, p: &str) -> (r: bool)
    ensures
        r == spec_contains(s@, p@),
{
    let n = s.unicode_len();
    let m = p.unicode_len();
    if m > n {
        return false;
    }
    if m == 0 {
        proof {
            assert(s@.subrange(0, 0 + p@.len() as int) =~= p@);
        }
        return true;
    }
    let mut i: usize = 0;
    while i <= n - m
        invariant
            0 <= i <= n - m + 1,
            0 < m <= n,
            n == s@.len(),
            m == p@.len(),
            forall|j: int| 0 <= j < i ==> #[trigger] s@.subrange(j, j + p@.len() as int) != p@,
        decreases n - i,
    {
        if matches_at(s, p, i) {
            proof {
                assert(s@.subrange(i as int, i as int + p@.len() as int) == p@);
            }
            return true;
        }
        i = i + 1;
    }
    false
}

/// Splits `s` into its lines, per `spec_lines`.
pub fn split_lines(s: &str) -> (r: Vec<String>)
    ensures
        r.deep_view() == spec_lines(s@),
{
    let n = s.unicode_len();
    let mut r: Vec<String> = Vec::new();
    let mut pos: usize = 0;
    proof {
        assert(s@.subrange(0, n as int) =~= s@);
    }
    while pos < n
        invariant
            0 <= pos <= n,
            n == s@.len(),
            spec_lines(s@) == r.deep_view() + spec_lines(s@.subrange(pos as int, n as int)),
        decreases n - pos,
    {
        let ghost prev = r.deep_view();
        let ghost rest = s@.subrange(pos as int, n as int);
        let mut j: usize = pos;
        while j < n && s.get_char(j) != '\n'
            invariant
                pos <= j <= n,
                n == s@.len(),
                forall|k: int| pos <= k < j ==> s@[k] != '\n',
            decreases n - j,
        {
            j = j + 1;
        }
        proof {
            assert forall|k: int| 0 <= k < j - pos implies !(newline_pred()(rest[k])) by {
                assert(rest[k] == s@[pos + k]);
            }
            if j < n {
                assert(newline_pred()(rest[j - pos]));
            }
            lemma_find_first_is(rest, newline_pred(), j - pos);
        }
        if j < n {
            let line: &str = if j > pos && s.get_char(j - 1) == '\r' {
                s.substring_char(pos, j - 1)
            } else {
                s.substring_char(pos, j)
            };
            proof {
                assert(rest.subrange(0, j - pos) =~= s@.subrange(pos as int, j as int));
                if j > pos && s@[j - 1] == '\r' {
                    assert(line@ =~= strip_cr(rest.subrange(0, j - pos)));
                } else {
                    assert(line@ =~= strip_cr(rest.subrange(0, j - pos)));
                }
                assert(rest.subrange(j - pos + 1, rest.len() as int) =~= s@.subrange(
                    j + 1,
                    n as int,
                ));
            }
            r.push(line.to_owned());
            proof {
                assert(r.deep_view() =~= prev.push(line@));
                assert(r.deep_view() + spec_lines(s@.subrange(j + 1, n as int)) =~= prev
                    + spec_lines(rest));
            }
            pos = j + 1;
        } else {
            let line: &str = s.substring_char(pos, n);
            proof {
                assert(line@ =~= rest);
                assert(spec_lines(rest) =~= seq![rest]);
            }
            r.push(line.to_owned());
            proof {
                assert(r.deep_view() =~= prev.push(rest));
                assert(s@.subrange(n as int, n as int) =~= Seq::<char>::empty());
                assert(r.deep_view() + spec_lines(s@.subrange(n as int, n as int)) =~= prev
                    + spec_lines(rest));
            }
            pos = n;
        }
    }
    proof {
        assert(spec_lines(s@.subrange(n as int, n as int)) =~= Seq::<Seq<char>>::empty());
        assert(r.deep_view() + spec_lines(s@.subrange(n as int, n as int)) =~= r.deep_view());
    }
    r
}

/// Splits `s` into its whitespace-separated tokens, per `spec_tokens`.
pub fn split_tokens(s: &str) -> (r: Vec<String>)
    ensures
        r.deep_view() == spec_tokens(s@),
{
    let n = s.unicode_len();
    let mut r: Vec<String> = Vec::new();
    let mut pos: usize = 0;
    proof {
        assert(s@.subrange(0, n as int) =~= s@);
    }
    while pos < n
        invariant
            0 <= pos <= n,
            n == s@.len(),
            spec_tokens(s@) == r.deep_view() + spec_tokens(s@.subrange(pos as int, n as int)),
        decreases n - pos,
    {
        let ghost prev = r.deep_view();
        let ghost rest = s@.subrange(pos as int, n as int);
        if is_space(s.get_char(pos)) {
            proof {
                assert(rest[0] == s@[pos as int]);
                assert(rest.subrange(1, rest.len() as int) =~= s@.subrange(
                    pos + 1,
                    n as int,
                ));
            }
            pos = pos + 1;
        } else {
            let mut j: usize = pos + 1;
            while j < n && !is_space(s.get_char(j))
                invariant
                    pos < j <= n,
                    n == s@.len(),
                    forall|k: int| pos <= k < j ==> !is_space_char(#[trigger] s@[k]),
                    !is_space_char(s@[pos as int]),
                decreases n - j,
            {
                j = j + 1;
            }
            proof {
                assert forall|k: int| 0 <= k < j - pos implies !(space_pred()(rest[k])) by {
                    assert(rest[k] == s@[pos + k]);
                }
                if j < n {
                    assert(space_pred()(rest[j - pos]));
                }
                lemma_find_first_is(rest, space_pred(), j - pos);
            }
            let tok: &str = s.substring_char(pos, j);
            proof {
                assert(tok@ =~= rest.subrange(0, j - pos));
                assert(rest.subrange(j - pos, rest.len() as int) =~= s@.subrange(
                    j as int,
                    n as int,
                ));
            }
            r.push(tok.to_owned());
            proof {
                assert(r.deep_view() =~= prev.push(tok@));
                assert(r.deep_view() + spec_tokens(s@.subrange(j as int, n as int)) =~= prev
                    + spec_tokens(rest));
            }
            pos = j;
        }
    }
    proof {
        assert(spec_tokens(s@.subrange(n as int, n as int)) =~= Seq::<Seq<char>>::empty());
        assert(r.deep_view() + spec_tokens(s@.subrange(n as int, n as int)) =~= r.deep_view());
    }
    r
}

/// `s` without its leading whitespace.
pub open spec fn spec_trim_start(s: Seq<char>) -> Seq<char>
    decreases s.len(),
{
    if s.len() > 0 && is_space_char(s[0]) {
        spec_trim_start(s.subrange(1, s.len() as int))
    } else {
        s
    }
}

/// `s` without its trailing whitespace.
pub open spec fn spec_trim_end(s: Seq<char>) -> Seq<char>
    decreases s.len(),
{
    if s.len() > 0 && is_space_char(s[s.len() - 1]) {
        spec_trim_end(s.subrange(0, s.len() - 1))
    } else {
        s
    }
}

/// `s` without leading and trailing whitespace.
pub open spec fn spec_trim(s: Seq<char>) -> Seq<char> {
    spec_trim_end(spec_trim_start(s))
}

/// Trims leading and trailing whitespace, per `spec_trim`.
pub fn trim_str<'a>(s: &'a str) -> (r: &'a str)
    ensures
        r@ == spec_trim(s@),
{
    let n = s.unicode_len();
    let mut a: usize = 0;
    proof {
        assert(s@.subrange(0, n as int) =~= s@);
    }
    while a < n && is_space(s.get_char(a))
        invariant
            0 <= a <= n,
            n == s@.len(),
            spec_trim_start(s@) == spec_trim_start(s@.subrange(a as int, n as int)),
        decreases n - a,
    {
        proof {
            assert(s@.subrange(a as int, n as int).subrange(
                1,
                s@.subrange(a as int, n as int).len() as int,
            ) =~= s@.subrange(a + 1, n as int));
        }
        a = a + 1;
    }
    proof {
        assert(spec_trim_start(s@) =~= s@.subrange(a as int, n as int));
    }
    let mut b: usize = n;
    while b > a && is_space(s.get_char(b - 1))
        invariant
            a <= b <= n,
            n == s@.len(),
            spec_trim_end(s@.subrange(a as int, n as int)) == spec_trim_end(
                s@.subrange(a as int, b as int),
            ),
        decreases b,
    {
        proof {
            assert(s@.subrange(a as int, b as int).subrange(
                0,
                s@.subrange(a as int, b as int).len() - 1,
            ) =~= s@.subrange(a as int, b - 1));
        }
        b = b - 1;
    }
    proof {
        assert(spec_trim_end(s@.subrange(a as int, b as int)) =~= s@.subrange(a as int, b as int));
    }
    s.substring_char(a, b)
}

/// The characters of `s` as a vector, for random access.
pub fn str_to_chars(s: &str) -> (r: Vec<char>)
    ensures
        r@ == s@,
{
    let n = s.unicode_len();
    let mut r: Vec<char> = Vec::new();
    let mut i: usize = 0;
    while i < n
        invariant
            0 <= i <= n,
            n == s@.len(),
            r@ == s@.subrange(0, i as int),
        decreases n - i,
    {
        r.push(s.get_char(i));
        proof {
            assert(r@ =~= s@.subrange(0, i + 1));
        }
        i = i + 1;
    }
    proof {
        assert(s@.subrange(0, n as int) =~= s@);
    }
    r
}

/// The tokens joined back into one string with a single space between
/// consecutive tokens.
pub open spec fn spec_join_space(ts: Seq<Seq<char>>) -> Seq<char>
    decreases ts.len(),
{
    if ts.len() == 0 {
        Seq::empty()
    } else if ts.len() == 1 {
        ts[0]
    } else {
        ts[0] + seq![' '] + spec_join_space(ts.subrange(1, ts.len() as int))
    }
}

pub proof fn lemma_join_space_push(ts: Seq<Seq<char>>, x: Seq<char>)
    ensures
        spec_join_space(ts.push(x)) == if ts.len() == 0 {
            x
        } else {
            spec_join_space(ts) + seq![' '] + x
        },
    decreases ts.len(),
{
    if ts.len() == 0 {
        assert(spec_join_space(ts.push(x)) =~= x);
    } else if ts.len() == 1 {
        assert(ts.push(x).subrange(1, 2) =~= seq![x]);
        assert(spec_join_space(seq![x]) == x);
        assert(spec_join_space(ts.push(x)) =~= ts[0] + seq![' '] + x);
        assert(spec_join_space(ts) + seq![' '] + x =~= ts[0] + seq![' '] + x);
    } else {
        let t = ts.subrange(1, ts.len() as int);
        assert(ts.push(x).subrange(1, ts.push(x).len() as int) =~= t.push(x));
        lemma_join_space_push(t, x);
        assert(spec_join_space(ts.push(x)) =~= spec_join_space(ts) + seq![' '] + x);
    }
}

/// Joins `ts[from..]` with single spaces, per `spec_join_space`.
pub fn join_tokens_from(ts: &Vec<String>, from: usize) -> (r: String)
    requires
        from <= ts@.len(),
    ensures
        r@ == spec_join_space(ts.deep_view().subrange(from as int, ts.deep_view().len() as int)),
{
    let mut acc = String::new();
    let mut i: usize = from;
    proof {
        reveal_strlit(" ");
        assert(ts.deep_view().subrange(from as int, from as int) =~= Seq::<Seq<char>>::empty());
    }
    while i < ts.len()
        invariant
            from <= i <= ts@.len(),
            acc@ == spec_join_space(ts.deep_view().subrange(from as int, i as int)),
        decreases ts@.len() - i,
    {
        let ghost prefix = ts.deep_view().subrange(from as int, i as int);
        if i > from {
            acc.append(" ");
        }
        acc.append(ts[i].as_str());
        proof {
            reveal_strlit(" ");
            assert(" "@ =~= seq![' ']);
            assert(ts.deep_view().subrange(from as int, i + 1) =~= prefix.push(ts@[i as int]@));
            lemma_join_space_push(prefix, ts@[i as int]@);
        }
        i = i + 1;
    }
    acc
}

} // verus!
