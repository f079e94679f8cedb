//! Character-level scanning used by the OBJ reader: whitespace tokens, line and
//! comment boundaries, and the syntax of decimal numbers.
use vstd::prelude::*;

verus! {

/// Unicode `White_Space`, the set `char::is_whitespace` tests for.
pub open spec fn is_ws(c: char) -> bool {
    let u = c as u32;
    ||| 0x9 <= u <= 0xd
    ||| u == 0x20
    ||| u == 0x85
    ||| u == 0xa0
    ||| u == 0x1680
    ||| 0x2000 <= u <= 0x200a
    ||| u == 0x2028
    ||| u == 0x2029
    ||| u == 0x202f
    ||| u == 0x205f
    ||| u == 0x3000
}

/// Whether `c` is whitespace.
pub fn is_whitespace(c: char) -> (r: bool)
    ensures
        r == is_ws(c),
{
    let u = c as u32;
    (0x9 <= u && u <= 0xd) || u == 0x20 || u == 0x85 || u == 0xa0 || u == 0x1680 || (0x2000 <= u
        && u <= 0x200a) || u == 0x2028 || u == 0x2029 || u == 0x202f || u == 0x205f || u == 0x3000
}

/// Number of leading characters of `s` that differ from `c`.
pub open spec fn prefix_len_until(s: Seq<char>, c: char) -> nat
    decreases s.len(),
{
    if s.len() == 0 || s[0] == c {
        0
    } else {
        1 + prefix_len_until(s.drop_first(), c)
    }
}

/// Number of leading non-whitespace characters of `s`.
pub open spec fn run_len(s: Seq<char>) -> nat
    decreases s.len(),
{
    if s.len() == 0 || is_ws(s[0]) {
        0
    } else {
        1 + run_len(s.drop_first())
    }
}

pub proof fn lemma_prefix_len_until_bound(s: Seq<char>, c: char)
    ensures
        prefix_len_until(s, c) <= s.len(),
        prefix_len_until(s, c) < s.len() ==> s[prefix_len_until(s, c) as int] == c,
        forall|k: int| 0 <= k < prefix_len_until(s, c) ==> s[k] != c,
    decreases s.len(),
{
    if s.len() > 0 && s[0] != c {
        lemma_prefix_len_until_bound(s.drop_first(), c);
        assert forall|k: int| 0 <= k < prefix_len_until(s, c) implies s[k] != c by {
            if k > 0 {
                assert(s[k] == s.drop_first()[k - 1]);
            }
        }
    }
}

pub proof fn lemma_prefix_len_until_is(s: Seq<char>, c: char, n: int)
    requires
        0 <= n <= s.len(),
        forall|k: int| 0 <= k < n ==> s[k] != c,
        n == s.len() || s[n] == c,
    ensures
        prefix_len_until(s, c) == n,
    decreases n,
{
    if n > 0 {
        lemma_prefix_len_until_is(s.drop_first(), c, n - 1);
    }
}

pub proof fn lemma_run_len_bound(s: Seq<char>)
    ensures
        run_len(s) <= s.len(),
        s.len() > 0 && !is_ws(s[0]) ==> run_len(s) >= 1,
    decreases s.len(),
{
    if s.len() > 0 && !is_ws(s[0]) {
        lemma_run_len_bound(s.drop_first());
    }
}

pub proof fn lemma_run_len_is(s: Seq<char>, n: int)
    requires
        0 <= n <= s.len(),
        forall|k: int| 0 <= k < n ==> !is_ws(#[trigger] s[k]),
        n == s.len() || is_ws(s[n]),
    ensures
        run_len(s) == n,
    decreases n,
{
    if n > 0 {
        assert forall|k: int| 0 <= k < n - 1 implies !is_ws(#[trigger] s.drop_first()[k]) by {
            assert(s.drop_first()[k] == s[k + 1]);
        }
        lemma_run_len_is(s.drop_first(), n - 1);
    }
}

/// The maximal runs of non-whitespace characters of `s`, in order (what
/// `str::split_whitespace` yields).
pub open spec fn tokens(s: Seq<char>) -> Seq<Seq<char>>
    decreases s.len(),
{
    if s.len() == 0 {
        seq![]
    } else if is_ws(s[0]) {
        tokens(s.drop_first())
    } else {
        let n = run_len(s);
        proof {
            lemma_run_len_bound(s);
        }
        seq![s.take(n as int)] + tokens(s.skip(n as int))
    }
}

/// The tokens that spans of `s` denote.
pub open spec fn span_view(s: Seq<char>, spans: Seq<(usize, usize)>) -> Seq<Seq<char>> {
    spans.map_values(|p: (usize, usize)| s.subrange(p.0 as int, p.1 as int))
}

/// Index of the first `c` in `s[start..end)`, or `end`.
pub fn find_char(s: &Vec<char>, start: usize, end: usize, c: char) -> (r: usize)
    requires
        start <= end <= s@.len(),
    ensures
        start <= r <= end,
        r - start == prefix_len_until(s@.subrange(start as int, end as int), c),
{
    let mut i = start;
    while i < end && s[i] != c
        invariant
            start <= i <= end <= s@.len(),
            forall|k: int| start <= k < i ==> s@[k] != c,
        decreases end - i,
    {
        i += 1;
    }
    proof {
        let sub = s@.subrange(start as int, end as int);
        assert forall|k: int| 0 <= k < i - start implies sub[k] != c by {
            assert(sub[k] == s@[start + k]);
        }
        lemma_prefix_len_until_is(sub, c, i - start);
    }
    i
}

/// Splits `s[start..end)` at whitespace; the spans index into `s`.
pub fn split_whitespace(s: &Vec<char>, start: usize, end: usize) -> (spans: Vec<(usize, usize)>)
    requires
        start <= end <= s@.len(),
    ensures
        span_view(s@, spans@) == tokens(s@.subrange(start as int, end as int)),
        forall|k: int|
            0 <= k < spans@.len() ==> start <= (#[trigger] spans@[k]).0 < spans@[k].1 <= end,
        spans@.len() <= end - start,
{
    let mut spans: Vec<(usize, usize)> = Vec::new();
    let mut i = start;
    while i < end
        invariant
            start <= i <= end <= s@.len(),
            tokens(s@.subrange(start as int, end as int)) == span_view(s@, spans@) + tokens(
                s@.subrange(i as int, end as int),
            ),
            forall|k: int|
                0 <= k < spans@.len() ==> start <= (#[trigger] spans@[k]).0 < spans@[k].1 <= i,
            spans@.len() <= i - start,
        decreases end - i,
    {
        let rest = Ghost(s@.subrange(i as int, end as int));
        if is_whitespace(s[i]) {
            proof {
                assert(rest@[0] == s@[i as int]);
                assert(rest@.drop_first() =~= s@.subrange(i + 1, end as int));
            }
            i += 1;
        } else {
            let mut j = i + 1;
            while j < end && !is_whitespace(s[j])
                invariant
                    i < j <= end <= s@.len(),
                    forall|k: int| i <= k < j ==> !is_ws(#[trigger] s@[k]),
                decreases end - j,
            {
                j += 1;
            }
            proof {
                assert forall|k: int| 0 <= k < j - i implies !is_ws(#[trigger] rest@[k]) by {
                    assert(rest@[k] == s@[i + k]);
                }
                lemma_run_len_is(rest@, j - i);
                assert(rest@[0] == s@[i as int]);
                assert(rest@.take(j - i) =~= s@.subrange(i as int, j as int));
                assert(rest@.skip(j - i) =~= s@.subrange(j as int, end as int));
            }
            let ghost old_spans = spans@;
            spans.push((i, j));
            proof {
                assert(span_view(s@, spans@) =~= span_view(s@, old_spans).push(
                    s@.subrange(i as int, j as int),
                ));
                assert(tokens(rest@) == seq![s@.subrange(i as int, j as int)] + tokens(
                    s@.subrange(j as int, end as int),
                ));
                assert(span_view(s@, spans@) + tokens(s@.subrange(j as int, end as int))
                    =~= span_view(s@, old_spans) + tokens(rest@));
            }
            i = j;
        }
    }
    proof {
        assert(s@.subrange(end as int, end as int) =~= Seq::<char>::empty());
        assert(span_view(s@, spans@) + Seq::<Seq<char>>::empty() =~= span_view(s@, spans@));
    }
    spans
}


/// ASCII decimal digit.
pub open spec fn is_digit(c: char) -> bool {
    48 <= c as u32 <= 57
}

pub open spec fn all_digits(s: Seq<char>) -> bool {
    forall|i: int| 0 <= i < s.len() ==> is_digit(#[trigger] s[i])
}

/// ASCII lower-casing (other characters are kept).
pub open spec fn to_lower(c: char) -> char {
    if 65 <= c as u32 <= 90 {
        ((c as u32) + 32) as char
    } else {
        c
    }
}

/// `s` equals the lower-case ASCII word `w` up to ASCII case.
pub open spec fn eq_ignore_case(s: Seq<char>, w: Seq<char>) -> bool {
    s.len() == w.len() && forall|i: int| 0 <= i < s.len() ==> to_lower(#[trigger] s[i]) == w[i]
}

pub open spec fn is_sign(c: char) -> bool {
    c == '+' || c == '-'
}

/// `s` without one leading sign character.
pub open spec fn strip_sign(s: Seq<char>) -> Seq<char> {
    if s.len() > 0 && is_sign(s[0]) {
        s.drop_first()
    } else {
        s
    }
}

pub open spec fn is_e(c: char) -> bool {
    c == 'e' || c == 'E'
}

/// `Digit+ | Digit+ '.' Digit* | Digit* '.' Digit+`
pub open spec fn is_mantissa(m: Seq<char>) -> bool {
    ||| m.len() > 0 && all_digits(m)
    ||| m.len() >= 2 && exists|p: int|
        0 <= p < m.len() && m[p] == '.' && all_digits(m.take(p)) && all_digits(m.skip(p + 1))
}

/// `Sign? Digit+`
pub open spec fn is_exponent(x: Seq<char>) -> bool {
    strip_sign(x).len() > 0 && all_digits(strip_sign(x))
}

/// `Mantissa ( [eE] Exponent )?`
pub open spec fn is_number(b: Seq<char>) -> bool {
    ||| (forall|i: int| 0 <= i < b.len() ==> !is_e(#[trigger] b[i])) && is_mantissa(b)
    ||| exists|p: int|
        0 <= p < b.len() && is_e(b[p]) && is_mantissa(b.take(p)) && is_exponent(b.skip(p + 1))
}

/// The decimal syntax that `f32::from_str` accepts:
/// `Sign? ( 'inf' | 'infinity' | 'nan' | Number )`, letters in any case.
pub open spec fn is_float_literal(s: Seq<char>) -> bool {
    let b = strip_sign(s);
    ||| eq_ignore_case(b, seq!['i', 'n', 'f'])
    ||| eq_ignore_case(b, seq!['i', 'n', 'f', 'i', 'n', 'i', 't', 'y'])
    ||| eq_ignore_case(b, seq!['n', 'a', 'n'])
    ||| is_number(b)
}

fn lower_eq(c: char, w: char) -> (r: bool)
    ensures
        r == (to_lower(c) == w),
{
    let u = c as u32;
    if 65 <= u && u <= 90 {
        u + 32 == w as u32
    } else {
        c == w
    }
}

/// Whether `s[a..b)` equals the lower-case word `w` up to ASCII case.
fn matches_word(s: &Vec<char>, a: usize, b: usize, w: &[char]) -> (r: bool)
    requires
        a <= b <= s@.len(),
    ensures
        r == eq_ignore_case(s@.subrange(a as int, b as int), w@),
{
    let ghost sub = s@.subrange(a as int, b as int);
    if b - a != w.len() {
        return false;
    }
    let mut i: usize = 0;
    while i < w.len()
        invariant
            a <= b <= s@.len(),
            b - a == w@.len(),
            0 <= i <= w@.len(),
            sub == s@.subrange(a as int, b as int),
            forall|k: int| 0 <= k < i ==> to_lower(#[trigger] sub[k]) == w@[k],
        decreases w@.len() - i,
    {
        if !lower_eq(s[a + i], w[i]) {
            assert(sub[i as int] == s@[a + i]);
            return false;
        }
        assert(sub[i as int] == s@[a + i]);
        i += 1;
    }
    true
}

/// Whether every character of `s[a..b)` is a decimal digit.
fn digits_only(s: &Vec<char>, a: usize, b: usize) -> (r: bool)
    requires
        a <= b <= s@.len(),
    ensures
        r == all_digits(s@.subrange(a as int, b as int)),
{
    let ghost sub = s@.subrange(a as int, b as int);
    let mut i = a;
    while i < b
        invariant
            a <= i <= b <= s@.len(),
            sub == s@.subrange(a as int, b as int),
            forall|k: int| 0 <= k < i - a ==> is_digit(#[trigger] sub[k]),
        decreases b - i,
    {
        let u = s[i] as u32;
        assert(sub[i - a] == s@[i as int]);
        if !(48 <= u && u <= 57) {
            return false;
        }
        i += 1;
    }
    true
}

/// Index of the first `e` or `E` in `s[a..b)`, or `b`.
fn find_exponent_mark(s: &Vec<char>, a: usize, b: usize) -> (r: usize)
    requires
        a <= b <= s@.len(),
    ensures
        a <= r <= b,
        forall|k: int| a <= k < r ==> !is_e(#[trigger] s@[k]),
        r < b ==> is_e(s@[r as int]),
{
    let mut i = a;
    while i < b && s[i] != 'e' && s[i] != 'E'
        invariant
            a <= i <= b <= s@.len(),
            forall|k: int| a <= k < i ==> !is_e(#[trigger] s@[k]),
        decreases b - i,
    {
        i += 1;
    }
    i
}

fn mantissa_span(s: &Vec<char>, a: usize, b: usize) -> (r: bool)
    requires
        a <= b <= s@.len(),
    ensures
        r == is_mantissa(s@.subrange(a as int, b as int)),
{
    let ghost m = s@.subrange(a as int, b as int);
    let q = find_char(s, a, b, '.');
    proof {
        lemma_prefix_len_until_bound(m, '.');
    }
    if q == b {
        let r = b > a && digits_only(s, a, b);
        proof {
            assert forall|p: int| 0 <= p < m.len() implies m[p] != '.' by {}
        }
        r
    } else {
        let d1 = digits_only(s, a, q);
        let d2 = digits_only(s, q + 1, b);
        let r = b - a >= 2 && d1 && d2;
        proof {
            let p0 = q - a;
            assert(m[p0] == '.');
            assert(!is_digit(m[p0]));
            assert(m.take(p0) =~= s@.subrange(a as int, q as int));
            assert(m.skip(p0 + 1) =~= s@.subrange(q + 1, b as int));
            if m.len() >= 2 && exists|p: int|
                0 <= p < m.len() && m[p] == '.' && all_digits(m.take(p)) && all_digits(
                    m.skip(p + 1),
                ) {
                let p = choose|p: int|
                    0 <= p < m.len() && m[p] == '.' && all_digits(m.take(p)) && all_digits(
                        m.skip(p + 1),
                    );
                if p > p0 {
                    assert(m.take(p)[p0] == '.');
                } else if p < p0 {
                    assert(m[p] != '.');
                }
                assert(p == p0);
            }
        }
        r
    }
}

fn exponent_span(s: &Vec<char>, a: usize, b: usize) -> (r: bool)
    requires
        a <= b <= s@.len(),
    ensures
        r == is_exponent(s@.subrange(a as int, b as int)),
{
    let ghost x = s@.subrange(a as int, b as int);
    let a2 = if a < b && (s[a] == '+' || s[a] == '-') {
        a + 1
    } else {
        a
    };
    proof {
        if a < b {
            assert(x[0] == s@[a as int]);
        }
        assert(strip_sign(x) =~= s@.subrange(a2 as int, b as int));
    }
    b > a2 && digits_only(s, a2, b)
}

fn number_span(s: &Vec<char>, a: usize, b: usize) -> (r: bool)
    requires
        a <= b <= s@.len(),
    ensures
        r == is_number(s@.subrange(a as int, b as int)),
{
    let ghost n = s@.subrange(a as int, b as int);
    let p = find_exponent_mark(s, a, b);
    if p == b {
        let r = mantissa_span(s, a, b);
        proof {
            assert forall|i: int| 0 <= i < n.len() implies !is_e(#[trigger] n[i]) by {
                assert(n[i] == s@[a + i]);
            }
        }
        r
    } else {
        let m = mantissa_span(s, a, p);
        let e = exponent_span(s, p + 1, b);
        proof {
            let p0 = p - a;
            assert(n[p0] == s@[p as int]);
            assert(n.take(p0) =~= s@.subrange(a as int, p as int));
            assert(n.skip(p0 + 1) =~= s@.subrange(p + 1, b as int));
            if exists|q: int|
                0 <= q < n.len() && is_e(n[q]) && is_mantissa(n.take(q)) && is_exponent(
                    n.skip(q + 1),
                ) {
                let q = choose|q: int|
                    0 <= q < n.len() && is_e(n[q]) && is_mantissa(n.take(q)) && is_exponent(
                        n.skip(q + 1),
                    );
                if q > p0 {
                    let t = n.take(q);
                    assert(t[p0] == n[p0]);
                    assert(!is_digit(t[p0]) && t[p0] != '.');
                    if t.len() > 0 && all_digits(t) {
                        assert(is_digit(t[p0]));
                    }
                    if exists|r: int|
                        0 <= r < t.len() && t[r] == '.' && all_digits(t.take(r)) && all_digits(
                            t.skip(r + 1),
                        ) {
                        let r = choose|r: int|
                            0 <= r < t.len() && t[r] == '.' && all_digits(t.take(r))
                                && all_digits(t.skip(r + 1));
                        if p0 < r {
                            assert(t.take(r)[p0] == t[p0]);
                        } else {
                            assert(t.skip(r + 1)[p0 - r - 1] == t[p0]);
                        }
                    }
                    assert(false);
                } else if q < p0 {
                    assert(n[q] == s@[a + q]);
                }
            }
        }
        m && e
    }
}

/// Whether `s[a..b)` is a number `f32::from_str` accepts.
pub fn is_float_span(s: &Vec<char>, a: usize, b: usize) -> (r: bool)
    requires
        a <= b <= s@.len(),
    ensures
        r == is_float_literal(s@.subrange(a as int, b as int)),
{
    let ghost x = s@.subrange(a as int, b as int);
    let a2 = if a < b && (s[a] == '+' || s[a] == '-') {
        a + 1
    } else {
        a
    };
    proof {
        if a < b {
            assert(x[0] == s@[a as int]);
        }
        assert(strip_sign(x) =~= s@.subrange(a2 as int, b as int));
    }
    let w1 = matches_word(s, a2, b, &['i', 'n', 'f']);
    let w2 = matches_word(s, a2, b, &['i', 'n', 'f', 'i', 'n', 'i', 't', 'y']);
    let w3 = matches_word(s, a2, b, &['n', 'a', 'n']);
    let w4 = number_span(s, a2, b);
    proof {
        assert(seq!['i', 'n', 'f'] =~= ['i', 'n', 'f']@);
    }
    w1 || w2 || w3 || w4
}


pub open spec fn digit_value(c: char) -> int {
    c as u32 - 48
}

/// The value of a string of decimal digits.
pub open spec fn digits_value(d: Seq<char>) -> int
    decreases d.len(),
{
    if d.len() == 0 {
        0
    } else {
        digits_value(d.drop_last()) * 10 + digit_value(d.last())
    }
}

/// What `i64::from_str` returns: `Sign? Digit+` whose value fits in an `i64`.
pub open spec fn parse_i64(s: Seq<char>) -> Option<int> {
    let d = strip_sign(s);
    let v = if s.len() > 0 && s[0] == '-' {
        -digits_value(d)
    } else {
        digits_value(d)
    };
    if d.len() > 0 && all_digits(d) && i64::MIN <= v <= i64::MAX {
        Some(v)
    } else {
        None
    }
}

pub proof fn lemma_digits_value_step(d: Seq<char>, i: int)
    requires
        0 <= i < d.len(),
    ensures
        digits_value(d.take(i + 1)) == digits_value(d.take(i)) * 10 + digit_value(d[i]),
{
    assert(d.take(i + 1).drop_last() =~= d.take(i));
}

pub proof fn lemma_digits_value_nonneg(d: Seq<char>)
    requires
        all_digits(d),
    ensures
        0 <= digits_value(d),
    decreases d.len(),
{
    if d.len() > 0 {
        assert(is_digit(d[d.len() - 1]));
        lemma_digits_value_nonneg(d.drop_last());
    }
}

pub proof fn lemma_digits_value_mono(d: Seq<char>, i: int, j: int)
    requires
        0 <= i <= j <= d.len(),
        all_digits(d),
    ensures
        0 <= digits_value(d.take(i)) <= digits_value(d.take(j)),
    decreases j - i,
{
    if i < j {
        lemma_digits_value_mono(d, i, j - 1);
        lemma_digits_value_step(d, j - 1);
        assert(is_digit(d[j - 1]));
    } else {
        lemma_digits_value_nonneg(d.take(i));
    }
}

/// Parses `s[a..b)` as `i64::from_str` does.
pub fn parse_i64_span(s: &Vec<char>, a: usize, b: usize) -> (r: Option<i64>)
    requires
        a <= b <= s@.len(),
    ensures
        match parse_i64(s@.subrange(a as int, b as int)) {
            Some(v) => r == Some(v as i64),
            None => r is None,
        },
{
    let ghost x = s@.subrange(a as int, b as int);
    let neg = a < b && s[a] == '-';
    let a2 = if a < b && (s[a] == '+' || s[a] == '-') {
        a + 1
    } else {
        a
    };
    let ghost d = s@.subrange(a2 as int, b as int);
    proof {
        if a < b {
            assert(x[0] == s@[a as int]);
        }
        assert(strip_sign(x) =~= d);
    }
    if a2 == b {
        return None;
    }
    let limit: u128 = if neg {
        0x8000_0000_0000_0000
    } else {
        0x7fff_ffff_ffff_ffff
    };
    let mut mag: u128 = 0;
    let mut i = a2;
    while i < b
        invariant
            a2 <= i <= b <= s@.len(),
            d == s@.subrange(a2 as int, b as int),
            x == s@.subrange(a as int, b as int),
            strip_sign(x) == d,
            neg == (x.len() > 0 && x[0] == '-'),
            limit == (if neg { 0x8000_0000_0000_0000u128 } else { 0x7fff_ffff_ffff_ffffu128 }),
            mag <= limit,
            limit <= 0x8000_0000_0000_0000,
            all_digits(d.take(i - a2)),
            mag == digits_value(d.take(i - a2)),
        decreases b - i,
    {
        let u = s[i] as u32;
        assert(d[i - a2] == s@[i as int]);
        if !(48 <= u && u <= 57) {
            return None;
        }
        proof {
            lemma_digits_value_step(d, i - a2);
            assert forall|k: int| 0 <= k < i + 1 - a2 implies is_digit(
                #[trigger] d.take(i + 1 - a2)[k],
            ) by {
                if k < i - a2 {
                    assert(d.take(i + 1 - a2)[k] == d.take(i - a2)[k]);
                }
            }
        }
        let next = mag * 10 + (u - 48) as u128;
        if next > limit {
            proof {
                // every further digit only grows the value
                if all_digits(d) {
                    lemma_digits_value_mono(d, i + 1 - a2, d.len() as int);
                    assert(d.take(d.len() as int) =~= d);
                }
            }
            return None;
        }
        mag = next;
        i += 1;
    }
    proof {
        assert(d.take(b - a2) =~= d);
    }
    if neg {
        if mag == 0x8000_0000_0000_0000 {
            Some(i64::MIN)
        } else {
            Some(0i64 - (mag as i64))
        }
    } else {
        Some(mag as i64)
    }
}


/// What `usize::from_str` returns: `+? Digit+` whose value fits in a `usize`.
pub open spec fn parse_usize(s: Seq<char>) -> Option<int> {
    let d = if s.len() > 0 && s[0] == '+' {
        s.drop_first()
    } else {
        s
    };
    if d.len() > 0 && all_digits(d) && digits_value(d) <= usize::MAX {
        Some(digits_value(d))
    } else {
        None
    }
}

/// Parses `s[a..b)` as `usize::from_str` does.
pub fn parse_usize_span(s: &Vec<char>, a: usize, b: usize) -> (r: Option<usize>)
    requires
        a <= b <= s@.len(),
    ensures
        match r {
            Some(x) => parse_usize(s@.subrange(a as int, b as int)) == Some(x as int),
            None => parse_usize(s@.subrange(a as int, b as int)) is None,
        },
{
    let ghost x = s@.subrange(a as int, b as int);
    let a2 = if a < b && s[a] == '+' {
        a + 1
    } else {
        a
    };
    let ghost d = s@.subrange(a2 as int, b as int);
    proof {
        if a < b {
            assert(x[0] == s@[a as int]);
        }
        if a2 == a + 1 {
            assert(x.drop_first() =~= d);
        } else {
            assert(x =~= d);
        }
    }
    if a2 == b {
        return None;
    }
    let limit: u128 = usize::MAX as u128;
    let mut mag: u128 = 0;
    let mut i = a2;
    proof {
        assert(d.take(0) =~= Seq::<char>::empty());
    }
    while i < b
        invariant
            a2 <= i <= b <= s@.len(),
            d == s@.subrange(a2 as int, b as int),
            x == s@.subrange(a as int, b as int),
            d == (if x.len() > 0 && x[0] == '+' {
                x.drop_first()
            } else {
                x
            }),
            limit == usize::MAX,
            mag <= limit,
            all_digits(d.take(i - a2)),
            mag == digits_value(d.take(i - a2)),
        decreases b - i,
    {
        let u = s[i] as u32;
        assert(d[i - a2] == s@[i as int]);
        if !(48 <= u && u <= 57) {
            return None;
        }
        proof {
            lemma_digits_value_step(d, i - a2);
            assert forall|k: int| 0 <= k < i + 1 - a2 implies is_digit(
                #[trigger] d.take(i + 1 - a2)[k],
            ) by {
                if k < i - a2 {
                    assert(d.take(i + 1 - a2)[k] == d.take(i - a2)[k]);
                }
            }
        }
        let next = mag * 10 + (u - 48) as u128;
        if next > limit {
            proof {
                if all_digits(d) {
                    lemma_digits_value_mono(d, i + 1 - a2, d.len() as int);
                    assert(d.take(d.len() as int) =~= d);
                }
            }
            return None;
        }
        mag = next;
        i += 1;
    }
    proof {
        assert(d.take(b - a2) =~= d);
    }
    Some(mag as usize)
}

/// `w` is a prefix of `s`.
pub open spec fn has_prefix(s: Seq<char>, w: Seq<char>) -> bool {
    w.len() <= s.len() && s.take(w.len() as int) == w
}

/// Whether `s` starts with `w`.
pub fn starts_with(s: &Vec<char>, w: &[char]) -> (r: bool)
    ensures
        r == has_prefix(s@, w@),
{
    if w.len() > s.len() {
        return false;
    }
    let mut i: usize = 0;
    while i < w.len()
        invariant
            w@.len() <= s@.len(),
            0 <= i <= w@.len(),
            forall|k: int| 0 <= k < i ==> s@[k] == w@[k],
        decreases w@.len() - i,
    {
        if s[i] != w[i] {
            assert(s@.take(w@.len() as int)[i as int] == s@[i as int]);
            return false;
        }
        i += 1;
    }
    assert(s@.take(w@.len() as int) =~= w@);
    true
}

/// The characters of `text`, in order.
pub fn collect_chars(text: &str) -> (v: Vec<char>)
    ensures
        v@ == text@,
{
    broadcast use vstd::string::axiom_spec_iter;

    let mut v: Vec<char> = Vec::new();
    for c in it: text.chars()
        invariant
            v@.len() == it.index(),
            forall|i: int| 0 <= i < v@.len() ==> v@[i] == it.seq()[i],
    {
        v.push(c);
    }
    assert(v@ =~= text@);
    v
}

} // verus!
