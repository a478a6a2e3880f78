//! Scanning primitives over a character sequence: marker search, runs of
//! blanks, of non-blanks and of digits, and reading a run of digits.
use vstd::prelude::*;
use crate::text::{is_digit, digit_value, digits_value, push_char};

verus! {

pub open spec fn is_space(c: char) -> bool {
    c == ' ' || c == '\t' || c == '\n' || c == '\r'
}

/// `m` stands in `t` at position `i`.
pub open spec fn occurs_at(t: Seq<char>, i: int, m: Seq<char>) -> bool {
    0 <= i && i + m.len() <= t.len() && t.subrange(i, i + m.len()) == m
}

/// The first position at or after `i` where `m` stands in `t`.
pub open spec fn find_from(t: Seq<char>, m: Seq<char>, i: int) -> Option<int>
    decreases t.len() - i,
{
    if i < 0 || i + m.len() > t.len() {
        None
    } else if occurs_at(t, i, m) {
        Some(i)
    } else if i >= t.len() {
        None
    } else {
        find_from(t, m, i + 1)
    }
}

/// The end of the run of blanks that starts at `i`.
pub open spec fn skip_spaces(t: Seq<char>, i: int) -> int
    decreases t.len() - i,
{
    if 0 <= i < t.len() && is_space(t[i]) {
        skip_spaces(t, i + 1)
    } else {
        i
    }
}

/// The end of the run of non-blank characters that starts at `i`.
pub open spec fn token_end(t: Seq<char>, i: int) -> int
    decreases t.len() - i,
{
    if 0 <= i < t.len() && !is_space(t[i]) {
        token_end(t, i + 1)
    } else {
        i
    }
}

/// The end of the run of digits that starts at `i`.
pub open spec fn digits_end(t: Seq<char>, i: int) -> int
    decreases t.len() - i,
{
    if 0 <= i < t.len() && is_digit(t[i]) {
        digits_end(t, i + 1)
    } else {
        i
    }
}

/// The start of the run of digits that ends just before `q`.
pub open spec fn digits_start(t: Seq<char>, q: int) -> int
    decreases q,
{
    if 0 < q <= t.len() && is_digit(t[q - 1]) {
        digits_start(t, q - 1)
    } else {
        q
    }
}

pub fn matches_at(t: &Vec<char>, m: &Vec<char>, i: usize) -> (r: bool)
    ensures
        r == occurs_at(t@, i as int, m@),
{
    if i > t.len() || m.len() > t.len() - i {
        return false;
    }
    let mut j: usize = 0;
    while j < m.len()
        invariant
            j <= m.len(),
            i + m.len() <= t.len(),
            t@.subrange(i as int, i + j) =~= m@.subrange(0, j as int),
        decreases m.len() - j,
    {
        if t[i + j] != m[j] {
            assert(t@.subrange(i as int, i + m.len())[j as int] != m@[j as int]);
            return false;
        }
        j = j + 1;
        assert(t@.subrange(i as int, i + j) =~= m@.subrange(0, j as int));
    }
    assert(m@.subrange(0, m.len() as int) =~= m@);
    true
}

pub fn find_marker(t: &Vec<char>, m: &Vec<char>, from: usize) -> (r: Option<usize>)
    ensures
        r is Some <==> find_from(t@, m@, from as int) is Some,
        r is Some ==> find_from(t@, m@, from as int) == Some(r->0 as int) && r->0 + m.len() <= t.len()
            && from <= r->0,
{
    let mut i = from;
    while m.len() <= t.len() && i <= t.len() - m.len()
        invariant
            from <= i,
            find_from(t@, m@, from as int) == find_from(t@, m@, i as int),
        decreases t.len() - i,
    {
        if matches_at(t, m, i) {
            return Some(i);
        }
        if i == t.len() {
            return None;
        }
        i = i + 1;
    }
    None
}

pub fn skip_spaces_from(t: &Vec<char>, from: usize) -> (r: usize)
    requires
        from <= t.len(),
    ensures
        r == skip_spaces(t@, from as int),
        from <= r <= t.len(),
{
    let mut i = from;
    while i < t.len() && (t[i] == ' ' || t[i] == '\t' || t[i] == '\n' || t[i] == '\r')
        invariant
            from <= i <= t.len(),
            skip_spaces(t@, from as int) == skip_spaces(t@, i as int),
        decreases t.len() - i,
    {
        i = i + 1;
    }
    i
}

pub fn token_end_from(t: &Vec<char>, from: usize) -> (r: usize)
    requires
        from <= t.len(),
    ensures
        r == token_end(t@, from as int),
        from <= r <= t.len(),
{
    let mut i = from;
    while i < t.len() && !(t[i] == ' ' || t[i] == '\t' || t[i] == '\n' || t[i] == '\r')
        invariant
            from <= i <= t.len(),
            token_end(t@, from as int) == token_end(t@, i as int),
        decreases t.len() - i,
    {
        i = i + 1;
    }
    i
}

pub fn digits_end_from(t: &Vec<char>, from: usize) -> (r: usize)
    requires
        from <= t.len(),
    ensures
        r == digits_end(t@, from as int),
        from <= r <= t.len(),
        forall|k: int| from <= k < r ==> #[trigger] is_digit(t@[k]),
{
    let mut i = from;
    while i < t.len() && 48 <= (t[i] as u32) && (t[i] as u32) <= 57
        invariant
            from <= i <= t.len(),
            digits_end(t@, from as int) == digits_end(t@, i as int),
            forall|k: int| from <= k < i ==> #[trigger] is_digit(t@[k]),
        decreases t.len() - i,
    {
        i = i + 1;
    }
    i
}

pub fn digits_start_before(t: &Vec<char>, q: usize) -> (r: usize)
    requires
        q <= t.len(),
    ensures
        r == digits_start(t@, q as int),
        r <= q,
        forall|k: int| r <= k < q ==> #[trigger] is_digit(t@[k]),
{
    let mut i = q;
    while i > 0 && 48 <= (t[i - 1] as u32) && (t[i - 1] as u32) <= 57
        invariant
            i <= q <= t.len(),
            digits_start(t@, q as int) == digits_start(t@, i as int),
            forall|k: int| i <= k < q ==> #[trigger] is_digit(t@[k]),
        decreases i,
    {
        i = i - 1;
    }
    i
}

proof fn lemma_digits_value_grows(s: Seq<char>, k: int)
    requires
        0 <= k <= s.len(),
        forall|i: int| 0 <= i < s.len() ==> #[trigger] is_digit(s[i]),
    ensures
        digits_value(s) >= digits_value(s.subrange(0, k)),
        digits_value(s.subrange(0, k)) >= 0,
    decreases s.len(),
{
    if s.len() == k {
        assert(s.subrange(0, k) =~= s);
        lemma_digits_value_nonneg(s);
    } else {
        assert forall|i: int| 0 <= i < s.drop_last().len() implies #[trigger] is_digit(s.drop_last()[i]) by {
            assert(s.drop_last()[i] == s[i]);
        }
        lemma_digits_value_grows(s.drop_last(), k);
        assert(s.drop_last().subrange(0, k) =~= s.subrange(0, k));
        lemma_digits_value_nonneg(s.drop_last());
        assert(is_digit(s[s.len() - 1]));
        let x = digits_value(s.drop_last());
        assert(x * 10 + digit_value(s.last()) >= x) by (nonlinear_arith)
            requires x >= 0, digit_value(s.last()) >= 0;
    }
}

proof fn lemma_digits_value_nonneg(s: Seq<char>)
    requires
        forall|i: int| 0 <= i < s.len() ==> #[trigger] is_digit(s[i]),
    ensures
        digits_value(s) >= 0,
    decreases s.len(),
{
    if s.len() > 0 {
        assert forall|i: int| 0 <= i < s.drop_last().len() implies #[trigger] is_digit(s.drop_last()[i]) by {
            assert(s.drop_last()[i] == s[i]);
        }
        lemma_digits_value_nonneg(s.drop_last());
        assert(is_digit(s[s.len() - 1]));
        let x = digits_value(s.drop_last());
        assert(x * 10 >= 0) by (nonlinear_arith)
            requires x >= 0;
    }
}

/// Reads the digits `t[a..b]` as a number; `None` when it does not fit in a `u64`.
pub fn read_digits(t: &Vec<char>, a: usize, b: usize) -> (r: Option<u64>)
    requires
        a <= b <= t.len(),
        forall|k: int| a <= k < b ==> #[trigger] is_digit(t@[k]),
    ensures
        r is Some <==> digits_value(t@.subrange(a as int, b as int)) <= u64::MAX,
        r is Some ==> r->0 == digits_value(t@.subrange(a as int, b as int)),
{
    let ghost s = t@.subrange(a as int, b as int);
    let mut v: u64 = 0;
    let mut i = a;
    assert(s.subrange(0, 0) =~= Seq::<char>::empty());
    while i < b
        invariant
            a <= i <= b <= t.len(),
            s == t@.subrange(a as int, b as int),
            forall|k: int| a <= k < b ==> #[trigger] is_digit(t@[k]),
            v == digits_value(s.subrange(0, i - a)),
        decreases b - i,
    {
        assert(is_digit(t@[i as int]));
        let d = (t[i] as u32 - 48) as u64;
        assert(s.subrange(0, i + 1 - a).drop_last() =~= s.subrange(0, i - a));
        assert(s[i - a] == t@[i as int]);
        assert(d == digit_value(s[i - a]) && d <= 9);
        if v > (u64::MAX - d) / 10 {
            proof {
                assert forall|k: int| 0 <= k < s.len() implies #[trigger] is_digit(s[k]) by {
                    assert(s[k] == t@[a + k]);
                }
                lemma_digits_value_grows(s, i + 1 - a);
                assert(v * 10 + d > u64::MAX) by (nonlinear_arith)
                    requires v > (u64::MAX - d) / 10, d <= 9;
            }
            return None;
        }
        v = v * 10 + d;
        i = i + 1;
    }
    assert(s.subrange(0, b - a) =~= s);
    Some(v)
}

/// The characters `t[a..b]` as a `String`.
pub fn substring(t: &Vec<char>, a: usize, b: usize) -> (r: String)
    requires
        a <= b <= t.len(),
    ensures
        r@ == t@.subrange(a as int, b as int),
{
    let mut r = String::new();
    let mut i = a;
    while i < b
        invariant
            a <= i <= b <= t.len(),
            r@ == t@.subrange(a as int, i as int),
        decreases b - i,
    {
        push_char(&mut r, t[i]);
        assert(r@ =~= t@.subrange(a as int, i + 1));
        i = i + 1;
    }
    r
}

} // verus!
