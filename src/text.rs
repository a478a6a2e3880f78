//! Character-level helpers: decimal digits, thousands grouping, and the
//! conversions between `str`/`String` and character vectors.
use vstd::prelude::*;
use num_format::{Locale, ToFormattedString};

verus! {

pub open spec fn is_digit(c: char) -> bool {
    48 <= (c as u32) && (c as u32) <= 57
}

pub open spec fn digit_value(c: char) -> int {
    (c as u32) as int - 48
}

pub open spec fn digit_char(d: int) -> char {
    if d == 0 { '0' } else if d == 1 { '1' } else if d == 2 { '2' } else if d == 3 { '3' }
    else if d == 4 { '4' } else if d == 5 { '5' } else if d == 6 { '6' } else if d == 7 { '7' }
    else if d == 8 { '8' } else { '9' }
}

pub proof fn lemma_digit_char(d: int)
    requires
        0 <= d < 10,
    ensures
        is_digit(digit_char(d)),
        digit_value(digit_char(d)) == d,
{
}

/// Decimal notation of `n`, without leading zeros.
pub open spec fn decimal(n: nat) -> Seq<char>
    decreases n,
{
    if n < 10 {
        seq![digit_char(n as int)]
    } else {
        decimal(n / 10).push(digit_char((n % 10) as int))
    }
}

/// Three decimal digits of `m` (below 1000), zero-padded.
pub open spec fn three_digits(m: nat) -> Seq<char> {
    seq![digit_char((m / 100) as int), digit_char(((m / 10) % 10) as int), digit_char((m % 10) as int)]
}

/// Decimal notation of `n` with a comma between each group of three digits.
pub open spec fn grouped(n: nat) -> Seq<char>
    decreases n,
{
    if n < 1000 {
        decimal(n)
    } else {
        grouped(n / 1000) + seq![','] + three_digits(n % 1000)
    }
}

/// The number that a run of digits denotes.
pub open spec fn digits_value(s: Seq<char>) -> int
    decreases s.len(),
{
    if s.len() == 0 {
        0
    } else {
        digits_value(s.drop_last()) * 10 + digit_value(s.last())
    }
}

/// `s` with every thousands separator removed.
pub open spec fn without_separators(s: Seq<char>) -> Seq<char>
    decreases s.len(),
{
    if s.len() == 0 {
        s
    } else if s.last() == ',' {
        without_separators(s.drop_last())
    } else {
        without_separators(s.drop_last()).push(s.last())
    }
}

proof fn lemma_without_separators_append(a: Seq<char>, b: Seq<char>)
    ensures
        without_separators(a + b) == without_separators(a) + without_separators(b),
    decreases b.len(),
{
    if b.len() == 0 {
        assert(a + b =~= a);
        assert(without_separators(a) + without_separators(b) =~= without_separators(a));
    } else {
        lemma_without_separators_append(a, b.drop_last());
        assert((a + b).drop_last() =~= a + b.drop_last());
        assert((a + b).last() == b.last());
        assert(without_separators(a) + without_separators(b.drop_last()).push(b.last())
            =~= (without_separators(a) + without_separators(b.drop_last())).push(b.last()));
    }
}

proof fn lemma_append_three_digits(a: Seq<char>, m: nat)
    requires
        m < 1000,
    ensures
        digits_value(a + three_digits(m)) == digits_value(a) * 1000 + m,
{
    let b = a + three_digits(m);
    lemma_digit_char((m / 100) as int);
    lemma_digit_char(((m / 10) % 10) as int);
    lemma_digit_char((m % 10) as int);
    assert(b.drop_last() =~= a.push(digit_char((m / 100) as int)).push(digit_char(((m / 10) % 10) as int)));
    assert(b.drop_last().drop_last() =~= a.push(digit_char((m / 100) as int)));
    assert(b.drop_last().drop_last().drop_last() =~= a);
    assert(m == (m / 100) * 100 + ((m / 10) % 10) * 10 + m % 10) by (nonlinear_arith)
        requires m < 1000;
    let b1 = b.drop_last();
    let b2 = b1.drop_last();
    assert(digits_value(b) == digits_value(b1) * 10 + (m % 10));
    assert(digits_value(b1) == digits_value(b2) * 10 + ((m / 10) % 10));
    assert(digits_value(b2) == digits_value(a) * 10 + (m / 100));
    assert(((digits_value(a) * 10 + (m / 100)) * 10 + ((m / 10) % 10)) * 10 + m % 10
        == digits_value(a) * 1000 + (m / 100) * 100 + ((m / 10) % 10) * 10 + m % 10) by (nonlinear_arith);
}

pub proof fn lemma_decimal_value(n: nat)
    ensures
        digits_value(decimal(n)) == n,
        forall|i: int| 0 <= i < decimal(n).len() ==> #[trigger] is_digit(decimal(n)[i]),
        decimal(n).len() >= 1,
    decreases n,
{
    if n < 10 {
        lemma_digit_char(n as int);
        assert(decimal(n).drop_last() =~= Seq::<char>::empty());
        assert(digits_value(Seq::<char>::empty()) == 0);
    } else {
        lemma_decimal_value(n / 10);
        lemma_digit_char((n % 10) as int);
        assert(decimal(n).drop_last() =~= decimal(n / 10));
        assert(decimal(n).last() == digit_char((n % 10) as int));
        assert(n == (n / 10) * 10 + n % 10);
    }
}

proof fn lemma_digits_have_no_separators(s: Seq<char>)
    requires
        forall|i: int| 0 <= i < s.len() ==> #[trigger] is_digit(s[i]),
    ensures
        without_separators(s) == s,
    decreases s.len(),
{
    if s.len() > 0 {
        lemma_digits_have_no_separators(s.drop_last());
        assert(s.drop_last().push(s.last()) =~= s);
        assert(is_digit(s[s.len() - 1]));
    }
}

/// Reading back a grouped number: removing the separators from the grouped
/// notation of `n` and reading the digits gives `n` exactly.
pub proof fn lemma_grouped_round_trip(n: nat)
    ensures
        digits_value(without_separators(grouped(n))) == n,
    decreases n,
{
    if n < 1000 {
        lemma_decimal_value(n);
        lemma_digits_have_no_separators(decimal(n));
    } else {
        let m = n % 1000;
        lemma_grouped_round_trip(n / 1000);
        lemma_digit_char((m / 100) as int);
        lemma_digit_char(((m / 10) % 10) as int);
        lemma_digit_char((m % 10) as int);
        let g = grouped(n / 1000);
        assert(grouped(n) == g + seq![','] + three_digits(m));
        lemma_without_separators_append(g, seq![','] + three_digits(m));
        lemma_without_separators_append(seq![','], three_digits(m));
        assert(grouped(n) =~= g + (seq![','] + three_digits(m)));
        assert(without_separators(seq![',']) =~= Seq::<char>::empty()) by {
            let one = seq![','];
            assert(one.drop_last() =~= Seq::<char>::empty());
            assert(one.last() == ',');
            assert(without_separators(one) == without_separators(one.drop_last()));
            assert(without_separators(Seq::<char>::empty()) == Seq::<char>::empty());
        }
        lemma_digits_have_no_separators(three_digits(m));
        assert(without_separators(seq![','] + three_digits(m)) =~= three_digits(m));
        lemma_append_three_digits(without_separators(g), m);
    }
}

/// Relies on `str::chars`, collected into a vector: the characters of `s` in order.
#[verifier::external_body]
pub(crate) fn chars_of(s: &str) -> (r: Vec<char>)
    ensures
        r@ == s@,
{
    s.chars().collect()
}

/// Relies on `String::push`: appends one character.
#[verifier::external_body]
pub(crate) fn push_char(s: &mut String, c: char)
    ensures
        final(s)@ == old(s)@.push(c),
{
    s.push(c)
}

/// Relies on num-format's `to_formatted_string` with `Locale::en`, whose
/// separator is "," and whose grouping is by threes.
#[verifier::external_body]
fn en_formatted(n: u64) -> (r: String)
    ensures
        r@ == grouped(n as nat),
{
    n.to_formatted_string(&Locale::en)
}

/// The digit for `d`.
pub fn digit_to_char(d: u64) -> (c: char)
    requires
        d < 10,
    ensures
        c == digit_char(d as int),
{
    if d == 0 { '0' } else if d == 1 { '1' } else if d == 2 { '2' } else if d == 3 { '3' }
    else if d == 4 { '4' } else if d == 5 { '5' } else if d == 6 { '6' } else if d == 7 { '7' }
    else if d == 8 { '8' } else { '9' }
}

/// Appends the decimal notation of `n` to `out`.
pub fn push_decimal(out: &mut String, n: u64)
    ensures
        final(out)@ == old(out)@ + decimal(n as nat),
    decreases n,
{
    if n < 10 {
        push_char(out, digit_to_char(n));
        assert(old(out)@ + decimal(n as nat) =~= old(out)@.push(digit_char(n as int)));
    } else {
        push_decimal(out, n / 10);
        push_char(out, digit_to_char(n % 10));
        assert(old(out)@ + decimal(n as nat) =~= old(out)@ + decimal((n / 10) as nat) + seq![digit_char((n % 10) as int)]);
    }
}

/// Appends `n` with thousands separators to `out`.
pub fn push_grouped(out: &mut String, n: u64)
    ensures
        final(out)@ == old(out)@ + grouped(n as nat),
{
    let g = en_formatted(n);
    out.append(g.as_str());
}

} // verus!
