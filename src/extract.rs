//! Reading the load driver's text output into metrics.
//!
//! The output holds a latency row ("Latency" and then three blank-separated
//! values: average, deviation, maximum), a phrase "<N> requests in", and a
//! phrase "Requests/sec: <number>".
use vstd::prelude::*;
use crate::text::{is_digit, digit_value, digits_value, chars_of};
use crate::scan::{
    find_from, skip_spaces, token_end, digits_end, digits_start, find_marker,
    skip_spaces_from, token_end_from, digits_end_from, digits_start_before, read_digits,
    substring,
};

verus! {

/// Which metric could not be read from the output.
#[derive(Debug, Clone, Copy, PartialEq, Eq, Structural)]
pub enum ParseError {
    /// No latency row with three values.
    Latency,
    /// No "<N> requests in" phrase, or a count beyond `u64`.
    TotalRequests,
    /// No "Requests/sec:" phrase followed by a number, or a rate beyond `u64`.
    RequestsPerSecond,
}

/// The metrics of one run.
#[derive(Debug, Clone)]
pub struct Metrics {
    /// Requests per second, in hundredths (the two first decimals are kept).
    pub requests_per_second: u64,
    /// Average latency, as printed, with its unit.
    pub average_latency: String,
    /// Maximum latency, as printed, with its unit.
    pub max_latency: String,
    pub total_requests: u64,
}

pub struct MetricsView {
    pub requests_per_second: nat,
    pub average_latency: Seq<char>,
    pub max_latency: Seq<char>,
    pub total_requests: nat,
}

impl View for Metrics {
    type V = MetricsView;

    open spec fn view(&self) -> MetricsView {
        MetricsView {
            requests_per_second: self.requests_per_second as nat,
            average_latency: self.average_latency@,
            max_latency: self.max_latency@,
            total_requests: self.total_requests as nat,
        }
    }
}

pub open spec fn latency_marker() -> Seq<char> {
    "Latency"@
}

pub open spec fn count_marker() -> Seq<char> {
    " requests in"@
}

pub open spec fn rate_marker() -> Seq<char> {
    "Requests/sec:"@
}

/// Where the average and the maximum latency stand: the first and third of
/// the three blank-separated values after the first "Latency".
pub open spec fn latency_span(t: Seq<char>) -> Option<(int, int, int, int)> {
    match find_from(t, latency_marker(), 0) {
        None => None,
        Some(p) => {
            let a0 = skip_spaces(t, p + latency_marker().len());
            let e0 = token_end(t, a0);
            let a1 = skip_spaces(t, e0);
            let e1 = token_end(t, a1);
            let a2 = skip_spaces(t, e1);
            let e2 = token_end(t, a2);
            if a0 < e0 && a1 < e1 && a2 < e2 {
                Some((a0, e0, a2, e2))
            } else {
                None
            }
        },
    }
}

/// The first position at or after `i` where " requests in" follows a digit.
pub open spec fn count_from(t: Seq<char>, i: int) -> Option<int>
    decreases t.len() - i,
{
    match find_from(t, count_marker(), i) {
        None => None,
        Some(q) => if q > 0 && is_digit(t[q - 1]) {
            Some(q)
        } else if q < t.len() && q >= i {
            count_from(t, q + 1)
        } else {
            None
        },
    }
}

/// The request count: the digits just before the first " requests in".
pub open spec fn total_requests_of(t: Seq<char>) -> Option<int> {
    match count_from(t, 0) {
        None => None,
        Some(q) => Some(digits_value(t.subrange(digits_start(t, q), q))),
    }
}

/// The rate in hundredths, for the number whose digits start at `a`: its
/// whole part and the first two digits after a decimal point, if any.
pub open spec fn rate_at(t: Seq<char>, a: int) -> int {
    let w = digits_end(t, a);
    let whole = digits_value(t.subrange(a, w));
    if w < t.len() && t[w] == '.' {
        let f = digits_end(t, w + 1);
        let d1 = if f > w + 1 { digit_value(t[w + 1]) } else { 0 };
        let d2 = if f > w + 2 { digit_value(t[w + 2]) } else { 0 };
        whole * 100 + d1 * 10 + d2
    } else {
        whole * 100
    }
}

/// Where the digits of the rate start, after the first "Requests/sec:".
pub open spec fn rate_start(t: Seq<char>) -> Option<int> {
    match find_from(t, rate_marker(), 0) {
        None => None,
        Some(p) => {
            let a = skip_spaces(t, p + rate_marker().len());
            if digits_end(t, a) > a {
                Some(a)
            } else {
                None
            }
        },
    }
}

/// What the output `t` yields: the metrics, or the first of latency, count
/// and rate that is missing or out of range.
pub open spec fn extract_spec(t: Seq<char>) -> Result<MetricsView, ParseError> {
    match latency_span(t) {
        None => Err(ParseError::Latency),
        Some((a0, e0, a2, e2)) => match total_requests_of(t) {
            None => Err(ParseError::TotalRequests),
            Some(n) => if n > u64::MAX {
                Err(ParseError::TotalRequests)
            } else {
                match rate_start(t) {
                    None => Err(ParseError::RequestsPerSecond),
                    Some(a) => if rate_at(t, a) > u64::MAX {
                        Err(ParseError::RequestsPerSecond)
                    } else {
                        Ok(
                            MetricsView {
                                requests_per_second: rate_at(t, a) as nat,
                                average_latency: t.subrange(a0, e0),
                                max_latency: t.subrange(a2, e2),
                                total_requests: n as nat,
                            },
                        )
                    },
                }
            },
        },
    }
}

/// Output without the "Requests/sec:" phrase yields no metrics: it fails
/// with a parse error, which is the rate's own when the latency row and the
/// request count are there.
pub proof fn lemma_missing_rate_fails(t: Seq<char>)
    requires
        find_from(t, rate_marker(), 0) is None,
    ensures
        extract_spec(t) is Err,
        (latency_span(t) is Some && total_requests_of(t) is Some && total_requests_of(t)->0 <= u64::MAX)
            ==> extract_spec(t) == Err::<MetricsView, ParseError>(ParseError::RequestsPerSecond),
{
}

fn find_count(t: &Vec<char>, m: &Vec<char>) -> (r: Option<usize>)
    requires
        m@ == count_marker(),
    ensures
        r is Some <==> count_from(t@, 0) is Some,
        r is Some ==> count_from(t@, 0) == Some(r->0 as int) && r->0 <= t.len(),
{
    let mut i: usize = 0;
    loop
        invariant
            i <= t.len() + 1,
            m@ == count_marker(),
            count_from(t@, 0) == count_from(t@, i as int),
        decreases t.len() + 1 - i,
    {
        let found = find_marker(t, m, i);
        assert(count_from(t@, i as int) == match find_from(t@, count_marker(), i as int) {
            None => None,
            Some(q) => if q > 0 && is_digit(t@[q - 1]) {
                Some(q)
            } else if q < t@.len() && q >= i {
                count_from(t@, q + 1)
            } else {
                None
            },
        });
        match found {
            None => {
                return None;
            },
            Some(q) => {
                if q > 0 && 48 <= (t[q - 1] as u32) && (t[q - 1] as u32) <= 57 {
                    return Some(q);
                }
                if q >= t.len() {
                    return None;
                }
                i = q + 1;
            },
        }
    }
}

/// Reads the metrics of one run from the load driver's output.
pub fn extract(raw: &str) -> (r: Result<Metrics, ParseError>)
    ensures
        r matches Ok(m) ==> extract_spec(raw@) == Ok::<MetricsView, ParseError>(m@),
        r matches Err(e) ==> extract_spec(raw@) == Err::<MetricsView, ParseError>(e),
{
    let t = chars_of(raw);
    let latency = chars_of("Latency");
    let count = chars_of(" requests in");
    let rate = chars_of("Requests/sec:");
    proof {
        reveal_strlit("Latency");
        reveal_strlit(" requests in");
        reveal_strlit("Requests/sec:");
    }
    // latency row
    let p = match find_marker(&t, &latency, 0) {
        None => {
            return Err(ParseError::Latency);
        },
        Some(p) => p,
    };
    let a0 = skip_spaces_from(&t, p + latency.len());
    let e0 = token_end_from(&t, a0);
    let a1 = skip_spaces_from(&t, e0);
    let e1 = token_end_from(&t, a1);
    let a2 = skip_spaces_from(&t, e1);
    let e2 = token_end_from(&t, a2);
    if !(a0 < e0 && a1 < e1 && a2 < e2) {
        return Err(ParseError::Latency);
    }
    // request count
    let q = match find_count(&t, &count) {
        None => {
            return Err(ParseError::TotalRequests);
        },
        Some(q) => q,
    };
    let s = digits_start_before(&t, q);
    let total = match read_digits(&t, s, q) {
        None => {
            return Err(ParseError::TotalRequests);
        },
        Some(n) => n,
    };
    // rate
    let rp = match find_marker(&t, &rate, 0) {
        None => {
            return Err(ParseError::RequestsPerSecond);
        },
        Some(rp) => rp,
    };
    let a = skip_spaces_from(&t, rp + rate.len());
    let w = digits_end_from(&t, a);
    if w == a {
        return Err(ParseError::RequestsPerSecond);
    }
    let whole = match read_digits(&t, a, w) {
        None => {
            return Err(ParseError::RequestsPerSecond);
        },
        Some(v) => v,
    };
    let mut cents: u64 = 0;
    if w < t.len() && t[w] == '.' {
        let f = digits_end_from(&t, w + 1);
        if f > w + 1 {
            assert(is_digit(t@[w + 1]));
            cents = cents + 10 * (t[w + 1] as u32 - 48) as u64;
            if f - w > 2 {
                assert(is_digit(t@[w + 2]));
                cents = cents + (t[w + 2] as u32 - 48) as u64;
            }
        }
    }
    assert(rate_at(t@, a as int) == whole * 100 + cents);
    if whole > (u64::MAX - cents) / 100 {
        assert(whole * 100 + cents > u64::MAX) by (nonlinear_arith)
            requires whole > (u64::MAX - cents) / 100, cents <= 99;
        return Err(ParseError::RequestsPerSecond);
    }
    Ok(
        Metrics {
            requests_per_second: whole * 100 + cents,
            average_latency: substring(&t, a0, e0),
            max_latency: substring(&t, a2, e2),
            total_requests: total,
        },
    )
}

} // verus!
