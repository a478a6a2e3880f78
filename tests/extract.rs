use framework_bench::extract::{extract, ParseError};

const WRK_OUTPUT: &str = "Running 30s test @ http://localhost:8000
  1 threads and 10 connections
  Thread Stats   Avg      Stdev     Max   +/- Stdev
    Latency   104.52us   41.15us   2.18ms   89.48%
    Req/Sec    92.26k     5.83k  100.98k    75.42%
  2762468 requests in 30.10s, 342.50MB read
Requests/sec:  91777.51
Transfer/sec:     11.38MB
";

#[test]
fn extract_reads_wrk_output() {
    let m = extract(WRK_OUTPUT).unwrap();
    assert_eq!(m.requests_per_second, 9177751);
    assert_eq!(m.average_latency, "104.52us");
    assert_eq!(m.max_latency, "2.18ms");
    assert_eq!(m.total_requests, 2762468);
}

#[test]
fn extract_is_repeatable() {
    let a = extract(WRK_OUTPUT).unwrap();
    let b = extract(WRK_OUTPUT).unwrap();
    assert_eq!(a.requests_per_second, b.requests_per_second);
    assert_eq!(a.average_latency, b.average_latency);
    assert_eq!(a.max_latency, b.max_latency);
    assert_eq!(a.total_requests, b.total_requests);
}

#[test]
fn extract_without_rate_fails_on_rate() {
    let text = WRK_OUTPUT.replace("Requests/sec:", "Reqs:");
    assert_eq!(extract(&text).unwrap_err(), ParseError::RequestsPerSecond);
}

#[test]
fn extract_rate_without_number_fails() {
    let text = WRK_OUTPUT.replace("91777.51", "n/a");
    assert_eq!(extract(&text).unwrap_err(), ParseError::RequestsPerSecond);
}

#[test]
fn extract_without_latency_fails() {
    let text = WRK_OUTPUT.replace("Latency", "Delay");
    assert_eq!(extract(&text).unwrap_err(), ParseError::Latency);
}

#[test]
fn extract_short_latency_row_fails() {
    let text = " 10 requests in 1s\nRequests/sec: 10.00\nLatency 1ms 2ms\n";
    assert_eq!(extract(text).unwrap_err(), ParseError::Latency);
}

#[test]
fn extract_without_count_fails() {
    let text = WRK_OUTPUT.replace("2762468 requests", "many requests");
    assert_eq!(extract(&text).unwrap_err(), ParseError::TotalRequests);
}

#[test]
fn extract_count_beyond_u64_fails() {
    let text = WRK_OUTPUT.replace("2762468", "99999999999999999999999");
    assert_eq!(extract(&text).unwrap_err(), ParseError::TotalRequests);
}

#[test]
fn extract_rate_beyond_u64_fails() {
    let text = WRK_OUTPUT.replace("91777.51", "999999999999999999.00");
    assert_eq!(extract(&text).unwrap_err(), ParseError::RequestsPerSecond);
}

#[test]
fn extract_rate_precision() {
    let whole = "Latency 1ms 2ms 3ms\n15 requests in 1s\nRequests/sec: 15000\n";
    assert_eq!(extract(whole).unwrap().requests_per_second, 1500000);
    let one = "Latency 1ms 2ms 3ms\n15 requests in 1s\nRequests/sec: 15000.5\n";
    assert_eq!(extract(one).unwrap().requests_per_second, 1500050);
    let three = "Latency 1ms 2ms 3ms\n15 requests in 1s\nRequests/sec: 15000.129\n";
    assert_eq!(extract(three).unwrap().requests_per_second, 1500012);
}

#[test]
fn extract_count_takes_first_digit_run_before_phrase() {
    let text = "Latency 1ms 2ms 3ms\nx requests in 1s\n 42 requests in 2s\nRequests/sec: 1.00\n";
    assert_eq!(extract(text).unwrap().total_requests, 42);
}
