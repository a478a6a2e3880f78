use framework_bench::aggregate::{aggregate, sort_by_rate, AggregateError, MetricSample};
use framework_bench::config::{LoadLevel, Target};
use framework_bench::extract::ParseError;

fn target(name: &str, port: u32) -> Target {
    Target { name: name.to_string(), port, binary: name.to_lowercase(), url: format!("https://example.org/{}", name) }
}

fn record(rate: &str, count: u64) -> String {
    format!(
        "    Latency   1.00ms   0.50ms   9.00ms   80.00%\n  {} requests in 30.00s, 1MB read\nRequests/sec: {}\n",
        count, rate
    )
}

fn sample(name: &str, rate: u64) -> MetricSample {
    MetricSample {
        name: name.to_string(),
        requests_per_second: rate,
        average_latency: "1ms".to_string(),
        max_latency: "2ms".to_string(),
        total_requests: 1,
        concurrency: 10,
    }
}

const TEN: LoadLevel = LoadLevel { concurrency: 10, threads: 1, duration: 30 };

#[test]
fn aggregate_orders_two_targets() {
    let targets = vec![target("A", 8000), target("B", 8001)];
    let records = vec![vec![Some(record("15000.00", 450000)), Some(record("9000.00", 270000))]];
    let groups = aggregate(&targets, &vec![TEN], &records).unwrap();
    assert_eq!(groups.len(), 1);
    assert_eq!(groups[0].len(), 2);
    assert_eq!(groups[0][0].name, "A");
    assert_eq!(groups[0][0].requests_per_second, 1500000);
    assert_eq!(groups[0][1].name, "B");
    assert_eq!(groups[0][1].requests_per_second, 900000);
    assert_eq!(groups[0][0].concurrency, 10);
}

#[test]
fn aggregate_reorders_slower_first() {
    let targets = vec![target("B", 8001), target("A", 8000)];
    let records = vec![vec![Some(record("9000.00", 270000)), Some(record("15000.00", 450000))]];
    let groups = aggregate(&targets, &vec![TEN], &records).unwrap();
    assert_eq!(groups[0][0].name, "A");
    assert_eq!(groups[0][1].name, "B");
    assert_eq!(groups[0][1].total_requests, 270000);
}

#[test]
fn aggregate_groups_by_level() {
    let fifty = LoadLevel { concurrency: 50, threads: 1, duration: 30 };
    let targets = vec![target("A", 8000), target("B", 8001)];
    let records = vec![
        vec![Some(record("1.00", 1)), Some(record("2.00", 2))],
        vec![Some(record("4.00", 4)), Some(record("3.00", 3))],
    ];
    let groups = aggregate(&targets, &vec![TEN, fifty], &records).unwrap();
    assert_eq!(groups.len(), 2);
    assert_eq!(groups[0][0].name, "B");
    assert_eq!(groups[1][0].name, "A");
    assert_eq!(groups[1][0].concurrency, 50);
}

#[test]
fn aggregate_missing_record_fails() {
    let targets = vec![target("A", 8000), target("B", 8001)];
    let records = vec![vec![Some(record("15000.00", 450000)), None]];
    let err = aggregate(&targets, &vec![TEN], &records).unwrap_err();
    assert_eq!(err, AggregateError::MissingRecord { level: 0, target: 1 });
}

#[test]
fn aggregate_reports_first_failure() {
    let targets = vec![target("A", 8000), target("B", 8001)];
    let records = vec![vec![Some("garbage".to_string()), None]];
    let err = aggregate(&targets, &vec![TEN], &records).unwrap_err();
    assert_eq!(err, AggregateError::Parse { level: 0, target: 0, error: ParseError::Latency });
}

#[test]
fn aggregate_with_no_targets() {
    let groups = aggregate(&vec![], &vec![TEN], &vec![vec![]]).unwrap();
    assert_eq!(groups.len(), 1);
    assert!(groups[0].is_empty());
}

#[test]
fn sort_by_rate_descends_and_keeps_ties() {
    let group = vec![sample("a", 5), sample("b", 9), sample("c", 5), sample("d", 1), sample("e", 9)];
    let sorted = sort_by_rate(group);
    let names: Vec<&str> = sorted.iter().map(|s| s.name.as_str()).collect();
    assert_eq!(names, vec!["b", "e", "a", "c", "d"]);
    for pair in sorted.windows(2) {
        assert!(pair[0].requests_per_second >= pair[1].requests_per_second);
    }
}

#[test]
fn sort_by_rate_empty() {
    assert!(sort_by_rate(vec![]).is_empty());
}
