use framework_bench::aggregate::MetricSample;
use framework_bench::config::{LoadLevel, Target};
use framework_bench::render::{render_document, render_table};

const HEADER: &str = "|   **Name**   |   Req/sec   | Avg Latency | Max Latency |  # Requests |\n|:------------:|:-----------:|:-----------:|:-----------:|:-----------:|\n";

fn sample(name: &str, rate: u64, total: u64) -> MetricSample {
    MetricSample {
        name: name.to_string(),
        requests_per_second: rate,
        average_latency: "104.52us".to_string(),
        max_latency: "2.18ms".to_string(),
        total_requests: total,
        concurrency: 10,
    }
}

#[test]
fn render_table_rows() {
    let table = render_table(&vec![sample("actix", 9177751, 2762468), sample("tide", 99900, 999)]);
    let expected = format!(
        "{}|**actix**|91,777|104.52us|2.18ms|2,762,468|\n|**tide**|999|104.52us|2.18ms|999|\n",
        HEADER
    );
    assert_eq!(table, expected);
}

#[test]
fn render_table_empty_group() {
    assert_eq!(render_table(&vec![]), HEADER);
}

#[test]
fn render_table_numbers_read_back() {
    let values = [(0u64, 0u64), (100, 1000), (123456789, 1234567), (u64::MAX, u64::MAX)];
    let group: Vec<MetricSample> = values.iter().map(|(r, t)| sample("x", *r, *t)).collect();
    let table = render_table(&group);
    let rows: Vec<&str> = table.lines().skip(2).collect();
    assert_eq!(rows.len(), values.len());
    for (row, (rate, total)) in rows.iter().zip(values.iter()) {
        let cols: Vec<&str> = row.split('|').collect();
        let read_rate: u64 = cols[2].replace(',', "").parse().unwrap();
        let read_total: u64 = cols[5].replace(',', "").parse().unwrap();
        assert_eq!(read_rate, rate / 100);
        assert_eq!(read_total, *total);
    }
}

#[test]
fn render_document_splices_body() {
    let targets = vec![Target {
        name: "actix".to_string(),
        port: 8000,
        binary: "actix".to_string(),
        url: "https://actix.rs".to_string(),
    }];
    let levels = vec![LoadLevel { concurrency: 10, threads: 1, duration: 30 }];
    let tables = vec!["T".to_string()];
    let doc = render_document("top\n==SPLIT==\nbottom", &targets, &levels, &tables).unwrap();
    let expected = "top\n\n## Frameworks included\n**[actix](https://actix.rs)**\n# Results\n\
|   Concurrency: 10   |   Duration: 30 secs   |   Threads: 1   |\n\
|:-------------------:|:---------------------:|:--------------:|\n\nT\n\n\n\nbottom";
    assert_eq!(doc, expected);
}

#[test]
fn render_document_without_marker() {
    assert!(render_document("no marker", &vec![], &vec![], &vec![]).is_none());
}
