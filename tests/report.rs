use bench_bot::{Latency, Metrics, MetricsError, Report, Request, Transfer};

const HEADER: &str = "| Framework Name | Latency.Avg | Latency.Stdev | Latency.50P | Latency.75P | Latency.90P | Latency.99P | Latency.Max | Request.Total | Request.Req/Sec | Transfer.Total | Transfer.Rate | Max. Memory Usage |";
const SEPARATOR: &str = "|---|---|---|---|---|---|---|---|---|---|---|---|---|";

const WITH_PERCENTILES: &str = r#"
Running 30s test @ http://127.0.0.1:3000
  16 threads and 500 connections
  Thread Stats   Avg      Stdev     Max   +/- Stdev
    Latency   814.27us  498.47us   8.42ms   69.23%
    Req/Sec    36.10k     2.64k   74.83k    75.41%
  Latency Distribution
     50%  707.00us
     75%    1.07ms
     90%    1.50ms
     99%    2.56ms
  17275966 requests in 30.09s, 1.95GB read
Requests/sec: 574184.09
Transfer/sec:     66.26MB
"#;

const WITHOUT_PERCENTILES: &str = r#"
Running 30s test @ http://127.0.0.1:3000
  16 threads and 500 connections
  Thread Stats   Avg      Stdev     Max   +/- Stdev
    Latency   814.27us  498.47us   8.42ms   69.23%
    Req/Sec    36.10k     2.64k   74.83k    75.41%
  17275966 requests in 30.09s, 1.95GB read
Requests/sec: 574184.09
Transfer/sec:     66.26MB
"#;

fn metrics(text: &str) -> Metrics {
    text.parse().expect("parse metric fail")
}

#[test]
fn generate() {
    let given = vec![
        Report::new("actix-web", 137, r#"
                    Running 30s test @ http://127.0.0.1:3000
                      16 threads and 500 connections
                      Thread Stats   Avg      Stdev     Max   +/- Stdev
                        Latency   814.27us  498.47us   8.42ms   69.23%
                        Req/Sec    36.10k     2.64k   74.83k    75.41%
                      17275966 requests in 30.09s, 1.95GB read
                    Requests/sec: 574184.09
                    Transfer/sec:     66.26MB
                "#.parse().expect("parse metric fail")),
        Report::new("axum", 124, r#"
                    Running 30s test @ http://127.0.0.1:3000
                      16 threads and 200 connections
                      Thread Stats   Avg      Stdev     Max   +/- Stdev
                        Latency   392.28us  199.70us   4.67ms   70.95%
                        Req/Sec    29.50k     0.98k   33.01k    68.63%
                      14134927 requests in 30.10s, 1.59GB read
                    Requests/sec: 469597.42
                    Transfer/sec:     54.19MB
                "#.parse().expect("parse metric fail")),
    ];

    let actual = Report::generate_from(&given);

    let expect = r#"
| Framework Name | Latency.Avg | Latency.Stdev | Latency.50P | Latency.75P | Latency.90P | Latency.99P | Latency.Max | Request.Total | Request.Req/Sec | Transfer.Total | Transfer.Rate | Max. Memory Usage |
|---|---|---|---|---|---|---|---|---|---|---|---|---|
|actix-web|0.8143ms|0.4985ms|-|-|-|-|8.4200ms|17275966|574184.09|1.95GB|66.26MB|13.7MB|
|axum|0.3923ms|0.1997ms|-|-|-|-|4.6700ms|14134927|469597.42|1.59GB|54.19MB|12.4MB|
"#.trim();

    assert_eq!(actual, expect);
}

#[test]
fn generate_with_percentiles() {
    let given = vec![
        Report::new("actix-web", 137, metrics(WITH_PERCENTILES)),
        Report::new("axum", 124, metrics(WITH_PERCENTILES)),
    ];
    let actual = Report::generate_from(&given);
    let expect = format!(
        "{}\n{}\n{}\n{}",
        HEADER,
        SEPARATOR,
        "|actix-web|0.8143ms|0.4985ms|0.7070ms|1.0700ms|1.5000ms|2.5600ms|8.4200ms|17275966|574184.09|1.95GB|66.26MB|13.7MB|",
        "|axum|0.8143ms|0.4985ms|0.7070ms|1.0700ms|1.5000ms|2.5600ms|8.4200ms|17275966|574184.09|1.95GB|66.26MB|12.4MB|",
    );
    assert_eq!(actual, expect);
}

#[test]
fn missing_percentiles_render_as_placeholder() {
    let given = vec![Report::new("actix-web", 137, metrics(WITHOUT_PERCENTILES))];
    let actual = Report::generate_from(&given);
    let row = actual.lines().nth(2).unwrap();
    assert_eq!(
        row,
        "|actix-web|0.8143ms|0.4985ms|-|-|-|-|8.4200ms|17275966|574184.09|1.95GB|66.26MB|13.7MB|"
    );
}

fn with_latency(latency: Latency) -> Metrics {
    Metrics {
        latency,
        request: Request { total: "1".to_string(), req_per_sec: "2.0".to_string() },
        transfer: Transfer { total: "3.00KB".to_string(), rate: "4.00B".to_string() },
    }
}

#[test]
fn percentile_cells() {
    let latency = Latency { avg: 0, stdev: 1, max: 123456789, p50: 0, p75: 1, p90: 10000, p99: 0 };
    let given = vec![Report::new("x", 0, with_latency(latency))];
    let actual = Report::generate_from(&given);
    let row = actual.lines().nth(2).unwrap();
    assert_eq!(row, "|x|0.0000ms|0.0001ms|-|0.0001ms|1.0000ms|-|12345.6789ms|1|2.0|3.00KB|4.00B|0.0MB|");
}

#[test]
fn empty_table_has_header_and_separator() {
    let actual = Report::generate_from(&Vec::new());
    assert_eq!(actual, format!("{}\n{}", HEADER, SEPARATOR));
}

#[test]
fn table_lines_and_cells() {
    let given = vec![
        Report::new("a", 10, metrics(WITH_PERCENTILES)),
        Report::new("b", 20, metrics("")),
        Report::new("c", 30, metrics(WITHOUT_PERCENTILES)),
    ];
    let actual = Report::generate_from(&given);
    assert!(!actual.ends_with('\n'));
    let lines: Vec<&str> = actual.split('\n').collect();
    assert_eq!(lines.len(), 5);
    let header_bars = HEADER.matches('|').count();
    assert_eq!(header_bars, 14);
    for line in &lines {
        assert_eq!(line.matches('|').count(), header_bars);
    }
}

#[test]
fn rows_keep_input_order() {
    let a = || Report::new("alpha", 11, metrics(WITH_PERCENTILES));
    let b = || Report::new("beta", 22, metrics(WITHOUT_PERCENTILES));
    let ab = Report::generate_from(&vec![a(), b()]);
    let ba = Report::generate_from(&vec![b(), a()]);
    let ab_lines: Vec<&str> = ab.lines().collect();
    let ba_lines: Vec<&str> = ba.lines().collect();
    assert!(ab_lines[2].starts_with("|alpha|"));
    assert!(ab_lines[3].starts_with("|beta|"));
    assert!(ba_lines[2].starts_with("|beta|"));
    assert!(ba_lines[3].starts_with("|alpha|"));
    assert_eq!(ab_lines[2], ba_lines[3]);
    assert_eq!(ab_lines[3], ba_lines[2]);
}

#[test]
fn memory_is_written_with_one_decimal() {
    assert_eq!(Report::new("m", 137, metrics("")).max_memory, "13.7MB");
    assert_eq!(Report::new("m", 124, metrics("")).max_memory, "12.4MB");
    assert_eq!(Report::new("m", 0, metrics("")).max_memory, "0.0MB");
    assert_eq!(Report::new("m", 5, metrics("")).max_memory, "0.5MB");
    assert_eq!(Report::new("m", 12340, metrics("")).max_memory, "1234.0MB");
    assert_eq!(Report::new("m", 5, metrics("")).framework_name, "m");
}

#[test]
fn parse_never_fails() {
    let r: Result<Metrics, MetricsError> = Metrics::parse("garbage | with\nno fields at all");
    assert!(r.is_ok());
}
