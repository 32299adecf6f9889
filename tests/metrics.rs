use bench_bot::{normalize, Latency, Metrics, Request, Transfer};

fn zero_latency() -> Latency {
    Latency { avg: 0, stdev: 0, max: 0, p50: 0, p75: 0, p90: 0, p99: 0 }
}

#[test]
fn ok() {
    let given = r#"
Running 30s test @ http://127.0.0.1:3000
  16 threads and 500 connections
  Thread Stats   Avg      Stdev     Max   +/- Stdev
    Latency   814.27us  498.47us   8.42ms   69.23%
    Req/Sec    36.10k     2.64k   74.83k    75.41%
  17275966 requests in 30.09s, 1.95GB read
Requests/sec: 574184.09
Transfer/sec:     66.26MB

691 Errors: error shutting down connection: Socket is not connected (os error 57)
            "#;
    let actual = given.parse::<Metrics>();

    let expect = Ok(
        Metrics {
            latency: Latency {
                avg: 8143,
                stdev: 4985,
                max: 84200,
                p50: 0,
                p75: 0,
                p90: 0,
                p99: 0,
            },
            request: Request {
                total: "17275966".to_string(),
                req_per_sec: "574184.09".to_string(),
            },
            transfer: Transfer {
                total: "1.95GB".to_string(),
                rate: "66.26MB".to_string(),
            },
        });

    assert_eq!(actual, expect);
}

#[test]
fn scenario_with_percentiles() {
    let given = r#"
Running 30s test @ http://127.0.0.1:3000
  16 threads and 500 connections
  Thread Stats   Avg      Stdev     Max   +/- Stdev
    Latency   814.27us  498.47us   8.42ms   69.23%
    Req/Sec    36.10k     2.64k   74.83k    75.41%
  Latency Distribution
     50%  707.00us
     75%    1.07ms
     90%    1.50ms
     99%    2.56ms
  17275966 requests in 30.09s, 1.95GB read
Requests/sec: 574184.09
Transfer/sec:     66.26MB
"#;
    let m = Metrics::parse(given).unwrap();
    assert_eq!(
        m.latency,
        Latency { avg: 8143, stdev: 4985, max: 84200, p50: 7070, p75: 10700, p90: 15000, p99: 25600 }
    );
    assert_eq!(m.request.total, "17275966");
    assert_eq!(m.request.req_per_sec, "574184.09");
    assert_eq!(m.transfer.total, "1.95GB");
    assert_eq!(m.transfer.rate, "66.26MB");
}

#[test]
fn empty_text_gives_defaults() {
    let m = Metrics::parse("").unwrap();
    assert_eq!(m.latency, zero_latency());
    assert_eq!(m.request.total, "");
    assert_eq!(m.request.req_per_sec, "");
    assert_eq!(m.transfer.total, "");
    assert_eq!(m.transfer.rate, "");
}

#[test]
fn fields_found_in_any_order_and_spacing() {
    let given = "Transfer/sec: 124.76 MB\nRequests/sec:\t1006342.33\n30178057 requests in 30.00s,  3.65 GB read\nLatency 1.50s 20.00ms 2.10s\n";
    let m = Metrics::parse(given).unwrap();
    assert_eq!(m.latency.avg, 15_000_000);
    assert_eq!(m.latency.stdev, 200_000);
    assert_eq!(m.latency.max, 21_000_000);
    assert_eq!(m.request.total, "30178057");
    assert_eq!(m.request.req_per_sec, "1006342.33");
    assert_eq!(m.transfer.total, "3.65GB");
    assert_eq!(m.transfer.rate, "124.76MB");
}

#[test]
fn first_match_wins() {
    let given = "Latency 1.00ms 2.00ms 3.00ms\nLatency 9.00ms 9.00ms 9.00ms\n5 requests in 1s\n7 requests in 2s\n";
    let m = Metrics::parse(given).unwrap();
    assert_eq!((m.latency.avg, m.latency.stdev, m.latency.max), (10000, 20000, 30000));
    assert_eq!(m.request.total, "5");
}

#[test]
fn incomplete_distribution_is_ignored() {
    let given = "Latency Distribution\n 50% 1.00ms\n 75% 2.00ms\n 90% 3.00ms\n";
    let m = Metrics::parse(given).unwrap();
    assert_eq!(m.latency, zero_latency());
}

#[test]
fn size_without_prefix_and_kilobytes() {
    let m = Metrics::parse("1 requests in 1.00s, 512.00B read\nTransfer/sec: 3.50KB\n").unwrap();
    assert_eq!(m.transfer.total, "512.00B");
    assert_eq!(m.transfer.rate, "3.50KB");
}

#[test]
fn malformed_fields_degrade() {
    let m = Metrics::parse("Latency 1.00ms 2.00ms\nRequests/sec: 12\nTransfer/sec: 3.00XB\n").unwrap();
    assert_eq!(m.latency, zero_latency());
    assert_eq!(m.request.req_per_sec, "");
    assert_eq!(m.transfer.rate, "");
}

#[test]
fn normalize_units() {
    assert_eq!(normalize("814.27", "us"), 8143);
    assert_eq!(normalize("498.47", "us"), 4985);
    assert_eq!(normalize("8.42", "ms"), 84200);
    assert_eq!(normalize("1.5", "s"), 15_000_000);
    assert_eq!(normalize("2", "s"), 20_000_000);
    assert_eq!(normalize("3", "ms"), 30_000);
    assert_eq!(normalize("7", "us"), 70);
}

#[test]
fn normalize_rounds_half_away_from_zero() {
    assert_eq!(normalize("0.05", "us"), 1);
    assert_eq!(normalize("0.04999", "us"), 0);
    assert_eq!(normalize("1.23455", "ms"), 12346);
    assert_eq!(normalize("1.23454999", "ms"), 12345);
    assert_eq!(normalize("0.00000005", "s"), 1);
}

#[test]
fn normalize_rejects_unknown_input() {
    assert_eq!(normalize("5", "ns"), 0);
    assert_eq!(normalize("5", ""), 0);
    assert_eq!(normalize("abc", "ms"), 0);
    assert_eq!(normalize("1.", "ms"), 0);
    assert_eq!(normalize(".5", "ms"), 0);
    assert_eq!(normalize("", "ms"), 0);
}

#[test]
fn normalize_saturates() {
    assert_eq!(normalize("99999999999999", "s"), u64::MAX);
    assert_eq!(normalize("1844674407370955", "ms"), 18446744073709550000);
}
