use logfetch::address::Address;
use logfetch::config::RunConfig;
use logfetch::decimal::decimal_string;
use logfetch::fetch::ErrorKind;
use logfetch::fetch::FetchOutcome;
use logfetch::range::BlockRange;
use logfetch::report::consume;
use logfetch::report::end_line;
use logfetch::report::Emission;
use logfetch::report::ErrorLine;
use logfetch::report::Report;

fn config(parallelism: usize, width: u64) -> RunConfig {
    RunConfig::new(Address::from_bytes([0u8; 20]), parallelism, width).unwrap()
}

#[test]
fn decimal_string_writes_digits() {
    assert_eq!(decimal_string(0), "0");
    assert_eq!(decimal_string(7), "7");
    assert_eq!(decimal_string(9), "9");
    assert_eq!(decimal_string(10), "10");
    assert_eq!(decimal_string(250), "250");
    assert_eq!(decimal_string(1_234_567_890), "1234567890");
    assert_eq!(decimal_string(u64::MAX as u128), "18446744073709551615");
    assert_eq!(decimal_string(u128::MAX), "340282366920938463463374607431768211455");
}

#[test]
fn decimal_string_agrees_with_std() {
    let mut n: u128 = 1;
    while n < u128::MAX / 7 {
        assert_eq!(decimal_string(n), n.to_string());
        assert_eq!(decimal_string(n - 1), (n - 1).to_string());
        n *= 7;
    }
}

#[test]
fn end_line_appends_a_line_feed() {
    assert_eq!(end_line(String::from("abc")), "abc\n");
    assert_eq!(end_line(String::new()), "\n");
}

#[test]
fn report_line_is_a_json_object() {
    let report = Report { parallelism: 10, page_width: 9999, elapsed_ms: 250, rate: 4 };
    assert_eq!(
        report.to_line(),
        "{\"elapsed\":\"250\",\"page_size\":9999,\"parallelism\":10,\"rate\":\"4\"}\n"
    );
}

#[test]
fn report_line_reads_back_as_json() {
    let report = Report { parallelism: 3, page_width: u64::MAX, elapsed_ms: u128::MAX, rate: 0 };
    let line = report.to_line();
    assert!(line.ends_with('\n'));
    let value: serde_json::Value = serde_json::from_str(&line).unwrap();
    let object = value.as_object().unwrap();
    assert_eq!(object.len(), 4);
    assert_eq!(object["parallelism"].as_u64(), Some(3));
    assert_eq!(object["page_size"].as_u64(), Some(u64::MAX));
    assert_eq!(object["elapsed"].as_str(), Some("340282366920938463463374607431768211455"));
    assert_eq!(object["rate"].as_str(), Some("0"));
}

#[test]
fn consume_projects_a_success() {
    let page = BlockRange::new(0, 9999).unwrap();
    let outcome = FetchOutcome::Success { page, log_count: 1000, elapsed_ms: 250 };
    let emission = consume(&config(10, 9999), outcome);
    assert_eq!(
        emission,
        Emission::Report(Report { parallelism: 10, page_width: 9999, elapsed_ms: 250, rate: 4 })
    );
    assert!(!emission.is_error());
    assert_eq!(
        emission.to_line(),
        "{\"elapsed\":\"250\",\"page_size\":9999,\"parallelism\":10,\"rate\":\"4\"}\n"
    );
}

#[test]
fn consume_guards_a_zero_time() {
    let page = BlockRange::new(0, 0).unwrap();
    let outcome = FetchOutcome::Success { page, log_count: 17, elapsed_ms: 0 };
    let emission = consume(&config(2, 1), outcome);
    assert_eq!(
        emission,
        Emission::Report(Report { parallelism: 2, page_width: 1, elapsed_ms: 0, rate: 0 })
    );
    assert_eq!(
        emission.to_line(),
        "{\"elapsed\":\"0\",\"page_size\":1,\"parallelism\":2,\"rate\":\"0\"}\n"
    );
}

#[test]
fn consume_projects_a_failure() {
    let page = BlockRange::new(10000, 19999).unwrap();
    let outcome = FetchOutcome::Failure { page, error: ErrorKind::RangeTooLarge };
    let emission = consume(&config(10, 9999), outcome);
    assert_eq!(emission, Emission::ErrorLine(ErrorLine { page, error: ErrorKind::RangeTooLarge }));
    assert!(emission.is_error());
    assert_eq!(
        emission.to_line(),
        "Got an error: block range too large in blocks 10000 to 19999\n"
    );
}

#[test]
fn consume_does_not_depend_on_order() {
    let first = FetchOutcome::Success {
        page: BlockRange::new(0, 4).unwrap(),
        log_count: 8,
        elapsed_ms: 2,
    };
    let second = FetchOutcome::Failure {
        page: BlockRange::new(5, 9).unwrap(),
        error: ErrorKind::Transport,
    };
    let run = config(4, 5);
    let a = (consume(&run, first), consume(&run, second));
    let b_second = consume(&run, second);
    let b_first = consume(&run, first);
    assert_eq!(a, (b_first, b_second));
}

#[test]
fn error_line_names_each_kind() {
    let page = BlockRange::new(0, 9).unwrap();
    let line = |error: ErrorKind| ErrorLine { page, error }.to_line();
    assert_eq!(line(ErrorKind::Connection), "Got an error: connection failed in blocks 0 to 9\n");
    assert_eq!(line(ErrorKind::Transport), "Got an error: transport failed in blocks 0 to 9\n");
    assert_eq!(
        line(ErrorKind::RangeTooLarge),
        "Got an error: block range too large in blocks 0 to 9\n"
    );
    assert_eq!(
        line(ErrorKind::MalformedResponse),
        "Got an error: malformed response in blocks 0 to 9\n"
    );
    assert_eq!(ErrorKind::Connection.words(), "connection failed");
}
