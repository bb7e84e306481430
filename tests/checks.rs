use icinga_passive_checks::checks::{format_check_payload, parse_int, parse_performance_data, CheckResult};
use icinga_passive_checks::report::submission_report;

fn result(exit: Option<&str>, out: Option<&str>, perf: Option<&str>) -> CheckResult {
    CheckResult {
        exit_status: exit.map(|s| s.to_string()),
        plugin_output: out.map(|s| s.to_string()),
        performance_data: perf.map(|s| s.to_string()),
    }
}

#[test]
fn payload_fields_are_mapped() {
    let r = result(Some("1"), Some("disk low"), Some(" a=1;2;3;0 , b=2;3;4;0"));
    let p = format_check_payload("web1", "Passive Command", "disk", &r);
    assert_eq!(p.kind, "Service");
    assert_eq!(p.filter, "host.name==\"web1\" && service.name==\"Passive Command: disk\"");
    assert_eq!(p.exit_status, 1);
    assert_eq!(p.plugin_output, "disk low");
    assert_eq!(p.performance_data, vec!["a=1;2;3;0".to_string(), "b=2;3;4;0".to_string()]);
    assert_eq!(p.check_source, "web1");
}

#[test]
fn missing_fields_take_defaults() {
    let p = format_check_payload("h", "t", "n", &result(None, None, None));
    assert_eq!(p.exit_status, 3);
    assert_eq!(p.plugin_output, "No output provided");
    assert!(p.performance_data.is_empty());
}

#[test]
fn unreadable_status_is_unknown() {
    for s in ["", "x", "+", "-", "1.0", "2147483648", " 1"] {
        let p = format_check_payload("h", "t", "n", &result(Some(s), None, None));
        assert_eq!(p.exit_status, 3, "{s}");
    }
}

#[test]
fn status_text_reads_as_i32() {
    assert_eq!(parse_int("0"), Some(0));
    assert_eq!(parse_int("+2"), Some(2));
    assert_eq!(parse_int("-2147483648"), Some(i32::MIN));
    assert_eq!(parse_int("2147483647"), Some(i32::MAX));
    assert_eq!(parse_int("-2147483649"), None);
    assert_eq!(parse_int("007"), Some(7));
}

#[test]
fn performance_round_trip_keeps_tokens() {
    let tokens = ["rtavg=1ms;3000;5000;0", "  pl=0%;80;100;0\t", "", "time=3ms;8500;10000;0"];
    let joined = tokens.join(",");
    let parsed = parse_performance_data(Some(&joined));
    let expected: Vec<String> = tokens.iter().map(|t| t.trim().to_string()).collect();
    assert_eq!(parsed, expected);
}

#[test]
fn performance_split_edge_cases() {
    assert_eq!(parse_performance_data(None), Vec::<String>::new());
    assert_eq!(parse_performance_data(Some(&String::new())), vec![String::new()]);
    assert_eq!(
        parse_performance_data(Some(&"a,,b,".to_string())),
        vec!["a".to_string(), String::new(), "b".to_string(), String::new()]
    );
    assert_eq!(parse_performance_data(Some(&"\u{3000}x\u{a0}".to_string())), vec!["x".to_string()]);
}

#[test]
fn server_error_is_reported_in_full() {
    let payload = "{\n  \"type\": \"Service\"\n}";
    let lines = submission_report("web1", "ping", "8.8.8.8", 500, "Internal Server Error", "server error", payload);
    assert_eq!(lines.len(), 4);
    assert!(lines[0].starts_with("Failed to send passive check result"));
    assert_eq!(lines[1], "Status: 500 Internal Server Error");
    assert_eq!(lines[2], "Response body: server error");
    assert_eq!(lines[3], format!("Request data was: {payload}"));
}

#[test]
fn accepted_submission_is_one_line() {
    let lines = submission_report("web1", "ping", "8.8.8.8", 200, "OK", "", "{}");
    assert_eq!(
        lines,
        vec!["Successfully sent passive check result for host web1 check ping host 8.8.8.8".to_string()]
    );
}

#[test]
fn status_without_reason_is_the_code_alone() {
    let lines = submission_report("h", "c", "x", 599, "", "", "{}");
    assert_eq!(lines[1], "Status: 599");
}
