use icinga_passive_checks::decimal::Decimal;
use icinga_passive_checks::pings::{format_ping_result, parse_ping_metrics, ping_host, PingMetrics};

fn as_f64(d: &Decimal) -> f64 {
    d.mantissa as f64 / 10f64.powi(d.scale as i32)
}

fn mock_ping_success() -> String {
    r#"PING google.com (142.250.74.78) 56(84) bytes of data.
64 bytes from 142.250.74.78: icmp_seq=1 ttl=116 time=4.88 ms
64 bytes from 142.250.74.78: icmp_seq=2 ttl=116 time=4.75 ms
64 bytes from 142.250.74.78: icmp_seq=3 ttl=116 time=4.82 ms
64 bytes from 142.250.74.78: icmp_seq=4 ttl=116 time=4.80 ms

--- google.com ping statistics ---
4 packets transmitted, 4 received, 0% packet loss, time 3004ms
rtt min/avg/max/mdev = 4.752/4.812/4.876/0.047 ms"#
        .to_string()
}

fn mock_ping_failure() -> String {
    r#"PING invalid.host (1.2.3.4) 56(84) bytes of data.

--- invalid.host ping statistics ---
4 packets transmitted, 0 received, 100% packet loss, time 3004ms"#
        .to_string()
}

fn mock_ping_partial_loss() -> String {
    r#"PING partial.host (1.2.3.4) 56(84) bytes of data.
64 bytes from 1.2.3.4: icmp_seq=1 ttl=116 time=4.88 ms
64 bytes from 1.2.3.4: icmp_seq=4 ttl=116 time=4.80 ms

--- partial.host ping statistics ---
4 packets transmitted, 2 received, 50% packet loss, time 3004ms
rtt min/avg/max/mdev = 4.752/4.812/4.876/0.047 ms"#
        .to_string()
}

fn mock_ping_malformed() -> String {
    "Invalid ping output".to_string()
}

#[test]
fn test_parse_ping_metrics() {
    let metrics = parse_ping_metrics(&mock_ping_success());
    assert_eq!(as_f64(&metrics.packet_loss), 0.0);
    assert!(as_f64(&metrics.rtt_avg) > 0.0);
}

#[test]
fn test_ping_success() {
    let result = format_ping_result(&parse_ping_metrics(&mock_ping_success()));
    assert_eq!(result.exit_status.as_deref().unwrap(), "0");
    assert!(result.plugin_output.as_deref().unwrap().contains("PING OK"));
    assert!(result.performance_data.as_deref().unwrap().contains("pl=0%"));
}

#[test]
fn test_ping_failure() {
    let result = format_ping_result(&parse_ping_metrics(&mock_ping_failure()));
    assert_eq!(result.exit_status.as_deref().unwrap(), "2");
    assert!(result.plugin_output.as_deref().unwrap().contains("PING CRITICAL"));
    assert!(result.performance_data.as_deref().unwrap().contains("pl=100%"));
}

#[test]
fn test_parse_ping_metrics_success() {
    let metrics = parse_ping_metrics(&mock_ping_success());
    assert_eq!(as_f64(&metrics.packet_loss), 0.0);
    assert_eq!(metrics.time, 3004);
    assert_eq!(as_f64(&metrics.rtt_min), 4.752);
    assert_eq!(as_f64(&metrics.rtt_avg), 4.812);
    assert_eq!(as_f64(&metrics.rtt_max), 4.876);
    assert_eq!(as_f64(&metrics.rtt_mdev), 0.047);
}

#[test]
fn test_parse_ping_metrics_failure() {
    let metrics = parse_ping_metrics(&mock_ping_failure());
    assert_eq!(as_f64(&metrics.packet_loss), 100.0);
    assert_eq!(as_f64(&metrics.rtt_min), 10000.0);
    assert_eq!(metrics.time, 3004);
}

#[test]
fn test_parse_ping_metrics_partial_loss() {
    let metrics = parse_ping_metrics(&mock_ping_partial_loss());
    assert_eq!(as_f64(&metrics.packet_loss), 50.0);
    assert!(as_f64(&metrics.rtt_avg) > 0.0);
}

#[test]
fn test_parse_ping_metrics_malformed() {
    let metrics = parse_ping_metrics(&mock_ping_malformed());
    assert_eq!(as_f64(&metrics.packet_loss), 100.0);
    assert_eq!(metrics.time, 0);
    assert_eq!(as_f64(&metrics.rtt_min), 10000.0);
}

#[test]
fn empty_output_gives_exact_defaults() {
    let m = parse_ping_metrics("");
    assert_eq!(m.packet_loss, Decimal { mantissa: 100, scale: 0 });
    assert_eq!(m.time, 0);
    for d in [m.rtt_min, m.rtt_avg, m.rtt_max, m.rtt_mdev] {
        assert_eq!(d, Decimal { mantissa: 10000, scale: 0 });
    }
}

#[test]
fn statistics_lines_give_exact_metrics_and_tokens() {
    let out = "4 packets transmitted, 4 received, 0% packet loss, time 3004ms\nrtt min/avg/max/mdev = 4.752/4.812/4.876/0.047 ms";
    let m = parse_ping_metrics(out);
    assert_eq!(m.packet_loss, Decimal { mantissa: 0, scale: 0 });
    assert_eq!(m.time, 3004);
    assert_eq!(m.rtt_min, Decimal { mantissa: 4752, scale: 3 });
    assert_eq!(m.rtt_avg, Decimal { mantissa: 4812, scale: 3 });
    assert_eq!(m.rtt_max, Decimal { mantissa: 4876, scale: 3 });
    assert_eq!(m.rtt_mdev, Decimal { mantissa: 47, scale: 3 });
    let r = format_ping_result(&m);
    assert_eq!(r.exit_status.as_deref(), Some("0"));
    let perf = r.performance_data.unwrap();
    assert!(perf.split(',').any(|t| t == "pl=0%;80;100;0"));
    assert_eq!(
        perf,
        "rtavg=4.812ms;3000;5000;0,rtmin=4.752ms;3000;5000;0,rtmax=4.876ms;3000;5000;0,rtdev=0.047ms;3000;5000;0,pl=0%;80;100;0,time=3004ms;8500;10000;0"
    );
    assert_eq!(r.plugin_output.as_deref(), Some("PING OK - Packet loss = 0% AVG = 4.812ms"));
}

#[test]
fn half_loss_is_critical() {
    let m = parse_ping_metrics(&mock_ping_partial_loss());
    let r = format_ping_result(&m);
    assert_eq!(r.exit_status.as_deref(), Some("2"));
    assert_eq!(
        r.plugin_output.as_deref(),
        Some("PING CRITICAL - Packet loss = 50% AVG = 4.812ms")
    );
}

#[test]
fn no_loss_line_is_critical_with_defaults_in_tokens() {
    let r = format_ping_result(&parse_ping_metrics("no statistics here"));
    assert_eq!(r.exit_status.as_deref(), Some("2"));
    assert_eq!(
        r.performance_data.as_deref(),
        Some("rtavg=10000ms;3000;5000;0,rtmin=10000ms;3000;5000;0,rtmax=10000ms;3000;5000;0,rtdev=10000ms;3000;5000;0,pl=100%;80;100;0,time=0ms;8500;10000;0")
    );
}

#[test]
fn first_loss_figure_counts() {
    let m = parse_ping_metrics("5% packet loss then 0% packet loss");
    assert_eq!(m.packet_loss, Decimal { mantissa: 5, scale: 0 });
    let m = parse_ping_metrics("x 10% packet loss");
    assert_eq!(m.packet_loss, Decimal { mantissa: 10, scale: 0 });
}

#[test]
fn unreadable_rtt_field_takes_default() {
    let m = parse_ping_metrics("rtt min/avg/max/mdev = 1.2.3/2.5/./4. ms");
    assert_eq!(m.rtt_min, Decimal { mantissa: 10000, scale: 0 });
    assert_eq!(m.rtt_avg, Decimal { mantissa: 25, scale: 1 });
    assert_eq!(m.rtt_max, Decimal { mantissa: 10000, scale: 0 });
    assert_eq!(m.rtt_mdev, Decimal { mantissa: 4, scale: 0 });
}

#[test]
fn time_beyond_i32_reads_as_zero() {
    assert_eq!(parse_ping_metrics("time 2147483648ms").time, 0);
    assert_eq!(parse_ping_metrics("time 2147483647ms").time, 2147483647);
}

#[test]
fn decimal_text_drops_trailing_zeros() {
    assert_eq!(Decimal { mantissa: 47520, scale: 4 }.to_text(), "4.752");
    assert_eq!(Decimal { mantissa: 5, scale: 1 }.to_text(), "0.5");
    assert_eq!(Decimal { mantissa: 1000, scale: 3 }.to_text(), "1");
    assert_eq!(Decimal { mantissa: 7, scale: 4 }.to_text(), "0.0007");
    assert_eq!(Decimal { mantissa: 0, scale: 2 }.to_text(), "0");
    assert_eq!(Decimal::whole(10000).to_text(), "10000");
}

#[test]
fn negative_time_prints_with_sign() {
    let m = PingMetrics {
        packet_loss: Decimal::whole(0),
        time: -12,
        rtt_min: Decimal::whole(1),
        rtt_avg: Decimal::whole(1),
        rtt_max: Decimal::whole(1),
        rtt_mdev: Decimal::whole(0),
    };
    let r = format_ping_result(&m);
    assert!(r.performance_data.unwrap().ends_with("time=-12ms;8500;10000;0"));
}

#[test]
fn ping_host_builds_the_payload() {
    let p = ping_host("agent1", "google", &mock_ping_success());
    assert_eq!(p.kind, "Service");
    assert_eq!(p.filter, "host.name==\"agent1\" && service.name==\"Passive Ping: google\"");
    assert_eq!(p.exit_status, 0);
    assert_eq!(p.check_source, "agent1");
    assert_eq!(p.performance_data.len(), 6);
    assert_eq!(p.performance_data[4], "pl=0%;80;100;0");
    let p = ping_host("agent1", "down", &mock_ping_failure());
    assert_eq!(p.exit_status, 2);
}

#[test]
fn fractional_loss_is_read_whole() {
    let out = "8 packets transmitted, 7 received, 12.5% packet loss, time 7010ms";
    let m = parse_ping_metrics(out);
    assert_eq!(m.packet_loss, Decimal { mantissa: 125, scale: 1 });
    assert_eq!(as_f64(&m.packet_loss), 12.5);
    assert_eq!(m.time, 7010);
    let r = format_ping_result(&m);
    assert_eq!(r.exit_status.as_deref(), Some("2"));
    let perf = r.performance_data.unwrap();
    assert!(perf.split(',').any(|t| t == "pl=12.5%;80;100;0"));
    assert!(r.plugin_output.unwrap().starts_with("PING CRITICAL - Packet loss = 12.5% AVG"));
}

#[test]
fn unreadable_loss_figure_counts_as_total_loss() {
    let m = parse_ping_metrics("1.2.3% packet loss");
    assert_eq!(m.packet_loss, Decimal { mantissa: 100, scale: 0 });
    let m = parse_ping_metrics(".5% packet loss");
    assert_eq!(m.packet_loss, Decimal { mantissa: 5, scale: 1 });
}

#[test]
fn long_fractions_keep_their_value() {
    let m = parse_ping_metrics(
        "rtt min/avg/max/mdev = 4.7520000000000000000000/0.12345678901234567890123/10.5/0.047 ms",
    );
    assert_eq!(m.rtt_min.to_text(), "4.752");
    assert_eq!(as_f64(&m.rtt_min), 4.752);
    assert_eq!(m.rtt_avg.to_text(), "0.1234567890123456789");
    assert_eq!(as_f64(&m.rtt_max), 10.5);
    let m = parse_ping_metrics("33.3333333333333333333333333% packet loss");
    assert!(m.packet_loss.to_text().starts_with("33.33333333333333333"));
}

#[test]
fn whole_part_beyond_64_bits_takes_default() {
    let m = parse_ping_metrics("rtt min/avg/max/mdev = 123456789012345678901234/1/1/1 ms");
    assert_eq!(m.rtt_min, Decimal { mantissa: 10000, scale: 0 });
    assert_eq!(m.rtt_avg, Decimal { mantissa: 1, scale: 0 });
}
