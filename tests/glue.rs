use icinga_passive_checks::config::{build_config, config_candidates, ConfigError, RawConfig, RawPing};
use icinga_passive_checks::control::{command_response, manual_check_result, parse_command};
use icinga_passive_checks::systemd::generate_unit_content;
use icinga_passive_checks::update::{asset_name, find_asset, tag_version, ubuntu_release, update_available, update_message};

fn s(t: &str) -> Option<String> {
    Some(t.to_string())
}

fn raw() -> RawConfig {
    RawConfig {
        has_icinga: true,
        api_url: s("https://icinga:5665/v1/actions/process-check-result"),
        api_user: s("agent"),
        api_password: s("SECRET-REDACTED"),
        debug: None,
        pings: Some(vec![RawPing { name: s("gw"), host: s("10.0.0.1") }]),
        sleep_duration: None,
    }
}

#[test]
fn unit_file_has_three_sections() {
    let u = generate_unit_content("Icinga2 Passive Checks Service", "/usr/bin/agent");
    assert!(u.starts_with("[Unit]\nDescription=Icinga2 Passive Checks Service\n"));
    assert!(u.contains("\n\n[Service]\nExecStart=/usr/bin/agent --daemon\nDynamicUser=true\n"));
    assert!(u.contains("RuntimeDirectory=icinga_passive_checks\n\n[Install]\n"));
    assert!(u.ends_with("WantedBy=multi-user.target"));
}

#[test]
fn config_defaults_are_filled_in() {
    let c = build_config("config.toml".to_string(), raw()).ok().unwrap();
    assert_eq!(c.config_path, "config.toml");
    assert!(!c.debug);
    assert_eq!(c.sleep_duration, 60);
    assert_eq!(c.pings.len(), 1);
    assert_eq!(c.pings[0].host, "10.0.0.1");
}

#[test]
fn config_values_are_kept() {
    let mut r = raw();
    r.debug = Some(true);
    r.sleep_duration = Some(30);
    let c = build_config("x".to_string(), r).ok().unwrap();
    assert!(c.debug);
    assert_eq!(c.sleep_duration, 30);
    let mut r = raw();
    r.sleep_duration = Some(-1);
    assert_eq!(build_config("x".to_string(), r).ok().unwrap().sleep_duration, u64::MAX);
    let mut r = raw();
    r.sleep_duration = Some(i64::MIN);
    assert_eq!(build_config("x".to_string(), r).ok().unwrap().sleep_duration, 1u64 << 63);
}

#[test]
fn config_errors_come_in_order() {
    let mut r = raw();
    r.has_icinga = false;
    r.api_url = None;
    assert_eq!(build_config("x".to_string(), r).err(), Some(ConfigError::MissingIcingaSection));
    let mut r = raw();
    r.api_url = None;
    r.api_user = None;
    assert_eq!(build_config("x".to_string(), r).err(), Some(ConfigError::MissingApiUrl));
    let mut r = raw();
    r.api_user = None;
    assert_eq!(build_config("x".to_string(), r).err(), Some(ConfigError::MissingApiUser));
    let mut r = raw();
    r.api_password = None;
    assert_eq!(build_config("x".to_string(), r).err(), Some(ConfigError::MissingApiPassword));
    let mut r = raw();
    r.pings = Some(vec![RawPing { name: s("a"), host: None }, RawPing { name: None, host: None }]);
    assert_eq!(build_config("x".to_string(), r).err(), Some(ConfigError::MissingPingHost));
    let mut r = raw();
    r.pings = Some(vec![RawPing { name: None, host: None }]);
    let e = build_config("x".to_string(), r).err().unwrap();
    assert_eq!(e, ConfigError::MissingPingName);
    assert_eq!(e.message(), "Error: Missing 'name' in a ping section");
}

#[test]
fn config_paths_in_order() {
    assert_eq!(
        config_candidates(Some("/home/a")),
        vec![
            "config.toml".to_string(),
            "/home/a/.icinga_passive_checks.toml".to_string(),
            "/home/a/.config/icinga_passive_checks.toml".to_string(),
            "/etc/icinga_passive_checks.toml".to_string(),
        ]
    );
    assert_eq!(config_candidates(None).len(), 2);
}

#[test]
fn report_command_is_read() {
    let m = parse_command("  report|web1|backup|1|backup is late\n").unwrap();
    assert_eq!(m.check_source, "web1");
    assert_eq!(m.check_name, "backup");
    assert_eq!(m.exit_status, "1");
    assert_eq!(m.plugin_output, "backup is late");
    let r = manual_check_result(&m);
    assert_eq!(r.exit_status.as_deref(), Some("1"));
    assert!(r.performance_data.is_none());
    assert_eq!(command_response(&Some(m)), "report sent");
}

#[test]
fn other_commands_are_unknown() {
    for c in ["status", "report|a|b|c", "report|a|b|c|d|e", "Report|a|b|c|d", ""] {
        let r = parse_command(c);
        assert!(r.is_none());
        assert!(command_response(&r).starts_with("unknown command"));
    }
}

#[test]
fn update_versions_compare_without_v() {
    assert_eq!(tag_version("vv1.2.0"), "1.2.0");
    assert!(!update_available("1.2.0", "v1.2.0"));
    assert!(update_available("1.1.0", "v1.2.0"));
    assert_eq!(update_message("1.1.0", "v1.2.0"), "Update available: v1.1.0 -> v1.2.0");
    assert_eq!(update_message("1.2.0", "1.2.0"), "Up to date");
}

#[test]
fn lsb_release_is_read() {
    let c = "DISTRIB_ID=Ubuntu\r\nDISTRIB_RELEASE=22.04\r\nDISTRIB_CODENAME=jammy\n";
    assert_eq!(ubuntu_release(c).as_deref(), Some("22.04"));
    assert_eq!(ubuntu_release("DISTRIB_ID=Debian\nDISTRIB_RELEASE=12\n"), None);
    assert_eq!(ubuntu_release("DISTRIB_ID=Ubuntu\n"), None);
    assert_eq!(ubuntu_release("DISTRIB_RELEASE=20.04=x\nDISTRIB_ID=Ubuntu"), Some("20.04".to_string()));
    assert_eq!(ubuntu_release(""), None);
}

#[test]
fn assets_are_found_by_name() {
    let names = vec!["a".to_string(), asset_name("22.04"), asset_name("22.04")];
    assert_eq!(names[1], "icinga_passive_checks.x86_64-ubuntu22.04");
    assert_eq!(find_asset(&names, "icinga_passive_checks.x86_64-ubuntu22.04"), Some(1));
    assert_eq!(find_asset(&names, "b"), None);
}
