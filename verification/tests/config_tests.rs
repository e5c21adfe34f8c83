use jedis::config::{validate_loglevel, CliArgs, ConfFile, Config};
use jedis::store::config_store::{config_get, config_set, validate_config_set};

fn cli() -> CliArgs {
    CliArgs {
        host: "127.0.0.1".to_string(),
        port: 6379,
        password: None,
        max_connections: 100,
        loglevel: "info".to_string(),
        monitor_buffer: 100,
        conf: "jedis.conf".to_string(),
    }
}

fn pairs(v: &[(&str, &str)]) -> Vec<(String, String)> {
    v.iter().map(|(a, b)| (a.to_string(), b.to_string())).collect()
}

#[test]
fn loglevel_validation() {
    for l in ["debug", "info", "warn", "error"] {
        assert_eq!(validate_loglevel(l), Ok(()));
    }
    assert_eq!(
        validate_loglevel("loud"),
        Err("invalid loglevel 'loud' — must be debug, info, warn or error".to_string())
    );
    assert!(validate_loglevel("INFO").is_err());
}

#[test]
fn conf_file_settings_are_read() {
    let text = "# comment\n\n  password   s3cret  \nauth on\nmaxconnections 50\r\nloglevel warn\nmonitor_buffer 7\nhost 0.0.0.0\nport 1\nflag\n";
    let (r, unknown) = ConfFile::parse(text);
    let cf = r.unwrap();
    assert!(unknown.is_empty());
    assert_eq!(cf.password, Some("s3cret".to_string()));
    assert_eq!(cf.auth_enabled, Some(true));
    assert_eq!(cf.max_connections, Some(50));
    assert_eq!(cf.loglevel, Some("warn".to_string()));
    assert_eq!(cf.monitor_buffer, Some(7));
}

#[test]
fn conf_file_unknown_keys_are_reported_and_skipped() {
    let (r, unknown) = ConfFile::parse("colour blue\nauth off\nsize 3\n");
    let cf = r.unwrap();
    assert_eq!(unknown, vec!["colour".to_string(), "size".to_string()]);
    assert_eq!(cf.auth_enabled, Some(false));
    assert_eq!(cf.password, None);
}

#[test]
fn conf_file_errors_stop_reading() {
    let (r, unknown) = ConfFile::parse("odd 1\nauth maybe\nother 2\n");
    assert_eq!(r.err(), Some("invalid auth value 'maybe' -- must be on or off".to_string()));
    assert_eq!(unknown, vec!["odd".to_string()]);
    let (r, _) = ConfFile::parse("maxconnections -3\n");
    assert_eq!(r.err(), Some("invalid maxconnections in conf: -3".to_string()));
    let (r, _) = ConfFile::parse("monitor_buffer x\n");
    assert_eq!(r.err(), Some("invalid monitor_buffer in conf: x".to_string()));
    let (r, _) = ConfFile::parse("loglevel chatty\n");
    assert_eq!(r.err(), Some("invalid loglevel 'chatty' — must be debug, info, warn or error".to_string()));
}

#[test]
fn conf_file_password_without_value_is_skipped() {
    let (r, _) = ConfFile::parse("password abc\npassword\npassword  \n");
    // "password" without a value is skipped; "password  " trims to the same
    assert_eq!(r.unwrap().password, Some("abc".to_string()));
}

#[test]
fn command_line_wins_over_file_where_it_departs_from_defaults() {
    let (r, _) = ConfFile::parse("password filepw\nauth on\nmaxconnections 5\nloglevel error\nmonitor_buffer 9\n");
    let mut args = cli();
    args.max_connections = 7;
    args.password = Some("clipw".to_string());
    let c = Config::new(args, r.unwrap());
    assert_eq!(c.password, Some("clipw".to_string()));
    assert!(c.auth_enabled);
    assert_eq!(c.max_connections, 7);
    assert_eq!(c.loglevel, "error");
    assert_eq!(c.monitor_buffer, 9);
    assert_eq!(c.address(), "127.0.0.1:6379");
}

#[test]
fn defaults_without_a_file() {
    let c = Config::new(cli(), ConfFile::empty());
    assert_eq!(c.password, None);
    assert!(!c.auth_enabled);
    assert_eq!(c.max_connections, 100);
    assert_eq!(c.loglevel, "info");
    assert_eq!(c.monitor_buffer, 100);
    assert_eq!(c.conf_path, "jedis.conf");
}

#[test]
fn conf_text_layout() {
    let mut c = Config::new(cli(), ConfFile::empty());
    c.password = Some("pw".to_string());
    c.auth_enabled = true;
    assert_eq!(
        c.conf_text(),
        "# jedis configuration\n# do not edit while server is running — use CONFIG SET + CONFIG REWRITE\n\nhost 127.0.0.1\nport 6379\npassword pw\nauth on\nmaxconnections 100\nloglevel info\nmonitor_buffer 100\n"
    );
}

#[test]
fn conf_text_reads_back() {
    let mut c = Config::new(cli(), ConfFile::empty());
    config_set(&mut c, "password", "pw").unwrap();
    config_set(&mut c, "maxconnections", "42").unwrap();
    config_set(&mut c, "loglevel", "warn").unwrap();
    let (r, unknown) = ConfFile::parse(&c.conf_text());
    let cf = r.unwrap();
    assert!(unknown.is_empty());
    assert_eq!(cf.password, Some("pw".to_string()));
    assert_eq!(cf.auth_enabled, Some(true));
    assert_eq!(cf.max_connections, Some(42));
    assert_eq!(cf.loglevel, Some("warn".to_string()));
    assert_eq!(cf.monitor_buffer, Some(100));
    let restarted = Config::new(cli(), cf);
    assert_eq!(restarted.password, c.password);
    assert_eq!(restarted.auth_enabled, c.auth_enabled);
    assert_eq!(restarted.max_connections, c.max_connections);
    assert_eq!(restarted.loglevel, c.loglevel);
    assert_eq!(restarted.monitor_buffer, c.monitor_buffer);
}

#[test]
fn config_get_names_and_star() {
    let c = Config::new(cli(), ConfFile::empty());
    assert_eq!(config_get(&c, "maxconnections"), pairs(&[("maxconnections", "100")]));
    assert_eq!(config_get(&c, "password"), pairs(&[("password", "")]));
    assert_eq!(config_get(&c, "nope"), pairs(&[]));
    assert_eq!(
        config_get(&c, "*"),
        pairs(&[
            ("host", "127.0.0.1"),
            ("port", "6379"),
            ("password", ""),
            ("auth", "off"),
            ("maxconnections", "100"),
            ("loglevel", "info"),
            ("monitor_buffer", "100"),
        ])
    );
}

#[test]
fn config_set_then_get_reads_back() {
    let mut c = Config::new(cli(), ConfFile::empty());
    assert_eq!(config_set(&mut c, "loglevel", "debug"), Ok(()));
    assert_eq!(config_get(&c, "loglevel"), pairs(&[("loglevel", "debug")]));
    assert_eq!(config_set(&mut c, "monitor_buffer", "+0500"), Ok(()));
    assert_eq!(config_get(&c, "monitor_buffer"), pairs(&[("monitor_buffer", "500")]));
    assert_eq!(config_set(&mut c, "password", "pw"), Ok(()));
    assert_eq!(config_get(&c, "auth"), pairs(&[("auth", "on")]));
    assert_eq!(config_set(&mut c, "password", ""), Ok(()));
    assert_eq!(c.password, None);
    assert!(!c.auth_enabled);
    assert_eq!(config_set(&mut c, "auth", "on"), Ok(()));
    assert!(c.auth_enabled);
    // what is bound at startup stays
    assert_eq!(c.host, "127.0.0.1");
    assert_eq!(c.port, 6379);
    assert_eq!(c.conf_path, "jedis.conf");
}

#[test]
fn config_set_refusals_change_nothing() {
    let mut c = Config::new(cli(), ConfFile::empty());
    let cases = [
        ("host", "x", "cannot change port or host at runtime — they are bound at startup. Restart with new --port or --host"),
        ("auth", "yes", "auth must be 'on' or 'off'"),
        ("maxconnections", "many", "invalid maxconnections 'many' — must be a positive integer"),
        ("maxconnections", "0", "maxconnections must be greater than 0"),
        ("maxconnections", "100001", "maxconnections cannot exceed 100000"),
        ("loglevel", "trace", "invalid loglevel 'trace' — must be debug, info, warn or error"),
        ("monitor_buffer", "-1", "invalid monitor_buffer '-1' — must be a positive integer"),
        ("monitor_buffer", "0", "monitor_buffer must be greater than 0"),
        ("monitor_buffer", "10001", "monitor_buffer cannot exceed 10000"),
        ("colour", "red", "unknown config key 'colour' — valid keys: password, maxconnections, loglevel, monitor_buffer"),
    ];
    for (k, v, e) in cases {
        assert_eq!(config_set(&mut c, k, v), Err(e.to_string()));
    }
    assert_eq!(c.max_connections, 100);
    assert_eq!(c.monitor_buffer, 100);
    assert_eq!(c.loglevel, "info");
    assert!(!c.auth_enabled);
}

#[test]
fn config_set_validation_alone() {
    assert_eq!(validate_config_set("password", ""), Ok(()));
    assert_eq!(validate_config_set("auth", "off"), Ok(()));
    assert_eq!(validate_config_set("maxconnections", "100000"), Ok(()));
    assert_eq!(validate_config_set("monitor_buffer", "10000"), Ok(()));
    assert_eq!(validate_config_set("loglevel", "warn"), Ok(()));
    assert_eq!(validate_config_set("auth", "ON"), Err("auth must be 'on' or 'off'".to_string()));
    assert_eq!(
        validate_config_set("port", "1"),
        Err("cannot change port or host at runtime — they are bound at startup. Restart with new --port or --host".to_string())
    );
}

#[test]
fn conf_text_with_a_multi_line_host() {
    let mut c = Config::new(cli(), ConfFile::empty());
    c.host = "h\n# note\nport 1\nauth on\nodd 2".to_string();
    let (r, unknown) = ConfFile::parse(&c.conf_text());
    let cf = r.unwrap();
    assert_eq!(unknown, vec!["odd".to_string()]);
    assert_eq!(cf.auth_enabled, Some(false));
    assert_eq!(cf.max_connections, Some(100));
    assert_eq!(cf.password, None);
    c.host = "h\nauth maybe".to_string();
    assert!(ConfFile::parse(&c.conf_text()).0.is_err());
    c.host = "h\npassword sneaky".to_string();
    assert_eq!(ConfFile::parse(&c.conf_text()).0.unwrap().password, Some("sneaky".to_string()));
}

#[test]
fn ignored_lines_change_nothing() {
    let base = "password pw\nmaxconnections 7\n";
    let with_extra = "# c\npassword pw\n\n  host x\nnospace\nport 9\nmaxconnections 7\nwhatever 1\n";
    let a = ConfFile::parse(base).0.unwrap();
    let b = ConfFile::parse(with_extra).0.unwrap();
    assert_eq!(a.password, b.password);
    assert_eq!(a.max_connections, b.max_connections);
    assert_eq!(a.auth_enabled, b.auth_enabled);
    assert_eq!(a.loglevel, b.loglevel);
    assert_eq!(a.monitor_buffer, b.monitor_buffer);
    let bad = "auth maybe\n";
    let bad_extra = "# first\nauth maybe\nmystery 3\n";
    assert_eq!(ConfFile::parse(bad).0.err(), ConfFile::parse(bad_extra).0.err());
}
