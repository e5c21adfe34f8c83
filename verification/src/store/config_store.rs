//! CONFIG GET and CONFIG SET on the running configuration.
use crate::config::{is_loglevel, loglevel_error, validate_loglevel, Config, ConfigModel};
use crate::text::{decimal, owned, parse_unsigned, parse_usize, str_eq, u64_to_string};
use vstd::prelude::*;

verus! {

/// The names that CONFIG GET knows, in the order `*` lists them.
pub open spec fn setting_names() -> Seq<Seq<char>> {
    seq!["host"@, "port"@, "password"@, "auth"@, "maxconnections"@, "loglevel"@, "monitor_buffer"@]
}

/// The value CONFIG GET shows for setting `name`.
pub open spec fn setting_value(c: ConfigModel, name: Seq<char>) -> Seq<char> {
    if name == "host"@ {
        c.host
    } else if name == "port"@ {
        decimal(c.port as nat)
    } else if name == "password"@ {
        match c.password {
            Some(p) => p,
            None => Seq::empty(),
        }
    } else if name == "auth"@ {
        if c.auth_enabled {
            "on"@
        } else {
            "off"@
        }
    } else if name == "maxconnections"@ {
        decimal(c.max_connections as nat)
    } else if name == "loglevel"@ {
        c.loglevel
    } else {
        decimal(c.monitor_buffer as nat)
    }
}

/// What CONFIG GET answers: the named setting with its value, every setting for
/// `*`, nothing for an unknown name.
pub open spec fn config_pairs(c: ConfigModel, key: Seq<char>) -> Seq<(Seq<char>, Seq<char>)> {
    if setting_names().contains(key) {
        seq![(key, setting_value(c, key))]
    } else if key == "*"@ {
        named_settings(c, setting_names())
    } else {
        Seq::empty()
    }
}

/// The settings `ns` with their values.
pub open spec fn named_settings(c: ConfigModel, ns: Seq<Seq<char>>) -> Seq<(Seq<char>, Seq<char>)> {
    Seq::new(ns.len(), |i: int| (ns[i], setting_value(c, ns[i])))
}

/// The views of a list of name/value pairs.
pub open spec fn pair_views(v: Seq<(String, String)>) -> Seq<(Seq<char>, Seq<char>)> {
    Seq::new(v.len(), |i: int| (v[i].0@, v[i].1@))
}

fn setting(cfg: &Config, name: &str) -> (r: (String, String))
    requires
        setting_names().contains(name@),
    ensures
        r.0@ == name@,
        r.1@ == setting_value(cfg@, name@),
{
    let value = if str_eq(name, "host") {
        cfg.host.clone()
    } else if str_eq(name, "port") {
        u64_to_string(cfg.port as u64)
    } else if str_eq(name, "password") {
        match &cfg.password {
            Some(p) => p.clone(),
            None => String::new(),
        }
    } else if str_eq(name, "auth") {
        if cfg.auth_enabled {
            owned("on")
        } else {
            owned("off")
        }
    } else if str_eq(name, "maxconnections") {
        u64_to_string(cfg.max_connections as u64)
    } else if str_eq(name, "loglevel") {
        cfg.loglevel.clone()
    } else {
        u64_to_string(cfg.monitor_buffer as u64)
    };
    (owned(name), value)
}

/// CONFIG GET `key` (see [`config_pairs`]).
pub fn config_get(cfg: &Config, key: &str) -> (r: Vec<(String, String)>)
    ensures
        pair_views(r@) == config_pairs(cfg@, key@),
{
    let names: [&str; 7] = ["host", "port", "password", "auth", "maxconnections", "loglevel", "monitor_buffer"];
    let ghost nv = setting_names();
    assert(names@.map_values(|s: &str| s@) =~= nv);
    let mut i: usize = 0;
    while i < 7
        invariant
            i <= 7,
            names@.map_values(|s: &str| s@) == nv,
            nv == setting_names(),
            forall|j: int| 0 <= j < i ==> nv[j] != key@,
        decreases 7 - i,
    {
        assert(names@[i as int]@ == nv[i as int]);
        if str_eq(names[i], key) {
            let mut r: Vec<(String, String)> = Vec::new();
            r.push(setting(cfg, names[i]));
            assert(pair_views(r@) =~= config_pairs(cfg@, key@));
            return r;
        }
        i = i + 1;
    }
    assert(!setting_names().contains(key@));
    let mut r: Vec<(String, String)> = Vec::new();
    if str_eq(key, "*") {
        let mut j: usize = 0;
        while j < 7
            invariant
                j <= 7,
                names@.map_values(|s: &str| s@) == nv,
                nv == setting_names(),
                pair_views(r@) == named_settings(cfg@, nv.take(j as int)),
            decreases 7 - j,
        {
            assert(names@[j as int]@ == nv[j as int]);
            let ghost prev = r@;
            assert(pair_views(prev).len() == j);
            let p = setting(cfg, names[j]);
            r.push(p);
            assert(r@ == prev.push(p));
            assert forall|k: int| 0 <= k < j implies #[trigger] pair_views(r@)[k] == pair_views(prev)[k] by {}
            assert(pair_views(r@) =~= named_settings(cfg@, nv.take(j + 1)));
            j = j + 1;
        }
        assert(nv.take(7) == nv);
    }
    assert(pair_views(r@) =~= config_pairs(cfg@, key@));
    r
}

/// The error CONFIG SET gives for `key` and `value`, if it refuses them.
pub open spec fn config_set_error(key: Seq<char>, value: Seq<char>) -> Option<Seq<char>> {
    if key == "port"@ || key == "host"@ {
        Some("cannot change port or host at runtime — they are bound at startup. Restart with new --port or --host"@)
    } else if key == "password"@ {
        None
    } else if key == "auth"@ {
        if value == "on"@ || value == "off"@ {
            None
        } else {
            Some("auth must be 'on' or 'off'"@)
        }
    } else if key == "maxconnections"@ {
        match parse_unsigned(value, usize::MAX as nat) {
            None => Some("invalid maxconnections '"@ + value + "' — must be a positive integer"@),
            Some(n) => if n == 0 {
                Some("maxconnections must be greater than 0"@)
            } else if n > 100_000 {
                Some("maxconnections cannot exceed 100000"@)
            } else {
                None
            },
        }
    } else if key == "loglevel"@ {
        if is_loglevel(value) {
            None
        } else {
            Some(loglevel_error(value))
        }
    } else if key == "monitor_buffer"@ {
        match parse_unsigned(value, usize::MAX as nat) {
            None => Some("invalid monitor_buffer '"@ + value + "' — must be a positive integer"@),
            Some(n) => if n == 0 {
                Some("monitor_buffer must be greater than 0"@)
            } else if n > 10_000 {
                Some("monitor_buffer cannot exceed 10000"@)
            } else {
                None
            },
        }
    } else {
        Some("unknown config key '"@ + key + "' — valid keys: password, maxconnections, loglevel, monitor_buffer"@)
    }
}

/// The configuration after an accepted CONFIG SET: a non-empty password turns
/// authentication on and an empty one turns it (and the password) off.
pub open spec fn config_after_set(c: ConfigModel, key: Seq<char>, value: Seq<char>) -> ConfigModel {
    if key == "password"@ {
        if value.len() == 0 {
            ConfigModel { password: None, auth_enabled: false, ..c }
        } else {
            ConfigModel { password: Some(value), auth_enabled: true, ..c }
        }
    } else if key == "auth"@ {
        ConfigModel { auth_enabled: value == "on"@, ..c }
    } else if key == "maxconnections"@ {
        ConfigModel { max_connections: parse_unsigned(value, usize::MAX as nat).unwrap() as usize, ..c }
    } else if key == "loglevel"@ {
        ConfigModel { loglevel: value, ..c }
    } else {
        ConfigModel { monitor_buffer: parse_unsigned(value, usize::MAX as nat).unwrap() as usize, ..c }
    }
}

fn set_error(msg: &str) -> (r: Result<(), String>)
    ensures
        r matches Err(e) && e@ == msg@,
{
    Err(owned(msg))
}

fn concat3(a: &str, b: &str, c: &str) -> (r: String)
    ensures
        r@ == a@ + b@ + c@,
{
    let mut s = owned(a);
    s.append(b);
    s.append(c);
    s
}

/// Checks a CONFIG SET request without changing anything.
pub fn validate_config_set(key: &str, value: &str) -> (r: Result<(), String>)
    ensures
        match r {
            Ok(()) => config_set_error(key@, value@) is None,
            Err(e) => config_set_error(key@, value@) == Some(e@),
        },
{
    if str_eq(key, "port") || str_eq(key, "host") {
        set_error("cannot change port or host at runtime — they are bound at startup. Restart with new --port or --host")
    } else if str_eq(key, "password") {
        Ok(())
    } else if str_eq(key, "auth") {
        if str_eq(value, "on") || str_eq(value, "off") {
            Ok(())
        } else {
            set_error("auth must be 'on' or 'off'")
        }
    } else if str_eq(key, "maxconnections") {
        match parse_usize(value) {
            None => Err(concat3("invalid maxconnections '", value, "' — must be a positive integer")),
            Some(n) => if n == 0 {
                set_error("maxconnections must be greater than 0")
            } else if n > 100_000 {
                set_error("maxconnections cannot exceed 100000")
            } else {
                Ok(())
            },
        }
    } else if str_eq(key, "loglevel") {
        validate_loglevel(value)
    } else if str_eq(key, "monitor_buffer") {
        match parse_usize(value) {
            None => Err(concat3("invalid monitor_buffer '", value, "' — must be a positive integer")),
            Some(n) => if n == 0 {
                set_error("monitor_buffer must be greater than 0")
            } else if n > 10_000 {
                set_error("monitor_buffer cannot exceed 10000")
            } else {
                Ok(())
            },
        }
    } else {
        Err(concat3("unknown config key '", key, "' — valid keys: password, maxconnections, loglevel, monitor_buffer"))
    }
}

/// CONFIG SET `key` `value`: refused values leave the configuration as it was.
pub fn config_set(cfg: &mut Config, key: &str, value: &str) -> (r: Result<(), String>)
    ensures
        match config_set_error(key@, value@) {
            Some(e) => r matches Err(x) && x@ == e && final(cfg)@ == old(cfg)@,
            None => r is Ok && final(cfg)@ == config_after_set(old(cfg)@, key@, value@),
        },
{
    match validate_config_set(key, value) {
        Err(e) => {
            return Err(e);
        },
        Ok(()) => {},
    }
    if str_eq(key, "password") {
        if value.is_empty() {
            cfg.password = None;
            cfg.auth_enabled = false;
        } else {
            cfg.password = Some(owned(value));
            cfg.auth_enabled = true;
        }
    } else if str_eq(key, "auth") {
        cfg.auth_enabled = str_eq(value, "on");
    } else if str_eq(key, "maxconnections") {
        match parse_usize(value) {
            Some(n) => cfg.max_connections = n,
            None => {},
        }
    } else if str_eq(key, "loglevel") {
        cfg.loglevel = owned(value);
    } else {
        match parse_usize(value) {
            Some(n) => cfg.monitor_buffer = n,
            None => {},
        }
    }
    Ok(())
}

/// CONFIG SET then CONFIG GET: an accepted value reads back under its name (a
/// number in its decimal form), and every other setting keeps its value.
pub proof fn lemma_config_get_reads_set(c: ConfigModel, key: Seq<char>, value: Seq<char>, other: Seq<char>)
    requires
        config_set_error(key, value) is None,
    ensures
        setting_names().contains(key),
        config_pairs(config_after_set(c, key, value), key) == seq![(key, setting_value(config_after_set(c, key, value), key))],
        (key == "password"@ || key == "auth"@ || key == "loglevel"@) ==> setting_value(config_after_set(c, key, value), key) == value,
        (key == "maxconnections"@ || key == "monitor_buffer"@) ==> setting_value(config_after_set(c, key, value), key)
            == decimal(parse_unsigned(value, usize::MAX as nat).unwrap()),
        setting_names().contains(other) && other != key && !(key == "password"@ && other == "auth"@) ==> setting_value(
            config_after_set(c, key, value),
            other,
        ) == setting_value(c, other),
{
    reveal_strlit("host");
    reveal_strlit("port");
    reveal_strlit("password");
    reveal_strlit("auth");
    reveal_strlit("maxconnections");
    reveal_strlit("loglevel");
    reveal_strlit("monitor_buffer");
    reveal_strlit("on");
    reveal_strlit("off");
    assert(setting_names()[2] == "password"@);
    assert(setting_names()[3] == "auth"@);
    assert(setting_names()[4] == "maxconnections"@);
    assert(setting_names()[5] == "loglevel"@);
    assert(setting_names()[6] == "monitor_buffer"@);
    assert("loglevel"@[0] != "password"@[0]);
    assert("maxconnections"@[1] != "monitor_buffer"@[1]);
}

/// CONFIG SET never changes what is bound at startup: the host, the port and
/// the configuration file's path.
pub proof fn lemma_config_set_keeps_address(c: ConfigModel, key: Seq<char>, value: Seq<char>)
    ensures
        config_after_set(c, key, value).host == c.host,
        config_after_set(c, key, value).port == c.port,
        config_after_set(c, key, value).conf_path == c.conf_path,
{
}

} // verus!
