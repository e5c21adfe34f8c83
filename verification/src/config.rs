//! Server configuration: the values read at startup (command line and
//! configuration file), how they are merged, and the configuration file's text.
use crate::text::{
    chars_of, decimal, find_char, find_char_in, lines, owned, parse_unsigned, parse_unsigned_chars,
    push_decimal, str_eq, string_of, trim, trim_bounds,
};
use vstd::prelude::*;

verus! {

/// The configuration the server runs with.
#[derive(Debug, Clone)]
pub struct Config {
    // set once at startup
    pub host: String,
    pub port: u16,
    pub conf_path: String,
    // may change at runtime through CONFIG SET
    pub password: Option<String>,
    pub auth_enabled: bool,
    pub max_connections: usize,
    pub loglevel: String,
    pub monitor_buffer: usize,
}

/// The model of a configuration.
pub struct ConfigModel {
    pub host: Seq<char>,
    pub port: u16,
    pub conf_path: Seq<char>,
    pub password: Option<Seq<char>>,
    pub auth_enabled: bool,
    pub max_connections: usize,
    pub loglevel: Seq<char>,
    pub monitor_buffer: usize,
}

/// The view of an optional string.
pub open spec fn opt_view(o: Option<String>) -> Option<Seq<char>> {
    match o {
        Some(s) => Some(s@),
        None => None,
    }
}

impl View for Config {
    type V = ConfigModel;

    open spec fn view(&self) -> ConfigModel {
        ConfigModel {
            host: self.host@,
            port: self.port,
            conf_path: self.conf_path@,
            password: opt_view(self.password),
            auth_enabled: self.auth_enabled,
            max_connections: self.max_connections,
            loglevel: self.loglevel@,
            monitor_buffer: self.monitor_buffer,
        }
    }
}

/// The values given on the command line (or their defaults).
pub struct CliArgs {
    pub host: String,
    pub port: u16,
    pub password: Option<String>,
    pub max_connections: usize,
    pub loglevel: String,
    pub monitor_buffer: usize,
    pub conf: String,
}

/// The settings a configuration file gives; each is absent unless a line sets it.
pub struct ConfFile {
    pub password: Option<String>,
    pub auth_enabled: Option<bool>,
    pub max_connections: Option<usize>,
    pub loglevel: Option<String>,
    pub monitor_buffer: Option<usize>,
}

/// The model of a configuration file's settings.
pub struct ConfModel {
    pub password: Option<Seq<char>>,
    pub auth_enabled: Option<bool>,
    pub max_connections: Option<usize>,
    pub loglevel: Option<Seq<char>>,
    pub monitor_buffer: Option<usize>,
}

impl View for ConfFile {
    type V = ConfModel;

    open spec fn view(&self) -> ConfModel {
        ConfModel {
            password: opt_view(self.password),
            auth_enabled: self.auth_enabled,
            max_connections: self.max_connections,
            loglevel: opt_view(self.loglevel),
            monitor_buffer: self.monitor_buffer,
        }
    }
}

/// Whether `v` names a log level.
pub open spec fn is_loglevel(v: Seq<char>) -> bool {
    v == "debug"@ || v == "info"@ || v == "warn"@ || v == "error"@
}

/// The error for a log level that is not one.
pub open spec fn loglevel_error(v: Seq<char>) -> Seq<char> {
    "invalid loglevel '"@ + v + "' — must be debug, info, warn or error"@
}

/// Accepts the four log levels, and names any other value in the error.
pub fn validate_loglevel(val: &str) -> (r: Result<(), String>)
    ensures
        match r {
            Ok(()) => is_loglevel(val@),
            Err(e) => !is_loglevel(val@) && e@ == loglevel_error(val@),
        },
{
    if str_eq(val, "debug") || str_eq(val, "info") || str_eq(val, "warn") || str_eq(val, "error") {
        Ok(())
    } else {
        let mut e = owned("invalid loglevel '");
        e.append(val);
        e.append("' — must be debug, info, warn or error");
        Err(e)
    }
}

/// The settings of a file with no settings.
pub open spec fn no_settings() -> ConfModel {
    ConfModel { password: None, auth_enabled: None, max_connections: None, loglevel: None, monitor_buffer: None }
}

/// What one line of a configuration file does.
pub enum LineEffect {
    /// Nothing (blank, comment, no value, or `host`/`port`).
    Keep,
    /// The settings become these.
    Apply(ConfModel),
    /// The line names a key that is not known; reading goes on.
    Unknown(Seq<char>),
    /// The line's value is refused, with this message.
    Fail(Seq<char>),
}

/// What `line` does to the settings `m`. A line is trimmed; blank lines and
/// lines starting with `#` are skipped; the key runs to the first space and the
/// value is the rest, trimmed; a line without a space is skipped.
pub open spec fn conf_line(m: ConfModel, line: Seq<char>) -> LineEffect {
    let t = trim(line);
    let sp = find_char(t, ' ', 0);
    if t.len() == 0 || t[0] == '#' || sp >= t.len() {
        LineEffect::Keep
    } else {
        let key = t.subrange(0, sp);
        let val = trim(t.subrange(sp + 1, t.len() as int));
        if key == "password"@ {
            LineEffect::Apply(ConfModel { password: if val.len() == 0 { None } else { Some(val) }, ..m })
        } else if key == "auth"@ {
            if val == "on"@ {
                LineEffect::Apply(ConfModel { auth_enabled: Some(true), ..m })
            } else if val == "off"@ {
                LineEffect::Apply(ConfModel { auth_enabled: Some(false), ..m })
            } else {
                LineEffect::Fail("invalid auth value '"@ + val + "' -- must be on or off"@)
            }
        } else if key == "maxconnections"@ {
            match parse_unsigned(val, usize::MAX as nat) {
                Some(n) => LineEffect::Apply(ConfModel { max_connections: Some(n as usize), ..m }),
                None => LineEffect::Fail("invalid maxconnections in conf: "@ + val),
            }
        } else if key == "loglevel"@ {
            if is_loglevel(val) {
                LineEffect::Apply(ConfModel { loglevel: Some(val), ..m })
            } else {
                LineEffect::Fail(loglevel_error(val))
            }
        } else if key == "monitor_buffer"@ {
            match parse_unsigned(val, usize::MAX as nat) {
                Some(n) => LineEffect::Apply(ConfModel { monitor_buffer: Some(n as usize), ..m }),
                None => LineEffect::Fail("invalid monitor_buffer in conf: "@ + val),
            }
        } else if key == "host"@ || key == "port"@ {
            LineEffect::Keep
        } else {
            LineEffect::Unknown(key)
        }
    }
}

/// Reading the lines in order: the settings (or the first refusal) and the
/// unknown keys met before reading stopped.
pub open spec fn conf_fold(ls: Seq<Seq<char>>) -> (Result<ConfModel, Seq<char>>, Seq<Seq<char>>)
    decreases ls.len(),
{
    if ls.len() == 0 {
        (Ok(no_settings()), Seq::empty())
    } else {
        let (r, w) = conf_fold(ls.drop_last());
        match r {
            Err(e) => (Err(e), w),
            Ok(m) => match conf_line(m, ls.last()) {
                LineEffect::Keep => (Ok(m), w),
                LineEffect::Apply(m2) => (Ok(m2), w),
                LineEffect::Unknown(k) => (Ok(m), w.push(k)),
                LineEffect::Fail(e) => (Err(e), w),
            },
        }
    }
}

/// Reading a configuration file's text.
pub open spec fn conf_parse(content: Seq<char>) -> (Result<ConfModel, Seq<char>>, Seq<Seq<char>>) {
    conf_fold(crate::text::lines_spec(content))
}

/// The view of a parse result.
pub open spec fn conf_result_view(r: Result<ConfFile, String>) -> Result<ConfModel, Seq<char>> {
    match r {
        Ok(cf) => Ok(cf@),
        Err(e) => Err(e@),
    }
}

impl ConfFile {
    /// A file with no settings.
    pub fn empty() -> (cf: ConfFile)
        ensures
            cf@ == no_settings(),
    {
        ConfFile { password: None, auth_enabled: None, max_connections: None, loglevel: None, monitor_buffer: None }
    }

    fn apply_line(&mut self, line: &str) -> (r: Result<Option<String>, String>)
        ensures
            match conf_line(old(self)@, line@) {
                LineEffect::Keep => r == Ok::<Option<String>, String>(None) && final(self)@ == old(self)@,
                LineEffect::Apply(m) => r == Ok::<Option<String>, String>(None) && final(self)@ == m,
                LineEffect::Unknown(k) => (r matches Ok(Some(u)) && u@ == k) && final(self)@ == old(self)@,
                LineEffect::Fail(e) => r matches Err(x) && x@ == e,
            },
    {
        let cs = chars_of(line);
        let (a, b) = trim_bounds(cs.as_slice(), 0, cs.len());
        assert(cs@.subrange(0, cs@.len() as int) == line@);
        let ghost t = cs@.subrange(a as int, b as int);
        if a == b || cs[a] == '#' {
            return Ok(None);
        }
        let sp = find_char_in(cs.as_slice(), ' ', a, b);
        proof {
            lemma_find_shift(cs@, ' ', a as int, b as int);
        }
        if sp >= b {
            return Ok(None);
        }
        let key = string_of(cs.as_slice(), a, sp);
        let (va, vb) = trim_bounds(cs.as_slice(), sp + 1, b);
        let val = string_of(cs.as_slice(), va, vb);
        assert(key@ == t.subrange(0, sp - a));
        assert(cs@.subrange(sp + 1, b as int) == t.subrange(sp - a + 1, t.len() as int));
        if str_eq(key.as_str(), "password") {
            if vb == va {
                self.password = None;
            } else {
                self.password = Some(val);
            }
            Ok(None)
        } else if str_eq(key.as_str(), "auth") {
            if str_eq(val.as_str(), "on") {
                self.auth_enabled = Some(true);
                Ok(None)
            } else if str_eq(val.as_str(), "off") {
                self.auth_enabled = Some(false);
                Ok(None)
            } else {
                let mut e = owned("invalid auth value '");
                e.append(val.as_str());
                e.append("' -- must be on or off");
                Err(e)
            }
        } else if str_eq(key.as_str(), "maxconnections") {
            match parse_unsigned_chars(cs.as_slice(), va, vb, usize::MAX as u64) {
                Some(n) => {
                    self.max_connections = Some(n as usize);
                    Ok(None)
                },
                None => {
                    let mut e = owned("invalid maxconnections in conf: ");
                    e.append(val.as_str());
                    Err(e)
                },
            }
        } else if str_eq(key.as_str(), "loglevel") {
            match validate_loglevel(val.as_str()) {
                Ok(()) => {
                    self.loglevel = Some(val);
                    Ok(None)
                },
                Err(e) => Err(e),
            }
        } else if str_eq(key.as_str(), "monitor_buffer") {
            match parse_unsigned_chars(cs.as_slice(), va, vb, usize::MAX as u64) {
                Some(n) => {
                    self.monitor_buffer = Some(n as usize);
                    Ok(None)
                },
                None => {
                    let mut e = owned("invalid monitor_buffer in conf: ");
                    e.append(val.as_str());
                    Err(e)
                },
            }
        } else if str_eq(key.as_str(), "host") || str_eq(key.as_str(), "port") {
            Ok(None)
        } else {
            Ok(Some(key))
        }
    }

    /// Reads a configuration file's text (see [`conf_parse`]): the settings, or
    /// the first refused value's message; and the unknown keys met on the way.
    pub fn parse(content: &str) -> (r: (Result<ConfFile, String>, Vec<String>))
        ensures
            (conf_result_view(r.0), crate::keymap::str_views(r.1@)) == conf_parse(content@),
    {
        let ls = lines(content);
        let mut cf = ConfFile::empty();
        let mut unknown: Vec<String> = Vec::new();
        let mut i: usize = 0;
        assert(crate::keymap::str_views(unknown@) =~= Seq::<Seq<char>>::empty());
        assert(crate::keymap::str_views(ls@).take(0) =~= Seq::<Seq<char>>::empty());
        while i < ls.len()
            invariant
                crate::keymap::str_views(ls@) == crate::text::lines_spec(content@),
                i <= ls@.len(),
                conf_fold(crate::keymap::str_views(ls@).take(i as int))
                    == (Ok::<ConfModel, Seq<char>>(cf@), crate::keymap::str_views(unknown@)),
            decreases ls.len() - i,
        {
            let ghost pre = crate::keymap::str_views(ls@).take(i as int);
            assert(crate::keymap::str_views(ls@).take(i + 1).drop_last() == pre);
            assert(crate::keymap::str_views(ls@).take(i + 1).last() == ls@[i as int]@);
            match cf.apply_line(ls[i].as_str()) {
                Ok(None) => {},
                Ok(Some(k)) => {
                    let ghost prev = unknown@;
                    unknown.push(k);
                    assert(crate::keymap::str_views(unknown@) =~= crate::keymap::str_views(prev).push(unknown@.last()@));
                },
                Err(e) => {
                    proof {
                        lemma_fold_stops(crate::keymap::str_views(ls@), i as int + 1);
                    }
                    return (Err(e), unknown);
                },
            }
            i = i + 1;
        }
        assert(crate::keymap::str_views(ls@).take(i as int) == crate::keymap::str_views(ls@));
        (Ok(cf), unknown)
    }
}

/// Once reading has stopped with an error, later lines change nothing.
pub proof fn lemma_fold_stops(ls: Seq<Seq<char>>, i: int)
    requires
        0 <= i <= ls.len(),
        conf_fold(ls.take(i)).0 is Err,
    ensures
        conf_fold(ls) == conf_fold(ls.take(i)),
    decreases ls.len() - i,
{
    if i < ls.len() {
        assert(ls.take(i + 1).drop_last() == ls.take(i));
        lemma_fold_stops(ls, i + 1);
    } else {
        assert(ls.take(i) == ls);
    }
}

proof fn lemma_find_shift(cs: Seq<char>, c: char, a: int, b: int)
    requires
        0 <= a <= b <= cs.len(),
    ensures
        find_char(cs.subrange(0, b), c, a) - a == find_char(cs.subrange(a, b), c, 0),
{
    lemma_find_window(cs, c, a, a, b);
}

proof fn lemma_find_window(cs: Seq<char>, c: char, a: int, j: int, b: int)
    requires
        0 <= a <= j <= b <= cs.len(),
    ensures
        find_char(cs.subrange(0, b), c, j) - a == find_char(cs.subrange(a, b), c, j - a),
    decreases b - j,
{
    if j < b && cs[j] != c {
        lemma_find_window(cs, c, a, j + 1, b);
    }
}


/// The configuration that the command line and the file's settings give
/// together: the command line wins where it departs from its default (for the
/// password, where it gives one); otherwise the file's setting, then the default.
pub open spec fn merged(cli: &CliArgs, conf: ConfModel) -> ConfigModel {
    ConfigModel {
        host: cli.host@,
        port: cli.port,
        conf_path: cli.conf@,
        password: match cli.password {
            Some(p) => Some(p@),
            None => conf.password,
        },
        auth_enabled: match conf.auth_enabled {
            Some(b) => b,
            None => false,
        },
        max_connections: if cli.max_connections != 100 {
            cli.max_connections
        } else {
            match conf.max_connections {
                Some(n) => n,
                None => 100,
            }
        },
        loglevel: if cli.loglevel@ != "info"@ {
            cli.loglevel@
        } else {
            match conf.loglevel {
                Some(l) => l,
                None => "info"@,
            }
        },
        monitor_buffer: if cli.monitor_buffer != 100 {
            cli.monitor_buffer
        } else {
            match conf.monitor_buffer {
                Some(n) => n,
                None => 100,
            }
        },
    }
}

/// `host:port`.
pub open spec fn address_text(c: ConfigModel) -> Seq<char> {
    c.host + ":"@ + decimal(c.port as nat)
}

/// The text that CONFIG REWRITE writes to the configuration file.
pub open spec fn conf_file_text(c: ConfigModel) -> Seq<char> {
    "# jedis configuration\n# do not edit while server is running — use CONFIG SET + CONFIG REWRITE\n\nhost "@
        + c.host + "\nport "@ + decimal(c.port as nat) + "\npassword "@ + match c.password {
        Some(p) => p,
        None => Seq::empty(),
    } + "\nauth "@ + (if c.auth_enabled {
        "on"@
    } else {
        "off"@
    }) + "\nmaxconnections "@ + decimal(c.max_connections as nat) + "\nloglevel "@ + c.loglevel
        + "\nmonitor_buffer "@ + decimal(c.monitor_buffer as nat) + "\n"@
}

impl Config {
    /// The configuration from the command line and the file's settings (see
    /// [`merged`]).
    pub fn new(cli: CliArgs, conf: ConfFile) -> (c: Config)
        ensures
            c@ == merged(&cli, conf@),
    {
        let custom_max = cli.max_connections != 100;
        let custom_level = !str_eq(cli.loglevel.as_str(), "info");
        let custom_buffer = cli.monitor_buffer != 100;
        let ConfFile { password: conf_password, auth_enabled, max_connections, loglevel, monitor_buffer } = conf;
        let CliArgs { host, port, password, max_connections: cli_max, loglevel: cli_level, monitor_buffer: cli_buffer, conf: conf_path } = cli;
        let c = Config {
            host,
            port,
            conf_path,
            password: match password {
                Some(p) => Some(p),
                None => conf_password,
            },
            auth_enabled: match auth_enabled {
                Some(b) => b,
                None => false,
            },
            max_connections: if custom_max {
                cli_max
            } else {
                match max_connections {
                    Some(n) => n,
                    None => 100,
                }
            },
            loglevel: if custom_level {
                cli_level
            } else {
                match loglevel {
                    Some(l) => l,
                    None => owned("info"),
                }
            },
            monitor_buffer: if custom_buffer {
                cli_buffer
            } else {
                match monitor_buffer {
                    Some(n) => n,
                    None => 100,
                }
            },
        };
        c
    }

    /// `host:port`, the address to listen on.
    pub fn address(&self) -> (r: String)
        ensures
            r@ == address_text(self@),
    {
        let mut s = self.host.clone();
        s.append(":");
        push_decimal(&mut s, self.port as u64);
        s
    }

    /// The configuration file's text for this configuration.
    pub fn conf_text(&self) -> (r: String)
        ensures
            r@ == conf_file_text(self@),
    {
        let mut s = owned(
            "# jedis configuration\n# do not edit while server is running — use CONFIG SET + CONFIG REWRITE\n\nhost ",
        );
        s.append(self.host.as_str());
        s.append("\nport ");
        push_decimal(&mut s, self.port as u64);
        s.append("\npassword ");
        match &self.password {
            Some(p) => s.append(p.as_str()),
            None => {},
        }
        s.append("\nauth ");
        if self.auth_enabled {
            s.append("on");
        } else {
            s.append("off");
        }
        s.append("\nmaxconnections ");
        push_decimal(&mut s, self.max_connections as u64);
        s.append("\nloglevel ");
        s.append(self.loglevel.as_str());
        s.append("\nmonitor_buffer ");
        push_decimal(&mut s, self.monitor_buffer as u64);
        s.append("\n");
        s
    }
}

/// Startup settings go by priority: command line over configuration file over
/// defaults. A command-line value that departs from its default (for the
/// password: any given password) wins whatever the file says; at its default,
/// the file's setting wins where the file has one; otherwise the default
/// stands. Host, port and the file's path always come from the command line.
pub proof fn lemma_command_line_wins(cli: &CliArgs, conf: ConfModel)
    ensures
        merged(cli, conf).host == cli.host@,
        merged(cli, conf).port == cli.port,
        merged(cli, conf).conf_path == cli.conf@,
        cli.password matches Some(p) ==> merged(cli, conf).password == Some(p@),
        cli.password is None ==> merged(cli, conf).password == conf.password,
        cli.loglevel@ != "info"@ ==> merged(cli, conf).loglevel == cli.loglevel@,
        cli.loglevel@ == "info"@ && conf.loglevel is Some ==> merged(cli, conf).loglevel == conf.loglevel->Some_0,
        cli.loglevel@ == "info"@ && conf.loglevel is None ==> merged(cli, conf).loglevel == "info"@,
        cli.max_connections != 100 ==> merged(cli, conf).max_connections == cli.max_connections,
        cli.max_connections == 100 && conf.max_connections is Some ==> merged(cli, conf).max_connections
            == conf.max_connections->Some_0,
        cli.max_connections == 100 && conf.max_connections is None ==> merged(cli, conf).max_connections == 100,
        cli.monitor_buffer != 100 ==> merged(cli, conf).monitor_buffer == cli.monitor_buffer,
        cli.monitor_buffer == 100 && conf.monitor_buffer is Some ==> merged(cli, conf).monitor_buffer
            == conf.monitor_buffer->Some_0,
        cli.monitor_buffer == 100 && conf.monitor_buffer is None ==> merged(cli, conf).monitor_buffer == 100,
        conf.auth_enabled is Some ==> merged(cli, conf).auth_enabled == conf.auth_enabled->Some_0,
        conf.auth_enabled is None ==> !merged(cli, conf).auth_enabled,
{
}

} // verus!
