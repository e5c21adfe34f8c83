//! Replies to the server commands, in RESP.
use crate::config::{Config, ConfigModel};
use crate::resp::writer::{array, array_text, bulk_string, bulk_text, empty_array, error, error_text, integer, integer_text, simple_string, simple_text};
use crate::store::config_store::{config_after_set, config_get, config_pairs, config_set, config_set_error, pair_views};
use crate::store::server::{
    data_type, flush_db, info_text, kind_label, live_count, live_keys, matching, matching_keys, server_info, uptime_secs,
};
use crate::store::{Db, DbModel, EntryModel, ServerStats};
use crate::text::{eq_ignore_ascii_case, eq_ignore_ascii_case_spec, lines, lines_spec, part_views, str_eq, to_uppercase, uppercase};
use vstd::prelude::*;

verus! {

/// A server reply: text to send, a request to write the configuration file
/// first (CONFIG REWRITE), whose outcome [`rewrite_reply`] then shows, or a
/// request to stop the server (SHUTDOWN).
pub enum Reply {
    Text(String),
    RewriteConfig,
    Shutdown,
}

/// The model of a reply.
pub enum ReplyModel {
    Text(Seq<char>),
    RewriteConfig,
    Shutdown,
}

/// The model of a reply.
pub open spec fn reply_view(r: &Reply) -> ReplyModel {
    match r {
        Reply::Text(s) => ReplyModel::Text(s@),
        Reply::RewriteConfig => ReplyModel::RewriteConfig,
        Reply::Shutdown => ReplyModel::Shutdown,
    }
}

/// Names and values, one after another.
pub open spec fn flat_pairs(ps: Seq<(Seq<char>, Seq<char>)>) -> Seq<Seq<char>>
    decreases ps.len(),
{
    if ps.len() == 0 {
        Seq::empty()
    } else {
        flat_pairs(ps.drop_last()).push(ps.last().0).push(ps.last().1)
    }
}

/// The counters and clock readings that INFO reports.
pub open spec fn info_report(db: DbModel, stats: &ServerStats, port: u16, now: u64, memory_human: Seq<char>) -> Seq<char> {
    info_text(
        uptime_secs(now, stats.started_at),
        port as nat,
        stats.connected_clients as nat,
        stats.used_memory as nat,
        memory_human,
        db.len(),
        stats.total_commands as nat,
        stats.total_connections as nat,
    )
}

/// The reply to a server command whose upper-cased command word is `cmd`, and
/// the keyspace and configuration it leaves.
pub open spec fn server_reply(
    cmd: Seq<char>,
    parts: Seq<Seq<char>>,
    db: DbModel,
    key_order: Seq<Seq<char>>,
    stats: &ServerStats,
    port: u16,
    cfg: ConfigModel,
    now: u64,
    memory_human: Seq<char>,
) -> (ReplyModel, DbModel, ConfigModel) {
    if cmd == "PING"@ {
        (ReplyModel::Text(simple_text("PONG"@)), db, cfg)
    } else if cmd == "ECHO"@ {
        if parts.len() != 2 {
            (ReplyModel::Text(error_text("usage: ECHO message"@)), db, cfg)
        } else {
            (ReplyModel::Text(bulk_text(parts[1])), db, cfg)
        }
    } else if cmd == "DBSIZE"@ {
        (ReplyModel::Text(integer_text((live_keys(key_order, db, now).len() as i64) as int)), db, cfg)
    } else if cmd == "FLUSHDB"@ {
        (ReplyModel::Text(simple_text("OK"@)), Map::<Seq<char>, EntryModel>::empty(), cfg)
    } else if cmd == "TYPE"@ {
        if parts.len() != 2 {
            (ReplyModel::Text(error_text("usage: TYPE key"@)), db, cfg)
        } else {
            (ReplyModel::Text(simple_text(kind_label(db, parts[1], now))), db, cfg)
        }
    } else if cmd == "KEYS"@ {
        if parts.len() != 2 {
            (ReplyModel::Text(error_text("usage: KEYS pattern"@)), db, cfg)
        } else {
            (ReplyModel::Text(array_text(matching(live_keys(key_order, db, now), parts[1]))), db, cfg)
        }
    } else if cmd == "INFO"@ {
        (ReplyModel::Text(array_text(lines_spec(info_report(db, stats, port, now, memory_human)))), db, cfg)
    } else if cmd == "CONFIG"@ {
        if parts.len() == 3 && eq_ignore_ascii_case_spec(parts[1], "GET"@) {
            let ps = config_pairs(cfg, parts[2]);
            if ps.len() == 0 {
                (ReplyModel::Text("*0\r\n"@), db, cfg)
            } else {
                (ReplyModel::Text(array_text(flat_pairs(ps))), db, cfg)
            }
        } else if parts.len() == 4 && eq_ignore_ascii_case_spec(parts[1], "SET"@) {
            match config_set_error(parts[2], parts[3]) {
                Some(e) => (ReplyModel::Text(error_text(e)), db, cfg),
                None => (ReplyModel::Text(simple_text("OK"@)), db, config_after_set(cfg, parts[2], parts[3])),
            }
        } else if parts.len() == 2 && eq_ignore_ascii_case_spec(parts[1], "REWRITE"@) {
            (ReplyModel::RewriteConfig, db, cfg)
        } else {
            (ReplyModel::Text(error_text("usage: CONFIG GET key | CONFIG SET key value | CONFIG REWRITE"@)), db, cfg)
        }
    } else if cmd == "SHUTDOWN"@ {
        (ReplyModel::Shutdown, db, cfg)
    } else {
        (ReplyModel::Text(error_text("unknown server command"@)), db, cfg)
    }
}

/// How the outcome of writing the configuration file is shown.
pub open spec fn rewrite_text(r: Result<(), Seq<char>>) -> Seq<char> {
    match r {
        Ok(()) => simple_text("OK"@),
        Err(e) => error_text(e),
    }
}

/// Shows the outcome of writing the configuration file.
pub fn rewrite_reply(r: Result<(), String>) -> (s: String)
    ensures
        s@ == rewrite_text(match r {
            Ok(()) => Ok(()),
            Err(e) => Err(e@),
        }),
{
    match r {
        Ok(()) => simple_string("OK"),
        Err(e) => error(e.as_str()),
    }
}

fn flatten(ps: Vec<(String, String)>) -> (r: Vec<String>)
    ensures
        crate::keymap::str_views(r@) == flat_pairs(pair_views(ps@)),
{
    let mut r: Vec<String> = Vec::new();
    let mut i: usize = 0;
    assert(pair_views(ps@).take(0) =~= Seq::<(Seq<char>, Seq<char>)>::empty());
    assert(crate::keymap::str_views(r@) =~= Seq::<Seq<char>>::empty());
    while i < ps.len()
        invariant
            i <= ps@.len(),
            crate::keymap::str_views(r@) == flat_pairs(pair_views(ps@).take(i as int)),
        decreases ps.len() - i,
    {
        let ghost prev = r@;
        let ghost t = pair_views(ps@).take(i + 1);
        assert(t.drop_last() == pair_views(ps@).take(i as int));
        let k = ps[i].0.clone();
        let v = ps[i].1.clone();
        r.push(k);
        r.push(v);
        assert(crate::keymap::str_views(r@) =~= crate::keymap::str_views(prev).push(t.last().0).push(t.last().1));
        i = i + 1;
    }
    assert(pair_views(ps@).take(i as int) == pair_views(ps@));
    r
}

/// Answers a server command whose upper-cased command word is `cmd` (see
/// [`server_reply`]).
pub fn server_command(
    cmd: &str,
    parts: &[&str],
    db: &mut Db,
    stats: &ServerStats,
    port: u16,
    config: &mut Config,
    now: u64,
    memory_human: &str,
) -> (r: Reply)
    requires
        parts@.len() > 0,
    ensures
        (reply_view(&r), final(db)@, final(config)@) == server_reply(
            cmd@,
            part_views(parts@),
            old(db)@,
            old(db).key_order(),
            stats,
            port,
            old(config)@,
            now,
            memory_human@,
        ),
{
    let ghost pv = part_views(parts@);
    assert(forall|i: int| 0 <= i < parts@.len() ==> pv[i] == parts@[i]@);
    let n = parts.len();
    if str_eq(cmd, "PING") {
        Reply::Text(simple_string("PONG"))
    } else if str_eq(cmd, "ECHO") {
        if n != 2 {
            Reply::Text(error("usage: ECHO message"))
        } else {
            Reply::Text(bulk_string(parts[1]))
        }
    } else if str_eq(cmd, "DBSIZE") {
        Reply::Text(integer(live_count(db, now) as i64))
    } else if str_eq(cmd, "FLUSHDB") {
        let _ = flush_db(db);
        Reply::Text(simple_string("OK"))
    } else if str_eq(cmd, "TYPE") {
        if n != 2 {
            Reply::Text(error("usage: TYPE key"))
        } else {
            let t = data_type(db, parts[1], now);
            Reply::Text(simple_string(t.as_str()))
        }
    } else if str_eq(cmd, "KEYS") {
        if n != 2 {
            Reply::Text(error("usage: KEYS pattern"))
        } else {
            let ks = matching_keys(db, parts[1], now);
            Reply::Text(array(ks.as_slice()))
        }
    } else if str_eq(cmd, "INFO") {
        let info = server_info(db, stats, port, now, memory_human);
        let ls = lines(info.as_str());
        Reply::Text(array(ls.as_slice()))
    } else if str_eq(cmd, "CONFIG") {
        if n == 3 && eq_ignore_ascii_case(parts[1], "GET") {
            let pairs = config_get(config, parts[2]);
            if pairs.len() == 0 {
                Reply::Text(empty_array())
            } else {
                let flat = flatten(pairs);
                Reply::Text(array(flat.as_slice()))
            }
        } else if n == 4 && eq_ignore_ascii_case(parts[1], "SET") {
            match config_set(config, parts[2], parts[3]) {
                Ok(()) => Reply::Text(simple_string("OK")),
                Err(e) => Reply::Text(error(e.as_str())),
            }
        } else if n == 2 && eq_ignore_ascii_case(parts[1], "REWRITE") {
            Reply::RewriteConfig
        } else {
            Reply::Text(error("usage: CONFIG GET key | CONFIG SET key value | CONFIG REWRITE"))
        }
    } else if str_eq(cmd, "SHUTDOWN") {
        Reply::Shutdown
    } else {
        Reply::Text(error("unknown server command"))
    }
}

/// Answers a server command at `now`: the command word is upper-cased first.
pub fn handle(
    parts: &[&str],
    db: &mut Db,
    stats: &ServerStats,
    port: u16,
    config: &mut Config,
    now: u64,
    memory_human: &str,
) -> (r: Reply)
    requires
        parts@.len() > 0,
    ensures
        (reply_view(&r), final(db)@, final(config)@) == server_reply(
            uppercase(parts@[0]@),
            part_views(parts@),
            old(db)@,
            old(db).key_order(),
            stats,
            port,
            old(config)@,
            now,
            memory_human@,
        ),
{
    let cmd = to_uppercase(parts[0]);
    server_command(cmd.as_str(), parts, db, stats, port, config, now, memory_human)
}

} // verus!
