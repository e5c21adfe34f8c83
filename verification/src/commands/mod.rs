//! Command dispatch and the replies to each command family.
use crate::commands::hashmap::{hash_command, hash_reply};
use crate::commands::server::{reply_view, server_command, server_reply, Reply, ReplyModel};
use crate::commands::string::string_reply;
use crate::store::string::set_model;
use crate::config::{Config, ConfigModel};
use crate::store::{Db, DbModel, ServerStats};
use crate::text::{owned, part_views, str_eq, to_uppercase, uppercase};
use vstd::prelude::*;

pub mod hashmap;
pub mod server;
pub mod string;

verus! {

/// The commands routed to the server handler.
pub open spec fn is_server_command(c: Seq<char>) -> bool {
    c == "PING"@ || c == "ECHO"@ || c == "DBSIZE"@ || c == "INFO"@ || c == "FLUSHDB"@ || c == "TYPE"@ || c == "KEYS"@
        || c == "CONFIG"@ || c == "SHUTDOWN"@
}

/// The commands routed to the string handler.
pub open spec fn is_string_command(c: Seq<char>) -> bool {
    c == "SET"@ || c == "GET"@ || c == "DEL"@ || c == "EXISTS"@ || c == "TTL"@ || c == "INCR"@ || c == "DECR"@
        || c == "INCRBY"@ || c == "DECRBY"@
}

/// The commands routed to the hash handler.
pub open spec fn is_hash_command(c: Seq<char>) -> bool {
    c == "HSET"@ || c == "HGET"@ || c == "HDEL"@ || c == "HTTL"@
}

/// The reply to a command whose upper-cased command word is `cmd`, and the
/// keyspace and configuration it leaves. The string handler matches the command
/// word as sent; the others use the upper-cased word.
pub open spec fn command_reply(
    cmd: Seq<char>,
    parts: Seq<Seq<char>>,
    db: DbModel,
    key_order: Seq<Seq<char>>,
    stats: &ServerStats,
    port: u16,
    cfg: ConfigModel,
    now: u64,
    memory_human: Seq<char>,
) -> (ReplyModel, DbModel, ConfigModel) {
    if is_server_command(cmd) {
        server_reply(cmd, parts, db, key_order, stats, port, cfg, now, memory_human)
    } else if is_string_command(cmd) {
        let (t, d) = string_reply(parts, db, now);
        (ReplyModel::Text(t), d, cfg)
    } else if is_hash_command(cmd) {
        let (t, d) = hash_reply(cmd, parts, db, now);
        (ReplyModel::Text(t), d, cfg)
    } else {
        (ReplyModel::Text("Unknown command "@ + parts[0] + "\n"@), db, cfg)
    }
}

/// The counters after one more command.
pub open spec fn counted(old_stats: &ServerStats, new_stats: &ServerStats) -> bool {
    &&& new_stats.total_commands == old_stats.total_commands.wrapping_add(1)
    &&& new_stats.connected_clients == old_stats.connected_clients
    &&& new_stats.total_connections == old_stats.total_connections
    &&& new_stats.used_memory == old_stats.used_memory
    &&& new_stats.started_at == old_stats.started_at
}

/// Counts and answers a command whose upper-cased command word is `cmd` (see
/// [`command_reply`]).
pub fn dispatch_command(
    cmd: &str,
    parts: &[&str],
    db: &mut Db,
    stats: &mut ServerStats,
    port: u16,
    config: &mut Config,
    now: u64,
    memory_human: &str,
) -> (r: Reply)
    requires
        parts@.len() > 0,
    ensures
        counted(old(stats), final(stats)),
        (reply_view(&r), final(db)@, final(config)@) == command_reply(
            cmd@,
            part_views(parts@),
            old(db)@,
            old(db).key_order(),
            final(stats),
            port,
            old(config)@,
            now,
            memory_human@,
        ),
{
    stats.increment_commands();
    if str_eq(cmd, "PING") || str_eq(cmd, "ECHO") || str_eq(cmd, "DBSIZE") || str_eq(cmd, "INFO")
        || str_eq(cmd, "FLUSHDB") || str_eq(cmd, "TYPE") || str_eq(cmd, "KEYS") || str_eq(cmd, "CONFIG") || str_eq(cmd, "SHUTDOWN") {
        server_command(cmd, parts, db, stats, port, config, now, memory_human)
    } else if str_eq(cmd, "SET") || str_eq(cmd, "GET") || str_eq(cmd, "DEL") || str_eq(cmd, "EXISTS")
        || str_eq(cmd, "TTL") || str_eq(cmd, "INCR") || str_eq(cmd, "DECR") || str_eq(cmd, "INCRBY")
        || str_eq(cmd, "DECRBY") {
        Reply::Text(crate::commands::string::handle(parts, db, now))
    } else if str_eq(cmd, "HSET") || str_eq(cmd, "HGET") || str_eq(cmd, "HDEL") || str_eq(cmd, "HTTL") {
        Reply::Text(hash_command(cmd, parts, db, now))
    } else {
        let mut s = owned("Unknown command ");
        s.append(parts[0]);
        s.append("\n");
        Reply::Text(s)
    }
}

/// Counts and answers a command at `now`: the command word is upper-cased first
/// (see [`command_reply`]). `memory_human` is the memory figure in human units,
/// for INFO. CONFIG REWRITE is answered with [`Reply::RewriteConfig`]: the
/// caller writes the configuration file and shows the outcome; SHUTDOWN with
/// [`Reply::Shutdown`]: the caller stops the server.
pub fn execute_commands(
    parts: &[&str],
    db: &mut Db,
    stats: &mut ServerStats,
    port: u16,
    config: &mut Config,
    now: u64,
    memory_human: &str,
) -> (r: Reply)
    requires
        parts@.len() > 0,
    ensures
        counted(old(stats), final(stats)),
        (reply_view(&r), final(db)@, final(config)@) == command_reply(
            uppercase(parts@[0]@),
            part_views(parts@),
            old(db)@,
            old(db).key_order(),
            final(stats),
            port,
            old(config)@,
            now,
            memory_human@,
        ),
{
    let cmd = to_uppercase(parts[0]);
    dispatch_command(cmd.as_str(), parts, db, stats, port, config, now, memory_human)
}

/// Through the dispatcher: `SET key value` answers `OK`, and a later
/// `GET key` answers the value, on any keyspace.
pub proof fn lemma_set_then_get_reply(
    key: Seq<char>,
    value: Seq<char>,
    db: DbModel,
    key_order: Seq<Seq<char>>,
    later_order: Seq<Seq<char>>,
    stats: &ServerStats,
    port: u16,
    cfg: ConfigModel,
    now: u64,
    later: u64,
    memory_human: Seq<char>,
)
    ensures
        command_reply("SET"@, seq!["SET"@, key, value], db, key_order, stats, port, cfg, now, memory_human).0
            == ReplyModel::Text("OK\n"@),
        command_reply(
            "GET"@,
            seq!["GET"@, key],
            command_reply("SET"@, seq!["SET"@, key, value], db, key_order, stats, port, cfg, now, memory_human).1,
            later_order,
            stats,
            port,
            cfg,
            later,
            memory_human,
        ).0 == ReplyModel::Text(value + "\n"@),
{
    reveal_strlit("SET");
    reveal_strlit("GET");
    reveal_strlit("PING");
    reveal_strlit("ECHO");
    reveal_strlit("DBSIZE");
    reveal_strlit("INFO");
    reveal_strlit("FLUSHDB");
    reveal_strlit("TYPE");
    reveal_strlit("KEYS");
    reveal_strlit("CONFIG");
    reveal_strlit("SHUTDOWN");
    assert("SET"@.len() == 3 && "GET"@.len() == 3);
    assert("PING"@.len() == 4 && "ECHO"@.len() == 4 && "INFO"@.len() == 4 && "TYPE"@.len() == 4);
    assert("KEYS"@.len() == 4 && "DBSIZE"@.len() == 6 && "FLUSHDB"@.len() == 7 && "CONFIG"@.len() == 6);
    assert("SHUTDOWN"@.len() == 8);
    assert(!is_server_command("SET"@) && !is_server_command("GET"@));
    let set_parts = seq!["SET"@, key, value];
    let get_parts = seq!["GET"@, key];
    assert(set_parts.len() == 3 && set_parts[0] == "SET"@);
    assert(get_parts.len() == 2 && get_parts[0] == "GET"@ && get_parts[1] == key);
    assert("SET"@[0] != "GET"@[0]);
    let d1 = set_model(db, key, value, None, now);
    assert(string_reply(set_parts, db, now) == ("OK\n"@, d1));
    crate::store::string::lemma_get_reads_set(db, key, value, None, now, later, key);
}

} // verus!
