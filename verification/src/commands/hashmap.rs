//! Replies to the hash commands.
use crate::commands::string::{read_reply, read_text, ttl_reply, ttl_text};
use crate::store::hashmap::{hdel, hdel_model, hget, hget_model, hset, hset_model, httl};
use crate::store::string::after_read;
use crate::store::{ttl_report, Db, DbModel, ServerStats};
use crate::text::{owned, parse_u64, parse_unsigned, part_views, str_eq, to_uppercase, uppercase};
use vstd::prelude::*;

verus! {

/// How HSET's result is shown.
pub open spec fn hset_text(r: Result<(), Seq<char>>) -> Seq<char> {
    match r {
        Ok(()) => "OK\n"@,
        Err(e) => "ERR "@ + e + "\n"@,
    }
}

/// The reply to a hash command whose command word, upper-cased, is `cmd`, and
/// the keyspace it leaves.
pub open spec fn hash_reply(cmd: Seq<char>, parts: Seq<Seq<char>>, db: DbModel, now: u64) -> (Seq<char>, DbModel) {
    if cmd == "HSET"@ {
        if parts.len() == 4 {
            let (r, d) = hset_model(db, parts[1], parts[2], parts[3], None, now);
            (hset_text(r), d)
        } else if parts.len() == 6 && parts[4] == "EX"@ {
            match parse_unsigned(parts[5], u64::MAX as nat) {
                Some(n) => {
                    let (r, d) = hset_model(db, parts[1], parts[2], parts[3], Some(n as u64), now);
                    (hset_text(r), d)
                },
                None => ("ERR expiry must be a number\n"@, db),
            }
        } else {
            ("ERR usage: HSET key field value [EX seconds]\n"@, db)
        }
    } else if cmd == "HGET"@ {
        if parts.len() == 3 {
            (read_text(hget_model(db, parts[1], parts[2], now), "ERR "@), after_read(db, parts[1], now))
        } else {
            ("ERR usage: HGET key field\n"@, db)
        }
    } else if cmd == "HDEL"@ {
        if parts.len() == 3 {
            let (b, d) = hdel_model(db, parts[1], parts[2], now);
            (if b {
                "OK\n"@
            } else {
                "ERR no such key/field\n"@
            }, d)
        } else {
            ("ERR usage: HDEL key field\n"@, db)
        }
    } else if cmd == "HTTL"@ {
        if parts.len() == 2 {
            (ttl_text(ttl_report(db, parts[1], now)), db)
        } else {
            ("ERR usage: HTTL key\n"@, db)
        }
    } else {
        ("UNKNOWN HASH COMMAND\n"@, db)
    }
}

fn hset_reply(r: Result<(), String>) -> (s: String)
    ensures
        s@ == hset_text(match r {
            Ok(()) => Ok(()),
            Err(e) => Err(e@),
        }),
{
    match r {
        Ok(()) => owned("OK\n"),
        Err(e) => {
            let mut s = owned("ERR ");
            s.append(e.as_str());
            s.append("\n");
            s
        },
    }
}

/// Answers a hash command whose upper-cased command word is `cmd` (see
/// [`hash_reply`]).
pub fn hash_command(cmd: &str, parts: &[&str], db: &mut Db, now: u64) -> (r: String)
    requires
        parts@.len() > 0,
    ensures
        (r@, final(db)@) == hash_reply(cmd@, part_views(parts@), old(db)@, now),
{
    let ghost pv = part_views(parts@);
    assert(forall|i: int| 0 <= i < parts@.len() ==> pv[i] == parts@[i]@);
    let n = parts.len();
    if str_eq(cmd, "HSET") {
        if n == 4 {
            hset_reply(hset(db, parts[1], parts[2], parts[3], None, now))
        } else if n == 6 && str_eq(parts[4], "EX") {
            match parse_u64(parts[5]) {
                Some(secs) => hset_reply(hset(db, parts[1], parts[2], parts[3], Some(secs), now)),
                None => owned("ERR expiry must be a number\n"),
            }
        } else {
            owned("ERR usage: HSET key field value [EX seconds]\n")
        }
    } else if str_eq(cmd, "HGET") {
        if n == 3 {
            let r = hget(db, parts[1], parts[2], now);
            read_reply(r, "ERR ")
        } else {
            owned("ERR usage: HGET key field\n")
        }
    } else if str_eq(cmd, "HDEL") {
        if n == 3 {
            if hdel(db, parts[1], parts[2], now) {
                owned("OK\n")
            } else {
                owned("ERR no such key/field\n")
            }
        } else {
            owned("ERR usage: HDEL key field\n")
        }
    } else if str_eq(cmd, "HTTL") {
        if n == 2 {
            ttl_reply(httl(db, parts[1], now))
        } else {
            owned("ERR usage: HTTL key\n")
        }
    } else {
        owned("UNKNOWN HASH COMMAND\n")
    }
}

/// Answers a hash command at `now`: the command word is upper-cased first. The
/// counters are not changed by hash commands.
pub fn handle(parts: &[&str], db: &mut Db, stats: &ServerStats, now: u64) -> (r: String)
    requires
        parts@.len() > 0,
    ensures
        (r@, final(db)@) == hash_reply(uppercase(parts@[0]@), part_views(parts@), old(db)@, now),
{
    let cmd = to_uppercase(parts[0]);
    hash_command(cmd.as_str(), parts, db, now)
}

} // verus!
