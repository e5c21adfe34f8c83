//! Replies to the string commands.
use crate::store::string::{after_read, del, get, get_model, incr_by, incr_model, incr_view, key_exists, set_model, ttl};
use crate::store::{ttl_report, Db, DbModel};
use crate::store::server::live;
use crate::text::{owned, parse_i64, parse_signed, parse_u64, parse_unsigned, part_views, push_signed_decimal, signed_decimal, str_eq};
use vstd::prelude::*;

verus! {

/// How TTL and HTTL show a TTL report.
pub open spec fn ttl_text(n: i64) -> Seq<char> {
    if n == -2 {
        "nil\n"@
    } else if n == -1 {
        "no expiry\n"@
    } else {
        signed_decimal(n as int) + "s remaining\n"@
    }
}

/// How a read's result is shown: the value, `nil`, or the error after `prefix`.
pub open spec fn read_text(r: Result<Option<Seq<char>>, Seq<char>>, prefix: Seq<char>) -> Seq<char> {
    match r {
        Ok(Some(v)) => v + "\n"@,
        Ok(None) => "nil\n"@,
        Err(e) => prefix + e + "\n"@,
    }
}

/// How the result of an arithmetic command is shown: the new value, or the
/// error.
pub open spec fn incr_text(r: Result<int, Seq<char>>) -> Seq<char> {
    match r {
        Ok(n) => signed_decimal(n) + "\n"@,
        Err(e) => "Err "@ + e + "\n"@,
    }
}

/// The reply to INCR, DECR, INCRBY or DECRBY adding `delta` to `key`, and the
/// keyspace it leaves.
pub open spec fn incr_reply(db: DbModel, key: Seq<char>, delta: int, now: u64) -> (Seq<char>, DbModel) {
    (incr_text(incr_model(db, key, delta, now).0), incr_model(db, key, delta, now).1)
}

/// The reply to a string command and the keyspace it leaves. The command word
/// is matched exactly (upper case).
pub open spec fn string_reply(parts: Seq<Seq<char>>, db: DbModel, now: u64) -> (Seq<char>, DbModel) {
    let cmd = parts[0];
    if cmd == "SET"@ {
        if parts.len() == 3 {
            ("OK\n"@, set_model(db, parts[1], parts[2], None, now))
        } else if parts.len() == 5 && parts[3] == "EX"@ {
            match parse_unsigned(parts[4], u64::MAX as nat) {
                Some(n) => ("OK\n"@, set_model(db, parts[1], parts[2], Some(n as u64), now)),
                None => ("Err expiry seconds must be a number\n"@, db),
            }
        } else {
            ("Err usage: SET key value [EX seconds]\n"@, db)
        }
    } else if cmd == "GET"@ {
        if parts.len() == 2 {
            (read_text(get_model(db, parts[1], now), "Err "@), after_read(db, parts[1], now))
        } else {
            ("Err usage: GET key\n"@, db)
        }
    } else if cmd == "DEL"@ {
        if parts.len() == 2 {
            (if live(db, parts[1], now) {
                "OK\n"@
            } else {
                "Err no such key found\n"@
            }, db.remove(parts[1]))
        } else {
            ("Err usage: DEL key\n"@, db)
        }
    } else if cmd == "EXISTS"@ {
        if parts.len() == 2 {
            (if live(db, parts[1], now) {
                "1\n"@
            } else {
                "0\n"@
            }, db)
        } else {
            ("Err usage: EXISTS key\n"@, db)
        }
    } else if cmd == "TTL"@ {
        if parts.len() == 2 {
            (ttl_text(ttl_report(db, parts[1], now)), db)
        } else {
            ("Err usage: TTL key\n"@, db)
        }
    } else if cmd == "INCR"@ {
        if parts.len() == 2 {
            incr_reply(db, parts[1], 1, now)
        } else {
            ("Err usage: INCR key\n"@, db)
        }
    } else if cmd == "DECR"@ {
        if parts.len() == 2 {
            incr_reply(db, parts[1], -1, now)
        } else {
            ("Err usage: DECR key\n"@, db)
        }
    } else if cmd == "INCRBY"@ {
        if parts.len() == 3 {
            match parse_signed(parts[2]) {
                Some(k) => incr_reply(db, parts[1], k, now),
                None => ("Err increment must be a number\n"@, db),
            }
        } else {
            ("Err usage: INCRBY key increment\n"@, db)
        }
    } else if cmd == "DECRBY"@ {
        if parts.len() == 3 {
            match parse_signed(parts[2]) {
                Some(k) => incr_reply(db, parts[1], -k, now),
                None => ("Err decrement must be a number\n"@, db),
            }
        } else {
            ("Err usage: DECRBY key decrement\n"@, db)
        }
    } else {
        ("UNKNOWN STRING COMMAND\n"@, db)
    }
}

/// Shows a TTL report.
pub fn ttl_reply(n: i64) -> (r: String)
    ensures
        r@ == ttl_text(n),
{
    if n == -2 {
        owned("nil\n")
    } else if n == -1 {
        owned("no expiry\n")
    } else {
        let mut s = String::new();
        push_signed_decimal(&mut s, n);
        s.append("s remaining\n");
        s
    }
}

/// Shows a read's result.
pub fn read_reply(r: Result<Option<String>, String>, prefix: &str) -> (s: String)
    ensures
        s@ == read_text(crate::store::string::read_view(r), prefix@),
{
    match r {
        Ok(Some(v)) => {
            let mut s = v;
            s.append("\n");
            s
        },
        Ok(None) => owned("nil\n"),
        Err(e) => {
            let mut s = owned(prefix);
            s.append(e.as_str());
            s.append("\n");
            s
        },
    }
}

/// Shows the result of an arithmetic command.
pub fn incr_result_reply(r: Result<i64, String>) -> (s: String)
    ensures
        s@ == incr_text(incr_view(r)),
{
    match r {
        Ok(n) => {
            let mut s = String::new();
            push_signed_decimal(&mut s, n);
            s.append("\n");
            s
        },
        Err(e) => {
            let mut s = owned("Err ");
            s.append(e.as_str());
            s.append("\n");
            s
        },
    }
}

/// Answers a string command (see [`string_reply`]) at `now`.
pub fn handle(parts: &[&str], db: &mut Db, now: u64) -> (r: String)
    requires
        parts@.len() > 0,
    ensures
        (r@, final(db)@) == string_reply(part_views(parts@), old(db)@, now),
{
    let ghost pv = part_views(parts@);
    assert(forall|i: int| 0 <= i < parts@.len() ==> pv[i] == parts@[i]@);
    let n = parts.len();
    if str_eq(parts[0], "SET") {
        if n == 3 {
            crate::store::string::set(db, parts[1], parts[2], None, now);
            owned("OK\n")
        } else if n == 5 && str_eq(parts[3], "EX") {
            match parse_u64(parts[4]) {
                Some(secs) => {
                    crate::store::string::set(db, parts[1], parts[2], Some(secs), now);
                    owned("OK\n")
                },
                None => owned("Err expiry seconds must be a number\n"),
            }
        } else {
            owned("Err usage: SET key value [EX seconds]\n")
        }
    } else if str_eq(parts[0], "GET") {
        if n == 2 {
            let r = get(db, parts[1], now);
            read_reply(r, "Err ")
        } else {
            owned("Err usage: GET key\n")
        }
    } else if str_eq(parts[0], "DEL") {
        if n == 2 {
            match del(db, parts[1], now) {
                Some(_) => owned("OK\n"),
                None => owned("Err no such key found\n"),
            }
        } else {
            owned("Err usage: DEL key\n")
        }
    } else if str_eq(parts[0], "EXISTS") {
        if n == 2 {
            if key_exists(db, parts[1], now) {
                owned("1\n")
            } else {
                owned("0\n")
            }
        } else {
            owned("Err usage: EXISTS key\n")
        }
    } else if str_eq(parts[0], "TTL") {
        if n == 2 {
            ttl_reply(ttl(db, parts[1], now))
        } else {
            owned("Err usage: TTL key\n")
        }
    } else if str_eq(parts[0], "INCR") {
        if n == 2 {
            incr_result_reply(incr_by(db, parts[1], 1, now))
        } else {
            owned("Err usage: INCR key\n")
        }
    } else if str_eq(parts[0], "DECR") {
        if n == 2 {
            incr_result_reply(incr_by(db, parts[1], -1, now))
        } else {
            owned("Err usage: DECR key\n")
        }
    } else if str_eq(parts[0], "INCRBY") {
        if n == 3 {
            match parse_i64(parts[2]) {
                Some(k) => incr_result_reply(incr_by(db, parts[1], k as i128, now)),
                None => owned("Err increment must be a number\n"),
            }
        } else {
            owned("Err usage: INCRBY key increment\n")
        }
    } else if str_eq(parts[0], "DECRBY") {
        if n == 3 {
            match parse_i64(parts[2]) {
                Some(k) => incr_result_reply(incr_by(db, parts[1], 0i128 - k as i128, now)),
                None => owned("Err decrement must be a number\n"),
            }
        } else {
            owned("Err usage: DECRBY key decrement\n")
        }
    } else {
        owned("UNKNOWN STRING COMMAND\n")
    }
}

} // verus!
