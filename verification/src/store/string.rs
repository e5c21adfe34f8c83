//! String commands on the keyspace: SET, GET, DEL, EXISTS, TTL.
use crate::store::{compute_expiry, expired, expiry_after, ttl_report, Db, DbModel, Entry, EntryModel, RedisValue, ValueModel, NANOS_PER_SEC};
use crate::text::{lemma_decimal_digits, lemma_parse_decimal, owned, parse_i64, parse_signed, push_signed_decimal, signed_decimal};
use vstd::prelude::*;

verus! {

/// The keyspace after a read of `key` at `now`: a key found expired is dropped.
pub open spec fn after_read(db: DbModel, key: Seq<char>, now: u64) -> DbModel {
    if db.contains_key(key) && expired(db[key], now) {
        db.remove(key)
    } else {
        db
    }
}

/// The keyspace after `SET key value` with an optional lifetime, at `now`.
pub open spec fn set_model(db: DbModel, key: Seq<char>, value: Seq<char>, ttl_secs: Option<u64>, now: u64) -> DbModel {
    db.insert(key, EntryModel { value: ValueModel::Str(value), expires_at: expiry_after(now, ttl_secs) })
}

/// What GET answers: nothing for a missing or expired key, the string for a
/// string, an error for a hash.
pub open spec fn get_model(db: DbModel, key: Seq<char>, now: u64) -> Result<Option<Seq<char>>, Seq<char>> {
    if !db.contains_key(key) || expired(db[key], now) {
        Ok(None)
    } else {
        match db[key].value {
            ValueModel::Str(s) => Ok(Some(s)),
            ValueModel::Hash(_) => Err("WRONGTYPE key holds a non-string value"@),
        }
    }
}

/// The view of a read's result.
pub open spec fn read_view(r: Result<Option<String>, String>) -> Result<Option<Seq<char>>, Seq<char>> {
    match r {
        Ok(Some(s)) => Ok(Some(s@)),
        Ok(None) => Ok(None),
        Err(e) => Err(e@),
    }
}

/// The error for an arithmetic command on a value that is not an integer.
pub open spec fn not_integer_msg() -> Seq<char> {
    "value is not an integer or out of range"@
}

/// The error for an arithmetic command whose result leaves the range of `i64`.
pub open spec fn overflow_msg() -> Seq<char> {
    "increment or decrement would overflow"@
}

/// What adding `delta` to the integer under `key` at `now` gives, and the
/// keyspace it leaves. A missing or expired key counts as 0 and gets no expiry;
/// a live string must hold an integer in the range of `i64` and keeps its
/// expiry; a hash is an error. The new value is stored in decimal, unless it
/// leaves the range of `i64`, which is an error. Errors change nothing.
pub open spec fn incr_model(db: DbModel, key: Seq<char>, delta: int, now: u64) -> (Result<int, Seq<char>>, DbModel) {
    if db.contains_key(key) && !expired(db[key], now) {
        match db[key].value {
            ValueModel::Hash(_) => (Err("WRONGTYPE key holds a non-string value"@), db),
            ValueModel::Str(s) => match parse_signed(s) {
                None => (Err(not_integer_msg()), db),
                Some(v) => incr_step(db, key, v + delta, db[key].expires_at),
            },
        }
    } else {
        incr_step(db, key, delta, None)
    }
}

/// Storing the new value `n` under `key` with expiry `at`, if it fits in `i64`.
pub open spec fn incr_step(db: DbModel, key: Seq<char>, n: int, at: Option<u128>) -> (Result<int, Seq<char>>, DbModel) {
    if n < i64::MIN || n > i64::MAX {
        (Err(overflow_msg()), db)
    } else {
        (Ok(n), db.insert(key, EntryModel { value: ValueModel::Str(signed_decimal(n)), expires_at: at }))
    }
}

/// The view of an arithmetic command's result.
pub open spec fn incr_view(r: Result<i64, String>) -> Result<int, Seq<char>> {
    match r {
        Ok(n) => Ok(n as int),
        Err(e) => Err(e@),
    }
}

/// Adds `delta` to the integer stored under `key` (see [`incr_model`]) and
/// returns the new value.
pub fn incr_by(db: &mut Db, key: &str, delta: i128, now: u64) -> (r: Result<i64, String>)
    requires
        -0x8000_0000_0000_0000 <= delta <= 0x8000_0000_0000_0000,
    ensures
        (incr_view(r), final(db)@) == incr_model(old(db)@, key@, delta as int, now),
{
    let (base, at): (i64, Option<u128>) = match db.get(key) {
        None => (0, None),
        Some(entry) => {
            if entry.is_expired(now) {
                (0, None)
            } else {
                match &entry.value {
                    RedisValue::Hash(_) => {
                        return Err(owned("WRONGTYPE key holds a non-string value"));
                    },
                    RedisValue::String(s) => match parse_i64(s.as_str()) {
                        None => {
                            return Err(owned("value is not an integer or out of range"));
                        },
                        Some(v) => (v, entry.expires_at),
                    },
                }
            }
        },
    };
    let n: i128 = base as i128 + delta;
    if n < i64::MIN as i128 || n > i64::MAX as i128 {
        return Err(owned("increment or decrement would overflow"));
    }
    let n64 = n as i64;
    let mut text = String::new();
    push_signed_decimal(&mut text, n64);
    db.insert(owned(key), Entry { value: RedisValue::String(text), expires_at: at });
    Ok(n64)
}

/// Stores `value` under `key` (replacing whatever was there), expiring
/// `ttl_secs` seconds after `now` if given.
pub fn set(db: &mut Db, key: &str, value: &str, ttl_secs: Option<u64>, now: u64)
    ensures
        final(db)@ == set_model(old(db)@, key@, value@, ttl_secs, now),
{
    let expires_at = compute_expiry(now, ttl_secs);
    db.insert(owned(key), Entry { value: RedisValue::String(owned(value)), expires_at });
}

/// Reads the string under `key`; an expired key is dropped and reads as missing.
pub fn get(db: &mut Db, key: &str, now: u64) -> (r: Result<Option<String>, String>)
    ensures
        read_view(r) == get_model(old(db)@, key@, now),
        final(db)@ == after_read(old(db)@, key@, now),
{
    let is_expired = match db.get(key) {
        None => {
            return Ok(None);
        },
        Some(entry) => {
            if !entry.is_expired(now) {
                match &entry.value {
                    RedisValue::String(s) => {
                        return Ok(Some(s.clone()));
                    },
                    RedisValue::Hash(_) => {
                        return Err(owned("WRONGTYPE key holds a non-string value"));
                    },
                }
            }
            true
        },
    };
    let _ = db.remove(key);
    Ok(None)
}

/// Removes `key`, expired or not; `Some(())` if it held an entry that had
/// not expired at `now`.
pub fn del(db: &mut Db, key: &str, now: u64) -> (r: Option<()>)
    ensures
        final(db)@ == old(db)@.remove(key@),
        r is Some <==> (old(db)@.contains_key(key@) && !expired(old(db)@[key@], now)),
{
    match db.remove(key) {
        Some(e) => {
            if e.is_expired(now) {
                None
            } else {
                Some(())
            }
        },
        None => None,
    }
}

/// Whether `key` holds an entry that has not expired at `now`.
pub fn key_exists(db: &Db, key: &str, now: u64) -> (r: bool)
    ensures
        r == (db@.contains_key(key@) && !expired(db@[key@], now)),
{
    match db.get(key) {
        Some(e) => !e.is_expired(now),
        None => false,
    }
}

/// The TTL report for `key` at `now` (see [`ttl_report`]).
pub fn ttl(db: &Db, key: &str, now: u64) -> (r: i64)
    ensures
        r == ttl_report(db@, key@, now),
{
    match db.get(key) {
        None => -2,
        Some(entry) => {
            if entry.is_expired(now) {
                -2
            } else {
                match entry.expires_at {
                    None => -1,
                    Some(at) => {
                        let secs = (at - now as u128) / (NANOS_PER_SEC as u128);
                        secs as i64
                    },
                }
            }
        },
    }
}

/// Whether an entry with expiry `at` is still live at `t`.
pub open spec fn live_at(at: Option<u128>, t: u64) -> bool {
    match at {
        Some(x) => t <= x,
        None => true,
    }
}

/// Read-your-write: after `SET key value`, GET of `key` answers `value` for as
/// long as the lifetime given to SET has not run out; other keys read as
/// before.
pub proof fn lemma_get_reads_set(
    db: DbModel,
    key: Seq<char>,
    value: Seq<char>,
    ttl_secs: Option<u64>,
    now: u64,
    later: u64,
    other: Seq<char>,
)
    requires
        live_at(expiry_after(now, ttl_secs), later),
    ensures
        get_model(set_model(db, key, value, ttl_secs, now), key, later) == Ok::<Option<Seq<char>>, Seq<char>>(Some(value)),
        other != key ==> get_model(set_model(db, key, value, ttl_secs, now), other, later) == get_model(db, other, later),
{
}

/// A key SET with a lifetime reads as missing once the lifetime is over, and the
/// read drops it.
pub proof fn lemma_set_expires(db: DbModel, key: Seq<char>, value: Seq<char>, secs: u64, now: u64, later: u64)
    requires
        !live_at(expiry_after(now, Some(secs)), later),
    ensures
        get_model(set_model(db, key, value, Some(secs), now), key, later) == Ok::<Option<Seq<char>>, Seq<char>>(None),
        after_read(set_model(db, key, value, Some(secs), now), key, later) == db.remove(key),
        ttl_report(set_model(db, key, value, Some(secs), now), key, later) == -2,
{
    assert(db.insert(key, EntryModel { value: ValueModel::Str(value), expires_at: expiry_after(now, Some(secs)) }).remove(key)
        =~= db.remove(key));
}

/// TTL right after SET: -1 without a lifetime, the lifetime in seconds with one.
pub proof fn lemma_ttl_after_set(db: DbModel, key: Seq<char>, value: Seq<char>, secs: u64, now: u64)
    requires
        secs <= i64::MAX,
    ensures
        ttl_report(set_model(db, key, value, None, now), key, now) == -1,
        ttl_report(set_model(db, key, value, Some(secs), now), key, now) == secs as i64,
{
    assert((secs * 1_000_000_000) / 1_000_000_000 == secs) by (nonlinear_arith);
}

/// After DEL, the key is gone: GET answers nil, EXISTS is false, TTL is -2;
/// other keys are untouched.
pub proof fn lemma_del_removes(db: DbModel, key: Seq<char>, now: u64, other: Seq<char>)
    ensures
        get_model(db.remove(key), key, now) == Ok::<Option<Seq<char>>, Seq<char>>(None),
        !db.remove(key).contains_key(key),
        ttl_report(db.remove(key), key, now) == -2,
        other != key ==> get_model(db.remove(key), other, now) == get_model(db, other, now),
{
}

/// A number written by `signed_decimal` parses back as itself.
pub proof fn lemma_parse_signed_decimal(n: int)
    requires
        i64::MIN <= n <= i64::MAX,
    ensures
        parse_signed(signed_decimal(n)) == Some(n),
{
    if n < 0 {
        let s = signed_decimal(n);
        assert(s.drop_first() =~= crate::text::decimal((-n) as nat));
        lemma_decimal_digits((-n) as nat);
    } else {
        lemma_decimal_digits(n as nat);
        assert(crate::text::is_digit(crate::text::decimal(n as nat)[0]));
        lemma_parse_decimal(n as nat, i64::MAX as nat);
    }
}

/// INCR, DECR, INCRBY and DECRBY store what they answer: GET then reads the
/// new value in decimal, and it parses back as that number, so the next
/// arithmetic command starts from it.
pub proof fn lemma_incr_reads_back(db: DbModel, key: Seq<char>, delta: int, now: u64)
    ensures
        incr_model(db, key, delta, now).0 matches Ok(n) ==> get_model(incr_model(db, key, delta, now).1, key, now)
            == Ok::<Option<Seq<char>>, Seq<char>>(Some(signed_decimal(n))) && parse_signed(signed_decimal(n)) == Some(n),
        incr_model(db, key, delta, now).0 is Err ==> incr_model(db, key, delta, now).1 == db,
{
    if let Ok(n) = incr_model(db, key, delta, now).0 {
        lemma_parse_signed_decimal(n);
    }
}

} // verus!
