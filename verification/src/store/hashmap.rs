//! Hash commands on the keyspace: HSET, HGET, HDEL, HTTL.
use crate::keymap::KeyMap;
use crate::store::{compute_expiry, expired, expiry_after, ttl_report, Db, DbModel, Entry, EntryModel, RedisValue, ValueModel};
use crate::text::owned;
use vstd::prelude::*;

verus! {

/// The error for a hash command on a key that holds a string.
pub open spec fn wrongtype_hash_msg() -> Seq<char> {
    "WRONGTYPE key holds a non-hash value"@
}

/// What HSET answers and leaves behind. A missing key gets a new hash (expiring
/// `ttl_secs` after `now` if given) holding the field; a hash present, expired
/// or not, gets the field and keeps its expiry; a string is an error and nothing
/// changes.
pub open spec fn hset_model(
    db: DbModel,
    key: Seq<char>,
    field: Seq<char>,
    value: Seq<char>,
    ttl_secs: Option<u64>,
    now: u64,
) -> (Result<(), Seq<char>>, DbModel) {
    if !db.contains_key(key) {
        (
            Ok(()),
            db.insert(
                key,
                EntryModel {
                    value: ValueModel::Hash(Map::empty().insert(field, value)),
                    expires_at: expiry_after(now, ttl_secs),
                },
            ),
        )
    } else {
        match db[key].value {
            ValueModel::Hash(h) => (
                Ok(()),
                db.insert(key, EntryModel { value: ValueModel::Hash(h.insert(field, value)), expires_at: db[key].expires_at }),
            ),
            ValueModel::Str(_) => (Err(wrongtype_hash_msg()), db),
        }
    }
}

/// What HGET answers: nothing for a missing or expired key or a missing field,
/// the field's value for a hash, an error for a string.
pub open spec fn hget_model(db: DbModel, key: Seq<char>, field: Seq<char>, now: u64) -> Result<Option<Seq<char>>, Seq<char>> {
    if !db.contains_key(key) || expired(db[key], now) {
        Ok(None)
    } else {
        match db[key].value {
            ValueModel::Hash(h) => if h.contains_key(field) {
                Ok(Some(h[field]))
            } else {
                Ok(None)
            },
            ValueModel::Str(_) => Err(wrongtype_hash_msg()),
        }
    }
}

/// What HDEL leaves behind and answers: an expired key is dropped (false); a
/// hash loses the field (true if it had it); anything else stays (false).
pub open spec fn hdel_model(db: DbModel, key: Seq<char>, field: Seq<char>, now: u64) -> (bool, DbModel) {
    if !db.contains_key(key) {
        (false, db)
    } else if expired(db[key], now) {
        (false, db.remove(key))
    } else {
        match db[key].value {
            ValueModel::Hash(h) => (
                h.contains_key(field),
                db.insert(key, EntryModel { value: ValueModel::Hash(h.remove(field)), expires_at: db[key].expires_at }),
            ),
            ValueModel::Str(_) => (false, db),
        }
    }
}

/// An empty string entry without expiry, held in a slot while its value is
/// taken out.
fn placeholder() -> (e: Entry)
    ensures
        e@ == (EntryModel { value: ValueModel::Str(Seq::empty()), expires_at: None }),
{
    Entry { value: RedisValue::String(String::new()), expires_at: None }
}

/// Sets `field` of the hash under `key` (see [`hset_model`]).
pub fn hset(db: &mut Db, key: &str, field: &str, value: &str, ttl_secs: Option<u64>, now: u64) -> (r: Result<(), String>)
    ensures
        match r {
            Ok(()) => hset_model(old(db)@, key@, field@, value@, ttl_secs, now).0 is Ok,
            Err(e) => hset_model(old(db)@, key@, field@, value@, ttl_secs, now).0 == Err::<(), Seq<char>>(e@),
        },
        final(db)@ == hset_model(old(db)@, key@, field@, value@, ttl_secs, now).1,
{
    match db.find(key) {
        None => {
            let mut h: KeyMap<String> = KeyMap::new();
            h.insert(owned(field), owned(value));
            let expires_at = compute_expiry(now, ttl_secs);
            db.insert(owned(key), Entry { value: RedisValue::Hash(h), expires_at });
            Ok(())
        },
        Some(i) => {
            let e = db.update_at(i, placeholder());
            let Entry { value: stored, expires_at } = e;
            match stored {
                RedisValue::Hash(h) => {
                    let mut h = h;
                    h.insert(owned(field), owned(value));
                    let _ = db.update_at(i, Entry { value: RedisValue::Hash(h), expires_at });
                    Ok(())
                },
                RedisValue::String(s) => {
                    let _ = db.update_at(i, Entry { value: RedisValue::String(s), expires_at });
                    assert(db@ =~= old(db)@);
                    Err(owned("WRONGTYPE key holds a non-hash value"))
                },
            }
        },
    }
}

/// Reads `field` of the hash under `key`; an expired key is dropped and reads
/// as missing.
pub fn hget(db: &mut Db, key: &str, field: &str, now: u64) -> (r: Result<Option<String>, String>)
    ensures
        crate::store::string::read_view(r) == hget_model(old(db)@, key@, field@, now),
        final(db)@ == crate::store::string::after_read(old(db)@, key@, now),
{
    match db.get(key) {
        None => {
            return Ok(None);
        },
        Some(entry) => {
            if !entry.is_expired(now) {
                match &entry.value {
                    RedisValue::Hash(h) => {
                        return match h.get(field) {
                            Some(v) => Ok(Some(v.clone())),
                            None => Ok(None),
                        };
                    },
                    RedisValue::String(_) => {
                        return Err(owned("WRONGTYPE key holds a non-hash value"));
                    },
                }
            }
        },
    }
    let _ = db.remove(key);
    Ok(None)
}

/// Deletes `field` of the hash under `key` (see [`hdel_model`]).
pub fn hdel(db: &mut Db, key: &str, field: &str, now: u64) -> (r: bool)
    ensures
        (r, final(db)@) == hdel_model(old(db)@, key@, field@, now),
{
    match db.find(key) {
        None => false,
        Some(i) => {
            if db.value_at(i).is_expired(now) {
                let _ = db.remove(key);
                return false;
            }
            let e = db.update_at(i, placeholder());
            let Entry { value: stored, expires_at } = e;
            match stored {
                RedisValue::Hash(h) => {
                    let mut h = h;
                    let removed = h.remove(field);
                    let _ = db.update_at(i, Entry { value: RedisValue::Hash(h), expires_at });
                    removed.is_some()
                },
                RedisValue::String(s) => {
                    let _ = db.update_at(i, Entry { value: RedisValue::String(s), expires_at });
                    assert(db@ =~= old(db)@);
                    false
                },
            }
        },
    }
}

/// The TTL report for `key` at `now` (see [`ttl_report`]).
pub fn httl(db: &Db, key: &str, now: u64) -> (r: i64)
    ensures
        r == ttl_report(db@, key@, now),
{
    crate::store::string::ttl(db, key, now)
}

/// HSET then HGET: the field reads back as written while the key is live;
/// HSET fails exactly on a key that holds a string.
pub proof fn lemma_hget_reads_hset(
    db: DbModel,
    key: Seq<char>,
    field: Seq<char>,
    value: Seq<char>,
    ttl_secs: Option<u64>,
    now: u64,
    later: u64,
)
    requires
        db.contains_key(key) ==> !expired(db[key], later),
        !db.contains_key(key) ==> crate::store::string::live_at(expiry_after(now, ttl_secs), later),
    ensures
        hset_model(db, key, field, value, ttl_secs, now).0 is Err <==> (db.contains_key(key) && db[key].value is Str),
        hset_model(db, key, field, value, ttl_secs, now).0 is Ok ==> hget_model(
            hset_model(db, key, field, value, ttl_secs, now).1,
            key,
            field,
            later,
        ) == Ok::<Option<Seq<char>>, Seq<char>>(Some(value)),
{
}

/// HDEL then HGET: the field is gone (for any key that does not hold a string).
pub proof fn lemma_hget_after_hdel(db: DbModel, key: Seq<char>, field: Seq<char>, now: u64, later: u64)
    requires
        !(db.contains_key(key) && db[key].value is Str),
    ensures
        hget_model(hdel_model(db, key, field, now).1, key, field, later) == Ok::<Option<Seq<char>>, Seq<char>>(None),
{
}

/// HDEL removes only the named field: on a key holding a live hash, every other
/// field reads back as before, the named field reads as missing, HDEL answers
/// whether that field was there, and every other key is untouched.
pub proof fn lemma_hdel_removes_only_the_field(
    db: DbModel,
    key: Seq<char>,
    field: Seq<char>,
    f: Seq<char>,
    other: Seq<char>,
    now: u64,
    later: u64,
)
    requires
        db.contains_key(key),
        !expired(db[key], now),
        db[key].value is Hash,
    ensures
        f != field ==> hget_model(hdel_model(db, key, field, now).1, key, f, later) == hget_model(db, key, f, later),
        hget_model(hdel_model(db, key, field, now).1, key, field, later) == Ok::<Option<Seq<char>>, Seq<char>>(None),
        hdel_model(db, key, field, now).0 <==> hget_model(db, key, field, now) is Ok && hget_model(db, key, field, now)->Ok_0
            is Some,
        other != key ==> hdel_model(db, key, field, now).1.contains_key(other) == db.contains_key(other),
        other != key && db.contains_key(other) ==> hdel_model(db, key, field, now).1[other] == db[other],
        hdel_model(db, key, field, now).1[key].expires_at == db[key].expires_at,
{
}

} // verus!
