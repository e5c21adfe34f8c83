//! Server commands on the keyspace: DBSIZE, FLUSHDB, TYPE, KEYS and the INFO
//! report.
use crate::store::{expired, Db, DbModel, RedisValue, ServerStats, ValueModel, NANOS_PER_SEC};
use crate::text::{chars_of, decimal, owned, push_decimal, str_eq};
use vstd::prelude::*;

verus! {

/// Whether `key` holds an entry that has not expired at `now`.
pub open spec fn live(db: DbModel, key: Seq<char>, now: u64) -> bool {
    db.contains_key(key) && !expired(db[key], now)
}

/// The keys of `ks` that are live at `now`, in order.
pub open spec fn live_keys(ks: Seq<Seq<char>>, db: DbModel, now: u64) -> Seq<Seq<char>>
    decreases ks.len(),
{
    if ks.len() == 0 {
        ks
    } else if live(db, ks.last(), now) {
        live_keys(ks.drop_last(), db, now).push(ks.last())
    } else {
        live_keys(ks.drop_last(), db, now)
    }
}

/// The number of keys live at `now` (expired keys not yet dropped do not count).
pub fn live_count(db: &Db, now: u64) -> (n: usize)
    ensures
        n == live_keys(db.key_order(), db@, now).len(),
{
    let total = db.len();
    let mut n: usize = 0;
    let mut i: usize = 0;
    while i < total
        invariant
            total == db.key_order().len(),
            db.key_order().to_set() == db@.dom(),
            i <= total,
            n == live_keys(db.key_order().take(i as int), db@, now).len(),
            n <= i,
        decreases total - i,
    {
        let ghost ks = db.key_order().take(i + 1);
        assert(ks.drop_last() == db.key_order().take(i as int));
        let k = db.key_at(i);
        assert(ks.last() == k@);
        assert(db.key_order().to_set().contains(k@));
        let e = db.value_at(i);
        if !e.is_expired(now) {
            n = n + 1;
        }
        i = i + 1;
    }
    assert(db.key_order().take(i as int) == db.key_order());
    n
}

/// The number of keys live at `now`, in decimal.
pub fn get_db_size(db: &Db, now: u64) -> (r: String)
    ensures
        r@ == decimal(live_keys(db.key_order(), db@, now).len()),
{
    let n = live_count(db, now);
    let mut s = String::new();
    push_decimal(&mut s, n as u64);
    s
}

/// Removes every key; answers `OK`.
pub fn flush_db(db: &mut Db) -> (r: String)
    ensures
        final(db)@ == Map::<Seq<char>, crate::store::EntryModel>::empty(),
        r@ == "OK\n"@,
{
    db.clear();
    owned("OK\n")
}

/// The TYPE answer for `key` at `now`: an expired key is `None`.
pub open spec fn kind_label(db: DbModel, key: Seq<char>, now: u64) -> Seq<char> {
    if !live(db, key, now) {
        "None\n"@
    } else {
        match db[key].value {
            ValueModel::Str(_) => "String\n"@,
            ValueModel::Hash(_) => "Hash\n"@,
        }
    }
}

/// The type of the value under `key` at `now`.
pub fn data_type(db: &Db, key: &str, now: u64) -> (r: String)
    ensures
        r@ == kind_label(db@, key@, now),
{
    match db.get(key) {
        None => owned("None\n"),
        Some(entry) => {
            if entry.is_expired(now) {
                owned("None\n")
            } else {
                match &entry.value {
                    RedisValue::String(_) => owned("String\n"),
                    RedisValue::Hash(_) => owned("Hash\n"),
                }
            }
        },
    }
}

/// `p` without its trailing `*`s (`trim_end_matches('*')`).
pub open spec fn strip_stars(p: Seq<char>) -> Seq<char>
    decreases p.len(),
{
    if p.len() > 0 && p.last() == '*' {
        strip_stars(p.drop_last())
    } else {
        p
    }
}

/// Whether KEYS with `pattern` lists `key`: `*` lists every key; otherwise a
/// key is listed when it starts with the pattern stripped of trailing `*`s.
pub open spec fn key_matches(key: Seq<char>, pattern: Seq<char>) -> bool {
    pattern == "*"@ || strip_stars(pattern).is_prefix_of(key)
}

/// The keys of `ks` that `pattern` lists, in order.
pub open spec fn matching(ks: Seq<Seq<char>>, pattern: Seq<char>) -> Seq<Seq<char>>
    decreases ks.len(),
{
    if ks.len() == 0 {
        ks
    } else if key_matches(ks.last(), pattern) {
        matching(ks.drop_last(), pattern).push(ks.last())
    } else {
        matching(ks.drop_last(), pattern)
    }
}

fn is_prefix(p: &[char], plen: usize, k: &[char]) -> (r: bool)
    requires
        plen <= p@.len(),
    ensures
        r == p@.subrange(0, plen as int).is_prefix_of(k@),
{
    if plen > k.len() {
        return false;
    }
    let mut i: usize = 0;
    while i < plen
        invariant
            plen <= p@.len(),
            plen <= k@.len(),
            i <= plen,
            forall|j: int| 0 <= j < i ==> p@[j] == k@[j],
        decreases plen - i,
    {
        if p[i] != k[i] {
            assert(p@.subrange(0, plen as int)[i as int] != k@.subrange(0, plen as int)[i as int]);
            return false;
        }
        i = i + 1;
    }
    assert(p@.subrange(0, plen as int) =~= k@.subrange(0, plen as int));
    true
}

/// The keys live at `now` that `pattern` lists, in the map's key order.
pub fn matching_keys(db: &Db, pattern: &str, now: u64) -> (r: Vec<String>)
    ensures
        crate::keymap::str_views(r@) == matching(live_keys(db.key_order(), db@, now), pattern@),
        db.key_order().no_duplicates(),
        db.key_order().to_set() == db@.dom(),
{
    let all = db.keys();
    let star = str_eq(pattern, "*");
    let pc = chars_of(pattern);
    let mut plen = pc.len();
    assert(pc@.subrange(0, plen as int) == pc@);
    while plen > 0 && pc[plen - 1] == '*'
        invariant
            plen <= pc@.len(),
            strip_stars(pc@) == strip_stars(pc@.subrange(0, plen as int)),
        decreases plen,
    {
        assert(pc@.subrange(0, plen as int).drop_last() == pc@.subrange(0, plen - 1));
        plen = plen - 1;
    }
    assert(pc@ == pattern@);
    assert(strip_stars(pc@.subrange(0, plen as int)) == pc@.subrange(0, plen as int));
    let mut r: Vec<String> = Vec::new();
    let mut i: usize = 0;
    while i < all.len()
        invariant
            crate::keymap::str_views(all@) == db.key_order(),
            i <= all@.len(),
            pc@ == pattern@,
            star == (pattern@ == "*"@),
            plen <= pc@.len(),
            strip_stars(pattern@) == pc@.subrange(0, plen as int),
            db.key_order().to_set() == db@.dom(),
            crate::keymap::str_views(r@) == matching(live_keys(db.key_order().take(i as int), db@, now), pattern@),
        decreases all.len() - i,
    {
        let ghost ks = db.key_order().take(i + 1);
        let ghost before = live_keys(db.key_order().take(i as int), db@, now);
        assert(ks.drop_last() == db.key_order().take(i as int));
        assert(ks.last() == all@[i as int]@);
        let k = &all[i];
        assert(db.key_order().to_set().contains(k@));
        let is_live = !db.value_at(i).is_expired(now);
        let keep = if !is_live {
            false
        } else if star {
            true
        } else {
            let kc = chars_of(k.as_str());
            is_prefix(pc.as_slice(), plen, kc.as_slice())
        };
        proof {
            if is_live {
                assert(live_keys(ks, db@, now) == before.push(k@));
                assert(before.push(k@).drop_last() == before);
                assert(before.push(k@).last() == k@);
            } else {
                assert(live_keys(ks, db@, now) == before);
            }
        }
        let ghost prev = r@;
        if keep {
            r.push(k.clone());
            assert(crate::keymap::str_views(r@) =~= crate::keymap::str_views(prev).push(k@));
        }
        i = i + 1;
    }
    assert(db.key_order().take(i as int) == db.key_order());
    r
}

/// `decimal(n)) key\n`: one line of the KEYS listing.
pub open spec fn key_line(n: nat, key: Seq<char>) -> Seq<char> {
    decimal(n) + ") "@ + key + "\n"@
}

/// The numbered KEYS listing of `ks`, from 1.
pub open spec fn render_keys(ks: Seq<Seq<char>>) -> Seq<char>
    decreases ks.len(),
{
    if ks.len() == 0 {
        Seq::empty()
    } else {
        render_keys(ks.drop_last()) + key_line(ks.len(), ks.last())
    }
}

/// The KEYS answer: `empty` when no key matches, else the numbered listing.
pub open spec fn keys_report(ks: Seq<Seq<char>>) -> Seq<char> {
    if ks.len() == 0 {
        "empty\n"@
    } else {
        render_keys(ks)
    }
}

/// Lists the keys live at `now` that `pattern` matches.
pub fn get_keys(db: &Db, pattern: &str, now: u64) -> (r: String)
    ensures
        r@ == keys_report(matching(live_keys(db.key_order(), db@, now), pattern@)),
{
    let ks = matching_keys(db, pattern, now);
    if ks.len() == 0 {
        return owned("empty\n");
    }
    let mut s = String::new();
    let mut i: usize = 0;
    while i < ks.len()
        invariant
            i <= ks@.len(),
            s@ == render_keys(crate::keymap::str_views(ks@).take(i as int)),
        decreases ks.len() - i,
    {
        let ghost t = crate::keymap::str_views(ks@).take(i + 1);
        assert(t.drop_last() == crate::keymap::str_views(ks@).take(i as int));
        push_decimal(&mut s, (i + 1) as u64);
        s.append(") ");
        s.append(ks[i].as_str());
        s.append("\n");
        i = i + 1;
    }
    assert(crate::keymap::str_views(ks@).take(i as int) == crate::keymap::str_views(ks@));
    s
}

/// Whole seconds since `started_at` at `now` (zero if `now` is earlier).
pub open spec fn uptime_secs(now: u64, started_at: u64) -> nat {
    if now >= started_at {
        ((now - started_at) / 1_000_000_000) as nat
    } else {
        0
    }
}

/// The INFO report.
pub open spec fn info_text(
    uptime: nat,
    port: nat,
    clients: nat,
    memory: nat,
    memory_human: Seq<char>,
    keys: nat,
    commands: nat,
    connections: nat,
) -> Seq<char> {
    "# Server\njedis_version:0.1.0\nuptime_in_seconds:"@ + decimal(uptime) + "\nuptime_in_days:"@
        + decimal(uptime / 86400) + "\ntcp_port:"@ + decimal(port)
        + "\n\n# Clients\nconnected_clients:"@ + decimal(clients) + "\n\n# Memory\nused_memory:"@
        + decimal(memory) + "\nused_memory_human:"@ + memory_human + "\n\n# Stats\ntotal_keys:"@
        + decimal(keys) + "\ntotal_commands_processed:"@ + decimal(commands)
        + "\ntotal_connections_received:"@ + decimal(connections) + "\n"@
}

/// The INFO report for the keyspace and counters at `now`; `memory_human` is the
/// memory figure already written in human units.
pub fn server_info(db: &Db, stats: &ServerStats, port: u16, now: u64, memory_human: &str) -> (r: String)
    ensures
        r@ == info_text(
            uptime_secs(now, stats.started_at),
            port as nat,
            stats.connected_clients as nat,
            stats.used_memory as nat,
            memory_human@,
            db@.len(),
            stats.total_commands as nat,
            stats.total_connections as nat,
        ),
{
    let uptime = if now >= stats.started_at {
        (now - stats.started_at) / NANOS_PER_SEC
    } else {
        0
    };
    let total_keys = db.len();
    let mut s = owned("# Server\njedis_version:0.1.0\nuptime_in_seconds:");
    push_decimal(&mut s, uptime);
    s.append("\nuptime_in_days:");
    push_decimal(&mut s, uptime / 86400);
    s.append("\ntcp_port:");
    push_decimal(&mut s, port as u64);
    s.append("\n\n# Clients\nconnected_clients:");
    push_decimal(&mut s, stats.connected_clients as u64);
    s.append("\n\n# Memory\nused_memory:");
    push_decimal(&mut s, stats.used_memory as u64);
    s.append("\nused_memory_human:");
    s.append(memory_human);
    s.append("\n\n# Stats\ntotal_keys:");
    push_decimal(&mut s, total_keys as u64);
    s.append("\ntotal_commands_processed:");
    push_decimal(&mut s, stats.total_commands);
    s.append("\ntotal_connections_received:");
    push_decimal(&mut s, stats.total_connections);
    s.append("\n");
    s
}

/// KEYS `*` lists every key, in the map's order.
pub proof fn lemma_keys_star_lists_all(ks: Seq<Seq<char>>)
    ensures
        matching(ks, "*"@) == ks,
    decreases ks.len(),
{
    if ks.len() > 0 {
        lemma_keys_star_lists_all(ks.drop_last());
        assert(ks.drop_last().push(ks.last()) =~= ks);
    }
}

/// KEYS lists exactly the keys that match the pattern, each once when the keys
/// are distinct.
pub proof fn lemma_keys_lists_matches(ks: Seq<Seq<char>>, pattern: Seq<char>, k: Seq<char>)
    ensures
        matching(ks, pattern).contains(k) <==> (ks.contains(k) && key_matches(k, pattern)),
        ks.no_duplicates() ==> matching(ks, pattern).no_duplicates(),
    decreases ks.len(),
{
    if ks.len() > 0 {
        let init = ks.drop_last();
        lemma_keys_lists_matches(init, pattern, k);
        lemma_keys_lists_matches(init, pattern, ks.last());
        assert(ks =~= init.push(ks.last()));
        assert(ks.contains(k) <==> (init.contains(k) || k == ks.last())) by {
            if ks.contains(k) {
                let i = choose|i: int| 0 <= i < ks.len() && ks[i] == k;
                if i < ks.len() - 1 {
                    assert(init[i] == k);
                }
            }
            if init.contains(k) {
                let i = choose|i: int| 0 <= i < init.len() && init[i] == k;
                assert(ks[i] == k);
            }
            if k == ks.last() {
                assert(ks[ks.len() - 1] == k);
            }
        }
        if ks.no_duplicates() {
            assert(init.no_duplicates()) by {
                assert forall|i: int, j: int| 0 <= i < init.len() && 0 <= j < init.len() && i != j implies init[i] != init[j] by {
                    assert(ks[i] == init[i] && ks[j] == init[j]);
                }
            }
            assert(!init.contains(ks.last())) by {
                if init.contains(ks.last()) {
                    let i = choose|i: int| 0 <= i < init.len() && init[i] == ks.last();
                    assert(ks[i] == ks[ks.len() - 1]);
                }
            }
        }
        let m = matching(init, pattern);
        if key_matches(ks.last(), pattern) {
            assert(matching(ks, pattern) == m.push(ks.last()));
            assert(m.push(ks.last()).contains(k) <==> (m.contains(k) || k == ks.last())) by {
                if m.push(ks.last()).contains(k) {
                    let i = choose|i: int| 0 <= i < m.len() + 1 && m.push(ks.last())[i] == k;
                    if i < m.len() {
                        assert(m[i] == k);
                    }
                }
                if m.contains(k) {
                    let i = choose|i: int| 0 <= i < m.len() && m[i] == k;
                    assert(m.push(ks.last())[i] == k);
                }
                if k == ks.last() {
                    assert(m.push(ks.last())[m.len() as int] == k);
                }
            }
            if ks.no_duplicates() {
                let mp = m.push(ks.last());
                assert forall|i: int, j: int| 0 <= i < mp.len() && 0 <= j < mp.len() && i != j implies mp[i] != mp[j] by {
                    if i < m.len() && j < m.len() {
                        assert(mp[i] == m[i] && mp[j] == m[j]);
                    } else if i < m.len() {
                        assert(mp[i] == m[i] && m.contains(m[i]));
                    } else if j < m.len() {
                        assert(mp[j] == m[j] && m.contains(m[j]));
                    }
                }
            }
        }
    }
}

/// After FLUSHDB nothing is left: every key reads as missing, its type is
/// `None` and its TTL -2, and the key count is 0.
pub proof fn lemma_flushed_keyspace_is_empty(key: Seq<char>, now: u64)
    ensures
        Map::<Seq<char>, crate::store::EntryModel>::empty().len() == 0,
        crate::store::string::get_model(Map::empty(), key, now) == Ok::<Option<Seq<char>>, Seq<char>>(None),
        kind_label(Map::empty(), key, now) == "None\n"@,
        crate::store::ttl_report(Map::empty(), key, now) == -2,
{
}

/// The live keys are exactly the keys of `ks` present and not expired, each
/// once when the keys are distinct; KEYS and DBSIZE go by them.
pub proof fn lemma_live_keys(ks: Seq<Seq<char>>, db: DbModel, now: u64, k: Seq<char>)
    ensures
        live_keys(ks, db, now).contains(k) <==> (ks.contains(k) && live(db, k, now)),
        ks.no_duplicates() ==> live_keys(ks, db, now).no_duplicates(),
        live_keys(ks, db, now).len() <= ks.len(),
    decreases ks.len(),
{
    if ks.len() > 0 {
        let init = ks.drop_last();
        lemma_live_keys(init, db, now, k);
        lemma_live_keys(init, db, now, ks.last());
        assert(ks =~= init.push(ks.last()));
        assert(ks.contains(k) <==> (init.contains(k) || k == ks.last())) by {
            if ks.contains(k) {
                let i = choose|i: int| 0 <= i < ks.len() && ks[i] == k;
                if i < ks.len() - 1 {
                    assert(init[i] == k);
                }
            }
            if init.contains(k) {
                let i = choose|i: int| 0 <= i < init.len() && init[i] == k;
                assert(ks[i] == k);
            }
            if k == ks.last() {
                assert(ks[ks.len() - 1] == k);
            }
        }
        if ks.no_duplicates() {
            assert(init.no_duplicates()) by {
                assert forall|i: int, j: int| 0 <= i < init.len() && 0 <= j < init.len() && i != j implies init[i] != init[j] by {
                    assert(ks[i] == init[i] && ks[j] == init[j]);
                }
            }
            assert(!init.contains(ks.last())) by {
                if init.contains(ks.last()) {
                    let i = choose|i: int| 0 <= i < init.len() && init[i] == ks.last();
                    assert(ks[i] == ks[ks.len() - 1]);
                }
            }
        }
        let m = live_keys(init, db, now);
        if live(db, ks.last(), now) {
            assert(m.push(ks.last()).contains(k) <==> (m.contains(k) || k == ks.last())) by {
                if m.push(ks.last()).contains(k) {
                    let i = choose|i: int| 0 <= i < m.len() + 1 && m.push(ks.last())[i] == k;
                    if i < m.len() {
                        assert(m[i] == k);
                    }
                }
                if m.contains(k) {
                    let i = choose|i: int| 0 <= i < m.len() && m[i] == k;
                    assert(m.push(ks.last())[i] == k);
                }
                if k == ks.last() {
                    assert(m.push(ks.last())[m.len() as int] == k);
                }
            }
            if ks.no_duplicates() {
                let mp = m.push(ks.last());
                assert forall|i: int, j: int| 0 <= i < mp.len() && 0 <= j < mp.len() && i != j implies mp[i] != mp[j] by {
                    if i < m.len() && j < m.len() {
                        assert(mp[i] == m[i] && mp[j] == m[j]);
                    } else if i < m.len() {
                        assert(mp[i] == m[i] && m.contains(m[i]));
                    } else if j < m.len() {
                        assert(mp[j] == m[j] && m.contains(m[j]));
                    }
                }
            }
        }
    }
}

/// Every command agrees that a key that is not live (missing, or expired and
/// not yet dropped) is gone: its TTL report is -2, it reads as missing, and its
/// type is `None`; a live key has a type.
pub proof fn lemma_live_agrees(db: DbModel, key: Seq<char>, now: u64)
    ensures
        !live(db, key, now) ==> crate::store::ttl_report(db, key, now) == -2,
        !live(db, key, now) ==> crate::store::string::get_model(db, key, now) == Ok::<Option<Seq<char>>, Seq<char>>(None),
        !live(db, key, now) ==> kind_label(db, key, now) == "None\n"@,
        live(db, key, now) ==> kind_label(db, key, now) != "None\n"@,
{
    reveal_strlit("None\n");
    reveal_strlit("String\n");
    reveal_strlit("Hash\n");
    assert("None\n"@.len() != "String\n"@.len());
    assert("None\n"@[0] != "Hash\n"@[0]);
}

/// `n` stars.
pub open spec fn stars(n: nat) -> Seq<char> {
    Seq::new(n, |i: int| '*')
}

proof fn lemma_strip_stars_of(q: Seq<char>, n: nat)
    requires
        q.len() == 0 || q.last() != '*',
    ensures
        strip_stars(q + stars(n)) == q,
    decreases n,
{
    if n == 0 {
        assert(q + stars(n) =~= q);
    } else {
        lemma_strip_stars_of(q, (n - 1) as nat);
        assert((q + stars(n)).last() == '*');
        assert((q + stars(n)).drop_last() =~= q + stars((n - 1) as nat));
    }
}

/// What KEYS matches: a pattern is some text `q` not ending in `*`, followed by
/// any number of `*`s; unless the pattern is `*` itself, a key is listed exactly
/// when its first characters are all of `q`.
pub proof fn lemma_key_matches_prefix(k: Seq<char>, q: Seq<char>, n: nat)
    requires
        q.len() == 0 || q.last() != '*',
        q + stars(n) != "*"@,
    ensures
        key_matches(k, q + stars(n)) <==> (q.len() <= k.len() && forall|i: int| 0 <= i < q.len() ==> k[i] == q[i]),
{
    lemma_strip_stars_of(q, n);
    if q.len() <= k.len() && forall|i: int| 0 <= i < q.len() ==> k[i] == q[i] {
        assert(q =~= k.subrange(0, q.len() as int));
    }
    if q.is_prefix_of(k) {
        assert forall|i: int| 0 <= i < q.len() implies k[i] == q[i] by {
            assert(k.subrange(0, q.len() as int)[i] == k[i]);
        }
    }
}

/// KEYS with a pattern other than `*`: the listing holds key `k` exactly when
/// `k` is a live key whose first characters are the pattern less its trailing
/// `*`s.
pub proof fn lemma_keys_listing(ks: Seq<Seq<char>>, db: DbModel, now: u64, k: Seq<char>, q: Seq<char>, n: nat)
    requires
        q.len() == 0 || q.last() != '*',
        q + stars(n) != "*"@,
    ensures
        matching(live_keys(ks, db, now), q + stars(n)).contains(k) <==> (ks.contains(k) && live(db, k, now) && q.len()
            <= k.len() && forall|i: int| 0 <= i < q.len() ==> k[i] == q[i]),
{
    lemma_keys_lists_matches(live_keys(ks, db, now), q + stars(n), k);
    lemma_live_keys(ks, db, now, k);
    lemma_key_matches_prefix(k, q, n);
}

} // verus!
