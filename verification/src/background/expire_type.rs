//! Active expiry: each round looks at a random sample of keys and drops the
//! expired ones among them.
use crate::keymap::{lemma_index_of_unique, str_views};
use crate::store::{entry_size, estimate_size, expired, Db, DbModel, ServerStats};
use rand::rngs::ThreadRng;
use rand::seq::IteratorRandom;
use vstd::prelude::*;

verus! {

#[verifier::external_type_specification]
#[verifier::external_body]
pub struct ExThreadRng(ThreadRng);

/// `rand::thread_rng()`. Trusted: nothing is claimed of the generator.
#[verifier::external_body]
fn thread_rng() -> ThreadRng {
    rand::thread_rng()
}

/// `(0..total).choose_multiple(rng, amount)` (`IteratorRandom::choose_multiple`).
/// Trusted: rand's reservoir sampling returns `amount` elements of the range, or
/// all of them when there are fewer, each element at most once; which ones is
/// left to chance and not stated.
#[verifier::external_body]
fn choose_indices(rng: &mut ThreadRng, total: usize, amount: usize) -> (r: Vec<usize>)
    ensures
        r@.len() == if amount < total {
            amount
        } else {
            total
        },
        forall|i: int| 0 <= i < r@.len() ==> r@[i] < total,
        r@.no_duplicates(),
{
    (0..total).choose_multiple(rng, amount)
}

/// The keys of `ks` that are present and expired at `now`, in order.
pub open spec fn expired_among(ks: Seq<Seq<char>>, db: DbModel, now: u64) -> Seq<Seq<char>>
    decreases ks.len(),
{
    if ks.len() == 0 {
        ks
    } else if db.contains_key(ks.last()) && expired(db[ks.last()], now) {
        expired_among(ks.drop_last(), db, now).push(ks.last())
    } else {
        expired_among(ks.drop_last(), db, now)
    }
}

/// The memory counter after subtracting (wrapping) the size estimate of each key
/// of `ks` with its value in `db`.
pub open spec fn memory_after(mem: usize, ks: Seq<Seq<char>>, db: &Db) -> usize
    decreases ks.len(),
{
    if ks.len() == 0 {
        mem
    } else {
        memory_after(mem, ks.drop_last(), db).wrapping_sub(entry_size(ks.last(), &db.value_of(ks.last()).value))
    }
}

/// The size estimate of key `k` with its value in `db`.
pub open spec fn key_size(k: Seq<char>, db: &Db) -> int {
    entry_size(k, &db.value_of(k).value) as int
}

/// The sum (without wrapping) of the size estimates of the keys `ks` in `db`.
pub open spec fn sizes_sum(ks: Seq<Seq<char>>, db: &Db) -> int
    decreases ks.len(),
{
    if ks.len() == 0 {
        0
    } else {
        sizes_sum(ks.drop_last(), db) + key_size(ks.last(), db)
    }
}

/// The memory counter's modulus: one more than `usize::MAX`.
pub open spec fn memory_modulus() -> int {
    usize::MAX as int + 1
}

/// Whether the memory counter equals the sum of the size estimates of every key
/// with its value, taken modulo the counter's range (the counter wraps).
pub open spec fn memory_matches(used: usize, db: &Db) -> bool {
    used as int == sizes_sum(db.key_order(), db) % memory_modulus()
}

proof fn lemma_sizes_sum_remove(ks: Seq<Seq<char>>, i: int, db: &Db)
    requires
        0 <= i < ks.len(),
    ensures
        sizes_sum(ks.remove(i), db) == sizes_sum(ks, db) - key_size(ks[i], db),
    decreases ks.len(),
{
    if i == ks.len() - 1 {
        assert(ks.remove(i) =~= ks.drop_last());
    } else {
        lemma_sizes_sum_remove(ks.drop_last(), i, db);
        assert(ks.remove(i).drop_last() =~= ks.drop_last().remove(i));
        assert(ks.remove(i).last() == ks.last());
    }
}

proof fn lemma_sizes_sum_same(ks: Seq<Seq<char>>, a: &Db, b: &Db)
    requires
        forall|j: int| 0 <= j < ks.len() ==> a.value_of(#[trigger] ks[j]) == b.value_of(ks[j]),
    ensures
        sizes_sum(ks, a) == sizes_sum(ks, b),
    decreases ks.len(),
{
    if ks.len() > 0 {
        assert forall|j: int| 0 <= j < ks.drop_last().len() implies a.value_of(#[trigger] ks.drop_last()[j]) == b.value_of(
            ks.drop_last()[j],
        ) by {
            assert(ks.drop_last()[j] == ks[j]);
        }
        lemma_sizes_sum_same(ks.drop_last(), a, b);
        assert(a.value_of(ks[ks.len() - 1]) == b.value_of(ks[ks.len() - 1]));
    }
}

proof fn lemma_wrapping_sub_mod(x: usize, y: usize, a: int)
    requires
        x as int == a % memory_modulus(),
    ensures
        x.wrapping_sub(y) as int == (a - y) % memory_modulus(),
{
    let m = memory_modulus();
    let d = x as int - y as int;
    vstd::arithmetic::div_mod::lemma_add_mod_noop_right(-(y as int), a, m);
    assert(-(y as int) + a % m == d);
    assert(-(y as int) + a == a - y);
    if x >= y {
        vstd::arithmetic::div_mod::lemma_small_mod(d as nat, m as nat);
        assert(x.wrapping_sub(y) as int == d);
    } else {
        vstd::arithmetic::div_mod::lemma_mod_add_multiples_vanish(d, m);
        vstd::arithmetic::div_mod::lemma_small_mod((m + d) as nat, m as nat);
        assert(x.wrapping_sub(y) as int == m + d);
    }
}

/// Taking the size estimates of `ks` off a counter that matched `a` (modulo the
/// counter's range) leaves it matching `a` less their sum.
proof fn lemma_memory_after_mod(mem: usize, ks: Seq<Seq<char>>, db: &Db, a: int)
    requires
        mem as int == a % memory_modulus(),
    ensures
        memory_after(mem, ks, db) as int == (a - sizes_sum(ks, db)) % memory_modulus(),
    decreases ks.len(),
{
    if ks.len() > 0 {
        lemma_memory_after_mod(mem, ks.drop_last(), db, a);
        lemma_wrapping_sub_mod(
            memory_after(mem, ks.drop_last(), db),
            entry_size(ks.last(), &db.value_of(ks.last()).value),
            a - sizes_sum(ks.drop_last(), db),
        );
    }
}

/// Drops those of `keys` (no key twice) that are expired at `now`, taking each
/// one's size estimate off the memory counter; returns how many were dropped.
/// A memory counter that matched the keyspace's size estimates still matches.
pub fn remove_expired(db: &mut Db, stats: &mut ServerStats, keys: &Vec<String>, now: u64) -> (r: usize)
    requires
        str_views(keys@).no_duplicates(),
    ensures
        r == expired_among(str_views(keys@), old(db)@, now).len(),
        final(db)@ == old(db)@.remove_keys(expired_among(str_views(keys@), old(db)@, now).to_set()),
        final(stats).used_memory == memory_after(
            old(stats).used_memory,
            expired_among(str_views(keys@), old(db)@, now),
            old(db),
        ),
        final(stats).connected_clients == old(stats).connected_clients,
        final(stats).total_connections == old(stats).total_connections,
        final(stats).total_commands == old(stats).total_commands,
        final(stats).started_at == old(stats).started_at,
        memory_matches(old(stats).used_memory, old(db)) ==> memory_matches(final(stats).used_memory, final(db)),
{
    let ghost kv = str_views(keys@);
    let mut count: usize = 0;
    let mut i: usize = 0;
    assert(kv.take(0) =~= Seq::<Seq<char>>::empty());
    assert(old(db)@.remove_keys(Set::empty()) =~= old(db)@);
    while i < keys.len()
        invariant
            kv == str_views(keys@),
            kv.no_duplicates(),
            i <= keys@.len(),
            count == expired_among(kv.take(i as int), old(db)@, now).len(),
            count <= i,
            db@ == old(db)@.remove_keys(expired_among(kv.take(i as int), old(db)@, now).to_set()),
            forall|q: Seq<char>| #[trigger] db@.contains_key(q) ==> db.value_of(q) == old(db).value_of(q),
            stats.used_memory == memory_after(old(stats).used_memory, expired_among(kv.take(i as int), old(db)@, now), old(db)),
            sizes_sum(db.key_order(), db) == sizes_sum(old(db).key_order(), old(db)) - sizes_sum(
                expired_among(kv.take(i as int), old(db)@, now),
                old(db),
            ),
            stats.connected_clients == old(stats).connected_clients,
            stats.total_connections == old(stats).total_connections,
            stats.total_commands == old(stats).total_commands,
            stats.started_at == old(stats).started_at,
        decreases keys.len() - i,
    {
        let ghost pre = kv.take(i as int);
        let ghost gone = expired_among(pre, old(db)@, now);
        let ghost k = kv[i as int];
        assert(kv.take(i + 1).drop_last() == pre);
        assert(kv.take(i + 1).last() == k);
        assert(k == keys@[i as int]@);
        proof {
            lemma_expired_among_subset(pre, old(db)@, now);
            assert(!pre.contains(k)) by {
                if pre.contains(k) {
                    let j = pre.index_of(k);
                    assert(kv[j] == kv[i as int]);
                }
            }
            assert(!gone.to_set().contains(k));
        }
        let key = keys[i].as_str();
        let found = match db.get(key) {
            Some(entry) => {
                if entry.is_expired(now) {
                    Some(estimate_size(key, &entry.value))
                } else {
                    None
                }
            },
            None => None,
        };
        proof {
            if db@.contains_key(k) {
                assert(old(db)@.contains_key(k));
                assert(db@[k] == old(db)@[k]);
            } else {
                assert(!old(db)@.contains_key(k));
            }
        }
        match found {
            Some(size) => {
                assert(expired_among(kv.take(i + 1), old(db)@, now) == gone.push(k));
                assert(size == entry_size(k, &old(db).value_of(k).value));
                assert(gone.push(k).drop_last() == gone);
                stats.sub_memory(size);
                let _ = db.len();
                let ghost pre = *db;
                let ghost ko = db.key_order();
                let ghost idx = ko.index_of(k);
                proof {
                    assert(ko.to_set().contains(k));
                    lemma_index_of_unique(ko, idx);
                }
                let _ = db.remove(key);
                proof {
                    assert(db.key_order() == ko.remove(idx));
                    assert forall|j: int| 0 <= j < ko.remove(idx).len() implies db.value_of(#[trigger] ko.remove(idx)[j])
                        == pre.value_of(ko.remove(idx)[j]) by {
                        let j1 = if j < idx { j } else { j + 1 };
                        assert(ko.remove(idx)[j] == ko[j1]);
                        assert(ko[j1] != k);
                        assert(ko.to_set().contains(ko[j1]));
                    }
                    lemma_sizes_sum_same(ko.remove(idx), db, &pre);
                    lemma_sizes_sum_remove(ko, idx, &pre);
                    assert(key_size(k, &pre) == key_size(k, old(db)));
                }
                count = count + 1;
                proof {
                    gone.lemma_push_to_set_commute(k);
                }
                assert(db@ =~= old(db)@.remove_keys(gone.push(k).to_set()));
            },
            None => {
                assert(expired_among(kv.take(i + 1), old(db)@, now) == gone);
            },
        }
        i = i + 1;
    }
    assert(kv.take(i as int) == kv);
    proof {
        if memory_matches(old(stats).used_memory, old(db)) {
            lemma_memory_after_mod(
                old(stats).used_memory,
                expired_among(kv, old(db)@, now),
                old(db),
                sizes_sum(old(db).key_order(), old(db)),
            );
        }
    }
    count
}

proof fn lemma_expired_among_subset(ks: Seq<Seq<char>>, db: DbModel, now: u64)
    ensures
        forall|q: Seq<char>| #[trigger] expired_among(ks, db, now).contains(q) ==> ks.contains(q) && db.contains_key(q) && expired(db[q], now),
        expired_among(ks, db, now).len() <= ks.len(),
    decreases ks.len(),
{
    if ks.len() > 0 {
        lemma_expired_among_subset(ks.drop_last(), db, now);
        assert forall|q: Seq<char>| expired_among(ks, db, now).contains(q) implies ks.contains(q)
            && db.contains_key(q) && expired(db[q], now) by {
            let d = ks.drop_last();
            if expired_among(d, db, now).contains(q) {
                assert(d.contains(q));
                let j = d.index_of(q);
                assert(d[j] == q);
                assert(ks[j] == q);
            } else {
                assert(ks[ks.len() - 1] == q);
            }
        }
    }
}


proof fn lemma_expired_among_no_dups(ks: Seq<Seq<char>>, db: DbModel, now: u64)
    requires
        ks.no_duplicates(),
    ensures
        expired_among(ks, db, now).no_duplicates(),
    decreases ks.len(),
{
    if ks.len() > 0 {
        let d = ks.drop_last();
        assert(d.no_duplicates());
        lemma_expired_among_no_dups(d, db, now);
        lemma_expired_among_subset(d, db, now);
        if expired_among(d, db, now).contains(ks.last()) {
            assert(d.contains(ks.last()));
            let j = d.index_of(ks.last());
            assert(d[j] == ks.last());
            assert(ks[j] == ks[ks.len() - 1]);
            assert(false);
        }
    }
}

/// The size of the sample that one round looks at.
pub open spec fn sample_size(total: nat) -> nat {
    if total < 20 {
        total
    } else {
        20
    }
}

/// The keys of `ko` at the positions `picks`, in the order of `picks`.
pub open spec fn keys_at(ko: Seq<Seq<char>>, picks: Seq<usize>) -> Seq<Seq<char>> {
    Seq::new(picks.len(), |i: int| ko[picks[i] as int])
}

/// Drops the expired keys among those at the positions `picks` (distinct
/// positions of the map's key order), taking each one's size estimate off the
/// memory counter; returns how many were dropped.
pub fn expire_sampled(db: &mut Db, stats: &mut ServerStats, picks: &Vec<usize>, now: u64) -> (removed: usize)
    requires
        forall|a: int| 0 <= a < picks@.len() ==> picks@[a] < old(db).key_order().len(),
        picks@.no_duplicates(),
    ensures
        keys_at(old(db).key_order(), picks@).no_duplicates(),
        forall|i: int| 0 <= i < picks@.len() ==> old(db)@.contains_key(#[trigger] keys_at(old(db).key_order(), picks@)[i]),
        removed == expired_among(keys_at(old(db).key_order(), picks@), old(db)@, now).len(),
        final(db)@ == old(db)@.remove_keys(expired_among(keys_at(old(db).key_order(), picks@), old(db)@, now).to_set()),
        final(stats).used_memory == memory_after(
            old(stats).used_memory,
            expired_among(keys_at(old(db).key_order(), picks@), old(db)@, now),
            old(db),
        ),
        final(stats).connected_clients == old(stats).connected_clients,
        final(stats).total_connections == old(stats).total_connections,
        final(stats).total_commands == old(stats).total_commands,
        final(stats).started_at == old(stats).started_at,
        memory_matches(old(stats).used_memory, old(db)) ==> memory_matches(final(stats).used_memory, final(db)),
{
    let total = db.len();
    let mut keys: Vec<String> = Vec::new();
    let mut j: usize = 0;
    while j < picks.len()
        invariant
            j <= picks@.len(),
            total == db.key_order().len(),
            db.key_order().no_duplicates(),
            forall|a: int| 0 <= a < picks@.len() ==> picks@[a] < total,
            picks@.no_duplicates(),
            keys@.len() == j,
            forall|a: int| 0 <= a < j ==> #[trigger] keys@[a]@ == db.key_order()[picks@[a] as int],
        decreases picks.len() - j,
    {
        let k = db.key_at(picks[j]).clone();
        keys.push(k);
        j = j + 1;
    }
    let ghost kv = str_views(keys@);
    assert(kv =~= keys_at(db.key_order(), picks@));
    assert(kv.no_duplicates()) by {
        assert forall|a: int, b: int| 0 <= a < kv.len() && 0 <= b < kv.len() && a != b implies kv[a] != kv[b] by {
            assert(kv[a] == db.key_order()[picks@[a] as int]);
            assert(kv[b] == db.key_order()[picks@[b] as int]);
        }
    }
    assert forall|i: int| 0 <= i < picks@.len() implies old(db)@.contains_key(#[trigger] kv[i]) by {
        let ko = old(db).key_order();
        assert(kv[i] == ko[picks@[i] as int]);
        assert(ko.to_set().contains(ko[picks@[i] as int]));
    }
    remove_expired(db, stats, &keys, now)
}

/// One round of active expiry at `now`: looks at `min(20, n)` distinct keys of
/// the `n` present, chosen at random, and drops every expired one among them,
/// taking their size estimates off the memory counter. Returns whether another
/// round should follow at once: when at least a quarter of the sample was
/// dropped. An empty keyspace ends the rounds. Only expired keys are dropped,
/// and no other key or counter changes; a memory counter that matched the
/// keyspace's size estimates still matches.
pub fn active_expiry_round(db: &mut Db, stats: &mut ServerStats, now: u64) -> (r: bool)
    ensures
        forall|q: Seq<char>| #[trigger] final(db)@.contains_key(q) ==> old(db)@.contains_key(q) && final(db)@[q] == old(db)@[q],
        forall|q: Seq<char>| old(db)@.contains_key(q) && !final(db)@.contains_key(q) ==> expired(old(db)@[q], now),
        old(db)@.len() == 0 ==> !r && final(db)@ == old(db)@ && *final(stats) == *old(stats),
        old(db)@.len() > 0 ==> exists|sample: Seq<Seq<char>>| {
            &&& sample.len() == sample_size(old(db)@.len())
            &&& sample.no_duplicates()
            &&& forall|i: int| 0 <= i < sample.len() ==> old(db)@.contains_key(#[trigger] sample[i])
            &&& final(db)@ == old(db)@.remove_keys(expired_among(sample, old(db)@, now).to_set())
            &&& r == (expired_among(sample, old(db)@, now).len() * 100 / sample.len() >= 25)
            &&& final(stats).used_memory == memory_after(
                old(stats).used_memory,
                expired_among(sample, old(db)@, now),
                old(db),
            )
        },
        final(stats).connected_clients == old(stats).connected_clients,
        final(stats).total_connections == old(stats).total_connections,
        final(stats).total_commands == old(stats).total_commands,
        final(stats).started_at == old(stats).started_at,
        memory_matches(old(stats).used_memory, old(db)) ==> memory_matches(final(stats).used_memory, final(db)),
{
    let total = db.len();
    if total == 0 {
        return false;
    }
    let sample = if total < 20 {
        total
    } else {
        20
    };
    let mut rng = thread_rng();
    let picks = choose_indices(&mut rng, total, sample);
    let ghost kv = keys_at(old(db).key_order(), picks@);
    let removed = expire_sampled(db, stats, &picks, now);
    proof {
        let gone = expired_among(kv, old(db)@, now);
        assert(db@ == old(db)@.remove_keys(gone.to_set()));
        assert(forall|q: Seq<char>| #[trigger] db@.contains_key(q) == (old(db)@.contains_key(q) && !gone.to_set().contains(q)));
        lemma_expired_among_subset(kv, old(db)@, now);
        lemma_expired_among_no_dups(kv, old(db)@, now);
        assert forall|q: Seq<char>| #[trigger] gone.contains(q) <==> (old(db)@.contains_key(q) && !db@.contains_key(q)) by {
            if gone.contains(q) {
                assert(gone.to_set().contains(q));
            }
            if old(db)@.contains_key(q) && !db@.contains_key(q) {
                assert(gone.to_set().contains(q));
            }
        }
        assert forall|q: Seq<char>| old(db)@.contains_key(q) && !db@.contains_key(q) implies expired(old(db)@[q], now) by {
            assert(gone.contains(q));
        }
        assert(kv.len() == sample_size(old(db)@.len()));
        assert(removed == gone.len());
    }
    !(removed * 100 / sample < 25)
}

/// Every key of `ks` that is present and expired is among the expired ones.
proof fn lemma_expired_among_complete(ks: Seq<Seq<char>>, db: DbModel, now: u64, q: Seq<char>)
    requires
        ks.contains(q),
        db.contains_key(q),
        expired(db[q], now),
    ensures
        expired_among(ks, db, now).contains(q),
    decreases ks.len(),
{
    let d = ks.drop_last();
    if ks.last() == q {
        assert(expired_among(ks, db, now).last() == q);
        assert(expired_among(ks, db, now)[expired_among(ks, db, now).len() - 1] == q);
    } else {
        let j = choose|j: int| 0 <= j < ks.len() && ks[j] == q;
        assert(j < ks.len() - 1);
        assert(d[j] == q);
        lemma_expired_among_complete(d, db, now, q);
        let e = expired_among(d, db, now);
        let i = choose|i: int| 0 <= i < e.len() && e[i] == q;
        if db.contains_key(ks.last()) && expired(db[ks.last()], now) {
            assert(expired_among(ks, db, now)[i] == q);
        }
    }
}

/// After [`remove_expired`] on `keys`, none of those keys that is left is
/// expired, and every key not among them is left as it was.
pub proof fn lemma_no_expired_key_left(keys: Seq<Seq<char>>, db: DbModel, now: u64, q: Seq<char>)
    ensures
        keys.contains(q) && db.remove_keys(expired_among(keys, db, now).to_set()).contains_key(q) ==> !expired(db[q], now),
        !keys.contains(q) && db.contains_key(q) ==> db.remove_keys(expired_among(keys, db, now).to_set()).contains_key(q)
            && db.remove_keys(expired_among(keys, db, now).to_set())[q] == db[q],
{
    lemma_expired_among_subset(keys, db, now);
    if keys.contains(q) && db.contains_key(q) && expired(db[q], now) {
        lemma_expired_among_complete(keys, db, now, q);
        assert(expired_among(keys, db, now).to_set().contains(q));
    }
    if !keys.contains(q) {
        assert(!expired_among(keys, db, now).to_set().contains(q));
    }
}

/// Whatever positions the sampler draws, every key at a drawn position that is
/// expired is dropped, and any key of the map can be drawn: the sampled keys
/// are exactly the keys at the drawn positions.
pub proof fn lemma_drawn_expired_key_is_dropped(db: DbModel, ko: Seq<Seq<char>>, picks: Seq<usize>, a: int, now: u64)
    requires
        0 <= a < picks.len(),
        picks[a] < ko.len(),
        db.contains_key(ko[picks[a] as int]),
        expired(db[ko[picks[a] as int]], now),
    ensures
        keys_at(ko, picks)[a] == ko[picks[a] as int],
        expired_among(keys_at(ko, picks), db, now).contains(ko[picks[a] as int]),
        !db.remove_keys(expired_among(keys_at(ko, picks), db, now).to_set()).contains_key(ko[picks[a] as int]),
{
    let ks = keys_at(ko, picks);
    assert(ks[a] == ko[picks[a] as int]);
    lemma_expired_among_complete(ks, db, now, ko[picks[a] as int]);
    assert(expired_among(ks, db, now).to_set().contains(ko[picks[a] as int]));
}

} // verus!
