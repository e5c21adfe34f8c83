//! The keyspace: entries holding a string or a hash, with an optional expiry
//! instant, and the server's counters.
use crate::keymap::KeyMap;
use vstd::prelude::*;

pub mod hashmap;
pub mod string;
pub mod server;
pub mod config_store;

verus! {

/// Nanoseconds in one second.
pub const NANOS_PER_SEC: u64 = 1_000_000_000;

/// A stored value.
pub enum RedisValue {
    String(String),
    Hash(KeyMap<String>),
}

/// The model of a stored value.
pub enum ValueModel {
    Str(Seq<char>),
    Hash(Map<Seq<char>, Seq<char>>),
}

impl View for RedisValue {
    type V = ValueModel;

    open spec fn view(&self) -> ValueModel {
        match self {
            RedisValue::String(s) => ValueModel::Str(s@),
            RedisValue::Hash(h) => ValueModel::Hash(h@),
        }
    }
}

/// A key's entry: its value and, if it expires, the instant (in nanoseconds on
/// the server clock) after which it counts as gone.
pub struct Entry {
    pub value: RedisValue,
    pub expires_at: Option<u128>,
}

/// The model of an entry.
pub struct EntryModel {
    pub value: ValueModel,
    pub expires_at: Option<u128>,
}

impl View for Entry {
    type V = EntryModel;

    open spec fn view(&self) -> EntryModel {
        EntryModel { value: self.value@, expires_at: self.expires_at }
    }
}

/// The keyspace.
pub type Db = KeyMap<Entry>;

/// The model of the keyspace.
pub type DbModel = Map<Seq<char>, EntryModel>;

/// Whether an entry counts as expired at `now`: only once `now` is past its
/// expiry instant.
pub open spec fn expired(e: EntryModel, now: u64) -> bool {
    match e.expires_at {
        Some(at) => now > at,
        None => false,
    }
}

/// The expiry instant of an entry written at `now` with an optional lifetime in
/// seconds.
pub open spec fn expiry_after(now: u64, ttl_secs: Option<u64>) -> Option<u128> {
    match ttl_secs {
        Some(secs) => Some((now + secs * 1_000_000_000) as u128),
        None => None,
    }
}

/// Executable [`expiry_after`].
pub fn compute_expiry(now: u64, ttl_secs: Option<u64>) -> (r: Option<u128>)
    ensures
        r == expiry_after(now, ttl_secs),
{
    match ttl_secs {
        Some(secs) => {
            assert(secs * 1_000_000_000 <= u64::MAX * 1_000_000_000) by (nonlinear_arith)
                requires
                    secs <= u64::MAX,
            ;
            Some(now as u128 + secs as u128 * 1_000_000_000u128)
        },
        None => None,
    }
}

/// What the TTL commands report: -2 for a missing or expired key, -1 for a key
/// without expiry, else the whole seconds left (as `Duration::as_secs() as i64`).
pub open spec fn ttl_report(db: DbModel, key: Seq<char>, now: u64) -> i64 {
    if !db.contains_key(key) || expired(db[key], now) {
        -2i64
    } else {
        match db[key].expires_at {
            None => -1i64,
            Some(at) => ((at - now) / 1_000_000_000) as i64,
        }
    }
}

impl Entry {
    /// Whether the entry counts as expired at `now`.
    pub fn is_expired(&self, now: u64) -> (r: bool)
        ensures
            r == expired(self@, now),
    {
        match self.expires_at {
            Some(at) => now as u128 > at,
            None => false,
        }
    }
}

/// The server's counters. Instants are nanoseconds on the server clock.
pub struct ServerStats {
    pub started_at: u64,
    pub total_commands: u64,
    pub total_connections: u64,
    pub used_memory: usize,
    pub connected_clients: usize,
}

impl ServerStats {
    /// Fresh counters for a server started at `started_at`.
    pub fn new(started_at: u64) -> (s: ServerStats)
        ensures
            s.started_at == started_at,
            s.total_commands == 0,
            s.total_connections == 0,
            s.used_memory == 0,
            s.connected_clients == 0,
    {
        ServerStats {
            started_at,
            total_commands: 0,
            total_connections: 0,
            connected_clients: 0,
            used_memory: 0,
        }
    }

    /// A client connected: both the current and the total count go up (wrapping,
    /// as an atomic `fetch_add` does).
    pub fn increment_connections(&mut self)
        ensures
            final(self).connected_clients == old(self).connected_clients.wrapping_add(1),
            final(self).total_connections == old(self).total_connections.wrapping_add(1),
            final(self).total_commands == old(self).total_commands,
            final(self).used_memory == old(self).used_memory,
            final(self).started_at == old(self).started_at,
    {
        self.connected_clients = self.connected_clients.wrapping_add(1);
        self.total_connections = self.total_connections.wrapping_add(1);
    }

    /// One more command processed (wrapping).
    pub fn increment_commands(&mut self)
        ensures
            final(self).total_commands == old(self).total_commands.wrapping_add(1),
            final(self).connected_clients == old(self).connected_clients,
            final(self).total_connections == old(self).total_connections,
            final(self).used_memory == old(self).used_memory,
            final(self).started_at == old(self).started_at,
    {
        self.total_commands = self.total_commands.wrapping_add(1);
    }

    /// A client left: the current count goes down, but not below zero.
    pub fn decrement_connections(&mut self)
        ensures
            final(self).connected_clients == old(self).connected_clients.saturating_sub(1),
            final(self).total_connections == old(self).total_connections,
            final(self).total_commands == old(self).total_commands,
            final(self).used_memory == old(self).used_memory,
            final(self).started_at == old(self).started_at,
    {
        self.connected_clients = self.connected_clients.saturating_sub(1);
    }

    /// Adds `bytes` to the memory estimate (wrapping).
    pub fn add_memory(&mut self, bytes: usize)
        ensures
            final(self).used_memory == old(self).used_memory.wrapping_add(bytes),
            final(self).connected_clients == old(self).connected_clients,
            final(self).total_connections == old(self).total_connections,
            final(self).total_commands == old(self).total_commands,
            final(self).started_at == old(self).started_at,
    {
        self.used_memory = self.used_memory.wrapping_add(bytes);
    }

    /// Subtracts `bytes` from the memory estimate (wrapping).
    pub fn sub_memory(&mut self, bytes: usize)
        ensures
            final(self).used_memory == old(self).used_memory.wrapping_sub(bytes),
            final(self).connected_clients == old(self).connected_clients,
            final(self).total_connections == old(self).total_connections,
            final(self).total_commands == old(self).total_commands,
            final(self).started_at == old(self).started_at,
    {
        self.used_memory = self.used_memory.wrapping_sub(bytes);
    }
}

/// The byte length that `str::len` reports for a string with these characters.
pub open spec fn byte_len(s: Seq<char>) -> usize {
    vstd::utf8::encode_utf8(s).len() as usize
}

/// The sum (wrapping) of key and value byte lengths over the given keys of a hash.
pub open spec fn fields_size(keys: Seq<Seq<char>>, h: Map<Seq<char>, Seq<char>>) -> usize
    decreases keys.len(),
{
    if keys.len() == 0 {
        0
    } else {
        fields_size(keys.drop_last(), h).wrapping_add(
            byte_len(keys.last()).wrapping_add(byte_len(h[keys.last()])),
        )
    }
}

/// The byte size of a value: its bytes for a string; for a hash, the bytes of
/// every field and value.
pub open spec fn value_size(v: &RedisValue) -> usize {
    match v {
        RedisValue::String(s) => byte_len(s@),
        RedisValue::Hash(h) => fields_size(h.key_order(), h@),
    }
}

/// The memory estimate of a key and its value: their bytes plus 64 (wrapping).
pub open spec fn entry_size(key: Seq<char>, v: &RedisValue) -> usize {
    byte_len(key).wrapping_add(value_size(v)).wrapping_add(64)
}

/// The memory estimate of a key and its value.
pub fn estimate_size(key: &str, value: &RedisValue) -> (r: usize)
    ensures
        r == entry_size(key@, value),
{
    let key_size = key.len();
    let value_size = match value {
        RedisValue::String(s) => s.as_str().len(),
        RedisValue::Hash(h) => {
            let mut sum: usize = 0;
            let mut i: usize = 0;
            let n = h.len();
            while i < n
                invariant
                    n == h.key_order().len(),
                    i <= n,
                    sum == fields_size(h.key_order().take(i as int), h@),
                decreases n - i,
            {
                let k = h.key_at(i);
                let v = h.value_at(i);
                let part = k.as_str().len().wrapping_add(v.as_str().len());
                assert(h.key_order().take(i + 1).drop_last() == h.key_order().take(i as int));
                sum = sum.wrapping_add(part);
                i = i + 1;
            }
            assert(h.key_order().take(n as int) == h.key_order());
            sum
        },
    };
    key_size.wrapping_add(value_size).wrapping_add(64)
}

/// Fresh counters for a server started now on `clock`.
pub fn create_stats(clock: &crate::clock::Clock) -> (s: ServerStats)
    ensures
        s.total_commands == 0,
        s.total_connections == 0,
        s.used_memory == 0,
        s.connected_clients == 0,
{
    ServerStats::new(clock.now())
}

/// An empty keyspace.
pub fn create_db() -> (db: Db)
    ensures
        db@ == Map::<Seq<char>, EntryModel>::empty(),
        db.key_order() == Seq::<Seq<char>>::empty(),
{
    KeyMap::new()
}

/// A client that connects and then leaves brings the current client count back
/// to what it was (short of the count's limit); the count never goes below zero.
pub proof fn lemma_connect_then_disconnect(clients: usize)
    ensures
        clients < usize::MAX ==> clients.wrapping_add(1).saturating_sub(1) == clients,
        0usize.saturating_sub(1) == 0,
{
}

/// Expiry is final: an entry expired at some instant is expired at every later
/// one, and an entry without expiry never expires.
pub proof fn lemma_expiry_is_final(e: EntryModel, now: u64, later: u64)
    ensures
        expired(e, now) && now <= later ==> expired(e, later),
        e.expires_at is None ==> !expired(e, later),
{
}

} // verus!
