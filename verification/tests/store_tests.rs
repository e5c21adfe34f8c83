use jedis::keymap::KeyMap;
use jedis::store::hashmap::{hdel, hget, hset, httl};
use jedis::store::server::{data_type, flush_db, get_db_size, get_keys, matching_keys, server_info};
use jedis::store::string::{del, get, key_exists, ttl};
use jedis::store::{create_db, estimate_size, Entry, RedisValue, ServerStats};

const SEC: u64 = 1_000_000_000;

#[test]
fn set_then_get_returns_value() {
    let mut db = create_db();
    jedis::store::string::set(&mut db, "name", "jedis", None, 0);
    assert_eq!(get(&mut db, "name", 5 * SEC), Ok(Some("jedis".to_string())));
}

#[test]
fn get_missing_is_none() {
    let mut db = create_db();
    assert_eq!(get(&mut db, "nope", 0), Ok(None));
}

#[test]
fn set_replaces_value_and_type() {
    let mut db = create_db();
    hset(&mut db, "k", "f", "v", None, 0).unwrap();
    jedis::store::string::set(&mut db, "k", "plain", None, 0);
    assert_eq!(get(&mut db, "k", 0), Ok(Some("plain".to_string())));
    assert_eq!(db.len(), 1);
}

#[test]
fn expired_key_reads_as_missing_and_is_dropped() {
    let mut db = create_db();
    jedis::store::string::set(&mut db, "temp", "x", Some(10), 0);
    // still there exactly at the expiry instant
    assert_eq!(get(&mut db, "temp", 10 * SEC), Ok(Some("x".to_string())));
    assert_eq!(get(&mut db, "temp", 10 * SEC + 1), Ok(None));
    assert!(!key_exists(&db, "temp", 10 * SEC + 1));
}

#[test]
fn get_on_hash_is_wrongtype() {
    let mut db = create_db();
    hset(&mut db, "h", "f", "v", None, 0).unwrap();
    assert_eq!(get(&mut db, "h", 0), Err("WRONGTYPE key holds a non-string value".to_string()));
}

#[test]
fn del_reports_presence() {
    let mut db = create_db();
    jedis::store::string::set(&mut db, "a", "1", None, 0);
    assert_eq!(del(&mut db, "a", 0), Some(()));
    assert_eq!(del(&mut db, "a", 0), None);
    assert!(!key_exists(&db, "a", 0));
}

#[test]
fn expired_keys_not_yet_dropped_count_as_gone() {
    let mut db = create_db();
    jedis::store::string::set(&mut db, "a", "1", Some(1), 0);
    jedis::store::string::set(&mut db, "b", "2", None, 0);
    let later = 2 * SEC;
    assert!(key_exists(&db, "a", 0));
    assert!(!key_exists(&db, "a", later));
    assert_eq!(data_type(&db, "a", later), "None\n");
    assert_eq!(get_db_size(&db, later), "1");
    assert_eq!(get_keys(&db, "*", later), "1) b\n");
    assert_eq!(db.len(), 2);
    // DEL drops it, but reports that nothing was there
    assert_eq!(del(&mut db, "a", later), None);
    assert_eq!(db.len(), 1);
}

#[test]
fn ttl_reports() {
    let mut db = create_db();
    jedis::store::string::set(&mut db, "forever", "1", None, 0);
    jedis::store::string::set(&mut db, "short", "1", Some(100), 0);
    assert_eq!(ttl(&db, "missing", 0), -2);
    assert_eq!(ttl(&db, "forever", 0), -1);
    assert_eq!(ttl(&db, "short", 0), 100);
    assert_eq!(ttl(&db, "short", 30 * SEC + 1), 69);
    assert_eq!(ttl(&db, "short", 101 * SEC), -2);
}

#[test]
fn ttl_of_huge_lifetime_wraps_like_as_i64() {
    let mut db = create_db();
    jedis::store::string::set(&mut db, "k", "v", Some(u64::MAX), 0);
    assert_eq!(ttl(&db, "k", 0), u64::MAX as i64);
}

#[test]
fn hset_then_hget() {
    let mut db = create_db();
    assert_eq!(hset(&mut db, "user", "name", "ann", None, 0), Ok(()));
    assert_eq!(hset(&mut db, "user", "age", "7", None, 0), Ok(()));
    assert_eq!(hget(&mut db, "user", "name", 0), Ok(Some("ann".to_string())));
    assert_eq!(hget(&mut db, "user", "age", 0), Ok(Some("7".to_string())));
    assert_eq!(hget(&mut db, "user", "zip", 0), Ok(None));
}

#[test]
fn hset_on_string_is_wrongtype_and_keeps_value() {
    let mut db = create_db();
    jedis::store::string::set(&mut db, "s", "v", None, 0);
    assert_eq!(hset(&mut db, "s", "f", "v", None, 0), Err("WRONGTYPE key holds a non-hash value".to_string()));
    assert_eq!(get(&mut db, "s", 0), Ok(Some("v".to_string())));
}

#[test]
fn hset_keeps_first_expiry() {
    let mut db = create_db();
    hset(&mut db, "h", "a", "1", Some(10), 0).unwrap();
    hset(&mut db, "h", "b", "2", None, 0).unwrap();
    assert_eq!(httl(&db, "h", 0), 10);
    hset(&mut db, "h", "c", "3", Some(99), 0).unwrap();
    assert_eq!(httl(&db, "h", 0), 10);
}

#[test]
fn hdel_cases() {
    let mut db = create_db();
    hset(&mut db, "h", "a", "1", None, 0).unwrap();
    assert!(hdel(&mut db, "h", "a", 0));
    assert!(!hdel(&mut db, "h", "a", 0));
    assert_eq!(hget(&mut db, "h", "a", 0), Ok(None));
    // the emptied hash stays
    assert_eq!(data_type(&db, "h", 0), "Hash\n");
    jedis::store::string::set(&mut db, "s", "v", None, 0);
    assert!(!hdel(&mut db, "s", "a", 0));
    assert!(!hdel(&mut db, "nothing", "a", 0));
}

#[test]
fn hdel_drops_expired_hash() {
    let mut db = create_db();
    hset(&mut db, "h", "a", "1", Some(1), 0).unwrap();
    assert!(!hdel(&mut db, "h", "a", 2 * SEC));
    assert_eq!(db.len(), 0);
}

#[test]
fn hget_on_string_is_wrongtype() {
    let mut db = create_db();
    jedis::store::string::set(&mut db, "s", "v", None, 0);
    assert_eq!(hget(&mut db, "s", "f", 0), Err("WRONGTYPE key holds a non-hash value".to_string()));
}

#[test]
fn db_size_flush_and_type() {
    let mut db = create_db();
    jedis::store::string::set(&mut db, "a", "1", None, 0);
    hset(&mut db, "b", "f", "v", None, 0).unwrap();
    assert_eq!(get_db_size(&db, 0), "2");
    assert_eq!(data_type(&db, "a", 0), "String\n");
    assert_eq!(data_type(&db, "b", 0), "Hash\n");
    assert_eq!(data_type(&db, "c", 0), "None\n");
    assert_eq!(flush_db(&mut db), "OK\n");
    assert_eq!(get_db_size(&db, 0), "0");
}

#[test]
fn keys_listing() {
    let mut db = create_db();
    assert_eq!(get_keys(&db, "*", 0), "empty\n");
    jedis::store::string::set(&mut db, "user:1", "a", None, 0);
    jedis::store::string::set(&mut db, "user:2", "b", None, 0);
    jedis::store::string::set(&mut db, "order:1", "c", None, 0);
    assert_eq!(get_keys(&db, "*", 0), "1) user:1\n2) user:2\n3) order:1\n");
    assert_eq!(get_keys(&db, "user*", 0), "1) user:1\n2) user:2\n");
    assert_eq!(get_keys(&db, "user**", 0), "1) user:1\n2) user:2\n");
    assert_eq!(get_keys(&db, "order", 0), "1) order:1\n");
    assert_eq!(get_keys(&db, "x*", 0), "empty\n");
    assert_eq!(matching_keys(&db, "o*", 0), vec!["order:1".to_string()]);
}

#[test]
fn keys_keeps_order_after_delete() {
    let mut db = create_db();
    jedis::store::string::set(&mut db, "a", "1", None, 0);
    jedis::store::string::set(&mut db, "b", "1", None, 0);
    jedis::store::string::set(&mut db, "c", "1", None, 0);
    del(&mut db, "a", 0);
    assert_eq!(get_keys(&db, "*", 0), "1) b\n2) c\n");
}

#[test]
fn estimate_size_counts_bytes() {
    assert_eq!(estimate_size("key", &RedisValue::String("value".to_string())), 3 + 5 + 64);
    // multi-byte characters count by their UTF-8 bytes
    assert_eq!(estimate_size("é", &RedisValue::String("€".to_string())), 2 + 3 + 64);
    let mut h = KeyMap::new();
    h.insert("ab".to_string(), "cde".to_string());
    h.insert("f".to_string(), "".to_string());
    assert_eq!(estimate_size("h", &RedisValue::Hash(h)), 1 + 2 + 3 + 1 + 64);
}

#[test]
fn entry_expiry_is_strict() {
    let e = Entry { value: RedisValue::String("v".to_string()), expires_at: Some(100) };
    assert!(!e.is_expired(100));
    assert!(e.is_expired(101));
    // once expired, always expired
    assert!(e.is_expired(u64::MAX));
    let forever = Entry { value: RedisValue::String("v".to_string()), expires_at: None };
    assert!(!forever.is_expired(u64::MAX));
}

#[test]
fn stats_counters() {
    let mut s = ServerStats::new(0);
    s.increment_connections();
    s.increment_connections();
    s.decrement_connections();
    assert_eq!(s.connected_clients, 1);
    assert_eq!(s.total_connections, 2);
    s.decrement_connections();
    s.decrement_connections();
    assert_eq!(s.connected_clients, 0);
    s.increment_commands();
    assert_eq!(s.total_commands, 1);
    s.add_memory(10);
    s.sub_memory(4);
    assert_eq!(s.used_memory, 6);
    s.sub_memory(7);
    assert_eq!(s.used_memory, usize::MAX);
}

#[test]
fn info_report_text() {
    let mut db = create_db();
    jedis::store::string::set(&mut db, "a", "1", None, 0);
    let mut stats = ServerStats::new(0);
    stats.increment_connections();
    stats.increment_commands();
    stats.add_memory(100);
    let info = server_info(&db, &stats, 6379, 90_061 * SEC, "100B");
    assert_eq!(
        info,
        "# Server\njedis_version:0.1.0\nuptime_in_seconds:90061\nuptime_in_days:1\ntcp_port:6379\n\n# Clients\nconnected_clients:1\n\n# Memory\nused_memory:100\nused_memory_human:100B\n\n# Stats\ntotal_keys:1\ntotal_commands_processed:1\ntotal_connections_received:1\n"
    );
}
