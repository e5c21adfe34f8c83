use jedis::background::expire_type::{active_expiry_round, remove_expired};
use jedis::clock::{saturating_nanos, Clock};
use jedis::config::{CliArgs, ConfFile, Config};
use jedis::keymap::KeyMap;
use jedis::server::{
    admit_connection, end_connection, logs_commands, max_connections_reply, monitor_lag_line, monitor_line,
    monitor_plain_line, next_step, SessionStep,
};
use jedis::store::string::{get, key_exists};
use jedis::store::{create_db, create_stats, estimate_size, RedisValue, ServerStats};

const SEC: u64 = 1_000_000_000;

#[test]
fn admission_up_to_the_limit() {
    let mut stats = ServerStats::new(0);
    assert!(admit_connection(&mut stats, 2));
    assert!(admit_connection(&mut stats, 2));
    assert!(!admit_connection(&mut stats, 2));
    assert_eq!(stats.connected_clients, 2);
    assert_eq!(stats.total_connections, 3);
    end_connection(&mut stats);
    assert!(admit_connection(&mut stats, 2));
    assert_eq!(stats.connected_clients, 2);
    assert_eq!(max_connections_reply(), "-ERR max connections reached\r\n");
}

#[test]
fn connect_then_disconnect_restores_the_count() {
    let mut stats = ServerStats::new(0);
    stats.increment_connections();
    stats.increment_connections();
    let before = stats.connected_clients;
    stats.increment_connections();
    stats.decrement_connections();
    assert_eq!(stats.connected_clients, before);
    let mut empty = ServerStats::new(0);
    empty.decrement_connections();
    assert_eq!(empty.connected_clients, 0);
}

#[test]
fn session_steps() {
    assert!(matches!(next_step(&None), SessionStep::Disconnect));
    assert!(matches!(next_step(&Some(vec![])), SessionStep::Disconnect));
    assert!(matches!(next_step(&Some(vec!["monitor".to_string()])), SessionStep::Monitor));
    assert!(matches!(next_step(&Some(vec!["MONITOR".to_string()])), SessionStep::Monitor));
    assert!(matches!(next_step(&Some(vec!["GET".to_string(), "k".to_string()])), SessionStep::Execute));
}

#[test]
fn monitor_lines() {
    assert_eq!(monitor_line("SET a 1"), "+SET a 1\r\n");
    assert_eq!(monitor_lag_line(12), "-WARNING missed 12 commands\r\n");
    assert_eq!(monitor_plain_line("hello"), "hello\n");
}

#[test]
fn command_logging_follows_the_log_level() {
    let cli = CliArgs {
        host: "h".to_string(),
        port: 1,
        password: None,
        max_connections: 100,
        loglevel: "debug".to_string(),
        monitor_buffer: 100,
        conf: "c".to_string(),
    };
    let mut c = Config::new(cli, ConfFile::empty());
    assert!(logs_commands(&c));
    c.loglevel = "info".to_string();
    assert!(!logs_commands(&c));
}

#[test]
fn remove_expired_drops_only_expired_keys_and_their_memory() {
    let mut db = create_db();
    let mut stats = ServerStats::new(0);
    jedis::store::string::set(&mut db, "old", "abc", Some(1), 0);
    jedis::store::string::set(&mut db, "live", "x", Some(100), 0);
    jedis::store::string::set(&mut db, "forever", "y", None, 0);
    stats.add_memory(1000);
    let size = estimate_size("old", &RedisValue::String("abc".to_string()));
    assert_eq!(size, 3 + 3 + 64);
    let keys = vec!["old".to_string(), "live".to_string(), "forever".to_string(), "missing".to_string()];
    assert_eq!(remove_expired(&mut db, &mut stats, &keys, 2 * SEC), 1);
    assert!(!key_exists(&db, "old", 2 * SEC));
    assert!(key_exists(&db, "live", 2 * SEC));
    assert!(key_exists(&db, "forever", 2 * SEC));
    assert_eq!(stats.used_memory, 1000 - size);
}

#[test]
fn expiry_round_on_empty_keyspace_stops() {
    let mut db = create_db();
    let mut stats = ServerStats::new(0);
    assert!(!active_expiry_round(&mut db, &mut stats, 0));
}

#[test]
fn expiry_rounds_drop_all_expired_keys_of_a_small_keyspace() {
    let mut db = create_db();
    let mut stats = ServerStats::new(0);
    for i in 0..10 {
        jedis::store::string::set(&mut db, &format!("t{}", i), "v", Some(1), 0);
    }
    jedis::store::string::set(&mut db, "keep", "v", None, 0);
    // fewer than 20 keys: every round samples all of them
    assert!(active_expiry_round(&mut db, &mut stats, 5 * SEC));
    assert_eq!(db.len(), 1);
    assert!(!active_expiry_round(&mut db, &mut stats, 5 * SEC));
    assert_eq!(get(&mut db, "keep", 5 * SEC), Ok(Some("v".to_string())));
}

#[test]
fn expiry_round_never_drops_live_keys() {
    let mut db = create_db();
    let mut stats = ServerStats::new(0);
    for i in 0..50 {
        jedis::store::string::set(&mut db, &format!("k{}", i), "v", Some(100), 0);
    }
    assert!(!active_expiry_round(&mut db, &mut stats, SEC));
    assert_eq!(db.len(), 50);
    assert_eq!(stats.used_memory, 0);
}

#[test]
fn clock_counts_from_its_start() {
    let clock = Clock::start();
    let a = clock.now();
    let b = clock.now();
    assert!(b >= a);
    let stats = create_stats(&clock);
    assert!(stats.started_at <= clock.now());
    assert_eq!(stats.total_commands, 0);
    let m: KeyMap<String> = KeyMap::new();
    assert_eq!(m.len(), 0);
}

#[test]
fn clock_readings_saturate() {
    assert_eq!(saturating_nanos(0), 0);
    assert_eq!(saturating_nanos(1_500), 1_500);
    assert_eq!(saturating_nanos(u64::MAX as u128), u64::MAX);
    assert_eq!(saturating_nanos(u64::MAX as u128 + 1), u64::MAX);
    assert_eq!(saturating_nanos(u128::MAX), u64::MAX);
}

#[test]
fn memory_counter_follows_the_keyspace_across_expiry() {
    let mut db = create_db();
    let mut stats = ServerStats::new(0);
    jedis::store::string::set(&mut db, "a", "xx", Some(1), 0);
    jedis::store::string::set(&mut db, "bb", "y", None, 0);
    let size_a = estimate_size("a", &RedisValue::String("xx".to_string()));
    let size_b = estimate_size("bb", &RedisValue::String("y".to_string()));
    stats.add_memory(size_a + size_b);
    while active_expiry_round(&mut db, &mut stats, 2 * SEC) {}
    assert_eq!(db.len(), 1);
    assert_eq!(stats.used_memory, size_b);
}
