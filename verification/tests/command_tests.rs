use jedis::commands::execute_commands;
use jedis::commands::server::{handle as server_handle, rewrite_reply, Reply};
use jedis::commands::string::{read_reply, ttl_reply};
use jedis::config::{CliArgs, ConfFile, Config};
use jedis::store::{create_db, Db, ServerStats};

const SEC: u64 = 1_000_000_000;

fn config() -> Config {
    let cli = CliArgs {
        host: "127.0.0.1".to_string(),
        port: 6379,
        password: None,
        max_connections: 100,
        loglevel: "info".to_string(),
        monitor_buffer: 100,
        conf: "jedis.conf".to_string(),
    };
    Config::new(cli, ConfFile::empty())
}

struct Server {
    db: Db,
    stats: ServerStats,
    cfg: Config,
}

impl Server {
    fn new() -> Server {
        Server { db: create_db(), stats: ServerStats::new(0), cfg: config() }
    }

    fn run(&mut self, line: &str, now: u64) -> String {
        let parts: Vec<&str> = line.split(' ').collect();
        text(execute_commands(&parts, &mut self.db, &mut self.stats, 6379, &mut self.cfg, now, "0B"))
    }

    fn server(&mut self, line: &str) -> Reply {
        let parts: Vec<&str> = line.split(' ').collect();
        server_handle(&parts, &mut self.db, &self.stats, 6379, &mut self.cfg, 0, "0B")
    }
}

fn text(r: Reply) -> String {
    match r {
        Reply::Text(t) => t,
        _ => panic!("expected text"),
    }
}

#[test]
fn set_then_get_through_the_dispatcher() {
    let mut s = Server::new();
    assert_eq!(s.run("SET name jedis", 0), "OK\n");
    assert_eq!(s.run("GET name", 0), "jedis\n");
    assert_eq!(s.run("EXISTS name", 0), "1\n");
    assert_eq!(s.run("DEL name", 0), "OK\n");
    assert_eq!(s.run("DEL name", 0), "Err no such key found\n");
    assert_eq!(s.run("GET name", 0), "nil\n");
    assert_eq!(s.run("EXISTS name", 0), "0\n");
    assert_eq!(s.stats.total_commands, 7);
}

#[test]
fn set_with_expiry_and_ttl() {
    let mut s = Server::new();
    assert_eq!(s.run("SET k v EX 10", 0), "OK\n");
    assert_eq!(s.run("TTL k", 0), "10s remaining\n");
    assert_eq!(s.run("TTL k", 4 * SEC), "6s remaining\n");
    assert_eq!(s.run("GET k", 11 * SEC), "nil\n");
    assert_eq!(s.run("TTL k", 11 * SEC), "nil\n");
    assert_eq!(s.run("SET p v", 0), "OK\n");
    assert_eq!(s.run("TTL p", 0), "no expiry\n");
    assert_eq!(s.run("SET k v EX ten", 0), "Err expiry seconds must be a number\n");
    assert_eq!(s.run("SET k v PX 10", 0), "Err usage: SET key value [EX seconds]\n");
}

#[test]
fn string_usage_errors() {
    let mut s = Server::new();
    assert_eq!(s.run("SET k", 0), "Err usage: SET key value [EX seconds]\n");
    assert_eq!(s.run("GET", 0), "Err usage: GET key\n");
    assert_eq!(s.run("DEL a b", 0), "Err usage: DEL key\n");
    assert_eq!(s.run("EXISTS", 0), "Err usage: EXISTS key\n");
    assert_eq!(s.run("TTL", 0), "Err usage: TTL key\n");
    assert_eq!(s.run("INCR", 0), "Err usage: INCR key\n");
    assert_eq!(s.run("DECR a b", 0), "Err usage: DECR key\n");
    assert_eq!(s.run("INCRBY a", 0), "Err usage: INCRBY key increment\n");
    assert_eq!(s.run("DECRBY a", 0), "Err usage: DECRBY key decrement\n");
    assert_eq!(s.run("APPEND a b", 0), "Unknown command APPEND\n");
}

#[test]
fn lower_case_string_commands_reach_the_handler_but_are_not_known_there() {
    let mut s = Server::new();
    assert_eq!(s.run("set k v", 0), "UNKNOWN STRING COMMAND\n");
    assert_eq!(s.run("GET k", 0), "nil\n");
}

#[test]
fn hash_commands_through_the_dispatcher() {
    let mut s = Server::new();
    assert_eq!(s.run("HSET user name ann", 0), "OK\n");
    assert_eq!(s.run("hget user name", 0), "ann\n");
    assert_eq!(s.run("HGET user age", 0), "nil\n");
    assert_eq!(s.run("HDEL user name", 0), "OK\n");
    assert_eq!(s.run("HDEL user name", 0), "ERR no such key/field\n");
    assert_eq!(s.run("HGET user name", 0), "nil\n");
    assert_eq!(s.run("HTTL user", 0), "no expiry\n");
    assert_eq!(s.run("HSET t f v EX 5", 0), "OK\n");
    assert_eq!(s.run("HTTL t", 0), "5s remaining\n");
    assert_eq!(s.run("HSET t f v EX soon", 0), "ERR expiry must be a number\n");
    assert_eq!(s.run("HSET t f", 0), "ERR usage: HSET key field value [EX seconds]\n");
    assert_eq!(s.run("HGET t", 0), "ERR usage: HGET key field\n");
    assert_eq!(s.run("HDEL t", 0), "ERR usage: HDEL key field\n");
    assert_eq!(s.run("HTTL", 0), "ERR usage: HTTL key\n");
}

#[test]
fn wrong_types_through_the_dispatcher() {
    let mut s = Server::new();
    s.run("SET plain v", 0);
    s.run("HSET h f v", 0);
    assert_eq!(s.run("HSET plain f v", 0), "ERR WRONGTYPE key holds a non-hash value\n");
    assert_eq!(s.run("HGET plain f", 0), "ERR WRONGTYPE key holds a non-hash value\n");
    assert_eq!(s.run("GET h", 0), "Err WRONGTYPE key holds a non-string value\n");
}

#[test]
fn server_commands_through_the_dispatcher() {
    let mut s = Server::new();
    assert_eq!(s.run("PING", 0), "+PONG\r\n");
    assert_eq!(s.run("ping", 0), "+PONG\r\n");
    assert_eq!(s.run("ECHO hello", 0), "$5\r\nhello\r\n");
    assert_eq!(s.run("ECHO", 0), "-ERR usage: ECHO message\r\n");
    s.run("SET a 1", 0);
    s.run("HSET b f v", 0);
    assert_eq!(s.run("DBSIZE", 0), ":2\r\n");
    assert_eq!(s.run("TYPE a", 0), "+String\n\r\n");
    assert_eq!(s.run("TYPE b", 0), "+Hash\n\r\n");
    assert_eq!(s.run("TYPE c", 0), "+None\n\r\n");
    assert_eq!(s.run("TYPE", 0), "-ERR usage: TYPE key\r\n");
    assert_eq!(s.run("KEYS *", 0), "*2\r\n$1\r\na\r\n$1\r\nb\r\n");
    assert_eq!(s.run("KEYS a*", 0), "*1\r\n$1\r\na\r\n");
    assert_eq!(s.run("KEYS", 0), "-ERR usage: KEYS pattern\r\n");
    assert_eq!(s.run("FLUSHDB", 0), "+OK\r\n");
    assert_eq!(s.run("DBSIZE", 0), ":0\r\n");
    assert_eq!(s.run("KEYS *", 0), "*0\r\n");
}

#[test]
fn unknown_and_config_commands_through_the_dispatcher() {
    let mut s = Server::new();
    assert_eq!(s.run("BLPOP q", 0), "Unknown command BLPOP\n");
    assert_eq!(s.run("config get port", 0), "*2\r\n$4\r\nport\r\n$4\r\n6379\r\n");
    assert_eq!(s.run("CONFIG SET maxconnections 10", 0), "+OK\r\n");
    assert_eq!(s.cfg.max_connections, 10);
    let parts = ["CONFIG", "REWRITE"];
    let r = execute_commands(&parts, &mut s.db, &mut s.stats, 6379, &mut s.cfg, 0, "0B");
    assert!(matches!(r, Reply::RewriteConfig));
    assert_eq!(s.stats.total_commands, 4);
}

#[test]
fn info_lists_the_report_lines() {
    let mut s = Server::new();
    s.run("SET a 1", 0);
    let r = s.run("INFO", 3 * SEC);
    assert!(r.starts_with("*17\r\n$8\r\n# Server\r\n"));
    assert!(r.contains("$19\r\nuptime_in_seconds:3\r\n"));
    assert!(r.contains("$12\r\ntotal_keys:1\r\n"));
    assert!(r.contains("$26\r\ntotal_commands_processed:2\r\n"));
}

#[test]
fn config_get_and_set_through_the_server_handler() {
    let mut s = Server::new();
    assert_eq!(text(s.server("CONFIG GET port")), "*2\r\n$4\r\nport\r\n$4\r\n6379\r\n");
    assert_eq!(text(s.server("config get nothing")), "*0\r\n");
    assert_eq!(text(s.server("CONFIG SET loglevel debug")), "+OK\r\n");
    assert_eq!(text(s.server("CONFIG GET loglevel")), "*2\r\n$8\r\nloglevel\r\n$5\r\ndebug\r\n");
    assert_eq!(text(s.server("CONFIG SET maxconnections 0")), "-ERR maxconnections must be greater than 0\r\n");
    assert_eq!(
        text(s.server("CONFIG SET port 1")),
        "-ERR cannot change port or host at runtime — they are bound at startup. Restart with new --port or --host\r\n"
    );
    assert!(matches!(s.server("CONFIG REWRITE"), Reply::RewriteConfig));
    assert_eq!(
        text(s.server("CONFIG")),
        "-ERR usage: CONFIG GET key | CONFIG SET key value | CONFIG REWRITE\r\n"
    );
    assert_eq!(text(s.server("GET x")), "-ERR unknown server command\r\n");
}

#[test]
fn reply_helpers() {
    assert_eq!(ttl_reply(-2), "nil\n");
    assert_eq!(ttl_reply(-1), "no expiry\n");
    assert_eq!(ttl_reply(42), "42s remaining\n");
    assert_eq!(read_reply(Ok(Some("v".to_string())), "Err "), "v\n");
    assert_eq!(read_reply(Ok(None), "Err "), "nil\n");
    assert_eq!(read_reply(Err("bad".to_string()), "ERR "), "ERR bad\n");
    assert_eq!(rewrite_reply(Ok(())), "+OK\r\n");
    assert_eq!(rewrite_reply(Err("failed to write x".to_string())), "-ERR failed to write x\r\n");
}

#[test]
fn incr_family_through_the_dispatcher() {
    let mut s = Server::new();
    assert_eq!(s.run("SET n 5", 0), "OK\n");
    assert_eq!(s.run("INCR n", 0), "6\n");
    assert_eq!(s.run("GET n", 0), "6\n");
    assert_eq!(s.run("DECR n", 0), "5\n");
    assert_eq!(s.run("INCRBY n 10", 0), "15\n");
    assert_eq!(s.run("DECRBY n 20", 0), "-5\n");
    assert_eq!(s.run("GET n", 0), "-5\n");
    assert_eq!(s.run("incr fresh", 0), "UNKNOWN STRING COMMAND\n");
    assert_eq!(s.run("INCR fresh", 0), "1\n");
    assert_eq!(s.run("DECR other", 0), "-1\n");
    assert_eq!(s.run("INCRBY n +3", 0), "-2\n");
    assert_eq!(s.run("INCRBY n x", 0), "Err increment must be a number\n");
    assert_eq!(s.run("DECRBY n 1.5", 0), "Err decrement must be a number\n");
}

#[test]
fn incr_family_errors_change_nothing() {
    let mut s = Server::new();
    s.run("SET word hello", 0);
    assert_eq!(s.run("INCR word", 0), "Err value is not an integer or out of range\n");
    assert_eq!(s.run("GET word", 0), "hello\n");
    s.run("HSET h f v", 0);
    assert_eq!(s.run("INCR h", 0), "Err WRONGTYPE key holds a non-string value\n");
    s.run("SET big 9223372036854775807", 0);
    assert_eq!(s.run("INCR big", 0), "Err increment or decrement would overflow\n");
    assert_eq!(s.run("GET big", 0), "9223372036854775807\n");
    s.run("SET small -9223372036854775808", 0);
    assert_eq!(s.run("DECR small", 0), "Err increment or decrement would overflow\n");
    assert_eq!(s.run("DECRBY small -9223372036854775808", 0), "0\n");
    s.run("SET zero 0", 0);
    assert_eq!(s.run("DECRBY zero -9223372036854775808", 0), "Err increment or decrement would overflow\n");
    assert_eq!(s.run("INCRBY zero -9223372036854775808", 0), "-9223372036854775808\n");
}

#[test]
fn incr_keeps_expiry_and_restarts_expired_keys() {
    let mut s = Server::new();
    s.run("SET t 1 EX 10", 0);
    assert_eq!(s.run("INCR t", 0), "2\n");
    assert_eq!(s.run("TTL t", 0), "10s remaining\n");
    assert_eq!(s.run("INCR t", 11 * SEC), "1\n");
    assert_eq!(s.run("TTL t", 11 * SEC), "no expiry\n");
}

#[test]
fn save_is_unknown_and_shutdown_is_decided() {
    let mut s = Server::new();
    assert_eq!(s.run("SAVE", 0), "Unknown command SAVE\n");
    let parts = ["shutdown"];
    let r = execute_commands(&parts, &mut s.db, &mut s.stats, 6379, &mut s.cfg, 0, "0B");
    assert!(matches!(r, Reply::Shutdown));
}

#[test]
fn expired_keys_are_gone_for_every_command() {
    let mut s = Server::new();
    s.run("SET temp v EX 1", 0);
    s.run("HSET h f v EX 1", 0);
    s.run("SET keep v", 0);
    let later = 2 * SEC;
    assert_eq!(s.run("EXISTS temp", later), "0\n");
    assert_eq!(s.run("TYPE temp", later), "+None\n\r\n");
    assert_eq!(s.run("TYPE h", later), "+None\n\r\n");
    assert_eq!(s.run("DBSIZE", later), ":1\r\n");
    assert_eq!(s.run("KEYS *", later), "*1\r\n$4\r\nkeep\r\n");
    assert_eq!(s.run("DEL temp", later), "Err no such key found\n");
    assert_eq!(s.run("EXISTS keep", later), "1\n");
}
