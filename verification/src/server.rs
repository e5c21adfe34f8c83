//! The decisions a client connection makes: whether to admit the client, what
//! to do with each command read, and the lines that MONITOR writes.
use crate::config::Config;
use crate::store::ServerStats;
use crate::text::{eq_ignore_ascii_case, eq_ignore_ascii_case_spec, owned, push_decimal, str_eq, decimal};
use vstd::prelude::*;

verus! {

/// Registers a client that has just connected. With more clients connected than
/// `max_connections` allows, the client is refused and counted out again.
pub fn admit_connection(stats: &mut ServerStats, max_connections: usize) -> (admitted: bool)
    ensures
        final(stats).total_connections == old(stats).total_connections.wrapping_add(1),
        admitted == (old(stats).connected_clients.wrapping_add(1) <= max_connections),
        admitted ==> final(stats).connected_clients == old(stats).connected_clients.wrapping_add(1),
        !admitted ==> final(stats).connected_clients == old(stats).connected_clients.wrapping_add(1).saturating_sub(1),
        final(stats).total_commands == old(stats).total_commands,
        final(stats).used_memory == old(stats).used_memory,
        final(stats).started_at == old(stats).started_at,
{
    stats.increment_connections();
    if stats.connected_clients > max_connections {
        stats.decrement_connections();
        false
    } else {
        true
    }
}

/// The reply sent to a refused client.
pub fn max_connections_reply() -> (r: String)
    ensures
        r@ == "-ERR max connections reached\r\n"@,
{
    owned("-ERR max connections reached\r\n")
}

/// A client left.
pub fn end_connection(stats: &mut ServerStats)
    ensures
        final(stats).connected_clients == old(stats).connected_clients.saturating_sub(1),
        final(stats).total_connections == old(stats).total_connections,
        final(stats).total_commands == old(stats).total_commands,
        final(stats).used_memory == old(stats).used_memory,
        final(stats).started_at == old(stats).started_at,
{
    stats.decrement_connections();
}

/// What a connection does next.
pub enum SessionStep {
    /// Close the connection (the read failed or gave no command).
    Disconnect,
    /// Answer `+OK` and stream the monitor feed until the client leaves.
    Monitor,
    /// Execute the command and send the reply.
    Execute,
}

/// What to do with the outcome of a read: nothing read or an empty command ends
/// the connection; MONITOR (in any ASCII case) starts the feed; anything else is
/// executed.
pub fn next_step(parts: &Option<Vec<String>>) -> (r: SessionStep)
    ensures
        match parts {
            None => r is Disconnect,
            Some(p) => if p@.len() == 0 {
                r is Disconnect
            } else if eq_ignore_ascii_case_spec(p@[0]@, "MONITOR"@) {
                r is Monitor
            } else {
                r is Execute
            },
        },
{
    match parts {
        None => SessionStep::Disconnect,
        Some(p) => {
            if p.len() == 0 {
                SessionStep::Disconnect
            } else if eq_ignore_ascii_case(p[0].as_str(), "MONITOR") {
                SessionStep::Monitor
            } else {
                SessionStep::Execute
            }
        },
    }
}

/// Whether commands are logged: when the log level is `debug`.
pub fn logs_commands(cfg: &Config) -> (r: bool)
    ensures
        r == (cfg.loglevel@ == "debug"@),
{
    str_eq(cfg.loglevel.as_str(), "debug")
}

/// A monitor feed line: `+msg\r\n`.
pub fn monitor_line(msg: &str) -> (r: String)
    ensures
        r@ == "+"@ + msg@ + "\r\n"@,
{
    let mut s = owned("+");
    s.append(msg);
    s.append("\r\n");
    s
}

/// The feed line for messages a slow monitor missed: `-WARNING missed n commands\r\n`.
pub fn monitor_lag_line(missed: u64) -> (r: String)
    ensures
        r@ == "-WARNING missed "@ + decimal(missed as nat) + " commands\r\n"@,
{
    let mut s = owned("-WARNING missed ");
    push_decimal(&mut s, missed);
    s.append(" commands\r\n");
    s
}

/// A plain monitor line: `msg\n`.
pub fn monitor_plain_line(msg: &str) -> (r: String)
    ensures
        r@ == msg@ + "\n"@,
{
    let mut s = owned(msg);
    s.append("\n");
    s
}

} // verus!
