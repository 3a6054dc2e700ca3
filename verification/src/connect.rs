//! What it takes to open a connection, and what is known of an open one.

use std::time::Duration;

use vstd::prelude::*;

use crate::errors::DriverError;
use crate::profile::{core_message, ConnectionProfile, CoreError, TlsMode};
use crate::text::{is_empty, opt_text};

verus! {

/// How to open a pool of connections. One connection per profile, so that what
/// is set for a session (the chosen database, variables, temporary tables)
/// survives from one statement to the next.
#[derive(Debug, Clone)]
pub struct ConnectPlan {
    pub host: String,
    pub port: u16,
    pub user: String,
    pub tls: TlsMode,
    pub database: Option<String>,
    pub socket: Option<String>,
    pub max_connections: u32,
    pub min_connections: u32,
    pub acquire_timeout_secs: u64,
    pub idle_timeout_secs: u64,
}

/// A text that is there and not empty.
pub open spec fn filled_in(s: Option<String>) -> Option<Seq<char>> {
    match s {
        Some(s) => if s@.len() == 0 {
            None
        } else {
            Some(s@)
        },
        None => None,
    }
}

fn non_empty(s: &Option<String>) -> (res: Option<String>)
    ensures
        opt_text(res) == filled_in(*s),
{
    match s {
        Some(s) => if is_empty(s.as_str()) {
            None
        } else {
            Some(s.clone())
        },
        None => None,
    }
}

/// How to open a pool for a profile. An empty database or socket counts as
/// none.
pub fn build_pool(profile: &ConnectionProfile) -> (res: ConnectPlan)
    ensures
        res.host@ == profile.host@,
        res.port == profile.port,
        res.user@ == profile.user@,
        res.tls == profile.tls,
        opt_text(res.database) == filled_in(profile.database),
        opt_text(res.socket) == filled_in(profile.socket),
        res.max_connections == 1,
        res.min_connections == 0,
        res.acquire_timeout_secs == 10,
        res.idle_timeout_secs == 300,
{
    ConnectPlan {
        host: profile.host.clone(),
        port: profile.port,
        user: profile.user.clone(),
        tls: profile.tls,
        database: non_empty(&profile.database),
        socket: non_empty(&profile.socket),
        max_connections: 1,
        min_connections: 0,
        acquire_timeout_secs: 10,
        idle_timeout_secs: 300,
    }
}

/// Failure to connect.
#[derive(Debug, Clone, PartialEq, Eq)]
pub enum DbError {
    Sqlx(DriverError),
    Core(CoreError),
}

impl DbError {
    /// The message of the error.
    pub fn message(&self) -> (res: String)
        ensures
            res@ == (match *self {
                DbError::Sqlx(e) => e.message@,
                DbError::Core(e) => core_message(e),
            }),
    {
        match self {
            DbError::Sqlx(e) => e.message.clone(),
            DbError::Core(e) => e.message(),
        }
    }
}

/// What the server says of itself.
#[derive(Debug, Clone)]
pub struct ServerInfo {
    pub version: String,
}

/// What is known of a connection.
#[derive(Debug)]
pub struct ConnectionStats {
    pub last_latency: Option<Duration>,
    pub server: Option<ServerInfo>,
}

impl Default for ConnectionStats {
    fn default() -> (res: ConnectionStats)
        ensures
            res.last_latency is None,
            res.server is None,
    {
        ConnectionStats { last_latency: None, server: None }
    }
}

/// What running a statement came to.
#[derive(Debug, Clone, Copy)]
pub struct ExecOutcome {
    pub affected_rows: u64,
    pub elapsed: Duration,
}

/// A statement of a sequence; a failure of one that is `optional` is ignored.
#[derive(Debug, Clone)]
pub struct ExecStep {
    pub sql: String,
    pub optional: bool,
}

/// The statements that replace a routine: drop it, where that is asked for,
/// whether or not it exists, and create it. The outcome is that of the last one.
pub fn replace_routine(drop_sql: Option<String>, create_sql: String) -> (res: Vec<ExecStep>)
    ensures
        match drop_sql {
            Some(drop) => res@ == seq![
                ExecStep { sql: drop, optional: true },
                ExecStep { sql: create_sql, optional: false },
            ],
            None => res@ == seq![ExecStep { sql: create_sql, optional: false }],
        },
{
    let mut out: Vec<ExecStep> = Vec::new();
    if let Some(drop) = drop_sql {
        out.push(ExecStep { sql: drop, optional: true });
    }
    out.push(ExecStep { sql: create_sql, optional: false });
    out
}

} // verus!
