//! Connection profiles, and the errors of the core.

use vstd::prelude::*;

use crate::text::{ends_with, opt_text};

verus! {

/// How a connection uses TLS.
#[derive(Debug, Clone, Copy, PartialEq, Eq, Structural)]
pub enum TlsMode {
    Disabled,
    Preferred,
    Required,
}

/// What it takes to connect to a server, without the password.
#[derive(Debug, Clone, PartialEq, Eq)]
pub struct ConnectionProfile {
    pub name: String,
    pub host: String,
    pub port: u16,
    pub user: String,
    pub database: Option<String>,
    pub socket: Option<String>,
    pub tls: TlsMode,
}

/// What a [`ConnectionProfile`] holds.
#[verifier::ext_equal]
pub struct ProfileView {
    pub name: Seq<char>,
    pub host: Seq<char>,
    pub port: u16,
    pub user: Seq<char>,
    pub database: Option<Seq<char>>,
    pub socket: Option<Seq<char>>,
    pub tls: TlsMode,
}

impl View for ConnectionProfile {
    type V = ProfileView;

    open spec fn view(&self) -> ProfileView {
        ProfileView {
            name: self.name@,
            host: self.host@,
            port: self.port,
            user: self.user@,
            database: opt_text(self.database),
            socket: opt_text(self.socket),
            tls: self.tls,
        }
    }
}

/// What each profile holds.
pub open spec fn profile_views(profiles: Seq<ConnectionProfile>) -> Seq<ProfileView> {
    profiles.map_values(|p: ConnectionProfile| p@)
}

/// The profile of a local server.
pub open spec fn local_profile() -> ProfileView {
    ProfileView {
        name: "local"@,
        host: "127.0.0.1"@,
        port: 3306,
        user: "root"@,
        database: None,
        socket: None,
        tls: TlsMode::Disabled,
    }
}

impl Default for ConnectionProfile {
    fn default() -> (res: ConnectionProfile)
        ensures
            res@ == local_profile(),
    {
        let res = ConnectionProfile {
            name: "local".to_string(),
            host: "127.0.0.1".to_string(),
            port: 3306,
            user: "root".to_string(),
            database: None,
            socket: None,
            tls: TlsMode::Disabled,
        };
        assert(res@ =~= local_profile());
        res
    }
}

/// Copy an optional text.
pub fn copy_opt(s: &Option<String>) -> (res: Option<String>)
    ensures
        opt_text(res) == opt_text(*s),
{
    match s {
        Some(s) => Some(s.clone()),
        None => None,
    }
}

impl ConnectionProfile {
    /// Copy the profile.
    pub fn copy(&self) -> (res: ConnectionProfile)
        ensures
            res@ == self@,
    {
        let res = ConnectionProfile {
            name: self.name.clone(),
            host: self.host.clone(),
            port: self.port,
            user: self.user.clone(),
            database: copy_opt(&self.database),
            socket: copy_opt(&self.socket),
            tls: self.tls,
        };
        assert(res@ =~= self@);
        res
    }
}

/// Failure to read or write the configuration, or to use the keyring.
#[derive(Debug, Clone, PartialEq, Eq)]
pub enum CoreError {
    InvalidConfig(String),
    /// The platform has no configuration directory.
    NoConfigDir,
    Io(String),
    Toml(String),
    Keyring(String),
}

/// The message of an error.
pub open spec fn core_message(e: CoreError) -> Seq<char> {
    match e {
        CoreError::InvalidConfig(m) => "invalid configuration: "@ + m@,
        CoreError::NoConfigDir => "no configuration directory"@,
        CoreError::Io(m) => m@,
        CoreError::Toml(m) => m@,
        CoreError::Keyring(m) => m@,
    }
}

impl CoreError {
    /// The message of the error.
    pub fn message(&self) -> (res: String)
        ensures
            res@ == core_message(*self),
    {
        match self {
            CoreError::InvalidConfig(m) => {
                let mut out = "invalid configuration: ".to_string();
                out.append(m.as_str());
                out
            },
            CoreError::NoConfigDir => "no configuration directory".to_string(),
            CoreError::Io(m) => m.clone(),
            CoreError::Toml(m) => m.clone(),
            CoreError::Keyring(m) => m.clone(),
        }
    }
}

/// The message of an error keeps what the cause said.
pub proof fn law_messages_keep_the_cause(e: CoreError)
    ensures
        match e {
            CoreError::InvalidConfig(m) => ends_with(core_message(e), m@),
            CoreError::Io(m) => core_message(e) == m@,
            CoreError::Toml(m) => core_message(e) == m@,
            CoreError::Keyring(m) => core_message(e) == m@,
            CoreError::NoConfigDir => core_message(e).len() > 0,
        },
{
    reveal_strlit("no configuration directory");
    if let CoreError::InvalidConfig(m) = e {
        let head = "invalid configuration: "@;
        assert((head + m@).skip(head.len() as int) =~= m@);
    }
}

} // verus!
