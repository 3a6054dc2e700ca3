//! Passwords in the keyring of the operating system.

use vstd::prelude::*;

use crate::profile::CoreError;

verus! {

/// Name under which passwords are kept.
pub const SERVICE: &'static str = "rysql";

/// Failure of the keyring, with its message.
#[derive(Debug, Clone, PartialEq, Eq)]
pub enum KeyringError {
    /// There is no entry for the account.
    NoEntry(String),
    Other(String),
}

/// The error of the core for a failure of the keyring.
pub open spec fn keyring_failure(from: KeyringError) -> CoreError {
    match from {
        KeyringError::NoEntry(text) => CoreError::Keyring(text),
        KeyringError::Other(text) => CoreError::Keyring(text),
    }
}

fn core_error(e: KeyringError) -> (res: CoreError)
    ensures
        res == keyring_failure(e),
{
    match e {
        KeyringError::NoEntry(text) => CoreError::Keyring(text),
        KeyringError::Other(text) => CoreError::Keyring(text),
    }
}

/// What storing a password comes to, given what the keyring said.
pub fn store_password(reply: Result<(), KeyringError>) -> (res: Result<(), CoreError>)
    ensures
        match reply {
            Ok(()) => res is Ok,
            Err(e) => res == Err::<(), CoreError>(keyring_failure(e)),
        },
{
    match reply {
        Ok(()) => Ok(()),
        Err(e) => Err(core_error(e)),
    }
}

/// What reading a password comes to, given what the keyring said. A missing
/// entry is no error.
pub fn fetch_password(reply: Result<String, KeyringError>) -> (res: Result<
    Option<String>,
    CoreError,
>)
    ensures
        match reply {
            Ok(password) => res == Ok::<Option<String>, CoreError>(Some(password)),
            Err(KeyringError::NoEntry(_)) => res == Ok::<Option<String>, CoreError>(None),
            Err(e) => res == Err::<Option<String>, CoreError>(keyring_failure(e)),
        },
{
    match reply {
        Ok(password) => Ok(Some(password)),
        Err(e) => match e {
            KeyringError::NoEntry(_) => Ok(None),
            KeyringError::Other(text) => Err(CoreError::Keyring(text)),
        },
    }
}

/// What deleting a password comes to, given what the keyring said. A missing
/// entry is no error.
pub fn delete_password(reply: Result<(), KeyringError>) -> (res: Result<(), CoreError>)
    ensures
        match reply {
            Ok(()) => res is Ok,
            Err(KeyringError::NoEntry(_)) => res is Ok,
            Err(e) => res == Err::<(), CoreError>(keyring_failure(e)),
        },
{
    match reply {
        Ok(()) => Ok(()),
        Err(e) => match e {
            KeyringError::NoEntry(_) => Ok(()),
            KeyringError::Other(text) => Err(CoreError::Keyring(text)),
        },
    }
}

} // verus!
