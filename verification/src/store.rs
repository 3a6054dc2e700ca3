//! The store of connection profiles.

use vstd::prelude::*;

use crate::profile::{ConnectionProfile, CoreError};

verus! {

/// Where the connection profiles are kept.
#[derive(Debug, Clone)]
pub struct ProfileStore {
    path: String,
}

impl ProfileStore {
    /// The path of the file.
    pub closed spec fn location(self) -> Seq<char> {
        self.path@
    }

    /// A store in the file at `path`.
    pub fn at(path: String) -> (res: ProfileStore)
        ensures
            res.location() == path@,
    {
        ProfileStore { path }
    }

    /// The path of the file.
    pub fn path(&self) -> (res: &str)
        ensures
            res@ == self.location(),
    {
        self.path.as_str()
    }

    /// The profiles, given what the file holds: none where there is no file. A
    /// file that cannot be parsed is an error.
    pub fn load(&self, file: Option<Result<Vec<ConnectionProfile>, CoreError>>) -> (res: Result<
        Vec<ConnectionProfile>,
        CoreError,
    >)
        ensures
            match file {
                Some(parsed) => res == parsed,
                None => res matches Ok(profiles) && profiles@.len() == 0,
            },
    {
        match file {
            Some(parsed) => parsed,
            None => Ok(Vec::new()),
        }
    }
}

} // verus!
