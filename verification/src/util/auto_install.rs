//! Configuration for installing the Rust toolchain.
//!
//! Running the installer is process work the embedding program does; what
//! the library owns is the proxy configuration and its exact expansion into
//! environment assignments.

use vstd::prelude::*;
use vstd::string::StringExecFns;

verus! {

/// Mirror settings for the toolchain installer: the two environment
/// variables it honours.
#[derive(Debug, Clone, PartialEq)]
pub struct RustProxy {
    /// The download server, handed to the installer as
    /// `RUSTUP_DIST_SERVER`.
    pub dist_server: String,
    /// The self-update root, handed to the installer as
    /// `RUSTUP_UPDATE_ROOT`.
    pub update_root: String,
}

impl Default for RustProxy {
    /// No proxying: both settings empty.
    fn default() -> (r: RustProxy)
        ensures
            r.dist_server@.len() == 0,
            r.update_root@.len() == 0,
    {
        proof {
            reveal_strlit("");
        }
        RustProxy { dist_server: String::from_str(""), update_root: String::from_str("") }
    }
}

impl RustProxy {
    /// The environment assignments for the installer: exactly the two
    /// variables it honours, with this proxy's values.
    pub fn as_env_args(&self) -> (r: Vec<(String, String)>)
        ensures
            r@.len() == 2,
            r@[0].0@ == "RUSTUP_DIST_SERVER"@ && r@[0].1@ == self.dist_server@,
            r@[1].0@ == "RUSTUP_UPDATE_ROOT"@ && r@[1].1@ == self.update_root@,
    {
        let mut map: Vec<(String, String)> = Vec::new();
        map.push((String::from_str("RUSTUP_DIST_SERVER"), self.dist_server.clone()));
        map.push((String::from_str("RUSTUP_UPDATE_ROOT"), self.update_root.clone()));
        map
    }

    /// The same assignments, consuming the proxy.
    pub fn into_env_args(self) -> (r: Vec<(String, String)>)
        ensures
            r@.len() == 2,
            r@[0].0@ == "RUSTUP_DIST_SERVER"@ && r@[0].1@ == self.dist_server@,
            r@[1].0@ == "RUSTUP_UPDATE_ROOT"@ && r@[1].1@ == self.update_root@,
    {
        let mut map: Vec<(String, String)> = Vec::new();
        let RustProxy { dist_server, update_root } = self;
        map.push((String::from_str("RUSTUP_DIST_SERVER"), dist_server));
        map.push((String::from_str("RUSTUP_UPDATE_ROOT"), update_root));
        map
    }
}

/// The Rust toolchain as an installable: optionally through a proxy. The
/// installer runs in the embedding program; this type carries what it
/// needs.
#[derive(Debug, Clone, PartialEq)]
pub struct Rust {
    /// Proxy settings, if downloads must not go direct.
    pub proxy: Option<RustProxy>,
}

impl Default for Rust {
    /// Direct downloads, no proxy.
    fn default() -> (r: Rust)
        ensures
            r.proxy is None,
    {
        Rust { proxy: None }
    }
}

impl Rust {
    /// The environment assignments for this install: the proxy's two
    /// variables when one is set, none otherwise.
    pub fn env_args(&self) -> (r: Vec<(String, String)>)
        ensures
            self.proxy is None ==> r@.len() == 0,
            self.proxy matches Some(p) ==> r@.len() == 2 && r@[0].0@
                == "RUSTUP_DIST_SERVER"@ && r@[0].1@ == p.dist_server@ && r@[1].0@
                == "RUSTUP_UPDATE_ROOT"@ && r@[1].1@ == p.update_root@,
    {
        match &self.proxy {
            Some(p) => p.as_env_args(),
            None => Vec::new(),
        }
    }
}

} // verus!
