//! Names of the files in the data directory.

use vstd::prelude::*;

verus! {

/// The configuration.
pub fn config_path() -> (r: &'static str)
    ensures
        r@ == "config.toml"@,
{
    "config.toml"
}

/// The identity with its secret seed.
pub fn identity_path() -> (r: &'static str)
    ensures
        r@ == "identity.json"@,
{
    "identity.json"
}

/// The trust store.
pub fn trust_path() -> (r: &'static str)
    ensures
        r@ == "trust.json"@,
{
    "trust.json"
}

/// The message store.
pub fn store_path() -> (r: &'static str)
    ensures
        r@ == "messages.db"@,
{
    "messages.db"
}

/// The local socket.
pub fn ipc_name() -> (r: &'static str)
    ensures
        r@ == "daemon.sock"@,
{
    "daemon.sock"
}

/// Lock file of the single daemon instance.
pub fn lock_path() -> (r: &'static str)
    ensures
        r@ == "daemon.lock"@,
{
    "daemon.lock"
}

/// Log file of the background daemon.
pub fn log_path() -> (r: &'static str)
    ensures
        r@ == "daemon.log"@,
{
    "daemon.log"
}

} // verus!
