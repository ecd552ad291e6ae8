//! The startup configuration: where to listen, and, for a replica, the
//! primary to sync from. Read-only after startup; the flag parsing that
//! fills it lives with the process entry point.

use vstd::prelude::*;

verus! {

pub struct ServerConfig {
    pub port: u16,
    pub host: String,
    pub master_port: u16,
    pub master_host: String,
    pub is_replication: bool,
}

impl Default for ServerConfig {
    /// Listen on 127.0.0.1:6379, not a replica.
    fn default() -> (r: Self)
        ensures
            r.port == 6379,
            r.host@ == "127.0.0.1"@,
            r.master_port == 6379,
            r.master_host@ == ""@,
            !r.is_replication,
    {
        proof {
            reveal_strlit("");
        }
        ServerConfig {
            port: 6379,
            host: String::from_str("127.0.0.1"),
            master_port: 6379,
            master_host: String::new(),
            is_replication: false,
        }
    }
}

} // verus!
