//! The replication block served by INFO: the role, the replica count,
//! and the replication id and offset that PSYNC echoes.

use vstd::prelude::*;

use rand::RngExt;

use crate::config::server_config::ServerConfig;
use crate::enums::role::{spec_role_str, Role};
use crate::strutil::{dec_chars, u64_to_dec_string};

verus! {

pub struct InfoServer {
    pub role: Role,
    pub connected_slaves: u16,
    pub master_replid: String,
    pub master_repl_offset: u16,
}

/// An ASCII letter or digit.
pub open spec fn is_alnum_char(c: char) -> bool {
    ('a' <= c && c <= 'z') || ('A' <= c && c <= 'Z') || ('0' <= c && c <= '9')
}

/// Relies on rand::rng and Rng::sample_iter over the Alphanumeric
/// distribution: forty samples drawn from the documented set a-z, A-Z,
/// 0-9. Nothing more is assumed of a random result.
#[verifier::external_body]
fn get_random_replid() -> (r: String)
    ensures
        r@.len() == 40,
        forall|i: int| 0 <= i < r@.len() ==> is_alnum_char(#[trigger] r@[i]),
{
    rand::rng().sample_iter(rand::distr::Alphanumeric).take(40).map(char::from).collect()
}

/// The fixed-order replication block, as served by INFO.
pub open spec fn spec_info_string(i: &InfoServer) -> Seq<char> {
    "# Replication\nrole:"@ + spec_role_str(i.role) + "\nconnected_slaves:"@ + dec_chars(
        i.connected_slaves as nat,
    ) + "\nmaster_replid:"@ + i.master_replid@ + "\nmaster_repl_offset:"@ + dec_chars(
        i.master_repl_offset as nat,
    )
}

impl InfoServer {
    /// Fresh replication info: the role the configuration dictates, no
    /// replicas, offset zero, and a forty-character random alphanumeric
    /// replication id.
    pub fn new(config: &ServerConfig) -> (r: InfoServer)
        ensures
            r.role == (if config.is_replication {
                Role::Slave
            } else {
                Role::Master
            }),
            r.connected_slaves == 0,
            r.master_repl_offset == 0,
            r.master_replid@.len() == 40,
            forall|i: int| 0 <= i < r.master_replid@.len() ==> is_alnum_char(
                #[trigger] r.master_replid@[i],
            ),
    {
        InfoServer {
            role: if config.is_replication {
                Role::Slave
            } else {
                Role::Master
            },
            connected_slaves: 0,
            master_replid: get_random_replid(),
            master_repl_offset: 0,
        }
    }

    /// Serves the replication block, in its fixed field order.
    pub fn get_info_string(&self) -> (r: String)
        ensures
            r@ == spec_info_string(self),
    {
        let mut r = String::from_str("# Replication\nrole:");
        r.append(self.role.as_str());
        r.append("\nconnected_slaves:");
        let slaves = u64_to_dec_string(self.connected_slaves as u64);
        r.append(slaves.as_str());
        r.append("\nmaster_replid:");
        r.append(self.master_replid.as_str());
        r.append("\nmaster_repl_offset:");
        let offset = u64_to_dec_string(self.master_repl_offset as u64);
        r.append(offset.as_str());
        r
    }
}

} // verus!
