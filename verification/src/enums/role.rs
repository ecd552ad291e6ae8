//! The replication role of a server: primary or replica.

use vstd::prelude::*;

verus! {

#[derive(Debug, Clone, Copy, PartialEq, Eq, Structural)]
pub enum Role {
    Master,
    Slave,
}

/// The wire name of each role, as printed in the INFO reply.
pub open spec fn spec_role_str(r: Role) -> Seq<char> {
    match r {
        Role::Master => "master"@,
        Role::Slave => "slave"@,
    }
}

impl Role {
    /// The lowercase name of the role.
    pub fn as_str(&self) -> (r: &'static str)
        ensures
            r@ == spec_role_str(*self),
    {
        match self {
            Role::Master => "master",
            Role::Slave => "slave",
        }
    }
}

} // verus!
