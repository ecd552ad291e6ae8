//! The replica-side handshake: a linear state machine that decides, from
//! the primary's last reply, which command to send next. Connecting,
//! sending and reading happen outside; this module owns the decisions
//! and the exact wire text of each command.

use vstd::prelude::*;

use crate::resp::parser::{crlf, spec_array_items, spec_bulk, spec_serialize, Parser};
use crate::strutil::{contains_seq, dec_chars, str_contains_str, u64_to_dec_string};

verus! {

/// Where the handshake stands: which command was sent last, that every
/// step completed, or that a step's reply aborted the handshake. An
/// aborted handshake is fatal to startup; only the caller can act on
/// that, so failure and completion are distinct terminal states.
#[derive(Debug, Clone, Copy, PartialEq, Eq, Structural)]
pub enum HandshakeState {
    PingSent,
    PortSent,
    CapaSent,
    PsyncSent,
    Done,
    Failed,
}

/// The wire text of a one-element command array.
pub open spec fn spec_cmd1(w: Seq<char>) -> Seq<char> {
    seq!['*'] + dec_chars(1) + crlf() + spec_bulk(w)
}

/// The wire text of a three-element command array.
pub open spec fn spec_cmd3(w1: Seq<char>, w2: Seq<char>, w3: Seq<char>) -> Seq<char> {
    seq!['*'] + dec_chars(3) + crlf() + spec_bulk(w1) + spec_bulk(w2) + spec_bulk(w3)
}

/// Serializes a command of words into its array wire form.
fn command_wire(words: Vec<String>) -> (r: String)
    ensures
        r@ == spec_serialize(&Parser::Array(words)),
{
    let value = Parser::Array(words);
    value.serialize()
}

/// Builds a one-word command.
fn cmd1(w: &str) -> (r: String)
    ensures
        r@ == spec_cmd1(w@),
{
    let mut words: Vec<String> = Vec::new();
    words.push(String::from_str(w));
    proof {
        let v = words@;
        assert(v.len() == 1 && v[0]@ == w@);
        assert(v.drop_first() =~= Seq::<String>::empty());
        assert(spec_array_items(v.drop_first()) =~= Seq::<char>::empty());
        assert(spec_array_items(v) =~= spec_bulk(w@));
    }
    command_wire(words)
}

/// Builds a three-word command.
fn cmd3(w1: &str, w2: &str, w3: String) -> (r: String)
    ensures
        r@ == spec_cmd3(w1@, w2@, w3@),
{
    let mut words: Vec<String> = Vec::new();
    words.push(String::from_str(w1));
    words.push(String::from_str(w2));
    words.push(w3);
    proof {
        let v = words@;
        assert(v.len() == 3 && v[0]@ == w1@ && v[1]@ == w2@ && v[2]@ == w3@);
        assert(v.drop_first()[0] == v[1] && v.drop_first()[1] == v[2]);
        assert(v.drop_first().drop_first()[0] == v[2]);
        assert(v.drop_first().drop_first().drop_first() =~= Seq::<String>::empty());
        assert(spec_array_items(v.drop_first().drop_first().drop_first())
            =~= Seq::<char>::empty());
        assert(spec_array_items(v.drop_first().drop_first()) =~= spec_bulk(w3@));
        assert(spec_array_items(v.drop_first()) =~= spec_bulk(w2@) + spec_bulk(w3@));
        assert(spec_array_items(v) =~= spec_bulk(w1@) + (spec_bulk(w2@) + spec_bulk(w3@)));
        assert(spec_array_items(v) =~= spec_bulk(w1@) + spec_bulk(w2@) + spec_bulk(w3@));
    }
    command_wire(words)
}

/// The first command of the handshake: PING, and the state recording it.
pub fn handshake_init() -> (r: (String, HandshakeState))
    ensures
        r.0@ == spec_cmd1("PING"@),
        r.1 == HandshakeState::PingSent,
{
    (cmd1("PING"), HandshakeState::PingSent)
}

/// One step of the handshake: given the primary's reply to the last
/// command, the next command to send, if any, and the next state. A PING
/// reply without `+PONG` aborts the handshake, which ends in the failed
/// state; the replies to the remaining commands are read and discarded,
/// whatever they hold.
pub fn handshake_step(state: HandshakeState, reply: &str, own_port: u16) -> (r: (
    Option<String>,
    HandshakeState,
))
    ensures
        state == HandshakeState::PingSent && contains_seq(reply@, "+PONG\r\n"@) ==> (r.0 matches
            Some(c) && c@ == spec_cmd3("REPLCONF"@, "listening-port"@, dec_chars(own_port as nat))
            && r.1 == HandshakeState::PortSent),
        state == HandshakeState::PingSent && !contains_seq(reply@, "+PONG\r\n"@) ==> (r.0 is None
            && r.1 == HandshakeState::Failed),
        state == HandshakeState::PortSent ==> (r.0 matches Some(c) && c@ == spec_cmd3(
            "REPLCONF"@,
            "capa"@,
            "psync2"@,
        ) && r.1 == HandshakeState::CapaSent),
        state == HandshakeState::CapaSent ==> (r.0 matches Some(c) && c@ == spec_cmd3(
            "PSYNC"@,
            "?"@,
            "-1"@,
        ) && r.1 == HandshakeState::PsyncSent),
        state == HandshakeState::PsyncSent ==> (r.0 is None && r.1 == HandshakeState::Done),
        state == HandshakeState::Done ==> (r.0 is None && r.1 == HandshakeState::Done),
        state == HandshakeState::Failed ==> (r.0 is None && r.1 == HandshakeState::Failed),
{
    match state {
        HandshakeState::PingSent => {
            if str_contains_str(reply, "+PONG\r\n") {
                let port_str = u64_to_dec_string(own_port as u64);
                (
                    Some(cmd3("REPLCONF", "listening-port", port_str)),
                    HandshakeState::PortSent,
                )
            } else {
                (None, HandshakeState::Failed)
            }
        },
        HandshakeState::PortSent => (
            Some(cmd3("REPLCONF", "capa", String::from_str("psync2"))),
            HandshakeState::CapaSent,
        ),
        HandshakeState::CapaSent => (
            Some(cmd3("PSYNC", "?", String::from_str("-1"))),
            HandshakeState::PsyncSent,
        ),
        HandshakeState::PsyncSent => (None, HandshakeState::Done),
        HandshakeState::Done => (None, HandshakeState::Done),
        HandshakeState::Failed => (None, HandshakeState::Failed),
    }
}

} // verus!
