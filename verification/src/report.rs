//! What a ping operation prints.

use vstd::prelude::*;

use crate::address::{ipv4_text, law_ipv4_text_dotted, push_ipv4, Ipv4Addr};
use crate::decimal::{numeral, push_numeral};

verus! {

/// The line for an answered ping.
pub open spec fn reply_text(adr: Ipv4Addr, seq: u16, micros: u128) -> Seq<char> {
    ipv4_text(adr) + ", "@ + numeral(seq as nat) + ", "@ + numeral(micros as nat) + "us"@
}

/// The line for a reply that no ping was waiting for.
pub open spec fn missing_text(seq: u16) -> Seq<char> {
    "socket.recv_ping: missing seq: '"@ + numeral(seq as nat) + "' in map"@
}

/// The line for a socket that failed to receive.
pub open spec fn failure_text(reason: Seq<char>) -> Seq<char> {
    "socket.recv_ping: res_rx: "@ + reason
}

/// The line for an answered ping: the address, the sequence number and the round-trip time in
/// microseconds.
pub fn reply_line(adr: Ipv4Addr, seq: u16, micros: u128) -> (line: String)
    ensures
        line@ == reply_text(adr, seq, micros),
{
    let mut line = String::new();
    push_ipv4(&mut line, adr);
    line.append(", ");
    push_numeral(&mut line, seq as u128);
    line.append(", ");
    push_numeral(&mut line, micros);
    line.append("us");
    line
}

/// The line for a reply that no ping was waiting for.
pub fn missing_line(seq: u16) -> (line: String)
    ensures
        line@ == missing_text(seq),
{
    let mut line = "socket.recv_ping: missing seq: '".to_owned();
    push_numeral(&mut line, seq as u128);
    line.append("' in map");
    line
}

/// The line for a socket that failed to receive.
pub fn failure_line(reason: &str) -> (line: String)
    ensures
        line@ == failure_text(reason@),
{
    let mut line = "socket.recv_ping: res_rx: ".to_owned();
    line.append(reason);
    line
}

/// The printed lines in full: an answered ping by its address, its number and its time, a reply
/// that finds no ping by its number, and a failure by its reason.
pub proof fn law_lines(adr: Ipv4Addr, seq: u16, micros: u128, reason: Seq<char>)
    ensures
        reply_text(adr, seq, micros) == numeral(adr.a as nat) + seq!['.'] + numeral(adr.b as nat)
            + seq!['.'] + numeral(adr.c as nat) + seq!['.'] + numeral(adr.d as nat) + seq![',', ' ']
            + numeral(seq as nat) + seq![',', ' '] + numeral(micros as nat) + seq!['u', 's'],
        missing_text(seq) == "socket.recv_ping: missing seq: '"@ + numeral(seq as nat)
            + "' in map"@,
        failure_text(reason) == "socket.recv_ping: res_rx: "@ + reason,
{
    law_ipv4_text_dotted(adr);
    reveal_strlit(", ");
    reveal_strlit("us");
    assert(", "@ == seq![',', ' ']);
    assert("us"@ == seq!['u', 's']);
}

} // verus!
