//! A ping operation: what is to be done about each event.

use vstd::prelude::*;

use crate::config::Cfg;
use crate::report::{
    failure_line, failure_text, missing_line, missing_text, reply_line, reply_text,
};
use crate::session::{reply_to, Event, Reply, Session};

verus! {

/// What is to be done about an event.
#[derive(Debug, PartialEq, Eq)]
pub enum Action {
    /// Wait for the next event.
    Wait,
    /// Send the ping with this sequence number, and report that it was sent.
    Send {
        seq: u16,
    },
    /// Print the line. The operation is over if it is the last.
    Print {
        line: String,
        last: bool,
    },
    /// Print the line. The operation has failed.
    Fail {
        line: String,
    },
    /// The operation is over.
    Finish,
}

/// Takes down an event, and says what is to be done about it.
pub fn step(cfg: &Cfg, session: &mut Session, event: Event) -> (action: Action)
    requires
        old(session)@.balanced(),
    ensures
        final(session)@ == old(session)@.after(event),
        final(session)@.balanced(),
        match event {
            Event::Tick => action == match old(session)@.next_ping() {
                Some(seq) => Action::Send { seq },
                None => Action::Wait,
            },
            Event::Sent(_) => action == Action::Wait,
            Event::Received(rx) => match reply_to(old(session)@, rx) {
                Reply::Matched { micros, finished } => {
                    &&& action matches Action::Print { line, last }
                    &&& line@ == reply_text(cfg.ipv4_adr, rx.seq, micros)
                    &&& last == finished
                },
                Reply::Missing => {
                    &&& action matches Action::Fail { line }
                    &&& line@ == missing_text(rx.seq)
                },
            },
            Event::ReceiveFailed(reason) => {
                &&& action matches Action::Fail { line }
                &&& line@ == failure_text(reason@)
            },
            Event::Swept(now) => action == if final(session)@.finished() {
                Action::Finish
            } else {
                Action::Wait
            },
        },
        final(session)@.ping_count == old(session)@.ping_count,
        // A tick asks for the next ping as long as one is left to send.
        event is Tick ==> final(session)@ == old(session)@ && if old(session)@.seq < old(
            session,
        )@.ping_count {
            action == Action::Send { seq: (old(session)@.seq + 1) as u16 }
        } else {
            action == Action::Wait
        },
        // A ping that was sent waits from then on.
        event matches Event::Sent(tx) ==> old(session)@.seq < old(session)@.ping_count ==> {
            &&& final(session)@.seq == old(session)@.seq + 1
            &&& final(session)@.complete == old(session)@.complete
            &&& final(session)@.pending == old(session)@.pending.insert(
                (old(session)@.seq + 1) as u16,
                tx.tme,
            )
        },
        // A reply is printed if its ping waits, with the time since it was sent, and is the last
        // line if no other ping waits or is left to send. Any other reply is a failure.
        event matches Event::Received(rx) ==> {
            &&& action is Print <==> old(session)@.pending.dom().contains(rx.seq)
            &&& action is Fail <==> !old(session)@.pending.dom().contains(rx.seq)
            &&& action is Print ==> exists|micros: u128|
                {
                    let tx = old(session)@.pending[rx.seq];
                    &&& action->Print_line@ == #[trigger] reply_text(
                        cfg.ipv4_adr,
                        rx.seq,
                        micros,
                    )
                    &&& tx <= rx.tme ==> micros * 1000 <= rx.tme - tx < (micros + 1) * 1000
                    &&& rx.tme < tx ==> micros == 0
                }
            &&& action is Print ==> (action->last <==> old(session)@.seq == old(
                session,
            )@.ping_count && old(session)@.pending.dom() == set![rx.seq])
            &&& final(session)@.seq == old(session)@.seq
            &&& final(session)@.pending == old(session)@.pending.remove(rx.seq)
        },
        // A failure to receive ends the operation.
        event matches Event::ReceiveFailed(_) ==> action is Fail && final(session)@ == old(
            session,
        )@,
        // The operation is over once all pings were sent and each that still waits was sent five
        // seconds ago or earlier.
        event matches Event::Swept(now) ==> {
            &&& action is Finish || action is Wait
            &&& action is Finish <==> old(session)@.seq == old(session)@.ping_count && forall|
                j: u16,
            | #[trigger]
                old(session)@.pending.dom().contains(j) ==> old(session)@.pending[j]
                    + 5_000_000_000 <= now
            &&& forall|j: u16| #[trigger]
                final(session)@.pending.dom().contains(j) <==> old(session)@.pending.dom().contains(
                    j,
                ) && now < old(session)@.pending[j] + 5_000_000_000
        },
{
    match event {
        Event::Tick => match session.next_ping() {
            Some(seq) => Action::Send { seq },
            None => Action::Wait,
        },
        Event::Sent(tx) => {
            if session.next_ping().is_some() {
                session.record_sent(tx.tme);
            }
            Action::Wait
        },
        Event::Received(rx) => match session.receive(rx) {
            Reply::Matched { micros, finished } => Action::Print {
                line: reply_line(cfg.ipv4_adr, rx.seq, micros),
                last: finished,
            },
            Reply::Missing => Action::Fail { line: missing_line(rx.seq) },
        },
        Event::ReceiveFailed(reason) => Action::Fail { line: failure_line(reason.as_str()) },
        Event::Swept(now) => {
            if session.sweep(now) {
                Action::Finish
            } else {
                Action::Wait
            }
        },
    }
}

} // verus!
