//! The bookkeeping of a ping session: which pings were sent when, and which are settled.

use std::collections::HashMap;
use vstd::prelude::*;
use vstd::set_lib::lemma_set_disjoint_lens;
use vstd::std_specs::hash::group_hash_axioms;

use crate::packet::SeqTme;

verus! {

broadcast use group_hash_axioms;

/// How long a ping waits for its reply, in nanoseconds.
pub const PING_TIMEOUT: u128 = 5_000_000_000;

/// The nanoseconds of a microsecond.
pub const NANOS_PER_MICRO: u128 = 1000;

/// How far a session is.
#[verifier::ext_equal]
pub struct Progress {
    /// How many pings the session is to send.
    pub ping_count: nat,
    /// The sequence number of the last ping that was sent, zero before the first.
    pub seq: nat,
    /// How many pings are settled: answered or timed out.
    pub complete: nat,
    /// The pings that wait for their reply, with the time at which each was sent.
    pub pending: Map<u16, u128>,
}

/// A ping sent at `tx` has waited too long at `now`.
pub open spec fn timed_out(tx: u128, now: u128) -> bool {
    now >= tx + PING_TIMEOUT
}

/// Whole microseconds between `tx` and `rx`, none if `rx` comes first.
pub open spec fn round_trip_micros(tx: u128, rx: u128) -> u128 {
    if rx >= tx {
        ((rx - tx) / NANOS_PER_MICRO as int) as u128
    } else {
        0
    }
}

impl Progress {
    /// A session that has sent nothing yet.
    pub open spec fn start(ping_count: u16) -> Progress {
        Progress { ping_count: ping_count as nat, seq: 0, complete: 0, pending: Map::empty() }
    }

    /// The books balance: of the pings sent, with the sequence numbers from one on, each is
    /// either settled or still waits.
    pub open spec fn balanced(self) -> bool {
        &&& self.seq <= self.ping_count <= u16::MAX
        &&& self.pending.dom().finite()
        &&& self.complete + self.pending.len() == self.seq
        &&& forall|k: u16| #[trigger] self.pending.contains_key(k) ==> 1 <= k <= self.seq
    }

    /// As many pings are settled as the session is to send.
    pub open spec fn finished(self) -> bool {
        self.complete >= self.ping_count
    }

    /// The sequence number of the ping to send next, if there is one more to send.
    pub open spec fn next_ping(self) -> Option<u16> {
        if self.seq < self.ping_count {
            Some((self.seq + 1) as u16)
        } else {
            None
        }
    }

    /// The session after the next ping was sent at `tme`.
    pub open spec fn after_send(self, tme: u128) -> Progress {
        Progress {
            seq: self.seq + 1,
            pending: self.pending.insert((self.seq + 1) as u16, tme),
            ..self
        }
    }

    /// The session after a reply to ping `seq`.
    pub open spec fn after_receive(self, seq: u16) -> Progress {
        if self.pending.contains_key(seq) {
            Progress { complete: self.complete + 1, pending: self.pending.remove(seq), ..self }
        } else {
            self
        }
    }

    /// The pings that have waited too long at `now`.
    pub open spec fn expired(self, now: u128) -> Map<u16, u128> {
        self.pending.filter_keys(|k: u16| timed_out(self.pending[k], now))
    }

    /// The pings that may wait on at `now`.
    pub open spec fn retained(self, now: u128) -> Map<u16, u128> {
        self.pending.filter_keys(|k: u16| !timed_out(self.pending[k], now))
    }

    /// The session after the pings that have waited too long at `now` were given up.
    pub open spec fn after_sweep(self, now: u128) -> Progress {
        Progress {
            complete: self.complete + self.expired(now).len(),
            pending: self.retained(now),
            ..self
        }
    }
}

/// What a reply amounts to.
#[derive(Debug, Clone, Copy, PartialEq, Eq, Structural)]
pub enum Reply {
    /// It answers a ping that was waiting.
    Matched {
        /// The round-trip time in microseconds.
        micros: u128,
        /// All pings are settled with it.
        finished: bool,
    },
    /// No ping with this sequence number was waiting.
    Missing,
}

/// What the reply `rx` amounts to in a session that is at `p`.
pub open spec fn reply_to(p: Progress, rx: SeqTme) -> Reply {
    if p.pending.contains_key(rx.seq) {
        Reply::Matched {
            micros: round_trip_micros(p.pending[rx.seq], rx.tme),
            finished: p.after_receive(rx.seq).finished(),
        }
    } else {
        Reply::Missing
    }
}

/// A session of pings to one host.
///
/// Replies may come back out of order, so the send times are kept by sequence number.
pub struct Session {
    ping_count: u16,
    complete_count: u16,
    seq: u16,
    seqs: HashMap<u16, u128>,
}

impl View for Session {
    type V = Progress;

    closed spec fn view(&self) -> Progress {
        Progress {
            ping_count: self.ping_count as nat,
            seq: self.seq as nat,
            complete: self.complete_count as nat,
            pending: self.seqs@,
        }
    }
}

impl Session {
    /// A session that is to send `ping_count` pings.
    pub fn new(ping_count: u16) -> (session: Session)
        ensures
            session@ == Progress::start(ping_count),
            session@.balanced(),
            session@.ping_count == ping_count,
            session@.seq == 0,
            session@.complete == 0,
            session@.pending == Map::<u16, u128>::empty(),
    {
        Session { ping_count, complete_count: 0, seq: 0, seqs: HashMap::new() }
    }

    /// The sequence number of the ping to send next, if there is one more to send.
    pub fn next_ping(&self) -> (seq: Option<u16>)
        ensures
            seq == self@.next_ping(),
            self@.seq < self@.ping_count ==> seq is Some && seq.unwrap() == self@.seq + 1,
            self@.seq >= self@.ping_count ==> seq is None,
    {
        if self.seq >= self.ping_count {
            None
        } else {
            Some(self.seq + 1)
        }
    }

    /// Takes down that the next ping was sent at `tme`.
    pub fn record_sent(&mut self, tme: u128)
        requires
            old(self)@.balanced(),
            old(self)@.next_ping() is Some,
        ensures
            final(self)@ == old(self)@.after_send(tme),
            final(self)@.balanced(),
            final(self)@.ping_count == old(self)@.ping_count,
            final(self)@.seq == old(self)@.seq + 1,
            final(self)@.complete == old(self)@.complete,
            final(self)@.pending == old(self)@.pending.insert((old(self)@.seq + 1) as u16, tme),
    {
        proof {
            law_send_keeps_balance(self@, tme);
        }
        self.seq = self.seq + 1;
        self.seqs.insert(self.seq, tme);
    }

    /// Takes down a reply. One that no ping was waiting for changes nothing.
    pub fn receive(&mut self, rx: SeqTme) -> (reply: Reply)
        requires
            old(self)@.balanced(),
        ensures
            reply == reply_to(old(self)@, rx),
            final(self)@ == old(self)@.after_receive(rx.seq),
            final(self)@.balanced(),
            final(self)@.ping_count == old(self)@.ping_count,
            final(self)@.seq == old(self)@.seq,
            final(self)@.pending == old(self)@.pending.remove(rx.seq),
            match reply {
                Reply::Matched { micros, finished } => {
                    &&& old(self)@.pending.dom().contains(rx.seq)
                    &&& old(self)@.pending[rx.seq] <= rx.tme ==> micros * 1000 <= rx.tme - old(
                        self,
                    )@.pending[rx.seq] < (micros + 1) * 1000
                    &&& rx.tme < old(self)@.pending[rx.seq] ==> micros == 0
                    &&& finished <==> old(self)@.seq == old(self)@.ping_count && old(
                        self,
                    )@.pending.dom() == set![rx.seq]
                    &&& final(self)@.complete == old(self)@.complete + 1
                },
                Reply::Missing => {
                    &&& !old(self)@.pending.dom().contains(rx.seq)
                    &&& final(self)@.complete == old(self)@.complete
                },
            },
    {
        proof {
            law_receive_keeps_balance(self@, rx.seq);
            law_reply_exact(self@, rx);
            law_received_exact(self@, rx);
        }
        match self.seqs.remove(&rx.seq) {
            Some(time_tx) => {
                self.complete_count = self.complete_count + 1;
                // Calculate the round-trip time
                let micros: u128 = if rx.tme >= time_tx {
                    (rx.tme - time_tx) / NANOS_PER_MICRO
                } else {
                    0
                };
                Reply::Matched { micros, finished: self.complete_count >= self.ping_count }
            },
            None => {
                assert(self.seqs@ =~= old(self).seqs@);
                Reply::Missing
            },
        }
    }

    /// Gives up the pings that have waited too long at `now`, and says whether all pings are
    /// settled.
    pub fn sweep(&mut self, now: u128) -> (finished: bool)
        requires
            old(self)@.balanced(),
        ensures
            final(self)@ == old(self)@.after_sweep(now),
            final(self)@.balanced(),
            finished == final(self)@.finished(),
            final(self)@.ping_count == old(self)@.ping_count,
            final(self)@.seq == old(self)@.seq,
            final(self)@.complete + final(self)@.pending.dom().len() == old(self)@.complete + old(
                self,
            )@.pending.dom().len(),
            forall|j: u16| #[trigger]
                final(self)@.pending.dom().contains(j) <==> old(self)@.pending.dom().contains(j)
                    && now < old(self)@.pending[j] + 5_000_000_000,
            forall|j: u16| #[trigger]
                final(self)@.pending.dom().contains(j) ==> final(self)@.pending[j] == old(
                    self,
                )@.pending[j],
            finished <==> old(self)@.seq == old(self)@.ping_count && forall|j: u16| #[trigger]
                old(self)@.pending.dom().contains(j) ==> old(self)@.pending[j] + 5_000_000_000
                    <= now,
    {
        let ghost before = self@;
        proof {
            law_sweep_keeps_balance(before, now);
            law_silence_ends_the_session(before, now);
        }
        let mut k: u16 = 0;
        while k < self.seq
            invariant
                before.balanced(),
                before.ping_count == self.ping_count,
                before.seq == self.seq,
                self@.balanced(),
                k <= self.seq,
                forall|j: u16| #[trigger]
                    self.seqs@.contains_key(j) <==> before.pending.contains_key(j) && (j > k
                        || !timed_out(before.pending[j], now)),
                forall|j: u16| #[trigger]
                    self.seqs@.contains_key(j) ==> self.seqs@[j] == before.pending[j],
            decreases self.seq - k,
        {
            k = k + 1;
            if let Some(tx) = self.seqs.get(&k) {
                let tx: u128 = *tx;
                if now >= tx && now - tx >= PING_TIMEOUT {
                    // Timeout occurred
                    self.seqs.remove(&k);
                    self.complete_count = self.complete_count + 1;
                }
            }
        }
        assert(self.seqs@ =~= before.retained(now));
        self.complete_count >= self.ping_count
    }
}

/// Sending the next ping keeps the books balanced.
pub proof fn law_send_keeps_balance(p: Progress, tme: u128)
    requires
        p.balanced(),
        p.next_ping() is Some,
    ensures
        p.after_send(tme).balanced(),
{
    assert(!p.pending.contains_key((p.seq + 1) as u16));
}

/// A reply keeps the books balanced.
pub proof fn law_receive_keeps_balance(p: Progress, seq: u16)
    requires
        p.balanced(),
    ensures
        p.after_receive(seq).balanced(),
{
}

/// Giving up pings keeps the books balanced.
pub proof fn law_sweep_keeps_balance(p: Progress, now: u128)
    requires
        p.balanced(),
    ensures
        p.after_sweep(now).balanced(),
{
    let expired = p.expired(now).dom();
    let retained = p.retained(now).dom();
    assert(expired + retained =~= p.pending.dom());
    assert(expired.subset_of(p.pending.dom()) && retained.subset_of(p.pending.dom()));
    vstd::set_lib::lemma_len_subset(expired, p.pending.dom());
    vstd::set_lib::lemma_len_subset(retained, p.pending.dom());
    lemma_set_disjoint_lens(expired, retained);
}

/// What happens during a ping operation.
#[derive(Debug, PartialEq, Eq)]
pub enum Event {
    /// The interval is over.
    Tick,
    /// The next ping was sent.
    Sent(SeqTme),
    /// A reply arrived.
    Received(SeqTme),
    /// The socket failed to receive, for this reason.
    ReceiveFailed(String),
    /// The clock shows this time.
    Swept(u128),
}

impl Progress {
    /// The session after one event.
    pub open spec fn after(self, event: Event) -> Progress {
        match event {
            Event::Sent(tx) if self.next_ping() is Some => self.after_send(tx.tme),
            Event::Received(rx) => self.after_receive(rx.seq),
            Event::Swept(now) => self.after_sweep(now),
            _ => self,
        }
    }

    /// The session after a number of events, one after the other.
    pub open spec fn after_all(self, events: Seq<Event>) -> Progress
        decreases events.len(),
    {
        if events.len() == 0 {
            self
        } else {
            self.after_all(events.drop_last()).after(events.last())
        }
    }
}

/// Every event keeps the books balanced, and takes back neither a ping sent nor one settled.
pub proof fn law_event_keeps_balance(p: Progress, event: Event)
    requires
        p.balanced(),
    ensures
        p.after(event).balanced(),
        p.after(event).ping_count == p.ping_count,
        p.seq <= p.after(event).seq,
        p.complete <= p.after(event).complete,
{
    match event {
        Event::Sent(tx) => {
            if p.next_ping() is Some {
                law_send_keeps_balance(p, tx.tme);
            }
        },
        Event::Received(rx) => law_receive_keeps_balance(p, rx.seq),
        Event::Swept(now) => law_sweep_keeps_balance(p, now),
        _ => {},
    }
}

/// Whatever happens, and in whatever order, the books of a session stay balanced, and no ping
/// sent or settled is taken back.
pub proof fn law_events_keep_balance(p: Progress, events: Seq<Event>)
    requires
        p.balanced(),
    ensures
        p.after_all(events).balanced(),
        p.after_all(events).ping_count == p.ping_count,
        p.seq <= p.after_all(events).seq,
        p.complete <= p.after_all(events).complete,
    decreases events.len(),
{
    if events.len() > 0 {
        law_events_keep_balance(p, events.drop_last());
        law_event_keeps_balance(p.after_all(events.drop_last()), events.last());
    }
}

/// A session is finished exactly when all its pings were sent and none waits any more: every
/// ping was answered or has timed out.
pub proof fn law_finished_when_all_settled(p: Progress)
    requires
        p.balanced(),
    ensures
        p.finished() <==> p.seq == p.ping_count && p.pending.is_empty(),
        p.complete <= p.ping_count,
{
    if p.finished() {
        assert(p.pending.dom().len() == 0);
        assert(p.pending.dom() =~= Set::empty());
        assert(p.pending =~= Map::empty());
    }
}

/// A session stays finished, and sends nothing more.
pub proof fn law_finished_stays(p: Progress, events: Seq<Event>)
    requires
        p.balanced(),
        p.finished(),
    ensures
        p.after_all(events).finished(),
        p.after_all(events).next_ping() is None,
{
    law_events_keep_balance(p, events);
    law_finished_when_all_settled(p.after_all(events));
}

/// Pings are sent with the sequence numbers one, two, three and so on up to the number of
/// pings, each once.
pub proof fn law_pings_numbered_in_order(p: Progress, tme: u128)
    requires
        p.balanced(),
    ensures
        Progress::start(p.ping_count as u16).next_ping() == if p.ping_count >= 1 {
            Some(1u16)
        } else {
            None
        },
        p.next_ping() is Some ==> !p.pending.contains_key(p.next_ping().unwrap()),
        p.next_ping() is Some ==> p.after_send(tme).next_ping() == if p.next_ping().unwrap()
            < p.ping_count {
            Some((p.next_ping().unwrap() + 1) as u16)
        } else {
            None
        },
{
    if p.next_ping() is Some {
        assert(!p.pending.contains_key((p.seq + 1) as u16));
    }
}

/// A ping that was sent and waits after some events has waited since before them, and they have
/// not changed the time at which it was sent: a settled ping never waits again.
pub proof fn law_send_time_kept(p: Progress, events: Seq<Event>, seq: u16)
    requires
        p.balanced(),
        seq <= p.seq,
        p.after_all(events).pending.contains_key(seq),
    ensures
        p.pending.contains_key(seq),
        p.after_all(events).pending[seq] == p.pending[seq],
    decreases events.len(),
{
    if events.len() > 0 {
        let before = p.after_all(events.drop_last());
        law_events_keep_balance(p, events.drop_last());
        assert(before.pending.contains_key(seq));
        law_send_time_kept(p, events.drop_last(), seq);
    }
}

/// The reply to a ping that was just sent measures the time from then on, and leaves the other
/// pings as they were.
pub proof fn law_reply_measures_round_trip(p: Progress, tx: u128, rx: u128)
    requires
        p.balanced(),
        p.next_ping() is Some,
    ensures
        ({
            let seq = p.next_ping().unwrap();
            let sent = p.after_send(tx);
            let reply = SeqTme { seq, tme: rx };
            &&& reply_to(sent, reply) is Matched
            &&& reply_to(sent, reply)->micros == round_trip_micros(tx, rx)
            &&& sent.after_receive(seq).pending == p.pending
        }),
{
    assert(!p.pending.contains_key((p.seq + 1) as u16));
    assert(p.after_send(tx).after_receive((p.seq + 1) as u16).pending =~= p.pending);
}

/// Replies may come back out of order: two replies leave the session at the same point
/// whichever comes first, and each measures what it would measure alone.
pub proof fn law_replies_commute(p: Progress, rx1: SeqTme, rx2: SeqTme)
    requires
        rx1.seq != rx2.seq,
    ensures
        p.after_receive(rx1.seq).after_receive(rx2.seq) == p.after_receive(
            rx2.seq,
        ).after_receive(rx1.seq),
        reply_to(p.after_receive(rx1.seq), rx2) is Missing <==> reply_to(p, rx2) is Missing,
        reply_to(p, rx2) is Matched ==> reply_to(p.after_receive(rx1.seq), rx2)->micros
            == reply_to(p, rx2)->micros,
{
    assert(p.after_receive(rx1.seq).after_receive(rx2.seq) =~= p.after_receive(
        rx2.seq,
    ).after_receive(rx1.seq));
}

/// A ping is answered once: a second reply with the same sequence number finds no ping.
pub proof fn law_second_reply_missing(p: Progress, rx1: SeqTme, rx2: SeqTme)
    requires
        rx1.seq == rx2.seq,
    ensures
        reply_to(p.after_receive(rx1.seq), rx2) is Missing,
{
}

/// A reply that comes after its ping was given up finds no ping.
pub proof fn law_late_reply_missing(p: Progress, rx: SeqTme, now: u128)
    requires
        p.pending.contains_key(rx.seq),
        timed_out(p.pending[rx.seq], now),
    ensures
        reply_to(p.after_sweep(now), rx) is Missing,
{
}

/// Giving up pings at one time and again at a later time is giving them up at the later time.
pub proof fn law_sweeps_add_up(p: Progress, now1: u128, now2: u128)
    requires
        p.balanced(),
        now1 <= now2,
    ensures
        p.after_sweep(now1).after_sweep(now2) == p.after_sweep(now2),
{
    let once = p.after_sweep(now2);
    let twice = p.after_sweep(now1).after_sweep(now2);
    law_sweep_keeps_balance(p, now1);
    law_sweep_keeps_balance(p, now2);
    law_sweep_keeps_balance(p.after_sweep(now1), now2);
    assert(twice.pending =~= once.pending);
    assert(twice =~= once);
}

/// A session does not wait for ever: with all pings sent, and the last of those that wait given
/// up, it is finished.
pub proof fn law_timeouts_finish(p: Progress, now: u128)
    requires
        p.balanced(),
        p.next_ping() is None,
        forall|k: u16| #[trigger]
            p.pending.contains_key(k) ==> timed_out(p.pending[k], now),
    ensures
        p.after_sweep(now).finished(),
{
    law_sweep_keeps_balance(p, now);
    law_finished_when_all_settled(p.after_sweep(now));
    assert(p.after_sweep(now).pending =~= Map::empty());
}

/// A ping times out five seconds after it was sent, and not before.
pub proof fn law_timeout_after_five_seconds(tx: u128, now: u128)
    ensures
        timed_out(tx, now) <==> now - tx >= 5_000_000_000,
{
}

/// A round-trip time is the whole microseconds that have passed, rounded down.
pub proof fn law_micros_rounded_down(tx: u128, rx: u128)
    ensures
        tx <= rx ==> round_trip_micros(tx, rx) * 1000 <= rx - tx < (round_trip_micros(tx, rx) + 1)
            * 1000,
        rx < tx ==> round_trip_micros(tx, rx) == 0,
{
}

/// What a balanced session is: the pings sent are those settled and those that wait, they are no
/// more than are to be sent, and those that wait have numbers from one to the last one sent.
pub proof fn law_balance(p: Progress)
    ensures
        p.balanced() <==> {
            &&& p.complete + p.pending.dom().len() == p.seq
            &&& p.seq <= p.ping_count <= 65535
            &&& p.pending.dom().finite()
            &&& forall|k: u16| #[trigger] p.pending.dom().contains(k) ==> 1 <= k <= p.seq
        },
{
    assert(forall|k: u16| #[trigger]
        p.pending.contains_key(k) <==> p.pending.dom().contains(k));
}

/// A session starts with nothing sent, nothing settled and nothing that waits.
pub proof fn law_start(ping_count: u16)
    ensures
        Progress::start(ping_count).ping_count == ping_count,
        Progress::start(ping_count).seq == 0,
        Progress::start(ping_count).complete == 0,
        Progress::start(ping_count).pending == Map::<u16, u128>::empty(),
        Progress::start(ping_count).balanced(),
{
}

/// The next ping is the one after the last one sent, as long as fewer were sent than are to be
/// sent.
pub proof fn law_next_ping(p: Progress, n: u16)
    requires
        p.balanced(),
    ensures
        p.next_ping() == Some(n) <==> n == p.seq + 1 && n <= p.ping_count,
        p.next_ping() is None <==> p.seq == p.ping_count,
{
}

/// Every ping that is sent waits from then on, under its number and with its send time, whatever
/// its number and its send time are. Nothing else changes.
pub proof fn law_sent_ping_waits(p: Progress, tx: SeqTme)
    requires
        p.balanced(),
        p.next_ping() == Some(tx.seq),
    ensures
        p.after(Event::Sent(tx)).pending == p.pending.insert(tx.seq, tx.tme),
        !p.pending.contains_key(tx.seq),
        p.after(Event::Sent(tx)).seq == p.seq + 1 == tx.seq,
        p.after(Event::Sent(tx)).complete == p.complete,
        p.after(Event::Sent(tx)).ping_count == p.ping_count,
{
    assert(!p.pending.contains_key((p.seq + 1) as u16));
}

/// The reply to a ping finds it as soon as it was sent, and gives the whole microseconds since
/// then. The ping is settled with it, and the other pings are left as they were.
pub proof fn law_sent_ping_is_answered(p: Progress, tx: SeqTme, rx: u128)
    requires
        p.balanced(),
        p.next_ping() == Some(tx.seq),
        tx.tme <= rx,
    ensures
        ({
            let sent = p.after(Event::Sent(tx));
            let reply = SeqTme { seq: tx.seq, tme: rx };
            let settled = sent.after(Event::Received(reply));
            &&& reply_to(sent, reply) is Matched
            &&& reply_to(sent, reply)->micros * 1000 <= rx - tx.tme < (reply_to(sent, reply)->micros
                + 1) * 1000
            &&& settled.pending == p.pending
            &&& settled.complete == p.complete + 1
            &&& settled.seq == p.seq + 1
        }),
{
    law_sent_ping_waits(p, tx);
    law_micros_rounded_down(tx.tme, rx);
    assert(p.pending.insert(tx.seq, tx.tme).remove(tx.seq) =~= p.pending);
}

/// Which replies find a ping, and what they say: those whose number waits. Such a reply gives the
/// whole microseconds since the send time, nothing if the clock ran back, and says that the
/// session is finished exactly when all pings were sent and this was the only one that waited.
pub proof fn law_reply_exact(p: Progress, rx: SeqTme)
    requires
        p.balanced(),
    ensures
        reply_to(p, rx) is Matched <==> p.pending.dom().contains(rx.seq),
        p.pending.dom().contains(rx.seq) ==> {
            let tx = p.pending[rx.seq];
            let micros = reply_to(p, rx)->micros;
            &&& tx <= rx.tme ==> micros * 1000 <= rx.tme - tx < (micros + 1) * 1000
            &&& rx.tme < tx ==> micros == 0
            &&& reply_to(p, rx)->finished <==> p.seq == p.ping_count && p.pending.dom()
                == set![rx.seq]
        },
{
    if p.pending.contains_key(rx.seq) {
        law_micros_rounded_down(p.pending[rx.seq], rx.tme);
        let left = p.after_receive(rx.seq);
        law_receive_keeps_balance(p, rx.seq);
        law_finished_when_all_settled(left);
        assert(left.pending.is_empty() <==> p.pending.dom() =~= set![rx.seq]) by {
            if left.pending.is_empty() {
                assert forall|k: u16| p.pending.dom().contains(k) implies k == rx.seq by {
                    if k != rx.seq {
                        assert(left.pending.dom().contains(k));
                    }
                }
                assert(p.pending.dom() =~= set![rx.seq]);
            }
            if p.pending.dom() =~= set![rx.seq] {
                assert(left.pending =~= Map::empty());
            }
        }
    }
}

/// A reply settles the ping that it finds, and no other. One that finds none changes nothing.
pub proof fn law_received_exact(p: Progress, rx: SeqTme)
    ensures
        p.after(Event::Received(rx)).ping_count == p.ping_count,
        p.after(Event::Received(rx)).seq == p.seq,
        p.pending.dom().contains(rx.seq) ==> p.after(Event::Received(rx)).complete == p.complete
            + 1,
        !p.pending.dom().contains(rx.seq) ==> p.after(Event::Received(rx)).complete == p.complete,
        p.after(Event::Received(rx)).pending == p.pending.remove(rx.seq),
{
    assert(p.after(Event::Received(rx)).pending =~= p.pending.remove(rx.seq));
}

/// Which pings are given up: those that have waited for five seconds or more, each of them, and
/// no other. As many pings are settled by it as wait no more.
pub proof fn law_swept_exact(p: Progress, now: u128, k: u16)
    requires
        p.balanced(),
    ensures
        p.after(Event::Swept(now)) == p.after_sweep(now),
        p.after_sweep(now).pending.dom().contains(k) <==> p.pending.dom().contains(k) && now
            < p.pending[k] + 5_000_000_000,
        p.after_sweep(now).pending.dom().contains(k) ==> p.after_sweep(now).pending[k]
            == p.pending[k],
        p.after_sweep(now).complete - p.complete == p.pending.dom().len() - p.after_sweep(
            now,
        ).pending.dom().len(),
        p.after_sweep(now).seq == p.seq,
        p.after_sweep(now).ping_count == p.ping_count,
{
    law_sweep_keeps_balance(p, now);
}

/// The pings to be given up and those that may wait on, in words of their own.
pub proof fn law_expired_and_retained(p: Progress, now: u128, k: u16)
    ensures
        p.expired(now).dom().contains(k) <==> p.pending.dom().contains(k) && now - p.pending[k]
            >= 5_000_000_000,
        p.retained(now).dom().contains(k) <==> p.pending.dom().contains(k) && now - p.pending[k]
            < 5_000_000_000,
{
}

/// An operation ends: once all pings were sent, a sweep finishes it exactly if each ping that
/// still waits was sent five seconds ago or earlier.
pub proof fn law_silence_ends_the_session(p: Progress, now: u128)
    requires
        p.balanced(),
    ensures
        p.after(Event::Swept(now)).finished() <==> p.seq == p.ping_count && forall|k: u16| #[trigger]
            p.pending.dom().contains(k) ==> p.pending[k] + 5_000_000_000 <= now,
{
    let swept = p.after_sweep(now);
    law_sweep_keeps_balance(p, now);
    law_finished_when_all_settled(swept);
    if swept.finished() {
        assert forall|k: u16| #[trigger] p.pending.dom().contains(k) implies p.pending[k]
            + 5_000_000_000 <= now by {
            law_swept_exact(p, now, k);
            assert(!swept.pending.dom().contains(k));
        }
    }
    if p.seq == p.ping_count && forall|k: u16| #[trigger]
        p.pending.dom().contains(k) ==> p.pending[k] + 5_000_000_000 <= now {
        assert forall|k: u16| !swept.pending.dom().contains(k) by {
            law_swept_exact(p, now, k);
        }
        assert(swept.pending =~= Map::empty());
    }
}

/// Nothing but sending, receiving and the clock moves a session: ticks and failures leave it as
/// it is, and so does a ping sent when all were sent already.
pub proof fn law_other_events_change_nothing(p: Progress, reason: String, tx: SeqTme)
    requires
        p.balanced(),
    ensures
        p.after(Event::Tick) == p,
        p.after(Event::ReceiveFailed(reason)) == p,
        p.seq == p.ping_count ==> p.after(Event::Sent(tx)) == p,
{
}

/// Events take effect one after the other, in their order.
pub proof fn law_events_in_order(p: Progress, event: Event, a: Seq<Event>, b: Seq<Event>)
    ensures
        p.after_all(Seq::empty()) == p,
        p.after_all(seq![event]) == p.after(event),
        p.after_all(a + b) == p.after_all(a).after_all(b),
    decreases b.len(),
{
    assert(seq![event].drop_last() == Seq::<Event>::empty());
    assert(p.after_all(Seq::empty()) == p);
    if b.len() == 0 {
        assert(a + b == a);
    } else {
        law_events_in_order(p, event, a, b.drop_last());
        assert((a + b).drop_last() == a + b.drop_last());
        assert((a + b).last() == b.last());
    }
}

} // verus!
