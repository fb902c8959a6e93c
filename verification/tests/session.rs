use ping::address::Ipv4Addr;
use ping::config::Cfg;
use ping::operation::{step, Action};
use ping::packet::SeqTme;
use ping::report::{failure_line, missing_line, reply_line};
use ping::session::{Event, Reply, Session, PING_TIMEOUT};

const SECOND: u128 = 1_000_000_000;

fn three_pings() -> Cfg {
    Cfg {
        ipv4_adr: Ipv4Addr { a: 1, b: 1, c: 1, d: 1 },
        ping_count: 3,
        interval_ms: 1000,
    }
}

fn reply(seq: u16, tme: u128) -> SeqTme {
    SeqTme { seq, tme }
}

/// A session whose `n` pings were all sent, ping `k` at `k` seconds.
fn all_sent(n: u16) -> Session {
    let mut session = Session::new(n);
    for k in 1..=n {
        assert_eq!(session.next_ping(), Some(k));
        session.record_sent(k as u128 * SECOND);
    }
    assert_eq!(session.next_ping(), None);
    session
}

#[test]
fn timeout_is_five_seconds() {
    assert_eq!(PING_TIMEOUT, 5 * SECOND);
}

#[test]
fn pings_are_numbered_from_one() {
    all_sent(0);
    all_sent(1);
    all_sent(10);
}

#[test]
fn last_number_of_all() {
    let mut session = all_sent(u16::MAX);
    assert_eq!(
        session.receive(reply(u16::MAX, u16::MAX as u128 * SECOND + 1_500)),
        Reply::Matched { micros: 1, finished: false }
    );
}

#[test]
fn session_without_pings_is_finished() {
    assert!(Session::new(0).sweep(0));
}

#[test]
fn replies_in_order() {
    let mut session = all_sent(3);
    assert!(!session.sweep(3 * SECOND));
    assert_eq!(
        session.receive(reply(1, SECOND + 2_000)),
        Reply::Matched { micros: 2, finished: false }
    );
    assert_eq!(
        session.receive(reply(2, 2 * SECOND + 999)),
        Reply::Matched { micros: 0, finished: false }
    );
    assert_eq!(
        session.receive(reply(3, 4 * SECOND)),
        Reply::Matched { micros: 1_000_000, finished: true }
    );
    assert!(session.sweep(4 * SECOND));
}

#[test]
fn replies_out_of_order() {
    let mut session = all_sent(3);
    assert_eq!(
        session.receive(reply(3, 3 * SECOND + 5_000)),
        Reply::Matched { micros: 5, finished: false }
    );
    assert_eq!(
        session.receive(reply(1, 3 * SECOND + 5_000)),
        Reply::Matched { micros: 2_000_005, finished: false }
    );
    assert_eq!(
        session.receive(reply(2, 3 * SECOND + 5_000)),
        Reply::Matched { micros: 1_000_005, finished: true }
    );
}

#[test]
fn reply_before_all_pings_are_sent() {
    let mut session = Session::new(2);
    session.record_sent(10);
    assert_eq!(
        session.receive(reply(1, 1_010)),
        Reply::Matched { micros: 1, finished: false }
    );
    assert!(!session.sweep(100 * SECOND));
    assert_eq!(session.next_ping(), Some(2));
    session.record_sent(2_000);
    assert_eq!(
        session.receive(reply(2, 4_000)),
        Reply::Matched { micros: 2, finished: true }
    );
}

#[test]
fn second_reply_is_missing() {
    let mut session = all_sent(2);
    session.receive(reply(1, 2 * SECOND));
    assert_eq!(session.receive(reply(1, 2 * SECOND)), Reply::Missing);
    assert_eq!(
        session.receive(reply(2, 2 * SECOND)),
        Reply::Matched { micros: 0, finished: true }
    );
}

#[test]
fn unknown_reply_is_missing() {
    let mut session = all_sent(2);
    assert_eq!(session.receive(reply(0, 2 * SECOND)), Reply::Missing);
    assert_eq!(session.receive(reply(3, 2 * SECOND)), Reply::Missing);
    assert_eq!(Session::new(2).receive(reply(1, 0)), Reply::Missing);
}

#[test]
fn clock_that_runs_back_measures_nothing() {
    let mut session = Session::new(1);
    session.record_sent(10_000);
    assert_eq!(
        session.receive(reply(1, 9_000)),
        Reply::Matched { micros: 0, finished: true }
    );
}

#[test]
fn ping_times_out_after_five_seconds() {
    let mut session = Session::new(1);
    session.record_sent(SECOND);
    assert!(!session.sweep(0));
    assert!(!session.sweep(6 * SECOND - 1));
    assert!(session.sweep(6 * SECOND));
    assert_eq!(session.receive(reply(1, 6 * SECOND)), Reply::Missing);
}

#[test]
fn times_at_the_end_of_the_clock() {
    let mut session = Session::new(1);
    session.record_sent(u128::MAX);
    assert!(!session.sweep(u128::MAX));
}

#[test]
fn timeouts_and_replies_together() {
    let mut session = all_sent(3);
    session.receive(reply(2, 2 * SECOND));
    // Ping 1 is given up.
    assert!(!session.sweep(6 * SECOND));
    assert!(!session.sweep(6 * SECOND));
    // Ping 3 as well.
    assert!(session.sweep(8 * SECOND));
    assert_eq!(session.next_ping(), None);
}

#[test]
fn later_sweep_covers_earlier_ones() {
    let mut session = all_sent(3);
    assert!(session.sweep(8 * SECOND));
    let mut session = all_sent(3);
    assert!(!session.sweep(6 * SECOND));
    assert!(!session.sweep(7 * SECOND));
    assert!(session.sweep(8 * SECOND));
}

#[test]
fn lines() {
    let adr = Ipv4Addr { a: 192, b: 0, c: 2, d: 255 };
    assert_eq!(reply_line(adr, 10, 12_345), "192.0.2.255, 10, 12345us");
    assert_eq!(missing_line(7), "socket.recv_ping: missing seq: '7' in map");
    assert_eq!(failure_line("broken"), "socket.recv_ping: res_rx: broken");
}

#[test]
fn whole_operation() {
    let cfg = three_pings();
    let mut session = Session::new(cfg.ping_count);
    for seq in 1u16..=3 {
        assert_eq!(step(&cfg, &mut session, Event::Tick), Action::Send { seq });
        let sent = Event::Sent(reply(seq, seq as u128 * SECOND));
        assert_eq!(step(&cfg, &mut session, sent), Action::Wait);
        let swept = Event::Swept(seq as u128 * SECOND);
        assert_eq!(step(&cfg, &mut session, swept), Action::Wait);
    }
    assert_eq!(step(&cfg, &mut session, Event::Tick), Action::Wait);
    assert_eq!(
        step(&cfg, &mut session, Event::Received(reply(2, 2 * SECOND + 14_000))),
        Action::Print { line: "1.1.1.1, 2, 14us".to_string(), last: false }
    );
    assert_eq!(step(&cfg, &mut session, Event::Swept(6 * SECOND)), Action::Wait);
    assert_eq!(
        step(&cfg, &mut session, Event::Received(reply(3, 6 * SECOND))),
        Action::Print { line: "1.1.1.1, 3, 3000000us".to_string(), last: true }
    );
    assert_eq!(step(&cfg, &mut session, Event::Swept(6 * SECOND)), Action::Finish);
    assert_eq!(step(&cfg, &mut session, Event::Tick), Action::Wait);
    assert_eq!(step(&cfg, &mut session, Event::Swept(9 * SECOND)), Action::Finish);
}

#[test]
fn operation_ends_by_timeout() {
    let cfg = Cfg { ping_count: 1, ..three_pings() };
    let mut session = Session::new(cfg.ping_count);
    assert_eq!(step(&cfg, &mut session, Event::Tick), Action::Send { seq: 1 });
    step(&cfg, &mut session, Event::Sent(reply(1, 0)));
    assert_eq!(step(&cfg, &mut session, Event::Swept(5 * SECOND - 1)), Action::Wait);
    assert_eq!(step(&cfg, &mut session, Event::Swept(5 * SECOND)), Action::Finish);
}

#[test]
fn operation_fails() {
    let cfg = three_pings();
    let mut session = Session::new(cfg.ping_count);
    assert_eq!(
        step(&cfg, &mut session, Event::Received(reply(9, 0))),
        Action::Fail { line: "socket.recv_ping: missing seq: '9' in map".to_string() }
    );
    assert_eq!(
        step(&cfg, &mut session, Event::ReceiveFailed("no buffer".to_string())),
        Action::Fail { line: "socket.recv_ping: res_rx: no buffer".to_string() }
    );
}
