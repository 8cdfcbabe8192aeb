use bytes::BytesMut;
use dianemo_rust::errors::AppError;
use dianemo_rust::node::{
    absorb_datagram, console_step, on_connection_frame, pairing_answer, read_pair_reply,
    ConnectionAction, ConsoleAction, ConsoleEvent, ConsoleState, PairReply,
};
use dianemo_rust::number::{parse_u64, parse_usize};
use dianemo_rust::state::PeerTable;
use dianemo_rust::text::trim;
use dianemo_rust::types::{DiaReq, Peer, ResStatus};

fn buf(s: &str) -> BytesMut {
    BytesMut::from(s.as_bytes())
}

fn line(s: &str) -> ConsoleEvent {
    ConsoleEvent::Line(s.to_string())
}

#[test]
fn datagrams_from_others_are_recorded() {
    let mut t = PeerTable::default();
    assert!(absorb_datagram(&mut t, "me", &mut buf("%Ia\r\nNAlice\r\nP1.1.1.1:9\r\n")).is_none());
    assert_eq!(t.get("a"), Some(Peer::new("a", "Alice", "1.1.1.1:9")));
    assert!(absorb_datagram(&mut t, "me", &mut buf("%Ime\r\nNSelf\r\nP2.2.2.2:9\r\n")).is_none());
    assert_eq!(t.get("me"), None);
    assert!(absorb_datagram(&mut t, "me", &mut buf("(Ib\r\nNBob\r\nP3\r\n")).is_none());
    assert_eq!(t.get("b"), None);
    match absorb_datagram(&mut t, "me", &mut buf("%Ib\r\n")) {
        Some(AppError::InvalidDianemoValue(m)) => assert_eq!(m, "expected name"),
        other => panic!("unexpected {:?}", other),
    }
    assert!(matches!(absorb_datagram(&mut t, "me", &mut buf("")), Some(AppError::Incomplete)));
    assert_eq!(t.snapshot().len(), 1);
}

#[test]
fn connection_frames() {
    match on_connection_frame(&mut buf("(I1\r\nNBob\r\nP2\r\n")) {
        ConnectionAction::AskConsole(name) => assert_eq!(name, "Bob"),
        other => panic!("unexpected {:?}", other),
    }
    match on_connection_frame(&mut buf("%I1\r\nNBob\r\nP2\r\n")) {
        ConnectionAction::Show(m) => assert_eq!(m, DiaReq::Announce(Peer::new("1", "Bob", "2"))),
        other => panic!("unexpected {:?}", other),
    }
    match on_connection_frame(&mut buf("?")) {
        ConnectionAction::Report(AppError::InvalidDianemoValue(m)) => {
            assert_eq!(m, "unknown dia type: 63")
        }
        other => panic!("unexpected {:?}", other),
    }
}

#[test]
fn pairing_answers() {
    let me = Peer::new("1", "Me", "10.0.0.1:5");
    assert_eq!(
        pairing_answer(&me, true).unwrap().to_vec(),
        b")I1\r\nNMe\r\nP10.0.0.1:5\r\nR+\r\n".to_vec()
    );
    assert_eq!(
        pairing_answer(&me, false).unwrap().to_vec(),
        b")I1\r\nNMe\r\nP10.0.0.1:5\r\nR-\r\n".to_vec()
    );
}

#[test]
fn pairing_replies() {
    match read_pair_reply(&mut buf(")I1\r\nNBob\r\nP2\r\nR+\r\n")) {
        PairReply::Answered(name, s) => {
            assert_eq!(name, "Bob");
            assert_eq!(s, ResStatus::Accept);
        }
        other => panic!("unexpected {:?}", other),
    }
    match read_pair_reply(&mut buf("(I1\r\nNBob\r\nP2\r\n")) {
        PairReply::Unexpected(Ok(m)) => assert_eq!(m, DiaReq::PairReq(Peer::new("1", "Bob", "2"))),
        other => panic!("unexpected {:?}", other),
    }
    assert!(matches!(
        read_pair_reply(&mut buf("")),
        PairReply::Unexpected(Err(AppError::Incomplete))
    ));
}

#[test]
fn console_lists_then_pairs() {
    let mut t = PeerTable::default();
    let mut st = ConsoleState::new();
    assert!(matches!(console_step(&mut st, line("\n"), &t), ConsoleAction::NoPeers));
    assert!(st.choices.is_none());
    t.upsert(Peer::new("a", "Alice", "1.1.1.1:9"));
    let listed = match console_step(&mut st, line("\n"), &t) {
        ConsoleAction::ListPeers(l) => l,
        other => panic!("unexpected {:?}", other),
    };
    assert_eq!(listed, vec![Peer::new("a", "Alice", "1.1.1.1:9")]);
    assert_eq!(st.choices, Some(listed.clone()));
    match console_step(&mut st, line(" 0 \n"), &t) {
        ConsoleAction::PairWith(p) => assert_eq!(p, listed[0]),
        other => panic!("unexpected {:?}", other),
    }
    assert!(st.choices.is_none());
}

#[test]
fn console_rejects_bad_choices() {
    let mut t = PeerTable::default();
    t.upsert(Peer::new("a", "Alice", "1"));
    let mut st = ConsoleState::new();
    for bad in ["1", "x", "-0", "", "99999999999999999999999"] {
        assert!(matches!(console_step(&mut st, line(""), &t), ConsoleAction::ListPeers(_)));
        assert!(
            matches!(console_step(&mut st, line(bad), &t), ConsoleAction::InvalidChoice),
            "{bad}"
        );
        assert!(st.choices.is_none());
    }
}

#[test]
fn console_picks_files_without_losing_the_list() {
    let mut t = PeerTable::default();
    t.upsert(Peer::new("a", "Alice", "1"));
    let mut st = ConsoleState::new();
    assert!(matches!(console_step(&mut st, line("f"), &t), ConsoleAction::PickFile));
    assert!(matches!(console_step(&mut st, line(""), &t), ConsoleAction::ListPeers(_)));
    assert!(matches!(console_step(&mut st, line("  f\t\n"), &t), ConsoleAction::PickFile));
    assert!(st.choices.is_some());
    assert!(matches!(console_step(&mut st, line("+0"), &t), ConsoleAction::PairWith(_)));
}

#[test]
fn console_answers_pairing_questions_first() {
    let t = PeerTable::default();
    let mut st = ConsoleState::new();
    match console_step(&mut st, ConsoleEvent::PairRequest("Bob".to_string()), &t) {
        ConsoleAction::AskPairing(n) => assert_eq!(n, "Bob"),
        other => panic!("unexpected {:?}", other),
    }
    assert!(st.confirm_pending);
    assert!(matches!(console_step(&mut st, line(" Y\n"), &t), ConsoleAction::AnswerPairing(true)));
    assert!(!st.confirm_pending);
    console_step(&mut st, ConsoleEvent::PairRequest("Bob".to_string()), &t);
    assert!(matches!(console_step(&mut st, line("f"), &t), ConsoleAction::AnswerPairing(false)));
    console_step(&mut st, ConsoleEvent::PairRequest("Bob".to_string()), &t);
    assert!(matches!(console_step(&mut st, line("yes"), &t), ConsoleAction::AnswerPairing(false)));
}

#[test]
fn trimming_matches_str_trim() {
    for s in ["", "  ", " a ", "\t\u{a0}x y\u{3000}\r\n", "abc", "\u{2028}", "\u{200b}z"] {
        assert_eq!(trim(s), s.trim(), "{s:?}");
    }
}

#[test]
fn numbers_parse_like_std() {
    for s in ["0", "+0", "42", "007", "", "+", "-1", " 1", "1 ", "18446744073709551615", "18446744073709551616", "\u{661}"] {
        assert_eq!(parse_u64(s), s.parse::<u64>().ok(), "{s:?}");
        assert_eq!(parse_usize(s), s.parse::<usize>().ok(), "{s:?}");
    }
}
