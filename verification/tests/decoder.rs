use bytes::BytesMut;
use dianemo_rust::codec::decoder::decode_anounce;
use dianemo_rust::codec::decoder::decode_dia_value;
use dianemo_rust::codec::decoder::decode_file_offer;
use dianemo_rust::codec::decoder::decode_peer_request;
use dianemo_rust::codec::decoder::decode_peer_response;
use dianemo_rust::errors::AppError;
use dianemo_rust::types::{DiaReq, Peer, ResStatus};

fn buf(s: &str) -> BytesMut {
    BytesMut::from(s.as_bytes())
}

fn invalid_message(r: Result<DiaReq, AppError>) -> String {
    match r {
        Err(AppError::InvalidDianemoValue(m)) => m,
        other => panic!("expected an invalid value error, got {:?}", other),
    }
}

#[test]
fn decodes_announce_request() {
    let value = decode_dia_value(&mut buf("%I1234\r\nNNormandyPeer\r\nP127.0.0.1\r\n")).unwrap();

    assert_eq!(
        value,
        DiaReq::Announce(Peer::new("1234", "NormandyPeer", "127.0.0.1"))
    )
}

#[test]
fn decodes_peer_request() {
    let value = decode_dia_value(&mut buf("(I1234\r\nNNormandyPeer\r\nP127.0.0.1\r\n")).unwrap();

    assert_eq!(
        value,
        DiaReq::PairReq(Peer::new("1234", "NormandyPeer", "127.0.0.1"))
    )
}

#[test]
fn decodes_accept_peer_response() {
    let value =
        decode_dia_value(&mut buf(")I1234\r\nNNormandyPeer\r\nP127.0.0.1\r\nR+\r\n")).unwrap();

    assert_eq!(
        value,
        DiaReq::PairRes(
            Peer::new("1234", "NormandyPeer", "127.0.0.1"),
            ResStatus::Accept
        )
    )
}

#[test]
fn decodes_reject_peer_response() {
    let value =
        decode_dia_value(&mut buf(")I1234\r\nNNormandyPeer\r\nP127.0.0.1\r\nR-\r\n")).unwrap();

    assert_eq!(
        value,
        DiaReq::PairRes(
            Peer::new("1234", "NormandyPeer", "127.0.0.1"),
            ResStatus::Reject
        )
    )
}

#[test]
fn decodes_file_offer() {
    let value = decode_dia_value(&mut buf(
        "FI1234\r\nNNormandyPeer\r\nP127.0.0.1\r\nLphoto.jpg\r\nS1024\r\n",
    ))
    .unwrap();

    assert_eq!(
        value,
        DiaReq::FileOffer(
            Peer::new("1234", "NormandyPeer", "127.0.0.1"),
            "photo.jpg".into(),
            1024
        )
    )
}

#[test]
fn empty_buffer_is_incomplete() {
    let mut b = buf("");
    assert!(matches!(decode_dia_value(&mut b), Err(AppError::Incomplete)));
    assert!(b.is_empty());
}

#[test]
fn decoding_consumes_the_kind_byte() {
    let mut b = buf("%I1\r\nNa\r\nPb\r\n");
    decode_dia_value(&mut b).unwrap();
    assert_eq!(&b[..], b"I1\r\nNa\r\nPb\r\n");
}

#[test]
fn body_decoders_leave_the_buffer_alone() {
    let mut b = buf("I1\r\nNa\r\nPb\r\n");
    let v = decode_anounce(&mut b).unwrap();
    assert_eq!(v, DiaReq::Announce(Peer::new("1", "a", "b")));
    assert_eq!(&b[..], b"I1\r\nNa\r\nPb\r\n");
    let v = decode_peer_request(&mut b).unwrap();
    assert_eq!(v, DiaReq::PairReq(Peer::new("1", "a", "b")));
    assert_eq!(&b[..], b"I1\r\nNa\r\nPb\r\n");
}

#[test]
fn unknown_kind_is_reported_with_its_byte_value() {
    let mut b = buf("-oops\r\n");
    assert_eq!(invalid_message(decode_dia_value(&mut b)), "unknown dia type: 45");
    assert_eq!(invalid_message(decode_dia_value(&mut buf("X"))), "unknown dia type: 88");
    let mut raw = BytesMut::from(&[7u8, 1, 2][..]);
    assert_eq!(invalid_message(decode_dia_value(&mut raw)), "unknown dia type: 7");
    assert_eq!(&raw[..], &[1u8, 2][..]);
}

#[test]
fn invalid_utf8_is_rejected() {
    let mut b = BytesMut::from(&[b'%', b'I', 0xff, b'\r', b'\n'][..]);
    assert_eq!(invalid_message(decode_dia_value(&mut b)), "invalid ut8");
    let mut b = BytesMut::from(&b"%I1\r\nNa\r\nPb\r\n\xc3"[..]);
    assert_eq!(invalid_message(decode_dia_value(&mut b)), "invalid ut8");
}

#[test]
fn non_ascii_fields_are_kept() {
    let v = decode_dia_value(&mut buf("%I\u{e9}t\u{e9}\r\nN\u{9ed1}\u{98ce}\r\nP::1\r\n")).unwrap();
    assert_eq!(v, DiaReq::Announce(Peer::new("\u{e9}t\u{e9}", "\u{9ed1}\u{98ce}", "::1")));
}

#[test]
fn missing_peer_fields_are_reported_in_order() {
    assert_eq!(invalid_message(decode_dia_value(&mut buf("%"))), "expectedid");
    assert_eq!(invalid_message(decode_dia_value(&mut buf("%X1\r\n"))), "expectedid");
    assert_eq!(invalid_message(decode_dia_value(&mut buf("%I1"))), "expected name");
    assert_eq!(invalid_message(decode_dia_value(&mut buf("%I1\r\nXa\r\n"))), "expected name");
    assert_eq!(invalid_message(decode_dia_value(&mut buf("%I1\r\nNa"))), "expected ip");
    assert_eq!(invalid_message(decode_dia_value(&mut buf("%I1\r\nNa\r\n"))), "expected ip");
}

#[test]
fn peer_fields_may_be_empty_and_last_line_unterminated() {
    let v = decode_dia_value(&mut buf("(I\r\nN\r\nP")).unwrap();
    assert_eq!(v, DiaReq::PairReq(Peer::new("", "", "")));
}

#[test]
fn only_the_first_character_is_the_tag() {
    let v = decode_dia_value(&mut buf("%IIN\r\nNNN\r\nPPI\r\nextra\r\n")).unwrap();
    assert_eq!(v, DiaReq::Announce(Peer::new("IN", "NN", "PI")));
}

#[test]
fn lone_carriage_returns_stay_in_fields() {
    let v = decode_dia_value(&mut buf("%Ia\rb\r\r\nNc\nd\r\nP\n\r\n")).unwrap();
    assert_eq!(v, DiaReq::Announce(Peer::new("a\rb\r", "c\nd", "\n")));
}

#[test]
fn peer_response_status_errors() {
    let base = ")I1\r\nNa\r\nPb\r\n";
    assert_eq!(invalid_message(decode_dia_value(&mut buf(base))), "expected status");
    assert_eq!(
        invalid_message(decode_dia_value(&mut buf(")I1\r\nNa\r\nPb"))),
        "expected status"
    );
    assert_eq!(
        invalid_message(decode_dia_value(&mut buf(&format!("{base}X+\r\n")))),
        "expected status"
    );
    assert_eq!(
        invalid_message(decode_dia_value(&mut buf(&format!("{base}R++\r\n")))),
        "bad status"
    );
    assert_eq!(
        invalid_message(decode_dia_value(&mut buf(&format!("{base}Ryes\r\n")))),
        "bad status"
    );
    let mut b = buf("I1\r\nNa\r\nPb\r\nR-");
    assert_eq!(
        decode_peer_response(&mut b).unwrap(),
        DiaReq::PairRes(Peer::new("1", "a", "b"), ResStatus::Reject)
    );
}

#[test]
fn file_offer_errors() {
    let base = "FI1\r\nNa\r\nPb\r\n";
    assert_eq!(invalid_message(decode_dia_value(&mut buf(base))), "expected file name");
    assert_eq!(
        invalid_message(decode_dia_value(&mut buf("FI1\r\nNa\r\nPb"))),
        "expected file name"
    );
    assert_eq!(
        invalid_message(decode_dia_value(&mut buf(&format!("{base}Xf\r\n")))),
        "expected file name"
    );
    assert_eq!(
        invalid_message(decode_dia_value(&mut buf(&format!("{base}Lf")))),
        "expected file size"
    );
    assert_eq!(
        invalid_message(decode_dia_value(&mut buf(&format!("{base}Lf\r\nX1\r\n")))),
        "expected file size"
    );
    for bad in ["S", "S-1", "S12a", "S 1", "S+", "S18446744073709551616", "S1_000"] {
        assert_eq!(
            invalid_message(decode_dia_value(&mut buf(&format!("{base}Lf\r\n{bad}\r\n")))),
            "bad file size",
            "{bad}"
        );
    }
}

#[test]
fn file_sizes_parse_like_u64() {
    let cases = [
        ("S0", 0u64),
        ("S+7", 7),
        ("S007", 7),
        ("S18446744073709551615", u64::MAX),
    ];
    for (text, n) in cases {
        let mut b = buf(&format!("I1\r\nNa\r\nPb\r\nLf\r\n{text}"));
        assert_eq!(
            decode_file_offer(&mut b).unwrap(),
            DiaReq::FileOffer(Peer::new("1", "a", "b"), "f".to_string(), n)
        );
    }
}
