use bytes::BytesMut;
use dianemo_rust::codec::decoder::decode_dia_value;
use dianemo_rust::codec::encoder::encode_dia_req;
use dianemo_rust::errors::AppError;
use dianemo_rust::types::{DiaReq, Peer, ResStatus};

fn peer() -> Peer {
    Peer::new("1234", "NormandyPeer", "127.0.0.1")
}

fn encoded(v: DiaReq) -> Vec<u8> {
    encode_dia_req(v).unwrap().to_vec()
}

#[test]
fn encodes_each_kind() {
    assert_eq!(
        encoded(DiaReq::announce(peer())),
        b"%I1234\r\nNNormandyPeer\r\nP127.0.0.1\r\n".to_vec()
    );
    assert_eq!(
        encoded(DiaReq::pair_req(peer())),
        b"(I1234\r\nNNormandyPeer\r\nP127.0.0.1\r\n".to_vec()
    );
    assert_eq!(
        encoded(DiaReq::pair_res(peer(), ResStatus::Accept)),
        b")I1234\r\nNNormandyPeer\r\nP127.0.0.1\r\nR+\r\n".to_vec()
    );
    assert_eq!(
        encoded(DiaReq::pair_res(peer(), ResStatus::Reject)),
        b")I1234\r\nNNormandyPeer\r\nP127.0.0.1\r\nR-\r\n".to_vec()
    );
    assert_eq!(
        encoded(DiaReq::file_offer(peer(), "photo.jpg".to_string(), 1024)),
        b"FI1234\r\nNNormandyPeer\r\nP127.0.0.1\r\nLphoto.jpg\r\nS1024\r\n".to_vec()
    );
    assert_eq!(encoded(DiaReq::err("boom".to_string())), b"-boom\r\n".to_vec());
}

#[test]
fn sizes_are_written_in_decimal() {
    assert_eq!(
        encoded(DiaReq::file_offer(Peer::new("", "", ""), "f".to_string(), 0)),
        b"FI\r\nN\r\nP\r\nLf\r\nS0\r\n".to_vec()
    );
    assert_eq!(
        encoded(DiaReq::file_offer(Peer::new("", "", ""), "f".to_string(), u64::MAX)),
        b"FI\r\nN\r\nP\r\nLf\r\nS18446744073709551615\r\n".to_vec()
    );
}

#[test]
fn text_is_written_as_utf8() {
    assert_eq!(
        encoded(DiaReq::announce(Peer::new("\u{e9}", "n", "p"))),
        "%I\u{e9}\r\nNn\r\nPp\r\n".as_bytes().to_vec()
    );
}

#[test]
fn to_bytes_matches_encode() {
    let v = DiaReq::pair_res(peer(), ResStatus::Accept);
    assert_eq!(v.to_bytes().unwrap().to_vec(), encoded(v.clone()));
}

fn roundtrip(v: DiaReq) {
    let bytes = encode_dia_req(v.clone()).unwrap();
    let mut b = BytesMut::from(&bytes[..]);
    assert_eq!(decode_dia_value(&mut b).unwrap(), v);
}

#[test]
fn decode_gives_back_what_encode_wrote() {
    roundtrip(DiaReq::announce(peer()));
    roundtrip(DiaReq::pair_req(Peer::new("a\rb", "\n", "")));
    roundtrip(DiaReq::pair_res(peer(), ResStatus::Reject));
    roundtrip(DiaReq::pair_res(peer(), ResStatus::Accept));
    roundtrip(DiaReq::file_offer(peer(), "r\u{e9}sum\u{e9}.pdf".to_string(), 987654321));
    roundtrip(DiaReq::file_offer(peer(), String::new(), u64::MAX));
}

#[test]
fn line_breaks_in_fields_do_not_survive() {
    let v = DiaReq::announce(Peer::new("a\r\nNb", "n", "p"));
    let bytes = encode_dia_req(v.clone()).unwrap();
    let mut b = BytesMut::from(&bytes[..]);
    match decode_dia_value(&mut b) {
        Err(AppError::InvalidDianemoValue(m)) => assert_eq!(m, "expected ip"),
        other => panic!("unexpected {:?}", other),
    }
}

#[test]
fn error_reports_do_not_decode() {
    let bytes = encode_dia_req(DiaReq::err("bad".to_string())).unwrap();
    let mut b = BytesMut::from(&bytes[..]);
    match decode_dia_value(&mut b) {
        Err(AppError::InvalidDianemoValue(m)) => assert_eq!(m, "unknown dia type: 45"),
        other => panic!("unexpected {:?}", other),
    }
}
