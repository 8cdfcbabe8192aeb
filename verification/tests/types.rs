use dianemo_rust::config::AppSettings;
use dianemo_rust::types::{DiaReq, Peer, ResStatus};

fn peer() -> Peer {
    Peer::new("1234", "Normandy", "10.0.0.2:4000")
}

#[test]
fn peer_new_keeps_fields() {
    let p = peer();
    assert_eq!(p.id, "1234");
    assert_eq!(p.name, "Normandy");
    assert_eq!(p.ip, "10.0.0.2:4000");
    assert_eq!(p.copied(), p);
}

#[test]
fn constructors_build_each_kind() {
    assert_eq!(DiaReq::announce(peer()), DiaReq::Announce(peer()));
    assert_eq!(DiaReq::pair_req(peer()), DiaReq::PairReq(peer()));
    assert_eq!(
        DiaReq::pair_res(peer(), ResStatus::Reject),
        DiaReq::PairRes(peer(), ResStatus::Reject)
    );
    assert_eq!(
        DiaReq::file_offer(peer(), "a.txt".to_string(), 3),
        DiaReq::FileOffer(peer(), "a.txt".to_string(), 3)
    );
    assert_eq!(DiaReq::err("x".to_string()), DiaReq::Error("x".to_string()));
    let v = DiaReq::file_offer(peer(), "a.txt".to_string(), 3);
    assert_eq!(v.copied(), v);
}

#[test]
fn messages_read_as_shown_to_the_user() {
    assert_eq!(
        DiaReq::announce(peer()).to_string(),
        "Id: 1234 |  Name: Normandy | Ip: 10.0.0.2:4000"
    );
    assert_eq!(
        DiaReq::pair_req(peer()).to_string(),
        "Id: 1234 | Name: Normandy | Ip: 10.0.0.2:4000 | Peer Req"
    );
    assert_eq!(
        DiaReq::pair_res(peer(), ResStatus::Accept).to_string(),
        "Id: 1234 | Name: Normandy | Ip : 10.0.0.2:4000 | Peer Resp : Accept"
    );
    assert_eq!(
        DiaReq::pair_res(peer(), ResStatus::Reject).to_string(),
        "Id: 1234 | Name: Normandy | Ip : 10.0.0.2:4000 | Peer Resp : Reject"
    );
    assert_eq!(DiaReq::err("oops".to_string()).to_string(), "(error) oops");
    assert_eq!(
        DiaReq::file_offer(peer(), "photo.jpg".to_string(), 1024).to_string(),
        "Id: 1234 | Name: Normandy | File: photo.jpg (1024 bytes)"
    );
}

#[test]
fn default_settings() {
    let s = AppSettings::default();
    assert_eq!(s.discovery_port, 7766);
    assert_eq!(s.discovery_announce_interval_secs, 10);
}
