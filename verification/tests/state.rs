use dianemo_rust::state::PeerTable;
use dianemo_rust::types::Peer;

fn ids(mut v: Vec<Peer>) -> Vec<String> {
    v.sort_by(|a, b| a.id.cmp(&b.id));
    v.into_iter().map(|p| p.id).collect()
}

#[test]
fn empty_table() {
    let t = PeerTable::default();
    assert!(t.get("a").is_none());
    assert!(t.snapshot().is_empty());
    assert!(!t.is_paired("a"));
    assert!(t.paired_peers().is_empty());
}

#[test]
fn get_returns_what_upsert_stored() {
    let mut t = PeerTable::default();
    t.upsert(Peer::new("a", "Alice", "1.1.1.1"));
    t.upsert(Peer::new("b", "Bob", "2.2.2.2"));
    assert_eq!(t.get("a"), Some(Peer::new("a", "Alice", "1.1.1.1")));
    assert_eq!(t.get("b"), Some(Peer::new("b", "Bob", "2.2.2.2")));
    assert_eq!(t.get("c"), None);
}

#[test]
fn upsert_replaces_by_id() {
    let mut t = PeerTable::default();
    t.upsert(Peer::new("a", "Alice", "1.1.1.1"));
    t.upsert(Peer::new("b", "Bob", "2.2.2.2"));
    t.upsert(Peer::new("a", "Alice2", "3.3.3.3"));
    assert_eq!(t.get("a"), Some(Peer::new("a", "Alice2", "3.3.3.3")));
    assert_eq!(t.get("b"), Some(Peer::new("b", "Bob", "2.2.2.2")));
    assert_eq!(ids(t.snapshot()), vec!["a".to_string(), "b".to_string()]);
    t.upsert(Peer::new("a", "Alice2", "3.3.3.3"));
    assert_eq!(t.snapshot().len(), 2);
}

#[test]
fn pairing() {
    let mut t = PeerTable::default();
    t.upsert(Peer::new("a", "Alice", "1.1.1.1"));
    t.upsert(Peer::new("b", "Bob", "2.2.2.2"));
    t.mark_paired("b");
    t.mark_paired("b");
    t.mark_paired("ghost");
    assert!(t.is_paired("b"));
    assert!(t.is_paired("ghost"));
    assert!(!t.is_paired("a"));
    assert_eq!(t.paired_peers(), vec![Peer::new("b", "Bob", "2.2.2.2")]);
    t.upsert(Peer::new("ghost", "G", "9.9.9.9"));
    assert_eq!(ids(t.paired_peers()), vec!["b".to_string(), "ghost".to_string()]);
    assert_eq!(t.snapshot().len(), 3);
}
