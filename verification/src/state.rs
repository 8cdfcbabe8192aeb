//! The table of discovered and paired peers.
use vstd::prelude::*;

use crate::types::Peer;
use crate::types::PeerView;

verus! {

/// What a peer table holds: the known peers by id, and the ids of paired peers.
pub struct PeerTableView {
    pub peers: Map<Seq<char>, PeerView>,
    pub paired: Set<Seq<char>>,
}

/// No two entries share an id.
pub open spec fn ids_distinct(s: Seq<PeerView>) -> bool {
    forall|i: int, j: int| 0 <= i < s.len() && 0 <= j < s.len() && i != j ==> #[trigger] s[i].id
        != #[trigger] s[j].id
}

/// The peers of a list, by id.
pub open spec fn map_of(s: Seq<PeerView>) -> Map<Seq<char>, PeerView> {
    Map::new(
        |k: Seq<char>| exists|i: int| 0 <= i < s.len() && #[trigger] s[i].id == k,
        |k: Seq<char>| s[choose|i: int| 0 <= i < s.len() && #[trigger] s[i].id == k],
    )
}

/// `list` holds each peer of `m` exactly once.
pub open spec fn lists_exactly(list: Seq<PeerView>, m: Map<Seq<char>, PeerView>) -> bool {
    &&& ids_distinct(list)
    &&& forall|i: int| 0 <= i < list.len() ==> #[trigger] m.get(list[i].id) == Some(list[i])
    &&& forall|k: Seq<char>| #[trigger] m.contains_key(k) ==> exists|i: int|
        0 <= i < list.len() && #[trigger] list[i].id == k
}

/// The table after a peer is added, or replaces the peer with its id.
pub open spec fn spec_upsert(t: PeerTableView, p: PeerView) -> PeerTableView {
    PeerTableView { peers: t.peers.insert(p.id, p), paired: t.paired }
}

/// The table after the peer with id `id` is marked as paired.
pub open spec fn spec_mark_paired(t: PeerTableView, id: Seq<char>) -> PeerTableView {
    PeerTableView { peers: t.peers, paired: t.paired.insert(id) }
}

/// The known peers that are paired.
pub open spec fn spec_paired_peers(t: PeerTableView) -> Map<Seq<char>, PeerView> {
    t.peers.restrict(t.paired)
}

proof fn lemma_map_of_at(s: Seq<PeerView>, i: int)
    requires
        ids_distinct(s),
        0 <= i < s.len(),
    ensures
        map_of(s).contains_key(s[i].id),
        map_of(s)[s[i].id] == s[i],
{
    let k = s[i].id;
    assert(exists|j: int| 0 <= j < s.len() && #[trigger] s[j].id == k);
    let j = choose|j: int| 0 <= j < s.len() && #[trigger] s[j].id == k;
    if j != i {
        assert(s[i].id != s[j].id);
    }
}

proof fn lemma_map_of_update(s: Seq<PeerView>, i: int, p: PeerView)
    requires
        ids_distinct(s),
        0 <= i < s.len(),
        s[i].id == p.id,
    ensures
        ids_distinct(s.update(i, p)),
        map_of(s.update(i, p)) == map_of(s).insert(p.id, p),
{
    let t = s.update(i, p);
    assert(ids_distinct(t)) by {
        assert forall|a: int, b: int|
            0 <= a < t.len() && 0 <= b < t.len() && a != b implies #[trigger] t[a].id
            != #[trigger] t[b].id by {
            assert(s[a].id != s[b].id);
        }
    }
    let m = map_of(s).insert(p.id, p);
    assert forall|k: Seq<char>| #[trigger] map_of(t).contains_key(k) <==> m.contains_key(k) by {
        if map_of(t).contains_key(k) {
            let j = choose|j: int| 0 <= j < t.len() && #[trigger] t[j].id == k;
            if j != i {
                lemma_map_of_at(s, j);
            }
        }
        if map_of(s).contains_key(k) {
            let j = choose|j: int| 0 <= j < s.len() && #[trigger] s[j].id == k;
            lemma_map_of_at(t, j);
        }
        if k == p.id {
            lemma_map_of_at(t, i);
        }
    }
    assert forall|k: Seq<char>| #[trigger] map_of(t).contains_key(k) implies map_of(t)[k]
        == m[k] by {
        let j = choose|j: int| 0 <= j < t.len() && #[trigger] t[j].id == k;
        lemma_map_of_at(t, j);
        if j != i {
            lemma_map_of_at(s, j);
        }
    }
    assert(map_of(t) =~= m);
}

proof fn lemma_map_of_push(s: Seq<PeerView>, p: PeerView)
    requires
        ids_distinct(s),
        forall|j: int| 0 <= j < s.len() ==> #[trigger] s[j].id != p.id,
    ensures
        ids_distinct(s.push(p)),
        map_of(s.push(p)) == map_of(s).insert(p.id, p),
{
    let t = s.push(p);
    let n = s.len() as int;
    assert(ids_distinct(t)) by {
        assert forall|a: int, b: int|
            0 <= a < t.len() && 0 <= b < t.len() && a != b implies #[trigger] t[a].id
            != #[trigger] t[b].id by {
            if a < n && b < n {
                assert(s[a].id != s[b].id);
            } else if a < n {
                assert(s[a].id != p.id);
            } else {
                assert(s[b].id != p.id);
            }
        }
    }
    let m = map_of(s).insert(p.id, p);
    assert forall|k: Seq<char>| #[trigger] map_of(t).contains_key(k) <==> m.contains_key(k) by {
        if map_of(t).contains_key(k) {
            let j = choose|j: int| 0 <= j < t.len() && #[trigger] t[j].id == k;
            if j != n {
                lemma_map_of_at(s, j);
            }
        }
        if map_of(s).contains_key(k) {
            let j = choose|j: int| 0 <= j < s.len() && #[trigger] s[j].id == k;
            lemma_map_of_at(t, j);
        }
        if k == p.id {
            lemma_map_of_at(t, n);
        }
    }
    assert forall|k: Seq<char>| #[trigger] map_of(t).contains_key(k) implies map_of(t)[k]
        == m[k] by {
        let j = choose|j: int| 0 <= j < t.len() && #[trigger] t[j].id == k;
        lemma_map_of_at(t, j);
        if j != n {
            lemma_map_of_at(s, j);
        }
    }
    assert(map_of(t) =~= m);
}

/// The views of a list of peers.
pub open spec fn views_of(v: Seq<Peer>) -> Seq<PeerView> {
    v.map_values(|p: Peer| p@)
}

/// The views of a list of strings.
pub open spec fn texts_of(v: Seq<String>) -> Seq<Seq<char>> {
    v.map_values(|s: String| s@)
}

pub proof fn lemma_views_push(v: Seq<Peer>, p: Peer)
    ensures
        views_of(v.push(p)) == views_of(v).push(p@),
{
    assert(views_of(v.push(p)) =~= views_of(v).push(p@));
}

proof fn lemma_views_update(v: Seq<Peer>, i: int, p: Peer)
    requires
        0 <= i < v.len(),
    ensures
        views_of(v.update(i, p)) == views_of(v).update(i, p@),
{
    assert(views_of(v.update(i, p)) =~= views_of(v).update(i, p@));
}

/// The known peers and the ids of those paired with this node.
pub struct PeerTable {
    peers: Vec<Peer>,
    paired: Vec<String>,
}

impl PeerTable {
    /// The views of the stored peers, in storage order.
    closed spec fn entries(&self) -> Seq<PeerView> {
        views_of(self.peers@)
    }

    /// The stored ids of paired peers.
    closed spec fn paired_ids(&self) -> Seq<Seq<char>> {
        texts_of(self.paired@)
    }

    /// Each peer id is stored once, and each paired id is stored once.
    #[verifier::type_invariant]
    closed spec fn wf(&self) -> bool {
        &&& ids_distinct(self.entries())
        &&& self.paired_ids().no_duplicates()
    }
}

proof fn lemma_lists_all(s: Seq<PeerView>)
    requires
        ids_distinct(s),
    ensures
        lists_exactly(s, map_of(s)),
{
    assert forall|i: int| 0 <= i < s.len() implies #[trigger] map_of(s).get(s[i].id) == Some(
        s[i],
    ) by {
        lemma_map_of_at(s, i);
    }
}

impl PeerTable {
    /// Adds the peer, or replaces the known peer with the same id.
    pub fn upsert(&mut self, peer: Peer)
        ensures
            final(self)@ == spec_upsert(old(self)@, peer@),
    {
        proof {
            use_type_invariant(&*self);
        }
        let ghost s = self.entries();
        let ghost pv = peer@;
        let mut peers: Vec<Peer> = Vec::new();
        std::mem::swap(&mut peers, &mut self.peers);
        let n = peers.len();
        let mut i: usize = 0;
        while i < n
            invariant
                0 <= i <= n,
                n == peers.len(),
                views_of(peers@) == s,
                self.paired == old(self).paired,
                texts_of(self.paired@).no_duplicates(),
                s == views_of(old(self).peers@),
                peer@ == pv,
                ids_distinct(s),
                forall|j: int| 0 <= j < i ==> #[trigger] s[j].id != pv.id,
            decreases n - i,
        {
            proof {
                assert(s[i as int] == peers@[i as int]@);
            }
            if peers[i].id == peer.id {
                proof {
                    lemma_map_of_update(s, i as int, pv);
                }
                let ghost before_peers = peers@;
                peers.set(i, peer);
                proof {
                    lemma_views_update(before_peers, i as int, peer);
                    assert(views_of(peers@) == s.update(i as int, pv));
                    assert(ids_distinct(views_of(peers@)));
                    assert(texts_of(self.paired@).no_duplicates());
                }
                self.peers = peers;
                return;
            }
            i = i + 1;
        }
        proof {
            lemma_map_of_push(s, pv);
        }
        let ghost before_peers = peers@;
        peers.push(peer);
        proof {
            lemma_views_push(before_peers, peer);
            assert(views_of(peers@) == s.push(pv));
            assert(ids_distinct(views_of(peers@)));
            assert(texts_of(self.paired@).no_duplicates());
        }
        self.peers = peers;
    }

    /// The known peer with the given id.
    pub fn get(&self, id: &str) -> (r: Option<Peer>)
        ensures
            match r {
                Some(p) => self@.peers.get(id@) == Some(p@),
                None => self@.peers.get(id@) is None,
            },
    {
        proof {
            use_type_invariant(self);
        }
        let key = id.to_owned();
        let ghost s = self.entries();
        let n = self.peers.len();
        let mut i: usize = 0;
        while i < n
            invariant
                0 <= i <= n,
                n == self.peers.len(),
                s == self.entries(),
                key@ == id@,
                ids_distinct(s),
                forall|j: int| 0 <= j < i ==> #[trigger] s[j].id != id@,
            decreases n - i,
        {
            proof {
                assert(s[i as int] == self.peers@[i as int]@);
            }
            if self.peers[i].id == key {
                proof {
                    lemma_map_of_at(s, i as int);
                }
                return Some(self.peers[i].copied());
            }
            i = i + 1;
        }
        proof {
            if map_of(s).contains_key(id@) {
                let j = choose|j: int| 0 <= j < s.len() && #[trigger] s[j].id == id@;
                assert(s[j].id != id@);
            }
        }
        None
    }

    /// Every known peer, once each.
    pub fn snapshot(&self) -> (r: Vec<Peer>)
        ensures
            lists_exactly(views_of(r@), self@.peers),
    {
        proof {
            use_type_invariant(self);
        }
        let ghost s = self.entries();
        let n = self.peers.len();
        let mut out: Vec<Peer> = Vec::new();
        let mut i: usize = 0;
        while i < n
            invariant
                0 <= i <= n,
                n == self.peers.len(),
                s == self.entries(),
                views_of(out@) == s.take(i as int),
            decreases n - i,
        {
            let p = self.peers[i].copied();
            proof {
                assert(s[i as int] == self.peers@[i as int]@);
            }
            let ghost before_out = out@;
            out.push(p);
            proof {
                lemma_views_push(before_out, p);
                assert(views_of(out@) =~= s.take(i + 1));
            }
            i = i + 1;
        }
        proof {
            assert(s.take(n as int) =~= s);
            lemma_lists_all(s);
        }
        out
    }

    /// Marks the peer with the given id as paired.
    pub fn mark_paired(&mut self, id: &str)
        ensures
            final(self)@ == spec_mark_paired(old(self)@, id@),
    {
        proof {
            use_type_invariant(&*self);
        }
        if !self.is_paired(id) {
            let ghost ids = self.paired_ids();
            let key = id.to_owned();
            proof {
                assert(!ids.contains(id@));
                assert(ids.push(id@).to_set() =~= ids.to_set().insert(id@)) by {
                    assert forall|k: Seq<char>| #[trigger] ids.push(id@).to_set().contains(k)
                        <==> ids.to_set().insert(id@).contains(k) by {
                        if ids.push(id@).contains(k) && k != id@ {
                            let j = choose|j: int| 0 <= j < ids.push(id@).len() && ids.push(id@)[j] == k;
                            assert(ids[j] == k);
                        }
                        if ids.contains(k) {
                            let j = choose|j: int| 0 <= j < ids.len() && ids[j] == k;
                            assert(ids.push(id@)[j] == k);
                        }
                        if k == id@ {
                            assert(ids.push(id@)[ids.len() as int] == k);
                        }
                    }
                }
            }
            let mut paired: Vec<String> = Vec::new();
            std::mem::swap(&mut paired, &mut self.paired);
            paired.push(key);
            proof {
                assert(texts_of(paired@) =~= ids.push(id@));
                assert(ids.push(id@).no_duplicates()) by {
                    assert forall|a: int, b: int|
                        0 <= a < ids.push(id@).len() && 0 <= b < ids.push(id@).len() && a != b
                        implies ids.push(id@)[a] != ids.push(id@)[b] by {
                        if a < ids.len() && b == ids.len() {
                            assert(ids[a] != id@);
                        }
                        if b < ids.len() && a == ids.len() {
                            assert(ids[b] != id@);
                        }
                    }
                }
            }
            self.paired = paired;
        } else {
            proof {
                assert(self@.paired.insert(id@) =~= self@.paired);
            }
        }
    }

    /// The peer with the given id is paired.
    pub fn is_paired(&self, id: &str) -> (b: bool)
        ensures
            b == self@.paired.contains(id@),
    {
        let key = id.to_owned();
        let ghost ids = self.paired_ids();
        let n = self.paired.len();
        let mut i: usize = 0;
        while i < n
            invariant
                0 <= i <= n,
                n == self.paired.len(),
                ids == self.paired_ids(),
                key@ == id@,
                forall|j: int| 0 <= j < i ==> ids[j] != id@,
            decreases n - i,
        {
            proof {
                assert(ids[i as int] == self.paired@[i as int]@);
            }
            if self.paired[i] == key {
                return true;
            }
            i = i + 1;
        }
        proof {
            if ids.contains(id@) {
                let j = choose|j: int| 0 <= j < ids.len() && ids[j] == id@;
                assert(ids[j] != id@);
            }
        }
        false
    }

    /// Known peers that are also paired, once each.
    pub fn paired_peers(&self) -> (r: Vec<Peer>)
        ensures
            lists_exactly(views_of(r@), spec_paired_peers(self@)),
    {
        proof {
            use_type_invariant(self);
        }
        let ghost s = self.entries();
        let ghost set = self@.paired;
        let n = self.peers.len();
        let mut out: Vec<Peer> = Vec::new();
        let mut i: usize = 0;
        proof {
            assert(map_of(views_of(out@)) =~= map_of(s.take(0)).restrict(set));
        }
        while i < n
            invariant
                0 <= i <= n,
                n == self.peers.len(),
                s == self.entries(),
                set == self@.paired,
                ids_distinct(s),
                ids_distinct(views_of(out@)),
                map_of(views_of(out@)) == map_of(s.take(i as int)).restrict(set),
            decreases n - i,
        {
            let ghost before = views_of(out@);
            let ghost pv = s[i as int];
            proof {
                assert(s[i as int] == self.peers@[i as int]@);
                assert(s.take(i + 1) =~= s.take(i as int).push(pv));
                assert(ids_distinct(s.take(i as int))) by {
                    assert forall|a: int, b: int|
                        0 <= a < i && 0 <= b < i && a != b implies #[trigger] s.take(i as int)[a].id
                        != #[trigger] s.take(i as int)[b].id by {
                        assert(s[a].id != s[b].id);
                    }
                }
                assert forall|j: int| 0 <= j < i implies #[trigger] s.take(i as int)[j].id
                    != pv.id by {
                    assert(s[j].id != s[i as int].id);
                }
                lemma_map_of_push(s.take(i as int), pv);
            }
            if self.is_paired(self.peers[i].id.as_str()) {
                let p = self.peers[i].copied();
                let ghost before_out = out@;
                out.push(p);
                proof {
                    lemma_views_push(before_out, p);
                    assert forall|k: int| 0 <= k < before.len() implies #[trigger] before[k].id
                        != pv.id by {
                        if before[k].id == pv.id {
                            lemma_map_of_at(before, k);
                        }
                    }
                    lemma_map_of_push(before, pv);
                    assert(map_of(views_of(out@)) =~= map_of(s.take(i + 1)).restrict(set));
                }
            } else {
                proof {
                    assert(map_of(views_of(out@)) =~= map_of(s.take(i + 1)).restrict(set));
                }
            }
            i = i + 1;
        }
        proof {
            assert(s.take(n as int) =~= s);
            lemma_lists_all(views_of(out@));
        }
        out
    }
}

impl View for PeerTable {
    type V = PeerTableView;

    closed spec fn view(&self) -> PeerTableView {
        PeerTableView { peers: map_of(self.entries()), paired: self.paired_ids().to_set() }
    }
}

impl Default for PeerTable {
    /// An empty table.
    fn default() -> (t: Self)
        ensures
            t@.peers == Map::<Seq<char>, PeerView>::empty(),
            t@.paired == Set::<Seq<char>>::empty(),
    {
        let t = PeerTable { peers: Vec::new(), paired: Vec::new() };
        assert(t.entries() =~= Seq::<PeerView>::empty());
        assert(t.paired_ids() =~= Seq::<Seq<char>>::empty());
        assert(map_of(t.entries()) =~= Map::<Seq<char>, PeerView>::empty());
        assert(t.paired_ids().to_set() =~= Set::<Seq<char>>::empty());
        t
    }
}

/// A peer just added, or just replaced, is found under its id.
pub proof fn lemma_get_after_upsert(t: PeerTableView, p: PeerView)
    ensures
        spec_upsert(t, p).peers.get(p.id) == Some(p),
{
}

/// Adding a peer leaves every other id, and all pairings, as they were.
pub proof fn lemma_upsert_keeps_others(t: PeerTableView, p: PeerView, id: Seq<char>)
    requires
        id != p.id,
    ensures
        spec_upsert(t, p).peers.get(id) == t.peers.get(id),
        spec_upsert(t, p).paired == t.paired,
{
}

/// Adding the same peer twice leaves the table as adding it once.
pub proof fn lemma_upsert_idempotent(t: PeerTableView, p: PeerView)
    ensures
        spec_upsert(spec_upsert(t, p), p) == spec_upsert(t, p),
{
    assert(spec_upsert(spec_upsert(t, p), p).peers =~= spec_upsert(t, p).peers);
}

/// An id marked as paired is paired; marking touches no known peer, and
/// marking twice is marking once.
pub proof fn lemma_paired_after_mark(t: PeerTableView, id: Seq<char>)
    ensures
        spec_mark_paired(t, id).paired.contains(id),
        spec_mark_paired(t, id).peers == t.peers,
        spec_mark_paired(spec_mark_paired(t, id), id) == spec_mark_paired(t, id),
{
    assert(spec_mark_paired(spec_mark_paired(t, id), id).paired =~= spec_mark_paired(t, id).paired);
}

/// Marking an id as paired keeps every id paired before: afterwards the paired
/// ids are exactly those paired before, and the marked one.
pub proof fn lemma_mark_paired_keeps_pairings(t: PeerTableView, id: Seq<char>, k: Seq<char>)
    ensures
        spec_mark_paired(t, id).paired.contains(k) <==> (t.paired.contains(k) || k == id),
        t.paired.contains(k) && t.peers.contains_key(k) ==> spec_paired_peers(
            spec_mark_paired(t, id),
        ).get(k) == t.peers.get(k),
{
}

/// Adding a peer changes the known peers under its id only: afterwards the
/// known ids are those known before and the added one.
pub proof fn lemma_upsert_known_ids(t: PeerTableView, p: PeerView, k: Seq<char>)
    ensures
        spec_upsert(t, p).peers.contains_key(k) <==> (t.peers.contains_key(k) || k == p.id),
        spec_upsert(t, p).peers.get(k) == if k == p.id {
            Some(p)
        } else {
            t.peers.get(k)
        },
{
}

/// The paired peers are exactly the known peers whose id is paired.
pub proof fn lemma_paired_peers_known(t: PeerTableView, id: Seq<char>)
    ensures
        spec_paired_peers(t).get(id) == if t.paired.contains(id) {
            t.peers.get(id)
        } else {
            None
        },
{
}

/// A peer that is added and then marked as paired is listed among the paired peers.
pub proof fn lemma_upsert_then_mark(t: PeerTableView, p: PeerView)
    ensures
        spec_paired_peers(spec_mark_paired(spec_upsert(t, p), p.id)).get(p.id) == Some(p),
{
}

} // verus!
