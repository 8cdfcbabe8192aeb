//! The decisions a node takes on what it hears from the network and the
//! console; the program around the library performs the actions.
use bytes::Bytes;
use bytes::BytesMut;
use vstd::prelude::*;

use crate::bufs::bytes_contents;
use crate::bufs::bytes_mut_contents;
use crate::codec::decoder::decode_dia_value;
use crate::codec::decoder::spec_decode_dia_value;
use crate::codec::encoder::encode_dia_req;
use crate::codec::encoder::spec_encode_bytes;
use crate::errors::view_result;
use crate::errors::AppError;
use crate::errors::AppErrorView;
use crate::number::parse_usize;
use crate::number::spec_parse_usize;
use crate::state::lemma_views_push;
use crate::state::lists_exactly;
use crate::state::spec_upsert;
use crate::state::views_of;
use crate::state::PeerTable;
use crate::text::is_white_space;
use crate::text::lemma_trim_padding;
use crate::text::spec_trim;
use crate::text::trim;
use crate::types::DiaReq;
use crate::types::DiaReqView;
use crate::types::Peer;
use crate::types::PeerView;
use crate::types::ResStatus;

verus! {

/// Takes in an announcement datagram: a peer that announces itself, other than
/// this node, is added to (or refreshed in) the table. Anything else that
/// decodes is ignored; a frame that does not decode gives its error back.
pub fn absorb_datagram(table: &mut PeerTable, my_id: &str, frame: &mut BytesMut) -> (r: Option<
    AppError,
>)
    ensures
        bytes_mut_contents(*old(frame)).len() > 0 ==> bytes_mut_contents(*final(frame))
            == bytes_mut_contents(*old(frame)).drop_first(),
        bytes_mut_contents(*old(frame)).len() == 0 ==> bytes_mut_contents(*final(frame))
            == bytes_mut_contents(*old(frame)),
        match spec_decode_dia_value(bytes_mut_contents(*old(frame))) {
            Ok(DiaReqView::Announce(p)) => r is None && final(table)@ == if p.id != my_id@ {
                spec_upsert(old(table)@, p)
            } else {
                old(table)@
            },
            Ok(_) => r is None && final(table)@ == old(table)@,
            Err(e) => (r matches Some(x) && x@ == e) && final(table)@ == old(table)@,
        },
{
    let decoded = decode_dia_value(frame);
    match decoded {
        Ok(DiaReq::Announce(p)) => {
            let me = my_id.to_owned();
            if p.id != me {
                table.upsert(p);
            }
            None
        },
        Ok(_) => None,
        Err(e) => Some(e),
    }
}

/// What a node does with a frame received on a pairing connection.
#[derive(Debug)]
pub enum ConnectionAction {
    /// Ask the user whether to pair with the peer of this name.
    AskConsole(String),
    /// Show the message to the user.
    Show(DiaReq),
    /// Report a frame that does not decode.
    Report(AppError),
}

/// Decides what to do with a frame received on a pairing connection.
pub fn on_connection_frame(frame: &mut BytesMut) -> (a: ConnectionAction)
    ensures
        bytes_mut_contents(*old(frame)).len() > 0 ==> bytes_mut_contents(*final(frame))
            == bytes_mut_contents(*old(frame)).drop_first(),
        bytes_mut_contents(*old(frame)).len() == 0 ==> bytes_mut_contents(*final(frame))
            == bytes_mut_contents(*old(frame)),
        match spec_decode_dia_value(bytes_mut_contents(*old(frame))) {
            Ok(DiaReqView::PairReq(p)) => a matches ConnectionAction::AskConsole(name) && name@
                == p.name,
            Ok(v) => a matches ConnectionAction::Show(m) && m@ == v,
            Err(e) => a matches ConnectionAction::Report(x) && x@ == e,
        },
{
    match decode_dia_value(frame) {
        Ok(DiaReq::PairReq(p)) => ConnectionAction::AskConsole(p.name),
        Ok(other) => ConnectionAction::Show(other),
        Err(e) => ConnectionAction::Report(e),
    }
}

/// The answer to a pairing request: this node, accepting or rejecting.
pub fn pairing_answer(my_peer: &Peer, accepted: bool) -> (r: Result<Bytes, AppError>)
    ensures
        r matches Ok(b) && bytes_contents(b) == spec_encode_bytes(
            DiaReqView::PairRes(
                my_peer@,
                if accepted {
                    ResStatus::Accept
                } else {
                    ResStatus::Reject
                },
            ),
        ),
{
    let status = if accepted {
        ResStatus::Accept
    } else {
        ResStatus::Reject
    };
    encode_dia_req(DiaReq::PairRes(my_peer.copied(), status))
}

/// The reply to a pairing request that this node sent.
#[derive(Debug)]
pub enum PairReply {
    /// The peer of this name answered.
    Answered(String, ResStatus),
    /// Something else came back.
    Unexpected(Result<DiaReq, AppError>),
}

/// Reads the reply to a pairing request.
pub fn read_pair_reply(frame: &mut BytesMut) -> (r: PairReply)
    ensures
        bytes_mut_contents(*old(frame)).len() > 0 ==> bytes_mut_contents(*final(frame))
            == bytes_mut_contents(*old(frame)).drop_first(),
        bytes_mut_contents(*old(frame)).len() == 0 ==> bytes_mut_contents(*final(frame))
            == bytes_mut_contents(*old(frame)),
        match spec_decode_dia_value(bytes_mut_contents(*old(frame))) {
            Ok(DiaReqView::PairRes(p, s)) => r matches PairReply::Answered(name, s2) && name@
                == p.name && s2 == s,
            other => r matches PairReply::Unexpected(x) && view_result(x) == other,
        },
{
    match decode_dia_value(frame) {
        Ok(DiaReq::PairRes(p, status)) => PairReply::Answered(p.name, status),
        other => PairReply::Unexpected(other),
    }
}

/// What the console is waiting for.
#[derive(Debug)]
pub struct ConsoleState {
    /// A peer asked to pair and waits for a yes or no.
    pub confirm_pending: bool,
    /// The peers listed last, one of which the user is to pick by number.
    pub choices: Option<Vec<Peer>>,
}

/// Something that reaches the console.
#[derive(Debug)]
pub enum ConsoleEvent {
    /// A peer of this name asks to pair.
    PairRequest(String),
    /// The user typed a line.
    Line(String),
}

/// What the console does next.
#[derive(Debug)]
pub enum ConsoleAction {
    /// Tell the user that the peer of this name wants to pair, and wait for the answer.
    AskPairing(String),
    /// Answer the pending pairing request: yes or no.
    AnswerPairing(bool),
    /// Let the user pick a file.
    PickFile,
    /// Pair with this peer.
    PairWith(Peer),
    /// The number typed names none of the listed peers.
    InvalidChoice,
    /// No peer is known yet.
    NoPeers,
    /// Show these peers, numbered, and wait for a pick.
    ListPeers(Vec<Peer>),
}

impl ConsoleState {
    /// Waiting for nothing.
    pub fn new() -> (s: Self)
        ensures
            !s.confirm_pending,
            s.choices is None,
    {
        ConsoleState { confirm_pending: false, choices: None }
    }
}

/// The line means yes: it is `y` or `Y`, once trimmed.
pub open spec fn says_yes(line: Seq<char>) -> bool {
    spec_trim(line) == seq!['y'] || spec_trim(line) == seq!['Y']
}

/// A line answers yes exactly when, once trimmed, it is one character that is
/// `y` up to ASCII case; so `n`, `N`, `yes` or an empty line answer no, and
/// white space around the answer does not matter.
pub proof fn lemma_says_yes(w1: Seq<char>, t: Seq<char>, w2: Seq<char>)
    requires
        forall|i: int| 0 <= i < w1.len() ==> is_white_space(#[trigger] w1[i]),
        forall|i: int| 0 <= i < w2.len() ==> is_white_space(#[trigger] w2[i]),
        t.len() > 0 ==> !is_white_space(t[0]) && !is_white_space(t.last()),
    ensures
        says_yes(w1 + t + w2) <==> (t.len() == 1 && (t[0] == 'y' || t[0] == 'Y')),
        t == seq!['n'] || t == seq!['N'] ==> !says_yes(w1 + t + w2),
{
    lemma_trim_padding(w1, t, w2);
    if t.len() == 1 && (t[0] == 'y' || t[0] == 'Y') {
        if t[0] == 'y' {
            assert(t =~= seq!['y']);
        } else {
            assert(t =~= seq!['Y']);
        }
    }
    if t == seq!['y'] {
        assert(t[0] == 'y');
    }
    if t == seq!['Y'] {
        assert(t[0] == 'Y');
    }
    if t == seq!['n'] {
        assert(t[0] == 'n');
    }
    if t == seq!['N'] {
        assert(t[0] == 'N');
    }
}

fn is_one_of(s: &str, c1: char, c2: char) -> (b: bool)
    ensures
        b == (s@ == seq![c1] || s@ == seq![c2]),
{
    let len = s.unicode_len();
    if len == 1 {
        let c = s.get_char(0);
        proof {
            assert(s@ =~= seq![c]);
            if s@ == seq![c1] {
                assert(s@[0] == c1);
            }
            if s@ == seq![c2] {
                assert(s@[0] == c2);
            }
        }
        c == c1 || c == c2
    } else {
        proof {
            if s@ == seq![c1] || s@ == seq![c2] {
                assert(s@.len() == 1);
            }
        }
        false
    }
}

/// The console's decision on one event. A pending pairing question takes the
/// next line as its answer; otherwise `f` picks a file, a number picks one of
/// the peers listed last, and any other line lists the known peers.
pub fn console_step(state: &mut ConsoleState, event: ConsoleEvent, peers: &PeerTable) -> (a:
    ConsoleAction)
    ensures
        match event {
            ConsoleEvent::PairRequest(name) => {
                &&& a matches ConsoleAction::AskPairing(n) && n@ == name@
                &&& final(state).confirm_pending
                &&& final(state).choices == old(state).choices
            },
            ConsoleEvent::Line(line) => {
                let t = spec_trim(line@);
                if old(state).confirm_pending {
                    &&& a == ConsoleAction::AnswerPairing(says_yes(line@))
                    &&& !final(state).confirm_pending
                    &&& final(state).choices == old(state).choices
                } else if t == seq!['f'] {
                    &&& a is PickFile
                    &&& *final(state) == *old(state)
                } else if old(state).choices is Some {
                    let list = views_of(old(state).choices.unwrap()@);
                    &&& final(state).choices is None
                    &&& !final(state).confirm_pending
                    &&& match spec_parse_usize(t) {
                        Some(i) if i < list.len() => a matches ConsoleAction::PairWith(p) && p@
                            == list[i as int],
                        _ => a is InvalidChoice,
                    }
                } else {
                    &&& !final(state).confirm_pending
                    &&& (a is NoPeers <==> forall|k: Seq<char>| !peers@.peers.contains_key(k))
                    &&& (a is NoPeers ==> final(state).choices is None)
                    &&& (!(a is NoPeers) ==> (a matches ConsoleAction::ListPeers(list)
                        && lists_exactly(views_of(list@), peers@.peers)
                        && final(state).choices is Some
                        && views_of(final(state).choices.unwrap()@) == views_of(list@)))
                }
            },
        },
{
    match event {
        ConsoleEvent::PairRequest(name) => {
            state.confirm_pending = true;
            ConsoleAction::AskPairing(name)
        },
        ConsoleEvent::Line(line) => {
            let t = trim(line.as_str());
            if state.confirm_pending {
                state.confirm_pending = false;
                ConsoleAction::AnswerPairing(is_one_of(t, 'y', 'Y'))
            } else if is_one_of(t, 'f', 'f') {
                ConsoleAction::PickFile
            } else if state.choices.is_some() {
                let list = state.choices.take().unwrap();
                match parse_usize(t) {
                    Some(i) => {
                        if i < list.len() {
                            ConsoleAction::PairWith(list[i].copied())
                        } else {
                            ConsoleAction::InvalidChoice
                        }
                    },
                    None => ConsoleAction::InvalidChoice,
                }
            } else {
                let known = peers.snapshot();
                if known.len() == 0 {
                    proof {
                        assert forall|k: Seq<char>| !peers@.peers.contains_key(k) by {
                            if peers@.peers.contains_key(k) {
                                let i = choose|i: int|
                                    0 <= i < views_of(known@).len() && #[trigger] views_of(
                                        known@,
                                    )[i].id == k;
                            }
                        }
                    }
                    ConsoleAction::NoPeers
                } else {
                    proof {
                        let first = views_of(known@)[0];
                        assert(peers@.peers.get(first.id) == Some(first));
                        assert(peers@.peers.contains_key(first.id));
                    }
                    let shown = copy_peers(&known);
                    state.choices = Some(known);
                    ConsoleAction::ListPeers(shown)
                }
            }
        },
    }
}

fn copy_peers(v: &Vec<Peer>) -> (r: Vec<Peer>)
    ensures
        views_of(r@) == views_of(v@),
{
    let mut r: Vec<Peer> = Vec::new();
    let mut i: usize = 0;
    while i < v.len()
        invariant
            i <= v.len(),
            views_of(r@) == views_of(v@).take(i as int),
        decreases v.len() - i,
    {
        let p = v[i].copied();
        let ghost before = r@;
        r.push(p);
        proof {
            lemma_views_push(before, p);
            assert(views_of(r@) =~= views_of(v@).take(i + 1));
        }
        i = i + 1;
    }
    proof {
        assert(views_of(v@).take(v.len() as int) =~= views_of(v@));
    }
    r
}

} // verus!
