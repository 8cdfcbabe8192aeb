use bytes::Bytes;
use vstd::prelude::*;

use crate::bufs::bytes_contents;
use crate::codec::encoder::encode_dia_req;
use crate::codec::encoder::spec_encode_bytes;
use crate::errors::AppError;
use crate::number::decimal;
use crate::number::u64_to_decimal;

verus! {

/// A peer on the local network, as it announces itself.
#[derive(Debug, Clone, PartialEq, Eq)]
pub struct Peer {
    pub id: String,
    pub name: String,
    pub ip: String,
}

/// Answer to a pairing request.
#[derive(Debug, Clone, Copy, PartialEq, Eq)]
pub enum ResStatus {
    Accept,
    Reject,
}

/// A protocol message.
#[derive(Debug, Clone, PartialEq, Eq)]
pub enum DiaReq {
    Announce(Peer),
    PairReq(Peer),
    PairRes(Peer, ResStatus),
    /// from, filename, size in bytes; raw bytes follow after Accept
    FileOffer(Peer, String, u64),
    Error(String),
}

/// Mathematical view of a [`Peer`].
pub struct PeerView {
    pub id: Seq<char>,
    pub name: Seq<char>,
    pub ip: Seq<char>,
}

/// Mathematical view of a [`DiaReq`].
pub enum DiaReqView {
    Announce(PeerView),
    PairReq(PeerView),
    PairRes(PeerView, ResStatus),
    FileOffer(PeerView, Seq<char>, u64),
    Error(Seq<char>),
}

impl View for Peer {
    type V = PeerView;

    open spec fn view(&self) -> PeerView {
        PeerView { id: self.id@, name: self.name@, ip: self.ip@ }
    }
}

impl View for DiaReq {
    type V = DiaReqView;

    open spec fn view(&self) -> DiaReqView {
        match self {
            DiaReq::Announce(p) => DiaReqView::Announce(p@),
            DiaReq::PairReq(p) => DiaReqView::PairReq(p@),
            DiaReq::PairRes(p, s) => DiaReqView::PairRes(p@, *s),
            DiaReq::FileOffer(p, n, s) => DiaReqView::FileOffer(p@, n@, *s),
            DiaReq::Error(m) => DiaReqView::Error(m@),
        }
    }
}

/// How a message reads when shown to the user.
pub open spec fn spec_describe(v: DiaReqView) -> Seq<char> {
    match v {
        DiaReqView::Announce(p) => "Id: "@ + p.id + " |  Name: "@ + p.name + " | Ip: "@ + p.ip,
        DiaReqView::PairReq(p) => "Id: "@ + p.id + " | Name: "@ + p.name + " | Ip: "@ + p.ip
            + " | Peer Req"@,
        DiaReqView::PairRes(p, s) => "Id: "@ + p.id + " | Name: "@ + p.name + " | Ip : "@ + p.ip
            + " | Peer Resp : "@ + match s {
            ResStatus::Accept => "Accept"@,
            ResStatus::Reject => "Reject"@,
        },
        DiaReqView::Error(m) => "(error) "@ + m,
        DiaReqView::FileOffer(p, name, size) => "Id: "@ + p.id + " | Name: "@ + p.name
            + " | File: "@ + name + " ("@ + decimal(size as nat) + " bytes)"@,
    }
}

impl Peer {
    /// A peer with the given id, name and address.
    pub fn new(id: &str, name: &str, ip: &str) -> (p: Peer)
        ensures
            p@ == (PeerView { id: id@, name: name@, ip: ip@ }),
    {
        Peer { id: id.to_owned(), name: name.to_owned(), ip: ip.to_owned() }
    }

    /// A field-by-field copy of this peer.
    pub fn copied(&self) -> (p: Peer)
        ensures
            p@ == self@,
    {
        Peer { id: self.id.clone(), name: self.name.clone(), ip: self.ip.clone() }
    }
}

impl DiaReq {
    pub fn announce(peer: Peer) -> (r: Self)
        ensures
            r@ == DiaReqView::Announce(peer@),
    {
        DiaReq::Announce(peer)
    }

    pub fn pair_req(peer: Peer) -> (r: Self)
        ensures
            r@ == DiaReqView::PairReq(peer@),
    {
        DiaReq::PairReq(peer)
    }

    pub fn pair_res(peer: Peer, status: ResStatus) -> (r: Self)
        ensures
            r@ == DiaReqView::PairRes(peer@, status),
    {
        DiaReq::PairRes(peer, status)
    }

    pub fn file_offer(peer: Peer, name: String, size: u64) -> (r: Self)
        ensures
            r@ == DiaReqView::FileOffer(peer@, name@, size),
    {
        DiaReq::FileOffer(peer, name, size)
    }

    pub fn err(msg: String) -> (r: Self)
        ensures
            r@ == DiaReqView::Error(msg@),
    {
        DiaReq::Error(msg)
    }

    /// A field-by-field copy of this message.
    pub fn copied(&self) -> (r: Self)
        ensures
            r@ == self@,
    {
        match self {
            DiaReq::Announce(p) => DiaReq::Announce(p.copied()),
            DiaReq::PairReq(p) => DiaReq::PairReq(p.copied()),
            DiaReq::PairRes(p, s) => DiaReq::PairRes(p.copied(), *s),
            DiaReq::FileOffer(p, n, s) => DiaReq::FileOffer(p.copied(), n.clone(), *s),
            DiaReq::Error(m) => DiaReq::Error(m.clone()),
        }
    }

    /// The bytes of the frame that carries this message.
    pub fn to_bytes(&self) -> (r: Result<Bytes, AppError>)
        ensures
            r matches Ok(b) && bytes_contents(b) == spec_encode_bytes(self@),
    {
        encode_dia_req(self.copied())
    }

    /// How this message reads when shown to the user.
    pub fn to_string(&self) -> (s: String)
        ensures
            s@ == spec_describe(self@),
    {
        match self {
            DiaReq::Announce(p) => {
                let mut s = "Id: ".to_owned();
                s.append(p.id.as_str());
                s.append(" |  Name: ");
                s.append(p.name.as_str());
                s.append(" | Ip: ");
                s.append(p.ip.as_str());
                s
            },
            DiaReq::PairReq(p) => {
                let mut s = "Id: ".to_owned();
                s.append(p.id.as_str());
                s.append(" | Name: ");
                s.append(p.name.as_str());
                s.append(" | Ip: ");
                s.append(p.ip.as_str());
                s.append(" | Peer Req");
                s
            },
            DiaReq::PairRes(p, status) => {
                let word = match status {
                    ResStatus::Accept => "Accept",
                    ResStatus::Reject => "Reject",
                };
                let mut s = "Id: ".to_owned();
                s.append(p.id.as_str());
                s.append(" | Name: ");
                s.append(p.name.as_str());
                s.append(" | Ip : ");
                s.append(p.ip.as_str());
                s.append(" | Peer Resp : ");
                s.append(word);
                s
            },
            DiaReq::Error(m) => {
                let mut s = "(error) ".to_owned();
                s.append(m.as_str());
                s
            },
            DiaReq::FileOffer(p, name, size) => {
                let digits = u64_to_decimal(*size);
                let mut s = "Id: ".to_owned();
                s.append(p.id.as_str());
                s.append(" | Name: ");
                s.append(p.name.as_str());
                s.append(" | File: ");
                s.append(name.as_str());
                s.append(" (");
                s.append(digits.as_str());
                s.append(" bytes)");
                s
            },
        }
    }
}


proof fn reveal_description_literals()
    ensures
        "Id: "@ == seq!['I', 'd', ':', ' '],
        " |  Name: "@ == seq![' ', '|', ' ', ' ', 'N', 'a', 'm', 'e', ':', ' '],
        " | Ip: "@ == seq![' ', '|', ' ', 'I', 'p', ':', ' '],
        " | Name: "@ == seq![' ', '|', ' ', 'N', 'a', 'm', 'e', ':', ' '],
        " | Peer Req"@ == seq![' ', '|', ' ', 'P', 'e', 'e', 'r', ' ', 'R', 'e', 'q'],
        " | Ip : "@ == seq![' ', '|', ' ', 'I', 'p', ' ', ':', ' '],
        " | Peer Resp : "@ == seq![' ', '|', ' ', 'P', 'e', 'e', 'r', ' ', 'R', 'e', 's', 'p', ' ', ':', ' '],
        "Accept"@ == seq!['A', 'c', 'c', 'e', 'p', 't'],
        "Reject"@ == seq!['R', 'e', 'j', 'e', 'c', 't'],
        "(error) "@ == seq!['(', 'e', 'r', 'r', 'o', 'r', ')', ' '],
        " | File: "@ == seq![' ', '|', ' ', 'F', 'i', 'l', 'e', ':', ' '],
        " ("@ == seq![' ', '('],
        " bytes)"@ == seq![' ', 'b', 'y', 't', 'e', 's', ')'],
{
    reveal_strlit("Id: ");
    assert("Id: "@ =~= seq!['I', 'd', ':', ' ']);
    reveal_strlit(" |  Name: ");
    assert(" |  Name: "@ =~= seq![' ', '|', ' ', ' ', 'N', 'a', 'm', 'e', ':', ' ']);
    reveal_strlit(" | Ip: ");
    assert(" | Ip: "@ =~= seq![' ', '|', ' ', 'I', 'p', ':', ' ']);
    reveal_strlit(" | Name: ");
    assert(" | Name: "@ =~= seq![' ', '|', ' ', 'N', 'a', 'm', 'e', ':', ' ']);
    reveal_strlit(" | Peer Req");
    assert(" | Peer Req"@ =~= seq![' ', '|', ' ', 'P', 'e', 'e', 'r', ' ', 'R', 'e', 'q']);
    reveal_strlit(" | Ip : ");
    assert(" | Ip : "@ =~= seq![' ', '|', ' ', 'I', 'p', ' ', ':', ' ']);
    reveal_strlit(" | Peer Resp : ");
    assert(" | Peer Resp : "@ =~= seq![' ', '|', ' ', 'P', 'e', 'e', 'r', ' ', 'R', 'e', 's', 'p', ' ', ':', ' ']);
    reveal_strlit("Accept");
    assert("Accept"@ =~= seq!['A', 'c', 'c', 'e', 'p', 't']);
    reveal_strlit("Reject");
    assert("Reject"@ =~= seq!['R', 'e', 'j', 'e', 'c', 't']);
    reveal_strlit("(error) ");
    assert("(error) "@ =~= seq!['(', 'e', 'r', 'r', 'o', 'r', ')', ' ']);
    reveal_strlit(" | File: ");
    assert(" | File: "@ =~= seq![' ', '|', ' ', 'F', 'i', 'l', 'e', ':', ' ']);
    reveal_strlit(" (");
    assert(" ("@ =~= seq![' ', '(']);
    reveal_strlit(" bytes)");
    assert(" bytes)"@ =~= seq![' ', 'b', 'y', 't', 'e', 's', ')']);
}

/// The text shown for a message holds each of its fields whole, in place:
/// an announcement reads `Id: <id> |  Name: <name> | Ip: <ip>`, a pairing
/// request `Id: <id> | Name: <name> | Ip: <ip> | Peer Req`, a pairing response
/// `Id: <id> | Name: <name> | Ip : <ip> | Peer Resp : Accept` (or `Reject`), an
/// error report `(error) <message>`, and a file offer
/// `Id: <id> | Name: <name> | File: <file> (<size in decimal> bytes)`.
pub proof fn lemma_description_text(p: PeerView, file: Seq<char>, size: u64, msg: Seq<char>, yes: bool)
    ensures
        spec_describe(DiaReqView::Announce(p)) == seq!['I', 'd', ':', ' '] + p.id + seq![' ', '|', ' ', ' ', 'N', 'a', 'm', 'e', ':', ' '] + p.name
            + seq![' ', '|', ' ', 'I', 'p', ':', ' '] + p.ip,
        spec_describe(DiaReqView::PairReq(p)) == seq!['I', 'd', ':', ' '] + p.id + seq![' ', '|', ' ', 'N', 'a', 'm', 'e', ':', ' '] + p.name
            + seq![' ', '|', ' ', 'I', 'p', ':', ' '] + p.ip + seq![' ', '|', ' ', 'P', 'e', 'e', 'r', ' ', 'R', 'e', 'q'],
        spec_describe(DiaReqView::PairRes(p, if yes { ResStatus::Accept } else { ResStatus::Reject }))
            == seq!['I', 'd', ':', ' '] + p.id + seq![' ', '|', ' ', 'N', 'a', 'm', 'e', ':', ' '] + p.name + seq![' ', '|', ' ', 'I', 'p', ' ', ':', ' '] + p.ip
            + seq![' ', '|', ' ', 'P', 'e', 'e', 'r', ' ', 'R', 'e', 's', 'p', ' ', ':', ' '] + if yes { seq!['A', 'c', 'c', 'e', 'p', 't'] } else { seq!['R', 'e', 'j', 'e', 'c', 't'] },
        spec_describe(DiaReqView::Error(msg)) == seq!['(', 'e', 'r', 'r', 'o', 'r', ')', ' '] + msg,
        spec_describe(DiaReqView::FileOffer(p, file, size)) == seq!['I', 'd', ':', ' '] + p.id + seq![' ', '|', ' ', 'N', 'a', 'm', 'e', ':', ' ']
            + p.name + seq![' ', '|', ' ', 'F', 'i', 'l', 'e', ':', ' '] + file + seq![' ', '('] + decimal(size as nat) + seq![' ', 'b', 'y', 't', 'e', 's', ')'],
{
    reveal_description_literals();
}

} // verus!
