//! Encoding of messages into frames.
use bytes::Bytes;
use vstd::prelude::*;
use vstd::utf8::encode_utf8;

use crate::bufs::bytes_contents;
use crate::bufs::bytes_from_string;
use crate::codec::decoder::invalid;
use crate::errors::invalid_value;
use crate::errors::AppError;
use crate::number::decimal;
use crate::number::u64_to_decimal;
use crate::types::DiaReq;
use crate::types::DiaReqView;
use crate::types::Peer;
use crate::types::PeerView;
use crate::types::ResStatus;

verus! {

/// The three peer lines after the frame head `head`:
/// `<head><id>\r\nN<name>\r\nP<ip>\r\n`.
pub open spec fn peer_text(head: Seq<char>, p: PeerView) -> Seq<char> {
    head + p.id + "\r\nN"@ + p.name + "\r\nP"@ + p.ip + "\r\n"@
}

/// The sign that stands for an answer.
pub open spec fn status_text(s: ResStatus) -> Seq<char> {
    match s {
        ResStatus::Accept => "+"@,
        ResStatus::Reject => "-"@,
    }
}

/// The text of the frame that encodes a message.
pub open spec fn spec_encode(v: DiaReqView) -> Seq<char> {
    match v {
        DiaReqView::Announce(p) => peer_text("%I"@, p),
        DiaReqView::PairReq(p) => peer_text("(I"@, p),
        DiaReqView::PairRes(p, s) => peer_text(")I"@, p) + "R"@ + status_text(s) + "\r\n"@,
        DiaReqView::FileOffer(p, name, size) => peer_text("FI"@, p) + "L"@ + name + "\r\nS"@
            + decimal(size as nat) + "\r\n"@,
        DiaReqView::Error(m) => "-"@ + m + "\r\n"@,
    }
}

/// The bytes of the frame that encodes a message.
pub open spec fn spec_encode_bytes(v: DiaReqView) -> Seq<u8> {
    encode_utf8(spec_encode(v))
}

/// Encodes a message into the bytes of its frame.
pub fn encode_dia_req(val: DiaReq) -> (r: Result<Bytes, AppError>)
    ensures
        r matches Ok(b) && bytes_contents(b) == spec_encode_bytes(val@),
{
    match &val {
        DiaReq::Announce(_) => encode_announce(&val),
        DiaReq::PairReq(_) => encode_peer_req(&val),
        DiaReq::PairRes(_, _) => encode_peer_resp(&val),
        DiaReq::FileOffer(_, _, _) => encode_file_offer(&val),
        DiaReq::Error(s) => {
            let mut text = "-".to_owned();
            text.append(s.as_str());
            text.append("\r\n");
            Ok(bytes_from_string(text))
        },
    }
}

fn push_peer_text(head: &str, p: &Peer) -> (s: String)
    ensures
        s@ == peer_text(head@, p@),
{
    let mut s = head.to_owned();
    s.append(p.id.as_str());
    s.append("\r\nN");
    s.append(p.name.as_str());
    s.append("\r\nP");
    s.append(p.ip.as_str());
    s.append("\r\n");
    s
}

fn encode_file_offer(val: &DiaReq) -> (r: Result<Bytes, AppError>)
    ensures
        val@ is FileOffer ==> (r matches Ok(b) && bytes_contents(b) == spec_encode_bytes(val@)),
        !(val@ is FileOffer) ==> (r matches Err(e) && e@ == invalid("expected file offer"@)),
{
    match val {
        DiaReq::FileOffer(p, name, size) => {
            let mut s = push_peer_text("FI", p);
            s.append("L");
            s.append(name.as_str());
            s.append("\r\nS");
            let digits = u64_to_decimal(*size);
            s.append(digits.as_str());
            s.append("\r\n");
            Ok(bytes_from_string(s))
        },
        _ => Err(invalid_value("expected file offer")),
    }
}

fn encode_announce(val: &DiaReq) -> (r: Result<Bytes, AppError>)
    ensures
        val@ is Announce ==> (r matches Ok(b) && bytes_contents(b) == spec_encode_bytes(val@)),
        !(val@ is Announce) ==> (r matches Err(e) && e@ == invalid("expected announce"@)),
{
    match val {
        DiaReq::Announce(p) => Ok(bytes_from_string(push_peer_text("%I", p))),
        _ => Err(invalid_value("expected announce")),
    }
}

fn encode_peer_req(val: &DiaReq) -> (r: Result<Bytes, AppError>)
    ensures
        val@ is PairReq ==> (r matches Ok(b) && bytes_contents(b) == spec_encode_bytes(val@)),
        !(val@ is PairReq) ==> (r matches Err(e) && e@ == invalid("expected peer request"@)),
{
    match val {
        DiaReq::PairReq(p) => Ok(bytes_from_string(push_peer_text("(I", p))),
        _ => Err(invalid_value("expected peer request")),
    }
}

fn encode_peer_resp(val: &DiaReq) -> (r: Result<Bytes, AppError>)
    ensures
        val@ is PairRes ==> (r matches Ok(b) && bytes_contents(b) == spec_encode_bytes(val@)),
        !(val@ is PairRes) ==> (r matches Err(e) && e@ == invalid("expected peer response"@)),
{
    match val {
        DiaReq::PairRes(p, status) => {
            let sign = match status {
                ResStatus::Accept => "+",
                ResStatus::Reject => "-",
            };
            let mut s = push_peer_text(")I", p);
            s.append("R");
            s.append(sign);
            s.append("\r\n");
            Ok(bytes_from_string(s))
        },
        _ => Err(invalid_value("expected peer response")),
    }
}

} // verus!
