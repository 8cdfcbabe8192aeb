//! Decoding of frames: a one-byte kind followed by CRLF-separated, tagged lines.
use bytes::BytesMut;
use vstd::prelude::*;
use vstd::utf8::decode_utf8;
use vstd::utf8::valid_utf8;

use crate::bufs::buf_as_slice;
use crate::bufs::buf_get_u8;
use crate::bufs::buf_is_empty;
use crate::bufs::bytes_mut_contents;
use crate::errors::invalid_value;
use crate::errors::view_result;
use crate::errors::AppError;
use crate::errors::AppErrorView;
use crate::number::decimal;
use crate::number::parse_u64;
use crate::number::spec_parse_u64;
use crate::number::u64_to_decimal;
use crate::text::split_lines;
use crate::text::str_from_utf8;
use crate::text::Lines;
use crate::types::DiaReq;
use crate::types::DiaReqView;
use crate::types::Peer;
use crate::types::PeerView;
use crate::types::ResStatus;

verus! {

/// The error for an ill-formed frame, with its message.
pub open spec fn invalid(msg: Seq<char>) -> AppErrorView {
    AppErrorView::InvalidDianemoValue(msg)
}

/// Line `k` of `lines`, without its one-character `tag`, if it starts with that tag.
pub open spec fn tagged_line(lines: Seq<Seq<char>>, k: int, tag: char) -> Option<Seq<char>> {
    if 0 <= k < lines.len() && lines[k].len() > 0 && lines[k][0] == tag {
        Some(lines[k].drop_first())
    } else {
        None
    }
}

/// The lines of a frame body, or the error for a body that is not UTF-8.
pub open spec fn body_lines(body: Seq<u8>) -> Result<Seq<Seq<char>>, AppErrorView> {
    if valid_utf8(body) {
        Ok(split_lines(decode_utf8(body)))
    } else {
        Err(invalid("invalid ut8"@))
    }
}

/// The peer that the first three lines describe: `I<id>`, `N<name>`, `P<ip>`.
pub open spec fn spec_decode_peer(lines: Seq<Seq<char>>) -> Result<PeerView, AppErrorView> {
    match tagged_line(lines, 0, 'I') {
        None => Err(invalid("expectedid"@)),
        Some(id) => match tagged_line(lines, 1, 'N') {
            None => Err(invalid("expected name"@)),
            Some(name) => match tagged_line(lines, 2, 'P') {
                None => Err(invalid("expected ip"@)),
                Some(ip) => Ok(PeerView { id, name, ip }),
            },
        },
    }
}

/// An announcement body: a peer.
pub open spec fn spec_decode_announce(body: Seq<u8>) -> Result<DiaReqView, AppErrorView> {
    match body_lines(body) {
        Err(e) => Err(e),
        Ok(lines) => match spec_decode_peer(lines) {
            Err(e) => Err(e),
            Ok(p) => Ok(DiaReqView::Announce(p)),
        },
    }
}

/// A pairing request body: a peer.
pub open spec fn spec_decode_peer_request(body: Seq<u8>) -> Result<DiaReqView, AppErrorView> {
    match body_lines(body) {
        Err(e) => Err(e),
        Ok(lines) => match spec_decode_peer(lines) {
            Err(e) => Err(e),
            Ok(p) => Ok(DiaReqView::PairReq(p)),
        },
    }
}

/// The status line `R+` or `R-` of a pairing response.
pub open spec fn spec_decode_status(lines: Seq<Seq<char>>) -> Result<ResStatus, AppErrorView> {
    match tagged_line(lines, 3, 'R') {
        None => Err(invalid("expected status"@)),
        Some(s) => if s == seq!['+'] {
            Ok(ResStatus::Accept)
        } else if s == seq!['-'] {
            Ok(ResStatus::Reject)
        } else {
            Err(invalid("bad status"@))
        },
    }
}

/// A pairing response body: a peer, then its answer.
pub open spec fn spec_decode_peer_response(body: Seq<u8>) -> Result<DiaReqView, AppErrorView> {
    match body_lines(body) {
        Err(e) => Err(e),
        Ok(lines) => match spec_decode_peer(lines) {
            Err(e) => Err(e),
            Ok(p) => match spec_decode_status(lines) {
                Err(e) => Err(e),
                Ok(s) => Ok(DiaReqView::PairRes(p, s)),
            },
        },
    }
}

/// A file offer body: a peer, then `L<file name>` and `S<size in bytes>`.
pub open spec fn spec_decode_file_offer(body: Seq<u8>) -> Result<DiaReqView, AppErrorView> {
    match body_lines(body) {
        Err(e) => Err(e),
        Ok(lines) => match spec_decode_peer(lines) {
            Err(e) => Err(e),
            Ok(p) => match tagged_line(lines, 3, 'L') {
                None => Err(invalid("expected file name"@)),
                Some(name) => match tagged_line(lines, 4, 'S') {
                    None => Err(invalid("expected file size"@)),
                    Some(size) => match spec_parse_u64(size) {
                        None => Err(invalid("bad file size"@)),
                        Some(n) => Ok(DiaReqView::FileOffer(p, name, n)),
                    },
                },
            },
        },
    }
}

/// A whole frame: the kind byte `%`, `(`, `)` or `F`, then the body.
pub open spec fn spec_decode_dia_value(frame: Seq<u8>) -> Result<DiaReqView, AppErrorView> {
    if frame.len() == 0 {
        Err(AppErrorView::Incomplete)
    } else {
        let body = frame.drop_first();
        if frame[0] == 37u8 {
            spec_decode_announce(body)
        } else if frame[0] == 40u8 {
            spec_decode_peer_request(body)
        } else if frame[0] == 41u8 {
            spec_decode_peer_response(body)
        } else if frame[0] == 70u8 {
            spec_decode_file_offer(body)
        } else {
            Err(invalid("unknown dia type: "@ + decimal(frame[0] as nat)))
        }
    }
}

/// Decodes the frame that `bs` holds, consuming its kind byte.
pub fn decode_dia_value(bs: &mut BytesMut) -> (r: Result<DiaReq, AppError>)
    ensures
        bytes_mut_contents(*old(bs)).len() == 0 ==> bytes_mut_contents(*final(bs))
            == bytes_mut_contents(*old(bs)),
        bytes_mut_contents(*old(bs)).len() > 0 ==> bytes_mut_contents(*final(bs))
            == bytes_mut_contents(*old(bs)).drop_first(),
        view_result(r) == spec_decode_dia_value(bytes_mut_contents(*old(bs))),
{
    if buf_is_empty(bs) {
        return Err(AppError::Incomplete);
    }
    let prefix = buf_get_u8(bs);
    match prefix {
        37u8 => decode_anounce(bs),
        40u8 => decode_peer_request(bs),
        41u8 => decode_peer_response(bs),
        70u8 => decode_file_offer(bs),
        _ => {
            let digits = u64_to_decimal(prefix as u64);
            let msg = "unknown dia type: ".to_owned().concat(digits.as_str());
            Err(AppError::InvalidDianemoValue(msg))
        },
    }
}

/// The text that `bs` holds, split into lines.
fn frame_lines(bs: &BytesMut) -> (r: Result<Lines<'_>, AppError>)
    ensures
        match r {
            Ok(l) => l.wf() && body_lines(bytes_mut_contents(*bs)) == Ok::<
                Seq<Seq<char>>,
                AppErrorView,
            >(l.remaining()),
            Err(e) => body_lines(bytes_mut_contents(*bs)) == Err::<Seq<Seq<char>>, AppErrorView>(
                e@,
            ),
        },
{
    match str_from_utf8(buf_as_slice(bs)) {
        Some(s) => Ok(Lines::new(s)),
        None => Err(invalid_value("invalid ut8")),
    }
}

/// Decodes an announcement body.
pub fn decode_anounce(bs: &mut BytesMut) -> (r: Result<DiaReq, AppError>)
    ensures
        bytes_mut_contents(*final(bs)) == bytes_mut_contents(*old(bs)),
        view_result(r) == spec_decode_announce(bytes_mut_contents(*old(bs))),
{
    let mut lines = match frame_lines(bs) {
        Ok(l) => l,
        Err(e) => return Err(e),
    };
    match decode_peer(&mut lines) {
        Ok(peer) => Ok(DiaReq::Announce(peer)),
        Err(e) => Err(e),
    }
}

/// Decodes a pairing request body.
pub fn decode_peer_request(bs: &mut BytesMut) -> (r: Result<DiaReq, AppError>)
    ensures
        bytes_mut_contents(*final(bs)) == bytes_mut_contents(*old(bs)),
        view_result(r) == spec_decode_peer_request(bytes_mut_contents(*old(bs))),
{
    let mut lines = match frame_lines(bs) {
        Ok(l) => l,
        Err(e) => return Err(e),
    };
    match decode_peer(&mut lines) {
        Ok(peer) => Ok(DiaReq::PairReq(peer)),
        Err(e) => Err(e),
    }
}

/// Decodes a pairing response body.
pub fn decode_peer_response(bs: &mut BytesMut) -> (r: Result<DiaReq, AppError>)
    ensures
        bytes_mut_contents(*final(bs)) == bytes_mut_contents(*old(bs)),
        view_result(r) == spec_decode_peer_response(bytes_mut_contents(*old(bs))),
{
    let mut lines = match frame_lines(bs) {
        Ok(l) => l,
        Err(e) => return Err(e),
    };
    let ghost all = lines.remaining();
    let peer = match decode_peer(&mut lines) {
        Ok(peer) => peer,
        Err(e) => return Err(e),
    };
    let status_text = match next_line(&mut lines, 'R', "expected status") {
        Ok(l) => l,
        Err(e) => {
            proof {
                assert(tagged_line(all, 3, 'R') == tagged_line(all.skip(3), 0, 'R'));
            }
            return Err(e);
        },
    };
    proof {
        assert(tagged_line(all, 3, 'R') == tagged_line(all.skip(3), 0, 'R'));
    }
    let status = if is_single_char(status_text, '+') {
        ResStatus::Accept
    } else if is_single_char(status_text, '-') {
        ResStatus::Reject
    } else {
        return Err(invalid_value("bad status"));
    };
    Ok(DiaReq::PairRes(peer, status))
}

/// Decodes a file offer body.
pub fn decode_file_offer(bs: &mut BytesMut) -> (r: Result<DiaReq, AppError>)
    ensures
        bytes_mut_contents(*final(bs)) == bytes_mut_contents(*old(bs)),
        view_result(r) == spec_decode_file_offer(bytes_mut_contents(*old(bs))),
{
    let mut lines = match frame_lines(bs) {
        Ok(l) => l,
        Err(e) => return Err(e),
    };
    let ghost all = lines.remaining();
    let peer = match decode_peer(&mut lines) {
        Ok(peer) => peer,
        Err(e) => return Err(e),
    };
    proof {
        assert(tagged_line(all, 3, 'L') == tagged_line(all.skip(3), 0, 'L'));
    }
    let name = match next_line(&mut lines, 'L', "expected file name") {
        Ok(l) => l.to_owned(),
        Err(e) => return Err(e),
    };
    proof {
        assert(all.skip(3).drop_first() =~= all.skip(4));
        assert(tagged_line(all, 4, 'S') == tagged_line(all.skip(4), 0, 'S'));
    }
    let size_text = match next_line(&mut lines, 'S', "expected file size") {
        Ok(l) => l,
        Err(e) => return Err(e),
    };
    let size = match parse_u64(size_text) {
        Some(n) => n,
        None => return Err(invalid_value("bad file size")),
    };
    Ok(DiaReq::FileOffer(peer, name, size))
}

/// Reads the peer from the next three lines.
fn decode_peer(lines: &mut Lines) -> (r: Result<Peer, AppError>)
    requires
        old(lines).wf(),
    ensures
        final(lines).wf(),
        view_result(r) == spec_decode_peer(old(lines).remaining()),
        r is Ok ==> final(lines).remaining() == old(lines).remaining().skip(3),
{
    let ghost all = lines.remaining();
    let id = match next_line(lines, 'I', "expectedid") {
        Ok(l) => l,
        Err(e) => return Err(e),
    };
    proof {
        assert(tagged_line(all, 1, 'N') == tagged_line(all.drop_first(), 0, 'N'));
    }
    let name = match next_line(lines, 'N', "expected name") {
        Ok(l) => l,
        Err(e) => return Err(e),
    };
    proof {
        assert(all.drop_first().drop_first() =~= all.skip(2));
        assert(tagged_line(all, 2, 'P') == tagged_line(all.skip(2), 0, 'P'));
    }
    let ip = match next_line(lines, 'P', "expected ip") {
        Ok(l) => l,
        Err(e) => return Err(e),
    };
    proof {
        assert(all.skip(2).drop_first() =~= all.skip(3));
    }
    Ok(Peer::new(id, name, ip))
}

/// Takes the next line, which must start with `prefix`, and returns the rest of it.
fn next_line<'a>(lines: &mut Lines<'a>, prefix: char, err: &str) -> (r: Result<&'a str, AppError>)
    requires
        old(lines).wf(),
    ensures
        final(lines).wf(),
        old(lines).remaining().len() > 0 ==> final(lines).remaining()
            == old(lines).remaining().drop_first(),
        match r {
            Ok(l) => tagged_line(old(lines).remaining(), 0, prefix) == Some(l@),
            Err(e) => tagged_line(old(lines).remaining(), 0, prefix) is None && e@ == invalid(
                err@,
            ),
        },
{
    match lines.next() {
        Some(l) => {
            let len = l.unicode_len();
            if len > 0 && l.get_char(0) == prefix {
                let rest = l.substring_char(1, len);
                proof {
                    assert(rest@ =~= l@.drop_first());
                }
                Ok(rest)
            } else {
                Err(invalid_value(err))
            }
        },
        None => Err(invalid_value(err)),
    }
}

/// The text is exactly the one character `c`.
fn is_single_char(s: &str, c: char) -> (b: bool)
    ensures
        b == (s@ == seq![c]),
{
    let len = s.unicode_len();
    if len == 1 && s.get_char(0) == c {
        assert(s@ =~= seq![c]);
        true
    } else {
        proof {
            if s@ == seq![c] {
                assert(s@[0] == c);
            }
        }
        false
    }
}

} // verus!
