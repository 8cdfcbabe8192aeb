//! What decoding gives back of an encoded frame.
use vstd::prelude::*;
use vstd::utf8::decode_utf8;
use vstd::utf8::encode_scalar;
use vstd::utf8::encode_utf8;
use vstd::utf8::valid_utf8;

use crate::codec::decoder::body_lines;
use crate::codec::decoder::spec_decode_dia_value;
use crate::codec::decoder::spec_decode_peer;
use crate::codec::decoder::tagged_line;
use crate::codec::encoder::peer_text;
use crate::codec::encoder::spec_encode;
use crate::codec::encoder::spec_encode_bytes;
use crate::codec::encoder::status_text;
use crate::number::decimal;
use crate::number::is_digit;
use crate::number::lemma_decimal_digits;
use crate::number::lemma_parse_decimal;
use crate::text::crlf_free;
use crate::text::is_crlf_at;
use crate::text::lemma_split_lines_cons;
use crate::text::lemma_split_lines_empty;
use crate::text::split_lines;
use crate::types::DiaReqView;
use crate::types::PeerView;
use crate::types::ResStatus;

verus! {

broadcast use {vstd::utf8::encode_utf8_valid_utf8, vstd::utf8::encode_utf8_decode_utf8};

/// None of the peer's fields holds a line break.
pub open spec fn peer_fits_frame(p: PeerView) -> bool {
    crlf_free(p.id) && crlf_free(p.name) && crlf_free(p.ip)
}

/// A message that a frame carries faithfully: a request or answer (error
/// reports have no decoder), whose text fields hold no line break.
pub open spec fn fits_frame(v: DiaReqView) -> bool {
    match v {
        DiaReqView::Announce(p) => peer_fits_frame(p),
        DiaReqView::PairReq(p) => peer_fits_frame(p),
        DiaReqView::PairRes(p, _) => peer_fits_frame(p),
        DiaReqView::FileOffer(p, name, _) => peer_fits_frame(p) && crlf_free(name),
        DiaReqView::Error(_) => false,
    }
}

spec fn crlf() -> Seq<char> {
    seq!['\r', '\n']
}

proof fn lemma_crlf_free_tagged(c: char, x: Seq<char>)
    requires
        c != '\r',
        crlf_free(x),
    ensures
        crlf_free(seq![c] + x),
{
    let s = seq![c] + x;
    assert forall|i: int| !#[trigger] is_crlf_at(s, i) by {
        if 1 <= i && i + 1 < s.len() {
            assert(!is_crlf_at(x, i - 1));
            assert(s[i] == x[i - 1] && s[i + 1] == x[i]);
        }
    }
}

proof fn lemma_digits_crlf_free(d: Seq<char>)
    requires
        forall|i: int| 0 <= i < d.len() ==> #[trigger] is_digit(d[i]),
    ensures
        crlf_free(d),
{
    assert forall|i: int| !#[trigger] is_crlf_at(d, i) by {
        if 0 <= i < d.len() {
            assert(is_digit(d[i]));
        }
    }
}

/// The first byte of a frame is its ASCII kind character; the rest encodes the body.
proof fn lemma_frame_head(k: char, rest: Seq<char>)
    requires
        (k as u32) <= 0x7F,
    ensures
        encode_utf8(seq![k] + rest).len() > 0,
        encode_utf8(seq![k] + rest)[0] == k as u8,
        encode_utf8(seq![k] + rest).drop_first() == encode_utf8(rest),
{
    let t = seq![k] + rest;
    assert(t.drop_first() =~= rest);
    let u = k as u32;
    assert((u & 0x7F) as u8 == u as u8) by (bit_vector)
        requires
            u <= 0x7F,
    ;
    assert(encode_scalar(u) == seq![u as u8]);
    assert(encode_utf8(t) == encode_scalar(t[0] as u32) + encode_utf8(t.drop_first()));
    assert(encode_utf8(t).drop_first() =~= encode_utf8(rest));
}

/// The body after the kind character of a peer frame starts with the three peer lines.
proof fn lemma_peer_body(k: char, p: PeerView, tail: Seq<char>)
    requires
        peer_fits_frame(p),
    ensures
        split_lines((peer_text(seq![k, 'I'], p) + tail).drop_first()) == seq![
            seq!['I'] + p.id,
            seq!['N'] + p.name,
            seq!['P'] + p.ip,
        ] + split_lines(tail),
{
    reveal_strlit("\r\nN");
    reveal_strlit("\r\nP");
    reveal_strlit("\r\n");
    let l0 = seq!['I'] + p.id;
    let l1 = seq!['N'] + p.name;
    let l2 = seq!['P'] + p.ip;
    let t2 = l2 + crlf() + tail;
    let t1 = l1 + crlf() + t2;
    let t0 = l0 + crlf() + t1;
    assert((peer_text(seq![k, 'I'], p) + tail).drop_first() =~= t0);
    lemma_crlf_free_tagged('I', p.id);
    lemma_crlf_free_tagged('N', p.name);
    lemma_crlf_free_tagged('P', p.ip);
    lemma_split_lines_cons(l2, tail);
    lemma_split_lines_cons(l1, t2);
    lemma_split_lines_cons(l0, t1);
    assert(split_lines(t0) =~= seq![l0, l1, l2] + split_lines(tail));
}

/// Decoding the lines of a peer frame gives the peer back.
proof fn lemma_decode_peer_lines(p: PeerView, more: Seq<Seq<char>>)
    ensures
        spec_decode_peer(seq![seq!['I'] + p.id, seq!['N'] + p.name, seq!['P'] + p.ip] + more)
            == Ok::<PeerView, crate::errors::AppErrorView>(p),
{
    let lines = seq![seq!['I'] + p.id, seq!['N'] + p.name, seq!['P'] + p.ip] + more;
    assert(lines[0].drop_first() =~= p.id);
    assert(lines[1].drop_first() =~= p.name);
    assert(lines[2].drop_first() =~= p.ip);
}

/// The frame of a message: its kind byte, then a UTF-8 body whose lines are
/// the lines of the text after the kind character.
proof fn lemma_frame_lines(v: DiaReqView, k: char)
    requires
        spec_encode(v).len() > 0,
        spec_encode(v)[0] == k,
        (k as u32) <= 0x7F,
    ensures
        spec_encode_bytes(v).len() > 0,
        spec_encode_bytes(v)[0] == k as u8,
        body_lines(spec_encode_bytes(v).drop_first()) == Ok::<
            Seq<Seq<char>>,
            crate::errors::AppErrorView,
        >(split_lines(spec_encode(v).drop_first())),
{
    let t = spec_encode(v);
    assert(t =~= seq![k] + t.drop_first());
    lemma_frame_head(k, t.drop_first());
    let body = spec_encode_bytes(v).drop_first();
    assert(body == encode_utf8(t.drop_first()));
    assert(valid_utf8(body));
    assert(decode_utf8(body) == t.drop_first());
}

proof fn lemma_roundtrip_announce(p: PeerView)
    requires
        peer_fits_frame(p),
    ensures
        spec_decode_dia_value(spec_encode_bytes(DiaReqView::Announce(p))) == Ok::<
            DiaReqView,
            crate::errors::AppErrorView,
        >(DiaReqView::Announce(p)),
{
    reveal_strlit("%I");
    let v = DiaReqView::Announce(p);
    let e: Seq<char> = Seq::empty();
    lemma_split_lines_empty();
    let t = spec_encode(v);
    assert(t =~= peer_text(seq!['%', 'I'], p) + e);
    lemma_frame_lines(v, '%');
    lemma_peer_body('%', p, e);
    lemma_decode_peer_lines(p, split_lines(e));
}

proof fn lemma_roundtrip_pair_req(p: PeerView)
    requires
        peer_fits_frame(p),
    ensures
        spec_decode_dia_value(spec_encode_bytes(DiaReqView::PairReq(p))) == Ok::<
            DiaReqView,
            crate::errors::AppErrorView,
        >(DiaReqView::PairReq(p)),
{
    reveal_strlit("(I");
    let v = DiaReqView::PairReq(p);
    let e: Seq<char> = Seq::empty();
    lemma_split_lines_empty();
    let t = spec_encode(v);
    assert(t =~= peer_text(seq!['(', 'I'], p) + e);
    lemma_frame_lines(v, '(');
    lemma_peer_body('(', p, e);
    lemma_decode_peer_lines(p, split_lines(e));
}

proof fn lemma_roundtrip_pair_res(p: PeerView, s: ResStatus)
    requires
        peer_fits_frame(p),
    ensures
        spec_decode_dia_value(spec_encode_bytes(DiaReqView::PairRes(p, s))) == Ok::<
            DiaReqView,
            crate::errors::AppErrorView,
        >(DiaReqView::PairRes(p, s)),
{
    reveal_strlit(")I");
    reveal_strlit("\r\n");
    reveal_strlit("R");
    reveal_strlit("+");
    reveal_strlit("-");
    let v = DiaReqView::PairRes(p, s);
    let e: Seq<char> = Seq::empty();
    lemma_split_lines_empty();
    let t = spec_encode(v);
    let sign = status_text(s);
    let ls = seq!['R'] + sign;
    let tail = ls + crlf() + e;
    assert(t =~= peer_text(seq![')', 'I'], p) + tail);
    lemma_frame_lines(v, ')');
    lemma_peer_body(')', p, tail);
    assert(crlf_free(ls)) by {
        assert forall|i: int| !#[trigger] is_crlf_at(ls, i) by {}
    }
    lemma_split_lines_cons(ls, e);
    let more = seq![ls] + split_lines(e);
    assert(split_lines(tail) == more);
    lemma_decode_peer_lines(p, more);
    let lines = seq![seq!['I'] + p.id, seq!['N'] + p.name, seq!['P'] + p.ip] + more;
    assert(lines[3].drop_first() =~= sign);
    match s {
        ResStatus::Accept => assert(sign =~= seq!['+']),
        ResStatus::Reject => {
            assert(sign =~= seq!['-']);
            assert(seq!['+'][0] == '+');
            assert(sign != seq!['+']);
        },
    }
    assert(split_lines(t.drop_first()) == lines);
    assert(tagged_line(lines, 3, 'R') == Some(sign));
}

proof fn lemma_roundtrip_file_offer(p: PeerView, name: Seq<char>, size: u64)
    requires
        peer_fits_frame(p),
        crlf_free(name),
    ensures
        spec_decode_dia_value(spec_encode_bytes(DiaReqView::FileOffer(p, name, size))) == Ok::<
            DiaReqView,
            crate::errors::AppErrorView,
        >(DiaReqView::FileOffer(p, name, size)),
{
    reveal_strlit("FI");
    reveal_strlit("\r\n");
    reveal_strlit("\r\nS");
    reveal_strlit("L");
    let v = DiaReqView::FileOffer(p, name, size);
    let e: Seq<char> = Seq::empty();
    lemma_split_lines_empty();
    let t = spec_encode(v);
    let ln = seq!['L'] + name;
    let d = decimal(size as nat);
    let lsz = seq!['S'] + d;
    let tail = ln + crlf() + (lsz + crlf() + e);
    assert(t =~= peer_text(seq!['F', 'I'], p) + tail);
    lemma_frame_lines(v, 'F');
    lemma_peer_body('F', p, tail);
    lemma_crlf_free_tagged('L', name);
    lemma_decimal_digits(size as nat);
    lemma_digits_crlf_free(d);
    lemma_crlf_free_tagged('S', d);
    lemma_split_lines_cons(lsz, e);
    lemma_split_lines_cons(ln, lsz + crlf() + e);
    let more = seq![ln, lsz] + split_lines(e);
    assert(split_lines(tail) =~= more);
    lemma_decode_peer_lines(p, more);
    let lines = seq![seq!['I'] + p.id, seq!['N'] + p.name, seq!['P'] + p.ip] + more;
    assert(lines[3].drop_first() =~= name);
    assert(lines[4].drop_first() =~= d);
    lemma_parse_decimal(size);
}

/// Decoding the frame that encodes a message gives the message back, for every
/// message whose text fields hold no line break (error reports aside, which
/// no frame kind decodes to).
pub proof fn lemma_decode_encode(v: DiaReqView)
    requires
        fits_frame(v),
    ensures
        spec_decode_dia_value(spec_encode_bytes(v)) == Ok::<
            DiaReqView,
            crate::errors::AppErrorView,
        >(v),
{
    match v {
        DiaReqView::Announce(p) => lemma_roundtrip_announce(p),
        DiaReqView::PairReq(p) => lemma_roundtrip_pair_req(p),
        DiaReqView::PairRes(p, s) => lemma_roundtrip_pair_res(p, s),
        DiaReqView::FileOffer(p, name, size) => lemma_roundtrip_file_offer(p, name, size),
        DiaReqView::Error(_) => {},
    }
}

} // verus!
