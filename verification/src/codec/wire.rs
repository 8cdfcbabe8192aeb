//! The frames on the wire, character by character: what each message is
//! encoded as, and what each such text decodes to.
use vstd::prelude::*;
use vstd::utf8::encode_utf8;
use vstd::utf8::encode_scalar;
use vstd::utf8::valid_utf8;

use crate::codec::decoder::spec_decode_dia_value;
use crate::codec::encoder::spec_encode;
use crate::codec::encoder::spec_encode_bytes;
use crate::codec::roundtrip::fits_frame;
use crate::codec::roundtrip::lemma_decode_encode;
use crate::errors::AppErrorView;
use crate::number::decimal;
use crate::text::crlf_free;
use crate::text::lemma_split_lines_single;
use crate::text::split_lines;
use crate::codec::decoder::body_lines;
use crate::types::DiaReqView;
use crate::types::PeerView;
use crate::types::ResStatus;

verus! {

proof fn reveal_frame_literals()
    ensures
        "%I"@ == seq!['%', 'I'],
        "(I"@ == seq!['(', 'I'],
        ")I"@ == seq![')', 'I'],
        "FI"@ == seq!['F', 'I'],
        "\r\nN"@ == seq!['\r', '\n', 'N'],
        "\r\nP"@ == seq!['\r', '\n', 'P'],
        "\r\nS"@ == seq!['\r', '\n', 'S'],
        "\r\n"@ == seq!['\r', '\n'],
        "R"@ == seq!['R'],
        "L"@ == seq!['L'],
        "+"@ == seq!['+'],
        "-"@ == seq!['-'],
{
    reveal_strlit("%I");
    reveal_strlit("(I");
    reveal_strlit(")I");
    reveal_strlit("FI");
    reveal_strlit("\r\nN");
    reveal_strlit("\r\nP");
    reveal_strlit("\r\nS");
    reveal_strlit("\r\n");
    reveal_strlit("R");
    reveal_strlit("L");
    reveal_strlit("+");
    reveal_strlit("-");
    assert("%I"@ =~= seq!['%', 'I']);
    assert("(I"@ =~= seq!['(', 'I']);
    assert(")I"@ =~= seq![')', 'I']);
    assert("FI"@ =~= seq!['F', 'I']);
    assert("\r\nN"@ =~= seq!['\r', '\n', 'N']);
    assert("\r\nP"@ =~= seq!['\r', '\n', 'P']);
    assert("\r\nS"@ =~= seq!['\r', '\n', 'S']);
    assert("\r\n"@ =~= seq!['\r', '\n']);
    assert("R"@ =~= seq!['R']);
    assert("L"@ =~= seq!['L']);
    assert("+"@ =~= seq!['+']);
    assert("-"@ =~= seq!['-']);
}

/// An announcement goes on the wire as `%I<id>\r\nN<name>\r\nP<ip>\r\n`, and
/// every such text, for any peer whose fields hold no line break, decodes to
/// the announcement of that peer.
pub proof fn lemma_announce_wire(id: Seq<char>, name: Seq<char>, ip: Seq<char>)
    ensures
        spec_encode_bytes(DiaReqView::Announce(PeerView { id, name, ip })) == encode_utf8(
            seq!['%', 'I'] + id + seq!['\r', '\n', 'N'] + name + seq!['\r', '\n', 'P'] + ip
                + seq!['\r', '\n'],
        ),
        crlf_free(id) && crlf_free(name) && crlf_free(ip) ==> spec_decode_dia_value(
            encode_utf8(
                seq!['%', 'I'] + id + seq!['\r', '\n', 'N'] + name + seq!['\r', '\n', 'P'] + ip
                    + seq!['\r', '\n'],
            ),
        ) == Ok::<DiaReqView, AppErrorView>(DiaReqView::Announce(PeerView { id, name, ip })),
{
    let v = DiaReqView::Announce(PeerView { id, name, ip });
    reveal_frame_literals();
    assert(spec_encode(v) =~= seq!['%', 'I'] + id + seq!['\r', '\n', 'N'] + name + seq![
        '\r',
        '\n',
        'P',
    ] + ip + seq!['\r', '\n']);
    if crlf_free(id) && crlf_free(name) && crlf_free(ip) {
        assert(fits_frame(v));
        lemma_decode_encode(v);
    }
}

/// A pairing request goes on the wire as `(I<id>\r\nN<name>\r\nP<ip>\r\n`, and
/// every such text, for any peer whose fields hold no line break, decodes to
/// the pairing request of that peer.
pub proof fn lemma_pair_request_wire(id: Seq<char>, name: Seq<char>, ip: Seq<char>)
    ensures
        spec_encode_bytes(DiaReqView::PairReq(PeerView { id, name, ip })) == encode_utf8(
            seq!['(', 'I'] + id + seq!['\r', '\n', 'N'] + name + seq!['\r', '\n', 'P'] + ip
                + seq!['\r', '\n'],
        ),
        crlf_free(id) && crlf_free(name) && crlf_free(ip) ==> spec_decode_dia_value(
            encode_utf8(
                seq!['(', 'I'] + id + seq!['\r', '\n', 'N'] + name + seq!['\r', '\n', 'P'] + ip
                    + seq!['\r', '\n'],
            ),
        ) == Ok::<DiaReqView, AppErrorView>(DiaReqView::PairReq(PeerView { id, name, ip })),
{
    let v = DiaReqView::PairReq(PeerView { id, name, ip });
    reveal_frame_literals();
    assert(spec_encode(v) =~= seq!['(', 'I'] + id + seq!['\r', '\n', 'N'] + name + seq![
        '\r',
        '\n',
        'P',
    ] + ip + seq!['\r', '\n']);
    if crlf_free(id) && crlf_free(name) && crlf_free(ip) {
        assert(fits_frame(v));
        lemma_decode_encode(v);
    }
}

/// A pairing response goes on the wire as
/// `)I<id>\r\nN<name>\r\nP<ip>\r\nR<sign>\r\n` with sign `+` for yes and `-`
/// for no, whatever the peer; and every such text, for any peer whose fields
/// hold no line break, decodes to the response of that peer with the status
/// that its sign gives.
pub proof fn lemma_pair_response_wire(id: Seq<char>, name: Seq<char>, ip: Seq<char>, yes: bool)
    ensures
        spec_encode_bytes(
            DiaReqView::PairRes(
                PeerView { id, name, ip },
                if yes {
                    ResStatus::Accept
                } else {
                    ResStatus::Reject
                },
            ),
        ) == encode_utf8(
            seq![')', 'I'] + id + seq!['\r', '\n', 'N'] + name + seq!['\r', '\n', 'P'] + ip
                + seq![
                '\r',
                '\n',
                'R',
                if yes {
                    '+'
                } else {
                    '-'
                },
                '\r',
                '\n',
            ],
        ),
        crlf_free(id) && crlf_free(name) && crlf_free(ip) ==> spec_decode_dia_value(
            encode_utf8(
                seq![')', 'I'] + id + seq!['\r', '\n', 'N'] + name + seq!['\r', '\n', 'P'] + ip
                    + seq![
                    '\r',
                    '\n',
                    'R',
                    if yes {
                        '+'
                    } else {
                        '-'
                    },
                    '\r',
                    '\n',
                ],
            ),
        ) == Ok::<DiaReqView, AppErrorView>(
            DiaReqView::PairRes(
                PeerView { id, name, ip },
                if yes {
                    ResStatus::Accept
                } else {
                    ResStatus::Reject
                },
            ),
        ),
{
    let s = if yes {
        ResStatus::Accept
    } else {
        ResStatus::Reject
    };
    let sign = if yes {
        '+'
    } else {
        '-'
    };
    let v = DiaReqView::PairRes(PeerView { id, name, ip }, s);
    reveal_frame_literals();
    assert(spec_encode(v) =~= seq![')', 'I'] + id + seq!['\r', '\n', 'N'] + name + seq![
        '\r',
        '\n',
        'P',
    ] + ip + seq!['\r', '\n', 'R', sign, '\r', '\n']);
    if crlf_free(id) && crlf_free(name) && crlf_free(ip) {
        assert(fits_frame(v));
        lemma_decode_encode(v);
    }
}

/// A file offer goes on the wire as
/// `FI<id>\r\nN<name>\r\nP<ip>\r\nL<file name>\r\nS<size in decimal>\r\n`, the
/// file name written unchanged; and every such text, for any peer and file
/// name that hold no line break, decodes to the offer of that very file name
/// and size.
pub proof fn lemma_file_offer_wire(
    id: Seq<char>,
    name: Seq<char>,
    ip: Seq<char>,
    file: Seq<char>,
    size: u64,
)
    ensures
        spec_encode_bytes(DiaReqView::FileOffer(PeerView { id, name, ip }, file, size))
            == encode_utf8(
            seq!['F', 'I'] + id + seq!['\r', '\n', 'N'] + name + seq!['\r', '\n', 'P'] + ip
                + seq!['\r', '\n', 'L'] + file + seq!['\r', '\n', 'S'] + decimal(size as nat)
                + seq!['\r', '\n'],
        ),
        crlf_free(id) && crlf_free(name) && crlf_free(ip) && crlf_free(file)
            ==> spec_decode_dia_value(
            encode_utf8(
                seq!['F', 'I'] + id + seq!['\r', '\n', 'N'] + name + seq!['\r', '\n', 'P'] + ip
                    + seq!['\r', '\n', 'L'] + file + seq!['\r', '\n', 'S'] + decimal(size as nat)
                    + seq!['\r', '\n'],
            ),
        ) == Ok::<DiaReqView, AppErrorView>(
            DiaReqView::FileOffer(PeerView { id, name, ip }, file, size),
        ),
{
    let v = DiaReqView::FileOffer(PeerView { id, name, ip }, file, size);
    reveal_frame_literals();
    assert(spec_encode(v) =~= seq!['F', 'I'] + id + seq!['\r', '\n', 'N'] + name + seq![
        '\r',
        '\n',
        'P',
    ] + ip + seq!['\r', '\n', 'L'] + file + seq!['\r', '\n', 'S'] + decimal(size as nat) + seq![
        '\r',
        '\n',
    ]);
    if crlf_free(id) && crlf_free(name) && crlf_free(ip) && crlf_free(file) {
        assert(fits_frame(v));
        lemma_decode_encode(v);
    }
}

/// An error report goes on the wire as `-<message>\r\n`.
pub proof fn lemma_error_wire(msg: Seq<char>)
    ensures
        spec_encode_bytes(DiaReqView::Error(msg)) == encode_utf8(
            seq!['-'] + msg + seq!['\r', '\n'],
        ),
{
    reveal_frame_literals();
    assert(spec_encode(DiaReqView::Error(msg)) =~= seq!['-'] + msg + seq!['\r', '\n']);
}

/// What decoding refuses: an empty frame is incomplete; a kind byte other
/// than `%`, `(`, `)` and `F` is reported with its value in decimal; a body
/// that is not UTF-8 is reported as such; and a peer frame that stops after
/// its id line is reported as missing the name.
pub proof fn lemma_decode_refusals(b: u8, body: Seq<u8>, id: Seq<char>)
    ensures
        spec_decode_dia_value(Seq::empty()) == Err::<DiaReqView, AppErrorView>(
            AppErrorView::Incomplete,
        ),
        !(b == 37 || b == 40 || b == 41 || b == 70) ==> spec_decode_dia_value(seq![b] + body)
            == Err::<DiaReqView, AppErrorView>(
            AppErrorView::InvalidDianemoValue("unknown dia type: "@ + decimal(b as nat)),
        ),
        (b == 37 || b == 40 || b == 41 || b == 70) && !valid_utf8(body) ==> spec_decode_dia_value(
            seq![b] + body,
        ) == Err::<DiaReqView, AppErrorView>(AppErrorView::InvalidDianemoValue("invalid ut8"@)),
        crlf_free(seq!['I'] + id) ==> spec_decode_dia_value(encode_utf8(seq!['%', 'I'] + id))
            == Err::<DiaReqView, AppErrorView>(AppErrorView::InvalidDianemoValue("expected name"@)),
{
    let f = seq![b] + body;
    assert(f[0] == b);
    assert(f.drop_first() =~= body);
    if crlf_free(seq!['I'] + id) {
        let t = seq!['%', 'I'] + id;
        assert(t =~= seq!['%'] + (seq!['I'] + id));
        assert(encode_utf8(t) == encode_scalar(t[0] as u32) + encode_utf8(t.drop_first()));
        let u = '%' as u32;
        assert((u & 0x7F) as u8 == u as u8) by (bit_vector)
            requires
                u <= 0x7F,
        ;
        assert(encode_scalar(u) == seq![u as u8]);
        assert(t.drop_first() =~= seq!['I'] + id);
        assert(encode_utf8(t).drop_first() =~= encode_utf8(seq!['I'] + id));
        vstd::utf8::encode_utf8_valid_utf8(seq!['I'] + id);
        vstd::utf8::encode_utf8_decode_utf8(seq!['I'] + id);
        lemma_split_lines_single(seq!['I'] + id);
        let lines = split_lines(seq!['I'] + id);
        assert(body_lines(encode_utf8(t).drop_first()) == Ok::<Seq<Seq<char>>, AppErrorView>(lines));
        assert(lines[0].drop_first() =~= id);
    }
}

} // verus!
