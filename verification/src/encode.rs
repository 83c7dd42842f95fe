//! Packet encoder: renders a structured OSC packet as wire bytes.
//!
//! `ser_packet` states the encoding as mathematics; `encode` produces
//! exactly those bytes. Together with the decoder's grammar this yields the
//! round-trip law: decoding the encoding of any well-formed packet gives
//! the packet back (`lemma_parse_ser_packet`).

use vstd::prelude::*;

use crate::codec::{
    align4, all_zero, as_i32, be32_at, is_bundle_at, nul_scan, parse_args, parse_elems,
    parse_message, parse_packet, parse_packet_at, parse_str, parse_value, packet_model,
    packets_view, values_view, OscPacket, OscValue, PacketModel, ValueModel,
};

verus! {

/// `n` zero bytes.
pub open spec fn zero_bytes(n: int) -> Seq<u8> {
    Seq::new(n as nat, |i: int| 0u8)
}

/// The four big-endian bytes of a word value in `[0, 2^32)`.
pub open spec fn ser_u32(v: int) -> Seq<u8> {
    seq![
        ((v / 0x100_0000) % 0x100) as u8,
        ((v / 0x1_0000) % 0x100) as u8,
        ((v / 0x100) % 0x100) as u8,
        (v % 0x100) as u8,
    ]
}

/// An OSC string on the wire: the content, a NUL, and zero padding out to
/// a four-byte boundary.
pub open spec fn ser_str(s: Seq<u8>) -> Seq<u8> {
    s + zero_bytes(align4(s.len() as int + 1) - s.len())
}

/// The type tag byte of a value.
pub open spec fn tag_of(v: ValueModel) -> u8 {
    match v {
        ValueModel::Float(_) => 0x66,
        ValueModel::Int(_) => 0x69,
        ValueModel::Str(_) => 0x73,
        ValueModel::Blob(_) => 0x62,
    }
}

/// The type tag string of an argument list: a comma, then one tag each.
pub open spec fn tags_of(args: Seq<ValueModel>) -> Seq<u8> {
    seq![0x2cu8] + args.map(|i: int, v: ValueModel| tag_of(v))
}

/// The unsigned word carrying a signed 32-bit value.
pub open spec fn from_i32(x: i32) -> int {
    if x >= 0 {
        x as int
    } else {
        x + 0x1_0000_0000
    }
}

/// One argument on the wire.
pub open spec fn ser_value(v: ValueModel) -> Seq<u8> {
    match v {
        ValueModel::Float(w) => ser_u32(w as int),
        ValueModel::Int(x) => ser_u32(from_i32(x)),
        ValueModel::Str(s) => ser_str(s),
        ValueModel::Blob(d) => ser_u32(d.len() as int) + d + zero_bytes(
            align4(d.len() as int) - d.len(),
        ),
    }
}

/// The arguments on the wire, in order.
pub open spec fn ser_args(args: Seq<ValueModel>) -> Seq<u8>
    decreases args.len(),
{
    if args.len() == 0 {
        Seq::empty()
    } else {
        ser_value(args[0]) + ser_args(args.subrange(1, args.len() as int))
    }
}

/// The eight bundle header bytes `#bundle\0`.
pub open spec fn bundle_header() -> Seq<u8> {
    seq![0x23u8, 0x62u8, 0x75u8, 0x6eu8, 0x64u8, 0x6cu8, 0x65u8, 0x00u8]
}

/// A packet on the wire.
pub open spec fn ser_packet(p: PacketModel) -> Seq<u8>
    decreases p, 1int,
{
    match p {
        PacketModel::Message { addr, args } => ser_str(addr) + ser_str(tags_of(args)) + ser_args(
            args,
        ),
        PacketModel::Bundle { seconds, fractional, elements } => bundle_header() + ser_u32(
            seconds as int,
        ) + ser_u32(fractional as int) + ser_elems(elements),
    }
}

/// Size-prefixed bundle elements on the wire.
pub open spec fn ser_elems(es: Seq<PacketModel>) -> Seq<u8>
    decreases es, 0int,
{
    if es.len() == 0 {
        Seq::empty()
    } else {
        ser_u32(ser_packet(es[0]).len() as int) + ser_packet(es[0]) + ser_elems(
            es.subrange(1, es.len() as int),
        )
    }
}

/// A value the wire format can carry faithfully: string content has no NUL
/// bytes, and lengths leave room for framing.
pub open spec fn wf_value(v: ValueModel) -> bool {
    match v {
        ValueModel::Float(_) => true,
        ValueModel::Int(_) => true,
        ValueModel::Str(s) => s.len() < 0x7fff_ffff && (forall|i: int|
            0 <= i < s.len() ==> s[i] != 0),
        ValueModel::Blob(d) => d.len() < 0x7fff_ffff,
    }
}

/// A packet the wire format can carry faithfully: addresses begin with `/`
/// and have no NUL bytes, every value is well-formed, and every bundle
/// element's encoding fits its 32-bit size prefix.
pub open spec fn wf_packet(p: PacketModel) -> bool
    decreases p,
{
    match p {
        PacketModel::Message { addr, args } => {
            &&& addr.len() >= 1
            &&& addr.len() < 0x7fff_ffff
            &&& addr[0] == 0x2f
            &&& args.len() < 0x7fff_fffe
            &&& forall|i: int| 0 <= i < addr.len() ==> addr[i] != 0
            &&& forall|i: int| 0 <= i < args.len() ==> wf_value(#[trigger] args[i])
        },
        PacketModel::Bundle { elements, .. } => {
            &&& forall|i: int| 0 <= i < elements.len() ==> wf_packet(#[trigger] elements[i])
            &&& forall|i: int|
                0 <= i < elements.len() ==> ser_packet(#[trigger] elements[i]).len()
                    < 0x7fff_ffff
        },
    }
}

fn push_zeros(out: &mut Vec<u8>, n: usize)
    ensures
        final(out)@ == old(out)@ + zero_bytes(n as int),
{
    let mut k: usize = 0;
    while k < n
        invariant
            k <= n,
            out@ == old(out)@ + zero_bytes(k as int),
        decreases n - k,
    {
        out.push(0);
        proof {
            assert(old(out)@ + zero_bytes(k + 1 as int) =~= (old(out)@ + zero_bytes(k as int)).push(
                0u8,
            ));
        }
        k = k + 1;
    }
    proof {
        assert(out@ =~= old(out)@ + zero_bytes(n as int));
    }
}

fn push_u32(out: &mut Vec<u8>, v: u32)
    ensures
        final(out)@ == old(out)@ + ser_u32(v as int),
{
    out.push((v / 0x100_0000) as u8);
    out.push(((v / 0x1_0000) % 0x100) as u8);
    out.push(((v / 0x100) % 0x100) as u8);
    out.push((v % 0x100) as u8);
    proof {
        assert(v / 0x100_0000 < 0x100);
        assert(out@ =~= old(out)@ + ser_u32(v as int));
    }
}

fn push_str(out: &mut Vec<u8>, s: &Vec<u8>)
    requires
        s@.len() < 0x7fff_ffff,
    ensures
        final(out)@ == old(out)@ + ser_str(s@),
{
    let ghost pre = out@;
    let mut i: usize = 0;
    while i < s.len()
        invariant
            i <= s@.len(),
            out@ == pre + s@.subrange(0, i as int),
        decreases s@.len() - i,
    {
        out.push(s[i]);
        proof {
            assert(pre + s@.subrange(0, i + 1 as int) =~= (pre + s@.subrange(0, i as int)).push(
                s@[i as int],
            ));
        }
        i = i + 1;
    }
    proof {
        assert(s@.subrange(0, s@.len() as int) =~= s@);
    }
    let rem: usize = (s.len() + 1) % 4;
    let pad: usize = if rem == 0 {
        0
    } else {
        4 - rem
    };
    push_zeros(out, 1 + pad);
    proof {
        assert(align4(s@.len() as int + 1) - s@.len() == 1 + pad);
        assert(out@ =~= old(out)@ + ser_str(s@));
    }
}

fn push_value(out: &mut Vec<u8>, v: &OscValue)
    requires
        wf_value(v@),
    ensures
        final(out)@ == old(out)@ + ser_value(v@),
{
    match v {
        OscValue::Float(w) => push_u32(out, *w),
        OscValue::Int(x) => {
            let w: u32 = if *x >= 0 {
                *x as u32
            } else {
                let d: i32 = *x - i32::MIN;
                (d as u32) + 0x8000_0000
            };
            assert(w as int == from_i32(x@));
            push_u32(out, w);
        },
        OscValue::Str(s) => push_str(out, s),
        OscValue::Blob(d) => {
            let ghost pre = out@;
            push_u32(out, d.len() as u32);
            let mut i: usize = 0;
            while i < d.len()
                invariant
                    i <= d@.len(),
                    out@ == pre + ser_u32(d@.len() as int) + d@.subrange(0, i as int),
                decreases d@.len() - i,
            {
                out.push(d[i]);
                proof {
                    assert(pre + ser_u32(d@.len() as int) + d@.subrange(0, i + 1 as int) =~= (pre
                        + ser_u32(d@.len() as int) + d@.subrange(0, i as int)).push(d@[i as int]));
                }
                i = i + 1;
            }
            let rem: usize = d.len() % 4;
            let pad: usize = if rem == 0 {
                0
            } else {
                4 - rem
            };
            push_zeros(out, pad);
            proof {
                assert(d@.subrange(0, d@.len() as int) =~= d@);
                assert(align4(d@.len() as int) - d@.len() == pad);
                assert(out@ =~= old(out)@ + ser_value(v@));
            }
        },
    }
}

fn push_args(out: &mut Vec<u8>, args: &Vec<OscValue>, i: usize)
    requires
        i <= args@.len(),
        forall|j: int| 0 <= j < args@.len() ==> wf_value(#[trigger] args@[j]@),
    ensures
        final(out)@ == old(out)@ + ser_args(values_view(args@).subrange(i as int, args@.len() as int)),
    decreases args@.len() - i,
{
    if i < args.len() {
        push_value(out, &args[i]);
        push_args(out, args, i + 1);
        proof {
            let vv = values_view(args@);
            let tail = vv.subrange(i as int, args@.len() as int);
            assert(tail[0] == args@[i as int]@);
            assert(tail.subrange(1, tail.len() as int) =~= vv.subrange(
                i + 1 as int,
                args@.len() as int,
            ));
            assert(out@ =~= old(out)@ + ser_args(tail));
        }
    } else {
        proof {
            assert(values_view(args@).subrange(i as int, args@.len() as int) =~= Seq::<
                ValueModel,
            >::empty());
        }
    }
}

fn tag_byte(v: &OscValue) -> (r: u8)
    ensures
        r == tag_of(v@),
{
    match v {
        OscValue::Float(_) => 0x66,
        OscValue::Int(_) => 0x69,
        OscValue::Str(_) => 0x73,
        OscValue::Blob(_) => 0x62,
    }
}

fn push_packet(out: &mut Vec<u8>, p: &OscPacket)
    requires
        wf_packet(p@),
    ensures
        final(out)@ == old(out)@ + ser_packet(p@),
    decreases *p, 0int,
{
    match p {
        OscPacket::Message(m) => {
            let ghost pre = out@;
            push_str(out, &m.addr);
            let mut tags: Vec<u8> = Vec::new();
            tags.push(0x2c);
            let mut i: usize = 0;
            while i < m.args.len()
                invariant
                    i <= m.args@.len(),
                    tags@ == seq![0x2cu8] + values_view(m.args@).subrange(0, i as int).map(
                        |k: int, v: ValueModel| tag_of(v),
                    ),
                decreases m.args@.len() - i,
            {
                let t = tag_byte(&m.args[i]);
                tags.push(t);
                proof {
                    let vv = values_view(m.args@);
                    assert(seq![0x2cu8] + vv.subrange(0, i + 1 as int).map(
                        |k: int, v: ValueModel| tag_of(v),
                    ) =~= (seq![0x2cu8] + vv.subrange(0, i as int).map(
                        |k: int, v: ValueModel| tag_of(v),
                    )).push(tag_of(m.args@[i as int]@)));
                }
                i = i + 1;
            }
            proof {
                let vv = values_view(m.args@);
                assert(vv.subrange(0, vv.len() as int) =~= vv);
                assert(tags@ =~= tags_of(vv));
                assert(tags@.len() == 1 + m.args@.len());
            }
            push_str(out, &tags);
            proof {
                assert forall|j: int| 0 <= j < m.args@.len() implies wf_value(
                    #[trigger] m.args@[j]@,
                ) by {
                    assert(values_view(m.args@)[j] == m.args@[j]@);
                    assert(wf_value(p@->Message_args[j]));
                }
            }
            push_args(out, &m.args, 0);
            proof {
                let vv = values_view(m.args@);
                assert(vv.subrange(0, m.args@.len() as int) =~= vv);
                assert(out@ =~= pre + ser_packet(p@));
            }
        },
        OscPacket::Bundle(b) => {
            let ghost pre = out@;
            out.push(0x23);
            out.push(0x62);
            out.push(0x75);
            out.push(0x6e);
            out.push(0x64);
            out.push(0x6c);
            out.push(0x65);
            out.push(0x00);
            proof {
                assert(out@ =~= pre + bundle_header());
            }
            push_u32(out, b.seconds);
            push_u32(out, b.fractional);
            proof {
                crate::codec::lemma_packets_view(b.elements@);
                let pv = packets_view(b.elements@);
                assert(p@ == PacketModel::Bundle {
                    seconds: b.seconds,
                    fractional: b.fractional,
                    elements: pv,
                });
                assert forall|j: int| 0 <= j < b.elements@.len() implies wf_packet(
                    packet_model(#[trigger] b.elements@[j]),
                ) && ser_packet(packet_model(b.elements@[j])).len() < 0x7fff_ffff by {
                    assert(pv[j] == packet_model(b.elements@[j]));
                    assert(wf_packet(p@->Bundle_elements[j]));
                    assert(ser_packet(p@->Bundle_elements[j]).len() < 0x7fff_ffff);
                }
            }
            push_elems(out, &b.elements, 0);
            proof {
                let es = packets_view(b.elements@);
                assert(es.subrange(0, es.len() as int) =~= es);
                assert(out@ =~= pre + ser_packet(p@));
            }
        },
    }
}

fn push_elems(out: &mut Vec<u8>, es: &Vec<OscPacket>, i: usize)
    requires
        i <= es@.len(),
        forall|j: int| 0 <= j < es@.len() ==> wf_packet(packet_model(#[trigger] es@[j])),
        forall|j: int|
            0 <= j < es@.len() ==> ser_packet(packet_model(#[trigger] es@[j])).len() < 0x7fff_ffff,
    ensures
        final(out)@ == old(out)@ + ser_elems(packets_view(es@).subrange(i as int, es@.len() as int)),
    decreases es@, es@.len() - i,
{
    proof {
        crate::codec::lemma_packets_view(es@);
    }
    if i < es.len() {
        let ghost pre = out@;
        let mut body: Vec<u8> = Vec::new();
        push_packet(&mut body, &es[i]);
        push_u32(out, body.len() as u32);
        let mut moved = body;
        out.append(&mut moved);
        push_elems(out, es, i + 1);
        proof {
            let pv = packets_view(es@);
            let tail = pv.subrange(i as int, es@.len() as int);
            assert(tail[0] == packet_model(es@[i as int]));
            assert(tail.subrange(1, tail.len() as int) =~= pv.subrange(
                i + 1 as int,
                es@.len() as int,
            ));
            assert(out@ =~= old(out)@ + ser_elems(tail));
        }
    } else {
        proof {
            assert(packets_view(es@).subrange(i as int, es@.len() as int) =~= Seq::<
                PacketModel,
            >::empty());
        }
    }
}

/// Encodes a packet as the raw bytes of one OSC datagram.
///
/// The bytes are exactly `ser_packet` of the packet's model, and decoding
/// them yields the packet back.
pub fn encode(p: &OscPacket) -> (r: Vec<u8>)
    requires
        wf_packet(p@),
    ensures
        r@ == ser_packet(p@),
        parse_packet(r@) == Some(p@),
{
    let mut out: Vec<u8> = Vec::new();
    push_packet(&mut out, p);
    proof {
        lemma_round_trip(p@);
    }
    out
}

proof fn points(b: Seq<u8>, pos: int, seg: Seq<u8>)
    requires
        0 <= pos,
        pos + seg.len() <= b.len(),
        b.subrange(pos, pos + seg.len() as int) == seg,
    ensures
        forall|i: int| 0 <= i < seg.len() ==> b[pos + i] == seg[i],
{
    assert forall|i: int| 0 <= i < seg.len() implies b[pos + i] == seg[i] by {
        assert(b.subrange(pos, pos + seg.len() as int)[i] == b[pos + i]);
    }
}

proof fn sub_seg(b: Seq<u8>, pos: int, seg: Seq<u8>, a: int, c: int)
    requires
        0 <= pos,
        pos + seg.len() <= b.len(),
        b.subrange(pos, pos + seg.len() as int) == seg,
        0 <= a <= c <= seg.len(),
    ensures
        b.subrange(pos + a, pos + c) == seg.subrange(a, c),
{
    points(b, pos, seg);
    assert(b.subrange(pos + a, pos + c) =~= seg.subrange(a, c));
}

proof fn lemma_be32_ser(b: Seq<u8>, pos: int, v: int)
    requires
        0 <= pos,
        pos + 4 <= b.len(),
        0 <= v < 0x1_0000_0000,
        b.subrange(pos, pos + 4) == ser_u32(v),
    ensures
        be32_at(b, pos) == v,
{
    points(b, pos, ser_u32(v));
    assert(b[pos] as int == (v / 0x100_0000) % 0x100);
    assert(b[pos + 1] as int == (v / 0x1_0000) % 0x100);
    assert(b[pos + 2] as int == (v / 0x100) % 0x100);
    assert(b[pos + 3] as int == v % 0x100);
    assert(((v / 0x100_0000) % 0x100) * 0x100_0000 + ((v / 0x1_0000) % 0x100) * 0x1_0000 + ((v
        / 0x100) % 0x100) * 0x100 + v % 0x100 == v) by (nonlinear_arith)
        requires
            0 <= v < 0x1_0000_0000,
    ;
}

proof fn lemma_nul_scan_ser(b: Seq<u8>, pos: int, end: int, s: Seq<u8>)
    requires
        0 <= pos,
        end <= b.len(),
        pos + s.len() < end,
        forall|i: int| 0 <= i < s.len() ==> s[i] != 0,
        forall|i: int| 0 <= i < s.len() ==> b[pos + i] == s[i],
        b[pos + s.len()] == 0,
    ensures
        nul_scan(b, pos, end) == Some(pos + s.len()),
    decreases s.len(),
{
    if s.len() == 0 {
        assert(b[pos] == 0);
    } else {
        assert(b[pos] == s[0]);
        let t = s.subrange(1, s.len() as int);
        assert(forall|i: int| 0 <= i < t.len() ==> t[i] != 0);
        assert forall|i: int| 0 <= i < t.len() implies b[pos + 1 + i] == t[i] by {
            assert(s[i + 1] == t[i]);
            assert(b[pos + (i + 1)] == s[i + 1]);
        }
        assert(b[pos + 1 + t.len()] == 0);
        lemma_nul_scan_ser(b, pos + 1, end, t);
    }
}

proof fn lemma_parse_str_ser(b: Seq<u8>, pos: int, end: int, s: Seq<u8>)
    requires
        0 <= pos <= end <= b.len(),
        s.len() < 0x7fff_ffff,
        forall|i: int| 0 <= i < s.len() ==> s[i] != 0,
        pos + ser_str(s).len() <= end,
        b.subrange(pos, pos + ser_str(s).len() as int) == ser_str(s),
    ensures
        parse_str(b, pos, end) == Some((s, pos + ser_str(s).len())),
{
    let seg = ser_str(s);
    let l = seg.len() as int;
    points(b, pos, seg);
    assert(l == align4(s.len() as int + 1));
    assert forall|i: int| 0 <= i < s.len() implies b[pos + i] == s[i] by {
        assert(seg[i] == s[i]);
    }
    assert(seg[s.len() as int] == 0);
    assert(b[pos + s.len()] == 0);
    lemma_nul_scan_ser(b, pos, end, s);
    let z = pos + s.len();
    assert(nul_scan(b, pos, end) == Some(z));
    let stop = pos + align4(z - pos + 1);
    assert(stop == pos + l);
    assert forall|i: int| z <= i < stop implies b[i] == 0 by {
        let k = i - pos;
        assert(s.len() <= k < l);
        assert(seg[k] == 0);
        assert(b[pos + k] == 0);
    }
    assert(all_zero(b, z, stop));
    assert(b.subrange(pos, z) =~= s);
}

proof fn lemma_parse_value_ser(b: Seq<u8>, pos: int, end: int, v: ValueModel)
    requires
        0 <= pos <= end <= b.len(),
        wf_value(v),
        pos + ser_value(v).len() <= end,
        b.subrange(pos, pos + ser_value(v).len() as int) == ser_value(v),
    ensures
        parse_value(b, pos, end, tag_of(v)) == Some((v, pos + ser_value(v).len())),
{
    let seg = ser_value(v);
    match v {
        ValueModel::Float(w) => {
            lemma_be32_ser(b, pos, w as int);
        },
        ValueModel::Int(x) => {
            lemma_be32_ser(b, pos, from_i32(x));
            assert(as_i32(from_i32(x)) == x);
        },
        ValueModel::Str(s) => {
            lemma_parse_str_ser(b, pos, end, s);
        },
        ValueModel::Blob(d) => {
            let n = d.len() as int;
            assert(seg.subrange(0, 4) =~= ser_u32(n));
            sub_seg(b, pos, seg, 0, 4);
            lemma_be32_ser(b, pos, n);
            assert(be32_at(b, pos) == n);
            points(b, pos, seg);
            let stop = pos + 4 + align4(n);
            assert(stop == pos + seg.len());
            assert forall|i: int| pos + 4 + n <= i < stop implies b[i] == 0 by {
                let k = i - pos;
                assert(4 + n <= k < seg.len());
                assert(seg[k] == 0);
                assert(b[pos + k] == 0);
            }
            assert(all_zero(b, pos + 4 + n, stop));
            assert forall|i: int| 0 <= i < n implies b[pos + 4 + i] == d[i] by {
                assert(seg[4 + i] == d[i]);
                assert(b[pos + (4 + i)] == seg[4 + i]);
            }
            assert(b.subrange(pos + 4, pos + 4 + n) =~= d);
        },
    }
}

proof fn lemma_parse_args_ser(b: Seq<u8>, pos: int, end: int, args: Seq<ValueModel>, k: int)
    requires
        0 <= pos <= end <= b.len(),
        0 <= k <= args.len(),
        args.len() < 0x7fff_fffe,
        forall|i: int| 0 <= i < args.len() ==> wf_value(#[trigger] args[i]),
        pos + ser_args(args.subrange(k, args.len() as int)).len() <= end,
        b.subrange(pos, pos + ser_args(args.subrange(k, args.len() as int)).len() as int)
            == ser_args(args.subrange(k, args.len() as int)),
    ensures
        parse_args(b, pos, end, tags_of(args), k + 1) == Some(
            (
                args.subrange(k, args.len() as int),
                pos + ser_args(args.subrange(k, args.len() as int)).len(),
            ),
        ),
    decreases args.len() - k,
{
    let suf = args.subrange(k, args.len() as int);
    let seg = ser_args(suf);
    let tags = tags_of(args);
    assert(tags.len() == 1 + args.len());
    if k == args.len() {
        assert(suf.len() == 0);
        assert(seg.len() == 0);
        assert(suf =~= Seq::<ValueModel>::empty());
    } else {
        let v = args[k];
        assert(suf[0] == v);
        assert(wf_value(v));
        assert(tags[k + 1] == tag_of(v));
        let lv = ser_value(v).len() as int;
        let rest = suf.subrange(1, suf.len() as int);
        assert(rest =~= args.subrange(k + 1, args.len() as int));
        assert(seg =~= ser_value(v) + ser_args(rest));
        assert(seg.subrange(0, lv) =~= ser_value(v));
        sub_seg(b, pos, seg, 0, lv);
        lemma_parse_value_ser(b, pos, end, v);
        let p2 = pos + lv;
        assert(seg.subrange(lv, seg.len() as int) =~= ser_args(rest));
        sub_seg(b, pos, seg, lv, seg.len() as int);
        lemma_parse_args_ser(b, p2, end, args, k + 1);
        assert(seq![v] + rest =~= suf);
        assert(p2 + ser_args(rest).len() == pos + seg.len());
    }
}

proof fn lemma_tags_wf(args: Seq<ValueModel>)
    requires
        args.len() < 0x7fff_fffe,
    ensures
        tags_of(args).len() == 1 + args.len(),
        tags_of(args).len() < 0x7fff_ffff,
        tags_of(args)[0] == 0x2c,
        forall|i: int| 0 <= i < tags_of(args).len() ==> tags_of(args)[i] != 0,
{
    let tags = tags_of(args);
    assert forall|i: int| 0 <= i < tags.len() implies tags[i] != 0 by {
        if i == 0 {
            assert(tags[0] == 0x2c);
        } else {
            assert(tags[i] == tag_of(args[i - 1]));
            match args[i - 1] {
                ValueModel::Float(_) => {},
                ValueModel::Int(_) => {},
                ValueModel::Str(_) => {},
                ValueModel::Blob(_) => {},
            }
        }
    }
}

proof fn lemma_parse_message_ser(b: Seq<u8>, pos: int, end: int, p: PacketModel)
    requires
        0 <= pos <= end <= b.len(),
        p is Message,
        wf_packet(p),
        pos + ser_packet(p).len() == end,
        b.subrange(pos, end) == ser_packet(p),
    ensures
        parse_packet_at(b, pos, end) == Some(p),
{
    let addr = p->Message_addr;
    let args = p->Message_args;
    let seg = ser_packet(p);
    let tags = tags_of(args);
    lemma_tags_wf(args);
    let l1 = ser_str(addr).len() as int;
    let l2 = ser_str(tags).len() as int;
    let l3 = ser_args(args).len() as int;
    assert(seg =~= ser_str(addr) + ser_str(tags) + ser_args(args));
    assert(seg.len() == l1 + l2 + l3);
    assert(seg.subrange(0, l1) =~= ser_str(addr));
    sub_seg(b, pos, seg, 0, l1);
    lemma_parse_str_ser(b, pos, end, addr);
    let p1 = pos + l1;
    assert(seg.subrange(l1, l1 + l2) =~= ser_str(tags));
    sub_seg(b, pos, seg, l1, l1 + l2);
    lemma_parse_str_ser(b, p1, end, tags);
    let p2 = p1 + l2;
    assert(seg.subrange(l1 + l2, seg.len() as int) =~= ser_args(args));
    sub_seg(b, pos, seg, l1 + l2, seg.len() as int);
    assert(args.subrange(0, args.len() as int) =~= args);
    lemma_parse_args_ser(b, p2, end, args, 0);
    assert(parse_args(b, p2, end, tags, 1) == Some((args, p2 + l3)));
    assert(p2 + l3 == end);
    points(b, pos, seg);
    assert(ser_str(addr)[0] == addr[0]);
    assert(b[pos] == 0x2f);
    assert(!is_bundle_at(b, pos, end));
    assert(parse_message(b, pos, end) == Some(p));
}

proof fn lemma_parse_elems_ser(b: Seq<u8>, pos: int, end: int, es: Seq<PacketModel>)
    requires
        0 <= pos <= end <= b.len(),
        forall|i: int| 0 <= i < es.len() ==> wf_packet(#[trigger] es[i]),
        forall|i: int| 0 <= i < es.len() ==> ser_packet(#[trigger] es[i]).len() < 0x7fff_ffff,
        pos + ser_elems(es).len() == end,
        b.subrange(pos, end) == ser_elems(es),
    ensures
        parse_elems(b, pos, end) == Some(es),
    decreases es, 0int,
{
    let seg = ser_elems(es);
    if es.len() == 0 {
        assert(pos == end);
        assert(es =~= Seq::<PacketModel>::empty());
    } else {
        let head = es[0];
        let body = ser_packet(head);
        let m = body.len() as int;
        let rest = es.subrange(1, es.len() as int);
        assert(seg =~= ser_u32(m) + body + ser_elems(rest));
        assert(seg.len() == 4 + m + ser_elems(rest).len());
        assert(pos + 4 <= end);
        assert(seg.subrange(0, 4) =~= ser_u32(m));
        sub_seg(b, pos, seg, 0, 4);
        lemma_be32_ser(b, pos, m);
        assert(seg.subrange(4, 4 + m) =~= body);
        sub_seg(b, pos, seg, 4, 4 + m);
        lemma_parse_ser_packet(b, pos + 4, pos + 4 + m, head);
        assert(seg.subrange(4 + m, seg.len() as int) =~= ser_elems(rest));
        sub_seg(b, pos, seg, 4 + m, seg.len() as int);
        assert forall|i: int| 0 <= i < rest.len() implies wf_packet(#[trigger] rest[i])
            && ser_packet(rest[i]).len() < 0x7fff_ffff by {
            assert(rest[i] == es[i + 1]);
            assert(wf_packet(es[i + 1]));
            assert(ser_packet(es[i + 1]).len() < 0x7fff_ffff);
        }
        lemma_parse_elems_ser(b, pos + 4 + m, end, rest);
        assert(seq![head] + rest =~= es);
    }
}

#[verifier::rlimit(80)]
proof fn lemma_parse_ser_packet(b: Seq<u8>, pos: int, end: int, p: PacketModel)
    requires
        0 <= pos <= end <= b.len(),
        wf_packet(p),
        pos + ser_packet(p).len() == end,
        b.subrange(pos, end) == ser_packet(p),
    ensures
        parse_packet_at(b, pos, end) == Some(p),
    decreases p, 1int,
{
    match p {
        PacketModel::Message { .. } => {
            lemma_parse_message_ser(b, pos, end, p);
        },
        PacketModel::Bundle { seconds, fractional, elements } => {
            let seg = ser_packet(p);
            assert(seg =~= bundle_header() + ser_u32(seconds as int) + ser_u32(fractional as int)
                + ser_elems(elements));
            points(b, pos, seg);
            assert(seg.len() >= 16);
            assert(seg[0] == 0x23 && seg[1] == 0x62 && seg[2] == 0x75 && seg[3] == 0x6e && seg[4]
                == 0x64 && seg[5] == 0x6c && seg[6] == 0x65 && seg[7] == 0x00);
            assert(b[pos + 0] == seg[0] && b[pos + 1] == seg[1] && b[pos + 2] == seg[2] && b[pos
                + 3] == seg[3] && b[pos + 4] == seg[4] && b[pos + 5] == seg[5] && b[pos + 6]
                == seg[6] && b[pos + 7] == seg[7]);
            assert(is_bundle_at(b, pos, end));
            assert(seg.subrange(8, 12) =~= ser_u32(seconds as int));
            sub_seg(b, pos, seg, 8, 12);
            lemma_be32_ser(b, pos + 8, seconds as int);
            assert(seg.subrange(12, 16) =~= ser_u32(fractional as int));
            sub_seg(b, pos, seg, 12, 16);
            lemma_be32_ser(b, pos + 12, fractional as int);
            assert(seg.subrange(16, seg.len() as int) =~= ser_elems(elements));
            sub_seg(b, pos, seg, 16, seg.len() as int);
            lemma_parse_elems_ser(b, pos + 16, end, elements);
        },
    }
}

/// The round-trip law: decoding the encoding of any well-formed packet
/// yields exactly that packet.
pub proof fn lemma_round_trip(p: PacketModel)
    requires
        wf_packet(p),
    ensures
        parse_packet(ser_packet(p)) == Some(p),
{
    let seg = ser_packet(p);
    assert(seg.subrange(0, seg.len() as int) =~= seg);
    lemma_parse_ser_packet(seg, 0, seg.len() as int, p);
}

} // verus!
