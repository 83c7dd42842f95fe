//! Packet codec: decodes a raw byte buffer into a structured OSC packet.
//!
//! The wire format is the OSC 1.0 binary encoding: an address string and a
//! type tag string (each NUL-terminated and zero-padded to a four-byte
//! boundary), followed by the arguments in order; or a bundle, introduced by
//! the eight bytes `#bundle\0`, an eight-byte time tag, and a sequence of
//! size-prefixed packets. The spec functions in this module state that
//! grammar directly over byte sequences; `decode` is proved to return
//! exactly what the grammar admits.

use vstd::prelude::*;

verus! {

/// A structured OSC argument value.
///
/// Float arguments are carried as their raw IEEE 754 single-precision bit
/// pattern, so that all reasoning about them is exact integer reasoning.
#[derive(Clone, Debug)]
pub enum OscValue {
    /// A 32-bit float, as its IEEE 754 bit pattern.
    Float(u32),
    /// A 32-bit signed integer.
    Int(i32),
    /// An OSC string: its content bytes, without the NUL terminator.
    Str(Vec<u8>),
    /// An OSC blob: arbitrary bytes.
    Blob(Vec<u8>),
}

/// An OSC message: an address such as `/note` and its arguments.
#[derive(Clone, Debug)]
pub struct OscMessage {
    /// The address pattern, as bytes, without the NUL terminator.
    pub addr: Vec<u8>,
    /// The arguments, in wire order.
    pub args: Vec<OscValue>,
}

/// An OSC bundle: a time tag and a sequence of nested packets.
#[derive(Debug)]
pub struct OscBundle {
    /// Seconds part of the NTP-format time tag.
    pub seconds: u32,
    /// Fractional part of the NTP-format time tag.
    pub fractional: u32,
    /// The nested packets, in wire order.
    pub elements: Vec<OscPacket>,
}

/// A decoded OSC packet: a message, or a bundle of further packets.
#[derive(Debug)]
pub enum OscPacket {
    Message(OscMessage),
    Bundle(OscBundle),
}

/// The mathematical model of an argument value.
pub enum ValueModel {
    Float(u32),
    Int(i32),
    Str(Seq<u8>),
    Blob(Seq<u8>),
}

/// The mathematical model of a packet.
pub enum PacketModel {
    Message { addr: Seq<u8>, args: Seq<ValueModel> },
    Bundle { seconds: u32, fractional: u32, elements: Seq<PacketModel> },
}

impl View for OscValue {
    type V = ValueModel;

    open spec fn view(&self) -> ValueModel {
        match self {
            OscValue::Float(bits) => ValueModel::Float(*bits),
            OscValue::Int(x) => ValueModel::Int(*x),
            OscValue::Str(s) => ValueModel::Str(s@),
            OscValue::Blob(d) => ValueModel::Blob(d@),
        }
    }
}

/// The models of a sequence of argument values.
pub open spec fn values_view(s: Seq<OscValue>) -> Seq<ValueModel> {
    s.map(|i: int, v: OscValue| v@)
}

/// The model of a packet, recursively through bundles.
pub open spec fn packet_model(p: OscPacket) -> PacketModel
    decreases p,
{
    match p {
        OscPacket::Message(m) => PacketModel::Message { addr: m.addr@, args: values_view(m.args@) },
        OscPacket::Bundle(b) => PacketModel::Bundle {
            seconds: b.seconds,
            fractional: b.fractional,
            elements: packets_view(b.elements@),
        },
    }
}

/// The models of a sequence of packets.
pub open spec fn packets_view(s: Seq<OscPacket>) -> Seq<PacketModel>
    decreases s,
{
    if s.len() == 0 {
        Seq::empty()
    } else {
        seq![packet_model(s[0])] + packets_view(s.subrange(1, s.len() as int))
    }
}

impl View for OscPacket {
    type V = PacketModel;

    open spec fn view(&self) -> PacketModel {
        packet_model(*self)
    }
}

/// `packets_view` is the elementwise model map.
pub proof fn lemma_packets_view(s: Seq<OscPacket>)
    ensures
        packets_view(s).len() == s.len(),
        forall|i: int| 0 <= i < s.len() ==> packets_view(s)[i] == packet_model(s[i]),
    decreases s,
{
    if s.len() > 0 {
        lemma_packets_view(s.subrange(1, s.len() as int));
    }
}

/// Rounds a nonnegative length up to the next multiple of four.
pub open spec fn align4(n: int) -> int {
    n + ((4 - n % 4) % 4)
}

/// The big-endian 32-bit word at `pos` (requires `pos + 4 <= b.len()`).
pub open spec fn be32_at(b: Seq<u8>, pos: int) -> int {
    (b[pos] as int) * 0x100_0000 + (b[pos + 1] as int) * 0x1_0000 + (b[pos + 2] as int) * 0x100
        + (b[pos + 3] as int)
}

/// The signed reading of a 32-bit word value in `[0, 2^32)`.
pub open spec fn as_i32(v: int) -> i32 {
    if v < 0x8000_0000 {
        v as i32
    } else {
        (v - 0x1_0000_0000) as i32
    }
}

/// Position of the first NUL byte in `[pos, end)`, if any.
pub open spec fn nul_scan(b: Seq<u8>, pos: int, end: int) -> Option<int>
    decreases end - pos,
{
    if pos >= end {
        None
    } else if b[pos] == 0 {
        Some(pos)
    } else {
        nul_scan(b, pos + 1, end)
    }
}

/// All bytes in `[lo, hi)` are zero.
pub open spec fn all_zero(b: Seq<u8>, lo: int, hi: int) -> bool {
    forall|i: int| lo <= i < hi ==> b[i] == 0
}

/// Parses an OSC string at `pos`: content bytes up to a NUL, then zero
/// padding out to a four-byte boundary. Yields the content and the position
/// after the padding.
pub open spec fn parse_str(b: Seq<u8>, pos: int, end: int) -> Option<(Seq<u8>, int)> {
    match nul_scan(b, pos, end) {
        None => None,
        Some(z) => {
            let stop = pos + align4(z - pos + 1);
            if stop <= end && all_zero(b, z, stop) {
                Some((b.subrange(pos, z), stop))
            } else {
                None
            }
        },
    }
}

/// Parses one argument at `pos`, as declared by the type tag byte.
pub open spec fn parse_value(b: Seq<u8>, pos: int, end: int, tag: u8) -> Option<
    (ValueModel, int),
> {
    if tag == 0x66 {  // 'f'
        if pos + 4 <= end {
            Some((ValueModel::Float(be32_at(b, pos) as u32), pos + 4))
        } else {
            None
        }
    } else if tag == 0x69 {  // 'i'
        if pos + 4 <= end {
            Some((ValueModel::Int(as_i32(be32_at(b, pos))), pos + 4))
        } else {
            None
        }
    } else if tag == 0x73 {  // 's'
        match parse_str(b, pos, end) {
            None => None,
            Some((s, p2)) => Some((ValueModel::Str(s), p2)),
        }
    } else if tag == 0x62 {  // 'b'
        if pos + 4 <= end {
            let n = be32_at(b, pos);
            let stop = pos + 4 + align4(n);
            if stop <= end && all_zero(b, pos + 4 + n, stop) {
                Some((ValueModel::Blob(b.subrange(pos + 4, pos + 4 + n)), stop))
            } else {
                None
            }
        } else {
            None
        }
    } else {
        None
    }
}

/// Parses the arguments declared by `tags[i..]`, in order.
pub open spec fn parse_args(b: Seq<u8>, pos: int, end: int, tags: Seq<u8>, i: int) -> Option<
    (Seq<ValueModel>, int),
>
    decreases tags.len() - i,
{
    if i >= tags.len() {
        Some((Seq::empty(), pos))
    } else {
        match parse_value(b, pos, end, tags[i]) {
            None => None,
            Some((v, p2)) => match parse_args(b, p2, end, tags, i + 1) {
                None => None,
                Some((vs, p3)) => Some((seq![v] + vs, p3)),
            },
        }
    }
}

/// Parses a message filling `[pos, end)` exactly: address string, type tag
/// string beginning with a comma, then the tagged arguments.
pub open spec fn parse_message(b: Seq<u8>, pos: int, end: int) -> Option<PacketModel> {
    match parse_str(b, pos, end) {
        None => None,
        Some((addr, p1)) => match parse_str(b, p1, end) {
            None => None,
            Some((tags, p2)) => if tags.len() >= 1 && tags[0] == 0x2c {
                match parse_args(b, p2, end, tags, 1) {
                    None => None,
                    Some((args, p3)) => if p3 == end {
                        Some(PacketModel::Message { addr, args })
                    } else {
                        None
                    },
                }
            } else {
                None
            },
        },
    }
}

/// The eight bundle header bytes `#bundle\0` stand at `pos`.
pub open spec fn is_bundle_at(b: Seq<u8>, pos: int, end: int) -> bool {
    &&& pos + 8 <= end
    &&& b[pos] == 0x23
    &&& b[pos + 1] == 0x62
    &&& b[pos + 2] == 0x75
    &&& b[pos + 3] == 0x6e
    &&& b[pos + 4] == 0x64
    &&& b[pos + 5] == 0x6c
    &&& b[pos + 6] == 0x65
    &&& b[pos + 7] == 0x00
}

/// Parses one packet filling `[pos, end)` exactly.
pub open spec fn parse_packet_at(b: Seq<u8>, pos: int, end: int) -> Option<PacketModel>
    decreases end - pos, 1int,
{
    if is_bundle_at(b, pos, end) {
        if pos + 16 <= end {
            match parse_elems(b, pos + 16, end) {
                None => None,
                Some(es) => Some(
                    PacketModel::Bundle {
                        seconds: be32_at(b, pos + 8) as u32,
                        fractional: be32_at(b, pos + 12) as u32,
                        elements: es,
                    },
                ),
            }
        } else {
            None
        }
    } else {
        parse_message(b, pos, end)
    }
}

/// Parses size-prefixed bundle elements until `end` is reached exactly.
pub open spec fn parse_elems(b: Seq<u8>, pos: int, end: int) -> Option<Seq<PacketModel>>
    decreases end - pos, 0int,
{
    if pos == end {
        Some(Seq::empty())
    } else if pos + 4 <= end {
        let m = be32_at(b, pos);
        if pos + 4 + m <= end {
            match parse_packet_at(b, pos + 4, pos + 4 + m) {
                None => None,
                Some(p) => match parse_elems(b, pos + 4 + m, end) {
                    None => None,
                    Some(ps) => Some(seq![p] + ps),
                },
            }
        } else {
            None
        }
    } else {
        None
    }
}

/// The packet encoded by the whole buffer, if the buffer is well-formed.
pub open spec fn parse_packet(b: Seq<u8>) -> Option<PacketModel> {
    parse_packet_at(b, 0, b.len() as int)
}

/// A malformed buffer: truncated framing, a misaligned or unterminated
/// string, bad padding, or an unknown type tag.
#[derive(Clone, Copy, Debug, PartialEq, Eq)]
pub struct DecodeError;

fn scan_nul(b: &[u8], pos: usize, end: usize) -> (r: Option<usize>)
    requires
        pos <= end <= b@.len(),
    ensures
        ({
            let s = nul_scan(b@, pos as int, end as int);
            match r {
                Some(z) => s == Some(z as int) && pos <= z < end,
                None => s is None,
            }
        }),
    decreases end - pos,
{
    if pos >= end {
        None
    } else if *vstd::slice::slice_index_get(b, pos) == 0 {
        Some(pos)
    } else {
        scan_nul(b, pos + 1, end)
    }
}

fn zeros_upto(b: &[u8], lo: usize, hi: usize) -> (r: bool)
    requires
        lo <= hi <= b@.len(),
    ensures
        r == all_zero(b@, lo as int, hi as int),
    decreases hi - lo,
{
    if lo >= hi {
        true
    } else if *vstd::slice::slice_index_get(b, lo) != 0 {
        assert(!all_zero(b@, lo as int, hi as int));
        false
    } else {
        zeros_upto(b, lo + 1, hi)
    }
}

fn read_be32(b: &[u8], pos: usize) -> (r: u32)
    requires
        pos + 4 <= b@.len(),
    ensures
        r == be32_at(b@, pos as int),
{
    let n = b.len();
    let x0 = *vstd::slice::slice_index_get(b, pos);
    let x1 = *vstd::slice::slice_index_get(b, pos + 1);
    let x2 = *vstd::slice::slice_index_get(b, pos + 2);
    let x3 = *vstd::slice::slice_index_get(b, pos + 3);
    (x0 as u32) * 0x100_0000 + (x1 as u32) * 0x1_0000 + (x2 as u32) * 0x100 + (x3 as u32)
}

fn decode_str(b: &[u8], pos: usize, end: usize) -> (r: Option<(Vec<u8>, usize)>)
    requires
        pos <= end <= b@.len(),
    ensures
        ({
            let s = parse_str(b@, pos as int, end as int);
            match r {
                Some(sp) => s == Some((sp.0@, sp.1 as int)) && pos < sp.1 <= end,
                None => s is None,
            }
        }),
{
    match scan_nul(b, pos, end) {
        None => None,
        Some(z) => {
            let n1: usize = z - pos + 1;
            let rem: usize = n1 % 4;
            let pad: usize = if rem == 0 {
                0
            } else {
                4 - rem
            };
            if pad <= end - (z + 1) {
                let stop: usize = z + 1 + pad;
                if zeros_upto(b, z, stop) {
                    let content = vstd::slice::slice_to_vec(vstd::slice::slice_subrange(b, pos, z));
                    Some((content, stop))
                } else {
                    None
                }
            } else {
                None
            }
        },
    }
}

fn decode_value(b: &[u8], pos: usize, end: usize, tag: u8) -> (r: Option<(OscValue, usize)>)
    requires
        pos <= end <= b@.len(),
    ensures
        ({
            let s = parse_value(b@, pos as int, end as int, tag);
            match r {
                Some(vp) => s == Some((vp.0@, vp.1 as int)) && pos <= vp.1 <= end,
                None => s is None,
            }
        }),
{
    if tag == 0x66 {
        if end - pos >= 4 {
            let w = read_be32(b, pos);
            Some((OscValue::Float(w), pos + 4))
        } else {
            None
        }
    } else if tag == 0x69 {
        if end - pos >= 4 {
            let w = read_be32(b, pos);
            let x: i32 = if w < 0x8000_0000 {
                w as i32
            } else {
                let d = w - 0x8000_0000;
                (d as i32) + i32::MIN
            };
            assert(x == as_i32(be32_at(b@, pos as int)));
            Some((OscValue::Int(x), pos + 4))
        } else {
            None
        }
    } else if tag == 0x73 {
        match decode_str(b, pos, end) {
            None => None,
            Some((s, p2)) => Some((OscValue::Str(s), p2)),
        }
    } else if tag == 0x62 {
        if end - pos >= 4 {
            let w = read_be32(b, pos);
            let n = w as usize;
            let body = pos + 4;
            if n <= end - body {
                let rem: usize = n % 4;
                let pad: usize = if rem == 0 {
                    0
                } else {
                    4 - rem
                };
                if pad <= end - body - n {
                    let stop: usize = body + n + pad;
                    if zeros_upto(b, body + n, stop) {
                        let content = vstd::slice::slice_to_vec(
                            vstd::slice::slice_subrange(b, body, body + n),
                        );
                        Some((OscValue::Blob(content), stop))
                    } else {
                        None
                    }
                } else {
                    None
                }
            } else {
                None
            }
        } else {
            None
        }
    } else {
        None
    }
}

fn decode_args(b: &[u8], pos: usize, end: usize, tags: &[u8], i: usize) -> (r: Option<
    (Vec<OscValue>, usize),
>)
    requires
        pos <= end <= b@.len(),
        i <= tags@.len(),
    ensures
        ({
            let s = parse_args(b@, pos as int, end as int, tags@, i as int);
            match r {
                Some(vp) => s == Some((values_view(vp.0@), vp.1 as int)) && pos <= vp.1 <= end,
                None => s is None,
            }
        }),
    decreases tags@.len() - i,
{
    if i >= tags.len() {
        let out: Vec<OscValue> = Vec::new();
        assert(values_view(out@) =~= Seq::<ValueModel>::empty());
        Some((out, pos))
    } else {
        match decode_value(b, pos, end, *vstd::slice::slice_index_get(tags, i)) {
            None => None,
            Some((v, p2)) => match decode_args(b, p2, end, tags, i + 1) {
                None => None,
                Some((vs, p3)) => {
                    let ghost tail = vs@;
                    let mut out: Vec<OscValue> = Vec::new();
                    out.push(v);
                    let mut rest = vs;
                    out.append(&mut rest);
                    proof {
                        assert(values_view(out@) =~= seq![v@] + values_view(tail));
                    }
                    Some((out, p3))
                },
            },
        }
    }
}

fn decode_message(b: &[u8], pos: usize, end: usize) -> (r: Option<OscPacket>)
    requires
        pos <= end <= b@.len(),
    ensures
        ({
            let s = parse_message(b@, pos as int, end as int);
            match r {
                Some(p) => s == Some(p@),
                None => s is None,
            }
        }),
{
    match decode_str(b, pos, end) {
        None => None,
        Some((addr, p1)) => match decode_str(b, p1, end) {
            None => None,
            Some((tags, p2)) => {
                if tags.len() >= 1 && tags[0] == 0x2c {
                    match decode_args(b, p2, end, tags.as_slice(), 1) {
                        None => None,
                        Some((args, p3)) => if p3 == end {
                            Some(OscPacket::Message(OscMessage { addr, args }))
                        } else {
                            None
                        },
                    }
                } else {
                    None
                }
            },
        },
    }
}

fn is_bundle_header(b: &[u8], pos: usize, end: usize) -> (r: bool)
    requires
        pos <= end <= b@.len(),
    ensures
        r == is_bundle_at(b@, pos as int, end as int),
{
    end - pos >= 8 && *vstd::slice::slice_index_get(b, pos) == 0x23
        && *vstd::slice::slice_index_get(b, pos + 1) == 0x62 && *vstd::slice::slice_index_get(
        b,
        pos + 2,
    ) == 0x75 && *vstd::slice::slice_index_get(b, pos + 3) == 0x6e && *vstd::slice::slice_index_get(
        b,
        pos + 4,
    ) == 0x64 && *vstd::slice::slice_index_get(b, pos + 5) == 0x6c && *vstd::slice::slice_index_get(
        b,
        pos + 6,
    ) == 0x65 && *vstd::slice::slice_index_get(b, pos + 7) == 0x00
}

fn decode_packet_at(b: &[u8], pos: usize, end: usize) -> (r: Option<OscPacket>)
    requires
        pos <= end <= b@.len(),
    ensures
        ({
            let s = parse_packet_at(b@, pos as int, end as int);
            match r {
                Some(p) => s == Some(p@),
                None => s is None,
            }
        }),
    decreases end - pos, 1int,
{
    if is_bundle_header(b, pos, end) {
        if end - pos >= 16 {
            let sec = read_be32(b, pos + 8);
            let frac = read_be32(b, pos + 12);
            match decode_elems(b, pos + 16, end) {
                None => None,
                Some(es) => Some(
                    OscPacket::Bundle(OscBundle { seconds: sec, fractional: frac, elements: es }),
                ),
            }
        } else {
            None
        }
    } else {
        decode_message(b, pos, end)
    }
}

fn decode_elems(b: &[u8], pos: usize, end: usize) -> (r: Option<Vec<OscPacket>>)
    requires
        pos <= end <= b@.len(),
    ensures
        ({
            let s = parse_elems(b@, pos as int, end as int);
            match r {
                Some(es) => s == Some(packets_view(es@)),
                None => s is None,
            }
        }),
    decreases end - pos, 0int,
{
    if pos == end {
        let out: Vec<OscPacket> = Vec::new();
        assert(packets_view(out@) =~= Seq::<PacketModel>::empty());
        Some(out)
    } else if end - pos >= 4 {
        let w = read_be32(b, pos);
        let m = w as usize;
        if m <= end - (pos + 4) {
            match decode_packet_at(b, pos + 4, pos + 4 + m) {
                None => None,
                Some(p) => match decode_elems(b, pos + 4 + m, end) {
                    None => None,
                    Some(ps) => {
                        let ghost tail = ps@;
                        let ghost first = p@;
                        let mut out: Vec<OscPacket> = Vec::new();
                        out.push(p);
                        let mut rest = ps;
                        out.append(&mut rest);
                        proof {
                            assert(out@.subrange(1, out@.len() as int) =~= tail);
                            assert(packets_view(out@) =~= seq![first] + packets_view(tail));
                        }
                        Some(out)
                    },
                },
            }
        } else {
            None
        }
    } else {
        None
    }
}

/// Decodes one complete OSC packet from a raw datagram buffer.
///
/// Returns the packet exactly when the buffer is a well-formed encoding, as
/// `parse_packet` states it, and a `DecodeError` on every malformed buffer;
/// no input can make it panic.
pub fn decode(buf: &[u8]) -> (r: Result<OscPacket, DecodeError>)
    ensures
        match r {
            Ok(p) => parse_packet(buf@) == Some(p@),
            Err(e) => parse_packet(buf@) is None,
        },
{
    match decode_packet_at(buf, 0, buf.len()) {
        Some(p) => Ok(p),
        None => Err(DecodeError),
    }
}

} // verus!
