//! The OSC 1.0 wire format as mathematics: spec-level encoding and
//! decoding over byte sequences.
//!
//! Encoding functions return the exact byte sequence an encoder must
//! produce, or the first error a malformed value surfaces.  Decoding
//! functions work over a window `[pos, end)` of a buffer and return the
//! decoded model together with the position after the consumed bytes, or
//! the error a malformed buffer surfaces.  The executable codec is
//! verified to return exactly what these functions say.

use vstd::prelude::*;

verus! {

use crate::errors::OscError;
use crate::types::BundleModel;
use crate::types::MessageModel;
use crate::types::PacketModel;
use crate::types::TimeTag;
use crate::types::ValueModel;
use crate::types::valid_addr_bytes;
use crate::types::valid_str_bytes;

/// Type-tag characters, as bytes.
pub const TAG_INT: u8 = 105;  // 'i'

pub const TAG_FLOAT: u8 = 102;  // 'f'

pub const TAG_STR: u8 = 115;  // 's'

pub const TAG_BLOB: u8 = 98;  // 'b'

pub const TAG_LONG: u8 = 104;  // 'h'

pub const TAG_TIME: u8 = 116;  // 't'

pub const TAG_DOUBLE: u8 = 100;  // 'd'

pub const TAG_CHAR: u8 = 99;  // 'c'

pub const TAG_COLOR: u8 = 114;  // 'r'

pub const TAG_MIDI: u8 = 109;  // 'm'

pub const TAG_TRUE: u8 = 84;  // 'T'

pub const TAG_FALSE: u8 = 70;  // 'F'

pub const TAG_NIL: u8 = 78;  // 'N'

pub const TAG_INF: u8 = 73;  // 'I'

pub const TAG_ARRAY_OPEN: u8 = 91;  // '['

pub const TAG_ARRAY_CLOSE: u8 = 93;  // ']'

/// The symbol tag of the wider OSC family: recognized, not supported.
pub const TAG_SYMBOL: u8 = 83;  // 'S'

pub const BYTE_COMMA: u8 = 44;  // ','

pub const BYTE_SLASH: u8 = 47;  // '/'

pub const BYTE_HASH: u8 = 35;  // '#'

/// The smallest multiple of 4 at or above `n`.
pub open spec fn pad4(n: int) -> int {
    ((n + 3) / 4) * 4
}

/// `n` zero bytes.
pub open spec fn zeros(n: int) -> Seq<u8> {
    Seq::new(n as nat, |i: int| 0u8)
}

/// The four big-endian bytes of a 32-bit value.
pub open spec fn enc_u32be(x: u32) -> Seq<u8> {
    seq![
        (x / 0x1000000) as u8,
        ((x / 0x10000) % 0x100) as u8,
        ((x / 0x100) % 0x100) as u8,
        (x % 0x100) as u8,
    ]
}

/// The 32-bit value of four big-endian bytes at `pos`.
pub open spec fn dec_u32be(s: Seq<u8>, pos: int) -> u32 {
    (s[pos] * 0x1000000 + s[pos + 1] * 0x10000 + s[pos + 2] * 0x100 + s[pos + 3]) as u32
}

/// The eight big-endian bytes of a 64-bit value.
pub open spec fn enc_u64be(x: u64) -> Seq<u8> {
    seq![
        (x / 0x100000000000000) as u8,
        ((x / 0x1000000000000) % 0x100) as u8,
        ((x / 0x10000000000) % 0x100) as u8,
        ((x / 0x100000000) % 0x100) as u8,
        ((x / 0x1000000) % 0x100) as u8,
        ((x / 0x10000) % 0x100) as u8,
        ((x / 0x100) % 0x100) as u8,
        (x % 0x100) as u8,
    ]
}

/// The 64-bit value of eight big-endian bytes at `pos`.
pub open spec fn dec_u64be(s: Seq<u8>, pos: int) -> u64 {
    (s[pos] * 0x100000000000000 + s[pos + 1] * 0x1000000000000 + s[pos + 2] * 0x10000000000 + s[pos
        + 3] * 0x100000000 + s[pos + 4] * 0x1000000 + s[pos + 5] * 0x10000 + s[pos + 6] * 0x100
        + s[pos + 7]) as u64
}

/// The two's-complement 32-bit wire form of a signed value.
pub open spec fn u32_of_i32(x: i32) -> u32 {
    if x >= 0 {
        x as u32
    } else {
        (x + 0x100000000) as u32
    }
}

/// The signed value of a two's-complement 32-bit wire form.
pub open spec fn i32_of_u32(u: u32) -> i32 {
    if u < 0x80000000 {
        u as i32
    } else {
        (u - 0x100000000) as i32
    }
}

/// The two's-complement 64-bit wire form of a signed value.
pub open spec fn u64_of_i64(x: i64) -> u64 {
    if x >= 0 {
        x as u64
    } else {
        (x + 0x10000000000000000) as u64
    }
}

/// The signed value of a two's-complement 64-bit wire form.
pub open spec fn i64_of_u64(u: u64) -> i64 {
    if u < 0x8000000000000000 {
        u as i64
    } else {
        (u - 0x10000000000000000) as i64
    }
}

/// An encoded OSC string: the content, one null terminator, then null
/// padding to the next multiple of four bytes.
pub open spec fn enc_str(s: Seq<u8>) -> Seq<u8> {
    s + zeros(pad4(s.len() as int + 1) - s.len())
}

/// An encoded blob: a big-endian length, the content, then null padding
/// to the next multiple of four bytes.
pub open spec fn enc_blob(b: Seq<u8>) -> Seq<u8> {
    enc_u32be(b.len() as u32) + b + zeros(pad4(b.len() as int) - b.len())
}

/// The eight leading bytes of every bundle: `#bundle` and a terminator.
pub open spec fn bundle_header() -> Seq<u8> {
    seq![35u8, 98u8, 117u8, 110u8, 100u8, 108u8, 101u8, 0u8]
}

/// The type-tag bytes a value contributes to the type-tag string.
pub open spec fn tags_of_value(v: ValueModel) -> Seq<u8>
    decreases v,
{
    match v {
        ValueModel::Int(_) => seq![TAG_INT],
        ValueModel::Float(_) => seq![TAG_FLOAT],
        ValueModel::Str(_) => seq![TAG_STR],
        ValueModel::Blob(_) => seq![TAG_BLOB],
        ValueModel::Long(_) => seq![TAG_LONG],
        ValueModel::Time(_) => seq![TAG_TIME],
        ValueModel::Double(_) => seq![TAG_DOUBLE],
        ValueModel::Char(_) => seq![TAG_CHAR],
        ValueModel::Color(_) => seq![TAG_COLOR],
        ValueModel::Midi(_) => seq![TAG_MIDI],
        ValueModel::Bool(b) => if b {
            seq![TAG_TRUE]
        } else {
            seq![TAG_FALSE]
        },
        ValueModel::Nil => seq![TAG_NIL],
        ValueModel::Inf => seq![TAG_INF],
        ValueModel::Array(items) => seq![TAG_ARRAY_OPEN] + tags_of_values(items, 0) + seq![
            TAG_ARRAY_CLOSE,
        ],
    }
}

/// The type-tag bytes of the values of `items` from index `i` on.
pub open spec fn tags_of_values(items: Seq<ValueModel>, i: int) -> Seq<u8>
    decreases items, items.len() - i,
{
    if i < 0 || i >= items.len() {
        Seq::empty()
    } else {
        tags_of_value(items[i]) + tags_of_values(items, i + 1)
    }
}

/// The payload bytes of one value, or the first error that makes the
/// value unencodable: a string that is not non-zero ASCII or is too long
/// for the wire, a blob too long for its 32-bit length prefix, or a
/// character outside ASCII.
pub open spec fn spec_encode_value(v: ValueModel) -> Result<Seq<u8>, OscError>
    decreases v,
{
    match v {
        ValueModel::Int(x) => Ok(enc_u32be(u32_of_i32(x))),
        ValueModel::Float(x) => Ok(enc_u32be(x)),
        ValueModel::Str(s) => if valid_str_bytes(s) && s.len() < 0x80000000 {
            Ok(enc_str(s))
        } else {
            Err(OscError::BadArg)
        },
        ValueModel::Blob(b) => if b.len() < 0x80000000 {
            Ok(enc_blob(b))
        } else {
            Err(OscError::BadArg)
        },
        ValueModel::Long(x) => Ok(enc_u64be(u64_of_i64(x))),
        ValueModel::Time(t) => Ok(enc_u32be(t.seconds) + enc_u32be(t.fractional)),
        ValueModel::Double(x) => Ok(enc_u64be(x)),
        ValueModel::Char(c) => if c < 128 {
            Ok(enc_u32be(c as u32))
        } else {
            Err(OscError::BadArg)
        },
        ValueModel::Color(c) => Ok(seq![c.red, c.green, c.blue, c.alpha]),
        ValueModel::Midi(m) => Ok(seq![m.port, m.status, m.data1, m.data2]),
        ValueModel::Bool(_) => Ok(Seq::empty()),
        ValueModel::Nil => Ok(Seq::empty()),
        ValueModel::Inf => Ok(Seq::empty()),
        ValueModel::Array(items) => spec_encode_values(items, 0),
    }
}

/// The concatenated payload bytes of the values of `items` from index
/// `i` on, or the first error among them.
pub open spec fn spec_encode_values(items: Seq<ValueModel>, i: int) -> Result<Seq<u8>, OscError>
    decreases items, items.len() - i,
{
    if i < 0 || i >= items.len() {
        Ok(Seq::empty())
    } else {
        match spec_encode_value(items[i]) {
            Ok(head) => match spec_encode_values(items, i + 1) {
                Ok(rest) => Ok(head + rest),
                Err(e) => Err(e),
            },
            Err(e) => Err(e),
        }
    }
}

/// The encoded bytes of a message: the padded address, the padded
/// type-tag string led by a comma, then the argument payloads.  An
/// address that does not start with `/`, is not non-zero ASCII or is too
/// long for the wire is `BadAddress`.
pub open spec fn spec_encode_message(m: MessageModel) -> Result<Seq<u8>, OscError> {
    if !(valid_addr_bytes(m.addr) && m.addr.len() < 0x80000000) {
        Err(OscError::BadAddress)
    } else {
        match spec_encode_values(m.args, 0) {
            Ok(payload) => Ok(
                enc_str(m.addr) + enc_str(seq![BYTE_COMMA] + tags_of_values(m.args, 0)) + payload,
            ),
            Err(e) => Err(e),
        }
    }
}

/// The encoded bytes of a packet, with `depth` remaining levels of
/// bundle nesting; nesting deeper than `depth` is `BadBundle`.
pub open spec fn spec_encode_packet(p: PacketModel, depth: int) -> Result<Seq<u8>, OscError>
    decreases p,
{
    match p {
        PacketModel::Message(m) => spec_encode_message(m),
        PacketModel::Bundle(b) => if depth <= 0 {
            Err(OscError::BadBundle)
        } else {
            match spec_encode_bundle_elems(b.content, 0, depth - 1) {
                Ok(elems) => Ok(
                    bundle_header() + enc_u32be(b.timetag.seconds) + enc_u32be(b.timetag.fractional)
                        + elems,
                ),
                Err(e) => Err(e),
            }
        },
    }
}

/// The encoded bytes of the bundle elements of `content` from index `i`
/// on: each child's encoded length as a big-endian 32-bit size, then its
/// bytes.  A child too long for the size prefix is `BadBundle`.
pub open spec fn spec_encode_bundle_elems(content: Seq<PacketModel>, i: int, depth: int) -> Result<
    Seq<u8>,
    OscError,
>
    decreases content, content.len() - i,
{
    if i < 0 || i >= content.len() {
        Ok(Seq::empty())
    } else {
        match spec_encode_packet(content[i], depth) {
            Ok(child) => if child.len() >= 0x80000000 {
                Err(OscError::BadBundle)
            } else {
                match spec_encode_bundle_elems(content, i + 1, depth) {
                    Ok(rest) => Ok(enc_u32be(child.len() as u32) + child + rest),
                    Err(e) => Err(e),
                }
            },
            Err(e) => Err(e),
        }
    }
}

/// A well-formed message: one that encoding accepts.
pub open spec fn valid_message(m: MessageModel) -> bool {
    spec_encode_message(m) is Ok
}

/// A well-formed packet: one that encoding accepts within the nesting
/// bound.
pub open spec fn valid_packet(p: PacketModel) -> bool {
    spec_encode_packet(p, crate::types::MAX_BUNDLE_DEPTH as int) is Ok
}

/// The position of the first null byte in `[pos, end)`, or -1.
pub open spec fn spec_find_nul(s: Seq<u8>, pos: int, end: int) -> int
    decreases end - pos,
{
    if pos < 0 || pos >= end {
        -1
    } else if s[pos] == 0 {
        pos
    } else {
        spec_find_nul(s, pos + 1, end)
    }
}

/// Decoding of a padded OSC string at `pos`: the content up to the
/// first null, which must be ASCII (`StringError` otherwise), then null
/// padding up to a multiple of four bytes from `pos` (`BadString` when
/// the terminator or the padding is missing or a padding byte is not
/// null).  Returns the content and the position after the padding.
pub open spec fn spec_read_str(s: Seq<u8>, pos: int, end: int) -> Result<(Seq<u8>, int), OscError> {
    let t = spec_find_nul(s, pos, end);
    if t < 0 {
        Err(OscError::BadString)
    } else if exists|i: int| pos <= i < t && #[trigger] s[i] >= 128 {
        Err(OscError::StringError)
    } else {
        let after = pos + pad4(t + 1 - pos);
        if after > end {
            Err(OscError::BadString)
        } else if exists|j: int| t < j < after && #[trigger] s[j] != 0 {
            Err(OscError::BadString)
        } else {
            Ok((s.subrange(pos, t), after))
        }
    }
}

/// Decoding of one tagged argument payload at `pos`.  Fixed-size
/// payloads that run past `end` are `BadArg`; a blob length that is
/// negative as a signed 32-bit value is `BadArg`; a non-ASCII character
/// code is `BadArg`; the recognized but unsupported symbol tag is
/// `Unimplemented`; any other tag byte is `BadArg`.
pub open spec fn spec_decode_arg(tag: u8, s: Seq<u8>, pos: int, end: int) -> Result<
    (ValueModel, int),
    OscError,
> {
    if tag == TAG_INT {
        if pos + 4 <= end {
            Ok((ValueModel::Int(i32_of_u32(dec_u32be(s, pos))), pos + 4))
        } else {
            Err(OscError::BadArg)
        }
    } else if tag == TAG_FLOAT {
        if pos + 4 <= end {
            Ok((ValueModel::Float(dec_u32be(s, pos)), pos + 4))
        } else {
            Err(OscError::BadArg)
        }
    } else if tag == TAG_STR {
        match spec_read_str(s, pos, end) {
            Ok((content, after)) => Ok((ValueModel::Str(content), after)),
            Err(e) => Err(e),
        }
    } else if tag == TAG_BLOB {
        if pos + 4 > end {
            Err(OscError::BadArg)
        } else {
            let n = dec_u32be(s, pos);
            if n >= 0x80000000 {
                Err(OscError::BadArg)
            } else {
                let after = pos + 4 + pad4(n as int);
                if after > end {
                    Err(OscError::BadArg)
                } else {
                    Ok((ValueModel::Blob(s.subrange(pos + 4, pos + 4 + n)), after))
                }
            }
        }
    } else if tag == TAG_LONG {
        if pos + 8 <= end {
            Ok((ValueModel::Long(i64_of_u64(dec_u64be(s, pos))), pos + 8))
        } else {
            Err(OscError::BadArg)
        }
    } else if tag == TAG_TIME {
        if pos + 8 <= end {
            Ok(
                (
                    ValueModel::Time(
                        TimeTag { seconds: dec_u32be(s, pos), fractional: dec_u32be(s, pos + 4) },
                    ),
                    pos + 8,
                ),
            )
        } else {
            Err(OscError::BadArg)
        }
    } else if tag == TAG_DOUBLE {
        if pos + 8 <= end {
            Ok((ValueModel::Double(dec_u64be(s, pos)), pos + 8))
        } else {
            Err(OscError::BadArg)
        }
    } else if tag == TAG_CHAR {
        if pos + 4 <= end {
            let u = dec_u32be(s, pos);
            if u < 128 {
                Ok((ValueModel::Char(u as u8), pos + 4))
            } else {
                Err(OscError::BadArg)
            }
        } else {
            Err(OscError::BadArg)
        }
    } else if tag == TAG_COLOR {
        if pos + 4 <= end {
            Ok(
                (
                    ValueModel::Color(
                        crate::types::OscColor {
                            red: s[pos],
                            green: s[pos + 1],
                            blue: s[pos + 2],
                            alpha: s[pos + 3],
                        },
                    ),
                    pos + 4,
                ),
            )
        } else {
            Err(OscError::BadArg)
        }
    } else if tag == TAG_MIDI {
        if pos + 4 <= end {
            Ok(
                (
                    ValueModel::Midi(
                        crate::types::OscMidiMessage {
                            port: s[pos],
                            status: s[pos + 1],
                            data1: s[pos + 2],
                            data2: s[pos + 3],
                        },
                    ),
                    pos + 4,
                ),
            )
        } else {
            Err(OscError::BadArg)
        }
    } else if tag == TAG_TRUE {
        Ok((ValueModel::Bool(true), pos))
    } else if tag == TAG_FALSE {
        Ok((ValueModel::Bool(false), pos))
    } else if tag == TAG_NIL {
        Ok((ValueModel::Nil, pos))
    } else if tag == TAG_INF {
        Ok((ValueModel::Inf, pos))
    } else if tag == TAG_SYMBOL {
        Err(OscError::Unimplemented)
    } else {
        Err(OscError::BadArg)
    }
}

/// Decoding of the arguments declared by `tags` from tag index `ti` on,
/// consuming payloads from `pos`.  `stack` holds the value lists under
/// construction, one level per open array; it always holds at least the
/// outermost list.  An array tag that never closes, a close tag that
/// never opened, or a tag list that ends inside an array is `BadArg`.
pub open spec fn spec_decode_args(
    tags: Seq<u8>,
    ti: int,
    s: Seq<u8>,
    pos: int,
    end: int,
    stack: Seq<Seq<ValueModel>>,
) -> Result<(Seq<ValueModel>, int), OscError>
    decreases tags.len() - ti,
{
    if ti < 0 || ti >= tags.len() {
        if stack.len() == 1 {
            Ok((stack[0], pos))
        } else {
            Err(OscError::BadArg)
        }
    } else if tags[ti] == TAG_ARRAY_OPEN {
        spec_decode_args(tags, ti + 1, s, pos, end, stack.push(Seq::empty()))
    } else if tags[ti] == TAG_ARRAY_CLOSE {
        if stack.len() <= 1 {
            Err(OscError::BadArg)
        } else {
            let inner = stack.last();
            let outer = stack.drop_last();
            let extended = outer.drop_last().push(outer.last().push(ValueModel::Array(inner)));
            spec_decode_args(tags, ti + 1, s, pos, end, extended)
        }
    } else {
        match spec_decode_arg(tags[ti], s, pos, end) {
            Ok((v, after)) => spec_decode_args(
                tags,
                ti + 1,
                s,
                after,
                end,
                stack.drop_last().push(stack.last().push(v)),
            ),
            Err(e) => Err(e),
        }
    }
}

/// Decoding of a message in `[pos, end)`: the address string, which
/// must start with `/` (`BadAddress` otherwise), then the type-tag
/// string, then the declared arguments.  A type-tag string that does not
/// start with a comma declares no arguments.  Bytes of the window the
/// arguments do not consume are ignored.
pub open spec fn spec_decode_message(s: Seq<u8>, pos: int, end: int) -> Result<
    (MessageModel, int),
    OscError,
> {
    match spec_read_str(s, pos, end) {
        Ok((addr, p1)) => if !(addr.len() >= 1 && addr[0] == BYTE_SLASH) {
            Err(OscError::BadAddress)
        } else {
            match spec_read_str(s, p1, end) {
                Ok((tags, p2)) => if tags.len() == 0 || tags[0] != BYTE_COMMA {
                    Ok((MessageModel { addr, args: Seq::empty() }, p2))
                } else {
                    match spec_decode_args(tags, 1, s, p2, end, seq![Seq::empty()]) {
                        Ok((args, p3)) => Ok((MessageModel { addr, args }, p3)),
                        Err(e) => Err(e),
                    }
                },
                Err(e) => Err(e),
            }
        },
        Err(e) => Err(e),
    }
}

/// Decoding of a packet in `[pos, end)`: a leading `/` routes to the
/// message decoder, a leading `#` to the bundle decoder, an empty window
/// or any other leading byte is `BadPacket`.  `depth` bounds bundle
/// nesting; deeper input is `BadBundle`.
pub open spec fn spec_decode_packet(s: Seq<u8>, pos: int, end: int, depth: int) -> Result<
    (PacketModel, int),
    OscError,
>
    decreases end - pos, 1int,
{
    if pos >= end {
        Err(OscError::BadPacket)
    } else if s[pos] == BYTE_SLASH {
        match spec_decode_message(s, pos, end) {
            Ok((m, after)) => Ok((PacketModel::Message(m), after)),
            Err(e) => Err(e),
        }
    } else if s[pos] == BYTE_HASH {
        if depth <= 0 {
            Err(OscError::BadBundle)
        } else {
            match spec_decode_bundle(s, pos, end, depth) {
                Ok((b, after)) => Ok((PacketModel::Bundle(b), after)),
                Err(e) => Err(e),
            }
        }
    } else {
        Err(OscError::BadPacket)
    }
}

/// Decoding of a bundle in `[pos, end)`: the literal `#bundle` header
/// with its terminator, an eight-byte time tag, then size-prefixed
/// children to the end of the window (`BadBundle` when the header or
/// time tag is missing or wrong).
pub open spec fn spec_decode_bundle(s: Seq<u8>, pos: int, end: int, depth: int) -> Result<
    (BundleModel, int),
    OscError,
>
    decreases end - pos, 0int,
{
    if pos + 16 > end {
        Err(OscError::BadBundle)
    } else if s.subrange(pos, pos + 8) != bundle_header() {
        Err(OscError::BadBundle)
    } else {
        let tt = TimeTag { seconds: dec_u32be(s, pos + 8), fractional: dec_u32be(s, pos + 12) };
        match spec_decode_bundle_elems(s, pos + 16, end, depth - 1) {
            Ok((content, after)) => Ok((BundleModel { timetag: tt, content }, after)),
            Err(e) => Err(e),
        }
    }
}

/// Decoding of the size-prefixed children of a bundle from `pos` to the
/// end of the window.  Each child is a big-endian 32-bit size, which
/// must be non-negative as a signed value and fit in the remaining
/// bytes, then exactly that many bytes decoded as a packet; leftover
/// bytes that cannot form a size and child are `BadBundle`.
pub open spec fn spec_decode_bundle_elems(s: Seq<u8>, pos: int, end: int, depth: int) -> Result<
    (Seq<PacketModel>, int),
    OscError,
>
    decreases end - pos, 2int,
{
    if pos >= end {
        Ok((Seq::empty(), pos))
    } else if pos + 4 > end {
        Err(OscError::BadBundle)
    } else {
        let n = dec_u32be(s, pos);
        if n >= 0x80000000 {
            Err(OscError::BadBundle)
        } else if pos + 4 + n > end {
            Err(OscError::BadBundle)
        } else {
            match spec_decode_packet(s, pos + 4, pos + 4 + n, depth) {
                Ok((child, _)) => match spec_decode_bundle_elems(s, pos + 4 + n, end, depth) {
                    Ok((rest, after)) => Ok((seq![child] + rest, after)),
                    Err(e) => Err(e),
                },
                Err(e) => Err(e),
            }
        }
    }
}

/// Decoding of a whole buffer as a packet, with the nesting bound.
pub open spec fn spec_decode(s: Seq<u8>) -> Result<(PacketModel, int), OscError> {
    spec_decode_packet(s, 0, s.len() as int, crate::types::MAX_BUNDLE_DEPTH as int)
}

/// `pad4(n)` is the smallest multiple of four at or above `n`.
pub proof fn lemma_pad4(n: int)
    requires
        n >= 0,
    ensures
        pad4(n) % 4 == 0,
        n <= pad4(n) < n + 4,
{
}

/// An encoded string occupies a multiple of four bytes, and more bytes
/// than its content.
pub proof fn lemma_enc_str_aligned(s: Seq<u8>)
    ensures
        enc_str(s).len() % 4 == 0,
        s.len() < enc_str(s).len() <= s.len() + 4,
{
    lemma_pad4(s.len() as int + 1);
}

/// An encoded blob occupies a multiple of four bytes.
pub proof fn lemma_enc_blob_aligned(b: Seq<u8>)
    ensures
        enc_blob(b).len() % 4 == 0,
        enc_blob(b).len() == 4 + pad4(b.len() as int),
{
    lemma_pad4(b.len() as int);
}

/// Every successfully encoded value payload occupies a multiple of four
/// bytes.
#[verifier::rlimit(100)]
#[verifier::spinoff_prover]
pub proof fn lemma_value_payload_aligned(v: ValueModel)
    ensures
        spec_encode_value(v) is Ok ==> spec_encode_value(v)->Ok_0.len() % 4 == 0,
    decreases v,
{
    match v {
        ValueModel::Str(s) => lemma_enc_str_aligned(s),
        ValueModel::Blob(b) => lemma_enc_blob_aligned(b),
        ValueModel::Array(items) => lemma_values_payload_aligned(items, 0),
        _ => {},
    }
}

/// Every successfully encoded value-list payload occupies a multiple of
/// four bytes.
#[verifier::rlimit(100)]
#[verifier::spinoff_prover]
pub proof fn lemma_values_payload_aligned(items: Seq<ValueModel>, i: int)
    ensures
        spec_encode_values(items, i) is Ok ==> spec_encode_values(items, i)->Ok_0.len() % 4 == 0,
    decreases items, items.len() - i,
{
    if 0 <= i < items.len() {
        lemma_value_payload_aligned(items[i]);
        lemma_values_payload_aligned(items, i + 1);
    }
}

/// Every successfully encoded message occupies a multiple of four
/// bytes.
#[verifier::rlimit(100)]
#[verifier::spinoff_prover]
pub proof fn lemma_message_aligned(m: MessageModel)
    ensures
        spec_encode_message(m) is Ok ==> spec_encode_message(m)->Ok_0.len() % 4 == 0,
{
    if spec_encode_message(m) is Ok {
        lemma_enc_str_aligned(m.addr);
        lemma_enc_str_aligned(seq![BYTE_COMMA] + tags_of_values(m.args, 0));
        lemma_values_payload_aligned(m.args, 0);
    }
}

/// Every successfully encoded packet occupies a multiple of four bytes.
#[verifier::rlimit(100)]
#[verifier::spinoff_prover]
pub proof fn lemma_packet_aligned(p: PacketModel, depth: int)
    ensures
        spec_encode_packet(p, depth) is Ok ==> spec_encode_packet(p, depth)->Ok_0.len() % 4 == 0,
    decreases p,
{
    match p {
        PacketModel::Message(m) => lemma_message_aligned(m),
        PacketModel::Bundle(b) => if depth > 0 {
            lemma_bundle_elems_aligned(b.content, 0, depth - 1);
        },
    }
}

/// Every successfully encoded run of bundle elements occupies a
/// multiple of four bytes.
#[verifier::rlimit(100)]
#[verifier::spinoff_prover]
pub proof fn lemma_bundle_elems_aligned(content: Seq<PacketModel>, i: int, depth: int)
    ensures
        spec_encode_bundle_elems(content, i, depth) is Ok ==> spec_encode_bundle_elems(
            content,
            i,
            depth,
        )->Ok_0.len() % 4 == 0,
    decreases content, content.len() - i,
{
    if 0 <= i < content.len() {
        lemma_packet_aligned(content[i], depth);
        lemma_bundle_elems_aligned(content, i + 1, depth);
    }
}

} // verus!
