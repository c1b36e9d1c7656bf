//! The executable decoder: turns byte buffers into messages, bundles
//! and packets, returning exactly what the wire-format specification
//! says for every input, well-formed or not.

use vstd::prelude::*;

verus! {

use crate::errors::OscError;
use crate::types::Message;
use crate::types::Packet;
use crate::types::Value;
use crate::types::Bundle;
use crate::types::TimeTag;
use crate::types::str_bytes;
use crate::types::value_model;
use crate::types::values_model;
use crate::types::lemma_values_model;
use crate::types::lemma_packets_model;
use crate::types::packets_model;
use crate::types::message_model;
use crate::types::MAX_BUNDLE_DEPTH;
use crate::types::ValueModel;
use crate::types::PacketModel;
use crate::types::MessageModel;
use crate::wire::dec_u32be;
use crate::wire::dec_u64be;
use crate::wire::pad4;
use crate::wire::lemma_pad4;
use crate::wire::spec_find_nul;
use crate::wire::spec_read_str;
use crate::wire::spec_decode_arg;
use crate::wire::spec_decode_args;
use crate::wire::spec_decode_message;
use crate::wire::spec_decode_packet;
use crate::wire::spec_decode_bundle;
use crate::wire::spec_decode_bundle_elems;
use crate::wire::spec_decode;
use crate::wire::i32_of_u32;
use crate::wire::i64_of_u64;
use crate::wire::bundle_header;

/// Relies on `String::from_utf8`: bytes that are ASCII are valid UTF-8
/// and decode to the characters with the same code points, so the
/// result's characters carry exactly the input bytes.
#[verifier::external_body]
fn ascii_to_string(b: Vec<u8>) -> (r: String)
    requires
        forall|i: int| 0 <= i < b@.len() ==> 0 < #[trigger] b@[i] < 128,
    ensures
        str_bytes(r@) == b@,
        r@.len() == b@.len(),
        vstd::utf8::is_ascii_chars(r@),
{
    match String::from_utf8(b) {
        Ok(s) => s,
        Err(_) => String::new(),
    }
}

/// Reads four big-endian bytes at `pos`.
fn read_u32(buf: &[u8], pos: usize) -> (r: u32)
    requires
        pos + 4 <= buf@.len(),
    ensures
        r == dec_u32be(buf@, pos as int),
{
    (buf[pos] as u32) * 0x1000000 + (buf[pos + 1] as u32) * 0x10000 + (buf[pos + 2] as u32) * 0x100
        + (buf[pos + 3] as u32)
}

/// Reads eight big-endian bytes at `pos`.
fn read_u64(buf: &[u8], pos: usize) -> (r: u64)
    requires
        pos + 8 <= buf@.len(),
    ensures
        r == dec_u64be(buf@, pos as int),
{
    (buf[pos] as u64) * 0x100000000000000 + (buf[pos + 1] as u64) * 0x1000000000000 + (buf[pos
        + 2] as u64) * 0x10000000000 + (buf[pos + 3] as u64) * 0x100000000 + (buf[pos
        + 4] as u64) * 0x1000000 + (buf[pos + 5] as u64) * 0x10000 + (buf[pos + 6] as u64) * 0x100
        + (buf[pos + 7] as u64)
}

/// Finds the first null byte in `[pos, end)`.
#[verifier::loop_isolation(false)]
fn find_nul(buf: &[u8], pos: usize, end: usize) -> (r: Option<usize>)
    requires
        pos <= end <= buf@.len(),
    ensures
        match r {
            Some(t) => spec_find_nul(buf@, pos as int, end as int) == t as int && pos <= t < end
                && buf@[t as int] == 0 && forall|j: int|
                pos <= j < t ==> #[trigger] buf@[j] != 0,
            None => spec_find_nul(buf@, pos as int, end as int) == -1 && forall|j: int|
                pos <= j < end ==> #[trigger] buf@[j] != 0,
        },
{
    let mut i: usize = pos;
    while i < end
        invariant
            pos <= i <= end,
            spec_find_nul(buf@, pos as int, end as int) == spec_find_nul(
                buf@,
                i as int,
                end as int,
            ),
            forall|j: int| pos <= j < i ==> #[trigger] buf@[j] != 0,
        decreases end - i,
    {
        if buf[i] == 0 {
            return Some(i);
        }
        i += 1;
    }
    None
}

/// The distance from `c` up to the next multiple of four.
fn pad_gap(c: usize) -> (r: usize)
    ensures
        c + r == pad4(c as int),
        r < 4,
{
    proof {
        lemma_pad4(c as int);
    }
    let rem = c % 4;
    if rem == 0 {
        0
    } else {
        4 - rem
    }
}

/// Reads a padded OSC string in `[pos, end)`: the ASCII content before
/// the first null, and the position after the null padding.
#[verifier::loop_isolation(false)]
#[verifier::rlimit(100)]
#[verifier::spinoff_prover]
fn read_str(buf: &[u8], pos: usize, end: usize) -> (r: Result<(Vec<u8>, usize), OscError>)
    requires
        pos <= end <= buf@.len(),
    ensures
        match r {
            Ok((content, np)) => spec_read_str(buf@, pos as int, end as int) == Ok::<
                (Seq<u8>, int),
                OscError,
            >((content@, np as int)) && pos <= np <= end && forall|i: int|
                0 <= i < content@.len() ==> 0 < #[trigger] content@[i] < 128,
            Err(e) => spec_read_str(buf@, pos as int, end as int) == Err::<(Seq<u8>, int), OscError>(
                e,
            ),
        },
{
    let t = match find_nul(buf, pos, end) {
        Some(t) => t,
        None => {
            return Err(OscError::BadString);
        },
    };
    let mut j: usize = pos;
    while j < t
        invariant
            pos <= j <= t,
            forall|i: int| pos <= i < j ==> #[trigger] buf@[i] < 128,
        decreases t - j,
    {
        if buf[j] >= 128 {
            return Err(OscError::StringError);
        }
        j += 1;
    }
    let consumed = t + 1 - pos;
    let gap = pad_gap(consumed);
    if gap > end - (t + 1) {
        proof {
            assert(pos + pad4(t + 1 - pos as int) > end);
        }
        return Err(OscError::BadString);
    }
    let after = t + 1 + gap;
    proof {
        assert(after == pos + pad4(t + 1 - pos as int));
    }
    let mut k: usize = t + 1;
    while k < after
        invariant
            t + 1 <= k <= after,
            forall|i: int| t < i < k ==> #[trigger] buf@[i] == 0,
        decreases after - k,
    {
        if buf[k] != 0 {
            return Err(OscError::BadString);
        }
        k += 1;
    }
    let mut content: Vec<u8> = Vec::new();
    let mut c: usize = pos;
    while c < t
        invariant
            pos <= c <= t,
            content@ == buf@.subrange(pos as int, c as int),
        decreases t - c,
    {
        content.push(buf[c]);
        c += 1;
        proof {
            assert(content@ =~= buf@.subrange(pos as int, c as int));
        }
    }
    proof {
        assert(spec_read_str(buf@, pos as int, end as int) == Ok::<(Seq<u8>, int), OscError>(
            (content@, after as int),
        ));
    }
    Ok((content, after))
}

/// Decodes one tagged argument payload at `pos`.
#[verifier::loop_isolation(false)]
#[verifier::rlimit(100)]
#[verifier::spinoff_prover]
fn decode_arg(tag: u8, buf: &[u8], pos: usize, end: usize) -> (r: Result<(Value, usize), OscError>)
    requires
        pos <= end <= buf@.len(),
    ensures
        match r {
            Ok((v, np)) => spec_decode_arg(tag, buf@, pos as int, end as int) == Ok::<
                (ValueModel, int),
                OscError,
            >((value_model(v), np as int)) && pos <= np <= end,
            Err(e) => spec_decode_arg(tag, buf@, pos as int, end as int) == Err::<
                (ValueModel, int),
                OscError,
            >(e),
        },
{
    if tag == crate::wire::TAG_INT {
        if end - pos < 4 {
            return Err(OscError::BadArg);
        }
        let u = read_u32(buf, pos);
        let v: i32 = if u < 0x80000000 {
            u as i32
        } else {
            -((0xFFFF_FFFFu32 - u) as i32) - 1
        };
        proof {
            assert(v == i32_of_u32(u));
        }
        Ok((Value::Int(v), pos + 4))
    } else if tag == crate::wire::TAG_FLOAT {
        if end - pos < 4 {
            return Err(OscError::BadArg);
        }
        Ok((Value::Float(read_u32(buf, pos)), pos + 4))
    } else if tag == crate::wire::TAG_STR {
        match read_str(buf, pos, end) {
            Ok((content, np)) => {
                let s = ascii_to_string(content);
                Ok((Value::Str(s), np))
            },
            Err(e) => Err(e),
        }
    } else if tag == crate::wire::TAG_BLOB {
        if end - pos < 4 {
            return Err(OscError::BadArg);
        }
        let n = read_u32(buf, pos);
        if n >= 0x80000000 {
            return Err(OscError::BadArg);
        }
        let nn = n as usize;
        let gap = pad_gap(nn);
        if nn > end - (pos + 4) || gap > end - (pos + 4) - nn {
            proof {
                assert(pos + 4 + pad4(n as int) > end);
            }
            return Err(OscError::BadArg);
        }
        let after = pos + 4 + nn + gap;
        proof {
            assert(after == pos + 4 + pad4(n as int));
        }
        let mut content: Vec<u8> = Vec::new();
        let mut c: usize = pos + 4;
        while c < pos + 4 + nn
            invariant
                pos + 4 <= c <= pos + 4 + nn,
                pos + 4 + nn <= end,
                content@ == buf@.subrange(pos + 4 as int, c as int),
            decreases pos + 4 + nn - c,
        {
            content.push(buf[c]);
            c += 1;
            proof {
                assert(content@ =~= buf@.subrange(pos + 4 as int, c as int));
            }
        }
        Ok((Value::Blob(content), after))
    } else if tag == crate::wire::TAG_LONG {
        if end - pos < 8 {
            return Err(OscError::BadArg);
        }
        let u = read_u64(buf, pos);
        let v: i64 = if u < 0x8000000000000000 {
            u as i64
        } else {
            -((0xFFFF_FFFF_FFFF_FFFFu64 - u) as i64) - 1
        };
        proof {
            assert(v == i64_of_u64(u));
        }
        Ok((Value::Long(v), pos + 8))
    } else if tag == crate::wire::TAG_TIME {
        if end - pos < 8 {
            return Err(OscError::BadArg);
        }
        let seconds = read_u32(buf, pos);
        let fractional = read_u32(buf, pos + 4);
        Ok((Value::Time(TimeTag { seconds, fractional }), pos + 8))
    } else if tag == crate::wire::TAG_DOUBLE {
        if end - pos < 8 {
            return Err(OscError::BadArg);
        }
        Ok((Value::Double(read_u64(buf, pos)), pos + 8))
    } else if tag == crate::wire::TAG_CHAR {
        if end - pos < 4 {
            return Err(OscError::BadArg);
        }
        let u = read_u32(buf, pos);
        if u < 128 {
            Ok((Value::Char(u as u8), pos + 4))
        } else {
            Err(OscError::BadArg)
        }
    } else if tag == crate::wire::TAG_COLOR {
        if end - pos < 4 {
            return Err(OscError::BadArg);
        }
        Ok(
            (
                Value::Color(
                    crate::types::OscColor {
                        red: buf[pos],
                        green: buf[pos + 1],
                        blue: buf[pos + 2],
                        alpha: buf[pos + 3],
                    },
                ),
                pos + 4,
            ),
        )
    } else if tag == crate::wire::TAG_MIDI {
        if end - pos < 4 {
            return Err(OscError::BadArg);
        }
        Ok(
            (
                Value::Midi(
                    crate::types::OscMidiMessage {
                        port: buf[pos],
                        status: buf[pos + 1],
                        data1: buf[pos + 2],
                        data2: buf[pos + 3],
                    },
                ),
                pos + 4,
            ),
        )
    } else if tag == crate::wire::TAG_TRUE {
        Ok((Value::Bool(true), pos))
    } else if tag == crate::wire::TAG_FALSE {
        Ok((Value::Bool(false), pos))
    } else if tag == crate::wire::TAG_NIL {
        Ok((Value::Nil, pos))
    } else if tag == crate::wire::TAG_INF {
        Ok((Value::Inf, pos))
    } else if tag == crate::wire::TAG_SYMBOL {
        Err(OscError::Unimplemented)
    } else {
        Err(OscError::BadArg)
    }
}

/// The models of a stack of value lists, one entry per open array.
pub open spec fn stacks_model(stack: Seq<Vec<Value>>) -> Seq<Seq<ValueModel>> {
    Seq::new(stack.len(), |i: int| values_model(stack[i], 0))
}

/// Decodes the arguments declared by `tags` after the leading comma,
/// consuming payloads from `pos`.
#[verifier::loop_isolation(false)]
#[verifier::rlimit(100)]
#[verifier::spinoff_prover]
fn decode_args(tags: &Vec<u8>, buf: &[u8], pos: usize, end: usize) -> (r: Result<
    (Vec<Value>, usize),
    OscError,
>)
    requires
        pos <= end <= buf@.len(),
        tags@.len() >= 1,
    ensures
        match r {
            Ok((args, np)) => spec_decode_args(
                tags@,
                1,
                buf@,
                pos as int,
                end as int,
                seq![Seq::<ValueModel>::empty()],
            ) == Ok::<(Seq<ValueModel>, int), OscError>((values_model(args, 0), np as int)) && pos
                <= np <= end,
            Err(e) => spec_decode_args(
                tags@,
                1,
                buf@,
                pos as int,
                end as int,
                seq![Seq::<ValueModel>::empty()],
            ) == Err::<(Seq<ValueModel>, int), OscError>(e),
        },
{
    let mut stack: Vec<Vec<Value>> = Vec::new();
    stack.push(Vec::new());
    proof {
        lemma_values_model(stack@[0], 0);
        assert(stacks_model(stack@) =~= seq![Seq::<ValueModel>::empty()]);
    }
    let mut ti: usize = 1;
    let mut p: usize = pos;
    while ti < tags.len()
        invariant
            1 <= ti <= tags@.len(),
            pos <= p <= end,
            stack@.len() >= 1,
            spec_decode_args(tags@, 1, buf@, pos as int, end as int, seq![Seq::<
                ValueModel,
            >::empty()]) == spec_decode_args(
                tags@,
                ti as int,
                buf@,
                p as int,
                end as int,
                stacks_model(stack@),
            ),
        decreases tags@.len() - ti,
    {
        let tag = tags[ti];
        if tag == crate::wire::TAG_ARRAY_OPEN {
            let ghost pre = stack@;
            stack.push(Vec::new());
            proof {
                lemma_values_model(stack@[stack@.len() - 1], 0);
                assert(stacks_model(stack@) =~= stacks_model(pre).push(Seq::empty()));
            }
        } else if tag == crate::wire::TAG_ARRAY_CLOSE {
            if stack.len() <= 1 {
                return Err(OscError::BadArg);
            }
            let ghost pre = stack@;
            let inner = match stack.pop() {
                Some(x) => x,
                None => {
                    return Err(OscError::BadArg);
                },
            };
            let mut outer_top = match stack.pop() {
                Some(x) => x,
                None => {
                    return Err(OscError::BadArg);
                },
            };
            let ghost ot_pre = outer_top;
            outer_top.push(Value::Array(inner));
            stack.push(outer_top);
            proof {
                lemma_values_model_snoc(ot_pre, outer_top, Value::Array(inner));
                let sm_pre = stacks_model(pre);
                assert(stacks_model(stack@) =~= sm_pre.drop_last().drop_last().push(
                    sm_pre.drop_last().last().push(
                        ValueModel::Array(sm_pre.last()),
                    ),
                ));
            }
        } else {
            match decode_arg(tag, buf, p, end) {
                Ok((v, np)) => {
                    let ghost pre = stack@;
                    let mut top = match stack.pop() {
                        Some(x) => x,
                        None => {
                            return Err(OscError::BadArg);
                        },
                    };
                    let ghost top_pre = top;
                    top.push(v);
                    stack.push(top);
                    p = np;
                    proof {
                        lemma_values_model_snoc(top_pre, top, v);
                        let sm_pre = stacks_model(pre);
                        assert(stacks_model(stack@) =~= sm_pre.drop_last().push(
                            sm_pre.last().push(value_model(v)),
                        ));
                    }
                },
                Err(e) => {
                    return Err(e);
                },
            }
        }
        ti += 1;
    }
    if stack.len() != 1 {
        return Err(OscError::BadArg);
    }
    let args = match stack.pop() {
        Some(x) => x,
        None => {
            return Err(OscError::BadArg);
        },
    };
    proof {
        assert(stacks_model(stack@.push(args))[0] == values_model(args, 0));
    }
    Ok((args, p))
}

/// The model of a value list grows by the model of a pushed value.
proof fn lemma_values_model_snoc(a: Vec<Value>, b: Vec<Value>, v: Value)
    requires
        b@ == a@.push(v),
    ensures
        values_model(b, 0) == values_model(a, 0).push(value_model(v)),
{
    lemma_values_model(a, 0);
    lemma_values_model(b, 0);
    assert forall|j: int| 0 <= j < a@.len() implies values_model(a, 0)[j] == value_model(
        a@[j],
    ) by {
        assert(values_model(a, 0)[j - 0] == value_model(a@[j]));
    }
    assert forall|j: int| 0 <= j < b@.len() implies values_model(b, 0)[j] == value_model(
        b@[j],
    ) by {
        assert(values_model(b, 0)[j - 0] == value_model(b@[j]));
    }
    assert(values_model(b, 0) =~= values_model(a, 0).push(value_model(v)));
}

/// Decodes a message in `[pos, end)`: the address, the type-tag
/// string, then the declared arguments.
#[verifier::loop_isolation(false)]
#[verifier::rlimit(100)]
#[verifier::spinoff_prover]
fn decode_message_window(buf: &[u8], pos: usize, end: usize) -> (r: Result<
    (Message, usize),
    OscError,
>)
    requires
        pos <= end <= buf@.len(),
    ensures
        match r {
            Ok((m, np)) => spec_decode_message(buf@, pos as int, end as int) == Ok::<
                (MessageModel, int),
                OscError,
            >((message_model(m), np as int)) && pos <= np <= end,
            Err(e) => spec_decode_message(buf@, pos as int, end as int) == Err::<
                (MessageModel, int),
                OscError,
            >(e),
        },
{
    let (addr_bytes, p1) = match read_str(buf, pos, end) {
        Ok(x) => x,
        Err(e) => {
            return Err(e);
        },
    };
    if addr_bytes.len() == 0 || addr_bytes[0] != 47 {
        return Err(OscError::BadAddress);
    }
    let addr = ascii_to_string(addr_bytes);
    let (tag_bytes, p2) = match read_str(buf, p1, end) {
        Ok(x) => x,
        Err(e) => {
            return Err(e);
        },
    };
    if tag_bytes.len() == 0 || tag_bytes[0] != crate::wire::BYTE_COMMA {
        let m = Message { addr, args: Vec::new() };
        proof {
            lemma_values_model(m.args, 0);
            assert(values_model(m.args, 0) =~= Seq::<ValueModel>::empty());
        }
        return Ok((m, p2));
    }
    match decode_args(&tag_bytes, buf, p2, end) {
        Ok((args, p3)) => {
            let m = Message { addr, args };
            Ok((m, p3))
        },
        Err(e) => Err(e),
    }
}

/// Decodes a packet in `[pos, end)`, dispatching on the first byte,
/// with `depth` remaining levels of bundle nesting.
#[verifier::loop_isolation(false)]
#[verifier::rlimit(100)]
fn decode_packet_window(buf: &[u8], pos: usize, end: usize, depth: u32) -> (r: Result<
    (Packet, usize),
    OscError,
>)
    requires
        pos <= end <= buf@.len(),
    ensures
        match r {
            Ok((p, np)) => spec_decode_packet(buf@, pos as int, end as int, depth as int) == Ok::<
                (PacketModel, int),
                OscError,
            >((crate::types::packet_model(p), np as int)) && pos <= np <= end,
            Err(e) => spec_decode_packet(buf@, pos as int, end as int, depth as int) == Err::<
                (PacketModel, int),
                OscError,
            >(e),
        },
    decreases end - pos, 1int,
{
    if pos >= end {
        return Err(OscError::BadPacket);
    }
    let first = buf[pos];
    if first == crate::wire::BYTE_SLASH {
        match decode_message_window(buf, pos, end) {
            Ok((m, np)) => Ok((Packet::Message(m), np)),
            Err(e) => Err(e),
        }
    } else if first == crate::wire::BYTE_HASH {
        if depth == 0 {
            return Err(OscError::BadBundle);
        }
        match decode_bundle_window(buf, pos, end, depth) {
            Ok((b, np)) => Ok((Packet::Bundle(b), np)),
            Err(e) => Err(e),
        }
    } else {
        Err(OscError::BadPacket)
    }
}

/// Decodes a bundle in `[pos, end)`: the `#bundle` header, the time
/// tag, then size-prefixed children to the end of the window.
#[verifier::loop_isolation(false)]
#[verifier::rlimit(100)]
#[verifier::spinoff_prover]
fn decode_bundle_window(buf: &[u8], pos: usize, end: usize, depth: u32) -> (r: Result<
    (Bundle, usize),
    OscError,
>)
    requires
        pos <= end <= buf@.len(),
        depth >= 1,
    ensures
        match r {
            Ok((b, np)) => spec_decode_bundle(buf@, pos as int, end as int, depth as int) == Ok::<
                (crate::types::BundleModel, int),
                OscError,
            >((b@, np as int)) && pos <= np <= end,
            Err(e) => spec_decode_bundle(buf@, pos as int, end as int, depth as int) == Err::<
                (crate::types::BundleModel, int),
                OscError,
            >(e),
        },
    decreases end - pos, 0int,
{
    if end - pos < 16 {
        return Err(OscError::BadBundle);
    }
    if buf[pos] != 35 || buf[pos + 1] != 98 || buf[pos + 2] != 117 || buf[pos + 3] != 110 || buf[pos
        + 4] != 100 || buf[pos + 5] != 108 || buf[pos + 6] != 101 || buf[pos + 7] != 0 {
        proof {
            assert(buf@.subrange(pos as int, pos + 8) != bundle_header());
        }
        return Err(OscError::BadBundle);
    }
    proof {
        assert(buf@.subrange(pos as int, pos + 8) =~= bundle_header());
    }
    let seconds = read_u32(buf, pos + 8);
    let fractional = read_u32(buf, pos + 12);
    let timetag = TimeTag { seconds, fractional };
    match decode_bundle_elems(buf, pos + 16, end, depth - 1) {
        Ok(content) => Ok((Bundle { timetag, content }, end)),
        Err(e) => Err(e),
    }
}

/// Decodes the size-prefixed children of a bundle from `pos` to the
/// end of the window.
#[verifier::loop_isolation(false)]
#[verifier::rlimit(100)]
#[verifier::spinoff_prover]
fn decode_bundle_elems(buf: &[u8], pos: usize, end: usize, depth: u32) -> (r: Result<
    Vec<Packet>,
    OscError,
>)
    requires
        pos <= end <= buf@.len(),
    ensures
        match r {
            Ok(content) => spec_decode_bundle_elems(buf@, pos as int, end as int, depth as int)
                == Ok::<(Seq<PacketModel>, int), OscError>(
                (packets_model(content, 0), end as int),
            ),
            Err(e) => spec_decode_bundle_elems(buf@, pos as int, end as int, depth as int)
                == Err::<(Seq<PacketModel>, int), OscError>(e),
        },
    decreases end - pos, 2int,
{
    let mut content: Vec<Packet> = Vec::new();
    proof {
        lemma_packets_model(content, 0);
        assert(packets_model(content, 0) =~= Seq::<PacketModel>::empty());
    }
    let mut p: usize = pos;
    while p < end
        invariant
            pos <= p <= end,
            end <= buf@.len(),
                        spec_decode_bundle_elems(buf@, p as int, end as int, depth as int) is Ok
                ==> spec_decode_bundle_elems(buf@, pos as int, end as int, depth as int) == Ok::<
                (Seq<PacketModel>, int),
                OscError,
            >(
                (
                    packets_model(content, 0) + spec_decode_bundle_elems(
                        buf@,
                        p as int,
                        end as int,
                        depth as int,
                    )->Ok_0.0,
                    spec_decode_bundle_elems(buf@, p as int, end as int, depth as int)->Ok_0.1,
                ),
            ),
            spec_decode_bundle_elems(buf@, p as int, end as int, depth as int) is Err
                ==> spec_decode_bundle_elems(buf@, pos as int, end as int, depth as int)
                == spec_decode_bundle_elems(buf@, p as int, end as int, depth as int),
        decreases end - p,
    {
        if end - p < 4 {
            return Err(OscError::BadBundle);
        }
        let n = read_u32(buf, p);
        if n >= 0x80000000 {
            return Err(OscError::BadBundle);
        }
        let nn = n as usize;
        if nn > end - (p + 4) {
            return Err(OscError::BadBundle);
        }
        match decode_packet_window(buf, p + 4, p + 4 + nn, depth) {
            Ok((child, _)) => {
                let ghost pre = content;
                content.push(child);
                proof {
                    lemma_packets_model_snoc(pre, content, child);
                    if spec_decode_bundle_elems(buf@, p + 4 + nn, end as int, depth as int) is Ok {
                        let rest = spec_decode_bundle_elems(
                            buf@,
                            p + 4 + nn,
                            end as int,
                            depth as int,
                        )->Ok_0.0;
                        assert(packets_model(pre, 0) + (seq![crate::types::packet_model(child)]
                            + rest) =~= packets_model(content, 0) + rest);
                    }
                }
                p = p + 4 + nn;
            },
            Err(e) => {
                return Err(e);
            },
        }
    }
    proof {
        assert(packets_model(content, 0) + Seq::<PacketModel>::empty() =~= packets_model(
            content,
            0,
        ));
    }
    Ok(content)
}

/// Decodes a byte buffer as an OSC packet.  A leading `/` is decoded
/// as a message, a leading `#` as a bundle; an empty buffer or any
/// other leading byte is `BadPacket`.  Every malformed or truncated
/// input yields the typed error the wire-format specification names,
/// never a panic or an out-of-bounds read; bundle nesting is bounded.
pub fn decode(buf: &[u8]) -> (r: Result<Packet, OscError>)
    ensures
        match r {
            Ok(p) => spec_decode(buf@) is Ok && spec_decode(buf@)->Ok_0.0 == p@,
            Err(e) => spec_decode(buf@) == Err::<(PacketModel, int), OscError>(e),
        },
{
    match decode_packet_window(buf, 0, buf.len(), MAX_BUNDLE_DEPTH) {
        Ok((p, _)) => Ok(p),
        Err(e) => Err(e),
    }
}

/// Decodes a byte buffer as a single OSC message.  An address that
/// does not start with `/` is `BadAddress`.
pub fn decode_message(buf: &[u8]) -> (r: Result<Message, OscError>)
    ensures
        match r {
            Ok(m) => spec_decode_message(buf@, 0, buf@.len() as int) is Ok && spec_decode_message(
                buf@,
                0,
                buf@.len() as int,
            )->Ok_0.0 == m@,
            Err(e) => spec_decode_message(buf@, 0, buf@.len() as int) == Err::<
                (MessageModel, int),
                OscError,
            >(e),
        },
{
    match decode_message_window(buf, 0, buf.len()) {
        Ok((m, _)) => Ok(m),
        Err(e) => Err(e),
    }
}

/// The model of a packet list grows by the model of a pushed packet.
proof fn lemma_packets_model_snoc(a: Vec<Packet>, b: Vec<Packet>, p: Packet)
    requires
        b@ == a@.push(p),
    ensures
        packets_model(b, 0) == packets_model(a, 0).push(crate::types::packet_model(p)),
{
    lemma_packets_model(a, 0);
    lemma_packets_model(b, 0);
    assert forall|j: int| 0 <= j < a@.len() implies packets_model(a, 0)[j]
        == crate::types::packet_model(a@[j]) by {
        assert(packets_model(a, 0)[j - 0] == crate::types::packet_model(a@[j]));
    }
    assert forall|j: int| 0 <= j < b@.len() implies packets_model(b, 0)[j]
        == crate::types::packet_model(b@[j]) by {
        assert(packets_model(b, 0)[j - 0] == crate::types::packet_model(b@[j]));
    }
    assert(packets_model(b, 0) =~= packets_model(a, 0).push(crate::types::packet_model(p)));
}

} // verus!
