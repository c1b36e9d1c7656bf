//! The executable encoder: turns messages, bundles and packets into the
//! exact byte sequences the wire-format specification prescribes.

use vstd::prelude::*;

verus! {

use crate::errors::OscError;
use crate::types::Message;
use crate::types::Packet;
use crate::types::Value;
use crate::types::str_bytes;
use crate::types::valid_addr_bytes;
use crate::types::valid_str_bytes;
use crate::types::value_model;
use crate::types::values_model;
use crate::types::lemma_values_model;
use crate::types::lemma_packets_model;
use crate::types::packets_model;
use crate::types::MAX_BUNDLE_DEPTH;
use crate::wire::BYTE_COMMA;
use crate::wire::enc_blob;
use crate::wire::enc_str;
use crate::wire::enc_u32be;
use crate::wire::enc_u64be;
use crate::wire::lemma_pad4;
use crate::wire::lemma_value_payload_aligned;
use crate::wire::pad4;
use crate::wire::spec_encode_bundle_elems;
use crate::wire::spec_encode_message;
use crate::wire::spec_encode_packet;
use crate::wire::spec_encode_value;
use crate::wire::spec_encode_values;
use crate::wire::bundle_header;
use crate::wire::tags_of_value;
use crate::wire::tags_of_values;
use crate::wire::u32_of_i32;
use crate::wire::u64_of_i64;
use crate::wire::zeros;

use vstd::string::StringSliceAdditionalSpecFns;

/// Appends the four big-endian bytes of `x`.
fn push_u32be(out: &mut Vec<u8>, x: u32)
    ensures
        final(out)@ == old(out)@ + enc_u32be(x),
{
    out.push((x / 0x1000000) as u8);
    out.push(((x / 0x10000) % 0x100) as u8);
    out.push(((x / 0x100) % 0x100) as u8);
    out.push((x % 0x100) as u8);
    proof {
        assert(out@ =~= old(out)@ + enc_u32be(x));
    }
}

/// Appends the eight big-endian bytes of `x`.
fn push_u64be(out: &mut Vec<u8>, x: u64)
    ensures
        final(out)@ == old(out)@ + enc_u64be(x),
{
    out.push((x / 0x100000000000000) as u8);
    out.push(((x / 0x1000000000000) % 0x100) as u8);
    out.push(((x / 0x10000000000) % 0x100) as u8);
    out.push(((x / 0x100000000) % 0x100) as u8);
    out.push(((x / 0x1000000) % 0x100) as u8);
    out.push(((x / 0x10000) % 0x100) as u8);
    out.push(((x / 0x100) % 0x100) as u8);
    out.push((x % 0x100) as u8);
    proof {
        assert(out@ =~= old(out)@ + enc_u64be(x));
    }
}

/// Appends the bytes of `content` followed by a null terminator and
/// null padding to the next multiple of four bytes.
#[verifier::loop_isolation(false)]
fn push_str_bytes(out: &mut Vec<u8>, content: &[u8])
    requires
        old(out)@.len() % 4 == 0,
    ensures
        final(out)@ == old(out)@ + enc_str(content@),
        final(out)@.len() % 4 == 0,
{
    let n = content.len();
    let mut i: usize = 0;
    while i < n
        invariant
            i <= n,
            out@ == old(out)@ + content@.subrange(0, i as int),
        decreases n - i,
    {
        out.push(content[i]);
        i += 1;
        proof {
            assert(out@ =~= old(out)@ + content@.subrange(0, i as int));
        }
    }
    proof {
        assert(out@ =~= old(out)@ + content@);
    }
    out.push(0);
    proof {
        assert(out@ =~= old(out)@ + content@ + zeros(1));
        lemma_pad4(content@.len() as int + 1);
    }
    while out.len() % 4 != 0
        invariant
            out@.len() > old(out)@.len() + content@.len(),
            out@.len() <= old(out)@.len() + pad4(content@.len() as int + 1),
            out@ == old(out)@ + content@ + zeros(
                out@.len() - old(out)@.len() - content@.len(),
            ),
        decreases old(out)@.len() + pad4(content@.len() as int + 1) - out@.len(),
    {
        out.push(0);
        proof {
            assert(out@ =~= old(out)@ + content@ + zeros(
                out@.len() - old(out)@.len() - content@.len(),
            ));
        }
    }
    proof {
        assert(out@ =~= old(out)@ + enc_str(content@));
    }
}

/// Appends the big-endian length of `b`, its bytes, and null padding to
/// the next multiple of four bytes.
#[verifier::loop_isolation(false)]
#[verifier::rlimit(50)]
fn push_blob_bytes(out: &mut Vec<u8>, b: &[u8])
    requires
        old(out)@.len() % 4 == 0,
        b@.len() < 0x80000000,
    ensures
        final(out)@ == old(out)@ + enc_blob(b@),
        final(out)@.len() % 4 == 0,
{
    push_u32be(out, b.len() as u32);
    let ghost mid = out@;
    let n = b.len();
    let mut i: usize = 0;
    while i < n
        invariant
            i <= n,
            out@ == mid + b@.subrange(0, i as int),
        decreases n - i,
    {
        out.push(b[i]);
        i += 1;
        proof {
            assert(out@ =~= mid + b@.subrange(0, i as int));
        }
    }
    proof {
        assert(out@ =~= mid + b@);
        lemma_pad4(b@.len() as int);
    }
    while out.len() % 4 != 0
        invariant
            out@.len() >= mid.len() + b@.len(),
            out@.len() <= mid.len() + pad4(b@.len() as int) - b@.len() + b@.len(),
            out@ == mid + b@ + zeros(out@.len() - mid.len() - b@.len()),
        decreases mid.len() + pad4(b@.len() as int) - out@.len(),
    {
        out.push(0);
        proof {
            assert(out@ =~= mid + b@ + zeros(out@.len() - mid.len() - b@.len()));
        }
    }
    proof {
        assert(out@ =~= old(out)@ + enc_blob(b@));
    }
}

/// Whether `s` is a well-formed OSC string: ASCII with no embedded
/// null.
#[verifier::loop_isolation(false)]
pub fn check_osc_str(s: &str) -> (r: bool)
    ensures
        r == valid_str_bytes(str_bytes(s@)),
        r ==> s.is_ascii() && s@.len() == s.spec_bytes().len() && s.spec_bytes() == str_bytes(s@),
{
    if !s.is_ascii() {
        proof {
            let i = choose|i: int| 0 <= i < s@.len() && !('\0' <= #[trigger] s@[i] <= '\u{7f}');
            assert(str_bytes(s@)[i] == 128u8);
        }
        return false;
    }
    let b = s.as_bytes();
    proof {
        vstd::utf8::is_ascii_chars_encode_utf8(s@);
        assert(b@ =~= str_bytes(s@));
    }
    let mut i: usize = 0;
    let n = b.len();
    while i < n
        invariant
            i <= n,
            forall|j: int| 0 <= j < i ==> 0 < #[trigger] b@[j] < 128,
        decreases n - i,
    {
        if b[i] == 0 || b[i] >= 128 {
            return false;
        }
        i += 1;
    }
    true
}

/// Appends the type-tag bytes of `v`, arrays bracketed recursively.
#[verifier::loop_isolation(false)]
fn push_tags(tags: &mut Vec<u8>, v: &Value)
    ensures
        final(tags)@ == old(tags)@ + tags_of_value(value_model(*v)),
    decreases *v,
{
    match v {
        Value::Array(items) => {
            tags.push(crate::wire::TAG_ARRAY_OPEN);
            let ghost models = values_model(*items, 0);
            proof {
                lemma_values_model(*items, 0);
            }
            let mut i: usize = 0;
            while i < items.len()
                invariant
                    i <= items@.len(),
                    tags@ == old(tags)@ + seq![crate::wire::TAG_ARRAY_OPEN] + tags_prefix(
                        models,
                        i as int,
                    ),
                decreases items@.len() - i,
            {
                proof {
                    assert(*v == Value::Array(*items));
                    assert(decreases_to!(*v => *items));
                    assert(decreases_to!(*items => items[i as int]));
                    assert(value_model(items[i as int]) == models[i as int]);
                }
                push_tags(tags, &items[i]);
                proof {
                    lemma_tags_prefix_step(models, i as int);
                    assert(tags@ =~= old(tags)@ + seq![crate::wire::TAG_ARRAY_OPEN] + tags_prefix(
                        models,
                        i + 1,
                    ));
                }
                i += 1;
            }
            proof {
                lemma_tags_prefix_all(models, 0);
            }
            tags.push(crate::wire::TAG_ARRAY_CLOSE);
            proof {
                assert(tags@ =~= old(tags)@ + tags_of_value(value_model(*v)));
            }
        },
        _ => {
            let t: u8 = match v {
                Value::Int(_) => crate::wire::TAG_INT,
                Value::Float(_) => crate::wire::TAG_FLOAT,
                Value::Str(_) => crate::wire::TAG_STR,
                Value::Blob(_) => crate::wire::TAG_BLOB,
                Value::Long(_) => crate::wire::TAG_LONG,
                Value::Time(_) => crate::wire::TAG_TIME,
                Value::Double(_) => crate::wire::TAG_DOUBLE,
                Value::Char(_) => crate::wire::TAG_CHAR,
                Value::Color(_) => crate::wire::TAG_COLOR,
                Value::Midi(_) => crate::wire::TAG_MIDI,
                Value::Bool(b) => if *b {
                    crate::wire::TAG_TRUE
                } else {
                    crate::wire::TAG_FALSE
                },
                Value::Nil => crate::wire::TAG_NIL,
                Value::Inf => crate::wire::TAG_INF,
                Value::Array(_) => crate::wire::TAG_ARRAY_OPEN,
            };
            tags.push(t);
            proof {
                assert(tags@ =~= old(tags)@ + tags_of_value(value_model(*v)));
            }
        },
    }
}

/// The type-tag bytes of the first `i` values of `items`.
pub open spec fn tags_prefix(items: Seq<crate::types::ValueModel>, i: int) -> Seq<u8>
    decreases i,
{
    if i <= 0 {
        Seq::<u8>::empty()
    } else {
        tags_prefix(items, i - 1) + tags_of_value(items[i - 1])
    }
}

/// One step of the prefix: appending the tags of value `i`.
proof fn lemma_tags_prefix_step(items: Seq<crate::types::ValueModel>, i: int)
    requires
        0 <= i,
    ensures
        tags_prefix(items, i + 1) == tags_prefix(items, i) + tags_of_value(items[i]),
{
}

/// The full prefix equals the tag bytes of the whole list.
proof fn lemma_tags_prefix_all(items: Seq<crate::types::ValueModel>, i: int)
    requires
        0 <= i <= items.len(),
    ensures
        tags_prefix(items, items.len() as int) == tags_prefix(items, i) + tags_of_values(items, i),
    decreases items.len() - i,
{
    if i < items.len() {
        lemma_tags_prefix_all(items, i + 1);
        assert(tags_prefix(items, items.len() as int) =~= tags_prefix(items, i) + tags_of_values(
            items,
            i,
        ));
    } else {
        assert(tags_prefix(items, items.len() as int) =~= tags_prefix(items, i) + tags_of_values(
            items,
            i,
        ));
    }
}

/// Appends the payload bytes of one value, or reports why the value
/// cannot be encoded, leaving the spec error untouched.
#[verifier::loop_isolation(false)]
#[verifier::rlimit(100)]
fn encode_value(out: &mut Vec<u8>, v: &Value) -> (r: Result<(), OscError>)
    requires
        old(out)@.len() % 4 == 0,
    ensures
        match r {
            Ok(()) => spec_encode_value(value_model(*v)) is Ok && final(out)@ == old(out)@
                + spec_encode_value(value_model(*v))->Ok_0 && final(out)@.len() % 4 == 0,
            Err(e) => spec_encode_value(value_model(*v)) == Err::<Seq<u8>, OscError>(e),
        },
    decreases *v,
{
    match v {
        Value::Str(s) => {
            proof {
                assert(value_model(*v) == crate::types::ValueModel::Str(str_bytes(s@)));
            }
            let sa = s.as_str();
            if !check_osc_str(sa) {
                return Err(OscError::BadArg);
            }
            let ab = sa.as_bytes();
            if ab.len() >= 0x80000000 {
                return Err(OscError::BadArg);
            }
            proof {
                assert(valid_str_bytes(str_bytes(s@)));
                assert(str_bytes(s@).len() < 0x80000000);
                assert(spec_encode_value(value_model(*v)) == Ok::<Seq<u8>, OscError>(
                    enc_str(str_bytes(s@)),
                ));
            }
            push_str_bytes(out, ab);
            Ok(())
        },
        Value::Blob(b) => {
            proof {
                assert(value_model(*v) == crate::types::ValueModel::Blob(b@));
            }
            if b.len() >= 0x80000000 {
                return Err(OscError::BadArg);
            }
            push_blob_bytes(out, b.as_slice());
            Ok(())
        },
        Value::Array(items) => {
            proof {
                assert(*v == Value::Array(*items));
                assert(decreases_to!(*v => *items));
            }
            encode_values(out, items)
        },
        _ => encode_simple_value(out, v),
    }
}

/// Appends the payload bytes of a value with a fixed-size payload.
#[verifier::rlimit(100)]
fn encode_simple_value(out: &mut Vec<u8>, v: &Value) -> (r: Result<(), OscError>)
    requires
        old(out)@.len() % 4 == 0,
        !(v is Str),
        !(v is Blob),
        !(v is Array),
    ensures
        match r {
            Ok(()) => spec_encode_value(value_model(*v)) is Ok && final(out)@ == old(out)@
                + spec_encode_value(value_model(*v))->Ok_0 && final(out)@.len() % 4 == 0,
            Err(e) => spec_encode_value(value_model(*v)) == Err::<Seq<u8>, OscError>(e),
        },
{
    match v {
        Value::Int(x) => {
            let u: u32 = if *x >= 0 {
                *x as u32
            } else {
                0xFFFF_FFFFu32 - ((-(*x + 1)) as u32)
            };
            proof {
                assert(u == u32_of_i32(*x));
                assert(value_model(*v) == crate::types::ValueModel::Int(*x));
                assert(spec_encode_value(value_model(*v)) == Ok::<Seq<u8>, OscError>(
                    enc_u32be(u),
                ));
            }
            push_u32be(out, u);
            Ok(())
        },
        Value::Float(x) => {
            push_u32be(out, *x);
            Ok(())
        },
        Value::Long(x) => {
            let u: u64 = if *x >= 0 {
                *x as u64
            } else {
                0xFFFF_FFFF_FFFF_FFFFu64 - ((-(*x + 1)) as u64)
            };
            proof {
                assert(u == u64_of_i64(*x));
            }
            push_u64be(out, u);
            Ok(())
        },
        Value::Time(t) => {
            push_u32be(out, t.seconds);
            push_u32be(out, t.fractional);
            proof {
                assert(out@ =~= old(out)@ + spec_encode_value(value_model(*v))->Ok_0);
            }
            Ok(())
        },
        Value::Double(x) => {
            push_u64be(out, *x);
            Ok(())
        },
        Value::Char(c) => {
            if *c >= 128 {
                return Err(OscError::BadArg);
            }
            push_u32be(out, *c as u32);
            Ok(())
        },
        Value::Color(c) => {
            out.push(c.red);
            out.push(c.green);
            out.push(c.blue);
            out.push(c.alpha);
            proof {
                assert(out@ =~= old(out)@ + spec_encode_value(value_model(*v))->Ok_0);
            }
            Ok(())
        },
        Value::Midi(m) => {
            out.push(m.port);
            out.push(m.status);
            out.push(m.data1);
            out.push(m.data2);
            proof {
                assert(out@ =~= old(out)@ + spec_encode_value(value_model(*v))->Ok_0);
            }
            Ok(())
        },
        Value::Bool(_) => {
            proof {
                assert(out@ =~= old(out)@ + spec_encode_value(value_model(*v))->Ok_0);
            }
            Ok(())
        },
        Value::Nil => {
            proof {
                assert(out@ =~= old(out)@ + spec_encode_value(value_model(*v))->Ok_0);
            }
            Ok(())
        },
        Value::Inf => {
            proof {
                assert(out@ =~= old(out)@ + spec_encode_value(value_model(*v))->Ok_0);
            }
            Ok(())
        },
        _ => {
            proof {
                assert(false);
            }
            Err(OscError::BadArg)
        },
    }
}

/// Appends the payload bytes of each value in order, or reports the
/// first value that cannot be encoded.
#[verifier::loop_isolation(false)]
#[verifier::rlimit(50)]
#[verifier::spinoff_prover]
fn encode_values(out: &mut Vec<u8>, items: &Vec<Value>) -> (r: Result<(), OscError>)
    requires
        old(out)@.len() % 4 == 0,
    ensures
        match r {
            Ok(()) => spec_encode_values(values_model(*items, 0), 0) is Ok && final(out)@ == old(
                out,
            )@ + spec_encode_values(values_model(*items, 0), 0)->Ok_0 && final(out)@.len() % 4
                == 0,
            Err(e) => spec_encode_values(values_model(*items, 0), 0) == Err::<Seq<u8>, OscError>(
                e,
            ),
        },
    decreases *items,
{
    let ghost models = values_model(*items, 0);
    proof {
        lemma_values_model(*items, 0);
    }
    let ghost base = out@;
    let ghost mut written: Seq<u8> = Seq::empty();
    proof {
        assert(base + written =~= base);
        if spec_encode_values(models, 0) is Ok {
            assert(written + spec_encode_values(models, 0)->Ok_0 =~= spec_encode_values(
                models,
                0,
            )->Ok_0);
        }
    }
    let mut i: usize = 0;
    while i < items.len()
        invariant
            i <= items@.len(),
            models.len() == items@.len(),
            out@ == base + written,
            out@.len() % 4 == 0,
            spec_encode_values(models, i as int) is Ok ==> spec_encode_values(models, 0) == Ok::<
                Seq<u8>,
                OscError,
            >(written + spec_encode_values(models, i as int)->Ok_0),
            spec_encode_values(models, i as int) is Err ==> spec_encode_values(models, 0)
                == spec_encode_values(models, i as int),
        decreases items@.len() - i,
    {
        proof {
            assert(decreases_to!(*items => items[i as int]));
            assert(value_model(items[i as int]) == models[i as int]);
        }
        match encode_value(out, &items[i]) {
            Ok(()) => {
                proof {
                    let w0 = written;
                    let p = spec_encode_value(models[i as int])->Ok_0;
                    lemma_value_payload_aligned(models[i as int]);
                    written = w0 + p;
                    assert((base + w0) + p =~= base + written);
                    if spec_encode_values(models, i + 1) is Ok {
                        let r2 = spec_encode_values(models, i + 1)->Ok_0;
                        assert(w0 + (p + r2) =~= written + r2);
                    }
                }
            },
            Err(e) => {
                return Err(e);
            },
        }
        i += 1;
    }
    proof {
        assert(spec_encode_values(models, models.len() as int) is Ok);
        assert(written + spec_encode_values(models, models.len() as int)->Ok_0 =~= written);
    }
    Ok(())
}

/// Appends the encoded form of a message: the padded address, the
/// padded type-tag string, then the argument payloads.
#[verifier::loop_isolation(false)]
#[verifier::rlimit(50)]
#[verifier::spinoff_prover]
fn encode_message(out: &mut Vec<u8>, m: &Message) -> (r: Result<(), OscError>)
    requires
        old(out)@.len() % 4 == 0,
    ensures
        match r {
            Ok(()) => spec_encode_message(crate::types::message_model(*m)) is Ok && final(out)@
                == old(out)@ + spec_encode_message(crate::types::message_model(*m))->Ok_0
                && final(out)@.len() % 4 == 0,
            Err(e) => spec_encode_message(crate::types::message_model(*m)) == Err::<
                Seq<u8>,
                OscError,
            >(e),
        },
{
    let ghost model = crate::types::message_model(*m);
    let sa = m.addr.as_str();
    if !check_osc_str(sa) {
        return Err(OscError::BadAddress);
    }
    let ab = sa.as_bytes();
    if ab.len() == 0 || ab[0] != 47 || ab.len() >= 0x80000000 {
        return Err(OscError::BadAddress);
    }
    proof {
        assert(valid_addr_bytes(model.addr));
        assert(model.addr.len() < 0x80000000);
    }
    let mut tagv: Vec<u8> = Vec::new();
    tagv.push(BYTE_COMMA);
    let ghost argmodels = values_model(m.args, 0);
    proof {
        lemma_values_model(m.args, 0);
        assert(tagv@ =~= seq![BYTE_COMMA] + tags_prefix(argmodels, 0));
    }
    let mut i: usize = 0;
    while i < m.args.len()
        invariant
            i <= m.args@.len(),
            argmodels.len() == m.args@.len(),
            tagv@ == seq![BYTE_COMMA] + tags_prefix(argmodels, i as int),
        decreases m.args@.len() - i,
    {
        proof {
            assert(value_model(m.args[i as int]) == argmodels[i as int]);
        }
        push_tags(&mut tagv, &m.args[i]);
        proof {
            lemma_tags_prefix_step(argmodels, i as int);
            assert(tagv@ =~= seq![BYTE_COMMA] + tags_prefix(argmodels, i + 1));
        }
        i += 1;
    }
    proof {
        lemma_tags_prefix_all(argmodels, 0);
        assert(tagv@ =~= seq![BYTE_COMMA] + tags_of_values(argmodels, 0));
    }
    push_str_bytes(out, ab);
    let ghost after_addr = out@;
    push_str_bytes(out, tagv.as_slice());
    let ghost after_tags = out@;
    match encode_values(out, &m.args) {
        Ok(()) => {
            proof {
                let payload = spec_encode_values(argmodels, 0)->Ok_0;
                assert(out@ =~= old(out)@ + (enc_str(model.addr) + enc_str(
                    seq![BYTE_COMMA] + tags_of_values(model.args, 0),
                ) + payload));
            }
            Ok(())
        },
        Err(e) => Err(e),
    }
}

/// Appends the encoded form of a packet, with `depth` remaining levels
/// of bundle nesting.
#[verifier::loop_isolation(false)]
#[verifier::rlimit(100)]
#[verifier::spinoff_prover]
fn encode_packet(out: &mut Vec<u8>, p: &Packet, depth: u32) -> (r: Result<(), OscError>)
    requires
        old(out)@.len() % 4 == 0,
    ensures
        match r {
            Ok(()) => spec_encode_packet(crate::types::packet_model(*p), depth as int) is Ok
                && final(out)@ == old(out)@ + spec_encode_packet(
                crate::types::packet_model(*p),
                depth as int,
            )->Ok_0 && final(out)@.len() % 4 == 0,
            Err(e) => spec_encode_packet(crate::types::packet_model(*p), depth as int) == Err::<
                Seq<u8>,
                OscError,
            >(e),
        },
    decreases *p,
{
    match p {
        Packet::Message(m) => encode_message(out, m),
        Packet::Bundle(b) => {
            if depth == 0 {
                return Err(OscError::BadBundle);
            }
            let ghost base = out@;
            out.push(35);
            out.push(98);
            out.push(117);
            out.push(110);
            out.push(100);
            out.push(108);
            out.push(101);
            out.push(0);
            proof {
                assert(out@ =~= base + bundle_header());
            }
            push_u32be(out, b.timetag.seconds);
            push_u32be(out, b.timetag.fractional);
            let ghost head = out@;
            proof {
                assert(head =~= base + (bundle_header() + enc_u32be(b.timetag.seconds)
                    + enc_u32be(b.timetag.fractional)));
                assert(*p == Packet::Bundle(*b));
                assert(decreases_to!(*p => *b));
                assert(decreases_to!(*b => b.content));
            }
            match encode_bundle_elems(out, &b.content, depth - 1) {
                Ok(()) => {
                    proof {
                        let elems = spec_encode_bundle_elems(
                            packets_model(b.content, 0),
                            0,
                            depth - 1,
                        )->Ok_0;
                        assert(out@ =~= base + (bundle_header() + enc_u32be(b.timetag.seconds)
                            + enc_u32be(b.timetag.fractional) + elems));
                    }
                    Ok(())
                },
                Err(e) => Err(e),
            }
        },
    }
}

/// The accumulator relation of the bundle-element loop: the bytes
/// written so far stand for the elements before `i`, so the whole run
/// is the written bytes followed by the run from `i`.
pub open spec fn elems_acc_inv(
    cmodels: Seq<crate::types::PacketModel>,
    i: int,
    depth: int,
    written: Seq<u8>,
) -> bool {
    &&& spec_encode_bundle_elems(cmodels, i, depth) is Ok ==> spec_encode_bundle_elems(
        cmodels,
        0,
        depth,
    ) == Ok::<Seq<u8>, OscError>(written + spec_encode_bundle_elems(cmodels, i, depth)->Ok_0)
    &&& spec_encode_bundle_elems(cmodels, i, depth) is Err ==> spec_encode_bundle_elems(
        cmodels,
        0,
        depth,
    ) == spec_encode_bundle_elems(cmodels, i, depth)
}

/// The accumulator relation holds at the start of the loop.
proof fn lemma_elems_acc_init(cmodels: Seq<crate::types::PacketModel>, depth: int)
    ensures
        elems_acc_inv(cmodels, 0, depth, Seq::empty()),
{
    if spec_encode_bundle_elems(cmodels, 0, depth) is Ok {
        assert(Seq::<u8>::empty() + spec_encode_bundle_elems(cmodels, 0, depth)->Ok_0
            =~= spec_encode_bundle_elems(cmodels, 0, depth)->Ok_0);
    }
}

/// What the accumulator relation says at the loop's exits: the whole
/// run is the written bytes when the elements are exhausted, and the
/// first failing element decides the whole run.
#[verifier::rlimit(100)]
#[verifier::spinoff_prover]
proof fn lemma_elems_acc_end(
    cmodels: Seq<crate::types::PacketModel>,
    i: int,
    depth: int,
    written: Seq<u8>,
)
    requires
        0 <= i <= cmodels.len(),
        elems_acc_inv(cmodels, i, depth, written),
    ensures
        i == cmodels.len() ==> spec_encode_bundle_elems(cmodels, 0, depth) == Ok::<
            Seq<u8>,
            OscError,
        >(written),
        i < cmodels.len() && spec_encode_packet(cmodels[i], depth) is Err
            ==> spec_encode_bundle_elems(cmodels, 0, depth) == Err::<Seq<u8>, OscError>(
            spec_encode_packet(cmodels[i], depth)->Err_0,
        ),
        i < cmodels.len() && spec_encode_packet(cmodels[i], depth) is Ok && spec_encode_packet(
            cmodels[i],
            depth,
        )->Ok_0.len() >= 0x80000000 ==> spec_encode_bundle_elems(cmodels, 0, depth) == Err::<
            Seq<u8>,
            OscError,
        >(OscError::BadBundle),
{
    if i == cmodels.len() {
        assert(written + spec_encode_bundle_elems(cmodels, i, depth)->Ok_0 =~= written);
    }
}

/// One step of the accumulator relation: extending the written bytes
/// by one size-prefixed child advances it past that element.
#[verifier::rlimit(100)]
#[verifier::spinoff_prover]
proof fn lemma_elems_acc_step(
    cmodels: Seq<crate::types::PacketModel>,
    i: int,
    depth: int,
    written: Seq<u8>,
    c: Seq<u8>,
)
    requires
        0 <= i < cmodels.len(),
        spec_encode_packet(cmodels[i], depth) == Ok::<Seq<u8>, OscError>(c),
        c.len() < 0x80000000,
        elems_acc_inv(cmodels, i, depth, written),
    ensures
        elems_acc_inv(cmodels, i + 1, depth, written + enc_u32be(c.len() as u32) + c),
{
    if spec_encode_bundle_elems(cmodels, i + 1, depth) is Ok {
        let r2 = spec_encode_bundle_elems(cmodels, i + 1, depth)->Ok_0;
        assert(written + (enc_u32be(c.len() as u32) + c + r2) =~= (written + enc_u32be(
            c.len() as u32,
        ) + c) + r2);
    }
}

/// Appends the size-prefixed encoded children of a bundle in order.
#[verifier::loop_isolation(false)]
#[verifier::rlimit(100)]
#[verifier::spinoff_prover]
fn encode_bundle_elems(out: &mut Vec<u8>, content: &Vec<Packet>, depth: u32) -> (r: Result<
    (),
    OscError,
>)
    requires
        old(out)@.len() % 4 == 0,
    ensures
        match r {
            Ok(()) => spec_encode_bundle_elems(packets_model(*content, 0), 0, depth as int) is Ok
                && final(out)@ == old(out)@ + spec_encode_bundle_elems(
                packets_model(*content, 0),
                0,
                depth as int,
            )->Ok_0 && final(out)@.len() % 4 == 0,
            Err(e) => spec_encode_bundle_elems(packets_model(*content, 0), 0, depth as int)
                == Err::<Seq<u8>, OscError>(e),
        },
    decreases *content,
{
    let ghost head = out@;
    let ghost cmodels = packets_model(*content, 0);
    proof {
        lemma_packets_model(*content, 0);
    }
    let ghost mut written: Seq<u8> = Seq::empty();
    proof {
        assert(head + written =~= head);
        lemma_elems_acc_init(cmodels, depth as int);
    }
    let mut i: usize = 0;
    while i < content.len()
        invariant
            i <= content@.len(),
            cmodels.len() == content@.len(),
            out@ == head + written,
            out@.len() % 4 == 0,
            elems_acc_inv(cmodels, i as int, depth as int, written),
        decreases content@.len() - i,
    {
        proof {
            assert(decreases_to!(*content => content[i as int]));
            assert(crate::types::packet_model(content[i as int]) == cmodels[i as int]);
        }
        let mut child: Vec<u8> = Vec::new();
        match encode_packet(&mut child, &content[i], depth) {
            Ok(()) => {
                if child.len() >= 0x80000000 {
                    proof {
                        lemma_elems_acc_end(cmodels, i as int, depth as int, written);
                    }
                    return Err(OscError::BadBundle);
                }
                push_u32be(out, child.len() as u32);
                let ghost cbytes = child@;
                out.append(&mut child);
                proof {
                    let w0 = written;
                    lemma_elems_acc_step(cmodels, i as int, depth as int, w0, cbytes);
                    written = w0 + enc_u32be(cbytes.len() as u32) + cbytes;
                    assert(out@ =~= head + written);
                }
            },
            Err(e) => {
                proof {
                    lemma_elems_acc_end(cmodels, i as int, depth as int, written);
                }
                return Err(e);
            },
        }
        i += 1;
    }
    proof {
        lemma_elems_acc_end(cmodels, content@.len() as int, depth as int, written);
    }
    Ok(())
}

/// Encodes a packet into its OSC wire form.  Returns the exact byte
/// sequence the wire-format specification prescribes for the packet, or
/// the first error that makes the packet unencodable; the encoding's
/// length is always a multiple of four.
pub fn encode(packet: &Packet) -> (r: Result<Vec<u8>, OscError>)
    ensures
        match r {
            Ok(bytes) => spec_encode_packet(packet@, MAX_BUNDLE_DEPTH as int) == Ok::<
                Seq<u8>,
                OscError,
            >(bytes@) && bytes@.len() % 4 == 0,
            Err(e) => spec_encode_packet(packet@, MAX_BUNDLE_DEPTH as int) == Err::<
                Seq<u8>,
                OscError,
            >(e),
        },
{
    let mut out: Vec<u8> = Vec::new();
    match encode_packet(&mut out, packet, MAX_BUNDLE_DEPTH) {
        Ok(()) => {
            proof {
                assert(out@ =~= spec_encode_packet(packet@, MAX_BUNDLE_DEPTH as int)->Ok_0);
            }
            Ok(out)
        },
        Err(e) => Err(e),
    }
}

} // verus!
