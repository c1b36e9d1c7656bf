//! Round-trip laws of the wire format: decoding an encoding yields the
//! value that was encoded.  Each law is stated over the wire-format
//! specification functions that the codec's contracts use, so it holds
//! of the executable codec as well.

use vstd::prelude::*;

verus! {

use crate::errors::OscError;
use crate::types::BundleModel;
use crate::types::MessageModel;
use crate::types::PacketModel;
use crate::types::MAX_BUNDLE_DEPTH;
use crate::types::ValueModel;
use crate::types::valid_str_bytes;
use crate::wire::dec_u32be;
use crate::wire::enc_blob;
use crate::wire::enc_str;
use crate::wire::lemma_pad4;
use crate::wire::pad4;
use crate::wire::spec_decode_arg;
use crate::wire::spec_encode_value;
use crate::wire::spec_find_nul;
use crate::wire::spec_read_str;
use crate::wire::tags_of_value;
use crate::wire::tags_of_values;
use crate::wire::spec_decode_args;
use crate::wire::spec_decode_message;
use crate::wire::spec_encode_message;
use crate::wire::spec_encode_packet;
use crate::wire::spec_encode_bundle_elems;
use crate::wire::spec_decode_packet;
use crate::wire::spec_decode_bundle_elems;
use crate::wire::spec_decode;
use crate::wire::valid_packet;
use crate::wire::bundle_header;
use crate::wire::BYTE_COMMA;
use crate::wire::spec_encode_values;
use crate::wire::zeros;
use crate::wire::dec_u64be;
use crate::wire::enc_u32be;
use crate::wire::enc_u64be;
use crate::wire::i32_of_u32;
use crate::wire::i64_of_u64;
use crate::wire::u32_of_i32;
use crate::wire::u64_of_i64;

/// Decoding the four big-endian bytes of a 32-bit value yields the
/// value back.
#[verifier::rlimit(100)]
#[verifier::spinoff_prover]
pub proof fn lemma_u32be_roundtrip(x: u32)
    ensures
        dec_u32be(enc_u32be(x), 0) == x,
{
    vstd::arithmetic::div_mod::lemma_div_denominator(x as int, 0x100, 0x100);
    vstd::arithmetic::div_mod::lemma_div_denominator(x as int, 0x10000, 0x100);
}

/// Decoding the eight big-endian bytes of a 64-bit value yields the
/// value back.
#[verifier::rlimit(100)]
#[verifier::spinoff_prover]
pub proof fn lemma_u64be_roundtrip(x: u64)
    ensures
        dec_u64be(enc_u64be(x), 0) == x,
{
    vstd::arithmetic::div_mod::lemma_div_denominator(x as int, 0x100, 0x100);
    vstd::arithmetic::div_mod::lemma_div_denominator(x as int, 0x10000, 0x100);
    vstd::arithmetic::div_mod::lemma_div_denominator(x as int, 0x1000000, 0x100);
    vstd::arithmetic::div_mod::lemma_div_denominator(x as int, 0x100000000, 0x100);
    vstd::arithmetic::div_mod::lemma_div_denominator(x as int, 0x10000000000, 0x100);
    vstd::arithmetic::div_mod::lemma_div_denominator(x as int, 0x1000000000000, 0x100);
}

/// The two's-complement wire forms of the signed integers invert.
pub proof fn lemma_signed_wire_roundtrip(x: i32, y: i64)
    ensures
        i32_of_u32(u32_of_i32(x)) == x,
        i64_of_u64(u64_of_i64(y)) == y,
{
}

/// `spec_find_nul` finds `t` when `t` is the first null in the window.
pub proof fn lemma_find_nul_at(s: Seq<u8>, pos: int, end: int, t: int)
    requires
        0 <= pos <= t < end <= s.len(),
        s[t] == 0,
        forall|j: int| pos <= j < t ==> #[trigger] s[j] != 0,
    ensures
        spec_find_nul(s, pos, end) == t,
    decreases t - pos,
{
    if pos < t {
        lemma_find_nul_at(s, pos + 1, end, t);
    }
}

/// Reading back an encoded string yields its content and consumes the
/// whole encoding.
#[verifier::rlimit(100)]
#[verifier::spinoff_prover]
pub proof fn lemma_read_str_of_enc(s: Seq<u8>)
    requires
        valid_str_bytes(s),
    ensures
        spec_read_str(enc_str(s), 0, enc_str(s).len() as int) == Ok::<(Seq<u8>, int), OscError>(
            (s, enc_str(s).len() as int),
        ),
{
    let e = enc_str(s);
    let n = s.len() as int;
    lemma_pad4(n + 1);
    assert(e.len() == pad4(n + 1));
    assert(e[n] == 0);
    assert forall|j: int| 0 <= j < n implies #[trigger] e[j] != 0 by {
        assert(e[j] == s[j]);
    }
    lemma_find_nul_at(e, 0, e.len() as int, n);
    assert forall|i: int| 0 <= i < n implies !(#[trigger] e[i] >= 128) by {
        assert(e[i] == s[i]);
    }
    assert forall|j: int| n < j < pad4(n + 1) implies #[trigger] e[j] == 0 by {
        assert(e[j] == zeros(pad4(n + 1) - n)[j - n]);
    }
    assert(e.subrange(0, n) =~= s);
}

/// Reading a string whose encoding stands at `pos` inside a larger
/// buffer yields its content and consumes exactly the encoding.
#[verifier::rlimit(100)]
#[verifier::spinoff_prover]
pub proof fn lemma_read_str_embedded(s: Seq<u8>, buf: Seq<u8>, pos: int, end: int)
    requires
        valid_str_bytes(s),
        0 <= pos,
        pos + enc_str(s).len() <= end <= buf.len(),
        buf.subrange(pos, pos + enc_str(s).len()) == enc_str(s),
    ensures
        spec_read_str(buf, pos, end) == Ok::<(Seq<u8>, int), OscError>(
            (s, pos + enc_str(s).len()),
        ),
{
    let e = enc_str(s);
    let n = s.len() as int;
    lemma_pad4(n + 1);
    assert(e.len() == pad4(n + 1));
    assert forall|k: int| 0 <= k < e.len() implies #[trigger] buf[pos + k] == e[k] by {
        assert(buf.subrange(pos, pos + e.len() as int)[k] == e[k]);
    }
    assert(buf[pos + n] == 0);
    assert forall|j: int| pos <= j < pos + n implies #[trigger] buf[j] != 0 by {
        assert(buf[j] == e[j - pos]);
        assert(e[j - pos] == s[j - pos]);
    }
    lemma_find_nul_at(buf, pos, end, pos + n);
    assert forall|i: int| pos <= i < pos + n implies !(#[trigger] buf[i] >= 128) by {
        assert(buf[i] == e[i - pos]);
        assert(e[i - pos] == s[i - pos]);
    }
    assert forall|j: int| pos + n < j < pos + pad4(n + 1) implies #[trigger] buf[j] == 0 by {
        assert(buf[j] == e[j - pos]);
        assert(e[j - pos] == zeros(pad4(n + 1) - n)[j - pos - n]);
    }
    assert(buf.subrange(pos, pos + n) =~= s);
}

/// Decoding the payload of an encoded value yields the value back and
/// consumes the whole payload, for every supported value type that is
/// not a nested array.
#[verifier::rlimit(100)]
#[verifier::spinoff_prover]
pub proof fn lemma_value_roundtrip(v: ValueModel)
    requires
        spec_encode_value(v) is Ok,
        !(v is Array),
    ensures
        ({
            let payload = spec_encode_value(v)->Ok_0;
            spec_decode_arg(tags_of_value(v)[0], payload, 0, payload.len() as int) == Ok::<
                (ValueModel, int),
                OscError,
            >((v, payload.len() as int))
        }),
{
    match v {
        ValueModel::Int(x) => {
            lemma_u32be_roundtrip(u32_of_i32(x));
        },
        ValueModel::Float(x) => {
            lemma_u32be_roundtrip(x);
        },
        ValueModel::Str(s) => {
            lemma_read_str_of_enc(s);
        },
        ValueModel::Blob(b) => {
            let e = enc_blob(b);
            let n = b.len() as int;
            lemma_pad4(n);
            assert forall|k: int| 0 <= k < 4 implies #[trigger] e[k] == enc_u32be(
                b.len() as u32,
            )[k] by {}
            assert(dec_u32be(e, 0) == dec_u32be(enc_u32be(b.len() as u32), 0));
            lemma_u32be_roundtrip(b.len() as u32);
            assert(e.subrange(4, 4 + n) =~= b);
        },
        ValueModel::Long(x) => {
            lemma_u64be_roundtrip(u64_of_i64(x));
        },
        ValueModel::Time(t) => {
            let e = enc_u32be(t.seconds) + enc_u32be(t.fractional);
            assert forall|k: int| 0 <= k < 4 implies #[trigger] e[k] == enc_u32be(t.seconds)[k]
                && e[4 + k] == enc_u32be(t.fractional)[k] by {}
            assert(dec_u32be(e, 0) == dec_u32be(enc_u32be(t.seconds), 0));
            assert(dec_u32be(e, 4) == dec_u32be(enc_u32be(t.fractional), 0));
            lemma_u32be_roundtrip(t.seconds);
            lemma_u32be_roundtrip(t.fractional);
        },
        ValueModel::Double(x) => {
            lemma_u64be_roundtrip(x);
        },
        ValueModel::Char(c) => {
            lemma_u32be_roundtrip(c as u32);
        },
        _ => {},
    }
}

/// Decoding at `pos` of a buffer that holds an encoded value's payload
/// there yields the value back and consumes exactly the payload, for
/// every supported value type that is not a nested array.
#[verifier::rlimit(100)]
#[verifier::spinoff_prover]
pub proof fn lemma_value_roundtrip_embedded(v: ValueModel, buf: Seq<u8>, pos: int, end: int)
    requires
        spec_encode_value(v) is Ok,
        !(v is Array),
        0 <= pos,
        pos + spec_encode_value(v)->Ok_0.len() <= end <= buf.len(),
        buf.subrange(pos, pos + spec_encode_value(v)->Ok_0.len()) == spec_encode_value(v)->Ok_0,
    ensures
        spec_decode_arg(tags_of_value(v)[0], buf, pos, end) == Ok::<(ValueModel, int), OscError>(
            (v, pos + spec_encode_value(v)->Ok_0.len()),
        ),
{
    let payload = spec_encode_value(v)->Ok_0;
    assert forall|k: int| 0 <= k < payload.len() implies #[trigger] buf[pos + k] == payload[k] by {
        assert(buf.subrange(pos, pos + payload.len() as int)[k] == payload[k]);
    }
    match v {
        ValueModel::Int(x) => {
            assert(dec_u32be(buf, pos) == dec_u32be(payload, 0));
            lemma_u32be_roundtrip(u32_of_i32(x));
        },
        ValueModel::Float(x) => {
            assert(dec_u32be(buf, pos) == dec_u32be(payload, 0));
            lemma_u32be_roundtrip(x);
        },
        ValueModel::Str(s) => {
            lemma_read_str_embedded(s, buf, pos, end);
        },
        ValueModel::Blob(b) => {
            let n = b.len() as int;
            lemma_pad4(n);
            assert(dec_u32be(buf, pos) == dec_u32be(enc_u32be(b.len() as u32), 0));
            lemma_u32be_roundtrip(b.len() as u32);
            assert forall|k: int| 0 <= k < n implies #[trigger] buf.subrange(
                pos + 4,
                pos + 4 + n,
            )[k] == b[k] by {
                assert(buf[pos + 4 + k] == payload[4 + k]);
                assert(payload[4 + k] == b[k]);
            }
            assert(buf.subrange(pos + 4, pos + 4 + n) =~= b);
        },
        ValueModel::Long(x) => {
            assert(dec_u64be(buf, pos) == dec_u64be(payload, 0));
            lemma_u64be_roundtrip(u64_of_i64(x));
        },
        ValueModel::Time(t) => {
            assert(dec_u32be(buf, pos) == dec_u32be(enc_u32be(t.seconds), 0));
            assert(dec_u32be(buf, pos + 4) == dec_u32be(enc_u32be(t.fractional), 0));
            lemma_u32be_roundtrip(t.seconds);
            lemma_u32be_roundtrip(t.fractional);
        },
        ValueModel::Double(x) => {
            assert(dec_u64be(buf, pos) == dec_u64be(payload, 0));
            lemma_u64be_roundtrip(x);
        },
        ValueModel::Char(c) => {
            assert(dec_u32be(buf, pos) == dec_u32be(payload, 0));
            lemma_u32be_roundtrip(c as u32);
        },
        _ => {},
    }
}

/// Decoding four bytes that hold a 32-bit value's big-endian form
/// yields the value.
pub proof fn lemma_u32be_embedded(x: u32, buf: Seq<u8>, pos: int)
    requires
        0 <= pos,
        pos + 4 <= buf.len(),
        buf.subrange(pos, pos + 4) == enc_u32be(x),
    ensures
        dec_u32be(buf, pos) == x,
{
    assert forall|k: int| 0 <= k < 4 implies #[trigger] buf[pos + k] == enc_u32be(x)[k] by {
        assert(buf.subrange(pos, pos + 4)[k] == enc_u32be(x)[k]);
    }
    assert(dec_u32be(buf, pos) == dec_u32be(enc_u32be(x), 0));
    lemma_u32be_roundtrip(x);
}

/// Decoding the arguments declared by a value list's tags, over a
/// buffer that holds the concatenated payloads, appends exactly those
/// values to the list under construction and consumes the payloads.
#[verifier::rlimit(100)]
#[verifier::spinoff_prover]
pub proof fn lemma_args_run(
    models: Seq<ValueModel>,
    tags: Seq<u8>,
    ti: int,
    buf: Seq<u8>,
    pos: int,
    end: int,
    acc: Seq<ValueModel>,
)
    requires
        forall|k: int| 0 <= k < models.len() ==> spec_encode_value(#[trigger] models[k]) is Ok,
        spec_encode_values(models, 0) is Ok,
        0 <= ti,
        tags.len() == ti + tags_of_values(models, 0).len(),
        tags.subrange(ti, tags.len() as int) == tags_of_values(models, 0),
        0 <= pos,
        pos + spec_encode_values(models, 0)->Ok_0.len() <= end <= buf.len(),
        buf.subrange(pos, pos + spec_encode_values(models, 0)->Ok_0.len()) == spec_encode_values(
            models,
            0,
        )->Ok_0,
    ensures
        spec_decode_args(tags, ti, buf, pos, end, seq![acc]) == Ok::<
            (Seq<ValueModel>, int),
            OscError,
        >((acc + models, pos + spec_encode_values(models, 0)->Ok_0.len())),
{
    lemma_args_steps(models, 0, tags, ti, buf, pos, end, seq![acc]);
    let fin = acc + models.subrange(0, models.len() as int);
    assert(seq![acc].drop_last().push(seq![acc].last() + models.subrange(
        0,
        models.len() as int,
    )) =~= seq![fin]);
    assert(fin =~= acc + models);
}

/// The type-tag bytes of any value are non-zero ASCII.
pub proof fn lemma_tags_valid(v: ValueModel)
    ensures
        valid_str_bytes(tags_of_value(v)),
    decreases v,
{
    match v {
        ValueModel::Array(items) => {
            lemma_tags_valid_list(items, 0);
        },
        _ => {},
    }
}

/// The type-tag bytes of a value list are non-zero ASCII.
pub proof fn lemma_tags_valid_list(items: Seq<ValueModel>, i: int)
    ensures
        valid_str_bytes(tags_of_values(items, i)),
    decreases items, items.len() - i,
{
    if 0 <= i < items.len() {
        lemma_tags_valid(items[i]);
        lemma_tags_valid_list(items, i + 1);
    }
}

/// One step of the argument machine: consuming one value's tags and
/// payload appends the value to the list under construction, whatever
/// tags and payload follow.
#[verifier::rlimit(100)]
#[verifier::spinoff_prover]
pub proof fn lemma_args_step(
    v: ValueModel,
    tags: Seq<u8>,
    ti: int,
    buf: Seq<u8>,
    pos: int,
    end: int,
    stack: Seq<Seq<ValueModel>>,
)
    requires
        stack.len() >= 1,
        spec_encode_value(v) is Ok,
        0 <= ti,
        ti + tags_of_value(v).len() <= tags.len(),
        tags.subrange(ti, ti + tags_of_value(v).len()) == tags_of_value(v),
        0 <= pos,
        pos + spec_encode_value(v)->Ok_0.len() <= end <= buf.len(),
        buf.subrange(pos, pos + spec_encode_value(v)->Ok_0.len()) == spec_encode_value(v)->Ok_0,
    ensures
        spec_decode_args(tags, ti, buf, pos, end, stack) == spec_decode_args(
            tags,
            ti + tags_of_value(v).len(),
            buf,
            pos + spec_encode_value(v)->Ok_0.len(),
            end,
            stack.drop_last().push(stack.last().push(v)),
        ),
    decreases v,
{
    let tv = tags_of_value(v);
    assert forall|k: int| 0 <= k < tv.len() implies #[trigger] tags[ti + k] == tv[k] by {
        assert(tags.subrange(ti, ti + tv.len() as int)[k] == tv[k]);
    }
    match v {
        ValueModel::Array(items) => {
            assert(tags[ti + 0] == tv[0]);
            assert(tv[0] == 91);
            assert(tags[ti] == 91);
            let inner = tags_of_values(items, 0);
            assert(tv == seq![91u8] + inner + seq![93u8]);
            assert forall|k: int| 0 <= k < inner.len() implies #[trigger] tags.subrange(
                ti + 1,
                ti + 1 + inner.len() as int,
            )[k] == inner[k] by {
                assert(tags[ti + 1 + k] == tv[1 + k]);
                assert(tv[1 + k] == inner[k]);
            }
            assert(tags.subrange(ti + 1, ti + 1 + inner.len() as int) =~= inner);
            lemma_encode_values_each_ok(items, 0);
            lemma_args_steps(items, 0, tags, ti + 1, buf, pos, end, stack.push(Seq::empty()));
            let tj = ti + 1 + inner.len() as int;
            assert(tags[tj] == tv[1 + inner.len() as int]);
            assert(tags[tj] == 93);
            let filled = Seq::<ValueModel>::empty() + items.subrange(0, items.len() as int);
            assert(filled =~= items);
            assert(stack.push(Seq::empty()).drop_last() =~= stack);
            assert(stack.push(Seq::empty()).last() == Seq::<ValueModel>::empty());
            assert(stack.push(Seq::empty()).drop_last().push(
                stack.push(Seq::empty()).last() + items.subrange(0, items.len() as int),
            ) =~= stack.push(items));
            let after = stack.push(items);
            assert(after.last() == items);
            assert(after.drop_last() =~= stack);
            assert(after.drop_last().drop_last().push(
                after.drop_last().last().push(ValueModel::Array(after.last())),
            ) =~= stack.drop_last().push(stack.last().push(ValueModel::Array(items))));
        },
        _ => {
            assert(tags[ti] == tv[0]);
            assert(tv[0] != 91 && tv[0] != 93);
            assert forall|k: int| 0 <= k < spec_encode_value(v)->Ok_0.len()
                implies #[trigger] buf.subrange(
                pos,
                pos + spec_encode_value(v)->Ok_0.len() as int,
            )[k] == spec_encode_value(v)->Ok_0[k] by {}
            lemma_value_roundtrip_embedded(v, buf, pos, end);
        },
    }
}

/// Steps of the argument machine over a whole value list: consuming
/// the list's tags and payloads extends the list under construction by
/// the list's values.
#[verifier::rlimit(100)]
#[verifier::spinoff_prover]
pub proof fn lemma_args_steps(
    items: Seq<ValueModel>,
    j: int,
    tags: Seq<u8>,
    ti: int,
    buf: Seq<u8>,
    pos: int,
    end: int,
    stack: Seq<Seq<ValueModel>>,
)
    requires
        stack.len() >= 1,
        0 <= j <= items.len(),
        forall|k: int| j <= k < items.len() ==> spec_encode_value(#[trigger] items[k]) is Ok,
        spec_encode_values(items, j) is Ok,
        0 <= ti,
        ti + tags_of_values(items, j).len() <= tags.len(),
        tags.subrange(ti, ti + tags_of_values(items, j).len()) == tags_of_values(items, j),
        0 <= pos,
        pos + spec_encode_values(items, j)->Ok_0.len() <= end <= buf.len(),
        buf.subrange(pos, pos + spec_encode_values(items, j)->Ok_0.len()) == spec_encode_values(
            items,
            j,
        )->Ok_0,
    ensures
        spec_decode_args(tags, ti, buf, pos, end, stack) == spec_decode_args(
            tags,
            ti + tags_of_values(items, j).len(),
            buf,
            pos + spec_encode_values(items, j)->Ok_0.len(),
            end,
            stack.drop_last().push(stack.last() + items.subrange(j, items.len() as int)),
        ),
    decreases items, items.len() - j,
{
    if j == items.len() {
        assert(stack.last() + items.subrange(j, items.len() as int) =~= stack.last());
        assert(stack.drop_last().push(stack.last()) =~= stack);
    } else {
        let v = items[j];
        let tv = tags_of_value(v);
        let tvs = tags_of_values(items, j);
        let rest_tags = tags_of_values(items, j + 1);
        assert(tvs == tv + rest_tags);
        let pv = spec_encode_value(v)->Ok_0;
        let rest_pl = spec_encode_values(items, j + 1)->Ok_0;
        let total = spec_encode_values(items, j)->Ok_0;
        assert(total == pv + rest_pl);
        assert forall|k: int| 0 <= k < tvs.len() implies #[trigger] tags[ti + k] == tvs[k] by {
            assert(tags.subrange(ti, ti + tvs.len() as int)[k] == tvs[k]);
        }
        assert forall|k: int| 0 <= k < total.len() implies #[trigger] buf[pos + k] == total[k] by {
            assert(buf.subrange(pos, pos + total.len() as int)[k] == total[k]);
        }
        assert forall|k: int| 0 <= k < tv.len() implies #[trigger] tags.subrange(
            ti,
            ti + tv.len() as int,
        )[k] == tv[k] by {
            assert(tags[ti + k] == tvs[k]);
        }
        assert(tags.subrange(ti, ti + tv.len() as int) =~= tv);
        assert forall|k: int| 0 <= k < pv.len() implies #[trigger] buf.subrange(
            pos,
            pos + pv.len() as int,
        )[k] == pv[k] by {
            assert(buf[pos + k] == total[k]);
        }
        assert(buf.subrange(pos, pos + pv.len() as int) =~= pv);
        lemma_args_step(v, tags, ti, buf, pos, end, stack);
        let ti2 = ti + tv.len() as int;
        let pos2 = pos + pv.len() as int;
        assert forall|k: int| 0 <= k < rest_tags.len() implies #[trigger] tags.subrange(
            ti2,
            ti2 + rest_tags.len() as int,
        )[k] == rest_tags[k] by {
            assert(tags[ti + (tv.len() + k)] == tvs[tv.len() + k]);
        }
        assert(tags.subrange(ti2, ti2 + rest_tags.len() as int) =~= rest_tags);
        assert forall|k: int| 0 <= k < rest_pl.len() implies #[trigger] buf.subrange(
            pos2,
            pos2 + rest_pl.len() as int,
        )[k] == rest_pl[k] by {
            assert(buf[pos + (pv.len() + k)] == total[pv.len() + k]);
        }
        assert(buf.subrange(pos2, pos2 + rest_pl.len() as int) =~= rest_pl);
        let stack2 = stack.drop_last().push(stack.last().push(v));
        lemma_args_steps(items, j + 1, tags, ti2, buf, pos2, end, stack2);
        assert(stack2.drop_last() =~= stack.drop_last());
        assert(stack2.last() == stack.last().push(v));
        assert(items.subrange(j, items.len() as int) =~= seq![v] + items.subrange(
            j + 1,
            items.len() as int,
        ));
        assert(stack.last().push(v) + items.subrange(j + 1, items.len() as int) =~= stack.last()
            + items.subrange(j, items.len() as int));
        assert(stack2.drop_last().push(stack2.last() + items.subrange(j + 1, items.len() as int))
            =~= stack.drop_last().push(stack.last() + items.subrange(j, items.len() as int)));
    }
}


/// When a value list encodes, each of its values encodes.
pub proof fn lemma_encode_values_each_ok(models: Seq<ValueModel>, i: int)
    requires
        0 <= i <= models.len(),
        spec_encode_values(models, i) is Ok,
    ensures
        forall|j: int| i <= j < models.len() ==> spec_encode_value(#[trigger] models[j]) is Ok,
    decreases models.len() - i,
{
    if i < models.len() {
        lemma_encode_values_each_ok(models, i + 1);
    }
}

/// Round-trip for messages: decoding a window that holds the encoding
/// of a well-formed message yields the message back and consumes the
/// window.
#[verifier::rlimit(100)]
#[verifier::spinoff_prover]
pub proof fn lemma_message_roundtrip_embedded(m: MessageModel, buf: Seq<u8>, pos: int, end: int)
    requires
        spec_encode_message(m) is Ok,
        0 <= pos,
        end == pos + spec_encode_message(m)->Ok_0.len(),
        end <= buf.len(),
        buf.subrange(pos, end) == spec_encode_message(m)->Ok_0,
    ensures
        spec_decode_message(buf, pos, end) == Ok::<(MessageModel, int), OscError>((m, end)),
{
    let ea = enc_str(m.addr);
    let tagseq = seq![BYTE_COMMA] + tags_of_values(m.args, 0);
    let et = enc_str(tagseq);
    let pl = spec_encode_values(m.args, 0)->Ok_0;
    let e = spec_encode_message(m)->Ok_0;
    assert(e == ea + et + pl);
    lemma_tags_valid_list(m.args, 0);
    assert forall|k: int| 0 <= k < tagseq.len() implies 0 < #[trigger] tagseq[k] < 128 by {
        if k > 0 {
            assert(tagseq[k] == tags_of_values(m.args, 0)[k - 1]);
        }
    }
    assert forall|k: int| 0 <= k < e.len() implies #[trigger] buf[pos + k] == e[k] by {
        assert(buf.subrange(pos, end)[k] == e[k]);
    }
    assert forall|k: int| 0 <= k < ea.len() implies #[trigger] buf.subrange(
        pos,
        pos + ea.len() as int,
    )[k] == ea[k] by {
        assert(buf[pos + k] == e[k]);
    }
    assert(buf.subrange(pos, pos + ea.len() as int) =~= ea);
    lemma_read_str_embedded(m.addr, buf, pos, end);
    let p1 = pos + ea.len() as int;
    assert forall|k: int| 0 <= k < et.len() implies #[trigger] buf.subrange(
        p1,
        p1 + et.len() as int,
    )[k] == et[k] by {
        assert(buf[pos + (ea.len() + k)] == e[ea.len() + k]);
    }
    assert(buf.subrange(p1, p1 + et.len() as int) =~= et);
    lemma_read_str_embedded(tagseq, buf, p1, end);
    assert(tagseq[0] == BYTE_COMMA);
    let p2 = p1 + et.len() as int;
    assert forall|k: int| 0 <= k < pl.len() implies #[trigger] buf.subrange(
        p2,
        p2 + pl.len() as int,
    )[k] == pl[k] by {
        assert(buf[pos + (ea.len() + et.len() + k)] == e[ea.len() + et.len() + k]);
    }
    assert(buf.subrange(p2, p2 + pl.len() as int) =~= pl);
    assert forall|k: int| 0 <= k < tags_of_values(m.args, 0).len()
        implies #[trigger] tagseq.subrange(1, tagseq.len() as int)[k] == tags_of_values(
        m.args,
        0,
    )[k] by {
        assert(tagseq[1 + k] == tags_of_values(m.args, 0)[k]);
    }
    assert(tagseq.subrange(1, tagseq.len() as int) =~= tags_of_values(m.args, 0));
    lemma_encode_values_each_ok(m.args, 0);
    lemma_args_run(m.args, tagseq, 1, buf, p2, end, Seq::empty());
    assert(Seq::<ValueModel>::empty() + m.args =~= m.args);
}

/// Round-trip for messages: decoding the encoding of a well-formed
/// message yields the message back and consumes the whole encoding.
pub proof fn lemma_message_roundtrip(m: MessageModel)
    requires
        spec_encode_message(m) is Ok,
    ensures
        ({
            let e = spec_encode_message(m)->Ok_0;
            spec_decode_message(e, 0, e.len() as int) == Ok::<(MessageModel, int), OscError>(
                (m, e.len() as int),
            )
        }),
{
    let e = spec_encode_message(m)->Ok_0;
    assert(e.subrange(0, e.len() as int) =~= e);
    lemma_message_roundtrip_embedded(m, e, 0, e.len() as int);
}


/// Round-trip for packets: decoding a window that holds the encoding
/// of a well-formed packet yields the packet back and consumes the
/// window, bundles included.
#[verifier::rlimit(100)]
#[verifier::spinoff_prover]
pub proof fn lemma_packet_roundtrip_embedded(
    p: PacketModel,
    buf: Seq<u8>,
    pos: int,
    end: int,
    depth: int,
)
    requires
        spec_encode_packet(p, depth) is Ok,
        0 <= pos,
        end == pos + spec_encode_packet(p, depth)->Ok_0.len(),
        end <= buf.len(),
        buf.subrange(pos, end) == spec_encode_packet(p, depth)->Ok_0,
    ensures
        spec_decode_packet(buf, pos, end, depth) == Ok::<(PacketModel, int), OscError>((p, end)),
    decreases p,
{
    let e = spec_encode_packet(p, depth)->Ok_0;
    assert forall|k: int| 0 <= k < e.len() implies #[trigger] buf[pos + k] == e[k] by {
        assert(buf.subrange(pos, end)[k] == e[k]);
    }
    match p {
        PacketModel::Message(m) => {
            lemma_pad4(m.addr.len() as int + 1);
            assert(e[0] == m.addr[0]);
            assert(buf[pos] == 47);
            lemma_message_roundtrip_embedded(m, buf, pos, end);
        },
        PacketModel::Bundle(b) => {
            assert(depth >= 1);
            let elems = spec_encode_bundle_elems(b.content, 0, depth - 1)->Ok_0;
            assert(e == bundle_header() + enc_u32be(b.timetag.seconds) + enc_u32be(
                b.timetag.fractional,
            ) + elems);
            assert forall|k: int| 0 <= k < 8 implies #[trigger] buf.subrange(pos, pos + 8)[k]
                == bundle_header()[k] by {
                assert(buf[pos + k] == e[k]);
            }
            assert(buf.subrange(pos, pos + 8) =~= bundle_header());
            assert forall|k: int| 0 <= k < 4 implies #[trigger] buf.subrange(
                pos + 8,
                pos + 12,
            )[k] == enc_u32be(b.timetag.seconds)[k] by {
                assert(buf[pos + (8 + k)] == e[8 + k]);
            }
            assert(buf.subrange(pos + 8, pos + 12) =~= enc_u32be(b.timetag.seconds));
            lemma_u32be_embedded(b.timetag.seconds, buf, pos + 8);
            assert forall|k: int| 0 <= k < 4 implies #[trigger] buf.subrange(
                pos + 12,
                pos + 16,
            )[k] == enc_u32be(b.timetag.fractional)[k] by {
                assert(buf[pos + (12 + k)] == e[12 + k]);
            }
            assert(buf.subrange(pos + 12, pos + 16) =~= enc_u32be(b.timetag.fractional));
            lemma_u32be_embedded(b.timetag.fractional, buf, pos + 12);
            assert forall|k: int| 0 <= k < elems.len() implies #[trigger] buf.subrange(
                pos + 16,
                end,
            )[k] == elems[k] by {
                assert(buf[pos + (16 + k)] == e[16 + k]);
            }
            assert(buf.subrange(pos + 16, end) =~= elems);
            lemma_bundle_elems_roundtrip(b.content, 0, buf, pos + 16, end, depth - 1);
            assert(b.content.subrange(0, b.content.len() as int) =~= b.content);
            assert(BundleModel { timetag: b.timetag, content: b.content } == b);
        },
    }
}

/// Round-trip for bundle elements: decoding a window that holds the
/// size-prefixed encodings of the packets of `content` from index `i`
/// on yields those packets and consumes the window.
#[verifier::rlimit(100)]
#[verifier::spinoff_prover]
pub proof fn lemma_bundle_elems_roundtrip(
    content: Seq<PacketModel>,
    i: int,
    buf: Seq<u8>,
    pos: int,
    end: int,
    depth: int,
)
    requires
        0 <= i <= content.len(),
        spec_encode_bundle_elems(content, i, depth) is Ok,
        0 <= pos,
        end == pos + spec_encode_bundle_elems(content, i, depth)->Ok_0.len(),
        end <= buf.len(),
        buf.subrange(pos, end) == spec_encode_bundle_elems(content, i, depth)->Ok_0,
    ensures
        spec_decode_bundle_elems(buf, pos, end, depth) == Ok::<
            (Seq<PacketModel>, int),
            OscError,
        >((content.subrange(i, content.len() as int), end)),
    decreases content, content.len() - i,
{
    if i == content.len() {
        assert(content.subrange(i, content.len() as int) =~= Seq::<PacketModel>::empty());
    } else {
        let child = spec_encode_packet(content[i], depth)->Ok_0;
        let rest = spec_encode_bundle_elems(content, i + 1, depth)->Ok_0;
        let total = spec_encode_bundle_elems(content, i, depth)->Ok_0;
        assert(total == enc_u32be(child.len() as u32) + child + rest);
        assert forall|k: int| 0 <= k < total.len() implies #[trigger] buf[pos + k] == total[k] by {
            assert(buf.subrange(pos, end)[k] == total[k]);
        }
        assert forall|k: int| 0 <= k < 4 implies #[trigger] buf.subrange(pos, pos + 4)[k]
            == enc_u32be(child.len() as u32)[k] by {
            assert(buf[pos + k] == total[k]);
        }
        assert(buf.subrange(pos, pos + 4) =~= enc_u32be(child.len() as u32));
        lemma_u32be_embedded(child.len() as u32, buf, pos);
        let n = child.len() as int;
        assert forall|k: int| 0 <= k < n implies #[trigger] buf.subrange(
            pos + 4,
            pos + 4 + n,
        )[k] == child[k] by {
            assert(buf[pos + (4 + k)] == total[4 + k]);
        }
        assert(buf.subrange(pos + 4, pos + 4 + n) =~= child);
        lemma_packet_roundtrip_embedded(content[i], buf, pos + 4, pos + 4 + n, depth);
        let pos2 = pos + 4 + n;
        assert forall|k: int| 0 <= k < rest.len() implies #[trigger] buf.subrange(
            pos2,
            end,
        )[k] == rest[k] by {
            assert(buf[pos + (4 + n + k)] == total[4 + n + k]);
        }
        assert(buf.subrange(pos2, end) =~= rest);
        lemma_bundle_elems_roundtrip(content, i + 1, buf, pos2, end, depth);
        assert(seq![content[i]] + content.subrange(i + 1, content.len() as int)
            =~= content.subrange(i, content.len() as int));
    }
}

/// Round-trip: decoding the encoding of a well-formed packet yields
/// the packet back, nested arrays and nested bundles included.
pub proof fn lemma_packet_roundtrip(p: PacketModel)
    requires
        valid_packet(p),
    ensures
        ({
            let e = spec_encode_packet(p, MAX_BUNDLE_DEPTH as int)->Ok_0;
            spec_decode(e) == Ok::<(PacketModel, int), OscError>((p, e.len() as int))
        }),
{
    let e = spec_encode_packet(p, MAX_BUNDLE_DEPTH as int)->Ok_0;
    assert(e.subrange(0, e.len() as int) =~= e);
    lemma_packet_roundtrip_embedded(p, e, 0, e.len() as int, MAX_BUNDLE_DEPTH as int);
}

} // verus!
