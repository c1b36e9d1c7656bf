//! The OSC data model: argument values, time tags, messages, bundles and
//! packets, together with their mathematical models and well-formedness.
//!
//! Exec types hold `String` and `Vec`; each has a spec-level model over
//! `Seq` so that contracts and the wire-format specification can speak of
//! pure mathematical values.  OSC strings are sequences of non-zero ASCII
//! bytes, so a `String` is modelled by the bytes of its characters.

use vstd::prelude::*;

verus! {

use crate::errors::OscError;

broadcast use vstd::seq::axiom_seq_index_decreases, vstd::std_specs::vec::axiom_vec_index_decreases;

/// A 64-bit fixed-point OSC time tag: seconds since epoch plus a
/// 32-bit fraction of a second.  The reserved value with `seconds == 0`
/// and `fractional == 1` means "execute immediately".
#[derive(Clone, Copy, Debug, PartialEq, Eq, Structural)]
pub struct TimeTag {
    pub seconds: u32,
    pub fractional: u32,
}

impl TimeTag {
    /// The reserved "execute immediately" time tag.
    pub fn immediately() -> (t: TimeTag)
        ensures
            t == (TimeTag { seconds: 0, fractional: 1 }),
    {
        TimeTag { seconds: 0, fractional: 1 }
    }

    /// Whether this tag is the reserved "execute immediately" value.
    pub fn is_immediate(&self) -> (r: bool)
        ensures
            r == (self.seconds == 0 && self.fractional == 1),
    {
        self.seconds == 0 && self.fractional == 1
    }
}

/// An RGBA color argument, carried on the wire as four bytes.
#[derive(Clone, Copy, Debug, PartialEq, Eq, Structural)]
pub struct OscColor {
    pub red: u8,
    pub green: u8,
    pub blue: u8,
    pub alpha: u8,
}

/// A MIDI message argument, carried on the wire as four bytes.
#[derive(Clone, Copy, Debug, PartialEq, Eq, Structural)]
pub struct OscMidiMessage {
    pub port: u8,
    pub status: u8,
    pub data1: u8,
    pub data2: u8,
}

/// A single OSC argument value.
///
/// `Float` and `Double` hold the IEEE-754 bit pattern of the 32-bit or
/// 64-bit value exactly as it stands on the wire; interpreting the bits
/// as a floating-point number is the caller's concern.  `Char` holds an
/// ASCII code point (below 128).
#[derive(Debug)]
pub enum Value {
    /// Tag `i`: a 32-bit big-endian signed integer.
    Int(i32),
    /// Tag `f`: the bit pattern of a 32-bit big-endian IEEE-754 float.
    Float(u32),
    /// Tag `s`: a padded ASCII string.
    Str(String),
    /// Tag `b`: a length-prefixed, padded blob.
    Blob(Vec<u8>),
    /// Tag `h`: a 64-bit big-endian signed integer.
    Long(i64),
    /// Tag `t`: a time tag.
    Time(TimeTag),
    /// Tag `d`: the bit pattern of a 64-bit big-endian IEEE-754 float.
    Double(u64),
    /// Tag `c`: an ASCII character carried as a 32-bit integer.
    Char(u8),
    /// Tag `r`: an RGBA color carried as four bytes.
    Color(OscColor),
    /// Tag `m`: a MIDI message carried as four bytes.
    Midi(OscMidiMessage),
    /// Tags `T`/`F`: a boolean, carried in the tag alone.
    Bool(bool),
    /// Tag `N`: nil, carried in the tag alone.
    Nil,
    /// Tag `I`: infinitum, carried in the tag alone.
    Inf,
    /// Tags `[`/`]`: a nested array of values, grouped by the tags alone.
    Array(Vec<Value>),
}

/// An OSC message: an address starting with `/` plus an ordered
/// sequence of argument values.
#[derive(Debug)]
pub struct Message {
    pub addr: String,
    pub args: Vec<Value>,
}

/// An OSC bundle: a time tag plus an ordered sequence of nested packets.
#[derive(Debug)]
pub struct Bundle {
    pub timetag: TimeTag,
    pub content: Vec<Packet>,
}

/// A top-level OSC unit: either a message or a bundle.
#[derive(Debug)]
pub enum Packet {
    Message(Message),
    Bundle(Bundle),
}

/// The mathematical model of a `Value`: strings and blobs become byte
/// sequences, arrays become sequences of models.
pub enum ValueModel {
    Int(i32),
    Float(u32),
    Str(Seq<u8>),
    Blob(Seq<u8>),
    Long(i64),
    Time(TimeTag),
    Double(u64),
    Char(u8),
    Color(OscColor),
    Midi(OscMidiMessage),
    Bool(bool),
    Nil,
    Inf,
    Array(Seq<ValueModel>),
}

/// The mathematical model of a `Message`.
pub struct MessageModel {
    pub addr: Seq<u8>,
    pub args: Seq<ValueModel>,
}

/// The mathematical model of a `Bundle`.
pub struct BundleModel {
    pub timetag: TimeTag,
    pub content: Seq<PacketModel>,
}

/// The mathematical model of a `Packet`.
pub enum PacketModel {
    Message(MessageModel),
    Bundle(BundleModel),
}

/// The bytes of a string's characters on the wire.  A character outside
/// ASCII has no single-byte wire form; it is mapped to 128, which no
/// well-formed OSC string contains, so that such a string is rejected.
pub open spec fn str_bytes(s: Seq<char>) -> Seq<u8> {
    Seq::new(
        s.len(),
        |i: int|
            if '\0' <= s[i] <= '\u{7f}' {
                s[i] as u8
            } else {
                128u8
            },
    )
}

/// The model of an exec `Value`.
pub open spec fn value_model(v: Value) -> ValueModel
    decreases v,
{
    match v {
        Value::Int(x) => ValueModel::Int(x),
        Value::Float(x) => ValueModel::Float(x),
        Value::Str(s) => ValueModel::Str(str_bytes(s@)),
        Value::Blob(b) => ValueModel::Blob(b@),
        Value::Long(x) => ValueModel::Long(x),
        Value::Time(t) => ValueModel::Time(t),
        Value::Double(x) => ValueModel::Double(x),
        Value::Char(c) => ValueModel::Char(c),
        Value::Color(c) => ValueModel::Color(c),
        Value::Midi(m) => ValueModel::Midi(m),
        Value::Bool(b) => ValueModel::Bool(b),
        Value::Nil => ValueModel::Nil,
        Value::Inf => ValueModel::Inf,
        Value::Array(items) => ValueModel::Array(values_model(items, 0)),
    }
}

/// The models of the values of `items` from index `i` on.
pub open spec fn values_model(items: Vec<Value>, i: int) -> Seq<ValueModel>
    decreases items, items@.len() - i,
{
    if i < 0 || i >= items@.len() {
        Seq::empty()
    } else {
        seq![value_model(items[i])] + values_model(items, i + 1)
    }
}

/// The model of an exec `Message`.
pub open spec fn message_model(m: Message) -> MessageModel {
    MessageModel { addr: str_bytes(m.addr@), args: values_model(m.args, 0) }
}

/// The model of an exec `Packet`.
pub open spec fn packet_model(p: Packet) -> PacketModel
    decreases p,
{
    match p {
        Packet::Message(m) => PacketModel::Message(message_model(m)),
        Packet::Bundle(b) => PacketModel::Bundle(
            BundleModel { timetag: b.timetag, content: packets_model(b.content, 0) },
        ),
    }
}

/// The models of the packets of `content` from index `i` on.
pub open spec fn packets_model(content: Vec<Packet>, i: int) -> Seq<PacketModel>
    decreases content, content@.len() - i,
{
    if i < 0 || i >= content@.len() {
        Seq::empty()
    } else {
        seq![packet_model(content[i])] + packets_model(content, i + 1)
    }
}

/// The models of a value slice, element by element.
pub proof fn lemma_values_model(items: Vec<Value>, i: int)
    requires
        0 <= i <= items@.len(),
    ensures
        values_model(items, i).len() == items@.len() - i,
        forall|j: int|
            i <= j < items@.len() ==> values_model(items, i)[j - i] == value_model(items@[j]),
    decreases items@.len() - i,
{
    if i < items@.len() {
        lemma_values_model(items, i + 1);
    }
}

/// The models of a packet slice, element by element.
pub proof fn lemma_packets_model(content: Vec<Packet>, i: int)
    requires
        0 <= i <= content@.len(),
    ensures
        packets_model(content, i).len() == content@.len() - i,
        forall|j: int|
            i <= j < content@.len() ==> packets_model(content, i)[j - i] == packet_model(
                content@[j],
            ),
    decreases content@.len() - i,
{
    if i < content@.len() {
        lemma_packets_model(content, i + 1);
    }
}

impl View for Value {
    type V = ValueModel;

    open spec fn view(&self) -> ValueModel {
        value_model(*self)
    }
}

impl View for Message {
    type V = MessageModel;

    open spec fn view(&self) -> MessageModel {
        message_model(*self)
    }
}

impl View for Bundle {
    type V = BundleModel;

    open spec fn view(&self) -> BundleModel {
        BundleModel { timetag: self.timetag, content: packets_model(self.content, 0) }
    }
}

impl View for Packet {
    type V = PacketModel;

    open spec fn view(&self) -> PacketModel {
        packet_model(*self)
    }
}

/// The bytes of a well-formed OSC string: non-zero ASCII, so that the
/// null terminator on the wire is unambiguous.
pub open spec fn valid_str_bytes(s: Seq<u8>) -> bool {
    forall|i: int| 0 <= i < s.len() ==> 0 < #[trigger] s[i] < 128
}

/// A well-formed OSC address: a well-formed string starting with `/`.
pub open spec fn valid_addr_bytes(s: Seq<u8>) -> bool {
    &&& valid_str_bytes(s)
    &&& s.len() >= 1
    &&& s[0] == 47u8
}

/// The bound a 32-bit signed wire length imposes on strings and blobs.
pub open spec fn fits_i32_len(n: nat) -> bool {
    n < 0x8000_0000
}

/// How deeply bundles may nest.  Decoding and encoding recurse over the
/// bundle structure, so a bound is imposed to keep adversarial nesting
/// from exhausting the stack.
pub const MAX_BUNDLE_DEPTH: u32 = 32;

/// Validity of a single value, reported as the first error that encoding
/// the value would surface, or `Ok` when it is well formed.
pub open spec fn spec_check_value(v: ValueModel) -> Result<(), OscError>
    decreases v,
{
    match v {
        ValueModel::Str(s) => if valid_str_bytes(s) && fits_i32_len(s.len()) {
            Ok(())
        } else {
            Err(OscError::BadArg)
        },
        ValueModel::Blob(b) => if fits_i32_len(b.len()) {
            Ok(())
        } else {
            Err(OscError::BadArg)
        },
        ValueModel::Char(c) => if c < 128 {
            Ok(())
        } else {
            Err(OscError::BadArg)
        },
        ValueModel::Array(items) => spec_check_values(items, 0),
        _ => Ok(()),
    }
}

/// Validity of the values of `items` from index `i` on.
pub open spec fn spec_check_values(items: Seq<ValueModel>, i: int) -> Result<(), OscError>
    decreases items, items.len() - i,
{
    if i < 0 || i >= items.len() {
        Ok(())
    } else {
        match spec_check_value(items[i]) {
            Ok(()) => spec_check_values(items, i + 1),
            Err(e) => Err(e),
        }
    }
}

/// Validity of a message: a well-formed address, then each argument in
/// order; the first failure is reported.
pub open spec fn spec_check_message(m: MessageModel) -> Result<(), OscError> {
    if !valid_addr_bytes(m.addr) {
        Err(OscError::BadAddress)
    } else if !fits_i32_len(m.addr.len()) {
        Err(OscError::BadAddress)
    } else {
        spec_check_values(m.args, 0)
    }
}

/// Validity of a packet within `depth` remaining levels of bundle
/// nesting; the first failure is reported.
pub open spec fn spec_check_packet(p: PacketModel, depth: int) -> Result<(), OscError>
    decreases p,
{
    match p {
        PacketModel::Message(m) => spec_check_message(m),
        PacketModel::Bundle(b) => if depth <= 0 {
            Err(OscError::BadBundle)
        } else {
            spec_check_packets(b.content, 0, depth - 1)
        },
    }
}

/// Validity of the packets of `content` from index `i` on.
pub open spec fn spec_check_packets(content: Seq<PacketModel>, i: int, depth: int) -> Result<
    (),
    OscError,
>
    decreases content, content.len() - i,
{
    if i < 0 || i >= content.len() {
        Ok(())
    } else {
        match spec_check_packet(content[i], depth) {
            Ok(()) => spec_check_packets(content, i + 1, depth),
            Err(e) => Err(e),
        }
    }
}

/// A well-formed value: one that encoding accepts.
pub open spec fn valid_value(v: ValueModel) -> bool {
    spec_check_value(v) is Ok
}

/// A well-formed message: one that encoding accepts.
pub open spec fn valid_message(m: MessageModel) -> bool {
    spec_check_message(m) is Ok
}

/// A well-formed packet: one that encoding accepts, with bundle nesting
/// within `MAX_BUNDLE_DEPTH` levels.
pub open spec fn valid_packet(p: PacketModel) -> bool {
    spec_check_packet(p, MAX_BUNDLE_DEPTH as int) is Ok
}
/// Structural equality of values: strings compare by their characters,
/// blobs by their bytes, arrays element by element.
pub open spec fn value_eq_spec(a: Value, b: Value) -> bool
    decreases a,
{
    match (a, b) {
        (Value::Int(x), Value::Int(y)) => x == y,
        (Value::Float(x), Value::Float(y)) => x == y,
        (Value::Str(x), Value::Str(y)) => x@ == y@,
        (Value::Blob(x), Value::Blob(y)) => x@ == y@,
        (Value::Long(x), Value::Long(y)) => x == y,
        (Value::Time(x), Value::Time(y)) => x == y,
        (Value::Double(x), Value::Double(y)) => x == y,
        (Value::Char(x), Value::Char(y)) => x == y,
        (Value::Color(x), Value::Color(y)) => x == y,
        (Value::Midi(x), Value::Midi(y)) => x == y,
        (Value::Bool(x), Value::Bool(y)) => x == y,
        (Value::Nil, Value::Nil) => true,
        (Value::Inf, Value::Inf) => true,
        (Value::Array(x), Value::Array(y)) => x@.len() == y@.len() && values_eq_spec(x, y, 0),
        _ => false,
    }
}

/// Structural equality of two value slices from index `i` on.
pub open spec fn values_eq_spec(x: Vec<Value>, y: Vec<Value>, i: int) -> bool
    decreases x, x@.len() - i,
{
    if i < 0 || i >= x@.len() || i >= y@.len() {
        true
    } else {
        value_eq_spec(x[i], y[i]) && values_eq_spec(x, y, i + 1)
    }
}

/// Structural equality of messages.
pub open spec fn message_eq_spec(a: Message, b: Message) -> bool {
    &&& a.addr@ == b.addr@
    &&& a.args@.len() == b.args@.len()
    &&& values_eq_spec(a.args, b.args, 0)
}

/// Structural equality of packets.
pub open spec fn packet_eq_spec(a: Packet, b: Packet) -> bool
    decreases a,
{
    match (a, b) {
        (Packet::Message(x), Packet::Message(y)) => message_eq_spec(x, y),
        (Packet::Bundle(x), Packet::Bundle(y)) => {
            &&& x.timetag == y.timetag
            &&& x.content@.len() == y.content@.len()
            &&& packets_eq_spec(x.content, y.content, 0)
        },
        _ => false,
    }
}

/// Structural equality of two packet slices from index `i` on.
pub open spec fn packets_eq_spec(x: Vec<Packet>, y: Vec<Packet>, i: int) -> bool
    decreases x, x@.len() - i,
{
    if i < 0 || i >= x@.len() || i >= y@.len() {
        true
    } else {
        packet_eq_spec(x[i], y[i]) && packets_eq_spec(x, y, i + 1)
    }
}

#[verifier::loop_isolation(false)]
fn value_eq(a: &Value, b: &Value) -> (r: bool)
    ensures
        r == value_eq_spec(*a, *b),
    decreases *a,
{
    match (a, b) {
        (Value::Int(x), Value::Int(y)) => *x == *y,
        (Value::Float(x), Value::Float(y)) => *x == *y,
        (Value::Str(x), Value::Str(y)) => *x == *y,
        (Value::Blob(x), Value::Blob(y)) => {
            proof {
                assert(*a == Value::Blob(*x));
                assert(*b == Value::Blob(*y));
            }
            if x.len() != y.len() {
                return false;
            }
            let mut i: usize = 0;
            while i < x.len()
                invariant
                    i <= x@.len(),
                    x@.len() == y@.len(),
                    forall|j: int| 0 <= j < i ==> x@[j] == y@[j],
                decreases x@.len() - i,
            {
                if x[i] != y[i] {
                    return false;
                }
                i += 1;
            }
            proof {
                assert(x@ =~= y@);
            }
            true
        },
        (Value::Long(x), Value::Long(y)) => *x == *y,
        (Value::Time(x), Value::Time(y)) => *x == *y,
        (Value::Double(x), Value::Double(y)) => *x == *y,
        (Value::Char(x), Value::Char(y)) => *x == *y,
        (Value::Color(x), Value::Color(y)) => *x == *y,
        (Value::Midi(x), Value::Midi(y)) => *x == *y,
        (Value::Bool(x), Value::Bool(y)) => *x == *y,
        (Value::Nil, Value::Nil) => true,
        (Value::Inf, Value::Inf) => true,
        (Value::Array(x), Value::Array(y)) => {
            if x.len() != y.len() {
                return false;
            }
            let mut i: usize = 0;
            while i < x.len()
                invariant
                    i <= x@.len(),
                    x@.len() == y@.len(),
                    values_eq_spec(*x, *y, 0) == values_eq_spec(*x, *y, i as int),
                decreases x@.len() - i,
            {
                proof {
                    assert(*a == Value::Array(*x));
                    assert(decreases_to!(*a => *x));
                    assert(decreases_to!(*x => x[i as int]));
                }
                if !value_eq(&x[i], &y[i]) {
                    return false;
                }
                i += 1;
            }
            true
        },
        _ => false,
    }
}

#[verifier::loop_isolation(false)]
fn packet_eq(a: &Packet, b: &Packet) -> (r: bool)
    ensures
        r == packet_eq_spec(*a, *b),
    decreases *a,
{
    match (a, b) {
        (Packet::Message(x), Packet::Message(y)) => message_eq(x, y),
        (Packet::Bundle(x), Packet::Bundle(y)) => {
            if !(x.timetag == y.timetag) {
                return false;
            }
            if x.content.len() != y.content.len() {
                return false;
            }
            let mut i: usize = 0;
            while i < x.content.len()
                invariant
                    i <= x.content@.len(),
                    x.content@.len() == y.content@.len(),
                    x.timetag == y.timetag,
                    packets_eq_spec(x.content, y.content, 0) == packets_eq_spec(
                        x.content,
                        y.content,
                        i as int,
                    ),
                decreases x.content@.len() - i,
            {
                proof {
                    assert(*a == Packet::Bundle(*x));
                    assert(decreases_to!(*a => *x));
                    assert(decreases_to!(*x => x.content));
                    assert(decreases_to!(x.content => x.content[i as int]));
                }
                if !packet_eq(&x.content[i], &y.content[i]) {
                    return false;
                }
                i += 1;
            }
            true
        },
        _ => false,
    }
}

#[verifier::loop_isolation(false)]
fn message_eq(a: &Message, b: &Message) -> (r: bool)
    ensures
        r == message_eq_spec(*a, *b),
{
    if !(a.addr == b.addr) {
        return false;
    }
    if a.args.len() != b.args.len() {
        return false;
    }
    let mut i: usize = 0;
    while i < a.args.len()
        invariant
            i <= a.args@.len(),
            a.args@.len() == b.args@.len(),
            a.addr@ == b.addr@,
            values_eq_spec(a.args, b.args, 0) == values_eq_spec(a.args, b.args, i as int),
        decreases a.args@.len() - i,
    {
        if !value_eq(&a.args[i], &b.args[i]) {
            return false;
        }
        i += 1;
    }
    true
}

impl PartialEq for Value {
    fn eq(&self, other: &Value) -> (r: bool) {
        value_eq(self, other)
    }
}

impl vstd::std_specs::cmp::PartialEqSpecImpl for Value {
    open spec fn obeys_eq_spec() -> bool {
        true
    }

    open spec fn eq_spec(&self, other: &Value) -> bool {
        value_eq_spec(*self, *other)
    }
}

impl PartialEq for Message {
    fn eq(&self, other: &Message) -> (r: bool) {
        message_eq(self, other)
    }
}

impl vstd::std_specs::cmp::PartialEqSpecImpl for Message {
    open spec fn obeys_eq_spec() -> bool {
        true
    }

    open spec fn eq_spec(&self, other: &Message) -> bool {
        message_eq_spec(*self, *other)
    }
}

impl PartialEq for Packet {
    fn eq(&self, other: &Packet) -> (r: bool) {
        packet_eq(self, other)
    }
}

impl vstd::std_specs::cmp::PartialEqSpecImpl for Packet {
    open spec fn obeys_eq_spec() -> bool {
        true
    }

    open spec fn eq_spec(&self, other: &Packet) -> bool {
        packet_eq_spec(*self, *other)
    }
}

impl PartialEq for Bundle {
    #[verifier::loop_isolation(false)]
    fn eq(&self, other: &Bundle) -> (r: bool) {
        if !(self.timetag == other.timetag) {
            return false;
        }
        let mut i: usize = 0;
        if self.content.len() != other.content.len() {
            return false;
        }
        while i < self.content.len()
            invariant
                i <= self.content@.len(),
                self.content@.len() == other.content@.len(),
                self.timetag == other.timetag,
                packets_eq_spec(self.content, other.content, 0) == packets_eq_spec(
                    self.content,
                    other.content,
                    i as int,
                ),
            decreases self.content@.len() - i,
        {
            if !packet_eq(&self.content[i], &other.content[i]) {
                return false;
            }
            i += 1;
        }
        true
    }
}

impl vstd::std_specs::cmp::PartialEqSpecImpl for Bundle {
    open spec fn obeys_eq_spec() -> bool {
        true
    }

    open spec fn eq_spec(&self, other: &Bundle) -> bool {
        &&& self.timetag == other.timetag
        &&& self.content@.len() == other.content@.len()
        &&& packets_eq_spec(self.content, other.content, 0)
    }
}

} // verus!
