//! The binary frames of revision 4: value updates in MessagePack.
//!
//! A frame holds one update after the other. An update is an array of four: the id of the
//! topic, the time of the change in microseconds, the number of the kind, the value.
//!
//! Floating-point numbers are held as the bit patterns that stood on the wire: a single as a
//! single, a double as a double. Nothing here widens or narrows one; whoever wants the
//! number in the other precision converts it.

use crate::text::DataType;
use crate::types::copy_strings;
use crate::wire::texts;
use rmpv::Value;
use vstd::prelude::*;
use vstd::slice::slice_to_vec;

verus! {

#[verifier::external_type_specification]
#[verifier::external_body]
pub struct ExValue(Value);

/// What a MessagePack value is, as mathematics.
pub enum PackModel {
    Nil,
    Boolean(bool),
    Integer(int),
    /// The bit pattern of a single.
    F32(u32),
    /// The bit pattern of a double.
    F64(u64),
    /// A text, none where the bytes on the wire were not UTF-8.
    String(Option<Seq<char>>),
    Binary(Seq<u8>),
    Array(Seq<PackModel>),
    /// A map: its pairs, in order.
    Dictionary(Seq<(PackModel, PackModel)>),
    Ext(i8, Seq<u8>),
}

/// What reading one value found.
pub enum ReadModel {
    /// A value.
    Value(PackModel),
    /// The bytes end before the value does.
    End,
    /// The bytes are nested deeper than the reader follows.
    Invalid,
}

/// The kinds of MessagePack values.
#[derive(Clone, Copy, Debug, PartialEq, Eq, Structural)]
pub enum PackKind {
    Nil,
    Boolean,
    Integer,
    F32,
    F64,
    String,
    Binary,
    Array,
    Dictionary,
    Ext,
}

/// What a MessagePack value holds.
pub uninterp spec fn unpacked(v: Value) -> PackModel;

/// What `rmpv::decode::read_value` finds in `bytes` from `pos` on, and where it stops.
pub uninterp spec fn msgpack_reading(bytes: Seq<u8>, pos: int) -> (ReadModel, int);

/// The bit pattern of the double that `Integer::as_f64` gives for an integer: the double
/// nearest to it.
pub uninterp spec fn integer_as_double(n: int) -> u64;

/// A floating-point number as it stood on the wire.
#[derive(Clone, Copy, Debug, PartialEq, Eq, Structural)]
pub enum Real {
    /// The bit pattern of a single.
    Single(u32),
    /// The bit pattern of a double. An integer on the wire is held as the double nearest
    /// to it.
    Double(u64),
}

/// What each of a sequence of values holds.
pub open spec fn unpacked_all(items: Seq<Value>) -> Seq<PackModel> {
    items.map_values(|v: Value| unpacked(v))
}

pub open spec fn kind_of(m: PackModel) -> PackKind {
    match m {
        PackModel::Nil => PackKind::Nil,
        PackModel::Boolean(_) => PackKind::Boolean,
        PackModel::Integer(_) => PackKind::Integer,
        PackModel::F32(_) => PackKind::F32,
        PackModel::F64(_) => PackKind::F64,
        PackModel::String(_) => PackKind::String,
        PackModel::Binary(_) => PackKind::Binary,
        PackModel::Array(_) => PackKind::Array,
        PackModel::Dictionary(_) => PackKind::Dictionary,
        PackModel::Ext(_, _) => PackKind::Ext,
    }
}

/// The value is a number.
pub open spec fn is_number(m: PackModel) -> bool {
    m is Integer || m is F32 || m is F64
}

pub open spec fn as_bool(m: PackModel) -> Option<bool> {
    match m {
        PackModel::Boolean(b) => Some(b),
        _ => None,
    }
}

/// The integer as `i64`, where it is one.
pub open spec fn as_i64(m: PackModel) -> Option<i64> {
    match m {
        PackModel::Integer(n) => if i64::MIN <= n <= i64::MAX {
            Some(n as i64)
        } else {
            None
        },
        _ => None,
    }
}

/// The integer as `u64`, where it is one.
pub open spec fn as_u64(m: PackModel) -> Option<u64> {
    match m {
        PackModel::Integer(n) => if 0 <= n <= u64::MAX {
            Some(n as u64)
        } else {
            None
        },
        _ => None,
    }
}

/// The integer as `i64`; one that is too large wraps round.
pub open spec fn as_integer(m: PackModel) -> Option<i64> {
    match as_i64(m) {
        Some(n) => Some(n),
        None => match as_u64(m) {
            Some(n) => Some(n as i64),
            None => None,
        },
    }
}

/// The bit pattern of the single, where the value is one.
pub open spec fn as_single(m: PackModel) -> Option<u32> {
    match m {
        PackModel::F32(b) => Some(b),
        _ => None,
    }
}

/// The number that a value is: a single as it is, a double as it is, an integer as the
/// double nearest to it; none for what is no number.
pub open spec fn as_real(m: PackModel) -> Option<Real> {
    match m {
        PackModel::F32(b) => Some(Real::Single(b)),
        PackModel::F64(b) => Some(Real::Double(b)),
        PackModel::Integer(n) => Some(Real::Double(integer_as_double(n))),
        _ => None,
    }
}

pub open spec fn as_binary(m: PackModel) -> Option<Seq<u8>> {
    match m {
        PackModel::Binary(b) => Some(b),
        _ => None,
    }
}

pub open spec fn as_text(m: PackModel) -> Option<Seq<char>> {
    match m {
        PackModel::String(Some(t)) => Some(t),
        _ => None,
    }
}

pub open spec fn as_array(m: PackModel) -> Option<Seq<PackModel>> {
    match m {
        PackModel::Array(items) => Some(items),
        _ => None,
    }
}

/// What reading one value gave.
pub enum ReadOutcome {
    Value(Value),
    End,
    Invalid,
}

impl View for ReadOutcome {
    type V = ReadModel;

    open spec fn view(&self) -> ReadModel {
        match self {
            ReadOutcome::Value(v) => ReadModel::Value(unpacked(*v)),
            ReadOutcome::End => ReadModel::End,
            ReadOutcome::Invalid => ReadModel::Invalid,
        }
    }
}

/// `rmpv::decode::read_value`, reading `bytes` from `pos` on: the value and the position
/// behind it. Where the bytes end inside the value the error's kind is `UnexpectedEof`, which
/// is the outcome `End`; the one other error, nesting beyond the reader's limit, is `Invalid`.
/// The reader never goes back nor beyond the end, and has read at least the first byte
/// whenever it reports anything but the end.
#[verifier::external_body]
fn read_value_at(bytes: &[u8], pos: usize) -> (out: (ReadOutcome, usize))
    requires
        pos <= bytes@.len(),
    ensures
        out.0@ == msgpack_reading(bytes@, pos as int).0,
        out.1 == msgpack_reading(bytes@, pos as int).1,
        pos <= out.1 <= bytes@.len(),
        !(out.0 is End) ==> pos < out.1,
{
    let mut reader = std::io::Cursor::new(bytes);
    reader.set_position(pos as u64);
    let outcome = match rmpv::decode::read_value(&mut reader) {
        Ok(value) => ReadOutcome::Value(value),
        Err(e) if e.kind() == std::io::ErrorKind::UnexpectedEof => ReadOutcome::End,
        Err(_) => ReadOutcome::Invalid,
    };
    (outcome, reader.position() as usize)
}

/// The variant of a `Value`.
#[verifier::external_body]
fn value_kind(v: &Value) -> (k: PackKind)
    ensures
        k == kind_of(unpacked(*v)),
{
    match v {
        Value::Nil => PackKind::Nil,
        Value::Boolean(_) => PackKind::Boolean,
        Value::Integer(_) => PackKind::Integer,
        Value::F32(_) => PackKind::F32,
        Value::F64(_) => PackKind::F64,
        Value::String(_) => PackKind::String,
        Value::Binary(_) => PackKind::Binary,
        Value::Array(_) => PackKind::Array,
        Value::Map(_) => PackKind::Dictionary,
        Value::Ext(_, _) => PackKind::Ext,
    }
}

/// `Value::as_bool`: the boolean of a `Boolean`, none for any other value.
#[verifier::external_body]
fn value_as_bool(v: &Value) -> (r: Option<bool>)
    ensures
        r == as_bool(unpacked(*v)),
{
    v.as_bool()
}

/// `Value::as_i64`: the integer where it is one that fits `i64`.
#[verifier::external_body]
fn value_as_i64(v: &Value) -> (r: Option<i64>)
    ensures
        r == as_i64(unpacked(*v)),
{
    v.as_i64()
}

/// `Value::as_u64`: the integer where it is one that fits `u64`.
#[verifier::external_body]
fn value_as_u64(v: &Value) -> (r: Option<u64>)
    ensures
        r == as_u64(unpacked(*v)),
{
    v.as_u64()
}

/// `Value::as_f64`, as a bit pattern: a double for every number and for nothing else. A
/// double is itself, and an integer is the double nearest to it. Of a single nothing is
/// said but that there is a result: which double a single that is no number widens to is
/// left to the machine.
#[verifier::external_body]
fn value_as_double(v: &Value) -> (r: Option<u64>)
    ensures
        r is Some == is_number(unpacked(*v)),
        unpacked(*v) is F64 ==> r == Some(unpacked(*v)->F64_0),
        unpacked(*v) is Integer ==> r == Some(integer_as_double(unpacked(*v)->Integer_0)),
{
    v.as_f64().map(|d| d.to_bits())
}

/// The bit pattern of the single of an `F32`, none for any other value.
#[verifier::external_body]
fn value_as_single(v: &Value) -> (r: Option<u32>)
    ensures
        r == as_single(unpacked(*v)),
{
    match v {
        Value::F32(x) => Some(x.to_bits()),
        _ => None,
    }
}

/// The bytes of a `Binary`, none for any other value.
#[verifier::external_body]
fn value_as_binary(v: &Value) -> (r: Option<Vec<u8>>)
    ensures
        match r {
            Some(b) => as_binary(unpacked(*v)) == Some(b@),
            None => as_binary(unpacked(*v)) is None,
        },
{
    match v {
        Value::Binary(b) => Some(b.clone()),
        _ => None,
    }
}

/// `Value::as_str`, owned: the text of a `String` that is UTF-8, none for any other value.
#[verifier::external_body]
fn value_as_text(v: &Value) -> (r: Option<String>)
    ensures
        match r {
            Some(t) => as_text(unpacked(*v)) == Some(t@),
            None => as_text(unpacked(*v)) is None,
        },
{
    v.as_str().map(|s| s.to_string())
}

/// `Value::as_array`: the items of an `Array`, none for any other value.
#[verifier::external_body]
fn value_as_array(v: &Value) -> (r: Option<&Vec<Value>>)
    ensures
        match r {
            Some(items) => as_array(unpacked(*v)) == Some(unpacked_all(items@)),
            None => as_array(unpacked(*v)) is None,
        },
{
    v.as_array()
}

/// A value of revision 4.
#[derive(Clone, Debug, PartialEq, Eq)]
pub enum NTValue {
    Int(i64),
    Float(Real),
    Double(Real),
    Boolean(bool),
    Raw(Vec<u8>),
    RPC(Vec<u8>),
    String(String),
    BooleanArray(Vec<bool>),
    IntArray(Vec<i64>),
    FloatArray(Vec<Real>),
    DoubleArray(Vec<Real>),
    StringArray(Vec<String>),
}

/// What a value of revision 4 is, as mathematics.
pub enum NTValueModel {
    Int(i64),
    Float(Real),
    Double(Real),
    Boolean(bool),
    Raw(Seq<u8>),
    RPC(Seq<u8>),
    String(Seq<char>),
    BooleanArray(Seq<bool>),
    IntArray(Seq<i64>),
    FloatArray(Seq<Real>),
    DoubleArray(Seq<Real>),
    StringArray(Seq<Seq<char>>),
}

impl View for NTValue {
    type V = NTValueModel;

    open spec fn view(&self) -> NTValueModel {
        match self {
            NTValue::Int(v) => NTValueModel::Int(*v),
            NTValue::Float(v) => NTValueModel::Float(*v),
            NTValue::Double(v) => NTValueModel::Double(*v),
            NTValue::Boolean(v) => NTValueModel::Boolean(*v),
            NTValue::Raw(v) => NTValueModel::Raw(v@),
            NTValue::RPC(v) => NTValueModel::RPC(v@),
            NTValue::String(v) => NTValueModel::String(v@),
            NTValue::BooleanArray(v) => NTValueModel::BooleanArray(v@),
            NTValue::IntArray(v) => NTValueModel::IntArray(v@),
            NTValue::FloatArray(v) => NTValueModel::FloatArray(v@),
            NTValue::DoubleArray(v) => NTValueModel::DoubleArray(v@),
            NTValue::StringArray(v) => NTValueModel::StringArray(texts(v@)),
        }
    }
}

impl NTValueModel {
    pub open spec fn data_type(self) -> DataType {
        match self {
            NTValueModel::Int(_) => DataType::Int,
            NTValueModel::Float(_) => DataType::Float,
            NTValueModel::Double(_) => DataType::Double,
            NTValueModel::Boolean(_) => DataType::Boolean,
            NTValueModel::Raw(_) => DataType::Raw,
            NTValueModel::RPC(_) => DataType::RPC,
            NTValueModel::String(_) => DataType::String,
            NTValueModel::BooleanArray(_) => DataType::BooleanArray,
            NTValueModel::IntArray(_) => DataType::IntArray,
            NTValueModel::FloatArray(_) => DataType::FloatArray,
            NTValueModel::DoubleArray(_) => DataType::DoubleArray,
            NTValueModel::StringArray(_) => DataType::StringArray,
        }
    }

    /// The value of a topic that was never written: zero, false, empty. The zero of a
    /// float is a single, that of a double a double.
    pub open spec fn default_of(ty: DataType) -> NTValueModel {
        match ty {
            DataType::Int => NTValueModel::Int(0),
            DataType::Boolean => NTValueModel::Boolean(false),
            DataType::Raw => NTValueModel::Raw(Seq::empty()),
            DataType::RPC => NTValueModel::RPC(Seq::empty()),
            DataType::String => NTValueModel::String(Seq::empty()),
            DataType::Float => NTValueModel::Float(Real::Single(0)),
            DataType::Double => NTValueModel::Double(Real::Double(0)),
            DataType::BooleanArray => NTValueModel::BooleanArray(Seq::empty()),
            DataType::StringArray => NTValueModel::StringArray(Seq::empty()),
            DataType::IntArray => NTValueModel::IntArray(Seq::empty()),
            DataType::FloatArray => NTValueModel::FloatArray(Seq::empty()),
            DataType::DoubleArray => NTValueModel::DoubleArray(Seq::empty()),
        }
    }
}

impl NTValue {
    /// The kind of the value.
    pub fn data_type(&self) -> (t: DataType)
        ensures
            t == self@.data_type(),
    {
        match self {
            NTValue::Int(_) => DataType::Int,
            NTValue::Float(_) => DataType::Float,
            NTValue::Double(_) => DataType::Double,
            NTValue::Boolean(_) => DataType::Boolean,
            NTValue::Raw(_) => DataType::Raw,
            NTValue::RPC(_) => DataType::RPC,
            NTValue::String(_) => DataType::String,
            NTValue::BooleanArray(_) => DataType::BooleanArray,
            NTValue::IntArray(_) => DataType::IntArray,
            NTValue::FloatArray(_) => DataType::FloatArray,
            NTValue::DoubleArray(_) => DataType::DoubleArray,
            NTValue::StringArray(_) => DataType::StringArray,
        }
    }

    /// A copy of the value.
    pub fn duplicate(&self) -> (r: NTValue)
        ensures
            r@ == self@,
    {
        match self {
            NTValue::Int(v) => NTValue::Int(*v),
            NTValue::Float(v) => NTValue::Float(*v),
            NTValue::Double(v) => NTValue::Double(*v),
            NTValue::Boolean(v) => NTValue::Boolean(*v),
            NTValue::Raw(v) => NTValue::Raw(slice_to_vec(v.as_slice())),
            NTValue::RPC(v) => NTValue::RPC(slice_to_vec(v.as_slice())),
            NTValue::String(v) => NTValue::String(v.clone()),
            NTValue::BooleanArray(v) => NTValue::BooleanArray(slice_to_vec(v.as_slice())),
            NTValue::IntArray(v) => NTValue::IntArray(slice_to_vec(v.as_slice())),
            NTValue::FloatArray(v) => NTValue::FloatArray(slice_to_vec(v.as_slice())),
            NTValue::DoubleArray(v) => NTValue::DoubleArray(slice_to_vec(v.as_slice())),
            NTValue::StringArray(v) => NTValue::StringArray(copy_strings(v)),
        }
    }
}

impl DataType {
    /// The value of a topic of this kind that was never written.
    pub fn default_value(&self) -> (v: NTValue)
        ensures
            v@ == NTValueModel::default_of(*self),
    {
        let v = match self {
            DataType::Int => NTValue::Int(0),
            DataType::Boolean => NTValue::Boolean(false),
            DataType::Raw => NTValue::Raw(Vec::new()),
            DataType::RPC => NTValue::RPC(Vec::new()),
            DataType::String => NTValue::String(String::new()),
            DataType::Float => NTValue::Float(Real::Single(0)),
            DataType::Double => NTValue::Double(Real::Double(0)),
            DataType::BooleanArray => NTValue::BooleanArray(Vec::new()),
            DataType::StringArray => NTValue::StringArray(Vec::new()),
            DataType::IntArray => NTValue::IntArray(Vec::new()),
            DataType::FloatArray => NTValue::FloatArray(Vec::new()),
            DataType::DoubleArray => NTValue::DoubleArray(Vec::new()),
        };
        assert(v@ =~= NTValueModel::default_of(*self)) by {
            match v {
                NTValue::Raw(b) => assert(b@ =~= Seq::<u8>::empty()),
                NTValue::RPC(b) => assert(b@ =~= Seq::<u8>::empty()),
                NTValue::String(b) => assert(b@ =~= Seq::<char>::empty()),
                NTValue::BooleanArray(b) => assert(b@ =~= Seq::<bool>::empty()),
                NTValue::IntArray(b) => assert(b@ =~= Seq::<i64>::empty()),
                NTValue::FloatArray(b) => assert(b@ =~= Seq::<Real>::empty()),
                NTValue::DoubleArray(b) => assert(b@ =~= Seq::<Real>::empty()),
                NTValue::StringArray(b) => assert(texts(b@) =~= Seq::<Seq<char>>::empty()),
                _ => {},
            }
        }
        v
    }
}

/// How an integer goes onto the wire.
#[derive(Clone, Copy, Debug, PartialEq, Eq, Structural)]
pub enum IntegerForm {
    Unsigned(u64),
    Signed(i64),
}

/// How an integer is written: a positive one as unsigned, any other as signed.
pub fn integer_serializer(i: i64) -> (form: IntegerForm)
    ensures
        form == if i > 0 {
            IntegerForm::Unsigned(i as u64)
        } else {
            IntegerForm::Signed(i)
        },
{
    if i > 0 {
        IntegerForm::Unsigned(i as u64)
    } else {
        IntegerForm::Signed(i)
    }
}

/// Why an update could not be read.
#[derive(Clone, Copy, Debug, PartialEq, Eq, Structural)]
pub enum DecodeError {
    /// The id is no integer that fits 64 bits with a sign; the kind of what stands there.
    InvalidId(PackKind),
    /// The time is no integer without a sign; the kind of what stands there.
    InvalidTimestamp(PackKind),
    /// The number of the kind is no integer without a sign.
    InvalidTypeFieldType(PackKind),
    /// The number stands for no kind; its lowest byte.
    InvalidTypeFieldValue(u8),
    /// An item of an array is not of the array's kind; the kind of the item.
    NonUniformArray(DataType, PackKind),
    /// The value is not of the update's kind; the kind of the value.
    InvalidMsgPackValue(PackKind),
    /// The bytes are not MessagePack that the reader follows.
    MsgPack,
    /// The update is no array; the kind of what it is.
    InvalidTopLevelValue(PackKind),
    /// The update is an array of fewer than four; how many it has.
    InvalidTopLevelArrayLength(usize),
}

/// One update: the id of the topic, the time of the change in microseconds, the value.
#[derive(Clone, Debug, PartialEq, Eq)]
pub struct NTBinaryMessage {
    pub id: i32,
    pub timestamp: u64,
    pub value: NTValue,
}

/// What an update is, as mathematics.
pub struct BinaryModel {
    pub id: i32,
    pub timestamp: u64,
    pub value: NTValueModel,
}

impl View for NTBinaryMessage {
    type V = BinaryModel;

    open spec fn view(&self) -> BinaryModel {
        BinaryModel { id: self.id, timestamp: self.timestamp, value: self.value@ }
    }
}

/// What a result of reading an update is, as mathematics.
pub open spec fn result_model(r: Result<NTBinaryMessage, DecodeError>) -> Result<
    BinaryModel,
    DecodeError,
> {
    match r {
        Ok(m) => Ok(m@),
        Err(e) => Err(e),
    }
}

/// The models of a list of results.
pub open spec fn results_model(results: Seq<Result<NTBinaryMessage, DecodeError>>) -> Seq<
    Result<BinaryModel, DecodeError>,
> {
    results.map_values(|r: Result<NTBinaryMessage, DecodeError>| result_model(r))
}

pub open spec fn bool_of() -> spec_fn(PackModel) -> Option<bool> {
    |m: PackModel| as_bool(m)
}

pub open spec fn integer_of() -> spec_fn(PackModel) -> Option<i64> {
    |m: PackModel| as_integer(m)
}

pub open spec fn real_of() -> spec_fn(PackModel) -> Option<Real> {
    |m: PackModel| as_real(m)
}

pub open spec fn text_of() -> spec_fn(PackModel) -> Option<Seq<char>> {
    |m: PackModel| as_text(m)
}

/// Every item is of the kind that `f` reads.
pub open spec fn all_convert<T>(items: Seq<PackModel>, f: spec_fn(PackModel) -> Option<T>) -> bool {
    forall|i: int| 0 <= i < items.len() ==> f(#[trigger] items[i]) is Some
}

/// The items as `f` reads them.
pub open spec fn converted<T>(items: Seq<PackModel>, f: spec_fn(PackModel) -> Option<T>) -> Seq<T> {
    items.map_values(|m: PackModel| f(m)->Some_0)
}

/// Where the first item stands that `f` does not read.
pub open spec fn first_failure<T>(items: Seq<PackModel>, f: spec_fn(PackModel) -> Option<T>) -> int {
    choose|i: int|
        0 <= i < items.len() && f(#[trigger] items[i]) is None && forall|j: int|
            0 <= j < i ==> f(#[trigger] items[j]) is Some
}

/// The first item that `f` does not read is where one finds it.
pub proof fn lemma_first_failure<T>(
    items: Seq<PackModel>,
    f: spec_fn(PackModel) -> Option<T>,
    i: int,
)
    requires
        0 <= i < items.len(),
        f(items[i]) is None,
        forall|j: int| 0 <= j < i ==> f(#[trigger] items[j]) is Some,
    ensures
        !all_convert(items, f),
        first_failure(items, f) == i,
{
    let k = first_failure(items, f);
    if k < i {
        assert(f(items[k]) is Some);
    } else if i < k {
        assert(f(items[i]) is Some);
    }
}

/// What reading an array of the kind `ty` gives: the items as `f` reads them, or the kind of
/// the first item that `f` does not read. What is no array is no value of an array kind.
pub open spec fn items_of<T>(ty: DataType, raw: PackModel, f: spec_fn(PackModel) -> Option<T>) -> Result<
    Seq<T>,
    DecodeError,
> {
    match as_array(raw) {
        None => Err(DecodeError::InvalidMsgPackValue(kind_of(raw))),
        Some(items) => if all_convert(items, f) {
            Ok(converted(items, f))
        } else {
            Err(DecodeError::NonUniformArray(ty, kind_of(items[first_failure(items, f)])))
        },
    }
}

/// The value of the kind `ty` that `raw` is.
///
/// An integer is any integer of 64 bits; one beyond the signed range wraps round. A float and
/// a double are any number, as it stands on the wire. Raw bytes and procedures are binary, a string is a
/// text in UTF-8, a boolean a boolean. An array is an array of such items.
pub open spec fn value_of(ty: DataType, raw: PackModel) -> Result<NTValueModel, DecodeError> {
    let mismatch = Err::<NTValueModel, DecodeError>(DecodeError::InvalidMsgPackValue(kind_of(raw)));
    match ty {
        DataType::Int => match as_integer(raw) {
            Some(v) => Ok(NTValueModel::Int(v)),
            None => mismatch,
        },
        DataType::Boolean => match as_bool(raw) {
            Some(v) => Ok(NTValueModel::Boolean(v)),
            None => mismatch,
        },
        DataType::Raw => match as_binary(raw) {
            Some(v) => Ok(NTValueModel::Raw(v)),
            None => mismatch,
        },
        DataType::RPC => match as_binary(raw) {
            Some(v) => Ok(NTValueModel::RPC(v)),
            None => mismatch,
        },
        DataType::String => match as_text(raw) {
            Some(v) => Ok(NTValueModel::String(v)),
            None => mismatch,
        },
        DataType::Float => match as_real(raw) {
            Some(v) => Ok(NTValueModel::Float(v)),
            None => mismatch,
        },
        DataType::Double => match as_real(raw) {
            Some(v) => Ok(NTValueModel::Double(v)),
            None => mismatch,
        },
        DataType::BooleanArray => match items_of(ty, raw, bool_of()) {
            Ok(v) => Ok(NTValueModel::BooleanArray(v)),
            Err(e) => Err(e),
        },
        DataType::StringArray => match items_of(ty, raw, text_of()) {
            Ok(v) => Ok(NTValueModel::StringArray(v)),
            Err(e) => Err(e),
        },
        DataType::IntArray => match items_of(ty, raw, integer_of()) {
            Ok(v) => Ok(NTValueModel::IntArray(v)),
            Err(e) => Err(e),
        },
        DataType::FloatArray => match items_of(ty, raw, real_of()) {
            Ok(v) => Ok(NTValueModel::FloatArray(v)),
            Err(e) => Err(e),
        },
        DataType::DoubleArray => match items_of(ty, raw, real_of()) {
            Ok(v) => Ok(NTValueModel::DoubleArray(v)),
            Err(e) => Err(e),
        },
    }
}

/// The update that the items of an array are.
///
/// The items are read in order: the id, which is cut to 32 bits; the time; the number of
/// the kind; the value. The first item that is missing or is not what it is to be decides
/// the error.
pub open spec fn update_of(items: Seq<PackModel>) -> Result<BinaryModel, DecodeError> {
    if items.len() < 1 {
        Err(DecodeError::InvalidTopLevelArrayLength(items.len() as usize))
    } else {
        match as_i64(items[0]) {
            None => Err(DecodeError::InvalidId(kind_of(items[0]))),
            Some(id) => if items.len() < 2 {
                Err(DecodeError::InvalidTopLevelArrayLength(items.len() as usize))
            } else {
                match as_u64(items[1]) {
                    None => Err(DecodeError::InvalidTimestamp(kind_of(items[1]))),
                    Some(timestamp) => if items.len() < 3 {
                        Err(DecodeError::InvalidTopLevelArrayLength(items.len() as usize))
                    } else {
                        match as_u64(items[2]) {
                            None => Err(DecodeError::InvalidTypeFieldType(kind_of(items[2]))),
                            Some(code) => match DataType::of_code(code) {
                                None => Err(DecodeError::InvalidTypeFieldValue(code as u8)),
                                Some(ty) => if items.len() < 4 {
                                    Err(
                                        DecodeError::InvalidTopLevelArrayLength(
                                            items.len() as usize,
                                        ),
                                    )
                                } else {
                                    match value_of(ty, items[3]) {
                                        Ok(value) => Ok(
                                            BinaryModel { id: id as i32, timestamp, value },
                                        ),
                                        Err(e) => Err(e),
                                    }
                                },
                            },
                        }
                    },
                }
            },
        }
    }
}

/// The update that a MessagePack value is.
pub open spec fn message_of(m: PackModel) -> Result<BinaryModel, DecodeError> {
    match as_array(m) {
        None => Err(DecodeError::InvalidTopLevelValue(kind_of(m))),
        Some(items) => update_of(items),
    }
}

fn convert_bools(ty: DataType, items: &Vec<Value>) -> (r: Result<Vec<bool>, DecodeError>)
    ensures
        match r {
            Ok(v) => items_of(ty, PackModel::Array(unpacked_all(items@)), bool_of()) == Ok::<
                Seq<bool>,
                DecodeError,
            >(v@),
            Err(e) => items_of(ty, PackModel::Array(unpacked_all(items@)), bool_of()) == Err::<
                Seq<bool>,
                DecodeError,
            >(e),
        },
{
    let ghost all = unpacked_all(items@);
    let mut out: Vec<bool> = Vec::new();
    let mut i: usize = 0;
    while i < items.len()
        invariant
            i <= items@.len(),
            all == unpacked_all(items@),
            out@.len() == i,
            forall|j: int| 0 <= j < i ==> bool_of()(#[trigger] all[j]) == Some(out@[j]),
        decreases items@.len() - i,
    {
        match value_as_bool(&items[i]) {
            Some(v) => out.push(v),
            None => {
                proof {
                    lemma_first_failure(all, bool_of(), i as int);
                }
                return Err(DecodeError::NonUniformArray(ty, value_kind(&items[i])));
            },
        }
        i += 1;
    }
    assert(out@ =~= converted(all, bool_of()));
    Ok(out)
}

fn convert_integers(ty: DataType, items: &Vec<Value>) -> (r: Result<Vec<i64>, DecodeError>)
    ensures
        match r {
            Ok(v) => items_of(ty, PackModel::Array(unpacked_all(items@)), integer_of()) == Ok::<
                Seq<i64>,
                DecodeError,
            >(v@),
            Err(e) => items_of(ty, PackModel::Array(unpacked_all(items@)), integer_of())
                == Err::<Seq<i64>, DecodeError>(e),
        },
{
    let ghost all = unpacked_all(items@);
    let mut out: Vec<i64> = Vec::new();
    let mut i: usize = 0;
    while i < items.len()
        invariant
            i <= items@.len(),
            all == unpacked_all(items@),
            out@.len() == i,
            forall|j: int| 0 <= j < i ==> integer_of()(#[trigger] all[j]) == Some(out@[j]),
        decreases items@.len() - i,
    {
        match read_integer(&items[i]) {
            Some(v) => out.push(v),
            None => {
                proof {
                    lemma_first_failure(all, integer_of(), i as int);
                }
                return Err(DecodeError::NonUniformArray(ty, value_kind(&items[i])));
            },
        }
        i += 1;
    }
    assert(out@ =~= converted(all, integer_of()));
    Ok(out)
}

fn convert_reals(ty: DataType, items: &Vec<Value>) -> (r: Result<Vec<Real>, DecodeError>)
    ensures
        match r {
            Ok(v) => items_of(ty, PackModel::Array(unpacked_all(items@)), real_of()) == Ok::<
                Seq<Real>,
                DecodeError,
            >(v@),
            Err(e) => items_of(ty, PackModel::Array(unpacked_all(items@)), real_of()) == Err::<
                Seq<Real>,
                DecodeError,
            >(e),
        },
{
    let ghost all = unpacked_all(items@);
    let mut out: Vec<Real> = Vec::new();
    let mut i: usize = 0;
    while i < items.len()
        invariant
            i <= items@.len(),
            all == unpacked_all(items@),
            out@.len() == i,
            forall|j: int| 0 <= j < i ==> real_of()(#[trigger] all[j]) == Some(out@[j]),
        decreases items@.len() - i,
    {
        match read_real(&items[i]) {
            Some(v) => out.push(v),
            None => {
                proof {
                    lemma_first_failure(all, real_of(), i as int);
                }
                return Err(DecodeError::NonUniformArray(ty, value_kind(&items[i])));
            },
        }
        i += 1;
    }
    assert(out@ =~= converted(all, real_of()));
    Ok(out)
}

fn convert_texts(ty: DataType, items: &Vec<Value>) -> (r: Result<Vec<String>, DecodeError>)
    ensures
        match r {
            Ok(v) => items_of(ty, PackModel::Array(unpacked_all(items@)), text_of()) == Ok::<
                Seq<Seq<char>>,
                DecodeError,
            >(texts(v@)),
            Err(e) => items_of(ty, PackModel::Array(unpacked_all(items@)), text_of()) == Err::<
                Seq<Seq<char>>,
                DecodeError,
            >(e),
        },
{
    let ghost all = unpacked_all(items@);
    let mut out: Vec<String> = Vec::new();
    let mut i: usize = 0;
    while i < items.len()
        invariant
            i <= items@.len(),
            all == unpacked_all(items@),
            out@.len() == i,
            forall|j: int| 0 <= j < i ==> text_of()(#[trigger] all[j]) == Some(texts(out@)[j]),
        decreases items@.len() - i,
    {
        match value_as_text(&items[i]) {
            Some(v) => {
                out.push(v);
            },
            None => {
                proof {
                    lemma_first_failure(all, text_of(), i as int);
                }
                return Err(DecodeError::NonUniformArray(ty, value_kind(&items[i])));
            },
        }
        i += 1;
    }
    assert(texts(out@) =~= converted(all, text_of()));
    Ok(out)
}

/// The number of a value, as it stands on the wire.
fn read_real(v: &Value) -> (r: Option<Real>)
    ensures
        r == as_real(unpacked(*v)),
{
    match value_as_single(v) {
        Some(bits) => Some(Real::Single(bits)),
        None => match value_as_double(v) {
            Some(bits) => Some(Real::Double(bits)),
            None => None,
        },
    }
}

/// The integer of a value, as `i64`; one beyond the signed range wraps round.
fn read_integer(v: &Value) -> (r: Option<i64>)
    ensures
        r == as_integer(unpacked(*v)),
{
    match value_as_i64(v) {
        Some(n) => Some(n),
        None => match value_as_u64(v) {
            Some(n) => Some(
                #[verifier::truncate]
                (n as i64),
            ),
            None => None,
        },
    }
}

fn array_items<'a>(raw: &'a Value) -> (r: Result<&'a Vec<Value>, DecodeError>)
    ensures
        match r {
            Ok(items) => unpacked(*raw) == PackModel::Array(unpacked_all(items@)),
            Err(e) => as_array(unpacked(*raw)) is None && e == DecodeError::InvalidMsgPackValue(
                kind_of(unpacked(*raw)),
            ),
        },
{
    match value_as_array(raw) {
        Some(items) => Ok(items),
        None => Err(DecodeError::InvalidMsgPackValue(value_kind(raw))),
    }
}

/// Reads a value of the kind `ty`.
#[verifier::rlimit(50)]
pub fn read_value_of(ty: DataType, raw: &Value) -> (r: Result<NTValue, DecodeError>)
    ensures
        match r {
            Ok(v) => value_of(ty, unpacked(*raw)) == Ok::<NTValueModel, DecodeError>(v@),
            Err(e) => value_of(ty, unpacked(*raw)) == Err::<NTValueModel, DecodeError>(e),
        },
{
    match ty {
        DataType::Int => match read_integer(raw) {
            Some(v) => Ok(NTValue::Int(v)),
            None => Err(DecodeError::InvalidMsgPackValue(value_kind(raw))),
        },
        DataType::Boolean => match value_as_bool(raw) {
            Some(v) => Ok(NTValue::Boolean(v)),
            None => Err(DecodeError::InvalidMsgPackValue(value_kind(raw))),
        },
        DataType::Raw => match value_as_binary(raw) {
            Some(v) => Ok(NTValue::Raw(v)),
            None => Err(DecodeError::InvalidMsgPackValue(value_kind(raw))),
        },
        DataType::RPC => match value_as_binary(raw) {
            Some(v) => Ok(NTValue::RPC(v)),
            None => Err(DecodeError::InvalidMsgPackValue(value_kind(raw))),
        },
        DataType::String => match value_as_text(raw) {
            Some(v) => Ok(NTValue::String(v)),
            None => Err(DecodeError::InvalidMsgPackValue(value_kind(raw))),
        },
        DataType::Float => match read_real(raw) {
            Some(v) => Ok(NTValue::Float(v)),
            None => Err(DecodeError::InvalidMsgPackValue(value_kind(raw))),
        },
        DataType::Double => match read_real(raw) {
            Some(v) => Ok(NTValue::Double(v)),
            None => Err(DecodeError::InvalidMsgPackValue(value_kind(raw))),
        },
        DataType::BooleanArray => {
            let items = array_items(raw)?;
            Ok(NTValue::BooleanArray(convert_bools(ty, items)?))
        },
        DataType::StringArray => {
            let items = array_items(raw)?;
            Ok(NTValue::StringArray(convert_texts(ty, items)?))
        },
        DataType::IntArray => {
            let items = array_items(raw)?;
            Ok(NTValue::IntArray(convert_integers(ty, items)?))
        },
        DataType::FloatArray => {
            let items = array_items(raw)?;
            Ok(NTValue::FloatArray(convert_reals(ty, items)?))
        },
        DataType::DoubleArray => {
            let items = array_items(raw)?;
            Ok(NTValue::DoubleArray(convert_reals(ty, items)?))
        },
    }
}

impl NTBinaryMessage {
    /// The update that a MessagePack value is; see `message_of`.
    #[verifier::rlimit(50)]
    pub fn from_value(value: &Value) -> (r: Result<NTBinaryMessage, DecodeError>)
        ensures
            result_model(r) == message_of(unpacked(*value)),
    {
        let items = match value_as_array(value) {
            Some(items) => items,
            None => {
                return Err(DecodeError::InvalidTopLevelValue(value_kind(value)));
            },
        };
        let ghost all = unpacked_all(items@);
        let n: usize = items.len();
        if n < 1 {
            return Err(DecodeError::InvalidTopLevelArrayLength(n));
        }
        let id: i32 = match value_as_i64(&items[0]) {
            Some(id) => #[verifier::truncate]
            (id as i32),
            None => {
                return Err(DecodeError::InvalidId(value_kind(&items[0])));
            },
        };
        if n < 2 {
            return Err(DecodeError::InvalidTopLevelArrayLength(n));
        }
        let timestamp: u64 = match value_as_u64(&items[1]) {
            Some(timestamp) => timestamp,
            None => {
                return Err(DecodeError::InvalidTimestamp(value_kind(&items[1])));
            },
        };
        if n < 3 {
            return Err(DecodeError::InvalidTopLevelArrayLength(n));
        }
        let code: u64 = match value_as_u64(&items[2]) {
            Some(code) => code,
            None => {
                return Err(DecodeError::InvalidTypeFieldType(value_kind(&items[2])));
            },
        };
        let ty = match DataType::from_code(code) {
            Some(ty) => ty,
            None => {
                return Err(
                    DecodeError::InvalidTypeFieldValue(
                        #[verifier::truncate]
                        (code as u8),
                    ),
                );
            },
        };
        if n < 4 {
            return Err(DecodeError::InvalidTopLevelArrayLength(n));
        }
        match read_value_of(ty, &items[3]) {
            Ok(value) => Ok(NTBinaryMessage { id, timestamp, value }),
            Err(e) => Err(e),
        }
    }
}

/// Reads MessagePack values from bytes, one after the other.
pub struct MsgpackStreamIterator {
    rd: Vec<u8>,
    pos: usize,
}

impl MsgpackStreamIterator {
    /// The bytes that the reader reads.
    pub closed spec fn bytes(&self) -> Seq<u8> {
        self.rd@
    }

    /// Where the reader stands.
    pub closed spec fn position(&self) -> int {
        self.pos as int
    }

    /// The reader stands inside its bytes.
    pub closed spec fn wf(&self) -> bool {
        self.pos <= self.rd@.len()
    }

    /// A reader at the start of `rd`.
    pub fn new(rd: Vec<u8>) -> (it: MsgpackStreamIterator)
        ensures
            it.wf(),
            it.bytes() == rd@,
            it.position() == 0,
    {
        MsgpackStreamIterator { rd, pos: 0 }
    }

    /// Reads the next value. The stream is over where the bytes end, also inside a value.
    /// Bytes that the reader does not follow are an error, and the stream goes on behind
    /// them.
    pub fn next(&mut self) -> (r: Option<Result<Value, DecodeError>>)
        requires
            old(self).wf(),
        ensures
            final(self).wf(),
            final(self).bytes() == old(self).bytes(),
            final(self).position() == msgpack_reading(old(self).bytes(), old(self).position()).1,
            old(self).position() <= final(self).position(),
            r is Some ==> old(self).position() < final(self).position(),
            match msgpack_reading(old(self).bytes(), old(self).position()).0 {
                ReadModel::Value(m) => r matches Some(Ok(v)) && unpacked(v) == m,
                ReadModel::End => r is None,
                ReadModel::Invalid => r == Some(
                    Err::<Value, DecodeError>(DecodeError::MsgPack),
                ),
            },
    {
        let (outcome, end) = read_value_at(self.rd.as_slice(), self.pos);
        self.pos = end;
        match outcome {
            ReadOutcome::Value(v) => Some(Ok(v)),
            ReadOutcome::End => None,
            ReadOutcome::Invalid => Some(Err(DecodeError::MsgPack)),
        }
    }
}

/// What reading update after update finds in `bytes` from `pos` on.
#[verifier::opaque]
pub open spec fn stream_messages(bytes: Seq<u8>, pos: int) -> Seq<Result<BinaryModel, DecodeError>>
    decreases bytes.len() - pos,
{
    let (found, end) = msgpack_reading(bytes, pos);
    if !(0 <= pos < end <= bytes.len()) {
        Seq::empty()
    } else {
        match found {
            ReadModel::Value(m) => seq![message_of(m)] + stream_messages(bytes, end),
            ReadModel::End => Seq::empty(),
            ReadModel::Invalid => seq![
                Err::<BinaryModel, DecodeError>(DecodeError::MsgPack),
            ] + stream_messages(bytes, end),
        }
    }
}

/// One step of `stream_messages`.
pub proof fn lemma_stream_step(bytes: Seq<u8>, pos: int)
    ensures
        stream_messages(bytes, pos) == {
            let (found, end) = msgpack_reading(bytes, pos);
            if !(0 <= pos < end <= bytes.len()) {
                Seq::empty()
            } else {
                match found {
                    ReadModel::Value(m) => seq![message_of(m)] + stream_messages(bytes, end),
                    ReadModel::End => Seq::empty(),
                    ReadModel::Invalid => seq![
                        Err::<BinaryModel, DecodeError>(DecodeError::MsgPack),
                    ] + stream_messages(bytes, end),
                }
            }
        },
{
    reveal_with_fuel(stream_messages, 1);
}

impl NTBinaryMessage {
    /// Reads the updates of a frame, in order: for every value in the bytes the update that
    /// it is, or why it is none. The reading ends where the bytes do.
    pub fn from_slice(slice: &[u8]) -> (out: Vec<Result<NTBinaryMessage, DecodeError>>)
        ensures
            results_model(out@) == stream_messages(slice@, 0),
    {
        let mut de = MsgpackStreamIterator::new(slice_to_vec(slice));
        let mut messages: Vec<Result<NTBinaryMessage, DecodeError>> = Vec::new();
        let ghost whole = stream_messages(slice@, 0);
        assert(results_model(messages@) + whole =~= whole);
        loop
            invariant
                de.wf(),
                de.bytes() == slice@,
                0 <= de.position(),
                whole == stream_messages(slice@, 0),
                whole == results_model(messages@) + stream_messages(slice@, de.position()),
            decreases slice@.len() - de.position(),
        {
            let ghost pos = de.position();
            let ghost done = results_model(messages@);
            proof {
                lemma_stream_step(slice@, pos);
            }
            match de.next() {
                Some(Ok(value)) => {
                    let message = NTBinaryMessage::from_value(&value);
                    let ghost m = result_model(message);
                    messages.push(message);
                    assert(results_model(messages@) =~= done.push(m));
                    assert(done.push(m) + stream_messages(slice@, de.position()) =~= done + (seq![
                        m,
                    ] + stream_messages(slice@, de.position())));
                },
                Some(Err(e)) => {
                    let ghost m = Err::<BinaryModel, DecodeError>(e);
                    messages.push(Err(e));
                    assert(results_model(messages@) =~= done.push(m));
                    assert(done.push(m) + stream_messages(slice@, de.position()) =~= done + (seq![
                        m,
                    ] + stream_messages(slice@, de.position())));
                },
                None => {
                    assert(done + Seq::<Result<BinaryModel, DecodeError>>::empty() =~= done);
                    return messages;
                },
            }
        }
    }
}

} // verus!
