//! Entry types, entry values and RPC definitions, with their layout on the wire.
//!
//! A double is held as its IEEE-754 binary64 bit pattern, which is what the wire carries: eight
//! bytes, most significant first.

use crate::error::{agrees, FrameError, ReadError};
use crate::wire::{
    array_bytes, blob_bytes, bool_byte, bool_parser, bool_ser, holds_at, items_bytes,
    lemma_array_bounds, lemma_blob_bounds, lemma_element_parsers_advance, lemma_holds_at_split,
    lemma_items_bytes_push, lemma_string_bounds, lemma_parse_array, lemma_parse_blob,
    lemma_parse_bool, lemma_parse_items, lemma_parse_string, lemma_parse_u64, lemma_parse_u8,
    parse_array, parse_blob, parse_bool, parse_items, parse_string, parse_u64, parse_u8, put_blob,
    put_bool, put_bools, put_string, put_strings, put_u64, put_u64s, put_u8, read_blob,
    read_bool, read_bools, read_string, read_strings, read_u64, read_u64s, read_u8,
    string_bytes, string_parser, string_ser, texts, u64_bytes, u64_parser, u64_ser,
};
use crate::ws::{lower, to_lower};
use vstd::prelude::*;
use vstd::slice::slice_to_vec;
use vstd::utf8::encode_utf8;

verus! {

/// The type of an entry's value.
#[derive(Clone, Copy, Debug, PartialEq, Eq, Hash, Structural)]
pub enum EntryType {
    Boolean,
    Double,
    String,
    RawData,
    BooleanArray,
    DoubleArray,
    StringArray,
    RpcDefinition,
}

impl View for EntryType {
    type V = EntryType;

    open spec fn view(&self) -> EntryType {
        *self
    }
}

/// The value of an entry.
#[derive(Clone, Debug, PartialEq, Eq)]
pub enum EntryValue {
    Boolean(bool),
    /// The bit pattern of the double.
    Double(u64),
    String(String),
    RawData(Vec<u8>),
    BooleanArray(Vec<bool>),
    /// The bit patterns of the doubles.
    DoubleArray(Vec<u64>),
    StringArray(Vec<String>),
    RpcDefinition(RpcDefinition),
}

/// The descriptor of a remote procedure.
#[derive(Clone, Debug, PartialEq, Eq)]
pub enum RpcDefinition {
    /// The legacy form: parameter and result are uninterpreted bytes.
    V0,
    /// The structured form.
    V1(RPCDefinitionData),
}

/// A structured RPC definition: the procedure's name, its parameters and its results, in order.
#[derive(Clone, Debug, PartialEq, Eq)]
pub struct RPCDefinitionData {
    pub procedure_name: String,
    pub parameters: Vec<Parameter>,
    pub results: Vec<RpcResult>,
}

/// A value that is not an RPC definition: what a parameter of a procedure can default to.
#[derive(Clone, Debug, PartialEq, Eq)]
pub enum PlainValue {
    Boolean(bool),
    /// The bit pattern of the double.
    Double(u64),
    String(String),
    RawData(Vec<u8>),
    BooleanArray(Vec<bool>),
    /// The bit patterns of the doubles.
    DoubleArray(Vec<u64>),
    StringArray(Vec<String>),
}

/// One parameter of a procedure, with the value it takes when the caller gives none.
#[derive(Clone, Debug, PartialEq, Eq)]
pub struct Parameter {
    pub parameter_type: EntryType,
    pub parameter_name: String,
    pub parameter_default: PlainValue,
}

/// One result of a procedure.
#[derive(Clone, Debug, PartialEq, Eq)]
pub struct RpcResult {
    pub result_type: EntryType,
    pub result_name: String,
}

/// What an entry value is, as mathematics.
pub enum ValueModel {
    Boolean(bool),
    Double(u64),
    String(Seq<char>),
    RawData(Seq<u8>),
    BooleanArray(Seq<bool>),
    DoubleArray(Seq<u64>),
    StringArray(Seq<Seq<char>>),
    RpcDefinition(RpcModel),
}

pub enum RpcModel {
    V0,
    V1(RpcDataModel),
}

pub struct RpcDataModel {
    pub procedure_name: Seq<char>,
    pub parameters: Seq<ParameterModel>,
    pub results: Seq<ResultModel>,
}

pub struct ParameterModel {
    pub parameter_type: EntryType,
    pub parameter_name: Seq<char>,
    pub parameter_default: ValueModel,
}

pub struct ResultModel {
    pub result_type: EntryType,
    pub result_name: Seq<char>,
}

/// The length prefix of the text fits in 64 bits.
pub open spec fn text_fits(t: Seq<char>) -> bool {
    encode_utf8(t).len() <= u64::MAX
}

/// The bytes spell the word, in whatever case of ASCII.
pub open spec fn spells(s: Seq<u8>, word: Seq<u8>) -> bool {
    s.len() == word.len() && forall|j: int| 0 <= j < s.len() ==> lower(#[trigger] s[j]) == word[j]
}

/// The word `string`.
pub open spec fn word_string() -> Seq<u8> {
    seq![0x73u8, 0x74u8, 0x72u8, 0x69u8, 0x6eu8, 0x67u8]
}

/// The word `bool`.
pub open spec fn word_bool() -> Seq<u8> {
    seq![0x62u8, 0x6fu8, 0x6fu8, 0x6cu8]
}

/// The word `double`.
pub open spec fn word_double() -> Seq<u8> {
    seq![0x64u8, 0x6fu8, 0x75u8, 0x62u8, 0x6cu8, 0x65u8]
}

/// The type that a name stands for, if it stands for one.
pub open spec fn named_type(name: Seq<u8>) -> Option<EntryType> {
    if spells(name, word_string()) {
        Some(EntryType::String)
    } else if spells(name, word_bool()) {
        Some(EntryType::Boolean)
    } else if spells(name, word_double()) {
        Some(EntryType::Double)
    } else {
        None
    }
}

fn same_word(value: &[u8], word: &[u8]) -> (b: bool)
    ensures
        b == spells(value@, word@),
{
    let n: usize = value.len();
    if n != word.len() {
        return false;
    }
    let mut j: usize = 0;
    while j < n
        invariant
            j <= n,
            n == value@.len(),
            n == word@.len(),
            forall|k: int| 0 <= k < j ==> lower(#[trigger] value@[k]) == word@[k],
        decreases n - j,
    {
        if to_lower(value[j]) != word[j] {
            assert(lower(value@[j as int]) != word@[j as int]);
            return false;
        }
        j += 1;
    }
    true
}

impl EntryType {
    /// The byte that stands for the type on the wire.
    pub open spec fn tag(self) -> u8 {
        match self {
            EntryType::Boolean => 0x00,
            EntryType::Double => 0x01,
            EntryType::String => 0x02,
            EntryType::RawData => 0x03,
            EntryType::BooleanArray => 0x10,
            EntryType::DoubleArray => 0x11,
            EntryType::StringArray => 0x12,
            EntryType::RpcDefinition => 0x20,
        }
    }

    /// The type that a byte stands for, if any.
    pub open spec fn of_tag(b: u8) -> Option<EntryType> {
        if b == 0x00 {
            Some(EntryType::Boolean)
        } else if b == 0x01 {
            Some(EntryType::Double)
        } else if b == 0x02 {
            Some(EntryType::String)
        } else if b == 0x03 {
            Some(EntryType::RawData)
        } else if b == 0x10 {
            Some(EntryType::BooleanArray)
        } else if b == 0x11 {
            Some(EntryType::DoubleArray)
        } else if b == 0x12 {
            Some(EntryType::StringArray)
        } else if b == 0x20 {
            Some(EntryType::RpcDefinition)
        } else {
            None
        }
    }

    pub fn to_tag(self) -> (b: u8)
        ensures
            b == self.tag(),
            Self::of_tag(b) == Some(self),
    {
        match self {
            EntryType::Boolean => 0x00,
            EntryType::Double => 0x01,
            EntryType::String => 0x02,
            EntryType::RawData => 0x03,
            EntryType::BooleanArray => 0x10,
            EntryType::DoubleArray => 0x11,
            EntryType::StringArray => 0x12,
            EntryType::RpcDefinition => 0x20,
        }
    }

    /// The type that a name stands for: `string`, `bool` or `double`, in whatever case.
    pub fn from_name(name: &str) -> (r: Option<EntryType>)
        ensures
            r == named_type(encode_utf8(name@)),
    {
        let bytes = name.as_bytes();
        let string: [u8; 6] = [0x73, 0x74, 0x72, 0x69, 0x6e, 0x67];
        let boolean: [u8; 4] = [0x62, 0x6f, 0x6f, 0x6c];
        let double: [u8; 6] = [0x64, 0x6f, 0x75, 0x62, 0x6c, 0x65];
        assert(string@ =~= word_string());
        assert(boolean@ =~= word_bool());
        assert(double@ =~= word_double());
        if same_word(bytes, string.as_slice()) {
            Some(EntryType::String)
        } else if same_word(bytes, boolean.as_slice()) {
            Some(EntryType::Boolean)
        } else if same_word(bytes, double.as_slice()) {
            Some(EntryType::Double)
        } else {
            None
        }
    }

    pub fn from_tag(b: u8) -> (r: Option<EntryType>)
        ensures
            r == Self::of_tag(b),
    {
        match b {
            0x00 => Some(EntryType::Boolean),
            0x01 => Some(EntryType::Double),
            0x02 => Some(EntryType::String),
            0x03 => Some(EntryType::RawData),
            0x10 => Some(EntryType::BooleanArray),
            0x11 => Some(EntryType::DoubleArray),
            0x12 => Some(EntryType::StringArray),
            0x20 => Some(EntryType::RpcDefinition),
            _ => None,
        }
    }

    /// Appends the type's tag.
    pub fn serialize(&self, buf: &mut Vec<u8>)
        ensures
            final(buf)@ == old(buf)@ + seq![self.tag()],
    {
        put_u8(buf, self.to_tag());
    }

    /// Reads a type tag at `pos`.
    pub fn deserialize(buf: &[u8], pos: usize) -> (res: Result<(EntryType, usize), ReadError>)
        ensures
            agrees(res, parse_entry_type(buf@, pos as int)),
    {
        let (b, p) = read_u8(buf, pos)?;
        match EntryType::from_tag(b) {
            Some(ty) => Ok((ty, p)),
            None => Err(ReadError::MalformedFrame(FrameError::UnknownEntryType(b))),
        }
    }
}

pub open spec fn parse_entry_type(s: Seq<u8>, pos: int) -> Result<(EntryType, int), ReadError> {
    match parse_u8(s, pos) {
        Ok((b, p)) => match EntryType::of_tag(b) {
            Some(ty) => Ok((ty, p)),
            None => Err(ReadError::MalformedFrame(FrameError::UnknownEntryType(b))),
        },
        Err(e) => Err(e),
    }
}

pub proof fn lemma_parse_entry_type(s: Seq<u8>, pos: int, ty: EntryType)
    requires
        holds_at(s, pos, seq![ty.tag()]),
    ensures
        parse_entry_type(s, pos) == Ok::<(EntryType, int), ReadError>((ty, pos + 1)),
{
    lemma_parse_u8(s, pos, ty.tag());
}

impl ValueModel {
    pub open spec fn entry_type(self) -> EntryType {
        match self {
            ValueModel::Boolean(_) => EntryType::Boolean,
            ValueModel::Double(_) => EntryType::Double,
            ValueModel::String(_) => EntryType::String,
            ValueModel::RawData(_) => EntryType::RawData,
            ValueModel::BooleanArray(_) => EntryType::BooleanArray,
            ValueModel::DoubleArray(_) => EntryType::DoubleArray,
            ValueModel::StringArray(_) => EntryType::StringArray,
            ValueModel::RpcDefinition(_) => EntryType::RpcDefinition,
        }
    }

    /// Any value but an RPC definition.
    pub open spec fn is_plain(self) -> bool {
        !(self is RpcDefinition)
    }

    /// The lengths in a plain value fit their prefixes.
    pub open spec fn plain_wf(self) -> bool {
        match self {
            ValueModel::String(t) => text_fits(t),
            ValueModel::RawData(b) => b.len() <= u64::MAX,
            ValueModel::BooleanArray(a) => a.len() <= u64::MAX,
            ValueModel::DoubleArray(a) => a.len() <= u64::MAX,
            ValueModel::StringArray(a) => a.len() <= u64::MAX && forall|i: int|
                0 <= i < a.len() ==> text_fits(#[trigger] a[i]),
            _ => true,
        }
    }

    /// The value can stand on the wire and be read back.
    pub open spec fn wf(self) -> bool {
        match self {
            ValueModel::RpcDefinition(r) => r.wf(),
            _ => self.plain_wf(),
        }
    }
}

impl ParameterModel {
    pub open spec fn wf(self) -> bool {
        &&& text_fits(self.parameter_name)
        &&& self.parameter_default.is_plain()
        &&& self.parameter_default.plain_wf()
        &&& self.parameter_default.entry_type() == self.parameter_type
    }
}

impl RpcModel {
    pub open spec fn wf(self) -> bool {
        match self {
            RpcModel::V0 => true,
            RpcModel::V1(d) => {
                &&& text_fits(d.procedure_name)
                &&& d.parameters.len() <= 255
                &&& d.results.len() <= 255
                &&& forall|i: int| 0 <= i < d.parameters.len() ==> (#[trigger] d.parameters[i]).wf()
                &&& forall|i: int|
                    0 <= i < d.results.len() ==> text_fits((#[trigger] d.results[i]).result_name)
                &&& rpc_body(self).len() <= u64::MAX
            },
        }
    }
}

/// A plain value on the wire. (An RPC definition is not plain and has no such bytes.)
pub open spec fn plain_bytes(m: ValueModel) -> Seq<u8> {
    match m {
        ValueModel::Boolean(b) => seq![bool_byte(b)],
        ValueModel::Double(v) => u64_bytes(v),
        ValueModel::String(t) => string_bytes(t),
        ValueModel::RawData(b) => blob_bytes(b),
        ValueModel::BooleanArray(a) => array_bytes(bool_ser(), a),
        ValueModel::DoubleArray(a) => array_bytes(u64_ser(), a),
        ValueModel::StringArray(a) => array_bytes(string_ser(), a),
        ValueModel::RpcDefinition(_) => Seq::empty(),
    }
}

pub open spec fn parameter_bytes(p: ParameterModel) -> Seq<u8> {
    seq![p.parameter_type.tag()] + string_bytes(p.parameter_name) + plain_bytes(
        p.parameter_default,
    )
}

pub open spec fn result_bytes(r: ResultModel) -> Seq<u8> {
    seq![r.result_type.tag()] + string_bytes(r.result_name)
}

pub open spec fn parameter_ser() -> spec_fn(ParameterModel) -> Seq<u8> {
    |p: ParameterModel| parameter_bytes(p)
}

pub open spec fn result_ser() -> spec_fn(ResultModel) -> Seq<u8> {
    |r: ResultModel| result_bytes(r)
}

/// What stands inside the byte array of an RPC definition: the version, and for version 1 the
/// name, the number of parameters, the parameters, the number of results, the results.
pub open spec fn rpc_body(r: RpcModel) -> Seq<u8> {
    match r {
        RpcModel::V0 => seq![0u8],
        RpcModel::V1(d) => seq![1u8] + string_bytes(d.procedure_name) + seq![
            d.parameters.len() as u8,
        ] + items_bytes(parameter_ser(), d.parameters) + seq![d.results.len() as u8]
            + items_bytes(result_ser(), d.results),
    }
}

/// A value on the wire, without its type tag.
pub open spec fn value_bytes(m: ValueModel) -> Seq<u8> {
    match m {
        ValueModel::RpcDefinition(r) => blob_bytes(rpc_body(r)),
        _ => plain_bytes(m),
    }
}

/// What reading a plain value of type `ty` at `pos` finds.
pub open spec fn parse_plain(ty: EntryType, s: Seq<u8>, pos: int) -> Result<
    (ValueModel, int),
    ReadError,
> {
    match ty {
        EntryType::Boolean => match parse_bool(s, pos) {
            Ok((b, p)) => Ok((ValueModel::Boolean(b), p)),
            Err(e) => Err(e),
        },
        EntryType::Double => match parse_u64(s, pos) {
            Ok((v, p)) => Ok((ValueModel::Double(v), p)),
            Err(e) => Err(e),
        },
        EntryType::String => match parse_string(s, pos) {
            Ok((t, p)) => Ok((ValueModel::String(t), p)),
            Err(e) => Err(e),
        },
        EntryType::RawData => match parse_blob(s, pos) {
            Ok((b, p)) => Ok((ValueModel::RawData(b), p)),
            Err(e) => Err(e),
        },
        EntryType::BooleanArray => match parse_array(bool_parser(), s, pos) {
            Ok((a, p)) => Ok((ValueModel::BooleanArray(a), p)),
            Err(e) => Err(e),
        },
        EntryType::DoubleArray => match parse_array(u64_parser(), s, pos) {
            Ok((a, p)) => Ok((ValueModel::DoubleArray(a), p)),
            Err(e) => Err(e),
        },
        EntryType::StringArray => match parse_array(string_parser(), s, pos) {
            Ok((a, p)) => Ok((ValueModel::StringArray(a), p)),
            Err(e) => Err(e),
        },
        EntryType::RpcDefinition => Err(
            ReadError::MalformedFrame(FrameError::InvalidRpcDefinition),
        ),
    }
}

pub open spec fn parse_parameter(s: Seq<u8>, pos: int) -> Result<(ParameterModel, int), ReadError> {
    match parse_entry_type(s, pos) {
        Ok((ty, p1)) => match parse_string(s, p1) {
            Ok((name, p2)) => match parse_plain(ty, s, p2) {
                Ok((v, p3)) => Ok(
                    (
                        ParameterModel {
                            parameter_type: ty,
                            parameter_name: name,
                            parameter_default: v,
                        },
                        p3,
                    ),
                ),
                Err(e) => Err(e),
            },
            Err(e) => Err(e),
        },
        Err(e) => Err(e),
    }
}

pub open spec fn parse_result(s: Seq<u8>, pos: int) -> Result<(ResultModel, int), ReadError> {
    match parse_entry_type(s, pos) {
        Ok((ty, p1)) => match parse_string(s, p1) {
            Ok((name, p2)) => Ok((ResultModel { result_type: ty, result_name: name }, p2)),
            Err(e) => Err(e),
        },
        Err(e) => Err(e),
    }
}

pub open spec fn parameter_parser() -> spec_fn(Seq<u8>, int) -> Result<
    (ParameterModel, int),
    ReadError,
> {
    |s: Seq<u8>, p: int| parse_parameter(s, p)
}

pub open spec fn result_parser() -> spec_fn(Seq<u8>, int) -> Result<(ResultModel, int), ReadError> {
    |s: Seq<u8>, p: int| parse_result(s, p)
}

/// What follows the version byte of a version 1 definition.
pub open spec fn parse_rpc_data(s: Seq<u8>, pos: int) -> Result<(RpcDataModel, int), ReadError> {
    match parse_string(s, pos) {
        Ok((name, p1)) => match parse_u8(s, p1) {
            Ok((np, p2)) => match parse_items(
                parameter_parser(),
                s,
                p2,
                np as nat,
                Seq::empty(),
            ) {
                Ok((parameters, p3)) => match parse_u8(s, p3) {
                    Ok((nr, p4)) => match parse_items(
                        result_parser(),
                        s,
                        p4,
                        nr as nat,
                        Seq::empty(),
                    ) {
                        Ok((results, p5)) => Ok(
                            (RpcDataModel { procedure_name: name, parameters, results }, p5),
                        ),
                        Err(e) => Err(e),
                    },
                    Err(e) => Err(e),
                },
                Err(e) => Err(e),
            },
            Err(e) => Err(e),
        },
        Err(e) => Err(e),
    }
}

/// What the bytes inside the byte array of an RPC definition are. The array is complete, so
/// contents that end early, or before the array does, are malformed.
pub open spec fn parse_rpc_body(body: Seq<u8>) -> Result<RpcModel, FrameError> {
    if body.len() == 0 {
        Err(FrameError::InvalidRpcDefinition)
    } else if body[0] == 0 {
        if body.len() == 1 {
            Ok(RpcModel::V0)
        } else {
            Err(FrameError::InvalidRpcDefinition)
        }
    } else if body[0] == 1 {
        match parse_rpc_data(body, 1) {
            Ok((d, end)) => if end == body.len() {
                Ok(RpcModel::V1(d))
            } else {
                Err(FrameError::InvalidRpcDefinition)
            },
            Err(ReadError::NeedMoreData) => Err(FrameError::InvalidRpcDefinition),
            Err(ReadError::MalformedFrame(f)) => Err(f),
        }
    } else {
        Err(FrameError::InvalidRpcVersion(body[0]))
    }
}

pub open spec fn parse_rpc(s: Seq<u8>, pos: int) -> Result<(RpcModel, int), ReadError> {
    match parse_blob(s, pos) {
        Ok((body, end)) => match parse_rpc_body(body) {
            Ok(r) => Ok((r, end)),
            Err(f) => Err(ReadError::MalformedFrame(f)),
        },
        Err(e) => Err(e),
    }
}

/// What reading a value of type `ty` at `pos` finds.
pub open spec fn parse_value(ty: EntryType, s: Seq<u8>, pos: int) -> Result<
    (ValueModel, int),
    ReadError,
> {
    if ty == EntryType::RpcDefinition {
        match parse_rpc(s, pos) {
            Ok((r, p)) => Ok((ValueModel::RpcDefinition(r), p)),
            Err(e) => Err(e),
        }
    } else {
        parse_plain(ty, s, pos)
    }
}

/// The models of a sequence of parameters.
pub open spec fn parameters_model(items: Seq<Parameter>) -> Seq<ParameterModel> {
    items.map_values(|p: Parameter| p@)
}

/// The models of a sequence of results.
pub open spec fn results_model(items: Seq<RpcResult>) -> Seq<ResultModel> {
    items.map_values(|r: RpcResult| r@)
}

impl View for PlainValue {
    type V = ValueModel;

    open spec fn view(&self) -> ValueModel {
        match self {
            PlainValue::Boolean(b) => ValueModel::Boolean(*b),
            PlainValue::Double(v) => ValueModel::Double(*v),
            PlainValue::String(t) => ValueModel::String(t@),
            PlainValue::RawData(b) => ValueModel::RawData(b@),
            PlainValue::BooleanArray(a) => ValueModel::BooleanArray(a@),
            PlainValue::DoubleArray(a) => ValueModel::DoubleArray(a@),
            PlainValue::StringArray(a) => ValueModel::StringArray(texts(a@)),
        }
    }
}

impl View for Parameter {
    type V = ParameterModel;

    open spec fn view(&self) -> ParameterModel {
        ParameterModel {
            parameter_type: self.parameter_type,
            parameter_name: self.parameter_name@,
            parameter_default: self.parameter_default@,
        }
    }
}

impl View for RpcResult {
    type V = ResultModel;

    open spec fn view(&self) -> ResultModel {
        ResultModel { result_type: self.result_type, result_name: self.result_name@ }
    }
}

impl View for RPCDefinitionData {
    type V = RpcDataModel;

    open spec fn view(&self) -> RpcDataModel {
        RpcDataModel {
            procedure_name: self.procedure_name@,
            parameters: parameters_model(self.parameters@),
            results: results_model(self.results@),
        }
    }
}

impl View for RpcDefinition {
    type V = RpcModel;

    open spec fn view(&self) -> RpcModel {
        match self {
            RpcDefinition::V0 => RpcModel::V0,
            RpcDefinition::V1(d) => RpcModel::V1(d@),
        }
    }
}

impl View for EntryValue {
    type V = ValueModel;

    open spec fn view(&self) -> ValueModel {
        match self {
            EntryValue::Boolean(b) => ValueModel::Boolean(*b),
            EntryValue::Double(v) => ValueModel::Double(*v),
            EntryValue::String(t) => ValueModel::String(t@),
            EntryValue::RawData(b) => ValueModel::RawData(b@),
            EntryValue::BooleanArray(a) => ValueModel::BooleanArray(a@),
            EntryValue::DoubleArray(a) => ValueModel::DoubleArray(a@),
            EntryValue::StringArray(a) => ValueModel::StringArray(texts(a@)),
            EntryValue::RpcDefinition(d) => ValueModel::RpcDefinition(d@),
        }
    }
}

impl PlainValue {
    pub fn entry_type(&self) -> (t: EntryType)
        ensures
            t == self@.entry_type(),
            self@.is_plain(),
    {
        match self {
            PlainValue::Boolean(_) => EntryType::Boolean,
            PlainValue::Double(_) => EntryType::Double,
            PlainValue::String(_) => EntryType::String,
            PlainValue::RawData(_) => EntryType::RawData,
            PlainValue::BooleanArray(_) => EntryType::BooleanArray,
            PlainValue::DoubleArray(_) => EntryType::DoubleArray,
            PlainValue::StringArray(_) => EntryType::StringArray,
        }
    }

    /// The same value as an entry value.
    pub fn into_value(self) -> (v: EntryValue)
        ensures
            v@ == self@,
    {
        match self {
            PlainValue::Boolean(b) => EntryValue::Boolean(b),
            PlainValue::Double(v) => EntryValue::Double(v),
            PlainValue::String(t) => EntryValue::String(t),
            PlainValue::RawData(b) => EntryValue::RawData(b),
            PlainValue::BooleanArray(a) => EntryValue::BooleanArray(a),
            PlainValue::DoubleArray(a) => EntryValue::DoubleArray(a),
            PlainValue::StringArray(a) => EntryValue::StringArray(a),
        }
    }

    /// Appends the value, without a type tag.
    pub fn serialize(&self, buf: &mut Vec<u8>)
        ensures
            final(buf)@ == old(buf)@ + plain_bytes(self@),
    {
        match self {
            PlainValue::Boolean(b) => put_bool(buf, *b),
            PlainValue::Double(v) => put_u64(buf, *v),
            PlainValue::String(t) => put_string(buf, t.as_str()),
            PlainValue::RawData(b) => put_blob(buf, b.as_slice()),
            PlainValue::BooleanArray(a) => put_bools(buf, a),
            PlainValue::DoubleArray(a) => put_u64s(buf, a),
            PlainValue::StringArray(a) => put_strings(buf, a),
        }
    }

    /// Reads a value of type `ty` at `pos`. An RPC definition is no plain value.
    pub fn deserialize(ty: EntryType, buf: &[u8], pos: usize) -> (res: Result<
        (PlainValue, usize),
        ReadError,
    >)
        ensures
            agrees(res, parse_plain(ty, buf@, pos as int)),
    {
        match ty {
            EntryType::Boolean => {
                let (b, p) = read_bool(buf, pos)?;
                Ok((PlainValue::Boolean(b), p))
            },
            EntryType::Double => {
                let (v, p) = read_u64(buf, pos)?;
                Ok((PlainValue::Double(v), p))
            },
            EntryType::String => {
                let (t, p) = read_string(buf, pos)?;
                Ok((PlainValue::String(t), p))
            },
            EntryType::RawData => {
                let (b, p) = read_blob(buf, pos)?;
                Ok((PlainValue::RawData(b), p))
            },
            EntryType::BooleanArray => {
                let (a, p) = read_bools(buf, pos)?;
                Ok((PlainValue::BooleanArray(a), p))
            },
            EntryType::DoubleArray => {
                let (a, p) = read_u64s(buf, pos)?;
                Ok((PlainValue::DoubleArray(a), p))
            },
            EntryType::StringArray => {
                let (a, p) = read_strings(buf, pos)?;
                Ok((PlainValue::StringArray(a), p))
            },
            EntryType::RpcDefinition => Err(
                ReadError::MalformedFrame(FrameError::InvalidRpcDefinition),
            ),
        }
    }
}

impl Parameter {
    pub fn serialize(&self, buf: &mut Vec<u8>)
        ensures
            final(buf)@ == old(buf)@ + parameter_bytes(self@),
    {
        let ghost start = buf@;
        self.parameter_type.serialize(buf);
        put_string(buf, self.parameter_name.as_str());
        self.parameter_default.serialize(buf);
        assert(buf@ == start + parameter_bytes(self@));
    }

    pub fn deserialize(buf: &[u8], pos: usize) -> (res: Result<(Parameter, usize), ReadError>)
        ensures
            agrees(res, parse_parameter(buf@, pos as int)),
    {
        let (parameter_type, p1) = EntryType::deserialize(buf, pos)?;
        let (parameter_name, p2) = read_string(buf, p1)?;
        let (parameter_default, p3) = PlainValue::deserialize(parameter_type, buf, p2)?;
        Ok((Parameter { parameter_type, parameter_name, parameter_default }, p3))
    }
}

impl RpcResult {
    pub fn serialize(&self, buf: &mut Vec<u8>)
        ensures
            final(buf)@ == old(buf)@ + result_bytes(self@),
    {
        let ghost start = buf@;
        self.result_type.serialize(buf);
        put_string(buf, self.result_name.as_str());
        assert(buf@ == start + result_bytes(self@));
    }

    pub fn deserialize(buf: &[u8], pos: usize) -> (res: Result<(RpcResult, usize), ReadError>)
        ensures
            agrees(res, parse_result(buf@, pos as int)),
    {
        let (result_type, p1) = EntryType::deserialize(buf, pos)?;
        let (result_name, p2) = read_string(buf, p1)?;
        Ok((RpcResult { result_type, result_name }, p2))
    }
}

fn put_parameters(buf: &mut Vec<u8>, items: &Vec<Parameter>)
    ensures
        final(buf)@ == old(buf)@ + items_bytes(parameter_ser(), parameters_model(items@)),
{
    let ghost start = buf@;
    let ghost all = parameters_model(items@);
    let mut i: usize = 0;
    assert(items_bytes(parameter_ser(), all.take(0)) =~= Seq::<u8>::empty());
    while i < items.len()
        invariant
            i <= items@.len(),
            all == parameters_model(items@),
            buf@ == start + items_bytes(parameter_ser(), all.take(i as int)),
        decreases items@.len() - i,
    {
        proof {
            lemma_items_bytes_push(parameter_ser(), all.take(i as int), all[i as int]);
            assert(all.take(i as int).push(all[i as int]) =~= all.take(i + 1));
        }
        items[i].serialize(buf);
        i += 1;
    }
    assert(all.take(i as int) =~= all);
}

fn put_results(buf: &mut Vec<u8>, items: &Vec<RpcResult>)
    ensures
        final(buf)@ == old(buf)@ + items_bytes(result_ser(), results_model(items@)),
{
    let ghost start = buf@;
    let ghost all = results_model(items@);
    let mut i: usize = 0;
    assert(items_bytes(result_ser(), all.take(0)) =~= Seq::<u8>::empty());
    while i < items.len()
        invariant
            i <= items@.len(),
            all == results_model(items@),
            buf@ == start + items_bytes(result_ser(), all.take(i as int)),
        decreases items@.len() - i,
    {
        proof {
            lemma_items_bytes_push(result_ser(), all.take(i as int), all[i as int]);
            assert(all.take(i as int).push(all[i as int]) =~= all.take(i + 1));
        }
        items[i].serialize(buf);
        i += 1;
    }
    assert(all.take(i as int) =~= all);
}

fn read_parameters(buf: &[u8], pos: usize, n: u8) -> (res: Result<
    (Vec<Parameter>, usize),
    ReadError,
>)
    ensures
        match (res, parse_items(parameter_parser(), buf@, pos as int, n as nat, Seq::empty())) {
            (Ok((v, p)), Ok((m, q))) => parameters_model(v@) == m && p as int == q,
            (Err(e), Err(f)) => e == f,
            _ => false,
        },
{
    let mut items: Vec<Parameter> = Vec::new();
    let mut cur: usize = pos;
    let mut i: u8 = 0;
    assert(parameters_model(items@) =~= Seq::<ParameterModel>::empty());
    while i < n
        invariant
            i <= n,
            parse_items(parameter_parser(), buf@, pos as int, n as nat, Seq::empty())
                == parse_items(
                parameter_parser(),
                buf@,
                cur as int,
                (n - i) as nat,
                parameters_model(items@),
            ),
        decreases n - i,
    {
        let (item, next) = Parameter::deserialize(buf, cur)?;
        let ghost before = parameters_model(items@);
        let ghost added = item@;
        items.push(item);
        assert(parameters_model(items@) =~= before.push(added));
        cur = next;
        i += 1;
    }
    Ok((items, cur))
}

fn read_results(buf: &[u8], pos: usize, n: u8) -> (res: Result<(Vec<RpcResult>, usize), ReadError>)
    ensures
        match (res, parse_items(result_parser(), buf@, pos as int, n as nat, Seq::empty())) {
            (Ok((v, p)), Ok((m, q))) => results_model(v@) == m && p as int == q,
            (Err(e), Err(f)) => e == f,
            _ => false,
        },
{
    let mut items: Vec<RpcResult> = Vec::new();
    let mut cur: usize = pos;
    let mut i: u8 = 0;
    assert(results_model(items@) =~= Seq::<ResultModel>::empty());
    while i < n
        invariant
            i <= n,
            parse_items(result_parser(), buf@, pos as int, n as nat, Seq::empty())
                == parse_items(
                result_parser(),
                buf@,
                cur as int,
                (n - i) as nat,
                results_model(items@),
            ),
        decreases n - i,
    {
        let (item, next) = RpcResult::deserialize(buf, cur)?;
        let ghost before = results_model(items@);
        let ghost added = item@;
        items.push(item);
        assert(results_model(items@) =~= before.push(added));
        cur = next;
        i += 1;
    }
    Ok((items, cur))
}

impl RPCDefinitionData {
    /// The numbers of parameters and of results each fit the byte that carries them.
    pub open spec fn encodable(&self) -> bool {
        self.parameters@.len() <= 255 && self.results@.len() <= 255
    }

    /// Reads what follows the version byte of a version 1 definition.
    pub fn decode(buf: &[u8], pos: usize) -> (res: Result<(RPCDefinitionData, usize), ReadError>)
        ensures
            agrees(res, parse_rpc_data(buf@, pos as int)),
    {
        let (procedure_name, p1) = read_string(buf, pos)?;
        let (np, p2) = read_u8(buf, p1)?;
        let (parameters, p3) = read_parameters(buf, p2, np)?;
        let (nr, p4) = read_u8(buf, p3)?;
        let (results, p5) = read_results(buf, p4, nr)?;
        Ok((RPCDefinitionData { procedure_name, parameters, results }, p5))
    }
}

impl RpcDefinition {
    /// A definition that the wire format can carry.
    pub open spec fn encodable(&self) -> bool {
        match self {
            RpcDefinition::V0 => true,
            RpcDefinition::V1(d) => d.encodable(),
        }
    }

    /// The bytes inside the definition's byte array.
    pub fn body(&self) -> (out: Vec<u8>)
        requires
            self.encodable(),
        ensures
            out@ == rpc_body(self@),
    {
        let mut out: Vec<u8> = Vec::new();
        match self {
            RpcDefinition::V0 => {
                put_u8(&mut out, 0);
                assert(out@ =~= seq![0u8]);
            },
            RpcDefinition::V1(d) => {
                put_u8(&mut out, 1);
                put_string(&mut out, d.procedure_name.as_str());
                put_u8(&mut out, d.parameters.len() as u8);
                put_parameters(&mut out, &d.parameters);
                put_u8(&mut out, d.results.len() as u8);
                put_results(&mut out, &d.results);
                assert(out@ =~= rpc_body(self@));
            },
        }
        out
    }

    /// What the bytes inside a definition's byte array define.
    pub fn from_body(body: &[u8]) -> (res: Result<RpcDefinition, FrameError>)
        ensures
            match (res, parse_rpc_body(body@)) {
                (Ok(d), Ok(m)) => d@ == m,
                (Err(e), Err(f)) => e == f,
                _ => false,
            },
    {
        if body.len() == 0 {
            return Err(FrameError::InvalidRpcDefinition);
        }
        let version: u8 = body[0];
        if version == 0 {
            if body.len() == 1 {
                Ok(RpcDefinition::V0)
            } else {
                Err(FrameError::InvalidRpcDefinition)
            }
        } else if version == 1 {
            match RPCDefinitionData::decode(body, 1) {
                Ok((d, end)) => if end == body.len() {
                    Ok(RpcDefinition::V1(d))
                } else {
                    Err(FrameError::InvalidRpcDefinition)
                },
                Err(ReadError::NeedMoreData) => Err(FrameError::InvalidRpcDefinition),
                Err(ReadError::MalformedFrame(f)) => Err(f),
            }
        } else {
            Err(FrameError::InvalidRpcVersion(version))
        }
    }

    /// Appends the definition as a byte array.
    pub fn serialize(&self, buf: &mut Vec<u8>)
        requires
            self.encodable(),
        ensures
            final(buf)@ == old(buf)@ + blob_bytes(rpc_body(self@)),
    {
        let body = self.body();
        put_blob(buf, body.as_slice());
    }

    /// Reads a definition at `pos`.
    pub fn deserialize(buf: &[u8], pos: usize) -> (res: Result<(RpcDefinition, usize), ReadError>)
        ensures
            agrees(res, parse_rpc(buf@, pos as int)),
    {
        let (body, end) = read_blob(buf, pos)?;
        match RpcDefinition::from_body(body.as_slice()) {
            Ok(d) => Ok((d, end)),
            Err(f) => Err(ReadError::MalformedFrame(f)),
        }
    }
}

impl EntryValue {
    /// The type of the value.
    pub fn entry_type(&self) -> (t: EntryType)
        ensures
            t == self@.entry_type(),
    {
        match self {
            EntryValue::Boolean(_) => EntryType::Boolean,
            EntryValue::Double(_) => EntryType::Double,
            EntryValue::String(_) => EntryType::String,
            EntryValue::RawData(_) => EntryType::RawData,
            EntryValue::BooleanArray(_) => EntryType::BooleanArray,
            EntryValue::DoubleArray(_) => EntryType::DoubleArray,
            EntryValue::StringArray(_) => EntryType::StringArray,
            EntryValue::RpcDefinition(_) => EntryType::RpcDefinition,
        }
    }

    /// A value that the wire format can carry: every value but an RPC definition with more
    /// than 255 parameters or results.
    pub open spec fn encodable(&self) -> bool {
        match self {
            EntryValue::RpcDefinition(d) => d.encodable(),
            _ => true,
        }
    }
}

impl EntryValue {
    /// Whether the wire format can carry the value.
    pub fn is_encodable(&self) -> (b: bool)
        ensures
            b == self.encodable(),
    {
        match self {
            EntryValue::RpcDefinition(RpcDefinition::V1(d)) => d.parameters.len() <= 255
                && d.results.len() <= 255,
            _ => true,
        }
    }
}

impl EntryType {
    /// Appends `value`, without a type tag. The layout follows the value, whatever `self` is.
    pub fn write_value(self, value: &EntryValue, buf: &mut Vec<u8>)
        requires
            value.encodable(),
        ensures
            final(buf)@ == old(buf)@ + value_bytes(value@),
    {
        match value {
            EntryValue::Boolean(b) => put_bool(buf, *b),
            EntryValue::Double(v) => put_u64(buf, *v),
            EntryValue::String(t) => put_string(buf, t.as_str()),
            EntryValue::RawData(b) => put_blob(buf, b.as_slice()),
            EntryValue::BooleanArray(a) => put_bools(buf, a),
            EntryValue::DoubleArray(a) => put_u64s(buf, a),
            EntryValue::StringArray(a) => put_strings(buf, a),
            EntryValue::RpcDefinition(d) => d.serialize(buf),
        }
    }

    /// Reads a value of this type at `pos`.
    pub fn read_value(self, buf: &[u8], pos: usize) -> (res: Result<
        (EntryValue, usize),
        ReadError,
    >)
        ensures
            agrees(res, parse_value(self, buf@, pos as int)),
    {
        match self {
            EntryType::RpcDefinition => {
                let (d, p) = RpcDefinition::deserialize(buf, pos)?;
                Ok((EntryValue::RpcDefinition(d), p))
            },
            _ => {
                let (v, p) = PlainValue::deserialize(self, buf, pos)?;
                Ok((v.into_value(), p))
            },
        }
    }
}

/// Reading a plain value where its bytes stand gives the value back.
#[verifier::rlimit(50)]
pub proof fn lemma_parse_plain(s: Seq<u8>, pos: int, m: ValueModel)
    requires
        m.is_plain(),
        m.plain_wf(),
        holds_at(s, pos, plain_bytes(m)),
    ensures
        parse_plain(m.entry_type(), s, pos) == Ok::<(ValueModel, int), ReadError>(
            (m, pos + plain_bytes(m).len()),
        ),
{
    match m {
        ValueModel::Boolean(b) => lemma_parse_bool(s, pos, b),
        ValueModel::Double(v) => lemma_parse_u64(s, pos, v),
        ValueModel::String(t) => lemma_parse_string(s, pos, t),
        ValueModel::RawData(b) => lemma_parse_blob(s, pos, b),
        ValueModel::BooleanArray(a) => {
            assert forall|i: int, q: int|
                #![trigger a[i], bool_parser()(s, q)]
                0 <= i < a.len() && holds_at(s, q, bool_ser()(a[i])) implies bool_parser()(s, q)
                == Ok::<(bool, int), ReadError>((a[i], q + bool_ser()(a[i]).len())) by {
                lemma_parse_bool(s, q, a[i]);
            }
            lemma_parse_array(bool_parser(), bool_ser(), s, pos, a);
        },
        ValueModel::DoubleArray(a) => {
            assert forall|i: int, q: int|
                #![trigger a[i], u64_parser()(s, q)]
                0 <= i < a.len() && holds_at(s, q, u64_ser()(a[i])) implies u64_parser()(s, q)
                == Ok::<(u64, int), ReadError>((a[i], q + u64_ser()(a[i]).len())) by {
                lemma_parse_u64(s, q, a[i]);
            }
            lemma_parse_array(u64_parser(), u64_ser(), s, pos, a);
        },
        ValueModel::StringArray(a) => {
            assert forall|i: int, q: int|
                #![trigger a[i], string_parser()(s, q)]
                0 <= i < a.len() && holds_at(s, q, string_ser()(a[i])) implies string_parser()(
                s,
                q,
            ) == Ok::<(Seq<char>, int), ReadError>((a[i], q + string_ser()(a[i]).len())) by {
                lemma_parse_string(s, q, a[i]);
            }
            lemma_parse_array(string_parser(), string_ser(), s, pos, a);
        },
        ValueModel::RpcDefinition(_) => {},
    }
}

/// Reading a parameter where its bytes stand gives the parameter back.
pub proof fn lemma_parse_parameter(s: Seq<u8>, pos: int, p: ParameterModel)
    requires
        p.wf(),
        holds_at(s, pos, parameter_bytes(p)),
    ensures
        parse_parameter(s, pos) == Ok::<(ParameterModel, int), ReadError>(
            (p, pos + parameter_bytes(p).len()),
        ),
{
    let tag = seq![p.parameter_type.tag()];
    let name = string_bytes(p.parameter_name);
    let value = plain_bytes(p.parameter_default);
    lemma_holds_at_split(s, pos, tag + name, value);
    lemma_holds_at_split(s, pos, tag, name);
    lemma_parse_entry_type(s, pos, p.parameter_type);
    lemma_parse_string(s, pos + 1, p.parameter_name);
    lemma_parse_plain(s, pos + 1 + name.len(), p.parameter_default);
}

/// Reading a result where its bytes stand gives the result back.
pub proof fn lemma_parse_result(s: Seq<u8>, pos: int, r: ResultModel)
    requires
        text_fits(r.result_name),
        holds_at(s, pos, result_bytes(r)),
    ensures
        parse_result(s, pos) == Ok::<(ResultModel, int), ReadError>(
            (r, pos + result_bytes(r).len()),
        ),
{
    let tag = seq![r.result_type.tag()];
    lemma_holds_at_split(s, pos, tag, string_bytes(r.result_name));
    lemma_parse_entry_type(s, pos, r.result_type);
    lemma_parse_string(s, pos + 1, r.result_name);
}

/// The bytes written for a definition define it.
#[verifier::rlimit(50)]
pub proof fn lemma_parse_rpc_body(r: RpcModel)
    requires
        r.wf(),
    ensures
        parse_rpc_body(rpc_body(r)) == Ok::<RpcModel, FrameError>(r),
{
    match r {
        RpcModel::V0 => {},
        RpcModel::V1(d) => {
            let s = rpc_body(r);
            let a0 = seq![1u8];
            let a1 = string_bytes(d.procedure_name);
            let a2 = seq![d.parameters.len() as u8];
            let a3 = items_bytes(parameter_ser(), d.parameters);
            let a4 = seq![d.results.len() as u8];
            let a5 = items_bytes(result_ser(), d.results);
            assert(s.subrange(0, s.len() as int) =~= s);
            lemma_holds_at_split(s, 0, a0 + a1 + a2 + a3 + a4, a5);
            lemma_holds_at_split(s, 0, a0 + a1 + a2 + a3, a4);
            lemma_holds_at_split(s, 0, a0 + a1 + a2, a3);
            lemma_holds_at_split(s, 0, a0 + a1, a2);
            lemma_holds_at_split(s, 0, a0, a1);
            lemma_parse_u8(s, 0, 1u8);
            lemma_parse_string(s, 1, d.procedure_name);
            let p1: int = 1 + a1.len() as int;
            lemma_parse_u8(s, p1, d.parameters.len() as u8);
            let p2: int = p1 + 1;
            assert forall|i: int, q: int|
                #![trigger d.parameters[i], parameter_parser()(s, q)]
                0 <= i < d.parameters.len() && holds_at(
                    s,
                    q,
                    parameter_ser()(d.parameters[i]),
                ) implies parameter_parser()(s, q) == Ok::<(ParameterModel, int), ReadError>(
                (d.parameters[i], q + parameter_ser()(d.parameters[i]).len()),
            ) by {
                lemma_parse_parameter(s, q, d.parameters[i]);
            }
            lemma_parse_items(
                parameter_parser(),
                parameter_ser(),
                s,
                p2,
                d.parameters,
                Seq::empty(),
            );
            assert(Seq::<ParameterModel>::empty() + d.parameters =~= d.parameters);
            let p3: int = p2 + a3.len() as int;
            lemma_parse_u8(s, p3, d.results.len() as u8);
            let p4: int = p3 + 1;
            assert forall|i: int, q: int|
                #![trigger d.results[i], result_parser()(s, q)]
                0 <= i < d.results.len() && holds_at(
                    s,
                    q,
                    result_ser()(d.results[i]),
                ) implies result_parser()(s, q) == Ok::<(ResultModel, int), ReadError>(
                (d.results[i], q + result_ser()(d.results[i]).len()),
            ) by {
                lemma_parse_result(s, q, d.results[i]);
            }
            lemma_parse_items(result_parser(), result_ser(), s, p4, d.results, Seq::empty());
            assert(Seq::<ResultModel>::empty() + d.results =~= d.results);
            assert(s[0] == 1u8);
            assert(parse_rpc_data(s, 1) == Ok::<(RpcDataModel, int), ReadError>(
                (d, s.len() as int),
            ));
        },
    }
}

/// Reading a value where its bytes stand gives the value back.
pub proof fn lemma_parse_value(s: Seq<u8>, pos: int, m: ValueModel)
    requires
        m.wf(),
        holds_at(s, pos, value_bytes(m)),
    ensures
        parse_value(m.entry_type(), s, pos) == Ok::<(ValueModel, int), ReadError>(
            (m, pos + value_bytes(m).len()),
        ),
{
    match m {
        ValueModel::RpcDefinition(r) => {
            lemma_parse_blob(s, pos, rpc_body(r));
            lemma_parse_rpc_body(r);
        },
        _ => lemma_parse_plain(s, pos, m),
    }
}

/// A plain value that was read ends inside the buffer, behind its start.
pub proof fn lemma_plain_bounds(ty: EntryType, s: Seq<u8>, pos: int)
    ensures
        parse_plain(ty, s, pos) matches Ok((v, p)) ==> 0 <= pos < p <= s.len(),
{
    lemma_element_parsers_advance(s);
    lemma_blob_bounds(s, pos);
    lemma_string_bounds(s, pos);
    lemma_array_bounds(bool_parser(), s, pos);
    lemma_array_bounds(u64_parser(), s, pos);
    lemma_array_bounds(string_parser(), s, pos);
}

/// A value that was read ends inside the buffer, behind its start.
pub proof fn lemma_value_bounds(ty: EntryType, s: Seq<u8>, pos: int)
    ensures
        parse_value(ty, s, pos) matches Ok((v, p)) ==> 0 <= pos < p <= s.len(),
{
    lemma_plain_bounds(ty, s, pos);
    lemma_blob_bounds(s, pos);
}

/// A copy of a list of strings.
pub fn copy_strings(items: &Vec<String>) -> (out: Vec<String>)
    ensures
        texts(out@) == texts(items@),
{
    let mut out: Vec<String> = Vec::new();
    let mut i: usize = 0;
    while i < items.len()
        invariant
            i <= items@.len(),
            texts(out@) == texts(items@).take(i as int),
        decreases items@.len() - i,
    {
        let ghost before = texts(out@);
        out.push(items[i].clone());
        i += 1;
        assert(texts(out@) =~= before.push(items@[i - 1]@));
        assert(texts(items@).take(i as int) =~= texts(items@).take(i - 1).push(items@[i - 1]@));
    }
    assert(texts(items@).take(i as int) =~= texts(items@));
    out
}

fn copy_parameters(items: &Vec<Parameter>) -> (out: Vec<Parameter>)
    ensures
        parameters_model(out@) == parameters_model(items@),
        out@.len() == items@.len(),
{
    let mut out: Vec<Parameter> = Vec::new();
    let mut i: usize = 0;
    while i < items.len()
        invariant
            i <= items@.len(),
            out@.len() == i,
            parameters_model(out@) == parameters_model(items@).take(i as int),
        decreases items@.len() - i,
    {
        let ghost before = parameters_model(out@);
        out.push(items[i].duplicate());
        i += 1;
        assert(parameters_model(out@) =~= before.push(items@[i - 1]@));
        assert(parameters_model(items@).take(i as int) =~= parameters_model(items@).take(
            i - 1,
        ).push(items@[i - 1]@));
    }
    assert(parameters_model(items@).take(i as int) =~= parameters_model(items@));
    out
}

fn copy_results(items: &Vec<RpcResult>) -> (out: Vec<RpcResult>)
    ensures
        results_model(out@) == results_model(items@),
        out@.len() == items@.len(),
{
    let mut out: Vec<RpcResult> = Vec::new();
    let mut i: usize = 0;
    while i < items.len()
        invariant
            i <= items@.len(),
            out@.len() == i,
            results_model(out@) == results_model(items@).take(i as int),
        decreases items@.len() - i,
    {
        let ghost before = results_model(out@);
        out.push(items[i].duplicate());
        i += 1;
        assert(results_model(out@) =~= before.push(items@[i - 1]@));
        assert(results_model(items@).take(i as int) =~= results_model(items@).take(i - 1).push(
            items@[i - 1]@,
        ));
    }
    assert(results_model(items@).take(i as int) =~= results_model(items@));
    out
}

impl PlainValue {
    /// A copy of the value.
    pub fn duplicate(&self) -> (r: PlainValue)
        ensures
            r@ == self@,
    {
        match self {
            PlainValue::Boolean(b) => PlainValue::Boolean(*b),
            PlainValue::Double(v) => PlainValue::Double(*v),
            PlainValue::String(t) => PlainValue::String(t.clone()),
            PlainValue::RawData(b) => PlainValue::RawData(slice_to_vec(b.as_slice())),
            PlainValue::BooleanArray(a) => PlainValue::BooleanArray(slice_to_vec(a.as_slice())),
            PlainValue::DoubleArray(a) => PlainValue::DoubleArray(slice_to_vec(a.as_slice())),
            PlainValue::StringArray(a) => PlainValue::StringArray(copy_strings(a)),
        }
    }
}

impl Parameter {
    /// A copy of the parameter.
    pub fn duplicate(&self) -> (r: Parameter)
        ensures
            r@ == self@,
    {
        Parameter {
            parameter_type: self.parameter_type,
            parameter_name: self.parameter_name.clone(),
            parameter_default: self.parameter_default.duplicate(),
        }
    }
}

impl RpcResult {
    /// A copy of the result.
    pub fn duplicate(&self) -> (r: RpcResult)
        ensures
            r@ == self@,
    {
        RpcResult { result_type: self.result_type, result_name: self.result_name.clone() }
    }
}

impl RpcDefinition {
    /// A copy of the definition.
    pub fn duplicate(&self) -> (r: RpcDefinition)
        ensures
            r@ == self@,
            r.encodable() == self.encodable(),
    {
        match self {
            RpcDefinition::V0 => RpcDefinition::V0,
            RpcDefinition::V1(d) => RpcDefinition::V1(
                RPCDefinitionData {
                    procedure_name: d.procedure_name.clone(),
                    parameters: copy_parameters(&d.parameters),
                    results: copy_results(&d.results),
                },
            ),
        }
    }
}

impl EntryValue {
    /// A copy of the value.
    pub fn duplicate(&self) -> (r: EntryValue)
        ensures
            r@ == self@,
            r.encodable() == self.encodable(),
    {
        match self {
            EntryValue::Boolean(b) => EntryValue::Boolean(*b),
            EntryValue::Double(v) => EntryValue::Double(*v),
            EntryValue::String(t) => EntryValue::String(t.clone()),
            EntryValue::RawData(b) => EntryValue::RawData(slice_to_vec(b.as_slice())),
            EntryValue::BooleanArray(a) => EntryValue::BooleanArray(slice_to_vec(a.as_slice())),
            EntryValue::DoubleArray(a) => EntryValue::DoubleArray(slice_to_vec(a.as_slice())),
            EntryValue::StringArray(a) => EntryValue::StringArray(copy_strings(a)),
            EntryValue::RpcDefinition(d) => EntryValue::RpcDefinition(d.duplicate()),
        }
    }
}

} // verus!
