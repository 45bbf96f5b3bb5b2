//! The bodies of calls and of their responses.
//!
//! For a procedure of version 0 a body is bytes that only caller and handler understand. For
//! a procedure of version 1 the body of a call is the values of the parameters, one behind
//! the other in the order of the definition, and the body of a response is the values of the
//! results; each value has the layout of its type, without a tag.

use crate::error::{Error, ReadError};
use crate::types::{
    lemma_parse_plain, parse_plain, plain_bytes, EntryType, ParameterModel, PlainValue,
    ResultModel, RpcDefinition, RpcModel, ValueModel,
};
use crate::wire::{holds_at, items_bytes, lemma_holds_at_split, lemma_items_bytes_first, lemma_items_bytes_push};
use vstd::prelude::*;
use vstd::slice::slice_to_vec;

verus! {

/// The body of a call of a procedure of version 0.
#[derive(Clone, Debug, PartialEq, Eq)]
pub struct RPCV0ExecuteBody {
    pub bytes: Vec<u8>,
}

/// The body of a call of a procedure of version 1: the values of the parameters.
#[derive(Clone, Debug, PartialEq, Eq)]
pub struct RPCV1ExecuteBody {
    pub parameters: Vec<PlainValue>,
}

/// The body of a call.
#[derive(Clone, Debug, PartialEq, Eq)]
pub enum RPCExecutionBody {
    V1(RPCV1ExecuteBody),
    V0(RPCV0ExecuteBody),
}

/// The body of a response of a procedure of version 0.
#[derive(Clone, Debug, PartialEq, Eq)]
pub struct RPCV0ResponseBody {
    pub bytes: Vec<u8>,
}

/// The body of a response of a procedure of version 1: the values of the results.
#[derive(Clone, Debug, PartialEq, Eq)]
pub struct RPCV1ResponseBody {
    pub values: Vec<PlainValue>,
}

/// The body of a response.
#[derive(Clone, Debug, PartialEq, Eq)]
pub enum RPCResponseBody {
    V1(RPCV1ResponseBody),
    V0(RPCV0ResponseBody),
}

/// What a body is, as mathematics.
pub enum BodyModel {
    V1(Seq<ValueModel>),
    V0(Seq<u8>),
}

/// The models of a list of values.
pub open spec fn values_model(values: Seq<PlainValue>) -> Seq<ValueModel> {
    values.map_values(|v: PlainValue| v@)
}

impl View for RPCExecutionBody {
    type V = BodyModel;

    open spec fn view(&self) -> BodyModel {
        match self {
            RPCExecutionBody::V1(b) => BodyModel::V1(values_model(b.parameters@)),
            RPCExecutionBody::V0(b) => BodyModel::V0(b.bytes@),
        }
    }
}

impl View for RPCResponseBody {
    type V = BodyModel;

    open spec fn view(&self) -> BodyModel {
        match self {
            RPCResponseBody::V1(b) => BodyModel::V1(values_model(b.values@)),
            RPCResponseBody::V0(b) => BodyModel::V0(b.bytes@),
        }
    }
}

pub open spec fn plain_ser() -> spec_fn(ValueModel) -> Seq<u8> {
    |m: ValueModel| plain_bytes(m)
}

/// A body as the bytes that a call or a response carries.
pub open spec fn body_bytes(b: BodyModel) -> Seq<u8> {
    match b {
        BodyModel::V1(values) => items_bytes(plain_ser(), values),
        BodyModel::V0(bytes) => bytes,
    }
}

/// The types of a list of values.
pub open spec fn types_of(values: Seq<ValueModel>) -> Seq<EntryType> {
    values.map_values(|m: ValueModel| m.entry_type())
}

/// The types of the parameters of a definition.
pub open spec fn parameter_types(parameters: Seq<ParameterModel>) -> Seq<EntryType> {
    parameters.map_values(|p: ParameterModel| p.parameter_type)
}

/// The types of the results of a definition.
pub open spec fn result_types(results: Seq<ResultModel>) -> Seq<EntryType> {
    results.map_values(|r: ResultModel| r.result_type)
}

/// What reading one value of each of `types` finds at `pos`, after the values `acc`.
pub open spec fn parse_typed(types: Seq<EntryType>, s: Seq<u8>, pos: int, acc: Seq<ValueModel>) -> Result<
    (Seq<ValueModel>, int),
    ReadError,
>
    decreases types.len(),
{
    if types.len() == 0 {
        Ok((acc, pos))
    } else {
        match parse_plain(types[0], s, pos) {
            Ok((v, p)) => parse_typed(types.drop_first(), s, p, acc.push(v)),
            Err(e) => Err(e),
        }
    }
}

/// The body that `bytes` are for values of `types`: the bytes must be those values and
/// nothing more.
pub open spec fn typed_body(types: Seq<EntryType>, bytes: Seq<u8>) -> Result<BodyModel, Error> {
    match parse_typed(types, bytes, 0, Seq::empty()) {
        Ok((values, end)) => if end == bytes.len() {
            Ok(BodyModel::V1(values))
        } else {
            Err(Error::MalformedRpc)
        },
        Err(_) => Err(Error::MalformedRpc),
    }
}

/// The body of a response to a call of the procedure `rpc`.
pub open spec fn response_body(rpc: RpcModel, bytes: Seq<u8>) -> Result<BodyModel, Error> {
    match rpc {
        RpcModel::V0 => Ok(BodyModel::V0(bytes)),
        RpcModel::V1(d) => typed_body(result_types(d.results), bytes),
    }
}

/// The body of a call of the procedure `rpc`.
pub open spec fn execution_body(rpc: RpcModel, bytes: Seq<u8>) -> Result<BodyModel, Error> {
    match rpc {
        RpcModel::V0 => Ok(BodyModel::V0(bytes)),
        RpcModel::V1(d) => typed_body(parameter_types(d.parameters), bytes),
    }
}

fn encode_values(values: &Vec<PlainValue>) -> (out: Vec<u8>)
    ensures
        out@ == items_bytes(plain_ser(), values_model(values@)),
{
    let ghost all = values_model(values@);
    let mut out: Vec<u8> = Vec::new();
    let mut i: usize = 0;
    assert(items_bytes(plain_ser(), all.take(0)) =~= Seq::<u8>::empty());
    while i < values.len()
        invariant
            i <= values@.len(),
            all == values_model(values@),
            out@ == items_bytes(plain_ser(), all.take(i as int)),
        decreases values@.len() - i,
    {
        proof {
            lemma_items_bytes_push(plain_ser(), all.take(i as int), all[i as int]);
            assert(all.take(i as int).push(all[i as int]) =~= all.take(i + 1));
        }
        values[i].serialize(&mut out);
        i += 1;
    }
    assert(all.take(i as int) =~= all);
    out
}

fn decode_values(types: &Vec<EntryType>, bytes: &[u8]) -> (r: Result<Vec<PlainValue>, Error>)
    ensures
        match (r, typed_body(types@, bytes@)) {
            (Ok(values), Ok(b)) => b == BodyModel::V1(values_model(values@)),
            (Err(e), Err(f)) => e == f,
            _ => false,
        },
{
    let mut values: Vec<PlainValue> = Vec::new();
    let mut pos: usize = 0;
    let mut i: usize = 0;
    assert(values_model(values@) =~= Seq::<ValueModel>::empty());
    assert(types@.skip(0) =~= types@);
    while i < types.len()
        invariant
            i <= types@.len(),
            parse_typed(types@, bytes@, 0, Seq::empty()) == parse_typed(
                types@.skip(i as int),
                bytes@,
                pos as int,
                values_model(values@),
            ),
        decreases types@.len() - i,
    {
        assert(types@.skip(i as int).drop_first() =~= types@.skip(i + 1));
        match PlainValue::deserialize(types[i], bytes, pos) {
            Ok((value, next)) => {
                let ghost before = values_model(values@);
                let ghost added = value@;
                values.push(value);
                assert(values_model(values@) =~= before.push(added));
                pos = next;
            },
            Err(_) => {
                return Err(Error::MalformedRpc);
            },
        }
        i += 1;
    }
    if pos == bytes.len() {
        Ok(values)
    } else {
        Err(Error::MalformedRpc)
    }
}

impl RpcDefinition {
    /// The types of the parameters, in order; none for version 0.
    pub fn parameter_types(&self) -> (r: Option<Vec<EntryType>>)
        ensures
            match (r, self@) {
                (Some(types), RpcModel::V1(d)) => types@ == parameter_types(d.parameters),
                (None, RpcModel::V0) => true,
                _ => false,
            },
    {
        match self {
            RpcDefinition::V0 => None,
            RpcDefinition::V1(d) => {
                let ghost all = parameter_types(self@->V1_0.parameters);
                let mut types: Vec<EntryType> = Vec::new();
                let mut i: usize = 0;
                while i < d.parameters.len()
                    invariant
                        i <= d.parameters@.len(),
                        all == parameter_types(crate::types::parameters_model(d.parameters@)),
                        types@ == all.take(i as int),
                    decreases d.parameters@.len() - i,
                {
                    types.push(d.parameters[i].parameter_type);
                    i += 1;
                    assert(types@ =~= all.take(i as int));
                }
                assert(all.take(i as int) =~= all);
                Some(types)
            },
        }
    }

    /// The types of the results, in order; none for version 0.
    pub fn result_types(&self) -> (r: Option<Vec<EntryType>>)
        ensures
            match (r, self@) {
                (Some(types), RpcModel::V1(d)) => types@ == result_types(d.results),
                (None, RpcModel::V0) => true,
                _ => false,
            },
    {
        match self {
            RpcDefinition::V0 => None,
            RpcDefinition::V1(d) => {
                let ghost all = result_types(self@->V1_0.results);
                let mut types: Vec<EntryType> = Vec::new();
                let mut i: usize = 0;
                while i < d.results.len()
                    invariant
                        i <= d.results@.len(),
                        all == result_types(crate::types::results_model(d.results@)),
                        types@ == all.take(i as int),
                    decreases d.results@.len() - i,
                {
                    types.push(d.results[i].result_type);
                    i += 1;
                    assert(types@ =~= all.take(i as int));
                }
                assert(all.take(i as int) =~= all);
                Some(types)
            },
        }
    }
}

impl RPCExecutionBody {
    /// The bytes that the call carries.
    pub fn encode(&self) -> (out: Vec<u8>)
        ensures
            out@ == body_bytes(self@),
    {
        match self {
            RPCExecutionBody::V0(b) => slice_to_vec(b.bytes.as_slice()),
            RPCExecutionBody::V1(b) => encode_values(&b.parameters),
        }
    }

    /// Reads the body of a call of the procedure `rpc`. For version 1 the bytes must be one
    /// value for each parameter, of the parameter's type, and nothing more; else the result
    /// is `MalformedRpc`.
    pub fn decode(bytes: &[u8], rpc: &RpcDefinition) -> (r: Result<RPCExecutionBody, Error>)
        ensures
            match (r, execution_body(rpc@, bytes@)) {
                (Ok(b), Ok(m)) => b@ == m,
                (Err(e), Err(f)) => e == f,
                _ => false,
            },
    {
        match rpc.parameter_types() {
            None => Ok(RPCExecutionBody::V0(RPCV0ExecuteBody { bytes: slice_to_vec(bytes) })),
            Some(types) => match decode_values(&types, bytes) {
                Ok(parameters) => Ok(RPCExecutionBody::V1(RPCV1ExecuteBody { parameters })),
                Err(e) => Err(e),
            },
        }
    }
}

impl RPCResponseBody {
    /// The bytes that the response carries.
    pub fn encode(&self) -> (out: Vec<u8>)
        ensures
            out@ == body_bytes(self@),
    {
        match self {
            RPCResponseBody::V0(b) => slice_to_vec(b.bytes.as_slice()),
            RPCResponseBody::V1(b) => encode_values(&b.values),
        }
    }

    /// Reads the body of a response to a call of the procedure `rpc`. For version 1 the
    /// bytes must be one value for each result, of the result's type, and nothing more; else
    /// the result is `MalformedRpc`.
    pub fn decode(bytes: &[u8], rpc: &RpcDefinition) -> (r: Result<RPCResponseBody, Error>)
        ensures
            match (r, response_body(rpc@, bytes@)) {
                (Ok(b), Ok(m)) => b@ == m,
                (Err(e), Err(f)) => e == f,
                _ => false,
            },
    {
        match rpc.result_types() {
            None => Ok(RPCResponseBody::V0(RPCV0ResponseBody { bytes: slice_to_vec(bytes) })),
            Some(types) => match decode_values(&types, bytes) {
                Ok(values) => Ok(RPCResponseBody::V1(RPCV1ResponseBody { values })),
                Err(e) => Err(e),
            },
        }
    }
}

/// Reading values where their bytes stand gives the values back.
pub proof fn lemma_parse_typed(values: Seq<ValueModel>, s: Seq<u8>, pos: int, acc: Seq<ValueModel>)
    requires
        forall|i: int|
            0 <= i < values.len() ==> (#[trigger] values[i]).is_plain() && values[i].plain_wf(),
        holds_at(s, pos, items_bytes(plain_ser(), values)),
    ensures
        parse_typed(types_of(values), s, pos, acc) == Ok::<(Seq<ValueModel>, int), ReadError>(
            (acc + values, pos + items_bytes(plain_ser(), values).len()),
        ),
    decreases values.len(),
{
    if values.len() == 0 {
        assert(acc + values =~= acc);
        assert(items_bytes(plain_ser(), values) =~= Seq::<u8>::empty());
    } else {
        let rest = values.drop_first();
        lemma_items_bytes_first(plain_ser(), values);
        lemma_holds_at_split(s, pos, plain_bytes(values[0]), items_bytes(plain_ser(), rest));
        lemma_parse_plain(s, pos, values[0]);
        assert(types_of(values).drop_first() =~= types_of(rest));
        assert forall|i: int| 0 <= i < rest.len() implies (#[trigger] rest[i]).is_plain()
            && rest[i].plain_wf() by {
            assert(rest[i] == values[i + 1]);
        }
        lemma_parse_typed(rest, s, pos + plain_bytes(values[0]).len(), acc.push(values[0]));
        assert(acc.push(values[0]) + rest =~= acc + values);
    }
}

/// The bytes of a body of values are read back as that body, by whoever knows the types.
pub proof fn lemma_typed_body_of_bytes(values: Seq<ValueModel>)
    requires
        forall|i: int|
            0 <= i < values.len() ==> (#[trigger] values[i]).is_plain() && values[i].plain_wf(),
    ensures
        typed_body(types_of(values), body_bytes(BodyModel::V1(values))) == Ok::<BodyModel, Error>(
            BodyModel::V1(values),
        ),
{
    let s = body_bytes(BodyModel::V1(values));
    assert(s.subrange(0, s.len() as int) =~= s);
    lemma_parse_typed(values, s, 0, Seq::empty());
    assert(Seq::<ValueModel>::empty() + values =~= values);
}

} // verus!
