use nt::error::Error;
use nt::rpc::{
    RPCExecutionBody, RPCResponseBody, RPCV0ExecuteBody, RPCV0ResponseBody, RPCV1ExecuteBody,
    RPCV1ResponseBody,
};
use nt::types::{EntryType, Parameter, PlainValue, RPCDefinitionData, RpcDefinition, RpcResult};

fn definition() -> RpcDefinition {
    RpcDefinition::V1(RPCDefinitionData {
        procedure_name: "scale".to_string(),
        parameters: vec![
            Parameter {
                parameter_type: EntryType::Double,
                parameter_name: "x".to_string(),
                parameter_default: PlainValue::Double(0),
            },
            Parameter {
                parameter_type: EntryType::String,
                parameter_name: "unit".to_string(),
                parameter_default: PlainValue::String(String::new()),
            },
        ],
        results: vec![
            RpcResult {
                result_type: EntryType::Boolean,
                result_name: "ok".to_string(),
            },
            RpcResult {
                result_type: EntryType::BooleanArray,
                result_name: "bits".to_string(),
            },
        ],
    })
}

#[test]
fn bodies_of_version_zero_are_bytes() {
    let body = RPCExecutionBody::V0(RPCV0ExecuteBody {
        bytes: vec![1, 2, 3],
    });
    assert_eq!(body.encode(), vec![1, 2, 3]);
    assert_eq!(
        RPCExecutionBody::decode(&[1, 2, 3], &RpcDefinition::V0),
        Ok(body)
    );
    let body = RPCResponseBody::V0(RPCV0ResponseBody { bytes: vec![] });
    assert_eq!(body.encode(), Vec::<u8>::new());
    assert_eq!(RPCResponseBody::decode(&[], &RpcDefinition::V0), Ok(body));
}

#[test]
fn bodies_of_version_one_are_the_values_in_order() {
    let call = RPCExecutionBody::V1(RPCV1ExecuteBody {
        parameters: vec![
            PlainValue::Double(2.0f64.to_bits()),
            PlainValue::String("m".to_string()),
        ],
    });
    let bytes = call.encode();
    assert_eq!(bytes, vec![0x40, 0, 0, 0, 0, 0, 0, 0, 1, b'm']);
    assert_eq!(RPCExecutionBody::decode(&bytes, &definition()), Ok(call));
    let response = RPCResponseBody::V1(RPCV1ResponseBody {
        values: vec![
            PlainValue::Boolean(true),
            PlainValue::BooleanArray(vec![false, true]),
        ],
    });
    let bytes = response.encode();
    assert_eq!(bytes, vec![1, 2, 0, 1]);
    assert_eq!(RPCResponseBody::decode(&bytes, &definition()), Ok(response));
}

#[test]
fn bodies_that_do_not_fit_the_definition_are_malformed() {
    let definition = definition();
    assert_eq!(
        RPCResponseBody::decode(&[1, 2, 0], &definition),
        Err(Error::MalformedRpc)
    );
    assert_eq!(
        RPCResponseBody::decode(&[1, 2, 0, 1, 9], &definition),
        Err(Error::MalformedRpc)
    );
    assert_eq!(
        RPCResponseBody::decode(&[], &definition),
        Err(Error::MalformedRpc)
    );
    assert_eq!(
        RPCExecutionBody::decode(&[0x40, 0, 0, 0, 0, 0, 0, 0, 1, 0xff], &definition),
        Err(Error::MalformedRpc)
    );
    assert_eq!(
        RPCExecutionBody::decode(&[0x40, 0, 0], &definition),
        Err(Error::MalformedRpc)
    );
}

#[test]
fn definitions_know_their_types() {
    assert_eq!(
        definition().parameter_types(),
        Some(vec![EntryType::Double, EntryType::String])
    );
    assert_eq!(
        definition().result_types(),
        Some(vec![EntryType::Boolean, EntryType::BooleanArray])
    );
    assert_eq!(RpcDefinition::V0.parameter_types(), None);
    assert_eq!(RpcDefinition::V0.result_types(), None);
    assert_eq!(definition().duplicate(), definition());
}
