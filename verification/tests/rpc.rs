use scematica::chain::{mainnet, testnet, EndpointKind};
use scematica::rpc::{
    after_attempt, hex_u128, hex_u64, parse_quantity, parse_quantity_u64, quantity_u128_of, quantity_u64_of, to_quantity,
    Attempt, ChainIdError, Client, NextStep, QuantityError, RpcReply,
};
use serde_json::Value;

/// A reply as the client reads it: the result's text when the JSON value is a string.
fn reply(v: Value) -> RpcReply {
    RpcReply { result: v.as_str().map(str::to_string) }
}

#[test]
fn hex_parsing_handles_real_values() {
    assert_eq!(hex_u64(&reply(Value::String("0x2a5".into()))).unwrap(), 677);
    assert_eq!(hex_u64(&reply(Value::String("0x3c8".into()))).unwrap(), 968);
    assert_eq!(hex_u64(&reply(Value::String("0x123ea5c".into()))).unwrap(), 0x123ea5c);
    assert!(hex_u64(&reply(Value::from(677))).is_err(), "a bare number is not a quantity");
}

#[test]
fn an_override_is_tried_before_the_built_ins() {
    let c = Client::new(mainnet()).with_endpoint("https://example.invalid");
    let eps = c.endpoints();
    assert_eq!(eps[0].url, "https://example.invalid");
    assert_eq!(eps[0].kind, EndpointKind::Node);
    assert!(eps.len() > mainnet().endpoints.len());
    assert_eq!(c.network().chain_id, 677);
}

#[test]
fn only_a_transport_failure_moves_on() {
    assert_eq!(after_attempt(0, 2, Attempt::Answered), NextStep::Done);
    assert_eq!(after_attempt(0, 2, Attempt::Rejected), NextStep::Refused);
    assert_eq!(after_attempt(0, 2, Attempt::Unreachable), NextStep::Try(1));
    assert_eq!(after_attempt(1, 2, Attempt::Unreachable), NextStep::Exhausted);
}

#[test]
fn quantities_read_as_from_str_radix_does() {
    assert_eq!(parse_quantity("0x"), None);
    assert_eq!(parse_quantity("ff"), Some(255));
    assert_eq!(parse_quantity("0x0xFF"), Some(255), "every leading 0x is dropped");
    assert_eq!(parse_quantity("0x+10"), Some(16));
    assert_eq!(parse_quantity("0x-1"), None);
    assert_eq!(parse_quantity("0xg"), None);
    assert_eq!(hex_u64(&reply(Value::String("0x10000000000000000".into()))), Err(QuantityError::BadHex));
    assert_eq!(hex_u128(&reply(Value::String("0x10000000000000000".into()))), Ok(1u128 << 64));
    assert_eq!(Client::new(testnet()).endpoints().len(), 1);
}

#[test]
fn reply_text_reads_as_a_quantity() {
    assert_eq!(quantity_u64_of(Some("0x2a5")), Ok(677));
    assert_eq!(quantity_u64_of(None), Err(QuantityError::NotAString));
    assert_eq!(quantity_u64_of(Some("0xzz")), Err(QuantityError::BadHex));
    assert_eq!(quantity_u64_of(Some("0x10000000000000000")), Err(QuantityError::BadHex));
    assert_eq!(quantity_u128_of(Some("0x10000000000000000")), Ok(1u128 << 64));
}

#[test]
fn block_numbers_are_written_as_lowercase_hex() {
    assert_eq!(to_quantity(0), "0x0");
    assert_eq!(to_quantity(677), "0x2a5");
    assert_eq!(to_quantity(0x123ea5c), "0x123ea5c");
    assert_eq!(to_quantity(u64::MAX), "0xffffffffffffffff");
}

#[test]
fn a_written_quantity_reads_back() {
    for n in [0u64, 1, 15, 16, 255, 968, 0x123ea5c, u64::MAX] {
        assert_eq!(parse_quantity_u64(&to_quantity(n)), Some(n));
    }
}

#[test]
fn only_the_pinned_chain_id_is_accepted() {
    let c = Client::new(testnet());
    assert_eq!(c.chain_id_verdict(Some("0x3c8")), Ok(968));
    assert_eq!(c.chain_id_verdict(Some("0x1")), Err(ChainIdError::WrongChain { got: 1, expected: 968 }));
    assert_eq!(c.chain_id_verdict(None), Err(ChainIdError::Unreadable(QuantityError::NotAString)));
    assert_eq!(c.check_chain_id(&reply(Value::String("0x3c8".into()))), Ok(968));
    assert!(c.check_chain_id(&reply(Value::from(968))).is_err());
}
