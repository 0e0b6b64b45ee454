use std::collections::BTreeMap;

use serde_cbor::Value;

use tron_codec::CodecError;
use tron_codec::boundary::Reply;
use tron_codec::boundary::tron_sign_request_construct;
use tron_codec::boundary::tron_sign_request_get_derivation_path;
use tron_codec::boundary::tron_sign_request_get_request_id;
use tron_codec::boundary::tron_sign_request_get_sign_data;
use tron_codec::boundary::tron_sign_request_new;
use tron_codec::boundary::tron_signature_get_request_id;
use tron_codec::boundary::tron_signature_get_signature;
use tron_codec::path::parse_derivation_path;
use tron_codec::path::print_path;
use tron_codec::sign_request::DataType;
use tron_codec::sign_request::TronSignRequest;
use tron_codec::signature::TronSignature;

fn sample_request() -> TronSignRequest {
    TronSignRequest::new(
        Some(vec![0x9b, 0x1d, 0xeb, 0x4d]),
        vec![0x01, 0x02, 0x03, 0x04],
        1,
        "m/44'/195'/0'/0/0".to_string(),
        Some(0x1212_1212),
        Some("TKrx3q9Qr3cwZQPDsMYx18Vkv6917QGw97".to_string()),
        Some("tron wallet".to_string()),
    )
}

#[test]
fn round_trip_reproduces_fields() {
    let req = sample_request();
    let bytes = req.to_bytes().unwrap();
    let back = TronSignRequest::try_from(bytes).unwrap();
    assert_eq!(back.get_sign_data(), &vec![0x01, 0x02, 0x03, 0x04]);
    assert_eq!(back.get_data_type(), 1);
    assert_eq!(back.get_derivation_path(), "m/44'/195'/0'/0/0");
    assert_eq!(back.get_request_id(), Some(&vec![0x9b, 0x1d, 0xeb, 0x4d]));
    assert_eq!(back.get_address().map(|s| s.as_str()), Some("TKrx3q9Qr3cwZQPDsMYx18Vkv6917QGw97"));
    assert_eq!(back.get_origin().map(|s| s.as_str()), Some("tron wallet"));
}

#[test]
fn encoding_matches_reference_cbor() {
    let req = sample_request();
    let bytes = req.to_bytes().unwrap();

    let mut path_map: BTreeMap<Value, Value> = BTreeMap::new();
    let comps: Vec<Value> = vec![
        Value::Array(vec![Value::Integer(44), Value::Bool(true)]),
        Value::Array(vec![Value::Integer(195), Value::Bool(true)]),
        Value::Array(vec![Value::Integer(0), Value::Bool(true)]),
        Value::Array(vec![Value::Integer(0), Value::Bool(false)]),
        Value::Array(vec![Value::Integer(0), Value::Bool(false)]),
    ];
    path_map.insert(Value::Integer(1), Value::Array(comps));
    path_map.insert(Value::Integer(2), Value::Integer(0x1212_1212));

    let mut map: BTreeMap<Value, Value> = BTreeMap::new();
    map.insert(Value::Integer(1), Value::Bytes(vec![0x9b, 0x1d, 0xeb, 0x4d]));
    map.insert(Value::Integer(2), Value::Bytes(vec![0x01, 0x02, 0x03, 0x04]));
    map.insert(Value::Integer(3), Value::Integer(1));
    map.insert(Value::Integer(4), Value::Map(path_map));
    map.insert(
        Value::Integer(5),
        Value::Text("TKrx3q9Qr3cwZQPDsMYx18Vkv6917QGw97".to_string()),
    );
    map.insert(Value::Integer(6), Value::Text("tron wallet".to_string()));
    let reference = serde_cbor::to_vec(&Value::Map(map)).unwrap();

    assert_eq!(bytes, reference);
}

#[test]
fn decode_reference_cbor_payload() {
    let mut path_map: BTreeMap<Value, Value> = BTreeMap::new();
    path_map.insert(
        Value::Integer(1),
        Value::Array(vec![
            Value::Array(vec![Value::Integer(44), Value::Bool(true)]),
            Value::Array(vec![Value::Integer(7), Value::Bool(false)]),
        ]),
    );
    let mut map: BTreeMap<Value, Value> = BTreeMap::new();
    map.insert(Value::Integer(2), Value::Bytes(vec![0xaa, 0xbb]));
    map.insert(Value::Integer(3), Value::Integer(2));
    map.insert(Value::Integer(4), Value::Map(path_map));
    let bytes = serde_cbor::to_vec(&Value::Map(map)).unwrap();

    let req = TronSignRequest::try_from(bytes).unwrap();
    assert_eq!(req.get_sign_data(), &vec![0xaa, 0xbb]);
    assert_eq!(req.get_data_type(), 2);
    assert_eq!(req.get_derivation_path(), "m/44'/7");
}

#[test]
fn decode_missing_data_type_defaults_to_transaction() {
    let mut map: BTreeMap<Value, Value> = BTreeMap::new();
    map.insert(Value::Integer(2), Value::Bytes(vec![0x01]));
    let bytes = serde_cbor::to_vec(&Value::Map(map)).unwrap();
    let req = TronSignRequest::try_from(bytes).unwrap();
    assert_eq!(req.get_data_type(), 1);
}

#[test]
fn decode_missing_path_defaults_to_standard_path() {
    let mut map: BTreeMap<Value, Value> = BTreeMap::new();
    map.insert(Value::Integer(2), Value::Bytes(vec![0x01]));
    map.insert(Value::Integer(3), Value::Integer(3));
    let bytes = serde_cbor::to_vec(&Value::Map(map)).unwrap();
    let req = TronSignRequest::try_from(bytes).unwrap();
    assert_eq!(req.get_derivation_path(), "m/44'/195'/0'/0/0");
    assert_eq!(req.get_data_type(), 3);
}

#[test]
fn decode_missing_sign_data_fails() {
    let mut map: BTreeMap<Value, Value> = BTreeMap::new();
    map.insert(Value::Integer(3), Value::Integer(1));
    let bytes = serde_cbor::to_vec(&Value::Map(map)).unwrap();
    let err = TronSignRequest::try_from(bytes).unwrap_err();
    assert_eq!(err, CodecError::MissingSignData);
}

#[test]
fn decode_non_map_payload_fails() {
    let bytes = serde_cbor::to_vec(&Value::Integer(5)).unwrap();
    let err = TronSignRequest::try_from(bytes).unwrap_err();
    assert_eq!(err, CodecError::NotAMap);
}

#[test]
fn decode_garbage_fails() {
    let err = TronSignRequest::try_from(vec![0xff, 0x00, 0x13]).unwrap_err();
    assert_eq!(err, CodecError::InvalidCbor);
}

#[test]
fn decode_unknown_data_type_tag_fails() {
    let mut map: BTreeMap<Value, Value> = BTreeMap::new();
    map.insert(Value::Integer(2), Value::Bytes(vec![0x01]));
    map.insert(Value::Integer(3), Value::Integer(9));
    let bytes = serde_cbor::to_vec(&Value::Map(map)).unwrap();
    let err = TronSignRequest::try_from(bytes).unwrap_err();
    assert_eq!(err, CodecError::InvalidDataType(9));
}

#[test]
fn decode_discards_wire_fingerprint() {
    let req = sample_request();
    let bytes = req.to_bytes().unwrap();
    let back = TronSignRequest::try_from(bytes).unwrap();
    // re-encoding the decoded record writes a path map without the
    // fingerprint key, so the two encodings differ exactly there
    let again = back.to_bytes().unwrap();
    let value: Value = serde_cbor::from_slice(&again).unwrap();
    match value {
        Value::Map(m) => match m.get(&Value::Integer(4)).unwrap() {
            Value::Map(pm) => {
                assert!(pm.get(&Value::Integer(1)).is_some());
                assert!(pm.get(&Value::Integer(2)).is_none());
            },
            _ => panic!("path is not a map"),
        },
        _ => panic!("payload is not a map"),
    }
}

#[test]
fn path_encode_then_decode_yields_components() {
    let comps = parse_derivation_path("m/44'/195'/0'/0/0").unwrap();
    assert_eq!(comps, vec![(44, true), (195, true), (0, true), (0, false), (0, false)]);
    let text = print_path(&comps);
    assert_eq!(text, "m/44'/195'/0'/0/0");
    let again = parse_derivation_path(&text).unwrap();
    assert_eq!(again, comps);
}

#[test]
fn path_component_5x_fails_by_name() {
    let req = TronSignRequest::new(
        None,
        vec![0x01],
        1,
        "m/44'/195'/0'/0/5x".to_string(),
        None,
        None,
        None,
    );
    match req.to_bytes().unwrap_err() {
        CodecError::PathSyntax(c) => assert_eq!(c, "5x"),
        other => panic!("unexpected error: {:?}", other),
    }
}

#[test]
fn construct_with_empty_address_yields_absent_address() {
    let req = tron_sign_request_construct(
        "9b1deb4d",
        "0102aabb",
        "m/44'/195'/0'/0/0",
        0x1212_1212,
        "",
        "",
        1,
    )
    .unwrap();
    assert!(req.get_address().is_none());
    assert!(req.get_origin().is_none());
    assert_eq!(req.get_sign_data(), &vec![0x01, 0x02, 0xaa, 0xbb]);
    assert_eq!(req.get_request_id(), Some(&vec![0x9b, 0x1d, 0xeb, 0x4d]));
}

#[test]
fn construct_with_bad_hex_fails() {
    let err = tron_sign_request_construct("zz", "0102", "m/0", 0, "", "", 1).unwrap_err();
    assert_eq!(err, CodecError::InvalidHex);
}

#[test]
fn request_accessors_report_hex_and_null() {
    let req = sample_request();
    match tron_sign_request_get_request_id(&req) {
        Reply::Success(s) => assert_eq!(s, "9b1deb4d"),
        _ => panic!("expected a textual id"),
    }
    match tron_sign_request_get_sign_data(&req) {
        Reply::Success(s) => assert_eq!(s, "01020304"),
        _ => panic!("expected textual payload"),
    }
    match tron_sign_request_get_derivation_path(&req) {
        Reply::Success(s) => assert_eq!(s, "m/44'/195'/0'/0/0"),
        _ => panic!("expected the path text"),
    }
    let blank = tron_sign_request_new();
    match tron_sign_request_get_request_id(&blank) {
        Reply::SuccessNull => {},
        _ => panic!("a fresh record has no id"),
    }
}

#[test]
fn signature_round_trip() {
    let sig = TronSignature::new(Some(vec![0x11, 0x22]), vec![0xde, 0xad, 0xbe, 0xef]);
    let bytes = sig.to_bytes().unwrap();

    let mut map: BTreeMap<Value, Value> = BTreeMap::new();
    map.insert(Value::Integer(1), Value::Bytes(vec![0x11, 0x22]));
    map.insert(Value::Integer(2), Value::Bytes(vec![0xde, 0xad, 0xbe, 0xef]));
    let reference = serde_cbor::to_vec(&Value::Map(map)).unwrap();
    assert_eq!(bytes, reference);

    let back = TronSignature::try_from(bytes).unwrap();
    assert_eq!(back.get_request_id(), Some(&vec![0x11, 0x22]));
    assert_eq!(back.get_signature(), &vec![0xde, 0xad, 0xbe, 0xef]);
}

#[test]
fn signature_decode_without_request_id() {
    let mut map: BTreeMap<Value, Value> = BTreeMap::new();
    map.insert(Value::Integer(2), Value::Bytes(vec![0x5a, 0x5b]));
    let bytes = serde_cbor::to_vec(&Value::Map(map)).unwrap();
    let sig = TronSignature::try_from(bytes).unwrap();
    assert!(sig.get_request_id().is_none());
    assert_eq!(sig.get_signature(), &vec![0x5a, 0x5b]);
    match tron_signature_get_request_id(&sig) {
        Reply::Failure(m) => assert_eq!(m, "No request id supplied"),
        Reply::Success(s) => panic!("expected an absence error, got {:?}", s),
        Reply::SuccessNull => panic!("expected an absence error, got null"),
    }
    match tron_signature_get_signature(&sig) {
        Reply::Success(s) => assert_eq!(s, "5a5b"),
        _ => panic!("expected textual signature"),
    }
}

#[test]
fn signature_decode_missing_signature_fails() {
    let mut map: BTreeMap<Value, Value> = BTreeMap::new();
    map.insert(Value::Integer(1), Value::Bytes(vec![0x11]));
    let bytes = serde_cbor::to_vec(&Value::Map(map)).unwrap();
    let err = TronSignature::try_from(bytes).unwrap_err();
    assert_eq!(err, CodecError::MissingSignature);
}

#[test]
fn resolve_dispatches_to_each_decoder() {
    let mut map: BTreeMap<Value, Value> = BTreeMap::new();
    map.insert(Value::Integer(2), Value::Bytes(vec![0x77]));
    let bytes = serde_cbor::to_vec(&Value::Map(map)).unwrap();
    let req = tron_codec::sign_request::resolve(bytes.clone()).unwrap();
    assert_eq!(req.get_sign_data(), &vec![0x77]);
    let sig = tron_codec::signature::resolve(bytes).unwrap();
    assert_eq!(sig.get_signature(), &vec![0x77]);
}

#[test]
fn data_type_tags() {
    assert_eq!(DataType::from_u32(1).unwrap().to_u32(), 1);
    assert_eq!(DataType::from_u32(2).unwrap().to_u32(), 2);
    assert_eq!(DataType::from_u32(3).unwrap().to_u32(), 3);
    assert_eq!(DataType::from_u32(4).unwrap_err(), CodecError::InvalidDataType(4));
    assert_eq!(DataType::from_u32(0).unwrap_err(), CodecError::InvalidDataType(0));
}

#[test]
fn decode_ignores_unknown_keys() {
    let mut map: BTreeMap<Value, Value> = BTreeMap::new();
    map.insert(Value::Integer(2), Value::Bytes(vec![0x42]));
    map.insert(Value::Integer(9), Value::Text("elsewhere".to_string()));
    map.insert(
        Value::Integer(10),
        Value::Array(vec![Value::Integer(1), Value::Bool(true)]),
    );
    let bytes = serde_cbor::to_vec(&Value::Map(map.clone())).unwrap();
    let req = TronSignRequest::try_from(bytes).unwrap();
    assert_eq!(req.get_sign_data(), &vec![0x42]);

    let sig_bytes = serde_cbor::to_vec(&Value::Map(map)).unwrap();
    let sig = TronSignature::try_from(sig_bytes).unwrap();
    assert_eq!(sig.get_signature(), &vec![0x42]);
}

#[test]
fn decode_treats_wrong_typed_fields_as_absent() {
    // sign_data present but not bytes: the field counts as absent, so the
    // missing-field error is reported
    let mut map: BTreeMap<Value, Value> = BTreeMap::new();
    map.insert(Value::Integer(2), Value::Integer(5));
    let bytes = serde_cbor::to_vec(&Value::Map(map)).unwrap();
    let err = TronSignRequest::try_from(bytes).unwrap_err();
    assert_eq!(err, CodecError::MissingSignData);

    // a wrong-typed optional id decodes to absence, not an error
    let mut map2: BTreeMap<Value, Value> = BTreeMap::new();
    map2.insert(Value::Integer(1), Value::Integer(5));
    map2.insert(Value::Integer(2), Value::Bytes(vec![0x42]));
    let bytes2 = serde_cbor::to_vec(&Value::Map(map2.clone())).unwrap();
    let req = TronSignRequest::try_from(bytes2).unwrap();
    assert!(req.get_request_id().is_none());
    assert_eq!(req.get_sign_data(), &vec![0x42]);

    let sig = TronSignature::try_from(serde_cbor::to_vec(&Value::Map(map2)).unwrap()).unwrap();
    assert!(sig.get_request_id().is_none());
    assert_eq!(sig.get_signature(), &vec![0x42]);

    // a wrong-typed kind tag and address default like missing ones
    let mut map3: BTreeMap<Value, Value> = BTreeMap::new();
    map3.insert(Value::Integer(2), Value::Bytes(vec![0x42]));
    map3.insert(Value::Integer(3), Value::Bytes(vec![0x02]));
    map3.insert(Value::Integer(5), Value::Integer(9));
    let bytes3 = serde_cbor::to_vec(&Value::Map(map3)).unwrap();
    let req3 = TronSignRequest::try_from(bytes3).unwrap();
    assert_eq!(req3.get_data_type(), 1);
    assert!(req3.get_address().is_none());
}

#[test]
fn construct_with_empty_request_id_yields_absent_id() {
    let req = tron_sign_request_construct("", "0102", "m/44'/195'/0'/0/0", 7, "", "", 1)
        .unwrap();
    assert!(req.get_request_id().is_none());
    match tron_sign_request_get_request_id(&req) {
        Reply::SuccessNull => {},
        _ => panic!("an empty supplied id is absent, not empty"),
    }
}

#[test]
fn decode_garbled_path_falls_back_to_default() {
    // the path key holds a plain integer: not the expected shape, so the
    // decoder keeps going and falls back to the standard path
    let mut map: BTreeMap<Value, Value> = BTreeMap::new();
    map.insert(Value::Integer(2), Value::Bytes(vec![0x42]));
    map.insert(Value::Integer(4), Value::Integer(77));
    let bytes = serde_cbor::to_vec(&Value::Map(map)).unwrap();
    let req = TronSignRequest::try_from(bytes).unwrap();
    assert_eq!(req.get_derivation_path(), "m/44'/195'/0'/0/0");

    // a path map without the component list falls back the same way
    let mut inner: BTreeMap<Value, Value> = BTreeMap::new();
    inner.insert(Value::Integer(2), Value::Integer(5));
    let mut map2: BTreeMap<Value, Value> = BTreeMap::new();
    map2.insert(Value::Integer(2), Value::Bytes(vec![0x42]));
    map2.insert(Value::Integer(4), Value::Map(inner));
    let bytes2 = serde_cbor::to_vec(&Value::Map(map2)).unwrap();
    let req2 = TronSignRequest::try_from(bytes2).unwrap();
    assert_eq!(req2.get_derivation_path(), "m/44'/195'/0'/0/0");
}

#[test]
fn path_accepts_plus_and_repeated_marks() {
    // the index parser mirrors unsigned parsing: a leading plus is accepted,
    // repeated hardening marks collapse
    let comps = parse_derivation_path("m/+44''/0").unwrap();
    assert_eq!(comps, vec![(44, true), (0, false)]);
    let err = parse_derivation_path("m/4294967296").unwrap_err();
    match err {
        CodecError::PathSyntax(c) => assert_eq!(c, "4294967296"),
        other => panic!("unexpected error: {:?}", other),
    }
    let err2 = parse_derivation_path("").unwrap_err();
    match err2 {
        CodecError::PathSyntax(c) => assert_eq!(c, ""),
        other => panic!("unexpected error: {:?}", other),
    }
}
