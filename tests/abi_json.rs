use risk_scoring::abi::{to_json, AbiField, AbiValue, Felt};
use risk_scoring::schema::{placeholder, stark_proof_schema, verifier_configuration_schema, Schema};

fn felt(bytes: &[u8]) -> AbiValue {
    AbiValue::Scalar(Felt { bytes: bytes.to_vec() })
}

fn text(v: &AbiValue) -> String {
    String::from_utf8(to_json(v)).expect("ascii")
}

#[test]
fn field_elements_render_as_minimal_lowercase_hex() {
    assert_eq!(text(&felt(&[])), "\"0x0\"");
    assert_eq!(text(&felt(&[0, 0, 0])), "\"0x0\"");
    assert_eq!(text(&felt(&[0x00, 0x0a, 0xbc])), "\"0xabc\"");
    assert_eq!(text(&felt(&[0xff])), "\"0xff\"");
    assert_eq!(text(&felt(&[0x01, 0x00])), "\"0x100\"");
    assert_eq!(text(&felt(&[0xde, 0xad, 0xbe, 0xef])), "\"0xdeadbeef\"");
}

#[test]
fn lists_and_records_keep_their_order() {
    let v = AbiValue::Record(vec![
        AbiField { name: b"b".to_vec(), value: AbiValue::List(vec![felt(&[2]), felt(&[1]), felt(&[3])]) },
        AbiField { name: b"a".to_vec(), value: AbiValue::List(vec![]) },
        AbiField { name: b"q\"\\\n".to_vec(), value: felt(&[0x10]) },
    ]);
    assert_eq!(text(&v), "{\"b\":[\"0x2\",\"0x1\",\"0x3\"],\"a\":[],\"q\\\"\\\\\\u000a\":\"0x10\"}");
}

#[test]
fn verifier_configuration_placeholder_is_all_zero() {
    let v = placeholder(&verifier_configuration_schema());
    assert_eq!(
        text(&v),
        "{\"layout\":\"0x0\",\"hasher\":\"0x0\",\"stone_version\":\"0x0\",\"memory_verification\":\"0x0\"}"
    );
}

#[test]
fn placeholder_serialization_is_deterministic() {
    let a = to_json(&placeholder(&stark_proof_schema()));
    let b = to_json(&placeholder(&stark_proof_schema()));
    assert_eq!(a, b);
    let s = String::from_utf8(a).unwrap();
    assert!(s.starts_with("{\"config\":{\"traces\":{\"original\":{\"n_columns\":\"0x0\""));
    assert!(s.contains("\"public_input\":{"));
    assert!(s.contains("\"witness\":{"));
    assert!(s.contains("\"fri_step_sizes\":[]"));
    // every scalar is "0x0" and every list is []
    assert_eq!(s.matches("\"0x").count(), s.matches("\"0x0\"").count());
    assert!(!s.contains("[\""));
    assert!(!s.contains("[{"));
}

fn same_shape(v: &AbiValue, j: &serde_json::Value) -> bool {
    match (v, j) {
        (AbiValue::Scalar(_), serde_json::Value::String(s)) => s.starts_with("0x"),
        (AbiValue::List(items), serde_json::Value::Array(js)) => {
            items.len() == js.len() && items.iter().zip(js.iter()).all(|(a, b)| same_shape(a, b))
        }
        (AbiValue::Record(fields), serde_json::Value::Object(map)) => {
            fields.len() == map.len()
                && fields.iter().all(|f| {
                    let key = String::from_utf8(f.name.clone()).unwrap();
                    map.get(&key).map_or(false, |j| same_shape(&f.value, j))
                })
        }
        _ => false,
    }
}

#[test]
fn parsing_serialized_tree_keeps_shape() {
    let v = AbiValue::Record(vec![
        AbiField {
            name: b"layers".to_vec(),
            value: AbiValue::List(vec![
                AbiValue::List(vec![felt(&[1]), felt(&[2])]),
                AbiValue::List(vec![]),
                AbiValue::Record(vec![AbiField { name: b"x".to_vec(), value: felt(&[9, 9]) }]),
            ]),
        },
        AbiField { name: b"n".to_vec(), value: felt(&[0]) },
    ]);
    let parsed: serde_json::Value = serde_json::from_slice(&to_json(&v)).unwrap();
    assert!(same_shape(&v, &parsed));
    assert_eq!(parsed["layers"][0][1], serde_json::Value::String("0x2".to_string()));
    assert_eq!(parsed["layers"][2]["x"], serde_json::Value::String("0x909".to_string()));
    let p = placeholder(&stark_proof_schema());
    let parsed: serde_json::Value = serde_json::from_slice(&to_json(&p)).unwrap();
    assert!(same_shape(&p, &parsed));
}

#[test]
fn schemas_have_four_sections() {
    match stark_proof_schema() {
        Schema::Record(fields) => {
            let names: Vec<&[u8]> = fields.iter().map(|f| f.name.as_slice()).collect();
            assert_eq!(names, vec![&b"config"[..], b"public_input", b"unsent_commitment", b"witness"]);
        }
        _ => panic!("record expected"),
    }
}
