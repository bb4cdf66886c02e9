use eas_attestor::abi::{encode, to_hex_0x, Val};
use eas_attestor::eas::{
    coerce, encode_schema_data, parse_schema, predicted_schema_uid, register_schema_calldata,
    AttestationRequest, Raw, SchemaField,
};

fn names(definition: &str) -> Vec<(String, String)> {
    parse_schema(definition).unwrap().into_iter().map(|f| (f.ty, f.name)).collect()
}

fn pair(ty: &str, name: &str) -> (String, String) {
    (ty.to_string(), name.to_string())
}

fn field(ty: &str) -> SchemaField {
    SchemaField { ty: ty.to_string(), name: "f".to_string() }
}

#[test]
fn fields_in_order() {
    assert_eq!(
        names("uint256 locked,uint256 minted,uint64 blockNumber"),
        vec![pair("uint256", "locked"), pair("uint256", "minted"), pair("uint64", "blockNumber")]
    );
}

#[test]
fn white_space_and_trailing_comma_are_tolerated() {
    let want = names("uint256 a,bool b");
    assert_eq!(names("  uint256   a ,\tbool\u{a0}b \n"), want);
    assert_eq!(names("uint256 a,bool b,"), want);
    assert_eq!(names(",uint256 a,,bool b, ,"), want);
    assert_eq!(names("uint256 a extra,bool b"), want);
}

#[test]
fn bad_definitions_are_refused() {
    assert_eq!(parse_schema("").err().unwrap(), "schema definition is empty");
    assert_eq!(parse_schema(" , ").err().unwrap(), "schema definition is empty");
    assert_eq!(
        parse_schema("uint256 a, uint256 ").err().unwrap(),
        "schema field has no name: \"uint256\""
    );
}

#[test]
fn numbers_are_attested_as_numbers() {
    for ty in ["uint256", "uint64", " uint8 "] {
        let v = coerce(ty, &Raw::Bytes(vec![0, 1, 2])).unwrap();
        assert_eq!(to_hex_0x(&encode(&[v])), format!("0x{}0102", "0".repeat(60)));
    }
    let v = coerce("uint256", &Raw::Str("0x0a".to_string())).unwrap();
    assert_eq!(encode(&[v])[31], 10);
    let v = coerce("uint160", &Raw::Address([1; 20])).unwrap();
    assert_eq!(encode(&[v])[12..], [1; 20]);
    assert_eq!(
        coerce("uint256", &Raw::Bytes(vec![1; 33])).err().unwrap(),
        "uint too wide: 33 bytes"
    );
    assert_eq!(
        coerce("uint256", &Raw::Str("0x1".to_string())).err().unwrap(),
        "bad hex \"1\": Odd number of digits"
    );
}

#[test]
fn addresses() {
    let a = coerce("address", &Raw::Address([3; 20])).unwrap();
    let b = coerce("address", &Raw::Bytes(vec![3; 20])).unwrap();
    let mut long = vec![9; 12];
    long.extend(vec![3; 20]);
    let c = coerce("address", &Raw::Bytes(long)).unwrap();
    assert_eq!(encode(&[a]), encode(&[b]));
    assert_eq!(encode(&[c])[12..], [3; 20]);
    assert_eq!(
        coerce("address", &Raw::Bytes(vec![1, 2])).err().unwrap(),
        "cannot coerce Bytes([1, 2]) into address"
    );
    assert_eq!(
        coerce("address", &Raw::Str("a\"b".to_string())).err().unwrap(),
        "cannot coerce Str(\"a\\\"b\") into address"
    );
}

#[test]
fn truth_values() {
    assert!(matches!(coerce("bool", &Raw::Bytes(vec![0, 2])), Ok(Val::Bool(true))));
    assert!(matches!(coerce("bool", &Raw::Bytes(vec![0, 0])), Ok(Val::Bool(false))));
    assert!(matches!(coerce("bool", &Raw::Bytes(vec![])), Ok(Val::Bool(false))));
    let zeros = vec!["0"; 20].join(", ");
    assert_eq!(
        coerce("bool", &Raw::Address([0; 20])).err().unwrap(),
        format!("cannot coerce Address([{}]) into bool", zeros)
    );
}

#[test]
fn words_are_padded_on_the_right() {
    let v = coerce("bytes32", &Raw::Bytes(vec![1, 2])).unwrap();
    let e = encode(&[v]);
    assert_eq!(e[..2], [1, 2]);
    assert_eq!(e[2..], [0; 30]);
    assert_eq!(
        coerce("bytes32", &Raw::Str(String::new())).err().unwrap(),
        "cannot coerce Str(\"\") into bytes32"
    );
}

#[test]
fn texts_and_byte_strings() {
    assert!(matches!(coerce("string", &Raw::Str("x".to_string())), Ok(Val::Str(s)) if s == "x"));
    assert!(matches!(coerce("string", &Raw::Bytes(vec![0x68, 0xff])), Ok(Val::Str(s)) if s == "h\u{fffd}"));
    assert!(matches!(coerce("string", &Raw::Bytes("é".as_bytes().to_vec())), Ok(Val::Str(s)) if s == "é"));
    assert!(coerce("string", &Raw::Address([0; 20])).err().unwrap().ends_with(" into string"));
    assert!(matches!(coerce("bytes", &Raw::Bytes(vec![1])), Ok(Val::Bytes(b)) if b == vec![1]));
    assert!(matches!(coerce("bytes", &Raw::Str("0x0102".to_string())), Ok(Val::Bytes(b)) if b == vec![1, 2]));
    assert!(coerce("bytes", &Raw::Address([0; 20])).err().unwrap().ends_with(" into bytes"));
}

#[test]
fn unknown_types_are_refused() {
    assert_eq!(
        coerce(" int256 ", &Raw::Bytes(vec![1])).err().unwrap(),
        "unsupported schema type: int256"
    );
}

#[test]
fn payload_follows_the_fields() {
    let fields = [field("uint256"), field("string")];
    let values = [Raw::Bytes(vec![7]), Raw::Str("hey".to_string())];
    let want = encode(&[Val::uint_u128(7), Val::Str("hey".to_string())]);
    assert_eq!(encode_schema_data(&fields, &values).unwrap(), want);
    let copies: Vec<Raw> = values.iter().map(|r| r.clone()).collect();
    assert_eq!(encode_schema_data(&fields, &copies).unwrap(), want);
}

#[test]
fn payload_errors() {
    let fields = [field("uint256"), field("nope")];
    assert_eq!(
        encode_schema_data(&fields, &[Raw::Bytes(vec![])]).err().unwrap(),
        "schema has 2 fields but 1 values were collected"
    );
    assert_eq!(
        encode_schema_data(&fields, &[Raw::Bytes(vec![]), Raw::Bytes(vec![])]).err().unwrap(),
        "unsupported schema type: nope"
    );
}

#[test]
fn attest_calldata_layout() {
    let req = AttestationRequest {
        schema_uid: [0x11; 32],
        recipient: [0x22; 20],
        expiration_time: 5,
        revocable: true,
        ref_uid: [0x33; 32],
        data: vec![0x44; 3],
        value: 6,
    };
    let w = |tail: &str| format!("{}{}", "0".repeat(64 - tail.len()), tail);
    let mut want = String::from("0xf17325e7");
    want.push_str(&w("20"));
    want.push_str(&"11".repeat(32));
    want.push_str(&w("40"));
    want.push_str(&w(&"22".repeat(20)));
    want.push_str(&w("05"));
    want.push_str(&w("01"));
    want.push_str(&"33".repeat(32));
    want.push_str(&w("c0"));
    want.push_str(&w("06"));
    want.push_str(&w("03"));
    want.push_str(&format!("444444{}", "0".repeat(58)));
    assert_eq!(to_hex_0x(&req.calldata()), want);
}

#[test]
fn register_calldata_layout() {
    let w = |tail: &str| format!("{}{}", "0".repeat(64 - tail.len()), tail);
    let mut want = String::from("0x60d7a278");
    want.push_str(&w("60"));
    want.push_str(&w(&"55".repeat(20)));
    want.push_str(&w("00"));
    want.push_str(&w("06"));
    want.push_str(&format!("{}{}", "626f6f6c2061", "0".repeat(52)));
    assert_eq!(to_hex_0x(&register_schema_calldata("bool a", [0x55; 20], false)), want);
}

#[test]
fn schema_uid_is_the_packed_digest() {
    let uid = predicted_schema_uid("uint256 locked,uint256 minted", &[0; 20], true);
    assert_eq!(
        to_hex_0x(&uid),
        "0x850d4c075af081006e45e84a52aa2a2c25ab5ec225b7fe7908749af062256a29"
    );
    let uid = predicted_schema_uid("uint256 locked,uint256 minted", &[0; 20], false);
    assert_eq!(
        to_hex_0x(&uid),
        "0xf0fc78229d47acfecea795dbd773b3ff506ef3280ee519609ce3726d800dadf4"
    );
}
