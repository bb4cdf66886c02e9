use eas_attestor::abi::{
    call, encode, hex_to_array20, hex_to_array32, hex_to_bytes, to_hex_0x, HexError, Val,
};
use eas_attestor::bytes::{be_vec, left_pad32, min_be, right_pad32, trim_left, word};
use eas_attestor::keccak::{keccak256, selector};

fn word_of(hex_tail: &str) -> Vec<u8> {
    let mut digits = "0".repeat(64 - hex_tail.len());
    digits.push_str(hex_tail);
    hex_to_bytes(&digits).unwrap()
}

#[test]
fn keccak_of_nothing() {
    assert_eq!(
        to_hex_0x(&keccak256(b"")),
        "0xc5d2460186f7233c927e7db2dcc703c0e500b653ca82273b7bfad8045d85a470"
    );
}

#[test]
fn selectors_of_known_signatures() {
    assert_eq!(selector("balanceOf(address)"), [0x70, 0xa0, 0x82, 0x31]);
    assert_eq!(selector("totalSupply()"), [0x18, 0x16, 0x0d, 0xdd]);
}

#[test]
fn static_values_stand_in_place() {
    let e = encode(&[
        Val::uint_u128(5),
        Val::Address([0x11; 20]),
        Val::Bool(true),
        Val::FixedBytes32([0x22; 32]),
    ]);
    let mut want = word_of("05");
    want.extend(word_of(&"11".repeat(20)));
    want.extend(word_of("01"));
    want.extend(vec![0x22; 32]);
    assert_eq!(e, want);
}

#[test]
fn dynamic_values_stand_behind_offsets() {
    let e = encode(&[Val::uint_u128(1), Val::Str("hi".to_string()), Val::Bytes(vec![7; 33])]);
    let mut want = word_of("01");
    want.extend(word_of("60"));
    want.extend(word_of("a0"));
    want.extend(word_of("02"));
    want.extend(b"hi");
    want.extend(vec![0; 30]);
    want.extend(word_of("21"));
    want.extend(vec![7; 33]);
    want.extend(vec![0; 31]);
    assert_eq!(e, want);
    assert_eq!(e.len() % 32, 0);
}

#[test]
fn empty_bytes_take_one_word() {
    let e = encode(&[Val::Bytes(vec![])]);
    let mut want = word_of("20");
    want.extend(word_of("00"));
    assert_eq!(e, want);
    assert_eq!(encode(&[]), Vec::<u8>::new());
}

#[test]
fn static_tuple_is_inlined_and_dynamic_tuple_is_not() {
    let fixed = Val::Tuple(vec![Val::Bool(true), Val::uint_u128(2)]);
    let mut want = word_of("01");
    want.extend(word_of("02"));
    want.extend(word_of("03"));
    assert_eq!(encode(&[fixed, Val::uint_u128(3)]), want);

    let moving = Val::Tuple(vec![Val::Bool(true), Val::Str("a".to_string())]);
    let mut want = word_of("20");
    want.extend(word_of("01"));
    want.extend(word_of("40"));
    want.extend(word_of("01"));
    want.push(b'a');
    want.extend(vec![0; 31]);
    assert_eq!(encode(&[moving]), want);
}

#[test]
fn different_values_of_one_type_differ_in_encoding() {
    let a = encode(&[Val::Str("ab".to_string()), Val::Str("c".to_string())]);
    let b = encode(&[Val::Str("a".to_string()), Val::Str("bc".to_string())]);
    assert_ne!(a, b);
    let c = encode(&[Val::uint_be(&[0, 0, 9]).unwrap()]);
    let d = encode(&[Val::uint_be(&[9]).unwrap()]);
    assert_eq!(c, d);
}

#[test]
fn call_prefixes_the_selector() {
    let data = call("balanceOf(address)", &[Val::Address([0xab; 20])]);
    assert_eq!(
        to_hex_0x(&data),
        format!("0x70a08231{}{}", "0".repeat(24), "ab".repeat(20))
    );
}

#[test]
fn integers_wider_than_a_word_are_refused() {
    assert!(Val::uint_be(&[1; 32]).is_ok());
    assert_eq!(Val::uint_be(&[1; 33]).err().unwrap(), "uint too wide: 33 bytes");
}

#[test]
fn clones_hold_the_same() {
    let v = Val::Tuple(vec![Val::Str("x".to_string()), Val::Bytes(vec![1, 2])]);
    assert_eq!(format!("{:?}", v.clone()), format!("{:?}", v));
}

#[test]
fn hex_survives_the_round_trip() {
    let b: Vec<u8> = (0..=255).collect();
    let text = to_hex_0x(&b);
    assert_eq!(text.len(), 514);
    assert_eq!(hex_to_bytes(&text).unwrap(), b);
    assert_eq!(hex_to_bytes(&text[2..]).unwrap(), b);
    assert_eq!(to_hex_0x(&[0xAB, 0x01]), "0xab01");
}

#[test]
fn hex_is_read_in_either_case() {
    assert_eq!(hex_to_bytes("0xAbCd").unwrap(), vec![0xab, 0xcd]);
    assert_eq!(hex_to_bytes("").unwrap(), Vec::<u8>::new());
    assert_eq!(hex_to_bytes("0x").unwrap(), Vec::<u8>::new());
}

#[test]
fn hex_errors_say_what_is_wrong() {
    assert_eq!(hex_to_bytes("0xabc").unwrap_err(), "bad hex \"abc\": Odd number of digits");
    assert_eq!(
        hex_to_bytes("0xazcd").unwrap_err(),
        "bad hex \"azcd\": Invalid character 'z' at position 1"
    );
    assert_eq!(
        hex_to_bytes("0x0x11").unwrap_err(),
        "bad hex \"0x11\": Invalid character 'x' at position 1"
    );
    assert_eq!(HexError::InvalidStringLength.message(), "Invalid string length");
}

#[test]
fn fixed_lengths_are_enforced() {
    assert_eq!(hex_to_array20(&"11".repeat(20)).unwrap(), [0x11; 20]);
    assert_eq!(hex_to_array20("0x1122").unwrap_err(), "expected 20-byte address, got 2 bytes");
    assert_eq!(hex_to_array32(&"22".repeat(32)).unwrap(), [0x22; 32]);
    assert_eq!(hex_to_array32("0x").unwrap_err(), "expected 32 bytes, got 0 bytes");
    assert_eq!(hex_to_array32("zz").unwrap_err(), hex_to_bytes("zz").unwrap_err());
}

#[test]
fn big_endian_forms() {
    assert_eq!(be_vec(0x0102, 4), vec![0, 0, 1, 2]);
    assert_eq!(be_vec(0x0102, 1), vec![2]);
    assert_eq!(min_be(0), Vec::<u8>::new());
    assert_eq!(min_be(256), vec![1, 0]);
    assert_eq!(min_be(u128::MAX), vec![0xff; 16]);
    assert_eq!(trim_left(&[0, 0, 1, 0]), vec![1, 0]);
    assert_eq!(trim_left(&[0, 0]), Vec::<u8>::new());
    assert_eq!(word(258)[30..], [1, 2]);
    assert_eq!(left_pad32(&[9])[31], 9);
    assert_eq!(right_pad32(&[9])[0], 9);
    assert_eq!(right_pad32(&[7; 40]), [7; 32]);
}
