use eas_attestor::abi::{hex_to_bytes, to_hex_0x};
use eas_attestor::sign::{point_address, Eip1559Tx, Signer};

fn one() -> String {
    format!("{}1", "0".repeat(63))
}

fn sample() -> Eip1559Tx {
    Eip1559Tx {
        chain_id: 8453,
        nonce: 7,
        max_priority_fee: 50_000_000,
        max_fee: 1_050_000_000,
        gas_limit: 125_000,
        to: [0x42; 20],
        value: 0,
        data: hex_to_bytes("0xdeadbeef").unwrap(),
    }
}

#[test]
fn addresses_of_known_keys() {
    let s = Signer::from_hex(&one()).ok().unwrap();
    assert_eq!(to_hex_0x(&s.address), "0x7e5f4552091a69125d5dfcb7b8c2659029395bdf");
    let s = Signer::from_hex(&"46".repeat(32)).ok().unwrap();
    assert_eq!(to_hex_0x(&s.address), "0x9d8a62f656a8d1615c1294fd71e9cfb3e4855a4f");
}

#[test]
fn keys_may_have_a_prefix_and_white_space() {
    let plain = Signer::from_hex(&one()).ok().unwrap().address;
    let prefixed = Signer::from_hex(&format!(" 0x{}\n", one())).ok().unwrap().address;
    assert_eq!(plain, prefixed);
}

#[test]
fn bad_keys_are_refused() {
    let why = |s: &str| Signer::from_hex(s).err().unwrap();
    assert_eq!(why("0x1122"), "private key must be 32 bytes, got 2");
    assert_eq!(why("0x112"), "bad hex \"112\": Odd number of digits");
    assert_eq!(why(&"00".repeat(32)), "invalid private key: signature error");
    let order = "fffffffffffffffffffffffffffffffebaaedce6af48a03bbfd25e8cd0364141";
    assert_eq!(why(order), "invalid private key: signature error");
    let below = "fffffffffffffffffffffffffffffffebaaedce6af48a03bbfd25e8cd0364140";
    assert!(Signer::from_hex(below).is_ok());
}

#[test]
fn payload_and_raw_form_of_given_values() {
    let base = "822105078402faf080843e95ba808301e8489442424242424242424242424242424242424242428084deadbeefc0";
    assert_eq!(to_hex_0x(&sample().signing_payload()), format!("0x02ee{}", base));
    let mut r = [0; 32];
    r[31] = 5;
    let raw = sample().with_signature(0, &r, &[0x81; 32]);
    assert_eq!(to_hex_0x(&raw), format!("0x02f851{}8005a0{}", base, "81".repeat(32)));
}

#[test]
fn address_of_a_point() {
    let point = hex_to_bytes("0x0479be667ef9dcbbac55a06295ce870b07029bfcdb2dce28d959f2815b16f81798483ada7726a3c4655da4fbfc0e1108a8fd17b448a68554199c47d08ffb10d4b8").unwrap();
    assert_eq!(
        to_hex_0x(&point_address(&point)),
        "0x7e5f4552091a69125d5dfcb7b8c2659029395bdf"
    );
}

#[test]
fn hash_of_a_transaction() {
    assert_eq!(
        to_hex_0x(&sample().sighash()),
        "0x5e274b2ee91b1114d3f4a710ddcf9d083df38cac68cb781620a926641cd3969b"
    );
}

#[test]
fn raw_form_of_a_transaction() {
    let signer = Signer::from_hex(&one()).ok().unwrap();
    assert_eq!(
        to_hex_0x(&sample().sign(&signer).unwrap()),
        "0x02f871822105078402faf080843e95ba808301e8489442424242424242424242424242424242424242428084deadbeefc001a017de8446a1480f911cf52f3e7f808f41ffbebf80bb974b7a101559646e975641a060b2366e7e3eaa8f1aeb7e8179fdc8cedb94459e7c8b193256bbcaf4b45c7847"
    );
}

#[test]
fn raw_form_with_zeros_and_long_data() {
    let signer = Signer::from_hex(&"46".repeat(32)).ok().unwrap();
    let tx = Eip1559Tx {
        chain_id: 1,
        nonce: 0,
        max_priority_fee: 0,
        max_fee: 0,
        gas_limit: 0,
        to: [0; 20],
        value: 0,
        data: vec![0; 60],
    };
    assert_eq!(
        to_hex_0x(&tx.sighash()),
        "0xf3aa6e6fe3b9cff4faa62e7aa6b27422eba591238587cde8aa70ff3dd20b98e9"
    );
    assert_eq!(
        to_hex_0x(&tx.sign(&signer).unwrap()),
        format!(
            "0x02f89d018080808094{}80b83c{}c001a0{}a0{}",
            "00".repeat(20),
            "00".repeat(60),
            "3e9334d6fa719a52372256e786e3306ea085dd4a40647ddad79782ab38961146",
            "5654d23b681cccedc82375cf568cf57d48ffc6c249551da9e266050d0fe3a77f"
        )
    );
}

#[test]
fn signatures_are_in_the_lower_half() {
    let half = hex_to_bytes("7fffffffffffffffffffffffffffffff5d576e7357a4501ddfe92f46681b20a0").unwrap();
    let signer = Signer::from_hex(&one()).ok().unwrap();
    for nonce in 0..16 {
        let mut tx = sample();
        tx.nonce = nonce;
        let raw = tx.sign(&signer).unwrap();
        let n = raw.len();
        let base = tx.signing_payload().len() - 2;
        let parity = raw[3 + base];
        assert!(parity == 0x80 || parity == 1);
        // Bytes that the last item holds; a shorter one has leading zeros and is smaller still.
        if raw[n - 33] == 0xa0 {
            assert!(raw[n - 32..] <= half[..]);
        }
    }
}

#[test]
fn different_transactions_have_different_hashes() {
    let mut other = sample();
    other.data = hex_to_bytes("0xdeadbeee").unwrap();
    assert_ne!(sample().sighash(), other.sighash());
    let mut other = sample();
    other.nonce = 8;
    assert_ne!(sample().sighash(), other.sighash());
}
