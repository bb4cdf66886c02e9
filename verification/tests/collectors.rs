use eas_attestor::eas::Raw;
use eas_attestor::evm::{collect, digest, local, question, read_word, Source};
use eas_attestor::json::{parse, Json};
use eas_attestor::tape::{Halt, Reply, Tape};

fn item(text: &str) -> Json {
    parse(text.as_bytes()).unwrap()
}

fn source(text: &str) -> Source {
    Source::from_json(&item(text)).ok().unwrap()
}

fn refusal(text: &str) -> String {
    Source::from_json(&item(text)).err().unwrap()
}

fn address(byte: &str) -> String {
    format!("0x{}", byte.repeat(20))
}

fn agreed() -> Vec<String> {
    vec!["https://a".to_string(), "https://b".to_string()]
}

fn bytes_of(raw: &Raw) -> Vec<u8> {
    match raw {
        Raw::Bytes(b) => b.clone(),
        _ => panic!("expected bytes"),
    }
}

fn env(pairs: &[(&str, &str)]) -> Vec<(String, String)> {
    pairs.iter().map(|(k, v)| (k.to_string(), v.to_string())).collect()
}

#[test]
fn sources_are_read_from_items() {
    let text = format!(
        "{{\"type\":\"erc20_balance\",\"token\":\"{}\",\"holder\":\"{}\"}}",
        address("11"),
        address("22")
    );
    assert!(matches!(
        source(&text),
        Source::Erc20Balance { token, holder } if token == [0x11; 20] && holder == [0x22; 20]
    ));
    let text = format!("{{\"type\":\"erc20_total_supply\",\"token\":\"{}\"}}", address("11"));
    assert!(matches!(source(&text), Source::Erc20TotalSupply { token } if token == [0x11; 20]));
    let text = format!("{{\"type\":\"native_balance\",\"address\":\"{}\"}}", address("33"));
    assert!(matches!(source(&text), Source::NativeBalance { address } if address == [0x33; 20]));
    assert!(matches!(source("{\"type\":\"block_number\"}"), Source::BlockNumber));
}

#[test]
fn optional_parts_of_sources_have_defaults() {
    assert!(matches!(
        source("{\"type\":\"tee_attestation\"}"),
        Source::TeeAttestation { form, api_base }
            if form == "url" && api_base == "https://api.outlayer.ai"
    ));
    assert!(matches!(
        source("{\"type\":\"tee_attestation\",\"returns\":\"call_id\",\"api_base\":\"https://h///\"}"),
        Source::TeeAttestation { form, api_base } if form == "call_id" && api_base == "https://h"
    ));
    let text = format!("{{\"type\":\"eth_code\",\"address\":\"{}\"}}", address("44"));
    assert!(matches!(source(&text), Source::EthCode { report, .. } if report == "code_hash"));
    let text = format!("{{\"type\":\"evm_call\",\"to\":\"{}\",\"data\":\"0x01\"}}", address("44"));
    assert!(matches!(
        source(&text),
        Source::EvmCall { to, data, returns }
            if to == [0x44; 20] && data == vec![1] && returns == "uint256"
    ));
}

#[test]
fn bad_items_are_refused() {
    assert_eq!(refusal("{}"), "collect item missing \"type\"");
    assert_eq!(refusal("{\"type\":\"x\"}"), "unknown collect type: x");
    assert_eq!(
        refusal("{\"type\":\"erc20_balance\"}"),
        "collect erc20_balance missing \"token\""
    );
    let text = format!("{{\"type\":\"erc20_balance\",\"token\":\"{}\"}}", address("11"));
    assert_eq!(refusal(&text), "collect erc20_balance missing \"holder\"");
    assert_eq!(
        refusal("{\"type\":\"native_balance\",\"address\":\"0x11\"}"),
        "expected 20-byte address, got 1 bytes"
    );
    let text = format!("{{\"type\":\"evm_call\",\"to\":\"{}\"}}", address("11"));
    assert_eq!(refusal(&text), "evm_call missing \"data\"");
    let text = format!("{{\"type\":\"evm_call\",\"to\":\"{}\",\"data\":\"0x1\"}}", address("11"));
    assert_eq!(refusal(&text), "bad hex \"1\": Odd number of digits");
}

#[test]
fn questions_name_the_read() {
    let (method, head) =
        question(&Source::Erc20Balance { token: [0x11; 20], holder: [0x22; 20] }).unwrap();
    assert_eq!(method, "eth_call");
    assert_eq!(
        head.render(),
        format!(
            "[{{\"data\":\"0x70a08231{}{}\",\"to\":\"{}\"}}]",
            "0".repeat(24),
            "22".repeat(20),
            address("11")
        )
    );
    let (_, head) = question(&Source::Erc20TotalSupply { token: [0x11; 20] }).unwrap();
    assert_eq!(
        head.render(),
        format!("[{{\"data\":\"0x18160ddd\",\"to\":\"{}\"}}]", address("11"))
    );
    let (method, head) = question(&Source::NativeBalance { address: [0x33; 20] }).unwrap();
    assert_eq!(method, "eth_getBalance");
    assert_eq!(head.render(), format!("[\"{}\"]", address("33")));
    let code = Source::EthCode { address: [0x33; 20], report: String::new() };
    assert_eq!(question(&code).unwrap().0, "eth_getCode");
    assert!(question(&Source::BlockNumber).is_none());
}

#[test]
fn balances_are_read_from_the_first_word() {
    let src = Source::Erc20Balance { token: [0x11; 20], holder: [0x22; 20] };
    let word = format!("0x{}0102", "0".repeat(60));
    let c = digest(&src, &word, &agreed()).ok().unwrap();
    assert_eq!(bytes_of(&c.raw), vec![1, 2]);
    assert_eq!(
        c.evidence.render(),
        format!(
            "{{\"agreed_by\":[\"https://a\",\"https://b\"],\"holder\":\"{}\",\"source\":\"erc20_balance\",\"token\":\"{}\",\"value_hex\":\"{}\"}}",
            address("22"),
            address("11"),
            word
        )
    );
    let supply = Source::Erc20TotalSupply { token: [0x11; 20] };
    let c = digest(&supply, &format!("{}ffff", word), &agreed()).ok().unwrap();
    assert_eq!(bytes_of(&c.raw), vec![1, 2]);
    assert_eq!(c.evidence.text_at("source"), Some("erc20_total_supply"));
    assert_eq!(c.evidence.text_at("value_hex"), Some(word.as_str()));
}

#[test]
fn short_returns_are_refused() {
    assert_eq!(read_word("0x01").unwrap_err(), "eth_call returned 1 bytes, expected >= 32");
    assert_eq!(read_word("0x1").unwrap_err(), "bad hex \"1\": Odd number of digits");
}

#[test]
fn native_balances_keep_the_answer_as_it_came() {
    let src = Source::NativeBalance { address: [0x33; 20] };
    let c = digest(&src, "0x0010", &agreed()).ok().unwrap();
    assert_eq!(bytes_of(&c.raw), vec![0x10]);
    assert_eq!(c.evidence.text_at("value_hex"), Some("0x0010"));
}

#[test]
fn native_balances_may_have_any_number_of_digits() {
    let src = Source::NativeBalance { address: [0x33; 20] };
    let balance = |text: &str| {
        let c = digest(&src, text, &agreed()).ok().unwrap();
        assert_eq!(c.evidence.text_at("value_hex"), Some(text));
        bytes_of(&c.raw)
    };
    assert_eq!(balance("0x0"), Vec::<u8>::new());
    assert_eq!(balance("0x"), Vec::<u8>::new());
    assert_eq!(balance("0x1"), vec![1]);
    assert_eq!(balance("0x10"), vec![0x10]);
    assert_eq!(
        balance("0xde0b6b3a7640000"),
        vec![0x0d, 0xe0, 0xb6, 0xb3, 0xa7, 0x64, 0, 0]
    );
    assert_eq!(balance("0x1bc16d674ec80000").len(), 8);
    assert_eq!(balance("abc"), vec![0x0a, 0xbc]);
}

#[test]
fn native_balances_that_are_no_quantities_are_refused() {
    let src = Source::NativeBalance { address: [0x33; 20] };
    let why = |text: &str| digest(&src, text, &agreed()).err().unwrap();
    assert_eq!(why("0xzz"), "bad hex \"zz\": Invalid character 'z' at position 0");
    assert_eq!(why("0xz"), "bad hex \"z\": Odd number of digits");
    assert_eq!(why("0xx11"), "bad hex \"x11\": Odd number of digits");
    assert_eq!(
        why("0x\u{e9}"),
        "bad hex \"\u{e9}\": Invalid character '\u{c3}' at position 0"
    );
}

#[test]
fn facts_about_code() {
    let fact = |report: &str, code: &str| {
        let src = Source::EthCode { address: [0x33; 20], report: report.to_string() };
        digest(&src, code, &agreed())
    };
    assert_eq!(bytes_of(&fact("is_contract", "0x").ok().unwrap().raw), Vec::<u8>::new());
    assert_eq!(bytes_of(&fact(" is_contract ", "0x60").ok().unwrap().raw), vec![1]);
    let long = format!("0x{}", "60".repeat(300));
    assert_eq!(bytes_of(&fact("code_size", &long).ok().unwrap().raw), vec![1, 44]);
    let c = fact("code_hash", "0x").ok().unwrap();
    let digest_of_nothing = "0xc5d2460186f7233c927e7db2dcc703c0e500b653ca82273b7bfad8045d85a470";
    assert_eq!(bytes_of(&c.raw).len(), 32);
    assert_eq!(c.evidence.text_at("code_hash"), Some(digest_of_nothing));
    assert_eq!(c.evidence.number_at("code_size"), Some(0));
    assert_eq!(c.evidence.bool_at("is_contract"), Some(false));
    assert_eq!(c.evidence.text_at("report"), Some("code_hash"));
    assert_eq!(
        fact("size", "0x").err().unwrap(),
        "eth_code returns must be code_hash|is_contract|code_size, got size"
    );
}

#[test]
fn calls_are_read_as_their_type() {
    let word = format!("0x{}{}", "0".repeat(24), "ab".repeat(20));
    let read = |ty: &str| {
        let src = Source::EvmCall { to: [1; 20], data: vec![], returns: ty.to_string() };
        digest(&src, &word, &agreed()).ok().unwrap()
    };
    assert!(matches!(read("address").raw, Raw::Address(a) if a == [0xab; 20]));
    assert_eq!(bytes_of(&read(" bytes32 ").raw).len(), 32);
    assert_eq!(bytes_of(&read("uint256").raw), vec![0xab; 20]);
    assert_eq!(read("bool").evidence.text_at("returns"), Some("bool"));
}

#[test]
fn the_block_number_is_its_own_evidence() {
    let c = local(&Source::BlockNumber, &[], 258).ok().unwrap();
    assert_eq!(bytes_of(&c.raw), vec![1, 2]);
    assert_eq!(c.evidence.render(), "{\"source\":\"block_number\",\"value\":258}");
}

#[test]
fn the_execution_refers_to_its_own_quote() {
    let tee = |form: &str, vars: &[(&str, &str)]| {
        let src = Source::TeeAttestation {
            form: form.to_string(),
            api_base: "https://h".to_string(),
        };
        local(&src, &env(vars), 0)
    };
    let both = [("NEAR_REQUEST_ID", "r1"), ("OUTLAYER_CALL_ID", "c1")];
    let c = tee("url", &both).ok().unwrap();
    assert!(matches!(&c.raw, Raw::Str(s) if s == "https://h/attestations/by-call/c1"));
    assert_eq!(c.evidence.text_at("execution_id"), Some("c1"));
    assert_eq!(
        c.evidence.text_at("attestation_url"),
        Some("https://h/attestations/by-call/c1")
    );
    let only_request = [("OUTLAYER_CALL_ID", ""), ("NEAR_REQUEST_ID", "r1")];
    let c = tee("call_id", &only_request).ok().unwrap();
    assert!(matches!(&c.raw, Raw::Str(s) if s == "r1"));
    assert_eq!(
        c.evidence.text_at("attestation_url"),
        Some("https://h/attestations/by-request/r1")
    );
    assert_eq!(
        tee("both", &both).err().unwrap(),
        "tee_attestation returns must be url|call_id, got both"
    );
    assert!(tee("url", &[])
        .err()
        .unwrap()
        .starts_with("this execution exposed neither OUTLAYER_CALL_ID nor NEAR_REQUEST_ID"));
}

#[test]
fn collecting_goes_through_the_quorum() {
    let rpcs = agreed();
    let src = Source::NativeBalance { address: [0x33; 20] };
    let reply = |s: &str| Reply::Answered {
        status: 200,
        body: Ok(format!("{{\"result\":\"{}\"}}", s).into_bytes()),
    };
    let replies = [reply("0xA"), reply("0xa")];
    let mut tape = Tape::new(&replies);
    let c = collect(&mut tape, &src, &[], &rpcs, 5, 2).ok().unwrap();
    assert_eq!(bytes_of(&c.raw), vec![10]);
    let replies = [reply("0x0"), reply("0x0")];
    let mut tape = Tape::new(&replies);
    let c = collect(&mut tape, &src, &[], &rpcs, 1, 2).ok().unwrap();
    assert_eq!(bytes_of(&c.raw), Vec::<u8>::new());
    assert_eq!(c.evidence.text_at("value_hex"), Some("0x0"));
    assert_eq!(c.evidence.get("agreed_by").unwrap().render(), "[\"https://a\",\"https://b\"]");
    let replies = [reply("0xa"), reply("0xb")];
    let mut tape = Tape::new(&replies);
    assert!(matches!(collect(&mut tape, &src, &[], &rpcs, 5, 2), Err(Halt::Fail(e))
        if e.starts_with("only 1 of 2 RPCs agreed on eth_getBalance at block 5 (needed 2)")));
    let mut tape = Tape::new(&replies[..1]);
    assert!(matches!(collect(&mut tape, &src, &[], &rpcs, 5, 2), Err(Halt::Ask(q))
        if q.url == "https://b"));
}
