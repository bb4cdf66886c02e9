use eas_attestor::abi::to_hex_0x;
use eas_attestor::eas::{predicted_schema_uid, register_schema_calldata};
use eas_attestor::job::{add_headroom, block_for, build_tx};
use eas_attestor::json::{parse, Json};
use eas_attestor::session::{failure, Session, Step};
use eas_attestor::sign::{Eip1559Tx, Signer};
use eas_attestor::tape::{Halt, Reply, Request, Tape};
use serde_json::Value;

fn key_text() -> String {
    format!("0x{}1", "0".repeat(63))
}

fn env() -> Vec<(String, String)> {
    vec![
        ("PROTECTED_EAS_KEY".to_string(), key_text()),
        ("OUTLAYER_CALL_ID".to_string(), "call-7".to_string()),
        ("TOKEN".to_string(), "t0k".to_string()),
    ]
}

fn ok(result: &str) -> Reply {
    Reply::Answered { status: 200, body: Ok(format!("{{\"result\":{}}}", result).into_bytes()) }
}

/// A node that agrees with all others, up to its head block.
fn node(q: &Request) -> Reply {
    match q.method.as_str() {
        "eth_blockNumber" => ok("\"0x104\""),
        "eth_getBalance" => ok("\"0xa\""),
        "eth_call" => ok(&format!("\"0x{}2a\"", "0".repeat(62))),
        "eth_getCode" => ok("\"0x6001\""),
        "eth_chainId" => ok("\"0x2105\""),
        "eth_getTransactionCount" => ok("\"0x7\""),
        "eth_getBlockByNumber" => ok("{\"baseFeePerGas\":\"0x64\"}"),
        "eth_maxPriorityFeePerGas" => ok("\"0x3\""),
        "eth_estimateGas" => ok("\"0x186a0\""),
        "eth_sendRawTransaction" => ok("\"0xfeed\""),
        _ => panic!("unexpected method"),
    }
}

fn play(
    input: &str,
    env: Vec<(String, String)>,
    reply: impl Fn(&Request) -> Reply,
) -> (Vec<Request>, Value) {
    let mut session = Session::new(input.to_string(), env);
    let mut asked = vec![];
    loop {
        match session.step() {
            Step::Post(q) => {
                session.answer(reply(&q));
                asked.push(q);
            }
            Step::Finished(text) => {
                return (asked, serde_json::from_str(&text).unwrap());
            }
        }
    }
}

fn methods(asked: &[Request]) -> Vec<String> {
    asked.iter().map(|q| q.method.clone()).collect()
}

fn job(mode: &str, chain: &str, rest: &str) -> String {
    format!("{{\"mode\":\"{}\",\"chain\":{},{}}}", mode, chain, rest)
}

const CHAIN: &str = "{\"rpcs\":[\"https://a\",\"https://b/${TOKEN}\"],\"eas\":\"0x4200000000000000000000000000000000000021\",\"schema_registry\":\"0x4200000000000000000000000000000000000020\"}";

const BALANCE: &str = "{\"type\":\"native_balance\",\"address\":\"0x3333333333333333333333333333333333333333\"}";

fn body(collect: &str, definition: &str) -> String {
    format!(
        "\"schema\":{{\"uid\":\"0x{}\",\"definition\":\"{}\"}},\"collect\":[{}]",
        "ab".repeat(32),
        definition,
        collect
    )
}

fn error_of(v: &Value) -> String {
    assert_eq!(v["success"], Value::Bool(false));
    v["error"].as_str().unwrap().to_string()
}

#[test]
fn a_dry_run_shows_the_attestation_and_sends_nothing() {
    let collect = format!("{},{{\"type\":\"block_number\"}}", BALANCE);
    let input = job("dry_run", CHAIN, &body(&collect, "uint256 held,uint64 at"));
    let (asked, v) = play(&input, env(), node);
    assert_eq!(
        methods(&asked),
        vec!["eth_blockNumber", "eth_blockNumber", "eth_getBalance", "eth_getBalance"]
    );
    assert_eq!(asked[1].url, "https://b/t0k");
    assert_eq!(v["success"], Value::Bool(true));
    assert_eq!(v["mode"], "dry_run");
    assert_eq!(v["block_number"], 256);
    assert_eq!(v["attester"], "0x7e5f4552091a69125d5dfcb7b8c2659029395bdf");
    assert_eq!(v["eas"], "0x4200000000000000000000000000000000000021");
    assert_eq!(
        v["attestation_data"].as_str().unwrap(),
        format!("0x{}0a{}0100", "0".repeat(62), "0".repeat(60))
    );
    let first = &v["collected"][0];
    assert_eq!(first["field"], "held");
    assert_eq!(first["type"], "uint256");
    assert_eq!(first["block"], 256);
    assert_eq!(first["agreed_by"][1], "https://b/t0k");
    assert_eq!(v["collected"][1]["value"], 256);
    assert!(v.get("tx_hash").is_none());
}

#[test]
fn a_dry_run_needs_neither_key_nor_uid() {
    let rest = format!(
        "\"schema\":{{\"definition\":\"uint256 held\"}},\"collect\":[{}]",
        BALANCE
    );
    let vars = vec![("TOKEN".to_string(), "t".to_string())];
    let (_, v) = play(&job("dry_run", CHAIN, &rest), vars, node);
    assert_eq!(v["success"], Value::Bool(true));
    assert_eq!(v["schema_uid"].as_str().unwrap(), format!("0x{}", "0".repeat(64)));
    assert!(v.get("attester").is_none());
}

#[test]
fn an_attestation_is_signed_and_broadcast() {
    let input = job("attest", CHAIN, &body(BALANCE, "uint256 held"));
    let (asked, v) = play(&input, env(), node);
    assert_eq!(
        methods(&asked)[4..],
        [
            "eth_chainId",
            "eth_getTransactionCount",
            "eth_getTransactionCount",
            "eth_getBlockByNumber",
            "eth_maxPriorityFeePerGas",
            "eth_estimateGas",
            "eth_sendRawTransaction",
            "eth_sendRawTransaction",
            "eth_chainId",
        ]
    );
    assert_eq!(v["success"], Value::Bool(true));
    assert_eq!(v["mode"], "attest");
    assert_eq!(v["tx_hash"], "0xfeed");
    assert_eq!(v["nonce"], 7);
    assert_eq!(
        v["attester_url"],
        "https://base.easscan.org/address/0x7e5f4552091a69125d5dfcb7b8c2659029395bdf"
    );
    let calldata = v["calldata"].as_str().unwrap();
    assert!(calldata.starts_with("0xf17325e7"));
    let tx = Eip1559Tx {
        chain_id: 8453,
        nonce: 7,
        max_priority_fee: 3,
        max_fee: 203,
        gas_limit: 125_000,
        to: eas_attestor::abi::hex_to_array20("0x4200000000000000000000000000000000000021").unwrap(),
        value: 0,
        data: eas_attestor::abi::hex_to_bytes(calldata).unwrap(),
    };
    let raw = tx.sign(&Signer::from_hex(&key_text()).ok().unwrap()).unwrap();
    assert_eq!(asked[10].params.render(), format!("[\"{}\"]", to_hex_0x(&raw)));
    assert_eq!(asked[10].url, "https://a");
}

#[test]
fn fees_and_gas_can_be_set() {
    let rest = format!(
        "{},\"gas_limit\":21000,\"max_priority_fee_wei\":9,\"mode\":\"attest\"",
        body(BALANCE, "uint256 held")
    );
    let chain = CHAIN.replace("{\"rpcs\"", "{\"chain_id\":1,\"rpcs\"");
    let (asked, v) = play(&job("attest", &chain, &rest), env(), node);
    let seen = methods(&asked);
    assert!(!seen.contains(&"eth_estimateGas".to_string()));
    assert!(!seen.contains(&"eth_chainId".to_string()));
    let tx = Eip1559Tx {
        chain_id: 1,
        nonce: 7,
        max_priority_fee: 9,
        max_fee: 209,
        gas_limit: 21_000,
        to: eas_attestor::abi::hex_to_array20("0x4200000000000000000000000000000000000021").unwrap(),
        value: 0,
        data: eas_attestor::abi::hex_to_bytes(v["calldata"].as_str().unwrap()).unwrap(),
    };
    let raw = tx.sign(&Signer::from_hex(&key_text()).ok().unwrap()).unwrap();
    let sent = asked.iter().find(|q| q.method == "eth_sendRawTransaction").unwrap();
    assert_eq!(sent.params.render(), format!("[\"{}\"]", to_hex_0x(&raw)));
    assert!(v["attester_url"].as_str().unwrap().starts_with("https://easscan.org/"));
}

#[test]
fn the_fee_cap_covers_a_doubled_base_fee() {
    let cap = |base: &str, tip: &str| {
        let replies = [
            ok("\"0x7\""),
            ok(&format!("{{\"baseFeePerGas\":\"{}\"}}", base)),
            ok(&format!("\"{}\"", tip)),
            ok("\"0x64\""),
        ];
        let mut tape = Tape::new(&replies);
        let chain = parse(b"{\"chain_id\":1}").unwrap();
        let rpcs = ["https://a".to_string()];
        build_tx(&mut tape, &Json::Null, &chain, &rpcs, &[1; 20], &[2; 20], &[3]).ok().unwrap()
    };
    let tx = cap("0x64", "0x5");
    assert_eq!((tx.max_fee, tx.max_priority_fee, tx.gas_limit), (205, 5, 125));
    assert_eq!((tx.chain_id, tx.nonce, tx.value), (1, 7, 0));
    assert_eq!((tx.to, tx.data), ([2; 20], vec![3]));
    let most = format!("0x{}", "f".repeat(32));
    assert_eq!(cap(&most, "0x5").max_fee, u128::MAX);
    assert_eq!(cap("0x5", &most).max_fee, u128::MAX);
}

#[test]
fn headroom_is_a_quarter() {
    assert_eq!(add_headroom(100_000), 125_000);
    assert_eq!(add_headroom(3), 3);
    assert_eq!(add_headroom(u64::MAX), u64::MAX / 100);
}

#[test]
fn collectors_on_one_chain_share_their_block() {
    let other = "{\"type\":\"native_balance\",\"address\":\"0x3333333333333333333333333333333333333333\",\"rpcs\":[\"https://c\"],\"min_agree\":1,\"blocks_behind\":1,\"chain_id\":5}";
    let collect = format!("{},{},{},{}", BALANCE, other, BALANCE, other);
    let input = job("dry_run", CHAIN, &body(&collect, "uint256 a,uint256 b,uint256 c,uint256 d"));
    let (asked, v) = play(&input, env(), node);
    let rounds: Vec<&str> = asked
        .iter()
        .filter(|q| q.method == "eth_blockNumber")
        .map(|q| q.url.as_str())
        .collect();
    assert_eq!(rounds, vec!["https://a", "https://b/t0k", "https://c"]);
    assert_eq!(v["collected"][0]["block"], 256);
    assert_eq!(v["collected"][1]["block"], 259);
    assert_eq!(v["collected"][1]["chain_id"], 5);
    assert_eq!(v["collected"][2]["block"], 256);
    assert_eq!(v["collected"][3]["block"], 259);
    assert!(v["collected"][0].get("chain_id").is_none());
}

#[test]
fn each_list_is_pinned_behind_its_own_highest_head() {
    let other = "{\"type\":\"native_balance\",\"address\":\"0x3333333333333333333333333333333333333333\",\"rpcs\":[\"https://c\",\"https://d\"]}";
    let near = other.replace("\"rpcs\"", "\"blocks_behind\":0,\"rpcs\"");
    let collect = format!("{},{},{},{},{}", other, BALANCE, near, other, BALANCE);
    let definition = "uint256 a,uint256 b,uint256 c,uint256 d,uint256 e";
    let (asked, v) = play(&job("dry_run", CHAIN, &body(&collect, definition)), env(), |q| {
        match (q.method.as_str(), q.url.as_str()) {
            ("eth_blockNumber", "https://c") => ok("\"0x20\""),
            ("eth_blockNumber", "https://d") => ok("\"0x30\""),
            _ => node(q),
        }
    });
    let blocks: Vec<u64> =
        (0..5).map(|k| v["collected"][k]["block"].as_u64().unwrap()).collect();
    assert_eq!(blocks, vec![44, 256, 48, 44, 256]);
    assert_eq!(v["block_number"], 256);
    assert_eq!(asked.iter().filter(|q| q.method == "eth_blockNumber").count(), 6);
}

#[test]
fn a_threshold_beyond_all_counts_is_never_met() {
    for n in ["4294967296", "18446744073709551615"] {
        let rest = format!("{},\"min_agree\":{}", body(BALANCE, "uint256 held"), n);
        let (_, v) = play(&job("dry_run", CHAIN, &rest), env(), node);
        assert!(error_of(&v).starts_with("only 2 of 2 RPCs agreed on eth_getBalance"));
        let own = BALANCE.replace("{\"type\"", &format!("{{\"min_agree\":{},\"type\"", n));
        let (_, v) = play(&job("dry_run", CHAIN, &body(&own, "uint256 held")), env(), node);
        assert!(error_of(&v).starts_with("only 2 of 2 RPCs agreed on eth_getBalance"));
    }
}

#[test]
fn lists_that_only_look_alike_are_pinned_apart() {
    let chain = "{\"rpcs\":[\"https://a\",\"https://b\"],\"eas\":\"0x4200000000000000000000000000000000000021\"}";
    let joined = "{\"type\":\"block_number\",\"rpcs\":[\"https://a,https://b\"]}";
    let input = job("dry_run", chain, &body(joined, "uint64 at"));
    let (asked, _) = play(&input, env(), node);
    let urls: Vec<&str> = asked.iter().map(|q| q.url.as_str()).collect();
    assert_eq!(urls, vec!["https://a", "https://b", "https://a,https://b"]);
}

#[test]
fn a_failed_lookup_pins_nothing() {
    let rpcs = ["https://a".to_string()];
    let mut pins = vec![];
    let replies = [Reply::NotSent("down".to_string()), ok("\"0x10\"")];
    let mut tape = Tape::new(&replies);
    assert!(block_for(&mut tape, &mut pins, &rpcs, 4).is_err());
    assert!(pins.is_empty());
    assert_eq!(block_for(&mut tape, &mut pins, &rpcs, 4).ok(), Some(12));
    assert_eq!(pins.len(), 1);
    assert_eq!(block_for(&mut tape, &mut pins, &rpcs, 4).ok(), Some(12));
    assert!(matches!(block_for(&mut tape, &mut pins, &rpcs, 5), Err(Halt::Ask(_))));
    assert_eq!(pins.len(), 1);
}

#[test]
fn an_empty_account_is_attested_as_zero() {
    let input = job("dry_run", CHAIN, &body(BALANCE, "uint256 held"));
    let (_, v) = play(&input, env(), |q| {
        if q.method == "eth_getBalance" {
            ok("\"0x0\"")
        } else {
            node(q)
        }
    });
    assert_eq!(v["attestation_data"].as_str().unwrap(), format!("0x{}", "0".repeat(64)));
    assert_eq!(v["collected"][0]["value_hex"], "0x0");
}

#[test]
fn one_lying_rpc_is_not_enough() {
    let input = job("attest", CHAIN, &body(BALANCE, "uint256 held"));
    let (asked, v) = play(&input, env(), |q| {
        if q.method == "eth_getBalance" && q.url == "https://a" {
            ok("\"0xff\"")
        } else {
            node(q)
        }
    });
    assert!(error_of(&v).starts_with("only 1 of 2 RPCs agreed on eth_getBalance at block 256"));
    assert!(!methods(&asked).contains(&"eth_sendRawTransaction".to_string()));
}

#[test]
fn the_run_refers_to_its_own_quote() {
    let tee = "{\"type\":\"tee_attestation\",\"returns\":\"call_id\"}";
    let (asked, v) = play(&job("dry_run", CHAIN, &body(tee, "string quote")), env(), node);
    assert_eq!(methods(&asked), vec!["eth_blockNumber", "eth_blockNumber"]);
    assert!(v["attestation_data"].as_str().unwrap().contains("63616c6c2d37"));
}

#[test]
fn a_schema_is_registered() {
    let rest = "\"schema\":{\"definition\":\"uint256 locked,uint256 minted\",\"resolver\":\"0x0\"}";
    let chain = CHAIN.replace("{\"rpcs\"", "{\"chain_id\":8453,\"rpcs\"");
    let (asked, v) = play(&job("register_schema", &chain, rest), env(), node);
    assert_eq!(v["success"], Value::Bool(true));
    assert_eq!(v["mode"], "register_schema");
    assert_eq!(v["registrant"], "0x7e5f4552091a69125d5dfcb7b8c2659029395bdf");
    assert_eq!(v["definition"], "uint256 locked,uint256 minted");
    assert_eq!(
        v["predicted_schema_uid"].as_str().unwrap(),
        to_hex_0x(&predicted_schema_uid("uint256 locked,uint256 minted", &[0; 20], true))
    );
    assert_eq!(v["nonce"], 7);
    let tx = Eip1559Tx {
        chain_id: 8453,
        nonce: 7,
        max_priority_fee: 3,
        max_fee: 203,
        gas_limit: 125_000,
        to: eas_attestor::abi::hex_to_array20("0x4200000000000000000000000000000000000020").unwrap(),
        value: 0,
        data: register_schema_calldata("uint256 locked,uint256 minted", [0; 20], true),
    };
    let raw = tx.sign(&Signer::from_hex(&key_text()).ok().unwrap()).unwrap();
    let sent = asked.iter().find(|q| q.method == "eth_sendRawTransaction").unwrap();
    assert_eq!(sent.params.render(), format!("[\"{}\"]", to_hex_0x(&raw)));
}

#[test]
fn late_replies_change_nothing() {
    let input = job("dry_run", CHAIN, &body(BALANCE, "uint256 held"));
    let mut session = Session::new(input, env());
    loop {
        match session.step() {
            Step::Post(q) => session.answer(node(&q)),
            Step::Finished(text) => {
                session.answer(Reply::NotSent("late".to_string()));
                assert!(matches!(session.step(), Step::Finished(again) if again == text));
                return;
            }
        }
    }
}

fn complaint(input: &str) -> String {
    error_of(&play(input, env(), node).1)
}

#[test]
fn jobs_that_cannot_be_read() {
    assert_eq!(
        complaint("  "),
        "input is not valid JSON: EOF while parsing a value at line 1 column 0"
    );
    assert_eq!(complaint("{}"), "missing \"chain\"");
    assert_eq!(complaint("7"), "missing \"chain\"");
    assert_eq!(complaint("{\"chain\":{}}"), "rpcs must be an array");
    assert_eq!(
        complaint("{\"chain\":{\"rpcs\":[]}}"),
        "chain.rpcs must list at least one RPC (several for a real quorum)"
    );
    assert_eq!(complaint("{\"chain\":{\"rpcs\":[\"https://a\"]},\"mode\":\"x\"}"), "unknown mode: x");
    assert!(complaint("{\"chain\":{\"network\":\"x\"}}").starts_with("unknown network \"x\""));
}

#[test]
fn attestations_that_cannot_be_planned() {
    let chain = "{\"rpcs\":[\"https://a\"]}";
    let why = |rest: &str| complaint(&job("attest", chain, rest));
    assert_eq!(why("\"x\":1"), "missing \"schema\"");
    assert_eq!(
        why("\"schema\":{}"),
        "schema.definition is required (e.g. \"uint256 locked,uint256 minted\")"
    );
    assert_eq!(why("\"schema\":{\"definition\":\"\"}"), "schema definition is empty");
    assert_eq!(why("\"schema\":{\"definition\":\"bool a\"}"), "missing \"collect\" array");
    assert_eq!(
        why("\"schema\":{\"definition\":\"bool a\"},\"collect\":[]"),
        "schema has 1 fields but collect has 0 items — they map one-to-one, in order"
    );
}

#[test]
fn attestations_that_cannot_be_made() {
    let why = |chain: &str, collect: &str, schema: &str| {
        let rest = format!("\"schema\":{},\"collect\":[{}],\"min_agree\":1", schema, collect);
        complaint(&job("attest", chain, &rest))
    };
    let uid = format!("\"uid\":\"0x{}\"", "ab".repeat(32));
    let schema = format!("{{\"definition\":\"uint64 a\",{}}}", uid);
    let at = "{\"type\":\"block_number\"}";
    let chain = "{\"rpcs\":[\"https://a\"],\"eas\":\"0x4200000000000000000000000000000000000021\"}";
    let empty = "{\"type\":\"block_number\",\"rpcs\":[]}";
    assert_eq!(why(chain, empty, &schema), "collect field \"a\" has an empty rpcs list");
    let unlisted = "{\"type\":\"block_number\",\"rpcs\":1}";
    assert_eq!(why(chain, unlisted, &schema), "rpcs must be an array");
    assert_eq!(why(chain, "{}", &schema), "collect item missing \"type\"");
    assert_eq!(
        why(chain, at, "{\"definition\":\"uint64 a\",\"uid\":\"0x0\"}"),
        "schema.uid is required for attest (register the schema first)"
    );
    assert_eq!(
        why(chain, at, "{\"definition\":\"uint64 a\",\"uid\":\"0x12\"}"),
        "expected 32 bytes, got 1 bytes"
    );
    let bad = format!("{{\"definition\":\"uint64 a\",\"recipient\":\"0x12\",{}}}", uid);
    assert_eq!(why(chain, at, &bad), "expected 20-byte address, got 1 bytes");
    let bad = format!("{{\"definition\":\"uint64 a\",\"ref_uid\":\"0x12\",{}}}", uid);
    assert_eq!(why(chain, at, &bad), "expected 32 bytes, got 1 bytes");
    assert_eq!(why("{\"rpcs\":[\"https://a\"]}", at, &schema), "chain.eas address is required");
    let bad = format!("{{\"definition\":\"int8 a\",{}}}", uid);
    assert_eq!(why(chain, at, &bad), "unsupported schema type: int8");
    let rest = format!("\"schema\":{},\"collect\":[{}],\"key_env\":\"NO\"", schema, at);
    assert_eq!(
        complaint(&job("attest", chain, &rest)),
        "attest mode needs a signing key (set key_env to a funded secret)"
    );
}

#[test]
fn registrations_that_cannot_be_made() {
    let why = |chain: &str, rest: &str| complaint(&job("register_schema", chain, rest));
    let chain = "{\"rpcs\":[\"https://a\"]}";
    assert_eq!(why(chain, "\"x\":1"), "missing \"schema\"");
    assert_eq!(why(chain, "\"schema\":{}"), "schema.definition is required");
    let schema = "\"schema\":{\"definition\":\"bool a\"}";
    assert_eq!(why(chain, schema), "chain.schema_registry address is required");
    assert_eq!(
        why(CHAIN, &format!("{},\"key_env\":\"NO\"", schema)),
        "secret env var \"NO\" is not set for this execution"
    );
}

#[test]
fn a_refused_broadcast_is_reported() {
    let input = job("attest", CHAIN, &body(BALANCE, "uint256 held"));
    let (_, v) = play(&input, env(), |q| {
        if q.method == "eth_sendRawTransaction" {
            Reply::Answered {
                status: 200,
                body: Ok(b"{\"error\":{\"message\":\"nonce too low\"}}".to_vec()),
            }
        } else {
            node(q)
        }
    });
    assert_eq!(
        error_of(&v),
        "no RPC accepted the transaction: https://a: RPC error: {\"message\":\"nonce too low\"}; https://b/t0k: RPC error: {\"message\":\"nonce too low\"}"
    );
}

#[test]
fn failures_are_printed_as_json() {
    assert_eq!(failure("no \"x\""), "{\"error\":\"no \\\"x\\\"\",\"success\":false}");
}
