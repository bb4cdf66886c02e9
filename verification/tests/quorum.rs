use eas_attestor::json::{parse, Json};
use eas_attestor::rpc::{
    accepted, agree, block_number_behind_head, chain_id, estimate_gas, fees, highest, parse_u128_hex,
    parse_u64_hex, pending_nonce, post, quorum_read, read_answer, read_number, read_reply, send_raw,
    Reading,
};
use eas_attestor::tape::{Halt, Reply, Tape};

fn rpcs(n: usize) -> Vec<String> {
    (0..n).map(|i| format!("https://rpc{}", i)).collect()
}

fn text(s: &str) -> Result<Json, String> {
    Ok(Json::text(s))
}

fn result(json: &str) -> Reply {
    let body = format!("{{\"jsonrpc\":\"2.0\",\"id\":1,\"result\":{}}}", json);
    Reply::Answered { status: 200, body: Ok(body.into_bytes()) }
}

fn broken() -> Reply {
    Reply::Answered { status: 503, body: Ok(vec![]) }
}

fn failure<T>(r: Result<T, Halt>) -> String {
    match r {
        Err(Halt::Fail(e)) => e,
        _ => panic!("expected a failure"),
    }
}

fn asked<T>(r: Result<T, Halt>) -> (String, String) {
    match r {
        Err(Halt::Ask(q)) => (q.url.clone(), q.body()),
        _ => panic!("expected a request"),
    }
}

#[test]
fn replies_are_read() {
    let url = "https://x";
    assert_eq!(read_reply(url, &result("\"0x1\"")).unwrap().render(), "\"0x1\"");
    let why = |r: Reply| read_reply(url, &r).err().unwrap();
    assert_eq!(why(Reply::NotSent("refused".to_string())), "https://x: refused");
    assert_eq!(why(broken()), "https://x: HTTP 503");
    assert_eq!(why(Reply::Answered { status: 199, body: Ok(vec![]) }), "https://x: HTTP 199");
    assert_eq!(why(Reply::Answered { status: 300, body: Ok(vec![]) }), "https://x: HTTP 300");
    assert_eq!(
        why(Reply::Answered { status: 299, body: Err("cut".to_string()) }),
        "https://x: cut"
    );
    assert_eq!(
        why(Reply::Answered { status: 200, body: Ok(b"nope".to_vec()) }),
        "https://x: malformed JSON: expected ident at line 1 column 2"
    );
    let odd = parse(b"{\"error\":{\"code\":-32000,\"b\":1},\"result\":1}").unwrap();
    assert_eq!(
        read_answer(url, &odd).err().unwrap(),
        "https://x: RPC error: {\"b\":1,\"code\":-32000}"
    );
    assert_eq!(
        read_answer(url, &Json::object()).err().unwrap(),
        "https://x: response had no result"
    );
}

#[test]
fn a_request_is_asked_until_its_reply_is_there() {
    let mut tape = Tape::new(&[]);
    let params = Json::texts(&["a".to_string()]);
    let (url, body) = asked(post(&mut tape, "https://x", "m", &params));
    assert_eq!(url, "https://x");
    assert_eq!(body, "{\"id\":1,\"jsonrpc\":\"2.0\",\"method\":\"m\",\"params\":[\"a\"]}");
    let replies = [result("7")];
    let mut tape = Tape::new(&replies);
    assert_eq!(post(&mut tape, "https://x", "m", &params).ok().unwrap().as_u64(), Some(7));
    asked(post(&mut tape, "https://x", "m", &params));
}

#[test]
fn quantities() {
    assert_eq!(parse_u64_hex(&Json::text("0x1f")).unwrap(), 31);
    assert_eq!(parse_u64_hex(&Json::text("1F")).unwrap(), 31);
    assert_eq!(parse_u64_hex(&Json::text("0x0x+10")).unwrap(), 16);
    assert_eq!(parse_u64_hex(&Json::text("0xffffffffffffffff")).unwrap(), u64::MAX);
    let why = |s: &str| parse_u64_hex(&Json::text(s)).unwrap_err();
    assert_eq!(
        why("0x10000000000000000"),
        "bad hex 0x10000000000000000: number too large to fit in target type"
    );
    assert_eq!(why("0x"), "bad hex 0x: cannot parse integer from empty string");
    assert_eq!(why("0xg"), "bad hex 0xg: invalid digit found in string");
    assert_eq!(why("+"), "bad hex +: invalid digit found in string");
    assert_eq!(parse_u64_hex(&Json::number(5)).unwrap_err(), "expected hex string, got 5");
    assert_eq!(parse_u128_hex(&"f".repeat(32)).unwrap(), u128::MAX);
    assert!(parse_u128_hex(&"f".repeat(33)).unwrap_err().ends_with("fit in target type"));
}

#[test]
fn the_most_frequent_answer_wins() {
    let (value, agreed) = agree(
        &rpcs(3),
        "eth_call",
        9,
        2,
        &[text("0xaB"), text("0x01"), text("0xAb")],
    )
    .unwrap();
    assert_eq!(value, "0xab");
    assert_eq!(agreed, vec!["https://rpc0", "https://rpc2"]);
}

#[test]
fn of_equally_frequent_answers_the_first_wins() {
    let (value, agreed) =
        agree(&rpcs(4), "m", 0, 2, &[text("b"), text("a"), text("a"), text("b")]).unwrap();
    assert_eq!(value, "b");
    assert_eq!(agreed, vec!["https://rpc0", "https://rpc3"]);
}

#[test]
fn too_little_agreement_is_refused() {
    let e = agree(
        &rpcs(4),
        "eth_getCode",
        31,
        3,
        &[text("0x1"), text("0x2"), Err("https://rpc2: down".to_string()), Ok(Json::number(7))],
    )
    .unwrap_err();
    assert_eq!(
        e,
        "only 1 of 4 RPCs agreed on eth_getCode at block 31 (needed 3). Disagreed: https://rpc1 said 0x2. Unusable: https://rpc2: down; https://rpc3: non-string result 7"
    );
    let e = agree(&rpcs(1), "m", 0, 2, &[text("x")]).unwrap_err();
    assert_eq!(
        e,
        "only 1 of 1 RPCs agreed on m at block 0 (needed 2). Disagreed: none. Unusable: none"
    );
}

#[test]
fn no_usable_answer_is_refused_even_without_a_threshold() {
    let e = agree(&rpcs(2), "m", 0, 0, &[Ok(Json::Null), Err("down".to_string())]).unwrap_err();
    assert_eq!(
        e,
        "no RPC returned a usable m result: https://rpc0: non-string result null; down"
    );
    assert!(agree(&rpcs(1), "m", 0, 0, &[text("x")]).is_ok());
}

#[test]
fn quorum_reads_ask_every_rpc_at_the_pinned_block() {
    let head = Json::texts(&["0xaa".to_string()]);
    let mut tape = Tape::new(&[]);
    let (url, body) = asked(quorum_read(&mut tape, &rpcs(2), "eth_getBalance", head.clone(), 255, 2));
    assert_eq!(url, "https://rpc0");
    assert_eq!(
        body,
        "{\"id\":1,\"jsonrpc\":\"2.0\",\"method\":\"eth_getBalance\",\"params\":[\"0xaa\",\"0xff\"]}"
    );
    let replies = [result("\"0x5\"")];
    let mut tape = Tape::new(&replies);
    let (url, _) = asked(quorum_read(&mut tape, &rpcs(2), "eth_getBalance", head.clone(), 255, 2));
    assert_eq!(url, "https://rpc1");
    let replies = [result("\"0x5\""), result("\"0X5\"")];
    let mut tape = Tape::new(&replies);
    let (value, agreed) = quorum_read(&mut tape, &rpcs(2), "m", head, 255, 2).ok().unwrap();
    assert_eq!(value, "0x5");
    assert_eq!(agreed.len(), 2);
}

#[test]
fn parameters_that_are_no_list_are_passed_over() {
    let mut tape = Tape::new(&[]);
    let (_, body) = asked(quorum_read(&mut tape, &rpcs(1), "m", Json::Null, 0, 1));
    assert!(body.ends_with("\"params\":[\"0x0\"]}"));
}

#[test]
fn the_highest_answer_counts() {
    let n = highest(
        &rpcs(3),
        &[text("0x5"), Err("down".to_string()), text("0x9")],
        "none: ",
    );
    assert_eq!(n.unwrap(), 9);
    let e = highest(&rpcs(2), &[text("zz"), Err("down".to_string())], "none: ").unwrap_err();
    assert_eq!(e, "none: https://rpc0: bad hex zz: invalid digit found in string; down");
}

#[test]
fn blocks_are_taken_behind_the_head() {
    let replies = [result("\"0x10\""), result("\"0x12\"")];
    let mut tape = Tape::new(&replies);
    assert_eq!(block_number_behind_head(&mut tape, &rpcs(2), 4).ok().unwrap(), 14);
    let mut tape = Tape::new(&replies);
    assert_eq!(block_number_behind_head(&mut tape, &rpcs(2), 100).ok().unwrap(), 0);
    let replies = [broken()];
    let mut tape = Tape::new(&replies);
    assert_eq!(
        failure(block_number_behind_head(&mut tape, &rpcs(1), 4)),
        "no RPC returned a block number: https://rpc0: HTTP 503"
    );
}

#[test]
fn the_highest_nonce_is_used() {
    let replies = [result("\"0x7\""), result("\"0x6\"")];
    let mut tape = Tape::new(&replies);
    assert_eq!(pending_nonce(&mut tape, &rpcs(2), &[1; 20]).ok().unwrap(), 7);
    let mut tape = Tape::new(&[]);
    let (_, body) = asked(pending_nonce(&mut tape, &rpcs(2), &[1; 20]));
    assert!(body.contains(&format!("[\"0x{}\",\"pending\"]", "01".repeat(20))));
    let replies = [broken()];
    let mut tape = Tape::new(&replies);
    assert!(failure(pending_nonce(&mut tape, &rpcs(1), &[1; 20]))
        .starts_with("no RPC returned a nonce: "));
}

#[test]
fn the_first_readable_answer_is_taken() {
    let replies = [broken(), result("5"), result("\"0x2105\"")];
    let mut tape = Tape::new(&replies);
    assert_eq!(chain_id(&mut tape, &rpcs(3)).ok().unwrap(), 8453);
    let replies = [broken(), result("5")];
    let mut tape = Tape::new(&replies);
    assert_eq!(
        failure(chain_id(&mut tape, &rpcs(2))),
        "https://rpc0: HTTP 503; expected hex string, got 5"
    );
}

#[test]
fn fees_come_from_the_latest_block() {
    let block = result("{\"baseFeePerGas\":\"0x64\"}");
    let replies = [result("{}"), block, result("1"), result("\"0x3\"")];
    let mut tape = Tape::new(&replies);
    assert_eq!(fees(&mut tape, &rpcs(2)).ok().unwrap(), (100, 3));
    let mut tape = Tape::new(&[]);
    let (_, body) = asked(fees(&mut tape, &rpcs(2)));
    assert!(body.contains("\"params\":[\"latest\",false]"));
}

#[test]
fn a_missing_priority_fee_is_replaced() {
    let replies = [result("{\"baseFeePerGas\":\"0x64\"}"), broken()];
    let mut tape = Tape::new(&replies);
    assert_eq!(fees(&mut tape, &rpcs(1)).ok().unwrap(), (100, 50_000_000));
    let replies = [result("{}")];
    let mut tape = Tape::new(&replies);
    assert_eq!(failure(fees(&mut tape, &rpcs(1))), "https://rpc0: block has no baseFeePerGas");
    let v = Json::number(1);
    assert_eq!(read_number(Reading::Amount, "r", &v).unwrap_err(), "non-string");
}

#[test]
fn gas_is_estimated_for_the_call() {
    let mut tape = Tape::new(&[]);
    let (_, body) = asked(estimate_gas(&mut tape, &rpcs(1), &[1; 20], &[2; 20], &[0xab]));
    let want = format!(
        "\"params\":[{{\"data\":\"0xab\",\"from\":\"0x{}\",\"to\":\"0x{}\"}}]",
        "01".repeat(20),
        "02".repeat(20)
    );
    assert!(body.contains(&want));
    let replies = [result("\"0x5208\"")];
    let mut tape = Tape::new(&replies);
    assert_eq!(estimate_gas(&mut tape, &rpcs(1), &[1; 20], &[2; 20], &[]).ok().unwrap(), 21000);
}

#[test]
fn a_broadcast_needs_one_acceptance() {
    let replies = [broken(), result("\"0xaa\""), result("\"0xbb\""), result("null")];
    let mut tape = Tape::new(&replies);
    assert_eq!(send_raw(&mut tape, &rpcs(4), &[2, 1]).ok().unwrap(), "0xbb");
    assert_eq!(
        accepted(&[Err("a".to_string()), Ok(Json::Null), Err("b".to_string())]).unwrap_err(),
        "no RPC accepted the transaction: a; b"
    );
    let mut tape = Tape::new(&[]);
    let (_, body) = asked(send_raw(&mut tape, &rpcs(1), &[2, 1]));
    assert!(body.contains("\"method\":\"eth_sendRawTransaction\",\"params\":[\"0x0201\"]"));
}
