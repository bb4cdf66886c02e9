//! What goes over the wire: which request is put to which RPC, and what a reply is read as.

use vstd::prelude::*;

use crate::abi::{all_digits, digits_value, hex_0x};
use crate::guarantees::answers_in;
use crate::json::{json_parsed, json_text, member, JsonModel};
use crate::rpc::{
    accepted_hash, agreement, at_block, backers, block_run, chain_id_run, complaints_upto,
    dissent_upto, errors_upto, fees_run, first_ok_run, gas_run, hex_amount, is_quantity,
    last_text_upto, law_block_tag, law_highest_is_maximal, leader_upto,
    lemma_backers_are_votes, lemma_hex_number_push, nonce_run, polled, posted, quantity_in,
    quorum_run, read_in, reply_value, said_upto, says, send_run, unusable_upto, votes, votes_upto,
    Reading, SaidModel, CONNECT_TIMEOUT_SECS, USER_AGENT,
};
use crate::tape::{envelope, ReplyModel, RequestModel, Run};
use crate::text::{
    decimal_text, has_0x, hex_digit, hex_number_from, joined, lower_case, numeral, without_all_0x,
};

verus! {

// ---- one request, one reply -----------------------------------------------------------

/// What is sent for a request is a JSON-RPC 2.0 object with its method and its parameters, and nothing
/// else.
pub proof fn law_envelope(q: RequestModel)
    ensures
        member(envelope(q), "jsonrpc"@) == Some(JsonModel::Str("2.0"@)),
        member(envelope(q), "id"@) == Some(JsonModel::Unsigned(1)),
        member(envelope(q), "method"@) == Some(JsonModel::Str(q.method)),
        member(envelope(q), "params"@) == Some(q.params),
        forall|key: Seq<char>| (#[trigger] member(envelope(q), key)) is Some ==> key == "jsonrpc"@
            || key == "id"@ || key == "method"@ || key == "params"@,
{
    reveal_strlit("jsonrpc");
    reveal_strlit("id");
    reveal_strlit("method");
    reveal_strlit("params");
    assert("jsonrpc"@.len() == 7 && "id"@.len() == 2 && "method"@.len() == 6 && "params"@.len()
        == 6);
    assert("method"@[0] == 'm' && "params"@[0] == 'p');
}

/// Does the reply hold the result `v`? It must be an answer with a status from 200 to 299 whose body
/// is a JSON object with the member `result` and without the member `error`.
pub open spec fn holds_result(reply: ReplyModel, v: JsonModel) -> bool {
    match reply {
        ReplyModel::Answered { status, body: Ok(b) } => 200 <= status <= 299 && match json_parsed(
            b,
        ) {
            Ok(answer) => member(answer, "error"@) is None && member(answer, "result"@) == Some(v),
            Err(_) => false,
        },
        _ => false,
    }
}

/// A reply counts exactly where it holds a result, and then as that result.
pub proof fn law_reply(url: Seq<char>, reply: ReplyModel)
    ensures
        match reply_value(url, reply) {
            Ok(v) => holds_result(reply, v),
            Err(_) => forall|v: JsonModel| !#[trigger] holds_result(reply, v),
        },
{
}

/// A request is asked where no reply has come in; else its reply is the first.
pub proof fn law_posted(q: RequestModel, replies: Seq<ReplyModel>)
    ensures
        match posted(q, replies) {
            Run::Ask(asked) => replies.len() == 0 && asked == q,
            Run::Done { value, rest } => {
                &&& replies.len() > 0
                &&& rest == replies.skip(1)
                &&& value == reply_value(q.url, replies[0])
            },
        },
{
}

/// A request to every RPC goes to each of them in turn, and the `i`th reply is the `i`th RPC's.
pub proof fn law_polled(
    rpcs: Seq<Seq<char>>,
    method: Seq<char>,
    params: JsonModel,
    replies: Seq<ReplyModel>,
)
    ensures
        match polled(rpcs, method, params, replies) {
            Run::Ask(q) => {
                &&& replies.len() < rpcs.len()
                &&& q.url == rpcs[replies.len() as int]
                &&& q.method == method
                &&& q.params == params
            },
            Run::Done { value: Ok(answers), rest } => {
                &&& replies.len() >= rpcs.len()
                &&& answers.len() == rpcs.len()
                &&& forall|i: int|
                    0 <= i < rpcs.len() ==> #[trigger] answers[i] == reply_value(
                        rpcs[i],
                        replies[i],
                    )
                &&& rest == replies.skip(rpcs.len() as int)
            },
            Run::Done { value: Err(_), .. } => false,
        },
{
}

// ---- numbers --------------------------------------------------------------------------

proof fn lemma_hex_number(s: Seq<char>, max: nat)
    ensures
        match hex_number_from(0, s, max) {
            Ok(n) => all_digits(s) && digits_value(s) == n && n <= max,
            Err(_) => !all_digits(s) || digits_value(s) > max,
        },
    decreases s.len(),
{
    if s.len() > 0 {
        let f = s.drop_last();
        let c = s.last();
        let one = seq![c];
        lemma_hex_number(f, max);
        lemma_hex_number_push(0, f, c, max);
        assert(f.push(c) =~= s);
        assert(one.skip(1) =~= Seq::<char>::empty());
        if all_digits(s) {
            assert forall|i: int| 0 <= i < f.len() implies #[trigger] hex_digit(f[i]) is Some by {
                assert(hex_digit(s[i]) is Some);
            }
            assert(hex_digit(s[s.len() - 1]) is Some);
        }
        if all_digits(f) && hex_digit(c) is Some {
            assert forall|i: int| 0 <= i < s.len() implies #[trigger] hex_digit(s[i]) is Some by {
                if i < f.len() {
                    assert(hex_digit(f[i]) is Some);
                }
            }
        }
        if let Ok(v) = hex_number_from(0, f, max) {
            if let Some(d) = hex_digit(c) {
                if v * 16 + d <= max {
                    assert(hex_number_from(v * 16 + d, one.skip(1), max) == Ok::<nat, Seq<char>>(
                        v * 16 + d,
                    ));
                }
            }
        }
    }
}

/// A hexadecimal amount is the number that its digits spell, with or without `0x` in front; it is
/// refused exactly where a character is no digit or the number is too large. (A sign in front is left
/// out here.)
pub proof fn law_amount(d: Seq<char>, max: nat)
    requires
        d.len() > 0,
        d[0] != '+',
        !(d.len() >= 2 && d[0] == '0' && d[1] == 'x'),
    ensures
        match hex_amount(d, max) {
            Ok(n) => all_digits(d) && digits_value(d) == n && n <= max,
            Err(_) => !all_digits(d) || digits_value(d) > max,
        },
        match hex_amount("0x"@ + d, max) {
            Ok(n) => all_digits(d) && digits_value(d) == n && n <= max,
            Err(_) => !all_digits(d) || digits_value(d) > max,
        },
{
    reveal_strlit("0x");
    let t = "0x"@ + d;
    assert(t.skip(2) =~= d);
    assert(has_0x(t));
    assert(without_all_0x(d) == d);
    assert(without_all_0x(t) == d);
    lemma_hex_number(d, max);
}

/// What number each kind of answer tells: a text that spells a number below 2^64, one below 2^128, or
/// the text under `baseFeePerGas` in a block.
pub proof fn law_read_in(rpc: Seq<char>, v: JsonModel, n: nat)
    ensures
        read_in(Reading::Quantity, rpc, v) == Ok::<nat, Seq<char>>(n) <==> match v {
            JsonModel::Str(s) => hex_amount(s, 0xffff_ffff_ffff_ffff) == Ok::<nat, Seq<char>>(n),
            _ => false,
        },
        read_in(Reading::Amount, rpc, v) == Ok::<nat, Seq<char>>(n) <==> match v {
            JsonModel::Str(s) => hex_amount(s, 0xffff_ffff_ffff_ffff_ffff_ffff_ffff_ffff) == Ok::<
                nat,
                Seq<char>,
            >(n),
            _ => false,
        },
        read_in(Reading::BaseFee, rpc, v) == Ok::<nat, Seq<char>>(n) <==> match member(
            v,
            "baseFeePerGas"@,
        ) {
            Some(JsonModel::Str(s)) => hex_amount(s, 0xffff_ffff_ffff_ffff_ffff_ffff_ffff_ffff)
                == Ok::<nat, Seq<char>>(n),
            _ => false,
        },
{
}

/// Does the `i`th reply, which is the `i`th RPC's, tell the number `n`?
pub open spec fn tells(
    rpcs: Seq<Seq<char>>,
    reading: Reading,
    replies: Seq<ReplyModel>,
    i: int,
    n: nat,
) -> bool {
    0 <= i < rpcs.len() && i < replies.len() && match reply_value(rpcs[i], replies[i]) {
        Ok(v) => read_in(reading, rpcs[i], v) == Ok::<nat, Seq<char>>(n),
        Err(_) => false,
    }
}

/// Do none of the first `k` replies tell a number?
pub open spec fn silent(
    rpcs: Seq<Seq<char>>,
    reading: Reading,
    replies: Seq<ReplyModel>,
    k: int,
) -> bool {
    forall|j: int, m: nat| j < k ==> !#[trigger] tells(rpcs, reading, replies, j, m)
}

/// Is `n` the number that the `i`th reply tells, and do those before it tell none?
pub open spec fn first_to_tell(
    rpcs: Seq<Seq<char>>,
    reading: Reading,
    replies: Seq<ReplyModel>,
    i: int,
    n: nat,
) -> bool {
    tells(rpcs, reading, replies, i, n) && silent(rpcs, reading, replies, i)
}

proof fn lemma_tells_later(
    rpcs: Seq<Seq<char>>,
    reading: Reading,
    replies: Seq<ReplyModel>,
    i: int,
    n: nat,
)
    requires
        rpcs.len() > 0,
        replies.len() > 0,
        i >= 0,
    ensures
        tells(rpcs.skip(1), reading, replies.skip(1), i, n) == tells(
            rpcs,
            reading,
            replies,
            i + 1,
            n,
        ),
{
}

/// Where one answer is enough, the RPCs are asked in turn until one tells the number, and that is the
/// one that counts.
pub proof fn law_first_ok(
    rpcs: Seq<Seq<char>>,
    method: Seq<char>,
    params: JsonModel,
    reading: Reading,
    replies: Seq<ReplyModel>,
    errors: Seq<Seq<char>>,
)
    ensures
        match first_ok_run(rpcs, method, params, reading, replies, errors) {
            Run::Ask(q) => {
                &&& replies.len() < rpcs.len()
                &&& q.url == rpcs[replies.len() as int]
                &&& q.method == method
                &&& q.params == params
                &&& silent(rpcs, reading, replies, replies.len() as int)
            },
            Run::Done { value: Ok(n), rest } => exists|i: int|
                {
                    &&& #[trigger] first_to_tell(rpcs, reading, replies, i, n)
                    &&& rest == replies.skip(i + 1)
                },
            Run::Done { value: Err(_), rest } => {
                &&& replies.len() >= rpcs.len()
                &&& silent(rpcs, reading, replies, rpcs.len() as int)
                &&& rest == replies.skip(rpcs.len() as int)
            },
        },
    decreases rpcs.len(),
{
    let run = first_ok_run(rpcs, method, params, reading, replies, errors);
    if rpcs.len() == 0 {
        assert(replies.skip(0) =~= replies);
    } else if replies.len() > 0 {
        let read = match reply_value(rpcs[0], replies[0]) {
            Ok(v) => read_in(reading, rpcs[0], v),
            Err(e) => Err(e),
        };
        match read {
            Ok(n) => {
                assert(tells(rpcs, reading, replies, 0, n));
                assert(first_to_tell(rpcs, reading, replies, 0, n));
            },
            Err(e) => {
                let r = rpcs.skip(1);
                let t = replies.skip(1);
                law_first_ok(r, method, params, reading, t, errors.push(e));
                assert forall|m: nat| !#[trigger] tells(rpcs, reading, replies, 0, m) by {}
                assert forall|k: int| silent(r, reading, t, k) implies #[trigger] silent(
                    rpcs,
                    reading,
                    replies,
                    k + 1,
                ) by {
                    assert forall|j: int, m: nat| j < k + 1 implies !#[trigger] tells(
                        rpcs,
                        reading,
                        replies,
                        j,
                        m,
                    ) by {
                        if j > 0 {
                            lemma_tells_later(rpcs, reading, replies, j - 1, m);
                            assert(!tells(r, reading, t, j - 1, m));
                        }
                    }
                }
                match run {
                    Run::Ask(q) => {
                        assert(silent(r, reading, t, t.len() as int));
                        assert(silent(rpcs, reading, replies, t.len() as int + 1));
                    },
                    Run::Done { value: Ok(n), rest } => {
                        let i = choose|i: int|
                            {
                                &&& #[trigger] first_to_tell(r, reading, t, i, n)
                                &&& rest == t.skip(i + 1)
                            };
                        assert(tells(r, reading, t, i, n));
                        lemma_tells_later(rpcs, reading, replies, i, n);
                        assert(silent(rpcs, reading, replies, i + 1));
                        assert(first_to_tell(rpcs, reading, replies, i + 1, n));
                        assert(rest =~= replies.skip(i + 2));
                    },
                    Run::Done { value: Err(_), rest } => {
                        assert(silent(r, reading, t, r.len() as int));
                        assert(silent(rpcs, reading, replies, r.len() as int + 1));
                        assert(rest =~= replies.skip(rpcs.len() as int));
                    },
                }
            },
        }
    }
}

// ---- what a transaction takes ---------------------------------------------------------

/// The chain's id is asked for with `eth_chainId`, and is what the first RPC that tells one tells.
pub proof fn law_chain_id_asked(rpcs: Seq<Seq<char>>, replies: Seq<ReplyModel>)
    ensures
        match chain_id_run(rpcs, replies) {
            Run::Ask(q) => {
                &&& replies.len() < rpcs.len()
                &&& q.url == rpcs[replies.len() as int]
                &&& q.method == "eth_chainId"@
                &&& q.params == JsonModel::Array(Seq::empty())
            },
            Run::Done { value: Ok(n), rest } => exists|i: int|
                {
                    &&& #[trigger] first_to_tell(rpcs, Reading::Quantity, replies, i, n)
                    &&& rest == replies.skip(i + 1)
                },
            Run::Done { value: Err(_), .. } => silent(
                rpcs,
                Reading::Quantity,
                replies,
                rpcs.len() as int,
            ),
        },
{
    law_first_ok(
        rpcs,
        "eth_chainId"@,
        JsonModel::Array(Seq::empty()),
        Reading::Quantity,
        replies,
        Seq::empty(),
    );
}

/// The nonce is asked for with the address and the word `pending`, of every RPC, and is the highest
/// number that any of them tells.
pub proof fn law_nonce_asked(
    rpcs: Seq<Seq<char>>,
    address: Seq<u8>,
    replies: Seq<ReplyModel>,
)
    ensures
        match nonce_run(rpcs, address, replies) {
            Run::Ask(q) => {
                &&& replies.len() < rpcs.len()
                &&& q.url == rpcs[replies.len() as int]
                &&& q.method == "eth_getTransactionCount"@
                &&& q.params == JsonModel::Array(
                    seq![JsonModel::Str(hex_0x(address)), JsonModel::Str("pending"@)],
                )
            },
            Run::Done { value: Ok(n), rest } => {
                &&& replies.len() >= rpcs.len()
                &&& rest == replies.skip(rpcs.len() as int)
                &&& exists|i: int| #[trigger] is_quantity(answers_in(rpcs, replies), i, n)
                &&& forall|i: int, q: nat| #[trigger]
                    is_quantity(answers_in(rpcs, replies), i, q) ==> q <= n
            },
            Run::Done { value: Err(_), .. } => forall|i: int, q: nat|
                !#[trigger] is_quantity(answers_in(rpcs, replies), i, q),
        },
{
    let answers = answers_in(rpcs, replies);
    law_highest_is_maximal(rpcs, answers, "no RPC returned a nonce: "@);
    if let Run::Ask(q) = nonce_run(rpcs, address, replies) {
        assert(q.params->Array_0 =~= seq![
            JsonModel::Str(hex_0x(address)),
            JsonModel::Str("pending"@),
        ]);
    }
}

/// Is this the priority fee that the first RPC to suggest one suggests, or 50,000,000 wei where none
/// does?
pub open spec fn suggested(
    rpcs: Seq<Seq<char>>,
    replies: Seq<ReplyModel>,
    priority: nat,
) -> bool {
    ||| exists|j: int| #[trigger] first_to_tell(rpcs, Reading::Amount, replies, j, priority)
    ||| priority == 50_000_000 && silent(rpcs, Reading::Amount, replies, rpcs.len() as int)
}

/// Is the base fee the one in the first block that an RPC tells, and the priority fee the first
/// suggestion after it?
pub open spec fn fees_told(
    rpcs: Seq<Seq<char>>,
    replies: Seq<ReplyModel>,
    base: nat,
    priority: nat,
) -> bool {
    exists|i: int|
        {
            &&& #[trigger] first_to_tell(rpcs, Reading::BaseFee, replies, i, base)
            &&& suggested(rpcs, replies.skip(i + 1), priority)
        }
}

/// The fees are those of the latest block and of the RPCs' own suggestion: the base fee stands in the
/// block that the first RPC to tell one gives; the priority fee is the first suggestion after it, or
/// 50,000,000 wei if there is none.
pub proof fn law_fees_asked(rpcs: Seq<Seq<char>>, replies: Seq<ReplyModel>)
    ensures
        match fees_run(rpcs, replies) {
            Run::Ask(q) => {
                &&& rpcs.contains(q.url)
                &&& {
                    ||| q.method == "eth_getBlockByNumber"@ && q.params == JsonModel::Array(
                        seq![JsonModel::Str("latest"@), JsonModel::Bool(false)],
                    ) && silent(rpcs, Reading::BaseFee, replies, replies.len() as int)
                    ||| q.method == "eth_maxPriorityFeePerGas"@ && q.params == JsonModel::Array(
                        Seq::empty(),
                    )
                }
            },
            Run::Done { value: Ok((base, priority)), .. } => fees_told(
                rpcs,
                replies,
                base,
                priority,
            ),
            Run::Done { value: Err(_), .. } => silent(
                rpcs,
                Reading::BaseFee,
                replies,
                rpcs.len() as int,
            ),
        },
{
    let latest = JsonModel::Array(seq![JsonModel::Str("latest"@), JsonModel::Bool(false)]);
    let none = JsonModel::Array(Seq::<JsonModel>::empty());
    let e = Seq::<Seq<char>>::empty();
    let block = "eth_getBlockByNumber"@;
    let tip = "eth_maxPriorityFeePerGas"@;
    law_first_ok(rpcs, block, latest, Reading::BaseFee, replies, e);
    let first = first_ok_run(rpcs, block, latest, Reading::BaseFee, replies, e);
    if let Run::Done { value: Ok(base), rest } = first {
        let i = choose|i: int|
            {
                &&& #[trigger] first_to_tell(rpcs, Reading::BaseFee, replies, i, base)
                &&& rest == replies.skip(i + 1)
            };
        assert(first_to_tell(rpcs, Reading::BaseFee, replies, i, base));
        law_first_ok(rpcs, tip, none, Reading::Amount, rest, e);
        match first_ok_run(rpcs, tip, none, Reading::Amount, rest, e) {
            Run::Ask(q) => {
                assert(q.url == rpcs[rest.len() as int]);
                assert(rpcs.contains(q.url));
                assert(fees_run(rpcs, replies) == Run::<(nat, nat)>::Ask(q));
                assert(q.method == tip && q.params == none);
            },
            Run::Done { value: Ok(priority), rest: end } => {
                let j = choose|j: int| #[trigger]
                    first_to_tell(rpcs, Reading::Amount, rest, j, priority);
                assert(first_to_tell(rpcs, Reading::Amount, rest, j, priority));
                assert(suggested(rpcs, replies.skip(i + 1), priority));
                assert(fees_told(rpcs, replies, base, priority));
                assert(fees_run(rpcs, replies) == Run::<(nat, nat)>::Done {
                    value: Ok((base, priority)),
                    rest: end,
                });
            },
            Run::Done { value: Err(_), rest: end } => {
                assert(suggested(rpcs, replies.skip(i + 1), 50_000_000));
                assert(fees_told(rpcs, replies, base, 50_000_000));
                assert(fees_run(rpcs, replies) == Run::<(nat, nat)>::Done {
                    value: Ok((base, 50_000_000)),
                    rest: end,
                });
            },
        }
    } else if let Run::Ask(q) = first {
        assert(q.url == rpcs[replies.len() as int]);
        assert(rpcs.contains(q.url));
        assert(fees_run(rpcs, replies) == Run::<(nat, nat)>::Ask(q));
    } else {
        assert(silent(rpcs, Reading::BaseFee, replies, rpcs.len() as int));
        assert(fees_run(rpcs, replies) matches Run::Done { value: Err(_), .. });
    }
}

/// The gas is estimated for the very call that is to be sent: from whom, to whom, and with what data.
pub proof fn law_gas_asked(
    rpcs: Seq<Seq<char>>,
    from: Seq<u8>,
    to: Seq<u8>,
    data: Seq<u8>,
    replies: Seq<ReplyModel>,
)
    ensures
        match gas_run(rpcs, from, to, data, replies) {
            Run::Ask(q) => {
                &&& replies.len() < rpcs.len()
                &&& q.url == rpcs[replies.len() as int]
                &&& q.method == "eth_estimateGas"@
                &&& match q.params {
                    JsonModel::Array(items) => {
                        &&& items.len() == 1
                        &&& member(items[0], "from"@) == Some(JsonModel::Str(hex_0x(from)))
                        &&& member(items[0], "to"@) == Some(JsonModel::Str(hex_0x(to)))
                        &&& member(items[0], "data"@) == Some(JsonModel::Str(hex_0x(data)))
                        &&& forall|key: Seq<char>| (#[trigger] member(items[0], key)) is Some
                            ==> key == "from"@ || key == "to"@ || key == "data"@
                    },
                    _ => false,
                }
            },
            Run::Done { value: Ok(n), rest } => exists|i: int|
                {
                    &&& #[trigger] first_to_tell(rpcs, Reading::Quantity, replies, i, n)
                    &&& rest == replies.skip(i + 1)
                },
            Run::Done { value: Err(_), .. } => silent(
                rpcs,
                Reading::Quantity,
                replies,
                rpcs.len() as int,
            ),
        },
{
    reveal_strlit("from");
    reveal_strlit("to");
    reveal_strlit("data");
    assert("from"@.len() == 4 && "to"@.len() == 2 && "data"@.len() == 4);
    assert("from"@[0] == 'f' && "data"@[0] == 'd');
    law_first_ok(
        rpcs,
        "eth_estimateGas"@,
        JsonModel::Array(seq![crate::rpc::call_object(from, to, data)]),
        Reading::Quantity,
        replies,
        Seq::empty(),
    );
}

proof fn lemma_last_text(answers: Seq<Result<JsonModel, Seq<char>>>, n: nat)
    requires
        n <= answers.len(),
    ensures
        match last_text_upto(answers, n) {
            Some(h) => exists|i: int|
                {
                    &&& 0 <= i < n
                    &&& #[trigger] answers[i] == Ok::<JsonModel, Seq<char>>(JsonModel::Str(h))
                    &&& forall|j: int|
                        i < j < n ==> !(#[trigger] answers[j] matches Ok(JsonModel::Str(_)))
                },
            None => forall|j: int|
                0 <= j < n ==> !(#[trigger] answers[j] matches Ok(JsonModel::Str(_))),
        },
    decreases n,
{
    if n > 0 {
        lemma_last_text(answers, (n - 1) as nat);
        if answers[n - 1] matches Ok(JsonModel::Str(_)) {
            assert(answers[n - 1] == answers[n - 1]);
        }
    }
}

/// A broadcast goes to every RPC, and succeeds exactly if one of them answers with a text; the last
/// such text is the transaction's hash.
pub proof fn law_broadcast(rpcs: Seq<Seq<char>>, raw: Seq<u8>, replies: Seq<ReplyModel>)
    ensures
        match send_run(rpcs, raw, replies) {
            Run::Ask(q) => {
                &&& replies.len() < rpcs.len()
                &&& q.url == rpcs[replies.len() as int]
                &&& q.method == "eth_sendRawTransaction"@
                &&& q.params == JsonModel::Array(seq![JsonModel::Str(hex_0x(raw))])
            },
            Run::Done { value: Ok(hash), .. } => {
                let answers = answers_in(rpcs, replies);
                &&& replies.len() >= rpcs.len()
                &&& exists|i: int|
                    {
                        &&& 0 <= i < rpcs.len()
                        &&& #[trigger] answers[i] == Ok::<JsonModel, Seq<char>>(
                            JsonModel::Str(hash),
                        )
                        &&& forall|j: int|
                            i < j < rpcs.len() ==> !(#[trigger] answers[j] matches Ok(
                                JsonModel::Str(_),
                            ))
                    }
            },
            Run::Done { value: Err(_), .. } => {
                let answers = answers_in(rpcs, replies);
                &&& replies.len() >= rpcs.len()
                &&& forall|j: int|
                    0 <= j < rpcs.len() ==> !(#[trigger] answers[j] matches Ok(JsonModel::Str(_)))
            },
        },
{
    let answers = answers_in(rpcs, replies);
    lemma_last_text(answers, answers.len());
    match send_run(rpcs, raw, replies) {
        Run::Ask(q) => {
            assert(q.params->Array_0 =~= seq![JsonModel::Str(hex_0x(raw))]);
        },
        Run::Done { value, .. } => {
            assert(value == accepted_hash(answers));
        },
    }
}

// ---- quorum reads ---------------------------------------------------------------------

/// A quorum read puts one question to every RPC in turn: the method, and the parameters with a tag
/// behind them that spells the block.
pub proof fn law_quorum_asked(
    rpcs: Seq<Seq<char>>,
    method: Seq<char>,
    items: Seq<JsonModel>,
    block: nat,
    min_agree: nat,
    replies: Seq<ReplyModel>,
)
    requires
        block <= u64::MAX,
    ensures
        match quorum_run(rpcs, method, JsonModel::Array(items), block, min_agree, replies) {
            Run::Ask(q) => {
                &&& replies.len() < rpcs.len()
                &&& q.url == rpcs[replies.len() as int]
                &&& q.method == method
                &&& tagged(q.params, items, block)
            },
            Run::Done { .. } => replies.len() >= rpcs.len(),
        },
{
    law_tagged(items, block);
}

/// Are these the parameters `items` with one more behind them, a text that spells the block?
pub open spec fn tagged(params: JsonModel, items: Seq<JsonModel>, block: nat) -> bool {
    match params {
        JsonModel::Array(all) => {
            &&& all.len() == items.len() + 1
            &&& all.drop_last() == items
            &&& match all.last() {
                JsonModel::Str(tag) => {
                    &&& tag.len() > 2
                    &&& tag[0] == '0'
                    &&& tag[1] == 'x'
                    &&& hex_amount(tag, u64::MAX as nat) == Ok::<nat, Seq<char>>(block)
                },
                _ => false,
            }
        },
        _ => false,
    }
}

/// The block tag stands behind the other parameters, and spells the block.
pub proof fn law_tagged(items: Seq<JsonModel>, block: nat)
    requires
        block <= u64::MAX,
    ensures
        tagged(at_block(JsonModel::Array(items), block), items, block),
{
    reveal_strlit("0x");
    law_block_tag(block);
    crate::abi::lemma_numeral_value(block);
    let tag = "0x"@ + numeral(block, 16);
    assert(numeral(block, 16).len() > 0);
    assert(items.push(JsonModel::Str(tag)).drop_last() =~= items);
}

proof fn lemma_voters(answers: Seq<Result<JsonModel, Seq<char>>>, text: Seq<char>, n: nat)
    requires
        n <= answers.len(),
    ensures
        voters(answers, text, n).finite(),
        voters(answers, text, n).len() == votes_upto(answers, text, n),
    decreases n,
{
    if n == 0 {
        assert(voters(answers, text, 0) =~= Set::<int>::empty());
    } else {
        let before = voters(answers, text, (n - 1) as nat);
        lemma_voters(answers, text, (n - 1) as nat);
        if says(answers, n - 1, text) {
            assert(voters(answers, text, n) =~= before.insert(n - 1));
        } else {
            assert(voters(answers, text, n) =~= before);
        }
    }
}

/// Which of the first `n` answers are the text `text`, up to case.
pub open spec fn voters(
    answers: Seq<Result<JsonModel, Seq<char>>>,
    text: Seq<char>,
    n: nat,
) -> Set<int> {
    Set::new(|i: int| i < n && says(answers, i, text))
}

/// The votes for a text are the RPCs that gave it: each counts once.
pub proof fn law_votes(answers: Seq<Result<JsonModel, Seq<char>>>, text: Seq<char>)
    ensures
        voters(answers, text, answers.len()).finite(),
        votes(answers, text) == voters(answers, text, answers.len()).len(),
{
    lemma_voters(answers, text, answers.len());
}

/// The RPCs among the first `n` that gave the text `text`, up to case, in order.
pub open spec fn givers(
    rpcs: Seq<Seq<char>>,
    answers: Seq<Result<JsonModel, Seq<char>>>,
    text: Seq<char>,
    n: nat,
) -> Seq<Seq<char>> {
    Seq::new(n, |i: int| i).filter(|i: int| says(answers, i, text)).map_values(|i: int| rpcs[i])
}

proof fn lemma_givers(
    rpcs: Seq<Seq<char>>,
    answers: Seq<Result<JsonModel, Seq<char>>>,
    text: Seq<char>,
    n: nat,
)
    requires
        n <= answers.len(),
    ensures
        backers(said_upto(rpcs, answers, n), text) == givers(rpcs, answers, text, n),
    decreases n,
{
    reveal(Seq::filter);
    let all = Seq::new(n, |i: int| i);
    let gave = |i: int| says(answers, i, text);
    let name = |i: int| rpcs[i];
    if n > 0 {
        lemma_givers(rpcs, answers, text, (n - 1) as nat);
        let fewer = Seq::new((n - 1) as nat, |i: int| i);
        assert(all.drop_last() =~= fewer);
        let kept = fewer.filter(gave);
        let earlier = said_upto(rpcs, answers, (n - 1) as nat);
        let said = said_upto(rpcs, answers, n);
        if says(answers, n - 1, text) {
            assert(all.filter(gave) == kept.push(n - 1));
            assert(kept.push(n - 1).map_values(name) =~= kept.map_values(name).push(rpcs[n - 1]));
        } else {
            assert(all.filter(gave) == kept);
        }
        match answers[n - 1] {
            Ok(JsonModel::Str(s)) => {
                assert(said.drop_last() =~= earlier);
            },
            _ => {},
        }
    } else {
        assert(all =~= Seq::<int>::empty());
        assert(all.filter(gave).map_values(name) =~= Seq::<Seq<char>>::empty());
    }
}

proof fn lemma_said(
    rpcs: Seq<Seq<char>>,
    answers: Seq<Result<JsonModel, Seq<char>>>,
    n: nat,
    j: int,
)
    requires
        n <= answers.len(),
        0 <= j < said_upto(rpcs, answers, n).len(),
    ensures
        exists|i: int|
            {
                &&& i < n
                &&& #[trigger] says(answers, i, said_upto(rpcs, answers, n)[j].text)
                &&& said_upto(rpcs, answers, i as nat).len() == j
            },
    decreases n,
{
    let said = said_upto(rpcs, answers, n);
    let earlier = said_upto(rpcs, answers, (n - 1) as nat);
    if j < earlier.len() {
        lemma_said(rpcs, answers, (n - 1) as nat, j);
        let i = choose|i: int|
            {
                &&& i < n - 1
                &&& #[trigger] says(answers, i, earlier[j].text)
                &&& said_upto(rpcs, answers, i as nat).len() == j
            };
        assert(said[j] == earlier[j]);
        assert(says(answers, i, said[j].text));
    } else {
        assert(says(answers, n - 1, said[j].text));
    }
}

proof fn lemma_said_back(
    rpcs: Seq<Seq<char>>,
    answers: Seq<Result<JsonModel, Seq<char>>>,
    text: Seq<char>,
    n: nat,
    i: int,
)
    requires
        n <= answers.len(),
        i < n,
        says(answers, i, text),
    ensures
        ({
            let said = said_upto(rpcs, answers, n);
            let j = said_upto(rpcs, answers, i as nat).len();
            j < said.len() && said[j as int].text == text
        }),
    decreases n,
{
    if i < n - 1 {
        lemma_said_back(rpcs, answers, text, (n - 1) as nat, i);
    }
}

proof fn lemma_said_grows(
    rpcs: Seq<Seq<char>>,
    answers: Seq<Result<JsonModel, Seq<char>>>,
    i: nat,
    n: nat,
)
    requires
        i <= n,
    ensures
        said_upto(rpcs, answers, i).len() <= said_upto(rpcs, answers, n).len(),
    decreases n,
{
    if i < n {
        lemma_said_grows(rpcs, answers, i, (n - 1) as nat);
    }
}

proof fn lemma_leader_first(said: Seq<SaidModel>, n: nat)
    requires
        n <= said.len(),
    ensures
        match leader_upto(said, n) {
            Some(best) => exists|j: int|
                {
                    &&& 0 <= j < n
                    &&& (#[trigger] said[j]).text == best
                    &&& forall|k: int|
                        0 <= k < j ==> backers(said, (#[trigger] said[k]).text).len() < backers(
                            said,
                            best,
                        ).len()
                    &&& forall|k: int|
                        0 <= k < n ==> backers(said, (#[trigger] said[k]).text).len() <= backers(
                            said,
                            best,
                        ).len()
                },
            None => n == 0,
        },
    decreases n,
{
    if n > 0 {
        lemma_leader_first(said, (n - 1) as nat);
        let text = said[n - 1].text;
        match leader_upto(said, (n - 1) as nat) {
            Some(best) => {
                let j = choose|j: int|
                    {
                        &&& 0 <= j < n - 1
                        &&& (#[trigger] said[j]).text == best
                        &&& forall|k: int|
                            0 <= k < j ==> backers(said, (#[trigger] said[k]).text).len()
                                < backers(said, best).len()
                        &&& forall|k: int|
                            0 <= k < n - 1 ==> backers(said, (#[trigger] said[k]).text).len()
                                <= backers(said, best).len()
                    };
                if backers(said, text).len() <= backers(said, best).len() {
                    assert(said[j].text == best);
                } else {
                    assert(said[n - 1].text == text);
                }
            },
            None => {
                assert(said[0].text == text);
            },
        }
    }
}

/// The RPCs that are named as having agreed are all those that gave the accepted text, in the order
/// in which they are listed. Of several texts that were given equally often, the one that was given
/// first is accepted.
pub proof fn law_agreed(
    rpcs: Seq<Seq<char>>,
    method: Seq<char>,
    block: nat,
    min_agree: nat,
    answers: Seq<Result<JsonModel, Seq<char>>>,
)
    ensures
        match agreement(rpcs, method, block, min_agree, answers) {
            Ok((text, agreed)) => {
                &&& agreed == givers(rpcs, answers, text, answers.len())
                &&& exists|i: int|
                    {
                        &&& #[trigger] says(answers, i, text)
                        &&& forall|j: int, other: Seq<char>|
                            j < i && #[trigger] says(answers, j, other) ==> votes(answers, other)
                                < votes(answers, text)
                    }
            },
            Err(_) => true,
        },
{
    let n = answers.len();
    let said = said_upto(rpcs, answers, n);
    if let Ok((text, agreed)) = agreement(rpcs, method, block, min_agree, answers) {
        lemma_givers(rpcs, answers, text, n);
        lemma_leader_first(said, said.len());
        let j = choose|j: int|
            {
                &&& 0 <= j < said.len()
                &&& (#[trigger] said[j]).text == text
                &&& forall|k: int|
                    0 <= k < j ==> backers(said, (#[trigger] said[k]).text).len() < backers(
                        said,
                        text,
                    ).len()
            };
        lemma_said(rpcs, answers, n, j);
        let i = choose|i: int|
            {
                &&& i < n
                &&& #[trigger] says(answers, i, said[j].text)
                &&& said_upto(rpcs, answers, i as nat).len() == j
            };
        assert(says(answers, i, text));
        lemma_backers_are_votes(rpcs, answers, text, n);
        assert forall|h: int, other: Seq<char>| h < i && #[trigger] says(
            answers,
            h,
            other,
        ) implies votes(answers, other) < votes(answers, text) by {
            lemma_said_back(rpcs, answers, other, i as nat, h);
            lemma_said_back(rpcs, answers, other, n, h);
            let k = said_upto(rpcs, answers, h as nat).len() as int;
            assert(said[k].text == other);
            lemma_backers_are_votes(rpcs, answers, other, n);
        }
    }
}

/// The head is asked for with `eth_blockNumber`, of every RPC in turn.
pub proof fn law_head_asked(rpcs: Seq<Seq<char>>, behind: nat, replies: Seq<ReplyModel>)
    ensures
        match block_run(rpcs, behind, replies) {
            Run::Ask(q) => {
                &&& replies.len() < rpcs.len()
                &&& q.url == rpcs[replies.len() as int]
                &&& q.method == "eth_blockNumber"@
                &&& q.params == JsonModel::Array(Seq::empty())
            },
            Run::Done { value: Ok(_), .. } => replies.len() >= rpcs.len(),
            Run::Done { value: Err(_), .. } => {
                &&& replies.len() >= rpcs.len()
                &&& forall|i: int, q: nat|
                    !#[trigger] is_quantity(answers_in(rpcs, replies), i, q)
            },
        },
{
    law_highest_is_maximal(rpcs, answers_in(rpcs, replies), "no RPC returned a block number: "@);
}

/// How requests are made over HTTP.
pub proof fn law_http()
    ensures
        USER_AGENT@ == "eas-attestor/0.1 (+https://outlayer.ai)"@,
        CONNECT_TIMEOUT_SECS == 5,
{
}

// ---- what is said of what went wrong --------------------------------------------------

/// What is said of those of the first `n` places that are picked, in order.
pub open spec fn picked(
    n: nat,
    pick: spec_fn(int) -> bool,
    word: spec_fn(int) -> Seq<char>,
) -> Seq<Seq<char>> {
    Seq::new(n, |i: int| i).filter(pick).map_values(word)
}

proof fn lemma_picked(n: nat, pick: spec_fn(int) -> bool, word: spec_fn(int) -> Seq<char>)
    ensures
        picked(0, pick, word) == Seq::<Seq<char>>::empty(),
        n > 0 ==> picked(n, pick, word) == if pick(n - 1) {
            picked((n - 1) as nat, pick, word).push(word(n - 1))
        } else {
            picked((n - 1) as nat, pick, word)
        },
{
    reveal(Seq::filter);
    let none = Seq::new(0, |i: int| i);
    assert(none =~= Seq::<int>::empty());
    assert(none.filter(pick).map_values(word) =~= Seq::<Seq<char>>::empty());
    if n > 0 {
        let all = Seq::new(n, |i: int| i);
        let fewer = Seq::new((n - 1) as nat, |i: int| i);
        assert(all.drop_last() =~= fewer);
        assert(all.last() == n - 1);
        let kept = fewer.filter(pick);
        if pick(n - 1) {
            assert(all.filter(pick) == kept.push(n - 1));
            assert(kept.push(n - 1).map_values(word) =~= kept.map_values(word).push(word(n - 1)));
        } else {
            assert(all.filter(pick) == kept);
        }
    }
}

/// Is the `i`th answer no text?
pub open spec fn no_text(answers: Seq<Result<JsonModel, Seq<char>>>) -> spec_fn(int) -> bool {
    |i: int| !(answers[i] matches Ok(JsonModel::Str(_)))
}

/// Why the `i`th answer is no text.
pub open spec fn why_no_text(
    rpcs: Seq<Seq<char>>,
    answers: Seq<Result<JsonModel, Seq<char>>>,
) -> spec_fn(int) -> Seq<char> {
    |i: int|
        match answers[i] {
            Ok(v) => rpcs[i] + ": non-string result "@ + json_text(v),
            Err(e) => e,
        }
}

/// Is the `i`th answer no quantity?
pub open spec fn no_quantity(answers: Seq<Result<JsonModel, Seq<char>>>) -> spec_fn(int) -> bool {
    |i: int|
        match answers[i] {
            Ok(v) => quantity_in(v) is Err,
            Err(_) => true,
        }
}

/// Why the `i`th answer is no quantity.
pub open spec fn why_no_quantity(
    rpcs: Seq<Seq<char>>,
    answers: Seq<Result<JsonModel, Seq<char>>>,
) -> spec_fn(int) -> Seq<char> {
    |i: int|
        match answers[i] {
            Ok(v) => rpcs[i] + ": "@ + quantity_in(v)->Err_0,
            Err(e) => e,
        }
}

/// Is the `i`th answer an error?
pub open spec fn no_answer(answers: Seq<Result<JsonModel, Seq<char>>>) -> spec_fn(int) -> bool {
    |i: int| answers[i] is Err
}

/// Why the `i`th answer is an error.
pub open spec fn why_no_answer(
    answers: Seq<Result<JsonModel, Seq<char>>>,
) -> spec_fn(int) -> Seq<char> {
    |i: int| answers[i]->Err_0
}

/// Is the `i`th answer a text of an RPC that is not among those that agreed?
pub open spec fn dissents(
    rpcs: Seq<Seq<char>>,
    answers: Seq<Result<JsonModel, Seq<char>>>,
    agreed: Seq<Seq<char>>,
) -> spec_fn(int) -> bool {
    |i: int| answers[i] matches Ok(JsonModel::Str(_)) && !agreed.contains(rpcs[i])
}

/// What the `i`th RPC said instead.
pub open spec fn said_instead(
    rpcs: Seq<Seq<char>>,
    answers: Seq<Result<JsonModel, Seq<char>>>,
) -> spec_fn(int) -> Seq<char> {
    |i: int| rpcs[i] + " said "@ + lower_case(answers[i]->Ok_0->Str_0)
}

proof fn lemma_unusable(
    rpcs: Seq<Seq<char>>,
    answers: Seq<Result<JsonModel, Seq<char>>>,
    n: nat,
)
    requires
        n <= answers.len(),
    ensures
        unusable_upto(rpcs, answers, n) == picked(
            n,
            no_text(answers),
            why_no_text(rpcs, answers),
        ),
    decreases n,
{
    lemma_picked(n, no_text(answers), why_no_text(rpcs, answers));
    if n > 0 {
        lemma_unusable(rpcs, answers, (n - 1) as nat);
    }
}

proof fn lemma_complaints(
    rpcs: Seq<Seq<char>>,
    answers: Seq<Result<JsonModel, Seq<char>>>,
    n: nat,
)
    requires
        n <= answers.len(),
    ensures
        complaints_upto(rpcs, answers, n) == picked(
            n,
            no_quantity(answers),
            why_no_quantity(rpcs, answers),
        ),
    decreases n,
{
    lemma_picked(n, no_quantity(answers), why_no_quantity(rpcs, answers));
    if n > 0 {
        lemma_complaints(rpcs, answers, (n - 1) as nat);
    }
}

proof fn lemma_errors(answers: Seq<Result<JsonModel, Seq<char>>>, n: nat)
    requires
        n <= answers.len(),
    ensures
        errors_upto(answers, n) == picked(n, no_answer(answers), why_no_answer(answers)),
    decreases n,
{
    lemma_picked(n, no_answer(answers), why_no_answer(answers));
    if n > 0 {
        lemma_errors(answers, (n - 1) as nat);
    }
}

proof fn lemma_dissent_front(
    said: Seq<SaidModel>,
    one: SaidModel,
    agreed: Seq<Seq<char>>,
    k: nat,
)
    requires
        k <= said.len(),
    ensures
        dissent_upto(said.push(one), agreed, k) == dissent_upto(said, agreed, k),
    decreases k,
{
    if k > 0 {
        lemma_dissent_front(said, one, agreed, (k - 1) as nat);
        assert(said.push(one)[k - 1] == said[k - 1]);
    }
}

proof fn lemma_dissent(
    rpcs: Seq<Seq<char>>,
    answers: Seq<Result<JsonModel, Seq<char>>>,
    agreed: Seq<Seq<char>>,
    n: nat,
)
    requires
        n <= answers.len(),
    ensures
        ({
            let said = said_upto(rpcs, answers, n);
            dissent_upto(said, agreed, said.len()) == picked(
                n,
                dissents(rpcs, answers, agreed),
                said_instead(rpcs, answers),
            )
        }),
    decreases n,
{
    lemma_picked(n, dissents(rpcs, answers, agreed), said_instead(rpcs, answers));
    if n > 0 {
        lemma_dissent(rpcs, answers, agreed, (n - 1) as nat);
        let earlier = said_upto(rpcs, answers, (n - 1) as nat);
        match answers[n - 1] {
            Ok(JsonModel::Str(s)) => {
                let one = SaidModel { rpc: rpcs[n - 1], text: lower_case(s) };
                lemma_dissent_front(earlier, one, agreed, earlier.len());
                assert(earlier.push(one)[earlier.len() as int] == one);
            },
            _ => {},
        }
    }
}

/// The list, with semicolons; or the word for there being nothing on it.
pub open spec fn listed(parts: Seq<Seq<char>>) -> Seq<char> {
    if parts.len() == 0 {
        "none"@
    } else {
        joined(parts, "; "@)
    }
}

/// A refusal for want of agreement says, in full: how many RPCs gave the leading answer, of how many
/// that were asked, what was asked, at which block, how many were needed, what the others said, in
/// order, and why the rest could not be used.
pub proof fn law_refusal(
    rpcs: Seq<Seq<char>>,
    method: Seq<char>,
    block: nat,
    min_agree: nat,
    answers: Seq<Result<JsonModel, Seq<char>>>,
)
    ensures
        ({
            let unusable = picked(
                answers.len(),
                no_text(answers),
                why_no_text(rpcs, answers),
            );
            match agreement(rpcs, method, block, min_agree, answers) {
                Ok(_) => true,
                Err(e) => {
                    ||| e == "no RPC returned a usable "@ + method + " result: "@ + joined(
                        unusable,
                        "; "@,
                    ) && forall|text: Seq<char>| #[trigger] votes(answers, text) == 0
                    ||| exists|text: Seq<char>|
                        (forall|other: Seq<char>| #[trigger]
                            votes(answers, other) <= votes(answers, text)) && votes(answers, text)
                            < min_agree && {
                            let agreed = givers(rpcs, answers, text, answers.len());
                            let others = picked(
                                answers.len(),
                                dissents(rpcs, answers, agreed),
                                said_instead(rpcs, answers),
                            );
                            e == "only "@ + decimal_text(#[trigger] votes(answers, text)) + " of "@
                                + decimal_text(rpcs.len()) + " RPCs agreed on "@ + method
                                + " at block "@ + decimal_text(block) + " (needed "@
                                + decimal_text(min_agree) + "). Disagreed: "@ + listed(others)
                                + ". Unusable: "@ + listed(unusable)
                        }
                },
            }
        }),
{
    let n = answers.len();
    let said = said_upto(rpcs, answers, n);
    lemma_unusable(rpcs, answers, n);
    if leader_upto(said, said.len()) is None {
        crate::rpc::lemma_leader(said, said.len());
        assert forall|text: Seq<char>| #[trigger] votes(answers, text) == 0 by {
            lemma_backers_are_votes(rpcs, answers, text, n);
        }
    }
    if let Some(text) = leader_upto(said, said.len()) {
        crate::rpc::lemma_leader_votes(rpcs, answers, text);
        lemma_givers(rpcs, answers, text, n);
        lemma_backers_are_votes(rpcs, answers, text, n);
        lemma_dissent(rpcs, answers, backers(said, text), n);
        assert(votes(answers, text) == backers(said, text).len());
    }
}

/// Where no RPC tells a head, or a nonce, the job says why each of them does not, in order; and where
/// none accepts a transaction, what each of them answered to it.
pub proof fn law_complaints(
    rpcs: Seq<Seq<char>>,
    behind: nat,
    address: Seq<u8>,
    raw: Seq<u8>,
    replies: Seq<ReplyModel>,
)
    ensures
        ({
            let answers = answers_in(rpcs, replies);
            let complaints = joined(
                picked(rpcs.len(), no_quantity(answers), why_no_quantity(rpcs, answers)),
                "; "@,
            );
            let errors = joined(
                picked(rpcs.len(), no_answer(answers), why_no_answer(answers)),
                "; "@,
            );
            &&& match block_run(rpcs, behind, replies) {
                Run::Done { value: Err(e), .. } => e == "no RPC returned a block number: "@
                    + complaints,
                _ => true,
            }
            &&& match nonce_run(rpcs, address, replies) {
                Run::Done { value: Err(e), .. } => e == "no RPC returned a nonce: "@ + complaints,
                _ => true,
            }
            &&& match send_run(rpcs, raw, replies) {
                Run::Done { value: Err(e), .. } => e == "no RPC accepted the transaction: "@
                    + errors,
                _ => true,
            }
        }),
{
    let answers = answers_in(rpcs, replies);
    lemma_complaints(rpcs, answers, answers.len());
    lemma_errors(answers, answers.len());
}

/// Why the `i`th reply does not tell a number.
pub open spec fn why_silent(
    rpcs: Seq<Seq<char>>,
    reading: Reading,
    replies: Seq<ReplyModel>,
    i: int,
) -> Seq<char> {
    match reply_value(rpcs[i], replies[i]) {
        Ok(v) => read_in(reading, rpcs[i], v)->Err_0,
        Err(e) => e,
    }
}

/// Where no RPC tells a number, the job says why each of them does not, in order.
pub proof fn law_all_silent(
    rpcs: Seq<Seq<char>>,
    method: Seq<char>,
    params: JsonModel,
    reading: Reading,
    replies: Seq<ReplyModel>,
    errors: Seq<Seq<char>>,
)
    ensures
        match first_ok_run(rpcs, method, params, reading, replies, errors) {
            Run::Done { value: Err(e), .. } => e == joined(
                errors + Seq::new(rpcs.len(), |i: int| why_silent(rpcs, reading, replies, i)),
                "; "@,
            ),
            _ => true,
        },
    decreases rpcs.len(),
{
    let whys = Seq::new(rpcs.len(), |i: int| why_silent(rpcs, reading, replies, i));
    if rpcs.len() == 0 {
        assert(errors + whys =~= errors);
    } else if replies.len() > 0 {
        let read = match reply_value(rpcs[0], replies[0]) {
            Ok(v) => read_in(reading, rpcs[0], v),
            Err(e) => Err(e),
        };
        if let Err(e) = read {
            let r = rpcs.skip(1);
            let t = replies.skip(1);
            law_all_silent(r, method, params, reading, t, errors.push(e));
            let later = Seq::new(r.len(), |i: int| why_silent(r, reading, t, i));
            if first_ok_run(rpcs, method, params, reading, replies, errors) matches Run::Done {
                value: Err(_),
                ..
            } {
                law_first_ok(r, method, params, reading, t, errors.push(e));
                assert(t.len() >= r.len());
                assert(errors.push(e) + later =~= errors + whys);
            }
        }
    }
}

/// What is said of a reply that does not count.
pub proof fn law_reply_refused(url: Seq<char>, reply: ReplyModel)
    ensures
        match reply {
            ReplyModel::NotSent(why) => reply_value(url, reply) == Err::<JsonModel, Seq<char>>(
                url + ": "@ + why,
            ),
            ReplyModel::Answered { status, body } => {
                &&& status < 200 || status > 299 ==> reply_value(url, reply) == Err::<
                    JsonModel,
                    Seq<char>,
                >(url + ": HTTP "@ + decimal_text(status as nat))
                &&& 200 <= status <= 299 ==> match body {
                    Err(why) => reply_value(url, reply) == Err::<JsonModel, Seq<char>>(
                        url + ": "@ + why,
                    ),
                    Ok(b) => match json_parsed(b) {
                        Err(why) => reply_value(url, reply) == Err::<JsonModel, Seq<char>>(
                            url + ": malformed JSON: "@ + why,
                        ),
                        Ok(answer) => {
                            &&& member(answer, "error"@) matches Some(why) ==> reply_value(
                                url,
                                reply,
                            ) == Err::<JsonModel, Seq<char>>(
                                url + ": RPC error: "@ + json_text(why),
                            )
                            &&& member(answer, "error"@) is None && member(answer, "result"@)
                                is None ==> reply_value(url, reply) == Err::<JsonModel, Seq<char>>(
                                url + ": response had no result"@,
                            )
                        },
                    },
                }
            },
        },
{
}

proof fn lemma_hex_number_append(acc: nat, a: Seq<char>, b: Seq<char>, max: nat)
    ensures
        hex_number_from(acc, a + b, max) == (match hex_number_from(acc, a, max) {
            Ok(v) => hex_number_from(v, b, max),
            Err(e) => Err(e),
        }),
    decreases a.len(),
{
    if a.len() == 0 {
        assert(a + b =~= b);
    } else {
        assert((a + b).skip(1) =~= a.skip(1) + b);
        assert((a + b)[0] == a[0]);
        if let Some(d) = hex_digit(a[0]) {
            lemma_hex_number_append(acc * 16 + d, a.skip(1), b, max);
        }
    }
}

/// A `0x` in front of an amount changes nothing, however often it stands there, and one sign in front
/// of the digits changes nothing either.
pub proof fn law_amount_spelling(s: Seq<char>, d: Seq<char>, max: nat)
    requires
        d.len() > 0,
        all_digits(d),
        digits_value(d) <= max,
    ensures
        hex_amount(s, max) is Ok ==> hex_amount("0x"@ + s, max) == hex_amount(s, max),
        hex_amount(s, max) is Err ==> hex_amount("0x"@ + s, max) is Err,
        hex_amount("+"@ + d, max) == Ok::<nat, Seq<char>>(digits_value(d)),
{
    reveal_strlit("0x");
    reveal_strlit("+");
    let t = "0x"@ + s;
    assert(t.skip(2) =~= s);
    assert(has_0x(t));
    assert(without_all_0x(t) == without_all_0x(s));
    let p = "+"@ + d;
    assert(p[0] == '+');
    assert(!has_0x(p));
    assert(p.skip(1) =~= d);
    lemma_hex_number(d, max);
}

/// What is said of a text that is no amount: that it is empty, or else what is wrong at the first place
/// where something is: a character that is no digit, or a digit with which the number is too large.
pub proof fn law_amount_refused(p: Seq<char>, c: char, rest: Seq<char>, max: nat)
    requires
        all_digits(p),
        digits_value(p) <= max,
        !(p.len() == 0 && c == '+'),
        !((p + seq![c] + rest).len() >= 2 && (p + seq![c] + rest)[0] == '0' && (p + seq![c]
            + rest)[1] == 'x'),
    ensures
        hex_amount(Seq::empty(), max) == Err::<nat, Seq<char>>(
            "bad hex "@ + Seq::<char>::empty() + ": "@
                + "cannot parse integer from empty string"@,
        ),
        hex_digit(c) is None ==> hex_amount(p + seq![c] + rest, max) == Err::<nat, Seq<char>>(
            "bad hex "@ + (p + seq![c] + rest) + ": "@ + "invalid digit found in string"@,
        ),
        hex_digit(c) is Some && digits_value(p) * 16 + hex_digit(c)->0 > max ==> hex_amount(
            p + seq![c] + rest,
            max,
        ) == Err::<nat, Seq<char>>(
            "bad hex "@ + (p + seq![c] + rest) + ": "@
                + "number too large to fit in target type"@,
        ),
{
    let e = Seq::<char>::empty();
    assert(without_all_0x(e) == e);
    let tail = seq![c] + rest;
    let s = p + seq![c] + rest;
    assert(s =~= p + tail);
    lemma_hex_number(p, max);
    lemma_hex_number_append(0, p, tail, max);
    assert(tail[0] == c);
    assert(!has_0x(s));
    assert(without_all_0x(s) == s);
    if p.len() > 0 {
        assert(s[0] == p[0]);
        assert(hex_digit(p[0]) is Some);
    } else {
        assert(s[0] == c);
    }
}

} // verus!
