//! JSON-RPC, with a quorum layer for the reads that must be trustworthy.
//!
//! Data that ends up in an attestation (balances, call results) is read from several independent
//! RPCs pinned to the same block; if too few of them return the same answer, we refuse rather than
//! attest a number one node could have fabricated. Transaction plumbing (nonce, fees, send) does
//! not need that: a wrong nonce or fee just makes the transaction fail, it cannot corrupt the data.

use vstd::prelude::*;
use vstd::string::*;

use crate::abi::{hex_0x, lemma_numeral_value, to_hex_0x};
use crate::json::{
    json_models, json_parsed, json_text, member, no_members, parse, text_at, text_in, text_array,
    with_member, Json, JsonModel,
};
use crate::tape::{gave, halted, Halt, Reply, ReplyModel, Request, RequestModel, Run, Tape};
use crate::text::{
    contains, decimal, decimal_text, digit_char, has_0x, hex_digit, hex_number, hex_number_from,
    hexadecimal, join, joined, lower_case, lowercase, numeral, parse_hex, same, strip_all_0x, texts,
    without_all_0x,
};

verus! {

/// The `User-Agent` header of every request.
pub const USER_AGENT: &'static str = "eas-attestor/0.1 (+https://outlayer.ai)";

/// How long to wait for a connection.
pub const CONNECT_TIMEOUT_SECS: u64 = 5;

/// What is proposed as a priority fee where no RPC suggests one: 0.05 gwei.
pub const DEFAULT_PRIORITY_FEE: u128 = 50_000_000;

// ---- one request ----------------------------------------------------------------------

/// What a JSON-RPC answer gives: its result, unless it reports an error.
pub open spec fn answer_value(url: Seq<char>, answer: JsonModel) -> Result<JsonModel, Seq<char>> {
    match member(answer, "error"@) {
        Some(err) => Err(url + ": RPC error: "@ + json_text(err)),
        None => match member(answer, "result"@) {
            Some(v) => Ok(v),
            None => Err(url + ": response had no result"@),
        },
    }
}

/// Does the HTTP status say that the request succeeded?
pub open spec fn is_success(status: u16) -> bool {
    200 <= status < 300
}

/// What a reply gives: the result in its body, or what went wrong.
pub open spec fn reply_value(url: Seq<char>, reply: ReplyModel) -> Result<JsonModel, Seq<char>> {
    match reply {
        ReplyModel::NotSent(e) => Err(url + ": "@ + e),
        ReplyModel::Answered { status, body } => if !is_success(status) {
            Err(url + ": HTTP "@ + decimal_text(status as nat))
        } else {
            match body {
                Err(e) => Err(url + ": "@ + e),
                Ok(b) => match json_parsed(b) {
                    Err(e) => Err(url + ": malformed JSON: "@ + e),
                    Ok(answer) => answer_value(url, answer),
                },
            }
        },
    }
}

/// The course of one request: it is asked, unless the tape holds its reply.
pub open spec fn posted(q: RequestModel, replies: Seq<ReplyModel>) -> Run<JsonModel> {
    if replies.len() == 0 {
        Run::Ask(q)
    } else {
        Run::Done { value: reply_value(q.url, replies[0]), rest: replies.skip(1) }
    }
}

fn about(url: &str, what: &str, detail: &str) -> (e: String)
    ensures
        e@ == url@ + what@ + detail@,
{
    let mut e = url.to_owned();
    e.append(what);
    e.append(detail);
    e
}

/// Does the HTTP status say that the request succeeded? The body of another answer is not read.
pub fn success(status: u16) -> (r: bool)
    ensures
        r == is_success(status),
{
    200 <= status && status < 300
}

/// What a JSON-RPC answer gives: its result, unless it reports an error.
pub fn read_answer(url: &str, answer: &Json) -> (r: Result<Json, String>)
    ensures
        match r {
            Ok(v) => answer_value(url@, answer@) == Ok::<JsonModel, Seq<char>>(v@),
            Err(e) => answer_value(url@, answer@) == Err::<JsonModel, Seq<char>>(e@),
        },
{
    match answer.get("error") {
        Some(err) => Err(about(url, ": RPC error: ", err.render().as_str())),
        None => match answer.get("result") {
            Some(v) => Ok(v.clone()),
            None => {
                let mut e = url.to_owned();
                e.append(": response had no result");
                Err(e)
            },
        },
    }
}

/// What a reply gives: the result in its body, or what went wrong.
pub fn read_reply(url: &str, reply: &Reply) -> (r: Result<Json, String>)
    ensures
        match r {
            Ok(v) => reply_value(url@, reply@) == Ok::<JsonModel, Seq<char>>(v@),
            Err(e) => reply_value(url@, reply@) == Err::<JsonModel, Seq<char>>(e@),
        },
{
    match reply {
        Reply::NotSent(e) => Err(about(url, ": ", e.as_str())),
        Reply::Answered { status, body } => {
            if !success(*status) {
                return Err(about(url, ": HTTP ", decimal(*status as u128).as_str()));
            }
            match body {
                Err(e) => Err(about(url, ": ", e.as_str())),
                Ok(b) => match parse(b.as_slice()) {
                    Err(e) => Err(about(url, ": malformed JSON: ", e.as_str())),
                    Ok(answer) => read_answer(url, &answer),
                },
            }
        },
    }
}

/// What one RPC answers to one request. Where the tape has no reply left, this asks.
pub fn post(tape: &mut Tape, rpc_url: &str, method: &str, params: &Json) -> (r: Result<Json, Halt>)
    ensures
        ({
            let run = posted(
                RequestModel { url: rpc_url@, method: method@, params: params@ },
                old(tape)@,
            );
            match r {
                Ok(v) => gave(run, v@, final(tape)@),
                Err(h) => halted(run, h, final(tape)@),
            }
        }),
{
    match tape.next() {
        Some(reply) => match read_reply(rpc_url, reply) {
            Ok(v) => Ok(v),
            Err(e) => Err(Halt::Fail(e)),
        },
        None => Err(
            Halt::Ask(
                Request {
                    url: rpc_url.to_owned(),
                    method: method.to_owned(),
                    params: params.clone(),
                },
            ),
        ),
    }
}

// ---- the same request to every RPC ----------------------------------------------------

/// What each RPC answered.
pub open spec fn answers_of(results: Seq<Result<Json, String>>) -> Seq<
    Result<JsonModel, Seq<char>>,
> {
    results.map_values(
        |r: Result<Json, String>|
            match r {
                Ok(v) => Ok(v@),
                Err(e) => Err(e@),
            },
    )
}

/// The course of putting one request to every RPC in turn, whatever each of them answers.
pub open spec fn polled(
    rpcs: Seq<Seq<char>>,
    method: Seq<char>,
    params: JsonModel,
    replies: Seq<ReplyModel>,
) -> Run<Seq<Result<JsonModel, Seq<char>>>> {
    if replies.len() < rpcs.len() {
        Run::Ask(RequestModel { url: rpcs[replies.len() as int], method, params })
    } else {
        Run::Done {
            value: Ok(Seq::new(rpcs.len(), |i: int| reply_value(rpcs[i], replies[i]))),
            rest: replies.skip(rpcs.len() as int),
        }
    }
}

/// What each RPC answers to the same request.
pub fn poll(tape: &mut Tape, rpcs: &[String], method: &str, params: &Json) -> (r: Result<
    Vec<Result<Json, String>>,
    Halt,
>)
    ensures
        ({
            let run = polled(texts(rpcs@), method@, params@, old(tape)@);
            match r {
                Ok(v) => gave(run, answers_of(v@), final(tape)@),
                Err(h) => halted(run, h, final(tape)@),
            }
        }),
{
    let ghost replies = tape@;
    let mut out: Vec<Result<Json, String>> = Vec::new();
    let mut i: usize = 0;
    assert(replies.skip(0) =~= replies);
    while i < rpcs.len()
        invariant
            i <= rpcs@.len(),
            i <= replies.len(),
            replies == old(tape)@,
            tape@ == replies.skip(i as int),
            answers_of(out@) =~= Seq::new(
                i as nat,
                |k: int| reply_value(texts(rpcs@)[k], replies[k]),
            ),
        decreases rpcs@.len() - i,
    {
        let ghost before = out@;
        match post(tape, rpcs[i].as_str(), method, params) {
            Ok(v) => {
                out.push(Ok(v));
            },
            Err(Halt::Fail(e)) => {
                out.push(Err(e));
            },
            Err(Halt::Ask(q)) => {
                return Err(Halt::Ask(q));
            },
        }
        assert(replies.skip(i as int).skip(1) =~= replies.skip(i + 1));
        assert(answers_of(out@) =~= answers_of(before).push(
            reply_value(texts(rpcs@)[i as int], replies[i as int]),
        ));
        i += 1;
    }
    Ok(out)
}

// ---- quantities -----------------------------------------------------------------------

/// The number of at most `max` that `s` spells in hexadecimal, with or without `0x`.
pub open spec fn hex_amount(s: Seq<char>, max: nat) -> Result<nat, Seq<char>> {
    match hex_number(without_all_0x(s), max) {
        Ok(n) => Ok(n),
        Err(e) => Err("bad hex "@ + s + ": "@ + e),
    }
}

/// The `u64` that a JSON-RPC quantity spells.
pub open spec fn quantity_in(v: JsonModel) -> Result<nat, Seq<char>> {
    match text_in(v) {
        Some(s) => hex_amount(s, u64::MAX as nat),
        None => Err("expected hex string, got "@ + json_text(v)),
    }
}

fn bad_amount(s: &str, why: &str) -> (e: String)
    ensures
        e@ == "bad hex "@ + s@ + ": "@ + why@,
{
    let mut e = "bad hex ".to_owned();
    e.append(s);
    e.append(": ");
    e.append(why);
    e
}

/// The `u64` that a JSON-RPC quantity spells.
pub fn parse_u64_hex(v: &Json) -> (r: Result<u64, String>)
    ensures
        match r {
            Ok(n) => quantity_in(v@) == Ok::<nat, Seq<char>>(n as nat),
            Err(e) => quantity_in(v@) == Err::<nat, Seq<char>>(e@),
        },
{
    match v.as_str() {
        Some(s) => match parse_hex(strip_all_0x(s), u64::MAX as u128) {
            Ok(n) => Ok(n as u64),
            Err(e) => Err(bad_amount(s, e.as_str())),
        },
        None => {
            let mut e = "expected hex string, got ".to_owned();
            e.append(v.render().as_str());
            Err(e)
        },
    }
}

/// The `u128` that `s` spells in hexadecimal, with or without `0x`.
pub fn parse_u128_hex(s: &str) -> (r: Result<u128, String>)
    ensures
        match r {
            Ok(n) => hex_amount(s@, u128::MAX as nat) == Ok::<nat, Seq<char>>(n as nat),
            Err(e) => hex_amount(s@, u128::MAX as nat) == Err::<nat, Seq<char>>(e@),
        },
{
    match parse_hex(strip_all_0x(s), u128::MAX) {
        Ok(n) => Ok(n),
        Err(e) => Err(bad_amount(s, e.as_str())),
    }
}

/// The largest of the first `n` answers that are quantities.
pub open spec fn highest_upto(answers: Seq<Result<JsonModel, Seq<char>>>, n: nat) -> Option<nat>
    decreases n,
{
    if n == 0 {
        None
    } else {
        let best = highest_upto(answers, (n - 1) as nat);
        match answers[n - 1] {
            Ok(v) => match quantity_in(v) {
                Ok(q) => match best {
                    Some(b) if b >= q => Some(b),
                    _ => Some(q),
                },
                Err(_) => best,
            },
            Err(_) => best,
        }
    }
}

/// What is wrong with those of the first `n` answers that are no quantities.
pub open spec fn complaints_upto(
    rpcs: Seq<Seq<char>>,
    answers: Seq<Result<JsonModel, Seq<char>>>,
    n: nat,
) -> Seq<Seq<char>>
    decreases n,
{
    if n == 0 {
        Seq::empty()
    } else {
        let earlier = complaints_upto(rpcs, answers, (n - 1) as nat);
        match answers[n - 1] {
            Ok(v) => match quantity_in(v) {
                Ok(_) => earlier,
                Err(e) => earlier.push(rpcs[n - 1] + ": "@ + e),
            },
            Err(e) => earlier.push(e),
        }
    }
}

/// The largest quantity that any RPC answered; if there is none, what is wrong with the answers.
pub open spec fn highest_answer(
    rpcs: Seq<Seq<char>>,
    answers: Seq<Result<JsonModel, Seq<char>>>,
    missing: Seq<char>,
) -> Result<nat, Seq<char>> {
    match highest_upto(answers, answers.len()) {
        Some(n) => Ok(n),
        None => Err(missing + joined(complaints_upto(rpcs, answers, answers.len()), "; "@)),
    }
}

/// The largest quantity that any RPC answered; if there is none, what is wrong with the answers,
/// behind the words `missing`.
pub fn highest(rpcs: &[String], results: &[Result<Json, String>], missing: &str) -> (r: Result<
    u64,
    String,
>)
    requires
        rpcs@.len() == results@.len(),
    ensures
        ({
            let answer = highest_answer(texts(rpcs@), answers_of(results@), missing@);
            match r {
                Ok(n) => answer == Ok::<nat, Seq<char>>(n as nat),
                Err(e) => answer == Err::<nat, Seq<char>>(e@),
            }
        }),
{
    let ghost names = texts(rpcs@);
    let ghost answers = answers_of(results@);
    let mut best: Option<u64> = None;
    let mut errors: Vec<String> = Vec::new();
    let mut i: usize = 0;
    assert(texts(errors@) =~= Seq::<Seq<char>>::empty());
    while i < results.len()
        invariant
            i <= results@.len(),
            rpcs@.len() == results@.len(),
            names == texts(rpcs@),
            answers == answers_of(results@),
            highest_upto(answers, i as nat) == (match best {
                Some(b) => Some(b as nat),
                None => None::<nat>,
            }),
            texts(errors@) == complaints_upto(names, answers, i as nat),
        decreases results@.len() - i,
    {
        let ghost before = texts(errors@);
        match &results[i] {
            Ok(v) => match parse_u64_hex(v) {
                Ok(n) => {
                    best = match best {
                        Some(b) => Some(if b >= n { b } else { n }),
                        None => Some(n),
                    };
                },
                Err(why) => {
                    let e = about(rpcs[i].as_str(), ": ", why.as_str());
                    errors.push(e);
                    assert(texts(errors@) =~= before.push(e@));
                },
            },
            Err(e) => {
                errors.push(e.clone());
                assert(texts(errors@) =~= before.push(e@));
            },
        }
        i += 1;
    }
    match best {
        Some(n) => Ok(n),
        None => {
            let mut e = missing.to_owned();
            e.append(join(errors.as_slice(), "; ").as_str());
            Err(e)
        },
    }
}

/// The empty list of parameters.
pub open spec fn no_params() -> JsonModel {
    JsonModel::Array(Seq::empty())
}

fn empty_params() -> (r: Json)
    ensures
        r@ == no_params(),
{
    let r = Json::Array(Vec::new());
    assert(json_models(Seq::<Json>::empty()) =~= Seq::<JsonModel>::empty());
    r
}

/// The course of finding the block to pin: the highest that any RPC knows, less a margin.
pub open spec fn block_run(
    rpcs: Seq<Seq<char>>,
    behind: nat,
    replies: Seq<ReplyModel>,
) -> Run<nat> {
    match polled(rpcs, "eth_blockNumber"@, no_params(), replies) {
        Run::Ask(q) => Run::Ask(q),
        Run::Done { value: Err(e), rest } => Run::Done { value: Err(e), rest },
        Run::Done { value: Ok(answers), rest } => Run::Done {
            value: match highest_answer(rpcs, answers, "no RPC returned a block number: "@) {
                Ok(n) => Ok(
                    if n >= behind {
                        (n - behind) as nat
                    } else {
                        0
                    },
                ),
                Err(e) => Err(e),
            },
            rest,
        },
    }
}

/// Highest block number seen across the RPCs, minus a margin so honest nodes have converged.
pub fn block_number_behind_head(tape: &mut Tape, rpcs: &[String], behind: u64) -> (r: Result<
    u64,
    Halt,
>)
    ensures
        ({
            let run = block_run(texts(rpcs@), behind as nat, old(tape)@);
            match r {
                Ok(n) => gave(run, n as nat, final(tape)@),
                Err(h) => halted(run, h, final(tape)@),
            }
        }),
{
    let results = match poll(tape, rpcs, "eth_blockNumber", &empty_params()) {
        Ok(results) => results,
        Err(h) => {
            return Err(h);
        },
    };
    assert(answers_of(results@).len() == rpcs@.len());
    match highest(rpcs, results.as_slice(), "no RPC returned a block number: ") {
        Ok(n) => Ok(n.saturating_sub(behind)),
        Err(e) => Err(Halt::Fail(e)),
    }
}

// ---- quorum reads ---------------------------------------------------------------------

/// One RPC, and the text that it answered, in lower case.
pub struct Said {
    pub rpc: String,
    pub text: String,
}

/// What a `Said` holds.
pub struct SaidModel {
    pub rpc: Seq<char>,
    pub text: Seq<char>,
}

impl View for Said {
    type V = SaidModel;

    open spec fn view(&self) -> SaidModel {
        SaidModel { rpc: self.rpc@, text: self.text@ }
    }
}

/// What each of them holds.
pub open spec fn said_models(said: Seq<Said>) -> Seq<SaidModel> {
    said.map_values(|s: Said| s@)
}

/// Those of the first `n` answers that are texts.
pub open spec fn said_upto(
    rpcs: Seq<Seq<char>>,
    answers: Seq<Result<JsonModel, Seq<char>>>,
    n: nat,
) -> Seq<SaidModel>
    decreases n,
{
    if n == 0 {
        Seq::empty()
    } else {
        let earlier = said_upto(rpcs, answers, (n - 1) as nat);
        match answers[n - 1] {
            Ok(JsonModel::Str(s)) => earlier.push(
                SaidModel { rpc: rpcs[n - 1], text: lower_case(s) },
            ),
            _ => earlier,
        }
    }
}

/// What is wrong with those of the first `n` answers that are no texts.
pub open spec fn unusable_upto(
    rpcs: Seq<Seq<char>>,
    answers: Seq<Result<JsonModel, Seq<char>>>,
    n: nat,
) -> Seq<Seq<char>>
    decreases n,
{
    if n == 0 {
        Seq::empty()
    } else {
        let earlier = unusable_upto(rpcs, answers, (n - 1) as nat);
        match answers[n - 1] {
            Ok(JsonModel::Str(_)) => earlier,
            Ok(v) => earlier.push(rpcs[n - 1] + ": non-string result "@ + json_text(v)),
            Err(e) => earlier.push(e),
        }
    }
}

/// The RPCs that said `text`, in order.
pub open spec fn backers(said: Seq<SaidModel>, text: Seq<char>) -> Seq<Seq<char>>
    decreases said.len(),
{
    if said.len() == 0 {
        Seq::empty()
    } else {
        let earlier = backers(said.drop_last(), text);
        if said.last().text == text {
            earlier.push(said.last().rpc)
        } else {
            earlier
        }
    }
}

/// Of the texts that the first `n` said, the one with the most backers in all; of several such, the
/// one said first.
pub open spec fn leader_upto(said: Seq<SaidModel>, n: nat) -> Option<Seq<char>>
    decreases n,
{
    if n == 0 {
        None
    } else {
        let text = said[n - 1].text;
        match leader_upto(said, (n - 1) as nat) {
            Some(best) if backers(said, text).len() <= backers(said, best).len() => Some(best),
            _ => Some(text),
        }
    }
}

/// What was said by those of the first `n` that are not among `agreed`.
pub open spec fn dissent_upto(said: Seq<SaidModel>, agreed: Seq<Seq<char>>, n: nat) -> Seq<
    Seq<char>,
>
    decreases n,
{
    if n == 0 {
        Seq::empty()
    } else {
        let earlier = dissent_upto(said, agreed, (n - 1) as nat);
        let s = said[n - 1];
        if agreed.contains(s.rpc) {
            earlier
        } else {
            earlier.push(s.rpc + " said "@ + s.text)
        }
    }
}

/// The parts, or the word for there being none.
pub open spec fn or_none(parts: Seq<Seq<char>>) -> Seq<char> {
    if parts.len() == 0 {
        "none"@
    } else {
        joined(parts, "; "@)
    }
}

/// The complaint that too few RPCs agreed.
pub open spec fn too_few(
    agreed: nat,
    asked: nat,
    method: Seq<char>,
    block: nat,
    needed: nat,
    dissent: Seq<Seq<char>>,
    unusable: Seq<Seq<char>>,
) -> Seq<char> {
    "only "@ + decimal_text(agreed) + " of "@ + decimal_text(asked) + " RPCs agreed on "@ + method
        + " at block "@ + decimal_text(block) + " (needed "@ + decimal_text(needed)
        + "). Disagreed: "@ + or_none(dissent) + ". Unusable: "@ + or_none(unusable)
}

/// The text on which at least `min_agree` RPCs agree, and who they are.
pub open spec fn agreement(
    rpcs: Seq<Seq<char>>,
    method: Seq<char>,
    block: nat,
    min_agree: nat,
    answers: Seq<Result<JsonModel, Seq<char>>>,
) -> Result<(Seq<char>, Seq<Seq<char>>), Seq<char>> {
    let said = said_upto(rpcs, answers, answers.len());
    let unusable = unusable_upto(rpcs, answers, answers.len());
    match leader_upto(said, said.len()) {
        None => Err(
            "no RPC returned a usable "@ + method + " result: "@ + joined(unusable, "; "@),
        ),
        Some(text) => {
            let agreed = backers(said, text);
            if agreed.len() < min_agree {
                Err(
                    too_few(
                        agreed.len(),
                        rpcs.len(),
                        method,
                        block,
                        min_agree,
                        dissent_upto(said, agreed, said.len()),
                        unusable,
                    ),
                )
            } else {
                Ok((text, agreed))
            }
        },
    }
}

fn find_backers(said: &[Said], text: &str) -> (r: Vec<String>)
    ensures
        texts(r@) == backers(said_models(said@), text@),
{
    let ghost all = said_models(said@);
    let mut r: Vec<String> = Vec::new();
    let mut i: usize = 0;
    assert(all.take(0) =~= Seq::<SaidModel>::empty());
    assert(texts(r@) =~= Seq::<Seq<char>>::empty());
    while i < said.len()
        invariant
            i <= said@.len(),
            all == said_models(said@),
            texts(r@) == backers(all.take(i as int), text@),
        decreases said@.len() - i,
    {
        let ghost before = texts(r@);
        assert(all.take(i + 1).drop_last() =~= all.take(i as int));
        assert(all.take(i + 1).last() == said@[i as int]@);
        if same(said[i].text.as_str(), text) {
            r.push(said[i].rpc.clone());
            assert(texts(r@) =~= before.push(said@[i as int].rpc@));
        }
        i += 1;
    }
    assert(all.take(i as int) =~= all);
    r
}

fn find_dissent(said: &[Said], agreed: &[String]) -> (r: Vec<String>)
    ensures
        texts(r@) == dissent_upto(said_models(said@), texts(agreed@), said@.len()),
{
    let ghost all = said_models(said@);
    let mut r: Vec<String> = Vec::new();
    let mut i: usize = 0;
    assert(texts(r@) =~= Seq::<Seq<char>>::empty());
    while i < said.len()
        invariant
            i <= said@.len(),
            all == said_models(said@),
            texts(r@) == dissent_upto(all, texts(agreed@), i as nat),
        decreases said@.len() - i,
    {
        let ghost before = texts(r@);
        assert(all[i as int] == said@[i as int]@);
        if !contains(agreed, said[i].rpc.as_str()) {
            let e = about(said[i].rpc.as_str(), " said ", said[i].text.as_str());
            r.push(e);
            assert(texts(r@) =~= before.push(e@));
        }
        i += 1;
    }
    r
}

fn none_or_joined(parts: &[String]) -> (r: String)
    ensures
        r@ == or_none(texts(parts@)),
{
    if parts.len() == 0 {
        "none".to_owned()
    } else {
        join(parts, "; ")
    }
}

/// The text on which at least `min_agree` RPCs agree, and who they are.
pub fn agree(
    rpcs: &[String],
    method: &str,
    block_number: u64,
    min_agree: usize,
    results: &[Result<Json, String>],
) -> (r: Result<(String, Vec<String>), String>)
    requires
        rpcs@.len() == results@.len(),
    ensures
        ({
            let answer = agreement(
                texts(rpcs@),
                method@,
                block_number as nat,
                min_agree as nat,
                answers_of(results@),
            );
            match r {
                Ok((text, agreed)) => answer == Ok::<(Seq<char>, Seq<Seq<char>>), Seq<char>>(
                    (text@, texts(agreed@)),
                ),
                Err(e) => answer == Err::<(Seq<char>, Seq<Seq<char>>), Seq<char>>(e@),
            }
        }),
{
    let ghost names = texts(rpcs@);
    let ghost answers = answers_of(results@);
    let mut said: Vec<Said> = Vec::new();
    let mut unusable: Vec<String> = Vec::new();
    let mut i: usize = 0;
    assert(texts(unusable@) =~= Seq::<Seq<char>>::empty());
    assert(said_models(said@) =~= Seq::<SaidModel>::empty());
    while i < results.len()
        invariant
            i <= results@.len(),
            rpcs@.len() == results@.len(),
            names == texts(rpcs@),
            answers == answers_of(results@),
            said_models(said@) == said_upto(names, answers, i as nat),
            texts(unusable@) == unusable_upto(names, answers, i as nat),
        decreases results@.len() - i,
    {
        let ghost said_before = said_models(said@);
        let ghost before = texts(unusable@);
        match &results[i] {
            Ok(v) => match v.as_str() {
                Some(s) => {
                    let one = Said { rpc: rpcs[i].clone(), text: lowercase(s) };
                    said.push(one);
                    assert(said_models(said@) =~= said_before.push(one@));
                },
                None => {
                    let e = about(
                        rpcs[i].as_str(),
                        ": non-string result ",
                        v.render().as_str(),
                    );
                    unusable.push(e);
                    assert(texts(unusable@) =~= before.push(e@));
                },
            },
            Err(e) => {
                unusable.push(e.clone());
                assert(texts(unusable@) =~= before.push(e@));
            },
        }
        i += 1;
    }

    // Keep the answer the most RPCs agree on.
    let ghost all = said_models(said@);
    let mut best: Option<(String, Vec<String>)> = None;
    let mut j: usize = 0;
    while j < said.len()
        invariant
            j <= said@.len(),
            all == said_models(said@),
            match best {
                Some((text, agreed)) => leader_upto(all, j as nat) == Some(text@) && texts(agreed@)
                    == backers(all, text@),
                None => leader_upto(all, j as nat) is None,
            },
        decreases said@.len() - j,
    {
        assert(all[j as int] == said@[j as int]@);
        let found = find_backers(said.as_slice(), said[j].text.as_str());
        let ghost count = found@.len();
        assert(count == texts(found@).len());
        let better = match &best {
            Some((_, agreed)) => {
                assert(agreed@.len() == texts(agreed@).len());
                found.len() > agreed.len()
            },
            None => true,
        };
        if better {
            best = Some((said[j].text.clone(), found));
        }
        j += 1;
    }
    let (text, agreed) = match best {
        Some(b) => b,
        None => {
            let mut e = "no RPC returned a usable ".to_owned();
            e.append(method);
            e.append(" result: ");
            e.append(join(unusable.as_slice(), "; ").as_str());
            return Err(e);
        },
    };
    assert(agreed@.len() == texts(agreed@).len());
    if agreed.len() < min_agree {
        let others = find_dissent(said.as_slice(), agreed.as_slice());
        let mut e = "only ".to_owned();
        e.append(decimal(agreed.len() as u128).as_str());
        e.append(" of ");
        e.append(decimal(rpcs.len() as u128).as_str());
        e.append(" RPCs agreed on ");
        e.append(method);
        e.append(" at block ");
        e.append(decimal(block_number as u128).as_str());
        e.append(" (needed ");
        e.append(decimal(min_agree as u128).as_str());
        e.append("). Disagreed: ");
        e.append(none_or_joined(others.as_slice()).as_str());
        e.append(". Unusable: ");
        e.append(none_or_joined(unusable.as_slice()).as_str());
        return Err(e);
    }
    Ok((text, agreed))
}

/// A list of parameters with the block tag behind it.
pub open spec fn at_block(params_head: JsonModel, block: nat) -> JsonModel {
    let head = match params_head {
        JsonModel::Array(items) => items,
        _ => Seq::empty(),
    };
    JsonModel::Array(head.push(JsonModel::Str("0x"@ + numeral(block, 16))))
}

/// The course of a quorum read: every RPC is asked, then the answers are compared.
pub open spec fn quorum_run(
    rpcs: Seq<Seq<char>>,
    method: Seq<char>,
    params_head: JsonModel,
    block: nat,
    min_agree: nat,
    replies: Seq<ReplyModel>,
) -> Run<(Seq<char>, Seq<Seq<char>>)> {
    match polled(rpcs, method, at_block(params_head, block), replies) {
        Run::Ask(q) => Run::Ask(q),
        Run::Done { value: Err(e), rest } => Run::Done { value: Err(e), rest },
        Run::Done { value: Ok(answers), rest } => Run::Done {
            value: agreement(rpcs, method, block, min_agree, answers),
            rest,
        },
    }
}

/// Run a read (`eth_call`, `eth_getBalance`, `eth_getCode`) at a pinned block across all RPCs and
/// require agreement.
///
/// `params_head` is everything before the block tag. Returns the agreed hex result and the list of
/// RPCs that vouched for it.
pub fn quorum_read(
    tape: &mut Tape,
    rpcs: &[String],
    method: &str,
    params_head: Json,
    block_number: u64,
    min_agree: usize,
) -> (r: Result<(String, Vec<String>), Halt>)
    ensures
        ({
            let run = quorum_run(
                texts(rpcs@),
                method@,
                params_head@,
                block_number as nat,
                min_agree as nat,
                old(tape)@,
            );
            match r {
                Ok((text, agreed)) => gave(run, (text@, texts(agreed@)), final(tape)@),
                Err(h) => halted(run, h, final(tape)@),
            }
        }),
{
    let mut tag = "0x".to_owned();
    tag.append(hexadecimal(block_number).as_str());
    let mut items: Vec<Json> = Vec::new();
    assert(json_models(items@) =~= Seq::<JsonModel>::empty());
    let ghost head = match params_head@ {
        JsonModel::Array(items) => items,
        _ => Seq::empty(),
    };
    match params_head {
        Json::Array(given) => {
            items = given;
        },
        _ => {},
    }
    items.push(Json::Str(tag));
    let params = Json::Array(items);
    assert(json_models(items@) =~= head.push(JsonModel::Str(tag@)));
    let results = match poll(tape, rpcs, method, &params) {
        Ok(results) => results,
        Err(h) => {
            return Err(h);
        },
    };
    assert(answers_of(results@).len() == rpcs@.len());
    match agree(rpcs, method, block_number, min_agree, results.as_slice()) {
        Ok(found) => Ok(found),
        Err(e) => Err(Halt::Fail(e)),
    }
}

// ---- transaction plumbing (a single responsive RPC is fine) ---------------------------

/// What to read in an answer.
#[derive(Clone, Copy)]
pub enum Reading {
    /// The answer is a `u64` quantity.
    Quantity,
    /// The answer is a `u128` amount.
    Amount,
    /// The answer is a block, and its base fee is a `u128` amount.
    BaseFee,
}

/// The number that is read in the answer `v` of the given RPC.
pub open spec fn read_in(reading: Reading, rpc: Seq<char>, v: JsonModel) -> Result<
    nat,
    Seq<char>,
> {
    match reading {
        Reading::Quantity => quantity_in(v),
        Reading::Amount => match text_in(v) {
            Some(s) => hex_amount(s, u128::MAX as nat),
            None => Err("non-string"@),
        },
        Reading::BaseFee => match text_at(v, "baseFeePerGas"@) {
            Some(s) => hex_amount(s, u128::MAX as nat),
            None => Err(rpc + ": block has no baseFeePerGas"@),
        },
    }
}

/// The number that is read in the answer `v` of the given RPC.
pub fn read_number(reading: Reading, rpc: &str, v: &Json) -> (r: Result<u128, String>)
    ensures
        match r {
            Ok(n) => read_in(reading, rpc@, v@) == Ok::<nat, Seq<char>>(n as nat) && (reading
                == Reading::Quantity ==> n <= u64::MAX),
            Err(e) => read_in(reading, rpc@, v@) == Err::<nat, Seq<char>>(e@),
        },
{
    match reading {
        Reading::Quantity => match parse_u64_hex(v) {
            Ok(n) => Ok(n as u128),
            Err(e) => Err(e),
        },
        Reading::Amount => match v.as_str() {
            Some(s) => parse_u128_hex(s),
            None => Err("non-string".to_owned()),
        },
        Reading::BaseFee => match v.text_at("baseFeePerGas") {
            Some(s) => parse_u128_hex(s),
            None => {
                let mut e = rpc.to_owned();
                e.append(": block has no baseFeePerGas");
                Err(e)
            },
        },
    }
}

/// The course of putting one request to one RPC after the other until an answer can be read.
/// `errors` is what went wrong before.
pub open spec fn first_ok_run(
    rpcs: Seq<Seq<char>>,
    method: Seq<char>,
    params: JsonModel,
    reading: Reading,
    replies: Seq<ReplyModel>,
    errors: Seq<Seq<char>>,
) -> Run<nat>
    decreases rpcs.len(),
{
    if rpcs.len() == 0 {
        Run::Done { value: Err(joined(errors, "; "@)), rest: replies }
    } else if replies.len() == 0 {
        Run::Ask(RequestModel { url: rpcs[0], method, params })
    } else {
        let read = match reply_value(rpcs[0], replies[0]) {
            Ok(v) => read_in(reading, rpcs[0], v),
            Err(e) => Err(e),
        };
        match read {
            Ok(n) => Run::Done { value: Ok(n), rest: replies.skip(1) },
            Err(e) => first_ok_run(
                rpcs.skip(1),
                method,
                params,
                reading,
                replies.skip(1),
                errors.push(e),
            ),
        }
    }
}

fn first_ok(tape: &mut Tape, rpcs: &[String], method: &str, params: &Json, reading: Reading) -> (r:
    Result<u128, Halt>)
    ensures
        ({
            let run = first_ok_run(
                texts(rpcs@),
                method@,
                params@,
                reading,
                old(tape)@,
                Seq::empty(),
            );
            match r {
                Ok(n) => gave(run, n as nat, final(tape)@) && (reading == Reading::Quantity ==> n
                    <= u64::MAX),
                Err(h) => halted(run, h, final(tape)@),
            }
        }),
{
    let ghost names = texts(rpcs@);
    let ghost whole = first_ok_run(names, method@, params@, reading, tape@, Seq::empty());
    let mut errors: Vec<String> = Vec::new();
    let mut i: usize = 0;
    assert(names.skip(0) =~= names);
    assert(texts(errors@) =~= Seq::<Seq<char>>::empty());
    while i < rpcs.len()
        invariant
            i <= rpcs@.len(),
            names == texts(rpcs@),
            whole == first_ok_run(
                names,
                method@,
                params@,
                reading,
                old(tape)@,
                Seq::empty(),
            ),
            whole == first_ok_run(
                names.skip(i as int),
                method@,
                params@,
                reading,
                tape@,
                texts(errors@),
            ),
        decreases rpcs@.len() - i,
    {
        let ghost before = texts(errors@);
        assert(names.skip(i as int).skip(1) =~= names.skip(i + 1));
        assert(names.skip(i as int)[0] == rpcs@[i as int]@);
        let why = match post(tape, rpcs[i].as_str(), method, params) {
            Ok(v) => match read_number(reading, rpcs[i].as_str(), &v) {
                Ok(n) => {
                    return Ok(n);
                },
                Err(e) => e,
            },
            Err(Halt::Fail(e)) => e,
            Err(Halt::Ask(q)) => {
                return Err(Halt::Ask(q));
            },
        };
        errors.push(why);
        assert(texts(errors@) =~= before.push(why@));
        i += 1;
    }
    Err(Halt::Fail(join(errors.as_slice(), "; ")))
}

/// The course of asking for the chain's id.
pub open spec fn chain_id_run(rpcs: Seq<Seq<char>>, replies: Seq<ReplyModel>) -> Run<nat> {
    first_ok_run(rpcs, "eth_chainId"@, no_params(), Reading::Quantity, replies, Seq::empty())
}

/// The chain's id, from the first RPC that tells it.
pub fn chain_id(tape: &mut Tape, rpcs: &[String]) -> (r: Result<u64, Halt>)
    ensures
        ({
            let run = chain_id_run(texts(rpcs@), old(tape)@);
            match r {
                Ok(n) => gave(run, n as nat, final(tape)@),
                Err(h) => halted(run, h, final(tape)@),
            }
        }),
{
    match first_ok(tape, rpcs, "eth_chainId", &empty_params(), Reading::Quantity) {
        Ok(n) => Ok(n as u64),
        Err(h) => Err(h),
    }
}

/// The course of finding the next nonce of an address: the highest that any RPC knows.
pub open spec fn nonce_run(
    rpcs: Seq<Seq<char>>,
    address: Seq<u8>,
    replies: Seq<ReplyModel>,
) -> Run<nat> {
    let params = text_array(seq![hex_0x(address), "pending"@]);
    match polled(rpcs, "eth_getTransactionCount"@, params, replies) {
        Run::Ask(q) => Run::Ask(q),
        Run::Done { value: Err(e), rest } => Run::Done { value: Err(e), rest },
        Run::Done { value: Ok(answers), rest } => Run::Done {
            value: highest_answer(rpcs, answers, "no RPC returned a nonce: "@),
            rest,
        },
    }
}

/// Pending nonce for `address`: the max across RPCs, so that we never reuse one.
pub fn pending_nonce(tape: &mut Tape, rpcs: &[String], address: &[u8; 20]) -> (r: Result<u64, Halt>)
    ensures
        ({
            let run = nonce_run(texts(rpcs@), address@, old(tape)@);
            match r {
                Ok(n) => gave(run, n as nat, final(tape)@),
                Err(h) => halted(run, h, final(tape)@),
            }
        }),
{
    let mut words: Vec<String> = Vec::new();
    words.push(to_hex_0x(address.as_slice()));
    words.push("pending".to_owned());
    assert(texts(words@) =~= seq![hex_0x(address@), "pending"@]);
    let params = Json::texts(words.as_slice());
    let results = match poll(tape, rpcs, "eth_getTransactionCount", &params) {
        Ok(results) => results,
        Err(h) => {
            return Err(h);
        },
    };
    assert(answers_of(results@).len() == rpcs@.len());
    match highest(rpcs, results.as_slice(), "no RPC returned a nonce: ") {
        Ok(n) => Ok(n),
        Err(e) => Err(Halt::Fail(e)),
    }
}

/// The parameters that ask for the latest block without its transactions.
pub open spec fn latest_block() -> JsonModel {
    JsonModel::Array(seq![JsonModel::Str("latest"@), JsonModel::Bool(false)])
}

/// The course of finding the fees: the base fee of the latest block, then a suggested priority fee.
/// Where no RPC suggests one, it is 0.05 gwei.
pub open spec fn fees_run(rpcs: Seq<Seq<char>>, replies: Seq<ReplyModel>) -> Run<(nat, nat)> {
    match first_ok_run(
        rpcs,
        "eth_getBlockByNumber"@,
        latest_block(),
        Reading::BaseFee,
        replies,
        Seq::empty(),
    ) {
        Run::Ask(q) => Run::Ask(q),
        Run::Done { value: Err(e), rest } => Run::Done { value: Err(e), rest },
        Run::Done { value: Ok(base), rest } => match first_ok_run(
            rpcs,
            "eth_maxPriorityFeePerGas"@,
            no_params(),
            Reading::Amount,
            rest,
            Seq::empty(),
        ) {
            Run::Ask(q) => Run::Ask(q),
            Run::Done { value: Err(_), rest } => Run::Done {
                value: Ok((base, DEFAULT_PRIORITY_FEE as nat)),
                rest,
            },
            Run::Done { value: Ok(priority), rest } => Run::Done {
                value: Ok((base, priority)),
                rest,
            },
        },
    }
}

/// (base_fee_per_gas, suggested_priority_fee) from the latest block, both in wei.
pub fn fees(tape: &mut Tape, rpcs: &[String]) -> (r: Result<(u128, u128), Halt>)
    ensures
        ({
            let run = fees_run(texts(rpcs@), old(tape)@);
            match r {
                Ok((base, priority)) => gave(run, (base as nat, priority as nat), final(tape)@),
                Err(h) => halted(run, h, final(tape)@),
            }
        }),
{
    let mut latest: Vec<Json> = Vec::new();
    latest.push(Json::text("latest"));
    latest.push(Json::Bool(false));
    assert(json_models(latest@) =~= seq![JsonModel::Str("latest"@), JsonModel::Bool(false)]);
    let params = Json::Array(latest);
    let base = match first_ok(tape, rpcs, "eth_getBlockByNumber", &params, Reading::BaseFee) {
        Ok(base) => base,
        Err(h) => {
            return Err(h);
        },
    };
    // eth_maxPriorityFeePerGas is widely but not universally supported.
    match first_ok(tape, rpcs, "eth_maxPriorityFeePerGas", &empty_params(), Reading::Amount) {
        Ok(priority) => Ok((base, priority)),
        Err(Halt::Fail(_)) => Ok((base, DEFAULT_PRIORITY_FEE)),
        Err(Halt::Ask(q)) => Err(Halt::Ask(q)),
    }
}

/// A call of a contract, as a JSON-RPC parameter.
pub open spec fn call_object(from: Seq<u8>, to: Seq<u8>, data: Seq<u8>) -> JsonModel {
    with_member(
        with_member(
            with_member(no_members(), "from"@, JsonModel::Str(hex_0x(from))),
            "to"@,
            JsonModel::Str(hex_0x(to)),
        ),
        "data"@,
        JsonModel::Str(hex_0x(data)),
    )
}

/// The course of asking how much gas a call takes.
pub open spec fn gas_run(
    rpcs: Seq<Seq<char>>,
    from: Seq<u8>,
    to: Seq<u8>,
    data: Seq<u8>,
    replies: Seq<ReplyModel>,
) -> Run<nat> {
    first_ok_run(
        rpcs,
        "eth_estimateGas"@,
        JsonModel::Array(seq![call_object(from, to, data)]),
        Reading::Quantity,
        replies,
        Seq::empty(),
    )
}

/// How much gas the call takes, from the first RPC that tells it.
pub fn estimate_gas(
    tape: &mut Tape,
    rpcs: &[String],
    from: &[u8; 20],
    to: &[u8; 20],
    data: &[u8],
) -> (r: Result<u64, Halt>)
    ensures
        ({
            let run = gas_run(texts(rpcs@), from@, to@, data@, old(tape)@);
            match r {
                Ok(n) => gave(run, n as nat, final(tape)@),
                Err(h) => halted(run, h, final(tape)@),
            }
        }),
{
    let mut call = Json::object();
    call.set("from", Json::Str(to_hex_0x(from.as_slice())));
    call.set("to", Json::Str(to_hex_0x(to.as_slice())));
    call.set("data", Json::Str(to_hex_0x(data)));
    let mut items: Vec<Json> = Vec::new();
    items.push(call);
    assert(json_models(items@) =~= seq![call_object(from@, to@, data@)]);
    let params = Json::Array(items);
    match first_ok(tape, rpcs, "eth_estimateGas", &params, Reading::Quantity) {
        Ok(n) => Ok(n as u64),
        Err(h) => Err(h),
    }
}

/// The last of the first `n` answers that is a text.
pub open spec fn last_text_upto(answers: Seq<Result<JsonModel, Seq<char>>>, n: nat) -> Option<
    Seq<char>,
>
    decreases n,
{
    if n == 0 {
        None
    } else {
        match answers[n - 1] {
            Ok(JsonModel::Str(s)) => Some(s),
            _ => last_text_upto(answers, (n - 1) as nat),
        }
    }
}

/// The errors among the first `n` answers.
pub open spec fn errors_upto(answers: Seq<Result<JsonModel, Seq<char>>>, n: nat) -> Seq<Seq<char>>
    decreases n,
{
    if n == 0 {
        Seq::empty()
    } else {
        match answers[n - 1] {
            Ok(_) => errors_upto(answers, (n - 1) as nat),
            Err(e) => errors_upto(answers, (n - 1) as nat).push(e),
        }
    }
}

/// The transaction hash that the last accepting RPC named.
pub open spec fn accepted_hash(answers: Seq<Result<JsonModel, Seq<char>>>) -> Result<
    Seq<char>,
    Seq<char>,
> {
    match last_text_upto(answers, answers.len()) {
        Some(h) => Ok(h),
        None => Err(
            "no RPC accepted the transaction: "@ + joined(
                errors_upto(answers, answers.len()),
                "; "@,
            ),
        ),
    }
}

/// The transaction hash that the last accepting RPC named.
pub fn accepted(results: &[Result<Json, String>]) -> (r: Result<String, String>)
    ensures
        match r {
            Ok(h) => accepted_hash(answers_of(results@)) == Ok::<Seq<char>, Seq<char>>(h@),
            Err(e) => accepted_hash(answers_of(results@)) == Err::<Seq<char>, Seq<char>>(e@),
        },
{
    let ghost answers = answers_of(results@);
    let mut hash: Option<String> = None;
    let mut errors: Vec<String> = Vec::new();
    let mut i: usize = 0;
    assert(texts(errors@) =~= Seq::<Seq<char>>::empty());
    while i < results.len()
        invariant
            i <= results@.len(),
            answers == answers_of(results@),
            match hash {
                Some(h) => last_text_upto(answers, i as nat) == Some(h@),
                None => last_text_upto(answers, i as nat) is None,
            },
            texts(errors@) == errors_upto(answers, i as nat),
        decreases results@.len() - i,
    {
        let ghost before = texts(errors@);
        match &results[i] {
            Ok(v) => {
                if let Some(h) = v.as_str() {
                    hash = Some(h.to_owned());
                }
            },
            Err(e) => {
                errors.push(e.clone());
                assert(texts(errors@) =~= before.push(e@));
            },
        }
        i += 1;
    }
    match hash {
        Some(h) => Ok(h),
        None => {
            let mut e = "no RPC accepted the transaction: ".to_owned();
            e.append(join(errors.as_slice(), "; ").as_str());
            Err(e)
        },
    }
}

/// The course of a broadcast: every RPC gets the transaction.
pub open spec fn send_run(rpcs: Seq<Seq<char>>, raw: Seq<u8>, replies: Seq<ReplyModel>) -> Run<
    Seq<char>,
> {
    match polled(rpcs, "eth_sendRawTransaction"@, text_array(seq![hex_0x(raw)]), replies) {
        Run::Ask(q) => Run::Ask(q),
        Run::Done { value: Err(e), rest } => Run::Done { value: Err(e), rest },
        Run::Done { value: Ok(answers), rest } => Run::Done {
            value: accepted_hash(answers),
            rest,
        },
    }
}

/// Broadcast to every RPC; succeed if any accepts. Returns the transaction hash.
pub fn send_raw(tape: &mut Tape, rpcs: &[String], raw: &[u8]) -> (r: Result<String, Halt>)
    ensures
        ({
            let run = send_run(texts(rpcs@), raw@, old(tape)@);
            match r {
                Ok(h) => gave(run, h@, final(tape)@),
                Err(h) => halted(run, h, final(tape)@),
            }
        }),
{
    let mut words: Vec<String> = Vec::new();
    words.push(to_hex_0x(raw));
    assert(texts(words@) =~= seq![hex_0x(raw@)]);
    let params = Json::texts(words.as_slice());
    let results = match poll(tape, rpcs, "eth_sendRawTransaction", &params) {
        Ok(results) => results,
        Err(h) => {
            return Err(h);
        },
    };
    match accepted(results.as_slice()) {
        Ok(h) => Ok(h),
        Err(e) => Err(Halt::Fail(e)),
    }
}

// ---- laws -----------------------------------------------------------------------------

/// Is the `i`th answer the text `text`, up to case?
pub open spec fn says(answers: Seq<Result<JsonModel, Seq<char>>>, i: int, text: Seq<char>) -> bool {
    0 <= i < answers.len() && match answers[i] {
        Ok(JsonModel::Str(s)) => lower_case(s) == text,
        _ => false,
    }
}

/// Did the RPC `who` answer the text `text`, up to case?
pub open spec fn vouched(
    rpcs: Seq<Seq<char>>,
    answers: Seq<Result<JsonModel, Seq<char>>>,
    text: Seq<char>,
    who: Seq<char>,
) -> bool {
    exists|i: int| #[trigger] says(answers, i, text) && rpcs[i] == who
}

/// How many of the first `n` answers are the text `text`, up to case.
pub open spec fn votes_upto(
    answers: Seq<Result<JsonModel, Seq<char>>>,
    text: Seq<char>,
    n: nat,
) -> nat
    decreases n,
{
    if n == 0 {
        0
    } else {
        votes_upto(answers, text, (n - 1) as nat) + if says(answers, n - 1, text) {
            1nat
        } else {
            0nat
        }
    }
}

/// How many answers are the text `text`, up to case.
pub open spec fn votes(answers: Seq<Result<JsonModel, Seq<char>>>, text: Seq<char>) -> nat {
    votes_upto(answers, text, answers.len())
}

pub(crate) proof fn lemma_backers_are_votes(
    rpcs: Seq<Seq<char>>,
    answers: Seq<Result<JsonModel, Seq<char>>>,
    text: Seq<char>,
    n: nat,
)
    requires
        n <= answers.len(),
    ensures
        backers(said_upto(rpcs, answers, n), text).len() == votes_upto(answers, text, n),
    decreases n,
{
    if n > 0 {
        lemma_backers_are_votes(rpcs, answers, text, (n - 1) as nat);
        let earlier = said_upto(rpcs, answers, (n - 1) as nat);
        let said = said_upto(rpcs, answers, n);
        match answers[n - 1] {
            Ok(JsonModel::Str(s)) => {
                assert(said.drop_last() =~= earlier);
            },
            _ => {},
        }
    }
}

proof fn lemma_backer_says(
    rpcs: Seq<Seq<char>>,
    answers: Seq<Result<JsonModel, Seq<char>>>,
    text: Seq<char>,
    n: nat,
    j: int,
)
    requires
        n <= answers.len(),
        0 <= j < backers(said_upto(rpcs, answers, n), text).len(),
    ensures
        vouched(rpcs, answers, text, backers(said_upto(rpcs, answers, n), text)[j]),
    decreases n,
{
    let said = said_upto(rpcs, answers, n);
    if n > 0 {
        let earlier = said_upto(rpcs, answers, (n - 1) as nat);
        match answers[n - 1] {
            Ok(JsonModel::Str(s)) => {
                assert(said.drop_last() =~= earlier);
                if j < backers(earlier, text).len() {
                    lemma_backer_says(rpcs, answers, text, (n - 1) as nat, j);
                } else {
                    assert(says(answers, n - 1, text));
                    assert(rpcs[n - 1] == backers(said, text)[j]);
                }
            },
            _ => {
                lemma_backer_says(rpcs, answers, text, (n - 1) as nat, j);
            },
        }
    }
}

proof fn lemma_no_backers(said: Seq<SaidModel>, text: Seq<char>)
    requires
        forall|i: int| 0 <= i < said.len() ==> (#[trigger] said[i]).text != text,
    ensures
        backers(said, text).len() == 0,
    decreases said.len(),
{
    if said.len() > 0 {
        assert(said.last() == said[said.len() - 1]);
        assert forall|i: int| 0 <= i < said.drop_last().len() implies (
        #[trigger] said.drop_last()[i]).text != text by {
            assert(said[i].text != text);
        }
        lemma_no_backers(said.drop_last(), text);
    }
}

pub(crate) proof fn lemma_leader(said: Seq<SaidModel>, n: nat)
    requires
        n <= said.len(),
    ensures
        match leader_upto(said, n) {
            None => n == 0,
            Some(best) => forall|j: int|
                0 <= j < n ==> backers(said, (#[trigger] said[j]).text).len() <= backers(
                    said,
                    best,
                ).len(),
        },
    decreases n,
{
    if n > 0 {
        lemma_leader(said, (n - 1) as nat);
    }
}

/// No text has more votes than the leading one.
pub(crate) proof fn lemma_leader_votes(
    rpcs: Seq<Seq<char>>,
    answers: Seq<Result<JsonModel, Seq<char>>>,
    text: Seq<char>,
)
    requires
        ({
            let said = said_upto(rpcs, answers, answers.len());
            leader_upto(said, said.len()) == Some(text)
        }),
    ensures
        forall|other: Seq<char>| #[trigger] votes(answers, other) <= votes(answers, text),
{
    let n = answers.len();
    let said = said_upto(rpcs, answers, n);
    lemma_leader(said, said.len());
    lemma_backers_are_votes(rpcs, answers, text, n);
    assert forall|other: Seq<char>| #[trigger] votes(answers, other) <= votes(answers, text) by {
        lemma_backers_are_votes(rpcs, answers, other, n);
        if exists|i: int| 0 <= i < said.len() && (#[trigger] said[i]).text == other {
        } else {
            lemma_no_backers(said, other);
        }
    }
}

/// The quorum rule. A value is accepted only if at least `min_agree` RPCs gave that very answer, up
/// to case; each RPC that is named as having agreed did give it; and no other answer was given more
/// often. A value is refused only if no RPC gave a usable answer, or none was given by as many as
/// `min_agree`.
pub proof fn law_quorum(
    rpcs: Seq<Seq<char>>,
    method: Seq<char>,
    block: nat,
    min_agree: nat,
    answers: Seq<Result<JsonModel, Seq<char>>>,
)
    ensures
        match agreement(rpcs, method, block, min_agree, answers) {
            Ok((text, agreed)) => {
                &&& votes(answers, text) >= min_agree
                &&& agreed.len() == votes(answers, text)
                &&& forall|other: Seq<char>| #[trigger]
                    votes(answers, other) <= votes(answers, text)
                &&& forall|j: int|
                    0 <= j < agreed.len() ==> vouched(rpcs, answers, text, #[trigger] agreed[j])
            },
            Err(_) => {
                ||| forall|other: Seq<char>| #[trigger] votes(answers, other) == 0
                ||| forall|other: Seq<char>| #[trigger] votes(answers, other) < min_agree
            },
        },
{
    let n = answers.len();
    let said = said_upto(rpcs, answers, n);
    lemma_leader(said, said.len());
    assert forall|other: Seq<char>| #[trigger] votes(answers, other) == backers(
        said,
        other,
    ).len() by {
        lemma_backers_are_votes(rpcs, answers, other, n);
    }
    match leader_upto(said, said.len()) {
        None => {
            assert forall|other: Seq<char>| #[trigger] votes(answers, other) == 0 by {
                lemma_no_backers(said, other);
            }
        },
        Some(text) => {
            assert forall|other: Seq<char>| #[trigger] votes(answers, other) <= votes(
                answers,
                text,
            ) by {
                if exists|i: int| 0 <= i < said.len() && (#[trigger] said[i]).text == other {
                } else {
                    lemma_no_backers(said, other);
                }
            }
            let agreed = backers(said, text);
            assert forall|j: int| 0 <= j < agreed.len() implies vouched(
                rpcs,
                answers,
                text,
                #[trigger] agreed[j],
            ) by {
                lemma_backer_says(rpcs, answers, text, n, j);
            }
            assert(votes(answers, text) == agreed.len());
            if agreed.len() < min_agree {
                assert forall|other: Seq<char>| #[trigger] votes(answers, other) < min_agree by {
                    assert(votes(answers, other) <= votes(answers, text));
                }
            } else {
                assert(agreement(rpcs, method, block, min_agree, answers) == Ok::<
                    (Seq<char>, Seq<Seq<char>>),
                    Seq<char>,
                >((text, agreed)));
            }
        },
    }
}

/// Is the `i`th answer the quantity `q`?
pub open spec fn is_quantity(answers: Seq<Result<JsonModel, Seq<char>>>, i: int, q: nat) -> bool {
    0 <= i < answers.len() && match answers[i] {
        Ok(v) => quantity_in(v) == Ok::<nat, Seq<char>>(q),
        Err(_) => false,
    }
}

proof fn lemma_highest(answers: Seq<Result<JsonModel, Seq<char>>>, n: nat)
    requires
        n <= answers.len(),
    ensures
        match highest_upto(answers, n) {
            Some(m) => {
                &&& exists|i: int| i < n && #[trigger] is_quantity(answers, i, m)
                &&& forall|i: int, q: nat| i < n && #[trigger] is_quantity(answers, i, q) ==> q <= m
            },
            None => forall|i: int, q: nat| i < n ==> !#[trigger] is_quantity(answers, i, q),
        },
    decreases n,
{
    if n > 0 {
        lemma_highest(answers, (n - 1) as nat);
        let earlier = highest_upto(answers, (n - 1) as nat);
        if let Some(m) = earlier {
            let i = choose|i: int| i < n - 1 && #[trigger] is_quantity(answers, i, m);
            assert(i < n && is_quantity(answers, i, m));
        }
        if let Some(m) = highest_upto(answers, n) {
            if earlier != Some(m) {
                assert(is_quantity(answers, n - 1, m));
            }
            assert forall|i: int, q: nat| i < n && #[trigger] is_quantity(answers, i, q) implies q
                <= m by {
                if i < n - 1 {
                    assert(earlier is Some);
                }
            }
        } else {
            assert forall|i: int, q: nat| i < n implies !#[trigger] is_quantity(answers, i, q) by {
                if i < n - 1 {
                    assert(earlier is None);
                }
            }
        }
    }
}

/// The highest answer is one that some RPC gave, and no RPC gave a higher one. It is missing only
/// if no RPC gave a quantity.
pub proof fn law_highest_is_maximal(
    rpcs: Seq<Seq<char>>,
    answers: Seq<Result<JsonModel, Seq<char>>>,
    missing: Seq<char>,
)
    ensures
        match highest_answer(rpcs, answers, missing) {
            Ok(m) => {
                &&& exists|i: int| #[trigger] is_quantity(answers, i, m)
                &&& forall|i: int, q: nat| #[trigger] is_quantity(answers, i, q) ==> q <= m
            },
            Err(_) => forall|i: int, q: nat| !#[trigger] is_quantity(answers, i, q),
        },
{
    lemma_highest(answers, answers.len());
}

proof fn lemma_hex_number_bound(acc: nat, s: Seq<char>, max: nat)
    requires
        acc <= max,
    ensures
        match hex_number_from(acc, s, max) {
            Ok(n) => n <= max,
            Err(_) => true,
        },
    decreases s.len(),
{
    if s.len() > 0 {
        if let Some(d) = hex_digit(s[0]) {
            if acc * 16 + d <= max {
                lemma_hex_number_bound(acc * 16 + d, s.skip(1), max);
            }
        }
    }
}

/// A quantity is a `u64`.
pub(crate) proof fn lemma_quantity_bound(v: JsonModel)
    ensures
        match quantity_in(v) {
            Ok(n) => n <= u64::MAX,
            Err(_) => true,
        },
{
    if let Some(s) = text_in(v) {
        let digits = without_all_0x(s);
        lemma_hex_number_bound(0, digits, u64::MAX as nat);
        lemma_hex_number_bound(0, digits.skip(1), u64::MAX as nat);
    }
}

pub(crate) proof fn lemma_hex_number_push(acc: nat, s: Seq<char>, c: char, max: nat)
    ensures
        hex_number_from(acc, s.push(c), max) == (match hex_number_from(acc, s, max) {
            Ok(v) => hex_number_from(v, seq![c], max),
            Err(e) => Err(e),
        }),
    decreases s.len(),
{
    if s.len() == 0 {
        assert(s.push(c) =~= seq![c]);
    } else {
        assert(s.push(c).skip(1) =~= s.skip(1).push(c));
        if let Some(d) = hex_digit(s[0]) {
            lemma_hex_number_push(acc * 16 + d, s.skip(1), c, max);
        }
    }
}

proof fn lemma_numeral_read(n: nat, max: nat)
    requires
        n <= max,
    ensures
        hex_number_from(0, numeral(n, 16), max) == Ok::<nat, Seq<char>>(n),
        numeral(n, 16).len() > 0,
    decreases n,
{
    let c = digit_char(n % 16);
    assert(hex_digit(c) == Some(n % 16));
    let one = seq![c];
    assert(one.skip(1) =~= Seq::<char>::empty());
    if n < 16 {
        assert(numeral(n, 16) =~= one);
        assert(hex_number_from(n, one.skip(1), max) == Ok::<nat, Seq<char>>(n));
    } else {
        let head = numeral(n / 16, 16);
        lemma_numeral_read(n / 16, max);
        lemma_hex_number_push(0, head, c, max);
        assert((n / 16) * 16 + n % 16 == n);
        assert(hex_number_from(n, one.skip(1), max) == Ok::<nat, Seq<char>>(n));
    }
}

/// The block tag of a read spells the block that it is pinned to.
pub proof fn law_block_tag(block: nat)
    requires
        block <= u64::MAX,
    ensures
        hex_amount("0x"@ + numeral(block, 16), u64::MAX as nat) == Ok::<nat, Seq<char>>(block),
{
    reveal_strlit("0x");
    let digits = numeral(block, 16);
    let tag = "0x"@ + digits;
    lemma_numeral_read(block, u64::MAX as nat);
    lemma_numeral_value(block);
    assert(tag.skip(2) =~= digits);
    assert(hex_digit(digits[0]) is Some);
    if digits.len() > 1 {
        assert(hex_digit(digits[1]) is Some);
    }
    assert(!has_0x(digits));
    assert(without_all_0x(digits) == digits);
    assert(without_all_0x(tag) == digits);
}

} // verus!
