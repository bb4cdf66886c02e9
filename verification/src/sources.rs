//! What a collect item means: what is asked for it, and what value and evidence an answer gives.

use vstd::prelude::*;
use vstd::utf8::encode_utf8;

use crate::abi::{
    all_digits, all_flat, all_well_formed, digits_value, hex_0x, hex_address, hex_bytes,
    law_flat_words, law_quantity, lemma_flat_len, list_encoding, quantity_bytes, tail_sizes,
    word_at, AbiValue,
};
use crate::bytes::{be_value, lemma_minimal_be, lemma_trimming_keeps_value};
use crate::eas::RawModel;
use crate::env::var_in;
use crate::evm::{
    balance_call, collect_run, digested, local_value, question_of, source_in, supply_call,
    takes_read, SourceModel,
};
use crate::guarantees::answers_in;
use crate::json::{member, JsonModel};
use crate::keccak::keccak_digest;
use crate::rpc::{agreement, at_block, law_quorum, votes};
use crate::tape::{ReplyModel, Run};
use crate::text::{decimal_text, trimmed, without_0x, without_trailing};
use crate::wire::{givers, law_agreed, law_tagged, tagged};

verus! {

// ---- from an item to a source ---------------------------------------------------------

/// The 20 bytes that the text under `key` spells, if it spells 20.
pub open spec fn spelled_address(m: JsonModel, key: Seq<char>) -> Option<Seq<u8>> {
    match member(m, key) {
        Some(JsonModel::Str(s)) => match hex_bytes(s) {
            Ok(b) => if b.len() == 20 {
                Some(b)
            } else {
                None
            },
            Err(_) => None,
        },
        _ => None,
    }
}

/// The bytes that the text under `key` spells, if it spells any.
pub open spec fn spelled_bytes(m: JsonModel, key: Seq<char>) -> Option<Seq<u8>> {
    match member(m, key) {
        Some(JsonModel::Str(s)) => match hex_bytes(s) {
            Ok(b) => Some(b),
            Err(_) => None,
        },
        _ => None,
    }
}

/// The text under `key`, or the one that counts where there is none.
pub open spec fn stated(m: JsonModel, key: Seq<char>, otherwise: Seq<char>) -> Seq<char> {
    match member(m, key) {
        Some(JsonModel::Str(s)) => s,
        _ => otherwise,
    }
}

proof fn lemma_kinds()
    ensures
        "erc20_balance"@ != "erc20_total_supply"@,
        "erc20_balance"@ != "native_balance"@,
        "erc20_balance"@ != "block_number"@,
        "erc20_balance"@ != "tee_attestation"@,
        "erc20_balance"@ != "eth_code"@,
        "erc20_balance"@ != "evm_call"@,
        "erc20_total_supply"@ != "native_balance"@,
        "erc20_total_supply"@ != "block_number"@,
        "erc20_total_supply"@ != "tee_attestation"@,
        "erc20_total_supply"@ != "eth_code"@,
        "erc20_total_supply"@ != "evm_call"@,
        "native_balance"@ != "block_number"@,
        "native_balance"@ != "tee_attestation"@,
        "native_balance"@ != "eth_code"@,
        "native_balance"@ != "evm_call"@,
        "block_number"@ != "tee_attestation"@,
        "block_number"@ != "eth_code"@,
        "block_number"@ != "evm_call"@,
        "tee_attestation"@ != "eth_code"@,
        "tee_attestation"@ != "evm_call"@,
        "eth_code"@ != "evm_call"@,
{
    reveal_strlit("erc20_balance");
    reveal_strlit("erc20_total_supply");
    reveal_strlit("native_balance");
    reveal_strlit("block_number");
    reveal_strlit("tee_attestation");
    reveal_strlit("eth_code");
    reveal_strlit("evm_call");
    assert("erc20_balance"@.len() == 13 && "erc20_total_supply"@.len() == 18
        && "native_balance"@.len() == 14 && "block_number"@.len() == 12 && "tee_attestation"@.len()
        == 15 && "eth_code"@.len() == 8 && "evm_call"@.len() == 8);
    assert("eth_code"@[1] == 't' && "evm_call"@[1] == 'v');
}

/// What each type of collect item describes, from the item's own members. An item is refused where
/// its type is unknown, or an address or the calldata that it needs is not spelled.
pub proof fn law_source(item: JsonModel)
    ensures
        match member(item, "type"@) {
            Some(JsonModel::Str(ty)) => {
                &&& ty == "erc20_balance"@ ==> match (
                    spelled_address(item, "token"@),
                    spelled_address(item, "holder"@),
                    source_in(item),
                ) {
                    (Some(a), Some(b), Ok(src)) => src == SourceModel::Erc20Balance {
                        token: a,
                        holder: b,
                    },
                    (Some(_), Some(_), Err(_)) => false,
                    (_, _, r) => r is Err,
                }
                &&& ty == "erc20_total_supply"@ ==> match (
                    spelled_address(item, "token"@),
                    source_in(item),
                ) {
                    (Some(a), Ok(src)) => src == SourceModel::Erc20TotalSupply { token: a },
                    (Some(_), Err(_)) => false,
                    (None, r) => r is Err,
                }
                &&& ty == "native_balance"@ ==> match (
                    spelled_address(item, "address"@),
                    source_in(item),
                ) {
                    (Some(a), Ok(src)) => src == SourceModel::NativeBalance { address: a },
                    (Some(_), Err(_)) => false,
                    (None, r) => r is Err,
                }
                &&& ty == "block_number"@ ==> match source_in(item) {
                    Ok(src) => src is BlockNumber,
                    Err(_) => false,
                }
                &&& ty == "tee_attestation"@ ==> match source_in(item) {
                    Ok(SourceModel::TeeAttestation { form, api_base }) => {
                        &&& form == stated(item, "returns"@, "url"@)
                        &&& api_base == without_trailing(
                            stated(item, "api_base"@, "https://api.outlayer.ai"@),
                            '/',
                        )
                    },
                    _ => false,
                }
                &&& ty == "eth_code"@ ==> match (
                    spelled_address(item, "address"@),
                    source_in(item),
                ) {
                    (Some(a), Ok(src)) => src == SourceModel::EthCode {
                        address: a,
                        report: stated(item, "returns"@, "code_hash"@),
                    },
                    (Some(_), Err(_)) => false,
                    (None, r) => r is Err,
                }
                &&& ty == "evm_call"@ ==> match (
                    spelled_address(item, "to"@),
                    spelled_bytes(item, "data"@),
                    source_in(item),
                ) {
                    (Some(a), Some(d), Ok(src)) => src == SourceModel::EvmCall {
                        to: a,
                        data: d,
                        returns: stated(item, "returns"@, "uint256"@),
                    },
                    (Some(_), Some(_), Err(_)) => false,
                    (_, _, r) => r is Err,
                }
                &&& ty != "erc20_balance"@ && ty != "erc20_total_supply"@ && ty
                    != "native_balance"@ && ty != "block_number"@ && ty != "tee_attestation"@ && ty
                    != "eth_code"@ && ty != "evm_call"@ ==> source_in(item) is Err
            },
            _ => source_in(item) is Err,
        },
{
    lemma_kinds();
}

// ---- what is asked --------------------------------------------------------------------

/// Are these the parameters of a call of `to` with `data` at the block: one object with the two
/// members `to` and `data`, then the block's tag?
pub open spec fn asks_call(params: JsonModel, to: Seq<u8>, data: Seq<u8>, block: nat) -> bool {
    exists|call: JsonModel|
        {
            &&& #[trigger] tagged(params, seq![call], block)
            &&& call is Object
            &&& forall|key: Seq<char>| #[trigger]
                member(call, key) == if key == "to"@ {
                    Some(JsonModel::Str(hex_0x(to)))
                } else if key == "data"@ {
                    Some(JsonModel::Str(hex_0x(data)))
                } else {
                    None
                }
        }
}

/// Are these the parameters of a question about the address at the block?
pub open spec fn asks_about(params: JsonModel, address: Seq<u8>, block: nat) -> bool {
    tagged(params, seq![JsonModel::Str(hex_0x(address))], block)
}

/// Is `data` the calldata of `balanceOf(address)` for the holder?
pub open spec fn asks_balance(data: Seq<u8>, holder: Seq<u8>) -> bool {
    &&& data.len() == 36
    &&& data.take(4) == keccak_digest(encode_utf8("balanceOf(address)"@)).take(4)
    &&& forall|k: int| 4 <= k < 16 ==> #[trigger] data[k] == 0
    &&& data.skip(16) == holder
}

/// Is `data` the calldata of `totalSupply()`?
pub open spec fn asks_supply(data: Seq<u8>) -> bool {
    data == keccak_digest(encode_utf8("totalSupply()"@)).take(4)
}

proof fn lemma_balance_call(holder: Seq<u8>)
    requires
        holder.len() == 20,
        keccak_digest(encode_utf8("balanceOf(address)"@)).len() == 32,
    ensures
        asks_balance(balance_call(holder), holder),
{
    let items = seq![AbiValue::Address(holder)];
    let c = balance_call(holder);
    let sel = keccak_digest(encode_utf8("balanceOf(address)"@)).take(4);
    let e = list_encoding(items);
    assert(all_flat(items));
    assert(all_well_formed(items));
    lemma_flat_len(items);
    assert(tail_sizes(items, 1) == 0) by {
        reveal_with_fuel(tail_sizes, 2);
    }
    law_flat_words(items, 0);
    assert(c == sel + e);
    assert(c.take(4) =~= sel);
    assert(word_at(e, 0) =~= e);
    assert(c.skip(16) =~= e.skip(12));
    assert forall|k: int| 4 <= k < 16 implies #[trigger] c[k] == 0 by {
        assert(c[k] == word_at(e, 0)[k - 4]);
    }
}

proof fn lemma_supply_call()
    ensures
        asks_supply(supply_call()),
{
    let none = Seq::<AbiValue>::empty();
    assert(all_flat(none));
    assert(all_well_formed(none));
    lemma_flat_len(none);
    assert(list_encoding(none) =~= Seq::<u8>::empty());
    assert(supply_call() =~= keccak_digest(encode_utf8("totalSupply()"@)).take(4));
}

proof fn lemma_call_params(to: Seq<u8>, data: Seq<u8>, block: nat)
    requires
        block <= u64::MAX,
    ensures
        asks_call(at_block(crate::evm::call_params(to, data), block), to, data, block),
{
    reveal_strlit("to");
    reveal_strlit("data");
    assert("to"@.len() == 2 && "data"@.len() == 4);
    let p = crate::evm::call_params(to, data);
    let call = p->Array_0[0];
    assert(p->Array_0 =~= seq![call]);
    law_tagged(seq![call], block);
    assert(tagged(at_block(p, block), seq![call], block));
}

/// What is asked for a source, of each RPC in turn: a token's `balanceOf` the holder or its
/// `totalSupply`, an account's balance or code, or the very call that the item spells. Nothing is
/// asked for the block number and for the execution's own identifier.
pub proof fn law_asked(
    src: SourceModel,
    env: Seq<(Seq<char>, Seq<char>)>,
    rpcs: Seq<Seq<char>>,
    block: nat,
    min_agree: nat,
    s: Seq<ReplyModel>,
)
    requires
        block <= u64::MAX,
        keccak_digest(encode_utf8("balanceOf(address)"@)).len() == 32,
    ensures
        match collect_run(src, env, rpcs, block, min_agree, s) {
            Run::Ask(q) => {
                &&& s.len() < rpcs.len()
                &&& q.url == rpcs[s.len() as int]
                &&& match src {
                    SourceModel::Erc20Balance { token, holder } => holder.len() == 20 ==> {
                        &&& q.method == "eth_call"@
                        &&& exists|data: Seq<u8>| #[trigger]
                            asks_call(q.params, token, data, block) && asks_balance(data, holder)
                    },
                    SourceModel::Erc20TotalSupply { token } => {
                        &&& q.method == "eth_call"@
                        &&& exists|data: Seq<u8>| #[trigger]
                            asks_call(q.params, token, data, block) && asks_supply(data)
                    },
                    SourceModel::NativeBalance { address } => {
                        &&& q.method == "eth_getBalance"@
                        &&& asks_about(q.params, address, block)
                    },
                    SourceModel::EthCode { address, .. } => {
                        &&& q.method == "eth_getCode"@
                        &&& asks_about(q.params, address, block)
                    },
                    SourceModel::EvmCall { to, data, .. } => {
                        &&& q.method == "eth_call"@
                        &&& asks_call(q.params, to, data, block)
                    },
                    SourceModel::BlockNumber => false,
                    SourceModel::TeeAttestation { .. } => false,
                }
            },
            Run::Done { .. } => takes_read(src) ==> s.len() >= rpcs.len(),
        },
{
    match src {
        SourceModel::Erc20Balance { token, holder } => {
            lemma_call_params(token, balance_call(holder), block);
            if holder.len() == 20 {
                lemma_balance_call(holder);
            }
        },
        SourceModel::Erc20TotalSupply { token } => {
            lemma_call_params(token, supply_call(), block);
            lemma_supply_call();
        },
        SourceModel::NativeBalance { address } => {
            let p = crate::json::text_array(seq![hex_0x(address)]);
            assert(p->Array_0 =~= seq![JsonModel::Str(hex_0x(address))]);
            law_tagged(seq![JsonModel::Str(hex_0x(address))], block);
        },
        SourceModel::EthCode { address, .. } => {
            let p = crate::json::text_array(seq![hex_0x(address)]);
            assert(p->Array_0 =~= seq![JsonModel::Str(hex_0x(address))]);
            law_tagged(seq![JsonModel::Str(hex_0x(address))], block);
        },
        SourceModel::EvmCall { to, data, .. } => {
            lemma_call_params(to, data, block);
        },
        _ => {},
    }
}

/// The read of an `evm_call` item: every request is an `eth_call` of the address that the item
/// spells, with the very calldata that it spells.
pub proof fn law_evm_call_asked(
    item: JsonModel,
    to: Seq<u8>,
    data: Seq<u8>,
    env: Seq<(Seq<char>, Seq<char>)>,
    rpcs: Seq<Seq<char>>,
    block: nat,
    min_agree: nat,
    s: Seq<ReplyModel>,
)
    requires
        member(item, "type"@) == Some(JsonModel::Str("evm_call"@)),
        spelled_address(item, "to"@) == Some(to),
        spelled_bytes(item, "data"@) == Some(data),
        block <= u64::MAX,
    ensures
        match source_in(item) {
            Ok(src) => match collect_run(src, env, rpcs, block, min_agree, s) {
                Run::Ask(q) => {
                    &&& s.len() < rpcs.len()
                    &&& q.url == rpcs[s.len() as int]
                    &&& q.method == "eth_call"@
                    &&& asks_call(q.params, to, data, block)
                },
                Run::Done { .. } => s.len() >= rpcs.len(),
            },
            Err(_) => false,
        },
{
    law_source(item);
    lemma_call_params(to, data, block);
}

// ---- what an answer means -------------------------------------------------------------

/// The first 32 bytes that an answer spells, if it spells as many.
pub open spec fn first_word(text: Seq<char>) -> Option<Seq<u8>> {
    match hex_bytes(text) {
        Ok(b) => if b.len() >= 32 {
            Some(b.subrange(0, 32))
        } else {
            None
        },
        Err(_) => None,
    }
}

/// Is `raw` the number `n`, in bytes without leading zeros?
pub open spec fn is_number(raw: RawModel, n: nat) -> bool {
    match raw {
        RawModel::Bytes(b) => be_value(b) == n && (b.len() > 0 ==> b[0] != 0),
        _ => false,
    }
}

/// Does the evidence name the source, the RPCs that agreed, and the value?
pub open spec fn vouches(
    evidence: JsonModel,
    source: Seq<char>,
    value_hex: Seq<char>,
    agreed: Seq<Seq<char>>,
) -> bool {
    &&& member(evidence, "source"@) == Some(JsonModel::Str(source))
    &&& member(evidence, "value_hex"@) == Some(JsonModel::Str(value_hex))
    &&& lists(evidence, agreed)
}

/// Does the evidence list these RPCs, in this order, as those that agreed?
pub open spec fn lists(evidence: JsonModel, agreed: Seq<Seq<char>>) -> bool {
    match member(evidence, "agreed_by"@) {
        Some(JsonModel::Array(items)) => {
            &&& items.len() == agreed.len()
            &&& forall|i: int|
                0 <= i < items.len() ==> #[trigger] items[i] == JsonModel::Str(agreed[i])
        },
        _ => false,
    }
}

proof fn lemma_names()
    ensures
        "source"@.len() == 6,
        "token"@.len() == 5,
        "holder"@.len() == 6,
        "address"@.len() == 7,
        "value_hex"@.len() == 9,
        "agreed_by"@.len() == 9,
        "to"@.len() == 2,
        "returns"@.len() == 7,
        "report"@.len() == 6,
        "code_size"@.len() == 9,
        "code_hash"@.len() == 9,
        "is_contract"@.len() == 11,
        "execution_id"@.len() == 12,
        "attestation_url"@.len() == 15,
        "value"@.len() == 5,
        "source"@[0] == 's',
        "holder"@[0] == 'h',
        "report"@[0] == 'r',
        "address"@[0] == 'a',
        "returns"@[0] == 'r',
        "value_hex"@[0] == 'v',
        "agreed_by"@[0] == 'a',
        "code_size"@[0] == 'c',
        "code_hash"@[0] == 'c',
        "code_size"@[5] == 's',
        "code_hash"@[5] == 'h',
        "token"@[0] == 't',
        "value"@[0] == 'v',
{
    reveal_strlit("source");
    reveal_strlit("token");
    reveal_strlit("holder");
    reveal_strlit("address");
    reveal_strlit("value_hex");
    reveal_strlit("agreed_by");
    reveal_strlit("to");
    reveal_strlit("returns");
    reveal_strlit("report");
    reveal_strlit("code_size");
    reveal_strlit("code_hash");
    reveal_strlit("is_contract");
    reveal_strlit("execution_id");
    reveal_strlit("attestation_url");
    reveal_strlit("value");
}

/// A token's balance or supply is the number that the first word of the agreed answer spells; an
/// answer of fewer than 32 bytes is refused. The evidence names the token, the holder, the word and
/// who agreed.
pub proof fn law_token_amount(
    token: Seq<u8>,
    holder: Seq<u8>,
    text: Seq<char>,
    agreed: Seq<Seq<char>>,
)
    ensures
        match (
            first_word(text),
            digested(SourceModel::Erc20Balance { token, holder }, text, agreed),
        ) {
            (Some(w), Ok((raw, evidence))) => {
                &&& is_number(raw, be_value(w))
                &&& vouches(evidence, "erc20_balance"@, hex_0x(w), agreed)
                &&& member(evidence, "token"@) == Some(JsonModel::Str(hex_0x(token)))
                &&& member(evidence, "holder"@) == Some(JsonModel::Str(hex_0x(holder)))
                &&& forall|key: Seq<char>| (#[trigger] member(evidence, key)) is Some ==> key
                    == "source"@ || key == "value_hex"@ || key == "agreed_by"@ || key == "token"@
                    || key == "holder"@
            },
            (Some(_), Err(_)) => false,
            (None, r) => r is Err,
        },
        match (first_word(text), digested(SourceModel::Erc20TotalSupply { token }, text, agreed)) {
            (Some(w), Ok((raw, evidence))) => {
                &&& is_number(raw, be_value(w))
                &&& vouches(evidence, "erc20_total_supply"@, hex_0x(w), agreed)
                &&& member(evidence, "token"@) == Some(JsonModel::Str(hex_0x(token)))
                &&& forall|key: Seq<char>| (#[trigger] member(evidence, key)) is Some ==> key
                    == "source"@ || key == "value_hex"@ || key == "agreed_by"@ || key == "token"@
            },
            (Some(_), Err(_)) => false,
            (None, r) => r is Err,
        },
{
    lemma_names();
    if let Some(w) = first_word(text) {
        assert(hex_bytes(text)->Ok_0.take(32) =~= w);
        lemma_trimming_keeps_value(w);
    }
}

/// A native balance is the number that the agreed answer spells as a quantity. The evidence names the
/// account, the answer as it stands and who agreed.
pub proof fn law_native_amount(address: Seq<u8>, text: Seq<char>, agreed: Seq<Seq<char>>)
    ensures
        match (quantity_bytes(text), digested(SourceModel::NativeBalance { address }, text, agreed)) {
            (Ok(b), Ok((raw, evidence))) => {
                &&& is_number(raw, be_value(b))
                &&& vouches(evidence, "native_balance"@, text, agreed)
                &&& member(evidence, "address"@) == Some(JsonModel::Str(hex_0x(address)))
                &&& forall|key: Seq<char>| (#[trigger] member(evidence, key)) is Some ==> key
                    == "source"@ || key == "value_hex"@ || key == "agreed_by"@ || key == "address"@
            },
            (Ok(_), Err(_)) => false,
            (Err(e), r) => r == Err::<(RawModel, JsonModel), Seq<char>>(e),
        },
        all_digits(without_0x(text)) && text == "0x"@ + without_0x(text) ==> match digested(
            SourceModel::NativeBalance { address },
            text,
            agreed,
        ) {
            Ok((raw, _)) => is_number(raw, digits_value(without_0x(text))),
            Err(_) => false,
        },
{
    lemma_names();
    if let Ok(b) = quantity_bytes(text) {
        lemma_trimming_keeps_value(b);
    }
    if all_digits(without_0x(text)) {
        law_quantity(without_0x(text));
    }
}

/// What a contract call returned: where the item says `address`, the last 20 bytes of the first word;
/// where it says `bytes32`, the word; else the number that the word spells. The evidence names the
/// contract, the reading, the word and who agreed.
pub proof fn law_call_result(
    to: Seq<u8>,
    data: Seq<u8>,
    form: Seq<char>,
    text: Seq<char>,
    agreed: Seq<Seq<char>>,
)
    ensures
        match (
            first_word(text),
            digested(SourceModel::EvmCall { to, data, returns: form }, text, agreed),
        ) {
            (Some(w), Ok((raw, evidence))) => {
                &&& trimmed(form) == "address"@ ==> raw == RawModel::Address(w.subrange(12, 32))
                &&& trimmed(form) == "bytes32"@ ==> raw == RawModel::Bytes(w)
                &&& trimmed(form) != "address"@ && trimmed(form) != "bytes32"@ ==> is_number(
                    raw,
                    be_value(w),
                )
                &&& vouches(evidence, "evm_call"@, hex_0x(w), agreed)
                &&& member(evidence, "to"@) == Some(JsonModel::Str(hex_0x(to)))
                &&& member(evidence, "returns"@) == Some(JsonModel::Str(form))
                &&& forall|key: Seq<char>| (#[trigger] member(evidence, key)) is Some ==> key
                    == "source"@ || key == "value_hex"@ || key == "agreed_by"@ || key == "to"@
                    || key == "returns"@
            },
            (Some(_), Err(_)) => false,
            (None, r) => r is Err,
        },
{
    lemma_names();
    reveal_strlit("bytes32");
    assert("bytes32"@[0] == 'b');
    if let Some(w) = first_word(text) {
        assert(hex_bytes(text)->Ok_0.take(32) =~= w);
        assert(w.skip(12) =~= w.subrange(12, 32));
        lemma_trimming_keeps_value(w);
    }
}

/// A fact about a contract's code, from the bytes of the agreed answer: their Keccak digest, whether
/// there are any, or how many there are. The evidence names all three.
pub proof fn law_code_fact(
    address: Seq<u8>,
    report: Seq<char>,
    text: Seq<char>,
    agreed: Seq<Seq<char>>,
)
    ensures
        match (hex_bytes(text), digested(SourceModel::EthCode { address, report }, text, agreed)) {
            (Ok(code), Ok((raw, evidence))) => {
                &&& trimmed(report) == "code_hash"@ ==> raw == RawModel::Bytes(keccak_digest(code))
                &&& trimmed(report) == "is_contract"@ ==> is_number(
                    raw,
                    if code.len() > 0 {
                        1
                    } else {
                        0
                    },
                )
                &&& trimmed(report) == "code_size"@ ==> is_number(raw, code.len())
                &&& trimmed(report) == "code_hash"@ || trimmed(report) == "is_contract"@ || trimmed(
                    report,
                ) == "code_size"@
                &&& member(evidence, "source"@) == Some(JsonModel::Str("eth_code"@))
                &&& member(evidence, "address"@) == Some(JsonModel::Str(hex_0x(address)))
                &&& member(evidence, "report"@) == Some(JsonModel::Str(report))
                &&& member(evidence, "code_size"@) == Some(JsonModel::Unsigned(code.len() as u64))
                &&& member(evidence, "code_hash"@) == Some(
                    JsonModel::Str(hex_0x(keccak_digest(code))),
                )
                &&& member(evidence, "is_contract"@) == Some(JsonModel::Bool(code.len() > 0))
                &&& lists(evidence, agreed)
                &&& forall|key: Seq<char>| (#[trigger] member(evidence, key)) is Some ==> key
                    == "source"@ || key == "address"@ || key == "report"@ || key == "code_size"@
                    || key == "code_hash"@ || key == "is_contract"@ || key == "agreed_by"@
            },
            (Ok(_), Err(_)) => trimmed(report) != "code_hash"@ && trimmed(report)
                != "is_contract"@ && trimmed(report) != "code_size"@,
            (Err(e), r) => r == Err::<(RawModel, JsonModel), Seq<char>>(e),
        },
{
    lemma_names();
    if let Ok(code) = hex_bytes(text) {
        lemma_minimal_be(code.len());
        let one = seq![1u8];
        assert(one.drop_last() =~= Seq::<u8>::empty());
        assert(be_value(Seq::<u8>::empty()) == 0);
        assert(be_value(one) == 1);
    }
}

/// The block number of a source that asks for it is the block that it is pinned to.
pub proof fn law_block_value(env: Seq<(Seq<char>, Seq<char>)>, block: nat)
    ensures
        match local_value(SourceModel::BlockNumber, env, block) {
            Ok((raw, evidence)) => {
                &&& is_number(raw, block)
                &&& member(evidence, "source"@) == Some(JsonModel::Str("block_number"@))
                &&& member(evidence, "value"@) == Some(JsonModel::Unsigned(block as u64))
                &&& forall|key: Seq<char>| (#[trigger] member(evidence, key)) is Some ==> key
                    == "source"@ || key == "value"@
            },
            Err(_) => false,
        },
{
    lemma_names();
    lemma_minimal_be(block);
}

/// The value of a variable that is set and not empty.
pub open spec fn set_to(env: Seq<(Seq<char>, Seq<char>)>, name: Seq<char>) -> Option<Seq<char>> {
    match var_in(env, name) {
        Some(v) => if v.len() > 0 {
            Some(v)
        } else {
            None
        },
        None => None,
    }
}

/// An execution refers to its own quote by the identifier that the platform gave it: that of the
/// call, or else that of the request. The item says whether the bare identifier or the URL of the
/// quote is attested; the evidence names both. Without an identifier there is no value.
pub proof fn law_own_quote(
    form: Seq<char>,
    api_base: Seq<char>,
    env: Seq<(Seq<char>, Seq<char>)>,
    block: nat,
)
    ensures
        ({
            let found = local_value(SourceModel::TeeAttestation { form, api_base }, env, block);
            let call = set_to(env, "OUTLAYER_CALL_ID"@);
            let request = set_to(env, "NEAR_REQUEST_ID"@);
            match found {
                Ok((raw, evidence)) => {
                    let id = if call is Some {
                        call->0
                    } else {
                        request->0
                    };
                    let url = if call is Some {
                        api_base + "/attestations/by-"@ + "call"@ + "/"@ + id
                    } else {
                        api_base + "/attestations/by-"@ + "request"@ + "/"@ + id
                    };
                    &&& call is Some || request is Some
                    &&& trimmed(form) == "call_id"@ ==> raw == RawModel::Str(id)
                    &&& trimmed(form) == "url"@ ==> raw == RawModel::Str(url)
                    &&& trimmed(form) == "call_id"@ || trimmed(form) == "url"@
                    &&& member(evidence, "source"@) == Some(JsonModel::Str("tee_attestation"@))
                    &&& member(evidence, "execution_id"@) == Some(JsonModel::Str(id))
                    &&& member(evidence, "attestation_url"@) == Some(JsonModel::Str(url))
                    &&& forall|key: Seq<char>| (#[trigger] member(evidence, key)) is Some ==> key
                        == "source"@ || key == "execution_id"@ || key == "attestation_url"@
                },
                Err(_) => {
                    ||| call is None && request is None
                    ||| trimmed(form) != "call_id"@ && trimmed(form) != "url"@
                },
            }
        }),
{
    lemma_names();
    reveal_strlit("call_id");
    reveal_strlit("url");
    assert("call_id"@.len() == 7 && "url"@.len() == 3);
}

/// Is the item refused where the address under `key` is missing or spells no address, and told so?
pub open spec fn address_refused(item: JsonModel, ty: Seq<char>, key: Seq<char>) -> bool {
    match member(item, key) {
        Some(JsonModel::Str(s)) => hex_address(s) matches Err(e) ==> source_in(item) == Err::<
            SourceModel,
            Seq<char>,
        >(e),
        _ => source_in(item) == Err::<SourceModel, Seq<char>>(
            "collect "@ + ty + " missing \""@ + key + "\""@,
        ),
    }
}

/// What is said of a collect item that is not understood.
pub proof fn law_item_refused(item: JsonModel)
    ensures
        match member(item, "type"@) {
            Some(JsonModel::Str(ty)) => {
                &&& ty == "evm_call"@ && spelled_address(item, "to"@) is Some && !(member(
                    item,
                    "data"@,
                ) matches Some(JsonModel::Str(_))) ==> source_in(item) == Err::<
                    SourceModel,
                    Seq<char>,
                >("evm_call missing \"data\""@)
                &&& ty == "native_balance"@ || ty == "eth_code"@ ==> address_refused(
                    item,
                    ty,
                    "address"@,
                )
                &&& ty == "erc20_balance"@ || ty == "erc20_total_supply"@ ==> address_refused(
                    item,
                    ty,
                    "token"@,
                )
                &&& ty == "erc20_balance"@ && spelled_address(item, "token"@) is Some
                    ==> address_refused(item, ty, "holder"@)
                &&& ty == "evm_call"@ ==> address_refused(item, ty, "to"@)
                &&& ty != "erc20_balance"@ && ty != "erc20_total_supply"@ && ty
                    != "native_balance"@ && ty != "block_number"@ && ty != "tee_attestation"@ && ty
                    != "eth_code"@ && ty != "evm_call"@ ==> source_in(item) == Err::<
                    SourceModel,
                    Seq<char>,
                >("unknown collect type: "@ + ty)
            },
            _ => source_in(item) == Err::<SourceModel, Seq<char>>(
                "collect item missing \"type\""@,
            ),
        },
{
    lemma_kinds();
}

/// What is said of an answer, or of a choice, that gives no value.
pub proof fn law_no_value(
    to: Seq<u8>,
    data: Seq<u8>,
    form: Seq<char>,
    report: Seq<char>,
    api_base: Seq<char>,
    env: Seq<(Seq<char>, Seq<char>)>,
    block: nat,
    text: Seq<char>,
    agreed: Seq<Seq<char>>,
)
    ensures
        ({
            let called = digested(SourceModel::EvmCall { to, data, returns: form }, text, agreed);
            let held = digested(SourceModel::Erc20Balance { token: to, holder: data }, text, agreed);
            let issued = digested(SourceModel::Erc20TotalSupply { token: to }, text, agreed);
            let why = match hex_bytes(text) {
                Ok(b) => "eth_call returned "@ + decimal_text(b.len()) + " bytes, expected >= 32"@,
                Err(e) => e,
            };
            first_word(text) is None ==> {
                &&& called == Err::<(RawModel, JsonModel), Seq<char>>(why)
                &&& held == Err::<(RawModel, JsonModel), Seq<char>>(why)
                &&& issued == Err::<(RawModel, JsonModel), Seq<char>>(why)
            }
        }),
        trimmed(report) != "code_hash"@ && trimmed(report) != "is_contract"@ && trimmed(report)
            != "code_size"@ && hex_bytes(text) is Ok ==> digested(
            SourceModel::EthCode { address: to, report },
            text,
            agreed,
        ) == Err::<(RawModel, JsonModel), Seq<char>>(
            "eth_code returns must be code_hash|is_contract|code_size, got "@ + trimmed(report),
        ),
        set_to(env, "OUTLAYER_CALL_ID"@) is None && set_to(env, "NEAR_REQUEST_ID"@) is None
            ==> local_value(SourceModel::TeeAttestation { form, api_base }, env, block) == Err::<
            (RawModel, JsonModel),
            Seq<char>,
        >(
            "this execution exposed neither OUTLAYER_CALL_ID nor NEAR_REQUEST_ID, so the attestation cannot reference its own TEE quote; drop the tee_attestation source or run it through the OutLayer API"@,
        ),
        (set_to(env, "OUTLAYER_CALL_ID"@) is Some || set_to(env, "NEAR_REQUEST_ID"@) is Some)
            && trimmed(form) != "call_id"@ && trimmed(form) != "url"@ ==> local_value(
            SourceModel::TeeAttestation { form, api_base },
            env,
            block,
        ) == Err::<(RawModel, JsonModel), Seq<char>>(
            "tee_attestation returns must be url|call_id, got "@ + trimmed(form),
        ),
{
    lemma_kinds();
}

/// Is the text the one that most of the RPCs gave in these replies?
pub open spec fn leads(rpcs: Seq<Seq<char>>, replies: Seq<ReplyModel>, text: Seq<char>) -> bool {
    forall|other: Seq<char>| #[trigger]
        votes(answers_in(rpcs, replies), other) <= votes(answers_in(rpcs, replies), text)
}

/// What the text means for the source, with the RPCs that gave it as those that agreed.
pub open spec fn meaning(
    src: SourceModel,
    rpcs: Seq<Seq<char>>,
    replies: Seq<ReplyModel>,
    text: Seq<char>,
) -> Result<(RawModel, JsonModel), Seq<char>> {
    digested(src, text, givers(rpcs, answers_in(rpcs, replies), text, rpcs.len()))
}

/// A value that takes a read is what the text means that most of the RPCs gave, and at least
/// `min_agree` of them; its evidence names exactly the RPCs that gave it. It is refused where no text
/// was given that often, or where the text has no meaning. A value that takes no read is known at once.
pub proof fn law_collected(
    src: SourceModel,
    env: Seq<(Seq<char>, Seq<char>)>,
    rpcs: Seq<Seq<char>>,
    block: nat,
    min_agree: nat,
    s: Seq<ReplyModel>,
)
    ensures
        !takes_read(src) ==> collect_run(src, env, rpcs, block, min_agree, s) == (Run::Done {
            value: local_value(src, env, block),
            rest: s,
        }),
        takes_read(src) ==> match collect_run(src, env, rpcs, block, min_agree, s) {
            Run::Ask(_) => s.len() < rpcs.len(),
            Run::Done { value: Ok(found), rest } => {
                &&& s.len() >= rpcs.len()
                &&& rest == s.skip(rpcs.len() as int)
                &&& exists|text: Seq<char>|
                    {
                        &&& #[trigger] leads(rpcs, s, text)
                        &&& votes(answers_in(rpcs, s), text) >= min_agree
                        &&& meaning(src, rpcs, s, text) == Ok::<(RawModel, JsonModel), Seq<char>>(
                            found,
                        )
                    }
            },
            Run::Done { value: Err(e), rest } => {
                &&& s.len() >= rpcs.len()
                &&& rest == s.skip(rpcs.len() as int)
                &&& {
                    ||| forall|text: Seq<char>| #[trigger] votes(answers_in(rpcs, s), text) == 0
                    ||| forall|text: Seq<char>| #[trigger]
                        votes(answers_in(rpcs, s), text) < min_agree
                    ||| exists|text: Seq<char>|
                        {
                            &&& #[trigger] leads(rpcs, s, text)
                            &&& votes(answers_in(rpcs, s), text) >= min_agree
                            &&& meaning(src, rpcs, s, text) == Err::<
                                (RawModel, JsonModel),
                                Seq<char>,
                            >(e)
                        }
                }
            },
        },
{
    if takes_read(src) {
        let (method, head) = question_of(src)->0;
        let answers = answers_in(rpcs, s);
        law_quorum(rpcs, method, block, min_agree, answers);
        law_agreed(rpcs, method, block, min_agree, answers);
        if s.len() >= rpcs.len() {
            match agreement(rpcs, method, block, min_agree, answers) {
                Ok((text, agreed)) => {
                    assert(leads(rpcs, s, text));
                    assert(meaning(src, rpcs, s, text) == digested(src, text, agreed));
                },
                Err(_) => {},
            }
        }
    }
}

} // verus!
