//! Data collectors: the values that end up inside an attestation. Every read goes through the RPC
//! quorum, so a single lying provider cannot change what we attest.

use vstd::prelude::*;
use vstd::slice::{slice_subrange, slice_to_vec};
use vstd::string::*;

use crate::abi::{
    call, call_data, hex_0x, hex_address, hex_bytes, hex_to_array20, hex_to_bytes, law_quantity,
    lemma_numeral_value, quantity_bytes, quantity_to_bytes, to_hex_0x, val_models, AbiValue, Val,
};
use crate::bytes::{
    array20, array32, lemma_trimmed_is_minimal, min_be, minimal_be, trim_left,
    without_leading_zeros,
};
use crate::eas::{Raw, RawModel};
use crate::env::{lookup, var_in, variables};
use crate::json::{
    json_models, no_members, text_array, text_at, with_member, Json, JsonModel,
};
use crate::keccak::{keccak256, keccak_digest};
use crate::rpc::{quorum_read, quorum_run};
use crate::tape::{gave, halted, Halt, ReplyModel, Run, Tape};
use crate::text::{
    decimal, decimal_text, numeral, same, texts, trim, trim_end_matches, trimmed, without_trailing,
};

verus! {

/// Where a value comes from.
pub enum Source {
    /// ERC-20 `balanceOf(holder)` on `token`.
    Erc20Balance { token: [u8; 20], holder: [u8; 20] },
    /// ERC-20 `totalSupply()` on `token`.
    Erc20TotalSupply { token: [u8; 20] },
    /// Native coin balance of `address`.
    NativeBalance { address: [u8; 20] },
    /// Arbitrary `eth_call` to `to` with `data`; decode the first return word as `returns`.
    EvmCall { to: [u8; 20], data: Vec<u8>, returns: String },
    /// The pinned block number itself: no RPC read, just records which block was attested.
    BlockNumber,
    /// `eth_getCode(address)`: derive a fact about a contract's bytecode.
    /// `report`: "code_hash" (bytes32 keccak of the code), "is_contract" (bool), "code_size" (uint).
    EthCode { address: [u8; 20], report: String },
    /// This execution's own identifier, so the attestation can point at the TEE quote that produced
    /// it. `form`: "call_id" (the bare id) or "url" (the full attestation endpoint).
    TeeAttestation { form: String, api_base: String },
}

/// What a `Source` holds.
pub enum SourceModel {
    Erc20Balance { token: Seq<u8>, holder: Seq<u8> },
    Erc20TotalSupply { token: Seq<u8> },
    NativeBalance { address: Seq<u8> },
    EvmCall { to: Seq<u8>, data: Seq<u8>, returns: Seq<char> },
    BlockNumber,
    EthCode { address: Seq<u8>, report: Seq<char> },
    TeeAttestation { form: Seq<char>, api_base: Seq<char> },
}

impl View for Source {
    type V = SourceModel;

    open spec fn view(&self) -> SourceModel {
        match *self {
            Source::Erc20Balance { token, holder } => SourceModel::Erc20Balance {
                token: token@,
                holder: holder@,
            },
            Source::Erc20TotalSupply { token } => SourceModel::Erc20TotalSupply { token: token@ },
            Source::NativeBalance { address } => SourceModel::NativeBalance { address: address@ },
            Source::EvmCall { to, data, returns } => SourceModel::EvmCall {
                to: to@,
                data: data@,
                returns: returns@,
            },
            Source::BlockNumber => SourceModel::BlockNumber,
            Source::EthCode { address, report } => SourceModel::EthCode {
                address: address@,
                report: report@,
            },
            Source::TeeAttestation { form, api_base } => SourceModel::TeeAttestation {
                form: form@,
                api_base: api_base@,
            },
        }
    }
}

/// A collected value, and the evidence for it.
pub struct Collected {
    pub raw: Raw,
    pub evidence: Json,
}

// ---- reading a source from a job ------------------------------------------------------

/// The address that stands in a collect item of type `ty` under the given name.
pub open spec fn address_at(v: JsonModel, ty: Seq<char>, key: Seq<char>) -> Result<
    Seq<u8>,
    Seq<char>,
> {
    match text_at(v, key) {
        Some(s) => hex_address(s),
        None => Err("collect "@ + ty + " missing \""@ + key + "\""@),
    }
}

/// The text that stands in `v` under the given name, or else `otherwise`.
pub open spec fn text_or(v: JsonModel, key: Seq<char>, otherwise: Seq<char>) -> Seq<char> {
    match text_at(v, key) {
        Some(s) => s,
        None => otherwise,
    }
}

/// The source that a collect item describes.
pub open spec fn source_in(v: JsonModel) -> Result<SourceModel, Seq<char>> {
    match text_at(v, "type"@) {
        None => Err("collect item missing \"type\""@),
        Some(ty) => if ty == "erc20_balance"@ {
            match address_at(v, ty, "token"@) {
                Err(e) => Err(e),
                Ok(token) => match address_at(v, ty, "holder"@) {
                    Err(e) => Err(e),
                    Ok(holder) => Ok(SourceModel::Erc20Balance { token, holder }),
                },
            }
        } else if ty == "erc20_total_supply"@ {
            match address_at(v, ty, "token"@) {
                Err(e) => Err(e),
                Ok(token) => Ok(SourceModel::Erc20TotalSupply { token }),
            }
        } else if ty == "native_balance"@ {
            match address_at(v, ty, "address"@) {
                Err(e) => Err(e),
                Ok(address) => Ok(SourceModel::NativeBalance { address }),
            }
        } else if ty == "block_number"@ {
            Ok(SourceModel::BlockNumber)
        } else if ty == "tee_attestation"@ {
            Ok(
                SourceModel::TeeAttestation {
                    form: text_or(v, "returns"@, "url"@),
                    api_base: without_trailing(
                        text_or(v, "api_base"@, "https://api.outlayer.ai"@),
                        '/',
                    ),
                },
            )
        } else if ty == "eth_code"@ {
            match address_at(v, ty, "address"@) {
                Err(e) => Err(e),
                Ok(address) => Ok(
                    SourceModel::EthCode {
                        address,
                        report: text_or(v, "returns"@, "code_hash"@),
                    },
                ),
            }
        } else if ty == "evm_call"@ {
            match address_at(v, ty, "to"@) {
                Err(e) => Err(e),
                Ok(to) => match text_at(v, "data"@) {
                    None => Err("evm_call missing \"data\""@),
                    Some(s) => match hex_bytes(s) {
                        Err(e) => Err(e),
                        Ok(data) => Ok(
                            SourceModel::EvmCall {
                                to,
                                data,
                                returns: text_or(v, "returns"@, "uint256"@),
                            },
                        ),
                    },
                },
            }
        } else {
            Err("unknown collect type: "@ + ty)
        },
    }
}

fn read_address(v: &Json, ty: &str, key: &str) -> (r: Result<[u8; 20], String>)
    ensures
        match r {
            Ok(a) => address_at(v@, ty@, key@) == Ok::<Seq<u8>, Seq<char>>(a@),
            Err(e) => address_at(v@, ty@, key@) == Err::<Seq<u8>, Seq<char>>(e@),
        },
{
    match v.text_at(key) {
        Some(s) => hex_to_array20(s),
        None => {
            let mut e = "collect ".to_owned();
            e.append(ty);
            e.append(" missing \"");
            e.append(key);
            e.append("\"");
            Err(e)
        },
    }
}

fn read_text_or<'a>(v: &'a Json, key: &str, otherwise: &'a str) -> (r: &'a str)
    ensures
        r@ == text_or(v@, key@, otherwise@),
{
    match v.text_at(key) {
        Some(s) => s,
        None => otherwise,
    }
}

impl Source {
    /// The source that a collect item describes.
    pub fn from_json(v: &Json) -> (r: Result<Source, String>)
        ensures
            match r {
                Ok(s) => source_in(v@) == Ok::<SourceModel, Seq<char>>(s@),
                Err(e) => source_in(v@) == Err::<SourceModel, Seq<char>>(e@),
            },
    {
        let ty = match v.text_at("type") {
            Some(ty) => ty,
            None => {
                return Err("collect item missing \"type\"".to_owned());
            },
        };
        if same(ty, "erc20_balance") {
            match read_address(v, ty, "token") {
                Err(e) => Err(e),
                Ok(token) => match read_address(v, ty, "holder") {
                    Err(e) => Err(e),
                    Ok(holder) => Ok(Source::Erc20Balance { token, holder }),
                },
            }
        } else if same(ty, "erc20_total_supply") {
            match read_address(v, ty, "token") {
                Err(e) => Err(e),
                Ok(token) => Ok(Source::Erc20TotalSupply { token }),
            }
        } else if same(ty, "native_balance") {
            match read_address(v, ty, "address") {
                Err(e) => Err(e),
                Ok(address) => Ok(Source::NativeBalance { address }),
            }
        } else if same(ty, "block_number") {
            Ok(Source::BlockNumber)
        } else if same(ty, "tee_attestation") {
            let base = read_text_or(v, "api_base", "https://api.outlayer.ai");
            Ok(
                Source::TeeAttestation {
                    form: read_text_or(v, "returns", "url").to_owned(),
                    api_base: trim_end_matches(base, '/').to_owned(),
                },
            )
        } else if same(ty, "eth_code") {
            match read_address(v, ty, "address") {
                Err(e) => Err(e),
                Ok(address) => Ok(
                    Source::EthCode {
                        address,
                        report: read_text_or(v, "returns", "code_hash").to_owned(),
                    },
                ),
            }
        } else if same(ty, "evm_call") {
            match read_address(v, ty, "to") {
                Err(e) => Err(e),
                Ok(to) => match v.text_at("data") {
                    None => Err("evm_call missing \"data\"".to_owned()),
                    Some(s) => match hex_to_bytes(s) {
                        Err(e) => Err(e),
                        Ok(data) => Ok(
                            Source::EvmCall {
                                to,
                                data,
                                returns: read_text_or(v, "returns", "uint256").to_owned(),
                            },
                        ),
                    },
                },
            }
        } else {
            let mut e = "unknown collect type: ".to_owned();
            e.append(ty);
            Err(e)
        }
    }
}

// ---- what to ask ----------------------------------------------------------------------

/// The parameters of an `eth_call`.
pub open spec fn call_params(to: Seq<u8>, data: Seq<u8>) -> JsonModel {
    JsonModel::Array(
        seq![
            with_member(
                with_member(no_members(), "to"@, JsonModel::Str(hex_0x(to))),
                "data"@,
                JsonModel::Str(hex_0x(data)),
            ),
        ],
    )
}

/// The calldata that asks a token for the balance of `holder`.
pub open spec fn balance_call(holder: Seq<u8>) -> Seq<u8> {
    call_data("balanceOf(address)"@, seq![AbiValue::Address(holder)])
}

/// The calldata that asks a token for its total supply.
pub open spec fn supply_call() -> Seq<u8> {
    call_data("totalSupply()"@, Seq::empty())
}

/// Does the source take a read? The block number and the execution's own identifier are known
/// without one.
pub open spec fn takes_read(src: SourceModel) -> bool {
    !(src is BlockNumber) && !(src is TeeAttestation)
}

/// The read that a source takes: the method, and the parameters before the block tag.
pub open spec fn question_of(src: SourceModel) -> Option<(Seq<char>, JsonModel)> {
    match src {
        SourceModel::Erc20Balance { token, holder } => Some(
            ("eth_call"@, call_params(token, balance_call(holder))),
        ),
        SourceModel::Erc20TotalSupply { token } => Some(
            ("eth_call"@, call_params(token, supply_call())),
        ),
        SourceModel::NativeBalance { address } => Some(
            ("eth_getBalance"@, text_array(seq![hex_0x(address)])),
        ),
        SourceModel::EthCode { address, .. } => Some(
            ("eth_getCode"@, text_array(seq![hex_0x(address)])),
        ),
        SourceModel::EvmCall { to, data, .. } => Some(("eth_call"@, call_params(to, data))),
        SourceModel::BlockNumber => None,
        SourceModel::TeeAttestation { .. } => None,
    }
}

fn call_parameters(to: &[u8; 20], data: &[u8]) -> (r: Json)
    ensures
        r@ == call_params(to@, data@),
{
    let mut call = Json::object();
    call.set("to", Json::Str(to_hex_0x(to.as_slice())));
    call.set("data", Json::Str(to_hex_0x(data)));
    let mut items: Vec<Json> = Vec::new();
    items.push(call);
    assert(json_models(items@) =~= seq![call@]);
    Json::Array(items)
}

fn address_parameter(address: &[u8; 20]) -> (r: Json)
    ensures
        r@ == text_array(seq![hex_0x(address@)]),
{
    let mut words: Vec<String> = Vec::new();
    words.push(to_hex_0x(address.as_slice()));
    assert(texts(words@) =~= seq![hex_0x(address@)]);
    Json::texts(words.as_slice())
}

/// The read that a source takes: the method, and the parameters before the block tag.
pub fn question(src: &Source) -> (r: Option<(&'static str, Json)>)
    ensures
        r is Some <==> takes_read(src@),
        match r {
            Some((method, head)) => question_of(src@) == Some((method@, head@)),
            None => question_of(src@) is None,
        },
{
    match src {
        Source::Erc20Balance { token, holder } => {
            let mut args: Vec<Val> = Vec::new();
            args.push(Val::Address(*holder));
            assert(val_models(args@) =~= seq![AbiValue::Address(holder@)]);
            let data = call("balanceOf(address)", args.as_slice());
            Some(("eth_call", call_parameters(token, data.as_slice())))
        },
        Source::Erc20TotalSupply { token } => {
            let args: Vec<Val> = Vec::new();
            assert(val_models(args@) =~= Seq::<AbiValue>::empty());
            let data = call("totalSupply()", args.as_slice());
            Some(("eth_call", call_parameters(token, data.as_slice())))
        },
        Source::NativeBalance { address } => Some(("eth_getBalance", address_parameter(address))),
        Source::EthCode { address, .. } => Some(("eth_getCode", address_parameter(address))),
        Source::EvmCall { to, data, .. } => Some(("eth_call", call_parameters(to, data.as_slice()))),
        Source::BlockNumber => None,
        Source::TeeAttestation { .. } => None,
    }
}

// ---- what the answer means ------------------------------------------------------------

/// The first word that a call returned.
pub open spec fn word_in(text: Seq<char>) -> Result<Seq<u8>, Seq<char>> {
    match hex_bytes(text) {
        Err(e) => Err(e),
        Ok(b) => if b.len() < 32 {
            Err("eth_call returned "@ + decimal_text(b.len()) + " bytes, expected >= 32"@)
        } else {
            Ok(b.take(32))
        },
    }
}

/// A text member.
pub open spec fn with_text(m: JsonModel, key: Seq<char>, s: Seq<char>) -> JsonModel {
    with_member(m, key, JsonModel::Str(s))
}

/// The value that a contract call returned, read as a value of the given type.
pub open spec fn returned(word: Seq<u8>, form: Seq<char>) -> RawModel {
    let ty = trimmed(form);
    if ty == "address"@ {
        RawModel::Address(word.skip(12))
    } else if ty == "bytes32"@ {
        RawModel::Bytes(word)
    } else {
        RawModel::Bytes(without_leading_zeros(word))
    }
}

/// The fact about `code` that `report` asks for.
pub open spec fn code_fact(code: Seq<u8>, report: Seq<char>) -> Result<RawModel, Seq<char>> {
    let fact = trimmed(report);
    if fact == "is_contract"@ {
        Ok(
            RawModel::Bytes(
                if code.len() == 0 {
                    Seq::empty()
                } else {
                    seq![1u8]
                },
            ),
        )
    } else if fact == "code_size"@ {
        Ok(RawModel::Bytes(minimal_be(code.len())))
    } else if fact == "code_hash"@ {
        Ok(RawModel::Bytes(keccak_digest(code)))
    } else {
        Err("eth_code returns must be code_hash|is_contract|code_size, got "@ + fact)
    }
}

/// The evidence for a fact about a contract's code.
pub open spec fn code_evidence(
    address: Seq<u8>,
    report: Seq<char>,
    code: Seq<u8>,
    agreed: Seq<Seq<char>>,
) -> JsonModel {
    let named = with_text(
        with_text(with_text(no_members(), "source"@, "eth_code"@), "address"@, hex_0x(address)),
        "report"@,
        report,
    );
    let sized = with_text(
        with_member(named, "code_size"@, JsonModel::Unsigned(code.len() as u64)),
        "code_hash"@,
        hex_0x(keccak_digest(code)),
    );
    with_member(
        with_member(sized, "is_contract"@, JsonModel::Bool(code.len() != 0)),
        "agreed_by"@,
        text_array(agreed),
    )
}

/// What the agreed answer `text` to the read of a source that takes one means: the value, and the
/// evidence for it.
pub open spec fn digested(src: SourceModel, text: Seq<char>, agreed: Seq<Seq<char>>) -> Result<
    (RawModel, JsonModel),
    Seq<char>,
> {
    match src {
        SourceModel::Erc20Balance { token, holder } => match word_in(text) {
            Err(e) => Err(e),
            Ok(word) => {
                let named = with_text(
                    with_text(
                        with_text(no_members(), "source"@, "erc20_balance"@),
                        "token"@,
                        hex_0x(token),
                    ),
                    "holder"@,
                    hex_0x(holder),
                );
                Ok(
                    (
                        RawModel::Bytes(without_leading_zeros(word)),
                        with_member(
                            with_text(named, "value_hex"@, hex_0x(word)),
                            "agreed_by"@,
                            text_array(agreed),
                        ),
                    ),
                )
            },
        },
        SourceModel::Erc20TotalSupply { token } => match word_in(text) {
            Err(e) => Err(e),
            Ok(word) => {
                let named = with_text(
                    with_text(no_members(), "source"@, "erc20_total_supply"@),
                    "token"@,
                    hex_0x(token),
                );
                Ok(
                    (
                        RawModel::Bytes(without_leading_zeros(word)),
                        with_member(
                            with_text(named, "value_hex"@, hex_0x(word)),
                            "agreed_by"@,
                            text_array(agreed),
                        ),
                    ),
                )
            },
        },
        SourceModel::NativeBalance { address } => match quantity_bytes(text) {
            Err(e) => Err(e),
            Ok(be) => {
                let named = with_text(
                    with_text(no_members(), "source"@, "native_balance"@),
                    "address"@,
                    hex_0x(address),
                );
                Ok(
                    (
                        RawModel::Bytes(without_leading_zeros(be)),
                        with_member(
                            with_text(named, "value_hex"@, text),
                            "agreed_by"@,
                            text_array(agreed),
                        ),
                    ),
                )
            },
        },
        SourceModel::EthCode { address, report } => match hex_bytes(text) {
            Err(e) => Err(e),
            Ok(code) => match code_fact(code, report) {
                Err(e) => Err(e),
                Ok(raw) => Ok((raw, code_evidence(address, report, code, agreed))),
            },
        },
        SourceModel::EvmCall { to, data, returns: form } => match word_in(text) {
            Err(e) => Err(e),
            Ok(word) => {
                let named = with_text(
                    with_text(
                        with_text(no_members(), "source"@, "evm_call"@),
                        "to"@,
                        hex_0x(to),
                    ),
                    "returns"@,
                    form,
                );
                Ok(
                    (
                        returned(word, form),
                        with_member(
                            with_text(named, "value_hex"@, hex_0x(word)),
                            "agreed_by"@,
                            text_array(agreed),
                        ),
                    ),
                )
            },
        },
        SourceModel::BlockNumber => arbitrary(),
        SourceModel::TeeAttestation { .. } => arbitrary(),
    }
}

/// The first word that a call returned.
pub fn read_word(text: &str) -> (r: Result<[u8; 32], String>)
    ensures
        match r {
            Ok(word) => word_in(text@) == Ok::<Seq<u8>, Seq<char>>(word@),
            Err(e) => word_in(text@) == Err::<Seq<u8>, Seq<char>>(e@),
        },
{
    match hex_to_bytes(text) {
        Err(e) => Err(e),
        Ok(b) => {
            if b.len() < 32 {
                let mut e = "eth_call returned ".to_owned();
                e.append(decimal(b.len() as u128).as_str());
                e.append(" bytes, expected >= 32");
                return Err(e);
            }
            assert(b@.subrange(0, 32) =~= b@.take(32));
            Ok(array32(slice_subrange(b.as_slice(), 0, 32)))
        },
    }
}

fn read_returned(word: &[u8; 32], form: &str) -> (r: Raw)
    ensures
        r@ == returned(word@, form@),
{
    let ty = trim(form);
    if same(ty, "address") {
        assert(word@.subrange(12, 32) =~= word@.skip(12));
        Raw::Address(array20(slice_subrange(word.as_slice(), 12, 32)))
    } else if same(ty, "bytes32") {
        Raw::Bytes(slice_to_vec(word.as_slice()))
    } else {
        Raw::Bytes(trim_left(word.as_slice()))
    }
}

fn read_code_fact(code: &[u8], report: &str) -> (r: Result<Raw, String>)
    ensures
        match r {
            Ok(raw) => code_fact(code@, report@) == Ok::<RawModel, Seq<char>>(raw@),
            Err(e) => code_fact(code@, report@) == Err::<RawModel, Seq<char>>(e@),
        },
{
    let fact = trim(report);
    if same(fact, "is_contract") {
        let mut flag: Vec<u8> = Vec::new();
        if code.len() != 0 {
            flag.push(1u8);
            assert(flag@ =~= seq![1u8]);
        }
        Ok(Raw::Bytes(flag))
    } else if same(fact, "code_size") {
        Ok(Raw::Bytes(min_be(code.len() as u128)))
    } else if same(fact, "code_hash") {
        Ok(Raw::Bytes(slice_to_vec(keccak256(code).as_slice())))
    } else {
        let mut e = "eth_code returns must be code_hash|is_contract|code_size, got ".to_owned();
        e.append(fact);
        Err(e)
    }
}

fn vouched(named: Json, value_hex: String, agreed: &[String]) -> (r: Json)
    ensures
        r@ == with_member(
            with_text(named@, "value_hex"@, value_hex@),
            "agreed_by"@,
            text_array(texts(agreed@)),
        ),
{
    let mut ev = named;
    ev.set("value_hex", Json::Str(value_hex));
    ev.set("agreed_by", Json::texts(agreed));
    ev
}

fn about(source: &str) -> (r: Json)
    ensures
        r@ == with_text(no_members(), "source"@, source@),
{
    let mut ev = Json::object();
    ev.set("source", Json::text(source));
    ev
}

/// What the agreed answer `text` to a source's read means.
pub fn digest(src: &Source, text: &str, agreed: &[String]) -> (r: Result<Collected, String>)
    requires
        takes_read(src@),
    ensures
        ({
            let meaning = digested(src@, text@, texts(agreed@));
            match r {
                Ok(c) => meaning == Ok::<(RawModel, JsonModel), Seq<char>>((c.raw@, c.evidence@)),
                Err(e) => meaning == Err::<(RawModel, JsonModel), Seq<char>>(e@),
            }
        }),
{
    match src {
        Source::Erc20Balance { token, holder } => {
            let word = match read_word(text) {
                Ok(word) => word,
                Err(e) => {
                    return Err(e);
                },
            };
            let mut named = about("erc20_balance");
            named.set("token", Json::Str(to_hex_0x(token.as_slice())));
            named.set("holder", Json::Str(to_hex_0x(holder.as_slice())));
            Ok(
                Collected {
                    raw: Raw::Bytes(trim_left(word.as_slice())),
                    evidence: vouched(named, to_hex_0x(word.as_slice()), agreed),
                },
            )
        },
        Source::Erc20TotalSupply { token } => {
            let word = match read_word(text) {
                Ok(word) => word,
                Err(e) => {
                    return Err(e);
                },
            };
            let mut named = about("erc20_total_supply");
            named.set("token", Json::Str(to_hex_0x(token.as_slice())));
            Ok(
                Collected {
                    raw: Raw::Bytes(trim_left(word.as_slice())),
                    evidence: vouched(named, to_hex_0x(word.as_slice()), agreed),
                },
            )
        },
        Source::NativeBalance { address } => {
            let be = match quantity_to_bytes(text) {
                Ok(be) => be,
                Err(e) => {
                    return Err(e);
                },
            };
            let mut named = about("native_balance");
            named.set("address", Json::Str(to_hex_0x(address.as_slice())));
            Ok(
                Collected {
                    raw: Raw::Bytes(trim_left(be.as_slice())),
                    evidence: vouched(named, text.to_owned(), agreed),
                },
            )
        },
        Source::EthCode { address, report } => {
            let code = match hex_to_bytes(text) {
                Ok(code) => code,
                Err(e) => {
                    return Err(e);
                },
            };
            let raw = match read_code_fact(code.as_slice(), report.as_str()) {
                Ok(raw) => raw,
                Err(e) => {
                    return Err(e);
                },
            };
            let mut ev = about("eth_code");
            ev.set("address", Json::Str(to_hex_0x(address.as_slice())));
            ev.set("report", Json::text(report.as_str()));
            ev.set("code_size", Json::number(code.len() as u64));
            let hash = keccak256(code.as_slice());
            ev.set("code_hash", Json::Str(to_hex_0x(hash.as_slice())));
            ev.set("is_contract", Json::Bool(code.len() != 0));
            ev.set("agreed_by", Json::texts(agreed));
            Ok(Collected { raw, evidence: ev })
        },
        Source::EvmCall { to, returns: form, .. } => {
            let word = match read_word(text) {
                Ok(word) => word,
                Err(e) => {
                    return Err(e);
                },
            };
            let mut named = about("evm_call");
            named.set("to", Json::Str(to_hex_0x(to.as_slice())));
            named.set("returns", Json::text(form.as_str()));
            Ok(
                Collected {
                    raw: read_returned(&word, form.as_str()),
                    evidence: vouched(named, to_hex_0x(word.as_slice()), agreed),
                },
            )
        },
        Source::BlockNumber => vstd::pervasive::unreached(),
        Source::TeeAttestation { .. } => vstd::pervasive::unreached(),
    }
}

// ---- collecting -----------------------------------------------------------------------

/// The identifier of this execution, and what kind of identifier it is: that of a call over the
/// HTTPS API, or else that of an on-chain request.
pub open spec fn execution_id(env: Seq<(Seq<char>, Seq<char>)>) -> Option<(Seq<char>, Seq<char>)> {
    match var_in(env, "OUTLAYER_CALL_ID"@) {
        Some(id) if id.len() > 0 => Some((id, "call"@)),
        _ => match var_in(env, "NEAR_REQUEST_ID"@) {
            Some(id) if id.len() > 0 => Some((id, "request"@)),
            _ => None,
        },
    }
}

/// Where the TEE quote of an execution can be fetched.
pub open spec fn quote_url(api_base: Seq<char>, kind: Seq<char>, id: Seq<char>) -> Seq<char> {
    api_base + "/attestations/by-"@ + kind + "/"@ + id
}

/// The value of a source that takes no read, and the evidence for it.
pub open spec fn local_value(
    src: SourceModel,
    env: Seq<(Seq<char>, Seq<char>)>,
    block: nat,
) -> Result<(RawModel, JsonModel), Seq<char>> {
    match src {
        SourceModel::BlockNumber => Ok(
            (
                RawModel::Bytes(minimal_be(block)),
                with_member(
                    with_text(no_members(), "source"@, "block_number"@),
                    "value"@,
                    JsonModel::Unsigned(block as u64),
                ),
            ),
        ),
        SourceModel::TeeAttestation { form, api_base } => match execution_id(env) {
            None => Err(
                "this execution exposed neither OUTLAYER_CALL_ID nor NEAR_REQUEST_ID, so the attestation cannot reference its own TEE quote; drop the tee_attestation source or run it through the OutLayer API"@,
            ),
            Some((id, kind)) => {
                let url = quote_url(api_base, kind, id);
                let evidence = with_text(
                    with_text(
                        with_text(no_members(), "source"@, "tee_attestation"@),
                        "execution_id"@,
                        id,
                    ),
                    "attestation_url"@,
                    url,
                );
                if trimmed(form) == "call_id"@ {
                    Ok((RawModel::Str(id), evidence))
                } else if trimmed(form) == "url"@ {
                    Ok((RawModel::Str(url), evidence))
                } else {
                    Err("tee_attestation returns must be url|call_id, got "@ + trimmed(form))
                }
            },
        },
        _ => arbitrary(),
    }
}

/// The course of collecting a value.
pub open spec fn collect_run(
    src: SourceModel,
    env: Seq<(Seq<char>, Seq<char>)>,
    rpcs: Seq<Seq<char>>,
    block: nat,
    min_agree: nat,
    replies: Seq<ReplyModel>,
) -> Run<(RawModel, JsonModel)> {
    match question_of(src) {
        None => Run::Done { value: local_value(src, env, block), rest: replies },
        Some((method, head)) => match quorum_run(rpcs, method, head, block, min_agree, replies) {
            Run::Ask(q) => Run::Ask(q),
            Run::Done { value: Err(e), rest } => Run::Done { value: Err(e), rest },
            Run::Done { value: Ok((text, agreed)), rest } => Run::Done {
                value: digested(src, text, agreed),
                rest,
            },
        },
    }
}

fn find_execution_id<'a>(env: &'a [(String, String)]) -> (r: Option<(&'a str, &'static str)>)
    ensures
        match r {
            Some((id, kind)) => execution_id(variables(env@)) == Some((id@, kind@)),
            None => execution_id(variables(env@)) is None,
        },
{
    if let Some(id) = lookup(env, "OUTLAYER_CALL_ID") {
        if id.unicode_len() > 0 {
            return Some((id, "call"));
        }
    }
    if let Some(id) = lookup(env, "NEAR_REQUEST_ID") {
        if id.unicode_len() > 0 {
            return Some((id, "request"));
        }
    }
    None
}

/// The value of a source that takes no read.
pub fn local(src: &Source, env: &[(String, String)], block: u64) -> (r: Result<Collected, String>)
    requires
        !takes_read(src@),
    ensures
        ({
            let found = local_value(src@, variables(env@), block as nat);
            match r {
                Ok(c) => found == Ok::<(RawModel, JsonModel), Seq<char>>((c.raw@, c.evidence@)),
                Err(e) => found == Err::<(RawModel, JsonModel), Seq<char>>(e@),
            }
        }),
{
    match src {
        Source::BlockNumber => {
            let mut evidence = about("block_number");
            evidence.set("value", Json::number(block));
            Ok(Collected { raw: Raw::Bytes(min_be(block as u128)), evidence })
        },
        Source::TeeAttestation { form, api_base } => {
            // The platform hands the guest its own execution id: OUTLAYER_CALL_ID over the HTTPS
            // API, NEAR_REQUEST_ID for on-chain requests. Embedding it makes the attestation
            // self-evidencing: a reader can fetch the DCAP quote for the very run that produced
            // these numbers, instead of taking "it ran in a TEE" on faith.
            let (id, kind) = match find_execution_id(env) {
                Some(found) => found,
                None => {
                    return Err(
                        "this execution exposed neither OUTLAYER_CALL_ID nor NEAR_REQUEST_ID, so the attestation cannot reference its own TEE quote; drop the tee_attestation source or run it through the OutLayer API".to_owned(),
                    );
                },
            };
            let mut url = api_base.as_str().to_owned();
            url.append("/attestations/by-");
            url.append(kind);
            url.append("/");
            url.append(id);
            let form = trim(form.as_str());
            let value = if same(form, "call_id") {
                id.to_owned()
            } else if same(form, "url") {
                url.clone()
            } else {
                let mut e = "tee_attestation returns must be url|call_id, got ".to_owned();
                e.append(form);
                return Err(e);
            };
            let mut evidence = about("tee_attestation");
            evidence.set("execution_id", Json::text(id));
            evidence.set("attestation_url", Json::Str(url));
            Ok(Collected { raw: Raw::Str(value), evidence })
        },
        _ => vstd::pervasive::unreached(),
    }
}

/// Collect one value at a pinned block: read through the quorum where the source takes a read.
pub fn collect(
    tape: &mut Tape,
    src: &Source,
    env: &[(String, String)],
    rpcs: &[String],
    block: u64,
    min_agree: usize,
) -> (r: Result<Collected, Halt>)
    ensures
        ({
            let run = collect_run(
                src@,
                variables(env@),
                texts(rpcs@),
                block as nat,
                min_agree as nat,
                old(tape)@,
            );
            match r {
                Ok(c) => gave(run, (c.raw@, c.evidence@), final(tape)@),
                Err(h) => halted(run, h, final(tape)@),
            }
        }),
{
    let found = match question(src) {
        None => local(src, env, block),
        Some((method, head)) => {
            let (text, agreed) = match quorum_read(tape, rpcs, method, head, block, min_agree) {
                Ok(found) => found,
                Err(h) => {
                    return Err(h);
                },
            };
            digest(src, text.as_str(), agreed.as_slice())
        },
    };
    match found {
        Ok(c) => Ok(c),
        Err(e) => Err(Halt::Fail(e)),
    }
}

// ---- laws -----------------------------------------------------------------------------

/// A native balance is collected as the number that the RPCs agreed on, for every balance: zero,
/// which is answered as `0x0`, and those with an odd number of digits among them.
pub proof fn law_native_balance_collected(
    address: Seq<u8>,
    balance: nat,
    agreed: Seq<Seq<char>>,
)
    ensures
        match digested(
            SourceModel::NativeBalance { address },
            "0x"@ + numeral(balance, 16),
            agreed,
        ) {
            Ok((raw, _)) => raw == RawModel::Bytes(minimal_be(balance)),
            Err(_) => false,
        },
{
    let text = "0x"@ + numeral(balance, 16);
    lemma_numeral_value(balance);
    law_quantity(numeral(balance, 16));
    lemma_trimmed_is_minimal(quantity_bytes(text)->Ok_0);
}

/// A source stands for what its own fields hold.
pub proof fn law_source_view(src: Source)
    ensures
        match src {
            Source::Erc20Balance { token, holder } => src@ == (SourceModel::Erc20Balance {
                token: token@,
                holder: holder@,
            }),
            Source::Erc20TotalSupply { token } => src@ == (SourceModel::Erc20TotalSupply {
                token: token@,
            }),
            Source::NativeBalance { address } => src@ == (SourceModel::NativeBalance {
                address: address@,
            }),
            Source::EvmCall { to, data, returns: form } => src@ == (SourceModel::EvmCall {
                to: to@,
                data: data@,
                returns: form@,
            }),
            Source::BlockNumber => src@ is BlockNumber,
            Source::EthCode { address, report } => src@ == (SourceModel::EthCode {
                address: address@,
                report: report@,
            }),
            Source::TeeAttestation { form, api_base } => src@ == (SourceModel::TeeAttestation {
                form: form@,
                api_base: api_base@,
            }),
        },
{
}

} // verus!
