//! A job from its configuration to its outcome: collect, encode, sign, broadcast.

use vstd::prelude::*;
use vstd::slice::slice_to_vec;
use vstd::string::*;
use vstd::utf8::encode_utf8;

use crate::abi::{
    call_data, hex_0x, hex_address, hex_to_array20, hex_to_array32, hex_word, to_hex_0x,
};
use crate::bytes::zeros;
use crate::config::{
    all_resolved, blank, chain_in_effect, easscan_address_url, effective_chain, explorer_url,
    is_blank, key_in, load_signer, opt_addr, opt_bytes32, optional_address, optional_word,
    resolve_rpcs, string_array, texts_at,
};
use crate::eas::{
    encode_schema_data, field_models, parse_schema, predicted_schema_uid, raw_models,
    register_data, register_schema_calldata, request_value, schema_data, schema_fields, schema_uid,
    AttestationRequest, FieldModel, Raw, RawModel, SchemaField, ATTEST_SIG,
};
use crate::env::variables;
use crate::evm::{collect, collect_run, source_in, text_or, with_text, Collected, Source};
use crate::json::{
    array_at, bool_at, json_models, json_parsed, member, no_members, number_at, parse, text_at,
    with_member, Json, JsonModel,
};
use crate::rpc::{
    block_number_behind_head, block_run, chain_id, chain_id_run, estimate_gas, fees, fees_run,
    gas_run, nonce_run, pending_nonce, send_raw, send_run,
};
use crate::sign::{address_of, signed_tx, Eip1559Tx, Signer, TxModel};
use crate::tape::{gave, halted, Halt, ReplyModel, Run, Tape};
use crate::text::{decimal, decimal_text, quoted, quoted_text, same, texts, trim, trimmed};

verus! {

// ---- pinned blocks --------------------------------------------------------------------

/// The block that reads from a list of RPCs are pinned to.
pub struct Pin {
    pub rpcs: Vec<String>,
    pub behind: u64,
    pub block: u64,
}

/// What a `Pin` holds.
pub struct PinModel {
    pub rpcs: Seq<Seq<char>>,
    pub behind: nat,
    pub block: nat,
}

impl View for Pin {
    type V = PinModel;

    open spec fn view(&self) -> PinModel {
        PinModel {
            rpcs: texts(self.rpcs@),
            behind: self.behind as nat,
            block: self.block as nat,
        }
    }
}

/// What each of the pins holds.
pub open spec fn pin_models(pins: Seq<Pin>) -> Seq<PinModel> {
    pins.map_values(|p: Pin| p@)
}

/// The block that is pinned for these RPCs at this distance from the head.
pub open spec fn pinned(pins: Seq<PinModel>, rpcs: Seq<Seq<char>>, behind: nat) -> Option<nat>
    decreases pins.len(),
{
    if pins.len() == 0 {
        None
    } else if pins[0].rpcs == rpcs && pins[0].behind == behind {
        Some(pins[0].block)
    } else {
        pinned(pins.skip(1), rpcs, behind)
    }
}

/// The course of pinning a block: one that is pinned already stays, a new one is added.
pub open spec fn pin_run(
    pins: Seq<PinModel>,
    rpcs: Seq<Seq<char>>,
    behind: nat,
    replies: Seq<ReplyModel>,
) -> Run<(nat, Seq<PinModel>)> {
    match pinned(pins, rpcs, behind) {
        Some(block) => Run::Done { value: Ok((block, pins)), rest: replies },
        None => match block_run(rpcs, behind, replies) {
            Run::Ask(q) => Run::Ask(q),
            Run::Done { value: Err(e), rest } => Run::Done { value: Err(e), rest },
            Run::Done { value: Ok(block), rest } => Run::Done {
                value: Ok((block, pins.push(PinModel { rpcs, behind, block }))),
                rest,
            },
        },
    }
}

fn copy_list(list: &[String]) -> (r: Vec<String>)
    ensures
        texts(r@) == texts(list@),
{
    let mut r: Vec<String> = Vec::new();
    let mut i: usize = 0;
    while i < list.len()
        invariant
            i <= list@.len(),
            texts(r@) =~= texts(list@).take(i as int),
        decreases list@.len() - i,
    {
        let ghost before = texts(r@);
        r.push(list[i].clone());
        assert(texts(r@) =~= before.push(list@[i as int]@));
        i += 1;
    }
    assert(texts(list@).take(i as int) =~= texts(list@));
    r
}

fn same_list(a: &[String], b: &[String]) -> (r: bool)
    ensures
        r == (texts(a@) == texts(b@)),
{
    if a.len() != b.len() {
        assert(texts(a@).len() != texts(b@).len());
        return false;
    }
    let mut i: usize = 0;
    while i < a.len()
        invariant
            i <= a@.len(),
            a@.len() == b@.len(),
            forall|k: int| 0 <= k < i ==> texts(a@)[k] == texts(b@)[k],
        decreases a@.len() - i,
    {
        if !same(a[i].as_str(), b[i].as_str()) {
            assert(texts(a@)[i as int] != texts(b@)[i as int]);
            return false;
        }
        i += 1;
    }
    assert(texts(a@) =~= texts(b@));
    true
}

fn find_pin(pins: &[Pin], rpcs: &[String], behind: u64) -> (r: Option<u64>)
    ensures
        match r {
            Some(b) => pinned(pin_models(pins@), texts(rpcs@), behind as nat) == Some(b as nat),
            None => pinned(pin_models(pins@), texts(rpcs@), behind as nat) is None,
        },
{
    let ghost all = pin_models(pins@);
    let mut i: usize = 0;
    assert(all.skip(0) =~= all);
    while i < pins.len()
        invariant
            i <= pins@.len(),
            all == pin_models(pins@),
            pinned(all, texts(rpcs@), behind as nat) == pinned(
                all.skip(i as int),
                texts(rpcs@),
                behind as nat,
            ),
        decreases pins@.len() - i,
    {
        assert(all.skip(i as int).skip(1) =~= all.skip(i + 1));
        assert(all.skip(i as int)[0] == pins@[i as int]@);
        if pins[i].behind == behind && same_list(pins[i].rpcs.as_slice(), rpcs) {
            return Some(pins[i].block);
        }
        i += 1;
    }
    None
}

/// The recent block for these RPCs at this distance from the head. It is looked up once, so several
/// same-chain collectors pin the same block and we make one eth_blockNumber round per distinct
/// chain.
pub fn block_for(tape: &mut Tape, pins: &mut Vec<Pin>, rpcs: &[String], blocks_behind: u64) -> (r:
    Result<u64, Halt>)
    ensures
        ({
            let run = pin_run(
                pin_models(old(pins)@),
                texts(rpcs@),
                blocks_behind as nat,
                old(tape)@,
            );
            match r {
                Ok(b) => gave(run, (b as nat, pin_models(final(pins)@)), final(tape)@),
                Err(h) => halted(run, h, final(tape)@) && final(pins)@ == old(pins)@,
            }
        }),
{
    if let Some(b) = find_pin(pins.as_slice(), rpcs, blocks_behind) {
        return Ok(b);
    }
    let ghost before = pin_models(pins@);
    match block_number_behind_head(tape, rpcs, blocks_behind) {
        Ok(b) => {
            let pin = Pin { rpcs: copy_list(rpcs), behind: blocks_behind, block: b };
            pins.push(pin);
            assert(pin_models(pins@) =~= before.push(pin@));
            Ok(b)
        },
        Err(h) => Err(h),
    }
}

// ---- collecting -----------------------------------------------------------------------

/// What the collectors fall back to.
pub struct Defaults<'a> {
    pub env: &'a [(String, String)],
    pub rpcs: &'a [String],
    pub blocks_behind: u64,
    pub min_agree: usize,
}

/// What a `Defaults` holds.
pub struct DefaultsModel {
    pub env: Seq<(Seq<char>, Seq<char>)>,
    pub rpcs: Seq<Seq<char>>,
    pub blocks_behind: u64,
    pub min_agree: usize,
}

impl<'a> View for Defaults<'a> {
    type V = DefaultsModel;

    open spec fn view(&self) -> DefaultsModel {
        DefaultsModel {
            env: variables(self.env@),
            rpcs: texts(self.rpcs@),
            blocks_behind: self.blocks_behind,
            min_agree: self.min_agree,
        }
    }
}

/// The RPCs that a collect item is read from: its own list if it has one, and else the default.
pub open spec fn item_rpcs(item: JsonModel, defaults: DefaultsModel) -> Result<
    Seq<Seq<char>>,
    Seq<char>,
> {
    if member(item, "rpcs"@) is Some {
        match texts_at(item, "rpcs"@) {
            Err(e) => Err(e),
            Ok(list) => all_resolved(list, defaults.env),
        }
    } else {
        Ok(defaults.rpcs)
    }
}

/// How far behind the head a collect item is read.
pub open spec fn item_behind(item: JsonModel, defaults: DefaultsModel) -> u64 {
    match number_at(item, "blocks_behind"@) {
        Some(n) => n,
        None => defaults.blocks_behind,
    }
}

/// The number of answers that a configured threshold asks for: a threshold beyond the largest count
/// there is asks for that count.
pub open spec fn threshold(n: u64) -> usize {
    if n <= usize::MAX {
        n as usize
    } else {
        usize::MAX
    }
}

fn agreeing(n: u64) -> (r: usize)
    ensures
        r == threshold(n),
{
    if n <= usize::MAX as u64 {
        n as usize
    } else {
        usize::MAX
    }
}

/// How many RPCs must agree on a collect item.
pub open spec fn item_agree(item: JsonModel, defaults: DefaultsModel) -> usize {
    match number_at(item, "min_agree"@) {
        Some(n) => threshold(n),
        None => defaults.min_agree,
    }
}

/// The evidence for one field: that of its source, and where it belongs.
pub open spec fn field_evidence(
    evidence: JsonModel,
    item: JsonModel,
    field: FieldModel,
    block: nat,
) -> JsonModel {
    let placed = with_member(
        with_text(with_text(evidence, "field"@, field.name), "type"@, field.ty),
        "block"@,
        JsonModel::Unsigned(block as u64),
    );
    match number_at(item, "chain_id"@) {
        Some(id) => with_member(placed, "chain_id"@, JsonModel::Unsigned(id)),
        None => placed,
    }
}

/// The course of collecting the value of one field from a list of RPCs.
pub open spec fn item_read_run(
    item: JsonModel,
    field: FieldModel,
    defaults: DefaultsModel,
    rpcs: Seq<Seq<char>>,
    pins: Seq<PinModel>,
    replies: Seq<ReplyModel>,
) -> Run<(RawModel, JsonModel, Seq<PinModel>)> {
    match pin_run(pins, rpcs, item_behind(item, defaults) as nat, replies) {
        Run::Ask(q) => Run::Ask(q),
        Run::Done { value: Err(e), rest } => Run::Done { value: Err(e), rest },
        Run::Done { value: Ok((block, pins)), rest } => match source_in(item) {
            Err(e) => Run::Done { value: Err(e), rest },
            Ok(src) => match collect_run(
                src,
                defaults.env,
                rpcs,
                block,
                item_agree(item, defaults) as nat,
                rest,
            ) {
                Run::Ask(q) => Run::Ask(q),
                Run::Done { value: Err(e), rest } => Run::Done { value: Err(e), rest },
                Run::Done { value: Ok((raw, evidence)), rest } => Run::Done {
                    value: Ok((raw, field_evidence(evidence, item, field, block), pins)),
                    rest,
                },
            },
        },
    }
}

/// The course of collecting the value of one field.
pub open spec fn item_run(
    item: JsonModel,
    field: FieldModel,
    defaults: DefaultsModel,
    pins: Seq<PinModel>,
    replies: Seq<ReplyModel>,
) -> Run<(RawModel, JsonModel, Seq<PinModel>)> {
    match item_rpcs(item, defaults) {
        Err(e) => Run::Done { value: Err(e), rest: replies },
        Ok(rpcs) => if rpcs.len() == 0 {
            Run::Done {
                value: Err(
                    "collect field "@ + quoted_text(field.name) + " has an empty rpcs list"@,
                ),
                rest: replies,
            }
        } else {
            item_read_run(item, field, defaults, rpcs, pins, replies)
        },
    }
}

/// The pins after an item has been collected, or could not be: what is pinned for it stays pinned,
/// whatever becomes of the read.
pub open spec fn pins_after_item(
    item: JsonModel,
    defaults: DefaultsModel,
    pins: Seq<PinModel>,
    replies: Seq<ReplyModel>,
) -> Seq<PinModel> {
    match item_rpcs(item, defaults) {
        Err(_) => pins,
        Ok(rpcs) => if rpcs.len() == 0 {
            pins
        } else {
            match pin_run(pins, rpcs, item_behind(item, defaults) as nat, replies) {
                Run::Done { value: Ok((_, more)), .. } => more,
                _ => pins,
            }
        },
    }
}

/// The values and the evidence that have been collected.
pub struct Harvest {
    pub values: Vec<Raw>,
    pub evidence: Vec<Json>,
}

/// The course of collecting the values from the `i`th on, behind those that are there already.
pub open spec fn collect_all_run(
    items: Seq<JsonModel>,
    fields: Seq<FieldModel>,
    i: nat,
    defaults: DefaultsModel,
    pins: Seq<PinModel>,
    values: Seq<RawModel>,
    evidence: Seq<JsonModel>,
    replies: Seq<ReplyModel>,
) -> Run<(Seq<RawModel>, Seq<JsonModel>)>
    decreases items.len() - i,
{
    if i >= items.len() {
        Run::Done { value: Ok((values, evidence)), rest: replies }
    } else {
        match item_run(items[i as int], fields[i as int], defaults, pins, replies) {
            Run::Ask(q) => Run::Ask(q),
            Run::Done { value: Err(e), rest } => Run::Done { value: Err(e), rest },
            Run::Done { value: Ok((raw, ev, pins)), rest } => collect_all_run(
                items,
                fields,
                i + 1,
                defaults,
                pins,
                values.push(raw),
                evidence.push(ev),
                rest,
            ),
        }
    }
}

/// The pins after the items from the `i`th on have been collected, up to the first that could not
/// be.
pub open spec fn pins_after_all(
    items: Seq<JsonModel>,
    fields: Seq<FieldModel>,
    i: nat,
    defaults: DefaultsModel,
    pins: Seq<PinModel>,
    replies: Seq<ReplyModel>,
) -> Seq<PinModel>
    decreases items.len() - i,
{
    if i >= items.len() {
        pins
    } else {
        match item_run(items[i as int], fields[i as int], defaults, pins, replies) {
            Run::Done { value: Ok((_, _, more)), rest } => pins_after_all(
                items,
                fields,
                i + 1,
                defaults,
                more,
                rest,
            ),
            _ => pins_after_item(items[i as int], defaults, pins, replies),
        }
    }
}

fn choose_rpcs(item: &Json, defaults: &Defaults) -> (r: Result<Vec<String>, String>)
    ensures
        match r {
            Ok(list) => item_rpcs(item@, defaults@) == Ok::<Seq<Seq<char>>, Seq<char>>(
                texts(list@),
            ),
            Err(e) => item_rpcs(item@, defaults@) == Err::<Seq<Seq<char>>, Seq<char>>(e@),
        },
{
    if item.get("rpcs").is_some() {
        match string_array(item, "rpcs") {
            Err(e) => Err(e),
            Ok(list) => resolve_rpcs(list.as_slice(), defaults.env),
        }
    } else {
        Ok(copy_list(defaults.rpcs))
    }
}

/// Collect the value of one field. The item may carry its own `rpcs`, `min_agree`, `blocks_behind`
/// and `chain_id`; what it omits falls back to the defaults.
pub fn collect_item(
    tape: &mut Tape,
    pins: &mut Vec<Pin>,
    item: &Json,
    field: &SchemaField,
    defaults: &Defaults,
) -> (r: Result<Collected, Halt>)
    ensures
        pin_models(final(pins)@) == pins_after_item(
            item@,
            defaults@,
            pin_models(old(pins)@),
            old(tape)@,
        ),
        ({
            let run = item_run(
                item@,
                field@,
                defaults@,
                pin_models(old(pins)@),
                old(tape)@,
            );
            match r {
                Ok(c) => gave(
                    run,
                    (c.raw@, c.evidence@, pin_models(final(pins)@)),
                    final(tape)@,
                ),
                Err(h) => halted(run, h, final(tape)@),
            }
        }),
{
    let rpcs = match choose_rpcs(item, defaults) {
        Ok(rpcs) => rpcs,
        Err(e) => {
            return Err(Halt::Fail(e));
        },
    };
    assert(texts(rpcs@).len() == rpcs@.len());
    if rpcs.len() == 0 {
        let mut e = "collect field ".to_owned();
        e.append(quoted(field.name.as_str()).as_str());
        e.append(" has an empty rpcs list");
        return Err(Halt::Fail(e));
    }
    let behind: u64 = match item.number_at("blocks_behind") {
        Some(n) => n,
        None => defaults.blocks_behind,
    };
    let min_agree: usize = match item.number_at("min_agree") {
        Some(n) => agreeing(n),
        None => defaults.min_agree,
    };
    let block = match block_for(tape, pins, rpcs.as_slice(), behind) {
        Ok(block) => block,
        Err(h) => {
            return Err(h);
        },
    };
    let src = match Source::from_json(item) {
        Ok(src) => src,
        Err(e) => {
            return Err(Halt::Fail(e));
        },
    };
    let c = match collect(tape, &src, defaults.env, rpcs.as_slice(), block, min_agree) {
        Ok(c) => c,
        Err(h) => {
            return Err(h);
        },
    };
    let mut ev = c.evidence;
    ev.set("field", Json::text(field.name.as_str()));
    ev.set("type", Json::text(field.ty.as_str()));
    ev.set("block", Json::number(block));
    if let Some(id) = item.number_at("chain_id") {
        ev.set("chain_id", Json::number(id));
    }
    Ok(Collected { raw: c.raw, evidence: ev })
}

/// Collect the values of all fields, in order.
pub fn collect_all(
    tape: &mut Tape,
    pins: &mut Vec<Pin>,
    items: &[Json],
    fields: &[SchemaField],
    defaults: &Defaults,
) -> (r: Result<Harvest, Halt>)
    requires
        items@.len() == fields@.len(),
    ensures
        pin_models(final(pins)@) == pins_after_all(
            json_models(items@),
            field_models(fields@),
            0,
            defaults@,
            pin_models(old(pins)@),
            old(tape)@,
        ),
        ({
            let run = collect_all_run(
                json_models(items@),
                field_models(fields@),
                0,
                defaults@,
                pin_models(old(pins)@),
                Seq::empty(),
                Seq::empty(),
                old(tape)@,
            );
            match r {
                Ok(h) => gave(run, (raw_models(h.values@), json_models(h.evidence@)), final(tape)@),
                Err(h) => halted(run, h, final(tape)@),
            }
        }),
{
    let ghost ms = json_models(items@);
    let ghost fs = field_models(fields@);
    let ghost whole = collect_all_run(
        ms,
        fs,
        0,
        defaults@,
        pin_models(pins@),
        Seq::empty(),
        Seq::empty(),
        tape@,
    );
    let ghost last_pins = pins_after_all(ms, fs, 0, defaults@, pin_models(pins@), tape@);
    let mut values: Vec<Raw> = Vec::new();
    let mut evidence: Vec<Json> = Vec::new();
    let mut i: usize = 0;
    assert(raw_models(values@) =~= Seq::<RawModel>::empty());
    assert(json_models(evidence@) =~= Seq::<JsonModel>::empty());
    while i < items.len()
        invariant
            i <= items@.len(),
            items@.len() == fields@.len(),
            ms == json_models(items@),
            fs == field_models(fields@),
            last_pins == pins_after_all(
                ms,
                fs,
                0,
                defaults@,
                pin_models(old(pins)@),
                old(tape)@,
            ),
            last_pins == pins_after_all(
                ms,
                fs,
                i as nat,
                defaults@,
                pin_models(pins@),
                tape@,
            ),
            whole == collect_all_run(
                ms,
                fs,
                0,
                defaults@,
                pin_models(old(pins)@),
                Seq::empty(),
                Seq::empty(),
                old(tape)@,
            ),
            whole == collect_all_run(
                ms,
                fs,
                i as nat,
                defaults@,
                pin_models(pins@),
                raw_models(values@),
                json_models(evidence@),
                tape@,
            ),
        decreases items@.len() - i,
    {
        let ghost values_before = raw_models(values@);
        let ghost evidence_before = json_models(evidence@);
        assert(ms[i as int] == items@[i as int]@);
        assert(fs[i as int] == fields@[i as int]@);
        match collect_item(tape, pins, &items[i], &fields[i], defaults) {
            Ok(c) => {
                let raw = c.raw;
                let ev = c.evidence;
                values.push(raw);
                evidence.push(ev);
                assert(raw_models(values@) =~= values_before.push(raw@));
                assert(json_models(evidence@) =~= evidence_before.push(ev@));
            },
            Err(h) => {
                return Err(h);
            },
        }
        i += 1;
    }
    Ok(Harvest { values, evidence })
}

// ---- sending a transaction ------------------------------------------------------------

/// `n`, or `max` where it is larger.
pub open spec fn capped(n: nat, max: nat) -> nat {
    if n > max {
        max
    } else {
        n
    }
}

/// The fee cap: twice the base fee, and the priority fee on top.
pub open spec fn fee_cap(base: nat, priority: nat) -> nat {
    capped(capped(2 * base, u128::MAX as nat) + priority, u128::MAX as nat)
}

/// An estimate with a quarter on top.
pub open spec fn with_headroom(estimate: nat) -> nat {
    capped(estimate * 125, u64::MAX as nat) / 100
}

/// The course of finding the chain's id: it is asked for where the job does not give it.
pub open spec fn job_chain_id_run(
    chain: JsonModel,
    rpcs: Seq<Seq<char>>,
    replies: Seq<ReplyModel>,
) -> Run<nat> {
    match number_at(chain, "chain_id"@) {
        Some(id) => Run::Done { value: Ok(id as nat), rest: replies },
        None => chain_id_run(rpcs, replies),
    }
}

/// The course of finding the gas limit: the job's, or else an estimate with headroom.
pub open spec fn gas_limit_run(
    cfg: JsonModel,
    rpcs: Seq<Seq<char>>,
    from: Seq<u8>,
    to: Seq<u8>,
    data: Seq<u8>,
    replies: Seq<ReplyModel>,
) -> Run<nat> {
    match number_at(cfg, "gas_limit"@) {
        Some(g) => Run::Done { value: Ok(g as nat), rest: replies },
        None => match gas_run(rpcs, from, to, data, replies) {
            Run::Ask(q) => Run::Ask(q),
            Run::Done { value: Err(e), rest } => Run::Done { value: Err(e), rest },
            Run::Done { value: Ok(estimate), rest } => Run::Done {
                value: Ok(with_headroom(estimate)),
                rest,
            },
        },
    }
}

/// The priority fee: the job's, or else the suggested one.
pub open spec fn priority_fee(cfg: JsonModel, suggested: nat) -> nat {
    match number_at(cfg, "max_priority_fee_wei"@) {
        Some(p) => p as nat,
        None => suggested,
    }
}

/// The transaction that carries `data` to `to`.
pub open spec fn tx_of(
    chain_id: nat,
    nonce: nat,
    base_fee: nat,
    priority: nat,
    gas_limit: nat,
    to: Seq<u8>,
    data: Seq<u8>,
) -> TxModel {
    TxModel {
        chain_id,
        nonce,
        max_priority_fee: priority,
        max_fee: fee_cap(base_fee, priority),
        gas_limit,
        to,
        value: 0,
        data,
    }
}

/// What a transaction is made of, apart from what the RPCs tell.
pub struct OrderModel {
    pub cfg: JsonModel,
    pub rpcs: Seq<Seq<char>>,
    pub from: Seq<u8>,
    pub to: Seq<u8>,
    pub data: Seq<u8>,
}

/// The rest of the course of building a transaction: only the gas limit is open.
pub open spec fn build_gas_run(
    order: OrderModel,
    chain_id: nat,
    nonce: nat,
    base_fee: nat,
    suggested: nat,
    replies: Seq<ReplyModel>,
) -> Run<TxModel> {
    match gas_limit_run(order.cfg, order.rpcs, order.from, order.to, order.data, replies) {
        Run::Ask(q) => Run::Ask(q),
        Run::Done { value: Err(e), rest } => Run::Done { value: Err(e), rest },
        Run::Done { value: Ok(gas), rest } => Run::Done {
            value: Ok(
                tx_of(
                    chain_id,
                    nonce,
                    base_fee,
                    priority_fee(order.cfg, suggested),
                    gas,
                    order.to,
                    order.data,
                ),
            ),
            rest,
        },
    }
}

/// The rest of the course of building a transaction: the fees and the gas limit are open.
pub open spec fn build_fees_run(
    order: OrderModel,
    chain_id: nat,
    nonce: nat,
    replies: Seq<ReplyModel>,
) -> Run<TxModel> {
    match fees_run(order.rpcs, replies) {
        Run::Ask(q) => Run::Ask(q),
        Run::Done { value: Err(e), rest } => Run::Done { value: Err(e), rest },
        Run::Done { value: Ok((base, suggested)), rest } => build_gas_run(
            order,
            chain_id,
            nonce,
            base,
            suggested,
            rest,
        ),
    }
}

/// The rest of the course of building a transaction: all but the chain's id is open.
pub open spec fn build_nonce_run(
    order: OrderModel,
    chain_id: nat,
    replies: Seq<ReplyModel>,
) -> Run<TxModel> {
    match nonce_run(order.rpcs, order.from, replies) {
        Run::Ask(q) => Run::Ask(q),
        Run::Done { value: Err(e), rest } => Run::Done { value: Err(e), rest },
        Run::Done { value: Ok(nonce), rest } => build_fees_run(order, chain_id, nonce, rest),
    }
}

/// The course of building a transaction.
pub open spec fn build_run(
    order: OrderModel,
    chain: JsonModel,
    replies: Seq<ReplyModel>,
) -> Run<TxModel> {
    match job_chain_id_run(chain, order.rpcs, replies) {
        Run::Ask(q) => Run::Ask(q),
        Run::Done { value: Err(e), rest } => Run::Done { value: Err(e), rest },
        Run::Done { value: Ok(id), rest } => build_nonce_run(order, id, rest),
    }
}

/// A transaction that has been sent.
pub struct Sent {
    pub tx_hash: String,
    pub nonce: u64,
}

/// What a `Sent` holds.
pub struct SentModel {
    pub tx_hash: Seq<char>,
    pub nonce: nat,
}

impl View for Sent {
    type V = SentModel;

    open spec fn view(&self) -> SentModel {
        SentModel { tx_hash: self.tx_hash@, nonce: self.nonce as nat }
    }
}

/// The course of sending a transaction that has been built: sign it, broadcast it.
pub open spec fn broadcast_run(
    rpcs: Seq<Seq<char>>,
    key: Seq<u8>,
    tx: TxModel,
    replies: Seq<ReplyModel>,
) -> Run<SentModel> {
    match signed_tx(tx, key) {
        Err(e) => Run::Done { value: Err(e), rest: replies },
        Ok(raw) => match send_run(rpcs, raw, replies) {
            Run::Ask(q) => Run::Ask(q),
            Run::Done { value: Err(e), rest } => Run::Done { value: Err(e), rest },
            Run::Done { value: Ok(hash), rest } => Run::Done {
                value: Ok(SentModel { tx_hash: hash, nonce: tx.nonce }),
                rest,
            },
        },
    }
}

/// The course of sending a transaction: build it, sign it, broadcast it.
pub open spec fn send_tx_run(
    cfg: JsonModel,
    chain: JsonModel,
    rpcs: Seq<Seq<char>>,
    key: Seq<u8>,
    to: Seq<u8>,
    data: Seq<u8>,
    replies: Seq<ReplyModel>,
) -> Run<SentModel> {
    let order = OrderModel { cfg, rpcs, from: address_of(key), to, data };
    match build_run(order, chain, replies) {
        Run::Ask(q) => Run::Ask(q),
        Run::Done { value: Err(e), rest } => Run::Done { value: Err(e), rest },
        Run::Done { value: Ok(tx), rest } => broadcast_run(rpcs, key, tx, rest),
    }
}

/// The chain's id: that of the job, or else what the RPCs tell.
pub fn cfg_chain_id(tape: &mut Tape, chain: &Json, rpcs: &[String]) -> (r: Result<u64, Halt>)
    ensures
        ({
            let run = job_chain_id_run(chain@, texts(rpcs@), old(tape)@);
            match r {
                Ok(id) => gave(run, id as nat, final(tape)@),
                Err(h) => halted(run, h, final(tape)@),
            }
        }),
{
    if let Some(id) = chain.number_at("chain_id") {
        return Ok(id);
    }
    chain_id(tape, rpcs)
}

/// `estimate` with 25% headroom.
pub fn add_headroom(estimate: u64) -> (r: u64)
    ensures
        r == with_headroom(estimate as nat),
{
    let scaled: u128 = estimate as u128 * 125;
    let limit: u128 = if scaled > u64::MAX as u128 { u64::MAX as u128 } else { scaled };
    (limit / 100) as u64
}

fn gas_limit_for(
    tape: &mut Tape,
    cfg: &Json,
    rpcs: &[String],
    from: &[u8; 20],
    to: &[u8; 20],
    data: &[u8],
) -> (r: Result<u64, Halt>)
    ensures
        ({
            let run = gas_limit_run(cfg@, texts(rpcs@), from@, to@, data@, old(tape)@);
            match r {
                Ok(g) => gave(run, g as nat, final(tape)@),
                Err(h) => halted(run, h, final(tape)@),
            }
        }),
{
    match cfg.number_at("gas_limit") {
        Some(g) => Ok(g),
        None => match estimate_gas(tape, rpcs, from, to, data) {
            Ok(estimate) => Ok(add_headroom(estimate)),
            Err(h) => Err(h),
        },
    }
}

/// The transaction that carries `data` to `to`, with fees and nonce from the RPCs.
pub fn build_tx(
    tape: &mut Tape,
    cfg: &Json,
    chain: &Json,
    rpcs: &[String],
    from: &[u8; 20],
    to: &[u8; 20],
    data: &[u8],
) -> (r: Result<Eip1559Tx, Halt>)
    ensures
        ({
            let order = OrderModel {
                cfg: cfg@,
                rpcs: texts(rpcs@),
                from: from@,
                to: to@,
                data: data@,
            };
            let run = build_run(order, chain@, old(tape)@);
            match r {
                Ok(tx) => gave(run, tx@, final(tape)@),
                Err(h) => halted(run, h, final(tape)@),
            }
        }),
{
    let chain_id = match cfg_chain_id(tape, chain, rpcs) {
        Ok(id) => id,
        Err(h) => {
            return Err(h);
        },
    };
    let nonce = match pending_nonce(tape, rpcs, from) {
        Ok(nonce) => nonce,
        Err(h) => {
            return Err(h);
        },
    };
    let (base_fee, suggested) = match fees(tape, rpcs) {
        Ok(found) => found,
        Err(h) => {
            return Err(h);
        },
    };
    let priority: u128 = match cfg.number_at("max_priority_fee_wei") {
        Some(p) => p as u128,
        None => suggested,
    };
    let max_fee: u128 = base_fee.saturating_add(base_fee).saturating_add(priority);
    let gas_limit = match gas_limit_for(tape, cfg, rpcs, from, to, data) {
        Ok(g) => g,
        Err(h) => {
            return Err(h);
        },
    };
    Ok(
        Eip1559Tx {
            chain_id,
            nonce,
            max_priority_fee: priority,
            max_fee,
            gas_limit,
            to: *to,
            value: 0,
            data: slice_to_vec(data),
        },
    )
}

/// Build, sign and broadcast the transaction that carries `data` to `to`.
pub fn send_tx(
    tape: &mut Tape,
    cfg: &Json,
    chain: &Json,
    rpcs: &[String],
    signer: &Signer,
    to: &[u8; 20],
    data: &[u8],
) -> (r: Result<Sent, Halt>)
    requires
        signer.address@ == address_of(signer.secret()),
    ensures
        ({
            let run = send_tx_run(
                cfg@,
                chain@,
                texts(rpcs@),
                signer.secret(),
                to@,
                data@,
                old(tape)@,
            );
            match r {
                Ok(sent) => gave(run, sent@, final(tape)@),
                Err(h) => halted(run, h, final(tape)@),
            }
        }),
{
    let tx = match build_tx(tape, cfg, chain, rpcs, &signer.address, to, data) {
        Ok(tx) => tx,
        Err(h) => {
            return Err(h);
        },
    };
    let raw = match tx.sign(signer) {
        Ok(raw) => raw,
        Err(e) => {
            return Err(Halt::Fail(e));
        },
    };
    match send_raw(tape, rpcs, raw.as_slice()) {
        Ok(tx_hash) => Ok(Sent { tx_hash, nonce: tx.nonce }),
        Err(h) => Err(h),
    }
}

// ---- preparing an attestation ---------------------------------------------------------

/// An attestation that is ready to be sent.
pub struct Prepared {
    pub schema_uid: [u8; 32],
    pub data: Vec<u8>,
    pub calldata: Vec<u8>,
    pub eas: [u8; 20],
}

/// What a `Prepared` holds.
pub struct PreparedModel {
    pub schema_uid: Seq<u8>,
    pub data: Seq<u8>,
    pub calldata: Seq<u8>,
    pub eas: Seq<u8>,
}

impl View for Prepared {
    type V = PreparedModel;

    open spec fn view(&self) -> PreparedModel {
        PreparedModel {
            schema_uid: self.schema_uid@,
            data: self.data@,
            calldata: self.calldata@,
            eas: self.eas@,
        }
    }
}

/// The UID of the schema. A real attestation needs it; for a preview it may be missing.
pub open spec fn uid_in(schema: JsonModel, dry_run: bool) -> Result<Seq<u8>, Seq<char>> {
    match text_at(schema, "uid"@) {
        Some(s) if !is_blank(s) => hex_word(s),
        _ => if dry_run {
            Ok(zeros(32))
        } else {
            Err("schema.uid is required for attest (register the schema first)"@)
        },
    }
}

/// The address under the given name, which must be there.
pub open spec fn contract_at(chain: JsonModel, key: Seq<char>) -> Result<Seq<u8>, Seq<char>> {
    match text_at(chain, key) {
        Some(s) => hex_address(s),
        None => Err("chain."@ + key + " address is required"@),
    }
}

/// When the attestation expires; zero is never.
pub open spec fn expiration_in(schema: JsonModel) -> nat {
    match number_at(schema, "expiration"@) {
        Some(n) => n as nat,
        None => 0,
    }
}

/// Can it be revoked?
pub open spec fn revocable_in(schema: JsonModel) -> bool {
    match bool_at(schema, "revocable"@) {
        Some(b) => b,
        None => true,
    }
}

/// The attestation of the collected values.
pub open spec fn prepared(
    schema: JsonModel,
    chain: JsonModel,
    fields: Seq<FieldModel>,
    values: Seq<RawModel>,
    dry_run: bool,
) -> Result<PreparedModel, Seq<char>> {
    match schema_data(fields, values) {
        Err(e) => Err(e),
        Ok(data) => match uid_in(schema, dry_run) {
            Err(e) => Err(e),
            Ok(uid) => match optional_address(schema, "recipient"@) {
                Err(e) => Err(e),
                Ok(recipient) => match optional_word(schema, "ref_uid"@) {
                    Err(e) => Err(e),
                    Ok(ref_uid) => match contract_at(chain, "eas"@) {
                        Err(e) => Err(e),
                        Ok(eas) => Ok(
                            PreparedModel {
                                schema_uid: uid,
                                data,
                                calldata: call_data(
                                    ATTEST_SIG@,
                                    seq![
                                        request_value(
                                            uid,
                                            recipient,
                                            expiration_in(schema),
                                            revocable_in(schema),
                                            ref_uid,
                                            data,
                                            0,
                                        ),
                                    ],
                                ),
                                eas,
                            },
                        ),
                    },
                },
            },
        },
    }
}

fn read_contract(chain: &Json, key: &str) -> (r: Result<[u8; 20], String>)
    ensures
        match r {
            Ok(a) => contract_at(chain@, key@) == Ok::<Seq<u8>, Seq<char>>(a@),
            Err(e) => contract_at(chain@, key@) == Err::<Seq<u8>, Seq<char>>(e@),
        },
{
    match chain.text_at(key) {
        Some(s) => hex_to_array20(s),
        None => {
            let mut e = "chain.".to_owned();
            e.append(key);
            e.append(" address is required");
            Err(e)
        },
    }
}

fn read_uid(schema: &Json, dry_run: bool) -> (r: Result<[u8; 32], String>)
    ensures
        match r {
            Ok(a) => uid_in(schema@, dry_run) == Ok::<Seq<u8>, Seq<char>>(a@),
            Err(e) => uid_in(schema@, dry_run) == Err::<Seq<u8>, Seq<char>>(e@),
        },
{
    if let Some(s) = schema.text_at("uid") {
        if !blank(s) {
            return hex_to_array32(s);
        }
    }
    if dry_run {
        let none: [u8; 32] = [0u8; 32];
        assert(none@ =~= zeros(32));
        Ok(none)
    } else {
        Err("schema.uid is required for attest (register the schema first)".to_owned())
    }
}

fn read_revocable(schema: &Json) -> (r: bool)
    ensures
        r == revocable_in(schema@),
{
    match schema.bool_at("revocable") {
        Some(b) => b,
        None => true,
    }
}

/// The attestation of the collected values.
pub fn prepare(
    schema: &Json,
    chain: &Json,
    fields: &[SchemaField],
    values: &[Raw],
    dry_run: bool,
) -> (r: Result<Prepared, String>)
    ensures
        ({
            let p = prepared(
                schema@,
                chain@,
                field_models(fields@),
                raw_models(values@),
                dry_run,
            );
            match r {
                Ok(found) => p == Ok::<PreparedModel, Seq<char>>(found@),
                Err(e) => p == Err::<PreparedModel, Seq<char>>(e@),
            }
        }),
{
    let data = match encode_schema_data(fields, values) {
        Ok(data) => data,
        Err(e) => {
            return Err(e);
        },
    };
    let uid = match read_uid(schema, dry_run) {
        Ok(uid) => uid,
        Err(e) => {
            return Err(e);
        },
    };
    let recipient = match opt_addr(schema, "recipient") {
        Ok(a) => a,
        Err(e) => {
            return Err(e);
        },
    };
    let expiration_time: u64 = match schema.number_at("expiration") {
        Some(n) => n,
        None => 0,
    };
    let ref_uid = match opt_bytes32(schema, "ref_uid") {
        Ok(w) => w,
        Err(e) => {
            return Err(e);
        },
    };
    let req = AttestationRequest {
        schema_uid: uid,
        recipient,
        expiration_time,
        revocable: read_revocable(schema),
        ref_uid,
        data: slice_to_vec(data.as_slice()),
        value: 0,
    };
    let eas = match read_contract(chain, "eas") {
        Ok(a) => a,
        Err(e) => {
            return Err(e);
        },
    };
    let calldata = req.calldata();
    Ok(Prepared { schema_uid: uid, data, calldata, eas })
}

// ---- attesting ------------------------------------------------------------------------

/// What an attestation is to be made of.
pub struct Plan<'a> {
    pub schema: &'a Json,
    pub fields: Vec<SchemaField>,
    pub items: &'a Vec<Json>,
    pub blocks_behind: u64,
    pub min_agree: usize,
}

/// What a `Plan` holds.
pub struct PlanModel {
    pub schema: JsonModel,
    pub fields: Seq<FieldModel>,
    pub items: Seq<JsonModel>,
    pub blocks_behind: u64,
    pub min_agree: usize,
}

impl<'a> View for Plan<'a> {
    type V = PlanModel;

    open spec fn view(&self) -> PlanModel {
        PlanModel {
            schema: self.schema@,
            fields: field_models(self.fields@),
            items: json_models(self.items@),
            blocks_behind: self.blocks_behind,
            min_agree: self.min_agree,
        }
    }
}

/// How far behind the head values are read unless a collector says otherwise.
pub open spec fn default_behind(cfg: JsonModel) -> u64 {
    match number_at(cfg, "blocks_behind"@) {
        Some(n) => n,
        None => 4,
    }
}

/// How many RPCs must agree unless a collector says otherwise.
pub open spec fn default_agree(cfg: JsonModel) -> usize {
    match number_at(cfg, "min_agree"@) {
        Some(n) => threshold(n),
        None => 2,
    }
}

/// What the attestation of a job is to be made of: one collector for each field, in order.
pub open spec fn plan_in(cfg: JsonModel) -> Result<PlanModel, Seq<char>> {
    match member(cfg, "schema"@) {
        None => Err("missing \"schema\""@),
        Some(schema) => match text_at(schema, "definition"@) {
            None => Err(
                "schema.definition is required (e.g. \"uint256 locked,uint256 minted\")"@,
            ),
            Some(definition) => match schema_fields(definition) {
                Err(e) => Err(e),
                Ok(fields) => match array_at(cfg, "collect"@) {
                    None => Err("missing \"collect\" array"@),
                    Some(items) => if items.len() != fields.len() {
                        Err(
                            "schema has "@ + decimal_text(fields.len())
                                + " fields but collect has "@ + decimal_text(items.len())
                                + " items — they map one-to-one, in order"@,
                        )
                    } else {
                        Ok(
                            PlanModel {
                                schema,
                                fields,
                                items,
                                blocks_behind: default_behind(cfg),
                                min_agree: default_agree(cfg),
                            },
                        )
                    },
                },
            },
        },
    }
}

/// What the attestation of a job is to be made of.
pub fn plan<'a>(cfg: &'a Json) -> (r: Result<Plan<'a>, String>)
    ensures
        match r {
            Ok(p) => plan_in(cfg@) == Ok::<PlanModel, Seq<char>>(p@) && p.items@.len()
                == p.fields@.len(),
            Err(e) => plan_in(cfg@) == Err::<PlanModel, Seq<char>>(e@),
        },
{
    let schema = match cfg.get("schema") {
        Some(schema) => schema,
        None => {
            return Err("missing \"schema\"".to_owned());
        },
    };
    let definition = match schema.text_at("definition") {
        Some(definition) => definition,
        None => {
            return Err(
                "schema.definition is required (e.g. \"uint256 locked,uint256 minted\")".to_owned(),
            );
        },
    };
    let fields = match parse_schema(definition) {
        Ok(fields) => fields,
        Err(e) => {
            return Err(e);
        },
    };
    let blocks_behind: u64 = match cfg.number_at("blocks_behind") {
        Some(n) => n,
        None => 4,
    };
    let min_agree: usize = match cfg.number_at("min_agree") {
        Some(n) => agreeing(n),
        None => 2,
    };
    let items = match cfg.array_at("collect") {
        Some(items) => items,
        None => {
            return Err("missing \"collect\" array".to_owned());
        },
    };
    assert(field_models(fields@).len() == fields@.len());
    assert(json_models(items@).len() == items@.len());
    if items.len() != fields.len() {
        let mut e = "schema has ".to_owned();
        e.append(decimal(fields.len() as u128).as_str());
        e.append(" fields but collect has ");
        e.append(decimal(items.len() as u128).as_str());
        e.append(" items — they map one-to-one, in order");
        return Err(e);
    }
    Ok(Plan { schema, fields, items, blocks_behind, min_agree })
}

/// Everything that was collected for an attestation, and the block it was pinned to on the
/// attestation's own chain.
pub struct GatheredModel {
    pub block: nat,
    pub values: Seq<RawModel>,
    pub evidence: Seq<JsonModel>,
}

/// The course of collecting what a plan asks for. Each value is read at a pinned, quorum-agreed
/// block.
pub open spec fn gather_run(
    plan: PlanModel,
    env: Seq<(Seq<char>, Seq<char>)>,
    rpcs: Seq<Seq<char>>,
    replies: Seq<ReplyModel>,
) -> Run<GatheredModel> {
    let defaults = DefaultsModel {
        env,
        rpcs,
        blocks_behind: plan.blocks_behind,
        min_agree: plan.min_agree,
    };
    match pin_run(Seq::empty(), rpcs, plan.blocks_behind as nat, replies) {
        Run::Ask(q) => Run::Ask(q),
        Run::Done { value: Err(e), rest } => Run::Done { value: Err(e), rest },
        Run::Done { value: Ok((block, pins)), rest } => match collect_all_run(
            plan.items,
            plan.fields,
            0,
            defaults,
            pins,
            Seq::empty(),
            Seq::empty(),
            rest,
        ) {
            Run::Ask(q) => Run::Ask(q),
            Run::Done { value: Err(e), rest } => Run::Done { value: Err(e), rest },
            Run::Done { value: Ok((values, evidence)), rest } => Run::Done {
                value: Ok(GatheredModel { block, values, evidence }),
                rest,
            },
        },
    }
}

/// Collect what a plan asks for.
pub fn gather(tape: &mut Tape, plan: &Plan, env: &[(String, String)], rpcs: &[String]) -> (r:
    Result<(u64, Harvest), Halt>)
    requires
        plan.items@.len() == plan.fields@.len(),
    ensures
        ({
            let run = gather_run(plan@, variables(env@), texts(rpcs@), old(tape)@);
            match r {
                Ok((block, h)) => gave(
                    run,
                    (GatheredModel {
                        block: block as nat,
                        values: raw_models(h.values@),
                        evidence: json_models(h.evidence@),
                    }),
                    final(tape)@,
                ),
                Err(h) => halted(run, h, final(tape)@),
            }
        }),
{
    let mut pins: Vec<Pin> = Vec::new();
    assert(pin_models(pins@) =~= Seq::<PinModel>::empty());
    let block = match block_for(tape, &mut pins, rpcs, plan.blocks_behind) {
        Ok(block) => block,
        Err(h) => {
            return Err(h);
        },
    };
    let defaults = Defaults {
        env,
        rpcs,
        blocks_behind: plan.blocks_behind,
        min_agree: plan.min_agree,
    };
    match collect_all(tape, &mut pins, plan.items.as_slice(), plan.fields.as_slice(), &defaults) {
        Ok(harvest) => Ok((block, harvest)),
        Err(h) => Err(h),
    }
}

/// What is reported of an attestation whether it is sent or not.
pub open spec fn report_of(
    dry_run: bool,
    block: nat,
    p: PreparedModel,
    evidence: Seq<JsonModel>,
) -> JsonModel {
    let placed = with_member(
        with_text(
            no_members(),
            "mode"@,
            if dry_run {
                "dry_run"@
            } else {
                "attest"@
            },
        ),
        "block_number"@,
        JsonModel::Unsigned(block as u64),
    );
    let encoded = with_text(
        with_text(
            with_text(placed, "schema_uid"@, hex_0x(p.schema_uid)),
            "attestation_data"@,
            hex_0x(p.data),
        ),
        "calldata"@,
        hex_0x(p.calldata),
    );
    with_member(encoded, "collected"@, JsonModel::Array(evidence))
}

/// The outcome of a dry run: the report, and who would sign.
pub open spec fn preview_of(
    report: JsonModel,
    eas: Seq<u8>,
    key: Result<Seq<u8>, Seq<char>>,
) -> JsonModel {
    let shown = with_text(
        with_member(report, "success"@, JsonModel::Bool(true)),
        "eas"@,
        hex_0x(eas),
    );
    match key {
        Ok(key) => with_text(shown, "attester"@, hex_0x(address_of(key))),
        Err(_) => shown,
    }
}

/// The outcome of an attestation: the report, who signed it, and the transaction.
pub open spec fn attested(
    report: JsonModel,
    address: Seq<u8>,
    sent: SentModel,
    chain_id: nat,
) -> JsonModel {
    let signed = with_text(
        with_member(report, "success"@, JsonModel::Bool(true)),
        "attester"@,
        hex_0x(address),
    );
    let sent_as = with_member(
        with_text(signed, "tx_hash"@, sent.tx_hash),
        "nonce"@,
        JsonModel::Unsigned(sent.nonce as u64),
    );
    match explorer_url(chain_id, address) {
        Some(url) => with_text(sent_as, "attester_url"@, url),
        None => sent_as,
    }
}

/// The course of sending a prepared attestation.
pub open spec fn deliver_run(
    cfg: JsonModel,
    chain: JsonModel,
    rpcs: Seq<Seq<char>>,
    key: Seq<u8>,
    p: PreparedModel,
    report: JsonModel,
    replies: Seq<ReplyModel>,
) -> Run<JsonModel> {
    match send_tx_run(cfg, chain, rpcs, key, p.eas, p.calldata, replies) {
        Run::Ask(q) => Run::Ask(q),
        Run::Done { value: Err(e), rest } => Run::Done { value: Err(e), rest },
        Run::Done { value: Ok(sent), rest } => match job_chain_id_run(chain, rpcs, rest) {
            Run::Ask(q) => Run::Ask(q),
            Run::Done { value: Err(e), rest } => Run::Done { value: Err(e), rest },
            Run::Done { value: Ok(id), rest } => Run::Done {
                value: Ok(attested(report, address_of(key), sent, id)),
                rest,
            },
        },
    }
}

/// The course of concluding an attestation whose values have been collected: show it, or send it.
pub open spec fn conclude_run(
    cfg: JsonModel,
    chain: JsonModel,
    env: Seq<(Seq<char>, Seq<char>)>,
    rpcs: Seq<Seq<char>>,
    dry_run: bool,
    plan: PlanModel,
    g: GatheredModel,
    replies: Seq<ReplyModel>,
) -> Run<JsonModel> {
    match prepared(plan.schema, chain, plan.fields, g.values, dry_run) {
        Err(e) => Run::Done { value: Err(e), rest: replies },
        Ok(p) => {
            let report = report_of(dry_run, g.block, p, g.evidence);
            if dry_run {
                Run::Done { value: Ok(preview_of(report, p.eas, key_in(cfg, env))), rest: replies }
            } else {
                match key_in(cfg, env) {
                    Err(_) => Run::Done {
                        value: Err(
                            "attest mode needs a signing key (set key_env to a funded secret)"@,
                        ),
                        rest: replies,
                    },
                    Ok(key) => deliver_run(cfg, chain, rpcs, key, p, report, replies),
                }
            }
        },
    }
}

/// The course of an attestation, or of the preview of one.
pub open spec fn attest_run(
    cfg: JsonModel,
    chain: JsonModel,
    env: Seq<(Seq<char>, Seq<char>)>,
    rpcs: Seq<Seq<char>>,
    dry_run: bool,
    replies: Seq<ReplyModel>,
) -> Run<JsonModel> {
    match plan_in(cfg) {
        Err(e) => Run::Done { value: Err(e), rest: replies },
        Ok(plan) => match gather_run(plan, env, rpcs, replies) {
            Run::Ask(q) => Run::Ask(q),
            Run::Done { value: Err(e), rest } => Run::Done { value: Err(e), rest },
            Run::Done { value: Ok(g), rest } => conclude_run(
                cfg,
                chain,
                env,
                rpcs,
                dry_run,
                plan,
                g,
                rest,
            ),
        },
    }
}

fn make_report(dry_run: bool, block: u64, p: &Prepared, evidence: Vec<Json>) -> (r: Json)
    ensures
        r@ == report_of(dry_run, block as nat, p@, json_models(evidence@)),
{
    let mut v = Json::object();
    v.set("mode", Json::text(if dry_run { "dry_run" } else { "attest" }));
    v.set("block_number", Json::number(block));
    v.set("schema_uid", Json::Str(to_hex_0x(p.schema_uid.as_slice())));
    v.set("attestation_data", Json::Str(to_hex_0x(p.data.as_slice())));
    v.set("calldata", Json::Str(to_hex_0x(p.calldata.as_slice())));
    v.set("collected", Json::Array(evidence));
    v
}

/// Send a prepared attestation.
pub fn deliver(
    tape: &mut Tape,
    cfg: &Json,
    chain: &Json,
    rpcs: &[String],
    signer: &Signer,
    p: &Prepared,
    report: Json,
) -> (r: Result<Json, Halt>)
    requires
        signer.address@ == address_of(signer.secret()),
    ensures
        ({
            let run = deliver_run(
                cfg@,
                chain@,
                texts(rpcs@),
                signer.secret(),
                p@,
                report@,
                old(tape)@,
            );
            match r {
                Ok(v) => gave(run, v@, final(tape)@),
                Err(h) => halted(run, h, final(tape)@),
            }
        }),
{
    let sent = match send_tx(tape, cfg, chain, rpcs, signer, &p.eas, p.calldata.as_slice()) {
        Ok(sent) => sent,
        Err(h) => {
            return Err(h);
        },
    };
    let id = match cfg_chain_id(tape, chain, rpcs) {
        Ok(id) => id,
        Err(h) => {
            return Err(h);
        },
    };
    let mut v = report;
    v.set("success", Json::Bool(true));
    v.set("attester", Json::Str(to_hex_0x(signer.address.as_slice())));
    v.set("tx_hash", Json::text(sent.tx_hash.as_str()));
    v.set("nonce", Json::number(sent.nonce));
    if let Some(url) = easscan_address_url(&id, &signer.address) {
        v.set("attester_url", Json::Str(url));
    }
    Ok(v)
}

/// Collect, encode, and then show the attestation or send it.
pub fn attest(
    tape: &mut Tape,
    cfg: &Json,
    chain: &Json,
    env: &[(String, String)],
    rpcs: &[String],
    dry_run: bool,
) -> (r: Result<Json, Halt>)
    ensures
        ({
            let run = attest_run(
                cfg@,
                chain@,
                variables(env@),
                texts(rpcs@),
                dry_run,
                old(tape)@,
            );
            match r {
                Ok(v) => gave(run, v@, final(tape)@),
                Err(h) => halted(run, h, final(tape)@),
            }
        }),
{
    let plan = match plan(cfg) {
        Ok(plan) => plan,
        Err(e) => {
            return Err(Halt::Fail(e));
        },
    };
    let (block, harvest) = match gather(tape, &plan, env, rpcs) {
        Ok(found) => found,
        Err(h) => {
            return Err(h);
        },
    };
    let p = match prepare(
        plan.schema,
        chain,
        plan.fields.as_slice(),
        harvest.values.as_slice(),
        dry_run,
    ) {
        Ok(p) => p,
        Err(e) => {
            return Err(Halt::Fail(e));
        },
    };
    let report = make_report(dry_run, block, &p, harvest.evidence);
    // The signing key is only needed to actually send (or to show the attester in a dry run).
    let signer = load_signer(cfg, env);
    if dry_run {
        let mut v = report;
        v.set("success", Json::Bool(true));
        v.set("eas", Json::Str(to_hex_0x(p.eas.as_slice())));
        if let Ok(s) = &signer {
            v.set("attester", Json::Str(to_hex_0x(s.address.as_slice())));
        }
        return Ok(v);
    }
    match signer {
        Ok(signer) => deliver(tape, cfg, chain, rpcs, &signer, &p, report),
        Err(_) => Err(
            Halt::Fail(
                "attest mode needs a signing key (set key_env to a funded secret)".to_owned(),
            ),
        ),
    }
}

// ---- registering a schema -------------------------------------------------------------

/// What is to be registered, and where.
pub struct Registration {
    pub definition: String,
    pub resolver: [u8; 20],
    pub revocable: bool,
    pub registry: [u8; 20],
}

/// What a `Registration` holds.
pub struct RegistrationModel {
    pub definition: Seq<char>,
    pub resolver: Seq<u8>,
    pub revocable: bool,
    pub registry: Seq<u8>,
}

impl View for Registration {
    type V = RegistrationModel;

    open spec fn view(&self) -> RegistrationModel {
        RegistrationModel {
            definition: self.definition@,
            resolver: self.resolver@,
            revocable: self.revocable,
            registry: self.registry@,
        }
    }
}

/// What a job wants to register, and where.
pub open spec fn registration_in(cfg: JsonModel, chain: JsonModel) -> Result<
    RegistrationModel,
    Seq<char>,
> {
    match member(cfg, "schema"@) {
        None => Err("missing \"schema\""@),
        Some(schema) => match text_at(schema, "definition"@) {
            None => Err("schema.definition is required"@),
            Some(definition) => match optional_address(schema, "resolver"@) {
                Err(e) => Err(e),
                Ok(resolver) => match contract_at(chain, "schema_registry"@) {
                    Err(e) => Err(e),
                    Ok(registry) => Ok(
                        RegistrationModel {
                            definition,
                            resolver,
                            revocable: revocable_in(schema),
                            registry,
                        },
                    ),
                },
            },
        },
    }
}

/// The outcome of a registration.
pub open spec fn registered(reg: RegistrationModel, address: Seq<u8>, sent: SentModel) -> JsonModel {
    let named = with_text(
        with_member(no_members(), "success"@, JsonModel::Bool(true)),
        "mode"@,
        "register_schema"@,
    );
    let described = with_text(
        with_text(
            with_text(named, "registrant"@, hex_0x(address)),
            "definition"@,
            reg.definition,
        ),
        "predicted_schema_uid"@,
        hex_0x(schema_uid(reg.definition, reg.resolver, reg.revocable)),
    );
    with_member(
        with_text(described, "tx_hash"@, sent.tx_hash),
        "nonce"@,
        JsonModel::Unsigned(sent.nonce as u64),
    )
}

/// The course of registering a schema.
pub open spec fn register_run(
    cfg: JsonModel,
    chain: JsonModel,
    env: Seq<(Seq<char>, Seq<char>)>,
    rpcs: Seq<Seq<char>>,
    replies: Seq<ReplyModel>,
) -> Run<JsonModel> {
    match registration_in(cfg, chain) {
        Err(e) => Run::Done { value: Err(e), rest: replies },
        Ok(reg) => match key_in(cfg, env) {
            Err(e) => Run::Done { value: Err(e), rest: replies },
            Ok(key) => match send_tx_run(
                cfg,
                chain,
                rpcs,
                key,
                reg.registry,
                register_data(reg.definition, reg.resolver, reg.revocable),
                replies,
            ) {
                Run::Ask(q) => Run::Ask(q),
                Run::Done { value: Err(e), rest } => Run::Done { value: Err(e), rest },
                Run::Done { value: Ok(sent), rest } => Run::Done {
                    value: Ok(registered(reg, address_of(key), sent)),
                    rest,
                },
            },
        },
    }
}

/// What a job wants to register, and where.
pub fn registration(cfg: &Json, chain: &Json) -> (r: Result<Registration, String>)
    ensures
        match r {
            Ok(reg) => registration_in(cfg@, chain@) == Ok::<RegistrationModel, Seq<char>>(reg@),
            Err(e) => registration_in(cfg@, chain@) == Err::<RegistrationModel, Seq<char>>(e@),
        },
{
    let schema = match cfg.get("schema") {
        Some(schema) => schema,
        None => {
            return Err("missing \"schema\"".to_owned());
        },
    };
    let definition = match schema.text_at("definition") {
        Some(definition) => definition,
        None => {
            return Err("schema.definition is required".to_owned());
        },
    };
    let resolver = match opt_addr(schema, "resolver") {
        Ok(a) => a,
        Err(e) => {
            return Err(e);
        },
    };
    match read_contract(chain, "schema_registry") {
        Ok(registry) => Ok(
            Registration {
                definition: definition.to_owned(),
                resolver,
                revocable: read_revocable(schema),
                registry,
            },
        ),
        Err(e) => Err(e),
    }
}

/// Register a new schema in the SchemaRegistry, and tell the UID that it gets.
pub fn register_schema(
    tape: &mut Tape,
    cfg: &Json,
    chain: &Json,
    env: &[(String, String)],
    rpcs: &[String],
) -> (r: Result<Json, Halt>)
    ensures
        ({
            let run = register_run(cfg@, chain@, variables(env@), texts(rpcs@), old(tape)@);
            match r {
                Ok(v) => gave(run, v@, final(tape)@),
                Err(h) => halted(run, h, final(tape)@),
            }
        }),
{
    let reg = match registration(cfg, chain) {
        Ok(reg) => reg,
        Err(e) => {
            return Err(Halt::Fail(e));
        },
    };
    let definition = reg.definition.as_str();
    let calldata = register_schema_calldata(definition, reg.resolver, reg.revocable);
    let uid = predicted_schema_uid(definition, &reg.resolver, reg.revocable);
    let signer = match load_signer(cfg, env) {
        Ok(signer) => signer,
        Err(e) => {
            return Err(Halt::Fail(e));
        },
    };
    let sent = match send_tx(tape, cfg, chain, rpcs, &signer, &reg.registry, calldata.as_slice()) {
        Ok(sent) => sent,
        Err(h) => {
            return Err(h);
        },
    };
    let mut v = Json::object();
    v.set("success", Json::Bool(true));
    v.set("mode", Json::text("register_schema"));
    v.set("registrant", Json::Str(to_hex_0x(signer.address.as_slice())));
    v.set("definition", Json::text(definition));
    v.set("predicted_schema_uid", Json::Str(to_hex_0x(uid.as_slice())));
    v.set("tx_hash", Json::text(sent.tx_hash.as_str()));
    v.set("nonce", Json::number(sent.nonce));
    Ok(v)
}

// ---- the whole job --------------------------------------------------------------------

/// The RPCs of a job, with their secrets; there must be one.
pub open spec fn job_rpcs(chain: JsonModel, env: Seq<(Seq<char>, Seq<char>)>) -> Result<
    Seq<Seq<char>>,
    Seq<char>,
> {
    match texts_at(chain, "rpcs"@) {
        Err(e) => Err(e),
        Ok(list) => match all_resolved(list, env) {
            Err(e) => Err(e),
            Ok(rpcs) => if rpcs.len() == 0 {
                Err("chain.rpcs must list at least one RPC (several for a real quorum)"@)
            } else {
                Ok(rpcs)
            },
        },
    }
}

/// The course of a job.
pub open spec fn job_run(
    cfg: JsonModel,
    env: Seq<(Seq<char>, Seq<char>)>,
    replies: Seq<ReplyModel>,
) -> Run<JsonModel> {
    match member(cfg, "chain"@) {
        None => Run::Done { value: Err("missing \"chain\""@), rest: replies },
        Some(given) => match chain_in_effect(given) {
            Err(e) => Run::Done { value: Err(e), rest: replies },
            Ok(chain) => match job_rpcs(chain, env) {
                Err(e) => Run::Done { value: Err(e), rest: replies },
                Ok(rpcs) => {
                    let mode = text_or(cfg, "mode"@, "attest"@);
                    if mode == "register_schema"@ {
                        register_run(cfg, chain, env, rpcs, replies)
                    } else if mode == "attest"@ {
                        attest_run(cfg, chain, env, rpcs, false, replies)
                    } else if mode == "dry_run"@ {
                        attest_run(cfg, chain, env, rpcs, true, replies)
                    } else {
                        Run::Done { value: Err("unknown mode: "@ + mode), rest: replies }
                    }
                },
            },
        },
    }
}

fn read_job_rpcs(chain: &Json, env: &[(String, String)]) -> (r: Result<Vec<String>, String>)
    ensures
        match r {
            Ok(list) => job_rpcs(chain@, variables(env@)) == Ok::<Seq<Seq<char>>, Seq<char>>(
                texts(list@),
            ),
            Err(e) => job_rpcs(chain@, variables(env@)) == Err::<Seq<Seq<char>>, Seq<char>>(e@),
        },
{
    let given = match string_array(chain, "rpcs") {
        Ok(given) => given,
        Err(e) => {
            return Err(e);
        },
    };
    let rpcs = match resolve_rpcs(given.as_slice(), env) {
        Ok(rpcs) => rpcs,
        Err(e) => {
            return Err(e);
        },
    };
    assert(texts(rpcs@).len() == rpcs@.len());
    if rpcs.len() == 0 {
        return Err(
            "chain.rpcs must list at least one RPC (several for a real quorum)".to_owned(),
        );
    }
    Ok(rpcs)
}

/// Do what a job's configuration asks for.
pub fn perform(tape: &mut Tape, cfg: &Json, env: &[(String, String)]) -> (r: Result<Json, Halt>)
    ensures
        ({
            let run = job_run(cfg@, variables(env@), old(tape)@);
            match r {
                Ok(v) => gave(run, v@, final(tape)@),
                Err(h) => halted(run, h, final(tape)@),
            }
        }),
{
    let mode = match cfg.text_at("mode") {
        Some(mode) => mode,
        None => "attest",
    };
    let given = match cfg.get("chain") {
        Some(given) => given,
        None => {
            return Err(Halt::Fail("missing \"chain\"".to_owned()));
        },
    };
    // `chain.network` (e.g. "base", "base-sepolia") fills in EAS/registry addresses, chain_id and
    // default public RPCs for any field not given explicitly: pick a testnet to try it gas-free.
    let chain = match effective_chain(given) {
        Ok(chain) => chain,
        Err(e) => {
            return Err(Halt::Fail(e));
        },
    };
    let rpcs = match read_job_rpcs(&chain, env) {
        Ok(rpcs) => rpcs,
        Err(e) => {
            return Err(Halt::Fail(e));
        },
    };
    if same(mode, "register_schema") {
        register_schema(tape, cfg, &chain, env, rpcs.as_slice())
    } else if same(mode, "attest") {
        attest(tape, cfg, &chain, env, rpcs.as_slice(), false)
    } else if same(mode, "dry_run") {
        attest(tape, cfg, &chain, env, rpcs.as_slice(), true)
    } else {
        let mut e = "unknown mode: ".to_owned();
        e.append(mode);
        Err(Halt::Fail(e))
    }
}

/// The course of a job from the text of its configuration.
pub open spec fn text_run(
    input: Seq<char>,
    env: Seq<(Seq<char>, Seq<char>)>,
    replies: Seq<ReplyModel>,
) -> Run<JsonModel> {
    match json_parsed(encode_utf8(trimmed(input))) {
        Err(e) => Run::Done { value: Err("input is not valid JSON: "@ + e), rest: replies },
        Ok(cfg) => job_run(cfg, env, replies),
    }
}

/// Do what the job that `input` spells asks for.
pub fn run(tape: &mut Tape, input: &str, env: &[(String, String)]) -> (r: Result<Json, Halt>)
    ensures
        ({
            let run = text_run(input@, variables(env@), old(tape)@);
            match r {
                Ok(v) => gave(run, v@, final(tape)@),
                Err(h) => halted(run, h, final(tape)@),
            }
        }),
{
    match parse(trim(input).as_bytes()) {
        Ok(cfg) => perform(tape, &cfg, env),
        Err(why) => {
            let mut e = "input is not valid JSON: ".to_owned();
            e.append(why.as_str());
            Err(Halt::Fail(e))
        },
    }
}

} // verus!
