//! What a job does with the words of its configuration: what it collects, signs, sends and reports.

use vstd::prelude::*;
use vstd::utf8::encode_utf8;

use crate::abi::{hex_0x, hex_address, hex_bytes, hex_word};
use crate::config::{all_resolved, chain_in_effect, explorer_url, key_in, texts_at};
use crate::eas::{
    calls_attest, calls_register, field_models, law_attest_calldata, law_register_calldata,
    register_data, schema_data, schema_fields, schema_uid, FieldModel, RawModel, ATTEST_SIG,
    REGISTER_SIG,
};
use crate::evm::{collect_run, digested, source_in, takes_read};
use crate::guarantees::{
    answers_in, backed, carries, gathered_pins, law_broadcast_is_attestation,
    law_broadcast_is_registration, law_gathered, plan_defaults, soundly_collected, soundly_read,
};
use crate::job::{
    attest_run, build_run, collect_all_run, conclude_run, field_evidence, gather_run, item_agree,
    item_behind, item_rpcs, item_run, job_chain_id_run, job_rpcs, job_run, pinned, pins_after_all,
    pins_after_item, plan_in,
    prepared, register_run, registration_in, send_tx_run, text_run, DefaultsModel, GatheredModel,
    OrderModel, PinModel, PlanModel, PreparedModel,
};
use crate::json::{json_models, json_parsed, json_text, member, JsonModel};
use crate::keccak::{keccak_digest, selector_of};
use crate::rpc::{block_run, chain_id_run, fees_run, gas_run, nonce_run, send_run, votes};
use crate::session::{closing_text, failure_of};
use crate::sign::{address_of, signed_tx};
use crate::sources::{spelled_address, stated};
use crate::tape::{ReplyModel, RequestModel, Run};
use crate::text::{all_white, decimal_text, is_white, law_trimmed, quoted_text, texts};

verus! {

// ---- runs -----------------------------------------------------------------------------

/// Does the run ask this request next?
pub open spec fn asks<T>(run: Run<T>, q: RequestModel) -> bool {
    match run {
        Run::Ask(asked) => asked == q,
        _ => false,
    }
}

/// Does the run end with this error, and these replies left?
pub open spec fn fails<T>(run: Run<T>, e: Seq<char>, rest: Seq<ReplyModel>) -> bool {
    match run {
        Run::Done { value: Err(why), rest: left } => why == e && left == rest,
        _ => false,
    }
}

/// Does the run come to its end, with these replies left?
pub open spec fn succeeds<T>(run: Run<T>, rest: Seq<ReplyModel>) -> bool {
    match run {
        Run::Done { value: Ok(_), rest: left } => left == rest,
        _ => false,
    }
}

// ---- optional members -----------------------------------------------------------------

/// Does the member stand for nothing: is it missing, no text, the empty text, or `0x0`?
pub open spec fn left_out(m: JsonModel, key: Seq<char>) -> bool {
    match member(m, key) {
        Some(JsonModel::Str(s)) => s.len() == 0 || s == "0x0"@,
        _ => true,
    }
}

/// Is `a` what the job says under `key`: the 20 bytes that the text spells, or zero where it is left
/// out?
pub open spec fn states_address(m: JsonModel, key: Seq<char>, a: Seq<u8>) -> bool {
    if left_out(m, key) {
        a.len() == 20 && forall|i: int| 0 <= i < 20 ==> #[trigger] a[i] == 0
    } else {
        spelled_address(m, key) == Some(a)
    }
}

/// The 32 bytes that the text under `key` spells, if it spells 32.
pub open spec fn spelled_word(m: JsonModel, key: Seq<char>) -> Option<Seq<u8>> {
    match member(m, key) {
        Some(JsonModel::Str(s)) => match hex_bytes(s) {
            Ok(b) => if b.len() == 32 {
                Some(b)
            } else {
                None
            },
            Err(_) => None,
        },
        _ => None,
    }
}

/// Is `w` what the job says under `key`: the 32 bytes that the text spells, or zero where it is left
/// out?
pub open spec fn states_word(m: JsonModel, key: Seq<char>, w: Seq<u8>) -> bool {
    if left_out(m, key) {
        w.len() == 32 && forall|i: int| 0 <= i < 32 ==> #[trigger] w[i] == 0
    } else {
        spelled_word(m, key) == Some(w)
    }
}

/// The number under `key`, or the one that counts where there is none.
pub open spec fn stated_number(m: JsonModel, key: Seq<char>, otherwise: nat) -> nat {
    match member(m, key) {
        Some(JsonModel::Unsigned(n)) => n as nat,
        _ => otherwise,
    }
}

/// The truth value under `key`, or the one that counts where there is none.
pub open spec fn stated_flag(m: JsonModel, key: Seq<char>, otherwise: bool) -> bool {
    match member(m, key) {
        Some(JsonModel::Bool(b)) => b,
        _ => otherwise,
    }
}

// ---- the attestation ------------------------------------------------------------------

/// Is this the attestation that the job asks for? Its calldata calls `attest` with the schema's UID,
/// the recipient, the expiry, whether it can be revoked and the reference, each as the schema object
/// says it, with the payload, and with no value; and it goes to the EAS contract of the chain.
pub open spec fn attests_as_stated(
    p: PreparedModel,
    schema: JsonModel,
    chain: JsonModel,
    dry_run: bool,
) -> bool {
    &&& spelled_address(chain, "eas"@) == Some(p.eas)
    &&& states_word(schema, "uid"@, p.schema_uid)
    &&& left_out(schema, "uid"@) ==> dry_run
    &&& exists|recipient: Seq<u8>, ref_uid: Seq<u8>|
        {
            &&& #[trigger] states_address(schema, "recipient"@, recipient)
            &&& #[trigger] states_word(schema, "ref_uid"@, ref_uid)
            &&& calls_attest(
                p.calldata,
                p.schema_uid,
                recipient,
                stated_number(schema, "expiration"@, 0),
                stated_flag(schema, "revocable"@, true),
                ref_uid,
                p.data,
                0,
            )
        }
}

/// What is prepared for an attestation is what the job states, and it is refused exactly where the
/// values do not make a payload, a member does not spell what it should, or an attestation that is to
/// be sent has no schema UID.
pub proof fn law_prepared(
    schema: JsonModel,
    chain: JsonModel,
    fields: Seq<FieldModel>,
    values: Seq<RawModel>,
    dry_run: bool,
)
    requires
        selector_of(ATTEST_SIG@).len() == 4,
    ensures
        match prepared(schema, chain, fields, values, dry_run) {
            Ok(p) => {
                &&& schema_data(fields, values) == Ok::<Seq<u8>, Seq<char>>(p.data)
                &&& p.schema_uid.len() == 32
                &&& p.eas.len() == 20
                &&& p.data.len() < 0x8000_0000_0000_0000 ==> attests_as_stated(
                    p,
                    schema,
                    chain,
                    dry_run,
                )
            },
            Err(_) => {
                ||| schema_data(fields, values) is Err
                ||| left_out(schema, "uid"@) && !dry_run
                ||| !left_out(schema, "uid"@) && spelled_word(schema, "uid"@) is None
                ||| !left_out(schema, "recipient"@) && spelled_address(schema, "recipient"@) is None
                ||| !left_out(schema, "ref_uid"@) && spelled_word(schema, "ref_uid"@) is None
                ||| spelled_address(chain, "eas"@) is None
            },
        },
{
    if let Ok(p) = prepared(schema, chain, fields, values, dry_run) {
        let recipient = crate::config::optional_address(schema, "recipient"@)->Ok_0;
        let ref_uid = crate::config::optional_word(schema, "ref_uid"@)->Ok_0;
        assert(states_address(schema, "recipient"@, recipient));
        assert(states_word(schema, "ref_uid"@, ref_uid));
        assert(states_word(schema, "uid"@, p.schema_uid));
        if p.data.len() < 0x8000_0000_0000_0000 {
            law_attest_calldata(
                p.schema_uid,
                recipient,
                stated_number(schema, "expiration"@, 0),
                stated_flag(schema, "revocable"@, true),
                ref_uid,
                p.data,
                0,
            );
        }
    }
}

// ---- the registration -----------------------------------------------------------------

/// What is registered is what the schema object states: its definition, the resolver, and whether
/// attestations can be revoked; and it goes to the chain's schema registry.
pub proof fn law_registration(cfg: JsonModel, chain: JsonModel)
    ensures
        match (member(cfg, "schema"@), registration_in(cfg, chain)) {
            (Some(schema), Ok(reg)) => {
                &&& member(schema, "definition"@) == Some(JsonModel::Str(reg.definition))
                &&& states_address(schema, "resolver"@, reg.resolver)
                &&& reg.revocable == stated_flag(schema, "revocable"@, true)
                &&& spelled_address(chain, "schema_registry"@) == Some(reg.registry)
            },
            (Some(schema), Err(_)) => {
                ||| !(member(schema, "definition"@) matches Some(JsonModel::Str(_)))
                ||| !left_out(schema, "resolver"@) && spelled_address(schema, "resolver"@) is None
                ||| spelled_address(chain, "schema_registry"@) is None
            },
            (None, r) => r is Err,
        },
{
}

/// Is `uid` the Keccak digest of the definition's UTF-8 bytes, the resolver, and one byte for whether
/// attestations can be revoked?
pub open spec fn is_schema_uid(
    uid: Seq<u8>,
    definition: Seq<char>,
    resolver: Seq<u8>,
    revocable: bool,
) -> bool {
    uid == keccak_digest(
        encode_utf8(definition) + resolver.push(
            if revocable {
                1
            } else {
                0
            },
        ),
    )
}

/// A registration that a job asks to be broadcast calls `register` with what the schema object states;
/// the transaction is for the job's own chain, goes to its schema registry and carries no value.
pub proof fn law_registration_sent(
    cfg: JsonModel,
    chain: JsonModel,
    env: Seq<(Seq<char>, Seq<char>)>,
    rpcs: Seq<Seq<char>>,
    s: Seq<ReplyModel>,
)
    requires
        selector_of(REGISTER_SIG@).len() == 4,
    ensures
        match register_run(cfg, chain, env, rpcs, s) {
            Run::Ask(q) => q.method == "eth_sendRawTransaction"@ ==> match registration_in(
                cfg,
                chain,
            ) {
                Ok(reg) => {
                    let data = register_data(reg.definition, reg.resolver, reg.revocable);
                    &&& carries(q, cfg, chain, env, rpcs, reg.registry, data, s)
                    &&& encode_utf8(reg.definition).len() < 0x8000_0000_0000_0000
                        ==> calls_register(data, reg.definition, reg.resolver, reg.revocable)
                },
                Err(_) => false,
            },
            _ => true,
        },
{
    law_broadcast_is_registration(cfg, chain, env, rpcs, s);
    law_registration(cfg, chain);
    if let Ok(reg) = registration_in(cfg, chain) {
        if encode_utf8(reg.definition).len() < 0x8000_0000_0000_0000 {
            law_register_calldata(reg.definition, reg.resolver, reg.revocable);
        }
    }
}

proof fn lemma_members()
    ensures
        "success"@.len() == 7,
        "mode"@.len() == 4,
        "registrant"@.len() == 10,
        "definition"@.len() == 10,
        "predicted_schema_uid"@.len() == 20,
        "tx_hash"@.len() == 7,
        "nonce"@.len() == 5,
        "block_number"@.len() == 12,
        "schema_uid"@.len() == 10,
        "attestation_data"@.len() == 16,
        "calldata"@.len() == 8,
        "collected"@.len() == 9,
        "eas"@.len() == 3,
        "attester"@.len() == 8,
        "attester_url"@.len() == 12,
        "error"@.len() == 5,
        "field"@.len() == 5,
        "type"@.len() == 4,
        "block"@.len() == 5,
        "chain_id"@.len() == 8,
        "success"@[0] == 's',
        "tx_hash"@[0] == 't',
        "registrant"@[0] == 'r',
        "definition"@[0] == 'd',
        "schema_uid"@[0] == 's',
        "block_number"@[0] == 'b',
        "attester_url"@[0] == 'a',
        "calldata"@[0] == 'c',
        "attester"@[0] == 'a',
        "nonce"@[0] == 'n',
        "error"@[0] == 'e',
        "field"@[0] == 'f',
        "block"@[0] == 'b',
{
    reveal_strlit("success");
    reveal_strlit("mode");
    reveal_strlit("registrant");
    reveal_strlit("definition");
    reveal_strlit("predicted_schema_uid");
    reveal_strlit("tx_hash");
    reveal_strlit("nonce");
    reveal_strlit("block_number");
    reveal_strlit("schema_uid");
    reveal_strlit("attestation_data");
    reveal_strlit("calldata");
    reveal_strlit("collected");
    reveal_strlit("eas");
    reveal_strlit("attester");
    reveal_strlit("attester_url");
    reveal_strlit("error");
    reveal_strlit("field");
    reveal_strlit("type");
    reveal_strlit("block");
    reveal_strlit("chain_id");
}

/// A registration that comes to its end reports success, who registered, the definition, the UID that
/// the schema gets, and the transaction.
pub proof fn law_registration_reported(
    cfg: JsonModel,
    chain: JsonModel,
    env: Seq<(Seq<char>, Seq<char>)>,
    rpcs: Seq<Seq<char>>,
    s: Seq<ReplyModel>,
)
    ensures
        match register_run(cfg, chain, env, rpcs, s) {
            Run::Done { value: Ok(v), .. } => match (registration_in(cfg, chain), key_in(cfg, env)) {
                (Ok(reg), Ok(key)) => {
                    let data = register_data(reg.definition, reg.resolver, reg.revocable);
                    let uid = schema_uid(reg.definition, reg.resolver, reg.revocable);
                    &&& member(v, "success"@) == Some(JsonModel::Bool(true))
                    &&& member(v, "mode"@) == Some(JsonModel::Str("register_schema"@))
                    &&& member(v, "registrant"@) == Some(JsonModel::Str(hex_0x(address_of(key))))
                    &&& member(v, "definition"@) == Some(JsonModel::Str(reg.definition))
                    &&& member(v, "predicted_schema_uid"@) == Some(JsonModel::Str(hex_0x(uid)))
                    &&& is_schema_uid(uid, reg.definition, reg.resolver, reg.revocable)
                    &&& forall|name: Seq<char>| (#[trigger] member(v, name)) is Some ==> name
                        == "success"@ || name == "mode"@ || name == "registrant"@ || name
                        == "definition"@ || name == "predicted_schema_uid"@ || name == "tx_hash"@
                        || name == "nonce"@
                    &&& match send_tx_run(cfg, chain, rpcs, key, reg.registry, data, s) {
                        Run::Done { value: Ok(sent), .. } => {
                            &&& member(v, "tx_hash"@) == Some(JsonModel::Str(sent.tx_hash))
                            &&& member(v, "nonce"@) == Some(JsonModel::Unsigned(sent.nonce as u64))
                        },
                        _ => false,
                    }
                },
                _ => false,
            },
            _ => true,
        },
{
    lemma_members();
    if let Ok(reg) = registration_in(cfg, chain) {
        let flag: u8 = if reg.revocable {
            1
        } else {
            0
        };
        assert(encode_utf8(reg.definition) + reg.resolver + seq![flag] =~= encode_utf8(
            reg.definition,
        ) + reg.resolver.push(flag));
    }
}

// ---- what is collected, and by how many -----------------------------------------------

/// How many RPCs the job wants to agree on an item: as many as the item says, or else as many as the
/// job says, or else two.
pub open spec fn wanted(cfg: JsonModel, item: JsonModel) -> nat {
    stated_number(item, "min_agree"@, stated_number(cfg, "min_agree"@, 2))
}

/// A job's plan is what the job states: the schema object, its fields, one collect item for each, in
/// order, and the defaults for the distance from the head and for the quorum.
pub proof fn law_planned(cfg: JsonModel)
    ensures
        match plan_in(cfg) {
            Ok(plan) => {
                &&& member(cfg, "schema"@) == Some(plan.schema)
                &&& member(cfg, "collect"@) == Some(JsonModel::Array(plan.items))
                &&& match member(plan.schema, "definition"@) {
                    Some(JsonModel::Str(d)) => schema_fields(d) == Ok::<
                        Seq<FieldModel>,
                        Seq<char>,
                    >(plan.fields),
                    _ => false,
                }
                &&& plan.items.len() == plan.fields.len()
                &&& plan.blocks_behind == stated_number(cfg, "blocks_behind"@, 4)
                &&& stated_number(cfg, "min_agree"@, 2) <= usize::MAX ==> plan.min_agree
                    == stated_number(cfg, "min_agree"@, 2)
                &&& stated_number(cfg, "min_agree"@, 2) > usize::MAX ==> plan.min_agree
                    == usize::MAX
            },
            Err(_) => {
                ||| member(cfg, "schema"@) is None
                ||| !(member(cfg, "collect"@) matches Some(JsonModel::Array(_)))
                ||| match member(member(cfg, "schema"@)->0, "definition"@) {
                    Some(JsonModel::Str(d)) => match schema_fields(d) {
                        Ok(fields) => match member(cfg, "collect"@) {
                            Some(JsonModel::Array(items)) => items.len() != fields.len(),
                            _ => true,
                        },
                        Err(_) => true,
                    },
                    _ => true,
                }
            },
        },
{
}

/// What a collect item may say for itself: its RPCs, its distance from the head and its quorum; what
/// it leaves out is as for the job.
pub proof fn law_item_settings(item: JsonModel, defaults: DefaultsModel)
    ensures
        member(item, "rpcs"@) is None ==> item_rpcs(item, defaults) == Ok::<
            Seq<Seq<char>>,
            Seq<char>,
        >(defaults.rpcs),
        member(item, "rpcs"@) is Some ==> match (
            texts_at(item, "rpcs"@),
            item_rpcs(item, defaults),
        ) {
            (Ok(urls), r) => r == all_resolved(urls, defaults.env),
            (Err(_), r) => r is Err,
        },
        item_behind(item, defaults) == stated_number(
            item,
            "blocks_behind"@,
            defaults.blocks_behind as nat,
        ),
        ({
            let n = stated_number(item, "min_agree"@, defaults.min_agree as nat);
            &&& n <= usize::MAX ==> item_agree(item, defaults) == n
            &&& n > usize::MAX ==> item_agree(item, defaults) == usize::MAX
        }),
{
}

/// The replies from the `at`th on, one for each of the RPCs, in which at least `n` of them gave the
/// text `text`.
pub open spec fn given_by(
    rpcs: Seq<Seq<char>>,
    replies: Seq<ReplyModel>,
    at: int,
    text: Seq<char>,
    n: nat,
) -> bool {
    &&& 0 <= at
    &&& at + rpcs.len() <= replies.len()
    &&& votes(answers_in(rpcs, replies.subrange(at, at + rpcs.len())), text) >= n
}

/// Was there an answer that at least `n` of the RPCs gave, and that gave this value?
pub open spec fn agreed_on(
    item: JsonModel,
    rpcs: Seq<Seq<char>>,
    replies: Seq<ReplyModel>,
    raw: RawModel,
    n: nat,
) -> bool {
    exists|at: int, text: Seq<char>, agreed: Seq<Seq<char>>|
        {
            &&& #[trigger] given_by(rpcs, replies, at, text, n)
            &&& match #[trigger] digested(source_in(item)->Ok_0, text, agreed) {
                Ok((found, _)) => found == raw,
                Err(_) => false,
            }
        }
}

/// Every collected value that takes a read was given by at least as many of the item's RPCs as the
/// job wants: the very number under `min_agree` in the item, or else in the job, or else two. (A
/// number that this machine cannot count to counts as the largest that it can.)
pub proof fn law_enough_agree(
    cfg: JsonModel,
    env: Seq<(Seq<char>, Seq<char>)>,
    rpcs: Seq<Seq<char>>,
    s: Seq<ReplyModel>,
    k: int,
)
    ensures
        match plan_in(cfg) {
            Ok(plan) => match gather_run(plan, env, rpcs, s) {
                Run::Done { value: Ok(g), .. } => 0 <= k < plan.items.len() ==> {
                    let item = plan.items[k];
                    let list = item_rpcs(item, plan_defaults(plan, env, rpcs));
                    &&& g.values.len() == plan.items.len()
                    &&& source_in(item) is Ok
                    &&& list is Ok
                    &&& takes_read(source_in(item)->Ok_0) && wanted(cfg, item) <= usize::MAX
                        ==> agreed_on(item, list->Ok_0, s, g.values[k], wanted(cfg, item))
                    &&& takes_read(source_in(item)->Ok_0) && wanted(cfg, item) > usize::MAX
                        ==> agreed_on(item, list->Ok_0, s, g.values[k], usize::MAX as nat)
                },
                _ => true,
            },
            Err(_) => true,
        },
{
    if let Ok(plan) = plan_in(cfg) {
        law_planned(cfg);
        law_gathered(plan, env, rpcs, s);
        if let Run::Done { value: Ok(g), .. } = gather_run(plan, env, rpcs, s) {
            if 0 <= k < plan.items.len() {
                let item = plan.items[k];
                let defaults = plan_defaults(plan, env, rpcs);
                let pins = gathered_pins(plan, env, rpcs, s);
                let list = item_rpcs(item, defaults)->Ok_0;
                law_item_settings(item, defaults);
                assert(soundly_collected(
                    plan.items[k],
                    plan.fields[k],
                    defaults,
                    g.values[k],
                    g.evidence[k],
                    s,
                    pins,
                ));
                let (block, at) = choose|block: nat, at: int| #[trigger]
                    soundly_read(
                        item,
                        plan.fields[k],
                        defaults,
                        g.values[k],
                        g.evidence[k],
                        s,
                        block,
                        at,
                    );
                if takes_read(source_in(item)->Ok_0) {
                    let src = source_in(item)->Ok_0;
                    let n = item_agree(item, defaults) as nat;
                    let replies = s.subrange(at, at + list.len());
                    assert(backed(src, list, n, g.values[k], replies));
                    let (text, agreed) = choose|text: Seq<char>, agreed: Seq<Seq<char>>|
                        votes(answers_in(list, replies), text) >= n
                            && match #[trigger] digested(src, text, agreed) {
                            Ok((found, _)) => found == g.values[k],
                            Err(_) => false,
                        };
                    assert(given_by(list, s, at, text, n));
                    assert(agreed_on(item, list, s, g.values[k], n));
                }
            }
        }
    }
}

/// The evidence for a field keeps what its source says, and adds the field's name and type, the block
/// that it was read at, and the chain that the item names.
pub proof fn law_evidence_placed(
    evidence: JsonModel,
    item: JsonModel,
    field: FieldModel,
    block: nat,
    key: Seq<char>,
)
    requires
        evidence is Object,
    ensures
        ({
            let placed = field_evidence(evidence, item, field, block);
            &&& member(placed, "field"@) == Some(JsonModel::Str(field.name))
            &&& member(placed, "type"@) == Some(JsonModel::Str(field.ty))
            &&& member(placed, "block"@) == Some(JsonModel::Unsigned(block as u64))
            &&& member(item, "chain_id"@) matches Some(JsonModel::Unsigned(id)) ==> member(
                placed,
                "chain_id"@,
            ) == Some(JsonModel::Unsigned(id))
            &&& key != "field"@ && key != "type"@ && key != "block"@ && key != "chain_id"@
                ==> member(placed, key) == member(evidence, key)
            &&& !(member(item, "chain_id"@) matches Some(JsonModel::Unsigned(_))) ==> member(
                placed,
                "chain_id"@,
            ) == member(evidence, "chain_id"@)
        }),
{
    lemma_members();
}

// ---- the transaction ------------------------------------------------------------------

/// The chain's id is the one that the job's chain gives, and nothing is asked then; else it is asked
/// for.
pub proof fn law_chain_id_stated(
    chain: JsonModel,
    rpcs: Seq<Seq<char>>,
    s: Seq<ReplyModel>,
)
    ensures
        match member(chain, "chain_id"@) {
            Some(JsonModel::Unsigned(id)) => job_chain_id_run(chain, rpcs, s) == Run::Done {
                value: Ok::<nat, Seq<char>>(id as nat),
                rest: s,
            },
            _ => job_chain_id_run(chain, rpcs, s) == chain_id_run(rpcs, s),
        },
{
}

/// A transaction is built for the job's own chain, with the sender's next nonce, with twice the base
/// fee and the priority fee as its fee cap, and with a quarter more gas than the call is estimated to
/// take; it carries the data to the receiver, and no value. The priority fee and the gas limit are
/// those that the job gives, where it gives them.
pub proof fn law_built(order: OrderModel, chain: JsonModel, s: Seq<ReplyModel>)
    ensures
        match build_run(order, chain, s) {
            Run::Done { value: Ok(tx), .. } => {
                &&& tx.to == order.to
                &&& tx.data == order.data
                &&& tx.value == 0
                &&& match job_chain_id_run(chain, order.rpcs, s) {
                    Run::Done { value: Ok(id), rest: s1 } => {
                        &&& tx.chain_id == id
                        &&& match nonce_run(order.rpcs, order.from, s1) {
                            Run::Done { value: Ok(nonce), rest: s2 } => {
                                &&& tx.nonce == nonce
                                &&& match fees_run(order.rpcs, s2) {
                                    Run::Done { value: Ok((base, tip)), rest: s3 } => {
                                        &&& tx.max_priority_fee == stated_number(
                                            order.cfg,
                                            "max_priority_fee_wei"@,
                                            tip,
                                        )
                                        &&& 2 * base + tx.max_priority_fee <= u128::MAX
                                            ==> tx.max_fee == 2 * base + tx.max_priority_fee
                                        &&& 2 * base + tx.max_priority_fee > u128::MAX
                                            ==> tx.max_fee == u128::MAX
                                        &&& gas_stated(order, tx.gas_limit, s3)
                                    },
                                    _ => false,
                                }
                            },
                            _ => false,
                        }
                    },
                    _ => false,
                }
            },
            _ => true,
        },
{
}

/// Is this the gas limit: the one that the job gives, or else the estimate for this very call and a
/// quarter of it?
pub open spec fn gas_stated(order: OrderModel, gas: nat, s: Seq<ReplyModel>) -> bool {
    match member(order.cfg, "gas_limit"@) {
        Some(JsonModel::Unsigned(g)) => gas == g,
        _ => match gas_run(order.rpcs, order.from, order.to, order.data, s) {
            Run::Done { value: Ok(estimate), .. } => {
                &&& estimate * 125 <= u64::MAX ==> gas == estimate + estimate / 4
                &&& estimate * 125 > u64::MAX ==> gas == u64::MAX as nat / 100
            },
            _ => false,
        },
    }
}

/// A transaction that has been sent was built, signed with the key and broadcast, and what is reported
/// of it is its nonce and the hash that the broadcast gave.
pub proof fn law_sent(
    cfg: JsonModel,
    chain: JsonModel,
    rpcs: Seq<Seq<char>>,
    key: Seq<u8>,
    to: Seq<u8>,
    data: Seq<u8>,
    s: Seq<ReplyModel>,
)
    ensures
        match send_tx_run(cfg, chain, rpcs, key, to, data, s) {
            Run::Done { value: Ok(sent), rest } => {
                let order = OrderModel { cfg, rpcs, from: address_of(key), to, data };
                match build_run(order, chain, s) {
                    Run::Done { value: Ok(tx), rest: later } => match signed_tx(tx, key) {
                        Ok(raw) => {
                            &&& sent.nonce == tx.nonce
                            &&& send_run(rpcs, raw, later) == Run::Done {
                                value: Ok::<Seq<char>, Seq<char>>(sent.tx_hash),
                                rest,
                            }
                        },
                        Err(_) => false,
                    },
                    _ => false,
                }
            },
            _ => true,
        },
{
}

/// An attestation that a job asks to be broadcast is the one that the job states: every value was
/// collected before, the calldata calls `attest` as the schema object says with the payload of those
/// values, and the transaction, for the job's own chain and signed with the job's key, carries it to
/// the chain's EAS contract.
pub proof fn law_attestation_sent(
    cfg: JsonModel,
    chain: JsonModel,
    env: Seq<(Seq<char>, Seq<char>)>,
    rpcs: Seq<Seq<char>>,
    dry_run: bool,
    s: Seq<ReplyModel>,
)
    requires
        selector_of(ATTEST_SIG@).len() == 4,
    ensures
        match attest_run(cfg, chain, env, rpcs, dry_run, s) {
            Run::Ask(q) => q.method == "eth_sendRawTransaction"@ ==> {
                &&& !dry_run
                &&& match plan_in(cfg) {
                    Ok(plan) => match gather_run(plan, env, rpcs, s) {
                        Run::Done { value: Ok(g), rest } => exists|p: PreparedModel|
                            {
                                &&& #[trigger] carries(
                                    q,
                                    cfg,
                                    chain,
                                    env,
                                    rpcs,
                                    p.eas,
                                    p.calldata,
                                    rest,
                                )
                                &&& schema_data(plan.fields, g.values) == Ok::<
                                    Seq<u8>,
                                    Seq<char>,
                                >(p.data)
                                &&& p.data.len() < 0x8000_0000_0000_0000 ==> attests_as_stated(
                                    p,
                                    plan.schema,
                                    chain,
                                    false,
                                )
                            },
                        _ => false,
                    },
                    Err(_) => false,
                }
            },
            _ => true,
        },
{
    law_broadcast_is_attestation(cfg, chain, env, rpcs, dry_run, s);
    if let Run::Ask(q) = attest_run(cfg, chain, env, rpcs, dry_run, s) {
        if q.method == "eth_sendRawTransaction"@ {
            let plan = plan_in(cfg)->Ok_0;
            if let Run::Done { value: Ok(g), rest } = gather_run(plan, env, rpcs, s) {
                law_prepared(plan.schema, chain, plan.fields, g.values, false);
                let p = prepared(plan.schema, chain, plan.fields, g.values, false)->Ok_0;
                assert(carries(q, cfg, chain, env, rpcs, p.eas, p.calldata, rest));
            }
        }
    }
}

// ---- what is reported -----------------------------------------------------------------

/// Does the outcome report this attestation: the mode, the block, the schema, the payload, the
/// calldata and the evidence for every value, in order? Beyond these there is nothing but the contract,
/// the attester and the transaction.
pub open spec fn reports(
    v: JsonModel,
    mode: Seq<char>,
    block: nat,
    p: PreparedModel,
    evidence: Seq<JsonModel>,
) -> bool {
    &&& member(v, "success"@) == Some(JsonModel::Bool(true))
    &&& member(v, "mode"@) == Some(JsonModel::Str(mode))
    &&& member(v, "block_number"@) == Some(JsonModel::Unsigned(block as u64))
    &&& member(v, "schema_uid"@) == Some(JsonModel::Str(hex_0x(p.schema_uid)))
    &&& member(v, "attestation_data"@) == Some(JsonModel::Str(hex_0x(p.data)))
    &&& member(v, "calldata"@) == Some(JsonModel::Str(hex_0x(p.calldata)))
    &&& member(v, "collected"@) == Some(JsonModel::Array(evidence))
    &&& forall|name: Seq<char>| (#[trigger] member(v, name)) is Some ==> name == "success"@ || name
        == "mode"@ || name == "block_number"@ || name == "schema_uid"@ || name
        == "attestation_data"@ || name == "calldata"@ || name == "collected"@ || name == "eas"@
        || name == "attester"@ || name == "tx_hash"@ || name == "nonce"@ || name == "attester_url"@
}

/// The outcome of a dry run is the report of the attestation, the EAS contract, and the attester where
/// there is a key; nothing has been sent.
pub proof fn law_preview(
    cfg: JsonModel,
    chain: JsonModel,
    env: Seq<(Seq<char>, Seq<char>)>,
    rpcs: Seq<Seq<char>>,
    plan: PlanModel,
    g: GatheredModel,
    s: Seq<ReplyModel>,
)
    ensures
        match (
            prepared(plan.schema, chain, plan.fields, g.values, true),
            conclude_run(cfg, chain, env, rpcs, true, plan, g, s),
        ) {
            (Ok(p), Run::Done { value: Ok(v), rest }) => {
                &&& rest == s
                &&& reports(v, "dry_run"@, g.block, p, g.evidence)
                &&& member(v, "eas"@) == Some(JsonModel::Str(hex_0x(p.eas)))
                &&& match key_in(cfg, env) {
                    Ok(key) => member(v, "attester"@) == Some(
                        JsonModel::Str(hex_0x(address_of(key))),
                    ),
                    Err(_) => member(v, "attester"@) is None,
                }
                &&& member(v, "tx_hash"@) is None
                &&& member(v, "nonce"@) is None
                &&& member(v, "attester_url"@) is None
            },
            (Ok(_), _) => false,
            (Err(e), r) => r == Run::Done { value: Err::<JsonModel, Seq<char>>(e), rest: s },
        },
{
    lemma_members();
}

/// The outcome of an attestation is the report of it, the attester, the transaction's hash and nonce,
/// and a link to the attester's page where the chain has an explorer. Without a key it is refused.
pub proof fn law_attested(
    cfg: JsonModel,
    chain: JsonModel,
    env: Seq<(Seq<char>, Seq<char>)>,
    rpcs: Seq<Seq<char>>,
    plan: PlanModel,
    g: GatheredModel,
    s: Seq<ReplyModel>,
)
    ensures
        match conclude_run(cfg, chain, env, rpcs, false, plan, g, s) {
            Run::Done { value: Ok(v), .. } => match (
                prepared(plan.schema, chain, plan.fields, g.values, false),
                key_in(cfg, env),
            ) {
                (Ok(p), Ok(key)) => {
                    &&& reports(v, "attest"@, g.block, p, g.evidence)
                    &&& member(v, "attester"@) == Some(JsonModel::Str(hex_0x(address_of(key))))
                    &&& match send_tx_run(cfg, chain, rpcs, key, p.eas, p.calldata, s) {
                        Run::Done { value: Ok(sent), rest } => {
                            &&& member(v, "tx_hash"@) == Some(JsonModel::Str(sent.tx_hash))
                            &&& member(v, "nonce"@) == Some(JsonModel::Unsigned(sent.nonce as u64))
                            &&& match job_chain_id_run(chain, rpcs, rest) {
                                Run::Done { value: Ok(id), .. } => member(v, "attester_url"@)
                                    == match explorer_url(id, address_of(key)) {
                                    Some(url) => Some(JsonModel::Str(url)),
                                    None => None,
                                },
                                _ => false,
                            }
                        },
                        _ => false,
                    }
                },
                _ => false,
            },
            Run::Done { value: Err(_), .. } => true,
            Run::Ask(_) => key_in(cfg, env) is Ok,
        },
{
    lemma_members();
}

/// What is printed for a job that cannot be done says so, and why.
pub proof fn law_failure(why: Seq<char>)
    ensures
        member(failure_of(why), "success"@) == Some(JsonModel::Bool(false)),
        member(failure_of(why), "error"@) == Some(JsonModel::Str(why)),
{
    lemma_members();
}

// ---- the whole job --------------------------------------------------------------------

/// A job does what its mode says: it registers the schema, attests, or shows the attestation; it
/// attests where no mode is given, and another mode is refused. It works on the chain in effect, with
/// the RPCs that the chain lists, of which there must be one.
pub proof fn law_mode(
    cfg: JsonModel,
    env: Seq<(Seq<char>, Seq<char>)>,
    s: Seq<ReplyModel>,
)
    ensures
        match member(cfg, "chain"@) {
            Some(given) => match chain_in_effect(given) {
                Ok(chain) => match job_rpcs(chain, env) {
                    Ok(rpcs) => {
                        let mode = stated(cfg, "mode"@, "attest"@);
                        &&& mode == "register_schema"@ ==> job_run(cfg, env, s) == register_run(
                            cfg,
                            chain,
                            env,
                            rpcs,
                            s,
                        )
                        &&& mode == "attest"@ ==> job_run(cfg, env, s) == attest_run(
                            cfg,
                            chain,
                            env,
                            rpcs,
                            false,
                            s,
                        )
                        &&& mode == "dry_run"@ ==> job_run(cfg, env, s) == attest_run(
                            cfg,
                            chain,
                            env,
                            rpcs,
                            true,
                            s,
                        )
                        &&& mode != "register_schema"@ && mode != "attest"@ && mode != "dry_run"@
                            ==> job_run(cfg, env, s) matches Run::Done { value: Err(_), .. }
                    },
                    Err(e) => fails(job_run(cfg, env, s), e, s),
                },
                Err(e) => fails(job_run(cfg, env, s), e, s),
            },
            None => job_run(cfg, env, s) matches Run::Done { value: Err(_), .. },
        },
{
    reveal_strlit("dry_run");
    reveal_strlit("attest");
    reveal_strlit("register_schema");
    assert("dry_run"@.len() == 7 && "attest"@.len() == 6 && "register_schema"@.len() == 15);
}

/// The RPCs of a job are the texts under `rpcs` in its chain, with their secrets; there must be one.
pub proof fn law_job_rpcs(chain: JsonModel, env: Seq<(Seq<char>, Seq<char>)>)
    ensures
        match texts_at(chain, "rpcs"@) {
            Ok(urls) => match (all_resolved(urls, env), job_rpcs(chain, env)) {
                (Ok(list), Ok(rpcs)) => rpcs == list && rpcs.len() > 0,
                (Ok(list), Err(_)) => list.len() == 0,
                (Err(e), r) => r == Err::<Seq<Seq<char>>, Seq<char>>(e),
            },
            Err(e) => job_rpcs(chain, env) == Err::<Seq<Seq<char>>, Seq<char>>(e),
        },
{
}

// ---- from start to end ----------------------------------------------------------------

/// An attestation plans, collects and concludes, in this order, and stops where one of them fails. A
/// preview differs from it only in the conclusion.
pub proof fn law_attest_course(
    cfg: JsonModel,
    chain: JsonModel,
    env: Seq<(Seq<char>, Seq<char>)>,
    rpcs: Seq<Seq<char>>,
    dry_run: bool,
    s: Seq<ReplyModel>,
)
    ensures
        match plan_in(cfg) {
            Ok(plan) => match gather_run(plan, env, rpcs, s) {
                Run::Ask(q) => attest_run(cfg, chain, env, rpcs, dry_run, s) == Run::<
                    JsonModel,
                >::Ask(q),
                Run::Done { value: Ok(g), rest } => attest_run(cfg, chain, env, rpcs, dry_run, s)
                    == conclude_run(cfg, chain, env, rpcs, dry_run, plan, g, rest),
                Run::Done { value: Err(e), rest } => attest_run(cfg, chain, env, rpcs, dry_run, s)
                    == Run::Done { value: Err::<JsonModel, Seq<char>>(e), rest },
            },
            Err(e) => fails(attest_run(cfg, chain, env, rpcs, dry_run, s), e, s),
        },
{
}

/// An attestation, once its values are collected, fails only if it cannot be prepared, there is no
/// key, or the transaction cannot be sent or its chain not be told; else it asks on or succeeds.
pub proof fn law_attest_fails(
    cfg: JsonModel,
    chain: JsonModel,
    env: Seq<(Seq<char>, Seq<char>)>,
    rpcs: Seq<Seq<char>>,
    plan: PlanModel,
    g: GatheredModel,
    s: Seq<ReplyModel>,
)
    ensures
        match conclude_run(cfg, chain, env, rpcs, false, plan, g, s) {
            Run::Done { value: Err(e), .. } => match prepared(
                plan.schema,
                chain,
                plan.fields,
                g.values,
                false,
            ) {
                Err(why) => e == why,
                Ok(p) => match key_in(cfg, env) {
                    Err(_) => e
                        == "attest mode needs a signing key (set key_env to a funded secret)"@,
                    Ok(key) => match send_tx_run(cfg, chain, rpcs, key, p.eas, p.calldata, s) {
                        Run::Ask(_) => false,
                        Run::Done { value: Err(why), .. } => e == why,
                        Run::Done { value: Ok(_), rest } => match job_chain_id_run(
                            chain,
                            rpcs,
                            rest,
                        ) {
                            Run::Done { value: Err(why), .. } => e == why,
                            _ => false,
                        },
                    },
                },
            },
            Run::Ask(q) => match prepared(plan.schema, chain, plan.fields, g.values, false) {
                Err(_) => false,
                Ok(p) => match key_in(cfg, env) {
                    Err(_) => false,
                    Ok(key) => match send_tx_run(cfg, chain, rpcs, key, p.eas, p.calldata, s) {
                        Run::Ask(asked) => q == asked,
                        Run::Done { value: Err(_), .. } => false,
                        Run::Done { value: Ok(_), rest } => match job_chain_id_run(
                            chain,
                            rpcs,
                            rest,
                        ) {
                            Run::Ask(asked) => q == asked,
                            _ => false,
                        },
                    },
                },
            },
            Run::Done { value: Ok(_), .. } => true,
        },
{
}

/// A registration fails only if the job does not state one, there is no key, or the transaction cannot
/// be sent; else it asks on or succeeds.
pub proof fn law_register_fails(
    cfg: JsonModel,
    chain: JsonModel,
    env: Seq<(Seq<char>, Seq<char>)>,
    rpcs: Seq<Seq<char>>,
    s: Seq<ReplyModel>,
)
    ensures
        match (registration_in(cfg, chain), key_in(cfg, env)) {
            (Err(e), _) => fails(register_run(cfg, chain, env, rpcs, s), e, s),
            (Ok(_), Err(e)) => fails(register_run(cfg, chain, env, rpcs, s), e, s),
            (Ok(reg), Ok(key)) => {
                let data = register_data(reg.definition, reg.resolver, reg.revocable);
                match (
                    send_tx_run(cfg, chain, rpcs, key, reg.registry, data, s),
                    register_run(cfg, chain, env, rpcs, s),
                ) {
                    (Run::Ask(a), Run::Ask(b)) => a == b,
                    (
                        Run::Done { value: Err(a), rest: x },
                        Run::Done { value: Err(b), rest: y },
                    ) => a == b && x == y,
                    (
                        Run::Done { value: Ok(_), rest: x },
                        Run::Done { value: Ok(_), rest: y },
                    ) => x == y,
                    _ => false,
                }
            },
        },
{
}

/// White space around the text of a job does not matter, and a text that is no JSON is refused.
pub proof fn law_input(
    a: Seq<char>,
    t: Seq<char>,
    b: Seq<char>,
    env: Seq<(Seq<char>, Seq<char>)>,
    s: Seq<ReplyModel>,
)
    requires
        all_white(a),
        all_white(b),
        t.len() == 0 || (!is_white(t[0]) && !is_white(t.last())),
    ensures
        match json_parsed(encode_utf8(t)) {
            Ok(cfg) => text_run(a + t + b, env, s) == job_run(cfg, env, s),
            Err(e) => fails(text_run(a + t + b, env, s), "input is not valid JSON: "@ + e, s),
        },
{
    law_trimmed(a, t, b);
}

/// Is there such a mode?
pub open spec fn known_mode(mode: Seq<char>) -> bool {
    mode == "register_schema"@ || mode == "attest"@ || mode == "dry_run"@
}

/// What is said of a job that is not understood.
pub proof fn law_not_understood(
    cfg: JsonModel,
    env: Seq<(Seq<char>, Seq<char>)>,
    s: Seq<ReplyModel>,
)
    ensures
        member(cfg, "chain"@) is None ==> fails(job_run(cfg, env, s), "missing \"chain\""@, s),
        match member(cfg, "chain"@) {
            Some(given) => match chain_in_effect(given) {
                Ok(chain) => job_rpcs(chain, env) is Ok && !known_mode(
                    stated(cfg, "mode"@, "attest"@),
                ) ==> fails(
                    job_run(cfg, env, s),
                    "unknown mode: "@ + stated(cfg, "mode"@, "attest"@),
                    s,
                ),
                Err(_) => true,
            },
            None => true,
        },
        member(cfg, "schema"@) is None ==> plan_in(cfg) == Err::<PlanModel, Seq<char>>(
            "missing \"schema\""@,
        ),
        match member(cfg, "schema"@) {
            Some(schema) => match member(schema, "definition"@) {
                Some(JsonModel::Str(d)) => match schema_fields(d) {
                    Ok(fields) => match member(cfg, "collect"@) {
                        Some(JsonModel::Array(items)) => items.len() != fields.len() ==> plan_in(
                            cfg,
                        ) == Err::<PlanModel, Seq<char>>(
                            "schema has "@ + decimal_text(fields.len())
                                + " fields but collect has "@ + decimal_text(items.len())
                                + " items — they map one-to-one, in order"@,
                        ),
                        _ => plan_in(cfg) == Err::<PlanModel, Seq<char>>(
                            "missing \"collect\" array"@,
                        ),
                    },
                    Err(e) => plan_in(cfg) == Err::<PlanModel, Seq<char>>(e),
                },
                _ => plan_in(cfg) == Err::<PlanModel, Seq<char>>(
                    "schema.definition is required (e.g. \"uint256 locked,uint256 minted\")"@,
                ),
            },
            None => true,
        },
{
    law_mode(cfg, env, s);
}

/// A collect item without RPCs is refused, and nothing is asked for it. Else the first question for it
/// is for the head of its own RPCs, unless their block is pinned already.
pub proof fn law_item_asked(
    item: JsonModel,
    field: FieldModel,
    defaults: DefaultsModel,
    pins: Seq<PinModel>,
    s: Seq<ReplyModel>,
)
    ensures
        match item_rpcs(item, defaults) {
            Ok(list) => {
                let behind = item_behind(item, defaults) as nat;
                &&& list.len() == 0 ==> fails(
                    item_run(item, field, defaults, pins, s),
                    "collect field "@ + quoted_text(field.name) + " has an empty rpcs list"@,
                    s,
                )
                &&& list.len() > 0 ==> match pinned(pins, list, behind) {
                    Some(block) => source_in(item) is Ok ==> match collect_run(
                        source_in(item)->Ok_0,
                        defaults.env,
                        list,
                        block,
                        item_agree(item, defaults) as nat,
                        s,
                    ) {
                        Run::Ask(q) => asks(item_run(item, field, defaults, pins, s), q),
                        Run::Done { value: Err(e), rest } => fails(item_run(item, field, defaults, pins, s), e, rest),
                        Run::Done { value: Ok((raw, _)), rest } => match item_run(
                            item,
                            field,
                            defaults,
                            pins,
                            s,
                        ) {
                            Run::Done { value: Ok((found, _, more)), rest: left } => found == raw
                                && more == pins && left == rest,
                            _ => false,
                        },
                    },
                    None => match block_run(list, behind, s) {
                        Run::Ask(q) => asks(item_run(item, field, defaults, pins, s), q),
                        Run::Done { value: Err(e), rest } => fails(item_run(item, field, defaults, pins, s), e, rest),
                        Run::Done { value: Ok(block), rest } => {
                            let pin = PinModel { rpcs: list, behind, block };
                            pinned(pins.push(pin), list, behind) == Some(block) ==> item_run(
                                item,
                                field,
                                defaults,
                                pins,
                                s,
                            ) == item_run(item, field, defaults, pins.push(pin), rest)
                        },
                    },
                }
            },
            Err(e) => fails(item_run(item, field, defaults, pins, s), e, s),
        },
{
}

/// What is said of an attestation that cannot be prepared: of several faults, the first in the order
/// payload, schema UID, recipient, reference, EAS contract.
pub proof fn law_prepared_refused(
    schema: JsonModel,
    chain: JsonModel,
    fields: Seq<FieldModel>,
    values: Seq<RawModel>,
    dry_run: bool,
)
    ensures
        match prepared(schema, chain, fields, values, dry_run) {
            Ok(_) => true,
            Err(e) => if schema_data(fields, values) is Err {
                e == schema_data(fields, values)->Err_0
            } else if left_out(schema, "uid"@) && !dry_run {
                e == "schema.uid is required for attest (register the schema first)"@
            } else if !left_out(schema, "uid"@) && spelled_word(schema, "uid"@) is None {
                hex_word(member(schema, "uid"@)->0->Str_0) == Err::<Seq<u8>, Seq<char>>(e)
            } else if !left_out(schema, "recipient"@) && spelled_address(
                schema,
                "recipient"@,
            ) is None {
                hex_address(member(schema, "recipient"@)->0->Str_0) == Err::<Seq<u8>, Seq<char>>(e)
            } else if !left_out(schema, "ref_uid"@) && spelled_word(schema, "ref_uid"@) is None {
                hex_word(member(schema, "ref_uid"@)->0->Str_0) == Err::<Seq<u8>, Seq<char>>(e)
            } else {
                contract_refused(chain, "eas"@, e)
            },
        },
{
}

/// Is this what is said of a chain whose contract under `key` is missing, or spells no address?
pub open spec fn contract_refused(chain: JsonModel, key: Seq<char>, e: Seq<char>) -> bool {
    match member(chain, key) {
        Some(JsonModel::Str(s)) => hex_address(s) == Err::<Seq<u8>, Seq<char>>(e),
        _ => e == "chain."@ + key + " address is required"@,
    }
}

/// What is said of a registration that the job does not state: of several faults, the first in the
/// order schema, definition, resolver, registry.
pub proof fn law_registration_refused(cfg: JsonModel, chain: JsonModel)
    ensures
        match (member(cfg, "schema"@), registration_in(cfg, chain)) {
            (_, Ok(_)) => true,
            (None, Err(e)) => e == "missing \"schema\""@,
            (Some(schema), Err(e)) => if !(member(schema, "definition"@) matches Some(
                JsonModel::Str(_),
            )) {
                e == "schema.definition is required"@
            } else if !left_out(schema, "resolver"@) && spelled_address(
                schema,
                "resolver"@,
            ) is None {
                hex_address(member(schema, "resolver"@)->0->Str_0) == Err::<Seq<u8>, Seq<char>>(e)
            } else {
                contract_refused(chain, "schema_registry"@, e)
            },
        },
{
}

/// What is said of a chain whose network is not known, whose RPCs are not listed, or that lists none.
pub proof fn law_chain_refused(chain: JsonModel, env: Seq<(Seq<char>, Seq<char>)>)
    ensures
        match chain_in_effect(chain) {
            Ok(_) => true,
            Err(e) => e == "unknown network "@ + quoted_text(stated(chain, "network"@, ""@))
                + "; known: base, base-sepolia, optimism, arbitrum, ethereum, sepolia"@,
        },
        !(member(chain, "rpcs"@) matches Some(JsonModel::Array(_))) ==> job_rpcs(chain, env)
            == Err::<Seq<Seq<char>>, Seq<char>>("rpcs must be an array"@),
        texts_at(chain, "rpcs"@) == Ok::<Seq<Seq<char>>, Seq<char>>(Seq::empty()) ==> job_rpcs(
            chain,
            env,
        ) == Err::<Seq<Seq<char>>, Seq<char>>(
            "chain.rpcs must list at least one RPC (several for a real quorum)"@,
        ),
{
    reveal_strlit("rpcs");
    reveal_strlit(" must be an array");
    reveal_strlit("rpcs must be an array");
    assert("rpcs"@ + " must be an array"@ =~= "rpcs must be an array"@);
}

/// What is printed at the end of a job is the JSON text of its outcome, or of its failure.
pub proof fn law_printed(v: JsonModel, why: Seq<char>)
    ensures
        closing_text(Ok(v)) == json_text(v),
        exists|m: JsonModel|
            {
                &&& closing_text(Err(why)) == #[trigger] json_text(m)
                &&& forall|key: Seq<char>| #[trigger]
                    member(m, key) == if key == "success"@ {
                        Some(JsonModel::Bool(false))
                    } else if key == "error"@ {
                        Some(JsonModel::Str(why))
                    } else {
                        None
                    }
            },
{
    lemma_members();
    let m = failure_of(why);
    assert(closing_text(Err(why)) == json_text(m));
}

/// A transaction is built step by step: the chain's id, the nonce, the fees, the gas limit. What a step
/// asks is asked, and where a step fails, so does the whole.
pub proof fn law_build_course(order: OrderModel, chain: JsonModel, s: Seq<ReplyModel>)
    ensures
        match job_chain_id_run(chain, order.rpcs, s) {
            Run::Ask(q) => asks(build_run(order, chain, s), q),
            Run::Done { value: Err(e), rest } => fails(build_run(order, chain, s), e, rest),
            Run::Done { value: Ok(_), rest: s1 } => match nonce_run(order.rpcs, order.from, s1) {
                Run::Ask(q) => asks(build_run(order, chain, s), q),
                Run::Done { value: Err(e), rest } => fails(build_run(order, chain, s), e, rest),
                Run::Done { value: Ok(_), rest: s2 } => match fees_run(order.rpcs, s2) {
                    Run::Ask(q) => asks(build_run(order, chain, s), q),
                    Run::Done { value: Err(e), rest } => fails(build_run(order, chain, s), e, rest),
                    Run::Done { value: Ok(_), rest: s3 } => match member(
                        order.cfg,
                        "gas_limit"@,
                    ) {
                        Some(JsonModel::Unsigned(_)) => succeeds(build_run(order, chain, s), s3),
                        _ => match gas_run(order.rpcs, order.from, order.to, order.data, s3) {
                            Run::Ask(q) => asks(build_run(order, chain, s), q),
                            Run::Done { value: Err(e), rest } => fails(
                                build_run(order, chain, s),
                                e,
                                rest,
                            ),
                            Run::Done { value: Ok(_), rest } => succeeds(
                                build_run(order, chain, s),
                                rest,
                            ),
                        },
                    },
                },
            },
        },
{
}

/// A transaction is sent step by step: built, signed, broadcast. What a step asks is asked, and where a
/// step fails, so does the whole.
pub proof fn law_send_course(
    cfg: JsonModel,
    chain: JsonModel,
    rpcs: Seq<Seq<char>>,
    key: Seq<u8>,
    to: Seq<u8>,
    data: Seq<u8>,
    s: Seq<ReplyModel>,
)
    ensures
        ({
            let run = send_tx_run(cfg, chain, rpcs, key, to, data, s);
            let order = OrderModel { cfg, rpcs, from: address_of(key), to, data };
            match build_run(order, chain, s) {
                Run::Ask(q) => asks(run, q),
                Run::Done { value: Err(e), rest } => fails(run, e, rest),
                Run::Done { value: Ok(tx), rest: later } => match signed_tx(tx, key) {
                    Err(e) => fails(run, e, later),
                    Ok(raw) => match send_run(rpcs, raw, later) {
                        Run::Ask(q) => asks(run, q),
                        Run::Done { value: Err(e), rest } => fails(run, e, rest),
                        Run::Done { value: Ok(_), rest } => succeeds(run, rest),
                    },
                },
            }
        }),
{
}

/// The values of a plan are collected one by one, in order, behind a first look at the head of the
/// job's own RPCs. What one of them asks is asked, and where one of them fails, so does the whole.
pub proof fn law_gather_course(
    plan: PlanModel,
    env: Seq<(Seq<char>, Seq<char>)>,
    rpcs: Seq<Seq<char>>,
    s: Seq<ReplyModel>,
)
    ensures
        ({
            let run = gather_run(plan, env, rpcs, s);
            let behind = plan.blocks_behind as nat;
            match block_run(rpcs, behind, s) {
                Run::Ask(q) => asks(run, q),
                Run::Done { value: Err(e), rest } => fails(run, e, rest),
                Run::Done { value: Ok(block), rest } => match collect_all_run(
                    plan.items,
                    plan.fields,
                    0,
                    plan_defaults(plan, env, rpcs),
                    seq![PinModel { rpcs, behind, block }],
                    Seq::empty(),
                    Seq::empty(),
                    rest,
                ) {
                    Run::Ask(q) => asks(run, q),
                    Run::Done { value: Err(e), rest } => fails(run, e, rest),
                    Run::Done { value: Ok((values, evidence)), rest } => match run {
                        Run::Done { value: Ok(g), rest: left } => {
                            &&& g.block == block
                            &&& g.values == values
                            &&& g.evidence == evidence
                            &&& left == rest
                        },
                        _ => false,
                    },
                },
            }
        }),
{
    let none = Seq::<PinModel>::empty();
    if let Run::Done { value: Ok(block), .. } = block_run(rpcs, plan.blocks_behind as nat, s) {
        let pin = PinModel { rpcs, behind: plan.blocks_behind as nat, block };
        assert(none.push(pin) =~= seq![pin]);
    }
}

/// What is pinned for an item stays pinned, whatever becomes of its read: the pins that were there are
/// kept, and the block that was found for its RPCs is added behind them.
pub proof fn law_pins_kept(
    item: JsonModel,
    field: FieldModel,
    defaults: DefaultsModel,
    pins: Seq<PinModel>,
    s: Seq<ReplyModel>,
)
    ensures
        ({
            let after = pins_after_item(item, defaults, pins, s);
            &&& pins.is_prefix_of(after)
            &&& match item_run(item, field, defaults, pins, s) {
                Run::Done { value: Ok((_, _, more)), .. } => more == after,
                _ => true,
            }
            &&& match item_rpcs(item, defaults) {
                Ok(list) => {
                    let behind = item_behind(item, defaults) as nat;
                    &&& list.len() == 0 || pinned(pins, list, behind) is Some ==> after == pins
                    &&& list.len() > 0 && pinned(pins, list, behind) is None ==> match block_run(
                        list,
                        behind,
                        s,
                    ) {
                        Run::Done { value: Ok(block), .. } => {
                            &&& after.len() == pins.len() + 1
                            &&& after.last().rpcs == list
                            &&& after.last().behind == behind
                            &&& after.last().block == block
                        },
                        _ => after == pins,
                    }
                },
                Err(_) => after == pins,
            }
        }),
{
}

/// Over a whole plan too, no pin is lost or changed, and the pins are those that the items read so far
/// have left.
pub proof fn law_all_pins_kept(
    items: Seq<JsonModel>,
    fields: Seq<FieldModel>,
    i: nat,
    defaults: DefaultsModel,
    pins: Seq<PinModel>,
    s: Seq<ReplyModel>,
)
    ensures
        ({
            let last = pins_after_all(items, fields, i, defaults, pins, s);
            &&& pins.is_prefix_of(last)
            &&& i >= items.len() ==> last == pins
            &&& i < items.len() ==> match item_run(
                items[i as int],
                fields[i as int],
                defaults,
                pins,
                s,
            ) {
                Run::Done { value: Ok((_, _, more)), rest } => last == pins_after_all(
                    items,
                    fields,
                    i + 1,
                    defaults,
                    more,
                    rest,
                ),
                _ => last == pins_after_item(items[i as int], defaults, pins, s),
            }
        }),
    decreases items.len() - i,
{
    if i < items.len() {
        law_pins_kept(items[i as int], fields[i as int], defaults, pins, s);
        if let Run::Done { value: Ok((_, _, more)), rest } = item_run(
            items[i as int],
            fields[i as int],
            defaults,
            pins,
            s,
        ) {
            law_all_pins_kept(items, fields, i + 1, defaults, more, rest);
        }
    }
}

/// Collecting goes on item by item: the `i`th item is read on the pins of those before it, and its
/// value and evidence stand behind theirs.
pub proof fn law_collect_course(
    items: Seq<JsonModel>,
    fields: Seq<FieldModel>,
    i: nat,
    defaults: DefaultsModel,
    pins: Seq<PinModel>,
    values: Seq<RawModel>,
    evidence: Seq<JsonModel>,
    s: Seq<ReplyModel>,
)
    requires
        i < items.len(),
    ensures
        ({
            let run = collect_all_run(items, fields, i, defaults, pins, values, evidence, s);
            match item_run(items[i as int], fields[i as int], defaults, pins, s) {
                Run::Ask(q) => asks(run, q),
                Run::Done { value: Err(e), rest } => fails(run, e, rest),
                Run::Done { value: Ok((raw, ev, more)), rest } => run == collect_all_run(
                    items,
                    fields,
                    i + 1,
                    defaults,
                    more,
                    values.push(raw),
                    evidence.push(ev),
                    rest,
                ),
            }
        }),
{
}

/// A block that has been pinned is found again by its list of RPCs and its distance, and only by them.
pub proof fn law_pinned(pins: Seq<PinModel>, rpcs: Seq<Seq<char>>, behind: nat)
    ensures
        match pinned(pins, rpcs, behind) {
            Some(block) => exists|i: int|
                {
                    &&& 0 <= i < pins.len()
                    &&& #[trigger] pins[i] == PinModel { rpcs, behind, block }
                    &&& forall|j: int|
                        0 <= j < i ==> (#[trigger] pins[j]).rpcs != rpcs || pins[j].behind != behind
                },
            None => forall|j: int|
                0 <= j < pins.len() ==> (#[trigger] pins[j]).rpcs != rpcs || pins[j].behind
                    != behind,
        },
    decreases pins.len(),
{
    if pins.len() > 0 {
        let rest = pins.skip(1);
        law_pinned(rest, rpcs, behind);
        if pins[0].rpcs == rpcs && pins[0].behind == behind {
            assert(pins[0] == PinModel { rpcs, behind, block: pins[0].block });
        } else {
            match pinned(rest, rpcs, behind) {
                Some(block) => {
                    let i = choose|i: int|
                        {
                            &&& 0 <= i < rest.len()
                            &&& #[trigger] rest[i] == PinModel { rpcs, behind, block }
                            &&& forall|j: int|
                                0 <= j < i ==> (#[trigger] rest[j]).rpcs != rpcs || rest[j].behind
                                    != behind
                        };
                    assert(pins[i + 1] == rest[i]);
                    assert forall|j: int| 0 <= j < i + 1 implies (#[trigger] pins[j]).rpcs != rpcs
                        || pins[j].behind != behind by {
                        if j > 0 {
                            assert(rest[j - 1] == pins[j]);
                        }
                    }
                },
                None => {
                    assert forall|j: int| 0 <= j < pins.len() implies (#[trigger] pins[j]).rpcs
                        != rpcs || pins[j].behind != behind by {
                        if j > 0 {
                            assert(rest[j - 1] == pins[j]);
                        }
                    }
                },
            }
        }
    }
}

/// A pin, an attestation, a registration, a sent transaction and a plan stand for what their own
/// fields hold.
pub proof fn law_job_views(
    pin: crate::job::Pin,
    p: crate::job::Prepared,
    reg: crate::job::Registration,
    sent: crate::job::Sent,
    plan: crate::job::Plan,
)
    ensures
        pin@.rpcs == texts(pin.rpcs@),
        pin@.behind == pin.behind,
        pin@.block == pin.block,
        p@.schema_uid == p.schema_uid@,
        p@.data == p.data@,
        p@.calldata == p.calldata@,
        p@.eas == p.eas@,
        reg@.definition == reg.definition@,
        reg@.resolver == reg.resolver@,
        reg@.revocable == reg.revocable,
        reg@.registry == reg.registry@,
        sent@.tx_hash == sent.tx_hash@,
        sent@.nonce == sent.nonce,
        plan@.schema == plan.schema@,
        plan@.items == json_models(plan.items@),
        plan@.fields == field_models(plan.fields@),
        plan@.blocks_behind == plan.blocks_behind,
        plan@.min_agree == plan.min_agree,
{
}

} // verus!
