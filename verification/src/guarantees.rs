//! What can be relied on of every job, whatever the RPCs reply.

use vstd::prelude::*;

use crate::abi::hex_0x;
use crate::config::{chain_in_effect, key_in};
use crate::eas::{register_data, FieldModel, RawModel};
use crate::evm::{
    collect_run, digested, question_of, source_in, takes_read, text_or, with_text, SourceModel,
};
use crate::job::{
    attest_run, broadcast_run, build_run, collect_all_run, conclude_run, fee_cap, field_evidence,
    gather_run, item_agree, item_behind, item_rpcs, item_run, job_chain_id_run, job_rpcs, job_run,
    pin_run, pinned, pins_after_all, plan_in, prepared, preview_of, register_run, registration_in,
    report_of, send_tx_run, with_headroom, DefaultsModel, GatheredModel, OrderModel, PinModel,
    PlanModel,
};
use crate::json::{member, number_at, text_array, JsonModel};
use crate::order::{lemma_item, lemma_pin};
use crate::rpc::{
    agreement, at_block, block_run, fees_run, first_ok_run, highest_answer, is_quantity,
    latest_block, law_highest_is_maximal, law_quorum, lemma_quantity_bound, no_params, nonce_run,
    read_in, reply_value, votes, Reading,
};
use crate::sign::{address_of, signed_tx, TxModel};
use crate::tape::{ReplyModel, RequestModel, Run};

verus! {

// ---- pinned blocks --------------------------------------------------------------------

proof fn lemma_pinned_push(
    pins: Seq<PinModel>,
    pin: PinModel,
    rpcs: Seq<Seq<char>>,
    behind: nat,
)
    ensures
        pinned(pins, rpcs, behind) is Some ==> pinned(pins.push(pin), rpcs, behind) == pinned(
            pins,
            rpcs,
            behind,
        ),
        pinned(pins, rpcs, behind) is None && pin.rpcs == rpcs && pin.behind == behind ==> pinned(
            pins.push(pin),
            rpcs,
            behind,
        ) == Some(pin.block),
    decreases pins.len(),
{
    let more = pins.push(pin);
    if pins.len() == 0 {
        assert(more[0] == pin);
    } else {
        assert(more[0] == pins[0]);
        assert(more.skip(1) =~= pins.skip(1).push(pin));
        lemma_pinned_push(pins.skip(1), pin, rpcs, behind);
    }
}

/// A block that has been pinned for a list of RPCs and a distance from the head stays: the next read
/// with the same list and distance is pinned to the same block, without asking again. Pins for other
/// lists and distances stay too.
pub proof fn law_pin_stays(
    pins: Seq<PinModel>,
    rpcs: Seq<Seq<char>>,
    behind: nat,
    s: Seq<ReplyModel>,
    later: Seq<ReplyModel>,
)
    ensures
        match pin_run(pins, rpcs, behind, s) {
            Run::Done { value: Ok((block, more)), .. } => {
                &&& pinned(more, rpcs, behind) == Some(block)
                &&& pin_run(more, rpcs, behind, later) == Run::Done {
                    value: Ok::<(nat, Seq<PinModel>), Seq<char>>((block, more)),
                    rest: later,
                }
                &&& forall|r: Seq<Seq<char>>, b: nat|
                    pinned(pins, r, b) is Some ==> #[trigger] pinned(more, r, b) == pinned(
                        pins,
                        r,
                        b,
                    )
            },
            _ => true,
        },
{
    if let Run::Done { value: Ok((block, more)), rest } = pin_run(pins, rpcs, behind, s) {
        if pinned(pins, rpcs, behind) is None {
            let pin = PinModel { rpcs, behind, block };
            assert(more == pins.push(pin));
            lemma_pinned_push(pins, pin, rpcs, behind);
            assert forall|r: Seq<Seq<char>>, b: nat|
                pinned(pins, r, b) is Some implies #[trigger] pinned(more, r, b) == pinned(
                pins,
                r,
                b,
            ) by {
                lemma_pinned_push(pins, pin, r, b);
            }
        }
    }
}

// ---- collected values -----------------------------------------------------------------

/// What RPCs answered in the given replies, one reply each.
pub open spec fn answers_in(rpcs: Seq<Seq<char>>, replies: Seq<ReplyModel>) -> Seq<
    Result<JsonModel, Seq<char>>,
> {
    Seq::new(rpcs.len(), |i: int| reply_value(rpcs[i], replies[i]))
}

/// Was the value read from an answer that at least `min_agree` of the RPCs gave in these replies?
pub open spec fn backed(
    src: SourceModel,
    rpcs: Seq<Seq<char>>,
    min_agree: nat,
    raw: RawModel,
    replies: Seq<ReplyModel>,
) -> bool {
    exists|text: Seq<char>, agreed: Seq<Seq<char>>|
        votes(answers_in(rpcs, replies), text) >= min_agree && match #[trigger] digested(
            src,
            text,
            agreed,
        ) {
            Ok((found, _)) => found == raw,
            Err(_) => false,
        }
}

/// A collected value was read from an answer that at least `min_agree` RPCs gave.
pub proof fn law_collected_by_quorum(
    src: SourceModel,
    env: Seq<(Seq<char>, Seq<char>)>,
    rpcs: Seq<Seq<char>>,
    block: nat,
    min_agree: nat,
    s: Seq<ReplyModel>,
)
    requires
        takes_read(src),
    ensures
        match collect_run(src, env, rpcs, block, min_agree, s) {
            Run::Done { value: Ok((raw, evidence)), rest } => s.len() >= rpcs.len() && backed(
                src,
                rpcs,
                min_agree,
                raw,
                s.take(rpcs.len() as int),
            ),
            _ => true,
        },
{
    let (method, head) = question_of(src)->0;
    if let Run::Done { value: Ok((raw, evidence)), rest } = collect_run(
        src,
        env,
        rpcs,
        block,
        min_agree,
        s,
    ) {
        let answers = Seq::new(rpcs.len(), |i: int| reply_value(rpcs[i], s[i]));
        let (text, agreed) = agreement(rpcs, method, block, min_agree, answers)->Ok_0;
        law_quorum(rpcs, method, block, min_agree, answers);
        assert(answers_in(rpcs, s.take(rpcs.len() as int)) =~= answers);
        assert(digested(src, text, agreed) == Ok::<(RawModel, JsonModel), Seq<char>>(
            (raw, evidence),
        ));
    }
}

proof fn lemma_evidence_is_object(
    src: SourceModel,
    env: Seq<(Seq<char>, Seq<char>)>,
    rpcs: Seq<Seq<char>>,
    block: nat,
    min_agree: nat,
    s: Seq<ReplyModel>,
)
    ensures
        match collect_run(src, env, rpcs, block, min_agree, s) {
            Run::Done { value: Ok((raw, evidence)), rest } => evidence is Object,
            _ => true,
        },
{
}

proof fn lemma_block_member(evidence: JsonModel, item: JsonModel, field: FieldModel, block: nat)
    requires
        evidence is Object,
    ensures
        member(field_evidence(evidence, item, field, block), "block"@) == Some(
            JsonModel::Unsigned(block as u64),
        ),
{
    reveal_strlit("block");
    reveal_strlit("chain_id");
    assert("block"@.len() == 5 && "chain_id"@.len() == 8);
}

/// Is the item read where, and at the distance, that the defaults say?
pub open spec fn reads_by_default(item: JsonModel) -> bool {
    member(item, "rpcs"@) is None && number_at(item, "blocks_behind"@) is None
}

/// Did the replies from the `at`th on give this value for the item, read at the given block from the
/// item's RPCs, and this evidence?
pub open spec fn read_at(
    item: JsonModel,
    field: FieldModel,
    defaults: DefaultsModel,
    raw: RawModel,
    evidence: JsonModel,
    replies: Seq<ReplyModel>,
    block: nat,
    at: int,
) -> bool {
    0 <= at <= replies.len() && match (source_in(item), item_rpcs(item, defaults)) {
        (Ok(src), Ok(rpcs)) => match collect_run(
            src,
            defaults.env,
            rpcs,
            block,
            item_agree(item, defaults) as nat,
            replies.skip(at),
        ) {
            Run::Done { value: Ok((found, ev)), .. } => found == raw && evidence == field_evidence(
                ev,
                item,
                field,
                block,
            ),
            _ => false,
        },
        _ => false,
    }
}

/// Is this what is promised of a value that was read at the given block? The evidence names the
/// block; and where the source takes a read, the replies from the `at`th on, one for each of the
/// item's RPCs, hold the answer that was read, at least as often as the item's threshold asks for.
pub open spec fn soundly_read(
    item: JsonModel,
    field: FieldModel,
    defaults: DefaultsModel,
    raw: RawModel,
    evidence: JsonModel,
    replies: Seq<ReplyModel>,
    block: nat,
    at: int,
) -> bool {
    &&& read_at(item, field, defaults, raw, evidence, replies, block, at)
    &&& member(evidence, "block"@) == Some(JsonModel::Unsigned(block as u64))
    &&& takes_read(source_in(item)->Ok_0) ==> {
        let rpcs = item_rpcs(item, defaults)->Ok_0;
        at + rpcs.len() <= replies.len() && backed(
            source_in(item)->Ok_0,
            rpcs,
            item_agree(item, defaults) as nat,
            raw,
            replies.subrange(at, at + rpcs.len()),
        )
    }
}

/// Is `head` the highest block that any of the RPCs told of in these replies?
pub open spec fn is_head(rpcs: Seq<Seq<char>>, replies: Seq<ReplyModel>, head: nat) -> bool {
    &&& exists|i: int| #[trigger] is_quantity(answers_in(rpcs, replies), i, head)
    &&& forall|i: int, q: nat| #[trigger]
        is_quantity(answers_in(rpcs, replies), i, q) ==> q <= head
}

/// The block at a distance behind the head; there is none before the first.
pub open spec fn behind_head(head: nat, behind: nat) -> nat {
    if head >= behind {
        (head - behind) as nat
    } else {
        0
    }
}

/// Do the replies from the `at`th on, one for each of the RPCs, pin the block: is it, by the distance
/// `behind`, behind the highest head that the RPCs told of there?
pub open spec fn pins_block(
    rpcs: Seq<Seq<char>>,
    behind: nat,
    replies: Seq<ReplyModel>,
    block: nat,
    at: int,
) -> bool {
    &&& 0 <= at
    &&& at + rpcs.len() <= replies.len()
    &&& block_run(rpcs, behind, replies.skip(at)) == Run::Done {
        value: Ok::<nat, Seq<char>>(block),
        rest: replies.skip(at + rpcs.len()),
    }
    &&& block <= u64::MAX
    &&& exists|head: nat| #[trigger]
        is_head(rpcs, replies.subrange(at, at + rpcs.len()), head) && block == behind_head(
            head,
            behind,
        )
}

/// Did some round of replies pin the block for these RPCs at this distance from the head?
pub open spec fn at_head(
    rpcs: Seq<Seq<char>>,
    behind: nat,
    replies: Seq<ReplyModel>,
    block: nat,
) -> bool {
    exists|at: int| #[trigger] pins_block(rpcs, behind, replies, block, at)
}

/// Were all of the blocks pinned by the replies?
pub open spec fn all_at_head(pins: Seq<PinModel>, replies: Seq<ReplyModel>) -> bool {
    forall|i: int|
        0 <= i < pins.len() ==> at_head(
            #[trigger] pins[i].rpcs,
            pins[i].behind,
            replies,
            pins[i].block,
        )
}

/// Does what is pinned in `pins` stay pinned in `more`?
pub open spec fn keeps(pins: Seq<PinModel>, more: Seq<PinModel>) -> bool {
    forall|r: Seq<Seq<char>>, b: nat|
        pinned(pins, r, b) is Some ==> #[trigger] pinned(more, r, b) == pinned(pins, r, b)
}

proof fn lemma_block_at_head(
    rpcs: Seq<Seq<char>>,
    behind: nat,
    all: Seq<ReplyModel>,
    s: Seq<ReplyModel>,
)
    requires
        s.len() <= all.len(),
        s == all.skip(all.len() - s.len()),
    ensures
        match block_run(rpcs, behind, s) {
            Run::Done { value: Ok(block), .. } => at_head(rpcs, behind, all, block),
            _ => true,
        },
{
    if let Run::Done { value: Ok(block), rest } = block_run(rpcs, behind, s) {
        let at = all.len() - s.len();
        let n = rpcs.len() as int;
        let answers = Seq::new(rpcs.len(), |i: int| reply_value(rpcs[i], s[i]));
        assert(answers_in(rpcs, all.subrange(at, at + n)) =~= answers);
        let missing = "no RPC returned a block number: "@;
        law_highest_is_maximal(rpcs, answers, missing);
        let head = highest_answer(rpcs, answers, missing)->Ok_0;
        let i = choose|i: int| #[trigger] is_quantity(answers, i, head);
        lemma_quantity_bound(answers[i]->Ok_0);
        assert(is_head(rpcs, all.subrange(at, at + n), head));
        assert(rest =~= all.skip(at + n));
        assert(pins_block(rpcs, behind, all, block, at));
    }
}

proof fn lemma_pinned_at_head(
    pins: Seq<PinModel>,
    rpcs: Seq<Seq<char>>,
    behind: nat,
    all: Seq<ReplyModel>,
)
    requires
        all_at_head(pins, all),
    ensures
        match pinned(pins, rpcs, behind) {
            Some(block) => at_head(rpcs, behind, all, block),
            None => true,
        },
    decreases pins.len(),
{
    if pins.len() > 0 {
        assert(at_head(pins[0].rpcs, pins[0].behind, all, pins[0].block));
        assert forall|i: int| 0 <= i < pins.skip(1).len() implies at_head(
            #[trigger] pins.skip(1)[i].rpcs,
            pins.skip(1)[i].behind,
            all,
            pins.skip(1)[i].block,
        ) by {
            assert(pins.skip(1)[i] == pins[i + 1]);
            assert(at_head(pins[i + 1].rpcs, pins[i + 1].behind, all, pins[i + 1].block));
        }
        lemma_pinned_at_head(pins.skip(1), rpcs, behind, all);
    }
}

proof fn lemma_pin_at_head(
    pins: Seq<PinModel>,
    rpcs: Seq<Seq<char>>,
    behind: nat,
    all: Seq<ReplyModel>,
    s: Seq<ReplyModel>,
)
    requires
        all_at_head(pins, all),
        s.len() <= all.len(),
        s == all.skip(all.len() - s.len()),
    ensures
        match pin_run(pins, rpcs, behind, s) {
            Run::Done { value: Ok((block, more)), rest } => {
                &&& pinned(more, rpcs, behind) == Some(block)
                &&& at_head(rpcs, behind, all, block)
                &&& all_at_head(more, all)
                &&& keeps(pins, more)
                &&& rest.len() <= all.len()
                &&& rest == all.skip(all.len() - rest.len())
            },
            _ => true,
        },
{
    law_pin_stays(pins, rpcs, behind, s, s);
    lemma_pin(pins, rpcs, behind, s, Seq::empty());
    lemma_pinned_at_head(pins, rpcs, behind, all);
    lemma_block_at_head(rpcs, behind, all, s);
    if let Run::Done { value: Ok((block, more)), rest } = pin_run(pins, rpcs, behind, s) {
        assert(rest =~= all.skip(all.len() - rest.len()));
        assert forall|i: int| 0 <= i < more.len() implies at_head(
            #[trigger] more[i].rpcs,
            more[i].behind,
            all,
            more[i].block,
        ) by {
            if i < pins.len() {
                assert(more[i] == pins[i]);
                assert(at_head(pins[i].rpcs, pins[i].behind, all, pins[i].block));
            }
        }
    }
}

/// Is the value of an item soundly read, at the block that is pinned for the item's RPCs and its
/// distance from the head?
pub open spec fn soundly_collected(
    item: JsonModel,
    field: FieldModel,
    defaults: DefaultsModel,
    raw: RawModel,
    evidence: JsonModel,
    replies: Seq<ReplyModel>,
    pins: Seq<PinModel>,
) -> bool {
    exists|block: nat, at: int|
        {
            &&& #[trigger] soundly_read(
                item,
                field,
                defaults,
                raw,
                evidence,
                replies,
                block,
                at,
            )
            &&& pinned(
                pins,
                item_rpcs(item, defaults)->Ok_0,
                item_behind(item, defaults) as nat,
            ) == Some(block)
        }
}

proof fn lemma_item_sound(
    item: JsonModel,
    field: FieldModel,
    defaults: DefaultsModel,
    pins: Seq<PinModel>,
    all: Seq<ReplyModel>,
    s: Seq<ReplyModel>,
)
    requires
        all_at_head(pins, all),
        s.len() <= all.len(),
        s == all.skip(all.len() - s.len()),
    ensures
        match item_run(item, field, defaults, pins, s) {
            Run::Done { value: Ok((raw, evidence, more)), rest } => {
                &&& soundly_collected(item, field, defaults, raw, evidence, all, more)
                &&& all_at_head(more, all)
                &&& keeps(pins, more)
                &&& rest.len() <= all.len()
                &&& rest == all.skip(all.len() - rest.len())
            },
            _ => true,
        },
{
    if let Run::Done { value: Ok((raw, evidence, more)), rest } = item_run(
        item,
        field,
        defaults,
        pins,
        s,
    ) {
        lemma_item(item, field, defaults, pins, s, Seq::empty());
        assert(rest =~= all.skip(all.len() - rest.len()));
        let rpcs = item_rpcs(item, defaults)->Ok_0;
        let behind = item_behind(item, defaults) as nat;
        let ma = item_agree(item, defaults) as nat;
        lemma_pin_at_head(pins, rpcs, behind, all, s);
        if let Run::Done { value: Ok((block, _)), rest: t } = pin_run(pins, rpcs, behind, s) {
            let at = all.len() - t.len();
            let src = source_in(item)->Ok_0;
            lemma_evidence_is_object(src, defaults.env, rpcs, block, ma, t);
            let found = collect_run(src, defaults.env, rpcs, block, ma, t);
            if let Run::Done { value: Ok((_, ev)), .. } = found {
                lemma_block_member(ev, item, field, block);
            }
            if takes_read(src) {
                law_collected_by_quorum(src, defaults.env, rpcs, block, ma, t);
                assert(t.take(rpcs.len() as int) =~= all.subrange(at, at + rpcs.len()));
            }
            assert(soundly_read(item, field, defaults, raw, evidence, all, block, at));
        }
    }
}

proof fn lemma_sound_later(
    item: JsonModel,
    field: FieldModel,
    defaults: DefaultsModel,
    raw: RawModel,
    evidence: JsonModel,
    replies: Seq<ReplyModel>,
    pins: Seq<PinModel>,
    more: Seq<PinModel>,
)
    requires
        soundly_collected(item, field, defaults, raw, evidence, replies, pins),
        keeps(pins, more),
    ensures
        soundly_collected(item, field, defaults, raw, evidence, replies, more),
{
    let rpcs = item_rpcs(item, defaults)->Ok_0;
    let behind = item_behind(item, defaults) as nat;
    assert(pinned(more, rpcs, behind) == pinned(pins, rpcs, behind));
}

proof fn lemma_keeps_more(pins: Seq<PinModel>, more: Seq<PinModel>, last: Seq<PinModel>)
    requires
        keeps(pins, more),
        keeps(more, last),
    ensures
        keeps(pins, last),
{
    assert forall|r: Seq<Seq<char>>, b: nat| pinned(pins, r, b) is Some implies #[trigger] pinned(
        last,
        r,
        b,
    ) == pinned(pins, r, b) by {
        assert(pinned(more, r, b) == pinned(pins, r, b));
    }
}

/// Are the values, one for each of the first items, all soundly read?
pub open spec fn all_sound(
    items: Seq<JsonModel>,
    fields: Seq<FieldModel>,
    defaults: DefaultsModel,
    values: Seq<RawModel>,
    evidence: Seq<JsonModel>,
    replies: Seq<ReplyModel>,
    pins: Seq<PinModel>,
) -> bool {
    &&& evidence.len() == values.len()
    &&& forall|k: int|
        0 <= k < values.len() ==> soundly_collected(
            #[trigger] items[k],
            fields[k],
            defaults,
            values[k],
            evidence[k],
            replies,
            pins,
        )
}

proof fn lemma_one_more_sound(
    items: Seq<JsonModel>,
    fields: Seq<FieldModel>,
    defaults: DefaultsModel,
    values: Seq<RawModel>,
    evidence: Seq<JsonModel>,
    replies: Seq<ReplyModel>,
    pins: Seq<PinModel>,
    more: Seq<PinModel>,
    raw: RawModel,
    ev: JsonModel,
)
    requires
        all_sound(items, fields, defaults, values, evidence, replies, pins),
        keeps(pins, more),
        soundly_collected(
            items[values.len() as int],
            fields[values.len() as int],
            defaults,
            raw,
            ev,
            replies,
            more,
        ),
    ensures
        all_sound(items, fields, defaults, values.push(raw), evidence.push(ev), replies, more),
{
    let vs = values.push(raw);
    let evs = evidence.push(ev);
    assert forall|k: int| 0 <= k < vs.len() implies soundly_collected(
        #[trigger] items[k],
        fields[k],
        defaults,
        vs[k],
        evs[k],
        replies,
        more,
    ) by {
        if k < values.len() {
            assert(vs[k] == values[k] && evs[k] == evidence[k]);
            lemma_sound_later(
                items[k],
                fields[k],
                defaults,
                values[k],
                evidence[k],
                replies,
                pins,
                more,
            );
        }
    }
}

proof fn lemma_all_sound(
    items: Seq<JsonModel>,
    fields: Seq<FieldModel>,
    i: nat,
    defaults: DefaultsModel,
    pins: Seq<PinModel>,
    values: Seq<RawModel>,
    evidence: Seq<JsonModel>,
    all: Seq<ReplyModel>,
    s: Seq<ReplyModel>,
)
    requires
        i <= items.len(),
        values.len() == i,
        all_at_head(pins, all),
        s.len() <= all.len(),
        s == all.skip(all.len() - s.len()),
        all_sound(items, fields, defaults, values, evidence, all, pins),
    ensures
        match collect_all_run(items, fields, i, defaults, pins, values, evidence, s) {
            Run::Done { value: Ok((vs, evs)), rest } => {
                let last = pins_after_all(items, fields, i, defaults, pins, s);
                &&& vs.len() == items.len()
                &&& all_at_head(last, all)
                &&& keeps(pins, last)
                &&& all_sound(items, fields, defaults, vs, evs, all, last)
            },
            _ => true,
        },
    decreases items.len() - i,
{
    if i < items.len() {
        let item = items[i as int];
        let field = fields[i as int];
        lemma_item_sound(item, field, defaults, pins, all, s);
        if let Run::Done { value: Ok((raw, ev, more)), rest } = item_run(
            item,
            field,
            defaults,
            pins,
            s,
        ) {
            lemma_one_more_sound(
                items,
                fields,
                defaults,
                values,
                evidence,
                all,
                pins,
                more,
                raw,
                ev,
            );
            let vs = values.push(raw);
            let evs = evidence.push(ev);
            lemma_all_sound(items, fields, i + 1, defaults, more, vs, evs, all, rest);
            let last = pins_after_all(items, fields, i + 1, defaults, more, rest);
            assert(pins_after_all(items, fields, i, defaults, pins, s) == last);
            if keeps(more, last) {
                lemma_keeps_more(pins, more, last);
            }
        }
    }
}

/// What the collectors of a plan fall back to.
pub open spec fn plan_defaults(
    plan: PlanModel,
    env: Seq<(Seq<char>, Seq<char>)>,
    rpcs: Seq<Seq<char>>,
) -> DefaultsModel {
    DefaultsModel { env, rpcs, blocks_behind: plan.blocks_behind, min_agree: plan.min_agree }
}

/// The blocks that are pinned once the values of a plan have been collected.
pub open spec fn gathered_pins(
    plan: PlanModel,
    env: Seq<(Seq<char>, Seq<char>)>,
    rpcs: Seq<Seq<char>>,
    replies: Seq<ReplyModel>,
) -> Seq<PinModel> {
    match pin_run(Seq::empty(), rpcs, plan.blocks_behind as nat, replies) {
        Run::Done { value: Ok((_, pins)), rest } => pins_after_all(
            plan.items,
            plan.fields,
            0,
            plan_defaults(plan, env, rpcs),
            pins,
            rest,
        ),
        _ => Seq::empty(),
    }
}

/// Everything that goes into an attestation is soundly read: there is one value for each item, each
/// was read at the block that its evidence names, and each that takes a read was given by as many
/// of the item's RPCs as the item's threshold asks for. There is one block for each list of RPCs and
/// distance from the head, that distance behind the highest head the list told of, and it is the one
/// that every item with that list and distance was read at. The block that is reported is the one of
/// the items that are read by default.
pub proof fn law_gathered(
    plan: PlanModel,
    env: Seq<(Seq<char>, Seq<char>)>,
    rpcs: Seq<Seq<char>>,
    s: Seq<ReplyModel>,
)
    ensures
        match gather_run(plan, env, rpcs, s) {
            Run::Done { value: Ok(g), rest } => {
                let pins = gathered_pins(plan, env, rpcs, s);
                &&& g.values.len() == plan.items.len()
                &&& all_sound(
                    plan.items,
                    plan.fields,
                    plan_defaults(plan, env, rpcs),
                    g.values,
                    g.evidence,
                    s,
                    pins,
                )
                &&& all_at_head(pins, s)
                &&& pinned(pins, rpcs, plan.blocks_behind as nat) == Some(g.block)
                &&& forall|k: int|
                    0 <= k < plan.items.len() && reads_by_default(#[trigger] plan.items[k])
                        ==> member(g.evidence[k], "block"@) == Some(
                        JsonModel::Unsigned(g.block as u64),
                    )
            },
            _ => true,
        },
{
    let none = Seq::<PinModel>::empty();
    let defaults = plan_defaults(plan, env, rpcs);
    let behind = plan.blocks_behind as nat;
    assert(s =~= s.skip(0));
    lemma_pin_at_head(none, rpcs, behind, s, s);
    if let Run::Done { value: Ok((block, pins)), rest } = pin_run(none, rpcs, behind, s) {
        lemma_all_sound(
            plan.items,
            plan.fields,
            0,
            defaults,
            pins,
            Seq::empty(),
            Seq::empty(),
            s,
            rest,
        );
        if let Run::Done { value: Ok(g), .. } = gather_run(plan, env, rpcs, s) {
            let last = gathered_pins(plan, env, rpcs, s);
            assert(pinned(last, rpcs, behind) == pinned(pins, rpcs, behind));
            assert forall|k: int|
                0 <= k < plan.items.len() && reads_by_default(#[trigger] plan.items[k]) implies
                member(g.evidence[k], "block"@) == Some(JsonModel::Unsigned(g.block as u64)) by {
                let item = plan.items[k];
                assert(soundly_collected(
                    item,
                    plan.fields[k],
                    defaults,
                    g.values[k],
                    g.evidence[k],
                    s,
                    last,
                ));
                assert(item_rpcs(item, defaults)->Ok_0 == rpcs);
                assert(item_behind(item, defaults) as nat == behind);
            }
        }
    }
}

/// Collectors that read from the same list of RPCs at the same distance from the head are read at
/// the same block, and that is the highest head that the list told of, less the distance.
pub proof fn law_shared_block(
    plan: PlanModel,
    env: Seq<(Seq<char>, Seq<char>)>,
    rpcs: Seq<Seq<char>>,
    s: Seq<ReplyModel>,
    i: int,
    j: int,
)
    requires
        0 <= i < plan.items.len(),
        0 <= j < plan.items.len(),
        item_rpcs(plan.items[i], plan_defaults(plan, env, rpcs)) == item_rpcs(
            plan.items[j],
            plan_defaults(plan, env, rpcs),
        ),
        item_behind(plan.items[i], plan_defaults(plan, env, rpcs)) == item_behind(
            plan.items[j],
            plan_defaults(plan, env, rpcs),
        ),
    ensures
        match gather_run(plan, env, rpcs, s) {
            Run::Done { value: Ok(g), .. } => {
                let defaults = plan_defaults(plan, env, rpcs);
                let list = item_rpcs(plan.items[i], defaults)->Ok_0;
                let behind = item_behind(plan.items[i], defaults) as nat;
                exists|block: nat|
                    {
                        &&& #[trigger] at_head(list, behind, s, block)
                        &&& member(g.evidence[i], "block"@) == Some(
                            JsonModel::Unsigned(block as u64),
                        )
                        &&& member(g.evidence[j], "block"@) == Some(
                            JsonModel::Unsigned(block as u64),
                        )
                    }
            },
            _ => true,
        },
{
    law_gathered(plan, env, rpcs, s);
    if let Run::Done { value: Ok(g), .. } = gather_run(plan, env, rpcs, s) {
        let defaults = plan_defaults(plan, env, rpcs);
        let pins = gathered_pins(plan, env, rpcs, s);
        let list = item_rpcs(plan.items[i], defaults)->Ok_0;
        let behind = item_behind(plan.items[i], defaults) as nat;
        lemma_pinned_at_head(pins, list, behind, s);
        assert(soundly_collected(
            plan.items[i],
            plan.fields[i],
            defaults,
            g.values[i],
            g.evidence[i],
            s,
            pins,
        ));
        assert(soundly_collected(
            plan.items[j],
            plan.fields[j],
            defaults,
            g.values[j],
            g.evidence[j],
            s,
            pins,
        ));
        let block = pinned(pins, list, behind)->0;
        assert(at_head(list, behind, s, block));
    }
}

/// A read goes to one of the RPCs it is to be read from, and asks for the state at the block that it
/// is pinned to.
pub proof fn law_reads_are_pinned(
    src: SourceModel,
    env: Seq<(Seq<char>, Seq<char>)>,
    rpcs: Seq<Seq<char>>,
    block: nat,
    min_agree: nat,
    s: Seq<ReplyModel>,
)
    ensures
        match collect_run(src, env, rpcs, block, min_agree, s) {
            Run::Ask(q) => rpcs.contains(q.url) && match question_of(src) {
                Some((method, head)) => q.method == method && q.params == at_block(head, block),
                None => false,
            },
            _ => true,
        },
{
    if let Run::Ask(q) = collect_run(src, env, rpcs, block, min_agree, s) {
        assert(rpcs[s.len() as int] == q.url);
    }
}

// ---- broadcasts -----------------------------------------------------------------------

/// Does the run ask for a transaction to be sent?
pub open spec fn asks_to_send<T>(run: Run<T>) -> bool {
    match run {
        Run::Ask(q) => q.method == "eth_sendRawTransaction"@,
        Run::Done { .. } => false,
    }
}

proof fn lemma_other_methods()
    ensures
        "eth_blockNumber"@ != "eth_sendRawTransaction"@,
        "eth_call"@ != "eth_sendRawTransaction"@,
        "eth_getBalance"@ != "eth_sendRawTransaction"@,
        "eth_getCode"@ != "eth_sendRawTransaction"@,
        "eth_chainId"@ != "eth_sendRawTransaction"@,
        "eth_getTransactionCount"@ != "eth_sendRawTransaction"@,
        "eth_getBlockByNumber"@ != "eth_sendRawTransaction"@,
        "eth_maxPriorityFeePerGas"@ != "eth_sendRawTransaction"@,
        "eth_estimateGas"@ != "eth_sendRawTransaction"@,
{
    reveal_strlit("eth_sendRawTransaction");
    reveal_strlit("eth_blockNumber");
    reveal_strlit("eth_call");
    reveal_strlit("eth_getBalance");
    reveal_strlit("eth_getCode");
    reveal_strlit("eth_chainId");
    reveal_strlit("eth_getTransactionCount");
    reveal_strlit("eth_getBlockByNumber");
    reveal_strlit("eth_maxPriorityFeePerGas");
    reveal_strlit("eth_estimateGas");
    assert("eth_sendRawTransaction"@.len() == 22);
    assert("eth_blockNumber"@.len() == 15);
    assert("eth_call"@.len() == 8);
    assert("eth_getBalance"@.len() == 14);
    assert("eth_getCode"@.len() == 11);
    assert("eth_chainId"@.len() == 11);
    assert("eth_getTransactionCount"@.len() == 23);
    assert("eth_getBlockByNumber"@.len() == 20);
    assert("eth_maxPriorityFeePerGas"@.len() == 24);
    assert("eth_estimateGas"@.len() == 15);
}

proof fn lemma_first_ok_asks(
    rpcs: Seq<Seq<char>>,
    method: Seq<char>,
    params: JsonModel,
    reading: Reading,
    s: Seq<ReplyModel>,
    errors: Seq<Seq<char>>,
)
    ensures
        match first_ok_run(rpcs, method, params, reading, s, errors) {
            Run::Ask(q) => q.method == method,
            _ => true,
        },
    decreases rpcs.len(),
{
    if rpcs.len() > 0 && s.len() > 0 {
        let read = match reply_value(rpcs[0], s[0]) {
            Ok(v) => read_in(reading, rpcs[0], v),
            Err(e) => Err(e),
        };
        if let Err(e) = read {
            lemma_first_ok_asks(rpcs.skip(1), method, params, reading, s.skip(1), errors.push(e));
        }
    }
}

proof fn lemma_collecting_sends_nothing(
    items: Seq<JsonModel>,
    fields: Seq<FieldModel>,
    i: nat,
    defaults: DefaultsModel,
    pins: Seq<PinModel>,
    values: Seq<RawModel>,
    evidence: Seq<JsonModel>,
    s: Seq<ReplyModel>,
)
    ensures
        !asks_to_send(collect_all_run(items, fields, i, defaults, pins, values, evidence, s)),
    decreases items.len() - i,
{
    lemma_other_methods();
    if i < items.len() {
        let item = items[i as int];
        let field = fields[i as int];
        assert(!asks_to_send(item_run(item, field, defaults, pins, s)));
        if let Run::Done { value: Ok((raw, ev, more)), rest } = item_run(
            item,
            field,
            defaults,
            pins,
            s,
        ) {
            lemma_collecting_sends_nothing(
                items,
                fields,
                i + 1,
                defaults,
                more,
                values.push(raw),
                evidence.push(ev),
                rest,
            );
        }
    }
}

proof fn lemma_gathering_sends_nothing(
    plan: PlanModel,
    env: Seq<(Seq<char>, Seq<char>)>,
    rpcs: Seq<Seq<char>>,
    s: Seq<ReplyModel>,
)
    ensures
        !asks_to_send(gather_run(plan, env, rpcs, s)),
{
    lemma_other_methods();
    let none = Seq::<PinModel>::empty();
    if let Run::Done { value: Ok((block, pins)), rest } = pin_run(
        none,
        rpcs,
        plan.blocks_behind as nat,
        s,
    ) {
        lemma_collecting_sends_nothing(
            plan.items,
            plan.fields,
            0,
            plan_defaults(plan, env, rpcs),
            pins,
            Seq::empty(),
            Seq::empty(),
            rest,
        );
    }
}

proof fn lemma_chain_id_sends_nothing(
    chain: JsonModel,
    rpcs: Seq<Seq<char>>,
    s: Seq<ReplyModel>,
)
    ensures
        !asks_to_send(job_chain_id_run(chain, rpcs, s)),
{
    lemma_other_methods();
    lemma_first_ok_asks(
        rpcs,
        "eth_chainId"@,
        no_params(),
        Reading::Quantity,
        s,
        Seq::empty(),
    );
}

proof fn lemma_fees_send_nothing(rpcs: Seq<Seq<char>>, s: Seq<ReplyModel>)
    ensures
        !asks_to_send(fees_run(rpcs, s)),
{
    lemma_other_methods();
    let none = Seq::<Seq<char>>::empty();
    let base = "eth_getBlockByNumber"@;
    lemma_first_ok_asks(rpcs, base, latest_block(), Reading::BaseFee, s, none);
    if let Run::Done { rest, .. } = first_ok_run(
        rpcs,
        base,
        latest_block(),
        Reading::BaseFee,
        s,
        none,
    ) {
        lemma_first_ok_asks(
            rpcs,
            "eth_maxPriorityFeePerGas"@,
            no_params(),
            Reading::Amount,
            rest,
            none,
        );
    }
}

/// Is the transaction for the job's own chain: the one whose id the job gives, or else the RPCs tell?
pub open spec fn has_chain_id(
    tx: TxModel,
    chain: JsonModel,
    rpcs: Seq<Seq<char>>,
    replies: Seq<ReplyModel>,
) -> bool {
    match job_chain_id_run(chain, rpcs, replies) {
        Run::Done { value: Ok(id), .. } => tx.chain_id == id,
        _ => false,
    }
}

proof fn lemma_building_sends_nothing(order: OrderModel, chain: JsonModel, s: Seq<ReplyModel>)
    ensures
        !asks_to_send(build_run(order, chain, s)),
        match build_run(order, chain, s) {
            Run::Done { value: Ok(tx), .. } => {
                &&& tx.to == order.to && tx.data == order.data && tx.value == 0
                &&& has_chain_id(tx, chain, order.rpcs, s)
            },
            _ => true,
        },
{
    lemma_other_methods();
    lemma_chain_id_sends_nothing(chain, order.rpcs, s);
    if let Run::Done { value: Ok(id), rest } = job_chain_id_run(chain, order.rpcs, s) {
        if let Run::Done { value: Ok(nonce), rest } = nonce_run(order.rpcs, order.from, rest) {
            lemma_fees_send_nothing(order.rpcs, rest);
            if let Run::Done { value: Ok(f), rest } = fees_run(order.rpcs, rest) {
                lemma_first_ok_asks(
                    order.rpcs,
                    "eth_estimateGas"@,
                    JsonModel::Array(
                        seq![crate::rpc::call_object(order.from, order.to, order.data)],
                    ),
                    Reading::Quantity,
                    rest,
                    Seq::empty(),
                );
            }
        }
    }
}

/// A dry run broadcasts nothing.
pub proof fn law_dry_run_sends_nothing(
    cfg: JsonModel,
    env: Seq<(Seq<char>, Seq<char>)>,
    s: Seq<ReplyModel>,
)
    requires
        text_or(cfg, "mode"@, "attest"@) == "dry_run"@,
    ensures
        !asks_to_send(job_run(cfg, env, s)),
{
    reveal_strlit("dry_run");
    reveal_strlit("attest");
    reveal_strlit("register_schema");
    assert("dry_run"@.len() == 7 && "attest"@.len() == 6 && "register_schema"@.len() == 15);
    if let Some(given) = member(cfg, "chain"@) {
        if let Ok(chain) = chain_in_effect(given) {
            if let Ok(rpcs) = job_rpcs(chain, env) {
                if let Ok(plan) = plan_in(cfg) {
                    lemma_gathering_sends_nothing(plan, env, rpcs, s);
                }
            }
        }
    }
}

/// A dry run needs no key: once the values are collected and the attestation can be encoded, it
/// succeeds, whether or not there is one. Without a key only the attester is missing from what is
/// shown.
pub proof fn law_dry_run_needs_no_key(
    cfg: JsonModel,
    chain: JsonModel,
    env: Seq<(Seq<char>, Seq<char>)>,
    rpcs: Seq<Seq<char>>,
    plan: PlanModel,
    g: GatheredModel,
    s: Seq<ReplyModel>,
)
    requires
        prepared(plan.schema, chain, plan.fields, g.values, true) is Ok,
    ensures
        ({
            let p = prepared(plan.schema, chain, plan.fields, g.values, true)->Ok_0;
            let shown = preview_of(
                report_of(true, g.block, p, g.evidence),
                p.eas,
                Err(Seq::empty()),
            );
            conclude_run(cfg, chain, env, rpcs, true, plan, g, s) == Run::Done {
                value: Ok::<JsonModel, Seq<char>>(
                    match key_in(cfg, env) {
                        Ok(key) => with_text(shown, "attester"@, hex_0x(address_of(key))),
                        Err(_) => shown,
                    },
                ),
                rest: s,
            }
        }),
{
}

/// Is `q` the broadcast, to one of the RPCs, of the transaction that these replies have built, signed
/// with the key that the job names? It carries `data` to `to` and no value, on the job's own chain.
pub open spec fn carries(
    q: RequestModel,
    cfg: JsonModel,
    chain: JsonModel,
    env: Seq<(Seq<char>, Seq<char>)>,
    rpcs: Seq<Seq<char>>,
    to: Seq<u8>,
    data: Seq<u8>,
    replies: Seq<ReplyModel>,
) -> bool {
    &&& rpcs.contains(q.url)
    &&& match key_in(cfg, env) {
        Ok(key) => match build_run(
            (OrderModel { cfg, rpcs, from: address_of(key), to, data }),
            chain,
            replies,
        ) {
            Run::Done { value: Ok(tx), .. } => {
                &&& tx.to == to && tx.data == data && tx.value == 0
                &&& has_chain_id(tx, chain, rpcs, replies)
                &&& match signed_tx(tx, key) {
                    Ok(raw) => q.params == text_array(seq![hex_0x(raw)]),
                    Err(_) => false,
                }
            },
            _ => false,
        },
        Err(_) => false,
    }
}

proof fn lemma_sent_carries(
    cfg: JsonModel,
    chain: JsonModel,
    env: Seq<(Seq<char>, Seq<char>)>,
    rpcs: Seq<Seq<char>>,
    key: Seq<u8>,
    to: Seq<u8>,
    data: Seq<u8>,
    s: Seq<ReplyModel>,
)
    requires
        key_in(cfg, env) == Ok::<Seq<u8>, Seq<char>>(key),
    ensures
        match send_tx_run(cfg, chain, rpcs, key, to, data, s) {
            Run::Ask(q) => q.method == "eth_sendRawTransaction"@ ==> carries(
                q,
                cfg,
                chain,
                env,
                rpcs,
                to,
                data,
                s,
            ),
            _ => true,
        },
{
    let order = OrderModel { cfg, rpcs, from: address_of(key), to, data };
    lemma_building_sends_nothing(order, chain, s);
    if let Run::Done { value: Ok(tx), rest } = build_run(order, chain, s) {
        if let Ok(raw) = signed_tx(tx, key) {
            if let Run::Ask(q) = broadcast_run(rpcs, key, tx, rest) {
                assert(rpcs[rest.len() as int] == q.url);
                assert(rpcs.contains(q.url));
                assert(q.params == text_array(seq![hex_0x(raw)]));
            }
        }
    }
}

/// What an attestation job asks to be broadcast is the attestation: a transaction, signed with the
/// job's key for the job's own chain and sent to the RPCs of that chain, that carries the calldata of
/// `attest` for exactly the values that were collected to the EAS contract. It is asked only after every value
/// has been collected.
pub proof fn law_broadcast_is_attestation(
    cfg: JsonModel,
    chain: JsonModel,
    env: Seq<(Seq<char>, Seq<char>)>,
    rpcs: Seq<Seq<char>>,
    dry_run: bool,
    s: Seq<ReplyModel>,
)
    ensures
        match attest_run(cfg, chain, env, rpcs, dry_run, s) {
            Run::Ask(q) => q.method == "eth_sendRawTransaction"@ ==> {
                &&& !dry_run
                &&& plan_in(cfg) is Ok
                &&& match gather_run(plan_in(cfg)->Ok_0, env, rpcs, s) {
                    Run::Done { value: Ok(g), rest } => {
                        let plan = plan_in(cfg)->Ok_0;
                        match prepared(plan.schema, chain, plan.fields, g.values, false) {
                            Ok(p) => carries(
                                q,
                                cfg,
                                chain,
                                env,
                                rpcs,
                                p.eas,
                                p.calldata,
                                rest,
                            ),
                            Err(_) => false,
                        }
                    },
                    _ => false,
                }
            },
            _ => true,
        },
{
    if let Ok(plan) = plan_in(cfg) {
        lemma_gathering_sends_nothing(plan, env, rpcs, s);
        if let Run::Done { value: Ok(g), rest } = gather_run(plan, env, rpcs, s) {
            if let Ok(p) = prepared(plan.schema, chain, plan.fields, g.values, dry_run) {
                if let Ok(key) = key_in(cfg, env) {
                    lemma_sent_carries(cfg, chain, env, rpcs, key, p.eas, p.calldata, rest);
                    let sent = send_tx_run(cfg, chain, rpcs, key, p.eas, p.calldata, rest);
                    if let Run::Done { value: Ok(_), rest } = sent {
                        lemma_chain_id_sends_nothing(chain, rpcs, rest);
                    }
                }
            }
        }
    }
}

/// What a registration job asks to be broadcast is the registration: a transaction, signed with the
/// job's key for the job's own chain, that carries the calldata of `register` for the schema to the
/// registry.
pub proof fn law_broadcast_is_registration(
    cfg: JsonModel,
    chain: JsonModel,
    env: Seq<(Seq<char>, Seq<char>)>,
    rpcs: Seq<Seq<char>>,
    s: Seq<ReplyModel>,
)
    ensures
        match register_run(cfg, chain, env, rpcs, s) {
            Run::Ask(q) => q.method == "eth_sendRawTransaction"@ ==> match registration_in(
                cfg,
                chain,
            ) {
                Ok(reg) => carries(
                    q,
                    cfg,
                    chain,
                    env,
                    rpcs,
                    reg.registry,
                    register_data(reg.definition, reg.resolver, reg.revocable),
                    s,
                ),
                Err(_) => false,
            },
            _ => true,
        },
{
    if let Ok(reg) = registration_in(cfg, chain) {
        if let Ok(key) = key_in(cfg, env) {
            let data = register_data(reg.definition, reg.resolver, reg.revocable);
            lemma_sent_carries(cfg, chain, env, rpcs, key, reg.registry, data, s);
        }
    }
}

// ---- fees and gas ---------------------------------------------------------------------

/// The fee cap covers a base fee that has doubled, and the priority fee; it is exactly that unless
/// that is more than an amount can be.
pub proof fn law_fee_cap(base: nat, priority: nat)
    ensures
        2 * base + priority <= u128::MAX ==> fee_cap(base, priority) == 2 * base + priority,
        2 * base + priority > u128::MAX ==> fee_cap(base, priority) == u128::MAX,
{
}

/// The gas limit is the estimate and a quarter of it, where a `u64` can count 125 times the
/// estimate; for larger estimates it is a fixed bound.
pub proof fn law_headroom(estimate: nat)
    ensures
        estimate * 125 <= u64::MAX ==> with_headroom(estimate) == estimate + estimate / 4,
        estimate * 125 > u64::MAX ==> with_headroom(estimate) == u64::MAX as nat / 100,
{
}

} // verus!
