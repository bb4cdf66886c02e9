//! A job reads its replies one after the other.
//!
//! A run that has come to its end is not changed by more replies, and a run that still asks has read
//! every reply there was. So a caller may run a job again and again on a growing tape: each request
//! that it is asked for is answered by the reply that it puts on the tape next.

use vstd::prelude::*;
use vstd::utf8::encode_utf8;

use crate::config::{chain_in_effect, key_in};
use crate::eas::{register_data, FieldModel, RawModel};
use crate::evm::{collect_run, question_of, source_in, SourceModel};
use crate::job::{
    attest_run, broadcast_run, build_fees_run, build_gas_run, build_nonce_run, build_run,
    collect_all_run, conclude_run, deliver_run, gas_limit_run, gather_run, item_agree, item_behind,
    item_read_run, item_rpcs, item_run, job_chain_id_run, job_rpcs, pin_run, pinned, plan_in,
    prepared, register_run, registration_in, report_of, send_tx_run, text_run, DefaultsModel,
    GatheredModel, OrderModel, PinModel, PlanModel, PreparedModel,
};
use crate::json::{json_parsed, member, JsonModel};
use crate::rpc::{
    fees_run, first_ok_run, latest_block, no_params, nonce_run, polled, quorum_run, read_in,
    reply_value, Reading,
};
use crate::sign::{address_of, signed_tx, TxModel};
use crate::tape::{ReplyModel, Run};
use crate::text::trimmed;

verus! {

/// How a run on the replies `s`, and the same run on the replies `s + x`, belong together. If the
/// first comes to its end, it leaves the last of its replies unread, and the second comes to the
/// same end and leaves what follows unread too. If the first still asks, the second can only come
/// to its end by reading at least the first reply of `x`.
pub open spec fn orderly<T>(
    before: Run<T>,
    after: Run<T>,
    s: Seq<ReplyModel>,
    x: Seq<ReplyModel>,
) -> bool {
    match before {
        Run::Done { value, rest } => {
            &&& rest.len() <= s.len()
            &&& rest == s.skip(s.len() - rest.len())
            &&& after == Run::<T>::Done { value, rest: rest + x }
        },
        Run::Ask(_) => match after {
            Run::Done { rest, .. } => rest.len() < x.len(),
            Run::Ask(_) => true,
        },
    }
}

proof fn lemma_orderly_rest<T>(
    before: Run<T>,
    after: Run<T>,
    s: Seq<ReplyModel>,
    rest: Seq<ReplyModel>,
    x: Seq<ReplyModel>,
)
    requires
        rest.len() <= s.len(),
        rest == s.skip(s.len() - rest.len()),
        orderly(before, after, rest, x),
    ensures
        orderly(before, after, s, x),
{
    if let Run::Done { value, rest: last } = before {
        assert(last =~= s.skip(s.len() - last.len()));
    }
}

// ---- requests -------------------------------------------------------------------------

proof fn lemma_polled(
    rpcs: Seq<Seq<char>>,
    method: Seq<char>,
    params: JsonModel,
    s: Seq<ReplyModel>,
    x: Seq<ReplyModel>,
)
    ensures
        orderly(polled(rpcs, method, params, s), polled(rpcs, method, params, s + x), s, x),
{
    let n = rpcs.len();
    if n <= s.len() {
        assert(Seq::new(n, |i: int| reply_value(rpcs[i], s[i])) =~= Seq::new(
            n,
            |i: int| reply_value(rpcs[i], (s + x)[i]),
        ));
        assert((s + x).skip(n as int) =~= s.skip(n as int) + x);
    }
}

proof fn lemma_first_ok(
    rpcs: Seq<Seq<char>>,
    method: Seq<char>,
    params: JsonModel,
    reading: Reading,
    errors: Seq<Seq<char>>,
    s: Seq<ReplyModel>,
    x: Seq<ReplyModel>,
)
    ensures
        orderly(
            first_ok_run(rpcs, method, params, reading, s, errors),
            first_ok_run(rpcs, method, params, reading, s + x, errors),
            s,
            x,
        ),
    decreases rpcs.len(),
{
    let before = first_ok_run(rpcs, method, params, reading, s, errors);
    let after = first_ok_run(rpcs, method, params, reading, s + x, errors);
    if rpcs.len() == 0 {
        assert(s.skip(0) =~= s);
    } else if s.len() == 0 {
        assert(s + x =~= x);
        if x.len() > 0 {
            let read = match reply_value(rpcs[0], x[0]) {
                Ok(v) => read_in(reading, rpcs[0], v),
                Err(e) => Err(e),
            };
            if let Err(e) = read {
                let none = Seq::<ReplyModel>::empty();
                lemma_first_ok(
                    rpcs.skip(1),
                    method,
                    params,
                    reading,
                    errors.push(e),
                    x.skip(1),
                    none,
                );
            }
        }
    } else {
        assert((s + x)[0] == s[0]);
        assert((s + x).skip(1) =~= s.skip(1) + x);
        let read = match reply_value(rpcs[0], s[0]) {
            Ok(v) => read_in(reading, rpcs[0], v),
            Err(e) => Err(e),
        };
        if let Err(e) = read {
            lemma_first_ok(rpcs.skip(1), method, params, reading, errors.push(e), s.skip(1), x);
            lemma_orderly_rest(before, after, s, s.skip(1), x);
        }
    }
}

proof fn lemma_quorum(
    rpcs: Seq<Seq<char>>,
    method: Seq<char>,
    head: JsonModel,
    block: nat,
    min_agree: nat,
    s: Seq<ReplyModel>,
    x: Seq<ReplyModel>,
)
    ensures
        orderly(
            quorum_run(rpcs, method, head, block, min_agree, s),
            quorum_run(rpcs, method, head, block, min_agree, s + x),
            s,
            x,
        ),
{
    lemma_polled(rpcs, method, crate::rpc::at_block(head, block), s, x);
}

proof fn lemma_fees(rpcs: Seq<Seq<char>>, s: Seq<ReplyModel>, x: Seq<ReplyModel>)
    ensures
        orderly(fees_run(rpcs, s), fees_run(rpcs, s + x), s, x),
{
    let none = Seq::<Seq<char>>::empty();
    let base = "eth_getBlockByNumber"@;
    let tip = "eth_maxPriorityFeePerGas"@;
    lemma_first_ok(rpcs, base, latest_block(), Reading::BaseFee, none, s, x);
    match first_ok_run(rpcs, base, latest_block(), Reading::BaseFee, s, none) {
        Run::Done { value: Ok(_), rest } => {
            lemma_first_ok(rpcs, tip, no_params(), Reading::Amount, none, rest, x);
            lemma_orderly_rest(
                first_ok_run(rpcs, tip, no_params(), Reading::Amount, rest, none),
                first_ok_run(rpcs, tip, no_params(), Reading::Amount, rest + x, none),
                s,
                rest,
                x,
            );
        },
        _ => {
            match first_ok_run(rpcs, base, latest_block(), Reading::BaseFee, s + x, none) {
                Run::Done { value: Ok(_), rest } => {
                    lemma_first_ok(
                        rpcs,
                        tip,
                        no_params(),
                        Reading::Amount,
                        none,
                        rest,
                        Seq::empty(),
                    );
                },
                _ => {},
            }
        },
    }
}

// ---- collecting -----------------------------------------------------------------------

proof fn lemma_collect(
    src: SourceModel,
    env: Seq<(Seq<char>, Seq<char>)>,
    rpcs: Seq<Seq<char>>,
    block: nat,
    min_agree: nat,
    s: Seq<ReplyModel>,
    x: Seq<ReplyModel>,
)
    ensures
        orderly(
            collect_run(src, env, rpcs, block, min_agree, s),
            collect_run(src, env, rpcs, block, min_agree, s + x),
            s,
            x,
        ),
{
    match question_of(src) {
        None => {
            assert(s.skip(0) =~= s);
        },
        Some((method, head)) => {
            lemma_quorum(rpcs, method, head, block, min_agree, s, x);
        },
    }
}

pub(crate) proof fn lemma_pin(
    pins: Seq<PinModel>,
    rpcs: Seq<Seq<char>>,
    behind: nat,
    s: Seq<ReplyModel>,
    x: Seq<ReplyModel>,
)
    ensures
        orderly(pin_run(pins, rpcs, behind, s), pin_run(pins, rpcs, behind, s + x), s, x),
{
    match pinned(pins, rpcs, behind) {
        Some(_) => {
            assert(s.skip(0) =~= s);
        },
        None => {
            lemma_polled(rpcs, "eth_blockNumber"@, no_params(), s, x);
        },
    }
}

proof fn lemma_item_read(
    item: JsonModel,
    field: FieldModel,
    defaults: DefaultsModel,
    rpcs: Seq<Seq<char>>,
    pins: Seq<PinModel>,
    s: Seq<ReplyModel>,
    x: Seq<ReplyModel>,
)
    ensures
        orderly(
            item_read_run(item, field, defaults, rpcs, pins, s),
            item_read_run(item, field, defaults, rpcs, pins, s + x),
            s,
            x,
        ),
{
    let behind = item_behind(item, defaults) as nat;
    let ma = item_agree(item, defaults) as nat;
    lemma_pin(pins, rpcs, behind, s, x);
    if let Ok(src) = source_in(item) {
        match pin_run(pins, rpcs, behind, s) {
            Run::Done { value: Ok((block, _)), rest } => {
                lemma_collect(src, defaults.env, rpcs, block, ma, rest, x);
                lemma_orderly_rest(
                    collect_run(src, defaults.env, rpcs, block, ma, rest),
                    collect_run(src, defaults.env, rpcs, block, ma, rest + x),
                    s,
                    rest,
                    x,
                );
            },
            _ => {
                match pin_run(pins, rpcs, behind, s + x) {
                    Run::Done { value: Ok((block, _)), rest } => {
                        lemma_collect(src, defaults.env, rpcs, block, ma, rest, Seq::empty());
                    },
                    _ => {},
                }
            },
        }
    }
}

pub(crate) proof fn lemma_item(
    item: JsonModel,
    field: FieldModel,
    defaults: DefaultsModel,
    pins: Seq<PinModel>,
    s: Seq<ReplyModel>,
    x: Seq<ReplyModel>,
)
    ensures
        orderly(
            item_run(item, field, defaults, pins, s),
            item_run(item, field, defaults, pins, s + x),
            s,
            x,
        ),
{
    assert(s.skip(0) =~= s);
    if let Ok(rpcs) = item_rpcs(item, defaults) {
        lemma_item_read(item, field, defaults, rpcs, pins, s, x);
    }
}

proof fn lemma_collect_all(
    items: Seq<JsonModel>,
    fields: Seq<FieldModel>,
    i: nat,
    defaults: DefaultsModel,
    pins: Seq<PinModel>,
    values: Seq<RawModel>,
    evidence: Seq<JsonModel>,
    s: Seq<ReplyModel>,
    x: Seq<ReplyModel>,
)
    ensures
        orderly(
            collect_all_run(items, fields, i, defaults, pins, values, evidence, s),
            collect_all_run(items, fields, i, defaults, pins, values, evidence, s + x),
            s,
            x,
        ),
    decreases items.len() - i,
{
    let before = collect_all_run(items, fields, i, defaults, pins, values, evidence, s);
    let after = collect_all_run(items, fields, i, defaults, pins, values, evidence, s + x);
    if i >= items.len() {
        assert(s.skip(0) =~= s);
    } else {
        let item = items[i as int];
        let field = fields[i as int];
        lemma_item(item, field, defaults, pins, s, x);
        match item_run(item, field, defaults, pins, s) {
            Run::Done { value: Ok((raw, ev, more)), rest } => {
                lemma_collect_all(
                    items,
                    fields,
                    i + 1,
                    defaults,
                    more,
                    values.push(raw),
                    evidence.push(ev),
                    rest,
                    x,
                );
                lemma_orderly_rest(before, after, s, rest, x);
            },
            _ => {
                match item_run(item, field, defaults, pins, s + x) {
                    Run::Done { value: Ok((raw, ev, more)), rest } => {
                        lemma_collect_all(
                            items,
                            fields,
                            i + 1,
                            defaults,
                            more,
                            values.push(raw),
                            evidence.push(ev),
                            rest,
                            Seq::empty(),
                        );
                    },
                    _ => {},
                }
            },
        }
    }
}

proof fn lemma_gather(
    plan: PlanModel,
    env: Seq<(Seq<char>, Seq<char>)>,
    rpcs: Seq<Seq<char>>,
    s: Seq<ReplyModel>,
    x: Seq<ReplyModel>,
)
    ensures
        orderly(gather_run(plan, env, rpcs, s), gather_run(plan, env, rpcs, s + x), s, x),
{
    let none = Seq::<PinModel>::empty();
    let values = Seq::<RawModel>::empty();
    let evidence = Seq::<JsonModel>::empty();
    let defaults = DefaultsModel {
        env,
        rpcs,
        blocks_behind: plan.blocks_behind,
        min_agree: plan.min_agree,
    };
    let behind = plan.blocks_behind as nat;
    lemma_pin(none, rpcs, behind, s, x);
    match pin_run(none, rpcs, behind, s) {
        Run::Done { value: Ok((_, pins)), rest } => {
            lemma_collect_all(
                plan.items,
                plan.fields,
                0,
                defaults,
                pins,
                values,
                evidence,
                rest,
                x,
            );
            lemma_orderly_rest(
                collect_all_run(plan.items, plan.fields, 0, defaults, pins, values, evidence, rest),
                collect_all_run(
                    plan.items,
                    plan.fields,
                    0,
                    defaults,
                    pins,
                    values,
                    evidence,
                    rest + x,
                ),
                s,
                rest,
                x,
            );
        },
        _ => {
            match pin_run(none, rpcs, behind, s + x) {
                Run::Done { value: Ok((_, pins)), rest } => {
                    lemma_collect_all(
                        plan.items,
                        plan.fields,
                        0,
                        defaults,
                        pins,
                        values,
                        evidence,
                        rest,
                        Seq::empty(),
                    );
                },
                _ => {},
            }
        },
    }
}

// ---- sending --------------------------------------------------------------------------

proof fn lemma_chain_id(
    chain: JsonModel,
    rpcs: Seq<Seq<char>>,
    s: Seq<ReplyModel>,
    x: Seq<ReplyModel>,
)
    ensures
        orderly(job_chain_id_run(chain, rpcs, s), job_chain_id_run(chain, rpcs, s + x), s, x),
{
    assert(s.skip(0) =~= s);
    lemma_first_ok(rpcs, "eth_chainId"@, no_params(), Reading::Quantity, Seq::empty(), s, x);
}

proof fn lemma_nonce(
    rpcs: Seq<Seq<char>>,
    from: Seq<u8>,
    s: Seq<ReplyModel>,
    x: Seq<ReplyModel>,
)
    ensures
        orderly(nonce_run(rpcs, from, s), nonce_run(rpcs, from, s + x), s, x),
{
    lemma_polled(
        rpcs,
        "eth_getTransactionCount"@,
        crate::json::text_array(seq![crate::abi::hex_0x(from), "pending"@]),
        s,
        x,
    );
}

proof fn lemma_gas_limit(
    cfg: JsonModel,
    rpcs: Seq<Seq<char>>,
    from: Seq<u8>,
    to: Seq<u8>,
    data: Seq<u8>,
    s: Seq<ReplyModel>,
    x: Seq<ReplyModel>,
)
    ensures
        orderly(
            gas_limit_run(cfg, rpcs, from, to, data, s),
            gas_limit_run(cfg, rpcs, from, to, data, s + x),
            s,
            x,
        ),
{
    assert(s.skip(0) =~= s);
    lemma_first_ok(
        rpcs,
        "eth_estimateGas"@,
        JsonModel::Array(seq![crate::rpc::call_object(from, to, data)]),
        Reading::Quantity,
        Seq::empty(),
        s,
        x,
    );
}

proof fn lemma_build_gas(
    order: OrderModel,
    id: nat,
    nonce: nat,
    base: nat,
    suggested: nat,
    s: Seq<ReplyModel>,
    x: Seq<ReplyModel>,
)
    ensures
        orderly(
            build_gas_run(order, id, nonce, base, suggested, s),
            build_gas_run(order, id, nonce, base, suggested, s + x),
            s,
            x,
        ),
{
    lemma_gas_limit(order.cfg, order.rpcs, order.from, order.to, order.data, s, x);
}

proof fn lemma_build_fees(
    order: OrderModel,
    id: nat,
    nonce: nat,
    s: Seq<ReplyModel>,
    x: Seq<ReplyModel>,
)
    ensures
        orderly(
            build_fees_run(order, id, nonce, s),
            build_fees_run(order, id, nonce, s + x),
            s,
            x,
        ),
{
    lemma_fees(order.rpcs, s, x);
    match fees_run(order.rpcs, s) {
        Run::Done { value: Ok((base, suggested)), rest } => {
            lemma_build_gas(order, id, nonce, base, suggested, rest, x);
            lemma_orderly_rest(
                build_gas_run(order, id, nonce, base, suggested, rest),
                build_gas_run(order, id, nonce, base, suggested, rest + x),
                s,
                rest,
                x,
            );
        },
        _ => {
            match fees_run(order.rpcs, s + x) {
                Run::Done { value: Ok((base, suggested)), rest } => {
                    lemma_build_gas(order, id, nonce, base, suggested, rest, Seq::empty());
                },
                _ => {},
            }
        },
    }
}

proof fn lemma_build_nonce(
    order: OrderModel,
    id: nat,
    s: Seq<ReplyModel>,
    x: Seq<ReplyModel>,
)
    ensures
        orderly(build_nonce_run(order, id, s), build_nonce_run(order, id, s + x), s, x),
{
    lemma_nonce(order.rpcs, order.from, s, x);
    match nonce_run(order.rpcs, order.from, s) {
        Run::Done { value: Ok(nonce), rest } => {
            lemma_build_fees(order, id, nonce, rest, x);
            lemma_orderly_rest(
                build_fees_run(order, id, nonce, rest),
                build_fees_run(order, id, nonce, rest + x),
                s,
                rest,
                x,
            );
        },
        _ => {
            match nonce_run(order.rpcs, order.from, s + x) {
                Run::Done { value: Ok(nonce), rest } => {
                    lemma_build_fees(order, id, nonce, rest, Seq::empty());
                },
                _ => {},
            }
        },
    }
}

proof fn lemma_build(
    order: OrderModel,
    chain: JsonModel,
    s: Seq<ReplyModel>,
    x: Seq<ReplyModel>,
)
    ensures
        orderly(build_run(order, chain, s), build_run(order, chain, s + x), s, x),
{
    lemma_chain_id(chain, order.rpcs, s, x);
    match job_chain_id_run(chain, order.rpcs, s) {
        Run::Done { value: Ok(id), rest } => {
            lemma_build_nonce(order, id, rest, x);
            lemma_orderly_rest(
                build_nonce_run(order, id, rest),
                build_nonce_run(order, id, rest + x),
                s,
                rest,
                x,
            );
        },
        _ => {
            match job_chain_id_run(chain, order.rpcs, s + x) {
                Run::Done { value: Ok(id), rest } => {
                    lemma_build_nonce(order, id, rest, Seq::empty());
                },
                _ => {},
            }
        },
    }
}

proof fn lemma_broadcast(
    rpcs: Seq<Seq<char>>,
    key: Seq<u8>,
    tx: TxModel,
    s: Seq<ReplyModel>,
    x: Seq<ReplyModel>,
)
    ensures
        orderly(broadcast_run(rpcs, key, tx, s), broadcast_run(rpcs, key, tx, s + x), s, x),
{
    assert(s.skip(0) =~= s);
    if let Ok(raw) = signed_tx(tx, key) {
        lemma_polled(
            rpcs,
            "eth_sendRawTransaction"@,
            crate::json::text_array(seq![crate::abi::hex_0x(raw)]),
            s,
            x,
        );
    }
}

proof fn lemma_send_tx(
    cfg: JsonModel,
    chain: JsonModel,
    rpcs: Seq<Seq<char>>,
    key: Seq<u8>,
    to: Seq<u8>,
    data: Seq<u8>,
    s: Seq<ReplyModel>,
    x: Seq<ReplyModel>,
)
    ensures
        orderly(
            send_tx_run(cfg, chain, rpcs, key, to, data, s),
            send_tx_run(cfg, chain, rpcs, key, to, data, s + x),
            s,
            x,
        ),
{
    let order = OrderModel { cfg, rpcs, from: address_of(key), to, data };
    lemma_build(order, chain, s, x);
    match build_run(order, chain, s) {
        Run::Done { value: Ok(tx), rest } => {
            lemma_broadcast(rpcs, key, tx, rest, x);
            lemma_orderly_rest(
                broadcast_run(rpcs, key, tx, rest),
                broadcast_run(rpcs, key, tx, rest + x),
                s,
                rest,
                x,
            );
        },
        _ => {
            match build_run(order, chain, s + x) {
                Run::Done { value: Ok(tx), rest } => {
                    lemma_broadcast(rpcs, key, tx, rest, Seq::empty());
                },
                _ => {},
            }
        },
    }
}

proof fn lemma_deliver(
    cfg: JsonModel,
    chain: JsonModel,
    rpcs: Seq<Seq<char>>,
    key: Seq<u8>,
    p: PreparedModel,
    report: JsonModel,
    s: Seq<ReplyModel>,
    x: Seq<ReplyModel>,
)
    ensures
        orderly(
            deliver_run(cfg, chain, rpcs, key, p, report, s),
            deliver_run(cfg, chain, rpcs, key, p, report, s + x),
            s,
            x,
        ),
{
    lemma_send_tx(cfg, chain, rpcs, key, p.eas, p.calldata, s, x);
    match send_tx_run(cfg, chain, rpcs, key, p.eas, p.calldata, s) {
        Run::Done { value: Ok(_), rest } => {
            lemma_chain_id(chain, rpcs, rest, x);
            lemma_orderly_rest(
                job_chain_id_run(chain, rpcs, rest),
                job_chain_id_run(chain, rpcs, rest + x),
                s,
                rest,
                x,
            );
        },
        _ => {
            match send_tx_run(cfg, chain, rpcs, key, p.eas, p.calldata, s + x) {
                Run::Done { value: Ok(_), rest } => {
                    lemma_chain_id(chain, rpcs, rest, Seq::empty());
                },
                _ => {},
            }
        },
    }
}

// ---- the whole job --------------------------------------------------------------------

proof fn lemma_conclude(
    cfg: JsonModel,
    chain: JsonModel,
    env: Seq<(Seq<char>, Seq<char>)>,
    rpcs: Seq<Seq<char>>,
    dry_run: bool,
    plan: PlanModel,
    g: GatheredModel,
    s: Seq<ReplyModel>,
    x: Seq<ReplyModel>,
)
    ensures
        orderly(
            conclude_run(cfg, chain, env, rpcs, dry_run, plan, g, s),
            conclude_run(cfg, chain, env, rpcs, dry_run, plan, g, s + x),
            s,
            x,
        ),
{
    assert(s.skip(0) =~= s);
    if let Ok(p) = prepared(plan.schema, chain, plan.fields, g.values, dry_run) {
        if let Ok(key) = key_in(cfg, env) {
            let report = report_of(dry_run, g.block, p, g.evidence);
            lemma_deliver(cfg, chain, rpcs, key, p, report, s, x);
        }
    }
}

proof fn lemma_attest(
    cfg: JsonModel,
    chain: JsonModel,
    env: Seq<(Seq<char>, Seq<char>)>,
    rpcs: Seq<Seq<char>>,
    dry_run: bool,
    s: Seq<ReplyModel>,
    x: Seq<ReplyModel>,
)
    ensures
        orderly(
            attest_run(cfg, chain, env, rpcs, dry_run, s),
            attest_run(cfg, chain, env, rpcs, dry_run, s + x),
            s,
            x,
        ),
{
    assert(s.skip(0) =~= s);
    if let Ok(plan) = plan_in(cfg) {
        lemma_gather(plan, env, rpcs, s, x);
        match gather_run(plan, env, rpcs, s) {
            Run::Done { value: Ok(g), rest } => {
                lemma_conclude(cfg, chain, env, rpcs, dry_run, plan, g, rest, x);
                lemma_orderly_rest(
                    conclude_run(cfg, chain, env, rpcs, dry_run, plan, g, rest),
                    conclude_run(cfg, chain, env, rpcs, dry_run, plan, g, rest + x),
                    s,
                    rest,
                    x,
                );
            },
            _ => {
                match gather_run(plan, env, rpcs, s + x) {
                    Run::Done { value: Ok(g), rest } => {
                        lemma_conclude(cfg, chain, env, rpcs, dry_run, plan, g, rest, Seq::empty());
                    },
                    _ => {},
                }
            },
        }
    }
}

proof fn lemma_register(
    cfg: JsonModel,
    chain: JsonModel,
    env: Seq<(Seq<char>, Seq<char>)>,
    rpcs: Seq<Seq<char>>,
    s: Seq<ReplyModel>,
    x: Seq<ReplyModel>,
)
    ensures
        orderly(
            register_run(cfg, chain, env, rpcs, s),
            register_run(cfg, chain, env, rpcs, s + x),
            s,
            x,
        ),
{
    assert(s.skip(0) =~= s);
    if let Ok(reg) = registration_in(cfg, chain) {
        if let Ok(key) = key_in(cfg, env) {
            let data = register_data(reg.definition, reg.resolver, reg.revocable);
            lemma_send_tx(cfg, chain, rpcs, key, reg.registry, data, s, x);
        }
    }
}

/// A job reads its replies in order, and no more of them than it asked for. What it does on some
/// replies is not changed by replies that come in later.
pub proof fn law_replies_in_order(
    input: Seq<char>,
    env: Seq<(Seq<char>, Seq<char>)>,
    s: Seq<ReplyModel>,
    x: Seq<ReplyModel>,
)
    ensures
        orderly(text_run(input, env, s), text_run(input, env, s + x), s, x),
{
    assert(s.skip(0) =~= s);
    if let Ok(cfg) = json_parsed(encode_utf8(trimmed(input))) {
        if let Some(given) = member(cfg, "chain"@) {
            if let Ok(chain) = chain_in_effect(given) {
                if let Ok(rpcs) = job_rpcs(chain, env) {
                    lemma_register(cfg, chain, env, rpcs, s, x);
                    lemma_attest(cfg, chain, env, rpcs, false, s, x);
                    lemma_attest(cfg, chain, env, rpcs, true, s, x);
                }
            }
        }
    }
}

} // verus!
