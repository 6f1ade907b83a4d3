//! The table of a batch of transactions such as the circuit expects
//! satisfies every gate of the circuit, and every row of it finds what it
//! looks up in the table itself and in the table of block aggregates.

use crate::expr::Expr;
use crate::plonk::gates_satisfied;
use crate::plonk::lookup_holds;
use crate::plonk::range_holds;
use crate::plonk::ranges_satisfied;
use crate::plonk::ConstraintSystem;
use crate::plonk::ConstraintSystemView;
use crate::tx_circuit::bounded::steps_are_small;
use crate::tx_circuit::TxCircuitConfigArgs;
use crate::plonk::polys_hold;
use crate::tx_circuit::aggregates::sorted_by_block;
use crate::tx_circuit::aggregates::whole;
use crate::tx_circuit::basic::admissible;
use crate::tx_circuit::basic::admissible_tx;
use crate::tx_circuit::circuit::is_padding;
use crate::tx_circuit::signing::recovery_value_fits;
use crate::tx_circuit::signing::sender;
use crate::witness::horner;
use crate::witness::is_dummy;
use crate::witness::TxType;
use crate::tx_circuit::batch::Batch;
use crate::tx_circuit::block_table::blocks_of;
use crate::tx_circuit::complete::field_has_inverses;
use crate::tx_circuit::complete::valid;
use crate::plonk::GateView;
use crate::tx_circuit::configure::with_gadget_gates;
use crate::tx_circuit::gadgetry::all_hold;
use crate::tx_circuit::gadgetry::lemma_one_more;
use crate::tx_circuit::gates::basic_constraints;
use crate::tx_circuit::gates::calldata_byte;
use crate::tx_circuit::gates::calldata_bytes;
use crate::tx_circuit::gates::calldata_init;
use crate::tx_circuit::gates::calldata_last;
use crate::tx_circuit::gates::calldata_lookup_condition;
use crate::tx_circuit::gates::caller_address;
use crate::tx_circuit::gates::copy_block_num;
use crate::tx_circuit::gates::copy_tx_nonce;
use crate::tx_circuit::gates::hash_tag_lookup_condition;
use crate::tx_circuit::gates::is_calldata;
use crate::tx_circuit::gates::is_caller_address;
use crate::tx_circuit::gates::is_chain_id;
use crate::tx_circuit::gates::is_l1_msg;
use crate::tx_circuit::gates::is_padding_tx;
use crate::tx_circuit::gates::is_tag_block_num;
use crate::tx_circuit::gates::keccak_lookup_condition;
use crate::tx_circuit::gates::l1_msg_gas_cost;
use crate::tx_circuit::gates::l1_msg_lookup_condition;
use crate::tx_circuit::gates::last_tx_id;
use crate::tx_circuit::gates::num_all_txs;
use crate::tx_circuit::gates::sign_tag_lookup_condition;
use crate::tx_circuit::gates::signature_v;
use crate::tx_circuit::gates::tx_id_bound;
use crate::tx_circuit::gates::tx_id_starts;
use crate::tx_circuit::gates::tx_id_transition;
use crate::tx_circuit::gates::with_tx_gates;
use crate::tx_circuit::lookups::calldata_final_present;
use crate::tx_circuit::lookups::calldata_gas_cost;
use crate::tx_circuit::lookups::calldata_rlc;
use crate::tx_circuit::lookups::cum_num_txs_in_block;
use crate::tx_circuit::lookups::num_all_txs_in_block;
use crate::tx_circuit::lookups::num_txs_in_block;
use crate::tx_circuit::queue::padded;
use crate::tx_circuit::signing::senders_known;
use crate::tx_circuit::signing::signatures_fit;
use crate::tx_circuit::synthesis::table;
use crate::tx_circuit::TxCircuitConfig;
use crate::witness::ChallengeExprs;
use vstd::prelude::*;

verus! {

/// What the circuit expects of a batch: the transactions are admissible and
/// signed as their types ask for, they have senders and come in the order of
/// their blocks, and the padding is empty, without a sender, and in the
/// block zero, in which no transaction is.
pub open spec fn expected(b: Batch) -> bool {
    &&& admissible(b)
    &&& padded(b)
    &&& senders_known(b)
    &&& signatures_fit(b)
    &&& sorted_by_block(b.txs)
}

/// The challenge for the fingerprints of byte strings is the one that the
/// batch was made with.
pub open spec fn challenged(ch: &ChallengeExprs, b: Batch, challenges: Seq<int>) -> bool {
    &&& ch.keccak_input == Expr::Challenge(1)
    &&& challenges.len() >= 2
    &&& challenges[1] == b.keccak_input
}

/// Every polynomial of every gate that `add_gates` adds evaluates to zero on
/// every row of the table of a batch such as the circuit expects.
pub proof fn theorem_tx_gates(
    gates: Seq<GateView>,
    c: &TxCircuitConfig,
    ch: &ChallengeExprs,
    b: Batch,
    max_txs: nat,
    max_calldata: nat,
    end: nat,
    challenges: Seq<int>,
)
    requires
        valid(c, b, max_txs, max_calldata),
        field_has_inverses(),
        expected(b),
        challenged(ch, b, challenges),
        all_hold(gates, table(c, b, max_txs, max_calldata, end), challenges),
    ensures
        all_hold(
            with_tx_gates(gates, c, ch),
            table(c, b, max_txs, max_calldata, end),
            challenges,
        ),
{
    let t = table(c, b, max_txs, max_calldata, end);
    let g0 = gates;
    assert forall|r: int| 0 <= r < t.len() implies #[trigger] polys_hold(
        tx_id_starts(c),
        t,
        challenges,
        r,
    ) by {
        crate::tx_circuit::complete::theorem_tx_id_starts(c, b, max_txs, max_calldata, end, challenges, r);
    }
    lemma_one_more(g0, "tx_id starts with 1", tx_id_starts(c), t, challenges);
    let g1 = g0.push(("tx_id starts with 1", tx_id_starts(c)));
    assert forall|r: int| 0 <= r < t.len() implies #[trigger] polys_hold(
        tx_id_transition(c),
        t,
        challenges,
        r,
    ) by {
        crate::tx_circuit::complete::theorem_tx_id_transition(c, b, max_txs, max_calldata, end, challenges, r);
    }
    lemma_one_more(g1, "tx_id transition in the fixed part of tx table", tx_id_transition(c), t, challenges);
    let g2 = g1.push(("tx_id transition in the fixed part of tx table", tx_id_transition(c)));
    assert forall|r: int| 0 <= r < t.len() implies #[trigger] polys_hold(
        basic_constraints(c),
        t,
        challenges,
        r,
    ) by {
        crate::tx_circuit::basic::theorem_basic_constraints(c, b, max_txs, max_calldata, end, challenges, r);
    }
    lemma_one_more(g2, "basic constraints", basic_constraints(c), t, challenges);
    let g3 = g2.push(("basic constraints", basic_constraints(c)));
    assert forall|r: int| 0 <= r < t.len() implies #[trigger] polys_hold(
        is_calldata(c),
        t,
        challenges,
        r,
    ) by {
        crate::tx_circuit::stored::theorem_is_calldata(c, b, max_txs, max_calldata, end, challenges, r);
    }
    lemma_one_more(g3, "is_calldata", is_calldata(c), t, challenges);
    let g4 = g3.push(("is_calldata", is_calldata(c)));
    assert forall|r: int| 0 <= r < t.len() implies #[trigger] polys_hold(
        is_caller_address(c),
        t,
        challenges,
        r,
    ) by {
        crate::tx_circuit::stored::theorem_is_caller_address(c, b, max_txs, max_calldata, end, challenges, r);
    }
    lemma_one_more(g4, "is_caller_address", is_caller_address(c), t, challenges);
    let g5 = g4.push(("is_caller_address", is_caller_address(c)));
    assert forall|r: int| 0 <= r < t.len() implies #[trigger] polys_hold(
        is_chain_id(c),
        t,
        challenges,
        r,
    ) by {
        crate::tx_circuit::stored::theorem_is_chain_id(c, b, max_txs, max_calldata, end, challenges, r);
    }
    lemma_one_more(g5, "is_chain_id", is_chain_id(c), t, challenges);
    let g6 = g5.push(("is_chain_id", is_chain_id(c)));
    assert forall|r: int| 0 <= r < t.len() implies #[trigger] polys_hold(
        is_tag_block_num(c),
        t,
        challenges,
        r,
    ) by {
        crate::tx_circuit::stored::theorem_is_tag_block_num(c, b, max_txs, max_calldata, end, challenges, r);
    }
    lemma_one_more(g6, "is_tag_block_num", is_tag_block_num(c), t, challenges);
    let g7 = g6.push(("is_tag_block_num", is_tag_block_num(c)));
    assert forall|r: int| 0 <= r < t.len() implies #[trigger] polys_hold(
        is_l1_msg(c),
        t,
        challenges,
        r,
    ) by {
        crate::tx_circuit::stored::theorem_is_l1_msg(c, b, max_txs, max_calldata, end, challenges, r);
    }
    lemma_one_more(g7, "is_l1_msg", is_l1_msg(c), t, challenges);
    let g8 = g7.push(("is_l1_msg", is_l1_msg(c)));
    assert forall|r: int| 0 <= r < t.len() implies #[trigger] polys_hold(
        calldata_lookup_condition(c),
        t,
        challenges,
        r,
    ) by {
        crate::tx_circuit::stored::theorem_calldata_lookup_condition(c, b, max_txs, max_calldata, end, challenges, r);
    }
    lemma_one_more(g8, "calldata lookup into tx table condition", calldata_lookup_condition(c), t, challenges);
    let g9 = g8.push(("calldata lookup into tx table condition", calldata_lookup_condition(c)));
    assert forall|r: int| 0 <= r < t.len() implies #[trigger] polys_hold(
        sign_tag_lookup_condition(c),
        t,
        challenges,
        r,
    ) by {
        crate::tx_circuit::stored::theorem_sign_tag_lookup_condition(c, b, max_txs, max_calldata, end, challenges, r);
    }
    lemma_one_more(g9, "sign tag lookup into RLP table condition", sign_tag_lookup_condition(c), t, challenges);
    let g10 = g9.push(("sign tag lookup into RLP table condition", sign_tag_lookup_condition(c)));
    assert forall|r: int| 0 <= r < t.len() implies #[trigger] polys_hold(
        hash_tag_lookup_condition(c),
        t,
        challenges,
        r,
    ) by {
        crate::tx_circuit::stored::theorem_hash_tag_lookup_condition(c, b, max_txs, max_calldata, end, challenges, r);
    }
    lemma_one_more(g10, "hash tag lookup into RLP table condition", hash_tag_lookup_condition(c), t, challenges);
    let g11 = g10.push(("hash tag lookup into RLP table condition", hash_tag_lookup_condition(c)));
    assert forall|r: int| 0 <= r < t.len() implies #[trigger] polys_hold(
        l1_msg_lookup_condition(c),
        t,
        challenges,
        r,
    ) by {
        crate::tx_circuit::stored::theorem_l1_msg_lookup_condition(c, b, max_txs, max_calldata, end, challenges, r);
    }
    lemma_one_more(g11, "l1 msg lookup into RLP table condition", l1_msg_lookup_condition(c), t, challenges);
    let g12 = g11.push(("l1 msg lookup into RLP table condition", l1_msg_lookup_condition(c)));
    assert forall|r: int| 0 <= r < t.len() implies #[trigger] polys_hold(
        keccak_lookup_condition(c),
        t,
        challenges,
        r,
    ) by {
        crate::tx_circuit::stored::theorem_keccak_lookup_condition(c, b, max_txs, max_calldata, end, challenges, r);
    }
    lemma_one_more(g12, "lookup into Keccak table condition", keccak_lookup_condition(c), t, challenges);
    let g13 = g12.push(("lookup into Keccak table condition", keccak_lookup_condition(c)));
    assert forall|r: int| 0 <= r < t.len() implies #[trigger] polys_hold(
        l1_msg_gas_cost(c),
        t,
        challenges,
        r,
    ) by {
        crate::tx_circuit::stored::theorem_l1_msg_gas_cost(c, b, max_txs, max_calldata, end, challenges, r);
    }
    lemma_one_more(g13, "tx_gas_cost == 0 for L1 msg", l1_msg_gas_cost(c), t, challenges);
    let g14 = g13.push(("tx_gas_cost == 0 for L1 msg", l1_msg_gas_cost(c)));
    assert forall|r: int| 0 <= r < t.len() implies #[trigger] polys_hold(
        copy_tx_nonce(c),
        t,
        challenges,
        r,
    ) by {
        crate::tx_circuit::stored::theorem_copy_tx_nonce(c, b, max_txs, max_calldata, end, challenges, r);
    }
    lemma_one_more(g14, "copy tx_nonce", copy_tx_nonce(c), t, challenges);
    let g15 = g14.push(("copy tx_nonce", copy_tx_nonce(c)));
    assert forall|r: int| 0 <= r < t.len() implies #[trigger] polys_hold(
        copy_block_num(c),
        t,
        challenges,
        r,
    ) by {
        crate::tx_circuit::stored::theorem_copy_block_num(c, b, max_txs, max_calldata, end, challenges, r);
    }
    lemma_one_more(g15, "copy block_num", copy_block_num(c), t, challenges);
    let g16 = g15.push(("copy block_num", copy_block_num(c)));
    assert forall|r: int| 0 <= r < t.len() implies #[trigger] polys_hold(
        num_all_txs(c),
        t,
        challenges,
        r,
    ) by {
        crate::tx_circuit::queue::theorem_num_all_txs(c, b, max_txs, max_calldata, end, challenges, r);
    }
    lemma_one_more(g16, "num_all_txs in a block", num_all_txs(c), t, challenges);
    let g17 = g16.push(("num_all_txs in a block", num_all_txs(c)));
    assert forall|r: int| 0 <= r < t.len() implies #[trigger] polys_hold(
        is_padding_tx(c),
        t,
        challenges,
        r,
    ) by {
        crate::tx_circuit::signing::theorem_is_padding_tx(c, b, max_txs, max_calldata, end, challenges, r);
    }
    lemma_one_more(g17, "is_padding_tx", is_padding_tx(c), t, challenges);
    let g18 = g17.push(("is_padding_tx", is_padding_tx(c)));
    assert forall|r: int| 0 <= r < t.len() implies #[trigger] polys_hold(
        last_tx_id(c),
        t,
        challenges,
        r,
    ) by {
        crate::tx_circuit::counting::theorem_last_tx_id(c, b, max_txs, max_calldata, end, challenges, r);
    }
    lemma_one_more(g18, "last non-padding tx must have tx_id == cum_num_txs", last_tx_id(c), t, challenges);
    let g19 = g18.push(("last non-padding tx must have tx_id == cum_num_txs", last_tx_id(c)));
    assert forall|r: int| 0 <= r < t.len() implies #[trigger] polys_hold(
        tx_id_bound(c),
        t,
        challenges,
        r,
    ) by {
        crate::tx_circuit::counting::theorem_tx_id_bound(c, b, max_txs, max_calldata, end, challenges, r);
    }
    lemma_one_more(g19, "tx_id <= cum_num_txs", tx_id_bound(c), t, challenges);
    let g20 = g19.push(("tx_id <= cum_num_txs", tx_id_bound(c)));
    assert forall|r: int| 0 <= r < t.len() implies #[trigger] polys_hold(
        calldata_last(c),
        t,
        challenges,
        r,
    ) by {
        crate::tx_circuit::stored::theorem_calldata_last(c, b, max_txs, max_calldata, end, challenges, r);
    }
    lemma_one_more(g20, "last row of call data", calldata_last(c), t, challenges);
    let g21 = g20.push(("last row of call data", calldata_last(c)));
    assert forall|r: int| 0 <= r < t.len() implies #[trigger] polys_hold(
        calldata_byte(c),
        t,
        challenges,
        r,
    ) by {
        crate::tx_circuit::stored::theorem_calldata_byte(c, b, max_txs, max_calldata, end, challenges, r);
    }
    lemma_one_more(g21, "calldata_byte == tx_table.value", calldata_byte(c), t, challenges);
    let g22 = g21.push(("calldata_byte == tx_table.value", calldata_byte(c)));
    assert forall|r: int| 0 <= r < t.len() implies #[trigger] polys_hold(
        calldata_init(c),
        t,
        challenges,
        r,
    ) by {
        crate::tx_circuit::complete::theorem_calldata_init(c, b, max_txs, max_calldata, end, challenges, r);
    }
    lemma_one_more(g22, "tx call data init", calldata_init(c), t, challenges);
    let g23 = g22.push(("tx call data init", calldata_init(c)));
    assert forall|r: int| 0 <= r < t.len() implies #[trigger] polys_hold(
        calldata_bytes(c, ch),
        t,
        challenges,
        r,
    ) by {
        crate::tx_circuit::complete::theorem_calldata_bytes(c, ch, b, max_txs, max_calldata, end, challenges, r);
    }
    lemma_one_more(g23, "tx call data bytes", calldata_bytes(c, ch), t, challenges);
    let g24 = g23.push(("tx call data bytes", calldata_bytes(c, ch)));
    assert forall|r: int| 0 <= r < t.len() implies #[trigger] polys_hold(
        signature_v(c),
        t,
        challenges,
        r,
    ) by {
        crate::tx_circuit::signing::theorem_signature_v(c, b, max_txs, max_calldata, end, challenges, r);
    }
    lemma_one_more(g24, "tx signature v", signature_v(c), t, challenges);
    let g25 = g24.push(("tx signature v", signature_v(c)));
    assert forall|r: int| 0 <= r < t.len() implies #[trigger] polys_hold(
        caller_address(c),
        t,
        challenges,
        r,
    ) by {
        crate::tx_circuit::signing::theorem_caller_address(c, b, max_txs, max_calldata, end, challenges, r);
    }
    lemma_one_more(g25, "caller address == sv_address if it's not zero and tx_type != L1Msg", caller_address(c), t, challenges);
    let g26 = g25.push(("caller address == sv_address if it's not zero and tx_type != L1Msg", caller_address(c)));
    assert(g26 == with_tx_gates(gates, c, ch));
}

/// Every polynomial of every gate of the circuit, those of its gadgets
/// among them, evaluates to zero on every row of the table of a batch such
/// as the circuit expects, with fewer than 65536 headers.
pub proof fn theorem_gates(
    gates: Seq<GateView>,
    c: &TxCircuitConfig,
    ch: &ChallengeExprs,
    b: Batch,
    max_txs: nat,
    max_calldata: nat,
    end: nat,
    challenges: Seq<int>,
)
    requires
        valid(c, b, max_txs, max_calldata),
        field_has_inverses(),
        expected(b),
        challenged(ch, b, challenges),
        max_txs < 65536,
        all_hold(gates, table(c, b, max_txs, max_calldata, end), challenges),
    ensures
        all_hold(
            with_tx_gates(with_gadget_gates(gates, c), c, ch),
            table(c, b, max_txs, max_calldata, end),
            challenges,
        ),
{
    crate::tx_circuit::gadgetry::theorem_gadget_gates(
        gates,
        c,
        b,
        max_txs,
        max_calldata,
        end,
        challenges,
    );
    theorem_tx_gates(
        with_gadget_gates(gates, c),
        c,
        ch,
        b,
        max_txs,
        max_calldata,
        end,
        challenges,
    );
}

/// Every row of the table of a batch such as the circuit expects finds in
/// the table what the three lookups of calldata have it look up.
pub proof fn theorem_calldata_found(
    c: &TxCircuitConfig,
    b: Batch,
    max_txs: nat,
    max_calldata: nat,
    end: nat,
    challenges: Seq<int>,
    r: int,
)
    requires
        valid(c, b, max_txs, max_calldata),
        field_has_inverses(),
        expected(b),
        0 <= r < table(c, b, max_txs, max_calldata, end).len(),
    ensures
        lookup_holds(calldata_gas_cost(c), table(c, b, max_txs, max_calldata, end), challenges, r),
        lookup_holds(
            calldata_final_present(c),
            table(c, b, max_txs, max_calldata, end),
            challenges,
            r,
        ),
        lookup_holds(calldata_rlc(c), table(c, b, max_txs, max_calldata, end), challenges, r),
{
    crate::tx_circuit::found::theorem_calldata_gas_cost_found(
        c,
        b,
        max_txs,
        max_calldata,
        end,
        challenges,
        r,
    );
    crate::tx_circuit::found::theorem_calldata_final_found(
        c,
        b,
        max_txs,
        max_calldata,
        end,
        challenges,
        r,
    );
    crate::tx_circuit::found::theorem_calldata_rlc_found(
        c,
        b,
        max_txs,
        max_calldata,
        end,
        challenges,
        r,
    );
}

/// Every row of the table of a batch such as the circuit expects finds in
/// the table of block aggregates, written beside it, what the three lookups
/// of the counts of a block have it look up.
pub proof fn theorem_aggregates_found(
    c: &TxCircuitConfig,
    b: Batch,
    max_txs: nat,
    max_calldata: nat,
    end: nat,
    blocks: Seq<u64>,
    challenges: Seq<int>,
    r: int,
)
    requires
        valid(c, b, max_txs, max_calldata),
        field_has_inverses(),
        expected(b),
        blocks_of(b.txs, blocks),
        0 <= r < table(c, b, max_txs, max_calldata, end).len(),
    ensures
        lookup_holds(
            num_txs_in_block(c),
            whole(c, b, max_txs, max_calldata, end, blocks),
            challenges,
            r,
        ),
        lookup_holds(
            cum_num_txs_in_block(c),
            whole(c, b, max_txs, max_calldata, end, blocks),
            challenges,
            r,
        ),
        lookup_holds(
            num_all_txs_in_block(c),
            whole(c, b, max_txs, max_calldata, end, blocks),
            challenges,
            r,
        ),
{
    crate::tx_circuit::aggregates::lemma_has_room(c, b, max_txs, max_calldata, end, blocks);
    crate::tx_circuit::aggregates::theorem_num_txs_in_block_found(
        c,
        b,
        max_txs,
        max_calldata,
        end,
        blocks,
        challenges,
        r,
    );
    crate::tx_circuit::aggregates::theorem_cum_num_txs_in_block_found(
        c,
        b,
        max_txs,
        max_calldata,
        end,
        blocks,
        challenges,
        r,
    );
    crate::tx_circuit::aggregates::theorem_num_all_txs_in_block_found(
        c,
        b,
        max_txs,
        max_calldata,
        end,
        blocks,
        challenges,
        r,
    );
}

/// The table of a batch such as the circuit expects, with fewer than 65536
/// headers and block numbers that rise by less than 65536 from one
/// transaction to the next, satisfies every gate and every range check of a
/// constraint system that held none before the circuit was configured in
/// it.
pub proof fn theorem_configured(
    meta: &ConstraintSystem,
    before: ConstraintSystemView,
    c: &TxCircuitConfig,
    args: &TxCircuitConfigArgs,
    b: Batch,
    max_txs: nat,
    max_calldata: nat,
    end: nat,
    challenges: Seq<int>,
)
    requires
        meta@ == c.configured(before, args),
        before.gates.len() == 0,
        before.ranges.len() == 0,
        c.u8_table.bound == 256,
        c.u16_table.bound == 65536,
        valid(c, b, max_txs, max_calldata),
        field_has_inverses(),
        expected(b),
        steps_are_small(b.txs),
        max_txs < 65536,
        challenged(&args.challenges, b, challenges),
    ensures
        gates_satisfied(meta.gates@, table(c, b, max_txs, max_calldata, end), challenges),
        ranges_satisfied(meta.ranges@, table(c, b, max_txs, max_calldata, end), challenges),
{
    let t = table(c, b, max_txs, max_calldata, end);
    theorem_gates(before.gates, c, &args.challenges, b, max_txs, max_calldata, end, challenges);
    crate::tx_circuit::bounded::theorem_ranges(
        before.ranges,
        c,
        b,
        max_txs,
        max_calldata,
        end,
        challenges,
    );
    let gates = with_tx_gates(with_gadget_gates(before.gates, c), c, &args.challenges);
    assert forall|g: int, row: int|
        0 <= g < meta.gates@.len() && 0 <= row < t.len() implies #[trigger] polys_hold(
        meta.gates@[g].polys@,
        t,
        challenges,
        row,
    ) by {
        assert(meta@.gates[g].1 == meta.gates@[g].polys@);
        assert(polys_hold(gates[g].1, t, challenges, row));
    }
    let ranges = crate::tx_circuit::gates::with_tx_ranges(
        crate::tx_circuit::configure::with_gadget_ranges(before.ranges, c),
        c,
    );
    assert forall|k: int, row: int|
        0 <= k < meta.ranges@.len() && 0 <= row < t.len() implies #[trigger] range_holds(
        meta.ranges@[k].input,
        meta.ranges@[k].table.bound as int,
        t,
        challenges,
        row,
    ) by {
        assert(meta@.ranges[k] == meta.ranges@[k]);
        assert(range_holds(ranges[k].input, ranges[k].table.bound as int, t, challenges, row));
    }
}

/// What the circuit expects of the transactions of a batch, the padding
/// left aside: each is admissible, signed as its type asks for by its
/// sender, and in a block other than zero; the encoding of a message from
/// the queue costs no gas; and they come in the order of their blocks.
pub open spec fn transactions_expected(b: Batch) -> bool {
    &&& forall|i: int|
        0 <= i < b.txs.len() ==> {
            let tx = #[trigger] b.txs[i];
            &&& admissible_tx(tx)
            &&& tx.tx_type == TxType::L1Msg ==> tx.tx_data_gas_cost == 0
            &&& sender(tx) != 0
            &&& recovery_value_fits(tx)
            &&& tx.tx_type != TxType::L1Msg ==> horner(b.sigs[i].address@, 256) == sender(tx)
            &&& tx.block_number != 0
        }
    &&& sorted_by_block(b.txs)
}

/// A batch whose transactions are such as the circuit expects, filled up
/// with the padding that `padding_txs` makes for a chain whose id leaves
/// room for the recovery value, is such as the circuit expects.
pub proof fn theorem_padding_expected(b: Batch, chain_id: u64, max_txs: nat)
    requires
        transactions_expected(b),
        is_padding(b.padding, chain_id, b.txs.len(), max_txs),
        2 * chain_id + 35 <= u64::MAX,
    ensures
        expected(b),
{
    let count = b.txs.len() as int;
    assert forall|k: int| 0 <= k < b.padding.len() implies {
        let tx = #[trigger] b.padding[k];
        &&& admissible_tx(tx)
        &&& tx.tx_type != TxType::L1Msg
        &&& sender(tx) == 0
        &&& recovery_value_fits(tx)
        &&& tx.call_data@.len() == 0
        &&& tx.block_number == 0
    } by {
        let tx = b.padding[k];
        assert(is_dummy(tx, chain_id, count + k + 1));
        crate::tx_circuit::laws::lemma_horner_zeros(tx.caller_address@, 256);
        vstd::arithmetic::div_mod::lemma_small_mod(
            (2 * chain_id + 35) as nat,
            0x1_0000_0000_0000_0000,
        );
    }
    assert forall|i: int| 0 <= i < b.all().len() implies {
        let tx = #[trigger] b.all()[i];
        &&& admissible_tx(tx)
        &&& tx.tx_type == TxType::L1Msg ==> tx.tx_data_gas_cost == 0
        &&& recovery_value_fits(tx)
        &&& tx.tx_type != TxType::L1Msg && sender(tx) != 0 ==> horner(b.sigs[i].address@, 256)
            == sender(tx)
    } by {
        if i < count {
            assert(b.all()[i] == b.txs[i]);
        } else {
            assert(b.all()[i] == b.padding[i - count]);
        }
    }
}

} // verus!
