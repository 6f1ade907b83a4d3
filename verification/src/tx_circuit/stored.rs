//! The table of a batch satisfies the gates that tie the stored booleans of
//! a row to its kind and to the type of its transaction.

use crate::expr::cell;
use crate::expr::cell_at;
use crate::expr::eval;
use crate::expr::lit;
use crate::expr::minus;
use crate::expr::times;
use crate::expr::Constraint;
use crate::expr::Expr;
use crate::field::fred;
use crate::field::modulus;
use crate::gadgets::digit;
use crate::gadgets::is_zero_expr;
use crate::gadgets::lemma_value_equals;
use crate::plonk::polys_hold;
use crate::semantics::is_bit;
use crate::semantics::lemma_eval_and;
use crate::semantics::lemma_eval_cell;
use crate::semantics::lemma_eval_lit;
use crate::semantics::lemma_eval_minus;
use crate::semantics::lemma_eval_not;
use crate::semantics::lemma_eval_sum;
use crate::semantics::lemma_eval_times;
use crate::semantics::lemma_requirement;
use crate::table::TxFieldTag;
use crate::tx_circuit::batch::Batch;
use crate::tx_circuit::complete::enabled;
use crate::tx_circuit::complete::field_has_inverses;
use crate::tx_circuit::complete::lemma_calldata_cells;
use crate::tx_circuit::complete::lemma_digits_of_zero;
use crate::tx_circuit::complete::lemma_row_kind;
use crate::tx_circuit::complete::lemma_small_numbers;
use crate::tx_circuit::complete::lemma_table_size;
use crate::tx_circuit::complete::used;
use crate::tx_circuit::complete::valid;
use crate::tx_circuit::complete::wrapped_view;
use crate::tx_circuit::gates::calldata_byte;
use crate::tx_circuit::gates::calldata_last;
use crate::tx_circuit::gates::calldata_lookup_condition;
use crate::tx_circuit::gates::copy_block_num;
use crate::tx_circuit::gates::copy_tx_nonce;
use crate::tx_circuit::gates::hash_tag_lookup_condition;
use crate::tx_circuit::gates::l1_msg_gas_cost;
use crate::tx_circuit::gates::is_caller_address;
use crate::tx_circuit::gates::is_calldata;
use crate::tx_circuit::gates::is_chain_id;
use crate::tx_circuit::gates::is_l1_msg;
use crate::tx_circuit::gates::is_tag;
use crate::tx_circuit::gates::is_tag_block_num;
use crate::tx_circuit::gates::keccak_lookup_condition;
use crate::tx_circuit::gates::l1_msg_lookup_condition;
use crate::tx_circuit::gates::sign_tag_lookup_condition;
use crate::tx_circuit::gates::is_type;
use crate::tx_circuit::rows::lemma_table_cells;
use crate::tx_circuit::rows::lemma_table_len;
use crate::tx_circuit::rows::lemma_table_tail;
use crate::tx_circuit::rows::view_at;
use crate::tx_circuit::synthesis::table;
use crate::tx_circuit::TxCircuitConfig;
use crate::util::and_expr;
use crate::util::not_expr;
use crate::util::sum_expr;
use crate::witness::TxType;
use vstd::prelude::*;

verus! {

/// One for true and zero for false.
pub open spec fn bit(b: bool) -> int {
    if b {
        1
    } else {
        0
    }
}

/// The indicator of each kind of row, as it evaluates on the row that lies
/// `r + rotation` rows after the first.
pub proof fn lemma_row_kinds(
    c: &TxCircuitConfig,
    b: Batch,
    max_txs: nat,
    max_calldata: nat,
    end: nat,
    challenges: Seq<int>,
    r: int,
    rotation: int,
)
    requires
        valid(c, b, max_txs, max_calldata),
        -1000 <= rotation <= 1000,
    ensures
        forall|tag: TxFieldTag| #[trigger]
            eval(
                is_tag(c, tag, rotation),
                table(c, b, max_txs, max_calldata, end),
                challenges,
                r,
            ) == bit(
                wrapped_view(
                    b,
                    max_txs,
                    max_calldata,
                    table(c, b, max_txs, max_calldata, end).len() as int,
                    r + rotation,
                ).tag == tag,
            ),
{
    assert forall|tag: TxFieldTag| #[trigger]
        eval(is_tag(c, tag, rotation), table(c, b, max_txs, max_calldata, end), challenges, r)
            == bit(
            wrapped_view(
                b,
                max_txs,
                max_calldata,
                table(c, b, max_txs, max_calldata, end).len() as int,
                r + rotation,
            ).tag == tag,
        ) by {
        lemma_row_kind(c, b, max_txs, max_calldata, end, challenges, r, rotation, tag);
    }
}

/// The indicator of each type of transaction and the stored booleans of a
/// row, as they evaluate on the row `r`.
pub proof fn lemma_stored(
    c: &TxCircuitConfig,
    b: Batch,
    max_txs: nat,
    max_calldata: nat,
    end: nat,
    challenges: Seq<int>,
    r: int,
)
    requires
        valid(c, b, max_txs, max_calldata),
    ensures
        ({
            let t = table(c, b, max_txs, max_calldata, end);
            let v = wrapped_view(b, max_txs, max_calldata, t.len() as int, r);
            &&& forall|ty: TxType| #[trigger]
                eval(is_type(c, ty), t, challenges, r) == bit(v.tx_type == ty)
            &&& eval(cell_at(c.is_calldata, 0), t, challenges, r) == bit(
                v.tag == TxFieldTag::CallData,
            )
            &&& eval(cell_at(c.is_caller_address, 0), t, challenges, r) == bit(
                v.tag == TxFieldTag::CallerAddress,
            )
            &&& eval(cell_at(c.is_chain_id, 0), t, challenges, r) == bit(
                v.tag == TxFieldTag::ChainID,
            )
            &&& eval(cell_at(c.is_tag_block_num, 0), t, challenges, r) == bit(
                v.tag == TxFieldTag::BlockNumber,
            )
            &&& eval(cell_at(c.is_l1_msg, 0), t, challenges, r) == bit(v.tx_type == TxType::L1Msg)
            &&& eval(cell_at(c.lookup_conditions.tx_calldata, 0), t, challenges, r) == bit(
                v.looks_up_calldata(),
            )
            &&& eval(cell_at(c.lookup_conditions.rlp_sign_tag, 0), t, challenges, r) == bit(
                v.looks_up_sign_tag(),
            )
            &&& eval(cell_at(c.lookup_conditions.rlp_hash_tag, 0), t, challenges, r) == bit(
                v.looks_up_hash_tag(),
            )
            &&& eval(cell_at(c.lookup_conditions.l1_msg_hash, 0), t, challenges, r) == bit(
                v.looks_up_l1_msg_hash(),
            )
            &&& eval(cell_at(c.lookup_conditions.keccak, 0), t, challenges, r) == bit(
                v.looks_up_keccak(),
            )
            &&& eval(cell_at(c.tx_table.q_enable, 0), t, challenges, r) == bit(
                enabled(max_txs, max_calldata, t.len() as int, r),
            )
        }),
{
    reveal(valid);
    let t = table(c, b, max_txs, max_calldata, end);
    lemma_table_len(c, b, max_txs, max_calldata, end);
    let n = t.len() as int;
    let at = r % n;
    let v = wrapped_view(b, max_txs, max_calldata, n, r);
    lemma_small_numbers();
    lemma_eval_cell(c.is_calldata, 0, t, challenges, r);
    lemma_eval_cell(c.is_caller_address, 0, t, challenges, r);
    lemma_eval_cell(c.is_chain_id, 0, t, challenges, r);
    lemma_eval_cell(c.is_tag_block_num, 0, t, challenges, r);
    lemma_eval_cell(c.is_l1_msg, 0, t, challenges, r);
    lemma_eval_cell(c.lookup_conditions.tx_calldata, 0, t, challenges, r);
    lemma_eval_cell(c.lookup_conditions.rlp_sign_tag, 0, t, challenges, r);
    lemma_eval_cell(c.lookup_conditions.rlp_hash_tag, 0, t, challenges, r);
    lemma_eval_cell(c.lookup_conditions.l1_msg_hash, 0, t, challenges, r);
    lemma_eval_cell(c.lookup_conditions.keccak, 0, t, challenges, r);
    lemma_eval_cell(c.tx_table.q_enable, 0, t, challenges, r);
    if at < used(max_txs, max_calldata) {
        lemma_table_cells(c, b, max_txs, max_calldata, end, at);
    } else {
        lemma_table_tail(c, b, max_txs, max_calldata, end, at);
        assert forall|i: int| 0 <= i < 3 implies t[at][(#[trigger] c.tx_type_bits.bits@[i]).index as int]
            == digit(0, (2 - i) as nat) by {
            lemma_digits_of_zero((2 - i) as nat);
        }
    }
    crate::tx_circuit::rows::lemma_view_first(b, max_txs);
    assert forall|i: int| 0 <= i < c.tx_type_bits.bits@.len() implies cell(
        t,
        r + 0,
        (#[trigger] c.tx_type_bits.bits@[i]).index as int,
    ) == digit(v.tx_type.spec_index(), (c.tx_type_bits.bits@.len() - 1 - i) as nat) by {
        assert(t[at][c.tx_type_bits.bits@[i].index as int] == digit(
            v.tx_type.spec_index(),
            (2 - i) as nat,
        ));
    }
    assert forall|ty: TxType| #[trigger]
        eval(is_type(c, ty), t, challenges, r) == bit(v.tx_type == ty) by {
        lemma_value_equals(
            c.tx_type_bits.bits@,
            v.tx_type.spec_index(),
            ty.spec_index(),
            0,
            t,
            challenges,
            r,
        );
    }
}

/// A gate of one requirement of an equality holds on a row where its
/// selector evaluates to zero or the two sides evaluate to the same.
pub proof fn lemma_single(
    gate: Seq<Constraint>,
    selector: Expr,
    a: Expr,
    b: Expr,
    table: Seq<Seq<int>>,
    challenges: Seq<int>,
    row: int,
)
    requires
        gate.len() == 1,
        gate[0].1 == times(selector, times(lit(1), minus(a, b))),
        eval(selector, table, challenges, row) == 0 || eval(a, table, challenges, row) == eval(
            b,
            table,
            challenges,
            row,
        ),
    ensures
        polys_hold(gate, table, challenges, row),
{
    lemma_eval_minus(a, b, table, challenges, row);
    lemma_requirement(selector, lit(1), minus(a, b), table, challenges, row);
}

/// The stored boolean `is_calldata` of an enabled row says whether the row is of
/// the kind `CallData`: the table satisfies `is_calldata`.
pub proof fn theorem_is_calldata(
    c: &TxCircuitConfig,
    b: Batch,
    max_txs: nat,
    max_calldata: nat,
    end: nat,
    challenges: Seq<int>,
    r: int,
)
    requires
        valid(c, b, max_txs, max_calldata),
        0 <= r < table(c, b, max_txs, max_calldata, end).len(),
    ensures
        polys_hold(is_calldata(c), table(c, b, max_txs, max_calldata, end), challenges, r),
{
    let t = table(c, b, max_txs, max_calldata, end);
    lemma_table_size(c, b, max_txs, max_calldata, end);
    let n = t.len() as int;
    vstd::arithmetic::div_mod::lemma_small_mod(r as nat, n as nat);
    let v = wrapped_view(b, max_txs, max_calldata, n, r);
    lemma_row_kinds(c, b, max_txs, max_calldata, end, challenges, r, 0);
    lemma_stored(c, b, max_txs, max_calldata, end, challenges, r);
    lemma_single(
        is_calldata(c),
        cell_at(c.tx_table.q_enable, 0),
        is_tag(c, TxFieldTag::CallData, 0),
        cell_at(c.is_calldata, 0),
        t,
        challenges,
        r,
    );
}

/// The stored boolean `is_caller_address` of an enabled row says whether the row is of
/// the kind `CallerAddress`: the table satisfies `is_caller_address`.
pub proof fn theorem_is_caller_address(
    c: &TxCircuitConfig,
    b: Batch,
    max_txs: nat,
    max_calldata: nat,
    end: nat,
    challenges: Seq<int>,
    r: int,
)
    requires
        valid(c, b, max_txs, max_calldata),
        0 <= r < table(c, b, max_txs, max_calldata, end).len(),
    ensures
        polys_hold(is_caller_address(c), table(c, b, max_txs, max_calldata, end), challenges, r),
{
    let t = table(c, b, max_txs, max_calldata, end);
    lemma_table_size(c, b, max_txs, max_calldata, end);
    let n = t.len() as int;
    vstd::arithmetic::div_mod::lemma_small_mod(r as nat, n as nat);
    let v = wrapped_view(b, max_txs, max_calldata, n, r);
    lemma_row_kinds(c, b, max_txs, max_calldata, end, challenges, r, 0);
    lemma_stored(c, b, max_txs, max_calldata, end, challenges, r);
    lemma_single(
        is_caller_address(c),
        cell_at(c.tx_table.q_enable, 0),
        is_tag(c, TxFieldTag::CallerAddress, 0),
        cell_at(c.is_caller_address, 0),
        t,
        challenges,
        r,
    );
}

/// The stored boolean `is_chain_id` of an enabled row says whether the row is of
/// the kind `ChainID`: the table satisfies `is_chain_id`.
pub proof fn theorem_is_chain_id(
    c: &TxCircuitConfig,
    b: Batch,
    max_txs: nat,
    max_calldata: nat,
    end: nat,
    challenges: Seq<int>,
    r: int,
)
    requires
        valid(c, b, max_txs, max_calldata),
        0 <= r < table(c, b, max_txs, max_calldata, end).len(),
    ensures
        polys_hold(is_chain_id(c), table(c, b, max_txs, max_calldata, end), challenges, r),
{
    let t = table(c, b, max_txs, max_calldata, end);
    lemma_table_size(c, b, max_txs, max_calldata, end);
    let n = t.len() as int;
    vstd::arithmetic::div_mod::lemma_small_mod(r as nat, n as nat);
    let v = wrapped_view(b, max_txs, max_calldata, n, r);
    lemma_row_kinds(c, b, max_txs, max_calldata, end, challenges, r, 0);
    lemma_stored(c, b, max_txs, max_calldata, end, challenges, r);
    lemma_single(
        is_chain_id(c),
        cell_at(c.tx_table.q_enable, 0),
        is_tag(c, TxFieldTag::ChainID, 0),
        cell_at(c.is_chain_id, 0),
        t,
        challenges,
        r,
    );
}

/// The stored boolean `is_tag_block_num` of an enabled row says whether the row is of
/// the kind `BlockNumber`: the table satisfies `is_tag_block_num`.
pub proof fn theorem_is_tag_block_num(
    c: &TxCircuitConfig,
    b: Batch,
    max_txs: nat,
    max_calldata: nat,
    end: nat,
    challenges: Seq<int>,
    r: int,
)
    requires
        valid(c, b, max_txs, max_calldata),
        0 <= r < table(c, b, max_txs, max_calldata, end).len(),
    ensures
        polys_hold(is_tag_block_num(c), table(c, b, max_txs, max_calldata, end), challenges, r),
{
    let t = table(c, b, max_txs, max_calldata, end);
    lemma_table_size(c, b, max_txs, max_calldata, end);
    let n = t.len() as int;
    vstd::arithmetic::div_mod::lemma_small_mod(r as nat, n as nat);
    let v = wrapped_view(b, max_txs, max_calldata, n, r);
    lemma_row_kinds(c, b, max_txs, max_calldata, end, challenges, r, 0);
    lemma_stored(c, b, max_txs, max_calldata, end, challenges, r);
    lemma_single(
        is_tag_block_num(c),
        cell_at(c.tx_table.q_enable, 0),
        is_tag(c, TxFieldTag::BlockNumber, 0),
        cell_at(c.is_tag_block_num, 0),
        t,
        challenges,
        r,
    );
}

/// The stored boolean `is_l1_msg` of an enabled row says whether the row is of
/// the type `L1Msg`: the table satisfies `is_l1_msg`.
pub proof fn theorem_is_l1_msg(
    c: &TxCircuitConfig,
    b: Batch,
    max_txs: nat,
    max_calldata: nat,
    end: nat,
    challenges: Seq<int>,
    r: int,
)
    requires
        valid(c, b, max_txs, max_calldata),
        0 <= r < table(c, b, max_txs, max_calldata, end).len(),
    ensures
        polys_hold(is_l1_msg(c), table(c, b, max_txs, max_calldata, end), challenges, r),
{
    let t = table(c, b, max_txs, max_calldata, end);
    lemma_table_size(c, b, max_txs, max_calldata, end);
    let n = t.len() as int;
    vstd::arithmetic::div_mod::lemma_small_mod(r as nat, n as nat);
    let v = wrapped_view(b, max_txs, max_calldata, n, r);
    lemma_row_kinds(c, b, max_txs, max_calldata, end, challenges, r, 0);
    lemma_stored(c, b, max_txs, max_calldata, end, challenges, r);
    lemma_single(
        is_l1_msg(c),
        cell_at(c.tx_table.q_enable, 0),
        cell_at(c.is_l1_msg, 0),
        is_type(c, TxType::L1Msg),
        t,
        challenges,
        r,
    );
}

/// An enabled row of a signed transaction looks a field of the signed
/// encoding up exactly if the stored condition says so: the table satisfies
/// `sign_tag_lookup_condition`.
pub proof fn theorem_sign_tag_lookup_condition(
    c: &TxCircuitConfig,
    b: Batch,
    max_txs: nat,
    max_calldata: nat,
    end: nat,
    challenges: Seq<int>,
    r: int,
)
    requires
        valid(c, b, max_txs, max_calldata),
        0 <= r < table(c, b, max_txs, max_calldata, end).len(),
    ensures
        polys_hold(sign_tag_lookup_condition(c), table(c, b, max_txs, max_calldata, end), challenges, r),
{
    let t = table(c, b, max_txs, max_calldata, end);
    lemma_table_size(c, b, max_txs, max_calldata, end);
    let n = t.len() as int;
    vstd::arithmetic::div_mod::lemma_small_mod(r as nat, n as nat);
    let v = wrapped_view(b, max_txs, max_calldata, n, r);
    lemma_row_kinds(c, b, max_txs, max_calldata, end, challenges, r, 0);
    lemma_stored(c, b, max_txs, max_calldata, end, challenges, r);
    lemma_eval_not(cell_at(c.is_l1_msg, 0), t, challenges, r);
    let bound = seq![cell_at(c.is_chain_id, 0), is_type(c, TxType::Eip155)];
    assert forall|i: int| 0 <= i < bound.len() implies is_bit(
        eval(#[trigger] bound[i], t, challenges, r),
    ) by {}
    lemma_eval_and(bound, t, challenges, r);
    if v.tag == TxFieldTag::ChainID && v.tx_type == TxType::Eip155 {
        assert forall|i: int| 0 <= i < bound.len() implies eval(
            #[trigger] bound[i],
            t,
            challenges,
            r,
        ) == 1 by {}
    } else if v.tag == TxFieldTag::ChainID {
        assert(eval(bound[1], t, challenges, r) != 1);
    } else {
        assert(eval(bound[0], t, challenges, r) != 1);
    }
    let terms = seq![
        is_tag(c, TxFieldTag::Nonce, 0),
        is_tag(c, TxFieldTag::GasPrice, 0),
        is_tag(c, TxFieldTag::Gas, 0),
        is_tag(c, TxFieldTag::CalleeAddress, 0),
        is_tag(c, TxFieldTag::Value, 0),
        is_tag(c, TxFieldTag::CallDataRLC, 0),
        and_expr(bound),
        is_tag(c, TxFieldTag::TxSignLength, 0),
        is_tag(c, TxFieldTag::TxSignRLC, 0),
    ];
    let k: int = if v.tag == TxFieldTag::Nonce {
        0
    } else if v.tag == TxFieldTag::GasPrice {
        1
    } else if v.tag == TxFieldTag::Gas {
        2
    } else if v.tag == TxFieldTag::CalleeAddress {
        3
    } else if v.tag == TxFieldTag::Value {
        4
    } else if v.tag == TxFieldTag::CallDataRLC {
        5
    } else if v.tag == TxFieldTag::ChainID && v.tx_type == TxType::Eip155 {
        6
    } else if v.tag == TxFieldTag::TxSignLength {
        7
    } else if v.tag == TxFieldTag::TxSignRLC {
        8
    } else {
        -1
    };
    assert forall|i: int| 0 <= i < terms.len() && i != k implies eval(
        #[trigger] terms[i],
        t,
        challenges,
        r,
    ) == 0 by {
        if i == 0 {
        } else if i == 1 {
        } else if i == 2 {
        } else if i == 3 {
        } else if i == 4 {
        } else if i == 5 {
        } else if i == 6 {
        } else if i == 7 {
        } else if i == 8 {
        }
    }
    lemma_eval_sum(terms, k, t, challenges, r);
    let parts = seq![cell_at(c.tx_table.q_enable, 0), not_expr(cell_at(c.is_l1_msg, 0))];
    let selector = and_expr(parts);
    assert forall|i: int| 0 <= i < parts.len() implies is_bit(
        eval(#[trigger] parts[i], t, challenges, r),
    ) by {}
    lemma_eval_and(parts, t, challenges, r);
    if eval(selector, t, challenges, r) != 0 {
        assert(eval(parts[0], t, challenges, r) == 1);
        assert(eval(parts[1], t, challenges, r) == 1);
    }
    lemma_single(sign_tag_lookup_condition(c), selector, sum_expr(terms), cell_at(c.lookup_conditions.rlp_sign_tag, 0), t, challenges, r);
}

/// An enabled row of a signed transaction looks a field of the hashed
/// encoding up exactly if the stored condition says so: the table satisfies
/// `hash_tag_lookup_condition`.
pub proof fn theorem_hash_tag_lookup_condition(
    c: &TxCircuitConfig,
    b: Batch,
    max_txs: nat,
    max_calldata: nat,
    end: nat,
    challenges: Seq<int>,
    r: int,
)
    requires
        valid(c, b, max_txs, max_calldata),
        0 <= r < table(c, b, max_txs, max_calldata, end).len(),
    ensures
        polys_hold(hash_tag_lookup_condition(c), table(c, b, max_txs, max_calldata, end), challenges, r),
{
    let t = table(c, b, max_txs, max_calldata, end);
    lemma_table_size(c, b, max_txs, max_calldata, end);
    let n = t.len() as int;
    vstd::arithmetic::div_mod::lemma_small_mod(r as nat, n as nat);
    let v = wrapped_view(b, max_txs, max_calldata, n, r);
    lemma_row_kinds(c, b, max_txs, max_calldata, end, challenges, r, 0);
    lemma_stored(c, b, max_txs, max_calldata, end, challenges, r);
    lemma_eval_not(cell_at(c.is_l1_msg, 0), t, challenges, r);
    let terms = seq![
        is_tag(c, TxFieldTag::Nonce, 0),
        is_tag(c, TxFieldTag::GasPrice, 0),
        is_tag(c, TxFieldTag::Gas, 0),
        is_tag(c, TxFieldTag::CalleeAddress, 0),
        is_tag(c, TxFieldTag::Value, 0),
        is_tag(c, TxFieldTag::TxDataGasCost, 0),
        is_tag(c, TxFieldTag::CallDataRLC, 0),
        is_tag(c, TxFieldTag::SigV, 0),
        is_tag(c, TxFieldTag::SigR, 0),
        is_tag(c, TxFieldTag::SigS, 0),
        is_tag(c, TxFieldTag::TxHashLength, 0),
        is_tag(c, TxFieldTag::TxHashRLC, 0),
    ];
    let k: int = if v.tag == TxFieldTag::Nonce {
        0
    } else if v.tag == TxFieldTag::GasPrice {
        1
    } else if v.tag == TxFieldTag::Gas {
        2
    } else if v.tag == TxFieldTag::CalleeAddress {
        3
    } else if v.tag == TxFieldTag::Value {
        4
    } else if v.tag == TxFieldTag::TxDataGasCost {
        5
    } else if v.tag == TxFieldTag::CallDataRLC {
        6
    } else if v.tag == TxFieldTag::SigV {
        7
    } else if v.tag == TxFieldTag::SigR {
        8
    } else if v.tag == TxFieldTag::SigS {
        9
    } else if v.tag == TxFieldTag::TxHashLength {
        10
    } else if v.tag == TxFieldTag::TxHashRLC {
        11
    } else {
        -1
    };
    assert forall|i: int| 0 <= i < terms.len() && i != k implies eval(
        #[trigger] terms[i],
        t,
        challenges,
        r,
    ) == 0 by {
        if i == 0 {
        } else if i == 1 {
        } else if i == 2 {
        } else if i == 3 {
        } else if i == 4 {
        } else if i == 5 {
        } else if i == 6 {
        } else if i == 7 {
        } else if i == 8 {
        } else if i == 9 {
        } else if i == 10 {
        } else if i == 11 {
        }
    }
    lemma_eval_sum(terms, k, t, challenges, r);
    let parts = seq![cell_at(c.tx_table.q_enable, 0), not_expr(cell_at(c.is_l1_msg, 0))];
    let selector = and_expr(parts);
    assert forall|i: int| 0 <= i < parts.len() implies is_bit(
        eval(#[trigger] parts[i], t, challenges, r),
    ) by {}
    lemma_eval_and(parts, t, challenges, r);
    if eval(selector, t, challenges, r) != 0 {
        assert(eval(parts[0], t, challenges, r) == 1);
        assert(eval(parts[1], t, challenges, r) == 1);
    }
    lemma_single(hash_tag_lookup_condition(c), selector, sum_expr(terms), cell_at(c.lookup_conditions.rlp_hash_tag, 0), t, challenges, r);
}

/// An enabled row of a message from the queue looks a field of the encoding
/// of the message up exactly if the stored condition says so: the table
/// satisfies `l1_msg_lookup_condition`.
pub proof fn theorem_l1_msg_lookup_condition(
    c: &TxCircuitConfig,
    b: Batch,
    max_txs: nat,
    max_calldata: nat,
    end: nat,
    challenges: Seq<int>,
    r: int,
)
    requires
        valid(c, b, max_txs, max_calldata),
        0 <= r < table(c, b, max_txs, max_calldata, end).len(),
    ensures
        polys_hold(l1_msg_lookup_condition(c), table(c, b, max_txs, max_calldata, end), challenges, r),
{
    let t = table(c, b, max_txs, max_calldata, end);
    lemma_table_size(c, b, max_txs, max_calldata, end);
    let n = t.len() as int;
    vstd::arithmetic::div_mod::lemma_small_mod(r as nat, n as nat);
    let v = wrapped_view(b, max_txs, max_calldata, n, r);
    lemma_row_kinds(c, b, max_txs, max_calldata, end, challenges, r, 0);
    lemma_stored(c, b, max_txs, max_calldata, end, challenges, r);
    let terms = seq![
        is_tag(c, TxFieldTag::Nonce, 0),
        is_tag(c, TxFieldTag::Gas, 0),
        is_tag(c, TxFieldTag::CalleeAddress, 0),
        is_tag(c, TxFieldTag::Value, 0),
        is_tag(c, TxFieldTag::CallDataRLC, 0),
        is_tag(c, TxFieldTag::CallerAddress, 0),
        is_tag(c, TxFieldTag::TxHashLength, 0),
        is_tag(c, TxFieldTag::TxHashRLC, 0),
    ];
    let k: int = if v.tag == TxFieldTag::Nonce {
        0
    } else if v.tag == TxFieldTag::Gas {
        1
    } else if v.tag == TxFieldTag::CalleeAddress {
        2
    } else if v.tag == TxFieldTag::Value {
        3
    } else if v.tag == TxFieldTag::CallDataRLC {
        4
    } else if v.tag == TxFieldTag::CallerAddress {
        5
    } else if v.tag == TxFieldTag::TxHashLength {
        6
    } else if v.tag == TxFieldTag::TxHashRLC {
        7
    } else {
        -1
    };
    assert forall|i: int| 0 <= i < terms.len() && i != k implies eval(
        #[trigger] terms[i],
        t,
        challenges,
        r,
    ) == 0 by {
        if i == 0 {
        } else if i == 1 {
        } else if i == 2 {
        } else if i == 3 {
        } else if i == 4 {
        } else if i == 5 {
        } else if i == 6 {
        } else if i == 7 {
        }
    }
    lemma_eval_sum(terms, k, t, challenges, r);
    let parts = seq![cell_at(c.tx_table.q_enable, 0), cell_at(c.is_l1_msg, 0)];
    let selector = and_expr(parts);
    assert forall|i: int| 0 <= i < parts.len() implies is_bit(
        eval(#[trigger] parts[i], t, challenges, r),
    ) by {}
    lemma_eval_and(parts, t, challenges, r);
    if eval(selector, t, challenges, r) != 0 {
        assert(eval(parts[0], t, challenges, r) == 1);
        assert(eval(parts[1], t, challenges, r) == 1);
    }
    lemma_single(l1_msg_lookup_condition(c), selector, sum_expr(terms), cell_at(c.lookup_conditions.l1_msg_hash, 0), t, challenges, r);
}

/// An enabled row looks a hash up exactly if the stored condition says so:
/// the table satisfies `keccak_lookup_condition`.
pub proof fn theorem_keccak_lookup_condition(
    c: &TxCircuitConfig,
    b: Batch,
    max_txs: nat,
    max_calldata: nat,
    end: nat,
    challenges: Seq<int>,
    r: int,
)
    requires
        valid(c, b, max_txs, max_calldata),
        0 <= r < table(c, b, max_txs, max_calldata, end).len(),
    ensures
        polys_hold(keccak_lookup_condition(c), table(c, b, max_txs, max_calldata, end), challenges, r),
{
    let t = table(c, b, max_txs, max_calldata, end);
    lemma_table_size(c, b, max_txs, max_calldata, end);
    let n = t.len() as int;
    vstd::arithmetic::div_mod::lemma_small_mod(r as nat, n as nat);
    let v = wrapped_view(b, max_txs, max_calldata, n, r);
    lemma_row_kinds(c, b, max_txs, max_calldata, end, challenges, r, 0);
    lemma_stored(c, b, max_txs, max_calldata, end, challenges, r);
    lemma_eval_not(cell_at(c.is_l1_msg, 0), t, challenges, r);
    let signed = seq![is_tag(c, TxFieldTag::TxSignLength, 0), not_expr(cell_at(c.is_l1_msg, 0))];
    assert forall|i: int| 0 <= i < signed.len() implies is_bit(
        eval(#[trigger] signed[i], t, challenges, r),
    ) by {}
    lemma_eval_and(signed, t, challenges, r);
    if v.tag == TxFieldTag::TxSignLength && v.tx_type != TxType::L1Msg {
        assert forall|i: int| 0 <= i < signed.len() implies eval(
            #[trigger] signed[i],
            t,
            challenges,
            r,
        ) == 1 by {}
    } else if v.tag == TxFieldTag::TxSignLength {
        assert(eval(signed[1], t, challenges, r) != 1);
    } else {
        assert(eval(signed[0], t, challenges, r) != 1);
    }
    let terms = seq![
        and_expr(signed),
        is_tag(c, TxFieldTag::TxHashLength, 0),
    ];
    let k: int = if v.tag == TxFieldTag::TxSignLength && v.tx_type != TxType::L1Msg {
        0
    } else if v.tag == TxFieldTag::TxHashLength {
        1
    } else {
        -1
    };
    assert forall|i: int| 0 <= i < terms.len() && i != k implies eval(
        #[trigger] terms[i],
        t,
        challenges,
        r,
    ) == 0 by {
        if i == 0 {
        } else if i == 1 {
        }
    }
    lemma_eval_sum(terms, k, t, challenges, r);
    let selector = cell_at(c.tx_table.q_enable, 0);
    lemma_single(keccak_lookup_condition(c), selector, sum_expr(terms), cell_at(c.lookup_conditions.keccak, 0), t, challenges, r);
}


/// The value of a row, and the cells that hold a copy of what the header
/// holds on one of its rows, as queries evaluate to them on the row `r`; and
/// the mark of the last row of the room for calldata.
pub proof fn lemma_copied(
    c: &TxCircuitConfig,
    b: Batch,
    max_txs: nat,
    max_calldata: nat,
    end: nat,
    challenges: Seq<int>,
    r: int,
)
    requires
        valid(c, b, max_txs, max_calldata),
    ensures
        ({
            let t = table(c, b, max_txs, max_calldata, end);
            let n = t.len() as int;
            let v = wrapped_view(b, max_txs, max_calldata, n, r);
            &&& eval(cell_at(c.tx_table.value, 0), t, challenges, r) == fred(v.value)
            &&& eval(cell_at(c.tx_nonce, 0), t, challenges, r) == fred(v.tx_nonce)
            &&& eval(cell_at(c.block_num, 0), t, challenges, r) == fred(v.cur_block_num)
            &&& eval(cell_at(c.calldata_byte, 0), t, challenges, r) == (if v.tag
                == TxFieldTag::CallData {
                fred(v.value)
            } else {
                0int
            })
            &&& eval(cell_at(c.is_final, 0), t, challenges, r) == bit(v.is_final)
            &&& eval(cell_at(c.q_calldata_last, 0), t, challenges, r) == bit(
                r % n == max_txs * crate::tx_circuit::TX_LEN + max_calldata,
            )
        }),
{
    reveal(valid);
    let t = table(c, b, max_txs, max_calldata, end);
    lemma_table_len(c, b, max_txs, max_calldata, end);
    let n = t.len() as int;
    let at = r % n;
    lemma_eval_cell(c.tx_table.value, 0, t, challenges, r);
    lemma_eval_cell(c.tx_nonce, 0, t, challenges, r);
    lemma_eval_cell(c.block_num, 0, t, challenges, r);
    lemma_eval_cell(c.calldata_byte, 0, t, challenges, r);
    lemma_eval_cell(c.is_final, 0, t, challenges, r);
    lemma_eval_cell(c.q_calldata_last, 0, t, challenges, r);
    if at < used(max_txs, max_calldata) {
        lemma_table_cells(c, b, max_txs, max_calldata, end, at);
    } else {
        lemma_table_tail(c, b, max_txs, max_calldata, end, at);
    }
    crate::tx_circuit::rows::lemma_view_first(b, max_txs);
}

/// What a row of a header is: the row at a place of the header of a
/// transaction, and what it holds there of the nonce, of the block number,
/// of the length of the calldata and of the gas cost of the encoding.
pub proof fn lemma_header_row(b: Batch, max_txs: nat, max_calldata: nat, r: int) -> (place: (
    int,
    int,
))
    requires
        b.all().len() == max_txs,
        b.txs.len() <= max_txs,
        0 <= r < used(max_txs, max_calldata),
        view_at(b, max_txs, r).tag != TxFieldTag::Null,
        view_at(b, max_txs, r).tag != TxFieldTag::CallData,
    ensures
        0 <= place.0 < max_txs,
        0 <= place.1 < crate::tx_circuit::TX_LEN,
        r == 1 + place.0 * crate::tx_circuit::TX_LEN + place.1,
        ({
            let v = view_at(b, max_txs, r);
            let tx = b.all()[place.0];
            &&& v == b.header_view(place.0, place.1)
            &&& v.tag == crate::tx_circuit::batch::header_tag(place.1 as nat)
            &&& v.tx_type == tx.tx_type
            &&& v.tx_nonce == tx.nonce
            &&& v.cur_block_num == tx.block_number
            &&& v.tag == TxFieldTag::Nonce ==> v.value == tx.nonce
            &&& v.tag == TxFieldTag::BlockNumber ==> v.value == tx.block_number
            &&& v.tag == TxFieldTag::CallDataLength ==> v.value == tx.call_data@.len()
            &&& v.tag == TxFieldTag::TxDataGasCost ==> v.value == tx.tx_data_gas_cost
        }),
{
    crate::tx_circuit::rows::lemma_view_first(b, max_txs);
    if r > max_txs * crate::tx_circuit::TX_LEN {
        crate::tx_circuit::complete::lemma_calldata_kind(b, max_txs, max_calldata, r);
    }
    let (i, j) = crate::tx_circuit::rows::lemma_header_place(max_txs, r);
    crate::tx_circuit::rows::lemma_view_header(b, max_txs, i, j);
    crate::tx_circuit::complete::lemma_header_fields(b, i, j);
    reveal(Batch::header_view);
    reveal(crate::tx_circuit::batch::field_view);
    (i, j)
}

/// The encoding of a message from the queue costs no gas.
pub open spec fn messages_cost_nothing(b: Batch) -> bool {
    forall|i: int|
        0 <= i < b.all().len() && (#[trigger] b.all()[i]).tx_type == TxType::L1Msg ==> b.all()[i].tx_data_gas_cost
            == 0
}

/// The first row of a header holds the nonce of the transaction in its value
/// and in the column `tx_nonce`: the table satisfies `copy_tx_nonce`.
pub proof fn theorem_copy_tx_nonce(
    c: &TxCircuitConfig,
    b: Batch,
    max_txs: nat,
    max_calldata: nat,
    end: nat,
    challenges: Seq<int>,
    r: int,
)
    requires
        valid(c, b, max_txs, max_calldata),
        0 <= r < table(c, b, max_txs, max_calldata, end).len(),
    ensures
        polys_hold(copy_tx_nonce(c), table(c, b, max_txs, max_calldata, end), challenges, r),
{
    let t = table(c, b, max_txs, max_calldata, end);
    lemma_table_size(c, b, max_txs, max_calldata, end);
    let n = t.len() as int;
    vstd::arithmetic::div_mod::lemma_small_mod(r as nat, n as nat);
    let v = wrapped_view(b, max_txs, max_calldata, n, r);
    lemma_row_kinds(c, b, max_txs, max_calldata, end, challenges, r, 0);
    lemma_stored(c, b, max_txs, max_calldata, end, challenges, r);
    lemma_copied(c, b, max_txs, max_calldata, end, challenges, r);
    let selector = cell_at(c.tx_table.q_enable, 0);
    let condition = is_tag(c, TxFieldTag::Nonce, 0);
    let a = cell_at(c.tx_table.value, 0);
    let z = cell_at(c.tx_nonce, 0);
    if eval(selector, t, challenges, r) != 0 && v.tag == TxFieldTag::Nonce {
        reveal(valid);
        let place = lemma_header_row(b, max_txs, max_calldata, r);
    }
    crate::tx_circuit::complete::lemma_equality(selector, condition, a, z, t, challenges, r);
    assert(copy_tx_nonce(c)[0].1 == times(selector, times(times(lit(1), condition), minus(a, z))));
}

/// The last row of a header holds the block number of the transaction in
/// its value and in the column `block_num`: the table satisfies
/// `copy_block_num`.
pub proof fn theorem_copy_block_num(
    c: &TxCircuitConfig,
    b: Batch,
    max_txs: nat,
    max_calldata: nat,
    end: nat,
    challenges: Seq<int>,
    r: int,
)
    requires
        valid(c, b, max_txs, max_calldata),
        0 <= r < table(c, b, max_txs, max_calldata, end).len(),
    ensures
        polys_hold(copy_block_num(c), table(c, b, max_txs, max_calldata, end), challenges, r),
{
    let t = table(c, b, max_txs, max_calldata, end);
    lemma_table_size(c, b, max_txs, max_calldata, end);
    let n = t.len() as int;
    vstd::arithmetic::div_mod::lemma_small_mod(r as nat, n as nat);
    let v = wrapped_view(b, max_txs, max_calldata, n, r);
    lemma_row_kinds(c, b, max_txs, max_calldata, end, challenges, r, 0);
    lemma_stored(c, b, max_txs, max_calldata, end, challenges, r);
    lemma_copied(c, b, max_txs, max_calldata, end, challenges, r);
    let selector = cell_at(c.tx_table.q_enable, 0);
    let condition = cell_at(c.is_tag_block_num, 0);
    let a = cell_at(c.tx_table.value, 0);
    let z = cell_at(c.block_num, 0);
    if eval(selector, t, challenges, r) != 0 && v.tag == TxFieldTag::BlockNumber {
        reveal(valid);
        let place = lemma_header_row(b, max_txs, max_calldata, r);
    }
    crate::tx_circuit::complete::lemma_equality(selector, condition, a, z, t, challenges, r);
    assert(copy_block_num(c)[0].1 == times(selector, times(times(lit(1), condition), minus(a, z))));
}

/// A row of calldata holds its byte in its value and in the column
/// `calldata_byte`: the table satisfies `calldata_byte`.
pub proof fn theorem_calldata_byte(
    c: &TxCircuitConfig,
    b: Batch,
    max_txs: nat,
    max_calldata: nat,
    end: nat,
    challenges: Seq<int>,
    r: int,
)
    requires
        valid(c, b, max_txs, max_calldata),
        0 <= r < table(c, b, max_txs, max_calldata, end).len(),
    ensures
        polys_hold(calldata_byte(c), table(c, b, max_txs, max_calldata, end), challenges, r),
{
    let t = table(c, b, max_txs, max_calldata, end);
    lemma_table_size(c, b, max_txs, max_calldata, end);
    let n = t.len() as int;
    vstd::arithmetic::div_mod::lemma_small_mod(r as nat, n as nat);
    let v = wrapped_view(b, max_txs, max_calldata, n, r);
    lemma_row_kinds(c, b, max_txs, max_calldata, end, challenges, r, 0);
    lemma_stored(c, b, max_txs, max_calldata, end, challenges, r);
    lemma_copied(c, b, max_txs, max_calldata, end, challenges, r);
    let selector = cell_at(c.tx_table.q_enable, 0);
    let condition = cell_at(c.is_calldata, 0);
    let a = cell_at(c.calldata_byte, 0);
    let z = cell_at(c.tx_table.value, 0);
    crate::tx_circuit::complete::lemma_equality(selector, condition, a, z, t, challenges, r);
    assert(calldata_byte(c)[0].1 == times(selector, times(times(lit(1), condition), minus(a, z))));
}

/// The last row of the room for calldata is a row of empty calldata or,
/// where the calldata fills its room, the row of the last byte of a
/// transaction; either carries the final marker: the table satisfies
/// `calldata_last`.
pub proof fn theorem_calldata_last(
    c: &TxCircuitConfig,
    b: Batch,
    max_txs: nat,
    max_calldata: nat,
    end: nat,
    challenges: Seq<int>,
    r: int,
)
    requires
        valid(c, b, max_txs, max_calldata),
        0 <= r < table(c, b, max_txs, max_calldata, end).len(),
    ensures
        polys_hold(calldata_last(c), table(c, b, max_txs, max_calldata, end), challenges, r),
{
    let t = table(c, b, max_txs, max_calldata, end);
    lemma_table_size(c, b, max_txs, max_calldata, end);
    let n = t.len() as int;
    vstd::arithmetic::div_mod::lemma_small_mod(r as nat, n as nat);
    let v = wrapped_view(b, max_txs, max_calldata, n, r);
    lemma_row_kinds(c, b, max_txs, max_calldata, end, challenges, r, 0);
    lemma_stored(c, b, max_txs, max_calldata, end, challenges, r);
    lemma_copied(c, b, max_txs, max_calldata, end, challenges, r);
    let mark = cell_at(c.q_calldata_last, 0);
    let body = minus(cell_at(c.is_final, 0), lit(1));
    lemma_eval_lit(1, t, challenges, r);
    lemma_eval_minus(cell_at(c.is_final, 0), lit(1), t, challenges, r);
    if eval(mark, t, challenges, r) != 0 {
        if b.calldata_len() < max_calldata {
            crate::tx_circuit::rows::lemma_view_empty(b, max_txs, r);
        } else {
            let p = max_calldata - 1;
            let count = b.txs.len();
            crate::tx_circuit::rows::lemma_owner(b.txs, count, p);
            let o = crate::tx_circuit::rows::owner(b.txs, count, p);
            crate::tx_circuit::rows::lemma_view_calldata(b, max_txs, o.0, o.1);
            crate::tx_circuit::complete::lemma_calldata_fields(b, o.0, o.1);
            crate::tx_circuit::accounting::lemma_calldata_monotone(
                b.txs,
                (o.0 + 1) as nat,
                count,
            );
        }
    }
    lemma_eval_times(mark, body, t, challenges, r);
}

/// The row of the gas cost of the encoding of a message from the queue holds
/// zero: the table satisfies `l1_msg_gas_cost`.
pub proof fn theorem_l1_msg_gas_cost(
    c: &TxCircuitConfig,
    b: Batch,
    max_txs: nat,
    max_calldata: nat,
    end: nat,
    challenges: Seq<int>,
    r: int,
)
    requires
        valid(c, b, max_txs, max_calldata),
        messages_cost_nothing(b),
        0 <= r < table(c, b, max_txs, max_calldata, end).len(),
    ensures
        polys_hold(l1_msg_gas_cost(c), table(c, b, max_txs, max_calldata, end), challenges, r),
{
    let t = table(c, b, max_txs, max_calldata, end);
    lemma_table_size(c, b, max_txs, max_calldata, end);
    let n = t.len() as int;
    vstd::arithmetic::div_mod::lemma_small_mod(r as nat, n as nat);
    let v = wrapped_view(b, max_txs, max_calldata, n, r);
    lemma_row_kinds(c, b, max_txs, max_calldata, end, challenges, r, 0);
    lemma_stored(c, b, max_txs, max_calldata, end, challenges, r);
    lemma_copied(c, b, max_txs, max_calldata, end, challenges, r);
    let parts = seq![cell_at(c.tx_table.q_enable, 0), cell_at(c.is_l1_msg, 0)];
    let selector = and_expr(parts);
    assert forall|i: int| 0 <= i < parts.len() implies is_bit(
        eval(#[trigger] parts[i], t, challenges, r),
    ) by {}
    lemma_eval_and(parts, t, challenges, r);
    let condition = is_tag(c, TxFieldTag::TxDataGasCost, 0);
    let body = cell_at(c.tx_table.value, 0);
    if eval(selector, t, challenges, r) != 0 && v.tag == TxFieldTag::TxDataGasCost {
        assert(eval(parts[0], t, challenges, r) == 1);
        assert(eval(parts[1], t, challenges, r) == 1);
        reveal(valid);
        let place = lemma_header_row(b, max_txs, max_calldata, r);
        assert(b.all()[place.0].tx_type == TxType::L1Msg);
    }
    crate::tx_circuit::complete::lemma_vanishing(selector, condition, body, t, challenges, r);
    assert(l1_msg_gas_cost(c)[0].1 == times(selector, times(times(lit(1), condition), body)));
}

/// An enabled row looks its calldata up exactly if the stored condition says
/// so: the table satisfies `calldata_lookup_condition`.
pub proof fn theorem_calldata_lookup_condition(
    c: &TxCircuitConfig,
    b: Batch,
    max_txs: nat,
    max_calldata: nat,
    end: nat,
    challenges: Seq<int>,
    r: int,
)
    requires
        valid(c, b, max_txs, max_calldata),
        field_has_inverses(),
        crate::tx_circuit::found::padding_is_bare(b),
        0 <= r < table(c, b, max_txs, max_calldata, end).len(),
    ensures
        polys_hold(calldata_lookup_condition(c), table(c, b, max_txs, max_calldata, end), challenges, r),
{
    let t = table(c, b, max_txs, max_calldata, end);
    lemma_table_size(c, b, max_txs, max_calldata, end);
    let n = t.len() as int;
    vstd::arithmetic::div_mod::lemma_small_mod(r as nat, n as nat);
    let v = wrapped_view(b, max_txs, max_calldata, n, r);
    lemma_row_kinds(c, b, max_txs, max_calldata, end, challenges, r, 0);
    lemma_stored(c, b, max_txs, max_calldata, end, challenges, r);
    lemma_copied(c, b, max_txs, max_calldata, end, challenges, r);
    lemma_calldata_cells(c, b, max_txs, max_calldata, end, challenges, r, 0);
    let is_zero = is_zero_expr(cell_at(c.value_is_zero.value, 0), c.value_is_zero.value_inv, 0);
    let parts = seq![is_tag(c, TxFieldTag::CallDataLength, 0), not_expr(is_zero)];
    lemma_eval_not(is_zero, t, challenges, r);
    assert forall|i: int| 0 <= i < parts.len() implies is_bit(
        eval(#[trigger] parts[i], t, challenges, r),
    ) by {}
    lemma_eval_and(parts, t, challenges, r);
    let selector = cell_at(c.tx_table.q_enable, 0);
    if eval(selector, t, challenges, r) != 0 {
        if v.tag == TxFieldTag::CallDataLength {
            reveal(valid);
            let place = lemma_header_row(b, max_txs, max_calldata, r);
            let i = place.0;
            if i < b.txs.len() {
                assert(b.all()[i] == b.txs[i]);
                crate::tx_circuit::accounting::lemma_calldata_monotone(
                    b.txs,
                    (i + 1) as nat,
                    b.txs.len(),
                );
                assert(v.value <= b.calldata_len());
            } else {
                assert(b.all()[i] == b.padding[i - b.txs.len()]);
            }
            vstd::arithmetic::div_mod::lemma_small_mod(v.value as nat, modulus());
            if v.value != 0 {
                assert forall|i: int| 0 <= i < parts.len() implies eval(
                    #[trigger] parts[i],
                    t,
                    challenges,
                    r,
                ) == 1 by {}
            } else {
                assert(eval(parts[1], t, challenges, r) != 1);
            }
        } else {
            assert(eval(parts[0], t, challenges, r) != 1);
        }
    }
    lemma_single(
        calldata_lookup_condition(c),
        selector,
        and_expr(parts),
        cell_at(c.lookup_conditions.tx_calldata, 0),
        t,
        challenges,
        r,
    );
}

} // verus!
