//! The rows of the table of a batch that look calldata up in the table find
//! it there.
//!
//! A header with calldata looks the gas cost and the length of the calldata
//! up on the row of the final byte, and the row of a final byte looks the
//! fingerprint up in the header. A row that looks nothing up reads zeros,
//! which the first row of the table holds.

use crate::expr::cell_at;
use crate::expr::eval;
use crate::expr::lit;
use crate::expr::minus;
use crate::field::fred;
use crate::field::modulus;
use crate::gadgets::is_zero_expr;
use crate::plonk::lookup_holds;
use crate::plonk::pairs_match;
use crate::semantics::is_bit;
use crate::semantics::lemma_eval_and;
use crate::semantics::lemma_eval_cell;
use crate::semantics::lemma_eval_lit;
use crate::semantics::lemma_eval_minus;
use crate::semantics::lemma_eval_not;
use crate::semantics::lemma_eval_times;
use crate::table::TxFieldTag;
use crate::tx_circuit::accounting::calldata_before;
use crate::tx_circuit::batch::Batch;
use crate::tx_circuit::complete::field_has_inverses;
use crate::tx_circuit::complete::lemma_calldata_cells;
use crate::tx_circuit::complete::lemma_calldata_fields;
use crate::tx_circuit::complete::lemma_calldata_row;
use crate::tx_circuit::complete::lemma_header_fields;
use crate::tx_circuit::complete::lemma_row_kind;
use crate::tx_circuit::complete::lemma_table_size;
use crate::tx_circuit::complete::used;
use crate::tx_circuit::complete::valid;
use crate::tx_circuit::complete::wrapped_view;
use crate::tx_circuit::lookups::calldata_final_present;
use crate::tx_circuit::lookups::calldata_gas_cost;
use crate::tx_circuit::lookups::calldata_rlc;
use crate::tx_circuit::rows::lemma_table_cells;
use crate::tx_circuit::rows::lemma_table_len;
use crate::tx_circuit::rows::lemma_table_tail;
use crate::tx_circuit::rows::view_at;
use crate::tx_circuit::synthesis::table;
use crate::tx_circuit::TxCircuitConfig;
use crate::tx_circuit::TX_LEN;
use crate::util::and_expr;
use crate::util::not_expr;
use crate::witness::gas_cost;
use crate::witness::horner;
use vstd::prelude::*;

verus! {

/// No transaction of the padding has calldata.
pub open spec fn padding_is_bare(b: Batch) -> bool {
    forall|k: int| 0 <= k < b.padding.len() ==> (#[trigger] b.padding[k]).call_data@.len() == 0
}

/// The rows of a header that speak of the calldata hold its fingerprint, its
/// length and its gas cost.
pub proof fn lemma_header_values(b: Batch, i: int)
    requires
        0 <= i < b.all().len(),
    ensures
        b.header_view(i, 7).value == horner(b.all()[i].call_data@, b.keccak_input),
        b.header_view(i, 8).value == b.all()[i].call_data@.len(),
        b.header_view(i, 9).value == gas_cost(b.all()[i].call_data@),
        b.header_view(i, 7).index == 0,
        !b.header_view(i, 7).is_final,
{
    reveal(Batch::header_view);
    reveal(crate::tx_circuit::batch::field_view);
}

/// The kind of a row and whether it looks its calldata up, as queries
/// evaluate to them on the row that lies `r + rotation` rows after the
/// first.
pub proof fn lemma_lookup_cells(
    c: &TxCircuitConfig,
    b: Batch,
    max_txs: nat,
    max_calldata: nat,
    end: nat,
    challenges: Seq<int>,
    r: int,
    rotation: int,
)
    requires
        valid(c, b, max_txs, max_calldata),
        -1000 <= rotation <= 1000,
    ensures
        ({
            let t = table(c, b, max_txs, max_calldata, end);
            let v = wrapped_view(b, max_txs, max_calldata, t.len() as int, r + rotation);
            &&& eval(cell_at(c.tx_table.tag, rotation), t, challenges, r) == v.tag.spec_index()
            &&& eval(cell_at(c.lookup_conditions.tx_calldata, rotation), t, challenges, r) == (if v.looks_up_calldata() {
                1int
            } else {
                0int
            })
        }),
{
    reveal(valid);
    let t = table(c, b, max_txs, max_calldata, end);
    lemma_table_len(c, b, max_txs, max_calldata, end);
    let n = t.len() as int;
    let at = (r + rotation) % n;
    let v = wrapped_view(b, max_txs, max_calldata, n, r + rotation);
    lemma_eval_cell(c.tx_table.tag, rotation, t, challenges, r);
    lemma_eval_cell(c.lookup_conditions.tx_calldata, rotation, t, challenges, r);
    if at < used(max_txs, max_calldata) {
        lemma_table_cells(c, b, max_txs, max_calldata, end, at);
    } else {
        lemma_table_tail(c, b, max_txs, max_calldata, end, at);
    }
    vstd::arithmetic::div_mod::lemma_small_mod(v.tag.spec_index(), modulus());
}

/// The row of the final byte of the calldata of a transaction: where it
/// lies, and that it carries the gas cost and the fingerprint of the whole
/// calldata.
pub proof fn lemma_final_row(b: Batch, max_txs: nat, max_calldata: nat, i: int) -> (at: int)
    requires
        b.calldata_len() <= max_calldata,
        max_calldata >= 1,
        0 <= i < b.txs.len(),
        0 < b.txs[i].call_data@.len(),
    ensures
        max_txs * TX_LEN < at < used(max_txs, max_calldata),
        b.txs[i].call_data@.len() <= b.calldata_len(),
        ({
            let v = view_at(b, max_txs, at);
            let data = b.txs[i].call_data@;
            &&& v.tx_id == i + 1
            &&& v.tag == TxFieldTag::CallData
            &&& v.index == data.len() - 1
            &&& v.calldata_gas_cost_acc == gas_cost(data)
            &&& v.calldata_rlc == horner(data, b.keccak_input)
            &&& v.is_final
        }),
{
    let data = b.txs[i].call_data@;
    let k = data.len() - 1;
    crate::tx_circuit::rows::lemma_view_calldata(b, max_txs, i, k);
    lemma_calldata_fields(b, i, k);
    assert(data.take(k + 1) =~= data);
    assert(max_txs * TX_LEN >= 0) by (nonlinear_arith);
    1 + max_txs * TX_LEN + calldata_before(b.txs, i as nat) + k
}

/// What the lookups of calldata read of a row of the table, as queries
/// evaluate to it on the row `at`.
pub proof fn lemma_reads(
    c: &TxCircuitConfig,
    b: Batch,
    max_txs: nat,
    max_calldata: nat,
    end: nat,
    challenges: Seq<int>,
    at: int,
)
    requires
        valid(c, b, max_txs, max_calldata),
        field_has_inverses(),
        0 <= at < used(max_txs, max_calldata),
    ensures
        ({
            let t = table(c, b, max_txs, max_calldata, end);
            let v = view_at(b, max_txs, at);
            &&& at < t.len()
            &&& eval(cell_at(c.tx_table.tx_id, 0), t, challenges, at) == fred(v.tx_id)
            &&& eval(cell_at(c.tx_table.tag, 0), t, challenges, at) == v.tag.spec_index()
            &&& eval(cell_at(c.tx_table.index, 0), t, challenges, at) == fred(v.index)
            &&& eval(cell_at(c.tx_table.value, 0), t, challenges, at) == fred(v.value)
            &&& eval(cell_at(c.calldata_gas_cost_acc, 0), t, challenges, at) == fred(
                v.calldata_gas_cost_acc,
            )
            &&& eval(cell_at(c.is_final, 0), t, challenges, at) == (if v.is_final {
                1int
            } else {
                0int
            })
        }),
{
    let t = table(c, b, max_txs, max_calldata, end);
    lemma_table_size(c, b, max_txs, max_calldata, end);
    vstd::arithmetic::div_mod::lemma_small_mod(at as nat, t.len());
    lemma_row_kind(c, b, max_txs, max_calldata, end, challenges, at, 0, TxFieldTag::Null);
    lemma_lookup_cells(c, b, max_txs, max_calldata, end, challenges, at, 0);
    lemma_calldata_cells(c, b, max_txs, max_calldata, end, challenges, at, 0);
}

/// A row that looks its calldata up is the row of the length of the
/// calldata in the header of a transaction that has calldata.
pub proof fn lemma_looking_row(b: Batch, max_txs: nat, max_calldata: nat, r: int) -> (i: int)
    requires
        b.all().len() == max_txs,
        b.txs.len() <= max_txs,
        padding_is_bare(b),
        0 <= r < used(max_txs, max_calldata),
        view_at(b, max_txs, r).looks_up_calldata(),
    ensures
        0 <= i < b.txs.len(),
        r == 1 + i * TX_LEN + 8,
        r + 1 <= max_txs * TX_LEN,
        view_at(b, max_txs, r).tx_id == i + 1,
        view_at(b, max_txs, r).value == b.txs[i].call_data@.len(),
        view_at(b, max_txs, r).value > 0,
        view_at(b, max_txs, r + 1).value == gas_cost(b.txs[i].call_data@),
{
    crate::tx_circuit::rows::lemma_view_first(b, max_txs);
    if r > max_txs * TX_LEN {
        crate::tx_circuit::complete::lemma_calldata_kind(b, max_txs, max_calldata, r);
    }
    let (i, j) = crate::tx_circuit::rows::lemma_header_place(max_txs, r);
    crate::tx_circuit::rows::lemma_view_header(b, max_txs, i, j);
    lemma_header_fields(b, i, j);
    assert(j == 8);
    crate::tx_circuit::rows::lemma_view_header(b, max_txs, i, 9);
    lemma_header_values(b, i);
    if i >= b.txs.len() {
        assert(b.all()[i] == b.padding[i - b.txs.len()]);
    }
    assert(b.all()[i] == b.txs[i]);
    i
}

/// A header with calldata finds the gas cost of its calldata on the row of
/// the final byte: each row of the table finds what `calldata_gas_cost` has
/// it look up.
pub proof fn theorem_calldata_gas_cost_found(
    c: &TxCircuitConfig,
    b: Batch,
    max_txs: nat,
    max_calldata: nat,
    end: nat,
    challenges: Seq<int>,
    r: int,
)
    requires
        valid(c, b, max_txs, max_calldata),
        field_has_inverses(),
        padding_is_bare(b),
        0 <= r < table(c, b, max_txs, max_calldata, end).len(),
    ensures
        lookup_holds(calldata_gas_cost(c), table(c, b, max_txs, max_calldata, end), challenges, r),
{
    let t = table(c, b, max_txs, max_calldata, end);
    lemma_table_size(c, b, max_txs, max_calldata, end);
    let n = t.len() as int;
    vstd::arithmetic::div_mod::lemma_small_mod(r as nat, n as nat);
    let v = wrapped_view(b, max_txs, max_calldata, n, r);
    lemma_row_kind(c, b, max_txs, max_calldata, end, challenges, r, 0, TxFieldTag::Null);
    lemma_lookup_cells(c, b, max_txs, max_calldata, end, challenges, r, 0);
    lemma_calldata_cells(c, b, max_txs, max_calldata, end, challenges, r, 1);
    let q_enable = cell_at(c.tx_table.q_enable, 0);
    let looks = cell_at(c.lookup_conditions.tx_calldata, 0);
    let parts = seq![q_enable, looks];
    let enable = and_expr(parts);
    assert forall|i: int| 0 <= i < parts.len() implies is_bit(
        eval(#[trigger] parts[i], t, challenges, r),
    ) by {}
    lemma_eval_and(parts, t, challenges, r);
    let on = eval(enable, t, challenges, r) == 1;
    let tx_id = cell_at(c.tx_table.tx_id, 0);
    let kind = lit(TxFieldTag::CallData.spec_index() as int);
    let cost = cell_at(c.tx_table.value, 1);
    lemma_eval_lit(24, t, challenges, r);
    lemma_eval_lit(1, t, challenges, r);
    lemma_eval_times(enable, tx_id, t, challenges, r);
    lemma_eval_times(enable, kind, t, challenges, r);
    lemma_eval_times(enable, cost, t, challenges, r);
    lemma_eval_times(enable, lit(1), t, challenges, r);
    let mut at: int = 0;
    if on {
        assert(eval(parts[0], t, challenges, r) == 1);
        assert(eval(parts[1], t, challenges, r) == 1);
        let i = lemma_looking_row(b, max_txs, max_calldata, r);
        vstd::arithmetic::div_mod::lemma_small_mod((r + 1) as nat, n as nat);
        at = lemma_final_row(b, max_txs, max_calldata, i);
    } else {
        crate::tx_circuit::rows::lemma_view_first(b, max_txs);
    }
    lemma_reads(c, b, max_txs, max_calldata, end, challenges, at);
    let pairs = calldata_gas_cost(c);
    assert(pairs.len() == 4);
    assert forall|k: int| 0 <= k < 4 implies eval(#[trigger] pairs[k].0, t, challenges, r) == eval(
        pairs[k].1,
        t,
        challenges,
        at,
    ) by {
        if k == 0 {
        } else if k == 1 {
        } else if k == 2 {
        } else {
        }
    }
    assert(pairs_match(pairs, pairs.len() as int, t, challenges, r, at));
}

/// A header with calldata finds the row of the final byte at the position
/// one below the length of the calldata: each row of the table finds what
/// `calldata_final_present` has it look up.
pub proof fn theorem_calldata_final_found(
    c: &TxCircuitConfig,
    b: Batch,
    max_txs: nat,
    max_calldata: nat,
    end: nat,
    challenges: Seq<int>,
    r: int,
)
    requires
        valid(c, b, max_txs, max_calldata),
        field_has_inverses(),
        padding_is_bare(b),
        0 <= r < table(c, b, max_txs, max_calldata, end).len(),
    ensures
        lookup_holds(
            calldata_final_present(c),
            table(c, b, max_txs, max_calldata, end),
            challenges,
            r,
        ),
{
    let t = table(c, b, max_txs, max_calldata, end);
    lemma_table_size(c, b, max_txs, max_calldata, end);
    let n = t.len() as int;
    vstd::arithmetic::div_mod::lemma_small_mod(r as nat, n as nat);
    let v = wrapped_view(b, max_txs, max_calldata, n, r);
    lemma_row_kind(c, b, max_txs, max_calldata, end, challenges, r, 0, TxFieldTag::Null);
    lemma_lookup_cells(c, b, max_txs, max_calldata, end, challenges, r, 0);
    lemma_calldata_cells(c, b, max_txs, max_calldata, end, challenges, r, 0);
    let q_enable = cell_at(c.tx_table.q_enable, 0);
    let looks = cell_at(c.lookup_conditions.tx_calldata, 0);
    let parts = seq![q_enable, looks];
    let enable = and_expr(parts);
    assert forall|i: int| 0 <= i < parts.len() implies is_bit(
        eval(#[trigger] parts[i], t, challenges, r),
    ) by {}
    lemma_eval_and(parts, t, challenges, r);
    let on = eval(enable, t, challenges, r) == 1;
    let tx_id = cell_at(c.tx_table.tx_id, 0);
    let kind = lit(TxFieldTag::CallData.spec_index() as int);
    let last = minus(cell_at(c.tx_table.value, 0), lit(1));
    lemma_eval_lit(24, t, challenges, r);
    lemma_eval_lit(1, t, challenges, r);
    lemma_eval_minus(cell_at(c.tx_table.value, 0), lit(1), t, challenges, r);
    lemma_eval_times(enable, tx_id, t, challenges, r);
    lemma_eval_times(enable, kind, t, challenges, r);
    lemma_eval_times(enable, last, t, challenges, r);
    lemma_eval_times(enable, lit(1), t, challenges, r);
    let mut at: int = 0;
    if on {
        assert(eval(parts[0], t, challenges, r) == 1);
        assert(eval(parts[1], t, challenges, r) == 1);
        let i = lemma_looking_row(b, max_txs, max_calldata, r);
        at = lemma_final_row(b, max_txs, max_calldata, i);
        reveal(valid);
        vstd::arithmetic::div_mod::lemma_small_mod(v.value as nat, modulus());
        vstd::arithmetic::div_mod::lemma_small_mod((v.value - 1) as nat, modulus());
    } else {
        crate::tx_circuit::rows::lemma_view_first(b, max_txs);
    }
    lemma_reads(c, b, max_txs, max_calldata, end, challenges, at);
    let pairs = calldata_final_present(c);
    assert(pairs.len() == 4);
    assert forall|k: int| 0 <= k < 4 implies eval(#[trigger] pairs[k].0, t, challenges, r) == eval(
        pairs[k].1,
        t,
        challenges,
        at,
    ) by {
        if k == 0 {
        } else if k == 1 {
        } else if k == 2 {
        } else {
        }
    }
    assert(pairs_match(pairs, pairs.len() as int, t, challenges, r, at));
}

/// The row of the final byte of the calldata of a transaction finds the
/// fingerprint of the calldata in the header of the transaction: each row of
/// the table finds what `calldata_rlc` has it look up.
pub proof fn theorem_calldata_rlc_found(
    c: &TxCircuitConfig,
    b: Batch,
    max_txs: nat,
    max_calldata: nat,
    end: nat,
    challenges: Seq<int>,
    r: int,
)
    requires
        valid(c, b, max_txs, max_calldata),
        field_has_inverses(),
        0 <= r < table(c, b, max_txs, max_calldata, end).len(),
    ensures
        lookup_holds(calldata_rlc(c), table(c, b, max_txs, max_calldata, end), challenges, r),
{
    let t = table(c, b, max_txs, max_calldata, end);
    lemma_table_size(c, b, max_txs, max_calldata, end);
    let n = t.len() as int;
    vstd::arithmetic::div_mod::lemma_small_mod(r as nat, n as nat);
    let v = wrapped_view(b, max_txs, max_calldata, n, r);
    lemma_row_kind(c, b, max_txs, max_calldata, end, challenges, r, 0, TxFieldTag::Null);
    lemma_calldata_cells(c, b, max_txs, max_calldata, end, challenges, r, 0);
    let q_enable = cell_at(c.tx_table.q_enable, 0);
    let is_calldata = cell_at(c.is_calldata, 0);
    let no_tx = is_zero_expr(cell_at(c.tx_id_is_zero.value, 0), c.tx_id_is_zero.value_inv, 0);
    let is_final = cell_at(c.is_final, 0);
    let parts = seq![q_enable, is_calldata, not_expr(no_tx), is_final];
    let enable = and_expr(parts);
    lemma_eval_not(no_tx, t, challenges, r);
    assert forall|i: int| 0 <= i < parts.len() implies is_bit(
        eval(#[trigger] parts[i], t, challenges, r),
    ) by {}
    lemma_eval_and(parts, t, challenges, r);
    let on = eval(enable, t, challenges, r) == 1;
    let tx_id = cell_at(c.tx_table.tx_id, 0);
    let kind = lit(TxFieldTag::CallDataRLC.spec_index() as int);
    let rlc = cell_at(c.calldata_rlc, 0);
    lemma_eval_lit(8, t, challenges, r);
    lemma_eval_times(tx_id, enable, t, challenges, r);
    lemma_eval_times(kind, enable, t, challenges, r);
    lemma_eval_times(rlc, enable, t, challenges, r);
    let mut at: int = 0;
    if on {
        assert(eval(parts[0], t, challenges, r) == 1);
        assert(eval(parts[1], t, challenges, r) == 1);
        assert(eval(parts[2], t, challenges, r) == 1);
        assert(eval(parts[3], t, challenges, r) == 1);
        crate::tx_circuit::rows::lemma_view_first(b, max_txs);
        if r <= max_txs * TX_LEN {
            let (i, j) = crate::tx_circuit::rows::lemma_header_place(max_txs, r);
            crate::tx_circuit::rows::lemma_view_header(b, max_txs, i, j);
            lemma_header_fields(b, i, j);
        }
        let (i, k) = lemma_calldata_row(b, max_txs, max_calldata, r);
        lemma_calldata_fields(b, i, k);
        let data = b.txs[i].call_data@;
        assert(data.take(k + 1) =~= data);
        crate::tx_circuit::rows::lemma_view_header(b, max_txs, i, 7);
        lemma_header_fields(b, i, 7);
        lemma_header_values(b, i);
        assert(b.all()[i] == b.txs[i]);
        at = 1 + i * TX_LEN + 7;
    } else {
        crate::tx_circuit::rows::lemma_view_first(b, max_txs);
    }
    lemma_reads(c, b, max_txs, max_calldata, end, challenges, at);
    let pairs = calldata_rlc(c);
    assert(pairs.len() == 3);
    assert forall|k: int| 0 <= k < 3 implies eval(#[trigger] pairs[k].0, t, challenges, r) == eval(
        pairs[k].1,
        t,
        challenges,
        at,
    ) by {
        if k == 0 {
        } else if k == 1 {
        } else {
        }
    }
    assert(pairs_match(pairs, pairs.len() as int, t, challenges, r, at));
}

} // verus!
