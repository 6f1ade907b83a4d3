//! The table of a batch satisfies the gates of the circuit.
//!
//! Each theorem takes a gate and shows that each of its polynomials
//! evaluates to zero on each row of the table of a batch that the circuit
//! has room for.

use crate::expr::cell;
use crate::expr::cell_at;
use crate::expr::eval;
use crate::expr::lit;
use crate::expr::minus;
use crate::expr::plus;
use crate::expr::times;
use crate::expr::Column;
use crate::expr::Expr;
use crate::field::fadd;
use crate::field::finv;
use crate::field::finv_or_zero;
use crate::field::fmul;
use crate::field::fred;
use crate::field::fsub;
use crate::gadgets::is_zero_expr;
use crate::field::modulus;
use crate::gadgets::digit;
use crate::gadgets::halved;
use crate::gadgets::lemma_value_equals;
use crate::gadgets::pow2;
use crate::plonk::polys_hold;
use crate::semantics::is_bit;
use crate::semantics::lemma_eval_and;
use crate::semantics::lemma_eval_cell;
use crate::semantics::lemma_eval_lit;
use crate::semantics::lemma_eval_minus;
use crate::semantics::lemma_eval_not;
use crate::semantics::lemma_eval_plus;
use crate::semantics::lemma_eval_times;
use crate::semantics::lemma_requirement;
use crate::table::TxFieldTag;
use crate::tx_circuit::assign::RowView;
use crate::tx_circuit::accounting::calldata_before;
use crate::tx_circuit::accounting::next_with_calldata;
use crate::witness::byte_gas_cost;
use crate::witness::gas_cost;
use crate::witness::horner;
use crate::witness::Transaction;
use crate::tx_circuit::batch::header_tag;
use crate::tx_circuit::batch::Batch;
use crate::tx_circuit::gates::calldata_bytes;
use crate::tx_circuit::gates::calldata_init;
use crate::tx_circuit::gates::is_tag;
use crate::tx_circuit::gates::tx_id_starts;
use crate::tx_circuit::gates::tx_id_transition;
use crate::tx_circuit::laws::fits;
use crate::tx_circuit::rows::lemma_owner;
use crate::tx_circuit::rows::lemma_table_cells;
use crate::tx_circuit::rows::lemma_table_len;
use crate::tx_circuit::rows::lemma_table_tail;
use crate::tx_circuit::rows::owner;
use crate::tx_circuit::rows::view_at;
use crate::tx_circuit::synthesis::table;
use crate::tx_circuit::TxCircuitConfig;
use crate::tx_circuit::TX_LEN;
use crate::util::and_expr;
use crate::util::not_expr;
use crate::util::select_expr;
use crate::witness::ChallengeExprs;
use vstd::prelude::*;

verus! {

/// The batch is one that the circuit has room for: there is a header for at
/// least one transaction and a row for at least one byte of calldata, and
/// the calldata does not exceed the room for calldata.
#[verifier::opaque]
pub open spec fn valid(c: &TxCircuitConfig, b: Batch, max_txs: nat, max_calldata: nat) -> bool {
    &&& fits(c, b, max_txs, max_calldata)
    &&& c.expressions_ok()
    &&& max_txs >= 1
    &&& max_calldata >= 1
    &&& b.calldata_len() <= max_calldata
    &&& max_txs * TX_LEN + max_calldata + 1 < usize::MAX
}

/// Every element of the field but zero has an inverse. This holds because
/// the modulus is prime.
pub open spec fn field_has_inverses() -> bool {
    forall|x: int|
        fred(x) != 0 ==> 0 <= #[trigger] finv(x) < modulus() && fmul(x, finv(x)) == 1
}

/// The number of rows up to the end of the room for calldata.
pub open spec fn used(max_txs: nat, max_calldata: nat) -> int {
    1 + max_txs * TX_LEN + max_calldata
}

/// What the row that lies `r` rows after the first stands for, the rows
/// being taken cyclically: what `view_at` says for a row up to the end of
/// the room for calldata, and nothing for a row after it.
pub open spec fn wrapped_view(b: Batch, max_txs: nat, max_calldata: nat, n: int, r: int) -> RowView {
    let at = r % n;
    if at < used(max_txs, max_calldata) {
        view_at(b, max_txs, at)
    } else {
        b.sentinel_view()
    }
}

/// Whether the row that lies `r` rows after the first is enabled.
pub open spec fn enabled(max_txs: nat, max_calldata: nat, n: int, r: int) -> bool {
    r % n < used(max_txs, max_calldata)
}

/// Zero has no binary digit but zero.
pub proof fn lemma_digits_of_zero(k: nat)
    ensures
        halved(0, k) == 0,
        digit(0, k) == 0,
    decreases k,
{
    if k > 0 {
        lemma_digits_of_zero((k - 1) as nat);
    }
}

/// The kinds of row have numbers below 32, and the types of transaction
/// numbers below 8.
pub proof fn lemma_small_numbers()
    ensures
        pow2(5) == 32,
        pow2(3) == 8,
{
    reveal_with_fuel(pow2, 6);
}

/// The cells of the transaction table and the stored boolean `is_calldata`
/// on the row that lies `r + rotation` rows after the first, as queries on
/// the row `r` evaluate to them; and the indicator of each kind of row.
pub proof fn lemma_row_kind(
    c: &TxCircuitConfig,
    b: Batch,
    max_txs: nat,
    max_calldata: nat,
    end: nat,
    challenges: Seq<int>,
    r: int,
    rotation: int,
    tag: TxFieldTag,
)
    requires
        valid(c, b, max_txs, max_calldata),
        -1000 <= rotation <= 1000,
    ensures
        ({
            let t = table(c, b, max_txs, max_calldata, end);
            let n = t.len() as int;
            let v = wrapped_view(b, max_txs, max_calldata, n, r + rotation);
            let on = enabled(max_txs, max_calldata, n, r + rotation);
            &&& eval(cell_at(c.tx_table.q_enable, rotation), t, challenges, r) == (if on {
                1int
            } else {
                0int
            })
            &&& eval(cell_at(c.is_calldata, rotation), t, challenges, r) == (if on && v.tag
                == TxFieldTag::CallData {
                1int
            } else {
                0int
            })
            &&& eval(is_tag(c, tag, rotation), t, challenges, r) == (if v.tag == tag {
                1int
            } else {
                0int
            })
            &&& eval(cell_at(c.tx_table.tx_id, rotation), t, challenges, r) == fred(v.tx_id)
        }),
{
    reveal(valid);
    let t = table(c, b, max_txs, max_calldata, end);
    lemma_table_len(c, b, max_txs, max_calldata, end);
    let n = t.len() as int;
    let at = (r + rotation) % n;
    let v = wrapped_view(b, max_txs, max_calldata, n, r + rotation);
    lemma_small_numbers();
    lemma_eval_cell(c.tx_table.q_enable, rotation, t, challenges, r);
    lemma_eval_cell(c.is_calldata, rotation, t, challenges, r);
    lemma_eval_cell(c.tx_table.tx_id, rotation, t, challenges, r);
    if at < used(max_txs, max_calldata) {
        lemma_table_cells(c, b, max_txs, max_calldata, end, at);
    } else {
        lemma_table_tail(c, b, max_txs, max_calldata, end, at);
        assert forall|i: int| 0 <= i < 5 implies t[at][(#[trigger] c.tx_tag_bits.bits@[i]).index as int]
            == digit(0, (4 - i) as nat) by {
            lemma_digits_of_zero((4 - i) as nat);
        }
    }
    crate::tx_circuit::rows::lemma_view_first(b, max_txs);
    assert forall|i: int| 0 <= i < c.tx_tag_bits.bits@.len() implies cell(
        t,
        r + rotation,
        (#[trigger] c.tx_tag_bits.bits@[i]).index as int,
    ) == digit(v.tag.spec_index(), (c.tx_tag_bits.bits@.len() - 1 - i) as nat) by {
        assert(t[at][c.tx_tag_bits.bits@[i].index as int] == digit(
            v.tag.spec_index(),
            (4 - i) as nat,
        ));
    }
    lemma_value_equals(
        c.tx_tag_bits.bits@,
        v.tag.spec_index(),
        tag.spec_index(),
        rotation,
        t,
        challenges,
        r,
    );
}

/// The table has a first row, the rows of the headers, and at least one row
/// of calldata.
pub proof fn lemma_table_size(c: &TxCircuitConfig, b: Batch, max_txs: nat, max_calldata: nat, end: nat)
    requires
        valid(c, b, max_txs, max_calldata),
    ensures
        table(c, b, max_txs, max_calldata, end).len() >= used(max_txs, max_calldata),
        table(c, b, max_txs, max_calldata, end).len() == used(max_txs, max_calldata) || table(
            c,
            b,
            max_txs,
            max_calldata,
            end,
        ).len() == end,
        used(max_txs, max_calldata) >= 1 + TX_LEN + 1,
        max_txs * TX_LEN >= TX_LEN,
        used(max_txs, max_calldata) < usize::MAX,
        b.all().len() == max_txs,
        b.txs.len() <= max_txs,
        b.calldata_len() <= max_calldata,
        max_calldata >= 1,
{
    reveal(valid);
    lemma_table_len(c, b, max_txs, max_calldata, end);
    assert(max_txs * TX_LEN >= TX_LEN) by (nonlinear_arith)
        requires
            max_txs >= 1,
    ;
}

/// The mark of the first row of the table, as a query evaluates to it.
pub proof fn lemma_first_mark(
    c: &TxCircuitConfig,
    b: Batch,
    max_txs: nat,
    max_calldata: nat,
    end: nat,
    challenges: Seq<int>,
    r: int,
    rotation: int,
)
    requires
        valid(c, b, max_txs, max_calldata),
        -1000 <= rotation <= 1000,
    ensures
        eval(cell_at(c.q_first, rotation), table(c, b, max_txs, max_calldata, end), challenges, r)
            == (if (r + rotation) % (table(c, b, max_txs, max_calldata, end).len() as int) == 0 {
            1int
        } else {
            0int
        }),
{
    reveal(valid);
    let t = table(c, b, max_txs, max_calldata, end);
    lemma_table_len(c, b, max_txs, max_calldata, end);
    let n = t.len() as int;
    let at = (r + rotation) % n;
    lemma_eval_cell(c.q_first, rotation, t, challenges, r);
    if at < used(max_txs, max_calldata) {
        lemma_table_cells(c, b, max_txs, max_calldata, end, at);
    } else {
        lemma_table_tail(c, b, max_txs, max_calldata, end, at);
    }
}

/// The row after the first row of the table belongs to the first
/// transaction: the table satisfies `tx_id_starts`.
pub proof fn theorem_tx_id_starts(
    c: &TxCircuitConfig,
    b: Batch,
    max_txs: nat,
    max_calldata: nat,
    end: nat,
    challenges: Seq<int>,
    r: int,
)
    requires
        valid(c, b, max_txs, max_calldata),
        0 <= r < table(c, b, max_txs, max_calldata, end).len(),
    ensures
        polys_hold(tx_id_starts(c), table(c, b, max_txs, max_calldata, end), challenges, r),
{
    let t = table(c, b, max_txs, max_calldata, end);
    lemma_table_size(c, b, max_txs, max_calldata, end);
    let n = t.len() as int;
    let selector = cell_at(c.q_first, 0);
    let body = minus(cell_at(c.tx_table.tx_id, 1), lit(1));
    lemma_first_mark(c, b, max_txs, max_calldata, end, challenges, r, 0);
    vstd::arithmetic::div_mod::lemma_small_mod(r as nat, n as nat);
    if r == 0 {
        lemma_row_kind(c, b, max_txs, max_calldata, end, challenges, r, 1, TxFieldTag::Nonce);
        vstd::arithmetic::div_mod::lemma_small_mod(1, n as nat);
        crate::tx_circuit::rows::lemma_view_header(b, max_txs, 0, 0);
        lemma_header_fields(b, 0, 0);
        lemma_eval_lit(1, t, challenges, r);
        lemma_eval_minus(cell_at(c.tx_table.tx_id, 1), lit(1), t, challenges, r);
        let w = wrapped_view(b, max_txs, max_calldata, n, r + 1);
        assert((r + 1) % n == 1);
        assert(w == view_at(b, max_txs, 1));
        assert(w == b.header_view(0, 0));
        assert(w.tx_id == 1);
        assert(eval(cell_at(c.tx_table.tx_id, 1), t, challenges, r) == fred(w.tx_id));
        vstd::arithmetic::div_mod::lemma_small_mod(1, modulus());
        assert(fred(1) == 1);
        assert(eval(cell_at(c.tx_table.tx_id, 1), t, challenges, r) == 1);
        assert(eval(lit(1), t, challenges, r) == 1);
        assert(eval(body, t, challenges, r) == 0);
    }
    lemma_requirement(selector, lit(1), body, t, challenges, r);
    assert(tx_id_starts(c) =~= seq![("tx_id == 1", times(selector, times(lit(1), body)))]);
}

/// The cells that are computed once for each transaction on the row that
/// lies `r + rotation` rows after the first, as queries on the row `r`
/// evaluate to them.
pub proof fn lemma_meta_cells(
    c: &TxCircuitConfig,
    b: Batch,
    max_txs: nat,
    max_calldata: nat,
    end: nat,
    challenges: Seq<int>,
    r: int,
    rotation: int,
)
    requires
        valid(c, b, max_txs, max_calldata),
        -1000 <= rotation <= 1000,
    ensures
        ({
            let t = table(c, b, max_txs, max_calldata, end);
            let v = wrapped_view(b, max_txs, max_calldata, t.len() as int, r + rotation);
            &&& eval(cell_at(c.tx_type, rotation), t, challenges, r) == fred(
                v.tx_type.spec_index() as int,
            )
            &&& eval(cell_at(c.is_padding_tx, rotation), t, challenges, r) == fred(
                crate::tx_circuit::assign::bool_value(v.is_padding_tx),
            )
            &&& eval(cell_at(c.sv_address, rotation), t, challenges, r) == fred(v.sv_address)
            &&& eval(cell_at(c.block_num, rotation), t, challenges, r) == fred(v.cur_block_num)
            &&& eval(cell_at(c.total_l1_popped_before, rotation), t, challenges, r) == fred(
                v.total_l1_popped_before,
            )
            &&& eval(cell_at(c.num_txs, rotation), t, challenges, r) == fred(v.num_txs)
            &&& eval(cell_at(c.cum_num_txs, rotation), t, challenges, r) == fred(v.cum_num_txs)
            &&& eval(cell_at(c.num_all_txs_acc, rotation), t, challenges, r) == fred(
                v.num_all_txs_acc,
            )
        }),
{
    reveal(valid);
    let t = table(c, b, max_txs, max_calldata, end);
    lemma_table_len(c, b, max_txs, max_calldata, end);
    let n = t.len() as int;
    let at = (r + rotation) % n;
    lemma_eval_cell(c.tx_type, rotation, t, challenges, r);
    lemma_eval_cell(c.is_padding_tx, rotation, t, challenges, r);
    lemma_eval_cell(c.sv_address, rotation, t, challenges, r);
    lemma_eval_cell(c.block_num, rotation, t, challenges, r);
    lemma_eval_cell(c.total_l1_popped_before, rotation, t, challenges, r);
    lemma_eval_cell(c.num_txs, rotation, t, challenges, r);
    lemma_eval_cell(c.cum_num_txs, rotation, t, challenges, r);
    lemma_eval_cell(c.num_all_txs_acc, rotation, t, challenges, r);
    if at < used(max_txs, max_calldata) {
        lemma_table_cells(c, b, max_txs, max_calldata, end, at);
    } else {
        lemma_table_tail(c, b, max_txs, max_calldata, end, at);
    }
    crate::tx_circuit::rows::lemma_view_first(b, max_txs);
}

/// The rows of a header agree on what is computed once for the transaction,
/// carry its sequence number, and are of the kinds of the header in order.
pub proof fn lemma_header_fields(b: Batch, i: int, j: int)
    requires
        0 <= j < TX_LEN,
    ensures
        b.header_view(i, j).tx_id == i + 1,
        b.header_view(i, j).tag == header_tag(j as nat),
        b.header_view(i, j).tag != TxFieldTag::CallData,
        b.header_view(i, j).tag != TxFieldTag::Null,
        b.header_view(i, j).tag == TxFieldTag::Nonce <==> j == 0,
        b.header_view(i, j).tx_type == b.header_view(i, 0).tx_type,
        b.header_view(i, j).is_padding_tx == b.header_view(i, 0).is_padding_tx,
        b.header_view(i, j).sv_address == b.header_view(i, 0).sv_address,
        b.header_view(i, j).cur_block_num == b.header_view(i, 0).cur_block_num,
        b.header_view(i, j).total_l1_popped_before == b.header_view(i, 0).total_l1_popped_before,
        b.header_view(i, j).num_txs == b.header_view(i, 0).num_txs,
        b.header_view(i, j).cum_num_txs == b.header_view(i, 0).cum_num_txs,
        b.header_view(i, j).num_all_txs_acc == b.header_view(i, 0).num_all_txs_acc,
{
    reveal(Batch::header_view);
}

/// Two rows that follow one another: either the second is a row of
/// calldata; or it is the first row of a header, and its sequence number is
/// one more than that of the first; or the two carry the same sequence
/// number and agree on what is computed once for each transaction.
pub open spec fn follows(v: RowView, w: RowView) -> bool {
    ||| w.tag == TxFieldTag::CallData
    ||| w.tag == TxFieldTag::Nonce && w.tx_id == v.tx_id + 1
    ||| {
        &&& w.tag != TxFieldTag::Nonce
        &&& w.tx_id == v.tx_id
        &&& w.tx_type == v.tx_type
        &&& w.is_padding_tx == v.is_padding_tx
        &&& w.sv_address == v.sv_address
        &&& w.cur_block_num == v.cur_block_num
        &&& w.total_l1_popped_before == v.total_l1_popped_before
        &&& w.num_txs == v.num_txs
        &&& w.cum_num_txs == v.cum_num_txs
        &&& w.num_all_txs_acc == v.num_all_txs_acc
    }
}

/// The first row and each row of a header are, with the row after them, two
/// rows that follow one another, and the sequence number of such a row is
/// at most the number of headers.
pub proof fn lemma_adjacent(b: Batch, max_txs: nat, max_calldata: nat, n: int, r: int)
    requires
        b.all().len() == max_txs,
        max_txs >= 1,
        b.txs.len() <= max_txs,
        b.calldata_len() <= max_calldata,
        max_calldata >= 1,
        n >= used(max_txs, max_calldata),
        0 <= r <= max_txs * TX_LEN,
    ensures
        0 <= view_at(b, max_txs, r).tx_id <= max_txs,
        follows(view_at(b, max_txs, r), wrapped_view(b, max_txs, max_calldata, n, r + 1)),
        wrapped_view(b, max_txs, max_calldata, n, r + 1).tag == TxFieldTag::CallData ==> enabled(
            max_txs,
            max_calldata,
            n,
            r + 1,
        ),
{
    let hl = max_txs * TX_LEN;
    assert(hl >= TX_LEN) by (nonlinear_arith)
        requires
            hl == max_txs * TX_LEN,
            max_txs >= 1,
    ;
    let total = b.calldata_len() as int;
    let next = (r + 1) % n;
    if r + 1 < n {
        vstd::arithmetic::div_mod::lemma_small_mod((r + 1) as nat, n as nat);
    } else {
        vstd::arithmetic::div_mod::lemma_mod_self_0(n);
    }
    crate::tx_circuit::rows::lemma_view_first(b, max_txs);
    let v = view_at(b, max_txs, r);
    let w = wrapped_view(b, max_txs, max_calldata, n, r + 1);
    if r == 0 {
        crate::tx_circuit::rows::lemma_view_header(b, max_txs, 0, 0);
        lemma_header_fields(b, 0, 0);
    } else if r <= hl {
        let (i, j) = crate::tx_circuit::rows::lemma_header_place(max_txs, r);
        crate::tx_circuit::rows::lemma_view_header(b, max_txs, i, j);
        lemma_header_fields(b, i, j);
        if j < TX_LEN - 1 {
            crate::tx_circuit::rows::lemma_view_header(b, max_txs, i, j + 1);
            lemma_header_fields(b, i, j + 1);
        } else if i + 1 < max_txs {
            crate::tx_circuit::rows::lemma_view_header(b, max_txs, i + 1, 0);
            lemma_header_fields(b, i + 1, 0);
            assert(1 + (i + 1) * TX_LEN + 0 == r + 1) by (nonlinear_arith)
                requires
                    r == 1 + i * TX_LEN + j,
                    j == TX_LEN - 1,
            ;
        } else {
            assert(r == hl) by (nonlinear_arith)
                requires
                    r == 1 + i * TX_LEN + j,
                    j == TX_LEN - 1,
                    i == max_txs - 1,
                    hl == max_txs * TX_LEN,
            ;
            lemma_calldata_kind(b, max_txs, max_calldata, r + 1);
        }
    }
}

/// A row of the room for calldata is of the kind `CallData`, and its
/// sequence number is that of a transaction or zero.
pub proof fn lemma_calldata_kind(b: Batch, max_txs: nat, max_calldata: nat, r: int)
    requires
        b.txs.len() <= max_txs,
        max_txs * TX_LEN < r < used(max_txs, max_calldata),
    ensures
        view_at(b, max_txs, r).tag == TxFieldTag::CallData,
        0 <= view_at(b, max_txs, r).tx_id <= max_txs,
{
    let hl = max_txs * TX_LEN;
    let p = r - 1 - hl;
    if p < b.calldata_len() {
        reveal(crate::tx_circuit::batch::calldata_row_view);
        lemma_owner(b.txs, b.txs.len(), p);
        let o = owner(b.txs, b.txs.len(), p);
        crate::tx_circuit::rows::lemma_view_calldata(b, max_txs, o.0, o.1);
    } else {
        crate::tx_circuit::rows::lemma_view_empty(b, max_txs, r);
    }
}

/// A requirement of an equality holds on a row where its selector or its
/// condition evaluates to zero, or the two sides evaluate to the same.
pub proof fn lemma_equality(
    selector: Expr,
    condition: Expr,
    a: Expr,
    b: Expr,
    table: Seq<Seq<int>>,
    challenges: Seq<int>,
    row: int,
)
    requires
        eval(selector, table, challenges, row) == 0 || eval(condition, table, challenges, row) == 0
            || eval(a, table, challenges, row) == eval(b, table, challenges, row),
    ensures
        eval(
            times(selector, times(times(lit(1), condition), minus(a, b))),
            table,
            challenges,
            row,
        ) == 0,
{
    lemma_eval_lit(1, table, challenges, row);
    lemma_eval_times(lit(1), condition, table, challenges, row);
    lemma_eval_minus(a, b, table, challenges, row);
    lemma_requirement(selector, times(lit(1), condition), minus(a, b), table, challenges, row);
}

/// In the headers the sequence number rises by one from each header to the
/// next and stays within a header, and what is computed once for a
/// transaction is the same on all rows of its header: the table satisfies
/// `tx_id_transition`.
pub proof fn theorem_tx_id_transition(
    c: &TxCircuitConfig,
    b: Batch,
    max_txs: nat,
    max_calldata: nat,
    end: nat,
    challenges: Seq<int>,
    r: int,
)
    requires
        valid(c, b, max_txs, max_calldata),
        0 <= r < table(c, b, max_txs, max_calldata, end).len(),
    ensures
        polys_hold(tx_id_transition(c), table(c, b, max_txs, max_calldata, end), challenges, r),
{
    let t = table(c, b, max_txs, max_calldata, end);
    lemma_table_size(c, b, max_txs, max_calldata, end);
    let n = t.len() as int;
    vstd::arithmetic::div_mod::lemma_small_mod(r as nat, n as nat);
    let v = wrapped_view(b, max_txs, max_calldata, n, r);
    let w = wrapped_view(b, max_txs, max_calldata, n, r + 1);
    lemma_row_kind(c, b, max_txs, max_calldata, end, challenges, r, 0, TxFieldTag::Nonce);
    lemma_row_kind(c, b, max_txs, max_calldata, end, challenges, r, 1, TxFieldTag::Nonce);
    lemma_meta_cells(c, b, max_txs, max_calldata, end, challenges, r, 0);
    lemma_meta_cells(c, b, max_txs, max_calldata, end, challenges, r, 1);
    // The selector: the row is enabled, and neither it nor the next is a row
    // of calldata.
    let q_enable = cell_at(c.tx_table.q_enable, 0);
    let is_calldata = cell_at(c.is_calldata, 0);
    let next_is_calldata = cell_at(c.is_calldata, 1);
    let inputs = seq![q_enable, not_expr(is_calldata), not_expr(next_is_calldata)];
    let selector = and_expr(inputs);
    lemma_eval_not(is_calldata, t, challenges, r);
    lemma_eval_not(next_is_calldata, t, challenges, r);
    assert forall|i: int| 0 <= i < inputs.len() implies is_bit(
        eval(#[trigger] inputs[i], t, challenges, r),
    ) by {}
    lemma_eval_and(inputs, t, challenges, r);
    let on = eval(selector, t, challenges, r) == 1;
    if on {
        assert(eval(inputs[0], t, challenges, r) == 1);
        assert(eval(inputs[1], t, challenges, r) == 1);
        assert(eval(inputs[2], t, challenges, r) == 1);
        if r > max_txs * TX_LEN {
            lemma_calldata_kind(b, max_txs, max_calldata, r);
        }
        lemma_adjacent(b, max_txs, max_calldata, n, r);
    }
    // The conditions: the next row is the first of a header, or it is not.
    let first = is_tag(c, TxFieldTag::Nonce, 1);
    let other = not_expr(first);
    lemma_eval_not(first, t, challenges, r);
    let tx_id = cell_at(c.tx_table.tx_id, 0);
    let tx_id_next = cell_at(c.tx_table.tx_id, 1);
    lemma_eval_lit(1, t, challenges, r);
    if on && w.tag == TxFieldTag::Nonce {
        vstd::arithmetic::div_mod::lemma_small_mod(v.tx_id as nat, modulus());
        vstd::arithmetic::div_mod::lemma_small_mod((v.tx_id + 1) as nat, modulus());
    }
    lemma_equality(selector, first, tx_id_next, plus(tx_id, lit(1)), t, challenges, r);
    lemma_equality(selector, other, tx_id_next, tx_id, t, challenges, r);
    lemma_equality(selector, other, cell_at(c.tx_type, 1), cell_at(c.tx_type, 0), t, challenges, r);
    lemma_equality(
        selector,
        other,
        cell_at(c.is_padding_tx, 1),
        cell_at(c.is_padding_tx, 0),
        t,
        challenges,
        r,
    );
    lemma_equality(
        selector,
        other,
        cell_at(c.sv_address, 1),
        cell_at(c.sv_address, 0),
        t,
        challenges,
        r,
    );
    lemma_equality(selector, other, cell_at(c.block_num, 1), cell_at(c.block_num, 0), t, challenges, r);
    lemma_equality(
        selector,
        other,
        cell_at(c.total_l1_popped_before, 1),
        cell_at(c.total_l1_popped_before, 0),
        t,
        challenges,
        r,
    );
    lemma_equality(selector, other, cell_at(c.num_txs, 1), cell_at(c.num_txs, 0), t, challenges, r);
    lemma_equality(
        selector,
        other,
        cell_at(c.cum_num_txs, 1),
        cell_at(c.cum_num_txs, 0),
        t,
        challenges,
        r,
    );
    lemma_equality(
        selector,
        other,
        cell_at(c.num_all_txs_acc, 1),
        cell_at(c.num_all_txs_acc, 0),
        t,
        challenges,
        r,
    );
    let gate = tx_id_transition(c);
    assert(gate.len() == 10);
    assert forall|k: int| 0 <= k < gate.len() implies eval(#[trigger] gate[k].1, t, challenges, r)
        == 0 by {
        if k == 0 {
        } else if k == 1 {
        } else if k == 2 {
        } else if k == 3 {
        } else if k == 4 {
        } else if k == 5 {
        } else if k == 6 {
        } else if k == 7 {
        } else if k == 8 {
        } else {
        }
    }
}

/// The test for zero of a value whose inverse, or zero, is held beside it:
/// it evaluates to one where the value is zero and to zero where it is not.
pub proof fn lemma_is_zero(
    value: Expr,
    value_inv: Column,
    rotation: int,
    x: int,
    table: Seq<Seq<int>>,
    challenges: Seq<int>,
    row: int,
)
    requires
        field_has_inverses(),
        -1000 <= rotation <= 1000,
        eval(value, table, challenges, row) == fred(x),
        cell(table, row + rotation, value_inv.index as int) == fred(finv_or_zero(x)),
    ensures
        eval(is_zero_expr(value, value_inv, rotation), table, challenges, row) == (if fred(x) == 0 {
            1int
        } else {
            0int
        }),
{
    let p = modulus() as int;
    let inv = cell_at(value_inv, rotation);
    lemma_eval_cell(value_inv, rotation, table, challenges, row);
    lemma_eval_lit(1, table, challenges, row);
    lemma_eval_times(value, inv, table, challenges, row);
    lemma_eval_minus(lit(1), times(value, inv), table, challenges, row);
    if fred(x) == 0 {
    } else {
        // (x mod p) * inv(x) is x * inv(x) in the field.
        vstd::arithmetic::div_mod::lemma_small_mod(finv(x) as nat, modulus());
        vstd::arithmetic::div_mod::lemma_mul_mod_noop_left(x, finv(x), p);
        assert(fmul(fred(x), finv(x)) == fmul(x, finv(x)));
    }
}

/// What the row of a byte of calldata carries.
pub proof fn lemma_calldata_fields(b: Batch, i: int, k: int)
    requires
        0 <= i < b.txs.len(),
        0 <= k < b.txs[i].call_data@.len(),
    ensures
        ({
            let v = b.calldata_view(i, k);
            let data = b.txs[i].call_data@;
            &&& v.tx_id == i + 1
            &&& v.tag == TxFieldTag::CallData
            &&& v.index == k
            &&& v.value == data[k]
            &&& v.calldata_gas_cost_acc == gas_cost(data.take(k + 1))
            &&& v.calldata_rlc == horner(data.take(k + 1), b.keccak_input)
            &&& v.is_final == (k + 1 == data.len())
            &&& v.tx_id_next == (if k + 1 == data.len() {
                next_with_calldata(b.txs, (i + 1) as nat) as int
            } else {
                i + 1
            })
            &&& 0 <= v.calldata_gas_cost_acc <= 16 * (k + 1)
        }),
{
    reveal(crate::tx_circuit::batch::calldata_row_view);
    crate::witness::lemma_gas_cost_bound(b.txs[i].call_data@.take(k + 1));
}

/// The first transaction at or after a place that has calldata: the
/// transactions between the place and it have none; and if there is none,
/// no transaction at or after the place has calldata.
pub proof fn lemma_next_with_calldata(txs: Seq<Transaction>, from: nat)
    requires
        from <= txs.len(),
    ensures
        ({
            let m = next_with_calldata(txs, from);
            &&& m == 0 ==> calldata_before(txs, txs.len()) == calldata_before(txs, from)
            &&& m > 0 ==> from < m <= txs.len() && txs[m - 1].call_data@.len() > 0
                && calldata_before(txs, (m - 1) as nat) == calldata_before(txs, from)
        }),
    decreases txs.len() - from,
{
    if from < txs.len() && txs[from as int].call_data@.len() == 0 {
        lemma_next_with_calldata(txs, from + 1);
    }
}

/// The row after the row of a byte of calldata: it is the row of the next
/// byte of the transaction; or, after the last byte, the row of the first
/// byte of the next transaction that has calldata; or, if there is none, a
/// row of empty calldata or, where the calldata fills its room, a row that
/// belongs to no transaction. In each case its sequence number is the one
/// that the row of the byte announces.
pub proof fn lemma_calldata_adjacent(b: Batch, max_txs: nat, max_calldata: nat, n: int, i: int, k: int)
    requires
        b.all().len() == max_txs,
        b.txs.len() <= max_txs,
        b.calldata_len() <= max_calldata,
        max_calldata >= 1,
        n >= used(max_txs, max_calldata),
        0 <= i < b.txs.len(),
        0 <= k < b.txs[i].call_data@.len(),
    ensures
        ({
            let r = 1 + max_txs * TX_LEN + calldata_before(b.txs, i as nat) + k;
            let v = b.calldata_view(i, k);
            let w = wrapped_view(b, max_txs, max_calldata, n, r + 1);
            let data = b.txs[i].call_data@;
            &&& max_txs * TX_LEN < r < used(max_txs, max_calldata)
            &&& view_at(b, max_txs, r) == v
            &&& w.tx_id == v.tx_id_next
            &&& w.tx_id != 0 ==> r + 1 < used(max_txs, max_calldata)
            &&& k + 1 < data.len() ==> w == b.calldata_view(i, k + 1)
            &&& k + 1 == data.len() && w.tx_id != 0 ==> w == b.calldata_view(w.tx_id - 1, 0) && 0
                <= w.tx_id - 1 < b.txs.len() && b.txs[w.tx_id - 1].call_data@.len() > 0
            &&& k + 1 == data.len() ==> w.tx_id != v.tx_id
        }),
{
    let hl = max_txs * TX_LEN;
    assert(hl >= 0) by (nonlinear_arith)
        requires
            hl == max_txs * TX_LEN,
    ;
    let r = 1 + hl + calldata_before(b.txs, i as nat) + k;
    let data = b.txs[i].call_data@;
    let count = b.txs.len();
    crate::tx_circuit::accounting::lemma_calldata_monotone(b.txs, (i + 1) as nat, count);
    crate::tx_circuit::rows::lemma_view_calldata(b, max_txs, i, k);
    lemma_calldata_fields(b, i, k);
    if r + 1 < n {
        vstd::arithmetic::div_mod::lemma_small_mod((r + 1) as nat, n as nat);
    } else {
        vstd::arithmetic::div_mod::lemma_mod_self_0(n);
    }
    crate::tx_circuit::rows::lemma_view_first(b, max_txs);
    if k + 1 < data.len() {
        crate::tx_circuit::rows::lemma_view_calldata(b, max_txs, i, k + 1);
        lemma_calldata_fields(b, i, k + 1);
    } else {
        lemma_next_with_calldata(b.txs, (i + 1) as nat);
        let m = next_with_calldata(b.txs, (i + 1) as nat);
        if m > 0 {
            crate::tx_circuit::rows::lemma_view_calldata(b, max_txs, m - 1, 0);
            lemma_calldata_fields(b, m - 1, 0);
        } else if r + 1 < used(max_txs, max_calldata) {
            crate::tx_circuit::rows::lemma_view_empty(b, max_txs, r + 1);
        }
    }
}

/// The gas cost and the fingerprint of calldata up to a byte go on from
/// those up to the byte before it.
pub proof fn lemma_accumulators(data: Seq<u8>, base: int, k: int)
    requires
        0 <= k < data.len(),
    ensures
        gas_cost(data.take(k + 1)) == gas_cost(data.take(k)) + byte_gas_cost(data[k]),
        horner(data.take(k + 1), base) == fadd(fmul(horner(data.take(k), base), base), data[k] as int),
        gas_cost(data.take(0)) == 0,
        horner(data.take(0), base) == 0,
{
    assert(data.take(k + 1).drop_last() == data.take(k));
    assert(data.take(k + 1).last() == data[k]);
}

/// The cells of a row that speak of calldata, as queries evaluate to them on
/// the row that lies `r + rotation` rows after the first; the two tests for
/// zero; and the mark of the first row of the room for calldata.
pub proof fn lemma_calldata_cells(
    c: &TxCircuitConfig,
    b: Batch,
    max_txs: nat,
    max_calldata: nat,
    end: nat,
    challenges: Seq<int>,
    r: int,
    rotation: int,
)
    requires
        valid(c, b, max_txs, max_calldata),
        field_has_inverses(),
        -1000 <= rotation <= 1000,
    ensures
        ({
            let t = table(c, b, max_txs, max_calldata, end);
            let n = t.len() as int;
            let v = wrapped_view(b, max_txs, max_calldata, n, r + rotation);
            &&& eval(cell_at(c.tx_table.index, rotation), t, challenges, r) == fred(v.index)
            &&& eval(cell_at(c.tx_table.value, rotation), t, challenges, r) == fred(v.value)
            &&& eval(cell_at(c.calldata_gas_cost_acc, rotation), t, challenges, r) == fred(
                v.calldata_gas_cost_acc,
            )
            &&& eval(cell_at(c.calldata_rlc, rotation), t, challenges, r) == fred(v.calldata_rlc)
            &&& eval(cell_at(c.is_final, rotation), t, challenges, r) == (if v.is_final {
                1int
            } else {
                0int
            })
            &&& eval(
                is_zero_expr(
                    cell_at(c.value_is_zero.value, rotation),
                    c.value_is_zero.value_inv,
                    rotation,
                ),
                t,
                challenges,
                r,
            ) == (if fred(v.value) == 0 {
                1int
            } else {
                0int
            })
            &&& eval(
                is_zero_expr(
                    cell_at(c.tx_id_is_zero.value, rotation),
                    c.tx_id_is_zero.value_inv,
                    rotation,
                ),
                t,
                challenges,
                r,
            ) == (if fred(v.tx_id) == 0 {
                1int
            } else {
                0int
            })
            &&& eval(cell_at(c.q_calldata_first, rotation), t, challenges, r) == (if (r + rotation)
                % n == max_txs * TX_LEN + 1 {
                1int
            } else {
                0int
            })
        }),
{
    reveal(valid);
    let t = table(c, b, max_txs, max_calldata, end);
    lemma_table_len(c, b, max_txs, max_calldata, end);
    let n = t.len() as int;
    let at = (r + rotation) % n;
    let v = wrapped_view(b, max_txs, max_calldata, n, r + rotation);
    lemma_eval_cell(c.tx_table.index, rotation, t, challenges, r);
    lemma_eval_cell(c.tx_table.value, rotation, t, challenges, r);
    lemma_eval_cell(c.tx_table.tx_id, rotation, t, challenges, r);
    lemma_eval_cell(c.calldata_gas_cost_acc, rotation, t, challenges, r);
    lemma_eval_cell(c.calldata_rlc, rotation, t, challenges, r);
    lemma_eval_cell(c.is_final, rotation, t, challenges, r);
    lemma_eval_cell(c.q_calldata_first, rotation, t, challenges, r);
    if at < used(max_txs, max_calldata) {
        lemma_table_cells(c, b, max_txs, max_calldata, end, at);
    } else {
        lemma_table_tail(c, b, max_txs, max_calldata, end, at);
    }
    crate::tx_circuit::rows::lemma_view_first(b, max_txs);
    lemma_is_zero(
        cell_at(c.value_is_zero.value, rotation),
        c.value_is_zero.value_inv,
        rotation,
        v.value,
        t,
        challenges,
        r,
    );
    lemma_is_zero(
        cell_at(c.tx_id_is_zero.value, rotation),
        c.tx_id_is_zero.value_inv,
        rotation,
        v.tx_id,
        t,
        challenges,
        r,
    );
}

/// The gas that the byte of a row of calldata costs, as the selection by the
/// test for zero evaluates to it on the row that lies `r + rotation` rows
/// after the first.
pub proof fn lemma_byte_cost(
    c: &TxCircuitConfig,
    b: Batch,
    max_txs: nat,
    max_calldata: nat,
    end: nat,
    challenges: Seq<int>,
    r: int,
    rotation: int,
)
    requires
        valid(c, b, max_txs, max_calldata),
        field_has_inverses(),
        -1000 <= rotation <= 1000,
        0 <= wrapped_view(
            b,
            max_txs,
            max_calldata,
            table(c, b, max_txs, max_calldata, end).len() as int,
            r + rotation,
        ).value < 256,
    ensures
        eval(
            select_expr(
                is_zero_expr(
                    cell_at(c.value_is_zero.value, rotation),
                    c.value_is_zero.value_inv,
                    rotation,
                ),
                lit(4),
                lit(16),
            ),
            table(c, b, max_txs, max_calldata, end),
            challenges,
            r,
        ) == (if wrapped_view(
            b,
            max_txs,
            max_calldata,
            table(c, b, max_txs, max_calldata, end).len() as int,
            r + rotation,
        ).value == 0 {
            4int
        } else {
            16int
        }),
{
    let t = table(c, b, max_txs, max_calldata, end);
    let v = wrapped_view(b, max_txs, max_calldata, t.len() as int, r + rotation);
    lemma_calldata_cells(c, b, max_txs, max_calldata, end, challenges, r, rotation);
    vstd::arithmetic::div_mod::lemma_small_mod(v.value as nat, modulus());
    lemma_eval_lit(4, t, challenges, r);
    lemma_eval_lit(16, t, challenges, r);
    crate::util::lemma_select(
        is_zero_expr(cell_at(c.value_is_zero.value, rotation), c.value_is_zero.value_inv, rotation),
        lit(4),
        lit(16),
        t,
        challenges,
        r,
    );
}

/// The row of the first byte of the calldata of a transaction is at
/// position zero, and its accumulators hold the cost and the fingerprint of
/// that byte alone.
pub proof fn lemma_first_byte(b: Batch, i: int)
    requires
        0 <= i < b.txs.len(),
        0 < b.txs[i].call_data@.len(),
    ensures
        ({
            let v = b.calldata_view(i, 0);
            &&& v.index == 0
            &&& 0 <= v.value < 256
            &&& v.calldata_gas_cost_acc == (if v.value == 0 {
                4int
            } else {
                16int
            })
            &&& v.calldata_rlc == v.value
        }),
{
    lemma_calldata_fields(b, i, 0);
    lemma_accumulators(b.txs[i].call_data@, b.keccak_input, 0);
    let v = b.calldata_view(i, 0);
    crate::constraint_builder::lemma_fmul_zero(b.keccak_input);
    vstd::arithmetic::div_mod::lemma_small_mod(v.value as nat, modulus());
}

/// A row of the room for calldata that carries the sequence number of a
/// transaction is the row of a byte of that transaction.
pub proof fn lemma_calldata_row(b: Batch, max_txs: nat, max_calldata: nat, r: int) -> (place: (
    int,
    int,
))
    requires
        b.txs.len() <= max_txs,
        max_txs * TX_LEN < r < used(max_txs, max_calldata),
        view_at(b, max_txs, r).tx_id != 0,
    ensures
        0 <= place.0 < b.txs.len(),
        0 <= place.1 < b.txs[place.0].call_data@.len(),
        r == 1 + max_txs * TX_LEN + calldata_before(b.txs, place.0 as nat) + place.1,
        view_at(b, max_txs, r) == b.calldata_view(place.0, place.1),
{
    let p = r - 1 - max_txs * TX_LEN;
    if p < b.calldata_len() {
        lemma_owner(b.txs, b.txs.len(), p);
        let o = owner(b.txs, b.txs.len(), p);
        crate::tx_circuit::rows::lemma_view_calldata(b, max_txs, o.0, o.1);
        o
    } else {
        crate::tx_circuit::rows::lemma_view_empty(b, max_txs, r);
        (0, 0)
    }
}

/// The first row of the room for calldata, where it belongs to a
/// transaction, is the row of the first byte of its calldata: the table
/// satisfies `calldata_init`.
pub proof fn theorem_calldata_init(
    c: &TxCircuitConfig,
    b: Batch,
    max_txs: nat,
    max_calldata: nat,
    end: nat,
    challenges: Seq<int>,
    r: int,
)
    requires
        valid(c, b, max_txs, max_calldata),
        field_has_inverses(),
        0 <= r < table(c, b, max_txs, max_calldata, end).len(),
    ensures
        polys_hold(calldata_init(c), table(c, b, max_txs, max_calldata, end), challenges, r),
{
    let t = table(c, b, max_txs, max_calldata, end);
    lemma_table_size(c, b, max_txs, max_calldata, end);
    let n = t.len() as int;
    vstd::arithmetic::div_mod::lemma_small_mod(r as nat, n as nat);
    let v = wrapped_view(b, max_txs, max_calldata, n, r);
    lemma_calldata_cells(c, b, max_txs, max_calldata, end, challenges, r, 0);
    // The selector: the first row of the room, and a transaction's.
    let first = cell_at(c.q_calldata_first, 0);
    let no_tx = is_zero_expr(cell_at(c.tx_id_is_zero.value, 0), c.tx_id_is_zero.value_inv, 0);
    let inputs = seq![first, not_expr(no_tx)];
    let selector = and_expr(inputs);
    lemma_eval_not(no_tx, t, challenges, r);
    assert forall|i: int| 0 <= i < inputs.len() implies is_bit(
        eval(#[trigger] inputs[i], t, challenges, r),
    ) by {}
    lemma_eval_and(inputs, t, challenges, r);
    let on = eval(selector, t, challenges, r) == 1;
    let index = cell_at(c.tx_table.index, 0);
    let gas = cell_at(c.calldata_gas_cost_acc, 0);
    let cost = select_expr(
        is_zero_expr(cell_at(c.value_is_zero.value, 0), c.value_is_zero.value_inv, 0),
        lit(4),
        lit(16),
    );
    let rlc = cell_at(c.calldata_rlc, 0);
    let value = cell_at(c.tx_table.value, 0);
    lemma_eval_lit(0, t, challenges, r);
    if on {
        assert(eval(inputs[0], t, challenges, r) == 1);
        assert(eval(inputs[1], t, challenges, r) == 1);
        assert(r == max_txs * TX_LEN + 1);
        let (i, k) = lemma_calldata_row(b, max_txs, max_calldata, r);
        assert(k == 0);
        lemma_first_byte(b, i);
        lemma_byte_cost(c, b, max_txs, max_calldata, end, challenges, r, 0);
        vstd::arithmetic::div_mod::lemma_small_mod(v.value as nat, modulus());
        vstd::arithmetic::div_mod::lemma_small_mod(v.calldata_gas_cost_acc as nat, modulus());
    }
    lemma_eval_minus(index, lit(0), t, challenges, r);
    lemma_eval_minus(gas, cost, t, challenges, r);
    lemma_eval_minus(rlc, value, t, challenges, r);
    lemma_requirement(selector, lit(1), minus(index, lit(0)), t, challenges, r);
    lemma_requirement(selector, lit(1), minus(gas, cost), t, challenges, r);
    lemma_requirement(selector, lit(1), minus(rlc, value), t, challenges, r);
    let gate = calldata_init(c);
    assert(gate.len() == 3);
    assert forall|k: int| 0 <= k < gate.len() implies eval(#[trigger] gate[k].1, t, challenges, r)
        == 0 by {
        if k == 0 {
        } else if k == 1 {
        } else {
        }
    }
}

/// A requirement holds on a row where its selector, its condition or what
/// it requires to vanish evaluates to zero.
pub proof fn lemma_vanishing(
    selector: Expr,
    condition: Expr,
    body: Expr,
    table: Seq<Seq<int>>,
    challenges: Seq<int>,
    row: int,
)
    requires
        eval(selector, table, challenges, row) == 0 || eval(condition, table, challenges, row) == 0
            || eval(body, table, challenges, row) == 0,
    ensures
        eval(times(selector, times(times(lit(1), condition), body)), table, challenges, row) == 0,
{
    lemma_eval_lit(1, table, challenges, row);
    lemma_eval_times(lit(1), condition, table, challenges, row);
    lemma_requirement(selector, times(lit(1), condition), body, table, challenges, row);
}

/// The test whether the sequence number stays the same from a row of the
/// table to the next, as it evaluates on a row.
pub proof fn lemma_tx_id_unchanged(
    c: &TxCircuitConfig,
    b: Batch,
    max_txs: nat,
    max_calldata: nat,
    end: nat,
    challenges: Seq<int>,
    r: int,
)
    requires
        valid(c, b, max_txs, max_calldata),
        field_has_inverses(),
        0 <= r < used(max_txs, max_calldata),
        wrapped_view(
            b,
            max_txs,
            max_calldata,
            table(c, b, max_txs, max_calldata, end).len() as int,
            r + 1,
        ).tx_id == view_at(b, max_txs, r).tx_id_next,
        0 <= view_at(b, max_txs, r).tx_id < modulus(),
        0 <= view_at(b, max_txs, r).tx_id_next < modulus(),
    ensures
        eval(
            c.tx_id_unchanged.is_equal_expression,
            table(c, b, max_txs, max_calldata, end),
            challenges,
            r,
        ) == (if view_at(b, max_txs, r).tx_id == view_at(b, max_txs, r).tx_id_next {
            1int
        } else {
            0int
        }),
{
    let t = table(c, b, max_txs, max_calldata, end);
    lemma_table_size(c, b, max_txs, max_calldata, end);
    let n = t.len() as int;
    vstd::arithmetic::div_mod::lemma_small_mod(r as nat, n as nat);
    let v = view_at(b, max_txs, r);
    assert(v == wrapped_view(b, max_txs, max_calldata, n, r));
    lemma_row_kind(c, b, max_txs, max_calldata, end, challenges, r, 0, TxFieldTag::Nonce);
    lemma_row_kind(c, b, max_txs, max_calldata, end, challenges, r, 1, TxFieldTag::Nonce);
    let now = cell_at(c.tx_table.tx_id, 0);
    let next = cell_at(c.tx_table.tx_id, 1);
    lemma_eval_minus(now, next, t, challenges, r);
    vstd::arithmetic::div_mod::lemma_small_mod(v.tx_id as nat, modulus());
    vstd::arithmetic::div_mod::lemma_small_mod(v.tx_id_next as nat, modulus());
    let x = fsub(v.tx_id, v.tx_id_next);
    assert(eval(minus(now, next), t, challenges, r) == x);
    vstd::arithmetic::div_mod::lemma_small_mod(x as nat, modulus());
    crate::constraint_builder::lemma_fsub_zero(v.tx_id, v.tx_id_next);
    lemma_eval_cell(c.tx_id_unchanged.value_inv, 0, t, challenges, r);
    reveal(valid);
    lemma_table_cells(c, b, max_txs, max_calldata, end, r);
    lemma_is_zero(minus(now, next), c.tx_id_unchanged.value_inv, 0, x, t, challenges, r);
}

/// On the rows of the calldata of a transaction the position rises by one
/// and the accumulators go on up to the final byte, and after the final byte
/// the calldata of another transaction starts anew: the table satisfies
/// `calldata_bytes`.
pub proof fn theorem_calldata_bytes(
    c: &TxCircuitConfig,
    ch: &ChallengeExprs,
    b: Batch,
    max_txs: nat,
    max_calldata: nat,
    end: nat,
    challenges: Seq<int>,
    r: int,
)
    requires
        valid(c, b, max_txs, max_calldata),
        field_has_inverses(),
        ch.keccak_input == Expr::Challenge(1),
        challenges.len() >= 2,
        challenges[1] == b.keccak_input,
        0 <= r < table(c, b, max_txs, max_calldata, end).len(),
    ensures
        polys_hold(calldata_bytes(c, ch), table(c, b, max_txs, max_calldata, end), challenges, r),
{
    let t = table(c, b, max_txs, max_calldata, end);
    lemma_table_size(c, b, max_txs, max_calldata, end);
    let n = t.len() as int;
    vstd::arithmetic::div_mod::lemma_small_mod(r as nat, n as nat);
    let v = wrapped_view(b, max_txs, max_calldata, n, r);
    let w = wrapped_view(b, max_txs, max_calldata, n, r + 1);
    lemma_row_kind(c, b, max_txs, max_calldata, end, challenges, r, 0, TxFieldTag::CallData);
    lemma_calldata_cells(c, b, max_txs, max_calldata, end, challenges, r, 0);
    lemma_calldata_cells(c, b, max_txs, max_calldata, end, challenges, r, 1);
    // The selector: an enabled row of calldata of a transaction.
    let q_enable = cell_at(c.tx_table.q_enable, 0);
    let is_calldata = cell_at(c.is_calldata, 0);
    let no_tx = is_zero_expr(cell_at(c.tx_id_is_zero.value, 0), c.tx_id_is_zero.value_inv, 0);
    let inputs = seq![q_enable, is_calldata, not_expr(no_tx)];
    let selector = and_expr(inputs);
    lemma_eval_not(no_tx, t, challenges, r);
    assert forall|i: int| 0 <= i < inputs.len() implies is_bit(
        eval(#[trigger] inputs[i], t, challenges, r),
    ) by {}
    lemma_eval_and(inputs, t, challenges, r);
    let on = eval(selector, t, challenges, r) == 1;
    // The conditions: the byte is not the final one; it is; it is, and the
    // next row is a transaction's.
    let is_final = cell_at(c.is_final, 0);
    let going_on = not_expr(is_final);
    lemma_eval_not(is_final, t, challenges, r);
    let no_next = is_zero_expr(cell_at(c.tx_id_is_zero.value, 1), c.tx_id_is_zero.value_inv, 1);
    let restart_inputs = seq![is_final, not_expr(no_next)];
    let restart = and_expr(restart_inputs);
    lemma_eval_not(no_next, t, challenges, r);
    assert forall|i: int| 0 <= i < restart_inputs.len() implies is_bit(
        eval(#[trigger] restart_inputs[i], t, challenges, r),
    ) by {}
    lemma_eval_and(restart_inputs, t, challenges, r);
    let index = cell_at(c.tx_table.index, 0);
    let index_next = cell_at(c.tx_table.index, 1);
    let same = c.tx_id_unchanged.is_equal_expression;
    let gas = cell_at(c.calldata_gas_cost_acc, 0);
    let gas_next = cell_at(c.calldata_gas_cost_acc, 1);
    let cost_next = select_expr(
        is_zero_expr(cell_at(c.value_is_zero.value, 1), c.value_is_zero.value_inv, 1),
        lit(4),
        lit(16),
    );
    let rlc = cell_at(c.calldata_rlc, 0);
    let rlc_next = cell_at(c.calldata_rlc, 1);
    let value_next = cell_at(c.tx_table.value, 1);
    lemma_eval_lit(0, t, challenges, r);
    lemma_eval_lit(1, t, challenges, r);
    if on {
        assert(eval(inputs[0], t, challenges, r) == 1);
        assert(eval(inputs[1], t, challenges, r) == 1);
        assert(eval(inputs[2], t, challenges, r) == 1);
        assert(v.tag == TxFieldTag::CallData);
        assert(fred(v.tx_id) != 0);
        crate::tx_circuit::rows::lemma_view_first(b, max_txs);
        if r <= max_txs * TX_LEN {
            let (i, j) = crate::tx_circuit::rows::lemma_header_place(max_txs, r);
            crate::tx_circuit::rows::lemma_view_header(b, max_txs, i, j);
            lemma_header_fields(b, i, j);
        }
        let (i, k) = lemma_calldata_row(b, max_txs, max_calldata, r);
        let data = b.txs[i].call_data@;
        lemma_calldata_fields(b, i, k);
        lemma_calldata_adjacent(b, max_txs, max_calldata, n, i, k);
        lemma_tx_id_unchanged(c, b, max_txs, max_calldata, end, challenges, r);
        if k + 1 < data.len() {
            lemma_calldata_fields(b, i, k + 1);
            lemma_accumulators(data, b.keccak_input, k + 1);
            lemma_byte_cost(c, b, max_txs, max_calldata, end, challenges, r, 1);
            lemma_eval_plus(index, lit(1), t, challenges, r);
            lemma_eval_plus(gas, cost_next, t, challenges, r);
            lemma_eval_times(rlc, ch.keccak_input, t, challenges, r);
            lemma_eval_plus(times(rlc, ch.keccak_input), value_next, t, challenges, r);
            vstd::arithmetic::div_mod::lemma_small_mod(v.index as nat, modulus());
            vstd::arithmetic::div_mod::lemma_small_mod(w.index as nat, modulus());
            vstd::arithmetic::div_mod::lemma_small_mod(v.calldata_gas_cost_acc as nat, modulus());
            vstd::arithmetic::div_mod::lemma_small_mod(w.calldata_gas_cost_acc as nat, modulus());
            vstd::arithmetic::div_mod::lemma_small_mod(w.value as nat, modulus());
            let h = v.calldata_rlc;
            let base = b.keccak_input;
            let p = modulus() as int;
            vstd::arithmetic::div_mod::lemma_mul_mod_noop_general(h, base, p);
            assert(fmul(fred(h), fred(base)) == fmul(h, base));
            assert(eval(ch.keccak_input, t, challenges, r) == fred(base));
            assert(w.calldata_rlc == fadd(fmul(h, base), w.value));
            vstd::arithmetic::div_mod::lemma_small_mod(w.calldata_rlc as nat, modulus());
            assert(eval(index_next, t, challenges, r) == eval(plus(index, lit(1)), t, challenges, r));
            assert(eval(same, t, challenges, r) == 1);
            assert(eval(gas_next, t, challenges, r) == eval(plus(gas, cost_next), t, challenges, r));
            assert(eval(rlc_next, t, challenges, r) == eval(
                plus(times(rlc, ch.keccak_input), value_next),
                t,
                challenges,
                r,
            ));
        } else {
            assert(eval(same, t, challenges, r) == 0);
            if w.tx_id != 0 {
                lemma_first_byte(b, w.tx_id - 1);
                lemma_byte_cost(c, b, max_txs, max_calldata, end, challenges, r, 1);
                vstd::arithmetic::div_mod::lemma_small_mod(w.value as nat, modulus());
                vstd::arithmetic::div_mod::lemma_small_mod(
                    w.calldata_gas_cost_acc as nat,
                    modulus(),
                );
            } else {
                assert(eval(restart, t, challenges, r) == 0);
            }
        }
    }
    crate::constraint_builder::lemma_boolean(is_final, t, challenges, r);
    lemma_requirement(selector, lit(1), crate::constraint_builder::boolean_poly(is_final), t, challenges, r);
    lemma_equality(selector, going_on, index_next, plus(index, lit(1)), t, challenges, r);
    lemma_equality(selector, going_on, same, lit(1), t, challenges, r);
    lemma_equality(selector, going_on, gas_next, plus(gas, cost_next), t, challenges, r);
    lemma_equality(
        selector,
        going_on,
        rlc_next,
        plus(times(rlc, ch.keccak_input), value_next),
        t,
        challenges,
        r,
    );
    lemma_vanishing(selector, is_final, same, t, challenges, r);
    lemma_equality(selector, restart, index_next, lit(0), t, challenges, r);
    lemma_equality(selector, restart, gas_next, cost_next, t, challenges, r);
    lemma_equality(selector, restart, rlc_next, value_next, t, challenges, r);
    let gate = calldata_bytes(c, ch);
    assert(gate.len() == 9);
    assert forall|k: int| 0 <= k < gate.len() implies eval(#[trigger] gate[k].1, t, challenges, r)
        == 0 by {
        if k == 0 {
        } else if k == 1 {
        } else if k == 2 {
        } else if k == 3 {
        } else if k == 4 {
        } else if k == 5 {
        } else if k == 6 {
        } else if k == 7 {
        } else {
        }
    }
}

} // verus!
