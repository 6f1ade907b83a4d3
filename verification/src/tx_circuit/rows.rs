//! What each row of the table of a batch stands for.
//!
//! The rows of the table up to the end of the room for calldata are the rows
//! of what `view_at` says; the rows after them hold zeros.

use crate::field::finv_or_zero;
use crate::field::fsub;
use crate::gadgets::digit;
use crate::plonk::extended;
use crate::plonk::zero_row;
use crate::table::TxFieldTag;
use crate::tx_circuit::accounting::calldata_before;
use crate::tx_circuit::assign::bool_value;
use crate::tx_circuit::assign::lemma_row_cells;
use crate::tx_circuit::assign::row_cells;
use crate::tx_circuit::assign::RowView;
use crate::tx_circuit::batch::empty_calldata_view;
use crate::tx_circuit::batch::Batch;
use crate::tx_circuit::laws::fits;
use crate::tx_circuit::laws::laid;
use crate::tx_circuit::laws::lemma_laid;
use crate::tx_circuit::laws::lemma_table_calldata_row;
use crate::tx_circuit::laws::lemma_table_first_row;
use crate::tx_circuit::laws::lemma_table_header_row;
use crate::tx_circuit::laws::lemma_table_rows;
use crate::tx_circuit::synthesis::calldata_rows;
use crate::tx_circuit::synthesis::first_row;
use crate::tx_circuit::synthesis::headers;
use crate::tx_circuit::synthesis::lemma_calldata_len;
use crate::tx_circuit::synthesis::lemma_headers_len;
use crate::tx_circuit::synthesis::mark;
use crate::tx_circuit::synthesis::marked;
use crate::tx_circuit::synthesis::rows;
use crate::tx_circuit::synthesis::table;
use crate::tx_circuit::synthesis::zero_calldata_rows;
use crate::tx_circuit::TxCircuitConfig;
use crate::tx_circuit::TX_LEN;
use crate::witness::Transaction;
use crate::witness::TxType;
use vstd::prelude::*;

verus! {

/// The transaction and the position that the place `p` among the calldata of
/// the first `n` transactions belongs to.
pub open spec fn owner(txs: Seq<Transaction>, n: nat, p: int) -> (int, int)
    decreases n,
{
    if n == 0 {
        (0, 0)
    } else if p >= calldata_before(txs, (n - 1) as nat) {
        (n - 1, p - calldata_before(txs, (n - 1) as nat))
    } else {
        owner(txs, (n - 1) as nat, p)
    }
}

/// The owner of a place is a byte of a transaction, and the place is where
/// the byte lies.
pub proof fn lemma_owner(txs: Seq<Transaction>, n: nat, p: int)
    requires
        n <= txs.len(),
        0 <= p < calldata_before(txs, n),
    ensures
        0 <= owner(txs, n, p).0 < n,
        0 <= owner(txs, n, p).1 < txs[owner(txs, n, p).0].call_data@.len(),
        p == calldata_before(txs, owner(txs, n, p).0 as nat) + owner(txs, n, p).1,
    decreases n,
{
    if p < calldata_before(txs, (n - 1) as nat) {
        lemma_owner(txs, (n - 1) as nat, p);
    }
}

/// The byte `k` of the transaction `i` is the owner of its place.
pub proof fn lemma_owner_of(txs: Seq<Transaction>, n: nat, i: int, k: int)
    requires
        n <= txs.len(),
        0 <= i < n,
        0 <= k < txs[i].call_data@.len(),
    ensures
        owner(txs, n, calldata_before(txs, i as nat) + k) == (i, k),
    decreases n,
{
    if i < n - 1 {
        lemma_owner_of(txs, (n - 1) as nat, i, k);
        crate::tx_circuit::accounting::lemma_calldata_monotone(txs, (i + 1) as nat, (n - 1) as nat);
    }
}

/// What the row `r` of the table stands for: nothing, a field of the
/// header of a transaction, a byte of the calldata of a transaction, or
/// empty calldata.
#[verifier::opaque]
pub open spec fn view_at(b: Batch, max_txs: nat, r: int) -> RowView {
    if r <= 0 {
        b.sentinel_view()
    } else if r <= max_txs * TX_LEN {
        b.header_view((r - 1) / (TX_LEN as int), (r - 1) % (TX_LEN as int))
    } else if r - 1 - max_txs * TX_LEN < b.calldata_len() {
        let o = owner(b.txs, b.txs.len(), r - 1 - max_txs * TX_LEN);
        b.calldata_view(o.0, o.1)
    } else {
        empty_calldata_view()
    }
}

/// The rows of the table up to the end of the room for calldata are the
/// rows of what `view_at` says, but for the marks.
pub proof fn lemma_table_view(
    c: &TxCircuitConfig,
    b: Batch,
    max_txs: nat,
    max_calldata: nat,
    end: nat,
    r: int,
)
    requires
        fits(c, b, max_txs, max_calldata),
        0 <= r < 1 + max_txs * TX_LEN + max_calldata,
    ensures
        r < table(c, b, max_txs, max_calldata, end).len(),
        table(c, b, max_txs, max_calldata, end)[r].len() == c.width(),
        forall|col: int|
            0 <= col < c.width() && col != c.q_first.index && col != c.q_calldata_first.index && col
                != c.q_calldata_last.index ==> #[trigger] table(
                c,
                b,
                max_txs,
                max_calldata,
                end,
            )[r][col] == row_cells(c, zero_row(c.width()), view_at(b, max_txs, r))[col],
{
    reveal(view_at);
    let n = b.txs.len();
    let first = first_row(c, b);
    let h = headers(c, b, max_txs);
    let cd = calldata_rows(c, b, n);
    let z = zero_calldata_rows(c, (max_calldata - b.calldata_len()) as nat);
    lemma_table_rows(c, b, max_txs, max_calldata, end);
    lemma_headers_len(c, b, max_txs);
    lemma_calldata_len(c, b, n);
    lemma_laid(first, h, cd, z);
    assert(rows(c, b, max_calldata) == laid(first, h, cd, z));
    let hl = max_txs * TX_LEN;
    assert(hl >= 0) by (nonlinear_arith)
        requires
            hl == max_txs * TX_LEN,
    ;
    if r == 0 {
        lemma_table_first_row(c, b, max_txs, max_calldata, end);
        lemma_row_cells(c, zero_row(c.width()), b.sentinel_view());
    } else if r <= hl {
        let p = r - 1;
        let i = p / (TX_LEN as int);
        let j = p % (TX_LEN as int);
        assert(p == i * TX_LEN + j) by {
            vstd::arithmetic::div_mod::lemma_fundamental_div_mod(p, TX_LEN as int);
        }
        assert(0 <= i < max_txs) by (nonlinear_arith)
            requires
                0 <= p < max_txs * TX_LEN,
                p == i * TX_LEN + j,
                0 <= j < TX_LEN,
        ;
        lemma_table_header_row(c, b, max_txs, max_calldata, end, i, j);
    } else if r <= hl + cd.len() {
        let p = r - 1 - hl;
        lemma_owner(b.txs, n, p);
        let o = owner(b.txs, n, p);
        lemma_table_calldata_row(c, b, max_txs, max_calldata, end, o.0, o.1);
    } else {
        let p = r - 1 - hl - cd.len();
        assert(laid(first, h, cd, z)[1 + h.len() + cd.len() + p] == z[p]);
    }
}

/// The marks: the first row of the table, and the first and the last row of
/// calldata where the table has room for calldata, are marked, and no other
/// row is.
pub proof fn lemma_table_marks(
    c: &TxCircuitConfig,
    b: Batch,
    max_txs: nat,
    max_calldata: nat,
    end: nat,
    r: int,
)
    requires
        fits(c, b, max_txs, max_calldata),
        0 <= r < 1 + max_txs * TX_LEN + max_calldata,
    ensures
        r < table(c, b, max_txs, max_calldata, end).len(),
        table(c, b, max_txs, max_calldata, end)[r][c.q_first.index as int] == bool_value(r == 0),
        table(c, b, max_txs, max_calldata, end)[r][c.q_calldata_first.index as int] == bool_value(
            max_calldata > 0 && r == max_txs * TX_LEN + 1,
        ),
        table(c, b, max_txs, max_calldata, end)[r][c.q_calldata_last.index as int] == bool_value(
            max_calldata > 0 && r == max_txs * TX_LEN + max_calldata,
        ),
{
    let t0 = rows(c, b, max_calldata);
    let w = c.width();
    let hl = max_txs * TX_LEN;
    assert(hl >= 0) by (nonlinear_arith)
        requires
            hl == max_txs * TX_LEN,
    ;
    crate::tx_circuit::laws::lemma_rows_width(c, b, max_txs, max_calldata, r);
    crate::tx_circuit::laws::lemma_rows_width(c, b, max_txs, max_calldata, 0);
    lemma_unmarked(c, b, max_txs, max_calldata, r);
    let t = table(c, b, max_txs, max_calldata, end);
    if max_calldata > 0 {
        crate::tx_circuit::laws::lemma_rows_width(c, b, max_txs, max_calldata, hl + 1);
        crate::tx_circuit::laws::lemma_rows_width(c, b, max_txs, max_calldata, hl + max_calldata);
        let t1 = mark(t0, hl + 1, c.q_calldata_first.index as int);
        let t2 = mark(t1, hl + max_calldata, c.q_calldata_last.index as int);
        assert(t == extended(t2, w, end));
        assert(t[r] == t2[r]);
    } else {
        assert(t == extended(t0, w, end));
        assert(t[r] == t0[r]);
    }
}

/// Before the marks of the calldata are set, the first row of the table is
/// marked as the first, and no row is marked as the first or the last of
/// the calldata.
pub proof fn lemma_unmarked(c: &TxCircuitConfig, b: Batch, max_txs: nat, max_calldata: nat, r: int)
    requires
        fits(c, b, max_txs, max_calldata),
        0 <= r < 1 + max_txs * TX_LEN + max_calldata,
    ensures
        rows(c, b, max_calldata)[r][c.q_first.index as int] == bool_value(r == 0),
        rows(c, b, max_calldata)[r][c.q_calldata_first.index as int] == 0,
        rows(c, b, max_calldata)[r][c.q_calldata_last.index as int] == 0,
{
    let n = b.txs.len();
    let z0 = zero_row(c.width());
    let first = first_row(c, b);
    let h = headers(c, b, max_txs);
    let cd = calldata_rows(c, b, n);
    let z = zero_calldata_rows(c, (max_calldata - b.calldata_len()) as nat);
    lemma_headers_len(c, b, max_txs);
    lemma_calldata_len(c, b, n);
    lemma_laid(first, h, cd, z);
    assert(rows(c, b, max_calldata) == laid(first, h, cd, z));
    let hl = max_txs * TX_LEN;
    assert(hl >= 0) by (nonlinear_arith)
        requires
            hl == max_txs * TX_LEN,
    ;
    if r == 0 {
        lemma_row_cells(c, z0, b.sentinel_view());
    } else if r <= hl {
        let p = r - 1;
        let i = p / (TX_LEN as int);
        let j = p % (TX_LEN as int);
        assert(p == i * TX_LEN + j) by {
            vstd::arithmetic::div_mod::lemma_fundamental_div_mod(p, TX_LEN as int);
        }
        assert(0 <= i < max_txs) by (nonlinear_arith)
            requires
                0 <= p < max_txs * TX_LEN,
                p == i * TX_LEN + j,
                0 <= j < TX_LEN,
        ;
        crate::tx_circuit::synthesis::lemma_headers(c, b, max_txs, i, j);
        lemma_row_cells(c, z0, b.header_view(i, j));
        assert(laid(first, h, cd, z)[1 + p] == h[p]);
    } else if r <= hl + cd.len() {
        let p = r - 1 - hl;
        lemma_owner(b.txs, n, p);
        let o = owner(b.txs, n, p);
        crate::tx_circuit::synthesis::lemma_calldata(c, b, n, o.0, o.1);
        lemma_row_cells(c, z0, b.calldata_view(o.0, o.1));
        assert(laid(first, h, cd, z)[1 + h.len() + p] == cd[p]);
    } else {
        let p = r - 1 - hl - cd.len();
        assert(laid(first, h, cd, z)[1 + h.len() + cd.len() + p] == z[p]);
        lemma_row_cells(c, z0, empty_calldata_view());
    }
}

/// The rows after the room for calldata hold zeros.
pub proof fn lemma_table_tail(
    c: &TxCircuitConfig,
    b: Batch,
    max_txs: nat,
    max_calldata: nat,
    end: nat,
    r: int,
)
    requires
        fits(c, b, max_txs, max_calldata),
        1 + max_txs * TX_LEN + max_calldata <= r < end,
    ensures
        table(c, b, max_txs, max_calldata, end).len() == end,
        table(c, b, max_txs, max_calldata, end)[r] == zero_row(c.width()),
{
    lemma_table_rows(c, b, max_txs, max_calldata, end);
    let t0 = rows(c, b, max_calldata);
    let tm = marked(c, t0, max_txs, max_calldata);
    assert(tm.len() == t0.len());
}

/// The table has as many rows as the room for the transactions and for the
/// calldata takes, or as it was lengthened to.
pub proof fn lemma_table_len(c: &TxCircuitConfig, b: Batch, max_txs: nat, max_calldata: nat, end: nat)
    requires
        fits(c, b, max_txs, max_calldata),
    ensures
        table(c, b, max_txs, max_calldata, end).len() == (if end > 1 + max_txs * TX_LEN
            + max_calldata {
            end as int
        } else {
            1 + max_txs * TX_LEN + max_calldata
        }),
{
    lemma_table_rows(c, b, max_txs, max_calldata, end);
    let t0 = rows(c, b, max_calldata);
    let tm = marked(c, t0, max_txs, max_calldata);
    assert(tm.len() == t0.len());
}

/// The cells of the row `r` of the table hold what the row stands for, and the marks of
/// the first row and of the first and the last row of calldata are where they belong.
pub proof fn lemma_table_cells(
    c: &TxCircuitConfig,
    b: Batch,
    max_txs: nat,
    max_calldata: nat,
    end: nat,
    r: int,
)
    requires
        fits(c, b, max_txs, max_calldata),
        0 <= r < 1 + max_txs * TX_LEN + max_calldata,
    ensures
        r < table(c, b, max_txs, max_calldata, end).len(),
        ({
            let row = table(c, b, max_txs, max_calldata, end)[r];
            let v = view_at(b, max_txs, r);
            &&& row.len() == c.width()
            &&& row[c.tx_table.q_enable.index as int] == 1
            &&& row[c.tx_table.tx_id.index as int] == v.tx_id
            &&& row[c.tx_table.tag.index as int] == v.tag.spec_index() as int
            &&& row[c.tx_table.index.index as int] == v.index
            &&& row[c.tx_table.value.index as int] == v.value
            &&& forall|i: int|
                0 <= i < 5 ==> row[(#[trigger] c.tx_tag_bits.bits@[i]).index as int] == digit(
                    v.tag.spec_index(),
                    (4 - i) as nat,
                )
            &&& forall|i: int|
                0 <= i < 3 ==> row[(#[trigger] c.tx_type_bits.bits@[i]).index as int] == digit(
                    v.tx_type.spec_index(),
                    (2 - i) as nat,
                )
            &&& row[c.tx_type.index as int] == v.tx_type.spec_index() as int
            &&& row[c.rlp_tag.index as int] == v.rlp_tag.spec_index() as int
            &&& row[c.is_none.index as int] == bool_value(v.is_none)
            &&& row[c.tx_value_rlc.index as int] == v.be_bytes_rlc
            &&& row[c.tx_value_length.index as int] == v.be_bytes_length
            &&& row[c.block_num_unchanged.value_inv.index as int] == finv_or_zero(fsub(v.next_block_num, v.cur_block_num))
            &&& row[c.tx_nonce.index as int] == v.tx_nonce
            &&& row[c.block_num.index as int] == v.cur_block_num
            &&& row[c.num_all_txs_acc.index as int] == v.num_all_txs_acc
            &&& row[c.total_l1_popped_before.index as int] == v.total_l1_popped_before
            &&& row[c.lookup_conditions.tx_calldata.index as int] == bool_value(v.looks_up_calldata())
            &&& row[c.lookup_conditions.rlp_sign_tag.index as int] == bool_value(v.looks_up_sign_tag())
            &&& row[c.lookup_conditions.rlp_hash_tag.index as int] == bool_value(v.looks_up_hash_tag())
            &&& row[c.lookup_conditions.l1_msg_hash.index as int] == bool_value(v.looks_up_l1_msg_hash())
            &&& row[c.lookup_conditions.keccak.index as int] == bool_value(v.looks_up_keccak())
            &&& row[c.is_l1_msg.index as int] == bool_value(v.tx_type == TxType::L1Msg)
            &&& row[c.is_tag_block_num.index as int] == bool_value(v.tag == TxFieldTag::BlockNumber)
            &&& row[c.is_chain_id.index as int] == bool_value(v.tag == TxFieldTag::ChainID)
            &&& row[c.is_caller_address.index as int] == bool_value(v.tag == TxFieldTag::CallerAddress)
            &&& row[c.is_calldata.index as int] == bool_value(v.tag == TxFieldTag::CallData)
            &&& row[c.tx_id_is_zero.value_inv.index as int] == finv_or_zero(v.tx_id)
            &&& row[c.value_is_zero.value_inv.index as int] == finv_or_zero(v.value)
            &&& row[c.tx_id_unchanged.value_inv.index as int] == finv_or_zero(fsub(v.tx_id, v.tx_id_next))
            &&& row[c.is_final.index as int] == bool_value(v.is_final)
            &&& row[c.calldata_gas_cost_acc.index as int] == v.calldata_gas_cost_acc
            &&& row[c.calldata_rlc.index as int] == v.calldata_rlc
            &&& v.tag == TxFieldTag::CallData ==> row[c.calldata_byte.index as int] == v.value
            &&& v.tag != TxFieldTag::CallData ==> row[c.calldata_byte.index as int] == 0
            &&& row[c.is_padding_tx.index as int] == bool_value(v.is_padding_tx)
            &&& row[c.cum_num_txs.index as int] == v.cum_num_txs
            &&& row[c.num_txs.index as int] == v.num_txs
            &&& row[c.sv_address.index as int] == v.sv_address
            &&& row[c.q_first.index as int] == bool_value(r == 0)
            &&& row[c.q_calldata_first.index as int] == bool_value(
                max_calldata > 0 && r == max_txs * TX_LEN + 1,
            )
            &&& row[c.q_calldata_last.index as int] == bool_value(
                max_calldata > 0 && r == max_txs * TX_LEN + max_calldata,
            )
        }),
{
    lemma_table_view(c, b, max_txs, max_calldata, end, r);
    lemma_row_cells(c, zero_row(c.width()), view_at(b, max_txs, r));
    lemma_table_marks(c, b, max_txs, max_calldata, end, r);
}

/// What the rows stand for: the first row for nothing, the rows of the
/// headers for the fields of their transaction, the rows of the calldata for
/// the bytes of their transaction, and the rows after them for empty
/// calldata.
pub proof fn lemma_view_first(b: Batch, max_txs: nat)
    ensures
        view_at(b, max_txs, 0) == b.sentinel_view(),
{
    reveal(view_at);
}

/// The row at the place `j` of the header of the transaction `i` stands for
/// that field of that transaction.
pub proof fn lemma_view_header(b: Batch, max_txs: nat, i: int, j: int)
    requires
        0 <= i < max_txs,
        0 <= j < TX_LEN,
    ensures
        0 < 1 + i * TX_LEN + j <= max_txs * TX_LEN,
        view_at(b, max_txs, 1 + i * TX_LEN + j) == b.header_view(i, j),
{
    reveal(view_at);
    let p = i * TX_LEN + j;
    assert(0 <= p < max_txs * TX_LEN) by (nonlinear_arith)
        requires
            0 <= i < max_txs,
            0 <= j < TX_LEN,
            p == i * TX_LEN + j,
    ;
    vstd::arithmetic::div_mod::lemma_fundamental_div_mod_converse(p, TX_LEN as int, i, j);
}

/// A row among the headers is the row at a place of the header of a
/// transaction.
pub proof fn lemma_header_place(max_txs: nat, r: int) -> (place: (int, int))
    requires
        0 < r <= max_txs * TX_LEN,
    ensures
        0 <= place.0 < max_txs,
        0 <= place.1 < TX_LEN,
        r == 1 + place.0 * TX_LEN + place.1,
{
    let p = r - 1;
    let i = p / (TX_LEN as int);
    let j = p % (TX_LEN as int);
    assert(p == i * TX_LEN + j) by {
        vstd::arithmetic::div_mod::lemma_fundamental_div_mod(p, TX_LEN as int);
    }
    assert(0 <= i < max_txs) by (nonlinear_arith)
        requires
            0 <= p < max_txs * TX_LEN,
            p == i * TX_LEN + j,
            0 <= j < TX_LEN,
    ;
    (i, j)
}

/// The row of the byte `k` of the transaction `i` stands for that byte.
pub proof fn lemma_view_calldata(b: Batch, max_txs: nat, i: int, k: int)
    requires
        0 <= i < b.txs.len(),
        0 <= k < b.txs[i].call_data@.len(),
    ensures
        calldata_before(b.txs, i as nat) + k < b.calldata_len(),
        view_at(b, max_txs, 1 + max_txs * TX_LEN + calldata_before(b.txs, i as nat) + k)
            == b.calldata_view(i, k),
{
    reveal(view_at);
    lemma_owner_of(b.txs, b.txs.len(), i, k);
    crate::tx_circuit::accounting::lemma_calldata_monotone(b.txs, (i + 1) as nat, b.txs.len());
    assert(max_txs * TX_LEN >= 0) by (nonlinear_arith);
}

/// A row after the calldata of the transactions stands for empty calldata.
pub proof fn lemma_view_empty(b: Batch, max_txs: nat, r: int)
    requires
        1 + max_txs * TX_LEN + b.calldata_len() <= r,
    ensures
        view_at(b, max_txs, r) == empty_calldata_view(),
{
    reveal(view_at);
    assert(max_txs * TX_LEN >= 0) by (nonlinear_arith);
}

} // verus!
