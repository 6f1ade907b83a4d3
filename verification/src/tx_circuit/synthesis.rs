//! The witness assignment: the table that a batch of transactions fills.
//!
//! The table starts with a row that stands for nothing. The headers of the
//! transactions and of the padding follow, then the calldata of the
//! transactions, then rows of empty calldata up to the room that the table
//! has for calldata, then empty rows.

use crate::field::Fe;
use crate::plonk::extended;
use crate::plonk::with_row;
use crate::plonk::zero_row;
use crate::plonk::Region;
use crate::table::TxFieldTag;
use crate::tx_circuit::accounting::calldata_before;
use crate::tx_circuit::accounting::find_next_with_calldata;
use crate::tx_circuit::assign::row_cells;
use crate::tx_circuit::assign::RowData;
use crate::tx_circuit::batch::calldata_row_view;
use crate::tx_circuit::batch::empty_calldata;
use crate::tx_circuit::batch::empty_calldata_view;
use crate::tx_circuit::batch::field_at;
use crate::tx_circuit::batch::field_view;
use crate::tx_circuit::batch::make_slot_row;
use crate::tx_circuit::batch::slot_row;
use crate::tx_circuit::batch::Batch;
use crate::tx_circuit::batch::TxSlot;
use crate::tx_circuit::TxCircuitConfig;
use crate::tx_circuit::TX_LEN;
use crate::witness::calldata_byte_gas_cost;
use crate::witness::gas_cost;
use crate::witness::horner;
use crate::witness::lemma_gas_cost_monotone;
use crate::witness::to_scalar;
use crate::witness::Challenges;
use crate::witness::RlpTag;
use crate::witness::SignData;
use crate::witness::Transaction;
use vstd::prelude::*;

verus! {

/// The row at the place `j` of the header of the transaction `i`.
pub open spec fn header_row(c: &TxCircuitConfig, b: Batch, i: int, j: int) -> Seq<int> {
    row_cells(c, zero_row(c.width()), b.header_view(i, j))
}

/// The rows of the header of the transaction `i`.
pub open spec fn header_block(c: &TxCircuitConfig, b: Batch, i: int) -> Seq<Seq<int>> {
    Seq::new(TX_LEN as nat, |j: int| header_row(c, b, i, j))
}

/// The rows of the headers of the first `n` transactions.
pub open spec fn headers(c: &TxCircuitConfig, b: Batch, n: nat) -> Seq<Seq<int>>
    decreases n,
{
    if n == 0 {
        Seq::empty()
    } else {
        headers(c, b, (n - 1) as nat) + header_block(c, b, n - 1)
    }
}

/// The row of the calldata byte `k` of the transaction `i`.
pub open spec fn calldata_row(c: &TxCircuitConfig, b: Batch, i: int, k: int) -> Seq<int> {
    row_cells(c, zero_row(c.width()), b.calldata_view(i, k))
}

/// The rows of the calldata of the transaction `i`.
pub open spec fn calldata_block(c: &TxCircuitConfig, b: Batch, i: int) -> Seq<Seq<int>> {
    Seq::new(b.txs[i].call_data@.len(), |k: int| calldata_row(c, b, i, k))
}

/// The rows of the calldata of the first `n` transactions.
pub open spec fn calldata_rows(c: &TxCircuitConfig, b: Batch, n: nat) -> Seq<Seq<int>>
    decreases n,
{
    if n == 0 {
        Seq::empty()
    } else {
        calldata_rows(c, b, (n - 1) as nat) + calldata_block(c, b, n - 1)
    }
}

/// The first row of the table: it stands for nothing and is marked as the
/// first.
pub open spec fn first_row(c: &TxCircuitConfig, b: Batch) -> Seq<int> {
    row_cells(c, zero_row(c.width()), b.sentinel_view()).update(c.q_first.index as int, 1)
}

/// A row of empty calldata: enabled, of the kind `CallData`, final, and
/// belonging to no transaction.
pub open spec fn zero_calldata_row(c: &TxCircuitConfig) -> Seq<int> {
    row_cells(c, zero_row(c.width()), empty_calldata_view())
}

/// A row of empty calldata has the width of the circuit, and it is enabled,
/// of the kind `CallData`, final, and belongs to no transaction.
pub proof fn lemma_zero_calldata_row(c: &TxCircuitConfig)
    requires
        c.well_formed(),
    ensures
        zero_calldata_row(c).len() == c.width(),
        zero_calldata_row(c)[c.tx_table.q_enable.index as int] == 1,
        zero_calldata_row(c)[c.tx_table.tx_id.index as int] == 0,
        zero_calldata_row(c)[c.tx_table.tag.index as int] == TxFieldTag::CallData.spec_index(),
        zero_calldata_row(c)[c.tx_table.index.index as int] == 0,
        zero_calldata_row(c)[c.tx_table.value.index as int] == 0,
        zero_calldata_row(c)[c.is_final.index as int] == 1,
        zero_calldata_row(c)[c.is_calldata.index as int] == 1,
        zero_calldata_row(c)[c.calldata_gas_cost_acc.index as int] == 0,
{
    crate::tx_circuit::assign::lemma_row_cells(c, zero_row(c.width()), empty_calldata_view());
}

/// `n` rows of empty calldata.
pub open spec fn zero_calldata_rows(c: &TxCircuitConfig, n: nat) -> Seq<Seq<int>> {
    Seq::new(n, |i: int| zero_calldata_row(c))
}

/// The rows of the table up to the end of the room for calldata, before the
/// first and the last row of calldata are marked.
pub open spec fn rows(c: &TxCircuitConfig, b: Batch, max_calldata: nat) -> Seq<Seq<int>> {
    seq![first_row(c, b)] + headers(c, b, b.all().len()) + calldata_rows(c, b, b.txs.len())
        + zero_calldata_rows(c, (max_calldata - b.calldata_len()) as nat)
}

/// The table `t` with the cell at `row`, `column` set to one.
pub open spec fn mark(t: Seq<Seq<int>>, row: int, column: int) -> Seq<Seq<int>> {
    t.update(row, t[row].update(column, 1))
}

/// The rows with the first and the last row of calldata marked, where the
/// table has room for calldata.
pub open spec fn marked(c: &TxCircuitConfig, t: Seq<Seq<int>>, max_txs: nat, max_calldata: nat) -> Seq<
    Seq<int>,
> {
    if max_calldata > 0 {
        mark(
            mark(t, max_txs * TX_LEN + 1, c.q_calldata_first.index as int),
            max_txs * TX_LEN + max_calldata,
            c.q_calldata_last.index as int,
        )
    } else {
        t
    }
}

/// The table of a batch: its rows, marked, and lengthened by empty rows to
/// `end` rows where it has fewer.
pub open spec fn table(
    c: &TxCircuitConfig,
    b: Batch,
    max_txs: nat,
    max_calldata: nat,
    end: nat,
) -> Seq<Seq<int>> {
    extended(marked(c, rows(c, b, max_calldata), max_txs, max_calldata), c.width(), end)
}

/// Writing a row at the end of a table appends it.
pub proof fn lemma_with_row_push(t: Seq<Seq<int>>, width: nat, row: Seq<int>)
    ensures
        with_row(t, width, t.len(), row) == t.push(row),
{
    assert(with_row(t, width, t.len(), row) =~= t.push(row));
}

/// The headers of `n` transactions take `TX_LEN` rows each, and the row at
/// the place `j` of the header of the transaction `i` is among them.
pub proof fn lemma_headers(c: &TxCircuitConfig, b: Batch, n: nat, i: int, j: int)
    requires
        0 <= i < n,
        0 <= j < TX_LEN,
    ensures
        headers(c, b, n).len() == n * TX_LEN,
        headers(c, b, n)[i * TX_LEN + j] == header_row(c, b, i, j),
    decreases n,
{
    lemma_headers_len(c, b, n);
    lemma_headers_len(c, b, (n - 1) as nat);
    if i < n - 1 {
        lemma_headers(c, b, (n - 1) as nat, i, j);
    }
}

/// The headers of `n` transactions take `TX_LEN` rows each.
pub proof fn lemma_headers_len(c: &TxCircuitConfig, b: Batch, n: nat)
    ensures
        headers(c, b, n).len() == n * TX_LEN,
    decreases n,
{
    if n > 0 {
        lemma_headers_len(c, b, (n - 1) as nat);
    }
}

/// The calldata of `n` transactions takes one row for each byte.
pub proof fn lemma_calldata_len(c: &TxCircuitConfig, b: Batch, n: nat)
    ensures
        calldata_rows(c, b, n).len() == calldata_before(b.txs, n),
    decreases n,
{
    if n > 0 {
        lemma_calldata_len(c, b, (n - 1) as nat);
    }
}

/// The row of the byte `k` of the transaction `i` is among the rows of the
/// calldata, after the rows of the transactions before it.
pub proof fn lemma_calldata(c: &TxCircuitConfig, b: Batch, n: nat, i: int, k: int)
    requires
        0 <= i < n,
        0 <= k < b.txs[i].call_data@.len(),
    ensures
        calldata_before(b.txs, i as nat) + k < calldata_rows(c, b, n).len(),
        calldata_rows(c, b, n)[calldata_before(b.txs, i as nat) + k] == calldata_row(c, b, i, k),
    decreases n,
{
    lemma_calldata_len(c, b, n);
    lemma_calldata_len(c, b, (n - 1) as nat);
    if i < n - 1 {
        lemma_calldata(c, b, (n - 1) as nat, i, k);
    } else {
        lemma_calldata_len(c, b, i as nat);
    }
}

impl TxCircuitConfig {
    /// Appends the rows of the header of a transaction.
    pub fn assign_header(
        &self,
        region: &mut Region,
        offset: &mut usize,
        tx: &Transaction,
        sig: &SignData,
        challenges: &Challenges,
        slot: &TxSlot,
    )
        requires
            self.well_formed(),
            old(region).wf(),
            old(region).width == self.width(),
            *old(offset) == old(region)@.len(),
            *old(offset) + TX_LEN < usize::MAX,
            slot.num_txs <= slot.cum_num_txs,
            gas_cost(tx.call_data@) <= u64::MAX,
        ensures
            final(region).wf(),
            final(region).width == old(region).width,
            *final(offset) == *old(offset) + TX_LEN,
            final(region)@ == old(region)@ + Seq::new(
                TX_LEN as nat,
                |j: int|
                    row_cells(
                        self,
                        zero_row(self.width()),
                        slot_row(
                            *tx,
                            field_view(
                                *tx,
                                *sig,
                                challenges.evm_word@,
                                challenges.keccak_input@,
                                j as nat,
                            ),
                            horner(sig.address@, 256),
                            slot@,
                            j as nat,
                        ),
                    ),
            ),
    {
        let sv_address = to_scalar(sig.get_addr().as_slice());
        let ghost f = |j: int|
            row_cells(
                self,
                zero_row(self.width()),
                slot_row(
                    *tx,
                    field_view(*tx, *sig, challenges.evm_word@, challenges.keccak_input@, j as nat),
                    horner(sig.address@, 256),
                    slot@,
                    j as nat,
                ),
            );
        let mut j: usize = 0;
        proof {
            assert(region@ =~= old(region)@ + Seq::new(0, f));
        }
        while j < TX_LEN
            invariant
                j <= TX_LEN,
                self.well_formed(),
                region.wf(),
                region.width == self.width(),
                region.width == old(region).width,
                *offset == old(region)@.len() + j,
                *old(offset) + TX_LEN < usize::MAX,
                *old(offset) == old(region)@.len(),
                slot.num_txs <= slot.cum_num_txs,
                gas_cost(tx.call_data@) <= u64::MAX,
                sv_address@ == horner(sig.address@, 256),
                f == |j: int|
                    row_cells(
                        self,
                        zero_row(self.width()),
                        slot_row(
                            *tx,
                            field_view(
                                *tx,
                                *sig,
                                challenges.evm_word@,
                                challenges.keccak_input@,
                                j as nat,
                            ),
                            horner(sig.address@, 256),
                            slot@,
                            j as nat,
                        ),
                    ),
                region@ == old(region)@ + Seq::new(j as nat, f),
            decreases TX_LEN - j,
        {
            let field = match field_at(tx, sig, challenges, j) {
                Some(field) => field,
                None => {
                    proof {
                        assert(false);
                    }
                    return ;
                },
            };
            let d = make_slot_row(tx, &field, sv_address, slot, j);
            let ghost before = region@;
            proof {
                assert(before.len() == *offset);
            }
            self.assign_row(region, offset, &d);
            proof {
                lemma_with_row_push(before, self.width(), row_cells(self, zero_row(self.width()), d@));
                assert(region@ =~= old(region)@ + Seq::new((j + 1) as nat, f));
            }
            j = j + 1;
        }
    }

    /// Appends the rows of the calldata of the transaction `i`.
    pub fn assign_calldata(
        &self,
        region: &mut Region,
        offset: &mut usize,
        txs: &Vec<Transaction>,
        i: usize,
        challenges: &Challenges,
    )
        requires
            self.well_formed(),
            old(region).wf(),
            old(region).width == self.width(),
            *old(offset) == old(region)@.len(),
            i < txs@.len(),
            *old(offset) + txs@[i as int].call_data@.len() < usize::MAX,
            gas_cost(txs@[i as int].call_data@) <= u64::MAX,
        ensures
            final(region).wf(),
            final(region).width == old(region).width,
            *final(offset) == *old(offset) + txs@[i as int].call_data@.len(),
            final(region)@ == old(region)@ + Seq::new(
                txs@[i as int].call_data@.len(),
                |k: int|
                    row_cells(
                        self,
                        zero_row(self.width()),
                        calldata_row_view(txs@, challenges.keccak_input@, i as int, k),
                    ),
            ),
    {
        let count = txs.len();
        let tx = &txs[i];
        let n = tx.call_data.len();
        let after = find_next_with_calldata(txs, i + 1);
        let ghost f = |k: int|
            row_cells(
                self,
                zero_row(self.width()),
                calldata_row_view(txs@, challenges.keccak_input@, i as int, k),
            );
        let mut gas: u64 = 0;
        let mut rlc = Fe::zero();
        let mut k: usize = 0;
        proof {
            assert(region@ =~= old(region)@ + Seq::new(0, f));
            assert(tx.call_data@.take(0) =~= Seq::<u8>::empty());
        }
        while k < n
            invariant
                k <= n,
                n == tx.call_data@.len(),
                i < txs@.len(),
                i < count,
                *tx == txs@[i as int],
                after == crate::tx_circuit::accounting::next_with_calldata(txs@, (i + 1) as nat),
                self.well_formed(),
                region.wf(),
                region.width == self.width(),
                region.width == old(region).width,
                *offset == old(region)@.len() + k,
                *old(offset) + n < usize::MAX,
                *old(offset) == old(region)@.len(),
                gas_cost(tx.call_data@) <= u64::MAX,
                gas == gas_cost(tx.call_data@.take(k as int)),
                rlc@ == horner(tx.call_data@.take(k as int), challenges.keccak_input@),
                f == |k: int|
                    row_cells(
                        self,
                        zero_row(self.width()),
                        calldata_row_view(txs@, challenges.keccak_input@, i as int, k),
                    ),
                region@ == old(region)@ + Seq::new(k as nat, f),
            decreases n - k,
        {
            let byte = tx.call_data[k];
            proof {
                assert(tx.call_data@.take(k + 1).drop_last() == tx.call_data@.take(k as int));
                lemma_gas_cost_monotone(tx.call_data@, (k + 1) as nat);
            }
            gas = gas + calldata_byte_gas_cost(byte);
            rlc = rlc.mul(&challenges.keccak_input).add(&Fe::from_u64(byte as u64));
            let last = k + 1 == n;
            let d = RowData {
                tx_type: tx.tx_type,
                tx_nonce: tx.nonce,
                tx_id: i + 1,
                tx_id_next: if last {
                    after
                } else {
                    i + 1
                },
                tag: TxFieldTag::CallData,
                index: k,
                value: Fe::from_u64(byte as u64),
                be_bytes_rlc: Fe::zero(),
                be_bytes_length: 0,
                rlp_tag: RlpTag::Null,
                is_none: false,
                is_padding_tx: false,
                cum_num_txs: 0,
                num_txs: 0,
                is_final: last,
                calldata_gas_cost_acc: gas,
                calldata_rlc: rlc,
                cur_block_num: 0,
                next_block_num: 0,
                num_all_txs_acc: 0,
                total_l1_popped_before: 0,
                sv_address: Fe::zero(),
            };
            let ghost before = region@;
            proof {
                reveal(calldata_row_view);
                assert(before.len() == *offset);
                assert(d@ == calldata_row_view(txs@, challenges.keccak_input@, i as int, k as int));
            }
            self.assign_row(region, offset, &d);
            proof {
                lemma_with_row_push(before, self.width(), row_cells(self, zero_row(self.width()), d@));
                assert(region@ =~= old(region)@ + Seq::new((k + 1) as nat, f));
            }
            k = k + 1;
        }
    }

    /// Appends rows of empty calldata up to the row `end`.
    pub fn assign_calldata_zeros(&self, region: &mut Region, start: usize, end: usize)
        requires
            self.well_formed(),
            old(region).wf(),
            old(region).width == self.width(),
            start == old(region)@.len(),
            start <= end < usize::MAX,
        ensures
            final(region).wf(),
            final(region).width == old(region).width,
            final(region)@ == old(region)@ + zero_calldata_rows(self, (end - start) as nat),
    {
        let mut offset: usize = start;
        proof {
            assert(region@ =~= old(region)@ + zero_calldata_rows(self, 0));
        }
        while offset < end
            invariant
                start <= offset <= end,
                end < usize::MAX,
                self.well_formed(),
                region.wf(),
                region.width == self.width(),
                region.width == old(region).width,
                start == old(region)@.len(),
                region@ == old(region)@ + zero_calldata_rows(self, (offset - start) as nat),
            decreases end - offset,
        {
            let ghost before = region@;
            let ghost at = offset;
            let d = empty_calldata();
            self.assign_row(region, &mut offset, &d);
            proof {
                lemma_with_row_push(before, self.width(), zero_calldata_row(self));
                assert(region@ =~= old(region)@ + zero_calldata_rows(
                    self,
                    (at + 1 - start) as nat,
                ));
            }
        }
    }

    /// Lengthens the table by empty rows, which are of the kind `Null`, up
    /// to the row `end`.
    pub fn assign_paddings(&self, region: &mut Region, start: usize, end: usize)
        requires
            self.well_formed(),
            old(region).wf(),
            old(region).width == self.width(),
            start == old(region)@.len(),
            end < usize::MAX,
        ensures
            final(region).wf(),
            final(region).width == old(region).width,
            final(region)@ == extended(old(region)@, self.width(), end as nat),
    {
        let mut offset: usize = start;
        proof {
            assert(region@ =~= extended(old(region)@, self.width(), start as nat));
        }
        while offset < end
            invariant
                start <= offset,
                offset <= end || offset == start,
                end < usize::MAX,
                self.well_formed(),
                region.wf(),
                region.width == self.width(),
                region.width == old(region).width,
                start == old(region)@.len(),
                region@ == extended(old(region)@, self.width(), offset as nat),
            decreases end - offset,
        {
            let ghost before = region@;
            region.assign(self.tx_table.tag, offset, Fe::from_u64(TxFieldTag::Null.index()));
            proof {
                let e = extended(before, self.width(), (offset + 1) as nat);
                assert(e[offset as int].update(self.tx_table.tag.index as int, 0) =~= e[offset as int]);
                assert(region@ =~= extended(old(region)@, self.width(), (offset + 1) as nat));
            }
            offset = offset + 1;
        }
        proof {
            assert(region@ =~= extended(old(region)@, self.width(), end as nat));
        }
    }
}

} // verus!
