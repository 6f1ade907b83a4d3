//! The assignment of the table of a batch, and what the circuit hands to the
//! circuits around it.

use crate::field::Fe;
use crate::plonk::assigned;
use crate::plonk::extended;
use crate::plonk::Region;
use crate::table::TxFieldTag;
use crate::tx_circuit::accounting::accounting_fits;
use crate::tx_circuit::accounting::calldata_before;
use crate::tx_circuit::accounting::cum_num_txs_in_block;
use crate::tx_circuit::accounting::find_next_with_calldata;
use crate::tx_circuit::accounting::lemma_calldata_monotone;
use crate::tx_circuit::accounting::lemma_counts;
use crate::tx_circuit::accounting::num_txs_in_block;
use crate::tx_circuit::accounting::popped_before;
use crate::tx_circuit::accounting::queue_accounting;
use crate::tx_circuit::accounting::total_calldata;
use crate::tx_circuit::accounting::QueueCount;
use crate::tx_circuit::assign::RowData;
use crate::tx_circuit::batch::Batch;
use crate::tx_circuit::batch::TxSlot;
use crate::tx_circuit::synthesis::calldata_block;
use crate::tx_circuit::synthesis::calldata_rows;
use crate::tx_circuit::synthesis::first_row;
use crate::tx_circuit::synthesis::header_block;
use crate::tx_circuit::synthesis::headers;
use crate::tx_circuit::synthesis::lemma_calldata_len;
use crate::tx_circuit::synthesis::lemma_headers_len;
use crate::tx_circuit::synthesis::lemma_with_row_push;
use crate::tx_circuit::synthesis::mark;
use crate::tx_circuit::synthesis::marked;
use crate::tx_circuit::synthesis::rows;
use crate::tx_circuit::synthesis::table;
use crate::tx_circuit::synthesis::zero_calldata_rows;
use crate::tx_circuit::TxCircuit;
use crate::tx_circuit::TxCircuitConfig;
use crate::tx_circuit::TX_LEN;
use crate::witness::calldata_gas_cost;
use crate::witness::copy_bytes;
use crate::witness::is_dummy;
use crate::witness::same_sign_data;
use crate::witness::Block;
use crate::witness::gas_cost;
use crate::witness::Challenges;
use crate::witness::Error;
use crate::witness::RlpTag;
use crate::witness::SignData;
use crate::witness::Transaction;
use crate::witness::TxType;
use vstd::prelude::*;

verus! {

/// The calldata of the batch fits the table: it does not exceed the room
/// for calldata, its gas cost fits 64 bits for every transaction and
/// padding, and the rows of the table can be counted.
pub open spec fn calldata_fits(
    txs: Seq<Transaction>,
    padding: Seq<Transaction>,
    max_txs: nat,
    max_calldata: nat,
) -> bool {
    &&& calldata_before(txs, txs.len()) <= max_calldata
    &&& forall|i: int|
        0 <= i < txs.len() + padding.len() ==> gas_cost(#[trigger] (txs + padding)[i].call_data@)
            <= u64::MAX
    &&& max_txs * TX_LEN + max_calldata + 1 < usize::MAX
}

/// Setting a cell of a row that the table has marks it.
pub proof fn lemma_assigned_mark(t: Seq<Seq<int>>, width: nat, row: nat, column: int)
    requires
        row < t.len(),
    ensures
        assigned(t, width, row, column, 1) == mark(t, row as int, column),
{
    assert(extended(t, width, row + 1) =~= t);
}

impl TxCircuit {
    /// The batch that the circuit assigns: its transactions, with the
    /// padding and what was recovered from the signatures.
    pub open spec fn batch(
        &self,
        challenges: &Challenges,
        start: u64,
        sigs: Seq<SignData>,
        padding: Seq<Transaction>,
    ) -> Batch {
        Batch {
            txs: self.txs@,
            padding,
            sigs,
            evm_word: challenges.evm_word@,
            keccak_input: challenges.keccak_input@,
            start: start as int,
        }
    }

    /// The number of rows that the table is lengthened to by empty rows:
    /// those of the circuit without those that the backend keeps for itself.
    pub open spec fn padding_end(&self, minimum_rows: usize) -> nat {
        if self.size < minimum_rows {
            0
        } else if self.size - minimum_rows == usize::MAX {
            (usize::MAX - 1) as nat
        } else {
            (self.size - minimum_rows) as nat
        }
    }

    /// Whether the calldata of the batch fits the table.
    pub fn check_calldata(&self, padding_txs: &Vec<Transaction>) -> (r: bool)
        requires
            self.txs@.len() + padding_txs@.len() == self.max_txs,
        ensures
            r == calldata_fits(
                self.txs@,
                padding_txs@,
                self.max_txs as nat,
                self.max_calldata as nat,
            ),
    {
        match total_calldata(&self.txs) {
            None => {
                return false;
            },
            Some(total) => {
                if total > self.max_calldata {
                    return false;
                }
            },
        }
        let n = self.txs.len();
        let mut i: usize = 0;
        while i < self.max_txs
            invariant
                i <= self.max_txs,
                n == self.txs@.len(),
                self.txs@.len() + padding_txs@.len() == self.max_txs,
                forall|k: int|
                    0 <= k < i ==> gas_cost(#[trigger] (self.txs@ + padding_txs@)[k].call_data@)
                        <= u64::MAX,
            decreases self.max_txs - i,
        {
            let tx = if i < n {
                &self.txs[i]
            } else {
                &padding_txs[i - n]
            };
            proof {
                assert(*tx == (self.txs@ + padding_txs@)[i as int]);
            }
            if calldata_gas_cost(&tx.call_data).is_none() {
                return false;
            }
            i = i + 1;
        }
        let rows_fit = match self.max_txs.checked_mul(TX_LEN) {
            Some(h) => match h.checked_add(self.max_calldata) {
                Some(s) => s < usize::MAX - 1,
                None => false,
            },
            None => false,
        };
        rows_fit
    }

    /// Writes the first row of the table.
    fn assign_first_row(
        config: &TxCircuitConfig,
        region: &mut Region,
        offset: &mut usize,
        Ghost(b): Ghost<Batch>,
        any: bool,
    )
        requires
            config.well_formed(),
            old(region).wf(),
            old(region).width == config.width(),
            old(region)@.len() == 0,
            *old(offset) == 0,
            any == (b.sigs.len() > 0),
        ensures
            final(region).wf(),
            final(region).width == old(region).width,
            *final(offset) == 1,
            final(region)@ == seq![first_row(config, b)],
    {
        let d = RowData {
            tx_type: TxType::Eip155,
            tx_nonce: 0,
            tx_id: 0,
            tx_id_next: if any {
                1
            } else {
                0
            },
            tag: TxFieldTag::Null,
            index: 0,
            value: Fe::zero(),
            be_bytes_rlc: Fe::zero(),
            be_bytes_length: 0,
            rlp_tag: RlpTag::Null,
            is_none: false,
            is_padding_tx: false,
            cum_num_txs: 0,
            num_txs: 0,
            is_final: false,
            calldata_gas_cost_acc: 0,
            calldata_rlc: Fe::zero(),
            cur_block_num: 0,
            next_block_num: 0,
            num_all_txs_acc: 0,
            total_l1_popped_before: 0,
            sv_address: Fe::zero(),
        };
        proof {
            assert(d@ == b.sentinel_view());
        }
        let ghost before = region@;
        config.assign_row(region, offset, &d);
        proof {
            lemma_with_row_push(
                before,
                config.width(),
                crate::tx_circuit::assign::row_cells(
                    config,
                    crate::plonk::zero_row(config.width()),
                    d@,
                ),
            );
        }
        let ghost mid = region@;
        region.assign(config.q_first, 0, Fe::one());
        proof {
            lemma_assigned_mark(mid, config.width(), 0, config.q_first.index as int);
            assert(region@ =~= seq![first_row(config, b)]);
        }
    }

    /// Appends the headers of the transactions and of the padding.
    fn assign_headers(
        &self,
        config: &TxCircuitConfig,
        region: &mut Region,
        offset: &mut usize,
        challenges: &Challenges,
        start: u64,
        sign_datas: &Vec<SignData>,
        padding_txs: &Vec<Transaction>,
        accounting: &Vec<QueueCount>,
    )
        requires
            config.well_formed(),
            old(region).wf(),
            old(region).width == config.width(),
            *old(offset) == old(region)@.len(),
            self.txs@.len() + padding_txs@.len() == self.max_txs,
            sign_datas@.len() == self.max_txs,
            *old(offset) + self.max_txs * TX_LEN + 1 < usize::MAX,
            accounting_fits(self.txs@, start as int, self.txs@.len()),
            accounting@.len() == self.txs@.len(),
            forall|i: nat|
                i < self.txs@.len() ==> (#[trigger] accounting@[i as int]).total_l1_popped_before
                    == popped_before(self.txs@, start as int, i) && accounting@[i as int].num_all_txs_acc
                    == crate::tx_circuit::accounting::num_all_txs_acc(self.txs@, start as int, i),
            forall|i: int|
                0 <= i < self.max_txs ==> gas_cost(
                    #[trigger] (self.txs@ + padding_txs@)[i].call_data@,
                ) <= u64::MAX,
        ensures
            final(region).wf(),
            final(region).width == old(region).width,
            *final(offset) == *old(offset) + self.max_txs * TX_LEN,
            final(region)@ == old(region)@ + headers(
                config,
                self.batch(challenges, start, sign_datas@, padding_txs@),
                self.max_txs as nat,
            ),
    {
        let ghost b = self.batch(challenges, start, sign_datas@, padding_txs@);
        let n = self.txs.len();
        let first_with_calldata = find_next_with_calldata(&self.txs, 0);
        let final_popped: u64 = if n == 0 {
            start
        } else if self.txs[n - 1].tx_type.is_l1_msg() {
            proof {
                assert(popped_before(self.txs@, start as int, (n - 1) as nat) <= u64::MAX);
            }
            self.txs[n - 1].nonce + 1
        } else {
            accounting[n - 1].total_l1_popped_before
        };
        proof {
            assert(region@ =~= old(region)@ + headers(config, b, 0));
            if n > 0 {
                assert(accounting@[(n - 1) as int].total_l1_popped_before == popped_before(
                    self.txs@,
                    start as int,
                    (n - 1) as nat,
                ));
            }
        }
        let mut i: usize = 0;
        while i < self.max_txs
            invariant
                i <= self.max_txs,
                n == self.txs@.len(),
                config.well_formed(),
                region.wf(),
                region.width == config.width(),
                region.width == old(region).width,
                *old(offset) == old(region)@.len(),
                *offset == region@.len(),
                *offset == *old(offset) + i * TX_LEN,
                *old(offset) + self.max_txs * TX_LEN + 1 < usize::MAX,
                self.txs@.len() + padding_txs@.len() == self.max_txs,
                sign_datas@.len() == self.max_txs,
                b == self.batch(challenges, start, sign_datas@, padding_txs@),
                first_with_calldata == crate::tx_circuit::accounting::next_with_calldata(
                    self.txs@,
                    0,
                ),
                final_popped == popped_before(self.txs@, start as int, n as nat),
                accounting@.len() == self.txs@.len(),
                forall|i: nat|
                    i < self.txs@.len() ==> (
                    #[trigger] accounting@[i as int]).total_l1_popped_before == popped_before(
                        self.txs@,
                        start as int,
                        i,
                    ) && accounting@[i as int].num_all_txs_acc
                        == crate::tx_circuit::accounting::num_all_txs_acc(
                        self.txs@,
                        start as int,
                        i,
                    ),
                forall|i: int|
                    0 <= i < self.max_txs ==> gas_cost(
                        #[trigger] (self.txs@ + padding_txs@)[i].call_data@,
                    ) <= u64::MAX,
                region@ == old(region)@ + headers(config, b, i as nat),
            decreases self.max_txs - i,
        {
            let genuine = i < n;
            let tx = if genuine {
                &self.txs[i]
            } else {
                &padding_txs[i - n]
            };
            let sig = &sign_datas[i];
            let last = i + 1 == self.max_txs;
            proof {
                assert(*tx == b.all()[i as int]);
                assert(*sig == b.sigs[i as int]);
                lemma_counts(self.txs@, tx.block_number, n as nat);
                assert(i * TX_LEN + TX_LEN <= self.max_txs * TX_LEN) by (nonlinear_arith)
                    requires
                        i < self.max_txs,
                ;
            }
            let slot = TxSlot {
                tx_id: i + 1,
                is_padding_tx: !genuine,
                cum_num_txs: if genuine {
                    cum_num_txs_in_block(&self.txs, tx.block_number)
                } else {
                    0
                },
                num_txs: if genuine {
                    num_txs_in_block(&self.txs, tx.block_number)
                } else {
                    0
                },
                num_all_txs_acc: if genuine {
                    accounting[i].num_all_txs_acc
                } else {
                    (i - n + 1) as u64
                },
                total_l1_popped_before: if genuine {
                    accounting[i].total_l1_popped_before
                } else {
                    final_popped
                },
                tx_id_after: if last {
                    first_with_calldata
                } else {
                    i + 2
                },
                next_block_num: if last {
                    0
                } else if i + 1 < n {
                    self.txs[i + 1].block_number
                } else {
                    padding_txs[0].block_number
                },
            };
            proof {
                assert(slot@ == b.slot(i as int));
                assert((self.txs@ + padding_txs@)[i as int] == *tx);
            }
            let ghost before = region@;
            config.assign_header(region, offset, tx, sig, challenges, &slot);
            proof {
                reveal(Batch::header_view);
                assert(region@ =~= before + header_block(config, b, i as int));
                assert(region@ =~= old(region)@ + headers(config, b, (i + 1) as nat));
                assert((i + 1) * TX_LEN == i * TX_LEN + TX_LEN) by (nonlinear_arith);
            }
            i = i + 1;
        }
    }

    /// Appends the calldata of the transactions.
    fn assign_all_calldata(
        &self,
        config: &TxCircuitConfig,
        region: &mut Region,
        offset: &mut usize,
        challenges: &Challenges,
        Ghost(b): Ghost<Batch>,
    )
        requires
            config.well_formed(),
            old(region).wf(),
            old(region).width == config.width(),
            *old(offset) == old(region)@.len(),
            b.txs == self.txs@,
            b.keccak_input == challenges.keccak_input@,
            *old(offset) + calldata_before(self.txs@, self.txs@.len()) < usize::MAX,
            forall|i: int|
                0 <= i < self.txs@.len() ==> gas_cost(#[trigger] self.txs@[i].call_data@)
                    <= u64::MAX,
        ensures
            final(region).wf(),
            final(region).width == old(region).width,
            *final(offset) == *old(offset) + calldata_before(self.txs@, self.txs@.len()),
            final(region)@ == old(region)@ + calldata_rows(config, b, self.txs@.len()),
    {
        let n = self.txs.len();
        proof {
            assert(region@ =~= old(region)@ + calldata_rows(config, b, 0));
        }
        let mut i: usize = 0;
        while i < n
            invariant
                i <= n,
                n == self.txs@.len(),
                config.well_formed(),
                region.wf(),
                region.width == config.width(),
                region.width == old(region).width,
                *old(offset) == old(region)@.len(),
                *offset == region@.len(),
                *offset == *old(offset) + calldata_before(self.txs@, i as nat),
                *old(offset) + calldata_before(self.txs@, self.txs@.len()) < usize::MAX,
                b.txs == self.txs@,
                b.keccak_input == challenges.keccak_input@,
                forall|i: int|
                    0 <= i < self.txs@.len() ==> gas_cost(#[trigger] self.txs@[i].call_data@)
                        <= u64::MAX,
                region@ == old(region)@ + calldata_rows(config, b, i as nat),
            decreases n - i,
        {
            proof {
                lemma_calldata_monotone(self.txs@, (i + 1) as nat, n as nat);
            }
            let ghost before = region@;
            config.assign_calldata(region, offset, &self.txs, i, challenges);
            proof {
                assert(region@ =~= before + calldata_block(config, b, i as int));
                assert(region@ =~= old(region)@ + calldata_rows(config, b, (i + 1) as nat));
            }
            i = i + 1;
        }
    }

    /// Assigns the table of the batch. It fails with `QueueIndex` exactly if
    /// the accounting of the queue does not fit, and with `TooMuchCalldata`
    /// exactly if that fits and the calldata does not.
    #[verifier::rlimit(50)]
    pub fn assign(
        &self,
        config: &TxCircuitConfig,
        challenges: &Challenges,
        start_l1_queue_index: u64,
        sign_datas: &Vec<SignData>,
        padding_txs: &Vec<Transaction>,
    ) -> (r: Result<Region, Error>)
        requires
            config.well_formed(),
            self.txs@.len() + padding_txs@.len() == self.max_txs,
            sign_datas@.len() == self.max_txs,
        ensures
            r is Ok <==> accounting_fits(
                self.txs@,
                start_l1_queue_index as int,
                self.txs@.len(),
            ) && calldata_fits(
                self.txs@,
                padding_txs@,
                self.max_txs as nat,
                self.max_calldata as nat,
            ),
            r matches Ok(region) ==> region.wf() && region.width == config.width() && region@
                == table(
                config,
                self.batch(challenges, start_l1_queue_index, sign_datas@, padding_txs@),
                self.max_txs as nat,
                self.max_calldata as nat,
                self.padding_end(config.minimum_rows),
            ),
            r matches Err(e) ==> e == (if accounting_fits(
                self.txs@,
                start_l1_queue_index as int,
                self.txs@.len(),
            ) {
                Error::TooMuchCalldata
            } else {
                Error::QueueIndex
            }),
    {
        let ghost b = self.batch(challenges, start_l1_queue_index, sign_datas@, padding_txs@);
        let accounting = match queue_accounting(&self.txs, start_l1_queue_index) {
            Ok(a) => a,
            Err(e) => {
                return Err(e);
            },
        };
        if !self.check_calldata(padding_txs) {
            return Err(Error::TooMuchCalldata);
        }
        let ghost total = calldata_before(self.txs@, self.txs@.len());
        proof {
            assert(b.all() == self.txs@ + padding_txs@);
            assert(b.txs == self.txs@);
            assert(b.calldata_len() == total);
            assert forall|i: int| 0 <= i < self.txs@.len() implies gas_cost(
                #[trigger] self.txs@[i].call_data@,
            ) <= u64::MAX by {
                assert(self.txs@[i] == (self.txs@ + padding_txs@)[i]);
            }
            assert(self.max_txs * TX_LEN + self.max_calldata + 1 < usize::MAX);
            assert(total <= self.max_calldata);
        }
        let width = config.tx_table.q_enable.index + 78;
        let mut region = Region::new(width);
        let mut offset: usize = 0;
        TxCircuit::assign_first_row(config, &mut region, &mut offset, Ghost(b), sign_datas.len() > 0);
        let ghost head = seq![first_row(config, b)];
        proof {
            assert(region@ == head);
        }
        self.assign_headers(
            config,
            &mut region,
            &mut offset,
            challenges,
            start_l1_queue_index,
            sign_datas,
            padding_txs,
            &accounting,
        );
        let ghost with_headers = head + headers(config, b, self.max_txs as nat);
        proof {
            lemma_headers_len(config, b, self.max_txs as nat);
            assert(region@ == with_headers);
            assert(offset == 1 + self.max_txs * TX_LEN);
        }
        self.assign_all_calldata(config, &mut region, &mut offset, challenges, Ghost(b));
        let ghost with_calldata = with_headers + calldata_rows(config, b, self.txs@.len());
        let calldata_end = self.max_txs * TX_LEN + 1 + self.max_calldata;
        proof {
            lemma_calldata_len(config, b, self.txs@.len());
            assert(region@ == with_calldata);
            assert(offset == 1 + self.max_txs * TX_LEN + total);
        }
        config.assign_calldata_zeros(&mut region, offset, calldata_end);
        let ghost all_rows = rows(config, b, self.max_calldata as nat);
        proof {
            assert(b.all().len() == self.max_txs);
            assert(calldata_end - offset == self.max_calldata - total);
            assert(region@ == with_calldata + zero_calldata_rows(
                config,
                (self.max_calldata - total) as nat,
            ));
            assert(region@ == all_rows);
            assert(region@.len() == calldata_end);
        }
        if self.max_calldata > 0 {
            let ghost t0 = region@;
            region.assign(config.q_calldata_first, self.max_txs * TX_LEN + 1, Fe::one());
            let ghost t1 = region@;
            proof {
                lemma_assigned_mark(
                    t0,
                    config.width(),
                    (self.max_txs * TX_LEN + 1) as nat,
                    config.q_calldata_first.index as int,
                );
                assert(t1 == mark(
                    t0,
                    self.max_txs * TX_LEN + 1,
                    config.q_calldata_first.index as int,
                ));
                assert(t1.len() == t0.len());
            }
            region.assign(config.q_calldata_last, self.max_txs * TX_LEN + self.max_calldata, Fe::one());
            proof {
                lemma_assigned_mark(
                    t1,
                    config.width(),
                    (self.max_txs * TX_LEN + self.max_calldata) as nat,
                    config.q_calldata_last.index as int,
                );
                assert(region@ == mark(
                    t1,
                    self.max_txs * TX_LEN + self.max_calldata,
                    config.q_calldata_last.index as int,
                ));
            }
        }
        let ghost marked_rows = marked(
            config,
            all_rows,
            self.max_txs as nat,
            self.max_calldata as nat,
        );
        proof {
            assert(region@ == marked_rows);
            assert(region@.len() == calldata_end);
        }
        let end: usize = if self.size < config.minimum_rows {
            0
        } else if self.size - config.minimum_rows == usize::MAX {
            usize::MAX - 1
        } else {
            self.size - config.minimum_rows
        };
        config.assign_paddings(&mut region, calldata_end, end);
        Ok(region)
    }
}

/// What stands in for the signature of the transaction `tx` where `found` is
/// what the recovery gave: nothing for a message from the queue, which has
/// no signature, and what was recovered for any other.
pub open spec fn signed_by(tx: Transaction, found: Option<SignData>, sig: SignData) -> bool {
    if tx.tx_type == TxType::L1Msg {
        sig.msg@.len() == 0 && sig.pk@.len() == 0 && sig.address@ == Seq::new(20, |i: int| 0u8)
    } else {
        found matches Some(f) && same_sign_data(sig, f)
    }
}

/// The recovery failed for the transaction at the place `i`, which has a
/// signature.
pub open spec fn recovery_failed(all: Seq<Transaction>, recovered: Seq<Option<SignData>>, i: int) -> bool {
    all[i].tx_type != TxType::L1Msg && (i >= recovered.len() || recovered[i] is None)
}

/// The padding that fills a circuit for `max_txs` transactions up after `n`
/// transactions.
pub open spec fn is_padding(padding: Seq<Transaction>, chain_id: u64, n: nat, max_txs: nat) -> bool {
    &&& padding.len() == (if n <= max_txs {
        max_txs - n
    } else {
        0
    })
    &&& forall|k: int| 0 <= k < padding.len() ==> is_dummy(#[trigger] padding[k], chain_id, n + k + 1)
}

/// The padding that fills a circuit for `max_txs` transactions up after `n`
/// transactions.
pub fn padding_txs(n: usize, max_txs: usize, chain_id: u64) -> (r: Vec<Transaction>)
    ensures
        is_padding(r@, chain_id, n as nat, max_txs as nat),
{
    let mut out: Vec<Transaction> = Vec::new();
    let mut i: usize = n;
    while i < max_txs
        invariant
            n <= i,
            i <= max_txs || i == n,
            out@.len() == i - n,
            forall|k: int| 0 <= k < out@.len() ==> is_dummy(#[trigger] out@[k], chain_id, n + k + 1),
        decreases max_txs - i,
    {
        let mut tx = Transaction::dummy(chain_id);
        tx.id = i + 1;
        out.push(tx);
        i = i + 1;
    }
    out
}

/// What stands in for the signatures of the transactions and of the padding
/// that fills the circuit up. `recovered` holds, for each of them in order,
/// what the recovery of its signature gave, if anything. The function fails
/// exactly if the recovery failed for one that has a signature.
pub fn get_sign_data(
    txs: &Vec<Transaction>,
    max_txs: usize,
    chain_id: u64,
    recovered: &Vec<Option<SignData>>,
) -> (r: Result<(Vec<SignData>, Vec<Transaction>), Error>)
    ensures
        r matches Ok((sigs, padding)) ==> {
            &&& is_padding(padding@, chain_id, txs@.len(), max_txs as nat)
            &&& sigs@.len() == txs@.len() + padding@.len()
            &&& forall|i: int|
                0 <= i < sigs@.len() ==> signed_by(
                    (txs@ + padding@)[i],
                    if i < recovered@.len() {
                        recovered@[i]
                    } else {
                        None
                    },
                    #[trigger] sigs@[i],
                )
        },
        r matches Err(e) ==> e == Error::Synthesis,
        r is Err <==> exists|padding: Seq<Transaction>, i: int|
            is_padding(padding, chain_id, txs@.len(), max_txs as nat) && 0 <= i < txs@.len()
                + padding.len() && #[trigger] recovery_failed(txs@ + padding, recovered@, i),
{
    let padding = padding_txs(txs.len(), max_txs, chain_id);
    let n = txs.len();
    let total = n + padding.len();
    let mut sigs: Vec<SignData> = Vec::new();
    let mut i: usize = 0;
    while i < total
        invariant
            i <= total,
            n == txs@.len(),
            total == n + padding@.len(),
            is_padding(padding@, chain_id, txs@.len(), max_txs as nat),
            sigs@.len() == i,
            forall|k: int|
                0 <= k < i ==> signed_by(
                    (txs@ + padding@)[k],
                    if k < recovered@.len() {
                        recovered@[k]
                    } else {
                        None
                    },
                    #[trigger] sigs@[k],
                ),
            forall|k: int| 0 <= k < i ==> !recovery_failed(txs@ + padding@, recovered@, k),
        decreases total - i,
    {
        let tx = if i < n {
            &txs[i]
        } else {
            &padding[i - n]
        };
        proof {
            assert(*tx == (txs@ + padding@)[i as int]);
        }
        if tx.tx_type.is_l1_msg() {
            sigs.push(SignData::default());
        } else if i < recovered.len() {
            match &recovered[i] {
                Some(found) => {
                    sigs.push(found.dup());
                },
                None => {
                    proof {
                        assert(recovery_failed(txs@ + padding@, recovered@, i as int));
                    }
                    return Err(Error::Synthesis);
                },
            }
        } else {
            proof {
                assert(recovery_failed(txs@ + padding@, recovered@, i as int));
            }
            return Err(Error::Synthesis);
        }
        i = i + 1;
    }
    proof {
        // Any padding for the same circuit is a padding of dummies: it has none but
        // signed transactions, and as many as this one.
        assert forall|other: Seq<Transaction>, k: int|
            is_padding(other, chain_id, txs@.len(), max_txs as nat) && 0 <= k < txs@.len()
                + other.len() implies !#[trigger] recovery_failed(
            txs@ + other,
            recovered@,
            k,
        ) by {
            assert(other.len() == padding@.len());
            assert(!recovery_failed(txs@ + padding@, recovered@, k));
            if k >= txs@.len() {
                assert((txs@ + other)[k] == other[k - txs@.len()]);
                assert((txs@ + padding@)[k] == padding@[k - txs@.len()]);
                assert(is_dummy(other[k - txs@.len()], chain_id, k + 1));
                assert(is_dummy(padding@[k - txs@.len()], chain_id, k + 1));
            } else {
                assert((txs@ + other)[k] == txs@[k]);
                assert((txs@ + padding@)[k] == txs@[k]);
            }
        }
    }
    Ok((sigs, padding))
}

/// What the assignment of a circuit gave: the table, and the padding and the
/// stand-ins for the signatures that it was made from.
pub struct Synthesized {
    pub region: Region,
    pub padding_txs: Vec<Transaction>,
    pub sign_datas: Vec<SignData>,
}

/// The byte strings of a list.
pub open spec fn byte_strings(v: Seq<Vec<u8>>) -> Seq<Seq<u8>> {
    Seq::new(v.len(), |i: int| v[i]@)
}

/// The encodings that the table looks the hashes of up: the hashed encoding
/// of each of the first `n` transactions.
pub open spec fn hash_inputs(txs: Seq<Transaction>, n: nat) -> Seq<Seq<u8>> {
    Seq::new(n, |i: int| txs[i].rlp_signed@)
}

/// What the recovery of the first `n` signatures hashes: for each, the key
/// and the message.
pub open spec fn sign_inputs(sigs: Seq<SignData>, n: nat) -> Seq<Seq<u8>> {
    Seq::new(
        2 * n,
        |i: int|
            if i % 2 == 0 {
                sigs[i / 2].pk@
            } else {
                sigs[i / 2].msg@
            },
    )
}

impl TxCircuit {
    /// The circuit of the batch that a block holds. Every transaction of the
    /// block has to be bound to the chain of the block; `chain_ids_agree`
    /// tests it.
    pub fn new_from_block(block: Block) -> (r: TxCircuit)
        requires
            block.circuits_params.max_txs * TX_LEN + block.circuits_params.max_calldata
                <= usize::MAX,
            block.spec_chain_ids_agree(),
        ensures
            r.max_txs == block.circuits_params.max_txs,
            r.max_calldata == block.circuits_params.max_calldata,
            r.txs == block.txs,
            r.chain_id == block.chain_id,
            r.start_l1_queue_index == block.start_l1_queue_index,
            r.size == r.max_txs * TX_LEN + r.max_calldata,
    {
        TxCircuit::new(
            block.circuits_params.max_txs,
            block.circuits_params.max_calldata,
            block.chain_id,
            block.start_l1_queue_index,
            block.txs,
        )
    }

    /// The least number of rows that proves the transactions of the block,
    /// and the number of rows that the circuit of the block has.
    pub fn min_num_rows_block(block: &Block) -> (r: Option<(usize, usize)>)
        ensures
            r is Some <==> block.txs@.len() * TX_LEN + calldata_before(
                block.txs@,
                block.txs@.len(),
            ) <= usize::MAX && block.circuits_params.max_txs * TX_LEN
                + block.circuits_params.max_calldata <= usize::MAX,
            r matches Some((least, whole)) ==> least == block.txs@.len() * TX_LEN
                + calldata_before(block.txs@, block.txs@.len()) && whole
                == block.circuits_params.max_txs * TX_LEN + block.circuits_params.max_calldata,
    {
        let total = match total_calldata(&block.txs) {
            Some(t) => t,
            None => {
                return None;
            },
        };
        let least = match block.txs.len().checked_mul(TX_LEN) {
            Some(h) => match h.checked_add(total) {
                Some(s) => s,
                None => {
                    return None;
                },
            },
            None => {
                return None;
            },
        };
        let whole = match block.circuits_params.max_txs.checked_mul(TX_LEN) {
            Some(h) => match h.checked_add(block.circuits_params.max_calldata) {
                Some(s) => s,
                None => {
                    return None;
                },
            },
            None => {
                return None;
            },
        };
        Some((least, whole))
    }

    /// The byte strings whose hashes the circuit looks up: the hashed
    /// encoding of each transaction and of one padding, then the key and the
    /// message of each of their signatures, then those of the stand-in for no
    /// signature. It fails exactly if the recovery failed for a transaction
    /// that has a signature.
    pub fn keccak_inputs(&self, recovered: &Vec<Option<SignData>>) -> (r: Result<
        Vec<Vec<u8>>,
        Error,
    >)
        requires
            self.txs@.len() < usize::MAX,
        ensures
            r matches Ok(inputs) ==> exists|sigs: Seq<SignData>, padding: Seq<Transaction>|
                {
                    &&& is_padding(
                        padding,
                        self.chain_id,
                        self.txs@.len(),
                        (self.txs@.len() + 1) as nat,
                    )
                    &&& sigs.len() == self.txs@.len() + 1
                    &&& forall|i: int|
                        0 <= i < sigs.len() ==> signed_by(
                            (self.txs@ + padding)[i],
                            if i < recovered@.len() {
                                recovered@[i]
                            } else {
                                None
                            },
                            #[trigger] sigs[i],
                        )
                    &&& byte_strings(inputs@) == hash_inputs(
                        self.txs@ + padding,
                        self.txs@.len() + 1,
                    ) + sign_inputs(sigs, sigs.len()) + seq![Seq::<u8>::empty(), Seq::<u8>::empty()]
                },
            r matches Err(e) ==> e == Error::Synthesis,
            r is Err <==> exists|padding: Seq<Transaction>, i: int|
                is_padding(padding, self.chain_id, self.txs@.len(), (self.txs@.len() + 1) as nat)
                    && 0 <= i < self.txs@.len() + padding.len() && #[trigger] recovery_failed(
                    self.txs@ + padding,
                    recovered@,
                    i,
                ),
    {
        let n = self.txs.len();
        let (sigs, padding) = match get_sign_data(&self.txs, n + 1, self.chain_id, recovered) {
            Ok(pair) => pair,
            Err(e) => {
                return Err(e);
            },
        };
        let ghost all = self.txs@ + padding@;
        let mut inputs: Vec<Vec<u8>> = Vec::new();
        let mut i: usize = 0;
        while i < n + 1
            invariant
                i <= n + 1,
                n == self.txs@.len(),
                n < usize::MAX,
                padding@.len() == 1,
                all == self.txs@ + padding@,
                byte_strings(inputs@) == hash_inputs(all, i as nat),
            decreases n + 1 - i,
        {
            let tx = if i < n {
                &self.txs[i]
            } else {
                &padding[i - n]
            };
            proof {
                assert(*tx == all[i as int]);
            }
            let ghost prev = byte_strings(inputs@);
            inputs.push(copy_bytes(&tx.rlp_signed));
            i = i + 1;
            proof {
                assert(byte_strings(inputs@) =~= prev.push(tx.rlp_signed@));
                assert(prev.push(tx.rlp_signed@) =~= hash_inputs(all, i as nat));
            }
        }
        let ghost hashed = hash_inputs(all, (n + 1) as nat);
        let mut k: usize = 0;
        proof {
            assert(byte_strings(inputs@) =~= hashed + sign_inputs(sigs@, 0));
        }
        while k < sigs.len()
            invariant
                k <= sigs@.len(),
                byte_strings(inputs@) == hashed + sign_inputs(sigs@, k as nat),
            decreases sigs@.len() - k,
        {
            let ghost prev = byte_strings(inputs@);
            inputs.push(copy_bytes(&sigs[k].pk));
            let ghost mid = byte_strings(inputs@);
            inputs.push(copy_bytes(&sigs[k].msg));
            proof {
                assert(mid =~= prev.push(sigs@[k as int].pk@));
                assert(byte_strings(inputs@) =~= mid.push(sigs@[k as int].msg@));
                let next = sign_inputs(sigs@, (k + 1) as nat);
                let cur = sign_inputs(sigs@, k as nat);
                assert(next.len() == cur.len() + 2);
                assert(next =~= cur.push(sigs@[k as int].pk@).push(sigs@[k as int].msg@)) by {
                    assert forall|x: int| 0 <= x < next.len() implies next[x] == cur.push(
                        sigs@[k as int].pk@,
                    ).push(sigs@[k as int].msg@)[x] by {
                        if x == 2 * k {
                            assert(x % 2 == 0 && x / 2 == k);
                        } else if x == 2 * k + 1 {
                            assert(x % 2 == 1 && x / 2 == k);
                        }
                    }
                }
                assert(byte_strings(inputs@) =~= hashed + next);
            }
            k = k + 1;
        }
        let none = SignData::default();
        let ghost prev = byte_strings(inputs@);
        inputs.push(copy_bytes(&none.pk));
        let ghost mid = byte_strings(inputs@);
        inputs.push(copy_bytes(&none.msg));
        proof {
            assert(none.pk@ =~= Seq::<u8>::empty());
            assert(none.msg@ =~= Seq::<u8>::empty());
            assert(mid =~= prev.push(Seq::<u8>::empty()));
            assert(byte_strings(inputs@) =~= mid.push(Seq::<u8>::empty()));
            assert(byte_strings(inputs@) =~= hashed + sign_inputs(sigs@, sigs@.len())
                + seq![Seq::<u8>::empty(), Seq::<u8>::empty()]);
        }
        Ok(inputs)
    }

    /// The recovery failed for a transaction that has a signature, or for a
    /// padding of the circuit.
    pub open spec fn recovery_fails(&self, recovered: Seq<Option<SignData>>) -> bool {
        exists|padding: Seq<Transaction>, i: int|
            is_padding(padding, self.chain_id, self.txs@.len(), self.max_txs as nat) && 0 <= i
                < self.txs@.len() + padding.len() && #[trigger] recovery_failed(
                self.txs@ + padding,
                recovered,
                i,
            )
    }

    /// Assigns the table of the circuit, which has to have room for the
    /// transactions. `recovered` holds, for each transaction and then for
    /// each padding, what the recovery of its signature gave, if anything.
    /// The assignment fails with `Synthesis` if the recovery failed for a
    /// transaction that has a signature; else with `QueueIndex` if the
    /// accounting of the queue does not fit; else with `TooMuchCalldata` if
    /// the calldata does not fit. Otherwise it gives the table of the batch
    /// with its padding.
    pub fn synthesize_sub(
        &self,
        config: &TxCircuitConfig,
        challenges: &Challenges,
        recovered: &Vec<Option<SignData>>,
    ) -> (r: Result<Synthesized, Error>)
        requires
            config.well_formed(),
            self.txs@.len() <= self.max_txs,
        ensures
            r == Err::<Synthesized, Error>(Error::Synthesis) <==> self.recovery_fails(recovered@),
            r == Err::<Synthesized, Error>(Error::QueueIndex) <==> !self.recovery_fails(recovered@)
                && !accounting_fits(
                self.txs@,
                self.start_l1_queue_index as int,
                self.txs@.len(),
            ),
            r == Err::<Synthesized, Error>(Error::TooMuchCalldata) <==> !self.recovery_fails(
                recovered@,
            ) && accounting_fits(self.txs@, self.start_l1_queue_index as int, self.txs@.len())
                && !calldata_fits(
                self.txs@,
                Seq::empty(),
                self.max_txs as nat,
                self.max_calldata as nat,
            ),
            r is Err ==> r == Err::<Synthesized, Error>(Error::Synthesis) || r == Err::<
                Synthesized,
                Error,
            >(Error::QueueIndex) || r == Err::<Synthesized, Error>(Error::TooMuchCalldata),
            r matches Ok(s) ==> {
                &&& is_padding(s.padding_txs@, self.chain_id, self.txs@.len(), self.max_txs as nat)
                &&& s.sign_datas@.len() == self.max_txs
                &&& forall|i: int|
                    0 <= i < self.max_txs ==> signed_by(
                        (self.txs@ + s.padding_txs@)[i],
                        if i < recovered@.len() {
                            recovered@[i]
                        } else {
                            None
                        },
                        #[trigger] s.sign_datas@[i],
                    )
                &&& s.region.wf()
                &&& s.region.width == config.width()
                &&& s.region@ == table(
                    config,
                    self.batch(
                        challenges,
                        self.start_l1_queue_index,
                        s.sign_datas@,
                        s.padding_txs@,
                    ),
                    self.max_txs as nat,
                    self.max_calldata as nat,
                    self.padding_end(config.minimum_rows),
                )
            },
    {
        let (sign_datas, padding) = match get_sign_data(
            &self.txs,
            self.max_txs,
            self.chain_id,
            recovered,
        ) {
            Ok(pair) => pair,
            Err(e) => {
                return Err(e);
            },
        };
        proof {
            lemma_padding_has_no_calldata(
                self.txs@,
                padding@,
                self.chain_id,
                self.max_txs as nat,
                self.max_calldata as nat,
            );
        }
        match self.assign(config, challenges, self.start_l1_queue_index, &sign_datas, &padding) {
            Ok(region) => Ok(Synthesized { region, padding_txs: padding, sign_datas }),
            Err(e) => Err(e),
        }
    }
}

/// A padding of dummies has no calldata: the calldata of the transactions
/// fits the table with it exactly if it fits the table without it.
pub proof fn lemma_padding_has_no_calldata(
    txs: Seq<Transaction>,
    padding: Seq<Transaction>,
    chain_id: u64,
    max_txs: nat,
    max_calldata: nat,
)
    requires
        is_padding(padding, chain_id, txs.len(), max_txs),
    ensures
        calldata_fits(txs, padding, max_txs, max_calldata) == calldata_fits(
            txs,
            Seq::empty(),
            max_txs,
            max_calldata,
        ),
{
    let none = Seq::<Transaction>::empty();
    assert(txs + none =~= txs);
    if calldata_fits(txs, none, max_txs, max_calldata) {
        assert forall|i: int| 0 <= i < txs.len() + padding.len() implies gas_cost(
            #[trigger] (txs + padding)[i].call_data@,
        ) <= u64::MAX by {
            if i < txs.len() {
                assert((txs + padding)[i] == (txs + none)[i]);
            } else {
                assert((txs + padding)[i] == padding[i - txs.len()]);
                assert(is_dummy(padding[i - txs.len()], chain_id, i + 1));
            }
        }
    }
    if calldata_fits(txs, padding, max_txs, max_calldata) {
        assert forall|i: int| 0 <= i < txs.len() + none.len() implies gas_cost(
            #[trigger] (txs + none)[i].call_data@,
        ) <= u64::MAX by {
            assert((txs + padding)[i] == (txs + none)[i]);
        }
    }
}

} // verus!
