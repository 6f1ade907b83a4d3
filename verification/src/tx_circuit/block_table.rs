//! The table of block aggregates that belongs to a batch: for each block,
//! the number of its transactions, the number of transactions up to and
//! including it, and the number of all its transactions, messages taken from
//! the queue counted in.

use crate::field::Fe;
use crate::plonk::assigned;
use crate::plonk::Region;
use crate::table::BlockContextFieldTag;
use crate::table::BlockTable;
use crate::tx_circuit::accounting::accounting_fits;
use crate::tx_circuit::accounting::count_in_block;
use crate::tx_circuit::accounting::count_up_to_block;
use crate::tx_circuit::accounting::cum_num_txs_in_block;
use crate::tx_circuit::accounting::num_all_txs_acc;
use crate::tx_circuit::accounting::num_txs_in_block;
use crate::tx_circuit::accounting::queue_accounting;
use crate::tx_circuit::TxCircuit;
use crate::tx_circuit::TxCircuitConfig;
use crate::witness::Error;
use crate::witness::Transaction;
use vstd::prelude::*;

verus! {

/// Each element is larger than the one before it.
pub open spec fn strictly_increasing(s: Seq<u64>) -> bool {
    forall|i: int, j: int| 0 <= i < j < s.len() ==> s[i] < s[j]
}

/// `x` is the block number of a transaction.
pub open spec fn is_block_of(txs: Seq<Transaction>, x: u64) -> bool {
    exists|i: int| 0 <= i < txs.len() && (#[trigger] txs[i]).block_number == x
}

/// `blocks` lists the block numbers of the transactions, each once, in
/// rising order.
pub open spec fn blocks_of(txs: Seq<Transaction>, blocks: Seq<u64>) -> bool {
    &&& strictly_increasing(blocks)
    &&& forall|k: int| 0 <= k < blocks.len() ==> is_block_of(txs, #[trigger] blocks[k])
    &&& forall|i: int| 0 <= i < txs.len() ==> blocks.contains((#[trigger] txs[i]).block_number)
}

/// The place of the last of the first `n` transactions that is in `block`;
/// zero if there is none.
pub open spec fn last_in_block(txs: Seq<Transaction>, block: u64, n: nat) -> nat
    decreases n,
{
    if n == 0 {
        0
    } else if txs[n - 1].block_number == block {
        (n - 1) as nat
    } else {
        last_in_block(txs, block, (n - 1) as nat)
    }
}

/// The number of all transactions of a block: what the accounting of the
/// queue has counted at the last transaction of the block.
pub open spec fn all_txs_in_block(txs: Seq<Transaction>, start: int, block: u64) -> int {
    num_all_txs_acc(txs, start, last_in_block(txs, block, txs.len()))
}

/// The kind of the entry on the row `row` of the table: the rows come in
/// threes, one for each kind of aggregate.
pub open spec fn entry_tag(row: int) -> BlockContextFieldTag {
    if row % 3 == 0 {
        BlockContextFieldTag::NumTxs
    } else if row % 3 == 1 {
        BlockContextFieldTag::CumNumTxs
    } else {
        BlockContextFieldTag::NumAllTxs
    }
}

/// The block of the entry on the row `row`: the first three rows belong to
/// no block and read zero, each three rows after them to the next block.
pub open spec fn entry_block(blocks: Seq<u64>, row: int) -> int {
    if row < 3 {
        0
    } else {
        blocks[row / 3 - 1] as int
    }
}

/// The value of the entry on the row `row`.
pub open spec fn entry_value(txs: Seq<Transaction>, start: int, blocks: Seq<u64>, row: int) -> int {
    if row < 3 {
        0
    } else {
        let block = blocks[row / 3 - 1];
        if row % 3 == 0 {
            count_in_block(txs, block, txs.len()) as int
        } else if row % 3 == 1 {
            count_up_to_block(txs, block, txs.len()) as int
        } else {
            all_txs_in_block(txs, start, block)
        }
    }
}

/// The table `t` after the first `n` entries were written to the columns of
/// the table of block aggregates.
pub open spec fn with_entries(
    t: Seq<Seq<int>>,
    width: nat,
    table: BlockTable,
    txs: Seq<Transaction>,
    start: int,
    blocks: Seq<u64>,
    n: nat,
) -> Seq<Seq<int>>
    decreases n,
{
    if n == 0 {
        t
    } else {
        let row = (n - 1) as nat;
        let before = with_entries(t, width, table, txs, start, blocks, row);
        assigned(
            assigned(
                assigned(
                    before,
                    width,
                    row,
                    table.tag.index as int,
                    entry_tag(row as int).spec_index() as int,
                ),
                width,
                row,
                table.index.index as int,
                entry_block(blocks, row as int),
            ),
            width,
            row,
            table.value.index as int,
            entry_value(txs, start, blocks, row as int),
        )
    }
}

/// The least block number of a transaction that is above `floor`, or the
/// least of all where `floor` is `None`; `None` if there is none.
fn next_block(txs: &Vec<Transaction>, floor: Option<u64>) -> (r: Option<u64>)
    ensures
        r matches Some(m) ==> is_block_of(txs@, m) && (floor matches Some(f) ==> f < m) && (forall|
            i: int,
        |
            0 <= i < txs@.len() && (floor matches Some(f) ==> f < (
            #[trigger] txs@[i]).block_number) ==> m <= txs@[i].block_number),
        r is None ==> forall|i: int|
            0 <= i < txs@.len() ==> (floor matches Some(f) && (#[trigger] txs@[i]).block_number
                <= f),
{
    let mut best: Option<u64> = None;
    let mut i: usize = 0;
    while i < txs.len()
        invariant
            i <= txs@.len(),
            best matches Some(m) ==> is_block_of(txs@, m) && (floor matches Some(f) ==> f < m) && (
            forall|k: int|
                0 <= k < i && (floor matches Some(f) ==> f < (
                #[trigger] txs@[k]).block_number) ==> m <= txs@[k].block_number),
            best is None ==> forall|k: int|
                0 <= k < i ==> (floor matches Some(f) && (#[trigger] txs@[k]).block_number <= f),
        decreases txs@.len() - i,
    {
        let x = txs[i].block_number;
        let above = match floor {
            Some(f) => f < x,
            None => true,
        };
        if above {
            let better = match best {
                Some(m) => x < m,
                None => true,
            };
            if better {
                best = Some(x);
            }
        }
        i = i + 1;
    }
    best
}

/// `x` is above the floor, if there is one.
pub open spec fn above(floor: Option<u64>, x: u64) -> bool {
    floor matches Some(f) ==> f < x
}

/// The number of transactions among the first `n` whose block number is
/// above the floor.
pub open spec fn count_above(txs: Seq<Transaction>, floor: Option<u64>, n: nat) -> nat
    decreases n,
{
    if n == 0 {
        0
    } else {
        count_above(txs, floor, (n - 1) as nat) + if above(floor, txs[n - 1].block_number) {
            1nat
        } else {
            0nat
        }
    }
}

/// Raising the floor to the block number of a transaction that was above
/// it leaves fewer transactions above it.
proof fn lemma_count_above_step(txs: Seq<Transaction>, floor: Option<u64>, m: u64, n: nat, i: int)
    requires
        above(floor, m),
        0 <= i < txs.len(),
        txs[i].block_number == m,
        n <= txs.len(),
    ensures
        count_above(txs, Some(m), n) <= count_above(txs, floor, n) <= n,
        i < n ==> count_above(txs, Some(m), n) < count_above(txs, floor, n),
    decreases n,
{
    if n > 0 {
        lemma_count_above_step(txs, floor, m, (n - 1) as nat, i);
    }
}

/// The block numbers of the transactions, each once, in rising order.
pub fn block_numbers(txs: &Vec<Transaction>) -> (r: Vec<u64>)
    ensures
        blocks_of(txs@, r@),
        r@.len() <= txs@.len(),
{
    let mut out: Vec<u64> = Vec::new();
    let mut floor: Option<u64> = None;
    let mut more = true;
    proof {
        if txs@.len() > 0 {
            lemma_count_above_step(txs@, None, txs@[0].block_number, txs@.len(), 0);
        }
    }
    while more
        invariant
            strictly_increasing(out@),
            forall|k: int| 0 <= k < out@.len() ==> is_block_of(txs@, #[trigger] out@[k]),
            floor is None <==> out@.len() == 0,
            floor matches Some(f) ==> out@.len() > 0 && out@[out@.len() - 1] == f,
            forall|i: int|
                0 <= i < txs@.len() && !above(floor, (#[trigger] txs@[i]).block_number)
                    ==> out@.contains(txs@[i].block_number),
            !more ==> forall|i: int|
                0 <= i < txs@.len() ==> out@.contains((#[trigger] txs@[i]).block_number),
            out@.len() + count_above(txs@, floor, txs@.len()) <= txs@.len(),
        decreases (if more {
            1int
        } else {
            0int
        }) + count_above(txs@, floor, txs@.len()),
    {
        match next_block(txs, floor) {
            Some(m) => {
                let ghost prev = out@;
                let ghost old_floor = floor;
                proof {
                    let w = choose|w: int| 0 <= w < txs@.len() && (#[trigger] txs@[w]).block_number == m;
                    lemma_count_above_step(txs@, old_floor, m, txs@.len(), w);
                }
                out.push(m);
                floor = Some(m);
                proof {
                    assert forall|i: int|
                        0 <= i < txs@.len() && !above(
                            floor,
                            (#[trigger] txs@[i]).block_number,
                        ) implies out@.contains(txs@[i].block_number) by {
                        let x = txs@[i].block_number;
                        if x == m {
                            assert(out@[out@.len() - 1] == m);
                        } else if !above(old_floor, x) {
                            assert(prev.contains(x));
                            let w = choose|w: int| 0 <= w < prev.len() && prev[w] == x;
                            assert(out@[w] == x);
                        } else {
                            assert(m <= x);
                        }
                    }
                    assert forall|i: int, j: int| 0 <= i < j < out@.len() implies out@[i] < out@[j] by {
                        if j == out@.len() - 1 {
                            if prev.len() > 0 {
                                assert(prev[i] <= prev[prev.len() - 1]) by {
                                    if i < prev.len() - 1 {
                                        assert(prev[i] < prev[prev.len() - 1]);
                                    }
                                }
                            }
                        } else {
                            assert(prev[i] < prev[j]);
                        }
                    }
                }
            },
            None => {
                more = false;
                proof {
                    assert forall|i: int| 0 <= i < txs@.len() implies out@.contains(
                        (#[trigger] txs@[i]).block_number,
                    ) by {
                        assert(!above(floor, txs@[i].block_number));
                    }
                }
            },
        }
    }
    out
}

/// The place of the last transaction that is in `block`; zero if there is
/// none.
fn find_last_in_block(txs: &Vec<Transaction>, block: u64) -> (r: usize)
    ensures
        r == last_in_block(txs@, block, txs@.len()),
        txs@.len() > 0 ==> r < txs@.len(),
{
    let mut n: usize = txs.len();
    while n > 0
        invariant
            n <= txs@.len(),
            last_in_block(txs@, block, txs@.len()) == last_in_block(txs@, block, n as nat),
        decreases n,
    {
        if txs[n - 1].block_number == block {
            return n - 1;
        }
        n = n - 1;
    }
    0
}

impl TxCircuit {
    /// Writes the table of block aggregates of the batch to the first rows
    /// of its columns: three rows of zeros, then for each block, in rising
    /// order, the number of its transactions, the number of transactions up
    /// to and including it, and the number of all its transactions. It fails
    /// exactly if the accounting of the queue does not fit.
    pub fn assign_dev_block_table(&self, config: &TxCircuitConfig, region: &mut Region) -> (r: Result<
        Vec<u64>,
        Error,
    >)
        requires
            config.well_formed(),
            old(region).wf(),
            old(region).width == config.width(),
            self.txs@.len() < usize::MAX / 4,
        ensures
            final(region).wf(),
            final(region).width == old(region).width,
            r is Ok <==> accounting_fits(
                self.txs@,
                self.start_l1_queue_index as int,
                self.txs@.len(),
            ),
            r matches Ok(blocks) ==> blocks_of(self.txs@, blocks@) && final(region)@
                == with_entries(
                old(region)@,
                config.width(),
                config.block_table,
                self.txs@,
                self.start_l1_queue_index as int,
                blocks@,
                (3 * (blocks@.len() + 1)) as nat,
            ),
            r matches Err(e) ==> e == Error::QueueIndex && final(region)@ == old(region)@,
    {
        let accounting = match queue_accounting(&self.txs, self.start_l1_queue_index) {
            Ok(a) => a,
            Err(e) => {
                return Err(e);
            },
        };
        let blocks = block_numbers(&self.txs);
        let ghost start = self.start_l1_queue_index as int;
        let ghost w = config.width();
        let rows: usize = 3 * (blocks.len() + 1);
        let mut row: usize = 0;
        while row < rows
            invariant
                row <= rows,
                rows == 3 * (blocks@.len() + 1),
                blocks@.len() <= self.txs@.len(),
                self.txs@.len() < usize::MAX / 4,
                config.well_formed(),
                region.wf(),
                region.width == config.width(),
                region.width == old(region).width,
                w == config.width(),
                start == self.start_l1_queue_index as int,
                blocks_of(self.txs@, blocks@),
                accounting@.len() == self.txs@.len(),
                forall|i: nat|
                    i < self.txs@.len() ==> (#[trigger] accounting@[i as int]).num_all_txs_acc
                        == num_all_txs_acc(self.txs@, start, i),
                region@ == with_entries(
                    old(region)@,
                    w,
                    config.block_table,
                    self.txs@,
                    start,
                    blocks@,
                    row as nat,
                ),
            decreases rows - row,
        {
            let kind = row % 3;
            let tag = if kind == 0 {
                BlockContextFieldTag::NumTxs
            } else if kind == 1 {
                BlockContextFieldTag::CumNumTxs
            } else {
                BlockContextFieldTag::NumAllTxs
            };
            let (block, value): (u64, u64) = if row < 3 {
                (0, 0)
            } else {
                let b = blocks[row / 3 - 1];
                let v: u64 = if kind == 0 {
                    num_txs_in_block(&self.txs, b) as u64
                } else if kind == 1 {
                    cum_num_txs_in_block(&self.txs, b) as u64
                } else {
                    let last = find_last_in_block(&self.txs, b);
                    proof {
                        assert(is_block_of(self.txs@, blocks@[row / 3 - 1]));
                    }
                    accounting[last].num_all_txs_acc
                };
                (b, v)
            };
            region.assign(config.block_table.tag, row, Fe::from_u64(tag.index()));
            region.assign(config.block_table.index, row, Fe::from_u64(block));
            region.assign(config.block_table.value, row, Fe::from_u64(value));
            row = row + 1;
        }
        Ok(blocks)
    }
}

} // verus!
