//! The counts that the rows of a batch carry: the transactions of each
//! block, the messages taken from the queue, and the calldata of the batch.

use crate::witness::Error;
use crate::witness::Transaction;
use crate::witness::TxType;
use vstd::prelude::*;

verus! {

/// The number of transactions among the first `n` that are in `block`.
pub open spec fn count_in_block(txs: Seq<Transaction>, block: u64, n: nat) -> nat
    decreases n,
{
    if n == 0 {
        0
    } else {
        count_in_block(txs, block, (n - 1) as nat) + if txs[n - 1].block_number == block {
            1nat
        } else {
            0nat
        }
    }
}

/// The number of transactions among the first `n` that are in `block` or in
/// a block before it.
pub open spec fn count_up_to_block(txs: Seq<Transaction>, block: u64, n: nat) -> nat
    decreases n,
{
    if n == 0 {
        0
    } else {
        count_up_to_block(txs, block, (n - 1) as nat) + if txs[n - 1].block_number <= block {
            1nat
        } else {
            0nat
        }
    }
}

/// What a transaction adds to the count of all transactions of its block,
/// `popped` messages having been taken from the queue before it: a message
/// counts for itself and for those that were skipped before it, any other
/// transaction counts one.
pub open spec fn contribution(tx: Transaction, popped: int) -> int {
    if tx.tx_type == TxType::L1Msg {
        tx.nonce - popped + 1
    } else {
        1
    }
}

/// The number of messages taken from the queue after a transaction.
pub open spec fn popped_after(tx: Transaction, popped: int) -> int {
    if tx.tx_type == TxType::L1Msg {
        tx.nonce + 1
    } else {
        popped
    }
}

/// The number of messages taken from the queue before the transaction `i`.
pub open spec fn popped_before(txs: Seq<Transaction>, start: int, i: nat) -> int
    decreases i,
{
    if i == 0 {
        start
    } else {
        popped_after(txs[i - 1], popped_before(txs, start, (i - 1) as nat))
    }
}

/// Whether the transaction `i` is the first of its block.
pub open spec fn starts_block(txs: Seq<Transaction>, i: nat) -> bool {
    i == 0 || txs[i as int].block_number != txs[i - 1].block_number
}

/// The count of all transactions of the block of the transaction `i`, up to
/// and including that transaction.
pub open spec fn num_all_txs_acc(txs: Seq<Transaction>, start: int, i: nat) -> int
    decreases i,
{
    let c = contribution(txs[i as int], popped_before(txs, start, i));
    if starts_block(txs, i) {
        c
    } else {
        num_all_txs_acc(txs, start, (i - 1) as nat) + c
    }
}

/// The counts of the first `n` transactions fit 64 bits, and none of them is
/// a message that was taken from the queue before its turn.
pub open spec fn accounting_fits(txs: Seq<Transaction>, start: int, n: nat) -> bool {
    forall|i: nat|
        i < n ==> {
            &&& #[trigger] popped_before(txs, start, i) <= u64::MAX
            &&& popped_after(txs[i as int], popped_before(txs, start, i)) <= u64::MAX
            &&& contribution(txs[i as int], popped_before(txs, start, i)) >= 1
            &&& num_all_txs_acc(txs, start, i) <= u64::MAX
        }
}

/// What the accounting of one transaction gives: the messages taken from the
/// queue before it, and the count of all transactions of its block up to
/// and including it.
#[derive(Clone, Copy, Debug, PartialEq, Eq, Structural)]
pub struct QueueCount {
    pub total_l1_popped_before: u64,
    pub num_all_txs_acc: u64,
}

/// The number of transactions in `block`.
pub fn num_txs_in_block(txs: &Vec<Transaction>, block: u64) -> (r: usize)
    ensures
        r == count_in_block(txs@, block, txs@.len()),
{
    let mut n: usize = 0;
    let mut i: usize = 0;
    while i < txs.len()
        invariant
            i <= txs@.len(),
            n <= i,
            n == count_in_block(txs@, block, i as nat),
        decreases txs@.len() - i,
    {
        if txs[i].block_number == block {
            n = n + 1;
        }
        i = i + 1;
    }
    n
}

/// The number of transactions in `block` or in a block before it.
pub fn cum_num_txs_in_block(txs: &Vec<Transaction>, block: u64) -> (r: usize)
    ensures
        r == count_up_to_block(txs@, block, txs@.len()),
{
    let mut n: usize = 0;
    let mut i: usize = 0;
    while i < txs.len()
        invariant
            i <= txs@.len(),
            n <= i,
            n == count_up_to_block(txs@, block, i as nat),
        decreases txs@.len() - i,
    {
        if txs[i].block_number <= block {
            n = n + 1;
        }
        i = i + 1;
    }
    n
}

/// A block has at most as many transactions as it and the blocks before it
/// have together, and those are at most all.
pub proof fn lemma_counts(txs: Seq<Transaction>, block: u64, n: nat)
    ensures
        count_in_block(txs, block, n) <= count_up_to_block(txs, block, n) <= n,
    decreases n,
{
    if n > 0 {
        lemma_counts(txs, block, (n - 1) as nat);
    }
}

/// A block that holds one of the first `n` transactions has at least one.
pub proof fn lemma_count_positive(txs: Seq<Transaction>, i: nat, n: nat)
    requires
        i < n,
    ensures
        count_in_block(txs, txs[i as int].block_number, n) >= 1,
    decreases n,
{
    if i < n - 1 {
        lemma_count_positive(txs, i, (n - 1) as nat);
    }
}

/// The accounting of the messages from the queue: for each transaction, the
/// messages taken from the queue before it and the count of all transactions
/// of its block up to and including it. It fails exactly if a count does not
/// fit 64 bits or a message was taken from the queue before its turn.
pub fn queue_accounting(txs: &Vec<Transaction>, start: u64) -> (r: Result<Vec<QueueCount>, Error>)
    ensures
        r is Ok <==> accounting_fits(txs@, start as int, txs@.len()),
        r matches Ok(v) ==> v@.len() == txs@.len() && forall|i: nat|
            i < txs@.len() ==> (#[trigger] v@[i as int]).total_l1_popped_before == popped_before(
                txs@,
                start as int,
                i,
            ) && v@[i as int].num_all_txs_acc == num_all_txs_acc(txs@, start as int, i),
        r matches Err(e) ==> e == Error::QueueIndex,
{
    let mut out: Vec<QueueCount> = Vec::new();
    let mut popped: u64 = start;
    let mut acc: u64 = 0;
    let mut i: usize = 0;
    while i < txs.len()
        invariant
            i <= txs@.len(),
            out@.len() == i,
            popped == popped_before(txs@, start as int, i as nat),
            i > 0 ==> acc == num_all_txs_acc(txs@, start as int, (i - 1) as nat),
            accounting_fits(txs@, start as int, i as nat),
            forall|k: nat|
                k < i ==> (#[trigger] out@[k as int]).total_l1_popped_before == popped_before(
                    txs@,
                    start as int,
                    k,
                ) && out@[k as int].num_all_txs_acc == num_all_txs_acc(txs@, start as int, k),
        decreases txs@.len() - i,
    {
        let tx = &txs[i];
        let is_l1 = tx.tx_type.is_l1_msg();
        let ghost before = popped_before(txs@, start as int, i as nat);
        let ghost c = contribution(txs@[i as int], before);
        let ghost after = popped_after(txs@[i as int], before);
        let ghost total = num_all_txs_acc(txs@, start as int, i as nat);
        let mut count: u64 = 1;
        let mut next_popped: u64 = popped;
        if is_l1 {
            if tx.nonce < popped || tx.nonce == u64::MAX {
                proof {
                    assert(c < 1 || after > u64::MAX);
                    assert(popped_before(txs@, start as int, i as nat) == before);
                    assert(!accounting_fits(txs@, start as int, txs@.len()));
                }
                return Err(Error::QueueIndex);
            }
            count = tx.nonce - popped + 1;
            next_popped = tx.nonce + 1;
        }
        let first = i == 0 || txs[i].block_number != txs[i - 1].block_number;
        let new_acc: u64 = if first {
            count
        } else {
            match acc.checked_add(count) {
                Some(s) => s,
                None => {
                    proof {
                        assert(total > u64::MAX);
                        assert(popped_before(txs@, start as int, i as nat) == before);
                        assert(!accounting_fits(txs@, start as int, txs@.len()));
                    }
                    return Err(Error::QueueIndex);
                },
            }
        };
        out.push(QueueCount { total_l1_popped_before: popped, num_all_txs_acc: new_acc });
        popped = next_popped;
        acc = new_acc;
        i = i + 1;
    }
    Ok(out)
}

/// The number of calldata bytes of the first `n` transactions.
pub open spec fn calldata_before(txs: Seq<Transaction>, n: nat) -> nat
    decreases n,
{
    if n == 0 {
        0
    } else {
        calldata_before(txs, (n - 1) as nat) + txs[n - 1].call_data@.len()
    }
}

/// The place, counted from one, of the first transaction at or after the
/// place `from` that has calldata; zero if there is none.
pub open spec fn next_with_calldata(txs: Seq<Transaction>, from: nat) -> nat
    decreases txs.len() - from,
{
    if from >= txs.len() {
        0
    } else if txs[from as int].call_data@.len() > 0 {
        from + 1
    } else {
        next_with_calldata(txs, from + 1)
    }
}

/// The place, counted from one, of the first transaction at or after the
/// place `from` that has calldata; zero if there is none.
pub fn find_next_with_calldata(txs: &Vec<Transaction>, from: usize) -> (r: usize)
    ensures
        r == next_with_calldata(txs@, from as nat),
        r <= txs@.len(),
{
    let mut i: usize = from;
    while i < txs.len()
        invariant
            from <= i,
            next_with_calldata(txs@, from as nat) == next_with_calldata(txs@, i as nat),
        decreases txs@.len() - i,
    {
        if txs[i].call_data.len() > 0 {
            return i + 1;
        }
        i = i + 1;
    }
    0
}

/// The number of calldata bytes of the batch, or `None` where it does not
/// fit the machine's integers.
pub fn total_calldata(txs: &Vec<Transaction>) -> (r: Option<usize>)
    ensures
        r is Some <==> calldata_before(txs@, txs@.len()) <= usize::MAX,
        r matches Some(n) ==> n == calldata_before(txs@, txs@.len()),
{
    let mut n: usize = 0;
    let mut i: usize = 0;
    while i < txs.len()
        invariant
            i <= txs@.len(),
            n == calldata_before(txs@, i as nat),
        decreases txs@.len() - i,
    {
        match n.checked_add(txs[i].call_data.len()) {
            Some(s) => {
                n = s;
            },
            None => {
                proof {
                    lemma_calldata_monotone(txs@, (i + 1) as nat, txs@.len());
                }
                return None;
            },
        }
        i = i + 1;
    }
    Some(n)
}

/// The calldata of fewer transactions is at most that of more.
pub proof fn lemma_calldata_monotone(txs: Seq<Transaction>, m: nat, n: nat)
    requires
        m <= n,
    ensures
        calldata_before(txs, m) <= calldata_before(txs, n),
    decreases n,
{
    if m < n {
        lemma_calldata_monotone(txs, m, (n - 1) as nat);
    }
}

/// Three messages from the queue that follow one another in one block, with
/// rising places in the queue, count together for the messages from the one
/// after the last taken before them up to the third.
pub proof fn law_three_messages(txs: Seq<Transaction>, start: int, i: int)
    requires
        0 <= i,
        i + 2 < txs.len(),
        txs[i].tx_type == TxType::L1Msg,
        txs[i + 1].tx_type == TxType::L1Msg,
        txs[i + 2].tx_type == TxType::L1Msg,
        starts_block(txs, i as nat),
        txs[i + 1].block_number == txs[i].block_number,
        txs[i + 2].block_number == txs[i].block_number,
    ensures
        num_all_txs_acc(txs, start, (i + 2) as nat) == txs[i + 2].nonce - popped_before(
            txs,
            start,
            i as nat,
        ) + 1,
{
    reveal_with_fuel(num_all_txs_acc, 3);
    reveal_with_fuel(popped_before, 3);
}

/// A message, a transaction that is none, and two more messages, in one
/// block: they count together for the messages from the one after the last
/// taken before them up to the third, and one more.
pub proof fn law_three_messages_and_one(txs: Seq<Transaction>, start: int, i: int)
    requires
        0 <= i,
        i + 3 < txs.len(),
        txs[i].tx_type == TxType::L1Msg,
        txs[i + 1].tx_type != TxType::L1Msg,
        txs[i + 2].tx_type == TxType::L1Msg,
        txs[i + 3].tx_type == TxType::L1Msg,
        starts_block(txs, i as nat),
        txs[i + 1].block_number == txs[i].block_number,
        txs[i + 2].block_number == txs[i].block_number,
        txs[i + 3].block_number == txs[i].block_number,
    ensures
        num_all_txs_acc(txs, start, (i + 3) as nat) == txs[i + 3].nonce - popped_before(
            txs,
            start,
            i as nat,
        ) + 2,
{
    reveal_with_fuel(num_all_txs_acc, 4);
    reveal_with_fuel(popped_before, 4);
}

} // verus!
