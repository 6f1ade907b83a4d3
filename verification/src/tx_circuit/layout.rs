//! The test whether a configuration is laid out as the circuit lays it
//! out.

use crate::expr::Column;
use crate::field::Fe;
use crate::gadgets::columns_from;
use crate::gadgets::fpow256;
use crate::table::BlockTable;
use crate::table::KeccakTable;
use crate::table::RlpTable;
use crate::table::SigTable;
use crate::table::TxTable;
use crate::tx_circuit::TxCircuitConfig;
use crate::tx_circuit::NUM_OWN_COLUMNS;
use crate::tx_circuit::NUM_TABLE_COLUMNS;
use vstd::prelude::*;

verus! {

/// The column that lies `k` columns after `first`.
fn column(first: usize, k: usize, fixed: bool) -> (r: Column)
    requires
        first + k <= usize::MAX,
    ensures
        r == (Column { index: (first + k) as usize, fixed }),
{
    Column { index: first + k, fixed }
}

/// Whether the columns are `n` columns of the prover that follow one
/// another from `first` on.
fn follow_one_another(columns: &Vec<Column>, first: usize, n: usize) -> (r: bool)
    requires
        first + n <= usize::MAX,
    ensures
        r == (columns@ == columns_from(first as nat, n as nat)),
{
    if columns.len() != n {
        return false;
    }
    let mut i: usize = 0;
    while i < n
        invariant
            i <= n,
            columns@.len() == n,
            first + n <= usize::MAX,
            forall|k: int| 0 <= k < i ==> columns@[k] == columns_from(first as nat, n as nat)[k],
        decreases n - i,
    {
        if columns[i].index != first + i || columns[i].fixed {
            proof {
                assert(columns@[i as int] != columns_from(first as nat, n as nat)[i as int]);
            }
            return false;
        }
        i = i + 1;
    }
    proof {
        assert(columns@ =~= columns_from(first as nat, n as nat));
    }
    true
}

/// Whether the element is 65536, the range of a comparison of two bytes.
fn is_two_bytes(range: &Fe) -> (r: bool)
    ensures
        r == (range@ == fpow256(2)),
{
    let expected = Fe::from_u64(65536);
    proof {
        reveal_with_fuel(fpow256, 3);
        vstd::arithmetic::div_mod::lemma_small_mod(256, crate::field::modulus());
        vstd::arithmetic::div_mod::lemma_small_mod(65536, crate::field::modulus());
        assert(fpow256(1) == 256);
        assert(fpow256(2) == 65536);
        Fe::lemma_view_injective(*range, expected);
    }
    *range == expected
}

impl TxCircuitConfig {
    /// Whether the columns of `tx_table` follow one another from `first + 0` on.
    fn tx_table_is_laid_out(&self, first: usize) -> (r: bool)
        requires
            first + NUM_TABLE_COLUMNS <= usize::MAX,
        ensures
            r == (self.tx_table == TxTable::at((first + 0) as nat)),
    {
        self.tx_table == (TxTable {
            q_enable: column(first, 0, true),
            tx_id: column(first, 1, false),
            tag: column(first, 2, true),
            index: column(first, 3, false),
            value: column(first, 4, false),
        })
    }

    /// Whether the columns of `block_table` follow one another from `first + 5` on.
    fn block_table_is_laid_out(&self, first: usize) -> (r: bool)
        requires
            first + NUM_TABLE_COLUMNS <= usize::MAX,
        ensures
            r == (self.block_table == BlockTable::at((first + 5) as nat)),
    {
        self.block_table == (BlockTable {
            tag: column(first, 5, true),
            index: column(first, 6, false),
            value: column(first, 7, false),
        })
    }

    /// Whether the columns of `keccak_table` follow one another from `first + 8` on.
    fn keccak_table_is_laid_out(&self, first: usize) -> (r: bool)
        requires
            first + NUM_TABLE_COLUMNS <= usize::MAX,
        ensures
            r == (self.keccak_table == KeccakTable::at((first + 8) as nat)),
    {
        self.keccak_table == (KeccakTable {
            q_enable: column(first, 8, true),
            is_final: column(first, 9, false),
            input_rlc: column(first, 10, false),
            input_len: column(first, 11, false),
            output_rlc: column(first, 12, false),
        })
    }

    /// Whether the columns of `rlp_table` follow one another from `first + 13` on.
    fn rlp_table_is_laid_out(&self, first: usize) -> (r: bool)
        requires
            first + NUM_TABLE_COLUMNS <= usize::MAX,
        ensures
            r == (self.rlp_table == RlpTable::at((first + 13) as nat)),
    {
        self.rlp_table == (RlpTable {
            q_enable: column(first, 13, true),
            tx_id: column(first, 14, false),
            format: column(first, 15, false),
            rlp_tag: column(first, 16, false),
            tag_value: column(first, 17, false),
            tag_bytes_rlc: column(first, 18, false),
            tag_length: column(first, 19, false),
            is_output: column(first, 20, false),
            is_none: column(first, 21, false),
        })
    }

    /// Whether the columns of `sig_table` follow one another from `first + 22` on.
    fn sig_table_is_laid_out(&self, first: usize) -> (r: bool)
        requires
            first + NUM_TABLE_COLUMNS <= usize::MAX,
        ensures
            r == (self.sig_table == SigTable::at((first + 22) as nat)),
    {
        self.sig_table == (SigTable {
            q_enable: column(first, 22, true),
            msg_hash_rlc: column(first, 23, false),
            sig_v: column(first, 24, false),
            sig_r_rlc: column(first, 25, false),
            sig_s_rlc: column(first, 26, false),
            recovered_addr: column(first, 27, false),
            is_valid: column(first, 28, false),
        })
    }

    /// Whether the columns of the part 1 of the circuit's own columns lie
    /// where they belong, `own` being the first of the circuit's own columns.
    fn own_columns_1(&self, own: usize) -> (r: bool)
        requires
            own + NUM_OWN_COLUMNS <= usize::MAX,
        ensures
            r == ({
                &&& self.q_first == crate::table::fixed((own + 0) as nat)
                &&& self.q_calldata_first == crate::table::fixed((own + 1) as nat)
                &&& self.q_calldata_last == crate::table::fixed((own + 2) as nat)
                &&& self.tx_nonce == crate::table::advice((own + 3) as nat)
                &&& self.block_num == crate::table::advice((own + 4) as nat)
                &&& self.total_l1_popped_before == crate::table::advice((own + 5) as nat)
                &&& self.num_all_txs_acc == crate::table::advice((own + 6) as nat)
                &&& self.tx_type == crate::table::advice((own + 7) as nat)
                &&& self.rlp_tag == crate::table::advice((own + 8) as nat)
                &&& self.tx_value_rlc == crate::table::advice((own + 9) as nat)
                &&& self.tx_value_length == crate::table::advice((own + 10) as nat)
                &&& self.is_none == crate::table::advice((own + 11) as nat)
            }),
    {
        self.q_first == column(own, 0, true)
            && self.q_calldata_first == column(own, 1, true)
            && self.q_calldata_last == column(own, 2, true)
            && self.tx_nonce == column(own, 3, false)
            && self.block_num == column(own, 4, false)
            && self.total_l1_popped_before == column(own, 5, false)
            && self.num_all_txs_acc == column(own, 6, false)
            && self.tx_type == column(own, 7, false)
            && self.rlp_tag == column(own, 8, false)
            && self.tx_value_rlc == column(own, 9, false)
            && self.tx_value_length == column(own, 10, false)
            && self.is_none == column(own, 11, false)
    }

    /// Whether the columns of the part 2 of the circuit's own columns lie
    /// where they belong, `own` being the first of the circuit's own columns.
    fn own_columns_2(&self, own: usize) -> (r: bool)
        requires
            own + NUM_OWN_COLUMNS <= usize::MAX,
        ensures
            r == ({
                &&& self.cum_num_txs == crate::table::advice((own + 20) as nat)
                &&& self.num_txs == crate::table::advice((own + 21) as nat)
                &&& self.is_padding_tx == crate::table::advice((own + 22) as nat)
                &&& self.is_final == crate::table::advice((own + 23) as nat)
                &&& self.calldata_gas_cost_acc == crate::table::advice((own + 24) as nat)
                &&& self.calldata_rlc == crate::table::advice((own + 25) as nat)
                &&& self.calldata_byte == crate::table::advice((own + 26) as nat)
                &&& self.is_l1_msg == crate::table::advice((own + 27) as nat)
                &&& self.is_calldata == crate::table::advice((own + 28) as nat)
                &&& self.is_caller_address == crate::table::advice((own + 29) as nat)
                &&& self.is_chain_id == crate::table::advice((own + 30) as nat)
                &&& self.is_tag_block_num == crate::table::advice((own + 31) as nat)
            }),
    {
        self.cum_num_txs == column(own, 20, false)
            && self.num_txs == column(own, 21, false)
            && self.is_padding_tx == column(own, 22, false)
            && self.is_final == column(own, 23, false)
            && self.calldata_gas_cost_acc == column(own, 24, false)
            && self.calldata_rlc == column(own, 25, false)
            && self.calldata_byte == column(own, 26, false)
            && self.is_l1_msg == column(own, 27, false)
            && self.is_calldata == column(own, 28, false)
            && self.is_caller_address == column(own, 29, false)
            && self.is_chain_id == column(own, 30, false)
            && self.is_tag_block_num == column(own, 31, false)
    }

    /// Whether the columns of the part 3 of the circuit's own columns lie
    /// where they belong, `own` being the first of the circuit's own columns.
    fn own_columns_3(&self, own: usize) -> (r: bool)
        requires
            own + NUM_OWN_COLUMNS <= usize::MAX,
        ensures
            r == ({
                &&& self.lookup_conditions.tx_calldata == crate::table::advice((own + 32) as nat)
                &&& self.lookup_conditions.l1_msg_hash == crate::table::advice((own + 33) as nat)
                &&& self.lookup_conditions.rlp_sign_tag == crate::table::advice((own + 34) as nat)
                &&& self.lookup_conditions.rlp_hash_tag == crate::table::advice((own + 35) as nat)
                &&& self.lookup_conditions.keccak == crate::table::advice((own + 36) as nat)
                &&& self.sv_address == crate::table::advice((own + 37) as nat)
                &&& self.tx_id_is_zero.value_inv == crate::table::advice((own + 38) as nat)
                &&& self.tx_id_unchanged.value_inv == crate::table::advice((own + 39) as nat)
                &&& self.value_is_zero.value_inv == crate::table::advice((own + 40) as nat)
                &&& self.block_num_unchanged.value_inv == crate::table::advice((own + 41) as nat)
                &&& self.tx_id_gt_prev_cnt.lt == crate::table::advice((own + 42) as nat)
                &&& self.tx_id_vs_cum_num_txs.lt_chip.lt == crate::table::advice((own + 45) as nat)
            }),
    {
        self.lookup_conditions.tx_calldata == column(own, 32, false)
            && self.lookup_conditions.l1_msg_hash == column(own, 33, false)
            && self.lookup_conditions.rlp_sign_tag == column(own, 34, false)
            && self.lookup_conditions.rlp_hash_tag == column(own, 35, false)
            && self.lookup_conditions.keccak == column(own, 36, false)
            && self.sv_address == column(own, 37, false)
            && self.tx_id_is_zero.value_inv == column(own, 38, false)
            && self.tx_id_unchanged.value_inv == column(own, 39, false)
            && self.value_is_zero.value_inv == column(own, 40, false)
            && self.block_num_unchanged.value_inv == column(own, 41, false)
            && self.tx_id_gt_prev_cnt.lt == column(own, 42, false)
            && self.tx_id_vs_cum_num_txs.lt_chip.lt == column(own, 45, false)
    }

    /// Whether the columns of the part 4 of the circuit's own columns lie
    /// where they belong, `own` being the first of the circuit's own columns.
    fn own_columns_4(&self, own: usize) -> (r: bool)
        requires
            own + NUM_OWN_COLUMNS <= usize::MAX,
        ensures
            r == ({
                &&& self.tx_id_vs_cum_num_txs.eq_chip.value_inv == crate::table::advice((own + 48) as nat)
            }),
    {
        self.tx_id_vs_cum_num_txs.eq_chip.value_inv == column(own, 48, false)
    }

    /// Whether the columns are laid out as `new` lays them out after the
    /// tables.
    pub fn is_well_formed(&self) -> (r: bool)
        ensures
            r == self.well_formed(),
    {
        let first = self.tx_table.q_enable.index;
        if first > usize::MAX - NUM_TABLE_COLUMNS - NUM_OWN_COLUMNS {
            return false;
        }
        let own = first + NUM_TABLE_COLUMNS;
        let tables = self.tx_table_is_laid_out(first) && self.block_table_is_laid_out(first)
            && self.keccak_table_is_laid_out(first) && self.rlp_table_is_laid_out(first)
            && self.sig_table_is_laid_out(first);
        let cells = self.own_columns_1(own) && self.own_columns_2(own) && self.own_columns_3(own) && self.own_columns_4(own);
        let rows = follow_one_another(&self.tx_tag_bits.bits, own + 12, 5)
            && follow_one_another(&self.tx_type_bits.bits, own + 17, 3)
            && follow_one_another(&self.tx_id_gt_prev_cnt.diff, own + 43, 2)
            && follow_one_another(&self.tx_id_vs_cum_num_txs.lt_chip.diff, own + 46, 2);
        let ranges = is_two_bytes(&self.tx_id_gt_prev_cnt.range) && is_two_bytes(&self.tx_id_vs_cum_num_txs.lt_chip.range);
        let shared = self.tx_id_is_zero.value == self.tx_table.tx_id && self.value_is_zero.value == self.tx_table.value;
        tables && cells && rows && ranges && shared
    }
}

} // verus!
