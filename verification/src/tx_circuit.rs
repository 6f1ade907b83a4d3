//! The transaction circuit: the layout of the transaction table, the
//! constraints on its rows, and the rows that a batch of transactions fills
//! it with.

pub mod accounting;
pub mod aggregates;
pub mod assign;
pub mod basic;
pub mod binding;
pub mod batch;
pub mod block_table;
pub mod bounded;
pub mod circuit;
pub mod complete;
pub mod configure;
pub mod counting;
pub mod enforced;
pub mod found;
pub mod gadgetry;
pub mod gates;
pub mod kinds;
pub mod laws;
pub mod layout;
pub mod lookups;
pub mod queue;
pub mod rows;
pub mod satisfied;
pub mod signing;
pub mod stored;
pub mod synthesis;

use crate::expr::Column;
use crate::gadgets::columns_from;
use crate::gadgets::fpow256;
use crate::gadgets::BinaryNumberConfig;
use crate::gadgets::ComparatorConfig;
use crate::gadgets::IsEqualConfig;
use crate::gadgets::IsZeroConfig;
use crate::gadgets::LtConfig;
use crate::plonk::RangeTable;
use crate::table::advice;
use crate::table::fixed;
use crate::table::BlockTable;
use crate::table::KeccakTable;
use crate::table::RlpTable;
use crate::table::SigTable;
use crate::table::TxTable;
use crate::witness::ChallengeExprs;
use crate::witness::Transaction;
use vstd::prelude::*;

verus! {

/// The number of rows that the header of one transaction takes.
pub const TX_LEN: usize = 23;

/// The place of the transaction hash in the header, the first row being 1.
pub const TX_HASH_OFFSET: usize = 21;

/// The place of the chain id in the header, the first row being 1.
pub const CHAIN_ID_OFFSET: usize = 12;

/// The highest degree of a constraint that the backend supports.
pub const MAX_DEGREE: usize = 9;

/// The columns that this circuit adds to those of the tables.
pub const NUM_OWN_COLUMNS: usize = 49;

/// The families of lookups that a row can take part in.
#[derive(Clone, Copy, Debug, PartialEq, Eq, Structural)]
pub enum LookupCondition {
    /// The calldata of a transaction, looked up in the transaction table.
    TxCalldata,
    /// A field of a message from the queue, looked up in the table of
    /// decoded fields.
    L1MsgHash,
    /// A field of the signed encoding, looked up in the table of decoded
    /// fields.
    RlpSignTag,
    /// A field of the hashed encoding, looked up in the table of decoded
    /// fields.
    RlpHashTag,
    /// An encoding and its hash, looked up in the table of hashes.
    Keccak,
}

/// One stored boolean for each family of lookups.
#[derive(Clone, Copy, Debug, PartialEq, Eq, Structural)]
pub struct LookupConditions {
    pub tx_calldata: Column,
    pub l1_msg_hash: Column,
    pub rlp_sign_tag: Column,
    pub rlp_hash_tag: Column,
    pub keccak: Column,
}

impl LookupConditions {
    /// The column of a family.
    pub fn get(&self, condition: LookupCondition) -> (r: Column)
        ensures
            r == match condition {
                LookupCondition::TxCalldata => self.tx_calldata,
                LookupCondition::L1MsgHash => self.l1_msg_hash,
                LookupCondition::RlpSignTag => self.rlp_sign_tag,
                LookupCondition::RlpHashTag => self.rlp_hash_tag,
                LookupCondition::Keccak => self.keccak,
            },
    {
        match condition {
            LookupCondition::TxCalldata => self.tx_calldata,
            LookupCondition::L1MsgHash => self.l1_msg_hash,
            LookupCondition::RlpSignTag => self.rlp_sign_tag,
            LookupCondition::RlpHashTag => self.rlp_hash_tag,
            LookupCondition::Keccak => self.keccak,
        }
    }
}

/// The columns and gadgets of the transaction circuit.
pub struct TxCircuitConfig {
    pub minimum_rows: usize,
    /// One on the first row of calldata.
    pub q_calldata_first: Column,
    /// One on the last row of calldata.
    pub q_calldata_last: Column,
    /// One on the first row of the table.
    pub q_first: Column,
    pub tx_table: TxTable,
    pub tx_tag_bits: BinaryNumberConfig,
    pub tx_type: Column,
    pub tx_type_bits: BinaryNumberConfig,
    /// What the row looks up in the table of decoded fields.
    pub rlp_tag: Column,
    /// Whether the value of the row is encoded as the empty string.
    pub is_none: Column,
    pub tx_value_length: Column,
    pub tx_value_rlc: Column,
    pub u8_table: RangeTable,
    pub u16_table: RangeTable,
    pub tx_id_is_zero: IsZeroConfig,
    pub value_is_zero: IsZeroConfig,
    pub tx_id_unchanged: IsEqualConfig,
    pub is_tag_block_num: Column,
    pub is_calldata: Column,
    pub is_caller_address: Column,
    pub is_l1_msg: Column,
    pub is_chain_id: Column,
    pub lookup_conditions: LookupConditions,
    pub tx_nonce: Column,
    pub block_num: Column,
    pub block_num_unchanged: IsEqualConfig,
    pub num_all_txs_acc: Column,
    pub total_l1_popped_before: Column,
    /// One on the last calldata byte of a transaction.
    pub is_final: Column,
    pub calldata_gas_cost_acc: Column,
    pub calldata_rlc: Column,
    pub calldata_byte: Column,
    pub is_padding_tx: Column,
    pub tx_id_vs_cum_num_txs: ComparatorConfig,
    pub tx_id_gt_prev_cnt: LtConfig,
    pub cum_num_txs: Column,
    pub num_txs: Column,
    /// The address that was recovered from the signature.
    pub sv_address: Column,
    pub sig_table: SigTable,
    pub block_table: BlockTable,
    pub rlp_table: RlpTable,
    pub keccak_table: KeccakTable,
}

/// What the configuration of the circuit is made from.
pub struct TxCircuitConfigArgs {
    pub tx_table: TxTable,
    pub block_table: BlockTable,
    pub keccak_table: KeccakTable,
    pub rlp_table: RlpTable,
    pub sig_table: SigTable,
    pub u8_table: RangeTable,
    pub u16_table: RangeTable,
    pub challenges: ChallengeExprs,
}

/// The number of columns of the five tables.
pub const NUM_TABLE_COLUMNS: usize = 29;

impl TxCircuitConfigArgs {
    /// The columns of the tables follow one another from `first` on: the
    /// transaction table, then the tables of block aggregates, of hashes, of
    /// decoded fields and of signatures.
    pub open spec fn laid_out(&self, first: nat) -> bool {
        &&& self.tx_table == TxTable::at(first)
        &&& self.block_table == BlockTable::at(first + 5)
        &&& self.keccak_table == KeccakTable::at(first + 8)
        &&& self.rlp_table == RlpTable::at(first + 13)
        &&& self.sig_table == SigTable::at(first + 22)
    }
}

impl TxCircuitConfig {
    /// The columns of the circuit follow one another from `first` on, in the
    /// order in which `new` adds them.
    pub open spec fn laid_out(&self, first: nat) -> bool {
        &&& self.q_first == fixed(first)
        &&& self.q_calldata_first == fixed(first + 1)
        &&& self.q_calldata_last == fixed(first + 2)
        &&& self.tx_nonce == advice(first + 3)
        &&& self.block_num == advice(first + 4)
        &&& self.total_l1_popped_before == advice(first + 5)
        &&& self.num_all_txs_acc == advice(first + 6)
        &&& self.tx_type == advice(first + 7)
        &&& self.rlp_tag == advice(first + 8)
        &&& self.tx_value_rlc == advice(first + 9)
        &&& self.tx_value_length == advice(first + 10)
        &&& self.is_none == advice(first + 11)
        &&& self.tx_tag_bits.bits@ == columns_from(first + 12, 5)
        &&& self.tx_type_bits.bits@ == columns_from(first + 17, 3)
        &&& self.cum_num_txs == advice(first + 20)
        &&& self.num_txs == advice(first + 21)
        &&& self.is_padding_tx == advice(first + 22)
        &&& self.is_final == advice(first + 23)
        &&& self.calldata_gas_cost_acc == advice(first + 24)
        &&& self.calldata_rlc == advice(first + 25)
        &&& self.calldata_byte == advice(first + 26)
        &&& self.is_l1_msg == advice(first + 27)
        &&& self.is_calldata == advice(first + 28)
        &&& self.is_caller_address == advice(first + 29)
        &&& self.is_chain_id == advice(first + 30)
        &&& self.is_tag_block_num == advice(first + 31)
        &&& self.lookup_conditions.tx_calldata == advice(first + 32)
        &&& self.lookup_conditions.l1_msg_hash == advice(first + 33)
        &&& self.lookup_conditions.rlp_sign_tag == advice(first + 34)
        &&& self.lookup_conditions.rlp_hash_tag == advice(first + 35)
        &&& self.lookup_conditions.keccak == advice(first + 36)
        &&& self.sv_address == advice(first + 37)
        &&& self.tx_id_is_zero.value == self.tx_table.tx_id
        &&& self.tx_id_is_zero.value_inv == advice(first + 38)
        &&& self.tx_id_unchanged.value_inv == advice(first + 39)
        &&& self.value_is_zero.value == self.tx_table.value
        &&& self.value_is_zero.value_inv == advice(first + 40)
        &&& self.block_num_unchanged.value_inv == advice(first + 41)
        &&& self.tx_id_gt_prev_cnt.lt == advice(first + 42)
        &&& self.tx_id_gt_prev_cnt.diff@ == columns_from(first + 43, 2)
        &&& self.tx_id_gt_prev_cnt.range@ == fpow256(2)
        &&& self.tx_id_vs_cum_num_txs.lt_chip.lt == advice(first + 45)
        &&& self.tx_id_vs_cum_num_txs.lt_chip.diff@ == columns_from(first + 46, 2)
        &&& self.tx_id_vs_cum_num_txs.lt_chip.range@ == fpow256(2)
        &&& self.tx_id_vs_cum_num_txs.eq_chip.value_inv == advice(first + 48)
    }

    /// The tables were laid out from `first` on and the circuit's own columns
    /// after them.
    pub open spec fn wf(&self, first: nat) -> bool {
        &&& first + NUM_TABLE_COLUMNS + NUM_OWN_COLUMNS <= usize::MAX
        &&& self.tx_table == TxTable::at(first)
        &&& self.block_table == BlockTable::at(first + 5)
        &&& self.keccak_table == KeccakTable::at(first + 8)
        &&& self.rlp_table == RlpTable::at(first + 13)
        &&& self.sig_table == SigTable::at(first + 22)
        &&& self.laid_out(first + NUM_TABLE_COLUMNS as nat)
    }
}

/// The transaction circuit: a batch of transactions and the room that the
/// table has for them.
pub struct TxCircuit {
    /// The number of transactions that the table has room for.
    pub max_txs: usize,
    /// The number of calldata bytes that the table has room for.
    pub max_calldata: usize,
    /// The transactions.
    pub txs: Vec<Transaction>,
    /// The chain that the batch belongs to.
    pub chain_id: u64,
    /// The number of messages that were taken from the queue before the
    /// batch.
    pub start_l1_queue_index: u64,
    /// The number of rows of the table.
    pub size: usize,
}

impl TxCircuit {
    /// The circuit of a batch of transactions. The table has one header for
    /// each of `max_txs` transactions and `max_calldata` rows of calldata.
    pub fn new(
        max_txs: usize,
        max_calldata: usize,
        chain_id: u64,
        start_l1_queue_index: u64,
        txs: Vec<Transaction>,
    ) -> (r: TxCircuit)
        requires
            max_txs * TX_LEN + max_calldata <= usize::MAX,
        ensures
            r.max_txs == max_txs,
            r.max_calldata == max_calldata,
            r.txs == txs,
            r.chain_id == chain_id,
            r.start_l1_queue_index == start_l1_queue_index,
            r.size == max_txs * TX_LEN + max_calldata,
    {
        TxCircuit {
            max_txs,
            max_calldata,
            txs,
            size: TxCircuit::min_num_rows(max_txs, max_calldata),
            chain_id,
            start_l1_queue_index,
        }
    }

    /// The least number of rows that proves `txs_len` transactions with
    /// `call_data_len` bytes of calldata in all.
    pub fn min_num_rows(txs_len: usize, call_data_len: usize) -> (r: usize)
        requires
            txs_len * TX_LEN + call_data_len <= usize::MAX,
        ensures
            r == txs_len * TX_LEN + call_data_len,
    {
        txs_len * TX_LEN + call_data_len
    }

    /// The number of rows at the end of the table that the backend keeps for
    /// itself.
    pub fn unusable_rows() -> (r: usize)
        ensures
            r == 8,
    {
        8
    }
}

} // verus!
