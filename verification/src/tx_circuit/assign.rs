//! The rows of the transaction table.
//!
//! A row is described by what it stands for: its kind, the transaction it
//! belongs to, its value and its accumulators. `row_cells` says which cell
//! each of these goes to, and which cells the gadgets fill in beside them.

use crate::expr::values_view;
use crate::field::finv_or_zero;
use crate::field::fsub;
use crate::field::Fe;
use crate::gadgets::bits_filled;
use crate::gadgets::digit;
use crate::gadgets::lemma_bits_filled;
use crate::gadgets::lemma_bits_filled_digits;
use crate::gadgets::lemma_lt_filled;
use crate::gadgets::lt_filled;
use crate::plonk::set_cell;
use crate::plonk::with_row;
use crate::plonk::zero_row;
use crate::plonk::Region;
use crate::table::TxFieldTag;
use crate::tx_circuit::TxCircuitConfig;
use crate::tx_circuit::NUM_OWN_COLUMNS;
use crate::tx_circuit::NUM_TABLE_COLUMNS;
use crate::witness::RlpTag;
use crate::witness::TxType;
use vstd::prelude::*;

verus! {

/// What a row of the transaction table stands for.
#[derive(Clone, Copy, Debug)]
pub struct RowData {
    /// The type of the transaction that the row belongs to.
    pub tx_type: TxType,
    /// The nonce of the transaction, or its index in the queue.
    pub tx_nonce: u64,
    /// The number of the transaction, counted from one; zero on a row that
    /// belongs to none.
    pub tx_id: usize,
    /// The number of the transaction of the next row.
    pub tx_id_next: usize,
    /// The kind of the row.
    pub tag: TxFieldTag,
    /// The position of a calldata byte; zero on the other rows.
    pub index: usize,
    pub value: Fe,
    /// The fingerprint of the bytes of the value.
    pub be_bytes_rlc: Fe,
    /// The number of bytes of the encoded value.
    pub be_bytes_length: u64,
    pub rlp_tag: RlpTag,
    /// Whether the value is encoded as the empty string.
    pub is_none: bool,
    pub is_padding_tx: bool,
    /// The number of transactions up to and including the block.
    pub cum_num_txs: usize,
    /// The number of transactions of the block.
    pub num_txs: usize,
    /// Whether the row holds the last calldata byte of its transaction.
    pub is_final: bool,
    pub calldata_gas_cost_acc: u64,
    pub calldata_rlc: Fe,
    pub cur_block_num: u64,
    pub next_block_num: u64,
    pub num_all_txs_acc: u64,
    pub total_l1_popped_before: u64,
    /// The address that was recovered from the signature.
    pub sv_address: Fe,
}

/// What a row stands for, over the integers.
pub struct RowView {
    pub tx_type: TxType,
    pub tx_nonce: int,
    pub tx_id: int,
    pub tx_id_next: int,
    pub tag: TxFieldTag,
    pub index: int,
    pub value: int,
    pub be_bytes_rlc: int,
    pub be_bytes_length: int,
    pub rlp_tag: RlpTag,
    pub is_none: bool,
    pub is_padding_tx: bool,
    pub cum_num_txs: int,
    pub num_txs: int,
    pub is_final: bool,
    pub calldata_gas_cost_acc: int,
    pub calldata_rlc: int,
    pub cur_block_num: int,
    pub next_block_num: int,
    pub num_all_txs_acc: int,
    pub total_l1_popped_before: int,
    pub sv_address: int,
}

/// One for `true`, zero for `false`.
pub open spec fn bool_value(b: bool) -> int {
    if b {
        1
    } else {
        0
    }
}

/// The kinds of row that are fields of the signed encoding.
pub open spec fn in_sign_set(tag: TxFieldTag) -> bool {
    tag == TxFieldTag::Nonce || tag == TxFieldTag::GasPrice || tag == TxFieldTag::Gas || tag
        == TxFieldTag::CalleeAddress || tag == TxFieldTag::Value || tag == TxFieldTag::CallDataRLC
        || tag == TxFieldTag::TxSignLength || tag == TxFieldTag::TxSignRLC
}

/// The kinds of row that are fields of the hashed encoding.
pub open spec fn in_hash_set(tag: TxFieldTag) -> bool {
    tag == TxFieldTag::Nonce || tag == TxFieldTag::GasPrice || tag == TxFieldTag::Gas || tag
        == TxFieldTag::CalleeAddress || tag == TxFieldTag::Value || tag == TxFieldTag::CallDataRLC
        || tag == TxFieldTag::TxDataGasCost || tag == TxFieldTag::SigV || tag == TxFieldTag::SigR
        || tag == TxFieldTag::SigS || tag == TxFieldTag::TxHashLength || tag
        == TxFieldTag::TxHashRLC
}

/// The kinds of row that are fields of the encoding of a message from the
/// queue.
pub open spec fn in_l1_msg_set(tag: TxFieldTag) -> bool {
    tag == TxFieldTag::Nonce || tag == TxFieldTag::Gas || tag == TxFieldTag::CalleeAddress || tag
        == TxFieldTag::Value || tag == TxFieldTag::CallDataRLC || tag == TxFieldTag::CallerAddress
        || tag == TxFieldTag::TxHashLength || tag == TxFieldTag::TxHashRLC
}

impl RowView {
    /// The row looks its calldata up in the transaction table.
    pub open spec fn looks_up_calldata(self) -> bool {
        self.tag == TxFieldTag::CallDataLength && self.value != 0
    }

    /// The row looks a field of the signed encoding up.
    pub open spec fn looks_up_sign_tag(self) -> bool {
        (in_sign_set(self.tag) && self.tx_type != TxType::L1Msg) || (self.tag
            == TxFieldTag::ChainID && self.tx_type == TxType::Eip155)
    }

    /// The row looks a field of the hashed encoding up.
    pub open spec fn looks_up_hash_tag(self) -> bool {
        self.tx_type != TxType::L1Msg && in_hash_set(self.tag)
    }

    /// The row looks a field of the encoding of a message up.
    pub open spec fn looks_up_l1_msg_hash(self) -> bool {
        self.tx_type == TxType::L1Msg && in_l1_msg_set(self.tag)
    }

    /// The row looks a hash up.
    pub open spec fn looks_up_keccak(self) -> bool {
        (self.tag == TxFieldTag::TxSignLength && self.tx_type != TxType::L1Msg) || self.tag
            == TxFieldTag::TxHashLength
    }
}

impl View for RowData {
    type V = RowView;

    open spec fn view(&self) -> RowView {
        RowView {
            tx_type: self.tx_type,
            tx_nonce: self.tx_nonce as int,
            tx_id: self.tx_id as int,
            tx_id_next: self.tx_id_next as int,
            tag: self.tag,
            index: self.index as int,
            value: self.value@,
            be_bytes_rlc: self.be_bytes_rlc@,
            be_bytes_length: self.be_bytes_length as int,
            rlp_tag: self.rlp_tag,
            is_none: self.is_none,
            is_padding_tx: self.is_padding_tx,
            cum_num_txs: self.cum_num_txs as int,
            num_txs: self.num_txs as int,
            is_final: self.is_final,
            calldata_gas_cost_acc: self.calldata_gas_cost_acc as int,
            calldata_rlc: self.calldata_rlc@,
            cur_block_num: self.cur_block_num as int,
            next_block_num: self.next_block_num as int,
            num_all_txs_acc: self.num_all_txs_acc as int,
            total_l1_popped_before: self.total_l1_popped_before as int,
            sv_address: self.sv_address@,
        }
    }
}

impl RowData {
    /// Whether the row looks its calldata up in the transaction table.
    pub fn looks_up_calldata(&self) -> (r: bool)
        ensures
            r == self@.looks_up_calldata(),
    {
        self.tag == TxFieldTag::CallDataLength && !self.value.is_zero()
    }

    /// Whether the kind of the row is a field of the signed encoding.
    pub fn in_sign_set(&self) -> (r: bool)
        ensures
            r == in_sign_set(self.tag),
    {
        match self.tag {
            TxFieldTag::Nonce => true,
            TxFieldTag::GasPrice => true,
            TxFieldTag::Gas => true,
            TxFieldTag::CalleeAddress => true,
            TxFieldTag::Value => true,
            TxFieldTag::CallDataRLC => true,
            TxFieldTag::TxSignLength => true,
            TxFieldTag::TxSignRLC => true,
            _ => false,
        }
    }

    /// Whether the kind of the row is a field of the hashed encoding.
    pub fn in_hash_set(&self) -> (r: bool)
        ensures
            r == in_hash_set(self.tag),
    {
        match self.tag {
            TxFieldTag::Nonce => true,
            TxFieldTag::GasPrice => true,
            TxFieldTag::Gas => true,
            TxFieldTag::CalleeAddress => true,
            TxFieldTag::Value => true,
            TxFieldTag::CallDataRLC => true,
            TxFieldTag::TxDataGasCost => true,
            TxFieldTag::SigV => true,
            TxFieldTag::SigR => true,
            TxFieldTag::SigS => true,
            TxFieldTag::TxHashLength => true,
            TxFieldTag::TxHashRLC => true,
            _ => false,
        }
    }

    /// Whether the kind of the row is a field of the encoding of a message
    /// from the queue.
    pub fn in_l1_msg_set(&self) -> (r: bool)
        ensures
            r == in_l1_msg_set(self.tag),
    {
        match self.tag {
            TxFieldTag::Nonce => true,
            TxFieldTag::Gas => true,
            TxFieldTag::CalleeAddress => true,
            TxFieldTag::Value => true,
            TxFieldTag::CallDataRLC => true,
            TxFieldTag::CallerAddress => true,
            TxFieldTag::TxHashLength => true,
            TxFieldTag::TxHashRLC => true,
            _ => false,
        }
    }

    /// Whether the row looks a field of the signed encoding up.
    pub fn looks_up_sign_tag(&self) -> (r: bool)
        ensures
            r == self@.looks_up_sign_tag(),
    {
        (self.in_sign_set() && !self.tx_type.is_l1_msg()) || (self.tag == TxFieldTag::ChainID
            && self.tx_type.is_eip155_tx())
    }

    /// Whether the row looks a field of the hashed encoding up.
    pub fn looks_up_hash_tag(&self) -> (r: bool)
        ensures
            r == self@.looks_up_hash_tag(),
    {
        !self.tx_type.is_l1_msg() && self.in_hash_set()
    }

    /// Whether the row looks a field of the encoding of a message up.
    pub fn looks_up_l1_msg_hash(&self) -> (r: bool)
        ensures
            r == self@.looks_up_l1_msg_hash(),
    {
        self.tx_type.is_l1_msg() && self.in_l1_msg_set()
    }

    /// Whether the row looks a hash up.
    pub fn looks_up_keccak(&self) -> (r: bool)
        ensures
            r == self@.looks_up_keccak(),
    {
        (self.tag == TxFieldTag::TxSignLength && !self.tx_type.is_l1_msg()) || self.tag
            == TxFieldTag::TxHashLength
    }
}

/// The cells of the transaction table.
pub open spec fn row_cells_1(c: &TxCircuitConfig, base: Seq<int>, v: RowView) -> Seq<int> {
    let r1 = base.update(c.tx_table.q_enable.index as int, 1);
    let r2 = r1.update(c.tx_table.tx_id.index as int, v.tx_id);
    let r3 = r2.update(c.tx_table.tag.index as int, v.tag.spec_index() as int);
    let r4 = r3.update(c.tx_table.index.index as int, v.index);
    let r5 = r4.update(c.tx_table.value.index as int, v.value);
    r5
}

/// The digits of the kind of the row.
pub open spec fn row_cells_2(c: &TxCircuitConfig, base: Seq<int>, v: RowView) -> Seq<int> {
    let r1 = bits_filled(base, c.tx_tag_bits.bits@, v.tag.spec_index(), c.tx_tag_bits.bits@.len());
    r1
}

/// The digits of the type of the transaction.
pub open spec fn row_cells_3(c: &TxCircuitConfig, base: Seq<int>, v: RowView) -> Seq<int> {
    let r1 = bits_filled(base, c.tx_type_bits.bits@, v.tx_type.spec_index(), c.tx_type_bits.bits@.len());
    r1
}

/// The type, the lookup tag and the encoded value, and what is computed once for each
/// transaction of the accounting of the queue.
pub open spec fn row_cells_4(c: &TxCircuitConfig, base: Seq<int>, v: RowView) -> Seq<int> {
    let r1 = base.update(c.tx_type.index as int, v.tx_type.spec_index() as int);
    let r2 = r1.update(c.rlp_tag.index as int, v.rlp_tag.spec_index() as int);
    let r3 = r2.update(c.is_none.index as int, bool_value(v.is_none));
    let r4 = r3.update(c.tx_value_rlc.index as int, v.be_bytes_rlc);
    let r5 = r4.update(c.tx_value_length.index as int, v.be_bytes_length);
    let r6 = r5.update(c.block_num_unchanged.value_inv.index as int, finv_or_zero(fsub(v.next_block_num, v.cur_block_num)));
    let r7 = r6.update(c.tx_nonce.index as int, v.tx_nonce);
    let r8 = r7.update(c.block_num.index as int, v.cur_block_num);
    let r9 = r8.update(c.num_all_txs_acc.index as int, v.num_all_txs_acc);
    let r10 = r9.update(c.total_l1_popped_before.index as int, v.total_l1_popped_before);
    r10
}

/// The stored booleans: one for each family of lookups, and those of the type and of the
/// kind.
pub open spec fn row_cells_5(c: &TxCircuitConfig, base: Seq<int>, v: RowView) -> Seq<int> {
    let r1 = base.update(c.lookup_conditions.tx_calldata.index as int, bool_value(v.looks_up_calldata()));
    let r2 = r1.update(c.lookup_conditions.rlp_sign_tag.index as int, bool_value(v.looks_up_sign_tag()));
    let r3 = r2.update(c.lookup_conditions.rlp_hash_tag.index as int, bool_value(v.looks_up_hash_tag()));
    let r4 = r3.update(c.lookup_conditions.l1_msg_hash.index as int, bool_value(v.looks_up_l1_msg_hash()));
    let r5 = r4.update(c.lookup_conditions.keccak.index as int, bool_value(v.looks_up_keccak()));
    let r6 = r5.update(c.is_l1_msg.index as int, bool_value(v.tx_type == TxType::L1Msg));
    let r7 = r6.update(c.is_tag_block_num.index as int, bool_value(v.tag == TxFieldTag::BlockNumber));
    let r8 = r7.update(c.is_chain_id.index as int, bool_value(v.tag == TxFieldTag::ChainID));
    let r9 = r8.update(c.is_caller_address.index as int, bool_value(v.tag == TxFieldTag::CallerAddress));
    let r10 = r9.update(c.is_calldata.index as int, bool_value(v.tag == TxFieldTag::CallData));
    r10
}

/// The inverses of the tests for zero, and the cells of the calldata.
pub open spec fn row_cells_6(c: &TxCircuitConfig, base: Seq<int>, v: RowView) -> Seq<int> {
    let r1 = base.update(c.tx_id_is_zero.value_inv.index as int, finv_or_zero(v.tx_id));
    let r2 = r1.update(c.value_is_zero.value_inv.index as int, finv_or_zero(v.value));
    let r3 = r2.update(c.tx_id_unchanged.value_inv.index as int, finv_or_zero(fsub(v.tx_id, v.tx_id_next)));
    let r4 = r3.update(c.is_final.index as int, bool_value(v.is_final));
    let r5 = r4.update(c.calldata_gas_cost_acc.index as int, v.calldata_gas_cost_acc);
    let r6 = r5.update(c.calldata_rlc.index as int, v.calldata_rlc);
    let r7 = if v.tag == TxFieldTag::CallData {
        r6.update(c.calldata_byte.index as int, v.value)
    } else {
        r6
    };
    let r8 = r7.update(c.is_padding_tx.index as int, bool_value(v.is_padding_tx));
    r8
}

/// The cells of the comparison of the sequence number with the cumulative count.
pub open spec fn row_cells_7(c: &TxCircuitConfig, base: Seq<int>, v: RowView) -> Seq<int> {
    let r1 = lt_filled(
        base,
        c.tx_id_vs_cum_num_txs.lt_chip.lt,
        c.tx_id_vs_cum_num_txs.lt_chip.diff@,
        v.tx_id,
        v.cum_num_txs,
        c.tx_id_vs_cum_num_txs.lt_chip.diff@.len(),
    ).update(c.tx_id_vs_cum_num_txs.eq_chip.value_inv.index as int, finv_or_zero(fsub(v.tx_id, v.cum_num_txs)));
    r1
}

/// The cells of the comparison of the count before the block with the sequence number.
pub open spec fn row_cells_8(c: &TxCircuitConfig, base: Seq<int>, v: RowView) -> Seq<int> {
    let r1 = lt_filled(
        base,
        c.tx_id_gt_prev_cnt.lt,
        c.tx_id_gt_prev_cnt.diff@,
        v.cum_num_txs - v.num_txs,
        v.tx_id,
        c.tx_id_gt_prev_cnt.diff@.len(),
    );
    r1
}

/// The counts of the block and the recovered signer.
pub open spec fn row_cells_9(c: &TxCircuitConfig, base: Seq<int>, v: RowView) -> Seq<int> {
    let r1 = base.update(c.cum_num_txs.index as int, v.cum_num_txs);
    let r2 = r1.update(c.num_txs.index as int, v.num_txs);
    let r3 = r2.update(c.sv_address.index as int, v.sv_address);
    r3
}

/// The cells of a row that stands for `v`, the cells that the row leaves
/// alone being those of `base`.
#[verifier::opaque]
pub open spec fn row_cells(c: &TxCircuitConfig, base: Seq<int>, v: RowView) -> Seq<int> {
    row_cells_9(c, row_cells_8(c, row_cells_7(c, row_cells_6(c, row_cells_5(c, row_cells_4(c, row_cells_3(c, row_cells_2(c, row_cells_1(c, base, v), v), v), v), v), v), v), v), v)
}

impl TxCircuitConfig {
    /// The first column of the tables that the circuit was configured with.
    pub open spec fn first_column(&self) -> nat {
        self.tx_table.q_enable.index as nat
    }

    /// The number of columns of the tables and of the circuit together.
    pub open spec fn width(&self) -> nat {
        self.first_column() + NUM_TABLE_COLUMNS as nat + NUM_OWN_COLUMNS as nat
    }

    /// The columns are laid out as `new` lays them out after the tables.
    pub open spec fn well_formed(&self) -> bool {
        self.wf(self.first_column())
    }

    /// Fills in the cells of the transaction table.
    fn assign_table_cells(&self, row: &mut Vec<Fe>, d: &RowData)
        requires
            self.well_formed(),
            old(row)@.len() == self.width(),
        ensures
            final(row)@.len() == old(row)@.len(),
            values_view(final(row)@) == row_cells_1(self, values_view(old(row)@), d@),
    {
        set_cell(row, self.tx_table.q_enable, Fe::one());
        set_cell(row, self.tx_table.tx_id, Fe::from_u64(d.tx_id as u64));
        set_cell(row, self.tx_table.tag, Fe::from_u64(d.tag.index()));
        set_cell(row, self.tx_table.index, Fe::from_u64(d.index as u64));
        set_cell(row, self.tx_table.value, d.value);
    }

    /// Fills in the digits of the kind of the row.
    fn assign_kind_digits(&self, row: &mut Vec<Fe>, d: &RowData)
        requires
            self.well_formed(),
            old(row)@.len() == self.width(),
        ensures
            final(row)@.len() == old(row)@.len(),
            values_view(final(row)@) == row_cells_2(self, values_view(old(row)@), d@),
    {
        self.tx_tag_bits.assign(row, d.tag.index());
    }

    /// Fills in the digits of the type of the transaction.
    fn assign_type_digits(&self, row: &mut Vec<Fe>, d: &RowData)
        requires
            self.well_formed(),
            old(row)@.len() == self.width(),
        ensures
            final(row)@.len() == old(row)@.len(),
            values_view(final(row)@) == row_cells_3(self, values_view(old(row)@), d@),
    {
        self.tx_type_bits.assign(row, d.tx_type.index());
    }

    /// Fills in the type, the lookup tag, the encoded value and the accounting of the queue.
    fn assign_fields(&self, row: &mut Vec<Fe>, d: &RowData)
        requires
            self.well_formed(),
            old(row)@.len() == self.width(),
        ensures
            final(row)@.len() == old(row)@.len(),
            values_view(final(row)@) == row_cells_4(self, values_view(old(row)@), d@),
    {
        set_cell(row, self.tx_type, Fe::from_u64(d.tx_type.index()));
        set_cell(row, self.rlp_tag, Fe::from_u64(d.rlp_tag.index()));
        set_cell(row, self.is_none, Fe::from_bool(d.is_none));
        set_cell(row, self.tx_value_rlc, d.be_bytes_rlc);
        set_cell(row, self.tx_value_length, Fe::from_u64(d.be_bytes_length));
        set_cell(
            row,
            self.block_num_unchanged.value_inv,
            Fe::from_u64(d.next_block_num).sub(&Fe::from_u64(d.cur_block_num)).invert_or_zero(),
        );
        set_cell(row, self.tx_nonce, Fe::from_u64(d.tx_nonce));
        set_cell(row, self.block_num, Fe::from_u64(d.cur_block_num));
        set_cell(row, self.num_all_txs_acc, Fe::from_u64(d.num_all_txs_acc));
        set_cell(row, self.total_l1_popped_before, Fe::from_u64(d.total_l1_popped_before));
    }

    /// Fills in the stored booleans.
    fn assign_flags(&self, row: &mut Vec<Fe>, d: &RowData)
        requires
            self.well_formed(),
            old(row)@.len() == self.width(),
        ensures
            final(row)@.len() == old(row)@.len(),
            values_view(final(row)@) == row_cells_5(self, values_view(old(row)@), d@),
    {
        set_cell(
            row,
            self.lookup_conditions.tx_calldata,
            Fe::from_bool(d.looks_up_calldata()),
        );
        set_cell(
            row,
            self.lookup_conditions.rlp_sign_tag,
            Fe::from_bool(d.looks_up_sign_tag()),
        );
        set_cell(
            row,
            self.lookup_conditions.rlp_hash_tag,
            Fe::from_bool(d.looks_up_hash_tag()),
        );
        set_cell(
            row,
            self.lookup_conditions.l1_msg_hash,
            Fe::from_bool(d.looks_up_l1_msg_hash()),
        );
        set_cell(row, self.lookup_conditions.keccak, Fe::from_bool(d.looks_up_keccak()));
        set_cell(row, self.is_l1_msg, Fe::from_bool(d.tx_type.is_l1_msg()));
        set_cell(row, self.is_tag_block_num, Fe::from_bool(d.tag == TxFieldTag::BlockNumber));
        set_cell(row, self.is_chain_id, Fe::from_bool(d.tag == TxFieldTag::ChainID));
        set_cell(
            row,
            self.is_caller_address,
            Fe::from_bool(d.tag == TxFieldTag::CallerAddress),
        );
        set_cell(row, self.is_calldata, Fe::from_bool(d.tag == TxFieldTag::CallData));
    }

    /// Fills in the inverses of the tests for zero and the cells of the calldata.
    fn assign_calldata_cells(&self, row: &mut Vec<Fe>, d: &RowData)
        requires
            self.well_formed(),
            old(row)@.len() == self.width(),
        ensures
            final(row)@.len() == old(row)@.len(),
            values_view(final(row)@) == row_cells_6(self, values_view(old(row)@), d@),
    {
        set_cell(
            row,
            self.tx_id_is_zero.value_inv,
            Fe::from_u64(d.tx_id as u64).invert_or_zero(),
        );
        set_cell(row, self.value_is_zero.value_inv, d.value.invert_or_zero());
        set_cell(
            row,
            self.tx_id_unchanged.value_inv,
            Fe::from_u64(d.tx_id as u64).sub(&Fe::from_u64(d.tx_id_next as u64)).invert_or_zero(),
        );
        set_cell(row, self.is_final, Fe::from_bool(d.is_final));
        set_cell(row, self.calldata_gas_cost_acc, Fe::from_u64(d.calldata_gas_cost_acc));
        set_cell(row, self.calldata_rlc, d.calldata_rlc);
        if d.tag == TxFieldTag::CallData {
            set_cell(row, self.calldata_byte, d.value);
        }
        set_cell(row, self.is_padding_tx, Fe::from_bool(d.is_padding_tx));
    }

    /// Fills in the comparison of the sequence number with the cumulative count.
    fn assign_upper_bound(&self, row: &mut Vec<Fe>, d: &RowData)
        requires
            self.well_formed(),
            old(row)@.len() == self.width(),
        ensures
            final(row)@.len() == old(row)@.len(),
            values_view(final(row)@) == row_cells_7(self, values_view(old(row)@), d@),
    {
        self.tx_id_vs_cum_num_txs.assign(
            row,
            Fe::from_u64(d.tx_id as u64),
            Fe::from_u64(d.cum_num_txs as u64),
        );
    }

    /// Fills in the comparison of the count before the block with the sequence number.
    fn assign_lower_bound(&self, row: &mut Vec<Fe>, d: &RowData)
        requires
            self.well_formed(),
            old(row)@.len() == self.width(),
            d.num_txs <= d.cum_num_txs,
        ensures
            final(row)@.len() == old(row)@.len(),
            values_view(final(row)@) == row_cells_8(self, values_view(old(row)@), d@),
    {
        self.tx_id_gt_prev_cnt.assign(
            row,
            Fe::from_u64((d.cum_num_txs - d.num_txs) as u64),
            Fe::from_u64(d.tx_id as u64),
        );
    }

    /// Fills in the counts of the block and the recovered signer.
    fn assign_counts(&self, row: &mut Vec<Fe>, d: &RowData)
        requires
            self.well_formed(),
            old(row)@.len() == self.width(),
        ensures
            final(row)@.len() == old(row)@.len(),
            values_view(final(row)@) == row_cells_9(self, values_view(old(row)@), d@),
    {
        set_cell(row, self.cum_num_txs, Fe::from_u64(d.cum_num_txs as u64));
        set_cell(row, self.num_txs, Fe::from_u64(d.num_txs as u64));
        set_cell(row, self.sv_address, d.sv_address);
    }

    /// Fills the row at `offset` in with what `d` stands for, and moves
    /// `offset` on to the next row.
    pub fn assign_row(&self, region: &mut Region, offset: &mut usize, d: &RowData)
        requires
            self.well_formed(),
            old(region).wf(),
            old(region).width == self.width(),
            *old(offset) < usize::MAX,
            d.num_txs <= d.cum_num_txs,
        ensures
            final(region).wf(),
            final(region).width == old(region).width,
            *final(offset) == *old(offset) + 1,
            final(region)@ == with_row(
                old(region)@,
                self.width(),
                *old(offset) as nat,
                row_cells(
                    self,
                    if *old(offset) < old(region)@.len() {
                        old(region)@[*old(offset) as int]
                    } else {
                        zero_row(self.width())
                    },
                    d@,
                ),
            ),
    {
        proof {
            reveal(row_cells);
        }
        let mut row = region.row(*offset);
        self.assign_table_cells(&mut row, d);
        self.assign_kind_digits(&mut row, d);
        self.assign_type_digits(&mut row, d);
        self.assign_fields(&mut row, d);
        self.assign_flags(&mut row, d);
        self.assign_calldata_cells(&mut row, d);
        self.assign_upper_bound(&mut row, d);
        self.assign_lower_bound(&mut row, d);
        self.assign_counts(&mut row, d);
        region.set_row(*offset, row);
        *offset = *offset + 1;
    }
}

/// What `row_cells_1` writes, and that it leaves the other cells alone.
pub proof fn lemma_row_cells_1(c: &TxCircuitConfig, base: Seq<int>, v: RowView)
    requires
        c.well_formed(),
        base.len() == c.width(),
    ensures
        row_cells_1(c, base, v).len() == base.len(),
        row_cells_1(c, base, v)[c.tx_table.q_enable.index as int] == 1,
        row_cells_1(c, base, v)[c.tx_table.tx_id.index as int] == v.tx_id,
        row_cells_1(c, base, v)[c.tx_table.tag.index as int] == v.tag.spec_index() as int,
        row_cells_1(c, base, v)[c.tx_table.index.index as int] == v.index,
        row_cells_1(c, base, v)[c.tx_table.value.index as int] == v.value,
        forall|k: int|
            0 <= k < base.len() && k != c.tx_table.q_enable.index && k != c.tx_table.tx_id.index && k != c.tx_table.tag.index && k != c.tx_table.index.index && k != c.tx_table.value.index
                ==> #[trigger] row_cells_1(c, base, v)[k] == base[k],
{
}

/// What `row_cells_2` writes, and that it leaves the other cells alone.
pub proof fn lemma_row_cells_2(c: &TxCircuitConfig, base: Seq<int>, v: RowView)
    requires
        c.well_formed(),
        base.len() == c.width(),
    ensures
        row_cells_2(c, base, v).len() == base.len(),
        forall|i: int|
            0 <= i < 5 ==> row_cells_2(c, base, v)[(#[trigger] c.tx_tag_bits.bits@[i]).index as int] == digit(
                v.tag.spec_index(),
                (4 - i) as nat,
            ),
        forall|k: int|
            0 <= k < base.len() && k != c.tx_tag_bits.bits@[0].index && k != c.tx_tag_bits.bits@[1].index && k != c.tx_tag_bits.bits@[2].index && k != c.tx_tag_bits.bits@[3].index && k != c.tx_tag_bits.bits@[4].index
                ==> #[trigger] row_cells_2(c, base, v)[k] == base[k],
{
    lemma_bits_filled(base, c.tx_tag_bits.bits@, v.tag.spec_index(), c.tx_tag_bits.bits@.len());
    assert forall|i: int| 0 <= i < 5 implies row_cells_2(c, base, v)[(
    #[trigger] c.tx_tag_bits.bits@[i]).index as int] == digit(v.tag.spec_index(), (4 - i) as nat) by {
        lemma_bits_filled_digits(base, c.tx_tag_bits.bits@, v.tag.spec_index(), c.tx_tag_bits.bits@.len(), i);
    }
}

/// What `row_cells_3` writes, and that it leaves the other cells alone.
pub proof fn lemma_row_cells_3(c: &TxCircuitConfig, base: Seq<int>, v: RowView)
    requires
        c.well_formed(),
        base.len() == c.width(),
    ensures
        row_cells_3(c, base, v).len() == base.len(),
        forall|i: int|
            0 <= i < 3 ==> row_cells_3(c, base, v)[(#[trigger] c.tx_type_bits.bits@[i]).index as int] == digit(
                v.tx_type.spec_index(),
                (2 - i) as nat,
            ),
        forall|k: int|
            0 <= k < base.len() && k != c.tx_type_bits.bits@[0].index && k != c.tx_type_bits.bits@[1].index && k != c.tx_type_bits.bits@[2].index
                ==> #[trigger] row_cells_3(c, base, v)[k] == base[k],
{
    lemma_bits_filled(base, c.tx_type_bits.bits@, v.tx_type.spec_index(), c.tx_type_bits.bits@.len());
    assert forall|i: int| 0 <= i < 3 implies row_cells_3(c, base, v)[(
    #[trigger] c.tx_type_bits.bits@[i]).index as int] == digit(v.tx_type.spec_index(), (2 - i) as nat) by {
        lemma_bits_filled_digits(base, c.tx_type_bits.bits@, v.tx_type.spec_index(), c.tx_type_bits.bits@.len(), i);
    }
}

/// What `row_cells_4` writes, and that it leaves the other cells alone.
pub proof fn lemma_row_cells_4(c: &TxCircuitConfig, base: Seq<int>, v: RowView)
    requires
        c.well_formed(),
        base.len() == c.width(),
    ensures
        row_cells_4(c, base, v).len() == base.len(),
        row_cells_4(c, base, v)[c.tx_type.index as int] == v.tx_type.spec_index() as int,
        row_cells_4(c, base, v)[c.rlp_tag.index as int] == v.rlp_tag.spec_index() as int,
        row_cells_4(c, base, v)[c.is_none.index as int] == bool_value(v.is_none),
        row_cells_4(c, base, v)[c.tx_value_rlc.index as int] == v.be_bytes_rlc,
        row_cells_4(c, base, v)[c.tx_value_length.index as int] == v.be_bytes_length,
        row_cells_4(c, base, v)[c.block_num_unchanged.value_inv.index as int] == finv_or_zero(fsub(v.next_block_num, v.cur_block_num)),
        row_cells_4(c, base, v)[c.tx_nonce.index as int] == v.tx_nonce,
        row_cells_4(c, base, v)[c.block_num.index as int] == v.cur_block_num,
        row_cells_4(c, base, v)[c.num_all_txs_acc.index as int] == v.num_all_txs_acc,
        row_cells_4(c, base, v)[c.total_l1_popped_before.index as int] == v.total_l1_popped_before,
        forall|k: int|
            0 <= k < base.len() && k != c.tx_type.index && k != c.rlp_tag.index && k != c.is_none.index && k != c.tx_value_rlc.index && k != c.tx_value_length.index && k != c.block_num_unchanged.value_inv.index && k != c.tx_nonce.index && k != c.block_num.index && k != c.num_all_txs_acc.index && k != c.total_l1_popped_before.index
                ==> #[trigger] row_cells_4(c, base, v)[k] == base[k],
{
}

/// What `row_cells_5` writes, and that it leaves the other cells alone.
pub proof fn lemma_row_cells_5(c: &TxCircuitConfig, base: Seq<int>, v: RowView)
    requires
        c.well_formed(),
        base.len() == c.width(),
    ensures
        row_cells_5(c, base, v).len() == base.len(),
        row_cells_5(c, base, v)[c.lookup_conditions.tx_calldata.index as int] == bool_value(v.looks_up_calldata()),
        row_cells_5(c, base, v)[c.lookup_conditions.rlp_sign_tag.index as int] == bool_value(v.looks_up_sign_tag()),
        row_cells_5(c, base, v)[c.lookup_conditions.rlp_hash_tag.index as int] == bool_value(v.looks_up_hash_tag()),
        row_cells_5(c, base, v)[c.lookup_conditions.l1_msg_hash.index as int] == bool_value(v.looks_up_l1_msg_hash()),
        row_cells_5(c, base, v)[c.lookup_conditions.keccak.index as int] == bool_value(v.looks_up_keccak()),
        row_cells_5(c, base, v)[c.is_l1_msg.index as int] == bool_value(v.tx_type == TxType::L1Msg),
        row_cells_5(c, base, v)[c.is_tag_block_num.index as int] == bool_value(v.tag == TxFieldTag::BlockNumber),
        row_cells_5(c, base, v)[c.is_chain_id.index as int] == bool_value(v.tag == TxFieldTag::ChainID),
        row_cells_5(c, base, v)[c.is_caller_address.index as int] == bool_value(v.tag == TxFieldTag::CallerAddress),
        row_cells_5(c, base, v)[c.is_calldata.index as int] == bool_value(v.tag == TxFieldTag::CallData),
        forall|k: int|
            0 <= k < base.len() && k != c.lookup_conditions.tx_calldata.index && k != c.lookup_conditions.rlp_sign_tag.index && k != c.lookup_conditions.rlp_hash_tag.index && k != c.lookup_conditions.l1_msg_hash.index && k != c.lookup_conditions.keccak.index && k != c.is_l1_msg.index && k != c.is_tag_block_num.index && k != c.is_chain_id.index && k != c.is_caller_address.index && k != c.is_calldata.index
                ==> #[trigger] row_cells_5(c, base, v)[k] == base[k],
{
}

/// What `row_cells_6` writes, and that it leaves the other cells alone.
pub proof fn lemma_row_cells_6(c: &TxCircuitConfig, base: Seq<int>, v: RowView)
    requires
        c.well_formed(),
        base.len() == c.width(),
    ensures
        row_cells_6(c, base, v).len() == base.len(),
        row_cells_6(c, base, v)[c.tx_id_is_zero.value_inv.index as int] == finv_or_zero(v.tx_id),
        row_cells_6(c, base, v)[c.value_is_zero.value_inv.index as int] == finv_or_zero(v.value),
        row_cells_6(c, base, v)[c.tx_id_unchanged.value_inv.index as int] == finv_or_zero(fsub(v.tx_id, v.tx_id_next)),
        row_cells_6(c, base, v)[c.is_final.index as int] == bool_value(v.is_final),
        row_cells_6(c, base, v)[c.calldata_gas_cost_acc.index as int] == v.calldata_gas_cost_acc,
        row_cells_6(c, base, v)[c.calldata_rlc.index as int] == v.calldata_rlc,
        v.tag == TxFieldTag::CallData ==> row_cells_6(c, base, v)[c.calldata_byte.index as int] == v.value,
        v.tag != TxFieldTag::CallData ==> row_cells_6(c, base, v)[c.calldata_byte.index as int] == base[c.calldata_byte.index as int],
        row_cells_6(c, base, v)[c.is_padding_tx.index as int] == bool_value(v.is_padding_tx),
        forall|k: int|
            0 <= k < base.len() && k != c.tx_id_is_zero.value_inv.index && k != c.value_is_zero.value_inv.index && k != c.tx_id_unchanged.value_inv.index && k != c.is_final.index && k != c.calldata_gas_cost_acc.index && k != c.calldata_rlc.index && k != c.calldata_byte.index && k != c.is_padding_tx.index
                ==> #[trigger] row_cells_6(c, base, v)[k] == base[k],
{
}

/// What `row_cells_7` writes, and that it leaves the other cells alone.
pub proof fn lemma_row_cells_7(c: &TxCircuitConfig, base: Seq<int>, v: RowView)
    requires
        c.well_formed(),
        base.len() == c.width(),
    ensures
        row_cells_7(c, base, v).len() == base.len(),
        forall|k: int|
            0 <= k < base.len() && k != c.tx_id_vs_cum_num_txs.lt_chip.lt.index && k != c.tx_id_vs_cum_num_txs.lt_chip.diff@[0].index && k != c.tx_id_vs_cum_num_txs.lt_chip.diff@[1].index && k != c.tx_id_vs_cum_num_txs.eq_chip.value_inv.index
                ==> #[trigger] row_cells_7(c, base, v)[k] == base[k],
{
    lemma_lt_filled(
        base,
        c.tx_id_vs_cum_num_txs.lt_chip.lt,
        c.tx_id_vs_cum_num_txs.lt_chip.diff@,
        v.tx_id,
        v.cum_num_txs,
        c.tx_id_vs_cum_num_txs.lt_chip.diff@.len(),
    );
}

/// What `row_cells_8` writes, and that it leaves the other cells alone.
pub proof fn lemma_row_cells_8(c: &TxCircuitConfig, base: Seq<int>, v: RowView)
    requires
        c.well_formed(),
        base.len() == c.width(),
    ensures
        row_cells_8(c, base, v).len() == base.len(),
        forall|k: int|
            0 <= k < base.len() && k != c.tx_id_gt_prev_cnt.lt.index && k != c.tx_id_gt_prev_cnt.diff@[0].index && k != c.tx_id_gt_prev_cnt.diff@[1].index
                ==> #[trigger] row_cells_8(c, base, v)[k] == base[k],
{
    lemma_lt_filled(base, c.tx_id_gt_prev_cnt.lt, c.tx_id_gt_prev_cnt.diff@, v.cum_num_txs - v.num_txs, v.tx_id, c.tx_id_gt_prev_cnt.diff@.len());
}

/// What `row_cells_9` writes, and that it leaves the other cells alone.
pub proof fn lemma_row_cells_9(c: &TxCircuitConfig, base: Seq<int>, v: RowView)
    requires
        c.well_formed(),
        base.len() == c.width(),
    ensures
        row_cells_9(c, base, v).len() == base.len(),
        row_cells_9(c, base, v)[c.cum_num_txs.index as int] == v.cum_num_txs,
        row_cells_9(c, base, v)[c.num_txs.index as int] == v.num_txs,
        row_cells_9(c, base, v)[c.sv_address.index as int] == v.sv_address,
        forall|k: int|
            0 <= k < base.len() && k != c.cum_num_txs.index && k != c.num_txs.index && k != c.sv_address.index
                ==> #[trigger] row_cells_9(c, base, v)[k] == base[k],
{
}

/// The cells of the transaction table and the marks of a row.
pub proof fn lemma_row_table_cells(c: &TxCircuitConfig, base: Seq<int>, v: RowView)
    requires
        c.well_formed(),
        base.len() == c.width(),
    ensures
        row_cells(c, base, v).len() == base.len(),
        row_cells(c, base, v)[c.tx_table.q_enable.index as int] == 1,
        row_cells(c, base, v)[c.tx_table.tx_id.index as int] == v.tx_id,
        row_cells(c, base, v)[c.tx_table.tag.index as int] == v.tag.spec_index() as int,
        row_cells(c, base, v)[c.tx_table.index.index as int] == v.index,
        row_cells(c, base, v)[c.tx_table.value.index as int] == v.value,
        row_cells(c, base, v)[c.q_first.index as int] == base[c.q_first.index as int],
        row_cells(c, base, v)[c.q_calldata_first.index as int] == base[c.q_calldata_first.index as int],
        row_cells(c, base, v)[c.q_calldata_last.index as int] == base[c.q_calldata_last.index as int],
{
    reveal(row_cells);
    let b1 = row_cells_1(c, base, v);
    lemma_row_cells_1(c, base, v);
    let b2 = row_cells_2(c, b1, v);
    lemma_row_cells_2(c, b1, v);
    let b3 = row_cells_3(c, b2, v);
    lemma_row_cells_3(c, b2, v);
    let b4 = row_cells_4(c, b3, v);
    lemma_row_cells_4(c, b3, v);
    let b5 = row_cells_5(c, b4, v);
    lemma_row_cells_5(c, b4, v);
    let b6 = row_cells_6(c, b5, v);
    lemma_row_cells_6(c, b5, v);
    let b7 = row_cells_7(c, b6, v);
    lemma_row_cells_7(c, b6, v);
    let b8 = row_cells_8(c, b7, v);
    lemma_row_cells_8(c, b7, v);
    let b9 = row_cells_9(c, b8, v);
    lemma_row_cells_9(c, b8, v);
}


/// The digits of the kind and of the type of a row.
pub proof fn lemma_row_digits(c: &TxCircuitConfig, base: Seq<int>, v: RowView)
    requires
        c.well_formed(),
        base.len() == c.width(),
    ensures
        row_cells(c, base, v).len() == base.len(),
        forall|i: int|
            0 <= i < 5 ==> row_cells(c, base, v)[(#[trigger] c.tx_tag_bits.bits@[i]).index as int] == digit(
                v.tag.spec_index(),
                (4 - i) as nat,
            ),
        forall|i: int|
            0 <= i < 3 ==> row_cells(c, base, v)[(#[trigger] c.tx_type_bits.bits@[i]).index as int] == digit(
                v.tx_type.spec_index(),
                (2 - i) as nat,
            ),
{
    reveal(row_cells);
    let b1 = row_cells_1(c, base, v);
    lemma_row_cells_1(c, base, v);
    let b2 = row_cells_2(c, b1, v);
    lemma_row_cells_2(c, b1, v);
    let b3 = row_cells_3(c, b2, v);
    lemma_row_cells_3(c, b2, v);
    let b4 = row_cells_4(c, b3, v);
    lemma_row_cells_4(c, b3, v);
    let b5 = row_cells_5(c, b4, v);
    lemma_row_cells_5(c, b4, v);
    let b6 = row_cells_6(c, b5, v);
    lemma_row_cells_6(c, b5, v);
    let b7 = row_cells_7(c, b6, v);
    lemma_row_cells_7(c, b6, v);
    let b8 = row_cells_8(c, b7, v);
    lemma_row_cells_8(c, b7, v);
    let b9 = row_cells_9(c, b8, v);
    lemma_row_cells_9(c, b8, v);
}


/// The cells of a row that hold the type, the lookup tag, the encoded value
/// and the accounting of the queue.
pub proof fn lemma_row_fields(c: &TxCircuitConfig, base: Seq<int>, v: RowView)
    requires
        c.well_formed(),
        base.len() == c.width(),
    ensures
        row_cells(c, base, v).len() == base.len(),
        row_cells(c, base, v)[c.tx_type.index as int] == v.tx_type.spec_index() as int,
        row_cells(c, base, v)[c.rlp_tag.index as int] == v.rlp_tag.spec_index() as int,
        row_cells(c, base, v)[c.is_none.index as int] == bool_value(v.is_none),
        row_cells(c, base, v)[c.tx_value_rlc.index as int] == v.be_bytes_rlc,
        row_cells(c, base, v)[c.tx_value_length.index as int] == v.be_bytes_length,
        row_cells(c, base, v)[c.block_num_unchanged.value_inv.index as int] == finv_or_zero(fsub(v.next_block_num, v.cur_block_num)),
        row_cells(c, base, v)[c.tx_nonce.index as int] == v.tx_nonce,
        row_cells(c, base, v)[c.block_num.index as int] == v.cur_block_num,
        row_cells(c, base, v)[c.num_all_txs_acc.index as int] == v.num_all_txs_acc,
        row_cells(c, base, v)[c.total_l1_popped_before.index as int] == v.total_l1_popped_before,
{
    reveal(row_cells);
    let b1 = row_cells_1(c, base, v);
    lemma_row_cells_1(c, base, v);
    let b2 = row_cells_2(c, b1, v);
    lemma_row_cells_2(c, b1, v);
    let b3 = row_cells_3(c, b2, v);
    lemma_row_cells_3(c, b2, v);
    let b4 = row_cells_4(c, b3, v);
    lemma_row_cells_4(c, b3, v);
    let b5 = row_cells_5(c, b4, v);
    lemma_row_cells_5(c, b4, v);
    let b6 = row_cells_6(c, b5, v);
    lemma_row_cells_6(c, b5, v);
    let b7 = row_cells_7(c, b6, v);
    lemma_row_cells_7(c, b6, v);
    let b8 = row_cells_8(c, b7, v);
    lemma_row_cells_8(c, b7, v);
    let b9 = row_cells_9(c, b8, v);
    lemma_row_cells_9(c, b8, v);
}


/// The stored booleans of a row.
pub proof fn lemma_row_flags(c: &TxCircuitConfig, base: Seq<int>, v: RowView)
    requires
        c.well_formed(),
        base.len() == c.width(),
    ensures
        row_cells(c, base, v).len() == base.len(),
        row_cells(c, base, v)[c.lookup_conditions.tx_calldata.index as int] == bool_value(v.looks_up_calldata()),
        row_cells(c, base, v)[c.lookup_conditions.rlp_sign_tag.index as int] == bool_value(v.looks_up_sign_tag()),
        row_cells(c, base, v)[c.lookup_conditions.rlp_hash_tag.index as int] == bool_value(v.looks_up_hash_tag()),
        row_cells(c, base, v)[c.lookup_conditions.l1_msg_hash.index as int] == bool_value(v.looks_up_l1_msg_hash()),
        row_cells(c, base, v)[c.lookup_conditions.keccak.index as int] == bool_value(v.looks_up_keccak()),
        row_cells(c, base, v)[c.is_l1_msg.index as int] == bool_value(v.tx_type == TxType::L1Msg),
        row_cells(c, base, v)[c.is_tag_block_num.index as int] == bool_value(v.tag == TxFieldTag::BlockNumber),
        row_cells(c, base, v)[c.is_chain_id.index as int] == bool_value(v.tag == TxFieldTag::ChainID),
        row_cells(c, base, v)[c.is_caller_address.index as int] == bool_value(v.tag == TxFieldTag::CallerAddress),
        row_cells(c, base, v)[c.is_calldata.index as int] == bool_value(v.tag == TxFieldTag::CallData),
{
    reveal(row_cells);
    let b1 = row_cells_1(c, base, v);
    lemma_row_cells_1(c, base, v);
    let b2 = row_cells_2(c, b1, v);
    lemma_row_cells_2(c, b1, v);
    let b3 = row_cells_3(c, b2, v);
    lemma_row_cells_3(c, b2, v);
    let b4 = row_cells_4(c, b3, v);
    lemma_row_cells_4(c, b3, v);
    let b5 = row_cells_5(c, b4, v);
    lemma_row_cells_5(c, b4, v);
    let b6 = row_cells_6(c, b5, v);
    lemma_row_cells_6(c, b5, v);
    let b7 = row_cells_7(c, b6, v);
    lemma_row_cells_7(c, b6, v);
    let b8 = row_cells_8(c, b7, v);
    lemma_row_cells_8(c, b7, v);
    let b9 = row_cells_9(c, b8, v);
    lemma_row_cells_9(c, b8, v);
}


/// The inverses, the cells of the calldata and the counts of a row.
pub proof fn lemma_row_rest(c: &TxCircuitConfig, base: Seq<int>, v: RowView)
    requires
        c.well_formed(),
        base.len() == c.width(),
    ensures
        row_cells(c, base, v).len() == base.len(),
        row_cells(c, base, v)[c.tx_id_is_zero.value_inv.index as int] == finv_or_zero(v.tx_id),
        row_cells(c, base, v)[c.value_is_zero.value_inv.index as int] == finv_or_zero(v.value),
        row_cells(c, base, v)[c.tx_id_unchanged.value_inv.index as int] == finv_or_zero(fsub(v.tx_id, v.tx_id_next)),
        row_cells(c, base, v)[c.is_final.index as int] == bool_value(v.is_final),
        row_cells(c, base, v)[c.calldata_gas_cost_acc.index as int] == v.calldata_gas_cost_acc,
        row_cells(c, base, v)[c.calldata_rlc.index as int] == v.calldata_rlc,
        v.tag == TxFieldTag::CallData ==> row_cells(c, base, v)[c.calldata_byte.index as int] == v.value,
        v.tag != TxFieldTag::CallData ==> row_cells(c, base, v)[c.calldata_byte.index as int] == base[c.calldata_byte.index as int],
        row_cells(c, base, v)[c.is_padding_tx.index as int] == bool_value(v.is_padding_tx),
        row_cells(c, base, v)[c.cum_num_txs.index as int] == v.cum_num_txs,
        row_cells(c, base, v)[c.num_txs.index as int] == v.num_txs,
        row_cells(c, base, v)[c.sv_address.index as int] == v.sv_address,
{
    reveal(row_cells);
    let b1 = row_cells_1(c, base, v);
    lemma_row_cells_1(c, base, v);
    let b2 = row_cells_2(c, b1, v);
    lemma_row_cells_2(c, b1, v);
    let b3 = row_cells_3(c, b2, v);
    lemma_row_cells_3(c, b2, v);
    let b4 = row_cells_4(c, b3, v);
    lemma_row_cells_4(c, b3, v);
    let b5 = row_cells_5(c, b4, v);
    lemma_row_cells_5(c, b4, v);
    let b6 = row_cells_6(c, b5, v);
    lemma_row_cells_6(c, b5, v);
    let b7 = row_cells_7(c, b6, v);
    lemma_row_cells_7(c, b6, v);
    let b8 = row_cells_8(c, b7, v);
    lemma_row_cells_8(c, b7, v);
    let b9 = row_cells_9(c, b8, v);
    lemma_row_cells_9(c, b8, v);
}


/// The cells of a row hold what the row stands for.
pub proof fn lemma_row_cells(c: &TxCircuitConfig, base: Seq<int>, v: RowView)
    requires
        c.well_formed(),
        base.len() == c.width(),
    ensures
        row_cells(c, base, v).len() == base.len(),
        row_cells(c, base, v)[c.tx_table.q_enable.index as int] == 1,
        row_cells(c, base, v)[c.tx_table.tx_id.index as int] == v.tx_id,
        row_cells(c, base, v)[c.tx_table.tag.index as int] == v.tag.spec_index() as int,
        row_cells(c, base, v)[c.tx_table.index.index as int] == v.index,
        row_cells(c, base, v)[c.tx_table.value.index as int] == v.value,
        row_cells(c, base, v)[c.tx_type.index as int] == v.tx_type.spec_index() as int,
        row_cells(c, base, v)[c.rlp_tag.index as int] == v.rlp_tag.spec_index() as int,
        row_cells(c, base, v)[c.is_none.index as int] == bool_value(v.is_none),
        row_cells(c, base, v)[c.tx_value_rlc.index as int] == v.be_bytes_rlc,
        row_cells(c, base, v)[c.tx_value_length.index as int] == v.be_bytes_length,
        row_cells(c, base, v)[c.block_num_unchanged.value_inv.index as int] == finv_or_zero(fsub(v.next_block_num, v.cur_block_num)),
        row_cells(c, base, v)[c.tx_nonce.index as int] == v.tx_nonce,
        row_cells(c, base, v)[c.block_num.index as int] == v.cur_block_num,
        row_cells(c, base, v)[c.num_all_txs_acc.index as int] == v.num_all_txs_acc,
        row_cells(c, base, v)[c.total_l1_popped_before.index as int] == v.total_l1_popped_before,
        row_cells(c, base, v)[c.lookup_conditions.tx_calldata.index as int] == bool_value(v.looks_up_calldata()),
        row_cells(c, base, v)[c.lookup_conditions.rlp_sign_tag.index as int] == bool_value(v.looks_up_sign_tag()),
        row_cells(c, base, v)[c.lookup_conditions.rlp_hash_tag.index as int] == bool_value(v.looks_up_hash_tag()),
        row_cells(c, base, v)[c.lookup_conditions.l1_msg_hash.index as int] == bool_value(v.looks_up_l1_msg_hash()),
        row_cells(c, base, v)[c.lookup_conditions.keccak.index as int] == bool_value(v.looks_up_keccak()),
        row_cells(c, base, v)[c.is_l1_msg.index as int] == bool_value(v.tx_type == TxType::L1Msg),
        row_cells(c, base, v)[c.is_tag_block_num.index as int] == bool_value(v.tag == TxFieldTag::BlockNumber),
        row_cells(c, base, v)[c.is_chain_id.index as int] == bool_value(v.tag == TxFieldTag::ChainID),
        row_cells(c, base, v)[c.is_caller_address.index as int] == bool_value(v.tag == TxFieldTag::CallerAddress),
        row_cells(c, base, v)[c.is_calldata.index as int] == bool_value(v.tag == TxFieldTag::CallData),
        row_cells(c, base, v)[c.tx_id_is_zero.value_inv.index as int] == finv_or_zero(v.tx_id),
        row_cells(c, base, v)[c.value_is_zero.value_inv.index as int] == finv_or_zero(v.value),
        row_cells(c, base, v)[c.tx_id_unchanged.value_inv.index as int] == finv_or_zero(fsub(v.tx_id, v.tx_id_next)),
        row_cells(c, base, v)[c.is_final.index as int] == bool_value(v.is_final),
        row_cells(c, base, v)[c.calldata_gas_cost_acc.index as int] == v.calldata_gas_cost_acc,
        row_cells(c, base, v)[c.calldata_rlc.index as int] == v.calldata_rlc,
        v.tag == TxFieldTag::CallData ==> row_cells(c, base, v)[c.calldata_byte.index as int] == v.value,
        v.tag != TxFieldTag::CallData ==> row_cells(c, base, v)[c.calldata_byte.index as int] == base[c.calldata_byte.index as int],
        row_cells(c, base, v)[c.is_padding_tx.index as int] == bool_value(v.is_padding_tx),
        row_cells(c, base, v)[c.cum_num_txs.index as int] == v.cum_num_txs,
        row_cells(c, base, v)[c.num_txs.index as int] == v.num_txs,
        row_cells(c, base, v)[c.sv_address.index as int] == v.sv_address,
        forall|i: int|
            0 <= i < 5 ==> row_cells(c, base, v)[(#[trigger] c.tx_tag_bits.bits@[i]).index as int] == digit(
                v.tag.spec_index(),
                (4 - i) as nat,
            ),
        forall|i: int|
            0 <= i < 3 ==> row_cells(c, base, v)[(#[trigger] c.tx_type_bits.bits@[i]).index as int] == digit(
                v.tx_type.spec_index(),
                (2 - i) as nat,
            ),
        row_cells(c, base, v)[c.q_first.index as int] == base[c.q_first.index as int],
        row_cells(c, base, v)[c.q_calldata_first.index as int] == base[c.q_calldata_first.index as int],
        row_cells(c, base, v)[c.q_calldata_last.index as int] == base[c.q_calldata_last.index as int],
{
    lemma_row_table_cells(c, base, v);
    lemma_row_digits(c, base, v);
    lemma_row_fields(c, base, v);
    lemma_row_flags(c, base, v);
    lemma_row_rest(c, base, v);
}

} // verus!
