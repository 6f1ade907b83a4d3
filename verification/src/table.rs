//! The tables of the circuit: the row kinds of the transaction table, the
//! kinds of block aggregates, and the columns of each table.

use crate::expr::cell_at;
use crate::expr::Column;
use crate::expr::Expr;
use crate::plonk::ConstraintSystem;
use crate::plonk::ConstraintSystemView;
use crate::plonk::RangeTable;
use vstd::prelude::*;

verus! {

/// The kind of a row of the transaction table. The header of a transaction
/// holds one row of each kind from `Nonce` to `BlockNumber`, in this order;
/// `CallData` rows follow the headers of all transactions.
#[derive(Clone, Copy, Debug, PartialEq, Eq, Structural)]
pub enum TxFieldTag {
    Null,
    Nonce,
    GasPrice,
    Gas,
    CallerAddress,
    CalleeAddress,
    IsCreate,
    Value,
    CallDataRLC,
    CallDataLength,
    CallDataGasCost,
    TxDataGasCost,
    ChainID,
    SigV,
    SigR,
    SigS,
    TxSignLength,
    TxSignRLC,
    TxSignHash,
    TxHashLength,
    TxHashRLC,
    TxHash,
    TxType,
    BlockNumber,
    CallData,
}

impl TxFieldTag {
    /// The number of the kind.
    pub open spec fn spec_index(self) -> nat {
        match self {
            TxFieldTag::Null => 0,
            TxFieldTag::Nonce => 1,
            TxFieldTag::GasPrice => 2,
            TxFieldTag::Gas => 3,
            TxFieldTag::CallerAddress => 4,
            TxFieldTag::CalleeAddress => 5,
            TxFieldTag::IsCreate => 6,
            TxFieldTag::Value => 7,
            TxFieldTag::CallDataRLC => 8,
            TxFieldTag::CallDataLength => 9,
            TxFieldTag::CallDataGasCost => 10,
            TxFieldTag::TxDataGasCost => 11,
            TxFieldTag::ChainID => 12,
            TxFieldTag::SigV => 13,
            TxFieldTag::SigR => 14,
            TxFieldTag::SigS => 15,
            TxFieldTag::TxSignLength => 16,
            TxFieldTag::TxSignRLC => 17,
            TxFieldTag::TxSignHash => 18,
            TxFieldTag::TxHashLength => 19,
            TxFieldTag::TxHashRLC => 20,
            TxFieldTag::TxHash => 21,
            TxFieldTag::TxType => 22,
            TxFieldTag::BlockNumber => 23,
            TxFieldTag::CallData => 24,
        }
    }

    /// The number of the kind.
    pub fn index(&self) -> (r: u64)
        ensures
            r == self.spec_index(),
    {
        match self {
            TxFieldTag::Null => 0,
            TxFieldTag::Nonce => 1,
            TxFieldTag::GasPrice => 2,
            TxFieldTag::Gas => 3,
            TxFieldTag::CallerAddress => 4,
            TxFieldTag::CalleeAddress => 5,
            TxFieldTag::IsCreate => 6,
            TxFieldTag::Value => 7,
            TxFieldTag::CallDataRLC => 8,
            TxFieldTag::CallDataLength => 9,
            TxFieldTag::CallDataGasCost => 10,
            TxFieldTag::TxDataGasCost => 11,
            TxFieldTag::ChainID => 12,
            TxFieldTag::SigV => 13,
            TxFieldTag::SigR => 14,
            TxFieldTag::SigS => 15,
            TxFieldTag::TxSignLength => 16,
            TxFieldTag::TxSignRLC => 17,
            TxFieldTag::TxSignHash => 18,
            TxFieldTag::TxHashLength => 19,
            TxFieldTag::TxHashRLC => 20,
            TxFieldTag::TxHash => 21,
            TxFieldTag::TxType => 22,
            TxFieldTag::BlockNumber => 23,
            TxFieldTag::CallData => 24,
        }
    }

    /// The kind as a constant expression.
    pub fn expr(&self) -> (r: Expr)
        ensures
            r == crate::expr::lit(self.spec_index() as int),
    {
        Expr::from_u64(self.index())
    }

    /// The numbers of all kinds, in rising order.
    pub fn all_indices() -> (r: Vec<u64>)
        ensures
            r@ == crate::gadgets::first_indices(25),
    {
        let mut v: Vec<u64> = Vec::new();
        let mut i: u64 = 0;
        while i < 25
            invariant
                i <= 25,
                v@.len() == i,
                forall|k: int| 0 <= k < i ==> #[trigger] v@[k] == k,
            decreases 25 - i,
        {
            v.push(i);
            i = i + 1;
        }
        proof {
            assert(v@ =~= crate::gadgets::first_indices(25));
        }
        v
    }
}

/// The kind of a block aggregate.
#[derive(Clone, Copy, Debug, PartialEq, Eq, Structural)]
pub enum BlockContextFieldTag {
    /// The number of transactions of the block.
    NumTxs,
    /// The number of transactions up to and including the block.
    CumNumTxs,
    /// The number of transactions of the block together with the messages
    /// that it took from the queue.
    NumAllTxs,
}

impl BlockContextFieldTag {
    /// The number of the kind.
    pub open spec fn spec_index(self) -> nat {
        match self {
            BlockContextFieldTag::NumTxs => 11,
            BlockContextFieldTag::CumNumTxs => 12,
            BlockContextFieldTag::NumAllTxs => 13,
        }
    }

    /// The number of the kind.
    pub fn index(&self) -> (r: u64)
        ensures
            r == self.spec_index(),
    {
        match self {
            BlockContextFieldTag::NumTxs => 11,
            BlockContextFieldTag::CumNumTxs => 12,
            BlockContextFieldTag::NumAllTxs => 13,
        }
    }

    /// The kind as a constant expression.
    pub fn expr(&self) -> (r: Expr)
        ensures
            r == crate::expr::lit(self.spec_index() as int),
    {
        Expr::from_u64(self.index())
    }
}

/// The columns of the transaction table.
#[derive(Clone, Copy, Debug, PartialEq, Eq, Structural)]
pub struct TxTable {
    pub q_enable: Column,
    pub tx_id: Column,
    pub tag: Column,
    pub index: Column,
    pub value: Column,
}

/// The columns of the table of block aggregates.
#[derive(Clone, Copy, Debug, PartialEq, Eq, Structural)]
pub struct BlockTable {
    pub tag: Column,
    pub index: Column,
    pub value: Column,
}

/// The columns of the table of hashes.
#[derive(Clone, Copy, Debug, PartialEq, Eq, Structural)]
pub struct KeccakTable {
    pub q_enable: Column,
    pub is_final: Column,
    pub input_rlc: Column,
    pub input_len: Column,
    pub output_rlc: Column,
}

/// The columns of the table of decoded fields.
#[derive(Clone, Copy, Debug, PartialEq, Eq, Structural)]
pub struct RlpTable {
    pub q_enable: Column,
    pub tx_id: Column,
    pub format: Column,
    pub rlp_tag: Column,
    pub tag_value: Column,
    pub tag_bytes_rlc: Column,
    pub tag_length: Column,
    pub is_output: Column,
    pub is_none: Column,
}

/// The columns of the table of signatures.
#[derive(Clone, Copy, Debug, PartialEq, Eq, Structural)]
pub struct SigTable {
    pub q_enable: Column,
    pub msg_hash_rlc: Column,
    pub sig_v: Column,
    pub sig_r_rlc: Column,
    pub sig_s_rlc: Column,
    pub recovered_addr: Column,
    pub is_valid: Column,
}

/// The column at `index`.
pub open spec fn advice(index: nat) -> Column {
    Column { index: index as usize, fixed: false }
}

/// The fixed column at `index`.
pub open spec fn fixed(index: nat) -> Column {
    Column { index: index as usize, fixed: true }
}

/// The constraint system with `n` more columns.
pub open spec fn grown(cs: ConstraintSystemView, n: nat) -> ConstraintSystemView {
    ConstraintSystemView { num_columns: cs.num_columns + n, ..cs }
}

impl TxTable {
    /// The table whose columns follow one another from `first` on.
    pub open spec fn at(first: nat) -> TxTable {
        TxTable {
            q_enable: fixed(first),
            tx_id: advice(first + 1),
            tag: fixed(first + 2),
            index: advice(first + 3),
            value: advice(first + 4),
        }
    }

    /// Adds the columns of the table.
    pub fn construct(meta: &mut ConstraintSystem) -> (r: TxTable)
        requires
            old(meta).num_columns + 5 <= usize::MAX,
        ensures
            r == TxTable::at(old(meta)@.num_columns),
            final(meta)@ == grown(old(meta)@, 5),
    {
        let q_enable = meta.fixed_column();
        let tx_id = meta.advice_column();
        let tag = meta.fixed_column();
        let index = meta.advice_column();
        let value = meta.advice_column();
        TxTable { q_enable, tx_id, tag, index, value }
    }
}

impl BlockTable {
    /// The table whose columns follow one another from `first` on.
    pub open spec fn at(first: nat) -> BlockTable {
        BlockTable { tag: fixed(first), index: advice(first + 1), value: advice(first + 2) }
    }

    /// The cells of a row of the table.
    pub open spec fn spec_table_exprs(self) -> Seq<Expr> {
        seq![cell_at(self.tag, 0), cell_at(self.index, 0), cell_at(self.value, 0)]
    }

    /// Adds the columns of the table.
    pub fn construct(meta: &mut ConstraintSystem) -> (r: BlockTable)
        requires
            old(meta).num_columns + 3 <= usize::MAX,
        ensures
            r == BlockTable::at(old(meta)@.num_columns),
            final(meta)@ == grown(old(meta)@, 3),
    {
        let tag = meta.fixed_column();
        let index = meta.advice_column();
        let value = meta.advice_column();
        BlockTable { tag, index, value }
    }

    /// The cells of a row of the table.
    pub fn table_exprs(&self) -> (r: Vec<Expr>)
        ensures
            r@ == self.spec_table_exprs(),
    {
        let mut v: Vec<Expr> = Vec::new();
        v.push(Expr::query(self.tag, 0));
        v.push(Expr::query(self.index, 0));
        v.push(Expr::query(self.value, 0));
        v
    }
}

impl KeccakTable {
    /// The table whose columns follow one another from `first` on.
    pub open spec fn at(first: nat) -> KeccakTable {
        KeccakTable {
            q_enable: fixed(first),
            is_final: advice(first + 1),
            input_rlc: advice(first + 2),
            input_len: advice(first + 3),
            output_rlc: advice(first + 4),
        }
    }

    /// The cells of a row of the table.
    pub open spec fn spec_table_exprs(self) -> Seq<Expr> {
        seq![
            cell_at(self.q_enable, 0),
            cell_at(self.is_final, 0),
            cell_at(self.input_rlc, 0),
            cell_at(self.input_len, 0),
            cell_at(self.output_rlc, 0),
        ]
    }

    /// Adds the columns of the table.
    pub fn construct(meta: &mut ConstraintSystem) -> (r: KeccakTable)
        requires
            old(meta).num_columns + 5 <= usize::MAX,
        ensures
            r == KeccakTable::at(old(meta)@.num_columns),
            final(meta)@ == grown(old(meta)@, 5),
    {
        let q_enable = meta.fixed_column();
        let is_final = meta.advice_column();
        let input_rlc = meta.advice_column();
        let input_len = meta.advice_column();
        let output_rlc = meta.advice_column();
        KeccakTable { q_enable, is_final, input_rlc, input_len, output_rlc }
    }

    /// The cells of a row of the table.
    pub fn table_exprs(&self) -> (r: Vec<Expr>)
        ensures
            r@ == self.spec_table_exprs(),
    {
        let mut v: Vec<Expr> = Vec::new();
        v.push(Expr::query(self.q_enable, 0));
        v.push(Expr::query(self.is_final, 0));
        v.push(Expr::query(self.input_rlc, 0));
        v.push(Expr::query(self.input_len, 0));
        v.push(Expr::query(self.output_rlc, 0));
        v
    }
}

impl RlpTable {
    /// The table whose columns follow one another from `first` on.
    pub open spec fn at(first: nat) -> RlpTable {
        RlpTable {
            q_enable: fixed(first),
            tx_id: advice(first + 1),
            format: advice(first + 2),
            rlp_tag: advice(first + 3),
            tag_value: advice(first + 4),
            tag_bytes_rlc: advice(first + 5),
            tag_length: advice(first + 6),
            is_output: advice(first + 7),
            is_none: advice(first + 8),
        }
    }

    /// The cells of a row of the table.
    pub open spec fn spec_table_exprs(self) -> Seq<Expr> {
        seq![
            cell_at(self.q_enable, 0),
            cell_at(self.tx_id, 0),
            cell_at(self.format, 0),
            cell_at(self.rlp_tag, 0),
            cell_at(self.tag_value, 0),
            cell_at(self.tag_bytes_rlc, 0),
            cell_at(self.tag_length, 0),
            cell_at(self.is_output, 0),
            cell_at(self.is_none, 0),
        ]
    }

    /// Adds the columns of the table.
    pub fn construct(meta: &mut ConstraintSystem) -> (r: RlpTable)
        requires
            old(meta).num_columns + 9 <= usize::MAX,
        ensures
            r == RlpTable::at(old(meta)@.num_columns),
            final(meta)@ == grown(old(meta)@, 9),
    {
        let q_enable = meta.fixed_column();
        let tx_id = meta.advice_column();
        let format = meta.advice_column();
        let rlp_tag = meta.advice_column();
        let tag_value = meta.advice_column();
        let tag_bytes_rlc = meta.advice_column();
        let tag_length = meta.advice_column();
        let is_output = meta.advice_column();
        let is_none = meta.advice_column();
        RlpTable {
            q_enable,
            tx_id,
            format,
            rlp_tag,
            tag_value,
            tag_bytes_rlc,
            tag_length,
            is_output,
            is_none,
        }
    }

    /// The cells of a row of the table.
    pub fn table_exprs(&self) -> (r: Vec<Expr>)
        ensures
            r@ == self.spec_table_exprs(),
    {
        let mut v: Vec<Expr> = Vec::new();
        v.push(Expr::query(self.q_enable, 0));
        v.push(Expr::query(self.tx_id, 0));
        v.push(Expr::query(self.format, 0));
        v.push(Expr::query(self.rlp_tag, 0));
        v.push(Expr::query(self.tag_value, 0));
        v.push(Expr::query(self.tag_bytes_rlc, 0));
        v.push(Expr::query(self.tag_length, 0));
        v.push(Expr::query(self.is_output, 0));
        v.push(Expr::query(self.is_none, 0));
        v
    }
}

impl SigTable {
    /// The table whose columns follow one another from `first` on.
    pub open spec fn at(first: nat) -> SigTable {
        SigTable {
            q_enable: fixed(first),
            msg_hash_rlc: advice(first + 1),
            sig_v: advice(first + 2),
            sig_r_rlc: advice(first + 3),
            sig_s_rlc: advice(first + 4),
            recovered_addr: advice(first + 5),
            is_valid: advice(first + 6),
        }
    }

    /// The cells of a row of the table.
    pub open spec fn spec_table_exprs(self) -> Seq<Expr> {
        seq![
            cell_at(self.q_enable, 0),
            cell_at(self.msg_hash_rlc, 0),
            cell_at(self.sig_v, 0),
            cell_at(self.sig_r_rlc, 0),
            cell_at(self.sig_s_rlc, 0),
            cell_at(self.recovered_addr, 0),
            cell_at(self.is_valid, 0),
        ]
    }

    /// Adds the columns of the table.
    pub fn construct(meta: &mut ConstraintSystem) -> (r: SigTable)
        requires
            old(meta).num_columns + 7 <= usize::MAX,
        ensures
            r == SigTable::at(old(meta)@.num_columns),
            final(meta)@ == grown(old(meta)@, 7),
    {
        let q_enable = meta.fixed_column();
        let msg_hash_rlc = meta.advice_column();
        let sig_v = meta.advice_column();
        let sig_r_rlc = meta.advice_column();
        let sig_s_rlc = meta.advice_column();
        let recovered_addr = meta.advice_column();
        let is_valid = meta.advice_column();
        SigTable { q_enable, msg_hash_rlc, sig_v, sig_r_rlc, sig_s_rlc, recovered_addr, is_valid }
    }

    /// The cells of a row of the table.
    pub fn table_exprs(&self) -> (r: Vec<Expr>)
        ensures
            r@ == self.spec_table_exprs(),
    {
        let mut v: Vec<Expr> = Vec::new();
        v.push(Expr::query(self.q_enable, 0));
        v.push(Expr::query(self.msg_hash_rlc, 0));
        v.push(Expr::query(self.sig_v, 0));
        v.push(Expr::query(self.sig_r_rlc, 0));
        v.push(Expr::query(self.sig_s_rlc, 0));
        v.push(Expr::query(self.recovered_addr, 0));
        v.push(Expr::query(self.is_valid, 0));
        v
    }
}

/// The table of the values of one byte.
pub fn u8_table() -> (r: RangeTable)
    ensures
        r.bound == 256,
{
    RangeTable { bound: 256 }
}

/// The table of the values of two bytes.
pub fn u16_table() -> (r: RangeTable)
    ensures
        r.bound == 65536,
{
    RangeTable { bound: 65536 }
}

} // verus!
