//! The gates of the transaction circuit.
//!
//! Each gate is given twice: as the sequence of polynomials that it consists
//! of, and as the function that builds them. A polynomial of a gate is the
//! product of its selector, of the condition that the requirement was made
//! under, and of what is required to vanish.

use crate::constraint_builder::boolean_poly;
use crate::constraint_builder::gated;
use crate::constraint_builder::in_set_poly;
use crate::constraint_builder::ConstraintBuilder;
use crate::constraint_builder::Scope;
use crate::expr::cell_at;
use crate::expr::lit;
use crate::expr::minus;
use crate::expr::plus;
use crate::expr::times;
use crate::expr::Constraint;
use crate::expr::Expr;
use crate::gadgets::is_zero_expr;
use crate::gadgets::value_equals_expr;
use crate::plonk::ConstraintSystem;
use crate::plonk::ConstraintSystemView;
use crate::plonk::GateView;
use crate::plonk::RangeLookup;
use crate::table::TxFieldTag;
use crate::tx_circuit::TxCircuitConfig;
use crate::util::and;
use crate::util::and_expr;
use crate::util::not;
use crate::util::not_expr;
use crate::util::select;
use crate::util::select_expr;
use crate::util::sum;
use crate::util::sum_expr;
use crate::witness::ChallengeExprs;
use crate::witness::RlpTag;
use crate::witness::Tag;
use crate::witness::TxType;
use vstd::prelude::*;

verus! {

/// The indicator of a kind of row, read `rotation` rows after the current
/// one.
pub open spec fn is_tag(c: &TxCircuitConfig, tag: TxFieldTag, rotation: int) -> Expr {
    value_equals_expr(c.tx_tag_bits.bits@, tag.spec_index(), rotation)
}

/// The indicator of a type of transaction on the current row.
pub open spec fn is_type(c: &TxCircuitConfig, ty: TxType) -> Expr {
    value_equals_expr(c.tx_type_bits.bits@, ty.spec_index(), 0)
}

impl TxCircuitConfig {
    /// The indicator of a kind of row, read `rotation` rows after the
    /// current one.
    pub fn is_tag(&self, tag: TxFieldTag, rotation: i32) -> (r: Expr)
        ensures
            r == is_tag(self, tag, rotation as int),
    {
        self.tx_tag_bits.value_equals(tag.index(), rotation)
    }

    /// The indicator of a type of transaction on the current row.
    pub fn is_type(&self, ty: TxType) -> (r: Expr)
        ensures
            r == is_type(self, ty),
    {
        self.tx_type_bits.value_equals(ty.index(), 0)
    }
}

/// The row after the first row of the table belongs to the transaction 1.
pub open spec fn tx_id_starts(c: &TxCircuitConfig) -> Seq<Constraint> {
    gated(
        seq![
            ("tx_id == 1", times(lit(1), minus(cell_at(c.tx_table.tx_id, 1), lit(1)))),
        ],
        cell_at(c.q_first, 0),
    )
}

/// Builds `tx_id_starts`.
pub fn build_tx_id_starts(c: &TxCircuitConfig) -> (r: Vec<Constraint>)
    ensures
        r@ == tx_id_starts(c),
{
    let mut cb = ConstraintBuilder::new();
    let root = Scope::root();
    cb.require_equal(&root, "tx_id == 1", Expr::query(c.tx_table.tx_id, 1), Expr::from_u64(1));
    cb.gate(Expr::query(c.q_first, 0))
}

/// From a row of a header to the next row, where that is a row of a header too: the row before
/// a `Nonce` row belongs to the transaction before, and any other two rows belong to one
/// transaction and agree on what is computed once for each transaction. A row of calldata is
/// bound to no row after it.
pub open spec fn tx_id_transition(c: &TxCircuitConfig) -> Seq<Constraint> {
    gated(
        seq![
            (
                "tx_id increments",
                times(
                    times(lit(1), is_tag(c, TxFieldTag::Nonce, 1)),
                    minus(cell_at(c.tx_table.tx_id, 1), plus(cell_at(c.tx_table.tx_id, 0), lit(1))),
                ),
            ),
            (
                "tx_id does not change",
                times(
                    times(lit(1), not_expr(is_tag(c, TxFieldTag::Nonce, 1))),
                    minus(cell_at(c.tx_table.tx_id, 1), cell_at(c.tx_table.tx_id, 0)),
                ),
            ),
            (
                "tx_type",
                times(
                    times(lit(1), not_expr(is_tag(c, TxFieldTag::Nonce, 1))),
                    minus(cell_at(c.tx_type, 1), cell_at(c.tx_type, 0)),
                ),
            ),
            (
                "is_padding_tx",
                times(
                    times(lit(1), not_expr(is_tag(c, TxFieldTag::Nonce, 1))),
                    minus(cell_at(c.is_padding_tx, 1), cell_at(c.is_padding_tx, 0)),
                ),
            ),
            (
                "sv_address",
                times(
                    times(lit(1), not_expr(is_tag(c, TxFieldTag::Nonce, 1))),
                    minus(cell_at(c.sv_address, 1), cell_at(c.sv_address, 0)),
                ),
            ),
            (
                "block_num",
                times(
                    times(lit(1), not_expr(is_tag(c, TxFieldTag::Nonce, 1))),
                    minus(cell_at(c.block_num, 1), cell_at(c.block_num, 0)),
                ),
            ),
            (
                "total_l1_popped_before",
                times(
                    times(lit(1), not_expr(is_tag(c, TxFieldTag::Nonce, 1))),
                    minus(
                        cell_at(c.total_l1_popped_before, 1),
                        cell_at(c.total_l1_popped_before, 0),
                    ),
                ),
            ),
            (
                "num_txs",
                times(
                    times(lit(1), not_expr(is_tag(c, TxFieldTag::Nonce, 1))),
                    minus(cell_at(c.num_txs, 1), cell_at(c.num_txs, 0)),
                ),
            ),
            (
                "cum_num_txs",
                times(
                    times(lit(1), not_expr(is_tag(c, TxFieldTag::Nonce, 1))),
                    minus(cell_at(c.cum_num_txs, 1), cell_at(c.cum_num_txs, 0)),
                ),
            ),
            (
                "num_all_txs_acc",
                times(
                    times(lit(1), not_expr(is_tag(c, TxFieldTag::Nonce, 1))),
                    minus(cell_at(c.num_all_txs_acc, 1), cell_at(c.num_all_txs_acc, 0)),
                ),
            ),
        ],
        and_expr(
            seq![
                cell_at(c.tx_table.q_enable, 0),
                not_expr(cell_at(c.is_calldata, 0)),
                not_expr(cell_at(c.is_calldata, 1)),
            ],
        ),
    )
}

/// Builds `tx_id_transition`.
pub fn build_tx_id_transition(c: &TxCircuitConfig) -> (r: Vec<Constraint>)
    ensures
        r@ == tx_id_transition(c),
{
    let mut cb = ConstraintBuilder::new();
    let root = Scope::root();
    let s1 = root.nest(c.is_tag(TxFieldTag::Nonce, 1));
    cb.require_equal(
        &s1,
        "tx_id increments",
        Expr::query(c.tx_table.tx_id, 1),
        Expr::query(c.tx_table.tx_id, 0).add(Expr::from_u64(1)),
    );
    let s2 = root.nest(not(c.is_tag(TxFieldTag::Nonce, 1)));
    cb.require_equal(
        &s2,
        "tx_id does not change",
        Expr::query(c.tx_table.tx_id, 1),
        Expr::query(c.tx_table.tx_id, 0),
    );
    cb.require_equal(&s2, "tx_type", Expr::query(c.tx_type, 1), Expr::query(c.tx_type, 0));
    cb.require_equal(
        &s2,
        "is_padding_tx",
        Expr::query(c.is_padding_tx, 1),
        Expr::query(c.is_padding_tx, 0),
    );
    cb.require_equal(&s2, "sv_address", Expr::query(c.sv_address, 1), Expr::query(c.sv_address, 0));
    cb.require_equal(&s2, "block_num", Expr::query(c.block_num, 1), Expr::query(c.block_num, 0));
    cb.require_equal(
        &s2,
        "total_l1_popped_before",
        Expr::query(c.total_l1_popped_before, 1),
        Expr::query(c.total_l1_popped_before, 0),
    );
    cb.require_equal(&s2, "num_txs", Expr::query(c.num_txs, 1), Expr::query(c.num_txs, 0));
    cb.require_equal(
        &s2,
        "cum_num_txs",
        Expr::query(c.cum_num_txs, 1),
        Expr::query(c.cum_num_txs, 0),
    );
    cb.require_equal(
        &s2,
        "num_all_txs_acc",
        Expr::query(c.num_all_txs_acc, 1),
        Expr::query(c.num_all_txs_acc, 0),
    );
    cb.gate(
        and(
            &vec![
                Expr::query(c.tx_table.q_enable, 0),
                not(Expr::query(c.is_calldata, 0)),
                not(Expr::query(c.is_calldata, 1)),
            ],
        ),
    )
}

/// On every enabled row: the empty-value flag is a boolean; the type is one of the three
/// supported; the `TxType` row holds the type; the lookup tag is the one that belongs to the
/// kind of the row; the row after `CalleeAddress` holds the empty-value flag of the callee;
/// an empty value is zero; and calldata is empty exactly if its length is zero, in which
/// case its gas cost is zero too.
pub open spec fn basic_constraints(c: &TxCircuitConfig) -> Seq<Constraint> {
    gated(
        seq![
            ("is_none is boolean", times(lit(1), boolean_poly(cell_at(c.is_none, 0)))),
            (
                "tx_type supported",
                times(
                    lit(1),
                    in_set_poly(
                        cell_at(c.tx_type, 0),
                        seq![
                            lit(TxType::PreEip155.spec_index() as int),
                            lit(TxType::Eip155.spec_index() as int),
                            lit(TxType::L1Msg.spec_index() as int),
                        ],
                    ),
                ),
            ),
            (
                "associated tx type to tag",
                times(
                    times(lit(1), is_tag(c, TxFieldTag::TxType, 0)),
                    minus(cell_at(c.tx_type, 0), cell_at(c.tx_table.value, 0)),
                ),
            ),
            (
                "associated rlp_tag",
                times(
                    lit(1),
                    minus(
                        cell_at(c.rlp_tag, 0),
                        sum_expr(
                            seq![
                                times(
                                    lit(RlpTag::Tag(Tag::Nonce).spec_index() as int),
                                    is_tag(c, TxFieldTag::Nonce, 0),
                                ),
                                times(
                                    lit(RlpTag::Tag(Tag::GasPrice).spec_index() as int),
                                    is_tag(c, TxFieldTag::GasPrice, 0),
                                ),
                                times(
                                    lit(RlpTag::Tag(Tag::Gas).spec_index() as int),
                                    is_tag(c, TxFieldTag::Gas, 0),
                                ),
                                times(
                                    lit(RlpTag::Tag(Tag::To).spec_index() as int),
                                    is_tag(c, TxFieldTag::CalleeAddress, 0),
                                ),
                                times(
                                    lit(RlpTag::Tag(Tag::Value).spec_index() as int),
                                    is_tag(c, TxFieldTag::Value, 0),
                                ),
                                times(
                                    lit(RlpTag::Tag(Tag::Data).spec_index() as int),
                                    is_tag(c, TxFieldTag::CallDataRLC, 0),
                                ),
                                times(
                                    lit(RlpTag::Tag(Tag::SigV).spec_index() as int),
                                    is_tag(c, TxFieldTag::SigV, 0),
                                ),
                                times(
                                    lit(RlpTag::Tag(Tag::SigR).spec_index() as int),
                                    is_tag(c, TxFieldTag::SigR, 0),
                                ),
                                times(
                                    lit(RlpTag::Tag(Tag::SigS).spec_index() as int),
                                    is_tag(c, TxFieldTag::SigS, 0),
                                ),
                                times(
                                    lit(RlpTag::Len.spec_index() as int),
                                    is_tag(c, TxFieldTag::TxSignLength, 0),
                                ),
                                times(
                                    lit(RlpTag::RLC.spec_index() as int),
                                    is_tag(c, TxFieldTag::TxSignRLC, 0),
                                ),
                                times(
                                    lit(RlpTag::Len.spec_index() as int),
                                    is_tag(c, TxFieldTag::TxHashLength, 0),
                                ),
                                times(
                                    lit(RlpTag::RLC.spec_index() as int),
                                    is_tag(c, TxFieldTag::TxHashRLC, 0),
                                ),
                                times(
                                    lit(RlpTag::Tag(Tag::Sender).spec_index() as int),
                                    is_tag(c, TxFieldTag::CallerAddress, 0),
                                ),
                                times(
                                    lit(RlpTag::GasCost.spec_index() as int),
                                    is_tag(c, TxFieldTag::TxDataGasCost, 0),
                                ),
                                times(
                                    lit(RlpTag::Null.spec_index() as int),
                                    is_tag(c, TxFieldTag::Null, 0),
                                ),
                                times(
                                    lit(RlpTag::Null.spec_index() as int),
                                    is_tag(c, TxFieldTag::IsCreate, 0),
                                ),
                                times(
                                    lit(RlpTag::Null.spec_index() as int),
                                    is_tag(c, TxFieldTag::CallDataLength, 0),
                                ),
                                times(
                                    lit(RlpTag::Null.spec_index() as int),
                                    is_tag(c, TxFieldTag::CallDataGasCost, 0),
                                ),
                                times(
                                    lit(RlpTag::Null.spec_index() as int),
                                    is_tag(c, TxFieldTag::TxSignHash, 0),
                                ),
                                times(
                                    lit(RlpTag::Null.spec_index() as int),
                                    is_tag(c, TxFieldTag::TxHash, 0),
                                ),
                                times(
                                    lit(RlpTag::Null.spec_index() as int),
                                    is_tag(c, TxFieldTag::CallData, 0),
                                ),
                                times(
                                    lit(RlpTag::Null.spec_index() as int),
                                    is_tag(c, TxFieldTag::BlockNumber, 0),
                                ),
                                times(
                                    lit(RlpTag::Tag(Tag::ChainId).spec_index() as int),
                                    is_tag(c, TxFieldTag::ChainID, 0),
                                ),
                                times(
                                    lit(RlpTag::Null.spec_index() as int),
                                    is_tag(c, TxFieldTag::TxType, 0),
                                ),
                            ],
                        ),
                    ),
                ),
            ),
            (
                "is_create == is_none",
                times(
                    times(lit(1), is_tag(c, TxFieldTag::CalleeAddress, 0)),
                    minus(cell_at(c.tx_table.value, 1), cell_at(c.is_none, 0)),
                ),
            ),
            (
                "is_none is true => value == 0",
                times(
                    times(lit(1), cell_at(c.is_none, 0)),
                    minus(cell_at(c.tx_table.value, 0), lit(0)),
                ),
            ),
            (
                "CallDataLength.value == 0",
                times(
                    times(
                        lit(1),
                        and_expr(seq![is_tag(c, TxFieldTag::CallDataRLC, 0), cell_at(c.is_none, 0)]),
                    ),
                    minus(cell_at(c.tx_table.value, 1), lit(0)),
                ),
            ),
            (
                "CallDataGasCost.value == 0",
                times(
                    times(
                        lit(1),
                        and_expr(seq![is_tag(c, TxFieldTag::CallDataRLC, 0), cell_at(c.is_none, 0)]),
                    ),
                    minus(cell_at(c.tx_table.value, 2), lit(0)),
                ),
            ),
            (
                "CallDataLength != 0",
                times(
                    times(
                        lit(1),
                        and_expr(
                            seq![
                                is_tag(c, TxFieldTag::CallDataRLC, 0),
                                not_expr(cell_at(c.is_none, 0)),
                            ],
                        ),
                    ),
                    is_zero_expr(cell_at(c.value_is_zero.value, 1), c.value_is_zero.value_inv, 1),
                ),
            ),
        ],
        cell_at(c.tx_table.q_enable, 0),
    )
}

/// Builds `basic_constraints`.
pub fn build_basic_constraints(c: &TxCircuitConfig) -> (r: Vec<Constraint>)
    ensures
        r@ == basic_constraints(c),
{
    let mut cb = ConstraintBuilder::new();
    let root = Scope::root();
    cb.require_boolean(&root, "is_none is boolean", Expr::query(c.is_none, 0));
    cb.require_in_set(
        &root,
        "tx_type supported",
        Expr::query(c.tx_type, 0),
        &vec![TxType::PreEip155.expr(), TxType::Eip155.expr(), TxType::L1Msg.expr()],
    );
    let s1 = root.nest(c.is_tag(TxFieldTag::TxType, 0));
    cb.require_equal(
        &s1,
        "associated tx type to tag",
        Expr::query(c.tx_type, 0),
        Expr::query(c.tx_table.value, 0),
    );
    cb.require_equal(
        &root,
        "associated rlp_tag",
        Expr::query(c.rlp_tag, 0),
        sum(
            &vec![
                RlpTag::Tag(Tag::Nonce).expr().mul(c.is_tag(TxFieldTag::Nonce, 0)),
                RlpTag::Tag(Tag::GasPrice).expr().mul(c.is_tag(TxFieldTag::GasPrice, 0)),
                RlpTag::Tag(Tag::Gas).expr().mul(c.is_tag(TxFieldTag::Gas, 0)),
                RlpTag::Tag(Tag::To).expr().mul(c.is_tag(TxFieldTag::CalleeAddress, 0)),
                RlpTag::Tag(Tag::Value).expr().mul(c.is_tag(TxFieldTag::Value, 0)),
                RlpTag::Tag(Tag::Data).expr().mul(c.is_tag(TxFieldTag::CallDataRLC, 0)),
                RlpTag::Tag(Tag::SigV).expr().mul(c.is_tag(TxFieldTag::SigV, 0)),
                RlpTag::Tag(Tag::SigR).expr().mul(c.is_tag(TxFieldTag::SigR, 0)),
                RlpTag::Tag(Tag::SigS).expr().mul(c.is_tag(TxFieldTag::SigS, 0)),
                RlpTag::Len.expr().mul(c.is_tag(TxFieldTag::TxSignLength, 0)),
                RlpTag::RLC.expr().mul(c.is_tag(TxFieldTag::TxSignRLC, 0)),
                RlpTag::Len.expr().mul(c.is_tag(TxFieldTag::TxHashLength, 0)),
                RlpTag::RLC.expr().mul(c.is_tag(TxFieldTag::TxHashRLC, 0)),
                RlpTag::Tag(Tag::Sender).expr().mul(c.is_tag(TxFieldTag::CallerAddress, 0)),
                RlpTag::GasCost.expr().mul(c.is_tag(TxFieldTag::TxDataGasCost, 0)),
                RlpTag::Null.expr().mul(c.is_tag(TxFieldTag::Null, 0)),
                RlpTag::Null.expr().mul(c.is_tag(TxFieldTag::IsCreate, 0)),
                RlpTag::Null.expr().mul(c.is_tag(TxFieldTag::CallDataLength, 0)),
                RlpTag::Null.expr().mul(c.is_tag(TxFieldTag::CallDataGasCost, 0)),
                RlpTag::Null.expr().mul(c.is_tag(TxFieldTag::TxSignHash, 0)),
                RlpTag::Null.expr().mul(c.is_tag(TxFieldTag::TxHash, 0)),
                RlpTag::Null.expr().mul(c.is_tag(TxFieldTag::CallData, 0)),
                RlpTag::Null.expr().mul(c.is_tag(TxFieldTag::BlockNumber, 0)),
                RlpTag::Tag(Tag::ChainId).expr().mul(c.is_tag(TxFieldTag::ChainID, 0)),
                RlpTag::Null.expr().mul(c.is_tag(TxFieldTag::TxType, 0)),
            ],
        ),
    );
    let s2 = root.nest(c.is_tag(TxFieldTag::CalleeAddress, 0));
    cb.require_equal(
        &s2,
        "is_create == is_none",
        Expr::query(c.tx_table.value, 1),
        Expr::query(c.is_none, 0),
    );
    let s3 = root.nest(Expr::query(c.is_none, 0));
    cb.require_equal(
        &s3,
        "is_none is true => value == 0",
        Expr::query(c.tx_table.value, 0),
        Expr::from_u64(0),
    );
    let s4 = root.nest(and(&vec![c.is_tag(TxFieldTag::CallDataRLC, 0), Expr::query(c.is_none, 0)]));
    cb.require_equal(
        &s4,
        "CallDataLength.value == 0",
        Expr::query(c.tx_table.value, 1),
        Expr::from_u64(0),
    );
    cb.require_equal(
        &s4,
        "CallDataGasCost.value == 0",
        Expr::query(c.tx_table.value, 2),
        Expr::from_u64(0),
    );
    let s5 = root.nest(
        and(&vec![c.is_tag(TxFieldTag::CallDataRLC, 0), not(Expr::query(c.is_none, 0))]),
    );
    cb.require_zero(&s5, "CallDataLength != 0", c.value_is_zero.expr(1));
    cb.gate(Expr::query(c.tx_table.q_enable, 0))
}

/// The stored boolean `is_calldata` is the indicator of the kind `CallData`.
pub open spec fn is_calldata(c: &TxCircuitConfig) -> Seq<Constraint> {
    gated(
        seq![
            (
                "is_calldata",
                times(lit(1), minus(is_tag(c, TxFieldTag::CallData, 0), cell_at(c.is_calldata, 0))),
            ),
        ],
        cell_at(c.tx_table.q_enable, 0),
    )
}

/// Builds `is_calldata`.
pub fn build_is_calldata(c: &TxCircuitConfig) -> (r: Vec<Constraint>)
    ensures
        r@ == is_calldata(c),
{
    let mut cb = ConstraintBuilder::new();
    let root = Scope::root();
    cb.require_equal(
        &root,
        "is_calldata",
        c.is_tag(TxFieldTag::CallData, 0),
        Expr::query(c.is_calldata, 0),
    );
    cb.gate(Expr::query(c.tx_table.q_enable, 0))
}

/// The stored boolean `is_caller_address` is the indicator of the kind `CallerAddress`.
pub open spec fn is_caller_address(c: &TxCircuitConfig) -> Seq<Constraint> {
    gated(
        seq![
            (
                "is_caller_address",
                times(
                    lit(1),
                    minus(is_tag(c, TxFieldTag::CallerAddress, 0), cell_at(c.is_caller_address, 0)),
                ),
            ),
        ],
        cell_at(c.tx_table.q_enable, 0),
    )
}

/// Builds `is_caller_address`.
pub fn build_is_caller_address(c: &TxCircuitConfig) -> (r: Vec<Constraint>)
    ensures
        r@ == is_caller_address(c),
{
    let mut cb = ConstraintBuilder::new();
    let root = Scope::root();
    cb.require_equal(
        &root,
        "is_caller_address",
        c.is_tag(TxFieldTag::CallerAddress, 0),
        Expr::query(c.is_caller_address, 0),
    );
    cb.gate(Expr::query(c.tx_table.q_enable, 0))
}

/// The stored boolean `is_chain_id` is the indicator of the kind `ChainID`.
pub open spec fn is_chain_id(c: &TxCircuitConfig) -> Seq<Constraint> {
    gated(
        seq![
            (
                "is_chain_id",
                times(lit(1), minus(is_tag(c, TxFieldTag::ChainID, 0), cell_at(c.is_chain_id, 0))),
            ),
        ],
        cell_at(c.tx_table.q_enable, 0),
    )
}

/// Builds `is_chain_id`.
pub fn build_is_chain_id(c: &TxCircuitConfig) -> (r: Vec<Constraint>)
    ensures
        r@ == is_chain_id(c),
{
    let mut cb = ConstraintBuilder::new();
    let root = Scope::root();
    cb.require_equal(
        &root,
        "is_chain_id",
        c.is_tag(TxFieldTag::ChainID, 0),
        Expr::query(c.is_chain_id, 0),
    );
    cb.gate(Expr::query(c.tx_table.q_enable, 0))
}

/// The stored boolean `is_tag_block_num` is the indicator of the kind `BlockNumber`.
pub open spec fn is_tag_block_num(c: &TxCircuitConfig) -> Seq<Constraint> {
    gated(
        seq![
            (
                "is_tag_block_num = (tag == BlockNum)",
                times(
                    lit(1),
                    minus(is_tag(c, TxFieldTag::BlockNumber, 0), cell_at(c.is_tag_block_num, 0)),
                ),
            ),
        ],
        cell_at(c.tx_table.q_enable, 0),
    )
}

/// Builds `is_tag_block_num`.
pub fn build_is_tag_block_num(c: &TxCircuitConfig) -> (r: Vec<Constraint>)
    ensures
        r@ == is_tag_block_num(c),
{
    let mut cb = ConstraintBuilder::new();
    let root = Scope::root();
    cb.require_equal(
        &root,
        "is_tag_block_num = (tag == BlockNum)",
        c.is_tag(TxFieldTag::BlockNumber, 0),
        Expr::query(c.is_tag_block_num, 0),
    );
    cb.gate(Expr::query(c.tx_table.q_enable, 0))
}

/// The stored boolean `is_l1_msg` is the indicator of the type `L1Msg`.
pub open spec fn is_l1_msg(c: &TxCircuitConfig) -> Seq<Constraint> {
    gated(
        seq![
            (
                "is_l1_msg = (tx_type == L1Msg)",
                times(lit(1), minus(cell_at(c.is_l1_msg, 0), is_type(c, TxType::L1Msg))),
            ),
        ],
        cell_at(c.tx_table.q_enable, 0),
    )
}

/// Builds `is_l1_msg`.
pub fn build_is_l1_msg(c: &TxCircuitConfig) -> (r: Vec<Constraint>)
    ensures
        r@ == is_l1_msg(c),
{
    let mut cb = ConstraintBuilder::new();
    let root = Scope::root();
    cb.require_equal(
        &root,
        "is_l1_msg = (tx_type == L1Msg)",
        Expr::query(c.is_l1_msg, 0),
        c.is_type(TxType::L1Msg),
    );
    cb.gate(Expr::query(c.tx_table.q_enable, 0))
}

/// A row looks its calldata up exactly if it is a `CallDataLength` row with a length other
/// than zero.
pub open spec fn calldata_lookup_condition(c: &TxCircuitConfig) -> Seq<Constraint> {
    gated(
        seq![
            (
                "condition",
                times(
                    lit(1),
                    minus(
                        and_expr(
                            seq![
                                is_tag(c, TxFieldTag::CallDataLength, 0),
                                not_expr(
                                    is_zero_expr(
                                        cell_at(c.value_is_zero.value, 0),
                                        c.value_is_zero.value_inv,
                                        0,
                                    ),
                                ),
                            ],
                        ),
                        cell_at(c.lookup_conditions.tx_calldata, 0),
                    ),
                ),
            ),
        ],
        cell_at(c.tx_table.q_enable, 0),
    )
}

/// Builds `calldata_lookup_condition`.
pub fn build_calldata_lookup_condition(c: &TxCircuitConfig) -> (r: Vec<Constraint>)
    ensures
        r@ == calldata_lookup_condition(c),
{
    let mut cb = ConstraintBuilder::new();
    let root = Scope::root();
    cb.require_equal(
        &root,
        "condition",
        and(&vec![c.is_tag(TxFieldTag::CallDataLength, 0), not(c.value_is_zero.expr(0))]),
        Expr::query(c.lookup_conditions.tx_calldata, 0),
    );
    cb.gate(Expr::query(c.tx_table.q_enable, 0))
}

/// A row of a signed transaction looks up a field of the signed encoding exactly if its
/// kind is part of that encoding; the chain id is, for a transaction bound to one.
pub open spec fn sign_tag_lookup_condition(c: &TxCircuitConfig) -> Seq<Constraint> {
    gated(
        seq![
            (
                "condition",
                times(
                    lit(1),
                    minus(
                        sum_expr(
                            seq![
                                is_tag(c, TxFieldTag::Nonce, 0),
                                is_tag(c, TxFieldTag::GasPrice, 0),
                                is_tag(c, TxFieldTag::Gas, 0),
                                is_tag(c, TxFieldTag::CalleeAddress, 0),
                                is_tag(c, TxFieldTag::Value, 0),
                                is_tag(c, TxFieldTag::CallDataRLC, 0),
                                and_expr(
                                    seq![cell_at(c.is_chain_id, 0), is_type(c, TxType::Eip155)],
                                ),
                                is_tag(c, TxFieldTag::TxSignLength, 0),
                                is_tag(c, TxFieldTag::TxSignRLC, 0),
                            ],
                        ),
                        cell_at(c.lookup_conditions.rlp_sign_tag, 0),
                    ),
                ),
            ),
        ],
        and_expr(seq![cell_at(c.tx_table.q_enable, 0), not_expr(cell_at(c.is_l1_msg, 0))]),
    )
}

/// Builds `sign_tag_lookup_condition`.
pub fn build_sign_tag_lookup_condition(c: &TxCircuitConfig) -> (r: Vec<Constraint>)
    ensures
        r@ == sign_tag_lookup_condition(c),
{
    let mut cb = ConstraintBuilder::new();
    let root = Scope::root();
    cb.require_equal(
        &root,
        "condition",
        sum(
            &vec![
                c.is_tag(TxFieldTag::Nonce, 0),
                c.is_tag(TxFieldTag::GasPrice, 0),
                c.is_tag(TxFieldTag::Gas, 0),
                c.is_tag(TxFieldTag::CalleeAddress, 0),
                c.is_tag(TxFieldTag::Value, 0),
                c.is_tag(TxFieldTag::CallDataRLC, 0),
                and(&vec![Expr::query(c.is_chain_id, 0), c.is_type(TxType::Eip155)]),
                c.is_tag(TxFieldTag::TxSignLength, 0),
                c.is_tag(TxFieldTag::TxSignRLC, 0),
            ],
        ),
        Expr::query(c.lookup_conditions.rlp_sign_tag, 0),
    );
    cb.gate(and(&vec![Expr::query(c.tx_table.q_enable, 0), not(Expr::query(c.is_l1_msg, 0))]))
}

/// A row of a signed transaction looks up a field of the hashed encoding exactly if its
/// kind is part of that encoding.
pub open spec fn hash_tag_lookup_condition(c: &TxCircuitConfig) -> Seq<Constraint> {
    gated(
        seq![
            (
                "condition",
                times(
                    lit(1),
                    minus(
                        sum_expr(
                            seq![
                                is_tag(c, TxFieldTag::Nonce, 0),
                                is_tag(c, TxFieldTag::GasPrice, 0),
                                is_tag(c, TxFieldTag::Gas, 0),
                                is_tag(c, TxFieldTag::CalleeAddress, 0),
                                is_tag(c, TxFieldTag::Value, 0),
                                is_tag(c, TxFieldTag::TxDataGasCost, 0),
                                is_tag(c, TxFieldTag::CallDataRLC, 0),
                                is_tag(c, TxFieldTag::SigV, 0),
                                is_tag(c, TxFieldTag::SigR, 0),
                                is_tag(c, TxFieldTag::SigS, 0),
                                is_tag(c, TxFieldTag::TxHashLength, 0),
                                is_tag(c, TxFieldTag::TxHashRLC, 0),
                            ],
                        ),
                        cell_at(c.lookup_conditions.rlp_hash_tag, 0),
                    ),
                ),
            ),
        ],
        and_expr(seq![cell_at(c.tx_table.q_enable, 0), not_expr(cell_at(c.is_l1_msg, 0))]),
    )
}

/// Builds `hash_tag_lookup_condition`.
pub fn build_hash_tag_lookup_condition(c: &TxCircuitConfig) -> (r: Vec<Constraint>)
    ensures
        r@ == hash_tag_lookup_condition(c),
{
    let mut cb = ConstraintBuilder::new();
    let root = Scope::root();
    cb.require_equal(
        &root,
        "condition",
        sum(
            &vec![
                c.is_tag(TxFieldTag::Nonce, 0),
                c.is_tag(TxFieldTag::GasPrice, 0),
                c.is_tag(TxFieldTag::Gas, 0),
                c.is_tag(TxFieldTag::CalleeAddress, 0),
                c.is_tag(TxFieldTag::Value, 0),
                c.is_tag(TxFieldTag::TxDataGasCost, 0),
                c.is_tag(TxFieldTag::CallDataRLC, 0),
                c.is_tag(TxFieldTag::SigV, 0),
                c.is_tag(TxFieldTag::SigR, 0),
                c.is_tag(TxFieldTag::SigS, 0),
                c.is_tag(TxFieldTag::TxHashLength, 0),
                c.is_tag(TxFieldTag::TxHashRLC, 0),
            ],
        ),
        Expr::query(c.lookup_conditions.rlp_hash_tag, 0),
    );
    cb.gate(and(&vec![Expr::query(c.tx_table.q_enable, 0), not(Expr::query(c.is_l1_msg, 0))]))
}

/// A row of a message from the queue looks up a field of the message's encoding exactly if
/// its kind is part of that encoding.
pub open spec fn l1_msg_lookup_condition(c: &TxCircuitConfig) -> Seq<Constraint> {
    gated(
        seq![
            (
                "lookup into RLP table iff tag in l1 msg hash",
                times(
                    lit(1),
                    minus(
                        sum_expr(
                            seq![
                                is_tag(c, TxFieldTag::Nonce, 0),
                                is_tag(c, TxFieldTag::Gas, 0),
                                is_tag(c, TxFieldTag::CalleeAddress, 0),
                                is_tag(c, TxFieldTag::Value, 0),
                                is_tag(c, TxFieldTag::CallDataRLC, 0),
                                is_tag(c, TxFieldTag::CallerAddress, 0),
                                is_tag(c, TxFieldTag::TxHashLength, 0),
                                is_tag(c, TxFieldTag::TxHashRLC, 0),
                            ],
                        ),
                        cell_at(c.lookup_conditions.l1_msg_hash, 0),
                    ),
                ),
            ),
        ],
        and_expr(seq![cell_at(c.tx_table.q_enable, 0), cell_at(c.is_l1_msg, 0)]),
    )
}

/// Builds `l1_msg_lookup_condition`.
pub fn build_l1_msg_lookup_condition(c: &TxCircuitConfig) -> (r: Vec<Constraint>)
    ensures
        r@ == l1_msg_lookup_condition(c),
{
    let mut cb = ConstraintBuilder::new();
    let root = Scope::root();
    cb.require_equal(
        &root,
        "lookup into RLP table iff tag in l1 msg hash",
        sum(
            &vec![
                c.is_tag(TxFieldTag::Nonce, 0),
                c.is_tag(TxFieldTag::Gas, 0),
                c.is_tag(TxFieldTag::CalleeAddress, 0),
                c.is_tag(TxFieldTag::Value, 0),
                c.is_tag(TxFieldTag::CallDataRLC, 0),
                c.is_tag(TxFieldTag::CallerAddress, 0),
                c.is_tag(TxFieldTag::TxHashLength, 0),
                c.is_tag(TxFieldTag::TxHashRLC, 0),
            ],
        ),
        Expr::query(c.lookup_conditions.l1_msg_hash, 0),
    );
    cb.gate(and(&vec![Expr::query(c.tx_table.q_enable, 0), Expr::query(c.is_l1_msg, 0)]))
}

/// A row looks up a hash exactly if it holds the length of the hashed encoding, or the
/// length of the signed encoding of a signed transaction.
pub open spec fn keccak_lookup_condition(c: &TxCircuitConfig) -> Seq<Constraint> {
    gated(
        seq![
            (
                "condition",
                times(
                    lit(1),
                    minus(
                        sum_expr(
                            seq![
                                and_expr(
                                    seq![
                                        is_tag(c, TxFieldTag::TxSignLength, 0),
                                        not_expr(cell_at(c.is_l1_msg, 0)),
                                    ],
                                ),
                                is_tag(c, TxFieldTag::TxHashLength, 0),
                            ],
                        ),
                        cell_at(c.lookup_conditions.keccak, 0),
                    ),
                ),
            ),
        ],
        cell_at(c.tx_table.q_enable, 0),
    )
}

/// Builds `keccak_lookup_condition`.
pub fn build_keccak_lookup_condition(c: &TxCircuitConfig) -> (r: Vec<Constraint>)
    ensures
        r@ == keccak_lookup_condition(c),
{
    let mut cb = ConstraintBuilder::new();
    let root = Scope::root();
    cb.require_equal(
        &root,
        "condition",
        sum(
            &vec![
                and(&vec![c.is_tag(TxFieldTag::TxSignLength, 0), not(Expr::query(c.is_l1_msg, 0))]),
                c.is_tag(TxFieldTag::TxHashLength, 0),
            ],
        ),
        Expr::query(c.lookup_conditions.keccak, 0),
    );
    cb.gate(Expr::query(c.tx_table.q_enable, 0))
}

/// The encoding of a message from the queue costs no gas.
pub open spec fn l1_msg_gas_cost(c: &TxCircuitConfig) -> Seq<Constraint> {
    gated(
        seq![
            (
                "tx_gas_cost == 0",
                times(
                    times(lit(1), is_tag(c, TxFieldTag::TxDataGasCost, 0)),
                    cell_at(c.tx_table.value, 0),
                ),
            ),
        ],
        and_expr(seq![cell_at(c.tx_table.q_enable, 0), cell_at(c.is_l1_msg, 0)]),
    )
}

/// Builds `l1_msg_gas_cost`.
pub fn build_l1_msg_gas_cost(c: &TxCircuitConfig) -> (r: Vec<Constraint>)
    ensures
        r@ == l1_msg_gas_cost(c),
{
    let mut cb = ConstraintBuilder::new();
    let root = Scope::root();
    let s1 = root.nest(c.is_tag(TxFieldTag::TxDataGasCost, 0));
    cb.require_zero(&s1, "tx_gas_cost == 0", Expr::query(c.tx_table.value, 0));
    cb.gate(and(&vec![Expr::query(c.tx_table.q_enable, 0), Expr::query(c.is_l1_msg, 0)]))
}

/// On the `Nonce` row the column `tx_nonce` holds the nonce.
pub open spec fn copy_tx_nonce(c: &TxCircuitConfig) -> Seq<Constraint> {
    gated(
        seq![
            (
                "tx_nonce = tx_table.value if tag == Nonce",
                times(
                    times(lit(1), is_tag(c, TxFieldTag::Nonce, 0)),
                    minus(cell_at(c.tx_table.value, 0), cell_at(c.tx_nonce, 0)),
                ),
            ),
        ],
        cell_at(c.tx_table.q_enable, 0),
    )
}

/// Builds `copy_tx_nonce`.
pub fn build_copy_tx_nonce(c: &TxCircuitConfig) -> (r: Vec<Constraint>)
    ensures
        r@ == copy_tx_nonce(c),
{
    let mut cb = ConstraintBuilder::new();
    let root = Scope::root();
    let s1 = root.nest(c.is_tag(TxFieldTag::Nonce, 0));
    cb.require_equal(
        &s1,
        "tx_nonce = tx_table.value if tag == Nonce",
        Expr::query(c.tx_table.value, 0),
        Expr::query(c.tx_nonce, 0),
    );
    cb.gate(Expr::query(c.tx_table.q_enable, 0))
}

/// On the `BlockNumber` row the column `block_num` holds the block number.
pub open spec fn copy_block_num(c: &TxCircuitConfig) -> Seq<Constraint> {
    gated(
        seq![
            (
                "block_num = tx_table.value if tag == BlockNum",
                times(
                    times(lit(1), cell_at(c.is_tag_block_num, 0)),
                    minus(cell_at(c.tx_table.value, 0), cell_at(c.block_num, 0)),
                ),
            ),
        ],
        cell_at(c.tx_table.q_enable, 0),
    )
}

/// Builds `copy_block_num`.
pub fn build_copy_block_num(c: &TxCircuitConfig) -> (r: Vec<Constraint>)
    ensures
        r@ == copy_block_num(c),
{
    let mut cb = ConstraintBuilder::new();
    let root = Scope::root();
    let s1 = root.nest(Expr::query(c.is_tag_block_num, 0));
    cb.require_equal(
        &s1,
        "block_num = tx_table.value if tag == BlockNum",
        Expr::query(c.tx_table.value, 0),
        Expr::query(c.block_num, 0),
    );
    cb.gate(Expr::query(c.tx_table.q_enable, 0))
}

/// On the `BlockNumber` row of a header: the next transaction starts with the messages that
/// were taken from the queue up to and including this one; its count goes on from this
/// one's where the two are in one block, and starts anew where they are not. A message
/// counts for itself and for the messages that were skipped before it; any other
/// transaction counts one.
pub open spec fn num_all_txs(c: &TxCircuitConfig) -> Seq<Constraint> {
    gated(
        seq![
            (
                "num_all_txs_acc = is_l1_msg ? queue_index - total_l1_popped_before + 1 : 1",
                times(
                    times(lit(1), cell_at(c.q_first, 1)),
                    minus(
                        cell_at(c.num_all_txs_acc, 0),
                        select_expr(
                            cell_at(c.is_l1_msg, 0),
                            plus(
                                minus(cell_at(c.tx_nonce, 0), cell_at(c.total_l1_popped_before, 0)),
                                lit(1),
                            ),
                            lit(1),
                        ),
                    ),
                ),
            ),
            (
                "total_l1_popped' = tx.is_l1_msg ? queue_index + 1 : total_l1_popped",
                times(
                    times(
                        lit(1),
                        and_expr(
                            seq![
                                not_expr(cell_at(c.is_calldata, 1)),
                                c.block_num_unchanged.is_equal_expression,
                            ],
                        ),
                    ),
                    minus(
                        cell_at(c.total_l1_popped_before, 1),
                        select_expr(
                            cell_at(c.is_l1_msg, 0),
                            plus(cell_at(c.tx_nonce, 0), lit(1)),
                            cell_at(c.total_l1_popped_before, 0),
                        ),
                    ),
                ),
            ),
            (
                "num_all_txs_acc' - num_all_txs_acc",
                times(
                    times(
                        lit(1),
                        and_expr(
                            seq![
                                not_expr(cell_at(c.is_calldata, 1)),
                                c.block_num_unchanged.is_equal_expression,
                            ],
                        ),
                    ),
                    minus(
                        minus(cell_at(c.num_all_txs_acc, 1), cell_at(c.num_all_txs_acc, 0)),
                        select_expr(
                            cell_at(c.is_l1_msg, 1),
                            plus(
                                minus(cell_at(c.tx_nonce, 1), cell_at(c.total_l1_popped_before, 1)),
                                lit(1),
                            ),
                            lit(1),
                        ),
                    ),
                ),
            ),
            (
                "total_l1_popped' = tx.is_l1_msg ? queue_index + 1 : total_l1_popped",
                times(
                    times(
                        lit(1),
                        and_expr(
                            seq![
                                not_expr(cell_at(c.is_calldata, 1)),
                                not_expr(c.block_num_unchanged.is_equal_expression),
                            ],
                        ),
                    ),
                    minus(
                        cell_at(c.total_l1_popped_before, 1),
                        select_expr(
                            cell_at(c.is_l1_msg, 0),
                            plus(cell_at(c.tx_nonce, 0), lit(1)),
                            cell_at(c.total_l1_popped_before, 0),
                        ),
                    ),
                ),
            ),
            (
                "init new block's num_all_txs",
                times(
                    times(
                        lit(1),
                        and_expr(
                            seq![
                                not_expr(cell_at(c.is_calldata, 1)),
                                not_expr(c.block_num_unchanged.is_equal_expression),
                            ],
                        ),
                    ),
                    minus(
                        cell_at(c.num_all_txs_acc, 1),
                        select_expr(
                            cell_at(c.is_l1_msg, 1),
                            plus(
                                minus(cell_at(c.tx_nonce, 1), cell_at(c.total_l1_popped_before, 1)),
                                lit(1),
                            ),
                            lit(1),
                        ),
                    ),
                ),
            ),
        ],
        and_expr(
            seq![
                cell_at(c.tx_table.q_enable, 0),
                not_expr(cell_at(c.is_calldata, 0)),
                cell_at(c.is_tag_block_num, 0),
            ],
        ),
    )
}

/// Builds `num_all_txs`.
pub fn build_num_all_txs(c: &TxCircuitConfig) -> (r: Vec<Constraint>)
    ensures
        r@ == num_all_txs(c),
{
    let mut cb = ConstraintBuilder::new();
    let root = Scope::root();
    let s1 = root.nest(Expr::query(c.q_first, 1));
    cb.require_equal(
        &s1,
        "num_all_txs_acc = is_l1_msg ? queue_index - total_l1_popped_before + 1 : 1",
        Expr::query(c.num_all_txs_acc, 0),
        select(
            Expr::query(c.is_l1_msg, 0),
            Expr::query(c.tx_nonce, 0).sub(Expr::query(c.total_l1_popped_before, 0)).add(
                Expr::from_u64(1),
            ),
            Expr::from_u64(1),
        ),
    );
    let s2 = root.nest(
        and(&vec![not(Expr::query(c.is_calldata, 1)), c.block_num_unchanged.expr()]),
    );
    cb.require_equal(
        &s2,
        "total_l1_popped' = tx.is_l1_msg ? queue_index + 1 : total_l1_popped",
        Expr::query(c.total_l1_popped_before, 1),
        select(
            Expr::query(c.is_l1_msg, 0),
            Expr::query(c.tx_nonce, 0).add(Expr::from_u64(1)),
            Expr::query(c.total_l1_popped_before, 0),
        ),
    );
    cb.require_equal(
        &s2,
        "num_all_txs_acc' - num_all_txs_acc",
        Expr::query(c.num_all_txs_acc, 1).sub(Expr::query(c.num_all_txs_acc, 0)),
        select(
            Expr::query(c.is_l1_msg, 1),
            Expr::query(c.tx_nonce, 1).sub(Expr::query(c.total_l1_popped_before, 1)).add(
                Expr::from_u64(1),
            ),
            Expr::from_u64(1),
        ),
    );
    let s3 = root.nest(
        and(&vec![not(Expr::query(c.is_calldata, 1)), not(c.block_num_unchanged.expr())]),
    );
    cb.require_equal(
        &s3,
        "total_l1_popped' = tx.is_l1_msg ? queue_index + 1 : total_l1_popped",
        Expr::query(c.total_l1_popped_before, 1),
        select(
            Expr::query(c.is_l1_msg, 0),
            Expr::query(c.tx_nonce, 0).add(Expr::from_u64(1)),
            Expr::query(c.total_l1_popped_before, 0),
        ),
    );
    cb.require_equal(
        &s3,
        "init new block's num_all_txs",
        Expr::query(c.num_all_txs_acc, 1),
        select(
            Expr::query(c.is_l1_msg, 1),
            Expr::query(c.tx_nonce, 1).sub(Expr::query(c.total_l1_popped_before, 1)).add(
                Expr::from_u64(1),
            ),
            Expr::from_u64(1),
        ),
    );
    cb.gate(
        and(
            &vec![
                Expr::query(c.tx_table.q_enable, 0),
                not(Expr::query(c.is_calldata, 0)),
                Expr::query(c.is_tag_block_num, 0),
            ],
        ),
    )
}

/// A transaction is padding exactly if its sender is zero.
pub open spec fn is_padding_tx(c: &TxCircuitConfig) -> Seq<Constraint> {
    gated(
        seq![
            (
                "is_padding_tx = true if caller_address = 0",
                times(
                    times(lit(1), is_tag(c, TxFieldTag::CallerAddress, 0)),
                    minus(
                        cell_at(c.is_padding_tx, 0),
                        is_zero_expr(
                            cell_at(c.value_is_zero.value, 0),
                            c.value_is_zero.value_inv,
                            0,
                        ),
                    ),
                ),
            ),
        ],
        cell_at(c.tx_table.q_enable, 0),
    )
}

/// Builds `is_padding_tx`.
pub fn build_is_padding_tx(c: &TxCircuitConfig) -> (r: Vec<Constraint>)
    ensures
        r@ == is_padding_tx(c),
{
    let mut cb = ConstraintBuilder::new();
    let root = Scope::root();
    let s1 = root.nest(c.is_tag(TxFieldTag::CallerAddress, 0));
    cb.require_equal(
        &s1,
        "is_padding_tx = true if caller_address = 0",
        Expr::query(c.is_padding_tx, 0),
        c.value_is_zero.expr(0),
    );
    cb.gate(Expr::query(c.tx_table.q_enable, 0))
}

/// The last transaction of a block has as its number the number of transactions up to and
/// including the block: where the next header is of the padding, and where it is of another
/// block.
pub open spec fn last_tx_id(c: &TxCircuitConfig) -> Seq<Constraint> {
    gated(
        seq![
            (
                "tx_id == cum_num_txs",
                times(
                    times(
                        lit(1),
                        and_expr(
                            seq![
                                cell_at(c.is_tag_block_num, 0),
                                not_expr(cell_at(c.is_padding_tx, 0)),
                                cell_at(c.is_padding_tx, 1),
                            ],
                        ),
                    ),
                    minus(cell_at(c.tx_table.tx_id, 0), cell_at(c.cum_num_txs, 0)),
                ),
            ),
            (
                "tx_id == cum_num_txs at the end of a block",
                times(
                    times(
                        lit(1),
                        and_expr(
                            seq![
                                cell_at(c.is_tag_block_num, 0),
                                not_expr(cell_at(c.is_padding_tx, 0)),
                                not_expr(c.block_num_unchanged.is_equal_expression),
                            ],
                        ),
                    ),
                    minus(cell_at(c.tx_table.tx_id, 0), cell_at(c.cum_num_txs, 0)),
                ),
            ),
        ],
        cell_at(c.tx_table.q_enable, 0),
    )
}

/// Builds `last_tx_id`.
pub fn build_last_tx_id(c: &TxCircuitConfig) -> (r: Vec<Constraint>)
    ensures
        r@ == last_tx_id(c),
{
    let mut cb = ConstraintBuilder::new();
    let root = Scope::root();
    let s1 = root.nest(
        and(
            &vec![
                Expr::query(c.is_tag_block_num, 0),
                not(Expr::query(c.is_padding_tx, 0)),
                Expr::query(c.is_padding_tx, 1),
            ],
        ),
    );
    cb.require_equal(
        &s1,
        "tx_id == cum_num_txs",
        Expr::query(c.tx_table.tx_id, 0),
        Expr::query(c.cum_num_txs, 0),
    );
    let s2 = root.nest(
        and(
            &vec![
                Expr::query(c.is_tag_block_num, 0),
                not(Expr::query(c.is_padding_tx, 0)),
                not(c.block_num_unchanged.expr()),
            ],
        ),
    );
    cb.require_equal(
        &s2,
        "tx_id == cum_num_txs at the end of a block",
        Expr::query(c.tx_table.tx_id, 0),
        Expr::query(c.cum_num_txs, 0),
    );
    cb.gate(Expr::query(c.tx_table.q_enable, 0))
}

/// The number of a transaction is at most the number of transactions up to and including
/// its block.
pub open spec fn tx_id_bound(c: &TxCircuitConfig) -> Seq<Constraint> {
    gated(
        seq![
            (
                "lt or eq",
                times(
                    times(lit(1), is_tag(c, TxFieldTag::BlockNumber, 0)),
                    minus(
                        sum_expr(
                            seq![
                                cell_at(c.tx_id_vs_cum_num_txs.lt_chip.lt, 0),
                                c.tx_id_vs_cum_num_txs.eq_chip.is_equal_expression,
                            ],
                        ),
                        lit(1),
                    ),
                ),
            ),
        ],
        and_expr(seq![cell_at(c.tx_table.q_enable, 0), not_expr(cell_at(c.is_padding_tx, 0))]),
    )
}

/// Builds `tx_id_bound`.
pub fn build_tx_id_bound(c: &TxCircuitConfig) -> (r: Vec<Constraint>)
    ensures
        r@ == tx_id_bound(c),
{
    let mut cb = ConstraintBuilder::new();
    let root = Scope::root();
    let s1 = root.nest(c.is_tag(TxFieldTag::BlockNumber, 0));
    cb.require_equal(
        &s1,
        "lt or eq",
        sum(
            &vec![
                Expr::query(c.tx_id_vs_cum_num_txs.lt_chip.lt, 0),
                c.tx_id_vs_cum_num_txs.eq_chip.expr(),
            ],
        ),
        Expr::from_u64(1),
    );
    cb.gate(and(&vec![Expr::query(c.tx_table.q_enable, 0), not(Expr::query(c.is_padding_tx, 0))]))
}

/// On a calldata row the column `calldata_byte` holds the byte.
pub open spec fn calldata_byte(c: &TxCircuitConfig) -> Seq<Constraint> {
    gated(
        seq![
            (
                "calldata_byte == tx_table.value",
                times(
                    times(lit(1), cell_at(c.is_calldata, 0)),
                    minus(cell_at(c.calldata_byte, 0), cell_at(c.tx_table.value, 0)),
                ),
            ),
        ],
        cell_at(c.tx_table.q_enable, 0),
    )
}

/// Builds `calldata_byte`.
pub fn build_calldata_byte(c: &TxCircuitConfig) -> (r: Vec<Constraint>)
    ensures
        r@ == calldata_byte(c),
{
    let mut cb = ConstraintBuilder::new();
    let root = Scope::root();
    let s1 = root.nest(Expr::query(c.is_calldata, 0));
    cb.require_equal(
        &s1,
        "calldata_byte == tx_table.value",
        Expr::query(c.calldata_byte, 0),
        Expr::query(c.tx_table.value, 0),
    );
    cb.gate(Expr::query(c.tx_table.q_enable, 0))
}

/// The first row of calldata, where it belongs to a transaction, is at position zero, and
/// its accumulators hold the cost and the fingerprint of its byte alone.
pub open spec fn calldata_init(c: &TxCircuitConfig) -> Seq<Constraint> {
    gated(
        seq![
            ("index == 0", times(lit(1), minus(cell_at(c.tx_table.index, 0), lit(0)))),
            (
                "calldata_gas_cost_acc == gas_cost",
                times(
                    lit(1),
                    minus(
                        cell_at(c.calldata_gas_cost_acc, 0),
                        select_expr(
                            is_zero_expr(
                                cell_at(c.value_is_zero.value, 0),
                                c.value_is_zero.value_inv,
                                0,
                            ),
                            lit(4),
                            lit(16),
                        ),
                    ),
                ),
            ),
            (
                "calldata_rlc == byte",
                times(lit(1), minus(cell_at(c.calldata_rlc, 0), cell_at(c.tx_table.value, 0))),
            ),
        ],
        and_expr(
            seq![
                cell_at(c.q_calldata_first, 0),
                not_expr(
                    is_zero_expr(cell_at(c.tx_id_is_zero.value, 0), c.tx_id_is_zero.value_inv, 0),
                ),
            ],
        ),
    )
}

/// Builds `calldata_init`.
pub fn build_calldata_init(c: &TxCircuitConfig) -> (r: Vec<Constraint>)
    ensures
        r@ == calldata_init(c),
{
    let mut cb = ConstraintBuilder::new();
    let root = Scope::root();
    cb.require_equal(&root, "index == 0", Expr::query(c.tx_table.index, 0), Expr::from_u64(0));
    cb.require_equal(
        &root,
        "calldata_gas_cost_acc == gas_cost",
        Expr::query(c.calldata_gas_cost_acc, 0),
        select(c.value_is_zero.expr(0), Expr::from_u64(4), Expr::from_u64(16)),
    );
    cb.require_equal(
        &root,
        "calldata_rlc == byte",
        Expr::query(c.calldata_rlc, 0),
        Expr::query(c.tx_table.value, 0),
    );
    cb.gate(and(&vec![Expr::query(c.q_calldata_first, 0), not(c.tx_id_is_zero.expr(0))]))
}

/// On a calldata row of a transaction: the final marker is a boolean. Where it is zero, the
/// next row belongs to the same transaction, is at the next position, and its accumulators
/// go on from this row's. Where it is one, the next row belongs to another transaction;
/// and where that is a transaction at all, the next row is at position zero and its
/// accumulators start anew.
pub open spec fn calldata_bytes(c: &TxCircuitConfig, ch: &ChallengeExprs) -> Seq<Constraint> {
    gated(
        seq![
            ("is_final is boolean", times(lit(1), boolean_poly(cell_at(c.is_final, 0)))),
            (
                "index::next == index::cur + 1",
                times(
                    times(lit(1), not_expr(cell_at(c.is_final, 0))),
                    minus(cell_at(c.tx_table.index, 1), plus(cell_at(c.tx_table.index, 0), lit(1))),
                ),
            ),
            (
                "tx_id::next == tx_id::cur",
                times(
                    times(lit(1), not_expr(cell_at(c.is_final, 0))),
                    minus(c.tx_id_unchanged.is_equal_expression, lit(1)),
                ),
            ),
            (
                "calldata_gas_cost_acc::next == calldata_gas_cost::cur + gas_cost_next",
                times(
                    times(lit(1), not_expr(cell_at(c.is_final, 0))),
                    minus(
                        cell_at(c.calldata_gas_cost_acc, 1),
                        plus(
                            cell_at(c.calldata_gas_cost_acc, 0),
                            select_expr(
                                is_zero_expr(
                                    cell_at(c.value_is_zero.value, 1),
                                    c.value_is_zero.value_inv,
                                    1,
                                ),
                                lit(4),
                                lit(16),
                            ),
                        ),
                    ),
                ),
            ),
            (
                "calldata_rlc' = calldata_rlc * r + byte'",
                times(
                    times(lit(1), not_expr(cell_at(c.is_final, 0))),
                    minus(
                        cell_at(c.calldata_rlc, 1),
                        plus(
                            times(cell_at(c.calldata_rlc, 0), ch.keccak_input),
                            cell_at(c.tx_table.value, 1),
                        ),
                    ),
                ),
            ),
            (
                "tx_id changes at is_final == 1",
                times(times(lit(1), cell_at(c.is_final, 0)), c.tx_id_unchanged.is_equal_expression),
            ),
            (
                "index' == 0",
                times(
                    times(
                        lit(1),
                        and_expr(
                            seq![
                                cell_at(c.is_final, 0),
                                not_expr(
                                    is_zero_expr(
                                        cell_at(c.tx_id_is_zero.value, 1),
                                        c.tx_id_is_zero.value_inv,
                                        1,
                                    ),
                                ),
                            ],
                        ),
                    ),
                    minus(cell_at(c.tx_table.index, 1), lit(0)),
                ),
            ),
            (
                "calldata_gas_cost_acc' == gas_cost_next",
                times(
                    times(
                        lit(1),
                        and_expr(
                            seq![
                                cell_at(c.is_final, 0),
                                not_expr(
                                    is_zero_expr(
                                        cell_at(c.tx_id_is_zero.value, 1),
                                        c.tx_id_is_zero.value_inv,
                                        1,
                                    ),
                                ),
                            ],
                        ),
                    ),
                    minus(
                        cell_at(c.calldata_gas_cost_acc, 1),
                        select_expr(
                            is_zero_expr(
                                cell_at(c.value_is_zero.value, 1),
                                c.value_is_zero.value_inv,
                                1,
                            ),
                            lit(4),
                            lit(16),
                        ),
                    ),
                ),
            ),
            (
                "calldata_rlc' == byte'",
                times(
                    times(
                        lit(1),
                        and_expr(
                            seq![
                                cell_at(c.is_final, 0),
                                not_expr(
                                    is_zero_expr(
                                        cell_at(c.tx_id_is_zero.value, 1),
                                        c.tx_id_is_zero.value_inv,
                                        1,
                                    ),
                                ),
                            ],
                        ),
                    ),
                    minus(cell_at(c.calldata_rlc, 1), cell_at(c.tx_table.value, 1)),
                ),
            ),
        ],
        and_expr(
            seq![
                cell_at(c.tx_table.q_enable, 0),
                cell_at(c.is_calldata, 0),
                not_expr(
                    is_zero_expr(cell_at(c.tx_id_is_zero.value, 0), c.tx_id_is_zero.value_inv, 0),
                ),
            ],
        ),
    )
}

/// Builds `calldata_bytes`.
pub fn build_calldata_bytes(c: &TxCircuitConfig, ch: &ChallengeExprs) -> (r: Vec<Constraint>)
    ensures
        r@ == calldata_bytes(c, ch),
{
    let mut cb = ConstraintBuilder::new();
    let root = Scope::root();
    cb.require_boolean(&root, "is_final is boolean", Expr::query(c.is_final, 0));
    let s1 = root.nest(not(Expr::query(c.is_final, 0)));
    cb.require_equal(
        &s1,
        "index::next == index::cur + 1",
        Expr::query(c.tx_table.index, 1),
        Expr::query(c.tx_table.index, 0).add(Expr::from_u64(1)),
    );
    cb.require_equal(&s1, "tx_id::next == tx_id::cur", c.tx_id_unchanged.expr(), Expr::from_u64(1));
    cb.require_equal(
        &s1,
        "calldata_gas_cost_acc::next == calldata_gas_cost::cur + gas_cost_next",
        Expr::query(c.calldata_gas_cost_acc, 1),
        Expr::query(c.calldata_gas_cost_acc, 0).add(
            select(c.value_is_zero.expr(1), Expr::from_u64(4), Expr::from_u64(16)),
        ),
    );
    cb.require_equal(
        &s1,
        "calldata_rlc' = calldata_rlc * r + byte'",
        Expr::query(c.calldata_rlc, 1),
        Expr::query(c.calldata_rlc, 0).mul(ch.keccak_input.dup()).add(
            Expr::query(c.tx_table.value, 1),
        ),
    );
    let s2 = root.nest(Expr::query(c.is_final, 0));
    cb.require_zero(&s2, "tx_id changes at is_final == 1", c.tx_id_unchanged.expr());
    let s3 = root.nest(and(&vec![Expr::query(c.is_final, 0), not(c.tx_id_is_zero.expr(1))]));
    cb.require_equal(&s3, "index' == 0", Expr::query(c.tx_table.index, 1), Expr::from_u64(0));
    cb.require_equal(
        &s3,
        "calldata_gas_cost_acc' == gas_cost_next",
        Expr::query(c.calldata_gas_cost_acc, 1),
        select(c.value_is_zero.expr(1), Expr::from_u64(4), Expr::from_u64(16)),
    );
    cb.require_equal(
        &s3,
        "calldata_rlc' == byte'",
        Expr::query(c.calldata_rlc, 1),
        Expr::query(c.tx_table.value, 1),
    );
    cb.gate(
        and(
            &vec![
                Expr::query(c.tx_table.q_enable, 0),
                Expr::query(c.is_calldata, 0),
                not(c.tx_id_is_zero.expr(0)),
            ],
        ),
    )
}

/// On the `ChainID` row, the recovery value on the next row is, for a transaction bound to
/// a chain id, twice the chain id and 35 or 36; for one without a chain id, 27 or 28; and
/// for a message from the queue, zero.
pub open spec fn signature_v(c: &TxCircuitConfig) -> Seq<Constraint> {
    gated(
        seq![
            (
                "V - (chain_id * 2 + 35) in {0, 1}",
                times(
                    times(
                        lit(1),
                        and_expr(seq![cell_at(c.is_chain_id, 0), is_type(c, TxType::Eip155)]),
                    ),
                    boolean_poly(
                        minus(
                            minus(
                                cell_at(c.tx_table.value, 1),
                                times(cell_at(c.tx_table.value, 0), lit(2)),
                            ),
                            lit(35),
                        ),
                    ),
                ),
            ),
            (
                "V - 27 in {0, 1}",
                times(
                    times(
                        lit(1),
                        and_expr(seq![cell_at(c.is_chain_id, 0), is_type(c, TxType::PreEip155)]),
                    ),
                    boolean_poly(minus(cell_at(c.tx_table.value, 1), lit(27))),
                ),
            ),
            (
                "V == 0",
                times(
                    times(
                        lit(1),
                        and_expr(seq![cell_at(c.is_chain_id, 0), is_type(c, TxType::L1Msg)]),
                    ),
                    cell_at(c.tx_table.value, 1),
                ),
            ),
        ],
        cell_at(c.tx_table.q_enable, 0),
    )
}

/// Builds `signature_v`.
pub fn build_signature_v(c: &TxCircuitConfig) -> (r: Vec<Constraint>)
    ensures
        r@ == signature_v(c),
{
    let mut cb = ConstraintBuilder::new();
    let root = Scope::root();
    let s1 = root.nest(and(&vec![Expr::query(c.is_chain_id, 0), c.is_type(TxType::Eip155)]));
    cb.require_boolean(
        &s1,
        "V - (chain_id * 2 + 35) in {0, 1}",
        Expr::query(c.tx_table.value, 1).sub(
            Expr::query(c.tx_table.value, 0).mul(Expr::from_u64(2)),
        ).sub(Expr::from_u64(35)),
    );
    let s2 = root.nest(and(&vec![Expr::query(c.is_chain_id, 0), c.is_type(TxType::PreEip155)]));
    cb.require_boolean(
        &s2,
        "V - 27 in {0, 1}",
        Expr::query(c.tx_table.value, 1).sub(Expr::from_u64(27)),
    );
    let s3 = root.nest(and(&vec![Expr::query(c.is_chain_id, 0), c.is_type(TxType::L1Msg)]));
    cb.require_zero(&s3, "V == 0", Expr::query(c.tx_table.value, 1));
    cb.gate(Expr::query(c.tx_table.q_enable, 0))
}

/// The sender of a signed transaction, where there is one, is the address that was
/// recovered from the signature.
pub open spec fn caller_address(c: &TxCircuitConfig) -> Seq<Constraint> {
    gated(
        seq![
            (
                "caller address == sv_address",
                times(
                    times(
                        lit(1),
                        not_expr(
                            is_zero_expr(
                                cell_at(c.value_is_zero.value, 0),
                                c.value_is_zero.value_inv,
                                0,
                            ),
                        ),
                    ),
                    minus(cell_at(c.tx_table.value, 0), cell_at(c.sv_address, 0)),
                ),
            ),
        ],
        and_expr(
            seq![
                cell_at(c.tx_table.q_enable, 0),
                cell_at(c.is_caller_address, 0),
                not_expr(cell_at(c.is_l1_msg, 0)),
            ],
        ),
    )
}

/// Builds `caller_address`.
pub fn build_caller_address(c: &TxCircuitConfig) -> (r: Vec<Constraint>)
    ensures
        r@ == caller_address(c),
{
    let mut cb = ConstraintBuilder::new();
    let root = Scope::root();
    let s1 = root.nest(not(c.value_is_zero.expr(0)));
    cb.require_equal(
        &s1,
        "caller address == sv_address",
        Expr::query(c.tx_table.value, 0),
        Expr::query(c.sv_address, 0),
    );
    cb.gate(
        and(
            &vec![
                Expr::query(c.tx_table.q_enable, 0),
                Expr::query(c.is_caller_address, 0),
                not(Expr::query(c.is_l1_msg, 0)),
            ],
        ),
    )
}

/// The last row of calldata carries the final marker.
pub open spec fn calldata_last(c: &TxCircuitConfig) -> Seq<Constraint> {
    seq![("", times(cell_at(c.q_calldata_last, 0), minus(cell_at(c.is_final, 0), lit(1))))]
}

/// Builds `calldata_last`.
pub fn build_calldata_last(c: &TxCircuitConfig) -> (r: Vec<Constraint>)
    ensures
        r@ == calldata_last(c),
{
    let mut polys: Vec<Constraint> = Vec::new();
    polys.push(
        (
            "",
            Expr::query(c.q_calldata_last, 0).mul(Expr::query(c.is_final, 0).sub(Expr::from_u64(1))),
        ),
    );
    polys
}

/// From one header to the next, up to the padding, the block number does not fall.
pub open spec fn block_num_step(c: &TxCircuitConfig) -> Expr {
    times(
        and_expr(
            seq![
                not_expr(cell_at(c.is_padding_tx, 1)),
                not_expr(cell_at(c.is_calldata, 1)),
                cell_at(c.is_tag_block_num, 0),
            ],
        ),
        minus(cell_at(c.block_num, 1), cell_at(c.block_num, 0)),
    )
}

/// Builds the input of the range check `block_num_step`.
pub fn build_block_num_step(c: &TxCircuitConfig) -> (r: Expr)
    ensures
        r == block_num_step(c),
{
    and(
        &vec![
            not(Expr::query(c.is_padding_tx, 1)),
            not(Expr::query(c.is_calldata, 1)),
            Expr::query(c.is_tag_block_num, 0),
        ],
    ).mul(Expr::query(c.block_num, 1).sub(Expr::query(c.block_num, 0)))
}

/// From one calldata row to the next, where that belongs to a transaction, the number
/// of the transaction does not fall.
pub open spec fn tx_id_step(c: &TxCircuitConfig) -> Expr {
    times(
        and_expr(
            seq![
                cell_at(c.tx_table.q_enable, 1),
                cell_at(c.is_calldata, 0),
                not_expr(
                    is_zero_expr(cell_at(c.tx_id_is_zero.value, 1), c.tx_id_is_zero.value_inv, 1),
                ),
            ],
        ),
        minus(cell_at(c.tx_table.tx_id, 1), cell_at(c.tx_table.tx_id, 0)),
    )
}

/// Builds the input of the range check `tx_id_step`.
pub fn build_tx_id_step(c: &TxCircuitConfig) -> (r: Expr)
    ensures
        r == tx_id_step(c),
{
    and(
        &vec![
            Expr::query(c.tx_table.q_enable, 1),
            Expr::query(c.is_calldata, 0),
            not(c.tx_id_is_zero.expr(1)),
        ],
    ).mul(Expr::query(c.tx_table.tx_id, 1).sub(Expr::query(c.tx_table.tx_id, 0)))
}

/// The gates of the circuit, after `gates`.
pub open spec fn with_tx_gates(
    gates: Seq<GateView>,
    c: &TxCircuitConfig,
    ch: &ChallengeExprs,
) -> Seq<GateView> {
    gates
        .push(("tx_id starts with 1", tx_id_starts(c)))
        .push(("tx_id transition in the fixed part of tx table", tx_id_transition(c)))
        .push(("basic constraints", basic_constraints(c)))
        .push(("is_calldata", is_calldata(c)))
        .push(("is_caller_address", is_caller_address(c)))
        .push(("is_chain_id", is_chain_id(c)))
        .push(("is_tag_block_num", is_tag_block_num(c)))
        .push(("is_l1_msg", is_l1_msg(c)))
        .push(("calldata lookup into tx table condition", calldata_lookup_condition(c)))
        .push(("sign tag lookup into RLP table condition", sign_tag_lookup_condition(c)))
        .push(("hash tag lookup into RLP table condition", hash_tag_lookup_condition(c)))
        .push(("l1 msg lookup into RLP table condition", l1_msg_lookup_condition(c)))
        .push(("lookup into Keccak table condition", keccak_lookup_condition(c)))
        .push(("tx_gas_cost == 0 for L1 msg", l1_msg_gas_cost(c)))
        .push(("copy tx_nonce", copy_tx_nonce(c)))
        .push(("copy block_num", copy_block_num(c)))
        .push(("num_all_txs in a block", num_all_txs(c)))
        .push(("is_padding_tx", is_padding_tx(c)))
        .push(("last non-padding tx must have tx_id == cum_num_txs", last_tx_id(c)))
        .push(("tx_id <= cum_num_txs", tx_id_bound(c)))
        .push(("last row of call data", calldata_last(c)))
        .push(("calldata_byte == tx_table.value", calldata_byte(c)))
        .push(("tx call data init", calldata_init(c)))
        .push(("tx call data bytes", calldata_bytes(c, ch)))
        .push(("tx signature v", signature_v(c)))
        .push(
            (
                "caller address == sv_address if it's not zero and tx_type != L1Msg",
                caller_address(c),
            ),
        )
}

/// The range checks of the circuit, after `ranges`.
pub open spec fn with_tx_ranges(ranges: Seq<RangeLookup>, c: &TxCircuitConfig) -> Seq<
    RangeLookup,
> {
    ranges
        .push(
            RangeLookup { name: "block_num is non-decreasing till padding txs", input: block_num_step(
                c,
            ), table: c.u16_table },
        )
        .push(
            RangeLookup { name: "tx_id_diff must in u16", input: tx_id_step(c), table: c.u16_table },
        )
}

impl TxCircuitConfig {
    /// Adds the gates of the circuit.
    pub fn add_gates(&self, meta: &mut ConstraintSystem, ch: &ChallengeExprs)
        ensures
            final(meta)@ == (ConstraintSystemView {
                gates: with_tx_gates(old(meta)@.gates, self, ch),
                ..old(meta)@
            }),
    {
        meta.create_gate("tx_id starts with 1", build_tx_id_starts(self));
        meta.create_gate(
            "tx_id transition in the fixed part of tx table",
            build_tx_id_transition(self),
        );
        meta.create_gate("basic constraints", build_basic_constraints(self));
        meta.create_gate("is_calldata", build_is_calldata(self));
        meta.create_gate("is_caller_address", build_is_caller_address(self));
        meta.create_gate("is_chain_id", build_is_chain_id(self));
        meta.create_gate("is_tag_block_num", build_is_tag_block_num(self));
        meta.create_gate("is_l1_msg", build_is_l1_msg(self));
        meta.create_gate(
            "calldata lookup into tx table condition",
            build_calldata_lookup_condition(self),
        );
        meta.create_gate(
            "sign tag lookup into RLP table condition",
            build_sign_tag_lookup_condition(self),
        );
        meta.create_gate(
            "hash tag lookup into RLP table condition",
            build_hash_tag_lookup_condition(self),
        );
        meta.create_gate(
            "l1 msg lookup into RLP table condition",
            build_l1_msg_lookup_condition(self),
        );
        meta.create_gate("lookup into Keccak table condition", build_keccak_lookup_condition(self));
        meta.create_gate("tx_gas_cost == 0 for L1 msg", build_l1_msg_gas_cost(self));
        meta.create_gate("copy tx_nonce", build_copy_tx_nonce(self));
        meta.create_gate("copy block_num", build_copy_block_num(self));
        meta.create_gate("num_all_txs in a block", build_num_all_txs(self));
        meta.create_gate("is_padding_tx", build_is_padding_tx(self));
        meta.create_gate(
            "last non-padding tx must have tx_id == cum_num_txs",
            build_last_tx_id(self),
        );
        meta.create_gate("tx_id <= cum_num_txs", build_tx_id_bound(self));
        meta.create_gate("last row of call data", build_calldata_last(self));
        meta.create_gate("calldata_byte == tx_table.value", build_calldata_byte(self));
        meta.create_gate("tx call data init", build_calldata_init(self));
        meta.create_gate("tx call data bytes", build_calldata_bytes(self, ch));
        meta.create_gate("tx signature v", build_signature_v(self));
        meta.create_gate(
            "caller address == sv_address if it's not zero and tx_type != L1Msg",
            build_caller_address(self),
        );
    }

    /// Adds the range checks of the circuit.
    pub fn add_range_checks(&self, meta: &mut ConstraintSystem)
        ensures
            final(meta)@ == (ConstraintSystemView {
                ranges: with_tx_ranges(old(meta)@.ranges, self),
                ..old(meta)@
            }),
    {
        meta.lookup(
            "block_num is non-decreasing till padding txs",
            build_block_num_step(self),
            self.u16_table,
        );
        meta.lookup("tx_id_diff must in u16", build_tx_id_step(self), self.u16_table);
    }
}

} // verus!
