//! The lookups of the transaction circuit.
//!
//! A lookup is a sequence of pairs: an input, gated by the condition under
//! which the row takes part in the lookup, and the expression of the table
//! that the input has to occur in.

use crate::expr::cell_at;
use crate::expr::lit;
use crate::expr::minus;
use crate::expr::plus;
use crate::expr::times;
use crate::expr::Expr;
use crate::gadgets::is_zero_expr;
use crate::plonk::ConstraintSystem;
use crate::plonk::ConstraintSystemView;
use crate::plonk::LookupView;
use crate::table::BlockContextFieldTag;
use crate::table::TxFieldTag;
use crate::tx_circuit::gates::is_type;
use crate::tx_circuit::TxCircuitConfig;
use crate::util::and;
use crate::util::and_expr;
use crate::util::not;
use crate::util::not_expr;
use crate::util::sum;
use crate::util::sum_expr;
use crate::witness::Format;
use crate::witness::RlpTag;
use crate::witness::Tag;
use crate::witness::TxType;
use vstd::prelude::*;

verus! {

/// The pairs of the elements of two sequences, up to the end of the shorter.
pub open spec fn zipped(inputs: Seq<Expr>, table: Seq<Expr>) -> Seq<(Expr, Expr)> {
    Seq::new(
        if inputs.len() <= table.len() {
            inputs.len()
        } else {
            table.len()
        },
        |i: int| (inputs[i], table[i]),
    )
}

/// The pairs of inputs and table expressions, each input multiplied on the
/// left by `enable`.
pub open spec fn enabled_pairs(enable: Expr, inputs: Seq<Expr>, table: Seq<Expr>) -> Seq<
    (Expr, Expr),
> {
    Seq::new(zipped(inputs, table).len(), |i: int| (times(enable, inputs[i]), table[i]))
}

/// The pairs of inputs and table expressions, each input multiplied on the
/// right by `enable`.
pub open spec fn pairs_enabled(enable: Expr, inputs: Seq<Expr>, table: Seq<Expr>) -> Seq<
    (Expr, Expr),
> {
    Seq::new(zipped(inputs, table).len(), |i: int| (times(inputs[i], enable), table[i]))
}

/// The pairs of the elements of two lists, up to the end of the shorter.
pub fn zip(inputs: Vec<Expr>, table: Vec<Expr>) -> (r: Vec<(Expr, Expr)>)
    ensures
        r@ == zipped(inputs@, table@),
{
    let n = if inputs.len() <= table.len() {
        inputs.len()
    } else {
        table.len()
    };
    let mut out: Vec<(Expr, Expr)> = Vec::new();
    let mut i: usize = 0;
    while i < n
        invariant
            i <= n,
            n <= inputs@.len(),
            n <= table@.len(),
            out@.len() == i,
            forall|k: int| 0 <= k < i ==> #[trigger] out@[k] == (inputs@[k], table@[k]),
        decreases n - i,
    {
        out.push((inputs[i].dup(), table[i].dup()));
        i = i + 1;
    }
    proof {
        assert(out@ =~= zipped(inputs@, table@));
    }
    out
}

/// Calls `itertools::zip_eq` on the two lists and collects what it yields:
/// the pairs of their elements in order. It panics where the lists differ in
/// length.
#[verifier::external_body]
fn zip_equal(inputs: Vec<Expr>, table: Vec<Expr>) -> (r: Vec<(Expr, Expr)>)
    requires
        inputs@.len() == table@.len(),
    ensures
        r@ == zipped(inputs@, table@),
{
    itertools::zip_eq(inputs, table).collect()
}

/// Multiplies each input on the left by `enable`.
pub fn enable_left(enable: &Expr, pairs: Vec<(Expr, Expr)>) -> (r: Vec<(Expr, Expr)>)
    ensures
        r@.len() == pairs@.len(),
        forall|k: int|
            0 <= k < pairs@.len() ==> #[trigger] r@[k] == (
                times(*enable, pairs@[k].0),
                pairs@[k].1,
            ),
{
    let mut out: Vec<(Expr, Expr)> = Vec::new();
    let mut i: usize = 0;
    while i < pairs.len()
        invariant
            i <= pairs@.len(),
            out@.len() == i,
            forall|k: int|
                0 <= k < i ==> #[trigger] out@[k] == (times(*enable, pairs@[k].0), pairs@[k].1),
        decreases pairs@.len() - i,
    {
        out.push((enable.dup().mul(pairs[i].0.dup()), pairs[i].1.dup()));
        i = i + 1;
    }
    out
}

/// Multiplies each input on the right by `enable`.
pub fn enable_right(enable: &Expr, pairs: Vec<(Expr, Expr)>) -> (r: Vec<(Expr, Expr)>)
    ensures
        r@.len() == pairs@.len(),
        forall|k: int|
            0 <= k < pairs@.len() ==> #[trigger] r@[k] == (
                times(pairs@[k].0, *enable),
                pairs@[k].1,
            ),
{
    let mut out: Vec<(Expr, Expr)> = Vec::new();
    let mut i: usize = 0;
    while i < pairs.len()
        invariant
            i <= pairs@.len(),
            out@.len() == i,
            forall|k: int|
                0 <= k < i ==> #[trigger] out@[k] == (times(pairs@[k].0, *enable), pairs@[k].1),
        decreases pairs@.len() - i,
    {
        out.push((pairs[i].0.dup().mul(enable.dup()), pairs[i].1.dup()));
        i = i + 1;
    }
    out
}

/// The gas cost of a transaction with calldata is the accumulator on the final row of
/// its calldata.
pub open spec fn calldata_gas_cost(c: &TxCircuitConfig) -> Seq<(Expr, Expr)> {
    enabled_pairs(
        and_expr(
            seq![cell_at(c.tx_table.q_enable, 0), cell_at(c.lookup_conditions.tx_calldata, 0)],
        ),
        seq![
            cell_at(c.tx_table.tx_id, 0),
            lit(TxFieldTag::CallData.spec_index() as int),
            cell_at(c.tx_table.value, 1),
            lit(1),
        ],
        seq![
            cell_at(c.tx_table.tx_id, 0),
            cell_at(c.tx_table.tag, 0),
            cell_at(c.calldata_gas_cost_acc, 0),
            cell_at(c.is_final, 0),
        ],
    )
}

/// Builds the lookup `calldata_gas_cost`.
pub fn build_calldata_gas_cost(c: &TxCircuitConfig) -> (r: Vec<(Expr, Expr)>)
    ensures
        r@ == calldata_gas_cost(c),
{
    let enable = and(
        &vec![Expr::query(c.tx_table.q_enable, 0), Expr::query(c.lookup_conditions.tx_calldata, 0)],
    );
    let inputs = vec![
        Expr::query(c.tx_table.tx_id, 0),
        TxFieldTag::CallData.expr(),
        Expr::query(c.tx_table.value, 1),
        Expr::from_u64(1),
    ];
    let table = vec![
        Expr::query(c.tx_table.tx_id, 0),
        Expr::query(c.tx_table.tag, 0),
        Expr::query(c.calldata_gas_cost_acc, 0),
        Expr::query(c.is_final, 0),
    ];
    let pairs = enable_left(&enable, zip(inputs, table));
    proof {
        assert(pairs@ =~= calldata_gas_cost(c));
    }
    pairs
}

/// The final row of the calldata of a transaction is at the position one below the
/// length of the calldata.
pub open spec fn calldata_final_present(c: &TxCircuitConfig) -> Seq<(Expr, Expr)> {
    enabled_pairs(
        and_expr(
            seq![cell_at(c.tx_table.q_enable, 0), cell_at(c.lookup_conditions.tx_calldata, 0)],
        ),
        seq![
            cell_at(c.tx_table.tx_id, 0),
            lit(TxFieldTag::CallData.spec_index() as int),
            minus(cell_at(c.tx_table.value, 0), lit(1)),
            lit(1),
        ],
        seq![
            cell_at(c.tx_table.tx_id, 0),
            cell_at(c.tx_table.tag, 0),
            cell_at(c.tx_table.index, 0),
            cell_at(c.is_final, 0),
        ],
    )
}

/// Builds the lookup `calldata_final_present`.
pub fn build_calldata_final_present(c: &TxCircuitConfig) -> (r: Vec<(Expr, Expr)>)
    ensures
        r@ == calldata_final_present(c),
{
    let enable = and(
        &vec![Expr::query(c.tx_table.q_enable, 0), Expr::query(c.lookup_conditions.tx_calldata, 0)],
    );
    let inputs = vec![
        Expr::query(c.tx_table.tx_id, 0),
        TxFieldTag::CallData.expr(),
        Expr::query(c.tx_table.value, 0).sub(Expr::from_u64(1)),
        Expr::from_u64(1),
    ];
    let table = vec![
        Expr::query(c.tx_table.tx_id, 0),
        Expr::query(c.tx_table.tag, 0),
        Expr::query(c.tx_table.index, 0),
        Expr::query(c.is_final, 0),
    ];
    let pairs = enable_left(&enable, zip(inputs, table));
    proof {
        assert(pairs@ =~= calldata_final_present(c));
    }
    pairs
}

/// The fingerprint on the final row of the calldata of a transaction is the one in the
/// header of the transaction.
pub open spec fn calldata_rlc(c: &TxCircuitConfig) -> Seq<(Expr, Expr)> {
    pairs_enabled(
        and_expr(
            seq![
                cell_at(c.tx_table.q_enable, 0),
                cell_at(c.is_calldata, 0),
                not_expr(
                    is_zero_expr(cell_at(c.tx_id_is_zero.value, 0), c.tx_id_is_zero.value_inv, 0),
                ),
                cell_at(c.is_final, 0),
            ],
        ),
        seq![
            cell_at(c.tx_table.tx_id, 0),
            lit(TxFieldTag::CallDataRLC.spec_index() as int),
            cell_at(c.calldata_rlc, 0),
        ],
        seq![
            cell_at(c.tx_table.tx_id, 0),
            cell_at(c.tx_table.tag, 0),
            cell_at(c.tx_table.value, 0),
        ],
    )
}

/// Builds the lookup `calldata_rlc`.
pub fn build_calldata_rlc(c: &TxCircuitConfig) -> (r: Vec<(Expr, Expr)>)
    ensures
        r@ == calldata_rlc(c),
{
    let enable = and(
        &vec![
            Expr::query(c.tx_table.q_enable, 0),
            Expr::query(c.is_calldata, 0),
            not(c.tx_id_is_zero.expr(0)),
            Expr::query(c.is_final, 0),
        ],
    );
    let inputs = vec![
        Expr::query(c.tx_table.tx_id, 0),
        TxFieldTag::CallDataRLC.expr(),
        Expr::query(c.calldata_rlc, 0),
    ];
    let table = vec![
        Expr::query(c.tx_table.tx_id, 0),
        Expr::query(c.tx_table.tag, 0),
        Expr::query(c.tx_table.value, 0),
    ];
    let pairs = enable_right(&enable, zip(inputs, table));
    proof {
        assert(pairs@ =~= calldata_rlc(c));
    }
    pairs
}

/// The encoding of a message from the queue starts with the byte that marks its type.
pub open spec fn l1_msg_type(c: &TxCircuitConfig) -> Seq<(Expr, Expr)> {
    enabled_pairs(
        and_expr(seq![cell_at(c.tx_table.q_enable, 0), is_type(c, TxType::L1Msg)]),
        seq![
            lit(1),
            cell_at(c.tx_table.tx_id, 0),
            lit(Format::L1MsgHash.spec_index() as int),
            lit(RlpTag::Tag(Tag::TxType).spec_index() as int),
            lit(126),
            lit(126),
            lit(1),
            lit(1),
            lit(0),
        ],
        c.rlp_table.spec_table_exprs(),
    )
}

/// Builds the lookup `l1_msg_type`.
pub fn build_l1_msg_type(c: &TxCircuitConfig) -> (r: Vec<(Expr, Expr)>)
    ensures
        r@ == l1_msg_type(c),
{
    let enable = and(&vec![Expr::query(c.tx_table.q_enable, 0), c.is_type(TxType::L1Msg)]);
    let inputs = vec![
        Expr::from_u64(1),
        Expr::query(c.tx_table.tx_id, 0),
        Format::L1MsgHash.expr(),
        RlpTag::Tag(Tag::TxType).expr(),
        Expr::from_u64(126),
        Expr::from_u64(126),
        Expr::from_u64(1),
        Expr::from_u64(1),
        Expr::from_u64(0),
    ];
    let table = c.rlp_table.table_exprs();
    let pairs = enable_left(&enable, zip(inputs, table));
    proof {
        assert(pairs@ =~= l1_msg_type(c));
    }
    pairs
}

/// The value, fingerprint and length of a field are those that the signed encoding
/// decodes to.
pub open spec fn rlp_sign(c: &TxCircuitConfig) -> Seq<(Expr, Expr)> {
    enabled_pairs(
        and_expr(
            seq![cell_at(c.tx_table.q_enable, 0), cell_at(c.lookup_conditions.rlp_sign_tag, 0)],
        ),
        seq![
            lit(1),
            cell_at(c.tx_table.tx_id, 0),
            plus(
                times(
                    is_type(c, TxType::PreEip155),
                    lit(Format::TxSignPreEip155.spec_index() as int),
                ),
                times(is_type(c, TxType::Eip155), lit(Format::TxSignEip155.spec_index() as int)),
            ),
            cell_at(c.rlp_tag, 0),
            cell_at(c.tx_table.value, 0),
            cell_at(c.tx_value_rlc, 0),
            cell_at(c.tx_value_length, 0),
            lit(1),
            cell_at(c.is_none, 0),
        ],
        c.rlp_table.spec_table_exprs(),
    )
}

/// Builds the lookup `rlp_sign`.
pub fn build_rlp_sign(c: &TxCircuitConfig) -> (r: Vec<(Expr, Expr)>)
    ensures
        r@ == rlp_sign(c),
{
    let enable = and(
        &vec![Expr::query(c.tx_table.q_enable, 0), Expr::query(c.lookup_conditions.rlp_sign_tag, 0)],
    );
    let inputs = vec![
        Expr::from_u64(1),
        Expr::query(c.tx_table.tx_id, 0),
        c.is_type(TxType::PreEip155).mul(Format::TxSignPreEip155.expr()).add(
            c.is_type(TxType::Eip155).mul(Format::TxSignEip155.expr()),
        ),
        Expr::query(c.rlp_tag, 0),
        Expr::query(c.tx_table.value, 0),
        Expr::query(c.tx_value_rlc, 0),
        Expr::query(c.tx_value_length, 0),
        Expr::from_u64(1),
        Expr::query(c.is_none, 0),
    ];
    let table = c.rlp_table.table_exprs();
    let pairs = enable_left(&enable, zip_equal(inputs, table));
    proof {
        assert(pairs@ =~= rlp_sign(c));
    }
    pairs
}

/// The value, fingerprint and length of a field are those that the hashed encoding
/// decodes to.
pub open spec fn rlp_hash(c: &TxCircuitConfig) -> Seq<(Expr, Expr)> {
    enabled_pairs(
        and_expr(
            seq![
                cell_at(c.tx_table.q_enable, 0),
                sum_expr(
                    seq![
                        cell_at(c.lookup_conditions.rlp_hash_tag, 0),
                        cell_at(c.lookup_conditions.l1_msg_hash, 0),
                    ],
                ),
            ],
        ),
        seq![
            lit(1),
            cell_at(c.tx_table.tx_id, 0),
            plus(
                plus(
                    times(
                        is_type(c, TxType::PreEip155),
                        lit(Format::TxHashPreEip155.spec_index() as int),
                    ),
                    times(is_type(c, TxType::Eip155), lit(Format::TxHashEip155.spec_index() as int)),
                ),
                times(is_type(c, TxType::L1Msg), lit(Format::L1MsgHash.spec_index() as int)),
            ),
            cell_at(c.rlp_tag, 0),
            cell_at(c.tx_table.value, 0),
            cell_at(c.tx_value_rlc, 0),
            cell_at(c.tx_value_length, 0),
            lit(1),
            cell_at(c.is_none, 0),
        ],
        c.rlp_table.spec_table_exprs(),
    )
}

/// Builds the lookup `rlp_hash`.
pub fn build_rlp_hash(c: &TxCircuitConfig) -> (r: Vec<(Expr, Expr)>)
    ensures
        r@ == rlp_hash(c),
{
    let enable = and(
        &vec![
            Expr::query(c.tx_table.q_enable, 0),
            sum(
                &vec![
                    Expr::query(c.lookup_conditions.rlp_hash_tag, 0),
                    Expr::query(c.lookup_conditions.l1_msg_hash, 0),
                ],
            ),
        ],
    );
    let inputs = vec![
        Expr::from_u64(1),
        Expr::query(c.tx_table.tx_id, 0),
        c.is_type(TxType::PreEip155).mul(Format::TxHashPreEip155.expr()).add(
            c.is_type(TxType::Eip155).mul(Format::TxHashEip155.expr()),
        ).add(c.is_type(TxType::L1Msg).mul(Format::L1MsgHash.expr())),
        Expr::query(c.rlp_tag, 0),
        Expr::query(c.tx_table.value, 0),
        Expr::query(c.tx_value_rlc, 0),
        Expr::query(c.tx_value_length, 0),
        Expr::from_u64(1),
        Expr::query(c.is_none, 0),
    ];
    let table = c.rlp_table.table_exprs();
    let pairs = enable_left(&enable, zip_equal(inputs, table));
    proof {
        assert(pairs@ =~= rlp_hash(c));
    }
    pairs
}

/// On the `ChainID` row of a signed transaction: the hash of the signed message, the
/// recovery value freed of the chain id, and the two halves of the signature recover
/// the stored address, validly.
pub open spec fn sig(c: &TxCircuitConfig) -> Seq<(Expr, Expr)> {
    pairs_enabled(
        and_expr(seq![not_expr(cell_at(c.is_l1_msg, 0)), cell_at(c.is_chain_id, 0)]),
        seq![
            lit(1),
            cell_at(c.tx_table.value, 6),
            plus(
                times(
                    is_type(c, TxType::Eip155),
                    minus(
                        minus(
                            cell_at(c.tx_table.value, 1),
                            times(lit(2), cell_at(c.tx_table.value, 0)),
                        ),
                        lit(35),
                    ),
                ),
                times(is_type(c, TxType::PreEip155), minus(cell_at(c.tx_table.value, 1), lit(27))),
            ),
            cell_at(c.tx_table.value, 2),
            cell_at(c.tx_table.value, 3),
            cell_at(c.sv_address, 0),
            lit(1),
        ],
        c.sig_table.spec_table_exprs(),
    )
}

/// Builds the lookup `sig`.
pub fn build_sig(c: &TxCircuitConfig) -> (r: Vec<(Expr, Expr)>)
    ensures
        r@ == sig(c),
{
    let enable = and(&vec![not(Expr::query(c.is_l1_msg, 0)), Expr::query(c.is_chain_id, 0)]);
    let inputs = vec![
        Expr::from_u64(1),
        Expr::query(c.tx_table.value, 6),
        c.is_type(TxType::Eip155).mul(
            Expr::query(c.tx_table.value, 1).sub(
                Expr::from_u64(2).mul(Expr::query(c.tx_table.value, 0)),
            ).sub(Expr::from_u64(35)),
        ).add(
            c.is_type(TxType::PreEip155).mul(
                Expr::query(c.tx_table.value, 1).sub(Expr::from_u64(27)),
            ),
        ),
        Expr::query(c.tx_table.value, 2),
        Expr::query(c.tx_table.value, 3),
        Expr::query(c.sv_address, 0),
        Expr::from_u64(1),
    ];
    let table = c.sig_table.table_exprs();
    let pairs = enable_right(&enable, zip(inputs, table));
    proof {
        assert(pairs@ =~= sig(c));
    }
    pairs
}

/// On a length row that looks up a hash: the fingerprint on the next row, hashed over
/// the length, gives the fingerprint on the row after.
pub open spec fn keccak(c: &TxCircuitConfig) -> Seq<(Expr, Expr)> {
    enabled_pairs(
        and_expr(seq![cell_at(c.tx_table.q_enable, 0), cell_at(c.lookup_conditions.keccak, 0)]),
        seq![
            lit(1),
            lit(1),
            cell_at(c.tx_table.value, 1),
            cell_at(c.tx_table.value, 0),
            cell_at(c.tx_table.value, 2),
        ],
        c.keccak_table.spec_table_exprs(),
    )
}

/// Builds the lookup `keccak`.
pub fn build_keccak(c: &TxCircuitConfig) -> (r: Vec<(Expr, Expr)>)
    ensures
        r@ == keccak(c),
{
    let enable = and(
        &vec![Expr::query(c.tx_table.q_enable, 0), Expr::query(c.lookup_conditions.keccak, 0)],
    );
    let inputs = vec![
        Expr::from_u64(1),
        Expr::from_u64(1),
        Expr::query(c.tx_table.value, 1),
        Expr::query(c.tx_table.value, 0),
        Expr::query(c.tx_table.value, 2),
    ];
    let table = c.keccak_table.table_exprs();
    let pairs = enable_left(&enable, zip(inputs, table));
    proof {
        assert(pairs@ =~= keccak(c));
    }
    pairs
}

/// On the last header of a block, the count of all transactions is the one that the
/// table of block aggregates holds for the block.
pub open spec fn num_all_txs_in_block(c: &TxCircuitConfig) -> Seq<(Expr, Expr)> {
    pairs_enabled(
        and_expr(
            seq![
                cell_at(c.is_tag_block_num, 0),
                not_expr(c.block_num_unchanged.is_equal_expression),
                not_expr(cell_at(c.is_padding_tx, 0)),
            ],
        ),
        seq![
            lit(BlockContextFieldTag::NumAllTxs.spec_index() as int),
            cell_at(c.tx_table.value, 0),
            cell_at(c.num_all_txs_acc, 0),
        ],
        c.block_table.spec_table_exprs(),
    )
}

/// Builds the lookup `num_all_txs_in_block`.
pub fn build_num_all_txs_in_block(c: &TxCircuitConfig) -> (r: Vec<(Expr, Expr)>)
    ensures
        r@ == num_all_txs_in_block(c),
{
    let enable = and(
        &vec![
            Expr::query(c.is_tag_block_num, 0),
            not(c.block_num_unchanged.expr()),
            not(Expr::query(c.is_padding_tx, 0)),
        ],
    );
    let inputs = vec![
        BlockContextFieldTag::NumAllTxs.expr(),
        Expr::query(c.tx_table.value, 0),
        Expr::query(c.num_all_txs_acc, 0),
    ];
    let table = c.block_table.table_exprs();
    let pairs = enable_right(&enable, zip(inputs, table));
    proof {
        assert(pairs@ =~= num_all_txs_in_block(c));
    }
    pairs
}

/// The number of transactions of the block is the one that the table of block
/// aggregates holds for it.
pub open spec fn num_txs_in_block(c: &TxCircuitConfig) -> Seq<(Expr, Expr)> {
    pairs_enabled(
        and_expr(
            seq![
                cell_at(c.is_tag_block_num, 0),
                not_expr(cell_at(c.is_padding_tx, 0)),
                cell_at(c.tx_table.q_enable, 0),
            ],
        ),
        seq![
            lit(BlockContextFieldTag::NumTxs.spec_index() as int),
            cell_at(c.tx_table.value, 0),
            cell_at(c.num_txs, 0),
        ],
        c.block_table.spec_table_exprs(),
    )
}

/// Builds the lookup `num_txs_in_block`.
pub fn build_num_txs_in_block(c: &TxCircuitConfig) -> (r: Vec<(Expr, Expr)>)
    ensures
        r@ == num_txs_in_block(c),
{
    let enable = and(
        &vec![
            Expr::query(c.is_tag_block_num, 0),
            not(Expr::query(c.is_padding_tx, 0)),
            Expr::query(c.tx_table.q_enable, 0),
        ],
    );
    let inputs = vec![
        BlockContextFieldTag::NumTxs.expr(),
        Expr::query(c.tx_table.value, 0),
        Expr::query(c.num_txs, 0),
    ];
    let table = c.block_table.table_exprs();
    let pairs = enable_right(&enable, zip(inputs, table));
    proof {
        assert(pairs@ =~= num_txs_in_block(c));
    }
    pairs
}

/// The number of transactions up to and including the block is the one that the
/// table of block aggregates holds for it.
pub open spec fn cum_num_txs_in_block(c: &TxCircuitConfig) -> Seq<(Expr, Expr)> {
    pairs_enabled(
        and_expr(
            seq![
                cell_at(c.is_tag_block_num, 0),
                not_expr(cell_at(c.is_padding_tx, 0)),
                cell_at(c.tx_table.q_enable, 0),
            ],
        ),
        seq![
            lit(BlockContextFieldTag::CumNumTxs.spec_index() as int),
            cell_at(c.tx_table.value, 0),
            cell_at(c.cum_num_txs, 0),
        ],
        c.block_table.spec_table_exprs(),
    )
}

/// Builds the lookup `cum_num_txs_in_block`.
pub fn build_cum_num_txs_in_block(c: &TxCircuitConfig) -> (r: Vec<(Expr, Expr)>)
    ensures
        r@ == cum_num_txs_in_block(c),
{
    let enable = and(
        &vec![
            Expr::query(c.is_tag_block_num, 0),
            not(Expr::query(c.is_padding_tx, 0)),
            Expr::query(c.tx_table.q_enable, 0),
        ],
    );
    let inputs = vec![
        BlockContextFieldTag::CumNumTxs.expr(),
        Expr::query(c.tx_table.value, 0),
        Expr::query(c.cum_num_txs, 0),
    ];
    let table = c.block_table.table_exprs();
    let pairs = enable_right(&enable, zip(inputs, table));
    proof {
        assert(pairs@ =~= cum_num_txs_in_block(c));
    }
    pairs
}

/// The lookups that `configure_lookups` adds, after `lookups`.
pub open spec fn with_tx_lookups(lookups: Seq<LookupView>, c: &TxCircuitConfig) -> Seq<
    LookupView,
> {
    lookups
        .push(("tx call data gas cost in TxTable", calldata_gas_cost(c)))
        .push(("is_final call data byte should be present", calldata_final_present(c)))
        .push(("lookup CallDataRLC in the calldata part", calldata_rlc(c)))
        .push(("lookup tx type in RLP table", l1_msg_type(c)))
        .push(("lookup tx tag in RLP Table for signing", rlp_sign(c)))
        .push(("lookup tx tag in RLP Table for hashing", rlp_hash(c)))
        .push(("Sig table lookup", sig(c)))
        .push(("Keccak table lookup for TxSign and TxHash", keccak(c)))
}

impl TxCircuitConfig {
    /// Adds the lookups into the transaction table itself and into the tables of decoded
    /// fields, of signatures and of hashes.
    pub fn configure_lookups(&self, meta: &mut ConstraintSystem)
        ensures
            final(meta)@ == (ConstraintSystemView {
                lookups: with_tx_lookups(old(meta)@.lookups, self),
                ..old(meta)@
            }),
    {
        meta.lookup_any("tx call data gas cost in TxTable", build_calldata_gas_cost(self));
        meta.lookup_any("is_final call data byte should be present", build_calldata_final_present(self));
        meta.lookup_any("lookup CallDataRLC in the calldata part", build_calldata_rlc(self));
        meta.lookup_any("lookup tx type in RLP table", build_l1_msg_type(self));
        meta.lookup_any("lookup tx tag in RLP Table for signing", build_rlp_sign(self));
        meta.lookup_any("lookup tx tag in RLP Table for hashing", build_rlp_hash(self));
        meta.lookup_any("Sig table lookup", build_sig(self));
        meta.lookup_any("Keccak table lookup for TxSign and TxHash", build_keccak(self));
    }
}

/// The lookups into the table of block aggregates, after `lookups`.
pub open spec fn with_block_lookups(lookups: Seq<LookupView>, c: &TxCircuitConfig) -> Seq<
    LookupView,
> {
    lookups
        .push(("num_all_txs in block table", num_all_txs_in_block(c)))
        .push(("num_txs in block table", num_txs_in_block(c)))
        .push(("cum_num_txs in block table", cum_num_txs_in_block(c)))
}

impl TxCircuitConfig {
    /// Adds the lookups into the table of block aggregates.
    pub fn add_block_lookups(&self, meta: &mut ConstraintSystem)
        ensures
            final(meta)@ == (ConstraintSystemView {
                lookups: with_block_lookups(old(meta)@.lookups, self),
                ..old(meta)@
            }),
    {
        meta.lookup_any("num_all_txs in block table", build_num_all_txs_in_block(self));
        meta.lookup_any("num_txs in block table", build_num_txs_in_block(self));
        meta.lookup_any("cum_num_txs in block table", build_cum_num_txs_in_block(self));
    }
}

} // verus!
