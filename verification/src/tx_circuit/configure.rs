//! The configuration of the transaction circuit: its columns, its gadgets,
//! its gates and its lookups, in the order in which they are added.

use crate::expr::cell_at;
use crate::expr::minus;
use crate::expr::Expr;
use crate::gadgets::binary_number_gates;
use crate::gadgets::first_indices;
use crate::gadgets::is_zero_expr;
use crate::gadgets::is_zero_poly;
use crate::gadgets::lt_polys;
use crate::gadgets::lt_ranges;
use crate::gadgets::BinaryNumberConfig;
use crate::gadgets::ComparatorConfig;
use crate::gadgets::IsEqualConfig;
use crate::gadgets::IsZeroConfig;
use crate::gadgets::LtConfig;
use crate::plonk::ConstraintSystem;
use crate::plonk::ConstraintSystemView;
use crate::plonk::GateView;
use crate::plonk::RangeLookup;
use crate::table::grown;
use crate::table::u16_table;
use crate::table::u8_table;
use crate::table::BlockTable;
use crate::table::KeccakTable;
use crate::table::RlpTable;
use crate::table::SigTable;
use crate::table::TxFieldTag;
use crate::table::TxTable;
use crate::tx_circuit::NUM_TABLE_COLUMNS;
use crate::witness::ChallengeExprs;
use crate::tx_circuit::gates::is_tag;
use crate::tx_circuit::gates::with_tx_gates;
use crate::tx_circuit::gates::with_tx_ranges;
use crate::tx_circuit::lookups::with_block_lookups;
use crate::tx_circuit::lookups::with_tx_lookups;
use crate::tx_circuit::LookupConditions;
use crate::tx_circuit::TxCircuitConfig;
use crate::tx_circuit::TxCircuitConfigArgs;
use crate::tx_circuit::MAX_DEGREE;
use crate::tx_circuit::NUM_OWN_COLUMNS;
use crate::util::and;
use crate::util::and_expr;
use crate::util::sum;
use crate::util::sum_expr;
use crate::witness::Error;
use crate::witness::TxType;
use vstd::prelude::*;

verus! {

/// The rows on which the test of the value for zero is tied to the value:
/// the enabled rows that hold a sender, a calldata length or a calldata
/// byte.
pub open spec fn value_is_zero_enable(c: &TxCircuitConfig) -> Expr {
    and_expr(
        seq![
            cell_at(c.tx_table.q_enable, 0),
            sum_expr(
                seq![
                    is_tag(c, TxFieldTag::CallerAddress, 0),
                    is_tag(c, TxFieldTag::CallDataLength, 0),
                    is_tag(c, TxFieldTag::CallData, 0),
                ],
            ),
        ],
    )
}

/// The rows on which the test of the block number for a change is tied to
/// the block numbers: the enabled `BlockNumber` rows.
pub open spec fn block_num_enable(c: &TxCircuitConfig) -> Expr {
    and_expr(seq![cell_at(c.tx_table.q_enable, 0), cell_at(c.is_tag_block_num, 0)])
}

/// The gates of the gadgets of the circuit, after `gates`: the two tag
/// encoders, the tests for zero and for equality, and the two comparisons.
pub open spec fn with_gadget_gates(gates: Seq<GateView>, c: &TxCircuitConfig) -> Seq<GateView> {
    let q_enable = cell_at(c.tx_table.q_enable, 0);
    let tx_id = cell_at(c.tx_table.tx_id, 0);
    let g1 = binary_number_gates(
        gates,
        c.tx_table.q_enable,
        Some(c.tx_table.tag),
        c.tx_tag_bits.bits@,
        first_indices(25),
    );
    let g2 = binary_number_gates(
        g1,
        c.tx_table.q_enable,
        Some(c.tx_type),
        c.tx_type_bits.bits@,
        first_indices(5),
    );
    g2.push(("is_zero gate", seq![("", is_zero_poly(q_enable, tx_id, c.tx_id_is_zero.value_inv))])).push(
        (
            "is_zero gate",
            seq![
                (
                    "",
                    is_zero_poly(
                        q_enable,
                        minus(tx_id, cell_at(c.tx_table.tx_id, 1)),
                        c.tx_id_unchanged.value_inv,
                    ),
                ),
            ],
        ),
    ).push(
        (
            "is_zero gate",
            seq![
                (
                    "",
                    is_zero_poly(
                        value_is_zero_enable(c),
                        cell_at(c.tx_table.value, 0),
                        c.value_is_zero.value_inv,
                    ),
                ),
            ],
        ),
    ).push(
        (
            "is_zero gate",
            seq![
                (
                    "",
                    is_zero_poly(
                        block_num_enable(c),
                        minus(cell_at(c.block_num, 1), cell_at(c.block_num, 0)),
                        c.block_num_unchanged.value_inv,
                    ),
                ),
            ],
        ),
    ).push(
        (
            "lt gate",
            lt_polys(
                q_enable,
                minus(cell_at(c.cum_num_txs, 0), cell_at(c.num_txs, 0)),
                tx_id,
                c.tx_id_gt_prev_cnt.lt,
                c.tx_id_gt_prev_cnt.diff@,
            ),
        ),
    ).push(
        (
            "lt gate",
            lt_polys(
                q_enable,
                tx_id,
                cell_at(c.cum_num_txs, 0),
                c.tx_id_vs_cum_num_txs.lt_chip.lt,
                c.tx_id_vs_cum_num_txs.lt_chip.diff@,
            ),
        ),
    ).push(
        (
            "is_zero gate",
            seq![
                (
                    "",
                    is_zero_poly(
                        q_enable,
                        minus(tx_id, cell_at(c.cum_num_txs, 0)),
                        c.tx_id_vs_cum_num_txs.eq_chip.value_inv,
                    ),
                ),
            ],
        ),
    )
}

/// The range checks of the two comparisons, after `ranges`.
pub open spec fn with_gadget_ranges(ranges: Seq<RangeLookup>, c: &TxCircuitConfig) -> Seq<
    RangeLookup,
> {
    let q_enable = cell_at(c.tx_table.q_enable, 0);
    ranges + lt_ranges(q_enable, c.tx_id_gt_prev_cnt.diff@, c.u8_table, 2) + lt_ranges(
        q_enable,
        c.tx_id_vs_cum_num_txs.lt_chip.diff@,
        c.u8_table,
        2,
    )
}

impl TxCircuitConfigArgs {
    /// Adds the columns of the five tables, one table after the other, and
    /// takes the two range tables and the challenges as they are.
    pub fn construct(meta: &mut ConstraintSystem) -> (r: TxCircuitConfigArgs)
        requires
            old(meta).num_columns + NUM_TABLE_COLUMNS <= usize::MAX,
        ensures
            r.laid_out(old(meta)@.num_columns),
            r.u8_table.bound == 256,
            r.u16_table.bound == 65536,
            r.challenges.evm_word == Expr::Challenge(0),
            r.challenges.keccak_input == Expr::Challenge(1),
            final(meta)@ == grown(old(meta)@, NUM_TABLE_COLUMNS as nat),
    {
        let tx_table = TxTable::construct(meta);
        let block_table = BlockTable::construct(meta);
        let keccak_table = KeccakTable::construct(meta);
        let rlp_table = RlpTable::construct(meta);
        let sig_table = SigTable::construct(meta);
        TxCircuitConfigArgs {
            tx_table,
            block_table,
            keccak_table,
            rlp_table,
            sig_table,
            u8_table: u8_table(),
            u16_table: u16_table(),
            challenges: ChallengeExprs::construct(),
        }
    }
}

impl TxCircuitConfig {
    /// The booleans of the equality tests are those of the values that they
    /// were made for.
    pub open spec fn expressions_ok(&self) -> bool {
        &&& self.tx_id_unchanged.is_equal_expression == is_zero_expr(
            minus(cell_at(self.tx_table.tx_id, 0), cell_at(self.tx_table.tx_id, 1)),
            self.tx_id_unchanged.value_inv,
            0,
        )
        &&& self.block_num_unchanged.is_equal_expression == is_zero_expr(
            minus(cell_at(self.block_num, 1), cell_at(self.block_num, 0)),
            self.block_num_unchanged.value_inv,
            0,
        )
        &&& self.tx_id_vs_cum_num_txs.eq_chip.is_equal_expression == is_zero_expr(
            minus(cell_at(self.tx_table.tx_id, 0), cell_at(self.cum_num_txs, 0)),
            self.tx_id_vs_cum_num_txs.eq_chip.value_inv,
            0,
        )
    }

    /// The configuration is the one that `new` makes from `args` in a
    /// constraint system of `first` columns.
    pub open spec fn made_from(&self, args: &TxCircuitConfigArgs, first: nat) -> bool {
        &&& self.tx_table == args.tx_table
        &&& self.block_table == args.block_table
        &&& self.keccak_table == args.keccak_table
        &&& self.rlp_table == args.rlp_table
        &&& self.sig_table == args.sig_table
        &&& self.u8_table == args.u8_table
        &&& self.u16_table == args.u16_table
        &&& self.laid_out(first)
        &&& self.expressions_ok()
    }

    /// Adds the columns and the gadgets of the circuit.
    #[verifier::rlimit(60)]
    pub fn allocate(meta: &mut ConstraintSystem, args: &TxCircuitConfigArgs) -> (r: TxCircuitConfig)
        requires
            old(meta).num_columns + NUM_OWN_COLUMNS <= usize::MAX,
        ensures
            r.made_from(args, old(meta)@.num_columns),
            r.minimum_rows == old(meta).minimum_rows,
            final(meta)@ == (ConstraintSystemView {
                num_columns: old(meta)@.num_columns + NUM_OWN_COLUMNS as nat,
                gates: with_gadget_gates(old(meta)@.gates, &r),
                ranges: with_gadget_ranges(old(meta)@.ranges, &r),
                ..old(meta)@
            }),
    {
        let tx_table = args.tx_table;
        let q_enable = tx_table.q_enable;
        let q_first = meta.fixed_column();
        let q_calldata_first = meta.fixed_column();
        let q_calldata_last = meta.fixed_column();
        let tx_nonce = meta.advice_column();
        let block_num = meta.advice_column();
        let total_l1_popped_before = meta.advice_column();
        let num_all_txs_acc = meta.advice_column();
        let tx_type = meta.advice_column();
        let rlp_tag = meta.advice_column();
        let tx_value_rlc = meta.advice_column();
        let tx_value_length = meta.advice_column();
        let is_none = meta.advice_column();
        let tx_tag_bits = BinaryNumberConfig::configure(
            meta,
            q_enable,
            Some(tx_table.tag),
            5,
            &TxFieldTag::all_indices(),
        );
        let tx_type_bits = BinaryNumberConfig::configure(
            meta,
            q_enable,
            Some(tx_type),
            3,
            &TxType::all_indices(),
        );
        let cum_num_txs = meta.advice_column();
        let num_txs = meta.advice_column();
        let is_padding_tx = meta.advice_column();
        let is_final = meta.advice_column();
        let calldata_gas_cost_acc = meta.advice_column();
        let calldata_rlc = meta.advice_column();
        let calldata_byte = meta.advice_column();
        let is_l1_msg = meta.advice_column();
        let is_calldata = meta.advice_column();
        let is_caller_address = meta.advice_column();
        let is_chain_id = meta.advice_column();
        let is_tag_block_num = meta.advice_column();
        let tx_calldata = meta.advice_column();
        let l1_msg_hash = meta.advice_column();
        let rlp_sign_tag = meta.advice_column();
        let rlp_hash_tag = meta.advice_column();
        let keccak = meta.advice_column();
        let lookup_conditions = LookupConditions {
            tx_calldata,
            l1_msg_hash,
            rlp_sign_tag,
            rlp_hash_tag,
            keccak,
        };
        let sv_address = meta.advice_column();
        let tx_id_is_zero = IsZeroConfig::configure(meta, Expr::query(q_enable, 0), tx_table.tx_id);
        let tx_id_unchanged = IsEqualConfig::configure(
            meta,
            Expr::query(q_enable, 0),
            Expr::query(tx_table.tx_id, 0),
            Expr::query(tx_table.tx_id, 1),
        );
        let value_enable = and(
            &vec![
                Expr::query(q_enable, 0),
                sum(
                    &vec![
                        tx_tag_bits.value_equals(TxFieldTag::CallerAddress.index(), 0),
                        tx_tag_bits.value_equals(TxFieldTag::CallDataLength.index(), 0),
                        tx_tag_bits.value_equals(TxFieldTag::CallData.index(), 0),
                    ],
                ),
            ],
        );
        let value_is_zero = IsZeroConfig::configure(meta, value_enable, tx_table.value);
        let block_num_unchanged = IsEqualConfig::configure(
            meta,
            and(&vec![Expr::query(q_enable, 0), Expr::query(is_tag_block_num, 0)]),
            Expr::query(block_num, 1),
            Expr::query(block_num, 0),
        );
        let tx_id_gt_prev_cnt = LtConfig::configure(
            meta,
            Expr::query(q_enable, 0),
            Expr::query(cum_num_txs, 0).sub(Expr::query(num_txs, 0)),
            Expr::query(tx_table.tx_id, 0),
            args.u8_table,
            2,
        );
        let tx_id_vs_cum_num_txs = ComparatorConfig::configure(
            meta,
            Expr::query(q_enable, 0),
            Expr::query(tx_table.tx_id, 0),
            Expr::query(cum_num_txs, 0),
            args.u8_table,
            2,
        );
        let config = TxCircuitConfig {
            minimum_rows: meta.minimum_rows(),
            q_calldata_first,
            q_calldata_last,
            q_first,
            tx_table,
            tx_tag_bits,
            tx_type,
            tx_type_bits,
            rlp_tag,
            is_none,
            tx_value_length,
            tx_value_rlc,
            u8_table: args.u8_table,
            u16_table: args.u16_table,
            tx_id_is_zero,
            value_is_zero,
            tx_id_unchanged,
            is_tag_block_num,
            is_calldata,
            is_caller_address,
            is_l1_msg,
            is_chain_id,
            lookup_conditions,
            tx_nonce,
            block_num,
            block_num_unchanged,
            num_all_txs_acc,
            total_l1_popped_before,
            is_final,
            calldata_gas_cost_acc,
            calldata_rlc,
            calldata_byte,
            is_padding_tx,
            tx_id_vs_cum_num_txs,
            tx_id_gt_prev_cnt,
            cum_num_txs,
            num_txs,
            sv_address,
            sig_table: args.sig_table,
            block_table: args.block_table,
            rlp_table: args.rlp_table,
            keccak_table: args.keccak_table,
        };
        proof {
            assert(meta@.ranges =~= with_gadget_ranges(old(meta)@.ranges, &config));
        }
        config
    }

    /// The constraint system after `new` configured the circuit in it.
    pub open spec fn configured(
        &self,
        before: ConstraintSystemView,
        args: &TxCircuitConfigArgs,
    ) -> ConstraintSystemView {
        ConstraintSystemView {
            num_columns: before.num_columns + NUM_OWN_COLUMNS as nat,
            gates: with_tx_gates(with_gadget_gates(before.gates, self), self, &args.challenges),
            lookups: with_block_lookups(with_tx_lookups(before.lookups, self), self),
            ranges: with_tx_ranges(with_gadget_ranges(before.ranges, self), self),
            minimum_rows: before.minimum_rows,
        }
    }

    /// Configures the circuit: adds its columns, gadgets, gates, lookups and
    /// range checks to the constraint system, whatever the result. The
    /// configuration is refused exactly if the constraint system then has a
    /// degree above the one that the backend supports.
    pub fn new(meta: &mut ConstraintSystem, args: TxCircuitConfigArgs) -> (r: Result<
        TxCircuitConfig,
        Error,
    >)
        requires
            old(meta).num_columns + NUM_OWN_COLUMNS <= usize::MAX,
        ensures
            exists|c: TxCircuitConfig|
                c.made_from(&args, old(meta)@.num_columns) && final(meta)@ == #[trigger] c.configured(
                    old(meta)@,
                    &args,
                ),
            r is Ok <==> final(meta)@.degree() <= MAX_DEGREE,
            r matches Ok(c) ==> c.made_from(&args, old(meta)@.num_columns) && c.minimum_rows == old(
                meta,
            ).minimum_rows && final(meta)@ == c.configured(old(meta)@, &args),
            r matches Ok(c) ==> (args.laid_out(args.tx_table.q_enable.index as nat)
                && args.tx_table.q_enable.index + NUM_TABLE_COLUMNS == old(meta).num_columns
                ==> c.well_formed()),
            r matches Err(e) ==> e == Error::DegreeExceeded,
    {
        let config = TxCircuitConfig::allocate(meta, &args);
        config.add_gates(meta, &args.challenges);
        config.configure_lookups(meta);
        config.add_block_lookups(meta);
        config.add_range_checks(meta);
        proof {
            assert(config.made_from(&args, old(meta)@.num_columns) && meta@ == config.configured(
                old(meta)@,
                &args,
            ));
        }
        if meta.degree() <= MAX_DEGREE {
            Ok(config)
        } else {
            Err(Error::DegreeExceeded)
        }
    }
}

} // verus!
