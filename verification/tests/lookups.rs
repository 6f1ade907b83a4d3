use zkevm_circuits::expr::Expr;
use zkevm_circuits::plonk::ConstraintSystem;
use zkevm_circuits::table::TxFieldTag;
use zkevm_circuits::tx_circuit::gates::build_calldata_last;
use zkevm_circuits::tx_circuit::gates::build_tx_id_starts;
use zkevm_circuits::tx_circuit::gates::build_tx_id_transition;
use zkevm_circuits::tx_circuit::lookups::build_calldata_gas_cost;
use zkevm_circuits::tx_circuit::lookups::build_keccak;
use zkevm_circuits::tx_circuit::lookups::build_num_txs_in_block;
use zkevm_circuits::tx_circuit::lookups::build_rlp_hash;
use zkevm_circuits::tx_circuit::lookups::build_rlp_sign;
use zkevm_circuits::tx_circuit::lookups::build_sig;
use zkevm_circuits::tx_circuit::LookupCondition;
use zkevm_circuits::tx_circuit::TxCircuitConfig;
use zkevm_circuits::tx_circuit::TxCircuitConfigArgs;
use zkevm_circuits::util::and;
use zkevm_circuits::util::not;
use zkevm_circuits::witness::TxType;

fn setup() -> (ConstraintSystem, TxCircuitConfig) {
    let mut meta = ConstraintSystem::new(10);
    let args = TxCircuitConfigArgs::construct(&mut meta);
    let config = TxCircuitConfig::new(&mut meta, args).unwrap();
    (meta, config)
}

#[test]
fn lookups_into_the_table_of_decoded_fields_pair_with_its_columns() {
    let (_, config) = setup();
    let t = &config.rlp_table;
    let columns = [
        t.q_enable,
        t.tx_id,
        t.format,
        t.rlp_tag,
        t.tag_value,
        t.tag_bytes_rlc,
        t.tag_length,
        t.is_output,
        t.is_none,
    ];
    for pairs in [build_rlp_sign(&config), build_rlp_hash(&config)] {
        assert_eq!(pairs.len(), 9);
        for (k, column) in columns.iter().enumerate() {
            assert_eq!(pairs[k].1, Expr::query(*column, 0));
        }
    }
    let pairs = build_rlp_sign(&config);
    let enable = and(&vec![
        Expr::query(config.tx_table.q_enable, 0),
        Expr::query(config.lookup_conditions.rlp_sign_tag, 0),
    ]);
    assert_eq!(pairs[0].0, enable.dup().mul(Expr::from_u64(1)));
    assert_eq!(pairs[1].0, enable.dup().mul(Expr::query(config.tx_table.tx_id, 0)));
    assert_eq!(pairs[4].0, enable.dup().mul(Expr::query(config.tx_table.value, 0)));
    assert_eq!(pairs[8].0, enable.mul(Expr::query(config.is_none, 0)));
}

#[test]
fn lookups_multiply_by_their_condition() {
    let (_, config) = setup();
    let pairs = build_calldata_gas_cost(&config);
    assert_eq!(pairs.len(), 4);
    let enable = and(&vec![
        Expr::query(config.tx_table.q_enable, 0),
        Expr::query(config.lookup_conditions.get(LookupCondition::TxCalldata), 0),
    ]);
    assert_eq!(pairs[1].0, enable.dup().mul(TxFieldTag::CallData.expr()));
    assert_eq!(pairs[2].0, enable.mul(Expr::query(config.tx_table.value, 1)));
    assert_eq!(pairs[2].1, Expr::query(config.calldata_gas_cost_acc, 0));
    assert_eq!(pairs[3].1, Expr::query(config.is_final, 0));
    // The lookup of a signature multiplies on the right.
    let pairs = build_sig(&config);
    assert_eq!(pairs.len(), 7);
    let enabled = and(&vec![not(Expr::query(config.is_l1_msg, 0)), Expr::query(config.is_chain_id, 0)]);
    assert_eq!(pairs[1].0, Expr::query(config.tx_table.value, 6).mul(enabled.dup()));
    assert_eq!(pairs[5].0, Expr::query(config.sv_address, 0).mul(enabled));
    assert_eq!(pairs[5].1, Expr::query(config.sig_table.recovered_addr, 0));
    let pairs = build_keccak(&config);
    assert_eq!(pairs.len(), 5);
    assert_eq!(pairs[4].1, Expr::query(config.keccak_table.output_rlc, 0));
    let pairs = build_num_txs_in_block(&config);
    assert_eq!(pairs.len(), 3);
    assert_eq!(pairs[2].1, Expr::query(config.block_table.value, 0));
}

#[test]
fn gates_are_registered_in_order() {
    let (meta, config) = setup();
    let names: Vec<&str> = meta.gates.iter().map(|g| g.name).collect();
    let first = names.iter().position(|n| *n == "tx_id starts with 1").unwrap();
    assert_eq!(names[first + 1], "tx_id transition in the fixed part of tx table");
    assert_eq!(names[first + 2], "basic constraints");
    assert_eq!(names[names.len() - 1], "caller address == sv_address if it's not zero and tx_type != L1Msg");
    assert_eq!(names[names.len() - 2], "tx signature v");
    let lookups: Vec<&str> = meta.lookups.iter().map(|l| l.name).collect();
    assert_eq!(lookups[0], "tx call data gas cost in TxTable");
    assert_eq!(lookups[7], "Keccak table lookup for TxSign and TxHash");
    assert_eq!(lookups[8], "num_all_txs in block table");
    assert_eq!(lookups[10], "cum_num_txs in block table");
    let ranges: Vec<&str> = meta.ranges.iter().map(|l| l.name).collect();
    assert_eq!(ranges[4], "block_num is non-decreasing till padding txs");
    assert_eq!(ranges[5], "tx_id_diff must in u16");
    assert_eq!(meta.ranges[4].table.bound, 65536);
    // The gates as they were registered are those that the builders give.
    assert_eq!(meta.gates[first].polys, build_tx_id_starts(&config));
    assert_eq!(meta.gates[first + 1].polys, build_tx_id_transition(&config));
    assert_eq!(meta.gates[first + 1].polys.len(), 10);
    assert_eq!(build_calldata_last(&config).len(), 1);
}

#[test]
fn indicators_of_the_configuration() {
    let (_, config) = setup();
    assert_eq!(config.is_tag(TxFieldTag::Nonce, 1), config.tx_tag_bits.value_equals(1, 1));
    assert_eq!(config.is_type(TxType::L1Msg), config.tx_type_bits.value_equals(4, 0));
    assert_eq!(config.is_tag(TxFieldTag::CallData, 0).degree(), Some(5));
    assert_eq!(config.is_type(TxType::Eip155).degree(), Some(3));
}
