use zkevm_circuits::expr::Column;
use zkevm_circuits::expr::Expr;
use zkevm_circuits::field::Fe;
use zkevm_circuits::plonk::ConstraintSystem;
use zkevm_circuits::plonk::Region;
use zkevm_circuits::plonk::VerifyFailure;
use zkevm_circuits::table::u16_table;
use zkevm_circuits::table::u8_table;
use zkevm_circuits::table::BlockTable;
use zkevm_circuits::table::KeccakTable;
use zkevm_circuits::table::RlpTable;
use zkevm_circuits::table::SigTable;
use zkevm_circuits::table::TxFieldTag;
use zkevm_circuits::table::TxTable;
use zkevm_circuits::tx_circuit::accounting::queue_accounting;
use zkevm_circuits::tx_circuit::circuit::get_sign_data;
use zkevm_circuits::tx_circuit::circuit::padding_txs;
use zkevm_circuits::tx_circuit::circuit::Synthesized;
use zkevm_circuits::tx_circuit::TxCircuit;
use zkevm_circuits::tx_circuit::TxCircuitConfig;
use zkevm_circuits::tx_circuit::TxCircuitConfigArgs;
use zkevm_circuits::tx_circuit::CHAIN_ID_OFFSET;
use zkevm_circuits::tx_circuit::MAX_DEGREE;
use zkevm_circuits::tx_circuit::TX_HASH_OFFSET;
use zkevm_circuits::tx_circuit::TX_LEN;
use zkevm_circuits::witness::Block;
use zkevm_circuits::witness::ChallengeExprs;
use zkevm_circuits::witness::Challenges;
use zkevm_circuits::witness::CircuitsParams;
use zkevm_circuits::witness::Error;
use zkevm_circuits::witness::SignData;
use zkevm_circuits::witness::Transaction;
use zkevm_circuits::witness::TxType;

const CHAIN_ID: u64 = 1338;

fn setup() -> (ConstraintSystem, TxCircuitConfig) {
    let mut meta = ConstraintSystem::new(10);
    let tx_table = TxTable::construct(&mut meta);
    let block_table = BlockTable::construct(&mut meta);
    let keccak_table = KeccakTable::construct(&mut meta);
    let rlp_table = RlpTable::construct(&mut meta);
    let sig_table = SigTable::construct(&mut meta);
    let args = TxCircuitConfigArgs {
        tx_table,
        block_table,
        keccak_table,
        rlp_table,
        sig_table,
        u8_table: u8_table(),
        u16_table: u16_table(),
        challenges: ChallengeExprs::construct(),
    };
    let config = TxCircuitConfig::new(&mut meta, args).unwrap();
    (meta, config)
}

fn challenges() -> Challenges {
    Challenges { evm_word: Fe::from_u64(0x1_0000_0001), keccak_input: Fe::from_u64(0x2_0000_0003) }
}

fn address(last: u8) -> [u8; 20] {
    let mut a = [0u8; 20];
    a[0] = 0xaa;
    a[19] = last;
    a
}

fn word(x: u64) -> [u8; 32] {
    let mut w = [0u8; 32];
    w[24..32].copy_from_slice(&x.to_be_bytes());
    w
}

fn transfer(nonce: u64, block_number: u64, call_data: Vec<u8>) -> Transaction {
    Transaction {
        id: 0,
        block_number,
        tx_type: TxType::Eip155,
        nonce,
        gas_price: word(20_000_000_000),
        gas: 21_000,
        caller_address: address(1),
        callee_address: Some(address(2)),
        is_create: false,
        value: word(1_000_000),
        call_data,
        tx_data_gas_cost: 1640,
        chain_id: CHAIN_ID,
        rlp_unsigned: vec![0xe0, 0x01, 0x02, 0x03],
        rlp_signed: vec![0xf8, 0x60, 0x04, 0x05, 0x06],
        v: 2 * CHAIN_ID + 35,
        r: word(0x1111),
        s: word(0x2222),
        hash: word(0x3333),
    }
}

fn message(queue_index: u64, block_number: u64) -> Transaction {
    let mut tx = transfer(queue_index, block_number, vec![]);
    tx.tx_type = TxType::L1Msg;
    tx.v = 0;
    tx.r = word(0);
    tx.s = word(0);
    tx.tx_data_gas_cost = 0;
    tx
}

fn signed(tx: &Transaction) -> Option<SignData> {
    Some(SignData { msg: tx.rlp_unsigned.clone(), pk: vec![7; 64], address: tx.caller_address })
}

/// What the recovery gives for the transactions and for the padding of a circuit.
fn recovered(txs: &[Transaction], max_txs: usize) -> Vec<Option<SignData>> {
    let mut out: Vec<Option<SignData>> = txs.iter().map(signed).collect();
    while out.len() < max_txs {
        out.push(Some(SignData { msg: vec![], pk: vec![9; 64], address: [0u8; 20] }));
    }
    out
}

fn synthesize(circuit: &TxCircuit, config: &TxCircuitConfig) -> Synthesized {
    let found = recovered(&circuit.txs, circuit.max_txs);
    circuit.synthesize_sub(config, &challenges(), &found).unwrap()
}

fn cell(region: &Region, row: usize, column: Column) -> Fe {
    region.rows[row][column.index]
}

fn header_row(i: usize, tag: TxFieldTag) -> usize {
    1 + i * TX_LEN + (tag.index() as usize - 1)
}

fn table_column(e: &Expr) -> Option<usize> {
    match e {
        Expr::Query(column, 0) => Some(column.index),
        _ => None,
    }
}

/// Writes, for each lookup into the tables of hashes, of decoded fields and of signatures,
/// the tuples that the rows look up to rows of the table, as the circuits of those tables
/// would.
fn fill_reference_tables(meta: &ConstraintSystem, config: &TxCircuitConfig, region: &mut Region) {
    let first = config.keccak_table.q_enable.index;
    let last = config.sig_table.is_valid.index;
    let values = challenges().values();
    let mut next_row = 1;
    let rows_before = region.rows.clone();
    for lookup in meta.lookups.iter() {
        let columns: Vec<Option<usize>> = lookup.pairs.iter().map(|p| table_column(&p.1)).collect();
        let external = columns.iter().all(|c| matches!(c, Some(i) if first <= *i && *i <= last));
        if !external {
            continue;
        }
        for row in 0..rows_before.len() {
            let inputs: Vec<Fe> =
                lookup.pairs.iter().map(|p| p.0.evaluate(&rows_before, &values, row)).collect();
            if inputs.iter().all(|x| x.is_zero()) {
                continue;
            }
            for (k, value) in inputs.iter().enumerate() {
                let column = Column { index: columns[k].unwrap(), fixed: false };
                region.assign(column, next_row, *value);
            }
            next_row += 1;
        }
    }
}

fn assert_satisfied(meta: &ConstraintSystem, config: &TxCircuitConfig, circuit: &TxCircuit) -> Region {
    let mut region = synthesize(circuit, config).region;
    circuit.assign_dev_block_table(config, &mut region).unwrap();
    fill_reference_tables(meta, config, &mut region);
    let result = meta.verify(&region.rows, &challenges().values());
    if let Err(failure) = result {
        let what = match failure {
            VerifyFailure::Gate { gate, poly, row } => format!(
                "gate {:?}, polynomial {:?}, row {}",
                meta.gates[gate].name, meta.gates[gate].polys[poly].0, row
            ),
            VerifyFailure::Lookup { lookup, row } => {
                format!("lookup {:?}, row {}", meta.lookups[lookup].name, row)
            }
            VerifyFailure::Range { range, row } => {
                format!("range check {:?}, row {}", meta.ranges[range].name, row)
            }
        };
        panic!("the table does not satisfy the circuit: {}", what);
    }
    region
}

#[test]
fn layout_constants() {
    assert_eq!(TX_LEN, 23);
    assert_eq!(TX_HASH_OFFSET, 21);
    assert_eq!(CHAIN_ID_OFFSET, 12);
    assert_eq!(TxFieldTag::TxHash.index() as usize, TX_HASH_OFFSET);
    assert_eq!(TxFieldTag::ChainID.index() as usize, CHAIN_ID_OFFSET);
    assert_eq!(TxFieldTag::BlockNumber.index() as usize, TX_LEN);
    assert_eq!(TxCircuit::min_num_rows(2, 5), 51);
    assert_eq!(TxCircuit::min_num_rows(0, 0), 0);
    assert_eq!(TxCircuit::unusable_rows(), 8);
}

#[test]
fn new_circuit_keeps_its_arguments() {
    let circuit = TxCircuit::new(3, 10, CHAIN_ID, 5, vec![transfer(0, 1, vec![])]);
    assert_eq!(circuit.max_txs, 3);
    assert_eq!(circuit.max_calldata, 10);
    assert_eq!(circuit.chain_id, CHAIN_ID);
    assert_eq!(circuit.start_l1_queue_index, 5);
    assert_eq!(circuit.txs.len(), 1);
    assert_eq!(circuit.size, 3 * 23 + 10);
}

#[test]
fn configuration_stays_within_the_degree() {
    let (meta, config) = setup();
    assert!(meta.degree() <= MAX_DEGREE);
    assert_eq!(meta.num_columns, 29 + 49);
    assert_eq!(config.minimum_rows, 10);
    assert_eq!(config.tx_table.q_enable.index, 0);
    assert_eq!(config.q_first.index, 29);
    assert_eq!(config.sv_address.index, 29 + 37);
    assert_eq!(config.tx_tag_bits.bits.len(), 5);
    assert_eq!(config.tx_type_bits.bits.len(), 3);
    // 26 gates of the circuit, and those of the gadgets: 7 of the encoder of the kind, 5 of
    // the encoder of the type, four tests for zero, two comparisons and one more test.
    assert_eq!(meta.gates.len(), 26 + 7 + 5 + 4 + 3);
    assert_eq!(meta.lookups.len(), 11);
    assert_eq!(meta.ranges.len(), 6);
}

#[test]
fn configuration_is_refused_above_the_degree() {
    let mut meta = ConstraintSystem::new(10);
    let a = meta.advice_column();
    let mut high = Expr::query(a, 0);
    for _ in 0..MAX_DEGREE {
        high = high.mul(Expr::query(a, 0));
    }
    meta.create_gate("high", vec![("", high)]);
    let args = TxCircuitConfigArgs {
        tx_table: TxTable::construct(&mut meta),
        block_table: BlockTable::construct(&mut meta),
        keccak_table: KeccakTable::construct(&mut meta),
        rlp_table: RlpTable::construct(&mut meta),
        sig_table: SigTable::construct(&mut meta),
        u8_table: u8_table(),
        u16_table: u16_table(),
        challenges: ChallengeExprs::construct(),
    };
    assert!(matches!(TxCircuitConfig::new(&mut meta, args), Err(Error::DegreeExceeded)));
}

#[test]
fn end_to_end() {
    let (meta, config) = setup();
    let circuit = TxCircuit::new(2, 4, CHAIN_ID, 0, vec![transfer(0, 100, vec![0x00, 0x01])]);
    let region = assert_satisfied(&meta, &config, &circuit);
    let block_row = header_row(0, TxFieldTag::BlockNumber);
    assert_eq!(cell(&region, block_row, config.tx_table.value), Fe::from_u64(100));
    assert_eq!(cell(&region, block_row, config.num_txs), Fe::from_u64(1));
    assert_eq!(cell(&region, block_row, config.cum_num_txs), Fe::from_u64(1));
    assert_eq!(cell(&region, block_row, config.num_all_txs_acc), Fe::from_u64(1));
    let gas_row = header_row(0, TxFieldTag::CallDataGasCost);
    assert_eq!(cell(&region, gas_row, config.tx_table.value), Fe::from_u64(20));
    let length_row = header_row(0, TxFieldTag::CallDataLength);
    assert_eq!(cell(&region, length_row, config.tx_table.value), Fe::from_u64(2));
    assert_eq!(cell(&region, header_row(0, TxFieldTag::Nonce), config.is_padding_tx), Fe::zero());
    assert_eq!(cell(&region, header_row(1, TxFieldTag::Nonce), config.is_padding_tx), Fe::one());
    // The table of block aggregates holds the counts of the block 100.
    let rows: Vec<(Fe, Fe, Fe)> = (0..6)
        .map(|r| {
            (
                cell(&region, r, config.block_table.tag),
                cell(&region, r, config.block_table.index),
                cell(&region, r, config.block_table.value),
            )
        })
        .collect();
    assert_eq!(rows[3], (Fe::from_u64(11), Fe::from_u64(100), Fe::from_u64(1)));
    assert_eq!(rows[4], (Fe::from_u64(12), Fe::from_u64(100), Fe::from_u64(1)));
    assert_eq!(rows[5], (Fe::from_u64(13), Fe::from_u64(100), Fe::from_u64(1)));
    assert_eq!(rows[0], (Fe::from_u64(11), Fe::zero(), Fe::zero()));
}

#[test]
fn table_has_the_shape_of_the_circuit() {
    let (_, config) = setup();
    let circuit = TxCircuit::new(2, 4, CHAIN_ID, 0, vec![transfer(0, 100, vec![0x00, 0x01])]);
    let region = synthesize(&circuit, &config).region;
    assert_eq!(region.len(), 1 + 2 * TX_LEN + 4);
    assert_eq!(region.width, 78);
    // The first row stands for nothing and is marked.
    assert_eq!(cell(&region, 0, config.q_first), Fe::one());
    assert_eq!(cell(&region, 0, config.tx_table.tx_id), Fe::zero());
    assert_eq!(cell(&region, 0, config.tx_table.tag), Fe::zero());
    assert_eq!(cell(&region, 1, config.q_first), Fe::zero());
    // The kinds of a header come in the fixed order.
    for i in 0..2 {
        for j in 0..TX_LEN {
            let row = 1 + i * TX_LEN + j;
            assert_eq!(cell(&region, row, config.tx_table.tag), Fe::from_u64(j as u64 + 1));
            assert_eq!(cell(&region, row, config.tx_table.q_enable), Fe::one());
        }
    }
    // The row after the callee holds the creation flag.
    let callee = header_row(0, TxFieldTag::CalleeAddress);
    assert_eq!(cell(&region, callee + 1, config.tx_table.tag), Fe::from_u64(TxFieldTag::IsCreate.index()));
    // The calldata follows the headers; its first and last row are marked.
    let first = 1 + 2 * TX_LEN;
    assert_eq!(cell(&region, first, config.q_calldata_first), Fe::one());
    assert_eq!(cell(&region, first + 1, config.q_calldata_first), Fe::zero());
    assert_eq!(cell(&region, first + 3, config.q_calldata_last), Fe::one());
    assert_eq!(cell(&region, first + 2, config.q_calldata_last), Fe::zero());
    for row in first..first + 4 {
        assert_eq!(cell(&region, row, config.tx_table.tag), Fe::from_u64(24));
        assert_eq!(cell(&region, row, config.is_calldata), Fe::one());
    }
    // The rows of empty calldata belong to no transaction and are final.
    for row in first + 2..first + 4 {
        assert_eq!(cell(&region, row, config.tx_table.tx_id), Fe::zero());
        assert_eq!(cell(&region, row, config.is_final), Fe::one());
        assert_eq!(cell(&region, row, config.tx_table.value), Fe::zero());
    }
}

#[test]
fn copy_forward() {
    let (_, config) = setup();
    let txs = vec![transfer(0, 7, vec![1]), message(4, 7), transfer(1, 9, vec![])];
    let circuit = TxCircuit::new(4, 8, CHAIN_ID, 2, txs);
    let region = synthesize(&circuit, &config).region;
    let meta_columns = [
        config.tx_type,
        config.is_padding_tx,
        config.sv_address,
        config.block_num,
        config.total_l1_popped_before,
        config.num_txs,
        config.cum_num_txs,
        config.num_all_txs_acc,
    ];
    for i in 0..4 {
        for j in 1..TX_LEN {
            for column in meta_columns {
                assert_eq!(
                    cell(&region, 1 + i * TX_LEN + j, column),
                    cell(&region, 1 + i * TX_LEN, column)
                );
            }
        }
    }
    // The values that are copied are those of the transaction.
    assert_eq!(cell(&region, header_row(1, TxFieldTag::Gas), config.tx_type), Fe::from_u64(4));
    assert_eq!(cell(&region, header_row(2, TxFieldTag::Gas), config.block_num), Fe::from_u64(9));
    assert_eq!(cell(&region, header_row(0, TxFieldTag::Gas), config.num_txs), Fe::from_u64(2));
    assert_eq!(cell(&region, header_row(2, TxFieldTag::Gas), config.num_txs), Fe::from_u64(1));
    assert_eq!(cell(&region, header_row(0, TxFieldTag::Gas), config.cum_num_txs), Fe::from_u64(2));
    assert_eq!(cell(&region, header_row(2, TxFieldTag::Gas), config.cum_num_txs), Fe::from_u64(3));
}

#[test]
fn sequence_numbers_rise_by_one() {
    let (_, config) = setup();
    let txs = vec![transfer(0, 7, vec![1]), transfer(1, 7, vec![])];
    let circuit = TxCircuit::new(5, 8, CHAIN_ID, 0, txs);
    let region = synthesize(&circuit, &config).region;
    assert_eq!(cell(&region, 0, config.tx_table.tx_id), Fe::zero());
    for i in 0..5 {
        for j in 0..TX_LEN {
            assert_eq!(
                cell(&region, 1 + i * TX_LEN + j, config.tx_table.tx_id),
                Fe::from_u64(i as u64 + 1)
            );
        }
    }
}

#[test]
fn calldata_round_trip() {
    let (meta, config) = setup();
    let data = vec![0x00, 0x01, 0xff, 0x00, 0x10];
    let circuit = TxCircuit::new(2, 9, CHAIN_ID, 0, vec![transfer(0, 3, data.clone())]);
    let region = assert_satisfied(&meta, &config, &circuit);
    let first = 1 + 2 * TX_LEN;
    let r = challenges().keccak_input;
    let mut gas = 0;
    let mut rlc = Fe::zero();
    for (k, byte) in data.iter().enumerate() {
        gas += if *byte == 0 { 4 } else { 16 };
        rlc = rlc.mul(&r).add(&Fe::from_u64(*byte as u64));
        let row = first + k;
        assert_eq!(cell(&region, row, config.tx_table.tx_id), Fe::one());
        assert_eq!(cell(&region, row, config.tx_table.index), Fe::from_u64(k as u64));
        assert_eq!(cell(&region, row, config.tx_table.value), Fe::from_u64(*byte as u64));
        assert_eq!(cell(&region, row, config.calldata_byte), Fe::from_u64(*byte as u64));
        assert_eq!(cell(&region, row, config.calldata_gas_cost_acc), Fe::from_u64(gas));
        assert_eq!(cell(&region, row, config.calldata_rlc), rlc);
        assert_eq!(cell(&region, row, config.is_final), Fe::from_bool(k == data.len() - 1));
    }
    assert_eq!(gas, 4 + 16 + 16 + 4 + 16);
    // The header holds the totals.
    assert_eq!(cell(&region, header_row(0, TxFieldTag::CallDataGasCost), config.tx_table.value), Fe::from_u64(56));
    assert_eq!(cell(&region, header_row(0, TxFieldTag::CallDataLength), config.tx_table.value), Fe::from_u64(5));
    assert_eq!(cell(&region, header_row(0, TxFieldTag::CallDataRLC), config.tx_table.value), rlc);
    // No row of the transaction lies at or after the length of its calldata.
    let mut finals = 0;
    for row in 0..region.len() {
        if cell(&region, row, config.tx_table.tag) == Fe::from_u64(24)
            && cell(&region, row, config.tx_table.tx_id) == Fe::one()
        {
            assert!(cell(&region, row, config.tx_table.index).to_u64().unwrap() < 5);
            if cell(&region, row, config.is_final) == Fe::one() {
                finals += 1;
                assert_eq!(cell(&region, row, config.tx_table.index), Fe::from_u64(4));
            }
        }
    }
    assert_eq!(finals, 1);
}

#[test]
fn calldata_of_several_transactions() {
    let (meta, config) = setup();
    let txs = vec![
        transfer(0, 1, vec![]),
        transfer(1, 1, vec![5, 0]),
        transfer(2, 2, vec![]),
        transfer(3, 2, vec![0, 0, 9]),
    ];
    let circuit = TxCircuit::new(4, 7, CHAIN_ID, 0, txs);
    let region = assert_satisfied(&meta, &config, &circuit);
    let first = 1 + 4 * TX_LEN;
    let ids: Vec<Fe> = (0..7).map(|k| cell(&region, first + k, config.tx_table.tx_id)).collect();
    let expected: Vec<Fe> = [2, 2, 4, 4, 4, 0, 0].iter().map(|x| Fe::from_u64(*x)).collect();
    assert_eq!(ids, expected);
    let positions: Vec<Fe> = (0..7).map(|k| cell(&region, first + k, config.tx_table.index)).collect();
    let expected: Vec<Fe> = [0, 1, 0, 1, 2, 0, 0].iter().map(|x| Fe::from_u64(*x)).collect();
    assert_eq!(positions, expected);
    let gas: Vec<Fe> = (0..7).map(|k| cell(&region, first + k, config.calldata_gas_cost_acc)).collect();
    let expected: Vec<Fe> = [16, 20, 4, 8, 24, 0, 0].iter().map(|x| Fe::from_u64(*x)).collect();
    assert_eq!(gas, expected);
    let finals: Vec<Fe> = (0..7).map(|k| cell(&region, first + k, config.is_final)).collect();
    let expected: Vec<Fe> = [0, 1, 0, 0, 1, 1, 1].iter().map(|x| Fe::from_u64(*x)).collect();
    assert_eq!(finals, expected);
}

#[test]
fn zero_length_calldata() {
    let (meta, config) = setup();
    let circuit = TxCircuit::new(1, 3, CHAIN_ID, 0, vec![transfer(0, 3, vec![])]);
    let region = assert_satisfied(&meta, &config, &circuit);
    assert_eq!(cell(&region, header_row(0, TxFieldTag::CallDataLength), config.tx_table.value), Fe::zero());
    assert_eq!(cell(&region, header_row(0, TxFieldTag::CallDataGasCost), config.tx_table.value), Fe::zero());
    assert_eq!(cell(&region, header_row(0, TxFieldTag::CallDataRLC), config.is_none), Fe::one());
    // The rows of calldata are all empty: none belongs to the transaction.
    for row in 1 + TX_LEN..region.len() {
        assert_eq!(cell(&region, row, config.tx_table.tx_id), Fe::zero());
    }
    // The row does not look its calldata up.
    assert_eq!(
        cell(&region, header_row(0, TxFieldTag::CallDataLength), config.lookup_conditions.tx_calldata),
        Fe::zero()
    );
}

#[test]
fn padding_isolation() {
    let (meta, config) = setup();
    let circuit = TxCircuit::new(3, 3, CHAIN_ID, 0, vec![transfer(0, 5, vec![])]);
    let region = assert_satisfied(&meta, &config, &circuit);
    for i in 1..3 {
        assert_eq!(cell(&region, header_row(i, TxFieldTag::CallerAddress), config.tx_table.value), Fe::zero());
        for j in 0..TX_LEN {
            let row = 1 + i * TX_LEN + j;
            assert_eq!(cell(&region, row, config.is_padding_tx), Fe::one());
            assert_eq!(cell(&region, row, config.num_txs), Fe::zero());
            assert_eq!(cell(&region, row, config.cum_num_txs), Fe::zero());
        }
    }
    // The padding is counted in no block: the transaction is alone in its own.
    for i in 1..3 {
        assert_eq!(cell(&region, header_row(i, TxFieldTag::BlockNumber), config.tx_table.value), Fe::zero());
    }
    assert_eq!(cell(&region, header_row(0, TxFieldTag::BlockNumber), config.num_txs), Fe::one());
    assert_eq!(cell(&region, header_row(0, TxFieldTag::BlockNumber), config.cum_num_txs), Fe::one());
    assert_eq!(cell(&region, header_row(0, TxFieldTag::Nonce), config.is_padding_tx), Fe::zero());
}

#[test]
fn padding_is_made_of_dummies() {
    let padding = padding_txs(1, 3, CHAIN_ID);
    assert_eq!(padding.len(), 2);
    assert_eq!(padding[0].id, 2);
    assert_eq!(padding[1].id, 3);
    for tx in &padding {
        assert_eq!(tx.caller_address, [0u8; 20]);
        assert_eq!(tx.chain_id, CHAIN_ID);
        assert_eq!(tx.v, 2 * CHAIN_ID + 35);
        assert_eq!(tx.tx_type, TxType::Eip155);
        assert!(tx.call_data.is_empty());
        assert_eq!(tx.block_number, 0);
    }
    assert!(padding_txs(3, 3, CHAIN_ID).is_empty());
    assert!(padding_txs(4, 3, CHAIN_ID).is_empty());
    assert_eq!(Transaction::dummy(7).v, 49);
}

#[test]
fn l1_queue_accounting() {
    // Three messages with the places 5, 9 and 12 in the queue, of which 3 were taken before.
    let txs = vec![message(5, 1), message(9, 1), message(12, 1)];
    let counts = queue_accounting(&txs, 3).unwrap();
    let popped: Vec<u64> = counts.iter().map(|c| c.total_l1_popped_before).collect();
    let all: Vec<u64> = counts.iter().map(|c| c.num_all_txs_acc).collect();
    assert_eq!(popped, vec![3, 6, 10]);
    // 5 - 3 + 1, then 9 - 6 + 1 and 12 - 10 + 1 more: 12 - 3 + 1 in all.
    assert_eq!(all, vec![3, 7, 10]);
}

#[test]
fn l1_queue_accounting_with_a_transaction_between() {
    // A message, a transaction that is none, and two more messages.
    let txs = vec![message(5, 1), transfer(0, 1, vec![]), message(9, 1), message(12, 1)];
    let counts = queue_accounting(&txs, 3).unwrap();
    let popped: Vec<u64> = counts.iter().map(|c| c.total_l1_popped_before).collect();
    let all: Vec<u64> = counts.iter().map(|c| c.num_all_txs_acc).collect();
    assert_eq!(popped, vec![3, 6, 6, 10]);
    // 12 - 3 + 2 in all.
    assert_eq!(all, vec![3, 4, 8, 11]);
}

#[test]
fn l1_queue_accounting_starts_anew_with_each_block() {
    let txs = vec![message(0, 1), transfer(0, 1, vec![]), message(2, 2), transfer(1, 3, vec![])];
    let counts = queue_accounting(&txs, 0).unwrap();
    let popped: Vec<u64> = counts.iter().map(|c| c.total_l1_popped_before).collect();
    let all: Vec<u64> = counts.iter().map(|c| c.num_all_txs_acc).collect();
    assert_eq!(popped, vec![0, 1, 1, 3]);
    assert_eq!(all, vec![1, 2, 2, 1]);
}

#[test]
fn l1_messages_in_the_table() {
    let (meta, config) = setup();
    let txs = vec![message(5, 1), transfer(0, 1, vec![3]), message(9, 1), message(12, 2)];
    let circuit = TxCircuit::new(5, 3, CHAIN_ID, 3, txs);
    let region = assert_satisfied(&meta, &config, &circuit);
    let all: Vec<Fe> =
        (0..5).map(|i| cell(&region, header_row(i, TxFieldTag::BlockNumber), config.num_all_txs_acc)).collect();
    let expected: Vec<Fe> = [3, 4, 8, 3, 1].iter().map(|x| Fe::from_u64(*x)).collect();
    assert_eq!(all, expected);
    let popped: Vec<Fe> = (0..5)
        .map(|i| cell(&region, header_row(i, TxFieldTag::BlockNumber), config.total_l1_popped_before))
        .collect();
    let expected: Vec<Fe> = [3, 6, 6, 10, 13].iter().map(|x| Fe::from_u64(*x)).collect();
    assert_eq!(popped, expected);
    assert_eq!(cell(&region, header_row(0, TxFieldTag::Nonce), config.is_l1_msg), Fe::one());
    assert_eq!(cell(&region, header_row(1, TxFieldTag::Nonce), config.is_l1_msg), Fe::zero());
    // The table of block aggregates holds the count of all transactions of each block.
    assert_eq!(cell(&region, 5, config.block_table.value), Fe::from_u64(8));
    assert_eq!(cell(&region, 8, config.block_table.value), Fe::from_u64(3));
}

#[test]
fn lookup_conditions_follow_the_kind_and_the_type() {
    let (_, config) = setup();
    let txs = vec![transfer(0, 1, vec![1]), message(0, 1)];
    let circuit = TxCircuit::new(2, 3, CHAIN_ID, 0, txs);
    let region = synthesize(&circuit, &config).region;
    let c = &config.lookup_conditions;
    let conditions = |i: usize, tag: TxFieldTag| -> Vec<u64> {
        [c.tx_calldata, c.l1_msg_hash, c.rlp_sign_tag, c.rlp_hash_tag, c.keccak]
            .iter()
            .map(|column| cell(&region, header_row(i, tag), *column).to_u64().unwrap())
            .collect()
    };
    assert_eq!(conditions(0, TxFieldTag::Nonce), vec![0, 0, 1, 1, 0]);
    assert_eq!(conditions(1, TxFieldTag::Nonce), vec![0, 1, 0, 0, 0]);
    assert_eq!(conditions(0, TxFieldTag::ChainID), vec![0, 0, 1, 0, 0]);
    assert_eq!(conditions(1, TxFieldTag::ChainID), vec![0, 0, 0, 0, 0]);
    assert_eq!(conditions(0, TxFieldTag::CallDataLength), vec![1, 0, 0, 0, 0]);
    assert_eq!(conditions(1, TxFieldTag::CallDataLength), vec![0, 0, 0, 0, 0]);
    assert_eq!(conditions(0, TxFieldTag::TxSignLength), vec![0, 0, 1, 0, 1]);
    assert_eq!(conditions(1, TxFieldTag::TxSignLength), vec![0, 0, 0, 0, 0]);
    assert_eq!(conditions(0, TxFieldTag::TxHashLength), vec![0, 0, 0, 1, 1]);
    assert_eq!(conditions(1, TxFieldTag::TxHashLength), vec![0, 1, 0, 0, 1]);
    assert_eq!(conditions(0, TxFieldTag::CallerAddress), vec![0, 0, 0, 0, 0]);
    assert_eq!(conditions(1, TxFieldTag::CallerAddress), vec![0, 1, 0, 0, 0]);
    assert_eq!(conditions(0, TxFieldTag::SigV), vec![0, 0, 0, 1, 0]);
    assert_eq!(conditions(0, TxFieldTag::TxDataGasCost), vec![0, 0, 0, 1, 0]);
    assert_eq!(conditions(0, TxFieldTag::IsCreate), vec![0, 0, 0, 0, 0]);
}

#[test]
fn a_tampered_table_is_refused() {
    let (meta, config) = setup();
    let circuit = TxCircuit::new(2, 4, CHAIN_ID, 0, vec![transfer(0, 100, vec![0x00, 0x01])]);
    let mut region = synthesize(&circuit, &config).region;
    circuit.assign_dev_block_table(&config, &mut region).unwrap();
    fill_reference_tables(&meta, &config, &mut region);
    assert_eq!(meta.verify(&region.rows, &challenges().values()), Ok(()));
    // The block number of one row of a header is changed.
    let mut tampered = region.rows.clone();
    tampered[header_row(0, TxFieldTag::Gas)][config.block_num.index] = Fe::from_u64(101);
    assert!(matches!(
        meta.verify(&tampered, &challenges().values()),
        Err(VerifyFailure::Gate { .. })
    ));
    // The gas cost in the header is lowered.
    let mut tampered = region.rows.clone();
    tampered[header_row(0, TxFieldTag::CallDataGasCost)][config.tx_table.value.index] = Fe::from_u64(8);
    assert!(meta.verify(&tampered, &challenges().values()).is_err());
    // The count of the block is raised.
    let mut tampered = region.rows.clone();
    for j in 0..TX_LEN {
        tampered[1 + j][config.num_txs.index] = Fe::from_u64(2);
    }
    assert!(meta.verify(&tampered, &challenges().values()).is_err());
}

#[test]
fn layout_is_recognised() {
    let (_, config) = setup();
    assert!(config.is_well_formed());
    let (_, mut moved) = setup();
    moved.q_first.index += 1;
    assert!(!moved.is_well_formed());
    let (_, mut moved) = setup();
    moved.sv_address.fixed = true;
    assert!(!moved.is_well_formed());
    let (_, mut moved) = setup();
    moved.tx_tag_bits.bits.pop();
    assert!(!moved.is_well_formed());
    let (_, mut moved) = setup();
    moved.sig_table.is_valid.index += 1;
    assert!(!moved.is_well_formed());
    let (_, mut moved) = setup();
    moved.tx_id_gt_prev_cnt.range = Fe::from_u64(256);
    assert!(!moved.is_well_formed());
}

#[test]
fn as_many_transactions_as_the_circuit_has_room_for() {
    let (meta, config) = setup();
    let txs = vec![transfer(0, 1, vec![]), transfer(1, 1, vec![])];
    let circuit = TxCircuit::new(2, 4, CHAIN_ID, 0, txs);
    let out = synthesize(&circuit, &config);
    assert!(out.padding_txs.is_empty());
    assert_eq!(out.sign_datas.len(), 2);
    assert_satisfied(&meta, &config, &circuit);
}

#[test]
fn too_much_calldata() {
    let (_, config) = setup();
    // Three bytes exceed a room for two.
    let circuit = TxCircuit::new(1, 2, CHAIN_ID, 0, vec![transfer(0, 1, vec![1, 2, 3])]);
    let found = recovered(&circuit.txs, 1);
    assert!(!circuit.check_calldata(&vec![]));
    assert!(matches!(
        circuit.synthesize_sub(&config, &challenges(), &found),
        Err(Error::TooMuchCalldata)
    ));
    // Two bytes fill it exactly.
    let circuit = TxCircuit::new(1, 2, CHAIN_ID, 0, vec![transfer(0, 1, vec![1, 2])]);
    assert!(circuit.check_calldata(&vec![]));
    assert!(circuit.synthesize_sub(&config, &challenges(), &found).is_ok());
    let circuit = TxCircuit::new(1, 3, CHAIN_ID, 0, vec![transfer(0, 1, vec![1, 2])]);
    assert!(circuit.synthesize_sub(&config, &challenges(), &found).is_ok());
    assert!(circuit.check_calldata(&vec![]));
    let circuit = TxCircuit::new(1, 0, CHAIN_ID, 0, vec![transfer(0, 1, vec![])]);
    assert!(circuit.check_calldata(&vec![]));
    let circuit = TxCircuit::new(1, 0, CHAIN_ID, 0, vec![transfer(0, 1, vec![7])]);
    assert!(!circuit.check_calldata(&vec![]));
}

#[test]
fn calldata_that_fills_its_room() {
    let (meta, config) = setup();
    let txs = vec![transfer(0, 1, vec![5, 0]), transfer(1, 2, vec![0, 0, 9])];
    let circuit = TxCircuit::new(3, 5, CHAIN_ID, 0, txs);
    let region = assert_satisfied(&meta, &config, &circuit);
    let first = 1 + 3 * TX_LEN;
    let ids: Vec<Fe> = (0..5).map(|k| cell(&region, first + k, config.tx_table.tx_id)).collect();
    let expected: Vec<Fe> = [1, 1, 2, 2, 2].iter().map(|x| Fe::from_u64(*x)).collect();
    assert_eq!(ids, expected);
    let finals: Vec<Fe> = (0..5).map(|k| cell(&region, first + k, config.is_final)).collect();
    let expected: Vec<Fe> = [0, 1, 0, 0, 1].iter().map(|x| Fe::from_u64(*x)).collect();
    assert_eq!(finals, expected);
    assert_eq!(cell(&region, first + 4, config.q_calldata_last), Fe::from_u64(1));
}

#[test]
fn block_ends_are_counted() {
    let (meta, config) = setup();
    let txs = vec![transfer(0, 1, vec![]), transfer(1, 1, vec![]), transfer(2, 4, vec![])];
    let circuit = TxCircuit::new(4, 2, CHAIN_ID, 0, txs);
    let region = assert_satisfied(&meta, &config, &circuit);
    // The last transaction of each block has the cumulative count as its
    // sequence number.
    for (i, count) in [(1usize, 2u64), (2, 3)] {
        let row = header_row(i, TxFieldTag::BlockNumber);
        assert_eq!(cell(&region, row, config.tx_table.tx_id), Fe::from_u64(count));
        assert_eq!(cell(&region, row, config.cum_num_txs), Fe::from_u64(count));
    }
    // Raising the cumulative count on the last row of the header of the last
    // transaction of the first block breaks the circuit.
    let mut tampered = region.rows.clone();
    let row = header_row(1, TxFieldTag::BlockNumber);
    tampered[row][config.cum_num_txs.index] = Fe::from_u64(3);
    assert!(meta.verify(&tampered, &challenges().values()).is_err());
}

#[test]
fn failed_recovery() {
    let (_, config) = setup();
    let circuit = TxCircuit::new(2, 4, CHAIN_ID, 0, vec![transfer(0, 1, vec![])]);
    let mut found = recovered(&circuit.txs, 2);
    found[0] = None;
    assert!(matches!(
        circuit.synthesize_sub(&config, &challenges(), &found),
        Err(Error::Synthesis)
    ));
    // What was recovered for the padding is missing.
    let found = recovered(&circuit.txs, 1);
    assert!(matches!(
        circuit.synthesize_sub(&config, &challenges(), &found),
        Err(Error::Synthesis)
    ));
    // A message from the queue has no signature to recover.
    let circuit = TxCircuit::new(1, 4, CHAIN_ID, 0, vec![message(0, 1)]);
    assert!(circuit.synthesize_sub(&config, &challenges(), &vec![None]).is_ok());
}

#[test]
fn message_taken_before_its_turn() {
    let (_, config) = setup();
    let circuit = TxCircuit::new(2, 4, CHAIN_ID, 6, vec![message(5, 1)]);
    let found = recovered(&circuit.txs, 2);
    assert!(matches!(
        circuit.synthesize_sub(&config, &challenges(), &found),
        Err(Error::QueueIndex)
    ));
    assert_eq!(queue_accounting(&vec![message(9, 1), message(9, 1)], 0).err(), Some(Error::QueueIndex));
    assert_eq!(queue_accounting(&vec![message(u64::MAX, 1)], 0).err(), Some(Error::QueueIndex));
    let mut region = Region::new(78);
    assert_eq!(circuit.assign_dev_block_table(&config, &mut region).err(), Some(Error::QueueIndex));
}

#[test]
fn chain_ids_of_a_block() {
    let params = CircuitsParams { max_txs: 2, max_calldata: 8 };
    let mut other = transfer(1, 1, vec![]);
    other.chain_id = CHAIN_ID + 1;
    let block = Block {
        txs: vec![transfer(0, 1, vec![]), other],
        chain_id: CHAIN_ID,
        start_l1_queue_index: 0,
        circuits_params: params,
    };
    assert!(!block.chain_ids_agree());
    let block = Block {
        txs: vec![transfer(0, 1, vec![1, 2, 3]), transfer(1, 1, vec![4])],
        chain_id: CHAIN_ID,
        start_l1_queue_index: 4,
        circuits_params: params,
    };
    assert_eq!(TxCircuit::min_num_rows_block(&block), Some((2 * 23 + 4, 2 * 23 + 8)));
    assert!(block.chain_ids_agree());
    let circuit = TxCircuit::new_from_block(block);
    assert_eq!(circuit.max_txs, 2);
    assert_eq!(circuit.max_calldata, 8);
    assert_eq!(circuit.start_l1_queue_index, 4);
    assert_eq!(circuit.txs.len(), 2);
    assert_eq!(circuit.size, 54);
}

#[test]
fn stand_ins_for_signatures() {
    let txs = vec![transfer(0, 1, vec![]), message(0, 1)];
    let found = vec![signed(&txs[0]), None, signed(&txs[0])];
    let (sigs, padding) = get_sign_data(&txs, 3, CHAIN_ID, &found).unwrap();
    assert_eq!(padding.len(), 1);
    assert_eq!(sigs.len(), 3);
    assert_eq!(sigs[0].address, txs[0].caller_address);
    assert_eq!(sigs[0].msg, txs[0].rlp_unsigned);
    assert_eq!(sigs[0].get_addr(), address(1));
    // A message from the queue has the stand-in for no signature.
    assert_eq!(sigs[1].address, [0u8; 20]);
    assert!(sigs[1].msg.is_empty());
    assert_eq!(sigs[2].pk, vec![7; 64]);
    assert!(matches!(get_sign_data(&txs, 3, CHAIN_ID, &vec![None]), Err(Error::Synthesis)));
}

#[test]
fn hash_inputs() {
    let txs = vec![transfer(0, 1, vec![])];
    let circuit = TxCircuit::new(2, 4, CHAIN_ID, 0, txs);
    let found = recovered(&circuit.txs, 2);
    let inputs = circuit.keccak_inputs(&found).unwrap();
    let expected: Vec<Vec<u8>> = vec![
        vec![0xf8, 0x60, 0x04, 0x05, 0x06],
        vec![],
        vec![7; 64],
        vec![0xe0, 0x01, 0x02, 0x03],
        vec![9; 64],
        vec![],
        vec![],
        vec![],
    ];
    assert_eq!(inputs, expected);
    assert!(matches!(circuit.keccak_inputs(&vec![None, None]), Err(Error::Synthesis)));
}

#[test]
fn fields_of_a_header() {
    let (_, config) = setup();
    let tx = transfer(258, 100, vec![0x00, 0x01]);
    let circuit = TxCircuit::new(1, 4, CHAIN_ID, 0, vec![tx]);
    let region = synthesize(&circuit, &config).region;
    let value = |tag: TxFieldTag| cell(&region, header_row(0, tag), config.tx_table.value);
    assert_eq!(value(TxFieldTag::Nonce), Fe::from_u64(258));
    assert_eq!(value(TxFieldTag::Gas), Fe::from_u64(21_000));
    assert_eq!(value(TxFieldTag::IsCreate), Fe::zero());
    assert_eq!(value(TxFieldTag::TxDataGasCost), Fe::from_u64(1640));
    assert_eq!(value(TxFieldTag::ChainID), Fe::from_u64(CHAIN_ID));
    assert_eq!(value(TxFieldTag::SigV), Fe::from_u64(2 * CHAIN_ID + 35));
    assert_eq!(value(TxFieldTag::TxSignLength), Fe::from_u64(4));
    assert_eq!(value(TxFieldTag::TxHashLength), Fe::from_u64(5));
    assert_eq!(value(TxFieldTag::TxType), Fe::zero());
    assert_eq!(value(TxFieldTag::BlockNumber), Fe::from_u64(100));
    // A word is held as its fingerprint: 0x1111 is 0x11 * r + 0x11.
    let r = challenges().evm_word;
    assert_eq!(value(TxFieldTag::SigR), Fe::from_u64(0x11).mul(&r).add(&Fe::from_u64(0x11)));
    // The sender is held as a number.
    let two_152 = (0..19).fold(Fe::one(), |acc, _| acc.mul(&Fe::from_u64(256)));
    assert_eq!(
        value(TxFieldTag::CallerAddress),
        Fe::from_u64(0xaa).mul(&two_152).add(&Fe::one())
    );
    assert_eq!(cell(&region, header_row(0, TxFieldTag::Nonce), config.sv_address), value(TxFieldTag::CallerAddress));
    // The lookup tags and the lengths of the encoded values.
    let nonce = header_row(0, TxFieldTag::Nonce);
    assert_eq!(cell(&region, nonce, config.rlp_tag), Fe::from_u64(9));
    assert_eq!(cell(&region, nonce, config.tx_value_length), Fe::from_u64(2));
    assert_eq!(cell(&region, nonce, config.is_none), Fe::zero());
    assert_eq!(
        cell(&region, nonce, config.tx_value_rlc),
        challenges().keccak_input.add(&Fe::from_u64(2))
    );
    let hash_length = header_row(0, TxFieldTag::TxHashLength);
    assert_eq!(cell(&region, hash_length, config.rlp_tag), Fe::zero());
    assert_eq!(cell(&region, hash_length, config.tx_value_length), Fe::from_u64(2));
    assert_eq!(cell(&region, header_row(0, TxFieldTag::IsCreate), config.rlp_tag), Fe::from_u64(3));
}
