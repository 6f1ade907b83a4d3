use zkevm_circuits::expr::Column;
use zkevm_circuits::expr::Expr;
use zkevm_circuits::field::Fe;
use zkevm_circuits::gadgets::contains;
use zkevm_circuits::gadgets::BinaryNumberConfig;
use zkevm_circuits::gadgets::ComparatorConfig;
use zkevm_circuits::gadgets::IsEqualConfig;
use zkevm_circuits::gadgets::IsZeroConfig;
use zkevm_circuits::gadgets::LtConfig;
use zkevm_circuits::plonk::ConstraintSystem;
use zkevm_circuits::plonk::RangeTable;
use zkevm_circuits::plonk::VerifyFailure;
use zkevm_circuits::table::u8_table;
use zkevm_circuits::tx_circuit::lookups::enable_left;
use zkevm_circuits::tx_circuit::lookups::enable_right;
use zkevm_circuits::tx_circuit::lookups::zip;

fn one() -> Expr {
    Expr::from_u64(1)
}

fn zero_row(width: usize) -> Vec<Fe> {
    vec![Fe::zero(); width]
}

#[test]
fn zero_test_of_a_column() {
    let mut meta = ConstraintSystem::new(0);
    let value = meta.advice_column();
    let config = IsZeroConfig::configure(&mut meta, one(), value);
    assert_eq!(config.value, value);
    assert_eq!(config.value_inv, Column { index: 1, fixed: false });
    assert_eq!(meta.gates.len(), 1);
    assert_eq!(meta.gates[0].name, "is_zero gate");
    let mut rows = Vec::new();
    for x in [0u64, 1, 2, 1000] {
        let mut row = zero_row(2);
        row[value.index] = Fe::from_u64(x);
        config.assign(&mut row, Fe::from_u64(x));
        rows.push(row);
    }
    assert_eq!(meta.verify(&rows, &vec![]), Ok(()));
    let is_zero = config.expr(0);
    let values: Vec<Fe> = (0..4).map(|r| is_zero.evaluate(&rows, &vec![], r)).collect();
    assert_eq!(values, vec![Fe::one(), Fe::zero(), Fe::zero(), Fe::zero()]);
    // The boolean of the next row.
    assert_eq!(config.expr(1).evaluate(&rows, &vec![], 3), Fe::one());
    // A wrong inverse is refused: the boolean cannot be zero where the value is zero, nor
    // one where it is not.
    rows[1][config.value_inv.index] = Fe::zero();
    assert_eq!(meta.verify(&rows, &vec![]), Err(VerifyFailure::Gate { gate: 0, poly: 0, row: 1 }));
}

#[test]
fn equality_test_of_two_expressions() {
    let mut meta = ConstraintSystem::new(0);
    let a = meta.advice_column();
    let b = meta.advice_column();
    let config = IsEqualConfig::configure(&mut meta, one(), Expr::query(a, 0), Expr::query(b, 0));
    let mut rows = Vec::new();
    for (x, y) in [(3u64, 3u64), (3, 4), (0, 0), (9, 2)] {
        let mut row = zero_row(3);
        row[a.index] = Fe::from_u64(x);
        row[b.index] = Fe::from_u64(y);
        config.assign(&mut row, Fe::from_u64(x), Fe::from_u64(y));
        rows.push(row);
    }
    assert_eq!(meta.verify(&rows, &vec![]), Ok(()));
    let equal = config.expr();
    let values: Vec<Fe> = (0..4).map(|r| equal.evaluate(&rows, &vec![], r)).collect();
    assert_eq!(values, vec![Fe::one(), Fe::zero(), Fe::one(), Fe::zero()]);
}

#[test]
fn comparison_of_two_expressions() {
    let mut meta = ConstraintSystem::new(0);
    let a = meta.advice_column();
    let b = meta.advice_column();
    let config = LtConfig::configure(&mut meta, one(), Expr::query(a, 0), Expr::query(b, 0), u8_table(), 2);
    assert_eq!(config.diff.len(), 2);
    assert_eq!(config.range, Fe::from_u64(65536));
    assert_eq!(meta.ranges.len(), 2);
    assert_eq!(meta.ranges[0].table, RangeTable { bound: 256 });
    let pairs = [(3u64, 4u64), (4, 3), (5, 5), (0, 65535), (65535, 0), (300, 1000)];
    let mut rows = Vec::new();
    for (x, y) in pairs {
        let mut row = zero_row(5);
        row[a.index] = Fe::from_u64(x);
        row[b.index] = Fe::from_u64(y);
        config.assign(&mut row, Fe::from_u64(x), Fe::from_u64(y));
        rows.push(row);
    }
    assert_eq!(meta.verify(&rows, &vec![]), Ok(()));
    let lt = config.is_lt(0);
    for (r, (x, y)) in pairs.iter().enumerate() {
        assert_eq!(lt.evaluate(&rows, &vec![], r), Fe::from_bool(x < y));
    }
    // 3 - 4 + 65536 = 0xffff; 300 - 1000 + 65536 = 64836 = 0xfd44.
    assert_eq!(rows[0][config.diff[0].index], Fe::from_u64(0xff));
    assert_eq!(rows[0][config.diff[1].index], Fe::from_u64(0xff));
    assert_eq!(rows[5][config.diff[0].index], Fe::from_u64(0x44));
    assert_eq!(rows[5][config.diff[1].index], Fe::from_u64(0xfd));
    assert_eq!(rows[1][config.diff[0].index], Fe::from_u64(1));
    // A wrong result is refused.
    rows[1][config.lt.index] = Fe::one();
    assert!(meta.verify(&rows, &vec![]).is_err());
}

#[test]
fn comparator_gives_both_results() {
    let mut meta = ConstraintSystem::new(0);
    let a = meta.advice_column();
    let b = meta.advice_column();
    let config =
        ComparatorConfig::configure(&mut meta, one(), Expr::query(a, 0), Expr::query(b, 0), u8_table(), 2);
    let pairs = [(3u64, 4u64), (4, 3), (5, 5)];
    let mut rows = Vec::new();
    for (x, y) in pairs {
        let mut row = zero_row(6);
        row[a.index] = Fe::from_u64(x);
        row[b.index] = Fe::from_u64(y);
        config.assign(&mut row, Fe::from_u64(x), Fe::from_u64(y));
        rows.push(row);
    }
    assert_eq!(meta.verify(&rows, &vec![]), Ok(()));
    let (lt, eq) = config.expr(0);
    for (r, (x, y)) in pairs.iter().enumerate() {
        assert_eq!(lt.evaluate(&rows, &vec![], r), Fe::from_bool(x < y));
        assert_eq!(eq.evaluate(&rows, &vec![], r), Fe::from_bool(x == y));
    }
}

#[test]
fn tag_encoder_indicates_each_member() {
    let mut meta = ConstraintSystem::new(0);
    let selector = meta.fixed_column();
    let value = meta.advice_column();
    // An enumeration of five members in three digits.
    let valid: Vec<u64> = (0..5).collect();
    let config = BinaryNumberConfig::configure(&mut meta, selector, Some(value), 3, &valid);
    assert_eq!(config.bits.len(), 3);
    // One gate for each digit, one for the value, one for the numbers 5, 6 and 7.
    assert_eq!(meta.gates.len(), 5);
    assert_eq!(meta.gates[4].name, "binary number value in range");
    assert_eq!(meta.gates[4].polys.len(), 3);
    let mut rows = Vec::new();
    for v in 0..5u64 {
        let mut row = zero_row(5);
        row[selector.index] = Fe::one();
        row[value.index] = Fe::from_u64(v);
        config.assign(&mut row, v);
        rows.push(row);
    }
    assert_eq!(meta.verify(&rows, &vec![]), Ok(()));
    // The highest digit comes first: 4 is 100.
    assert_eq!(rows[4][config.bits[0].index], Fe::one());
    assert_eq!(rows[4][config.bits[1].index], Fe::zero());
    assert_eq!(rows[4][config.bits[2].index], Fe::zero());
    assert_eq!(rows[3][config.bits[0].index], Fe::zero());
    assert_eq!(rows[3][config.bits[1].index], Fe::one());
    assert_eq!(rows[3][config.bits[2].index], Fe::one());
    for member in 0..5u64 {
        let indicator = config.value_equals(member, 0);
        // One factor of degree one for each digit.
        assert_eq!(indicator.degree(), Some(3));
        for r in 0..5 {
            assert_eq!(indicator.evaluate(&rows, &vec![], r), Fe::from_bool(r as u64 == member));
        }
    }
    for r in 0..5 {
        assert_eq!(config.value(0).evaluate(&rows, &vec![], r), Fe::from_u64(r as u64));
    }
    // A number that stands for no member is refused.
    let mut bad = rows.clone();
    config.assign(&mut bad[0], 6);
    bad[0][value.index] = Fe::from_u64(6);
    assert!(matches!(bad_gate(&meta, &bad), Some(4)));
    // A digit that is no digit is refused.
    let mut bad = rows.clone();
    bad[1][config.bits[2].index] = Fe::from_u64(2);
    assert!(meta.verify(&bad, &vec![]).is_err());
    // Digits that spell another number than the value are refused.
    let mut bad = rows.clone();
    bad[1][value.index] = Fe::from_u64(2);
    assert!(matches!(bad_gate(&meta, &bad), Some(3)));
}

fn bad_gate(meta: &ConstraintSystem, rows: &Vec<Vec<Fe>>) -> Option<usize> {
    match meta.verify(rows, &vec![]) {
        Err(VerifyFailure::Gate { gate, .. }) => Some(gate),
        _ => None,
    }
}

#[test]
fn tag_encoder_of_a_full_enumeration_has_no_range_gate() {
    let mut meta = ConstraintSystem::new(0);
    let selector = meta.fixed_column();
    let valid: Vec<u64> = (0..4).collect();
    let config = BinaryNumberConfig::configure(&mut meta, selector, None, 2, &valid);
    assert_eq!(config.bits.len(), 2);
    assert_eq!(meta.gates.len(), 2);
}

#[test]
fn membership_in_a_list() {
    assert!(contains(&vec![1, 5, 9], 5));
    assert!(!contains(&vec![1, 5, 9], 4));
    assert!(!contains(&vec![], 0));
}

#[test]
fn pairs_of_a_lookup() {
    let a = |i: usize| Expr::query(Column { index: i, fixed: false }, 0);
    let pairs = zip(vec![a(0), a(1), a(2)], vec![a(10), a(11)]);
    assert_eq!(pairs, vec![(a(0), a(10)), (a(1), a(11))]);
    let enable = a(7);
    let left = enable_left(&enable, zip(vec![a(0), a(1)], vec![a(10), a(11)]));
    assert_eq!(left, vec![(a(7).mul(a(0)), a(10)), (a(7).mul(a(1)), a(11))]);
    let right = enable_right(&enable, zip(vec![a(0), a(1)], vec![a(10), a(11)]));
    assert_eq!(right, vec![(a(0).mul(a(7)), a(10)), (a(1).mul(a(7)), a(11))]);
}
