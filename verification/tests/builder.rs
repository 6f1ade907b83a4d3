use zkevm_circuits::constraint_builder::ConstraintBuilder;
use zkevm_circuits::constraint_builder::Scope;
use zkevm_circuits::expr::rotate;
use zkevm_circuits::expr::Column;
use zkevm_circuits::expr::Expr;
use zkevm_circuits::field::Fe;
use zkevm_circuits::plonk::ConstraintSystem;
use zkevm_circuits::plonk::RangeTable;
use zkevm_circuits::plonk::Region;
use zkevm_circuits::plonk::VerifyFailure;
use zkevm_circuits::util::and;
use zkevm_circuits::util::not;
use zkevm_circuits::util::or;
use zkevm_circuits::util::select;
use zkevm_circuits::util::sum;

fn col(index: usize) -> Column {
    Column { index, fixed: false }
}

fn cell(index: usize) -> Expr {
    Expr::query(col(index), 0)
}

fn table(rows: &[&[u64]]) -> Vec<Vec<Fe>> {
    rows.iter().map(|r| r.iter().map(|x| Fe::from_u64(*x)).collect()).collect()
}

fn value(e: &Expr, rows: &Vec<Vec<Fe>>, row: usize) -> Fe {
    e.evaluate(rows, &vec![], row)
}

#[test]
fn rotation_wraps_around() {
    assert_eq!(rotate(0, 1, 4), 1);
    assert_eq!(rotate(3, 1, 4), 0);
    assert_eq!(rotate(0, -1, 4), 3);
    assert_eq!(rotate(2, -7, 4), 3);
    assert_eq!(rotate(2, 6, 4), 0);
}

#[test]
fn evaluation_of_an_expression() {
    let rows = table(&[&[3, 4], &[5, 6]]);
    let e = cell(0).mul(cell(1)).add(Expr::query(col(0), 1)).sub(Expr::from_u64(2));
    // 3 * 4 + 5 - 2 on the first row; 5 * 6 + 3 - 2 on the second, whose next row is the first.
    assert_eq!(value(&e, &rows, 0), Fe::from_u64(15));
    assert_eq!(value(&e, &rows, 1), Fe::from_u64(31));
    let scaled = cell(1).scale(Fe::from_u64(10));
    assert_eq!(value(&scaled, &rows, 1), Fe::from_u64(60));
    let missing = cell(7);
    assert_eq!(value(&missing, &rows, 0), Fe::zero());
}

#[test]
fn challenges_are_read_by_number() {
    let rows = table(&[&[1]]);
    let e = Expr::Challenge(1).mul(cell(0)).add(Expr::Challenge(0));
    let challenges = vec![Fe::from_u64(7), Fe::from_u64(11)];
    assert_eq!(e.evaluate(&rows, &challenges, 0), Fe::from_u64(18));
    assert_eq!(Expr::Challenge(2).evaluate(&rows, &challenges, 0), Fe::zero());
}

#[test]
fn degree_of_an_expression() {
    assert_eq!(Expr::from_u64(3).degree(), Some(0));
    assert_eq!(cell(0).degree(), Some(1));
    assert_eq!(cell(0).mul(cell(1)).degree(), Some(2));
    assert_eq!(cell(0).mul(cell(1)).add(cell(0)).degree(), Some(2));
    assert_eq!(cell(0).mul(cell(1)).mul(cell(0).sub(Expr::from_u64(1))).degree(), Some(3));
    assert_eq!(Expr::Challenge(0).mul(cell(0)).degree(), Some(1));
    assert_eq!(cell(0).scale(Fe::from_u64(5)).degree(), Some(1));
    assert_eq!(cell(0).mul(cell(1)).degree_capped(1), 1);
    assert_eq!(cell(0).mul(cell(1)).degree_capped(9), 2);
}

#[test]
fn copy_of_an_expression() {
    let e = cell(0).mul(cell(1)).sub(Expr::from_u64(2));
    assert_eq!(e.dup(), e);
}

#[test]
fn connectives_on_booleans() {
    let rows = table(&[&[0, 0], &[0, 1], &[1, 0], &[1, 1]]);
    let both = and(&vec![cell(0), cell(1)]);
    let either = or(&vec![cell(0), cell(1)]);
    let neither = not(either.dup());
    let total = sum(&vec![cell(0), cell(1)]);
    let expected_and = [0, 0, 0, 1];
    let expected_or = [0, 1, 1, 1];
    let expected_sum = [0, 1, 1, 2];
    for row in 0..4 {
        assert_eq!(value(&both, &rows, row), Fe::from_u64(expected_and[row]));
        assert_eq!(value(&either, &rows, row), Fe::from_u64(expected_or[row]));
        assert_eq!(value(&neither, &rows, row), Fe::from_u64(1 - expected_or[row]));
        assert_eq!(value(&total, &rows, row), Fe::from_u64(expected_sum[row]));
    }
    assert_eq!(value(&and(&vec![]), &rows, 0), Fe::one());
    assert_eq!(value(&sum(&vec![]), &rows, 0), Fe::zero());
}

#[test]
fn selection_by_a_boolean() {
    let rows = table(&[&[1, 7, 9], &[0, 7, 9]]);
    let e = select(cell(0), cell(1), cell(2));
    assert_eq!(value(&e, &rows, 0), Fe::from_u64(7));
    assert_eq!(value(&e, &rows, 1), Fe::from_u64(9));
}

#[test]
fn requirement_under_the_root_scope() {
    let mut cb = ConstraintBuilder::new();
    let root = Scope::root();
    cb.require_zero(&root, "zero", cell(0));
    cb.require_equal(&root, "equal", cell(0), cell(1));
    assert_eq!(cb.constraints.len(), 2);
    assert_eq!(cb.constraints[0].0, "zero");
    assert_eq!(cb.constraints[0].1, Expr::from_u64(1).mul(cell(0)));
    assert_eq!(cb.constraints[1].1, Expr::from_u64(1).mul(cell(0).sub(cell(1))));
    assert!(cb.lookups.is_empty());
}

#[test]
fn nested_conditions_multiply() {
    let mut cb = ConstraintBuilder::new();
    let root = Scope::root();
    let outer = root.nest(cell(2));
    let inner = outer.nest(cell(3));
    cb.require_zero(&inner, "inner", cell(0));
    cb.require_zero(&outer, "outer", cell(0));
    cb.require_zero(&root, "root", cell(0));
    let one = Expr::from_u64(1);
    assert_eq!(cb.constraints[0].1, one.dup().mul(cell(2)).mul(cell(3)).mul(cell(0)));
    assert_eq!(cb.constraints[1].1, one.dup().mul(cell(2)).mul(cell(0)));
    assert_eq!(cb.constraints[2].1, one.mul(cell(0)));
    // The inner requirement binds only where both conditions hold.
    let rows = table(&[&[5, 0, 1, 1], &[5, 0, 1, 0], &[5, 0, 0, 1], &[0, 0, 1, 1]]);
    assert_ne!(value(&cb.constraints[0].1, &rows, 0), Fe::zero());
    assert_eq!(value(&cb.constraints[0].1, &rows, 1), Fe::zero());
    assert_eq!(value(&cb.constraints[0].1, &rows, 2), Fe::zero());
    assert_eq!(value(&cb.constraints[0].1, &rows, 3), Fe::zero());
}

#[test]
fn boolean_requirement_vanishes_on_zero_and_one_only() {
    let mut cb = ConstraintBuilder::new();
    cb.require_boolean(&Scope::root(), "bool", cell(0));
    let rows = table(&[&[0], &[1], &[2], &[77]]);
    assert_eq!(value(&cb.constraints[0].1, &rows, 0), Fe::zero());
    assert_eq!(value(&cb.constraints[0].1, &rows, 1), Fe::zero());
    assert_ne!(value(&cb.constraints[0].1, &rows, 2), Fe::zero());
    assert_ne!(value(&cb.constraints[0].1, &rows, 3), Fe::zero());
    assert_eq!(cb.constraints[0].1.degree(), Some(2));
}

#[test]
fn membership_requirement_vanishes_on_members_only() {
    let mut cb = ConstraintBuilder::new();
    let set = vec![Expr::from_u64(1), Expr::from_u64(0), Expr::from_u64(4)];
    cb.require_in_set(&Scope::root(), "in set", cell(0), &set);
    let rows = table(&[&[0], &[1], &[2], &[3], &[4], &[5]]);
    let expected = [true, true, false, false, true, false];
    for row in 0..6 {
        assert_eq!(value(&cb.constraints[0].1, &rows, row).is_zero(), expected[row]);
    }
    // One factor of degree one for each member.
    assert_eq!(cb.constraints[0].1.degree(), Some(3));
    // (2 - 1)(2 - 0)(2 - 4) = -4
    assert_eq!(value(&cb.constraints[0].1, &rows, 2), Fe::from_u64(4).neg());
}

#[test]
fn lookups_are_gated_by_the_scope() {
    let mut cb = ConstraintBuilder::new();
    let scope = Scope::root().nest(cell(2));
    cb.add_lookup(&scope, "byte", (cell(0), cell(1)));
    let lookups = cb.lookups();
    assert_eq!(lookups.len(), 1);
    assert_eq!(lookups[0].0, "byte");
    assert_eq!(lookups[0].1 .0, cell(0).mul(Expr::from_u64(1).mul(cell(2))));
    assert_eq!(lookups[0].1 .1, cell(1));
    assert!(cb.constraints.is_empty());
}

#[test]
fn gate_multiplies_by_the_selector() {
    let mut cb = ConstraintBuilder::new();
    cb.require_zero(&Scope::root(), "a", cell(0));
    cb.require_zero(&Scope::root(), "b", cell(1));
    let gated = cb.gate(cell(5));
    assert_eq!(gated.len(), 2);
    assert_eq!(gated[0].0, "a");
    assert_eq!(gated[1].0, "b");
    assert_eq!(gated[0].1, cell(5).mul(Expr::from_u64(1).mul(cell(0))));
    assert_eq!(gated[1].1, cell(5).mul(Expr::from_u64(1).mul(cell(1))));
    // The builder keeps what it holds.
    assert_eq!(cb.constraints.len(), 2);
}

#[test]
fn region_grows_by_rows_of_zeros() {
    let mut region = Region::new(3);
    assert_eq!(region.len(), 0);
    region.assign(col(1), 2, Fe::from_u64(9));
    assert_eq!(region.len(), 3);
    assert_eq!(region.rows[0], vec![Fe::zero(); 3]);
    assert_eq!(region.rows[2], vec![Fe::zero(), Fe::from_u64(9), Fe::zero()]);
    region.assign(col(0), 2, Fe::from_u64(4));
    assert_eq!(region.rows[2], vec![Fe::from_u64(4), Fe::from_u64(9), Fe::zero()]);
    assert_eq!(region.row(2), region.rows[2]);
    assert_eq!(region.row(10), vec![Fe::zero(); 3]);
    region.set_row(4, vec![Fe::one(); 3]);
    assert_eq!(region.len(), 5);
    assert_eq!(region.rows[3], vec![Fe::zero(); 3]);
    assert_eq!(region.rows[4], vec![Fe::one(); 3]);
}

#[test]
fn columns_are_numbered_in_order() {
    let mut meta = ConstraintSystem::new(10);
    let a = meta.advice_column();
    let b = meta.fixed_column();
    let c = meta.advice_column();
    assert_eq!(a, Column { index: 0, fixed: false });
    assert_eq!(b, Column { index: 1, fixed: true });
    assert_eq!(c, Column { index: 2, fixed: false });
    assert_eq!(meta.num_columns, 3);
    assert_eq!(meta.minimum_rows(), 10);
}

#[test]
fn verification_finds_a_failing_gate() {
    let mut meta = ConstraintSystem::new(0);
    // The second column is twice the first.
    meta.create_gate("double", vec![("", cell(1).sub(cell(0).add(cell(0))))]);
    let good = table(&[&[1, 2], &[5, 10], &[0, 0]]);
    let bad = table(&[&[1, 2], &[5, 11], &[0, 0]]);
    assert_eq!(meta.verify(&good, &vec![]), Ok(()));
    assert_eq!(
        meta.verify(&bad, &vec![]),
        Err(VerifyFailure::Gate { gate: 0, poly: 0, row: 1 })
    );
}

#[test]
fn verification_finds_a_failing_lookup() {
    let mut meta = ConstraintSystem::new(0);
    // The pair of the first two columns occurs as the pair of the last two on some row.
    meta.lookup_any("pair", vec![(cell(0), cell(2)), (cell(1), cell(3))]);
    let good = table(&[&[1, 2, 0, 0], &[0, 0, 1, 2]]);
    let bad = table(&[&[1, 2, 0, 0], &[0, 0, 2, 1]]);
    assert_eq!(meta.verify(&good, &vec![]), Ok(()));
    assert_eq!(meta.verify(&bad, &vec![]), Err(VerifyFailure::Lookup { lookup: 0, row: 0 }));
}

#[test]
fn verification_finds_a_value_out_of_range() {
    let mut meta = ConstraintSystem::new(0);
    meta.lookup("byte", cell(0), RangeTable { bound: 256 });
    assert_eq!(meta.verify(&table(&[&[0], &[255]]), &vec![]), Ok(()));
    assert_eq!(
        meta.verify(&table(&[&[0], &[256]]), &vec![]),
        Err(VerifyFailure::Range { range: 0, row: 1 })
    );
    // A negative difference is far out of range.
    let negative = vec![vec![Fe::zero().sub(&Fe::one())]];
    assert_eq!(
        meta.verify(&negative, &vec![]),
        Err(VerifyFailure::Range { range: 0, row: 0 })
    );
}

#[test]
fn degree_of_a_constraint_system() {
    let mut meta = ConstraintSystem::new(0);
    // The backend needs three for itself.
    assert_eq!(meta.degree(), 3);
    meta.create_gate("cubic", vec![("", cell(0).mul(cell(1)).mul(cell(2)).mul(cell(0)))]);
    assert_eq!(meta.degree(), 4);
    // A lookup asks for two more than its inputs and its table together.
    meta.lookup_any("pair", vec![(cell(0).mul(cell(1)).mul(cell(2)), cell(3))]);
    assert_eq!(meta.degree(), 6);
    meta.lookup("byte", cell(0).mul(cell(1)).mul(cell(2)).mul(cell(0)), RangeTable { bound: 256 });
    assert_eq!(meta.degree(), 7);
}
