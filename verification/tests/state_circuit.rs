use zkevm_circuits::constraint_builder::Scope;
use zkevm_circuits::expr::Column;
use zkevm_circuits::expr::Expr;
use zkevm_circuits::field::Fe;
use zkevm_circuits::state_circuit::constraint_builder::account_field_tag_set;
use zkevm_circuits::state_circuit::constraint_builder::from_digits;
use zkevm_circuits::state_circuit::constraint_builder::generate_lagrange_base_polynomial;
use zkevm_circuits::state_circuit::constraint_builder::rlc;
use zkevm_circuits::state_circuit::constraint_builder::rw_table_tag_numbers;
use zkevm_circuits::state_circuit::constraint_builder::rw_table_tag_set;
use zkevm_circuits::state_circuit::constraint_builder::AccountFieldTag;
use zkevm_circuits::state_circuit::constraint_builder::ConstraintBuilder;
use zkevm_circuits::state_circuit::constraint_builder::LookupsQueries;
use zkevm_circuits::state_circuit::constraint_builder::MpiQueries;
use zkevm_circuits::state_circuit::constraint_builder::Queries;
use zkevm_circuits::state_circuit::constraint_builder::RlcQueries;
use zkevm_circuits::state_circuit::constraint_builder::RwTableTag;

fn cell(index: usize) -> Expr {
    Expr::query(Column { index, fixed: false }, 0)
}

fn mpi(first: usize, limbs: usize) -> MpiQueries {
    MpiQueries {
        value: cell(first),
        value_prev: cell(first + 1),
        limbs: (0..limbs).map(|i| cell(first + 2 + i)).collect(),
        limbs_prev: (0..limbs).map(|i| cell(first + 2 + limbs + i)).collect(),
    }
}

// The columns: 0 selector, 1 is_write, 2 tag, 3 aux2, 4 prev_tag, 5 is_id_unchanged,
// 6 field_tag, 7 value, 8 value at the row before, 9 value_prev, 10 is_storage_key_unchanged,
// 11 upper limb difference is zero, 12 rw_rlc, 13.. the lookups, 20.. the counter,
// 30.. the id, 40.. the address, 70.. the storage key, 110.. the powers of the randomness.
fn queries() -> Queries {
    Queries {
        selector: cell(0),
        rw_counter: mpi(20, 2),
        is_write: cell(1),
        tag: cell(2),
        aux2: cell(3),
        prev_tag: cell(4),
        id: mpi(30, 2),
        is_id_unchanged: cell(5),
        address: mpi(40, 10),
        field_tag: cell(6),
        storage_key: RlcQueries {
            encoded: cell(70),
            encoded_prev: cell(71),
            bytes: (0..32).map(|i| cell(72 + i)).collect(),
        },
        value: cell(7),
        value_at_prev_rotation: cell(8),
        value_prev: cell(9),
        lookups: LookupsQueries {
            u8: cell(13),
            u10: cell(14),
            u16: cell(15),
            call_context_field_tag: cell(16),
        },
        power_of_randomness: (0..31).map(|i| cell(110 + i)).collect(),
        is_storage_key_unchanged: cell(10),
        lexicographic_ordering_upper_limb_difference_is_zero: cell(11),
        rw_rlc: cell(12),
    }
}

fn row_with(cells: &[(usize, u64)]) -> Vec<Vec<Fe>> {
    let mut row = vec![Fe::zero(); 150];
    for (index, value) in cells {
        row[*index] = Fe::from_u64(*value);
    }
    vec![row]
}

#[test]
fn numbers_of_the_kinds() {
    assert_eq!(RwTableTag::Start.index(), 1);
    assert_eq!(RwTableTag::CallContext.index(), 10);
    assert_eq!(rw_table_tag_numbers(), (1..=10).collect::<Vec<u64>>());
    assert_eq!(RwTableTag::iter().len(), 10);
    assert_eq!(rw_table_tag_set().len(), 10);
    assert_eq!(rw_table_tag_set()[2], Expr::from_u64(3));
    assert_eq!(AccountFieldTag::Nonce.index(), 1);
    assert_eq!(
        account_field_tag_set(),
        vec![Expr::from_u64(1), Expr::from_u64(2), Expr::from_u64(3)]
    );
    assert_eq!(RwTableTag::Stack.expr(), Expr::from_u64(3));
    assert_eq!(AccountFieldTag::CodeHash.expr(), Expr::from_u64(3));
}

#[test]
fn lagrange_base_is_an_indicator() {
    let range: Vec<u64> = (1..=10).collect();
    for target in 1..=10u64 {
        let base = generate_lagrange_base_polynomial(&cell(2), target, &range);
        assert_eq!(base.degree(), Some(9));
        for actual in 1..=10u64 {
            let rows = row_with(&[(2, actual)]);
            assert_eq!(base.evaluate(&rows, &vec![], 0), Fe::from_bool(actual == target));
        }
    }
}

#[test]
fn tag_matches_is_the_indicator_of_the_kind() {
    let q = queries();
    let stack = q.tag_matches(RwTableTag::Stack);
    assert_eq!(stack.evaluate(&row_with(&[(2, 3)]), &vec![], 0), Fe::one());
    assert_eq!(stack.evaluate(&row_with(&[(2, 2)]), &vec![], 0), Fe::zero());
    assert_eq!(stack.evaluate(&row_with(&[(2, 10)]), &vec![], 0), Fe::zero());
}

#[test]
fn multi_tag_match_vanishes_on_the_other_kinds() {
    let q = queries();
    let targets = vec![RwTableTag::Memory, RwTableTag::Stack];
    let e = q.multi_tag_match(&targets);
    assert_eq!(e.degree(), Some(8));
    for tag in 1..=10u64 {
        let value = e.evaluate(&row_with(&[(2, tag)]), &vec![], 0);
        assert_eq!(value.is_zero(), tag != 2 && tag != 3);
    }
}

#[test]
fn simple_queries() {
    let q = queries();
    assert_eq!(q.selector(), cell(0));
    assert_eq!(q.is_write(), cell(1));
    assert_eq!(q.is_read(), Expr::from_u64(1).sub(cell(1)));
    assert_eq!(q.tag(), cell(2));
    assert_eq!(q.id(), cell(30));
    assert_eq!(q.id_change(), cell(30).sub(cell(31)));
    assert_eq!(q.field_tag(), cell(6));
    assert_eq!(q.value(), cell(7));
    assert_eq!(q.address_change(), cell(40).sub(cell(41)));
}

#[test]
fn first_access_is_a_change_of_the_key() {
    let q = queries();
    let e = q.first_access();
    // Unchanged in the upper limbs and in the storage key: no first access.
    assert_eq!(e.evaluate(&row_with(&[(10, 1), (11, 1)]), &vec![], 0), Fe::zero());
    assert_eq!(e.evaluate(&row_with(&[(10, 0), (11, 1)]), &vec![], 0), Fe::one());
    assert_eq!(e.evaluate(&row_with(&[(10, 1), (11, 0)]), &vec![], 0), Fe::one());
    assert_eq!(e.evaluate(&row_with(&[(10, 0), (11, 0)]), &vec![], 0), Fe::one());
}

#[test]
fn fingerprint_of_expressions() {
    let e = rlc(&vec![cell(0), cell(1), cell(2)], &vec![cell(3), cell(4), cell(5)]);
    assert_eq!(e, cell(0).add(cell(1).mul(cell(3))).add(cell(2).mul(cell(4))));
    // There are fewer powers than expressions after the first.
    let e = rlc(&vec![cell(0), cell(1), cell(2)], &vec![cell(3)]);
    assert_eq!(e, cell(0).add(cell(1).mul(cell(3))));
    assert_eq!(rlc(&vec![cell(0)], &vec![]), cell(0));
}

#[test]
fn number_from_digits() {
    let e = from_digits(&vec![cell(0), cell(1)], &Expr::from_u64(10));
    let zero = Expr::from_u64(0);
    let ten = Expr::from_u64(10);
    assert_eq!(e, cell(1).add(cell(0).add(zero.mul(ten.dup())).mul(ten)));
    let rows = vec![vec![Fe::from_u64(4), Fe::from_u64(2)]];
    assert_eq!(e.evaluate(&rows, &vec![], 0), Fe::from_u64(42));
}

#[test]
fn build_collects_the_constraints_of_every_kind() {
    let q = queries();
    let mut cb = ConstraintBuilder::new();
    cb.build(&q);
    // 4 of every row, 1 of the start, 3 and 8 limbs of the memory, 5 of the stack, 1 of
    // the storage, 3 and 2 of the access lists, 4 of the refund, 3 of the account, 3 of the
    // destruction, 2 of the call context.
    assert_eq!(cb.constraints.len(), 4 + 1 + 11 + 5 + 1 + 3 + 2 + 4 + 3 + 3 + 2);
    let names: Vec<&str> = cb.constraints.iter().map(|c| c.0).collect();
    assert_eq!(names[0], "tag in RwTableTag range");
    assert_eq!(names[1], "is_write is boolean");
    assert_eq!(names[2], "prev value");
    assert_eq!(names[3], "rw table rlc");
    assert_eq!(names[4], "rw_counter is 0 for Start");
    assert_eq!(names[5], "field_tag is 0 for Memory");
    assert_eq!(names[8], "memory address fits into 2 limbs");
    assert_eq!(names[15], "memory address fits into 2 limbs");
    assert_eq!(names[16], "field_tag is 0 for Stack");
    assert_eq!(names[names.len() - 1], "storage_key is 0 for CallContext");
    let lookups = cb.lookups();
    let names: Vec<&str> = lookups.iter().map(|l| l.0).collect();
    assert_eq!(
        names,
        vec![
            "memory value is a byte",
            "stack address fits into 10 bits",
            "field_tag in CallContextFieldTag range"
        ]
    );
    // A requirement of a kind is made under the indicator of the kind.
    let one = Expr::from_u64(1);
    let start = one.dup().mul(q.tag_matches(RwTableTag::Start));
    assert_eq!(cb.constraints[4].1, start.mul(cell(20)));
    let memory = one.dup().mul(q.tag_matches(RwTableTag::Memory));
    assert_eq!(cb.constraints[8].1, memory.dup().mul(cell(44)));
    assert_eq!(lookups[0].1 .0, cell(7).mul(memory));
    assert_eq!(lookups[0].1 .1, cell(13));
    // The selector of the rows multiplies every constraint.
    let gated = cb.gate(q.selector());
    assert_eq!(gated.len(), cb.constraints.len());
    assert_eq!(gated[1].1, cell(0).mul(cb.constraints[1].1.dup()));
}

#[test]
fn constraints_bind_the_rows_of_their_kind_only() {
    let q = queries();
    let mut cb = ConstraintBuilder::new();
    cb.build(&q);
    let field_tag_memory = &cb.constraints[5].1;
    // A row of the memory with a field: refused.
    assert!(!field_tag_memory.evaluate(&row_with(&[(2, 2), (6, 1)]), &vec![], 0).is_zero());
    // A row of the memory without a field, and a row of an account with one: accepted.
    assert!(field_tag_memory.evaluate(&row_with(&[(2, 2), (6, 0)]), &vec![], 0).is_zero());
    assert!(field_tag_memory.evaluate(&row_with(&[(2, 8), (6, 1)]), &vec![], 0).is_zero());
    // The kind of a row is one of the ten.
    let in_range = &cb.constraints[0].1;
    assert!(in_range.evaluate(&row_with(&[(2, 10)]), &vec![], 0).is_zero());
    assert!(!in_range.evaluate(&row_with(&[(2, 11)]), &vec![], 0).is_zero());
    assert!(!in_range.evaluate(&row_with(&[(2, 0)]), &vec![], 0).is_zero());
}

#[test]
fn builders_of_one_kind() {
    let q = queries();
    let mut cb = ConstraintBuilder::new();
    let scope = Scope::root().nest(cell(99));
    cb.build_stack_constraints(&scope, &q);
    assert_eq!(cb.constraints.len(), 5);
    assert_eq!(cb.lookups.len(), 1);
    let condition = Expr::from_u64(1).mul(cell(99));
    assert_eq!(cb.constraints[0].1, condition.dup().mul(cell(6)));
    // The change of the address is a boolean where the call is the same.
    let change = cell(40).sub(cell(41));
    assert_eq!(
        cb.constraints[3].1,
        condition.dup().mul(cell(5)).mul(change.dup().mul(Expr::from_u64(1).sub(change)))
    );
    cb.build_account_constraints(&scope, &q);
    assert_eq!(cb.constraints.len(), 8);
    assert_eq!(cb.constraints[7].0, "field_tag in AccountFieldTag range");
    cb.build_start_constraints(&scope, &q);
    cb.build_account_storage_constraints(&scope, &q);
    cb.build_tx_access_list_account_constraints(&scope, &q);
    cb.build_tx_access_list_account_storage_constraints(&scope, &q);
    cb.build_tx_refund_constraints(&scope, &q);
    cb.build_account_destructed_constraints(&scope, &q);
    cb.build_call_context_constraints(&scope, &q);
    cb.build_memory_constraints(&scope, &q);
    cb.build_general_constraints(&scope, &q);
    assert_eq!(cb.constraints.len(), 8 + 1 + 1 + 3 + 2 + 4 + 3 + 2 + 11 + 4);
    assert_eq!(cb.lookups.len(), 3);
}
