//! The constraints of the state circuit.
//!
//! The table of reads and writes has one row for each access. Some
//! constraints hold of every row; the others hold of the rows of one kind of
//! target, and are made under the condition that the row is of that kind.

pub use crate::constraint_builder::ConstraintBuilder;

use crate::constraint_builder::boolean_poly;
use crate::constraint_builder::in_set_poly;
use crate::constraint_builder::Lookup;
use crate::constraint_builder::Scope;
use crate::expr::lit;
use crate::expr::minus;
use crate::expr::plus;
use crate::expr::times;
use crate::expr::Constraint;
use crate::expr::Expr;
use crate::field::finv_or_zero;
use crate::field::fmul;
use crate::field::fsub;
use crate::field::Fe;
use crate::util::not;
use crate::util::not_expr;
use crate::util::or;
use crate::util::or_expr;
use crate::util::select;
use crate::util::select_expr;
use vstd::prelude::*;

verus! {

/// The kind of target of a read or write.
#[derive(Clone, Copy, Debug, PartialEq, Eq, Structural)]
pub enum RwTableTag {
    Start,
    Memory,
    Stack,
    AccountStorage,
    TxAccessListAccount,
    TxAccessListAccountStorage,
    TxRefund,
    Account,
    AccountDestructed,
    CallContext,
}

impl RwTableTag {
    /// The number of the kind.
    pub open spec fn spec_index(self) -> nat {
        match self {
            RwTableTag::Start => 1,
            RwTableTag::Memory => 2,
            RwTableTag::Stack => 3,
            RwTableTag::AccountStorage => 4,
            RwTableTag::TxAccessListAccount => 5,
            RwTableTag::TxAccessListAccountStorage => 6,
            RwTableTag::TxRefund => 7,
            RwTableTag::Account => 8,
            RwTableTag::AccountDestructed => 9,
            RwTableTag::CallContext => 10,
        }
    }

    /// The number of the kind.
    pub fn index(&self) -> (r: u64)
        ensures
            r == self.spec_index(),
    {
        match self {
            RwTableTag::Start => 1,
            RwTableTag::Memory => 2,
            RwTableTag::Stack => 3,
            RwTableTag::AccountStorage => 4,
            RwTableTag::TxAccessListAccount => 5,
            RwTableTag::TxAccessListAccountStorage => 6,
            RwTableTag::TxRefund => 7,
            RwTableTag::Account => 8,
            RwTableTag::AccountDestructed => 9,
            RwTableTag::CallContext => 10,
        }
    }

    /// The kind as a constant expression.
    pub fn expr(&self) -> (r: Expr)
        ensures
            r == lit(self.spec_index() as int),
    {
        Expr::from_u64(self.index())
    }

    /// All kinds, in the order of their numbers.
    pub fn iter() -> (r: Vec<RwTableTag>)
        ensures
            r@ == rw_table_tags(),
    {
        let v = vec![
            RwTableTag::Start,
            RwTableTag::Memory,
            RwTableTag::Stack,
            RwTableTag::AccountStorage,
            RwTableTag::TxAccessListAccount,
            RwTableTag::TxAccessListAccountStorage,
            RwTableTag::TxRefund,
            RwTableTag::Account,
            RwTableTag::AccountDestructed,
            RwTableTag::CallContext,
        ];
        proof {
            assert(v@ =~= rw_table_tags());
        }
        v
    }
}

/// All kinds of target, in the order of their numbers.
pub open spec fn rw_table_tags() -> Seq<RwTableTag> {
    seq![
        RwTableTag::Start,
        RwTableTag::Memory,
        RwTableTag::Stack,
        RwTableTag::AccountStorage,
        RwTableTag::TxAccessListAccount,
        RwTableTag::TxAccessListAccountStorage,
        RwTableTag::TxRefund,
        RwTableTag::Account,
        RwTableTag::AccountDestructed,
        RwTableTag::CallContext,
    ]
}

/// The numbers of the first `n` kinds of target.
pub open spec fn rw_table_tag_indices(n: nat) -> Seq<u64> {
    Seq::new(n, |i: int| rw_table_tags()[i].spec_index() as u64)
}

/// The kinds of target as constant expressions.
pub open spec fn rw_table_tag_exprs() -> Seq<Expr> {
    Seq::new(10, |i: int| lit(rw_table_tags()[i].spec_index() as int))
}

/// The kinds of target as constant expressions.
pub fn rw_table_tag_set() -> (r: Vec<Expr>)
    ensures
        r@ == rw_table_tag_exprs(),
{
    let tags = RwTableTag::iter();
    let mut out: Vec<Expr> = Vec::new();
    let mut i: usize = 0;
    while i < tags.len()
        invariant
            i <= tags@.len(),
            tags@ == rw_table_tags(),
            out@.len() == i,
            forall|k: int| 0 <= k < i ==> #[trigger] out@[k] == lit(rw_table_tags()[k].spec_index() as int),
        decreases tags@.len() - i,
    {
        out.push(tags[i].expr());
        i = i + 1;
    }
    proof {
        assert(out@ =~= rw_table_tag_exprs());
    }
    out
}

/// A field of an account.
#[derive(Clone, Copy, Debug, PartialEq, Eq, Structural)]
pub enum AccountFieldTag {
    Nonce,
    Balance,
    CodeHash,
}

impl AccountFieldTag {
    /// The number of the field.
    pub open spec fn spec_index(self) -> nat {
        match self {
            AccountFieldTag::Nonce => 1,
            AccountFieldTag::Balance => 2,
            AccountFieldTag::CodeHash => 3,
        }
    }

    /// The number of the field.
    pub fn index(&self) -> (r: u64)
        ensures
            r == self.spec_index(),
    {
        match self {
            AccountFieldTag::Nonce => 1,
            AccountFieldTag::Balance => 2,
            AccountFieldTag::CodeHash => 3,
        }
    }

    /// The field as a constant expression.
    pub fn expr(&self) -> (r: Expr)
        ensures
            r == lit(self.spec_index() as int),
    {
        Expr::from_u64(self.index())
    }
}

/// The fields of an account as constant expressions.
pub open spec fn account_field_tag_exprs() -> Seq<Expr> {
    seq![
        lit(AccountFieldTag::Nonce.spec_index() as int),
        lit(AccountFieldTag::Balance.spec_index() as int),
        lit(AccountFieldTag::CodeHash.spec_index() as int),
    ]
}

/// The fields of an account as constant expressions.
pub fn account_field_tag_set() -> (r: Vec<Expr>)
    ensures
        r@ == account_field_tag_exprs(),
{
    vec![
        AccountFieldTag::Nonce.expr(),
        AccountFieldTag::Balance.expr(),
        AccountFieldTag::CodeHash.expr(),
    ]
}

/// A number that is held in limbs: its value on this row and on the row
/// before, and its limbs on both.
pub struct MpiQueries {
    pub value: Expr,
    pub value_prev: Expr,
    pub limbs: Vec<Expr>,
    pub limbs_prev: Vec<Expr>,
}

/// A word that is held as a fingerprint of its bytes.
pub struct RlcQueries {
    pub encoded: Expr,
    pub encoded_prev: Expr,
    pub bytes: Vec<Expr>,
}

/// The fixed tables that the rows look values up in.
pub struct LookupsQueries {
    pub u8: Expr,
    pub u10: Expr,
    pub u16: Expr,
    pub call_context_field_tag: Expr,
}

/// The cells of a row of the table of reads and writes, as expressions.
pub struct Queries {
    pub selector: Expr,
    pub rw_counter: MpiQueries,
    pub is_write: Expr,
    pub tag: Expr,
    pub aux2: Expr,
    pub prev_tag: Expr,
    pub id: MpiQueries,
    pub is_id_unchanged: Expr,
    pub address: MpiQueries,
    pub field_tag: Expr,
    pub storage_key: RlcQueries,
    pub value: Expr,
    pub value_at_prev_rotation: Expr,
    pub value_prev: Expr,
    pub lookups: LookupsQueries,
    pub power_of_randomness: Vec<Expr>,
    pub is_storage_key_unchanged: Expr,
    pub lexicographic_ordering_upper_limb_difference_is_zero: Expr,
    pub rw_rlc: Expr,
}

/// The product of the differences of `exp` from each number of `range` but
/// `val`.
pub open spec fn lagrange_numerator(exp: Expr, val: int, range: Seq<u64>) -> Expr
    decreases range.len(),
{
    if range.len() == 0 {
        lit(1)
    } else {
        let rest = lagrange_numerator(exp, val, range.drop_last());
        if range.last() != val {
            times(rest, minus(exp, lit(range.last() as int)))
        } else {
            rest
        }
    }
}

/// The product, in the field, of the differences of `val` from each number
/// of `range` but itself.
pub open spec fn lagrange_denominator(val: int, range: Seq<u64>) -> int
    decreases range.len(),
{
    if range.len() == 0 {
        1
    } else {
        let rest = lagrange_denominator(val, range.drop_last());
        if range.last() != val {
            fmul(rest, fsub(val, range.last() as int))
        } else {
            rest
        }
    }
}

/// The polynomial that is one where `exp` is `val` and zero where it is
/// another number of `range`: the numerator scaled by the inverse of the
/// denominator.
pub open spec fn lagrange_base(exp: Expr, val: int, range: Seq<u64>) -> Expr {
    Expr::Scaled(
        Box::new(lagrange_numerator(exp, val, range)),
        Fe::of_int(finv_or_zero(lagrange_denominator(val, range))),
    )
}

/// The polynomial that is one where `exp` is `val` and zero where it is
/// another number of `range`.
pub fn generate_lagrange_base_polynomial(exp: &Expr, val: u64, range: &Vec<u64>) -> (r: Expr)
    ensures
        r == lagrange_base(*exp, val as int, range@),
{
    let mut numerator = Expr::from_u64(1);
    let mut denominator = Fe::one();
    let mut i: usize = 0;
    while i < range.len()
        invariant
            i <= range@.len(),
            numerator == lagrange_numerator(*exp, val as int, range@.take(i as int)),
            denominator@ == lagrange_denominator(val as int, range@.take(i as int)),
        decreases range@.len() - i,
    {
        proof {
            assert(range@.take(i + 1).drop_last() == range@.take(i as int));
        }
        let x = range[i];
        if x != val {
            numerator = numerator.mul(exp.dup().sub(Expr::from_u64(x)));
            denominator = denominator.mul(&Fe::from_u64(val).sub(&Fe::from_u64(x)));
        }
        i = i + 1;
    }
    proof {
        assert(range@.take(i as int) == range@);
    }
    let inverse = denominator.invert_or_zero();
    proof {
        Fe::lemma_of_view(inverse);
    }
    numerator.scale(inverse)
}

/// The numbers of all kinds of target.
pub fn rw_table_tag_numbers() -> (r: Vec<u64>)
    ensures
        r@ == rw_table_tag_indices(10),
{
    let tags = RwTableTag::iter();
    let mut out: Vec<u64> = Vec::new();
    let mut i: usize = 0;
    while i < tags.len()
        invariant
            i <= tags@.len(),
            tags@ == rw_table_tags(),
            out@ == rw_table_tag_indices(i as nat),
        decreases tags@.len() - i,
    {
        out.push(tags[i].index());
        i = i + 1;
        proof {
            assert(out@ =~= rw_table_tag_indices(i as nat));
        }
    }
    out
}

/// The indicator of a kind of target.
pub open spec fn tag_matches(q: &Queries, tag: RwTableTag) -> Expr {
    lagrange_base(q.tag, tag.spec_index() as int, rw_table_tag_indices(10))
}

/// The product of the differences of the kind of the row from each of the
/// first `n` kinds that `targets` lacks.
pub open spec fn multi_tag_numerator(q: &Queries, targets: Seq<RwTableTag>, n: nat) -> Expr
    decreases n,
{
    if n == 0 {
        lit(1)
    } else {
        let rest = multi_tag_numerator(q, targets, (n - 1) as nat);
        let tag = rw_table_tags()[n - 1];
        if targets.contains(tag) {
            rest
        } else {
            times(rest, minus(q.tag, lit(tag.spec_index() as int)))
        }
    }
}

/// Whether the row is the first access to its target: its key differs from
/// that of the row before, in the upper limbs or in the storage key.
pub open spec fn first_access(q: &Queries) -> Expr {
    or_expr(
        seq![
            not_expr(q.lexicographic_ordering_upper_limb_difference_is_zero),
            not_expr(q.is_storage_key_unchanged),
        ],
    )
}

/// The sum of the first expression and of each of the `n` that follow it,
/// multiplied by its power of the randomness.
pub open spec fn rlc_expr(expressions: Seq<Expr>, powers: Seq<Expr>, n: nat) -> Expr
    decreases n,
{
    if n == 0 {
        expressions[0]
    } else {
        plus(
            rlc_expr(expressions, powers, (n - 1) as nat),
            times(expressions[n as int], powers[n - 1]),
        )
    }
}

/// The number of powers of the randomness that a fingerprint uses: one for
/// each expression after the first, as far as there are powers.
pub open spec fn rlc_terms(expressions: Seq<Expr>, powers: Seq<Expr>) -> nat {
    if expressions.len() - 1 <= powers.len() {
        (expressions.len() - 1) as nat
    } else {
        powers.len()
    }
}

/// The fingerprint of expressions: the first, and each that follows
/// multiplied by its power of the randomness.
pub fn rlc(expressions: &Vec<Expr>, power_of_randomness: &Vec<Expr>) -> (r: Expr)
    requires
        expressions@.len() > 0,
    ensures
        r == rlc_expr(
            expressions@,
            power_of_randomness@,
            rlc_terms(expressions@, power_of_randomness@),
        ),
{
    let n = if expressions.len() - 1 <= power_of_randomness.len() {
        expressions.len() - 1
    } else {
        power_of_randomness.len()
    };
    let mut acc = expressions[0].dup();
    let mut i: usize = 0;
    while i < n
        invariant
            i <= n,
            n < expressions@.len(),
            n <= power_of_randomness@.len(),
            acc == rlc_expr(expressions@, power_of_randomness@, i as nat),
        decreases n - i,
    {
        acc = acc.add(expressions[i + 1].dup().mul(power_of_randomness[i].dup()));
        i = i + 1;
    }
    acc
}

/// The number that digits spell in a base: each digit added to the product
/// of the base and what precedes it.
pub open spec fn digits_expr(digits: Seq<Expr>, base: Expr) -> Expr
    decreases digits.len(),
{
    if digits.len() == 0 {
        lit(0)
    } else {
        plus(digits.last(), times(digits_expr(digits.drop_last(), base), base))
    }
}

/// The number that digits spell in a base.
pub fn from_digits(digits: &Vec<Expr>, base: &Expr) -> (r: Expr)
    ensures
        r == digits_expr(digits@, *base),
{
    let mut acc = Expr::from_u64(0);
    let mut i: usize = 0;
    while i < digits.len()
        invariant
            i <= digits@.len(),
            acc == digits_expr(digits@.take(i as int), *base),
        decreases digits@.len() - i,
    {
        proof {
            assert(digits@.take(i + 1).drop_last() == digits@.take(i as int));
        }
        acc = digits[i].dup().add(acc.mul(base.dup()));
        i = i + 1;
    }
    proof {
        assert(digits@.take(i as int) == digits@);
    }
    acc
}

impl Queries {
    /// The selector of the rows of the table.
    pub fn selector(&self) -> (r: Expr)
        ensures
            r == self.selector,
    {
        self.selector.dup()
    }

    /// Whether the access is a write.
    pub fn is_write(&self) -> (r: Expr)
        ensures
            r == self.is_write,
    {
        self.is_write.dup()
    }

    /// Whether the access is a read.
    pub fn is_read(&self) -> (r: Expr)
        ensures
            r == not_expr(self.is_write),
    {
        not(self.is_write.dup())
    }

    /// The kind of target.
    pub fn tag(&self) -> (r: Expr)
        ensures
            r == self.tag,
    {
        self.tag.dup()
    }

    /// The id of the target.
    pub fn id(&self) -> (r: Expr)
        ensures
            r == self.id.value,
    {
        self.id.value.dup()
    }

    /// By how much the id differs from that of the row before.
    pub fn id_change(&self) -> (r: Expr)
        ensures
            r == minus(self.id.value, self.id.value_prev),
    {
        self.id().sub(self.id.value_prev.dup())
    }

    /// The field of the target.
    pub fn field_tag(&self) -> (r: Expr)
        ensures
            r == self.field_tag,
    {
        self.field_tag.dup()
    }

    /// The value that was read or written.
    pub fn value(&self) -> (r: Expr)
        ensures
            r == self.value,
    {
        self.value.dup()
    }

    /// The indicator of a kind of target.
    pub fn tag_matches(&self, tag: RwTableTag) -> (r: Expr)
        ensures
            r == tag_matches(self, tag),
    {
        generate_lagrange_base_polynomial(&self.tag, tag.index(), &rw_table_tag_numbers())
    }

    /// A polynomial that vanishes on the rows of every kind but those of
    /// `target_tags`.
    pub fn multi_tag_match(&self, target_tags: &Vec<RwTableTag>) -> (r: Expr)
        ensures
            r == multi_tag_numerator(self, target_tags@, 10),
    {
        let tags = RwTableTag::iter();
        let mut numerator = Expr::from_u64(1);
        let mut i: usize = 0;
        while i < tags.len()
            invariant
                i <= tags@.len(),
                tags@ == rw_table_tags(),
                numerator == multi_tag_numerator(self, target_tags@, i as nat),
            decreases tags@.len() - i,
        {
            let unmatched = tags[i];
            let mut found = false;
            let mut k: usize = 0;
            while k < target_tags.len()
                invariant
                    k <= target_tags@.len(),
                    found == target_tags@.take(k as int).contains(unmatched),
                decreases target_tags@.len() - k,
            {
                let hit = target_tags[k] == unmatched;
                proof {
                    let before = target_tags@.take(k as int);
                    let after = target_tags@.take(k + 1);
                    assert(after == before.push(target_tags@[k as int]));
                    if before.contains(unmatched) {
                        let w = choose|w: int| 0 <= w < before.len() && before[w] == unmatched;
                        assert(after[w] == unmatched);
                    }
                    if hit {
                        assert(after[k as int] == unmatched);
                    }
                    if after.contains(unmatched) && !hit {
                        let w = choose|w: int| 0 <= w < after.len() && after[w] == unmatched;
                        assert(before[w] == unmatched);
                    }
                }
                if hit {
                    found = true;
                }
                k = k + 1;
            }
            proof {
                assert(target_tags@.take(k as int) == target_tags@);
            }
            if !found {
                numerator = numerator.mul(self.tag.dup().sub(unmatched.expr()));
            }
            i = i + 1;
        }
        numerator
    }

    /// Whether the row is the first access to its target.
    pub fn first_access(&self) -> (r: Expr)
        ensures
            r == first_access(self),
    {
        or(
            &vec![
                not(self.lexicographic_ordering_upper_limb_difference_is_zero.dup()),
                not(self.is_storage_key_unchanged.dup()),
            ],
        )
    }

    /// By how much the address differs from that of the row before.
    pub fn address_change(&self) -> (r: Expr)
        ensures
            r == minus(self.address.value, self.address.value_prev),
    {
        self.address.value.dup().sub(self.address.value_prev.dup())
    }
}

/// The value that a row has for "before": zero, the committed value or its
/// own previous value on the first access to the target, according to the
/// kind of the target, and the value of the row before on any other access.
///
/// Open dependency: on the first access to an account the row's own
/// previous value stands for "before", and on the first access to a storage
/// slot the committed value that the row itself carries does. No constraint
/// of this circuit ties either to the state trie, so on a first access the
/// value "before" is whatever the prover writes. The link to a proof of the
/// state trie is not part of this circuit and is still to be made.
pub open spec fn prev_value(q: &Queries) -> Expr {
    plus(
        plus(
            times(
                plus(
                    plus(
                        plus(
                            tag_matches(q, RwTableTag::TxAccessListAccount),
                            tag_matches(q, RwTableTag::TxAccessListAccountStorage),
                        ),
                        tag_matches(q, RwTableTag::AccountDestructed),
                    ),
                    tag_matches(q, RwTableTag::TxRefund),
                ),
                select_expr(first_access(q), lit(0), q.value_at_prev_rotation),
            ),
            times(
                tag_matches(q, RwTableTag::Account),
                select_expr(first_access(q), q.value_prev, q.value_at_prev_rotation),
            ),
        ),
        times(
            tag_matches(q, RwTableTag::AccountStorage),
            select_expr(first_access(q), q.aux2, q.value_at_prev_rotation),
        ),
    )
}

/// The cells of a row that its fingerprint is made of.
pub open spec fn rw_cells(q: &Queries) -> Seq<Expr> {
    seq![
        q.rw_counter.value,
        q.is_write,
        q.tag,
        q.id.value,
        q.address.value,
        q.field_tag,
        q.storage_key.encoded,
        q.value,
        q.value_prev,
        lit(0),
        q.aux2,
    ]
}

/// Of every row: its kind is one of the kinds of target; whether it is a
/// write is a boolean; its previous value is what `prev_value` says; and its
/// fingerprint is that of its cells.
pub open spec fn general_constraints(condition: Expr, q: &Queries) -> Seq<Constraint> {
    seq![
        ("tag in RwTableTag range", times(condition, in_set_poly(q.tag, rw_table_tag_exprs()))),
        ("is_write is boolean", times(condition, boolean_poly(q.is_write))),
        ("prev value", times(condition, minus(q.value_prev, prev_value(q)))),
        (
            "rw table rlc",
            times(
                condition,
                minus(
                    q.rw_rlc,
                    rlc_expr(
                        rw_cells(q),
                        q.power_of_randomness@,
                        rlc_terms(rw_cells(q), q.power_of_randomness@),
                    ),
                ),
            ),
        ),
    ]
}

/// That each limb of the address from the place 2 up to the place `n` is
/// zero.
pub open spec fn limb_constraints(condition: Expr, q: &Queries, n: nat) -> Seq<Constraint>
    decreases n,
{
    if n <= 2 {
        Seq::empty()
    } else {
        limb_constraints(condition, q, (n - 1) as nat).push(
            ("memory address fits into 2 limbs", times(condition, q.address.limbs@[n - 1])),
        )
    }
}

/// Of the memory: it has no field and no storage key, and what is read
/// before anything was written is zero.
pub open spec fn memory_cell_constraints(condition: Expr, q: &Queries) -> Seq<Constraint> {
    seq![
        ("field_tag is 0 for Memory", times(condition, q.field_tag)),
        ("storage_key is 0 for Memory", times(condition, q.storage_key.encoded)),
        (
            "read from a fresh key is 0",
            times(condition, times(times(first_access(q), not_expr(q.is_write)), q.value)),
        ),
    ]
}

/// Of the memory: what `memory_cell_constraints` says, and its address fits
/// two limbs.
pub open spec fn memory_constraints(condition: Expr, q: &Queries) -> Seq<Constraint> {
    memory_cell_constraints(condition, q) + limb_constraints(
        condition,
        q,
        q.address.limbs@.len(),
    )
}

/// Of the memory: its value is a byte.
pub open spec fn memory_lookups(condition: Expr, q: &Queries) -> Seq<Lookup> {
    seq![("memory value is a byte", (times(q.value, condition), q.lookups.u8))]
}

/// The first row of the table carries the counter zero.
pub open spec fn start_constraints(condition: Expr, q: &Queries) -> Seq<Constraint> {
    seq![
        ("rw_counter is 0 for Start", times(condition, q.rw_counter.value)),
    ]
}

/// The lookups that go with `start_constraints`.
pub open spec fn start_lookups(condition: Expr, q: &Queries) -> Seq<Lookup> {
    Seq::empty()
}

/// Of the stack: it has no field and no storage key; its first access is a write; its
/// address fits ten bits and rises by at most one within a call; and before its first access
/// its value was zero.
pub open spec fn stack_constraints(condition: Expr, q: &Queries) -> Seq<Constraint> {
    seq![
        ("field_tag is 0 for Stack", times(condition, q.field_tag)),
        ("storage_key is 0 for Stack", times(condition, q.storage_key.encoded)),
        (
            "first access to new stack address is a write",
            times(condition, times(first_access(q), minus(lit(1), q.is_write))),
        ),
        (
            "if call id is the same, address change is 0 or 1",
            times(
                times(condition, q.is_id_unchanged),
                boolean_poly(minus(q.address.value, q.address.value_prev)),
            ),
        ),
        (
            "prev_value is 0 when keys changed",
            times(condition, times(first_access(q), q.value_prev)),
        ),
    ]
}

/// The lookups that go with `stack_constraints`.
pub open spec fn stack_lookups(condition: Expr, q: &Queries) -> Seq<Lookup> {
    seq![
        ("stack address fits into 10 bits", (times(q.address.value, condition), q.lookups.u10)),
    ]
}

/// Of the storage of an account: it has no field.
pub open spec fn account_storage_constraints(condition: Expr, q: &Queries) -> Seq<Constraint> {
    seq![
        ("field_tag is 0 for AccountStorage", times(condition, q.field_tag)),
    ]
}

/// The lookups that go with `account_storage_constraints`.
pub open spec fn account_storage_lookups(condition: Expr, q: &Queries) -> Seq<Lookup> {
    Seq::empty()
}

/// Of the accounts that a transaction has accessed: they have no field and no storage key,
/// and before their first access their value was zero.
pub open spec fn tx_access_list_account_constraints(condition: Expr, q: &Queries) -> Seq<Constraint> {
    seq![
        ("field_tag is 0 for TxAccessListAccount", times(condition, q.field_tag)),
        ("storage_key is 0 for TxAccessListAccount", times(condition, q.storage_key.encoded)),
        (
            "prev_value is 0 when keys changed",
            times(condition, times(first_access(q), q.value_prev)),
        ),
    ]
}

/// The lookups that go with `tx_access_list_account_constraints`.
pub open spec fn tx_access_list_account_lookups(condition: Expr, q: &Queries) -> Seq<Lookup> {
    Seq::empty()
}

/// Of the storage that a transaction has accessed: it has no field, and before its first
/// access its value was zero.
pub open spec fn tx_access_list_account_storage_constraints(condition: Expr, q: &Queries) -> Seq<Constraint> {
    seq![
        ("field_tag is 0 for TxAccessListAccountStorage", times(condition, q.field_tag)),
        (
            "prev_value is 0 when keys changed",
            times(condition, times(first_access(q), q.value_prev)),
        ),
    ]
}

/// The lookups that go with `tx_access_list_account_storage_constraints`.
pub open spec fn tx_access_list_account_storage_lookups(condition: Expr, q: &Queries) -> Seq<Lookup> {
    Seq::empty()
}

/// Of the refund of a transaction: it has no address, no field and no storage key, and
/// before its first access its value was zero.
pub open spec fn tx_refund_constraints(condition: Expr, q: &Queries) -> Seq<Constraint> {
    seq![
        ("address is 0 for TxRefund", times(condition, q.address.value)),
        ("field_tag is 0 for TxRefund", times(condition, q.field_tag)),
        ("storage_key is 0 for TxRefund", times(condition, q.storage_key.encoded)),
        (
            "prev_value is 0 when keys changed",
            times(condition, times(first_access(q), q.value_prev)),
        ),
    ]
}

/// The lookups that go with `tx_refund_constraints`.
pub open spec fn tx_refund_lookups(condition: Expr, q: &Queries) -> Seq<Lookup> {
    Seq::empty()
}

/// Of an account: it has no id and no storage key, and its field is one of the fields of an
/// account.
pub open spec fn account_constraints(condition: Expr, q: &Queries) -> Seq<Constraint> {
    seq![
        ("id is 0 for Account", times(condition, q.id.value)),
        ("storage_key is 0 for Account", times(condition, q.storage_key.encoded)),
        (
            "field_tag in AccountFieldTag range",
            times(condition, in_set_poly(q.field_tag, account_field_tag_exprs())),
        ),
    ]
}

/// The lookups that go with `account_constraints`.
pub open spec fn account_lookups(condition: Expr, q: &Queries) -> Seq<Lookup> {
    Seq::empty()
}

/// Of the destruction of an account: it has no id, no field and no storage key.
pub open spec fn account_destructed_constraints(condition: Expr, q: &Queries) -> Seq<Constraint> {
    seq![
        ("id is 0 for AccountDestructed", times(condition, q.id.value)),
        ("field_tag is 0 for AccountDestructed", times(condition, q.field_tag)),
        ("storage_key is 0 for AccountDestructed", times(condition, q.storage_key.encoded)),
    ]
}

/// The lookups that go with `account_destructed_constraints`.
pub open spec fn account_destructed_lookups(condition: Expr, q: &Queries) -> Seq<Lookup> {
    Seq::empty()
}

/// Of the context of a call: it has no address and no storage key, and its field is one of
/// the fields of a call context.
pub open spec fn call_context_constraints(condition: Expr, q: &Queries) -> Seq<Constraint> {
    seq![
        ("address is 0 for CallContext", times(condition, q.address.value)),
        ("storage_key is 0 for CallContext", times(condition, q.storage_key.encoded)),
    ]
}

/// The lookups that go with `call_context_constraints`.
pub open spec fn call_context_lookups(condition: Expr, q: &Queries) -> Seq<Lookup> {
    seq![
        (
            "field_tag in CallContextFieldTag range",
            (times(q.field_tag, condition), q.lookups.call_context_field_tag),
        ),
    ]
}

/// The condition under which the constraints of a kind of target hold.
pub open spec fn on(q: &Queries, tag: RwTableTag) -> Expr {
    times(lit(1), tag_matches(q, tag))
}

/// The constraints of the state circuit: those of every row, then those of
/// each kind of target.
pub open spec fn state_constraints(q: &Queries) -> Seq<Constraint> {
    general_constraints(lit(1), q) + start_constraints(on(q, RwTableTag::Start), q)
        + memory_constraints(on(q, RwTableTag::Memory), q) + stack_constraints(
        on(q, RwTableTag::Stack),
        q,
    ) + account_storage_constraints(on(q, RwTableTag::AccountStorage), q)
        + tx_access_list_account_constraints(on(q, RwTableTag::TxAccessListAccount), q)
        + tx_access_list_account_storage_constraints(
        on(q, RwTableTag::TxAccessListAccountStorage),
        q,
    ) + tx_refund_constraints(on(q, RwTableTag::TxRefund), q) + account_constraints(
        on(q, RwTableTag::Account),
        q,
    ) + account_destructed_constraints(on(q, RwTableTag::AccountDestructed), q)
        + call_context_constraints(on(q, RwTableTag::CallContext), q)
}

/// The lookups of the state circuit.
pub open spec fn state_lookups(q: &Queries) -> Seq<Lookup> {
    start_lookups(on(q, RwTableTag::Start), q) + memory_lookups(on(q, RwTableTag::Memory), q)
        + stack_lookups(on(q, RwTableTag::Stack), q) + account_storage_lookups(
        on(q, RwTableTag::AccountStorage),
        q,
    ) + tx_access_list_account_lookups(on(q, RwTableTag::TxAccessListAccount), q)
        + tx_access_list_account_storage_lookups(
        on(q, RwTableTag::TxAccessListAccountStorage),
        q,
    ) + tx_refund_lookups(on(q, RwTableTag::TxRefund), q) + account_lookups(
        on(q, RwTableTag::Account),
        q,
    ) + account_destructed_lookups(on(q, RwTableTag::AccountDestructed), q)
        + call_context_lookups(on(q, RwTableTag::CallContext), q)
}

impl ConstraintBuilder {
    /// Adds the constraints and the lookups of the state circuit.
    pub fn build(&mut self, q: &Queries)
        ensures
            final(self).constraints@ == old(self).constraints@ + state_constraints(q),
            final(self).lookups@ == old(self).lookups@ + state_lookups(q),
    {
        let root = Scope::root();
        self.build_general_constraints(&root, q);
        let start = root.nest(q.tag_matches(RwTableTag::Start));
        self.build_start_constraints(&start, q);
        let memory = root.nest(q.tag_matches(RwTableTag::Memory));
        self.build_memory_constraints(&memory, q);
        let stack = root.nest(q.tag_matches(RwTableTag::Stack));
        self.build_stack_constraints(&stack, q);
        let account_storage = root.nest(q.tag_matches(RwTableTag::AccountStorage));
        self.build_account_storage_constraints(&account_storage, q);
        let tx_access_list_account = root.nest(q.tag_matches(RwTableTag::TxAccessListAccount));
        self.build_tx_access_list_account_constraints(&tx_access_list_account, q);
        let tx_access_list_account_storage = root.nest(
            q.tag_matches(RwTableTag::TxAccessListAccountStorage),
        );
        self.build_tx_access_list_account_storage_constraints(&tx_access_list_account_storage, q);
        let tx_refund = root.nest(q.tag_matches(RwTableTag::TxRefund));
        self.build_tx_refund_constraints(&tx_refund, q);
        let account = root.nest(q.tag_matches(RwTableTag::Account));
        self.build_account_constraints(&account, q);
        let account_destructed = root.nest(q.tag_matches(RwTableTag::AccountDestructed));
        self.build_account_destructed_constraints(&account_destructed, q);
        let call_context = root.nest(q.tag_matches(RwTableTag::CallContext));
        self.build_call_context_constraints(&call_context, q);
        proof {
            assert(self.constraints@ =~= old(self).constraints@ + state_constraints(q));
            assert(self.lookups@ =~= old(self).lookups@ + state_lookups(q));
        }
    }

    /// Adds `general_constraints` under the scope.
    pub fn build_general_constraints(&mut self, scope: &Scope, q: &Queries)
        ensures
            final(self).constraints@ == old(self).constraints@ + general_constraints(
                scope.condition,
                q,
            ),
            final(self).lookups@ == old(self).lookups@,
    {
        self.require_in_set(scope, "tag in RwTableTag range", q.tag(), &rw_table_tag_set());
        self.require_boolean(scope, "is_write is boolean", q.is_write());
        let untouched = q.tag_matches(RwTableTag::TxAccessListAccount).add(
            q.tag_matches(RwTableTag::TxAccessListAccountStorage),
        ).add(q.tag_matches(RwTableTag::AccountDestructed)).add(
            q.tag_matches(RwTableTag::TxRefund),
        );
        let before = untouched.mul(
            select(q.first_access(), Expr::from_u64(0), q.value_at_prev_rotation.dup()),
        ).add(
            q.tag_matches(RwTableTag::Account).mul(
                select(q.first_access(), q.value_prev.dup(), q.value_at_prev_rotation.dup()),
            ),
        ).add(
            q.tag_matches(RwTableTag::AccountStorage).mul(
                select(q.first_access(), q.aux2.dup(), q.value_at_prev_rotation.dup()),
            ),
        );
        self.require_equal(scope, "prev value", q.value_prev.dup(), before);
        let cells = vec![
            q.rw_counter.value.dup(),
            q.is_write.dup(),
            q.tag.dup(),
            q.id.value.dup(),
            q.address.value.dup(),
            q.field_tag.dup(),
            q.storage_key.encoded.dup(),
            q.value.dup(),
            q.value_prev.dup(),
            Expr::from_u64(0),
            q.aux2.dup(),
        ];
        proof {
            assert(cells@ =~= rw_cells(q));
        }
        self.require_equal(scope, "rw table rlc", q.rw_rlc.dup(), rlc(&cells, &q.power_of_randomness));
        proof {
            assert(self.constraints@ =~= old(self).constraints@ + general_constraints(
                scope.condition,
                q,
            ));
        }
    }

    /// Adds `memory_constraints` and `memory_lookups` under the scope.
    pub fn build_memory_constraints(&mut self, scope: &Scope, q: &Queries)
        ensures
            final(self).constraints@ == old(self).constraints@ + memory_constraints(
                scope.condition,
                q,
            ),
            final(self).lookups@ == old(self).lookups@ + memory_lookups(scope.condition, q),
    {
        self.require_zero(scope, "field_tag is 0 for Memory", q.field_tag());
        self.require_zero(scope, "storage_key is 0 for Memory", q.storage_key.encoded.dup());
        self.require_zero(
            scope,
            "read from a fresh key is 0",
            q.first_access().mul(q.is_read()).mul(q.value()),
        );
        let ghost fixed = self.constraints@;
        let n = q.address.limbs.len();
        let mut i: usize = 2;
        proof {
            assert(fixed =~= old(self).constraints@ + memory_cell_constraints(scope.condition, q));
            assert(self.constraints@ =~= fixed + limb_constraints(scope.condition, q, 2));
        }
        while i < n
            invariant
                2 <= i,
                i <= n || (n < 2 && i == 2),
                n == q.address.limbs@.len(),
                self.lookups@ == old(self).lookups@,
                self.constraints@ == fixed + limb_constraints(scope.condition, q, i as nat),
            decreases n - i,
        {
            self.require_zero(scope, "memory address fits into 2 limbs", q.address.limbs[i].dup());
            i = i + 1;
            proof {
                assert(self.constraints@ =~= fixed + limb_constraints(
                    scope.condition,
                    q,
                    i as nat,
                ));
            }
        }
        self.add_lookup(scope, "memory value is a byte", (q.value.dup(), q.lookups.u8.dup()));
        proof {
            let limbs = limb_constraints(scope.condition, q, n as nat);
            let cells = memory_cell_constraints(scope.condition, q);
            if n < 2 {
                assert(limbs =~= limb_constraints(scope.condition, q, 2));
            }
            assert(limb_constraints(scope.condition, q, i as nat) == limbs);
            assert(self.constraints@ == fixed + limbs);
            assert((old(self).constraints@ + cells) + limbs =~= old(self).constraints@ + (cells
                + limbs));
            assert(self.constraints@ =~= old(self).constraints@ + memory_constraints(
                scope.condition,
                q,
            ));
            assert(self.lookups@ =~= old(self).lookups@ + memory_lookups(scope.condition, q));
        }
    }

    /// Adds `start_constraints` and `start_lookups` under the scope.
    pub fn build_start_constraints(&mut self, scope: &Scope, q: &Queries)
        ensures
            final(self).constraints@ == old(self).constraints@ + start_constraints(
                scope.condition,
                q,
            ),
            final(self).lookups@ == old(self).lookups@ + start_lookups(scope.condition, q),
    {
        self.require_zero(scope, "rw_counter is 0 for Start", q.rw_counter.value.dup());
        proof {
            assert(self.constraints@ =~= old(self).constraints@ + start_constraints(
                scope.condition,
                q,
            ));
            assert(self.lookups@ =~= old(self).lookups@ + start_lookups(scope.condition, q));
        }
    }

    /// Adds `stack_constraints` and `stack_lookups` under the scope.
    pub fn build_stack_constraints(&mut self, scope: &Scope, q: &Queries)
        ensures
            final(self).constraints@ == old(self).constraints@ + stack_constraints(
                scope.condition,
                q,
            ),
            final(self).lookups@ == old(self).lookups@ + stack_lookups(scope.condition, q),
    {
        self.require_zero(scope, "field_tag is 0 for Stack", q.field_tag.dup());
        self.require_zero(scope, "storage_key is 0 for Stack", q.storage_key.encoded.dup());
        self.require_zero(
            scope,
            "first access to new stack address is a write",
            q.first_access().mul(Expr::from_u64(1).sub(q.is_write.dup())),
        );
        self.add_lookup(
            scope,
            "stack address fits into 10 bits",
            (q.address.value.dup(), q.lookups.u10.dup()),
        );
        let inner1 = scope.nest(q.is_id_unchanged.dup());
        self.require_boolean(
            &inner1,
            "if call id is the same, address change is 0 or 1",
            q.address_change(),
        );
        self.require_zero(
            scope,
            "prev_value is 0 when keys changed",
            q.first_access().mul(q.value_prev.dup()),
        );
        proof {
            assert(self.constraints@ =~= old(self).constraints@ + stack_constraints(
                scope.condition,
                q,
            ));
            assert(self.lookups@ =~= old(self).lookups@ + stack_lookups(scope.condition, q));
        }
    }

    /// Adds `account_storage_constraints` and `account_storage_lookups` under the scope.
    pub fn build_account_storage_constraints(&mut self, scope: &Scope, q: &Queries)
        ensures
            final(self).constraints@ == old(self).constraints@ + account_storage_constraints(
                scope.condition,
                q,
            ),
            final(self).lookups@ == old(self).lookups@ + account_storage_lookups(scope.condition, q),
    {
        self.require_zero(scope, "field_tag is 0 for AccountStorage", q.field_tag.dup());
        proof {
            assert(self.constraints@ =~= old(self).constraints@ + account_storage_constraints(
                scope.condition,
                q,
            ));
            assert(self.lookups@ =~= old(self).lookups@ + account_storage_lookups(scope.condition, q));
        }
    }

    /// Adds `tx_access_list_account_constraints` and `tx_access_list_account_lookups` under the scope.
    pub fn build_tx_access_list_account_constraints(&mut self, scope: &Scope, q: &Queries)
        ensures
            final(self).constraints@ == old(self).constraints@ + tx_access_list_account_constraints(
                scope.condition,
                q,
            ),
            final(self).lookups@ == old(self).lookups@ + tx_access_list_account_lookups(scope.condition, q),
    {
        self.require_zero(scope, "field_tag is 0 for TxAccessListAccount", q.field_tag.dup());
        self.require_zero(
            scope,
            "storage_key is 0 for TxAccessListAccount",
            q.storage_key.encoded.dup(),
        );
        self.require_zero(
            scope,
            "prev_value is 0 when keys changed",
            q.first_access().mul(q.value_prev.dup()),
        );
        proof {
            assert(self.constraints@ =~= old(self).constraints@ + tx_access_list_account_constraints(
                scope.condition,
                q,
            ));
            assert(self.lookups@ =~= old(self).lookups@ + tx_access_list_account_lookups(scope.condition, q));
        }
    }

    /// Adds `tx_access_list_account_storage_constraints` and `tx_access_list_account_storage_lookups` under the scope.
    pub fn build_tx_access_list_account_storage_constraints(&mut self, scope: &Scope, q: &Queries)
        ensures
            final(self).constraints@ == old(self).constraints@ + tx_access_list_account_storage_constraints(
                scope.condition,
                q,
            ),
            final(self).lookups@ == old(self).lookups@ + tx_access_list_account_storage_lookups(scope.condition, q),
    {
        self.require_zero(
            scope,
            "field_tag is 0 for TxAccessListAccountStorage",
            q.field_tag.dup(),
        );
        self.require_zero(
            scope,
            "prev_value is 0 when keys changed",
            q.first_access().mul(q.value_prev.dup()),
        );
        proof {
            assert(self.constraints@ =~= old(self).constraints@ + tx_access_list_account_storage_constraints(
                scope.condition,
                q,
            ));
            assert(self.lookups@ =~= old(self).lookups@ + tx_access_list_account_storage_lookups(scope.condition, q));
        }
    }

    /// Adds `tx_refund_constraints` and `tx_refund_lookups` under the scope.
    pub fn build_tx_refund_constraints(&mut self, scope: &Scope, q: &Queries)
        ensures
            final(self).constraints@ == old(self).constraints@ + tx_refund_constraints(
                scope.condition,
                q,
            ),
            final(self).lookups@ == old(self).lookups@ + tx_refund_lookups(scope.condition, q),
    {
        self.require_zero(scope, "address is 0 for TxRefund", q.address.value.dup());
        self.require_zero(scope, "field_tag is 0 for TxRefund", q.field_tag.dup());
        self.require_zero(scope, "storage_key is 0 for TxRefund", q.storage_key.encoded.dup());
        self.require_zero(
            scope,
            "prev_value is 0 when keys changed",
            q.first_access().mul(q.value_prev.dup()),
        );
        proof {
            assert(self.constraints@ =~= old(self).constraints@ + tx_refund_constraints(
                scope.condition,
                q,
            ));
            assert(self.lookups@ =~= old(self).lookups@ + tx_refund_lookups(scope.condition, q));
        }
    }

    /// Adds `account_constraints` and `account_lookups` under the scope.
    pub fn build_account_constraints(&mut self, scope: &Scope, q: &Queries)
        ensures
            final(self).constraints@ == old(self).constraints@ + account_constraints(
                scope.condition,
                q,
            ),
            final(self).lookups@ == old(self).lookups@ + account_lookups(scope.condition, q),
    {
        self.require_zero(scope, "id is 0 for Account", q.id.value.dup());
        self.require_zero(scope, "storage_key is 0 for Account", q.storage_key.encoded.dup());
        self.require_in_set(
            scope,
            "field_tag in AccountFieldTag range",
            q.field_tag.dup(),
            &account_field_tag_set(),
        );
        proof {
            assert(self.constraints@ =~= old(self).constraints@ + account_constraints(
                scope.condition,
                q,
            ));
            assert(self.lookups@ =~= old(self).lookups@ + account_lookups(scope.condition, q));
        }
    }

    /// Adds `account_destructed_constraints` and `account_destructed_lookups` under the scope.
    pub fn build_account_destructed_constraints(&mut self, scope: &Scope, q: &Queries)
        ensures
            final(self).constraints@ == old(self).constraints@ + account_destructed_constraints(
                scope.condition,
                q,
            ),
            final(self).lookups@ == old(self).lookups@ + account_destructed_lookups(scope.condition, q),
    {
        self.require_zero(scope, "id is 0 for AccountDestructed", q.id.value.dup());
        self.require_zero(scope, "field_tag is 0 for AccountDestructed", q.field_tag.dup());
        self.require_zero(
            scope,
            "storage_key is 0 for AccountDestructed",
            q.storage_key.encoded.dup(),
        );
        proof {
            assert(self.constraints@ =~= old(self).constraints@ + account_destructed_constraints(
                scope.condition,
                q,
            ));
            assert(self.lookups@ =~= old(self).lookups@ + account_destructed_lookups(scope.condition, q));
        }
    }

    /// Adds `call_context_constraints` and `call_context_lookups` under the scope.
    pub fn build_call_context_constraints(&mut self, scope: &Scope, q: &Queries)
        ensures
            final(self).constraints@ == old(self).constraints@ + call_context_constraints(
                scope.condition,
                q,
            ),
            final(self).lookups@ == old(self).lookups@ + call_context_lookups(scope.condition, q),
    {
        self.require_zero(scope, "address is 0 for CallContext", q.address.value.dup());
        self.require_zero(scope, "storage_key is 0 for CallContext", q.storage_key.encoded.dup());
        self.add_lookup(
            scope,
            "field_tag in CallContextFieldTag range",
            (q.field_tag.dup(), q.lookups.call_context_field_tag.dup()),
        );
        proof {
            assert(self.constraints@ =~= old(self).constraints@ + call_context_constraints(
                scope.condition,
                q,
            ));
            assert(self.lookups@ =~= old(self).lookups@ + call_context_lookups(scope.condition, q));
        }
    }
}

} // verus!
