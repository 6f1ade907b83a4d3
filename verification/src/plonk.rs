//! Constraint systems, the tables they speak of, and the test whether a table
//! satisfies a constraint system.
//!
//! A constraint system is a list of gates, each a list of polynomials that
//! have to vanish on every row; a list of lookups into tables that the rows
//! themselves spell out; and a list of range checks, which are lookups into
//! the fixed table of all values below a bound.

use crate::expr::capped;
use crate::expr::degree;
use crate::expr::eval;
use crate::expr::table_view;
use crate::expr::values_view;
use crate::expr::Column;
use crate::expr::Constraint;
use crate::expr::Expr;
use crate::field::Fe;
use vstd::prelude::*;

verus! {

/// A named list of polynomials that vanish together.
pub struct Gate {
    pub name: &'static str,
    pub polys: Vec<Constraint>,
}

/// A lookup of a tuple of inputs into the rows of a tuple of table
/// expressions.
pub struct LookupAny {
    pub name: &'static str,
    pub pairs: Vec<(Expr, Expr)>,
}

/// The fixed table of the values below `bound`.
#[derive(Clone, Copy, Debug, PartialEq, Eq, Structural)]
pub struct RangeTable {
    pub bound: u64,
}

/// A lookup of one input into a range table.
pub struct RangeLookup {
    pub name: &'static str,
    pub input: Expr,
    pub table: RangeTable,
}

/// Where a table fails a constraint system.
#[derive(Clone, Copy, Debug, PartialEq, Eq, Structural)]
pub enum VerifyFailure {
    /// A polynomial of a gate does not vanish on a row.
    Gate { gate: usize, poly: usize, row: usize },
    /// The inputs of a lookup on a row occur on no row of its table.
    Lookup { lookup: usize, row: usize },
    /// The input of a range check on a row is not below the bound.
    Range { range: usize, row: usize },
}

/// The columns, gates and lookups of a circuit.
pub struct ConstraintSystem {
    pub num_columns: usize,
    pub gates: Vec<Gate>,
    pub lookups: Vec<LookupAny>,
    pub ranges: Vec<RangeLookup>,
    pub minimum_rows: usize,
}

/// A table under construction: rows of `width` cells each. A row that has
/// never been written holds zeros.
pub struct Region {
    pub rows: Vec<Vec<Fe>>,
    pub width: usize,
}

/// A gate as a name and a sequence of polynomials.
pub type GateView = (&'static str, Seq<Constraint>);

/// A lookup as a name and a sequence of pairs.
pub type LookupView = (&'static str, Seq<(Expr, Expr)>);

/// A constraint system as sequences.
pub struct ConstraintSystemView {
    pub num_columns: nat,
    pub gates: Seq<GateView>,
    pub lookups: Seq<LookupView>,
    pub ranges: Seq<RangeLookup>,
    pub minimum_rows: nat,
}

/// The gates as names and sequences.
pub open spec fn gates_view(gates: Seq<Gate>) -> Seq<GateView> {
    Seq::new(gates.len(), |i: int| (gates[i].name, gates[i].polys@))
}

/// The lookups as names and sequences.
pub open spec fn lookups_view(lookups: Seq<LookupAny>) -> Seq<LookupView> {
    Seq::new(lookups.len(), |i: int| (lookups[i].name, lookups[i].pairs@))
}

impl View for ConstraintSystem {
    type V = ConstraintSystemView;

    open spec fn view(&self) -> ConstraintSystemView {
        ConstraintSystemView {
            num_columns: self.num_columns as nat,
            gates: gates_view(self.gates@),
            lookups: lookups_view(self.lookups@),
            ranges: self.ranges@,
            minimum_rows: self.minimum_rows as nat,
        }
    }
}

/// A row of zeros.
pub open spec fn zero_row(width: nat) -> Seq<int> {
    Seq::new(width, |j: int| 0int)
}

/// The table `t`, lengthened by rows of zeros to `n` rows where it has
/// fewer.
pub open spec fn extended(t: Seq<Seq<int>>, width: nat, n: nat) -> Seq<Seq<int>> {
    Seq::new(
        if t.len() >= n {
            t.len()
        } else {
            n
        },
        |i: int|
            if i < t.len() {
                t[i]
            } else {
                zero_row(width)
            },
    )
}

/// The table `t` after the cell at `offset`, `column` was set to `v`.
pub open spec fn assigned(t: Seq<Seq<int>>, width: nat, offset: nat, column: int, v: int) -> Seq<
    Seq<int>,
> {
    let e = extended(t, width, offset + 1);
    e.update(offset as int, e[offset as int].update(column, v))
}

/// The table `t` after the row at `offset` was replaced by `row`.
pub open spec fn with_row(t: Seq<Seq<int>>, width: nat, offset: nat, row: Seq<int>) -> Seq<
    Seq<int>,
> {
    extended(t, width, offset + 1).update(offset as int, row)
}

/// Every polynomial of the list vanishes on the row.
pub open spec fn polys_hold(
    polys: Seq<Constraint>,
    table: Seq<Seq<int>>,
    challenges: Seq<int>,
    row: int,
) -> bool {
    forall|k: int| 0 <= k < polys.len() ==> eval(#[trigger] polys[k].1, table, challenges, row) == 0
}

/// The inputs on `row` are the table expressions on `at`, up to the pair
/// `n`.
pub open spec fn pairs_match(
    pairs: Seq<(Expr, Expr)>,
    n: int,
    table: Seq<Seq<int>>,
    challenges: Seq<int>,
    row: int,
    at: int,
) -> bool {
    forall|k: int|
        0 <= k < n ==> eval(#[trigger] pairs[k].0, table, challenges, row) == eval(
            pairs[k].1,
            table,
            challenges,
            at,
        )
}

/// The inputs on `row` occur on some row of the table.
pub open spec fn lookup_holds(
    pairs: Seq<(Expr, Expr)>,
    table: Seq<Seq<int>>,
    challenges: Seq<int>,
    row: int,
) -> bool {
    exists|at: int|
        0 <= at < table.len() && #[trigger] pairs_match(
            pairs,
            pairs.len() as int,
            table,
            challenges,
            row,
            at,
        )
}

/// The input on `row` is below the bound.
pub open spec fn range_holds(
    input: Expr,
    bound: int,
    table: Seq<Seq<int>>,
    challenges: Seq<int>,
    row: int,
) -> bool {
    eval(input, table, challenges, row) < bound
}

/// Every gate holds on every row.
pub open spec fn gates_satisfied(
    gates: Seq<Gate>,
    table: Seq<Seq<int>>,
    challenges: Seq<int>,
) -> bool {
    forall|g: int, row: int|
        0 <= g < gates.len() && 0 <= row < table.len() ==> #[trigger] polys_hold(
            gates[g].polys@,
            table,
            challenges,
            row,
        )
}

/// Every lookup holds on every row.
pub open spec fn lookups_satisfied(
    lookups: Seq<LookupAny>,
    table: Seq<Seq<int>>,
    challenges: Seq<int>,
) -> bool {
    forall|l: int, row: int|
        0 <= l < lookups.len() && 0 <= row < table.len() ==> #[trigger] lookup_holds(
            lookups[l].pairs@,
            table,
            challenges,
            row,
        )
}

/// Every range check holds on every row.
pub open spec fn ranges_satisfied(
    ranges: Seq<RangeLookup>,
    table: Seq<Seq<int>>,
    challenges: Seq<int>,
) -> bool {
    forall|r: int, row: int|
        0 <= r < ranges.len() && 0 <= row < table.len() ==> #[trigger] range_holds(
            ranges[r].input,
            ranges[r].table.bound as int,
            table,
            challenges,
            row,
        )
}

impl ConstraintSystem {
    /// The table satisfies the constraint system.
    pub open spec fn satisfied(&self, table: Seq<Seq<int>>, challenges: Seq<int>) -> bool {
        &&& gates_satisfied(self.gates@, table, challenges)
        &&& lookups_satisfied(self.lookups@, table, challenges)
        &&& ranges_satisfied(self.ranges@, table, challenges)
    }

    /// A constraint system without columns, gates or lookups. The backend
    /// says how many rows it keeps for itself.
    pub fn new(minimum_rows: usize) -> (r: ConstraintSystem)
        ensures
            r@ == (ConstraintSystemView {
                num_columns: 0,
                gates: Seq::empty(),
                lookups: Seq::empty(),
                ranges: Seq::empty(),
                minimum_rows: minimum_rows as nat,
            }),
    {
        let r = ConstraintSystem {
            num_columns: 0,
            gates: Vec::new(),
            lookups: Vec::new(),
            ranges: Vec::new(),
            minimum_rows,
        };
        proof {
            assert(r@.gates =~= Seq::empty());
            assert(r@.lookups =~= Seq::empty());
            assert(r@.ranges =~= Seq::empty());
        }
        r
    }

    /// A new column that the prover fills in.
    pub fn advice_column(&mut self) -> (r: Column)
        requires
            old(self).num_columns < usize::MAX,
        ensures
            r == (Column { index: old(self).num_columns, fixed: false }),
            final(self)@ == (ConstraintSystemView {
                num_columns: old(self)@.num_columns + 1,
                ..old(self)@
            }),
    {
        let c = Column { index: self.num_columns, fixed: false };
        self.num_columns = self.num_columns + 1;
        c
    }

    /// A new column that the circuit fixes.
    pub fn fixed_column(&mut self) -> (r: Column)
        requires
            old(self).num_columns < usize::MAX,
        ensures
            r == (Column { index: old(self).num_columns, fixed: true }),
            final(self)@ == (ConstraintSystemView {
                num_columns: old(self)@.num_columns + 1,
                ..old(self)@
            }),
    {
        let c = Column { index: self.num_columns, fixed: true };
        self.num_columns = self.num_columns + 1;
        c
    }

    /// Adds a gate.
    pub fn create_gate(&mut self, name: &'static str, polys: Vec<Constraint>)
        ensures
            final(self)@ == (ConstraintSystemView {
                gates: old(self)@.gates.push((name, polys@)),
                ..old(self)@
            }),
    {
        self.gates.push(Gate { name, polys });
        proof {
            assert(self@.gates =~= old(self)@.gates.push((name, polys@)));
        }
    }

    /// Adds a lookup into a table that the rows spell out.
    pub fn lookup_any(&mut self, name: &'static str, pairs: Vec<(Expr, Expr)>)
        ensures
            final(self)@ == (ConstraintSystemView {
                lookups: old(self)@.lookups.push((name, pairs@)),
                ..old(self)@
            }),
    {
        self.lookups.push(LookupAny { name, pairs });
        proof {
            assert(self@.lookups =~= old(self)@.lookups.push((name, pairs@)));
        }
    }

    /// Adds a lookup into a range table.
    pub fn lookup(&mut self, name: &'static str, input: Expr, table: RangeTable)
        ensures
            final(self)@ == (ConstraintSystemView {
                ranges: old(self)@.ranges.push(RangeLookup { name, input, table }),
                ..old(self)@
            }),
    {
        self.ranges.push(RangeLookup { name, input, table });
    }

    /// The rows that the backend keeps for itself.
    pub fn minimum_rows(&self) -> (r: usize)
        ensures
            r == self.minimum_rows,
    {
        self.minimum_rows
    }
}

/// Whether every polynomial of a gate vanishes on every row; if not, the
/// first polynomial, and for it the first row, where one does not.
fn check_gate(polys: &Vec<Constraint>, rows: &Vec<Vec<Fe>>, challenges: &Vec<Fe>) -> (r: Option<
    (usize, usize),
>)
    ensures
        r is None <==> (forall|row: int|
            0 <= row < rows@.len() ==> #[trigger] polys_hold(
                polys@,
                table_view(rows@),
                values_view(challenges@),
                row,
            )),
        r matches Some((k, row)) ==> k < polys@.len() && row < rows@.len() && eval(
            polys@[k as int].1,
            table_view(rows@),
            values_view(challenges@),
            row as int,
        ) != 0,
{
    let ghost t = table_view(rows@);
    let ghost ch = values_view(challenges@);
    let mut k: usize = 0;
    while k < polys.len()
        invariant
            k <= polys.len(),
            t == table_view(rows@),
            ch == values_view(challenges@),
            forall|kk: int, row: int|
                0 <= kk < k && 0 <= row < rows@.len() ==> #[trigger] eval(
                    polys@[kk].1,
                    t,
                    ch,
                    row,
                ) == 0,
        decreases polys.len() - k,
    {
        let mut row: usize = 0;
        while row < rows.len()
            invariant
                k < polys.len(),
                row <= rows.len(),
                t == table_view(rows@),
                ch == values_view(challenges@),
                forall|kk: int, row: int|
                    0 <= kk < k && 0 <= row < rows@.len() ==> #[trigger] eval(
                        polys@[kk].1,
                        t,
                        ch,
                        row,
                    ) == 0,
                forall|rr: int| 0 <= rr < row ==> eval(polys@[k as int].1, t, ch, rr) == 0,
            decreases rows.len() - row,
        {
            let v = polys[k].1.evaluate(rows, challenges, row);
            if !v.is_zero() {
                proof {
                    assert(!polys_hold(polys@, t, ch, row as int));
                }
                return Some((k, row));
            }
            row = row + 1;
        }
        k = k + 1;
    }
    None
}

/// The values of the inputs of a lookup on a row.
fn lookup_inputs(pairs: &Vec<(Expr, Expr)>, rows: &Vec<Vec<Fe>>, challenges: &Vec<Fe>, row: usize) -> (r:
    Vec<Fe>)
    ensures
        r@.len() == pairs@.len(),
        forall|k: int|
            0 <= k < pairs@.len() ==> (#[trigger] r@[k])@ == eval(
                pairs@[k].0,
                table_view(rows@),
                values_view(challenges@),
                row as int,
            ),
{
    let mut out: Vec<Fe> = Vec::new();
    let mut k: usize = 0;
    while k < pairs.len()
        invariant
            k <= pairs.len(),
            out@.len() == k,
            forall|kk: int|
                0 <= kk < k ==> (#[trigger] out@[kk])@ == eval(
                    pairs@[kk].0,
                    table_view(rows@),
                    values_view(challenges@),
                    row as int,
                ),
        decreases pairs.len() - k,
    {
        let v = pairs[k].0.evaluate(rows, challenges, row);
        out.push(v);
        k = k + 1;
    }
    out
}

/// Whether the table expressions on the row `at` take the given values.
fn row_matches(
    pairs: &Vec<(Expr, Expr)>,
    inputs: &Vec<Fe>,
    rows: &Vec<Vec<Fe>>,
    challenges: &Vec<Fe>,
    at: usize,
) -> (r: bool)
    requires
        inputs@.len() == pairs@.len(),
    ensures
        r <==> (forall|k: int|
            0 <= k < pairs@.len() ==> (#[trigger] inputs@[k])@ == eval(
                pairs@[k].1,
                table_view(rows@),
                values_view(challenges@),
                at as int,
            )),
{
    let mut k: usize = 0;
    while k < pairs.len()
        invariant
            k <= pairs.len(),
            inputs@.len() == pairs@.len(),
            forall|kk: int|
                0 <= kk < k ==> (#[trigger] inputs@[kk])@ == eval(
                    pairs@[kk].1,
                    table_view(rows@),
                    values_view(challenges@),
                    at as int,
                ),
        decreases pairs.len() - k,
    {
        let v = pairs[k].1.evaluate(rows, challenges, at);
        let same = v == inputs[k];
        proof {
            Fe::lemma_view_injective(v, inputs@[k as int]);
        }
        if !same {
            return false;
        }
        k = k + 1;
    }
    true
}

/// Whether a lookup holds on every row; if not, the first row where it does
/// not.
fn check_lookup(pairs: &Vec<(Expr, Expr)>, rows: &Vec<Vec<Fe>>, challenges: &Vec<Fe>) -> (r: Option<
    usize,
>)
    ensures
        r is None <==> (forall|row: int|
            0 <= row < rows@.len() ==> #[trigger] lookup_holds(
                pairs@,
                table_view(rows@),
                values_view(challenges@),
                row,
            )),
        r matches Some(row) ==> row < rows@.len() && !lookup_holds(
            pairs@,
            table_view(rows@),
            values_view(challenges@),
            row as int,
        ),
{
    let ghost t = table_view(rows@);
    let ghost ch = values_view(challenges@);
    let mut row: usize = 0;
    while row < rows.len()
        invariant
            row <= rows.len(),
            t == table_view(rows@),
            ch == values_view(challenges@),
            forall|rr: int| 0 <= rr < row ==> #[trigger] lookup_holds(pairs@, t, ch, rr),
        decreases rows.len() - row,
    {
        let inputs = lookup_inputs(pairs, rows, challenges, row);
        let mut found = false;
        let mut at: usize = 0;
        while at < rows.len() && !found
            invariant
                at <= rows.len(),
                row < rows.len(),
                t == table_view(rows@),
                ch == values_view(challenges@),
                inputs@.len() == pairs@.len(),
                forall|k: int|
                    0 <= k < pairs@.len() ==> (#[trigger] inputs@[k])@ == eval(
                        pairs@[k].0,
                        t,
                        ch,
                        row as int,
                    ),
                found ==> lookup_holds(pairs@, t, ch, row as int),
                !found ==> forall|aa: int|
                    0 <= aa < at ==> !#[trigger] pairs_match(
                        pairs@,
                        pairs@.len() as int,
                        t,
                        ch,
                        row as int,
                        aa,
                    ),
            decreases rows.len() - at + (if found { 0int } else { 1int }),
        {
            if row_matches(pairs, &inputs, rows, challenges, at) {
                found = true;
                proof {
                    assert forall|k: int| 0 <= k < pairs@.len() implies eval(
                        #[trigger] pairs@[k].0,
                        t,
                        ch,
                        row as int,
                    ) == eval(pairs@[k].1, t, ch, at as int) by {
                        assert(inputs@[k]@ == eval(pairs@[k].0, t, ch, row as int));
                    }
                    assert(pairs_match(pairs@, pairs@.len() as int, t, ch, row as int, at as int));
                    assert(t.len() == rows@.len());
                }
            } else {
                proof {
                    if pairs_match(pairs@, pairs@.len() as int, t, ch, row as int, at as int) {
                        assert forall|k: int| 0 <= k < pairs@.len() implies (
                        #[trigger] inputs@[k])@ == eval(pairs@[k].1, t, ch, at as int) by {
                            assert(eval(pairs@[k].0, t, ch, row as int) == eval(
                                pairs@[k].1,
                                t,
                                ch,
                                at as int,
                            ));
                        }
                        assert(false);
                    }
                }
                at = at + 1;
            }
        }
        if !found {
            proof {
                assert(t.len() == rows@.len());
                assert(!lookup_holds(pairs@, t, ch, row as int));
            }
            return Some(row);
        }
        row = row + 1;
    }
    None
}

/// Whether a range check holds on every row; if not, the first row where it
/// does not.
fn check_range(input: &Expr, bound: u64, rows: &Vec<Vec<Fe>>, challenges: &Vec<Fe>) -> (r: Option<
    usize,
>)
    ensures
        r is None <==> (forall|row: int|
            0 <= row < rows@.len() ==> #[trigger] range_holds(
                *input,
                bound as int,
                table_view(rows@),
                values_view(challenges@),
                row,
            )),
        r matches Some(row) ==> row < rows@.len() && !range_holds(
            *input,
            bound as int,
            table_view(rows@),
            values_view(challenges@),
            row as int,
        ),
{
    let ghost t = table_view(rows@);
    let ghost ch = values_view(challenges@);
    let mut row: usize = 0;
    while row < rows.len()
        invariant
            row <= rows.len(),
            t == table_view(rows@),
            ch == values_view(challenges@),
            forall|rr: int| 0 <= rr < row ==> #[trigger] range_holds(*input, bound as int, t, ch, rr),
        decreases rows.len() - row,
    {
        let v = input.evaluate(rows, challenges, row);
        let ok = match v.to_u64() {
            Some(x) => x < bound,
            None => false,
        };
        if !ok {
            proof {
                assert(!range_holds(*input, bound as int, t, ch, row as int));
            }
            return Some(row);
        }
        row = row + 1;
    }
    None
}

impl ConstraintSystem {
    /// Checks the table against every gate, then every lookup, then every
    /// range check. The table passes exactly if it satisfies the constraint
    /// system; otherwise the failure names a polynomial, lookup or range
    /// check and a row on which it fails, and a failure of a later kind
    /// means that the earlier kinds all hold.
    pub fn verify(&self, rows: &Vec<Vec<Fe>>, challenges: &Vec<Fe>) -> (r: Result<
        (),
        VerifyFailure,
    >)
        ensures
            r is Ok <==> self.satisfied(table_view(rows@), values_view(challenges@)),
            r matches Err(VerifyFailure::Gate { gate, poly, row }) ==> gate < self.gates@.len()
                && poly < self.gates@[gate as int].polys@.len() && row < rows@.len() && eval(
                self.gates@[gate as int].polys@[poly as int].1,
                table_view(rows@),
                values_view(challenges@),
                row as int,
            ) != 0,
            r matches Err(VerifyFailure::Lookup { lookup, row }) ==> lookup < self.lookups@.len()
                && row < rows@.len() && gates_satisfied(
                self.gates@,
                table_view(rows@),
                values_view(challenges@),
            ) && !lookup_holds(
                self.lookups@[lookup as int].pairs@,
                table_view(rows@),
                values_view(challenges@),
                row as int,
            ),
            r matches Err(VerifyFailure::Range { range, row }) ==> range < self.ranges@.len() && row
                < rows@.len() && gates_satisfied(
                self.gates@,
                table_view(rows@),
                values_view(challenges@),
            ) && lookups_satisfied(self.lookups@, table_view(rows@), values_view(challenges@))
                && !range_holds(
                self.ranges@[range as int].input,
                self.ranges@[range as int].table.bound as int,
                table_view(rows@),
                values_view(challenges@),
                row as int,
            ),
    {
        let ghost t = table_view(rows@);
        let ghost ch = values_view(challenges@);
        let mut g: usize = 0;
        while g < self.gates.len()
            invariant
                g <= self.gates.len(),
                t == table_view(rows@),
                ch == values_view(challenges@),
                forall|gg: int, row: int|
                    0 <= gg < g && 0 <= row < rows@.len() ==> #[trigger] polys_hold(
                        self.gates@[gg].polys@,
                        t,
                        ch,
                        row,
                    ),
            decreases self.gates.len() - g,
        {
            match check_gate(&self.gates[g].polys, rows, challenges) {
                Some((poly, row)) => {
                    proof {
                        assert(!polys_hold(self.gates@[g as int].polys@, t, ch, row as int));
                    }
                    return Err(VerifyFailure::Gate { gate: g, poly, row });
                },
                None => {},
            }
            g = g + 1;
        }
        let mut l: usize = 0;
        while l < self.lookups.len()
            invariant
                l <= self.lookups.len(),
                t == table_view(rows@),
                ch == values_view(challenges@),
                gates_satisfied(self.gates@, t, ch),
                forall|ll: int, row: int|
                    0 <= ll < l && 0 <= row < rows@.len() ==> #[trigger] lookup_holds(
                        self.lookups@[ll].pairs@,
                        t,
                        ch,
                        row,
                    ),
            decreases self.lookups.len() - l,
        {
            match check_lookup(&self.lookups[l].pairs, rows, challenges) {
                Some(row) => {
                    return Err(VerifyFailure::Lookup { lookup: l, row });
                },
                None => {},
            }
            l = l + 1;
        }
        let mut n: usize = 0;
        while n < self.ranges.len()
            invariant
                n <= self.ranges.len(),
                t == table_view(rows@),
                ch == values_view(challenges@),
                gates_satisfied(self.gates@, t, ch),
                lookups_satisfied(self.lookups@, t, ch),
                forall|nn: int, row: int|
                    0 <= nn < n && 0 <= row < rows@.len() ==> #[trigger] range_holds(
                        self.ranges@[nn].input,
                        self.ranges@[nn].table.bound as int,
                        t,
                        ch,
                        row,
                    ),
            decreases self.ranges.len() - n,
        {
            match check_range(&self.ranges[n].input, self.ranges[n].table.bound, rows, challenges) {
                Some(row) => {
                    return Err(VerifyFailure::Range { range: n, row });
                },
                None => {},
            }
            n = n + 1;
        }
        Ok(())
    }
}

/// The larger of two numbers.
pub open spec fn larger(a: nat, b: nat) -> nat {
    if a >= b {
        a
    } else {
        b
    }
}

/// The highest degree among the inputs of a lookup, and at least one.
pub open spec fn inputs_degree(pairs: Seq<(Expr, Expr)>) -> nat
    decreases pairs.len(),
{
    if pairs.len() == 0 {
        1
    } else {
        larger(inputs_degree(pairs.drop_last()), degree(pairs.last().0))
    }
}

/// The highest degree among the table expressions of a lookup, and at least
/// one.
pub open spec fn tables_degree(pairs: Seq<(Expr, Expr)>) -> nat
    decreases pairs.len(),
{
    if pairs.len() == 0 {
        1
    } else {
        larger(tables_degree(pairs.drop_last()), degree(pairs.last().1))
    }
}

/// The degree that a lookup asks of the backend: two more than the degrees
/// of its inputs and of its table together.
pub open spec fn lookup_degree(pairs: Seq<(Expr, Expr)>) -> nat {
    2 + inputs_degree(pairs) + tables_degree(pairs)
}

/// The degree that a range check asks of the backend: that of a lookup with
/// one input into a table of degree one.
pub open spec fn range_degree(input: Expr) -> nat {
    3 + larger(1, degree(input))
}

/// The highest degree among the polynomials, and at least `floor`.
pub open spec fn polys_degree(polys: Seq<Constraint>, floor: nat) -> nat
    decreases polys.len(),
{
    if polys.len() == 0 {
        floor
    } else {
        larger(polys_degree(polys.drop_last(), floor), degree(polys.last().1))
    }
}

/// The highest degree among the polynomials of the gates, and at least
/// `floor`.
pub open spec fn gates_degree(gates: Seq<GateView>, floor: nat) -> nat
    decreases gates.len(),
{
    if gates.len() == 0 {
        floor
    } else {
        polys_degree(gates.last().1, gates_degree(gates.drop_last(), floor))
    }
}

/// The highest degree that a lookup asks for, and at least `floor`.
pub open spec fn lookups_degree(lookups: Seq<LookupView>, floor: nat) -> nat
    decreases lookups.len(),
{
    if lookups.len() == 0 {
        floor
    } else {
        larger(lookups_degree(lookups.drop_last(), floor), lookup_degree(lookups.last().1))
    }
}

/// The highest degree that a range check asks for, and at least `floor`.
pub open spec fn ranges_degree(ranges: Seq<RangeLookup>, floor: nat) -> nat
    decreases ranges.len(),
{
    if ranges.len() == 0 {
        floor
    } else {
        larger(ranges_degree(ranges.drop_last(), floor), range_degree(ranges.last().input))
    }
}

impl ConstraintSystemView {
    /// The degree of the constraint system: the highest degree of a
    /// polynomial of a gate and of what a lookup or a range check asks for,
    /// and at least the three that the backend needs for itself.
    pub open spec fn degree(self) -> nat {
        gates_degree(self.gates, ranges_degree(self.ranges, lookups_degree(self.lookups, 3)))
    }
}

/// The sum of two capped numbers, capped.
fn add_capped(x: usize, y: usize, cap: usize) -> (r: usize)
    ensures
        r == capped((x + y) as nat, cap as nat),
{
    match x.checked_add(y) {
        Some(s) => if s <= cap {
            s
        } else {
            cap
        },
        None => cap,
    }
}

/// What a lookup asks for, capped.
fn lookup_degree_capped(pairs: &Vec<(Expr, Expr)>, cap: usize) -> (r: usize)
    ensures
        r == capped(lookup_degree(pairs@), cap as nat),
{
    let mut i_deg: usize = if cap >= 1 {
        1
    } else {
        cap
    };
    let mut t_deg: usize = i_deg;
    let mut k: usize = 0;
    while k < pairs.len()
        invariant
            k <= pairs@.len(),
            i_deg == capped(inputs_degree(pairs@.take(k as int)), cap as nat),
            t_deg == capped(tables_degree(pairs@.take(k as int)), cap as nat),
        decreases pairs@.len() - k,
    {
        proof {
            assert(pairs@.take(k + 1).drop_last() == pairs@.take(k as int));
        }
        let a = pairs[k].0.degree_capped(cap);
        let b = pairs[k].1.degree_capped(cap);
        if a > i_deg {
            i_deg = a;
        }
        if b > t_deg {
            t_deg = b;
        }
        k = k + 1;
    }
    proof {
        assert(pairs@.take(k as int) == pairs@);
    }
    add_capped(add_capped(2, i_deg, cap), t_deg, cap)
}

impl ConstraintSystem {
    /// The degree of the constraint system, or the largest machine integer
    /// where it is higher.
    pub fn degree(&self) -> (r: usize)
        ensures
            r == capped(self@.degree(), usize::MAX as nat),
    {
        let cap: usize = usize::MAX;
        let mut acc: usize = 3;
        let mut l: usize = 0;
        while l < self.lookups.len()
            invariant
                l <= self.lookups@.len(),
                cap == usize::MAX,
                acc == capped(lookups_degree(self@.lookups.take(l as int), 3), cap as nat),
            decreases self.lookups@.len() - l,
        {
            proof {
                assert(self@.lookups.take(l + 1).drop_last() == self@.lookups.take(l as int));
                assert(self@.lookups.take(l + 1).last().1 == self.lookups@[l as int].pairs@);
            }
            let d = lookup_degree_capped(&self.lookups[l].pairs, cap);
            if d > acc {
                acc = d;
            }
            l = l + 1;
        }
        proof {
            assert(self@.lookups.take(l as int) == self@.lookups);
        }
        let ghost floor1 = lookups_degree(self@.lookups, 3);
        let mut n: usize = 0;
        while n < self.ranges.len()
            invariant
                n <= self.ranges@.len(),
                cap == usize::MAX,
                acc == capped(ranges_degree(self@.ranges.take(n as int), floor1), cap as nat),
            decreases self.ranges@.len() - n,
        {
            proof {
                assert(self@.ranges.take(n + 1).drop_last() == self@.ranges.take(n as int));
            }
            let d0 = self.ranges[n].input.degree_capped(cap);
            let d1 = if d0 >= 1 {
                d0
            } else {
                1
            };
            let d = add_capped(3, d1, cap);
            if d > acc {
                acc = d;
            }
            n = n + 1;
        }
        proof {
            assert(self@.ranges.take(n as int) == self@.ranges);
        }
        let ghost floor2 = ranges_degree(self@.ranges, floor1);
        let mut g: usize = 0;
        while g < self.gates.len()
            invariant
                g <= self.gates@.len(),
                cap == usize::MAX,
                acc == capped(gates_degree(self@.gates.take(g as int), floor2), cap as nat),
            decreases self.gates@.len() - g,
        {
            proof {
                assert(self@.gates.take(g + 1).drop_last() == self@.gates.take(g as int));
                assert(self@.gates.take(g + 1).last().1 == self.gates@[g as int].polys@);
            }
            let ghost floor3 = gates_degree(self@.gates.take(g as int), floor2);
            let mut k: usize = 0;
            while k < self.gates[g].polys.len()
                invariant
                    g < self.gates@.len(),
                    k <= self.gates@[g as int].polys@.len(),
                    cap == usize::MAX,
                    acc == capped(
                        polys_degree(self.gates@[g as int].polys@.take(k as int), floor3),
                        cap as nat,
                    ),
                decreases self.gates@[g as int].polys@.len() - k,
            {
                proof {
                    let ps = self.gates@[g as int].polys@;
                    assert(ps.take(k + 1).drop_last() == ps.take(k as int));
                }
                let d = self.gates[g].polys[k].1.degree_capped(cap);
                if d > acc {
                    acc = d;
                }
                k = k + 1;
            }
            proof {
                let ps = self.gates@[g as int].polys@;
                assert(ps.take(k as int) == ps);
            }
            g = g + 1;
        }
        proof {
            assert(self@.gates.take(g as int) == self@.gates);
        }
        acc
    }
}

/// Sets the cell of `column` in a row.
pub fn set_cell(row: &mut Vec<Fe>, column: Column, value: Fe)
    requires
        column.index < old(row)@.len(),
    ensures
        final(row)@.len() == old(row)@.len(),
        values_view(final(row)@) == values_view(old(row)@).update(column.index as int, value@),
{
    row.set(column.index, value);
    proof {
        assert(values_view(row@) =~= values_view(old(row)@).update(column.index as int, value@));
    }
}

impl Region {
    /// The values of the cells.
    pub open spec fn view(&self) -> Seq<Seq<int>> {
        table_view(self.rows@)
    }

    /// Every row has the region's width.
    pub open spec fn wf(&self) -> bool {
        forall|i: int| 0 <= i < self.rows@.len() ==> (#[trigger] self.rows@[i])@.len() == self.width
    }

    /// A region without rows.
    pub fn new(width: usize) -> (r: Region)
        ensures
            r.wf(),
            r.width == width,
            r@ == Seq::<Seq<int>>::empty(),
    {
        let r = Region { rows: Vec::new(), width };
        proof {
            assert(r@ == Seq::<Seq<int>>::empty());
        }
        r
    }

    /// The number of rows.
    pub fn len(&self) -> (r: usize)
        ensures
            r == self@.len(),
    {
        self.rows.len()
    }

    fn zeros(width: usize) -> (r: Vec<Fe>)
        ensures
            r@.len() == width,
            forall|j: int| 0 <= j < width ==> (#[trigger] r@[j])@ == 0,
    {
        let mut v: Vec<Fe> = Vec::new();
        let mut j: usize = 0;
        while j < width
            invariant
                j <= width,
                v@.len() == j,
                forall|jj: int| 0 <= jj < j ==> (#[trigger] v@[jj])@ == 0,
            decreases width - j,
        {
            v.push(Fe::zero());
            j = j + 1;
        }
        v
    }

    /// Lengthens the region by rows of zeros to more than `offset` rows.
    fn reserve(&mut self, offset: usize)
        requires
            old(self).wf(),
            offset < usize::MAX,
        ensures
            final(self).wf(),
            final(self).width == old(self).width,
            final(self)@ == extended(old(self)@, old(self).width as nat, (offset + 1) as nat),
    {
        while self.rows.len() <= offset
            invariant
                self.wf(),
                self.width == old(self).width,
                offset < usize::MAX,
                self.rows@.len() >= old(self).rows@.len(),
                self.rows@.len() <= offset + 1 || self.rows@.len() == old(self).rows@.len(),
                forall|i: int|
                    0 <= i < old(self).rows@.len() ==> #[trigger] self.rows@[i] == old(
                        self,
                    ).rows@[i],
                forall|i: int, j: int|
                    old(self).rows@.len() <= i < self.rows@.len() && 0 <= j < self.width ==> (
                    #[trigger] self.rows@[i]@[j])@ == 0,
            decreases offset + 1 - self.rows.len(),
        {
            let z = Region::zeros(self.width);
            self.rows.push(z);
        }
        proof {
            let e = extended(old(self)@, old(self).width as nat, (offset + 1) as nat);
            assert(self@.len() == e.len());
            assert forall|i: int| 0 <= i < e.len() implies #[trigger] self@[i] == e[i] by {
                if i < old(self).rows@.len() {
                    assert(self.rows@[i] == old(self).rows@[i]);
                } else {
                    assert(self@[i] =~= zero_row(self.width as nat));
                }
            }
            assert(self@ =~= e);
        }
    }

    /// A copy of the row at `offset`, which is a row of zeros where the
    /// region has no such row.
    pub fn row(&self, offset: usize) -> (r: Vec<Fe>)
        requires
            self.wf(),
        ensures
            r@.len() == self.width,
            values_view(r@) == (if offset < self@.len() {
                self@[offset as int]
            } else {
                zero_row(self.width as nat)
            }),
    {
        if offset < self.rows.len() {
            let mut v: Vec<Fe> = Vec::new();
            let mut j: usize = 0;
            while j < self.width
                invariant
                    self.wf(),
                    offset < self.rows@.len(),
                    j <= self.width,
                    v@.len() == j,
                    forall|jj: int| 0 <= jj < j ==> #[trigger] v@[jj] == self.rows@[offset as int]@[jj],
                decreases self.width - j,
            {
                v.push(self.rows[offset][j]);
                j = j + 1;
            }
            proof {
                assert(values_view(v@) =~= self@[offset as int]);
            }
            v
        } else {
            let v = Region::zeros(self.width);
            proof {
                assert(values_view(v@) =~= zero_row(self.width as nat));
            }
            v
        }
    }

    /// Replaces the row at `offset`, after lengthening the region by rows of
    /// zeros where it is too short.
    pub fn set_row(&mut self, offset: usize, row: Vec<Fe>)
        requires
            old(self).wf(),
            offset < usize::MAX,
            row@.len() == old(self).width,
        ensures
            final(self).wf(),
            final(self).width == old(self).width,
            final(self)@ == with_row(
                old(self)@,
                old(self).width as nat,
                offset as nat,
                values_view(row@),
            ),
    {
        self.reserve(offset);
        let ghost mid = self@;
        let ghost mid_rows = self.rows@;
        proof {
            assert(mid.len() == mid_rows.len());
        }
        self.rows.set(offset, row);
        proof {
            let w = with_row(old(self)@, old(self).width as nat, offset as nat, values_view(row@));
            assert(self@.len() == w.len());
            assert forall|i: int| 0 <= i < w.len() implies #[trigger] self@[i] == w[i] by {
                if i == offset {
                    assert(self@[i] =~= values_view(row@));
                } else {
                    assert(self.rows@[i] == mid_rows[i]);
                    assert(self@[i] =~= mid[i]);
                }
            }
            assert(self@ =~= w);
        }
    }

    /// Sets the cell at `offset`, `column`, after lengthening the region by
    /// rows of zeros where it is too short.
    pub fn assign(&mut self, column: Column, offset: usize, value: Fe)
        requires
            old(self).wf(),
            offset < usize::MAX,
            column.index < old(self).width,
        ensures
            final(self).wf(),
            final(self).width == old(self).width,
            final(self)@ == assigned(
                old(self)@,
                old(self).width as nat,
                offset as nat,
                column.index as int,
                value@,
            ),
    {
        let mut row = self.row(offset);
        let ghost before = values_view(row@);
        row.set(column.index, value);
        proof {
            assert(values_view(row@) =~= before.update(column.index as int, value@));
            let e = extended(old(self)@, old(self).width as nat, (offset + 1) as nat);
            assert(e[offset as int] == before);
        }
        self.set_row(offset, row);
    }
}

} // verus!
