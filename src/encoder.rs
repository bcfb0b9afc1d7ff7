//! The boundary to a SAT backend: fresh variables, asserted literals and
//! boolean gates whose output literal is tied to their inputs by clauses.
use vstd::prelude::*;

verus! {

/// A boolean decision variable.
#[derive(Debug, Copy, Clone, PartialEq, Eq, Hash, Structural)]
pub struct Var(pub u32);

/// A variable or its negation.
#[derive(Debug, Copy, Clone, PartialEq, Eq, Hash, Structural)]
pub struct Lit {
    pub var: Var,
    pub negated: bool,
}

/// A contiguous run of fresh variables: `first`, `first + 1`, ... (`len` of them).
#[derive(Debug, Copy, Clone, PartialEq, Eq, Hash, Structural)]
pub struct VarPack {
    pub first: Var,
    pub len: u32,
}

impl Lit {
    /// The positive literal of `var`.
    pub fn pos(var: Var) -> (r: Lit)
        ensures
            r.var == var,
            !r.negated,
    {
        Lit { var, negated: false }
    }

    /// The opposite literal.
    pub fn negate(self) -> (r: Lit)
        ensures
            r.var == self.var,
            r.negated == !self.negated,
    {
        Lit { var: self.var, negated: !self.negated }
    }
}

/// The truth value of a literal under an assignment of the variables.
pub open spec fn lit_value(asg: spec_fn(u32) -> bool, l: Lit) -> bool {
    if l.negated {
        !asg(l.var.0)
    } else {
        asg(l.var.0)
    }
}

/// A clause holds when one of its literals does.
pub open spec fn clause_sat(asg: spec_fn(u32) -> bool, c: Seq<Lit>) -> bool {
    exists|i: int| 0 <= i < c.len() && #[trigger] lit_value(asg, c[i])
}

/// A set of clauses holds when each of them does.
pub open spec fn cnf_sat(asg: spec_fn(u32) -> bool, cnf: Seq<Seq<Lit>>) -> bool {
    forall|i: int| 0 <= i < cnf.len() ==> #[trigger] clause_sat(asg, cnf[i])
}

/// Every literal of `lits` holds.
pub open spec fn all_hold(asg: spec_fn(u32) -> bool, lits: Seq<Lit>) -> bool {
    forall|i: int| 0 <= i < lits.len() ==> #[trigger] lit_value(asg, lits[i])
}

/// Some literal of `lits` holds.
pub open spec fn any_holds(asg: spec_fn(u32) -> bool, lits: Seq<Lit>) -> bool {
    exists|i: int| 0 <= i < lits.len() && #[trigger] lit_value(asg, lits[i])
}

/// Every literal of every clause uses a variable below `n`.
pub open spec fn cnf_vars_below(cnf: Seq<Seq<Lit>>, n: nat) -> bool {
    forall|i: int, j: int| 0 <= i < cnf.len() && 0 <= j < cnf[i].len() ==> ((#[trigger] cnf[i][j]).var.0 as nat) < n
}

/// The clauses and the given literals use only variables below `n`.
pub open spec fn vars_below(cnf: Seq<Seq<Lit>>, lits: Seq<Lit>, n: nat) -> bool {
    &&& cnf_vars_below(cnf, n)
    &&& forall|i: int| 0 <= i < lits.len() ==> ((#[trigger] lits[i]).var.0 as nat) < n
}

/// `asg` with the variable of `l` set so that `l` takes the value `val`.
pub open spec fn set_lit(asg: spec_fn(u32) -> bool, l: Lit, val: bool) -> spec_fn(u32) -> bool {
    |v: u32| if v == l.var.0 { if l.negated { !val } else { val } } else { asg(v) }
}

/// Interface used by bit blasters to generate the bitblasted boolean
/// formulas. Each gate returns a literal of a fresh variable and emits the
/// clauses that tie it to its inputs; it never asserts its output.
pub trait BitEncoder {
    /// The clauses emitted so far.
    spec fn cnf(&self) -> Seq<Seq<Lit>>;

    /// The number of variables created so far; they are numbered from 0.
    spec fn num_vars(&self) -> nat;

    /// Creates a new variable and returns its positive literal.
    fn new_var(&mut self) -> (r: Lit)
        requires
            old(self).num_vars() < u32::MAX,
        ensures
            r == (Lit { var: Var(old(self).num_vars() as u32), negated: false }),
            final(self).num_vars() == old(self).num_vars() + 1,
            final(self).cnf() == old(self).cnf(),
    ;

    /// Creates `size` new variables at once.
    fn new_var_pack(&mut self, size: u32) -> (r: VarPack)
        requires
            old(self).num_vars() + size <= u32::MAX,
        ensures
            r == (VarPack { first: Var(old(self).num_vars() as u32), len: size }),
            final(self).num_vars() == old(self).num_vars() + size,
            final(self).cnf() == old(self).cnf(),
    ;

    /// Asserts `lit`: every satisfying assignment makes it true.
    fn assert_lit(&mut self, lit: Lit)
        ensures
            final(self).cnf() == old(self).cnf().push(seq![lit]),
            final(self).num_vars() == old(self).num_vars(),
            vars_below(old(self).cnf(), seq![lit], old(self).num_vars())
                ==> cnf_vars_below(final(self).cnf(), final(self).num_vars()),
    ;

    /// A literal that holds exactly when all of `lits` hold.
    fn and(&mut self, lits: &[Lit]) -> (r: Lit)
        requires
            lits@.len() > 0,
            old(self).num_vars() < u32::MAX,
        ensures
            r.var.0 == old(self).num_vars(),
            final(self).num_vars() == old(self).num_vars() + 1,
            old(self).cnf().is_prefix_of(final(self).cnf()),
            forall|asg: spec_fn(u32) -> bool| #[trigger] cnf_sat(asg, final(self).cnf())
                ==> lit_value(asg, r) == all_hold(asg, lits@),
            vars_below(old(self).cnf(), lits@, old(self).num_vars())
                ==> cnf_vars_below(final(self).cnf(), final(self).num_vars()),
            forall|asg: spec_fn(u32) -> bool| vars_below(old(self).cnf(), lits@, old(self).num_vars())
                && #[trigger] cnf_sat(asg, old(self).cnf())
                ==> cnf_sat(set_lit(asg, r, all_hold(asg, lits@)), final(self).cnf()),
    ;

    /// A literal that holds exactly when one of `lits` holds.
    fn or(&mut self, lits: &[Lit]) -> (r: Lit)
        requires
            lits@.len() > 0,
            old(self).num_vars() < u32::MAX,
        ensures
            r.var.0 == old(self).num_vars(),
            final(self).num_vars() == old(self).num_vars() + 1,
            old(self).cnf().is_prefix_of(final(self).cnf()),
            forall|asg: spec_fn(u32) -> bool| #[trigger] cnf_sat(asg, final(self).cnf())
                ==> lit_value(asg, r) == any_holds(asg, lits@),
            vars_below(old(self).cnf(), lits@, old(self).num_vars())
                ==> cnf_vars_below(final(self).cnf(), final(self).num_vars()),
            forall|asg: spec_fn(u32) -> bool| vars_below(old(self).cnf(), lits@, old(self).num_vars())
                && #[trigger] cnf_sat(asg, old(self).cnf())
                ==> cnf_sat(set_lit(asg, r, any_holds(asg, lits@)), final(self).cnf()),
    ;

    /// A literal that holds exactly when `lhs` and `rhs` differ.
    fn xor(&mut self, lhs: Lit, rhs: Lit) -> (r: Lit)
        requires
            old(self).num_vars() < u32::MAX,
        ensures
            r.var.0 == old(self).num_vars(),
            final(self).num_vars() == old(self).num_vars() + 1,
            old(self).cnf().is_prefix_of(final(self).cnf()),
            forall|asg: spec_fn(u32) -> bool| #[trigger] cnf_sat(asg, final(self).cnf())
                ==> lit_value(asg, r) == (lit_value(asg, lhs) != lit_value(asg, rhs)),
            vars_below(old(self).cnf(), seq![lhs, rhs], old(self).num_vars())
                ==> cnf_vars_below(final(self).cnf(), final(self).num_vars()),
            forall|asg: spec_fn(u32) -> bool| vars_below(old(self).cnf(), seq![lhs, rhs], old(self).num_vars())
                && #[trigger] cnf_sat(asg, old(self).cnf())
                ==> cnf_sat(set_lit(asg, r, lit_value(asg, lhs) != lit_value(asg, rhs)), final(self).cnf()),
    ;

    /// A literal that holds exactly when `lhs` implies `rhs`.
    fn implies(&mut self, lhs: Lit, rhs: Lit) -> (r: Lit)
        requires
            old(self).num_vars() < u32::MAX,
        ensures
            r.var.0 == old(self).num_vars(),
            final(self).num_vars() == old(self).num_vars() + 1,
            old(self).cnf().is_prefix_of(final(self).cnf()),
            forall|asg: spec_fn(u32) -> bool| #[trigger] cnf_sat(asg, final(self).cnf())
                ==> lit_value(asg, r) == (lit_value(asg, lhs) ==> lit_value(asg, rhs)),
            vars_below(old(self).cnf(), seq![lhs, rhs], old(self).num_vars())
                ==> cnf_vars_below(final(self).cnf(), final(self).num_vars()),
            forall|asg: spec_fn(u32) -> bool| vars_below(old(self).cnf(), seq![lhs, rhs], old(self).num_vars())
                && #[trigger] cnf_sat(asg, old(self).cnf())
                ==> cnf_sat(set_lit(asg, r, (lit_value(asg, lhs) ==> lit_value(asg, rhs))), final(self).cnf()),
    ;

    /// A literal that holds exactly when `lhs` and `rhs` agree.
    fn iff(&mut self, lhs: Lit, rhs: Lit) -> (r: Lit)
        requires
            old(self).num_vars() < u32::MAX,
        ensures
            r.var.0 == old(self).num_vars(),
            final(self).num_vars() == old(self).num_vars() + 1,
            old(self).cnf().is_prefix_of(final(self).cnf()),
            forall|asg: spec_fn(u32) -> bool| #[trigger] cnf_sat(asg, final(self).cnf())
                ==> lit_value(asg, r) == (lit_value(asg, lhs) == lit_value(asg, rhs)),
            vars_below(old(self).cnf(), seq![lhs, rhs], old(self).num_vars())
                ==> cnf_vars_below(final(self).cnf(), final(self).num_vars()),
            forall|asg: spec_fn(u32) -> bool| vars_below(old(self).cnf(), seq![lhs, rhs], old(self).num_vars())
                && #[trigger] cnf_sat(asg, old(self).cnf())
                ==> cnf_sat(set_lit(asg, r, lit_value(asg, lhs) == lit_value(asg, rhs)), final(self).cnf()),
    ;
}

/// Clauses over variables below `n` keep their truth value when only
/// variables from `n` up change; new clauses that hold then complete it.
pub proof fn lemma_extend_sat(
    asg: spec_fn(u32) -> bool,
    asg2: spec_fn(u32) -> bool,
    old_cnf: Seq<Seq<Lit>>,
    new_cnf: Seq<Seq<Lit>>,
    n: nat,
)
    requires
        old_cnf.is_prefix_of(new_cnf),
        cnf_vars_below(old_cnf, n),
        cnf_sat(asg, old_cnf),
        forall|v: u32| (v as nat) < n ==> asg(v) == #[trigger] asg2(v),
        forall|i: int| old_cnf.len() <= i < new_cnf.len() ==> #[trigger] clause_sat(asg2, new_cnf[i]),
    ensures
        cnf_sat(asg2, new_cnf),
{
    assert forall|i: int| 0 <= i < new_cnf.len() implies #[trigger] clause_sat(asg2, new_cnf[i]) by {
        if i < old_cnf.len() {
            assert(new_cnf[i] == old_cnf[i]);
            assert(clause_sat(asg, old_cnf[i]));
            let j = choose|j: int| 0 <= j < old_cnf[i].len() && #[trigger] lit_value(asg, old_cnf[i][j]);
            assert((old_cnf[i][j].var.0 as nat) < n);
            assert(lit_value(asg2, new_cnf[i][j]));
        }
    }
}

/// A clause of two literals holds when one of them does.
proof fn lemma_clause2(asg: spec_fn(u32) -> bool, x: Lit, y: Lit)
    ensures
        clause_sat(asg, seq![x, y]) == (lit_value(asg, x) || lit_value(asg, y)),
{
    let c = seq![x, y];
    if lit_value(asg, x) {
        assert(lit_value(asg, c[0]));
    } else if lit_value(asg, y) {
        assert(lit_value(asg, c[1]));
    }
}

/// A clause of three literals holds when one of them does.
proof fn lemma_clause3(asg: spec_fn(u32) -> bool, x: Lit, y: Lit, z: Lit)
    ensures
        clause_sat(asg, seq![x, y, z]) == (lit_value(asg, x) || lit_value(asg, y) || lit_value(asg, z)),
{
    let c = seq![x, y, z];
    if lit_value(asg, x) {
        assert(lit_value(asg, c[0]));
    } else if lit_value(asg, y) {
        assert(lit_value(asg, c[1]));
    } else if lit_value(asg, z) {
        assert(lit_value(asg, c[2]));
    }
}

/// The negation of a literal.
pub open spec fn neg(l: Lit) -> Lit {
    Lit { var: l.var, negated: !l.negated }
}

/// The assignment that a vector of values gives: variable `v` is
/// `values[v]`, and false past the end.
pub open spec fn assignment_of(values: Seq<bool>) -> spec_fn(u32) -> bool {
    |v: u32| (v as int) < values.len() && values[v as int]
}

/// An encoder that numbers its variables from 0 and records every clause
/// it emits.
#[derive(Debug)]
pub struct ClauseEncoder {
    next_var: u32,
    clauses: Vec<Vec<Lit>>,
}

impl ClauseEncoder {
    /// The recorded clauses.
    pub closed spec fn spec_cnf(&self) -> Seq<Seq<Lit>> {
        Seq::new(self.clauses@.len(), |i: int| self.clauses@[i]@)
    }

    /// An encoder with no variables and no clauses.
    pub fn new() -> (r: ClauseEncoder)
        ensures
            r.cnf() == Seq::<Seq<Lit>>::empty(),
            r.num_vars() == 0,
    {
        let r = ClauseEncoder { next_var: 0, clauses: Vec::new() };
        assert(r.spec_cnf() =~= Seq::<Seq<Lit>>::empty());
        r
    }

    /// The number of variables created so far.
    pub fn var_count(&self) -> (r: u32)
        ensures
            r == self.num_vars(),
    {
        self.next_var
    }

    fn emit(&mut self, c: Vec<Lit>)
        ensures
            final(self).cnf() == old(self).cnf().push(c@),
            final(self).num_vars() == old(self).num_vars(),
    {
        let ghost c_view = c@;
        self.clauses.push(c);
        assert(self.spec_cnf() =~= old(self).spec_cnf().push(c_view));
    }

    /// Whether `values` (variable `v` is `values[v]`, false past the end)
    /// satisfies every recorded clause.
    pub fn is_satisfied_by(&self, values: &Vec<bool>) -> (r: bool)
        ensures
            r == cnf_sat(assignment_of(values@), self.cnf()),
    {
        let ghost asg = assignment_of(values@);
        let mut i: usize = 0;
        while i < self.clauses.len()
            invariant
                i <= self.clauses@.len(),
                self.cnf() == self.spec_cnf(),
                asg == assignment_of(values@),
                forall|k: int| 0 <= k < i ==> #[trigger] clause_sat(asg, self.cnf()[k]),
            decreases self.clauses@.len() - i,
        {
            let c = &self.clauses[i];
            let mut found = false;
            let mut j: usize = 0;
            while j < c.len()
                invariant
                    j <= c@.len(),
                    c@ == self.cnf()[i as int],
                    asg == assignment_of(values@),
                    found <==> exists|k: int| 0 <= k < j && #[trigger] lit_value(asg, c@[k]),
                decreases c@.len() - j,
            {
                let l = c[j];
                let v = l.var.0 as usize;
                let val = v < values.len() && values[v];
                let holds = if l.negated { !val } else { val };
                assert(asg(l.var.0) == val);
                assert(lit_value(asg, c@[j as int]) == holds);
                if holds {
                    found = true;
                }
                j = j + 1;
            }
            if !found {
                assert(!clause_sat(asg, self.cnf()[i as int]));
                return false;
            }
            i = i + 1;
        }
        true
    }
}

impl BitEncoder for ClauseEncoder {
    closed spec fn cnf(&self) -> Seq<Seq<Lit>> {
        self.spec_cnf()
    }

    closed spec fn num_vars(&self) -> nat {
        self.next_var as nat
    }

    fn new_var(&mut self) -> (r: Lit) {
        let v = self.next_var;
        self.next_var = self.next_var + 1;
        Lit::pos(Var(v))
    }

    fn new_var_pack(&mut self, size: u32) -> (r: VarPack) {
        let first = self.next_var;
        self.next_var = self.next_var + size;
        VarPack { first: Var(first), len: size }
    }

    fn assert_lit(&mut self, lit: Lit) {
        let c = vec![lit];
        assert(c@ =~= seq![lit]);
        self.emit(c);
    }

    fn and(&mut self, lits: &[Lit]) -> (r: Lit) {
        let o = self.new_var();
        let ghost start = self.cnf();
        let ghost n = start.len() as int;
        let len = lits.len();
        let mut i: usize = 0;
        while i < len
            invariant
                i <= len == lits@.len(),
                self.cnf().len() == n + i,
                start.len() == n,
                forall|k: int| 0 <= k < n ==> #[trigger] self.cnf()[k] == start[k],
                forall|k: int| 0 <= k < i ==> #[trigger] self.cnf()[n + k] == seq![neg(o), lits@[k]],
                self.num_vars() == old(self).num_vars() + 1,
            decreases len - i,
        {
            self.emit(vec![o.negate(), lits[i]]);
            i = i + 1;
        }
        let ghost mid_cnf = self.cnf();
        let mut big: Vec<Lit> = Vec::new();
        big.push(o);
        let mut j: usize = 0;
        while j < len
            invariant
                j <= len == lits@.len(),
                big@.len() == j + 1,
                big@[0] == o,
                forall|k: int| 0 <= k < j ==> #[trigger] big@[k + 1] == neg(lits@[k]),
            decreases len - j,
        {
            big.push(lits[j].negate());
            j = j + 1;
        }
        let ghost big_c = big@;
        self.emit(big);
        proof {
            assert(start == old(self).cnf());
            assert(old(self).cnf().is_prefix_of(self.cnf()));
            let nv = old(self).num_vars();
            if vars_below(old(self).cnf(), lits@, nv) {
                assert forall|i: int, j: int| 0 <= i < self.cnf().len() && 0 <= j < self.cnf()[i].len()
                    implies ((#[trigger] self.cnf()[i][j]).var.0 as nat) < self.num_vars() by {
                    if i < n {
                        assert(self.cnf()[i] == start[i]);
                    } else if i < n + len {
                        let k = i - n;
                        assert(self.cnf()[i] == mid_cnf[n + k]);
                        assert(mid_cnf[n + k] == seq![neg(o), lits@[k]]);
                    } else if j > 0 {
                        let k = j - 1;
                        assert(big_c[k + 1] == neg(lits@[k]));
                    }
                }
            }
            assert forall|asg: spec_fn(u32) -> bool| vars_below(old(self).cnf(), lits@, nv)
                && #[trigger] cnf_sat(asg, old(self).cnf())
                implies cnf_sat(set_lit(asg, o, all_hold(asg, lits@)), self.cnf()) by {
                let a2 = set_lit(asg, o, all_hold(asg, lits@));
                assert forall|k: int| 0 <= k < lits@.len() implies
                    lit_value(a2, #[trigger] lits@[k]) == lit_value(asg, lits@[k]) by {
                    assert((lits@[k].var.0 as nat) < nv);
                }
                assert forall|i: int| n <= i < self.cnf().len() implies #[trigger] clause_sat(a2, self.cnf()[i]) by {
                    if i < n + len {
                        let k = i - n;
                        lemma_clause2(a2, neg(o), lits@[k]);
                        assert(self.cnf()[i] == mid_cnf[n + k]);
                        assert(mid_cnf[n + k] == seq![neg(o), lits@[k]]);
                    } else {
                        assert(self.cnf()[i] == big_c);
                        if all_hold(asg, lits@) {
                            assert(lit_value(a2, big_c[0]));
                        } else {
                            let k = choose|k: int| 0 <= k < lits@.len() && !#[trigger] lit_value(asg, lits@[k]);
                            assert(big_c[k + 1] == neg(lits@[k]));
                            assert(lit_value(a2, big_c[k + 1]));
                        }
                    }
                }
                lemma_extend_sat(asg, a2, old(self).cnf(), self.cnf(), nv);
            }
            assert forall|asg: spec_fn(u32) -> bool| #[trigger] cnf_sat(asg, self.cnf())
                implies lit_value(asg, o) == all_hold(asg, lits@) by {
                assert(self.cnf()[n + len] == big_c);
                assert(clause_sat(asg, self.cnf()[n + len]));
                if all_hold(asg, lits@) {
                    let w = choose|w: int| 0 <= w < big_c.len() && #[trigger] lit_value(asg, big_c[w]);
                    if w > 0 {
                        let k = w - 1;
                        assert(big_c[k + 1] == neg(lits@[k]));
                        assert(lit_value(asg, lits@[k]));
                    }
                } else {
                    let k = choose|k: int| 0 <= k < lits@.len() && !#[trigger] lit_value(asg, lits@[k]);
                    assert(clause_sat(asg, self.cnf()[n + k]));
                    lemma_clause2(asg, neg(o), lits@[k]);
                }
            }
        }
        o
    }

    fn or(&mut self, lits: &[Lit]) -> (r: Lit) {
        let mut negs: Vec<Lit> = Vec::new();
        let mut j: usize = 0;
        while j < lits.len()
            invariant
                j <= lits@.len(),
                negs@.len() == j,
                forall|k: int| 0 <= k < j ==> #[trigger] negs@[k] == neg(lits@[k]),
            decreases lits@.len() - j,
        {
            negs.push(lits[j].negate());
            j = j + 1;
        }
        let a = self.and(negs.as_slice());
        proof {
            let nv = old(self).num_vars();
            if vars_below(old(self).cnf(), lits@, nv) {
                assert forall|k: int| 0 <= k < negs@.len() implies ((#[trigger] negs@[k]).var.0 as nat) < nv by {
                    assert((lits@[k].var.0 as nat) < nv);
                }
            }
            assert forall|asg: spec_fn(u32) -> bool| vars_below(old(self).cnf(), lits@, nv)
                && #[trigger] cnf_sat(asg, old(self).cnf())
                implies cnf_sat(set_lit(asg, neg(a), any_holds(asg, lits@)), self.cnf()) by {
                assert forall|k: int| 0 <= k < negs@.len() implies ((#[trigger] negs@[k]).var.0 as nat) < nv by {
                    assert((lits@[k].var.0 as nat) < nv);
                }
                assert(all_hold(asg, negs@) == !any_holds(asg, lits@)) by {
                    if any_holds(asg, lits@) {
                        let k = choose|k: int| 0 <= k < lits@.len() && #[trigger] lit_value(asg, lits@[k]);
                        assert(!lit_value(asg, negs@[k]));
                    } else {
                        assert forall|k: int| 0 <= k < negs@.len() implies #[trigger] lit_value(asg, negs@[k]) by {
                            assert(!lit_value(asg, lits@[k]));
                        }
                    }
                }
                assert(set_lit(asg, neg(a), any_holds(asg, lits@)) =~= set_lit(asg, a, all_hold(asg, negs@)));
            }
            assert forall|asg: spec_fn(u32) -> bool| #[trigger] cnf_sat(asg, self.cnf())
                implies lit_value(asg, neg(a)) == any_holds(asg, lits@) by {
                if any_holds(asg, lits@) {
                    let k = choose|k: int| 0 <= k < lits@.len() && #[trigger] lit_value(asg, lits@[k]);
                    assert(!lit_value(asg, negs@[k]));
                } else {
                    assert forall|k: int| 0 <= k < negs@.len() implies #[trigger] lit_value(asg, negs@[k]) by {
                        assert(!lit_value(asg, lits@[k]));
                    }
                }
            }
        }
        a.negate()
    }

    fn xor(&mut self, lhs: Lit, rhs: Lit) -> (r: Lit) {
        let o = self.new_var();
        self.emit(vec![o.negate(), lhs, rhs]);
        self.emit(vec![o.negate(), lhs.negate(), rhs.negate()]);
        self.emit(vec![o, lhs.negate(), rhs]);
        self.emit(vec![o, lhs, rhs.negate()]);
        proof {
            let nv = old(self).num_vars();
            let n0 = old(self).cnf().len() as int;
            assert forall|asg: spec_fn(u32) -> bool| vars_below(old(self).cnf(), seq![lhs, rhs], nv)
                && #[trigger] cnf_sat(asg, old(self).cnf())
                implies cnf_sat(set_lit(asg, o, lit_value(asg, lhs) != lit_value(asg, rhs)), self.cnf()) by {
                let a2 = set_lit(asg, o, lit_value(asg, lhs) != lit_value(asg, rhs));
                assert(seq![lhs, rhs][0] == lhs && seq![lhs, rhs][1] == rhs);
                assert(lit_value(a2, lhs) == lit_value(asg, lhs));
                assert(lit_value(a2, rhs) == lit_value(asg, rhs));
                assert forall|i: int| n0 <= i < self.cnf().len() implies #[trigger] clause_sat(a2, self.cnf()[i]) by {
                    lemma_clause3(a2, neg(o), lhs, rhs);
                    lemma_clause3(a2, neg(o), neg(lhs), neg(rhs));
                    lemma_clause3(a2, o, neg(lhs), rhs);
                    lemma_clause3(a2, o, lhs, neg(rhs));
                }
                lemma_extend_sat(asg, a2, old(self).cnf(), self.cnf(), nv);
            }
            let n = old(self).cnf().len() as int;
            assert(old(self).cnf().is_prefix_of(self.cnf()));
            assert forall|asg: spec_fn(u32) -> bool| #[trigger] cnf_sat(asg, self.cnf())
                implies lit_value(asg, o) == (lit_value(asg, lhs) != lit_value(asg, rhs)) by {
                assert(clause_sat(asg, self.cnf()[n]));
                assert(clause_sat(asg, self.cnf()[n + 1]));
                assert(clause_sat(asg, self.cnf()[n + 2]));
                assert(clause_sat(asg, self.cnf()[n + 3]));
                lemma_clause3(asg, neg(o), lhs, rhs);
                lemma_clause3(asg, neg(o), neg(lhs), neg(rhs));
                lemma_clause3(asg, o, neg(lhs), rhs);
                lemma_clause3(asg, o, lhs, neg(rhs));
            }
        }
        o
    }

    fn implies(&mut self, lhs: Lit, rhs: Lit) -> (r: Lit) {
        let o = self.new_var();
        self.emit(vec![o.negate(), lhs.negate(), rhs]);
        self.emit(vec![o, lhs]);
        self.emit(vec![o, rhs.negate()]);
        proof {
            let nv = old(self).num_vars();
            let n0 = old(self).cnf().len() as int;
            assert forall|asg: spec_fn(u32) -> bool| vars_below(old(self).cnf(), seq![lhs, rhs], nv)
                && #[trigger] cnf_sat(asg, old(self).cnf())
                implies cnf_sat(set_lit(asg, o, (lit_value(asg, lhs) ==> lit_value(asg, rhs))), self.cnf()) by {
                let a2 = set_lit(asg, o, (lit_value(asg, lhs) ==> lit_value(asg, rhs)));
                assert(seq![lhs, rhs][0] == lhs && seq![lhs, rhs][1] == rhs);
                assert(lit_value(a2, lhs) == lit_value(asg, lhs));
                assert(lit_value(a2, rhs) == lit_value(asg, rhs));
                assert forall|i: int| n0 <= i < self.cnf().len() implies #[trigger] clause_sat(a2, self.cnf()[i]) by {
                    lemma_clause3(a2, neg(o), neg(lhs), rhs);
                    lemma_clause2(a2, o, lhs);
                    lemma_clause2(a2, o, neg(rhs));
                }
                lemma_extend_sat(asg, a2, old(self).cnf(), self.cnf(), nv);
            }
            let n = old(self).cnf().len() as int;
            assert(old(self).cnf().is_prefix_of(self.cnf()));
            assert forall|asg: spec_fn(u32) -> bool| #[trigger] cnf_sat(asg, self.cnf())
                implies lit_value(asg, o) == (lit_value(asg, lhs) ==> lit_value(asg, rhs)) by {
                assert(clause_sat(asg, self.cnf()[n]));
                assert(clause_sat(asg, self.cnf()[n + 1]));
                assert(clause_sat(asg, self.cnf()[n + 2]));
                lemma_clause3(asg, neg(o), neg(lhs), rhs);
                lemma_clause2(asg, o, lhs);
                lemma_clause2(asg, o, neg(rhs));
            }
        }
        o
    }

    fn iff(&mut self, lhs: Lit, rhs: Lit) -> (r: Lit) {
        let o = self.new_var();
        self.emit(vec![o.negate(), lhs.negate(), rhs]);
        self.emit(vec![o.negate(), lhs, rhs.negate()]);
        self.emit(vec![o, lhs, rhs]);
        self.emit(vec![o, lhs.negate(), rhs.negate()]);
        proof {
            let nv = old(self).num_vars();
            let n0 = old(self).cnf().len() as int;
            assert forall|asg: spec_fn(u32) -> bool| vars_below(old(self).cnf(), seq![lhs, rhs], nv)
                && #[trigger] cnf_sat(asg, old(self).cnf())
                implies cnf_sat(set_lit(asg, o, lit_value(asg, lhs) == lit_value(asg, rhs)), self.cnf()) by {
                let a2 = set_lit(asg, o, lit_value(asg, lhs) == lit_value(asg, rhs));
                assert(seq![lhs, rhs][0] == lhs && seq![lhs, rhs][1] == rhs);
                assert(lit_value(a2, lhs) == lit_value(asg, lhs));
                assert(lit_value(a2, rhs) == lit_value(asg, rhs));
                assert forall|i: int| n0 <= i < self.cnf().len() implies #[trigger] clause_sat(a2, self.cnf()[i]) by {
                    lemma_clause3(a2, neg(o), neg(lhs), rhs);
                    lemma_clause3(a2, neg(o), lhs, neg(rhs));
                    lemma_clause3(a2, o, lhs, rhs);
                    lemma_clause3(a2, o, neg(lhs), neg(rhs));
                }
                lemma_extend_sat(asg, a2, old(self).cnf(), self.cnf(), nv);
            }
            let n = old(self).cnf().len() as int;
            assert(old(self).cnf().is_prefix_of(self.cnf()));
            assert forall|asg: spec_fn(u32) -> bool| #[trigger] cnf_sat(asg, self.cnf())
                implies lit_value(asg, o) == (lit_value(asg, lhs) == lit_value(asg, rhs)) by {
                assert(clause_sat(asg, self.cnf()[n]));
                assert(clause_sat(asg, self.cnf()[n + 1]));
                assert(clause_sat(asg, self.cnf()[n + 2]));
                assert(clause_sat(asg, self.cnf()[n + 3]));
                lemma_clause3(asg, neg(o), neg(lhs), rhs);
                lemma_clause3(asg, neg(o), lhs, neg(rhs));
                lemma_clause3(asg, o, lhs, rhs);
                lemma_clause3(asg, o, neg(lhs), neg(rhs));
            }
        }
        o
    }
}

} // verus!
