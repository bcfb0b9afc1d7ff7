//! Lowering boolean formulas to literals through a `BitEncoder`, bottom-up:
//! one encoder call per node over the literals of its children.
use crate::encoder::{
    BitEncoder, Lit, all_hold, any_holds, clause_sat, cnf_sat, cnf_vars_below, lemma_extend_sat,
    lit_value, neg, set_lit, vars_below,
};
use crate::expr::{AnyExpr, Head, Term, Type, lemma_views, views};
use crate::transform::{lemma_size_child, term_size, terms_size};
use vstd::prelude::*;
use vstd::string::StrSliceExecFns;

verus! {

/// The literal bound to `name` by the first entry of `syms` with that name.
pub open spec fn lookup(syms: Seq<(String, Lit)>, name: Seq<char>) -> Option<Lit>
    decreases syms.len(),
{
    if syms.len() == 0 {
        None
    } else if syms[0].0@ == name {
        Some(syms[0].1)
    } else {
        lookup(syms.drop_first(), name)
    }
}

/// The formula can be lowered: it holds only boolean kinds, and each of
/// its symbols is boolean and bound in `syms`.
pub open spec fn lowerable(t: Term, syms: Seq<(String, Lit)>) -> bool
    decreases t,
{
    &&& match t.head {
        Head::Symbol(name, ty) => ty == Type::Bool && lookup(syms, name@) is Some,
        Head::BitAnd(_) => false,
        Head::LogicalShiftRight(_) => false,
        _ => true,
    }
    &&& forall|i: int| 0 <= i < t.childs.len() ==> lowerable(#[trigger] t.childs[i], syms)
}

/// The truth value of a boolean formula when each symbol takes the value
/// of the literal that `syms` binds it to.
pub open spec fn eval(t: Term, syms: Seq<(String, Lit)>, asg: spec_fn(u32) -> bool) -> bool
    decreases t,
{
    match t.head {
        Head::BoolConst(b) => b,
        Head::Symbol(name, _) => match lookup(syms, name@) {
            Some(l) => lit_value(asg, l),
            None => false,
        },
        Head::Not => t.childs.len() > 0 && !eval(t.childs[0], syms, asg),
        Head::And => forall|i: int| 0 <= i < t.childs.len() ==> eval(#[trigger] t.childs[i], syms, asg),
        Head::Or => exists|i: int| 0 <= i < t.childs.len() && eval(#[trigger] t.childs[i], syms, asg),
        Head::BoolEquals => t.childs.len() > 1 && eval(t.childs[0], syms, asg) == eval(t.childs[1], syms, asg),
        Head::IfThenElse => t.childs.len() > 2 && if eval(t.childs[0], syms, asg) {
            eval(t.childs[1], syms, asg)
        } else {
            eval(t.childs[2], syms, asg)
        },
        _ => false,
    }
}

/// The literals that `syms` binds.
pub open spec fn sym_lits(syms: Seq<(String, Lit)>) -> Seq<Lit> {
    Seq::new(syms.len(), |i: int| syms[i].1)
}

/// `a` and `b` agree on every variable below `n`.
pub open spec fn agrees_below(a: spec_fn(u32) -> bool, b: spec_fn(u32) -> bool, n: nat) -> bool {
    forall|v: u32| (v as nat) < n ==> a(v) == #[trigger] b(v)
}

/// Every assignment that satisfies `c0` can be changed from variable `n` up
/// so that it satisfies `c1`.
pub open spec fn extends_sat(c0: Seq<Seq<Lit>>, c1: Seq<Seq<Lit>>, n: nat) -> bool {
    forall|a: spec_fn(u32) -> bool| #[trigger] cnf_sat(a, c0)
        ==> exists|b: spec_fn(u32) -> bool| agrees_below(a, b, n) && cnf_sat(b, c1)
}

proof fn lemma_extends_refl(c: Seq<Seq<Lit>>, n: nat)
    ensures
        extends_sat(c, c, n),
{
    assert forall|a: spec_fn(u32) -> bool| #[trigger] cnf_sat(a, c)
        implies exists|b: spec_fn(u32) -> bool| agrees_below(a, b, n) && cnf_sat(b, c) by {
        assert(agrees_below(a, a, n));
    }
}

proof fn lemma_extends_compose(c0: Seq<Seq<Lit>>, c1: Seq<Seq<Lit>>, c2: Seq<Seq<Lit>>, n0: nat, n1: nat)
    requires
        n0 <= n1,
        extends_sat(c0, c1, n0),
        extends_sat(c1, c2, n1),
    ensures
        extends_sat(c0, c2, n0),
{
    assert forall|a: spec_fn(u32) -> bool| #[trigger] cnf_sat(a, c0)
        implies exists|b: spec_fn(u32) -> bool| agrees_below(a, b, n0) && cnf_sat(b, c2) by {
        let b1 = choose|b: spec_fn(u32) -> bool| agrees_below(a, b, n0) && cnf_sat(b, c1);
        let b2 = choose|b: spec_fn(u32) -> bool| agrees_below(b1, b, n1) && cnf_sat(b, c2);
        assert(agrees_below(a, b2, n0));
    }
}

/// A gate whose output variable is `n` extends every assignment.
proof fn lemma_gate_extends(c0: Seq<Seq<Lit>>, c1: Seq<Seq<Lit>>, n: nat, o: Lit, val: spec_fn(spec_fn(u32) -> bool) -> bool)
    requires
        o.var.0 as nat == n,
        forall|a: spec_fn(u32) -> bool| #[trigger] cnf_sat(a, c0) ==> cnf_sat(set_lit(a, o, val(a)), c1),
    ensures
        extends_sat(c0, c1, n),
{
    assert forall|a: spec_fn(u32) -> bool| #[trigger] cnf_sat(a, c0)
        implies exists|b: spec_fn(u32) -> bool| agrees_below(a, b, n) && cnf_sat(b, c1) by {
        let b = set_lit(a, o, val(a));
        assert(agrees_below(a, b, n));
        assert(cnf_sat(b, c1));
    }
}

/// The literal a symbol is bound to is one of the table's literals.
proof fn lemma_lookup_below(syms: Seq<(String, Lit)>, name: Seq<char>, n: nat)
    requires
        forall|i: int| 0 <= i < syms.len() ==> ((#[trigger] sym_lits(syms)[i]).var.0 as nat) < n,
    ensures
        lookup(syms, name) is Some ==> (lookup(syms, name)->Some_0.var.0 as nat) < n,
    decreases syms.len(),
{
    if syms.len() > 0 {
        assert(sym_lits(syms)[0] == syms[0].1);
        if syms[0].0@ != name {
            assert forall|i: int| 0 <= i < syms.drop_first().len() implies
                ((#[trigger] sym_lits(syms.drop_first())[i]).var.0 as nat) < n by {
                assert(sym_lits(syms.drop_first())[i] == sym_lits(syms)[i + 1]);
            }
            lemma_lookup_below(syms.drop_first(), name, n);
        }
    }
}

/// Bounds on variables carry over to more variables.
proof fn lemma_below_step(c0: Seq<Seq<Lit>>, c1: Seq<Seq<Lit>>, lits: Seq<Lit>, n0: nat, n1: nat)
    requires
        vars_below(c0, lits, n0),
        cnf_vars_below(c1, n1),
        n0 <= n1,
    ensures
        vars_below(c1, lits, n1),
{
}

/// An assignment that satisfies some clauses satisfies each prefix of them.
proof fn lemma_sat_prefix(asg: spec_fn(u32) -> bool, a: Seq<Seq<Lit>>, b: Seq<Seq<Lit>>)
    requires
        a.is_prefix_of(b),
        cnf_sat(asg, b),
    ensures
        cnf_sat(asg, a),
{
    assert forall|i: int| 0 <= i < a.len() implies #[trigger] clause_sat(asg, a[i]) by {
        assert(a[i] == b[i]);
        assert(clause_sat(asg, b[i]));
    }
}

/// Two literals: all hold, or one holds.
proof fn lemma_pair(asg: spec_fn(u32) -> bool, x: Lit, y: Lit)
    ensures
        all_hold(asg, seq![x, y]) == (lit_value(asg, x) && lit_value(asg, y)),
        any_holds(asg, seq![x, y]) == (lit_value(asg, x) || lit_value(asg, y)),
{
    let s = seq![x, y];
    assert(s[0] == x && s[1] == y);
    if lit_value(asg, x) {
        assert(lit_value(asg, s[0]));
    } else if lit_value(asg, y) {
        assert(lit_value(asg, s[1]));
    }
}

/// A node is larger than each of its children.
proof fn lemma_child_smaller(t: Term, i: int)
    requires
        0 <= i < t.childs.len(),
    ensures
        term_size(t.childs[i]) < term_size(t),
{
    lemma_size_child(t.childs, i);
}

fn same_name(a: &str, b: &str) -> (r: bool)
    ensures
        r == (a@ == b@),
{
    let n = a.unicode_len();
    if n != b.unicode_len() {
        return false;
    }
    let mut i: usize = 0;
    while i < n
        invariant
            i <= n == a@.len() == b@.len(),
            forall|k: int| 0 <= k < i ==> a@[k] == b@[k],
        decreases n - i,
    {
        if a.get_char(i) != b.get_char(i) {
            return false;
        }
        i = i + 1;
    }
    assert(a@ =~= b@);
    true
}

fn find_symbol(syms: &Vec<(String, Lit)>, name: &String) -> (r: Option<Lit>)
    ensures
        r == lookup(syms@, name@),
{
    let mut i: usize = 0;
    assert(syms@.subrange(0, syms@.len() as int) =~= syms@);
    while i < syms.len()
        invariant
            i <= syms@.len(),
            lookup(syms@, name@) == lookup(syms@.subrange(i as int, syms@.len() as int), name@),
        decreases syms@.len() - i,
    {
        proof {
            let rest = syms@.subrange(i as int, syms@.len() as int);
            assert(rest.drop_first() =~= syms@.subrange(i + 1, syms@.len() as int));
            assert(rest[0] == syms@[i as int]);
        }
        if same_name(syms[i].0.as_str(), name.as_str()) {
            return Some(syms[i].1);
        }
        i = i + 1;
    }
    None
}

/// Lowers the first `n` expressions of `v`, in order.
fn lower_prefix<E: BitEncoder>(enc: &mut E, v: &Vec<AnyExpr>, n: usize, syms: &Vec<(String, Lit)>)
    -> (r: Result<Vec<Lit>, String>)
    requires
        n <= v@.len(),
        forall|k: int| 0 <= k < n ==> (#[trigger] v@[k]@).wf(),
        old(enc).num_vars() + 3 * terms_size(views(v@.take(n as int))) <= u32::MAX,
    ensures
        r is Ok <==> forall|k: int| 0 <= k < n ==> lowerable(#[trigger] v@[k]@, syms@),
        old(enc).cnf().is_prefix_of(final(enc).cnf()),
        old(enc).num_vars() <= final(enc).num_vars(),
        final(enc).num_vars() <= old(enc).num_vars() + 3 * terms_size(views(v@.take(n as int))),
        r is Ok ==> r->Ok_0@.len() == n,
        vars_below(old(enc).cnf(), sym_lits(syms@), old(enc).num_vars())
            ==> cnf_vars_below(final(enc).cnf(), final(enc).num_vars()),
        vars_below(old(enc).cnf(), sym_lits(syms@), old(enc).num_vars())
            ==> extends_sat(old(enc).cnf(), final(enc).cnf(), old(enc).num_vars()),
        vars_below(old(enc).cnf(), sym_lits(syms@), old(enc).num_vars()) && r is Ok
            ==> forall|k: int| 0 <= k < n ==> ((#[trigger] r->Ok_0@[k]).var.0 as nat) < final(enc).num_vars(),
        r is Ok ==> forall|asg: spec_fn(u32) -> bool, k: int| #[trigger] cnf_sat(asg, final(enc).cnf()) && 0 <= k < n
            ==> lit_value(asg, r->Ok_0@[k]) == eval(#[trigger] v@[k]@, syms@, asg),
    decreases 2 * terms_size(views(v@.take(n as int))) + 1,
{
    if n == 0 {
        proof {
            lemma_extends_refl(enc.cnf(), enc.num_vars());
        }
        return Ok(Vec::new());
    }
    let ghost s = v@.take(n as int);
    proof {
        assert(s.drop_last() =~= v@.take(n - 1));
        assert(s.last() == v@[n - 1]);
        assert(views(s).drop_last() =~= views(v@.take(n - 1)));
        assert(terms_size(views(s)) == terms_size(views(v@.take(n - 1))) + term_size(v@[n - 1]@));
    }
    let ghost start = enc.cnf();
    let ghost hyp = vars_below(start, sym_lits(syms@), enc.num_vars());
    let prev = lower_prefix(enc, v, n - 1, syms);
    let ghost mid = enc.cnf();
    let ghost n1 = enc.num_vars();
    proof {
        if hyp {
            lemma_below_step(start, mid, sym_lits(syms@), old(enc).num_vars(), n1);
        }
    }
    let mut lits = match prev {
        Err(m) => return Err(m),
        Ok(lits) => lits,
    };
    let res = lower(enc, &v[n - 1], syms);
    proof {
        if hyp {
            lemma_extends_compose(start, mid, enc.cnf(), old(enc).num_vars(), n1);
        }
    }
    let l = match res {
        Err(m) => return Err(m),
        Ok(l) => l,
    };
    let ghost old_lits = lits@;
    lits.push(l);
    proof {
        assert(start.is_prefix_of(enc.cnf()));
        assert forall|asg: spec_fn(u32) -> bool, k: int| #[trigger] cnf_sat(asg, enc.cnf()) && 0 <= k < n
            implies lit_value(asg, lits@[k]) == eval(#[trigger] v@[k]@, syms@, asg) by {
            if k < n - 1 {
                lemma_sat_prefix(asg, mid, enc.cnf());
                assert(lits@[k] == old_lits[k]);
            }
        }
        if hyp {
            assert forall|k: int| 0 <= k < n implies ((#[trigger] lits@[k]).var.0 as nat) < enc.num_vars() by {
                if k < n - 1 {
                    assert(lits@[k] == old_lits[k]);
                }
            }
        }
    }
    Ok(lits)
}

/// Lowers a boolean formula to a literal that, under every assignment that
/// satisfies the emitted clauses, holds exactly when the formula does.
///
/// Fails on bitvector kinds and on symbols that are not boolean or not
/// bound in `syms`.
pub fn lower<E: BitEncoder>(enc: &mut E, e: &AnyExpr, syms: &Vec<(String, Lit)>) -> (r: Result<Lit, String>)
    requires
        e@.wf(),
        old(enc).num_vars() + 3 * term_size(e@) <= u32::MAX,
    ensures
        r is Ok <==> lowerable(e@, syms@),
        old(enc).cnf().is_prefix_of(final(enc).cnf()),
        old(enc).num_vars() <= final(enc).num_vars(),
        final(enc).num_vars() <= old(enc).num_vars() + 3 * term_size(e@),
        vars_below(old(enc).cnf(), sym_lits(syms@), old(enc).num_vars())
            ==> cnf_vars_below(final(enc).cnf(), final(enc).num_vars()),
        vars_below(old(enc).cnf(), sym_lits(syms@), old(enc).num_vars())
            ==> extends_sat(old(enc).cnf(), final(enc).cnf(), old(enc).num_vars()),
        vars_below(old(enc).cnf(), sym_lits(syms@), old(enc).num_vars()) && r is Ok
            ==> (r->Ok_0.var.0 as nat) < final(enc).num_vars(),
        r is Ok ==> forall|asg: spec_fn(u32) -> bool| #[trigger] cnf_sat(asg, final(enc).cnf())
            ==> lit_value(asg, r->Ok_0) == eval(e@, syms@, asg),
    decreases 2 * term_size(e@),
{
    let ghost t = e@;
    let ghost c0 = enc.cnf();
    let ghost n0 = enc.num_vars();
    let ghost sl = sym_lits(syms@);
    let ghost hyp = vars_below(c0, sl, n0);
    proof {
        assert(terms_size(t.childs) < term_size(t));
    }
    match e {
        AnyExpr::BoolConst(c) => {
            let o = enc.new_var();
            let l = if c.val { o } else { o.negate() };
            enc.assert_lit(l);
            proof {
                assert forall|asg: spec_fn(u32) -> bool| #[trigger] cnf_sat(asg, enc.cnf())
                    implies lit_value(asg, o) == eval(t, syms@, asg) by {
                    let n = old(enc).cnf().len() as int;
                    assert(clause_sat(asg, enc.cnf()[n]));
                    assert(enc.cnf()[n][0] == l);
                }
                if hyp {
                    assert(seq![l][0] == l);
                    assert(vars_below(c0, seq![l], n0 + 1));
                    assert forall|a: spec_fn(u32) -> bool| #[trigger] cnf_sat(a, c0)
                        implies cnf_sat(set_lit(a, l, true), enc.cnf()) by {
                        let b = set_lit(a, l, true);
                        let k = c0.len() as int;
                        assert(enc.cnf()[k] == seq![l]);
                        assert(lit_value(b, enc.cnf()[k][0]));
                        assert(c0.is_prefix_of(enc.cnf()));
                        lemma_extend_sat(a, b, c0, enc.cnf(), n0);
                    }
                    lemma_gate_extends(c0, enc.cnf(), n0, l, |a: spec_fn(u32) -> bool| true);
                }
            }
            Ok(o)
        },
        AnyExpr::Symbol(s) => {
            if s.ty != Type::Bool {
                proof {
                    lemma_extends_refl(c0, n0);
                }
                return Err("Expected a symbol of bool type.".to_owned());
            }
            proof {
                lemma_extends_refl(c0, n0);
                if hyp {
                    lemma_lookup_below(syms@, s.name@, n0);
                }
            }
            match find_symbol(syms, &s.name) {
                Some(l) => Ok(l),
                None => Err("Unbound symbol.".to_owned()),
            }
        },
        AnyExpr::Not(n) => {
            proof {
                assert(t.childs[0] == n.inner@);
                lemma_child_smaller(t, 0);
            }
            match lower(enc, &n.inner, syms) {
                Ok(l) => Ok(l.negate()),
                Err(m) => Err(m),
            }
        },
        AnyExpr::BoolEquals(b) => {
            proof {
                assert(t.childs[0] == b.children.lhs@ && t.childs[1] == b.children.rhs@);
                lemma_child_smaller(t, 0);
                lemma_child_smaller(t, 1);
                lemma_size_child(t.childs, 0);
                assert(t.childs.drop_last() =~= seq![t.childs[0]]);
                assert(seq![t.childs[0]].drop_last() =~= Seq::<Term>::empty());
                assert(terms_size(Seq::<Term>::empty()) == 0);
                assert(terms_size(seq![t.childs[0]]) == term_size(t.childs[0]));
                assert(terms_size(t.childs) == term_size(t.childs[0]) + term_size(t.childs[1]));
            }
            let lr = lower(enc, &b.children.lhs, syms);
            let ghost mid = enc.cnf();
            let ghost n1 = enc.num_vars();
            proof {
                if hyp {
                    lemma_below_step(c0, mid, sl, n0, n1);
                }
            }
            let l = match lr {
                Ok(l) => l,
                Err(m) => return Err(m),
            };
            let rr = lower(enc, &b.children.rhs, syms);
            let ghost mid2 = enc.cnf();
            let ghost n2 = enc.num_vars();
            proof {
                if hyp {
                    lemma_below_step(mid, mid2, sl, n1, n2);
                    lemma_extends_compose(c0, mid, mid2, n0, n1);
                }
            }
            let r = match rr {
                Ok(r) => r,
                Err(m) => return Err(m),
            };
            let o = enc.iff(l, r);
            proof {
                if hyp {
                    assert(seq![l, r][0] == l && seq![l, r][1] == r);
                    assert(vars_below(mid2, seq![l, r], n2));
                    lemma_gate_extends(mid2, enc.cnf(), n2, o,
                        |a: spec_fn(u32) -> bool| lit_value(a, l) == lit_value(a, r));
                    lemma_extends_compose(c0, mid2, enc.cnf(), n0, n2);
                }
            }
            proof {
                assert forall|asg: spec_fn(u32) -> bool| #[trigger] cnf_sat(asg, enc.cnf())
                    implies lit_value(asg, o) == eval(t, syms@, asg) by {
                    lemma_sat_prefix(asg, mid2, enc.cnf());
                    lemma_sat_prefix(asg, mid, enc.cnf());
                }
            }
            Ok(o)
        },
        AnyExpr::IfThenElse(ite) => {
            proof {
                assert(t.childs[0] == ite.childs.cond@ && t.childs[1] == ite.childs.then_case@
                    && t.childs[2] == ite.childs.else_case@);
                assert(t.childs.drop_last() =~= seq![t.childs[0], t.childs[1]]);
                assert(seq![t.childs[0], t.childs[1]].drop_last() =~= seq![t.childs[0]]);
                assert(seq![t.childs[0]].drop_last() =~= Seq::<Term>::empty());
                assert(terms_size(Seq::<Term>::empty()) == 0);
                assert(terms_size(seq![t.childs[0]]) == term_size(t.childs[0]));
                assert(terms_size(seq![t.childs[0], t.childs[1]]) == term_size(t.childs[0]) + term_size(t.childs[1]));
                assert(terms_size(t.childs) == term_size(t.childs[0]) + term_size(t.childs[1]) + term_size(t.childs[2]));
                lemma_child_smaller(t, 0);
                lemma_child_smaller(t, 1);
                lemma_child_smaller(t, 2);
            }
            let c = match lower(enc, &ite.childs.cond, syms) {
                Ok(c) => c,
                Err(m) => return Err(m),
            };
            let ghost m1 = enc.cnf();
            let th = match lower(enc, &ite.childs.then_case, syms) {
                Ok(x) => x,
                Err(m) => return Err(m),
            };
            let ghost m2 = enc.cnf();
            let el = match lower(enc, &ite.childs.else_case, syms) {
                Ok(x) => x,
                Err(m) => return Err(m),
            };
            let ghost m3 = enc.cnf();
            let xs = vec![c, th];
            let x = enc.and(xs.as_slice());
            let ghost m4 = enc.cnf();
            let ys = vec![c.negate(), el];
            let y = enc.and(ys.as_slice());
            let ghost m5 = enc.cnf();
            let zs = vec![x, y];
            let o = enc.or(zs.as_slice());
            proof {
                assert(xs@ =~= seq![c, th]);
                assert(ys@ =~= seq![neg(c), el]);
                assert(zs@ =~= seq![x, y]);
                assert forall|asg: spec_fn(u32) -> bool| #[trigger] cnf_sat(asg, enc.cnf())
                    implies lit_value(asg, o) == eval(t, syms@, asg) by {
                    lemma_sat_prefix(asg, m5, enc.cnf());
                    lemma_sat_prefix(asg, m4, enc.cnf());
                    lemma_sat_prefix(asg, m3, enc.cnf());
                    lemma_sat_prefix(asg, m2, enc.cnf());
                    lemma_sat_prefix(asg, m1, enc.cnf());
                    lemma_pair(asg, c, th);
                    lemma_pair(asg, neg(c), el);
                    lemma_pair(asg, x, y);
                }
            }
            Ok(o)
        },
        AnyExpr::And(a) => {
            proof {
                lemma_views(a.childs@);
                assert(a.childs@.take(a.childs@.len() as int) =~= a.childs@);
                assert forall|k: int| 0 <= k < a.childs@.len() implies (#[trigger] a.childs@[k]@).wf() by {
                    assert(t.childs[k] == a.childs@[k]@);
                }
            }
            let lits = match lower_prefix(enc, &a.childs, a.childs.len(), syms) {
                Ok(lits) => lits,
                Err(m) => {
                    proof {
                        let k = choose|k: int| 0 <= k < a.childs@.len() && !lowerable(#[trigger] a.childs@[k]@, syms@);
                        assert(t.childs[k] == a.childs@[k]@);
                    }
                    return Err(m);
                },
            };
            let ghost mid = enc.cnf();
            let o = enc.and(lits.as_slice());
            proof {
                assert forall|k: int| 0 <= k < t.childs.len() implies lowerable(#[trigger] t.childs[k], syms@) by {
                    assert(t.childs[k] == a.childs@[k]@);
                }
                assert forall|asg: spec_fn(u32) -> bool| #[trigger] cnf_sat(asg, enc.cnf())
                    implies lit_value(asg, o) == eval(t, syms@, asg) by {
                    lemma_sat_prefix(asg, mid, enc.cnf());
                    if all_hold(asg, lits@) {
                        assert forall|k: int| 0 <= k < t.childs.len() implies eval(#[trigger] t.childs[k], syms@, asg) by {
                            assert(t.childs[k] == a.childs@[k]@);
                            assert(lit_value(asg, lits@[k]));
                        }
                    } else {
                        let k = choose|k: int| 0 <= k < lits@.len() && !#[trigger] lit_value(asg, lits@[k]);
                        assert(t.childs[k] == a.childs@[k]@);
                        assert(!eval(a.childs@[k]@, syms@, asg));
                    }
                }
            }
            Ok(o)
        },
        AnyExpr::Or(a) => {
            proof {
                lemma_views(a.childs@);
                assert(a.childs@.take(a.childs@.len() as int) =~= a.childs@);
                assert forall|k: int| 0 <= k < a.childs@.len() implies (#[trigger] a.childs@[k]@).wf() by {
                    assert(t.childs[k] == a.childs@[k]@);
                }
            }
            let lits = match lower_prefix(enc, &a.childs, a.childs.len(), syms) {
                Ok(lits) => lits,
                Err(m) => {
                    proof {
                        let k = choose|k: int| 0 <= k < a.childs@.len() && !lowerable(#[trigger] a.childs@[k]@, syms@);
                        assert(t.childs[k] == a.childs@[k]@);
                    }
                    return Err(m);
                },
            };
            let ghost mid = enc.cnf();
            let o = enc.or(lits.as_slice());
            proof {
                assert forall|k: int| 0 <= k < t.childs.len() implies lowerable(#[trigger] t.childs[k], syms@) by {
                    assert(t.childs[k] == a.childs@[k]@);
                }
                assert forall|asg: spec_fn(u32) -> bool| #[trigger] cnf_sat(asg, enc.cnf())
                    implies lit_value(asg, o) == eval(t, syms@, asg) by {
                    lemma_sat_prefix(asg, mid, enc.cnf());
                    if any_holds(asg, lits@) {
                        let k = choose|k: int| 0 <= k < lits@.len() && #[trigger] lit_value(asg, lits@[k]);
                        assert(t.childs[k] == a.childs@[k]@);
                        assert(eval(t.childs[k], syms@, asg));
                    } else {
                        assert forall|k: int| 0 <= k < t.childs.len() implies !eval(#[trigger] t.childs[k], syms@, asg) by {
                            assert(t.childs[k] == a.childs@[k]@);
                            assert(!lit_value(asg, lits@[k]));
                        }
                    }
                }
            }
            Ok(o)
        },
        AnyExpr::BitAnd(_) => Err("Bitvector terms are not lowered to a single literal.".to_owned()),
        AnyExpr::LogicalShiftRight(_) => Err("Bitvector terms are not lowered to a single literal.".to_owned()),
    }
}

} // verus!
