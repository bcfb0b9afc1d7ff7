use stevia::encoder::{BitEncoder, ClauseEncoder, Lit, Var};
use stevia::expr::{AnyExpr, And, BoolConst, Not, Symbol, Type};
use stevia::rules::{AndFalseFolder, NotConstFolder};
use stevia::transform::TransformResult::{Identity, Transformed};
use stevia::transform::{
    AnyExprAndTransformResult, AnyTransformer, BaseTransformer, Chain, NoopTransformer, TransformResult,
};

fn bool_sym(name: &str) -> AnyExpr {
    AnyExpr::Symbol(Symbol { name: name.to_string(), ty: Type::Bool })
}

fn constant(val: bool) -> AnyExpr {
    AnyExpr::BoolConst(BoolConst { val })
}

fn scenario_tree() -> AnyExpr {
    let and = And::nary(vec![bool_sym("x"), constant(false)]).unwrap();
    AnyExpr::Not(Not::new(AnyExpr::And(and)).unwrap())
}

#[test]
fn transform_result_is_an_or_monoid() {
    for r in [Identity, Transformed] {
        let mut a = Identity;
        a.bitor_assign(r);
        assert_eq!(a, r);
        let mut b = Transformed;
        b.bitor_assign(r);
        assert_eq!(b, Transformed);
    }
    let mut c = Identity;
    c.bitor_assign(Identity);
    assert_eq!(c, Identity);
}

#[test]
fn result_pair_constructors() {
    let p = AnyExprAndTransformResult::identity(constant(true));
    assert_eq!(p.result, TransformResult::Identity);
    assert_eq!(p.expr, constant(true));
    let q = AnyExprAndTransformResult::new(TransformResult::Transformed, constant(false));
    assert_eq!(q.result, TransformResult::Transformed);
}

#[test]
fn noop_pass_reports_identity_and_keeps_tree() {
    let base = BaseTransformer::new(NoopTransformer::default());
    let mut e = scenario_tree();
    assert_eq!(base.traverse_transform_any_expr(&mut e), TransformResult::Identity);
    assert_eq!(e, scenario_tree());
}

#[test]
fn scenario_simplifies_in_three_passes() {
    let fold_and = BaseTransformer::new(AndFalseFolder);
    let fold_not = BaseTransformer::new(NotConstFolder);
    let mut e = scenario_tree();
    assert_eq!(fold_and.transform_any_expr(&mut e), TransformResult::Transformed);
    assert_eq!(e, AnyExpr::Not(Not::new(constant(false)).unwrap()));
    assert_eq!(fold_not.transform_any_expr(&mut e), TransformResult::Transformed);
    assert_eq!(e, constant(true));
    assert_eq!(fold_and.transform_any_expr(&mut e), TransformResult::Identity);
    assert_eq!(fold_not.transform_any_expr(&mut e), TransformResult::Identity);
    assert_eq!(e, constant(true));
}

#[test]
fn pass_at_fixpoint_stays_at_fixpoint() {
    let fold_and = BaseTransformer::new(AndFalseFolder);
    let mut e = scenario_tree();
    let mut n = 0;
    while fold_and.traverse_transform_any_expr(&mut e) == TransformResult::Transformed {
        n += 1;
    }
    assert_eq!(n, 1);
    let before = AnyExpr::Not(Not::new(constant(false)).unwrap());
    assert_eq!(e, before);
    assert_eq!(fold_and.traverse_transform_any_expr(&mut e), TransformResult::Identity);
    assert_eq!(e, before);
}

#[test]
fn fixpoint_driver_counts_passes() {
    let fold_and = BaseTransformer::new(AndFalseFolder);
    let mut e = scenario_tree();
    assert_eq!(fold_and.transform_to_fixpoint(&mut e, 10), 1);
    assert_eq!(e, AnyExpr::Not(Not::new(constant(false)).unwrap()));
    let mut f = scenario_tree();
    assert_eq!(fold_and.transform_to_fixpoint(&mut f, 0), 0);
    assert_eq!(f, scenario_tree());
}

#[test]
fn consuming_transform_matches_in_place() {
    let fold_and = BaseTransformer::new(AndFalseFolder);
    let r = fold_and.into_transform_any_expr(scenario_tree());
    assert_eq!(r.result, TransformResult::Transformed);
    assert_eq!(r.expr, AnyExpr::Not(Not::new(constant(false)).unwrap()));
}

fn values(bits: &[bool]) -> Vec<bool> {
    bits.to_vec()
}

/// For every assignment of the two inputs, the clauses can be satisfied, and
/// every satisfying assignment gives the output `f(a, b)`.
fn check_binary_gate(gate: fn(&mut ClauseEncoder, Lit, Lit) -> Lit, f: fn(bool, bool) -> bool) {
    let mut enc = ClauseEncoder::new();
    let a = enc.new_var();
    let b = enc.new_var();
    let o = gate(&mut enc, a, b);
    assert_eq!(o.var, Var(2));
    for bits in 0..8u32 {
        let asg = values(&[bits & 1 != 0, bits & 2 != 0, bits & 4 != 0]);
        let out = if o.negated { !asg[2] } else { asg[2] };
        if enc.is_satisfied_by(&asg) {
            assert_eq!(out, f(asg[0], asg[1]));
        }
    }
    for bits in 0..4u32 {
        let (x, y) = (bits & 1 != 0, bits & 2 != 0);
        let sat = [false, true].iter().any(|&z| enc.is_satisfied_by(&values(&[x, y, z])));
        assert!(sat);
    }
}

#[test]
fn xor_gate_is_forced() {
    check_binary_gate(|e, a, b| e.xor(a, b), |a, b| a != b);
}

#[test]
fn iff_gate_is_forced() {
    check_binary_gate(|e, a, b| e.iff(a, b), |a, b| a == b);
}

#[test]
fn implies_gate_is_forced() {
    check_binary_gate(|e, a, b| e.implies(a, b), |a, b| !a || b);
}

#[test]
fn and_gate_is_forced() {
    check_binary_gate(|e, a, b| e.and(&[a, b]), |a, b| a && b);
}

#[test]
fn or_gate_is_forced() {
    check_binary_gate(|e, a, b| e.or(&[a, b]), |a, b| a || b);
}

#[test]
fn asserted_literal_must_hold() {
    let mut enc = ClauseEncoder::new();
    let a = enc.new_var();
    enc.assert_lit(a.negate());
    assert!(enc.is_satisfied_by(&values(&[false])));
    assert!(!enc.is_satisfied_by(&values(&[true])));
}

#[test]
fn variable_packs_are_fresh() {
    let mut enc = ClauseEncoder::new();
    let a = enc.new_var();
    let pack = enc.new_var_pack(5);
    let b = enc.new_var();
    assert_eq!(a.var, Var(0));
    assert_eq!(pack.first, Var(1));
    assert_eq!(pack.len, 5);
    assert_eq!(b.var, Var(6));
    assert_eq!(enc.var_count(), 7);
}

#[test]
fn chained_rules_run_in_order_within_one_pass() {
    let both = BaseTransformer::new(Chain::new(AndFalseFolder, NotConstFolder));
    let mut e = scenario_tree();
    assert_eq!(both.transform_any_expr(&mut e), Transformed);
    assert_eq!(e, constant(true));
    assert_eq!(both.transform_any_expr(&mut e), Identity);
    let mut f = scenario_tree();
    assert_eq!(both.transform_to_fixpoint(&mut f, 5), 1);
    assert_eq!(f, constant(true));
}
