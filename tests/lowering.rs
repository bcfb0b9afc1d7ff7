use stevia::encoder::{BitEncoder, ClauseEncoder, Lit};
use stevia::expr::{AnyExpr, And, BinBoolExpr, BitAnd, BitvecTy, BoolConst, IfThenElse, Not, Or, Symbol, Type};
use stevia::lower::lower;

fn bool_sym(name: &str) -> AnyExpr {
    AnyExpr::Symbol(Symbol { name: name.to_string(), ty: Type::Bool })
}

fn constant(val: bool) -> AnyExpr {
    AnyExpr::BoolConst(BoolConst { val })
}

fn lit_holds(asg: &[bool], l: Lit) -> bool {
    let v = asg[l.var.0 as usize];
    if l.negated { !v } else { v }
}

/// Every satisfying assignment of the encoder's clauses, over its variables.
fn models(enc: &ClauseEncoder) -> Vec<Vec<bool>> {
    let n = enc.var_count() as usize;
    let mut out = Vec::new();
    for bits in 0..(1u32 << n) {
        let asg: Vec<bool> = (0..n).map(|i| bits & (1 << i) != 0).collect();
        if enc.is_satisfied_by(&asg) {
            out.push(asg);
        }
    }
    out
}

#[test]
fn scenario_root_is_forced_whatever_x_is() {
    let mut enc = ClauseEncoder::new();
    let x = enc.new_var();
    let syms = vec![("x".to_string(), x)];
    let and = AnyExpr::And(And::nary(vec![bool_sym("x"), constant(false)]).unwrap());
    let inner = lower(&mut enc, &and, &syms).unwrap();
    let root_expr = AnyExpr::Not(Not::new(and).unwrap());
    let root = lower(&mut enc, &root_expr, &syms).unwrap();
    let ms = models(&enc);
    for xv in [false, true] {
        assert!(ms.iter().any(|m| m[0] == xv));
    }
    for m in &ms {
        assert!(!lit_holds(m, inner));
        assert!(lit_holds(m, root));
    }
}

#[test]
fn lowering_follows_the_formula() {
    let mut enc = ClauseEncoder::new();
    let p = enc.new_var();
    let q = enc.new_var();
    let syms = vec![("p".to_string(), p), ("q".to_string(), q)];
    let ite = AnyExpr::IfThenElse(IfThenElse::new(bool_sym("p"), bool_sym("q"), constant(true)).unwrap());
    let eq = AnyExpr::BoolEquals(BinBoolExpr::new(bool_sym("p"), bool_sym("q")).unwrap());
    let or = AnyExpr::Or(Or::nary(vec![ite, eq]).unwrap());
    let l = lower(&mut enc, &or, &syms).unwrap();
    let ms = models(&enc);
    for pv in [false, true] {
        for qv in [false, true] {
            assert!(ms.iter().any(|m| m[0] == pv && m[1] == qv));
        }
    }
    for m in &ms {
        let (pv, qv) = (m[0], m[1]);
        let expected = (if pv { qv } else { true }) || (pv == qv);
        assert_eq!(lit_holds(m, l), expected);
    }
}

#[test]
fn lowering_rejects_unbound_and_bitvector_input() {
    let mut enc = ClauseEncoder::new();
    let syms: Vec<(String, Lit)> = Vec::new();
    assert!(lower(&mut enc, &bool_sym("y"), &syms).is_err());
    let bv = |n: &str| AnyExpr::Symbol(Symbol { name: n.to_string(), ty: Type::Bitvec(BitvecTy(4)) });
    let t = AnyExpr::BitAnd(BitAnd::nary(BitvecTy(4), vec![bv("a"), bv("b")]).unwrap());
    assert!(lower(&mut enc, &t, &syms).is_err());
}
