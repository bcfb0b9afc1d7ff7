use stevia::childs::ChildsIter;
use stevia::expr::{
    AnyExpr, And, BinBoolExpr, BitAnd, BitvecTy, BoolConst, ExprKind, IfThenElse,
    LogicalShiftRight, Not, Or, Symbol, Type,
};

fn bool_sym(name: &str) -> AnyExpr {
    AnyExpr::Symbol(Symbol { name: name.to_string(), ty: Type::Bool })
}

fn bv_sym(name: &str, w: u32) -> AnyExpr {
    AnyExpr::Symbol(Symbol { name: name.to_string(), ty: Type::Bitvec(BitvecTy(w)) })
}

fn names(mut it: ChildsIter) -> Vec<String> {
    let mut out = Vec::new();
    while let Some(e) = it.next() {
        match e {
            AnyExpr::Symbol(s) => out.push(s.name.clone()),
            _ => out.push("?".to_string()),
        }
    }
    assert!(it.next().is_none());
    out
}

#[test]
fn shift_rejects_mismatched_widths() {
    let r = LogicalShiftRight::new(BitvecTy(8), bv_sym("a", 8), bv_sym("b", 16));
    assert_eq!(
        r.unwrap_err(),
        "Expected an expression of bitvec type with the required bit width."
    );
    assert!(LogicalShiftRight::new(BitvecTy(8), bool_sym("p"), bv_sym("b", 8)).is_err());
}

#[test]
fn shift_accepts_equal_widths() {
    let s = LogicalShiftRight::new(BitvecTy(32), bv_sym("a", 32), bv_sym("b", 32)).unwrap();
    assert_eq!(s.bitvec_ty, BitvecTy(32));
    let e = AnyExpr::LogicalShiftRight(s);
    assert_eq!(e.ty(), Type::Bitvec(BitvecTy(32)));
    assert_eq!(e.kind(), ExprKind::LogicalShiftRight);
    assert_eq!(e.arity(), 2);
}

#[test]
fn bool_equals_needs_bool_operands() {
    let r = BinBoolExpr::new(bool_sym("p"), bv_sym("b", 4));
    assert_eq!(r.unwrap_err(), "Expected an expression of bool type.");
    let ok = BinBoolExpr::new(bool_sym("p"), bool_sym("q")).unwrap();
    let e = AnyExpr::BoolEquals(ok);
    assert_eq!(e.ty(), Type::Bool);
    assert_eq!(names(e.childs()), vec!["p", "q"]);
}

#[test]
fn bitand_needs_two_children_of_its_width() {
    let r = BitAnd::nary(BitvecTy(8), Vec::new());
    assert_eq!(
        r.unwrap_err(),
        "Requires at least two child expressions to create an BitAnd term expression."
    );
    let r = BitAnd::nary(BitvecTy(8), vec![bool_sym("p")]);
    assert_eq!(
        r.unwrap_err(),
        "Requires at least two child expressions to create an BitAnd term expression."
    );
    let r = BitAnd::nary(BitvecTy(8), vec![bv_sym("a", 8), bv_sym("b", 9)]);
    assert_eq!(
        r.unwrap_err(),
        "Requires all child expressions to be of bitvec type with the expected bit width."
    );
    let ok = BitAnd::nary(BitvecTy(8), vec![bv_sym("a", 8), bv_sym("b", 8), bv_sym("c", 8)]).unwrap();
    assert_eq!(AnyExpr::BitAnd(ok).ty(), Type::Bitvec(BitvecTy(8)));
}

#[test]
fn formula_constructors_check_types() {
    assert!(Not::new(bv_sym("a", 1)).is_err());
    assert!(Not::new(bool_sym("p")).is_ok());
    assert!(IfThenElse::new(bool_sym("c"), bool_sym("t"), bv_sym("e", 2)).is_err());
    assert!(And::nary(vec![bool_sym("p")]).is_err());
    assert!(Or::nary(vec![bool_sym("p"), bv_sym("a", 3)]).is_err());
    assert!(Or::nary(vec![bool_sym("p"), bool_sym("q")]).is_ok());
}

#[test]
fn children_come_in_operand_order() {
    let leaf = AnyExpr::BoolConst(BoolConst { val: true });
    assert_eq!(names(leaf.childs()).len(), 0);
    assert_eq!(leaf.arity(), 0);
    let not = AnyExpr::Not(Not::new(bool_sym("x")).unwrap());
    assert_eq!(names(not.childs()), vec!["x"]);
    let eq = AnyExpr::BoolEquals(BinBoolExpr::new(bool_sym("a"), bool_sym("b")).unwrap());
    assert_eq!(names(eq.childs()), vec!["a", "b"]);
    let ite = AnyExpr::IfThenElse(IfThenElse::new(bool_sym("c"), bool_sym("t"), bool_sym("e")).unwrap());
    assert_eq!(names(ite.childs()), vec!["c", "t", "e"]);
    assert_eq!(ite.arity(), 3);
    let and = AnyExpr::And(And::nary(vec![bool_sym("p"), bool_sym("q"), bool_sym("r"), bool_sym("s")]).unwrap());
    assert_eq!(names(and.childs()), vec!["p", "q", "r", "s"]);
    assert_eq!(and.arity(), 4);
    assert_eq!(and.into_childs().len(), 4);
}

#[test]
fn inline_iterators_stop_after_their_slots() {
    let a = bool_sym("a");
    let b = bool_sym("b");
    let c = bool_sym("c");
    assert_eq!(names(ChildsIter::none()).len(), 0);
    assert_eq!(names(ChildsIter::unary(&a)), vec!["a"]);
    assert_eq!(names(ChildsIter::binary(&a, &b)), vec!["a", "b"]);
    assert_eq!(names(ChildsIter::ternary(&a, &b, &c)), vec!["a", "b", "c"]);
    let v = vec![a, b, c];
    assert_eq!(names(ChildsIter::nary(&v)), vec!["a", "b", "c"]);
}

#[test]
fn children_can_be_replaced_in_place() {
    let mut and = AnyExpr::And(And::nary(vec![bool_sym("p"), bool_sym("q")]).unwrap());
    *and.child_mut(1) = bool_sym("r");
    assert_eq!(names(and.childs()), vec!["p", "r"]);
    let mut ite = AnyExpr::IfThenElse(IfThenElse::new(bool_sym("c"), bool_sym("t"), bool_sym("e")).unwrap());
    *ite.child_mut(2) = bool_sym("f");
    assert_eq!(names(ite.childs()), vec!["c", "t", "f"]);
    let mut eq = AnyExpr::BoolEquals(BinBoolExpr::new(bool_sym("a"), bool_sym("b")).unwrap());
    *eq.child_mut(0) = bool_sym("x");
    assert_eq!(names(eq.childs()), vec!["x", "b"]);
}
