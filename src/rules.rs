//! Two rewrite rules for boolean formulas.
use crate::expr::{
    AnyExpr, And, BitAnd, BoolConst, BoolEquals, Head, IfThenElse, LogicalShiftRight, Not, Or,
    Symbol, Term, lemma_views, views,
};
use crate::transform::{AnyExprAndTransformResult, AutoImplAnyTransformer, TransformResult, Transformer};
use vstd::prelude::*;

verus! {

/// The model of the constant `b`.
pub open spec fn const_term(b: bool) -> Term {
    Term { head: Head::BoolConst(b), childs: Seq::empty() }
}

/// The model of the constant `false`.
pub open spec fn false_term() -> Term {
    const_term(false)
}

fn is_false(e: &AnyExpr) -> (r: bool)
    ensures
        r == (e@ == false_term()),
{
    match e {
        AnyExpr::BoolConst(c) => {
            assert(e@.childs =~= Seq::<Term>::empty());
            !c.val
        },
        _ => false,
    }
}

/// Rewrites a conjunction that has a `false` child to `false`.
#[derive(Debug, Copy, Clone, PartialEq, Eq, Hash)]
pub struct AndFalseFolder;

/// Rewrites the negation of a constant to the opposite constant.
#[derive(Debug, Copy, Clone, PartialEq, Eq, Hash)]
pub struct NotConstFolder;

impl Transformer for AndFalseFolder {
    open spec fn rewrite(self, e: Term) -> (Term, TransformResult) {
        if e.head == Head::And && exists|k: int| 0 <= k < e.childs.len() && #[trigger] e.childs[k] == false_term() {
            (false_term(), TransformResult::Transformed)
        } else {
            (e, TransformResult::Identity)
        }
    }

    proof fn lemma_rewrite(self, e: Term) {
    }

    fn transform_cond(self, cond: IfThenElse) -> (r: AnyExprAndTransformResult) {
        AnyExprAndTransformResult::identity(AnyExpr::IfThenElse(cond))
    }

    fn transform_var(self, var: Symbol) -> (r: AnyExprAndTransformResult) {
        AnyExprAndTransformResult::identity(AnyExpr::Symbol(var))
    }

    fn transform_bool_const(self, bool_const: BoolConst) -> (r: AnyExprAndTransformResult) {
        AnyExprAndTransformResult::identity(AnyExpr::BoolConst(bool_const))
    }

    fn transform_bool_equals(self, bool_equals: BoolEquals) -> (r: AnyExprAndTransformResult) {
        AnyExprAndTransformResult::identity(AnyExpr::BoolEquals(bool_equals))
    }

    fn transform_and(self, and: And) -> (r: AnyExprAndTransformResult) {
        let mut found = false;
        let mut i: usize = 0;
        proof {
            lemma_views(and.childs@);
        }
        while i < and.childs.len()
            invariant
                i <= and.childs@.len(),
                views(and.childs@).len() == and.childs@.len(),
                forall|k: int| 0 <= k < and.childs@.len() ==> #[trigger] views(and.childs@)[k] == and.childs@[k]@,
                found <==> exists|k: int| 0 <= k < i && #[trigger] views(and.childs@)[k] == false_term(),
            decreases and.childs@.len() - i,
        {
            let f = is_false(&and.childs[i]);
            if f {
                found = true;
            }
            proof {
                if f {
                    assert(views(and.childs@)[i as int] == false_term());
                } else if !found {
                    assert forall|k: int| 0 <= k < i + 1 implies #[trigger] views(and.childs@)[k] != false_term() by {
                        if k == i {
                            assert(views(and.childs@)[k] == and.childs@[k]@);
                        }
                    }
                }
            }
            i = i + 1;
        }
        let ghost e = AnyExpr::And(and)@;
        assert(e.head == Head::And && e.childs == views(and.childs@));
        if found {
            AnyExprAndTransformResult::new(TransformResult::Transformed, AnyExpr::BoolConst(BoolConst { val: false }))
        } else {
            AnyExprAndTransformResult::identity(AnyExpr::And(and))
        }
    }

    fn transform_or(self, or: Or) -> (r: AnyExprAndTransformResult) {
        AnyExprAndTransformResult::identity(AnyExpr::Or(or))
    }

    fn transform_not(self, not: Not) -> (r: AnyExprAndTransformResult) {
        AnyExprAndTransformResult::identity(AnyExpr::Not(not))
    }

    fn transform_bitand(self, bitand: BitAnd) -> (r: AnyExprAndTransformResult) {
        AnyExprAndTransformResult::identity(AnyExpr::BitAnd(bitand))
    }

    fn transform_lshr(self, lshr: LogicalShiftRight) -> (r: AnyExprAndTransformResult) {
        AnyExprAndTransformResult::identity(AnyExpr::LogicalShiftRight(lshr))
    }
}

impl AutoImplAnyTransformer for AndFalseFolder {}

impl Transformer for NotConstFolder {
    open spec fn rewrite(self, e: Term) -> (Term, TransformResult) {
        if e.head == Head::Not && e.childs.len() == 1 && e.childs[0].head is BoolConst
            && e.childs[0].childs.len() == 0 {
            (const_term(!e.childs[0].head->BoolConst_0), TransformResult::Transformed)
        } else {
            (e, TransformResult::Identity)
        }
    }

    proof fn lemma_rewrite(self, e: Term) {
    }

    fn transform_cond(self, cond: IfThenElse) -> (r: AnyExprAndTransformResult) {
        AnyExprAndTransformResult::identity(AnyExpr::IfThenElse(cond))
    }

    fn transform_var(self, var: Symbol) -> (r: AnyExprAndTransformResult) {
        AnyExprAndTransformResult::identity(AnyExpr::Symbol(var))
    }

    fn transform_bool_const(self, bool_const: BoolConst) -> (r: AnyExprAndTransformResult) {
        AnyExprAndTransformResult::identity(AnyExpr::BoolConst(bool_const))
    }

    fn transform_bool_equals(self, bool_equals: BoolEquals) -> (r: AnyExprAndTransformResult) {
        AnyExprAndTransformResult::identity(AnyExpr::BoolEquals(bool_equals))
    }

    fn transform_and(self, and: And) -> (r: AnyExprAndTransformResult) {
        AnyExprAndTransformResult::identity(AnyExpr::And(and))
    }

    fn transform_or(self, or: Or) -> (r: AnyExprAndTransformResult) {
        AnyExprAndTransformResult::identity(AnyExpr::Or(or))
    }

    fn transform_not(self, not: Not) -> (r: AnyExprAndTransformResult) {
        let ghost e = AnyExpr::Not(not)@;
        let Not { inner } = not;
        assert(e.childs.len() == 1 && e.childs[0] == (*inner)@);
        match *inner {
            AnyExpr::BoolConst(c) => {
                assert(e.childs[0].childs =~= Seq::<Term>::empty());
                assert(const_term(!c.val) == AnyExpr::BoolConst(BoolConst { val: !c.val })@);
                AnyExprAndTransformResult::new(
                    TransformResult::Transformed,
                    AnyExpr::BoolConst(BoolConst { val: !c.val }),
                )
            },
            other => AnyExprAndTransformResult::identity(AnyExpr::Not(Not { inner: Box::new(other) })),
        }
    }

    fn transform_bitand(self, bitand: BitAnd) -> (r: AnyExprAndTransformResult) {
        AnyExprAndTransformResult::identity(AnyExpr::BitAnd(bitand))
    }

    fn transform_lshr(self, lshr: LogicalShiftRight) -> (r: AnyExprAndTransformResult) {
        AnyExprAndTransformResult::identity(AnyExpr::LogicalShiftRight(lshr))
    }
}

impl AutoImplAnyTransformer for NotConstFolder {}

} // verus!
