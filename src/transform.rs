//! Rewriting expression trees: per-kind transformers and a driver that
//! applies one of them bottom-up over a whole tree, in place.
use crate::expr::{
    AnyExpr, And, BitAnd, BoolConst, BoolEquals, Head, IfThenElse, LogicalShiftRight, Not, Or,
    Symbol, Term, arity_fits, children_of, head_ty, lemma_children_of, lemma_views, views,
};
use vstd::prelude::*;

verus! {

/// Describes whether the result of a transformation actually transformed
/// the input or did nothing to it.
#[derive(Debug, Copy, Clone, PartialEq, Eq, Hash, Structural)]
pub enum TransformResult {
    /// States that the transformation had no effect on the input.
    Identity,
    /// States that the transformation transformed the input.
    Transformed,
}

/// Combining two results: `Transformed` if either is.
pub open spec fn combine(a: TransformResult, b: TransformResult) -> TransformResult {
    if a is Transformed || b is Transformed {
        TransformResult::Transformed
    } else {
        TransformResult::Identity
    }
}

impl TransformResult {
    /// Or-assigns `rhs` to this result: `Identity` is false, `Transformed` is true.
    pub fn bitor_assign(&mut self, rhs: TransformResult)
        ensures
            *final(self) == combine(*old(self), rhs),
    {
        match rhs {
            TransformResult::Transformed => *self = rhs,
            TransformResult::Identity => {},
        }
    }
}

/// Results form a commutative monoid under `combine` with unit `Identity`,
/// in which `Transformed` absorbs everything.
pub proof fn lemma_transform_result_monoid(a: TransformResult, b: TransformResult, c: TransformResult)
    ensures
        combine(TransformResult::Identity, a) == a,
        combine(a, TransformResult::Identity) == a,
        combine(TransformResult::Transformed, a) == TransformResult::Transformed,
        combine(combine(a, b), c) == combine(a, combine(b, c)),
        combine(a, b) == combine(b, a),
{
}

/// An expression together with whether it was transformed.
#[derive(Debug, PartialEq, Eq, Hash)]
pub struct AnyExprAndTransformResult {
    /// States if `expr` actually got transformed.
    pub result: TransformResult,
    /// The (probably) transformed expression.
    pub expr: AnyExpr,
}

impl AnyExprAndTransformResult {
    /// Creates a new `AnyExprAndTransformResult` with the given expression and state.
    pub fn new(result: TransformResult, expr: AnyExpr) -> (r: AnyExprAndTransformResult)
        ensures
            r.result == result,
            r.expr == expr,
    {
        AnyExprAndTransformResult { expr, result }
    }

    /// Creates a new non-transformed `AnyExprAndTransformResult` for the given expression.
    pub fn identity(expr: AnyExpr) -> (r: AnyExprAndTransformResult)
        ensures
            r.result == TransformResult::Identity,
            r.expr == expr,
    {
        AnyExprAndTransformResult::new(TransformResult::Identity, expr)
    }
}

/// A set of rewrite rules, one method per expression kind. A method never
/// looks into the children: the driver has already transformed them.
pub trait Transformer: Copy {
    /// What this transformer makes of one node.
    spec fn rewrite(self, e: Term) -> (Term, TransformResult);

    /// A node reported as unchanged is unchanged, and a well-typed node
    /// stays well-typed with the same type.
    proof fn lemma_rewrite(self, e: Term)
        ensures
            self.rewrite(e).1 is Identity ==> self.rewrite(e).0 == e,
            e.wf() ==> self.rewrite(e).0.wf() && self.rewrite(e).0.ty() == e.ty(),
    ;

    fn transform_cond(self, cond: IfThenElse) -> (r: AnyExprAndTransformResult)
        ensures
            (r.expr@, r.result) == self.rewrite(AnyExpr::IfThenElse(cond)@),
    ;

    fn transform_var(self, var: Symbol) -> (r: AnyExprAndTransformResult)
        ensures
            (r.expr@, r.result) == self.rewrite(AnyExpr::Symbol(var)@),
    ;

    fn transform_bool_const(self, bool_const: BoolConst) -> (r: AnyExprAndTransformResult)
        ensures
            (r.expr@, r.result) == self.rewrite(AnyExpr::BoolConst(bool_const)@),
    ;

    fn transform_bool_equals(self, bool_equals: BoolEquals) -> (r: AnyExprAndTransformResult)
        ensures
            (r.expr@, r.result) == self.rewrite(AnyExpr::BoolEquals(bool_equals)@),
    ;

    fn transform_and(self, and: And) -> (r: AnyExprAndTransformResult)
        ensures
            (r.expr@, r.result) == self.rewrite(AnyExpr::And(and)@),
    ;

    fn transform_or(self, or: Or) -> (r: AnyExprAndTransformResult)
        ensures
            (r.expr@, r.result) == self.rewrite(AnyExpr::Or(or)@),
    ;

    fn transform_not(self, not: Not) -> (r: AnyExprAndTransformResult)
        ensures
            (r.expr@, r.result) == self.rewrite(AnyExpr::Not(not)@),
    ;

    fn transform_bitand(self, bitand: BitAnd) -> (r: AnyExprAndTransformResult)
        ensures
            (r.expr@, r.result) == self.rewrite(AnyExpr::BitAnd(bitand)@),
    ;

    fn transform_lshr(self, lshr: LogicalShiftRight) -> (r: AnyExprAndTransformResult)
        ensures
            (r.expr@, r.result) == self.rewrite(AnyExpr::LogicalShiftRight(lshr)@),
    ;
}

/// Expression transformers that may transform `AnyExpr` instances.
pub trait AnyTransformer: Copy {
    /// What this transformer makes of an expression.
    spec fn spec_transform(self, e: Term) -> (Term, TransformResult);

    /// An expression reported as unchanged is unchanged, and a well-typed
    /// expression stays well-typed with the same type.
    proof fn lemma_transform(self, e: Term)
        ensures
            self.spec_transform(e).1 is Identity ==> self.spec_transform(e).0 == e,
            e.wf() ==> self.spec_transform(e).0.wf() && self.spec_transform(e).0.ty() == e.ty(),
    ;

    /// Transforms the given expression in place and reports whether it changed.
    fn transform_any_expr(self, expr: &mut AnyExpr) -> (r: TransformResult)
        ensures
            (final(expr)@, r) == self.spec_transform(old(expr)@),
    ;

    /// Consumes the given expression and returns it transformed.
    fn into_transform_any_expr(self, expr: AnyExpr) -> (r: AnyExprAndTransformResult)
        ensures
            (r.expr@, r.result) == self.spec_transform(expr@),
    ;
}

/// Implement this to obtain `AnyTransformer` from a `Transformer`.
pub trait AutoImplAnyTransformer {}

/// Moves the expression out of `expr`, leaving a valid placeholder node
/// (`false`) in its place until the caller stores the outcome back.
fn take_expr(expr: &mut AnyExpr) -> (r: AnyExpr)
    ensures
        r == *old(expr),
{
    let mut input = AnyExpr::BoolConst(BoolConst { val: false });
    std::mem::swap(expr, &mut input);
    input
}

impl<T: Transformer + AutoImplAnyTransformer> AnyTransformer for T {
    open spec fn spec_transform(self, e: Term) -> (Term, TransformResult) {
        self.rewrite(e)
    }

    proof fn lemma_transform(self, e: Term) {
        self.lemma_rewrite(e);
    }

    fn transform_any_expr(self, expr: &mut AnyExpr) -> (r: TransformResult) {
        let input = take_expr(expr);
        let AnyExprAndTransformResult { result, expr: transformed } = self.into_transform_any_expr(input);
        *expr = transformed;
        result
    }

    fn into_transform_any_expr(self, expr: AnyExpr) -> (r: AnyExprAndTransformResult) {
        match expr {
            AnyExpr::IfThenElse(e) => self.transform_cond(e),
            AnyExpr::Symbol(e) => self.transform_var(e),
            AnyExpr::BoolConst(e) => self.transform_bool_const(e),
            AnyExpr::BoolEquals(e) => self.transform_bool_equals(e),
            AnyExpr::Not(e) => self.transform_not(e),
            AnyExpr::And(e) => self.transform_and(e),
            AnyExpr::Or(e) => self.transform_or(e),
            AnyExpr::BitAnd(e) => self.transform_bitand(e),
            AnyExpr::LogicalShiftRight(e) => self.transform_lshr(e),
        }
    }
}

/// Simple transformer that does nothing.
#[derive(Debug, Copy, Clone, PartialEq, Eq, Hash)]
pub struct NoopTransformer;

impl Transformer for NoopTransformer {
    open spec fn rewrite(self, e: Term) -> (Term, TransformResult) {
        (e, TransformResult::Identity)
    }

    proof fn lemma_rewrite(self, e: Term) {
    }

    fn transform_cond(self, cond: IfThenElse) -> (r: AnyExprAndTransformResult) {
        AnyExprAndTransformResult::identity(AnyExpr::IfThenElse(cond))
    }

    fn transform_var(self, var: Symbol) -> (r: AnyExprAndTransformResult) {
        AnyExprAndTransformResult::identity(AnyExpr::Symbol(var))
    }

    fn transform_bool_const(self, bool_const: BoolConst) -> (r: AnyExprAndTransformResult) {
        AnyExprAndTransformResult::identity(AnyExpr::BoolConst(bool_const))
    }

    fn transform_bool_equals(self, bool_equals: BoolEquals) -> (r: AnyExprAndTransformResult) {
        AnyExprAndTransformResult::identity(AnyExpr::BoolEquals(bool_equals))
    }

    fn transform_and(self, and: And) -> (r: AnyExprAndTransformResult) {
        AnyExprAndTransformResult::identity(AnyExpr::And(and))
    }

    fn transform_or(self, or: Or) -> (r: AnyExprAndTransformResult) {
        AnyExprAndTransformResult::identity(AnyExpr::Or(or))
    }

    fn transform_not(self, not: Not) -> (r: AnyExprAndTransformResult) {
        AnyExprAndTransformResult::identity(AnyExpr::Not(not))
    }

    fn transform_bitand(self, bitand: BitAnd) -> (r: AnyExprAndTransformResult) {
        AnyExprAndTransformResult::identity(AnyExpr::BitAnd(bitand))
    }

    fn transform_lshr(self, lshr: LogicalShiftRight) -> (r: AnyExprAndTransformResult) {
        AnyExprAndTransformResult::identity(AnyExpr::LogicalShiftRight(lshr))
    }
}

impl AutoImplAnyTransformer for NoopTransformer {}

impl Default for NoopTransformer {
    /// The transformer that does nothing.
    fn default() -> (r: NoopTransformer)
        ensures
            r == NoopTransformer,
    {
        NoopTransformer
    }
}

/// One bottom-up pass of `t` over `e`: every child first, in order, then
/// the node itself; the result is `Transformed` if any step was.
pub open spec fn pass<T: AnyTransformer>(t: T, e: Term) -> (Term, TransformResult)
    decreases e,
{
    let cs = pass_all(t, e.childs);
    let top = t.spec_transform(Term { head: e.head, childs: cs.0 });
    (top.0, combine(cs.1, top.1))
}

/// One pass over each term of `s`, results combined.
pub open spec fn pass_all<T: AnyTransformer>(t: T, s: Seq<Term>) -> (Seq<Term>, TransformResult)
    decreases s,
{
    if s.len() == 0 {
        (Seq::empty(), TransformResult::Identity)
    } else {
        let p = pass_all(t, s.drop_last());
        let q = pass(t, s.last());
        (p.0.push(q.0), combine(p.1, q.1))
    }
}

/// A pass over a sequence keeps its length.
pub proof fn lemma_pass_all_len<T: AnyTransformer>(t: T, s: Seq<Term>)
    ensures
        pass_all(t, s).0.len() == s.len(),
    decreases s.len(),
{
    if s.len() > 0 {
        lemma_pass_all_len(t, s.drop_last());
    }
}

/// A pass over a sequence works element by element.
pub proof fn lemma_pass_all_index<T: AnyTransformer>(t: T, s: Seq<Term>, i: int)
    requires
        0 <= i < s.len(),
    ensures
        pass_all(t, s).0[i] == pass(t, s[i]).0,
        pass(t, s[i]).1 is Transformed ==> pass_all(t, s).1 is Transformed,
    decreases s.len(),
{
    lemma_pass_all_len(t, s.drop_last());
    if i < s.len() - 1 {
        lemma_pass_all_index(t, s.drop_last(), i);
    }
}

/// A pass that reports no change has changed nothing.
pub proof fn lemma_pass_identity<T: AnyTransformer>(t: T, e: Term)
    ensures
        pass(t, e).1 is Identity ==> pass(t, e).0 == e,
    decreases e,
{
    lemma_pass_all_identity(t, e.childs);
    let cs = pass_all(t, e.childs);
    t.lemma_transform(Term { head: e.head, childs: cs.0 });
}

/// A pass over a sequence that reports no change has changed nothing.
pub proof fn lemma_pass_all_identity<T: AnyTransformer>(t: T, s: Seq<Term>)
    ensures
        pass_all(t, s).1 is Identity ==> pass_all(t, s).0 == s,
    decreases s,
{
    if s.len() > 0 {
        lemma_pass_all_identity(t, s.drop_last());
        lemma_pass_identity(t, s.last());
        if pass_all(t, s).1 is Identity {
            assert(pass_all(t, s).0 =~= s);
        }
    }
}

/// A pass keeps a well-typed tree well-typed, with the same type.
pub proof fn lemma_pass_wf<T: AnyTransformer>(t: T, e: Term)
    requires
        e.wf(),
    ensures
        pass(t, e).0.wf(),
        pass(t, e).0.ty() == e.ty(),
    decreases e,
{
    let cs = pass_all(t, e.childs);
    lemma_pass_all_len(t, e.childs);
    assert forall|i: int| 0 <= i < e.childs.len() implies
        (#[trigger] cs.0[i]).wf() && head_ty(cs.0[i].head) == head_ty(e.childs[i].head) by {
        lemma_pass_all_index(t, e.childs, i);
        lemma_pass_wf(t, e.childs[i]);
    }
    let node = Term { head: e.head, childs: cs.0 };
    assert(node.wf());
    t.lemma_transform(node);
}

/// Running a pass until it reports `Identity` reaches a fixpoint: the pass
/// that reports `Identity` leaves the tree as it was, so one more pass
/// reports `Identity` again and alters nothing.
pub proof fn lemma_pass_idempotent_at_fixpoint<T: AnyTransformer>(t: T, e: Term)
    requires
        pass(t, e).1 is Identity,
    ensures
        pass(t, e).0 == e,
        pass(t, pass(t, e).0) == pass(t, e),
{
    lemma_pass_identity(t, e);
}

/// The number of nodes of a tree.
pub open spec fn term_size(t: Term) -> nat
    decreases t,
{
    1 + terms_size(t.childs)
}

/// The number of nodes of a sequence of trees.
pub open spec fn terms_size(s: Seq<Term>) -> nat
    decreases s,
{
    if s.len() == 0 {
        0
    } else {
        terms_size(s.drop_last()) + term_size(s.last())
    }
}

/// A tree of a sequence is no larger than the sequence.
pub proof fn lemma_size_child(s: Seq<Term>, i: int)
    requires
        0 <= i < s.len(),
    ensures
        term_size(s[i]) <= terms_size(s),
    decreases s.len(),
{
    if i < s.len() - 1 {
        lemma_size_child(s.drop_last(), i);
    }
}

/// The tree after `k` passes of `t` over `e`.
pub open spec fn passes<T: AnyTransformer>(t: T, e: Term, k: nat) -> Term
    decreases k,
{
    if k == 0 {
        e
    } else {
        pass(t, passes(t, e, (k - 1) as nat)).0
    }
}

/// Every expression has as many children as its kind allows.
proof fn lemma_arity_fits(e: AnyExpr)
    ensures
        arity_fits(e@.head, e@.childs.len()),
{
    lemma_children_of(e);
}

/// The base transformer: traverses the expression tree bottom-up and
/// applies its sub-transformer to every node.
#[derive(Debug, Copy, Clone, PartialEq, Eq, Hash)]
pub struct BaseTransformer<T> {
    pub sub: T,
}

impl<T: AnyTransformer> BaseTransformer<T> {
    /// A driver over the given sub-transformer.
    pub fn new(sub: T) -> (r: BaseTransformer<T>)
        ensures
            r.sub == sub,
    {
        BaseTransformer { sub }
    }

    /// Applies the sub-transformer to the node itself, not its children.
    fn forward_transform_any_expr(self, expr: &mut AnyExpr) -> (r: TransformResult)
        ensures
            (final(expr)@, r) == self.sub.spec_transform(old(expr)@),
    {
        let mut result = TransformResult::Identity;
        result.bitor_assign(self.sub.transform_any_expr(expr));
        result
    }

    /// One bottom-up pass over `expr`, in place.
    pub fn traverse_transform_any_expr(self, expr: &mut AnyExpr) -> (r: TransformResult)
        ensures
            (final(expr)@, r) == pass(self.sub, old(expr)@),
            r is Identity ==> final(expr)@ == old(expr)@,
            old(expr)@.wf() ==> final(expr)@.wf() && final(expr)@.ty() == old(expr)@.ty(),
    {
        let input = take_expr(expr);
        let AnyExprAndTransformResult { result, expr: transformed } = self.into_traverse(input);
        *expr = transformed;
        proof {
            lemma_pass_identity(self.sub, old(expr)@);
            if old(expr)@.wf() {
                lemma_pass_wf(self.sub, old(expr)@);
            }
        }
        result
    }

    /// One bottom-up pass over an owned expression.
    fn into_traverse(self, expr: AnyExpr) -> (r: AnyExprAndTransformResult)
        ensures
            (r.expr@, r.result) == pass(self.sub, expr@),
        decreases 2 * term_size(expr@),
    {
        let ghost e = expr@;
        proof {
            lemma_arity_fits(expr);
        }
        let (head, childs) = expr.into_parts();
        proof {
            lemma_views(childs@);
        }
        let (out, mut result) = self.traverse_all(childs);
        proof {
            lemma_views(out@);
            lemma_pass_all_len(self.sub, e.childs);
        }
        let node = AnyExpr::from_parts(head, out);
        let top = self.sub.into_transform_any_expr(node);
        result.bitor_assign(top.result);
        AnyExprAndTransformResult::new(result, top.expr)
    }

    /// One pass over each expression of `v`, in order.
    fn traverse_all(self, v: Vec<AnyExpr>) -> (r: (Vec<AnyExpr>, TransformResult))
        ensures
            (views(r.0@), r.1) == pass_all(self.sub, views(v@)),
        decreases 2 * terms_size(views(v@)) + 1,
    {
        let ghost vs = views(v@);
        let mut v = v;
        if v.len() == 0 {
            return (Vec::new(), TransformResult::Identity);
        }
        let last = v.pop().unwrap();
        proof {
            lemma_views(v@);
            assert(vs.drop_last() == views(v@));
            assert(vs.last() == last@);
            assert(terms_size(vs) == terms_size(views(v@)) + term_size(last@));
            assert(term_size(last@) >= 1);
        }
        let (mut out, mut result) = self.traverse_all(v);
        let r = self.into_traverse(last);
        let ghost old_out = out@;
        result.bitor_assign(r.result);
        out.push(r.expr);
        proof {
            assert(out@.drop_last() =~= old_out);
        }
        (out, result)
    }

    /// Runs passes until one reports `Identity`, at most `max_passes` of
    /// them, and returns how many changed the tree.
    pub fn transform_to_fixpoint(self, expr: &mut AnyExpr, max_passes: u64) -> (r: u64)
        ensures
            r <= max_passes,
            final(expr)@ == passes(self.sub, old(expr)@, r as nat),
            forall|k: nat| k < r ==> (#[trigger] pass(self.sub, passes(self.sub, old(expr)@, k))).1 is Transformed,
            r < max_passes ==> pass(self.sub, final(expr)@) == (final(expr)@, TransformResult::Identity),
            old(expr)@.wf() ==> final(expr)@.wf() && final(expr)@.ty() == old(expr)@.ty(),
    {
        let mut n: u64 = 0;
        while n < max_passes
            invariant
                n <= max_passes,
                expr@ == passes(self.sub, old(expr)@, n as nat),
                forall|k: nat| k < n ==> (#[trigger] pass(self.sub, passes(self.sub, old(expr)@, k))).1 is Transformed,
                old(expr)@.wf() ==> expr@.wf() && expr@.ty() == old(expr)@.ty(),
            decreases max_passes - n,
        {
            let ghost before = expr@;
            let res = self.traverse_transform_any_expr(expr);
            if res == TransformResult::Identity {
                proof {
                    lemma_pass_identity(self.sub, before);
                }
                return n;
            }
            proof {
                assert(passes(self.sub, old(expr)@, (n + 1) as nat) == pass(self.sub, before).0);
            }
            n = n + 1;
        }
        n
    }
}

impl<T: AnyTransformer> AnyTransformer for BaseTransformer<T> {
    open spec fn spec_transform(self, e: Term) -> (Term, TransformResult) {
        pass(self.sub, e)
    }

    proof fn lemma_transform(self, e: Term) {
        lemma_pass_identity(self.sub, e);
        if e.wf() {
            lemma_pass_wf(self.sub, e);
        }
    }

    fn transform_any_expr(self, expr: &mut AnyExpr) -> (r: TransformResult) {
        self.traverse_transform_any_expr(expr)
    }

    fn into_transform_any_expr(self, expr: AnyExpr) -> (r: AnyExprAndTransformResult) {
        self.into_traverse(expr)
    }
}

/// Two transformers applied to the same node one after the other: `first`,
/// then `second` on its outcome. Chains nest to give any ordered list.
#[derive(Debug, Copy, Clone, PartialEq, Eq, Hash)]
pub struct Chain<A, B> {
    pub first: A,
    pub second: B,
}

impl<A: AnyTransformer, B: AnyTransformer> Chain<A, B> {
    /// Applies `first`, then `second`.
    pub fn new(first: A, second: B) -> (r: Chain<A, B>)
        ensures
            r.first == first,
            r.second == second,
    {
        Chain { first, second }
    }
}

impl<A: AnyTransformer, B: AnyTransformer> AnyTransformer for Chain<A, B> {
    open spec fn spec_transform(self, e: Term) -> (Term, TransformResult) {
        let a = self.first.spec_transform(e);
        let b = self.second.spec_transform(a.0);
        (b.0, combine(a.1, b.1))
    }

    proof fn lemma_transform(self, e: Term) {
        self.first.lemma_transform(e);
        self.second.lemma_transform(self.first.spec_transform(e).0);
    }

    fn transform_any_expr(self, expr: &mut AnyExpr) -> (r: TransformResult) {
        let mut result = self.first.transform_any_expr(expr);
        result.bitor_assign(self.second.transform_any_expr(expr));
        result
    }

    fn into_transform_any_expr(self, expr: AnyExpr) -> (r: AnyExprAndTransformResult) {
        let a = self.first.into_transform_any_expr(expr);
        let b = self.second.into_transform_any_expr(a.expr);
        let mut result = a.result;
        result.bitor_assign(b.result);
        AnyExprAndTransformResult::new(result, b.expr)
    }
}

} // verus!
