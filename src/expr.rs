//! Expression trees: a closed union of formula and term kinds, their
//! mathematical model, typed constructors and child access.
use crate::childs::ChildsIter;
use vstd::prelude::*;

verus! {

/// The declared bit width of a bitvector expression.
#[derive(Debug, Copy, Clone, PartialEq, Eq, Hash, Structural)]
pub struct BitvecTy(pub u32);

/// The type of an expression.
#[derive(Debug, Copy, Clone, PartialEq, Eq, Hash, Structural)]
pub enum Type {
    Bool,
    Bitvec(BitvecTy),
}

/// The kind tag of an expression.
#[derive(Debug, Copy, Clone, PartialEq, Eq, Hash, Structural)]
pub enum ExprKind {
    IfThenElse,
    Symbol,
    BoolConst,
    BoolEquals,
    Not,
    And,
    Or,
    BitAnd,
    LogicalShiftRight,
}

/// What a node holds besides its children.
#[derive(Debug, Clone, PartialEq, Eq, Hash)]
pub enum Head {
    IfThenElse,
    Symbol(String, Type),
    BoolConst(bool),
    BoolEquals,
    Not,
    And,
    Or,
    BitAnd(BitvecTy),
    LogicalShiftRight(BitvecTy),
}

/// Mathematical model of an expression tree.
pub struct Term {
    pub head: Head,
    pub childs: Seq<Term>,
}

/// Two child expressions stored inline.
#[derive(Debug, PartialEq, Eq, Hash)]
pub struct BinExprChilds {
    pub lhs: AnyExpr,
    pub rhs: AnyExpr,
}

/// Three child expressions stored inline.
#[derive(Debug, PartialEq, Eq, Hash)]
pub struct TernExprChilds {
    pub cond: AnyExpr,
    pub then_case: AnyExpr,
    pub else_case: AnyExpr,
}

/// If-then-else formula over three boolean children.
#[derive(Debug, PartialEq, Eq, Hash)]
pub struct IfThenElse {
    pub childs: Box<TernExprChilds>,
}

/// A named variable of a given type.
#[derive(Debug, Clone, PartialEq, Eq, Hash)]
pub struct Symbol {
    pub name: String,
    pub ty: Type,
}

/// A boolean constant.
#[derive(Debug, Clone, PartialEq, Eq, Hash)]
pub struct BoolConst {
    pub val: bool,
}

/// Marks the binary formula that compares two booleans.
#[derive(Debug, Copy, Clone, PartialEq, Eq, Hash)]
pub struct BoolEqualsMarker;

/// Generic binary formula expression over two boolean children.
#[derive(Debug, PartialEq, Eq, Hash)]
pub struct BinBoolExpr<M> {
    /// The two child expressions.
    pub children: Box<BinExprChilds>,
    pub marker: M,
}

/// Equality of two boolean expressions.
pub type BoolEquals = BinBoolExpr<BoolEqualsMarker>;

/// Negation of one boolean child.
#[derive(Debug, PartialEq, Eq, Hash)]
pub struct Not {
    pub inner: Box<AnyExpr>,
}

/// N-ary conjunction.
#[derive(Debug, PartialEq, Eq, Hash)]
pub struct And {
    pub childs: Vec<AnyExpr>,
}

/// N-ary disjunction.
#[derive(Debug, PartialEq, Eq, Hash)]
pub struct Or {
    pub childs: Vec<AnyExpr>,
}

/// N-ary bitwise-and term expression for bitvector expressions.
#[derive(Debug, PartialEq, Eq, Hash)]
pub struct BitAnd {
    /// The child bitvector expressions.
    pub childs: Vec<AnyExpr>,
    /// The bit width of this expression and of every child.
    pub bitvec_ty: BitvecTy,
}

/// Binary logical-shift-right term expression.
#[derive(Debug, PartialEq, Eq, Hash)]
pub struct LogicalShiftRight {
    /// The two child term expressions.
    pub childs: Box<BinExprChilds>,
    /// The bit width of this expression and of both children.
    pub bitvec_ty: BitvecTy,
}

/// Any expression.
#[derive(Debug, PartialEq, Eq, Hash)]
pub enum AnyExpr {
    IfThenElse(IfThenElse),
    Symbol(Symbol),
    BoolConst(BoolConst),
    BoolEquals(BoolEquals),
    Not(Not),
    And(And),
    Or(Or),
    BitAnd(BitAnd),
    LogicalShiftRight(LogicalShiftRight),
}

/// The models of a sequence of expressions.
pub open spec fn views(s: Seq<AnyExpr>) -> Seq<Term>
    decreases s,
{
    if s.len() == 0 {
        Seq::empty()
    } else {
        views(s.drop_last()).push(s.last().term())
    }
}

impl View for AnyExpr {
    type V = Term;

    open spec fn view(&self) -> Term {
        self.term()
    }
}

impl AnyExpr {
    /// The model of this expression.
    pub open spec fn term(&self) -> Term
        decreases self,
    {
        match self {
            AnyExpr::IfThenElse(e) => Term {
                head: Head::IfThenElse,
                childs: seq![e.childs.cond.term(), e.childs.then_case.term(), e.childs.else_case.term()],
            },
            AnyExpr::Symbol(e) => Term { head: Head::Symbol(e.name, e.ty), childs: Seq::empty() },
            AnyExpr::BoolConst(e) => Term { head: Head::BoolConst(e.val), childs: Seq::empty() },
            AnyExpr::BoolEquals(e) => Term {
                head: Head::BoolEquals,
                childs: seq![e.children.lhs.term(), e.children.rhs.term()],
            },
            AnyExpr::Not(e) => Term { head: Head::Not, childs: seq![e.inner.term()] },
            AnyExpr::And(e) => Term { head: Head::And, childs: views(e.childs@) },
            AnyExpr::Or(e) => Term { head: Head::Or, childs: views(e.childs@) },
            AnyExpr::BitAnd(e) => Term { head: Head::BitAnd(e.bitvec_ty), childs: views(e.childs@) },
            AnyExpr::LogicalShiftRight(e) => Term {
                head: Head::LogicalShiftRight(e.bitvec_ty),
                childs: seq![e.childs.lhs.term(), e.childs.rhs.term()],
            },
        }
    }
}

/// `views` maps each expression to its model, one for one.
pub proof fn lemma_views(s: Seq<AnyExpr>)
    ensures
        views(s).len() == s.len(),
        forall|i: int| 0 <= i < s.len() ==> #[trigger] views(s)[i] == s[i]@,
    decreases s.len(),
{
    if s.len() > 0 {
        lemma_views(s.drop_last());
    }
}

/// The kind tag of a node.
pub open spec fn head_kind(h: Head) -> ExprKind {
    match h {
        Head::IfThenElse => ExprKind::IfThenElse,
        Head::Symbol(_, _) => ExprKind::Symbol,
        Head::BoolConst(_) => ExprKind::BoolConst,
        Head::BoolEquals => ExprKind::BoolEquals,
        Head::Not => ExprKind::Not,
        Head::And => ExprKind::And,
        Head::Or => ExprKind::Or,
        Head::BitAnd(_) => ExprKind::BitAnd,
        Head::LogicalShiftRight(_) => ExprKind::LogicalShiftRight,
    }
}

/// The type of a node: formulas are boolean, terms carry their bit width,
/// a symbol has the type it was declared with.
pub open spec fn head_ty(h: Head) -> Type {
    match h {
        Head::Symbol(_, ty) => ty,
        Head::BitAnd(b) => Type::Bitvec(b),
        Head::LogicalShiftRight(b) => Type::Bitvec(b),
        _ => Type::Bool,
    }
}

/// The number of children a node of this kind holds, where it is fixed.
pub open spec fn fixed_arity(h: Head) -> Option<nat> {
    match h {
        Head::IfThenElse => Some(3),
        Head::Symbol(_, _) => Some(0),
        Head::BoolConst(_) => Some(0),
        Head::BoolEquals => Some(2),
        Head::Not => Some(1),
        Head::LogicalShiftRight(_) => Some(2),
        _ => None,
    }
}

/// A node with `n` children can have head `h`: exactly its fixed arity,
/// or any number for an n-ary kind.
pub open spec fn arity_fits(h: Head, n: nat) -> bool {
    match fixed_arity(h) {
        Some(k) => n == k,
        None => true,
    }
}

/// The type every child of a node with head `h` must have.
pub open spec fn child_ty(h: Head) -> Type {
    match h {
        Head::BitAnd(b) => Type::Bitvec(b),
        Head::LogicalShiftRight(b) => Type::Bitvec(b),
        _ => Type::Bool,
    }
}

/// Every term of `s` has type `ty`.
pub open spec fn all_of_ty(s: Seq<Term>, ty: Type) -> bool {
    forall|i: int| 0 <= i < s.len() ==> #[trigger] head_ty(s[i].head) == ty
}

impl Term {
    pub open spec fn ty(self) -> Type {
        head_ty(self.head)
    }

    pub open spec fn kind(self) -> ExprKind {
        head_kind(self.head)
    }

    /// The node itself is well-typed: its child count fits its kind (at
    /// least two for n-ary kinds) and every child has the required type.
    pub open spec fn node_ok(self) -> bool {
        &&& arity_fits(self.head, self.childs.len())
        &&& fixed_arity(self.head) is None ==> self.childs.len() >= 2
        &&& all_of_ty(self.childs, child_ty(self.head))
    }

    /// Every node of the tree is well-typed.
    pub open spec fn wf(self) -> bool
        decreases self,
    {
        &&& self.node_ok()
        &&& forall|i: int| 0 <= i < self.childs.len() ==> (#[trigger] self.childs[i]).wf()
    }
}

/// The error when an operand is not boolean.
pub open spec fn expected_bool_msg() -> Seq<char> {
    "Expected an expression of bool type."@
}

/// The error when an operand does not have the declared bitvector type.
pub open spec fn expected_bitvec_msg() -> Seq<char> {
    "Expected an expression of bitvec type with the required bit width."@
}

/// The error when a bitwise-and gets fewer than two children.
pub open spec fn bitand_too_few_msg() -> Seq<char> {
    "Requires at least two child expressions to create an BitAnd term expression."@
}

/// The error when a child of a bitwise-and is not a bitvector of its width.
pub open spec fn bitand_width_msg() -> Seq<char> {
    "Requires all child expressions to be of bitvec type with the expected bit width."@
}

/// The error when an n-ary node gets fewer than two children.
pub open spec fn too_few_childs_msg() -> Seq<char> {
    "Requires at least two child expressions."@
}

/// The child expressions of a node, in operand order.
pub open spec fn children_of(e: AnyExpr) -> Seq<AnyExpr> {
    match e {
        AnyExpr::IfThenElse(e) => seq![e.childs.cond, e.childs.then_case, e.childs.else_case],
        AnyExpr::Symbol(_) => Seq::empty(),
        AnyExpr::BoolConst(_) => Seq::empty(),
        AnyExpr::BoolEquals(e) => seq![e.children.lhs, e.children.rhs],
        AnyExpr::Not(e) => seq![*e.inner],
        AnyExpr::And(e) => e.childs@,
        AnyExpr::Or(e) => e.childs@,
        AnyExpr::BitAnd(e) => e.childs@,
        AnyExpr::LogicalShiftRight(e) => seq![e.childs.lhs, e.childs.rhs],
    }
}

/// The model of a node is its head over the models of its children.
pub proof fn lemma_children_of(e: AnyExpr)
    ensures
        views(children_of(e)) == e@.childs,
        views(children_of(e)).len() == children_of(e).len(),
{
    lemma_views(children_of(e));
    assert(views(children_of(e)) =~= e@.childs);
}

fn has_ty(e: &AnyExpr, ty: Type) -> (r: bool)
    ensures
        r == (e@.ty() == ty),
{
    e.ty() == ty
}

fn all_have_ty(v: &Vec<AnyExpr>, ty: Type) -> (r: bool)
    ensures
        r == all_of_ty(views(v@), ty),
{
    proof {
        lemma_views(v@);
    }
    let mut i: usize = 0;
    while i < v.len()
        invariant
            i <= v@.len(),
            views(v@).len() == v@.len(),
            forall|k: int| 0 <= k < v@.len() ==> #[trigger] views(v@)[k] == v@[k]@,
            forall|k: int| 0 <= k < i ==> #[trigger] head_ty(views(v@)[k].head) == ty,
        decreases v@.len() - i,
    {
        if !has_ty(&v[i], ty) {
            assert(head_ty(views(v@)[i as int].head) != ty);
            return false;
        }
        i = i + 1;
    }
    true
}

impl AnyExpr {
    /// The type of this expression.
    pub fn ty(&self) -> (r: Type)
        ensures
            r == self@.ty(),
    {
        match self {
            AnyExpr::Symbol(e) => e.ty,
            AnyExpr::BitAnd(e) => Type::Bitvec(e.bitvec_ty),
            AnyExpr::LogicalShiftRight(e) => Type::Bitvec(e.bitvec_ty),
            _ => Type::Bool,
        }
    }

    /// The kind tag of this expression.
    pub fn kind(&self) -> (r: ExprKind)
        ensures
            r == self@.kind(),
    {
        match self {
            AnyExpr::IfThenElse(_) => ExprKind::IfThenElse,
            AnyExpr::Symbol(_) => ExprKind::Symbol,
            AnyExpr::BoolConst(_) => ExprKind::BoolConst,
            AnyExpr::BoolEquals(_) => ExprKind::BoolEquals,
            AnyExpr::Not(_) => ExprKind::Not,
            AnyExpr::And(_) => ExprKind::And,
            AnyExpr::Or(_) => ExprKind::Or,
            AnyExpr::BitAnd(_) => ExprKind::BitAnd,
            AnyExpr::LogicalShiftRight(_) => ExprKind::LogicalShiftRight,
        }
    }

    /// The number of children of this expression.
    pub fn arity(&self) -> (r: usize)
        ensures
            r == self@.childs.len(),
            r == children_of(*self).len(),
    {
        proof {
            lemma_children_of(*self);
        }
        match self {
            AnyExpr::IfThenElse(_) => 3,
            AnyExpr::Symbol(_) => 0,
            AnyExpr::BoolConst(_) => 0,
            AnyExpr::BoolEquals(_) => 2,
            AnyExpr::Not(_) => 1,
            AnyExpr::And(e) => e.childs.len(),
            AnyExpr::Or(e) => e.childs.len(),
            AnyExpr::BitAnd(e) => e.childs.len(),
            AnyExpr::LogicalShiftRight(_) => 2,
        }
    }

    /// An iterator over the children, in operand order, whether they are
    /// stored inline or in a vector.
    pub fn childs(&self) -> (r: ChildsIter<'_>)
        ensures
            r.wf(),
            r.remaining() == children_of(*self),
            views(r.remaining()) == self@.childs,
    {
        proof {
            lemma_children_of(*self);
        }
        match self {
            AnyExpr::IfThenElse(e) => ChildsIter::ternary(&e.childs.cond, &e.childs.then_case, &e.childs.else_case),
            AnyExpr::Symbol(_) => ChildsIter::none(),
            AnyExpr::BoolConst(_) => ChildsIter::none(),
            AnyExpr::BoolEquals(e) => ChildsIter::binary(&e.children.lhs, &e.children.rhs),
            AnyExpr::Not(e) => ChildsIter::unary(&e.inner),
            AnyExpr::And(e) => ChildsIter::nary(e.childs.as_slice()),
            AnyExpr::Or(e) => ChildsIter::nary(e.childs.as_slice()),
            AnyExpr::BitAnd(e) => ChildsIter::nary(e.childs.as_slice()),
            AnyExpr::LogicalShiftRight(e) => ChildsIter::binary(&e.childs.lhs, &e.childs.rhs),
        }
    }

    /// The `i`-th child, mutably, whether stored inline or in a vector.
    pub fn child_mut(&mut self, i: usize) -> (r: &mut AnyExpr)
        requires
            i < children_of(*old(self)).len(),
        ensures
            *r == children_of(*old(self))[i as int],
            children_of(*final(self)) == children_of(*old(self)).update(i as int, *final(r)),
            final(self)@.head == old(self)@.head,
    {
        match self {
            AnyExpr::IfThenElse(e) => if i == 0 {
                &mut e.childs.cond
            } else if i == 1 {
                &mut e.childs.then_case
            } else {
                &mut e.childs.else_case
            },
            AnyExpr::BoolEquals(e) => if i == 0 {
                &mut e.children.lhs
            } else {
                &mut e.children.rhs
            },
            AnyExpr::Not(e) => &mut e.inner,
            AnyExpr::And(e) => &mut e.childs[i],
            AnyExpr::Or(e) => &mut e.childs[i],
            AnyExpr::BitAnd(e) => &mut e.childs[i],
            AnyExpr::LogicalShiftRight(e) => if i == 0 {
                &mut e.childs.lhs
            } else {
                &mut e.childs.rhs
            },
            AnyExpr::Symbol(_) => {
                proof {
                    assert(false);
                }
                self
            },
            AnyExpr::BoolConst(_) => {
                proof {
                    assert(false);
                }
                self
            },
        }
    }

    /// Splits the expression into its head and its owned children.
    pub fn into_parts(self) -> (r: (Head, Vec<AnyExpr>))
        ensures
            r.1@ == children_of(self),
            (Term { head: r.0, childs: views(r.1@) }) == self@,
    {
        proof {
            lemma_children_of(self);
        }
        match self {
            AnyExpr::IfThenElse(e) => {
                let TernExprChilds { cond, then_case, else_case } = *e.childs;
                (Head::IfThenElse, vec![cond, then_case, else_case])
            },
            AnyExpr::Symbol(e) => (Head::Symbol(e.name, e.ty), Vec::new()),
            AnyExpr::BoolConst(e) => (Head::BoolConst(e.val), Vec::new()),
            AnyExpr::BoolEquals(e) => {
                let BinExprChilds { lhs, rhs } = *e.children;
                (Head::BoolEquals, vec![lhs, rhs])
            },
            AnyExpr::Not(e) => (Head::Not, vec![*e.inner]),
            AnyExpr::And(e) => (Head::And, e.childs),
            AnyExpr::Or(e) => (Head::Or, e.childs),
            AnyExpr::BitAnd(e) => (Head::BitAnd(e.bitvec_ty), e.childs),
            AnyExpr::LogicalShiftRight(e) => {
                let BinExprChilds { lhs, rhs } = *e.childs;
                (Head::LogicalShiftRight(e.bitvec_ty), vec![lhs, rhs])
            },
        }
    }

    /// Consumes the expression and yields its owned children in operand order.
    pub fn into_childs(self) -> (r: Vec<AnyExpr>)
        ensures
            r@ == children_of(self),
            views(r@) == self@.childs,
    {
        self.into_parts().1
    }

    /// Builds a node from a head and children whose count fits the head.
    /// Types are not checked here: see the typed constructors.
    pub fn from_parts(head: Head, childs: Vec<AnyExpr>) -> (r: AnyExpr)
        requires
            arity_fits(head, childs@.len()),
        ensures
            r@ == (Term { head, childs: views(childs@) }),
            children_of(r) == childs@,
    {
        let ghost old_childs = childs@;
        let mut childs = childs;
        proof {
            lemma_views(old_childs);
        }
        let r = match head {
            Head::IfThenElse => {
                let else_case = childs.pop().unwrap();
                let then_case = childs.pop().unwrap();
                let cond = childs.pop().unwrap();
                AnyExpr::IfThenElse(IfThenElse { childs: Box::new(TernExprChilds { cond, then_case, else_case }) })
            },
            Head::Symbol(name, ty) => AnyExpr::Symbol(Symbol { name, ty }),
            Head::BoolConst(val) => AnyExpr::BoolConst(BoolConst { val }),
            Head::BoolEquals => {
                let rhs = childs.pop().unwrap();
                let lhs = childs.pop().unwrap();
                AnyExpr::BoolEquals(BinBoolExpr { children: Box::new(BinExprChilds { lhs, rhs }), marker: BoolEqualsMarker })
            },
            Head::Not => {
                let inner = childs.pop().unwrap();
                AnyExpr::Not(Not { inner: Box::new(inner) })
            },
            Head::And => AnyExpr::And(And { childs }),
            Head::Or => AnyExpr::Or(Or { childs }),
            Head::BitAnd(bitvec_ty) => AnyExpr::BitAnd(BitAnd { childs, bitvec_ty }),
            Head::LogicalShiftRight(bitvec_ty) => {
                let rhs = childs.pop().unwrap();
                let lhs = childs.pop().unwrap();
                AnyExpr::LogicalShiftRight(LogicalShiftRight { childs: Box::new(BinExprChilds { lhs, rhs }), bitvec_ty })
            },
        };
        proof {
            lemma_children_of(r);
            assert(children_of(r) =~= old_childs);
        }
        r
    }
}

impl BinBoolExpr<BoolEqualsMarker> {
    /// Returns a new binary formula expression with the given child expressions.
    ///
    /// Fails, and builds nothing, if `lhs` or `rhs` is not of bool type.
    pub fn new(lhs: AnyExpr, rhs: AnyExpr) -> (r: Result<BoolEquals, String>)
        ensures
            r is Ok <==> (lhs@.ty() == Type::Bool && rhs@.ty() == Type::Bool),
            r is Err ==> r->Err_0@ == expected_bool_msg(),
            r is Ok ==> r->Ok_0.children.lhs == lhs && r->Ok_0.children.rhs == rhs,
            r is Ok && lhs@.wf() && rhs@.wf() ==> AnyExpr::BoolEquals(r->Ok_0)@.wf(),
    {
        if !has_ty(&lhs, Type::Bool) || !has_ty(&rhs, Type::Bool) {
            return Err("Expected an expression of bool type.".to_owned());
        }
        let r = BinBoolExpr { children: Box::new(BinExprChilds { lhs, rhs }), marker: BoolEqualsMarker };
        proof {
            let t = AnyExpr::BoolEquals(r)@;
            assert(all_of_ty(t.childs, Type::Bool));
            if lhs@.wf() && rhs@.wf() {
                assert forall|i: int| 0 <= i < t.childs.len() implies (#[trigger] t.childs[i]).wf() by {
                    if i == 0 { assert(t.childs[i] == lhs@); } else { assert(t.childs[i] == rhs@); }
                }
            }
        }
        Ok(r)
    }
}

impl Not {
    /// Returns the negation of `inner`.
    ///
    /// Fails, and builds nothing, if `inner` is not of bool type.
    pub fn new(inner: AnyExpr) -> (r: Result<Not, String>)
        ensures
            r is Ok <==> inner@.ty() == Type::Bool,
            r is Err ==> r->Err_0@ == expected_bool_msg(),
            r is Ok ==> *r->Ok_0.inner == inner,
            r is Ok && inner@.wf() ==> AnyExpr::Not(r->Ok_0)@.wf(),
    {
        if !has_ty(&inner, Type::Bool) {
            return Err("Expected an expression of bool type.".to_owned());
        }
        let r = Not { inner: Box::new(inner) };
        proof {
            let t = AnyExpr::Not(r)@;
            assert(all_of_ty(t.childs, Type::Bool));
            if inner@.wf() {
                assert forall|i: int| 0 <= i < t.childs.len() implies (#[trigger] t.childs[i]).wf() by {
                    assert(t.childs[i] == inner@);
                }
            }
        }
        Ok(r)
    }
}

impl IfThenElse {
    /// Returns `if cond then then_case else else_case` over boolean children.
    ///
    /// Fails, and builds nothing, if any child is not of bool type.
    pub fn new(cond: AnyExpr, then_case: AnyExpr, else_case: AnyExpr) -> (r: Result<IfThenElse, String>)
        ensures
            r is Ok <==> (cond@.ty() == Type::Bool && then_case@.ty() == Type::Bool
                && else_case@.ty() == Type::Bool),
            r is Err ==> r->Err_0@ == expected_bool_msg(),
            r is Ok ==> r->Ok_0.childs.cond == cond && r->Ok_0.childs.then_case == then_case
                && r->Ok_0.childs.else_case == else_case,
            r is Ok && cond@.wf() && then_case@.wf() && else_case@.wf() ==> AnyExpr::IfThenElse(r->Ok_0)@.wf(),
    {
        if !has_ty(&cond, Type::Bool) || !has_ty(&then_case, Type::Bool) || !has_ty(&else_case, Type::Bool) {
            return Err("Expected an expression of bool type.".to_owned());
        }
        let r = IfThenElse { childs: Box::new(TernExprChilds { cond, then_case, else_case }) };
        proof {
            let t = AnyExpr::IfThenElse(r)@;
            assert(all_of_ty(t.childs, Type::Bool));
            if cond@.wf() && then_case@.wf() && else_case@.wf() {
                assert forall|i: int| 0 <= i < t.childs.len() implies (#[trigger] t.childs[i]).wf() by {
                    if i == 0 { assert(t.childs[i] == cond@); }
                    else if i == 1 { assert(t.childs[i] == then_case@); }
                    else { assert(t.childs[i] == else_case@); }
                }
            }
        }
        Ok(r)
    }
}

/// Checks the children of an n-ary formula: at least two, each boolean.
fn check_nary(childs: &Vec<AnyExpr>) -> (r: Result<(), String>)
    ensures
        r is Ok <==> (childs@.len() >= 2 && all_of_ty(views(childs@), Type::Bool)),
        r is Err && childs@.len() < 2 ==> r->Err_0@ == too_few_childs_msg(),
        r is Err && childs@.len() >= 2 ==> r->Err_0@ == expected_bool_msg(),
{
    if childs.len() < 2 {
        return Err("Requires at least two child expressions.".to_owned());
    }
    if !all_have_ty(childs, Type::Bool) {
        return Err("Expected an expression of bool type.".to_owned());
    }
    Ok(())
}

impl And {
    /// Creates an n-ary conjunction of `childs`.
    ///
    /// Fails, and builds nothing, if there are fewer than two children or a
    /// child is not of bool type.
    pub fn nary(childs: Vec<AnyExpr>) -> (r: Result<And, String>)
        ensures
            r is Ok <==> (childs@.len() >= 2 && all_of_ty(views(childs@), Type::Bool)),
            r is Err && childs@.len() < 2 ==> r->Err_0@ == too_few_childs_msg(),
            r is Err && childs@.len() >= 2 ==> r->Err_0@ == expected_bool_msg(),
            r is Ok ==> r->Ok_0.childs@ == childs@,
    {
        match check_nary(&childs) {
            Ok(()) => Ok(And { childs }),
            Err(e) => Err(e),
        }
    }
}

impl Or {
    /// Creates an n-ary disjunction of `childs`.
    ///
    /// Fails, and builds nothing, if there are fewer than two children or a
    /// child is not of bool type.
    pub fn nary(childs: Vec<AnyExpr>) -> (r: Result<Or, String>)
        ensures
            r is Ok <==> (childs@.len() >= 2 && all_of_ty(views(childs@), Type::Bool)),
            r is Err && childs@.len() < 2 ==> r->Err_0@ == too_few_childs_msg(),
            r is Err && childs@.len() >= 2 ==> r->Err_0@ == expected_bool_msg(),
            r is Ok ==> r->Ok_0.childs@ == childs@,
    {
        match check_nary(&childs) {
            Ok(()) => Ok(Or { childs }),
            Err(e) => Err(e),
        }
    }
}

impl BitAnd {
    /// Creates a new n-ary bitwise-and of `childs` with the given bit width.
    ///
    /// Fails, and builds nothing, if there are fewer than two children or a
    /// child is not a bitvector of exactly `bitvec_ty`.
    pub fn nary(bitvec_ty: BitvecTy, childs: Vec<AnyExpr>) -> (r: Result<BitAnd, String>)
        ensures
            r is Ok <==> (childs@.len() >= 2 && all_of_ty(views(childs@), Type::Bitvec(bitvec_ty))),
            r is Err && childs@.len() < 2 ==> r->Err_0@ == bitand_too_few_msg(),
            r is Err && childs@.len() >= 2 ==> r->Err_0@ == bitand_width_msg(),
            r is Ok ==> r->Ok_0.childs@ == childs@ && r->Ok_0.bitvec_ty == bitvec_ty,
    {
        if childs.len() < 2 {
            return Err("Requires at least two child expressions to create an BitAnd term expression.".to_owned());
        }
        if !all_have_ty(&childs, Type::Bitvec(bitvec_ty)) {
            return Err("Requires all child expressions to be of bitvec type with the expected bit width.".to_owned());
        }
        Ok(BitAnd { childs, bitvec_ty })
    }
}

impl LogicalShiftRight {
    /// Returns a new logical-shift-right term of `lhs` by `rhs`.
    ///
    /// Fails, and builds nothing, if either child is not a bitvector of
    /// exactly `bitvec_ty`.
    pub fn new(bitvec_ty: BitvecTy, lhs: AnyExpr, rhs: AnyExpr) -> (r: Result<LogicalShiftRight, String>)
        ensures
            r is Ok <==> (lhs@.ty() == Type::Bitvec(bitvec_ty) && rhs@.ty() == Type::Bitvec(bitvec_ty)),
            r is Err ==> r->Err_0@ == expected_bitvec_msg(),
            r is Ok ==> r->Ok_0.childs.lhs == lhs && r->Ok_0.childs.rhs == rhs
                && r->Ok_0.bitvec_ty == bitvec_ty,
            r is Ok && lhs@.wf() && rhs@.wf() ==> AnyExpr::LogicalShiftRight(r->Ok_0)@.wf(),
    {
        let ty = Type::Bitvec(bitvec_ty);
        if !has_ty(&lhs, ty) || !has_ty(&rhs, ty) {
            return Err("Expected an expression of bitvec type with the required bit width.".to_owned());
        }
        let r = LogicalShiftRight { childs: Box::new(BinExprChilds { lhs, rhs }), bitvec_ty };
        proof {
            let t = AnyExpr::LogicalShiftRight(r)@;
            assert(all_of_ty(t.childs, ty));
            if lhs@.wf() && rhs@.wf() {
                assert forall|i: int| 0 <= i < t.childs.len() implies (#[trigger] t.childs[i]).wf() by {
                    if i == 0 { assert(t.childs[i] == lhs@); } else { assert(t.childs[i] == rhs@); }
                }
            }
        }
        Ok(r)
    }
}

} // verus!
