//! Iteration over the children of an expression, whether they are stored
//! inline (up to three) or in a vector.
use crate::expr::AnyExpr;
use vstd::prelude::*;

verus! {

/// Iterator over up to three children stored inline.
#[derive(Debug, Clone)]
pub struct InlChildsIter<'p> {
    childs: [Option<&'p AnyExpr>; 3],
    cur: usize,
}

/// Iterator over children stored in a vector.
#[derive(Debug, Clone)]
pub struct ExtChildsIter<'p> {
    childs: &'p [AnyExpr],
    pos: usize,
}

/// Iterator over immutable child expressions.
#[derive(Debug, Clone)]
pub enum ChildsIter<'p> {
    Inl(InlChildsIter<'p>),
    Ext(ExtChildsIter<'p>),
}

impl<'p> InlChildsIter<'p> {
    /// The number of occupied slots.
    pub closed spec fn count(&self) -> nat {
        if self.childs@[0] is None {
            0
        } else if self.childs@[1] is None {
            1
        } else if self.childs@[2] is None {
            2
        } else {
            3
        }
    }

    /// Occupied slots come first and the cursor stays within the slots.
    pub closed spec fn wf(&self) -> bool {
        &&& self.cur <= 3
        &&& self.childs@[1] is Some ==> self.childs@[0] is Some
        &&& self.childs@[2] is Some ==> self.childs@[1] is Some
    }

    /// The children that are still to come.
    pub closed spec fn remaining(&self) -> Seq<AnyExpr> {
        if self.cur >= self.count() {
            Seq::empty()
        } else {
            Seq::new((self.count() - self.cur) as nat, |i: int| *self.childs@[self.cur + i]->Some_0)
        }
    }

    fn from_array(childs: [Option<&'p AnyExpr>; 3]) -> (r: InlChildsIter<'p>)
        ensures
            r.childs == childs,
            r.cur == 0,
    {
        InlChildsIter { childs, cur: 0 }
    }

    /// An iterator that yields nothing.
    pub fn none() -> (r: InlChildsIter<'p>)
        ensures
            r.wf(),
            r.remaining() == Seq::<AnyExpr>::empty(),
    {
        InlChildsIter::from_array([None, None, None])
    }

    /// An iterator that yields `fst`.
    pub fn unary(fst: &'p AnyExpr) -> (r: InlChildsIter<'p>)
        ensures
            r.wf(),
            r.remaining() == seq![*fst],
    {
        let r = InlChildsIter::from_array([Some(fst), None, None]);
        assert(r.remaining() =~= seq![*fst]);
        r
    }

    /// An iterator that yields `fst`, then `snd`.
    pub fn binary(fst: &'p AnyExpr, snd: &'p AnyExpr) -> (r: InlChildsIter<'p>)
        ensures
            r.wf(),
            r.remaining() == seq![*fst, *snd],
    {
        let r = InlChildsIter::from_array([Some(fst), Some(snd), None]);
        assert(r.remaining() =~= seq![*fst, *snd]);
        r
    }

    /// An iterator that yields `fst`, `snd`, then `trd`.
    pub fn ternary(fst: &'p AnyExpr, snd: &'p AnyExpr, trd: &'p AnyExpr) -> (r: InlChildsIter<'p>)
        ensures
            r.wf(),
            r.remaining() == seq![*fst, *snd, *trd],
    {
        let r = InlChildsIter::from_array([Some(fst), Some(snd), Some(trd)]);
        assert(r.remaining() =~= seq![*fst, *snd, *trd]);
        r
    }

    /// Yields the next child, or `None` once all have been yielded; the
    /// cursor never moves past the last slot.
    pub fn next(&mut self) -> (r: Option<&'p AnyExpr>)
        requires
            old(self).wf(),
        ensures
            final(self).wf(),
            match r {
                None => old(self).remaining().len() == 0 && final(self).remaining().len() == 0,
                Some(e) => old(self).remaining().len() > 0 && *e == old(self).remaining()[0]
                    && final(self).remaining() == old(self).remaining().drop_first(),
            },
    {
        if self.cur < 3 {
            let elem = self.childs[self.cur];
            self.cur = self.cur + 1;
            proof {
                if elem is Some {
                    assert(final(self).remaining() =~= old(self).remaining().drop_first());
                }
            }
            elem
        } else {
            None
        }
    }
}

impl<'p> ExtChildsIter<'p> {
    pub closed spec fn wf(&self) -> bool {
        self.pos <= self.childs@.len()
    }

    /// The children that are still to come.
    pub closed spec fn remaining(&self) -> Seq<AnyExpr> {
        self.childs@.subrange(self.pos as int, self.childs@.len() as int)
    }

    fn from_slice(childs: &'p [AnyExpr]) -> (r: ExtChildsIter<'p>)
        ensures
            r.wf(),
            r.remaining() == childs@,
    {
        let r = ExtChildsIter { childs, pos: 0 };
        assert(r.remaining() =~= childs@);
        r
    }

    /// Yields the next child, or `None` once all have been yielded.
    pub fn next(&mut self) -> (r: Option<&'p AnyExpr>)
        requires
            old(self).wf(),
        ensures
            final(self).wf(),
            match r {
                None => old(self).remaining().len() == 0 && final(self).remaining().len() == 0,
                Some(e) => old(self).remaining().len() > 0 && *e == old(self).remaining()[0]
                    && final(self).remaining() == old(self).remaining().drop_first(),
            },
    {
        if self.pos < self.childs.len() {
            let e = &self.childs[self.pos];
            self.pos = self.pos + 1;
            assert(final(self).remaining() =~= old(self).remaining().drop_first());
            Some(e)
        } else {
            None
        }
    }
}

impl<'p> ChildsIter<'p> {
    pub open spec fn wf(&self) -> bool {
        match self {
            ChildsIter::Inl(i) => i.wf(),
            ChildsIter::Ext(i) => i.wf(),
        }
    }

    /// The children that are still to come.
    pub open spec fn remaining(&self) -> Seq<AnyExpr> {
        match self {
            ChildsIter::Inl(i) => i.remaining(),
            ChildsIter::Ext(i) => i.remaining(),
        }
    }

    /// An iterator that yields nothing.
    pub fn none() -> (r: ChildsIter<'p>)
        ensures
            r.wf(),
            r.remaining() == Seq::<AnyExpr>::empty(),
    {
        ChildsIter::Inl(InlChildsIter::none())
    }

    /// An iterator that yields `fst`.
    pub fn unary(fst: &'p AnyExpr) -> (r: ChildsIter<'p>)
        ensures
            r.wf(),
            r.remaining() == seq![*fst],
    {
        ChildsIter::Inl(InlChildsIter::unary(fst))
    }

    /// An iterator that yields `fst`, then `snd`.
    pub fn binary(fst: &'p AnyExpr, snd: &'p AnyExpr) -> (r: ChildsIter<'p>)
        ensures
            r.wf(),
            r.remaining() == seq![*fst, *snd],
    {
        ChildsIter::Inl(InlChildsIter::binary(fst, snd))
    }

    /// An iterator that yields `fst`, `snd`, then `trd`.
    pub fn ternary(fst: &'p AnyExpr, snd: &'p AnyExpr, trd: &'p AnyExpr) -> (r: ChildsIter<'p>)
        ensures
            r.wf(),
            r.remaining() == seq![*fst, *snd, *trd],
    {
        ChildsIter::Inl(InlChildsIter::ternary(fst, snd, trd))
    }

    /// An iterator over all elements of `childs`, in order.
    pub fn nary(childs: &'p [AnyExpr]) -> (r: ChildsIter<'p>)
        ensures
            r.wf(),
            r.remaining() == childs@,
    {
        ChildsIter::Ext(ExtChildsIter::from_slice(childs))
    }

    /// Yields the next child, or `None` once all have been yielded.
    pub fn next(&mut self) -> (r: Option<&'p AnyExpr>)
        requires
            old(self).wf(),
        ensures
            final(self).wf(),
            match r {
                None => old(self).remaining().len() == 0 && final(self).remaining().len() == 0,
                Some(e) => old(self).remaining().len() > 0 && *e == old(self).remaining()[0]
                    && final(self).remaining() == old(self).remaining().drop_first(),
            },
    {
        match self {
            ChildsIter::Inl(iter) => iter.next(),
            ChildsIter::Ext(iter) => iter.next(),
        }
    }
}

} // verus!
