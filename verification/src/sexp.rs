use crate::number::Number;
use crate::srcloc::Srcloc;
use std::rc::Rc;
use vstd::prelude::*;

verus! {

/// An s-expression as the reader hands it on. A function's formal parameters
/// are one of these: `Cons` is a pair of patterns, `Atom` a parameter's name.
#[derive(Debug, PartialEq, Eq)]
pub enum SExp {
    Nil(Srcloc),
    Cons(Srcloc, Rc<SExp>, Rc<SExp>),
    Integer(Srcloc, Number),
    QuotedString(Srcloc, u8, Vec<u8>),
    Atom(Srcloc, Vec<u8>),
}

/// What an `SExp` stands for: the same tree over integers and byte sequences.
pub enum SExpView {
    Nil(Srcloc),
    Cons(Srcloc, Box<SExpView>, Box<SExpView>),
    Integer(Srcloc, int),
    QuotedString(Srcloc, u8, Seq<u8>),
    Atom(Srcloc, Seq<u8>),
}

impl View for SExp {
    type V = SExpView;

    open spec fn view(&self) -> SExpView
        decreases self,
    {
        match self {
            SExp::Nil(l) => SExpView::Nil(*l),
            SExp::Cons(l, a, b) => SExpView::Cons(*l, Box::new((**a)@), Box::new((**b)@)),
            SExp::Integer(l, n) => SExpView::Integer(*l, n@),
            SExp::QuotedString(l, q, s) => SExpView::QuotedString(*l, *q, s@),
            SExp::Atom(l, name) => SExpView::Atom(*l, name@),
        }
    }
}

impl SExpView {
    /// Where the expression stands in the source.
    pub open spec fn loc(self) -> Srcloc {
        match self {
            SExpView::Nil(l) => l,
            SExpView::Cons(l, _, _) => l,
            SExpView::Integer(l, _) => l,
            SExpView::QuotedString(l, _, _) => l,
            SExpView::Atom(l, _) => l,
        }
    }
}

impl SExp {
    /// Where the expression stands in the source.
    pub fn loc(&self) -> (l: Srcloc)
        ensures
            l == self@.loc(),
    {
        match self {
            SExp::Nil(l) => *l,
            SExp::Cons(l, _, _) => *l,
            SExp::Integer(l, _) => *l,
            SExp::QuotedString(l, _, _) => *l,
            SExp::Atom(l, _) => *l,
        }
    }
}

} // verus!
