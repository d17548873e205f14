use crate::comptypes::BodyForm;
use crate::comptypes::BodyFormView;
use crate::comptypes::Callable;
use crate::comptypes::CallableView;
use crate::comptypes::CompileErr;
use crate::comptypes::ErrorKind;
use crate::comptypes::PrimaryCodegen;
use crate::comptypes::PrimaryCodegenView;
use crate::sexp::SExp;
use crate::sexp::SExpView;
use crate::srcloc::Srcloc;
use std::rc::Rc;
use vstd::prelude::*;

verus! {

/// The least index at or after `from` at which `names` holds `name`.
pub open spec fn position_from(names: Seq<Seq<u8>>, name: Seq<u8>, from: int) -> Option<int>
    decreases names.len() - from,
{
    if from < 0 || from >= names.len() {
        None
    } else if names[from] == name {
        Some(from)
    } else {
        position_from(names, name, from + 1)
    }
}

/// The least index at which `names` holds `name`.
pub open spec fn first_position(names: Seq<Seq<u8>>, name: Seq<u8>) -> Option<int> {
    position_from(names, name, 0)
}

/// `first_position` is the one index that holds `name` with none before it,
/// and `None` exactly when `name` is nowhere in `names`.
pub proof fn lemma_first_position(names: Seq<Seq<u8>>, name: Seq<u8>)
    ensures
        match first_position(names, name) {
            Some(i) => 0 <= i < names.len() && names[i] == name && forall|j: int|
                0 <= j < i ==> names[j] != name,
            None => forall|j: int| 0 <= j < names.len() ==> names[j] != name,
        },
{
    lemma_position_from(names, name, 0);
}

proof fn lemma_position_from(names: Seq<Seq<u8>>, name: Seq<u8>, from: int)
    requires
        0 <= from,
    ensures
        match position_from(names, name, from) {
            Some(i) => from <= i < names.len() && names[i] == name && forall|j: int|
                from <= j < i ==> names[j] != name,
            None => forall|j: int| from <= j < names.len() ==> names[j] != name,
        },
    decreases names.len() - from,
{
    if from < names.len() && names[from] != name {
        lemma_position_from(names, name, from + 1);
    }
}

/// An index that holds `name` with none before it is the first position.
pub proof fn lemma_first_position_is(names: Seq<Seq<u8>>, name: Seq<u8>, i: int)
    requires
        0 <= i < names.len(),
        names[i] == name,
        forall|j: int| 0 <= j < i ==> names[j] != name,
    ensures
        first_position(names, name) == Some(i),
{
    lemma_first_position(names, name);
}

/// Where `name` is nowhere in `names`, there is no first position.
pub proof fn lemma_first_position_none(names: Seq<Seq<u8>>, name: Seq<u8>)
    requires
        forall|j: int| 0 <= j < names.len() ==> names[j] != name,
    ensures
        first_position(names, name) is None,
{
    lemma_first_position(names, name);
}

impl PrimaryCodegenView {
    /// The names of the macros, in order.
    pub open spec fn macro_names(self) -> Seq<Seq<u8>> {
        Seq::new(self.macros.len(), |i: int| self.macros[i].name)
    }

    /// The names of the inline functions, in order.
    pub open spec fn inline_names(self) -> Seq<Seq<u8>> {
        Seq::new(self.inlines.len(), |i: int| self.inlines[i].name)
    }

    /// What `name` refers to in a call at `loc`: a macro before an inline
    /// function, an inline function before an ordinary function or
    /// primitive. A name that nothing defines cannot be resolved.
    pub open spec fn resolve(self, loc: Srcloc, name: Seq<u8>) -> Result<CallableView, CompileErr> {
        match first_position(self.macro_names(), name) {
            Some(i) => Ok(CallableView::CallMacro(loc, self.macros[i].body)),
            None => match first_position(self.inline_names(), name) {
                Some(i) => Ok(CallableView::CallInline(loc, self.inlines[i])),
                None => if self.functions.contains(name) {
                    Ok(CallableView::CallOther(loc))
                } else {
                    Err(CompileErr(loc, ErrorKind::UnresolvedCallable))
                },
            },
        }
    }
}

/// Whether two names are the same bytes.
pub fn same_name(a: &Vec<u8>, b: &Vec<u8>) -> (same: bool)
    ensures
        same == (a@ == b@),
{
    let same = *a == *b;
    proof {
        if same {
            assert(a@ =~= b@);
        }
    }
    same
}

impl PrimaryCodegen {
    /// The index of the first macro called `name`.
    pub fn find_macro(&self, name: &Vec<u8>) -> (found: Option<usize>)
        ensures
            match found {
                Some(i) => i < self.macros.len() && first_position(self@.macro_names(), name@) == Some(
                    i as int,
                ),
                None => first_position(self@.macro_names(), name@) is None,
            },
    {
        let mut i: usize = 0;
        while i < self.macros.len()
            invariant
                i <= self.macros.len(),
                forall|j: int| 0 <= j < i ==> self@.macro_names()[j] != name@,
            decreases self.macros.len() - i,
        {
            if same_name(&self.macros[i].name, name) {
                proof {
                    lemma_first_position_is(self@.macro_names(), name@, i as int);
                }
                return Some(i);
            }
            i += 1;
        }
        proof {
            lemma_first_position_none(self@.macro_names(), name@);
        }
        None
    }

    /// The index of the first inline function called `name`.
    pub fn find_inline(&self, name: &Vec<u8>) -> (found: Option<usize>)
        ensures
            match found {
                Some(i) => i < self.inlines.len() && first_position(self@.inline_names(), name@)
                    == Some(i as int),
                None => first_position(self@.inline_names(), name@) is None,
            },
    {
        let mut i: usize = 0;
        while i < self.inlines.len()
            invariant
                i <= self.inlines.len(),
                forall|j: int| 0 <= j < i ==> self@.inline_names()[j] != name@,
            decreases self.inlines.len() - i,
        {
            if same_name(&self.inlines[i].name, name) {
                proof {
                    lemma_first_position_is(self@.inline_names(), name@, i as int);
                }
                return Some(i);
            }
            i += 1;
        }
        proof {
            lemma_first_position_none(self@.inline_names(), name@);
        }
        None
    }

    /// Whether `name` is an ordinary function or a primitive.
    pub fn has_function(&self, name: &Vec<u8>) -> (found: bool)
        ensures
            found == self@.functions.contains(name@),
    {
        let mut i: usize = 0;
        while i < self.functions.len()
            invariant
                i <= self.functions.len(),
                forall|j: int| 0 <= j < i ==> self@.functions[j] != name@,
            decreases self.functions.len() - i,
        {
            if same_name(&self.functions[i], name) {
                assert(self@.functions[i as int] == name@);
                return true;
            }
            i += 1;
        }
        false
    }
}

/// The name that the operator `head` of a call at `loc` goes by: `head` must
/// be a reference to a name.
pub open spec fn call_name(loc: Srcloc, head: BodyFormView) -> Result<Seq<u8>, CompileErr> {
    match head {
        BodyFormView::Value(SExpView::Atom(_, name)) => Ok(name),
        _ => Err(CompileErr(loc, ErrorKind::UnresolvedCallable)),
    }
}

/// The name of the operator `body` of a call at `l`.
pub fn get_call_name(l: Srcloc, body: &BodyForm) -> (name: Result<Vec<u8>, CompileErr>)
    ensures
        match name {
            Ok(n) => call_name(l, body@) == Ok::<Seq<u8>, CompileErr>(n@),
            Err(e) => call_name(l, body@) == Err::<Seq<u8>, CompileErr>(e),
        },
{
    match body {
        BodyForm::Value(SExp::Atom(_, name)) => Ok(name.clone()),
        _ => Err(CompileErr(l, ErrorKind::UnresolvedCallable)),
    }
}

/// What `name` refers to in a call at `l`.
pub fn get_callable(compiler: &PrimaryCodegen, l: Srcloc, name: &Vec<u8>) -> (callable: Result<
    Callable,
    CompileErr,
>)
    ensures
        match callable {
            Ok(c) => compiler@.resolve(l, name@) == Ok::<CallableView, CompileErr>(c@),
            Err(e) => compiler@.resolve(l, name@) == Err::<CallableView, CompileErr>(e),
        },
{
    match compiler.find_macro(name) {
        Some(i) => Ok(Callable::CallMacro(l, compiler.macros[i].body.clone())),
        None => match compiler.find_inline(name) {
            Some(i) => Ok(Callable::CallInline(l, compiler.inlines[i].clone())),
            None => if compiler.has_function(name) {
                Ok(Callable::CallOther(l))
            } else {
                Err(CompileErr(l, ErrorKind::UnresolvedCallable))
            },
        },
    }
}

} // verus!
