use crate::sexp::SExp;
use crate::sexp::SExpView;
use crate::srcloc::Srcloc;
use std::rc::Rc;
use vstd::prelude::*;

verus! {

/// One name bound by a `let` form, with the expression it is bound to.
#[derive(Debug, PartialEq, Eq)]
pub struct Binding {
    pub loc: Srcloc,
    pub name: Vec<u8>,
    pub body: Rc<BodyForm>,
}

/// An expression of a function's body.
///
/// `Value` of an `Atom` is a reference to a name; any other `Value`, and
/// every `Quoted`, is a literal. `Call` holds the operator and then the
/// arguments in order.
#[derive(Debug, PartialEq, Eq)]
pub enum BodyForm {
    Let(Srcloc, Vec<Rc<Binding>>, Rc<BodyForm>),
    Quoted(SExp),
    Value(SExp),
    Call(Srcloc, Rc<BodyForm>, Vec<Rc<BodyForm>>),
}

/// What a `Binding` stands for.
pub struct BindingView {
    pub loc: Srcloc,
    pub name: Seq<u8>,
    pub body: BodyFormView,
}

/// What a `BodyForm` stands for: the same tree over sequences.
pub enum BodyFormView {
    Let(Srcloc, Seq<BindingView>, Box<BodyFormView>),
    Quoted(SExpView),
    Value(SExpView),
    Call(Srcloc, Box<BodyFormView>, Seq<BodyFormView>),
}

/// The views of the expressions in `forms`, in order.
pub open spec fn body_views(forms: Seq<Rc<BodyForm>>) -> Seq<BodyFormView>
    decreases forms,
{
    Seq::new(
        forms.len(),
        |i: int|
            if 0 <= i < forms.len() {
                body_view(*forms[i])
            } else {
                arbitrary()
            },
    )
}

/// The views of `bindings`, in order.
pub open spec fn binding_views(bindings: Seq<Rc<Binding>>) -> Seq<BindingView>
    decreases bindings,
{
    Seq::new(
        bindings.len(),
        |i: int|
            if 0 <= i < bindings.len() {
                BindingView {
                    loc: bindings[i].loc,
                    name: bindings[i].name@,
                    body: body_view(*bindings[i].body),
                }
            } else {
                arbitrary()
            },
    )
}

/// The view of `form`.
pub open spec fn body_view(form: BodyForm) -> BodyFormView
    decreases form,
{
    match form {
        BodyForm::Let(l, bindings, body) => BodyFormView::Let(
            l,
            binding_views(bindings@),
            Box::new(body_view(*body)),
        ),
        BodyForm::Quoted(s) => BodyFormView::Quoted(s@),
        BodyForm::Value(s) => BodyFormView::Value(s@),
        BodyForm::Call(l, op, args) => BodyFormView::Call(
            l,
            Box::new(body_view(*op)),
            body_views(args@),
        ),
    }
}

impl View for BodyForm {
    type V = BodyFormView;

    open spec fn view(&self) -> BodyFormView {
        body_view(*self)
    }
}

impl BodyFormView {
    /// Where the expression stands in the source.
    pub open spec fn loc(self) -> Srcloc {
        match self {
            BodyFormView::Let(l, _, _) => l,
            BodyFormView::Quoted(s) => s.loc(),
            BodyFormView::Value(s) => s.loc(),
            BodyFormView::Call(l, _, _) => l,
        }
    }
}

impl BodyForm {
    /// Where the expression stands in the source.
    pub fn loc(&self) -> (l: Srcloc)
        ensures
            l == self@.loc(),
    {
        match self {
            BodyForm::Let(l, _, _) => *l,
            BodyForm::Quoted(s) => s.loc(),
            BodyForm::Value(s) => s.loc(),
            BodyForm::Call(l, _, _) => *l,
        }
    }
}

impl View for Binding {
    type V = BindingView;

    open spec fn view(&self) -> BindingView {
        BindingView { loc: self.loc, name: self.name@, body: self.body@ }
    }
}

/// A function whose calls are replaced by its body at compile time. `args` is
/// the pattern of its formal parameters.
#[derive(Debug, PartialEq, Eq)]
pub struct InlineFunction {
    pub name: Vec<u8>,
    pub args: Rc<SExp>,
    pub body: Rc<BodyForm>,
}

/// What an `InlineFunction` stands for.
pub struct InlineFunctionView {
    pub name: Seq<u8>,
    pub args: SExpView,
    pub body: BodyFormView,
}

impl View for InlineFunction {
    type V = InlineFunctionView;

    open spec fn view(&self) -> InlineFunctionView {
        InlineFunctionView { name: self.name@, args: self.args@, body: self.body@ }
    }
}

impl Clone for InlineFunction {
    /// A second handle on the same function: the name is copied, pattern and
    /// body are shared.
    fn clone(&self) -> (copy: InlineFunction)
        ensures
            copy@ == self@,
    {
        InlineFunction {
            name: self.name.clone(),
            args: self.args.clone(),
            body: self.body.clone(),
        }
    }
}

/// Why an expansion was given up.
#[derive(Clone, Copy, Debug, PartialEq, Eq, Structural)]
pub enum ErrorKind {
    /// A `let` form was met: an earlier pass should have removed it.
    StructuralError,
    /// The operator of a call is no name, or a name that nothing defines.
    UnresolvedCallable,
    /// The operator of a call inside an inline function names a macro.
    UnsupportedMacroDuringInline,
    /// A reference to a parameter needs an argument that the call of the
    /// inline function did not give.
    ArityViolation,
    /// An inline function's expansion leads back to a call of itself.
    InfiniteInlineRecursion,
}

/// A failure, with the place in the source that it is reported at.
#[derive(Clone, Copy, Debug, PartialEq, Eq, Structural)]
pub struct CompileErr(pub Srcloc, pub ErrorKind);

/// The text that goes with each kind of failure.
pub open spec fn message_text(kind: ErrorKind) -> Seq<char> {
    match kind {
        ErrorKind::StructuralError => "let binding should have been hoisted before optimization"@,
        ErrorKind::UnresolvedCallable => "no such callable"@,
        ErrorKind::UnsupportedMacroDuringInline => "macro call inside an inline function"@,
        ErrorKind::ArityViolation => "too few arguments for an inline function"@,
        ErrorKind::InfiniteInlineRecursion => "infinite inline recursion"@,
    }
}

impl CompileErr {
    /// The failure's text for the user.
    pub fn message(&self) -> (text: String)
        ensures
            text@ == message_text(self.1),
    {
        match self.1 {
            ErrorKind::StructuralError => "let binding should have been hoisted before optimization".to_owned(),
            ErrorKind::UnresolvedCallable => "no such callable".to_owned(),
            ErrorKind::UnsupportedMacroDuringInline => "macro call inside an inline function".to_owned(),
            ErrorKind::ArityViolation => "too few arguments for an inline function".to_owned(),
            ErrorKind::InfiniteInlineRecursion => "infinite inline recursion".to_owned(),
        }
    }
}

/// A macro by its name, with its body.
#[derive(Debug, PartialEq, Eq)]
pub struct MacroDefinition {
    pub name: Vec<u8>,
    pub body: Rc<BodyForm>,
}

/// What a `MacroDefinition` stands for.
pub struct MacroDefinitionView {
    pub name: Seq<u8>,
    pub body: BodyFormView,
}

impl View for MacroDefinition {
    type V = MacroDefinitionView;

    open spec fn view(&self) -> MacroDefinitionView {
        MacroDefinitionView { name: self.name@, body: self.body@ }
    }
}

/// What the name of a call's operator refers to.
#[derive(Debug, PartialEq, Eq)]
pub enum Callable {
    /// An inline function: the call is replaced by its body.
    CallInline(Srcloc, InlineFunction),
    /// A macro, with its body.
    CallMacro(Srcloc, Rc<BodyForm>),
    /// An ordinary function or a primitive: the call stays a call.
    CallOther(Srcloc),
}

/// What a `Callable` stands for.
pub enum CallableView {
    CallInline(Srcloc, InlineFunctionView),
    CallMacro(Srcloc, BodyFormView),
    CallOther(Srcloc),
}

impl View for Callable {
    type V = CallableView;

    open spec fn view(&self) -> CallableView {
        match self {
            Callable::CallInline(l, f) => CallableView::CallInline(*l, f@),
            Callable::CallMacro(l, body) => CallableView::CallMacro(*l, body@),
            Callable::CallOther(l) => CallableView::CallOther(*l),
        }
    }
}

/// The definitions that a call's operator may name: the program's macros,
/// its inline functions, and the names of its ordinary functions and of the
/// primitives. Where a name occurs more than once in a list, the first entry
/// counts.
#[derive(Debug, PartialEq, Eq)]
pub struct PrimaryCodegen {
    pub macros: Vec<MacroDefinition>,
    pub inlines: Vec<InlineFunction>,
    pub functions: Vec<Vec<u8>>,
}

/// What a `PrimaryCodegen` stands for.
pub struct PrimaryCodegenView {
    pub macros: Seq<MacroDefinitionView>,
    pub inlines: Seq<InlineFunctionView>,
    pub functions: Seq<Seq<u8>>,
}

impl View for PrimaryCodegen {
    type V = PrimaryCodegenView;

    open spec fn view(&self) -> PrimaryCodegenView {
        PrimaryCodegenView {
            macros: Seq::new(self.macros.len() as nat, |i: int| self.macros[i]@),
            inlines: Seq::new(self.inlines.len() as nat, |i: int| self.inlines[i]@),
            functions: Seq::new(self.functions.len() as nat, |i: int| self.functions[i]@),
        }
    }
}

} // verus!
