use crate::codegen::call_name;
use crate::codegen::first_position;
use crate::codegen::get_call_name;
use crate::codegen::get_callable;
use crate::codegen::lemma_first_position;
use crate::codegen::same_name;
use crate::comptypes::BodyForm;
use crate::comptypes::BodyFormView;
use crate::comptypes::Callable;
use crate::comptypes::CallableView;
use crate::comptypes::CompileErr;
use crate::comptypes::ErrorKind;
use crate::comptypes::InlineFunction;
use crate::comptypes::InlineFunctionView;
use crate::comptypes::PrimaryCodegen;
use crate::comptypes::PrimaryCodegenView;
use crate::comptypes::body_views;
use crate::number::Number;
use crate::number::bi_one;
use crate::number::bigint_add;
use crate::number::bigint_from_i32;
use crate::number::bigint_mul;
use crate::sexp::SExp;
use crate::sexp::SExpView;
use crate::srcloc::Srcloc;
use std::rc::Rc;
use vstd::prelude::*;

verus! {

/// The byte `@`: the operator that reads the environment at a path.
pub const ENV_OPERATOR: u8 = 64;

/// The byte `c`: the operator that makes a pair.
pub const CONS_OPERATOR: u8 = 99;

/// The byte `f`: the operator that takes the head of a pair.
pub const HEAD_OPERATOR: u8 = 102;

/// The byte `r`: the operator that takes the tail of a pair.
pub const TAIL_OPERATOR: u8 = 114;

/// The call at `loc` of the operator called `name` on the one argument
/// `expr`.
pub open spec fn apply_fn_spec(loc: Srcloc, name: Seq<u8>, expr: BodyFormView) -> BodyFormView {
    BodyFormView::Call(loc, Box::new(BodyFormView::Value(SExpView::Atom(loc, name))), seq![expr])
}

/// The expression at `loc` that reads the environment at `path`.
pub open spec fn at_form_spec(loc: Srcloc, path: int) -> BodyFormView {
    apply_fn_spec(loc, seq![ENV_OPERATOR], BodyFormView::Value(SExpView::Integer(loc, path)))
}

/// The views of a vector of one expression.
proof fn lemma_body_views_one(forms: Seq<Rc<BodyForm>>)
    requires
        forms.len() == 1,
    ensures
        body_views(forms) == seq![forms[0]@],
{
    assert(body_views(forms) =~= seq![forms[0]@]);
}

/// Builds the call at `loc` of the operator called `name` on the one
/// argument `expr`.
pub fn apply_fn(loc: Srcloc, name: Vec<u8>, expr: Rc<BodyForm>) -> (form: Rc<BodyForm>)
    ensures
        form@ == apply_fn_spec(loc, name@, expr@),
{
    let ghost name_view = name@;
    let operator = Rc::new(BodyForm::Value(SExp::Atom(loc, name)));
    let mut arguments: Vec<Rc<BodyForm>> = Vec::new();
    arguments.push(expr);
    proof {
        lemma_body_views_one(arguments@);
    }
    let form = Rc::new(BodyForm::Call(loc, operator, arguments));
    proof {
        assert(operator@ == BodyFormView::Value(SExpView::Atom(loc, name_view)));
    }
    form
}

/// Builds the expression at `loc` that reads the environment at `path`.
pub fn at_form(loc: Srcloc, path: Number) -> (form: Rc<BodyForm>)
    ensures
        form@ == at_form_spec(loc, path@),
{
    let mut name: Vec<u8> = Vec::new();
    name.push(ENV_OPERATOR);
    assert(name@ =~= seq![ENV_OPERATOR]);
    apply_fn(loc, name, Rc::new(BodyForm::Value(SExp::Integer(loc, path))))
}

/// The path of the parameter in slot `i`: 5 for the first, and for each
/// further slot twice the path before it, plus one. It says "take the tail
/// `i` times, then the head" of the arguments in the environment.
pub open spec fn path_value(i: nat) -> int
    decreases i,
{
    if i == 0 {
        5
    } else {
        2 * path_value((i - 1) as nat) + 1
    }
}

/// The number of slots of `pattern`: the pairs along its spine of tails.
pub open spec fn slot_count(pattern: SExpView) -> nat
    decreases pattern,
{
    match pattern {
        SExpView::Cons(_, _, rest) => 1 + slot_count(*rest),
        _ => 0,
    }
}

/// What is left of `pattern` after `i` steps to the tail. Past the end of
/// the spine it stays what ended the spine.
pub open spec fn rest_after(pattern: SExpView, i: nat) -> SExpView
    decreases i,
{
    if i == 0 {
        pattern
    } else {
        match rest_after(pattern, (i - 1) as nat) {
            SExpView::Cons(_, _, rest) => *rest,
            end => end,
        }
    }
}

/// One environment read per slot of `pattern`, in order, each at the place
/// of its slot's pair.
pub open spec fn synthesize_args_spec(pattern: SExpView) -> Seq<BodyFormView> {
    Seq::new(
        slot_count(pattern),
        |i: int| at_form_spec(rest_after(pattern, i as nat).loc(), path_value(i as nat)),
    )
}

/// Gives, for each slot of the parameter pattern `arg_`, the expression that
/// reads that parameter from the environment by its path. Only the spine is
/// walked: a slot that is itself a pattern gets one read for the whole of
/// it.
pub fn synthesize_args(arg_: Rc<SExp>) -> (result: Vec<Rc<BodyForm>>)
    ensures
        result.len() == slot_count(arg_@),
        body_views(result@) == synthesize_args_spec(arg_@),
{
    let one = bi_one();
    let two = bigint_from_i32(2);
    let mut start = bigint_from_i32(5);
    let mut result: Vec<Rc<BodyForm>> = Vec::new();
    let mut arg = arg_.clone();
    loop
        invariant
            one@ == 1,
            two@ == 2,
            start@ == path_value(result.len() as nat),
            arg@ == rest_after(arg_@, result.len() as nat),
            slot_count(arg_@) == result.len() + slot_count(arg@),
            forall|i: int|
                0 <= i < result.len() ==> (#[trigger] result[i])@ == at_form_spec(
                    rest_after(arg_@, i as nat).loc(),
                    path_value(i as nat),
                ),
        ensures
            result.len() == slot_count(arg_@),
            forall|i: int|
                0 <= i < result.len() ==> (#[trigger] result[i])@ == at_form_spec(
                    rest_after(arg_@, i as nat).loc(),
                    path_value(i as nat),
                ),
        decreases slot_count(arg@),
    {
        let next_arg = match &*arg {
            SExp::Cons(l, _, b) => {
                let doubled = bigint_mul(&start, &two);
                let next = bigint_add(&one, &doubled);
                result.push(at_form(*l, start));
                start = next;
                b.clone()
            },
            _ => {
                break;
            },
        };
        arg = next_arg;
    }
    assert(body_views(result@) =~= synthesize_args_spec(arg_@));
    result
}

/// The list of `args` from index `start` on, in order: pairs made by the
/// pair operator, ended by the empty list, all at `loc`.
pub open spec fn enlist_remaining_args_spec(
    loc: Srcloc,
    start: int,
    args: Seq<BodyFormView>,
) -> BodyFormView
    decreases args.len() - start,
{
    if start < 0 || start >= args.len() {
        BodyFormView::Value(SExpView::Nil(loc))
    } else {
        BodyFormView::Call(
            loc,
            Box::new(BodyFormView::Value(SExpView::Atom(loc, seq![CONS_OPERATOR]))),
            seq![args[start], enlist_remaining_args_spec(loc, start + 1, args)],
        )
    }
}

/// The views of a vector of two expressions.
proof fn lemma_body_views_two(forms: Seq<Rc<BodyForm>>)
    requires
        forms.len() == 2,
    ensures
        body_views(forms) == seq![forms[0]@, forms[1]@],
{
    assert(body_views(forms) =~= seq![forms[0]@, forms[1]@]);
}

/// Builds the list that holds `args` from index `arg_choice` on: what a
/// parameter that takes all the remaining arguments is bound to.
pub fn enlist_remaining_args(loc: Srcloc, arg_choice: usize, args: &Vec<Rc<BodyForm>>) -> (form: Rc<
    BodyForm,
>)
    ensures
        form@ == enlist_remaining_args_spec(loc, arg_choice as int, body_views(args@)),
{
    let mut result_body = Rc::new(BodyForm::Value(SExp::Nil(loc)));
    let mut i = args.len();
    while i > arg_choice
        invariant
            i <= args.len(),
            arg_choice <= i || i == args.len(),
            result_body@ == enlist_remaining_args_spec(loc, i as int, body_views(args@)),
        decreases i,
    {
        i -= 1;
        let mut name: Vec<u8> = Vec::new();
        name.push(CONS_OPERATOR);
        assert(name@ =~= seq![CONS_OPERATOR]);
        let operator = Rc::new(BodyForm::Value(SExp::Atom(loc, name)));
        let mut pair: Vec<Rc<BodyForm>> = Vec::new();
        pair.push(args[i].clone());
        pair.push(result_body);
        proof {
            lemma_body_views_two(pair@);
            assert(operator@ == BodyFormView::Value(SExpView::Atom(loc, seq![CONS_OPERATOR])));
        }
        result_body = Rc::new(BodyForm::Call(loc, operator, pair));
    }
    result_body
}

/// One step into a pair: to its head or to its tail. The place is that of
/// the pair in the parameter pattern.
#[derive(Clone, Copy, Debug, PartialEq, Eq, Structural)]
pub enum Accessor {
    HeadOf(Srcloc),
    TailOf(Srcloc),
}

/// The expression that takes from `expr` what `step` says.
pub open spec fn accessor_spec(step: Accessor, expr: BodyFormView) -> BodyFormView {
    match step {
        Accessor::HeadOf(l) => apply_fn_spec(l, seq![HEAD_OPERATOR], expr),
        Accessor::TailOf(l) => apply_fn_spec(l, seq![TAIL_OPERATOR], expr),
    }
}

/// `expr` inside the accessors of `wrap`: the last one is applied to `expr`
/// itself, the first one is outermost.
pub open spec fn wrap_spec(wrap: Seq<Accessor>, expr: BodyFormView) -> BodyFormView
    decreases wrap.len(),
{
    if wrap.len() == 0 {
        expr
    } else {
        wrap_spec(wrap.drop_last(), accessor_spec(wrap.last(), expr))
    }
}

/// What `name` is bound to where the pattern `pattern` is matched against
/// `provided`, if `pattern` binds it. `wrap` holds the steps taken so far: a
/// pair is searched in its head with the step to the head added to `wrap`,
/// and in its tail with the step to the tail added; a match in the head
/// wins. A name gives `provided` inside `wrap`. Nothing else matches.
pub open spec fn pick_value_spec(
    pattern: SExpView,
    provided: BodyFormView,
    wrap: Seq<Accessor>,
    name: Seq<u8>,
) -> Option<BodyFormView>
    decreases pattern,
{
    match pattern {
        SExpView::Cons(l, a, b) => match pick_value_spec(
            *a,
            provided,
            wrap.push(Accessor::HeadOf(l)),
            name,
        ) {
            Some(found) => Some(found),
            None => pick_value_spec(*b, provided, wrap.push(Accessor::TailOf(l)), name),
        },
        SExpView::Atom(_, a) => if a == name {
            Some(wrap_spec(wrap, provided))
        } else {
            None
        },
        _ => None,
    }
}

/// Builds the expression that takes from `expr` what `step` says.
pub fn apply_accessor(step: Accessor, expr: Rc<BodyForm>) -> (form: Rc<BodyForm>)
    ensures
        form@ == accessor_spec(step, expr@),
{
    let mut name: Vec<u8> = Vec::new();
    match step {
        Accessor::HeadOf(l) => {
            name.push(HEAD_OPERATOR);
            assert(name@ =~= seq![HEAD_OPERATOR]);
            apply_fn(l, name, expr)
        },
        Accessor::TailOf(l) => {
            name.push(TAIL_OPERATOR);
            assert(name@ =~= seq![TAIL_OPERATOR]);
            apply_fn(l, name, expr)
        },
    }
}

/// Builds `expr` inside the accessors of `wrap`.
pub fn apply_wrap(wrap: &Vec<Accessor>, expr: Rc<BodyForm>) -> (form: Rc<BodyForm>)
    ensures
        form@ == wrap_spec(wrap@, expr@),
{
    let mut form = expr;
    let mut i = wrap.len();
    assert(wrap@.take(i as int) =~= wrap@);
    while i > 0
        invariant
            i <= wrap.len(),
            wrap_spec(wrap@, expr@) == wrap_spec(wrap@.take(i as int), form@),
        decreases i,
    {
        assert(wrap@.take(i as int).drop_last() =~= wrap@.take(i - 1));
        i -= 1;
        form = apply_accessor(wrap[i], form);
    }
    form
}

/// Looks for `name` in the pattern `match_args`, matched against `provided`
/// after the steps in `apply`, and gives what `name` is bound to.
pub fn pick_value_from_arg_element(
    match_args: &Rc<SExp>,
    provided: &Rc<BodyForm>,
    apply: &Vec<Accessor>,
    name: &Vec<u8>,
) -> (picked: Option<Rc<BodyForm>>)
    ensures
        match picked {
            Some(found) => pick_value_spec(match_args@, provided@, apply@, name@) == Some(found@),
            None => pick_value_spec(match_args@, provided@, apply@, name@) is None,
        },
    decreases match_args@,
{
    match &**match_args {
        SExp::Cons(l, a, b) => {
            let mut to_head = apply.clone();
            to_head.push(Accessor::HeadOf(*l));
            assert(to_head@ =~= apply@.push(Accessor::HeadOf(*l)));
            match pick_value_from_arg_element(a, provided, &to_head, name) {
                Some(found) => Some(found),
                None => {
                    let mut to_tail = apply.clone();
                    to_tail.push(Accessor::TailOf(*l));
                    assert(to_tail@ =~= apply@.push(Accessor::TailOf(*l)));
                    pick_value_from_arg_element(b, provided, &to_tail, name)
                },
            }
        },
        SExp::Atom(_, a) => {
            if same_name(a, name) {
                Some(apply_wrap(apply, provided.clone()))
            } else {
                None
            }
        },
        _ => None,
    }
}

/// Whether `pattern` binds `name`: whether `name` is one of its names, at
/// any depth.
pub open spec fn binds(pattern: SExpView, name: Seq<u8>) -> bool
    decreases pattern,
{
    match pattern {
        SExpView::Cons(_, a, b) => binds(*a, name) || binds(*b, name),
        SExpView::Atom(_, a) => a == name,
        _ => false,
    }
}

/// A pattern matches for exactly the names that it binds, whatever it is
/// matched against.
pub proof fn lemma_pick_value_binds(
    pattern: SExpView,
    provided: BodyFormView,
    wrap: Seq<Accessor>,
    name: Seq<u8>,
)
    ensures
        pick_value_spec(pattern, provided, wrap, name) is Some <==> binds(pattern, name),
    decreases pattern,
{
    match pattern {
        SExpView::Cons(l, a, b) => {
            lemma_pick_value_binds(*a, provided, wrap.push(Accessor::HeadOf(l)), name);
            lemma_pick_value_binds(*b, provided, wrap.push(Accessor::TailOf(l)), name);
        },
        _ => {},
    }
}

/// Whether the pattern `pattern` binds `name`.
pub fn binds_name(pattern: &Rc<SExp>, name: &Vec<u8>) -> (bound: bool)
    ensures
        bound == binds(pattern@, name@),
    decreases pattern@,
{
    match &**pattern {
        SExp::Cons(_, a, b) => binds_name(a, name) || binds_name(b, name),
        SExp::Atom(_, a) => same_name(a, name),
        _ => false,
    }
}

/// How many arguments a lookup of `name` in the parameter pattern `pattern`
/// reads: one for each slot up to the first that binds `name`, that slot
/// included, and one for every slot where none binds it.
pub open spec fn slots_read(pattern: SExpView, name: Seq<u8>) -> nat
    decreases pattern,
{
    match pattern {
        SExpView::Cons(_, f, r) => if binds(*f, name) {
            1
        } else {
            1 + slots_read(*r, name)
        },
        _ => 0,
    }
}

/// A lookup never reads more arguments than the pattern has slots.
pub proof fn lemma_slots_read_bound(pattern: SExpView, name: Seq<u8>)
    ensures
        slots_read(pattern, name) <= slot_count(pattern),
        !binds(pattern, name) ==> slots_read(pattern, name) == slot_count(pattern),
    decreases pattern,
{
    match pattern {
        SExpView::Cons(_, f, r) => {
            lemma_slots_read_bound(*r, name);
        },
        _ => {},
    }
}

/// Whether `available` arguments are enough for a lookup of `name` in the
/// parameter pattern `pattern`.
pub fn has_arguments_for(pattern: &Rc<SExp>, available: usize, name: &Vec<u8>) -> (enough: bool)
    ensures
        enough == (slots_read(pattern@, name@) <= available),
    decreases pattern@,
{
    match &**pattern {
        SExp::Cons(_, f, r) => {
            if available == 0 {
                false
            } else if binds_name(f, name) {
                true
            } else {
                has_arguments_for(r, available - 1, name)
            }
        },
        _ => true,
    }
}

/// What `name` is bound to where the parameter pattern `pattern` is matched
/// against `args` from index `index` on, if `pattern` binds it. Each pair
/// along the spine matches its head against the next argument; what ends the
/// spine is matched against the list of all the arguments that are left.
/// The first slot that binds `name` wins.
pub open spec fn arg_lookup_spec(
    pattern: SExpView,
    index: int,
    args: Seq<BodyFormView>,
    name: Seq<u8>,
) -> Option<BodyFormView>
    decreases pattern,
{
    match pattern {
        SExpView::Cons(_, f, r) => match pick_value_spec(*f, args[index], Seq::empty(), name) {
            Some(found) => Some(found),
            None => arg_lookup_spec(*r, index + 1, args, name),
        },
        _ => pick_value_spec(
            pattern,
            enlist_remaining_args_spec(pattern.loc(), index, args),
            Seq::empty(),
            name,
        ),
    }
}

/// Looks `name` up in the parameter pattern `match_args`, whose slots take
/// `args` from index `arg_choice` on, and gives what `name` is bound to:
/// `None` for a name that the pattern does not bind. There must be an
/// argument for every slot that the lookup reads.
pub fn arg_lookup(
    match_args: &Rc<SExp>,
    arg_choice: usize,
    args: &Vec<Rc<BodyForm>>,
    name: &Vec<u8>,
) -> (looked_up: Option<Rc<BodyForm>>)
    requires
        arg_choice + slots_read(match_args@, name@) <= args.len(),
    ensures
        match looked_up {
            Some(found) => arg_lookup_spec(match_args@, arg_choice as int, body_views(args@), name@)
                == Some(found@),
            None => arg_lookup_spec(match_args@, arg_choice as int, body_views(args@), name@)
                is None,
        },
    decreases match_args@,
{
    let identity: Vec<Accessor> = Vec::new();
    assert(identity@ =~= Seq::empty());
    match &**match_args {
        SExp::Cons(_, f, r) => {
            match pick_value_from_arg_element(f, &args[arg_choice], &identity, name) {
                Some(found) => Some(found),
                None => {
                    proof {
                        lemma_pick_value_binds(f@, args[arg_choice as int]@, identity@, name@);
                    }
                    arg_lookup(r, arg_choice + 1, args, name)
                },
            }
        },
        _ => {
            let rest = enlist_remaining_args(match_args.loc(), arg_choice, args);
            pick_value_from_arg_element(match_args, &rest, &identity, name)
        },
    }
}

/// What the operator `list_head` of a call at `loc` refers to.
pub open spec fn get_inline_callable_spec(
    table: PrimaryCodegenView,
    loc: Srcloc,
    list_head: BodyFormView,
) -> Result<CallableView, CompileErr> {
    match call_name(loc, list_head) {
        Ok(name) => table.resolve(loc, name),
        Err(e) => Err(e),
    }
}

/// Resolves the operator `list_head` of a call at `loc`: it must be a name
/// that `compiler` defines.
pub fn get_inline_callable(compiler: &PrimaryCodegen, loc: Srcloc, list_head: &Rc<BodyForm>) -> (callable:
    Result<Callable, CompileErr>)
    ensures
        match callable {
            Ok(c) => get_inline_callable_spec(compiler@, loc, list_head@) == Ok::<
                CallableView,
                CompileErr,
            >(c@),
            Err(e) => get_inline_callable_spec(compiler@, loc, list_head@) == Err::<
                CallableView,
                CompileErr,
            >(e),
        },
{
    match get_call_name(loc, &**list_head) {
        Ok(name) => get_callable(compiler, loc, &name),
        Err(e) => Err(e),
    }
}

/// Whether `active` marks the inline function with index `i` as being
/// expanded. An index that `active` has no entry for is not marked.
pub open spec fn is_marked(active: Seq<bool>, i: int) -> bool {
    0 <= i < active.len() && active[i]
}

/// `active` with the inline function with index `i` marked as being
/// expanded, and every other mark as it was. Where `active` is too short
/// for `i`, it grows by entries that mark nothing.
pub open spec fn with_mark(active: Seq<bool>, i: int) -> Seq<bool> {
    if i < active.len() {
        active.update(i, true)
    } else {
        active + Seq::new((i - active.len()) as nat, |j: int| false) + seq![true]
    }
}

/// How many of the first `n` inline functions `active` does not mark as
/// being expanded.
pub open spec fn idle_count(active: Seq<bool>, n: nat) -> nat
    decreases n,
{
    if n == 0 {
        0
    } else if is_marked(active, n - 1) {
        idle_count(active, (n - 1) as nat)
    } else {
        idle_count(active, (n - 1) as nat) + 1
    }
}

/// `with_mark` marks the one index and changes no other mark.
pub proof fn lemma_with_mark(active: Seq<bool>, i: int)
    requires
        0 <= i,
    ensures
        is_marked(with_mark(active, i), i),
        forall|j: int| j != i ==> is_marked(with_mark(active, i), j) == is_marked(active, j),
{
}

proof fn lemma_idle_count_same(a: Seq<bool>, b: Seq<bool>, n: nat)
    requires
        forall|j: int| 0 <= j < n ==> is_marked(a, j) == is_marked(b, j),
    ensures
        idle_count(a, n) == idle_count(b, n),
    decreases n,
{
    if n > 0 {
        lemma_idle_count_same(a, b, (n - 1) as nat);
    }
}

/// Marking an inline function that was not being expanded leaves one fewer
/// that is not.
pub proof fn lemma_idle_count_with_mark(active: Seq<bool>, i: int, n: nat)
    requires
        0 <= i < n,
        !is_marked(active, i),
    ensures
        idle_count(with_mark(active, i), n) + 1 == idle_count(active, n),
    decreases n,
{
    lemma_with_mark(active, i);
    if i == n - 1 {
        lemma_idle_count_same(with_mark(active, i), active, (n - 1) as nat);
    } else {
        lemma_idle_count_with_mark(active, i, (n - 1) as nat);
    }
}

/// The index under which the inline function called `name` may be entered:
/// that of the first inline function of that name, unless `active` marks it
/// as being expanded already.
pub open spec fn enterable(table: PrimaryCodegenView, active: Seq<bool>, name: Seq<u8>) -> Option<
    int,
> {
    match first_position(table.inline_names(), name) {
        Some(i) => if is_marked(active, i) {
            None
        } else {
            Some(i)
        },
        None => None,
    }
}

/// The expansion of the inline function `inline` on `args`, for a call at
/// `loc`, while the inline functions marked in `active` are being expanded:
/// its body with `args` put in.
pub open spec fn replace_in_inline_guarded_spec(
    table: PrimaryCodegenView,
    active: Seq<bool>,
    loc: Srcloc,
    inline: InlineFunctionView,
    args: Seq<BodyFormView>,
) -> Result<BodyFormView, CompileErr>
    decreases idle_count(active, table.inlines.len()), inline.body, 1nat,
{
    replace_inline_body_spec(table, active, loc, inline.args, args, inline.body)
}

/// `expr`, a part of the body of an inline function with the parameters
/// `pattern`, after `args` were put in for the parameters, for a call at
/// `loc`.
///
/// A `let` form is an error, at its own place. A reference to a parameter
/// becomes what the parameter is bound to; any other reference, and any
/// literal, stays. Where looking a reference up reads more arguments than
/// the call gave, the call at `loc` has too few. In a call the arguments
/// are rewritten in order, and the operator is left as it is; then the
/// operator decides. An inline function is entered with the new arguments,
/// and its expansion stands in place of the call, unless it is being
/// expanded already. A macro is an error. Any other operator keeps the
/// call, with the new arguments.
pub open spec fn replace_inline_body_spec(
    table: PrimaryCodegenView,
    active: Seq<bool>,
    loc: Srcloc,
    pattern: SExpView,
    args: Seq<BodyFormView>,
    expr: BodyFormView,
) -> Result<BodyFormView, CompileErr>
    decreases idle_count(active, table.inlines.len()), expr, 0nat,
{
    match expr {
        BodyFormView::Let(l, _, _) => Err(CompileErr(l, ErrorKind::StructuralError)),
        BodyFormView::Call(l, op, call_args) => match replace_inline_args_spec(
            table,
            active,
            loc,
            pattern,
            args,
            call_args,
        ) {
            Err(e) => Err(e),
            Ok(new_args) => match get_inline_callable_spec(table, l, *op) {
                Err(e) => Err(e),
                Ok(CallableView::CallInline(_, new_inline)) => match enterable(
                    table,
                    active,
                    new_inline.name,
                ) {
                    Some(i) => {
                        proof {
                            lemma_first_position(table.inline_names(), new_inline.name);
                            lemma_idle_count_with_mark(active, i, table.inlines.len());
                        }
                        replace_in_inline_guarded_spec(
                            table,
                            with_mark(active, i),
                            l,
                            new_inline,
                            new_args,
                        )
                    },
                    None => Err(CompileErr(l, ErrorKind::InfiniteInlineRecursion)),
                },
                Ok(CallableView::CallMacro(_, _)) => Err(
                    CompileErr(l, ErrorKind::UnsupportedMacroDuringInline),
                ),
                Ok(CallableView::CallOther(_)) => Ok(BodyFormView::Call(l, op, new_args)),
            },
        },
        BodyFormView::Value(SExpView::Atom(_, name)) => if args.len() < slots_read(
            pattern,
            name,
        ) {
            Err(CompileErr(loc, ErrorKind::ArityViolation))
        } else {
            match arg_lookup_spec(pattern, 0, args, name) {
                Some(found) => Ok(found),
                None => Ok(expr),
            }
        },
        _ => Ok(expr),
    }
}

/// The arguments `list` of a call, each rewritten as
/// `replace_inline_body_spec` says, in order; the first error among them
/// is the error of the whole.
pub open spec fn replace_inline_args_spec(
    table: PrimaryCodegenView,
    active: Seq<bool>,
    loc: Srcloc,
    pattern: SExpView,
    args: Seq<BodyFormView>,
    list: Seq<BodyFormView>,
) -> Result<Seq<BodyFormView>, CompileErr>
    decreases idle_count(active, table.inlines.len()), list, 0nat,
{
    if list.len() == 0 {
        Ok(Seq::empty())
    } else {
        match replace_inline_args_spec(table, active, loc, pattern, args, list.drop_last()) {
            Err(e) => Err(e),
            Ok(done) => match replace_inline_body_spec(
                table,
                active,
                loc,
                pattern,
                args,
                list.last(),
            ) {
                Err(e) => Err(e),
                Ok(replaced) => Ok(done.push(replaced)),
            },
        }
    }
}

/// An error among the first `k` arguments is the error of the whole list.
proof fn lemma_args_error_stays(
    table: PrimaryCodegenView,
    active: Seq<bool>,
    loc: Srcloc,
    pattern: SExpView,
    args: Seq<BodyFormView>,
    list: Seq<BodyFormView>,
    k: int,
)
    requires
        0 <= k <= list.len(),
        replace_inline_args_spec(table, active, loc, pattern, args, list.take(k)) is Err,
    ensures
        replace_inline_args_spec(table, active, loc, pattern, args, list)
            == replace_inline_args_spec(table, active, loc, pattern, args, list.take(k)),
    decreases list.len() - k,
{
    if k == list.len() {
        assert(list.take(k) =~= list);
    } else {
        assert(list.drop_last().take(k) =~= list.take(k));
        lemma_args_error_stays(table, active, loc, pattern, args, list.drop_last(), k);
    }
}

/// Expands the inline function `inline` on `args`, for a call at `loc`,
/// while the inline functions marked in `active` are being expanded.
/// `active` is handed back as it came.
pub fn replace_in_inline_guarded(
    compiler: &PrimaryCodegen,
    active: &mut Vec<bool>,
    loc: Srcloc,
    inline: &InlineFunction,
    args: &Vec<Rc<BodyForm>>,
) -> (expanded: Result<Rc<BodyForm>, CompileErr>)
    ensures
        final(active)@ == old(active)@,
        match expanded {
            Ok(form) => replace_in_inline_guarded_spec(
                compiler@,
                old(active)@,
                loc,
                inline@,
                body_views(args@),
            ) == Ok::<BodyFormView, CompileErr>(form@),
            Err(e) => replace_in_inline_guarded_spec(
                compiler@,
                old(active)@,
                loc,
                inline@,
                body_views(args@),
            ) == Err::<BodyFormView, CompileErr>(e),
        },
    decreases idle_count(old(active)@, compiler@.inlines.len()), inline.body@, 1nat,
{
    replace_inline_body(compiler, active, loc, inline, args, &inline.body)
}

/// Rewrites `expr`, a part of the body of `inline`, with `args` put in for
/// the parameters of `inline`, for a call at `loc`, while the inline
/// functions marked in `active` are being expanded. `active` is handed
/// back as it came.
///
/// A reference whose lookup would read an argument that `args` does not
/// hold fails: the call at `loc` has too few arguments.
pub fn replace_inline_body(
    compiler: &PrimaryCodegen,
    active: &mut Vec<bool>,
    loc: Srcloc,
    inline: &InlineFunction,
    args: &Vec<Rc<BodyForm>>,
    expr: &Rc<BodyForm>,
) -> (replaced: Result<Rc<BodyForm>, CompileErr>)
    ensures
        final(active)@ == old(active)@,
        match replaced {
            Ok(form) => replace_inline_body_spec(
                compiler@,
                old(active)@,
                loc,
                inline.args@,
                body_views(args@),
                expr@,
            ) == Ok::<BodyFormView, CompileErr>(form@),
            Err(e) => replace_inline_body_spec(
                compiler@,
                old(active)@,
                loc,
                inline.args@,
                body_views(args@),
                expr@,
            ) == Err::<BodyFormView, CompileErr>(e),
        },
    decreases idle_count(old(active)@, compiler@.inlines.len()), expr@, 0nat,
{
    let ghost before = active@;
    let ghost table = compiler@;
    let ghost pattern = inline.args@;
    let ghost given = body_views(args@);
    match &**expr {
        BodyForm::Let(l, _, _) => Err(CompileErr(*l, ErrorKind::StructuralError)),
        BodyForm::Call(l, op, call_args) => {
            let ghost list = body_views(call_args@);
            let mut new_args: Vec<Rc<BodyForm>> = Vec::new();
            let mut i: usize = 0;
            assert(list.take(0) =~= Seq::empty());
            assert(body_views(new_args@) =~= Seq::empty());
            while i < call_args.len()
                invariant
                    i <= call_args.len(),
                    active@ == before,
                    before == old(active)@,
                    table == compiler@,
                    pattern == inline.args@,
                    given == body_views(args@),
                    list == body_views(call_args@),
                    expr@ == BodyFormView::Call(*l, Box::new(op@), list),
                    replace_inline_args_spec(
                        table,
                        before,
                        loc,
                        pattern,
                        given,
                        list.take(i as int),
                    ) == Ok::<Seq<BodyFormView>, CompileErr>(body_views(new_args@)),
                decreases call_args.len() - i,
            {
                assert(list.take(i + 1).drop_last() =~= list.take(i as int));
                assert(list.take(i + 1).last() == call_args[i as int]@);
                assert(list[i as int] == call_args[i as int]@);
                match replace_inline_body(compiler, active, loc, inline, args, &call_args[i]) {
                    Err(e) => {
                        proof {
                            lemma_args_error_stays(table, before, loc, pattern, given, list, i + 1);
                        }
                        return Err(e);
                    },
                    Ok(replaced) => {
                        let ghost done = body_views(new_args@);
                        new_args.push(replaced);
                        assert(body_views(new_args@) =~= done.push(replaced@));
                    },
                }
                i += 1;
            }
            assert(list.take(i as int) =~= list);
            match get_inline_callable(compiler, *l, op) {
                Err(e) => Err(e),
                Ok(Callable::CallInline(_, new_inline)) => {
                    match compiler.find_inline(&new_inline.name) {
                        Some(index) => {
                            let marks = active.len();
                            if index < marks && active[index] {
                                Err(CompileErr(*l, ErrorKind::InfiniteInlineRecursion))
                            } else {
                                proof {
                                    lemma_idle_count_with_mark(
                                        before,
                                        index as int,
                                        table.inlines.len(),
                                    );
                                }
                                if index < marks {
                                    active.set(index, true);
                                } else {
                                    while active.len() < index
                                        invariant
                                            marks <= active.len() <= index,
                                            active@ == before + Seq::new(
                                                (active.len() - marks) as nat,
                                                |j: int| false,
                                            ),
                                        decreases index - active.len(),
                                    {
                                        active.push(false);
                                        assert(active@ =~= before + Seq::new(
                                            (active.len() - marks) as nat,
                                            |j: int| false,
                                        ));
                                    }
                                    active.push(true);
                                }
                                assert(active@ =~= with_mark(before, index as int));
                                let expanded = replace_in_inline_guarded(
                                    compiler,
                                    active,
                                    *l,
                                    &new_inline,
                                    &new_args,
                                );
                                if index < marks {
                                    active.set(index, false);
                                } else {
                                    active.truncate(marks);
                                }
                                assert(active@ =~= before);
                                expanded
                            }
                        },
                        None => Err(CompileErr(*l, ErrorKind::InfiniteInlineRecursion)),
                    }
                },
                Ok(Callable::CallMacro(_, _)) => Err(
                    CompileErr(*l, ErrorKind::UnsupportedMacroDuringInline),
                ),
                Ok(Callable::CallOther(_)) => Ok(
                    Rc::new(BodyForm::Call(*l, op.clone(), new_args)),
                ),
            }
        },
        BodyForm::Value(SExp::Atom(_, a)) => {
            if !has_arguments_for(&inline.args, args.len(), a) {
                return Err(CompileErr(loc, ErrorKind::ArityViolation));
            }
            match arg_lookup(&inline.args, 0, args, a) {
                Some(found) => Ok(found),
                None => Ok(expr.clone()),
            }
        },
        _ => Ok(expr.clone()),
    }
}

/// The marks at the start of the expansion of the inline function called
/// `name`: one for each inline function of `table`, and that function alone
/// is being expanded.
pub open spec fn starting_guard(table: PrimaryCodegenView, name: Seq<u8>) -> Seq<bool> {
    Seq::new(table.inlines.len(), |i: int| first_position(table.inline_names(), name) == Some(i))
}

/// The expansion of a call at `loc` of the inline function `inline` on
/// `args`: the body of `inline` with `args` put in for its parameters and
/// with every call of an inline function in it expanded in turn.
pub open spec fn replace_in_inline_spec(
    table: PrimaryCodegenView,
    loc: Srcloc,
    inline: InlineFunctionView,
    args: Seq<BodyFormView>,
) -> Result<BodyFormView, CompileErr> {
    replace_in_inline_guarded_spec(table, starting_guard(table, inline.name), loc, inline, args)
}

/// Expands a call at `loc` of the inline function `inline` on `args`.
///
/// The result is the body of `inline` in which each reference to a
/// parameter is replaced by what the parameter is bound to, and each call
/// of an inline function by that function's expansion, so that no call of
/// an inline function is left. References to other names and literals
/// stay, and so does the operator of every call that is kept.
///
/// The walk goes through each call's arguments in order, and the first
/// thing to fail decides the error: a `let` form fails at its own place; a
/// reference fails where looking it up needs an argument that the call did
/// not give; a call fails where its operator is not defined by `compiler`,
/// names a macro, or names an inline function that is being expanded
/// already.
pub fn replace_in_inline(
    compiler: &PrimaryCodegen,
    loc: Srcloc,
    inline: &InlineFunction,
    args: &Vec<Rc<BodyForm>>,
) -> (expanded: Result<Rc<BodyForm>, CompileErr>)
    ensures
        match expanded {
            Ok(form) => replace_in_inline_spec(compiler@, loc, inline@, body_views(args@)) == Ok::<
                BodyFormView,
                CompileErr,
            >(form@),
            Err(e) => replace_in_inline_spec(compiler@, loc, inline@, body_views(args@)) == Err::<
                BodyFormView,
                CompileErr,
            >(e),
        },
{
    let mut active: Vec<bool> = Vec::new();
    let mut i: usize = 0;
    while i < compiler.inlines.len()
        invariant
            i <= compiler.inlines.len(),
            active@ == Seq::new(i as nat, |j: int| false),
        decreases compiler.inlines.len() - i,
    {
        active.push(false);
        i += 1;
        assert(active@ =~= Seq::new(i as nat, |j: int| false));
    }
    match compiler.find_inline(&inline.name) {
        Some(own) => {
            active.set(own, true);
        },
        None => {},
    }
    assert(active@ =~= starting_guard(compiler@, inline@.name));
    replace_in_inline_guarded(compiler, &mut active, loc, inline, args)
}

} // verus!
