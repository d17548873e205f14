use crate::codegen::call_name;
use crate::codegen::first_position;
use crate::codegen::lemma_first_position;
use crate::comptypes::BodyFormView;
use crate::comptypes::CallableView;
use crate::comptypes::CompileErr;
use crate::comptypes::ErrorKind;
use crate::comptypes::InlineFunctionView;
use crate::comptypes::PrimaryCodegenView;
use crate::inline::Accessor;
use crate::inline::CONS_OPERATOR;
use crate::inline::HEAD_OPERATOR;
use crate::inline::TAIL_OPERATOR;
use crate::inline::accessor_spec;
use crate::inline::enlist_remaining_args_spec;
use crate::inline::enterable;
use crate::inline::idle_count;
use crate::inline::is_marked;
use crate::inline::with_mark;
use crate::inline::lemma_idle_count_with_mark;
use crate::inline::arg_lookup_spec;
use crate::inline::binds;
use crate::inline::lemma_pick_value_binds;
use crate::inline::lemma_slots_read_bound;
use crate::inline::slots_read;
use crate::inline::get_inline_callable_spec;
use crate::inline::path_value;
use crate::inline::pick_value_spec;
use crate::inline::replace_in_inline_spec;
use crate::inline::replace_inline_args_spec;
use crate::inline::replace_inline_body_spec;
use crate::inline::rest_after;
use crate::inline::slot_count;
use crate::inline::starting_guard;
use crate::inline::wrap_spec;
use crate::sexp::SExpView;
use crate::srcloc::Srcloc;
use vstd::prelude::*;

verus! {

/// Two to the power `n`.
pub open spec fn power_of_two(n: nat) -> nat
    decreases n,
{
    if n == 0 {
        1
    } else {
        2 * power_of_two((n - 1) as nat)
    }
}

/// The path of slot `i` is `6 * 2^i - 1`.
pub proof fn lemma_path_closed_form(i: nat)
    ensures
        path_value(i) == 6 * power_of_two(i) - 1,
    decreases i,
{
    if i > 0 {
        lemma_path_closed_form((i - 1) as nat);
    }
}

/// Paths grow from slot to slot: a later slot has a greater path.
pub proof fn lemma_paths_increase(i: nat, j: nat)
    requires
        i < j,
    ensures
        5 <= path_value(i) < path_value(j),
    decreases j,
{
    lemma_path_at_least_five(i);
    if i + 1 < j {
        lemma_paths_increase(i, (j - 1) as nat);
    }
}

proof fn lemma_path_at_least_five(i: nat)
    ensures
        5 <= path_value(i),
    decreases i,
{
    if i > 0 {
        lemma_path_at_least_five((i - 1) as nat);
    }
}

/// A lookup finds exactly the names that the parameter pattern binds: for
/// any other name it gives `None`.
pub proof fn lemma_arg_lookup_binds(
    pattern: SExpView,
    index: int,
    args: Seq<BodyFormView>,
    name: Seq<u8>,
)
    ensures
        arg_lookup_spec(pattern, index, args, name) is Some <==> binds(pattern, name),
    decreases pattern,
{
    match pattern {
        SExpView::Cons(_, f, r) => {
            lemma_pick_value_binds(*f, args[index], Seq::empty(), name);
            lemma_arg_lookup_binds(*r, index + 1, args, name);
        },
        _ => {
            lemma_pick_value_binds(
                pattern,
                enlist_remaining_args_spec(pattern.loc(), index, args),
                Seq::empty(),
                name,
            );
        },
    }
}

/// Whether `path` leads from the top of `pattern` to the first place that
/// binds `name`: each step names the pair it is taken at, a step to the
/// tail is taken only where the head does not bind `name`, and the path ends
/// at the name itself.
pub open spec fn leads_to(pattern: SExpView, path: Seq<Accessor>, name: Seq<u8>) -> bool
    decreases path.len(),
{
    if path.len() == 0 {
        pattern matches SExpView::Atom(_, a) && a == name
    } else {
        match pattern {
            SExpView::Cons(l, a, b) => match path[0] {
                Accessor::HeadOf(at) => at == l && leads_to(*a, path.drop_first(), name),
                Accessor::TailOf(at) => at == l && !binds(*a, name) && leads_to(
                    *b,
                    path.drop_first(),
                    name,
                ),
            },
            _ => false,
        }
    }
}

/// Matching a pattern gives what it is matched against inside the steps of
/// the path to the name, after those taken before.
pub proof fn lemma_pick_value_follows_path(
    pattern: SExpView,
    provided: BodyFormView,
    wrap: Seq<Accessor>,
    path: Seq<Accessor>,
    name: Seq<u8>,
)
    requires
        leads_to(pattern, path, name),
    ensures
        pick_value_spec(pattern, provided, wrap, name) == Some(wrap_spec(wrap + path, provided)),
    decreases path.len(),
{
    if path.len() == 0 {
        assert(wrap + path =~= wrap);
    } else {
        match pattern {
            SExpView::Cons(l, a, b) => {
                match path[0] {
                    Accessor::HeadOf(_) => {
                        let deeper = wrap.push(Accessor::HeadOf(l));
                        lemma_pick_value_follows_path(*a, provided, deeper, path.drop_first(), name);
                        assert(deeper + path.drop_first() =~= wrap + path);
                    },
                    Accessor::TailOf(_) => {
                        let deeper = wrap.push(Accessor::TailOf(l));
                        lemma_pick_value_binds(
                            *a,
                            provided,
                            wrap.push(Accessor::HeadOf(l)),
                            name,
                        );
                        lemma_pick_value_follows_path(*b, provided, deeper, path.drop_first(), name);
                        assert(deeper + path.drop_first() =~= wrap + path);
                    },
                }
            },
            _ => {},
        }
    }
}

/// The pattern in slot `i` of `pattern`.
pub open spec fn slot(pattern: SExpView, i: nat) -> SExpView {
    match rest_after(pattern, i) {
        SExpView::Cons(_, f, _) => *f,
        end => end,
    }
}

proof fn lemma_rest_after_tail(pattern: SExpView, i: nat)
    requires
        pattern is Cons,
    ensures
        rest_after(pattern, i + 1) == rest_after(*pattern->Cons_2, i),
    decreases i,
{
    if i == 0 {
        assert(rest_after(pattern, 0) == pattern);
        assert(rest_after(*pattern->Cons_2, 0) == *pattern->Cons_2);
    } else {
        lemma_rest_after_tail(pattern, (i - 1) as nat);
        assert(rest_after(pattern, i) == rest_after(*pattern->Cons_2, (i - 1) as nat));
    }
}

proof fn lemma_arg_lookup_from(
    pattern: SExpView,
    index: int,
    args: Seq<BodyFormView>,
    i: nat,
    path: Seq<Accessor>,
    name: Seq<u8>,
)
    requires
        i < slot_count(pattern),
        forall|j: nat| j < i ==> !binds(#[trigger] slot(pattern, j), name),
        leads_to(slot(pattern, i), path, name),
    ensures
        arg_lookup_spec(pattern, index, args, name) == Some(wrap_spec(path, args[index + i])),
    decreases i,
{
    match pattern {
        SExpView::Cons(_, f, r) => {
            if i == 0 {
                lemma_pick_value_follows_path(*f, args[index], Seq::empty(), path, name);
                assert(Seq::<Accessor>::empty() + path =~= path);
            } else {
                assert(!binds(slot(pattern, 0), name));
                lemma_pick_value_binds(*f, args[index], Seq::empty(), name);
                assert forall|j: nat| j < i - 1 implies !binds(#[trigger] slot(*r, j), name) by {
                    lemma_rest_after_tail(pattern, j);
                    assert(!binds(slot(pattern, j + 1), name));
                }
                lemma_rest_after_tail(pattern, (i - 1) as nat);
                lemma_arg_lookup_from(*r, index + 1, args, (i - 1) as nat, path, name);
            }
        },
        _ => {},
    }
}

/// A name that slot `i` is the first to bind, at the end of `path` in that
/// slot's pattern, is looked up as argument `i` inside the steps of `path`,
/// the first step outermost.
pub proof fn lemma_arg_lookup_follows_path(
    pattern: SExpView,
    args: Seq<BodyFormView>,
    i: nat,
    path: Seq<Accessor>,
    name: Seq<u8>,
)
    requires
        i < slot_count(pattern),
        i < args.len(),
        forall|j: nat| j < i ==> !binds(#[trigger] slot(pattern, j), name),
        leads_to(slot(pattern, i), path, name),
    ensures
        arg_lookup_spec(pattern, 0, args, name) == Some(wrap_spec(path, args[i as int])),
{
    lemma_arg_lookup_from(pattern, 0, args, i, path, name);
}

proof fn lemma_arg_lookup_rest_from(
    pattern: SExpView,
    index: int,
    args: Seq<BodyFormView>,
    name: Seq<u8>,
)
    requires
        forall|j: nat| j < slot_count(pattern) ==> !binds(#[trigger] slot(pattern, j), name),
        binds(rest_after(pattern, slot_count(pattern)), name),
    ensures
        arg_lookup_spec(pattern, index, args, name) == Some(
            enlist_remaining_args_spec(
                rest_after(pattern, slot_count(pattern)).loc(),
                index + slot_count(pattern),
                args,
            ),
        ),
    decreases pattern,
{
    match pattern {
        SExpView::Cons(_, f, r) => {
            assert(!binds(slot(pattern, 0), name));
            lemma_pick_value_binds(*f, args[index], Seq::empty(), name);
            assert forall|j: nat| j < slot_count(*r) implies !binds(#[trigger] slot(*r, j), name) by {
                lemma_rest_after_tail(pattern, j);
                assert(!binds(slot(pattern, j + 1), name));
            }
            lemma_rest_after_tail(pattern, slot_count(*r));
            lemma_arg_lookup_rest_from(*r, index + 1, args, name);
        },
        _ => {},
    }
}

/// A name that no slot binds and that ends the spine of the parameters is
/// looked up as the list of the arguments that no slot took, in order.
pub proof fn lemma_arg_lookup_rest(pattern: SExpView, args: Seq<BodyFormView>, name: Seq<u8>)
    requires
        slot_count(pattern) <= args.len(),
        forall|j: nat| j < slot_count(pattern) ==> !binds(#[trigger] slot(pattern, j), name),
        binds(rest_after(pattern, slot_count(pattern)), name),
    ensures
        arg_lookup_spec(pattern, 0, args, name) == Some(
            enlist_remaining_args_spec(
                rest_after(pattern, slot_count(pattern)).loc(),
                slot_count(pattern) as int,
                args,
            ),
        ),
{
    lemma_arg_lookup_rest_from(pattern, 0, args, name);
}

/// Whether the expansion has nothing to do in `expr` where `available`
/// arguments are given: it holds no `let` form, the operator of every call
/// in it is an ordinary function or a primitive, and every reference in it
/// is to a name that `pattern` does not bind, with an argument given for
/// each slot, as looking such a name up reads them all.
pub open spec fn passes_through(
    table: PrimaryCodegenView,
    pattern: SExpView,
    available: nat,
    expr: BodyFormView,
) -> bool
    decreases expr,
{
    match expr {
        BodyFormView::Let(_, _, _) => false,
        BodyFormView::Call(l, op, call_args) => {
            &&& get_inline_callable_spec(table, l, *op) matches Ok(CallableView::CallOther(_))
            &&& forall|i: int|
                0 <= i < call_args.len() ==> passes_through(
                    table,
                    pattern,
                    available,
                    #[trigger] call_args[i],
                )
        },
        BodyFormView::Value(SExpView::Atom(_, name)) => !binds(pattern, name) && slot_count(
            pattern,
        ) <= available,
        _ => true,
    }
}

/// An expression in which the expansion has nothing to do comes back as it
/// is.
pub proof fn lemma_replace_inline_body_unchanged(
    table: PrimaryCodegenView,
    active: Seq<bool>,
    loc: Srcloc,
    pattern: SExpView,
    args: Seq<BodyFormView>,
    expr: BodyFormView,
)
    requires
        passes_through(table, pattern, args.len(), expr),
    ensures
        replace_inline_body_spec(table, active, loc, pattern, args, expr) == Ok::<
            BodyFormView,
            CompileErr,
        >(expr),
    decreases expr,
{
    match expr {
        BodyFormView::Call(l, op, call_args) => {
            lemma_replace_inline_args_unchanged(table, active, loc, pattern, args, call_args, call_args.len());
            assert(call_args.take(call_args.len() as int) =~= call_args);
        },
        BodyFormView::Value(SExpView::Atom(_, name)) => {
            lemma_slots_read_bound(pattern, name);
            lemma_arg_lookup_binds(pattern, 0, args, name);
        },
        _ => {},
    }
}

proof fn lemma_replace_inline_args_unchanged(
    table: PrimaryCodegenView,
    active: Seq<bool>,
    loc: Srcloc,
    pattern: SExpView,
    args: Seq<BodyFormView>,
    list: Seq<BodyFormView>,
    k: nat,
)
    requires
        k <= list.len(),
        forall|i: int|
            0 <= i < list.len() ==> passes_through(table, pattern, args.len(), #[trigger] list[i]),
    ensures
        replace_inline_args_spec(table, active, loc, pattern, args, list.take(k as int)) == Ok::<
            Seq<BodyFormView>,
            CompileErr,
        >(list.take(k as int)),
    decreases list, k,
{
    let prefix = list.take(k as int);
    if k > 0 {
        lemma_replace_inline_args_unchanged(table, active, loc, pattern, args, list, (k - 1) as nat);
        assert(prefix.drop_last() =~= list.take(k - 1));
        assert(prefix.last() == list[k - 1]);
        lemma_replace_inline_body_unchanged(table, active, loc, pattern, args, list[k - 1]);
        assert(list.take(k - 1).push(list[k - 1]) =~= prefix);
    } else {
        assert(prefix =~= Seq::empty());
    }
}

/// Expanding an inline function whose body holds no reference to a
/// parameter, no call of an inline function or of a macro, no call of an
/// unknown operator and no `let` form gives the body as it is, whatever
/// the arguments, as long as there is one for every slot where the body
/// holds a reference at all.
pub proof fn lemma_replace_in_inline_unchanged(
    table: PrimaryCodegenView,
    loc: Srcloc,
    inline: InlineFunctionView,
    args: Seq<BodyFormView>,
)
    requires
        passes_through(table, inline.args, args.len(), inline.body),
    ensures
        replace_in_inline_spec(table, loc, inline, args) == Ok::<BodyFormView, CompileErr>(
            inline.body,
        ),
{
    lemma_replace_inline_body_unchanged(
        table,
        starting_guard(table, inline.name),
        loc,
        inline.args,
        args,
        inline.body,
    );
}

/// Whether the walk over `expr` meets a `let` form: `expr` is one, or is a
/// call with such an argument.
pub open spec fn holds_let(expr: BodyFormView) -> bool
    decreases expr,
{
    match expr {
        BodyFormView::Let(_, _, _) => true,
        BodyFormView::Call(_, _, call_args) => exists|i: int|
            0 <= i < call_args.len() && holds_let(#[trigger] call_args[i]),
        _ => false,
    }
}

/// An argument that fails makes the list of arguments fail.
proof fn lemma_args_fail_with_one(
    table: PrimaryCodegenView,
    active: Seq<bool>,
    loc: Srcloc,
    pattern: SExpView,
    args: Seq<BodyFormView>,
    list: Seq<BodyFormView>,
    k: int,
)
    requires
        0 <= k < list.len(),
        replace_inline_body_spec(table, active, loc, pattern, args, list[k]) is Err,
    ensures
        replace_inline_args_spec(table, active, loc, pattern, args, list) is Err,
    decreases list.len(),
{
    if k < list.len() - 1 {
        lemma_args_fail_with_one(table, active, loc, pattern, args, list.drop_last(), k);
    }
}

/// An expression with a `let` form among what the walk meets is never
/// expanded: the expansion fails.
pub proof fn lemma_let_fails(
    table: PrimaryCodegenView,
    active: Seq<bool>,
    loc: Srcloc,
    pattern: SExpView,
    args: Seq<BodyFormView>,
    expr: BodyFormView,
)
    requires
        holds_let(expr),
    ensures
        replace_inline_body_spec(table, active, loc, pattern, args, expr) is Err,
    decreases expr,
{
    match expr {
        BodyFormView::Call(_, _, call_args) => {
            let i = choose|i: int| 0 <= i < call_args.len() && holds_let(#[trigger] call_args[i]);
            lemma_let_fails(table, active, loc, pattern, args, call_args[i]);
            lemma_args_fail_with_one(table, active, loc, pattern, args, call_args, i);
        },
        _ => {},
    }
}

/// A call of an inline function whose body holds a `let` form among what
/// the walk meets is never expanded: the `let` form is met in the
/// function's body, if nothing fails before.
pub proof fn lemma_inner_let_fails(
    table: PrimaryCodegenView,
    active: Seq<bool>,
    loc: Srcloc,
    pattern: SExpView,
    args: Seq<BodyFormView>,
    expr: BodyFormView,
)
    requires
        expr is Call,
        get_inline_callable_spec(table, expr->Call_0, *expr->Call_1) matches Ok(
            CallableView::CallInline(_, inner),
        ) && holds_let(inner.body),
    ensures
        replace_inline_body_spec(table, active, loc, pattern, args, expr) is Err,
{
    let inner = get_inline_callable_spec(table, expr->Call_0, *expr->Call_1)->Ok_0->CallInline_1;
    match replace_inline_args_spec(table, active, loc, pattern, args, expr->Call_2) {
        Ok(new_args) => {
            match enterable(table, active, inner.name) {
                Some(i) => {
                    lemma_let_fails(
                        table,
                        with_mark(active, i),
                        expr->Call_0,
                        inner.args,
                        new_args,
                        inner.body,
                    );
                },
                None => {},
            }
        },
        Err(_) => {},
    }
}

/// Whether `path` leads through the arguments of calls in `expr` to a `let`
/// form that the walk meets before anything else has failed: at each call
/// on the way, the arguments before the one that `path` takes are rewritten
/// without error.
pub open spec fn let_comes_first(
    table: PrimaryCodegenView,
    active: Seq<bool>,
    loc: Srcloc,
    pattern: SExpView,
    args: Seq<BodyFormView>,
    expr: BodyFormView,
    path: Seq<int>,
) -> bool
    decreases path.len(),
{
    if path.len() == 0 {
        expr is Let
    } else {
        match expr {
            BodyFormView::Call(_, _, call_args) => {
                &&& 0 <= path[0] < call_args.len()
                &&& forall|j: int|
                    0 <= j < path[0] ==> (#[trigger] replace_inline_body_spec(
                        table,
                        active,
                        loc,
                        pattern,
                        args,
                        call_args[j],
                    )) is Ok
                &&& let_comes_first(
                    table,
                    active,
                    loc,
                    pattern,
                    args,
                    call_args[path[0]],
                    path.drop_first(),
                )
            },
            _ => false,
        }
    }
}

/// The place of what `path` leads to in `expr`, through the arguments of
/// calls.
pub open spec fn place_at(expr: BodyFormView, path: Seq<int>) -> Srcloc
    decreases path.len(),
{
    if path.len() == 0 {
        expr.loc()
    } else {
        match expr {
            BodyFormView::Call(_, _, call_args) => place_at(call_args[path[0]], path.drop_first()),
            _ => expr.loc(),
        }
    }
}

/// Arguments that are rewritten without error give a list without error.
proof fn lemma_args_succeed(
    table: PrimaryCodegenView,
    active: Seq<bool>,
    loc: Srcloc,
    pattern: SExpView,
    args: Seq<BodyFormView>,
    list: Seq<BodyFormView>,
)
    requires
        forall|j: int|
            0 <= j < list.len() ==> (#[trigger] replace_inline_body_spec(
                table,
                active,
                loc,
                pattern,
                args,
                list[j],
            )) is Ok,
    ensures
        replace_inline_args_spec(table, active, loc, pattern, args, list) is Ok,
    decreases list.len(),
{
    if list.len() > 0 {
        assert forall|j: int| 0 <= j < list.drop_last().len() implies (
        #[trigger] replace_inline_body_spec(table, active, loc, pattern, args, list.drop_last()[j]))
            is Ok by {
            assert(list.drop_last()[j] == list[j]);
        }
        lemma_args_succeed(table, active, loc, pattern, args, list.drop_last());
        assert(replace_inline_body_spec(table, active, loc, pattern, args, list[list.len() - 1]) is Ok);
    }
}

/// The first argument that fails gives the list of arguments its error.
proof fn lemma_args_first_error(
    table: PrimaryCodegenView,
    active: Seq<bool>,
    loc: Srcloc,
    pattern: SExpView,
    args: Seq<BodyFormView>,
    list: Seq<BodyFormView>,
    k: int,
)
    requires
        0 <= k < list.len(),
        forall|j: int|
            0 <= j < k ==> (#[trigger] replace_inline_body_spec(
                table,
                active,
                loc,
                pattern,
                args,
                list[j],
            )) is Ok,
        replace_inline_body_spec(table, active, loc, pattern, args, list[k]) is Err,
    ensures
        replace_inline_args_spec(table, active, loc, pattern, args, list) == Err::<
            Seq<BodyFormView>,
            CompileErr,
        >(replace_inline_body_spec(table, active, loc, pattern, args, list[k])->Err_0),
    decreases list.len(),
{
    if k == list.len() - 1 {
        assert forall|j: int| 0 <= j < list.drop_last().len() implies (
        #[trigger] replace_inline_body_spec(table, active, loc, pattern, args, list.drop_last()[j]))
            is Ok by {
            assert(list.drop_last()[j] == list[j]);
        }
        lemma_args_succeed(table, active, loc, pattern, args, list.drop_last());
    } else {
        assert forall|j: int| 0 <= j < k implies (#[trigger] replace_inline_body_spec(
            table,
            active,
            loc,
            pattern,
            args,
            list.drop_last()[j],
        )) is Ok by {
            assert(list.drop_last()[j] == list[j]);
        }
        assert(list.drop_last()[k] == list[k]);
        lemma_args_first_error(table, active, loc, pattern, args, list.drop_last(), k);
    }
}

/// A `let` form that the walk meets before anything else has failed makes
/// the expansion fail with the structural error, at the place of that
/// `let` form, whatever calls stand around it.
pub proof fn lemma_let_is_structural_error(
    table: PrimaryCodegenView,
    active: Seq<bool>,
    loc: Srcloc,
    pattern: SExpView,
    args: Seq<BodyFormView>,
    expr: BodyFormView,
    path: Seq<int>,
)
    requires
        let_comes_first(table, active, loc, pattern, args, expr, path),
    ensures
        replace_inline_body_spec(table, active, loc, pattern, args, expr) == Err::<
            BodyFormView,
            CompileErr,
        >(CompileErr(place_at(expr, path), ErrorKind::StructuralError)),
    decreases path.len(),
{
    if path.len() > 0 {
        match expr {
            BodyFormView::Call(_, _, call_args) => {
                lemma_let_is_structural_error(
                    table,
                    active,
                    loc,
                    pattern,
                    args,
                    call_args[path[0]],
                    path.drop_first(),
                );
                lemma_args_first_error(table, active, loc, pattern, args, call_args, path[0]);
            },
            _ => {},
        }
    }
}

/// An inline function with a `let` form in its body, among what the walk
/// meets, cannot be expanded, whatever the arguments.
pub proof fn lemma_replace_in_inline_let_fails(
    table: PrimaryCodegenView,
    loc: Srcloc,
    inline: InlineFunctionView,
    args: Seq<BodyFormView>,
)
    requires
        holds_let(inline.body),
    ensures
        replace_in_inline_spec(table, loc, inline, args) is Err,
{
    lemma_let_fails(
        table,
        starting_guard(table, inline.name),
        loc,
        inline.args,
        args,
        inline.body,
    );
}

/// Expanding an inline function fails with the structural error, at the
/// place of the `let` form, where the walk over its body meets a `let` form
/// before anything else has failed, whatever the arguments are and wherever
/// the call stands.
pub proof fn lemma_replace_in_inline_let_is_structural_error(
    table: PrimaryCodegenView,
    loc: Srcloc,
    inline: InlineFunctionView,
    args: Seq<BodyFormView>,
    path: Seq<int>,
)
    requires
        let_comes_first(
            table,
            starting_guard(table, inline.name),
            loc,
            inline.args,
            args,
            inline.body,
            path,
        ),
    ensures
        replace_in_inline_spec(table, loc, inline, args) == Err::<BodyFormView, CompileErr>(
            CompileErr(place_at(inline.body, path), ErrorKind::StructuralError),
        ),
{
    lemma_let_is_structural_error(
        table,
        starting_guard(table, inline.name),
        loc,
        inline.args,
        args,
        inline.body,
        path,
    );
}

/// Where the arguments of a call are rewritten without error, there are as
/// many after as before, and each is the rewriting of the one in its place.
pub proof fn lemma_replace_inline_args_each(
    table: PrimaryCodegenView,
    active: Seq<bool>,
    loc: Srcloc,
    pattern: SExpView,
    args: Seq<BodyFormView>,
    list: Seq<BodyFormView>,
)
    requires
        replace_inline_args_spec(table, active, loc, pattern, args, list) is Ok,
    ensures
        replace_inline_args_spec(table, active, loc, pattern, args, list)->Ok_0.len() == list.len(),
        forall|i: int|
            0 <= i < list.len() ==> (#[trigger] replace_inline_body_spec(
                table,
                active,
                loc,
                pattern,
                args,
                list[i],
            )) == Ok::<BodyFormView, CompileErr>(
                replace_inline_args_spec(table, active, loc, pattern, args, list)->Ok_0[i],
            ),
    decreases list.len(),
{
    if list.len() > 0 {
        lemma_replace_inline_args_each(table, active, loc, pattern, args, list.drop_last());
        let done = replace_inline_args_spec(table, active, loc, pattern, args, list)->Ok_0;
        assert forall|i: int| 0 <= i < list.len() implies (#[trigger] replace_inline_body_spec(
            table,
            active,
            loc,
            pattern,
            args,
            list[i],
        )) == Ok::<BodyFormView, CompileErr>(done[i]) by {
            if i < list.len() - 1 {
                assert(list.drop_last()[i] == list[i]);
            }
        }
    }
}

/// A call that is kept keeps its place and its operator: only its
/// arguments are rewritten, each in its place.
pub proof fn lemma_kept_call_keeps_operator(
    table: PrimaryCodegenView,
    active: Seq<bool>,
    loc: Srcloc,
    pattern: SExpView,
    args: Seq<BodyFormView>,
    expr: BodyFormView,
)
    requires
        expr is Call,
        get_inline_callable_spec(table, expr->Call_0, *expr->Call_1) matches Ok(
            CallableView::CallOther(_),
        ),
        replace_inline_body_spec(table, active, loc, pattern, args, expr) is Ok,
    ensures
        replace_inline_body_spec(table, active, loc, pattern, args, expr)->Ok_0 matches BodyFormView::Call(
            l,
            op,
            new_args,
        ) && l == expr->Call_0 && op == expr->Call_1 && new_args.len() == expr->Call_2.len()
            && forall|i: int|
            0 <= i < new_args.len() ==> (#[trigger] replace_inline_body_spec(
                table,
                active,
                loc,
                pattern,
                args,
                expr->Call_2[i],
            )) == Ok::<BodyFormView, CompileErr>(new_args[i]),
{
    lemma_replace_inline_args_each(table, active, loc, pattern, args, expr->Call_2);
}

/// Whether `name` is the name of an inline function that no macro hides.
pub open spec fn is_inline_name(table: PrimaryCodegenView, name: Seq<u8>) -> bool {
    first_position(table.macro_names(), name) is None && first_position(
        table.inline_names(),
        name,
    ) is Some
}

/// Whether no call of an inline function is left in `expr`: neither `expr`
/// nor an argument of a call in it, at any depth, is a call whose operator
/// names an inline function.
pub open spec fn inline_free(table: PrimaryCodegenView, expr: BodyFormView) -> bool
    decreases expr,
{
    match expr {
        BodyFormView::Call(l, op, call_args) => {
            &&& !(call_name(l, *op) matches Ok(name) && is_inline_name(table, name))
            &&& forall|i: int|
                0 <= i < call_args.len() ==> inline_free(table, #[trigger] call_args[i])
        },
        _ => true,
    }
}

/// Whether none of the operators that the expansion itself writes (head,
/// tail and pair) is the name of an inline function.
pub open spec fn own_operators_plain(table: PrimaryCodegenView) -> bool {
    &&& !is_inline_name(table, seq![HEAD_OPERATOR])
    &&& !is_inline_name(table, seq![TAIL_OPERATOR])
    &&& !is_inline_name(table, seq![CONS_OPERATOR])
}

proof fn lemma_wrap_inline_free(table: PrimaryCodegenView, wrap: Seq<Accessor>, expr: BodyFormView)
    requires
        own_operators_plain(table),
        inline_free(table, expr),
    ensures
        inline_free(table, wrap_spec(wrap, expr)),
    decreases wrap.len(),
{
    if wrap.len() > 0 {
        let inner = accessor_spec(wrap.last(), expr);
        assert(inline_free(table, inner)) by {
            assert(inner->Call_2 =~= seq![expr]);
        }
        lemma_wrap_inline_free(table, wrap.drop_last(), inner);
    }
}

proof fn lemma_pick_value_inline_free(
    table: PrimaryCodegenView,
    pattern: SExpView,
    provided: BodyFormView,
    wrap: Seq<Accessor>,
    name: Seq<u8>,
)
    requires
        own_operators_plain(table),
        inline_free(table, provided),
    ensures
        pick_value_spec(pattern, provided, wrap, name) matches Some(found) ==> inline_free(
            table,
            found,
        ),
    decreases pattern,
{
    match pattern {
        SExpView::Cons(l, a, b) => {
            lemma_pick_value_inline_free(table, *a, provided, wrap.push(Accessor::HeadOf(l)), name);
            lemma_pick_value_inline_free(table, *b, provided, wrap.push(Accessor::TailOf(l)), name);
        },
        SExpView::Atom(_, _) => {
            lemma_wrap_inline_free(table, wrap, provided);
        },
        _ => {},
    }
}

proof fn lemma_enlist_inline_free(
    table: PrimaryCodegenView,
    loc: Srcloc,
    start: int,
    args: Seq<BodyFormView>,
)
    requires
        own_operators_plain(table),
        forall|i: int| 0 <= i < args.len() ==> inline_free(table, #[trigger] args[i]),
    ensures
        inline_free(table, enlist_remaining_args_spec(loc, start, args)),
    decreases args.len() - start,
{
    if 0 <= start < args.len() {
        lemma_enlist_inline_free(table, loc, start + 1, args);
        let list = enlist_remaining_args_spec(loc, start, args);
        assert(list->Call_2 =~= seq![args[start], enlist_remaining_args_spec(loc, start + 1, args)]);
    }
}

proof fn lemma_arg_lookup_inline_free(
    table: PrimaryCodegenView,
    pattern: SExpView,
    index: int,
    args: Seq<BodyFormView>,
    name: Seq<u8>,
)
    requires
        own_operators_plain(table),
        0 <= index,
        index + slots_read(pattern, name) <= args.len(),
        forall|i: int| 0 <= i < args.len() ==> inline_free(table, #[trigger] args[i]),
    ensures
        arg_lookup_spec(pattern, index, args, name) matches Some(found) ==> inline_free(
            table,
            found,
        ),
    decreases pattern,
{
    match pattern {
        SExpView::Cons(_, f, r) => {
            lemma_pick_value_inline_free(table, *f, args[index], Seq::empty(), name);
            lemma_pick_value_binds(*f, args[index], Seq::empty(), name);
            if !binds(*f, name) {
                lemma_arg_lookup_inline_free(table, *r, index + 1, args, name);
            }
        },
        _ => {
            lemma_enlist_inline_free(table, pattern.loc(), index, args);
            lemma_pick_value_inline_free(
                table,
                pattern,
                enlist_remaining_args_spec(pattern.loc(), index, args),
                Seq::empty(),
                name,
            );
        },
    }
}

/// Where no call of an inline function stands in the arguments that are
/// put in, none is left in what the walk gives back.
pub proof fn lemma_replace_inline_body_inline_free(
    table: PrimaryCodegenView,
    active: Seq<bool>,
    loc: Srcloc,
    pattern: SExpView,
    args: Seq<BodyFormView>,
    expr: BodyFormView,
)
    requires
        own_operators_plain(table),
        forall|i: int| 0 <= i < args.len() ==> inline_free(table, #[trigger] args[i]),
    ensures
        replace_inline_body_spec(table, active, loc, pattern, args, expr) matches Ok(form)
            ==> inline_free(table, form),
    decreases idle_count(active, table.inlines.len()), expr, 0nat,
{
    match expr {
        BodyFormView::Call(l, op, call_args) => {
            match replace_inline_args_spec(table, active, loc, pattern, args, call_args) {
                Ok(new_args) => {
                    lemma_replace_inline_args_inline_free(table, active, loc, pattern, args, call_args);
                    match get_inline_callable_spec(table, l, *op) {
                        Ok(CallableView::CallInline(_, new_inline)) => {
                            match enterable(table, active, new_inline.name) {
                                Some(i) => {
                                    lemma_first_position(table.inline_names(), new_inline.name);
                                    lemma_idle_count_with_mark(active, i, table.inlines.len());
                                    lemma_replace_inline_body_inline_free(
                                        table,
                                        with_mark(active, i),
                                        l,
                                        new_inline.args,
                                        new_args,
                                        new_inline.body,
                                    );
                                },
                                None => {},
                            }
                        },
                        _ => {},
                    }
                },
                Err(_) => {},
            }
        },
        BodyFormView::Value(SExpView::Atom(_, name)) => {
            if slots_read(pattern, name) <= args.len() {
                lemma_arg_lookup_inline_free(table, pattern, 0, args, name);
            }
        },
        _ => {},
    }
}

proof fn lemma_replace_inline_args_inline_free(
    table: PrimaryCodegenView,
    active: Seq<bool>,
    loc: Srcloc,
    pattern: SExpView,
    args: Seq<BodyFormView>,
    list: Seq<BodyFormView>,
)
    requires
        own_operators_plain(table),
        forall|i: int| 0 <= i < args.len() ==> inline_free(table, #[trigger] args[i]),
    ensures
        replace_inline_args_spec(table, active, loc, pattern, args, list) matches Ok(done) ==> forall|
            i: int,
        | 0 <= i < done.len() ==> inline_free(table, #[trigger] done[i]),
    decreases idle_count(active, table.inlines.len()), list, 0nat,
{
    if list.len() > 0 {
        lemma_replace_inline_args_inline_free(table, active, loc, pattern, args, list.drop_last());
        lemma_replace_inline_body_inline_free(table, active, loc, pattern, args, list.last());
    }
}

/// Where no call of an inline function stands in the arguments of a call
/// of an inline function, none is left in its expansion: every call of an
/// inline function in the body, and in the bodies that it leads to, is
/// replaced.
pub proof fn lemma_replace_in_inline_inline_free(
    table: PrimaryCodegenView,
    loc: Srcloc,
    inline: InlineFunctionView,
    args: Seq<BodyFormView>,
)
    requires
        own_operators_plain(table),
        forall|i: int| 0 <= i < args.len() ==> inline_free(table, #[trigger] args[i]),
    ensures
        replace_in_inline_spec(table, loc, inline, args) matches Ok(form) ==> inline_free(
            table,
            form,
        ),
{
    lemma_replace_inline_body_inline_free(
        table,
        starting_guard(table, inline.name),
        loc,
        inline.args,
        args,
        inline.body,
    );
}

/// A call of an inline function that is being expanded already is never
/// entered again: where its arguments are rewritten without error, the call
/// fails as an endless expansion, at the place of the call.
pub proof fn lemma_reentry_is_refused(
    table: PrimaryCodegenView,
    active: Seq<bool>,
    loc: Srcloc,
    pattern: SExpView,
    args: Seq<BodyFormView>,
    expr: BodyFormView,
)
    requires
        expr is Call,
        get_inline_callable_spec(table, expr->Call_0, *expr->Call_1) matches Ok(
            CallableView::CallInline(_, inner),
        ) && first_position(table.inline_names(), inner.name) matches Some(i) && is_marked(
            active,
            i,
        ),
        replace_inline_args_spec(table, active, loc, pattern, args, expr->Call_2) is Ok,
    ensures
        replace_inline_body_spec(table, active, loc, pattern, args, expr) == Err::<
            BodyFormView,
            CompileErr,
        >(CompileErr(expr->Call_0, ErrorKind::InfiniteInlineRecursion)),
{
}

/// The part of `expr` that `path` leads to, through the arguments of calls.
pub open spec fn part_at(expr: BodyFormView, path: Seq<int>) -> BodyFormView
    decreases path.len(),
{
    if path.len() == 0 {
        expr
    } else {
        match expr {
            BodyFormView::Call(_, _, call_args) => part_at(call_args[path[0]], path.drop_first()),
            _ => expr,
        }
    }
}

/// Whether the walk over `expr` comes to the part that `path` leads to
/// before anything has failed: `path` goes through the arguments of calls,
/// and at each call on the way the arguments before the one that `path`
/// takes are rewritten without error.
pub open spec fn comes_first(
    table: PrimaryCodegenView,
    active: Seq<bool>,
    loc: Srcloc,
    pattern: SExpView,
    args: Seq<BodyFormView>,
    expr: BodyFormView,
    path: Seq<int>,
) -> bool
    decreases path.len(),
{
    if path.len() == 0 {
        true
    } else {
        match expr {
            BodyFormView::Call(_, _, call_args) => {
                &&& 0 <= path[0] < call_args.len()
                &&& forall|j: int|
                    0 <= j < path[0] ==> (#[trigger] replace_inline_body_spec(
                        table,
                        active,
                        loc,
                        pattern,
                        args,
                        call_args[j],
                    )) is Ok
                &&& comes_first(
                    table,
                    active,
                    loc,
                    pattern,
                    args,
                    call_args[path[0]],
                    path.drop_first(),
                )
            },
            _ => false,
        }
    }
}

/// The first failure that the walk comes to is what the walk gives back,
/// unchanged: the error of a part that fails, at any depth, before which
/// nothing has failed, is the error of the whole.
pub proof fn lemma_first_failure_is_returned(
    table: PrimaryCodegenView,
    active: Seq<bool>,
    loc: Srcloc,
    pattern: SExpView,
    args: Seq<BodyFormView>,
    expr: BodyFormView,
    path: Seq<int>,
)
    requires
        comes_first(table, active, loc, pattern, args, expr, path),
        replace_inline_body_spec(table, active, loc, pattern, args, part_at(expr, path)) is Err,
    ensures
        replace_inline_body_spec(table, active, loc, pattern, args, expr)
            == replace_inline_body_spec(table, active, loc, pattern, args, part_at(expr, path)),
    decreases path.len(),
{
    if path.len() > 0 {
        match expr {
            BodyFormView::Call(_, _, call_args) => {
                lemma_first_failure_is_returned(
                    table,
                    active,
                    loc,
                    pattern,
                    args,
                    call_args[path[0]],
                    path.drop_first(),
                );
                lemma_args_first_error(table, active, loc, pattern, args, call_args, path[0]);
            },
            _ => {},
        }
    }
}

/// A `let` form fails with the structural error at its own place, whatever
/// the arguments, the parameters and the definitions are, and wherever the
/// call stands.
pub proof fn lemma_let_node_is_structural_error(
    table: PrimaryCodegenView,
    active: Seq<bool>,
    loc: Srcloc,
    pattern: SExpView,
    args: Seq<BodyFormView>,
    expr: BodyFormView,
)
    requires
        expr is Let,
    ensures
        replace_inline_body_spec(table, active, loc, pattern, args, expr) == Err::<
            BodyFormView,
            CompileErr,
        >(CompileErr(expr.loc(), ErrorKind::StructuralError)),
{
}

/// A call whose arguments are rewritten without error and whose operator is
/// refused fails with the error of the operator's resolution, unchanged,
/// whatever the arguments of the inline function are.
pub proof fn lemma_unresolved_operator_fails(
    table: PrimaryCodegenView,
    active: Seq<bool>,
    loc: Srcloc,
    pattern: SExpView,
    args: Seq<BodyFormView>,
    expr: BodyFormView,
)
    requires
        expr is Call,
        replace_inline_args_spec(table, active, loc, pattern, args, expr->Call_2) is Ok,
        get_inline_callable_spec(table, expr->Call_0, *expr->Call_1) is Err,
    ensures
        replace_inline_body_spec(table, active, loc, pattern, args, expr) == Err::<
            BodyFormView,
            CompileErr,
        >(get_inline_callable_spec(table, expr->Call_0, *expr->Call_1)->Err_0),
{
}

/// A reference fails for want of arguments exactly where looking it up
/// reads more arguments than there are, and then the call at `loc` is the
/// one that has too few. A reference to a name that an early slot binds is
/// looked up even where later slots have no argument.
pub proof fn lemma_reference_needs_its_arguments(
    table: PrimaryCodegenView,
    active: Seq<bool>,
    loc: Srcloc,
    pattern: SExpView,
    args: Seq<BodyFormView>,
    expr: BodyFormView,
)
    requires
        expr matches BodyFormView::Value(SExpView::Atom(_, _)),
    ensures
        args.len() < slots_read(pattern, expr->Value_0->Atom_1) ==> replace_inline_body_spec(
            table,
            active,
            loc,
            pattern,
            args,
            expr,
        ) == Err::<BodyFormView, CompileErr>(CompileErr(loc, ErrorKind::ArityViolation)),
        args.len() >= slots_read(pattern, expr->Value_0->Atom_1) ==> replace_inline_body_spec(
            table,
            active,
            loc,
            pattern,
            args,
            expr,
        ) is Ok,
        slots_read(pattern, expr->Value_0->Atom_1) <= slot_count(pattern),
{
    lemma_slots_read_bound(pattern, expr->Value_0->Atom_1);
}

/// An inline function that a call's operator resolves to has an index, and
/// it may be entered exactly when that index is not marked as being
/// expanded: nothing but a mark refuses it.
pub proof fn lemma_only_a_mark_refuses(
    table: PrimaryCodegenView,
    active: Seq<bool>,
    loc: Srcloc,
    list_head: BodyFormView,
)
    requires
        get_inline_callable_spec(table, loc, list_head) matches Ok(CallableView::CallInline(_, _)),
    ensures
        get_inline_callable_spec(table, loc, list_head) matches Ok(
            CallableView::CallInline(_, inner),
        ) && first_position(table.inline_names(), inner.name) matches Some(i) && 0 <= i
            < table.inlines.len() && table.inlines[i] == inner && (enterable(
            table,
            active,
            inner.name,
        ) is None <==> is_marked(active, i)),
{
    let name = call_name(loc, list_head)->Ok_0;
    lemma_first_position(table.inline_names(), name);
}

} // verus!
