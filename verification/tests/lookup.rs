use inline_expansion::comptypes::BodyForm;
use inline_expansion::inline::apply_wrap;
use inline_expansion::inline::arg_lookup;
use inline_expansion::inline::enlist_remaining_args;
use inline_expansion::inline::binds_name;
use inline_expansion::inline::has_arguments_for;
use inline_expansion::inline::pick_value_from_arg_element;
use inline_expansion::inline::Accessor;
use inline_expansion::number::Number;
use inline_expansion::sexp::SExp;
use inline_expansion::srcloc::Srcloc;
use std::rc::Rc;

fn loc(col: usize) -> Srcloc {
    Srcloc::new(0, 1, col)
}

fn name(col: usize, text: &str) -> Rc<SExp> {
    Rc::new(SExp::Atom(loc(col), text.as_bytes().to_vec()))
}

fn pair(col: usize, head: Rc<SExp>, tail: Rc<SExp>) -> Rc<SExp> {
    Rc::new(SExp::Cons(loc(col), head, tail))
}

fn nil(col: usize) -> Rc<SExp> {
    Rc::new(SExp::Nil(loc(col)))
}

fn reference(col: usize, text: &str) -> Rc<BodyForm> {
    Rc::new(BodyForm::Value(SExp::Atom(loc(col), text.as_bytes().to_vec())))
}

fn call(col: usize, operator: &str, arguments: Vec<Rc<BodyForm>>) -> Rc<BodyForm> {
    Rc::new(BodyForm::Call(loc(col), reference(col, operator), arguments))
}

fn empty_list(col: usize) -> Rc<BodyForm> {
    Rc::new(BodyForm::Value(SExp::Nil(loc(col))))
}

fn key(text: &str) -> Vec<u8> {
    text.as_bytes().to_vec()
}

#[test]
fn lookup_finds_each_slot() {
    let pattern = pair(1, name(1, "a"), pair(2, name(2, "b"), nil(3)));
    let args = vec![reference(10, "x"), reference(11, "y")];
    assert_eq!(arg_lookup(&pattern, 0, &args, &key("a")), Some(reference(10, "x")));
    assert_eq!(arg_lookup(&pattern, 0, &args, &key("b")), Some(reference(11, "y")));
}

#[test]
fn lookup_of_absent_name_is_none() {
    let pattern = pair(1, name(1, "a"), nil(2));
    let args = vec![reference(10, "x")];
    assert_eq!(arg_lookup(&pattern, 0, &args, &key("b")), None);
}

#[test]
fn lookup_in_empty_pattern_is_none() {
    let args: Vec<Rc<BodyForm>> = Vec::new();
    assert_eq!(arg_lookup(&nil(1), 0, &args, &key("a")), None);
}

#[test]
fn rest_parameter_takes_the_remaining_arguments() {
    let pattern = pair(1, name(1, "a"), name(2, "rest"));
    let args = vec![reference(10, "x"), reference(11, "y"), reference(12, "z")];
    let expected = call(
        2,
        "c",
        vec![
            reference(11, "y"),
            call(2, "c", vec![reference(12, "z"), empty_list(2)]),
        ],
    );
    assert_eq!(arg_lookup(&pattern, 0, &args, &key("rest")), Some(expected));
    assert_eq!(arg_lookup(&pattern, 0, &args, &key("a")), Some(reference(10, "x")));
}

#[test]
fn rest_parameter_without_arguments_is_the_empty_list() {
    let pattern = pair(1, name(1, "a"), name(2, "rest"));
    let args = vec![reference(10, "x")];
    assert_eq!(arg_lookup(&pattern, 0, &args, &key("rest")), Some(empty_list(2)));
}

#[test]
fn pattern_of_one_name_takes_all_arguments() {
    let pattern = name(1, "all");
    let args = vec![reference(10, "x"), reference(11, "y")];
    let expected = call(
        1,
        "c",
        vec![
            reference(10, "x"),
            call(1, "c", vec![reference(11, "y"), empty_list(1)]),
        ],
    );
    assert_eq!(arg_lookup(&pattern, 0, &args, &key("all")), Some(expected));
}

#[test]
fn duplicate_name_resolves_to_the_head_side() {
    let pattern = pair(1, name(1, "x"), name(2, "x"));
    let args = vec![reference(10, "p"), reference(11, "q")];
    assert_eq!(arg_lookup(&pattern, 0, &args, &key("x")), Some(reference(10, "p")));

    let provided = reference(20, "v");
    let identity: Vec<Accessor> = Vec::new();
    let picked = pick_value_from_arg_element(&pattern, &provided, &identity, &key("x"));
    assert_eq!(picked, Some(call(1, "f", vec![reference(20, "v")])));
}

#[test]
fn match_of_a_name_gives_what_was_provided() {
    let provided = reference(20, "v");
    let identity: Vec<Accessor> = Vec::new();
    assert_eq!(
        pick_value_from_arg_element(&name(1, "n"), &provided, &identity, &key("n")),
        Some(reference(20, "v"))
    );
    assert_eq!(
        pick_value_from_arg_element(&name(1, "n"), &provided, &identity, &key("m")),
        None
    );
}

#[test]
fn match_of_a_pair_takes_head_or_tail() {
    let pattern = pair(1, name(2, "h"), name(3, "t"));
    let provided = reference(20, "v");
    let identity: Vec<Accessor> = Vec::new();
    assert_eq!(
        pick_value_from_arg_element(&pattern, &provided, &identity, &key("h")),
        Some(call(1, "f", vec![reference(20, "v")]))
    );
    assert_eq!(
        pick_value_from_arg_element(&pattern, &provided, &identity, &key("t")),
        Some(call(1, "r", vec![reference(20, "v")]))
    );
    assert_eq!(
        pick_value_from_arg_element(&pattern, &provided, &identity, &key("z")),
        None
    );
}

#[test]
fn literals_in_a_pattern_never_match() {
    let provided = reference(20, "v");
    let identity: Vec<Accessor> = Vec::new();
    let number = Rc::new(SExp::Integer(loc(1), Number { bytes: vec![110] }));
    let quoted = Rc::new(SExp::QuotedString(loc(1), b'"', b"n".to_vec()));
    assert_eq!(
        pick_value_from_arg_element(&number, &provided, &identity, &key("n")),
        None
    );
    assert_eq!(
        pick_value_from_arg_element(&quoted, &provided, &identity, &key("n")),
        None
    );
    assert_eq!(
        pick_value_from_arg_element(&nil(1), &provided, &identity, &key("n")),
        None
    );
}

#[test]
fn nested_name_is_wrapped_by_its_steps() {
    // ((a b) c): `b` is in slot 0, a step to the tail at column 2 and then
    // a step to the head at column 4 away.
    let inner = pair(2, name(3, "a"), pair(4, name(5, "b"), nil(6)));
    let pattern = pair(1, inner, pair(7, name(8, "c"), nil(9)));
    let args = vec![reference(10, "x"), reference(11, "y")];
    assert_eq!(
        arg_lookup(&pattern, 0, &args, &key("a")),
        Some(call(2, "f", vec![reference(10, "x")]))
    );
    assert_eq!(
        arg_lookup(&pattern, 0, &args, &key("b")),
        Some(call(2, "r", vec![call(4, "f", vec![reference(10, "x")])]))
    );
    assert_eq!(arg_lookup(&pattern, 0, &args, &key("c")), Some(reference(11, "y")));
    assert_eq!(arg_lookup(&pattern, 0, &args, &key("d")), None);
}

#[test]
fn earlier_steps_stay_outermost() {
    let pattern = pair(1, name(2, "h"), name(3, "t"));
    let provided = reference(20, "v");
    let before = vec![Accessor::TailOf(loc(30))];
    assert_eq!(
        pick_value_from_arg_element(&pattern, &provided, &before, &key("h")),
        Some(call(30, "r", vec![call(1, "f", vec![reference(20, "v")])]))
    );
}

#[test]
fn apply_wrap_puts_the_first_step_outermost() {
    let wrap = vec![Accessor::HeadOf(loc(1)), Accessor::TailOf(loc(2))];
    let form = apply_wrap(&wrap, reference(20, "v"));
    assert_eq!(
        form,
        call(1, "f", vec![call(2, "r", vec![reference(20, "v")])])
    );
    let none: Vec<Accessor> = Vec::new();
    assert_eq!(apply_wrap(&none, reference(20, "v")), reference(20, "v"));
}

#[test]
fn lookup_starts_at_the_given_argument() {
    let pattern = pair(1, name(1, "a"), nil(2));
    let args = vec![reference(10, "x"), reference(11, "y")];
    assert_eq!(arg_lookup(&pattern, 1, &args, &key("a")), Some(reference(11, "y")));
}

#[test]
fn enlist_keeps_the_order() {
    let args = vec![reference(10, "x"), reference(11, "y"), reference(12, "z")];
    let expected = call(
        5,
        "c",
        vec![
            reference(11, "y"),
            call(5, "c", vec![reference(12, "z"), empty_list(5)]),
        ],
    );
    assert_eq!(enlist_remaining_args(loc(5), 1, &args), expected);
}

#[test]
fn enlist_from_the_end_is_the_empty_list() {
    let args = vec![reference(10, "x"), reference(11, "y")];
    assert_eq!(enlist_remaining_args(loc(5), 2, &args), empty_list(5));
    assert_eq!(enlist_remaining_args(loc(5), 7, &args), empty_list(5));
    let none: Vec<Rc<BodyForm>> = Vec::new();
    assert_eq!(enlist_remaining_args(loc(5), 0, &none), empty_list(5));
}

#[test]
fn enlist_from_the_start_holds_everything() {
    let args = vec![reference(10, "x")];
    assert_eq!(
        enlist_remaining_args(loc(5), 0, &args),
        call(5, "c", vec![reference(10, "x"), empty_list(5)])
    );
}

#[test]
fn lookup_reads_slots_up_to_the_first_that_binds() {
    // ((a b) c . rest)
    let inner = pair(2, name(3, "a"), pair(4, name(5, "b"), nil(6)));
    let pattern = pair(1, inner, pair(7, name(8, "c"), name(9, "rest")));
    assert!(!has_arguments_for(&pattern, 0, &key("a")));
    assert!(has_arguments_for(&pattern, 1, &key("a")));
    assert!(has_arguments_for(&pattern, 1, &key("b")));
    assert!(!has_arguments_for(&pattern, 1, &key("c")));
    assert!(has_arguments_for(&pattern, 2, &key("c")));
    assert!(!has_arguments_for(&pattern, 1, &key("rest")));
    assert!(has_arguments_for(&pattern, 2, &key("rest")));
    assert!(!has_arguments_for(&pattern, 1, &key("free")));
    assert!(has_arguments_for(&pattern, 2, &key("free")));
    assert!(has_arguments_for(&nil(1), 0, &key("a")));
    assert!(has_arguments_for(&name(1, "all"), 0, &key("all")));
}

#[test]
fn lookup_needs_no_argument_for_later_slots() {
    let pattern = pair(1, name(1, "a"), pair(2, name(2, "b"), nil(3)));
    let args = vec![reference(10, "x")];
    assert_eq!(arg_lookup(&pattern, 0, &args, &key("a")), Some(reference(10, "x")));
}

#[test]
fn names_are_bound_at_any_depth() {
    let inner = pair(2, name(3, "a"), pair(4, name(5, "b"), nil(6)));
    let pattern = pair(1, inner, pair(7, name(8, "c"), name(9, "rest")));
    assert!(binds_name(&pattern, &key("a")));
    assert!(binds_name(&pattern, &key("b")));
    assert!(binds_name(&pattern, &key("c")));
    assert!(binds_name(&pattern, &key("rest")));
    assert!(!binds_name(&pattern, &key("d")));
    assert!(!binds_name(&nil(1), &key("a")));
}
