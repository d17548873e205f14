use inline_expansion::comptypes::BodyForm;
use inline_expansion::inline::at_form;
use inline_expansion::inline::apply_fn;
use inline_expansion::inline::synthesize_args;
use inline_expansion::number::bi_one;
use inline_expansion::number::Number;
use inline_expansion::sexp::SExp;
use inline_expansion::srcloc::Srcloc;
use num_bigint::BigInt;
use std::rc::Rc;

fn loc(col: usize) -> Srcloc {
    Srcloc::new(0, 1, col)
}

fn name(col: usize, text: &str) -> Rc<SExp> {
    Rc::new(SExp::Atom(loc(col), text.as_bytes().to_vec()))
}

fn pair(col: usize, head: Rc<SExp>, tail: Rc<SExp>) -> Rc<SExp> {
    Rc::new(SExp::Cons(loc(col), head, tail))
}

fn nil(col: usize) -> Rc<SExp> {
    Rc::new(SExp::Nil(loc(col)))
}

fn read_at(col: usize, bytes: Vec<u8>) -> Rc<BodyForm> {
    Rc::new(BodyForm::Call(
        loc(col),
        Rc::new(BodyForm::Value(SExp::Atom(loc(col), b"@".to_vec()))),
        vec![Rc::new(BodyForm::Value(SExp::Integer(
            loc(col),
            Number { bytes },
        )))],
    ))
}

fn spine(slots: usize) -> Rc<SExp> {
    let mut pattern = nil(slots);
    for i in (0..slots).rev() {
        pattern = pair(i, name(i, "p"), pattern);
    }
    pattern
}

#[test]
fn three_slots_get_paths_5_11_23() {
    let pattern = pair(
        1,
        name(1, "a"),
        pair(3, name(3, "b"), pair(5, name(5, "c"), nil(7))),
    );
    let paths = synthesize_args(pattern);
    assert_eq!(
        paths,
        vec![read_at(1, vec![5]), read_at(3, vec![11]), read_at(5, vec![23])]
    );
}

#[test]
fn pattern_without_slots_gets_no_path() {
    assert_eq!(synthesize_args(nil(1)), Vec::<Rc<BodyForm>>::new());
    assert_eq!(synthesize_args(name(1, "rest")), Vec::<Rc<BodyForm>>::new());
}

#[test]
fn one_slot_gets_path_5() {
    let paths = synthesize_args(pair(4, name(4, "a"), nil(5)));
    assert_eq!(paths, vec![read_at(4, vec![5])]);
}

#[test]
fn rest_parameter_is_no_slot() {
    let pattern = pair(1, name(1, "a"), name(2, "rest"));
    assert_eq!(synthesize_args(pattern), vec![read_at(1, vec![5])]);
}

#[test]
fn nested_slot_gets_one_path() {
    let inner = pair(2, name(2, "x"), pair(3, name(3, "y"), nil(4)));
    let pattern = pair(1, inner, pair(5, name(5, "z"), nil(6)));
    let paths = synthesize_args(pattern);
    assert_eq!(paths, vec![read_at(1, vec![5]), read_at(5, vec![11])]);
}

#[test]
fn sixth_slot_needs_a_leading_zero_byte() {
    let paths = synthesize_args(spine(6));
    assert_eq!(paths.len(), 6);
    assert_eq!(paths[3], read_at(3, vec![47]));
    assert_eq!(paths[4], read_at(4, vec![95]));
    assert_eq!(paths[5], read_at(5, vec![0, 191]));
}

#[test]
fn paths_follow_the_recurrence_past_64_bits() {
    let paths = synthesize_args(spine(80));
    assert_eq!(paths.len(), 80);
    let mut expected: BigInt = BigInt::from(5);
    for (i, path) in paths.iter().enumerate() {
        assert_eq!(*path, read_at(i, expected.to_signed_bytes_be()));
        expected = expected * BigInt::from(2) + BigInt::from(1);
    }
    let last: BigInt = (BigInt::from(6) << 79usize) - BigInt::from(1);
    assert_eq!(paths[79], read_at(79, last.to_signed_bytes_be()));
}

#[test]
fn paths_are_strictly_increasing() {
    let paths = synthesize_args(spine(70));
    let mut previous = BigInt::from(0);
    for path in paths.iter() {
        let value = match &**path {
            BodyForm::Call(_, _, arguments) => match &*arguments[0] {
                BodyForm::Value(SExp::Integer(_, n)) => BigInt::from_signed_bytes_be(&n.bytes),
                other => panic!("no number: {:?}", other),
            },
            other => panic!("no call: {:?}", other),
        };
        assert!(previous < value);
        previous = value;
    }
}

#[test]
fn at_form_reads_the_environment() {
    let form = at_form(loc(9), Number { bytes: vec![11] });
    assert_eq!(form, read_at(9, vec![11]));
}

#[test]
fn apply_fn_uses_the_given_operator() {
    let argument = Rc::new(BodyForm::Value(SExp::Atom(loc(2), b"x".to_vec())));
    let form = apply_fn(loc(1), b"f".to_vec(), argument.clone());
    let expected = Rc::new(BodyForm::Call(
        loc(1),
        Rc::new(BodyForm::Value(SExp::Atom(loc(1), b"f".to_vec()))),
        vec![argument],
    ));
    assert_eq!(form, expected);
}

#[test]
fn bi_one_is_one() {
    assert_eq!(bi_one(), Number { bytes: vec![1] });
}
