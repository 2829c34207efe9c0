use dmt::grammar::{IndexSelector, NameSelector, UnionSelector};
use dmt::matcher::{MatchError, MatcherChain};
use dmt::selector::Selector;
use dmt::value::Value;

fn nested_doc() -> Value {
    Value::Dict(vec![(
        "hoge".to_owned(),
        Value::Dict(vec![
            ("a".to_owned(), Value::Int(1)),
            ("b".to_owned(), Value::List(vec![Value::Int(2), Value::Int(3)])),
        ]),
    )])
}

#[test]
fn matcher_end_to_end() {
    let v = nested_doc();

    let (rest, chain) = MatcherChain::parse("hoge.b.[1]").unwrap();
    assert_eq!(rest, "");
    assert_eq!(chain.try_match(&v), Ok(Value::Int(3)));

    let (rest, chain) = MatcherChain::parse("hoge.c").unwrap();
    assert_eq!(rest, "");
    let err = chain.try_match(&v).unwrap_err();
    assert_eq!(err, MatchError::MissingKey("c".to_owned()));
    assert_eq!(err.message(), "map does not contain key 'c'");
}

#[test]
fn matcher_short_circuits_on_the_first_failure() {
    // The value under "a" is not a map, so the second step must fail with a
    // wrong-variant error, not a key-lookup error.
    let chain = MatcherChain::from_vec(vec![
        UnionSelector::Name(NameSelector("a".to_owned())),
        UnionSelector::Name(NameSelector("b".to_owned())),
    ]);
    let v = Value::Dict(vec![("a".to_owned(), Value::Int(5))]);

    let err = chain.try_match(&v).unwrap_err();
    assert_eq!(err, MatchError::NotMap);
    assert_eq!(err.message(), "value is not a map");
}

#[test]
fn matcher_index_out_of_range() {
    let v = Value::List(vec![Value::Int(1), Value::Int(2), Value::Int(3)]);

    let (rest, chain) = MatcherChain::parse("[10]").unwrap();
    assert_eq!(rest, "");
    let err = chain.try_match(&v).unwrap_err();
    assert_eq!(err, MatchError::IndexOutOfRange(10));
    assert_eq!(err.message(), "index out of range: 10");

    // The selector dialect filters the same mismatch out silently.
    let (_, sel) = Selector::parse("[10]").unwrap();
    assert!(sel.try_match(&v).into_vec().is_empty());
}

#[test]
fn matcher_not_a_list() {
    let (_, chain) = MatcherChain::parse("[0]").unwrap();
    let err = chain.try_match(&Value::Bool(true)).unwrap_err();
    assert_eq!(err, MatchError::NotList);
    assert_eq!(err.message(), "value is not a list");
}

#[test]
fn matcher_empty_expression_is_an_error() {
    assert!(MatcherChain::parse("").is_err());
    assert!(MatcherChain::parse(".a").is_err());
}

#[test]
fn matcher_agrees_with_selector_on_success() {
    let v = nested_doc();

    let (_, chain) = MatcherChain::parse("hoge.b.[0]").unwrap();
    let (_, sel) = Selector::parse("hoge.b.[0]").unwrap();

    let matched = chain.try_match(&v).unwrap();
    let selected = sel.try_match(&v).into_vec();
    assert_eq!(selected, vec![matched]);
}

#[test]
fn matcher_keeps_remainder() {
    let (rest, chain) = MatcherChain::parse("ab.cd rest").unwrap();
    assert_eq!(rest, " rest");
    assert_eq!(
        chain,
        MatcherChain::from_vec(vec![
            UnionSelector::Name(NameSelector("ab".to_owned())),
            UnionSelector::Name(NameSelector("cd".to_owned())),
        ])
    );
}

#[test]
fn matcher_whole_document_with_no_steps() {
    let chain = MatcherChain::from_vec(vec![]);
    let v = nested_doc();
    assert_eq!(chain.try_match(&v), Ok(nested_doc()));
}

#[test]
fn index_parses_its_own_decimal_text() {
    let res = IndexSelector::parse("[1234]");
    assert_eq!(res, Ok(("", IndexSelector(1234))));

    let max_text = format!("[{}]", usize::MAX);
    let res = IndexSelector::parse(&max_text);
    assert_eq!(res, Ok(("", IndexSelector(usize::MAX))));

    // One digit more than usize can hold is a parse error, not a wrap.
    let over_text = format!("[{}0]", usize::MAX);
    assert!(IndexSelector::parse(&over_text).is_err());
}

#[test]
fn name_rejects_digit_start() {
    assert!(NameSelector::parse("1abc").is_err());
    let res = NameSelector::parse("ab.cd");
    assert_eq!(res, Ok((".cd", NameSelector("ab".to_owned()))));
}

#[test]
fn union_step_parse_takes_either_kind() {
    let res = UnionSelector::parse("[3]x");
    assert_eq!(
        res,
        Ok(("x", UnionSelector::Index(IndexSelector(3))))
    );
    let res = UnionSelector::parse("abc[3]");
    assert_eq!(
        res,
        Ok(("[3]", UnionSelector::Name(NameSelector("abc".to_owned()))))
    );
    assert!(UnionSelector::parse("]").is_err());
    assert!(UnionSelector::parse("[]").is_err());
    assert!(UnionSelector::parse("[12").is_err());
}
