use dmt::grammar::{IndexSelector, NameSelector, UnionSelector};
use dmt::selector::Selector;
use dmt::value::Value;

fn sample_map() -> Value {
    Value::Dict(vec![("hoge".to_owned(), Value::Int(10))])
}

#[test]
fn name_selector_try_match() {
    let m = NameSelector("hoge".to_owned());
    let v = sample_map();

    let res = m.try_match(&Value::Unit).into_vec();
    assert!(res.is_empty());

    let res = m.try_match(&v).into_vec();
    assert_eq!(res.len(), 1);
    assert_eq!(res[0], Value::Int(10));
}

#[test]
fn name_selector_parse() {
    let res = NameSelector::parse("hoge1234");
    assert_eq!(res, Ok(("", NameSelector("hoge1234".to_owned()))));

    let res = NameSelector::parse("1234hoge");
    assert!(res.is_err());
}

#[test]
fn index_selector_try_match() {
    let m1 = IndexSelector(1);
    let m10 = IndexSelector(10);
    let v = Value::List(vec![Value::Int(1), Value::Int(2), Value::Int(3)]);

    let res = m1.try_match(&Value::Unit).into_vec();
    assert!(res.is_empty());

    let res = m1.try_match(&v).into_vec();
    assert_eq!(res.len(), 1);
    assert_eq!(res[0], Value::Int(2));

    let res = m10.try_match(&v).into_vec();
    assert!(res.is_empty());
}

#[test]
fn index_selector_parse() {
    let res = IndexSelector::parse("[0]");
    assert_eq!(res, Ok(("", IndexSelector(0))));
}

#[test]
fn selector_try_match() {
    let m = Selector::from_vec(vec![
        UnionSelector::Name(NameSelector("hoge".to_owned())),
        UnionSelector::Index(IndexSelector(0)),
    ]);

    let v = Value::Dict(vec![("hoge".to_owned(), Value::List(vec![Value::Int(10)]))]);

    let res = m.try_match(&v).into_vec();
    assert_eq!(res.len(), 1);
    assert_eq!(res[0], Value::Int(10));
}

#[test]
fn selector_parse() {
    let (rest, res) = Selector::parse("hoge.[0]").unwrap();
    assert_eq!(rest, "");
    assert_eq!(
        res,
        Selector::from_vec(vec![
            UnionSelector::Name(NameSelector("hoge".to_owned())),
            UnionSelector::Index(IndexSelector(0)),
        ])
    );
}

#[test]
fn selector_filters_out_mismatches() {
    let (rest, sel) = Selector::parse("hoge.[0]").unwrap();
    assert_eq!(rest, "");

    let v = Value::Dict(vec![("hoge".to_owned(), Value::List(vec![Value::Int(10)]))]);
    let res = sel.try_match(&v).into_vec();
    assert_eq!(res, vec![Value::Int(10)]);

    let empty_map = Value::Dict(vec![]);
    let res = sel.try_match(&empty_map).into_vec();
    assert!(res.is_empty());
}

#[test]
fn selector_result_is_a_stream() {
    let (_, sel) = Selector::parse("hoge").unwrap();
    let v = sample_map();

    let mut stream = sel.try_match(&v);
    assert_eq!(stream.len(), 1);
    assert!(!stream.is_empty());
    assert_eq!(stream.next(), Some(Value::Int(10)));
    assert!(stream.is_empty());
    assert_eq!(stream.next(), None);
}

#[test]
fn selector_empty_expression_is_an_error() {
    assert!(Selector::parse("").is_err());
}

#[test]
fn selector_parse_keeps_remainder() {
    let (rest, sel) = Selector::parse("hoge.").unwrap();
    assert_eq!(rest, ".");
    assert_eq!(
        sel,
        Selector::from_vec(vec![UnionSelector::Name(NameSelector("hoge".to_owned()))])
    );

    let (rest, _) = Selector::parse("ab]cd").unwrap();
    assert_eq!(rest, "]cd");
}
