use tlisp::object::Object;
use tlisp::parser::parse;

#[test]
fn parser_test_add() {
    let list = parse("(+ 1 2)").unwrap();
    assert_eq!(
        list,
        Object::List(vec![
            Object::Operator("+".to_string()),
            Object::Integer(1),
            Object::Integer(2),
        ])
    );
}

#[test]
fn test_nested_add() {
    let list = parse("(+ 1 (+ 2 3))").unwrap();
    assert_eq!(
        list,
        Object::List(vec![
            Object::Operator("+".to_string()),
            Object::Integer(1),
            Object::List(vec![
                Object::Operator("+".to_string()),
                Object::Integer(2),
                Object::Integer(3),
            ]),
        ])
    );
}

#[test]
fn test_nested_operations() {
    let list = parse("(add 1 (/ 3 (* 10 2)) (+ 2 3))").unwrap();

    assert_eq!(
        list,
        Object::List(vec![
            Object::Symbol("add".to_string()),
            Object::Integer(1),
            Object::List(vec![
                Object::Operator("/".to_string()),
                Object::Integer(3),
                Object::List(vec![
                    Object::Operator("*".to_string()),
                    Object::Integer(10),
                    Object::Integer(2),
                ]),
            ]),
            Object::List(vec![
                Object::Operator("+".to_string()),
                Object::Integer(2),
                Object::Integer(3),
            ]),
        ])
    );
}

#[test]
fn parser_test_symbol() {
    let list = parse("#t").unwrap();
    assert_eq!(list, Object::Symbol("#t".to_string()))
}

#[test]
fn parser_test_quotation() {
    let list = parse("'(1 2 3)").unwrap();
    assert_eq!(
        list,
        Object::Quote(Box::new(Object::List(vec![
            Object::Integer(1),
            Object::Integer(2),
            Object::Integer(3),
        ])))
    )
}

#[test]
fn test_quotation_inside_list() {
    let list = parse("('a b)").unwrap();
    assert_eq!(
        list,
        Object::List(vec![
            Object::Quote(Box::new(Object::Symbol("a".to_string()))),
            Object::Symbol("b".to_string())
        ])
    )
}

#[test]
fn test_quotation_in_quoted_list() {
    let list = parse("'('('a b))").unwrap();

    assert_eq!(
        list,
        Object::Quote(Box::new(Object::List(vec![Object::Quote(Box::new(
            Object::List(vec![
                Object::Quote(Box::new(Object::Symbol("a".to_string()))),
                Object::Symbol("b".to_string())
            ])
        ))])))
    )
}

#[test]
fn test_multi_quotation() {
    let list = parse("''a").unwrap();

    assert_eq!(
        list,
        Object::Quote(Box::new(Object::Quote(Box::new(Object::Symbol(
            "a".to_string()
        )))))
    )
}

#[test]
fn parser_empty_input_is_void() {
    assert_eq!(parse("").unwrap(), Object::Void);
}

#[test]
fn parser_multiple_forms_become_list() {
    let list = parse("1 2").unwrap();
    assert_eq!(
        list,
        Object::List(vec![Object::Integer(1), Object::Integer(2)])
    );
}

#[test]
fn parser_unmatched_close_is_error() {
    assert!(parse(")").is_err());
}

#[test]
fn parser_unmatched_open_is_error() {
    assert!(parse("(1 2").is_err());
}

#[test]
fn parser_dangling_quote_is_error() {
    assert!(parse("'").is_err());
    assert!(parse("(1 ')").is_err());
}

#[test]
fn parser_display_round_trip() {
    let samples = ["(+ 1 2)", "'(1 2 3)", "''a", "(cond (= x 10) 1 #t 3)", "(a (b c) -42)"];
    for text in samples {
        let shown = parse(text).unwrap().to_text();
        let again = parse(shown.as_str()).unwrap().to_text();
        assert_eq!(shown, again);
    }
}

#[test]
fn parser_display_of_parse_is_canonical() {
    let v = parse("( +   1    2 )").unwrap();
    assert_eq!(v.to_text(), "(+ 1 2)");
}
