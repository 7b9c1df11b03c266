use tlisp::environment::Environment;
use tlisp::eval::eval;
use tlisp::object::Object;
use tlisp::runtime::Runtime;
use tlisp::tlisp_eval;

fn run_fresh(program: &str) -> Result<Object, String> {
    let mut env = Environment::new(Runtime::new());
    let (result, _fuel) = eval(program, 0, &mut env, u64::MAX);
    result
}

#[test]
fn arithmetic_promotion() {
    assert_eq!(
        run_fresh("(+ 1 2.0)").unwrap(),
        Object::Float((3.0f64).to_bits())
    );
    assert_eq!(run_fresh("(+ 1 2)").unwrap(), Object::Integer(3));
    assert_eq!(
        run_fresh("(* 2.0 3)").unwrap(),
        Object::Float((6.0f64).to_bits())
    );
    assert_eq!(
        run_fresh("(/ 1.0 2)").unwrap(),
        Object::Float((0.5f64).to_bits())
    );
    assert_eq!(
        run_fresh("(- 1 0.5)").unwrap(),
        Object::Float((0.5f64).to_bits())
    );
    assert_eq!(
        run_fresh("(% 7.5 2)").unwrap(),
        Object::Float((1.5f64).to_bits())
    );
    assert_eq!(run_fresh("3.14").unwrap(), Object::Float((3.14f64).to_bits()));
}

#[test]
fn string_concatenation() {
    assert_eq!(
        run_fresh("(+ \"a\" \"b\")").unwrap(),
        Object::String("ab".to_string())
    );
    assert!(run_fresh("(+ 1 \"a\")").is_err());
}

#[test]
fn chained_comparison() {
    assert_eq!(run_fresh("(< 1 2 3)").unwrap(), Object::Bool(true));
    assert_eq!(run_fresh("(< 1 3 2)").unwrap(), Object::Bool(false));
    assert_eq!(run_fresh("(> 3 2 1)").unwrap(), Object::Bool(true));
    assert_eq!(run_fresh("(< 1 2.5 3)").unwrap(), Object::Bool(true));
}

#[test]
fn integer_arithmetic_is_exact() {
    assert_eq!(run_fresh("(+ 1000000007 1000000009)").unwrap(), Object::Integer(2000000016));
    assert_eq!(run_fresh("(- 3 10)").unwrap(), Object::Integer(-7));
    assert_eq!(run_fresh("(- 5)").unwrap(), Object::Integer(-5));
    assert_eq!(run_fresh("(/ 7 2)").unwrap(), Object::Integer(3));
    assert_eq!(run_fresh("(% 7 2)").unwrap(), Object::Integer(1));
}

#[test]
fn integer_addition_wraps() {
    assert_eq!(
        run_fresh("(+ 9223372036854775807 1)").unwrap(),
        Object::Integer(i64::MIN)
    );
}

#[test]
fn division_by_zero_is_recoverable() {
    assert!(run_fresh("(/ 1 0)").is_err());
    assert!(run_fresh("(% 1 0)").is_err());
    // the arena is still usable after the error
    let mut env = Environment::new(Runtime::new());
    let (bad, _f) = eval("(/ 1 0)", 0, &mut env, u64::MAX);
    assert!(bad.is_err());
    let (good, _f) = eval("(+ 1 2)", 0, &mut env, u64::MAX);
    assert_eq!(good.unwrap(), Object::Integer(3));
}

#[test]
fn quoting_preserves_data() {
    assert_eq!(
        run_fresh("'(1 2 3)").unwrap(),
        Object::Quote(Box::new(Object::List(vec![
            Object::Integer(1),
            Object::Integer(2),
            Object::Integer(3),
        ])))
    );
    assert_eq!(
        run_fresh("''a").unwrap(),
        Object::Quote(Box::new(Object::Quote(Box::new(Object::Symbol(
            "a".to_string()
        )))))
    );
}

#[test]
fn native_list_primitives_accept_quoted_data() {
    assert_eq!(run_fresh("(car '(1 2 3))").unwrap(), Object::Integer(1));
    assert_eq!(
        run_fresh("(cdr '(1 2 3))").unwrap(),
        Object::List(vec![Object::Integer(2), Object::Integer(3)])
    );
    assert_eq!(
        run_fresh("(cons 1 '(2 3))").unwrap(),
        Object::List(vec![
            Object::Integer(1),
            Object::Integer(2),
            Object::Integer(3),
        ])
    );
    assert_eq!(run_fresh("(car '())").unwrap(), Object::Void);
    assert_eq!(run_fresh("(cdr 5)").unwrap(), Object::Void);
}

#[test]
fn loose_equality_coercions() {
    assert_eq!(run_fresh("(= 1 #t)").unwrap(), Object::Bool(true));
    assert_eq!(run_fresh("(= 1 1.5)").unwrap(), Object::Bool(true));
    assert_eq!(run_fresh("(= 1.0 1)").unwrap(), Object::Bool(true));
    assert_eq!(run_fresh("(= #nil #f)").unwrap(), Object::Bool(true));
    assert_eq!(run_fresh("(= \"a\" #t)").unwrap(), Object::Bool(true));
    assert_eq!(run_fresh("(= \"a\" \"a\")").unwrap(), Object::Bool(true));
    assert_eq!(run_fresh("(= \"a\" \"b\")").unwrap(), Object::Bool(false));
}

#[test]
fn strict_equality_needs_same_type() {
    assert_eq!(run_fresh("(== 1 1)").unwrap(), Object::Bool(true));
    assert_eq!(run_fresh("(== 1 1.0)").unwrap(), Object::Bool(false));
    assert_eq!(run_fresh("(== 1 #t)").unwrap(), Object::Bool(false));
    assert_eq!(run_fresh("(== #nil #nil)").unwrap(), Object::Bool(true));
}

#[test]
fn unbound_symbol_is_an_error() {
    assert!(run_fresh("missing").is_err());
    assert!(run_fresh("(missing 1 2)").is_err());
}

#[test]
fn format_native_fills_holes() {
    assert_eq!(
        run_fresh("(format \"{}-{}\" 1 2)").unwrap(),
        Object::String("1-2".to_string())
    );
    assert_eq!(
        run_fresh("(format \"x={}\" \"y\")").unwrap(),
        Object::String("x=y".to_string())
    );
}

#[test]
fn split_native() {
    assert_eq!(
        run_fresh("(split \"a,b\" \",\")").unwrap(),
        Object::List(vec![
            Object::String("a".to_string()),
            Object::String("b".to_string()),
        ])
    );
    assert_eq!(
        run_fresh("(split \"ab\")").unwrap(),
        Object::List(vec![
            Object::String("a".to_string()),
            Object::String("b".to_string()),
        ])
    );
    assert_eq!(
        run_fresh("(split \"a b  c\" \" \")").unwrap(),
        Object::List(vec![
            Object::String("a".to_string()),
            Object::String("b".to_string()),
            Object::String("c".to_string()),
        ])
    );
}

#[test]
fn join_native() {
    assert_eq!(
        run_fresh("(join '(1 2 3) \"-\")").unwrap(),
        Object::String("1-2-3".to_string())
    );
    assert_eq!(
        run_fresh("(join '(\"a\" \"b\"))").unwrap(),
        Object::String("ab".to_string())
    );
}

#[test]
fn split_then_join_round_trips() {
    assert_eq!(
        run_fresh("(join (split \"a,b,c\" \",\") \",\")").unwrap(),
        Object::String("a,b,c".to_string())
    );
}

#[test]
fn tlisp_eval_formats_results() {
    assert_eq!(tlisp_eval("(+ 1 2)"), Ok("3".to_string()));
    assert_eq!(tlisp_eval("'(1 2 3)"), Ok("'(1 2 3)".to_string()));
    assert_eq!(tlisp_eval("#t"), Ok("#t".to_string()));
    assert_eq!(tlisp_eval("#nil"), Ok("#nil".to_string()));
    assert_eq!(tlisp_eval("-42"), Ok("-42".to_string()));
    assert!(tlisp_eval("missing").is_err());
    assert!(tlisp_eval("(1 2").is_err());
    assert!(tlisp_eval("\"open").is_err());
}

#[test]
fn infinity_parses_as_float() {
    assert_eq!(
        run_fresh("inf").unwrap(),
        Object::Float(f64::INFINITY.to_bits())
    );
}

#[test]
fn empty_call_is_an_error() {
    assert!(run_fresh("(())").is_err());
}

#[test]
fn too_few_arguments_is_an_error() {
    assert!(run_fresh("(do (defun f (a b) (+ a b)) (f 1))").is_err());
}

#[test]
fn define_function_sugar() {
    assert_eq!(
        run_fresh("(do (define (twice x) (* 2 x)) (twice 21))").unwrap(),
        Object::Integer(42)
    );
}

#[test]
fn primitive_head_is_an_error() {
    assert!(run_fresh("(1 2 3)").is_err());
}

#[test]
fn comparison_stops_at_first_failing_pair() {
    // the failing pair 2 < 1 settles the answer before the string is compared
    assert_eq!(run_fresh("(< 2 1 \"x\")").unwrap(), Object::Bool(false));
    assert!(run_fresh("(< 1 2 \"x\")").is_err());
}

#[test]
fn symbols_survive_a_round_trip() {
    let shown = run_fresh("'hello-world").unwrap().to_text();
    assert_eq!(shown, "'hello-world");
    let again = run_fresh(&shown).unwrap().to_text();
    assert_eq!(shown, again);
}

#[test]
fn eval_native_requires_a_quote() {
    assert_eq!(run_fresh("(eval '(+ 1 2 3))").unwrap(), Object::Integer(6));
    assert!(run_fresh("(eval 5)").is_err());
    assert!(run_fresh("(eval (+ 1 2))").is_err());
}

#[test]
fn surplus_arguments_are_an_error() {
    assert!(run_fresh("(do (defun f (a b) (+ a b)) (f 1 2 3))").is_err());
    assert!(run_fresh("((lambda (x) x) 1 2)").is_err());
}

#[test]
fn evaluated_lambda_head_is_called_on_the_values() {
    assert_eq!(
        run_fresh("((car (cons (lambda (x) (* 2 x)) '())) 5)").unwrap(),
        Object::Integer(10)
    );
}

#[test]
fn evaluated_literal_head_yields_the_list_as_data() {
    assert_eq!(
        run_fresh("('a 'b)").unwrap(),
        Object::List(vec![
            Object::Quote(Box::new(Object::Symbol("a".to_string()))),
            Object::Quote(Box::new(Object::Symbol("b".to_string()))),
        ])
    );
}
