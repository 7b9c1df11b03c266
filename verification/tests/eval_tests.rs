use tlisp::environment::Environment;
use tlisp::eval::eval;
use tlisp::object::Object;
use tlisp::runtime::Runtime;

fn run(env: &mut Environment, program: &str) -> Result<Object, String> {
    let (result, _fuel) = eval(program, 0, env, u64::MAX);
    result
}

fn fresh() -> Environment {
    Environment::new(Runtime::new())
}

#[test]
fn test_simple_add() {
    let mut env = fresh();
    let result = run(&mut env, "(+ 1 2)").unwrap();
    assert_eq!(result, Object::Integer(3));
}

#[test]
fn test_lambda_add() {
    let mut env = fresh();
    let result = run(&mut env, "((lambda (x y) (+ x y)) 2 5)").unwrap();
    assert_eq!(result, Object::Integer(7));
}

#[test]
fn test_area_of_a_circle() {
    let mut env = fresh();
    let program = "(do
      (define r 10)
      (define pi 314)
      (* pi (* r r)))";
    let result = run(&mut env, program).unwrap();
    assert_eq!(result, Object::Integer((314 * 10 * 10) as i64));
}

#[test]
fn test_sqr_function() {
    let mut env = fresh();
    let program = "(do
      (define sqr (lambda (r) (* r r)))
      (sqr 10))";
    let result = run(&mut env, program).unwrap();
    assert_eq!(result, Object::Integer((10 * 10) as i64));
}

#[test]
fn test_fibonacci() {
    let mut env = fresh();
    let program = "(do
      (define fib
        (lambda (n)
          (cond (< n 2) 1
                #t (+ (fib (- n 1)) (fib (- n 2))))))
      (fib 10))";

    let result = run(&mut env, program).unwrap();
    assert_eq!(result, Object::Integer((89) as i64));
}

#[test]
fn test_factorial() {
    let mut env = fresh();
    let program = "(do
      (define fact
        (lambda (n)
          (cond (< n 1) 1
                #t (* n (fact (- n 1))))))
      (fact 5))";

    let result = run(&mut env, program).unwrap();
    assert_eq!(result, Object::Integer((120) as i64));
}

#[test]
fn test_circle_area_function() {
    let mut env = fresh();
    let program = "(do
      (define pi 3.14)
      (define r 10)
      (define sqr (lambda (r) (* r r)))
      (define area (lambda (r) (* pi (sqr r))))
      (area r))";

    let result = run(&mut env, program).unwrap();
    assert_eq!(result, Object::Float((3.14 * 10.0 * 10.0f64).to_bits()));
}

#[test]
fn test_closure() {
    let mut env = fresh();
    let program = "(do
      (define add-n
          (lambda (n)
            (lambda (a) (+ n a))))
      (define add-5 (add-n 5))
      (add-5 10))";

    let result = run(&mut env, program).unwrap();
    assert_eq!(result, Object::Integer(15));
}

#[test]
fn test_return_function() {
    let mut env = fresh();

    let program = "(defun const (n) (lambda (a) n))";
    run(&mut env, program).unwrap();

    let program = "(const 10)";
    let result = run(&mut env, program).unwrap();

    // The closure captures the frame of the `(const 10)` call, where its
    // parameter is bound to 10.
    match result {
        Object::Lambda(params, body, captured) => {
            assert_eq!(params, vec!["a".to_string()]);
            assert_eq!(*body, Object::Symbol("n".to_string()));
            assert_eq!(env.get(captured, "n"), Some(Object::Integer(10)));
        }
        other => panic!("expected a lambda, got {:?}", other),
    }
}

#[test]
fn test_cond() {
    let mut env = fresh();
    let program = "(do
      (define x 40)
      (cond (= x 10) 1
            (= x 20) 2
            #t 3))";
    let result = run(&mut env, program).unwrap();
    assert_eq!(result, Object::Integer(3));
}

#[test]
fn test_tail_recursion() {
    let mut env = fresh();
    let program = "(do
      (define sum-n
          (lambda (n a)
            (cond (= n 0) a
                  #t (sum-n (- n 1) (+ n a)))))
      (sum-n 5000 2))";

    let result = run(&mut env, program).unwrap();
    assert_eq!(result, Object::Integer((12502502) as i64));
}

#[test]
fn test_let() {
    let mut env = fresh();
    let program = "
        (let ((x 2) (y 3))
            (let ((x 7)
                  (z (+ x y)))
                (* z x)))";

    let result = run(&mut env, program).unwrap();
    assert_eq!(result, Object::Integer(70));
}

#[test]
fn test_let_tail() {
    let mut env = fresh();
    let program = "(do
      (define fact
        (lambda (n)
          (let ((fact-iter
                (lambda (n a)
                  (cond
                      (= n 0) a
                      #t (fact-iter (- n 1) (* n a))))))
            (fact-iter n 1))))
          (fact 5))";

    let result = run(&mut env, program).unwrap();
    assert_eq!(result, Object::Integer(120));
}

#[test]
fn test_circle_area_no_lambda() {
    let mut env = fresh();
    let program = "(do
      (define pi 314)
      (define r 10)
      (defun sqr (r) (* r r))
      (defun area (r) (* pi (sqr r)))
      (area r))";

    let result = run(&mut env, program).unwrap();
    assert_eq!(result, Object::Integer((314 * 10 * 10) as i64));
}

#[test]
fn test_eval_to_eval_quoted() {
    let mut env = fresh();
    let program = "(eval '(+ 1 2 3))";

    let result = run(&mut env, program).unwrap();
    assert_eq!(result, Object::Integer(6));
}

#[test]
fn test_eval_quoted_function() {
    let mut env = fresh();
    let program = "(do
      (defun sqr (r) (* r r))
      (eval '(sqr 10)))";

    let result = run(&mut env, program).unwrap();
    assert_eq!(result, Object::Integer(100));
}

#[test]
fn test_multi_arguments_operators() {
    let mut env = fresh();
    let program = "(= 1 1 1 1 1 1 1 1 1 1 1 1 1 1)";

    let result = run(&mut env, program).unwrap();
    assert_eq!(result, Object::Bool(true));

    let program = "(= 1 1 1 1 1 1 1 1 1 1 1 1 1 2)";
    let result = run(&mut env, program).unwrap();
    assert_eq!(result, Object::Bool(false));

    let program = "(+ 10 11 12 13 14 15 16 17 18 19 20)";
    let result = run(&mut env, program).unwrap();
    assert_eq!(result, Object::Integer(165));
}

#[test]
fn test_evaluate_operator_expression() {
    let mut env = fresh();
    let program = "((cond #f = #t *) 3 4)";

    // The head is a literal list, so every element evaluates and the result
    // is the evaluated list as plain data, not a second dispatch.
    let result = run(&mut env, program).unwrap();
    assert_eq!(
        result,
        Object::List(vec![
            Object::Operator("*".to_string()),
            Object::Integer(3),
            Object::Integer(4),
        ])
    );
}

#[test]
fn test_or_operator() {
    let mut env = fresh();
    let program = "(or 1 2 3)";

    let result = run(&mut env, program).unwrap();
    assert_eq!(result, Object::Integer(1));

    let program = "(or #f 2 3)";

    let result = run(&mut env, program).unwrap();
    assert_eq!(result, Object::Integer(2));

    let program = "(or #f #nil 3)";

    let result = run(&mut env, program).unwrap();
    assert_eq!(result, Object::Integer(3));
}

#[test]
fn test_and_operator() {
    let mut env = fresh();
    let program = "(and 1 2 3)";

    let result = run(&mut env, program).unwrap();
    assert_eq!(result, Object::Integer(3));

    let program = "(and 1 2 #f)";

    let result = run(&mut env, program).unwrap();
    assert_eq!(result, Object::Bool(false));

    let program = "(and 1 #nil #f)";

    let result = run(&mut env, program).unwrap();
    assert_eq!(result, Object::Void);
}
