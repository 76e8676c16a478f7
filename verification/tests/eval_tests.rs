use paddle::cursor::{ProcessError, process, split_chunks};
use paddle::env::Env;
use paddle::errors::{BuiltinError, Context, Error, EvalError};
use paddle::eval::eval;
use paddle::lexer::lex;
use paddle::lower::lower;
use paddle::parser::{ParseError, parse_expr};
use paddle::render::render;
use paddle::value::{Form, NumLog, Number, Value};

/// Double-precision numbers for the interpreter.
#[derive(Clone, Copy, Debug, PartialEq)]
struct F(f64);

impl Number for F {
    fn parse_num(text: &str) -> Option<Self> {
        text.parse::<f64>().ok().map(F)
    }

    fn render(&self) -> String {
        format!("{}", self.0)
    }

    fn is_zero(&self) -> bool {
        self.0 == 0.0
    }

    fn zero() -> Self {
        F(0.0)
    }

    fn one() -> Self {
        F(1.0)
    }

    fn plus(&self, other: &Self) -> Self {
        F(self.0 + other.0)
    }

    fn minus(&self, other: &Self) -> Self {
        F(self.0 - other.0)
    }

    fn times(&self, other: &Self) -> Self {
        F(self.0 * other.0)
    }

    fn divided(&self, other: &Self) -> Self {
        F(self.0 / other.0)
    }

    fn div_euclid(&self, other: &Self) -> Self {
        F(self.0.div_euclid(other.0))
    }

    fn remainder(&self, other: &Self) -> Self {
        F(self.0 % other.0)
    }

    fn less(&self, other: &Self) -> bool {
        self.0 < other.0
    }

    fn same(&self, other: &Self) -> bool {
        self.0 == other.0
    }

    fn from_count(n: usize) -> Self {
        F(n as f64)
    }

    fn to_index(&self) -> usize {
        self.0 as usize
    }

    fn to_byte(&self) -> Option<u8> {
        if (0.0..256.0).contains(&self.0) {
            Some(self.0 as u8)
        } else {
            None
        }
    }
}

fn run_one(env: &mut Env<F>, s: &str) -> Result<Value<F>, Error> {
    let tokens = lex(s);
    let (e, _) = parse_expr(&tokens).unwrap();
    let v = lower(&e, &mut env.log);
    eval(&v, 0, env)
}

fn eval_str(s: &str) -> Value<F> {
    let mut env = Env::new();
    run_one(&mut env, s).unwrap()
}

fn eval_str_env(exprs: &[&str]) -> Value<F> {
    let mut env = Env::new();
    let mut last = None;
    for e in exprs {
        last = Some(run_one(&mut env, e));
    }
    last.unwrap().unwrap()
}

fn eval_err(s: &str) -> Error {
    let mut env = Env::new();
    run_one(&mut env, s).unwrap_err()
}

fn eval_env_err(exprs: &[&str]) -> Error {
    let mut env = Env::new();
    for s in exprs {
        if let Err(err) = run_one(&mut env, s) {
            return err;
        }
    }
    panic!("expected an error but all expressions succeeded");
}

fn num(n: f64) -> Value<F> {
    Value::Num(F(n))
}

fn eval_error(e: &Error) -> Option<&EvalError> {
    match e.root() {
        Error::Eval(x) => Some(x),
        _ => None,
    }
}

fn builtin_error(e: &Error) -> Option<&BuiltinError> {
    match e.root() {
        Error::Builtin(x) => Some(x),
        _ => None,
    }
}

#[test]
fn atoms_integer_literal() {
    assert_eq!(eval_str("42"), num(42.0));
}

#[test]
fn atoms_float_literal() {
    assert_eq!(eval_str("3.14"), num(3.14));
}

#[test]
fn atoms_negative_literal() {
    assert_eq!(eval_str("-7"), num(-7.0));
}

#[test]
fn set_bang_basic() {
    assert_eq!(eval_str_env(&["(def x 3)", "(set! x 5)", "x"]), num(5.0))
}

#[test]
fn set_bang_from_closure() {
    assert_eq!(
        eval_str_env(&["(def x 3)", "((.\\ () (set! x 5)))", "x"]),
        num(5.0)
    )
}

#[test]
fn set_bang_from_closure_updates_the_defining_frame_only() {
    let mut env = Env::<F>::new();
    run_one(&mut env, "(def x 3)").unwrap();
    assert_eq!(run_one(&mut env, "((.\\ () (set! x 5)))").unwrap(), Value::NoPrint);
    assert_eq!(env.resolve(0, &"x".to_string()), Some(num(5.0)));
    assert_eq!(env.frames[0].vars.len(), 1);
    assert!(env.frames[1..].iter().all(|f| f.vars.is_empty()));
}

#[test]
fn set_bang_from_func() {
    assert_eq!(
        eval_str_env(&["(def x 3)", "(def (t) (set! x (+ x 1)))", "(t)", "(t)", "x"]),
        num(5.0)
    )
}

#[test]
fn set_bang_undefined_variable() {
    let err = eval_env_err(&["(set! y 5)"]);
    assert!(err.message().contains("isn't in scope"));
}

#[test]
fn set_bang_too_few_args() {
    let err = eval_env_err(&["(set! x)"]);
    assert_eq!(
        eval_error(&err),
        Some(&EvalError::BadSetBangArgs)
    );
}

#[test]
fn set_bang_too_many_args() {
    let err = eval_env_err(&["(def x 3)", "(set! x 5 6)"]);
    assert_eq!(
        eval_error(&err),
        Some(&EvalError::BadSetBangArgs)
    );
}

#[test]
fn set_bang_non_symbol_head() {
    let err = eval_env_err(&["(set! 5 3)"]);
    assert!(err.message().contains("Bad set! head"));
}

#[test]
fn set_bang_builtin_not_in_scope() {
    let err = eval_env_err(&["(set! + 1)"]);
    assert!(err.message().contains("isn't in scope"));
}

#[test]
fn set_bang_through_nested_closures() {
    assert_eq!(
        eval_str_env(&["(def x 3)", "(((.\\ () (.\\ () (set! x 5)))))", "x"]),
        num(5.0)
    )
}

#[test]
fn string_length_of_string() {
    assert_eq!(eval_str(r#"(string-length "hello")"#), num(5.0));
}

#[test]
fn string_length_of_empty_string() {
    assert_eq!(eval_str(r#"(string-length "")"#), num(0.0));
}

#[test]
fn string_length_of_symbol() {
    assert_eq!(eval_str("(string-length 'hello)"), num(5.0));
}

#[test]
fn string_length_no_args_errors() {
    eval_err("(string-length)");
}

#[test]
fn string_length_too_many_args_errors() {
    eval_err(r#"(string-length "a" "b")"#);
}

#[test]
fn string_length_of_num_errors() {
    eval_err("(string-length 5)");
}

#[test]
fn string_ref_out_of_range_errors() {
    eval_err(r#"(string-ref "hello" 10)"#);
}

#[test]
fn string_ref_non_num_idx_errors() {
    eval_err(r#"(string-ref "hello" "0")"#);
}

#[test]
fn string_ref_too_few_args_errors() {
    eval_err(r#"(string-ref "hello")"#);
}

#[test]
fn substring_from_at_end_errors() {
    eval_err(r#"(substring "hello" 5)"#);
}

#[test]
fn substring_from_after_to_errors() {
    eval_err(r#"(substring "hello" 3 1)"#);
}

#[test]
fn string_append_of_num_errors() {
    eval_err(r#"(string-append "foo" 5)"#);
}

#[test]
fn string_list_too_many_args_errors() {
    eval_err(r#"(string->list "a" "b")"#);
}

#[test]
fn string_list_of_num_errors() {
    eval_err("(string->list 5)");
}

#[test]
fn string_num_integer() {
    assert_eq!(eval_str(r#"(string->num "42")"#), num(42.0));
}

#[test]
fn string_num_decimal() {
    assert_eq!(eval_str(r#"(string->num "3.14")"#), num(3.14));
}

#[test]
fn string_num_invalid_string_errors() {
    eval_err(r#"(string->num "abc")"#);
}

#[test]
fn string_num_too_many_args_errors() {
    eval_err(r#"(string->num "1" "2")"#);
}

#[test]
fn list_string_too_many_args_errors() {
    eval_err(r#"(list->string (list 1 2) "extra")"#);
}

#[test]
fn tests_integer_literal() {
    assert_eq!(eval_str("42"), num(42.0));
}

#[test]
fn tests_float_literal() {
    assert_eq!(eval_str("3.14"), num(3.14));
}

#[test]
fn tests_negative_literal() {
    assert_eq!(eval_str("-7"), num(-7.0));
}

#[test]
fn tests_add_two() {
    assert_eq!(eval_str("(+ 1 2)"), num(3.0));
}

#[test]
fn tests_add_three() {
    assert_eq!(eval_str("(+ 1 2 3)"), num(6.0));
}

#[test]
fn tests_add_no_args() {
    assert_eq!(eval_str("(+)"), num(0.0));
}

#[test]
fn tests_add_one_arg() {
    assert_eq!(eval_str("(+ 5)"), num(5.0));
}

#[test]
fn tests_sub_two() {
    assert_eq!(eval_str("(- 10 3)"), num(7.0));
}

#[test]
fn tests_sub_three() {
    assert_eq!(eval_str("(- 10 3 2)"), num(5.0));
}

#[test]
fn tests_sub_one_arg() {
    assert_eq!(eval_str("(- 5)"), num(5.0));
}

#[test]
fn tests_mul_two() {
    assert_eq!(eval_str("(* 3 4)"), num(12.0));
}

#[test]
fn tests_mul_no_args() {
    assert_eq!(eval_str("(*)"), num(1.0));
}

#[test]
fn tests_mul_one_arg() {
    assert_eq!(eval_str("(* 7)"), num(7.0));
}

#[test]
fn tests_div_two() {
    assert_eq!(eval_str("(/ 10 2)"), num(5.0));
}

#[test]
fn tests_div_three() {
    assert_eq!(eval_str("(/ 24 4 3)"), num(2.0));
}

#[test]
fn tests_nested_add() {
    assert_eq!(eval_str("(+ 1 (+ 2 3))"), num(6.0));
}

#[test]
fn tests_nested_mixed() {
    assert_eq!(eval_str("(* (+ 1 2) (- 5 2))"), num(9.0));
}

#[test]
fn tests_deeply_nested() {
    assert_eq!(eval_str("(+ 1 (* 2 (- 10 (/ 6 2))))"), num(15.0));
}

#[test]
fn tests_quote_number() {
    assert_eq!(eval_str("(quote 42)"), num(42.0));
    assert_eq!(eval_str("'42"), num(42.0));
}

#[test]
fn tests_define_and_resolve() {
    assert_eq!(eval_str_env(&vec!["(def x 5)", "(+ x 1)"]), num(6.0));
}

#[test]
fn tests_redefine() {
    assert_eq!(eval_str_env(&vec!["(def x 1)", "(def x 2)", "x"]), num(2.0));
}

#[test]
fn tests_define_expression_value() {
    assert_eq!(eval_str_env(&vec!["(def x (+ 1 2))", "x"]), num(3.0));
}

#[test]
fn tests_undefined_symbol() {
    let err = eval_err("x");
    assert_eq!(
        eval_error(&err),
        Some(&EvalError::SymbolUndefined("x".into()))
    );
}

#[test]
fn tests_define_func_and_call() {
    assert_eq!(
        eval_str_env(&["(def (double x) (* x 2))", "(double 3)"]),
        num(6.0)
    );
}

#[test]
fn tests_define_func_scope() {
    let err = eval_env_err(&["(def (double x) (* x 2))", "(double 3)", "x"]);
    assert_eq!(
        eval_error(&err),
        Some(&EvalError::SymbolUndefined("x".into()))
    );
}

#[test]
fn tests_define_func_shadow() {
    assert_eq!(
        eval_str_env(&["(def x 10)", "(def (double x) (* x 2))", "(double 3)", "x"]),
        num(10.0)
    );
}

#[test]
fn tests_define_func_two_args() {
    assert_eq!(
        eval_str_env(&["(def (add x y) (+ x y))", "(add 3 4)"]),
        num(7.0)
    );
}

#[test]
fn tests_define_func_no_args() {
    assert_eq!(
        eval_str_env(&["(def (forty-two) 42)", "(forty-two)"]),
        num(42.0)
    );
}

#[test]
fn tests_define_func_multi_body() {
    assert_eq!(
        eval_str_env(&["(def (f x) (+ x 1) (* x 2))", "(f 3)"]),
        num(6.0)
    );
}

#[test]
fn tests_define_func_nested_call() {
    assert_eq!(
        eval_str_env(&[
            "(def (double x) (* x 2))",
            "(def (quad x) (double (double x)))",
            "(quad 3)"
        ]),
        num(12.0)
    );
}

#[test]
fn tests_if_true_branch() {
    assert_eq!(eval_str("(if #t 1 2)"), num(1.0));
}

#[test]
fn tests_if_false_branch() {
    assert_eq!(eval_str("(if #f 1 2)"), num(2.0));
}

#[test]
fn tests_if_truthy_num() {
    assert_eq!(eval_str("(if 1 10 20)"), num(10.0));
}

#[test]
fn tests_if_falsy_zero() {
    assert_eq!(eval_str("(if 0 10 20)"), num(20.0));
}

#[test]
fn tests_if_falsy_nil() {
    assert_eq!(eval_str("(if nil 10 20)"), num(20.0));
}

#[test]
fn tests_if_condition_is_expression() {
    assert_eq!(eval_str("(if (< 1 2) 10 20)"), num(10.0));
}

#[test]
fn tests_if_only_evaluates_true_branch() {
    // if the false branch were evaluated it would panic (undefined symbol)
    eval_str_env(&["(def x 1)", "(if #t x undefined)"]);
}

#[test]
fn tests_if_only_evaluates_false_branch() {
    eval_str_env(&["(def x 1)", "(if #f undefined x)"]);
}

#[test]
fn tests_if_nested() {
    assert_eq!(eval_str("(if #t (if #f 1 2) 3)"), num(2.0));
}

#[test]
fn tests_if_no_else_true() {
    let err = eval_err("(if #t 42)");
    assert_eq!(eval_error(&err), Some(&EvalError::BadIfArgs));
}

#[test]
fn tests_if_no_else_false() {
    let err = eval_err("(if #f 42)");
    assert_eq!(eval_error(&err), Some(&EvalError::BadIfArgs));
}

#[test]
fn tests_cons_wrong_arity_one() {
    let err = eval_err("(cons 1)");
    assert_eq!(
        builtin_error(&err),
        Some(&BuiltinError::WrongConsArgCount(1))
    );
}

#[test]
fn tests_cons_wrong_arity_three() {
    let err = eval_err("(cons 1 2 3)");
    assert_eq!(
        builtin_error(&err),
        Some(&BuiltinError::WrongConsArgCount(3))
    );
}

#[test]
fn tests_car_of_cons() {
    assert_eq!(eval_str("(car (cons 1 2))"), num(1.0));
}

#[test]
fn tests_car_of_quoted_list() {
    assert_eq!(eval_str("(car '(10 20 30))"), num(10.0));
}

#[test]
fn tests_car_of_single_element_list() {
    assert_eq!(eval_str("(car '(42))"), num(42.0));
}

#[test]
fn tests_car_of_atom() {
    let err = eval_err("(car 1)");
    assert_eq!(
        builtin_error(&err),
        Some(&BuiltinError::WrongCarArgType)
    );
}

#[test]
fn tests_car_wrong_arity() {
    let err = eval_err("(car '(1) '(2))");
    assert_eq!(
        builtin_error(&err),
        Some(&BuiltinError::WrongCarArgCount(2))
    );
}

#[test]
fn tests_cdr_of_atom() {
    let err = eval_err("(cdr 1)");
    assert_eq!(
        builtin_error(&err),
        Some(&BuiltinError::WrongCdrArgType)
    );
}

#[test]
fn tests_cdr_wrong_arity() {
    let err = eval_err("(cdr '(1) '(2))");
    assert_eq!(
        builtin_error(&err),
        Some(&BuiltinError::WrongCdrArgCount(2))
    );
}

#[test]
fn call_immediately() {
    assert_eq!(eval_str("((lambda (x) (* x 2)) 5)"), num(10.0));
}

#[test]
fn no_args() {
    assert_eq!(eval_str("((lambda () 42))"), num(42.0));
}

#[test]
fn multi_arg() {
    assert_eq!(eval_str("((lambda (x y) (+ x y)) 3 4)"), num(7.0));
}

#[test]
fn assign_and_call() {
    assert_eq!(
        eval_str_env(&["(def double (lambda (x) (* x 2)))", "(double 6)"]),
        num(12.0)
    );
}

#[test]
fn multi_body_returns_last() {
    // body is (progn): intermediate exprs evaluated, last value returned
    assert_eq!(eval_str("((lambda (x) (+ x 1) (* x 2)) 3)"), num(6.0));
}

#[test]
fn captures_outer_var() {
    assert_eq!(
        eval_str_env(&["(def y 10)", "((lambda (x) (+ x y)) 5)"]),
        num(15.0)
    );
}

#[test]
fn args_do_not_leak() {
    // lambda arg `x` must not pollute the outer env
    assert_eq!(
        eval_str_env(&["(def x 99)", "((lambda (x) (* x 2)) 3)", "x"]),
        num(99.0)
    );
}

#[test]
fn closure_captures_creation_env() {
    // classic adder: lambda closes over `n` from make-adder's call env
    assert_eq!(
        eval_str_env(&[
            "(def (make-adder n) (lambda (x) (+ x n)))",
            "(def add5 (make-adder 5))",
            "(add5 3)"
        ]),
        num(8.0)
    );
}

#[test]
fn higher_order_apply() {
    // pass a lambda as an argument and call it
    assert_eq!(
        eval_str_env(&[
            "(def (apply-fn f x) (f x))",
            "(apply-fn (lambda (x) (* x x)) 4)"
        ]),
        num(16.0)
    );
}

#[test]
fn alternate_syntax_backslash() {
    assert_eq!(eval_str("((.\\  (x) (+ x 1)) 9)"), num(10.0));
}

#[test]
fn car_empty_list() {
    // (car nil) hits WrongCarArgType; need a real empty list
    let err = eval_err("(car '())");
    assert_eq!(
        builtin_error(&err),
        Some(&BuiltinError::CarOnEmptyList)
    );
}

#[test]
fn cdr_empty_list() {
    let err = eval_err("(cdr '())");
    assert_eq!(
        builtin_error(&err),
        Some(&BuiltinError::CdrOnEmptyList)
    );
}

#[test]
fn expected_num_arg() {
    let err = eval_err(r#"(+ "foo" 1)"#);
    assert_eq!(
        builtin_error(&err),
        Some(&BuiltinError::ExpectedNumArg)
    );
}

#[test]
fn minus_no_args() {
    let err = eval_err("(-)");
    assert_eq!(
        builtin_error(&err),
        Some(&BuiltinError::NoInitforMinus)
    );
}

#[test]
fn div_no_args() {
    let err = eval_err("(/)");
    assert_eq!(
        builtin_error(&err),
        Some(&BuiltinError::NoInitforDiv)
    );
}

#[test]
fn lt_single_number_is_true() {
    assert_eq!(eval_str("(< 1)"), Value::Bool(true));
}

#[test]
fn lt_no_args() {
    let err = eval_err("(<)");
    assert_eq!(builtin_error(&err), Some(&BuiltinError::BadLtArgTypes));
}

#[test]
fn lt_non_number_args() {
    let err = eval_err(r#"(< "a" "b")"#);
    assert_eq!(builtin_error(&err), Some(&BuiltinError::ExpectedNumArg));
    let err = eval_err(r#"(< 1 "b")"#);
    assert_eq!(builtin_error(&err), Some(&BuiltinError::ExpectedNumArg));
}

#[test]
fn tests_bad_define_args() {
    // (def x) — missing value
    let err = eval_err("(def x)");
    assert_eq!(
        eval_error(&err),
        Some(&EvalError::BadDefineArgs)
    );
}

#[test]
fn tests_bad_define_head() {
    // head must be a symbol or list, not a number
    let err = eval_err("(def 5 x)");
    assert_eq!(
        eval_error(&err),
        Some(&EvalError::BadDefineHead)
    );
}

#[test]
fn car_of_list() {
    assert_eq!(eval_str("(car (list 10 20 30))"), num(10.0));
}

#[test]
fn tests_car_of_cdr_gives_second_element() {
    assert_eq!(eval_str("(car (cdr '(1 2 3)))"), num(2.0));
}

#[test]
fn tests_nested_cons_car_cdr() {
    // (cons 20 30) => List([20, 30])
    // (cons 10 ...) => List([10, List([20, 30])])
    // cdr         => List([20, 30])
    // car         => 20
    assert_eq!(eval_str("(car (cdr (cons 10 (cons 20 30))))"), num(20.0));
}

#[test]
fn addition_add_two() {
    assert_eq!(eval_str("(+ 1 2)"), num(3.0));
}

#[test]
fn addition_add_three() {
    assert_eq!(eval_str("(+ 1 2 3)"), num(6.0));
}

#[test]
fn addition_add_no_args() {
    assert_eq!(eval_str("(+)"), num(0.0));
}

#[test]
fn addition_add_one_arg() {
    assert_eq!(eval_str("(+ 5)"), num(5.0));
}

#[test]
fn cadr_car_of_cdr_gives_second_element() {
    assert_eq!(eval_str("(car (cdr '(1 2 3)))"), num(2.0));
}

#[test]
fn cadr_nested_cons_car_cdr() {
    // (cons 20 30) => List([20, 30])
    // (cons 10 ...) => List([10, List([20, 30])])
    // cdr         => List([20, 30])
    // car         => 20
    assert_eq!(eval_str("(car (cdr (cons 10 (cons 20 30))))"), num(20.0));
}

#[test]
fn cdr_cdr_of_atom() {
    let err = eval_err("(cdr 1)");
    assert_eq!(
        builtin_error(&err),
        Some(&BuiltinError::WrongCdrArgType)
    );
}

#[test]
fn cdr_cdr_wrong_arity() {
    let err = eval_err("(cdr '(1) '(2))");
    assert_eq!(
        builtin_error(&err),
        Some(&BuiltinError::WrongCdrArgCount(2))
    );
}

#[test]
fn division_div_two() {
    assert_eq!(eval_str("(/ 10 2)"), num(5.0));
}

#[test]
fn division_div_three() {
    assert_eq!(eval_str("(/ 24 4 3)"), num(2.0));
}

#[test]
fn env_define_func_and_call() {
    assert_eq!(
        eval_str_env(&["(def (double x) (* x 2))", "(double 3)"]),
        num(6.0)
    );
}

#[test]
fn env_define_func_scope() {
    let err = eval_env_err(&["(def (double x) (* x 2))", "(double 3)", "x"]);
    assert_eq!(
        eval_error(&err),
        Some(&EvalError::SymbolUndefined("x".into()))
    );
}

#[test]
fn env_define_func_shadow() {
    assert_eq!(
        eval_str_env(&["(def x 10)", "(def (double x) (* x 2))", "(double 3)", "x"]),
        num(10.0)
    );
}

#[test]
fn env_define_func_two_args() {
    assert_eq!(
        eval_str_env(&["(def (add x y) (+ x y))", "(add 3 4)"]),
        num(7.0)
    );
}

#[test]
fn env_define_func_no_args() {
    assert_eq!(
        eval_str_env(&["(def (forty-two) 42)", "(forty-two)"]),
        num(42.0)
    );
}

#[test]
fn env_define_func_multi_body() {
    assert_eq!(
        eval_str_env(&["(def (f x) (+ x 1) (* x 2))", "(f 3)"]),
        num(6.0)
    );
}

#[test]
fn env_define_func_nested_call() {
    assert_eq!(
        eval_str_env(&[
            "(def (double x) (* x 2))",
            "(def (quad x) (double (double x)))",
            "(quad 3)"
        ]),
        num(12.0)
    );
}

#[test]
fn eval_errors_bad_define_args() {
    let err = eval_err("(def x)");
    assert_eq!(
        eval_error(&err),
        Some(&EvalError::BadDefineArgs)
    );
}

#[test]
fn eval_errors_bad_lambda_args() {
    let err = eval_err("(lambda (x))");
    assert_eq!(
        eval_error(&err),
        Some(&EvalError::BadCallableBodyArgs(Form::Lambda))
    );
}

#[test]
fn eval_errors_bad_lambda_args_list() {
    let err = eval_err("(lambda x x)");
    assert_eq!(
        eval_error(&err),
        Some(&EvalError::BadCallableArgs(Form::Lambda))
    );
}

#[test]
fn eval_errors_bad_lambda_args_list_type() {
    let err = eval_err("(lambda (1) x)");
    assert_eq!(
        eval_error(&err),
        Some(&EvalError::BadCallableArgsListType(Form::Lambda))
    );
}

#[test]
fn eval_errors_bad_define_head() {
    let err = eval_err("(def 5 x)");
    assert_eq!(
        eval_error(&err),
        Some(&EvalError::BadDefineHead)
    );
}

#[test]
fn eval_errors_bad_define_function_head() {
    let err = eval_err("(def () x)");
    assert_eq!(
        eval_error(&err),
        Some(&EvalError::BadDefineHead)
    );
}

#[test]
fn eval_errors_bad_define_function_head_types() {
    let err = eval_err("(def (1 x) x)");
    assert_eq!(
        eval_error(&err),
        Some(&EvalError::BadCallableArgsListType(Form::Define))
    );
}

#[test]
fn evalenv_define_and_resolve() {
    assert_eq!(eval_str_env(&vec!["(def x 5)", "(+ x 1)"]), num(6.0));
}

#[test]
fn evalenv_redefine() {
    assert_eq!(eval_str_env(&vec!["(def x 1)", "(def x 2)", "x"]), num(2.0));
}

#[test]
fn evalenv_define_expression_value() {
    assert_eq!(eval_str_env(&vec!["(def x (+ 1 2))", "x"]), num(3.0));
}

#[test]
fn evalenv_undefined_symbol() {
    let err = eval_err("x");
    assert_eq!(
        eval_error(&err),
        Some(&EvalError::SymbolUndefined("x".into()))
    );
}

#[test]
fn evalif_if_true_branch() {
    assert_eq!(eval_str("(if #t 1 2)"), num(1.0));
}

#[test]
fn evalif_if_false_branch() {
    assert_eq!(eval_str("(if #f 1 2)"), num(2.0));
}

#[test]
fn evalif_if_truthy_num() {
    assert_eq!(eval_str("(if 1 10 20)"), num(10.0));
}

#[test]
fn evalif_if_falsy_zero() {
    assert_eq!(eval_str("(if 0 10 20)"), num(20.0));
}

#[test]
fn evalif_if_falsy_nil() {
    assert_eq!(eval_str("(if nil 10 20)"), num(20.0));
}

#[test]
fn evalif_if_condition_is_expression() {
    assert_eq!(eval_str("(if (< 1 2) 10 20)"), num(10.0));
}

#[test]
fn evalif_if_only_evaluates_true_branch() {
    eval_str_env(&["(def x 1)", "(if #t x undefined)"]);
}

#[test]
fn evalif_if_only_evaluates_false_branch() {
    eval_str_env(&["(def x 1)", "(if #f undefined x)"]);
}

#[test]
fn evalif_if_nested() {
    assert_eq!(eval_str("(if #t (if #f 1 2) 3)"), num(2.0));
}

#[test]
fn evalif_if_no_else_true() {
    let err = eval_err("(if #t 42)");
    assert_eq!(eval_error(&err), Some(&EvalError::BadIfArgs));
}

#[test]
fn evalif_if_no_else_false() {
    let err = eval_err("(if #f 42)");
    assert_eq!(eval_error(&err), Some(&EvalError::BadIfArgs));
}

#[test]
fn defm_basic_expansion() {
    assert_eq!(
        eval_str_env(&vec!["(defm (double x) (list '+ x x))", "(double 5)",]),
        num(10.0)
    );
}

#[test]
fn defm_args_not_evaluated_before_expansion() {
    assert_eq!(
        eval_str_env(&vec![
            "(defm (ignore-arg x) (list 'quote 42))",
            "(ignore-arg undefined-var)",
        ]),
        num(42.0)
    );
}

#[test]
fn defm_when_true() {
    assert_eq!(
        eval_str_env(&vec![
            "(defm (when cond body) (list 'if cond body '()))",
            "(when #t 99)",
        ]),
        num(99.0)
    );
}

#[test]
fn defm_unless_false_runs_body() {
    assert_eq!(
        eval_str_env(&vec![
            "(defm (unless cond body) (list 'if (list 'not cond) body '()))",
            "(unless #f 7)",
        ]),
        num(7.0)
    );
}

#[test]
fn define_macro_keyword() {
    assert_eq!(
        eval_str_env(&vec!["(define-macro (inc x) (list '+ x 1))", "(inc 41)",]),
        num(42.0)
    );
}

#[test]
fn macro_used_inside_function() {
    assert_eq!(
        eval_str_env(&vec![
            "(defm (when cond body) (list 'if cond body '()))",
            "(def (safe-inc x) (when (< 0 x) (+ x 1)))",
            "(safe-inc 5)",
        ]),
        num(6.0)
    );
}

#[test]
fn multiplication_mul_two() {
    assert_eq!(eval_str("(* 3 4)"), num(12.0));
}

#[test]
fn multiplication_mul_no_args() {
    assert_eq!(eval_str("(*)"), num(1.0));
}

#[test]
fn multiplication_mul_one_arg() {
    assert_eq!(eval_str("(* 7)"), num(7.0));
}

#[test]
fn nesting_nested_add() {
    assert_eq!(eval_str("(+ 1 (+ 2 3))"), num(6.0));
}

#[test]
fn nesting_nested_mixed() {
    assert_eq!(eval_str("(* (+ 1 2) (- 5 2))"), num(9.0));
}

#[test]
fn nesting_deeply_nested() {
    assert_eq!(eval_str("(+ 1 (* 2 (- 10 (/ 6 2))))"), num(15.0));
}

#[test]
fn quote_quote_number() {
    assert_eq!(eval_str("(quote 42)"), num(42.0));
    assert_eq!(eval_str("'42"), num(42.0));
}

#[test]
fn subtraction_sub_two() {
    assert_eq!(eval_str("(- 10 3)"), num(7.0));
}

#[test]
fn subtraction_sub_three() {
    assert_eq!(eval_str("(- 10 3 2)"), num(5.0));
}

#[test]
fn subtraction_sub_one_arg() {
    assert_eq!(eval_str("(- 5)"), num(5.0));
}

#[test]
fn basic_sum() {
    assert_eq!(
        eval_str_env(&vec![
            "(def (sum xs) (if xs (+ (car xs) (sum (cdr xs))) 0))",
            "(def (t a...) (sum a...))",
            "(t 1 2 3 4)",
        ]),
        num(10.0)
    );
}

fn run_bare(program: &str) -> Value<F> {
    let mut env = Env::new();
    let mut results = process(program, &mut env).unwrap();
    results.pop().unwrap()
}

fn sym_val(s: &str) -> Value<F> {
    Value::Symbol(s.to_string())
}

fn list_of(items: Vec<Value<F>>) -> Value<F> {
    let mut rv = Value::Nil;
    for v in items.into_iter().rev() {
        rv = Value::Cons(Box::new(v), Box::new(rv));
    }
    rv
}

#[test]
fn arithmetic() {
    assert_eq!(run_bare("(+ (* 3 4) (- 10 4))"), num(18.0));
}

#[test]
fn closure() {
    assert_eq!(
        run_bare(
            "(def (make-adder n) (lambda (x) (+ x n)))
                 (def add10 (make-adder 10))
                 (add10 32)"
        ),
        num(42.0)
    );
}

#[test]
fn list_operations() {
    assert_eq!(run_bare("(car (cdr (list 10 20 30)))"), num(20.0));
}

#[test]
fn definitions_visible_to_later_expressions_in_same_call() {
    assert_eq!(run_bare("(def (double x) (* x 2)) (double 21)"), num(42.0));
}

#[test]
fn chained_function_definitions() {
    assert_eq!(
        run_bare(
            "(def (double x) (* x 2))
                 (def (quad x) (double (double x)))
                 (quad 5)"
        ),
        num(20.0)
    );
}

#[test]
fn recursive_factorial_inline() {
    assert_eq!(
        run_bare("(def (fact n) (if (< n 1) 1 (* n (fact (- n 1))))) (fact 7)"),
        num(5040.0)
    );
}

#[test]
fn higher_order_inline() {
    assert_eq!(
        run_bare(
            "(def (apply-twice f x) (f (f x)))
                 (apply-twice (lambda (x) (+ x 3)) 10)"
        ),
        num(16.0)
    );
}

#[test]
fn process_gives_each_top_level_value() {
    let mut env = Env::<F>::new();
    let vals = process("(def x 1) (+ x 1) x", &mut env).unwrap();
    assert_eq!(vals, vec![Value::NoPrint, num(2.0), num(1.0)]);
}

#[test]
fn process_blank_text_is_incomplete() {
    let mut env = Env::<F>::new();
    assert_eq!(process("  \n\t ", &mut env), Err(ProcessError::Incomplete(0, 5, 0)));
}

#[test]
fn chunks_of_source_text() {
    let (chunks, from) = split_chunks("(def x 1) (+ x\n 1) x");
    assert_eq!(chunks, vec!["(def x 1)".to_string(), " (+ x\n 1)".to_string(), " x".to_string()]);
    assert_eq!(from, 20);
}

#[test]
fn process_unfinished_text_is_incomplete() {
    let mut env = Env::<F>::new();
    match process("(+ 1 2) (+ 1", &mut env) {
        Err(ProcessError::Incomplete(from, len, count)) => {
            assert_eq!((from, len, count), (7, 12, 1));
        }
        _ => panic!("expected an incomplete text"),
    }
}

#[test]
fn process_reports_evaluation_errors() {
    let mut env = Env::<F>::new();
    match process("(+ 1 2) y", &mut env) {
        Err(ProcessError::Eval(Error::Eval(EvalError::SymbolUndefined(s)))) => assert_eq!(s, "y"),
        _ => panic!("expected an undefined symbol"),
    }
}

#[test]
fn process_reports_parse_errors() {
    let mut env = Env::<F>::new();
    match process(")", &mut env) {
        Err(ProcessError::Parse(ParseError::UnexpectedClose)) => {}
        _ => panic!("expected a parse error"),
    }
}

#[test]
fn quote_returns_list_unevaluated() {
    assert_eq!(
        eval_str("'(a 1)"),
        list_of(vec![sym_val("a"), num(1.0)])
    );
}

#[test]
fn empty_list_is_nil() {
    assert_eq!(eval_str("'()"), Value::Nil);
    assert_eq!(eval_str("()"), Value::Nil);
}

#[test]
fn self_evaluating_atoms() {
    assert_eq!(eval_str("#t"), Value::Bool(true));
    assert_eq!(eval_str("\"hi\""), Value::Str("hi".to_string()));
    assert_eq!(eval_str("nil"), Value::Nil);
}

#[test]
fn call_of_non_procedure_is_head_value() {
    assert_eq!(eval_str("(1 2 3)"), num(1.0));
}

#[test]
fn empty_string_is_false() {
    assert_eq!(eval_str("(if \"\" 1 2)"), num(2.0));
    assert_eq!(eval_str("(if \"a\" 1 2)"), num(1.0));
}

#[test]
fn progn_returns_last() {
    assert_eq!(eval_str("(progn 1 2 3)"), num(3.0));
    assert_eq!(eval_error(&eval_err("(progn)")), Some(&EvalError::EmptyPrognBody));
}

#[test]
fn eval_form_evaluates_data() {
    assert_eq!(eval_str("(eval '(+ 1 2))"), num(3.0));
}

#[test]
fn quasiquote_unquote() {
    assert_eq!(
        eval_str_env(&["(def x 2)", "(quasiquote (1 (unquote x) 3))"]),
        list_of(vec![num(1.0), num(2.0), num(3.0)])
    );
}

#[test]
fn quasiquote_unquote_splicing() {
    assert_eq!(
        eval_str_env(&["(def y '(2 3))", "(quasiquote (1 (unquotesplicing y) 4))"]),
        list_of(vec![num(1.0), num(2.0), num(3.0), num(4.0)])
    );
}

#[test]
fn unquote_outside_quasiquote_fails() {
    assert_eq!(eval_error(&eval_err("(unquote 1)")), Some(&EvalError::UnquoteOutsideQuasi));
}

#[test]
fn require_asks_for_the_file() {
    assert_eq!(
        eval_error(&eval_err("(require \"lib.pd\")")),
        Some(&EvalError::NeedsFile("lib.pd".to_string()))
    );
    assert_eq!(eval_error(&eval_err("(require)")), Some(&EvalError::BadRequireArgCount(0)));
    assert_eq!(eval_error(&eval_err("(require 1)")), Some(&EvalError::BadRequireArgs));
    assert_eq!(eval_error(&eval_err("(require a b)")), Some(&EvalError::BadRequireArgCount(2)));
}

#[test]
fn rest_parameter_must_be_last() {
    assert_eq!(
        eval_error(&eval_err("((lambda (a... b) a) 1 2)")),
        Some(&EvalError::VariadicArgsMustBeLast)
    );
}

#[test]
fn rest_parameter_collects_arguments() {
    assert_eq!(
        eval_str("((lambda (a b...) b...) 1 2 3)"),
        list_of(vec![num(2.0), num(3.0)])
    );
    assert_eq!(eval_str("((lambda (a b...) b...) 1)"), Value::Nil);
}

#[test]
fn too_few_arguments() {
    assert_eq!(
        eval_error(&eval_err("((lambda (x y) x) 1)")),
        Some(&EvalError::BadFunctionArgCount(2))
    );
}

#[test]
fn macro_rest_parameter_gets_unevaluated_tail() {
    assert_eq!(
        eval_str_env(&["(defm (first-form xs...) (list 'quote (car xs...)))", "(first-form (+ 1 2) z)"]),
        list_of(vec![sym_val("+"), num(1.0), num(2.0)])
    );
}

#[test]
fn budget_ends_endless_recursion() {
    let mut env = Env::<F>::new();
    env.fuel = 1000;
    run_one(&mut env, "(def (f) (f))").unwrap();
    assert_eq!(
        eval_error(&run_one(&mut env, "(f)").unwrap_err()),
        Some(&EvalError::OutOfFuel)
    );
}

#[test]
fn boolean_builtins() {
    assert_eq!(eval_str("(and 1 #t \"x\")"), Value::Bool(true));
    assert_eq!(eval_str("(and 1 0)"), Value::Bool(false));
    assert_eq!(eval_str("(or 0 nil)"), Value::Bool(false));
    assert_eq!(eval_str("(or 0 2)"), Value::Bool(true));
    assert_eq!(eval_str("(not 0)"), Value::Bool(true));
    assert_eq!(builtin_error(&eval_err("(not 1 2)")), Some(&BuiltinError::WrongNotArgCount(2)));
}

#[test]
fn eq_builtin() {
    assert_eq!(eval_str("(eq 1 1)"), Value::Bool(true));
    assert_eq!(eval_str("(= 1 2)"), Value::Bool(false));
    assert_eq!(eval_str("(eq \"a\" 'a)"), Value::Bool(true));
    assert_eq!(eval_str("(eq nil nil)"), Value::Bool(true));
    assert_eq!(eval_str("(eq 1 nil)"), Value::Bool(false));
    assert_eq!(eval_str("(eq (char 97) \"a\")"), Value::Bool(true));
    assert_eq!(builtin_error(&eval_err("(eq 1 2 3)")), Some(&BuiltinError::BadEqArgCount));
    assert_eq!(builtin_error(&eval_err("(eq 1)")), Some(&BuiltinError::NoArgList));
    assert_eq!(builtin_error(&eval_err("(mod 1)")), Some(&BuiltinError::NoArgList));
    assert_eq!(builtin_error(&eval_err("(eq)")), Some(&BuiltinError::NoArgList));
}

#[test]
fn arithmetic_builtins() {
    assert_eq!(eval_str("(mod 7 3)"), num(1.0));
    assert_eq!(eval_str("(% 7 3)"), num(1.0));
    assert_eq!(eval_str("(intdiv 7 2)"), num(3.0));
    assert_eq!(eval_str("(+ 1 nil 5)"), num(1.0));
    assert_eq!(builtin_error(&eval_err("(mod 1 2 3)")), Some(&BuiltinError::BadModArgCount));
    assert_eq!(builtin_error(&eval_err("(mod 1 \"a\")")), Some(&BuiltinError::BadModArgTypes));
    assert_eq!(builtin_error(&eval_err("(* 2 \"a\")")), Some(&BuiltinError::ExpectedNumArg));
}

#[test]
fn less_than_chains() {
    assert_eq!(eval_str("(< 1 2 3)"), Value::Bool(true));
    assert_eq!(eval_str("(< 1 3 2)"), Value::Bool(false));
}

#[test]
fn list_builtins() {
    assert_eq!(eval_str("(list 1 2)"), list_of(vec![num(1.0), num(2.0)]));
    assert_eq!(eval_str("(cons 1 2)"), Value::Cons(Box::new(num(1.0)), Box::new(num(2.0))));
    assert_eq!(eval_str("(cdr (cons 1 2))"), num(2.0));
    assert_eq!(
        eval_str("(append '(1 2) '(3))"),
        list_of(vec![num(1.0), num(2.0), num(3.0)])
    );
    assert_eq!(eval_str("(append nil '(3))"), list_of(vec![num(3.0)]));
    assert_eq!(eval_error(&eval_err("(append 1 '(3))")), Some(&EvalError::NotAList));
}

#[test]
fn predicates() {
    assert_eq!(eval_str("(number? 1)"), Value::Bool(true));
    assert_eq!(eval_str("(bool? #f)"), Value::Bool(true));
    assert_eq!(eval_str("(symbol? 'a)"), Value::Bool(true));
    assert_eq!(eval_str("(char? (char 65))"), Value::Bool(true));
    assert_eq!(eval_str("(string? \"s\")"), Value::Bool(true));
    assert_eq!(eval_str("(atom? '(1))"), Value::Bool(false));
    assert_eq!(eval_str("(null? nil)"), Value::Bool(true));
    assert_eq!(eval_str("(pair? '(1))"), Value::Bool(true));
    assert_eq!(builtin_error(&eval_err("(pair?)")), Some(&BuiltinError::NoArgList));
    assert_eq!(builtin_error(&eval_err("(pair? 1 2)")), Some(&BuiltinError::OnlyOneArg));
}

#[test]
fn string_builtins() {
    assert_eq!(eval_str("(string-ref \"hello\" 1)"), Value::Char(b'e'));
    assert_eq!(eval_str("(substring \"hello\" 1 3)"), Value::Str("el".to_string()));
    assert_eq!(eval_str("(substring \"hello\" 1 99)"), Value::Str("ello".to_string()));
    assert_eq!(eval_str("(substring \"hello\" 2)"), Value::Str("llo".to_string()));
    assert_eq!(eval_str("(string-append \"ab\" 'cd)"), Value::Str("abcd".to_string()));
    assert_eq!(
        eval_str("(string->list \"ab\")"),
        list_of(vec![Value::Char(b'a'), Value::Char(b'b')])
    );
    assert_eq!(eval_str("(list->string (string->list \"ab\"))"), Value::Str("ab".to_string()));
    assert_eq!(eval_str("(list->string (list 1 \"x\"))"), Value::Str("1x".to_string()));
    assert_eq!(eval_str("(char 65)"), Value::Char(65));
    assert_eq!(eval_str("(char \"A\")"), Value::Char(65));
    assert_eq!(builtin_error(&eval_err("(char 300)")), Some(&BuiltinError::BadCharArg));
    assert_eq!(builtin_error(&eval_err("(string->num \"abc\")")), Some(&BuiltinError::NotANumber));
    assert_eq!(builtin_error(&eval_err("(string-ref \"hello\" 10)")), Some(&BuiltinError::IndexOutOfRange));
    assert_eq!(builtin_error(&eval_err("(substring \"h\u{e9}\" 2)")), Some(&BuiltinError::BadSubstring));
}

#[test]
fn print_writes_a_line() {
    let mut env = Env::<F>::new();
    let v = run_one(&mut env, "(print 1 \"a\" 'b '(1 2) (cons 1 2) #t nil (char 120))").unwrap();
    assert_eq!(v, Value::NoPrint);
    assert_eq!(env.output, vec!["1 a :b '(1 2) '(1 2) #t nil 'x'".to_string()]);
}

#[test]
fn print_procedures() {
    let mut env = Env::<F>::new();
    run_one(&mut env, "(def (f a b) a)").unwrap();
    run_one(&mut env, "(defm (m x) x)").unwrap();
    run_one(&mut env, "(print f m car (lambda (y) y) 'if)").unwrap();
    assert_eq!(
        env.output,
        vec!["func: f (a b) {...} macro: m (x) {...} built-in: car (...) {...} lambda: (y) {...} If".to_string()]
    );
}

#[test]
fn reading_input() {
    let mut env = Env::<F>::new();
    env.input = b"x  line one  \nrest".to_vec();
    assert_eq!(run_one(&mut env, "(getchar)").unwrap(), Value::Char(b'x'));
    assert_eq!(run_one(&mut env, "(getline)").unwrap(), Value::Str("line one".to_string()));
    assert_eq!(run_one(&mut env, "(getline)").unwrap(), Value::Str("rest".to_string()));
    assert_eq!(
        run_one(&mut env, "(getchar)").unwrap(),
        Value::Cons(Box::new(sym_val("err")), Box::new(Value::Str("EOF".to_string())))
    );
}

#[test]
fn reading_input_that_has_not_arrived() {
    let mut env = Env::<F>::new();
    env.input_closed = false;
    env.input = b"ab".to_vec();
    assert_eq!(
        eval_error(&run_one(&mut env, "(getline)").unwrap_err()),
        Some(&EvalError::NeedsInput)
    );
    assert_eq!(env.input, b"ab".to_vec());
    assert_eq!(run_one(&mut env, "(getchar)").unwrap(), Value::Char(b'a'));
    assert_eq!(run_one(&mut env, "(getchar)").unwrap(), Value::Char(b'b'));
    assert_eq!(
        eval_error(&run_one(&mut env, "(getchar)").unwrap_err()),
        Some(&EvalError::NeedsInput)
    );
    env.input.extend_from_slice(b" next line \n");
    env.input_closed = true;
    assert_eq!(run_one(&mut env, "(getline)").unwrap(), Value::Str("next line".to_string()));
}

#[test]
fn lowering_reads_atoms() {
    let mut env = Env::<F>::new();
    let tokens = lex("(1 foo #t \"s\" if)");
    let (e, used) = parse_expr(&tokens).unwrap();
    assert_eq!(used, 7);
    assert_eq!(
        lower(&e, &mut env.log),
        list_of(vec![
            num(1.0),
            sym_val("foo"),
            Value::Bool(true),
            Value::Str("s".to_string()),
            Value::Form(Form::If)
        ])
    );
}

#[test]
fn render_values() {
    let mut log = NumLog::<F>::new();
    assert_eq!(render(&num(2.5), &mut log), "2.5");
    assert_eq!(render(&list_of(vec![num(1.0), list_of(vec![num(2.0)])]), &mut log), "'(1 '(2))");
    assert_eq!(render(&Value::<F>::Form(Form::SetBang), &mut log), "SetBang");
}

#[test]
fn require_runs_a_loaded_source() {
    let mut env = Env::<F>::new();
    env.sources.push(("lib.pd".to_string(), "(def (twice x) (* 2 x))\n(def k 5)".to_string()));
    assert_eq!(run_one(&mut env, "(require \"lib.pd\")").unwrap(), Value::NoPrint);
    assert_eq!(run_one(&mut env, "(twice k)").unwrap(), num(10.0));
}

#[test]
fn require_inside_a_function_defines_in_its_frame() {
    let mut env = Env::<F>::new();
    env.sources.push(("lib".to_string(), "(def k 7)".to_string()));
    run_one(&mut env, "(def (load) (require lib) k)").unwrap();
    assert_eq!(run_one(&mut env, "(load)").unwrap(), num(7.0));
    assert_eq!(eval_error(&run_one(&mut env, "k").unwrap_err()), Some(&EvalError::SymbolUndefined("k".to_string())));
}

#[test]
fn require_of_unfinished_source_fails() {
    let mut env = Env::<F>::new();
    env.sources.push(("bad".to_string(), "(def k 1) (def".to_string()));
    assert_eq!(
        eval_error(&run_one(&mut env, "(require bad)").unwrap_err()),
        Some(&EvalError::RequireIncomplete(9, 14, 1))
    );
}

#[test]
fn walking_a_list() {
    let v = list_of(vec![num(1.0), num(2.0)]);
    let mut it = v.to_cons_iter();
    assert!(!it.is_empty());
    assert_eq!(it.next(), Some(&num(1.0)));
    assert_eq!(it.next(), Some(&num(2.0)));
    assert!(it.is_empty());
    assert_eq!(it.next(), None);
    assert_eq!(it.into_cons_list(), Value::Nil);
    let w = Value::Cons(Box::new(num(1.0)), Box::new(num(2.0)));
    let mut it = w.to_cons_iter();
    it.next();
    assert_eq!(it.into_cons_list(), num(2.0));
    assert_eq!(it.into_cons_list(), Value::Nil);
}

#[test]
fn messages_with_numbers() {
    assert_eq!(
        Error::Eval(EvalError::BadFunctionArgCount(12)).message(),
        "Function expected 12 args."
    );
    assert_eq!(
        Error::Builtin(BuiltinError::WrongConsArgCount(0)).message(),
        "Cons: Expected 2 arguments got 0."
    );
}

#[test]
fn truth_values() {
    let mut log = NumLog::<F>::new();
    assert!(!Value::<F>::Nil.truthy(&mut log));
    assert!(!Value::<F>::NoPrint.truthy(&mut log));
    assert!(!num(0.0).truthy(&mut log));
    assert!(num(f64::NAN).truthy(&mut log));
    assert!(!Value::<F>::Char(0).truthy(&mut log));
    assert!(Value::<F>::Symbol("a".to_string()).truthy(&mut log));
}

#[test]
fn too_many_arguments() {
    assert_eq!(
        eval_error(&eval_err("((lambda (x) x) 1 2)")),
        Some(&EvalError::BadFunctionArgCount(1))
    );
    assert_eq!(
        eval_error(&eval_env_err(&["(def (f x) (+ x 1))", "(f 1 2)"])),
        Some(&EvalError::BadFunctionArgCount(1))
    );
}

#[test]
fn callable_errors_of_define_and_defmacro() {
    assert_eq!(
        eval_error(&eval_err("(def (f x))")),
        Some(&EvalError::BadCallableBodyArgs(Form::Define))
    );
    assert_eq!(
        eval_error(&eval_err("(defm (m 2) x)")),
        Some(&EvalError::BadCallableArgsListType(Form::DefineMacro))
    );
    assert_eq!(
        eval_error(&eval_err("(lambda)")),
        Some(&EvalError::BadCallableArgs(Form::Lambda))
    );
}

#[test]
fn callable_error_messages() {
    assert_eq!(
        Error::Eval(EvalError::BadCallableArgs(Form::Lambda)).message(),
        "No args provided for callable: Lambda"
    );
    assert_eq!(
        Error::Eval(EvalError::BadCallableArgsListType(Form::Define)).message(),
        "bad types for callable: Define"
    );
    assert_eq!(
        Error::Eval(EvalError::BadCallableHead(Form::DefineMacro)).message(),
        "Need name for named callable: DefineMacro"
    );
    assert_eq!(
        Error::Eval(EvalError::BadCallableBodyArgs(Form::Lambda)).message(),
        "No body for callable: Lambda"
    );
}

#[test]
fn a_failing_builtin_is_named() {
    let err = eval_err("(car 1)");
    assert_eq!(
        err,
        Error::Context(
            Context::Calling("car".to_string()),
            Box::new(Error::Builtin(BuiltinError::WrongCarArgType))
        )
    );
    assert_eq!(
        err.message(),
        format!("error calling [car]: {}", Error::Builtin(BuiltinError::WrongCarArgType).message())
    );
}

#[test]
fn a_failing_argument_is_passed_on_as_it_is() {
    assert_eq!(
        eval_err("(car y)"),
        Error::Eval(EvalError::SymbolUndefined("y".to_string()))
    );
}

#[test]
fn a_failing_head_is_in_context() {
    assert_eq!(
        eval_err("(f 1)"),
        Error::Context(
            Context::EvalHead,
            Box::new(Error::Eval(EvalError::SymbolUndefined("f".to_string())))
        )
    );
    assert_eq!(
        eval_err("(f 1)").message(),
        "error evaling head of list: Symbol [f] is undefined in current env."
    );
}

#[test]
fn a_failing_set_bang_is_in_context() {
    assert_eq!(
        eval_err("(set! nothing 1)"),
        Error::Context(
            Context::SetBang,
            Box::new(Error::Eval(EvalError::SetUndefined("nothing".to_string())))
        )
    );
    assert_eq!(eval_err("(set! nothing 1)").message(), "error set!ing: nothing isn't in scope");
}

#[test]
fn a_failing_required_file_is_in_context() {
    let mut env = Env::<F>::new();
    env.sources.push(("bad".to_string(), "(def k 1) (def".to_string()));
    let err = run_one(&mut env, "(require bad)").unwrap_err();
    assert_eq!(
        err,
        Error::Context(
            Context::ProcessingFile,
            Box::new(Error::Eval(EvalError::RequireIncomplete(9, 14, 1)))
        )
    );
    let err = run_one(&mut env, "(require other)").unwrap_err();
    assert_eq!(err.root(), &Error::Eval(EvalError::NeedsFile("other".to_string())));
}


#[test]
fn list_string_round_trips_with_string_list() {
    assert_eq!(
        eval_str("(list->string (string->list \"hello\"))"),
        Value::Str("hello".to_string())
    );
    assert_eq!(eval_str("(list->string (string->list \"\"))"), Value::Str(String::new()));
}
