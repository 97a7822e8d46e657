use minilisp::builtin::apply_builtin;
use minilisp::environment::{Environment, ROOT};
use minilisp::error::{Error, EvalError};
use minilisp::evaluator::{apply, eval as evaluate, is_truthy};
use minilisp::expression::{Builtin, Expr};
use minilisp::keyword::{special_form, Form};
use minilisp::parser::parse;
use minilisp::{parse_and_eval, run, DEPTH_LIMIT};
use std::rc::Rc;

fn value_of(text: &str) -> Rc<Expr> {
    parse_and_eval(text).unwrap()
}

fn failure_of(text: &str) -> EvalError {
    match parse_and_eval(text) {
        Err(Error::Eval(e)) => e,
        other => panic!("no evaluation error: {:?}", other),
    }
}

fn number(n: i64) -> Rc<Expr> {
    Expr::new_number(n)
}

#[test]
fn literals_evaluate_to_themselves_in_any_scope() {
    let mut env = Environment::new();
    let inner = env.child_of(ROOT);
    env.define(inner, b"x".to_vec(), number(9));
    for scope in [ROOT, inner] {
        for depth in [0, 1, 100] {
            for e in [number(-4), Expr::new_boolean(true), Expr::new_boolean(false), Expr::new_nil()] {
                assert_eq!(evaluate(&e, scope, &mut env, depth), Ok(e.clone()));
            }
        }
    }
    assert_eq!(env.len(), 2);
}

#[test]
fn procedures_evaluate_to_themselves() {
    let mut env = Environment::new();
    let plus = Rc::new(Expr::Builtin(Builtin::Add));
    assert_eq!(evaluate(&plus, ROOT, &mut env, 0), Ok(plus.clone()));
    let closure = value_of("(lambda (x) x)");
    assert_eq!(evaluate(&closure, ROOT, &mut env, 0), Ok(closure.clone()));
}

#[test]
fn empty_program_is_nil() {
    assert_eq!(value_of(""), Expr::new_nil());
    assert_eq!(value_of("; nothing here"), Expr::new_nil());
}

#[test]
fn program_value_is_that_of_the_last_form() {
    assert_eq!(value_of("1 2 3"), number(3));
    assert_eq!(value_of("(begin 1 2)"), number(2));
    assert_eq!(value_of("(begin)"), Expr::new_nil());
}

#[test]
fn define_returns_the_bound_value() {
    assert_eq!(value_of("(define x (+ 1 2))"), number(3));
}

#[test]
fn quote_returns_its_argument_unevaluated() {
    assert_eq!(
        value_of("(quote (+ 1 2))"),
        Expr::new_list(vec![Expr::new_symbol("+"), number(1), number(2)])
    );
    assert_eq!(value_of("'x"), Expr::new_symbol("x"));
    assert_eq!(value_of("'()"), Expr::new_nil());
}

#[test]
fn if_takes_the_branch_that_the_test_selects() {
    assert_eq!(value_of("(if #true 1 2)"), number(1));
    assert_eq!(value_of("(if #false 1 2)"), number(2));
    assert_eq!(value_of("(if #nil 1 2)"), number(2));
    assert_eq!(value_of("(if 0 1 2)"), number(1));
    assert_eq!(value_of("(if '(a) 1 2)"), number(1));
    assert_eq!(value_of("(if + 1 2)"), number(1));
}

#[test]
fn if_does_not_evaluate_the_other_branch() {
    assert_eq!(value_of("(if #true 1 (error 'no))"), number(1));
    assert_eq!(value_of("(if #false (error 'no) 2)"), number(2));
}

#[test]
fn truthiness() {
    assert!(is_truthy(&number(0)));
    assert!(is_truthy(&Expr::new_boolean(true)));
    assert!(is_truthy(&Expr::new_symbol("x")));
    assert!(!is_truthy(&Expr::new_boolean(false)));
    assert!(!is_truthy(&Expr::new_nil()));
}

#[test]
fn cond_takes_the_first_true_clause() {
    assert_eq!(value_of("(cond (#false 1) (#true 2) (#true 3))"), number(2));
    assert_eq!(value_of("(cond ((= 1 1) 'yes) ((error 'no) 'never))"), Expr::new_symbol("yes"));
}

#[test]
fn cond_without_a_true_clause_fails() {
    assert_eq!(failure_of("(cond (#false 1) (#nil 2))"), EvalError::NoMatchingClause);
    assert_eq!(failure_of("(cond)"), EvalError::NoMatchingClause);
}

#[test]
fn let_binds_in_a_scope_of_its_own() {
    assert_eq!(value_of("(define n 1) (let ((n 2)) n)"), number(2));
    assert_eq!(value_of("(define n 1) (let ((n 2)) n) n"), number(1));
    assert_eq!(value_of("(define n 1) (let ((m 2)) (define n 3)) n"), number(1));
}

#[test]
fn inner_define_does_not_alter_the_outer_binding() {
    let prog = "(define n 1) \
                (define f (lambda () (begin (define n 2) n))) \
                (cons (f) n)";
    assert_eq!(*value_of(prog), Expr::Pair(number(2), number(1)));
}

#[test]
fn let_bindings_see_earlier_ones() {
    assert_eq!(value_of("(let ((a 1) (b (+ a 1))) b)"), number(2));
}

#[test]
fn let_binding_that_reads_a_later_name_fails() {
    assert_eq!(
        failure_of("(define b 7) (let ((a b) (b 1)) a)"),
        EvalError::UnboundSymbol(b"b".to_vec())
    );
}

#[test]
fn let_supports_mutual_reference_from_lambda_bodies() {
    let prog = "(let ((even? (lambda (n) (if (= n 0) #true (odd? (- n 1))))) \
                      (odd? (lambda (n) (if (= n 0) #false (even? (- n 1)))))) \
                  (even? 10))";
    assert_eq!(value_of(prog), Expr::new_boolean(true));
}

#[test]
fn forward_reference_between_defines() {
    assert_eq!(
        value_of("(define f (lambda () bar)) (define bar 1337) (f)"),
        number(1337)
    );
    assert_eq!(
        value_of("(let ((bar 1337) (foo (lambda () bar))) (foo))"),
        number(1337)
    );
}

#[test]
fn lambda_twice_gives_equal_closures() {
    let mut env = Environment::new();
    let scope = env.child_of(ROOT);
    env.define(scope, b"k".to_vec(), number(5));
    let form = parse(b"(lambda (x) (+ x k))").unwrap();
    let form = Expr::list_to_vec(&form).unwrap()[1].clone();
    let first = evaluate(&form, scope, &mut env, 10).unwrap();
    let second = evaluate(&form, scope, &mut env, 10).unwrap();
    assert_eq!(first, second);
    assert!(!Rc::ptr_eq(&first, &second));
    assert_eq!(env.len(), 2);
    match &*first {
        Expr::Closure { params, bound, scope: captured, .. } => {
            assert_eq!(params, &vec![b"x".to_vec()]);
            assert!(bound.is_empty());
            assert_eq!(*captured, scope);
        }
        other => panic!("not a closure: {:?}", other),
    }
    assert_eq!(apply(&first, &vec![number(1)], &mut env, 10), Ok(number(6)));
    assert_eq!(apply(&second, &vec![number(2)], &mut env, 10), Ok(number(7)));
}

#[test]
fn closure_keeps_the_scope_of_its_lambda() {
    let prog = "(define make (lambda (n) (lambda () n))) \
                (define one (make 1)) \
                (define two (make 2)) \
                (cons (one) (two))";
    assert_eq!(*value_of(prog), Expr::Pair(number(1), number(2)));
}

#[test]
fn scope_is_lexical_not_dynamic() {
    let prog = "(define x 1) \
                (define get (lambda () x)) \
                (define call (lambda (x) (get))) \
                (call 2)";
    assert_eq!(value_of(prog), number(1));
}

#[test]
fn one_argument_at_a_time_equals_all_at_once() {
    let at_once = value_of("((lambda (a b c) (- (* a b) c)) 6 7 2)");
    let in_turn = value_of("((((lambda (a b c) (- (* a b) c)) 6) 7) 2)");
    let mixed = value_of("(((lambda (a b c) (- (* a b) c)) 6 7) 2)");
    assert_eq!(at_once, number(40));
    assert_eq!(in_turn, at_once);
    assert_eq!(mixed, at_once);
}

#[test]
fn triple_currying() {
    assert_eq!(value_of("((((lambda (x y z) z) 1) 2) 3)"), number(3));
}

#[test]
fn partial_application_holds_its_arguments() {
    let partial = value_of("((lambda (x y) (cons x y)) 1)");
    match &*partial {
        Expr::Closure { params, bound, scope, .. } => {
            assert_eq!(params, &vec![b"x".to_vec(), b"y".to_vec()]);
            assert_eq!(bound, &vec![number(1)]);
            assert_eq!(*scope, 0);
        }
        other => panic!("not a closure: {:?}", other),
    }
    let mut env = Environment::new();
    assert_eq!(
        apply(&partial, &vec![number(2)], &mut env, 10),
        Ok(Expr::new_pair(number(1), number(2)))
    );
    assert_eq!(env.len(), 2);
}

#[test]
fn partial_application_can_be_used_twice() {
    let prog = "(define add (lambda (a b) (+ a b))) \
                (define add1 (add 1)) \
                (cons (add1 10) (add1 20))";
    assert_eq!(*value_of(prog), Expr::Pair(number(11), number(21)));
}

#[test]
fn application_without_arguments() {
    assert_eq!(value_of("((lambda () 5))"), number(5));
    let same = value_of("((lambda (x) x))");
    assert!(matches!(&*same, Expr::Closure { bound, .. } if bound.is_empty()));
}

#[test]
fn later_parameter_of_the_same_name_wins() {
    assert_eq!(value_of("((lambda (x x) x) 1 2)"), number(2));
}

#[test]
fn arguments_are_evaluated_from_left_to_right() {
    let prog = "(define first (lambda (a b) a)) \
                (first (define x 1) (define x 2)) \
                x";
    assert_eq!(value_of(prog), number(2));
    assert_eq!(
        failure_of("(+ (error 'left) (error 'right))"),
        EvalError::Raised(Expr::new_symbol("left"))
    );
}

#[test]
fn eval_form_evaluates_twice() {
    assert_eq!(value_of("(eval ''x)"), Expr::new_symbol("x"));
    assert_eq!(value_of("(define x 5) (eval 'x)"), number(5));
    assert_eq!(value_of("(eval (cons '+ (cons 1 (cons 2 #nil))))"), number(3));
}

#[test]
fn error_form_carries_the_evaluated_payload() {
    assert_eq!(
        failure_of("(error '(this should fail))"),
        EvalError::Raised(Expr::new_list(vec![
            Expr::new_symbol("this"),
            Expr::new_symbol("should"),
            Expr::new_symbol("fail"),
        ]))
    );
    assert_eq!(failure_of("(error (+ 1 2))"), EvalError::Raised(number(3)));
}

#[test]
fn error_stops_the_program() {
    assert_eq!(
        failure_of("(define x 1) (error x) (define x 2)"),
        EvalError::Raised(number(1))
    );
}

#[test]
fn unbound_symbol_is_reported_with_its_name() {
    assert_eq!(failure_of("foo"), EvalError::UnboundSymbol(b"foo".to_vec()));
    assert_eq!(failure_of("(f 1)"), EvalError::UnboundSymbol(b"f".to_vec()));
}

#[test]
fn keywords_are_not_bound_names() {
    assert_eq!(failure_of("if"), EvalError::UnboundSymbol(b"if".to_vec()));
    assert_eq!(value_of("(define if 3) if"), number(3));
    assert_eq!(value_of("(define if 3) (if #true 1 2)"), number(1));
}

#[test]
fn special_forms_are_known_by_keyword() {
    assert_eq!(special_form(b"quote"), Some(Form::Quote));
    assert_eq!(special_form(b"define"), Some(Form::Define));
    assert_eq!(special_form(b"lambda"), Some(Form::Lambda));
    assert_eq!(special_form(b"if"), Some(Form::If));
    assert_eq!(special_form(b"cond"), Some(Form::Cond));
    assert_eq!(special_form(b"let"), Some(Form::Let));
    assert_eq!(special_form(b"eval"), Some(Form::Eval));
    assert_eq!(special_form(b"error"), Some(Form::Error));
    assert_eq!(special_form(b"begin"), Some(Form::Begin));
    assert_eq!(special_form(b"Quote"), None);
    assert_eq!(special_form(b"quot"), None);
    assert_eq!(special_form(b"quotes"), None);
    assert_eq!(special_form(b""), None);
    assert_eq!(special_form(b"+"), None);
}

#[test]
fn malformed_special_forms() {
    assert_eq!(failure_of("(quote)"), EvalError::Malformed(Form::Quote));
    assert_eq!(failure_of("(quote a b)"), EvalError::Malformed(Form::Quote));
    assert_eq!(failure_of("(define x)"), EvalError::Malformed(Form::Define));
    assert_eq!(failure_of("(define 1 2)"), EvalError::Malformed(Form::Define));
    assert_eq!(failure_of("(define (f) 2)"), EvalError::Malformed(Form::Define));
    assert_eq!(failure_of("(lambda (x))"), EvalError::Malformed(Form::Lambda));
    assert_eq!(failure_of("(lambda x x)"), EvalError::Malformed(Form::Lambda));
    assert_eq!(failure_of("(lambda (x 1) x)"), EvalError::Malformed(Form::Lambda));
    assert_eq!(failure_of("(if #true 1)"), EvalError::Malformed(Form::If));
    assert_eq!(failure_of("(if)"), EvalError::Malformed(Form::If));
    assert_eq!(failure_of("(cond 1)"), EvalError::Malformed(Form::Cond));
    assert_eq!(failure_of("(cond (#true))"), EvalError::Malformed(Form::Cond));
    assert_eq!(failure_of("(cond (#false 1) (#true 1 2))"), EvalError::Malformed(Form::Cond));
    assert_eq!(failure_of("(let ((x 1)))"), EvalError::Malformed(Form::Let));
    assert_eq!(failure_of("(let (x) x)"), EvalError::Malformed(Form::Let));
    assert_eq!(failure_of("(let ((x)) x)"), EvalError::Malformed(Form::Let));
    assert_eq!(failure_of("(let ((1 2)) 3)"), EvalError::Malformed(Form::Let));
    assert_eq!(failure_of("(let x x)"), EvalError::Malformed(Form::Let));
    assert_eq!(failure_of("(eval)"), EvalError::Malformed(Form::Eval));
    assert_eq!(failure_of("(error)"), EvalError::Malformed(Form::Error));
    assert_eq!(failure_of("(error 1 2)"), EvalError::Malformed(Form::Error));
}

#[test]
fn malformed_let_opens_no_scope() {
    let mut env = Environment::new();
    let form = Expr::list_to_vec(&parse(b"(let ((x 1) (2 y)) x)").unwrap()).unwrap()[1].clone();
    assert_eq!(
        evaluate(&form, ROOT, &mut env, 10),
        Err(EvalError::Malformed(Form::Let))
    );
    assert_eq!(env.len(), 1);
}

#[test]
fn improper_list_cannot_be_evaluated() {
    assert_eq!(failure_of("(eval (cons '+ 1))"), EvalError::ImproperList);
    let mut env = Environment::new();
    let pair = Expr::new_pair(number(1), number(2));
    assert_eq!(evaluate(&pair, ROOT, &mut env, 10), Err(EvalError::ImproperList));
}

#[test]
fn only_procedures_can_be_applied() {
    assert_eq!(failure_of("(1 2)"), EvalError::NotAProcedure);
    assert_eq!(failure_of("('f)"), EvalError::NotAProcedure);
    assert_eq!(failure_of("(#nil)"), EvalError::NotAProcedure);
    assert_eq!(failure_of("(() 1)"), EvalError::NotAProcedure);
    let mut env = Environment::new();
    assert_eq!(apply(&number(1), &vec![], &mut env, 10), Err(EvalError::NotAProcedure));
}

#[test]
fn head_is_checked_before_the_arguments_are_evaluated() {
    assert_eq!(failure_of("(1 (error 'args))"), EvalError::NotAProcedure);
}

#[test]
fn too_many_arguments_for_a_closure() {
    assert_eq!(failure_of("((lambda (x) x) 1 2)"), EvalError::TooManyArguments);
    assert_eq!(failure_of("((lambda () 1) 2)"), EvalError::TooManyArguments);
    assert_eq!(failure_of("(((lambda (x y) x) 1) 2 3)"), EvalError::TooManyArguments);
}

#[test]
fn wrong_number_of_arguments_for_a_primitive() {
    assert_eq!(failure_of("(+ 1)"), EvalError::Arity(Builtin::Add));
    assert_eq!(failure_of("(+ 1 2 3)"), EvalError::Arity(Builtin::Add));
    assert_eq!(failure_of("(-)"), EvalError::Arity(Builtin::Sub));
    assert_eq!(failure_of("(* 1)"), EvalError::Arity(Builtin::Mul));
    assert_eq!(failure_of("(/ 1)"), EvalError::Arity(Builtin::Div));
    assert_eq!(failure_of("(mod 1)"), EvalError::Arity(Builtin::Rem));
    assert_eq!(failure_of("(= 1)"), EvalError::Arity(Builtin::NumEq));
    assert_eq!(failure_of("(cons 1)"), EvalError::Arity(Builtin::Cons));
    assert_eq!(failure_of("(head)"), EvalError::Arity(Builtin::Head));
    assert_eq!(failure_of("(tail '(1) '(2))"), EvalError::Arity(Builtin::Tail));
    assert_eq!(failure_of("(nil?)"), EvalError::Arity(Builtin::IsNil));
}

#[test]
fn wrong_variant_for_a_primitive() {
    assert_eq!(failure_of("(+ 1 #true)"), EvalError::Type(Builtin::Add));
    assert_eq!(failure_of("(- 'a 1)"), EvalError::Type(Builtin::Sub));
    assert_eq!(failure_of("(* #nil 1)"), EvalError::Type(Builtin::Mul));
    assert_eq!(failure_of("(/ 1 '(2))"), EvalError::Type(Builtin::Div));
    assert_eq!(failure_of("(mod + 1)"), EvalError::Type(Builtin::Rem));
    assert_eq!(failure_of("(= #true #true)"), EvalError::Type(Builtin::NumEq));
    assert_eq!(failure_of("(head 1)"), EvalError::Type(Builtin::Head));
    assert_eq!(failure_of("(head #nil)"), EvalError::Type(Builtin::Head));
    assert_eq!(failure_of("(tail 'x)"), EvalError::Type(Builtin::Tail));
}

#[test]
fn arithmetic_on_numbers() {
    assert_eq!(value_of("(+ 2 3)"), number(5));
    assert_eq!(value_of("(- 2 3)"), number(-1));
    assert_eq!(value_of("(* -4 3)"), number(-12));
    assert_eq!(value_of("(= 2 2)"), Expr::new_boolean(true));
    assert_eq!(value_of("(= 2 3)"), Expr::new_boolean(false));
}

#[test]
fn division_rounds_toward_zero() {
    assert_eq!(value_of("(/ 7 2)"), number(3));
    assert_eq!(value_of("(/ -7 2)"), number(-3));
    assert_eq!(value_of("(/ 7 -2)"), number(-3));
    assert_eq!(value_of("(/ -7 -2)"), number(3));
    assert_eq!(value_of("(/ 0 5)"), number(0));
    assert_eq!(value_of("(/ 0 -5)"), number(0));
}

#[test]
fn remainder_has_the_sign_of_the_dividend() {
    assert_eq!(value_of("(mod 7 2)"), number(1));
    assert_eq!(value_of("(mod -7 2)"), number(-1));
    assert_eq!(value_of("(mod 7 -2)"), number(1));
    assert_eq!(value_of("(mod -7 -2)"), number(-1));
    assert_eq!(value_of("(mod 6 3)"), number(0));
    assert_eq!(value_of("(mod 0 3)"), number(0));
    assert_eq!(value_of("(mod 5 -1)"), number(0));
    assert_eq!(value_of("(mod -9223372036854775808 -1)"), number(0));
}

#[test]
fn division_by_zero_fails() {
    assert_eq!(failure_of("(/ 1 0)"), EvalError::DivisionByZero);
    assert_eq!(failure_of("(mod 1 0)"), EvalError::DivisionByZero);
    assert_eq!(failure_of("(/ 0 0)"), EvalError::DivisionByZero);
}

#[test]
fn results_that_do_not_fit_fail() {
    assert_eq!(failure_of("(+ 9223372036854775807 1)"), EvalError::Overflow(Builtin::Add));
    assert_eq!(failure_of("(- -9223372036854775808 1)"), EvalError::Overflow(Builtin::Sub));
    assert_eq!(failure_of("(* 4611686018427387904 2)"), EvalError::Overflow(Builtin::Mul));
    assert_eq!(failure_of("(/ -9223372036854775808 -1)"), EvalError::Overflow(Builtin::Div));
    assert_eq!(value_of("(+ 9223372036854775806 1)"), number(i64::MAX));
    assert_eq!(value_of("(* -4611686018427387904 2)"), number(i64::MIN));
}

#[test]
fn pairs_and_their_parts() {
    assert_eq!(*value_of("(cons 1 '(2))"), Expr::Pair(number(1), Expr::new_list(vec![number(2)])));
    assert_eq!(value_of("(head (cons 1 2))"), number(1));
    assert_eq!(value_of("(tail (cons 1 2))"), number(2));
    assert_eq!(value_of("(tail '(1))"), Expr::new_nil());
    assert_eq!(value_of("(nil? '())"), Expr::new_boolean(true));
    assert_eq!(value_of("(nil? #nil)"), Expr::new_boolean(true));
    assert_eq!(value_of("(nil? #false)"), Expr::new_boolean(false));
    assert_eq!(value_of("(nil? '(1))"), Expr::new_boolean(false));
    assert_eq!(value_of("(nil? 0)"), Expr::new_boolean(false));
}

#[test]
fn lists_are_equal_by_structure() {
    let a = value_of("(cons 1 (cons 2 #nil))");
    let b = value_of("'(1 2)");
    assert_eq!(a, b);
    assert!(!Rc::ptr_eq(&a, &b));
    assert_ne!(value_of("'(1 2)"), value_of("'(2 1)"));
    assert_ne!(value_of("#nil"), value_of("#false"));
}

#[test]
fn primitives_applied_directly() {
    let args = vec![number(20), number(6)];
    assert_eq!(apply_builtin(Builtin::Add, &args), Ok(number(26)));
    assert_eq!(apply_builtin(Builtin::Sub, &args), Ok(number(14)));
    assert_eq!(apply_builtin(Builtin::Mul, &args), Ok(number(120)));
    assert_eq!(apply_builtin(Builtin::Div, &args), Ok(number(3)));
    assert_eq!(apply_builtin(Builtin::Rem, &args), Ok(number(2)));
    assert_eq!(apply_builtin(Builtin::NumEq, &args), Ok(Expr::new_boolean(false)));
    assert_eq!(apply_builtin(Builtin::Cons, &args), Ok(Expr::new_pair(number(20), number(6))));
    let pair = vec![Expr::new_pair(number(1), number(2))];
    assert_eq!(apply_builtin(Builtin::Head, &pair), Ok(number(1)));
    assert_eq!(apply_builtin(Builtin::Tail, &pair), Ok(number(2)));
    assert_eq!(apply_builtin(Builtin::IsNil, &pair), Ok(Expr::new_boolean(false)));
}

#[test]
fn closure_over_an_unknown_scope_cannot_be_applied() {
    let mut env = Environment::new();
    let stray = Rc::new(Expr::Closure {
        params: vec![],
        bound: vec![],
        body: number(1),
        scope: 7,
    });
    assert_eq!(apply(&stray, &vec![], &mut env, 10), Err(EvalError::UnknownScope));
    assert_eq!(env.len(), 1);
}

#[test]
fn closure_with_more_held_than_declared_cannot_be_applied() {
    let mut env = Environment::new();
    let odd = Rc::new(Expr::Closure {
        params: vec![b"x".to_vec()],
        bound: vec![number(1), number(2)],
        body: number(1),
        scope: 0,
    });
    assert_eq!(apply(&odd, &vec![], &mut env, 10), Err(EvalError::TooManyArguments));
}

#[test]
fn nesting_deeper_than_the_limit_fails() {
    let text = b"(define loop (lambda () (loop))) (loop)";
    assert_eq!(run(text, 40), Err(Error::Eval(EvalError::DepthExceeded)));
    assert_eq!(run(b"(+ 1 (+ 1 (+ 1 1)))", 3), Err(Error::Eval(EvalError::DepthExceeded)));
    assert_eq!(run(b"(+ 1 (+ 1 (+ 1 1)))", 4), Ok(number(4)));
    assert_eq!(run(b"(+ 1 1)", 0), Err(Error::Eval(EvalError::DepthExceeded)));
    assert_eq!(run(b"7", 1), Ok(number(7)));
}

#[test]
fn endless_recursion_ends_at_the_default_limit() {
    assert_eq!(DEPTH_LIMIT, 512);
    assert_eq!(
        failure_of("(define loop (lambda (n) (loop (+ n 1)))) (loop 0)"),
        EvalError::DepthExceeded
    );
}

#[test]
fn each_application_gets_a_scope() {
    let mut env = Environment::new();
    let program = parse(b"(define id (lambda (x) x)) (id 1) (id 2) (let ((a 1)) a)").unwrap();
    assert_eq!(evaluate(&program, ROOT, &mut env, 20), Ok(number(1)));
    assert_eq!(env.len(), 4);
    assert_eq!(env.lookup(1, b"x"), Ok(number(1)));
    assert_eq!(env.lookup(2, b"x"), Ok(number(2)));
    assert_eq!(env.lookup(3, b"a"), Ok(number(1)));
    assert_eq!(
        env.lookup(ROOT, b"x"),
        Err(EvalError::UnboundSymbol(b"x".to_vec()))
    );
}

#[test]
fn environment_after_a_failure_keeps_what_was_done() {
    let mut env = Environment::new();
    let program = parse(b"(define x 1) (error 'stop) (define y 2)").unwrap();
    assert_eq!(
        evaluate(&program, ROOT, &mut env, 20),
        Err(EvalError::Raised(Expr::new_symbol("stop")))
    );
    assert_eq!(env.lookup(ROOT, b"x"), Ok(number(1)));
    assert_eq!(
        env.lookup(ROOT, b"y"),
        Err(EvalError::UnboundSymbol(b"y".to_vec()))
    );
}

#[test]
fn parse_failure_is_reported_by_the_entry_point() {
    assert_eq!(
        parse_and_eval("(+ 1"),
        Err(Error::Parse(minilisp::error::ParseError::UnexpectedEnd))
    );
}

#[test]
fn parts_of_a_pair_are_shared_not_copied() {
    let rest = Expr::new_list(vec![number(2), number(3)]);
    let list = Expr::new_pair(number(1), rest.clone());
    let tail = apply_builtin(Builtin::Tail, &vec![list.clone()]).unwrap();
    assert!(Rc::ptr_eq(&tail, &rest));
    let items = Expr::list_to_vec(&list).unwrap();
    assert_eq!(items.len(), 3);
    assert_eq!(items[1], number(2));
    let mut env = Environment::new();
    env.define(ROOT, b"xs".to_vec(), list.clone());
    assert!(Rc::ptr_eq(&env.lookup(ROOT, b"xs").unwrap(), &list));
}

#[test]
fn comments_are_not_evaluated() {
    assert_eq!(run(b"(+ 1 2) ; (error 'no)\n", 10), Ok(number(3)));
    assert_eq!(run(b"; (\n(+ 1 ; )\n 2)", 10), Ok(number(3)));
}
