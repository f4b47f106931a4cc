use radicle::env::Environment;
use radicle::eval::{eval, parse_func_literal, EvalError};
use radicle::expr::Expr;
use radicle::reader::read;
use radicle::tree::Tree;

fn atom(s: &str) -> Expr {
    Tree::Leaf(String::from(s))
}

fn run(env: Environment, text: &str) -> (Environment, Result<String, EvalError>) {
    let copy = env.copy();
    match eval(env, read(text).unwrap()) {
        Ok((env, v)) => (env, Ok(v.render())),
        Err(e) => (copy, Err(e)),
    }
}

fn value(text: &str) -> Result<String, EvalError> {
    run(Environment::new(), text).1
}

#[test]
fn quote_returns_argument_unevaluated() {
    let mut env = Environment::new();
    env.define(String::from("a"), atom("1"));
    env.define(String::from("b"), atom("2"));
    let (_, v) = run(env, "(quote (a b))");
    assert_eq!(v, Ok(String::from("(a b)")));
}

#[test]
fn atom_of_empty_and_non_empty_lists() {
    assert_eq!(value("(atom (quote ()))"), Ok(String::from("t")));
    assert_eq!(value("(atom (quote (1 2)))"), Ok(String::from("()")));
    assert_eq!(value("(atom (quote a))"), Ok(String::from("t")));
}

#[test]
fn eq_of_atoms_and_lists() {
    assert_eq!(value("(eq (quote a) (quote a))"), Ok(String::from("t")));
    assert_eq!(value("(eq (quote a) (quote b))"), Ok(String::from("()")));
    assert_eq!(value("(eq (quote ()) (quote ()))"), Ok(String::from("t")));
    assert_eq!(value("(eq (quote (a)) (quote (a)))"), Ok(String::from("()")));
    assert_eq!(value("(eq (quote (a)) (quote (b c)))"), Ok(String::from("()")));
}

#[test]
fn first_and_rest_undo_cons() {
    assert_eq!(value("(first (cons (quote x) (quote (a b))))"), Ok(String::from("x")));
    assert_eq!(value("(rest (cons (quote x) (quote (a b))))"), Ok(String::from("(a b)")));
    assert_eq!(value("(rest (cons (quote (p q)) (quote ())))"), Ok(String::from("()")));
    assert_eq!(value("(cons (quote x) (quote ()))"), Ok(String::from("(x)")));
}

#[test]
fn cond_picks_first_true_clause() {
    let mut env = Environment::new();
    env.define(String::from("1"), atom("1"));
    env.define(String::from("2"), atom("2"));
    let (_, v) = run(env, "(cond ((quote ()) 1) ((quote t) 2))");
    assert_eq!(v, Ok(String::from("2")));
    assert_eq!(value("(cond ((quote t) (quote a)) ((quote t) (quote b)))"), Ok(String::from("a")));
}

#[test]
fn cond_without_true_clause_is_empty_list() {
    assert_eq!(value("(cond ((quote ()) (quote a)) ((quote x) (quote b)))"), Ok(String::from("()")));
    assert_eq!(value("(cond)"), Ok(String::from("()")));
}

#[test]
fn cond_clause_must_be_pair() {
    assert_eq!(value("(cond x)"), Err(EvalError::TypeError));
    assert_eq!(value("(cond ((quote t)))"), Err(EvalError::TypeError));
}

#[test]
fn defun_then_call() {
    let (env, v) = run(Environment::new(), "(defun dbl (x) (cons x (cons x (quote ()))))");
    assert_eq!(v, Ok(String::from("()")));
    assert!(env.find(&String::from("dbl")).is_some());
    let (_, v) = run(env, "(dbl (quote 5))");
    assert_eq!(v, Ok(String::from("(5 5)")));
}

#[test]
fn recursive_functions_terminate() {
    let last = "((label last (lambda (l) (cond ((eq (rest l) (quote ())) (first l)) \
                ((quote t) (last (rest l)))))) (quote (a b c)))";
    assert_eq!(value(last), Ok(String::from("c")));
    let (env, _) = run(
        Environment::new(),
        "(defun app (x y) (cond ((eq x (quote ())) y) \
         ((quote t) (cons (first x) (app (rest x) y)))))",
    );
    let (_, v) = run(env, "(app (quote (a b)) (quote (c d)))");
    assert_eq!(v, Ok(String::from("(a b c d)")));
}

#[test]
fn lambda_calls_and_computed_operators() {
    assert_eq!(
        value("((lambda (x) (cons x (quote (ab cd)))) (quote CONSME))"),
        Ok(String::from("(CONSME ab cd)"))
    );
    assert_eq!(
        value("((lambda (x y z) (cons y (cons z (cons x (quote (batman)))))) \
               (quote CONSME) (quote santa) (first (quote (10 20 30))))"),
        Ok(String::from("(santa 10 CONSME batman)"))
    );
    assert_eq!(
        value("((quote (lambda (x) (cons x (quote ())))) (quote k))"),
        Ok(String::from("(k)"))
    );
    assert_eq!(
        value("((lambduh (x) (cons x (quote ()))) (quote CONSME))"),
        Err(EvalError::NameNotFound)
    );
    assert_eq!(value("((quote (a b)) (quote k))"), Err(EvalError::TypeError));
}

#[test]
fn call_bindings_stay_local() {
    let (env, v) = run(Environment::new(), "((lambda (x) x) (quote in))");
    assert_eq!(v, Ok(String::from("in")));
    assert!(env.find(&String::from("x")).is_none());
    let (_, v) = run(env, "x");
    assert_eq!(v, Err(EvalError::NameNotFound));
}

#[test]
fn arity_and_type_failures() {
    assert_eq!(value("(quote 1 2)"), Err(EvalError::ArityError));
    assert_eq!(value("(first (quote a))"), Err(EvalError::TypeError));
    assert_eq!(value("(first (quote ()))"), Err(EvalError::TypeError));
    assert_eq!(value("(rest (quote a))"), Err(EvalError::TypeError));
    assert_eq!(value("(cons (quote 1) (quote a))"), Err(EvalError::TypeError));
    assert_eq!(value("(foo)"), Err(EvalError::NameNotFound));
    assert_eq!(value("(atom)"), Err(EvalError::ArityError));
    assert_eq!(value("(eq (quote a))"), Err(EvalError::ArityError));
    assert_eq!(value("((lambda (x) x))"), Err(EvalError::ArityError));
    assert_eq!(value("(defun f (x))"), Err(EvalError::ArityError));
    assert_eq!(value("(defun (f) (x) x)"), Err(EvalError::TypeError));
    assert_eq!(value("(defun f ((x)) x)"), Err(EvalError::TypeError));
}

#[test]
fn empty_list_and_symbols() {
    assert_eq!(value("()"), Ok(String::from("()")));
    let mut env = Environment::new();
    env.define(String::from("v"), atom("w"));
    let (_, v) = run(env, "v");
    assert_eq!(v, Ok(String::from("w")));
}

#[test]
fn argument_error_comes_first_left_to_right() {
    assert_eq!(
        value("((lambda (x y) x) (first (quote a)) unbound)"),
        Err(EvalError::TypeError)
    );
}

#[test]
fn function_literals_are_recognised() {
    let lam = read("(lambda (a b) (cons a b))").unwrap();
    let f = parse_func_literal(&lam).unwrap();
    assert_eq!(f.params, vec![String::from("a"), String::from("b")]);
    assert_eq!(f.body.render(), "(cons a b)");
    assert_eq!(f.sym, None);
    let lab = read("(label me (lambda (a) a))").unwrap();
    let f = parse_func_literal(&lab).unwrap();
    assert_eq!(f.sym, Some(String::from("me")));
    assert!(parse_func_literal(&read("(lambda (a (b)) a)").unwrap()).is_none());
    assert!(parse_func_literal(&read("(label (me) (lambda (a) a))").unwrap()).is_none());
    assert!(parse_func_literal(&read("(lambda a a)").unwrap()).is_none());
}

#[test]
fn environment_lookup_walks_enclosing_scopes() {
    let mut outer = Environment::new();
    outer.define(String::from("k"), atom("outer"));
    outer.define(String::from("j"), atom("old"));
    outer.define(String::from("j"), atom("new"));
    let mut inner = Environment::enclosed(outer);
    inner.define(String::from("m"), atom("inner"));
    assert_eq!(inner.find_copy(&String::from("k")), Some(atom("outer")));
    assert_eq!(inner.find_copy(&String::from("j")), Some(atom("new")));
    assert_eq!(inner.find_copy(&String::from("m")), Some(atom("inner")));
    assert_eq!(inner.find_copy(&String::from("z")), None);
    let ext = inner.extended(&vec![(String::from("k"), atom("shadow"))]);
    assert_eq!(ext.find_copy(&String::from("k")), Some(atom("shadow")));
    assert_eq!(inner.find_copy(&String::from("k")), Some(atom("outer")));
}
