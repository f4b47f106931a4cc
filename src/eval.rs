use vstd::prelude::*;
use crate::tree::Tree;
use crate::expr::{
    Expr, SExpr, nil, truth, list_view, lemma_list_view, make_atom, make_nil, make_truth, is_symbol,
};
use crate::env::{Environment, frame_map, pairs_view};

verus! {

/// Why an evaluation failed.
#[derive(Debug, Clone, Copy, PartialEq, Eq, Structural)]
pub enum EvalError {
    /// A symbol used as a variable is bound nowhere in the environment.
    NameNotFound,
    /// A form or function was given the wrong number of arguments.
    ArityError,
    /// An operand has the wrong shape for the operation.
    TypeError,
    /// Evaluation nested deeper than the evaluator's depth budget.
    DepthExceeded,
}

/// The nesting budget of `eval`: larger than any call stack can hold.
pub const EVAL_DEPTH: u64 = 0xffff_ffff_ffff_ffff;

/// The bindings visible to an evaluation.
pub type Scope = Map<Seq<char>, SExpr>;

/// The environment and value an evaluation produces, or its error.
pub type Outcome = Result<(Scope, SExpr), EvalError>;

pub open spec fn kw_quote() -> Seq<char> { seq!['q', 'u', 'o', 't', 'e'] }
pub open spec fn kw_atom() -> Seq<char> { seq!['a', 't', 'o', 'm'] }
pub open spec fn kw_eq() -> Seq<char> { seq!['e', 'q'] }
pub open spec fn kw_first() -> Seq<char> { seq!['f', 'i', 'r', 's', 't'] }
pub open spec fn kw_rest() -> Seq<char> { seq!['r', 'e', 's', 't'] }
pub open spec fn kw_cons() -> Seq<char> { seq!['c', 'o', 'n', 's'] }
pub open spec fn kw_cond() -> Seq<char> { seq!['c', 'o', 'n', 'd'] }
pub open spec fn kw_defun() -> Seq<char> { seq!['d', 'e', 'f', 'u', 'n'] }
pub open spec fn kw_lambda() -> Seq<char> { seq!['l', 'a', 'm', 'b', 'd', 'a'] }
pub open spec fn kw_label() -> Seq<char> { seq!['l', 'a', 'b', 'e', 'l'] }

pub open spec fn sym(s: Seq<char>) -> SExpr {
    SExpr::Atom(s)
}

proof fn lemma_keywords()
    ensures
        "quote"@ == kw_quote(),
        "atom"@ == kw_atom(),
        "eq"@ == kw_eq(),
        "first"@ == kw_first(),
        "rest"@ == kw_rest(),
        "cons"@ == kw_cons(),
        "cond"@ == kw_cond(),
        "defun"@ == kw_defun(),
        "lambda"@ == kw_lambda(),
        "label"@ == kw_label(),
        "t"@ == seq!['t'],
{
    reveal_strlit("quote");
    reveal_strlit("atom");
    reveal_strlit("eq");
    reveal_strlit("first");
    reveal_strlit("rest");
    reveal_strlit("cons");
    reveal_strlit("cond");
    reveal_strlit("defun");
    reveal_strlit("lambda");
    reveal_strlit("label");
    reveal_strlit("t");
    assert("quote"@ =~= kw_quote());
    assert("atom"@ =~= kw_atom());
    assert("eq"@ =~= kw_eq());
    assert("first"@ =~= kw_first());
    assert("rest"@ =~= kw_rest());
    assert("cons"@ =~= kw_cons());
    assert("cond"@ =~= kw_cond());
    assert("defun"@ =~= kw_defun());
    assert("lambda"@ =~= kw_lambda());
    assert("label"@ =~= kw_label());
    assert("t"@ =~= seq!['t']);
}

/// A function recognised in an expression: its parameters, its body, and
/// the name it calls itself by, if it has one.
pub struct FuncSpec {
    pub params: Seq<Seq<char>>,
    pub body: SExpr,
    pub name: Option<Seq<char>>,
}

pub open spec fn all_atoms(s: Seq<SExpr>) -> bool {
    forall|j: int| 0 <= j < s.len() ==> (#[trigger] s[j]) is Atom
}

pub open spec fn atom_texts(s: Seq<SExpr>) -> Seq<Seq<char>> {
    s.map_values(|p: SExpr| p->Atom_0)
}

/// `(lambda (x1 .. xn) body)`.
pub open spec fn lambda_spec(e: SExpr) -> Option<FuncSpec> {
    match e {
        SExpr::List(v) => if v.len() == 3 && v[0] == sym(kw_lambda()) && v[1] is List && all_atoms(
            v[1]->List_0,
        ) {
            Some(FuncSpec { params: atom_texts(v[1]->List_0), body: v[2], name: None })
        } else {
            None
        },
        SExpr::Atom(_) => None,
    }
}

/// `(label name (lambda (x1 .. xn) body))`.
pub open spec fn label_spec(e: SExpr) -> Option<FuncSpec> {
    match e {
        SExpr::List(v) => if v.len() == 3 && v[0] == sym(kw_label()) && v[1] is Atom && lambda_spec(
            v[2],
        ) is Some {
            let f = lambda_spec(v[2])->Some_0;
            Some(FuncSpec { params: f.params, body: f.body, name: Some(v[1]->Atom_0) })
        } else {
            None
        },
        SExpr::Atom(_) => None,
    }
}

pub open spec fn func_literal_spec(e: SExpr) -> Option<FuncSpec> {
    match lambda_spec(e) {
        Some(f) => Some(f),
        None => label_spec(e),
    }
}

/// What `defun` binds its name to.
pub open spec fn defun_literal(name: SExpr, params: SExpr, body: SExpr) -> SExpr {
    SExpr::List(seq![sym(kw_label()), name, SExpr::List(seq![sym(kw_lambda()), params, body])])
}

pub open spec fn zip_frame(params: Seq<Seq<char>>, vals: Seq<SExpr>) -> Seq<(Seq<char>, SExpr)> {
    Seq::new(vals.len(), |j: int| (params[j], vals[j]))
}

pub open spec fn name_frame(f: FuncSpec, op: SExpr) -> Seq<(Seq<char>, SExpr)> {
    match f.name {
        Some(n) => seq![(n, op)],
        None => seq![],
    }
}

/// The bindings a call adds: the function's own name for the literal
/// `op`, then each parameter for its argument's value.
pub open spec fn call_frame(f: FuncSpec, op: SExpr, vals: Seq<SExpr>) -> Seq<(Seq<char>, SExpr)> {
    name_frame(f, op) + zip_frame(f.params, vals)
}

pub open spec fn prepend(p: Seq<SExpr>, r: Result<Seq<SExpr>, EvalError>) -> Result<
    Seq<SExpr>,
    EvalError,
> {
    match r {
        Err(x) => Err(x),
        Ok(s) => Ok(p + s),
    }
}

/// Evaluating `e` in `env` with at most `fuel` levels of nesting.
pub open spec fn sem(env: Scope, e: SExpr, fuel: nat) -> Outcome
    decreases fuel, 0nat,
{
    if fuel == 0 {
        Err(EvalError::DepthExceeded)
    } else {
        let f = (fuel - 1) as nat;
        match e {
            SExpr::Atom(s) => if env.contains_key(s) {
                Ok((env, env[s]))
            } else {
                Err(EvalError::NameNotFound)
            },
            SExpr::List(v) => if v.len() == 0 {
                Ok((env, nil()))
            } else if v[0] == sym(kw_quote()) {
                if v.len() != 2 {
                    Err(EvalError::ArityError)
                } else {
                    Ok((env, v[1]))
                }
            } else if v[0] == sym(kw_atom()) {
                sem_atom(env, v, f)
            } else if v[0] == sym(kw_eq()) {
                sem_eq(env, v, f)
            } else if v[0] == sym(kw_first()) {
                sem_first(env, v, f)
            } else if v[0] == sym(kw_rest()) {
                sem_rest(env, v, f)
            } else if v[0] == sym(kw_cons()) {
                sem_cons(env, v, f)
            } else if v[0] == sym(kw_cond()) {
                sem_cond(env, v, 1, f)
            } else if v[0] == sym(kw_defun()) {
                sem_defun(env, v)
            } else {
                sem_call(env, v, f)
            },
        }
    }
}

pub open spec fn sem_atom(env: Scope, v: Seq<SExpr>, fuel: nat) -> Outcome
    decreases fuel, 1nat,
{
    if v.len() != 2 {
        Err(EvalError::ArityError)
    } else {
        match sem(env, v[1], fuel) {
            Err(x) => Err(x),
            Ok((_, x)) => Ok(
                (
                    env,
                    if x is Atom || x == nil() {
                        truth()
                    } else {
                        nil()
                    },
                ),
            ),
        }
    }
}

pub open spec fn sem_eq(env: Scope, v: Seq<SExpr>, fuel: nat) -> Outcome
    decreases fuel, 1nat,
{
    if v.len() != 3 {
        Err(EvalError::ArityError)
    } else {
        match sem(env, v[1], fuel) {
            Err(x) => Err(x),
            Ok((_, a)) => match sem(env, v[2], fuel) {
                Err(x) => Err(x),
                Ok((_, b)) => Ok(
                    (
                        env,
                        if (a == nil() && b == nil()) || (a is Atom && b is Atom && a == b) {
                            truth()
                        } else {
                            nil()
                        },
                    ),
                ),
            },
        }
    }
}

pub open spec fn sem_first(env: Scope, v: Seq<SExpr>, fuel: nat) -> Outcome
    decreases fuel, 1nat,
{
    if v.len() != 2 {
        Err(EvalError::ArityError)
    } else {
        match sem(env, v[1], fuel) {
            Err(x) => Err(x),
            Ok((_, x)) => if x is List && x->List_0.len() > 0 {
                Ok((env, x->List_0[0]))
            } else {
                Err(EvalError::TypeError)
            },
        }
    }
}

pub open spec fn sem_rest(env: Scope, v: Seq<SExpr>, fuel: nat) -> Outcome
    decreases fuel, 1nat,
{
    if v.len() != 2 {
        Err(EvalError::ArityError)
    } else {
        match sem(env, v[1], fuel) {
            Err(x) => Err(x),
            Ok((_, x)) => if x is List && x->List_0.len() > 0 {
                Ok((env, SExpr::List(x->List_0.drop_first())))
            } else {
                Err(EvalError::TypeError)
            },
        }
    }
}

pub open spec fn sem_cons(env: Scope, v: Seq<SExpr>, fuel: nat) -> Outcome
    decreases fuel, 1nat,
{
    if v.len() != 3 {
        Err(EvalError::ArityError)
    } else {
        match sem(env, v[1], fuel) {
            Err(x) => Err(x),
            Ok((_, a)) => match sem(env, v[2], fuel) {
                Err(x) => Err(x),
                Ok((_, b)) => if b is List {
                    Ok((env, SExpr::List(seq![a] + b->List_0)))
                } else {
                    Err(EvalError::TypeError)
                },
            },
        }
    }
}

/// The clauses of a `cond` from the `i`-th on.
pub open spec fn sem_cond(env: Scope, v: Seq<SExpr>, i: int, fuel: nat) -> Outcome
    decreases fuel, (v.len() - i) as nat + 1,
{
    if i < 1 || i >= v.len() {
        Ok((env, nil()))
    } else if !(v[i] is List && v[i]->List_0.len() == 2) {
        Err(EvalError::TypeError)
    } else {
        let c = v[i]->List_0;
        match sem(env, c[0], fuel) {
            Err(x) => Err(x),
            Ok((_, t)) => if t == truth() {
                sem(env, c[1], fuel)
            } else {
                sem_cond(env, v, i + 1, fuel)
            },
        }
    }
}

pub open spec fn sem_defun(env: Scope, v: Seq<SExpr>) -> Outcome {
    if v.len() != 4 {
        Err(EvalError::ArityError)
    } else if !(v[1] is Atom) {
        Err(EvalError::TypeError)
    } else if !(v[2] is List && all_atoms(v[2]->List_0)) {
        Err(EvalError::TypeError)
    } else {
        Ok((env.insert(v[1]->Atom_0, defun_literal(v[1], v[2], v[3])), nil()))
    }
}

/// The values of the arguments from the `i`-th on, left to right.
pub open spec fn sem_args(env: Scope, v: Seq<SExpr>, i: int, fuel: nat) -> Result<
    Seq<SExpr>,
    EvalError,
>
    decreases fuel, (v.len() - i) as nat + 1,
{
    if i < 0 || i >= v.len() {
        Ok(seq![])
    } else {
        match sem(env, v[i], fuel) {
            Err(x) => Err(x),
            Ok((_, a)) => prepend(seq![a], sem_args(env, v, i + 1, fuel)),
        }
    }
}

/// The function literal a call's head stands for: the head itself when it is
/// one, else what it evaluates to.
pub open spec fn sem_operator(env: Scope, head: SExpr, fuel: nat) -> Result<SExpr, EvalError>
    decreases fuel, 1nat,
{
    if func_literal_spec(head) is Some {
        Ok(head)
    } else {
        match sem(env, head, fuel) {
            Err(x) => Err(x),
            Ok((_, h)) => if func_literal_spec(h) is Some {
                Ok(h)
            } else {
                Err(EvalError::TypeError)
            },
        }
    }
}

pub open spec fn sem_call(env: Scope, v: Seq<SExpr>, fuel: nat) -> Outcome
    decreases fuel, v.len() + 2,
{
    if v.len() == 0 {
        Err(EvalError::TypeError)
    } else {
        match sem_operator(env, v[0], fuel) {
            Err(x) => Err(x),
            Ok(op) => {
                let f = func_literal_spec(op)->Some_0;
                if f.params.len() + 1 != v.len() {
                    Err(EvalError::ArityError)
                } else {
                    match sem_args(env, v, 1, fuel) {
                        Err(x) => Err(x),
                        Ok(vals) => match sem(
                            env.union_prefer_right(frame_map(call_frame(f, op, vals))),
                            f.body,
                            fuel,
                        ) {
                            Err(x) => Err(x),
                            Ok((_, r)) => Ok((env, r)),
                        },
                    }
                }
            },
        }
    }
}

pub open spec fn outcome(r: Result<(Environment, Expr), EvalError>) -> Outcome {
    match r {
        Ok((e, x)) => Ok((e@, x@)),
        Err(x) => Err(x),
    }
}

/// A function recognised in an expression, as `FuncSpec` describes it.
pub struct FuncLiteral {
    pub params: Vec<String>,
    pub body: Expr,
    /// Present for `label`, absent for `lambda`.
    pub sym: Option<String>,
}

impl View for FuncLiteral {
    type V = FuncSpec;

    open spec fn view(&self) -> FuncSpec {
        FuncSpec {
            params: self.params@.map_values(|s: String| s@),
            body: self.body@,
            name: match self.sym {
                Some(s) => Some(s@),
                None => None,
            },
        }
    }
}

pub open spec fn literal_view(r: Option<FuncLiteral>) -> Option<FuncSpec> {
    match r {
        Some(f) => Some(f@),
        None => None,
    }
}

/// Recognises `(lambda (x1 .. xn) body)` without evaluating it.
pub fn parse_lambda_literal(expr: &Expr) -> (r: Option<FuncLiteral>)
    ensures
        literal_view(r) == lambda_spec(expr@),
{
    proof {
        lemma_keywords();
    }
    match expr {
        Tree::Leaf(_) => None,
        Tree::Branch(vec) => {
            proof {
                lemma_list_view(*vec);
            }
            if vec.len() != 3 || !vec[1].is_list() || !is_symbol("lambda", &vec[0]) {
                return None;
            }
            let params = vec[1].get_ref_branch();
            let ghost pv = list_view(params@);
            proof {
                lemma_list_view(*params);
            }
            let mut plist: Vec<String> = Vec::new();
            let mut i: usize = 0;
            let ghost spec_result = lambda_spec(expr@);
            assert(spec_result == if all_atoms(pv) {
                Some(FuncSpec { params: atom_texts(pv), body: vec[2]@, name: None })
            } else {
                None
            });
            while i < params.len()
                invariant
                    spec_result == lambda_spec(expr@),
                    spec_result == if all_atoms(pv) {
                        Some(FuncSpec { params: atom_texts(pv), body: vec[2]@, name: None })
                    } else {
                        None
                    },
                    i <= params.len(),
                    pv == list_view(params@),
                    plist.len() == i,
                    forall|j: int| 0 <= j < i ==> (#[trigger] pv[j]) is Atom,
                    forall|j: int| 0 <= j < i ==> #[trigger] plist@[j]@ == pv[j]->Atom_0,
                decreases params.len() - i,
            {
                match &params[i] {
                    Tree::Leaf(s) => {
                        plist.push(s.clone());
                    },
                    Tree::Branch(_) => {
                        assert(pv[i as int] is List);
                        return None;
                    },
                }
                i = i + 1;
            }
            let r = FuncLiteral { params: plist, body: vec[2].copy(), sym: None };
            assert(r@.params =~= atom_texts(pv));
            Some(r)
        },
    }
}

/// Recognises `(label name (lambda (x1 .. xn) body))` without evaluating it.
pub fn parse_label_literal(expr: &Expr) -> (r: Option<FuncLiteral>)
    ensures
        literal_view(r) == label_spec(expr@),
{
    proof {
        lemma_keywords();
    }
    match expr {
        Tree::Leaf(_) => None,
        Tree::Branch(vec) => {
            proof {
                lemma_list_view(*vec);
            }
            if vec.len() != 3 || !vec[1].is_atom() || !is_symbol("label", &vec[0]) {
                return None;
            }
            match parse_lambda_literal(&vec[2]) {
                None => None,
                Some(func) => {
                    let FuncLiteral { params, body, sym: _ } = func;
                    Some(FuncLiteral { params, body, sym: Some(vec[1].get_ref_leaf().clone()) })
                },
            }
        },
    }
}

/// Recognises a `lambda` or `label` literal without evaluating it.
pub fn parse_func_literal(expr: &Expr) -> (r: Option<FuncLiteral>)
    ensures
        literal_view(r) == func_literal_spec(expr@),
{
    let lambda = parse_lambda_literal(expr);
    if lambda.is_none() {
        parse_label_literal(expr)
    } else {
        lambda
    }
}

/// Whether every element is an atom.
fn all_leaves(v: &Vec<Expr>) -> (r: bool)
    ensures
        r == all_atoms(list_view(v@)),
{
    let mut i: usize = 0;
    while i < v.len()
        invariant
            i <= v.len(),
            forall|j: int| 0 <= j < i ==> (#[trigger] list_view(v@)[j]) is Atom,
        decreases v.len() - i,
    {
        if !v[i].is_atom() {
            assert(list_view(v@)[i as int] is List);
            return false;
        }
        i = i + 1;
    }
    true
}

/// Evaluates `expr` in `env` with at most `fuel` levels of nesting.
fn eval_at(env: Environment, expr: &Expr, fuel: u64) -> (r: Result<(Environment, Expr), EvalError>)
    ensures
        outcome(r) == sem(env@, expr@, fuel as nat),
    decreases fuel, 0nat,
{
    if fuel == 0 {
        return Err(EvalError::DepthExceeded);
    }
    let f = fuel - 1;
    match expr {
        Tree::Leaf(s) => match env.find_copy(s) {
            Some(v) => Ok((env, v)),
            None => Err(EvalError::NameNotFound),
        },
        Tree::Branch(vec) => {
            proof {
                lemma_list_view(*vec);
                lemma_keywords();
            }
            if vec.len() == 0 {
                return Ok((env, make_nil()));
            }
            let head = &vec[0];
            if is_symbol("quote", head) {
                if vec.len() != 2 {
                    Err(EvalError::ArityError)
                } else {
                    Ok((env, vec[1].copy()))
                }
            } else if is_symbol("atom", head) {
                eval_atom(env, vec, f)
            } else if is_symbol("eq", head) {
                eval_eq(env, vec, f)
            } else if is_symbol("first", head) {
                eval_first(env, vec, f)
            } else if is_symbol("rest", head) {
                eval_rest(env, vec, f)
            } else if is_symbol("cons", head) {
                eval_cons(env, vec, f)
            } else if is_symbol("cond", head) {
                eval_cond(env, vec, f)
            } else if is_symbol("defun", head) {
                eval_defun(env, vec)
            } else {
                eval_func_call(env, vec, f)
            }
        },
    }
}

/// Evaluates `expr` in `env`. The returned environment is the one to
/// evaluate the next top-level expression in: it holds what `defun` added.
pub fn eval(env: Environment, expr: Expr) -> (r: Result<(Environment, Expr), EvalError>)
    ensures
        outcome(r) == sem(env@, expr@, EVAL_DEPTH as nat),
{
    eval_at(env, &expr, EVAL_DEPTH)
}

fn eval_atom(env: Environment, vec: &Vec<Expr>, fuel: u64) -> (r: Result<(Environment, Expr), EvalError>)
    ensures
        outcome(r) == sem_atom(env@, list_view(vec@), fuel as nat),
    decreases fuel, 1nat,
{
    if vec.len() != 2 {
        return Err(EvalError::ArityError);
    }
    let val = match eval_at(env.copy(), &vec[1], fuel) {
        Err(x) => return Err(x),
        Ok((_, v)) => v,
    };
    if val.is_atom() || val.is_empty_list() {
        Ok((env, make_truth()))
    } else {
        Ok((env, make_nil()))
    }
}

fn eval_eq(env: Environment, vec: &Vec<Expr>, fuel: u64) -> (r: Result<(Environment, Expr), EvalError>)
    ensures
        outcome(r) == sem_eq(env@, list_view(vec@), fuel as nat),
    decreases fuel, 1nat,
{
    if vec.len() != 3 {
        return Err(EvalError::ArityError);
    }
    let val1 = match eval_at(env.copy(), &vec[1], fuel) {
        Err(x) => return Err(x),
        Ok((_, v)) => v,
    };
    let val2 = match eval_at(env.copy(), &vec[2], fuel) {
        Err(x) => return Err(x),
        Ok((_, v)) => v,
    };
    let same_atoms = match (&val1, &val2) {
        (Tree::Leaf(a), Tree::Leaf(b)) => *a == *b,
        _ => false,
    };
    if (val1.is_empty_list() && val2.is_empty_list()) || same_atoms {
        Ok((env, make_truth()))
    } else {
        Ok((env, make_nil()))
    }
}

fn eval_first(env: Environment, vec: &Vec<Expr>, fuel: u64) -> (r: Result<(Environment, Expr), EvalError>)
    ensures
        outcome(r) == sem_first(env@, list_view(vec@), fuel as nat),
    decreases fuel, 1nat,
{
    if vec.len() != 2 {
        return Err(EvalError::ArityError);
    }
    let val = match eval_at(env.copy(), &vec[1], fuel) {
        Err(x) => return Err(x),
        Ok((_, v)) => v,
    };
    if val.is_list() && !val.is_empty_list() {
        let ghost v0 = val;
        let list = val.unwrap_branch();
        proof {
            assert(v0 == Tree::Branch(list));
            lemma_list_view(list);
            assert(list.len() > 0) by {
                if list.len() == 0 {
                    assert(list_view(list@) =~= Seq::<SExpr>::empty());
                }
            }
        }
        let first = list[0].copy();
        Ok((env, first))
    } else {
        Err(EvalError::TypeError)
    }
}

fn eval_rest(env: Environment, vec: &Vec<Expr>, fuel: u64) -> (r: Result<(Environment, Expr), EvalError>)
    ensures
        outcome(r) == sem_rest(env@, list_view(vec@), fuel as nat),
    decreases fuel, 1nat,
{
    if vec.len() != 2 {
        return Err(EvalError::ArityError);
    }
    let val = match eval_at(env.copy(), &vec[1], fuel) {
        Err(x) => return Err(x),
        Ok((_, v)) => v,
    };
    if val.is_list() && !val.is_empty_list() {
        let ghost v0 = val;
        let mut list = val.unwrap_branch();
        let ghost before = list_view(list@);
        proof {
            assert(v0 == Tree::Branch(list));
            lemma_list_view(list);
            assert(list.len() > 0) by {
                if list.len() == 0 {
                    assert(list_view(list@) =~= Seq::<SExpr>::empty());
                }
            }
        }
        list.remove(0);
        let r = Tree::Branch(list);
        proof {
            lemma_list_view(list);
            assert(list_view(list@) =~= before.drop_first());
        }
        Ok((env, r))
    } else {
        Err(EvalError::TypeError)
    }
}

fn eval_cons(env: Environment, vec: &Vec<Expr>, fuel: u64) -> (r: Result<(Environment, Expr), EvalError>)
    ensures
        outcome(r) == sem_cons(env@, list_view(vec@), fuel as nat),
    decreases fuel, 1nat,
{
    if vec.len() != 3 {
        return Err(EvalError::ArityError);
    }
    let val1 = match eval_at(env.copy(), &vec[1], fuel) {
        Err(x) => return Err(x),
        Ok((_, v)) => v,
    };
    let val2 = match eval_at(env.copy(), &vec[2], fuel) {
        Err(x) => return Err(x),
        Ok((_, v)) => v,
    };
    if val2.is_list() {
        let mut list = val2.unwrap_branch();
        let ghost before = list_view(list@);
        let ghost head = val1@;
        proof {
            lemma_list_view(list);
        }
        list.insert(0, val1);
        let r = Tree::Branch(list);
        proof {
            lemma_list_view(list);
            assert(list_view(list@) =~= seq![head] + before);
        }
        Ok((env, r))
    } else {
        Err(EvalError::TypeError)
    }
}

fn eval_cond(env: Environment, vec: &Vec<Expr>, fuel: u64) -> (r: Result<(Environment, Expr), EvalError>)
    ensures
        outcome(r) == sem_cond(env@, list_view(vec@), 1, fuel as nat),
    decreases fuel, 1nat,
{
    let ghost lv = list_view(vec@);
    let ghost e0 = env@;
    let mut i: usize = 1;
    while i < vec.len()
        invariant
            1 <= i,
            lv == list_view(vec@),
            env@ == e0,
            sem_cond(e0, lv, 1, fuel as nat) == sem_cond(e0, lv, i as int, fuel as nat),
        decreases vec.len() - i,
    {
        match &vec[i] {
            Tree::Leaf(_) => {
                return Err(EvalError::TypeError);
            },
            Tree::Branch(clause) => {
                proof {
                    lemma_list_view(*clause);
                    lemma_keywords();
                }
                if clause.len() != 2 {
                    return Err(EvalError::TypeError);
                }
                let test = match eval_at(env.copy(), &clause[0], fuel) {
                    Err(x) => return Err(x),
                    Ok((_, t)) => t,
                };
                if is_symbol("t", &test) {
                    return eval_at(env, &clause[1], fuel);
                }
            },
        }
        i = i + 1;
    }
    Ok((env, make_nil()))
}

fn eval_defun(env: Environment, vec: &Vec<Expr>) -> (r: Result<(Environment, Expr), EvalError>)
    ensures
        outcome(r) == sem_defun(env@, list_view(vec@)),
{
    if vec.len() != 4 {
        return Err(EvalError::ArityError);
    }
    if !vec[1].is_atom() {
        return Err(EvalError::TypeError);
    }
    match &vec[2] {
        Tree::Leaf(_) => {
            return Err(EvalError::TypeError);
        },
        Tree::Branch(ps) => {
            proof {
                lemma_list_view(*ps);
            }
            if !all_leaves(ps) {
                return Err(EvalError::TypeError);
            }
        },
    }
    let name = vec[1].get_ref_leaf().clone();
    let lambda_expr = Tree::Branch(vec![make_atom("lambda"), vec[2].copy(), vec[3].copy()]);
    let ghost lam = lambda_expr;
    let label_expr = Tree::Branch(vec![make_atom("label"), vec[1].copy(), lambda_expr]);
    proof {
        lemma_keywords();
        let lv = list_view(vec@);
        assert(lam@->List_0 =~= seq![sym(kw_lambda()), lv[2], lv[3]]);
        assert(label_expr@->List_0 =~= seq![sym(kw_label()), lv[1], lam@]);
        assert(label_expr@ == defun_literal(lv[1], lv[2], lv[3]));
    }
    let mut e = env;
    e.define(name, label_expr);
    Ok((e, make_nil()))
}

fn eval_func_call(env: Environment, vec: &Vec<Expr>, fuel: u64) -> (r: Result<
    (Environment, Expr),
    EvalError,
>)
    ensures
        outcome(r) == sem_call(env@, list_view(vec@), fuel as nat),
    decreases fuel, 1nat,
{
    let ghost lv = list_view(vec@);
    if vec.len() == 0 {
        return Err(EvalError::TypeError);
    }
    let head = &vec[0];
    let (op, func) = match parse_func_literal(head) {
        Some(func) => (head.copy(), func),
        None => match eval_at(env.copy(), head, fuel) {
            Err(x) => return Err(x),
            Ok((_, h)) => match parse_func_literal(&h) {
                Some(func) => (h, func),
                None => return Err(EvalError::TypeError),
            },
        },
    };
    let ghost fs = func@;
    let ghost opv = op@;
    assert(sem_operator(env@, lv[0], fuel as nat) == Ok::<SExpr, EvalError>(opv));
    assert(fs == func_literal_spec(opv)->Some_0);
    let FuncLiteral { params, body, sym } = func;
    if params.len() != vec.len() - 1 {
        return Err(EvalError::ArityError);
    }
    let mut binds: Vec<(String, Expr)> = Vec::new();
    match sym {
        Some(n) => {
            binds.push((n, op));
        },
        None => {},
    }
    let ghost nf = pairs_view(binds@);
    assert(nf =~= name_frame(fs, opv));
    let ghost mut vals: Seq<SExpr> = seq![];
    let mut i: usize = 1;
    assert(zip_frame(fs.params, vals) =~= Seq::<(Seq<char>, SExpr)>::empty());
    assert(pairs_view(binds@) =~= nf + zip_frame(fs.params, vals));
    assert(vals + sem_args(env@, lv, 1, fuel as nat)->Ok_0 =~= sem_args(env@, lv, 1, fuel as nat)->Ok_0);
    while i < vec.len()
        invariant
            1 <= i <= vec.len(),
            params.len() + 1 == vec.len(),
            lv == list_view(vec@),
            sem_operator(env@, lv[0], fuel as nat) == Ok::<SExpr, EvalError>(opv),
            fs == func_literal_spec(opv)->Some_0,
            fs.params == params@.map_values(|s: String| s@),
            vals.len() == i - 1,
            pairs_view(binds@) == nf + zip_frame(fs.params, vals),
            sem_args(env@, lv, 1, fuel as nat) == prepend(vals, sem_args(env@, lv, i as int, fuel as nat)),
        decreases vec.len() - i,
    {
        let a = match eval_at(env.copy(), &vec[i], fuel) {
            Err(x) => return Err(x),
            Ok((_, a)) => a,
        };
        let ghost before = pairs_view(binds@);
        let ghost old_vals = vals;
        proof {
            vals = vals.push(a@);
            assert(old_vals + (seq![a@] + sem_args(env@, lv, i + 1, fuel as nat)->Ok_0) =~= vals
                + sem_args(env@, lv, i + 1, fuel as nat)->Ok_0);
        }
        let p = params[i - 1].clone();
        binds.push((p, a));
        proof {
            assert(zip_frame(fs.params, vals) =~= zip_frame(fs.params, old_vals).push(
                (fs.params[i - 1], a@),
            ));
            assert(pairs_view(binds@) =~= before.push((fs.params[i - 1], a@)));
            assert(pairs_view(binds@) =~= nf + zip_frame(fs.params, vals));
        }
        i = i + 1;
    }
    proof {
        assert(vals + seq![] =~= vals);
    }
    let new_env = env.extended(&binds);
    match eval_at(new_env, &body, fuel) {
        Err(x) => Err(x),
        Ok((_, v)) => Ok((env, v)),
    }
}

} // verus!
