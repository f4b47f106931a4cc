use vstd::prelude::*;
use crate::expr::{SExpr, nil, truth};
use crate::eval::{
    sem, sem_cond, sym, kw_quote, kw_atom, kw_eq, kw_first, kw_rest, kw_cons, kw_cond, kw_defun,
    kw_lambda, kw_label, Scope, EvalError,
};

verus! {

/// `(quote x)`.
pub open spec fn quote_of(x: SExpr) -> SExpr {
    SExpr::List(seq![sym(kw_quote()), x])
}

/// A form with one argument.
pub open spec fn form1(k: Seq<char>, a: SExpr) -> SExpr {
    SExpr::List(seq![sym(k), a])
}

/// A form with two arguments.
pub open spec fn form2(k: Seq<char>, a: SExpr, b: SExpr) -> SExpr {
    SExpr::List(seq![sym(k), a, b])
}

pub proof fn lemma_keywords_distinct()
    ensures
        kw_quote() != kw_atom(),
        kw_quote() != kw_eq(),
        kw_quote() != kw_first(),
        kw_quote() != kw_rest(),
        kw_quote() != kw_cons(),
        kw_quote() != kw_cond(),
        kw_quote() != kw_defun(),
        kw_quote() != kw_lambda(),
        kw_quote() != kw_label(),
        kw_atom() != kw_eq(),
        kw_atom() != kw_first(),
        kw_atom() != kw_rest(),
        kw_atom() != kw_cons(),
        kw_atom() != kw_cond(),
        kw_atom() != kw_defun(),
        kw_atom() != kw_lambda(),
        kw_atom() != kw_label(),
        kw_eq() != kw_first(),
        kw_eq() != kw_rest(),
        kw_eq() != kw_cons(),
        kw_eq() != kw_cond(),
        kw_eq() != kw_defun(),
        kw_eq() != kw_lambda(),
        kw_eq() != kw_label(),
        kw_first() != kw_rest(),
        kw_first() != kw_cons(),
        kw_first() != kw_cond(),
        kw_first() != kw_defun(),
        kw_first() != kw_lambda(),
        kw_first() != kw_label(),
        kw_rest() != kw_cons(),
        kw_rest() != kw_cond(),
        kw_rest() != kw_defun(),
        kw_rest() != kw_lambda(),
        kw_rest() != kw_label(),
        kw_cons() != kw_cond(),
        kw_cons() != kw_defun(),
        kw_cons() != kw_lambda(),
        kw_cons() != kw_label(),
        kw_cond() != kw_defun(),
        kw_cond() != kw_lambda(),
        kw_cond() != kw_label(),
        kw_defun() != kw_lambda(),
        kw_defun() != kw_label(),
        kw_lambda() != kw_label(),
{
    assert(kw_quote()[0] == 'q');
    assert(kw_quote()[1] == 'u');
    assert(kw_quote()[2] == 'o');
    assert(kw_quote()[3] == 't');
    assert(kw_quote()[4] == 'e');
    assert(kw_atom()[0] == 'a');
    assert(kw_atom()[1] == 't');
    assert(kw_atom()[2] == 'o');
    assert(kw_atom()[3] == 'm');
    assert(kw_eq()[0] == 'e');
    assert(kw_eq()[1] == 'q');
    assert(kw_first()[0] == 'f');
    assert(kw_first()[1] == 'i');
    assert(kw_first()[2] == 'r');
    assert(kw_first()[3] == 's');
    assert(kw_first()[4] == 't');
    assert(kw_rest()[0] == 'r');
    assert(kw_rest()[1] == 'e');
    assert(kw_rest()[2] == 's');
    assert(kw_rest()[3] == 't');
    assert(kw_cons()[0] == 'c');
    assert(kw_cons()[1] == 'o');
    assert(kw_cons()[2] == 'n');
    assert(kw_cons()[3] == 's');
    assert(kw_cond()[0] == 'c');
    assert(kw_cond()[1] == 'o');
    assert(kw_cond()[2] == 'n');
    assert(kw_cond()[3] == 'd');
    assert(kw_defun()[0] == 'd');
    assert(kw_defun()[1] == 'e');
    assert(kw_defun()[2] == 'f');
    assert(kw_defun()[3] == 'u');
    assert(kw_defun()[4] == 'n');
    assert(kw_lambda()[0] == 'l');
    assert(kw_lambda()[1] == 'a');
    assert(kw_lambda()[2] == 'm');
    assert(kw_lambda()[3] == 'b');
    assert(kw_lambda()[4] == 'd');
    assert(kw_lambda()[5] == 'a');
    assert(kw_label()[0] == 'l');
    assert(kw_label()[1] == 'a');
    assert(kw_label()[2] == 'b');
    assert(kw_label()[3] == 'e');
    assert(kw_label()[4] == 'l');
}

/// `quote` hands back its argument unevaluated, whatever the environment
/// binds.
pub proof fn lemma_quote(env: Scope, x: SExpr, fuel: nat)
    requires
        fuel >= 1,
    ensures
        sem(env, quote_of(x), fuel) == Ok::<(Scope, SExpr), EvalError>((env, x)),
{
}

/// `quote` with other than one argument is an arity error.
pub proof fn lemma_quote_arity(env: Scope, args: Seq<SExpr>, fuel: nat)
    requires
        fuel >= 1,
        args.len() != 1,
    ensures
        sem(env, SExpr::List(seq![sym(kw_quote())] + args), fuel) == Err::<(Scope, SExpr), EvalError>(
            EvalError::ArityError,
        ),
{
    let v = seq![sym(kw_quote())] + args;
    assert(v[0] == sym(kw_quote()));
    assert(v.len() == args.len() + 1);
}

/// `atom` of the empty list is `t`; `atom` of any other list is the empty
/// list; `atom` of an atom is `t`.
pub proof fn lemma_atom(env: Scope, x: SExpr, fuel: nat)
    requires
        fuel >= 2,
    ensures
        sem(env, form1(kw_atom(), quote_of(x)), fuel) == Ok::<(Scope, SExpr), EvalError>(
            (
                env,
                if x is Atom || x == nil() {
                    truth()
                } else {
                    nil()
                },
            ),
        ),
{
    lemma_keywords_distinct();
    lemma_quote(env, x, (fuel - 1) as nat);
}

/// `eq` holds of two equal atoms and of two empty lists, and never of two
/// lists of which one is not empty, even when they are equal.
pub proof fn lemma_eq(env: Scope, a: SExpr, b: SExpr, fuel: nat)
    requires
        fuel >= 2,
    ensures
        sem(env, form2(kw_eq(), quote_of(a), quote_of(b)), fuel) == Ok::<(Scope, SExpr), EvalError>(
            (
                env,
                if (a == nil() && b == nil()) || (a is Atom && a == b) {
                    truth()
                } else {
                    nil()
                },
            ),
        ),
        a is List && a != nil() ==> sem(env, form2(kw_eq(), quote_of(a), quote_of(b)), fuel)
            == Ok::<(Scope, SExpr), EvalError>((env, nil())),
{
    lemma_keywords_distinct();
    lemma_quote(env, a, (fuel - 1) as nat);
    lemma_quote(env, b, (fuel - 1) as nat);
}

/// Taking apart what `cons` built: `first` gives the new element and `rest`
/// the list it was put in front of.
pub proof fn lemma_first_rest_cons(env: Scope, x: SExpr, l: SExpr, fuel: nat)
    requires
        l is List,
        fuel >= 3,
    ensures
        sem(env, form1(kw_first(), form2(kw_cons(), quote_of(x), quote_of(l))), fuel) == Ok::<
            (Scope, SExpr),
            EvalError,
        >((env, x)),
        sem(env, form1(kw_rest(), form2(kw_cons(), quote_of(x), quote_of(l))), fuel) == Ok::<
            (Scope, SExpr),
            EvalError,
        >((env, l)),
{
    lemma_keywords_distinct();
    let f1 = (fuel - 1) as nat;
    let f2 = (fuel - 2) as nat;
    lemma_quote(env, x, f2);
    lemma_quote(env, l, f2);
    let c = form2(kw_cons(), quote_of(x), quote_of(l));
    let built = SExpr::List(seq![x] + l->List_0);
    assert(sem(env, c, f1) == Ok::<(Scope, SExpr), EvalError>((env, built)));
    assert((seq![x] + l->List_0).drop_first() =~= l->List_0);
}

/// The clauses from the `i`-th on, when no test among them is `t`.
pub open spec fn no_true_clause(v: Seq<SExpr>, i: int) -> bool {
    forall|j: int|
        i <= j < v.len() ==> #[trigger] v[j] is List && v[j]->List_0.len() == 2
            && v[j]->List_0[0] is List && v[j]->List_0[0]->List_0.len() == 2
            && v[j]->List_0[0]->List_0[0] == sym(kw_quote()) && v[j]->List_0[0]->List_0[1]
            != truth()
}

proof fn lemma_cond_rest(env: Scope, v: Seq<SExpr>, i: int, fuel: nat)
    requires
        1 <= i <= v.len(),
        fuel >= 1,
        no_true_clause(v, i),
    ensures
        sem_cond(env, v, i, fuel) == Ok::<(Scope, SExpr), EvalError>((env, nil())),
    decreases v.len() - i,
{
    if i < v.len() {
        let t = v[i]->List_0[0];
        assert(t == quote_of(t->List_0[1])) by {
            assert(t->List_0 =~= seq![sym(kw_quote()), t->List_0[1]]);
        }
        lemma_quote(env, t->List_0[1], fuel);
        lemma_cond_rest(env, v, i + 1, fuel);
    }
}

/// A `cond` whose clause tests are all quoted values other than `t`
/// evaluates to the empty list.
pub proof fn lemma_cond_none(env: Scope, clauses: Seq<SExpr>, fuel: nat)
    requires
        fuel >= 2,
        no_true_clause(clauses, 0),
    ensures
        sem(env, SExpr::List(seq![sym(kw_cond())] + clauses), fuel) == Ok::<(Scope, SExpr), EvalError>(
            (env, nil()),
        ),
{
    lemma_keywords_distinct();
    let v = seq![sym(kw_cond())] + clauses;
    assert(v[0] == sym(kw_cond()));
    assert forall|j: int| 1 <= j < v.len() implies #[trigger] v[j] == clauses[j - 1] by {}
    assert(no_true_clause(v, 1)) by {
        assert forall|j: int| 1 <= j < v.len() implies #[trigger] v[j] == clauses[j - 1] by {}
    }
    lemma_cond_rest(env, v, 1, (fuel - 1) as nat);
}

/// The first clause whose test is `t` gives the value of the `cond`, and
/// the clauses before it are passed over.
pub proof fn lemma_cond_first_true(env: Scope, skipped: Seq<char>, a: SExpr, b: SExpr, fuel: nat)
    requires
        fuel >= 2,
        SExpr::Atom(skipped) != truth(),
    ensures
        sem(
            env,
            SExpr::List(
                seq![
                    sym(kw_cond()),
                    SExpr::List(seq![quote_of(SExpr::Atom(skipped)), quote_of(a)]),
                    SExpr::List(seq![quote_of(truth()), quote_of(b)]),
                ],
            ),
            fuel,
        ) == Ok::<(Scope, SExpr), EvalError>((env, b)),
{
    lemma_keywords_distinct();
    let f1 = (fuel - 1) as nat;
    let v = seq![
        sym(kw_cond()),
        SExpr::List(seq![quote_of(SExpr::Atom(skipped)), quote_of(a)]),
        SExpr::List(seq![quote_of(truth()), quote_of(b)]),
    ];
    lemma_quote(env, SExpr::Atom(skipped), f1);
    lemma_quote(env, truth(), f1);
    lemma_quote(env, b, f1);
    assert(sem_cond(env, v, 3, f1) == Ok::<(Scope, SExpr), EvalError>((env, nil())));
    assert(sem_cond(env, v, 2, f1) == Ok::<(Scope, SExpr), EvalError>((env, b)));
}

} // verus!
