use vstd::prelude::*;
use vstd::string::*;
use crate::tree::Tree;
use crate::expr::{Expr, SExpr, list_view, lemma_list_view};
use crate::reader::{
    is_delim, is_paren, is_space_spec, flush, tokens_from, tokens_of, open_tok, close_tok, parse_expr,
    parse_items, read_spec, SyntaxError,
};

verus! {

/// The text of an expression: an atom as its token, a list as its elements
/// separated by single spaces between parentheses.
pub open spec fn render_spec(e: SExpr) -> Seq<char>
    decreases e,
{
    match e {
        SExpr::Atom(s) => s,
        SExpr::List(v) => seq!['('] + render_items(v) + seq![')'],
    }
}

pub open spec fn render_items(v: Seq<SExpr>) -> Seq<char>
    decreases v,
{
    if v.len() == 0 {
        seq![]
    } else if v.len() == 1 {
        render_spec(v[0])
    } else {
        render_spec(v[0]) + seq![' '] + render_items(v.subrange(1, v.len() as int))
    }
}

fn render_from(v: &Vec<Expr>, i: usize) -> (r: String)
    requires
        i <= v.len(),
    ensures
        r@ == render_items(list_view(v@).subrange(i as int, v.len() as int)),
    decreases *v, v.len() - i,
{
    let ghost sub = list_view(v@).subrange(i as int, v.len() as int);
    if i == v.len() {
        return String::new();
    }
    proof {
        vstd::std_specs::vec::axiom_vec_index_decreases(*v, i as int);
        assert(sub.subrange(1, sub.len() as int) =~= list_view(v@).subrange(i + 1, v.len() as int));
    }
    let mut r = v[i].render();
    if i + 1 < v.len() {
        r.append(" ");
        let rest = render_from(v, i + 1);
        r.append(rest.as_str());
        proof {
            reveal_strlit(" ");
            assert(" "@ =~= seq![' ']);
        }
    }
    r
}

impl Tree<String> {
    /// The expression as text that reads back as the same expression.
    pub fn render(&self) -> (r: String)
        ensures
            r@ == render_spec(self@),
        decreases self, 0nat,
    {
        match self {
            Tree::Leaf(s) => s.clone(),
            Tree::Branch(v) => {
                proof {
                    assert(decreases_to!(*self => (*self)->Branch_0));
                    lemma_list_view(*v);
                    assert(list_view(v@).subrange(0, v.len() as int) =~= list_view(v@));
                    reveal_strlit("(");
                    reveal_strlit(")");
                    assert("("@ =~= seq!['(']);
                    assert(")"@ =~= seq![')']);
                }
                let mut r = String::from_str("(");
                let items = render_from(v, 0);
                r.append(items.as_str());
                r.append(")");
                r
            },
        }
    }
}

/// Text that reads as one atom: not empty, with no white space or parenthesis.
pub open spec fn token_text(s: Seq<char>) -> bool {
    s.len() > 0 && forall|i: int| 0 <= i < s.len() ==> !is_delim(#[trigger] s[i])
}

/// Every atom of `e` reads as one atom.
pub open spec fn well_formed(e: SExpr) -> bool
    decreases e,
{
    match e {
        SExpr::Atom(s) => token_text(s),
        SExpr::List(v) => forall|i: int| 0 <= i < v.len() ==> well_formed(#[trigger] v[i]),
    }
}

/// The tokens of an expression's text.
pub open spec fn flat(e: SExpr) -> Seq<Seq<char>>
    decreases e,
{
    match e {
        SExpr::Atom(s) => seq![s],
        SExpr::List(v) => seq![open_tok()] + flat_items(v) + seq![close_tok()],
    }
}

pub open spec fn flat_items(v: Seq<SExpr>) -> Seq<Seq<char>>
    decreases v,
{
    if v.len() == 0 {
        seq![]
    } else {
        flat(v[0]) + flat_items(v.subrange(1, v.len() as int))
    }
}

proof fn lemma_tokens_absorb(a: Seq<char>, s: Seq<char>, cur: Seq<char>)
    requires
        forall|i: int| 0 <= i < a.len() ==> !is_delim(#[trigger] a[i]),
    ensures
        tokens_from(a + s, cur) == tokens_from(s, cur + a),
    decreases a.len(),
{
    if a.len() == 0 {
        assert(a + s =~= s);
        assert(cur + a =~= cur);
    } else {
        assert((a + s)[0] == a[0]);
        assert((a + s).drop_first() =~= a.drop_first() + s);
        assert(!is_delim(a[0]));
        assert forall|i: int| 0 <= i < a.drop_first().len() implies !is_delim(
            #[trigger] a.drop_first()[i],
        ) by {
            assert(a.drop_first()[i] == a[i + 1]);
        }
        lemma_tokens_absorb(a.drop_first(), s, cur.push(a[0]));
        assert(cur.push(a[0]) + a.drop_first() =~= cur + a);
    }
}

proof fn lemma_tokens_cut(s: Seq<char>, cur: Seq<char>)
    requires
        cur.len() > 0,
        s.len() == 0 || is_delim(s[0]),
    ensures
        tokens_from(s, cur) == seq![cur] + tokens_from(s, seq![]),
{
    let e = Seq::<char>::empty();
    assert(flush(e) =~= Seq::<Seq<char>>::empty());
    if s.len() == 0 {
        assert(seq![cur] + flush(e) =~= seq![cur]);
    } else if is_paren(s[0]) {
        let t = tokens_from(s.drop_first(), seq![]);
        assert(flush(cur) + seq![seq![s[0]]] + t =~= seq![cur] + (flush(e) + seq![seq![s[0]]]
            + t));
    } else {
        let t = tokens_from(s.drop_first(), seq![]);
        assert(flush(cur) + t =~= seq![cur] + (flush(e) + t));
    }
}

proof fn lemma_tokens_render(e: SExpr, s: Seq<char>)
    requires
        well_formed(e),
        s.len() == 0 || is_delim(s[0]),
    ensures
        tokens_from(render_spec(e) + s, seq![]) == flat(e) + tokens_from(s, seq![]),
    decreases e,
{
    let empty = Seq::<char>::empty();
    assert(flush(empty) =~= Seq::<Seq<char>>::empty());
    match e {
        SExpr::Atom(a) => {
            lemma_tokens_absorb(a, s, empty);
            assert(empty + a =~= a);
            lemma_tokens_cut(s, a);
        },
        SExpr::List(v) => {
            let t = seq![')'] + s;
            let x = render_items(v) + t;
            assert(render_spec(e) + s =~= seq!['('] + x);
            assert((seq!['('] + x)[0] == '(');
            assert((seq!['('] + x).drop_first() =~= x);
            lemma_tokens_items(v, t);
            assert(t[0] == ')');
            assert(t.drop_first() =~= s);
            let ts = tokens_from(s, seq![]);
            assert(tokens_from(t, seq![]) == flush(empty) + seq![seq![')']] + ts);
            assert(tokens_from(seq!['('] + x, seq![]) == flush(empty) + seq![seq!['(']]
                + tokens_from(x, seq![]));
            assert(seq!['('] =~= open_tok());
            assert(seq![')'] =~= close_tok());
            assert(flush(empty) + seq![seq!['(']] + (flat_items(v) + (flush(empty) + seq![
                seq![')'],
            ] + ts)) =~= flat(e) + ts);
        },
    }
}

proof fn lemma_tokens_items(v: Seq<SExpr>, t: Seq<char>)
    requires
        forall|i: int| 0 <= i < v.len() ==> well_formed(#[trigger] v[i]),
        t.len() > 0,
        is_delim(t[0]),
    ensures
        tokens_from(render_items(v) + t, seq![]) == flat_items(v) + tokens_from(t, seq![]),
    decreases v,
{
    let tt = tokens_from(t, seq![]);
    if v.len() == 0 {
        assert(render_items(v) + t =~= t);
        assert(flat_items(v) + tt =~= tt);
    } else if v.len() == 1 {
        lemma_tokens_render(v[0], t);
        assert(v.subrange(1, 1) =~= Seq::<SExpr>::empty());
        assert(flat_items(v.subrange(1, 1)) == Seq::<Seq<char>>::empty());
        assert(flat_items(v) =~= flat(v[0]));
    } else {
        let rest = v.subrange(1, v.len() as int);
        let y = seq![' '] + (render_items(rest) + t);
        assert(render_items(v) + t =~= render_spec(v[0]) + y);
        assert(y[0] == ' ');
        assert(is_space_spec(' '));
        lemma_tokens_render(v[0], y);
        assert(y.drop_first() =~= render_items(rest) + t);
        let empty = Seq::<char>::empty();
        assert(flush(empty) =~= Seq::<Seq<char>>::empty());
        assert(tokens_from(y, seq![]) == flush(empty) + tokens_from(render_items(rest) + t, seq![]));
        assert forall|i: int| 0 <= i < rest.len() implies well_formed(#[trigger] rest[i]) by {
            assert(rest[i] == v[i + 1]);
        }
        lemma_tokens_items(rest, t);
        assert(flat(v[0]) + (flush(empty) + (flat_items(rest) + tt)) =~= flat_items(v) + tt);
    }
}

proof fn lemma_flat_start(e: SExpr)
    requires
        well_formed(e),
    ensures
        flat(e).len() > 0,
        flat(e)[0] != close_tok(),
{
    match e {
        SExpr::Atom(a) => {
            if a == close_tok() {
                assert(is_delim(a[0]));
            }
        },
        SExpr::List(v) => {
            assert(flat(e)[0] == open_tok());
            assert(open_tok()[0] != close_tok()[0]);
        },
    }
}

proof fn lemma_parse_flat(e: SExpr, rest: Seq<Seq<char>>)
    requires
        well_formed(e),
    ensures
        parse_expr(flat(e) + rest) == Ok::<(SExpr, Seq<Seq<char>>), SyntaxError>((e, rest)),
    decreases e, 0nat,
{
    match e {
        SExpr::Atom(a) => {
            let toks = flat(e) + rest;
            assert(toks[0] == a);
            if a == open_tok() {
                assert(is_delim(a[0]));
            }
            if a == close_tok() {
                assert(is_delim(a[0]));
            }
            assert(toks.drop_first() =~= rest);
        },
        SExpr::List(v) => {
            let toks = flat(e) + rest;
            assert(toks[0] == open_tok());
            assert(toks.drop_first() =~= flat_items(v.subrange(0, v.len() as int)) + (seq![
                close_tok(),
            ] + rest)) by {
                assert(v.subrange(0, v.len() as int) =~= v);
            }
            assert(v.subrange(0, 0) =~= Seq::<SExpr>::empty());
            lemma_parse_items_flat(v, 0, rest);
        },
    }
}

proof fn lemma_parse_items_flat(v: Seq<SExpr>, k: int, rest: Seq<Seq<char>>)
    requires
        0 <= k <= v.len(),
        forall|i: int| 0 <= i < v.len() ==> well_formed(#[trigger] v[i]),
    ensures
        parse_items(flat_items(v.subrange(k, v.len() as int)) + (seq![close_tok()] + rest), v.subrange(0, k))
            == Ok::<(SExpr, Seq<Seq<char>>), SyntaxError>((SExpr::List(v), rest)),
    decreases v, v.len() - k,
{
    let sub = v.subrange(k, v.len() as int);
    let toks = flat_items(sub) + (seq![close_tok()] + rest);
    if k == v.len() {
        assert(sub =~= Seq::<SExpr>::empty());
        assert(toks =~= seq![close_tok()] + rest);
        assert(toks.drop_first() =~= rest);
        assert(v.subrange(0, k) =~= v);
    } else {
        let next = v.subrange(k + 1, v.len() as int);
        assert(sub[0] == v[k]);
        assert(sub.subrange(1, sub.len() as int) =~= next);
        let r2 = flat_items(next) + (seq![close_tok()] + rest);
        assert(toks =~= flat(v[k]) + r2);
        lemma_flat_start(v[k]);
        lemma_parse_flat(v[k], r2);
        assert(v.subrange(0, k).push(v[k]) =~= v.subrange(0, k + 1));
        lemma_parse_items_flat(v, k + 1, rest);
    }
}

/// Reading the text of a well-formed expression gives the expression back.
pub proof fn lemma_read_render(e: SExpr)
    requires
        well_formed(e),
    ensures
        read_spec(render_spec(e)) == Ok::<SExpr, SyntaxError>(e),
{
    let empty = Seq::<char>::empty();
    lemma_tokens_render(e, empty);
    assert(render_spec(e) + empty =~= render_spec(e));
    assert(flat(e) + flush(empty) =~= flat(e));
    lemma_parse_flat(e, seq![]);
    assert(flat(e) + Seq::<Seq<char>>::empty() =~= flat(e));
}

/// A token of some text: a parenthesis, or the text of an atom.
pub open spec fn good_token(t: Seq<char>) -> bool {
    t == open_tok() || t == close_tok() || token_text(t)
}

pub open spec fn good_tokens(toks: Seq<Seq<char>>) -> bool {
    forall|j: int| 0 <= j < toks.len() ==> good_token(#[trigger] toks[j])
}

proof fn lemma_tokens_good(s: Seq<char>, cur: Seq<char>)
    requires
        forall|i: int| 0 <= i < cur.len() ==> !is_delim(#[trigger] cur[i]),
    ensures
        good_tokens(tokens_from(s, cur)),
    decreases s.len(),
{
    let empty = Seq::<char>::empty();
    assert(good_tokens(flush(cur)));
    if s.len() == 0 {
    } else if is_paren(s[0]) {
        lemma_tokens_good(s.drop_first(), empty);
        let p = seq![seq![s[0]]];
        assert(s[0] == '(' ==> seq![s[0]] =~= open_tok());
        assert(s[0] == ')' ==> seq![s[0]] =~= close_tok());
        assert(good_tokens(p));
        let t = tokens_from(s.drop_first(), empty);
        let all = flush(cur) + p + t;
        assert forall|j: int| 0 <= j < all.len() implies good_token(#[trigger] all[j]) by {
            if j < flush(cur).len() {
                assert(all[j] == flush(cur)[j]);
            } else if j < flush(cur).len() + 1 {
                assert(all[j] == p[j - flush(cur).len()]);
            } else {
                assert(all[j] == t[j - flush(cur).len() - 1]);
            }
        }
    } else if is_space_spec(s[0]) {
        lemma_tokens_good(s.drop_first(), empty);
        let t = tokens_from(s.drop_first(), empty);
        let all = flush(cur) + t;
        assert forall|j: int| 0 <= j < all.len() implies good_token(#[trigger] all[j]) by {
            if j < flush(cur).len() {
                assert(all[j] == flush(cur)[j]);
            } else {
                assert(all[j] == t[j - flush(cur).len()]);
            }
        }
    } else {
        let c2 = cur.push(s[0]);
        assert forall|i: int| 0 <= i < c2.len() implies !is_delim(#[trigger] c2[i]) by {
            if i < cur.len() {
                assert(c2[i] == cur[i]);
            }
        }
        lemma_tokens_good(s.drop_first(), c2);
    }
}

proof fn lemma_parse_wf(toks: Seq<Seq<char>>)
    requires
        good_tokens(toks),
    ensures
        parse_expr(toks) is Ok ==> well_formed(parse_expr(toks)->Ok_0.0) && good_tokens(
            parse_expr(toks)->Ok_0.1,
        ),
    decreases toks.len(), 0nat,
{
    if toks.len() > 0 {
        let rest = toks.drop_first();
        assert forall|j: int| 0 <= j < rest.len() implies good_token(#[trigger] rest[j]) by {
            assert(rest[j] == toks[j + 1]);
        }
        if toks[0] == open_tok() {
            lemma_parse_items_wf(rest, seq![]);
        }
    }
}

proof fn lemma_parse_items_wf(toks: Seq<Seq<char>>, acc: Seq<SExpr>)
    requires
        good_tokens(toks),
        forall|i: int| 0 <= i < acc.len() ==> well_formed(#[trigger] acc[i]),
    ensures
        parse_items(toks, acc) is Ok ==> well_formed(parse_items(toks, acc)->Ok_0.0)
            && good_tokens(parse_items(toks, acc)->Ok_0.1),
    decreases toks.len(), 1nat,
{
    if toks.len() > 0 && toks[0] == close_tok() {
        let rest = toks.drop_first();
        assert forall|j: int| 0 <= j < rest.len() implies good_token(#[trigger] rest[j]) by {
            assert(rest[j] == toks[j + 1]);
        }
    } else {
        lemma_parse_wf(toks);
        match parse_expr(toks) {
            Err(_) => {},
            Ok((x, rest)) => {
                if rest.len() < toks.len() {
                    let acc2 = acc.push(x);
                    assert forall|i: int| 0 <= i < acc2.len() implies well_formed(
                        #[trigger] acc2[i],
                    ) by {
                        if i < acc.len() {
                            assert(acc2[i] == acc[i]);
                        }
                    }
                    lemma_parse_items_wf(rest, acc2);
                }
            },
        }
    }
}

/// Whatever reading text gives, rendered and read again, is the same
/// expression.
pub proof fn lemma_read_round_trip(s: Seq<char>)
    requires
        read_spec(s) is Ok,
    ensures
        read_spec(render_spec(read_spec(s)->Ok_0)) == read_spec(s),
{
    lemma_tokens_good(s, Seq::<char>::empty());
    lemma_parse_wf(tokens_of(s));
    lemma_read_render(read_spec(s)->Ok_0);
}

} // verus!
