use vstd::prelude::*;
use vstd::string::*;
use crate::tree::Tree;

verus! {

/// The mathematical value of an expression: an atom's text, or an ordered
/// sequence of expressions.
pub enum SExpr {
    Atom(Seq<char>),
    List(Seq<SExpr>),
}

/// A Lisp expression: atoms hold their token text.
pub type Expr = Tree<String>;

impl View for Tree<String> {
    type V = SExpr;

    open spec fn view(&self) -> SExpr
        decreases self,
    {
        match self {
            Tree::Leaf(s) => SExpr::Atom(s@),
            Tree::Branch(v) => SExpr::List(
                Seq::new(
                    v.len() as nat,
                    |i: int|
                        if 0 <= i < v.len() {
                            v[i].view()
                        } else {
                            SExpr::Atom(Seq::empty())
                        },
                ),
            ),
        }
    }
}

/// The empty list, which also stands for false.
pub open spec fn nil() -> SExpr {
    SExpr::List(Seq::empty())
}

/// The truth atom `t`.
pub open spec fn truth() -> SExpr {
    SExpr::Atom(seq!['t'])
}

/// The values of a sequence of expressions.
pub open spec fn list_view(s: Seq<Expr>) -> Seq<SExpr> {
    s.map_values(|t: Expr| t@)
}

pub proof fn lemma_list_view(v: Vec<Expr>)
    ensures
        Tree::Branch(v)@ == SExpr::List(list_view(v@)),
{
    assert(Tree::Branch(v)@->List_0 =~= list_view(v@));
}

impl Tree<String> {
    pub fn is_atom(&self) -> (r: bool)
        ensures
            r == (self@ is Atom),
    {
        self.is_leaf()
    }

    pub fn is_list(&self) -> (r: bool)
        ensures
            r == (self@ is List),
    {
        self.is_branch()
    }

    pub fn is_empty_list(&self) -> (r: bool)
        ensures
            r == (self@ == nil()),
    {
        match self {
            Tree::Leaf(_) => false,
            Tree::Branch(v) => {
                proof {
                    lemma_list_view(*v);
                    assert(list_view(v@).len() == v.len());
                }
                if v.len() == 0 {
                    assert(list_view(v@) =~= Seq::<SExpr>::empty());
                    true
                } else {
                    false
                }
            },
        }
    }

    /// An independent copy of the whole expression.
    pub fn copy(&self) -> (r: Expr)
        ensures
            r@ == self@,
        decreases self,
    {
        match self {
            Tree::Leaf(s) => Tree::Leaf(s.clone()),
            Tree::Branch(v) => {
                let mut out: Vec<Expr> = Vec::new();
                let mut i: usize = 0;
                while i < v.len()
                    invariant
                        *self == Tree::Branch(*v),
                        i <= v.len(),
                        out.len() == i,
                        forall|j: int| 0 <= j < i ==> #[trigger] out[j]@ == v[j]@,
                    decreases v.len() - i,
                {
                    proof {
                        vstd::std_specs::vec::axiom_vec_index_decreases(*v, i as int);
                        assert(decreases_to!(*self => (*self)->Branch_0));
                    }
                    out.push(v[i].copy());
                    i = i + 1;
                }
                let r = Tree::Branch(out);
                proof {
                    lemma_list_view(out);
                    lemma_list_view(*v);
                    assert(r@->List_0 =~= self@->List_0);
                }
                r
            },
        }
    }
}

/// The empty list.
pub fn make_nil() -> (r: Expr)
    ensures
        r@ == nil(),
{
    let r = Tree::Branch(Vec::new());
    assert(r@->List_0 =~= Seq::<SExpr>::empty());
    r
}

/// An atom holding the given text.
pub fn make_atom(s: &str) -> (r: Expr)
    ensures
        r@ == SExpr::Atom(s@),
{
    Tree::Leaf(String::from_str(s))
}

/// The truth atom `t`.
pub fn make_truth() -> (r: Expr)
    ensures
        r@ == truth(),
{
    let r = make_atom("t");
    proof {
        reveal_strlit("t");
        assert("t"@ =~= seq!['t']);
    }
    r
}

/// Whether two strings hold the same characters.
pub fn same_text(a: &str, b: &str) -> (r: bool)
    ensures
        r == (a@ == b@),
{
    let n = a.unicode_len();
    if n != b.unicode_len() {
        return false;
    }
    let mut i: usize = 0;
    while i < n
        invariant
            n == a@.len(),
            n == b@.len(),
            i <= n,
            forall|j: int| 0 <= j < i ==> a@[j] == b@[j],
        decreases n - i,
    {
        if a.get_char(i) != b.get_char(i) {
            return false;
        }
        i = i + 1;
    }
    assert(a@ =~= b@);
    true
}

/// Whether `expr` is the atom whose text is `op`.
pub fn is_symbol(op: &str, expr: &Expr) -> (r: bool)
    ensures
        r == (expr@ == SExpr::Atom(op@)),
{
    match expr {
        Tree::Leaf(s) => same_text(op, s.as_str()),
        Tree::Branch(_) => false,
    }
}

} // verus!
