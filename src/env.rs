use vstd::prelude::*;
use crate::expr::{Expr, SExpr};

verus! {

/// What a sequence of bindings maps each name to; a later binding of a name
/// hides an earlier one.
pub open spec fn frame_map(b: Seq<(Seq<char>, SExpr)>) -> Map<Seq<char>, SExpr>
    decreases b.len(),
{
    if b.len() == 0 {
        Map::empty()
    } else {
        frame_map(b.drop_last()).insert(b.last().0, b.last().1)
    }
}

pub open spec fn pairs_view(b: Seq<(String, Expr)>) -> Seq<(Seq<char>, SExpr)> {
    b.map_values(|p: (String, Expr)| (p.0@, p.1@))
}

/// Bindings from names to expressions, with an optional enclosing scope that
/// is consulted for names this scope does not bind.
pub struct Environment {
    parent: Option<Box<Environment>>,
    bindings: Vec<(String, Expr)>,
}

impl Environment {
    /// Every name visible from this scope, with what it is bound to.
    pub closed spec fn visible(&self) -> Map<Seq<char>, SExpr>
        decreases self,
    {
        let outer = match self.parent {
            Some(p) => p.visible(),
            None => Map::empty(),
        };
        outer.union_prefer_right(frame_map(pairs_view(self.bindings@)))
    }
}

impl View for Environment {
    type V = Map<Seq<char>, SExpr>;

    open spec fn view(&self) -> Map<Seq<char>, SExpr> {
        self.visible()
    }
}

proof fn lemma_frame_push(b: Seq<(String, Expr)>, k: String, v: Expr)
    ensures
        frame_map(pairs_view(b.push((k, v)))) == frame_map(pairs_view(b)).insert(k@, v@),
{
    assert(pairs_view(b.push((k, v))).drop_last() =~= pairs_view(b));
}

proof fn lemma_frame_update(b: Seq<(Seq<char>, SExpr)>, i: int, v: SExpr)
    requires
        0 <= i < b.len(),
        forall|j: int| i < j < b.len() ==> (#[trigger] b[j]).0 != b[i].0,
    ensures
        frame_map(b.update(i, (b[i].0, v))) == frame_map(b).insert(b[i].0, v),
    decreases b.len(),
{
    let k = b[i].0;
    let u = b.update(i, (k, v));
    if i == b.len() - 1 {
        assert(u.drop_last() =~= b.drop_last());
        assert(frame_map(u) =~= frame_map(b).insert(k, v));
    } else {
        assert(u.drop_last() =~= b.drop_last().update(i, (k, v)));
        lemma_frame_update(b.drop_last(), i, v);
        assert(b.last().0 != k);
        assert(frame_map(u) =~= frame_map(b).insert(k, v));
    }
}

impl Environment {
    /// A root scope that binds nothing.
    pub fn new() -> (r: Environment)
        ensures
            r@ == Map::<Seq<char>, SExpr>::empty(),
    {
        let r = Environment { parent: None, bindings: Vec::new() };
        assert(pairs_view(r.bindings@) =~= Seq::<(Seq<char>, SExpr)>::empty());
        assert(r@ =~= Map::<Seq<char>, SExpr>::empty());
        r
    }

    /// An empty scope inside `parent`.
    pub fn enclosed(parent: Environment) -> (r: Environment)
        ensures
            r@ == parent@,
    {
        let r = Environment { parent: Some(Box::new(parent)), bindings: Vec::new() };
        assert(pairs_view(r.bindings@) =~= Seq::<(Seq<char>, SExpr)>::empty());
        assert(r@ =~= parent@);
        r
    }

    /// Looks `key` up here, then in the enclosing scopes.
    pub fn find(&self, key: &String) -> (r: Option<&Expr>)
        ensures
            r is Some == self@.contains_key(key@),
            r is Some ==> r->Some_0@ == self@[key@],
        decreases self,
    {
        let ghost b = pairs_view(self.bindings@);
        let mut i: usize = self.bindings.len();
        proof {
            assert(b.subrange(0, i as int) =~= b);
        }
        while i > 0
            invariant
                i <= self.bindings.len(),
                b == pairs_view(self.bindings@),
                frame_map(b).contains_key(key@) == frame_map(b.subrange(0, i as int)).contains_key(
                    key@,
                ),
                frame_map(b).contains_key(key@) ==> frame_map(b)[key@] == frame_map(
                    b.subrange(0, i as int),
                )[key@],
            decreases i,
        {
            assert(b.subrange(0, i as int).drop_last() =~= b.subrange(0, i - 1));
            if self.bindings[i - 1].0 == *key {
                return Some(&self.bindings[i - 1].1);
            }
            i = i - 1;
        }
        match &self.parent {
            Some(p) => {
                assert(decreases_to!(*self => self.parent));
                p.find(key)
            },
            None => None,
        }
    }

    /// A copy of what `find` returns.
    pub fn find_copy(&self, key: &String) -> (r: Option<Expr>)
        ensures
            r is Some == self@.contains_key(key@),
            r is Some ==> r->Some_0@ == self@[key@],
    {
        match self.find(key) {
            Some(e) => Some(e.copy()),
            None => None,
        }
    }

    /// Binds `key` to `value` in this scope, replacing what it was bound to
    /// here, so that each name is bound at most once in a scope.
    pub fn define(&mut self, key: String, value: Expr)
        ensures
            final(self)@ == old(self)@.insert(key@, value@),
    {
        let ghost k = key;
        let ghost v = value;
        let ghost b = pairs_view(self.bindings@);
        let mut i: usize = self.bindings.len();
        while i > 0
            invariant
                i <= self.bindings.len(),
                *self == *old(self),
                k == key,
                v == value,
                b == pairs_view(self.bindings@),
                forall|j: int| i <= j < b.len() ==> (#[trigger] b[j]).0 != key@,
            decreases i,
        {
            if self.bindings[i - 1].0 == key {
                let ghost before = self.bindings@;
                self.bindings.set(i - 1, (key, value));
                proof {
                    assert(b[i - 1].0 == k@);
                    assert(self.bindings@ == before.update(i - 1, (k, v)));
                    assert forall|j: int| 0 <= j < b.len() implies #[trigger] pairs_view(
                        self.bindings@,
                    )[j] == b.update(i - 1, (k@, v@))[j] by {
                        if j != i - 1 {
                            assert(self.bindings@[j] == before[j]);
                        }
                    }
                    assert(pairs_view(self.bindings@) =~= b.update(i - 1, (k@, v@)));
                    lemma_frame_update(b, i - 1, v@);
                    assert(self@ =~= old(self)@.insert(k@, v@));
                }
                return;
            }
            i = i - 1;
        }
        self.bindings.push((key, value));
        proof {
            lemma_frame_push(old(self).bindings@, k, v);
            assert(final(self)@ =~= old(self)@.insert(k@, v@));
        }
    }

    /// An independent copy of every scope.
    pub fn copy(&self) -> (r: Environment)
        ensures
            r@ == self@,
        decreases self,
    {
        let parent = match &self.parent {
            Some(p) => {
                assert(decreases_to!(*self => self.parent));
                Some(Box::new(p.copy()))
            },
            None => None,
        };
        let mut bindings: Vec<(String, Expr)> = Vec::new();
        let mut i: usize = 0;
        while i < self.bindings.len()
            invariant
                i <= self.bindings.len(),
                bindings.len() == i,
                pairs_view(bindings@) == pairs_view(self.bindings@).subrange(0, i as int),
            decreases self.bindings.len() - i,
        {
            let ghost before = pairs_view(bindings@);
            let k = self.bindings[i].0.clone();
            let v = self.bindings[i].1.copy();
            bindings.push((k, v));
            assert(pairs_view(bindings@)[i as int] == pairs_view(self.bindings@)[i as int]);
            assert(pairs_view(bindings@) =~= pairs_view(self.bindings@).subrange(0, i + 1));
            i = i + 1;
        }
        assert(pairs_view(self.bindings@).subrange(0, i as int) =~= pairs_view(self.bindings@));
        Environment { parent, bindings }
    }

    /// A copy of this environment with `binds` added, in order, to its
    /// innermost scope.
    pub fn extended(&self, binds: &Vec<(String, Expr)>) -> (r: Environment)
        ensures
            r@ == self@.union_prefer_right(frame_map(pairs_view(binds@))),
    {
        let mut r = self.copy();
        let mut i: usize = 0;
        proof {
            assert(pairs_view(binds@).subrange(0, 0) =~= Seq::<(Seq<char>, SExpr)>::empty());
            assert(self@.union_prefer_right(Map::empty()) =~= self@);
        }
        while i < binds.len()
            invariant
                i <= binds.len(),
                r@ == self@.union_prefer_right(
                    frame_map(pairs_view(binds@).subrange(0, i as int)),
                ),
            decreases binds.len() - i,
        {
            let ghost before = r@;
            r.define(binds[i].0.clone(), binds[i].1.copy());
            proof {
                let sub = pairs_view(binds@).subrange(0, i + 1);
                assert(sub.drop_last() =~= pairs_view(binds@).subrange(0, i as int));
                assert(r@ =~= self@.union_prefer_right(frame_map(sub)));
            }
            i = i + 1;
        }
        assert(pairs_view(binds@).subrange(0, i as int) =~= pairs_view(binds@));
        r
    }
}

} // verus!
