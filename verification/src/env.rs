//! The environment: a chained symbol table mapping names to runtime
//! values, with lexical scoping through parent links.
//!
//! All scopes of one evaluation live in a single arena, so a closure can
//! keep its defining scope alive simply by remembering the scope's
//! number. A binding is one `(scope, name, value)` triple; `let` always
//! binds in the current scope, while reassignment mutates the binding in
//! the nearest enclosing scope that has the name.

use vstd::prelude::*;
use vstd::string::*;

use crate::object::Object;
use crate::text::str_eq;

verus! {

/// One binding: the scope it lives in, the name and the value.
pub type BindingModel = (usize, Seq<char>, Object);

/// The value bound to `k` in scope `f` itself (no parent walk): the
/// first matching binding, if any.
pub open spec fn sp_find(m: Seq<BindingModel>, f: usize, k: Seq<char>) -> Option<Object>
    decreases m.len(),
{
    if m.len() == 0 {
        None
    } else if m[0].0 == f && m[0].1 == k {
        Some(m[0].2)
    } else {
        sp_find(m.drop_first(), f, k)
    }
}

/// The value bound to `k` in scope `f` or, failing that, along its
/// parent chain; `None` once the chain is exhausted.
pub open spec fn sp_lookup(
    m: Seq<BindingModel>,
    parents: Seq<Option<usize>>,
    f: usize,
    k: Seq<char>,
) -> Option<Object>
    decreases f,
{
    match sp_find(m, f, k) {
        Some(v) => Some(v),
        None => {
            if 0 <= f < parents.len() {
                match parents[f as int] {
                    Some(p) => if p < f {
                        sp_lookup(m, parents, p, k)
                    } else {
                        None
                    },
                    None => None,
                }
            } else {
                None
            }
        },
    }
}

/// The bindings after writing `v` for `k` in scope `f`: the first
/// matching binding is replaced, or a new one is appended at the end.
pub open spec fn sp_set(m: Seq<BindingModel>, f: usize, k: Seq<char>, v: Object) -> Seq<
    BindingModel,
>
    decreases m.len(),
{
    if m.len() == 0 {
        seq![(f, k, v)]
    } else if m[0].0 == f && m[0].1 == k {
        seq![(f, k, v)] + m.drop_first()
    } else {
        seq![m[0]] + sp_set(m.drop_first(), f, k, v)
    }
}

/// The nearest scope, starting at `f` and walking the parent chain,
/// whose own bindings contain `k`.
pub open spec fn sp_owner(
    m: Seq<BindingModel>,
    parents: Seq<Option<usize>>,
    f: usize,
    k: Seq<char>,
) -> Option<usize>
    decreases f,
{
    if sp_find(m, f, k) is Some {
        Some(f)
    } else if 0 <= f < parents.len() {
        match parents[f as int] {
            Some(p) => if p < f {
                sp_owner(m, parents, p, k)
            } else {
                None
            },
            None => None,
        }
    } else {
        None
    }
}

/// A chained symbol table: an arena of scopes, each with a parent link,
/// and the number of the scope that is currently innermost.
pub struct Env {
    bindings: Vec<(usize, String, Object)>,
    parents: Vec<Option<usize>>,
    current: usize,
}

impl Env {
    /// The bindings, with names as character sequences.
    pub closed spec fn bindings_model(&self) -> Seq<BindingModel> {
        self.bindings@.map_values(|t: (usize, String, Object)| (t.0, t.1@, t.2))
    }

    /// The parent link of each scope.
    pub closed spec fn parents_model(&self) -> Seq<Option<usize>> {
        self.parents@
    }

    /// The currently innermost scope.
    pub closed spec fn cur(&self) -> usize {
        self.current
    }

    /// How many scopes exist.
    pub closed spec fn scope_count(&self) -> nat {
        self.parents@.len()
    }

    /// The current scope exists, the parent table has one entry per
    /// scope, every parent link points to an older scope, and every
    /// binding lives in an existing scope.
    pub open spec fn wf(&self) -> bool {
        &&& self.cur() < self.scope_count()
        &&& self.parents_model().len() == self.scope_count()
        &&& forall|i: int|
            0 <= i < self.parents_model().len() && self.parents_model()[i] is Some
                ==> self.parents_model()[i].unwrap() < i
        &&& forall|j: int|
            0 <= j < self.bindings_model().len() ==> (#[trigger] self.bindings_model()[j]).0
                < self.scope_count()
    }

    /// A fresh environment: one root scope with no parent, no bindings.
    pub fn new() -> (e: Env)
        ensures
            e.wf(),
            e.bindings_model() == Seq::<BindingModel>::empty(),
            e.parents_model() == seq![None::<usize>],
            e.cur() == 0,
    {
        let mut parents: Vec<Option<usize>> = Vec::new();
        parents.push(None);
        let e = Env { bindings: Vec::new(), parents, current: 0 };
        proof {
            assert(e.parents_model() =~= seq![None::<usize>]);
            assert(e.bindings_model() =~= Seq::<BindingModel>::empty());
        }
        e
    }

    /// The value bound to `key`, looked up from the current scope
    /// outward along the parent chain; decides [`sp_lookup`].
    pub fn get(&self, key: &str) -> (r: Option<Object>)
        requires
            self.wf(),
        ensures
            r == sp_lookup(self.bindings_model(), self.parents_model(), self.cur(), key@),
    {
        self.get_from(self.current, key)
    }

    /// The value bound to `key`, looked up from scope `f` outward.
    pub fn get_from(&self, f: usize, key: &str) -> (r: Option<Object>)
        requires
            self.wf(),
            f < self.scope_count(),
        ensures
            r == sp_lookup(self.bindings_model(), self.parents_model(), f, key@),
        decreases f,
    {
        match self.find_in(f, key) {
            Some(v) => Some(v),
            None => {
                match self.parents[f] {
                    Some(p) => {
                        if p < f {
                            self.get_from(p, key)
                        } else {
                            None
                        }
                    },
                    None => None,
                }
            },
        }
    }

    /// The value bound to `key` in scope `f` itself; decides
    /// [`sp_find`].
    #[verifier::loop_isolation(false)]
    fn find_in(&self, f: usize, key: &str) -> (r: Option<Object>)
        ensures
            r == sp_find(self.bindings_model(), f, key@),
    {
        let ghost m = self.bindings_model();
        proof {
            assert(m.skip(0) =~= m);
        }
        let mut i: usize = 0;
        while i < self.bindings.len()
            invariant
                i <= self.bindings.len(),
                m == self.bindings_model(),
                sp_find(m, f, key@) == sp_find(m.skip(i as int), f, key@),
            decreases self.bindings@.len() - i,
        {
            let hit = self.bindings[i].0 == f && str_eq(self.bindings[i].1.as_str(), key);
            if hit {
                proof {
                    assert(m.skip(i as int)[0] == m[i as int]);
                }
                return Some(self.bindings[i].2.duplicate());
            }
            proof {
                assert(m.skip(i as int)[0] == m[i as int]);
                assert(m.skip(i as int).drop_first() =~= m.skip(i + 1 as int));
            }
            i = i + 1;
        }
        proof {
            assert(m.skip(self.bindings@.len() as int) =~= Seq::<BindingModel>::empty());
        }
        None
    }

    /// Binds `key` to `v` in the current scope, replacing a binding of
    /// the same name there and shadowing any outer one; decides
    /// [`sp_set`] at the current scope.
    pub fn set(&mut self, key: &str, v: Object)
        requires
            old(self).wf(),
        ensures
            final(self).wf(),
            final(self).bindings_model() == sp_set(
                old(self).bindings_model(),
                old(self).cur(),
                key@,
                v,
            ),
            final(self).parents_model() == old(self).parents_model(),
            final(self).cur() == old(self).cur(),
            final(self).scope_count() == old(self).scope_count(),
    {
        let f = self.current;
        self.set_in(f, key, v);
        proof {
            lemma_sp_set_scope_bound(
                old(self).bindings_model(),
                f,
                key@,
                v,
                old(self).scope_count(),
            );
        }
    }

    /// Binds `key` to `v` in scope `f`; decides [`sp_set`].
    #[verifier::loop_isolation(false)]
    fn set_in(&mut self, f: usize, key: &str, v: Object)
        ensures
            final(self).bindings_model() == sp_set(old(self).bindings_model(), f, key@, v),
            final(self).parents_model() == old(self).parents_model(),
            final(self).cur() == old(self).cur(),
    {
        let ghost m0 = self.bindings_model();
        let mut i: usize = 0;
        while i < self.bindings.len()
            invariant
                i <= self.bindings.len(),
                self.bindings_model() == m0,
                self.parents@ == old(self).parents@,
                self.current == old(self).current,
                forall|j: int| 0 <= j < i ==> !(m0[j].0 == f && m0[j].1 == key@),
            decreases self.bindings@.len() - i,
        {
            let hit = self.bindings[i].0 == f && str_eq(self.bindings[i].1.as_str(), key);
            if hit {
                self.bindings[i] = (f, String::from_str(key), v);
                proof {
                    assert(self.bindings_model() =~= m0.update(i as int, (f, key@, v)));
                    lemma_set_update(m0, f, key@, v, i as int);
                }
                return ;
            }
            i = i + 1;
        }
        self.bindings.push((f, String::from_str(key), v));
        proof {
            assert(self.bindings_model() =~= m0.push((f, key@, v)));
            lemma_set_append(m0, f, key@, v);
        }
    }

    /// Reassigns `key` to `v` in the nearest enclosing scope that has
    /// it, walking outward from the current scope. Returns whether a
    /// binding was found; when none is, nothing changes.
    #[verifier::loop_isolation(false)]
    pub fn reassign(&mut self, key: &str, v: Object) -> (found: bool)
        requires
            old(self).wf(),
        ensures
            final(self).wf(),
            final(self).parents_model() == old(self).parents_model(),
            final(self).cur() == old(self).cur(),
            final(self).scope_count() == old(self).scope_count(),
            match sp_owner(
                old(self).bindings_model(),
                old(self).parents_model(),
                old(self).cur(),
                key@,
            ) {
                Some(g) => found && final(self).bindings_model() == sp_set(
                    old(self).bindings_model(),
                    g,
                    key@,
                    v,
                ),
                None => !found && final(self).bindings_model() == old(self).bindings_model(),
            },
    {
        let mut f = self.current;
        loop
            invariant
                self == old(self),
                f < self.scope_count(),
                self.wf(),
                sp_owner(self.bindings_model(), self.parents_model(), self.current, key@)
                    == sp_owner(self.bindings_model(), self.parents_model(), f, key@),
            decreases f,
        {
            let found_here = match self.find_in(f, key) {
                Some(_) => true,
                None => false,
            };
            if found_here {
                let ghost pre = *self;
                self.set_in(f, key, v);
                proof {
                    lemma_sp_set_scope_bound(
                        pre.bindings_model(),
                        f,
                        key@,
                        v,
                        pre.scope_count(),
                    );
                }
                return true;
            }
            match self.parents[f] {
                Some(p) => {
                    if p < f {
                        f = p;
                    } else {
                        return false;
                    }
                },
                None => {
                    return false;
                },
            }
        }
    }

    /// Creates a new scope whose parent is `parent` (which must name an
    /// existing scope; otherwise the new scope has no parent) and
    /// returns its number. The new scope starts empty.
    pub fn extend(&mut self, parent: usize) -> (child: usize)
        requires
            old(self).wf(),
        ensures
            final(self).wf(),
            child == old(self).scope_count(),
            final(self).scope_count() == old(self).scope_count() + 1,
            final(self).parents_model() == old(self).parents_model().push(
                if parent < old(self).scope_count() {
                    Some(parent)
                } else {
                    None
                },
            ),
            final(self).bindings_model() == old(self).bindings_model(),
            final(self).cur() == old(self).cur(),
    {
        let child = self.parents.len();
        let link: Option<usize> = if parent < self.parents.len() {
            Some(parent)
        } else {
            None
        };
        self.parents.push(link);
        proof {
            assert(self.bindings_model() == old(self).bindings_model());
            assert(self.scope_count() == old(self).scope_count() + 1);
            assert forall|j: int| 0 <= j < self.bindings_model().len() implies (
            #[trigger] self.bindings_model()[j]).0 < self.scope_count() by {
                assert(old(self).bindings_model()[j].0 < old(self).scope_count());
            }
        }
        child
    }

    /// The currently innermost scope's number.
    pub fn current_scope(&self) -> (f: usize)
        ensures
            f == self.cur(),
    {
        self.current
    }

    /// Makes `f` the innermost scope; out-of-range numbers are ignored.
    pub fn switch_to(&mut self, f: usize)
        requires
            old(self).wf(),
        ensures
            final(self).wf(),
            final(self).bindings_model() == old(self).bindings_model(),
            final(self).parents_model() == old(self).parents_model(),
            final(self).scope_count() == old(self).scope_count(),
            final(self).cur() == if f < old(self).scope_count() {
                f
            } else {
                old(self).cur()
            },
    {
        if f < self.parents.len() {
            self.current = f;
        }
        proof {
            assert(self.bindings_model() == old(self).bindings_model());
            assert(self.scope_count() == old(self).scope_count());
        }
    }
}

/// Writing a binding for a scope below `n` keeps every binding's scope
/// below `n`.
pub proof fn lemma_sp_set_scope_bound(
    m: Seq<BindingModel>,
    f: usize,
    k: Seq<char>,
    v: Object,
    n: nat,
)
    requires
        f < n,
        forall|j: int| 0 <= j < m.len() ==> (#[trigger] m[j]).0 < n,
    ensures
        forall|j: int|
            0 <= j < sp_set(m, f, k, v).len() ==> (#[trigger] sp_set(m, f, k, v)[j]).0 < n,
    decreases m.len(),
{
    if m.len() == 0 {
        assert(sp_set(m, f, k, v) =~= seq![(f, k, v)]);
    } else if m[0].0 == f && m[0].1 == k {
        assert(sp_set(m, f, k, v) =~= seq![(f, k, v)] + m.drop_first());
        assert(forall|j: int|
            0 <= j < m.drop_first().len() ==> (#[trigger] m.drop_first()[j]).0 < n);
    } else {
        assert(forall|j: int|
            0 <= j < m.drop_first().len() ==> (#[trigger] m.drop_first()[j]).0 < n);
        lemma_sp_set_scope_bound(m.drop_first(), f, k, v, n);
        assert(sp_set(m, f, k, v) =~= seq![m[0]] + sp_set(m.drop_first(), f, k, v));
    }
}

/// Replacing the first matching binding is what [`sp_set`] does when a
/// match exists at `j` and none before it.
proof fn lemma_set_update(m: Seq<BindingModel>, f: usize, k: Seq<char>, v: Object, j: int)
    requires
        0 <= j < m.len(),
        m[j].0 == f && m[j].1 == k,
        forall|i: int| 0 <= i < j ==> !(m[i].0 == f && m[i].1 == k),
    ensures
        sp_set(m, f, k, v) == m.update(j, (f, k, v)),
    decreases m.len(),
{
    if j == 0 {
        assert(sp_set(m, f, k, v) =~= m.update(0, (f, k, v)));
    } else {
        assert(forall|i: int|
            0 <= i < j - 1 ==> m.drop_first()[i] == m[i + 1] && !(m.drop_first()[i].0 == f
                && m.drop_first()[i].1 == k));
        lemma_set_update(m.drop_first(), f, k, v, j - 1);
        assert(sp_set(m, f, k, v) =~= m.update(j, (f, k, v)));
    }
}

/// Appending is what [`sp_set`] does when no binding matches.
proof fn lemma_set_append(m: Seq<BindingModel>, f: usize, k: Seq<char>, v: Object)
    requires
        forall|i: int| 0 <= i < m.len() ==> !(m[i].0 == f && m[i].1 == k),
    ensures
        sp_set(m, f, k, v) == m.push((f, k, v)),
    decreases m.len(),
{
    if m.len() == 0 {
        assert(sp_set(m, f, k, v) =~= m.push((f, k, v)));
    } else {
        assert(forall|i: int|
            0 <= i < m.drop_first().len() ==> m.drop_first()[i] == m[i + 1] && !(
            m.drop_first()[i].0 == f && m.drop_first()[i].1 == k));
        lemma_set_append(m.drop_first(), f, k, v);
        assert(sp_set(m, f, k, v) =~= m.push((f, k, v)));
    }
}


/// Law: a fresh binding wins. After writing `v` for `k` in scope `f`,
/// looking `k` up from `f` yields `v`, whatever was bound before.
pub proof fn lemma_set_then_lookup(
    m: Seq<BindingModel>,
    parents: Seq<Option<usize>>,
    f: usize,
    k: Seq<char>,
    v: Object,
)
    ensures
        sp_lookup(sp_set(m, f, k, v), parents, f, k) == Some(v),
{
    lemma_set_find(m, f, k, v);
}

proof fn lemma_set_find(m: Seq<BindingModel>, f: usize, k: Seq<char>, v: Object)
    ensures
        sp_find(sp_set(m, f, k, v), f, k) == Some(v),
    decreases m.len(),
{
    if m.len() == 0 {
        assert(sp_set(m, f, k, v) =~= seq![(f, k, v)]);
    } else if m[0].0 == f && m[0].1 == k {
        assert(sp_set(m, f, k, v)[0] == (f, k, v));
    } else {
        lemma_set_find(m.drop_first(), f, k, v);
        assert(sp_set(m, f, k, v)[0] == m[0]);
        assert(sp_set(m, f, k, v).drop_first() =~= sp_set(m.drop_first(), f, k, v));
    }
}

/// Law: writes are local to their name. Writing `v` for `k` in scope
/// `f` leaves the lookup of every other name, from every scope,
/// unchanged.
pub proof fn lemma_set_other_lookup(
    m: Seq<BindingModel>,
    parents: Seq<Option<usize>>,
    f: usize,
    k: Seq<char>,
    v: Object,
    g: usize,
    j: Seq<char>,
)
    requires
        j != k,
    ensures
        sp_lookup(sp_set(m, f, k, v), parents, g, j) == sp_lookup(m, parents, g, j),
    decreases g,
{
    lemma_set_other_find(m, f, k, v, g, j);
    if sp_find(m, g, j) is None && 0 <= g < parents.len() {
        match parents[g as int] {
            Some(p) => {
                if p < g {
                    lemma_set_other_lookup(m, parents, f, k, v, p, j);
                }
            },
            None => {},
        }
    }
}

proof fn lemma_set_other_find(
    m: Seq<BindingModel>,
    f: usize,
    k: Seq<char>,
    v: Object,
    g: usize,
    j: Seq<char>,
)
    requires
        j != k,
    ensures
        sp_find(sp_set(m, f, k, v), g, j) == sp_find(m, g, j),
    decreases m.len(),
{
    if m.len() == 0 {
        assert(sp_set(m, f, k, v) =~= seq![(f, k, v)]);
        assert(sp_set(m, f, k, v)[0] == (f, k, v));
        assert(sp_set(m, f, k, v).drop_first() =~= Seq::<BindingModel>::empty());
        assert(sp_find(Seq::<BindingModel>::empty(), g, j) is None);
        assert(sp_set(m, f, k, v).len() == 1);
        assert(!(sp_set(m, f, k, v)[0].0 == g && sp_set(m, f, k, v)[0].1 == j));
        assert(sp_find(sp_set(m, f, k, v), g, j) == sp_find(
            sp_set(m, f, k, v).drop_first(),
            g,
            j,
        ));
        assert(sp_find(sp_set(m, f, k, v), g, j) == sp_find(m, g, j));
    } else if m[0].0 == f && m[0].1 == k {
        assert(sp_set(m, f, k, v) =~= seq![(f, k, v)] + m.drop_first());
        assert(sp_set(m, f, k, v)[0] == (f, k, v));
        assert(sp_set(m, f, k, v).drop_first() =~= m.drop_first());
        lemma_find_skip_head(m.drop_first(), g, j, (f, k, v));
        assert(sp_find(sp_set(m, f, k, v), g, j) == sp_find(m.drop_first(), g, j));
        assert(sp_find(m, g, j) == sp_find(m.drop_first(), g, j));
        assert(sp_find(sp_set(m, f, k, v), g, j) == sp_find(m, g, j));
    } else {
        lemma_set_other_find(m.drop_first(), f, k, v, g, j);
        assert(sp_set(m, f, k, v)[0] == m[0]);
        assert(sp_set(m, f, k, v).drop_first() =~= sp_set(m.drop_first(), f, k, v));
        assert(sp_find(sp_set(m, f, k, v), g, j) == sp_find(m, g, j));
    }
}

proof fn lemma_find_skip_head(rest: Seq<BindingModel>, g: usize, j: Seq<char>, h: BindingModel)
    requires
        !(h.0 == g && h.1 == j),
    ensures
        sp_find(seq![h] + rest, g, j) == sp_find(rest, g, j),
{
    assert((seq![h] + rest)[0] == h);
    assert((seq![h] + rest).drop_first() =~= rest);
}

} // verus!
