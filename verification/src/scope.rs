use vstd::prelude::*;
use crate::value::Value;

verus! {

/// One lexical scope: bindings from name ids to values, plus an optional
/// parent handle into the scope arena. Scopes captured by closures are
/// shared by handle, never copied, so a write through one holder is
/// immediately visible to every other holder of the same handle.
pub struct Scope {
    /// Bindings of this scope. Lookup takes the first entry for a name;
    /// a store rewrites that entry in place, or appends one.
    pub entries: Vec<(usize, Value)>,
    /// Handle of the enclosing scope, `None` for the outermost (builtin)
    /// scope. Well-formed arenas keep every parent handle strictly below
    /// the scope's own handle, so chains are acyclic.
    pub parent: Option<usize>,
}

/// The value bound to `name` in one entry list, if any (first match wins).
pub open spec fn find_entry(entries: Seq<(usize, Value)>, name: usize) -> Option<Value>
    decreases entries.len(),
{
    if entries.len() == 0 {
        Option::<Value>::None
    } else if entries[0].0 == name {
        Option::Some(entries[0].1)
    } else {
        find_entry(entries.drop_first(), name)
    }
}

/// The entry list after binding `name` to `v`: the first entry for `name`
/// is rewritten in place, or a fresh entry is appended at the end.
pub open spec fn store_entry(entries: Seq<(usize, Value)>, name: usize, v: Value) -> Seq<(usize, Value)>
    decreases entries.len(),
{
    if entries.len() == 0 {
        seq![(name, v)]
    } else if entries[0].0 == name {
        entries.update(0, (name, v))
    } else {
        seq![entries[0]] + store_entry(entries.drop_first(), name, v)
    }
}

/// The parent handle of a scope points strictly below the scope's own slot.
pub open spec fn scope_parent_ok(s: Scope, i: int) -> bool {
    match s.parent {
        Option::Some(p) => (p as int) < i,
        Option::None => true,
    }
}

/// A well-formed scope arena: every parent handle points strictly below
/// the owning slot, so every lookup chain is finite and acyclic.
pub open spec fn scopes_wf(scopes: Seq<Scope>) -> bool {
    forall|i: int| 0 <= i < scopes.len() ==> #[trigger] scope_parent_ok(scopes[i], i)
}

/// Lexical resolution of `name` starting at scope handle `h`: the local
/// bindings first, then each enclosing scope outward to the builtin scope.
pub open spec fn lookup_chain(scopes: Seq<Scope>, h: int, name: usize) -> Option<Value>
    decreases h,
{
    if h < 0 || h >= scopes.len() {
        Option::<Value>::None
    } else {
        match find_entry(scopes[h].entries@, name) {
            Option::Some(v) => Option::Some(v),
            Option::None => match scopes[h].parent {
                Option::Some(p) => if (p as int) < h {
                    lookup_chain(scopes, p as int, name)
                } else {
                    Option::<Value>::None
                },
                Option::None => Option::<Value>::None,
            },
        }
    }
}

/// Unfolding lemma: scanning an entry list from position `i` looks at the
/// entry at `i` first and then the rest.
pub proof fn lemma_find_skip_unfold(entries: Seq<(usize, Value)>, name: usize, i: int)
    requires
        0 <= i < entries.len(),
    ensures
        find_entry(entries.skip(i), name) == (if entries[i].0 == name {
            Option::Some(entries[i].1)
        } else {
            find_entry(entries.skip(i + 1), name)
        }),
{
    assert(entries.skip(i).len() > 0);
    assert(entries.skip(i)[0] == entries[i]);
    assert(entries.skip(i).drop_first() =~= entries.skip(i + 1));
}

/// A store whose name already has an entry (first at index `ix`) rewrites
/// exactly that entry.
pub proof fn lemma_store_at_index(entries: Seq<(usize, Value)>, name: usize, v: Value, ix: int)
    requires
        0 <= ix < entries.len(),
        entries[ix].0 == name,
        forall|j: int| 0 <= j < ix ==> (#[trigger] entries[j]).0 != name,
    ensures
        store_entry(entries, name, v) =~= entries.update(ix, (name, v)),
    decreases entries.len(),
{
    if ix == 0 {
        assert(store_entry(entries, name, v) =~= entries.update(0, (name, v)));
    } else {
        assert(entries[0].0 != name);
        lemma_store_at_index(entries.drop_first(), name, v, ix - 1);
        assert(store_entry(entries, name, v) =~= seq![entries[0]] + entries.drop_first().update(
            ix - 1,
            (name, v),
        ));
        assert(seq![entries[0]] + entries.drop_first().update(ix - 1, (name, v)) =~= entries.update(
            ix,
            (name, v),
        ));
    }
}

/// A store whose name has no entry appends one at the end.
pub proof fn lemma_store_absent(entries: Seq<(usize, Value)>, name: usize, v: Value)
    requires
        forall|j: int| 0 <= j < entries.len() ==> (#[trigger] entries[j]).0 != name,
    ensures
        store_entry(entries, name, v) =~= entries.push((name, v)),
    decreases entries.len(),
{
    if entries.len() == 0 {
        assert(store_entry(entries, name, v) =~= entries.push((name, v)));
    } else {
        assert(entries[0].0 != name);
        lemma_store_absent(entries.drop_first(), name, v);
        assert(store_entry(entries, name, v) =~= seq![entries[0]] + entries.drop_first().push(
            (name, v),
        ));
        assert(seq![entries[0]] + entries.drop_first().push((name, v)) =~= entries.push((name, v)));
    }
}

/// After a store, lookup of the stored name yields the stored value.
pub proof fn lemma_find_after_store(entries: Seq<(usize, Value)>, name: usize, v: Value)
    ensures
        find_entry(store_entry(entries, name, v), name) == Option::Some(v),
    decreases entries.len(),
{
    if entries.len() == 0 {
    } else if entries[0].0 == name {
        assert(store_entry(entries, name, v)[0] == (name, v));
    } else {
        lemma_find_after_store(entries.drop_first(), name, v);
        let s = seq![entries[0]] + store_entry(entries.drop_first(), name, v);
        assert(s[0] == entries[0]);
        assert(s.drop_first() =~= store_entry(entries.drop_first(), name, v));
    }
}

/// After a store, lookup of every other name is unchanged.
pub proof fn lemma_find_after_store_other(
    entries: Seq<(usize, Value)>,
    name: usize,
    v: Value,
    other: usize,
)
    requires
        other != name,
    ensures
        find_entry(store_entry(entries, name, v), other) == find_entry(entries, other),
    decreases entries.len(),
{
    if entries.len() == 0 {
        let s = store_entry(entries, name, v);
        assert(s =~= seq![(name, v)]);
        assert(s[0] == (name, v));
        assert(s.drop_first() =~= Seq::<(usize, Value)>::empty());
        assert(find_entry(s, other) == find_entry(s.drop_first(), other));
        assert(find_entry(s, other) == Option::<Value>::None);
    } else if entries[0].0 == name {
        let s = entries.update(0, (name, v));
        assert(store_entry(entries, name, v) == s);
        assert(s[0] == (name, v));
        assert(s.drop_first() =~= entries.drop_first());
        assert(find_entry(s, other) == find_entry(entries.drop_first(), other));
        assert(find_entry(entries, other) == find_entry(entries.drop_first(), other));
    } else {
        lemma_find_after_store_other(entries.drop_first(), name, v, other);
        let s = seq![entries[0]] + store_entry(entries.drop_first(), name, v);
        assert(store_entry(entries, name, v) == s);
        assert(s.len() > 0);
        assert(s[0] == entries[0]);
        assert(s.drop_first() =~= store_entry(entries.drop_first(), name, v));
        if entries[0].0 == other {
            assert(find_entry(s, other) == Option::Some(entries[0].1));
            assert(find_entry(entries, other) == Option::Some(entries[0].1));
        } else {
            assert(find_entry(s, other) == find_entry(s.drop_first(), other));
            assert(find_entry(entries, other) == find_entry(entries.drop_first(), other));
        }
    }
}

/// Chain lookup from handle `h` only reads slots `0 ..= h`: two arenas that
/// agree on those slots resolve every name identically from `h`.
pub proof fn lemma_lookup_chain_prefix(s1: Seq<Scope>, s2: Seq<Scope>, h: int, name: usize)
    requires
        0 <= h < s1.len(),
        h < s2.len(),
        forall|j: int| 0 <= j <= h ==> s1[j] == s2[j],
    ensures
        lookup_chain(s1, h, name) == lookup_chain(s2, h, name),
    decreases h,
{
    assert(s1[h] == s2[h]);
    match find_entry(s1[h].entries@, name) {
        Option::Some(_) => {},
        Option::None => {
            match s1[h].parent {
                Option::Some(p) => {
                    if (p as int) < h {
                        lemma_lookup_chain_prefix(s1, s2, p as int, name);
                    }
                },
                Option::None => {},
            }
        },
    }
}

/// First index holding an entry for `name`, if any; no earlier entry has it.
pub fn find_index(entries: &Vec<(usize, Value)>, name: usize) -> (r: Option<usize>)
    ensures
        match r {
            Option::Some(ix) => ix < entries@.len() && entries@[ix as int].0 == name && (forall|
                j: int,
            |
                0 <= j < ix ==> (#[trigger] entries@[j]).0 != name),
            Option::None => forall|j: int|
                0 <= j < entries@.len() ==> (#[trigger] entries@[j]).0 != name,
        },
{
    let mut i: usize = 0;
    while i < entries.len()
        invariant
            i <= entries@.len(),
            forall|j: int| 0 <= j < i ==> (#[trigger] entries@[j]).0 != name,
        decreases entries@.len() - i,
    {
        if entries[i].0 == name {
            return Option::Some(i);
        }
        i = i + 1;
    }
    Option::None
}

/// The value bound to `name` in one entry list, if any.
pub fn find_in(entries: &Vec<(usize, Value)>, name: usize) -> (r: Option<Value>)
    ensures
        r == find_entry(entries@, name),
{
    proof {
        assert(entries@.skip(0) =~= entries@);
    }
    let mut i: usize = 0;
    while i < entries.len()
        invariant
            i <= entries@.len(),
            find_entry(entries@, name) == find_entry(entries@.skip(i as int), name),
        decreases entries@.len() - i,
    {
        proof {
            lemma_find_skip_unfold(entries@, name, i as int);
        }
        let e = entries[i];
        if e.0 == name {
            return Option::Some(e.1);
        }
        i = i + 1;
    }
    proof {
        assert(entries@.skip(i as int) =~= Seq::<(usize, Value)>::empty());
    }
    Option::None
}

impl Scope {
    /// Binds `name` to `v` in this scope: the existing entry for `name` is
    /// rewritten in place, or a fresh entry is appended.
    pub fn store(&mut self, name: usize, v: Value)
        ensures
            final(self).entries@ == store_entry(old(self).entries@, name, v),
            final(self).parent == old(self).parent,
    {
        match find_index(&self.entries, name) {
            Option::Some(ix) => {
                proof {
                    lemma_store_at_index(self.entries@, name, v, ix as int);
                }
                self.entries[ix] = (name, v);
            },
            Option::None => {
                proof {
                    lemma_store_absent(self.entries@, name, v);
                }
                self.entries.push((name, v));
            },
        }
    }

    /// The value bound to `name` in this scope alone (no chain walk).
    pub fn get_local(&self, name: usize) -> (r: Option<Value>)
        ensures
            r == find_entry(self.entries@, name),
    {
        find_in(&self.entries, name)
    }
}

/// Lexical resolution of `name` through the chain rooted at handle `h`.
pub fn scope_lookup(scopes: &Vec<Scope>, h: usize, name: usize) -> (r: Option<Value>)
    requires
        scopes_wf(scopes@),
        h < scopes@.len(),
    ensures
        r == lookup_chain(scopes@, h as int, name),
{
    let mut cur: usize = h;
    loop
        invariant
            scopes_wf(scopes@),
            cur < scopes@.len(),
            lookup_chain(scopes@, h as int, name) == lookup_chain(scopes@, cur as int, name),
        decreases cur,
    {
        match find_in(&scopes[cur].entries, name) {
            Option::Some(v) => {
                return Option::Some(v);
            },
            Option::None => {
                match scopes[cur].parent {
                    Option::Some(p) => {
                        proof {
                            assert(scope_parent_ok(scopes@[cur as int], cur as int));
                        }
                        cur = p;
                    },
                    Option::None => {
                        return Option::None;
                    },
                }
            },
        }
    }
}

} // verus!
