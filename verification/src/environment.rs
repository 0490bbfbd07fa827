//! The lexically scoped variable environment: a stack of scopes, each a map
//! from name to value.  The innermost scope is the last element.  `define`
//! writes the innermost scope; `get` and `assign` walk the chain from the
//! innermost scope outward.

use vstd::prelude::*;

use vstd::hash_map::StringHashMap;

use crate::value::{LitV, LiteralValue};
use crate::LoxErr;

verus! {

/// The mathematical shape of the whole chain: outermost scope first,
/// innermost scope last.
pub type EnvV = Seq<Map<Seq<char>, LitV>>;

/// The mathematical shape of one scope.
pub open spec fn scope_v(m: Map<Seq<char>, LiteralValue>) -> Map<Seq<char>, LitV> {
    Map::new(|k: Seq<char>| m.contains_key(k), |k: Seq<char>| m[k]@)
}

/// A well-formed chain always has at least the global scope.
pub open spec fn env_wf(e: Seq<Map<Seq<char>, LitV>>) -> bool {
    e.len() >= 1
}

/// The value bound to `name`, found in the innermost scope that binds it.
pub open spec fn lookup(e: Seq<Map<Seq<char>, LitV>>, name: Seq<char>) -> Option<LitV>
    decreases e.len(),
{
    if e.len() == 0 {
        None
    } else if e.last().contains_key(name) {
        Some(e.last()[name])
    } else {
        lookup(e.drop_last(), name)
    }
}

/// Whether any scope of the chain binds `name`.
pub open spec fn contains_name(e: Seq<Map<Seq<char>, LitV>>, name: Seq<char>) -> bool {
    lookup(e, name) is Some
}

/// The chain after `define`: the binding inserted into the innermost scope,
/// and no other scope touched.
pub open spec fn env_define(
    e: Seq<Map<Seq<char>, LitV>>,
    name: Seq<char>,
    v: LitV,
) -> Seq<Map<Seq<char>, LitV>>
    recommends
        env_wf(e),
{
    e.update(e.len() - 1, e.last().insert(name, v))
}

/// The chain after `assign`: the innermost scope that already binds `name`
/// is updated; when no scope binds it, the chain is unchanged.
pub open spec fn env_assign(
    e: Seq<Map<Seq<char>, LitV>>,
    name: Seq<char>,
    v: LitV,
) -> Seq<Map<Seq<char>, LitV>>
    decreases e.len(),
{
    if e.len() == 0 {
        e
    } else if e.last().contains_key(name) {
        e.update(e.len() - 1, e.last().insert(name, v))
    } else {
        env_assign(e.drop_last(), name, v).push(e.last())
    }
}

/// A name bound by `define` and not mutated since reads back as the defined
/// value.
pub proof fn lemma_define_then_get(e: Seq<Map<Seq<char>, LitV>>, name: Seq<char>, v: LitV)
    requires
        env_wf(e),
    ensures
        lookup(env_define(e, name, v), name) == Some(v),
{
    let e2 = env_define(e, name, v);
    assert(e2.last() == e.last().insert(name, v));
    assert(e2.last().contains_key(name));
}

/// Assignment to a name that no scope of the chain binds leaves every scope
/// unchanged (and the operation reports failure).
pub proof fn lemma_assign_absent(e: Seq<Map<Seq<char>, LitV>>, name: Seq<char>, v: LitV)
    requires
        !contains_name(e, name),
    ensures
        env_assign(e, name, v) == e,
    decreases e.len(),
{
    if e.len() > 0 {
        lemma_assign_absent(e.drop_last(), name, v);
        assert(env_assign(e, name, v) =~= e);
    } else {
        assert(env_assign(e, name, v) =~= e);
    }
}

/// Assignment updates exactly the innermost enclosing scope that binds the
/// name: every other scope is unchanged.
pub proof fn lemma_assign_innermost(
    e: Seq<Map<Seq<char>, LitV>>,
    name: Seq<char>,
    v: LitV,
    j: int,
)
    requires
        0 <= j < e.len(),
        e[j].contains_key(name),
        forall|k: int| j < k < e.len() ==> !e[k].contains_key(name),
    ensures
        env_assign(e, name, v) == e.update(j, e[j].insert(name, v)),
    decreases e.len(),
{
    if j == e.len() - 1 {
        assert(e.last() == e[j]);
        assert(env_assign(e, name, v) =~= e.update(j, e[j].insert(name, v)));
    } else {
        assert(!e.last().contains_key(name));
        let d = e.drop_last();
        assert(forall|k: int| j < k < d.len() ==> !d[k].contains_key(name));
        lemma_assign_innermost(d, name, v, j);
        assert(env_assign(e, name, v) =~= e.update(j, e[j].insert(name, v)));
    }
}

/// Assignment never changes the number of scopes on the chain.
pub proof fn lemma_env_assign_len(e: EnvV, name: Seq<char>, v: LitV)
    ensures
        env_assign(e, name, v).len() == e.len(),
    decreases e.len(),
{
    if e.len() > 0 && !e.last().contains_key(name) {
        lemma_env_assign_len(e.drop_last(), name, v);
    }
}

/// A chain whose scopes all miss `name` looks it up to `None`.
pub proof fn lemma_lookup_none(e: Seq<Map<Seq<char>, LitV>>, name: Seq<char>)
    requires
        forall|k: int| 0 <= k < e.len() ==> !(#[trigger] e[k]).contains_key(name),
    ensures
        lookup(e, name) is None,
    decreases e.len(),
{
    if e.len() > 0 {
        lemma_lookup_none(e.drop_last(), name);
    }
}

/// A chain whose innermost binding of `name` sits at scope `j` looks it up
/// to that scope's value.
pub proof fn lemma_lookup_at(e: Seq<Map<Seq<char>, LitV>>, name: Seq<char>, j: int)
    requires
        0 <= j < e.len(),
        e[j].contains_key(name),
        forall|k: int| j < k < e.len() ==> !(#[trigger] e[k]).contains_key(name),
    ensures
        lookup(e, name) == Some(e[j][name]),
    decreases e.len(),
{
    if j == e.len() - 1 {
    } else {
        let d = e.drop_last();
        assert(forall|k: int| j < k < d.len() ==> !(#[trigger] d[k]).contains_key(name));
        lemma_lookup_at(d, name, j);
    }
}

/// The chain of scopes.  The struct owns every scope; the parent of a scope
/// is simply its predecessor in the vector, so block entry pushes a scope
/// and block exit pops it.
pub struct Environment {
    scopes: Vec<StringHashMap<LiteralValue>>,
}

impl View for Environment {
    type V = Seq<Map<Seq<char>, LitV>>;

    closed spec fn view(&self) -> Seq<Map<Seq<char>, LitV>> {
        self.scopes@.map_values(|s: StringHashMap<LiteralValue>| scope_v(s@))
    }
}

impl Environment {
    /// A fresh chain holding one empty global scope.
    pub fn new() -> (r: Self)
        ensures
            r@ =~= seq![Map::<Seq<char>, LitV>::empty()],
    {
        let mut scopes: Vec<StringHashMap<LiteralValue>> = Vec::new();
        scopes.push(StringHashMap::new());
        let r = Environment { scopes };
        proof {
            assert(r@.len() == 1);
            assert(r@[0] =~= Map::<Seq<char>, LitV>::empty());
        }
        r
    }

    /// Inserts (or overwrites) the binding in the innermost scope only.
    pub fn define(&mut self, name: String, literal: LiteralValue)
        requires
            env_wf(old(self)@),
        ensures
            final(self)@ == env_define(old(self)@, name@, literal@),
    {
        let ghost lit_v = literal@;
        let n = self.scopes.len();
        let scope = &mut self.scopes[n - 1];
        let ghost old_scope = scope@;
        scope.insert(name, literal);
        proof {
            assert(scope_v(scope@) =~= scope_v(old_scope).insert(name@, lit_v));
            assert(self@ =~= env_define(old(self)@, name@, lit_v));
        }
    }

    /// The value of the innermost binding of `key`; an error when no scope
    /// of the chain binds it.
    pub fn get(&self, key: String) -> (r: Result<LiteralValue, LoxErr>)
        ensures
            match r {
                Ok(v) => lookup(self@, key@) == Some(v@),
                Err(e) => lookup(self@, key@) is None && e@ == "No value found"@,
            },
    {
        let n = self.scopes.len();
        let mut i: usize = n;
        while i > 0
            invariant
                i <= n,
                n == self.scopes@.len(),
                forall|k: int| i <= k < n ==> !(#[trigger] self@[k]).contains_key(key@),
            decreases i,
        {
            match self.scopes[i - 1].get(key.as_str()) {
                Some(v) => {
                    let out = v.duplicate();
                    proof {
                        assert(self@[i - 1].contains_key(key@));
                        assert(self@[i - 1][key@] == out@);
                        lemma_lookup_at(self@, key@, i - 1);
                    }
                    return Ok(out);
                }
                None => {
                    proof {
                        assert(!self@[i - 1].contains_key(key@));
                    }
                }
            }
            i = i - 1;
        }
        proof {
            lemma_lookup_none(self@, key@);
        }
        Err(LoxErr { msg: "No value found".to_owned() })
    }

    /// Walks the chain from the innermost scope outward and updates the
    /// first scope that already binds `name`; reports whether one did.  It
    /// never creates a binding.
    pub fn assign(&mut self, name: &str, value: LiteralValue) -> (r: bool)
        ensures
            r == contains_name(old(self)@, name@),
            final(self)@ == env_assign(old(self)@, name@, value@),
    {
        let ghost val_v = value@;
        let n = self.scopes.len();
        let mut i: usize = n;
        while i > 0
            invariant
                i <= n,
                n == self.scopes@.len(),
                self@ == old(self)@,
                val_v == value@,
                forall|k: int| i <= k < n ==> !(#[trigger] self@[k]).contains_key(name@),
            decreases i,
        {
            if self.scopes[i - 1].contains_key(name) {
                let ghost j: int = i - 1;
                let scope = &mut self.scopes[i - 1];
                let ghost old_scope = scope@;
                scope.insert(name.to_owned(), value);
                proof {
                    assert(scope_v(scope@) =~= scope_v(old_scope).insert(name@, val_v));
                    assert(self@ =~= old(self)@.update(j, old(self)@[j].insert(name@, val_v)));
                    lemma_assign_innermost(old(self)@, name@, val_v, j);
                    lemma_lookup_at(old(self)@, name@, j);
                }
                return true;
            }
            proof {
                assert(!self@[i - 1].contains_key(name@));
            }
            i = i - 1;
        }
        proof {
            lemma_lookup_none(old(self)@, name@);
            lemma_assign_absent(old(self)@, name@, val_v);
        }
        false
    }

    /// Enters a block: pushes a fresh, empty innermost scope.
    pub fn push_scope(&mut self)
        ensures
            final(self)@ == old(self)@.push(Map::<Seq<char>, LitV>::empty()),
    {
        self.scopes.push(StringHashMap::new());
        proof {
            assert(self@ =~~= old(self)@.push(Map::<Seq<char>, LitV>::empty()));
        }
    }

    /// Leaves a block: discards the innermost scope.  The discarded scope's
    /// bindings are no longer visible anywhere.
    pub fn pop_scope(&mut self)
        requires
            old(self)@.len() >= 1,
        ensures
            final(self)@ == old(self)@.drop_last(),
    {
        let popped = self.scopes.pop();
        proof {
            assert(self@ =~= old(self)@.drop_last());
        }
    }

}

} // verus!
