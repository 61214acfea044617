use std::collections::HashMap;

use vstd::prelude::*;

use crate::types::{value_view, Value, ValueV};

verus! {

broadcast use vstd::std_specs::hash::group_hash_axioms;

/// An environment of bindings from identifier ids to values, as a map of value views.
pub open spec fn env_view(m: Map<usize, Value>) -> Map<usize, ValueV> {
    Map::new(|k: usize| m.contains_key(k), |k: usize| value_view(m[k]))
}

/// The value bound to `id` along the scope chain `chain`, a list of indices into the
/// environments `envs` from outermost to innermost: the innermost environment that binds it
/// wins. An index outside `envs` binds nothing.
pub open spec fn lookup_chain(envs: Seq<Map<usize, ValueV>>, chain: Seq<usize>, id: usize) -> Option<
    ValueV,
>
    decreases chain.len(),
{
    if chain.len() == 0 {
        None
    } else if chain.last() < envs.len() && envs[chain.last() as int].contains_key(id) {
        Some(envs[chain.last() as int][id])
    } else {
        lookup_chain(envs, chain.drop_last(), id)
    }
}

/// A list of `(id, value)` pairs, as views.
pub open spec fn bindings_view(s: Seq<(usize, Value)>) -> Seq<(usize, ValueV)> {
    s.map_values(|p: (usize, Value)| (p.0, value_view(p.1)))
}

/// The value bound to `id` in `env`.
pub fn env_get(env: &HashMap<usize, Value>, id: usize) -> (r: Option<&Value>)
    ensures
        match r {
            Some(v) => env_view(env@).contains_key(id) && env_view(env@)[id] == value_view(*v),
            None => !env_view(env@).contains_key(id),
        },
{
    env.get(&id)
}

/// Binds `id` to `val` in `env`, over any binding it had.
pub fn env_insert(env: &mut HashMap<usize, Value>, id: usize, val: Value)
    ensures
        env_view(final(env)@) == env_view(old(env)@).insert(id, value_view(val)),
{
    env.insert(id, val);
    assert(env_view(env@) =~= env_view(old(env)@).insert(id, value_view(val)));
}

/// Lexical scopes: every environment made so far, and the chain of environments that is in
/// force. A closure keeps the chain it was made in; a call makes a new environment on top of it.
pub struct Scope {
    envs: Vec<HashMap<usize, Value>>,
    chain: Vec<usize>,
}

impl Scope {
    pub closed spec fn envs(&self) -> Seq<Map<usize, ValueV>> {
        self.envs@.map_values(|m: HashMap<usize, Value>| env_view(m@))
    }

    pub closed spec fn chain(&self) -> Seq<usize> {
        self.chain@
    }

    /// One empty environment, in force.
    pub fn new() -> (r: Scope)
        ensures
            r.envs() == seq![Map::<usize, ValueV>::empty()],
            r.chain() == seq![0usize],
    {
        let e: HashMap<usize, Value> = HashMap::new();
        assert(env_view(e@) =~= Map::<usize, ValueV>::empty());
        let r = Scope { envs: vec![e], chain: vec![0] };
        assert(r.envs@ =~= seq![e]);
        assert(r.envs() =~= seq![Map::<usize, ValueV>::empty()]);
        assert(r.chain@ =~= seq![0usize]);
        r
    }

    /// Whether the chain ends in an environment that a binding can go into.
    pub fn can_bind(&self) -> (r: bool)
        ensures
            r == (self.chain().len() > 0 && self.chain().last() < self.envs().len()),
    {
        self.chain.len() > 0 && self.chain[self.chain.len() - 1] < self.envs.len()
    }

    /// Binds `id` to `val` in the innermost environment of the chain, over any earlier binding.
    pub fn insert(&mut self, id: usize, val: Value)
        requires
            old(self).chain().len() > 0,
            old(self).chain().last() < old(self).envs().len(),
        ensures
            final(self).chain() == old(self).chain(),
            final(self).envs() == old(self).envs().update(
                old(self).chain().last() as int,
                old(self).envs()[old(self).chain().last() as int].insert(id, value_view(val)),
            ),
    {
        let c = self.chain[self.chain.len() - 1];
        let mut env: HashMap<usize, Value> = HashMap::new();
        std::mem::swap(&mut env, &mut self.envs[c]);
        let ghost before = env@;
        assert(env_view(before) == old(self).envs()[c as int]);
        env_insert(&mut env, id, val);
        self.envs.set(c, env);
        assert(self.envs() =~= old(self).envs().update(
            c as int,
            old(self).envs()[c as int].insert(id, value_view(val)),
        ));
    }

    /// The value bound to `id` along the chain.
    pub fn get(&self, id: usize) -> (r: Option<&Value>)
        ensures
            match r {
                Some(v) => lookup_chain(self.envs(), self.chain(), id) == Some(value_view(*v)),
                None => lookup_chain(self.envs(), self.chain(), id) is None,
            },
    {
        let mut k = self.chain.len();
        assert(self.chain@.subrange(0, k as int) =~= self.chain@);
        while k > 0
            invariant
                k <= self.chain@.len(),
                lookup_chain(self.envs(), self.chain(), id) == lookup_chain(
                    self.envs(),
                    self.chain@.subrange(0, k as int),
                    id,
                ),
            decreases k,
        {
            let ghost sub = self.chain@.subrange(0, k as int);
            assert(sub.drop_last() =~= self.chain@.subrange(0, k - 1));
            let c = self.chain[k - 1];
            if c < self.envs.len() {
                assert(self.envs()[c as int] == env_view(self.envs@[c as int]@));
                match env_get(&self.envs[c], id) {
                    Some(v) => {
                        return Some(v);
                    },
                    None => {},
                }
            }
            k -= 1;
        }
        None
    }

    /// A copy of the chain in force.
    pub fn current_chain(&self) -> (r: Vec<usize>)
        ensures
            r@ == self.chain(),
    {
        let mut out: Vec<usize> = Vec::new();
        let mut k: usize = 0;
        while k < self.chain.len()
            invariant
                k <= self.chain@.len(),
                out@ == self.chain@.subrange(0, k as int),
            decreases self.chain@.len() - k,
        {
            out.push(self.chain[k]);
            k += 1;
            assert(out@ =~= self.chain@.subrange(0, k as int));
        }
        assert(out@ =~= self.chain@);
        out
    }

    /// Makes a new environment holding `bindings` and puts in force the chain `base` followed
    /// by it.
    pub fn open(&mut self, base: Vec<usize>, bindings: HashMap<usize, Value>)
        ensures
            final(self).envs() == old(self).envs().push(env_view(bindings@)),
            final(self).chain() == base@.push(old(self).envs().len() as usize),
    {
        let e = self.envs.len();
        self.envs.push(bindings);
        let mut c = base;
        c.push(e);
        self.chain = c;
        assert(self.envs() =~= old(self).envs().push(env_view(bindings@)));
    }

    /// Puts the chain `chain` back in force.
    pub fn restore(&mut self, chain: Vec<usize>)
        ensures
            final(self).envs() == old(self).envs(),
            final(self).chain() == chain@,
    {
        self.chain = chain;
    }
}

} // verus!
