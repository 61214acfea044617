use vstd::prelude::*;

verus! {

/// Names mapped to integer ids.
pub struct IdentMap {
    names: Vec<String>,
    ids: Vec<usize>,
}

/// The map that the entries `names[k] -> ids[k]` make, later entries winning.
pub open spec fn entries(names: Seq<Seq<char>>, ids: Seq<usize>) -> Map<Seq<char>, usize>
    decreases names.len(),
{
    if names.len() == 0 || ids.len() == 0 {
        Map::empty()
    } else {
        entries(names.drop_last(), ids.drop_last()).insert(names.last(), ids.last())
    }
}

proof fn lemma_entries(names: Seq<Seq<char>>, ids: Seq<usize>, n: Seq<char>)
    requires
        names.len() == ids.len(),
        forall|a: int, b: int| 0 <= a < b < names.len() ==> names[a] != names[b],
    ensures
        entries(names, ids).contains_key(n) <==> exists|k: int| 0 <= k < names.len() && names[k] == n,
        forall|k: int| 0 <= k < names.len() && names[k] == n ==> entries(names, ids)[n] == ids[k],
    decreases names.len(),
{
    if names.len() > 0 {
        let (pn, pi) = (names.drop_last(), ids.drop_last());
        lemma_entries(pn, pi, n);
        if entries(names, ids).contains_key(n) && n != names.last() {
            let k = choose|k: int| 0 <= k < pn.len() && pn[k] == n;
            assert(names[k] == n);
        }
        if exists|k: int| 0 <= k < names.len() && names[k] == n {
            let k = choose|k: int| 0 <= k < names.len() && names[k] == n;
            if k < names.len() - 1 {
                assert(pn[k] == n);
            }
        }
    }
}

impl IdentMap {
    pub closed spec fn name_seq(&self) -> Seq<Seq<char>> {
        self.names@.map_values(|s: String| s@)
    }

    pub closed spec fn wf(&self) -> bool {
        &&& self.names@.len() == self.ids@.len()
        &&& forall|a: int, b: int|
            0 <= a < b < self.names@.len() ==> self.names@[a]@ != self.names@[b]@
    }

    /// How many names the map holds.
    pub closed spec fn count(&self) -> nat {
        self.names@.len()
    }

    pub closed spec fn view(&self) -> Map<Seq<char>, usize> {
        entries(self.name_seq(), self.ids@)
    }

    pub fn new() -> (r: IdentMap)
        ensures
            r.wf(),
            r.view() == Map::<Seq<char>, usize>::empty(),
            r.count() == 0,
    {
        IdentMap { names: Vec::new(), ids: Vec::new() }
    }

    /// How many names the map holds.
    pub fn len(&self) -> (r: usize)
        ensures
            r == self.count(),
    {
        self.names.len()
    }

    fn find(&self, ident: &String) -> (r: Option<usize>)
        requires
            self.wf(),
        ensures
            match r {
                Some(k) => k < self.names@.len() && self.names@[k as int]@ == ident@,
                None => forall|k: int| 0 <= k < self.names@.len() ==> self.names@[k]@ != ident@,
            },
    {
        let mut k: usize = 0;
        while k < self.names.len()
            invariant
                k <= self.names@.len(),
                forall|j: int| 0 <= j < k ==> self.names@[j]@ != ident@,
            decreases self.names@.len() - k,
        {
            if self.names[k] == *ident {
                return Some(k);
            }
            k += 1;
        }
        None
    }

    proof fn lemma_view(&self, n: Seq<char>)
        requires
            self.wf(),
        ensures
            self.view().contains_key(n) <==> exists|k: int|
                0 <= k < self.names@.len() && self.names@[k]@ == n,
            forall|k: int|
                0 <= k < self.names@.len() && self.names@[k]@ == n ==> self.view()[n]
                    == self.ids@[k],
    {
        let ns = self.name_seq();
        assert forall|a: int, b: int| 0 <= a < b < ns.len() implies ns[a] != ns[b] by {
            assert(ns[a] == self.names@[a]@ && ns[b] == self.names@[b]@);
        }
        lemma_entries(ns, self.ids@, n);
        if exists|k: int| 0 <= k < ns.len() && ns[k] == n {
            let k = choose|k: int| 0 <= k < ns.len() && ns[k] == n;
            assert(self.names@[k]@ == n);
        }
        if exists|k: int| 0 <= k < self.names@.len() && self.names@[k]@ == n {
            let k = choose|k: int| 0 <= k < self.names@.len() && self.names@[k]@ == n;
            assert(ns[k] == n);
        }
    }

    /// The id of `ident`, if it has one.
    pub fn get(&self, ident: &str) -> (r: Option<usize>)
        requires
            self.wf(),
        ensures
            r == if self.view().contains_key(ident@) {
                Some(self.view()[ident@])
            } else {
                None
            },
    {
        let key = ident.to_owned();
        let found = self.find(&key);
        proof {
            self.lemma_view(ident@);
        }
        match found {
            Some(k) => Some(self.ids[k]),
            None => None,
        }
    }

    /// Gives `ident` the id `id`, in place of any it had.
    pub fn insert(&mut self, ident: String, id: usize)
        requires
            old(self).wf(),
        ensures
            final(self).wf(),
            final(self).view() == old(self).view().insert(ident@, id),
            final(self).count() == if old(self).view().contains_key(ident@) {
                old(self).count()
            } else {
                old(self).count() + 1
            },
    {
        let found = self.find(&ident);
        proof {
            old(self).lemma_view(ident@);
        }
        match found {
            Some(k) => {
                self.ids.set(k, id);
                proof {
                    assert(self.name_seq() == old(self).name_seq());
                    assert(self.wf());
                    assert forall|n: Seq<char>| #[trigger]
                        self.view().contains_key(n) == old(self).view().insert(
                            ident@,
                            id,
                        ).contains_key(n) && (self.view().contains_key(n) ==> self.view()[n]
                        == old(self).view().insert(ident@, id)[n]) by {
                        self.lemma_view(n);
                        old(self).lemma_view(n);
                        if n == ident@ {
                            assert(self.names@[k as int]@ == n);
                            assert(self.view()[n] == self.ids@[k as int]);
                        } else if self.view().contains_key(n) {
                            let j = choose|j: int|
                                0 <= j < self.names@.len() && self.names@[j]@ == n;
                            assert(j != k);
                            assert(self.view()[n] == self.ids@[j]);
                            assert(old(self).view()[n] == old(self).ids@[j]);
                        } else {
                            assert forall|j: int| 0 <= j < old(self).names@.len() implies old(self).names@[j]@ != n by {
                                assert(self.names@[j]@ == old(self).names@[j]@);
                            }
                        }
                    }
                    assert(self.view() =~= old(self).view().insert(ident@, id));
                }
            },
            None => {
                self.names.push(ident);
                self.ids.push(id);
                proof {
                    let ns = self.name_seq();
                    assert(ns.drop_last() =~= old(self).name_seq());
                    assert(self.ids@.drop_last() =~= old(self).ids@);
                    assert(ns.last() == ident@);
                }
            },
        }
    }
}

} // verus!
