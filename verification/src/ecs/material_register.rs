use vstd::prelude::*;
use crate::ecs::entity::lemma_index_of_unique;

verus! {

/// The material register of the entity manager: loaded materials by name. ``Mt`` is the
/// material data.
pub struct MaterialRegister<Mt> {
    names: Vec<String>,
    materials: Vec<Mt>,
}

impl<Mt> MaterialRegister<Mt> {
    /// The stored names, as character sequences, in storage order.
    spec fn name_seq(&self) -> Seq<Seq<char>> {
        self.names@.map_values(|s: String| s@)
    }

    /// Every name is stored once, together with one material.
    pub closed spec fn wf(&self) -> bool {
        &&& self.names@.len() == self.materials@.len()
        &&& self.name_seq().no_duplicates()
    }

    /// The stored materials by name.
    pub closed spec fn materials_map(&self) -> Map<Seq<char>, Mt> {
        Map::new(
            |n: Seq<char>| self.name_seq().contains(n),
            |n: Seq<char>| self.materials@[self.name_seq().index_of(n)],
        )
    }

    proof fn lemma_at(&self, i: int)
        requires
            self.wf(),
            0 <= i < self.names@.len(),
        ensures
            self.materials_map().contains_key(self.names@[i]@),
            self.materials_map()[self.names@[i]@] == self.materials@[i],
    {
        lemma_index_of_unique(self.name_seq(), i);
    }

    /// Finds the storage position of a name.
    fn position(&self, name: &String) -> (r: Option<usize>)
        requires
            self.wf(),
        ensures
            match r {
                Some(i) => i < self.names@.len() && self.names@[i as int]@ == name@,
                None => !self.materials_map().contains_key(name@),
            },
    {
        let mut i: usize = 0;
        while i < self.names.len()
            invariant
                i <= self.names@.len(),
                forall|j: int| 0 <= j < i ==> #[trigger] self.names@[j]@ != name@,
            decreases self.names@.len() - i,
        {
            if self.names[i] == *name {
                return Some(i);
            }
            i = i + 1;
        }
        proof {
            if self.name_seq().contains(name@) {
                let k = self.name_seq().index_of(name@);
                assert(self.names@[k]@ == name@);
            }
        }
        None
    }

    /// Creates an empty register.
    pub fn new() -> (r: Self)
        ensures
            r.wf(),
            r.materials_map() == Map::<Seq<char>, Mt>::empty(),
    {
        let r = Self { names: Vec::new(), materials: Vec::new() };
        assert(r.materials_map() =~= Map::<Seq<char>, Mt>::empty());
        r
    }

    /// Stores a loaded material under its name, replacing a material of the same name.
    /// Returns wether a material of that name was already present (and is overwritten).
    pub fn add_material(&mut self, name: String, material: Mt) -> (r: bool)
        requires
            old(self).wf(),
        ensures
            final(self).wf(),
            r == old(self).materials_map().contains_key(name@),
            final(self).materials_map() == old(self).materials_map().insert(name@, material),
    {
        match self.position(&name) {
            Some(i) => {
                let ghost old_ns = self.name_seq();
                self.materials.set(i, material);
                proof {
                    assert(self.name_seq() =~= old_ns);
                    old(self).lemma_at(i as int);
                    self.lemma_at(i as int);
                    assert forall|n: Seq<char>| #[trigger] self.name_seq().contains(n) && n != name@
                        implies self.materials_map()[n] == old(self).materials_map()[n] by {
                        let k = self.name_seq().index_of(n);
                        old(self).lemma_at(k);
                        self.lemma_at(k);
                    }
                    assert(self.materials_map() =~= old(self).materials_map().insert(name@, material));
                }
                true
            },
            None => {
                let ghost old_ns = self.name_seq();
                let ghost nm = name@;
                self.names.push(name);
                self.materials.push(material);
                proof {
                    assert(self.name_seq() =~= old_ns.push(nm));
                    assert(!old_ns.contains(nm));
                    let n = old_ns.len() as int;
                    assert forall|a: int, b: int|
                        0 <= a < self.name_seq().len() && 0 <= b < self.name_seq().len() && a != b
                            implies self.name_seq()[a] != self.name_seq()[b] by {
                        if a < n && b < n {
                            assert(old_ns[a] != old_ns[b]);
                        } else if a < n {
                            assert(old_ns[a] == self.name_seq()[a]);
                        } else {
                            assert(old_ns[b] == self.name_seq()[b]);
                        }
                    }
                    self.lemma_at(n);
                    assert forall|n2: Seq<char>| #[trigger] self.name_seq().contains(n2) && n2 != nm
                        implies old_ns.contains(n2) && self.materials_map()[n2] == old(self).materials_map()[n2] by {
                        let k = self.name_seq().index_of(n2);
                        assert(k < n);
                        assert(old_ns[k] == n2);
                        old(self).lemma_at(k);
                        self.lemma_at(k);
                    }
                    assert forall|n2: Seq<char>| #[trigger] old_ns.contains(n2) implies self.name_seq().contains(n2) by {
                        let k = old_ns.index_of(n2);
                        assert(self.name_seq()[k] == n2);
                    }
                    assert(self.materials_map() =~= old(self).materials_map().insert(nm, material));
                }
                false
            },
        }
    }

    /// Deletes a stored material and hands it back (``None`` if no material has that name).
    pub fn delete_material(&mut self, name: &String) -> (r: Option<Mt>)
        requires
            old(self).wf(),
        ensures
            final(self).wf(),
            match r {
                Some(m) => old(self).materials_map().contains_key(name@) && m
                    == old(self).materials_map()[name@] && final(self).materials_map()
                    == old(self).materials_map().remove(name@),
                None => !old(self).materials_map().contains_key(name@) && final(self).materials_map()
                    == old(self).materials_map(),
            },
    {
        match self.position(name) {
            None => None,
            Some(i) => {
                let ghost old_ns = self.name_seq();
                let ghost old_ms = self.materials@;
                proof {
                    old(self).lemma_at(i as int);
                }
                self.names.remove(i);
                let m = self.materials.remove(i);
                proof {
                    let ns = self.name_seq();
                    assert(ns =~= old_ns.remove(i as int));
                    assert forall|a: int, b: int|
                        0 <= a < ns.len() && 0 <= b < ns.len() && a != b implies ns[a] != ns[b] by {
                        let aa = if a < i { a } else { a + 1 };
                        let bb = if b < i { b } else { b + 1 };
                        assert(ns[a] == old_ns[aa]);
                        assert(ns[b] == old_ns[bb]);
                    }
                    assert forall|n: Seq<char>| #[trigger] ns.contains(n) implies n != name@
                        && old_ns.contains(n) && self.materials_map()[n] == old(self).materials_map()[n] by {
                        let k = ns.index_of(n);
                        let kk = if k < i { k } else { k + 1 };
                        assert(ns[k] == old_ns[kk]);
                        assert(kk != i);
                        assert(old_ns[kk] != old_ns[i as int]);
                        self.lemma_at(k);
                        old(self).lemma_at(kk);
                        assert(self.materials@[k] == old_ms[kk]);
                    }
                    assert forall|n: Seq<char>| #[trigger] old_ns.contains(n) && n != name@ implies ns.contains(n) by {
                        let k = old_ns.index_of(n);
                        assert(k != i);
                        let nk = if k < i { k } else { k - 1 };
                        assert(ns[nk] == old_ns[k]);
                    }
                    assert(self.materials_map() =~= old(self).materials_map().remove(name@));
                }
                Some(m)
            },
        }
    }

    /// Makes material data available for a given name.
    pub fn material_from_name(&self, name: &String) -> (r: Option<&Mt>)
        requires
            self.wf(),
        ensures
            r == (if self.materials_map().contains_key(name@) {
                Some(&self.materials_map()[name@])
            } else {
                None
            }),
    {
        match self.position(name) {
            Some(i) => {
                proof {
                    self.lemma_at(i as int);
                }
                Some(&self.materials[i])
            },
            None => None,
        }
    }

    /// The names of all stored materials (each once).
    pub fn all_material_names(&self) -> (r: Vec<String>)
        requires
            self.wf(),
        ensures
            r@.map_values(|s: String| s@).no_duplicates(),
            forall|n: Seq<char>| #[trigger] self.materials_map().contains_key(n)
                <==> r@.map_values(|s: String| s@).contains(n),
    {
        let mut r: Vec<String> = Vec::new();
        let mut i: usize = 0;
        while i < self.names.len()
            invariant
                i <= self.names@.len(),
                r@ == self.names@.subrange(0, i as int),
            decreases self.names@.len() - i,
        {
            r.push(self.names[i].clone());
            i = i + 1;
            assert(r@ =~= self.names@.subrange(0, i as int));
        }
        assert(r@ =~= self.names@);
        assert(r@.map_values(|s: String| s@) =~= self.name_seq());
        r
    }
}

} // verus!
