use vstd::prelude::*;

verus! {

/// Unique identifier for an entity.
pub type EntityID = u64;

/// Unique identifier for an archetype (a storage table for one set of component types).
pub type ArchetypeID = u64;

/// Identifier of a component type. Every kind of component the application stores
/// gets one such number; two components of the same kind share it.
pub type ComponentTypeId = u64;

/// Storage unit for one component value together with the identifier of its type,
/// used to hand component lists to entity creation.
pub struct MetaDataComponentEntry<V> {
    pub type_id: ComponentTypeId,
    pub component: V,
}

impl<V> MetaDataComponentEntry<V> {
    /// Wraps a component value of the given component type.
    pub fn from_component(type_id: ComponentTypeId, component: V) -> (r: Self)
        ensures
            r.type_id == type_id,
            r.component == component,
    {
        Self { type_id, component }
    }
}

/// A sequence of component type identifiers in strictly increasing order.
pub open spec fn strictly_sorted(s: Seq<u64>) -> bool {
    forall|i: int, j: int| 0 <= i < j < s.len() ==> s[i] < s[j]
}

/// The component map described by parallel sequences of type identifiers and values.
pub open spec fn zip_components<V>(types: Seq<u64>, values: Seq<V>) -> Map<u64, V> {
    Map::new(|t: u64| types.contains(t), |t: u64| values[types.index_of(t)])
}

/// The type identifiers of a list of component entries, in list order.
pub open spec fn entry_types<V>(entries: Seq<MetaDataComponentEntry<V>>) -> Seq<u64> {
    entries.map_values(|e: MetaDataComponentEntry<V>| e.type_id)
}

/// The component values of a list of component entries, in list order.
pub open spec fn entry_values<V>(entries: Seq<MetaDataComponentEntry<V>>) -> Seq<V> {
    entries.map_values(|e: MetaDataComponentEntry<V>| e.component)
}

/// The components that a list of entries with distinct type identifiers describes.
pub open spec fn entries_map<V>(entries: Seq<MetaDataComponentEntry<V>>) -> Map<u64, V> {
    zip_components(entry_types(entries), entry_values(entries))
}

/// Defines the type an entity can have: the identifiers of its component types, sorted.
pub struct EntityType(pub Vec<ComponentTypeId>);

impl EntityType {
    /// The identifiers stored in this entity type.
    pub open spec fn view(&self) -> Seq<u64> {
        self.0@
    }

    /// Grants access to the stored component type identifiers in their order.
    pub fn iter(&self) -> (r: &[ComponentTypeId])
        ensures
            r@ == self.0@,
    {
        self.0.as_slice()
    }

    /// Checks wether or not the entity type contains no component types.
    pub fn is_empty(&self) -> (r: bool)
        ensures
            r == (self.0@.len() == 0),
    {
        self.0.len() == 0
    }

    /// Adds a component type to the entity type, at the place that keeps it sorted.
    pub fn add_component(&mut self, t: ComponentTypeId)
        requires
            strictly_sorted(old(self)@),
        ensures
            exists|p: int|
                0 <= p <= old(self)@.len() && final(self)@ == old(self)@.insert(p, t) && (forall|j: int|
                    0 <= j < p ==> old(self)@[j] < t) && (forall|j: int|
                    p <= j < old(self)@.len() ==> old(self)@[j] >= t),
            !old(self)@.contains(t) ==> strictly_sorted(final(self)@),
    {
        let p = sorted_insert_position(&self.0, t);
        let ghost ts = self.0@;
        proof {
            if !ts.contains(t) {
                assert forall|j: int| p <= j < ts.len() implies ts[j] > t by {
                    assert(ts[j] != t);
                }
                lemma_sorted_insert(ts, p as int, t);
            }
        }
        self.0.insert(p, t);
        assert(self@ == ts.insert(p as int, t));
    }

    /// Removes a component type from the entity type (every occurrence of it); the others
    /// keep their order.
    pub fn rm_component(&mut self, t: ComponentTypeId)
        ensures
            final(self)@ == old(self)@.filter(|x: u64| x != t),
    {
        let mut kept: Vec<ComponentTypeId> = Vec::new();
        let mut i: usize = 0;
        while i < self.0.len()
            invariant
                i <= self.0@.len(),
                kept@ == self.0@.subrange(0, i as int).filter(|x: u64| x != t),
            decreases self.0@.len() - i,
        {
            let x = self.0[i];
            proof {
                let pre = self.0@.subrange(0, i as int);
                let post = self.0@.subrange(0, i + 1);
                reveal_with_fuel(Seq::filter, 1);
                assert(post.drop_last() =~= pre);
            }
            if x != t {
                kept.push(x);
            }
            assert(kept@ =~= self.0@.subrange(0, i + 1).filter(|x: u64| x != t));
            i = i + 1;
        }
        assert(self.0@.subrange(0, self.0@.len() as int) =~= self.0@);
        self.0 = kept;
    }
}

/// Finds the position of a component type identifier in a list.
pub fn position_of(types: &Vec<ComponentTypeId>, t: ComponentTypeId) -> (r: Option<usize>)
    ensures
        match r {
            Some(i) => i < types@.len() && types@[i as int] == t,
            None => !types@.contains(t),
        },
{
    let mut i: usize = 0;
    while i < types.len()
        invariant
            i <= types@.len(),
            forall|j: int| 0 <= j < i ==> types@[j] != t,
        decreases types@.len() - i,
    {
        if types[i] == t {
            return Some(i);
        }
        i = i + 1;
    }
    None
}

/// Finds where a new identifier has to be inserted into a strictly sorted list to keep it sorted.
pub fn sorted_insert_position(types: &Vec<ComponentTypeId>, t: ComponentTypeId) -> (r: usize)
    requires
        strictly_sorted(types@),
    ensures
        r <= types@.len(),
        forall|j: int| 0 <= j < r ==> types@[j] < t,
        forall|j: int| r <= j < types@.len() ==> types@[j] >= t,
{
    let mut i: usize = 0;
    while i < types.len() && types[i] < t
        invariant
            i <= types@.len(),
            strictly_sorted(types@),
            forall|j: int| 0 <= j < i ==> types@[j] < t,
        decreases types@.len() - i,
    {
        i = i + 1;
    }
    i
}

/// Copies a list of identifiers.
pub fn copy_ids(v: &Vec<u64>) -> (r: Vec<u64>)
    ensures
        r@ == v@,
{
    let mut r: Vec<u64> = Vec::new();
    let mut i: usize = 0;
    while i < v.len()
        invariant
            i <= v@.len(),
            r@ == v@.subrange(0, i as int),
        decreases v@.len() - i,
    {
        r.push(v[i]);
        i = i + 1;
        assert(r@ =~= v@.subrange(0, i as int));
    }
    assert(r@ =~= v@);
    r
}

/// Compares two lists of component type identifiers element by element.
pub fn same_types(a: &Vec<ComponentTypeId>, b: &Vec<ComponentTypeId>) -> (r: bool)
    ensures
        r == (a@ == b@),
{
    if a.len() != b.len() {
        return false;
    }
    let mut i: usize = 0;
    while i < a.len()
        invariant
            a@.len() == b@.len(),
            i <= a@.len(),
            forall|j: int| 0 <= j < i ==> a@[j] == b@[j],
        decreases a@.len() - i,
    {
        if a[i] != b[i] {
            return false;
        }
        i = i + 1;
    }
    assert(a@ =~= b@);
    true
}

/// A strictly sorted sequence holds no element twice.
pub proof fn lemma_sorted_no_duplicates(s: Seq<u64>)
    requires
        strictly_sorted(s),
    ensures
        s.no_duplicates(),
{
    assert forall|i: int, j: int| 0 <= i < s.len() && 0 <= j < s.len() && i != j implies s[i]
        != s[j] by {
        if i < j {
            assert(s[i] < s[j]);
        } else {
            assert(s[j] < s[i]);
        }
    }
}

/// In a sequence without duplicates, the position of an element is where it stands.
pub proof fn lemma_index_of_unique<A>(s: Seq<A>, k: int)
    requires
        s.no_duplicates(),
        0 <= k < s.len(),
    ensures
        s.contains(s[k]),
        s.index_of(s[k]) == k,
{
    assert(s.contains(s[k]));
    let i = s.index_of(s[k]);
    assert(0 <= i < s.len() && s[i] == s[k]);
}

/// Inserting a new type identifier (and its value) at the same position of both sequences
/// adds exactly that component to the described map.
pub proof fn lemma_zip_insert<V>(types: Seq<u64>, values: Seq<V>, p: int, t: u64, v: V)
    requires
        types.no_duplicates(),
        types.len() == values.len(),
        0 <= p <= types.len(),
        !types.contains(t),
    ensures
        types.insert(p, t).no_duplicates(),
        types.insert(p, t).len() == values.insert(p, v).len(),
        zip_components(types.insert(p, t), values.insert(p, v)) == zip_components(
            types,
            values,
        ).insert(t, v),
{
    let nt = types.insert(p, t);
    let nv = values.insert(p, v);
    types.insert_ensures(p, t);
    values.insert_ensures(p, v);
    assert forall|i: int, j: int| 0 <= i < nt.len() && 0 <= j < nt.len() && i != j implies nt[i]
        != nt[j] by {
        if i == p {
            if j < p {
                assert(nt[j] == types[j]);
            } else {
                assert(nt[j] == types[j - 1]);
            }
        } else if j == p {
            if i < p {
                assert(nt[i] == types[i]);
            } else {
                assert(nt[i] == types[i - 1]);
            }
        } else {
            let ii = if i < p {
                i
            } else {
                i - 1
            };
            let jj = if j < p {
                j
            } else {
                j - 1
            };
            assert(nt[i] == types[ii]);
            assert(nt[j] == types[jj]);
        }
    }
    let lhs = zip_components(nt, nv);
    let rhs = zip_components(types, values).insert(t, v);
    assert forall|u: u64| lhs.dom().contains(u) <==> rhs.dom().contains(u) by {
        if nt.contains(u) {
            let i = nt.index_of(u);
            if i != p {
                if i < p {
                    assert(types[i] == u);
                } else {
                    assert(types[i - 1] == u);
                }
            }
        }
        if types.contains(u) {
            let k = types.index_of(u);
            if k < p {
                assert(nt[k] == u);
            } else {
                assert(nt[k + 1] == u);
            }
        }
        if u == t {
            assert(nt[p] == t);
        }
    }
    assert forall|u: u64| lhs.dom().contains(u) implies lhs[u] == rhs[u] by {
        if u == t {
            lemma_index_of_unique(nt, p);
        } else {
            assert(types.contains(u));
            let k = types.index_of(u);
            lemma_index_of_unique(types, k);
            if k < p {
                assert(nt[k] == u);
                lemma_index_of_unique(nt, k);
                assert(nv[k] == values[k]);
            } else {
                assert(nt[k + 1] == u);
                lemma_index_of_unique(nt, k + 1);
                assert(nv[k + 1] == values[k]);
            }
        }
    }
    assert(lhs =~= rhs);
}

/// Removing a position from both sequences removes exactly that component from the map.
pub proof fn lemma_zip_remove<V>(types: Seq<u64>, values: Seq<V>, p: int)
    requires
        types.no_duplicates(),
        types.len() == values.len(),
        0 <= p < types.len(),
    ensures
        types.remove(p).no_duplicates(),
        types.remove(p).len() == values.remove(p).len(),
        zip_components(types.remove(p), values.remove(p)) == zip_components(types, values).remove(
            types[p],
        ),
{
    let nt = types.remove(p);
    let nv = values.remove(p);
    types.remove_ensures(p);
    values.remove_ensures(p);
    assert forall|i: int, j: int| 0 <= i < nt.len() && 0 <= j < nt.len() && i != j implies nt[i]
        != nt[j] by {
        let ii = if i < p {
            i
        } else {
            i + 1
        };
        let jj = if j < p {
            j
        } else {
            j + 1
        };
        assert(nt[i] == types[ii]);
        assert(nt[j] == types[jj]);
    }
    let lhs = zip_components(nt, nv);
    let rhs = zip_components(types, values).remove(types[p]);
    assert forall|u: u64| lhs.dom().contains(u) <==> rhs.dom().contains(u) by {
        if nt.contains(u) {
            let i = nt.index_of(u);
            if i < p {
                assert(types[i] == u);
            } else {
                assert(types[i + 1] == u);
            }
        }
        if types.contains(u) && u != types[p] {
            let k = types.index_of(u);
            assert(k != p);
            if k < p {
                assert(nt[k] == u);
            } else {
                assert(nt[k - 1] == u);
            }
        }
    }
    assert forall|u: u64| lhs.dom().contains(u) implies lhs[u] == rhs[u] by {
        let k = types.index_of(u);
        lemma_index_of_unique(types, k);
        assert(k != p);
        if k < p {
            assert(nt[k] == u);
            lemma_index_of_unique(nt, k);
            assert(nv[k] == values[k]);
        } else {
            assert(nt[k - 1] == u);
            lemma_index_of_unique(nt, k - 1);
            assert(nv[k - 1] == values[k]);
        }
    }
    assert(lhs =~= rhs);
}

/// Inserting an identifier at its sorted position keeps the sequence strictly sorted.
pub proof fn lemma_sorted_insert(types: Seq<u64>, p: int, t: u64)
    requires
        strictly_sorted(types),
        0 <= p <= types.len(),
        forall|j: int| 0 <= j < p ==> types[j] < t,
        forall|j: int| p <= j < types.len() ==> types[j] > t,
    ensures
        strictly_sorted(types.insert(p, t)),
{
    types.insert_ensures(p, t);
    let nt = types.insert(p, t);
    assert forall|i: int, j: int| 0 <= i < j < nt.len() implies nt[i] < nt[j] by {
        if j < p {
        } else if j == p {
            assert(nt[i] == types[i]);
        } else if i < p {
            assert(nt[i] == types[i]);
            assert(nt[j] == types[j - 1]);
        } else if i == p {
            assert(nt[j] == types[j - 1]);
        } else {
            assert(nt[i] == types[i - 1]);
            assert(nt[j] == types[j - 1]);
        }
    }
}

/// Removing a position keeps the sequence strictly sorted.
pub proof fn lemma_sorted_remove(types: Seq<u64>, p: int)
    requires
        strictly_sorted(types),
        0 <= p < types.len(),
    ensures
        strictly_sorted(types.remove(p)),
{
    types.remove_ensures(p);
    let nt = types.remove(p);
    assert forall|i: int, j: int| 0 <= i < j < nt.len() implies nt[i] < nt[j] by {
        let ii = if i < p {
            i
        } else {
            i + 1
        };
        let jj = if j < p {
            j
        } else {
            j + 1
        };
        assert(nt[i] == types[ii]);
        assert(nt[j] == types[jj]);
    }
}

} // verus!
