use vstd::prelude::*;
use crate::ecs::entity::{ComponentTypeId, position_of};
use crate::ecs::entity_manager::Archetype;

verus! {

/// Wether a set of component types passes a query: it holds all queried types and all types
/// of the incl filter, and none of the types of the excl filter.
pub open spec fn selects(
    types: Set<ComponentTypeId>,
    wanted: Seq<ComponentTypeId>,
    incl: Seq<ComponentTypeId>,
    excl: Seq<ComponentTypeId>,
) -> bool {
    &&& forall|i: int| 0 <= i < wanted.len() ==> types.contains(#[trigger] wanted[i])
    &&& forall|i: int| 0 <= i < incl.len() ==> types.contains(#[trigger] incl[i])
    &&& forall|i: int| 0 <= i < excl.len() ==> !types.contains(#[trigger] excl[i])
}

/// A query refuses an entity that lacks a queried or included type, or that has an excluded
/// type; with no filters it takes exactly the entities that have all queried types.
pub proof fn lemma_selects(
    types: Set<ComponentTypeId>,
    wanted: Seq<ComponentTypeId>,
    incl: Seq<ComponentTypeId>,
    excl: Seq<ComponentTypeId>,
    t: ComponentTypeId,
)
    ensures
        wanted.contains(t) && !types.contains(t) ==> !selects(types, wanted, incl, excl),
        incl.contains(t) && !types.contains(t) ==> !selects(types, wanted, incl, excl),
        excl.contains(t) && types.contains(t) ==> !selects(types, wanted, incl, excl),
        selects(types, wanted, Seq::empty(), Seq::empty()) <==> wanted.to_set().subset_of(types),
{
    assert(selects(types, wanted, Seq::empty(), Seq::empty()) <==> wanted.to_set().subset_of(types)) by {
        if wanted.to_set().subset_of(types) {
            assert forall|i: int| 0 <= i < wanted.len() implies types.contains(#[trigger] wanted[i]) by {
                assert(wanted.to_set().contains(wanted[i]));
            }
        }
    }
}

/// Checks that every identifier of `ids` stands in `types`.
pub fn all_contained(ids: &Vec<ComponentTypeId>, types: &Vec<ComponentTypeId>) -> (r: bool)
    ensures
        r == (forall|i: int| 0 <= i < ids@.len() ==> types@.contains(#[trigger] ids@[i])),
{
    let mut i: usize = 0;
    while i < ids.len()
        invariant
            i <= ids@.len(),
            forall|j: int| 0 <= j < i ==> types@.contains(#[trigger] ids@[j]),
        decreases ids@.len() - i,
    {
        match position_of(types, ids[i]) {
            None => {
                return false;
            },
            Some(_) => {},
        }
        i = i + 1;
    }
    true
}

/// Checks that no identifier of `ids` stands in `types`.
pub fn none_contained(ids: &Vec<ComponentTypeId>, types: &Vec<ComponentTypeId>) -> (r: bool)
    ensures
        r == (forall|i: int| 0 <= i < ids@.len() ==> !types@.contains(#[trigger] ids@[i])),
{
    let mut i: usize = 0;
    while i < ids.len()
        invariant
            i <= ids@.len(),
            forall|j: int| 0 <= j < i ==> !types@.contains(#[trigger] ids@[j]),
        decreases ids@.len() - i,
    {
        match position_of(types, ids[i]) {
            None => {},
            Some(_) => {
                return false;
            },
        }
        i = i + 1;
    }
    true
}

/// Result of an immutable query for 1 component type: one reference per entity that passes.
pub type Query1<'a, V> = Vec<&'a V>;

/// Result of an immutable query for 2 component types: one tuple per entity that passes.
pub type Query2<'a, V> = Vec<(&'a V, &'a V)>;

/// Result of an immutable query for 3 component types: one tuple per entity that passes.
pub type Query3<'a, V> = Vec<(&'a V, &'a V, &'a V)>;

/// Result of an immutable query for 4 component types: one tuple per entity that passes.
pub type Query4<'a, V> = Vec<(&'a V, &'a V, &'a V, &'a V)>;

/// Result of an immutable query for 5 component types: one tuple per entity that passes.
pub type Query5<'a, V> = Vec<(&'a V, &'a V, &'a V, &'a V, &'a V)>;

/// One entry of a general query: a component type, and wether entities without it still
/// pass the query (they then yield ``None`` for it).
#[derive(Debug, Clone, Copy, PartialEq, Eq, Structural)]
pub struct QueryType {
    pub type_id: ComponentTypeId,
    pub is_optional: bool,
}

/// The component types of the entries of a general query that are not optional, in order.
pub open spec fn required_types(types: Seq<QueryType>) -> Seq<ComponentTypeId> {
    types.filter(|q: QueryType| !q.is_optional).map_values(|q: QueryType| q.type_id)
}

/// Collects the component types of the entries of a general query that are not optional.
pub fn collect_required(types: &Vec<QueryType>) -> (r: Vec<ComponentTypeId>)
    ensures
        r@ == required_types(types@),
{
    let mut r: Vec<ComponentTypeId> = Vec::new();
    let mut i: usize = 0;
    while i < types.len()
        invariant
            i <= types@.len(),
            r@ == required_types(types@.subrange(0, i as int)),
        decreases types@.len() - i,
    {
        let q = types[i];
        proof {
            let pre = types@.subrange(0, i as int);
            let post = types@.subrange(0, i + 1);
            assert(post =~= pre.push(q));
            reveal_with_fuel(Seq::filter, 1);
            assert(post.filter(|q: QueryType| !q.is_optional) =~= if !q.is_optional {
                pre.filter(|q: QueryType| !q.is_optional).push(q)
            } else {
                pre.filter(|q: QueryType| !q.is_optional)
            }) by {
                assert(post.drop_last() =~= pre);
            }
        }
        if !q.is_optional {
            r.push(q.type_id);
        }
        assert(r@ =~= required_types(types@.subrange(0, i + 1)));
        i = i + 1;
    }
    assert(types@.subrange(0, types@.len() as int) =~= types@);
    r
}

/// A query filter that requires components to be included in an entity.
pub struct IncludeFilter(pub Vec<ComponentTypeId>);

impl IncludeFilter {
    /// Checks wether or not the filter accepts an archetype.
    pub fn matches<V>(&self, archetype: &Archetype<V>) -> (r: bool)
        ensures
            r == (forall|i: int|
                0 <= i < self.0@.len() ==> archetype.spec_types().contains(#[trigger] self.0@[i])),
    {
        all_contained(&self.0, &archetype.entity_type().0)
    }
}

/// A query filter that requires components to be excluded from an entity.
pub struct ExcludeFilter(pub Vec<ComponentTypeId>);

impl ExcludeFilter {
    /// Checks wether or not the filter accepts an archetype.
    pub fn matches<V>(&self, archetype: &Archetype<V>) -> (r: bool)
        ensures
            r == (forall|i: int|
                0 <= i < self.0@.len() ==> !archetype.spec_types().contains(#[trigger] self.0@[i])),
    {
        none_contained(&self.0, &archetype.entity_type().0)
    }
}

} // verus!
