use vstd::prelude::*;
use std::collections::HashMap;
use crate::ecs::entity::{
    ArchetypeID, ComponentTypeId, EntityID, EntityType, MetaDataComponentEntry, strictly_sorted,
    zip_components, entry_types, entry_values, entries_map, position_of, same_types,
    sorted_insert_position, copy_ids, lemma_sorted_no_duplicates, lemma_index_of_unique, lemma_zip_insert,
    lemma_zip_remove, lemma_sorted_insert, lemma_sorted_remove,
};
use crate::ecs::query::{
    IncludeFilter, ExcludeFilter, selects, all_contained, QueryType, required_types,
    collect_required, Query1, Query2, Query3, Query4, Query5,
};

verus! {

broadcast use vstd::std_specs::hash::group_hash_axioms;

/// Where the data of an entity is stored: the archetype and the row inside it.
#[derive(Copy, Clone)]
pub struct EntityRecord {
    pub archetype_id: usize,
    pub row: usize,
}

/// Storage table for all entities that have exactly the same set of component types.
/// Column `i` holds the components of type `types[i]`; row `r` of every column belongs
/// to the entity `entities[r]`.
pub struct Archetype<V> {
    entity_type: EntityType,
    columns: Vec<Vec<V>>,
    entities: Vec<EntityID>,
}

impl<V> Archetype<V> {
    /// The sorted component type identifiers of this archetype.
    pub closed spec fn spec_types(&self) -> Seq<ComponentTypeId> {
        self.entity_type.0@
    }

    /// The entities stored in this archetype, by row.
    pub closed spec fn spec_rows(&self) -> Seq<EntityID> {
        self.entities@
    }

    /// Internal consistency of one archetype.
    pub closed spec fn wf(&self) -> bool {
        &&& strictly_sorted(self.entity_type.0@)
        &&& self.entity_type.0@.len() > 0
        &&& self.columns@.len() == self.entity_type.0@.len()
        &&& forall|i: int|
            0 <= i < self.columns@.len() ==> #[trigger] self.columns@[i]@.len()
                == self.entities@.len()
    }

    /// The component values of one row, in column order.
    pub closed spec fn row_values(&self, row: int) -> Seq<V> {
        Seq::new(self.columns@.len(), |i: int| self.columns@[i]@[row])
    }

    /// The components of the entity in the given row.
    pub closed spec fn components_at(&self, row: int) -> Map<ComponentTypeId, V> {
        zip_components(self.entity_type.0@, self.row_values(row))
    }

    /// Grants access to the entity type of this archetype.
    pub fn entity_type(&self) -> (r: &EntityType)
        ensures
            r@ == self.spec_types(),
    {
        &self.entity_type
    }

    /// Creates an empty archetype for an entity type.
    pub fn new(entity_type: EntityType) -> (r: Self)
        requires
            strictly_sorted(entity_type@),
            entity_type@.len() > 0,
        ensures
            r.wf(),
            r.spec_types() == entity_type@,
            r.spec_rows().len() == 0,
    {
        let n = entity_type.0.len();
        let mut columns: Vec<Vec<V>> = Vec::new();
        let mut i: usize = 0;
        while i < n
            invariant
                i <= n,
                columns@.len() == i,
                forall|j: int| 0 <= j < i ==> #[trigger] columns@[j]@.len() == 0,
            decreases n - i,
        {
            columns.push(Vec::new());
            i = i + 1;
        }
        Archetype { entity_type, columns, entities: Vec::new() }
    }

    /// The number of stored rows (entities).
    pub fn component_count(&self) -> (r: usize)
        ensures
            r == self.spec_rows().len(),
    {
        self.entities.len()
    }

    /// Wether or not the archetype stores no rows.
    pub fn is_empty(&self) -> (r: bool)
        ensures
            r == (self.spec_rows().len() == 0),
    {
        self.entities.len() == 0
    }

    /// The value in column `c` of row `row`.
    pub fn get_nth(&self, c: usize, row: usize) -> (r: &V)
        requires
            self.wf(),
            c < self.spec_types().len(),
            row < self.spec_rows().len(),
        ensures
            *r == self.row_values(row as int)[c as int],
    {
        &self.columns[c][row]
    }

    /// Appends a row for an entity with the given component values (in column order).
    pub fn push_row(&mut self, e: EntityID, values: Vec<V>)
        requires
            old(self).wf(),
            values@.len() == old(self).spec_types().len(),
        ensures
            final(self).wf(),
            final(self).spec_types() == old(self).spec_types(),
            final(self).spec_rows() == old(self).spec_rows().push(e),
            forall|r: int|
                0 <= r < old(self).spec_rows().len() ==> #[trigger] final(self).row_values(r)
                    == old(self).row_values(r),
            final(self).row_values(old(self).spec_rows().len() as int) == values@,
    {
        let ghost vals = values@;
        let ghost old_cols = self.columns@;
        let mut values = values;
        let n = values.len();
        let mut i: usize = n;
        while i > 0
            invariant
                n == vals.len(),
                n == old_cols.len(),
                i <= n,
                values@ == vals.subrange(0, i as int),
                self.columns@.len() == n,
                self.entity_type == old(self).entity_type,
                self.entities == old(self).entities,
                old_cols == old(self).columns@,
                forall|j: int| 0 <= j < i ==> #[trigger] self.columns@[j] == old_cols[j],
                forall|j: int|
                    i <= j < n ==> #[trigger] self.columns@[j]@ == old_cols[j]@.push(vals[j]),
            decreases i,
        {
            i = i - 1;
            let v = values.pop().unwrap();
            assert(v == vals[i as int]);
            self.columns[i].push(v);
            assert(values@ =~= vals.subrange(0, i as int));
        }
        self.entities.push(e);
        let ghost len = old(self).entities@.len();
        assert forall|r: int| 0 <= r < len implies #[trigger] self.row_values(r) == old(
            self,
        ).row_values(r) by {
            assert(self.row_values(r) =~= old(self).row_values(r));
        }
        assert(self.row_values(len as int) =~= vals);
    }

    /// Removes a row; the last row takes its place. Returns the removed values (in column order).
    pub fn swap_remove_row(&mut self, r: usize) -> (values: Vec<V>)
        requires
            old(self).wf(),
            r < old(self).spec_rows().len(),
        ensures
            final(self).wf(),
            final(self).spec_types() == old(self).spec_types(),
            final(self).spec_rows() == old(self).spec_rows().update(
                r as int,
                old(self).spec_rows().last(),
            ).drop_last(),
            values@ == old(self).row_values(r as int),
            forall|q: int|
                0 <= q < final(self).spec_rows().len() ==> #[trigger] final(self).row_values(q)
                    == old(self).row_values(
                    if q == r {
                        old(self).spec_rows().len() - 1
                    } else {
                        q
                    },
                ),
    {
        let ghost old_cols = self.columns@;
        let ghost len = self.entities@.len();
        let n = self.columns.len();
        let mut values: Vec<V> = Vec::new();
        let mut i: usize = 0;
        while i < n
            invariant
                n == old_cols.len(),
                i <= n,
                old_cols == old(self).columns@,
                len == old(self).entities@.len(),
                r < len,
                self.columns@.len() == n,
                self.entity_type == old(self).entity_type,
                self.entities == old(self).entities,
                forall|j: int| 0 <= j < n ==> #[trigger] old_cols[j]@.len() == len,
                values@ == old(self).row_values(r as int).subrange(0, i as int),
                forall|j: int| i <= j < n ==> #[trigger] self.columns@[j] == old_cols[j],
                forall|j: int|
                    0 <= j < i ==> #[trigger] self.columns@[j]@ == old_cols[j]@.update(
                        r as int,
                        old_cols[j]@.last(),
                    ).drop_last(),
            decreases n - i,
        {
            assert(self.columns@[i as int]@.len() == len);
            let v = self.columns[i].swap_remove(r);
            values.push(v);
            assert(values@ =~= old(self).row_values(r as int).subrange(0, i + 1));
            i = i + 1;
        }
        self.entities.swap_remove(r);
        assert(values@ =~= old(self).row_values(r as int));
        assert forall|q: int| 0 <= q < self.entities@.len() implies #[trigger] self.row_values(q)
            == old(self).row_values(
            if q == r {
                len - 1
            } else {
                q
            },
        ) by {
            assert(self.row_values(q) =~= old(self).row_values(
                if q == r {
                    len - 1
                } else {
                    q
                },
            ));
        }
        values
    }
}

/// The entity component system that manages all the data associated with an entity.
pub struct ECS<V> {
    next_entity: EntityID,
    next_archetype_id: ArchetypeID,
    entity_index: HashMap<EntityID, EntityRecord>,
    archetypes: Vec<Archetype<V>>,
}

impl<V> View for ECS<V> {
    type V = Map<EntityID, Map<ComponentTypeId, V>>;

    /// Every stored entity with its components, keyed by component type.
    closed spec fn view(&self) -> Map<EntityID, Map<ComponentTypeId, V>> {
        Map::new(
            |e: EntityID| self.entity_index@.contains_key(e),
            |e: EntityID|
                self.archetypes@[self.entity_index@[e].archetype_id as int].components_at(
                    self.entity_index@[e].row as int,
                ),
        )
    }
}

impl<V> ECS<V> {
    /// The identifier the next created entity gets.
    pub closed spec fn next_id(&self) -> EntityID {
        self.next_entity
    }

    /// The id the next created archetype gets (archetype ids are never handed out twice).
    pub closed spec fn next_archetype_id(&self) -> ArchetypeID {
        self.next_archetype_id
    }

    /// The id of the archetype stored first; the stored archetypes have the consecutive ids
    /// from here up to ``next_archetype_id()``.
    pub closed spec fn first_archetype_id(&self) -> int {
        self.next_archetype_id - self.archetypes@.len()
    }

    spec fn record_valid(&self, e: EntityID) -> bool {
        let r = self.entity_index@[e];
        &&& r.archetype_id < self.archetypes@.len()
        &&& r.row < self.archetypes@[r.archetype_id as int].entities@.len()
        &&& self.archetypes@[r.archetype_id as int].entities@[r.row as int] == e
    }

    spec fn row_valid(&self, a: int, r: int) -> bool {
        let e = self.archetypes@[a].entities@[r];
        &&& self.entity_index@.contains_key(e)
        &&& self.entity_index@[e].archetype_id == a
        &&& self.entity_index@[e].row == r
    }

    /// Internal consistency: records and archetype rows point at each other, archetypes are
    /// well formed and have pairwise different entity types, and ids are below the counter.
    pub closed spec fn wf(&self) -> bool {
        &&& forall|a: int| 0 <= a < self.archetypes@.len() ==> #[trigger] self.archetypes@[a].wf()
        &&& forall|a: int, b: int|
            0 <= a < self.archetypes@.len() && 0 <= b < self.archetypes@.len() && a != b
                ==> #[trigger] self.archetypes@[a].spec_types()
                != #[trigger] self.archetypes@[b].spec_types()
        &&& forall|e: EntityID| #[trigger]
            self.entity_index@.contains_key(e) ==> self.record_valid(e)
        &&& forall|a: int, r: int|
            0 <= a < self.archetypes@.len() && 0 <= r < self.archetypes@[a].entities@.len()
                ==> #[trigger] self.row_valid(a, r)
        &&& forall|e: EntityID| #[trigger] self.entity_index@.contains_key(e) ==> e < self.next_entity
        &&& self.archetypes@.len() + 1 <= self.next_archetype_id
    }

    /// Creates a new, empty ECS.
    pub fn new() -> (r: Self)
        ensures
            r.wf(),
            r@ == Map::<EntityID, Map<ComponentTypeId, V>>::empty(),
            r.next_id() == 1,
            r.next_archetype_id() == 1,
            r.first_archetype_id() == 1,
    {
        let r = ECS {
            next_entity: 1,
            next_archetype_id: 1,
            entity_index: HashMap::new(),
            archetypes: Vec::new(),
        };
        assert(r@ =~= Map::<EntityID, Map<ComponentTypeId, V>>::empty());
        r
    }

    /// Finds the archetype that stores exactly the given component types.
    fn find_archetype(&self, types: &Vec<ComponentTypeId>) -> (r: Option<usize>)
        ensures
            match r {
                Some(a) => a < self.archetypes@.len() && self.archetypes@[a as int].spec_types()
                    == types@,
                None => forall|a: int|
                    0 <= a < self.archetypes@.len() ==> #[trigger] self.archetypes@[a].spec_types()
                        != types@,
            },
    {
        let mut a: usize = 0;
        while a < self.archetypes.len()
            invariant
                a <= self.archetypes@.len(),
                forall|b: int| 0 <= b < a ==> #[trigger] self.archetypes@[b].spec_types() != types@,
            decreases self.archetypes@.len() - a,
        {
            if same_types(&self.archetypes[a].entity_type.0, types) {
                return Some(a);
            }
            a = a + 1;
        }
        None
    }

    /// The component types of the stored archetypes, by archetype id.
    pub closed spec fn archetype_types(&self) -> Seq<Seq<ComponentTypeId>> {
        self.archetypes@.map_values(|a: Archetype<V>| a.spec_types())
    }

    /// The entities stored in each archetype, by archetype id.
    pub closed spec fn archetype_rows(&self) -> Seq<Seq<EntityID>> {
        self.archetypes@.map_values(|a: Archetype<V>| a.spec_rows())
    }

    /// No two archetypes store the same entity type.
    pub proof fn lemma_one_archetype_per_type(&self)
        requires
            self.wf(),
        ensures
            self.archetype_types().no_duplicates(),
    {
    }

    /// Gets the archetype for an entity type and creates a new (empty) archetype if necessary.
    /// The same entity type always gets the same id, different types different ids.
    pub fn get_arch_id(&mut self, entity_type: EntityType) -> (r: ArchetypeID)
        requires
            old(self).wf(),
            strictly_sorted(entity_type@),
            entity_type@.len() > 0,
            old(self).next_archetype_id() < u64::MAX,
        ensures
            final(self).archetype_types() == (if old(self).archetype_types().contains(entity_type@) {
                old(self).archetype_types()
            } else {
                old(self).archetype_types().push(entity_type@)
            }),
            final(self).first_archetype_id() == old(self).first_archetype_id(),
            1 <= final(self).first_archetype_id() <= r < final(self).next_archetype_id(),
            r - final(self).first_archetype_id() < final(self).archetype_types().len(),
            final(self).archetype_types()[r - final(self).first_archetype_id()] == entity_type@,
            !old(self).archetype_types().contains(entity_type@) ==> r == old(self).next_archetype_id()
                && final(self).next_archetype_id() == old(self).next_archetype_id() + 1
                && final(self).archetype_rows() == old(self).archetype_rows().push(Seq::empty()),
            old(self).archetype_types().contains(entity_type@) ==> final(self).next_archetype_id()
                == old(self).next_archetype_id() && final(self).archetype_rows()
                == old(self).archetype_rows(),
            final(self).next_id() == old(self).next_id(),
            final(self).wf(),
            final(self)@ == old(self)@,
    {
        let ghost ts = entity_type@;
        let pos = self.arch_id_for(entity_type);
        proof {
            let ot = old(self).archetype_types();
            let nt = self.archetype_types();
            if ot.contains(ts) {
                let k = ot.index_of(ts);
                assert(old(self).archetypes@[k].spec_types() == ts);
                assert(pos < old(self).archetypes@.len()) by {
                    if pos >= old(self).archetypes@.len() {
                        assert(self.archetypes@[k] == old(self).archetypes@[k]);
                        assert(self.archetypes@[k].spec_types() == self.archetypes@[pos as int].spec_types());
                    }
                }
                assert(nt =~= ot);
                assert(self.archetype_rows() =~= old(self).archetype_rows());
            } else {
                assert(pos >= old(self).archetypes@.len()) by {
                    if pos < old(self).archetypes@.len() {
                        assert(ot[pos as int] == ts);
                    }
                }
                assert(nt =~= ot.push(ts));
                assert(self.archetypes@[pos as int].spec_rows() =~= Seq::<EntityID>::empty());
                assert(self.archetype_rows() =~= old(self).archetype_rows().push(Seq::empty()));
            }
        }
        let len = self.archetypes.len();
        let first = self.next_archetype_id - (len as u64);
        first + (pos as u64)
    }


    /// Gets the archetype for an entity type and creates a new archetype if necessary.
    fn arch_id_for(&mut self, entity_type: EntityType) -> (r: usize)
        requires
            old(self).wf(),
            strictly_sorted(entity_type@),
            entity_type@.len() > 0,
            old(self).next_archetype_id < u64::MAX,
        ensures
            final(self).wf(),
            final(self).first_archetype_id() == old(self).first_archetype_id(),
            r >= old(self).archetypes@.len() ==> final(self).next_archetype_id == old(self).next_archetype_id + 1,
            r < old(self).archetypes@.len() ==> final(self).next_archetype_id == old(self).next_archetype_id,
            final(self)@ == old(self)@,
            final(self).next_entity == old(self).next_entity,
            final(self).entity_index@ == old(self).entity_index@,
            r < final(self).archetypes@.len(),
            final(self).archetypes@[r as int].spec_types() == entity_type@,
            final(self).archetypes@.len() >= old(self).archetypes@.len(),
            forall|a: int|
                0 <= a < old(self).archetypes@.len() ==> #[trigger] final(self).archetypes@[a]
                    == old(self).archetypes@[a],
            r >= old(self).archetypes@.len() ==> final(self).archetypes@[r as int].entities@.len()
                == 0,
            r >= old(self).archetypes@.len() ==> r == old(self).archetypes@.len()
                && final(self).archetypes@.len() == old(self).archetypes@.len() + 1,
            r < old(self).archetypes@.len() ==> final(self).archetypes@.len()
                == old(self).archetypes@.len(),
    {
        match self.find_archetype(&entity_type.0) {
            Some(a) => a,
            None => {
                let ghost ts = entity_type@;
                let arch = Archetype::new(entity_type);
                self.archetypes.push(arch);
                self.next_archetype_id = self.next_archetype_id + 1;
                let r = self.archetypes.len() - 1;
                assert forall|a: int, b: int|
                    0 <= a < self.archetypes@.len() && 0 <= b < self.archetypes@.len() && a != b
                        implies #[trigger] self.archetypes@[a].spec_types()
                    != #[trigger] self.archetypes@[b].spec_types() by {
                    if a == r {
                        assert(old(self).archetypes@[b].spec_types() != ts);
                    } else if b == r {
                        assert(old(self).archetypes@[a].spec_types() != ts);
                    } else {
                        assert(old(self).archetypes@[a].spec_types() != old(
                            self,
                        ).archetypes@[b].spec_types());
                    }
                }
                assert forall|e: EntityID| #[trigger]
                    self.entity_index@.contains_key(e) implies self.record_valid(e) by {
                    assert(old(self).record_valid(e));
                }
                assert forall|a: int, rr: int|
                    0 <= a < self.archetypes@.len() && 0 <= rr
                        < self.archetypes@[a].entities@.len() implies #[trigger] self.row_valid(
                    a,
                    rr,
                ) by {
                    assert(old(self).row_valid(a, rr));
                }
                assert(self@ =~= old(self)@);
                r
            },
        }
    }

    /// Stores an entity that is not present yet with components given as sorted types and values.
    fn place_entity(&mut self, e: EntityID, entity_type: EntityType, values: Vec<V>)
        requires
            old(self).wf(),
            !old(self).entity_index@.contains_key(e),
            e < old(self).next_entity,
            strictly_sorted(entity_type@),
            entity_type@.len() > 0,
            values@.len() == entity_type@.len(),
            old(self).next_archetype_id < u64::MAX,
        ensures
            final(self).wf(),
            final(self)@ == old(self)@.insert(e, zip_components(entity_type@, values@)),
            final(self).next_entity == old(self).next_entity,
            final(self).first_archetype_id() == old(self).first_archetype_id(),
            final(self).next_archetype_id == old(self).next_archetype_id
                || final(self).next_archetype_id == old(self).next_archetype_id + 1,
    {
        let ghost ts = entity_type@;
        let ghost vals = values@;
        let a = self.arch_id_for(entity_type);
        let ghost mid = *self;
        let row = self.archetypes[a].entities.len();
        self.archetypes[a].push_row(e, values);
        self.entity_index.insert(e, EntityRecord { archetype_id: a, row });
        assert forall|b: int| 0 <= b < self.archetypes@.len() implies #[trigger] self.archetypes@[b].wf() by {
            assert(mid.archetypes@[b].wf());
        }
        assert forall|b: int, c: int|
            0 <= b < self.archetypes@.len() && 0 <= c < self.archetypes@.len() && b != c
                implies #[trigger] self.archetypes@[b].spec_types()
            != #[trigger] self.archetypes@[c].spec_types() by {
            assert(mid.archetypes@[b].spec_types() != mid.archetypes@[c].spec_types());
        }
        assert forall|x: EntityID| #[trigger]
            self.entity_index@.contains_key(x) implies self.record_valid(x) by {
            if x != e {
                assert(mid.record_valid(x));
            }
        }
        assert forall|b: int, rr: int|
            0 <= b < self.archetypes@.len() && 0 <= rr
                < self.archetypes@[b].entities@.len() implies #[trigger] self.row_valid(b, rr) by {
            if b != a || rr != row {
                assert(mid.row_valid(b, rr));
            }
        }
        assert(self.archetypes@[a as int].components_at(row as int) == zip_components(ts, vals));
        assert forall|x: EntityID| #[trigger] self@.contains_key(x) && x != e implies self@[x]
            == old(self)@[x] by {
            assert(mid.record_valid(x));
            let rec = mid.entity_index@[x];
            if rec.archetype_id == a {
                assert(self.archetypes@[a as int].row_values(rec.row as int)
                    == mid.archetypes@[a as int].row_values(rec.row as int));
            }
        }
        assert(self@ =~= old(self)@.insert(e, zip_components(ts, vals)));
    }

    /// Removes a stored entity from the tables and hands back its archetype and component values.
    fn take_entity(&mut self, e: EntityID) -> (r: (usize, Vec<V>))
        requires
            old(self).wf(),
            old(self).entity_index@.contains_key(e),
        ensures
            final(self).wf(),
            final(self)@ == old(self)@.remove(e),
            final(self).next_entity == old(self).next_entity,
            final(self).next_archetype_id == old(self).next_archetype_id,
            !final(self).entity_index@.contains_key(e),
            e < final(self).next_entity,
            r.0 < final(self).archetypes@.len(),
            final(self).archetypes@.len() == old(self).archetypes@.len(),
            final(self).archetypes@[r.0 as int].spec_types() == old(
                self,
            ).archetypes@[old(self).entity_index@[e].archetype_id as int].spec_types(),
            strictly_sorted(final(self).archetypes@[r.0 as int].spec_types()),
            final(self).archetypes@[r.0 as int].spec_types().len() > 0,
            r.1@.len() == final(self).archetypes@[r.0 as int].spec_types().len(),
            zip_components(final(self).archetypes@[r.0 as int].spec_types(), r.1@) == old(
                self,
            )@[e],
    {
        let ghost old_self = *self;
        assert(old_self.record_valid(e));
        let removed = self.entity_index.remove(&e);
        let rec = removed.unwrap();
        let a = rec.archetype_id;
        let row = rec.row;
        let ghost arch_old = old_self.archetypes@[a as int];
        let ghost last = arch_old.entities@.len() - 1;
        assert(arch_old.wf());
        let values = self.archetypes[a].swap_remove_row(row);
        let ghost mid = *self;
        if row < self.archetypes[a].entities.len() {
            let m = self.archetypes[a].entities[row];
            assert(m == arch_old.entities@[last]);
            assert(old_self.row_valid(a as int, last));
            self.entity_index.insert(m, EntityRecord { archetype_id: a, row });
        }
        let ghost arch_new = self.archetypes@[a as int];
        assert forall|b: int| 0 <= b < self.archetypes@.len() implies #[trigger] self.archetypes@[b].wf() by {
            assert(old_self.archetypes@[b].wf());
        }
        assert forall|b: int, c: int|
            0 <= b < self.archetypes@.len() && 0 <= c < self.archetypes@.len() && b != c
                implies #[trigger] self.archetypes@[b].spec_types()
            != #[trigger] self.archetypes@[c].spec_types() by {
            assert(old_self.archetypes@[b].spec_types() != old_self.archetypes@[c].spec_types());
        }
        assert forall|x: EntityID| #[trigger]
            self.entity_index@.contains_key(x) implies self.record_valid(x) by {
            if x != arch_old.entities@[last] || row == last {
                assert(old_self.entity_index@.contains_key(x));
                assert(old_self.record_valid(x));
                let rx = old_self.entity_index@[x];
                if rx.archetype_id == a {
                    assert(old_self.row_valid(a as int, rx.row as int));
                    assert(rx.row != row);
                    assert(rx.row != last);
                }
            }
        }
        assert forall|b: int, rr: int|
            0 <= b < self.archetypes@.len() && 0 <= rr
                < self.archetypes@[b].entities@.len() implies #[trigger] self.row_valid(b, rr) by {
            if b == a {
                if rr == row {
                } else {
                    assert(old_self.row_valid(b, rr));
                    assert(old_self.row_valid(b, last));
                    assert(rr != last);
                    assert(arch_new.entities@[rr] == arch_old.entities@[rr]);
                    assert(arch_old.entities@[rr] != arch_old.entities@[last]);
                }
            } else {
                assert(old_self.row_valid(b, rr));
                assert(old_self.archetypes@[b].entities@[rr] != e);
                if row < arch_new.entities@.len() {
                    assert(old_self.archetypes@[b].entities@[rr] != arch_old.entities@[last]);
                }
            }
        }
        assert forall|x: EntityID| #[trigger] self.entity_index@.contains_key(x) implies x < self.next_entity by {
            assert(old_self.entity_index@.contains_key(x));
        }
        assert forall|x: EntityID| #[trigger] self@.contains_key(x) implies self@[x]
            == old_self@[x] by {
            assert(old_self.entity_index@.contains_key(x));
            assert(old_self.record_valid(x));
            let rx = old_self.entity_index@[x];
            if rx.archetype_id == a {
                if x == arch_old.entities@[last] && row != last {
                    assert(rx.row == last) by {
                        assert(old_self.row_valid(a as int, last));
                    }
                    assert(arch_new.row_values(row as int) == arch_old.row_values(last));
                } else {
                    assert(rx.row != row);
                    assert(rx.row != last) by {
                        if rx.row == last {
                            assert(old_self.row_valid(a as int, last));
                        }
                    }
                    assert(arch_new.row_values(rx.row as int) == arch_old.row_values(
                        rx.row as int,
                    ));
                }
            }
        }
        assert(self@ =~= old_self@.remove(e));
        assert(!self@.contains_key(e));
        (a, values)
    }
}


impl<V> ECS<V> {
    /// Creates a new entity with the given components, stores the data and returns the new id.
    /// All component types in the list have to be different.
    pub fn create_entity(&mut self, components: Vec<MetaDataComponentEntry<V>>) -> (r: EntityID)
        requires
            old(self).wf(),
            components@.len() > 0,
            entry_types(components@).no_duplicates(),
            old(self).next_id() < u64::MAX,
            old(self).next_archetype_id() < u64::MAX,
        ensures
            final(self).wf(),
            final(self).first_archetype_id() == old(self).first_archetype_id(),
            final(self).next_archetype_id() == old(self).next_archetype_id()
                || final(self).next_archetype_id() == old(self).next_archetype_id() + 1,
            r == old(self).next_id(),
            final(self).next_id() == old(self).next_id() + 1,
            !old(self)@.contains_key(r),
            final(self)@ == old(self)@.insert(r, entries_map(components@)),
    {
        let ghost ents = components@;
        let n = components.len();
        let mut comps = components;
        let mut types: Vec<ComponentTypeId> = Vec::new();
        let mut values: Vec<V> = Vec::new();
        assert(entry_types(ents.subrange(n as int, n as int)) =~= Seq::<u64>::empty());
        assert(entry_values(ents.subrange(n as int, n as int)) =~= Seq::<V>::empty());
        assert(zip_components(types@, values@) =~= entries_map(ents.subrange(n as int, n as int)));
        while comps.len() > 0
            invariant
                n == ents.len(),
                comps@.len() <= n,
                comps@ == ents.subrange(0, comps@.len() as int),
                entry_types(ents).no_duplicates(),
                strictly_sorted(types@),
                types@.len() == values@.len(),
                zip_components(types@, values@) == entries_map(
                    ents.subrange(comps@.len() as int, n as int),
                ),
            decreases comps@.len(),
        {
            let k = comps.len() - 1;
            let entry = comps.pop().unwrap();
            assert(entry == ents[k as int]);
            let t = entry.type_id;
            let ghost rest = ents.subrange(k + 1, n as int);
            let ghost cur = ents.subrange(k as int, n as int);
            let ghost rt = entry_types(rest);
            let ghost rv = entry_values(rest);
            proof {
                assert(forall|i: int| 0 <= i < rt.len() ==> #[trigger] rt[i] == entry_types(ents)[k + 1 + i]);
                assert forall|i: int, j: int| 0 <= i < rt.len() && 0 <= j < rt.len() && i != j implies rt[i] != rt[j] by {
                    assert(entry_types(ents)[k + 1 + i] == rt[i]);
                    assert(entry_types(ents)[k + 1 + j] == rt[j]);
                }
                assert(!rt.contains(t)) by {
                    if rt.contains(t) {
                        let j = choose|j: int| 0 <= j < rt.len() && rt[j] == t;
                        assert(entry_types(ents)[k + 1 + j] == t);
                        assert(entry_types(ents)[k as int] == t);
                    }
                }
                // the types seen so far are exactly those of the processed suffix
                assert(zip_components(types@, values@).dom().contains(t) == rt.contains(t));
                assert(!types@.contains(t));
            }
            let p = sorted_insert_position(&types, t);
            proof {
                lemma_sorted_no_duplicates(types@);
                assert forall|j: int| p <= j < types@.len() implies types@[j] > t by {
                    assert(types@[j] != t);
                }
                lemma_sorted_insert(types@, p as int, t);
                lemma_zip_insert(types@, values@, p as int, t, entry.component);
                lemma_zip_insert(rt, rv, 0, t, entry.component);
                assert(entry_types(cur) =~= rt.insert(0, t));
                assert(entry_values(cur) =~= rv.insert(0, entry.component));
            }
            types.insert(p, t);
            values.insert(p, entry.component);
            assert(comps@ =~= ents.subrange(0, comps@.len() as int));
        }
        assert(ents.subrange(0, n as int) =~= ents);
        assert(entry_types(ents).contains(entry_types(ents)[0]));
        assert(entries_map(ents).dom().contains(entry_types(ents)[0]));
        assert(zip_components(types@, values@).dom().contains(entry_types(ents)[0]));
        assert(types@.contains(entry_types(ents)[0]));
        let id = self.next_entity;
        self.next_entity = self.next_entity + 1;
        proof {
            lemma_sorted_no_duplicates(types@);
            assert(!self.entity_index@.contains_key(id));
            assert forall|x: EntityID| #[trigger]
                self.entity_index@.contains_key(x) implies self.record_valid(x) by {
                assert(old(self).record_valid(x));
            }
            assert forall|b: int, rr: int|
                0 <= b < self.archetypes@.len() && 0 <= rr
                    < self.archetypes@[b].entities@.len() implies #[trigger] self.row_valid(b, rr) by {
                assert(old(self).row_valid(b, rr));
            }
        }
        self.place_entity(id, EntityType(types), values);
        id
    }
}


impl<V> ECS<V> {
    /// Relates a stored column entry to the component map of the entity in that row.
    proof fn lemma_component_at(&self, e: EntityID, c: int)
        requires
            self.wf(),
            self.entity_index@.contains_key(e),
            0 <= c < self.archetypes@[self.entity_index@[e].archetype_id as int].entity_type.0@.len(),
        ensures
            ({
                let rec = self.entity_index@[e];
                let arch = self.archetypes@[rec.archetype_id as int];
                &&& self@.contains_key(e)
                &&& self@[e].dom() == arch.entity_type.0@.to_set()
                &&& self@[e].contains_key(arch.entity_type.0@[c])
                &&& self@[e][arch.entity_type.0@[c]] == arch.columns@[c]@[rec.row as int]
            }),
    {
        let rec = self.entity_index@[e];
        let arch = self.archetypes@[rec.archetype_id as int];
        assert(self.record_valid(e));
        assert(arch.wf());
        lemma_sorted_no_duplicates(arch.entity_type.0@);
        lemma_index_of_unique(arch.entity_type.0@, c);
        assert(self@[e].dom() =~= arch.entity_type.0@.to_set());
    }

    /// Deletes a stored entity and all the associated component data. Returns wether or not
    /// the entity existed.
    pub fn delete_entity(&mut self, entity: EntityID) -> (r: bool)
        requires
            old(self).wf(),
        ensures
            final(self).wf(),
            r == old(self)@.contains_key(entity),
            final(self)@ == old(self)@.remove(entity),
            final(self).next_id() == old(self).next_id(),
            final(self).next_archetype_id() == old(self).next_archetype_id(),
            final(self).first_archetype_id() == old(self).first_archetype_id(),
    {
        if self.entity_index.contains_key(&entity) {
            let _ = self.take_entity(entity);
            true
        } else {
            assert(self@ =~= old(self)@.remove(entity));
            false
        }
    }

    /// Yields the component data reference of an entity if present (also returns ``None`` if
    /// the entity ID is invalid).
    pub fn get_component(&self, entity: EntityID, t: ComponentTypeId) -> (r: Option<&V>)
        requires
            self.wf(),
        ensures
            match r {
                Some(v) => self@.contains_key(entity) && self@[entity].contains_key(t) && *v
                    == self@[entity][t],
                None => !(self@.contains_key(entity) && self@[entity].contains_key(t)),
            },
    {
        match self.entity_index.get(&entity) {
            None => None,
            Some(rec) => {
                let a = rec.archetype_id;
                let row = rec.row;
                proof {
                    assert(self.record_valid(entity));
                    assert(self.archetypes@[a as int].wf());
                }
                match position_of(&self.archetypes[a].entity_type.0, t) {
                    None => {
                        proof {
                            if self@[entity].contains_key(t) {
                                let c = self.archetypes@[a as int].entity_type.0@.index_of(t);
                                self.lemma_component_at(entity, c);
                            }
                        }
                        None
                    },
                    Some(c) => {
                        proof {
                            self.lemma_component_at(entity, c as int);
                        }
                        Some(&self.archetypes[a].columns[c][row])
                    },
                }
            },
        }
    }

    /// Yields the mutable component data reference of an entity if present (also returns
    /// ``None`` if the entity ID is invalid).
    pub fn get_component_mut(&mut self, entity: EntityID, t: ComponentTypeId) -> (r: Option<&mut V>)
        requires
            old(self).wf(),
        ensures
            final(self).wf(),
            final(self).next_archetype_id() == old(self).next_archetype_id(),
            final(self).first_archetype_id() == old(self).first_archetype_id(),
            final(self).next_id() == old(self).next_id(),
            match r {
                Some(v) => old(self)@.contains_key(entity) && old(self)@[entity].contains_key(t)
                    && *v == old(self)@[entity][t] && final(self)@ == old(self)@.insert(
                    entity,
                    old(self)@[entity].insert(t, *final(v)),
                ),
                None => !(old(self)@.contains_key(entity) && old(self)@[entity].contains_key(t))
                    && final(self)@ == old(self)@,
            },
    {
        let rec = match self.entity_index.get(&entity) {
            None => return None,
            Some(rec) => *rec,
        };
        let a = rec.archetype_id;
        let row = rec.row;
        proof {
            assert(self.record_valid(entity));
            assert(self.archetypes@[a as int].wf());
        }
        let c = match position_of(&self.archetypes[a].entity_type.0, t) {
            None => {
                proof {
                    if self@[entity].contains_key(t) {
                        let c = self.archetypes@[a as int].entity_type.0@.index_of(t);
                        self.lemma_component_at(entity, c);
                    }
                }
                return None;
            },
            Some(c) => c,
        };
        proof {
            self.lemma_component_at(entity, c as int);
            self.lemma_update_any(entity, c as int);
        }
        Some(&mut self.archetypes[a].columns[c][row])
    }

    /// Checks wether or not an entity has a component of given type associated with it
    /// (also returns ``false`` if the entity ID is invalid).
    pub fn has_component(&self, entity: EntityID, t: ComponentTypeId) -> (r: bool)
        requires
            self.wf(),
        ensures
            r == (self@.contains_key(entity) && self@[entity].contains_key(t)),
    {
        match self.get_component(entity, t) {
            Some(_) => true,
            None => false,
        }
    }

    /// Gets the sorted list of all component types of an entity (``None`` if the entity ID is
    /// invalid).
    pub fn get_entity_type(&self, entity: EntityID) -> (r: Option<EntityType>)
        requires
            self.wf(),
        ensures
            match r {
                Some(et) => self@.contains_key(entity) && strictly_sorted(et@) && et@.to_set()
                    == self@[entity].dom(),
                None => !self@.contains_key(entity),
            },
    {
        match self.entity_index.get(&entity) {
            None => None,
            Some(rec) => {
                proof {
                    assert(self.record_valid(entity));
                    assert(self.archetypes@[rec.archetype_id as int].wf());
                    self.lemma_component_at(entity, 0);
                }
                Some(EntityType(copy_ids(&self.archetypes[rec.archetype_id].entity_type.0)))
            },
        }
    }
}


impl<V> ECS<V> {
    /// `s2` equals `self` except for the single table cell in column `c`, row `row` of
    /// archetype `a`.
    spec fn same_but_cell(&self, s2: Self, a: int, c: int, row: int) -> bool {
        &&& s2.next_entity == self.next_entity
        &&& s2.next_archetype_id == self.next_archetype_id
        &&& s2.entity_index@ == self.entity_index@
        &&& s2.archetypes@.len() == self.archetypes@.len()
        &&& forall|b: int| 0 <= b < self.archetypes@.len() && b != a ==> #[trigger] s2.archetypes@[b] == self.archetypes@[b]
        &&& s2.archetypes@[a].entity_type == self.archetypes@[a].entity_type
        &&& s2.archetypes@[a].entities == self.archetypes@[a].entities
        &&& s2.archetypes@[a].columns@.len() == self.archetypes@[a].columns@.len()
        &&& forall|j: int| 0 <= j < self.archetypes@[a].columns@.len() && j != c ==> #[trigger] s2.archetypes@[a].columns@[j] == self.archetypes@[a].columns@[j]
        &&& s2.archetypes@[a].columns@[c]@ == self.archetypes@[a].columns@[c]@.update(row, s2.archetypes@[a].columns@[c]@[row])
    }

    /// Changing one table cell changes exactly one component of the entity in that row.
    proof fn lemma_update_any(&self, e: EntityID, c: int)
        requires
            self.wf(),
            self.entity_index@.contains_key(e),
            0 <= c < self.archetypes@[self.entity_index@[e].archetype_id as int].entity_type.0@.len(),
        ensures
            forall|s2: Self|
                #![trigger s2.view()]
                #![trigger s2.wf()]
                self.same_but_cell(s2, self.entity_index@[e].archetype_id as int, c, self.entity_index@[e].row as int)
                ==> {
                    &&& s2.wf()
                    &&& s2@ == self@.insert(
                        e,
                        self@[e].insert(
                            self.archetypes@[self.entity_index@[e].archetype_id as int].entity_type.0@[c],
                            s2.archetypes@[self.entity_index@[e].archetype_id as int].columns@[c]@[self.entity_index@[e].row as int],
                        ),
                    )
                },
    {
        let rec = self.entity_index@[e];
        let a = rec.archetype_id as int;
        let row = rec.row as int;
        let arch = self.archetypes@[a];
        let t = arch.entity_type.0@[c];
        assert(self.record_valid(e));
        assert(arch.wf());
        lemma_sorted_no_duplicates(arch.entity_type.0@);
        lemma_index_of_unique(arch.entity_type.0@, c);
        assert forall|s2: Self| self.same_but_cell(s2, a, c, row) implies {
            &&& s2.wf()
            &&& s2@ == self@.insert(e, self@[e].insert(t, s2.archetypes@[a].columns@[c]@[row]))
        } by {
            let v = s2.archetypes@[a].columns@[c]@[row];
            let arch2 = s2.archetypes@[a];
            assert forall|b: int| 0 <= b < s2.archetypes@.len() implies #[trigger] s2.archetypes@[b].wf() by {
                assert(self.archetypes@[b].wf());
                if b == a {
                    assert forall|i: int| 0 <= i < arch2.columns@.len() implies #[trigger] arch2.columns@[i]@.len() == arch2.entities@.len() by {
                        assert(arch.columns@[i]@.len() == arch.entities@.len());
                    }
                }
            }
            assert forall|b: int, d: int|
                0 <= b < s2.archetypes@.len() && 0 <= d < s2.archetypes@.len() && b != d
                    implies #[trigger] s2.archetypes@[b].spec_types()
                != #[trigger] s2.archetypes@[d].spec_types() by {
                assert(self.archetypes@[b].spec_types() != self.archetypes@[d].spec_types());
            }
            assert forall|x: EntityID| #[trigger]
                s2.entity_index@.contains_key(x) implies s2.record_valid(x) by {
                assert(self.record_valid(x));
            }
            assert forall|b: int, rr: int|
                0 <= b < s2.archetypes@.len() && 0 <= rr
                    < s2.archetypes@[b].entities@.len() implies #[trigger] s2.row_valid(b, rr) by {
                assert(self.row_valid(b, rr));
            }
            assert forall|x: EntityID| #[trigger] s2.entity_index@.contains_key(x) implies x < s2.next_entity by {
                assert(self.entity_index@.contains_key(x));
            }
            assert forall|x: EntityID| #[trigger] s2@.contains_key(x) implies s2@[x]
                == self@.insert(e, self@[e].insert(t, v))[x] by {
                assert(self.record_valid(x));
                let rx = self.entity_index@[x];
                if rx.archetype_id as int == a {
                    if x == e {
                        assert(arch2.row_values(row) =~= arch.row_values(row).update(c, v));
                        lemma_zip_update(arch.entity_type.0@, arch.row_values(row), c, v);
                    } else {
                        assert(rx.row != rec.row) by {
                            assert(self.row_valid(a, rx.row as int));
                        }
                        assert(arch2.row_values(rx.row as int) =~= arch.row_values(rx.row as int));
                    }
                }
            }
            assert(s2@ =~= self@.insert(e, self@[e].insert(t, v)));
        }
    }
}

/// Replacing one value changes exactly the component of that position.
proof fn lemma_zip_update<V>(types: Seq<u64>, values: Seq<V>, c: int, v: V)
    requires
        types.no_duplicates(),
        types.len() == values.len(),
        0 <= c < types.len(),
    ensures
        zip_components(types, values.update(c, v)) == zip_components(types, values).insert(types[c], v),
{
    lemma_index_of_unique(types, c);
    let lhs = zip_components(types, values.update(c, v));
    let rhs = zip_components(types, values).insert(types[c], v);
    assert forall|u: u64| lhs.dom().contains(u) implies lhs[u] == rhs[u] by {
        let k = types.index_of(u);
        lemma_index_of_unique(types, k);
    }
    assert(lhs =~= rhs);
}


impl<V> ECS<V> {
    /// Adds a component to an existing entity and returns ``false`` if the component type was
    /// already present or the entity ID is invalid (nothing changes then).
    pub fn add_component(&mut self, entity: EntityID, t: ComponentTypeId, component: V) -> (r: bool)
        requires
            old(self).wf(),
            old(self).next_archetype_id() < u64::MAX,
        ensures
            final(self).wf(),
            final(self).first_archetype_id() == old(self).first_archetype_id(),
            final(self).next_archetype_id() == old(self).next_archetype_id()
                || final(self).next_archetype_id() == old(self).next_archetype_id() + 1,
            final(self).next_id() == old(self).next_id(),
            r == (old(self)@.contains_key(entity) && !old(self)@[entity].contains_key(t)),
            r ==> final(self)@ == old(self)@.insert(entity, old(self)@[entity].insert(t, component)),
            !r ==> final(self)@ == old(self)@,
    {
        if !self.entity_index.contains_key(&entity) {
            return false;
        }
        if self.has_component(entity, t) {
            return false;
        }
        proof {
            assert(self.record_valid(entity));
        }
        let (a, values) = self.take_entity(entity);
        let mut types = copy_ids(&self.archetypes[a].entity_type.0);
        let mut values = values;
        let ghost ts = types@;
        let ghost vs = values@;
        proof {
            lemma_sorted_no_duplicates(ts);
            assert(zip_components(ts, vs).dom().contains(t) == ts.contains(t));
            assert(!ts.contains(t));
        }
        let p = sorted_insert_position(&types, t);
        proof {
            assert forall|j: int| p <= j < ts.len() implies ts[j] > t by {
                assert(ts[j] != t);
            }
            lemma_sorted_insert(ts, p as int, t);
            lemma_zip_insert(ts, vs, p as int, t, component);
        }
        types.insert(p, t);
        values.insert(p, component);
        self.place_entity(entity, EntityType(types), values);
        true
    }

    /// Removes a component from an entity and returns the component data if present (also
    /// returns ``None`` if the entity ID is invalid). Deletes the entity if it has no more
    /// components after the removal.
    pub fn remove_component(&mut self, entity: EntityID, t: ComponentTypeId) -> (r: Option<V>)
        requires
            old(self).wf(),
            old(self).next_archetype_id() < u64::MAX,
        ensures
            final(self).wf(),
            final(self).first_archetype_id() == old(self).first_archetype_id(),
            final(self).next_archetype_id() == old(self).next_archetype_id()
                || final(self).next_archetype_id() == old(self).next_archetype_id() + 1,
            final(self).next_id() == old(self).next_id(),
            match r {
                Some(v) => old(self)@.contains_key(entity) && old(self)@[entity].contains_key(t)
                    && v == old(self)@[entity][t] && final(self)@ == (if old(
                    self,
                )@[entity].remove(t) == Map::<ComponentTypeId, V>::empty() {
                    old(self)@.remove(entity)
                } else {
                    old(self)@.insert(entity, old(self)@[entity].remove(t))
                }),
                None => !(old(self)@.contains_key(entity) && old(self)@[entity].contains_key(t))
                    && final(self)@ == old(self)@,
            },
    {
        if !self.has_component(entity, t) {
            return None;
        }
        proof {
            assert(self.record_valid(entity));
        }
        let (a, values) = self.take_entity(entity);
        let mut types = copy_ids(&self.archetypes[a].entity_type.0);
        let mut values = values;
        let ghost ts = types@;
        let ghost vs = values@;
        proof {
            lemma_sorted_no_duplicates(ts);
            assert(zip_components(ts, vs).dom().contains(t) == ts.contains(t));
        }
        let p = match position_of(&types, t) {
            Some(p) => p,
            None => {
                assert(false);
                0
            },
        };
        proof {
            lemma_sorted_remove(ts, p as int);
            lemma_zip_remove(ts, vs, p as int);
            lemma_index_of_unique(ts, p as int);
        }
        types.remove(p);
        let v = values.remove(p);
        assert(v == old(self)@[entity][t]);
        if types.len() == 0 {
            assert(zip_components(types@, values@) =~= Map::<ComponentTypeId, V>::empty());
            Some(v)
        } else {
            assert(zip_components(types@, values@).dom().contains(types@[0]));
            self.place_entity(entity, EntityType(types), values);
            Some(v)
        }
    }

    /// Erases all of the stored entity data (ids handed out so far are not reused).
    pub fn clear(&mut self)
        requires
            old(self).wf(),
        ensures
            final(self).wf(),
            final(self)@ == Map::<EntityID, Map<ComponentTypeId, V>>::empty(),
            final(self).next_id() == old(self).next_id(),
            final(self).next_archetype_id() == old(self).next_archetype_id(),
            final(self).first_archetype_id() == old(self).next_archetype_id(),
            final(self).archetype_types() == Seq::<Seq<ComponentTypeId>>::empty(),
    {
        self.entity_index.clear();
        self.archetypes.clear();
        assert(self.archetype_types() =~= Seq::<Seq<ComponentTypeId>>::empty());
        assert(self@ =~= Map::<EntityID, Map<ComponentTypeId, V>>::empty());
    }
}


/// The entities of the archetypes `0..k` that pass a query, archetype by archetype, row by row.
spec fn order_upto<V>(
    archs: Seq<Archetype<V>>,
    k: int,
    wanted: Seq<ComponentTypeId>,
    incl: Seq<ComponentTypeId>,
    excl: Seq<ComponentTypeId>,
) -> Seq<EntityID>
    decreases k,
{
    if k <= 0 {
        Seq::empty()
    } else {
        order_upto(archs, k - 1, wanted, incl, excl) + if selects(
            archs[k - 1].entity_type.0@.to_set(),
            wanted,
            incl,
            excl,
        ) {
            archs[k - 1].entities@
        } else {
            Seq::empty()
        }
    }
}

impl<V> ECS<V> {
    /// The order in which queries yield the entities that pass them.
    pub closed spec fn query_order(
        &self,
        wanted: Seq<ComponentTypeId>,
        incl: Seq<ComponentTypeId>,
        excl: Seq<ComponentTypeId>,
    ) -> Seq<EntityID> {
        order_upto(self.archetypes@, self.archetypes@.len() as int, wanted, incl, excl)
    }

    proof fn lemma_order_upto(
        &self,
        k: int,
        wanted: Seq<ComponentTypeId>,
        incl: Seq<ComponentTypeId>,
        excl: Seq<ComponentTypeId>,
    )
        requires
            self.wf(),
            0 <= k <= self.archetypes@.len(),
        ensures
            order_upto(self.archetypes@, k, wanted, incl, excl).no_duplicates(),
            forall|e: EntityID|
                #[trigger] order_upto(self.archetypes@, k, wanted, incl, excl).contains(e)
                    <==> (self.entity_index@.contains_key(e) && self.entity_index@[e].archetype_id
                    < k && selects(
                    self.archetypes@[self.entity_index@[e].archetype_id as int].entity_type.0@.to_set(),
                    wanted,
                    incl,
                    excl,
                )),
        decreases k,
    {
        if k > 0 {
            self.lemma_order_upto(k - 1, wanted, incl, excl);
            let prev = order_upto(self.archetypes@, k - 1, wanted, incl, excl);
            let arch = self.archetypes@[k - 1];
            let sel = selects(arch.entity_type.0@.to_set(), wanted, incl, excl);
            let add = if sel {
                arch.entities@
            } else {
                Seq::<EntityID>::empty()
            };
            let cur = order_upto(self.archetypes@, k, wanted, incl, excl);
            assert(cur == prev + add);
            assert forall|i: int| 0 <= i < add.len() implies #[trigger] self.row_valid(k - 1, i) by {}
            assert forall|i: int, j: int| 0 <= i < cur.len() && 0 <= j < cur.len() && i != j implies cur[i] != cur[j] by {
                if i >= prev.len() && j >= prev.len() {
                    assert(self.row_valid(k - 1, i - prev.len()));
                    assert(self.row_valid(k - 1, j - prev.len()));
                } else if i >= prev.len() {
                    assert(self.row_valid(k - 1, i - prev.len()));
                    assert(prev.contains(cur[j]));
                } else if j >= prev.len() {
                    assert(self.row_valid(k - 1, j - prev.len()));
                    assert(prev.contains(cur[i]));
                }
            }
            assert forall|e: EntityID| #[trigger] cur.contains(e) <==> (self.entity_index@.contains_key(e)
                && self.entity_index@[e].archetype_id < k && selects(
                self.archetypes@[self.entity_index@[e].archetype_id as int].entity_type.0@.to_set(),
                wanted,
                incl,
                excl,
            )) by {
                if cur.contains(e) {
                    let i = choose|i: int| 0 <= i < cur.len() && cur[i] == e;
                    if i >= prev.len() {
                        assert(self.row_valid(k - 1, i - prev.len()));
                    } else {
                        assert(prev.contains(e));
                    }
                }
                if self.entity_index@.contains_key(e) && self.entity_index@[e].archetype_id < k
                    && selects(
                    self.archetypes@[self.entity_index@[e].archetype_id as int].entity_type.0@.to_set(),
                    wanted,
                    incl,
                    excl,
                ) {
                    assert(self.record_valid(e));
                    let rec = self.entity_index@[e];
                    if rec.archetype_id == k - 1 {
                        assert(cur[prev.len() + rec.row] == e);
                    } else {
                        assert(prev.contains(e));
                        let i = choose|i: int| 0 <= i < prev.len() && prev[i] == e;
                        assert(cur[i] == e);
                    }
                }
            }
        }
    }

    /// Queries enumerate every entity that passes them exactly once.
    pub proof fn lemma_query_order(
        &self,
        wanted: Seq<ComponentTypeId>,
        incl: Seq<ComponentTypeId>,
        excl: Seq<ComponentTypeId>,
    )
        requires
            self.wf(),
        ensures
            self.query_order(wanted, incl, excl).no_duplicates(),
            forall|e: EntityID|
                #[trigger] self.query_order(wanted, incl, excl).contains(e) <==> (
                self@.contains_key(e) && selects(self@[e].dom(), wanted, incl, excl)),
            self.query_order(wanted, incl, excl).len() == self@.dom().filter(
                |e: EntityID| selects(self@[e].dom(), wanted, incl, excl),
            ).len(),
    {
        self.lemma_order_upto(self.archetypes@.len() as int, wanted, incl, excl);
        assert forall|e: EntityID| #[trigger] self.query_order(wanted, incl, excl).contains(e)
            <==> (self@.contains_key(e) && selects(self@[e].dom(), wanted, incl, excl)) by {
            if self.entity_index@.contains_key(e) {
                assert(self.record_valid(e));
                assert(self.archetypes@[self.entity_index@[e].archetype_id as int].wf());
                self.lemma_component_at(e, 0);
            }
        }
        let q = self.query_order(wanted, incl, excl);
        q.unique_seq_to_set();
        assert(q.to_set() =~= self@.dom().filter(
            |e: EntityID| selects(self@[e].dom(), wanted, incl, excl),
        ));
    }

    /// Wether an archetype passes a query (exec check).
    fn arch_selected(
        &self,
        a: usize,
        wanted: &Vec<ComponentTypeId>,
        incl: &IncludeFilter,
        excl: &ExcludeFilter,
    ) -> (r: bool)
        requires
            a < self.archetypes@.len(),
        ensures
            r == selects(self.archetypes@[a as int].entity_type.0@.to_set(), wanted@, incl.0@, excl.0@),
    {
        let arch = &self.archetypes[a];
        all_contained(wanted, &arch.entity_type.0) && incl.matches(arch) && excl.matches(arch)
    }

    /// The table positions of the entities that pass a query, in query order.
    fn selected_rows(
        &self,
        wanted: &Vec<ComponentTypeId>,
        incl: &IncludeFilter,
        excl: &ExcludeFilter,
    ) -> (r: Vec<(usize, usize)>)
        requires
            self.wf(),
        ensures
            r@.len() == self.query_order(wanted@, incl.0@, excl.0@).len(),
            forall|k: int|
                0 <= k < r@.len() ==> {
                    &&& (#[trigger] r@[k]).0 < self.archetypes@.len()
                    &&& r@[k].1 < self.archetypes@[r@[k].0 as int].entities@.len()
                    &&& self.archetypes@[r@[k].0 as int].entities@[r@[k].1 as int]
                        == self.query_order(wanted@, incl.0@, excl.0@)[k]
                    &&& selects(
                        self.archetypes@[r@[k].0 as int].entity_type.0@.to_set(),
                        wanted@,
                        incl.0@,
                        excl.0@,
                    )
                },
    {
        let ghost w = wanted@;
        let ghost inc = incl.0@;
        let ghost exc = excl.0@;
        let mut r: Vec<(usize, usize)> = Vec::new();
        let mut a: usize = 0;
        while a < self.archetypes.len()
            invariant
                self.wf(),
                a <= self.archetypes@.len(),
                w == wanted@,
                inc == incl.0@,
                exc == excl.0@,
                r@.len() == order_upto(self.archetypes@, a as int, w, inc, exc).len(),
                forall|k: int|
                    0 <= k < r@.len() ==> {
                        &&& (#[trigger] r@[k]).0 < self.archetypes@.len()
                        &&& r@[k].1 < self.archetypes@[r@[k].0 as int].entities@.len()
                        &&& self.archetypes@[r@[k].0 as int].entities@[r@[k].1 as int]
                            == order_upto(self.archetypes@, a as int, w, inc, exc)[k]
                        &&& selects(
                            self.archetypes@[r@[k].0 as int].entity_type.0@.to_set(),
                            w,
                            inc,
                            exc,
                        )
                    },
            decreases self.archetypes@.len() - a,
        {
            let ghost prev = order_upto(self.archetypes@, a as int, w, inc, exc);
            if self.arch_selected(a, wanted, incl, excl) {
                let n = self.archetypes[a].entities.len();
                let ghost rows = self.archetypes@[a as int].entities@;
                let mut row: usize = 0;
                while row < n
                    invariant
                        self.wf(),
                        a < self.archetypes@.len(),
                        n == self.archetypes@[a as int].entities@.len(),
                        rows == self.archetypes@[a as int].entities@,
                        row <= n,
                        selects(self.archetypes@[a as int].entity_type.0@.to_set(), w, inc, exc),
                        r@.len() == prev.len() + row,
                        forall|k: int|
                            0 <= k < r@.len() ==> {
                                &&& (#[trigger] r@[k]).0 < self.archetypes@.len()
                                &&& r@[k].1 < self.archetypes@[r@[k].0 as int].entities@.len()
                                &&& self.archetypes@[r@[k].0 as int].entities@[r@[k].1 as int]
                                    == (prev + rows)[k]
                                &&& selects(
                                    self.archetypes@[r@[k].0 as int].entity_type.0@.to_set(),
                                    w,
                                    inc,
                                    exc,
                                )
                            },
                    decreases n - row,
                {
                    r.push((a, row));
                    row = row + 1;
                }
                assert(order_upto(self.archetypes@, a + 1, w, inc, exc) == prev + rows);
            } else {
                assert(order_upto(self.archetypes@, a + 1, w, inc, exc) =~= prev);
            }
            a = a + 1;
        }
        r
    }

    /// Reference to the component of type `t` of the entity in the given table position.
    fn component_ref(&self, a: usize, row: usize, t: ComponentTypeId) -> (r: &V)
        requires
            self.wf(),
            a < self.archetypes@.len(),
            row < self.archetypes@[a as int].entities@.len(),
            self.archetypes@[a as int].entity_type.0@.contains(t),
        ensures
            self@.contains_key(self.archetypes@[a as int].entities@[row as int]),
            self@[self.archetypes@[a as int].entities@[row as int]].contains_key(t),
            *r == self@[self.archetypes@[a as int].entities@[row as int]][t],
    {
        let c = match position_of(&self.archetypes[a].entity_type.0, t) {
            Some(c) => c,
            None => {
                assert(false);
                0
            },
        };
        proof {
            assert(self.row_valid(a as int, row as int));
            assert(self.archetypes@[a as int].wf());
            self.lemma_component_at(self.archetypes@[a as int].entities@[row as int], c as int);
        }
        &self.archetypes[a].columns[c][row]
    }
}


impl<V> ECS<V> {
    /// `self` stores the same entities in the same table positions as `other`.
    pub closed spec fn same_layout(&self, other: Self) -> bool {
        &&& self.entity_index@ == other.entity_index@
        &&& self.next_entity == other.next_entity
        &&& self.next_archetype_id == other.next_archetype_id
        &&& self.archetypes@.len() == other.archetypes@.len()
        &&& forall|b: int|
            0 <= b < self.archetypes@.len() ==> (#[trigger] self.archetypes@[b]).entity_type
                == other.archetypes@[b].entity_type && self.archetypes@[b].entities
                == other.archetypes@[b].entities
    }

    /// Replaces the component of type `t` of the entity in the given table position.
    fn replace_component(&mut self, a: usize, row: usize, t: ComponentTypeId, v: V)
        requires
            old(self).wf(),
            a < old(self).archetypes@.len(),
            row < old(self).archetypes@[a as int].entities@.len(),
            old(self).archetypes@[a as int].entity_type.0@.contains(t),
        ensures
            final(self).wf(),
            final(self).same_layout(*old(self)),
            final(self)@ == old(self)@.insert(
                old(self).archetypes@[a as int].entities@[row as int],
                old(self)@[old(self).archetypes@[a as int].entities@[row as int]].insert(t, v),
            ),
    {
        let c = match position_of(&self.archetypes[a].entity_type.0, t) {
            Some(c) => c,
            None => {
                assert(false);
                0
            },
        };
        let ghost e = self.archetypes@[a as int].entities@[row as int];
        proof {
            assert(self.row_valid(a as int, row as int));
            assert(self.archetypes@[a as int].wf());
            self.lemma_component_at(e, c as int);
            self.lemma_update_any(e, c as int);
        }
        self.archetypes[a].columns[c].set(row, v);
        proof {
            assert(old(self).same_but_cell(*self, a as int, c as int, row as int));
            assert(self@ == old(self)@.insert(e, old(self)@[e].insert(t, v)));
        }
    }

    /// All stored entity IDs (in storage order).
    pub fn all_ids(&self) -> (r: Vec<EntityID>)
        requires
            self.wf(),
        ensures
            r@ == self.query_order(Seq::empty(), Seq::empty(), Seq::empty()),
            r@.no_duplicates(),
            forall|e: EntityID| #[trigger] r@.contains(e) <==> self@.contains_key(e),
    {
        let wanted: Vec<ComponentTypeId> = Vec::new();
        let incl = IncludeFilter(Vec::new());
        let excl = ExcludeFilter(Vec::new());
        let rows = self.selected_rows(&wanted, &incl, &excl);
        let ghost order = self.query_order(wanted@, incl.0@, excl.0@);
        let mut r: Vec<EntityID> = Vec::new();
        let mut k: usize = 0;
        while k < rows.len()
            invariant
                self.wf(),
                k <= rows@.len(),
                rows@.len() == order.len(),
                order == self.query_order(wanted@, incl.0@, excl.0@),
                forall|j: int|
                    0 <= j < rows@.len() ==> {
                        &&& (#[trigger] rows@[j]).0 < self.archetypes@.len()
                        &&& rows@[j].1 < self.archetypes@[rows@[j].0 as int].entities@.len()
                        &&& self.archetypes@[rows@[j].0 as int].entities@[rows@[j].1 as int]
                            == order[j]
                    },
                r@ == order.subrange(0, k as int),
            decreases rows@.len() - k,
        {
            let (a, row) = rows[k];
            r.push(self.archetypes[a].entities[row]);
            k = k + 1;
            assert(r@ =~= order.subrange(0, k as int));
        }
        assert(r@ =~= order);
        proof {
            self.lemma_query_order(Seq::empty(), Seq::empty(), Seq::empty());
            assert(wanted@ =~= Seq::<ComponentTypeId>::empty());
            assert(incl.0@ =~= Seq::<ComponentTypeId>::empty());
            assert(excl.0@ =~= Seq::<ComponentTypeId>::empty());
        }
        r
    }

    /// Immutable query for 1 component type with given filters.
    pub fn query1(&self, ta: ComponentTypeId, incl: IncludeFilter, excl: ExcludeFilter) -> (r: Query1<'_, V>)
        requires
            self.wf(),
        ensures
            r@.len() == self.query_order(seq![ta], incl.0@, excl.0@).len(),
            forall|k: int|
                0 <= k < r@.len() ==> query_hit(
                    self@,
                    self.query_order(seq![ta], incl.0@, excl.0@)[k],
                    ta,
                    *#[trigger] r@[k],
                ),
    {
        let wanted = vec![ta];
        let rows = self.selected_rows(&wanted, &incl, &excl);
        let ghost order = self.query_order(wanted@, incl.0@, excl.0@);
        assert(wanted@ =~= seq![ta]);
        let mut r: Vec<&V> = Vec::new();
        let mut k: usize = 0;
        while k < rows.len()
            invariant
                self.wf(),
                k <= rows@.len(),
                wanted@ == seq![ta],
                rows@.len() == order.len(),
                order == self.query_order(wanted@, incl.0@, excl.0@),
                forall|j: int|
                    0 <= j < rows@.len() ==> {
                        &&& (#[trigger] rows@[j]).0 < self.archetypes@.len()
                        &&& rows@[j].1 < self.archetypes@[rows@[j].0 as int].entities@.len()
                        &&& self.archetypes@[rows@[j].0 as int].entities@[rows@[j].1 as int]
                            == order[j]
                        &&& selects(
                            self.archetypes@[rows@[j].0 as int].entity_type.0@.to_set(),
                            wanted@,
                            incl.0@,
                            excl.0@,
                        )
                    },
                r@.len() == k,
                forall|j: int| 0 <= j < k ==> query_hit(self@, order[j], ta, *#[trigger] r@[j]),
            decreases rows@.len() - k,
        {
            let (a, row) = rows[k];
            assert(self.archetypes@[a as int].entity_type.0@.to_set().contains(wanted@[0]));
            let x = self.component_ref(a, row, ta);
            r.push(x);
            k = k + 1;
        }
        assert(order == self.query_order(seq![ta], incl.0@, excl.0@));
        r
    }
}


impl<V> ECS<V> {
    /// The component of type `t` of the entity in the given table position, if it has one.
    fn component_opt(&self, a: usize, row: usize, t: ComponentTypeId) -> (r: Option<&V>)
        requires
            self.wf(),
            a < self.archetypes@.len(),
            row < self.archetypes@[a as int].entities@.len(),
        ensures
            self@.contains_key(self.archetypes@[a as int].entities@[row as int]),
            r == (if self@[self.archetypes@[a as int].entities@[row as int]].contains_key(t) {
                Some(&self@[self.archetypes@[a as int].entities@[row as int]][t])
            } else {
                None
            }),
    {
        let ghost e = self.archetypes@[a as int].entities@[row as int];
        proof {
            assert(self.row_valid(a as int, row as int));
            assert(self.archetypes@[a as int].wf());
            self.lemma_component_at(e, 0);
        }
        match position_of(&self.archetypes[a].entity_type.0, t) {
            None => None,
            Some(c) => {
                proof {
                    self.lemma_component_at(e, c as int);
                }
                Some(&self.archetypes[a].columns[c][row])
            },
        }
    }

    /// General immutable query: one row per entity that has every non-optional type of
    /// `types` and passes the filters, in query order. Entry `j` of a row is the component of
    /// type `types[j]`, or ``None`` where that (optional) type is missing.
    pub fn query_types(&self, types: &Vec<QueryType>, incl: IncludeFilter, excl: ExcludeFilter) -> (r: Vec<Vec<Option<&V>>>)
        requires
            self.wf(),
        ensures
            r@.len() == self.query_order(required_types(types@), incl.0@, excl.0@).len(),
            forall|k: int|
                0 <= k < r@.len() ==> (#[trigger] r@[k])@.len() == types@.len()
                    && self@.contains_key(self.query_order(required_types(types@), incl.0@, excl.0@)[k]),
            forall|k: int, j: int|
                #![trigger r@[k]@[j]]
                0 <= k < r@.len() && 0 <= j < types@.len() ==> {
                    let e = self.query_order(required_types(types@), incl.0@, excl.0@)[k];
                    r@[k]@[j] == (if self@[e].contains_key(types@[j].type_id) {
                        Some(&self@[e][types@[j].type_id])
                    } else {
                        None
                    })
                },
    {
        let wanted = collect_required(types);
        let rows = self.selected_rows(&wanted, &incl, &excl);
        let ghost order = self.query_order(wanted@, incl.0@, excl.0@);
        let mut r: Vec<Vec<Option<&V>>> = Vec::new();
        let mut k: usize = 0;
        while k < rows.len()
            invariant
                self.wf(),
                k <= rows@.len(),
                rows@.len() == order.len(),
                forall|i: int|
                    0 <= i < rows@.len() ==> {
                        &&& (#[trigger] rows@[i]).0 < self.archetypes@.len()
                        &&& rows@[i].1 < self.archetypes@[rows@[i].0 as int].entities@.len()
                        &&& self.archetypes@[rows@[i].0 as int].entities@[rows@[i].1 as int]
                            == order[i]
                    },
                r@.len() == k,
                forall|i: int| 0 <= i < k ==> (#[trigger] r@[i])@.len() == types@.len(),
                forall|i: int| 0 <= i < k ==> self@.contains_key(#[trigger] order[i]),
                forall|i: int, j: int|
                    #![trigger r@[i]@[j]]
                    0 <= i < k && 0 <= j < types@.len() ==> r@[i]@[j] == (if self@[order[i]].contains_key(
                        types@[j].type_id,
                    ) {
                        Some(&self@[order[i]][types@[j].type_id])
                    } else {
                        None
                    }),
            decreases rows@.len() - k,
        {
            let (a, row) = rows[k];
            let ghost e = order[k as int];
            proof {
                assert(self.row_valid(a as int, row as int));
            }
            let mut entry: Vec<Option<&V>> = Vec::new();
            let mut j: usize = 0;
            while j < types.len()
                invariant
                    self.wf(),
                    a < self.archetypes@.len(),
                    row < self.archetypes@[a as int].entities@.len(),
                    self.archetypes@[a as int].entities@[row as int] == e,
                    self@.contains_key(e),
                    j <= types@.len(),
                    entry@.len() == j,
                    forall|i: int|
                        0 <= i < j ==> #[trigger] entry@[i] == (if self@[e].contains_key(
                            types@[i].type_id,
                        ) {
                            Some(&self@[e][types@[i].type_id])
                        } else {
                            None
                        }),
                decreases types@.len() - j,
            {
                let x = self.component_opt(a, row, types[j].type_id);
                entry.push(x);
                j = j + 1;
            }
            let ghost prev = r@;
            r.push(entry);
            proof {
                assert forall|i: int, j: int|
                    #![trigger r@[i]@[j]]
                    0 <= i < k + 1 && 0 <= j < types@.len() implies r@[i]@[j] == (if self@[order[i]].contains_key(
                        types@[j].type_id,
                    ) {
                        Some(&self@[order[i]][types@[j].type_id])
                    } else {
                        None
                    }) by {
                    if i < k {
                        assert(r@[i] == prev[i]);
                        assert(prev[i]@[j] == r@[i]@[j]);
                    } else {
                        assert(r@[i] == entry);
                        assert(entry@[j] == r@[i]@[j]);
                    }
                }
            }
            k = k + 1;
        }
        assert(wanted@ == required_types(types@));
        r
    }
}


/// The entity `e` is stored, has a component of type `t`, and `v` is that component.
pub open spec fn query_hit<V>(
    m: Map<EntityID, Map<ComponentTypeId, V>>,
    e: EntityID,
    t: ComponentTypeId,
    v: V,
) -> bool {
    &&& m.contains_key(e)
    &&& m[e].contains_key(t)
    &&& v == m[e][t]
}


impl<V> ECS<V> {
    /// Immutable query for 2 component types with given filters.
    pub fn query2(&self, ta: ComponentTypeId, tb: ComponentTypeId, incl: IncludeFilter, excl: ExcludeFilter) -> (r: Query2<'_, V>)
        requires
            self.wf(),
        ensures
            r@.len() == self.query_order(seq![ta, tb], incl.0@, excl.0@).len(),
            forall|k: int|
                #![trigger r@[k]]
                0 <= k < r@.len() ==> query_hit(self@, self.query_order(seq![ta, tb], incl.0@, excl.0@)[k], ta, *r@[k].0) && query_hit(self@, self.query_order(seq![ta, tb], incl.0@, excl.0@)[k], tb, *r@[k].1),
    {
        let wanted = vec![ta, tb];
        let rows = self.selected_rows(&wanted, &incl, &excl);
        let ghost order = self.query_order(wanted@, incl.0@, excl.0@);
        assert(wanted@ =~= seq![ta, tb]);
        let mut r: Vec<(&V, &V)> = Vec::new();
        let mut k: usize = 0;
        while k < rows.len()
            invariant
                self.wf(),
                k <= rows@.len(),
                wanted@ == seq![ta, tb],
                rows@.len() == order.len(),
                order == self.query_order(wanted@, incl.0@, excl.0@),
                forall|j: int|
                    0 <= j < rows@.len() ==> {
                        &&& (#[trigger] rows@[j]).0 < self.archetypes@.len()
                        &&& rows@[j].1 < self.archetypes@[rows@[j].0 as int].entities@.len()
                        &&& self.archetypes@[rows@[j].0 as int].entities@[rows@[j].1 as int]
                            == order[j]
                        &&& selects(
                            self.archetypes@[rows@[j].0 as int].entity_type.0@.to_set(),
                            wanted@,
                            incl.0@,
                            excl.0@,
                        )
                    },
                r@.len() == k,
                forall|j: int| #![trigger r@[j]] 0 <= j < k ==> query_hit(self@, order[j], ta, *r@[j].0) && query_hit(self@, order[j], tb, *r@[j].1),
            decreases rows@.len() - k,
        {
            let (a, row) = rows[k];
            assert(self.archetypes@[a as int].entity_type.0@.to_set().contains(wanted@[0]));
            assert(self.archetypes@[a as int].entity_type.0@.to_set().contains(wanted@[1]));
            let x0 = self.component_ref(a, row, ta);
            let x1 = self.component_ref(a, row, tb);
            r.push((x0, x1));
            k = k + 1;
        }
        assert(order == self.query_order(seq![ta, tb], incl.0@, excl.0@));
        r
    }

    /// Immutable query for 3 component types with given filters.
    pub fn query3(&self, ta: ComponentTypeId, tb: ComponentTypeId, tc: ComponentTypeId, incl: IncludeFilter, excl: ExcludeFilter) -> (r: Query3<'_, V>)
        requires
            self.wf(),
        ensures
            r@.len() == self.query_order(seq![ta, tb, tc], incl.0@, excl.0@).len(),
            forall|k: int|
                #![trigger r@[k]]
                0 <= k < r@.len() ==> query_hit(self@, self.query_order(seq![ta, tb, tc], incl.0@, excl.0@)[k], ta, *r@[k].0) && query_hit(self@, self.query_order(seq![ta, tb, tc], incl.0@, excl.0@)[k], tb, *r@[k].1) && query_hit(self@, self.query_order(seq![ta, tb, tc], incl.0@, excl.0@)[k], tc, *r@[k].2),
    {
        let wanted = vec![ta, tb, tc];
        let rows = self.selected_rows(&wanted, &incl, &excl);
        let ghost order = self.query_order(wanted@, incl.0@, excl.0@);
        assert(wanted@ =~= seq![ta, tb, tc]);
        let mut r: Vec<(&V, &V, &V)> = Vec::new();
        let mut k: usize = 0;
        while k < rows.len()
            invariant
                self.wf(),
                k <= rows@.len(),
                wanted@ == seq![ta, tb, tc],
                rows@.len() == order.len(),
                order == self.query_order(wanted@, incl.0@, excl.0@),
                forall|j: int|
                    0 <= j < rows@.len() ==> {
                        &&& (#[trigger] rows@[j]).0 < self.archetypes@.len()
                        &&& rows@[j].1 < self.archetypes@[rows@[j].0 as int].entities@.len()
                        &&& self.archetypes@[rows@[j].0 as int].entities@[rows@[j].1 as int]
                            == order[j]
                        &&& selects(
                            self.archetypes@[rows@[j].0 as int].entity_type.0@.to_set(),
                            wanted@,
                            incl.0@,
                            excl.0@,
                        )
                    },
                r@.len() == k,
                forall|j: int| #![trigger r@[j]] 0 <= j < k ==> query_hit(self@, order[j], ta, *r@[j].0) && query_hit(self@, order[j], tb, *r@[j].1) && query_hit(self@, order[j], tc, *r@[j].2),
            decreases rows@.len() - k,
        {
            let (a, row) = rows[k];
            assert(self.archetypes@[a as int].entity_type.0@.to_set().contains(wanted@[0]));
            assert(self.archetypes@[a as int].entity_type.0@.to_set().contains(wanted@[1]));
            assert(self.archetypes@[a as int].entity_type.0@.to_set().contains(wanted@[2]));
            let x0 = self.component_ref(a, row, ta);
            let x1 = self.component_ref(a, row, tb);
            let x2 = self.component_ref(a, row, tc);
            r.push((x0, x1, x2));
            k = k + 1;
        }
        assert(order == self.query_order(seq![ta, tb, tc], incl.0@, excl.0@));
        r
    }

    /// Immutable query for 4 component types with given filters.
    pub fn query4(&self, ta: ComponentTypeId, tb: ComponentTypeId, tc: ComponentTypeId, td: ComponentTypeId, incl: IncludeFilter, excl: ExcludeFilter) -> (r: Query4<'_, V>)
        requires
            self.wf(),
        ensures
            r@.len() == self.query_order(seq![ta, tb, tc, td], incl.0@, excl.0@).len(),
            forall|k: int|
                #![trigger r@[k]]
                0 <= k < r@.len() ==> query_hit(self@, self.query_order(seq![ta, tb, tc, td], incl.0@, excl.0@)[k], ta, *r@[k].0) && query_hit(self@, self.query_order(seq![ta, tb, tc, td], incl.0@, excl.0@)[k], tb, *r@[k].1) && query_hit(self@, self.query_order(seq![ta, tb, tc, td], incl.0@, excl.0@)[k], tc, *r@[k].2) && query_hit(self@, self.query_order(seq![ta, tb, tc, td], incl.0@, excl.0@)[k], td, *r@[k].3),
    {
        let wanted = vec![ta, tb, tc, td];
        let rows = self.selected_rows(&wanted, &incl, &excl);
        let ghost order = self.query_order(wanted@, incl.0@, excl.0@);
        assert(wanted@ =~= seq![ta, tb, tc, td]);
        let mut r: Vec<(&V, &V, &V, &V)> = Vec::new();
        let mut k: usize = 0;
        while k < rows.len()
            invariant
                self.wf(),
                k <= rows@.len(),
                wanted@ == seq![ta, tb, tc, td],
                rows@.len() == order.len(),
                order == self.query_order(wanted@, incl.0@, excl.0@),
                forall|j: int|
                    0 <= j < rows@.len() ==> {
                        &&& (#[trigger] rows@[j]).0 < self.archetypes@.len()
                        &&& rows@[j].1 < self.archetypes@[rows@[j].0 as int].entities@.len()
                        &&& self.archetypes@[rows@[j].0 as int].entities@[rows@[j].1 as int]
                            == order[j]
                        &&& selects(
                            self.archetypes@[rows@[j].0 as int].entity_type.0@.to_set(),
                            wanted@,
                            incl.0@,
                            excl.0@,
                        )
                    },
                r@.len() == k,
                forall|j: int| #![trigger r@[j]] 0 <= j < k ==> query_hit(self@, order[j], ta, *r@[j].0) && query_hit(self@, order[j], tb, *r@[j].1) && query_hit(self@, order[j], tc, *r@[j].2) && query_hit(self@, order[j], td, *r@[j].3),
            decreases rows@.len() - k,
        {
            let (a, row) = rows[k];
            assert(self.archetypes@[a as int].entity_type.0@.to_set().contains(wanted@[0]));
            assert(self.archetypes@[a as int].entity_type.0@.to_set().contains(wanted@[1]));
            assert(self.archetypes@[a as int].entity_type.0@.to_set().contains(wanted@[2]));
            assert(self.archetypes@[a as int].entity_type.0@.to_set().contains(wanted@[3]));
            let x0 = self.component_ref(a, row, ta);
            let x1 = self.component_ref(a, row, tb);
            let x2 = self.component_ref(a, row, tc);
            let x3 = self.component_ref(a, row, td);
            r.push((x0, x1, x2, x3));
            k = k + 1;
        }
        assert(order == self.query_order(seq![ta, tb, tc, td], incl.0@, excl.0@));
        r
    }

    /// Immutable query for 5 component types with given filters.
    pub fn query5(&self, ta: ComponentTypeId, tb: ComponentTypeId, tc: ComponentTypeId, td: ComponentTypeId, te: ComponentTypeId, incl: IncludeFilter, excl: ExcludeFilter) -> (r: Query5<'_, V>)
        requires
            self.wf(),
        ensures
            r@.len() == self.query_order(seq![ta, tb, tc, td, te], incl.0@, excl.0@).len(),
            forall|k: int|
                #![trigger r@[k]]
                0 <= k < r@.len() ==> query_hit(self@, self.query_order(seq![ta, tb, tc, td, te], incl.0@, excl.0@)[k], ta, *r@[k].0) && query_hit(self@, self.query_order(seq![ta, tb, tc, td, te], incl.0@, excl.0@)[k], tb, *r@[k].1) && query_hit(self@, self.query_order(seq![ta, tb, tc, td, te], incl.0@, excl.0@)[k], tc, *r@[k].2) && query_hit(self@, self.query_order(seq![ta, tb, tc, td, te], incl.0@, excl.0@)[k], td, *r@[k].3) && query_hit(self@, self.query_order(seq![ta, tb, tc, td, te], incl.0@, excl.0@)[k], te, *r@[k].4),
    {
        let wanted = vec![ta, tb, tc, td, te];
        let rows = self.selected_rows(&wanted, &incl, &excl);
        let ghost order = self.query_order(wanted@, incl.0@, excl.0@);
        assert(wanted@ =~= seq![ta, tb, tc, td, te]);
        let mut r: Vec<(&V, &V, &V, &V, &V)> = Vec::new();
        let mut k: usize = 0;
        while k < rows.len()
            invariant
                self.wf(),
                k <= rows@.len(),
                wanted@ == seq![ta, tb, tc, td, te],
                rows@.len() == order.len(),
                order == self.query_order(wanted@, incl.0@, excl.0@),
                forall|j: int|
                    0 <= j < rows@.len() ==> {
                        &&& (#[trigger] rows@[j]).0 < self.archetypes@.len()
                        &&& rows@[j].1 < self.archetypes@[rows@[j].0 as int].entities@.len()
                        &&& self.archetypes@[rows@[j].0 as int].entities@[rows@[j].1 as int]
                            == order[j]
                        &&& selects(
                            self.archetypes@[rows@[j].0 as int].entity_type.0@.to_set(),
                            wanted@,
                            incl.0@,
                            excl.0@,
                        )
                    },
                r@.len() == k,
                forall|j: int| #![trigger r@[j]] 0 <= j < k ==> query_hit(self@, order[j], ta, *r@[j].0) && query_hit(self@, order[j], tb, *r@[j].1) && query_hit(self@, order[j], tc, *r@[j].2) && query_hit(self@, order[j], td, *r@[j].3) && query_hit(self@, order[j], te, *r@[j].4),
            decreases rows@.len() - k,
        {
            let (a, row) = rows[k];
            assert(self.archetypes@[a as int].entity_type.0@.to_set().contains(wanted@[0]));
            assert(self.archetypes@[a as int].entity_type.0@.to_set().contains(wanted@[1]));
            assert(self.archetypes@[a as int].entity_type.0@.to_set().contains(wanted@[2]));
            assert(self.archetypes@[a as int].entity_type.0@.to_set().contains(wanted@[3]));
            assert(self.archetypes@[a as int].entity_type.0@.to_set().contains(wanted@[4]));
            let x0 = self.component_ref(a, row, ta);
            let x1 = self.component_ref(a, row, tb);
            let x2 = self.component_ref(a, row, tc);
            let x3 = self.component_ref(a, row, td);
            let x4 = self.component_ref(a, row, te);
            r.push((x0, x1, x2, x3, x4));
            k = k + 1;
        }
        assert(order == self.query_order(seq![ta, tb, tc, td, te], incl.0@, excl.0@));
        r
    }
}


/// `new_c` is `old_c` with the queried components replaced by what `f` returned for them.
pub open spec fn updated1<V, F: Fn(&V) -> V>(
    old_c: Map<ComponentTypeId, V>,
    new_c: Map<ComponentTypeId, V>,
    ta: ComponentTypeId,
    f: F,
) -> bool {
    &&& new_c == old_c.insert(ta, new_c[ta])
    &&& f.ensures((&old_c[ta],), new_c[ta])
}

/// `new_c` is `old_c` with the queried components replaced by what `f` returned for them.
pub open spec fn updated2<V, F: Fn(&V, &V) -> (V, V)>(
    old_c: Map<ComponentTypeId, V>,
    new_c: Map<ComponentTypeId, V>,
    ta: ComponentTypeId, tb: ComponentTypeId,
    f: F,
) -> bool {
    &&& new_c == old_c.insert(ta, new_c[ta]).insert(tb, new_c[tb])
    &&& f.ensures((&old_c[ta], &old_c[tb],), (new_c[ta], new_c[tb]))
}

/// `new_c` is `old_c` with the queried components replaced by what `f` returned for them.
pub open spec fn updated3<V, F: Fn(&V, &V, &V) -> (V, V, V)>(
    old_c: Map<ComponentTypeId, V>,
    new_c: Map<ComponentTypeId, V>,
    ta: ComponentTypeId, tb: ComponentTypeId, tc: ComponentTypeId,
    f: F,
) -> bool {
    &&& new_c == old_c.insert(ta, new_c[ta]).insert(tb, new_c[tb]).insert(tc, new_c[tc])
    &&& f.ensures((&old_c[ta], &old_c[tb], &old_c[tc],), (new_c[ta], new_c[tb], new_c[tc]))
}

/// `new_c` is `old_c` with the queried components replaced by what `f` returned for them.
pub open spec fn updated4<V, F: Fn(&V, &V, &V, &V) -> (V, V, V, V)>(
    old_c: Map<ComponentTypeId, V>,
    new_c: Map<ComponentTypeId, V>,
    ta: ComponentTypeId, tb: ComponentTypeId, tc: ComponentTypeId, td: ComponentTypeId,
    f: F,
) -> bool {
    &&& new_c == old_c.insert(ta, new_c[ta]).insert(tb, new_c[tb]).insert(tc, new_c[tc]).insert(td, new_c[td])
    &&& f.ensures((&old_c[ta], &old_c[tb], &old_c[tc], &old_c[td],), (new_c[ta], new_c[tb], new_c[tc], new_c[td]))
}

/// `new_c` is `old_c` with the queried components replaced by what `f` returned for them.
pub open spec fn updated5<V, F: Fn(&V, &V, &V, &V, &V) -> (V, V, V, V, V)>(
    old_c: Map<ComponentTypeId, V>,
    new_c: Map<ComponentTypeId, V>,
    ta: ComponentTypeId, tb: ComponentTypeId, tc: ComponentTypeId, td: ComponentTypeId, te: ComponentTypeId,
    f: F,
) -> bool {
    &&& new_c == old_c.insert(ta, new_c[ta]).insert(tb, new_c[tb]).insert(tc, new_c[tc]).insert(td, new_c[td]).insert(te, new_c[te])
    &&& f.ensures((&old_c[ta], &old_c[tb], &old_c[tc], &old_c[td], &old_c[te],), (new_c[ta], new_c[tb], new_c[tc], new_c[td], new_c[te]))
}

/// Layout equality chains.
proof fn lemma_same_layout_trans<V>(a: ECS<V>, b: ECS<V>, c: ECS<V>)
    requires
        a.same_layout(b),
        b.same_layout(c),
    ensures
        a.same_layout(c),
{
    assert forall|i: int| 0 <= i < a.archetypes@.len() implies (#[trigger] a.archetypes@[i]).entity_type
        == c.archetypes@[i].entity_type && a.archetypes@[i].entities == c.archetypes@[i].entities by {
        assert(b.archetypes@[i].entity_type == c.archetypes@[i].entity_type);
    }
}

impl<V> ECS<V> {
    /// Mutable query for 1 component type(s) with given filters: every entity that passes
    /// the query gets its queried components replaced by what ``f`` returns for them.
    pub fn query1_mut<F: Fn(&V) -> V>(
        &mut self,
        ta: ComponentTypeId,
        incl: IncludeFilter,
        excl: ExcludeFilter,
        f: F,
    )
        requires
            old(self).wf(),
            forall|e: EntityID| #![trigger old(self)@[e]] old(self).query_order(seq![ta], incl.0@, excl.0@).contains(e)
                ==> f.requires((&old(self)@[e][ta],)),
        ensures
            final(self).wf(),
            final(self).next_archetype_id() == old(self).next_archetype_id(),
            final(self).first_archetype_id() == old(self).first_archetype_id(),
            final(self).next_id() == old(self).next_id(),
            final(self)@.dom() == old(self)@.dom(),
            forall|e: EntityID|
                #[trigger] final(self)@.contains_key(e) ==> if old(self).query_order(
                    seq![ta],
                    incl.0@,
                    excl.0@,
                ).contains(e) {
                    updated1(old(self)@[e], final(self)@[e], ta, f)
                } else {
                    final(self)@[e] == old(self)@[e]
                },
    {
        let wanted = vec![ta];
        let rows = self.selected_rows(&wanted, &incl, &excl);
        let ghost s0 = *self;
        let ghost order = self.query_order(wanted@, incl.0@, excl.0@);
        assert(wanted@ =~= seq![ta]);
        proof {
            self.lemma_query_order(wanted@, incl.0@, excl.0@);
        }
        let mut k: usize = 0;
        while k < rows.len()
            invariant
                self.wf(),
                s0.wf(),
                self.same_layout(s0),
                forall|e: EntityID| #[trigger] order.contains(e) ==> f.requires((&s0@[e][ta],)),
                k <= rows@.len(),
                wanted@ == seq![ta],
                rows@.len() == order.len(),
                order == s0.query_order(wanted@, incl.0@, excl.0@),
                order.no_duplicates(),
                forall|j: int|
                    0 <= j < rows@.len() ==> {
                        &&& (#[trigger] rows@[j]).0 < s0.archetypes@.len()
                        &&& rows@[j].1 < s0.archetypes@[rows@[j].0 as int].entities@.len()
                        &&& s0.archetypes@[rows@[j].0 as int].entities@[rows@[j].1 as int]
                            == order[j]
                        &&& selects(
                            s0.archetypes@[rows@[j].0 as int].entity_type.0@.to_set(),
                            wanted@,
                            incl.0@,
                            excl.0@,
                        )
                    },
                self@.dom() == s0@.dom(),
                forall|e: EntityID|
                    #[trigger] self@.contains_key(e) ==> if order.subrange(0, k as int).contains(e) {
                        updated1(s0@[e], self@[e], ta, f)
                    } else {
                        self@[e] == s0@[e]
                    },
            decreases rows@.len() - k,
        {
            let (a, row) = rows[k];
            let ghost e = order[k as int];
            let ghost before = *self;
            proof {
                assert(self.archetypes@[a as int].entity_type == s0.archetypes@[a as int].entity_type);
                assert(self.archetypes@[a as int].entities == s0.archetypes@[a as int].entities);
                assert(!order.subrange(0, k as int).contains(e));
                assert(self@.contains_key(e) ==> self@[e] == s0@[e]);
            }
            assert(self.archetypes@[a as int].entity_type.0@.to_set().contains(wanted@[0]));
            let x0 = self.component_ref(a, row, ta);
            assert(order[k as int] == e);
            assert(order.contains(e));
            let nv0 = f(x0);
            self.replace_component(a, row, ta, nv0);
            proof {
                lemma_same_layout_trans(*self, before, s0);
                assert(self@.contains_key(e));
                assert(self@[e] =~= s0@[e].insert(ta, nv0));
                assert forall|x: EntityID| #[trigger] self@.contains_key(x) implies if order.subrange(0, k + 1).contains(x) {
                    updated1(s0@[x], self@[x], ta, f)
                } else {
                    self@[x] == s0@[x]
                } by {
                    if x == e {
                        assert(order.subrange(0, k + 1).contains(x)) by {
                            assert(order.subrange(0, k + 1)[k as int] == x);
                        }
                    } else {
                        assert(before@.contains_key(x));
                        if order.subrange(0, k + 1).contains(x) {
                            let i = choose|i: int| 0 <= i < k + 1 && #[trigger] order.subrange(0, k + 1)[i] == x;
                            assert(order.subrange(0, k as int)[i] == x);
                        } else {
                            if order.subrange(0, k as int).contains(x) {
                                let i = choose|i: int| 0 <= i < k && #[trigger] order.subrange(0, k as int)[i] == x;
                                assert(order.subrange(0, k + 1)[i] == x);
                            }
                        }
                    }
                }
            }
            k = k + 1;
        }
        assert(order.subrange(0, rows@.len() as int) =~= order);
        assert(order == s0.query_order(seq![ta], incl.0@, excl.0@));
    }

    /// Mutable query for 2 component type(s) with given filters: every entity that passes
    /// the query gets its queried components replaced by what ``f`` returns for them.
    pub fn query2_mut<F: Fn(&V, &V) -> (V, V)>(
        &mut self,
        ta: ComponentTypeId, tb: ComponentTypeId,
        incl: IncludeFilter,
        excl: ExcludeFilter,
        f: F,
    )
        requires
            old(self).wf(),
            seq![ta, tb].no_duplicates(),
            forall|e: EntityID| #![trigger old(self)@[e]] old(self).query_order(seq![ta, tb], incl.0@, excl.0@).contains(e)
                ==> f.requires((&old(self)@[e][ta], &old(self)@[e][tb],)),
        ensures
            final(self).wf(),
            final(self).next_archetype_id() == old(self).next_archetype_id(),
            final(self).first_archetype_id() == old(self).first_archetype_id(),
            final(self).next_id() == old(self).next_id(),
            final(self)@.dom() == old(self)@.dom(),
            forall|e: EntityID|
                #[trigger] final(self)@.contains_key(e) ==> if old(self).query_order(
                    seq![ta, tb],
                    incl.0@,
                    excl.0@,
                ).contains(e) {
                    updated2(old(self)@[e], final(self)@[e], ta, tb, f)
                } else {
                    final(self)@[e] == old(self)@[e]
                },
    {
        let wanted = vec![ta, tb];
        let rows = self.selected_rows(&wanted, &incl, &excl);
        let ghost s0 = *self;
        let ghost order = self.query_order(wanted@, incl.0@, excl.0@);
        assert(wanted@ =~= seq![ta, tb]);
        proof {
            self.lemma_query_order(wanted@, incl.0@, excl.0@);
        }
        let mut k: usize = 0;
        while k < rows.len()
            invariant
                self.wf(),
                s0.wf(),
                self.same_layout(s0),
                forall|e: EntityID| #[trigger] order.contains(e) ==> f.requires((&s0@[e][ta], &s0@[e][tb],)),
                k <= rows@.len(),
                wanted@ == seq![ta, tb],
                seq![ta, tb].no_duplicates(),
                rows@.len() == order.len(),
                order == s0.query_order(wanted@, incl.0@, excl.0@),
                order.no_duplicates(),
                forall|j: int|
                    0 <= j < rows@.len() ==> {
                        &&& (#[trigger] rows@[j]).0 < s0.archetypes@.len()
                        &&& rows@[j].1 < s0.archetypes@[rows@[j].0 as int].entities@.len()
                        &&& s0.archetypes@[rows@[j].0 as int].entities@[rows@[j].1 as int]
                            == order[j]
                        &&& selects(
                            s0.archetypes@[rows@[j].0 as int].entity_type.0@.to_set(),
                            wanted@,
                            incl.0@,
                            excl.0@,
                        )
                    },
                self@.dom() == s0@.dom(),
                forall|e: EntityID|
                    #[trigger] self@.contains_key(e) ==> if order.subrange(0, k as int).contains(e) {
                        updated2(s0@[e], self@[e], ta, tb, f)
                    } else {
                        self@[e] == s0@[e]
                    },
            decreases rows@.len() - k,
        {
            let (a, row) = rows[k];
            let ghost e = order[k as int];
            let ghost before = *self;
            proof {
                assert(self.archetypes@[a as int].entity_type == s0.archetypes@[a as int].entity_type);
                assert(self.archetypes@[a as int].entities == s0.archetypes@[a as int].entities);
                assert(!order.subrange(0, k as int).contains(e));
                assert(self@.contains_key(e) ==> self@[e] == s0@[e]);
            }
            assert(self.archetypes@[a as int].entity_type.0@.to_set().contains(wanted@[0]));
            assert(self.archetypes@[a as int].entity_type.0@.to_set().contains(wanted@[1]));
            let x0 = self.component_ref(a, row, ta);
            let x1 = self.component_ref(a, row, tb);
            assert(order[k as int] == e);
            assert(order.contains(e));
            let (nv0, nv1) = f(x0, x1);
            self.replace_component(a, row, ta, nv0);
            self.replace_component(a, row, tb, nv1);
            proof {
                lemma_same_layout_trans(*self, before, s0);
                assert(self@.contains_key(e));
                assert(self@[e] =~= s0@[e].insert(ta, nv0).insert(tb, nv1));
                assert forall|x: EntityID| #[trigger] self@.contains_key(x) implies if order.subrange(0, k + 1).contains(x) {
                    updated2(s0@[x], self@[x], ta, tb, f)
                } else {
                    self@[x] == s0@[x]
                } by {
                    if x == e {
                        assert(order.subrange(0, k + 1).contains(x)) by {
                            assert(order.subrange(0, k + 1)[k as int] == x);
                        }
                    } else {
                        assert(before@.contains_key(x));
                        if order.subrange(0, k + 1).contains(x) {
                            let i = choose|i: int| 0 <= i < k + 1 && #[trigger] order.subrange(0, k + 1)[i] == x;
                            assert(order.subrange(0, k as int)[i] == x);
                        } else {
                            if order.subrange(0, k as int).contains(x) {
                                let i = choose|i: int| 0 <= i < k && #[trigger] order.subrange(0, k as int)[i] == x;
                                assert(order.subrange(0, k + 1)[i] == x);
                            }
                        }
                    }
                }
            }
            k = k + 1;
        }
        assert(order.subrange(0, rows@.len() as int) =~= order);
        assert(order == s0.query_order(seq![ta, tb], incl.0@, excl.0@));
    }

    /// Mutable query for 3 component type(s) with given filters: every entity that passes
    /// the query gets its queried components replaced by what ``f`` returns for them.
    pub fn query3_mut<F: Fn(&V, &V, &V) -> (V, V, V)>(
        &mut self,
        ta: ComponentTypeId, tb: ComponentTypeId, tc: ComponentTypeId,
        incl: IncludeFilter,
        excl: ExcludeFilter,
        f: F,
    )
        requires
            old(self).wf(),
            seq![ta, tb, tc].no_duplicates(),
            forall|e: EntityID| #![trigger old(self)@[e]] old(self).query_order(seq![ta, tb, tc], incl.0@, excl.0@).contains(e)
                ==> f.requires((&old(self)@[e][ta], &old(self)@[e][tb], &old(self)@[e][tc],)),
        ensures
            final(self).wf(),
            final(self).next_archetype_id() == old(self).next_archetype_id(),
            final(self).first_archetype_id() == old(self).first_archetype_id(),
            final(self).next_id() == old(self).next_id(),
            final(self)@.dom() == old(self)@.dom(),
            forall|e: EntityID|
                #[trigger] final(self)@.contains_key(e) ==> if old(self).query_order(
                    seq![ta, tb, tc],
                    incl.0@,
                    excl.0@,
                ).contains(e) {
                    updated3(old(self)@[e], final(self)@[e], ta, tb, tc, f)
                } else {
                    final(self)@[e] == old(self)@[e]
                },
    {
        let wanted = vec![ta, tb, tc];
        let rows = self.selected_rows(&wanted, &incl, &excl);
        let ghost s0 = *self;
        let ghost order = self.query_order(wanted@, incl.0@, excl.0@);
        assert(wanted@ =~= seq![ta, tb, tc]);
        proof {
            self.lemma_query_order(wanted@, incl.0@, excl.0@);
        }
        let mut k: usize = 0;
        while k < rows.len()
            invariant
                self.wf(),
                s0.wf(),
                self.same_layout(s0),
                forall|e: EntityID| #[trigger] order.contains(e) ==> f.requires((&s0@[e][ta], &s0@[e][tb], &s0@[e][tc],)),
                k <= rows@.len(),
                wanted@ == seq![ta, tb, tc],
                seq![ta, tb, tc].no_duplicates(),
                rows@.len() == order.len(),
                order == s0.query_order(wanted@, incl.0@, excl.0@),
                order.no_duplicates(),
                forall|j: int|
                    0 <= j < rows@.len() ==> {
                        &&& (#[trigger] rows@[j]).0 < s0.archetypes@.len()
                        &&& rows@[j].1 < s0.archetypes@[rows@[j].0 as int].entities@.len()
                        &&& s0.archetypes@[rows@[j].0 as int].entities@[rows@[j].1 as int]
                            == order[j]
                        &&& selects(
                            s0.archetypes@[rows@[j].0 as int].entity_type.0@.to_set(),
                            wanted@,
                            incl.0@,
                            excl.0@,
                        )
                    },
                self@.dom() == s0@.dom(),
                forall|e: EntityID|
                    #[trigger] self@.contains_key(e) ==> if order.subrange(0, k as int).contains(e) {
                        updated3(s0@[e], self@[e], ta, tb, tc, f)
                    } else {
                        self@[e] == s0@[e]
                    },
            decreases rows@.len() - k,
        {
            let (a, row) = rows[k];
            let ghost e = order[k as int];
            let ghost before = *self;
            proof {
                assert(self.archetypes@[a as int].entity_type == s0.archetypes@[a as int].entity_type);
                assert(self.archetypes@[a as int].entities == s0.archetypes@[a as int].entities);
                assert(!order.subrange(0, k as int).contains(e));
                assert(self@.contains_key(e) ==> self@[e] == s0@[e]);
            }
            assert(self.archetypes@[a as int].entity_type.0@.to_set().contains(wanted@[0]));
            assert(self.archetypes@[a as int].entity_type.0@.to_set().contains(wanted@[1]));
            assert(self.archetypes@[a as int].entity_type.0@.to_set().contains(wanted@[2]));
            let x0 = self.component_ref(a, row, ta);
            let x1 = self.component_ref(a, row, tb);
            let x2 = self.component_ref(a, row, tc);
            assert(order[k as int] == e);
            assert(order.contains(e));
            let (nv0, nv1, nv2) = f(x0, x1, x2);
            self.replace_component(a, row, ta, nv0);
            self.replace_component(a, row, tb, nv1);
            self.replace_component(a, row, tc, nv2);
            proof {
                lemma_same_layout_trans(*self, before, s0);
                assert(self@.contains_key(e));
                assert(self@[e] =~= s0@[e].insert(ta, nv0).insert(tb, nv1).insert(tc, nv2));
                assert forall|x: EntityID| #[trigger] self@.contains_key(x) implies if order.subrange(0, k + 1).contains(x) {
                    updated3(s0@[x], self@[x], ta, tb, tc, f)
                } else {
                    self@[x] == s0@[x]
                } by {
                    if x == e {
                        assert(order.subrange(0, k + 1).contains(x)) by {
                            assert(order.subrange(0, k + 1)[k as int] == x);
                        }
                    } else {
                        assert(before@.contains_key(x));
                        if order.subrange(0, k + 1).contains(x) {
                            let i = choose|i: int| 0 <= i < k + 1 && #[trigger] order.subrange(0, k + 1)[i] == x;
                            assert(order.subrange(0, k as int)[i] == x);
                        } else {
                            if order.subrange(0, k as int).contains(x) {
                                let i = choose|i: int| 0 <= i < k && #[trigger] order.subrange(0, k as int)[i] == x;
                                assert(order.subrange(0, k + 1)[i] == x);
                            }
                        }
                    }
                }
            }
            k = k + 1;
        }
        assert(order.subrange(0, rows@.len() as int) =~= order);
        assert(order == s0.query_order(seq![ta, tb, tc], incl.0@, excl.0@));
    }

    /// Mutable query for 4 component type(s) with given filters: every entity that passes
    /// the query gets its queried components replaced by what ``f`` returns for them.
    pub fn query4_mut<F: Fn(&V, &V, &V, &V) -> (V, V, V, V)>(
        &mut self,
        ta: ComponentTypeId, tb: ComponentTypeId, tc: ComponentTypeId, td: ComponentTypeId,
        incl: IncludeFilter,
        excl: ExcludeFilter,
        f: F,
    )
        requires
            old(self).wf(),
            seq![ta, tb, tc, td].no_duplicates(),
            forall|e: EntityID| #![trigger old(self)@[e]] old(self).query_order(seq![ta, tb, tc, td], incl.0@, excl.0@).contains(e)
                ==> f.requires((&old(self)@[e][ta], &old(self)@[e][tb], &old(self)@[e][tc], &old(self)@[e][td],)),
        ensures
            final(self).wf(),
            final(self).next_archetype_id() == old(self).next_archetype_id(),
            final(self).first_archetype_id() == old(self).first_archetype_id(),
            final(self).next_id() == old(self).next_id(),
            final(self)@.dom() == old(self)@.dom(),
            forall|e: EntityID|
                #[trigger] final(self)@.contains_key(e) ==> if old(self).query_order(
                    seq![ta, tb, tc, td],
                    incl.0@,
                    excl.0@,
                ).contains(e) {
                    updated4(old(self)@[e], final(self)@[e], ta, tb, tc, td, f)
                } else {
                    final(self)@[e] == old(self)@[e]
                },
    {
        let wanted = vec![ta, tb, tc, td];
        let rows = self.selected_rows(&wanted, &incl, &excl);
        let ghost s0 = *self;
        let ghost order = self.query_order(wanted@, incl.0@, excl.0@);
        assert(wanted@ =~= seq![ta, tb, tc, td]);
        proof {
            self.lemma_query_order(wanted@, incl.0@, excl.0@);
        }
        let mut k: usize = 0;
        while k < rows.len()
            invariant
                self.wf(),
                s0.wf(),
                self.same_layout(s0),
                forall|e: EntityID| #[trigger] order.contains(e) ==> f.requires((&s0@[e][ta], &s0@[e][tb], &s0@[e][tc], &s0@[e][td],)),
                k <= rows@.len(),
                wanted@ == seq![ta, tb, tc, td],
                seq![ta, tb, tc, td].no_duplicates(),
                rows@.len() == order.len(),
                order == s0.query_order(wanted@, incl.0@, excl.0@),
                order.no_duplicates(),
                forall|j: int|
                    0 <= j < rows@.len() ==> {
                        &&& (#[trigger] rows@[j]).0 < s0.archetypes@.len()
                        &&& rows@[j].1 < s0.archetypes@[rows@[j].0 as int].entities@.len()
                        &&& s0.archetypes@[rows@[j].0 as int].entities@[rows@[j].1 as int]
                            == order[j]
                        &&& selects(
                            s0.archetypes@[rows@[j].0 as int].entity_type.0@.to_set(),
                            wanted@,
                            incl.0@,
                            excl.0@,
                        )
                    },
                self@.dom() == s0@.dom(),
                forall|e: EntityID|
                    #[trigger] self@.contains_key(e) ==> if order.subrange(0, k as int).contains(e) {
                        updated4(s0@[e], self@[e], ta, tb, tc, td, f)
                    } else {
                        self@[e] == s0@[e]
                    },
            decreases rows@.len() - k,
        {
            let (a, row) = rows[k];
            let ghost e = order[k as int];
            let ghost before = *self;
            proof {
                assert(self.archetypes@[a as int].entity_type == s0.archetypes@[a as int].entity_type);
                assert(self.archetypes@[a as int].entities == s0.archetypes@[a as int].entities);
                assert(!order.subrange(0, k as int).contains(e));
                assert(self@.contains_key(e) ==> self@[e] == s0@[e]);
            }
            assert(self.archetypes@[a as int].entity_type.0@.to_set().contains(wanted@[0]));
            assert(self.archetypes@[a as int].entity_type.0@.to_set().contains(wanted@[1]));
            assert(self.archetypes@[a as int].entity_type.0@.to_set().contains(wanted@[2]));
            assert(self.archetypes@[a as int].entity_type.0@.to_set().contains(wanted@[3]));
            let x0 = self.component_ref(a, row, ta);
            let x1 = self.component_ref(a, row, tb);
            let x2 = self.component_ref(a, row, tc);
            let x3 = self.component_ref(a, row, td);
            assert(order[k as int] == e);
            assert(order.contains(e));
            let (nv0, nv1, nv2, nv3) = f(x0, x1, x2, x3);
            self.replace_component(a, row, ta, nv0);
            self.replace_component(a, row, tb, nv1);
            self.replace_component(a, row, tc, nv2);
            self.replace_component(a, row, td, nv3);
            proof {
                lemma_same_layout_trans(*self, before, s0);
                assert(self@.contains_key(e));
                assert(self@[e] =~= s0@[e].insert(ta, nv0).insert(tb, nv1).insert(tc, nv2).insert(td, nv3));
                assert forall|x: EntityID| #[trigger] self@.contains_key(x) implies if order.subrange(0, k + 1).contains(x) {
                    updated4(s0@[x], self@[x], ta, tb, tc, td, f)
                } else {
                    self@[x] == s0@[x]
                } by {
                    if x == e {
                        assert(order.subrange(0, k + 1).contains(x)) by {
                            assert(order.subrange(0, k + 1)[k as int] == x);
                        }
                    } else {
                        assert(before@.contains_key(x));
                        if order.subrange(0, k + 1).contains(x) {
                            let i = choose|i: int| 0 <= i < k + 1 && #[trigger] order.subrange(0, k + 1)[i] == x;
                            assert(order.subrange(0, k as int)[i] == x);
                        } else {
                            if order.subrange(0, k as int).contains(x) {
                                let i = choose|i: int| 0 <= i < k && #[trigger] order.subrange(0, k as int)[i] == x;
                                assert(order.subrange(0, k + 1)[i] == x);
                            }
                        }
                    }
                }
            }
            k = k + 1;
        }
        assert(order.subrange(0, rows@.len() as int) =~= order);
        assert(order == s0.query_order(seq![ta, tb, tc, td], incl.0@, excl.0@));
    }

    /// Mutable query for 5 component type(s) with given filters: every entity that passes
    /// the query gets its queried components replaced by what ``f`` returns for them.
    pub fn query5_mut<F: Fn(&V, &V, &V, &V, &V) -> (V, V, V, V, V)>(
        &mut self,
        ta: ComponentTypeId, tb: ComponentTypeId, tc: ComponentTypeId, td: ComponentTypeId, te: ComponentTypeId,
        incl: IncludeFilter,
        excl: ExcludeFilter,
        f: F,
    )
        requires
            old(self).wf(),
            seq![ta, tb, tc, td, te].no_duplicates(),
            forall|e: EntityID| #![trigger old(self)@[e]] old(self).query_order(seq![ta, tb, tc, td, te], incl.0@, excl.0@).contains(e)
                ==> f.requires((&old(self)@[e][ta], &old(self)@[e][tb], &old(self)@[e][tc], &old(self)@[e][td], &old(self)@[e][te],)),
        ensures
            final(self).wf(),
            final(self).next_archetype_id() == old(self).next_archetype_id(),
            final(self).first_archetype_id() == old(self).first_archetype_id(),
            final(self).next_id() == old(self).next_id(),
            final(self)@.dom() == old(self)@.dom(),
            forall|e: EntityID|
                #[trigger] final(self)@.contains_key(e) ==> if old(self).query_order(
                    seq![ta, tb, tc, td, te],
                    incl.0@,
                    excl.0@,
                ).contains(e) {
                    updated5(old(self)@[e], final(self)@[e], ta, tb, tc, td, te, f)
                } else {
                    final(self)@[e] == old(self)@[e]
                },
    {
        let wanted = vec![ta, tb, tc, td, te];
        let rows = self.selected_rows(&wanted, &incl, &excl);
        let ghost s0 = *self;
        let ghost order = self.query_order(wanted@, incl.0@, excl.0@);
        assert(wanted@ =~= seq![ta, tb, tc, td, te]);
        proof {
            self.lemma_query_order(wanted@, incl.0@, excl.0@);
        }
        let mut k: usize = 0;
        while k < rows.len()
            invariant
                self.wf(),
                s0.wf(),
                self.same_layout(s0),
                forall|e: EntityID| #[trigger] order.contains(e) ==> f.requires((&s0@[e][ta], &s0@[e][tb], &s0@[e][tc], &s0@[e][td], &s0@[e][te],)),
                k <= rows@.len(),
                wanted@ == seq![ta, tb, tc, td, te],
                seq![ta, tb, tc, td, te].no_duplicates(),
                rows@.len() == order.len(),
                order == s0.query_order(wanted@, incl.0@, excl.0@),
                order.no_duplicates(),
                forall|j: int|
                    0 <= j < rows@.len() ==> {
                        &&& (#[trigger] rows@[j]).0 < s0.archetypes@.len()
                        &&& rows@[j].1 < s0.archetypes@[rows@[j].0 as int].entities@.len()
                        &&& s0.archetypes@[rows@[j].0 as int].entities@[rows@[j].1 as int]
                            == order[j]
                        &&& selects(
                            s0.archetypes@[rows@[j].0 as int].entity_type.0@.to_set(),
                            wanted@,
                            incl.0@,
                            excl.0@,
                        )
                    },
                self@.dom() == s0@.dom(),
                forall|e: EntityID|
                    #[trigger] self@.contains_key(e) ==> if order.subrange(0, k as int).contains(e) {
                        updated5(s0@[e], self@[e], ta, tb, tc, td, te, f)
                    } else {
                        self@[e] == s0@[e]
                    },
            decreases rows@.len() - k,
        {
            let (a, row) = rows[k];
            let ghost e = order[k as int];
            let ghost before = *self;
            proof {
                assert(self.archetypes@[a as int].entity_type == s0.archetypes@[a as int].entity_type);
                assert(self.archetypes@[a as int].entities == s0.archetypes@[a as int].entities);
                assert(!order.subrange(0, k as int).contains(e));
                assert(self@.contains_key(e) ==> self@[e] == s0@[e]);
            }
            assert(self.archetypes@[a as int].entity_type.0@.to_set().contains(wanted@[0]));
            assert(self.archetypes@[a as int].entity_type.0@.to_set().contains(wanted@[1]));
            assert(self.archetypes@[a as int].entity_type.0@.to_set().contains(wanted@[2]));
            assert(self.archetypes@[a as int].entity_type.0@.to_set().contains(wanted@[3]));
            assert(self.archetypes@[a as int].entity_type.0@.to_set().contains(wanted@[4]));
            let x0 = self.component_ref(a, row, ta);
            let x1 = self.component_ref(a, row, tb);
            let x2 = self.component_ref(a, row, tc);
            let x3 = self.component_ref(a, row, td);
            let x4 = self.component_ref(a, row, te);
            assert(order[k as int] == e);
            assert(order.contains(e));
            let (nv0, nv1, nv2, nv3, nv4) = f(x0, x1, x2, x3, x4);
            self.replace_component(a, row, ta, nv0);
            self.replace_component(a, row, tb, nv1);
            self.replace_component(a, row, tc, nv2);
            self.replace_component(a, row, td, nv3);
            self.replace_component(a, row, te, nv4);
            proof {
                lemma_same_layout_trans(*self, before, s0);
                assert(self@.contains_key(e));
                assert(self@[e] =~= s0@[e].insert(ta, nv0).insert(tb, nv1).insert(tc, nv2).insert(td, nv3).insert(te, nv4));
                assert forall|x: EntityID| #[trigger] self@.contains_key(x) implies if order.subrange(0, k + 1).contains(x) {
                    updated5(s0@[x], self@[x], ta, tb, tc, td, te, f)
                } else {
                    self@[x] == s0@[x]
                } by {
                    if x == e {
                        assert(order.subrange(0, k + 1).contains(x)) by {
                            assert(order.subrange(0, k + 1)[k as int] == x);
                        }
                    } else {
                        assert(before@.contains_key(x));
                        if order.subrange(0, k + 1).contains(x) {
                            let i = choose|i: int| 0 <= i < k + 1 && #[trigger] order.subrange(0, k + 1)[i] == x;
                            assert(order.subrange(0, k as int)[i] == x);
                        } else {
                            if order.subrange(0, k as int).contains(x) {
                                let i = choose|i: int| 0 <= i < k && #[trigger] order.subrange(0, k as int)[i] == x;
                                assert(order.subrange(0, k + 1)[i] == x);
                            }
                        }
                    }
                }
            }
            k = k + 1;
        }
        assert(order.subrange(0, rows@.len() as int) =~= order);
        assert(order == s0.query_order(seq![ta, tb, tc, td, te], incl.0@, excl.0@));
    }
}


impl<V> ECS<V> {
    /// Every stored entity has at least one component, and every stored id is below the id the
    /// next created entity gets (ids are never handed out twice).
    pub proof fn lemma_stored_entities(&self)
        requires
            self.wf(),
        ensures
            forall|e: EntityID| #[trigger] self@.contains_key(e) ==> self@[e].dom().len() > 0 && self@[e].dom().finite(),
            forall|e: EntityID| #[trigger] self@.contains_key(e) ==> e < self.next_id(),
    {
        assert forall|e: EntityID| #[trigger] self@.contains_key(e) implies self@[e].dom().len() > 0 && self@[e].dom().finite() by {
            assert(self.record_valid(e));
            assert(self.archetypes@[self.entity_index@[e].archetype_id as int].wf());
            self.lemma_component_at(e, 0);
            let ts = self.archetypes@[self.entity_index@[e].archetype_id as int].entity_type.0@;
            ts.unique_seq_to_set();
        }
    }

    /// After creating an entity, every component that was handed in can be read back under
    /// its type from the new entity, and the entity has no other component types.
    pub proof fn lemma_create_then_get(&self, components: Seq<MetaDataComponentEntry<V>>, i: int)
        requires
            entry_types(components).no_duplicates(),
            0 <= i < components.len(),
        ensures
            ({
                let created = self@.insert(self.next_id(), entries_map(components));
                &&& created[self.next_id()].contains_key(components[i].type_id)
                &&& created[self.next_id()][components[i].type_id] == components[i].component
                &&& created[self.next_id()].dom() == entry_types(components).to_set()
            }),
    {
        let ts = entry_types(components);
        assert(ts[i] == components[i].type_id);
        lemma_index_of_unique(ts, i);
        assert(entry_values(components)[i] == components[i].component);
        assert(entries_map(components).dom() =~= ts.to_set());
    }

    /// Adding a component that an entity does not have yet and then removing it again gives
    /// back exactly the added value and restores the entity's components; the entity stays.
    pub proof fn lemma_add_remove_roundtrip(&self, e: EntityID, t: ComponentTypeId, v: V)
        requires
            self.wf(),
            self@.contains_key(e),
            !self@[e].contains_key(t),
        ensures
            ({
                let added = self@.insert(e, self@[e].insert(t, v));
                &&& added[e].contains_key(t)
                &&& added[e][t] == v
                &&& added[e].remove(t) != Map::<ComponentTypeId, V>::empty()
                &&& added.insert(e, added[e].remove(t)) == self@
            }),
    {
        self.lemma_stored_entities();
        let added = self@.insert(e, self@[e].insert(t, v));
        assert(added[e].remove(t) =~= self@[e]);
        let x = self@[e].dom().choose();
        assert(self@[e].dom().contains(x));
        assert(added[e].remove(t).dom().contains(x));
        assert(added.insert(e, added[e].remove(t)) =~= self@);
    }
}


/// The component types of an optional include filter (none for a missing filter).
pub open spec fn incl_types(f: Option<IncludeFilter>) -> Seq<ComponentTypeId> {
    match f {
        Some(x) => x.0@,
        None => Seq::empty(),
    }
}

/// The component types of an optional exclude filter (none for a missing filter).
pub open spec fn excl_types(f: Option<ExcludeFilter>) -> Seq<ComponentTypeId> {
    match f {
        Some(x) => x.0@,
        None => Seq::empty(),
    }
}

/// Replaces missing filters by empty ones.
fn filters_or_empty(filter: (Option<IncludeFilter>, Option<ExcludeFilter>)) -> (r: (IncludeFilter, ExcludeFilter))
    ensures
        r.0.0@ == incl_types(filter.0),
        r.1.0@ == excl_types(filter.1),
{
    let incl = match filter.0 {
        Some(f) => f,
        None => IncludeFilter(Vec::new()),
    };
    let excl = match filter.1 {
        Some(f) => f,
        None => ExcludeFilter(Vec::new()),
    };
    (incl, excl)
}

/// The main manager holding the ECS with all the entity data.
pub struct EntityManager<V> {
    pub ecs: ECS<V>,
}

impl<V> View for EntityManager<V> {
    type V = Map<EntityID, Map<ComponentTypeId, V>>;

    /// The entities of the ECS with their components.
    open spec fn view(&self) -> Map<EntityID, Map<ComponentTypeId, V>> {
        self.ecs@
    }
}

impl<V> EntityManager<V> {
    /// Internal consistency of the stored data.
    pub open spec fn wf(&self) -> bool {
        self.ecs.wf()
    }

    /// The identifier the next created entity gets.
    pub open spec fn next_id(&self) -> EntityID {
        self.ecs.next_id()
    }

    /// Creates a new entitiy manager without entities.
    pub fn new() -> (r: Self)
        ensures
            r.wf(),
            r@ == Map::<EntityID, Map<ComponentTypeId, V>>::empty(),
            r.next_id() == 1,
            r.ecs.next_archetype_id() == 1,
    {
        EntityManager { ecs: ECS::new() }
    }

    /// Stores the components, creates a new entity and returns the id of that entity.
    /// All component types have to be different. One of the components is the entity's id
    /// component (of type `id_type`, usually a placeholder value): it is overwritten with the
    /// value `make_id` builds from the new id.
    pub fn create_entity<F: Fn(EntityID) -> V>(
        &mut self,
        components: Vec<MetaDataComponentEntry<V>>,
        id_type: ComponentTypeId,
        make_id: F,
    ) -> (r: EntityID)
        requires
            old(self).wf(),
            old(self).ecs.next_archetype_id() < u64::MAX,
            entry_types(components@).no_duplicates(),
            entry_types(components@).contains(id_type),
            old(self).next_id() < u64::MAX,
            forall|id: EntityID| make_id.requires((id,)),
        ensures
            final(self).wf(),
            final(self).ecs.first_archetype_id() == old(self).ecs.first_archetype_id(),
            final(self).ecs.next_archetype_id() == old(self).ecs.next_archetype_id()
                || final(self).ecs.next_archetype_id() == old(self).ecs.next_archetype_id() + 1,
            r == old(self).next_id(),
            final(self).next_id() == old(self).next_id() + 1,
            !old(self)@.contains_key(r),
            final(self)@.contains_key(r),
            final(self)@[r].contains_key(id_type),
            make_id.ensures((r,), final(self)@[r][id_type]),
            final(self)@ == old(self)@.insert(
                r,
                entries_map(components@).insert(id_type, final(self)@[r][id_type]),
            ),
    {
        proof {
            let ts = entry_types(components@);
            let k = ts.index_of(id_type);
            assert(ts[k] == id_type);
        }
        let r = self.ecs.create_entity(components);
        let v = make_id(r);
        match self.ecs.get_component_mut(r, id_type) {
            Some(c) => {
                *c = v;
            },
            None => {
                assert(false);
            },
        }
        r
    }

    /// Deletes an entity and returns wether or not the removal was successful.
    pub fn delete_entity(&mut self, entity: EntityID) -> (r: bool)
        requires
            old(self).wf(),
        ensures
            final(self).wf(),
            r == old(self)@.contains_key(entity),
            final(self)@ == old(self)@.remove(entity),
            final(self).next_id() == old(self).next_id(),
            final(self).ecs.next_archetype_id() == old(self).ecs.next_archetype_id(),
            final(self).ecs.first_archetype_id() == old(self).ecs.first_archetype_id(),
    {
        self.ecs.delete_entity(entity)
    }

    /// Yields the component data reference of an entity if present.
    pub fn get_component(&self, entity: EntityID, t: ComponentTypeId) -> (r: Option<&V>)
        requires
            self.wf(),
        ensures
            match r {
                Some(v) => self@.contains_key(entity) && self@[entity].contains_key(t) && *v
                    == self@[entity][t],
                None => !(self@.contains_key(entity) && self@[entity].contains_key(t)),
            },
    {
        self.ecs.get_component(entity, t)
    }

    /// Yields the mutable component data reference of an entity if present.
    pub fn get_component_mut(&mut self, entity: EntityID, t: ComponentTypeId) -> (r: Option<&mut V>)
        requires
            old(self).wf(),
        ensures
            final(self).wf(),
            final(self).ecs.next_archetype_id() == old(self).ecs.next_archetype_id(),
            final(self).ecs.first_archetype_id() == old(self).ecs.first_archetype_id(),
            final(self).next_id() == old(self).next_id(),
            match r {
                Some(v) => old(self)@.contains_key(entity) && old(self)@[entity].contains_key(t)
                    && *v == old(self)@[entity][t] && final(self)@ == old(self)@.insert(
                    entity,
                    old(self)@[entity].insert(t, *final(v)),
                ),
                None => !(old(self)@.contains_key(entity) && old(self)@[entity].contains_key(t))
                    && final(self)@ == old(self)@,
            },
    {
        self.ecs.get_component_mut(entity, t)
    }

    /// Adds a component to an existing entity (returns ``false`` if the component is already
    /// present or the entity ID is invalid).
    pub fn add_component(&mut self, entity: EntityID, t: ComponentTypeId, component: V) -> (r: bool)
        requires
            old(self).wf(),
            old(self).ecs.next_archetype_id() < u64::MAX,
        ensures
            final(self).wf(),
            final(self).ecs.first_archetype_id() == old(self).ecs.first_archetype_id(),
            final(self).ecs.next_archetype_id() == old(self).ecs.next_archetype_id()
                || final(self).ecs.next_archetype_id() == old(self).ecs.next_archetype_id() + 1,
            final(self).next_id() == old(self).next_id(),
            r == (old(self)@.contains_key(entity) && !old(self)@[entity].contains_key(t)),
            r ==> final(self)@ == old(self)@.insert(entity, old(self)@[entity].insert(t, component)),
            !r ==> final(self)@ == old(self)@,
    {
        self.ecs.add_component(entity, t, component)
    }

    /// Checks wether or not an entity has a component of given type.
    pub fn has_component(&self, entity: EntityID, t: ComponentTypeId) -> (r: bool)
        requires
            self.wf(),
        ensures
            r == (self@.contains_key(entity) && self@[entity].contains_key(t)),
    {
        self.ecs.has_component(entity, t)
    }

    /// Removes a component from an entity and returns the component data if present.
    pub fn remove_component(&mut self, entity: EntityID, t: ComponentTypeId) -> (r: Option<V>)
        requires
            old(self).wf(),
            old(self).ecs.next_archetype_id() < u64::MAX,
        ensures
            final(self).wf(),
            final(self).ecs.first_archetype_id() == old(self).ecs.first_archetype_id(),
            final(self).ecs.next_archetype_id() == old(self).ecs.next_archetype_id()
                || final(self).ecs.next_archetype_id() == old(self).ecs.next_archetype_id() + 1,
            final(self).next_id() == old(self).next_id(),
            match r {
                Some(v) => old(self)@.contains_key(entity) && old(self)@[entity].contains_key(t)
                    && v == old(self)@[entity][t] && final(self)@ == (if old(
                    self,
                )@[entity].remove(t) == Map::<ComponentTypeId, V>::empty() {
                    old(self)@.remove(entity)
                } else {
                    old(self)@.insert(entity, old(self)@[entity].remove(t))
                }),
                None => !(old(self)@.contains_key(entity) && old(self)@[entity].contains_key(t))
                    && final(self)@ == old(self)@,
            },
    {
        self.ecs.remove_component(entity, t)
    }

    /// All of the currently stored entity IDs.
    pub fn all_ids_iter(&self) -> (r: Vec<EntityID>)
        requires
            self.wf(),
        ensures
            r@.no_duplicates(),
            forall|e: EntityID| #[trigger] r@.contains(e) <==> self@.contains_key(e),
    {
        self.ecs.all_ids()
    }

    /// Clears all of the stored entities.
    pub fn clear(&mut self)
        requires
            old(self).wf(),
        ensures
            final(self).wf(),
            final(self)@ == Map::<EntityID, Map<ComponentTypeId, V>>::empty(),
            final(self).next_id() == old(self).next_id(),
            final(self).ecs.next_archetype_id() == old(self).ecs.next_archetype_id(),
            final(self).ecs.first_archetype_id() == old(self).ecs.next_archetype_id(),
    {
        self.ecs.clear()
    }

    /// Query for 1 component type(s); a missing filter counts as an empty one.
    pub fn query1(&self, ta: ComponentTypeId, filter: (Option<IncludeFilter>, Option<ExcludeFilter>)) -> (r: Query1<'_, V>)
        requires
            self.wf(),
        ensures
            r@.len() == self.ecs.query_order(seq![ta], incl_types(filter.0), excl_types(filter.1)).len(),
            forall|k: int|
                #![trigger r@[k]]
                0 <= k < r@.len() ==> query_hit(self@, self.ecs.query_order(seq![ta], incl_types(filter.0), excl_types(filter.1))[k], ta, *r@[k]),
    {
        let (incl, excl) = filters_or_empty(filter);
        self.ecs.query1(ta, incl, excl)
    }

    /// General query over any number of component types, each required or optional; a
    /// missing filter counts as an empty one. Entities without an optional type yield
    /// ``None`` for it.
    pub fn query_types(&self, types: &Vec<QueryType>, filter: (Option<IncludeFilter>, Option<ExcludeFilter>)) -> (r: Vec<Vec<Option<&V>>>)
        requires
            self.wf(),
        ensures
            r@.len() == self.ecs.query_order(required_types(types@), incl_types(filter.0), excl_types(filter.1)).len(),
            forall|k: int|
                0 <= k < r@.len() ==> (#[trigger] r@[k])@.len() == types@.len()
                    && self@.contains_key(self.ecs.query_order(required_types(types@), incl_types(filter.0), excl_types(filter.1))[k]),
            forall|k: int, j: int|
                #![trigger r@[k]@[j]]
                0 <= k < r@.len() && 0 <= j < types@.len() ==> {
                    let e = self.ecs.query_order(required_types(types@), incl_types(filter.0), excl_types(filter.1))[k];
                    r@[k]@[j] == (if self@[e].contains_key(types@[j].type_id) {
                        Some(&self@[e][types@[j].type_id])
                    } else {
                        None
                    })
                },
    {
        let (incl, excl) = filters_or_empty(filter);
        self.ecs.query_types(types, incl, excl)
    }

    /// Query for 2 component type(s); a missing filter counts as an empty one.
    pub fn query2(&self, ta: ComponentTypeId, tb: ComponentTypeId, filter: (Option<IncludeFilter>, Option<ExcludeFilter>)) -> (r: Query2<'_, V>)
        requires
            self.wf(),
        ensures
            r@.len() == self.ecs.query_order(seq![ta, tb], incl_types(filter.0), excl_types(filter.1)).len(),
            forall|k: int|
                #![trigger r@[k]]
                0 <= k < r@.len() ==> query_hit(self@, self.ecs.query_order(seq![ta, tb], incl_types(filter.0), excl_types(filter.1))[k], ta, *r@[k].0) && query_hit(self@, self.ecs.query_order(seq![ta, tb], incl_types(filter.0), excl_types(filter.1))[k], tb, *r@[k].1),
    {
        let (incl, excl) = filters_or_empty(filter);
        self.ecs.query2(ta, tb, incl, excl)
    }

    /// Query for 3 component type(s); a missing filter counts as an empty one.
    pub fn query3(&self, ta: ComponentTypeId, tb: ComponentTypeId, tc: ComponentTypeId, filter: (Option<IncludeFilter>, Option<ExcludeFilter>)) -> (r: Query3<'_, V>)
        requires
            self.wf(),
        ensures
            r@.len() == self.ecs.query_order(seq![ta, tb, tc], incl_types(filter.0), excl_types(filter.1)).len(),
            forall|k: int|
                #![trigger r@[k]]
                0 <= k < r@.len() ==> query_hit(self@, self.ecs.query_order(seq![ta, tb, tc], incl_types(filter.0), excl_types(filter.1))[k], ta, *r@[k].0) && query_hit(self@, self.ecs.query_order(seq![ta, tb, tc], incl_types(filter.0), excl_types(filter.1))[k], tb, *r@[k].1) && query_hit(self@, self.ecs.query_order(seq![ta, tb, tc], incl_types(filter.0), excl_types(filter.1))[k], tc, *r@[k].2),
    {
        let (incl, excl) = filters_or_empty(filter);
        self.ecs.query3(ta, tb, tc, incl, excl)
    }

    /// Query for 4 component type(s); a missing filter counts as an empty one.
    pub fn query4(&self, ta: ComponentTypeId, tb: ComponentTypeId, tc: ComponentTypeId, td: ComponentTypeId, filter: (Option<IncludeFilter>, Option<ExcludeFilter>)) -> (r: Query4<'_, V>)
        requires
            self.wf(),
        ensures
            r@.len() == self.ecs.query_order(seq![ta, tb, tc, td], incl_types(filter.0), excl_types(filter.1)).len(),
            forall|k: int|
                #![trigger r@[k]]
                0 <= k < r@.len() ==> query_hit(self@, self.ecs.query_order(seq![ta, tb, tc, td], incl_types(filter.0), excl_types(filter.1))[k], ta, *r@[k].0) && query_hit(self@, self.ecs.query_order(seq![ta, tb, tc, td], incl_types(filter.0), excl_types(filter.1))[k], tb, *r@[k].1) && query_hit(self@, self.ecs.query_order(seq![ta, tb, tc, td], incl_types(filter.0), excl_types(filter.1))[k], tc, *r@[k].2) && query_hit(self@, self.ecs.query_order(seq![ta, tb, tc, td], incl_types(filter.0), excl_types(filter.1))[k], td, *r@[k].3),
    {
        let (incl, excl) = filters_or_empty(filter);
        self.ecs.query4(ta, tb, tc, td, incl, excl)
    }

    /// Query for 5 component type(s); a missing filter counts as an empty one.
    pub fn query5(&self, ta: ComponentTypeId, tb: ComponentTypeId, tc: ComponentTypeId, td: ComponentTypeId, te: ComponentTypeId, filter: (Option<IncludeFilter>, Option<ExcludeFilter>)) -> (r: Query5<'_, V>)
        requires
            self.wf(),
        ensures
            r@.len() == self.ecs.query_order(seq![ta, tb, tc, td, te], incl_types(filter.0), excl_types(filter.1)).len(),
            forall|k: int|
                #![trigger r@[k]]
                0 <= k < r@.len() ==> query_hit(self@, self.ecs.query_order(seq![ta, tb, tc, td, te], incl_types(filter.0), excl_types(filter.1))[k], ta, *r@[k].0) && query_hit(self@, self.ecs.query_order(seq![ta, tb, tc, td, te], incl_types(filter.0), excl_types(filter.1))[k], tb, *r@[k].1) && query_hit(self@, self.ecs.query_order(seq![ta, tb, tc, td, te], incl_types(filter.0), excl_types(filter.1))[k], tc, *r@[k].2) && query_hit(self@, self.ecs.query_order(seq![ta, tb, tc, td, te], incl_types(filter.0), excl_types(filter.1))[k], td, *r@[k].3) && query_hit(self@, self.ecs.query_order(seq![ta, tb, tc, td, te], incl_types(filter.0), excl_types(filter.1))[k], te, *r@[k].4),
    {
        let (incl, excl) = filters_or_empty(filter);
        self.ecs.query5(ta, tb, tc, td, te, incl, excl)
    }
}

} // verus!
