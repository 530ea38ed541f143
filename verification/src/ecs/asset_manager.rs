use vstd::prelude::*;
use std::collections::HashMap;

verus! {

broadcast use vstd::std_specs::hash::group_hash_axioms;

/// Identifier of an asset in the asset manager.
pub type AssetID = u64;

/// Maps asset IDs to asset data (e.g. meshes).
pub struct AssetManager<M> {
    register: HashMap<AssetID, M>,
    next_id: AssetID,
}

impl<M> AssetManager<M> {
    /// The stored assets by id.
    pub closed spec fn assets(&self) -> Map<AssetID, M> {
        self.register@
    }

    /// The id the next added asset gets.
    pub closed spec fn next_id(&self) -> AssetID {
        self.next_id
    }

    /// Every stored id is below the id the next asset gets.
    pub closed spec fn wf(&self) -> bool {
        forall|id: AssetID| #[trigger] self.register@.contains_key(id) ==> id < self.next_id
    }

    /// Creates a new asset manager without assets.
    pub fn new() -> (r: Self)
        ensures
            r.wf(),
            r.assets() == Map::<AssetID, M>::empty(),
            r.next_id() == 0,
    {
        Self { register: HashMap::new(), next_id: 0 }
    }

    /// Adds asset data to the register and returns its new id.
    pub fn add_asset(&mut self, mesh: M) -> (r: AssetID)
        requires
            old(self).wf(),
            old(self).next_id() < u64::MAX,
        ensures
            final(self).wf(),
            r == old(self).next_id(),
            !old(self).assets().contains_key(r),
            final(self).assets() == old(self).assets().insert(r, mesh),
            final(self).next_id() == old(self).next_id() + 1,
    {
        self.register.insert(self.next_id, mesh);
        let id = self.next_id;
        self.next_id = self.next_id + 1;
        id
    }

    /// Makes asset data available for a stored asset id.
    pub fn get_asset(&mut self, id: AssetID) -> (r: &M)
        requires
            old(self).assets().contains_key(id),
        ensures
            *r == old(self).assets()[id],
            final(self).assets() == old(self).assets(),
            final(self).next_id() == old(self).next_id(),
            old(self).wf() ==> final(self).wf(),
    {
        match self.register.get(&id) {
            Some(m) => m,
            None => vstd::pervasive::unreached(),
        }
    }
}

} // verus!
