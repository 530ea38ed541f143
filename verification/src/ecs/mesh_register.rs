use vstd::prelude::*;
use std::collections::HashMap;
use crate::ecs::component::{HitboxType, LOD, MeshHandle};

verus! {

broadcast use vstd::std_specs::hash::group_hash_axioms;

/// The key of a stored hitbox: its type and the mesh it was made from (``None`` for a
/// hitbox that does not depend on mesh data).
pub type HitboxKey = (HitboxType, Option<MeshHandle>);

/// The position of a level of detail in the list of generated LODs (``LVL1`` is 0).
pub open spec fn lod_slot(lod: LOD) -> int {
    match lod {
        LOD::Base => -1,
        LOD::LVL1 => 0,
        LOD::LVL2 => 1,
        LOD::LVL3 => 2,
        LOD::LVL4 => 3,
    }
}

/// Level ``k`` of detail (``LVL1`` to ``LVL4``) is the ``k``-th generated mesh: the levels
/// take the slots 0 to 3 in their order, and the base level is no generated mesh.
pub proof fn lemma_lod_slots()
    ensures
        lod_slot(LOD::LVL1) == 0,
        lod_slot(LOD::LVL2) == 1,
        lod_slot(LOD::LVL3) == 2,
        lod_slot(LOD::LVL4) == 3,
        lod_slot(LOD::Base) < 0,
{
}

/// The asset registers of the entity manager: loaded meshes by handle, the generated levels
/// of detail of meshes, and generated hitboxes. ``M`` is the mesh data, ``H`` the hitbox data.
pub struct MeshRegister<M, H> {
    mesh_register: HashMap<MeshHandle, M>,
    lod_register: HashMap<MeshHandle, [M; 4]>,
    hitbox_register: Vec<(HitboxKey, H)>,
    next_mesh_handle: MeshHandle,
}

impl<M, H> MeshRegister<M, H> {
    /// The loaded meshes by handle.
    pub closed spec fn meshes(&self) -> Map<MeshHandle, M> {
        self.mesh_register@
    }

    /// The generated levels of detail (``LVL1`` to ``LVL4``) by mesh handle.
    pub closed spec fn lods(&self) -> Map<MeshHandle, Seq<M>> {
        self.lod_register@.map_values(|a: [M; 4]| a@)
    }

    /// The stored hitboxes by key.
    pub closed spec fn hitboxes(&self) -> Map<HitboxKey, H> {
        Map::new(
            |k: HitboxKey| exists|i: int| 0 <= i < self.hitbox_register@.len() && #[trigger] self.hitbox_register@[i].0 == k,
            |k: HitboxKey| self.hitbox_register@[choose|i: int| 0 <= i < self.hitbox_register@.len() && #[trigger] self.hitbox_register@[i].0 == k].1,
        )
    }

    /// The handle the next loaded mesh gets.
    pub closed spec fn next_handle(&self) -> MeshHandle {
        self.next_mesh_handle
    }

    /// Every stored mesh handle is below the next one, which is never one of the built-in
    /// handles 1 to 3; LODs exist only for loaded meshes, and no hitbox key is stored twice.
    pub closed spec fn wf(&self) -> bool {
        &&& self.next_mesh_handle >= 4
        &&& forall|h: MeshHandle| #[trigger] self.mesh_register@.contains_key(h) ==> h < self.next_mesh_handle
        &&& forall|h: MeshHandle| #[trigger] self.lod_register@.contains_key(h) ==> self.mesh_register@.contains_key(h)
        &&& forall|i: int, j: int|
            0 <= i < self.hitbox_register@.len() && 0 <= j < self.hitbox_register@.len() && i != j
                ==> #[trigger] self.hitbox_register@[i].0 != #[trigger] self.hitbox_register@[j].0
    }

    proof fn lemma_hitbox_at(&self, i: int)
        requires
            self.wf(),
            0 <= i < self.hitbox_register@.len(),
        ensures
            self.hitboxes().contains_key(self.hitbox_register@[i].0),
            self.hitboxes()[self.hitbox_register@[i].0] == self.hitbox_register@[i].1,
    {
        let k = self.hitbox_register@[i].0;
        assert(self.hitboxes().dom().contains(k));
        let j = choose|j: int| 0 <= j < self.hitbox_register@.len() && #[trigger] self.hitbox_register@[j].0 == k;
        assert(j == i);
    }

    /// Levels of detail are only ever stored for loaded meshes, every loaded mesh has a
    /// handle below the next one, and loaded meshes never get the built-in handles 1 to 3.
    pub proof fn lemma_lods_of_loaded_meshes(&self)
        requires
            self.wf(),
        ensures
            forall|h: MeshHandle| #[trigger] self.lods().contains_key(h) ==> self.meshes().contains_key(h),
            forall|h: MeshHandle| #[trigger] self.meshes().contains_key(h) ==> h < self.next_handle(),
            self.next_handle() >= 4,
    {
    }

    /// Creates the registers with the three built-in meshes (handles 1, 2 and 3).
    pub fn new(triangle: M, plane: M, cube: M) -> (r: Self)
        ensures
            r.wf(),
            r.meshes() == Map::<MeshHandle, M>::empty().insert(1, triangle).insert(2, plane).insert(3, cube),
            r.lods() == Map::<MeshHandle, Seq<M>>::empty(),
            r.hitboxes() == Map::<HitboxKey, H>::empty(),
            r.next_handle() == 4,
    {
        let mut mesh_register = HashMap::new();
        mesh_register.insert(1, triangle);
        mesh_register.insert(2, plane);
        mesh_register.insert(3, cube);
        let r = Self {
            mesh_register,
            lod_register: HashMap::new(),
            hitbox_register: Vec::new(),
            next_mesh_handle: 4,
        };
        assert(r.lods() =~= Map::<MeshHandle, Seq<M>>::empty());
        assert(r.hitboxes() =~= Map::<HitboxKey, H>::empty());
        r
    }

    /// Stores a loaded mesh and returns its new handle.
    pub fn add_mesh(&mut self, mesh: M) -> (r: MeshHandle)
        requires
            old(self).wf(),
            old(self).next_handle() < u64::MAX,
        ensures
            final(self).wf(),
            r == old(self).next_handle(),
            !old(self).meshes().contains_key(r),
            final(self).meshes() == old(self).meshes().insert(r, mesh),
            final(self).lods() == old(self).lods(),
            final(self).hitboxes() == old(self).hitboxes(),
            final(self).next_handle() == old(self).next_handle() + 1,
    {
        let handle = self.next_mesh_handle;
        self.next_mesh_handle = self.next_mesh_handle + 1;
        self.mesh_register.insert(handle, mesh);
        assert(self.hitboxes() =~= old(self).hitboxes());
        handle
    }

    /// Stores all the given meshes under consecutive new handles (in the given order) and
    /// returns the handles.
    pub fn add_meshes(&mut self, meshes: Vec<M>) -> (r: Vec<MeshHandle>)
        requires
            old(self).wf(),
            old(self).next_handle() + meshes@.len() <= u64::MAX,
        ensures
            final(self).wf(),
            r@.len() == meshes@.len(),
            forall|i: int| 0 <= i < r@.len() ==> #[trigger] r@[i] == old(self).next_handle() + i,
            forall|h: MeshHandle|
                #[trigger] final(self).meshes().contains_key(h) <==> (old(self).meshes().contains_key(h)
                    || old(self).next_handle() <= h < old(self).next_handle() + meshes@.len()),
            forall|h: MeshHandle|
                #[trigger] old(self).meshes().contains_key(h) ==> final(self).meshes()[h]
                    == old(self).meshes()[h],
            forall|i: int|
                0 <= i < meshes@.len() ==> final(self).meshes()[(old(self).next_handle() + i) as u64]
                    == #[trigger] meshes@[i],
            final(self).lods() == old(self).lods(),
            final(self).hitboxes() == old(self).hitboxes(),
            final(self).next_handle() == old(self).next_handle() + meshes@.len(),
    {
        let ghost orig = meshes@;
        let ghost start = self.next_mesh_handle;
        let mut rest = meshes;
        let mut r: Vec<MeshHandle> = Vec::new();
        while rest.len() > 0
            invariant
                self.wf(),
                start == old(self).next_handle(),
                start + orig.len() <= u64::MAX,
                r@.len() + rest@.len() == orig.len(),
                rest@ == orig.subrange(r@.len() as int, orig.len() as int),
                self.next_handle() == start + r@.len(),
                forall|i: int| 0 <= i < r@.len() ==> #[trigger] r@[i] == start + i,
                forall|h: MeshHandle|
                    #[trigger] self.meshes().contains_key(h) <==> (old(self).meshes().contains_key(h)
                        || start <= h < start + r@.len()),
                forall|h: MeshHandle|
                    #[trigger] old(self).meshes().contains_key(h) ==> self.meshes()[h]
                        == old(self).meshes()[h],
                forall|i: int|
                    0 <= i < r@.len() ==> self.meshes()[(start + i) as u64] == #[trigger] orig[i],
                self.lods() == old(self).lods(),
                self.hitboxes() == old(self).hitboxes(),
            decreases rest@.len(),
        {
            let m = rest.remove(0);
            let ghost k = r@.len();
            assert(m == orig[k as int]);
            let h = self.add_mesh(m);
            r.push(h);
            assert(rest@ =~= orig.subrange(r@.len() as int, orig.len() as int));
            assert(forall|i: int| 0 <= i < k ==> #[trigger] r@[i] == start + i);
        }
        r
    }

    /// Deletes a loaded mesh and its generated LODs. Returns wether or not the mesh existed.
    pub fn delete_mesh(&mut self, handle: MeshHandle) -> (r: bool)
        requires
            old(self).wf(),
        ensures
            final(self).wf(),
            r == old(self).meshes().contains_key(handle),
            final(self).meshes() == old(self).meshes().remove(handle),
            final(self).lods() == (if r {
                old(self).lods().remove(handle)
            } else {
                old(self).lods()
            }),
            final(self).hitboxes() == old(self).hitboxes(),
            final(self).next_handle() == old(self).next_handle(),
    {
        match self.mesh_register.remove(&handle) {
            Some(_) => {
                self.lod_register.remove(&handle);
                assert(self.lods() =~= old(self).lods().remove(handle));
                assert(self.hitboxes() =~= old(self).hitboxes());
                true
            },
            None => {
                assert(self.meshes() =~= old(self).meshes().remove(handle));
                false
            },
        }
    }

    /// Generates all LODs for a loaded mesh with ``generate``. Returns wether or not the mesh
    /// was present without LODs and the LODs were stored.
    pub fn load_lods<F: Fn(&M) -> [M; 4]>(&mut self, handle: MeshHandle, generate: F) -> (r: bool)
        requires
            old(self).wf(),
            forall|m: &M| generate.requires((m,)),
        ensures
            final(self).wf(),
            r == (old(self).meshes().contains_key(handle) && !old(self).lods().contains_key(handle)),
            final(self).meshes() == old(self).meshes(),
            final(self).hitboxes() == old(self).hitboxes(),
            final(self).next_handle() == old(self).next_handle(),
            r ==> final(self).lods().dom() == old(self).lods().dom().insert(handle),
            r ==> forall|h: MeshHandle| h != handle && #[trigger] old(self).lods().contains_key(h)
                ==> final(self).lods()[h] == old(self).lods()[h],
            r ==> exists|a: [M; 4]|
                generate.ensures((&old(self).meshes()[handle],), a) && final(self).lods()[handle] == a@,
            !r ==> final(self).lods() == old(self).lods(),
    {
        let lods = match self.mesh_register.get(&handle) {
            None => {
                return false;
            },
            Some(mesh) => {
                if self.lod_register.contains_key(&handle) {
                    return false;
                }
                generate(mesh)
            },
        };
        let ghost a = lods;
        self.lod_register.insert(handle, lods);
        assert(self.lods()[handle] == a@);
        assert(self.lods().dom() =~= old(self).lods().dom().insert(handle));
        true
    }

    /// Deletes the stored LODs of a mesh and returns wether or not they were present.
    pub fn delete_lods(&mut self, handle: MeshHandle) -> (r: bool)
        requires
            old(self).wf(),
        ensures
            final(self).wf(),
            r == old(self).lods().contains_key(handle),
            final(self).lods() == old(self).lods().remove(handle),
            final(self).meshes() == old(self).meshes(),
            final(self).hitboxes() == old(self).hitboxes(),
            final(self).next_handle() == old(self).next_handle(),
    {
        let r = match self.lod_register.remove(&handle) {
            Some(_) => true,
            None => false,
        };
        assert(self.lods() =~= old(self).lods().remove(handle));
        r
    }

    /// Makes mesh data available for a given handle and level of detail if it is stored.
    pub fn mesh_from_handle(&self, handle: MeshHandle, lod: LOD) -> (r: Option<&M>)
        ensures
            match lod {
                LOD::Base => r == (if self.meshes().contains_key(handle) {
                    Some(&self.meshes()[handle])
                } else {
                    None
                }),
                _ => r == (if self.lods().contains_key(handle) {
                    Some(&self.lods()[handle][lod_slot(lod)])
                } else {
                    None
                }),
            },
            lod is LVL1 && self.lods().contains_key(handle) ==> r == Some(&self.lods()[handle][0]),
            lod is LVL2 && self.lods().contains_key(handle) ==> r == Some(&self.lods()[handle][1]),
            lod is LVL3 && self.lods().contains_key(handle) ==> r == Some(&self.lods()[handle][2]),
            lod is LVL4 && self.lods().contains_key(handle) ==> r == Some(&self.lods()[handle][3]),
    {
        match lod {
            LOD::Base => self.mesh_register.get(&handle),
            _ => {
                let slot: usize = match lod {
                    LOD::LVL1 => 0,
                    LOD::LVL2 => 1,
                    LOD::LVL3 => 2,
                    _ => 3,
                };
                match self.lod_register.get(&handle) {
                    Some(a) => Some(&a[slot]),
                    None => None,
                }
            },
        }
    }

    /// Finds the position of a hitbox key in the hitbox list.
    fn hitbox_position(&self, key: HitboxKey) -> (r: Option<usize>)
        requires
            self.wf(),
        ensures
            match r {
                Some(i) => i < self.hitbox_register@.len() && self.hitbox_register@[i as int].0 == key,
                None => !self.hitboxes().contains_key(key),
            },
    {
        let mut i: usize = 0;
        while i < self.hitbox_register.len()
            invariant
                i <= self.hitbox_register@.len(),
                forall|j: int| 0 <= j < i ==> #[trigger] self.hitbox_register@[j].0 != key,
            decreases self.hitbox_register@.len() - i,
        {
            let (t, h) = self.hitbox_register[i].0;
            let same_handle = match (h, key.1) {
                (Some(a), Some(b)) => a == b,
                (None, None) => true,
                _ => false,
            };
            if t == key.0 && same_handle {
                return Some(i);
            }
            i = i + 1;
        }
        None
    }

    /// Makes hitbox data available for a given key.
    pub fn hitbox_from_data(&self, hitbox: HitboxType, opt_handle: Option<MeshHandle>) -> (r: Option<&H>)
        requires
            self.wf(),
        ensures
            r == (if self.hitboxes().contains_key((hitbox, opt_handle)) {
                Some(&self.hitboxes()[(hitbox, opt_handle)])
            } else {
                None
            }),
    {
        match self.hitbox_position((hitbox, opt_handle)) {
            Some(i) => {
                proof {
                    self.lemma_hitbox_at(i as int);
                }
                Some(&self.hitbox_register[i].1)
            },
            None => None,
        }
    }

    /// Loads a hitbox that optionally depends on a loaded mesh (made from it by ``from_mesh``,
    /// else by ``generic``) and returns wether or not the loading was successful: it fails if
    /// the hitbox is already present or the mesh is not loaded.
    pub fn load_hitbox<F: Fn(&M, HitboxType) -> H, G: Fn(HitboxType) -> H>(
        &mut self,
        hitbox_type: HitboxType,
        opt_handle: Option<MeshHandle>,
        from_mesh: F,
        generic: G,
    ) -> (r: bool)
        requires
            old(self).wf(),
            forall|m: &M, t: HitboxType| from_mesh.requires((m, t)),
            forall|t: HitboxType| generic.requires((t,)),
        ensures
            final(self).wf(),
            r == (!old(self).hitboxes().contains_key((hitbox_type, opt_handle)) && match opt_handle {
                Some(h) => old(self).meshes().contains_key(h),
                None => true,
            }),
            final(self).meshes() == old(self).meshes(),
            final(self).lods() == old(self).lods(),
            final(self).next_handle() == old(self).next_handle(),
            !r ==> final(self).hitboxes() == old(self).hitboxes(),
            r ==> final(self).hitboxes() == old(self).hitboxes().insert(
                (hitbox_type, opt_handle),
                final(self).hitboxes()[(hitbox_type, opt_handle)],
            ),
            r ==> match opt_handle {
                Some(h) => from_mesh.ensures(
                    (&old(self).meshes()[h], hitbox_type),
                    final(self).hitboxes()[(hitbox_type, opt_handle)],
                ),
                None => generic.ensures((hitbox_type,), final(self).hitboxes()[(hitbox_type, opt_handle)]),
            },
    {
        let key = (hitbox_type, opt_handle);
        if let Some(_) = self.hitbox_position(key) {
            return false;
        }
        let hitbox = match opt_handle {
            Some(handle) => match self.mesh_register.get(&handle) {
                Some(mesh) => from_mesh(mesh, hitbox_type),
                None => {
                    return false;
                },
            },
            None => generic(hitbox_type),
        };
        let ghost hb = hitbox;
        let ghost old_list = self.hitbox_register@;
        self.hitbox_register.push((key, hitbox));
        let ghost n = old_list.len();
        proof {
            assert forall|i: int, j: int|
                0 <= i < self.hitbox_register@.len() && 0 <= j < self.hitbox_register@.len() && i != j
                    implies #[trigger] self.hitbox_register@[i].0 != #[trigger] self.hitbox_register@[j].0 by {
                if i == n {
                    assert(old_list[j].0 != key);
                } else if j == n {
                    assert(old_list[i].0 != key);
                } else {
                    assert(old_list[i].0 != old_list[j].0);
                }
            }
            self.lemma_hitbox_at(n as int);
            assert forall|k: HitboxKey| #[trigger] old(self).hitboxes().contains_key(k) implies self.hitboxes().contains_key(k)
                && self.hitboxes()[k] == old(self).hitboxes()[k] by {
                let i = choose|i: int| 0 <= i < old_list.len() && #[trigger] old_list[i].0 == k;
                old(self).lemma_hitbox_at(i);
                self.lemma_hitbox_at(i);
            }
            assert forall|k: HitboxKey| #[trigger] self.hitboxes().contains_key(k) implies k == key || old(self).hitboxes().contains_key(k) by {
                let i = choose|i: int| 0 <= i < self.hitbox_register@.len() && #[trigger] self.hitbox_register@[i].0 == k;
                if i < n {
                    assert(old_list[i].0 == k);
                }
            }
            assert(self.hitboxes() =~= old(self).hitboxes().insert(key, hb));
        }
        true
    }

    /// Deletes a loaded hitbox and returns wether or not it was present (a hitbox of a mesh
    /// that is not loaded is not touched).
    pub fn delete_hitbox(&mut self, hitbox_type: HitboxType, opt_handle: Option<MeshHandle>) -> (r: bool)
        requires
            old(self).wf(),
        ensures
            final(self).wf(),
            r == (old(self).hitboxes().contains_key((hitbox_type, opt_handle)) && match opt_handle {
                Some(h) => old(self).meshes().contains_key(h),
                None => true,
            }),
            final(self).hitboxes() == (if r {
                old(self).hitboxes().remove((hitbox_type, opt_handle))
            } else {
                old(self).hitboxes()
            }),
            final(self).meshes() == old(self).meshes(),
            final(self).lods() == old(self).lods(),
            final(self).next_handle() == old(self).next_handle(),
    {
        if let Some(handle) = opt_handle {
            if !self.mesh_register.contains_key(&handle) {
                return false;
            }
        }
        let key = (hitbox_type, opt_handle);
        match self.hitbox_position(key) {
            None => false,
            Some(i) => {
                let ghost old_list = self.hitbox_register@;
                proof {
                    self.lemma_hitbox_at(i as int);
                }
                self.hitbox_register.remove(i);
                proof {
                    let nl = self.hitbox_register@;
                    assert forall|a: int, b: int|
                        0 <= a < nl.len() && 0 <= b < nl.len() && a != b
                            implies #[trigger] nl[a].0 != #[trigger] nl[b].0 by {
                        let aa = if a < i { a } else { a + 1 };
                        let bb = if b < i { b } else { b + 1 };
                        assert(nl[a] == old_list[aa]);
                        assert(nl[b] == old_list[bb]);
                        assert(old_list[aa].0 != old_list[bb].0);
                    }
                    assert forall|k: HitboxKey| #[trigger] self.hitboxes().contains_key(k) implies k != key && old(self).hitboxes().contains_key(k)
                        && self.hitboxes()[k] == old(self).hitboxes()[k] by {
                        let a = choose|a: int| 0 <= a < nl.len() && #[trigger] nl[a].0 == k;
                        let aa = if a < i { a } else { a + 1 };
                        assert(nl[a] == old_list[aa]);
                        assert(aa != i);
                        assert(old_list[aa].0 != old_list[i as int].0);
                        self.lemma_hitbox_at(a);
                        old(self).lemma_hitbox_at(aa);
                    }
                    assert forall|k: HitboxKey| #[trigger] old(self).hitboxes().contains_key(k) && k != key implies self.hitboxes().contains_key(k) by {
                        let a = choose|a: int| 0 <= a < old_list.len() && #[trigger] old_list[a].0 == k;
                        assert(a != i);
                        let na = if a < i { a } else { a - 1 };
                        assert(nl[na] == old_list[a]);
                    }
                    assert(self.hitboxes() =~= old(self).hitboxes().remove(key));
                }
                true
            },
        }
    }

    /// Clears all of the stored meshes (the built-in ones too), LODs and hitboxes.
    pub fn clear(&mut self)
        requires
            old(self).wf(),
        ensures
            final(self).wf(),
            final(self).meshes() == Map::<MeshHandle, M>::empty(),
            final(self).lods() == Map::<MeshHandle, Seq<M>>::empty(),
            final(self).hitboxes() == Map::<HitboxKey, H>::empty(),
            final(self).next_handle() == old(self).next_handle(),
    {
        self.mesh_register.clear();
        self.lod_register.clear();
        self.hitbox_register.clear();
        assert(self.lods() =~= Map::<MeshHandle, Seq<M>>::empty());
        assert(self.hitboxes() =~= Map::<HitboxKey, H>::empty());
    }
}

} // verus!
