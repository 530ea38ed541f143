use vstd::prelude::*;
use crate::ecs::component::{Color32, MeshType};

verus! {

/// What an instance renderer draws every instance with: one color or one texture (by its
/// texture id).
#[derive(Debug, Clone, Copy, PartialEq, Eq, Structural)]
pub enum RenderLook {
    Colored(Color32),
    Textured(u32),
}

/// The kind of a stored renderer together with the data it is made for: batch renderers
/// draw one mesh type in any look, instance renderers one mesh type in one look; the other
/// renderers (fonts, sprites, voxels) take no entity data.
#[derive(Debug, Clone, Copy, PartialEq, Eq, Structural)]
pub enum RendererKey {
    Batch(MeshType),
    Instance(MeshType, RenderLook),
    Other,
}

/// Wether a renderer takes the render data of an entity with the given mesh type and look.
pub open spec fn renderer_matches(key: RendererKey, mesh: MeshType, look: RenderLook) -> bool {
    match key {
        RendererKey::Batch(m) => m == mesh,
        RendererKey::Instance(m, l) => m == mesh && l == look,
        RendererKey::Other => false,
    }
}

/// A batch renderer takes exactly the entities of its mesh type; an instance renderer takes
/// exactly the entities of its mesh type drawn in its look (the same color, or the same
/// texture id); the other renderers take none.
pub proof fn lemma_renderer_matches(m: MeshType, l: RenderLook, mesh: MeshType, look: RenderLook)
    ensures
        renderer_matches(RendererKey::Batch(m), mesh, look) <==> m == mesh,
        renderer_matches(RendererKey::Instance(m, l), mesh, look) <==> (m == mesh && l == look),
        !renderer_matches(RendererKey::Other, mesh, look),
{
}

/// Chooses the stored renderer that gets the render data of an entity: the first one (in
/// storage order) that takes it, or ``None`` if a new renderer has to be added.
pub fn select_renderer(keys: &Vec<RendererKey>, mesh: MeshType, look: RenderLook) -> (r: Option<usize>)
    ensures
        match r {
            Some(i) => i < keys@.len() && renderer_matches(keys@[i as int], mesh, look) && forall|j: int|
                0 <= j < i ==> !renderer_matches(#[trigger] keys@[j], mesh, look),
            None => forall|j: int| 0 <= j < keys@.len() ==> !renderer_matches(#[trigger] keys@[j], mesh, look),
        },
        r matches Some(i) ==> keys@[i as int] == RendererKey::Batch(mesh) || keys@[i as int]
            == RendererKey::Instance(mesh, look),
        r is None ==> forall|j: int| 0 <= j < keys@.len() ==> #[trigger] keys@[j] != RendererKey::Batch(mesh)
            && keys@[j] != RendererKey::Instance(mesh, look),
        r matches Some(i) ==> forall|j: int| 0 <= j < i ==> #[trigger] keys@[j] != RendererKey::Batch(mesh)
            && keys@[j] != RendererKey::Instance(mesh, look),
{
    let mut i: usize = 0;
    while i < keys.len()
        invariant
            i <= keys@.len(),
            forall|j: int| 0 <= j < i ==> !renderer_matches(#[trigger] keys@[j], mesh, look),
        decreases keys@.len() - i,
    {
        let found = match keys[i] {
            RendererKey::Batch(m) => m == mesh,
            RendererKey::Instance(m, l) => m == mesh && l == look,
            RendererKey::Other => false,
        };
        if found {
            return Some(i);
        }
        i = i + 1;
    }
    None
}

/// The renderer that gets added when no stored renderer takes an entity's render data: a
/// batch renderer for planes and cubes, an instance renderer for every other mesh type (drawn
/// in the entity's look). The new renderer takes that render data.
pub fn new_renderer_key(mesh: MeshType, look: RenderLook) -> (r: RendererKey)
    ensures
        r == (match mesh {
            MeshType::Plane | MeshType::Cube => RendererKey::Batch(mesh),
            _ => RendererKey::Instance(mesh, look),
        }),
        renderer_matches(r, mesh, look),
{
    match mesh {
        MeshType::Plane | MeshType::Cube => RendererKey::Batch(mesh),
        _ => RendererKey::Instance(mesh, look),
    }
}

} // verus!
