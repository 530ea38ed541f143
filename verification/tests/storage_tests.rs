use falling_leaf::ecs::component::{Color32, MeshType};
use falling_leaf::ecs::entity::EntityType;
use falling_leaf::ecs::entity_manager::{Archetype, ECS};
use falling_leaf::systems::rendering_system::{new_renderer_key, select_renderer, RenderLook, RendererKey};

#[test]
fn archetype_ids_per_entity_type() {
    let mut ecs: ECS<u32> = ECS::new();
    let a = ecs.get_arch_id(EntityType(vec![1, 2]));
    let b = ecs.get_arch_id(EntityType(vec![1, 3]));
    let c = ecs.get_arch_id(EntityType(vec![1, 2]));
    assert_eq!(a, 1);
    assert_eq!(b, 2);
    assert_eq!(c, a);
    ecs.clear();
    let d = ecs.get_arch_id(EntityType(vec![1, 2]));
    assert_eq!(d, 3);
    assert_eq!(ecs.get_arch_id(EntityType(vec![5])), 4);
}

#[test]
fn archetype_rows_push_and_swap_remove() {
    let mut arch: Archetype<u32> = Archetype::new(EntityType(vec![1, 2]));
    assert!(arch.is_empty());
    arch.push_row(10, vec![1, 2]);
    arch.push_row(11, vec![3, 4]);
    arch.push_row(12, vec![5, 6]);
    assert_eq!(arch.component_count(), 3);
    assert_eq!(*arch.get_nth(1, 1), 4);
    let removed = arch.swap_remove_row(0);
    assert_eq!(removed, vec![1, 2]);
    assert_eq!(arch.component_count(), 2);
    assert_eq!(*arch.get_nth(0, 0), 5);
    assert_eq!(*arch.get_nth(1, 0), 6);
    assert_eq!(*arch.get_nth(0, 1), 3);
    let last = arch.swap_remove_row(1);
    assert_eq!(last, vec![3, 4]);
    assert_eq!(arch.component_count(), 1);
}

#[test]
fn renderer_selection_takes_first_match() {
    let red = RenderLook::Colored(Color32::from_rgb(255, 0, 0));
    let blue = RenderLook::Colored(Color32::from_rgb(0, 0, 255));
    let keys = vec![
        RendererKey::Other,
        RendererKey::Instance(MeshType::Triangle, red),
        RendererKey::Batch(MeshType::Cube),
        RendererKey::Instance(MeshType::Triangle, blue),
        RendererKey::Batch(MeshType::Cube),
    ];
    assert_eq!(select_renderer(&keys, MeshType::Cube, blue), Some(2));
    assert_eq!(select_renderer(&keys, MeshType::Triangle, blue), Some(3));
    assert_eq!(select_renderer(&keys, MeshType::Triangle, red), Some(1));
    assert_eq!(select_renderer(&keys, MeshType::Plane, red), None);
    assert_eq!(select_renderer(&keys, MeshType::Triangle, RenderLook::Textured(7)), None);
}

#[test]
fn new_renderer_kinds() {
    let red = RenderLook::Colored(Color32::from_rgb(255, 0, 0));
    assert_eq!(new_renderer_key(MeshType::Plane, red), RendererKey::Batch(MeshType::Plane));
    assert_eq!(new_renderer_key(MeshType::Cube, red), RendererKey::Batch(MeshType::Cube));
    assert_eq!(new_renderer_key(MeshType::Triangle, red), RendererKey::Instance(MeshType::Triangle, red));
    let keys = vec![new_renderer_key(MeshType::Custom(9), RenderLook::Textured(2))];
    assert_eq!(select_renderer(&keys, MeshType::Custom(9), RenderLook::Textured(2)), Some(0));
}
