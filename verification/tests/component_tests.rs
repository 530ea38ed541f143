use falling_leaf::ecs::asset_manager::AssetManager;
use falling_leaf::ecs::component::{
    Ambient, Color32, ColorSpace, Diffuse, Specular, ComponentStorage, EntityFlags, Filtering, MeshAttribute, MeshType,
    Texture, Wrapping,
};
use falling_leaf::ecs::entity::{EntityType, MetaDataComponentEntry};

#[test]
fn color_constructors() {
    let c = Color32::from_rgb(1, 2, 3);
    assert_eq!((c.r(), c.g(), c.b(), c.a()), (1, 2, 3, 255));
    let c = Color32::from_rgba(1, 2, 3, 4);
    assert_eq!(c, Color32 { r: 1, g: 2, b: 3, a: 4 });
    assert_eq!(Color32::default(), Color32::from_rgb(255, 255, 255));
}

#[test]
fn color_from_hex() {
    assert_eq!(Color32::from_hex(0x11223344), Color32::from_rgba(0x11, 0x22, 0x33, 0x44));
    assert_eq!(Color32::from_hex(0xFF000080), Color32::from_rgba(255, 0, 0, 128));
    assert_eq!(Color32::from_hex(0), Color32::from_rgba(0, 0, 0, 0));
}

#[test]
fn mesh_handles() {
    assert_eq!(MeshType::Triangle.mesh_handle(), 1);
    assert_eq!(MeshType::Plane.mesh_handle(), 2);
    assert_eq!(MeshType::Cube.mesh_handle(), 3);
    assert_eq!(MeshType::Custom(42).mesh_handle(), 42);
}

#[test]
fn mesh_attribute_accessors() {
    let colored = MeshAttribute::Colored(Color32::from_rgb(9, 9, 9));
    assert_eq!(colored.color(), Some(Color32::from_rgb(9, 9, 9)));
    assert!(colored.texture().is_none());
    assert!(colored.texture_path().is_none());
    let textured = MeshAttribute::Textured(Texture::default_from_path("a.png".to_string()));
    assert_eq!(textured.color(), None);
    assert_eq!(textured.texture_path(), Some(&"a.png".to_string()));
    let t = textured.texture().unwrap();
    assert_eq!(t.filtering, Filtering::Linear);
    assert_eq!(t.wrapping, Wrapping::Repeat);
    assert_eq!(t.color_space, ColorSpace::RGBA8);
    assert!(!t.is_transparent);
    match MeshAttribute::default() {
        MeshAttribute::Colored(c) => assert_eq!(c, Color32::from_rgb(255, 255, 255)),
        _ => panic!("default mesh attribute is not colored"),
    }
}

#[test]
fn entity_flags_bits() {
    let mut flags = EntityFlags::from_flags(&[0, 5, 63]);
    assert!(flags.get_bit(0));
    assert!(flags.get_bit(5));
    assert!(flags.get_bit(63));
    assert!(!flags.get_bit(1));
    assert_eq!(flags.0, 1 | (1 << 5) | (1 << 63));
    flags.set_bit(5, false);
    assert!(!flags.get_bit(5));
    assert!(flags.get_bit(0));
    flags.set_bit(7, true);
    assert!(flags.get_bit(7));
    flags.set_bit(7, true);
    assert_eq!(flags.0, 1 | (1 << 7) | (1 << 63));
    assert_eq!(EntityFlags::default().0, 0);
}

#[test]
fn component_storage_lookup() {
    let list = vec![
        MetaDataComponentEntry::from_component(3, 'a'),
        MetaDataComponentEntry::from_component(5, 'b'),
        MetaDataComponentEntry::from_component(3, 'c'),
    ];
    assert!(list.contains_component(5));
    assert!(!list.contains_component(4));
    assert_eq!(list.component_data(3), Some(&'a'));
    assert_eq!(list.component_data(4), None);
}

#[test]
fn asset_manager_ids() {
    let mut am: AssetManager<&str> = AssetManager::new();
    let a = am.add_asset("cube");
    let b = am.add_asset("plane");
    assert_eq!(a, 0);
    assert_eq!(b, 1);
    assert_eq!(*am.get_asset(a), "cube");
    assert_eq!(*am.get_asset(b), "plane");
}

#[test]
fn material_parts_default_to_white() {
    let white = Color32::from_rgb(255, 255, 255);
    assert!(matches!(Ambient::default(), Ambient::Value(c) if c == white));
    assert!(matches!(Diffuse::default(), Diffuse::Value(c) if c == white));
    assert!(matches!(Specular::default(), Specular::Value(c) if c == white));
}

#[test]
fn entity_type_add_and_remove() {
    let mut et = EntityType(vec![2, 5, 9]);
    et.add_component(7);
    assert_eq!(et.0, vec![2, 5, 7, 9]);
    et.add_component(1);
    assert_eq!(et.0, vec![1, 2, 5, 7, 9]);
    et.add_component(10);
    assert_eq!(et.0, vec![1, 2, 5, 7, 9, 10]);
    et.rm_component(5);
    assert_eq!(et.0, vec![1, 2, 7, 9, 10]);
    et.rm_component(3);
    assert_eq!(et.0, vec![1, 2, 7, 9, 10]);
    assert!(!et.is_empty());
    let mut single = EntityType(vec![4]);
    single.rm_component(4);
    assert!(single.is_empty());
}

#[test]
fn named_colors() {
    assert_eq!(Color32::WHITE(), Color32::from_rgb(255, 255, 255));
    assert_eq!(Color32::GREY(), Color32::from_rgb(128, 128, 128));
    assert_eq!(Color32::BLACK(), Color32::from_rgb(0, 0, 0));
    assert_eq!(Color32::TRANSPARENT(), Color32::from_rgba(0, 0, 0, 0));
    assert_eq!(Color32::RED(), Color32::from_rgb(255, 0, 0));
    assert_eq!(Color32::GREEN(), Color32::from_rgb(0, 255, 0));
    assert_eq!(Color32::BLUE(), Color32::from_rgb(0, 0, 255));
    assert_eq!(Color32::YELLOW(), Color32::from_rgb(255, 255, 0));
    assert_eq!(Color32::CYAN(), Color32::from_rgb(0, 255, 255));
    assert_eq!(Color32::PURPLE(), Color32::from_rgb(255, 0, 255));
    assert_eq!(Color32::default(), Color32::WHITE());
}
