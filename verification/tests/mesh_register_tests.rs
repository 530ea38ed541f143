use falling_leaf::ecs::component::{HitboxType, LOD};
use falling_leaf::ecs::mesh_register::MeshRegister;

fn simplify(m: &String) -> [String; 4] {
    [format!("{m}1"), format!("{m}2"), format!("{m}3"), format!("{m}4")]
}

fn builtin() -> MeshRegister<String, String> {
    MeshRegister::new("triangle".to_string(), "plane".to_string(), "cube".to_string())
}

#[test]
fn builtin_meshes_and_handles() {
    let mut reg = builtin();
    assert_eq!(reg.mesh_from_handle(1, LOD::Base), Some(&"triangle".to_string()));
    assert_eq!(reg.mesh_from_handle(3, LOD::Base), Some(&"cube".to_string()));
    assert_eq!(reg.mesh_from_handle(4, LOD::Base), None);
    let h = reg.add_mesh("teapot".to_string());
    assert_eq!(h, 4);
    assert_eq!(reg.add_mesh("bunny".to_string()), 5);
    assert_eq!(reg.mesh_from_handle(h, LOD::Base), Some(&"teapot".to_string()));
}

#[test]
fn lods_load_once_and_follow_mesh() {
    let mut reg = builtin();
    assert_eq!(reg.mesh_from_handle(3, LOD::LVL1), None);
    assert!(reg.load_lods(3, simplify));
    assert!(!reg.load_lods(3, simplify));
    assert!(!reg.load_lods(42, simplify));
    assert_eq!(reg.mesh_from_handle(3, LOD::LVL1), Some(&"cube1".to_string()));
    assert_eq!(reg.mesh_from_handle(3, LOD::LVL4), Some(&"cube4".to_string()));
    assert!(reg.delete_mesh(3));
    assert_eq!(reg.mesh_from_handle(3, LOD::LVL2), None);
    assert!(!reg.delete_mesh(3));
    assert!(!reg.delete_lods(3));
    assert!(reg.load_lods(2, simplify));
    assert!(reg.delete_lods(2));
    assert_eq!(reg.mesh_from_handle(2, LOD::LVL2), None);
    assert_eq!(reg.mesh_from_handle(2, LOD::Base), Some(&"plane".to_string()));
}

#[test]
fn hitboxes() {
    let mut reg = builtin();
    let from_mesh = |m: &String, t: HitboxType| format!("{m}:{t:?}");
    let generic = |t: HitboxType| format!("generic:{t:?}");
    assert!(reg.load_hitbox(HitboxType::Sphere, None, from_mesh, generic));
    assert!(!reg.load_hitbox(HitboxType::Sphere, None, from_mesh, generic));
    assert!(reg.load_hitbox(HitboxType::Box, Some(3), from_mesh, generic));
    assert!(!reg.load_hitbox(HitboxType::Box, Some(9), from_mesh, generic));
    assert_eq!(reg.hitbox_from_data(HitboxType::Sphere, None), Some(&"generic:Sphere".to_string()));
    assert_eq!(reg.hitbox_from_data(HitboxType::Box, Some(3)), Some(&"cube:Box".to_string()));
    assert_eq!(reg.hitbox_from_data(HitboxType::Box, None), None);
    assert!(!reg.delete_hitbox(HitboxType::Box, Some(9)));
    assert!(reg.delete_hitbox(HitboxType::Box, Some(3)));
    assert!(!reg.delete_hitbox(HitboxType::Box, Some(3)));
    assert_eq!(reg.hitbox_from_data(HitboxType::Sphere, None), Some(&"generic:Sphere".to_string()));
    reg.clear();
    assert_eq!(reg.mesh_from_handle(1, LOD::Base), None);
    assert_eq!(reg.hitbox_from_data(HitboxType::Sphere, None), None);
}

#[test]
fn meshes_of_one_file_get_consecutive_handles() {
    let mut reg = builtin();
    let hs = reg.add_meshes(vec!["a".to_string(), "b".to_string(), "c".to_string()]);
    assert_eq!(hs, vec![4, 5, 6]);
    assert_eq!(reg.mesh_from_handle(5, LOD::Base), Some(&"b".to_string()));
    assert_eq!(reg.add_meshes(Vec::new()), Vec::<u64>::new());
    assert_eq!(reg.add_mesh("d".to_string()), 7);
}
