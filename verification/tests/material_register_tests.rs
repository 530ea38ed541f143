use falling_leaf::ecs::material_register::MaterialRegister;

#[test]
fn materials_by_name() {
    let mut reg: MaterialRegister<u32> = MaterialRegister::new();
    assert!(!reg.add_material("wood".to_string(), 1));
    assert!(!reg.add_material("stone".to_string(), 2));
    assert!(reg.add_material("wood".to_string(), 3));
    assert_eq!(reg.material_from_name(&"wood".to_string()), Some(&3));
    assert_eq!(reg.material_from_name(&"stone".to_string()), Some(&2));
    assert_eq!(reg.material_from_name(&"glass".to_string()), None);
    let mut names = reg.all_material_names();
    names.sort();
    assert_eq!(names, vec!["stone".to_string(), "wood".to_string()]);
    assert_eq!(reg.delete_material(&"wood".to_string()), Some(3));
    assert_eq!(reg.delete_material(&"wood".to_string()), None);
    assert_eq!(reg.material_from_name(&"stone".to_string()), Some(&2));
    assert_eq!(reg.all_material_names(), vec!["stone".to_string()]);
}
