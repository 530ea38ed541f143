use falling_leaf::utils::file::{
    asset_path, get_audio_path, get_image_path, get_model_path, get_shader_path,
    get_texture_path,
};
use falling_leaf::utils::mesh::remove_unused_vertices;
use falling_leaf::utils::tools::{split_mut_errors, SplitGet, SplitMutError};
use std::collections::HashMap;

#[test]
fn asset_paths() {
    assert_eq!(asset_path("/home/u/game", "audio/"), "/home/u/game/assets/audio/");
    assert_eq!(asset_path("C:\\games\\leaf", "x"), "C:/games/leaf/assets/x");
    assert_eq!(get_audio_path("/g", "a.wav"), "/g/assets/audio/a.wav");
    assert_eq!(get_image_path("/g", "i.png"), "/g/assets/images/i.png");
    assert_eq!(get_texture_path("/g", "t.png"), "/g/assets/textures/t.png");
    assert_eq!(get_model_path("/g", "m.obj"), "/g/assets/models/m.obj");
    assert_eq!(get_shader_path("D:\\x", "s.glsl"), "D:/x/assets/shaders/s.glsl");
}

#[test]
fn split_get() {
    let mut m: HashMap<u64, &str> = HashMap::new();
    m.insert(1, "one");
    m.insert(2, "two");
    m.insert(3, "three");
    assert_eq!(m.get2(&1, &2), Some((&"one", &"two")));
    assert_eq!(m.get2(&1, &9), None);
    assert_eq!(m.get3(&3, &2, &1), Some((&"three", &"two", &"one")));
    assert_eq!(m.get4(&1, &1, &2, &3), Some((&"one", &"one", &"two", &"three")));
    assert_eq!(m.get5(&1, &2, &3, &4, &1), None);
    assert_eq!(m.get5(&1, &2, &3, &2, &1).map(|t| *t.4), Some("one"));
}

#[test]
fn split_mut_error_names() {
    assert_eq!(SplitMutError::NoValue.to_string(), "NoValue");
    assert_eq!(SplitMutError::SameValue.to_string(), "SameValue");
    assert!(SplitMutError::NoValue < SplitMutError::SameValue);
}

#[test]
fn split_mut_slot_errors() {
    let r = split_mut_errors(&vec![Some(7), None, Some(7), Some(3), Some(3), Some(9)]);
    assert_eq!(
        r,
        vec![
            None,
            Some(SplitMutError::NoValue),
            Some(SplitMutError::SameValue),
            None,
            Some(SplitMutError::SameValue),
            None
        ]
    );
    assert_eq!(split_mut_errors(&vec![]), vec![]);
}

#[test]
fn unused_vertices_are_removed() {
    let mut vertices = vec!['a', 'b', 'c', 'd', 'e'];
    let mut faces = vec![[0usize, 2, 4]];
    remove_unused_vertices(&mut vertices, &mut faces);
    assert_eq!(vertices, vec!['a', 'e', 'c']);
    assert_eq!(faces, vec![[0, 2, 1]]);
    let mut vertices = vec![1, 2, 3, 4];
    let mut faces = vec![[3usize, 2, 1], [1, 3, 2]];
    remove_unused_vertices(&mut vertices, &mut faces);
    assert_eq!(vertices, vec![4, 2, 3]);
    assert_eq!(faces, vec![[0, 2, 1], [1, 0, 2]]);
}

#[test]
fn unused_last_vertex_is_removed() {
    let mut vertices = vec![0, 1, 2, 3];
    let mut faces = vec![[0usize, 1, 2]];
    remove_unused_vertices(&mut vertices, &mut faces);
    assert_eq!(vertices, vec![0, 1, 2]);
    assert_eq!(faces, vec![[0, 1, 2]]);
}

#[test]
fn without_faces_one_vertex_stays() {
    let mut vertices = vec!['x', 'y', 'z'];
    let mut faces: Vec<[usize; 3]> = Vec::new();
    remove_unused_vertices(&mut vertices, &mut faces);
    assert_eq!(vertices, vec!['y']);
    let mut none: Vec<char> = Vec::new();
    remove_unused_vertices(&mut none, &mut faces);
    assert!(none.is_empty());
}
