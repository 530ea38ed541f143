use falling_leaf::ecs::entity::MetaDataComponentEntry;
use falling_leaf::ecs::entity_manager::{EntityManager, ECS};
use falling_leaf::ecs::query::{ExcludeFilter, IncludeFilter, QueryType};

#[derive(Debug, Clone, PartialEq)]
enum Comp {
    Id(u64),
    A(u16),
    B(u16),
    C(u16),
    D(u16),
}

const TA: u64 = 1;
const TB: u64 = 2;
const TC: u64 = 3;
const TD: u64 = 4;

const ID: u64 = 100;
const NO_ENTITY: u64 = 0;

fn entry(t: u64, c: Comp) -> MetaDataComponentEntry<Comp> {
    MetaDataComponentEntry::from_component(t, c)
}

/// The given entries after the placeholder id component.
fn components(mut entries: Vec<MetaDataComponentEntry<Comp>>) -> Vec<MetaDataComponentEntry<Comp>> {
    entries.insert(0, entry(ID, Comp::Id(NO_ENTITY)));
    entries
}

#[test]
fn entity_test() {
    let mut ecs = EntityManager::new();
    let a = ecs.create_entity(components(vec![entry(TA, Comp::A(42)), entry(TB, Comp::B(42))]), ID, Comp::Id);
    let x = ecs.create_entity(components(vec![entry(TA, Comp::A(42)), entry(TB, Comp::B(42))]), ID, Comp::Id);
    assert!(ecs.delete_entity(a));
    assert!(ecs.add_component(x, TC, Comp::C(42)));
    assert!(ecs.add_component(x, TD, Comp::D(42)));
    assert!(ecs.has_component(x, TD));
    ecs.remove_component(x, TD).unwrap();
    assert!(!ecs.has_component(x, TD));
    assert!(ecs.has_component(x, TC));
    assert_eq!(ecs.query2(TA, TB, (None, None)).len(), 1);
    assert!(ecs.delete_entity(x));
}

#[derive(Debug, Clone, PartialEq)]
enum RenderComp {
    Id(u64),
    Position([f32; 3]),
    DirectionalLight { color: [u8; 4], intensity: f32, direction: [f32; 3] },
}

const POSITION: u64 = 10;
const DIRECTIONAL_LIGHT: u64 = 11;

fn render_id() -> MetaDataComponentEntry<RenderComp> {
    MetaDataComponentEntry::from_component(ID, RenderComp::Id(NO_ENTITY))
}

fn origin() -> MetaDataComponentEntry<RenderComp> {
    MetaDataComponentEntry::from_component(POSITION, RenderComp::Position([0.0, 0.0, 0.0]))
}

fn default_light() -> MetaDataComponentEntry<RenderComp> {
    MetaDataComponentEntry::from_component(
        DIRECTIONAL_LIGHT,
        RenderComp::DirectionalLight {
            color: [255, 255, 255, 255],
            intensity: 1.0,
            direction: [0.0, -1.0, 0.0],
        },
    )
}

#[test]
fn render_data_test() {
    let mut ecs = EntityManager::new();
    let _ = ecs.create_entity(vec![render_id(), origin(), default_light()], ID, RenderComp::Id);
    let _ = ecs.create_entity(vec![render_id(), origin()], ID, RenderComp::Id);
    let _ = ecs.create_entity(vec![render_id(), origin()], ID, RenderComp::Id);
    assert_eq!(ecs.query1(DIRECTIONAL_LIGHT, (None, None)).len(), 1);
    assert_eq!(ecs.query1(POSITION, (None, None)).len(), 3);
}

#[test]
fn create_and_get_components() {
    let mut ecs: ECS<Comp> = ECS::new();
    let e = ecs.create_entity(vec![entry(TB, Comp::B(7)), entry(TA, Comp::A(3))]);
    assert_eq!(e, 1);
    assert_eq!(ecs.get_component(e, TA), Some(&Comp::A(3)));
    assert_eq!(ecs.get_component(e, TB), Some(&Comp::B(7)));
    assert_eq!(ecs.get_component(e, TC), None);
    assert_eq!(ecs.get_component(99, TA), None);
    let t = ecs.get_entity_type(e).unwrap();
    assert_eq!(t.iter(), &[TA, TB][..]);
    assert!(ecs.get_entity_type(99).is_none());
    let e2 = ecs.create_entity(vec![entry(TA, Comp::A(5))]);
    assert_eq!(e2, 2);
}

#[test]
fn ids_are_not_reused() {
    let mut ecs: ECS<Comp> = ECS::new();
    let e1 = ecs.create_entity(vec![entry(TA, Comp::A(1))]);
    assert!(ecs.delete_entity(e1));
    let e2 = ecs.create_entity(vec![entry(TA, Comp::A(2))]);
    assert_ne!(e1, e2);
    assert!(!ecs.delete_entity(e1));
    assert_eq!(ecs.get_component(e2, TA), Some(&Comp::A(2)));
}

#[test]
fn add_component_refusals() {
    let mut ecs: ECS<Comp> = ECS::new();
    let e = ecs.create_entity(vec![entry(TA, Comp::A(1))]);
    assert!(!ecs.add_component(e, TA, Comp::A(9)));
    assert_eq!(ecs.get_component(e, TA), Some(&Comp::A(1)));
    assert!(!ecs.add_component(77, TB, Comp::B(9)));
    assert!(!ecs.has_component(77, TB));
}

#[test]
fn add_then_remove_roundtrip() {
    let mut ecs: ECS<Comp> = ECS::new();
    let e = ecs.create_entity(vec![entry(TA, Comp::A(1)), entry(TC, Comp::C(3))]);
    assert!(ecs.add_component(e, TB, Comp::B(2)));
    assert_eq!(ecs.remove_component(e, TB), Some(Comp::B(2)));
    assert_eq!(ecs.get_component(e, TA), Some(&Comp::A(1)));
    assert_eq!(ecs.get_component(e, TC), Some(&Comp::C(3)));
    assert!(!ecs.has_component(e, TB));
    assert_eq!(ecs.remove_component(e, TB), None);
}

#[test]
fn removing_last_component_deletes_entity() {
    let mut ecs: ECS<Comp> = ECS::new();
    let e = ecs.create_entity(vec![entry(TA, Comp::A(1))]);
    assert_eq!(ecs.remove_component(e, TA), Some(Comp::A(1)));
    assert!(!ecs.delete_entity(e));
    assert_eq!(ecs.all_ids().len(), 0);
}

#[test]
fn other_entities_survive_moves() {
    let mut ecs: ECS<Comp> = ECS::new();
    let e1 = ecs.create_entity(vec![entry(TA, Comp::A(1))]);
    let e2 = ecs.create_entity(vec![entry(TA, Comp::A(2))]);
    let e3 = ecs.create_entity(vec![entry(TA, Comp::A(3))]);
    assert!(ecs.add_component(e1, TB, Comp::B(10)));
    assert!(ecs.delete_entity(e2));
    assert_eq!(ecs.get_component(e3, TA), Some(&Comp::A(3)));
    assert_eq!(ecs.get_component(e1, TA), Some(&Comp::A(1)));
    assert_eq!(ecs.get_component(e1, TB), Some(&Comp::B(10)));
    let mut ids = ecs.all_ids();
    ids.sort();
    assert_eq!(ids, vec![e1, e3]);
}

#[test]
fn get_component_mut_changes_one_value() {
    let mut ecs: ECS<Comp> = ECS::new();
    let e = ecs.create_entity(vec![entry(TA, Comp::A(1)), entry(TB, Comp::B(2))]);
    if let Some(c) = ecs.get_component_mut(e, TA) {
        *c = Comp::A(100);
    }
    assert_eq!(ecs.get_component(e, TA), Some(&Comp::A(100)));
    assert_eq!(ecs.get_component(e, TB), Some(&Comp::B(2)));
    assert!(ecs.get_component_mut(e, TC).is_none());
}

#[test]
fn query_filters() {
    let mut ecs: ECS<Comp> = ECS::new();
    let _ = ecs.create_entity(vec![entry(TA, Comp::A(1))]);
    let _ = ecs.create_entity(vec![entry(TA, Comp::A(2)), entry(TB, Comp::B(2))]);
    let _ = ecs.create_entity(vec![entry(TA, Comp::A(3)), entry(TC, Comp::C(3))]);
    assert_eq!(ecs.query1(TA, IncludeFilter(vec![]), ExcludeFilter(vec![])).len(), 3);
    let with_b = ecs.query1(TA, IncludeFilter(vec![TB]), ExcludeFilter(vec![]));
    assert_eq!(with_b, vec![&Comp::A(2)]);
    let mut without_b: Vec<Comp> = ecs
        .query1(TA, IncludeFilter(vec![]), ExcludeFilter(vec![TB]))
        .into_iter()
        .cloned()
        .collect();
    without_b.sort_by_key(|c| format!("{:?}", c));
    assert_eq!(without_b, vec![Comp::A(1), Comp::A(3)]);
    let pairs = ecs.query2(TA, TC, IncludeFilter(vec![]), ExcludeFilter(vec![]));
    assert_eq!(pairs, vec![(&Comp::A(3), &Comp::C(3))]);
    assert_eq!(ecs.query2(TB, TC, IncludeFilter(vec![]), ExcludeFilter(vec![])).len(), 0);
}

#[test]
fn mutable_query_updates_matches_only() {
    let mut ecs: ECS<Comp> = ECS::new();
    let e1 = ecs.create_entity(vec![entry(TA, Comp::A(1))]);
    let e2 = ecs.create_entity(vec![entry(TA, Comp::A(2)), entry(TB, Comp::B(2))]);
    ecs.query1_mut(TA, IncludeFilter(vec![TB]), ExcludeFilter(vec![]), |c: &Comp| match c {
        Comp::A(v) => Comp::A(v + 10),
        other => other.clone(),
    });
    assert_eq!(ecs.get_component(e1, TA), Some(&Comp::A(1)));
    assert_eq!(ecs.get_component(e2, TA), Some(&Comp::A(12)));
    ecs.query2_mut(TA, TB, IncludeFilter(vec![]), ExcludeFilter(vec![]), |a: &Comp, b: &Comp| {
        (b.clone(), a.clone())
    });
    assert_eq!(ecs.get_component(e2, TA), Some(&Comp::B(2)));
    assert_eq!(ecs.get_component(e2, TB), Some(&Comp::A(12)));
}

#[test]
fn queries_of_three_to_five() {
    let mut ecs: ECS<Comp> = ECS::new();
    let _ = ecs.create_entity(vec![
        entry(TA, Comp::A(1)),
        entry(TB, Comp::B(2)),
        entry(TC, Comp::C(3)),
        entry(TD, Comp::D(4)),
        entry(5, Comp::A(5)),
    ]);
    let _ = ecs.create_entity(vec![entry(TA, Comp::A(9))]);
    assert_eq!(ecs.query3(TA, TB, TC, IncludeFilter(vec![]), ExcludeFilter(vec![])).len(), 1);
    assert_eq!(ecs.query4(TA, TB, TC, TD, IncludeFilter(vec![]), ExcludeFilter(vec![])).len(), 1);
    let r = ecs.query5(TA, TB, TC, TD, 5, IncludeFilter(vec![]), ExcludeFilter(vec![]));
    assert_eq!(r, vec![(&Comp::A(1), &Comp::B(2), &Comp::C(3), &Comp::D(4), &Comp::A(5))]);
    ecs.query3_mut(TA, TB, TC, IncludeFilter(vec![]), ExcludeFilter(vec![]), |_a, _b, _c| {
        (Comp::A(0), Comp::B(0), Comp::C(0))
    });
    let r = ecs.query3(TA, TB, TC, IncludeFilter(vec![]), ExcludeFilter(vec![]));
    assert_eq!(r, vec![(&Comp::A(0), &Comp::B(0), &Comp::C(0))]);
}

#[test]
fn clear_removes_everything() {
    let mut ecs: ECS<Comp> = ECS::new();
    let e = ecs.create_entity(vec![entry(TA, Comp::A(1))]);
    ecs.clear();
    assert!(ecs.get_component(e, TA).is_none());
    let e2 = ecs.create_entity(vec![entry(TA, Comp::A(1))]);
    assert!(e2 > e);
}

#[test]
fn general_query_with_optional_types() {
    let mut em: EntityManager<Comp> = EntityManager::new();
    let x = em.create_entity(components(vec![entry(TA, Comp::A(1)), entry(TB, Comp::B(2))]), ID, Comp::Id);
    let y = em.create_entity(components(vec![entry(TA, Comp::A(3))]), ID, Comp::Id);
    let _z = em.create_entity(components(vec![entry(TC, Comp::C(4))]), ID, Comp::Id);
    let types = vec![
        QueryType { type_id: TA, is_optional: false },
        QueryType { type_id: TB, is_optional: true },
    ];
    let rows = em.query_types(&types, (None, None));
    assert_eq!(rows.len(), 2);
    let mut seen = Vec::new();
    for row in rows.iter() {
        assert_eq!(row.len(), 2);
        match row[0] {
            Some(Comp::A(1)) => {
                assert_eq!(row[1], Some(&Comp::B(2)));
                seen.push(x);
            }
            Some(Comp::A(3)) => {
                assert_eq!(row[1], None);
                seen.push(y);
            }
            other => panic!("unexpected entry {:?}", other),
        }
    }
    seen.sort();
    assert_eq!(seen, vec![x, y]);
    let required = vec![
        QueryType { type_id: TA, is_optional: false },
        QueryType { type_id: TB, is_optional: false },
    ];
    assert_eq!(em.query_types(&required, (None, None)).len(), 1);
    let excluded = em.query_types(&types, (None, Some(ExcludeFilter(vec![TB]))));
    assert_eq!(excluded, vec![vec![Some(&Comp::A(3)), None]]);
}

#[test]
fn manager_writes_entity_id_component() {
    let mut em: EntityManager<Comp> = EntityManager::new();
    let a = em.create_entity(components(vec![entry(TA, Comp::A(1))]), ID, Comp::Id);
    let b = em.create_entity(components(vec![entry(TA, Comp::A(2))]), ID, Comp::Id);
    assert_ne!(a, b);
    assert_eq!(em.get_component(a, ID), Some(&Comp::Id(a)));
    assert_eq!(em.get_component(b, ID), Some(&Comp::Id(b)));
    assert_eq!(em.get_component(a, TA), Some(&Comp::A(1)));
}
