use orbtk::store::{CompTag, Component, ComponentStore, StoreError, get_property_or_value};
use orbtk::structs::Point;
use orbtk::tree::{Tree, TreeError};

#[test]
fn missing_component_is_not_found() {
    let mut store = ComponentStore::new();
    store.register_entity();
    match store.borrow(0, CompTag::Text) {
        Err(e) => assert_eq!(e, StoreError::NotFound),
        Ok(_) => panic!("expected a missing component"),
    }
    assert!(store.insert(5, Component::Column(1)).is_err());
}

#[test]
fn insert_then_borrow() {
    let mut store = ComponentStore::new();
    store.register_entity();
    store.insert(0, Component::Column(7)).unwrap();
    match store.borrow(0, CompTag::Column).unwrap() {
        Component::Column(v) => assert_eq!(*v, 7),
        _ => panic!("expected a column"),
    }
    // a second insert of the same tag replaces the value
    store.insert(0, Component::Column(9)).unwrap();
    match store.borrow(0, CompTag::Column).unwrap() {
        Component::Column(v) => assert_eq!(*v, 9),
        _ => panic!("expected a column"),
    }
    // another tag lives beside it
    store.insert(0, Component::Focused(true)).unwrap();
    match store.borrow(0, CompTag::Focused).unwrap() {
        Component::Focused(b) => assert!(*b),
        _ => panic!("expected a flag"),
    }
}

#[test]
fn shared_property_alias_reads_source() {
    let mut store = ComponentStore::new();
    store.register_entity();
    store.register_entity();
    store.register_entity();
    store.insert(0, Component::Column(1)).unwrap();
    store.insert_shared(1, 0, CompTag::Column).unwrap();
    store.insert_shared(2, 1, CompTag::Column).unwrap();
    match store.borrow(1, CompTag::Column).unwrap() {
        Component::Column(v) => assert_eq!(*v, 1),
        _ => panic!("expected a column"),
    }
    match store.borrow(2, CompTag::Column).unwrap() {
        Component::Column(v) => assert_eq!(*v, 1),
        _ => panic!("expected a column"),
    }
}

#[test]
fn mutating_source_is_observed_by_every_alias() {
    // shared-property aliasing: a write through the source is seen by all
    let mut store = ComponentStore::new();
    store.register_entity();
    store.register_entity();
    store.register_entity();
    store.insert(0, Component::Column(1)).unwrap();
    store.insert_shared(1, 0, CompTag::Column).unwrap();
    store.insert_shared(2, 0, CompTag::Column).unwrap();
    store.set_component(0, Component::Column(42)).unwrap();
    for e in [0u32, 1, 2] {
        match store.borrow(e, CompTag::Column).unwrap() {
            Component::Column(v) => assert_eq!(*v, 42),
            _ => panic!("expected a column"),
        }
    }
}

#[test]
fn mutating_through_alias_writes_the_source() {
    let mut store = ComponentStore::new();
    store.register_entity();
    store.register_entity();
    store.insert(0, Component::Column(1)).unwrap();
    store.insert_shared(1, 0, CompTag::Column).unwrap();
    store.set_component(1, Component::Column(5)).unwrap();
    match store.borrow(0, CompTag::Column).unwrap() {
        Component::Column(v) => assert_eq!(*v, 5),
        _ => panic!("expected a column"),
    }
}

#[test]
fn removed_source_invalidates_alias() {
    let mut store = ComponentStore::new();
    store.register_entity();
    store.register_entity();
    store.insert(0, Component::Column(1)).unwrap();
    store.insert_shared(1, 0, CompTag::Column).unwrap();
    store.remove(0, CompTag::Column).unwrap();
    assert!(store.borrow(1, CompTag::Column).is_err());
}

#[test]
fn property_helpers() {
    let mut store = ComponentStore::new();
    store.register_entity();
    store.insert(0, Component::Position(Point { x: 3, y: 4 })).unwrap();
    let fallback = Component::Position(Point { x: 0, y: 0 });
    match get_property_or_value(0, &store, CompTag::Position, &fallback) {
        Component::Position(p) => assert_eq!((p.x, p.y), (3, 4)),
        _ => panic!("expected a position"),
    }
    match get_property_or_value(0, &store, CompTag::Offset, &fallback) {
        Component::Position(p) => assert_eq!((p.x, p.y), (0, 0)),
        _ => panic!("expected the fallback"),
    }
}

#[test]
fn tree_append_and_preorder() {
    let mut tree = Tree::new();
    let a = tree.register_node();
    let b = tree.register_node();
    let c = tree.register_node();
    let d = tree.register_node();
    assert_eq!((a, b, c, d), (0, 1, 2, 3));
    tree.append_child(a, b).unwrap();
    tree.append_child(b, c).unwrap();
    tree.append_child(a, d).unwrap();
    assert_eq!(tree.pre_order(), vec![0, 1, 2, 3]);
}

#[test]
fn tree_rejects_bad_appends() {
    let mut tree = Tree::new();
    let a = tree.register_node();
    let b = tree.register_node();
    assert_eq!(tree.append_child(a, a), Err(TreeError::Attached));
    assert_eq!(tree.append_child(a, 9), Err(TreeError::NotFound));
    tree.append_child(a, b).unwrap();
    // an attached child must be detached before it moves
    assert_eq!(tree.append_child(a, b), Err(TreeError::Attached));
}

#[test]
fn clear_children_detaches() {
    let mut tree = Tree::new();
    let a = tree.register_node();
    let b = tree.register_node();
    let c = tree.register_node();
    tree.append_child(a, b).unwrap();
    tree.append_child(b, c).unwrap();
    tree.clear_children_of(a).unwrap();
    assert_eq!(tree.pre_order(), vec![0]);
    // the detached child keeps its own subtree and can be re-attached
    tree.append_child(a, b).unwrap();
    assert_eq!(tree.pre_order(), vec![0, 1, 2]);
}
