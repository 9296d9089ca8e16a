use orbtk::css::parse;
use orbtk::layout::{
    layout_rec, DefaultLayoutObject, LayoutResult, LayoutStrategy, PaddingLayoutObject,
    LayoutSystem, themed_padding,
};
use orbtk::selector::Selector;
use orbtk::store::{CompTag, Component, ComponentStore};
use orbtk::structs::{Bounds, Constraint, Padding};
use orbtk::theme::Theme;
use orbtk::tree::Tree;

fn theme_of(css: &str) -> Theme {
    Theme { parent: None, rules: parse(css) }
}

fn container_selector() -> Component {
    Component::Selector(Selector::new().with(String::from("container")))
}

#[test]
fn padding_round_trip() {
    // constraint {min:0, max:100}, padding {left:4, right:4, top:2, bottom:2},
    // a child reporting (50, 20): the padding layout reports (58, 24) and
    // positions the child at local origin (4, 2).
    let theme = theme_of(
        "container { padding-left: 4; padding-right: 4; padding-top: 2; padding-bottom: 2; }",
    );
    let mut store = ComponentStore::new();
    store.register_entity();
    store.register_entity();
    store.insert(0, container_selector()).unwrap();
    store
        .insert(1, Component::Bounds(Bounds { x: 0, y: 0, width: 50, height: 20 }))
        .unwrap();
    let children: Vec<u32> = vec![1];
    let constraint = Constraint {
        min_width: 0,
        min_height: 0,
        max_width: 100,
        max_height: 100,
        width: 0,
        height: 0,
    };
    let p = PaddingLayoutObject;
    // first phase: the child is requested under the inset-narrowed constraint
    let r1 = p.layout(0, &mut store, &constraint, &children, None, &theme);
    match r1 {
        LayoutResult::RequestChild(c, cc) => {
            assert_eq!(c, 1);
            assert_eq!(cc.max_width, 92);
            assert_eq!(cc.max_height, 96);
        }
        _ => panic!("expected a child request"),
    }
    // second phase: the child's size is fed back
    let r2 = p.layout(0, &mut store, &constraint, &children, Some((50, 20)), &theme);
    match r2 {
        LayoutResult::Size(sz) => assert_eq!(sz, (58, 24)),
        _ => panic!("expected a size"),
    }
    match store.borrow(1, CompTag::Bounds).unwrap() {
        Component::Bounds(b) => {
            assert_eq!(b.x, 4);
            assert_eq!(b.y, 2);
            assert_eq!(b.width, 50);
            assert_eq!(b.height, 20);
        }
        _ => panic!("expected bounds"),
    }
}

#[test]
fn uniform_padding_wins_over_sides() {
    let theme = theme_of("container { padding: 3; padding-left: 9; }");
    let mut store = ComponentStore::new();
    store.register_entity();
    store.insert(0, container_selector()).unwrap();
    let pad = themed_padding(&theme, &store, 0);
    assert_eq!(pad, Padding { left: 3, top: 3, right: 3, bottom: 3 });
}

#[test]
fn negative_constraint_clamps_to_zero() {
    // an inset larger than the available space clamps the child constraint
    let theme = theme_of("container { padding: 60; }");
    let mut store = ComponentStore::new();
    store.register_entity();
    store.register_entity();
    store.insert(0, container_selector()).unwrap();
    let children: Vec<u32> = vec![1];
    let constraint = Constraint {
        min_width: 0,
        min_height: 0,
        max_width: 50,
        max_height: 50,
        width: 0,
        height: 0,
    };
    let p = PaddingLayoutObject;
    let r = p.layout(0, &mut store, &constraint, &children, None, &theme);
    match r {
        LayoutResult::RequestChild(_, cc) => {
            assert_eq!(cc.max_width, 0);
            assert_eq!(cc.max_height, 0);
            assert_eq!(cc.min_width, 0);
        }
        _ => panic!("expected a child request"),
    }
}

#[test]
fn childless_entity_fills_max_bounds() {
    let theme = theme_of("");
    let mut store = ComponentStore::new();
    store.register_entity();
    let children: Vec<u32> = Vec::new();
    let constraint = Constraint {
        min_width: 0,
        min_height: 0,
        max_width: 77,
        max_height: 33,
        width: 0,
        height: 0,
    };
    let p = PaddingLayoutObject;
    let r = p.layout(0, &mut store, &constraint, &children, None, &theme);
    match r {
        LayoutResult::Size(sz) => assert_eq!(sz, (77, 33)),
        _ => panic!("expected a size"),
    }
}

#[test]
fn themed_fixed_width_is_reported_exactly() {
    // even when the fixed width exceeds the incoming maximum, the themed
    // extent pins both bounds and is reported exactly
    let theme = theme_of("container { width: 40; height: 10; }");
    let mut store = ComponentStore::new();
    let mut tree = Tree::new();
    tree.register_node();
    store.register_entity();
    store.insert(0, container_selector()).unwrap();
    store
        .insert(0, Component::Bounds(Bounds { x: 0, y: 0, width: 0, height: 0 }))
        .unwrap();
    let layouts = vec![LayoutStrategy::Padding(PaddingLayoutObject)];
    let c = Constraint {
        min_width: 0,
        min_height: 0,
        max_width: 20,
        max_height: 100,
        width: 0,
        height: 0,
    };
    let size = layout_rec(&mut store, &tree, &layouts, &theme, &c, 0, 8);
    assert_eq!(size, (40, 10));
    match store.borrow(0, CompTag::Bounds).unwrap() {
        Component::Bounds(b) => {
            assert_eq!(b.width, 40);
            assert_eq!(b.height, 10);
        }
        _ => panic!("expected bounds"),
    }
}

#[test]
fn default_layout_hands_constraint_through() {
    let d = DefaultLayoutObject;
    let c = Constraint {
        min_width: 1,
        min_height: 1,
        max_width: 10,
        max_height: 10,
        width: 0,
        height: 0,
    };
    let none: Vec<u32> = Vec::new();
    match d.layout(&c, &none, None) {
        LayoutResult::Size(sz) => assert_eq!(sz, (10, 10)),
        _ => panic!("expected a size"),
    }
    let kids: Vec<u32> = vec![3];
    match d.layout(&c, &kids, None) {
        LayoutResult::RequestChild(e, cc) => {
            assert_eq!(e, 3);
            assert_eq!(cc, c);
        }
        _ => panic!("expected a child request"),
    }
    match d.layout(&c, &kids, Some((50, 2))) {
        LayoutResult::Size(sz) => assert_eq!(sz, (10, 2)),
        _ => panic!("expected a size"),
    }
}

#[test]
fn layout_system_skips_clean_worlds() {
    let theme = theme_of("");
    let mut store = ComponentStore::new();
    let tree = Tree::new();
    let layouts: Vec<LayoutStrategy> = Vec::new();
    let ls = LayoutSystem;
    ls.run(&mut store, &tree, &layouts, &theme, (100, 100), false);
    assert_eq!(store.len(), 0);
}

#[test]
fn layout_recursion_through_tree() {
    // a padded container around a greedy child under the window size
    let theme = theme_of("container { padding: 5; }");
    let mut store = ComponentStore::new();
    let mut tree = Tree::new();
    let e0 = tree.register_node();
    let e1 = tree.register_node();
    tree.append_child(e0, e1).unwrap();
    store.register_entity();
    store.register_entity();
    store.insert(e0, container_selector()).unwrap();
    store
        .insert(e0, Component::Bounds(Bounds { x: 0, y: 0, width: 0, height: 0 }))
        .unwrap();
    store
        .insert(e1, Component::Bounds(Bounds { x: 0, y: 0, width: 0, height: 0 }))
        .unwrap();
    let layouts = vec![
        LayoutStrategy::Padding(PaddingLayoutObject),
        LayoutStrategy::Padding(PaddingLayoutObject),
    ];
    let ls = LayoutSystem;
    ls.run(&mut store, &tree, &layouts, &theme, (100, 60), true);
    // the child greedily fills the inset-narrowed bounds: 90 by 50;
    // the parent reports it plus the inset back, clamped into the window
    match store.borrow(e1, CompTag::Bounds).unwrap() {
        Component::Bounds(b) => {
            assert_eq!(b.width, 90);
            assert_eq!(b.height, 50);
            assert_eq!(b.x, 5);
            assert_eq!(b.y, 5);
        }
        _ => panic!("expected bounds"),
    }
    match store.borrow(e0, CompTag::Bounds).unwrap() {
        Component::Bounds(b) => {
            assert_eq!(b.width, 100);
            assert_eq!(b.height, 60);
        }
        _ => panic!("expected bounds"),
    }
}

#[test]
fn run_reports_themed_size_into_root_bounds() {
    // the pass itself lands the themed fixed extents in the root's bounds,
    // overriding the window maximum
    let theme = theme_of("container { width: 40; height: 10; }");
    let mut store = ComponentStore::new();
    let mut tree = Tree::new();
    tree.register_node();
    store.register_entity();
    store.insert(0, container_selector()).unwrap();
    store
        .insert(0, Component::Bounds(Bounds { x: 0, y: 0, width: 0, height: 0 }))
        .unwrap();
    let layouts = vec![LayoutStrategy::Padding(PaddingLayoutObject)];
    let ls = LayoutSystem;
    ls.run(&mut store, &tree, &layouts, &theme, (20, 100), true);
    match store.borrow(0, CompTag::Bounds).unwrap() {
        Component::Bounds(b) => assert_eq!((b.width, b.height), (40, 10)),
        _ => panic!("expected bounds"),
    }
}
