use orbtk::render::{
    clip_rectangle, render_text_run, CharCall, Instruction, Pos, Rectangle, RenderCommand,
    RenderSystem, Shape2D, ShapeKind,
};
use orbtk::store::{CompTag, Component, ComponentStore};
use orbtk::structs::{Bounds, Point};
use orbtk::tree::Tree;
use orbtk::widgets::ClearRenderObject;

#[test]
fn global_position_accumulates_three_levels() {
    // local origins (10,10), (5,5), (0,0): the innermost entity's computed
    // global position is (15,15)
    let mut tree = Tree::new();
    let e0 = tree.register_node();
    let e1 = tree.register_node();
    let e2 = tree.register_node();
    tree.append_child(e0, e1).unwrap();
    tree.append_child(e1, e2).unwrap();
    let mut store = ComponentStore::new();
    for _ in 0..3 {
        store.register_entity();
    }
    store
        .insert(e0, Component::Bounds(Bounds { x: 10, y: 10, width: 100, height: 100 }))
        .unwrap();
    store
        .insert(e1, Component::Bounds(Bounds { x: 5, y: 5, width: 50, height: 50 }))
        .unwrap();
    store
        .insert(e2, Component::Bounds(Bounds { x: 0, y: 0, width: 10, height: 10 }))
        .unwrap();
    for e in [e0, e1, e2] {
        store.insert(e, Component::Position(Point { x: 0, y: 0 })).unwrap();
    }
    let shapes = vec![Some(ShapeKind::Rectangle); 3];
    let rs = RenderSystem;
    let cmds = rs.run(&mut store, &tree, &shapes, true, false);
    assert_eq!(cmds[0], RenderCommand::Clear);
    // the innermost paint call carries its parent's accumulated origin
    match cmds[3] {
        RenderCommand::Paint(p) => {
            assert_eq!(p.entity, e2);
            assert_eq!(p.global_position, Pos { x: 15, y: 15 });
        }
        _ => panic!("expected a paint call"),
    }
    // and the innermost entity's own stored global position is (15,15)
    match store.borrow(e2, CompTag::Position).unwrap() {
        Component::Position(p) => assert_eq!((p.x, p.y), (15, 15)),
        _ => panic!("expected a position"),
    }
}

#[test]
fn clean_world_paints_nothing() {
    let mut store = ComponentStore::new();
    let tree = Tree::new();
    let shapes: Vec<Option<ShapeKind>> = Vec::new();
    let rs = RenderSystem;
    let cmds = rs.run(&mut store, &tree, &shapes, false, false);
    assert!(cmds.is_empty());
}

#[test]
fn debug_overlay_is_additive() {
    let mut tree = Tree::new();
    tree.register_node();
    let mut store = ComponentStore::new();
    store.register_entity();
    let shapes = vec![Some(ShapeKind::Rectangle)];
    let rs = RenderSystem;
    let plain = rs.run(&mut store, &tree, &shapes, true, false);
    let overlaid = rs.run(&mut store, &tree, &shapes, true, true);
    // the overlay adds a border call per entity and changes nothing else
    assert_eq!(plain.len(), 2);
    assert_eq!(overlaid.len(), 3);
    assert!(matches!(overlaid[1], RenderCommand::DebugBorder(_)));
}

#[test]
fn scroll_offset_inherited_from_nearest_ancestor() {
    let mut tree = Tree::new();
    let e0 = tree.register_node();
    let e1 = tree.register_node();
    let e2 = tree.register_node();
    tree.append_child(e0, e1).unwrap();
    tree.append_child(e1, e2).unwrap();
    let mut store = ComponentStore::new();
    for _ in 0..3 {
        store.register_entity();
    }
    store.insert(e0, Component::Offset(Point { x: -7, y: 0 })).unwrap();
    let shapes = vec![None, None, Some(ShapeKind::Rectangle)];
    let rs = RenderSystem;
    let cmds = rs.run(&mut store, &tree, &shapes, true, false);
    match cmds[1] {
        RenderCommand::Paint(p) => {
            assert_eq!(p.entity, e2);
            // e2's parent e1 carries no offset; the nearest ancestor with
            // one is e0
            assert_eq!(p.offset, Pos { x: -7, y: 0 });
        }
        _ => panic!("expected a paint call"),
    }
}

#[test]
fn text_run_lays_out_cells() {
    let chars: Vec<char> = "ab\ncd".chars().collect();
    let bounds = Bounds { x: 0, y: 0, width: 100, height: 100 };
    let parent = Bounds { x: 0, y: 0, width: 100, height: 100 };
    let calls = render_text_run(&chars, &bounds, &parent, Pos { x: 0, y: 0 }, Pos { x: 3, y: 4 });
    let expect = vec![
        CharCall { x: 3, y: 4, c: 'a' },
        CharCall { x: 11, y: 4, c: 'b' },
        CharCall { x: 3, y: 20, c: 'c' },
        CharCall { x: 11, y: 20, c: 'd' },
    ];
    assert_eq!(calls, expect);
}

#[test]
fn text_run_clips_against_parent() {
    let chars: Vec<char> = "abcd".chars().collect();
    let bounds = Bounds { x: 0, y: 0, width: 100, height: 100 };
    // a parent 17 cells wide lets two cells through
    let parent = Bounds { x: 0, y: 0, width: 17, height: 100 };
    let calls = render_text_run(&chars, &bounds, &parent, Pos { x: 0, y: 0 }, Pos { x: 0, y: 0 });
    assert_eq!(calls.len(), 2);
}

#[test]
fn clipped_rectangle_stays_in_parent() {
    let b = Bounds { x: -5, y: 3, width: 30, height: 30 };
    let pb = Bounds { x: 0, y: 0, width: 20, height: 40 };
    let r = clip_rectangle(&b, &pb, Pos { x: 0, y: 0 }, Pos { x: 0, y: 0 });
    assert_eq!(r.x, 0);
    assert_eq!(r.y, 3);
    assert_eq!(r.width, 20);
    assert_eq!(r.height, 30);
}

#[test]
fn rectangle_shape_instructions() {
    let shape = Rectangle::new();
    assert_eq!(shape.instructions(), &vec![Instruction::FillRectangle]);
    assert_eq!(ClearRenderObject.render(), RenderCommand::Clear);
}
