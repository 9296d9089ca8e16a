use orbtk::layout::LayoutStrategy;
use orbtk::render::{RenderCommand, ShapeKind};
use orbtk::selector::Selector;
use orbtk::store::{CompTag, Component, TextSelection, Visibility};
use orbtk::structs::Bounds;
use orbtk::template::{ParentType, Template, Widget};
use orbtk::theme::Theme;
use orbtk::tree::Entity;
use orbtk::widgets::{
    scroll_bar_geometry, Console, Container, FontIconBlock, MasterDetail, MasterDetailAction,
    MasterDetailState, ScrollIndicator, TextBlock, TextBlockState, TextBox, TextBoxState,
};
use orbtk::world::{build_tree, Event, Key, Window, WindowBuilder, World};

fn window_with(root: Template) -> Window {
    WindowBuilder::new()
        .with_bounds(Bounds { x: 0, y: 0, width: 200, height: 100 })
        .with_theme(Theme::new())
        .with_root(root)
        .build()
}

#[test]
fn builder_creates_window_singleton_first() {
    let w = window_with(Container::create());
    // entity 0 is the window root carrying the global singleton
    assert!(matches!(
        w.world.store.borrow(0, CompTag::Global),
        Ok(Component::Global(_))
    ));
    assert!(matches!(
        w.world.store.borrow(0, CompTag::Selector),
        Ok(Component::Selector(_))
    ));
    // the template root hangs under the window
    assert_eq!(w.world.tree.pre_order(), vec![0, 1]);
}

#[test]
fn same_template_builds_same_structure() {
    // building the same template twice: entity ids and structure agree in
    // pre-order
    let build = || {
        let root = Container::create()
            .with_child(TextBlock::create())
            .with_child(FontIconBlock::create());
        window_with(root)
    };
    let w1 = build();
    let w2 = build();
    assert_eq!(w1.world.tree.pre_order(), w2.world.tree.pre_order());
    assert_eq!(w1.world.tree.pre_order(), vec![0, 1, 2, 3]);
    assert_eq!(w1.world.tree.parent, w2.world.tree.parent);
    assert_eq!(w1.world.tree.children, w2.world.tree.children);
}

#[test]
fn expansion_attaches_properties_depth_first() {
    let root = Container::create().with_child(TextBlock::create());
    let mut world = World::new();
    // the builder path without a window singleton
    build_tree(&mut world, root);
    assert_eq!(world.len(), 2);
    assert!(matches!(
        world.store.borrow(0, CompTag::Selector),
        Ok(Component::Selector(_))
    ));
    assert!(matches!(
        world.store.borrow(1, CompTag::Text),
        Ok(Component::Text(_))
    ));
    assert_eq!(world.layouts[0], LayoutStrategy::Padding(orbtk::layout::PaddingLayoutObject));
    assert_eq!(world.shapes[1], Some(ShapeKind::Text));
}

#[test]
fn container_template_shape() {
    let t = Container::create();
    assert_eq!(t.parent_type, ParentType::Single);
    assert_eq!(t.shape, Some(ShapeKind::Rectangle));
    assert_eq!(t.debug_name, "Container");
    let f = FontIconBlock::create();
    assert_eq!(f.debug_name, "FontIconBlock");
    let s = ScrollIndicator::create();
    assert_eq!(s.children.len(), 2);
}

#[test]
fn text_box_editing_backspace_and_insert() {
    let mut world = World::new();
    build_tree(&mut world, TextBox::create());
    let e: Entity = 0;
    world.store.set_component(e, Component::Text(String::from("hello"))).unwrap();
    world
        .store
        .set_component(e, Component::Selection(TextSelection { start_index: 5, length: 0 }))
        .unwrap();
    world.store.set_component(e, Component::Focused(true)).unwrap();
    let mut state = TextBoxState::default();
    state.handle_key_event(&mut world, e, &Key::Backspace);
    match world.store.borrow(e, CompTag::Text).unwrap() {
        Component::Text(t) => assert_eq!(t, "hell"),
        _ => panic!("expected text"),
    }
    state.handle_key_event(&mut world, e, &Key::Text(String::from("o!")));
    match world.store.borrow(e, CompTag::Text).unwrap() {
        Component::Text(t) => assert_eq!(t, "hello!"),
        _ => panic!("expected text"),
    }
    match world.store.borrow(e, CompTag::Selection).unwrap() {
        Component::Selection(s) => assert_eq!(s.start_index, 6),
        _ => panic!("expected a selection"),
    }
    state.handle_key_event(&mut world, e, &Key::Left);
    state.handle_key_event(&mut world, e, &Key::Delete);
    match world.store.borrow(e, CompTag::Text).unwrap() {
        Component::Text(t) => assert_eq!(t, "hello"),
        _ => panic!("expected text"),
    }
}

#[test]
fn unfocused_text_box_ignores_keys() {
    let mut world = World::new();
    build_tree(&mut world, TextBox::create());
    let e: Entity = 0;
    world.store.set_component(e, Component::Text(String::from("hi"))).unwrap();
    let mut state = TextBoxState::default();
    state.handle_key_event(&mut world, e, &Key::Backspace);
    match world.store.borrow(e, CompTag::Text).unwrap() {
        Component::Text(t) => assert_eq!(t, "hi"),
        _ => panic!("expected text"),
    }
}

#[test]
fn request_focus_moves_the_flag() {
    let root = Container::create()
        .with_child(TextBox::create())
        .with_child(TextBox::create());
    let mut w = window_with(root);
    let first: Entity = 2;
    let second: Entity = 3;
    let state = TextBoxState::default();
    state.request_focus(&mut w.world, first);
    assert!(matches!(
        w.world.store.borrow(first, CompTag::Focused),
        Ok(Component::Focused(true))
    ));
    state.request_focus(&mut w.world, second);
    assert!(matches!(
        w.world.store.borrow(first, CompTag::Focused),
        Ok(Component::Focused(false))
    ));
    assert!(matches!(
        w.world.store.borrow(second, CompTag::Focused),
        Ok(Component::Focused(true))
    ));
}

#[test]
fn localization_translates_text() {
    let mut world = World::new();
    build_tree(&mut world, TextBlock::create());
    let e: Entity = 0;
    world.store.set_component(e, Component::Text(String::from("hello"))).unwrap();
    world.localization.push((String::from("hello"), String::from("hallo")));
    let state = TextBlockState;
    state.localize(&mut world, e);
    match world.store.borrow(e, CompTag::LocalizedText).unwrap() {
        Component::LocalizedText(t) => assert_eq!(t, "hallo"),
        _ => panic!("expected the localized text"),
    }
    // a text without an entry stays itself
    world.store.set_component(e, Component::Text(String::from("bye"))).unwrap();
    state.localize(&mut world, e);
    match world.store.borrow(e, CompTag::LocalizedText).unwrap() {
        Component::LocalizedText(t) => assert_eq!(t, "bye"),
        _ => panic!("expected the localized text"),
    }
}

#[test]
fn master_detail_navigation() {
    let master_t = TextBlock::create();
    let detail_t = TextBlock::create();
    let mut world = World::new();
    build_tree(&mut world, master_t);
    build_tree(&mut world, detail_t);
    let master: Entity = 0;
    let detail: Entity = 1;
    let md = MasterDetail::new().master_detail(master, detail);
    let grid_template = md.template();
    build_tree(&mut world, grid_template);
    let widget: Entity = 2;
    let grid: Entity = 3;
    let mut state = MasterDetailState {
        content_grid: grid,
        master: Some(master),
        detail: Some(detail),
        expanded: false,
    };
    state.init_master_detail(&mut world);
    assert!(matches!(
        world.store.borrow(detail, CompTag::Visibility),
        Ok(Component::Visibility(Visibility::Collapsed))
    ));
    state.expand(&mut world, widget);
    assert!(state.expanded);
    assert!(matches!(
        world.store.borrow(detail, CompTag::Visibility),
        Ok(Component::Visibility(Visibility::Visible))
    ));
    assert!(matches!(
        world.store.borrow(detail, CompTag::Column),
        Ok(Component::Column(1))
    ));
    state.collapse(&mut world);
    assert!(!state.expanded);
    assert!(matches!(
        world.store.borrow(detail, CompTag::Visibility),
        Ok(Component::Visibility(Visibility::Collapsed))
    ));
    state.int_show_detail(&mut world);
    assert!(matches!(
        world.store.borrow(master, CompTag::Visibility),
        Ok(Component::Visibility(Visibility::Collapsed))
    ));
    state.int_show_master(&mut world);
    assert!(matches!(
        world.store.borrow(master, CompTag::Visibility),
        Ok(Component::Visibility(Visibility::Visible))
    ));
}

#[test]
fn show_master_queues_a_message() {
    let mut world = World::new();
    MasterDetail::show_master(&mut world, 5);
    MasterDetail::show_detail(&mut world, 5);
    assert_eq!(world.messages.len(), 2);
    assert_eq!(world.messages[0], (5, MasterDetailAction::ShowMaster));
    assert_eq!(world.messages[1], (5, MasterDetailAction::ShowDetail));
}

#[test]
fn scroll_bar_geometry_ratio() {
    // a 100-tall viewport over 200-tall content: the bar is half the
    // viewport, scrolled 50 maps to minus 25
    assert_eq!(scroll_bar_geometry(100, 200, 0, 8, 50), Some((50, -25)));
    // content that fits needs no bar
    assert_eq!(scroll_bar_geometry(100, 80, 0, 8, 0), None);
    // the minimum length wins over a tiny ratio
    assert_eq!(scroll_bar_geometry(10, 1000, 0, 8, 0), Some((8, 0)));
}

#[test]
fn quit_event_stops_the_window() {
    let mut w = window_with(Container::create());
    let cmds = w.run_tick(&vec![Event::Quit], (200, 100));
    assert!(!w.world.running);
    let cmds2 = w.run_tick(&vec![], (200, 100));
    assert!(cmds2.is_empty());
    let _ = cmds;
}

#[test]
fn tick_renders_then_goes_idle() {
    let mut w = window_with(Container::create());
    let cmds = w.run_tick(&vec![], (200, 100));
    assert!(cmds.len() >= 1);
    assert_eq!(cmds[0], RenderCommand::Clear);
    // a clean world skips the expensive phases on the next tick
    let cmds2 = w.run_tick(&vec![], (200, 100));
    assert!(cmds2.is_empty());
    // an input event marks it dirty again
    let cmds3 = w.run_tick(
        &vec![Event::Mouse { x: 1, y: 1, pressed: true }],
        (200, 100),
    );
    assert!(cmds3.len() >= 1);
}

#[test]
fn console_hooks_are_quiet() {
    let c = Console;
    c.time("frame");
    c.time_end("frame");
}

#[test]
fn selector_builders() {
    let s = Selector::new()
        .with(String::from("button"))
        .with_id(String::from("ok"))
        .with_class(String::from("warm"));
    assert_eq!(s.element.as_deref(), Some("button"));
    assert_eq!(s.id.as_deref(), Some("ok"));
    let rule = Selector::new().with(String::from("button"));
    assert!(rule.matches(&s));
    assert!(!s.matches(&rule));
}

#[test]
fn mouse_press_focuses_the_hit_text_box() {
    let mut w = window_with(TextBox::create());
    let tb: Entity = 1;
    // a first tick lays out and stores the global positions
    let _ = w.run_tick(&vec![], (200, 100));
    // a press inside the laid-out box moves the focus to it
    let _ = w.run_tick(&vec![Event::Mouse { x: 5, y: 5, pressed: true }], (200, 100));
    assert!(matches!(
        w.world.store.borrow(tb, CompTag::Focused),
        Ok(Component::Focused(true))
    ));
    match w.world.store.borrow(0, CompTag::Global).unwrap() {
        Component::Global(g) => assert_eq!(g.focused_widget, Some(tb)),
        _ => panic!("expected the global singleton"),
    }
}

#[test]
fn padding_thickness_accessor() {
    let p = orbtk::structs::Padding { left: 1, top: 2, right: 3, bottom: 4 };
    assert_eq!(p.thickness(), p);
    let mut q = orbtk::structs::Padding::default();
    q.set_thickness(p);
    assert_eq!(q, p);
}
