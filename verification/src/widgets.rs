//! The widget catalog shipped with the core: containers, text widgets, the
//! responsive master/detail navigator and the scroll indicator, with their
//! interactive state objects.

use vstd::prelude::*;
use crate::layout::{DefaultLayoutObject, LayoutStrategy, PaddingLayoutObject};
use crate::render::{RenderCommand, ShapeKind};
use crate::store::{CompTag, Component, Global, TextSelection, Visibility, tag_of};
use crate::world::{Key, World};
use crate::template::{ParentType, Template, Widget};
use crate::tree::Entity;

verus! {

/// Triggers navigation on a master/detail widget.
#[derive(Clone, Copy, PartialEq, Eq, Structural, Debug)]
pub enum MasterDetailAction {
    /// Shows the master. If the master is shown nothing will happen.
    ShowMaster,
    /// Shows the detail. If the detail is shown nothing will happen.
    ShowDetail,
}

/// Handles requests and layout changes of the master/detail widget.
#[derive(Clone, Copy, PartialEq, Eq, Structural, Debug)]
pub struct MasterDetailState {
    pub content_grid: Entity,
    pub master: Option<Entity>,
    pub detail: Option<Entity>,
    pub expanded: bool,
}

impl Default for MasterDetailState {
    fn default() -> (r: MasterDetailState)
        ensures
            r.content_grid == 0,
            r.master is None,
            r.detail is None,
            !r.expanded,
    {
        MasterDetailState { content_grid: 0, master: None, detail: None, expanded: false }
    }
}

/// Handles the localization of a text block's text.
#[derive(Clone, Copy, PartialEq, Eq, Structural, Debug)]
pub struct TextBlockState;

/// Handles the text processing of the text box widget.
#[derive(Clone, Copy, PartialEq, Eq, Structural, Debug)]
pub struct TextBoxState {
    pub cursor_x: i32,
}

impl Default for TextBoxState {
    fn default() -> (r: TextBoxState)
        ensures
            r.cursor_x == 0,
    {
        TextBoxState { cursor_x: 0 }
    }
}

/// Handles the scroll indicator widget.
#[derive(Clone, Copy, PartialEq, Eq, Structural, Debug)]
pub struct ScrollIndicatorState;

/// The closed set of interactive state objects the catalog supplies.
#[derive(Clone, Copy, PartialEq, Eq, Structural, Debug)]
pub enum StateKind {
    MasterDetail(MasterDetailState),
    TextBlock(TextBlockState),
    TextBox(TextBoxState),
    ScrollIndicator(ScrollIndicatorState),
}

/// The console of a platform shell; the timing hooks are quiet here, a
/// platform adapter may observe them.
#[derive(Clone, Copy, PartialEq, Eq, Structural, Debug)]
pub struct Console;

impl Console {
    /// Opens a named timing span; a quiet hook.
    pub fn time(&self, _name: &str) {
    }

    /// Closes a named timing span; a quiet hook.
    pub fn time_end(&self, _name: &str) {
    }
}

/// The render object that clears the window background.
#[derive(Clone, Copy, PartialEq, Eq, Structural, Debug)]
pub struct ClearRenderObject;

impl ClearRenderObject {
    /// The one command this render object emits.
    pub fn render(&self) -> (r: RenderCommand)
        ensures
            r == RenderCommand::Clear,
    {
        RenderCommand::Clear
    }
}

/// A layout that surrounds its single child with a themed padding and draws
/// a box around it.
pub struct Container;

impl Widget for Container {
    /// A container template: the `container` element selector, the padding
    /// layout and a rectangle to paint.
    fn create() -> (r: Template)
        ensures
            r.parent_type == ParentType::Single,
            r.layout == LayoutStrategy::Padding(PaddingLayoutObject),
            r.shape == Some(ShapeKind::Rectangle),
            r.properties@.len() == 3,
            r.children@.len() == 0,
            r.debug_name@ == "Container"@,
    {
        Template::default().as_parent_type(ParentType::Single).with_property(
            Component::Selector(
                crate::selector::Selector::new().with(
                    <String as vstd::string::StringExecFns>::from_str("container"),
                ),
            ),
        ).with_property(
            Component::Bounds(crate::structs::Bounds { x: 0, y: 0, width: 0, height: 0 }),
        ).with_property(Component::Position(crate::structs::Point { x: 0, y: 0 })).with_render_object(ShapeKind::Rectangle).with_layout_object(
            LayoutStrategy::Padding(PaddingLayoutObject),
        ).with_debug_name("Container")
    }
}

/// A widget drawing one font icon; not interactive.
pub struct FontIconBlock;

impl Widget for FontIconBlock {
    /// A font icon template: the `fonticon` element selector and the
    /// identity layout.
    fn create() -> (r: Template)
        ensures
            r.layout == LayoutStrategy::Default(DefaultLayoutObject),
            r.properties@.len() == 3,
            r.children@.len() == 0,
            r.debug_name@ == "FontIconBlock"@,
    {
        Template::default().with_property(
            Component::Selector(
                crate::selector::Selector::new().with(
                    <String as vstd::string::StringExecFns>::from_str("fonticon"),
                ),
            ),
        ).with_property(
            Component::Bounds(crate::structs::Bounds { x: 0, y: 0, width: 0, height: 0 }),
        ).with_property(Component::Position(crate::structs::Point { x: 0, y: 0 })).with_debug_name("FontIconBlock")
    }
}

/// A widget drawing text; not interactive.
pub struct TextBlock;

impl Widget for TextBlock {
    /// A text block template: the `text_block` element selector, a text
    /// shape, the localization state and an empty localizable text.
    fn create() -> (r: Template)
        ensures
            r.shape == Some(ShapeKind::Text),
            r.state == Some(StateKind::TextBlock(TextBlockState)),
            r.debug_name@ == "TextBlock"@,
    {
        Template::default().with_property(
            Component::Selector(
                crate::selector::Selector::new().with(
                    <String as vstd::string::StringExecFns>::from_str("text_block"),
                ),
            ),
        ).with_property(
            Component::Bounds(crate::structs::Bounds { x: 0, y: 0, width: 0, height: 0 }),
        ).with_property(Component::Position(crate::structs::Point { x: 0, y: 0 })).with_property(Component::Text(String::new())).with_property(
            Component::LocalizedText(String::new()),
        ).with_property(Component::Localizable(true)).with_property(
            Component::LineWrap(true),
        ).with_render_object(ShapeKind::Text).with_state(
            StateKind::TextBlock(TextBlockState),
        ).with_debug_name("TextBlock")
    }
}

/// A single-line text input widget.
pub struct TextBox;

impl Widget for TextBox {
    /// A text box template: the `text-box` element selector, an empty text,
    /// a collapsed selection, focus and enablement flags, the key and mouse
    /// handlers and the editing state.
    fn create() -> (r: Template)
        ensures
            r.state == Some(StateKind::TextBox(TextBoxState { cursor_x: 0i32 })),
            r.debug_name@ == "TextBox"@,
    {
        Template::default().with_property(
            Component::Selector(
                crate::selector::Selector::new().with(
                    <String as vstd::string::StringExecFns>::from_str("text-box"),
                ),
            ),
        ).with_property(
            Component::Bounds(crate::structs::Bounds { x: 0, y: 0, width: 0, height: 0 }),
        ).with_property(Component::Position(crate::structs::Point { x: 0, y: 0 })).with_property(Component::Text(String::new())).with_property(
            Component::Selection(TextSelection { start_index: 0, length: 0 }),
        ).with_property(Component::Focused(false)).with_property(
            Component::Enabled(true),
        ).with_property(
            Component::ScrollOffset(crate::structs::Point { x: 0, y: 0 }),
        ).with_event_handler(crate::template::HandlerKind::KeyDown).with_event_handler(
            crate::template::HandlerKind::MouseDown,
        ).with_render_object(ShapeKind::Rectangle).with_state(
            StateKind::TextBox(TextBoxState { cursor_x: 0 }),
        ).with_debug_name("TextBox")
    }
}

/// A responsive navigation widget with a master child and a detail child.
pub struct MasterDetail {
    pub state: MasterDetailState,
    pub responsive: bool,
    pub break_point: u32,
    pub master_width: u32,
}

impl MasterDetail {
    /// A fresh master/detail widget.
    pub fn new() -> (r: MasterDetail)
        ensures
            r.state.master is None,
            r.state.detail is None,
            !r.responsive,
            r.break_point == 0,
            r.master_width == 374,
    {
        MasterDetail {
            state: MasterDetailState { content_grid: 0, master: None, detail: None, expanded: false },
            responsive: false,
            break_point: 0,
            master_width: 374,
        }
    }

    /// Registers the master and the detail widget entities.
    pub fn master_detail(self, master: Entity, detail: Entity) -> (r: MasterDetail)
        ensures
            r.state.master == Some(master),
            r.state.detail == Some(detail),
            r.state.content_grid == self.state.content_grid,
            r.state.expanded == self.state.expanded,
            r.responsive == self.responsive,
            r.break_point == self.break_point,
            r.master_width == self.master_width,
    {
        let mut m = self;
        m.state.master = Some(master);
        m.state.detail = Some(detail);
        m
    }

    /// Whether the widget switches between the one and two column layout at
    /// the break point.
    pub fn responsive(self, responsive: bool) -> (r: MasterDetail)
        ensures
            r == (MasterDetail { responsive, ..self }),
    {
        MasterDetail { responsive, ..self }
    }

    /// The width at which the widget switches between layouts.
    pub fn break_point(self, break_point: u32) -> (r: MasterDetail)
        ensures
            r == (MasterDetail { break_point, ..self }),
    {
        MasterDetail { break_point, ..self }
    }

    /// The master column's width in the expanded state.
    pub fn master_width(self, master_width: u32) -> (r: MasterDetail)
        ensures
            r == (MasterDetail { master_width, ..self }),
    {
        MasterDetail { master_width, ..self }
    }

    /// The widget's template: a content grid child carrying the properties
    /// and the navigation state.
    pub fn template(self) -> (r: Template)
        ensures
            r.state == Some(
                StateKind::MasterDetail(
                    MasterDetailState {
                        content_grid: 0u32,
                        master: self.state.master,
                        detail: self.state.detail,
                        expanded: false,
                    },
                ),
            ),
            r.children@.len() == 1,
            r.debug_name@ == "MasterDetails"@,
    {
        let grid = Template::default().with_property(
            Component::Selector(
                crate::selector::Selector::new().with(
                    <String as vstd::string::StringExecFns>::from_str("grid"),
                ).with_id(<String as vstd::string::StringExecFns>::from_str("id_content_grid")),
            ),
        ).with_property(Component::Columns(Vec::new())).with_debug_name("ContentGrid");
        Template::default().with_property(
            Component::Responsive(self.responsive),
        ).with_property(Component::BreakPoint(self.break_point)).with_property(
            Component::MasterWidth(self.master_width),
        ).with_property(
            Component::NavigationVisibility(Visibility::Visible),
        ).with_state(
            StateKind::MasterDetail(
                MasterDetailState {
                    content_grid: 0,
                    master: self.state.master,
                    detail: self.state.detail,
                    expanded: false,
                },
            ),
        ).with_child(grid).with_debug_name("MasterDetails")
    }
}


/// The entity holds its own component of the tag, aliased by nobody it does
/// not share with.
pub open spec fn owns(store: crate::store::ComponentStore, e: Entity, tag: CompTag) -> bool {
    store.spec_owner(e as int, tag) == Some(e as int)
}

/// Writes a component through the (entity, tag) lookup — every alias of the
/// same source observes the new value — falling back to a fresh owned
/// component when nothing resolves at the entity yet.
pub fn put_component(world: &mut crate::world::World, e: Entity, c: Component)
    requires
        old(world).wf(),
    ensures
        final(world).wf(),
        final(world).spec_len() == old(world).spec_len(),
        final(world).running == old(world).running,
        final(world).tree == old(world).tree,
        final(world).layouts == old(world).layouts,
        final(world).shapes == old(world).shapes,
        final(world).handlers == old(world).handlers,
        final(world).states == old(world).states,
        final(world).messages == old(world).messages,
        final(world).pending_keys == old(world).pending_keys,
        final(world).localization == old(world).localization,
        final(world).update == old(world).update,
        final(world).running == old(world).running,
        final(world).debug_flag == old(world).debug_flag,
        (e as int) < old(world).spec_len() ==> final(world).store.resolved(e as int, tag_of(c))
            == Some(c),
        forall|e2: int, t2: CompTag|
            t2 != tag_of(c) ==> #[trigger] final(world).store.resolved(e2, t2) == old(
                world,
            ).store.resolved(e2, t2),
        forall|e2: int|
            (old(world).store.spec_owner(e2, tag_of(c)) != old(world).store.spec_owner(
                e as int,
                tag_of(c),
            ) && old(world).store.spec_owner(e2, tag_of(c)) != Some(e as int))
                ==> #[trigger] final(world).store.resolved(e2, tag_of(c)) == old(
                world,
            ).store.resolved(e2, tag_of(c)),
        forall|e2: int, t2: CompTag|
            (e2 != e as int || t2 != tag_of(c)) ==> #[trigger] final(world).store.spec_owner(
                e2,
                t2,
            ) == old(world).store.spec_owner(e2, t2),
        final(world).store.spec_owner(e as int, tag_of(c)) == old(world).store.spec_owner(
            e as int,
            tag_of(c),
        ) || final(world).store.spec_owner(e as int, tag_of(c)) == Some(e as int),
{
    let tag = c.tag();
    let exists = world.store.borrow(e, tag).is_ok();
    if exists {
        let res = world.store.set_component(e, c);
        proof {
            assert(res is Ok);
        }
    } else {
        let _res = world.store.insert(e, c);
    }
}


/// The first localization entry matching the text, else the text itself.
pub open spec fn spec_localize(loc: Seq<(String, String)>, t: Seq<char>) -> Seq<char>
    decreases loc.len(),
{
    if loc.len() == 0 {
        t
    } else if loc[0].0@ == t {
        loc[0].1@
    } else {
        spec_localize(loc.drop_first(), t)
    }
}

/// Translates a text through the world's localization entries.
fn localize_text(loc: &Vec<(String, String)>, t: &str) -> (r: String)
    ensures
        r@ == spec_localize(loc@, t@),
{
    let n = loc.len();
    let mut i: usize = 0;
    proof {
        assert(loc@.skip(0) =~= loc@);
    }
    while i < n
        invariant
            i <= n,
            n == loc@.len(),
            spec_localize(loc@, t@) == spec_localize(loc@.skip(i as int), t@),
        decreases n - i,
    {
        proof {
            assert(loc@.skip(i as int)[0] == loc@[i as int]);
            assert(loc@.skip(i as int).drop_first() =~= loc@.skip(i + 1int));
        }
        if crate::text::str_eq(loc[i].0.as_str(), t) {
            return loc[i].1.clone();
        }
        i = i + 1;
    }
    proof {
        assert(loc@.skip(n as int).len() == 0);
    }
    <String as vstd::string::StringExecFns>::from_str(t)
}

impl TextBlockState {
    /// Translates the entity's text into its localized text component; an
    /// entity that is not localizable, or without a text, keeps everything
    /// as it stands.
    pub fn localize(&self, world: &mut World, entity: Entity)
        requires
            old(world).wf(),
        ensures
            final(world).wf(),
            final(world).spec_len() == old(world).spec_len(),
            final(world).running == old(world).running,
            final(world).tree == old(world).tree,
            ({
                let st = old(world).store;
                let localizable = st.resolved(entity as int, CompTag::Localizable) == Some(
                    Component::Localizable(true),
                );
                &&& (!localizable ==> *final(world) == *old(world))
                &&& (match st.resolved(entity as int, CompTag::Text) {
                    Some(Component::Text(t)) => (localizable && (entity as int) < old(
                        world,
                    ).spec_len()) ==> (match final(world).store.resolved(
                        entity as int,
                        CompTag::LocalizedText,
                    ) {
                        Some(Component::LocalizedText(lt)) => lt@ == spec_localize(
                            old(world).localization@,
                            t@,
                        ),
                        _ => false,
                    }),
                    _ => localizable ==> *final(world) == *old(world),
                })
                &&& (forall|e2: int, t2: CompTag|
                    t2 != CompTag::LocalizedText ==> #[trigger] final(world).store.resolved(
                        e2,
                        t2,
                    ) == old(world).store.resolved(e2, t2))
            }),
    {
        let localizable = match world.store.borrow(entity, CompTag::Localizable) {
            Ok(Component::Localizable(b)) => *b,
            _ => false,
        };
        if !localizable {
            return ;
        }
        let text: String = match world.store.borrow(entity, CompTag::Text) {
            Ok(Component::Text(t)) => t.clone(),
            _ => {
                return ;
            },
        };
        let localized = localize_text(&world.localization, text.as_str());
        put_component(world, entity, Component::LocalizedText(localized));
    }
}

impl MasterDetailState {
    /// Wires the registered master and detail under the content grid: both
    /// in the first column, the detail collapsed.
    pub fn init_master_detail(&self, world: &mut World)
        requires
            old(world).wf(),
        ensures
            final(world).wf(),
            final(world).spec_len() == old(world).spec_len(),
            final(world).running == old(world).running,
            (match self.master {
                Some(m) => ((m as int) < old(world).spec_len() && (match self.detail {
                    Some(d) => owns(old(world).store, m, CompTag::Column) && owns(
                        old(world).store,
                        d,
                        CompTag::Column,
                    ) && m != d,
                    None => true,
                })) ==> final(world).store.resolved(m as int, CompTag::Column) == Some(
                    Component::Column(0u32),
                ),
                None => true,
            }),
            (match self.detail {
                Some(d) => (d as int) < old(world).spec_len() ==> {
                    &&& final(world).store.resolved(d as int, CompTag::Column) == Some(
                        Component::Column(0u32),
                    )
                    &&& final(world).store.resolved(d as int, CompTag::Visibility) == Some(
                        Component::Visibility(Visibility::Collapsed),
                    )
                },
                None => true,
            }),
            self.master is None && self.detail is None ==> *final(world) == *old(world),
    {
        if self.master.is_none() && self.detail.is_none() {
            return ;
        }
        let _res = world.tree.clear_children_of(self.content_grid);
        match self.master {
            Some(m) => {
                let _res = world.tree.append_child(self.content_grid, m);
                put_component(world, m, Component::Column(0));
            },
            None => {},
        }
        match self.detail {
            Some(d) => {
                let _res = world.tree.append_child(self.content_grid, d);
                put_component(world, d, Component::Column(0));
                put_component(world, d, Component::Visibility(Visibility::Collapsed));
            },
            None => {},
        }
    }

    /// Switches to the two-column layout: master and detail visible, the
    /// detail in the second column, the grid's columns the master width and
    /// a stretch share.
    pub fn expand(&mut self, world: &mut World, entity: Entity)
        requires
            old(world).wf(),
        ensures
            final(world).wf(),
            final(world).spec_len() == old(world).spec_len(),
            final(world).running == old(world).running,
            final(self).expanded,
            final(self).master == old(self).master,
            final(self).detail == old(self).detail,
            final(self).content_grid == old(self).content_grid,
            (match old(self).master {
                Some(m) => ((m as int) < old(world).spec_len() && (match old(self).detail {
                    Some(d) => owns(old(world).store, m, CompTag::Visibility) && owns(
                        old(world).store,
                        d,
                        CompTag::Visibility,
                    ) && m != d,
                    None => true,
                })) ==> final(world).store.resolved(m as int, CompTag::Visibility) == Some(
                    Component::Visibility(Visibility::Visible),
                ),
                None => true,
            }),
            (match old(self).detail {
                Some(d) => (d as int) < old(world).spec_len() ==> {
                    &&& final(world).store.resolved(d as int, CompTag::Visibility) == Some(
                        Component::Visibility(Visibility::Visible),
                    )
                    &&& final(world).store.resolved(d as int, CompTag::Column) == Some(
                        Component::Column(1u32),
                    )
                },
                None => true,
            }),
            // the grid's columns become the themed master width and a
            // stretch share
            ((old(self).content_grid as int) < old(world).spec_len() && (match old(self).detail {
                Some(d) => d != old(self).content_grid,
                None => true,
            })) ==> (match final(world).store.resolved(
                old(self).content_grid as int,
                CompTag::Columns,
            ) {
                Some(Component::Columns(cols)) => cols@.len() == 2 && cols@[0]
                    == crate::store::ColumnWidth::Px(
                    (match old(world).store.resolved(entity as int, CompTag::MasterWidth) {
                        Some(Component::MasterWidth(w)) => w,
                        _ => 374u32,
                    }),
                ) && cols@[1] == crate::store::ColumnWidth::Stretch,
                _ => false,
            }),
    {
        self.expanded = true;
        match self.master {
            Some(m) => {
                put_component(world, m, Component::Visibility(Visibility::Visible));
            },
            None => {},
        }
        let master_width = match world.store.borrow(entity, CompTag::MasterWidth) {
            Ok(Component::MasterWidth(w)) => *w,
            _ => 374,
        };
        let mut cols: Vec<crate::store::ColumnWidth> = Vec::new();
        cols.push(crate::store::ColumnWidth::Px(master_width));
        cols.push(crate::store::ColumnWidth::Stretch);
        put_component(world, self.content_grid, Component::Columns(cols));
        match self.detail {
            Some(d) => {
                put_component(world, d, Component::Column(1));
                put_component(world, d, Component::Visibility(Visibility::Visible));
            },
            None => {},
        }
    }

    /// Switches to the one-column layout: master visible, detail collapsed
    /// in the first column, the grid one stretch column.
    pub fn collapse(&mut self, world: &mut World)
        requires
            old(world).wf(),
        ensures
            final(world).wf(),
            final(world).spec_len() == old(world).spec_len(),
            final(world).running == old(world).running,
            !final(self).expanded,
            final(self).master == old(self).master,
            final(self).detail == old(self).detail,
            final(self).content_grid == old(self).content_grid,
            (match old(self).master {
                Some(m) => ((m as int) < old(world).spec_len() && (match old(self).detail {
                    Some(d) => owns(old(world).store, m, CompTag::Visibility) && owns(
                        old(world).store,
                        d,
                        CompTag::Visibility,
                    ) && m != d,
                    None => true,
                })) ==> final(world).store.resolved(m as int, CompTag::Visibility) == Some(
                    Component::Visibility(Visibility::Visible),
                ),
                None => true,
            }),
            (match old(self).detail {
                Some(d) => (d as int) < old(world).spec_len() ==> {
                    &&& final(world).store.resolved(d as int, CompTag::Visibility) == Some(
                        Component::Visibility(Visibility::Collapsed),
                    )
                    &&& final(world).store.resolved(d as int, CompTag::Column) == Some(
                        Component::Column(0u32),
                    )
                },
                None => true,
            }),
            // the grid's columns become one stretch share
            ((old(self).content_grid as int) < old(world).spec_len() && (match old(self).detail {
                Some(d) => d != old(self).content_grid,
                None => true,
            })) ==> (match final(world).store.resolved(
                old(self).content_grid as int,
                CompTag::Columns,
            ) {
                Some(Component::Columns(cols)) => cols@.len() == 1 && cols@[0]
                    == crate::store::ColumnWidth::Stretch,
                _ => false,
            }),
    {
        self.expanded = false;
        match self.master {
            Some(m) => {
                put_component(world, m, Component::Visibility(Visibility::Visible));
            },
            None => {},
        }
        let mut cols: Vec<crate::store::ColumnWidth> = Vec::new();
        cols.push(crate::store::ColumnWidth::Stretch);
        put_component(world, self.content_grid, Component::Columns(cols));
        match self.detail {
            Some(d) => {
                put_component(world, d, Component::Column(0));
                put_component(world, d, Component::Visibility(Visibility::Collapsed));
            },
            None => {},
        }
    }

    /// Shows the master: the master visible, the detail collapsed.
    pub fn int_show_master(&self, world: &mut World)
        requires
            old(world).wf(),
        ensures
            final(world).wf(),
            final(world).spec_len() == old(world).spec_len(),
            final(world).running == old(world).running,
            (match (self.master, self.detail) {
                (_, Some(d)) => (d as int) < old(world).spec_len()
                    ==> final(world).store.resolved(d as int, CompTag::Visibility)
                    == Some(Component::Visibility(Visibility::Collapsed)),
                _ => true,
            }),
            (match self.master {
                Some(m) => ((m as int) < old(world).spec_len() && (match self.detail {
                    Some(d) => owns(old(world).store, m, CompTag::Visibility) && owns(
                        old(world).store,
                        d,
                        CompTag::Visibility,
                    ) && m != d,
                    None => true,
                })) ==> final(world).store.resolved(m as int, CompTag::Visibility) == Some(
                    Component::Visibility(Visibility::Visible),
                ),
                None => true,
            }),
    {
        match self.master {
            Some(m) => {
                put_component(world, m, Component::Visibility(Visibility::Visible));
            },
            None => {},
        }
        match self.detail {
            Some(d) => {
                put_component(world, d, Component::Visibility(Visibility::Collapsed));
            },
            None => {},
        }
    }

    /// Shows the detail: the master collapsed, the detail visible.
    pub fn int_show_detail(&self, world: &mut World)
        requires
            old(world).wf(),
        ensures
            final(world).wf(),
            final(world).spec_len() == old(world).spec_len(),
            final(world).running == old(world).running,
            (match self.detail {
                Some(d) => (d as int) < old(world).spec_len()
                    ==> final(world).store.resolved(d as int, CompTag::Visibility)
                    == Some(Component::Visibility(Visibility::Visible)),
                None => true,
            }),
            (match self.master {
                Some(m) => ((m as int) < old(world).spec_len() && (match self.detail {
                    Some(d) => owns(old(world).store, m, CompTag::Visibility) && owns(
                        old(world).store,
                        d,
                        CompTag::Visibility,
                    ) && m != d,
                    None => true,
                })) ==> final(world).store.resolved(m as int, CompTag::Visibility) == Some(
                    Component::Visibility(Visibility::Collapsed),
                ),
                None => true,
            }),
    {
        match self.master {
            Some(m) => {
                put_component(world, m, Component::Visibility(Visibility::Collapsed));
            },
            None => {},
        }
        match self.detail {
            Some(d) => {
                put_component(world, d, Component::Visibility(Visibility::Visible));
            },
            None => {},
        }
    }

    /// Handles one navigation request: on the one-column layout, or when the
    /// widget is not responsive, the requested side is shown; on the
    /// expanded responsive layout both sides are visible already and the
    /// request changes nothing.
    pub fn messages(&mut self, world: &mut World, entity: Entity, action: MasterDetailAction)
        requires
            old(world).wf(),
        ensures
            final(world).wf(),
            final(world).spec_len() == old(world).spec_len(),
            final(world).running == old(world).running,
            *final(self) == *old(self),
            ({
                let responsive = old(world).store.resolved(entity as int, CompTag::Responsive)
                    == Some(Component::Responsive(true));
                let acting = !old(self).expanded || !responsive;
                &&& (!acting ==> *final(world) == *old(world))
                &&& ((acting && action == MasterDetailAction::ShowDetail) ==> (match old(self).detail {
                    Some(d) => (d as int) < old(world).spec_len()
                        ==> final(world).store.resolved(d as int, CompTag::Visibility) == Some(
                        Component::Visibility(Visibility::Visible),
                    ),
                    None => true,
                }))
                &&& ((acting && action == MasterDetailAction::ShowMaster) ==> (match old(self).detail {
                    Some(d) => (d as int) < old(world).spec_len()
                        ==> final(world).store.resolved(d as int, CompTag::Visibility) == Some(
                        Component::Visibility(Visibility::Collapsed),
                    ),
                    None => true,
                }))
            }),
    {
        let responsive = match world.store.borrow(entity, CompTag::Responsive) {
            Ok(Component::Responsive(b)) => *b,
            _ => false,
        };
        match action {
            MasterDetailAction::ShowMaster => {
                if !self.expanded || !responsive {
                    self.int_show_master(world);
                }
            },
            MasterDetailAction::ShowDetail => {
                if !self.expanded || !responsive {
                    self.int_show_detail(world);
                }
            },
        }
    }

    /// Switches between the one and two column layout when the grid's
    /// laid-out width crosses the break point, and sets the navigation
    /// visibility accordingly: collapsing turns the navigation on, expanding
    /// hides it.
    pub fn update_post_layout(&mut self, world: &mut World, entity: Entity)
        requires
            old(world).wf(),
        ensures
            final(world).wf(),
            final(world).spec_len() == old(world).spec_len(),
            final(world).running == old(world).running,
            ({
                let st = old(world).store;
                let responsive = st.resolved(entity as int, CompTag::Responsive) == Some(
                    Component::Responsive(true),
                );
                let width = (match st.resolved(old(self).content_grid as int, CompTag::Bounds) {
                    Some(Component::Bounds(b)) => b.width,
                    _ => 0u32,
                });
                let bp = (match st.resolved(entity as int, CompTag::BreakPoint) {
                    Some(Component::BreakPoint(b)) => b,
                    _ => 0u32,
                });
                &&& (!responsive ==> *final(world) == *old(world) && *final(self) == *old(self))
                &&& ((responsive && old(self).expanded && width <= bp) ==> !final(self).expanded
                    && ((entity as int) < old(world).spec_len() ==> final(world).store.resolved(
                    entity as int,
                    CompTag::NavigationVisibility,
                ) == Some(Component::NavigationVisibility(Visibility::Visible))))
                &&& ((responsive && !old(self).expanded && width > bp) ==> final(self).expanded
                    && ((entity as int) < old(world).spec_len() ==> final(world).store.resolved(
                    entity as int,
                    CompTag::NavigationVisibility,
                ) == Some(Component::NavigationVisibility(Visibility::Hidden))))
                &&& ((responsive && old(self).expanded == (width > bp)) ==> *final(world) == *old(
                    world,
                ) && *final(self) == *old(self))
            }),
    {
        let responsive = match world.store.borrow(entity, CompTag::Responsive) {
            Ok(Component::Responsive(b)) => *b,
            _ => false,
        };
        if !responsive {
            return ;
        }
        let width = match world.store.borrow(self.content_grid, CompTag::Bounds) {
            Ok(Component::Bounds(b)) => b.width,
            _ => 0,
        };
        let break_point = match world.store.borrow(entity, CompTag::BreakPoint) {
            Ok(Component::BreakPoint(b)) => *b,
            _ => 0,
        };
        if self.expanded && width <= break_point {
            self.collapse(world);
            put_component(
                world,
                entity,
                Component::NavigationVisibility(Visibility::Visible),
            );
        } else if !self.expanded && width > break_point {
            self.expand(world, entity);
            put_component(
                world,
                entity,
                Component::NavigationVisibility(Visibility::Hidden),
            );
        }
    }
}

impl MasterDetail {
    /// Queues a request to show the master widget.
    pub fn show_master(world: &mut World, entity: Entity)
        ensures
            final(world).messages@ == old(world).messages@.push(
                (entity, MasterDetailAction::ShowMaster),
            ),
            final(world).store == old(world).store,
            final(world).tree == old(world).tree,
    {
        world.messages.push((entity, MasterDetailAction::ShowMaster));
    }

    /// Queues a request to show the detail widget.
    pub fn show_detail(world: &mut World, entity: Entity)
        ensures
            final(world).messages@ == old(world).messages@.push(
                (entity, MasterDetailAction::ShowDetail),
            ),
            final(world).store == old(world).store,
            final(world).tree == old(world).tree,
    {
        world.messages.push((entity, MasterDetailAction::ShowDetail));
    }
}


/// Removes `m` characters starting at `lo`.
fn remove_span(v: &mut Vec<char>, lo: usize, m: usize)
    requires
        lo + m <= old(v)@.len(),
    ensures
        final(v)@ == old(v)@.subrange(0, lo as int) + old(v)@.subrange(
            lo + m,
            old(v)@.len() as int,
        ),
{
    let ghost orig = v@;
    let mut j: usize = 0;
    while j < m
        invariant
            j <= m,
            lo + m <= orig.len(),
            v@ =~= orig.subrange(0, lo as int) + orig.subrange(lo + j, orig.len() as int),
        decreases m - j,
    {
        let _c = v.remove(lo);
        proof {
            assert(v@ =~= orig.subrange(0, lo as int) + orig.subrange(
                lo + j + 1,
                orig.len() as int,
            ));
        }
        j = j + 1;
    }
    proof {
        assert(v@ =~= orig.subrange(0, lo as int) + orig.subrange(lo + m, orig.len() as int));
    }
}

/// Inserts the characters of `s` at `at`.
fn insert_span(v: &mut Vec<char>, at: usize, s: &Vec<char>)
    requires
        at <= old(v)@.len(),
        old(v)@.len() + s@.len() <= usize::MAX,
    ensures
        final(v)@ == old(v)@.subrange(0, at as int) + s@ + old(v)@.subrange(
            at as int,
            old(v)@.len() as int,
        ),
{
    let ghost orig = v@;
    let mut j: usize = 0;
    while j < s.len()
        invariant
            j <= s@.len(),
            at <= orig.len(),
            orig.len() + s@.len() <= usize::MAX,
            v@ =~= orig.subrange(0, at as int) + s@.subrange(0, j as int) + orig.subrange(
                at as int,
                orig.len() as int,
            ),
        decreases s@.len() - j,
    {
        v.insert(at + j, s[j]);
        proof {
            assert(v@ =~= orig.subrange(0, at as int) + s@.subrange(0, j + 1int) + orig.subrange(
                at as int,
                orig.len() as int,
            ));
        }
        j = j + 1;
    }
    proof {
        assert(s@.subrange(0, s@.len() as int) =~= s@);
    }
}

/// How many characters a key types.
pub open spec fn key_text_len(k: Key) -> nat {
    match k {
        Key::Text(s) => s@.len(),
        _ => 0,
    }
}

/// What one key does to a text and its selection: the arrows move the start
/// by one character, clamped into the text; backspace removes the selection
/// length plus one characters left of the start, clamped at the text start,
/// and moves the start left by as many; delete removes as many at the start,
/// clamped at the text end; typed text is inserted at the start, which moves
/// past it.
pub open spec fn spec_key_edit(t: Seq<char>, start: int, length: int, key: Key) -> (
    Seq<char>,
    int,
) {
    match key {
        Key::Left => (t, if start > 0 {
            start - 1
        } else {
            0
        }),
        Key::Right => (t, if start + 1 <= t.len() {
            start + 1
        } else {
            t.len() as int
        }),
        Key::Backspace => {
            if t.len() > 0 && start > 0 {
                let m = if length + 1 <= start {
                    length + 1
                } else {
                    start
                };
                (t.subrange(0, start - m) + t.subrange(start, t.len() as int), start - m)
            } else {
                (t, start)
            }
        },
        Key::Delete => {
            if start < t.len() {
                let m = if length + 1 <= t.len() - start {
                    length + 1
                } else {
                    t.len() - start
                };
                (t.subrange(0, start) + t.subrange(start + m, t.len() as int), start)
            } else {
                (t, start)
            }
        },
        Key::Text(s) => {
            if s@.len() == 0 {
                (t, start)
            } else {
                (t.subrange(0, start) + s@ + t.subrange(start, t.len() as int), start + s@.len())
            }
        },
    }
}

impl TextBoxState {
    /// Edits the entity's text by one key, when the entity is focused: the
    /// text and the selection start change exactly as the key dictates.
    pub fn handle_key_event(&mut self, world: &mut World, entity: Entity, key: &Key)
        requires
            old(world).wf(),
        ensures
            final(world).wf(),
            final(world).spec_len() == old(world).spec_len(),
            final(world).running == old(world).running,
            final(world).tree == old(world).tree,
            old(world).store.resolved(entity as int, CompTag::Focused) != Some(
                Component::Focused(true),
            ) ==> *final(world) == *old(world),
            forall|e2: int, t2: CompTag|
                (t2 != CompTag::Text && t2 != CompTag::Selection)
                    ==> #[trigger] final(world).store.resolved(e2, t2) == old(
                    world,
                ).store.resolved(e2, t2),
            ({
                let focused = old(world).store.resolved(entity as int, CompTag::Focused)
                    == Some(Component::Focused(true));
                let told = old(world).store.resolved(entity as int, CompTag::Text);
                let sold = old(world).store.resolved(entity as int, CompTag::Selection);
                (focused && (entity as int) < old(world).spec_len() && (told matches Some(
                    Component::Text(_),
                )) && (sold matches Some(Component::Selection(_)))) ==> {
                    let t = told->0->Text_0@;
                    let sel = sold->0->Selection_0;
                    (sel.start_index <= t.len() && t.len() + key_text_len(*key) <= usize::MAX)
                        ==> {
                        let edited = spec_key_edit(
                            t,
                            sel.start_index as int,
                            sel.length as int,
                            *key,
                        );
                        &&& (match final(world).store.resolved(entity as int, CompTag::Text) {
                            Some(Component::Text(nt)) => nt@ == edited.0,
                            _ => false,
                        })
                        &&& (match final(world).store.resolved(
                            entity as int,
                            CompTag::Selection,
                        ) {
                            Some(Component::Selection(ns)) => ns.start_index == edited.1
                                && ns.length == sel.length,
                            _ => false,
                        })
                    }
                }
            }),
    {
        let focused = match world.store.borrow(entity, CompTag::Focused) {
            Ok(Component::Focused(b)) => *b,
            _ => false,
        };
        if !focused {
            return ;
        }
        let text: String = match world.store.borrow(entity, CompTag::Text) {
            Ok(Component::Text(t)) => t.clone(),
            _ => {
                return ;
            },
        };
        let sel: TextSelection = match world.store.borrow(entity, CompTag::Selection) {
            Ok(Component::Selection(s)) => *s,
            _ => {
                return ;
            },
        };
        let mut tvec = crate::text::str_chars(text.as_str());
        let start = sel.start_index;
        if start > tvec.len() {
            return ;
        }
        let mut new_start = start;
        match key {
            Key::Left => {
                if start > 0 {
                    new_start = start - 1;
                }
            },
            Key::Right => {
                if start < tvec.len() {
                    new_start = start + 1;
                }
            },
            Key::Backspace => {
                if tvec.len() > 0 && start > 0 {
                    let m = if sel.length < start {
                        sel.length + 1
                    } else {
                        start
                    };
                    remove_span(&mut tvec, start - m, m);
                    new_start = start - m;
                }
            },
            Key::Delete => {
                if start < tvec.len() {
                    let avail = tvec.len() - start;
                    let m = if sel.length < avail {
                        sel.length + 1
                    } else {
                        avail
                    };
                    remove_span(&mut tvec, start, m);
                }
            },
            Key::Text(s) => {
                let svec = crate::text::str_chars(s.as_str());
                if svec.len() > 0 && svec.len() <= usize::MAX - tvec.len() {
                    insert_span(&mut tvec, start, &svec);
                    new_start = start + svec.len();
                }
            },
        }
        let new_text = crate::text::string_from_chars(&tvec);
        put_component(world, entity, Component::Text(new_text));
        put_component(
            world,
            entity,
            Component::Selection(TextSelection { start_index: new_start, length: sel.length }),
        );
    }

    /// Applies every pending key to the entity's text.
    pub fn update(&mut self, world: &mut World, entity: Entity, keys: &Vec<Key>)
        requires
            old(world).wf(),
        ensures
            final(world).wf(),
            final(world).spec_len() == old(world).spec_len(),
            final(world).running == old(world).running,
    {
        let n = keys.len();
        let mut i: usize = 0;
        while i < n
            invariant
                world.wf(),
                i <= n,
                n == keys@.len(),
                world.spec_len() == old(world).spec_len(),
                world.running == old(world).running,
            decreases n - i,
        {
            self.handle_key_event(world, entity, &keys[i]);
            i = i + 1;
        }
    }

    /// Moves the focus to this entity: the previously focused widget loses
    /// its focused flag, the global singleton records this entity, and the
    /// entity gains the flag. A disabled entity keeps the focus where it
    /// was.
    pub fn request_focus(&self, world: &mut World, entity: Entity)
        requires
            old(world).wf(),
        ensures
            final(world).wf(),
            final(world).spec_len() == old(world).spec_len(),
            final(world).running == old(world).running,
            ({
                let st = old(world).store;
                let enabled = st.resolved(entity as int, CompTag::Enabled) == Some(
                    Component::Enabled(true),
                );
                let held = st.raw(0, CompTag::Global) matches Some(
                    crate::store::Slot::Owned(Component::Global(_)),
                );
                &&& (!enabled ==> *final(world) == *old(world))
                &&& ((enabled && held) ==> (match final(world).store.resolved(
                    0,
                    CompTag::Global,
                ) {
                    Some(Component::Global(g)) => g.focused_widget == Some(entity),
                    _ => false,
                }))
                &&& ((enabled && held && (match st.resolved(0, CompTag::Global) {
                    Some(Component::Global(g)) => g.focused_widget != Some(entity),
                    _ => false,
                }) && (entity as int) < old(world).spec_len() && entity != 0)
                    ==> final(world).store.resolved(entity as int, CompTag::Focused) == Some(
                    Component::Focused(true),
                ))
            }),
    {
        let enabled = match world.store.borrow(entity, CompTag::Enabled) {
            Ok(Component::Enabled(b)) => *b,
            _ => false,
        };
        if !enabled {
            return ;
        }
        let root = world.tree.root();
        let taken = world.store.take(root, CompTag::Global);
        match taken {
            Ok(Component::Global(g)) => {
                let Global { theme, focused_widget } = g;
                match focused_widget {
                    Some(old_focused) => {
                        if old_focused == entity {
                            let _res = world.store.insert(
                                root,
                                Component::Global(
                                    Global { theme, focused_widget: Some(entity) },
                                ),
                            );
                            return ;
                        }
                        put_component(world, old_focused, Component::Focused(false));
                    },
                    None => {},
                }
                let _res = world.store.insert(
                    root,
                    Component::Global(Global { theme, focused_widget: Some(entity) }),
                );
                put_component(world, entity, Component::Focused(true));
            },
            Ok(_) => {},
            Err(_) => {},
        }
    }

    /// Keeps the text cursor inside the viewport after layout: when the
    /// cursor cell leaves the laid-out width, the scroll offset moves so the
    /// cursor cell's right edge sits at the viewport edge.
    pub fn update_post_layout(&mut self, world: &mut World, entity: Entity)
        requires
            old(world).wf(),
        ensures
            final(world).wf(),
            final(world).spec_len() == old(world).spec_len(),
            final(world).running == old(world).running,
    {
        let sel: TextSelection = match world.store.borrow(entity, CompTag::Selection) {
            Ok(Component::Selection(s)) => *s,
            _ => {
                return ;
            },
        };
        let width = match world.store.borrow(entity, CompTag::Bounds) {
            Ok(Component::Bounds(b)) => b.width,
            _ => 0,
        };
        // one cell per character, the cell position clamped into the range
        let sidx: usize = if sel.start_index > 0x0FFF_FFFFusize {
            0x0FFF_FFFF
        } else {
            sel.start_index
        };
        let cursor_x: i32 = (sidx as i32) * 8;
        let mut offset = match world.store.borrow(entity, CompTag::ScrollOffset) {
            Ok(Component::ScrollOffset(p)) => *p,
            _ => crate::structs::Point { x: 0, y: 0 },
        };
        let w: i32 = if width > i32::MAX as u32 {
            i32::MAX
        } else {
            width as i32
        };
        if cursor_x < offset.x {
            offset.x = cursor_x;
        } else if (cursor_x as i64) > (offset.x as i64) + (w as i64) {
            let moved: i64 = (cursor_x as i64) - (w as i64);
            offset.x = if moved > i32::MAX as i64 {
                i32::MAX
            } else if moved < i32::MIN as i64 {
                i32::MIN
            } else {
                moved as i32
            };
        }
        self.cursor_x = cursor_x;
        put_component(world, entity, Component::ScrollOffset(offset));
    }
}

/// Where the vertical or horizontal bar of a scroll indicator sits: nothing
/// when the content fits the viewport; else the bar's length — the viewport
/// share of the content, scaled onto the viewport less the insets, at least
/// the minimum — and its origin, the scroll offset scaled the same way,
/// negated.
pub open spec fn spec_scroll_bar(
    viewport: u32,
    content: u32,
    inset: u32,
    min_len: u32,
    offset: int,
) -> Option<(u32, int)> {
    if content <= viewport || content == 0 {
        None
    } else {
        let avail = if viewport > inset {
            viewport - inset
        } else {
            0
        };
        let len = (avail * viewport) / (content as int);
        let len2 = if len >= min_len {
            len
        } else {
            min_len as int
        };
        let off_n: int = if offset < 0 {
            0
        } else {
            offset
        };
        Some((len2 as u32, -((off_n * viewport) / (content as int))))
    }
}

/// Computes one scroll bar's length and origin.
pub fn scroll_bar_geometry(
    viewport: u32,
    content: u32,
    inset: u32,
    min_len: u32,
    offset: i32,
) -> (r: Option<(u32, i64)>)
    ensures
        ({
            let sp = spec_scroll_bar(viewport, content, inset, min_len, offset as int);
            match (r, sp) {
                (Some((l, o)), Some((sl, so))) => l == sl && o == so,
                (None, None) => true,
                _ => false,
            }
        }),
{
    if content <= viewport || content == 0 {
        return None;
    }
    let avail: u64 = if viewport > inset {
        (viewport - inset) as u64
    } else {
        0
    };
    proof {
        assert((avail as int) * (viewport as int) <= 0xFFFF_FFFFi64 * 0xFFFF_FFFFi64)
            by (nonlinear_arith)
            requires
                0 <= avail as int <= 0xFFFF_FFFFi64,
                0 <= viewport as int <= 0xFFFF_FFFFi64,
        ;
        assert((avail as int) * (viewport as int) / (content as int) <= avail as int)
            by (nonlinear_arith)
            requires
                0 <= avail as int,
                0 < content as int,
                viewport as int <= content as int,
                avail as int <= viewport as int,
        ;
    }
    let len: u64 = (avail * (viewport as u64)) / (content as u64);
    let len2: u32 = if len >= min_len as u64 {
        len as u32
    } else {
        min_len
    };
    let off_mag: u64 = if offset < 0 {
        0
    } else {
        offset as u64
    };
    proof {
        assert(off_mag as int * (viewport as int) <= 0x7FFF_FFFFi64 * 0xFFFF_FFFFi64)
            by (nonlinear_arith)
            requires
                0 <= off_mag as int <= 0x7FFF_FFFFi64,
                0 <= viewport as int <= 0xFFFF_FFFFi64,
        ;
    }
    let prod: u64 = off_mag * (viewport as u64);
    let q: u64 = prod / (content as u64);
    let so: i64 = -(q as i64);
    Some((len2, so))
}

/// Whether a handler list listens for key presses.
fn has_key_handler(handlers: &Vec<crate::template::HandlerKind>) -> (r: bool)
    ensures
        r == handlers@.contains(crate::template::HandlerKind::KeyDown),
{
    let mut i: usize = 0;
    while i < handlers.len()
        invariant
            i <= handlers@.len(),
            forall|j: int|
                0 <= j < i ==> handlers@[j] != crate::template::HandlerKind::KeyDown,
        decreases handlers@.len() - i,
    {
        if matches!(handlers[i], crate::template::HandlerKind::KeyDown) {
            assert(handlers@[i as int] == crate::template::HandlerKind::KeyDown);
            return true;
        }
        i = i + 1;
    }
    false
}


/// Whether a handler list listens for mouse presses.
fn has_mouse_handler(handlers: &Vec<crate::template::HandlerKind>) -> (r: bool)
    ensures
        r == handlers@.contains(crate::template::HandlerKind::MouseDown),
{
    let mut i: usize = 0;
    while i < handlers.len()
        invariant
            i <= handlers@.len(),
            forall|j: int|
                0 <= j < i ==> handlers@[j] != crate::template::HandlerKind::MouseDown,
        decreases handlers@.len() - i,
    {
        if matches!(handlers[i], crate::template::HandlerKind::MouseDown) {
            assert(handlers@[i as int] == crate::template::HandlerKind::MouseDown);
            return true;
        }
        i = i + 1;
    }
    false
}

/// Whether a point lies inside an entity's laid-out rectangle: its stored
/// global position and its bounds extent.
pub open spec fn spec_hit(pos: crate::structs::Point, b: crate::structs::Bounds, x: i32, y: i32)
    -> bool {
    &&& pos.x <= x
    &&& pos.y <= y
    &&& (x as int) < pos.x + b.width
    &&& (y as int) < pos.y + b.height
}

/// Routes a pressed pointer position: the last entity in entity order whose
/// laid-out rectangle contains the point and which listens for mouse presses
/// is hit; a hit text box requests the focus.
pub fn dispatch_mouse(world: &mut World, x: i32, y: i32)
    requires
        old(world).wf(),
    ensures
        final(world).wf(),
        final(world).spec_len() == old(world).spec_len(),
        final(world).running == old(world).running,
{
    let n = world.states.len();
    let mut target: Option<Entity> = None;
    let mut e: usize = 0;
    while e < n
        invariant
            world.wf(),
            e <= n,
            n == old(world).spec_len(),
            *world == *old(world),
            (match target {
                Some(t) => (t as int) < old(world).spec_len(),
                None => true,
            }),
        decreases n - e,
    {
        if e < world.handlers.len() && has_mouse_handler(&world.handlers[e]) {
            let pos = match world.store.borrow(e as Entity, CompTag::Position) {
                Ok(Component::Position(p)) => *p,
                _ => crate::structs::Point { x: 0, y: 0 },
            };
            match world.store.borrow(e as Entity, CompTag::Bounds) {
                Ok(Component::Bounds(b)) => {
                    let inside = pos.x <= x && pos.y <= y && (x as i64) < (pos.x as i64) + (
                    b.width as i64) && (y as i64) < (pos.y as i64) + (b.height as i64);
                    if inside {
                        target = Some(e as Entity);
                    }
                },
                _ => {},
            }
        }
        e = e + 1;
    }
    match target {
        Some(t) => {
            if (t as usize) < world.states.len() {
                match &world.states[t as usize] {
                    Some(StateKind::TextBox(st)) => {
                        let state = *st;
                        state.request_focus(world, t);
                    },
                    _ => {},
                }
            }
        },
        None => {},
    }
}

/// Applies pending keys to the focused text box; the focused widget must
/// listen for key presses.
pub fn dispatch_keys(world: &mut World, keys: &Vec<Key>)
    requires
        old(world).wf(),
    ensures
        final(world).wf(),
        final(world).spec_len() == old(world).spec_len(),
        final(world).running == old(world).running,
{
    if keys.len() == 0 {
        return ;
    }
    let root = world.tree.root();
    let focused: Option<Entity> = match world.store.borrow(root, CompTag::Global) {
        Ok(Component::Global(g)) => g.focused_widget,
        _ => None,
    };
    match focused {
        None => {},
        Some(f) => {
            if (f as usize) < world.states.len() && (f as usize) < world.handlers.len()
                && has_key_handler(&world.handlers[f as usize]) {
                match &world.states[f as usize] {
                    Some(StateKind::TextBox(st)) => {
                        let mut state = *st;
                        state.update(world, f, keys);
                        if (f as usize) < world.states.len() {
                            world.states[f as usize] = Some(StateKind::TextBox(state));
                        }
                    },
                    _ => {},
                }
            }
        },
    }
}

/// Runs every entity's state update: navigation messages first, then each
/// state object in entity order.
pub fn dispatch_update(world: &mut World)
    requires
        old(world).wf(),
    ensures
        final(world).wf(),
        final(world).spec_len() == old(world).spec_len(),
        final(world).running == old(world).running,
{
    let mut msgs: Vec<(Entity, MasterDetailAction)> = Vec::new();
    core::mem::swap(&mut msgs, &mut world.messages);
    let mut i: usize = 0;
    while i < msgs.len()
        invariant
            world.wf(),
            i <= msgs@.len(),
            world.spec_len() == old(world).spec_len(),
            world.running == old(world).running,
        decreases msgs@.len() - i,
    {
        let (target, action) = msgs[i];
        if (target as usize) < world.states.len() {
            match &world.states[target as usize] {
                Some(StateKind::MasterDetail(st)) => {
                    let mut state = *st;
                    state.messages(world, target, action);
                    if (target as usize) < world.states.len() {
                        world.states[target as usize] = Some(StateKind::MasterDetail(state));
                    }
                },
                _ => {},
            }
        }
        i = i + 1;
    }
    let n = world.states.len();
    let mut e: usize = 0;
    while e < n
        invariant
            world.wf(),
            e <= n,
            world.spec_len() == old(world).spec_len(),
            world.running == old(world).running,
            n == old(world).spec_len(),
        decreases n - e,
    {
        if e < world.states.len() {
            match &world.states[e] {
                Some(StateKind::TextBlock(st)) => {
                    let state = *st;
                    state.localize(world, e as Entity);
                },
                Some(StateKind::MasterDetail(st)) => {
                    let mut state = *st;
                    if state.content_grid == 0 {
                        if (e as usize) < world.tree.children.len() && world.tree.children[
                            e as usize
                        ].len() > 0 {
                            state.content_grid = world.tree.children[e][0];
                            state.init_master_detail(world);
                        }
                    }
                    if e < world.states.len() {
                        world.states[e] = Some(StateKind::MasterDetail(state));
                    }
                },
                _ => {},
            }
        }
        e = e + 1;
    }
}

/// Runs every entity's post-layout update in entity order.
pub fn dispatch_update_post_layout(world: &mut World)
    requires
        old(world).wf(),
    ensures
        final(world).wf(),
        final(world).spec_len() == old(world).spec_len(),
        final(world).running == old(world).running,
{
    let n = world.states.len();
    let mut e: usize = 0;
    while e < n
        invariant
            world.wf(),
            e <= n,
            world.spec_len() == old(world).spec_len(),
            world.running == old(world).running,
            n == old(world).spec_len(),
        decreases n - e,
    {
        if e < world.states.len() {
            match &world.states[e] {
                Some(StateKind::MasterDetail(st)) => {
                    let mut state = *st;
                    state.update_post_layout(world, e as Entity);
                    if e < world.states.len() {
                        world.states[e] = Some(StateKind::MasterDetail(state));
                    }
                },
                Some(StateKind::TextBox(st)) => {
                    let mut state = *st;
                    state.update_post_layout(world, e as Entity);
                    if e < world.states.len() {
                        world.states[e] = Some(StateKind::TextBox(state));
                    }
                },
                Some(StateKind::ScrollIndicator(st)) => {
                    let state = *st;
                    state.update_post_layout(world, e as Entity);
                },
                _ => {},
            }
        }
        e = e + 1;
    }
}


/// Where the indicator's two bars end up: each bar — the first child
/// vertical, the second horizontal — is collapsed when its axis' content
/// fits, else visible with the computed length and origin stored in its
/// bounds. The vertical bar's claims ask that the two bars own their
/// visibility and bounds separately, so the horizontal writes cannot cross.
pub open spec fn scroll_bars_placed(
    w0: World,
    w1: World,
    entity: Entity,
    bounds: crate::structs::Bounds,
    cb: crate::structs::Bounds,
    pad: crate::structs::Padding,
    scroll: crate::structs::Point,
) -> bool {
    let kids = if 0 <= (entity as int) < w0.tree.children@.len() {
        w0.tree.children@[entity as int]@
    } else {
        Seq::empty()
    };
    let vbar_opt: Option<Entity> = if kids.len() > 0 {
        Some(kids[0])
    } else {
        None
    };
    let hbar_opt: Option<Entity> = if kids.len() > 1 {
        Some(kids[1])
    } else {
        None
    };
    &&& (match vbar_opt {
        Some(vbar) => {
            let minh = (match w0.store.resolved(vbar as int, CompTag::Constraint) {
                Some(Component::Constraint(c)) => c.min_height,
                _ => 0u32,
            });
            let g = spec_scroll_bar(
                bounds.height,
                cb.height,
                crate::layout::sat_add3(pad.top, pad.bottom, 0),
                minh,
                scroll.y as int,
            );
            let separate = (match hbar_opt {
                Some(hbar) => vbar != hbar && owns(w0.store, vbar, CompTag::Visibility) && owns(
                    w0.store,
                    hbar,
                    CompTag::Visibility,
                ) && owns(w0.store, vbar, CompTag::Bounds) && owns(
                    w0.store,
                    hbar,
                    CompTag::Bounds,
                ),
                None => true,
            });
            ((vbar as int) < w0.spec_len() && separate) ==> (match g {
                Some((len, origin)) => {
                    &&& w1.store.resolved(vbar as int, CompTag::Visibility) == Some(
                        Component::Visibility(Visibility::Visible),
                    )
                    &&& (match w1.store.resolved(vbar as int, CompTag::Bounds) {
                        Some(Component::Bounds(nb)) => nb.height == len && nb.y
                            == crate::render::sat_i32(origin),
                        _ => false,
                    })
                },
                None => w1.store.resolved(vbar as int, CompTag::Visibility) == Some(
                    Component::Visibility(Visibility::Collapsed),
                ),
            })
        },
        None => true,
    })
    &&& (match hbar_opt {
        Some(hbar) => {
            let minw = (match w0.store.resolved(hbar as int, CompTag::Constraint) {
                Some(Component::Constraint(c)) => c.min_width,
                _ => 0u32,
            });
            let g = spec_scroll_bar(
                bounds.width,
                cb.width,
                crate::layout::sat_add3(pad.left, pad.right, 0),
                minw,
                scroll.x as int,
            );
            let separate = (match vbar_opt {
                Some(vbar) => vbar != hbar && owns(w0.store, vbar, CompTag::Visibility) && owns(
                    w0.store,
                    hbar,
                    CompTag::Visibility,
                ) && owns(w0.store, vbar, CompTag::Bounds) && owns(
                    w0.store,
                    hbar,
                    CompTag::Bounds,
                ),
                None => true,
            });
            ((hbar as int) < w0.spec_len() && separate) ==> (match g {
                Some((len, origin)) => {
                    &&& w1.store.resolved(hbar as int, CompTag::Visibility) == Some(
                        Component::Visibility(Visibility::Visible),
                    )
                    &&& (match w1.store.resolved(hbar as int, CompTag::Bounds) {
                        Some(Component::Bounds(nb)) => nb.width == len && nb.x
                            == crate::render::sat_i32(origin),
                        _ => false,
                    })
                },
                None => w1.store.resolved(hbar as int, CompTag::Visibility) == Some(
                    Component::Visibility(Visibility::Collapsed),
                ),
            })
        },
        None => true,
    })
}

impl ScrollIndicatorState {
    /// Sizes and places the two scroll bars after layout: a bar is collapsed
    /// when its axis' content fits the viewport, else visible with the
    /// length and origin the viewport-to-content ratio dictates.
    pub fn update_post_layout(&self, world: &mut World, entity: Entity)
        requires
            old(world).wf(),
        ensures
            final(world).wf(),
            final(world).spec_len() == old(world).spec_len(),
            final(world).running == old(world).running,
            ({
                let st = old(world).store;
                let b = (match st.resolved(entity as int, CompTag::Bounds) {
                    Some(Component::Bounds(x)) => Some(x),
                    _ => None,
                });
                let content = (match st.resolved(entity as int, CompTag::ContentId) {
                    Some(Component::ContentId(c)) => Some(c),
                    _ => None,
                });
                &&& (b is None || content is None) ==> *final(world) == *old(world)
                &&& (match (b, content) {
                    (Some(bounds), Some(c)) => {
                        match st.resolved(c as int, CompTag::Bounds) {
                            Some(Component::Bounds(cb)) => {
                                let pad = (match st.resolved(entity as int, CompTag::Padding) {
                                    Some(Component::Padding(p)) => p,
                                    _ => crate::structs::Padding {
                                        left: 0u32,
                                        top: 0u32,
                                        right: 0u32,
                                        bottom: 0u32,
                                    },
                                });
                                let scroll = (match st.resolved(
                                    entity as int,
                                    CompTag::ScrollOffset,
                                ) {
                                    Some(Component::ScrollOffset(p)) => p,
                                    _ => crate::structs::Point { x: 0i32, y: 0i32 },
                                });
                                scroll_bars_placed(
                                    *old(world),
                                    *final(world),
                                    entity,
                                    bounds,
                                    cb,
                                    pad,
                                    scroll,
                                )
                            },
                            _ => *final(world) == *old(world),
                        }
                    },
                    _ => true,
                })
            }),
    {
        let bounds = match world.store.borrow(entity, CompTag::Bounds) {
            Ok(Component::Bounds(b)) => *b,
            _ => {
                return ;
            },
        };
        let pad = match world.store.borrow(entity, CompTag::Padding) {
            Ok(Component::Padding(p)) => *p,
            _ => crate::structs::Padding { left: 0, top: 0, right: 0, bottom: 0 },
        };
        let scroll = match world.store.borrow(entity, CompTag::ScrollOffset) {
            Ok(Component::ScrollOffset(p)) => *p,
            _ => crate::structs::Point { x: 0, y: 0 },
        };
        let content: Entity = match world.store.borrow(entity, CompTag::ContentId) {
            Ok(Component::ContentId(c)) => *c,
            _ => {
                return ;
            },
        };
        let content_bounds = match world.store.borrow(content, CompTag::Bounds) {
            Ok(Component::Bounds(b)) => *b,
            _ => {
                return ;
            },
        };
        let (vbar, hbar): (Option<Entity>, Option<Entity>) = if (entity as usize)
            < world.tree.children.len() {
            let row = &world.tree.children[entity as usize];
            let v = if row.len() > 0 {
                Some(row[0])
            } else {
                None
            };
            let h = if row.len() > 1 {
                Some(row[1])
            } else {
                None
            };
            (v, h)
        } else {
            (None, None)
        };
        match vbar {
            Some(bar) => {
                let min_h = match world.store.borrow(bar, CompTag::Constraint) {
                    Ok(Component::Constraint(c)) => c.min_height,
                    _ => 0,
                };
                let inset = crate::layout::sat_add3_exec(pad.top, pad.bottom, 0);
                match scroll_bar_geometry(
                    bounds.height,
                    content_bounds.height,
                    inset,
                    min_h,
                    scroll.y,
                ) {
                    Some((len, origin)) => {
                        put_component(world, bar, Component::Visibility(Visibility::Visible));
                        let ob = match world.store.borrow(bar, CompTag::Bounds) {
                            Ok(Component::Bounds(b)) => *b,
                            _ => crate::structs::Bounds { x: 0, y: 0, width: 0, height: 0 },
                        };
                        let y: i32 = if origin > i32::MAX as i64 {
                            i32::MAX
                        } else if origin < i32::MIN as i64 {
                            i32::MIN
                        } else {
                            origin as i32
                        };
                        put_component(
                            world,
                            bar,
                            Component::Bounds(
                                crate::structs::Bounds { y, height: len, ..ob },
                            ),
                        );
                    },
                    None => {
                        put_component(
                            world,
                            bar,
                            Component::Visibility(Visibility::Collapsed),
                        );
                    },
                }
            },
            None => {},
        }
        match hbar {
            Some(bar) => {
                let min_w = match world.store.borrow(bar, CompTag::Constraint) {
                    Ok(Component::Constraint(c)) => c.min_width,
                    _ => 0,
                };
                let inset = crate::layout::sat_add3_exec(pad.left, pad.right, 0);
                match scroll_bar_geometry(
                    bounds.width,
                    content_bounds.width,
                    inset,
                    min_w,
                    scroll.x,
                ) {
                    Some((len, origin)) => {
                        put_component(world, bar, Component::Visibility(Visibility::Visible));
                        let ob = match world.store.borrow(bar, CompTag::Bounds) {
                            Ok(Component::Bounds(b)) => *b,
                            _ => crate::structs::Bounds { x: 0, y: 0, width: 0, height: 0 },
                        };
                        let x: i32 = if origin > i32::MAX as i64 {
                            i32::MAX
                        } else if origin < i32::MIN as i64 {
                            i32::MIN
                        } else {
                            origin as i32
                        };
                        put_component(
                            world,
                            bar,
                            Component::Bounds(
                                crate::structs::Bounds { x, width: len, ..ob },
                            ),
                        );
                    },
                    None => {
                        put_component(
                            world,
                            bar,
                            Component::Visibility(Visibility::Collapsed),
                        );
                    },
                }
            },
            None => {},
        }
    }
}

/// A widget holding the two scroll bars of a scrollable viewport.
pub struct ScrollIndicator;

impl Widget for ScrollIndicator {
    /// A scroll indicator template: the `scroll-indicator` element selector,
    /// the padding layout, the indicator state and its two bar children.
    fn create() -> (r: Template)
        ensures
            r.state == Some(StateKind::ScrollIndicator(ScrollIndicatorState)),
            r.children@.len() == 2,
            r.debug_name@ == "ScrollIndicator"@,
    {
        let vbar = Template::default().with_property(
            Component::Selector(
                crate::selector::Selector::new().with(
                    <String as vstd::string::StringExecFns>::from_str("scroll-bar"),
                ).with_id(
                    <String as vstd::string::StringExecFns>::from_str("vertical-scroll-bar"),
                ),
            ),
        ).with_property(
            Component::Constraint(
                crate::structs::Constraint {
                    min_width: 0,
                    min_height: 8,
                    max_width: 0,
                    max_height: 0,
                    width: 0,
                    height: 0,
                },
            ),
        ).with_render_object(ShapeKind::Rectangle).with_debug_name("VerticalScrollBar");
        let hbar = Template::default().with_property(
            Component::Selector(
                crate::selector::Selector::new().with(
                    <String as vstd::string::StringExecFns>::from_str("scroll-bar"),
                ).with_id(
                    <String as vstd::string::StringExecFns>::from_str("horizontal-scroll-bar"),
                ),
            ),
        ).with_property(
            Component::Constraint(
                crate::structs::Constraint {
                    min_width: 8,
                    min_height: 0,
                    max_width: 0,
                    max_height: 0,
                    width: 0,
                    height: 4,
                },
            ),
        ).with_render_object(ShapeKind::Rectangle).with_debug_name("HorizontalScrollBar");
        Template::default().with_property(
            Component::Selector(
                crate::selector::Selector::new().with(
                    <String as vstd::string::StringExecFns>::from_str("scroll-indicator"),
                ),
            ),
        ).with_property(
            Component::ScrollOffset(crate::structs::Point { x: 0, y: 0 }),
        ).with_property(
            Component::Padding(crate::structs::Padding { left: 0, top: 0, right: 0, bottom: 0 }),
        ).with_property(Component::ContentId(0)).with_layout_object(
            LayoutStrategy::Padding(PaddingLayoutObject),
        ).with_state(StateKind::ScrollIndicator(ScrollIndicatorState)).with_child(
            vbar,
        ).with_child(hbar).with_debug_name("ScrollIndicator")
    }
}

} // verus!
