//! Declarative widget templates: the node descriptions the tree builder
//! expands into entities, components, strategies and handlers.

use vstd::prelude::*;
use crate::layout::LayoutStrategy;
use crate::render::ShapeKind;
use crate::store::{CompTag, Component};
use crate::tree::Entity;
use crate::widgets::StateKind;

verus! {

/// How many children a widget accepts.
#[derive(Clone, Copy, PartialEq, Eq, Structural, Debug)]
pub enum ParentType {
    NoChildren,
    Single,
    Multi,
}

/// The event kinds an entity can listen for.
#[derive(Clone, Copy, PartialEq, Eq, Structural, Debug)]
pub enum HandlerKind {
    KeyDown,
    MouseDown,
}

/// Builds a property, or shares one: a literal value seeds a fresh owned
/// component, a source aliases an existing entity's component of the tag.
#[derive(Debug)]
pub enum PropertySource {
    Source(Entity, CompTag),
    Value(Component),
}

/// What a widget hands the builder to seed or share one of its properties.
pub trait IntoPropertySource {
    fn into_source(self) -> PropertySource;
}

impl IntoPropertySource for Component {
    /// A plain component seeds a fresh owned property.
    fn into_source(self) -> PropertySource {
        PropertySource::Value(self)
    }
}

/// A declarative, possibly recursive widget description.
#[derive(Debug)]
pub struct Template {
    pub properties: Vec<Component>,
    pub shared_properties: Vec<PropertySource>,
    pub layout: LayoutStrategy,
    pub shape: Option<ShapeKind>,
    pub event_handlers: Vec<HandlerKind>,
    pub state: Option<StateKind>,
    pub children: Vec<Template>,
    pub parent_type: ParentType,
    pub debug_name: String,
}

impl Default for Template {
    /// An empty template: no properties, the identity layout, no shape, no
    /// handlers, no state, no children.
    fn default() -> (r: Template)
        ensures
            r.properties@.len() == 0,
            r.shared_properties@.len() == 0,
            r.layout == LayoutStrategy::Default(crate::layout::DefaultLayoutObject),
            r.shape is None,
            r.event_handlers@.len() == 0,
            r.state is None,
            r.children@.len() == 0,
            r.parent_type == ParentType::Multi,
            r.debug_name@ == Seq::<char>::empty(),
    {
        Template {
            properties: Vec::new(),
            shared_properties: Vec::new(),
            layout: LayoutStrategy::Default(crate::layout::DefaultLayoutObject),
            shape: None,
            event_handlers: Vec::new(),
            state: None,
            children: Vec::new(),
            parent_type: ParentType::Multi,
            debug_name: String::new(),
        }
    }
}

impl Template {
    /// Adds an exclusive per-entity property.
    pub fn with_property(self, c: Component) -> (r: Template)
        ensures
            r.properties@ == self.properties@.push(c),
            r.shared_properties == self.shared_properties,
            r.layout == self.layout,
            r.shape == self.shape,
            r.children == self.children,
            r.state == self.state,
            r.event_handlers == self.event_handlers,
            r.parent_type == self.parent_type,
            r.debug_name == self.debug_name,
    {
        let mut t = self;
        t.properties.push(c);
        t
    }

    /// Adds a shared-property binding.
    pub fn with_shared_property(self, p: PropertySource) -> (r: Template)
        ensures
            r.shared_properties@ == self.shared_properties@.push(p),
            r.properties == self.properties,
            r.layout == self.layout,
            r.shape == self.shape,
            r.children == self.children,
            r.state == self.state,
            r.event_handlers == self.event_handlers,
            r.parent_type == self.parent_type,
            r.debug_name == self.debug_name,
    {
        let mut t = self;
        t.shared_properties.push(p);
        t
    }

    /// Sets the layout strategy.
    pub fn with_layout_object(self, layout: LayoutStrategy) -> (r: Template)
        ensures
            r == (Template { layout, ..self }),
    {
        Template { layout, ..self }
    }

    /// Sets the paint shape.
    pub fn with_render_object(self, shape: ShapeKind) -> (r: Template)
        ensures
            r == (Template { shape: Some(shape), ..self }),
    {
        Template { shape: Some(shape), ..self }
    }

    /// Adds an event handler.
    pub fn with_event_handler(self, h: HandlerKind) -> (r: Template)
        ensures
            r.event_handlers@ == self.event_handlers@.push(h),
            r.properties == self.properties,
            r.shared_properties == self.shared_properties,
            r.layout == self.layout,
            r.shape == self.shape,
            r.children == self.children,
            r.state == self.state,
            r.parent_type == self.parent_type,
            r.debug_name == self.debug_name,
    {
        let mut t = self;
        t.event_handlers.push(h);
        t
    }

    /// Sets the interactive state object.
    pub fn with_state(self, s: StateKind) -> (r: Template)
        ensures
            r == (Template { state: Some(s), ..self }),
    {
        Template { state: Some(s), ..self }
    }

    /// Appends a child template.
    pub fn with_child(self, child: Template) -> (r: Template)
        ensures
            r.children@ == self.children@.push(child),
            r.properties == self.properties,
            r.shared_properties == self.shared_properties,
            r.layout == self.layout,
            r.shape == self.shape,
            r.state == self.state,
            r.event_handlers == self.event_handlers,
            r.parent_type == self.parent_type,
            r.debug_name == self.debug_name,
    {
        let mut t = self;
        t.children.push(child);
        t
    }

    /// Sets how many children the widget accepts.
    pub fn as_parent_type(self, parent_type: ParentType) -> (r: Template)
        ensures
            r == (Template { parent_type, ..self }),
    {
        Template { parent_type, ..self }
    }

    /// Names the template for diagnostics.
    pub fn with_debug_name(self, name: &str) -> (r: Template)
        ensures
            r.debug_name@ == name@,
            r.properties == self.properties,
            r.shared_properties == self.shared_properties,
            r.layout == self.layout,
            r.shape == self.shape,
            r.children == self.children,
            r.state == self.state,
            r.event_handlers == self.event_handlers,
            r.parent_type == self.parent_type,
    {
        let mut t = self;
        t.debug_name = <String as vstd::string::StringExecFns>::from_str(name);
        t
    }
}

/// A widget supplies its declarative template; the sole extension point for
/// new widget kinds.
pub trait Widget {
    fn create() -> Template;
}

/// How many entities a template expands to: the node itself and its
/// children's subtrees.
pub open spec fn template_size(t: Template) -> nat
    decreases t, 0nat,
{
    1 + templates_size(t.children@, 0)
}

/// How many entities the templates from `i` on expand to.
pub open spec fn templates_size(ts: Seq<Template>, i: int) -> nat
    decreases ts, ts.len() - i,
{
    if i < 0 || i >= ts.len() {
        0
    } else {
        template_size(ts[i]) + templates_size(ts, i + 1)
    }
}

} // verus!
