//! A retained-mode GUI core: an entity-component world holding a widget tree,
//! a CSS-like theme resolver, a two-phase layout negotiation protocol and a
//! render pass that accumulates global positions, all driven by a fixed
//! per-frame pipeline of systems.

pub mod css;
pub mod layout;
pub mod render;
pub mod selector;
pub mod store;
pub mod structs;
pub mod theme;
pub mod template;
pub mod text;
pub mod tree;
pub mod widgets;
pub mod world;
