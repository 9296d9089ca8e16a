//! The entity-component world of one window: the tree, the store, the
//! per-entity strategy tables, the template builder and the fixed per-frame
//! pipeline of systems.

use vstd::prelude::*;
use crate::layout::{DefaultLayoutObject, LayoutStrategy, LayoutSystem};
use crate::render::{RenderCommand, RenderSystem, ShapeKind};
use crate::store::{CompTag, Component, ComponentStore, Global};
use crate::structs::{Bounds, Point};
use crate::template::{HandlerKind, PropertySource, Template, template_size, templates_size};
use crate::theme::Theme;
use crate::tree::{Entity, Tree, id_seq, lemma_id_seq_concat, lemma_pre_list_append, lemma_pre_list_frame, lemma_pre_node_frame, pre_list, pre_node, range_closed, spec_pre_order};
use crate::widgets::{MasterDetailAction, StateKind};

verus! {

/// A key a text input reacts to.
#[derive(PartialEq, Eq, Debug)]
pub enum Key {
    Left,
    Right,
    Backspace,
    Delete,
    Text(String),
}

impl Clone for Key {
    /// A clone keeps the key and its typed text.
    fn clone(&self) -> (r: Self)
        ensures
            r == *self,
    {
        match self {
            Key::Left => Key::Left,
            Key::Right => Key::Right,
            Key::Backspace => Key::Backspace,
            Key::Delete => Key::Delete,
            Key::Text(s) => Key::Text(s.clone()),
        }
    }
}

/// One input event handed in by the platform shell.
#[derive(Clone, PartialEq, Eq, Debug)]
pub enum Event {
    Mouse { x: i32, y: i32, pressed: bool },
    Key(Key),
    Quit,
}

/// The world of one window: every table keyed by the same entities.
pub struct World {
    pub store: ComponentStore,
    pub tree: Tree,
    pub layouts: Vec<LayoutStrategy>,
    pub shapes: Vec<Option<ShapeKind>>,
    pub handlers: Vec<Vec<HandlerKind>>,
    pub states: Vec<Option<StateKind>>,
    pub messages: Vec<(Entity, MasterDetailAction)>,
    pub pending_keys: Vec<Key>,
    pub localization: Vec<(String, String)>,
    pub update: bool,
    pub running: bool,
    pub debug_flag: bool,
}

impl World {
    /// Every per-entity table covers the same entities as the tree.
    pub open spec fn wf(self) -> bool {
        &&& self.store.wf()
        &&& self.tree.wf()
        &&& self.store.spec_len() == self.tree.spec_len()
        &&& self.layouts@.len() == self.tree.spec_len()
        &&& self.shapes@.len() == self.tree.spec_len()
        &&& self.handlers@.len() == self.tree.spec_len()
        &&& self.states@.len() == self.tree.spec_len()
    }

    /// How many entities exist.
    pub open spec fn spec_len(self) -> nat {
        self.tree.spec_len()
    }

    /// An empty world with no entities, dirty and running.
    pub fn new() -> (r: World)
        ensures
            r.wf(),
            r.spec_len() == 0,
            r.update,
            r.running,
            !r.debug_flag,
    {
        World {
            store: ComponentStore::new(),
            tree: Tree::new(),
            layouts: Vec::new(),
            shapes: Vec::new(),
            handlers: Vec::new(),
            states: Vec::new(),
            messages: Vec::new(),
            pending_keys: Vec::new(),
            localization: Vec::new(),
            update: true,
            running: true,
            debug_flag: false,
        }
    }

    pub fn len(&self) -> (r: usize)
        ensures
            r == self.spec_len(),
    {
        self.tree.len()
    }

    /// Creates one entity with its strategy-table rows.
    fn create_entity(
        &mut self,
        layout: LayoutStrategy,
        shape: Option<ShapeKind>,
        handlers: Vec<HandlerKind>,
        state: Option<StateKind>,
    ) -> (e: Entity)
        requires
            old(self).wf(),
            old(self).spec_len() < u32::MAX,
        ensures
            final(self).wf(),
            e == old(self).spec_len(),
            final(self).spec_len() == old(self).spec_len() + 1,
            final(self).tree.parent@[e as int] == e,
            final(self).tree.children@[e as int]@.len() == 0,
            forall|q: int|
                0 <= q < old(self).spec_len() ==> final(self).tree.children@[q]
                    == #[trigger] old(self).tree.children@[q],
            forall|q: int|
                0 <= q < old(self).spec_len() ==> final(self).tree.parent@[q]
                    == #[trigger] old(self).tree.parent@[q],
            forall|e2: int, t2: CompTag|
                #[trigger] final(self).store.raw(e2, t2) == old(self).store.raw(e2, t2),
            final(self).layouts@[e as int] == layout,
            final(self).shapes@[e as int] == shape,
            final(self).handlers@[e as int] == handlers,
            final(self).states@[e as int] == state,
            forall|q: int|
                0 <= q < old(self).spec_len() ==> final(self).layouts@[q] == #[trigger] old(
                    self,
                ).layouts@[q],
            forall|q: int|
                0 <= q < old(self).spec_len() ==> final(self).shapes@[q] == #[trigger] old(
                    self,
                ).shapes@[q],
            forall|q: int|
                0 <= q < old(self).spec_len() ==> final(self).handlers@[q] == #[trigger] old(
                    self,
                ).handlers@[q],
            forall|q: int|
                0 <= q < old(self).spec_len() ==> final(self).states@[q] == #[trigger] old(
                    self,
                ).states@[q],
            final(self).update == old(self).update,
            final(self).running == old(self).running,
            final(self).debug_flag == old(self).debug_flag,
    {
        let e = self.tree.register_node();
        self.store.register_entity();
        self.layouts.push(layout);
        self.shapes.push(shape);
        self.handlers.push(handlers);
        self.states.push(state);
        e
    }
}

/// Folds the drained exclusive properties onto a slot for one tag: a later
/// property of the tag overrides an earlier one.
pub open spec fn wired_props(
    props: Seq<Component>,
    i: int,
    acc: Option<crate::store::Slot>,
    tag: CompTag,
) -> Option<crate::store::Slot>
    decreases props.len() - i,
{
    if i < 0 || i >= props.len() {
        acc
    } else {
        wired_props(
            props,
            i + 1,
            if crate::store::tag_of(props[i]) == tag {
                Some(crate::store::Slot::Owned(props[i]))
            } else {
                acc
            },
            tag,
        )
    }
}

/// Folds the shared bindings onto a slot for one tag: a literal seeds an
/// owned component; a source reference wires an alias to the entity owning
/// the source's component, when the source was created earlier and holds
/// one, and otherwise leaves the slot as it stands — the recovered-locally
/// policy for a binding whose source lacks the component.
pub open spec fn wired_shared(
    shared: Seq<PropertySource>,
    i: int,
    store0: ComponentStore,
    e: int,
    acc: Option<crate::store::Slot>,
    tag: CompTag,
) -> Option<crate::store::Slot>
    decreases shared.len() - i,
{
    if i < 0 || i >= shared.len() {
        acc
    } else {
        let acc2 = match shared[i] {
            PropertySource::Value(c) => if crate::store::tag_of(c) == tag {
                Some(crate::store::Slot::Owned(c))
            } else {
                acc
            },
            PropertySource::Source(src, t) => if t == tag && (src as int) < e && store0.resolved(
                src as int,
                tag,
            ) is Some {
                Some(
                    crate::store::Slot::Shared(
                        (store0.spec_owner(src as int, tag)->0) as Entity,
                        tag,
                    ),
                )
            } else {
                acc
            },
        };
        wired_shared(shared, i + 1, store0, e, acc2, tag)
    }
}

/// The slot an expanded entity ends with for one tag: its drained properties
/// first, its shared bindings after them, later entries overriding earlier
/// ones.
pub open spec fn wired_slot(t: Template, store0: ComponentStore, e: int, tag: CompTag) -> Option<
    crate::store::Slot,
> {
    wired_shared(
        t.shared_properties@,
        0,
        store0,
        e,
        wired_props(t.properties@, 0, None, tag),
        tag,
    )
}

/// Where an expanded node's `j`-th child lands: right after the node itself
/// and the subtrees of its earlier siblings.
pub open spec fn child_entity(e: int, children: Seq<Template>, j: int) -> Entity {
    (e + 1 + (templates_size(children, 0) - templates_size(children, j))) as Entity
}

/// The suffix sums of template sizes shrink as the suffix does.
proof fn lemma_templates_size_mono(ts: Seq<Template>, i: int, j: int)
    requires
        0 <= i <= j,
    ensures
        templates_size(ts, j) <= templates_size(ts, i),
    decreases j - i,
{
    if i < j {
        lemma_templates_size_mono(ts, i + 1, j);
    }
}

/// The whole subtree an expanded template left behind matches the template:
/// node by node, the children sit at their computed entities in declaration
/// order, and the strategy tables carry what each node supplied.
pub open spec fn subtree_matches(w: World, e: int, t: Template) -> bool
    decreases t, 0nat,
{
    &&& 0 <= e < w.spec_len()
    &&& w.tree.children@[e]@.len() == t.children@.len()
    &&& (forall|j: int|
        0 <= j < t.children@.len() ==> #[trigger] w.tree.children@[e]@[j] == child_entity(
            e,
            t.children@,
            j,
        ))
    &&& w.layouts@[e] == t.layout
    &&& w.shapes@[e] == t.shape
    &&& w.handlers@[e] == t.event_handlers
    &&& w.states@[e] == t.state
    &&& children_match(w, e, t.children@, 0)
}

/// The tail of the subtree relation: every child from `j` on matches.
pub open spec fn children_match(w: World, e: int, ts: Seq<Template>, j: int) -> bool
    decreases ts, ts.len() - j,
{
    if j < 0 || j >= ts.len() {
        true
    } else {
        &&& subtree_matches(w, child_entity(e, ts, j) as int, ts[j])
        &&& children_match(w, e, ts, j + 1)
    }
}

/// A matched subtree keeps matching in any world that agrees with the old
/// one on the children lists and strategy tables of the subtree's entity
/// range.
proof fn lemma_subtree_matches_frame(w1: World, w2: World, e: int, t: Template)
    requires
        subtree_matches(w1, e, t),
        e + template_size(t) <= w2.spec_len(),
        forall|q: int|
            e <= q < e + template_size(t) ==> #[trigger] w2.tree.children@[q]
                == w1.tree.children@[q],
        forall|q: int|
            e <= q < e + template_size(t) ==> #[trigger] w2.layouts@[q] == w1.layouts@[q],
        forall|q: int|
            e <= q < e + template_size(t) ==> #[trigger] w2.shapes@[q] == w1.shapes@[q],
        forall|q: int|
            e <= q < e + template_size(t) ==> #[trigger] w2.handlers@[q] == w1.handlers@[q],
        forall|q: int|
            e <= q < e + template_size(t) ==> #[trigger] w2.states@[q] == w1.states@[q],
        w1.wf(),
        w2.wf(),
    ensures
        subtree_matches(w2, e, t),
    decreases t, t.children@.len() + 1, 0nat,
{
    assert(template_size(t) == 1 + templates_size(t.children@, 0));
    lemma_children_match_frame(w1, w2, e, t, 0);
}

/// The tail half of the frame argument.
proof fn lemma_children_match_frame(w1: World, w2: World, e: int, t: Template, j: int)
    requires
        subtree_matches(w1, e, t),
        0 <= j,
        e + template_size(t) <= w2.spec_len(),
        forall|q: int|
            e <= q < e + template_size(t) ==> #[trigger] w2.tree.children@[q]
                == w1.tree.children@[q],
        forall|q: int|
            e <= q < e + template_size(t) ==> #[trigger] w2.layouts@[q] == w1.layouts@[q],
        forall|q: int|
            e <= q < e + template_size(t) ==> #[trigger] w2.shapes@[q] == w1.shapes@[q],
        forall|q: int|
            e <= q < e + template_size(t) ==> #[trigger] w2.handlers@[q] == w1.handlers@[q],
        forall|q: int|
            e <= q < e + template_size(t) ==> #[trigger] w2.states@[q] == w1.states@[q],
        w1.wf(),
        w2.wf(),
        children_match(w1, e, t.children@, j),
        j <= t.children@.len(),
    ensures
        children_match(w2, e, t.children@, j),
    decreases t, t.children@.len() - j, 0nat,
{
    let ts = t.children@;
    if 0 <= j < ts.len() {
        let c = child_entity(e, ts, j) as int;
        lemma_templates_size_mono(ts, 0, j);
        lemma_templates_size_mono(ts, j + 1, ts.len() as int);
        assert(templates_size(ts, j) == template_size(ts[j]) + templates_size(ts, j + 1));
        assert(templates_size(ts, ts.len() as int) == 0);
        assert(e + 1 <= c && c + template_size(ts[j]) <= e + template_size(t));
        assert(decreases_to!(t => t.children));
        vstd::std_specs::vec::axiom_vec_decreases_to_view(t.children);
        vstd::seq::axiom_seq_index_decreases(t.children@, j);
        assert(decreases_to!(t => ts[j]));
        lemma_subtree_matches_frame(w1, w2, c, ts[j]);
        lemma_children_match_frame(w1, w2, e, t, j + 1);
    }
}


/// Children that each match from `j` on match as a tail.
proof fn lemma_children_match_from_forall(w: World, e: int, ts: Seq<Template>, j: int)
    requires
        0 <= j,
        forall|jj: int|
            j <= jj < ts.len() ==> subtree_matches(
                w,
                #[trigger] child_entity(e, ts, jj) as int,
                ts[jj],
            ),
    ensures
        children_match(w, e, ts, j),
    decreases ts.len() - j,
{
    if j < ts.len() {
        lemma_children_match_from_forall(w, e, ts, j + 1);
    }
}

/// Expands one template node and its children, depth first: one entity per
/// node, every drained property attached, each shared binding either seeding
/// an owned component or aliasing its source, the strategies recorded in
/// their side tables, and each child's entity appended under this node's
/// entity in declaration order.
pub fn expand(world: &mut World, template: Template) -> (e: Entity)
    requires
        old(world).wf(),
        old(world).spec_len() + template_size(template) <= u32::MAX,
        range_closed(old(world).tree, 0, old(world).spec_len() as int),
    ensures
        final(world).wf(),
        range_closed(final(world).tree, 0, final(world).spec_len() as int),
        forall|fuel: nat|
            fuel >= template_size(template) ==> pre_node(final(world).tree, e, fuel) == id_seq(
                e as int,
                final(world).spec_len() as int,
            ),
        e == old(world).spec_len(),
        final(world).spec_len() == old(world).spec_len() + template_size(template),
        final(world).tree.parent@[e as int] == e,
        forall|q: int|
            0 <= q < old(world).spec_len() ==> final(world).tree.children@[q]
                == #[trigger] old(world).tree.children@[q],
        forall|q: int|
            0 <= q < old(world).spec_len() ==> final(world).tree.parent@[q]
                == #[trigger] old(world).tree.parent@[q],
        forall|e2: int, t2: CompTag|
            e2 < old(world).spec_len() ==> #[trigger] final(world).store.raw(e2, t2) == old(
                world,
            ).store.raw(e2, t2),
        final(world).layouts@[e as int] == template.layout,
        final(world).shapes@[e as int] == template.shape,
        final(world).handlers@[e as int] == template.event_handlers,
        final(world).states@[e as int] == template.state,
        forall|t2: CompTag|
            #[trigger] final(world).store.raw(e as int, t2) == wired_slot(
                template,
                old(world).store,
                e as int,
                t2,
            ),
        final(world).tree.children@[e as int]@.len() == template.children@.len(),
        forall|j: int|
            0 <= j < template.children@.len() ==> #[trigger] final(world).tree.children@[
            e as int]@[j] == child_entity(e as int, template.children@, j),
        subtree_matches(*final(world), e as int, template),
        forall|q: int|
            0 <= q < old(world).spec_len() ==> final(world).layouts@[q] == #[trigger] old(
                world,
            ).layouts@[q],
        forall|q: int|
            0 <= q < old(world).spec_len() ==> final(world).shapes@[q] == #[trigger] old(
                world,
            ).shapes@[q],
        forall|q: int|
            0 <= q < old(world).spec_len() ==> final(world).handlers@[q] == #[trigger] old(
                world,
            ).handlers@[q],
        forall|q: int|
            0 <= q < old(world).spec_len() ==> final(world).states@[q] == #[trigger] old(
                world,
            ).states@[q],
        final(world).update == old(world).update,
        final(world).running == old(world).running,
        final(world).debug_flag == old(world).debug_flag,
    decreases template,
{
    let ghost t0 = template;
    let Template {
        properties,
        shared_properties,
        layout,
        shape,
        event_handlers,
        state,
        children,
        parent_type: _,
        debug_name: _,
    } = template;
    proof {
        assert(template_size(t0) == 1 + templates_size(t0.children@, 0));
    }
    let e = world.create_entity(layout, shape, event_handlers, state);
    proof {
        assert(range_closed(world.tree, 0, world.spec_len() as int)) by {
            assert forall|x: int, k: int|
                0 <= x < world.spec_len() && 0 <= k < world.tree.children@[x]@.len() implies x
                < #[trigger] world.tree.children@[x]@[k] && (world.tree.children@[x]@[k] as int)
                < world.spec_len() by {
                if x < old(world).spec_len() {
                    assert(world.tree.children@[x] == old(world).tree.children@[x]);
                    assert(range_closed(old(world).tree, 0, old(world).spec_len() as int));
                } else {
                    assert(x == e as int);
                    assert(world.tree.children@[x]@.len() == 0);
                }
            }
        }
    }
    let ghost w1 = *world;
    let ghost store0 = old(world).store;
    let ghost props0 = t0.properties@;
    let mut props = properties;
    let ghost mut pi: int = 0;
    proof {
        assert forall|t2: CompTag| #[trigger] world.store.raw(e as int, t2) is None by {}
    }
    while props.len() > 0
        invariant
            world.wf(),
            (e as int) < world.spec_len(),
            world.spec_len() == w1.spec_len(),
            world.tree == w1.tree,
            world.layouts == w1.layouts,
            world.shapes == w1.shapes,
            world.handlers == w1.handlers,
            world.states == w1.states,
            world.update == w1.update,
            world.running == w1.running,
            world.debug_flag == w1.debug_flag,
            0 <= pi <= props0.len(),
            props@ =~= props0.skip(pi),
            forall|t2: CompTag|
                wired_props(props0, 0, None, t2) == wired_props(
                    props0,
                    pi,
                    #[trigger] world.store.raw(e as int, t2),
                    t2,
                ),
            forall|e2: int, t2: CompTag|
                e2 != e as int ==> #[trigger] world.store.raw(e2, t2) == w1.store.raw(e2, t2),
        decreases props@.len(),
    {
        let c = props.remove(0);
        proof {
            assert(props0.skip(pi)[0] == props0[pi]);
            assert(props@ =~= props0.skip(pi + 1));
        }
        let ghost cval = c;
        let res = world.store.insert(e, c);
        proof {
            assert(res is Ok);
            assert forall|t2: CompTag| wired_props(props0, 0, None, t2) == wired_props(
                props0,
                pi + 1,
                #[trigger] world.store.raw(e as int, t2),
                t2,
            ) by {
                assert(cval == props0[pi]);
            }
            pi = pi + 1;
        }
    }
    proof {
        assert(props0.skip(pi).len() == 0);
        assert forall|t2: CompTag| #[trigger] world.store.raw(e as int, t2) == wired_props(
            props0,
            0,
            None,
            t2,
        ) by {}
    }
    let ghost shared0 = t0.shared_properties@;
    let mut shared = shared_properties;
    let ghost mut si: int = 0;
    while shared.len() > 0
        invariant
            world.wf(),
            (e as int) < world.spec_len(),
            e == old(world).spec_len(),
            store0 == old(world).store,
            world.spec_len() == w1.spec_len(),
            world.tree == w1.tree,
            world.layouts == w1.layouts,
            world.shapes == w1.shapes,
            world.handlers == w1.handlers,
            world.states == w1.states,
            world.update == w1.update,
            world.running == w1.running,
            world.debug_flag == w1.debug_flag,
            0 <= si <= shared0.len(),
            shared@ =~= shared0.skip(si),
            store0.wf(),
            store0.spec_len() == e as int,
            forall|t2: CompTag|
                wired_shared(shared0, 0, store0, e as int, wired_props(props0, 0, None, t2), t2)
                    == wired_shared(
                    shared0,
                    si,
                    store0,
                    e as int,
                    #[trigger] world.store.raw(e as int, t2),
                    t2,
                ),
            forall|e2: int, t2: CompTag|
                e2 != e as int ==> #[trigger] world.store.raw(e2, t2) == w1.store.raw(e2, t2),
            forall|e2: int, t2: CompTag|
                e2 != e as int ==> #[trigger] world.store.raw(e2, t2) == store0.raw(e2, t2),
        decreases shared@.len(),
    {
        let entry = shared.remove(0);
        proof {
            assert(shared0.skip(si)[0] == shared0[si]);
            assert(shared@ =~= shared0.skip(si + 1));
        }
        match entry {
            PropertySource::Value(c) => {
                let ghost cval = c;
                let res = world.store.insert(e, c);
                proof {
                    assert(res is Ok);
                    assert(shared0[si] == PropertySource::Value(cval));
                    assert forall|t2: CompTag| wired_shared(
                        shared0,
                        0,
                        store0,
                        e as int,
                        wired_props(props0, 0, None, t2),
                        t2,
                    ) == wired_shared(
                        shared0,
                        si + 1,
                        store0,
                        e as int,
                        #[trigger] world.store.raw(e as int, t2),
                        t2,
                    ) by {}
                    si = si + 1;
                }
            },
            PropertySource::Source(src, tag) => {
                // a source must already exist; a binding whose source lacks
                // the component leaves the slot as it stands
                if src < e {
                    let ghost pre = world.store;
                    let res = world.store.insert_shared(e, src, tag);
                    proof {
                        assert(pre.resolved(src as int, tag) == store0.resolved(src as int, tag))
                            by {
                            assert(pre.raw(src as int, tag) == store0.raw(src as int, tag));
                            match pre.spec_owner(src as int, tag) {
                                None => {},
                                Some(o) => {
                                    if o != e as int {
                                        assert(pre.raw(o, tag) == store0.raw(o, tag));
                                    } else {
                                        assert(pre.raw(src as int, tag) matches Some(
                                            crate::store::Slot::Shared(oo, _),
                                        ) && oo == e);
                                        crate::store::lemma_shared_target_in_range(
                                            store0,
                                            src as int,
                                            tag,
                                        );
                                        assert(false);
                                    }
                                },
                            }
                        }
                        assert(pre.spec_owner(src as int, tag) == store0.spec_owner(
                            src as int,
                            tag,
                        ));
                        if store0.resolved(src as int, tag) is Some {
                            assert(store0.spec_owner(src as int, tag) is Some);
                            let o = store0.spec_owner(src as int, tag)->0;
                            assert(o != e as int) by {
                                if o == e as int {
                                    crate::store::lemma_raw_tag(store0, src as int, tag);
                                    assert(store0.wf());
                                }
                            }
                            assert(res is Ok);
                            assert(world.store.spec_owner(e as int, tag) == Some(o));
                            crate::store::lemma_raw_tag(world.store, e as int, tag);
                            assert(world.store.raw(e as int, tag) == Some(
                                crate::store::Slot::Shared(o as Entity, tag),
                            )) by {
                                match world.store.raw(e as int, tag) {
                                    Some(crate::store::Slot::Owned(_)) => {
                                        assert(world.store.spec_owner(e as int, tag) == Some(
                                            e as int,
                                        ));
                                        assert(false);
                                    },
                                    Some(crate::store::Slot::Shared(oo, tt)) => {
                                        assert(oo as int == o && tt == tag);
                                        assert(0 <= o < u32::MAX) by {
                                            assert(store0.wf());
                                        }
                                    },
                                    None => {
                                        assert(false);
                                    },
                                }
                            }
                        } else {
                            assert(res is Err);
                            assert(world.store == pre);
                        }
                        assert forall|t2: CompTag| wired_shared(
                            shared0,
                            0,
                            store0,
                            e as int,
                            wired_props(props0, 0, None, t2),
                            t2,
                        ) == wired_shared(
                            shared0,
                            si + 1,
                            store0,
                            e as int,
                            #[trigger] world.store.raw(e as int, t2),
                            t2,
                        ) by {
                            assert(shared0[si] == PropertySource::Source(src, tag));
                            if t2 != tag {
                                assert(world.store.raw(e as int, t2) == pre.raw(e as int, t2));
                            }
                        }
                        si = si + 1;
                    }
                } else {
                    proof {
                        assert(shared0[si] == PropertySource::Source(src, tag));
                        si = si + 1;
                    }
                }
            },
        }
    }
    proof {
        assert(shared0.skip(si).len() == 0);
        assert forall|t2: CompTag| #[trigger] world.store.raw(e as int, t2) == wired_slot(
            t0,
            store0,
            e as int,
            t2,
        ) by {}
        assert(world.tree.parent@[e as int] == e);
    }
    let mut kids = children;
    let ghost base = world.spec_len();
    let ghost orig = t0.children@;
    let ghost mut k: int = 0;
    proof {
        assert(kids@ =~= orig.skip(0));
        assert(world.tree.children@[e as int]@.len() == 0);
        assert forall|fuel: nat| fuel >= 1 implies pre_list(world.tree, e, 0, fuel) == id_seq(
            e as int + 1,
            world.spec_len() as int,
        ) by {
            assert(pre_list(world.tree, e, 0, fuel) =~= Seq::<Entity>::empty());
            assert(id_seq(e as int + 1, world.spec_len() as int) =~= Seq::<Entity>::empty());
        }
    }
    while kids.len() > 0
        invariant
            world.wf(),
            base == old(world).spec_len() + 1,
            e == old(world).spec_len(),
            (e as int) < world.spec_len(),
            world.tree.parent@[e as int] == e,
            orig == t0.children@,
            t0 == template,
            k <= orig.len(),
            0 <= k,
            kids@ =~= orig.skip(k),
            world.spec_len() + templates_size(orig, k) == base + templates_size(orig, 0),
            world.spec_len() + templates_size(orig, k) <= u32::MAX,
            range_closed(world.tree, 0, world.spec_len() as int),
            forall|fuel: nat|
                fuel >= 1 + (templates_size(orig, 0) - templates_size(orig, k)) ==> pre_list(
                    world.tree,
                    e,
                    0,
                    fuel,
                ) == id_seq(e as int + 1, world.spec_len() as int),
            forall|q: int|
                0 <= q < old(world).spec_len() ==> world.tree.children@[q]
                    == #[trigger] old(world).tree.children@[q],
            forall|q: int|
                0 <= q < old(world).spec_len() ==> world.tree.parent@[q]
                    == #[trigger] old(world).tree.parent@[q],
            forall|e2: int, t2: CompTag|
                e2 < old(world).spec_len() ==> #[trigger] world.store.raw(e2, t2) == old(
                    world,
                ).store.raw(e2, t2),
            (e as int) < world.layouts@.len(),
            world.layouts@[e as int] == t0.layout,
            world.shapes@[e as int] == t0.shape,
            world.handlers@[e as int] == t0.event_handlers,
            world.states@[e as int] == t0.state,
            store0 == old(world).store,
            forall|t2: CompTag|
                #[trigger] world.store.raw(e as int, t2) == wired_slot(t0, store0, e as int, t2),
            world.tree.children@[e as int]@.len() == k,
            forall|j: int|
                0 <= j < k ==> #[trigger] world.tree.children@[e as int]@[j] == child_entity(
                    e as int,
                    orig,
                    j,
                ),
            forall|j: int|
                0 <= j < k ==> subtree_matches(
                    *world,
                    #[trigger] child_entity(e as int, orig, j) as int,
                    orig[j],
                ),
            forall|q: int|
                0 <= q < old(world).spec_len() ==> world.layouts@[q] == #[trigger] old(
                    world,
                ).layouts@[q],
            forall|q: int|
                0 <= q < old(world).spec_len() ==> world.shapes@[q] == #[trigger] old(
                    world,
                ).shapes@[q],
            forall|q: int|
                0 <= q < old(world).spec_len() ==> world.handlers@[q] == #[trigger] old(
                    world,
                ).handlers@[q],
            forall|q: int|
                0 <= q < old(world).spec_len() ==> world.states@[q] == #[trigger] old(
                    world,
                ).states@[q],
            world.update == old(world).update,
            world.running == old(world).running,
            world.debug_flag == old(world).debug_flag,
        decreases kids@.len(),
    {
        let child_t = kids.remove(0);
        proof {
            assert(orig.skip(k)[0] == orig[k]);
            assert(child_t == orig[k]);
            assert(kids@ =~= orig.skip(k + 1));
            assert(templates_size(orig, k) == template_size(orig[k]) + templates_size(
                orig,
                k + 1,
            ));
            assert(decreases_to!(t0 => t0.children));
            vstd::std_specs::vec::axiom_vec_decreases_to_view(t0.children);
            vstd::seq::axiom_seq_index_decreases(t0.children@, k);
            assert(decreases_to!(t0 => child_t));
        }
        let ghost w_before = *world;
        let c = expand(world, child_t);
        let ghost w_mid = *world;
        let res = world.tree.append_child(e, c);
        proof {
            assert(res is Ok);
            let t_mid = w_mid.tree;
            let t_new = world.tree;
            let len_mid = w_mid.spec_len() as int;
            let len_new = world.spec_len() as int;
            assert(len_new == len_mid);
            // the append keeps the closed shape: the new entry points up
            assert(range_closed(t_new, 0, len_new)) by {
                assert forall|x: int, kk: int|
                    0 <= x < len_new && 0 <= kk < t_new.children@[x]@.len() implies x
                    < #[trigger] t_new.children@[x]@[kk] && (t_new.children@[x]@[kk] as int)
                    < len_new by {
                    if x == e as int {
                        if kk < t_mid.children@[x]@.len() {
                            assert(t_new.children@[x]@[kk] == t_mid.children@[x]@[kk]);
                        } else {
                            assert(t_new.children@[x]@[kk] == c);
                        }
                    } else {
                        assert(t_new.children@[x] == t_mid.children@[x]);
                    }
                }
            }
            let processed_next = 1 + (templates_size(orig, 0) - templates_size(orig, k + 1));
            assert forall|fuel: nat| fuel >= processed_next implies pre_list(t_new, e, 0, fuel)
                == id_seq(e as int + 1, len_new) by {
                let szc = template_size(orig[k]);
                assert(fuel >= 1 + (templates_size(orig, 0) - templates_size(orig, k)) + szc);
                assert(fuel > 0);
                // the old child listing is unchanged by the child's expansion
                lemma_pre_list_frame(
                    w_before.tree,
                    t_mid,
                    e as int,
                    0,
                    0,
                    w_before.spec_len() as int,
                    fuel,
                );
                assert(pre_list(t_mid, e, 0, fuel) == id_seq(e as int + 1, c as int));
                // appending the child appends the child's subtree listing
                lemma_pre_list_append(t_mid, t_new, e as int, c, 0, fuel);
                // the child's subtree is untouched by the append
                assert(range_closed(t_new, e as int + 1, len_new)) by {
                    assert forall|x: int, kk: int|
                        e as int + 1 <= x < len_new && 0 <= kk < t_new.children@[x]@.len() implies x
                        < #[trigger] t_new.children@[x]@[kk] && (t_new.children@[x]@[kk] as int)
                        < len_new by {
                        assert(range_closed(t_new, 0, len_new));
                    }
                }
                lemma_pre_node_frame(
                    t_new,
                    t_mid,
                    c as int,
                    e as int + 1,
                    len_new,
                    (fuel - 1) as nat,
                );
                assert(pre_node(t_mid, c, (fuel - 1) as nat) == id_seq(c as int, len_mid));
                lemma_id_seq_concat(e as int + 1, c as int, len_new);
            }
            // earlier children's matched subtrees survive the sibling's
            // expansion and the append: both leave their entity ranges alone
            let szc = template_size(orig[k]);
            assert(c as int == child_entity(e as int, orig, k));
            assert forall|j: int| 0 <= j < k + 1 implies subtree_matches(
                *world,
                #[trigger] child_entity(e as int, orig, j) as int,
                orig[j],
            ) by {
                lemma_templates_size_mono(orig, 0, j);
                lemma_templates_size_mono(orig, j, k);
                if j < k {
                    lemma_templates_size_mono(orig, j + 1, k);
                }
                assert(templates_size(orig, j) == template_size(orig[j]) + templates_size(
                    orig,
                    j + 1,
                ));
                let cj = child_entity(e as int, orig, j) as int;
                if j < k {
                    assert(cj + template_size(orig[j]) <= w_before.spec_len());
                    lemma_subtree_matches_frame(w_before, w_mid, cj, orig[j]);
                    lemma_subtree_matches_frame(w_mid, *world, cj, orig[j]);
                } else {
                    assert(cj == c as int);
                    lemma_subtree_matches_frame(w_mid, *world, cj, orig[j]);
                }
            }
            k = k + 1;
        }
    }
    proof {
        assert(orig.skip(k).len() == 0);
        assert(templates_size(orig, k) == 0);
        assert forall|fuel: nat| fuel >= template_size(t0) implies pre_node(world.tree, e, fuel)
            == id_seq(e as int, world.spec_len() as int) by {
            assert(fuel >= 1 + templates_size(orig, 0));
            assert(pre_list(world.tree, e, 0, fuel) == id_seq(
                e as int + 1,
                world.spec_len() as int,
            ));
            assert(pre_node(world.tree, e, fuel) == seq![e] + pre_list(world.tree, e, 0, fuel));
            assert(seq![e] =~= id_seq(e as int, e as int + 1));
            lemma_id_seq_concat(e as int, e as int + 1, world.spec_len() as int);
        }
        lemma_children_match_from_forall(*world, e as int, orig, 0);
        assert(subtree_matches(*world, e as int, t0));
    }
    e
}

/// Builds the widget tree of a window: the root template expanded into the
/// world, node by node in pre-order.
pub fn build_tree(world: &mut World, root: Template)
    requires
        old(world).wf(),
        old(world).spec_len() + template_size(root) <= u32::MAX,
        range_closed(old(world).tree, 0, old(world).spec_len() as int),
    ensures
        final(world).wf(),
        final(world).spec_len() == old(world).spec_len() + template_size(root),
        range_closed(final(world).tree, 0, final(world).spec_len() as int),
        final(world).update == old(world).update,
        final(world).running == old(world).running,
        final(world).debug_flag == old(world).debug_flag,
        forall|e2: int, t2: CompTag|
            e2 < old(world).spec_len() ==> #[trigger] final(world).store.raw(e2, t2) == old(
                world,
            ).store.raw(e2, t2),
        forall|q: int|
            0 <= q < old(world).spec_len() ==> final(world).layouts@[q] == #[trigger] old(
                world,
            ).layouts@[q],
        forall|q: int|
            0 <= q < old(world).spec_len() ==> final(world).shapes@[q] == #[trigger] old(
                world,
            ).shapes@[q],
        (old(world).spec_len() == 1 && old(world).tree.children@[0]@.len() == 0)
            ==> spec_pre_order(final(world).tree) == id_seq(
            0,
            final(world).spec_len() as int,
        ),
        subtree_matches(*final(world), old(world).spec_len() as int, root),
{
    let ghost was_fresh = old(world).spec_len() == 1 && old(world).tree.children@[0]@.len() == 0;
    let root_entity = expand(world, root);
    let ghost w_expanded = *world;
    let ghost t_mid = world.tree;
    // the second entity ever created becomes the child of the window root
    if root_entity == 1 {
        let r = world.tree.root();
        let res = world.tree.append_child(r, root_entity);
        proof {
            assert(res is Ok);
            let t_new = world.tree;
            let len_new = world.spec_len() as int;
            assert(range_closed(t_new, 0, len_new)) by {
                assert forall|x: int, kk: int|
                    0 <= x < len_new && 0 <= kk < t_new.children@[x]@.len() implies x
                    < #[trigger] t_new.children@[x]@[kk] && (t_new.children@[x]@[kk] as int)
                    < len_new by {
                    if x == 0 {
                        if kk < t_mid.children@[0]@.len() {
                            assert(t_new.children@[x]@[kk] == t_mid.children@[0]@[kk]);
                        } else {
                            assert(t_new.children@[x]@[kk] == 1);
                        }
                    } else {
                        assert(t_new.children@[x] == t_mid.children@[x]);
                    }
                }
            }
            if was_fresh {
                let fuel = (world.spec_len() + 1) as nat;
                assert(t_mid.children@[0]@.len() == 0);
                assert(fuel >= 1 + template_size(root));
                assert(pre_list(t_mid, 0, 0, fuel) =~= Seq::<Entity>::empty());
                lemma_pre_list_append(t_mid, t_new, 0, 1, 0, fuel);
                assert(range_closed(t_new, 1, len_new)) by {
                    assert forall|x: int, kk: int|
                        1 <= x < len_new && 0 <= kk < t_new.children@[x]@.len() implies x
                        < #[trigger] t_new.children@[x]@[kk] && (t_new.children@[x]@[kk] as int)
                        < len_new by {
                        assert(range_closed(t_new, 0, len_new));
                    }
                }
                lemma_pre_node_frame(t_new, t_mid, 1, 1, len_new, (fuel - 1) as nat);
                assert(pre_node(t_mid, 1, (fuel - 1) as nat) == id_seq(1, len_new));
                assert(pre_list(t_new, 0, 0, fuel) =~= id_seq(1, len_new));
                assert(pre_node(t_new, 0, fuel) == seq![0u32] + pre_list(t_new, 0, 0, fuel));
                assert(seq![0u32] =~= id_seq(0, 1));
                lemma_id_seq_concat(0, 1, len_new);
                assert(spec_pre_order(t_new) == pre_node(t_new, 0, fuel));
            }
            // the root template's subtree starts at entity 1 and the append
            // touched only the window's own child list
            lemma_subtree_matches_frame(
                w_expanded,
                *world,
                root_entity as int,
                root,
            );
        }
    } else {
        proof {
            if was_fresh {
                assert(false);
            }
        }
    }
}

/// Extending an event prefix by one event extends what it holds.
proof fn lemma_event_prefix_step(events: Seq<Event>, i: int)
    requires
        0 <= i < events.len(),
    ensures
        has_quit(events.take(i + 1)) == (has_quit(events.take(i)) || events[i] is Quit),
        has_input(events.take(i + 1)) == (has_input(events.take(i)) || !(events[i] is Quit)),
{
    if has_quit(events.take(i)) {
        let j = choose|j: int|
            0 <= j < events.take(i).len() && (#[trigger] events.take(i)[j]) is Quit;
        assert(events.take(i + 1)[j] is Quit);
    }
    if events[i] is Quit {
        assert(events.take(i + 1)[i] is Quit);
    }
    if has_quit(events.take(i + 1)) {
        let j = choose|j: int|
            0 <= j < events.take(i + 1).len() && (#[trigger] events.take(i + 1)[j]) is Quit;
        if j < i {
            assert(events.take(i)[j] is Quit);
        }
    }
    if has_input(events.take(i)) {
        let j = choose|j: int|
            0 <= j < events.take(i).len() && !((#[trigger] events.take(i)[j]) is Quit);
        assert(!(events.take(i + 1)[j] is Quit));
    }
    if !(events[i] is Quit) {
        assert(!(events.take(i + 1)[i] is Quit));
    }
    if has_input(events.take(i + 1)) {
        let j = choose|j: int|
            0 <= j < events.take(i + 1).len() && !((#[trigger] events.take(i + 1)[j]) is Quit);
        if j < i {
            assert(!(events.take(i)[j] is Quit));
        }
    }
}

/// The keys typed by an event list, in order.
pub open spec fn keys_of(events: Seq<Event>) -> Seq<Key>
    decreases events.len(),
{
    if events.len() == 0 {
        Seq::empty()
    } else {
        keys_of(events.drop_last()) + (match events.last() {
            Event::Key(k) => seq![k],
            _ => Seq::empty(),
        })
    }
}

/// Whether the event list holds a quit request.
pub open spec fn has_quit(events: Seq<Event>) -> bool {
    exists|i: int| 0 <= i < events.len() && events[i] is Quit
}

/// Whether the event list holds any input event.
pub open spec fn has_input(events: Seq<Event>) -> bool {
    exists|i: int| 0 <= i < events.len() && !(events[i] is Quit)
}

/// The event phase: a quit request stops the pipeline; any input event marks
/// the world dirty and queues keys for the focused widget.
pub struct EventSystem;

impl EventSystem {
    /// Dispatches a frame's events.
    pub fn run(&self, world: &mut World, events: &Vec<Event>)
        requires
            old(world).wf(),
        ensures
            final(world).wf(),
            final(world).spec_len() == old(world).spec_len(),
            final(world).running == (old(world).running && !has_quit(events@)),
            final(world).update == (old(world).update || has_input(events@)),
            final(world).pending_keys@ == old(world).pending_keys@ + keys_of(events@),
            final(world).store == old(world).store,
            final(world).tree == old(world).tree,
    {
        let n = events.len();
        let mut i: usize = 0;
        while i < n
            invariant
                world.wf(),
                i <= n,
                n == events@.len(),
                world.spec_len() == old(world).spec_len(),
                world.store == old(world).store,
                world.tree == old(world).tree,
                world.running == (old(world).running && !has_quit(events@.take(i as int))),
                world.update == (old(world).update || has_input(events@.take(i as int))),
                world.pending_keys@ == old(world).pending_keys@ + keys_of(
                    events@.take(i as int),
                ),
                world.debug_flag == old(world).debug_flag,
                world.localization == old(world).localization,
                world.layouts == old(world).layouts,
                world.shapes == old(world).shapes,
                world.handlers == old(world).handlers,
                world.states == old(world).states,
                world.messages == old(world).messages,
            decreases n - i,
        {
            proof {
                lemma_event_prefix_step(events@, i as int);
                assert(events@.take(i + 1int).drop_last() =~= events@.take(i as int));
                assert(events@.take(i + 1int).last() == events@[i as int]);
            }
            match &events[i] {
                Event::Quit => {
                    world.running = false;
                },
                Event::Key(k) => {
                    world.pending_keys.push(k.clone());
                    world.update = true;
                    proof {
                        assert(world.pending_keys@ =~= old(world).pending_keys@ + keys_of(
                            events@.take(i + 1int),
                        ));
                    }
                },
                Event::Mouse { .. } => {
                    world.update = true;
                },
            }
            i = i + 1;
        }
        proof {
            assert(events@.take(n as int) =~= events@);
        }
    }
}

/// One window: its world, its theme, and whether the shell may resize it.
pub struct Window {
    pub world: World,
    pub theme: Theme,
    pub resizable: bool,
}

/// Defines and builds a window: its bounds, title, theme, root template and
/// flags.
pub struct WindowBuilder {
    pub bounds: Bounds,
    pub title: String,
    pub theme: Theme,
    pub root: Option<Template>,
    pub resizable: bool,
    pub debug_flag: bool,
}

impl WindowBuilder {
    /// A fresh builder: empty bounds and title, the default theme, no root.
    pub fn new() -> (r: WindowBuilder)
        ensures
            r.root is None,
            !r.resizable,
            !r.debug_flag,
            r.bounds == (Bounds { x: 0, y: 0, width: 0u32, height: 0u32 }),
    {
        WindowBuilder {
            bounds: Bounds { x: 0, y: 0, width: 0, height: 0 },
            title: String::new(),
            theme: Theme::new(),
            root: None,
            resizable: false,
            debug_flag: false,
        }
    }

    /// Sets the render bounds of the window.
    pub fn with_bounds(self, bounds: Bounds) -> (r: WindowBuilder)
        ensures
            r == (WindowBuilder { bounds, ..self }),
    {
        WindowBuilder { bounds, ..self }
    }

    /// Sets the title of the window.
    pub fn with_title(self, title: String) -> (r: WindowBuilder)
        ensures
            r == (WindowBuilder { title, ..self }),
    {
        WindowBuilder { title, ..self }
    }

    /// Sets the theme of the window.
    pub fn with_theme(self, theme: Theme) -> (r: WindowBuilder)
        ensures
            r == (WindowBuilder { theme, ..self }),
    {
        WindowBuilder { theme, ..self }
    }

    /// Sets the root template of the window.
    pub fn with_root(self, root: Template) -> (r: WindowBuilder)
        ensures
            r == (WindowBuilder { root: Some(root), ..self }),
    {
        WindowBuilder { root: Some(root), ..self }
    }

    /// Sets whether the window is resizable.
    pub fn with_resizable(self, resizable: bool) -> (r: WindowBuilder)
        ensures
            r == (WindowBuilder { resizable, ..self }),
    {
        WindowBuilder { resizable, ..self }
    }

    /// Sets the debug overlay flag of the window.
    pub fn with_debug_flag(self, debug: bool) -> (r: WindowBuilder)
        ensures
            r == (WindowBuilder { debug_flag: debug, ..self }),
    {
        WindowBuilder { debug_flag: debug, ..self }
    }

    /// Builds the window: the window-root entity is created first with the
    /// global singleton, the window bounds, a position, the `window`
    /// selector and a rectangle shape; the root template is then expanded
    /// under it.
    pub fn build(self) -> (w: Window)
        requires
            (match self.root {
                Some(t) => 1 + template_size(t) <= u32::MAX,
                None => true,
            }),
        ensures
            w.world.wf(),
            w.world.spec_len() == 1 + (match self.root {
                Some(t) => template_size(t),
                None => 0,
            }),
            w.world.update,
            w.world.running,
            w.resizable == self.resizable,
            w.world.debug_flag == self.debug_flag,
            spec_pre_order(w.world.tree) == id_seq(0, w.world.spec_len() as int),
            // the window-root entity carries the global singleton, the
            // window bounds, a seed position and the `window` selector
            (match w.world.store.resolved(0, CompTag::Global) {
                Some(Component::Global(g)) => g.focused_widget is None
                    && crate::theme::theme_view(g.theme) == crate::theme::theme_view(self.theme),
                _ => false,
            }),
            w.world.store.resolved(0, CompTag::Bounds) == Some(Component::Bounds(self.bounds)),
            w.world.store.resolved(0, CompTag::Position) == Some(
                Component::Position(Point { x: 0i32, y: 0i32 }),
            ),
            (match w.world.store.resolved(0, CompTag::Selector) {
                Some(Component::Selector(sel)) => sel.element is Some && sel.element->0@
                    == "window"@ && sel.id is None && sel.classes@.len() == 0
                    && sel.pseudo_classes@.len() == 0 && sel.relation is None,
                _ => false,
            }),
            w.world.shapes@[0] == Some(crate::render::ShapeKind::Rectangle),
            w.world.layouts@[0] == LayoutStrategy::Default(DefaultLayoutObject),
            // the root template's whole subtree, node by node, hangs at
            // entity 1
            (match self.root {
                Some(t) => subtree_matches(w.world, 1, t),
                None => true,
            }),
    {
        let WindowBuilder { bounds, title: _, theme, root, resizable, debug_flag } = self;
        let mut world = World::new();
        world.debug_flag = debug_flag;
        let window_entity = world.create_entity(
            LayoutStrategy::Default(DefaultLayoutObject),
            Some(ShapeKind::Rectangle),
            Vec::new(),
            None,
        );
        let theme_copy = crate::theme::clone_theme(&theme);
        let r1 = world.store.insert(
            window_entity,
            Component::Global(Global { theme: theme_copy, focused_widget: None }),
        );
        let r2 = world.store.insert(window_entity, Component::Bounds(bounds));
        let r3 = world.store.insert(window_entity, Component::Position(Point { x: 0, y: 0 }));
        let r4 = world.store.insert(
            window_entity,
            Component::Selector(
                crate::selector::Selector::new().with(
                    <String as vstd::string::StringExecFns>::from_str("window"),
                ),
            ),
        );
        proof {
            assert(r1 is Ok && r2 is Ok && r3 is Ok && r4 is Ok);
        }
        proof {
            assert(world.tree.children@[0]@.len() == 0);
            assert(range_closed(world.tree, 0, 1)) by {
                assert forall|x: int, kk: int|
                    0 <= x < 1 && 0 <= kk < world.tree.children@[x]@.len() implies x
                    < #[trigger] world.tree.children@[x]@[kk] && (world.tree.children@[x]@[
                    kk] as int) < 1 by {
                    assert(world.tree.children@[0]@.len() == 0);
                }
            }
        }
        proof {
            assert(world.layouts@[0] == LayoutStrategy::Default(DefaultLayoutObject));
            assert(world.shapes@[0] == Some(crate::render::ShapeKind::Rectangle));
        }
        match root {
            Some(t) => {
                build_tree(&mut world, t);
                proof {
                    assert(world.layouts@[0] == LayoutStrategy::Default(DefaultLayoutObject));
                    assert(world.shapes@[0] == Some(crate::render::ShapeKind::Rectangle));
                }
            },
            None => {
                proof {
                    let t = world.tree;
                    let fuel = (world.spec_len() + 1) as nat;
                    assert(pre_list(t, 0, 0, fuel) =~= Seq::<Entity>::empty());
                    assert(pre_node(t, 0, fuel) =~= seq![0u32]);
                    assert(pre_node(t, 0, fuel) =~= id_seq(0, 1));
                    assert(spec_pre_order(t) == pre_node(t, 0, fuel));
                }
            },
        }
        Window { world, theme, resizable }
    }
}

impl Window {
    /// Runs one frame tick: events, state, layout, post-layout state and
    /// render, in fixed priority order, gated by the dirty flag. A stopped
    /// window paints nothing; a clean world skips the expensive phases.
    pub fn run_tick(&mut self, events: &Vec<Event>, window_size: (u32, u32)) -> (r: Vec<
        RenderCommand,
    >)
        requires
            old(self).world.wf(),
        ensures
            final(self).world.wf(),
            !old(self).world.running ==> r@ =~= Seq::<RenderCommand>::empty() && *final(self)
                == *old(self),
            old(self).world.running ==> final(self).world.running == !has_quit(events@),
            old(self).world.running && !old(self).world.update && !has_input(events@) ==> r@
                =~= Seq::<RenderCommand>::empty(),
            (old(self).world.running && (old(self).world.update || has_input(events@))) ==> ({
                let w = final(self).world;
                &&& !w.update
                &&& r@ == seq![RenderCommand::Clear] + crate::render::render_walk(
                    w.store,
                    w.tree,
                    w.shapes@,
                    w.debug_flag,
                    spec_pre_order(w.tree),
                    0,
                    crate::render::zero_offsets(w.tree.spec_len()),
                ).0
            }),
    {
        if !self.world.running {
            return Vec::new();
        }
        let ev = EventSystem;
        ev.run(&mut self.world, events);
        if !self.world.update {
            return Vec::new();
        }
        // this tick is dirty: the expensive phases all run
        let ghost r0 = self.world.running;
        let mut mi: usize = 0;
        while mi < events.len()
            invariant
                self.world.wf(),
                mi <= events@.len(),
                self.world.running == r0,
            decreases events@.len() - mi,
        {
            match &events[mi] {
                Event::Mouse { x, y, pressed } => {
                    if *pressed {
                        crate::widgets::dispatch_mouse(&mut self.world, *x, *y);
                    }
                },
                _ => {},
            }
            mi = mi + 1;
        }
        let st = StateSystem;
        st.run(&mut self.world);
        let mut keys: Vec<Key> = Vec::new();
        core::mem::swap(&mut keys, &mut self.world.pending_keys);
        crate::widgets::dispatch_keys(&mut self.world, &keys);
        let ls = LayoutSystem;
        ls.run(
            &mut self.world.store,
            &self.world.tree,
            &self.world.layouts,
            &self.theme,
            window_size,
            true,
        );
        let pl = PostLayoutStateSystem;
        pl.run(&mut self.world);
        let rs = RenderSystem;
        let ghost pre_render = self.world.store;
        let cmds = rs.run(
            &mut self.world.store,
            &self.world.tree,
            &self.world.shapes,
            true,
            self.world.debug_flag,
        );
        proof {
            crate::render::lemma_render_walk_congruent(
                pre_render,
                self.world.store,
                self.world.tree,
                self.world.shapes@,
                self.world.debug_flag,
                spec_pre_order(self.world.tree),
                0,
                crate::render::zero_offsets(self.world.tree.spec_len()),
            );
        }
        self.world.update = false;
        cmds
    }
}

/// Tree traversal determinism: two windows built over templates that expand
/// to the same number of entities visit their entities in the same
/// structural pre-order — the order of creation — whatever the templates
/// put on them. Two builds of the same template expand to the same number of
/// entities, so their traversals agree.
pub proof fn lemma_build_structure_deterministic(w1: Window, w2: Window)
    requires
        spec_pre_order(w1.world.tree) == id_seq(0, w1.world.spec_len() as int),
        spec_pre_order(w2.world.tree) == id_seq(0, w2.world.spec_len() as int),
        w1.world.spec_len() == w2.world.spec_len(),
    ensures
        spec_pre_order(w1.world.tree) == spec_pre_order(w2.world.tree),
{
}

/// The state phase: every entity's state object reads its messages and
/// updates its components.
pub struct StateSystem;

impl StateSystem {
    /// Runs each entity's state update; a clean world skips all work.
    pub fn run(&self, world: &mut World)
        requires
            old(world).wf(),
        ensures
            final(world).wf(),
            final(world).running == old(world).running,
            !old(world).update ==> *final(world) == *old(world),
    {
        if !world.update {
            return ;
        }
        crate::widgets::dispatch_update(world);
    }
}

/// The post-layout state phase: state objects that read the laid-out bounds
/// run after layout and before render.
pub struct PostLayoutStateSystem;

impl PostLayoutStateSystem {
    /// Runs each entity's post-layout update; a clean world skips all work.
    pub fn run(&self, world: &mut World)
        requires
            old(world).wf(),
        ensures
            final(world).wf(),
            final(world).running == old(world).running,
            !old(world).update ==> *final(world) == *old(world),
    {
        if !world.update {
            return ;
        }
        crate::widgets::dispatch_update_post_layout(world);
    }
}

} // verus!
