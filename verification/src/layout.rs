//! The layout engine: per-entity pluggable strategies negotiating available
//! space top-down and reporting used size bottom-up through a two-phase
//! request/report protocol.

use vstd::prelude::*;
use crate::selector::Selector;
use crate::store::{CompTag, Component, ComponentStore};
use crate::structs::{Bounds, Constraint, Padding, clamp_neg};
use crate::theme::{Theme, spec_uint};
use crate::tree::{Entity, Tree};

verus! {

/// What one strategy call answers: a terminal size for the entity, or a
/// request to lay out a child under a narrowed constraint first.
#[derive(Clone, Copy, Debug)]
pub enum LayoutResult {
    Size((u32, u32)),
    RequestChild(Entity, Constraint),
}

/// The selector component of an entity, when it carries one.
pub open spec fn entity_selector(store: ComponentStore, e: int) -> Option<Selector> {
    match store.resolved(e, CompTag::Selector) {
        Some(Component::Selector(sel)) => Some(sel),
        _ => None,
    }
}

/// The bounds component of an entity, when it carries one.
pub open spec fn entity_bounds(store: ComponentStore, e: int) -> Option<Bounds> {
    match store.resolved(e, CompTag::Bounds) {
        Some(Component::Bounds(b)) => Some(b),
        _ => None,
    }
}

/// The inherited constraint with the entity's themed minimum, maximum and
/// fixed extents overlaid; a themed fixed width or height pins both bounds,
/// winning over the inherited maximum.
pub open spec fn overlay_constraint(t: Theme, sel_opt: Option<Selector>, c: Constraint)
    -> Constraint {
    match sel_opt {
        None => c,
        Some(sel) => {
            let minw = spec_uint(t, "min-width"@, sel);
            let maxw = spec_uint(t, "max-width"@, sel);
            let minh = spec_uint(t, "min-height"@, sel);
            let maxh = spec_uint(t, "max-height"@, sel);
            let w = spec_uint(t, "width"@, sel);
            let h = spec_uint(t, "height"@, sel);
            let c1 = Constraint {
                min_width: if minw > 0 {
                    minw
                } else {
                    c.min_width
                },
                max_width: if maxw > 0 {
                    maxw
                } else {
                    c.max_width
                },
                min_height: if minh > 0 {
                    minh
                } else {
                    c.min_height
                },
                max_height: if maxh > 0 {
                    maxh
                } else {
                    c.max_height
                },
                ..c
            };
            Constraint {
                min_width: if w > 0 {
                    w
                } else {
                    c1.min_width
                },
                max_width: if w > 0 {
                    w
                } else {
                    c1.max_width
                },
                min_height: if h > 0 {
                    h
                } else {
                    c1.min_height
                },
                max_height: if h > 0 {
                    h
                } else {
                    c1.max_height
                },
                ..c1
            }
        },
    }
}

/// The padding the theme assigns an entity: the uniform `padding` when it is
/// set, else the four per-side insets; an entity without a selector keeps
/// the default (empty) padding.
pub open spec fn spec_themed_padding(t: Theme, store: ComponentStore, e: int) -> Padding {
    match entity_selector(store, e) {
        None => Padding { left: 0u32, top: 0u32, right: 0u32, bottom: 0u32 },
        Some(sel) => {
            let pad = spec_uint(t, "padding"@, sel);
            if pad > 0 {
                Padding { left: pad, top: pad, right: pad, bottom: pad }
            } else {
                Padding {
                    left: spec_uint(t, "padding-left"@, sel),
                    top: spec_uint(t, "padding-top"@, sel),
                    right: spec_uint(t, "padding-right"@, sel),
                    bottom: spec_uint(t, "padding-bottom"@, sel),
                }
            }
        },
    }
}

/// An unsigned value less an inset, clamped at zero: a constraint never goes
/// negative.
pub open spec fn sub_inset(a: u32, l: u32, r: u32) -> u32 {
    clamp_neg(a - l - r)
}

/// The constraint a padding decorator hands its child: every extent of the
/// inherited constraint less the horizontal or vertical insets, clamped at
/// zero.
pub open spec fn child_constraint(c: Constraint, pad: Padding) -> Constraint {
    Constraint {
        min_width: sub_inset(c.min_width, pad.left, pad.right),
        max_width: sub_inset(c.max_width, pad.left, pad.right),
        width: sub_inset(c.width, pad.left, pad.right),
        min_height: sub_inset(c.min_height, pad.top, pad.bottom),
        max_height: sub_inset(c.max_height, pad.top, pad.bottom),
        height: sub_inset(c.height, pad.top, pad.bottom),
    }
}

/// A padding inset larger than the available extent clamps the child
/// constraint to zero, never below; and a child constraint never exceeds the
/// inherited one.
pub proof fn lemma_negative_constraint_clamp(c: Constraint, pad: Padding)
    ensures
        ({
            let cc = child_constraint(c, pad);
            &&& (pad.left + pad.right >= c.max_width ==> cc.max_width == 0)
            &&& (pad.top + pad.bottom >= c.max_height ==> cc.max_height == 0)
            &&& cc.max_width <= c.max_width
            &&& cc.max_height <= c.max_height
            &&& cc.min_width <= c.min_width
            &&& cc.min_height <= c.min_height
        }),
{
}

/// A sum clamped into the unsigned 32-bit range.
pub open spec fn sat_add3(a: u32, b: u32, c: u32) -> u32 {
    if a + b + c > u32::MAX {
        u32::MAX
    } else {
        (a + b + c) as u32
    }
}

/// A nonnegative value clamped into the signed 32-bit range.
pub open spec fn u32_as_i32(v: u32) -> i32 {
    if v > i32::MAX {
        i32::MAX
    } else {
        v as i32
    }
}

fn sub_inset_exec(a: u32, l: u32, r: u32) -> (res: u32)
    ensures
        res == sub_inset(a, l, r),
{
    let inset = l as u64 + r as u64;
    if (a as u64) > inset {
        (a as u64 - inset) as u32
    } else {
        0
    }
}

pub fn sat_add3_exec(a: u32, b: u32, c: u32) -> (res: u32)
    ensures
        res == sat_add3(a, b, c),
{
    let s = a as u64 + b as u64 + c as u64;
    if s > u32::MAX as u64 {
        u32::MAX
    } else {
        s as u32
    }
}

fn u32_as_i32_exec(v: u32) -> (res: i32)
    ensures
        res == u32_as_i32(v),
{
    if v > i32::MAX as u32 {
        i32::MAX
    } else {
        v as i32
    }
}

/// Reads the themed padding of an entity.
pub fn themed_padding(theme: &Theme, store: &ComponentStore, e: Entity) -> (r: Padding)
    requires
        store.wf(),
    ensures
        r == spec_themed_padding(*theme, *store, e as int),
{
    proof {
        if store.resolved(e as int, CompTag::Selector) is Some {
            crate::store::lemma_resolved_tag(*store, e as int, CompTag::Selector);
        }
    }
    match store.borrow(e, CompTag::Selector) {
        Ok(Component::Selector(sel)) => {
            let pad = theme.uint("padding", sel);
            if pad > 0 {
                Padding { left: pad, top: pad, right: pad, bottom: pad }
            } else {
                Padding {
                    left: theme.uint("padding-left", sel),
                    top: theme.uint("padding-top", sel),
                    right: theme.uint("padding-right", sel),
                    bottom: theme.uint("padding-bottom", sel),
                }
            }
        },
        Ok(_) => vstd::pervasive::unreached(),
        Err(_) => Padding { left: 0, top: 0, right: 0, bottom: 0 },
    }
}

/// The identity strategy: it hands its constraint through to its single
/// child and reports the child's size clamped, or fills the maximum bounds
/// when it has no child.
#[derive(Clone, Copy, PartialEq, Eq, Structural, Debug)]
pub struct DefaultLayoutObject;

impl DefaultLayoutObject {
    /// One step of the identity protocol.
    pub fn layout(
        &self,
        constraint: &Constraint,
        children: &Vec<Entity>,
        size: Option<(u32, u32)>,
    ) -> (r: LayoutResult)
        ensures
            r == (match size {
                Some(sz) => LayoutResult::Size(constraint.spec_perform(sz)),
                None => if children@.len() == 0 {
                    LayoutResult::Size((constraint.max_width, constraint.max_height))
                } else {
                    LayoutResult::RequestChild(children@[0], *constraint)
                },
            }),
    {
        match size {
            Some(sz) => LayoutResult::Size(constraint.perform(sz)),
            None => {
                if children.len() == 0 {
                    LayoutResult::Size((constraint.max_width, constraint.max_height))
                } else {
                    LayoutResult::RequestChild(children[0], *constraint)
                }
            },
        }
    }
}

/// The single-child decorator strategy: it subtracts its themed inset from
/// the constraint before delegating to its child, then adds the inset back
/// onto the child's reported size and repositions the child by the inset.
#[derive(Clone, Copy, PartialEq, Eq, Structural, Debug)]
pub struct PaddingLayoutObject;

impl PaddingLayoutObject {
    /// One step of the padding protocol. With no size fed back yet, a
    /// childless entity greedily fills the maximum bounds (a themed fixed
    /// width or height overriding), and an entity with a child asks for the
    /// child under the inset-narrowed constraint. With the child's size fed
    /// back, the child is placed at the inset origin and the inset-padded
    /// size is reported, clamped into the constraint; a nonzero preferred
    /// extent of the constraint wins over the padded child extent.
    pub fn layout(
        &self,
        entity: Entity,
        store: &mut ComponentStore,
        constraint: &Constraint,
        children: &Vec<Entity>,
        size: Option<(u32, u32)>,
        theme: &Theme,
    ) -> (r: LayoutResult)
        requires
            old(store).wf(),
        ensures
            final(store).wf(),
            final(store).spec_len() == old(store).spec_len(),
            forall|e2: int, t2: CompTag|
                t2 != CompTag::Bounds ==> #[trigger] final(store).resolved(e2, t2) == old(
                    store,
                ).resolved(e2, t2),
            forall|e2: int|
                #[trigger] final(store).resolved(e2, CompTag::Bounds) is Some <==> old(
                    store,
                ).resolved(e2, CompTag::Bounds) is Some,
            ({
                let pad = spec_themed_padding(*theme, *old(store), entity as int);
                match size {
                    None => {
                        &&& *final(store) == *old(store)
                        &&& (if children@.len() == 0 {
                            let sel = entity_selector(*old(store), entity as int);
                            let tw = (match sel {
                                Some(s) => spec_uint(*theme, "width"@, s),
                                None => 0u32,
                            });
                            let th = (match sel {
                                Some(s) => spec_uint(*theme, "height"@, s),
                                None => 0u32,
                            });
                            r == LayoutResult::Size(
                                ((if tw > 0 {
                                    tw
                                } else {
                                    constraint.max_width
                                }), (if th > 0 {
                                    th
                                } else {
                                    constraint.max_height
                                })),
                            )
                        } else {
                            r == LayoutResult::RequestChild(
                                children@[0],
                                child_constraint(*constraint, pad),
                            )
                        })
                    },
                    Some(sz) => {
                        let w = if constraint.width > 0 {
                            constraint.width
                        } else {
                            sat_add3(sz.0, pad.left, pad.right)
                        };
                        let h = if constraint.height > 0 {
                            constraint.height
                        } else {
                            sat_add3(sz.1, pad.top, pad.bottom)
                        };
                        &&& r == LayoutResult::Size(constraint.spec_perform((w, h)))
                        &&& (if children@.len() > 0 && entity_bounds(
                            *old(store),
                            children@[0] as int,
                        ) is Some {
                            let ob = entity_bounds(*old(store), children@[0] as int)->0;
                            forall|e2: int, t2: CompTag|
                                #[trigger] final(store).resolved(e2, t2) == (if t2
                                    == CompTag::Bounds && old(store).spec_owner(e2, t2) == old(
                                    store,
                                ).spec_owner(children@[0] as int, t2) {
                                    Some(
                                        Component::Bounds(
                                            Bounds {
                                                x: u32_as_i32(pad.left),
                                                y: u32_as_i32(pad.top),
                                                ..ob
                                            },
                                        ),
                                    )
                                } else {
                                    old(store).resolved(e2, t2)
                                })
                        } else {
                            *final(store) == *old(store)
                        })
                    },
                }
            }),
    {
        let pad = themed_padding(theme, store, entity);
        match size {
            Some(sz) => {
                if children.len() > 0 {
                    let child = children[0];
                    proof {
                        if store.resolved(child as int, CompTag::Bounds) is Some {
                            crate::store::lemma_resolved_tag(*store, child as int, CompTag::Bounds);
                        }
                    }
                    match store.borrow(child, CompTag::Bounds) {
                        Ok(Component::Bounds(ob)) => {
                            let nb = Bounds {
                                x: u32_as_i32_exec(pad.left),
                                y: u32_as_i32_exec(pad.top),
                                width: ob.width,
                                height: ob.height,
                            };
                            let ghost pre = *store;
                            let res = store.set_component(child, Component::Bounds(nb));
                            proof {
                                assert(res is Ok);
                                assert forall|e2: int| #[trigger] store.resolved(
                                    e2,
                                    CompTag::Bounds,
                                ) is Some <==> pre.resolved(e2, CompTag::Bounds) is Some by {
                                    if pre.spec_owner(e2, CompTag::Bounds) == pre.spec_owner(
                                        child as int,
                                        CompTag::Bounds,
                                    ) {
                                        crate::store::lemma_same_owner_same_resolved(
                                            pre,
                                            e2,
                                            child as int,
                                            CompTag::Bounds,
                                        );
                                    }
                                }
                            }
                        },
                        Ok(_) => vstd::pervasive::unreached(),
                        Err(_) => {},
                    }
                }
                let w = if constraint.width > 0 {
                    constraint.width
                } else {
                    sat_add3_exec(sz.0, pad.left, pad.right)
                };
                let h = if constraint.height > 0 {
                    constraint.height
                } else {
                    sat_add3_exec(sz.1, pad.top, pad.bottom)
                };
                LayoutResult::Size(constraint.perform((w, h)))
            },
            None => {
                if children.len() == 0 {
                    let mut width = constraint.max_width;
                    let mut height = constraint.max_height;
                    proof {
                        if store.resolved(entity as int, CompTag::Selector) is Some {
                            crate::store::lemma_resolved_tag(
                                *store,
                                entity as int,
                                CompTag::Selector,
                            );
                        }
                    }
                    match store.borrow(entity, CompTag::Selector) {
                        Ok(Component::Selector(sel)) => {
                            let tw = theme.uint("width", sel);
                            let th = theme.uint("height", sel);
                            if tw > 0 {
                                width = tw;
                            }
                            if th > 0 {
                                height = th;
                            }
                        },
                        Ok(_) => vstd::pervasive::unreached(),
                        Err(_) => {},
                    }
                    LayoutResult::Size((width, height))
                } else {
                    LayoutResult::RequestChild(
                        children[0],
                        Constraint {
                            min_width: sub_inset_exec(constraint.min_width, pad.left, pad.right),
                            max_width: sub_inset_exec(constraint.max_width, pad.left, pad.right),
                            width: sub_inset_exec(constraint.width, pad.left, pad.right),
                            min_height: sub_inset_exec(constraint.min_height, pad.top, pad.bottom),
                            max_height: sub_inset_exec(constraint.max_height, pad.top, pad.bottom),
                            height: sub_inset_exec(constraint.height, pad.top, pad.bottom),
                        },
                    )
                }
            },
        }
    }
}

/// The closed set of layout strategies the catalog supplies.
#[derive(Clone, Copy, PartialEq, Eq, Structural, Debug)]
pub enum LayoutStrategy {
    Default(DefaultLayoutObject),
    Padding(PaddingLayoutObject),
}

/// Lays out one entity: overlays the themed extents onto the inherited
/// constraint, drives the entity's strategy until it reports a size —
/// recursing synchronously into each requested child — then clamps the
/// reported size into the adjusted constraint and stores it in the entity's
/// bounds. A themed fixed width is reported exactly, whatever the inherited
/// constraint said: the overlay pins both bounds, so the fixed extent wins
/// even over a smaller inherited maximum. The budget `fuel` bounds the
/// recursion depth; one more than the entity count always suffices for a
/// tree the builder made.
pub fn layout_rec(
    store: &mut ComponentStore,
    tree: &Tree,
    layouts: &Vec<LayoutStrategy>,
    theme: &Theme,
    constraint: &Constraint,
    entity: Entity,
    fuel: u64,
) -> (r: (u32, u32))
    requires
        old(store).wf(),
        tree.wf(),
    ensures
        final(store).wf(),
        final(store).spec_len() == old(store).spec_len(),
        forall|e2: int, t2: CompTag|
            t2 != CompTag::Bounds ==> #[trigger] final(store).resolved(e2, t2) == old(
                store,
            ).resolved(e2, t2),
        forall|e2: int|
            #[trigger] final(store).resolved(e2, CompTag::Bounds) is Some <==> old(
                store,
            ).resolved(e2, CompTag::Bounds) is Some,
        ({
            let b = entity_bounds(*final(store), entity as int);
            match b {
                Some(bb) => bb.width == r.0 && bb.height == r.1,
                None => entity_bounds(*old(store), entity as int) is None,
            }
        }),
        ({
            let sel = entity_selector(*old(store), entity as int);
            let adj = overlay_constraint(*theme, sel, *constraint);
            &&& (adj.min_width <= adj.max_width ==> adj.min_width <= r.0 && r.0 <= adj.max_width)
            &&& (adj.min_height <= adj.max_height ==> adj.min_height <= r.1 && r.1
                <= adj.max_height)
            &&& (match sel {
                Some(s) => {
                    &&& (spec_uint(*theme, "width"@, s) > 0 ==> r.0 == spec_uint(
                        *theme,
                        "width"@,
                        s,
                    ))
                    &&& (spec_uint(*theme, "height"@, s) > 0 ==> r.1 == spec_uint(
                        *theme,
                        "height"@,
                        s,
                    ))
                },
                None => true,
            })
        }),
    decreases fuel,
{
    let ghost store0 = *old(store);
    proof {
        if store.resolved(entity as int, CompTag::Selector) is Some {
            crate::store::lemma_resolved_tag(*store, entity as int, CompTag::Selector);
        }
    }
    let adj: Constraint = match store.borrow(entity, CompTag::Selector) {
        Ok(Component::Selector(sel)) => {
            let minw = theme.uint("min-width", sel);
            let maxw = theme.uint("max-width", sel);
            let minh = theme.uint("min-height", sel);
            let maxh = theme.uint("max-height", sel);
            let w = theme.uint("width", sel);
            let h = theme.uint("height", sel);
            let mut c = *constraint;
            if minw > 0 {
                c.min_width = minw;
            }
            if maxw > 0 {
                c.max_width = maxw;
            }
            if minh > 0 {
                c.min_height = minh;
            }
            if maxh > 0 {
                c.max_height = maxh;
            }
            if w > 0 {
                c.min_width = w;
                c.max_width = w;
            }
            if h > 0 {
                c.min_height = h;
                c.max_height = h;
            }
            c
        },
        Ok(_) => vstd::pervasive::unreached(),
        Err(_) => *constraint,
    };
    assert(adj == overlay_constraint(
        *theme,
        entity_selector(store0, entity as int),
        *constraint,
    ));
    let empty_children: Vec<Entity> = Vec::new();
    let mut size: Option<(u32, u32)> = None;
    loop
        invariant
            store.wf(),
            tree.wf(),
            store0 == *old(store),
            adj == overlay_constraint(
                *theme,
                entity_selector(store0, entity as int),
                *constraint,
            ),
            store.spec_len() == store0.spec_len(),
            forall|e2: int, t2: CompTag|
                t2 != CompTag::Bounds ==> #[trigger] store.resolved(e2, t2) == store0.resolved(
                    e2,
                    t2,
                ),
            forall|e2: int|
                #[trigger] store.resolved(e2, CompTag::Bounds) is Some <==> store0.resolved(
                    e2,
                    CompTag::Bounds,
                ) is Some,
            empty_children@.len() == 0,
        decreases (if size is None {
            1int
        } else {
            0int
        }),
    {
        let result: LayoutResult = if (entity as usize) < layouts.len() {
            let children: &Vec<Entity> = if (entity as usize) < tree.children.len() {
                &tree.children[entity as usize]
            } else {
                &empty_children
            };
            match &layouts[entity as usize] {
                LayoutStrategy::Default(d) => d.layout(&adj, children, size),
                LayoutStrategy::Padding(p) => p.layout(entity, store, &adj, children, size, theme),
            }
        } else {
            LayoutResult::Size((32, 32))
        };
        match result {
            LayoutResult::Size(sz) => {
                let fin = adj.perform(sz);
                store_size(store, entity, fin);
                proof {
                    if store0.resolved(entity as int, CompTag::Bounds) is Some {
                        crate::store::lemma_resolved_tag(store0, entity as int, CompTag::Bounds);
                    }
                }
                return fin;
            },
            LayoutResult::RequestChild(child, cc) => {
                if fuel == 0 {
                    // the recursion budget is spent: report and store the
                    // fallback size
                    let fin = adj.perform((32, 32));
                    store_size(store, entity, fin);
                    proof {
                        if store0.resolved(entity as int, CompTag::Bounds) is Some {
                            crate::store::lemma_resolved_tag(
                                store0,
                                entity as int,
                                CompTag::Bounds,
                            );
                        }
                    }
                    return fin;
                }
                let sz = layout_rec(store, tree, layouts, theme, &cc, child, fuel - 1);
                size = Some(sz);
            },
        }
    }
}

/// Writes a negotiated size into an entity's bounds, leaving the origin as
/// it stands; an entity without bounds stores nothing.
fn store_size(store: &mut ComponentStore, entity: Entity, fin: (u32, u32))
    requires
        old(store).wf(),
    ensures
        final(store).wf(),
        final(store).spec_len() == old(store).spec_len(),
        forall|e2: int, t2: CompTag|
            t2 != CompTag::Bounds ==> #[trigger] final(store).resolved(e2, t2) == old(
                store,
            ).resolved(e2, t2),
        forall|e2: int|
            #[trigger] final(store).resolved(e2, CompTag::Bounds) is Some <==> old(
                store,
            ).resolved(e2, CompTag::Bounds) is Some,
        ({
            match entity_bounds(*final(store), entity as int) {
                Some(b) => b.width == fin.0 && b.height == fin.1,
                None => old(store).resolved(entity as int, CompTag::Bounds) is None,
            }
        }),
{
    proof {
        if store.resolved(entity as int, CompTag::Bounds) is Some {
            crate::store::lemma_resolved_tag(*store, entity as int, CompTag::Bounds);
        }
    }
    let ob: Option<Bounds> = match store.borrow(entity, CompTag::Bounds) {
        Ok(Component::Bounds(b)) => Some(*b),
        Ok(_) => vstd::pervasive::unreached(),
        Err(_) => None,
    };
    match ob {
        Some(b) => {
            let nb = Bounds { width: fin.0, height: fin.1, ..b };
            let ghost pre = *store;
            let res = store.set_component(entity, Component::Bounds(nb));
            proof {
                assert(res is Ok);
                assert forall|e2: int| #[trigger] store.resolved(e2, CompTag::Bounds) is Some
                    <==> pre.resolved(e2, CompTag::Bounds) is Some by {
                    if pre.spec_owner(e2, CompTag::Bounds) == pre.spec_owner(
                        entity as int,
                        CompTag::Bounds,
                    ) {
                        crate::store::lemma_same_owner_same_resolved(
                            pre,
                            e2,
                            entity as int,
                            CompTag::Bounds,
                        );
                    }
                }
            }
        },
        None => {},
    }
}

/// The constraint the window hands the root entity: no minimum, the window
/// size as the maximum, no preferred extent.
pub open spec fn root_constraint(window_size: (u32, u32)) -> Constraint {
    Constraint {
        min_width: 0u32,
        min_height: 0u32,
        max_width: window_size.0,
        max_height: window_size.1,
        width: 0u32,
        height: 0u32,
    }
}

/// The layout phase of the frame pipeline: when the update flag is set, the
/// whole tree negotiates sizes top-down from the window size.
pub struct LayoutSystem;

impl LayoutSystem {
    /// Lays the tree out against the window size. An unset update flag skips
    /// all work.
    pub fn run(
        &self,
        store: &mut ComponentStore,
        tree: &Tree,
        layouts: &Vec<LayoutStrategy>,
        theme: &Theme,
        window_size: (u32, u32),
        update: bool,
    )
        requires
            old(store).wf(),
            tree.wf(),
        ensures
            final(store).wf(),
            final(store).spec_len() == old(store).spec_len(),
            forall|e2: int, t2: CompTag|
                t2 != CompTag::Bounds ==> #[trigger] final(store).resolved(e2, t2) == old(
                    store,
                ).resolved(e2, t2),
            forall|e2: int|
                #[trigger] final(store).resolved(e2, CompTag::Bounds) is Some <==> old(
                    store,
                ).resolved(e2, CompTag::Bounds) is Some,
            !update ==> *final(store) == *old(store),
            (update && tree.spec_len() > 0) ==> ({
                let sel = entity_selector(*old(store), 0);
                let adj = overlay_constraint(*theme, sel, root_constraint(window_size));
                match entity_bounds(*final(store), 0) {
                    Some(b) => {
                        &&& (adj.min_width <= adj.max_width ==> adj.min_width <= b.width
                            && b.width <= adj.max_width)
                        &&& (adj.min_height <= adj.max_height ==> adj.min_height <= b.height
                            && b.height <= adj.max_height)
                        &&& (match sel {
                            Some(s) => {
                                &&& (spec_uint(*theme, "width"@, s) > 0 ==> b.width == spec_uint(
                                    *theme,
                                    "width"@,
                                    s,
                                ))
                                &&& (spec_uint(*theme, "height"@, s) > 0 ==> b.height
                                    == spec_uint(*theme, "height"@, s))
                            },
                            None => true,
                        })
                    },
                    None => old(store).resolved(0, CompTag::Bounds) is None,
                }
            }),
    {
        if !update {
            return ;
        }
        if tree.len() == 0 {
            return ;
        }
        let fuel = tree.len() as u64 + 1;
        let root = tree.root();
        let c = Constraint {
            min_width: 0,
            min_height: 0,
            max_width: window_size.0,
            max_height: window_size.1,
            width: 0,
            height: 0,
        };
        let _size = layout_rec(store, tree, layouts, theme, &c, root, fuel);
        proof {
            assert(c == root_constraint(window_size));
            if old(store).resolved(0, CompTag::Bounds) is Some {
                crate::store::lemma_resolved_tag(*old(store), 0, CompTag::Bounds);
            }
        }
    }
}

} // verus!
