//! The render pass: walks the tree in pre-order, accumulates global
//! positions from local bounds, and emits one paint command per entity for a
//! backend to draw.

use vstd::prelude::*;
use crate::store::{CompTag, Component, ComponentStore};
use crate::structs::{Bounds, Point};
use crate::tree::{Entity, Tree, lemma_pre_order_in_range, spec_pre_order};

verus! {

/// A primitive drawing instruction of a shape.
#[derive(Clone, Copy, PartialEq, Eq, Structural, Debug)]
pub enum Instruction {
    FillRectangle,
    FillText,
}

/// A drawable outline: a fixed list of primitive instructions.
pub trait Shape2D {
    fn instructions(&self) -> &Vec<Instruction>;
}

/// The default rectangle shape.
#[derive(Debug)]
pub struct Rectangle {
    pub instructions: Vec<Instruction>,
}

impl Rectangle {
    /// A rectangle shape with its single fill instruction.
    pub fn new() -> (r: Rectangle)
        ensures
            r.instructions@ =~= seq![Instruction::FillRectangle],
    {
        let mut v: Vec<Instruction> = Vec::new();
        v.push(Instruction::FillRectangle);
        Rectangle { instructions: v }
    }
}

impl Shape2D for Rectangle {
    fn instructions(&self) -> &Vec<Instruction> {
        &self.instructions
    }
}

/// The closed set of paint strategies the catalog supplies.
#[derive(Clone, Copy, PartialEq, Eq, Structural, Debug)]
pub enum ShapeKind {
    Rectangle,
    Text,
}

/// A pair of accumulated coordinates.
#[derive(Clone, Copy, PartialEq, Eq, Structural, Debug)]
pub struct Pos {
    pub x: i64,
    pub y: i64,
}

/// One paint call of a frame: what a backend draws, in order.
#[derive(Clone, Copy, PartialEq, Eq, Structural, Debug)]
pub struct PaintCall {
    pub entity: Entity,
    pub kind: ShapeKind,
    pub bounds: Bounds,
    pub parent_bounds: Bounds,
    pub offset: Pos,
    pub global_position: Pos,
}

/// One command of a frame's display list.
#[derive(Clone, Copy, PartialEq, Eq, Structural, Debug)]
pub enum RenderCommand {
    /// Clear the window background once, before any entity is painted.
    Clear,
    /// Paint an entity with its shape.
    Paint(PaintCall),
    /// Paint the debug overlay border of an entity; additive, never altering
    /// layout.
    DebugBorder(PaintCall),
}

/// A sum clamped into the signed 64-bit range.
pub open spec fn sat_i64(v: int) -> i64 {
    if v < i64::MIN {
        i64::MIN
    } else if v > i64::MAX {
        i64::MAX
    } else {
        v as i64
    }
}

fn sat_add_i64(a: i64, b: i64) -> (r: i64)
    ensures
        r == sat_i64(a + b),
{
    if b >= 0 {
        if a > i64::MAX - b {
            i64::MAX
        } else {
            a + b
        }
    } else {
        if a < i64::MIN - b {
            i64::MIN
        } else {
            a + b
        }
    }
}

/// The bounds of an entity, or the empty bounds when it carries none.
pub open spec fn bounds_or_default(store: ComponentStore, e: int) -> Bounds {
    match store.resolved(e, CompTag::Bounds) {
        Some(Component::Bounds(b)) => b,
        _ => Bounds { x: 0, y: 0, width: 0u32, height: 0u32 },
    }
}

/// The scroll offset inherited from the nearest ancestor carrying one,
/// starting the search at `e` itself; zero when no ancestor carries one.
pub open spec fn nearest_offset(store: ComponentStore, tree: Tree, e: int, fuel: nat) -> (
    int,
    int,
)
    decreases fuel,
{
    if fuel == 0 || !(0 <= e < tree.parent@.len()) {
        (0, 0)
    } else {
        match store.resolved(e, CompTag::Offset) {
            Some(Component::Offset(p)) => (p.x as int, p.y as int),
            _ => {
                let p = tree.parent@[e];
                if p as int == e {
                    (0, 0)
                } else {
                    nearest_offset(store, tree, p as int, (fuel - 1) as nat)
                }
            },
        }
    }
}

/// One entity's step of the render walk: the commands it emits and the
/// global origin it leaves for its children. The entity's global position is
/// its parent's accumulated origin; its own accumulated origin adds its
/// local bounds origin.
pub open spec fn render_step(
    store: ComponentStore,
    tree: Tree,
    shapes: Seq<Option<ShapeKind>>,
    debug: bool,
    offsets: Seq<Pos>,
    node: int,
) -> (Seq<RenderCommand>, Seq<Pos>) {
    let parent = if 0 <= node < tree.parent@.len() {
        tree.parent@[node] as int
    } else {
        node
    };
    let gp = if 0 <= parent < offsets.len() {
        offsets[parent]
    } else {
        Pos { x: 0i64, y: 0i64 }
    };
    let off = nearest_offset(store, tree, parent, tree.parent@.len());
    let offp = Pos { x: sat_i64(off.0), y: sat_i64(off.1) };
    let b = bounds_or_default(store, node);
    let pb = bounds_or_default(store, parent);
    let dbg: Seq<RenderCommand> = if debug {
        seq![
            RenderCommand::DebugBorder(
                PaintCall {
                    entity: node as Entity,
                    kind: ShapeKind::Rectangle,
                    bounds: b,
                    parent_bounds: pb,
                    offset: offp,
                    global_position: gp,
                },
            ),
        ]
    } else {
        Seq::empty()
    };
    let paint: Seq<RenderCommand> = if 0 <= node < shapes.len() && shapes[node] is Some {
        seq![
            RenderCommand::Paint(
                PaintCall {
                    entity: node as Entity,
                    kind: shapes[node]->0,
                    bounds: b,
                    parent_bounds: pb,
                    offset: offp,
                    global_position: gp,
                },
            ),
        ]
    } else {
        Seq::empty()
    };
    let own = Pos { x: sat_i64(gp.x + b.x), y: sat_i64(gp.y + b.y) };
    let offsets2 = if 0 <= node < offsets.len() {
        offsets.update(node, own)
    } else {
        offsets
    };
    (dbg + paint, offsets2)
}

/// The whole render walk over a visit order: commands concatenated in visit
/// order, global origins accumulated left to right.
pub open spec fn render_walk(
    store: ComponentStore,
    tree: Tree,
    shapes: Seq<Option<ShapeKind>>,
    debug: bool,
    order: Seq<Entity>,
    i: int,
    offsets: Seq<Pos>,
) -> (Seq<RenderCommand>, Seq<Pos>)
    decreases order.len() - i,
{
    if i < 0 || i >= order.len() {
        (Seq::empty(), offsets)
    } else {
        let step = render_step(store, tree, shapes, debug, offsets, order[i] as int);
        let rest = render_walk(store, tree, shapes, debug, order, i + 1, step.1);
        (step.0 + rest.0, rest.1)
    }
}

/// All-zero accumulated origins for `n` entities.
pub open spec fn zero_offsets(n: nat) -> Seq<Pos> {
    Seq::new(n, |i: int| Pos { x: 0i64, y: 0i64 })
}

/// A value clamped into the signed 32-bit range.
pub open spec fn sat_i32(v: int) -> i32 {
    if v < i32::MIN {
        i32::MIN
    } else if v > i32::MAX {
        i32::MAX
    } else {
        v as i32
    }
}

fn sat_i32_exec(v: i64) -> (r: i32)
    ensures
        r == sat_i32(v as int),
{
    if v < i32::MIN as i64 {
        i32::MIN
    } else if v > i32::MAX as i64 {
        i32::MAX
    } else {
        v as i32
    }
}

/// Finds the scroll offset inherited from the nearest ancestor carrying one.
fn nearest_offset_exec(store: &ComponentStore, tree: &Tree, e: Entity, fuel: usize) -> (r: Pos)
    requires
        store.wf(),
    ensures
        ({
            let sp = nearest_offset(*store, *tree, e as int, fuel as nat);
            r.x == sp.0 && r.y == sp.1
        }),
    decreases fuel,
{
    if fuel == 0 || (e as usize) >= tree.parent.len() {
        return Pos { x: 0, y: 0 };
    }
    proof {
        if store.resolved(e as int, CompTag::Offset) is Some {
            crate::store::lemma_resolved_tag(*store, e as int, CompTag::Offset);
        }
    }
    match store.borrow(e, CompTag::Offset) {
        Ok(Component::Offset(p)) => Pos { x: p.x as i64, y: p.y as i64 },
        Ok(_) => vstd::pervasive::unreached(),
        Err(_) => {
            let p = tree.parent[e as usize];
            if p == e {
                Pos { x: 0, y: 0 }
            } else {
                nearest_offset_exec(store, tree, p, fuel - 1)
            }
        },
    }
}

/// Extending a prefix by one element extends what it contains by exactly
/// that element.
proof fn lemma_take_contains_step(order: Seq<Entity>, i: int, e: Entity)
    requires
        0 <= i < order.len(),
    ensures
        order.take(i + 1).contains(e) == (order.take(i).contains(e) || order[i] == e),
{
    if order.take(i).contains(e) {
        let k = choose|k: int| 0 <= k < i && (#[trigger] order.take(i)[k]) == e;
        assert(order.take(i + 1)[k] == e);
    }
    if order[i] == e {
        assert(order.take(i + 1)[i] == e);
    }
    if order.take(i + 1).contains(e) {
        let k = choose|k: int| 0 <= k < i + 1 && (#[trigger] order.take(i + 1)[k]) == e;
        if k < i {
            assert(order.take(i)[k] == e);
        }
    }
}

/// The point a pair of accumulated coordinates stores, each clamped into
/// the signed 32-bit range.
pub open spec fn sat_point(p: Pos) -> Point {
    Point { x: sat_i32(p.x as int), y: sat_i32(p.y as int) }
}

/// No entity shares its position component: each either owns its position
/// or carries none, so the pass's writes never cross entities.
pub open spec fn positions_unshared(store: ComponentStore) -> bool {
    forall|e: int|
        0 <= e < store.spec_len() ==> (match #[trigger] store.spec_owner(
            e,
            CompTag::Position,
        ) {
            None => true,
            Some(o) => o == e,
        })
}

/// The render phase of the frame pipeline.
pub struct RenderSystem;

impl RenderSystem {
    /// Walks the tree in pre-order and emits the frame's display list: one
    /// background clear, then per entity an optional debug border and the
    /// entity's paint call, each carrying the offset inherited from the
    /// nearest scrolling ancestor and the global position accumulated from
    /// the root; each entity's accumulated origin — its parent's origin plus
    /// its local bounds origin — is also stored in its position component.
    /// An unset update flag skips all work.
    pub fn run(
        &self,
        store: &mut ComponentStore,
        tree: &Tree,
        shapes: &Vec<Option<ShapeKind>>,
        update: bool,
        debug: bool,
    ) -> (r: Vec<RenderCommand>)
        requires
            old(store).wf(),
            tree.wf(),
        ensures
            final(store).wf(),
            final(store).spec_len() == old(store).spec_len(),
            forall|e2: int, t2: CompTag|
                t2 != CompTag::Position ==> #[trigger] final(store).resolved(e2, t2) == old(
                    store,
                ).resolved(e2, t2),
            !update ==> *final(store) == *old(store) && r@ =~= Seq::<RenderCommand>::empty(),
            update ==> r@ == seq![RenderCommand::Clear] + render_walk(
                *old(store),
                *tree,
                shapes@,
                debug,
                spec_pre_order(*tree),
                0,
                zero_offsets(tree.spec_len()),
            ).0,
            (update && old(store).spec_len() == tree.spec_len() && positions_unshared(
                *old(store),
            )) ==> ({
                let walk = render_walk(
                    *old(store),
                    *tree,
                    shapes@,
                    debug,
                    spec_pre_order(*tree),
                    0,
                    zero_offsets(tree.spec_len()),
                );
                forall|e2: int|
                    0 <= e2 < tree.spec_len() ==> #[trigger] final(store).resolved(
                        e2,
                        CompTag::Position,
                    ) == (if spec_pre_order(*tree).contains(e2 as Entity) && old(store).resolved(
                        e2,
                        CompTag::Position,
                    ) is Some {
                        Some(Component::Position(sat_point(walk.1[e2])))
                    } else {
                        old(store).resolved(e2, CompTag::Position)
                    })
            }),
    {
        let mut cmds: Vec<RenderCommand> = Vec::new();
        if !update {
            return cmds;
        }
        let ghost store0 = *old(store);
        cmds.push(RenderCommand::Clear);
        let n = tree.len();
        let mut offsets: Vec<Pos> = Vec::new();
        let mut k: usize = 0;
        while k < n
            invariant
                k <= n,
                offsets@.len() == k,
                forall|j: int| 0 <= j < k ==> offsets@[j] == (Pos { x: 0i64, y: 0i64 }),
            decreases n - k,
        {
            offsets.push(Pos { x: 0, y: 0 });
            k = k + 1;
        }
        proof {
            assert(offsets@ =~= zero_offsets(tree.spec_len()));
        }
        let order = tree.pre_order();
        let ghost claim = store0.spec_len() == tree.spec_len() && positions_unshared(store0);
        proof {
            lemma_pre_order_in_range(*tree);
        }
        let m = order.len();
        let mut i: usize = 0;
        while i < m
            invariant
                i <= m,
                m == order@.len(),
                order@ == spec_pre_order(*tree),
                tree.wf(),
                store.wf(),
                store0 == *old(store),
                store.spec_len() == store0.spec_len(),
                claim == (store0.spec_len() == tree.spec_len() && positions_unshared(store0)),
                forall|k: int|
                    0 <= k < order@.len() ==> (#[trigger] order@[k] as int) < tree.spec_len(),
                forall|e2: int, t2: CompTag|
                    t2 != CompTag::Position ==> #[trigger] store.resolved(e2, t2)
                        == store0.resolved(e2, t2),
                forall|e2: int, t2: CompTag|
                    #[trigger] store.spec_owner(e2, t2) == store0.spec_owner(e2, t2),
                claim ==> (forall|e2: int|
                    0 <= e2 < tree.spec_len() ==> #[trigger] store.resolved(e2, CompTag::Position)
                        == (if order@.take(i as int).contains(e2 as Entity) && store0.resolved(
                        e2,
                        CompTag::Position,
                    ) is Some {
                        Some(Component::Position(sat_point(offsets@[e2])))
                    } else {
                        store0.resolved(e2, CompTag::Position)
                    })),
                offsets@.len() == tree.spec_len(),
                ({
                    let whole = render_walk(
                        store0,
                        *tree,
                        shapes@,
                        debug,
                        order@,
                        0,
                        zero_offsets(tree.spec_len()),
                    );
                    let rest = render_walk(store0, *tree, shapes@, debug, order@, i as int, offsets@);
                    &&& seq![RenderCommand::Clear] + whole.0 =~= cmds@ + rest.0
                    &&& whole.1 == rest.1
                }),
            decreases m - i,
        {
            let node = order[i];
            let ghost offs_in = offsets@;
            let ghost step = render_step(store0, *tree, shapes@, debug, offs_in, node as int);
            let parent: Entity = if (node as usize) < tree.parent.len() {
                tree.parent[node as usize]
            } else {
                node
            };
            let gp: Pos = if (parent as usize) < offsets.len() {
                offsets[parent as usize]
            } else {
                Pos { x: 0, y: 0 }
            };
            let offv = nearest_offset_exec(store, tree, parent, tree.parent.len());
            proof {
                assert(nearest_offset(*store, *tree, parent as int, tree.parent@.len())
                    == nearest_offset(store0, *tree, parent as int, tree.parent@.len())) by {
                    lemma_nearest_offset_congruent(
                        *store,
                        store0,
                        *tree,
                        parent as int,
                        tree.parent@.len(),
                    );
                }
            }
            let b = bounds_or_default_exec(store, node);
            proof {
                assert(bounds_or_default(*store, node as int) == bounds_or_default(
                    store0,
                    node as int,
                ));
                assert(bounds_or_default(*store, parent as int) == bounds_or_default(
                    store0,
                    parent as int,
                ));
            }
            let pb = bounds_or_default_exec(store, parent);
            if debug {
                cmds.push(
                    RenderCommand::DebugBorder(
                        PaintCall {
                            entity: node,
                            kind: ShapeKind::Rectangle,
                            bounds: b,
                            parent_bounds: pb,
                            offset: offv,
                            global_position: gp,
                        },
                    ),
                );
            }
            if (node as usize) < shapes.len() {
                match &shapes[node as usize] {
                    Some(kind) => {
                        cmds.push(
                            RenderCommand::Paint(
                                PaintCall {
                                    entity: node,
                                    kind: *kind,
                                    bounds: b,
                                    parent_bounds: pb,
                                    offset: offv,
                                    global_position: gp,
                                },
                            ),
                        );
                    },
                    None => {},
                }
            }
            let own = Pos { x: sat_add_i64(gp.x, b.x as i64), y: sat_add_i64(gp.y, b.y as i64) };
            if (node as usize) < offsets.len() {
                offsets[node as usize] = own;
            }
            let pos = crate::structs::Point { x: sat_i32_exec(own.x), y: sat_i32_exec(own.y) };
            let ghost pre = *store;
            let ghost offs_pre_node = offs_in;
            let res = store.set_component(node, Component::Position(pos));
            proof {
                if claim {
                    assert((node as int) < tree.spec_len());
                    assert(order@.take(i + 1int).drop_last() =~= order@.take(i as int));
                    assert(order@.take(i + 1int).last() == node);
                    assert(offsets@ == offs_in.update(node as int, own));
                    assert(pos == sat_point(own));
                    if pre.resolved(node as int, CompTag::Position) is Some {
                        assert(res is Ok);
                        assert forall|e2: int| 0 <= e2 < tree.spec_len() implies
                            #[trigger] store.resolved(e2, CompTag::Position) == (if order@.take(
                            i + 1int,
                        ).contains(e2 as Entity) && store0.resolved(
                            e2,
                            CompTag::Position,
                        ) is Some {
                            Some(Component::Position(sat_point(offsets@[e2])))
                        } else {
                            store0.resolved(e2, CompTag::Position)
                        }) by {
                            lemma_take_contains_step(order@, i as int, e2 as Entity);
                            if e2 == node as int {
                            } else {
                                assert(pre.spec_owner(node as int, CompTag::Position)
                                    == Some(node as int));
                                if pre.spec_owner(e2, CompTag::Position) == pre.spec_owner(
                                    node as int,
                                    CompTag::Position,
                                ) {
                                    assert(store0.spec_owner(e2, CompTag::Position) is None
                                        || store0.spec_owner(e2, CompTag::Position) == Some(e2));
                                    assert(false);
                                }
                                assert(store.resolved(e2, CompTag::Position) == pre.resolved(
                                    e2,
                                    CompTag::Position,
                                ));
                                assert(offsets@[e2] == offs_in[e2]);
                            }
                        }
                    } else {
                        assert(res is Err);
                        assert(*store == pre);
                        assert(store0.resolved(node as int, CompTag::Position) is None);
                        assert forall|e2: int| 0 <= e2 < tree.spec_len() implies
                            #[trigger] store.resolved(e2, CompTag::Position) == (if order@.take(
                            i + 1int,
                        ).contains(e2 as Entity) && store0.resolved(
                            e2,
                            CompTag::Position,
                        ) is Some {
                            Some(Component::Position(sat_point(offsets@[e2])))
                        } else {
                            store0.resolved(e2, CompTag::Position)
                        }) by {
                            lemma_take_contains_step(order@, i as int, e2 as Entity);
                            if e2 != node as int {
                                assert(offsets@[e2] == offs_in[e2]);
                            }
                        }
                    }
                }
                assert(step.0 + render_walk(
                    store0,
                    *tree,
                    shapes@,
                    debug,
                    order@,
                    i + 1int,
                    step.1,
                ).0 == render_walk(store0, *tree, shapes@, debug, order@, i as int, offs_in).0);
                assert(offsets@ == step.1);
                assert(cmds@ + render_walk(store0, *tree, shapes@, debug, order@, i + 1int, offsets@).0
                    =~= seq![RenderCommand::Clear] + render_walk(
                    store0,
                    *tree,
                    shapes@,
                    debug,
                    order@,
                    0,
                    zero_offsets(tree.spec_len()),
                ).0);
            }
            i = i + 1;
        }
        proof {
            assert(render_walk(store0, *tree, shapes@, debug, order@, m as int, offsets@).0
                =~= Seq::<RenderCommand>::empty());
            assert(cmds@ =~= cmds@ + render_walk(
                store0,
                *tree,
                shapes@,
                debug,
                order@,
                m as int,
                offsets@,
            ).0);
            assert(order@.take(m as int) =~= order@);
            assert(render_walk(store0, *tree, shapes@, debug, order@, m as int, offsets@).1
                == offsets@);
        }
        cmds
    }
}

/// Reads the bounds of an entity, or the empty bounds when it carries none.
fn bounds_or_default_exec(store: &ComponentStore, e: Entity) -> (r: Bounds)
    requires
        store.wf(),
    ensures
        r == bounds_or_default(*store, e as int),
{
    proof {
        if store.resolved(e as int, CompTag::Bounds) is Some {
            crate::store::lemma_resolved_tag(*store, e as int, CompTag::Bounds);
        }
    }
    match store.borrow(e, CompTag::Bounds) {
        Ok(Component::Bounds(b)) => *b,
        Ok(_) => vstd::pervasive::unreached(),
        Err(_) => Bounds { x: 0, y: 0, width: 0, height: 0 },
    }
}

/// One glyph of a text run: where the character is drawn.
#[derive(Clone, Copy, PartialEq, Eq, Structural, Debug)]
pub struct CharCall {
    pub x: i64,
    pub y: i64,
    pub c: char,
}

/// Whether a glyph cell at the pen overlaps the parent bounds.
pub open spec fn glyph_visible(cur_x: i64, cur_y: i64, pb: Bounds) -> bool {
    &&& cur_x + 8 >= pb.x
    &&& cur_y + 16 >= pb.y
    &&& cur_x + 8 < pb.x + pb.width
    &&& cur_y < pb.y + pb.height
}

/// The glyph call the pen emits for the character at `i`.
pub open spec fn glyph_call(chars: Seq<char>, i: int, cur_x: i64, cur_y: i64, gp: Pos)
    -> CharCall {
    CharCall { x: sat_i64(cur_x + gp.x), y: sat_i64(cur_y + gp.y), c: chars[i] }
}

/// The glyph calls of a text run laid out on a fixed 8 by 16 cell grid: a
/// newline returns to the line start and advances one row; every other
/// character is drawn at the pen, shifted by the accumulated global
/// position, when its cell overlaps the parent bounds, and advances the pen
/// one cell.
pub open spec fn spec_text_run(
    chars: Seq<char>,
    i: int,
    cur_x: i64,
    cur_y: i64,
    start_x: i64,
    pb: Bounds,
    gp: Pos,
) -> Seq<CharCall>
    decreases chars.len() - i,
{
    if i < 0 || i >= chars.len() {
        Seq::empty()
    } else {
        let c = chars[i];
        if c == '\n' {
            spec_text_run(chars, i + 1, start_x, sat_i64(cur_y + 16), start_x, pb, gp)
        } else {
            let visible = glyph_visible(cur_x, cur_y, pb);
            let rest = spec_text_run(chars, i + 1, sat_i64(cur_x + 8), cur_y, start_x, pb, gp);
            if visible {
                seq![glyph_call(chars, i, cur_x, cur_y, gp)] + rest
            } else {
                rest
            }
        }
    }
}

/// Appends the glyphs of the run from `i` on.
fn text_run_rec(
    chars: &Vec<char>,
    i: usize,
    cur_x: i64,
    cur_y: i64,
    start_x: i64,
    pb: &Bounds,
    gp: Pos,
    out: &mut Vec<CharCall>,
)
    requires
        i <= chars@.len(),
    ensures
        final(out)@ == old(out)@ + spec_text_run(
            chars@,
            i as int,
            cur_x,
            cur_y,
            start_x,
            *pb,
            gp,
        ),
    decreases chars@.len() - i,
{
    if i >= chars.len() {
        proof {
            assert(final(out)@ =~= old(out)@ + spec_text_run(
                chars@,
                i as int,
                cur_x,
                cur_y,
                start_x,
                *pb,
                gp,
            ));
        }
        return ;
    }
    let c = chars[i];
    if newline_char(c) {
        text_run_rec(chars, i + 1, start_x, sat_add_i64(cur_y, 16), start_x, pb, gp, out);
        proof {
            assert(spec_text_run(chars@, i as int, cur_x, cur_y, start_x, *pb, gp)
                == spec_text_run(
                chars@,
                i + 1int,
                start_x,
                sat_i64(cur_y + 16),
                start_x,
                *pb,
                gp,
            ));
        }
    } else {
        let pbx = pb.x as i64;
        let pby = pb.y as i64;
        let visible = cur_x >= pbx - 8 && cur_y >= pby - 16 && cur_x < pbx + (pb.width as i64) - 8
            && cur_y < pby + (pb.height as i64);
        let ghost out0 = out@;
        if visible {
            out.push(
                CharCall { x: sat_add_i64(cur_x, gp.x), y: sat_add_i64(cur_y, gp.y), c: c },
            );
        }
        let ghost mid = out@;
        text_run_rec(chars, i + 1, sat_add_i64(cur_x, 8), cur_y, start_x, pb, gp, out);
        proof {
            lemma_text_run_step(chars@, i as int, cur_x, cur_y, start_x, *pb, gp);
            let call = glyph_call(chars@, i as int, cur_x, cur_y, gp);
            let rest = spec_text_run(
                chars@,
                i + 1int,
                sat_i64(cur_x + 8),
                cur_y,
                start_x,
                *pb,
                gp,
            );
            if glyph_visible(cur_x, cur_y, *pb) {
                assert(mid == out0.push(call));
                lemma_push_concat(out0, call, rest);
                assert(out@ == mid + rest);
                assert(out@ == out0 + (seq![call] + rest));
            } else {
                assert(mid == out0);
                assert(out@ == out0 + rest);
            }
        }
    }
}

/// Lays out the glyphs of a text run inside its bounds, clipped against the
/// parent bounds; the cell grid stands in for font metrics when no font is
/// loaded.
pub fn render_text_run(
    chars: &Vec<char>,
    bounds: &Bounds,
    parent_bounds: &Bounds,
    offset: Pos,
    global_position: Pos,
) -> (r: Vec<CharCall>)
    ensures
        r@ == spec_text_run(
            chars@,
            0,
            sat_i64(bounds.x + offset.x),
            sat_i64(bounds.y + offset.y),
            bounds.x as i64,
            *parent_bounds,
            global_position,
        ),
{
    let mut out: Vec<CharCall> = Vec::new();
    let cur_x = sat_add_i64(bounds.x as i64, offset.x);
    let cur_y = sat_add_i64(bounds.y as i64, offset.y);
    text_run_rec(
        chars,
        0,
        cur_x,
        cur_y,
        bounds.x as i64,
        parent_bounds,
        global_position,
        &mut out,
    );
    proof {
        assert(out@ =~= Seq::<CharCall>::empty() + spec_text_run(
            chars@,
            0,
            sat_i64(bounds.x + offset.x),
            sat_i64(bounds.y + offset.y),
            bounds.x as i64,
            *parent_bounds,
            global_position,
        ));
    }
    out
}

/// The screen rectangle a paint call fills: the bounds shifted by the global
/// position and the inherited offset, its origin clamped to the parent's
/// origin and its extent clamped into the parent's extent, never negative.
#[derive(Clone, Copy, PartialEq, Eq, Structural, Debug)]
pub struct ClippedRect {
    pub x: i64,
    pub y: i64,
    pub width: u32,
    pub height: u32,
}

/// The clipped screen rectangle of a paint call.
pub open spec fn spec_clip_rectangle(b: Bounds, pb: Bounds, off: Pos, gp: Pos) -> ClippedRect {
    let x = sat_i64(sat_i64(b.x + gp.x) + off.x);
    let y = sat_i64(sat_i64(b.y + gp.y) + off.y);
    ClippedRect {
        x: if x >= pb.x {
            x
        } else {
            pb.x as i64
        },
        y: if y >= pb.y {
            y
        } else {
            pb.y as i64
        },
        width: crate::structs::clamp_neg(
            if b.width + off.x <= pb.width {
                b.width + off.x
            } else {
                pb.width as int
            },
        ),
        height: crate::structs::clamp_neg(
            if b.height + off.y <= pb.height {
                b.height + off.y
            } else {
                pb.height as int
            },
        ),
    }
}

/// Clips a paint call's rectangle against its parent bounds.
pub fn clip_rectangle(b: &Bounds, pb: &Bounds, off: Pos, gp: Pos) -> (r: ClippedRect)
    ensures
        r == spec_clip_rectangle(*b, *pb, off, gp),
{
    let x = sat_add_i64(sat_add_i64(b.x as i64, gp.x), off.x);
    let y = sat_add_i64(sat_add_i64(b.y as i64, gp.y), off.y);
    let w128: i128 = b.width as i128 + off.x as i128;
    let h128: i128 = b.height as i128 + off.y as i128;
    let wsel: i128 = if w128 <= pb.width as i128 {
        w128
    } else {
        pb.width as i128
    };
    let hsel: i128 = if h128 <= pb.height as i128 {
        h128
    } else {
        pb.height as i128
    };
    let width: u32 = if wsel < 0 {
        0
    } else if wsel > u32::MAX as i128 {
        u32::MAX
    } else {
        wsel as u32
    };
    let height: u32 = if hsel < 0 {
        0
    } else if hsel > u32::MAX as i128 {
        u32::MAX
    } else {
        hsel as u32
    };
    ClippedRect {
        x: if x >= pb.x as i64 {
            x
        } else {
            pb.x as i64
        },
        y: if y >= pb.y as i64 {
            y
        } else {
            pb.y as i64
        },
        width,
        height,
    }
}

/// One non-newline step of the text run: the head glyph, when visible,
/// leads the rest.
proof fn lemma_text_run_step(
    chars: Seq<char>,
    i: int,
    cur_x: i64,
    cur_y: i64,
    start_x: i64,
    pb: Bounds,
    gp: Pos,
)
    requires
        0 <= i < chars.len(),
        chars[i] != '\n',
    ensures
        glyph_visible(cur_x, cur_y, pb) ==> spec_text_run(chars, i, cur_x, cur_y, start_x, pb, gp)
            == seq![glyph_call(chars, i, cur_x, cur_y, gp)] + spec_text_run(
            chars,
            i + 1,
            sat_i64(cur_x + 8),
            cur_y,
            start_x,
            pb,
            gp,
        ),
        !glyph_visible(cur_x, cur_y, pb) ==> spec_text_run(chars, i, cur_x, cur_y, start_x, pb, gp)
            == spec_text_run(chars, i + 1, sat_i64(cur_x + 8), cur_y, start_x, pb, gp),
{
}







fn newline_char(c: char) -> (r: bool)
    ensures
        r == (c == '\n'),
{
    c == '\n'
}

/// Appending one element and then a tail equals appending the element-led
/// tail.
proof fn lemma_push_concat(a: Seq<CharCall>, x: CharCall, b: Seq<CharCall>)
    ensures
        a.push(x) + b == a + (seq![x] + b),
{
    assert(a.push(x) + b =~= a + (seq![x] + b));
}

/// Two stores that agree on everything but position components walk to the
/// same display list and the same accumulated origins: the walk reads only
/// bounds and offsets.
pub proof fn lemma_render_walk_congruent(
    a: ComponentStore,
    b: ComponentStore,
    tree: Tree,
    shapes: Seq<Option<ShapeKind>>,
    debug: bool,
    order: Seq<Entity>,
    i: int,
    offsets: Seq<Pos>,
)
    requires
        forall|e2: int, t2: CompTag|
            t2 != CompTag::Position ==> #[trigger] a.resolved(e2, t2) == b.resolved(e2, t2),
    ensures
        render_walk(a, tree, shapes, debug, order, i, offsets) == render_walk(
            b,
            tree,
            shapes,
            debug,
            order,
            i,
            offsets,
        ),
    decreases order.len() - i,
{
    if 0 <= i < order.len() {
        let node = order[i] as int;
        let parent = if 0 <= node < tree.parent@.len() {
            tree.parent@[node] as int
        } else {
            node
        };
        assert forall|e2: int| #[trigger] a.resolved(e2, CompTag::Offset) == b.resolved(
            e2,
            CompTag::Offset,
        ) by {}
        lemma_nearest_offset_congruent(a, b, tree, parent, tree.parent@.len());
        assert(bounds_or_default(a, node) == bounds_or_default(b, node));
        assert(bounds_or_default(a, parent) == bounds_or_default(b, parent));
        assert(render_step(a, tree, shapes, debug, offsets, node) == render_step(
            b,
            tree,
            shapes,
            debug,
            offsets,
            node,
        ));
        lemma_render_walk_congruent(
            a,
            b,
            tree,
            shapes,
            debug,
            order,
            i + 1,
            render_step(a, tree, shapes, debug, offsets, node).1,
        );
    }
}

/// Two stores that agree on every offset component agree on the nearest
/// inherited offset.
proof fn lemma_nearest_offset_congruent(
    a: ComponentStore,
    b: ComponentStore,
    tree: Tree,
    e: int,
    fuel: nat,
)
    requires
        forall|e2: int| #[trigger] a.resolved(e2, CompTag::Offset) == b.resolved(
            e2,
            CompTag::Offset,
        ),
    ensures
        nearest_offset(a, tree, e, fuel) == nearest_offset(b, tree, e, fuel),
    decreases fuel,
{
    if fuel > 0 && 0 <= e < tree.parent@.len() {
        match a.resolved(e, CompTag::Offset) {
            Some(Component::Offset(_)) => {},
            _ => {
                let p = tree.parent@[e];
                if p as int != e {
                    lemma_nearest_offset_congruent(a, b, tree, p as int, (fuel - 1) as nat);
                }
            },
        }
    }
}

} // verus!
