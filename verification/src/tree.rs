//! The ownership hierarchy of a world: entity identities, parent/child
//! adjacency, a designated root and a deterministic pre-order traversal.

use vstd::prelude::*;

verus! {

/// An opaque identifier for one node of the UI tree; identity only.
pub type Entity = u32;

/// An error from a tree mutation.
#[derive(Clone, Copy, PartialEq, Eq, Structural, Debug)]
pub enum TreeError {
    /// An entity index lies outside the tree.
    NotFound,
    /// The child is the root or already sits under a parent.
    Attached,
}

/// Parent and children maps over sequentially numbered entities. Entity 0 is
/// the root; a detached entity is recorded as its own parent.
#[derive(Clone, Debug)]
pub struct Tree {
    pub parent: Vec<Entity>,
    pub children: Vec<Vec<Entity>>,
}

impl Tree {
    /// The number of registered entities.
    pub open spec fn spec_len(self) -> nat {
        self.parent@.len()
    }

    /// Both maps cover the same entities, the root is its own parent, and the
    /// two maps agree: every listed child records that parent, and every
    /// attached entity is listed by its parent exactly once.
    pub open spec fn wf(self) -> bool {
        &&& self.children@.len() == self.parent@.len()
        &&& self.parent@.len() <= u32::MAX
        &&& (self.parent@.len() > 0 ==> self.parent@[0] == 0)
        &&& (forall|p: int, i: int|
            0 <= p < self.children@.len() && 0 <= i < self.children@[p]@.len()
                ==> {
                let c = #[trigger] self.children@[p]@[i];
                &&& 0 < c < self.parent@.len()
                &&& c != p
                &&& self.parent@[c as int] == p
            })
        &&& (forall|p: int, i: int, j: int|
            0 <= p < self.children@.len() && 0 <= i < j < self.children@[p]@.len()
                ==> #[trigger] self.children@[p]@[i] != #[trigger] self.children@[p]@[j])
        &&& (forall|c: int|
            1 <= c < self.parent@.len() ==> {
                let p = #[trigger] self.parent@[c];
                &&& p < self.parent@.len()
                &&& (p == c || self.children@[p as int]@.contains(c as Entity))
            })
    }

    pub fn new() -> (r: Tree)
        ensures
            r.wf(),
            r.spec_len() == 0,
    {
        Tree { parent: Vec::new(), children: Vec::new() }
    }

    /// The root entity.
    pub fn root(&self) -> (r: Entity)
        ensures
            r == 0,
    {
        0
    }

    pub fn len(&self) -> (r: usize)
        ensures
            r == self.spec_len(),
    {
        self.parent.len()
    }

    /// Registers a fresh, detached entity and returns its identifier.
    pub fn register_node(&mut self) -> (e: Entity)
        requires
            old(self).wf(),
            old(self).spec_len() < u32::MAX,
        ensures
            final(self).wf(),
            e == old(self).spec_len(),
            final(self).spec_len() == old(self).spec_len() + 1,
            final(self).parent@ == old(self).parent@.push(e),
            final(self).children@.len() == old(self).children@.len() + 1,
            forall|q: int|
                0 <= q < old(self).children@.len()
                    ==> final(self).children@[q] == #[trigger] old(self).children@[q],
            final(self).parent@[e as int] == e,
            final(self).children@[e as int]@ =~= Seq::<Entity>::empty(),
    {
        let e = self.parent.len() as u32;
        self.parent.push(e);
        self.children.push(Vec::new());
        assert(self.children@[e as int]@ =~= Seq::<Entity>::empty());
        e
    }

    /// Appends the detached entity `c` as the last child of `p`. The root
    /// cannot be appended, and an attached entity must be detached first.
    pub fn append_child(&mut self, p: Entity, c: Entity) -> (r: Result<Entity, TreeError>)
        requires
            old(self).wf(),
        ensures
            final(self).wf(),
            final(self).spec_len() == old(self).spec_len(),
            r is Ok <==> {
                &&& (p as int) < old(self).spec_len()
                &&& (c as int) < old(self).spec_len()
                &&& c != 0
                &&& c != p
                &&& old(self).parent@[c as int] == c
            },
            r is Ok ==> {
                &&& r->Ok_0 == c
                &&& final(self).parent@ == old(self).parent@.update(c as int, p)
                &&& final(self).children@[p as int]@ == old(self).children@[p as int]@.push(c)
                &&& (forall|q: int|
                    0 <= q < old(self).children@.len() && q != p
                        ==> final(self).children@[q] == #[trigger] old(self).children@[q])
            },
            r is Err ==> *final(self) == *old(self),
    {
        let n = self.parent.len();
        if (p as usize) >= n || (c as usize) >= n {
            return Err(TreeError::NotFound);
        }
        if c == 0 || c == p || self.parent[c as usize] != c {
            return Err(TreeError::Attached);
        }
        self.parent[c as usize] = p;
        let row = &mut self.children[p as usize];
        row.push(c);
        proof {
            let newt = *self;
            let oldt = *old(self);
            assert forall|q: int, i: int|
                0 <= q < newt.children@.len() && 0 <= i < newt.children@[q]@.len() implies {
                let cc = #[trigger] newt.children@[q]@[i];
                &&& 0 < cc < newt.parent@.len()
                &&& cc != q
                &&& newt.parent@[cc as int] == q
            } by {
                if q == p as int && i == newt.children@[q]@.len() - 1 {
                } else {
                    assert(newt.children@[q]@[i] == oldt.children@[q]@[i]);
                    assert(oldt.parent@[newt.children@[q]@[i] as int] == q);
                    assert(newt.children@[q]@[i] != c);
                }
            }
            assert forall|cc: int| 1 <= cc < newt.parent@.len() implies {
                let pp = #[trigger] newt.parent@[cc];
                &&& pp < newt.parent@.len()
                &&& (pp == cc || newt.children@[pp as int]@.contains(cc as Entity))
            } by {
                if cc == c as int {
                    assert(newt.children@[p as int]@[newt.children@[p as int]@.len() - 1]
                        == c);
                } else {
                    let pp = oldt.parent@[cc];
                    if pp != cc {
                        let i = choose|i: int|
                            0 <= i < oldt.children@[pp as int]@.len()
                                && oldt.children@[pp as int]@[i] == cc as Entity;
                        if pp as int == p as int {
                            assert(newt.children@[pp as int]@[i] == cc as Entity);
                        } else {
                            assert(newt.children@[pp as int]@[i] == cc as Entity);
                        }
                    }
                }
            }
        }
        Ok(c)
    }

    /// Detaches every child of `p`, leaving their own subtrees intact.
    pub fn clear_children_of(&mut self, p: Entity) -> (r: Result<(), TreeError>)
        requires
            old(self).wf(),
        ensures
            final(self).wf(),
            final(self).spec_len() == old(self).spec_len(),
            r is Ok <==> (p as int) < old(self).spec_len(),
            r is Err ==> *final(self) == *old(self),
            r is Ok ==> {
                &&& final(self).children@[p as int]@ =~= Seq::<Entity>::empty()
                &&& (forall|q: int|
                    0 <= q < old(self).children@.len() && q != p
                        ==> final(self).children@[q] == #[trigger] old(self).children@[q])
                &&& (forall|c: int|
                    0 <= c < old(self).parent@.len()
                        && !old(self).children@[p as int]@.contains(c as Entity)
                        ==> final(self).parent@[c] == #[trigger] old(self).parent@[c])
                &&& (forall|c: Entity|
                    old(self).children@[p as int]@.contains(c)
                        ==> final(self).parent@[c as int] == c)
            },
    {
        let n = self.parent.len();
        if (p as usize) >= n {
            return Err(TreeError::NotFound);
        }
        let ghost oldt = *old(self);
        let row_len = self.children[p as usize].len();
        let mut i: usize = 0;
        while i < row_len
            invariant
                oldt.wf(),
                (p as int) < oldt.spec_len(),
                i <= row_len,
                row_len == oldt.children@[p as int]@.len(),
                self.children@ == oldt.children@,
                self.parent@.len() == oldt.parent@.len(),
                forall|c: int|
                    0 <= c < oldt.parent@.len()
                        && !oldt.children@[p as int]@.subrange(0, i as int).contains(c as Entity)
                        ==> self.parent@[c] == #[trigger] oldt.parent@[c],
                forall|j: int|
                    0 <= j < i ==> {
                        let c = #[trigger] oldt.children@[p as int]@[j];
                        self.parent@[c as int] == c
                    },
            decreases row_len - i,
        {
            let c = self.children[p as usize][i];
            assert(oldt.children@[p as int]@[i as int] == c);
            self.parent[c as usize] = c;
            proof {
                assert forall|cc: int|
                    0 <= cc < oldt.parent@.len()
                        && !oldt.children@[p as int]@.subrange(0, i + 1int).contains(cc as Entity)
                        implies self.parent@[cc] == oldt.parent@[cc] by {
                    assert(!oldt.children@[p as int]@.subrange(0, i as int).contains(cc as Entity))
                        by {
                        if oldt.children@[p as int]@.subrange(0, i as int).contains(cc as Entity) {
                            let j = choose|j: int|
                                0 <= j < i && oldt.children@[p as int]@.subrange(0, i as int)[j]
                                    == cc as Entity;
                            assert(oldt.children@[p as int]@.subrange(0, i + 1int)[j]
                                == cc as Entity);
                        }
                    }
                    assert(cc != c as int) by {
                        if cc == c as int {
                            assert(oldt.children@[p as int]@.subrange(0, i + 1int)[i as int]
                                == cc as Entity);
                        }
                    }
                }
                assert forall|j: int| 0 <= j < i + 1 implies {
                    let cc = #[trigger] oldt.children@[p as int]@[j];
                    self.parent@[cc as int] == cc
                } by {
                    if j < i {
                        let cc = oldt.children@[p as int]@[j];
                        assert(cc != c) by {
                            if cc == c {
                                assert(oldt.children@[p as int]@[j]
                                    == oldt.children@[p as int]@[i as int]);
                            }
                        }
                    }
                }
            }
            i = i + 1;
        }
        let row = &mut self.children[p as usize];
        row.clear();
        proof {
            let newt = *self;
            assert(newt.children@[p as int]@ =~= Seq::<Entity>::empty());
            assert forall|c: int|
                0 <= c < oldt.parent@.len()
                    && !oldt.children@[p as int]@.contains(c as Entity)
                    implies newt.parent@[c] == oldt.parent@[c] by {
                assert(oldt.children@[p as int]@.subrange(0, row_len as int)
                    =~= oldt.children@[p as int]@);
            }
            assert forall|c: Entity| oldt.children@[p as int]@.contains(c)
                implies newt.parent@[c as int] == c by {
                let j = choose|j: int|
                    0 <= j < oldt.children@[p as int]@.len() && oldt.children@[p as int]@[j] == c;
            }
            assert(newt.wf()) by {
                assert forall|q: int, i2: int|
                    0 <= q < newt.children@.len() && 0 <= i2 < newt.children@[q]@.len()
                        implies {
                    let cc = #[trigger] newt.children@[q]@[i2];
                    &&& 0 < cc < newt.parent@.len()
                    &&& cc != q
                    &&& newt.parent@[cc as int] == q
                } by {
                    assert(q != p as int);
                    let cc = newt.children@[q]@[i2];
                    assert(oldt.children@[q]@[i2] == cc);
                    assert(!oldt.children@[p as int]@.contains(cc)) by {
                        if oldt.children@[p as int]@.contains(cc) {
                            assert(oldt.parent@[cc as int] == p);
                            assert(oldt.parent@[cc as int] == q);
                        }
                    }
                }
                assert forall|cc: int| 1 <= cc < newt.parent@.len() implies {
                    let pp = #[trigger] newt.parent@[cc];
                    &&& pp < newt.parent@.len()
                    &&& (pp == cc || newt.children@[pp as int]@.contains(cc as Entity))
                } by {
                    if oldt.children@[p as int]@.contains(cc as Entity) {
                        assert(newt.parent@[cc] == cc);
                    } else {
                        assert(newt.parent@[cc] == oldt.parent@[cc]);
                        let pp = oldt.parent@[cc];
                        if pp != cc {
                            if pp as int == p as int {
                                let j = choose|j: int|
                                    0 <= j < oldt.children@[p as int]@.len()
                                        && oldt.children@[p as int]@[j] == cc as Entity;
                                assert(oldt.children@[p as int]@.contains(cc as Entity));
                            } else {
                                let j = choose|j: int|
                                    0 <= j < oldt.children@[pp as int]@.len()
                                        && oldt.children@[pp as int]@[j] == cc as Entity;
                                assert(newt.children@[pp as int]@[j] == cc as Entity);
                            }
                        }
                    }
                }
            }
        }
        Ok(())
    }
}

/// The pre-order listing of the subtree under `e`: the node itself, then each
/// child's subtree in list order. The budget `fuel` bounds the recursion
/// depth; one more than the node count always suffices for a tree the
/// builder made.
pub open spec fn pre_node(t: Tree, e: Entity, fuel: nat) -> Seq<Entity>
    decreases fuel, t.children@[e as int]@.len() + 1,
{
    if fuel == 0 {
        Seq::empty()
    } else {
        seq![e] + pre_list(t, e, 0, fuel)
    }
}

/// The concatenated pre-order listings of the children of `e` from index `i`
/// on.
pub open spec fn pre_list(t: Tree, e: Entity, i: int, fuel: nat) -> Seq<Entity>
    decreases fuel, t.children@[e as int]@.len() - i,
{
    if fuel == 0 || i < 0 || i >= t.children@[e as int]@.len() {
        Seq::empty()
    } else {
        pre_node(t, t.children@[e as int]@[i], (fuel - 1) as nat) + pre_list(t, e, i + 1, fuel)
    }
}

/// The deterministic pre-order traversal of the whole tree, starting at the
/// root.
pub open spec fn spec_pre_order(t: Tree) -> Seq<Entity> {
    if t.spec_len() == 0 {
        Seq::empty()
    } else {
        pre_node(t, 0, t.spec_len() + 1)
    }
}

impl Tree {
    /// Appends the pre-order listing of the subtree under `e` to `out`.
    fn pre_node_exec(&self, e: Entity, fuel: u64, out: &mut Vec<Entity>)
        requires
            self.wf(),
            (e as int) < self.spec_len(),
        ensures
            final(out)@ == old(out)@ + pre_node(*self, e, fuel as nat),
        decreases fuel,
    {
        if fuel == 0 {
            assert(final(out)@ =~= old(out)@ + pre_node(*self, e, 0));
            return ;
        }
        out.push(e);
        let ghost base = old(out)@;
        let row_len = self.children[e as usize].len();
        let mut i: usize = 0;
        while i < row_len
            invariant
                self.wf(),
                (e as int) < self.spec_len(),
                fuel > 0,
                i <= row_len,
                row_len == self.children@[e as int]@.len(),
                out@ + pre_list(*self, e, i as int, fuel as nat) == base + pre_node(
                    *self,
                    e,
                    fuel as nat,
                ),
            decreases row_len - i,
        {
            let c = self.children[e as usize][i];
            let ghost before = out@;
            self.pre_node_exec(c, fuel - 1, out);
            proof {
                assert(out@ + pre_list(*self, e, i + 1int, fuel as nat) =~= before + (pre_node(
                    *self,
                    c,
                    (fuel - 1) as nat,
                ) + pre_list(*self, e, i + 1int, fuel as nat)));
                assert(pre_node(*self, c, (fuel - 1) as nat) + pre_list(
                    *self,
                    e,
                    i + 1int,
                    fuel as nat,
                ) == pre_list(*self, e, i as int, fuel as nat));
            }
            i = i + 1;
        }
        proof {
            assert(pre_list(*self, e, row_len as int, fuel as nat) =~= Seq::<Entity>::empty());
            assert(out@ =~= out@ + pre_list(*self, e, row_len as int, fuel as nat));
        }
    }

    /// Lists every entity reachable from the root in pre-order: each node
    /// before its children, children in list order.
    pub fn pre_order(&self) -> (r: Vec<Entity>)
        requires
            self.wf(),
        ensures
            r@ == spec_pre_order(*self),
    {
        let mut out: Vec<Entity> = Vec::new();
        if self.parent.len() > 0 {
            let fuel = self.parent.len() as u64 + 1;
            self.pre_node_exec(0, fuel, &mut out);
            assert(out@ =~= Seq::<Entity>::empty() + pre_node(*self, 0, self.spec_len() + 1));
        }
        out
    }
}


/// The identity listing of the entities from `lo` up to `hi`.
pub open spec fn id_seq(lo: int, hi: int) -> Seq<Entity> {
    Seq::new(
        if hi >= lo {
            (hi - lo) as nat
        } else {
            0
        },
        |i: int| (lo + i) as Entity,
    )
}

/// Every child of every node in `[lo, hi)` lies strictly between its parent
/// and `hi`: the shape a depth-first builder leaves behind.
pub open spec fn range_closed(t: Tree, lo: int, hi: int) -> bool {
    forall|x: int, k: int|
        lo <= x < hi && 0 <= k < t.children@[x]@.len() ==> x < #[trigger] t.children@[x]@[k]
            && (t.children@[x]@[k] as int) < hi
}

/// Two trees agreeing on the children of every node of a closed range agree
/// on the pre-order listing of any subtree rooted inside it.
pub proof fn lemma_pre_node_frame(t1: Tree, t2: Tree, e: int, lo: int, hi: int, fuel: nat)
    requires
        0 <= lo <= e < hi,
        hi <= u32::MAX,
        hi <= t1.children@.len(),
        hi <= t2.children@.len(),
        forall|x: int| lo <= x < hi ==> t1.children@[x] == #[trigger] t2.children@[x],
        range_closed(t1, lo, hi),
    ensures
        pre_node(t1, e as Entity, fuel) == pre_node(t2, e as Entity, fuel),
    decreases fuel, t1.children@[e]@.len() + 1,
{
    if fuel > 0 {
        lemma_pre_list_frame(t1, t2, e, 0, lo, hi, fuel);
    }
}

/// The list half of the pre-order frame argument.
pub proof fn lemma_pre_list_frame(t1: Tree, t2: Tree, e: int, i: int, lo: int, hi: int, fuel: nat)
    requires
        0 <= lo <= e < hi,
        hi <= u32::MAX,
        hi <= t1.children@.len(),
        hi <= t2.children@.len(),
        forall|x: int| lo <= x < hi ==> t1.children@[x] == #[trigger] t2.children@[x],
        range_closed(t1, lo, hi),
        0 <= i <= t1.children@[e]@.len(),
        fuel > 0,
    ensures
        pre_list(t1, e as Entity, i, fuel) == pre_list(t2, e as Entity, i, fuel),
    decreases fuel, t1.children@[e]@.len() - i,
{
    if i < t1.children@[e]@.len() {
        let c = t1.children@[e]@[i];
        assert((e as Entity) as int == e);
        assert(t2.children@[e] == t1.children@[e]);
        assert(lo <= c as int && (c as int) < hi);
        lemma_pre_node_frame(t1, t2, c as int, lo, hi, (fuel - 1) as nat);
        lemma_pre_list_frame(t1, t2, e, i + 1, lo, hi, fuel);
        assert((c as int) as Entity == c);
        assert(pre_node(t1, c, (fuel - 1) as nat) == pre_node(t2, c, (fuel - 1) as nat));
        assert(pre_list(t1, e as Entity, i, fuel) == pre_node(t1, c, (fuel - 1) as nat)
            + pre_list(t1, e as Entity, i + 1, fuel));
        assert(pre_list(t2, e as Entity, i, fuel) == pre_node(t2, c, (fuel - 1) as nat)
            + pre_list(t2, e as Entity, i + 1, fuel));
    }
}

/// Appending a child to a node extends the node's child listing by the
/// child's subtree, when the child's own subtree lies in a closed range
/// beyond the node.
pub proof fn lemma_pre_list_append(t1: Tree, t2: Tree, e: int, c: Entity, i: int, fuel: nat)
    requires
        t1.children@.len() == t2.children@.len(),
        t1.children@.len() <= u32::MAX,
        0 <= e < t1.children@.len(),
        t2.children@[e]@ == t1.children@[e]@.push(c),
        forall|x: int|
            0 <= x < t1.children@.len() && x != e ==> t1.children@[x]
                == #[trigger] t2.children@[x],
        e < c as int,
        (c as int) < t1.children@.len(),
        range_closed(t2, 0, t2.children@.len() as int),
        0 <= i <= t1.children@[e]@.len(),
        fuel > 0,
    ensures
        pre_list(t2, e as Entity, i, fuel) == pre_list(t1, e as Entity, i, fuel) + pre_node(
            t2,
            c,
            (fuel - 1) as nat,
        ),
    decreases t1.children@[e]@.len() - i,
{
    let n1 = t1.children@[e]@.len() as int;
    if i == n1 {
        assert(t2.children@[e]@[i] == c);
        assert(pre_list(t2, e as Entity, i + 1, fuel) =~= Seq::<Entity>::empty());
        assert(pre_list(t1, e as Entity, i, fuel) =~= Seq::<Entity>::empty());
        assert(pre_list(t2, e as Entity, i, fuel) =~= pre_node(t2, c, (fuel - 1) as nat)
            + pre_list(t2, e as Entity, i + 1, fuel));
        assert(pre_list(t2, e as Entity, i, fuel) =~= pre_list(t1, e as Entity, i, fuel)
            + pre_node(t2, c, (fuel - 1) as nat));
    } else {
        let kid = t1.children@[e]@[i];
        assert(t2.children@[e]@[i] == kid);
        lemma_pre_list_append(t1, t2, e, c, i + 1, fuel);
        assert(e + 1 <= kid as int && (kid as int) < t1.children@.len()) by {
            assert(t2.children@[e]@[i] == kid);
            lemma_range_closed_child(t2, e, i);
        }
        assert(range_closed(t2, e + 1, t2.children@.len() as int)) by {
            assert forall|x: int, k: int|
                e + 1 <= x < t2.children@.len() && 0 <= k < t2.children@[x]@.len() implies x
                < #[trigger] t2.children@[x]@[k] && (t2.children@[x]@[k] as int)
                < t2.children@.len() by {
                assert(range_closed(t2, 0, t2.children@.len() as int));
            }
        }
        lemma_pre_node_frame(
            t2,
            t1,
            kid as int,
            e + 1,
            t2.children@.len() as int,
            (fuel - 1) as nat,
        );
        assert(pre_node(t1, kid, (fuel - 1) as nat) + (pre_list(t1, e as Entity, i + 1, fuel)
            + pre_node(t2, c, (fuel - 1) as nat)) =~= (pre_node(t1, kid, (fuel - 1) as nat)
            + pre_list(t1, e as Entity, i + 1, fuel)) + pre_node(t2, c, (fuel - 1) as nat));
    }
}

/// In a tree whose whole index range is closed, a child of any node stays
/// above its parent and inside the range.
proof fn lemma_range_closed_child(t: Tree, e: int, i: int)
    requires
        range_closed(t, 0, t.children@.len() as int),
        0 <= e < t.children@.len(),
        0 <= i < t.children@[e]@.len(),
    ensures
        e < t.children@[e]@[i] as int,
        (t.children@[e]@[i] as int) < t.children@.len(),
{
}

/// Splitting the identity listing at any point splits it into identity
/// listings.
pub proof fn lemma_id_seq_concat(a: int, b: int, c: int)
    requires
        a <= b <= c,
    ensures
        id_seq(a, b) + id_seq(b, c) =~= id_seq(a, c),
{
}


/// Every entity a subtree's pre-order listing names lies inside the tree.
pub proof fn lemma_pre_node_in_range(t: Tree, e: Entity, fuel: nat)
    requires
        t.wf(),
        (e as int) < t.spec_len(),
    ensures
        forall|k: int|
            0 <= k < pre_node(t, e, fuel).len() ==> (#[trigger] pre_node(t, e, fuel)[k] as int)
                < t.spec_len(),
    decreases fuel, t.children@[e as int]@.len() + 1,
{
    if fuel > 0 {
        lemma_pre_list_in_range(t, e, 0, fuel);
        assert forall|k: int| 0 <= k < pre_node(t, e, fuel).len() implies (#[trigger] pre_node(
            t,
            e,
            fuel,
        )[k] as int) < t.spec_len() by {
            if k > 0 {
                assert(pre_node(t, e, fuel)[k] == pre_list(t, e, 0, fuel)[k - 1]);
            }
        }
    }
}

/// The list half of the range argument.
proof fn lemma_pre_list_in_range(t: Tree, e: Entity, i: int, fuel: nat)
    requires
        t.wf(),
        (e as int) < t.spec_len(),
        0 <= i,
    ensures
        forall|k: int|
            0 <= k < pre_list(t, e, i, fuel).len() ==> (#[trigger] pre_list(t, e, i, fuel)[
            k] as int) < t.spec_len(),
    decreases fuel, t.children@[e as int]@.len() - i,
{
    if fuel > 0 && i < t.children@[e as int]@.len() {
        let c = t.children@[e as int]@[i];
        lemma_pre_node_in_range(t, c, (fuel - 1) as nat);
        lemma_pre_list_in_range(t, e, i + 1, fuel);
        assert forall|k: int| 0 <= k < pre_list(t, e, i, fuel).len() implies (
        #[trigger] pre_list(t, e, i, fuel)[k] as int) < t.spec_len() by {
            let head = pre_node(t, c, (fuel - 1) as nat);
            if k < head.len() {
                assert(pre_list(t, e, i, fuel)[k] == head[k]);
            } else {
                assert(pre_list(t, e, i, fuel)[k] == pre_list(t, e, i + 1, fuel)[k - head.len()]);
            }
        }
    }
}

/// Every entity the whole pre-order traversal names lies inside the tree.
pub proof fn lemma_pre_order_in_range(t: Tree)
    requires
        t.wf(),
    ensures
        forall|k: int|
            0 <= k < spec_pre_order(t).len() ==> (#[trigger] spec_pre_order(t)[k] as int)
                < t.spec_len(),
{
    if t.spec_len() > 0 {
        lemma_pre_node_in_range(t, 0, t.spec_len() + 1);
    }
}

} // verus!
