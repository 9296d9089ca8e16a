//! The component store: per-entity, per-type storage in a tagged-envelope
//! arena, with shared properties resolved through an explicit indirection
//! record at read and write time.

use vstd::prelude::*;
use crate::selector::Selector;
use crate::structs::{Bounds, Brush, Constraint, Padding, Point};
use crate::theme::Theme;
use crate::tree::Entity;

verus! {

/// Whether an entity is shown, hidden but space-keeping, or collapsed.
#[derive(Clone, Copy, PartialEq, Eq, Structural, Debug)]
pub enum Visibility {
    Visible,
    Hidden,
    Collapsed,
}

/// One column of a grid: a fixed pixel width or a stretch share.
#[derive(Clone, Copy, PartialEq, Eq, Structural, Debug)]
pub enum ColumnWidth {
    Px(u32),
    Stretch,
}

/// A text cursor selection: a start position and a length.
#[derive(Clone, Copy, PartialEq, Eq, Structural, Debug)]
pub struct TextSelection {
    pub start_index: usize,
    pub length: usize,
}

/// The one well-known component of the window-root entity: cross-widget
/// shared state, owned by the world rather than by ambient process state.
#[derive(Debug)]
pub struct Global {
    pub theme: Theme,
    pub focused_widget: Option<Entity>,
}

/// A typed value attachable to exactly one entity; at most one component of
/// a given tag per entity.
#[derive(Debug)]
pub enum Component {
    Bounds(Bounds),
    Position(Point),
    Selector(Selector),
    Global(Global),
    Visibility(Visibility),
    Column(u32),
    Columns(Vec<ColumnWidth>),
    Text(String),
    LocalizedText(String),
    WaterMark(String),
    Focused(bool),
    Enabled(bool),
    Localizable(bool),
    LineWrap(bool),
    Selection(TextSelection),
    ScrollOffset(Point),
    Offset(Point),
    Padding(Padding),
    Constraint(Constraint),
    FontSize(u32),
    Font(String),
    Foreground(Brush),
    Background(Brush),
    ContentId(u32),
    Margin(Padding),
    Responsive(bool),
    BreakPoint(u32),
    MasterWidth(u32),
    NavigationVisibility(Visibility),
}

/// The type tag of a component: the key half of the (entity, type) lookup.
#[derive(Clone, Copy, PartialEq, Eq, Structural, Debug)]
pub enum CompTag {
    Bounds,
    Position,
    Selector,
    Global,
    Visibility,
    Column,
    Columns,
    Text,
    LocalizedText,
    WaterMark,
    Focused,
    Enabled,
    Localizable,
    LineWrap,
    Selection,
    ScrollOffset,
    Offset,
    Padding,
    Constraint,
    FontSize,
    Font,
    Foreground,
    Background,
    ContentId,
    Margin,
    Responsive,
    BreakPoint,
    MasterWidth,
    NavigationVisibility,
}

/// The tag a component value carries.
pub open spec fn tag_of(c: Component) -> CompTag {
    match c {
        Component::Bounds(_) => CompTag::Bounds,
        Component::Position(_) => CompTag::Position,
        Component::Selector(_) => CompTag::Selector,
        Component::Global(_) => CompTag::Global,
        Component::Visibility(_) => CompTag::Visibility,
        Component::Column(_) => CompTag::Column,
        Component::Columns(_) => CompTag::Columns,
        Component::Text(_) => CompTag::Text,
        Component::LocalizedText(_) => CompTag::LocalizedText,
        Component::WaterMark(_) => CompTag::WaterMark,
        Component::Focused(_) => CompTag::Focused,
        Component::Enabled(_) => CompTag::Enabled,
        Component::Localizable(_) => CompTag::Localizable,
        Component::LineWrap(_) => CompTag::LineWrap,
        Component::Selection(_) => CompTag::Selection,
        Component::ScrollOffset(_) => CompTag::ScrollOffset,
        Component::Offset(_) => CompTag::Offset,
        Component::Padding(_) => CompTag::Padding,
        Component::Constraint(_) => CompTag::Constraint,
        Component::FontSize(_) => CompTag::FontSize,
        Component::Font(_) => CompTag::Font,
        Component::Foreground(_) => CompTag::Foreground,
        Component::Background(_) => CompTag::Background,
        Component::ContentId(_) => CompTag::ContentId,
        Component::Margin(_) => CompTag::Margin,
        Component::Responsive(_) => CompTag::Responsive,
        Component::BreakPoint(_) => CompTag::BreakPoint,
        Component::MasterWidth(_) => CompTag::MasterWidth,
        Component::NavigationVisibility(_) => CompTag::NavigationVisibility,
    }
}

impl Component {
    /// The tag of this component.
    pub fn tag(&self) -> (t: CompTag)
        ensures
            t == tag_of(*self),
    {
        match self {
            Component::Bounds(_) => CompTag::Bounds,
            Component::Position(_) => CompTag::Position,
            Component::Selector(_) => CompTag::Selector,
            Component::Global(_) => CompTag::Global,
            Component::Visibility(_) => CompTag::Visibility,
            Component::Column(_) => CompTag::Column,
            Component::Columns(_) => CompTag::Columns,
            Component::Text(_) => CompTag::Text,
            Component::LocalizedText(_) => CompTag::LocalizedText,
            Component::WaterMark(_) => CompTag::WaterMark,
            Component::Focused(_) => CompTag::Focused,
            Component::Enabled(_) => CompTag::Enabled,
            Component::Localizable(_) => CompTag::Localizable,
            Component::LineWrap(_) => CompTag::LineWrap,
            Component::Selection(_) => CompTag::Selection,
            Component::ScrollOffset(_) => CompTag::ScrollOffset,
            Component::Offset(_) => CompTag::Offset,
            Component::Padding(_) => CompTag::Padding,
            Component::Constraint(_) => CompTag::Constraint,
            Component::FontSize(_) => CompTag::FontSize,
            Component::Font(_) => CompTag::Font,
            Component::Foreground(_) => CompTag::Foreground,
            Component::Background(_) => CompTag::Background,
            Component::ContentId(_) => CompTag::ContentId,
            Component::Margin(_) => CompTag::Margin,
            Component::Responsive(_) => CompTag::Responsive,
            Component::BreakPoint(_) => CompTag::BreakPoint,
            Component::MasterWidth(_) => CompTag::MasterWidth,
            Component::NavigationVisibility(_) => CompTag::NavigationVisibility,
        }
    }
}

/// A store access error: a missing component is a distinct, explicit
/// failure. The tagged envelope makes a wrong-type read impossible here —
/// the tag is the key — so only a type-erased backend would ever report the
/// mismatch case.
#[derive(Clone, Copy, PartialEq, Eq, Structural, Debug)]
pub enum StoreError {
    NotFound,
    TypeMismatch,
}

/// One entry of an entity's row: an owned component, or an indirection to
/// the entity owning the shared component of that tag.
#[derive(Debug)]
pub enum Slot {
    Owned(Component),
    Shared(Entity, CompTag),
}

/// The tag a slot is filed under.
pub open spec fn slot_tag(s: Slot) -> CompTag {
    match s {
        Slot::Owned(c) => tag_of(c),
        Slot::Shared(_, t) => t,
    }
}

/// The first slot of the row filed under the tag.
pub open spec fn row_lookup(row: Seq<Slot>, tag: CompTag) -> Option<Slot>
    decreases row.len(),
{
    if row.len() == 0 {
        None
    } else if slot_tag(row[0]) == tag {
        Some(row[0])
    } else {
        row_lookup(row.drop_first(), tag)
    }
}

/// No two slots of the row share a tag.
pub open spec fn row_distinct(row: Seq<Slot>) -> bool {
    forall|i: int, j: int|
        0 <= i < j < row.len() ==> slot_tag(#[trigger] row[i]) != slot_tag(#[trigger] row[j])
}

/// Per-entity, per-tag storage with shared-property indirection.
#[derive(Debug)]
pub struct ComponentStore {
    pub rows: Vec<Vec<Slot>>,
}

impl ComponentStore {
    /// How many entities have rows.
    pub open spec fn spec_len(self) -> nat {
        self.rows@.len()
    }

    /// The slot stored at (entity, tag), before any indirection.
    pub open spec fn raw(self, e: int, tag: CompTag) -> Option<Slot> {
        if 0 <= e < self.rows@.len() {
            row_lookup(self.rows@[e]@, tag)
        } else {
            None
        }
    }

    /// The entity whose row owns the component read at (entity, tag): the
    /// entity itself, or the source its shared slot names.
    pub open spec fn spec_owner(self, e: int, tag: CompTag) -> Option<int> {
        match self.raw(e, tag) {
            None => None,
            Some(Slot::Owned(_)) => Some(e),
            Some(Slot::Shared(src, _)) => Some(src as int),
        }
    }

    /// The component a read at (entity, tag) resolves to: the owned value,
    /// or the current value stored at the designated source entity.
    pub open spec fn resolved(self, e: int, tag: CompTag) -> Option<Component> {
        match self.spec_owner(e, tag) {
            None => None,
            Some(o) => match self.raw(o, tag) {
                Some(Slot::Owned(c)) => Some(c),
                _ => None,
            },
        }
    }

    /// Every row keeps one slot per tag, and every indirection names an
    /// entity inside the store.
    pub open spec fn wf(self) -> bool {
        &&& (forall|e: int| 0 <= e < self.rows@.len() ==> row_distinct(#[trigger] self.rows@[e]@))
        &&& (forall|e: int, i: int|
            0 <= e < self.rows@.len() && 0 <= i < self.rows@[e]@.len() ==> match #[trigger] self.rows@[e]@[i] {
                Slot::Shared(src, _) => (src as int) < self.rows@.len(),
                Slot::Owned(_) => true,
            })
    }

    pub fn new() -> (r: ComponentStore)
        ensures
            r.wf(),
            r.spec_len() == 0,
    {
        ComponentStore { rows: Vec::new() }
    }

    pub fn len(&self) -> (r: usize)
        ensures
            r == self.spec_len(),
    {
        self.rows.len()
    }

    /// Adds a row for the next entity.
    pub fn register_entity(&mut self)
        requires
            old(self).wf(),
        ensures
            final(self).wf(),
            final(self).spec_len() == old(self).spec_len() + 1,
            forall|e: int, t: CompTag|
                #[trigger] final(self).raw(e, t) == old(self).raw(e, t),
    {
        self.rows.push(Vec::new());
        proof {
            let newt = *self;
            let oldt = *old(self);
            assert forall|e: int, t: CompTag| #[trigger] newt.raw(e, t) == oldt.raw(e, t) by {
                if 0 <= e < oldt.rows@.len() {
                    assert(newt.rows@[e] == oldt.rows@[e]);
                } else if e == oldt.rows@.len() {
                    assert(newt.rows@[e]@ =~= Seq::<Slot>::empty());
                }
            }
        }
    }
}

/// The tag a slot is filed under.
fn slot_tag_exec(s: &Slot) -> (t: CompTag)
    ensures
        t == slot_tag(*s),
{
    match s {
        Slot::Owned(c) => c.tag(),
        Slot::Shared(_, t) => *t,
    }
}

/// Finds the index of the slot filed under the tag, if the row holds one.
fn find_in_row(row: &Vec<Slot>, tag: CompTag) -> (r: Option<usize>)
    ensures
        match r {
            Some(i) => i < row@.len() && slot_tag(row@[i as int]) == tag && row_lookup(row@, tag)
                == Some(row@[i as int]),
            None => row_lookup(row@, tag) is None,
        },
{
    let n = row.len();
    let mut j: usize = 0;
    proof {
        assert(row@.skip(0) =~= row@);
    }
    while j < n
        invariant
            j <= n,
            n == row@.len(),
            row_lookup(row@, tag) == row_lookup(row@.skip(j as int), tag),
        decreases n - j,
    {
        proof {
            assert(row@.skip(j as int)[0] == row@[j as int]);
            assert(row@.skip(j as int).drop_first() =~= row@.skip(j + 1int));
        }
        if slot_tag_exec(&row[j]) == tag {
            return Some(j);
        }
        j = j + 1;
    }
    proof {
        assert(row@.skip(n as int).len() == 0);
    }
    None
}

/// Updating a slot in place, under the same tag, changes the lookup for that
/// tag alone and keeps the row's tags distinct.
proof fn lemma_row_lookup_update(row: Seq<Slot>, i: int, s: Slot, t2: CompTag)
    requires
        0 <= i < row.len(),
        row_distinct(row),
        slot_tag(row[i]) == slot_tag(s),
    ensures
        row_lookup(row.update(i, s), t2) == (if t2 == slot_tag(s) {
            Some(s)
        } else {
            row_lookup(row, t2)
        }),
        row_distinct(row.update(i, s)),
    decreases row.len(),
{
    assert forall|a: int, b: int| 0 <= a < b < row.update(i, s).len() implies slot_tag(
        #[trigger] row.update(i, s)[a],
    ) != slot_tag(#[trigger] row.update(i, s)[b]) by {
        assert(slot_tag(row[a]) != slot_tag(row[b]));
    }
    if i == 0 {
        assert(row.update(0, s).drop_first() =~= row.drop_first());
    } else {
        assert(row.update(i, s)[0] == row[0]);
        assert(row.update(i, s).drop_first() =~= row.drop_first().update(i - 1, s));
        assert(row_distinct(row.drop_first())) by {
            assert forall|a: int, b: int|
                0 <= a < b < row.drop_first().len() implies slot_tag(
                #[trigger] row.drop_first()[a],
            ) != slot_tag(#[trigger] row.drop_first()[b]) by {
                assert(row.drop_first()[a] == row[a + 1]);
                assert(row.drop_first()[b] == row[b + 1]);
            }
        }
        lemma_row_lookup_update(row.drop_first(), i - 1, s, t2);
        assert(slot_tag(row[0]) != slot_tag(s));
    }
}

/// Appending a slot under a tag the row lacks changes the lookup for that
/// tag alone and keeps the row's tags distinct.
proof fn lemma_row_lookup_push(row: Seq<Slot>, s: Slot, t2: CompTag)
    requires
        row_distinct(row),
        row_lookup(row, slot_tag(s)) is None,
    ensures
        row_lookup(row.push(s), t2) == (if t2 == slot_tag(s) {
            Some(s)
        } else {
            row_lookup(row, t2)
        }),
        row_distinct(row.push(s)),
    decreases row.len(),
{
    lemma_row_lookup_none(row, slot_tag(s));
    assert forall|a: int, b: int| 0 <= a < b < row.push(s).len() implies slot_tag(
        #[trigger] row.push(s)[a],
    ) != slot_tag(#[trigger] row.push(s)[b]) by {
        if b < row.len() {
            assert(row.push(s)[a] == row[a]);
            assert(row.push(s)[b] == row[b]);
        } else {
            assert(row.push(s)[a] == row[a]);
            assert(row.push(s)[b] == s);
        }
    }
    if row.len() == 0 {
        assert(row.push(s)[0] == s);
        assert(row.push(s).drop_first() =~= Seq::<Slot>::empty());
    } else {
        assert(row.push(s)[0] == row[0]);
        assert(row_lookup(row.drop_first(), slot_tag(s)) is None);
        assert(row.push(s).drop_first() =~= row.drop_first().push(s));
        assert(row_distinct(row.drop_first())) by {
            assert forall|a: int, b: int|
                0 <= a < b < row.drop_first().len() implies slot_tag(
                #[trigger] row.drop_first()[a],
            ) != slot_tag(#[trigger] row.drop_first()[b]) by {
                assert(row.drop_first()[a] == row[a + 1]);
                assert(row.drop_first()[b] == row[b + 1]);
            }
        }
        lemma_row_lookup_push(row.drop_first(), s, t2);
        assert(row_lookup(row.push(s).drop_first(), t2) == row_lookup(
            row.drop_first().push(s),
            t2,
        ));
        assert(slot_tag(row[0]) != slot_tag(s));
        if t2 == slot_tag(s) {
            assert(row_lookup(row.push(s), t2) == row_lookup(row.push(s).drop_first(), t2));
            assert(row_lookup(row.push(s), t2) == Some(s));
        } else {
            if slot_tag(row[0]) == t2 {
                assert(row_lookup(row.push(s), t2) == Some(row[0]));
                assert(row_lookup(row, t2) == Some(row[0]));
            } else {
                assert(row_lookup(row.push(s), t2) == row_lookup(row.drop_first().push(s), t2));
                assert(row_lookup(row, t2) == row_lookup(row.drop_first(), t2));
            }
        }
    }
}

/// A row without a slot under the tag holds no slot with that tag.
proof fn lemma_row_lookup_none(row: Seq<Slot>, tag: CompTag)
    requires
        row_lookup(row, tag) is None,
    ensures
        forall|i: int| 0 <= i < row.len() ==> slot_tag(#[trigger] row[i]) != tag,
    decreases row.len(),
{
    if row.len() > 0 {
        lemma_row_lookup_none(row.drop_first(), tag);
        assert forall|i: int| 0 <= i < row.len() implies slot_tag(#[trigger] row[i]) != tag by {
            if i > 0 {
                assert(row.drop_first()[i - 1] == row[i]);
            }
        }
    }
}

impl ComponentStore {
    /// Writes an owned component at (entity, tag), replacing the entity's
    /// own slot for that tag: a fresh value breaks an alias rather than
    /// writing through it.
    pub fn insert(&mut self, e: Entity, c: Component) -> (r: Result<(), StoreError>)
        requires
            old(self).wf(),
        ensures
            final(self).wf(),
            final(self).spec_len() == old(self).spec_len(),
            r is Ok <==> (e as int) < old(self).spec_len(),
            r is Err ==> *final(self) == *old(self) && r->Err_0 == StoreError::NotFound,
            r is Ok ==> forall|e2: int, t2: CompTag|
                #[trigger] final(self).raw(e2, t2) == (if e2 == e as int && t2 == tag_of(c) {
                    Some(Slot::Owned(c))
                } else {
                    old(self).raw(e2, t2)
                }),
    {
        let n = self.rows.len();
        if (e as usize) >= n {
            return Err(StoreError::NotFound);
        }
        let ghost oldst = *old(self);
        let tag = c.tag();
        let ghost cval = c;
        let found = find_in_row(&self.rows[e as usize], tag);
        match found {
            Some(i) => {
                let row = &mut self.rows[e as usize];
                row[i] = Slot::Owned(c);
                proof {
                    lemma_row_lookup_update(
                        oldst.rows@[e as int]@,
                        i as int,
                        Slot::Owned(cval),
                        CompTag::Bounds,
                    );
                    assert forall|e2: int, t2: CompTag| #[trigger] self.raw(e2, t2) == (if e2 == e as int
                        && t2 == tag_of(cval) {
                        Some(Slot::Owned(cval))
                    } else {
                        oldst.raw(e2, t2)
                    }) by {
                        if e2 == e as int {
                            lemma_row_lookup_update(
                                oldst.rows@[e as int]@,
                                i as int,
                                Slot::Owned(cval),
                                t2,
                            );
                        } else if 0 <= e2 < oldst.rows@.len() {
                            assert(self.rows@[e2] == oldst.rows@[e2]);
                        }
                    }
                }
            },
            None => {
                let row = &mut self.rows[e as usize];
                row.push(Slot::Owned(c));
                proof {
                    assert forall|e2: int, t2: CompTag| #[trigger] self.raw(e2, t2) == (if e2 == e as int
                        && t2 == tag_of(cval) {
                        Some(Slot::Owned(cval))
                    } else {
                        oldst.raw(e2, t2)
                    }) by {
                        if e2 == e as int {
                            lemma_row_lookup_push(
                                oldst.rows@[e as int]@,
                                Slot::Owned(cval),
                                t2,
                            );
                        } else if 0 <= e2 < oldst.rows@.len() {
                            assert(self.rows@[e2] == oldst.rows@[e2]);
                        }
                    }
                }
            },
        }
        proof {
            assert(self.wf()) by {
                assert forall|e2: int| 0 <= e2 < self.rows@.len() implies row_distinct(
                    #[trigger] self.rows@[e2]@,
                ) by {
                    if e2 == e as int {
                        match found {
                            Some(i) => {
                                lemma_row_lookup_update(
                                    oldst.rows@[e as int]@,
                                    i as int,
                                    Slot::Owned(cval),
                                    CompTag::Bounds,
                                );
                            },
                            None => {
                                lemma_row_lookup_push(
                                    oldst.rows@[e as int]@,
                                    Slot::Owned(cval),
                                    CompTag::Bounds,
                                );
                            },
                        }
                    } else {
                        assert(self.rows@[e2] == oldst.rows@[e2]);
                    }
                }
                assert forall|e2: int, i: int|
                    0 <= e2 < self.rows@.len() && 0 <= i < self.rows@[e2]@.len() implies match #[trigger] self.rows@[e2]@[i] {
                    Slot::Shared(src, _) => (src as int) < self.rows@.len(),
                    Slot::Owned(_) => true,
                } by {
                    if e2 == e as int {
                        match found {
                            Some(j) => {
                                if i != j {
                                    assert(self.rows@[e2]@[i] == oldst.rows@[e2]@[i]);
                                }
                            },
                            None => {
                                if i < oldst.rows@[e2]@.len() {
                                    assert(self.rows@[e2]@[i] == oldst.rows@[e2]@[i]);
                                }
                            },
                        }
                    } else {
                        assert(self.rows@[e2] == oldst.rows@[e2]);
                    }
                }
            }
        }
        Ok(())
    }
}


impl ComponentStore {
    /// Wires (entity, tag) as an alias of the component owned through
    /// `source`: later reads and writes through the alias observe the
    /// source's current value. Fails when the source holds no such
    /// component, or when the alias would name itself.
    pub fn insert_shared(&mut self, e: Entity, source: Entity, tag: CompTag) -> (r: Result<
        (),
        StoreError,
    >)
        requires
            old(self).wf(),
        ensures
            final(self).wf(),
            final(self).spec_len() == old(self).spec_len(),
            r is Err ==> *final(self) == *old(self) && r->Err_0 == StoreError::NotFound,
            r is Ok <==> (e as int) < old(self).spec_len() && (source as int) < old(
                self,
            ).spec_len() && old(self).resolved(source as int, tag) is Some && old(self).spec_owner(
                source as int,
                tag,
            ) != Some(e as int),
            r is Ok ==> {
                &&& final(self).spec_owner(e as int, tag) == old(self).spec_owner(
                    source as int,
                    tag,
                )
                &&& final(self).resolved(e as int, tag) == old(self).resolved(source as int, tag)
                &&& (forall|e2: int, t2: CompTag|
                    !(e2 == e as int && t2 == tag) ==> #[trigger] final(self).raw(e2, t2) == old(
                        self,
                    ).raw(e2, t2))
            },
    {
        let n = self.rows.len();
        if (e as usize) >= n || (source as usize) >= n {
            return Err(StoreError::NotFound);
        }
        let ghost oldst = *old(self);
        // resolve the source's own slot to the owning entity
        let owner: Entity = match find_in_row(&self.rows[source as usize], tag) {
            None => {
                return Err(StoreError::NotFound);
            },
            Some(i) => match &self.rows[source as usize][i] {
                Slot::Owned(_) => source,
                Slot::Shared(src2, _) => *src2,
            },
        };
        // the owner must hold the component itself
        let ok = match find_in_row(&self.rows[owner as usize], tag) {
            None => false,
            Some(j) => matches!(&self.rows[owner as usize][j], Slot::Owned(_)),
        };
        if !ok {
            return Err(StoreError::NotFound);
        }
        if owner == e {
            return Err(StoreError::NotFound);
        }
        let slot = Slot::Shared(owner, tag);
        let found = find_in_row(&self.rows[e as usize], tag);
        match found {
            Some(i) => {
                let row = &mut self.rows[e as usize];
                row[i] = slot;
                proof {
                    lemma_row_lookup_update(
                        oldst.rows@[e as int]@,
                        i as int,
                        Slot::Shared(owner, tag),
                        tag,
                    );
                    assert forall|e2: int, t2: CompTag|
                        !(e2 == e as int && t2 == tag) implies #[trigger] self.raw(e2, t2)
                        == oldst.raw(e2, t2) by {
                        if e2 == e as int {
                            lemma_row_lookup_update(
                                oldst.rows@[e as int]@,
                                i as int,
                                Slot::Shared(owner, tag),
                                t2,
                            );
                        } else if 0 <= e2 < oldst.rows@.len() {
                            assert(self.rows@[e2] == oldst.rows@[e2]);
                        }
                    }
                }
            },
            None => {
                let row = &mut self.rows[e as usize];
                row.push(slot);
                proof {
                    lemma_row_lookup_push(
                        oldst.rows@[e as int]@,
                        Slot::Shared(owner, tag),
                        tag,
                    );
                    assert forall|e2: int, t2: CompTag|
                        !(e2 == e as int && t2 == tag) implies #[trigger] self.raw(e2, t2)
                        == oldst.raw(e2, t2) by {
                        if e2 == e as int {
                            lemma_row_lookup_push(
                                oldst.rows@[e as int]@,
                                Slot::Shared(owner, tag),
                                t2,
                            );
                        } else if 0 <= e2 < oldst.rows@.len() {
                            assert(self.rows@[e2] == oldst.rows@[e2]);
                        }
                    }
                }
            },
        }
        proof {
            assert(self.raw(e as int, tag) == Some(Slot::Shared(owner, tag)));
            assert(self.raw(owner as int, tag) == oldst.raw(owner as int, tag));
            assert(self.wf()) by {
                assert forall|e2: int| 0 <= e2 < self.rows@.len() implies row_distinct(
                    #[trigger] self.rows@[e2]@,
                ) by {
                    if e2 == e as int {
                        match found {
                            Some(i) => {
                                lemma_row_lookup_update(
                                    oldst.rows@[e as int]@,
                                    i as int,
                                    Slot::Shared(owner, tag),
                                    tag,
                                );
                            },
                            None => {
                                lemma_row_lookup_push(
                                    oldst.rows@[e as int]@,
                                    Slot::Shared(owner, tag),
                                    tag,
                                );
                            },
                        }
                    } else {
                        assert(self.rows@[e2] == oldst.rows@[e2]);
                    }
                }
                assert forall|e2: int, i2: int|
                    0 <= e2 < self.rows@.len() && 0 <= i2 < self.rows@[e2]@.len() implies match #[trigger] self.rows@[e2]@[i2] {
                    Slot::Shared(src, _) => (src as int) < self.rows@.len(),
                    Slot::Owned(_) => true,
                } by {
                    if e2 == e as int {
                        match found {
                            Some(j) => {
                                if i2 != j {
                                    assert(self.rows@[e2]@[i2] == oldst.rows@[e2]@[i2]);
                                }
                            },
                            None => {
                                if i2 < oldst.rows@[e2]@.len() {
                                    assert(self.rows@[e2]@[i2] == oldst.rows@[e2]@[i2]);
                                }
                            },
                        }
                    } else {
                        assert(self.rows@[e2] == oldst.rows@[e2]);
                    }
                }
            }
        }
        Ok(())
    }

    /// Writes a component through the (entity, tag) lookup: the write lands
    /// at the owning entity, so every alias of the same source observes the
    /// new value on its next read.
    pub fn set_component(&mut self, e: Entity, c: Component) -> (r: Result<(), StoreError>)
        requires
            old(self).wf(),
        ensures
            final(self).wf(),
            final(self).spec_len() == old(self).spec_len(),
            r is Ok <==> old(self).resolved(e as int, tag_of(c)) is Some,
            r is Err ==> *final(self) == *old(self) && r->Err_0 == StoreError::NotFound,
            r is Ok ==> forall|e2: int, t2: CompTag|
                #[trigger] final(self).resolved(e2, t2) == (if t2 == tag_of(c) && old(
                    self,
                ).spec_owner(e2, t2) == old(self).spec_owner(e as int, t2) {
                    Some(c)
                } else {
                    old(self).resolved(e2, t2)
                }),
            forall|e2: int, t2: CompTag|
                #[trigger] final(self).spec_owner(e2, t2) == old(self).spec_owner(e2, t2),
    {
        let n = self.rows.len();
        if (e as usize) >= n {
            return Err(StoreError::NotFound);
        }
        let ghost oldst = *old(self);
        let tag = c.tag();
        let ghost cval = c;
        let owner: Entity = match find_in_row(&self.rows[e as usize], tag) {
            None => {
                return Err(StoreError::NotFound);
            },
            Some(i) => match &self.rows[e as usize][i] {
                Slot::Owned(_) => e,
                Slot::Shared(src2, _) => *src2,
            },
        };
        let j = match find_in_row(&self.rows[owner as usize], tag) {
            None => {
                return Err(StoreError::NotFound);
            },
            Some(j) => j,
        };
        if !matches!(&self.rows[owner as usize][j], Slot::Owned(_)) {
            return Err(StoreError::NotFound);
        }
        let row = &mut self.rows[owner as usize];
        row[j] = Slot::Owned(c);
        proof {
            assert(oldst.spec_owner(e as int, tag) == Some(owner as int));
            assert(oldst.resolved(e as int, tag) is Some);
            lemma_row_lookup_update(
                oldst.rows@[owner as int]@,
                j as int,
                Slot::Owned(cval),
                tag,
            );
            assert forall|e2: int, t2: CompTag| #[trigger] self.raw(e2, t2) == (if e2
                == owner as int && t2 == tag_of(cval) {
                Some(Slot::Owned(cval))
            } else {
                oldst.raw(e2, t2)
            }) by {
                if e2 == owner as int {
                    lemma_row_lookup_update(
                        oldst.rows@[owner as int]@,
                        j as int,
                        Slot::Owned(cval),
                        t2,
                    );
                } else if 0 <= e2 < oldst.rows@.len() {
                    assert(self.rows@[e2] == oldst.rows@[e2]);
                }
            }
            assert forall|e2: int, t2: CompTag| #[trigger] self.resolved(e2, t2) == (if t2
                == tag_of(cval) && oldst.spec_owner(e2, t2) == oldst.spec_owner(e as int, t2) {
                Some(cval)
            } else {
                oldst.resolved(e2, t2)
            }) by {
                if t2 == tag_of(cval) {
                    if oldst.spec_owner(e2, t2) == Some(owner as int) {
                    } else {
                    }
                }
            }
            assert(self.wf()) by {
                assert forall|e2: int| 0 <= e2 < self.rows@.len() implies row_distinct(
                    #[trigger] self.rows@[e2]@,
                ) by {
                    if e2 == owner as int {
                        lemma_row_lookup_update(
                            oldst.rows@[owner as int]@,
                            j as int,
                            Slot::Owned(cval),
                            tag,
                        );
                    } else {
                        assert(self.rows@[e2] == oldst.rows@[e2]);
                    }
                }
                assert forall|e2: int, i2: int|
                    0 <= e2 < self.rows@.len() && 0 <= i2 < self.rows@[e2]@.len() implies match #[trigger] self.rows@[e2]@[i2] {
                    Slot::Shared(src, _) => (src as int) < self.rows@.len(),
                    Slot::Owned(_) => true,
                } by {
                    if e2 == owner as int {
                        if i2 != j {
                            assert(self.rows@[e2]@[i2] == oldst.rows@[e2]@[i2]);
                        }
                    } else {
                        assert(self.rows@[e2] == oldst.rows@[e2]);
                    }
                }
            }
        }
        Ok(())
    }

    /// Removes the entity's own slot for the tag. An alias whose source lost
    /// the component resolves to nothing afterwards.
    pub fn remove(&mut self, e: Entity, tag: CompTag) -> (r: Result<(), StoreError>)
        requires
            old(self).wf(),
        ensures
            final(self).wf(),
            final(self).spec_len() == old(self).spec_len(),
            r is Ok <==> old(self).raw(e as int, tag) is Some,
            r is Err ==> *final(self) == *old(self) && r->Err_0 == StoreError::NotFound,
            r is Ok ==> forall|e2: int, t2: CompTag|
                #[trigger] final(self).raw(e2, t2) == (if e2 == e as int && t2 == tag {
                    None::<Slot>
                } else {
                    old(self).raw(e2, t2)
                }),
    {
        let n = self.rows.len();
        if (e as usize) >= n {
            return Err(StoreError::NotFound);
        }
        let ghost oldst = *old(self);
        let i = match find_in_row(&self.rows[e as usize], tag) {
            None => {
                return Err(StoreError::NotFound);
            },
            Some(i) => i,
        };
        let row = &mut self.rows[e as usize];
        let _removed = row.remove(i);
        proof {
            lemma_row_lookup_remove(oldst.rows@[e as int]@, i as int, tag);
            assert forall|e2: int, t2: CompTag| #[trigger] self.raw(e2, t2) == (if e2 == e as int
                && t2 == tag {
                None::<Slot>
            } else {
                oldst.raw(e2, t2)
            }) by {
                if e2 == e as int {
                    lemma_row_lookup_remove(oldst.rows@[e as int]@, i as int, t2);
                } else if 0 <= e2 < oldst.rows@.len() {
                    assert(self.rows@[e2] == oldst.rows@[e2]);
                }
            }
            assert(self.wf()) by {
                assert forall|e2: int| 0 <= e2 < self.rows@.len() implies row_distinct(
                    #[trigger] self.rows@[e2]@,
                ) by {
                    if e2 == e as int {
                        lemma_row_lookup_remove(oldst.rows@[e as int]@, i as int, tag);
                    } else {
                        assert(self.rows@[e2] == oldst.rows@[e2]);
                    }
                }
                assert forall|e2: int, i2: int|
                    0 <= e2 < self.rows@.len() && 0 <= i2 < self.rows@[e2]@.len() implies match #[trigger] self.rows@[e2]@[i2] {
                    Slot::Shared(src, _) => (src as int) < self.rows@.len(),
                    Slot::Owned(_) => true,
                } by {
                    if e2 == e as int {
                        if i2 < i {
                            assert(self.rows@[e2]@[i2] == oldst.rows@[e2]@[i2]);
                        } else {
                            assert(self.rows@[e2]@[i2] == oldst.rows@[e2]@[i2 + 1]);
                        }
                    } else {
                        assert(self.rows@[e2] == oldst.rows@[e2]);
                    }
                }
            }
        }
        Ok(())
    }

    /// Reads the component at (entity, tag), resolving a shared slot to the
    /// current value stored at its source entity. A missing component is a
    /// distinct, explicit failure.
    pub fn borrow(&self, e: Entity, tag: CompTag) -> (r: Result<&Component, StoreError>)
        requires
            self.wf(),
        ensures
            match r {
                Ok(c) => self.resolved(e as int, tag) == Some(*c),
                Err(err) => self.resolved(e as int, tag) is None && err == StoreError::NotFound,
            },
    {
        let n = self.rows.len();
        if (e as usize) >= n {
            return Err(StoreError::NotFound);
        }
        let i = match find_in_row(&self.rows[e as usize], tag) {
            None => {
                return Err(StoreError::NotFound);
            },
            Some(i) => i,
        };
        match &self.rows[e as usize][i] {
            Slot::Owned(c) => Ok(c),
            Slot::Shared(src, _) => {
                let j = match find_in_row(&self.rows[*src as usize], tag) {
                    None => {
                        return Err(StoreError::NotFound);
                    },
                    Some(j) => j,
                };
                match &self.rows[*src as usize][j] {
                    Slot::Owned(c) => Ok(c),
                    Slot::Shared(_, _) => Err(StoreError::NotFound),
                }
            },
        }
    }
}

/// Removing a slot deletes the lookup for its tag alone and keeps the row's
/// tags distinct.
proof fn lemma_row_lookup_remove(row: Seq<Slot>, i: int, t2: CompTag)
    requires
        0 <= i < row.len(),
        row_distinct(row),
    ensures
        row_lookup(row.remove(i), t2) == (if t2 == slot_tag(row[i]) {
            None::<Slot>
        } else {
            row_lookup(row, t2)
        }),
        row_distinct(row.remove(i)),
    decreases row.len(),
{
    assert forall|a: int, b: int| 0 <= a < b < row.remove(i).len() implies slot_tag(
        #[trigger] row.remove(i)[a],
    ) != slot_tag(#[trigger] row.remove(i)[b]) by {
        if a < i && b < i {
            assert(row.remove(i)[a] == row[a] && row.remove(i)[b] == row[b]);
        } else if a < i {
            assert(row.remove(i)[a] == row[a] && row.remove(i)[b] == row[b + 1]);
        } else {
            assert(row.remove(i)[a] == row[a + 1] && row.remove(i)[b] == row[b + 1]);
        }
    }
    if i == 0 {
        assert(row.remove(0) =~= row.drop_first());
        if t2 == slot_tag(row[0]) {
            lemma_row_lookup_tag_absent(row.drop_first(), row, t2);
        }
    } else {
        assert(row.remove(i)[0] == row[0]);
        assert(row.remove(i).drop_first() =~= row.drop_first().remove(i - 1));
        assert(row_distinct(row.drop_first())) by {
            assert forall|a: int, b: int|
                0 <= a < b < row.drop_first().len() implies slot_tag(
                #[trigger] row.drop_first()[a],
            ) != slot_tag(#[trigger] row.drop_first()[b]) by {
                assert(row.drop_first()[a] == row[a + 1]);
                assert(row.drop_first()[b] == row[b + 1]);
            }
        }
        lemma_row_lookup_remove(row.drop_first(), i - 1, t2);
        assert(row.drop_first()[i - 1] == row[i]);
        assert(slot_tag(row[0]) != slot_tag(row[i]));
    }
}

/// In a distinct row, a tag held by a later slot is not the first slot's
/// tag, so dropping the first slot keeps the lookup; used for the lookup of
/// a tag that only the removed head carried.
proof fn lemma_row_lookup_tag_absent(rest: Seq<Slot>, row: Seq<Slot>, t2: CompTag)
    requires
        row_distinct(row),
        row.len() > 0,
        rest =~= row.drop_first(),
        t2 == slot_tag(row[0]),
    ensures
        row_lookup(rest, t2) is None,
    decreases rest.len(),
{
    if rest.len() > 0 {
        assert(rest[0] == row[1]);
        assert(slot_tag(rest[0]) != t2);
        assert(row_distinct(row.drop_first())) by {
            assert forall|a: int, b: int|
                0 <= a < b < row.drop_first().len() implies slot_tag(
                #[trigger] row.drop_first()[a],
            ) != slot_tag(#[trigger] row.drop_first()[b]) by {
                assert(row.drop_first()[a] == row[a + 1]);
                assert(row.drop_first()[b] == row[b + 1]);
            }
        }
        assert(slot_tag(row.drop_first()[0]) == slot_tag(rest[0]));
        lemma_row_lookup_tag_absent(rest.drop_first(), row.drop_first().update(0, row[0]), t2);
    }
}


/// Reads a property of a widget; the caller owes its presence.
pub fn get_property<'a>(entity: Entity, store: &'a ComponentStore, tag: CompTag) -> (r:
    &'a Component)
    requires
        store.wf(),
        store.resolved(entity as int, tag) is Some,
    ensures
        store.resolved(entity as int, tag) == Some(*r),
{
    match store.borrow(entity, tag) {
        Ok(c) => c,
        Err(_) => vstd::pervasive::unreached(),
    }
}

/// Reads a property of a widget if it exists, otherwise the given value.
pub fn get_property_or_value<'a>(
    entity: Entity,
    store: &'a ComponentStore,
    tag: CompTag,
    value: &'a Component,
) -> (r: &'a Component)
    requires
        store.wf(),
    ensures
        match store.resolved(entity as int, tag) {
            Some(c) => *r == c,
            None => *r == *value,
        },
{
    match store.borrow(entity, tag) {
        Ok(c) => c,
        Err(_) => value,
    }
}


/// The slot a lookup answers is filed under the tag asked for.
pub proof fn lemma_row_lookup_tag(row: Seq<Slot>, tag: CompTag)
    requires
        row_lookup(row, tag) is Some,
    ensures
        slot_tag(row_lookup(row, tag)->0) == tag,
    decreases row.len(),
{
    if row.len() > 0 && slot_tag(row[0]) != tag {
        lemma_row_lookup_tag(row.drop_first(), tag);
    }
}

/// The component a read resolves to carries the tag asked for.
pub proof fn lemma_resolved_tag(store: ComponentStore, e: int, tag: CompTag)
    requires
        store.resolved(e, tag) is Some,
    ensures
        tag_of(store.resolved(e, tag)->0) == tag,
{
    match store.spec_owner(e, tag) {
        None => {},
        Some(o) => {
            if 0 <= o < store.rows@.len() {
                if row_lookup(store.rows@[o]@, tag) is Some {
                    lemma_row_lookup_tag(store.rows@[o]@, tag);
                }
            }
        },
    }
}


impl ComponentStore {
    /// Removes and returns the entity's own component of the tag; an alias
    /// slot cannot be taken.
    pub fn take(&mut self, e: Entity, tag: CompTag) -> (r: Result<Component, StoreError>)
        requires
            old(self).wf(),
        ensures
            final(self).wf(),
            final(self).spec_len() == old(self).spec_len(),
            r is Ok <==> old(self).raw(e as int, tag) matches Some(Slot::Owned(_)),
            r is Err ==> *final(self) == *old(self) && r->Err_0 == StoreError::NotFound,
            r is Ok ==> {
                &&& old(self).raw(e as int, tag) == Some(Slot::Owned(r->Ok_0))
                &&& (forall|e2: int, t2: CompTag|
                    #[trigger] final(self).raw(e2, t2) == (if e2 == e as int && t2 == tag {
                        None::<Slot>
                    } else {
                        old(self).raw(e2, t2)
                    }))
            },
    {
        let n = self.rows.len();
        if (e as usize) >= n {
            return Err(StoreError::NotFound);
        }
        let ghost oldst = *old(self);
        let i = match find_in_row(&self.rows[e as usize], tag) {
            None => {
                return Err(StoreError::NotFound);
            },
            Some(i) => i,
        };
        if !matches!(&self.rows[e as usize][i], Slot::Owned(_)) {
            return Err(StoreError::NotFound);
        }
        let row = &mut self.rows[e as usize];
        let removed = row.remove(i);
        proof {
            lemma_row_lookup_remove(oldst.rows@[e as int]@, i as int, tag);
            assert forall|e2: int, t2: CompTag| #[trigger] self.raw(e2, t2) == (if e2 == e as int
                && t2 == tag {
                None::<Slot>
            } else {
                oldst.raw(e2, t2)
            }) by {
                if e2 == e as int {
                    lemma_row_lookup_remove(oldst.rows@[e as int]@, i as int, t2);
                } else if 0 <= e2 < oldst.rows@.len() {
                    assert(self.rows@[e2] == oldst.rows@[e2]);
                }
            }
            assert(self.wf()) by {
                assert forall|e2: int| 0 <= e2 < self.rows@.len() implies row_distinct(
                    #[trigger] self.rows@[e2]@,
                ) by {
                    if e2 == e as int {
                        lemma_row_lookup_remove(oldst.rows@[e as int]@, i as int, tag);
                    } else {
                        assert(self.rows@[e2] == oldst.rows@[e2]);
                    }
                }
                assert forall|e2: int, i2: int|
                    0 <= e2 < self.rows@.len() && 0 <= i2 < self.rows@[e2]@.len() implies match #[trigger] self.rows@[e2]@[i2] {
                    Slot::Shared(src, _) => (src as int) < self.rows@.len(),
                    Slot::Owned(_) => true,
                } by {
                    if e2 == e as int {
                        if i2 < i {
                            assert(self.rows@[e2]@[i2] == oldst.rows@[e2]@[i2]);
                        } else {
                            assert(self.rows@[e2]@[i2] == oldst.rows@[e2]@[i2 + 1]);
                        }
                    } else {
                        assert(self.rows@[e2] == oldst.rows@[e2]);
                    }
                }
            }
        }
        match removed {
            Slot::Owned(c) => Ok(c),
            Slot::Shared(_, _) => vstd::pervasive::unreached(),
        }
    }
}


/// Two lookups that resolve through the same owner resolve to the same
/// component.
pub proof fn lemma_same_owner_same_resolved(s: ComponentStore, a: int, b: int, tag: CompTag)
    requires
        s.spec_owner(a, tag) == s.spec_owner(b, tag),
    ensures
        s.resolved(a, tag) == s.resolved(b, tag),
{
}


/// The slot a raw lookup answers is filed under the tag asked for.
pub proof fn lemma_raw_tag(s: ComponentStore, e: int, tag: CompTag)
    requires
        s.raw(e, tag) is Some,
    ensures
        slot_tag(s.raw(e, tag)->0) == tag,
{
    if 0 <= e < s.rows@.len() {
        lemma_row_lookup_tag(s.rows@[e]@, tag);
    }
}


/// A lookup's answer is one of the row's slots.
proof fn lemma_row_lookup_member(row: Seq<Slot>, tag: CompTag)
    requires
        row_lookup(row, tag) is Some,
    ensures
        exists|i: int| 0 <= i < row.len() && row[i] == row_lookup(row, tag)->0,
    decreases row.len(),
{
    if row.len() > 0 && slot_tag(row[0]) != tag {
        lemma_row_lookup_member(row.drop_first(), tag);
        let i = choose|i: int|
            0 <= i < row.drop_first().len() && row.drop_first()[i] == row_lookup(
                row.drop_first(),
                tag,
            )->0;
        assert(row[i + 1] == row_lookup(row, tag)->0);
    }
}

/// A shared slot of a well-formed store names an entity inside the store.
pub proof fn lemma_shared_target_in_range(s: ComponentStore, e: int, tag: CompTag)
    requires
        s.wf(),
        s.raw(e, tag) matches Some(Slot::Shared(_, _)),
    ensures
        ((s.raw(e, tag)->0)->Shared_0 as int) < s.spec_len(),
{
    if 0 <= e < s.rows@.len() {
        lemma_row_lookup_member(s.rows@[e]@, tag);
    }
}

} // verus!
