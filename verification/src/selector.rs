//! Style-matching descriptors: element tag, id, classes, pseudo-classes and
//! an optional one-level parent/ancestor relation, with CSS-like specificity.

use vstd::prelude::*;
use crate::text::str_eq;

verus! {

/// Relates a selector to the selector of a structural parent or ancestor.
#[derive(Debug)]
pub enum SelectorRelation {
    Ancestor(Selector),
    Parent(Selector),
}

/// An immutable style-matching descriptor attached to most widget entities;
/// used purely for style lookup, never for identity.
#[derive(Debug)]
pub struct Selector {
    pub element: Option<String>,
    pub id: Option<String>,
    pub classes: Vec<String>,
    pub pseudo_classes: Vec<String>,
    pub relation: Option<Box<SelectorRelation>>,
}

/// How specific a selector is: id matches outrank class and pseudo-class
/// counts, which outrank element-tag matches.
#[derive(Clone, Copy, PartialEq, Eq, Structural, Debug)]
pub struct Specificity {
    pub id: u32,
    pub class: u32,
    pub element: u32,
}

/// Lexicographic order on specificities: id, then class, then element.
pub open spec fn spec_ge(x: Specificity, y: Specificity) -> bool {
    if x.id != y.id {
        x.id > y.id
    } else if x.class != y.class {
        x.class > y.class
    } else {
        x.element >= y.element
    }
}

/// Compares two specificities lexicographically.
pub fn specificity_ge(x: &Specificity, y: &Specificity) -> (r: bool)
    ensures
        r == spec_ge(*x, *y),
{
    if x.id != y.id {
        x.id > y.id
    } else if x.class != y.class {
        x.class > y.class
    } else {
        x.element >= y.element
    }
}

/// A sum clamped into the unsigned 32-bit range.
pub open spec fn sat_u32(v: int) -> u32 {
    if v < 0 {
        0u32
    } else if v > u32::MAX {
        u32::MAX
    } else {
        v as u32
    }
}

/// Whether a sequence of strings holds one whose characters are `x`.
pub open spec fn seq_contains_chars(ss: Seq<String>, x: Seq<char>) -> bool {
    exists|j: int| 0 <= j < ss.len() && ss[j]@ == x
}

/// Every string of `sub` occurs, by characters, in `sup`.
pub open spec fn spec_subset(sub: Seq<String>, sup: Seq<String>) -> bool {
    forall|i: int| 0 <= i < sub.len() ==> seq_contains_chars(sup, #[trigger] sub[i]@)
}

/// Whether `v` holds a string whose characters equal those of `x`.
pub fn vec_contains_str(v: &Vec<String>, x: &str) -> (r: bool)
    ensures
        r == seq_contains_chars(v@, x@),
{
    let mut i: usize = 0;
    while i < v.len()
        invariant
            i <= v@.len(),
            forall|j: int| 0 <= j < i ==> v@[j]@ != x@,
        decreases v@.len() - i,
    {
        if str_eq(v[i].as_str(), x) {
            return true;
        }
        i = i + 1;
    }
    false
}

/// Whether every string of `sub` occurs in `sup`.
pub fn vec_subset(sub: &Vec<String>, sup: &Vec<String>) -> (r: bool)
    ensures
        r == spec_subset(sub@, sup@),
{
    let mut i: usize = 0;
    while i < sub.len()
        invariant
            i <= sub@.len(),
            forall|j: int| 0 <= j < i ==> seq_contains_chars(sup@, #[trigger] sub@[j]@),
        decreases sub@.len() - i,
    {
        if !vec_contains_str(sup, sub[i].as_str()) {
            return false;
        }
        i = i + 1;
    }
    true
}

/// The views of two optional strings agree.
pub open spec fn opt_chars_eq(a: Option<String>, b: Option<String>) -> bool {
    match (a, b) {
        (Option::None, Option::None) => true,
        (Option::Some(x), Option::Some(y)) => x@ == y@,
        _ => false,
    }
}

/// The flat part of selector matching: each constraint the rule's selector
/// states must be met by the query — equal element tag and id when stated,
/// classes and pseudo-classes a subset of the query's.
pub open spec fn matches_flat(rule: Selector, query: Selector) -> bool {
    &&& (rule.element is Some ==> query.element is Some && rule.element->0@ == query.element->0@)
    &&& (rule.id is Some ==> query.id is Some && rule.id->0@ == query.id->0@)
    &&& spec_subset(rule.classes@, query.classes@)
    &&& spec_subset(rule.pseudo_classes@, query.pseudo_classes@)
}

/// The selector inside a relation.
pub open spec fn relation_selector(r: SelectorRelation) -> Selector {
    match r {
        SelectorRelation::Ancestor(s) => s,
        SelectorRelation::Parent(s) => s,
    }
}

/// Full matching: the flat constraints hold, and a one-level parent or
/// ancestor relation, when the rule states one, matches the query's recorded
/// structural context the same way. Relations nested deeper than one level
/// are diagnosed and dropped at parse time.
pub open spec fn sel_matches(rule: Selector, query: Selector) -> bool {
    &&& matches_flat(rule, query)
    &&& (rule.relation is Some ==> query.relation is Some && matches_flat(
        relation_selector(*rule.relation->0),
        relation_selector(*query.relation->0),
    ))
}

/// The specificity of a selector with the given field counts, the one-level
/// relation's counts added in.
pub open spec fn spec_specificity(s: Selector) -> Specificity {
    let own = Specificity {
        id: if s.id is Some {
            1u32
        } else {
            0u32
        },
        class: sat_u32(s.classes@.len() + s.pseudo_classes@.len() as int),
        element: if s.element is Some {
            1u32
        } else {
            0u32
        },
    };
    match s.relation {
        Option::None => own,
        Option::Some(rel) => {
            let inner = relation_selector(*rel);
            Specificity {
                id: sat_u32(own.id + (if inner.id is Some {
                    1int
                } else {
                    0int
                })),
                class: sat_u32(
                    own.class + inner.classes@.len() + inner.pseudo_classes@.len() as int,
                ),
                element: sat_u32(own.element + (if inner.element is Some {
                    1int
                } else {
                    0int
                })),
            }
        },
    }
}

/// The highest specificity among the selectors of a list that match the
/// query; nothing when none matches.
pub open spec fn best_specificity(sels: Seq<Selector>, query: Selector) -> Option<Specificity>
    decreases sels.len(),
{
    if sels.len() == 0 {
        None
    } else {
        let rest = best_specificity(sels.drop_last(), query);
        if sel_matches(sels.last(), query) {
            let sp = spec_specificity(sels.last());
            match rest {
                None => Some(sp),
                Some(b) => if spec_ge(sp, b) {
                    Some(sp)
                } else {
                    Some(b)
                },
            }
        } else {
            rest
        }
    }
}

impl Selector {
    /// An empty selector, matching every query.
    pub fn new() -> (r: Selector)
        ensures
            r.element is None,
            r.id is None,
            r.classes@ =~= Seq::<String>::empty(),
            r.pseudo_classes@ =~= Seq::<String>::empty(),
            r.relation is None,
    {
        Selector {
            element: None,
            id: None,
            classes: Vec::new(),
            pseudo_classes: Vec::new(),
            relation: None,
        }
    }

    /// Replaces the element tag.
    pub fn with(self, element: String) -> (r: Selector)
        ensures
            r == (Selector { element: Some(element), ..self }),
    {
        Selector { element: Some(element), ..self }
    }

    /// Replaces the id.
    pub fn with_id(self, id: String) -> (r: Selector)
        ensures
            r == (Selector { id: Some(id), ..self }),
    {
        Selector { id: Some(id), ..self }
    }

    /// Adds a class.
    pub fn with_class(self, class: String) -> (r: Selector)
        ensures
            r.element == self.element,
            r.id == self.id,
            r.classes@ == self.classes@.push(class),
            r.pseudo_classes == self.pseudo_classes,
            r.relation == self.relation,
    {
        let mut s = self;
        s.classes.push(class);
        s
    }

    /// Adds a pseudo-class.
    pub fn with_pseudo_class(self, pseudo_class: String) -> (r: Selector)
        ensures
            r.element == self.element,
            r.id == self.id,
            r.classes == self.classes,
            r.pseudo_classes@ == self.pseudo_classes@.push(pseudo_class),
            r.relation == self.relation,
    {
        let mut s = self;
        s.pseudo_classes.push(pseudo_class);
        s
    }

    /// Whether this selector, read as a rule's selector, matches the query.
    pub fn matches(&self, query: &Selector) -> (r: bool)
        ensures
            r == sel_matches(*self, *query),
    {
        if !self.matches_flat_exec(query) {
            return false;
        }
        match &self.relation {
            None => true,
            Some(rel) => match &query.relation {
                None => false,
                Some(qrel) => {
                    let rs = relation_selector_ref(rel);
                    let qs = relation_selector_ref(qrel);
                    rs.matches_flat_exec(qs)
                },
            },
        }
    }

    /// The flat constraints alone.
    fn matches_flat_exec(&self, query: &Selector) -> (r: bool)
        ensures
            r == matches_flat(*self, *query),
    {
        match &self.element {
            Some(e) => {
                match &query.element {
                    Some(qe) => {
                        if !str_eq(e.as_str(), qe.as_str()) {
                            return false;
                        }
                    },
                    None => {
                        return false;
                    },
                }
            },
            None => {},
        }
        match &self.id {
            Some(idv) => {
                match &query.id {
                    Some(qid) => {
                        if !str_eq(idv.as_str(), qid.as_str()) {
                            return false;
                        }
                    },
                    None => {
                        return false;
                    },
                }
            },
            None => {},
        }
        if !vec_subset(&self.classes, &query.classes) {
            return false;
        }
        if !vec_subset(&self.pseudo_classes, &query.pseudo_classes) {
            return false;
        }
        true
    }

    /// The specificity of this selector.
    pub fn specificity(&self) -> (r: Specificity)
        ensures
            r == spec_specificity(*self),
    {
        let own_id: u32 = if self.id.is_some() {
            1
        } else {
            0
        };
        let own_class: u32 = sat_len_sum(self.classes.len(), self.pseudo_classes.len());
        let own_element: u32 = if self.element.is_some() {
            1
        } else {
            0
        };
        match &self.relation {
            None => Specificity { id: own_id, class: own_class, element: own_element },
            Some(rel) => {
                let inner = relation_selector_ref(rel);
                let inner_id: u32 = if inner.id.is_some() {
                    1
                } else {
                    0
                };
                let inner_element: u32 = if inner.element.is_some() {
                    1
                } else {
                    0
                };
                let class2 = sat_len_sum(inner.classes.len(), inner.pseudo_classes.len());
                Specificity {
                    id: own_id + inner_id,
                    class: sat_add_u32(own_class, class2),
                    element: own_element + inner_element,
                }
            },
        }
    }
}

impl Default for Selector {
    fn default() -> (r: Selector)
        ensures
            r.element is None,
            r.id is None,
            r.classes@ =~= Seq::<String>::empty(),
            r.pseudo_classes@ =~= Seq::<String>::empty(),
            r.relation is None,
    {
        Selector::new()
    }
}

/// Two string sequences agree element by element, by characters.
pub open spec fn strs_eq(a: Seq<String>, b: Seq<String>) -> bool {
    a.len() == b.len() && forall|i: int| 0 <= i < a.len() ==> a[i]@ == #[trigger] b[i]@
}

/// Two selectors carry the same characters everywhere: flat fields, relation
/// kind and the selector inside the relation.
pub open spec fn sel_deep_eq(a: Selector, b: Selector) -> bool
    decreases a,
{
    &&& opt_chars_eq(a.element, b.element)
    &&& opt_chars_eq(a.id, b.id)
    &&& strs_eq(a.classes@, b.classes@)
    &&& strs_eq(a.pseudo_classes@, b.pseudo_classes@)
    &&& match (a.relation, b.relation) {
        (Option::None, Option::None) => true,
        (Option::Some(x), Option::Some(y)) => {
            &&& (*x is Ancestor <==> *y is Ancestor)
            &&& sel_deep_eq(relation_selector(*x), relation_selector(*y))
        },
        _ => false,
    }
}

/// Copies a vector of strings, keeping every element's characters.
pub fn clone_strings(v: &Vec<String>) -> (r: Vec<String>)
    ensures
        r@ == v@,
{
    let mut out: Vec<String> = Vec::new();
    let mut i: usize = 0;
    while i < v.len()
        invariant
            i <= v@.len(),
            out@ =~= v@.subrange(0, i as int),
        decreases v@.len() - i,
    {
        out.push(v[i].clone());
        assert(out@ =~= v@.subrange(0, i + 1int));
        i = i + 1;
    }
    proof {
        assert(v@.subrange(0, v@.len() as int) =~= v@);
    }
    out
}

/// Copies an optional string.
pub fn clone_opt_string(v: &Option<String>) -> (r: Option<String>)
    ensures
        r == *v,
{
    match v {
        None => None,
        Some(s) => Some(s.clone()),
    }
}

/// Copies a selector, relation included.
pub fn clone_selector(s: &Selector) -> (r: Selector)
    ensures
        sel_deep_eq(r, *s),
    decreases *s,
{
    let relation: Option<Box<SelectorRelation>> = match &s.relation {
        None => None,
        Some(b) => Some(Box::new(clone_relation(b))),
    };
    Selector {
        element: clone_opt_string(&s.element),
        id: clone_opt_string(&s.id),
        classes: clone_strings(&s.classes),
        pseudo_classes: clone_strings(&s.pseudo_classes),
        relation,
    }
}

/// Copies a selector relation, keeping its kind.
pub fn clone_relation(r: &SelectorRelation) -> (o: SelectorRelation)
    ensures
        o is Ancestor <==> *r is Ancestor,
        sel_deep_eq(relation_selector(o), relation_selector(*r)),
    decreases *r,
{
    match r {
        SelectorRelation::Ancestor(s) => SelectorRelation::Ancestor(clone_selector(s)),
        SelectorRelation::Parent(s) => SelectorRelation::Parent(clone_selector(s)),
    }
}

impl Clone for Selector {
    /// A clone keeps every character of every field.
    fn clone(&self) -> (r: Self)
        ensures
            sel_deep_eq(r, *self),
    {
        clone_selector(self)
    }
}

impl Clone for SelectorRelation {
    /// A clone keeps the relation kind and the selector inside.
    fn clone(&self) -> (r: Self)
        ensures
            r is Ancestor <==> *self is Ancestor,
            sel_deep_eq(relation_selector(r), relation_selector(*self)),
    {
        clone_relation(self)
    }
}

/// Borrows the selector inside a relation.
pub fn relation_selector_ref(r: &SelectorRelation) -> (s: &Selector)
    ensures
        *s == relation_selector(*r),
{
    match r {
        SelectorRelation::Ancestor(s) => s,
        SelectorRelation::Parent(s) => s,
    }
}

/// Adds two lengths, clamped into the unsigned 32-bit range.
fn sat_len_sum(a: usize, b: usize) -> (r: u32)
    ensures
        r == sat_u32(a + b),
{
    let m: u64 = 0xFFFF_FFFFu64;
    let a64 = a as u64;
    let b64 = b as u64;
    if a64 > m || b64 > m || a64 + b64 > m {
        u32::MAX
    } else {
        (a64 + b64) as u32
    }
}

/// Adds two 32-bit counts, clamped into the unsigned 32-bit range.
fn sat_add_u32(a: u32, b: u32) -> (r: u32)
    ensures
        r == sat_u32(a + b),
{
    let s = a as u64 + b as u64;
    if s > u32::MAX as u64 {
        u32::MAX
    } else {
        s as u32
    }
}

} // verus!
