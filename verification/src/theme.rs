//! Themes: ordered rule sets with selectors, typed property declarations,
//! importance, specificity ranking and inheritance from a parent theme.

use vstd::prelude::*;
use crate::selector::{Selector, Specificity, spec_ge, specificity_ge};
use crate::structs::Brush;
use crate::text::str_eq;

verus! {

/// A typed property value. Fractional values (opacity) are held as
/// fixed-point thousandths, so `500` stands for one half.
#[derive(Debug)]
pub enum Value {
    UInt(u32),
    Float(u32),
    Brush(Brush),
    Str(String),
}

impl Value {
    /// The unsigned integer inside, if this is one.
    pub fn uint(&self) -> (r: Option<u32>)
        ensures
            r == (match *self {
                Value::UInt(x) => Some(x),
                _ => None::<u32>,
            }),
    {
        match *self {
            Value::UInt(x) => Some(x),
            _ => None,
        }
    }

    /// The fixed-point thousandths value inside, if this is one.
    pub fn float(&self) -> (r: Option<u32>)
        ensures
            r == (match *self {
                Value::Float(x) => Some(x),
                _ => None::<u32>,
            }),
    {
        match *self {
            Value::Float(x) => Some(x),
            _ => None,
        }
    }

    /// The brush inside, if this is one.
    pub fn brush(&self) -> (r: Option<Brush>)
        ensures
            r == (match *self {
                Value::Brush(b) => Some(b),
                _ => None::<Brush>,
            }),
    {
        match *self {
            Value::Brush(b) => Some(b),
            _ => None,
        }
    }

    /// The string inside, if this is one.
    pub fn string(&self) -> (r: Option<String>)
        ensures
            r == (match *self {
                Value::Str(s) => Some(s),
                _ => None::<String>,
            }),
    {
        match self {
            Value::Str(s) => Some(s.clone()),
            _ => None,
        }
    }
}

impl Clone for Value {
    /// A clone keeps the variant and its content.
    fn clone(&self) -> (r: Self)
        ensures
            r == *self,
    {
        match self {
            Value::UInt(x) => Value::UInt(*x),
            Value::Float(x) => Value::Float(*x),
            Value::Brush(b) => Value::Brush(*b),
            Value::Str(s) => Value::Str(s.clone()),
        }
    }
}

/// One property declaration inside a rule.
#[derive(Debug)]
pub struct Declaration {
    pub property: String,
    pub value: Value,
    pub important: bool,
}

impl Clone for Declaration {
    /// A clone keeps every field.
    fn clone(&self) -> (r: Self)
        ensures
            r == *self,
    {
        Declaration {
            property: self.property.clone(),
            value: self.value.clone(),
            important: self.important,
        }
    }
}

/// A list of selectors sharing a list of declarations.
#[derive(Debug)]
pub struct Rule {
    pub selectors: Vec<Selector>,
    pub declarations: Vec<Declaration>,
}

/// An ordered, inheritable set of style rules. The parent chain holds the
/// less specific themes; a child theme's rules win ties.
#[derive(Debug)]
pub struct Theme {
    pub parent: Option<Box<Theme>>,
    pub rules: Vec<Rule>,
}

/// The rank of a candidate declaration: importance first, then specificity.
pub open spec fn key_ge(ximp: bool, xsp: Specificity, yimp: bool, ysp: Specificity) -> bool {
    if ximp != yimp {
        ximp
    } else {
        spec_ge(xsp, ysp)
    }
}

/// The first declaration of the given property in a declaration list.
pub open spec fn find_decl(decls: Seq<Declaration>, prop: Seq<char>) -> Option<Declaration>
    decreases decls.len(),
{
    if decls.len() == 0 {
        None
    } else if decls[0].property@ == prop {
        Some(decls[0])
    } else {
        find_decl(decls.drop_first(), prop)
    }
}

/// What one rule contributes for a property and query: its first declaration
/// of the property, ranked by the best specificity among the rule's matching
/// selectors; nothing when no selector matches or the property is absent.
pub open spec fn rule_candidate(rule: Rule, prop: Seq<char>, query: Selector) -> Option<
    (bool, Specificity, Value),
> {
    match crate::selector::best_specificity(rule.selectors@, query) {
        None => None,
        Some(sp) => match find_decl(rule.declarations@, prop) {
            None => None,
            Some(d) => Some((d.important, sp, d.value)),
        },
    }
}

/// Folds the candidates of a rule list into the running best, a later
/// candidate replacing the best so far whenever its rank is at least as
/// high.
pub open spec fn cascade_rules(
    rules: Seq<Rule>,
    prop: Seq<char>,
    query: Selector,
    acc: Option<(bool, Specificity, Value)>,
) -> Option<(bool, Specificity, Value)>
    decreases rules.len(),
{
    if rules.len() == 0 {
        acc
    } else {
        let acc2 = match rule_candidate(rules[0], prop, query) {
            None => acc,
            Some(c) => match acc {
                None => Some(c),
                Some(a) => if key_ge(c.0, c.1, a.0, a.1) {
                    Some(c)
                } else {
                    Some(a)
                },
            },
        };
        cascade_rules(rules.drop_first(), prop, query, acc2)
    }
}

/// The resolved winner for a property and query over the whole inheritance
/// chain: the parent theme's rules are gathered first, the theme's own rules
/// after them, so the child theme wins ties.
pub open spec fn theme_resolve(t: Theme, prop: Seq<char>, query: Selector) -> Option<
    (bool, Specificity, Value),
>
    decreases t,
{
    let base = match t.parent {
        None => None,
        Some(p) => theme_resolve(*p, prop, query),
    };
    cascade_rules(t.rules@, prop, query, base)
}

/// The value the winner carries, if any rule matched.
pub open spec fn spec_resolve(t: Theme, prop: Seq<char>, query: Selector) -> Option<Value> {
    match theme_resolve(t, prop, query) {
        None => None,
        Some(c) => Some(c.2),
    }
}

/// The built-in default theme source, the least specific end of every
/// inheritance chain.
pub const DEFAULT_THEME_CSS: &'static str = "window { background: #2c2c2c; } container { padding: 4; } button { background: #4f5766; color: white; border-radius: 2; height: 32; } text_block { color: silver; font-size: 12; } fonticon { icon-size: 16; }";

/// The light theme's overriding rules, laid over the default theme source.
pub const LIGHT_THEME_EXTENSION_CSS: &'static str = "window { background: white; } text_block { color: black; }";

/// The full light theme source: the extension first, the default rules
/// after it.
pub fn light_theme_css() -> (r: String)
    ensures
        r@ == LIGHT_THEME_EXTENSION_CSS@ + DEFAULT_THEME_CSS@,
{
    let mut s = String::new();
    s.append(LIGHT_THEME_EXTENSION_CSS);
    s.append(DEFAULT_THEME_CSS);
    proof {
        assert(s@ =~= LIGHT_THEME_EXTENSION_CSS@ + DEFAULT_THEME_CSS@);
    }
    s
}

impl Theme {
    /// A theme over the built-in default: the default theme's rules stand as
    /// the parent, the parsed rules of `s` win ties over them.
    pub fn parse(s: &str) -> (r: Theme)
        ensures
            r.parent is Some,
            (*r.parent->0).parent is None,
            crate::css::rules_view((*r.parent->0).rules@) == crate::css::parse_rules_v(
                crate::css::spec_tokenize(DEFAULT_THEME_CSS@),
                0,
            ).0,
            crate::css::rules_view(r.rules@) == crate::css::parse_rules_v(
                crate::css::spec_tokenize(s@),
                0,
            ).0,
    {
        let base = Theme { parent: None, rules: crate::css::parse(DEFAULT_THEME_CSS) };
        Theme { parent: Some(Box::new(base)), rules: crate::css::parse(s) }
    }

    /// A theme holding only the built-in default rules.
    pub fn new() -> (r: Theme)
        ensures
            r.parent is Some,
            (*r.parent->0).parent is None,
            crate::css::rules_view((*r.parent->0).rules@) == crate::css::parse_rules_v(
                crate::css::spec_tokenize(DEFAULT_THEME_CSS@),
                0,
            ).0,
            r.rules@.len() == 0,
    {
        let r = Theme::parse("");
        proof {
            assert(crate::css::spec_tokenize(""@) =~= Seq::<crate::css::TokenV>::empty()) by {
                reveal_strlit("");
            }
            assert(crate::css::parse_rules_v(crate::css::spec_tokenize(""@), 0).0 =~= Seq::<
                crate::css::RuleV,
            >::empty());
        }
        r
    }

    /// A theme with no rules and no parent.
    pub fn empty() -> (r: Theme)
        ensures
            r.parent is None,
            r.rules@ =~= Seq::<Rule>::empty(),
    {
        Theme { parent: None, rules: Vec::new() }
    }

    /// Resolves a property for a query selector: among every rule of the
    /// chain whose selector matches and that declares the property, the one
    /// ranked highest by (importance, specificity) wins, later rules winning
    /// ties.
    pub fn get(&self, property: &str, query: &Selector) -> (r: Option<Value>)
        ensures
            r == spec_resolve(*self, property@, *query),
        decreases *self,
    {
        let base: Option<(bool, Specificity, Value)> = match &self.parent {
            None => None,
            Some(p) => p.get_ranked(property, query),
        };
        let win = self.cascade_own(property, query, base);
        match win {
            None => None,
            Some(c) => Some(c.2),
        }
    }

    /// Resolves a property and also reports the winner's rank.
    fn get_ranked(&self, property: &str, query: &Selector) -> (r: Option<
        (bool, Specificity, Value),
    >)
        ensures
            r == theme_resolve(*self, property@, *query),
        decreases *self,
    {
        let base: Option<(bool, Specificity, Value)> = match &self.parent {
            None => None,
            Some(p) => p.get_ranked(property, query),
        };
        self.cascade_own(property, query, base)
    }

    /// Folds this theme's own rules onto an accumulated best candidate.
    fn cascade_own(
        &self,
        property: &str,
        query: &Selector,
        base: Option<(bool, Specificity, Value)>,
    ) -> (r: Option<(bool, Specificity, Value)>)
        ensures
            r == cascade_rules(self.rules@, property@, *query, base),
    {
        let mut acc = base;
        let n = self.rules.len();
        let mut i: usize = 0;
        proof {
            assert(self.rules@.skip(0) =~= self.rules@);
        }
        while i < n
            invariant
                n == self.rules@.len(),
                i <= n,
                cascade_rules(self.rules@, property@, *query, base) == cascade_rules(
                    self.rules@.skip(i as int),
                    property@,
                    *query,
                    acc,
                ),
            decreases n - i,
        {
            let cand = rule_candidate_exec(&self.rules[i], property, query);
            let ghost prev = acc;
            match cand {
                None => {},
                Some(c) => {
                    match &acc {
                        None => {
                            acc = Some(c);
                        },
                        Some(a) => {
                            if key_ge_exec(c.0, &c.1, a.0, &a.1) {
                                acc = Some(c);
                            }
                        },
                    }
                },
            }
            proof {
                assert(self.rules@.skip(i as int).drop_first() =~= self.rules@.skip(i + 1int));
                assert(self.rules@.skip(i as int)[0] == self.rules@[i as int]);
            }
            i = i + 1;
        }
        proof {
            assert(self.rules@.skip(n as int) =~= Seq::<Rule>::empty());
        }
        acc
    }
}

/// What the `uint` accessor answers: the resolved unsigned integer, or zero
/// when no rule matches or the resolved value has another type.
pub open spec fn spec_uint(t: Theme, prop: Seq<char>, query: Selector) -> u32 {
    match spec_resolve(t, prop, query) {
        Some(Value::UInt(x)) => x,
        _ => 0u32,
    }
}

/// What the `float` accessor answers, in fixed-point thousandths: the
/// resolved value, or one (`1000`) when no rule matches or the resolved
/// value has another type.
pub open spec fn spec_float(t: Theme, prop: Seq<char>, query: Selector) -> u32 {
    match spec_resolve(t, prop, query) {
        Some(Value::Float(x)) => x,
        _ => 1000u32,
    }
}

/// What the `brush` accessor answers: the resolved brush, or the transparent
/// default when no rule matches or the resolved value has another type.
pub open spec fn spec_brush(t: Theme, prop: Seq<char>, query: Selector) -> Brush {
    match spec_resolve(t, prop, query) {
        Some(Value::Brush(b)) => b,
        _ => Brush::SolidColor(crate::structs::Color { data: 0u32 }),
    }
}

/// What the `string` accessor answers: the characters of the resolved
/// string, or none when no rule matches or the resolved value has another
/// type — the accessor then returns the empty string.
pub open spec fn spec_string(t: Theme, prop: Seq<char>, query: Selector) -> Option<Seq<char>> {
    match spec_resolve(t, prop, query) {
        Some(Value::Str(s)) => Some(s@),
        _ => None,
    }
}

impl Theme {
    /// The themed unsigned integer for a property, zero when nothing
    /// resolves; missing styling never fails.
    pub fn uint(&self, property: &str, query: &Selector) -> (r: u32)
        ensures
            r == spec_uint(*self, property@, *query),
    {
        match self.get(property, query) {
            Some(Value::UInt(x)) => x,
            _ => 0,
        }
    }

    /// The themed fixed-point thousandths for a property, one (`1000`) when
    /// nothing resolves; missing styling never fails.
    pub fn float(&self, property: &str, query: &Selector) -> (r: u32)
        ensures
            r == spec_float(*self, property@, *query),
    {
        match self.get(property, query) {
            Some(Value::Float(x)) => x,
            _ => 1000,
        }
    }

    /// The themed brush for a property, the transparent default when nothing
    /// resolves; missing styling never fails.
    pub fn brush(&self, property: &str, query: &Selector) -> (r: Brush)
        ensures
            r == spec_brush(*self, property@, *query),
    {
        match self.get(property, query) {
            Some(Value::Brush(b)) => b,
            _ => Brush::SolidColor(crate::structs::Color { data: 0 }),
        }
    }

    /// The themed string for a property, empty when nothing resolves;
    /// missing styling never fails.
    pub fn string(&self, property: &str, query: &Selector) -> (r: String)
        ensures
            r@ == (match spec_string(*self, property@, *query) {
                Some(s) => s,
                None => Seq::<char>::empty(),
            }),
    {
        match self.get(property, query) {
            Some(Value::Str(s)) => s,
            _ => String::new(),
        }
    }
}

/// Folding a rule list never ranks the winner below the accumulator.
proof fn lemma_cascade_ge_acc(
    rules: Seq<Rule>,
    prop: Seq<char>,
    query: Selector,
    a: (bool, Specificity, Value),
)
    ensures
        cascade_rules(rules, prop, query, Some(a)) is Some,
        ({
            let w = cascade_rules(rules, prop, query, Some(a))->0;
            key_ge(w.0, w.1, a.0, a.1)
        }),
    decreases rules.len(),
{
    if rules.len() == 0 {
    } else {
        match rule_candidate(rules[0], prop, query) {
            None => {
                lemma_cascade_ge_acc(rules.drop_first(), prop, query, a);
            },
            Some(c) => {
                if key_ge(c.0, c.1, a.0, a.1) {
                    lemma_cascade_ge_acc(rules.drop_first(), prop, query, c);
                } else {
                    lemma_cascade_ge_acc(rules.drop_first(), prop, query, a);
                }
            },
        }
    }
}

/// Folding a rule list ranks the winner at least as high as every rule's own
/// candidate.
proof fn lemma_cascade_ge_candidate(
    rules: Seq<Rule>,
    prop: Seq<char>,
    query: Selector,
    acc: Option<(bool, Specificity, Value)>,
    i: int,
)
    requires
        0 <= i < rules.len(),
        rule_candidate(rules[i], prop, query) is Some,
    ensures
        cascade_rules(rules, prop, query, acc) is Some,
        ({
            let w = cascade_rules(rules, prop, query, acc)->0;
            let c = rule_candidate(rules[i], prop, query)->0;
            key_ge(w.0, w.1, c.0, c.1)
        }),
    decreases rules.len(),
{
    let c0 = rule_candidate(rules[0], prop, query);
    let acc2 = match c0 {
        None => acc,
        Some(c) => match acc {
            None => Some(c),
            Some(a) => if key_ge(c.0, c.1, a.0, a.1) {
                Some(c)
            } else {
                Some(a)
            },
        },
    };
    if i == 0 {
        let c = c0->0;
        assert(acc2 is Some);
        let a2 = acc2->0;
        assert(key_ge(a2.0, a2.1, c.0, c.1));
        lemma_cascade_ge_acc(rules.drop_first(), prop, query, a2);
    } else {
        assert(rules.drop_first()[i - 1] == rules[i]);
        lemma_cascade_ge_candidate(rules.drop_first(), prop, query, acc2, i - 1);
    }
}

/// The winner resolved by a theme outranks the candidate of every rule of
/// the theme itself: specificity decides among equally important rules, and
/// importance outranks specificity.
pub proof fn lemma_winner_outranks(t: Theme, prop: Seq<char>, query: Selector, i: int)
    requires
        0 <= i < t.rules@.len(),
        rule_candidate(t.rules@[i], prop, query) is Some,
    ensures
        theme_resolve(t, prop, query) is Some,
        ({
            let w = theme_resolve(t, prop, query)->0;
            let c = rule_candidate(t.rules@[i], prop, query)->0;
            key_ge(w.0, w.1, c.0, c.1)
        }),
{
    let base = match t.parent {
        None => None,
        Some(p) => theme_resolve(*p, prop, query),
    };
    lemma_cascade_ge_candidate(t.rules@, prop, query, base, i);
}

/// Some rule of the theme or of its inheritance chain contributes an
/// important candidate for the property.
pub open spec fn chain_has_important(t: Theme, prop: Seq<char>, query: Selector) -> bool
    decreases t,
{
    ||| (exists|i: int|
        0 <= i < t.rules@.len() && (#[trigger] rule_candidate(t.rules@[i], prop, query)) is Some
            && (rule_candidate(t.rules@[i], prop, query)->0).0)
    ||| (match t.parent {
        None => false,
        Some(p) => chain_has_important(*p, prop, query),
    })
}

/// Importance outranks specificity: whenever any matching rule of the chain
/// declares the property `!important`, the resolved winner is an important
/// declaration — a non-important rule loses however specific its selector
/// is.
pub proof fn lemma_importance_wins(t: Theme, prop: Seq<char>, query: Selector)
    requires
        chain_has_important(t, prop, query),
    ensures
        theme_resolve(t, prop, query) is Some,
        (theme_resolve(t, prop, query)->0).0,
    decreases t,
{
    let base = match t.parent {
        None => None::<(bool, Specificity, Value)>,
        Some(p) => theme_resolve(*p, prop, query),
    };
    if exists|i: int|
        0 <= i < t.rules@.len() && (#[trigger] rule_candidate(t.rules@[i], prop, query)) is Some
            && (rule_candidate(t.rules@[i], prop, query)->0).0 {
        let i = choose|i: int|
            0 <= i < t.rules@.len() && (#[trigger] rule_candidate(t.rules@[i], prop, query))
                is Some && (rule_candidate(t.rules@[i], prop, query)->0).0;
        lemma_cascade_ge_candidate(t.rules@, prop, query, base, i);
    } else {
        match t.parent {
            None => {
                assert(false);
            },
            Some(p) => {
                lemma_importance_wins(*p, prop, query);
                lemma_cascade_ge_acc(t.rules@, prop, query, base->0);
            },
        }
    }
}

/// Compares two candidate ranks: importance first, then specificity.
fn key_ge_exec(ximp: bool, xsp: &Specificity, yimp: bool, ysp: &Specificity) -> (r: bool)
    ensures
        r == key_ge(ximp, *xsp, yimp, *ysp),
{
    if ximp != yimp {
        ximp
    } else {
        specificity_ge(xsp, ysp)
    }
}

/// Computes what one rule contributes for a property and query.
fn rule_candidate_exec(rule: &Rule, property: &str, query: &Selector) -> (r: Option<
    (bool, Specificity, Value),
>)
    ensures
        r == rule_candidate(*rule, property@, *query),
{
    let best = best_specificity_exec(&rule.selectors, query);
    match best {
        None => None,
        Some(sp) => {
            match find_decl_exec(&rule.declarations, property) {
                None => None,
                Some(d) => Some((d.important, sp, d.value)),
            }
        },
    }
}

/// Finds the first declaration of the property in a list.
fn find_decl_exec(decls: &Vec<Declaration>, property: &str) -> (r: Option<Declaration>)
    ensures
        r == find_decl(decls@, property@),
{
    let n = decls.len();
    let mut i: usize = 0;
    proof {
        assert(decls@.skip(0) =~= decls@);
    }
    while i < n
        invariant
            n == decls@.len(),
            i <= n,
            find_decl(decls@, property@) == find_decl(decls@.skip(i as int), property@),
        decreases n - i,
    {
        proof {
            assert(decls@.skip(i as int)[0] == decls@[i as int]);
            assert(decls@.skip(i as int).drop_first() =~= decls@.skip(i + 1int));
        }
        if str_eq(decls[i].property.as_str(), property) {
            return Some(decls[i].clone());
        }
        i = i + 1;
    }
    proof {
        assert(decls@.skip(n as int) =~= Seq::<Declaration>::empty());
    }
    None
}

/// The best specificity among the selectors of a rule that match the query.
fn best_specificity_exec(sels: &Vec<Selector>, query: &Selector) -> (r: Option<Specificity>)
    ensures
        r == crate::selector::best_specificity(sels@, *query),
{
    let n = sels.len();
    let mut acc: Option<Specificity> = None;
    let mut i: usize = 0;
    while i < n
        invariant
            n == sels@.len(),
            i <= n,
            acc == crate::selector::best_specificity(sels@.take(i as int), *query),
        decreases n - i,
    {
        proof {
            assert(sels@.take(i + 1int).drop_last() =~= sels@.take(i as int));
            assert(sels@.take(i + 1int).last() == sels@[i as int]);
        }
        if sels[i].matches(query) {
            let sp = sels[i].specificity();
            match &acc {
                None => {
                    acc = Some(sp);
                },
                Some(b) => {
                    if specificity_ge(&sp, b) {
                        acc = Some(sp);
                    }
                },
            }
        }
        i = i + 1;
    }
    proof {
        assert(sels@.take(n as int) =~= sels@);
    }
    acc
}


/// The character-level views of a theme chain, the least specific theme
/// first.
pub open spec fn theme_view(t: Theme) -> Seq<Seq<crate::css::RuleV>>
    decreases t,
{
    match t.parent {
        None => seq![crate::css::rules_view(t.rules@)],
        Some(p) => theme_view(*p).push(crate::css::rules_view(t.rules@)),
    }
}

/// Copies a selector list, keeping every selector's characters.
fn clone_selectors(v: &Vec<Selector>) -> (r: Vec<Selector>)
    ensures
        crate::css::sels_view(r@) == crate::css::sels_view(v@),
{
    let mut out: Vec<Selector> = Vec::new();
    let mut i: usize = 0;
    proof {
        assert(crate::css::sels_view(out@) =~= crate::css::sels_view(v@.take(0)));
    }
    while i < v.len()
        invariant
            i <= v@.len(),
            out@.len() == i,
            crate::css::sels_view(out@) == crate::css::sels_view(v@.take(i as int)),
        decreases v@.len() - i,
    {
        let ghost prev = out@;
        out.push(crate::selector::clone_selector(&v[i]));
        proof {
            crate::css::lemma_sels_view_push(prev, out@[prev.len() as int]);
            crate::css::lemma_sel_deep_eq_view(out@[prev.len() as int], v@[i as int]);
            crate::css::lemma_sels_view_push(v@.take(i as int), v@[i as int]);
            assert(v@.take(i as int).push(v@[i as int]) =~= v@.take(i + 1int));
        }
        i = i + 1;
    }
    proof {
        assert(v@.take(v@.len() as int) =~= v@);
    }
    out
}

/// Copies a declaration list, keeping every declaration.
fn clone_declarations(v: &Vec<Declaration>) -> (r: Vec<Declaration>)
    ensures
        r@ == v@,
{
    let mut out: Vec<Declaration> = Vec::new();
    let mut i: usize = 0;
    while i < v.len()
        invariant
            i <= v@.len(),
            out@ =~= v@.subrange(0, i as int),
        decreases v@.len() - i,
    {
        out.push(v[i].clone());
        assert(out@ =~= v@.subrange(0, i + 1int));
        i = i + 1;
    }
    proof {
        assert(v@.subrange(0, v@.len() as int) =~= v@);
    }
    out
}

/// Copies a theme chain; the copy carries the same rules, character for
/// character, under the same inheritance chain.
pub fn clone_theme(t: &Theme) -> (r: Theme)
    ensures
        theme_view(r) == theme_view(*t),
    decreases *t,
{
    let parent: Option<Box<Theme>> = match &t.parent {
        None => None,
        Some(p) => Some(Box::new(clone_theme(p))),
    };
    let mut rules: Vec<Rule> = Vec::new();
    let mut i: usize = 0;
    proof {
        assert(crate::css::rules_view(rules@) =~= crate::css::rules_view(t.rules@.take(0)));
    }
    while i < t.rules.len()
        invariant
            i <= t.rules@.len(),
            crate::css::rules_view(rules@) == crate::css::rules_view(t.rules@.take(i as int)),
        decreases t.rules@.len() - i,
    {
        let ghost prev = rules@;
        rules.push(
            Rule {
                selectors: clone_selectors(&t.rules[i].selectors),
                declarations: clone_declarations(&t.rules[i].declarations),
            },
        );
        proof {
            crate::css::lemma_rules_view_push(prev, rules@[prev.len() as int]);
            crate::css::lemma_rules_view_push(t.rules@.take(i as int), t.rules@[i as int]);
            assert(t.rules@.take(i as int).push(t.rules@[i as int]) =~= t.rules@.take(i + 1int));
            assert(crate::css::rule_view(rules@[prev.len() as int]) == crate::css::rule_view(
                t.rules@[i as int],
            ));
        }
        i = i + 1;
    }
    proof {
        assert(t.rules@.take(t.rules@.len() as int) =~= t.rules@);
    }
    Theme { parent, rules }
}

} // verus!
