use orbtk::css::{css_color, css_string, hex_color, parse, parse_with_diagnostics, CssToken, RuleParser, tokenize};
use orbtk::selector::Selector;
use orbtk::structs::{Brush, Color};
use orbtk::theme::{Theme, Value};

fn sel(element: &str) -> Selector {
    Selector::new().with(String::from(element))
}

fn theme_of(css: &str) -> Theme {
    Theme { parent: None, rules: parse(css) }
}

#[test]
fn resolves_simple_rule() {
    let t = theme_of("button { width: 40; }");
    assert_eq!(t.uint("width", &sel("button")), 40);
}

#[test]
fn missing_property_gives_type_defaults() {
    let t = theme_of("button { width: 40; }");
    let q = sel("button");
    assert_eq!(t.uint("height", &q), 0);
    assert_eq!(t.float("opacity", &q), 1000);
    assert_eq!(t.brush("background", &q), Brush::SolidColor(Color { data: 0 }));
    assert_eq!(t.string("font-family", &q), String::new());
}

#[test]
fn wrong_type_gives_default_not_failure() {
    // requesting a uint where a brush resolved yields the zero default
    let t = theme_of("button { color: red; }");
    assert_eq!(t.uint("color", &sel("button")), 0);
}

#[test]
fn id_beats_class() {
    let t = theme_of(".a { color: red; } #id { color: blue; }");
    let q = Selector::new()
        .with_id(String::from("id"))
        .with_class(String::from("a"));
    assert_eq!(
        t.brush("color", &q),
        Brush::SolidColor(Color { data: 0xFF00_00FF })
    );
}

#[test]
fn important_beats_higher_specificity() {
    let t = theme_of("button { color: red !important; } .a.b { color: lime; }");
    let q = sel("button")
        .with_class(String::from("a"))
        .with_class(String::from("b"));
    assert_eq!(
        t.brush("color", &q),
        Brush::SolidColor(Color { data: 0xFFFF_0000 })
    );
}

#[test]
fn later_rule_wins_ties() {
    let t = theme_of("button { width: 1; } button { width: 2; }");
    assert_eq!(t.uint("width", &sel("button")), 2);
}

#[test]
fn child_theme_beats_parent() {
    let parent = theme_of("button { width: 7; }");
    let t = Theme { parent: Some(Box::new(parent)), rules: parse("button { width: 9; }") };
    assert_eq!(t.uint("width", &sel("button")), 9);
    // the parent still answers what the child does not override
    let parent2 = theme_of("button { height: 3; }");
    let t2 = Theme { parent: Some(Box::new(parent2)), rules: parse("button { width: 9; }") };
    assert_eq!(t2.uint("height", &sel("button")), 3);
}

#[test]
fn malformed_rule_is_dropped_with_diagnostic() {
    let (rules, diags) = parse_with_diagnostics("x { width: oops; } y { width: 7; }");
    assert_eq!(rules.len(), 1);
    assert!(diags.len() >= 1);
    let t = Theme { parent: None, rules };
    assert_eq!(t.uint("width", &sel("y")), 7);
    assert_eq!(t.uint("width", &sel("x")), 0);
}

#[test]
fn unknown_property_drops_rule() {
    let rules = parse("x { zig: 1; } y { height: 2; }");
    assert_eq!(rules.len(), 1);
}

#[test]
fn named_colors_resolve() {
    assert_eq!(css_color("red"), Some(Brush::SolidColor(Color { data: 0xFFFF_0000 })));
    assert_eq!(css_color("grey"), css_color("gray"));
    assert_eq!(css_color("transparent"), Some(Brush::SolidColor(Color { data: 0 })));
    assert_eq!(css_color("zebra"), None);
}

#[test]
fn hex_colors_resolve() {
    assert_eq!(hex_color("FF0000"), Some(Color { data: 0xFFFF_0000 }));
    assert_eq!(hex_color("f00"), Some(Color { data: 0xFFFF_0000 }));
    assert_eq!(hex_color("80FF0000"), Some(Color { data: 0x80FF_0000 }));
    assert_eq!(hex_color("xyz"), None);
    assert_eq!(hex_color("ff00"), None);
}

#[test]
fn hash_literal_in_rule() {
    let t = theme_of("window { background: #2c2c2c; }");
    assert_eq!(
        t.brush("background", &sel("window")),
        Brush::SolidColor(Color { data: 0xFF2C_2C2C })
    );
}

#[test]
fn quoted_string_value() {
    let t = theme_of("button { font-family: \"Roboto\"; }");
    assert_eq!(t.string("font-family", &sel("button")), String::from("Roboto"));
}

#[test]
fn opacity_is_fixed_point_thousandths() {
    let t = theme_of("button { opacity: 0.5; }");
    assert_eq!(t.float("opacity", &sel("button")), 500);
    let t2 = theme_of("button { opacity: 1.25; }");
    assert_eq!(t2.float("opacity", &sel("button")), 1250);
}

#[test]
fn comma_separates_selectors() {
    let t = theme_of("a, b { width: 5; }");
    assert_eq!(t.uint("width", &sel("a")), 5);
    assert_eq!(t.uint("width", &sel("b")), 5);
}

#[test]
fn class_matching_is_subset() {
    let t = theme_of(".a { width: 5; }");
    let q = sel("button").with_class(String::from("a")).with_class(String::from("b"));
    assert_eq!(t.uint("width", &q), 5);
    let q2 = sel("button").with_class(String::from("b"));
    assert_eq!(t.uint("width", &q2), 0);
}

#[test]
fn pseudo_class_matching() {
    let t = theme_of("button:active { width: 5; }");
    let q = sel("button").with_pseudo_class(String::from("active"));
    assert_eq!(t.uint("width", &q), 5);
    assert_eq!(t.uint("width", &sel("button")), 0);
}

#[test]
fn default_theme_parse_chain() {
    let t = Theme::parse("window { width: 11; }");
    assert_eq!(t.uint("width", &sel("window")), 11);
    let t2 = Theme::new();
    assert_eq!(t2.rules.len(), 0);
}

#[test]
fn rule_parser_reads_tokens() {
    let chars: Vec<char> = "a { width: 5; }".chars().collect();
    let toks = tokenize(&chars);
    assert!(matches!(toks[0], CssToken::Ident(_)));
    let parser = RuleParser::new();
    let (rules, diags) = parser.parse_rules(&toks);
    assert_eq!(rules.len(), 1);
    assert_eq!(diags.len(), 0);
}

#[test]
fn css_string_accepts_everything() {
    assert_eq!(css_string("anything"), Some(String::from("anything")));
}

#[test]
fn value_accessors() {
    assert_eq!(Value::UInt(4).uint(), Some(4));
    assert_eq!(Value::UInt(4).float(), None);
    assert_eq!(Value::Float(900).float(), Some(900));
    assert_eq!(Value::Str(String::from("x")).string(), Some(String::from("x")));
    assert_eq!(
        Value::Brush(Brush::SolidColor(Color { data: 1 })).brush(),
        Some(Brush::SolidColor(Color { data: 1 }))
    );
}

#[test]
fn diagnostic_variants() {
    let (_, d1) = parse_with_diagnostics("x { color: zebra; }");
    assert!(matches!(d1[0], orbtk::css::CustomParseError::InvalidColorName(_)));
    let (_, d2) = parse_with_diagnostics("x { color: #zz; }");
    assert!(matches!(d2[0], orbtk::css::CustomParseError::InvalidColorHex(_)));
    let (_, d3) = parse_with_diagnostics("x { width: ; }");
    assert!(matches!(d3[0], orbtk::css::CustomParseError::UnexpectedToken(_)));
    // a relation nested deeper than one level is diagnosed, the rule kept
    let (rules, d4) = parse_with_diagnostics("a b c { width: 3; }");
    assert_eq!(rules.len(), 1);
    assert!(matches!(d4[0], orbtk::css::CustomParseError::UnsupportedRelation(_)));
}

#[test]
fn one_level_parent_relation_matches() {
    let t = theme_of("a > b { width: 9; }");
    // a bare query without the structural context does not match
    assert_eq!(t.uint("width", &sel("b")), 0);
    // a query whose recorded parent is an `a` element matches
    let mut q = sel("b");
    q.relation = Some(Box::new(orbtk::selector::SelectorRelation::Parent(sel("a"))));
    assert_eq!(t.uint("width", &q), 9);
}

#[test]
fn important_flag_parses() {
    let rules = parse("x { width: 5 !important; }");
    assert_eq!(rules.len(), 1);
    assert!(rules[0].declarations[0].important);
    let rules2 = parse("x { width: 5; }");
    assert!(!rules2[0].declarations[0].important);
}
