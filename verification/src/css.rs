//! The CSS-subset theme source format: a tokenizer for idents, hashes,
//! numbers, quoted strings and punctuation, feeding the rule parser.

use vstd::prelude::*;
use vstd::string::StringExecFns;
use crate::text::string_from_chars;

verus! {

/// One lexical token of the theme source text.
#[derive(Debug)]
pub enum CssToken {
    Ident(String),
    Hash(String),
    Number { int_part: u32, milli: u32, is_float: bool },
    Quoted(String),
    Colon,
    Semicolon,
    Comma,
    OpenBrace,
    CloseBrace,
    Delim(char),
}

/// The ghost mirror of a token, holding character sequences.
pub enum TokenV {
    Ident(Seq<char>),
    Hash(Seq<char>),
    Number { int_part: u32, milli: u32, is_float: bool },
    Quoted(Seq<char>),
    Colon,
    Semicolon,
    Comma,
    OpenBrace,
    CloseBrace,
    Delim(char),
}

/// The ghost view of a token.
pub open spec fn tok_view(t: CssToken) -> TokenV {
    match t {
        CssToken::Ident(s) => TokenV::Ident(s@),
        CssToken::Hash(s) => TokenV::Hash(s@),
        CssToken::Number { int_part, milli, is_float } => TokenV::Number {
            int_part,
            milli,
            is_float,
        },
        CssToken::Quoted(s) => TokenV::Quoted(s@),
        CssToken::Colon => TokenV::Colon,
        CssToken::Semicolon => TokenV::Semicolon,
        CssToken::Comma => TokenV::Comma,
        CssToken::OpenBrace => TokenV::OpenBrace,
        CssToken::CloseBrace => TokenV::CloseBrace,
        CssToken::Delim(c) => TokenV::Delim(c),
    }
}

/// The ghost views of a token list.
pub open spec fn toks_view(ts: Seq<CssToken>) -> Seq<TokenV> {
    ts.map_values(|t: CssToken| tok_view(t))
}

pub open spec fn is_ws(c: char) -> bool {
    c == ' ' || c == '\t' || c == '\n' || c == '\r'
}

pub open spec fn is_digit(c: char) -> bool {
    '0' <= c && c <= '9'
}

pub open spec fn is_ident_start(c: char) -> bool {
    ('a' <= c && c <= 'z') || ('A' <= c && c <= 'Z') || c == '_'
}

/// Idents continue with letters, digits, `-` and `_`, so a property name
/// such as `border-radius` is one token.
pub open spec fn is_ident_char(c: char) -> bool {
    is_ident_start(c) || is_digit(c) || c == '-'
}

/// How many leading characters of `s` are ident characters.
pub open spec fn ident_len(s: Seq<char>) -> nat
    decreases s.len(),
{
    if s.len() == 0 || !is_ident_char(s[0]) {
        0
    } else {
        1 + ident_len(s.drop_first())
    }
}

/// How many leading characters of `s` are digits.
pub open spec fn digits_len(s: Seq<char>) -> nat
    decreases s.len(),
{
    if s.len() == 0 || !is_digit(s[0]) {
        0
    } else {
        1 + digits_len(s.drop_first())
    }
}

/// The numeric value of a digit character.
pub open spec fn digit_val(c: char) -> int {
    c as int - '0' as int
}

/// The value of a digit sequence read in base ten.
pub open spec fn digits_val(s: Seq<char>) -> int
    decreases s.len(),
{
    if s.len() == 0 {
        0
    } else {
        digits_val(s.drop_last()) * 10 + digit_val(s.last())
    }
}

/// A value clamped into the unsigned 32-bit range.
pub open spec fn sat_num(v: int) -> u32 {
    if v < 0 {
        0u32
    } else if v > u32::MAX {
        u32::MAX
    } else {
        v as u32
    }
}

/// The thousandths encoded by a fraction digit sequence: the first three
/// digits weighted, further digits truncated.
pub open spec fn milli_of(fr: Seq<char>) -> u32 {
    let d0 = if fr.len() > 0 {
        digit_val(fr[0])
    } else {
        0
    };
    let d1 = if fr.len() > 1 {
        digit_val(fr[1])
    } else {
        0
    };
    let d2 = if fr.len() > 2 {
        digit_val(fr[2])
    } else {
        0
    };
    (d0 * 100 + d1 * 10 + d2) as u32
}

/// How many characters the quoted-string body spans: up to the closing
/// quote, or to the end of the text when unterminated.
pub open spec fn quoted_len(s: Seq<char>, quote: char) -> nat
    decreases s.len(),
{
    if s.len() == 0 || s[0] == quote {
        0
    } else {
        1 + quoted_len(s.drop_first(), quote)
    }
}

/// The token at the head of `s`, whose first character is not whitespace.
pub open spec fn head_token(s: Seq<char>) -> TokenV {
    let c = s[0];
    if is_ident_start(c) {
        TokenV::Ident(s.take(ident_len(s) as int))
    } else if c == '#' {
        TokenV::Hash(s.drop_first().take(ident_len(s.drop_first()) as int))
    } else if is_digit(c) {
        let n = digits_len(s);
        let int_part = sat_num(digits_val(s.take(n as int)));
        if n < s.len() && s[n as int] == '.' {
            let fr = s.skip(n + 1int).take(digits_len(s.skip(n + 1int)) as int);
            TokenV::Number { int_part, milli: milli_of(fr), is_float: true }
        } else {
            TokenV::Number { int_part, milli: 0u32, is_float: false }
        }
    } else if c == '"' || c == '\'' {
        TokenV::Quoted(s.drop_first().take(quoted_len(s.drop_first(), c) as int))
    } else if c == ':' {
        TokenV::Colon
    } else if c == ';' {
        TokenV::Semicolon
    } else if c == ',' {
        TokenV::Comma
    } else if c == '{' {
        TokenV::OpenBrace
    } else if c == '}' {
        TokenV::CloseBrace
    } else {
        TokenV::Delim(c)
    }
}

/// How many characters the head token spans; at least one.
pub open spec fn head_token_len(s: Seq<char>) -> nat {
    let c = s[0];
    if is_ident_start(c) {
        1 + ident_len(s.drop_first())
    } else if c == '#' {
        1 + ident_len(s.drop_first())
    } else if is_digit(c) {
        let n = 1 + digits_len(s.drop_first());
        if n < s.len() && s[n as int] == '.' {
            n + 1 + digits_len(s.skip(n as int + 1))
        } else {
            n
        }
    } else if c == '"' || c == '\'' {
        let q = quoted_len(s.drop_first(), c);
        if 1 + q < s.len() {
            q + 2
        } else {
            s.len()
        }
    } else {
        1
    }
}

/// The token sequence of the theme source text: whitespace separates tokens
/// and is dropped.
pub open spec fn spec_tokenize(s: Seq<char>) -> Seq<TokenV>
    decreases s.len(),
{
    if s.len() == 0 {
        Seq::empty()
    } else if is_ws(s[0]) {
        spec_tokenize(s.drop_first())
    } else {
        let n0 = head_token_len(s);
        let n: int = if n0 < 1 {
            1
        } else if n0 > s.len() {
            s.len() as int
        } else {
            n0 as int
        };
        seq![head_token(s)] + spec_tokenize(s.skip(n))
    }
}

fn ws_char(c: char) -> (r: bool)
    ensures
        r == is_ws(c),
{
    c == ' ' || c == '\t' || c == '\n' || c == '\r'
}

fn digit_char(c: char) -> (r: bool)
    ensures
        r == is_digit(c),
{
    '0' <= c && c <= '9'
}

fn ident_start_char(c: char) -> (r: bool)
    ensures
        r == is_ident_start(c),
{
    ('a' <= c && c <= 'z') || ('A' <= c && c <= 'Z') || c == '_'
}

fn ident_char(c: char) -> (r: bool)
    ensures
        r == is_ident_char(c),
{
    ident_start_char(c) || digit_char(c) || c == '-'
}

/// Copies the characters of `s` between `from` and `to`.
fn subvec(s: &Vec<char>, from: usize, to: usize) -> (r: Vec<char>)
    requires
        from <= to <= s@.len(),
    ensures
        r@ == s@.subrange(from as int, to as int),
{
    let mut out: Vec<char> = Vec::new();
    let mut j = from;
    while j < to
        invariant
            from <= j <= to <= s@.len(),
            out@ =~= s@.subrange(from as int, j as int),
        decreases to - j,
    {
        out.push(s[j]);
        assert(out@ =~= s@.subrange(from as int, j + 1int));
        j = j + 1;
    }
    out
}

/// Finds the end of the ident-character run starting at `i`.
fn scan_ident(s: &Vec<char>, i: usize) -> (end: usize)
    requires
        i <= s@.len(),
    ensures
        i <= end <= s@.len(),
        end - i == ident_len(s@.skip(i as int)),
{
    let n = s.len();
    let mut j = i;
    while j < n && ident_char(s[j])
        invariant
            i <= j <= n,
            n == s@.len(),
            ident_len(s@.skip(i as int)) == (j - i) + ident_len(s@.skip(j as int)),
        decreases n - j,
    {
        proof {
            assert(s@.skip(j as int)[0] == s@[j as int]);
            assert(s@.skip(j as int).drop_first() =~= s@.skip(j + 1int));
        }
        j = j + 1;
    }
    proof {
        if j < n {
            assert(s@.skip(j as int)[0] == s@[j as int]);
            assert(ident_len(s@.skip(j as int)) == 0);
        } else {
            assert(s@.skip(j as int).len() == 0);
        }
    }
    j
}

/// Finds the end of the digit run starting at `i` and the run's value,
/// capped one above the unsigned 32-bit range.
fn scan_digits(s: &Vec<char>, i: usize) -> (r: (usize, u64))
    requires
        i <= s@.len(),
    ensures
        i <= r.0 <= s@.len(),
        r.0 - i == digits_len(s@.skip(i as int)),
        ({
            let v = digits_val(s@.subrange(i as int, r.0 as int));
            &&& (v <= 0x1_0000_0000 ==> r.1 == v)
            &&& (v > 0x1_0000_0000 ==> r.1 == 0x1_0000_0000u64)
        }),
{
    let cap: u64 = 0x1_0000_0000;
    let n = s.len();
    let mut j = i;
    let mut val: u64 = 0;
    while j < n && digit_char(s[j])
        invariant
            i <= j <= n,
            n == s@.len(),
            digits_len(s@.skip(i as int)) == (j - i) + digits_len(s@.skip(j as int)),
            val <= 0x1_0000_0000u64,
            ({
                let v = digits_val(s@.subrange(i as int, j as int));
                &&& (v <= 0x1_0000_0000 ==> val == v)
                &&& (v > 0x1_0000_0000 ==> val == 0x1_0000_0000u64)
            }),
        decreases n - j,
    {
        proof {
            assert(s@.skip(j as int)[0] == s@[j as int]);
            assert(s@.skip(j as int).drop_first() =~= s@.skip(j + 1int));
            assert(s@.subrange(i as int, j + 1int).drop_last() =~= s@.subrange(
                i as int,
                j as int,
            ));
            assert(s@.subrange(i as int, j + 1int).last() == s@[j as int]);
        }
        let d = (s[j] as u32) - ('0' as u32);
        assert(d <= 9);
        let next = val * 10 + (d as u64);
        if next > 0x1_0000_0000u64 {
            val = 0x1_0000_0000;
        } else {
            val = next;
        }
        j = j + 1;
    }
    proof {
        if j < n {
            assert(s@.skip(j as int)[0] == s@[j as int]);
            assert(digits_len(s@.skip(j as int)) == 0);
        } else {
            assert(s@.skip(j as int).len() == 0);
        }
    }
    (j, val)
}

/// Finds the end of a quoted-string body starting at `i`.
fn scan_quoted(s: &Vec<char>, i: usize, quote: char) -> (end: usize)
    requires
        i <= s@.len(),
    ensures
        i <= end <= s@.len(),
        end - i == quoted_len(s@.skip(i as int), quote),
{
    let n = s.len();
    let mut j = i;
    while j < n && s[j] != quote
        invariant
            i <= j <= n,
            n == s@.len(),
            quoted_len(s@.skip(i as int), quote) == (j - i) + quoted_len(
                s@.skip(j as int),
                quote,
            ),
        decreases n - j,
    {
        proof {
            assert(s@.skip(j as int)[0] == s@[j as int]);
            assert(s@.skip(j as int).drop_first() =~= s@.skip(j + 1int));
        }
        j = j + 1;
    }
    proof {
        if j < n {
            assert(s@.skip(j as int)[0] == s@[j as int]);
            assert(quoted_len(s@.skip(j as int), quote) == 0);
        } else {
            assert(s@.skip(j as int).len() == 0);
        }
    }
    j
}

/// Reads the token starting at `i`, whose first character is not
/// whitespace, and reports where the next token search resumes.
fn next_token(s: &Vec<char>, i: usize) -> (r: (CssToken, usize))
    requires
        i < s@.len(),
        !is_ws(s@[i as int]),
    ensures
        i < r.1 <= s@.len(),
        tok_view(r.0) == head_token(s@.skip(i as int)),
        r.1 - i == head_token_len(s@.skip(i as int)),
        1 <= head_token_len(s@.skip(i as int)) <= s@.len() - i,
{
    let n = s.len();
    let ghost rem = s@.skip(i as int);
    proof {
        assert(rem[0] == s@[i as int]);
    }
    let c = s[i];
    if ident_start_char(c) {
        let end = scan_ident(s, i);
        proof {
            assert(rem.drop_first() =~= s@.skip(i + 1int));
            assert(ident_len(rem) == 1 + ident_len(rem.drop_first()));
            assert(rem.take(ident_len(rem) as int) =~= s@.subrange(i as int, end as int));
        }
        let body = subvec(s, i, end);
        (CssToken::Ident(string_from_chars(&body)), end)
    } else if c == '#' {
        let end = scan_ident(s, i + 1);
        proof {
            assert(rem.drop_first() =~= s@.skip(i + 1int));
            assert(rem.drop_first().take(ident_len(rem.drop_first()) as int) =~= s@.subrange(
                i + 1int,
                end as int,
            ));
        }
        let body = subvec(s, i + 1, end);
        (CssToken::Hash(string_from_chars(&body)), end)
    } else if digit_char(c) {
        let (end1, val) = scan_digits(s, i);
        proof {
            assert(rem.drop_first() =~= s@.skip(i + 1int));
            assert(digits_len(rem) == 1 + digits_len(rem.drop_first()));
            assert(rem.take(digits_len(rem) as int) =~= s@.subrange(i as int, end1 as int));
        }
        let int_part: u32 = if val > 0xFFFF_FFFFu64 {
            u32::MAX
        } else {
            val as u32
        };
        assert(int_part == sat_num(digits_val(rem.take(digits_len(rem) as int))));
        if end1 < n && s[end1] == '.' {
            proof {
                assert(rem[(end1 - i) as int] == s@[end1 as int]);
            }
            let (end2, _fval) = scan_digits(s, end1 + 1);
            proof {
                assert(s@.skip(end1 + 1int) =~= rem.skip((end1 + 1 - i) as int));
                assert(rem.skip((end1 - i) as int + 1).take(
                    digits_len(rem.skip((end1 - i) as int + 1)) as int,
                ) =~= s@.subrange(end1 + 1int, end2 as int));
                let fr = s@.subrange(end1 + 1int, end2 as int);
                assert(digits_len(s@.skip(end1 + 1int)) == end2 - (end1 + 1));
                assert forall|k: int| 0 <= k < fr.len() implies is_digit(#[trigger] fr[k]) by {
                    lemma_digits_prefix(s@.skip(end1 + 1int), k);
                    assert(fr[k] == s@.skip(end1 + 1int)[k]);
                }
            }
            let d0: u32 = if end2 - end1 > 1 {
                (s[end1 + 1] as u32) - 48
            } else {
                0
            };
            let d1: u32 = if end2 - end1 > 2 {
                (s[end1 + 2] as u32) - 48
            } else {
                0
            };
            let d2: u32 = if end2 - end1 > 3 {
                (s[end1 + 3] as u32) - 48
            } else {
                0
            };
            (CssToken::Number { int_part, milli: d0 * 100 + d1 * 10 + d2, is_float: true }, end2)
        } else {
            (CssToken::Number { int_part, milli: 0, is_float: false }, end1)
        }
    } else if c == '"' || c == '\'' {
        let end = scan_quoted(s, i + 1, c);
        proof {
            assert(rem.drop_first() =~= s@.skip(i + 1int));
            assert(rem.drop_first().take(quoted_len(rem.drop_first(), c) as int) =~= s@.subrange(
                i + 1int,
                end as int,
            ));
        }
        let body = subvec(s, i + 1, end);
        let next = if end < n {
            end + 1
        } else {
            end
        };
        (CssToken::Quoted(string_from_chars(&body)), next)
    } else if c == ':' {
        (CssToken::Colon, i + 1)
    } else if c == ';' {
        (CssToken::Semicolon, i + 1)
    } else if c == ',' {
        (CssToken::Comma, i + 1)
    } else if c == '{' {
        (CssToken::OpenBrace, i + 1)
    } else if c == '}' {
        (CssToken::CloseBrace, i + 1)
    } else {
        (CssToken::Delim(c), i + 1)
    }
}

/// Appending a token appends its view.
proof fn lemma_toks_view_push(ts: Seq<CssToken>, t: CssToken)
    ensures
        toks_view(ts.push(t)) == toks_view(ts) + seq![tok_view(t)],
{
    assert forall|k: int| 0 <= k < ts.push(t).len() implies #[trigger] toks_view(ts.push(t))[k]
        == (toks_view(ts) + seq![tok_view(t)])[k] by {
        assert(toks_view(ts.push(t))[k] == tok_view(ts.push(t)[k]));
        if k < ts.len() {
            assert(ts.push(t)[k] == ts[k]);
            assert(toks_view(ts)[k] == tok_view(ts[k]));
        } else {
            assert(ts.push(t)[k] == t);
        }
    }
    assert(toks_view(ts.push(t)) =~= toks_view(ts) + seq![tok_view(t)]);
}

/// Splits the theme source text into its token sequence.
pub fn tokenize(s: &Vec<char>) -> (r: Vec<CssToken>)
    ensures
        toks_view(r@) == spec_tokenize(s@),
{
    let n = s.len();
    let mut out: Vec<CssToken> = Vec::new();
    let mut i: usize = 0;
    proof {
        assert(s@.skip(0) =~= s@);
        assert(toks_view(out@) =~= Seq::<TokenV>::empty());
    }
    while i < n
        invariant
            i <= n,
            n == s@.len(),
            toks_view(out@) + spec_tokenize(s@.skip(i as int)) == spec_tokenize(s@),
        decreases n - i,
    {
        let ghost rem = s@.skip(i as int);
        proof {
            assert(rem[0] == s@[i as int]);
        }
        let c = s[i];
        if ws_char(c) {
            proof {
                assert(rem.drop_first() =~= s@.skip(i + 1int));
            }
            i = i + 1;
        } else {
            let (tok, next) = next_token(s, i);
            proof {
                assert(rem.skip((next - i) as int) =~= s@.skip(next as int));
                assert(spec_tokenize(rem) == seq![head_token(rem)] + spec_tokenize(
                    s@.skip(next as int),
                ));
            }
            let ghost prev = out@;
            let ghost tokval = tok;
            out.push(tok);
            proof {
                lemma_toks_view_push(prev, tokval);
                assert(toks_view(out@) + spec_tokenize(s@.skip(next as int)) =~= spec_tokenize(
                    s@,
                ));
            }
            i = next;
        }
    }
    proof {
        assert(s@.skip(n as int).len() == 0);
        assert(spec_tokenize(s@.skip(n as int)) =~= Seq::<TokenV>::empty());
        assert(toks_view(out@) =~= toks_view(out@) + spec_tokenize(s@.skip(n as int)));
    }
    out
}

/// The ghost mirror of a selector without its relation.
pub struct SelFlatV {
    pub element: Option<Seq<char>>,
    pub id: Option<Seq<char>>,
    pub classes: Seq<Seq<char>>,
    pub pseudo_classes: Seq<Seq<char>>,
}

/// The ghost mirror of a parsed selector: the flat part and, when a relation
/// is stated, whether it is a parent (`>`) relation and the flat part of the
/// related selector. Relations nested deeper than one level carry no
/// meaning: matching and specificity never read them.
pub struct SelV {
    pub flat: SelFlatV,
    pub parent_rel: Option<(bool, SelFlatV)>,
}

/// The ghost mirror of a typed value.
pub enum ValueV {
    UInt(u32),
    Float(u32),
    Brush(crate::structs::Brush),
    Str(Seq<char>),
}

/// The ghost mirror of a declaration.
pub struct DeclV {
    pub property: Seq<char>,
    pub value: ValueV,
    pub important: bool,
}

/// The ghost mirror of a rule.
pub struct RuleV {
    pub selectors: Seq<SelV>,
    pub declarations: Seq<DeclV>,
}

/// The ghost mirror of a diagnostic.
pub enum DiagV {
    InvalidColorName(Seq<char>),
    InvalidColorHex(Seq<char>),
    InvalidStringName(Seq<char>),
    UnexpectedToken(Seq<char>),
    UnsupportedRelation(Seq<char>),
}

/// An empty flat selector.
pub open spec fn empty_flat() -> SelFlatV {
    SelFlatV {
        element: None,
        id: None,
        classes: Seq::empty(),
        pseudo_classes: Seq::empty(),
    }
}

/// An empty selector.
pub open spec fn empty_selv() -> SelV {
    SelV { flat: empty_flat(), parent_rel: None }
}

/// The value of a hexadecimal digit character.
pub open spec fn hex_digit(c: char) -> Option<int> {
    if '0' <= c && c <= '9' {
        Some(c as int - '0' as int)
    } else if 'a' <= c && c <= 'f' {
        Some(c as int - 'a' as int + 10)
    } else if 'A' <= c && c <= 'F' {
        Some(c as int - 'A' as int + 10)
    } else {
        None
    }
}

/// Whether every character of `s` is a hexadecimal digit.
pub open spec fn all_hex(s: Seq<char>) -> bool {
    forall|k: int| 0 <= k < s.len() ==> hex_digit(#[trigger] s[k]) is Some
}

/// The value of a hexadecimal digit sequence.
pub open spec fn hex_val(s: Seq<char>) -> int
    decreases s.len(),
{
    if s.len() == 0 {
        0
    } else {
        hex_val(s.drop_last()) * 16 + (match hex_digit(s.last()) {
            Some(d) => d,
            None => 0,
        })
    }
}

/// The color a hash literal denotes: six digits are RGB under full alpha,
/// three digits are RGB with each digit doubled, eight digits are ARGB;
/// anything else is invalid.
pub open spec fn spec_hex_color(s: Seq<char>) -> Option<crate::structs::Color> {
    if !all_hex(s) {
        None
    } else if s.len() == 6 {
        Some(crate::structs::Color { data: sat_num(0xFF00_0000 + hex_val(s)) })
    } else if s.len() == 3 {
        let r = hex_val(seq![s[0]]);
        let g = hex_val(seq![s[1]]);
        let b = hex_val(seq![s[2]]);
        Some(
            crate::structs::Color {
                data: sat_num(0xFF00_0000 + r * 0x11_0000 + g * 0x1100 + b * 0x11),
            },
        )
    } else if s.len() == 8 {
        Some(crate::structs::Color { data: sat_num(hex_val(s)) })
    } else {
        None
    }
}

/// The named CSS colors the theme format recognizes, `transparent`
/// included.
pub open spec fn spec_css_color(name: Seq<char>) -> Option<crate::structs::Brush> {
    if name == "transparent"@ {
        Some(crate::structs::Brush::SolidColor(crate::structs::Color { data: 0u32 }))
    } else if name == "black"@ {
        some_rgb(0xFF00_0000)
    } else if name == "silver"@ {
        some_rgb(0xFFC0_C0C0)
    } else if name == "gray"@ || name == "grey"@ {
        some_rgb(0xFF80_8080)
    } else if name == "white"@ {
        some_rgb(0xFFFF_FFFF)
    } else if name == "maroon"@ {
        some_rgb(0xFF80_0000)
    } else if name == "red"@ {
        some_rgb(0xFFFF_0000)
    } else if name == "purple"@ {
        some_rgb(0xFF80_0080)
    } else if name == "fuchsia"@ {
        some_rgb(0xFFFF_00FF)
    } else if name == "green"@ {
        some_rgb(0xFF00_8000)
    } else if name == "lime"@ {
        some_rgb(0xFF00_FF00)
    } else if name == "olive"@ {
        some_rgb(0xFF80_8000)
    } else if name == "yellow"@ {
        some_rgb(0xFFFF_FF00)
    } else if name == "navy"@ {
        some_rgb(0xFF00_0080)
    } else if name == "blue"@ {
        some_rgb(0xFF00_00FF)
    } else if name == "teal"@ {
        some_rgb(0xFF00_8080)
    } else if name == "aqua"@ {
        some_rgb(0xFF00_FFFF)
    } else {
        None
    }
}

/// A solid brush over the given packed color.
pub open spec fn some_rgb(data: u32) -> Option<crate::structs::Brush> {
    Some(crate::structs::Brush::SolidColor(crate::structs::Color { data }))
}

/// Properties holding a color or brush value.
pub open spec fn is_brush_prop(name: Seq<char>) -> bool {
    ||| name == "color"@
    ||| name == "border-color"@
    ||| name == "icon-color"@
    ||| name == "background"@
    ||| name == "foreground"@
}

/// Properties holding a quoted string value.
pub open spec fn is_string_prop(name: Seq<char>) -> bool {
    name == "font-family"@ || name == "icon-font-family"@
}

/// Properties holding an unsigned integer dimension.
pub open spec fn is_uint_prop(name: Seq<char>) -> bool {
    ||| name == "border-radius"@
    ||| name == "border-width"@
    ||| name == "border-left"@
    ||| name == "border-top"@
    ||| name == "border-right"@
    ||| name == "border-bottom"@
    ||| name == "width"@
    ||| name == "height"@
    ||| name == "min-width"@
    ||| name == "min-height"@
    ||| name == "max-width"@
    ||| name == "max-height"@
    ||| name == "padding-top"@
    ||| name == "padding-right"@
    ||| name == "padding-bottom"@
    ||| name == "padding-left"@
    ||| name == "padding"@
    ||| name == "font-size"@
    ||| name == "icon-size"@
    ||| name == "icon-margin"@
}

/// Properties holding a fractional value.
pub open spec fn is_float_prop(name: Seq<char>) -> bool {
    name == "opacity"@
}

/// The value tokens of a declaration, given the property name: one token,
/// read by the property's kind; the result and the index after it, or the
/// diagnostic the malformed value earns.
pub open spec fn parse_value_v(name: Seq<char>, t: Seq<TokenV>, j: int, end: int) -> Result<
    (ValueV, int),
    DiagV,
> {
    if j >= end || end > t.len() {
        Err(DiagV::UnexpectedToken(name))
    } else if is_brush_prop(name) {
        match t[j] {
            TokenV::Ident(cname) => match spec_css_color(cname) {
                Some(b) => Ok((ValueV::Brush(b), j + 1)),
                None => Err(DiagV::InvalidColorName(cname)),
            },
            TokenV::Hash(h) => match spec_hex_color(h) {
                Some(c) => Ok((ValueV::Brush(crate::structs::Brush::SolidColor(c)), j + 1)),
                None => Err(DiagV::InvalidColorHex(h)),
            },
            _ => Err(DiagV::UnexpectedToken(name)),
        }
    } else if is_string_prop(name) {
        match t[j] {
            TokenV::Quoted(sv) => Ok((ValueV::Str(sv), j + 1)),
            _ => Err(DiagV::UnexpectedToken(name)),
        }
    } else if is_uint_prop(name) {
        match t[j] {
            TokenV::Number { int_part, milli, is_float } => if !is_float {
                Ok((ValueV::UInt(int_part), j + 1))
            } else {
                Err(DiagV::UnexpectedToken(name))
            },
            _ => Err(DiagV::UnexpectedToken(name)),
        }
    } else if is_float_prop(name) {
        match t[j] {
            TokenV::Number { int_part, milli, is_float } => Ok(
                (ValueV::Float(sat_num(int_part * 1000 + milli)), j + 1),
            ),
            _ => Err(DiagV::UnexpectedToken(name)),
        }
    } else {
        Err(DiagV::UnexpectedToken(name))
    }
}

/// The declarations between the braces of a rule: `name: value;` items with
/// an optional `!important`, stray semicolons tolerated. One malformed
/// declaration makes the whole block — and so the rule — invalid.
pub open spec fn parse_decl_block(t: Seq<TokenV>, i: int, end: int, acc: Seq<DeclV>) -> Result<
    Seq<DeclV>,
    DiagV,
>
    decreases end - i,
{
    if i < 0 || i >= end || end > t.len() {
        Ok(acc)
    } else {
        match t[i] {
            TokenV::Semicolon => parse_decl_block(t, i + 1, end, acc),
            TokenV::Ident(name) => {
                if i + 1 < end && t[i + 1] is Colon {
                    match parse_value_v(name, t, i + 2, end) {
                        Err(d) => Err(d),
                        Ok((value, j)) => {
                            if j >= end {
                                Ok(acc.push(DeclV { property: name, value, important: false }))
                            } else {
                                let (important, k) = if j + 1 < end && t[j] is Delim && t[j]->Delim_0
                                    == '!' && t[j + 1] is Ident && (t[j + 1]->Ident_0)
                                    == "important"@ {
                                    (true, j + 2)
                                } else {
                                    (false, j)
                                };
                                if k >= end {
                                    Ok(acc.push(DeclV { property: name, value, important }))
                                } else if t[k] is Semicolon {
                                    parse_decl_block(
                                        t,
                                        k + 1,
                                        end,
                                        acc.push(DeclV { property: name, value, important }),
                                    )
                                } else {
                                    Err(DiagV::UnexpectedToken(name))
                                }
                            }
                        },
                    }
                } else {
                    Err(DiagV::UnexpectedToken(name))
                }
            },
            _ => Err(DiagV::UnexpectedToken(Seq::empty())),
        }
    }
}

/// The selector list before the brace of a rule: element names, `#id`,
/// `.class`, `:pseudo-class`, `*`, one `>`-parent or whitespace-ancestor
/// relation, commas separating selectors. A relation nested deeper than one
/// level is diagnosed and its inner relation dropped.
pub open spec fn parse_selector_list(
    t: Seq<TokenV>,
    i: int,
    end: int,
    cur: SelV,
    first: bool,
    acc: Seq<SelV>,
    diags: Seq<DiagV>,
) -> Result<(Seq<SelV>, Seq<DiagV>), DiagV>
    decreases end - i,
{
    if i < 0 || i >= end || end > t.len() {
        Ok((acc.push(cur), diags))
    } else {
        match t[i] {
            TokenV::Ident(name) => {
                if first {
                    let cur2 = SelV {
                        flat: SelFlatV { element: Some(name), ..cur.flat },
                        ..cur
                    };
                    parse_selector_list(t, i + 1, end, cur2, false, acc, diags)
                } else {
                    let diags2 = if cur.parent_rel is Some {
                        diags.push(DiagV::UnsupportedRelation(name))
                    } else {
                        diags
                    };
                    let cur2 = SelV {
                        flat: SelFlatV { element: Some(name), ..empty_flat() },
                        parent_rel: Some((false, cur.flat)),
                    };
                    parse_selector_list(t, i + 1, end, cur2, false, acc, diags2)
                }
            },
            TokenV::Delim(d) => {
                if d == '>' {
                    if i + 1 < end && t[i + 1] is Ident {
                        let name = t[i + 1]->Ident_0;
                        let diags2 = if cur.parent_rel is Some {
                            diags.push(DiagV::UnsupportedRelation(name))
                        } else {
                            diags
                        };
                        let cur2 = SelV {
                            flat: SelFlatV { element: Some(name), ..empty_flat() },
                            parent_rel: Some((true, cur.flat)),
                        };
                        parse_selector_list(t, i + 2, end, cur2, false, acc, diags2)
                    } else {
                        Err(DiagV::UnexpectedToken(Seq::empty()))
                    }
                } else if d == '*' {
                    parse_selector_list(t, i + 1, end, cur, false, acc, diags)
                } else if d == '.' {
                    if i + 1 < end && t[i + 1] is Ident {
                        let cur2 = SelV {
                            flat: SelFlatV {
                                classes: cur.flat.classes.push(t[i + 1]->Ident_0),
                                ..cur.flat
                            },
                            ..cur
                        };
                        parse_selector_list(t, i + 2, end, cur2, false, acc, diags)
                    } else {
                        Err(DiagV::UnexpectedToken(Seq::empty()))
                    }
                } else {
                    Err(DiagV::UnexpectedToken(Seq::empty()))
                }
            },
            TokenV::Hash(id) => {
                let cur2 = SelV { flat: SelFlatV { id: Some(id), ..cur.flat }, ..cur };
                parse_selector_list(t, i + 1, end, cur2, false, acc, diags)
            },
            TokenV::Colon => {
                if i + 1 < end && t[i + 1] is Ident {
                    let cur2 = SelV {
                        flat: SelFlatV {
                            pseudo_classes: cur.flat.pseudo_classes.push(t[i + 1]->Ident_0),
                            ..cur.flat
                        },
                        ..cur
                    };
                    parse_selector_list(t, i + 2, end, cur2, false, acc, diags)
                } else {
                    Err(DiagV::UnexpectedToken(Seq::empty()))
                }
            },
            TokenV::Comma => {
                parse_selector_list(t, i + 1, end, empty_selv(), true, acc.push(cur), diags)
            },
            _ => Err(DiagV::UnexpectedToken(Seq::empty())),
        }
    }
}

/// How many tokens stand before the next opening brace.
pub open spec fn brace_dist(t: Seq<TokenV>, i: int) -> nat
    decreases t.len() - i,
{
    if i < 0 || i >= t.len() || t[i] is OpenBrace {
        0
    } else {
        1 + brace_dist(t, i + 1)
    }
}

/// How many tokens stand before the next closing brace.
pub open spec fn close_dist(t: Seq<TokenV>, i: int) -> nat
    decreases t.len() - i,
{
    if i < 0 || i >= t.len() || t[i] is CloseBrace {
        0
    } else {
        1 + close_dist(t, i + 1)
    }
}

/// The rules and diagnostics of the token stream from `i` on. Each rule is a
/// selector list, an open brace, a declaration block and a close brace; a
/// malformed rule is diagnosed and dropped whole, and parsing resumes after
/// its block.
pub open spec fn parse_rules_v(t: Seq<TokenV>, i: int) -> (Seq<RuleV>, Seq<DiagV>)
    decreases t.len() - i,
{
    if i < 0 || i >= t.len() {
        (Seq::empty(), Seq::empty())
    } else {
        let se = i + brace_dist(t, i);
        if se >= t.len() {
            // selectors with no block left: the trailing text is diagnosed
            (Seq::empty(), seq![DiagV::UnexpectedToken(Seq::empty())])
        } else {
            let be = se + 1 + close_dist(t, se + 1);
            let next: int = if be + 1 < t.len() {
                be + 1
            } else {
                t.len() as int
            };
            let rest = parse_rules_v(t, next);
            match parse_selector_list(t, i, se, empty_selv(), true, Seq::empty(), Seq::empty()) {
                Err(d) => ((rest.0, seq![d] + rest.1)),
                Ok((sels, sdiags)) => {
                    match parse_decl_block(t, se + 1, be, Seq::empty()) {
                        Err(d) => ((rest.0, sdiags + seq![d] + rest.1)),
                        Ok(decls) => (
                            seq![RuleV { selectors: sels, declarations: decls }] + rest.0,
                            sdiags + rest.1,
                        ),
                    }
                },
            }
        }
    }
}

/// A parse diagnostic: the offending rule is dropped and parsing continues
/// with the remaining rules.
#[derive(Debug)]
pub enum CustomParseError {
    /// A color property named an unknown color.
    InvalidColorName(String),
    /// A color property held a malformed hash literal.
    InvalidColorHex(String),
    /// A string property held an invalid string literal.
    InvalidStringName(String),
    /// A token stood where the grammar allows none.
    UnexpectedToken(String),
    /// A selector relation was nested deeper than the one supported level.
    UnsupportedRelation(String),
}

/// The ghost view of a diagnostic.
pub open spec fn diag_view(d: CustomParseError) -> DiagV {
    match d {
        CustomParseError::InvalidColorName(s) => DiagV::InvalidColorName(s@),
        CustomParseError::InvalidColorHex(s) => DiagV::InvalidColorHex(s@),
        CustomParseError::InvalidStringName(s) => DiagV::InvalidStringName(s@),
        CustomParseError::UnexpectedToken(s) => DiagV::UnexpectedToken(s@),
        CustomParseError::UnsupportedRelation(s) => DiagV::UnsupportedRelation(s@),
    }
}

/// The ghost views of a diagnostic list.
pub open spec fn diags_view(ds: Seq<CustomParseError>) -> Seq<DiagV> {
    ds.map_values(|d: CustomParseError| diag_view(d))
}

/// The ghost view of a value.
pub open spec fn value_view(v: crate::theme::Value) -> ValueV {
    match v {
        crate::theme::Value::UInt(x) => ValueV::UInt(x),
        crate::theme::Value::Float(x) => ValueV::Float(x),
        crate::theme::Value::Brush(b) => ValueV::Brush(b),
        crate::theme::Value::Str(s) => ValueV::Str(s@),
    }
}

/// The ghost view of a declaration.
pub open spec fn decl_view(d: crate::theme::Declaration) -> DeclV {
    DeclV { property: d.property@, value: value_view(d.value), important: d.important }
}

/// The ghost views of a declaration list.
pub open spec fn decls_view(ds: Seq<crate::theme::Declaration>) -> Seq<DeclV> {
    ds.map_values(|d: crate::theme::Declaration| decl_view(d))
}

/// The ghost view of an optional string.
pub open spec fn opt_view(o: Option<String>) -> Option<Seq<char>> {
    match o {
        None => None,
        Some(s) => Some(s@),
    }
}

/// The ghost view of the flat part of a selector.
pub open spec fn sel_flat_view(s: crate::selector::Selector) -> SelFlatV {
    SelFlatV {
        element: opt_view(s.element),
        id: opt_view(s.id),
        classes: s.classes@.map_values(|c: String| c@),
        pseudo_classes: s.pseudo_classes@.map_values(|c: String| c@),
    }
}

/// The ghost view of a selector: its flat part, and the kind and flat part
/// of its relation when one is stated.
pub open spec fn sel_view(s: crate::selector::Selector) -> SelV {
    SelV {
        flat: sel_flat_view(s),
        parent_rel: match s.relation {
            None => None,
            Some(b) => Some(
                (
                    *b is Parent,
                    sel_flat_view(crate::selector::relation_selector(*b)),
                ),
            ),
        },
    }
}

/// The ghost views of a selector list.
pub open spec fn sels_view(ss: Seq<crate::selector::Selector>) -> Seq<SelV> {
    ss.map_values(|s: crate::selector::Selector| sel_view(s))
}

/// The ghost view of a rule.
pub open spec fn rule_view(r: crate::theme::Rule) -> RuleV {
    RuleV { selectors: sels_view(r.selectors@), declarations: decls_view(r.declarations@) }
}

/// The ghost views of a rule list.
pub open spec fn rules_view(rs: Seq<crate::theme::Rule>) -> Seq<RuleV> {
    rs.map_values(|r: crate::theme::Rule| rule_view(r))
}

/// The value of a hexadecimal digit character, if it is one.
fn hex_digit_exec(c: char) -> (r: Option<u32>)
    ensures
        r is Some <==> hex_digit(c) is Some,
        r is Some ==> r->0 == hex_digit(c)->0 && r->0 <= 15,
{
    if '0' <= c && c <= '9' {
        Some((c as u32) - ('0' as u32))
    } else if 'a' <= c && c <= 'f' {
        Some((c as u32) - ('a' as u32) + 10)
    } else if 'A' <= c && c <= 'F' {
        Some((c as u32) - ('A' as u32) + 10)
    } else {
        None
    }
}

/// Reads the color a hash literal denotes, if the literal is well formed.
pub fn hex_color(s: &str) -> (r: Option<crate::structs::Color>)
    ensures
        r == spec_hex_color(s@),
{
    let cs = crate::text::str_chars(s);
    let n = cs.len();
    if n != 3 && n != 6 && n != 8 {
        // a malformed literal of hex digits is still invalid by length
        if !all_hex_exec(&cs) {
            return None;
        }
        return None;
    }
    if !all_hex_exec(&cs) {
        return None;
    }
    let mut acc: u64 = 0;
    let mut k: usize = 0;
    while k < n
        invariant
            k <= n,
            n == cs@.len(),
            n <= 8,
            all_hex(cs@),
            cs@ == s@,
            acc == hex_val(cs@.subrange(0, k as int)),
            acc < 0x1_0000_0000_0000u64,
        decreases n - k,
    {
        proof {
            assert(cs@.subrange(0, k + 1int).drop_last() =~= cs@.subrange(0, k as int));
            assert(cs@.subrange(0, k + 1int).last() == cs@[k as int]);
            assert(all_hex(cs@.subrange(0, k + 1int))) by {
                assert forall|j: int| 0 <= j < k + 1 implies hex_digit(
                    #[trigger] cs@.subrange(0, k + 1int)[j],
                ) is Some by {
                    assert(cs@.subrange(0, k + 1int)[j] == cs@[j]);
                }
            }
            lemma_hex_val_bound(cs@.subrange(0, k + 1int));
            assert(pow16(8) >= pow16(cs@.subrange(0, k + 1int).len())) by {
                lemma_pow16_mono(cs@.subrange(0, k + 1int).len(), 8);
            }
            assert(pow16(8) == 0x1_0000_0000) by {
                reveal_with_fuel(pow16, 9);
            }
        }
        let d = match hex_digit_exec(cs[k]) {
            Some(d) => d,
            None => vstd::pervasive::unreached(),
        };
        acc = acc * 16 + (d as u64);
        k = k + 1;
    }
    proof {
        assert(cs@.subrange(0, n as int) =~= cs@);
        lemma_hex_val_bound(cs@);
        assert(pow16(8) == 0x1_0000_0000 && pow16(6) == 0x100_0000 && pow16(3) == 0x1000) by {
            reveal_with_fuel(pow16, 9);
        }
    }
    if n == 6 {
        Some(crate::structs::Color { data: 0xFF00_0000u32 + (acc as u32) })
    } else if n == 3 {
        let d0 = match hex_digit_exec(cs[0]) {
            Some(d) => d,
            None => 0,
        };
        let d1 = match hex_digit_exec(cs[1]) {
            Some(d) => d,
            None => 0,
        };
        let d2 = match hex_digit_exec(cs[2]) {
            Some(d) => d,
            None => 0,
        };
        proof {
            assert(hex_val(Seq::<char>::empty()) == 0);
            assert(seq![cs@[0]].drop_last() =~= Seq::<char>::empty());
            assert(seq![cs@[1]].drop_last() =~= Seq::<char>::empty());
            assert(seq![cs@[2]].drop_last() =~= Seq::<char>::empty());
            assert(seq![cs@[0]].last() == cs@[0]);
            assert(seq![cs@[1]].last() == cs@[1]);
            assert(seq![cs@[2]].last() == cs@[2]);
            assert(hex_val(seq![cs@[0]]) == hex_val(seq![cs@[0]].drop_last()) * 16 + (
            match hex_digit(seq![cs@[0]].last()) {
                Some(d) => d,
                None => 0,
            }));
            assert(hex_val(seq![cs@[1]]) == hex_val(seq![cs@[1]].drop_last()) * 16 + (
            match hex_digit(seq![cs@[1]].last()) {
                Some(d) => d,
                None => 0,
            }));
            assert(hex_val(seq![cs@[2]]) == hex_val(seq![cs@[2]].drop_last()) * 16 + (
            match hex_digit(seq![cs@[2]].last()) {
                Some(d) => d,
                None => 0,
            }));
        }
        Some(
            crate::structs::Color {
                data: 0xFF00_0000u32 + d0 * 0x11_0000 + d1 * 0x1100 + d2 * 0x11,
            },
        )
    } else {
        Some(crate::structs::Color { data: acc as u32 })
    }
}

/// Sixteen to the given power.
pub open spec fn pow16(n: nat) -> int
    decreases n,
{
    if n == 0 {
        1
    } else {
        16 * pow16((n - 1) as nat)
    }
}

/// The value of a hexadecimal digit sequence is nonnegative and bounded by
/// sixteen to its length.
proof fn lemma_hex_val_bound(s: Seq<char>)
    requires
        all_hex(s),
    ensures
        0 <= hex_val(s) < pow16(s.len()),
    decreases s.len(),
{
    if s.len() == 0 {
    } else {
        assert(all_hex(s.drop_last())) by {
            assert forall|k: int| 0 <= k < s.drop_last().len() implies hex_digit(
                #[trigger] s.drop_last()[k],
            ) is Some by {
                assert(s.drop_last()[k] == s[k]);
            }
        }
        lemma_hex_val_bound(s.drop_last());
        assert(hex_digit(s.last()) is Some);
        assert(match hex_digit(s.last()) {
            Some(d) => 0 <= d <= 15,
            None => false,
        });
        assert(pow16(s.len()) == 16 * pow16((s.len() - 1) as nat));
    }
}

/// Sixteen to a power grows with the power.
proof fn lemma_pow16_mono(a: nat, b: nat)
    requires
        a <= b,
    ensures
        pow16(a) <= pow16(b),
        pow16(a) >= 1,
    decreases b,
{
    if a == b {
        lemma_pow16_pos(a);
    } else {
        lemma_pow16_mono(a, (b - 1) as nat);
    }
}

/// Sixteen to any power is positive.
proof fn lemma_pow16_pos(n: nat)
    ensures
        pow16(n) >= 1,
    decreases n,
{
    if n > 0 {
        lemma_pow16_pos((n - 1) as nat);
    }
}

/// Whether every character of the vector is a hexadecimal digit.
fn all_hex_exec(cs: &Vec<char>) -> (r: bool)
    ensures
        r == all_hex(cs@),
{
    let mut k: usize = 0;
    while k < cs.len()
        invariant
            k <= cs@.len(),
            forall|j: int| 0 <= j < k ==> hex_digit(#[trigger] cs@[j]) is Some,
        decreases cs@.len() - k,
    {
        match hex_digit_exec(cs[k]) {
            Some(_) => {},
            None => {
                return false;
            },
        }
        k = k + 1;
    }
    true
}

/// Maps a named CSS color to its brush; `transparent` included.
pub fn css_color(name: &str) -> (r: Option<crate::structs::Brush>)
    ensures
        r == spec_css_color(name@),
{
    if crate::text::str_eq(name, "transparent") {
        Some(crate::structs::Brush::SolidColor(crate::structs::Color { data: 0 }))
    } else if crate::text::str_eq(name, "black") {
        Some(crate::structs::Brush::SolidColor(crate::structs::Color { data: 0xFF00_0000 }))
    } else if crate::text::str_eq(name, "silver") {
        Some(crate::structs::Brush::SolidColor(crate::structs::Color { data: 0xFFC0_C0C0 }))
    } else if crate::text::str_eq(name, "gray") || crate::text::str_eq(name, "grey") {
        Some(crate::structs::Brush::SolidColor(crate::structs::Color { data: 0xFF80_8080 }))
    } else if crate::text::str_eq(name, "white") {
        Some(crate::structs::Brush::SolidColor(crate::structs::Color { data: 0xFFFF_FFFF }))
    } else if crate::text::str_eq(name, "maroon") {
        Some(crate::structs::Brush::SolidColor(crate::structs::Color { data: 0xFF80_0000 }))
    } else if crate::text::str_eq(name, "red") {
        Some(crate::structs::Brush::SolidColor(crate::structs::Color { data: 0xFFFF_0000 }))
    } else if crate::text::str_eq(name, "purple") {
        Some(crate::structs::Brush::SolidColor(crate::structs::Color { data: 0xFF80_0080 }))
    } else if crate::text::str_eq(name, "fuchsia") {
        Some(crate::structs::Brush::SolidColor(crate::structs::Color { data: 0xFFFF_00FF }))
    } else if crate::text::str_eq(name, "green") {
        Some(crate::structs::Brush::SolidColor(crate::structs::Color { data: 0xFF00_8000 }))
    } else if crate::text::str_eq(name, "lime") {
        Some(crate::structs::Brush::SolidColor(crate::structs::Color { data: 0xFF00_FF00 }))
    } else if crate::text::str_eq(name, "olive") {
        Some(crate::structs::Brush::SolidColor(crate::structs::Color { data: 0xFF80_8000 }))
    } else if crate::text::str_eq(name, "yellow") {
        Some(crate::structs::Brush::SolidColor(crate::structs::Color { data: 0xFFFF_FF00 }))
    } else if crate::text::str_eq(name, "navy") {
        Some(crate::structs::Brush::SolidColor(crate::structs::Color { data: 0xFF00_0080 }))
    } else if crate::text::str_eq(name, "blue") {
        Some(crate::structs::Brush::SolidColor(crate::structs::Color { data: 0xFF00_00FF }))
    } else if crate::text::str_eq(name, "teal") {
        Some(crate::structs::Brush::SolidColor(crate::structs::Color { data: 0xFF00_8080 }))
    } else if crate::text::str_eq(name, "aqua") {
        Some(crate::structs::Brush::SolidColor(crate::structs::Color { data: 0xFF00_FFFF }))
    } else {
        None
    }
}

/// Accepts a quoted string literal; every string is a valid name.
pub fn css_string(name: &str) -> (r: Option<String>)
    ensures
        r is Some,
        r->0@ == name@,
{
    Some(String::from_str(name))
}

/// Every character before the digit-run end is a digit.
proof fn lemma_digits_prefix(s: Seq<char>, k: int)
    requires
        0 <= k < digits_len(s),
    ensures
        digits_len(s) <= s.len(),
        is_digit(s[k]),
    decreases s.len(),
{
    if s.len() == 0 || !is_digit(s[0]) {
    } else {
        if k > 0 {
            lemma_digits_prefix(s.drop_first(), k - 1);
        } else {
            lemma_digits_len_bound(s.drop_first());
        }
    }
}

/// A digit run never runs past the end of the text.
proof fn lemma_digits_len_bound(s: Seq<char>)
    ensures
        digits_len(s) <= s.len(),
    decreases s.len(),
{
    if s.len() == 0 || !is_digit(s[0]) {
    } else {
        lemma_digits_len_bound(s.drop_first());
    }
}


/// Whether the property holds a brush value.
fn brush_prop(name: &str) -> (r: bool)
    ensures
        r == is_brush_prop(name@),
{
    crate::text::str_eq(name, "color") || crate::text::str_eq(name, "border-color")
        || crate::text::str_eq(name, "icon-color") || crate::text::str_eq(name, "background")
        || crate::text::str_eq(name, "foreground")
}

/// Whether the property holds a string value.
fn string_prop(name: &str) -> (r: bool)
    ensures
        r == is_string_prop(name@),
{
    crate::text::str_eq(name, "font-family") || crate::text::str_eq(name, "icon-font-family")
}

/// Whether the property holds an unsigned integer dimension.
fn uint_prop(name: &str) -> (r: bool)
    ensures
        r == is_uint_prop(name@),
{
    crate::text::str_eq(name, "border-radius") || crate::text::str_eq(name, "border-width")
        || crate::text::str_eq(name, "border-left") || crate::text::str_eq(name, "border-top")
        || crate::text::str_eq(name, "border-right") || crate::text::str_eq(name, "border-bottom")
        || crate::text::str_eq(name, "width") || crate::text::str_eq(name, "height")
        || crate::text::str_eq(name, "min-width") || crate::text::str_eq(name, "min-height")
        || crate::text::str_eq(name, "max-width") || crate::text::str_eq(name, "max-height")
        || crate::text::str_eq(name, "padding-top") || crate::text::str_eq(name, "padding-right")
        || crate::text::str_eq(name, "padding-bottom") || crate::text::str_eq(name, "padding-left")
        || crate::text::str_eq(name, "padding") || crate::text::str_eq(name, "font-size")
        || crate::text::str_eq(name, "icon-size") || crate::text::str_eq(name, "icon-margin")
}

/// Whether the property holds a fractional value.
fn float_prop(name: &str) -> (r: bool)
    ensures
        r == is_float_prop(name@),
{
    crate::text::str_eq(name, "opacity")
}

/// Reads the single value token of a declaration, by the property's kind.
fn parse_value_exec(name: &str, toks: &Vec<CssToken>, j: usize, end: usize) -> (r: Result<
    (crate::theme::Value, usize),
    CustomParseError,
>)
    requires
        end <= toks@.len(),
    ensures
        ({
            let sp = parse_value_v(name@, toks_view(toks@), j as int, end as int);
            match r {
                Ok((v, nj)) => sp is Ok && value_view(v) == sp->Ok_0.0 && nj == sp->Ok_0.1
                    && nj <= end,
                Err(d) => sp is Err && diag_view(d) == sp->Err_0,
            }
        }),
{
    if j >= end {
        return Err(CustomParseError::UnexpectedToken(String::from_str(name)));
    }
    proof {
        assert(toks_view(toks@)[j as int] == tok_view(toks@[j as int]));
    }
    if brush_prop(name) {
        match &toks[j] {
            CssToken::Ident(cname) => match css_color(cname.as_str()) {
                Some(b) => Ok((crate::theme::Value::Brush(b), j + 1)),
                None => Err(CustomParseError::InvalidColorName(cname.clone())),
            },
            CssToken::Hash(h) => match hex_color(h.as_str()) {
                Some(c) => Ok(
                    (crate::theme::Value::Brush(crate::structs::Brush::SolidColor(c)), j + 1),
                ),
                None => Err(CustomParseError::InvalidColorHex(h.clone())),
            },
            _ => Err(CustomParseError::UnexpectedToken(String::from_str(name))),
        }
    } else if string_prop(name) {
        match &toks[j] {
            CssToken::Quoted(sv) => match css_string(sv.as_str()) {
                Some(text) => Ok((crate::theme::Value::Str(text), j + 1)),
                None => Err(CustomParseError::InvalidStringName(sv.clone())),
            },
            _ => Err(CustomParseError::UnexpectedToken(String::from_str(name))),
        }
    } else if uint_prop(name) {
        match &toks[j] {
            CssToken::Number { int_part, milli: _, is_float } => if !*is_float {
                Ok((crate::theme::Value::UInt(*int_part), j + 1))
            } else {
                Err(CustomParseError::UnexpectedToken(String::from_str(name)))
            },
            _ => Err(CustomParseError::UnexpectedToken(String::from_str(name))),
        }
    } else if float_prop(name) {
        match &toks[j] {
            CssToken::Number { int_part, milli, is_float: _ } => {
                let v: u64 = (*int_part as u64) * 1000 + (*milli as u64);
                let sat: u32 = if v > 0xFFFF_FFFFu64 {
                    u32::MAX
                } else {
                    v as u32
                };
                Ok((crate::theme::Value::Float(sat), j + 1))
            },
            _ => Err(CustomParseError::UnexpectedToken(String::from_str(name))),
        }
    } else {
        Err(CustomParseError::UnexpectedToken(String::from_str(name)))
    }
}

/// Appending a declaration appends its view.
proof fn lemma_decls_view_push(ds: Seq<crate::theme::Declaration>, d: crate::theme::Declaration)
    ensures
        decls_view(ds.push(d)) == decls_view(ds) + seq![decl_view(d)],
{
    assert forall|k: int| 0 <= k < ds.push(d).len() implies #[trigger] decls_view(ds.push(d))[k]
        == (decls_view(ds) + seq![decl_view(d)])[k] by {
        if k < ds.len() {
            assert(ds.push(d)[k] == ds[k]);
        } else {
            assert(ds.push(d)[k] == d);
        }
    }
    assert(decls_view(ds.push(d)) =~= decls_view(ds) + seq![decl_view(d)]);
}

/// Reads the declarations between the braces of a rule.
fn parse_decl_block_exec(toks: &Vec<CssToken>, lo: usize, hi: usize) -> (r: Result<
    Vec<crate::theme::Declaration>,
    CustomParseError,
>)
    requires
        hi <= toks@.len(),
    ensures
        ({
            let sp = parse_decl_block(toks_view(toks@), lo as int, hi as int, Seq::empty());
            match r {
                Ok(ds) => sp is Ok && decls_view(ds@) == sp->Ok_0,
                Err(d) => sp is Err && diag_view(d) == sp->Err_0,
            }
        }),
{
    let ghost tv = toks_view(toks@);
    let mut acc: Vec<crate::theme::Declaration> = Vec::new();
    let mut i = lo;
    proof {
        assert(decls_view(acc@) =~= Seq::<DeclV>::empty());
    }
    while i < hi
        invariant
            hi <= toks@.len(),
            tv == toks_view(toks@),
            parse_decl_block(tv, lo as int, hi as int, Seq::empty()) == parse_decl_block(
                tv,
                i as int,
                hi as int,
                decls_view(acc@),
            ),
        decreases hi - i,
    {
        proof {
            assert(tv[i as int] == tok_view(toks@[i as int]));
        }
        match &toks[i] {
            CssToken::Semicolon => {
                assert(parse_decl_block(tv, i as int, hi as int, decls_view(acc@))
                    == parse_decl_block(tv, i + 1int, hi as int, decls_view(acc@)));
                i = i + 1;
            },
            CssToken::Ident(name_ref) => {
                let name = name_ref.clone();
                proof {
                    if i + 1 < hi {
                        assert(tv[i + 1int] == tok_view(toks@[i + 1int]));
                    }
                }
                if i + 1 < hi && matches!(&toks[i + 1], CssToken::Colon) {
                    match parse_value_exec(name.as_str(), toks, i + 2, hi) {
                        Err(d) => {
                            return Err(d);
                        },
                        Ok((value, j)) => {
                            if j >= hi {
                                let ghost prev = acc@;
                                let ghost dv = DeclV {
                                    property: name@,
                                    value: value_view(value),
                                    important: false,
                                };
                                acc.push(
                                    crate::theme::Declaration {
                                        property: name,
                                        value,
                                        important: false,
                                    },
                                );
                                proof {
                                    lemma_decls_view_push(prev, acc@[prev.len() as int]);
                                }
                                return Ok(acc);
                            }
                            proof {
                                assert(tv[j as int] == tok_view(toks@[j as int]));
                                if j + 1 < hi {
                                    assert(tv[j + 1int] == tok_view(toks@[j + 1int]));
                                }
                            }
                            let mut important = false;
                            let mut k = j;
                            if j + 1 < hi && matches!(&toks[j], CssToken::Delim('!')) {
                                if let CssToken::Ident(imp) = &toks[j + 1] {
                                    if crate::text::str_eq(imp.as_str(), "important") {
                                        important = true;
                                        k = j + 2;
                                    }
                                }
                            }
                            if k >= hi {
                                let ghost prev = acc@;
                                acc.push(
                                    crate::theme::Declaration { property: name, value, important },
                                );
                                proof {
                                    lemma_decls_view_push(prev, acc@[prev.len() as int]);
                                }
                                return Ok(acc);
                            }
                            proof {
                                assert(tv[k as int] == tok_view(toks@[k as int]));
                            }
                            if matches!(&toks[k], CssToken::Semicolon) {
                                let ghost prev = acc@;
                                let ghost iold = i as int;
                                acc.push(
                                    crate::theme::Declaration { property: name, value, important },
                                );
                                proof {
                                    lemma_decls_view_push(prev, acc@[prev.len() as int]);
                                    assert(decls_view(acc@) =~= decls_view(prev).push(
                                        decl_view(acc@[prev.len() as int]),
                                    ));
                                    assert(parse_decl_block(tv, iold, hi as int, decls_view(prev))
                                        == parse_decl_block(
                                        tv,
                                        k + 1int,
                                        hi as int,
                                        decls_view(acc@),
                                    ));
                                }
                                i = k + 1;
                            } else {
                                return Err(CustomParseError::UnexpectedToken(name));
                            }
                        },
                    }
                } else {
                    return Err(CustomParseError::UnexpectedToken(name));
                }
            },
            _ => {
                return Err(CustomParseError::UnexpectedToken(String::new()));
            },
        }
    }
    Ok(acc)
}


/// Appending a string appends its characters to the mapped view.
proof fn lemma_strs_map_push(ss: Seq<String>, x: String)
    ensures
        ss.push(x).map_values(|c: String| c@) == ss.map_values(|c: String| c@).push(x@),
{
    ss.lemma_push_map_commute(|c: String| c@, x);
    assert(ss.push(x).map_values(|c: String| c@) =~= ss.map_values(|c: String| c@).push(x@));
}

/// Appending a selector appends its view.
pub proof fn lemma_sels_view_push(ss: Seq<crate::selector::Selector>, x: crate::selector::Selector)
    ensures
        sels_view(ss.push(x)) == sels_view(ss).push(sel_view(x)),
{
    assert forall|k: int| 0 <= k < ss.push(x).len() implies #[trigger] sels_view(ss.push(x))[k]
        == sels_view(ss).push(sel_view(x))[k] by {
        if k < ss.len() {
            assert(ss.push(x)[k] == ss[k]);
        } else {
            assert(ss.push(x)[k] == x);
        }
    }
    assert(sels_view(ss.push(x)) =~= sels_view(ss).push(sel_view(x)));
}

/// Appending a diagnostic appends its view.
proof fn lemma_diags_view_push(ds: Seq<CustomParseError>, d: CustomParseError)
    ensures
        diags_view(ds.push(d)) == diags_view(ds).push(diag_view(d)),
{
    assert forall|k: int| 0 <= k < ds.push(d).len() implies #[trigger] diags_view(ds.push(d))[k]
        == diags_view(ds).push(diag_view(d))[k] by {
        if k < ds.len() {
            assert(ds.push(d)[k] == ds[k]);
        } else {
            assert(ds.push(d)[k] == d);
        }
    }
    assert(diags_view(ds.push(d)) =~= diags_view(ds).push(diag_view(d)));
}

/// A freshly made selector views as the empty selector.
proof fn lemma_sel_view_new(s: crate::selector::Selector)
    requires
        s.element is None,
        s.id is None,
        s.classes@ =~= Seq::<String>::empty(),
        s.pseudo_classes@ =~= Seq::<String>::empty(),
        s.relation is None,
    ensures
        sel_view(s) == empty_selv(),
{
    assert(sel_flat_view(s).classes =~= Seq::<Seq<char>>::empty());
    assert(sel_flat_view(s).pseudo_classes =~= Seq::<Seq<char>>::empty());
}

/// Reads the selector list before the brace of a rule.
#[verifier::rlimit(30)]
fn parse_selector_list_exec(toks: &Vec<CssToken>, lo: usize, hi: usize) -> (r: Result<
    (Vec<crate::selector::Selector>, Vec<CustomParseError>),
    CustomParseError,
>)
    requires
        hi <= toks@.len(),
    ensures
        ({
            let sp = parse_selector_list(
                toks_view(toks@),
                lo as int,
                hi as int,
                empty_selv(),
                true,
                Seq::empty(),
                Seq::empty(),
            );
            match r {
                Ok((sels, ds)) => sp is Ok && sels_view(sels@) == sp->Ok_0.0 && diags_view(ds@)
                    == sp->Ok_0.1,
                Err(d) => sp is Err && diag_view(d) == sp->Err_0,
            }
        }),
{
    let ghost tv = toks_view(toks@);
    let mut cur = crate::selector::Selector::new();
    let mut first = true;
    let mut out: Vec<crate::selector::Selector> = Vec::new();
    let mut diags: Vec<CustomParseError> = Vec::new();
    let mut i = lo;
    proof {
        lemma_sel_view_new(cur);
        assert(sels_view(out@) =~= Seq::<SelV>::empty());
        assert(diags_view(diags@) =~= Seq::<DiagV>::empty());
    }
    while i < hi
        invariant
            hi <= toks@.len(),
            tv == toks_view(toks@),
            parse_selector_list(
                tv,
                lo as int,
                hi as int,
                empty_selv(),
                true,
                Seq::empty(),
                Seq::empty(),
            ) == parse_selector_list(
                tv,
                i as int,
                hi as int,
                sel_view(cur),
                first,
                sels_view(out@),
                diags_view(diags@),
            ),
        decreases hi - i,
    {
        proof {
            assert(tv[i as int] == tok_view(toks@[i as int]));
        }
        match &toks[i] {
            CssToken::Ident(name_ref) => {
                let name = name_ref.clone();
                if first {
                    let ghost before = sel_view(cur);
                    cur.element = Some(name);
                    proof {
                        assert(sel_view(cur) == SelV {
                            flat: SelFlatV { element: Some(tv[i as int]->Ident_0), ..before.flat },
                            ..before
                        });
                    }
                    first = false;
                    i = i + 1;
                } else {
                    let ghost before = sel_view(cur);
                    let had_rel = cur.relation.is_some();
                    if had_rel {
                        let ghost dprev = diags@;
                        diags.push(CustomParseError::UnsupportedRelation(name.clone()));
                        proof {
                            lemma_diags_view_push(dprev, diags@[dprev.len() as int]);
                        }
                    }
                    let crate::selector::Selector { element, id, classes, pseudo_classes, relation: _ } = cur;
                    let inner = crate::selector::Selector {
                        element,
                        id,
                        classes,
                        pseudo_classes,
                        relation: None,
                    };
                    proof {
                        assert(sel_flat_view(inner) == before.flat);
                    }
                    cur = crate::selector::Selector {
                        element: Some(name),
                        id: None,
                        classes: Vec::new(),
                        pseudo_classes: Vec::new(),
                        relation: Some(
                            Box::new(crate::selector::SelectorRelation::Ancestor(inner)),
                        ),
                    };
                    proof {
                        assert(sel_flat_view(cur).classes =~= Seq::<Seq<char>>::empty());
                        assert(sel_flat_view(cur).pseudo_classes =~= Seq::<Seq<char>>::empty());
                        assert(sel_view(cur) == SelV {
                            flat: SelFlatV {
                                element: Some(tv[i as int]->Ident_0),
                                ..empty_flat()
                            },
                            parent_rel: Some((false, before.flat)),
                        });
                    }
                    first = false;
                    i = i + 1;
                }
            },
            CssToken::Hash(id_ref) => {
                let ghost before = sel_view(cur);
                cur.id = Some(id_ref.clone());
                proof {
                    assert(sel_view(cur) == SelV {
                        flat: SelFlatV { id: Some(tv[i as int]->Hash_0), ..before.flat },
                        ..before
                    });
                }
                first = false;
                i = i + 1;
            },
            CssToken::Colon => {
                if i + 1 < hi {
                    proof {
                        assert(tv[i + 1int] == tok_view(toks@[i + 1int]));
                    }
                    match &toks[i + 1] {
                        CssToken::Ident(n) => {
                            let ghost before = sel_view(cur);
                            let ghost pcs = cur.pseudo_classes@;
                            cur.pseudo_classes.push(n.clone());
                            proof {
                                lemma_strs_map_push(pcs, cur.pseudo_classes@[pcs.len() as int]);
                                assert(sel_view(cur) == SelV {
                                    flat: SelFlatV {
                                        pseudo_classes: before.flat.pseudo_classes.push(
                                            tv[i + 1int]->Ident_0,
                                        ),
                                        ..before.flat
                                    },
                                    ..before
                                });
                            }
                            first = false;
                            i = i + 2;
                        },
                        _ => {
                            return Err(CustomParseError::UnexpectedToken(String::new()));
                        },
                    }
                } else {
                    return Err(CustomParseError::UnexpectedToken(String::new()));
                }
            },
            CssToken::Comma => {
                let ghost oprev = out@;
                out.push(cur);
                proof {
                    lemma_sels_view_push(oprev, out@[oprev.len() as int]);
                }
                cur = crate::selector::Selector::new();
                proof {
                    lemma_sel_view_new(cur);
                }
                first = true;
                i = i + 1;
            },
            CssToken::Delim(dch) => {
                let d = *dch;
                if d == '>' {
                    if i + 1 < hi {
                        proof {
                            assert(tv[i + 1int] == tok_view(toks@[i + 1int]));
                        }
                        match &toks[i + 1] {
                            CssToken::Ident(n) => {
                                let name = n.clone();
                                let ghost before = sel_view(cur);
                                let had_rel = cur.relation.is_some();
                                if had_rel {
                                    let ghost dprev = diags@;
                                    diags.push(
                                        CustomParseError::UnsupportedRelation(name.clone()),
                                    );
                                    proof {
                                        lemma_diags_view_push(dprev, diags@[dprev.len() as int]);
                                    }
                                }
                                let crate::selector::Selector {
                                    element,
                                    id,
                                    classes,
                                    pseudo_classes,
                                    relation: _,
                                } = cur;
                                let inner = crate::selector::Selector {
                                    element,
                                    id,
                                    classes,
                                    pseudo_classes,
                                    relation: None,
                                };
                                proof {
                                    assert(sel_flat_view(inner) == before.flat);
                                }
                                cur = crate::selector::Selector {
                                    element: Some(name),
                                    id: None,
                                    classes: Vec::new(),
                                    pseudo_classes: Vec::new(),
                                    relation: Some(
                                        Box::new(
                                            crate::selector::SelectorRelation::Parent(inner),
                                        ),
                                    ),
                                };
                                proof {
                                    assert(sel_flat_view(cur).classes =~= Seq::<
                                        Seq<char>,
                                    >::empty());
                                    assert(sel_flat_view(cur).pseudo_classes =~= Seq::<
                                        Seq<char>,
                                    >::empty());
                                    assert(sel_view(cur) == SelV {
                                        flat: SelFlatV {
                                            element: Some(tv[i + 1int]->Ident_0),
                                            ..empty_flat()
                                        },
                                        parent_rel: Some((true, before.flat)),
                                    });
                                }
                                first = false;
                                i = i + 2;
                            },
                            _ => {
                                return Err(CustomParseError::UnexpectedToken(String::new()));
                            },
                        }
                    } else {
                        return Err(CustomParseError::UnexpectedToken(String::new()));
                    }
                } else if d == '*' {
                    first = false;
                    i = i + 1;
                } else if d == '.' {
                    if i + 1 < hi {
                        proof {
                            assert(tv[i + 1int] == tok_view(toks@[i + 1int]));
                        }
                        match &toks[i + 1] {
                            CssToken::Ident(n) => {
                                let ghost before = sel_view(cur);
                                let ghost ccs = cur.classes@;
                                cur.classes.push(n.clone());
                                proof {
                                    lemma_strs_map_push(ccs, cur.classes@[ccs.len() as int]);
                                    assert(sel_view(cur) == SelV {
                                        flat: SelFlatV {
                                            classes: before.flat.classes.push(
                                                tv[i + 1int]->Ident_0,
                                            ),
                                            ..before.flat
                                        },
                                        ..before
                                    });
                                }
                                first = false;
                                i = i + 2;
                            },
                            _ => {
                                return Err(CustomParseError::UnexpectedToken(String::new()));
                            },
                        }
                    } else {
                        return Err(CustomParseError::UnexpectedToken(String::new()));
                    }
                } else {
                    return Err(CustomParseError::UnexpectedToken(String::new()));
                }
            },
            _ => {
                return Err(CustomParseError::UnexpectedToken(String::new()));
            },
        }
    }
    let ghost oprev = out@;
    out.push(cur);
    proof {
        lemma_sels_view_push(oprev, out@[oprev.len() as int]);
    }
    Ok((out, diags))
}


/// Finds the next opening brace at or after `i`.
fn scan_open(toks: &Vec<CssToken>, i: usize) -> (se: usize)
    requires
        i <= toks@.len(),
    ensures
        i <= se <= toks@.len(),
        se - i == brace_dist(toks_view(toks@), i as int),
{
    let ghost tv = toks_view(toks@);
    let n = toks.len();
    let mut j = i;
    while j < n && !matches!(&toks[j], CssToken::OpenBrace)
        invariant
            i <= j <= n,
            n == toks@.len(),
            tv == toks_view(toks@),
            brace_dist(tv, i as int) == (j - i) + brace_dist(tv, j as int),
        decreases n - j,
    {
        proof {
            assert(tv[j as int] == tok_view(toks@[j as int]));
        }
        j = j + 1;
    }
    proof {
        if j < n {
            assert(tv[j as int] == tok_view(toks@[j as int]));
            assert(brace_dist(tv, j as int) == 0);
        }
    }
    j
}

/// Finds the next closing brace at or after `i`.
fn scan_close(toks: &Vec<CssToken>, i: usize) -> (be: usize)
    requires
        i <= toks@.len(),
    ensures
        i <= be <= toks@.len(),
        be - i == close_dist(toks_view(toks@), i as int),
{
    let ghost tv = toks_view(toks@);
    let n = toks.len();
    let mut j = i;
    while j < n && !matches!(&toks[j], CssToken::CloseBrace)
        invariant
            i <= j <= n,
            n == toks@.len(),
            tv == toks_view(toks@),
            close_dist(tv, i as int) == (j - i) + close_dist(tv, j as int),
        decreases n - j,
    {
        proof {
            assert(tv[j as int] == tok_view(toks@[j as int]));
        }
        j = j + 1;
    }
    proof {
        if j < n {
            assert(tv[j as int] == tok_view(toks@[j as int]));
            assert(close_dist(tv, j as int) == 0);
        }
    }
    j
}

/// Appending a rule appends its view.
pub proof fn lemma_rules_view_push(rs: Seq<crate::theme::Rule>, r: crate::theme::Rule)
    ensures
        rules_view(rs.push(r)) == rules_view(rs).push(rule_view(r)),
{
    rs.lemma_push_map_commute(|x: crate::theme::Rule| rule_view(x), r);
    assert(rules_view(rs.push(r)) =~= rules_view(rs).push(rule_view(r)));
}

/// Concatenating diagnostic lists concatenates their views.
proof fn lemma_diags_view_concat(a: Seq<CustomParseError>, b: Seq<CustomParseError>)
    ensures
        diags_view(a + b) == diags_view(a) + diags_view(b),
{
    assert forall|k: int| 0 <= k < (a + b).len() implies #[trigger] diags_view(a + b)[k] == (
    diags_view(a) + diags_view(b))[k] by {
        if k < a.len() {
            assert((a + b)[k] == a[k]);
        } else {
            assert((a + b)[k] == b[k - a.len()]);
        }
    }
    assert(diags_view(a + b) =~= diags_view(a) + diags_view(b));
}

/// The stateless parser of the rule grammar.
pub struct RuleParser;

impl RuleParser {
    /// A fresh rule parser.
    pub fn new() -> (r: RuleParser)
    {
        RuleParser {  }
    }

    /// Reads every rule of the token stream, dropping each malformed rule
    /// with a diagnostic.
    #[verifier::rlimit(30)]
    pub fn parse_rules(&self, toks: &Vec<CssToken>) -> (r: (
        Vec<crate::theme::Rule>,
        Vec<CustomParseError>,
    ))
        ensures
            rules_view(r.0@) == parse_rules_v(toks_view(toks@), 0).0,
            diags_view(r.1@) == parse_rules_v(toks_view(toks@), 0).1,
    {
        let ghost tv = toks_view(toks@);
        let n = toks.len();
        let mut rules: Vec<crate::theme::Rule> = Vec::new();
        let mut diags: Vec<CustomParseError> = Vec::new();
        let mut i: usize = 0;
        proof {
            assert(rules_view(rules@) =~= Seq::<RuleV>::empty());
            assert(diags_view(diags@) =~= Seq::<DiagV>::empty());
        }
        while i < n
            invariant
                i <= n,
                n == toks@.len(),
                tv == toks_view(toks@),
                parse_rules_v(tv, 0).0 =~= rules_view(rules@) + parse_rules_v(tv, i as int).0,
                parse_rules_v(tv, 0).1 =~= diags_view(diags@) + parse_rules_v(tv, i as int).1,
            decreases n - i,
        {
            let se = scan_open(toks, i);
            if se >= n {
                let ghost dprev = diags@;
                diags.push(CustomParseError::UnexpectedToken(String::new()));
                proof {
                    lemma_diags_view_push(dprev, diags@[dprev.len() as int]);
                    assert(parse_rules_v(tv, i as int).1 =~= seq![
                        DiagV::UnexpectedToken(Seq::<char>::empty()),
                    ]);
                    assert(parse_rules_v(tv, n as int).0 =~= Seq::<RuleV>::empty());
                    assert(parse_rules_v(tv, n as int).1 =~= Seq::<DiagV>::empty());
                    assert(parse_rules_v(tv, 0).0 =~= rules_view(rules@) + parse_rules_v(
                        tv,
                        n as int,
                    ).0);
                    assert(parse_rules_v(tv, 0).1 =~= diags_view(diags@) + parse_rules_v(
                        tv,
                        n as int,
                    ).1);
                }
                i = n;
            } else {
                let be = scan_close(toks, se + 1);
                let next = if be < n {
                    be + 1
                } else {
                    n
                };
                match parse_selector_list_exec(toks, i, se) {
                    Err(d) => {
                        let ghost dprev = diags@;
                        diags.push(d);
                        proof {
                            lemma_diags_view_push(dprev, diags@[dprev.len() as int]);
                            assert(diags_view(diags@) + parse_rules_v(tv, next as int).1
                                =~= diags_view(dprev) + parse_rules_v(tv, i as int).1);
                        }
                        i = next;
                    },
                    Ok((sels, mut sdiags)) => {
                        let ghost sdv = diags_view(sdiags@);
                        match parse_decl_block_exec(toks, se + 1, be) {
                            Err(d) => {
                                let ghost dprev = diags@;
                                diags.append(&mut sdiags);
                                let ghost dmid = diags@;
                                diags.push(d);
                                proof {
                                    lemma_diags_view_concat(dprev, dmid.subrange(
                                        dprev.len() as int,
                                        dmid.len() as int,
                                    ));
                                    assert(dmid.subrange(dprev.len() as int, dmid.len() as int)
                                        =~= dmid.skip(dprev.len() as int));
                                    lemma_diags_view_push(dmid, diags@[dmid.len() as int]);
                                    assert(diags_view(diags@) =~= diags_view(dprev) + sdv + seq![
                                        diag_view(diags@[dmid.len() as int]),
                                    ]);
                                    assert(diags_view(diags@) + parse_rules_v(tv, next as int).1
                                        =~= diags_view(dprev) + parse_rules_v(tv, i as int).1);
                                }
                                i = next;
                            },
                            Ok(decls) => {
                                let ghost rprev = rules@;
                                let ghost dprev = diags@;
                                rules.push(
                                    crate::theme::Rule { selectors: sels, declarations: decls },
                                );
                                diags.append(&mut sdiags);
                                proof {
                                    lemma_rules_view_push(rprev, rules@[rprev.len() as int]);
                                    lemma_diags_view_concat(dprev, diags@.subrange(
                                        dprev.len() as int,
                                        diags@.len() as int,
                                    ));
                                    assert(diags@.subrange(dprev.len() as int, diags@.len() as int)
                                        =~= diags@.skip(dprev.len() as int));
                                    assert(rules_view(rules@) + parse_rules_v(tv, next as int).0
                                        =~= rules_view(rprev) + parse_rules_v(tv, i as int).0);
                                    assert(diags_view(diags@) + parse_rules_v(tv, next as int).1
                                        =~= diags_view(dprev) + parse_rules_v(tv, i as int).1);
                                }
                                i = next;
                            },
                        }
                    },
                }
            }
        }
        proof {
            assert(parse_rules_v(tv, n as int).0 =~= Seq::<RuleV>::empty());
            assert(parse_rules_v(tv, n as int).1 =~= Seq::<DiagV>::empty());
            assert(rules_view(rules@) =~= rules_view(rules@) + parse_rules_v(tv, n as int).0);
            assert(diags_view(diags@) =~= diags_view(diags@) + parse_rules_v(tv, n as int).1);
        }
        (rules, diags)
    }
}

/// Parses theme source text into its rules, reporting a diagnostic for each
/// malformed rule that was dropped.
pub fn parse_with_diagnostics(s: &str) -> (r: (Vec<crate::theme::Rule>, Vec<CustomParseError>))
    ensures
        rules_view(r.0@) == parse_rules_v(spec_tokenize(s@), 0).0,
        diags_view(r.1@) == parse_rules_v(spec_tokenize(s@), 0).1,
{
    let cs = crate::text::str_chars(s);
    let toks = tokenize(&cs);
    let parser = RuleParser::new();
    parser.parse_rules(&toks)
}

/// Parses theme source text into its rules, dropping each malformed rule.
pub fn parse(s: &str) -> (r: Vec<crate::theme::Rule>)
    ensures
        rules_view(r@) == parse_rules_v(spec_tokenize(s@), 0).0,
{
    let (rules, _diags) = parse_with_diagnostics(s);
    rules
}


/// Two selectors equal character for character have the same ghost view.
pub proof fn lemma_sel_deep_eq_view(a: crate::selector::Selector, b: crate::selector::Selector)
    requires
        crate::selector::sel_deep_eq(a, b),
    ensures
        sel_view(a) == sel_view(b),
{
    lemma_flat_eq_view(a, b);
    match (a.relation, b.relation) {
        (Option::None, Option::None) => {},
        (Option::Some(x), Option::Some(y)) => {
            assert(crate::selector::sel_deep_eq(
                crate::selector::relation_selector(*x),
                crate::selector::relation_selector(*y),
            ));
            lemma_flat_eq_view(
                crate::selector::relation_selector(*x),
                crate::selector::relation_selector(*y),
            );
        },
        _ => {
            assert(false);
        },
    }
}

/// The flat view agrees wherever the flat fields agree by characters.
proof fn lemma_flat_eq_view(a: crate::selector::Selector, b: crate::selector::Selector)
    requires
        crate::selector::opt_chars_eq(a.element, b.element),
        crate::selector::opt_chars_eq(a.id, b.id),
        crate::selector::strs_eq(a.classes@, b.classes@),
        crate::selector::strs_eq(a.pseudo_classes@, b.pseudo_classes@),
    ensures
        sel_flat_view(a) == sel_flat_view(b),
{
    assert(a.classes@.map_values(|c: String| c@) =~= b.classes@.map_values(|c: String| c@));
    assert(a.pseudo_classes@.map_values(|c: String| c@) =~= b.pseudo_classes@.map_values(
        |c: String| c@,
    ));
}

} // verus!
