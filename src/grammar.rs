//! The language accepted by the parser, stated over sequences of characters.
//!
//! Each recognizer takes the unread input and gives either the parsed value
//! together with the input that follows it, or the error that parsing stops
//! with.
use vstd::prelude::*;
use crate::css::{
    Color, DeclarationView, NumberView, RuleView, SelectorView, SimpleSelectorView, StyleSheetView,
    Unit, ValueView,
};
use crate::errors::CssParseError;
use crate::text::{is_digit, is_ident_char, is_space, lemma_run_len, run_len, CharClass};

verus! {

/// The input after a run of whitespace.
pub open spec fn after_space(s: Seq<char>) -> Seq<char> {
    s.skip(run_len(s, CharClass::Space) as int)
}

/// The input after the character `c`, which must come next.
pub open spec fn expect(s: Seq<char>, c: char) -> Result<Seq<char>, CssParseError> {
    if s.len() == 0 {
        Err(CssParseError::UnexpectedEOF)
    } else if s[0] == c {
        Ok(s.drop_first())
    } else {
        Err(CssParseError::UnexpectedToken(s[0]))
    }
}

/// A non-empty maximal run of identifier characters.
pub open spec fn identifier(s: Seq<char>) -> Result<(Seq<char>, Seq<char>), CssParseError> {
    let n = run_len(s, CharClass::Ident) as int;
    if n == 0 {
        Err(CssParseError::InvalidValue)
    } else {
        Ok((s.take(n), s.skip(n)))
    }
}

pub proof fn lemma_identifier(s: Seq<char>)
    ensures
        identifier(s) matches Ok((name, rest)) ==> {
            &&& name.len() > 0
            &&& name + rest == s
            &&& rest.len() < s.len()
        },
{
    lemma_run_len(s, CharClass::Ident);
    if let Ok((name, rest)) = identifier(s) {
        assert(name + rest =~= s);
    }
}

pub proof fn lemma_after_space(s: Seq<char>)
    ensures
        after_space(s).len() <= s.len(),
        after_space(s).len() > 0 ==> !is_space(after_space(s)[0]),
{
    lemma_run_len(s, CharClass::Space);
}

pub open spec fn empty_selector() -> SimpleSelectorView {
    SimpleSelectorView { tag_name: None, id: None, class: Seq::empty() }
}

/// The fragments of a simple selector, added to `acc`: `#id` sets the id,
/// `.name` adds a class, `*` adds nothing, an identifier sets the tag name;
/// any other character ends the selector.
pub open spec fn simple_selector_from(acc: SimpleSelectorView, s: Seq<char>) -> Result<
    (SimpleSelectorView, Seq<char>),
    CssParseError,
>
    decreases s.len(),
{
    if s.len() == 0 {
        Ok((acc, s))
    } else if s[0] == '#' || s[0] == '.' {
        match identifier(s.drop_first()) {
            Err(e) => Err(e),
            Ok((name, rest)) => {
                proof {
                    lemma_identifier(s.drop_first());
                }
                let next = if s[0] == '#' {
                    SimpleSelectorView { tag_name: acc.tag_name, id: Some(name), class: acc.class }
                } else {
                    SimpleSelectorView {
                        tag_name: acc.tag_name,
                        id: acc.id,
                        class: acc.class.push(name),
                    }
                };
                simple_selector_from(next, rest)
            },
        }
    } else if s[0] == '*' {
        simple_selector_from(acc, s.drop_first())
    } else if is_ident_char(s[0]) {
        match identifier(s) {
            Err(e) => Err(e),
            Ok((name, rest)) => {
                proof {
                    lemma_identifier(s);
                }
                simple_selector_from(
                    SimpleSelectorView { tag_name: Some(name), id: acc.id, class: acc.class },
                    rest,
                )
            },
        }
    } else {
        Ok((acc, s))
    }
}

pub open spec fn simple_selector(s: Seq<char>) -> Result<
    (SimpleSelectorView, Seq<char>),
    CssParseError,
> {
    simple_selector_from(empty_selector(), s)
}

pub proof fn lemma_simple_selector_from(acc: SimpleSelectorView, s: Seq<char>)
    ensures
        simple_selector_from(acc, s) matches Ok((_, rest)) ==> rest.len() <= s.len(),
    decreases s.len(),
{
    if s.len() > 0 {
        if s[0] == '#' || s[0] == '.' {
            lemma_identifier(s.drop_first());
            if let Ok((name, rest)) = identifier(s.drop_first()) {
                let next = if s[0] == '#' {
                    SimpleSelectorView { tag_name: acc.tag_name, id: Some(name), class: acc.class }
                } else {
                    SimpleSelectorView {
                        tag_name: acc.tag_name,
                        id: acc.id,
                        class: acc.class.push(name),
                    }
                };
                lemma_simple_selector_from(next, rest);
            }
        } else if s[0] == '*' {
            lemma_simple_selector_from(acc, s.drop_first());
        } else if is_ident_char(s[0]) {
            lemma_identifier(s);
            if let Ok((name, rest)) = identifier(s) {
                lemma_simple_selector_from(
                    SimpleSelectorView { tag_name: Some(name), id: acc.id, class: acc.class },
                    rest,
                );
            }
        }
    }
}

/// A comma-separated list of simple selectors, added to `acc`, ending before
/// the `{` that opens the declaration block.
pub open spec fn selectors_from(acc: Seq<SelectorView>, s: Seq<char>) -> Result<
    (Seq<SelectorView>, Seq<char>),
    CssParseError,
>
    decreases s.len(),
{
    match simple_selector(s) {
        Err(e) => Err(e),
        Ok((sel, r1)) => {
            let acc2 = acc.push(SelectorView::Simple(sel));
            let r2 = after_space(r1);
            if r2.len() == 0 {
                Err(CssParseError::UnexpectedEOF)
            } else if r2[0] == ',' {
                proof {
                    lemma_simple_selector_from(empty_selector(), s);
                    lemma_after_space(r1);
                    lemma_after_space(r2.drop_first());
                }
                selectors_from(acc2, after_space(r2.drop_first()))
            } else if r2[0] == '{' {
                Ok((acc2, r2))
            } else {
                Err(CssParseError::InvalidSelector)
            }
        },
    }
}

pub open spec fn selectors(s: Seq<char>) -> Result<(Seq<SelectorView>, Seq<char>), CssParseError> {
    selectors_from(Seq::empty(), s)
}

pub open spec fn no_dot(t: Seq<char>) -> bool {
    forall|i: int| 0 <= i < t.len() ==> t[i] != '.'
}

/// The magnitude that a run of digits and dots denotes: at most one decimal
/// point and at least one digit.
pub open spec fn number_of(t: Seq<char>) -> Option<NumberView> {
    if exists|i: int| 0 <= i < t.len() && t[i] == '.' {
        let i = choose|i: int| 0 <= i < t.len() && t[i] == '.';
        let n = NumberView { integer: t.take(i), fraction: t.skip(i + 1) };
        if no_dot(n.integer) && no_dot(n.fraction) && t.len() > 1 {
            Some(n)
        } else {
            None
        }
    } else if t.len() > 0 {
        Some(NumberView { integer: t, fraction: Seq::empty() })
    } else {
        None
    }
}

/// `c` is the lower-case ASCII letter `l` in either case.
pub open spec fn same_letter(c: char, l: char) -> bool {
    c == l || c as u32 + 32 == l as u32
}

/// `name` spells the lower-case word `w`, ignoring ASCII case.
pub open spec fn spells(name: Seq<char>, w: Seq<char>) -> bool {
    name.len() == w.len() && forall|i: int| 0 <= i < w.len() ==> same_letter(name[i], w[i])
}

pub open spec fn unit_named(name: Seq<char>) -> Option<Unit> {
    if spells(name, seq!['p', 'x']) {
        Some(Unit::Px)
    } else if spells(name, seq!['e', 'm']) {
        Some(Unit::Em)
    } else if spells(name, seq!['r', 'e', 'm']) {
        Some(Unit::Rem)
    } else {
        None
    }
}

pub open spec fn unit(s: Seq<char>) -> Result<(Unit, Seq<char>), CssParseError> {
    match identifier(s) {
        Err(e) => Err(e),
        Ok((name, rest)) => match unit_named(name) {
            Some(u) => Ok((u, rest)),
            None => Err(CssParseError::InvalidUnit),
        },
    }
}

pub open spec fn length(s: Seq<char>) -> Result<(ValueView, Seq<char>), CssParseError> {
    let n = run_len(s, CharClass::Number) as int;
    match number_of(s.take(n)) {
        None => Err(CssParseError::InvalidValue),
        Some(num) => match unit(s.skip(n)) {
            Err(e) => Err(e),
            Ok((u, rest)) => Ok((ValueView::Length(num, u), rest)),
        },
    }
}

pub open spec fn hex_value(c: char) -> int {
    if is_digit(c) {
        c as u32 - '0' as u32
    } else if 'a' as u32 <= c as u32 <= 'f' as u32 {
        c as u32 - 'a' as u32 + 10
    } else {
        c as u32 - 'A' as u32 + 10
    }
}

/// The byte written as the two hex digits `hi` and `lo`.
pub open spec fn hex_byte(hi: char, lo: char) -> u8 {
    (hex_value(hi) * 16 + hex_value(lo)) as u8
}

/// `#` and exactly six hex digits: red, green and blue, fully opaque.
pub open spec fn color(s: Seq<char>) -> Result<(ValueView, Seq<char>), CssParseError> {
    match expect(s, '#') {
        Err(e) => Err(e),
        Ok(t) => {
            let n = run_len(t, CharClass::Hex) as int;
            if n != 6 {
                Err(CssParseError::InvalidColor)
            } else {
                let c = Color {
                    r: hex_byte(t[0], t[1]),
                    g: hex_byte(t[2], t[3]),
                    b: hex_byte(t[4], t[5]),
                    a: 255,
                };
                Ok((ValueView::ColorValue(c), t.skip(6)))
            }
        },
    }
}

/// A length when a digit comes next, a color on `#`, else a keyword.
pub open spec fn value(s: Seq<char>) -> Result<(ValueView, Seq<char>), CssParseError> {
    if s.len() == 0 {
        Err(CssParseError::UnexpectedEOF)
    } else if is_digit(s[0]) {
        length(s)
    } else if s[0] == '#' {
        color(s)
    } else {
        match identifier(s) {
            Err(e) => Err(e),
            Ok((k, rest)) => Ok((ValueView::Keyword(k), rest)),
        }
    }
}

/// `name : value`.
pub open spec fn declaration(s: Seq<char>) -> Result<(DeclarationView, Seq<char>), CssParseError> {
    match identifier(s) {
        Err(e) => Err(e),
        Ok((name, r1)) => match expect(after_space(r1), ':') {
            Err(e) => Err(e),
            Ok(r2) => match value(after_space(r2)) {
                Err(e) => Err(e),
                Ok((v, r3)) => Ok((DeclarationView { name, value: v }, r3)),
            },
        },
    }
}

pub proof fn lemma_declaration(s: Seq<char>)
    ensures
        declaration(s) matches Ok((_, rest)) ==> rest.len() < s.len(),
{
    lemma_identifier(s);
    if let Ok((name, r1)) = identifier(s) {
        lemma_after_space(r1);
        if let Ok(r2) = expect(after_space(r1), ':') {
            let r = after_space(r2);
            lemma_after_space(r2);
            lemma_run_len(r, CharClass::Number);
            lemma_run_len(r.drop_first(), CharClass::Hex);
            if r.len() > 0 && is_digit(r[0]) {
                lemma_identifier(r.skip(run_len(r, CharClass::Number) as int));
            } else if r.len() > 0 && r[0] != '#' {
                lemma_identifier(r);
            }
        }
    }
}

/// Declarations, each followed by `;`, added to `acc`, up to the closing `}`.
pub open spec fn declarations_from(acc: Seq<DeclarationView>, s: Seq<char>) -> Result<
    (Seq<DeclarationView>, Seq<char>),
    CssParseError,
>
    decreases s.len(),
{
    let r = after_space(s);
    if r.len() == 0 {
        Err(CssParseError::UnexpectedEOF)
    } else if r[0] == '}' {
        Ok((acc, r))
    } else {
        match declaration(r) {
            Err(e) => Err(e),
            Ok((d, r1)) => match expect(after_space(r1), ';') {
                Err(e) => Err(e),
                Ok(r2) => {
                    proof {
                        lemma_after_space(s);
                        lemma_declaration(r);
                        lemma_after_space(r1);
                    }
                    declarations_from(acc.push(d), r2)
                },
            },
        }
    }
}

pub open spec fn declarations(s: Seq<char>) -> Result<
    (Seq<DeclarationView>, Seq<char>),
    CssParseError,
> {
    declarations_from(Seq::empty(), s)
}

/// A selector list, `{`, declarations, `}`.
pub open spec fn rule(s: Seq<char>) -> Result<(RuleView, Seq<char>), CssParseError> {
    match selectors(s) {
        Err(e) => Err(e),
        Ok((sels, r1)) => match expect(after_space(r1), '{') {
            Err(e) => Err(e),
            Ok(r2) => match declarations(r2) {
                Err(e) => Err(e),
                Ok((decls, r3)) => match expect(r3, '}') {
                    Err(e) => Err(e),
                    Ok(r4) => Ok((RuleView { selectors: sels, declarations: decls }, r4)),
                },
            },
        },
    }
}

pub proof fn lemma_selectors_from(acc: Seq<SelectorView>, s: Seq<char>)
    ensures
        selectors_from(acc, s) matches Ok((_, rest)) ==> rest.len() <= s.len(),
    decreases s.len(),
{
    lemma_simple_selector_from(empty_selector(), s);
    if let Ok((sel, r1)) = simple_selector(s) {
        let r2 = after_space(r1);
        lemma_after_space(r1);
        if r2.len() > 0 && r2[0] == ',' {
            lemma_after_space(r2.drop_first());
            lemma_selectors_from(acc.push(SelectorView::Simple(sel)), after_space(r2.drop_first()));
        }
    }
}

pub proof fn lemma_declarations_from(acc: Seq<DeclarationView>, s: Seq<char>)
    ensures
        declarations_from(acc, s) matches Ok((_, rest)) ==> rest.len() <= s.len(),
    decreases s.len(),
{
    let r = after_space(s);
    lemma_after_space(s);
    if r.len() > 0 && r[0] != '}' {
        lemma_declaration(r);
        if let Ok((d, r1)) = declaration(r) {
            lemma_after_space(r1);
            if let Ok(r2) = expect(after_space(r1), ';') {
                lemma_declarations_from(acc.push(d), r2);
            }
        }
    }
}

pub proof fn lemma_rule(s: Seq<char>)
    ensures
        rule(s) matches Ok((_, rest)) ==> rest.len() < s.len(),
{
    lemma_selectors_from(Seq::empty(), s);
    if let Ok((sels, r1)) = selectors(s) {
        lemma_after_space(r1);
        if let Ok(r2) = expect(after_space(r1), '{') {
            lemma_declarations_from(Seq::empty(), r2);
        }
    }
}

/// Rules, separated by optional whitespace, added to `acc`, up to the end.
pub open spec fn stylesheet_from(acc: Seq<RuleView>, s: Seq<char>) -> Result<
    StyleSheetView,
    CssParseError,
>
    decreases s.len(),
{
    let r = after_space(s);
    if r.len() == 0 {
        Ok(StyleSheetView { rules: acc })
    } else {
        match rule(r) {
            Err(e) => Err(e),
            Ok((rl, rest)) => {
                proof {
                    lemma_after_space(s);
                    lemma_rule(r);
                }
                stylesheet_from(acc.push(rl), rest)
            },
        }
    }
}

/// The stylesheet that the whole text `s` denotes, or the first error.
pub open spec fn stylesheet(s: Seq<char>) -> Result<StyleSheetView, CssParseError> {
    stylesheet_from(Seq::empty(), s)
}

} // verus!
