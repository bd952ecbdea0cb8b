//! A canonical text for each parsed value, and the facts that reading it back
//! gives the value again.
use vstd::prelude::*;
use crate::css::{
    Color, DeclarationView, NumberView, RuleView, SelectorView, SimpleSelectorView, StyleSheetView,
    Unit, ValueView,
};
use crate::errors::CssParseError;
use crate::grammar::{
    after_space, color, declaration, declarations_from, empty_selector, expect, hex_byte,
    hex_value, identifier, lemma_after_space, lemma_declaration, lemma_identifier, lemma_rule,
    lemma_simple_selector_from, number_of, rule, same_letter,
    selectors_from, simple_selector_from, spells, stylesheet_from, unit_named, value,
};
use crate::text::{
    is_digit, is_hex_digit, is_ident_char, is_number_char, is_space, lemma_run_len,
    lemma_run_len_is, run_len, CharClass,
};

verus! {

/// A non-empty run of identifier characters.
pub open spec fn is_ident(s: Seq<char>) -> bool {
    s.len() > 0 && forall|i: int| 0 <= i < s.len() ==> is_ident_char(#[trigger] s[i])
}

pub open spec fn all_digits(s: Seq<char>) -> bool {
    forall|i: int| 0 <= i < s.len() ==> is_digit(#[trigger] s[i])
}

pub open spec fn wf_name(o: Option<Seq<char>>) -> bool {
    o matches Some(s) ==> is_ident(s)
}

pub open spec fn wf_selector(sel: SimpleSelectorView) -> bool {
    &&& wf_name(sel.tag_name)
    &&& wf_name(sel.id)
    &&& forall|i: int| 0 <= i < sel.class.len() ==> is_ident(#[trigger] sel.class[i])
}

pub open spec fn wf_number(n: NumberView) -> bool {
    n.integer.len() > 0 && all_digits(n.integer) && all_digits(n.fraction)
}

pub open spec fn wf_value(v: ValueView) -> bool {
    match v {
        ValueView::Keyword(k) => is_ident(k) && !is_digit(k[0]),
        ValueView::Length(n, _) => wf_number(n),
        ValueView::ColorValue(c) => c.a == 255,
    }
}

pub open spec fn wf_declaration(d: DeclarationView) -> bool {
    is_ident(d.name) && wf_value(d.value)
}

pub open spec fn wf_rule(r: RuleView) -> bool {
    &&& r.selectors.len() > 0
    &&& forall|i: int| 0 <= i < r.selectors.len() ==> wf_selector(#[trigger] r.selectors[i]->Simple_0)
    &&& forall|i: int| 0 <= i < r.declarations.len() ==> wf_declaration(#[trigger] r.declarations[i])
}

/// What a parse can give: every name an identifier, every magnitude made of
/// digits, every color opaque, every selector list non-empty.
pub open spec fn wf_stylesheet(sh: StyleSheetView) -> bool {
    forall|i: int| 0 <= i < sh.rules.len() ==> wf_rule(#[trigger] sh.rules[i])
}

pub open spec fn classes_text(cs: Seq<Seq<char>>) -> Seq<char>
    decreases cs.len(),
{
    if cs.len() == 0 {
        Seq::empty()
    } else {
        seq!['.'] + cs[0] + classes_text(cs.drop_first())
    }
}

/// `tag#id.class...`, or `*` when there is none of them.
pub open spec fn selector_text(sel: SimpleSelectorView) -> Seq<char> {
    let tag = match sel.tag_name {
        Some(t) => t,
        None => Seq::empty(),
    };
    let id = match sel.id {
        Some(i) => seq!['#'] + i,
        None => Seq::empty(),
    };
    let body = tag + id + classes_text(sel.class);
    if body.len() == 0 {
        seq!['*']
    } else {
        body
    }
}

/// The selectors, separated by commas.
pub open spec fn selectors_text(sels: Seq<SelectorView>) -> Seq<char>
    decreases sels.len(),
{
    if sels.len() <= 1 {
        if sels.len() == 0 {
            Seq::empty()
        } else {
            selector_text(sels[0]->Simple_0)
        }
    } else {
        selector_text(sels[0]->Simple_0) + seq![','] + selectors_text(sels.drop_first())
    }
}

pub open spec fn number_text(n: NumberView) -> Seq<char> {
    if n.fraction.len() == 0 {
        n.integer
    } else {
        n.integer + seq!['.'] + n.fraction
    }
}

pub open spec fn unit_text(u: Unit) -> Seq<char> {
    match u {
        Unit::Px => seq!['p', 'x'],
        Unit::Em => seq!['e', 'm'],
        Unit::Rem => seq!['r', 'e', 'm'],
    }
}

pub open spec fn hex_char(n: int) -> char {
    seq!['0', '1', '2', '3', '4', '5', '6', '7', '8', '9', 'a', 'b', 'c', 'd', 'e', 'f'][n]
}

pub open spec fn byte_text(b: u8) -> Seq<char> {
    seq![hex_char(b as int / 16), hex_char(b as int % 16)]
}

pub open spec fn value_text(v: ValueView) -> Seq<char> {
    match v {
        ValueView::Keyword(k) => k,
        ValueView::Length(n, u) => number_text(n) + unit_text(u),
        ValueView::ColorValue(c) => seq!['#'] + byte_text(c.r) + byte_text(c.g) + byte_text(c.b),
    }
}

/// `name:value;`
pub open spec fn declaration_text(d: DeclarationView) -> Seq<char> {
    d.name + seq![':'] + value_text(d.value) + seq![';']
}

pub open spec fn declarations_text(ds: Seq<DeclarationView>) -> Seq<char>
    decreases ds.len(),
{
    if ds.len() == 0 {
        Seq::empty()
    } else {
        declaration_text(ds[0]) + declarations_text(ds.drop_first())
    }
}

/// `selectors{declarations}`
pub open spec fn rule_text(r: RuleView) -> Seq<char> {
    selectors_text(r.selectors) + seq!['{'] + declarations_text(r.declarations) + seq!['}']
}

pub open spec fn rules_text(rs: Seq<RuleView>) -> Seq<char>
    decreases rs.len(),
{
    if rs.len() == 0 {
        Seq::empty()
    } else {
        rule_text(rs[0]) + rules_text(rs.drop_first())
    }
}

/// The stylesheet written without whitespace.
pub open spec fn stylesheet_text(sh: StyleSheetView) -> Seq<char> {
    rules_text(sh.rules)
}

/// `rest` cannot continue a simple selector.
pub open spec fn ends_selector(rest: Seq<char>) -> bool {
    rest.len() > 0 ==> {
        &&& !is_ident_char(rest[0])
        &&& rest[0] != '#'
        &&& rest[0] != '.'
        &&& rest[0] != '*'
    }
}

pub proof fn lemma_ident_text(name: Seq<char>, rest: Seq<char>)
    requires
        is_ident(name),
        rest.len() > 0 ==> !is_ident_char(rest[0]),
    ensures
        identifier(name + rest) == Ok::<(Seq<char>, Seq<char>), CssParseError>((name, rest)),
{
    let s = name + rest;
    assert forall|i: int| 0 <= i < name.len() implies CharClass::Ident.contains(#[trigger] s[i]) by {
        assert(s[i] == name[i]);
    }
    if name.len() < s.len() {
        assert(s[name.len() as int] == rest[0]);
    }
    lemma_run_len_is(s, CharClass::Ident, name.len());
    assert(s.take(name.len() as int) =~= name);
    assert(s.skip(name.len() as int) =~= rest);
}

pub proof fn lemma_no_space(s: Seq<char>)
    requires
        s.len() > 0 ==> !is_space(s[0]),
    ensures
        after_space(s) == s,
{
    lemma_run_len_is(s, CharClass::Space, 0);
    assert(s.skip(0) =~= s);
}

pub proof fn lemma_classes_text(acc: SimpleSelectorView, cs: Seq<Seq<char>>, rest: Seq<char>)
    requires
        forall|i: int| 0 <= i < cs.len() ==> is_ident(#[trigger] cs[i]),
        ends_selector(rest),
    ensures
        simple_selector_from(acc, classes_text(cs) + rest) == simple_selector_from(
            SimpleSelectorView { tag_name: acc.tag_name, id: acc.id, class: acc.class + cs },
            rest,
        ),
        classes_text(cs).len() > 0 ==> classes_text(cs)[0] == '.',
        classes_text(cs).len() == 0 <==> cs.len() == 0,
    decreases cs.len(),
{
    if cs.len() == 0 {
        assert(classes_text(cs) + rest =~= rest);
        assert(acc.class + cs =~= acc.class);
    } else {
        let tail = cs.drop_first();
        assert forall|i: int| 0 <= i < tail.len() implies is_ident(#[trigger] tail[i]) by {
            assert(tail[i] == cs[i + 1]);
        }
        let next = SimpleSelectorView {
            tag_name: acc.tag_name,
            id: acc.id,
            class: acc.class.push(cs[0]),
        };
        lemma_classes_text(next, tail, rest);
        assert(is_ident(cs[0]));
        let after = classes_text(tail) + rest;
        lemma_ident_text(cs[0], after);
        let s = classes_text(cs) + rest;
        assert(s =~= seq!['.'] + (cs[0] + after));
        assert(s.drop_first() =~= cs[0] + after);
        assert(next.class + tail =~= acc.class + cs);
    }
}

pub proof fn lemma_selector_text(sel: SimpleSelectorView, rest: Seq<char>)
    requires
        wf_selector(sel),
        ends_selector(rest),
    ensures
        simple_selector_from(empty_selector(), selector_text(sel) + rest) == Ok::<
            (SimpleSelectorView, Seq<char>),
            CssParseError,
        >((sel, rest)),
        selector_text(sel).len() > 0,
        !is_space(selector_text(sel)[0]),
        selector_text(sel)[0] != '}',
{
    let tag = match sel.tag_name {
        Some(t) => t,
        None => Seq::empty(),
    };
    let id = match sel.id {
        Some(i) => seq!['#'] + i,
        None => Seq::empty(),
    };
    let cls = classes_text(sel.class);
    let with_id = SimpleSelectorView { tag_name: sel.tag_name, id: sel.id, class: Seq::empty() };
    lemma_classes_text(with_id, sel.class, rest);
    assert(Seq::<Seq<char>>::empty() + sel.class =~= sel.class);
    let after_id = cls + rest;
    assert(simple_selector_from(with_id, after_id) == Ok::<
        (SimpleSelectorView, Seq<char>),
        CssParseError,
    >((sel, rest)));
    let with_tag = SimpleSelectorView { tag_name: sel.tag_name, id: None, class: Seq::empty() };
    let after_tag = id + after_id;
    if let Some(i) = sel.id {
        lemma_ident_text(i, after_id);
        assert(after_tag =~= seq!['#'] + (i + after_id));
        assert(after_tag.drop_first() =~= i + after_id);
    } else {
        assert(after_tag =~= after_id);
    }
    assert(simple_selector_from(with_tag, after_tag) == Ok::<
        (SimpleSelectorView, Seq<char>),
        CssParseError,
    >((sel, rest)));
    let body = tag + id + cls;
    if let Some(t) = sel.tag_name {
        lemma_ident_text(t, after_tag);
        assert(body + rest =~= t + after_tag);
        assert(body[0] == t[0]);
    } else {
        assert(body + rest =~= after_tag);
        if sel.id is Some {
            assert(body[0] == '#');
        } else if cls.len() > 0 {
            assert(body[0] == cls[0]);
        }
    }
    if body.len() == 0 {
        assert(sel.class.len() == 0);
        assert(sel == empty_selector());
        let s = seq!['*'] + rest;
        assert(s.drop_first() =~= rest);
    }
}

pub proof fn lemma_selectors_text(acc: Seq<SelectorView>, sels: Seq<SelectorView>, rest: Seq<char>)
    requires
        sels.len() > 0,
        forall|i: int| 0 <= i < sels.len() ==> wf_selector(#[trigger] sels[i]->Simple_0),
        rest.len() > 0,
        rest[0] == '{',
    ensures
        selectors_from(acc, selectors_text(sels) + rest) == Ok::<
            (Seq<SelectorView>, Seq<char>),
            CssParseError,
        >((acc + sels, rest)),
        !is_space(selectors_text(sels)[0]),
        selectors_text(sels)[0] != '}',
    decreases sels.len(),
{
    let first = sels[0]->Simple_0;
    assert(wf_selector(first));
    assert(SelectorView::Simple(first) == sels[0]);
    if sels.len() == 1 {
        lemma_selector_text(first, rest);
        lemma_no_space(rest);
        assert(acc.push(sels[0]) =~= acc + sels);
    } else {
        let tail = sels.drop_first();
        assert forall|i: int| 0 <= i < tail.len() implies wf_selector(
            #[trigger] tail[i]->Simple_0,
        ) by {
            assert(tail[i] == sels[i + 1]);
        }
        lemma_selectors_text(acc.push(sels[0]), tail, rest);
        let r1 = seq![','] + selectors_text(tail) + rest;
        lemma_selector_text(first, r1);
        lemma_no_space(r1);
        assert(selectors_text(sels) + rest =~= selector_text(first) + r1);
        assert(r1.drop_first() =~= selectors_text(tail) + rest);
        lemma_no_space(r1.drop_first());
        assert(acc.push(sels[0]) + tail =~= acc + sels);
        assert(selectors_text(sels)[0] == selector_text(first)[0]);
    }
}

pub proof fn lemma_hex_char(n: int)
    requires
        0 <= n < 16,
    ensures
        is_hex_digit(hex_char(n)),
        hex_value(hex_char(n)) == n,
{
    let h = seq!['0', '1', '2', '3', '4', '5', '6', '7', '8', '9', 'a', 'b', 'c', 'd', 'e', 'f'];
    assert(h[0] == '0' && h[1] == '1' && h[2] == '2' && h[3] == '3');
    assert(h[4] == '4' && h[5] == '5' && h[6] == '6' && h[7] == '7');
    assert(h[8] == '8' && h[9] == '9' && h[10] == 'a' && h[11] == 'b');
    assert(h[12] == 'c' && h[13] == 'd' && h[14] == 'e' && h[15] == 'f');
}

pub proof fn lemma_byte_text(b: u8)
    ensures
        is_hex_digit(byte_text(b)[0]),
        is_hex_digit(byte_text(b)[1]),
        hex_byte(byte_text(b)[0], byte_text(b)[1]) == b,
{
    lemma_hex_char(b as int / 16);
    lemma_hex_char(b as int % 16);
}

pub proof fn lemma_number_text(n: NumberView)
    requires
        wf_number(n),
    ensures
        number_of(number_text(n)) == Some(n),
        forall|i: int| 0 <= i < number_text(n).len() ==> is_number_char(#[trigger] number_text(n)[i]),
        is_digit(number_text(n)[0]),
{
    let t = number_text(n);
    let k = n.integer.len() as int;
    if n.fraction.len() == 0 {
        assert(n.fraction =~= Seq::<char>::empty());
        assert(!exists|i: int| 0 <= i < t.len() && t[i] == '.') by {
            assert forall|i: int| 0 <= i < t.len() implies t[i] != '.' by {
                assert(is_digit(n.integer[i]));
            }
        }
    } else {
        assert(t[k] == '.');
        let i = choose|i: int| 0 <= i < t.len() && t[i] == '.';
        assert(i == k) by {
            if i < k {
                assert(is_digit(n.integer[i]));
            } else if i > k {
                assert(t[i] == n.fraction[i - k - 1]);
                assert(is_digit(n.fraction[i - k - 1]));
            }
        }
        assert(t.take(k) =~= n.integer);
        assert(t.skip(k + 1) =~= n.fraction);
        assert forall|j: int| 0 <= j < t.len() implies is_number_char(#[trigger] t[j]) by {
            if j < k {
                assert(is_digit(n.integer[j]));
            } else if j > k {
                assert(t[j] == n.fraction[j - k - 1]);
                assert(is_digit(n.fraction[j - k - 1]));
            }
        }
    }
}

pub proof fn lemma_value_text(v: ValueView, rest: Seq<char>)
    requires
        wf_value(v),
        rest.len() > 0,
        rest[0] == ';',
    ensures
        value(value_text(v) + rest) == Ok::<(ValueView, Seq<char>), CssParseError>((v, rest)),
        value_text(v).len() > 0,
        !is_space(value_text(v)[0]),
{
    let s = value_text(v) + rest;
    match v {
        ValueView::Keyword(k) => {
            lemma_ident_text(k, rest);
            assert(s[0] == k[0]);
            assert(is_ident_char(k[0]));
        },
        ValueView::Length(n, u) => {
            lemma_number_text(n);
            let nt = number_text(n);
            let ut = unit_text(u);
            assert(is_ident(ut));
            assert(!is_number_char(ut[0]));
            assert forall|i: int| 0 <= i < nt.len() implies CharClass::Number.contains(
                #[trigger] s[i],
            ) by {
                assert(s[i] == nt[i]);
            }
            assert(s[nt.len() as int] == ut[0]);
            lemma_run_len_is(s, CharClass::Number, nt.len());
            assert(s.take(nt.len() as int) =~= nt);
            assert(s.skip(nt.len() as int) =~= ut + rest);
            lemma_ident_text(ut, rest);
            assert(unit_named(ut) == Some(u)) by {
                if u == Unit::Px {
                    assert(spells(ut, seq!['p', 'x']));
                } else if u == Unit::Em {
                    assert(!same_letter(ut[0], 'p'));
                    assert(spells(ut, seq!['e', 'm']));
                } else {
                    assert(spells(ut, seq!['r', 'e', 'm']));
                }
            }
            assert(s[0] == nt[0]);
        },
        ValueView::ColorValue(c) => {
            lemma_byte_text(c.r);
            lemma_byte_text(c.g);
            lemma_byte_text(c.b);
            let t = s.drop_first();
            assert(t =~= byte_text(c.r) + byte_text(c.g) + byte_text(c.b) + rest);
            assert(is_hex_digit(t[0]) && is_hex_digit(t[1]) && is_hex_digit(t[2]));
            assert(is_hex_digit(t[3]) && is_hex_digit(t[4]) && is_hex_digit(t[5]));
            assert(t[6] == ';');
            lemma_run_len_is(t, CharClass::Hex, 6);
            assert(t.skip(6) =~= rest);
            assert(Color {
                r: hex_byte(t[0], t[1]),
                g: hex_byte(t[2], t[3]),
                b: hex_byte(t[4], t[5]),
                a: 255,
            } == c);
        },
    }
}

pub proof fn lemma_declaration_text(d: DeclarationView, rest: Seq<char>)
    requires
        wf_declaration(d),
        rest.len() > 0,
        rest[0] == ';',
    ensures
        declaration(d.name + seq![':'] + value_text(d.value) + rest) == Ok::<
            (DeclarationView, Seq<char>),
            CssParseError,
        >((d, rest)),
{
    let vt = value_text(d.value);
    let r1 = seq![':'] + vt + rest;
    lemma_ident_text(d.name, r1);
    assert(d.name + seq![':'] + vt + rest =~= d.name + r1);
    lemma_no_space(r1);
    assert(r1.drop_first() =~= vt + rest);
    lemma_value_text(d.value, rest);
    lemma_no_space(vt + rest);
}

pub proof fn lemma_declarations_text(
    acc: Seq<DeclarationView>,
    ds: Seq<DeclarationView>,
    rest: Seq<char>,
)
    requires
        forall|i: int| 0 <= i < ds.len() ==> wf_declaration(#[trigger] ds[i]),
        rest.len() > 0,
        rest[0] == '}',
    ensures
        declarations_from(acc, declarations_text(ds) + rest) == Ok::<
            (Seq<DeclarationView>, Seq<char>),
            CssParseError,
        >((acc + ds, rest)),
    decreases ds.len(),
{
    if ds.len() == 0 {
        assert(declarations_text(ds) + rest =~= rest);
        lemma_no_space(rest);
        assert(acc + ds =~= acc);
    } else {
        let d = ds[0];
        assert(wf_declaration(d));
        let tail = ds.drop_first();
        assert forall|i: int| 0 <= i < tail.len() implies wf_declaration(#[trigger] tail[i]) by {
            assert(tail[i] == ds[i + 1]);
        }
        lemma_declarations_text(acc.push(d), tail, rest);
        let after = seq![';'] + declarations_text(tail) + rest;
        lemma_declaration_text(d, after);
        let s = declarations_text(ds) + rest;
        assert(s =~= d.name + seq![':'] + value_text(d.value) + after);
        assert(s[0] == d.name[0]);
        lemma_no_space(s);
        lemma_no_space(after);
        assert(after.drop_first() =~= declarations_text(tail) + rest);
        assert(acc.push(d) + tail =~= acc + ds);
    }
}

pub proof fn lemma_rule_text(r: RuleView, rest: Seq<char>)
    requires
        wf_rule(r),
    ensures
        rule(rule_text(r) + rest) == Ok::<(RuleView, Seq<char>), CssParseError>((r, rest)),
        !is_space(rule_text(r)[0]),
{
    let dt = declarations_text(r.declarations);
    let close = seq!['}'] + rest;
    let r1 = seq!['{'] + dt + close;
    lemma_selectors_text(Seq::empty(), r.selectors, r1);
    assert(Seq::<SelectorView>::empty() + r.selectors =~= r.selectors);
    assert(rule_text(r) + rest =~= selectors_text(r.selectors) + r1);
    lemma_no_space(r1);
    assert(r1.drop_first() =~= dt + close);
    lemma_declarations_text(Seq::empty(), r.declarations, close);
    assert(Seq::<DeclarationView>::empty() + r.declarations =~= r.declarations);
    assert(close.drop_first() =~= rest);
    assert(rule_text(r)[0] == selectors_text(r.selectors)[0]);
}

pub proof fn lemma_rules_text(acc: Seq<RuleView>, rs: Seq<RuleView>)
    requires
        forall|i: int| 0 <= i < rs.len() ==> wf_rule(#[trigger] rs[i]),
    ensures
        stylesheet_from(acc, rules_text(rs)) == Ok::<StyleSheetView, CssParseError>(
            StyleSheetView { rules: acc + rs },
        ),
    decreases rs.len(),
{
    if rs.len() == 0 {
        lemma_no_space(rules_text(rs));
        assert(acc + rs =~= acc);
    } else {
        let tail = rs.drop_first();
        assert(wf_rule(rs[0]));
        assert forall|i: int| 0 <= i < tail.len() implies wf_rule(#[trigger] tail[i]) by {
            assert(tail[i] == rs[i + 1]);
        }
        lemma_rules_text(acc.push(rs[0]), tail);
        lemma_rule_text(rs[0], rules_text(tail));
        lemma_no_space(rules_text(rs));
        assert(acc.push(rs[0]) + tail =~= acc + rs);
    }
}

pub proof fn lemma_identifier_wf(s: Seq<char>)
    ensures
        identifier(s) matches Ok((name, _)) ==> is_ident(name) && name[0] == s[0],
{
    lemma_run_len(s, CharClass::Ident);
    if let Ok((name, _)) = identifier(s) {
        assert forall|i: int| 0 <= i < name.len() implies is_ident_char(#[trigger] name[i]) by {
            assert(name[i] == s[i]);
            assert(CharClass::Ident.contains(s[i]));
        }
    }
}

pub proof fn lemma_simple_selector_wf(acc: SimpleSelectorView, s: Seq<char>)
    requires
        wf_selector(acc),
    ensures
        simple_selector_from(acc, s) matches Ok((sel, _)) ==> wf_selector(sel),
    decreases s.len(),
{
    if s.len() > 0 {
        if s[0] == '#' || s[0] == '.' {
            lemma_identifier(s.drop_first());
            lemma_identifier_wf(s.drop_first());
            if let Ok((name, rest)) = identifier(s.drop_first()) {
                let next = if s[0] == '#' {
                    SimpleSelectorView { tag_name: acc.tag_name, id: Some(name), class: acc.class }
                } else {
                    SimpleSelectorView {
                        tag_name: acc.tag_name,
                        id: acc.id,
                        class: acc.class.push(name),
                    }
                };
                assert forall|i: int| 0 <= i < next.class.len() implies is_ident(
                    #[trigger] next.class[i],
                ) by {
                    if i < acc.class.len() {
                        assert(next.class[i] == acc.class[i]);
                    }
                }
                lemma_simple_selector_wf(next, rest);
            }
        } else if s[0] == '*' {
            lemma_simple_selector_wf(acc, s.drop_first());
        } else if is_ident_char(s[0]) {
            lemma_identifier(s);
            lemma_identifier_wf(s);
            if let Ok((name, rest)) = identifier(s) {
                lemma_simple_selector_wf(
                    SimpleSelectorView { tag_name: Some(name), id: acc.id, class: acc.class },
                    rest,
                );
            }
        }
    }
}

pub proof fn lemma_selectors_wf(acc: Seq<SelectorView>, s: Seq<char>)
    requires
        forall|i: int| 0 <= i < acc.len() ==> wf_selector(#[trigger] acc[i]->Simple_0),
    ensures
        selectors_from(acc, s) matches Ok((sels, _)) ==> {
            &&& sels.len() > 0
            &&& forall|i: int| 0 <= i < sels.len() ==> wf_selector(#[trigger] sels[i]->Simple_0)
        },
    decreases s.len(),
{
    assert(wf_selector(empty_selector()));
    lemma_simple_selector_wf(empty_selector(), s);
    lemma_simple_selector_from(empty_selector(), s);
    if let Ok((sel, r1)) = simple_selector_from(empty_selector(), s) {
        let acc2 = acc.push(SelectorView::Simple(sel));
        assert forall|i: int| 0 <= i < acc2.len() implies wf_selector(#[trigger] acc2[i]->Simple_0) by {
            if i < acc.len() {
                assert(acc2[i] == acc[i]);
            }
        }
        let r2 = after_space(r1);
        lemma_after_space(r1);
        if r2.len() > 0 && r2[0] == ',' {
            lemma_after_space(r2.drop_first());
            lemma_selectors_wf(acc2, after_space(r2.drop_first()));
        }
    }
}

pub proof fn lemma_number_of_wf(t: Seq<char>)
    requires
        t.len() > 0,
        is_digit(t[0]),
        forall|i: int| 0 <= i < t.len() ==> is_number_char(#[trigger] t[i]),
    ensures
        number_of(t) matches Some(n) ==> wf_number(n),
{
    if let Some(n) = number_of(t) {
        if exists|i: int| 0 <= i < t.len() && t[i] == '.' {
            let i = choose|i: int| 0 <= i < t.len() && t[i] == '.';
            assert(i > 0);
            assert(n.integer[0] == t[0]);
            assert forall|j: int| 0 <= j < n.integer.len() implies is_digit(#[trigger] n.integer[j]) by {
                assert(n.integer[j] == t[j]);
                assert(is_number_char(t[j]));
            }
            assert forall|j: int| 0 <= j < n.fraction.len() implies is_digit(#[trigger] n.fraction[j]) by {
                assert(n.fraction[j] == t[i + 1 + j]);
                assert(is_number_char(t[i + 1 + j]));
            }
        } else {
            assert forall|j: int| 0 <= j < n.integer.len() implies is_digit(#[trigger] n.integer[j]) by {
                assert(is_number_char(t[j]));
            }
        }
    }
}

pub proof fn lemma_value_wf(s: Seq<char>)
    ensures
        value(s) matches Ok((v, _)) ==> wf_value(v),
{
    if s.len() > 0 {
        if is_digit(s[0]) {
            let n = run_len(s, CharClass::Number) as int;
            lemma_run_len(s, CharClass::Number);
            let t = s.take(n);
            assert forall|i: int| 0 <= i < t.len() implies is_number_char(#[trigger] t[i]) by {
                assert(t[i] == s[i]);
                assert(CharClass::Number.contains(s[i]));
            }
            if n > 0 {
                assert(t[0] == s[0]);
                lemma_number_of_wf(t);
            }
        } else if s[0] != '#' {
            lemma_identifier_wf(s);
        }
    }
}

pub proof fn lemma_declaration_wf(s: Seq<char>)
    ensures
        declaration(s) matches Ok((d, _)) ==> wf_declaration(d),
{
    lemma_identifier_wf(s);
    if let Ok((name, r1)) = identifier(s) {
        if let Ok(r2) = expect(after_space(r1), ':') {
            lemma_value_wf(after_space(r2));
        }
    }
}

pub proof fn lemma_declarations_wf(acc: Seq<DeclarationView>, s: Seq<char>)
    requires
        forall|i: int| 0 <= i < acc.len() ==> wf_declaration(#[trigger] acc[i]),
    ensures
        declarations_from(acc, s) matches Ok((ds, _)) ==> forall|i: int|
            0 <= i < ds.len() ==> wf_declaration(#[trigger] ds[i]),
    decreases s.len(),
{
    let r = after_space(s);
    lemma_after_space(s);
    if r.len() > 0 && r[0] != '}' {
        lemma_declaration(r);
        lemma_declaration_wf(r);
        if let Ok((d, r1)) = declaration(r) {
            lemma_after_space(r1);
            let acc2 = acc.push(d);
            assert forall|i: int| 0 <= i < acc2.len() implies wf_declaration(#[trigger] acc2[i]) by {
                if i < acc.len() {
                    assert(acc2[i] == acc[i]);
                }
            }
            if let Ok(r2) = expect(after_space(r1), ';') {
                lemma_declarations_wf(acc2, r2);
            }
        }
    }
}

pub proof fn lemma_rule_wf(s: Seq<char>)
    ensures
        rule(s) matches Ok((r, _)) ==> wf_rule(r),
{
    lemma_selectors_wf(Seq::empty(), s);
    if let Ok((sels, r1)) = selectors_from(Seq::empty(), s) {
        if let Ok(r2) = expect(after_space(r1), '{') {
            lemma_declarations_wf(Seq::empty(), r2);
        }
    }
}

pub proof fn lemma_stylesheet_wf(acc: Seq<RuleView>, s: Seq<char>)
    requires
        forall|i: int| 0 <= i < acc.len() ==> wf_rule(#[trigger] acc[i]),
    ensures
        stylesheet_from(acc, s) matches Ok(sh) ==> wf_stylesheet(sh),
    decreases s.len(),
{
    let r = after_space(s);
    if r.len() > 0 {
        lemma_rule_wf(r);
        if let Ok((rl, rest)) = rule(r) {
            lemma_after_space(s);
            lemma_rule(r);
            let acc2 = acc.push(rl);
            assert forall|i: int| 0 <= i < acc2.len() implies wf_rule(#[trigger] acc2[i]) by {
                if i < acc.len() {
                    assert(acc2[i] == acc[i]);
                }
            }
            lemma_stylesheet_wf(acc2, rest);
        }
    }
}

} // verus!
