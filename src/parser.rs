use vstd::prelude::*;
use vstd::slice::{slice_subrange, slice_to_vec};
use crate::css::{
    declarations_view, rules_view, selectors_view, Color, Declaration, DeclarationView, Number,
    Rule, RuleView, Selector, SelectorView, SimpleSelector, SimpleSelectorView, StyleSheet,
    StyleSheetView, Unit, Value,
};
use crate::errors::CssParseError;
use crate::grammar::{
    after_space, color, declaration, declarations_from, empty_selector, expect, hex_byte,
    hex_value, identifier, lemma_rule, length, number_of, rule, same_letter, selectors_from,
    simple_selector_from, spells, stylesheet, stylesheet_from, unit, unit_named, value,
};
use crate::text::{
    chars_of, is_ascii_digit, is_ascii_hex_digit, is_hex_digit, is_digit_or_point,
    is_space_char, lemma_run_len_is, string_of, valid_identifier_char, CharClass,
};

verus! {

/// The input text and a cursor over its characters.
pub struct Parser {
    input: Vec<char>,
    position: usize,
}

impl Parser {
    /// The whole input.
    pub closed spec fn text(&self) -> Seq<char> {
        self.input@
    }

    /// How many characters have been consumed.
    pub closed spec fn pos(&self) -> int {
        self.position as int
    }

    pub open spec fn wf(&self) -> bool {
        0 <= self.pos() <= self.text().len()
    }

    /// The input not consumed yet.
    pub open spec fn rest(&self) -> Seq<char> {
        self.text().skip(self.pos())
    }

    /// A parser at the start of `input`.
    pub fn new(input: String) -> (p: Self)
        ensures
            p.wf(),
            p.text() == input@,
            p.pos() == 0,
            p.rest() == input@,
    {
        let p = Parser { input: chars_of(input.as_str()), position: 0 };
        assert(p.rest() =~= input@);
        p
    }

    /// Whether the whole input has been consumed.
    pub fn eof(&self) -> (r: bool)
        requires
            self.wf(),
        ensures
            r == (self.rest().len() == 0),
    {
        self.position >= self.input.len()
    }

    /// The next character, without consuming it.
    pub fn next_char(&self) -> (r: Result<char, CssParseError>)
        requires
            self.wf(),
        ensures
            self.rest().len() == 0 ==> r == Err::<char, CssParseError>(CssParseError::UnexpectedEOF),
            self.rest().len() > 0 ==> r == Ok::<char, CssParseError>(self.rest()[0]),
    {
        if self.position >= self.input.len() {
            Err(CssParseError::UnexpectedEOF)
        } else {
            Ok(self.input[self.position])
        }
    }

    /// Consumes the next character if it is `expected`.
    pub fn consume_char(&mut self, expected: char) -> (r: Result<char, CssParseError>)
        requires
            old(self).wf(),
        ensures
            final(self).wf(),
            final(self).text() == old(self).text(),
            match expect(old(self).rest(), expected) {
                Ok(t) => {
                    &&& r == Ok::<char, CssParseError>(expected)
                    &&& final(self).rest() == t
                    &&& final(self).pos() == old(self).pos() + 1
                },
                Err(e) => r == Err::<char, CssParseError>(e) && final(self).pos() == old(self).pos(),
            },
    {
        if self.position >= self.input.len() {
            return Err(CssParseError::UnexpectedEOF);
        }
        let c = self.input[self.position];
        if c == expected {
            self.position = self.position + 1;
            assert(self.rest() =~= old(self).rest().drop_first());
            Ok(c)
        } else {
            Err(CssParseError::UnexpectedToken(c))
        }
    }

    /// Consumes the longest run of characters on which `test` holds.
    fn consume_chars<F: Fn(char) -> bool>(&mut self, test: F) -> (r: Vec<char>)
        requires
            old(self).wf(),
            forall|c: char| call_requires(test, (c,)),
        ensures
            final(self).wf(),
            final(self).text() == old(self).text(),
            r@.len() <= old(self).rest().len(),
            r@ == old(self).rest().take(r@.len() as int),
            final(self).rest() == old(self).rest().skip(r@.len() as int),
            final(self).pos() == old(self).pos() + r@.len(),
            forall|i: int| 0 <= i < r@.len() ==> call_ensures(test, (r@[i],), true),
            final(self).rest().len() > 0 ==> call_ensures(test, (final(self).rest()[0],), false),
            old(self).rest().len() == 0 ==> r@.len() == 0,
    {
        let start = self.position;
        let mut out: Vec<char> = Vec::new();
        loop
            invariant
                self.wf(),
                self.text() == old(self).text(),
                old(self).pos() == start <= self.pos(),
                out@ == self.text().subrange(start as int, self.pos()),
                forall|i: int| 0 <= i < out@.len() ==> call_ensures(test, (out@[i],), true),
                forall|c: char| call_requires(test, (c,)),
            ensures
                self.wf(),
                self.text() == old(self).text(),
                old(self).pos() == start <= self.pos(),
                out@ == self.text().subrange(start as int, self.pos()),
                forall|i: int| 0 <= i < out@.len() ==> call_ensures(test, (out@[i],), true),
                self.pos() < self.text().len() ==> call_ensures(
                    test,
                    (self.text()[self.pos()],),
                    false,
                ),
            decreases self.input.len() - self.position,
        {
            if self.position >= self.input.len() {
                break;
            }
            let c = self.input[self.position];
            if !test(c) {
                break;
            }
            out.push(c);
            self.position = self.position + 1;
            assert(out@ =~= self.text().subrange(start as int, self.pos()));
        }
        let ghost n = out@.len() as int;
        assert(out@ =~= old(self).rest().take(n));
        assert(self.rest() =~= old(self).rest().skip(n));
        out
    }

    /// Consumes the longest run of characters on which `test` holds, and
    /// returns it; at the end of the input the run is empty.
    pub fn consume_while<F: Fn(char) -> bool>(&mut self, test: F) -> (r: String)
        requires
            old(self).wf(),
            forall|c: char| call_requires(test, (c,)),
        ensures
            final(self).wf(),
            final(self).text() == old(self).text(),
            r@.len() <= old(self).rest().len(),
            r@ == old(self).rest().take(r@.len() as int),
            final(self).rest() == old(self).rest().skip(r@.len() as int),
            final(self).pos() == old(self).pos() + r@.len(),
            forall|i: int| 0 <= i < r@.len() ==> call_ensures(test, (r@[i],), true),
            final(self).rest().len() > 0 ==> call_ensures(test, (final(self).rest()[0],), false),
            old(self).rest().len() == 0 ==> r@.len() == 0,
    {
        string_of(self.consume_chars(test))
    }

    /// Skips a run of whitespace.
    pub fn consume_whitespace(&mut self)
        requires
            old(self).wf(),
        ensures
            final(self).wf(),
            final(self).text() == old(self).text(),
            final(self).rest() == after_space(old(self).rest()),
            final(self).pos() >= old(self).pos(),
    {
        let s = self.consume_while(is_space_char);
        proof {
            assert forall|i: int| 0 <= i < s@.len() implies CharClass::Space.contains(
                #[trigger] old(self).rest()[i],
            ) by {
                assert(old(self).rest()[i] == s@[i]);
            }
            lemma_run_len_is(old(self).rest(), CharClass::Space, s@.len());
        }
    }

    /// The characters of a maximal non-empty identifier run.
    fn identifier_chars(&mut self) -> (r: Result<Vec<char>, CssParseError>)
        requires
            old(self).wf(),
        ensures
            final(self).wf(),
            final(self).text() == old(self).text(),
            match identifier(old(self).rest()) {
                Ok((name, rest)) => {
                    &&& r matches Ok(s)
                    &&& s@ == name
                    &&& final(self).rest() == rest
                    &&& final(self).pos() == old(self).pos() + name.len()
                    &&& name.len() > 0
                },
                Err(e) => r is Err && r->Err_0 == e,
            },
            final(self).pos() >= old(self).pos(),
    {
        let s = self.consume_chars(valid_identifier_char);
        proof {
            assert forall|i: int| 0 <= i < s@.len() implies CharClass::Ident.contains(
                #[trigger] old(self).rest()[i],
            ) by {
                assert(old(self).rest()[i] == s@[i]);
            }
            lemma_run_len_is(old(self).rest(), CharClass::Ident, s@.len());
        }
        if s.len() == 0 {
            Err(CssParseError::InvalidValue)
        } else {
            Ok(s)
        }
    }

    /// A maximal non-empty run of identifier characters.
    fn parse_identifier(&mut self) -> (r: Result<String, CssParseError>)
        requires
            old(self).wf(),
        ensures
            final(self).wf(),
            final(self).text() == old(self).text(),
            match identifier(old(self).rest()) {
                Ok((name, rest)) => {
                    &&& r matches Ok(s)
                    &&& s@ == name
                    &&& final(self).rest() == rest
                    &&& final(self).pos() == old(self).pos() + name.len()
                    &&& name.len() > 0
                },
                Err(e) => r is Err && r->Err_0 == e,
            },
            final(self).pos() >= old(self).pos(),
    {
        let name = self.identifier_chars()?;
        Ok(string_of(name))
    }

    /// One simple selector: `#id`, `.class`, `*` and tag-name fragments in
    /// any order, up to the first character that starts none of them.
    fn parse_simple_selector(&mut self) -> (r: Result<SimpleSelector, CssParseError>)
        requires
            old(self).wf(),
        ensures
            final(self).wf(),
            final(self).text() == old(self).text(),
            match simple_selector_from(empty_selector(), old(self).rest()) {
                Ok((sel, rest)) => r matches Ok(v) && v@ == sel && final(self).rest() == rest,
                Err(e) => r is Err && r->Err_0 == e,
            },
            final(self).pos() >= old(self).pos(),
    {
        let mut selector = SimpleSelector { tag_name: None, id: None, class: Vec::new() };
        assert(selector@.class =~= Seq::<Seq<char>>::empty());
        loop
            invariant
                self.wf(),
                self.text() == old(self).text(),
                self.pos() >= old(self).pos(),
                simple_selector_from(selector@, self.rest()) == simple_selector_from(
                    empty_selector(),
                    old(self).rest(),
                ),
            ensures
                self.wf(),
                self.text() == old(self).text(),
                self.pos() >= old(self).pos(),
                simple_selector_from(empty_selector(), old(self).rest()) == Ok::<
                    (SimpleSelectorView, Seq<char>),
                    CssParseError,
                >((selector@, self.rest())),
            decreases self.input.len() - self.position,
        {
            if self.eof() {
                break;
            }
            let c = self.next_char()?;
            if c == '#' {
                self.consume_char('#')?;
                let name = self.parse_identifier()?;
                selector.id = Some(name);
            } else if c == '.' {
                self.consume_char('.')?;
                let name = self.parse_identifier()?;
                let ghost before = selector@.class;
                selector.class.push(name);
                assert(selector@.class =~= before.push(name@));
            } else if c == '*' {
                self.consume_char('*')?;
            } else if valid_identifier_char(c) {
                let name = self.parse_identifier()?;
                selector.tag_name = Some(name);
            } else {
                break;
            }
        }
        Ok(selector)
    }

    /// A comma-separated selector list, up to the `{` that follows it.
    fn parse_selectors(&mut self) -> (r: Result<Vec<Selector>, CssParseError>)
        requires
            old(self).wf(),
        ensures
            final(self).wf(),
            final(self).text() == old(self).text(),
            match selectors_from(Seq::empty(), old(self).rest()) {
                Ok((sels, rest)) => {
                    &&& r matches Ok(v)
                    &&& selectors_view(v@) == sels
                    &&& final(self).rest() == rest
                },
                Err(e) => r is Err && r->Err_0 == e,
            },
            final(self).pos() >= old(self).pos(),
    {
        let mut selectors: Vec<Selector> = Vec::new();
        assert(selectors_view(selectors@) =~= Seq::<SelectorView>::empty());
        loop
            invariant_except_break
                selectors_from(selectors_view(selectors@), self.rest()) == selectors_from(
                    Seq::empty(),
                    old(self).rest(),
                ),
            invariant
                self.wf(),
                self.text() == old(self).text(),
                self.pos() >= old(self).pos(),
            ensures
                self.wf(),
                self.text() == old(self).text(),
                self.pos() >= old(self).pos(),
                selectors_from(Seq::empty(), old(self).rest()) == Ok::<
                    (Seq<SelectorView>, Seq<char>),
                    CssParseError,
                >((selectors_view(selectors@), self.rest())),
            decreases self.input.len() - self.position,
        {
            let simple = self.parse_simple_selector()?;
            let ghost before = selectors_view(selectors@);
            let ghost sel = simple@;
            selectors.push(Selector::Simple(simple));
            assert(selectors_view(selectors@) =~= before.push(SelectorView::Simple(sel)));
            self.consume_whitespace();
            let c = self.next_char()?;
            if c == ',' {
                self.consume_char(',')?;
                self.consume_whitespace();
            } else if c == '{' {
                break;
            } else {
                return Err(CssParseError::InvalidSelector);
            }
        }
        Ok(selectors)
    }

    /// A unit name, matched against `px`, `em` and `rem` ignoring case.
    fn parse_unit(&mut self) -> (r: Result<Unit, CssParseError>)
        requires
            old(self).wf(),
        ensures
            final(self).wf(),
            final(self).text() == old(self).text(),
            match unit(old(self).rest()) {
                Ok((u, rest)) => r == Ok::<Unit, CssParseError>(u) && final(self).rest() == rest,
                Err(e) => r is Err && r->Err_0 == e,
            },
            final(self).pos() >= old(self).pos(),
    {
        let name = self.identifier_chars()?;
        match unit_of(&name) {
            Some(u) => Ok(u),
            None => Err(CssParseError::InvalidUnit),
        }
    }

    /// A run of digits and dots denoting a magnitude, then a unit.
    fn parse_length(&mut self) -> (r: Result<Value, CssParseError>)
        requires
            old(self).wf(),
        ensures
            final(self).wf(),
            final(self).text() == old(self).text(),
            match length(old(self).rest()) {
                Ok((v, rest)) => r matches Ok(x) && x@ == v && final(self).rest() == rest,
                Err(e) => r is Err && r->Err_0 == e,
            },
            final(self).pos() >= old(self).pos(),
    {
        let run = self.consume_chars(is_digit_or_point);
        proof {
            assert forall|i: int| 0 <= i < run@.len() implies CharClass::Number.contains(
                #[trigger] old(self).rest()[i],
            ) by {
                assert(old(self).rest()[i] == run@[i]);
            }
            lemma_run_len_is(old(self).rest(), CharClass::Number, run@.len());
        }
        let num = match parse_number(&run) {
            Some(n) => n,
            None => return Err(CssParseError::InvalidValue),
        };
        let u = self.parse_unit()?;
        Ok(Value::Length(num, u))
    }

    /// `#` and six hex digits.
    fn parse_color(&mut self) -> (r: Result<Value, CssParseError>)
        requires
            old(self).wf(),
        ensures
            final(self).wf(),
            final(self).text() == old(self).text(),
            match color(old(self).rest()) {
                Ok((v, rest)) => r matches Ok(x) && x@ == v && final(self).rest() == rest,
                Err(e) => r is Err && r->Err_0 == e,
            },
            final(self).pos() >= old(self).pos(),
    {
        self.consume_char('#')?;
        let ghost t = self.rest();
        let hex = self.consume_chars(is_ascii_hex_digit);
        proof {
            assert forall|i: int| 0 <= i < hex@.len() implies CharClass::Hex.contains(
                #[trigger] t[i],
            ) by {
                assert(t[i] == hex@[i]);
            }
            lemma_run_len_is(t, CharClass::Hex, hex@.len());
        }
        if hex.len() != 6 {
            return Err(CssParseError::InvalidColor);
        }
        assert(hex@ == t.take(6));
        assert(is_hex_digit(hex@[0]) && is_hex_digit(hex@[1]) && is_hex_digit(hex@[2]));
        assert(is_hex_digit(hex@[3]) && is_hex_digit(hex@[4]) && is_hex_digit(hex@[5]));
        let r = hex_pair(hex[0], hex[1]);
        let g = hex_pair(hex[2], hex[3]);
        let b = hex_pair(hex[4], hex[5]);
        Ok(Value::ColorValue(Color { r, g, b, a: 255 }))
    }

    /// A length on a digit, a color on `#`, a keyword otherwise.
    fn parse_value(&mut self) -> (r: Result<Value, CssParseError>)
        requires
            old(self).wf(),
        ensures
            final(self).wf(),
            final(self).text() == old(self).text(),
            match value(old(self).rest()) {
                Ok((v, rest)) => r matches Ok(x) && x@ == v && final(self).rest() == rest,
                Err(e) => r is Err && r->Err_0 == e,
            },
            final(self).pos() >= old(self).pos(),
    {
        let c = self.next_char()?;
        if is_ascii_digit(c) {
            self.parse_length()
        } else if c == '#' {
            self.parse_color()
        } else {
            let k = self.parse_identifier()?;
            Ok(Value::Keyword(k))
        }
    }

    /// A property name, `:`, and its value.
    fn parse_declaration(&mut self) -> (r: Result<Declaration, CssParseError>)
        requires
            old(self).wf(),
        ensures
            final(self).wf(),
            final(self).text() == old(self).text(),
            match declaration(old(self).rest()) {
                Ok((d, rest)) => {
                    &&& r matches Ok(x)
                    &&& x@ == d
                    &&& final(self).rest() == rest
                    &&& final(self).pos() > old(self).pos()
                },
                Err(e) => r is Err && r->Err_0 == e,
            },
            final(self).pos() >= old(self).pos(),
    {
        let name = self.parse_identifier()?;
        self.consume_whitespace();
        self.consume_char(':')?;
        self.consume_whitespace();
        let value = self.parse_value()?;
        Ok(Declaration { name, value })
    }

    /// Declarations, each ended by `;`, up to the closing `}`.
    fn parse_declarations(&mut self) -> (r: Result<Vec<Declaration>, CssParseError>)
        requires
            old(self).wf(),
        ensures
            final(self).wf(),
            final(self).text() == old(self).text(),
            match declarations_from(Seq::empty(), old(self).rest()) {
                Ok((ds, rest)) => {
                    &&& r matches Ok(v)
                    &&& declarations_view(v@) == ds
                    &&& final(self).rest() == rest
                },
                Err(e) => r is Err && r->Err_0 == e,
            },
            final(self).pos() >= old(self).pos(),
    {
        let mut declarations: Vec<Declaration> = Vec::new();
        assert(declarations_view(declarations@) =~= Seq::<DeclarationView>::empty());
        loop
            invariant_except_break
                declarations_from(declarations_view(declarations@), self.rest())
                    == declarations_from(Seq::empty(), old(self).rest()),
            invariant
                self.wf(),
                self.text() == old(self).text(),
                self.pos() >= old(self).pos(),
            ensures
                declarations_from(Seq::empty(), old(self).rest()) == Ok::<
                    (Seq<DeclarationView>, Seq<char>),
                    CssParseError,
                >((declarations_view(declarations@), self.rest())),
            decreases self.input.len() - self.position,
        {
            self.consume_whitespace();
            if self.next_char()? == '}' {
                break;
            }
            let d = self.parse_declaration()?;
            let ghost before = declarations_view(declarations@);
            let ghost dv = d@;
            declarations.push(d);
            assert(declarations_view(declarations@) =~= before.push(dv));
            self.consume_whitespace();
            self.consume_char(';')?;
        }
        Ok(declarations)
    }

    /// One rule: a selector list, `{`, declarations and `}`.
    pub fn parse_rule(&mut self) -> (r: Result<Rule, CssParseError>)
        requires
            old(self).wf(),
        ensures
            final(self).wf(),
            final(self).text() == old(self).text(),
            match rule(old(self).rest()) {
                Ok((rl, rest)) => r matches Ok(x) && x@ == rl && final(self).rest() == rest,
                Err(e) => r is Err && r->Err_0 == e,
            },
            final(self).pos() >= old(self).pos(),
    {
        let selectors = self.parse_selectors()?;
        self.consume_whitespace();
        self.consume_char('{')?;
        let declarations = self.parse_declarations()?;
        self.consume_char('}')?;
        Ok(Rule { selectors, declarations })
    }

    /// The stylesheet that the unread input denotes, or the first error.
    pub fn parse(&mut self) -> (r: Result<StyleSheet, CssParseError>)
        requires
            old(self).wf(),
        ensures
            final(self).wf(),
            final(self).text() == old(self).text(),
            match stylesheet(old(self).rest()) {
                Ok(sheet) => r matches Ok(x) && x@ == sheet && final(self).rest().len() == 0,
                Err(e) => r is Err && r->Err_0 == e,
            },
    {
        let mut rules: Vec<Rule> = Vec::new();
        assert(rules_view(rules@) =~= Seq::<RuleView>::empty());
        loop
            invariant_except_break
                stylesheet_from(rules_view(rules@), self.rest()) == stylesheet(old(self).rest()),
            invariant
                self.wf(),
                self.text() == old(self).text(),
            ensures
                self.rest().len() == 0,
                stylesheet(old(self).rest()) == Ok::<StyleSheetView, CssParseError>(
                    StyleSheetView { rules: rules_view(rules@) },
                ),
            decreases self.input.len() - self.position,
        {
            self.consume_whitespace();
            if self.eof() {
                break;
            }
            proof {
                lemma_rule(self.rest());
            }
            let rl = self.parse_rule()?;
            let ghost before = rules_view(rules@);
            let ghost v = rl@;
            rules.push(rl);
            assert(rules_view(rules@) =~= before.push(v));
        }
        Ok(StyleSheet { rules })
    }
}

/// The unit that `name` spells, ignoring ASCII case.
fn unit_of(name: &Vec<char>) -> (r: Option<Unit>)
    ensures
        r == unit_named(name@),
{
    let n = name.len();
    if n == 2 && same_letter_exec(name[0], 'p') && same_letter_exec(name[1], 'x') {
        assert(spells(name@, seq!['p', 'x']));
        Some(Unit::Px)
    } else if n == 2 && same_letter_exec(name[0], 'e') && same_letter_exec(name[1], 'm') {
        assert(spells(name@, seq!['e', 'm']));
        Some(Unit::Em)
    } else if n == 3 && same_letter_exec(name[0], 'r') && same_letter_exec(name[1], 'e')
        && same_letter_exec(name[2], 'm') {
        assert(spells(name@, seq!['r', 'e', 'm']));
        Some(Unit::Rem)
    } else {
        None
    }
}

fn same_letter_exec(c: char, l: char) -> (r: bool)
    ensures
        r == same_letter(c, l),
{
    c == l || (c as u32) + 32 == (l as u32)
}

/// The value of a hex digit.
fn hex_digit_value(c: char) -> (r: u8)
    requires
        is_hex_digit(c),
    ensures
        r == hex_value(c),
        r < 16,
{
    if is_ascii_digit(c) {
        ((c as u32) - ('0' as u32)) as u8
    } else if 'a' <= c && c <= 'f' {
        ((c as u32) - ('a' as u32) + 10) as u8
    } else {
        ((c as u32) - ('A' as u32) + 10) as u8
    }
}

/// The byte written as the hex digits `hi` and `lo`.
fn hex_pair(hi: char, lo: char) -> (r: u8)
    requires
        is_hex_digit(hi),
        is_hex_digit(lo),
    ensures
        r == hex_byte(hi, lo),
{
    hex_digit_value(hi) * 16 + hex_digit_value(lo)
}

/// The magnitude that a run of digits and dots denotes, if it has at most
/// one decimal point and some digit.
fn parse_number(t: &Vec<char>) -> (r: Option<Number>)
    ensures
        match number_of(t@) {
            Some(n) => r matches Some(x) && x@ == n,
            None => r is None,
        },
{
    let len = t.len();
    let mut d: usize = 0;
    while d < len && t[d] != '.'
        invariant
            d <= len == t@.len(),
            forall|i: int| 0 <= i < d ==> t@[i] != '.',
        decreases len - d,
    {
        d = d + 1;
    }
    if d == len {
        if len > 0 {
            let integer = string_of(slice_to_vec(t.as_slice()));
            let fraction = string_of(Vec::new());
            return Some(Number { integer, fraction });
        } else {
            return None;
        }
    }
    let mut j: usize = d + 1;
    while j < len && t[j] != '.'
        invariant
            d < j <= len == t@.len(),
            forall|i: int| d < i < j ==> t@[i] != '.',
        decreases len - j,
    {
        j = j + 1;
    }
    let ghost i = choose|i: int| 0 <= i < t@.len() && t@[i] == '.';
    assert(0 <= i < t@.len() && t@[i] == '.');
    if j < len || len <= 1 {
        proof {
            if j < len {
                if i == d {
                    assert(t@.skip(i + 1)[j - d - 1] == '.');
                } else {
                    assert(t@.take(i)[d as int] == '.');
                }
            }
        }
        return None;
    }
    assert(i == d);
    let integer = string_of(slice_to_vec(slice_subrange(t.as_slice(), 0, d)));
    let fraction = string_of(slice_to_vec(slice_subrange(t.as_slice(), d + 1, len)));
    assert(integer@ =~= t@.take(d as int));
    assert(fraction@ =~= t@.skip(d + 1));
    Some(Number { integer, fraction })
}


} // verus!
