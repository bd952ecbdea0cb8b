//! Properties of the language that hold for every input.
use vstd::prelude::*;
use crate::canonical::{lemma_rules_text, lemma_stylesheet_wf, stylesheet_text, wf_stylesheet};
use crate::css::{RuleView, SelectorView, StyleSheetView};
use crate::errors::CssParseError;
use crate::grammar::{after_space, selectors, simple_selector, stylesheet};
use crate::text::{is_space, lemma_run_len_is, CharClass};

verus! {

/// Text made only of whitespace, the empty text included, is a stylesheet
/// without rules.
pub proof fn lemma_blank_stylesheet(s: Seq<char>)
    requires
        forall|i: int| 0 <= i < s.len() ==> is_space(#[trigger] s[i]),
    ensures
        stylesheet(s) == Ok::<StyleSheetView, CssParseError>(StyleSheetView { rules: Seq::empty() }),
{
    assert forall|i: int| 0 <= i < s.len() implies CharClass::Space.contains(#[trigger] s[i]) by {}
    lemma_run_len_is(s, CharClass::Space, s.len());
    assert(after_space(s).len() == 0);
}

/// After a selector, a character other than `,` or `{` (whitespace aside)
/// makes the selector list invalid.
pub proof fn lemma_bad_separator(s: Seq<char>)
    requires
        simple_selector(s) is Ok,
        after_space(simple_selector(s)->Ok_0.1).len() > 0,
        after_space(simple_selector(s)->Ok_0.1)[0] != ',',
        after_space(simple_selector(s)->Ok_0.1)[0] != '{',
    ensures
        selectors(s) == Err::<(Seq<SelectorView>, Seq<char>), CssParseError>(
            CssParseError::InvalidSelector,
        ),
{
}

/// Every stylesheet that parsing gives is written out by `stylesheet_text`
/// as a text that parses back to the same stylesheet.
pub proof fn lemma_reparse(s: Seq<char>, sheet: StyleSheetView)
    requires
        stylesheet(s) == Ok::<StyleSheetView, CssParseError>(sheet),
    ensures
        wf_stylesheet(sheet),
        stylesheet(stylesheet_text(sheet)) == Ok::<StyleSheetView, CssParseError>(sheet),
{
    lemma_stylesheet_wf(Seq::empty(), s);
    lemma_rules_text(Seq::empty(), sheet.rules);
    assert(Seq::<RuleView>::empty() + sheet.rules =~= sheet.rules);
}

} // verus!
