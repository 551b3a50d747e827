//! Reading HTML: into Markdown text with mdka, then the Markdown parser.
use vstd::prelude::*;
use crate::document::Document;
use crate::error::ParseError;
use crate::convert::parser::{parse_markdown, parse_result, markdown_events_of, ALL_OPTIONS};

verus! {

/// The Markdown that `mdka::from_html` makes of an HTML text.
pub uninterp spec fn mdka_markdown(html: Seq<char>) -> Seq<char>;

/// `mdka::from_html`: parses the HTML with html5ever and writes its
/// content as Markdown. The contract names the result and says nothing
/// more of it.
#[verifier::external_body]
fn mdka_from_html(html: &str) -> (r: String)
    ensures r@ == mdka_markdown(html@),
{
    mdka::from_html(html)
}

/// The number of line feeds at the start of `s`.
pub open spec fn leading_newlines(s: Seq<char>) -> nat
    decreases s.len(),
{
    if s.len() == 0 || s[0] != '\n' { 0 } else { 1 + leading_newlines(s.drop_first()) }
}

pub proof fn lemma_leading_newlines(s: Seq<char>)
    ensures
        leading_newlines(s) <= s.len(),
        forall|i: int| 0 <= i < leading_newlines(s) ==> s[i] == '\n',
        leading_newlines(s) < s.len() ==> s[leading_newlines(s) as int] != '\n',
    decreases s.len(),
{
    if s.len() > 0 && s[0] == '\n' {
        lemma_leading_newlines(s.drop_first());
        assert forall|i: int| 0 <= i < leading_newlines(s) implies s[i] == '\n' by {
            if i > 0 { assert(s[i] == s.drop_first()[i - 1]); }
        }
    }
}

/// `s` with each run of two or more line feeds made exactly two.
pub open spec fn collapse_blank_lines(s: Seq<char>) -> Seq<char>
    decreases s.len(),
{
    if s.len() == 0 {
        Seq::empty()
    } else {
        let k = leading_newlines(s);
        if k >= 2 {
            proof { lemma_leading_newlines(s); }
            seq!['\n', '\n'] + collapse_blank_lines(s.skip(k as int))
        } else {
            seq![s[0]] + collapse_blank_lines(s.skip(1))
        }
    }
}

/// `regex::Regex::new(pattern)` and `Regex::replace_all(s, replacement)`
/// with the pattern `\n{2,}` and the replacement "\n\n", which the caller
/// passes: the regex matches each maximal run of two or more line feeds,
/// from the left and without overlap, and each match is replaced by two
/// line feeds (the replacement holds no `$`, so it is taken literally).
/// The contract states exactly that; the pattern is valid, so building
/// the regex does not fail.
#[verifier::external_body]
fn regex_replace_all(s: &str, pattern: &str, replacement: &str) -> (r: String)
    requires
        pattern@ == "\\n{2,}"@,
        replacement@ == "\n\n"@,
    ensures r@ == collapse_blank_lines(s@),
{
    regex::Regex::new(pattern).unwrap().replace_all(s, replacement).into_owned()
}

/// Collapses each run of two or more line feeds to two.
pub fn collapse_blank_runs(s: &str) -> (r: String)
    ensures r@ == collapse_blank_lines(s@),
{
    regex_replace_all(s, "\\n{2,}", "\n\n")
}

/// The Markdown text for an HTML text: what `mdka` makes of it, with runs
/// of blank lines collapsed to one.
pub fn html_to_markdown(html: &str) -> (r: String)
    ensures r@ == collapse_blank_lines(mdka_markdown(html@)),
{
    let md = mdka_from_html(html);
    collapse_blank_runs(md.as_str())
}

/// Reads HTML into a document: the HTML becomes Markdown text (see
/// `html_to_markdown`), which `parse_markdown` reads. It always succeeds.
pub fn from_html(html: &str) -> (r: Result<Document, ParseError>)
    ensures r is Ok && r->Ok_0@ == parse_result(markdown_events_of(collapse_blank_lines(mdka_markdown(html@)), ALL_OPTIONS)),
{
    let md = html_to_markdown(html);
    parse_markdown(md.as_str())
}

} // verus!
