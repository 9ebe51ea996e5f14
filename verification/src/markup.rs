//! The two ways in which the text of a page becomes HTML.

use crate::md_parser::{markdown_html, parse_md};
use vstd::prelude::*;

verus! {

/// How the text of a page is turned into HTML.
#[derive(Clone, Copy, PartialEq, Eq, Debug, Structural)]
pub enum Markup {
    /// This library's own renderer: headers, flat lists, fenced code and
    /// paragraphs, and nothing else.
    Blocks,
    /// CommonMark, as the `markdown` crate renders it.
    CommonMark,
}

/// The HTML that `markdown::to_html` makes of a text.
pub uninterp spec fn commonmark_html(source: Seq<char>) -> Seq<char>;

/// `markdown::to_html`: compiles Markdown to HTML by the rules of
/// CommonMark, with the crate's default options. The result is a function
/// of the text alone; nothing more is claimed of it here. Markdown has no
/// syntax errors, so the call returns for every text.
#[verifier::external_body]
fn to_html(source: &str) -> (html: String)
    ensures
        html@ == commonmark_html(source@),
{
    markdown::to_html(source)
}

/// The HTML of a page's text under the given markup.
pub open spec fn rendered(markup: Markup, source: Seq<char>) -> Seq<char> {
    match markup {
        Markup::Blocks => markdown_html(source),
        Markup::CommonMark => commonmark_html(source),
    }
}

/// Renders the text of a page under the given markup.
pub fn render_source(markup: Markup, source: &str) -> (html: String)
    ensures
        html@ == rendered(markup, source@),
{
    match markup {
        Markup::Blocks => parse_md(source.to_owned()),
        Markup::CommonMark => to_html(source),
    }
}

} // verus!
