//! Markdown rendering, through the pulldown_cmark parser.

use vstd::prelude::*;
use pulldown_cmark::{Event, Tag};

verus! {

/// What rendering `s` as Markdown yields: the HTML text, a function
/// of the source characters alone.
pub uninterp spec fn html_of(s: Seq<char>) -> Seq<char>;

/// Relies on pulldown_cmark's Parser and push_html: the source
/// rendered as HTML, a function of the source characters alone.
/// An empty source renders to empty HTML.
#[verifier::external_body]
pub fn render_markdown(s: &str) -> (r: String)
    ensures
        r@ == html_of(s@),
        s@.len() == 0 ==> r@.len() == 0,
{
    let parser = pulldown_cmark::Parser::new(s);
    let mut out = String::new();
    pulldown_cmark::html::push_html(&mut out, parser);
    out
}

/// What rendering `s` as Markdown with the typographic pass applied
/// to its prose yields: the HTML text.  The name covers a composite —
/// the parser, the code-block gating in the wrapper's own closure,
/// and the library's verified `typogrified` — and every part is a
/// function of the source characters alone, so the composite is too.
pub uninterp spec fn typographic_html_of(s: Seq<char>) -> Seq<char>;

/// Relies on pulldown_cmark's Parser and push_html: the source
/// rendered as HTML, with `typogrified` applied to every text event
/// outside code blocks.  The closure below carries the one piece of
/// unverified glue behind the name: the flag tracking whether the
/// current text event sits inside a code block, which decides where
/// the verified typographic pass applies.  A function of the source
/// characters alone; an empty source renders to empty HTML.
#[verifier::external_body]
pub fn render_markdown_typographic(s: &str) -> (r: String)
    ensures
        r@ == typographic_html_of(s@),
        s@.len() == 0 ==> r@.len() == 0,
{
    let mut in_code = false;
    let parser = pulldown_cmark::Parser::new(s).map(|ev| match ev {
        Event::Start(t) => { in_code = in_code || matches!(t, Tag::CodeBlock(_)); Event::Start(t) },
        Event::End(t) => { in_code = in_code && !matches!(t, Tag::CodeBlock(_)); Event::End(t) },
        Event::Text(t) if !in_code => Event::Text(crate::typography::typogrified(&t).into()),
        other => other,
    });
    let mut out = String::new();
    pulldown_cmark::html::push_html(&mut out, parser);
    out
}

/// What collecting the text events of `s`'s Markdown yields: the
/// plain-text pieces in document order, a function of the source
/// characters alone.
pub uninterp spec fn text_pieces_of(s: Seq<char>) -> Seq<Seq<char>>;

/// Relies on pulldown_cmark's Parser: the text events of the
/// document, in order, a function of the source characters alone.
#[verifier::external_body]
pub fn markdown_text_pieces(s: &str) -> (r: Vec<String>)
    ensures
        r@.map_values(|p: String| p@) == text_pieces_of(s@),
{
    let parser = pulldown_cmark::Parser::new(s);
    let mut parts: Vec<String> = Vec::new();
    for event in parser {
        if let pulldown_cmark::Event::Text(text) = event {
            parts.push(text.to_string());
        }
    }
    parts
}

} // verus!
