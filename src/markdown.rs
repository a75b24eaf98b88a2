use vstd::prelude::*;
use pulldown_cmark::Event;
use crate::scrub::{remove_comment, scrub};
use crate::token::Token;

verus! {

#[verifier::external_type_specification]
#[verifier::external_body]
pub struct ExEvent<'a>(Event<'a>);

/// The tokens that the markdown parser, with no extension enabled, makes of a
/// text: a function of the text alone.
pub uninterp spec fn parsed_of(c: Seq<char>) -> Seq<Token<Event<'static>>>;

/// The markdown text that the markdown writer makes of a token sequence, or
/// `None` where it reports an error: a function of the tokens alone.
pub uninterp spec fn rendered_of(t: Seq<Token<Event<'static>>>) -> Option<Seq<char>>;

/// The characters of an optional string.
pub open spec fn opt_view(r: Option<String>) -> Option<Seq<char>> {
    match r {
        Some(s) => Some(s@),
        None => None,
    }
}

/// Relies on `pulldown_cmark::Parser::new_ext`, with no extension enabled, for
/// the events of `content`. Text, HTML and inline HTML events become tokens of
/// their own kind; every other event is carried as it is, made owned.
#[verifier::external_body]
fn parse_tokens(content: &str) -> (r: Vec<Token<Event<'static>>>)
    ensures
        r@ == parsed_of(content@),
{
    let mut out = Vec::new();
    for e in pulldown_cmark::Parser::new_ext(content, pulldown_cmark::Options::empty()) {
        out.push(
            match e {
                Event::Text(t) => Token::Text(t.to_string()),
                Event::Html(t) => Token::Html(t.to_string()),
                Event::InlineHtml(t) => Token::InlineHtml(t.to_string()),
                other => Token::Other(other.into_static()),
            },
        );
    }
    out
}

/// Relies on `pulldown_cmark_to_cmark::cmark` to write the events back as
/// markdown text; `None` where it reports an error.
#[verifier::external_body]
fn render_tokens(tokens: Vec<Token<Event<'static>>>) -> (r: Option<String>)
    ensures
        opt_view(r) == rendered_of(tokens@),
{
    let mut events = Vec::new();
    for t in tokens {
        events.push(
            match t {
                Token::Text(s) => Event::Text(s.into()),
                Token::Html(s) => Event::Html(s.into()),
                Token::InlineHtml(s) => Event::InlineHtml(s.into()),
                Token::Other(e) => e,
            },
        );
    }
    let mut buf = String::new();
    pulldown_cmark_to_cmark::cmark(events.iter(), &mut buf, pulldown_cmark::Options::empty()).ok().map(|_| buf)
}

/// Removes every closed HTML comment from a markdown text: the text is read
/// into tokens, the comments are taken out with [`remove_comment`], and the
/// rest is written back as markdown. `None` where the markdown writer reports
/// an error.
pub fn strip_comments(content: &str) -> (r: Option<String>)
    ensures
        opt_view(r) == rendered_of(scrub(parsed_of(content@))),
{
    let tokens = parse_tokens(content);
    let kept = remove_comment(tokens);
    render_tokens(kept)
}

} // verus!
