use mdbook_nocomment::{remove_comment, Token};
use pulldown_cmark::{Event, Options, Parser};

fn parser_options() -> Options {
    let mut opts = Options::empty();
    opts.insert(Options::ENABLE_TABLES);
    opts.insert(Options::ENABLE_FOOTNOTES);
    opts.insert(Options::ENABLE_STRIKETHROUGH);
    opts.insert(Options::ENABLE_TASKLISTS);
    opts.insert(Options::ENABLE_HEADING_ATTRIBUTES);
    opts
}

fn to_token(e: Event<'_>) -> Token<Event<'_>> {
    match e {
        Event::Text(t) => Token::Text(t.to_string()),
        Event::Html(t) => Token::Html(t.to_string()),
        Event::InlineHtml(t) => Token::InlineHtml(t.to_string()),
        other => Token::Other(other),
    }
}

fn to_event(t: Token<Event<'_>>) -> Event<'_> {
    match t {
        Token::Text(s) => Event::Text(s.into()),
        Token::Html(s) => Event::Html(s.into()),
        Token::InlineHtml(s) => Event::InlineHtml(s.into()),
        Token::Other(e) => e,
    }
}

fn render_without_comments(s: &str) -> String {
    let tokens: Vec<Token<Event<'_>>> = Parser::new_ext(s, parser_options()).map(to_token).collect();
    let kept = remove_comment(tokens);
    let mut buf = String::new();
    pulldown_cmark::html::push_html(&mut buf, kept.into_iter().map(to_event));
    buf
}

fn assert_comment_removal(s: &str) {
    let buf = render_without_comments(s);
    assert!(!buf.contains("double-hyphen"), "{buf}");
    assert!(!buf.contains("--"), "{buf}");
}

#[test]
fn remove_comments() {
    // oneline comment (one Html event)
    assert_comment_removal("<!-- double-hyphen -->");

    // oneline invalid comment (one Html event)
    assert_comment_removal("<!-- --double-hyphen -->");

    // multiline invalid comment (multi html events)
    assert_comment_removal(
        "<!-- \n\
        --double-hyphen \n\
        -->\n",
    );

    // oneline comment in a paragraph (one Html event)
    assert_comment_removal("text <!-- double-hyphen -->");

    // oneline invalid comment in paragraph (multi Text event)
    assert_comment_removal("text <!-- --double-hyphen -->");

    // multiline invalid comment in a paragraph (multi Text event)
    assert_comment_removal(
        "text <!-- \n\
        --double-hyphen \n\
        \n-->",
    );

    // multiline invalid comment across multi paragraph (multi Text event)
    assert_comment_removal(
        "text <!-- \n\n\
        --double-hyphen \n\n\
        \n-->",
    );
}

#[test]
fn rendered_paragraph_keeps_text_before_comment() {
    let buf = render_without_comments("text <!-- double-hyphen -->");
    assert!(buf.contains("text "), "{buf}");
    assert!(!buf.contains("--"), "{buf}");
    assert!(!buf.contains("double-hyphen"), "{buf}");
}
