use mdbook_nocomment::{comment_mask, find_span_end, remove_comment, take_kept, text_closes, Token};

fn text(s: &str) -> Token<u32> {
    Token::Text(s.to_string())
}

fn html(s: &str) -> Token<u32> {
    Token::Html(s.to_string())
}

fn inline(s: &str) -> Token<u32> {
    Token::InlineHtml(s.to_string())
}

#[test]
fn empty_input_gives_empty_output() {
    let out: Vec<Token<u32>> = remove_comment(Vec::new());
    assert!(out.is_empty());
}

#[test]
fn single_comment_token_removed_neighbours_untouched() {
    let input = vec![text("before"), inline("<!-- comment -->"), Token::Other(7), text("after")];
    let out = remove_comment(input);
    assert_eq!(out, vec![text("before"), Token::Other(7), text("after")]);
}

#[test]
fn block_comment_token_removed() {
    let out = remove_comment(vec![Token::Other(1), html("<!-- comment -->\n"), Token::Other(2)]);
    assert_eq!(out, vec![Token::Other(1), Token::Other(2)]);
}

#[test]
fn split_opener_closed_in_same_token_removed() {
    let input = vec![text("a "), text("<"), text("!-- hidden -->"), text(" b")];
    let out = remove_comment(input);
    assert_eq!(out, vec![text("a "), text(" b")]);
}

#[test]
fn split_opener_closed_later_removed() {
    let input = vec![text("<"), text("!-- one"), text("two"), text("three -->"), text("kept")];
    let out = remove_comment(input);
    assert_eq!(out, vec![text("kept")]);
}

#[test]
fn unclosed_split_opener_keeps_everything() {
    let input = vec![text("<"), text("!-- open"), Token::Other(3), text("more"), html("x")];
    let out = remove_comment(input.clone());
    assert_eq!(out, input);
}

#[test]
fn unclosed_html_opener_keeps_everything() {
    let input = vec![html("<!-- open\n"), html("still\n"), Token::Other(4), text("-->")];
    let out = remove_comment(input.clone());
    assert_eq!(out, input);
}

#[test]
fn double_hyphen_comment_removed() {
    let out = remove_comment(vec![inline("<!-- --double-hyphen -->"), text("x")]);
    assert_eq!(out, vec![text("x")]);
}

#[test]
fn comment_across_paragraphs_removed() {
    let input = vec![
        Token::Other(10),
        text("text "),
        text("<"),
        text("!-- "),
        Token::Other(11),
        Token::Other(10),
        text("--double-hyphen "),
        Token::Other(11),
        Token::Other(10),
        text("-->"),
        Token::Other(11),
    ];
    let out = remove_comment(input);
    assert_eq!(out, vec![Token::Other(10), text("text "), Token::Other(11)]);
}

#[test]
fn html_run_with_closer_removed() {
    let input = vec![html("<!-- \n"), html("--double-hyphen \n"), html("-->\n"), text("after")];
    let out = remove_comment(input);
    assert_eq!(out, vec![text("after")]);
}

#[test]
fn html_run_broken_by_other_token_not_closed() {
    let input = vec![html("<!-- a\n"), text("b"), html("-->\n")];
    let out = remove_comment(input.clone());
    assert_eq!(out, input);
}

#[test]
fn split_span_is_not_closed_by_markup() {
    let input = vec![text("<"), text("!-- a"), html("b -->"), text("c")];
    let out = remove_comment(input.clone());
    assert_eq!(out, input);
}

#[test]
fn closer_after_trailing_whitespace() {
    let out = remove_comment(vec![html("<!-- a -->  \n\t"), text("b")]);
    assert_eq!(out, vec![text("b")]);
}

#[test]
fn lone_lt_without_bang_stays() {
    let input = vec![text("<"), text("b -->"), text("<"), inline("!-- x -->")];
    let out = remove_comment(input.clone());
    assert_eq!(out, input);
}

#[test]
fn output_never_longer() {
    let input = vec![text("<"), text("!-- a -->"), text("x"), html("<!-- b"), html("c -->"), text("y")];
    let n = input.len();
    let out = remove_comment(input);
    assert!(out.len() <= n);
    assert_eq!(out, vec![text("x"), text("y")]);
}

#[test]
fn no_opener_unchanged() {
    let input = vec![text("a --> b"), html("<div>"), Token::Other(5), text("<"), text("b")];
    let out = remove_comment(input.clone());
    assert_eq!(out, input);
}

#[test]
fn scrubbing_twice_changes_nothing() {
    let input = vec![text("a"), text("<"), text("!-- x"), text("y -->"), html("<!-- z -->"), text("b")];
    let once = remove_comment(input);
    let twice = remove_comment(once.clone());
    assert_eq!(once, vec![text("a"), text("b")]);
    assert_eq!(twice, once);
}

#[test]
fn removal_can_join_a_new_split_opener() {
    let input = vec![text("<"), inline("<!-- x -->"), text("!-- y -->")];
    let once = remove_comment(input);
    assert_eq!(once, vec![text("<"), text("!-- y -->")]);
    let twice = remove_comment(once);
    assert!(twice.is_empty());
}

#[test]
fn mask_marks_comment_tokens() {
    let input = vec![text("a"), html("<!-- b"), html("c -->"), text("d")];
    assert_eq!(comment_mask(&input), vec![true, false, false, true]);
}

#[test]
fn span_end_of_each_opener() {
    let input = vec![text("<"), text("!-- a"), Token::Other(1), text("b -->"), html("<!-- c -->")];
    assert_eq!(find_span_end(&input, 0), Some(3));
    assert_eq!(find_span_end(&input, 1), None);
    assert_eq!(find_span_end(&input, 4), Some(4));
}

#[test]
fn take_kept_moves_marked_tokens_in_order() {
    let input = vec![text("a"), text("b"), text("c"), text("d")];
    let out = take_kept(input, &vec![false, true, false, true]);
    assert_eq!(out, vec![text("b"), text("d")]);
}

#[test]
fn text_closes_trims_trailing_whitespace() {
    assert!(text_closes("<!-- a -->  \n"));
    assert!(text_closes("-->"));
    assert!(!text_closes("--> x"));
    assert!(!text_closes("->"));
    assert!(!text_closes(""));
}

#[test]
fn front_comment_removed_rest_scrubbed_alone() {
    let rest = vec![text("x"), html("<!-- c -->"), text("d")];
    let mut input = vec![text("<"), text("!-- a"), Token::Other(9), text("b -->")];
    input.extend(rest.clone());
    let whole = remove_comment(input);
    let alone = remove_comment(rest);
    assert_eq!(whole, alone);
    assert_eq!(whole, vec![text("x"), text("d")]);
}

#[test]
fn unclosed_suffix_kept_after_scrubbed_prefix() {
    let prefix = vec![text("a"), inline("<!-- gone -->"), text("b")];
    let suffix = vec![html("<!-- open\n"), text("<"), text("!-- also open"), Token::Other(2)];
    let mut input = prefix.clone();
    input.extend(suffix.clone());
    let mut expected = remove_comment(prefix);
    assert_eq!(expected, vec![text("a"), text("b")]);
    expected.extend(suffix);
    assert_eq!(remove_comment(input), expected);
}

#[test]
fn scrubbing_twice_without_lone_lt_changes_nothing() {
    let input = vec![html("<!-- open\n"), text("x"), inline("<!-- y -->"), html("-->\n"), text("z")];
    let once = remove_comment(input);
    assert_eq!(once, vec![html("<!-- open\n"), text("x"), html("-->\n"), text("z")]);
    let twice = remove_comment(once.clone());
    assert_eq!(twice, once);
}
