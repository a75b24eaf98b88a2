use mdbook_nocomment::{strip_comments, NoCommentPreprocessor};

#[test]
fn preprocessor_name() {
    assert_eq!(NoCommentPreprocessor.name(), "nocomment-preprocessor");
}

#[test]
fn supports_every_renderer_but_one() {
    assert!(NoCommentPreprocessor.supports_renderer("html"));
    assert!(NoCommentPreprocessor.supports_renderer("markdown"));
    assert!(!NoCommentPreprocessor.supports_renderer("not-supported"));
}

#[test]
fn strip_comments_end_to_end() {
    let out = strip_comments("text <!-- double-hyphen -->").unwrap();
    assert!(out.contains("text"), "{out}");
    assert!(!out.contains("--"), "{out}");
    assert!(!out.contains("double-hyphen"), "{out}");
}

#[test]
fn strip_comments_keeps_unclosed_opener() {
    let out = strip_comments("keep <!-- this").unwrap();
    assert!(out.contains("this"), "{out}");
}

#[test]
fn strip_comments_block_comment() {
    let out = strip_comments("# Title\n\n<!--\nhidden\n-->\n\nbody\n").unwrap();
    assert!(out.contains("Title"), "{out}");
    assert!(out.contains("body"), "{out}");
    assert!(!out.contains("hidden"), "{out}");
}
