//! An mdbook preprocessor that removes HTML comments (`<!-- ... -->`) from the
//! token stream of a markdown document, including comments that the tokenizer
//! split over several tokens or several paragraphs.

mod laws;
mod markdown;
mod preprocessor;
mod scrub;
mod token;

pub use laws::{
    has_no_closer, has_no_opener, is_plain, lemma_front_comment_removed,
    lemma_no_opener_unchanged, lemma_scrub_idempotent, lemma_scrub_len, lemma_unclosed_suffix_kept,
    lemma_unclosed_unchanged,
    has_no_lone_lt, lemma_front_kept, lemma_scrub_idempotent_no_lone_lt, openers_closed, shifted,
};
pub use markdown::{opt_view, parsed_of, rendered_of, strip_comments};
pub use preprocessor::{preprocessor_name, unsupported_renderer, NoCommentPreprocessor};
pub use scrub::{
    comment_mask, find_span_end, html_closer_from, is_split_opener, kept, lemma_kept_len,
    lemma_mask_len, lemma_span_end_bounds, mask, mask_from, remove_comment, scrub, span_end,
    take_kept, text_closer_from,
};
pub use token::{
    bang_marker, close_marker, closes_comment, ends_with, is_lone_lt, is_white_space, open_marker,
    starts_with,
    text_closes, trim_end_of, Token,
};
