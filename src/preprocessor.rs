use vstd::prelude::*;

verus! {

/// The name under which the preprocessor is known to mdbook.
pub open spec fn preprocessor_name() -> Seq<char> {
    "nocomment-preprocessor"@
}

/// The one renderer name that the preprocessor refuses.
pub open spec fn unsupported_renderer() -> Seq<char> {
    "not-supported"@
}

/// The preprocessor that removes HTML comments from each chapter.
pub struct NoCommentPreprocessor;

impl NoCommentPreprocessor {
    pub fn name(&self) -> (r: &'static str)
        ensures
            r@ == preprocessor_name(),
    {
        "nocomment-preprocessor"
    }

    /// Every renderer is supported but `not-supported`.
    pub fn supports_renderer(&self, renderer: &str) -> (r: bool)
        ensures
            r == (renderer@ != unsupported_renderer()),
    {
        let given = renderer.to_owned();
        let refused = "not-supported".to_owned();
        !(given == refused)
    }
}

} // verus!
