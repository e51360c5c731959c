use vstd::prelude::*;

verus! {

/// Why a page could not be rendered or prepared for display.
#[derive(Debug)]
pub enum RenderError {
    /// The document library failed; the text is its own.
    Mupdf(String),
    /// The document has no pages.
    EmptyDocument,
    /// A rendered page could not be made into an image.
    Converting(String),
}

impl RenderError {
    /// A conversion failure with this message.
    pub open spec fn converting(self, message: Seq<char>) -> bool {
        self matches RenderError::Converting(m) && m@ == message
    }
}

/// A failure to convert is told by its message.
pub proof fn law_conversion_failure(error: RenderError, message: Seq<char>)
    ensures
        error.converting(message) <==> error is Converting && error->Converting_0@ == message,
{
}

} // verus!
