use vstd::prelude::*;

verus! {

/// What can go wrong while turning a content file into a page.
#[derive(Debug)]
pub enum Error {
    /// The file does not open with the frontmatter delimiter.
    MalformedInput,
    /// The frontmatter block has no closing delimiter.
    UnterminatedBlock,
    /// The frontmatter text does not fit the metadata schema.
    SchemaError(String),
    /// A shortcode invocation breaks the grammar; `offset` is the byte offset of the failure.
    ShortCodeSyntaxError { offset: usize },
    /// No registered template matches the shortcode's name.
    UnknownShortCode(String),
    /// A `{{` in a body has no `}}` after it.
    UnterminatedShortCode,
    /// The template engine failed to render.
    TemplateRenderError(String),
    /// The syntax highlighter failed.
    HighlightError(String),
    /// A link could not be resolved against a base URL.
    InvalidUrl,
    /// A taxonomy name that the site does not configure.
    UnknownTaxonomy(String),
}

} // verus!
