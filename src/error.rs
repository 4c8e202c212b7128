//! Why the rewrite of a document failed. Every failure is fatal for the
//! whole document.

use vstd::prelude::*;

verus! {

#[derive(Debug, Clone, Copy, PartialEq, Eq, Structural)]
pub enum MarkupError {
    /// The stream ended inside a code block.
    UnterminatedCodeBlock,
    /// A code block held something other than text before its end.
    StrayTokenInCodeBlock,
    /// The stream ended inside a display equation.
    UnterminatedDisplayEquation,
    /// A display equation holds a `$` between its delimiters.
    NestedDelimiter,
    /// Text holds an odd number of unescaped `$`.
    UnbalancedDelimiters,
    /// The math renderer refused an expression.
    MathRender,
    /// The syntax highlighter failed on a code block.
    Highlight,
}

impl MarkupError {
    /// Structural errors come from the shape of the input itself; the
    /// others from a renderer.
    pub open spec fn spec_is_structural(self) -> bool {
        !(self is MathRender || self is Highlight)
    }

    #[verifier::when_used_as_spec(spec_is_structural)]
    pub fn is_structural(self) -> (r: bool)
        ensures
            r == self.spec_is_structural(),
    {
        match self {
            MarkupError::MathRender | MarkupError::Highlight => false,
            _ => true,
        }
    }
}

} // verus!
