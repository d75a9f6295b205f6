//! Math substitution for book chapters: splits text on math delimiters,
//! renders each expression with KaTeX and splices the results back in.
pub mod text;
pub mod split;
pub mod macros;
pub mod render;
pub mod processor;
