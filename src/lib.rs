//! Streaming rewrite of markup tokens: inline and display mathematics,
//! highlighted code blocks and image figures, with the side artifacts that
//! a page needs (whether math was used, and the scale of each image).

pub mod annotate;
pub mod equation;
pub mod error;
pub mod figure;
pub mod highlight;
pub mod laws;
pub mod minify;
pub mod post;
pub mod registry;
pub mod text;
pub mod transform;

pub use equation::{parse_equation, splice_equations};
pub use error::MarkupError;
pub use figure::{create_figure, encoding_for, modify_url, scaled_size, Encoding};
pub use highlight::{code_block_html, highlight_code, Highlighter};
pub use minify::{is_css_minifiable, is_page_css_minifiable, minify_css, minify_html};
pub use post::{create_index, slug_and_url, split_front_matter, Date, Metadata, Post};
pub use registry::ImageScales;
pub use transform::{transform, EventIterator, Rendered, Token};
