//! Terminal renderer for semi-structured, markdown-like "page" documents.
//!
//! A page is a sequence of text lines. Each line is classified by its leading
//! marker (title, description, bullet, example, blank, or unclassified), its
//! marker is stripped, and inline spans delimited by marker pairs (URLs in
//! `<...>`, inline code in backticks, placeholders in `{{...}}`) are tagged
//! with style roles. The renderer composes these passes into a sequence of
//! role-tagged output lines; painting each role with a terminal style is the
//! final step, applied once per tagged span.

pub mod classify;
pub mod highlight;
pub mod render;
pub mod split;
pub mod style;

pub use classify::LineKind;
pub use highlight::Role;
pub use highlight::Span;
pub use render::OutputConfig;
pub use render::OutputLine;
pub use render::render_page;
pub use style::render_page_styled;
pub use style::StyleTable;
