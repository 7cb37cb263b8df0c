//! Output capture for a markup-strict messaging surface.
//!
//! Text produced by a command-line tool is intercepted rather than printed:
//! terminal control sequences are stripped, markup metacharacters are
//! escaped for the zone the text is destined for, and the sanitized lines are
//! buffered in order until the caller drains them for delivery.

mod chars;
pub mod collector;
pub mod escape;
pub mod strip;
pub mod table;

pub use collector::LogCollector;
pub use escape::{
    code_block, escape_markdownv2, escape_markdownv2_code, escape_markdownv2_link,
    json_code_block, MarkupZone,
};
pub use strip::strip;
pub use table::{print_table, render_table};
