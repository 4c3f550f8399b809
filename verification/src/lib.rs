//! Rewrites `:name:` shortcode tokens in Markdown-like book text into emoji
//! characters or custom image fragments, while leaving fenced code blocks
//! untouched.

use vstd::prelude::*;

pub mod builtin;
pub mod document;
pub mod laws;
pub mod line;
pub mod plugin;
pub mod registry;
pub mod text;

pub use document::replace_emoji_shortcode;
pub use line::process_line;
pub use plugin::{preprocessor_name, supports_renderer};
pub use registry::{get_custom_emoji, symbol_name_of_filename};
