//! Built-in plugins.

pub mod alert;
pub mod wrap_div;

pub use alert::BlockquoteAlert;
pub use wrap_div::WrapDiv;
