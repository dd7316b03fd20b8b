//! Markdown AST node definitions.
//!
//! - [`nodes`] — all block-level and inline-level node types, together with
//!   their mathematical views (`Spec*` types) that contracts speak of.
//! - [`span`] — source position tracking (`Position`, `Span`).

pub mod nodes;
pub mod span;
pub use nodes::{
    Block, Document, EmphasisLevel, Inline, KramdownAttributes, ListItem, Table, TableCell,
    TableCellAlignment, TableRow, TaskState,
};
pub use span::{Position, Span};
