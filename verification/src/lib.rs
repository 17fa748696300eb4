//! codesort sorts code: it reorders sibling code units (enum variants,
//! struct fields, match arms, trait method signatures...) inside a selected
//! region of a source file into lexicographic order, while preserving every
//! byte of the original text except for the reordering itself and a narrow
//! repair of blank-line spacing conventions.
//!
//! The engine works from a lightweight, per-language lexical model: it only
//! tracks bracket nesting, string/comment state, and a small set of forward
//! obligations ("wishes") created by keywords. It never builds a syntax tree.

pub mod analyzer;
pub mod analyzers;
pub mod balanced;
pub mod brace_stack;
pub mod chars;
pub mod comments;
pub mod error;
pub mod focused;
pub mod gifts;
pub mod languages;
pub mod laws;
pub mod list;
pub mod block;
pub mod window;
pub mod line;
pub mod line_number;
pub mod loc;
pub mod loc_list;
pub mod order;
pub mod spacing;

pub use analyzers::Analyzer;
pub use analyzers::Language;
pub use brace_stack::BraceStack;
pub use brace_stack::char_is_brace;
pub use error::CsError;
pub use error::CsResult;
pub use focused::Focused;
pub use gifts::CharSet;
pub use gifts::Gift;
pub use gifts::Wish;
pub use comments::trim_comments;
pub use line::Line;
pub use balanced::Balanced;
pub use list::List;
pub use block::Block;
pub use window::Window;
pub use loc::Loc;
pub use loc_list::LocList;
pub use order::sort_blocks;
pub use spacing::Spacing;
pub use line_number::LineIndex;
pub use line_number::LineNumber;
pub use line_number::LineNumberRange;
pub use line_number::LineNumberRangeIter;
