//! An interactive terminal text editor core: a grapheme-cell text buffer,
//! a diff-based undo/redo history, and a damage-tracking double-buffered
//! terminal renderer.

pub mod editor;
pub mod error;
pub mod history;
pub mod position;
pub mod row;
pub mod style;
pub mod syntax;
pub mod terminal;
pub mod tui;
pub mod unicode;
pub mod util;

pub use editor::Editor;
pub use error::Error;
pub use history::History;
pub use position::Position;
pub use row::Row;
pub use syntax::Syntax;
pub use terminal::Terminal;
