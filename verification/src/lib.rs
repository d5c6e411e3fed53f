//! Verified core of an in-process log panel for a terminal UI.
//!
//! The crate holds the pieces of such a panel that carry real invariants:
//! a bounded FIFO store of formatted log lines (`store`), the pure formatter
//! that turns one log record into a styled multi-segment line (`formatter`),
//! the width/height measurement and cell placement of the stored lines on a
//! character grid (`layout`), and the writer that appends a record and wakes
//! the UI thread through a callback sink (`writer`).

pub mod formatter;
pub mod layout;
pub mod line;
pub mod store;
pub mod text;
pub mod view;
pub mod writer;

pub use line::{LogLine, Segment, Style, TextColor};
pub use store::LogStore;
pub use view::{FlexiLoggerView, Indentable};
pub use writer::{cursive_flexi_logger, CursiveLogWriter, WriteError};
