//! A modal line-editor core: an in-memory line buffer together with a
//! vim-style editing state machine (normal, insert and command modes).
//!
//! The buffer turns text into lines and back; the state machine consumes
//! key events and moves a cursor over the buffer, keeping it inside the
//! buffer's bounds at every step.

pub mod buffer;
pub mod editor;

pub use buffer::Buffer;
pub use editor::{Action, App, EditMode, Key};
