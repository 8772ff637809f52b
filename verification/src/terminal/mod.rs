//! Diagnostics: what is written to the terminal, as text.

pub mod progress;
pub mod spinner;
pub mod terminal;

pub use progress::{ChatProgress, Elapsed, ThinkingPreview};
pub use spinner::Spinner;
pub use terminal::{Segment, Terminal, TextStyle};
