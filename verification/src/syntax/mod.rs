//! Source structure around changed lines.

pub mod calls;
pub mod context;
pub mod definitions;
pub mod language;
pub mod source;
pub mod tree;

pub use calls::EntryPoint;
pub use context::{
    context_for_change, AffectedCode, ExternalCallSite, IndexedFile, SyntaxContext, SyntaxError,
};
pub use language::Language;
