//! The prompt for a commit message, and the answer to it.

pub mod context;
pub mod diff;
pub mod evidence;
pub mod layout;
pub mod prompt;
pub mod response;
pub mod tokens;

pub use context::{SyntaxCallSite, SyntaxContext, SyntaxEntry, SyntaxItem, SyntaxSide};
pub use prompt::{Prompt, PromptError, PromptEstimate, RepositoryContext};
pub use response::{AnswerSchema, ChangeKind, CommitMessage, Confidence};
