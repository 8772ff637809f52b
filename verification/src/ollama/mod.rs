//! Models, errors and replies of an Ollama instance, as plain values.

pub mod chat;
pub mod client;
pub mod model;

pub use chat::{
    ChatChunk, ChatEvent, ChatResponse, Message, ResponseMessage, Role, StreamedMessage,
};
pub use client::OllamaError;
pub use model::{is_model_contained, normalize_model_name, Model, RunningModel};
