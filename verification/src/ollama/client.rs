//! Errors of a request, and what they are reported as.

use vstd::prelude::*;
use vstd::string::StringExecFns;

use crate::ollama::model;
use crate::ollama::model::Model;
use crate::text;

verus! {

/// The address of a local instance.
pub const DEFAULT_BASE_URL: &'static str = "http://localhost:11434";

/// Why a request to Ollama failed.
#[derive(Debug, Clone, PartialEq, Eq)]
pub enum OllamaError {
    /// The request could not be sent or answered.
    Request {
        /// The cause.
        cause: String,
    },
    /// The streamed response could not be read.
    Stream {
        /// The cause.
        cause: String,
    },
    /// The request was refused.
    Api {
        /// The HTTP status.
        status: String,
        /// The reason given.
        message: String,
    },
    /// The model is not available.
    ModelNotFound {
        /// The model that was requested.
        model: String,
        /// The models that are available.
        available_models: Vec<String>,
    },
    /// The response could not be decoded.
    Decode {
        /// The cause.
        cause: String,
    },
    /// The response ended early.
    IncompleteStream,
}

/// Names as a list of quoted texts.
pub open spec fn quoted_names(names: Seq<Seq<char>>) -> Seq<Seq<char>> {
    names.map_values(|name: Seq<char>| text::debug_text(name))
}

/// What an error is reported as.
pub open spec fn ollama_error_text(error: OllamaError) -> Seq<char> {
    match error {
        OllamaError::Request { cause } => "failed to communicate with Ollama: "@ + cause@,
        OllamaError::Stream { cause } => "failed to read Ollama's streamed response: "@ + cause@,
        OllamaError::Api { status, message } => "Ollama returned HTTP "@ + status@ + ": "@
            + message@,
        OllamaError::ModelNotFound { model, available_models } => "model `"@ + model@
            + "` not found; available models: ["@ + text::join(
            quoted_names(text::texts(available_models@)),
            ", "@,
        ) + "]"@,
        OllamaError::Decode { cause } => "failed to decode Ollama response: "@ + cause@,
        OllamaError::IncompleteStream =>
            "Ollama ended a streamed response before reporting completion"@,
    }
}

/// A label and a cause.
fn labelled(label: &str, cause: &str) -> (message: String)
    ensures
        message@ == label@ + cause@,
{
    let mut message = label.to_owned();
    message.append(cause);
    message
}

impl OllamaError {
    /// What the error is reported as.
    pub fn message(&self) -> (message: String)
        ensures
            message@ == ollama_error_text(*self),
    {
        match self {
            OllamaError::Request { cause } => {
                labelled("failed to communicate with Ollama: ", cause)
            },
            OllamaError::Stream { cause } => {
                labelled("failed to read Ollama's streamed response: ", cause)
            },
            OllamaError::Api { status, message } => {
                let mut report = labelled("Ollama returned HTTP ", status);
                report.append(": ");
                report.append(message);
                report
            },
            OllamaError::ModelNotFound { model, available_models } => {
                let mut quoted: Vec<String> = Vec::new();
                let ghost names = text::texts(available_models@);
                assert(text::texts(quoted@) =~= quoted_names(names.take(0)));
                for i in 0..available_models.len()
                    invariant
                        names == text::texts(available_models@),
                        text::texts(quoted@) == quoted_names(names.take(i as int)),
                {
                    let name = text::quoted(&available_models[i]);
                    proof {
                        text::lemma_texts_push(quoted@, name);
                    }
                    quoted.push(name);
                    assert(text::texts(quoted@) =~= quoted_names(names.take(i + 1)));
                }
                assert(names.take(names.len() as int) =~= names);
                let mut report = labelled("model `", model);
                report.append("` not found; available models: [");
                report.append(&text::joined(&quoted, ", "));
                report.append("]");
                report
            },
            OllamaError::Decode { cause } => labelled("failed to decode Ollama response: ", cause),
            OllamaError::IncompleteStream => {
                "Ollama ended a streamed response before reporting completion".to_owned()
            },
        }
    }

    /// The error of a refused request: the reason given in its body, or else the body itself.
    pub fn from_refusal(status: &str, reason: Option<&str>, body: &[u8]) -> (error: OllamaError)
        ensures
            match error {
                OllamaError::Api { status: reported, message } => reported@ == status@ && message@
                    == match reason {
                    Some(reason) => reason@,
                    None => text::lossy_utf8(body@),
                },
                _ => false,
            },
    {
        let message = match reason {
            Some(reason) => reason.to_owned(),
            None => text::lossy_text(body),
        };
        OllamaError::Api { status: status.to_owned(), message }
    }
}

/// Whether a model is among the available ones.
pub open spec fn is_available(models: Seq<Model>, name: Seq<char>) -> bool {
    exists|i: int|
        0 <= i < models.len() && model::normal_name((#[trigger] models[i]).model@)
            == model::normal_name(name)
}

/// The names of models.
pub open spec fn model_names(models: Seq<Model>) -> Seq<Seq<char>> {
    models.map_values(|model: Model| model.model@)
}

/// Explain a request for a model that was not found: the error stands where the available models
/// are not known or hold the model, for it then meant something else.
pub fn resolve_model_not_found(name: &str, original: OllamaError, models: Option<Vec<Model>>) -> (error:
    OllamaError)
    ensures
        match models {
            Some(models) => if is_available(models@, name@) {
                error == original
            } else {
                match error {
                    OllamaError::ModelNotFound { model, available_models } => model@ == name@
                        && text::texts(available_models@) == model_names(models@),
                    _ => false,
                }
            },
            None => error == original,
        },
{
    let found = match models {
        Some(found) => found,
        None => return original,
    };
    let ghost names = model_names(found@);
    let mut available_models: Vec<String> = Vec::new();
    assert(text::texts(available_models@) =~= names.take(0));
    for i in 0..found.len()
        invariant
            models == Some(found),
            names == model_names(found@),
            forall|j: int|
                0 <= j < i ==> model::normal_name((#[trigger] found@[j]).model@)
                    != model::normal_name(name@),
            text::texts(available_models@) == names.take(i as int),
    {
        if model::is_same_model(&found[i].model, name) {
            assert(is_available(found@, name@));
            return original;
        }
        let available = found[i].model.clone();
        proof {
            text::lemma_texts_push(available_models@, available);
        }
        available_models.push(available);
        assert(text::texts(available_models@) =~= names.take(i + 1));
    }
    assert(names.take(names.len() as int) =~= names);
    OllamaError::ModelNotFound { model: name.to_owned(), available_models }
}

/// A model is available under its own name, whether or not that names the latest version.
pub proof fn lemma_models_are_available_under_their_name(models: Seq<Model>, i: int)
    requires
        0 <= i < models.len(),
    ensures
        is_available(models, models[i].model@),
        !text::ends_with(models[i].model@, ":latest"@) ==> is_available(
            models,
            models[i].model@ + ":latest"@,
        ),
        !is_available(seq![], models[i].model@),
{
    if !text::ends_with(models[i].model@, ":latest"@) {
        model::lemma_latest_tag_is_implied(models[i].model@);
    }
}

} // verus!
