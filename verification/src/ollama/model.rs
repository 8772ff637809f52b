//! Model descriptions and names.

use vstd::prelude::*;

use crate::text;

verus! {

/// A Ollama model description.
#[derive(Debug, Clone, PartialEq, Eq)]
pub struct Model {
    /// The model's name.
    pub model: String,
    /// URL of the upstream Ollama host, if the model is remote.
    pub remote_host: Option<String>,
    /// Total size of the model on disk in bytes.
    pub size: u64,
}

impl Model {
    /// `true` if this is a local model.
    #[must_use]
    pub fn is_local(&self) -> (result: bool)
        ensures
            result == (self.remote_host is None),
    {
        match &self.remote_host {
            Some(_) => false,
            None => true,
        }
    }
}

/// A model currently resident in Ollama memory.
#[derive(Debug, Clone, PartialEq, Eq)]
pub struct RunningModel {
    /// Model name as reported by Ollama.
    pub model: String,
    /// Size of the model in bytes.
    pub size: u64,
    /// Time when the model will be unloaded.
    pub expires_at: String,
    /// VRAM usage in bytes
    pub size_vram: u64,
    /// Context window allocated to the running model.
    pub context_length: u32,
}

/// A model name without the tag `:latest`, which names the same model.
pub open spec fn normal_name(model: Seq<char>) -> Seq<char> {
    if text::ends_with(model, ":latest"@) {
        model.take(model.len() - ":latest"@.len())
    } else {
        model
    }
}

/// Remove the tag `:latest`.
pub fn normalize_model_name(model: &str) -> (name: String)
    ensures
        name@ == normal_name(model@),
{
    match text::before_suffix(model, ":latest") {
        Some(name) => name,
        None => model.to_owned(),
    }
}

/// Whether two names name the same model.
pub fn is_same_model(left: &str, right: &str) -> (result: bool)
    ensures
        result == (normal_name(left@) == normal_name(right@)),
{
    text::same_text(&normalize_model_name(left), &normalize_model_name(right))
}

/// Whether a running model is the named one with the given context length.
pub open spec fn runs(running: RunningModel, model: Seq<char>, context_length: u32) -> bool {
    normal_name(running.model@) == normal_name(model) && running.context_length == context_length
}

/// Returns `true` if there is the `model` contained in `models` with the given `context_length`.
#[must_use]
pub fn is_model_contained(model: &str, context_length: u32, models: &[RunningModel]) -> (result: bool)
    ensures
        result == exists|i: int|
            0 <= i < models@.len() && runs(#[trigger] models@[i], model@, context_length),
{
    for i in 0..models.len()
        invariant
            forall|j: int| 0 <= j < i ==> !runs(#[trigger] models@[j], model@, context_length),
    {
        if is_same_model(&models[i].model, model) && models[i].context_length == context_length {
            return true;
        }
    }
    false
}

/// A name and the name with the tag `:latest` name the same model.
pub proof fn lemma_latest_tag_is_implied(model: Seq<char>)
    requires
        !text::ends_with(model, ":latest"@),
    ensures
        normal_name(model + ":latest"@) == normal_name(model),
{
    let tagged = model + ":latest"@;
    assert(tagged.skip(tagged.len() - ":latest"@.len()) =~= ":latest"@);
    assert(tagged.take(tagged.len() - ":latest"@.len()) =~= model);
}

/// Models with other tags are other models: two names mean the same model exactly where they are
/// equal or differ in nothing but the tag for the latest version.
pub proof fn lemma_only_the_latest_tag_is_implied(left: Seq<char>, right: Seq<char>)
    requires
        !text::ends_with(left, ":latest"@),
        !text::ends_with(right, ":latest"@),
    ensures
        normal_name(left) == normal_name(right) <==> left == right,
        normal_name(left + ":latest"@) == normal_name(right) <==> left == right,
        normal_name(left + ":latest"@) == normal_name(right + ":latest"@) <==> left == right,
{
    lemma_latest_tag_is_implied(left);
    lemma_latest_tag_is_implied(right);
}

/// A running model serves a request exactly where it is the same model with that context window.
pub proof fn lemma_running_models_serve_their_own_window(
    running: RunningModel,
    model: Seq<char>,
    context_length: u32,
)
    ensures
        runs(running, model, context_length) ==> running.context_length == context_length,
        running.model@ == model && running.context_length == context_length ==> runs(
            running,
            model,
            context_length,
        ),
        normal_name(running.model@) != normal_name(model) ==> !runs(running, model, context_length),
{
}

} // verus!
