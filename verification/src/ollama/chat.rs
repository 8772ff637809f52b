//! Messages of a chat.

use vstd::prelude::*;
use vstd::string::StringExecFns;

verus! {

/// Who says a message.
#[derive(Debug, Clone, Copy, PartialEq, Eq, Structural)]
pub enum Role {
    /// Instructions to the model.
    System,
    /// The request.
    User,
}

/// A message sent to a model.
#[derive(Debug, Clone, PartialEq, Eq)]
pub struct Message {
    /// Who says it.
    pub role: Role,
    /// What is said.
    pub content: String,
}

/// One event of a streamed response.
#[derive(Debug, Clone, PartialEq, Eq)]
pub enum ChatEvent {
    /// The response began.
    ResponseStarted,
    /// A fragment of reasoning.
    Thinking(String),
    /// A fragment of the answer.
    Generating(String),
}

/// The message of a completed response.
#[derive(Debug, Clone, PartialEq, Eq)]
pub struct ResponseMessage {
    /// The answer.
    pub content: String,
    /// The reasoning, if any.
    pub thinking: Option<String>,
}

/// A completed response.
#[derive(Debug, Clone, PartialEq, Eq)]
pub struct ChatResponse {
    /// The message.
    pub message: ResponseMessage,
    /// Why the model stopped, if reported.
    pub done_reason: Option<String>,
    /// Number of prompt tokens, if reported.
    pub prompt_eval_count: Option<u64>,
    /// Number of generated tokens, if reported.
    pub eval_count: Option<u64>,
}

/// A count that is zero where it is not reported.
pub open spec fn reported(count: Option<u64>) -> u64 {
    match count {
        Some(count) => count,
        None => 0,
    }
}

/// The tokens of the prompt and the answer, as far as reported.
pub open spec fn all_tokens(response: ChatResponse) -> nat {
    let sum = reported(response.prompt_eval_count) + reported(response.eval_count);
    if sum > u64::MAX {
        u64::MAX as nat
    } else {
        sum as nat
    }
}

impl ChatResponse {
    /// The tokens of the prompt and the answer, as far as reported.
    pub fn total_tokens(&self) -> (total: u64)
        ensures
            total == all_tokens(*self),
    {
        let prompt = match self.prompt_eval_count {
            Some(count) => count,
            None => 0,
        };
        let answer = match self.eval_count {
            Some(count) => count,
            None => 0,
        };
        prompt.saturating_add(answer)
    }
}

/// One part of a streamed response.
#[derive(Debug, Clone, PartialEq, Eq)]
pub struct ChatChunk {
    /// A fragment of the answer, or nothing.
    pub content: String,
    /// A fragment of reasoning, if any.
    pub thinking: Option<String>,
    /// Whether this is the last part.
    pub done: bool,
    /// Why the model stopped, if reported.
    pub done_reason: Option<String>,
    /// Number of prompt tokens, if reported.
    pub prompt_eval_count: Option<u64>,
    /// Number of generated tokens, if reported.
    pub eval_count: Option<u64>,
}

/// What was streamed so far.
#[derive(Debug)]
pub struct StreamedMessage {
    /// The answer.
    pub content: String,
    /// The reasoning, if any.
    pub thinking: Option<String>,
}

/// What an optional text holds.
pub open spec fn optional_chars(text: Option<String>) -> Option<Seq<char>> {
    match text {
        Some(text) => Some(text@),
        None => None,
    }
}

/// The fragment of reasoning in a part, where there is one that is not empty.
pub open spec fn reasoning(chunk: ChatChunk) -> Option<Seq<char>> {
    match chunk.thinking {
        Some(fragment) => if fragment@.len() > 0 {
            Some(fragment@)
        } else {
            None
        },
        None => None,
    }
}

/// Reasoning with one more fragment.
pub open spec fn extended(before: Option<Seq<char>>, fragment: Option<Seq<char>>) -> Option<
    Seq<char>,
> {
    match (before, fragment) {
        (Some(before), Some(fragment)) => Some(before + fragment),
        (None, Some(fragment)) => Some(fragment),
        (before, None) => before,
    }
}

/// Whether events are those of one part: its reasoning, and then its answer, where not empty.
pub open spec fn are_events_of(events: Seq<ChatEvent>, chunk: ChatChunk) -> bool {
    let thinks = reasoning(chunk) is Some;
    let answers = chunk.content@.len() > 0;
    &&& events.len() == (if thinks {
        1int
    } else {
        0
    }) + (if answers {
        1int
    } else {
        0
    })
    &&& thinks ==> (events[0] matches ChatEvent::Thinking(fragment) && Some(fragment@)
        == reasoning(chunk))
    &&& answers ==> (events.last() matches ChatEvent::Generating(fragment) && fragment@
        == chunk.content@)
}

impl StreamedMessage {
    /// Nothing was streamed yet.
    pub fn new() -> (message: StreamedMessage)
        ensures
            message.content@.len() == 0,
            message.thinking is None,
    {
        StreamedMessage { content: String::new(), thinking: None }
    }

    /// Take one part of the response, and return its events.
    pub fn push(&mut self, chunk: &ChatChunk) -> (events: Vec<ChatEvent>)
        ensures
            final(self).content@ == old(self).content@ + chunk.content@,
            optional_chars(final(self).thinking) == extended(
                optional_chars(old(self).thinking),
                reasoning(*chunk),
            ),
            are_events_of(events@, *chunk),
    {
        let mut events: Vec<ChatEvent> = Vec::new();
        if let Some(fragment) = &chunk.thinking {
            if !fragment.as_str().is_empty() {
                let mut thinking = match &self.thinking {
                    Some(before) => before.clone(),
                    None => String::new(),
                };
                thinking.append(fragment);
                assert(Some(thinking@) == extended(
                    optional_chars(self.thinking),
                    Some(fragment@),
                )) by {
                    assert(Seq::<char>::empty() + fragment@ =~= fragment@);
                }
                self.thinking = Some(thinking);
                events.push(ChatEvent::Thinking(fragment.clone()));
            }
        }
        if !chunk.content.as_str().is_empty() {
            self.content.append(&chunk.content);
            events.push(ChatEvent::Generating(chunk.content.clone()));
        } else {
            assert(self.content@ + chunk.content@ =~= self.content@);
        }
        events
    }

    /// The whole response, once its last part has come.
    pub fn finish(self, last: ChatChunk) -> (response: ChatResponse)
        ensures
            response.message.content == self.content,
            response.message.thinking == self.thinking,
            response.done_reason == last.done_reason,
            response.prompt_eval_count == last.prompt_eval_count,
            response.eval_count == last.eval_count,
    {
        ChatResponse {
            message: ResponseMessage { content: self.content, thinking: self.thinking },
            done_reason: last.done_reason,
            prompt_eval_count: last.prompt_eval_count,
            eval_count: last.eval_count,
        }
    }
}

/// Thinking adds up over the parts of a response; parts without any change nothing.
pub proof fn lemma_thinking_adds_up(
    before: Option<Seq<char>>,
    first: Option<Seq<char>>,
    second: Option<Seq<char>>,
)
    ensures
        extended(extended(before, first), second) == extended(before, extended(first, second)),
        extended(before, None) == before,
        extended(None, first) == first,
        before is Some && first is Some ==> extended(before, first) == Some(before->0 + first->0),
{
    if before is Some && first is Some && second is Some {
        assert(before->0 + first->0 + second->0 =~= before->0 + (first->0 + second->0));
    }
}

/// The total counts the tokens of the prompt and of the answer, each as zero where it is not
/// reported.
pub proof fn lemma_totals_count_prompt_and_answer(response: ChatResponse)
    ensures
        response.prompt_eval_count matches Some(prompt) && response.eval_count matches Some(answer)
            && prompt + answer <= u64::MAX ==> all_tokens(response)
            == response.prompt_eval_count->0 + response.eval_count->0,
        response.prompt_eval_count is None ==> all_tokens(response) == reported(
            response.eval_count,
        ),
        response.eval_count is None ==> all_tokens(response) == reported(
            response.prompt_eval_count,
        ),
        response.eval_count is None && response.prompt_eval_count is None ==> all_tokens(response)
            == 0,
{
}

/// Each part of a response is announced: its reasoning and its answer each where there is any, the
/// reasoning first, and nothing else.
pub proof fn lemma_every_fragment_is_announced(events: Seq<ChatEvent>, chunk: ChatChunk)
    requires
        are_events_of(events, chunk),
    ensures
        chunk.content@.len() > 0 ==> events.len() > 0 && (events.last() matches
            ChatEvent::Generating(fragment) && fragment@ == chunk.content@),
        chunk.thinking matches Some(thinking) && thinking@.len() > 0 ==> events.len() > 0 && (
        events[0] matches ChatEvent::Thinking(fragment) && fragment@ == chunk.thinking->0@),
        chunk.content@.len() == 0 && (chunk.thinking is None || chunk.thinking->0@.len() == 0)
            ==> events.len() == 0,
        events.len() <= 2,
{
}

} // verus!
