use vstd::prelude::*;
use vstd::string::*;
use crate::schema::CategorySchema;
use crate::validate::{
    ClassificationResult, ValidationError, Invalid, completion_result, outcome_view,
    parse_completion,
};

verus! {

/// The bound on the length of the model's answer, in tokens.
pub const MAX_TOKENS: u16 = 512;

/// One classification request: a single system message, sent to `model`,
/// with an answer of at most `max_tokens` tokens, sampled deterministically.
pub struct ChatRequest {
    pub model: String,
    pub max_tokens: u16,
    pub system_message: String,
}

/// The request that asks the `gpt-4` model to classify one file by `prompt`.
pub fn chat_request(prompt: String) -> (r: ChatRequest)
    ensures
        r.model@ == "gpt-4"@,
        r.max_tokens == MAX_TOKENS,
        r.system_message@ == prompt@,
{
    ChatRequest { model: String::from_str("gpt-4"), max_tokens: MAX_TOKENS, system_message: prompt }
}

/// The outcome of classifying by the contents of a response's choices, in
/// order: the first choice's text, validated, or `NoCompletion` where there is
/// no first choice or it has no text.
pub open spec fn response_result(
    s: Seq<(Seq<char>, Seq<Seq<char>>)>,
    choices: Seq<Option<Seq<char>>>,
) -> Result<(Seq<char>, Seq<(Seq<char>, Seq<char>)>), Invalid> {
    if choices.len() == 0 {
        Err(Invalid::NoCompletion)
    } else {
        match choices[0] {
            None => Err(Invalid::NoCompletion),
            Some(t) => completion_result(s, t),
        }
    }
}

/// The model of the contents of a response's choices.
pub open spec fn choices_view(v: Seq<Option<String>>) -> Seq<Option<Seq<char>>> {
    v.map_values(
        |c: Option<String>|
            match c {
                Some(t) => Some(t@),
                None => None,
            },
    )
}

/// Classifies a file by the model's response, given as the text of each
/// choice: the first choice is validated against `schema`.
pub fn classify_response(schema: &CategorySchema, choices: Vec<Option<String>>) -> (r: Result<
    ClassificationResult,
    ValidationError,
>)
    ensures
        outcome_view(r) == response_result(schema@, choices_view(choices@)),
{
    if choices.len() == 0 {
        return Err(ValidationError::NoCompletion);
    }
    match &choices[0] {
        None => Err(ValidationError::NoCompletion),
        Some(text) => parse_completion(schema, text.as_str()),
    }
}

} // verus!
