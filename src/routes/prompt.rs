use vstd::prelude::*;

use crate::files::{contents_for, opt_view};
use crate::llm::{chat_instruction, instruction};
use crate::qdrant::SearchHit;
use crate::state::Corpus;

verus! {

/// The body of a prompt request.
#[derive(Clone, Debug)]
pub struct Prompt {
    pub prompt: String,
}

/// Why a prompt got no answer.
#[derive(Clone, Copy, Debug, PartialEq, Eq, Structural)]
pub enum AnswerError {
    /// The prompt could not be embedded.
    Embedding,
    /// The index could not be queried.
    Index,
    /// The index holds no match.
    Retrieval,
    /// The match names no document of the corpus.
    NotFound,
    /// The model could not produce an answer.
    Generation,
}

/// The single fragment sent in place of an answer.
pub open spec fn error_text() -> Seq<char> {
    "Error with your prompt"@
}

/// The single fragment sent in place of an answer.
pub fn error_reply() -> (r: String)
    ensures
        r@ == error_text(),
{
    String::from_str("Error with your prompt")
}

impl AnswerError {
    /// What the caller is told: the same fragment for every error.
    pub fn reply(&self) -> (r: String)
        ensures
            r@ == error_text(),
    {
        error_reply()
    }
}

/// The context for an answer: the whole text of the document that the best
/// match names, in the corpus served now.
pub fn resolve_context(corpus: &Corpus, hit: Option<SearchHit>) -> (r: Result<String, AnswerError>)
    ensures
        hit is None ==> r == Err::<String, AnswerError>(AnswerError::Retrieval),
        hit matches Some(h) ==> match contents_for(corpus.documents(), h) {
            Some(c) => r matches Ok(s) && s@ == c,
            None => r == Err::<String, AnswerError>(AnswerError::NotFound),
        },
{
    match hit {
        None => Err(AnswerError::Retrieval),
        Some(h) => match corpus.get_contents(&h) {
            Some(c) => Ok(c),
            None => Err(AnswerError::NotFound),
        },
    }
}

/// The instruction for the model that answers `prompt`, grounded in the
/// document that the best match names.
pub fn answer_instruction(prompt: &str, corpus: &Corpus, hit: Option<SearchHit>) -> (r: Result<
    String,
    AnswerError,
>)
    ensures
        hit is None ==> r == Err::<String, AnswerError>(AnswerError::Retrieval),
        hit matches Some(h) ==> match contents_for(corpus.documents(), h) {
            Some(c) => r matches Ok(s) && s@ == instruction(prompt@, c),
            None => r == Err::<String, AnswerError>(AnswerError::NotFound),
        },
{
    let contents = resolve_context(corpus, hit)?;
    Ok(chat_instruction(prompt, contents.as_str()))
}

/// The text of one streamed delta: the content of each choice in turn, a
/// newline for a choice without content.
pub open spec fn delta_text(contents: Seq<Option<Seq<char>>>) -> Seq<char>
    decreases contents.len(),
{
    if contents.len() == 0 {
        Seq::empty()
    } else {
        delta_text(contents.drop_last()) + match contents.last() {
            Some(c) => c,
            None => seq!['\n'],
        }
    }
}

/// The fragment sent for one streamed delta, given the content of each of
/// its choices.
pub fn delta_fragment(contents: &Vec<Option<String>>) -> (r: String)
    ensures
        r@ == delta_text(contents@.map_values(|c: Option<String>| opt_view(c))),
{
    let ghost cs = contents@.map_values(|c: Option<String>| opt_view(c));
    let mut r = String::new();
    for i in 0..contents.len()
        invariant
            cs == contents@.map_values(|c: Option<String>| opt_view(c)),
            r@ == delta_text(cs.take(i as int)),
    {
        assert(cs.take(i + 1).drop_last() == cs.take(i as int));
        match &contents[i] {
            Some(c) => r.append(c.as_str()),
            None => r.append("\n"),
        }
        proof {
            reveal_strlit("\n");
        }
    }
    assert(cs.take(contents@.len() as int) == cs);
    r
}

} // verus!
