//! What the answer path asks of an embedding and generation backend.
pub mod candle;
pub mod open_ai;

use vstd::prelude::*;

verus! {

/// The instruction that the model is given: the user's prompt, then the
/// retrieved context verbatim, then the request to be concise.
pub open spec fn instruction(prompt: Seq<char>, contents: Seq<char>) -> Seq<char> {
    prompt + "\n Context: "@ + contents + "\n Be concise"@
}

/// Composes the instruction for a prompt and its retrieved context.
pub fn chat_instruction(prompt: &str, contents: &str) -> (r: String)
    ensures
        r@ == instruction(prompt@, contents@),
{
    let mut s = prompt.to_owned();
    s.append("\n Context: ");
    s.append(contents);
    s.append("\n Be concise");
    s
}

} // verus!
