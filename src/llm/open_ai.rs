//! The remote-API backend.
use vstd::prelude::*;

verus! {

/// The chat model that answers are generated with.
pub const CHAT_MODEL: &'static str = "gpt-3.5-turbo";

/// The model that chunks and prompts are embedded with.
pub const EMBEDDING_MODEL: &'static str = "text-embedding-ada-002";

/// The user name sent along with each request.
pub const USER: &'static str = "josh";

/// The backend that embeds and generates through the remote API.
#[derive(Clone, Copy, Debug)]
pub struct OpenAIBackend;

} // verus!
