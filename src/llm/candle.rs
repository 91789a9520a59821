//! Streaming decode for a local model: hands out the text of generated
//! tokens piece by piece, as soon as a piece ends in a letter or digit.
use vstd::prelude::*;
use vstd::utf8::{decode_utf8, encode_utf8, is_char_boundary};

use tokenizers::Tokenizer;

use crate::files::opt_view;

verus! {

broadcast use vstd::utf8::encode_utf8_decode_utf8;

/// Declares `tokenizers::Tokenizer`, which the stream carries through
/// without looking inside.
#[verifier::external_type_specification]
#[verifier::external_body]
pub struct ExTokenizer(tokenizers::Tokenizer);

/// The tokenizer could not turn the token ids back into text.
#[derive(Clone, Copy, Debug, PartialEq, Eq, Structural)]
pub struct DecodeError;

/// Whether a character is a letter or a digit, as `char::is_alphanumeric`
/// tells.
pub uninterp spec fn is_alnum(c: char) -> bool;

/// Relies on `char::is_alphanumeric`: the answer depends on the character
/// alone.
#[verifier::external_body]
fn alphanumeric(c: char) -> (r: bool)
    ensures
        r == is_alnum(c),
{
    c.is_alphanumeric()
}

/// Whether a tokenizer's decoder is one that can panic while decoding:
/// `Strip`, on a token shorter than what it strips; `BPE`, on an empty list
/// of tokens; or a `Sequence`, which may hold either.
pub uninterp spec fn may_panic(t: Tokenizer) -> bool;

/// Relies on `Tokenizer::get_decoder`, telling its variants apart.
#[verifier::external_body]
fn decoder_may_panic(tokenizer: &Tokenizer) -> (r: bool)
    ensures
        r == may_panic(*tokenizer),
{
    match tokenizer.get_decoder() {
        Some(tokenizers::decoders::DecoderWrapper::Strip(_)) => true,
        Some(tokenizers::decoders::DecoderWrapper::BPE(_)) => true,
        Some(tokenizers::decoders::DecoderWrapper::Sequence(_)) => true,
        _ => false,
    }
}

/// What `Tokenizer::decode` gives for `ids` with special tokens skipped:
/// the text, or `None` where decoding fails.
pub uninterp spec fn decoded(t: Tokenizer, ids: Seq<u32>) -> Option<Seq<char>>;

/// The id that a token has in the tokenizer's vocabulary, added tokens
/// included.
pub uninterp spec fn vocab_lookup(t: Tokenizer, token: Seq<char>) -> Option<u32>;

/// Relies on `Tokenizer::decode` with special tokens skipped: the result
/// depends on the tokenizer and the ids alone. It is kept from tokenizers
/// whose decoder can panic.
#[verifier::external_body]
fn decode_ids(tokenizer: &Tokenizer, ids: &[u32]) -> (r: Option<String>)
    requires
        !may_panic(*tokenizer),
    ensures
        opt_view(r) == decoded(*tokenizer, ids@),
{
    tokenizer.decode(ids, true).ok()
}

/// Relies on `Tokenizer::get_vocab` with added tokens: the id of a token,
/// looked up in that vocabulary.
#[verifier::external_body]
fn vocab_id(tokenizer: &Tokenizer, token: &str) -> (r: Option<u32>)
    ensures
        r == vocab_lookup(*tokenizer, token@),
{
    tokenizer.get_vocab(true).get(token).copied()
}

/// The piece of text that decoding more tokens adds to `prev`: the bytes of
/// `text` past those of `prev`, when there are more of them, they start at
/// a character, and `text` ends in a letter or digit.
pub open spec fn fresh_piece(prev: Seq<char>, text: Seq<char>) -> Option<Seq<char>> {
    let pb = encode_utf8(prev);
    let tb = encode_utf8(text);
    if tb.len() > pb.len() && is_char_boundary(tb, pb.len() as int) && text.len() > 0 && is_alnum(
        text.last(),
    ) {
        Some(decode_utf8(tb.subrange(pb.len() as int, tb.len() as int)))
    } else {
        None
    }
}

/// The text past `prev` that `text` holds, when there is more of it and it
/// starts at a character.
pub open spec fn rest_after(prev: Seq<char>, text: Seq<char>) -> Option<Seq<char>> {
    let pb = encode_utf8(prev);
    let tb = encode_utf8(text);
    if tb.len() > pb.len() && is_char_boundary(tb, pb.len() as int) {
        Some(decode_utf8(tb.subrange(pb.len() as int, tb.len() as int)))
    } else {
        None
    }
}

/// The text past `prev_text` that `text` holds, when there is more of it
/// and it starts at a character.
pub fn text_after(prev_text: &str, text: &str) -> (r: Option<String>)
    ensures
        opt_view(r) == rest_after(prev_text@, text@),
{
    let pb = prev_text.as_bytes();
    let tb = text.as_bytes();
    let pl = pb.len();
    if tb.len() <= pl || !text.is_char_boundary(pl) {
        return None;
    }
    let (_, rest) = text.split_at(pl);
    proof {
        assert(decode_utf8(encode_utf8(rest@)) == rest@);
    }
    Some(rest.to_owned())
}

/// The piece to hand out after a token: see [`fresh_piece`].
pub fn piece_after(prev_text: &str, text: &str) -> (r: Option<String>)
    ensures
        opt_view(r) == fresh_piece(prev_text@, text@),
{
    let n = text.unicode_len();
    if n == 0 || !alphanumeric(text.get_char(n - 1)) {
        return None;
    }
    text_after(prev_text, text)
}

/// The text of a decoding outcome.
pub open spec fn res_view(r: Result<String, DecodeError>) -> Option<Seq<char>> {
    match r {
        Ok(s) => Some(s@),
        Err(_) => None,
    }
}

/// Wraps a tokenizer so that generated tokens can be handed out as text
/// while they come, rather than once decoding is over.
pub struct TokenOutputStream {
    tokenizer: Tokenizer,
    tokens: Vec<u32>,
    prev_index: usize,
    current_index: usize,
}

impl TokenOutputStream {
    /// The window lies within the tokens, and the tokenizer's decoder
    /// cannot panic.
    pub closed spec fn wf(&self) -> bool {
        &&& self.prev_index <= self.current_index <= self.tokens@.len()
        &&& !may_panic(self.tokenizer)
    }

    /// The tokens generated so far.
    pub closed spec fn tokens_spec(&self) -> Seq<u32> {
        self.tokens@
    }

    /// Where the text not yet handed out begins, and ends, in the tokens.
    pub closed spec fn window(&self) -> (int, int) {
        (self.prev_index as int, self.current_index as int)
    }

    pub closed spec fn tokenizer_spec(&self) -> Tokenizer {
        self.tokenizer
    }

    /// A stream over `tokenizer`, or the tokenizer back where its decoder
    /// can panic, which this stream does not decode with.
    pub fn new(tokenizer: Tokenizer) -> (r: Result<TokenOutputStream, Tokenizer>)
        ensures
            may_panic(tokenizer) ==> r == Err::<TokenOutputStream, Tokenizer>(tokenizer),
            !may_panic(tokenizer) ==> (r matches Ok(t) && t.wf() && t.tokens_spec().len() == 0
                && t.window() == (0int, 0int) && t.tokenizer_spec() == tokenizer),
    {
        if decoder_may_panic(&tokenizer) {
            return Err(tokenizer);
        }
        Ok(TokenOutputStream { tokenizer, tokens: Vec::new(), prev_index: 0, current_index: 0 })
    }

    pub fn into_inner(self) -> (r: Tokenizer)
        ensures
            r == self.tokenizer_spec(),
    {
        self.tokenizer
    }

    /// The text of the handed-out window, empty before any token.
    pub closed spec fn window_spec(&self) -> Option<Seq<char>> {
        if self.tokens@.len() == 0 {
            Some(Seq::empty())
        } else {
            decoded(self.tokenizer, self.tokens@.subrange(self.prev_index as int, self.current_index as int))
        }
    }

    /// The text of every token from the start of the window on.
    pub closed spec fn pending_spec(&self) -> Option<Seq<char>> {
        decoded(self.tokenizer, self.tokens@.subrange(self.prev_index as int, self.tokens@.len() as int))
    }

    fn decode(&self, tokens: &[u32]) -> (r: Result<String, DecodeError>)
        requires
            self.wf(),
        ensures
            res_view(r) == decoded(self.tokenizer, tokens@),
    {
        match decode_ids(&self.tokenizer, tokens) {
            Some(s) => Ok(s),
            None => Err(DecodeError),
        }
    }

    fn window_text(&self) -> (r: Result<String, DecodeError>)
        requires
            self.wf(),
        ensures
            res_view(r) == self.window_spec(),
    {
        if self.tokens.len() == 0 {
            Ok(String::new())
        } else {
            let ids = vstd::slice::slice_subrange(
                self.tokens.as_slice(),
                self.prev_index,
                self.current_index,
            );
            self.decode(ids)
        }
    }

    fn pending_text(&self) -> (r: Result<String, DecodeError>)
        requires
            self.wf(),
        ensures
            res_view(r) == self.pending_spec(),
    {
        let ids = vstd::slice::slice_subrange(
            self.tokens.as_slice(),
            self.prev_index,
            self.tokens.len(),
        );
        self.decode(ids)
    }

    /// Takes one generated token and hands out the text it completes, if
    /// any: the piece that [`fresh_piece`] finds between the window's text
    /// and the text from the window's start through the new token. Once a
    /// piece is handed out the window moves past it. Where the window's
    /// text cannot be decoded nothing changes; where the longer text cannot,
    /// the token is kept and the window stays.
    pub fn next_token(&mut self, token: u32) -> (r: Result<Option<String>, DecodeError>)
        requires
            old(self).wf(),
        ensures
            final(self).wf(),
            final(self).tokenizer_spec() == old(self).tokenizer_spec(),
            old(self).window_spec() is None ==> {
                &&& r is Err
                &&& final(self).tokens_spec() == old(self).tokens_spec()
                &&& final(self).window() == old(self).window()
            },
            old(self).window_spec() is Some ==> final(self).tokens_spec() == old(
                self,
            ).tokens_spec().push(token),
            old(self).window_spec() is Some ==> match decoded(
                old(self).tokenizer_spec(),
                old(self).tokens_spec().push(token).subrange(
                    old(self).window().0,
                    old(self).tokens_spec().len() + 1 as int,
                ),
            ) {
                None => r is Err && final(self).window() == old(self).window(),
                Some(text) => match fresh_piece(old(self).window_spec()->0, text) {
                    Some(piece) => r matches Ok(Some(x)) && x@ == piece && final(self).window() == (
                        old(self).window().1,
                        old(self).tokens_spec().len() + 1 as int,
                    ),
                    None => r == Ok::<Option<String>, DecodeError>(None) && final(self).window()
                        == old(self).window(),
                },
            },
    {
        let prev_text = self.window_text()?;
        self.tokens.push(token);
        let text = self.pending_text()?;
        match piece_after(prev_text.as_str(), text.as_str()) {
            Some(piece) => {
                self.prev_index = self.current_index;
                self.current_index = self.tokens.len();
                Ok(Some(piece))
            },
            None => Ok(None),
        }
    }

    /// The text past the window that is not handed out yet, whatever it
    /// ends with: what [`rest_after`] finds between the window's text and
    /// the text from the window's start on.
    pub fn decode_rest(&self) -> (r: Result<Option<String>, DecodeError>)
        requires
            self.wf(),
        ensures
            match (self.window_spec(), self.pending_spec()) {
                (Some(a), Some(b)) => r matches Ok(x) && opt_view(x) == rest_after(a, b),
                _ => r is Err,
            },
    {
        let prev_text = self.window_text()?;
        let text = self.pending_text()?;
        Ok(text_after(prev_text.as_str(), text.as_str()))
    }

    /// The text of every token so far.
    pub fn decode_all(&self) -> (r: Result<String, DecodeError>)
        requires
            self.wf(),
        ensures
            res_view(r) == decoded(self.tokenizer_spec(), self.tokens_spec()),
    {
        self.decode(self.tokens.as_slice())
    }

    /// The id of a token in the tokenizer's vocabulary.
    pub fn get_token(&self, token_s: &str) -> (r: Option<u32>)
        ensures
            r == vocab_lookup(self.tokenizer_spec(), token_s@),
    {
        vocab_id(&self.tokenizer, token_s)
    }

    pub fn tokenizer(&self) -> (r: &Tokenizer)
        ensures
            *r == self.tokenizer_spec(),
    {
        &self.tokenizer
    }

    /// Forgets every token, keeping the tokenizer.
    pub fn clear(&mut self)
        requires
            old(self).wf(),
        ensures
            final(self).wf(),
            final(self).tokens_spec().len() == 0,
            final(self).window() == (0int, 0int),
            final(self).tokenizer_spec() == old(self).tokenizer_spec(),
    {
        self.tokens.clear();
        self.prev_index = 0;
        self.current_index = 0;
    }
}

} // verus!
