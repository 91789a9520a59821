use std::collections::HashMap;

use ballista::llm::candle::{piece_after, text_after, TokenOutputStream};
use tokenizers::decoders::bpe::BPEDecoder;
use tokenizers::decoders::strip::Strip;
use tokenizers::decoders::sequence::Sequence;
use tokenizers::models::wordlevel::WordLevel;
use tokenizers::Tokenizer;

fn word_tokenizer() -> Tokenizer {
    let mut vocab = HashMap::new();
    vocab.insert("hello".to_string(), 0u32);
    vocab.insert("world".to_string(), 1u32);
    vocab.insert("!".to_string(), 2u32);
    vocab.insert("[UNK]".to_string(), 3u32);
    let model = WordLevel::builder()
        .vocab(vocab)
        .unk_token("[UNK]".to_string())
        .build()
        .unwrap();
    Tokenizer::new(model)
}

#[test]
fn pieces_follow_tokens() {
    let mut stream = TokenOutputStream::new(word_tokenizer()).ok().unwrap();
    assert_eq!(stream.next_token(0).unwrap(), Some("hello".to_string()));
    assert_eq!(stream.next_token(1).unwrap(), Some(" world".to_string()));
    assert_eq!(stream.next_token(2).unwrap(), None);
    assert_eq!(stream.decode_rest().unwrap(), Some(" !".to_string()));
    assert_eq!(stream.decode_all().unwrap(), "hello world !");
}

#[test]
fn vocabulary_lookup() {
    let stream = TokenOutputStream::new(word_tokenizer()).ok().unwrap();
    assert_eq!(stream.get_token("world"), Some(1));
    assert_eq!(stream.get_token("absent"), None);
}

#[test]
fn clear_forgets_tokens() {
    let mut stream = TokenOutputStream::new(word_tokenizer()).ok().unwrap();
    stream.next_token(0).unwrap();
    stream.clear();
    assert_eq!(stream.decode_all().unwrap(), "");
    assert_eq!(stream.decode_rest().unwrap(), None);
    let tok = stream.into_inner();
    assert_eq!(tok.token_to_id("hello"), Some(0));
}

#[test]
fn piece_needs_alphanumeric_end() {
    assert_eq!(piece_after("hel", "hello"), Some("lo".to_string()));
    assert_eq!(piece_after("hello", "hello,"), None);
    assert_eq!(piece_after("hello", "hello"), None);
    assert_eq!(piece_after("", "é1"), Some("é1".to_string()));
}

#[test]
fn rest_starts_at_a_character() {
    assert_eq!(text_after("a", "ab,"), Some("b,".to_string()));
    assert_eq!(text_after("x", "é"), None);
    assert_eq!(text_after("abc", "ab"), None);
}

#[test]
fn stripping_decoders_are_refused() {
    let mut tok = word_tokenizer();
    tok.with_decoder(Strip::new(' ', 1, 1));
    assert!(TokenOutputStream::new(tok).is_err());
    let mut tok = word_tokenizer();
    tok.with_decoder(Sequence::new(vec![Strip::new(' ', 1, 1).into()]));
    assert!(TokenOutputStream::new(tok).is_err());
    let mut tok = word_tokenizer();
    tok.with_decoder(BPEDecoder::default());
    assert!(TokenOutputStream::new(tok).is_err());
}
