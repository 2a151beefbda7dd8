//! A model-agnostic streaming CTC decoder: configuration checks, stream
//! state, and SentencePiece hotword tokenization over plain values.

pub mod decoder;
pub mod error;
pub mod model_proto;
pub mod text;
pub mod tokenizer;
pub mod wire;

pub use decoder::{
    CTCDecoder, DecodeMode, DecoderConfig, DecodingQuality, HotwordStrength, PrefixBeamSearchOptions,
};
pub use error::{DecoderError, TokenizerError};
pub use vstd::hash_map::StringHashMap;
pub use tokenizer::{
    EncodeRequest, EncodedContext, EncodedPiece, SentencePieceConfig, SentencePieceTokenization,
    SentencePieceTokenizer,
};
