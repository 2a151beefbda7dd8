# asr_decoder

The configuration checks, stream state and SentencePiece hotword
tokenization of a streaming CTC decoder, verified with Verus.

- `src/wire.rs`: Protocol Buffers varints, keys, length prefixes and the
  skipping of unknown fields and groups.
- `src/model_proto.rs`: the piece list of a serialized SentencePiece model,
  with the schema's wire types and UTF-8 checked, and the message of a
  decoding error (its cause and the fields it was found in).
- `src/text.rs`: Unicode white space, trimming, the word-boundary mark.
- `src/tokenizer.rs`: word-boundary token IDs of a model, the encoding
  requests for hotwords, and the mapping of encoded pieces to acoustic token
  IDs through an optional symbol table.
- `src/decoder.rs`: decoder configuration checks, the per-stream state, the
  decode-mode lock and the vocabulary check.
- `app/`: reading model files, running the SentencePiece processor, and the
  floating-point parts (frame checks, millisecond timestamps).

The SentencePiece processor runs outside the library: the caller loads the
model into it and hands the outcome to `from_serialized_proto`; the
tokenizer says which texts to encode (`encode_requests`), the caller encodes
them and hands the pieces to `tokenize` (or, for text hotwords, to
`CTCDecoder::new`, which checks that they answer the requests).
