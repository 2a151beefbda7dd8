use std::collections::HashSet;

use asr_decoder::model_proto::parse_model_pieces;
use asr_decoder::{
    CTCDecoder, DecoderConfig, EncodeRequest, EncodedContext, EncodedPiece, SentencePieceConfig,
    SentencePieceTokenizer, TokenizerError,
};
use prost::encoding::{encode_key, encode_varint, WireType};
use asr_decoder::StringHashMap;

const WORD_BOUNDARY: &str = "\u{2581}";

fn message(tag: u32, body: &[u8], out: &mut Vec<u8>) {
    encode_key(tag, WireType::LengthDelimited, out);
    encode_varint(body.len() as u64, out);
    out.extend_from_slice(body);
}

fn piece(text: &str, score: f32, piece_type: i32) -> Vec<u8> {
    let mut body = Vec::new();
    prost::encoding::string::encode(1, &text.to_owned(), &mut body);
    prost::encoding::float::encode(2, &score, &mut body);
    prost::encoding::int32::encode(3, &piece_type, &mut body);
    body
}

/// The model of the SentencePiece tests: seven pieces, a trainer spec and
/// an identity normalizer.
fn test_model() -> Vec<u8> {
    let mut model = Vec::new();
    for (text, score, piece_type) in [
        ("<unk>", 0.0, 2),
        (WORD_BOUNDARY, -10.0, 1),
        ("l", -1.0, 1),
        ("i", -1.0, 1),
        ("v", -1.0, 1),
        ("e", -1.0, 1),
        ("\u{2581}live", 0.0, 1),
    ] {
        message(1, &piece(text, score, piece_type), &mut model);
    }
    let mut trainer = Vec::new();
    prost::encoding::int32::encode(3, &1, &mut trainer);
    prost::encoding::int32::encode(4, &7, &mut trainer);
    prost::encoding::int32::encode(40, &0, &mut trainer);
    prost::encoding::int32::encode(41, &-1, &mut trainer);
    prost::encoding::int32::encode(42, &-1, &mut trainer);
    prost::encoding::int32::encode(43, &-1, &mut trainer);
    message(2, &trainer, &mut model);
    let mut normalizer = Vec::new();
    prost::encoding::string::encode(1, &"identity".to_owned(), &mut normalizer);
    prost::encoding::bool::encode(3, &false, &mut normalizer);
    prost::encoding::bool::encode(4, &false, &mut normalizer);
    prost::encoding::bool::encode(5, &true, &mut normalizer);
    message(3, &normalizer, &mut model);
    model
}

fn pieces(list: &[(&str, u32)]) -> Vec<EncodedPiece> {
    list.iter().map(|(p, id)| EncodedPiece { piece: (*p).to_owned(), id: *id }).collect()
}

/// What the SentencePiece processor gives for the test model, which has no
/// dummy prefix and an identity normalizer.
fn encode_with_test_model(text: &str) -> Result<Vec<EncodedPiece>, String> {
    match text {
        "live" => Ok(pieces(&[("l", 2), ("i", 3), ("v", 4), ("e", 5)])),
        "\u{2581}live" => Ok(pieces(&[("\u{2581}live", 6)])),
        other => Err(format!("no encoding for {other:?}")),
    }
}

fn encode_all(
    requests: Vec<EncodeRequest>,
    encode: impl Fn(&str) -> Result<Vec<EncodedPiece>, String>,
) -> Vec<EncodedContext> {
    requests
        .into_iter()
        .map(|request| EncodedContext {
            raw: encode(&request.text),
            marked: request.marked_text.as_deref().map(&encode),
            text: request.text,
        })
        .collect()
}

fn table(entries: &[(&str, usize)]) -> StringHashMap<usize> {
    let mut map = StringHashMap::new();
    for (piece, id) in entries {
        map.insert((*piece).to_owned(), *id);
    }
    map
}

fn context_token_ids(
    tokenizer: &SentencePieceTokenizer,
    contexts: &[String],
) -> Result<Vec<Vec<usize>>, TokenizerError> {
    let encoded = encode_all(tokenizer.encode_requests(contexts), encode_with_test_model);
    tokenizer.tokenize(&encoded).map(|t| t.context_token_ids)
}

#[test]
fn reads_every_piece_of_the_model() {
    let pieces = parse_model_pieces(&test_model()).unwrap();
    let texts: Vec<&str> = pieces.iter().map(|p| p.as_deref().unwrap()).collect();
    assert_eq!(
        texts,
        vec!["<unk>", WORD_BOUNDARY, "l", "i", "v", "e", "\u{2581}live"]
    );
}

#[test]
fn tokenizes_with_exact_sentencepiece_ids_and_word_boundaries() {
    let model = test_model();
    let tokenizer =
        SentencePieceTokenizer::from_serialized_proto(&model, SentencePieceConfig::default(), Ok(()))
            .unwrap();
    let contexts = vec!["live".to_owned()];
    let encoded = encode_all(tokenizer.encode_requests(&contexts), encode_with_test_model);
    let tokenization = tokenizer.tokenize(&encoded).unwrap();
    assert_eq!(tokenization.context_token_ids, vec![vec![6]]);
    assert_eq!(tokenization.word_boundary_token_ids, HashSet::from([1, 6]));

    let substring_tokenizer = SentencePieceTokenizer::from_serialized_proto(
        &model,
        SentencePieceConfig {
            add_word_boundary: false,
            ..SentencePieceConfig::default()
        },
        Ok(()),
    )
    .unwrap();
    assert_eq!(
        context_token_ids(&substring_tokenizer, &contexts).unwrap(),
        vec![vec![2, 3, 4, 5]]
    );
}

#[test]
fn remaps_ids_without_dropping_pieces_or_inventing_boundaries() {
    let model = test_model();
    let symbol_table = table(&[
        ("<unk>", 1),
        (WORD_BOUNDARY, 2),
        ("l", 3),
        ("i", 4),
        ("v", 5),
        ("e", 6),
        ("\u{2581}live", 7),
    ]);
    let tokenizer = SentencePieceTokenizer::from_serialized_proto(
        &model,
        SentencePieceConfig {
            symbol_table,
            add_word_boundary: true,
        },
        Ok(()),
    )
    .unwrap();
    let contexts = vec!["live".to_owned()];
    let encoded = encode_all(tokenizer.encode_requests(&contexts), encode_with_test_model);
    let tokenization = tokenizer.tokenize(&encoded).unwrap();
    assert_eq!(tokenization.context_token_ids, vec![vec![7]]);
    assert_eq!(tokenization.word_boundary_token_ids, HashSet::from([2, 7]));

    let unknown_tokenizer = SentencePieceTokenizer::from_serialized_proto(
        &model,
        SentencePieceConfig {
            symbol_table: table(&[("<unk>", 8)]),
            add_word_boundary: true,
        },
        Ok(()),
    )
    .unwrap();
    let encoded = encode_all(unknown_tokenizer.encode_requests(&contexts), encode_with_test_model);
    let unknown = unknown_tokenizer.tokenize(&encoded).unwrap();
    assert_eq!(unknown.context_token_ids, vec![vec![8]]);
    assert!(unknown.word_boundary_token_ids.is_empty());
}

#[test]
fn shares_tables_across_tokenizer_and_decoder_copies() {
    let model = test_model();
    let tokenizer =
        SentencePieceTokenizer::from_serialized_proto(&model, SentencePieceConfig::default(), Ok(()))
            .unwrap();
    let shared = tokenizer.clone();
    drop(tokenizer);
    let contexts = vec!["live".to_owned()];
    let encoded = encode_all(shared.encode_requests(&contexts), encode_with_test_model);
    assert_eq!(
        shared.tokenize(&encoded).unwrap().context_token_ids,
        vec![vec![6]]
    );
    let decoder = CTCDecoder::new(
        DecoderConfig {
            contexts,
            sentencepiece_tokenizer: Some(shared),
            ..DecoderConfig::default()
        },
        &encoded,
    );
    assert!(decoder.is_ok());
}

#[test]
fn rejects_missing_symbol_and_ambiguous_decoder_contexts() {
    let model = test_model();
    let tokenizer = SentencePieceTokenizer::from_serialized_proto(
        &model,
        SentencePieceConfig {
            symbol_table: table(&[("l", 3)]),
            add_word_boundary: true,
        },
        Ok(()),
    )
    .unwrap();
    let contexts = vec!["live".to_owned()];
    let encoded = encode_all(tokenizer.encode_requests(&contexts), encode_with_test_model);
    assert!(matches!(
        tokenizer.tokenize(&encoded),
        Err(TokenizerError::MissingPiece { .. })
    ));
    assert!(CTCDecoder::new(
        DecoderConfig {
            context_token_ids: vec![vec![1]],
            contexts,
            sentencepiece_tokenizer: Some(tokenizer),
            ..DecoderConfig::default()
        },
        &encoded,
    )
    .is_err());
}

#[test]
fn missing_piece_names_the_piece_and_the_trimmed_hotword() {
    let tokenizer = SentencePieceTokenizer::from_serialized_proto(
        &test_model(),
        SentencePieceConfig {
            symbol_table: table(&[("l", 3)]),
            add_word_boundary: false,
        },
        Ok(()),
    )
    .unwrap();
    let result = context_token_ids(&tokenizer, &["  live\t".to_owned()]);
    assert_eq!(
        result,
        Err(TokenizerError::MissingPiece {
            piece: "i".to_owned(),
            context: "live".to_owned(),
        })
    );
}

#[test]
fn requests_trim_skip_empty_and_mark_words() {
    let tokenizer =
        SentencePieceTokenizer::from_serialized_proto(&test_model(), SentencePieceConfig::default(), Ok(()))
            .unwrap();
    let contexts = vec![
        " \u{3000}live\u{2003}".to_owned(),
        "   ".to_owned(),
        "\u{2581}stop".to_owned(),
        String::new(),
    ];
    let requests = tokenizer.encode_requests(&contexts);
    assert_eq!(
        requests,
        vec![
            EncodeRequest {
                text: "live".to_owned(),
                marked_text: Some("\u{2581}live".to_owned()),
            },
            EncodeRequest {
                text: "\u{2581}stop".to_owned(),
                marked_text: None,
            },
        ]
    );
}

#[test]
fn marked_encoding_of_the_bare_mark_falls_back_to_the_plain_one() {
    let tokenizer =
        SentencePieceTokenizer::from_serialized_proto(&test_model(), SentencePieceConfig::default(), Ok(()))
            .unwrap();
    let encoded = vec![EncodedContext {
        text: "live".to_owned(),
        raw: Ok(pieces(&[("l", 2), ("i", 3), ("v", 4), ("e", 5)])),
        marked: Some(Ok(pieces(&[(WORD_BOUNDARY, 1), ("live", 9)]))),
    }];
    assert_eq!(
        tokenizer.tokenize(&encoded).unwrap().context_token_ids,
        vec![vec![2, 3, 4, 5]]
    );
}

#[test]
fn processor_errors_and_empty_encodings() {
    let tokenizer =
        SentencePieceTokenizer::from_serialized_proto(&test_model(), SentencePieceConfig::default(), Ok(()))
            .unwrap();
    let empty = vec![EncodedContext {
        text: "x".to_owned(),
        raw: Ok(Vec::new()),
        marked: Some(Ok(Vec::new())),
    }];
    assert!(tokenizer.tokenize(&empty).unwrap().context_token_ids.is_empty());

    let failed = vec![EncodedContext {
        text: "x".to_owned(),
        raw: Err("bad input".to_owned()),
        marked: None,
    }];
    assert_eq!(
        tokenizer.tokenize(&failed),
        Err(TokenizerError::SentencePiece("bad input".to_owned()))
    );

    let marked_failed = vec![EncodedContext {
        text: "x".to_owned(),
        raw: Ok(pieces(&[("x", 4)])),
        marked: Some(Err("marked failed".to_owned())),
    }];
    assert_eq!(
        tokenizer.tokenize(&marked_failed),
        Err(TokenizerError::SentencePiece("marked failed".to_owned()))
    );
}

#[test]
fn rejects_a_malformed_model() {
    let mut model = test_model();
    model.truncate(model.len() - 3);
    assert!(matches!(
        SentencePieceTokenizer::from_serialized_proto(&model, SentencePieceConfig::default(), Ok(())),
        Err(TokenizerError::InvalidModel(_))
    ));
}

#[test]
fn word_boundary_ids_of_the_loaded_model() {
    let tokenizer =
        SentencePieceTokenizer::from_serialized_proto(&test_model(), SentencePieceConfig::default(), Ok(()))
            .unwrap();
    assert_eq!(*tokenizer.word_boundary_token_ids(), HashSet::from([1, 6]));
}
