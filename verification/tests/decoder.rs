use std::collections::HashSet;

use asr_decoder::{
    CTCDecoder, DecodeMode, DecoderConfig, DecoderError, DecodingQuality, HotwordStrength,
    PrefixBeamSearchOptions,
};

fn build(config: DecoderConfig) -> Result<CTCDecoder, DecoderError> {
    CTCDecoder::new(config, &[])
}

#[test]
fn default_options_and_quality() {
    let options = PrefixBeamSearchOptions::default();
    assert_eq!(options.beam_size, None);
    assert_eq!(options.token_beam_size, None);
    assert!(!options.finalize);
    assert!(!options.return_token_probabilities);
    assert!(!options.return_scores);
    assert!(!options.return_gating_diagnostics);
    assert_eq!(DecodingQuality::default(), DecodingQuality::Balanced);
}

#[test]
fn builds_with_token_id_hotwords() {
    let decoder = build(DecoderConfig {
        context_token_ids: vec![vec![23, 41], vec![81, 19, 7]],
        hotword_strength: Some(HotwordStrength::Balanced),
        frame_shift_ms_bits: Some(40.0f64.to_bits()),
        ..DecoderConfig::default()
    })
    .unwrap();
    assert_eq!(decoder.frame_shift_ms(), Some(40.0f64.to_bits()));
    assert_eq!(decoder.validate_input(82), Ok(()));
    assert_eq!(
        decoder.validate_input(81),
        Err(DecoderError::InvalidInput(
            "context token IDs must be smaller than vocabulary_size"
        ))
    );
    assert_eq!(
        decoder.validate_input(0),
        Err(DecoderError::InvalidInput(
            "blank_id must be smaller than vocabulary_size"
        ))
    );
}

#[test]
fn without_hotwords_only_the_blank_is_checked() {
    let decoder = build(DecoderConfig {
        blank_id: 4,
        ..DecoderConfig::default()
    })
    .unwrap();
    assert_eq!(decoder.frame_shift_ms(), None);
    assert_eq!(decoder.validate_input(5), Ok(()));
    assert!(decoder.validate_input(4).is_err());
}

#[test]
fn rejects_contexts_together_with_token_ids() {
    let result = build(DecoderConfig {
        context_token_ids: vec![vec![1]],
        contexts: vec!["live".to_owned()],
        ..DecoderConfig::default()
    });
    assert_eq!(
        result.err(),
        Some(DecoderError::InvalidConfig(
            "provide contexts or context_token_ids, not both"
        ))
    );
}

#[test]
fn text_hotwords_need_a_tokenizer() {
    let result = build(DecoderConfig {
        contexts: vec!["live".to_owned()],
        ..DecoderConfig::default()
    });
    assert_eq!(
        result.err(),
        Some(DecoderError::InvalidConfig(
            "sentencepiece_tokenizer is required when contexts are provided"
        ))
    );
}

#[test]
fn rejects_policy_together_with_strength() {
    let result = build(DecoderConfig {
        custom_context_policy: true,
        hotword_strength: Some(HotwordStrength::Aggressive),
        ..DecoderConfig::default()
    });
    assert_eq!(
        result.err(),
        Some(DecoderError::InvalidConfig(
            "provide context_policy or hotword_strength, not both"
        ))
    );
    assert!(build(DecoderConfig {
        custom_context_policy: true,
        ..DecoderConfig::default()
    })
    .is_ok());
}

#[test]
fn rejects_blank_among_word_boundaries() {
    let result = build(DecoderConfig {
        blank_id: 3,
        word_boundary_token_ids: HashSet::from([2, 3]),
        ..DecoderConfig::default()
    });
    assert_eq!(
        result.err(),
        Some(DecoderError::InvalidConfig(
            "word_boundary_token_ids must not include blank_id"
        ))
    );
}

#[test]
fn frame_shift_must_be_finite_and_positive() {
    for bad in [0.0f64, -0.0, -40.0, f64::INFINITY, f64::NEG_INFINITY, f64::NAN] {
        let result = build(DecoderConfig {
            frame_shift_ms_bits: Some(bad.to_bits()),
            ..DecoderConfig::default()
        });
        assert_eq!(
            result.err(),
            Some(DecoderError::InvalidConfig(
                "frame_shift_ms must be finite and greater than zero"
            )),
            "frame shift {bad}"
        );
    }
    for good in [f64::MIN_POSITIVE, 1e-320, 10.0, f64::MAX] {
        assert!(build(DecoderConfig {
            frame_shift_ms_bits: Some(good.to_bits()),
            ..DecoderConfig::default()
        })
        .is_ok());
    }
}

#[test]
fn rejects_blank_among_context_tokens() {
    let result = build(DecoderConfig {
        context_token_ids: vec![vec![5, 6], vec![7, 0]],
        ..DecoderConfig::default()
    });
    assert_eq!(
        result.err(),
        Some(DecoderError::InvalidConfig(
            "context token IDs must not contain blank_id"
        ))
    );
}

#[test]
fn checks_come_in_order() {
    let result = build(DecoderConfig {
        custom_context_policy: true,
        hotword_strength: Some(HotwordStrength::Conservative),
        word_boundary_token_ids: HashSet::from([0]),
        frame_shift_ms_bits: Some(f64::NAN.to_bits()),
        context_token_ids: vec![vec![0]],
        ..DecoderConfig::default()
    });
    assert_eq!(
        result.err(),
        Some(DecoderError::InvalidConfig(
            "provide context_policy or hotword_strength, not both"
        ))
    );
    let result = build(DecoderConfig {
        frame_shift_ms_bits: Some(f64::NAN.to_bits()),
        context_token_ids: vec![vec![0]],
        ..DecoderConfig::default()
    });
    assert_eq!(
        result.err(),
        Some(DecoderError::InvalidConfig(
            "frame_shift_ms must be finite and greater than zero"
        ))
    );
}

#[test]
fn decode_mode_is_locked_until_reset() {
    let mut decoder = build(DecoderConfig::default()).unwrap();
    assert_eq!(decoder.lock_decode_mode(DecodeMode::Greedy), Ok(()));
    assert_eq!(decoder.lock_decode_mode(DecodeMode::Greedy), Ok(()));
    assert_eq!(
        decoder.lock_decode_mode(DecodeMode::PrefixBeam),
        Err(DecoderError::DecodeModeChanged)
    );
    assert_eq!(
        decoder.lock_decode_mode(DecodeMode::PrefixBeam),
        Err(DecoderError::DecodeModeChanged)
    );
    decoder.reset();
    assert_eq!(decoder.lock_decode_mode(DecodeMode::PrefixBeam), Ok(()));
}

#[test]
fn streams_share_configuration_but_not_state() {
    let mut template = build(DecoderConfig {
        context_token_ids: vec![vec![3, 9]],
        frame_shift_ms_bits: Some(60.0f64.to_bits()),
        ..DecoderConfig::default()
    })
    .unwrap();
    assert_eq!(template.lock_decode_mode(DecodeMode::Greedy), Ok(()));
    let mut stream = template.create_stream();
    assert_eq!(stream.frame_shift_ms(), Some(60.0f64.to_bits()));
    assert_eq!(stream.validate_input(10), Ok(()));
    assert!(stream.validate_input(9).is_err());
    assert_eq!(stream.lock_decode_mode(DecodeMode::PrefixBeam), Ok(()));
    assert_eq!(
        template.lock_decode_mode(DecodeMode::PrefixBeam),
        Err(DecoderError::DecodeModeChanged)
    );
}
