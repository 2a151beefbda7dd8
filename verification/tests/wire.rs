use prost::Message;
use asr_decoder::model_proto::parse_model_pieces;
use asr_decoder::text::{has_boundary_prefix, is_boundary_piece, trim, white_space};
use asr_decoder::wire::{decode_key, decode_varint, skip_field_at, skip_group_at, DecodeKind};

#[test]
fn varints_of_one_to_ten_bytes() {
    assert_eq!(decode_varint(&[0x01], 0), Ok((1, 1)));
    assert_eq!(decode_varint(&[0xac, 0x02], 0), Ok((300, 2)));
    assert_eq!(decode_varint(&[0x00, 0xac, 0x02, 0x7f], 1), Ok((300, 3)));
    let max = [0xff, 0xff, 0xff, 0xff, 0xff, 0xff, 0xff, 0xff, 0xff, 0x01];
    assert_eq!(decode_varint(&max, 0), Ok((u64::MAX, 10)));
}

#[test]
fn rejects_overlong_truncated_and_overflowing_varints() {
    let overflow = [0xff, 0xff, 0xff, 0xff, 0xff, 0xff, 0xff, 0xff, 0xff, 0x02];
    assert_eq!(decode_varint(&overflow, 0), Err(DecodeKind::InvalidVarint));
    let eleven = [0x80, 0x80, 0x80, 0x80, 0x80, 0x80, 0x80, 0x80, 0x80, 0x80, 0x00];
    assert_eq!(decode_varint(&eleven, 0), Err(DecodeKind::InvalidVarint));
    assert_eq!(decode_varint(&[0xac], 0), Err(DecodeKind::InvalidVarint));
    assert_eq!(decode_varint(&[], 0), Err(DecodeKind::InvalidVarint));
}

#[test]
fn keys_name_a_tag_and_a_wire_type() {
    assert_eq!(decode_key(&[0x0a], 0), Ok((1, 2, 1)));
    assert_eq!(decode_key(&[0xc0, 0x02], 0), Ok((40, 0, 2)));
    assert_eq!(decode_key(&[0x02], 0), Err(DecodeKind::InvalidTag));
    assert_eq!(decode_key(&[0x0e], 0), Err(DecodeKind::InvalidWireType(6)));
    assert_eq!(
        decode_key(&[0x80, 0x80, 0x80, 0x80, 0x80, 0x01], 0),
        Err(DecodeKind::InvalidKey(1 << 35))
    );
}

#[test]
fn skips_unknown_fields_and_groups() {
    assert_eq!(skip_field_at(&[0x96, 0x01, 0x00], 0, 7, 0, 100), Ok(2));
    assert_eq!(skip_field_at(&[0; 8], 1, 7, 0, 100), Ok(8));
    assert_eq!(skip_field_at(&[0; 7], 1, 7, 0, 100), Err(DecodeKind::BufferUnderflow));
    assert_eq!(skip_field_at(&[0; 4], 5, 7, 0, 100), Ok(4));
    assert_eq!(skip_field_at(&[0x02, 0x61, 0x62], 2, 7, 0, 100), Ok(3));
    assert_eq!(skip_field_at(&[0x03, 0x61, 0x62], 2, 7, 0, 100), Err(DecodeKind::BufferUnderflow));
    // A group with tag 7 holding a varint field 1, then its end key.
    let group = [0x08, 0x05, 0x3c];
    assert_eq!(skip_field_at(&group, 3, 7, 0, 100), Ok(3));
    assert_eq!(skip_group_at(&group, 7, 0, 100), Ok(3));
    assert_eq!(skip_group_at(&group, 8, 0, 100), Err(DecodeKind::UnexpectedEndGroupTag));
    assert_eq!(skip_field_at(&group, 3, 7, 0, 0), Err(DecodeKind::RecursionLimitReached));
    assert_eq!(skip_field_at(&group, 3, 7, 0, 1), Err(DecodeKind::RecursionLimitReached));
    assert_eq!(skip_field_at(&[0x00], 4, 7, 0, 100), Err(DecodeKind::UnexpectedEndGroupTag));
}

#[test]
fn model_fields_must_have_their_wire_type() {
    // A piece whose text field is a varint.
    assert!(parse_model_pieces(&[0x0a, 0x02, 0x08, 0x01]).is_err());
    // A piece whose score has only three bytes.
    assert!(parse_model_pieces(&[0x0a, 0x04, 0x15, 0x00, 0x00, 0x00]).is_err());
    // A piece with text that is not UTF-8.
    assert!(parse_model_pieces(&[0x0a, 0x03, 0x0a, 0x01, 0xff]).is_err());
    // Unknown top-level fields are skipped, a later piece text wins.
    let model = [
        0x20, 0x07, 0x0a, 0x06, 0x0a, 0x01, 0x61, 0x0a, 0x01, 0x62, 0x0a, 0x00,
    ];
    assert_eq!(
        parse_model_pieces(&model).unwrap(),
        vec![Some("b".to_owned()), None]
    );
    assert_eq!(parse_model_pieces(&[]).unwrap(), Vec::<Option<String>>::new());
}

fn message_of(bytes: &[u8]) -> String {
    parse_model_pieces(bytes).unwrap_err().message()
}

#[test]
fn errors_inside_pieces_name_their_fields() {
    assert_eq!(
        message_of(&[0x0a, 0x03, 0x0a, 0x01, 0xff]),
        "failed to decode Protobuf message: ModelPiece.piece: ModelProto.pieces: invalid string value: data is not UTF-8 encoded"
    );
    assert_eq!(
        message_of(&[0x0a, 0x02, 0x08, 0x01]),
        "failed to decode Protobuf message: ModelPiece.piece: ModelProto.pieces: invalid wire type: Varint (expected LengthDelimited)"
    );
    assert_eq!(
        message_of(&[0x0a, 0x04, 0x15, 0x00, 0x00, 0x00]),
        "failed to decode Protobuf message: ModelPiece.score: ModelProto.pieces: buffer underflow"
    );
    // The score reads past the piece's end into the next byte.
    assert_eq!(
        message_of(&[0x0a, 0x04, 0x15, 0x00, 0x00, 0x00, 0x00]),
        "failed to decode Protobuf message: ModelProto.pieces: delimited length exceeded"
    );
    assert_eq!(
        message_of(&[0x12, 0x02, 0xc0, 0x02]),
        "failed to decode Protobuf message: TrainerSpec.unk_id: ModelProto.trainer_spec: invalid varint"
    );
    assert_eq!(
        message_of(&[0x1a, 0x02, 0x1d, 0x00]),
        "failed to decode Protobuf message: NormalizerSpec.add_dummy_prefix: ModelProto.normalizer_spec: invalid wire type: ThirtyTwoBit (expected Varint)"
    );
    assert_eq!(
        message_of(&[0x18, 0x01]),
        "failed to decode Protobuf message: ModelProto.normalizer_spec: invalid wire type: Varint (expected LengthDelimited)"
    );
    assert_eq!(
        message_of(&[0x0a, 0x05]),
        "failed to decode Protobuf message: ModelProto.pieces: buffer underflow"
    );
}

#[test]
fn top_level_errors_read_as_prost_reports_them() {
    for bytes in [
        &[0x20][..],
        &[0x00],
        &[0x07],
        &[0x24],
        &[0x80, 0x80, 0x80, 0x80, 0x80, 0x01],
        &[0x22, 0x05, 0x00],
        &[0x21, 0x00],
        &[0x23, 0x08, 0x01, 0x2c],
        &[0x23, 0x08],
    ] {
        let expected = <String as Message>::decode(bytes).unwrap_err().to_string();
        assert_eq!(message_of(bytes), expected, "bytes {bytes:?}");
    }
}

#[test]
fn trims_unicode_white_space() {
    assert_eq!(trim("\u{a0}\t live \u{2028}\u{3000}"), "live");
    assert_eq!(trim("  "), "");
    assert_eq!(trim("a b"), "a b");
    assert!(white_space('\u{85}'));
    assert!(!white_space('\u{200b}'));
    assert!(!white_space('x'));
}

#[test]
fn word_boundary_mark() {
    assert!(has_boundary_prefix("\u{2581}live"));
    assert!(!has_boundary_prefix("live"));
    assert!(!has_boundary_prefix(""));
    assert!(is_boundary_piece("\u{2581}"));
    assert!(!is_boundary_piece("\u{2581}l"));
}
