//! The parts of a serialized SentencePiece `ModelProto` that the tokenizer
//! reads: the text of each vocabulary piece, in order.
//!
//! The schema checked here:
//!
//! ```text
//! ModelProto      1: repeated ModelPiece   2: TrainerSpec   3: NormalizerSpec
//! ModelPiece      1: string piece   2: float score   3: int32 type
//! TrainerSpec     3, 4, 40, 41, 42, 43: int32
//! NormalizerSpec  1: string name   3, 4, 5: bool
//! ```
//!
//! A field of the schema must come with its own wire type, strings must be
//! UTF-8, fields outside the schema are skipped, and a later value of a
//! string field replaces an earlier one. A malformed model is reported as
//! Protocol Buffers decoders report it: the cause, and the message fields
//! it was found in, innermost first.
use vstd::prelude::*;
use vstd::string::StringExecFns;
use vstd::utf8::{decode_utf8, valid_utf8};

use crate::wire::{
    decode_key, decode_varint, lemma_read_key_advances, lemma_read_key_same_tail, lemma_read_varint_advances,
    lemma_read_varint_same_tail, lemma_same_tail_bytes, lemma_skip_field_advances, lemma_skip_field_same_tail, read_key, read_varint,
    same_tail, skip_field, skip_field_at, DecodeKind,
    RECURSION_LIMIT, WIRE_FIXED32, WIRE_LEN, WIRE_VARINT,
};

verus! {

/// Schema of a `ModelPiece` message.
pub const MSG_PIECE: u8 = 0;

/// Schema of a `TrainerSpec` message.
pub const MSG_TRAINER: u8 = 1;

/// Schema of a `NormalizerSpec` message.
pub const MSG_NORMALIZER: u8 = 2;

/// What the schema of a nested message says of one of its field tags.
pub enum FieldKind {
    Varint,
    Fixed32,
    Text,
    Unknown,
}

/// The kind of field `tag` in the nested message `msg`.
pub open spec fn field_kind(msg: u8, tag: u64) -> FieldKind {
    if msg == MSG_PIECE {
        if tag == 1 {
            FieldKind::Text
        } else if tag == 2 {
            FieldKind::Fixed32
        } else if tag == 3 {
            FieldKind::Varint
        } else {
            FieldKind::Unknown
        }
    } else if msg == MSG_TRAINER {
        if tag == 3 || tag == 4 || tag == 40 || tag == 41 || tag == 42 || tag == 43 {
            FieldKind::Varint
        } else {
            FieldKind::Unknown
        }
    } else {
        if tag == 1 {
            FieldKind::Text
        } else if tag == 3 || tag == 4 || tag == 5 {
            FieldKind::Varint
        } else {
            FieldKind::Unknown
        }
    }
}

/// Where in the model a decoding error was found: the top-level field
/// (`field`) and, inside its message, the field of that message
/// (`nested_field`), when these are fields of the schema.
#[derive(Clone, Copy, Debug, PartialEq, Eq, Structural)]
pub struct ModelDecodeError {
    pub kind: DecodeKind,
    pub field: Option<u64>,
    pub nested_field: Option<u64>,
}

/// A string field whose key ended at `pos`: its characters and the position after it.
pub open spec fn read_text(d: Seq<u8>, wire: u64, pos: int) -> Result<(Seq<char>, int), DecodeKind> {
    if wire != WIRE_LEN {
        Err(DecodeKind::UnexpectedWireType(wire, WIRE_LEN))
    } else {
        match read_varint(d, pos) {
            Ok((len, q)) => if len > d.len() - q {
                Err(DecodeKind::BufferUnderflow)
            } else if !valid_utf8(d.subrange(q, q + len)) {
                Err(DecodeKind::InvalidString)
            } else {
                Ok((decode_utf8(d.subrange(q, q + len)), q + len))
            },
            Err(e) => Err(e),
        }
    }
}

/// One field of the nested message `msg` whose key ended at `pos`: the
/// string value it sets, if it is the string field, and the position after
/// it; an error names the field when it is one of the schema's.
pub open spec fn nested_field(
    d: Seq<u8>,
    msg: u8,
    tag: u64,
    wire: u64,
    pos: int,
    depth: nat,
    text: Option<Seq<char>>,
) -> Result<(Option<Seq<char>>, int), (DecodeKind, Option<u64>)> {
    match field_kind(msg, tag) {
        FieldKind::Text => match read_text(d, wire, pos) {
            Ok((s, e)) => Ok((Some(s), e)),
            Err(k) => Err((k, Some(tag))),
        },
        FieldKind::Fixed32 => if wire != WIRE_FIXED32 {
            Err((DecodeKind::UnexpectedWireType(wire, WIRE_FIXED32), Some(tag)))
        } else if 4 > d.len() - pos {
            Err((DecodeKind::BufferUnderflow, Some(tag)))
        } else {
            Ok((text, pos + 4))
        },
        FieldKind::Varint => if wire != WIRE_VARINT {
            Err((DecodeKind::UnexpectedWireType(wire, WIRE_VARINT), Some(tag)))
        } else {
            match read_varint(d, pos) {
                Ok((_, q)) => Ok((text, q)),
                Err(k) => Err((k, Some(tag))),
            }
        },
        FieldKind::Unknown => match skip_field(d, wire, tag, pos, depth) {
            Ok(q) => Ok((text, q)),
            Err(k) => Err((k, None)),
        },
    }
}

/// The fields of the nested message `msg` from `pos` to its end `limit`:
/// the last value of its string field (`text` so far). The fields must end
/// exactly at `limit`.
pub open spec fn nested_fields(
    d: Seq<u8>,
    msg: u8,
    pos: int,
    limit: int,
    depth: nat,
    text: Option<Seq<char>>,
) -> Result<Option<Seq<char>>, (DecodeKind, Option<u64>)>
    decreases d.len() - pos,
{
    if pos >= limit {
        if pos == limit {
            Ok(text)
        } else {
            Err((DecodeKind::DelimitedLengthExceeded, None))
        }
    } else if pos > d.len() {
        Err((DecodeKind::BufferUnderflow, None))
    } else {
        match read_key(d, pos) {
            Ok((tag, wire, q)) => match nested_field(d, msg, tag, wire, q, depth, text) {
                Ok((t, r)) => if r <= pos || r > d.len() {
                    Err((DecodeKind::BufferUnderflow, None))
                } else {
                    nested_fields(d, msg, r, limit, depth, t)
                },
                Err(e) => Err(e),
            },
            Err(k) => Err((k, None)),
        }
    }
}

/// Whether `tag` is none of the field tags that the schema gives the nested message `msg`.
pub open spec fn unnamed_in(msg: u8, tag: u64) -> bool {
    &&& msg == MSG_PIECE ==> tag != 1 && tag != 2 && tag != 3
    &&& msg == MSG_TRAINER ==> tag != 3 && tag != 4 && tag != 40 && tag != 41 && tag != 42 && tag != 43
    &&& msg == MSG_NORMALIZER ==> tag != 1 && tag != 3 && tag != 4 && tag != 5
}

/// A field that the schema does not name is skipped whatever it holds:
/// where one of the nested messages holds a field with a tag outside its
/// schema, which the wire format skips to `r` inside the message, reading
/// the message gives what reading it from `r` on gives, with the string
/// field as it was before.
pub proof fn law_unnamed_field_is_skipped(
    d: Seq<u8>,
    msg: u8,
    pos: int,
    limit: int,
    depth: nat,
    text: Option<Seq<char>>,
    tag: u64,
    wire: u64,
    q: int,
    r: int,
)
    requires
        msg == MSG_PIECE || msg == MSG_TRAINER || msg == MSG_NORMALIZER,
        unnamed_in(msg, tag),
        0 <= pos < limit <= d.len(),
        read_key(d, pos) == Ok::<(u64, u64, int), DecodeKind>((tag, wire, q)),
        skip_field(d, wire, tag, q, depth) == Ok::<int, DecodeKind>(r),
        r <= limit,
    ensures
        nested_fields(d, msg, pos, limit, depth, text) == nested_fields(d, msg, r, limit, depth, text),
{
    lemma_read_key_advances(d, pos);
    lemma_skip_field_advances(d, wire, tag, q, depth);
    assert(nested_field(d, msg, tag, wire, q, depth, text) == Ok::<
        (Option<Seq<char>>, int),
        (DecodeKind, Option<u64>),
    >((text, r)));
}

proof fn lemma_read_text_same_tail(d1: Seq<u8>, k1: int, d2: Seq<u8>, k2: int, wire: u64, p: int)
    requires
        same_tail(d1, k1, d2, k2),
        k2 <= p <= d2.len(),
    ensures
        match read_text(d2, wire, p) {
            Ok((t, e)) => read_text(d1, wire, p + (k1 - k2)) == Ok::<(Seq<char>, int), DecodeKind>(
                (t, e + (k1 - k2)),
            ),
            Err(k) => read_text(d1, wire, p + (k1 - k2)) == Err::<(Seq<char>, int), DecodeKind>(k),
        },
{
    lemma_same_tail_bytes(d1, k1, d2, k2);
    lemma_read_varint_same_tail(d1, k1, d2, k2, p);
    if let Ok((len, q)) = read_varint(d2, p) {
        lemma_read_varint_advances(d2, p);
        if len <= d2.len() - q {
            assert(d1.subrange(q + (k1 - k2), q + (k1 - k2) + len) =~= d2.subrange(q, q + len));
        }
    }
}

proof fn lemma_nested_field_same_tail(
    d1: Seq<u8>,
    k1: int,
    d2: Seq<u8>,
    k2: int,
    msg: u8,
    tag: u64,
    wire: u64,
    p: int,
    depth: nat,
    text: Option<Seq<char>>,
)
    requires
        same_tail(d1, k1, d2, k2),
        k2 <= p <= d2.len(),
    ensures
        match nested_field(d2, msg, tag, wire, p, depth, text) {
            Ok((t, e)) => nested_field(d1, msg, tag, wire, p + (k1 - k2), depth, text) == Ok::<
                (Option<Seq<char>>, int),
                (DecodeKind, Option<u64>),
            >((t, e + (k1 - k2))),
            Err(x) => nested_field(d1, msg, tag, wire, p + (k1 - k2), depth, text) == Err::<
                (Option<Seq<char>>, int),
                (DecodeKind, Option<u64>),
            >(x),
        },
{
    lemma_same_tail_bytes(d1, k1, d2, k2);
    lemma_read_text_same_tail(d1, k1, d2, k2, wire, p);
    lemma_read_varint_same_tail(d1, k1, d2, k2, p);
    lemma_skip_field_same_tail(d1, k1, d2, k2, wire, tag, p, depth);
}

proof fn lemma_nested_fields_same_tail(
    d1: Seq<u8>,
    k1: int,
    d2: Seq<u8>,
    k2: int,
    msg: u8,
    p: int,
    limit: int,
    depth: nat,
    text: Option<Seq<char>>,
)
    requires
        same_tail(d1, k1, d2, k2),
        k2 <= p,
    ensures
        nested_fields(d1, msg, p + (k1 - k2), limit + (k1 - k2), depth, text) == nested_fields(
            d2,
            msg,
            p,
            limit,
            depth,
            text,
        ),
    decreases d2.len() - p,
{
    lemma_same_tail_bytes(d1, k1, d2, k2);
    if p < limit && p <= d2.len() {
        lemma_read_key_same_tail(d1, k1, d2, k2, p);
        if let Ok((tag, wire, q)) = read_key(d2, p) {
            lemma_read_key_advances(d2, p);
            lemma_nested_field_same_tail(d1, k1, d2, k2, msg, tag, wire, q, depth, text);
            if let Ok((t, r)) = nested_field(d2, msg, tag, wire, q, depth, text) {
                if r > p && r <= d2.len() {
                    lemma_nested_fields_same_tail(d1, k1, d2, k2, msg, r, limit, depth, t);
                }
            }
        }
    }
}

/// Which nested message a top-level field tag holds.
pub open spec fn nested_message_of(tag: u64) -> u8 {
    if tag == 1 {
        MSG_PIECE
    } else if tag == 2 {
        MSG_TRAINER
    } else {
        MSG_NORMALIZER
    }
}

/// An error found in the top-level field `field` (a schema field when `Some`).
pub open spec fn model_error(kind: DecodeKind, field: Option<u64>, nested: Option<u64>) -> ModelDecodeError {
    ModelDecodeError { kind, field, nested_field: nested }
}

/// One top-level field whose key ended at `pos`: the piece list after it
/// and the position after it.
pub open spec fn model_field(
    d: Seq<u8>,
    tag: u64,
    wire: u64,
    pos: int,
    pieces: Seq<Option<Seq<char>>>,
) -> Result<(Seq<Option<Seq<char>>>, int), ModelDecodeError> {
    if 1 <= tag <= 3 {
        if wire != WIRE_LEN {
            Err(model_error(DecodeKind::UnexpectedWireType(wire, WIRE_LEN), Some(tag), None))
        } else {
            match read_varint(d, pos) {
                Ok((len, q)) => if len > d.len() - q {
                    Err(model_error(DecodeKind::BufferUnderflow, Some(tag), None))
                } else {
                    match nested_fields(
                        d,
                        nested_message_of(tag),
                        q,
                        q + len,
                        (RECURSION_LIMIT - 1) as nat,
                        None,
                    ) {
                        Ok(t) => Ok((if tag == 1 { pieces.push(t) } else { pieces }, q + len)),
                        Err((k, n)) => Err(model_error(k, Some(tag), n)),
                    }
                },
                Err(k) => Err(model_error(k, Some(tag), None)),
            }
        }
    } else {
        match skip_field(d, wire, tag, pos, RECURSION_LIMIT as nat) {
            Ok(q) => Ok((pieces, q)),
            Err(k) => Err(model_error(k, None, None)),
        }
    }
}

/// The top-level fields from `pos` to the end, with `pieces` collected so far.
pub open spec fn model_fields(d: Seq<u8>, pos: int, pieces: Seq<Option<Seq<char>>>) -> Result<
    Seq<Option<Seq<char>>>,
    ModelDecodeError,
>
    decreases d.len() - pos,
{
    if pos >= d.len() {
        Ok(pieces)
    } else {
        match read_key(d, pos) {
            Ok((tag, wire, q)) => match model_field(d, tag, wire, q, pieces) {
                Ok((ps, r)) => if r <= pos || r > d.len() {
                    Err(model_error(DecodeKind::BufferUnderflow, None, None))
                } else {
                    model_fields(d, r, ps)
                },
                Err(e) => Err(e),
            },
            Err(k) => Err(model_error(k, None, None)),
        }
    }
}

proof fn lemma_model_field_same_tail(
    d1: Seq<u8>,
    k1: int,
    d2: Seq<u8>,
    k2: int,
    tag: u64,
    wire: u64,
    p: int,
    pieces: Seq<Option<Seq<char>>>,
)
    requires
        same_tail(d1, k1, d2, k2),
        k2 <= p <= d2.len(),
    ensures
        match model_field(d2, tag, wire, p, pieces) {
            Ok((ps, e)) => model_field(d1, tag, wire, p + (k1 - k2), pieces) == Ok::<
                (Seq<Option<Seq<char>>>, int),
                ModelDecodeError,
            >((ps, e + (k1 - k2))),
            Err(x) => model_field(d1, tag, wire, p + (k1 - k2), pieces) == Err::<
                (Seq<Option<Seq<char>>>, int),
                ModelDecodeError,
            >(x),
        },
{
    lemma_same_tail_bytes(d1, k1, d2, k2);
    if 1 <= tag <= 3 {
        if wire == WIRE_LEN {
            lemma_read_varint_same_tail(d1, k1, d2, k2, p);
            if let Ok((len, q)) = read_varint(d2, p) {
                lemma_read_varint_advances(d2, p);
                lemma_nested_fields_same_tail(
                    d1,
                    k1,
                    d2,
                    k2,
                    nested_message_of(tag),
                    q,
                    q + len,
                    (RECURSION_LIMIT - 1) as nat,
                    None,
                );
            }
        }
    } else {
        lemma_skip_field_same_tail(d1, k1, d2, k2, wire, tag, p, RECURSION_LIMIT as nat);
    }
}

proof fn lemma_model_fields_same_tail(
    d1: Seq<u8>,
    k1: int,
    d2: Seq<u8>,
    k2: int,
    p: int,
    pieces: Seq<Option<Seq<char>>>,
)
    requires
        same_tail(d1, k1, d2, k2),
        k2 <= p,
    ensures
        model_fields(d1, p + (k1 - k2), pieces) == model_fields(d2, p, pieces),
    decreases d2.len() - p,
{
    lemma_same_tail_bytes(d1, k1, d2, k2);
    if p < d2.len() {
        lemma_read_key_same_tail(d1, k1, d2, k2, p);
        if let Ok((tag, wire, q)) = read_key(d2, p) {
            lemma_read_key_advances(d2, p);
            lemma_model_field_same_tail(d1, k1, d2, k2, tag, wire, q, pieces);
            if let Ok((ps, r)) = model_field(d2, tag, wire, q, pieces) {
                if r > p && r <= d2.len() {
                    lemma_model_fields_same_tail(d1, k1, d2, k2, r, ps);
                }
            }
        }
    }
}

/// The text of every vocabulary piece of a serialized model, in order
/// (`None` for a piece without text), or why the bytes are not a
/// well-formed model.
pub open spec fn model_pieces(d: Seq<u8>) -> Result<Seq<Option<Seq<char>>>, ModelDecodeError> {
    model_fields(d, 0, Seq::empty())
}

/// A model with a field that the schema does not name reads as the same
/// model without it, whatever the field holds: where `d` starts with a
/// `NormalizerSpec` (bytes `s..s + n`) whose first field is a
/// length-delimited field with a tag outside that message's schema (payload
/// `v..v + m`), and `d0` starts with a `NormalizerSpec` holding just what
/// follows that field, with the same bytes after it to the end, the two
/// models give the same pieces, or the same error.
pub proof fn law_unnamed_normalizer_field_leaves_pieces(
    d: Seq<u8>,
    q: int,
    n: u64,
    s: int,
    u: int,
    m: u64,
    v: int,
    t: u64,
    d0: Seq<u8>,
    q0: int,
    n0: u64,
    s0: int,
)
    requires
        read_key(d, 0) == Ok::<(u64, u64, int), DecodeKind>((3, WIRE_LEN, q)),
        read_varint(d, q) == Ok::<(u64, int), DecodeKind>((n, s)),
        unnamed_in(MSG_NORMALIZER, t),
        read_key(d, s) == Ok::<(u64, u64, int), DecodeKind>((t, WIRE_LEN, u)),
        read_varint(d, u) == Ok::<(u64, int), DecodeKind>((m, v)),
        v + m <= s + n,
        v + m <= d.len(),
        read_key(d0, 0) == Ok::<(u64, u64, int), DecodeKind>((3, WIRE_LEN, q0)),
        read_varint(d0, q0) == Ok::<(u64, int), DecodeKind>((n0, s0)),
        n0 == s + n - (v + m),
        d.subrange(v + m, d.len() as int) == d0.subrange(s0, d0.len() as int),
    ensures
        model_pieces(d) == model_pieces(d0),
{
    let depth = (RECURSION_LIMIT - 1) as nat;
    lemma_read_key_advances(d, 0);
    lemma_read_varint_advances(d, q);
    lemma_read_key_advances(d, s);
    lemma_read_varint_advances(d, u);
    lemma_read_key_advances(d0, 0);
    lemma_read_varint_advances(d0, q0);
    let e = v + m;
    assert(same_tail(d, e, d0, s0));
    lemma_same_tail_bytes(d, e, d0, s0);
    if n <= d.len() - s {
        law_unnamed_field_is_skipped(d, MSG_NORMALIZER, s, s + n, depth, None, t, WIRE_LEN, u, v + m);
        lemma_nested_fields_same_tail(d, e, d0, s0, MSG_NORMALIZER, s0, s0 + n0, depth, None);
        assert(s0 + n0 + (e - s0) == s + n);
        lemma_model_fields_same_tail(d, e, d0, s0, s0 + n0, Seq::empty());
    }
}

/// The characters of an optional string.
pub open spec fn opt_text(s: Option<String>) -> Option<Seq<char>> {
    match s {
        Some(t) => Some(t@),
        None => None,
    }
}

/// The characters of a list of optional strings.
pub open spec fn texts_view(v: Seq<Option<String>>) -> Seq<Option<Seq<char>>> {
    Seq::new(v.len(), |i: int| opt_text(v[i]))
}

/// Reads `bytes` as UTF-8 with `std::str::from_utf8`.
///
/// Trusted: the contract claims what the standard library documents, that
/// the call succeeds exactly on well-formed UTF-8 and then views the same
/// characters that the bytes encode.
#[verifier::external_body]
fn utf8_text(bytes: &[u8]) -> (r: Option<&str>)
    ensures
        match r {
            Some(s) => valid_utf8(bytes@) && s@ == decode_utf8(bytes@),
            None => !valid_utf8(bytes@),
        },
{
    std::str::from_utf8(bytes).ok()
}

/// Reads a string field whose key ended at `pos`.
fn decode_text(data: &[u8], wire: u64, pos: usize) -> (r: Result<(String, usize), DecodeKind>)
    requires
        pos <= data.len(),
    ensures
        match read_text(data@, wire, pos as int) {
            Ok((s, e)) => r matches Ok((s2, e2)) && s2@ == s && e2 == e,
            Err(k) => r == Err::<(String, usize), DecodeKind>(k),
        },
        r matches Ok((_, e)) ==> pos < e <= data.len(),
{
    if wire != WIRE_LEN {
        return Err(DecodeKind::UnexpectedWireType(wire, WIRE_LEN));
    }
    let (len, q) = match decode_varint(data, pos) {
        Ok(x) => x,
        Err(e) => return Err(e),
    };
    if len > (data.len() - q) as u64 {
        return Err(DecodeKind::BufferUnderflow);
    }
    let e = q + len as usize;
    match utf8_text(&data[q..e]) {
        Some(t) => Ok((t.to_owned(), e)),
        None => Err(DecodeKind::InvalidString),
    }
}

/// Reads one field of the nested message `msg` whose key ended at `pos`.
fn decode_nested_field(
    data: &[u8],
    msg: u8,
    tag: u64,
    wire: u64,
    pos: usize,
    depth: u32,
    text: Option<String>,
) -> (r: Result<(Option<String>, usize), (DecodeKind, Option<u64>)>)
    requires
        pos <= data.len(),
    ensures
        match nested_field(data@, msg, tag, wire, pos as int, depth as nat, opt_text(text)) {
            Ok((t, e)) => r matches Ok((t2, e2)) && opt_text(t2) == t && e2 == e,
            Err(k) => r == Err::<(Option<String>, usize), (DecodeKind, Option<u64>)>(k),
        },
        r matches Ok((_, e)) ==> pos <= e <= data.len(),
{
    let text_field = tag == 1 && msg != MSG_TRAINER;
    let fixed_field = msg == MSG_PIECE && tag == 2;
    let varint_field = if msg == MSG_PIECE {
        tag == 3
    } else if msg == MSG_TRAINER {
        tag == 3 || tag == 4 || tag == 40 || tag == 41 || tag == 42 || tag == 43
    } else {
        tag == 3 || tag == 4 || tag == 5
    };
    if text_field {
        match decode_text(data, wire, pos) {
            Ok((s, e)) => Ok((Some(s), e)),
            Err(k) => Err((k, Some(tag))),
        }
    } else if fixed_field {
        if wire != WIRE_FIXED32 {
            Err((DecodeKind::UnexpectedWireType(wire, WIRE_FIXED32), Some(tag)))
        } else if data.len() - pos < 4 {
            Err((DecodeKind::BufferUnderflow, Some(tag)))
        } else {
            Ok((text, pos + 4))
        }
    } else if varint_field {
        if wire != WIRE_VARINT {
            Err((DecodeKind::UnexpectedWireType(wire, WIRE_VARINT), Some(tag)))
        } else {
            match decode_varint(data, pos) {
                Ok((_, q)) => Ok((text, q)),
                Err(k) => Err((k, Some(tag))),
            }
        }
    } else {
        match skip_field_at(data, wire, tag, pos, depth) {
            Ok(q) => Ok((text, q)),
            Err(k) => Err((k, None)),
        }
    }
}

/// Reads the fields of the nested message `msg` from `pos` to `limit`.
fn decode_nested_fields(data: &[u8], msg: u8, pos: usize, limit: usize, depth: u32) -> (r: Result<
    Option<String>,
    (DecodeKind, Option<u64>),
>)
    requires
        pos <= limit <= data.len(),
    ensures
        match nested_fields(data@, msg, pos as int, limit as int, depth as nat, None) {
            Ok(t) => r matches Ok(t2) && opt_text(t2) == t,
            Err(k) => r == Err::<Option<String>, (DecodeKind, Option<u64>)>(k),
        },
{
    let mut p = pos;
    let mut text: Option<String> = None;
    while p < limit
        invariant
            pos <= p <= data.len(),
            limit <= data.len(),
            nested_fields(data@, msg, pos as int, limit as int, depth as nat, None) == nested_fields(
                data@,
                msg,
                p as int,
                limit as int,
                depth as nat,
                opt_text(text),
            ),
        decreases data.len() - p,
    {
        let (tag, wire, q) = match decode_key(data, p) {
            Ok(x) => x,
            Err(k) => return Err((k, None)),
        };
        match decode_nested_field(data, msg, tag, wire, q, depth, text) {
            Ok((t, r)) => {
                text = t;
                p = r;
            },
            Err(e) => return Err(e),
        }
    }
    if p == limit {
        Ok(text)
    } else {
        Err((DecodeKind::DelimitedLengthExceeded, None))
    }
}

/// Reads the text of every vocabulary piece of a serialized model, in
/// order, or why the bytes are not a well-formed model.
pub fn parse_model_pieces(model: &[u8]) -> (r: Result<Vec<Option<String>>, ModelDecodeError>)
    ensures
        match model_pieces(model@) {
            Ok(ps) => r matches Ok(v) && texts_view(v@) == ps,
            Err(e) => r == Err::<Vec<Option<String>>, ModelDecodeError>(e),
        },
{
    let end = model.len();
    let mut p: usize = 0;
    let mut pieces: Vec<Option<String>> = Vec::new();
    assert(texts_view(pieces@) =~= Seq::empty());
    while p < end
        invariant
            p <= end == model.len(),
            model_pieces(model@) == model_fields(model@, p as int, texts_view(pieces@)),
        decreases end - p,
    {
        let ghost before = texts_view(pieces@);
        let (tag, wire, q) = match decode_key(model, p) {
            Ok(x) => x,
            Err(k) => return Err(ModelDecodeError { kind: k, field: None, nested_field: None }),
        };
        if 1 <= tag && tag <= 3 {
            if wire != WIRE_LEN {
                return Err(
                    ModelDecodeError {
                        kind: DecodeKind::UnexpectedWireType(wire, WIRE_LEN),
                        field: Some(tag),
                        nested_field: None,
                    },
                );
            }
            let (len, s) = match decode_varint(model, q) {
                Ok(x) => x,
                Err(k) => return Err(ModelDecodeError { kind: k, field: Some(tag), nested_field: None }),
            };
            if len > (end - s) as u64 {
                return Err(
                    ModelDecodeError { kind: DecodeKind::BufferUnderflow, field: Some(tag), nested_field: None },
                );
            }
            let e = s + len as usize;
            let msg = if tag == 1 {
                MSG_PIECE
            } else if tag == 2 {
                MSG_TRAINER
            } else {
                MSG_NORMALIZER
            };
            match decode_nested_fields(model, msg, s, e, RECURSION_LIMIT - 1) {
                Ok(t) => {
                    if tag == 1 {
                        pieces.push(t);
                        assert(texts_view(pieces@) =~= before.push(opt_text(t)));
                    }
                    p = e;
                },
                Err((k, n)) => return Err(ModelDecodeError { kind: k, field: Some(tag), nested_field: n }),
            }
        } else {
            match skip_field_at(model, wire, tag, q, RECURSION_LIMIT) {
                Ok(r) => p = r,
                Err(k) => return Err(ModelDecodeError { kind: k, field: None, nested_field: None }),
            }
        }
    }
    Ok(pieces)
}

/// The decimal digits of `n`.
pub open spec fn decimal(n: nat) -> Seq<char>
    decreases n,
{
    if n < 10 {
        digit_text(n)
    } else {
        decimal(n / 10) + digit_text(n % 10)
    }
}

/// The decimal digit `d` (below ten).
pub open spec fn digit_text(d: nat) -> Seq<char> {
    if d == 0 {
        "0"@
    } else if d == 1 {
        "1"@
    } else if d == 2 {
        "2"@
    } else if d == 3 {
        "3"@
    } else if d == 4 {
        "4"@
    } else if d == 5 {
        "5"@
    } else if d == 6 {
        "6"@
    } else if d == 7 {
        "7"@
    } else if d == 8 {
        "8"@
    } else {
        "9"@
    }
}

/// The name of a wire type.
pub open spec fn wire_name(w: u64) -> Seq<char> {
    if w == 0 {
        "Varint"@
    } else if w == 1 {
        "SixtyFourBit"@
    } else if w == 2 {
        "LengthDelimited"@
    } else if w == 3 {
        "StartGroup"@
    } else if w == 4 {
        "EndGroup"@
    } else {
        "ThirtyTwoBit"@
    }
}

/// The name of a top-level field of the model.
pub open spec fn field_name(field: u64) -> Seq<char> {
    if field == 1 {
        "pieces"@
    } else if field == 2 {
        "trainer_spec"@
    } else {
        "normalizer_spec"@
    }
}

/// The name of the message that a top-level field holds.
pub open spec fn message_name(field: u64) -> Seq<char> {
    if field == 1 {
        "ModelPiece"@
    } else if field == 2 {
        "TrainerSpec"@
    } else {
        "NormalizerSpec"@
    }
}

/// The name of field `tag` of the message that top-level field `field` holds.
pub open spec fn nested_field_name(field: u64, tag: u64) -> Seq<char> {
    if field == 1 {
        if tag == 1 {
            "piece"@
        } else if tag == 2 {
            "score"@
        } else {
            "piece_type"@
        }
    } else if field == 2 {
        if tag == 3 {
            "model_type"@
        } else if tag == 4 {
            "vocab_size"@
        } else if tag == 40 {
            "unk_id"@
        } else if tag == 41 {
            "bos_id"@
        } else if tag == 42 {
            "eos_id"@
        } else {
            "pad_id"@
        }
    } else {
        if tag == 1 {
            "name"@
        } else if tag == 3 {
            "add_dummy_prefix"@
        } else if tag == 4 {
            "remove_extra_whitespaces"@
        } else {
            "escape_whitespaces"@
        }
    }
}

/// The description of an error's cause.
pub open spec fn kind_text(k: DecodeKind) -> Seq<char> {
    match k {
        DecodeKind::InvalidVarint => "invalid varint"@,
        DecodeKind::RecursionLimitReached => "recursion limit reached"@,
        DecodeKind::InvalidWireType(v) => "invalid wire type value: "@ + decimal(v as nat),
        DecodeKind::InvalidKey(key) => "invalid key value: "@ + decimal(key as nat),
        DecodeKind::InvalidTag => "invalid tag value: 0"@,
        DecodeKind::UnexpectedWireType(actual, expected) => "invalid wire type: "@ + wire_name(actual)
            + " (expected "@ + wire_name(expected) + ")"@,
        DecodeKind::BufferUnderflow => "buffer underflow"@,
        DecodeKind::DelimitedLengthExceeded => "delimited length exceeded"@,
        DecodeKind::UnexpectedEndGroupTag => "unexpected end group tag"@,
        DecodeKind::InvalidString => "invalid string value: data is not UTF-8 encoded"@,
    }
}

/// The fields an error was found in, innermost first, each as `Message.field: `.
pub open spec fn site_text(e: ModelDecodeError) -> Seq<char> {
    match e.field {
        None => Seq::empty(),
        Some(f) => nested_site_text(f, e.nested_field) + "ModelProto."@ + field_name(f) + ": "@,
    }
}

/// The nested field an error was found in, as `Message.field: `, if any.
pub open spec fn nested_site_text(field: u64, nested: Option<u64>) -> Seq<char> {
    match nested {
        None => Seq::empty(),
        Some(n) => message_name(field) + "."@ + nested_field_name(field, n) + ": "@,
    }
}

/// The message of a model decoding error.
pub open spec fn error_text(e: ModelDecodeError) -> Seq<char> {
    "failed to decode Protobuf message: "@ + site_text(e) + kind_text(e.kind)
}

fn digit_str(d: u64) -> (r: &'static str)
    requires
        d < 10,
    ensures
        r@ == digit_text(d as nat),
{
    if d == 0 {
        "0"
    } else if d == 1 {
        "1"
    } else if d == 2 {
        "2"
    } else if d == 3 {
        "3"
    } else if d == 4 {
        "4"
    } else if d == 5 {
        "5"
    } else if d == 6 {
        "6"
    } else if d == 7 {
        "7"
    } else if d == 8 {
        "8"
    } else {
        "9"
    }
}

fn append_decimal(out: &mut String, n: u64)
    ensures
        final(out)@ == old(out)@ + decimal(n as nat),
    decreases n,
{
    if n >= 10 {
        append_decimal(out, n / 10);
    }
    out.append(digit_str(n % 10));
    proof {
        if n >= 10 {
            assert(old(out)@ + decimal((n / 10) as nat) + digit_text((n % 10) as nat) =~= old(out)@ + decimal(
                n as nat,
            ));
        }
    }
}

fn wire_type_name(w: u64) -> (r: &'static str)
    ensures
        r@ == wire_name(w),
{
    if w == 0 {
        "Varint"
    } else if w == 1 {
        "SixtyFourBit"
    } else if w == 2 {
        "LengthDelimited"
    } else if w == 3 {
        "StartGroup"
    } else if w == 4 {
        "EndGroup"
    } else {
        "ThirtyTwoBit"
    }
}

fn field_name_str(field: u64) -> (r: &'static str)
    ensures
        r@ == field_name(field),
{
    if field == 1 {
        "pieces"
    } else if field == 2 {
        "trainer_spec"
    } else {
        "normalizer_spec"
    }
}

fn message_name_str(field: u64) -> (r: &'static str)
    ensures
        r@ == message_name(field),
{
    if field == 1 {
        "ModelPiece"
    } else if field == 2 {
        "TrainerSpec"
    } else {
        "NormalizerSpec"
    }
}

fn nested_field_name_str(field: u64, tag: u64) -> (r: &'static str)
    ensures
        r@ == nested_field_name(field, tag),
{
    if field == 1 {
        if tag == 1 {
            "piece"
        } else if tag == 2 {
            "score"
        } else {
            "piece_type"
        }
    } else if field == 2 {
        if tag == 3 {
            "model_type"
        } else if tag == 4 {
            "vocab_size"
        } else if tag == 40 {
            "unk_id"
        } else if tag == 41 {
            "bos_id"
        } else if tag == 42 {
            "eos_id"
        } else {
            "pad_id"
        }
    } else {
        if tag == 1 {
            "name"
        } else if tag == 3 {
            "add_dummy_prefix"
        } else if tag == 4 {
            "remove_extra_whitespaces"
        } else {
            "escape_whitespaces"
        }
    }
}

fn append_kind(out: &mut String, k: DecodeKind)
    ensures
        final(out)@ == old(out)@ + kind_text(k),
{
    let ghost start = out@;
    match k {
        DecodeKind::InvalidVarint => out.append("invalid varint"),
        DecodeKind::RecursionLimitReached => out.append("recursion limit reached"),
        DecodeKind::InvalidWireType(v) => {
            out.append("invalid wire type value: ");
            append_decimal(out, v);
            assert(out@ =~= start + kind_text(k));
        },
        DecodeKind::InvalidKey(key) => {
            out.append("invalid key value: ");
            append_decimal(out, key);
            assert(out@ =~= start + kind_text(k));
        },
        DecodeKind::InvalidTag => out.append("invalid tag value: 0"),
        DecodeKind::UnexpectedWireType(actual, expected) => {
            out.append("invalid wire type: ");
            out.append(wire_type_name(actual));
            out.append(" (expected ");
            out.append(wire_type_name(expected));
            out.append(")");
            assert(out@ =~= start + kind_text(k));
        },
        DecodeKind::BufferUnderflow => out.append("buffer underflow"),
        DecodeKind::DelimitedLengthExceeded => out.append("delimited length exceeded"),
        DecodeKind::UnexpectedEndGroupTag => out.append("unexpected end group tag"),
        DecodeKind::InvalidString => out.append("invalid string value: data is not UTF-8 encoded"),
    }
}

impl ModelDecodeError {
    /// The error's message: the cause, after the fields it was found in.
    pub fn message(&self) -> (r: String)
        ensures
            r@ == error_text(*self),
    {
        let mut out = String::from_str("failed to decode Protobuf message: ");
        let ghost start = out@;
        match self.field {
            None => {},
            Some(f) => {
                match self.nested_field {
                    None => {},
                    Some(n) => {
                        out.append(message_name_str(f));
                        out.append(".");
                        out.append(nested_field_name_str(f, n));
                        out.append(": ");
                    },
                }
                out.append("ModelProto.");
                out.append(field_name_str(f));
                out.append(": ");
            },
        }
        assert(out@ =~= start + site_text(*self));
        append_kind(&mut out, self.kind);
        assert(out@ =~= error_text(*self));
        out
    }
}

} // verus!
