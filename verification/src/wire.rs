//! Protocol Buffers wire format: varints, field keys, and skipping of
//! fields that a message schema does not name.
//!
//! Every reader takes a buffer and a position in it, and returns the
//! position after what it consumed, or why the bytes are malformed. Reads
//! may run to the end of the buffer; a nested message checks afterwards
//! that its fields ended exactly at its own end.
use vstd::arithmetic::power2::pow2;
use vstd::prelude::*;

verus! {

/// Wire type of a varint field.
pub const WIRE_VARINT: u64 = 0;

/// Wire type of an eight-byte field.
pub const WIRE_FIXED64: u64 = 1;

/// Wire type of a length-delimited field.
pub const WIRE_LEN: u64 = 2;

/// Wire type that opens a group.
pub const WIRE_START_GROUP: u64 = 3;

/// Wire type that closes a group.
pub const WIRE_END_GROUP: u64 = 4;

/// Wire type of a four-byte field.
pub const WIRE_FIXED32: u64 = 5;

/// How deep skipped groups and nested messages may go, counted from the
/// top-level message.
pub const RECURSION_LIMIT: u32 = 100;

/// Length of the varint at the start of `s`, looking from byte `i` on: the
/// first byte below 0x80 ends it; at most ten bytes, and a tenth byte must
/// be 0 or 1 (anything more would not fit in 64 bits).
pub open spec fn varint_len_from(s: Seq<u8>, i: nat) -> Option<nat>
    decreases 10 - i,
{
    if i >= 10 || i >= s.len() {
        None
    } else if s[i as int] < 128 {
        if i == 9 && s[i as int] >= 2 {
            None
        } else {
            Some(i + 1)
        }
    } else {
        varint_len_from(s, i + 1)
    }
}

/// Value of the first `n` bytes of `s` read as a little-endian base-128 number.
pub open spec fn varint_value(s: Seq<u8>, n: nat) -> nat
    decreases n,
{
    if n == 0 {
        0
    } else {
        varint_value(s, (n - 1) as nat) + (s[n - 1] % 128) as nat * pow2((7 * (n - 1)) as nat)
    }
}

/// Why bytes are not a well-formed message, as Protocol Buffers decoders report it.
#[derive(Clone, Copy, Debug, PartialEq, Eq, Structural)]
pub enum DecodeKind {
    InvalidVarint,
    RecursionLimitReached,
    InvalidWireType(u64),
    InvalidKey(u64),
    InvalidTag,
    UnexpectedWireType(u64, u64),
    BufferUnderflow,
    DelimitedLengthExceeded,
    UnexpectedEndGroupTag,
    InvalidString,
}

/// The varint at `pos`: its value and the position after it.
pub open spec fn read_varint(d: Seq<u8>, pos: int) -> Result<(u64, int), DecodeKind> {
    let w = d.subrange(pos, d.len() as int);
    match varint_len_from(w, 0) {
        Some(n) => Ok((varint_value(w, n) as u64, pos + n)),
        None => Err(DecodeKind::InvalidVarint),
    }
}

/// The field key at `pos`: its tag, its wire type and the position after it.
/// A key must fit in 32 bits, name a wire type from 0 to 5 and a tag of at least 1.
pub open spec fn read_key(d: Seq<u8>, pos: int) -> Result<(u64, u64, int), DecodeKind> {
    match read_varint(d, pos) {
        Ok((k, q)) => if k > u32::MAX {
            Err(DecodeKind::InvalidKey(k))
        } else if k % 8 > 5 {
            Err(DecodeKind::InvalidWireType(k % 8))
        } else if k / 8 < 1 {
            Err(DecodeKind::InvalidTag)
        } else {
            Ok((k / 8, k % 8, q))
        },
        Err(e) => Err(e),
    }
}

/// Position after the payload of a field with the given wire type and tag
/// whose key ended at `pos`; `depth` is how many more levels of nesting are
/// allowed (none left fails).
pub open spec fn skip_field(d: Seq<u8>, wire: u64, tag: u64, pos: int, depth: nat) -> Result<int, DecodeKind>
    decreases d.len() - pos, 1nat,
{
    if depth == 0 {
        Err(DecodeKind::RecursionLimitReached)
    } else if pos > d.len() {
        Err(DecodeKind::BufferUnderflow)
    } else if wire == WIRE_VARINT {
        match read_varint(d, pos) {
            Ok((_, q)) => Ok(q),
            Err(e) => Err(e),
        }
    } else if wire == WIRE_FIXED64 {
        if 8 > d.len() - pos { Err(DecodeKind::BufferUnderflow) } else { Ok(pos + 8) }
    } else if wire == WIRE_FIXED32 {
        if 4 > d.len() - pos { Err(DecodeKind::BufferUnderflow) } else { Ok(pos + 4) }
    } else if wire == WIRE_LEN {
        match read_varint(d, pos) {
            Ok((len, q)) => if len > d.len() - q { Err(DecodeKind::BufferUnderflow) } else { Ok(q + len) },
            Err(e) => Err(e),
        }
    } else if wire == WIRE_START_GROUP {
        skip_group(d, tag, pos, depth)
    } else {
        Err(DecodeKind::UnexpectedEndGroupTag)
    }
}

/// Position after the fields of a group opened with `tag`, up to and
/// including the key that closes it with the same tag.
pub open spec fn skip_group(d: Seq<u8>, tag: u64, pos: int, depth: nat) -> Result<int, DecodeKind>
    decreases d.len() - pos, 0nat,
{
    if depth == 0 || pos > d.len() {
        Err(DecodeKind::BufferUnderflow)
    } else {
        match read_key(d, pos) {
            Ok((t, w, q)) => if q <= pos || q > d.len() {
                Err(DecodeKind::BufferUnderflow)
            } else if w == WIRE_END_GROUP {
                if t == tag { Ok(q) } else { Err(DecodeKind::UnexpectedEndGroupTag) }
            } else {
                match skip_field(d, w, t, q, (depth - 1) as nat) {
                    Ok(r) => if r < q || r > d.len() {
                        Err(DecodeKind::BufferUnderflow)
                    } else {
                        skip_group(d, tag, r, depth)
                    },
                    Err(e) => Err(e),
                }
            },
            Err(e) => Err(e),
        }
    }
}

pub proof fn lemma_varint_len_bounds(s: Seq<u8>, i: nat)
    requires
        varint_len_from(s, i) is Some,
    ensures
        i < varint_len_from(s, i)->0 <= s.len(),
        varint_len_from(s, i)->0 <= 10,
    decreases 10 - i,
{
    if i < 10 && i < s.len() && s[i as int] >= 128 {
        lemma_varint_len_bounds(s, i + 1);
    }
}

/// A varint read inside the buffer ends after its first byte and within the buffer.
pub proof fn lemma_read_varint_advances(d: Seq<u8>, pos: int)
    requires
        0 <= pos <= d.len(),
        read_varint(d, pos) is Ok,
    ensures
        pos < read_varint(d, pos)->Ok_0.1 <= d.len(),
{
    lemma_varint_len_bounds(d.subrange(pos, d.len() as int), 0);
}

/// A field key read inside the buffer ends after its first byte and within the buffer.
pub proof fn lemma_read_key_advances(d: Seq<u8>, pos: int)
    requires
        0 <= pos <= d.len(),
        read_key(d, pos) is Ok,
    ensures
        pos < read_key(d, pos)->Ok_0.2 <= d.len(),
        read_key(d, pos)->Ok_0.2 == read_varint(d, pos)->Ok_0.1,
{
    lemma_read_varint_advances(d, pos);
}

/// Skipping a field never moves back.
pub proof fn lemma_skip_field_advances(d: Seq<u8>, wire: u64, tag: u64, pos: int, depth: nat)
    requires
        0 <= pos,
        skip_field(d, wire, tag, pos, depth) is Ok,
    ensures
        pos <= skip_field(d, wire, tag, pos, depth)->Ok_0,
    decreases d.len() - pos, 1nat,
{
    if wire == WIRE_VARINT {
        lemma_read_varint_advances(d, pos);
    } else if wire == WIRE_LEN {
        lemma_read_varint_advances(d, pos);
    } else if wire == WIRE_START_GROUP {
        lemma_skip_group_advances(d, tag, pos, depth);
    }
}

/// Skipping a group moves past its position.
pub proof fn lemma_skip_group_advances(d: Seq<u8>, tag: u64, pos: int, depth: nat)
    requires
        0 <= pos,
        skip_group(d, tag, pos, depth) is Ok,
    ensures
        pos < skip_group(d, tag, pos, depth)->Ok_0,
    decreases d.len() - pos, 0nat,
{
    if let Ok((t, w, q)) = read_key(d, pos) {
        if q > pos && q <= d.len() && w != WIRE_END_GROUP {
            if let Ok(r) = skip_field(d, w, t, q, (depth - 1) as nat) {
                if r >= q && r <= d.len() {
                    lemma_skip_group_advances(d, tag, r, depth);
                }
            }
        }
    }
}

/// Whether `d1` from `k1` on holds the same bytes as `d2` from `k2` on.
pub open spec fn same_tail(d1: Seq<u8>, k1: int, d2: Seq<u8>, k2: int) -> bool {
    &&& 0 <= k1 <= d1.len()
    &&& 0 <= k2 <= d2.len()
    &&& d1.subrange(k1, d1.len() as int) == d2.subrange(k2, d2.len() as int)
}

/// A position, or why there is none, moved by `delta`.
pub open spec fn moved(r: Result<int, DecodeKind>, delta: int) -> Result<int, DecodeKind> {
    match r {
        Ok(q) => Ok(q + delta),
        Err(e) => Err(e),
    }
}

/// Buffers with the same tail have as many bytes after it, and the same ones.
pub proof fn lemma_same_tail_bytes(d1: Seq<u8>, k1: int, d2: Seq<u8>, k2: int)
    requires
        same_tail(d1, k1, d2, k2),
    ensures
        d1.len() - k1 == d2.len() - k2,
        forall|i: int| k2 <= i < d2.len() ==> d1[i + (k1 - k2)] == #[trigger] d2[i],
{
    assert(d1.subrange(k1, d1.len() as int).len() == d2.subrange(k2, d2.len() as int).len());
    assert forall|i: int| k2 <= i < d2.len() implies d1[i + (k1 - k2)] == #[trigger] d2[i] by {
        assert(d1.subrange(k1, d1.len() as int)[i - k2] == d2.subrange(k2, d2.len() as int)[i - k2]);
    }
}

/// Reading a varint depends only on the bytes from its position on.
pub proof fn lemma_read_varint_same_tail(d1: Seq<u8>, k1: int, d2: Seq<u8>, k2: int, p: int)
    requires
        same_tail(d1, k1, d2, k2),
        k2 <= p <= d2.len(),
    ensures
        match read_varint(d2, p) {
            Ok((v, q)) => read_varint(d1, p + (k1 - k2)) == Ok::<(u64, int), DecodeKind>((v, q + (k1 - k2))),
            Err(e) => read_varint(d1, p + (k1 - k2)) == Err::<(u64, int), DecodeKind>(e),
        },
{
    lemma_same_tail_bytes(d1, k1, d2, k2);
    assert(d1.subrange(p + (k1 - k2), d1.len() as int) =~= d2.subrange(p, d2.len() as int));
}

/// Reading a field key depends only on the bytes from its position on.
pub proof fn lemma_read_key_same_tail(d1: Seq<u8>, k1: int, d2: Seq<u8>, k2: int, p: int)
    requires
        same_tail(d1, k1, d2, k2),
        k2 <= p <= d2.len(),
    ensures
        match read_key(d2, p) {
            Ok((t, w, q)) => read_key(d1, p + (k1 - k2)) == Ok::<(u64, u64, int), DecodeKind>(
                (t, w, q + (k1 - k2)),
            ),
            Err(e) => read_key(d1, p + (k1 - k2)) == Err::<(u64, u64, int), DecodeKind>(e),
        },
{
    lemma_read_varint_same_tail(d1, k1, d2, k2, p);
}

/// Skipping a field depends only on the bytes from its position on.
pub proof fn lemma_skip_field_same_tail(
    d1: Seq<u8>,
    k1: int,
    d2: Seq<u8>,
    k2: int,
    wire: u64,
    tag: u64,
    p: int,
    depth: nat,
)
    requires
        same_tail(d1, k1, d2, k2),
        k2 <= p,
    ensures
        skip_field(d1, wire, tag, p + (k1 - k2), depth) == moved(skip_field(d2, wire, tag, p, depth), k1 - k2),
    decreases d2.len() - p, 1nat,
{
    lemma_same_tail_bytes(d1, k1, d2, k2);
    if depth > 0 && p <= d2.len() {
        if wire == WIRE_VARINT || wire == WIRE_LEN {
            lemma_read_varint_same_tail(d1, k1, d2, k2, p);
        } else if wire == WIRE_START_GROUP {
            lemma_skip_group_same_tail(d1, k1, d2, k2, tag, p, depth);
        }
    }
}

/// Skipping a group depends only on the bytes from its position on.
pub proof fn lemma_skip_group_same_tail(d1: Seq<u8>, k1: int, d2: Seq<u8>, k2: int, tag: u64, p: int, depth: nat)
    requires
        same_tail(d1, k1, d2, k2),
        k2 <= p,
    ensures
        skip_group(d1, tag, p + (k1 - k2), depth) == moved(skip_group(d2, tag, p, depth), k1 - k2),
    decreases d2.len() - p, 0nat,
{
    lemma_same_tail_bytes(d1, k1, d2, k2);
    if depth > 0 && p <= d2.len() {
        lemma_read_key_same_tail(d1, k1, d2, k2, p);
        if let Ok((t, w, q)) = read_key(d2, p) {
            if q > p && q <= d2.len() && w != WIRE_END_GROUP {
                lemma_skip_field_same_tail(d1, k1, d2, k2, w, t, q, (depth - 1) as nat);
                if let Ok(r) = skip_field(d2, w, t, q, (depth - 1) as nat) {
                    if r >= q && r <= d2.len() {
                        lemma_skip_group_same_tail(d1, k1, d2, k2, tag, r, depth);
                    }
                }
            }
        }
    }
}

/// Reads the varint at `pos`, calling `prost::encoding::decode_varint` on
/// the window `data[pos..end]`. Returns its value and how many bytes of the
/// window remain after it.
///
/// Trusted: the contract claims that prost accepts exactly the varints that
/// `varint_len_from` describes (a first byte below 0x80 within ten bytes,
/// a tenth byte of 0 or 1) and returns their base-128 value.
#[verifier::external_body]
fn prost_decode_varint(data: &[u8], pos: usize, end: usize) -> (r: Option<(u64, usize)>)
    requires
        pos <= end <= data.len(),
    ensures
        match varint_len_from(data@.subrange(pos as int, end as int), 0) {
            Some(n) => r == Some(
                (
                    varint_value(data@.subrange(pos as int, end as int), n) as u64,
                    (end - pos - n) as usize,
                ),
            ),
            None => r is None,
        },
{
    let mut buf = &data[pos..end];
    match prost::encoding::decode_varint(&mut buf) {
        Ok(v) => Some((v, buf.len())),
        Err(_) => None,
    }
}

/// Reads the varint at `pos`.
pub fn decode_varint(data: &[u8], pos: usize) -> (r: Result<(u64, usize), DecodeKind>)
    requires
        pos <= data.len(),
    ensures
        match read_varint(data@, pos as int) {
            Ok((v, q)) => r matches Ok((v2, q2)) && v2 == v && q2 == q,
            Err(e) => r == Err::<(u64, usize), DecodeKind>(e),
        },
        r matches Ok((_, q)) ==> pos < q <= data.len(),
{
    match prost_decode_varint(data, pos, data.len()) {
        Some((v, rest)) => {
            proof {
                lemma_varint_len_bounds(data@.subrange(pos as int, data.len() as int), 0);
            }
            Ok((v, data.len() - rest))
        },
        None => Err(DecodeKind::InvalidVarint),
    }
}

/// Reads the field key at `pos`: its tag, wire type and the position after it.
pub fn decode_key(data: &[u8], pos: usize) -> (r: Result<(u64, u64, usize), DecodeKind>)
    requires
        pos <= data.len(),
    ensures
        match read_key(data@, pos as int) {
            Ok((t, w, q)) => r matches Ok((t2, w2, q2)) && t2 == t && w2 == w && q2 == q,
            Err(e) => r == Err::<(u64, u64, usize), DecodeKind>(e),
        },
        r matches Ok((_, _, q)) ==> pos < q <= data.len(),
{
    let (k, q) = match decode_varint(data, pos) {
        Ok(x) => x,
        Err(e) => return Err(e),
    };
    if k > 0xffff_ffff {
        Err(DecodeKind::InvalidKey(k))
    } else if k % 8 > 5 {
        Err(DecodeKind::InvalidWireType(k % 8))
    } else if k / 8 < 1 {
        Err(DecodeKind::InvalidTag)
    } else {
        Ok((k / 8, k % 8, q))
    }
}

/// Skips the payload of a field whose key ended at `pos`. The nesting
/// depth is a parameter here because a decoder's recursion budget at a
/// nested message cannot be handed to prost's own `skip_field` from outside.
pub fn skip_field_at(data: &[u8], wire: u64, tag: u64, pos: usize, depth: u32) -> (r: Result<usize, DecodeKind>)
    requires
        pos <= data.len(),
    ensures
        match skip_field(data@, wire, tag, pos as int, depth as nat) {
            Ok(q) => r matches Ok(q2) && q2 == q,
            Err(e) => r == Err::<usize, DecodeKind>(e),
        },
        r matches Ok(q) ==> pos <= q <= data.len(),
    decreases data.len() - pos, 1nat,
{
    if depth == 0 {
        Err(DecodeKind::RecursionLimitReached)
    } else if wire == WIRE_VARINT {
        match decode_varint(data, pos) {
            Ok((_, q)) => Ok(q),
            Err(e) => Err(e),
        }
    } else if wire == WIRE_FIXED64 {
        if data.len() - pos < 8 { Err(DecodeKind::BufferUnderflow) } else { Ok(pos + 8) }
    } else if wire == WIRE_FIXED32 {
        if data.len() - pos < 4 { Err(DecodeKind::BufferUnderflow) } else { Ok(pos + 4) }
    } else if wire == WIRE_LEN {
        match decode_varint(data, pos) {
            Ok((len, q)) => {
                if len > (data.len() - q) as u64 {
                    Err(DecodeKind::BufferUnderflow)
                } else {
                    Ok(q + len as usize)
                }
            },
            Err(e) => Err(e),
        }
    } else if wire == WIRE_START_GROUP {
        skip_group_at(data, tag, pos, depth)
    } else {
        Err(DecodeKind::UnexpectedEndGroupTag)
    }
}

/// Skips the fields of a group opened with `tag`, through its closing key.
pub fn skip_group_at(data: &[u8], tag: u64, pos: usize, depth: u32) -> (r: Result<usize, DecodeKind>)
    requires
        pos <= data.len(),
    ensures
        match skip_group(data@, tag, pos as int, depth as nat) {
            Ok(q) => r matches Ok(q2) && q2 == q,
            Err(e) => r == Err::<usize, DecodeKind>(e),
        },
        r matches Ok(q) ==> pos <= q <= data.len(),
    decreases data.len() - pos, 0nat,
{
    if depth == 0 {
        return Err(DecodeKind::BufferUnderflow);
    }
    let (t, w, q) = match decode_key(data, pos) {
        Ok(x) => x,
        Err(e) => return Err(e),
    };
    if w == WIRE_END_GROUP {
        if t == tag { Ok(q) } else { Err(DecodeKind::UnexpectedEndGroupTag) }
    } else {
        match skip_field_at(data, w, t, q, depth - 1) {
            Ok(r) => skip_group_at(data, tag, r, depth),
            Err(e) => Err(e),
        }
    }
}

} // verus!
