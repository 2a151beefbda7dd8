//! SentencePiece hotword tokenization over plain values.
//!
//! The SentencePiece processor itself runs outside this library: a caller
//! loads it, asks [`SentencePieceTokenizer::encode_requests`] which texts to
//! encode, encodes them, and hands the pieces back to
//! [`SentencePieceTokenizer::tokenize`], which maps them to acoustic token
//! IDs. The word-boundary token IDs come from the model's own piece list,
//! which [`SentencePieceTokenizer::from_serialized_proto`] reads.
use std::collections::HashSet;
use std::sync::Arc;
use vstd::hash_map::StringHashMap;
use vstd::prelude::*;
use vstd::std_specs::iter::IteratorSpec;

use crate::error::{TokenizerError, TokenizerErrorView};
use crate::model_proto::{error_text, model_pieces, parse_model_pieces, texts_view};
use crate::text::{
    has_boundary_prefix, is_boundary_mark, is_boundary_piece, starts_with_boundary, trim, trimmed,
    with_boundary_prefix, WORD_BOUNDARY,
};

verus! {

broadcast use vstd::std_specs::hash::group_hash_axioms;

/// How pieces become acoustic token IDs.
pub struct SentencePieceConfig {
    /// Exact map from piece text to acoustic token ID; when empty, the
    /// SentencePiece IDs are used as they are.
    pub symbol_table: StringHashMap<usize>,
    /// Whether a hotword is encoded as the start of a word.
    pub add_word_boundary: bool,
}

impl Default for SentencePieceConfig {
    fn default() -> (r: Self)
        ensures
            r.symbol_table@ == Map::<Seq<char>, usize>::empty(),
            r.add_word_boundary,
    {
        SentencePieceConfig { symbol_table: StringHashMap::new(), add_word_boundary: true }
    }
}

/// Token IDs of the hotwords, and the token IDs that begin a word.
#[derive(Debug, PartialEq, Eq)]
pub struct SentencePieceTokenization {
    pub context_token_ids: Vec<Vec<usize>>,
    pub word_boundary_token_ids: HashSet<usize>,
}

/// One piece that the SentencePiece processor produced.
#[derive(Clone, Debug, PartialEq, Eq)]
pub struct EncodedPiece {
    pub piece: String,
    pub id: u32,
}

/// A hotword text to encode, and the word-marked variant to encode too, if one is wanted.
#[derive(Clone, Debug, PartialEq, Eq)]
pub struct EncodeRequest {
    pub text: String,
    pub marked_text: Option<String>,
}

/// What the processor returned for one [`EncodeRequest`]: the encoding of
/// its text, and of its marked text when it has one. An error is the
/// processor's message.
#[derive(Debug, PartialEq, Eq)]
pub struct EncodedContext {
    pub text: String,
    pub raw: Result<Vec<EncodedPiece>, String>,
    pub marked: Option<Result<Vec<EncodedPiece>, String>>,
}

struct TokenizerTables {
    symbol_table: StringHashMap<usize>,
    unknown_id: Option<usize>,
    add_word_boundary: bool,
    word_boundary_token_ids: HashSet<usize>,
}

/// The tables of a loaded SentencePiece model, shared between copies.
pub struct SentencePieceTokenizer {
    inner: Arc<TokenizerTables>,
}

impl Clone for SentencePieceTokenizer {
    /// A copy that shares the loaded tables.
    fn clone(&self) -> (r: Self)
        ensures
            r@ == self@,
    {
        SentencePieceTokenizer { inner: Arc::clone(&self.inner) }
    }
}

/// The abstract value of a [`SentencePieceTokenizer`].
pub struct TokenizerView {
    pub symbol_table: Map<Seq<char>, usize>,
    pub unknown_id: Option<usize>,
    pub add_word_boundary: bool,
    pub word_boundary_token_ids: Set<usize>,
}

impl View for SentencePieceTokenizer {
    type V = TokenizerView;

    closed spec fn view(&self) -> TokenizerView {
        TokenizerView {
            symbol_table: self.inner.symbol_table@,
            unknown_id: self.inner.unknown_id,
            add_word_boundary: self.inner.add_word_boundary,
            word_boundary_token_ids: self.inner.word_boundary_token_ids@,
        }
    }
}

/// The name of the unknown piece in a symbol table.
pub open spec fn unknown_piece() -> Seq<char> {
    "<unk>"@
}

/// The acoustic token ID of piece number `i` with text `piece`, if it is a
/// word-boundary token: pieces that start with the word-boundary mark, by
/// their own position when the table is empty, else by their table entry.
pub open spec fn boundary_piece_id(piece: Option<Seq<char>>, i: int, table: Map<Seq<char>, usize>) -> Option<
    usize,
> {
    match piece {
        Some(s) => if !starts_with_boundary(s) {
            None
        } else if table.dom().is_empty() {
            Some(i as usize)
        } else if table.contains_key(s) {
            Some(table[s])
        } else {
            None
        },
        None => None,
    }
}

/// The word-boundary token IDs among the first `n` pieces.
pub open spec fn boundary_ids_upto(
    pieces: Seq<Option<Seq<char>>>,
    table: Map<Seq<char>, usize>,
    n: int,
) -> Set<usize> {
    Set::new(
        |x: usize|
            exists|i: int| 0 <= i < n && #[trigger] boundary_piece_id(pieces[i], i, table) == Some(x),
    )
}

/// The word-boundary token IDs of a model with the given pieces.
pub open spec fn boundary_ids(pieces: Seq<Option<Seq<char>>>, table: Map<Seq<char>, usize>) -> Set<usize> {
    boundary_ids_upto(pieces, table, pieces.len() as int)
}

/// The tokenizer that a model with `pieces` and the given configuration yields.
pub open spec fn loaded_tokenizer(
    pieces: Seq<Option<Seq<char>>>,
    table: Map<Seq<char>, usize>,
    add_word_boundary: bool,
) -> TokenizerView {
    TokenizerView {
        symbol_table: table,
        unknown_id: if table.contains_key(unknown_piece()) {
            Some(table[unknown_piece()])
        } else {
            None
        },
        add_word_boundary,
        word_boundary_token_ids: boundary_ids(pieces, table),
    }
}

/// The request for one hotword: `None` when it is empty once trimmed.
pub open spec fn request_for(t: TokenizerView, context: Seq<char>) -> Option<(Seq<char>, Option<Seq<char>>)> {
    let text = trimmed(context);
    if text.len() == 0 {
        None
    } else {
        Some(
            (
                text,
                if t.add_word_boundary && !starts_with_boundary(text) {
                    Some(seq![WORD_BOUNDARY] + text)
                } else {
                    None
                },
            ),
        )
    }
}

/// The requests for a list of hotwords, in order, skipping empty ones.
pub open spec fn requests_for(t: TokenizerView, contexts: Seq<Seq<char>>) -> Seq<(Seq<char>, Option<Seq<char>>)>
    decreases contexts.len(),
{
    if contexts.len() == 0 {
        Seq::empty()
    } else {
        let rest = requests_for(t, contexts.drop_last());
        match request_for(t, contexts.last()) {
            Some(req) => rest.push(req),
            None => rest,
        }
    }
}

/// The abstract value of a request.
pub open spec fn request_view(r: EncodeRequest) -> (Seq<char>, Option<Seq<char>>) {
    (
        r.text@,
        match r.marked_text {
            Some(m) => Some(m@),
            None => None,
        },
    )
}

/// Whether `es` holds, in order, one encoding for each request, with the
/// request's text, and a marked encoding exactly when the request has a marked text.
pub open spec fn matches_requests(es: Seq<EncodedContext>, reqs: Seq<(Seq<char>, Option<Seq<char>>)>) -> bool {
    &&& es.len() == reqs.len()
    &&& forall|j: int| 0 <= j < es.len() ==> #[trigger] request_matched(es[j], reqs[j])
}

/// Whether `e` has the text of `req`, and a marked encoding exactly when `req` has a marked text.
pub open spec fn request_matched(e: EncodedContext, req: (Seq<char>, Option<Seq<char>>)) -> bool {
    e.text@ == req.0 && (e.marked is Some) == (req.1 is Some)
}

/// The characters of each string.
pub open spec fn strings_view(v: Seq<String>) -> Seq<Seq<char>> {
    Seq::new(v.len(), |i: int| v[i]@)
}

/// The acoustic token ID of one piece, if it has one.
pub open spec fn piece_id(t: TokenizerView, piece: Seq<char>, id: u32) -> Option<usize> {
    if t.symbol_table.dom().is_empty() {
        Some(id as usize)
    } else if t.symbol_table.contains_key(piece) {
        Some(t.symbol_table[piece])
    } else {
        t.unknown_id
    }
}

/// The acoustic token IDs of a list of pieces, or the text of the first piece that has none.
pub open spec fn piece_ids(t: TokenizerView, ps: Seq<EncodedPiece>) -> Result<Seq<usize>, Seq<char>>
    decreases ps.len(),
{
    if ps.len() == 0 {
        Ok(Seq::empty())
    } else {
        match piece_ids(t, ps.drop_last()) {
            Ok(ids) => match piece_id(t, ps.last().piece@, ps.last().id) {
                Some(x) => Ok(ids.push(x)),
                None => Err(ps.last().piece@),
            },
            Err(p) => Err(p),
        }
    }
}

/// The pieces that stand for one hotword: the marked encoding when there is
/// one and it does not begin with the word-boundary mark alone, else the plain one.
pub open spec fn chosen_pieces(e: EncodedContext) -> Result<Seq<EncodedPiece>, Seq<char>> {
    match e.raw {
        Err(m) => Err(m@),
        Ok(raw) => match e.marked {
            None => Ok(raw@),
            Some(Err(m)) => Err(m@),
            Some(Ok(marked)) => if marked@.len() > 0 && !is_boundary_mark(marked@[0].piece@) {
                Ok(marked@)
            } else {
                Ok(raw@)
            },
        },
    }
}

/// The acoustic token IDs of one encoded hotword.
pub open spec fn context_ids(t: TokenizerView, e: EncodedContext) -> Result<Seq<usize>, TokenizerErrorView> {
    match chosen_pieces(e) {
        Err(m) => Err(TokenizerErrorView::SentencePiece(m)),
        Ok(ps) => match piece_ids(t, ps) {
            Ok(ids) => Ok(ids),
            Err(p) => Err(TokenizerErrorView::MissingPiece { piece: p, context: e.text@ }),
        },
    }
}

/// The token ID lists of a list of encoded hotwords, leaving out empty
/// lists, or the first error.
pub open spec fn tokenized(t: TokenizerView, es: Seq<EncodedContext>) -> Result<
    Seq<Seq<usize>>,
    TokenizerErrorView,
>
    decreases es.len(),
{
    if es.len() == 0 {
        Ok(Seq::empty())
    } else {
        match tokenized(t, es.drop_last()) {
            Ok(acc) => match context_ids(t, es.last()) {
                Ok(ids) => Ok(
                    if ids.len() > 0 {
                        acc.push(ids)
                    } else {
                        acc
                    },
                ),
                Err(e) => Err(e),
            },
            Err(e) => Err(e),
        }
    }
}

/// The ID lists of a vector of ID vectors.
pub open spec fn id_lists_view(v: Seq<Vec<usize>>) -> Seq<Seq<usize>> {
    Seq::new(v.len(), |i: int| v[i]@)
}

/// A processor's answer to one text, as values.
pub open spec fn encoding_view(r: Result<Vec<EncodedPiece>, String>) -> Result<Seq<EncodedPiece>, Seq<char>> {
    match r {
        Ok(v) => Ok(v@),
        Err(m) => Err(m@),
    }
}

/// Whether `e` holds what the encoder `f` answers to the request `req`.
pub open spec fn answers(
    e: EncodedContext,
    req: (Seq<char>, Option<Seq<char>>),
    f: spec_fn(Seq<char>) -> Result<Seq<EncodedPiece>, Seq<char>>,
) -> bool {
    &&& e.text@ == req.0
    &&& encoding_view(e.raw) == f(req.0)
    &&& match req.1 {
        None => e.marked is None,
        Some(m) => e.marked matches Some(r) && encoding_view(r) == f(m),
    }
}

/// The pieces of one trimmed hotword with the encoder `f`: its own
/// encoding, unless words are marked, it does not start with the mark, and
/// the encoding of the marked text begins with more than the mark alone.
pub open spec fn hotword_pieces(
    t: TokenizerView,
    f: spec_fn(Seq<char>) -> Result<Seq<EncodedPiece>, Seq<char>>,
    text: Seq<char>,
) -> Result<Seq<EncodedPiece>, Seq<char>> {
    match f(text) {
        Err(m) => Err(m),
        Ok(raw) => if !t.add_word_boundary || starts_with_boundary(text) {
            Ok(raw)
        } else {
            match f(seq![WORD_BOUNDARY] + text) {
                Err(m) => Err(m),
                Ok(marked) => if marked.len() > 0 && !is_boundary_mark(marked[0].piece@) {
                    Ok(marked)
                } else {
                    Ok(raw)
                },
            }
        },
    }
}

/// The token IDs of one trimmed hotword with the encoder `f`.
pub open spec fn hotword_ids(
    t: TokenizerView,
    f: spec_fn(Seq<char>) -> Result<Seq<EncodedPiece>, Seq<char>>,
    text: Seq<char>,
) -> Result<Seq<usize>, TokenizerErrorView> {
    match hotword_pieces(t, f, text) {
        Err(m) => Err(TokenizerErrorView::SentencePiece(m)),
        Ok(ps) => match piece_ids(t, ps) {
            Ok(ids) => Ok(ids),
            Err(p) => Err(TokenizerErrorView::MissingPiece { piece: p, context: text }),
        },
    }
}

/// Tokenizing hotwords one after another with the encoder `f`: each is
/// trimmed, empty ones are skipped, so are empty ID lists, and the first
/// error ends it.
pub open spec fn tokenize_with(
    t: TokenizerView,
    f: spec_fn(Seq<char>) -> Result<Seq<EncodedPiece>, Seq<char>>,
    contexts: Seq<Seq<char>>,
) -> Result<Seq<Seq<usize>>, TokenizerErrorView>
    decreases contexts.len(),
{
    if contexts.len() == 0 {
        Ok(Seq::empty())
    } else {
        match tokenize_with(t, f, contexts.drop_last()) {
            Err(e) => Err(e),
            Ok(acc) => {
                let text = trimmed(contexts.last());
                if text.len() == 0 {
                    Ok(acc)
                } else {
                    match hotword_ids(t, f, text) {
                        Err(e) => Err(e),
                        Ok(ids) => Ok(
                            if ids.len() > 0 {
                                acc.push(ids)
                            } else {
                                acc
                            },
                        ),
                    }
                }
            },
        }
    }
}

/// Tokenizing the encodings of the requests for a list of hotwords gives
/// what tokenizing the hotwords one after another with the same encoder gives.
pub proof fn law_tokenize_follows_requests(
    t: TokenizerView,
    f: spec_fn(Seq<char>) -> Result<Seq<EncodedPiece>, Seq<char>>,
    contexts: Seq<Seq<char>>,
    es: Seq<EncodedContext>,
)
    requires
        es.len() == requests_for(t, contexts).len(),
        forall|j: int| 0 <= j < es.len() ==> answers(es[j], requests_for(t, contexts)[j], f),
    ensures
        tokenized(t, es) == tokenize_with(t, f, contexts),
    decreases contexts.len(),
{
    if contexts.len() > 0 {
        let init = contexts.drop_last();
        let reqs = requests_for(t, contexts);
        match request_for(t, contexts.last()) {
            None => {
                law_tokenize_follows_requests(t, f, init, es);
            },
            Some(req) => {
                let prev = requests_for(t, init);
                assert(reqs == prev.push(req));
                assert forall|j: int| 0 <= j < es.drop_last().len() implies answers(
                    es.drop_last()[j],
                    prev[j],
                    f,
                ) by {
                    assert(es.drop_last()[j] == es[j]);
                    assert(reqs[j] == prev[j]);
                }
                law_tokenize_follows_requests(t, f, init, es.drop_last());
                let e = es.last();
                assert(answers(e, req, f)) by {
                    assert(reqs[reqs.len() - 1] == req);
                }
                assert(chosen_pieces(e) == hotword_pieces(t, f, req.0));
                assert(context_ids(t, e) == hotword_ids(t, f, req.0));
            },
        }
    }
}

/// Mapping pieces to token IDs succeeds exactly when every piece has an ID,
/// and then keeps every piece, in order: no piece is dropped.
pub proof fn law_piece_ids_keep_every_piece(t: TokenizerView, ps: Seq<EncodedPiece>)
    ensures
        piece_ids(t, ps) is Ok <==> forall|i: int| 0 <= i < ps.len() ==> #[trigger] piece_id(t, ps[i].piece@, ps[i].id) is Some,
        piece_ids(t, ps) matches Ok(ids) ==> ids.len() == ps.len() && forall|i: int|
            0 <= i < ps.len() ==> Some(ids[i]) == #[trigger] piece_id(t, ps[i].piece@, ps[i].id),
    decreases ps.len(),
{
    if ps.len() > 0 {
        let init = ps.drop_last();
        law_piece_ids_keep_every_piece(t, init);
        assert forall|i: int| 0 <= i < init.len() implies init[i] == ps[i] by {}
        if piece_ids(t, ps) is Ok {
            assert forall|i: int| 0 <= i < ps.len() implies #[trigger] piece_id(t, ps[i].piece@, ps[i].id) is Some by {
                if i < init.len() {
                    assert(init[i] == ps[i]);
                }
            }
        } else if piece_ids(t, init) is Ok {
            assert(piece_id(t, ps[ps.len() - 1].piece@, ps[ps.len() - 1].id) is None);
        } else {
            let k = choose|k: int| 0 <= k < init.len() && !(#[trigger] piece_id(t, init[k].piece@, init[k].id) is Some);
            assert(init[k] == ps[k]);
        }
    }
}

/// With an `<unk>` entry in a non-empty symbol table, every piece has a
/// token ID, so tokenizing never reports a missing piece.
pub proof fn law_unknown_entry_maps_every_piece(
    pieces: Seq<Option<Seq<char>>>,
    table: Map<Seq<char>, usize>,
    add_word_boundary: bool,
    ps: Seq<EncodedPiece>,
)
    requires
        table.contains_key(unknown_piece()),
    ensures
        piece_ids(loaded_tokenizer(pieces, table, add_word_boundary), ps) is Ok,
{
    let t = loaded_tokenizer(pieces, table, add_word_boundary);
    law_piece_ids_keep_every_piece(t, ps);
    assert forall|i: int| 0 <= i < ps.len() implies #[trigger] piece_id(t, ps[i].piece@, ps[i].id) is Some by {}
}

/// The unknown ID of a loaded tokenizer is the symbol table's `<unk>`
/// entry whenever the table has one, and there is none otherwise. So a
/// piece that a non-empty table lacks takes the `<unk>` entry's ID,
/// whatever other entries the table has, and has no ID without that entry.
pub proof fn law_missing_piece_takes_unknown_entry(
    pieces: Seq<Option<Seq<char>>>,
    table: Map<Seq<char>, usize>,
    add_word_boundary: bool,
    piece: Seq<char>,
    id: u32,
)
    ensures
        table.contains_key("<unk>"@) ==> loaded_tokenizer(pieces, table, add_word_boundary).unknown_id == Some(
            table["<unk>"@],
        ),
        !table.contains_key("<unk>"@) ==> loaded_tokenizer(pieces, table, add_word_boundary).unknown_id is None,
        table.contains_key("<unk>"@) && !table.contains_key(piece) ==> piece_id(
            loaded_tokenizer(pieces, table, add_word_boundary),
            piece,
            id,
        ) == Some(table["<unk>"@]),
        !table.dom().is_empty() && !table.contains_key("<unk>"@) && !table.contains_key(piece) ==> piece_id(
            loaded_tokenizer(pieces, table, add_word_boundary),
            piece,
            id,
        ) is None,
{
    if table.contains_key("<unk>"@) {
        assert(!table.dom().is_empty()) by {
            assert(table.dom().contains("<unk>"@));
        }
    }
}

/// Encodings are accepted as answering the requests only when there is one
/// for each request, in order, each with its request's text and with a
/// marked encoding exactly when its request has a marked text.
pub proof fn law_requests_refuse_other_encodings(es: Seq<EncodedContext>, reqs: Seq<(Seq<char>, Option<Seq<char>>)>)
    ensures
        matches_requests(es, reqs) ==> es.len() == reqs.len(),
        matches_requests(es, reqs) ==> forall|j: int|
            0 <= j < es.len() ==> #[trigger] es[j].text@ == reqs[j].0 && (es[j].marked is Some <==> reqs[j].1 is Some),
{
    if matches_requests(es, reqs) {
        assert forall|j: int| 0 <= j < es.len() implies #[trigger] es[j].text@ == reqs[j].0 && (es[j].marked is Some
            <==> reqs[j].1 is Some) by {
            assert(request_matched(es[j], reqs[j]));
        }
    }
}

/// Encodings that an encoder made for the requests, one for each request
/// and in the same order, are accepted as answering them, whatever the
/// encoder returned.
pub proof fn law_answers_match_requests(
    es: Seq<EncodedContext>,
    reqs: Seq<(Seq<char>, Option<Seq<char>>)>,
    f: spec_fn(Seq<char>) -> Result<Seq<EncodedPiece>, Seq<char>>,
)
    requires
        es.len() == reqs.len(),
        forall|j: int| 0 <= j < es.len() ==> answers(es[j], reqs[j], f),
    ensures
        matches_requests(es, reqs),
{
    assert forall|j: int| 0 <= j < es.len() implies #[trigger] request_matched(es[j], reqs[j]) by {
        assert(answers(es[j], reqs[j], f));
    }
}

/// Whether a piece has text that starts with the word-boundary mark.
pub open spec fn marks_word(piece: Option<Seq<char>>) -> bool {
    match piece {
        Some(s) => starts_with_boundary(s),
        None => false,
    }
}

/// Whether a piece starts with the word-boundary mark and the table maps its text to `x`.
pub open spec fn marks_word_as(piece: Option<Seq<char>>, table: Map<Seq<char>, usize>, x: usize) -> bool {
    match piece {
        Some(s) => starts_with_boundary(s) && table.contains_key(s) && table[s] == x,
        None => false,
    }
}

/// The word-boundary token IDs of a model are exactly the IDs of the pieces
/// that start with the mark: their positions without a symbol table, their
/// table entries with one, where pieces missing from the table add nothing.
pub proof fn law_boundary_ids_come_from_pieces(pieces: Seq<Option<Seq<char>>>, table: Map<Seq<char>, usize>, x: usize)
    requires
        pieces.len() <= usize::MAX,
    ensures
        table.dom().is_empty() ==> (boundary_ids(pieces, table).contains(x) <==> (x < pieces.len()
            && marks_word(pieces[x as int]))),
        !table.dom().is_empty() ==> (boundary_ids(pieces, table).contains(x) <==> exists|i: int|
            0 <= i < pieces.len() && #[trigger] marks_word_as(pieces[i], table, x)),
{
    if table.dom().is_empty() {
        if boundary_ids(pieces, table).contains(x) {
            let i = choose|i: int| 0 <= i < pieces.len() && #[trigger] boundary_piece_id(pieces[i], i, table) == Some(x);
            assert(i == x as int);
        }
        if x < pieces.len() && marks_word(pieces[x as int]) {
            assert(boundary_piece_id(pieces[x as int], x as int, table) == Some(x));
        }
    } else {
        if boundary_ids(pieces, table).contains(x) {
            let i = choose|i: int| 0 <= i < pieces.len() && #[trigger] boundary_piece_id(pieces[i], i, table) == Some(x);
            assert(marks_word_as(pieces[i], table, x));
        }
        if exists|i: int| 0 <= i < pieces.len() && #[trigger] marks_word_as(pieces[i], table, x) {
            let i = choose|i: int| 0 <= i < pieces.len() && #[trigger] marks_word_as(pieces[i], table, x);
            assert(boundary_piece_id(pieces[i], i, table) == Some(x));
        }
    }
}

/// Tokenizing two lists of encoded hotwords one after the other gives the
/// concatenation of their ID lists; an error in either list is the error
/// of the whole, the first list's first.
pub proof fn law_tokenize_concatenates(t: TokenizerView, a: Seq<EncodedContext>, b: Seq<EncodedContext>)
    ensures
        tokenized(t, a + b) == match tokenized(t, a) {
            Err(e) => Err(e),
            Ok(ra) => match tokenized(t, b) {
                Err(e) => Err(e),
                Ok(rb) => Ok(ra + rb),
            },
        },
    decreases b.len(),
{
    if b.len() == 0 {
        assert(a + b =~= a);
        if let Ok(ra) = tokenized(t, a) {
            assert(ra + Seq::<Seq<usize>>::empty() =~= ra);
        }
    } else {
        law_tokenize_concatenates(t, a, b.drop_last());
        assert((a + b).drop_last() =~= a + b.drop_last());
        assert((a + b).last() == b.last());
        if let Ok(ra) = tokenized(t, a) {
            if let Ok(rb) = tokenized(t, b.drop_last()) {
                if let Ok(ids) = context_ids(t, b.last()) {
                    assert((ra + rb).push(ids) =~= ra + rb.push(ids));
                }
            }
        }
    }
}

/// The requests for two lists of hotwords, one after the other, are the
/// requests for the first followed by those for the second.
pub proof fn law_requests_concatenate(t: TokenizerView, a: Seq<Seq<char>>, b: Seq<Seq<char>>)
    ensures
        requests_for(t, a + b) == requests_for(t, a) + requests_for(t, b),
    decreases b.len(),
{
    if b.len() == 0 {
        assert(a + b =~= a);
        assert(requests_for(t, a) + requests_for(t, b) =~= requests_for(t, a));
    } else {
        law_requests_concatenate(t, a, b.drop_last());
        assert((a + b).drop_last() =~= a + b.drop_last());
        assert((a + b).last() == b.last());
        if let Some(req) = request_for(t, b.last()) {
            assert((requests_for(t, a) + requests_for(t, b.drop_last())).push(req) =~= requests_for(t, a)
                + requests_for(t, b.drop_last()).push(req));
        }
    }
}

proof fn lemma_piece_ids_prefix_err(t: TokenizerView, ps: Seq<EncodedPiece>, k: int)
    requires
        0 <= k <= ps.len(),
        piece_ids(t, ps.take(k)) is Err,
    ensures
        piece_ids(t, ps) == piece_ids(t, ps.take(k)),
    decreases ps.len() - k,
{
    if k == ps.len() {
        assert(ps.take(k) =~= ps);
    } else {
        assert(ps.drop_last().take(k) =~= ps.take(k));
        lemma_piece_ids_prefix_err(t, ps.drop_last(), k);
    }
}

proof fn lemma_tokenized_prefix_err(t: TokenizerView, es: Seq<EncodedContext>, k: int)
    requires
        0 <= k <= es.len(),
        tokenized(t, es.take(k)) is Err,
    ensures
        tokenized(t, es) == tokenized(t, es.take(k)),
    decreases es.len() - k,
{
    if k == es.len() {
        assert(es.take(k) =~= es);
    } else {
        assert(es.drop_last().take(k) =~= es.take(k));
        lemma_tokenized_prefix_err(t, es.drop_last(), k);
    }
}

/// A copy of a list of token ID lists.
pub(crate) fn copy_id_lists(v: &Vec<Vec<usize>>) -> (r: Vec<Vec<usize>>)
    ensures
        id_lists_view(r@) == id_lists_view(v@),
{
    let mut out: Vec<Vec<usize>> = Vec::new();
    let n = v.len();
    let mut i: usize = 0;
    while i < n
        invariant
            n == v@.len(),
            i <= n,
            id_lists_view(out@) == id_lists_view(v@).take(i as int),
        decreases n - i,
    {
        let mut inner: Vec<usize> = Vec::new();
        let m = v[i].len();
        let mut j: usize = 0;
        while j < m
            invariant
                n == v@.len(),
                i < n,
                m == v@[i as int]@.len(),
                j <= m,
                inner@ == v@[i as int]@.take(j as int),
            decreases m - j,
        {
            inner.push(v[i][j]);
            j = j + 1;
        }
        let ghost before = out@;
        out.push(inner);
        assert(id_lists_view(out@) =~= id_lists_view(v@).take(i + 1)) by {
            assert(v@[i as int]@.take(m as int) =~= v@[i as int]@);
            assert(id_lists_view(out@) =~= id_lists_view(before).push(inner@));
        }
        i = i + 1;
    }
    assert(id_lists_view(v@).take(n as int) =~= id_lists_view(v@));
    out
}

impl Clone for SentencePieceTokenization {
    fn clone(&self) -> (r: Self)
        ensures
            id_lists_view(r.context_token_ids@) == id_lists_view(self.context_token_ids@),
            r.word_boundary_token_ids@ == self.word_boundary_token_ids@,
    {
        SentencePieceTokenization {
            context_token_ids: copy_id_lists(&self.context_token_ids),
            word_boundary_token_ids: copy_ids(&self.word_boundary_token_ids),
        }
    }
}

/// Adds every token ID of `src` to `dst`.
pub(crate) fn insert_all(dst: &mut HashSet<usize>, src: &HashSet<usize>)
    ensures
        final(dst)@ == old(dst)@.union(src@),
{
    let ghost start = dst@;
    for x in it: src.iter()
        invariant
            it.seq().unref().to_set() == src@,
            dst@ == start.union(it.seq().take(it.index() as int).unref().to_set()),
            it.index() == it.seq().len() ==> dst@ == start.union(src@),
    {
        proof {
            let before = it.seq().take(it.index() as int).unref();
            assert(it.seq().take(it.index() + 1).unref() =~= before.push(*x));
            before.lemma_push_to_set_commute(*x);
            assert(start.union(before.to_set()).insert(*x) =~= start.union(before.to_set().insert(*x)));
        }
        dst.insert(*x);
        assert(it.index() + 1 == it.seq().len() ==> it.seq().take(it.index() + 1) =~= it.seq());
    }
}

/// A copy of a set of token IDs.
fn copy_ids(s: &HashSet<usize>) -> (r: HashSet<usize>)
    ensures
        r@ == s@,
{
    let mut out: HashSet<usize> = HashSet::new();
    insert_all(&mut out, s);
    assert(Set::<usize>::empty().union(s@) =~= s@);
    out
}

impl SentencePieceTokenizer {
    /// Builds the tables of a serialized model. `processor_load` is what
    /// loading the same bytes into the SentencePiece processor gave (the
    /// processor runs outside this library): its error comes first, as
    /// `SentencePiece`. Then the model's pieces are read; malformed bytes
    /// give `InvalidModel` with the decoding error's message. Then the
    /// word-boundary token IDs are taken from the pieces and the
    /// configuration's tables are kept.
    pub fn from_serialized_proto(
        model: &[u8],
        config: SentencePieceConfig,
        processor_load: Result<(), String>,
    ) -> (r: Result<Self, TokenizerError>)
        ensures
            match processor_load {
                Err(m) => r matches Err(e) && e@ == TokenizerErrorView::SentencePiece(m@),
                Ok(()) => match model_pieces(model@) {
                    Ok(pieces) => r matches Ok(t) && t@ == loaded_tokenizer(
                        pieces,
                        config.symbol_table@,
                        config.add_word_boundary,
                    ),
                    Err(d) => r matches Err(e) && e@ == TokenizerErrorView::InvalidModel(error_text(d)),
                },
            },
    {
        match processor_load {
            Err(m) => return Err(TokenizerError::SentencePiece(m)),
            Ok(()) => {},
        }
        let pieces = match parse_model_pieces(model) {
            Ok(p) => p,
            Err(d) => return Err(TokenizerError::InvalidModel(d.message())),
        };
        let ghost pv = texts_view(pieces@);
        let ghost table = config.symbol_table@;
        let table_empty = config.symbol_table.is_empty();
        let mut ids: HashSet<usize> = HashSet::new();
        let n = pieces.len();
        let mut i: usize = 0;
        assert(ids@ =~= boundary_ids_upto(pv, table, 0));
        while i < n
            invariant
                n == pieces@.len() == pv.len(),
                pv == texts_view(pieces@),
                table == config.symbol_table@,
                table_empty == table.dom().is_empty(),
                i <= n,
                ids@ == boundary_ids_upto(pv, table, i as int),
            decreases n - i,
        {
            let ghost before = ids@;
            let found: Option<usize> = match &pieces[i] {
                Some(s) => {
                    if !has_boundary_prefix(s.as_str()) {
                        None
                    } else if table_empty {
                        Some(i)
                    } else {
                        match config.symbol_table.get(s.as_str()) {
                            Some(v) => Some(*v),
                            None => None,
                        }
                    }
                },
                None => None,
            };
            assert(found == boundary_piece_id(pv[i as int], i as int, table));
            match found {
                Some(v) => {
                    ids.insert(v);
                },
                None => {},
            }
            assert(ids@ =~= boundary_ids_upto(pv, table, i + 1)) by {
                assert forall|x: usize| #[trigger] ids@.contains(x) implies boundary_ids_upto(pv, table, i + 1).contains(x) by {
                    if before.contains(x) {
                        let k = choose|k: int| 0 <= k < i && #[trigger] boundary_piece_id(pv[k], k, table) == Some(x);
                        assert(boundary_piece_id(pv[k], k, table) == Some(x));
                    } else {
                        assert(boundary_piece_id(pv[i as int], i as int, table) == Some(x));
                    }
                }
                assert forall|x: usize| #[trigger] boundary_ids_upto(pv, table, i + 1).contains(x) implies ids@.contains(x) by {
                    let k = choose|k: int| 0 <= k < i + 1 && #[trigger] boundary_piece_id(pv[k], k, table) == Some(x);
                    if k < i {
                        assert(before.contains(x));
                    }
                }
            }
            i = i + 1;
        }
        let unknown_id = match config.symbol_table.get("<unk>") {
            Some(v) => Some(*v),
            None => None,
        };
        Ok(
            SentencePieceTokenizer {
                inner: Arc::new(
                    TokenizerTables {
                        symbol_table: config.symbol_table,
                        unknown_id,
                        add_word_boundary: config.add_word_boundary,
                        word_boundary_token_ids: ids,
                    },
                ),
            },
        )
    }

    /// The token IDs that begin a word.
    pub fn word_boundary_token_ids(&self) -> (r: &HashSet<usize>)
        ensures
            r@ == self@.word_boundary_token_ids,
    {
        &self.inner.word_boundary_token_ids
    }

    /// What to encode for each hotword: its trimmed text, and the text with
    /// the word-boundary mark in front when words are marked and the text
    /// does not already start with the mark. Empty hotwords are left out.
    pub fn encode_requests(&self, contexts: &[String]) -> (r: Vec<EncodeRequest>)
        ensures
            r@.map_values(|q: EncodeRequest| request_view(q)) == requests_for(
                self@,
                strings_view(contexts@),
            ),
    {
        let mut out: Vec<EncodeRequest> = Vec::new();
        let n = contexts.len();
        let mut i: usize = 0;
        while i < n
            invariant
                n == contexts@.len(),
                i <= n,
                out@.map_values(|q: EncodeRequest| request_view(q)) == requests_for(
                    self@,
                    strings_view(contexts@).take(i as int),
                ),
            decreases n - i,
        {
            let ghost before = out@;
            assert(strings_view(contexts@).take(i + 1).drop_last() =~= strings_view(contexts@).take(i as int));
            let text = trim(contexts[i].as_str());
            if !text.is_empty() {
                let marked_text = if self.inner.add_word_boundary && !has_boundary_prefix(text) {
                    Some(with_boundary_prefix(text))
                } else {
                    None
                };
                out.push(EncodeRequest { text: text.to_owned(), marked_text });
                assert(out@.map_values(|q: EncodeRequest| request_view(q)) =~= before.map_values(
                    |q: EncodeRequest| request_view(q),
                ).push(request_view(out@[before.len() as int])));
            }
            i = i + 1;
        }
        assert(strings_view(contexts@).take(n as int) =~= strings_view(contexts@));
        out
    }

    /// Whether `encoded` answers the requests for `contexts`, as
    /// `matches_requests` says.
    pub fn answers_requests(&self, contexts: &[String], encoded: &[EncodedContext]) -> (r: bool)
        ensures
            r == matches_requests(encoded@, requests_for(self@, strings_view(contexts@))),
    {
        let requests = self.encode_requests(contexts);
        let ghost reqs = requests@.map_values(|q: EncodeRequest| request_view(q));
        if requests.len() != encoded.len() {
            return false;
        }
        let n = encoded.len();
        let mut j: usize = 0;
        while j < n
            invariant
                n == encoded@.len() == requests@.len() == reqs.len(),
                reqs == requests@.map_values(|q: EncodeRequest| request_view(q)),
                reqs == requests_for(self@, strings_view(contexts@)),
                j <= n,
                forall|k: int| 0 <= k < j ==> #[trigger] request_matched(encoded@[k], reqs[k]),
            decreases n - j,
        {
            let same_text = encoded[j].text == requests[j].text;
            let same_marking = encoded[j].marked.is_some() == requests[j].marked_text.is_some();
            assert(reqs[j as int] == request_view(requests@[j as int]));
            assert((same_text && same_marking) == request_matched(encoded@[j as int], reqs[j as int]));
            if !same_text || !same_marking {
                return false;
            }
            j = j + 1;
        }
        true
    }

    /// The acoustic token ID lists of the encoded hotwords, in order and
    /// without empty lists, and the word-boundary token IDs. The first
    /// failed encoding gives `SentencePiece`, the first piece that neither
    /// the symbol table nor an `<unk>` entry maps gives `MissingPiece`.
    pub fn tokenize(&self, encoded: &[EncodedContext]) -> (r: Result<SentencePieceTokenization, TokenizerError>)
        ensures
            match tokenized(self@, encoded@) {
                Ok(lists) => r matches Ok(tk) && id_lists_view(tk.context_token_ids@) == lists
                    && tk.word_boundary_token_ids@ == self@.word_boundary_token_ids,
                Err(e) => r matches Err(e2) && e2@ == e,
            },
    {
        let mut lists: Vec<Vec<usize>> = Vec::new();
        let n = encoded.len();
        let mut i: usize = 0;
        assert(encoded@.take(0) =~= Seq::<EncodedContext>::empty());
        assert(id_lists_view(lists@) =~= Seq::<Seq<usize>>::empty());
        while i < n
            invariant
                n == encoded@.len(),
                i <= n,
                tokenized(self@, encoded@.take(i as int)) == Ok::<Seq<Seq<usize>>, TokenizerErrorView>(
                    id_lists_view(lists@),
                ),
            decreases n - i,
        {
            assert(encoded@.take(i + 1).drop_last() =~= encoded@.take(i as int));
            assert(encoded@.take(i + 1).last() == encoded@[i as int]);
            match self.context_token_ids(&encoded[i]) {
                Ok(ids) => {
                    if ids.len() > 0 {
                        let ghost before = lists@;
                        lists.push(ids);
                        assert(id_lists_view(lists@) =~= id_lists_view(before).push(ids@));
                    }
                },
                Err(e) => {
                    proof {
                        lemma_tokenized_prefix_err(self@, encoded@, i + 1);
                    }
                    return Err(e);
                },
            }
            i = i + 1;
        }
        assert(encoded@.take(n as int) =~= encoded@);
        Ok(
            SentencePieceTokenization {
                context_token_ids: lists,
                word_boundary_token_ids: copy_ids(&self.inner.word_boundary_token_ids),
            },
        )
    }

    /// The acoustic token IDs of one encoded hotword.
    fn context_token_ids(&self, e: &EncodedContext) -> (r: Result<Vec<usize>, TokenizerError>)
        ensures
            match context_ids(self@, *e) {
                Ok(ids) => r matches Ok(v) && v@ == ids,
                Err(err) => r matches Err(err2) && err2@ == err,
            },
    {
        let pieces: &Vec<EncodedPiece> = match &e.raw {
            Err(m) => return Err(TokenizerError::SentencePiece(m.clone())),
            Ok(raw) => match &e.marked {
                None => raw,
                Some(Err(m)) => return Err(TokenizerError::SentencePiece(m.clone())),
                Some(Ok(marked)) => {
                    if marked.len() > 0 && !is_boundary_piece(marked[0].piece.as_str()) {
                        marked
                    } else {
                        raw
                    }
                },
            },
        };
        assert(chosen_pieces(*e) == Ok::<Seq<EncodedPiece>, Seq<char>>(pieces@));
        let table_empty = self.inner.symbol_table.is_empty();
        let mut ids: Vec<usize> = Vec::new();
        let n = pieces.len();
        let mut i: usize = 0;
        assert(pieces@.take(0) =~= Seq::<EncodedPiece>::empty());
        while i < n
            invariant
                n == pieces@.len(),
                i <= n,
                table_empty == self@.symbol_table.dom().is_empty(),
                chosen_pieces(*e) == Ok::<Seq<EncodedPiece>, Seq<char>>(pieces@),
                piece_ids(self@, pieces@.take(i as int)) == Ok::<Seq<usize>, Seq<char>>(ids@),
            decreases n - i,
        {
            assert(pieces@.take(i + 1).drop_last() =~= pieces@.take(i as int));
            assert(pieces@.take(i + 1).last() == pieces@[i as int]);
            let p = &pieces[i];
            let id: usize = if table_empty {
                p.id as usize
            } else {
                match self.inner.symbol_table.get(p.piece.as_str()) {
                    Some(v) => *v,
                    None => match self.inner.unknown_id {
                        Some(u) => u,
                        None => {
                            proof {
                                assert(piece_id(self@, p.piece@, p.id) is None);
                                assert(piece_ids(self@, pieces@.take(i + 1)) is Err);
                                lemma_piece_ids_prefix_err(self@, pieces@, i + 1);
                                assert(piece_ids(self@, pieces@) == Err::<Seq<usize>, Seq<char>>(p.piece@));
                            }
                            let err = TokenizerError::MissingPiece { piece: p.piece.clone(), context: e.text.clone() };
                            assert(err@ == TokenizerErrorView::MissingPiece { piece: p.piece@, context: e.text@ });
                            return Err(err);
                        },
                    },
                }
            };
            ids.push(id);
            i = i + 1;
        }
        assert(pieces@.take(n as int) =~= pieces@);
        Ok(ids)
    }
}

} // verus!
