//! Decoder configuration checks and the per-stream state of a CTC decoder.
//!
//! A configuration's frame shift is a positive, finite `f64`; here it is
//! held as its IEEE-754 bit pattern (`f64::to_bits`), so that the check of
//! it is plain integer logic.
use std::collections::HashSet;
use vstd::prelude::*;

use crate::error::{DecoderError, DecoderErrorView};
use crate::tokenizer::{
    copy_id_lists, id_lists_view, insert_all, matches_requests, requests_for, strings_view, tokenized, EncodedContext,
    SentencePieceTokenizer,
};

verus! {

broadcast use vstd::std_specs::hash::group_hash_axioms;

/// Which search a stream is locked to until it is reset.
#[derive(Clone, Copy, Debug, PartialEq, Eq, Structural)]
pub enum DecodeMode {
    Greedy,
    PrefixBeam,
}

/// Search budget and latency of prefix beam search.
#[derive(Clone, Copy, Debug, PartialEq, Eq, Structural)]
pub enum DecodingQuality {
    LowLatency,
    Balanced,
    HighAccuracy,
}

impl Default for DecodingQuality {
    fn default() -> (r: Self)
        ensures
            r == DecodingQuality::Balanced,
    {
        DecodingQuality::Balanced
    }
}

/// How strongly hotwords bias the search.
#[derive(Clone, Copy, Debug, PartialEq, Eq, Structural)]
pub enum HotwordStrength {
    Conservative,
    Balanced,
    Aggressive,
    LowFalseActivation,
}

/// Options of one prefix beam search call.
#[derive(Clone, Copy, Debug)]
pub struct PrefixBeamSearchOptions {
    pub beam_size: Option<usize>,
    pub token_beam_size: Option<usize>,
    pub finalize: bool,
    pub return_token_probabilities: bool,
    pub return_scores: bool,
    pub return_gating_diagnostics: bool,
}

impl Default for PrefixBeamSearchOptions {
    fn default() -> (r: Self)
        ensures
            r.beam_size is None,
            r.token_beam_size is None,
            !r.finalize,
            !r.return_token_probabilities,
            !r.return_scores,
            !r.return_gating_diagnostics,
    {
        PrefixBeamSearchOptions {
            beam_size: None,
            token_beam_size: None,
            finalize: false,
            return_token_probabilities: false,
            return_scores: false,
            return_gating_diagnostics: false,
        }
    }
}

/// What a decoder is built from.
pub struct DecoderConfig {
    /// Hotwords as token ID lists.
    pub context_token_ids: Vec<Vec<usize>>,
    /// Hotwords as text, to be tokenized with `sentencepiece_tokenizer`.
    pub contexts: Vec<String>,
    pub sentencepiece_tokenizer: Option<SentencePieceTokenizer>,
    /// Whether the caller supplies its own context policy (whose parameters
    /// it keeps); it excludes `hotword_strength`.
    pub custom_context_policy: bool,
    pub hotword_strength: Option<HotwordStrength>,
    pub decoding_quality: DecodingQuality,
    pub blank_id: usize,
    /// Bit pattern of the time between CTC output frames in milliseconds.
    pub frame_shift_ms_bits: Option<u64>,
    pub word_boundary_token_ids: HashSet<usize>,
}

impl Default for DecoderConfig {
    fn default() -> (r: Self)
        ensures
            r.context_token_ids@.len() == 0,
            r.contexts@.len() == 0,
            r.sentencepiece_tokenizer is None,
            !r.custom_context_policy,
            r.hotword_strength is None,
            r.decoding_quality == DecodingQuality::Balanced,
            r.blank_id == 0,
            r.frame_shift_ms_bits is None,
            r.word_boundary_token_ids@ == Set::<usize>::empty(),
    {
        DecoderConfig {
            context_token_ids: Vec::new(),
            contexts: Vec::new(),
            sentencepiece_tokenizer: None,
            custom_context_policy: false,
            hotword_strength: None,
            decoding_quality: DecodingQuality::Balanced,
            blank_id: 0,
            frame_shift_ms_bits: None,
            word_boundary_token_ids: HashSet::new(),
        }
    }
}

/// Stateful streaming decoder: its checked configuration and the state of
/// the stream in progress. Reset it, or finalize a search, before switching
/// between greedy and prefix beam search.
pub struct CTCDecoder {
    context_max_token_id: Option<usize>,
    decoding_quality: DecodingQuality,
    blank_id: usize,
    frame_shift_ms_bits: Option<u64>,
    word_boundary_token_ids: HashSet<usize>,
    processed_frames: usize,
    decode_mode: Option<DecodeMode>,
    greedy_tokens: Vec<usize>,
    greedy_spans: Vec<(usize, usize)>,
    last_greedy_token: Option<usize>,
}

/// The abstract value of a [`CTCDecoder`].
pub struct DecoderView {
    pub context_max_token_id: Option<usize>,
    pub decoding_quality: DecodingQuality,
    pub blank_id: usize,
    pub frame_shift_ms_bits: Option<u64>,
    pub word_boundary_token_ids: Set<usize>,
    pub processed_frames: usize,
    pub decode_mode: Option<DecodeMode>,
    pub greedy_tokens: Seq<usize>,
    pub greedy_spans: Seq<(usize, usize)>,
    pub last_greedy_token: Option<usize>,
}

impl View for CTCDecoder {
    type V = DecoderView;

    closed spec fn view(&self) -> DecoderView {
        DecoderView {
            context_max_token_id: self.context_max_token_id,
            decoding_quality: self.decoding_quality,
            blank_id: self.blank_id,
            frame_shift_ms_bits: self.frame_shift_ms_bits,
            word_boundary_token_ids: self.word_boundary_token_ids@,
            processed_frames: self.processed_frames,
            decode_mode: self.decode_mode,
            greedy_tokens: self.greedy_tokens@,
            greedy_spans: self.greedy_spans@,
            last_greedy_token: self.last_greedy_token,
        }
    }
}

/// `d` with the state of a new stream: nothing processed, no search mode, no greedy output.
pub open spec fn fresh_stream(d: DecoderView) -> DecoderView {
    DecoderView {
        processed_frames: 0,
        decode_mode: None,
        greedy_tokens: Seq::empty(),
        greedy_spans: Seq::empty(),
        last_greedy_token: None,
        ..d
    }
}

/// The mode a stream is in after asking for `mode`, and whether the request is granted.
pub open spec fn locked_mode(current: Option<DecodeMode>, mode: DecodeMode) -> (Option<DecodeMode>, bool) {
    match current {
        None => (Some(mode), true),
        Some(m) => (current, m == mode),
    }
}

/// Whether a bit pattern is that of a finite `f64` greater than zero.
pub open spec fn valid_frame_shift_bits(bits: u64) -> bool {
    0 < bits < 0x7ff0_0000_0000_0000
}

/// The largest of `acc` and the IDs in `s`.
pub open spec fn max_in(s: Seq<usize>, acc: Option<usize>) -> Option<usize>
    decreases s.len(),
{
    if s.len() == 0 {
        acc
    } else {
        match max_in(s.drop_last(), acc) {
            None => Some(s.last()),
            Some(x) => Some(if x >= s.last() { x } else { s.last() }),
        }
    }
}

/// The largest token ID in a list of ID lists, if there is one.
pub open spec fn max_token(lists: Seq<Seq<usize>>) -> Option<usize>
    decreases lists.len(),
{
    if lists.len() == 0 {
        None
    } else {
        max_in(lists.last(), max_token(lists.drop_last()))
    }
}

/// Whether some list of `lists` holds `token`.
pub open spec fn lists_contain(lists: Seq<Seq<usize>>, token: usize) -> bool {
    exists|i: int, j: int| 0 <= i < lists.len() && 0 <= j < lists[i].len() && lists[i][j] == token
}

pub open spec fn msg_contexts_and_ids() -> Seq<char> {
    "provide contexts or context_token_ids, not both"@
}

pub open spec fn msg_tokenizer_required() -> Seq<char> {
    "sentencepiece_tokenizer is required when contexts are provided"@
}

pub open spec fn msg_encodings_mismatch() -> Seq<char> {
    "encoded_contexts must answer the encode requests for contexts"@
}

pub open spec fn msg_policy_and_strength() -> Seq<char> {
    "provide context_policy or hotword_strength, not both"@
}

pub open spec fn msg_boundary_blank() -> Seq<char> {
    "word_boundary_token_ids must not include blank_id"@
}

pub open spec fn msg_frame_shift() -> Seq<char> {
    "frame_shift_ms must be finite and greater than zero"@
}

pub open spec fn msg_context_blank() -> Seq<char> {
    "context token IDs must not contain blank_id"@
}

pub open spec fn msg_blank_vocabulary() -> Seq<char> {
    "blank_id must be smaller than vocabulary_size"@
}

pub open spec fn msg_context_vocabulary() -> Seq<char> {
    "context token IDs must be smaller than vocabulary_size"@
}

/// The hotword ID lists and word-boundary IDs of a configuration, before
/// the checks that follow: the configured lists, or, for text hotwords,
/// the tokenizer's result on their encodings.
pub open spec fn resolved_contexts(c: DecoderConfig, encoded: Seq<EncodedContext>) -> Result<
    (Seq<Seq<usize>>, Set<usize>),
    DecoderErrorView,
> {
    if c.contexts@.len() > 0 && c.context_token_ids@.len() > 0 {
        Err(DecoderErrorView::InvalidConfig(msg_contexts_and_ids()))
    } else if c.contexts@.len() > 0 {
        match c.sentencepiece_tokenizer {
            None => Err(DecoderErrorView::InvalidConfig(msg_tokenizer_required())),
            Some(t) => if !matches_requests(encoded, requests_for(t@, strings_view(c.contexts@))) {
                Err(DecoderErrorView::InvalidConfig(msg_encodings_mismatch()))
            } else {
                match tokenized(t@, encoded) {
                    Ok(lists) => Ok((lists, c.word_boundary_token_ids@.union(t@.word_boundary_token_ids))),
                    Err(e) => Err(DecoderErrorView::Tokenizer(e)),
                }
            },
        }
    } else {
        Ok((id_lists_view(c.context_token_ids@), c.word_boundary_token_ids@))
    }
}

/// The checked hotword ID lists and word-boundary IDs of a configuration,
/// or the first check it fails.
pub open spec fn configured(c: DecoderConfig, encoded: Seq<EncodedContext>) -> Result<
    (Seq<Seq<usize>>, Set<usize>),
    DecoderErrorView,
> {
    match resolved_contexts(c, encoded) {
        Err(e) => Err(e),
        Ok((lists, boundaries)) => if c.custom_context_policy && c.hotword_strength is Some {
            Err(DecoderErrorView::InvalidConfig(msg_policy_and_strength()))
        } else if boundaries.contains(c.blank_id) {
            Err(DecoderErrorView::InvalidConfig(msg_boundary_blank()))
        } else if c.frame_shift_ms_bits matches Some(b) && !valid_frame_shift_bits(b) {
            Err(DecoderErrorView::InvalidConfig(msg_frame_shift()))
        } else if lists_contain(lists, c.blank_id) {
            Err(DecoderErrorView::InvalidConfig(msg_context_blank()))
        } else {
            Ok((lists, boundaries))
        },
    }
}

/// The decoder that a configuration that passed its checks yields.
pub open spec fn configured_decoder(c: DecoderConfig, lists: Seq<Seq<usize>>, boundaries: Set<usize>) -> DecoderView {
    DecoderView {
        context_max_token_id: max_token(lists),
        decoding_quality: c.decoding_quality,
        blank_id: c.blank_id,
        frame_shift_ms_bits: c.frame_shift_ms_bits,
        word_boundary_token_ids: boundaries,
        processed_frames: 0,
        decode_mode: None,
        greedy_tokens: Seq::empty(),
        greedy_spans: Seq::empty(),
        last_greedy_token: None,
    }
}

/// The outcome of checking a vocabulary size against a decoder.
pub open spec fn vocabulary_check(d: DecoderView, vocabulary_size: usize) -> Result<(), DecoderErrorView> {
    if d.blank_id >= vocabulary_size {
        Err(DecoderErrorView::InvalidInput(msg_blank_vocabulary()))
    } else if d.context_max_token_id matches Some(m) && m >= vocabulary_size {
        Err(DecoderErrorView::InvalidInput(msg_context_vocabulary()))
    } else {
        Ok(())
    }
}

/// Whether `token` occurs in `v`.
fn contains_token(v: &Vec<usize>, token: usize) -> (r: bool)
    ensures
        r == v@.contains(token),
{
    let n = v.len();
    let mut i: usize = 0;
    while i < n
        invariant
            n == v@.len(),
            i <= n,
            forall|k: int| 0 <= k < i ==> v@[k] != token,
        decreases n - i,
    {
        if v[i] == token {
            return true;
        }
        i = i + 1;
    }
    false
}

/// Whether some list of `lists` holds `token`.
fn lists_contain_token(lists: &Vec<Vec<usize>>, token: usize) -> (r: bool)
    ensures
        r == lists_contain(id_lists_view(lists@), token),
{
    let n = lists.len();
    let mut i: usize = 0;
    while i < n
        invariant
            n == lists@.len(),
            i <= n,
            forall|k: int, j: int| 0 <= k < i && 0 <= j < lists@[k]@.len() ==> lists@[k]@[j] != token,
        decreases n - i,
    {
        if contains_token(&lists[i], token) {
            proof {
                let j = choose|j: int| 0 <= j < lists@[i as int]@.len() && lists@[i as int]@[j] == token;
                assert(id_lists_view(lists@)[i as int][j] == token);
            }
            return true;
        }
        i = i + 1;
    }
    false
}

/// The largest token ID in a list of ID lists, if there is one.
fn max_token_id(lists: &Vec<Vec<usize>>) -> (r: Option<usize>)
    ensures
        r == max_token(id_lists_view(lists@)),
{
    let n = lists.len();
    let mut best: Option<usize> = None;
    let mut i: usize = 0;
    while i < n
        invariant
            n == lists@.len(),
            i <= n,
            best == max_token(id_lists_view(lists@).take(i as int)),
        decreases n - i,
    {
        let ghost lv = id_lists_view(lists@);
        assert(lv.take(i + 1).drop_last() =~= lv.take(i as int));
        let inner = &lists[i];
        let ghost start = best;
        let m = inner.len();
        let mut j: usize = 0;
        while j < m
            invariant
                n == lists@.len(),
                i < n,
                m == inner@.len(),
                inner@ == lists@[i as int]@,
                j <= m,
                best == max_in(inner@.take(j as int), start),
            decreases m - j,
        {
            assert(inner@.take(j + 1).drop_last() =~= inner@.take(j as int));
            let t = inner[j];
            best = match best {
                None => Some(t),
                Some(x) => Some(if x >= t { x } else { t }),
            };
            j = j + 1;
        }
        assert(inner@.take(m as int) =~= inner@);
        assert(lv.take(i + 1).last() == inner@);
        i = i + 1;
    }
    assert(id_lists_view(lists@).take(n as int) =~= id_lists_view(lists@));
    best
}

/// A reset grants the next search whichever mode it asks for.
pub proof fn law_reset_grants_any_mode(d: DecoderView, mode: DecodeMode)
    ensures
        locked_mode(fresh_stream(d).decode_mode, mode) == (Some(mode), true),
{
}

/// Once a stream is granted a mode, asking for the same mode again is
/// granted and changes nothing, and asking for the other one is refused and
/// changes nothing.
pub proof fn law_mode_lock_is_stable(current: Option<DecodeMode>, mode: DecodeMode, other: DecodeMode)
    requires
        locked_mode(current, mode).1,
        other != mode,
    ensures
        locked_mode(locked_mode(current, mode).0, mode) == (locked_mode(current, mode).0, true),
        locked_mode(locked_mode(current, mode).0, other) == (locked_mode(current, mode).0, false),
{
}

/// Resetting a fresh stream changes nothing, and a reset keeps the configuration.
pub proof fn law_reset_is_idempotent(d: DecoderView)
    ensures
        fresh_stream(fresh_stream(d)) == fresh_stream(d),
        fresh_stream(d).context_max_token_id == d.context_max_token_id,
        fresh_stream(d).decoding_quality == d.decoding_quality,
        fresh_stream(d).blank_id == d.blank_id,
        fresh_stream(d).frame_shift_ms_bits == d.frame_shift_ms_bits,
        fresh_stream(d).word_boundary_token_ids == d.word_boundary_token_ids,
{
}

/// A newly built decoder starts with a fresh stream.
pub proof fn law_new_decoder_is_fresh(c: DecoderConfig, lists: Seq<Seq<usize>>, boundaries: Set<usize>)
    ensures
        fresh_stream(configured_decoder(c, lists, boundaries)) == configured_decoder(c, lists, boundaries),
{
}

/// A configuration that passes its checks has the blank neither among the
/// word-boundary tokens nor among the hotword tokens, and a valid frame shift.
pub proof fn law_configured_excludes_blank(c: DecoderConfig, encoded: Seq<EncodedContext>)
    requires
        configured(c, encoded) is Ok,
    ensures
        !configured(c, encoded)->Ok_0.1.contains(c.blank_id),
        forall|i: int, j: int|
            0 <= i < configured(c, encoded)->Ok_0.0.len() && 0 <= j < configured(c, encoded)->Ok_0.0[i].len()
                ==> configured(c, encoded)->Ok_0.0[i][j] != c.blank_id,
        c.frame_shift_ms_bits matches Some(b) ==> valid_frame_shift_bits(b),
{
}

proof fn lemma_max_in(s: Seq<usize>, acc: Option<usize>)
    ensures
        max_in(s, acc) is None <==> (acc is None && s.len() == 0),
        max_in(s, acc) matches Some(m) ==> (acc matches Some(a) ==> a <= m) && forall|k: int|
            0 <= k < s.len() ==> s[k] <= m,
        max_in(s, acc) matches Some(m) ==> (acc == Some(m) || exists|k: int| 0 <= k < s.len() && s[k] == m),
    decreases s.len(),
{
    if s.len() > 0 {
        lemma_max_in(s.drop_last(), acc);
        let m = max_in(s, acc)->0;
        assert forall|k: int| 0 <= k < s.len() implies s[k] <= m by {
            if k < s.len() - 1 {
                assert(s[k] == s.drop_last()[k]);
            }
        }
        if let Some(x) = max_in(s.drop_last(), acc) {
            if x >= s.last() {
                if acc != Some(m) {
                    let k = choose|k: int| 0 <= k < s.drop_last().len() && s.drop_last()[k] == m;
                    assert(s[k] == m);
                }
            } else {
                assert(s[s.len() - 1] == m);
            }
        } else {
            assert(s[s.len() - 1] == m);
        }
    }
}

proof fn lemma_max_token(lists: Seq<Seq<usize>>)
    ensures
        max_token(lists) is None <==> forall|i: int| 0 <= i < lists.len() ==> #[trigger] lists[i].len() == 0,
        max_token(lists) matches Some(m) ==> forall|i: int, j: int|
            0 <= i < lists.len() && 0 <= j < lists[i].len() ==> lists[i][j] <= m,
        max_token(lists) matches Some(m) ==> lists_contain(lists, m),
    decreases lists.len(),
{
    if lists.len() > 0 {
        let init = lists.drop_last();
        lemma_max_token(init);
        lemma_max_in(lists.last(), max_token(init));
        let n = lists.len() - 1;
        assert forall|i: int, j: int| 0 <= i < init.len() && 0 <= j < init[i].len() implies lists[i][j] == init[i][j] by {}
        if max_token(lists) is None {
            assert forall|i: int| 0 <= i < lists.len() implies #[trigger] lists[i].len() == 0 by {
                if i < n {
                    assert(init[i] == lists[i]);
                }
            }
        } else {
            let m = max_token(lists)->0;
            if max_token(init) == Some(m) {
                let (i, j) = choose|i: int, j: int| 0 <= i < init.len() && 0 <= j < init[i].len() && init[i][j] == m;
                assert(lists[i][j] == m);
            } else {
                let k = choose|k: int| 0 <= k < lists.last().len() && lists.last()[k] == m;
                assert(lists[n][k] == m);
            }
        }
        if forall|i: int| 0 <= i < lists.len() ==> #[trigger] lists[i].len() == 0 {
            assert forall|i: int| 0 <= i < init.len() implies #[trigger] init[i].len() == 0 by {
                assert(lists[i] == init[i]);
            }
            assert(lists[n].len() == 0);
        }
    }
}

/// The vocabulary check accepts exactly when the blank and every hotword
/// token lie below the vocabulary size.
pub proof fn law_vocabulary_check_accepts_iff(c: DecoderConfig, lists: Seq<Seq<usize>>, boundaries: Set<usize>, vocabulary_size: usize)
    ensures
        vocabulary_check(configured_decoder(c, lists, boundaries), vocabulary_size) is Ok <==> (c.blank_id
            < vocabulary_size && forall|i: int, j: int|
            0 <= i < lists.len() && 0 <= j < lists[i].len() ==> lists[i][j] < vocabulary_size),
{
    lemma_max_token(lists);
    if let Some(m) = max_token(lists) {
        if m >= vocabulary_size {
            let (i, j) = choose|i: int, j: int| 0 <= i < lists.len() && 0 <= j < lists[i].len() && lists[i][j] == m;
            assert(lists[i][j] >= vocabulary_size);
        }
    }
}

/// The vocabulary check depends on the configuration alone, not on the
/// stream: two decoders with the same blank and hotword tokens get the same
/// outcome whatever each has processed and whichever search mode it is in,
/// and so does a decoder and a fresh stream of it.
pub proof fn law_vocabulary_check_ignores_stream(d: DecoderView, other: DecoderView, vocabulary_size: usize)
    requires
        other.blank_id == d.blank_id,
        other.context_max_token_id == d.context_max_token_id,
    ensures
        vocabulary_check(other, vocabulary_size) == vocabulary_check(d, vocabulary_size),
        vocabulary_check(fresh_stream(d), vocabulary_size) == vocabulary_check(d, vocabulary_size),
{
}

/// At any point of any stream of a configured decoder, whatever its search
/// mode, the vocabulary check accepts exactly when the blank and every
/// hotword token lie below the vocabulary size.
pub proof fn law_stream_vocabulary_check_accepts_iff(
    d: DecoderView,
    c: DecoderConfig,
    lists: Seq<Seq<usize>>,
    boundaries: Set<usize>,
    vocabulary_size: usize,
)
    requires
        fresh_stream(d) == configured_decoder(c, lists, boundaries),
    ensures
        vocabulary_check(d, vocabulary_size) is Ok <==> (c.blank_id < vocabulary_size && forall|i: int, j: int|
            0 <= i < lists.len() && 0 <= j < lists[i].len() ==> lists[i][j] < vocabulary_size),
{
    law_vocabulary_check_accepts_iff(c, lists, boundaries, vocabulary_size);
    assert(d.blank_id == fresh_stream(d).blank_id);
    assert(d.context_max_token_id == fresh_stream(d).context_max_token_id);
}

/// A copy of a vector of plain values.
fn copy_values<T: Copy>(v: &Vec<T>) -> (r: Vec<T>)
    ensures
        r@ == v@,
{
    let mut out: Vec<T> = Vec::new();
    let n = v.len();
    let mut i: usize = 0;
    while i < n
        invariant
            n == v@.len(),
            i <= n,
            out@ == v@.take(i as int),
        decreases n - i,
    {
        out.push(v[i]);
        assert(out@ =~= v@.take(i + 1));
        i = i + 1;
    }
    assert(v@.take(n as int) =~= v@);
    out
}

/// A copy of a list of strings.
fn copy_strings(v: &Vec<String>) -> (r: Vec<String>)
    ensures
        r@ == v@,
{
    let mut out: Vec<String> = Vec::new();
    let n = v.len();
    let mut i: usize = 0;
    while i < n
        invariant
            n == v@.len(),
            i <= n,
            out@ == v@.take(i as int),
        decreases n - i,
    {
        out.push(v[i].clone());
        assert(out@ =~= v@.take(i + 1));
        i = i + 1;
    }
    assert(v@.take(n as int) =~= v@);
    out
}

/// A copy of a set of token IDs.
fn copy_id_set(s: &HashSet<usize>) -> (r: HashSet<usize>)
    ensures
        r@ == s@,
{
    let mut out: HashSet<usize> = HashSet::new();
    insert_all(&mut out, s);
    assert(Set::<usize>::empty().union(s@) =~= s@);
    out
}

/// Whether two optional tokenizers are both absent or hold the same tables.
pub open spec fn same_tokenizer(a: Option<SentencePieceTokenizer>, b: Option<SentencePieceTokenizer>) -> bool {
    match (a, b) {
        (None, None) => true,
        (Some(x), Some(y)) => x@ == y@,
        _ => false,
    }
}

impl Clone for DecoderConfig {
    /// A copy with the same settings and tables, which configures the same decoder.
    fn clone(&self) -> (r: Self)
        ensures
            id_lists_view(r.context_token_ids@) == id_lists_view(self.context_token_ids@),
            r.contexts@ == self.contexts@,
            same_tokenizer(r.sentencepiece_tokenizer, self.sentencepiece_tokenizer),
            r.custom_context_policy == self.custom_context_policy,
            r.hotword_strength == self.hotword_strength,
            r.decoding_quality == self.decoding_quality,
            r.blank_id == self.blank_id,
            r.frame_shift_ms_bits == self.frame_shift_ms_bits,
            r.word_boundary_token_ids@ == self.word_boundary_token_ids@,
            forall|es: Seq<EncodedContext>| #[trigger] configured(r, es) == configured(*self, es),
    {
        let r = DecoderConfig {
            context_token_ids: copy_id_lists(&self.context_token_ids),
            contexts: copy_strings(&self.contexts),
            sentencepiece_tokenizer: match &self.sentencepiece_tokenizer {
                Some(t) => Some(t.clone()),
                None => None,
            },
            custom_context_policy: self.custom_context_policy,
            hotword_strength: self.hotword_strength,
            decoding_quality: self.decoding_quality,
            blank_id: self.blank_id,
            frame_shift_ms_bits: self.frame_shift_ms_bits,
            word_boundary_token_ids: copy_id_set(&self.word_boundary_token_ids),
        };
        assert forall|es: Seq<EncodedContext>| #[trigger] configured(r, es) == configured(*self, es) by {
            assert(r.context_token_ids@.len() == id_lists_view(r.context_token_ids@).len());
            assert(self.context_token_ids@.len() == id_lists_view(self.context_token_ids@).len());
            assert(resolved_contexts(r, es) == resolved_contexts(*self, es));
        }
        r
    }
}

impl Clone for CTCDecoder {
    /// A copy with the same configuration and the same stream state.
    fn clone(&self) -> (r: Self)
        ensures
            r@ == self@,
    {
        CTCDecoder {
            context_max_token_id: self.context_max_token_id,
            decoding_quality: self.decoding_quality,
            blank_id: self.blank_id,
            frame_shift_ms_bits: self.frame_shift_ms_bits,
            word_boundary_token_ids: copy_id_set(&self.word_boundary_token_ids),
            processed_frames: self.processed_frames,
            decode_mode: self.decode_mode,
            greedy_tokens: copy_values(&self.greedy_tokens),
            greedy_spans: copy_values(&self.greedy_spans),
            last_greedy_token: self.last_greedy_token,
        }
    }
}

impl CTCDecoder {
    /// Checks a configuration and builds a decoder with a fresh stream.
    ///
    /// Text hotwords (`config.contexts`) are tokenized with the configured
    /// tokenizer from `encoded_contexts`: the SentencePiece encodings of the
    /// requests that the tokenizer's `encode_requests` gives for them. When
    /// their texts or markings do not answer those requests, the
    /// configuration is refused.
    pub fn new(config: DecoderConfig, encoded_contexts: &[EncodedContext]) -> (r: Result<Self, DecoderError>)
        ensures
            match configured(config, encoded_contexts@) {
                Ok((lists, boundaries)) => r matches Ok(d) && d@ == configured_decoder(
                    config,
                    lists,
                    boundaries,
                ),
                Err(e) => r matches Err(e2) && e2@ == e,
            },
    {
        let ghost c = config;
        let DecoderConfig {
            context_token_ids,
            contexts,
            sentencepiece_tokenizer,
            custom_context_policy,
            hotword_strength,
            decoding_quality,
            blank_id,
            frame_shift_ms_bits,
            word_boundary_token_ids,
        } = config;
        let mut context_token_ids = context_token_ids;
        let mut word_boundary_token_ids = word_boundary_token_ids;
        if contexts.len() > 0 && context_token_ids.len() > 0 {
            return Err(DecoderError::InvalidConfig("provide contexts or context_token_ids, not both"));
        }
        if contexts.len() > 0 {
            let tokenizer = match &sentencepiece_tokenizer {
                Some(t) => t,
                None => {
                    return Err(
                        DecoderError::InvalidConfig(
                            "sentencepiece_tokenizer is required when contexts are provided",
                        ),
                    )
                },
            };
            if !tokenizer.answers_requests(contexts.as_slice(), encoded_contexts) {
                return Err(
                    DecoderError::InvalidConfig("encoded_contexts must answer the encode requests for contexts"),
                );
            }
            match tokenizer.tokenize(encoded_contexts) {
                Ok(tokenization) => {
                    context_token_ids = tokenization.context_token_ids;
                    insert_all(&mut word_boundary_token_ids, &tokenization.word_boundary_token_ids);
                },
                Err(e) => return Err(DecoderError::Tokenizer(e)),
            }
        }
        assert(resolved_contexts(c, encoded_contexts@) == Ok::<(Seq<Seq<usize>>, Set<usize>), DecoderErrorView>(
            (id_lists_view(context_token_ids@), word_boundary_token_ids@),
        ));
        if custom_context_policy && hotword_strength.is_some() {
            return Err(DecoderError::InvalidConfig("provide context_policy or hotword_strength, not both"));
        }
        if word_boundary_token_ids.contains(&blank_id) {
            return Err(DecoderError::InvalidConfig("word_boundary_token_ids must not include blank_id"));
        }
        match frame_shift_ms_bits {
            Some(bits) => {
                if !(0 < bits && bits < 0x7ff0_0000_0000_0000) {
                    return Err(DecoderError::InvalidConfig("frame_shift_ms must be finite and greater than zero"));
                }
            },
            None => {},
        }
        if lists_contain_token(&context_token_ids, blank_id) {
            return Err(DecoderError::InvalidConfig("context token IDs must not contain blank_id"));
        }
        let context_max_token_id = max_token_id(&context_token_ids);
        let mut decoder = CTCDecoder {
            context_max_token_id,
            decoding_quality,
            blank_id,
            frame_shift_ms_bits,
            word_boundary_token_ids,
            processed_frames: 0,
            decode_mode: None,
            greedy_tokens: Vec::new(),
            greedy_spans: Vec::new(),
            last_greedy_token: None,
        };
        decoder.reset();
        Ok(decoder)
    }

    /// Starts a new stream: nothing processed, no search mode, no greedy output.
    pub fn reset(&mut self)
        ensures
            final(self)@ == fresh_stream(old(self)@),
    {
        self.processed_frames = 0;
        self.decode_mode = None;
        self.greedy_tokens.clear();
        self.greedy_spans.clear();
        self.last_greedy_token = None;
    }

    /// A decoder with the same configuration and a stream of its own, fresh.
    pub fn create_stream(&self) -> (r: Self)
        ensures
            r@ == fresh_stream(self@),
    {
        let mut stream = self.clone();
        stream.reset();
        stream
    }

    /// Bit pattern of the frame shift in milliseconds, if one was configured.
    pub fn frame_shift_ms(&self) -> (r: Option<u64>)
        ensures
            r == self@.frame_shift_ms_bits,
    {
        self.frame_shift_ms_bits
    }

    /// Checks that the blank and every hotword token fall inside a vocabulary of the given size.
    pub fn validate_input(&self, vocabulary_size: usize) -> (r: Result<(), DecoderError>)
        ensures
            match vocabulary_check(self@, vocabulary_size) {
                Ok(()) => r is Ok,
                Err(e) => r matches Err(e2) && e2@ == e,
            },
    {
        if self.blank_id >= vocabulary_size {
            return Err(DecoderError::InvalidInput("blank_id must be smaller than vocabulary_size"));
        }
        match self.context_max_token_id {
            Some(token) => {
                if token >= vocabulary_size {
                    return Err(DecoderError::InvalidInput("context token IDs must be smaller than vocabulary_size"));
                }
            },
            None => {},
        }
        Ok(())
    }

    /// Locks the stream to `mode`: granted when the stream has no mode yet
    /// or already has this one; refused with `DecodeModeChanged`, and the
    /// stream left as it was, when it has the other.
    pub fn lock_decode_mode(&mut self, mode: DecodeMode) -> (r: Result<(), DecoderError>)
        ensures
            final(self)@ == (DecoderView { decode_mode: locked_mode(old(self)@.decode_mode, mode).0, ..old(self)@ }),
            r is Ok == locked_mode(old(self)@.decode_mode, mode).1,
            r matches Err(e) ==> e == DecoderError::DecodeModeChanged,
    {
        match self.decode_mode {
            None => self.decode_mode = Some(mode),
            Some(current) => {
                if current != mode {
                    return Err(DecoderError::DecodeModeChanged);
                }
            },
        }
        Ok(())
    }
}

} // verus!
