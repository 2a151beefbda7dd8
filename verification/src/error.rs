use vstd::prelude::*;
use vstd::string::StringExecFns;

verus! {

/// Errors raised while loading a SentencePiece model or tokenizing hotwords.
#[derive(Clone, Debug, PartialEq, Eq)]
pub enum TokenizerError {
    Io(String),
    SentencePiece(String),
    InvalidModel(String),
    MissingPiece { piece: String, context: String },
}

/// The abstract value of a [`TokenizerError`]: each string taken by its characters.
pub enum TokenizerErrorView {
    Io(Seq<char>),
    SentencePiece(Seq<char>),
    InvalidModel(Seq<char>),
    MissingPiece { piece: Seq<char>, context: Seq<char> },
}

impl View for TokenizerError {
    type V = TokenizerErrorView;

    open spec fn view(&self) -> TokenizerErrorView {
        match self {
            TokenizerError::Io(m) => TokenizerErrorView::Io(m@),
            TokenizerError::SentencePiece(m) => TokenizerErrorView::SentencePiece(m@),
            TokenizerError::InvalidModel(m) => TokenizerErrorView::InvalidModel(m@),
            TokenizerError::MissingPiece { piece, context } => TokenizerErrorView::MissingPiece {
                piece: piece@,
                context: context@,
            },
        }
    }
}

/// What `format!("{:?}", s)` gives for a string: the text quoted, with escapes.
pub uninterp spec fn debug_quoted(s: Seq<char>) -> Seq<char>;

/// `text` quoted and escaped the way `format!("{:?}", text)` writes it.
///
/// Trusted: the contract only names the result as a function of the
/// characters of `text`; what the escapes are is std's `Debug` for `str`.
#[verifier::external_body]
fn quoted(text: &str) -> (r: String)
    ensures
        r@ == debug_quoted(text@),
{
    format!("{:?}", text)
}

/// The message of a tokenizer error.
pub open spec fn tokenizer_error_text(e: TokenizerErrorView) -> Seq<char> {
    match e {
        TokenizerErrorView::Io(m) => "failed to read SentencePiece model: "@ + m,
        TokenizerErrorView::SentencePiece(m) => "SentencePiece error: "@ + m,
        TokenizerErrorView::InvalidModel(m) => "invalid SentencePiece model: "@ + m,
        TokenizerErrorView::MissingPiece { piece, context } => "SentencePiece piece "@ + debug_quoted(piece)
            + " is missing from the symbol table for context "@ + debug_quoted(context),
    }
}

impl TokenizerError {
    /// The error's message.
    pub fn message(&self) -> (r: String)
        ensures
            r@ == tokenizer_error_text(self@),
    {
        match self {
            TokenizerError::Io(m) => {
                let mut r = String::from_str("failed to read SentencePiece model: ");
                r.append(m.as_str());
                r
            },
            TokenizerError::SentencePiece(m) => {
                let mut r = String::from_str("SentencePiece error: ");
                r.append(m.as_str());
                r
            },
            TokenizerError::InvalidModel(m) => {
                let mut r = String::from_str("invalid SentencePiece model: ");
                r.append(m.as_str());
                r
            },
            TokenizerError::MissingPiece { piece, context } => {
                let mut r = String::from_str("SentencePiece piece ");
                let p = quoted(piece.as_str());
                r.append(p.as_str());
                r.append(" is missing from the symbol table for context ");
                let c = quoted(context.as_str());
                r.append(c.as_str());
                assert(r@ =~= tokenizer_error_text(self@));
                r
            },
        }
    }
}

/// Errors raised by the decoder's configuration and input checks.
#[derive(Clone, Debug, PartialEq, Eq)]
pub enum DecoderError {
    InvalidConfig(&'static str),
    InvalidInput(&'static str),
    DecodeModeChanged,
    Tokenizer(TokenizerError),
}

/// The abstract value of a [`DecoderError`]: each message taken by its characters.
pub enum DecoderErrorView {
    InvalidConfig(Seq<char>),
    InvalidInput(Seq<char>),
    DecodeModeChanged,
    Tokenizer(TokenizerErrorView),
}

impl View for DecoderError {
    type V = DecoderErrorView;

    open spec fn view(&self) -> DecoderErrorView {
        match self {
            DecoderError::InvalidConfig(m) => DecoderErrorView::InvalidConfig(m@),
            DecoderError::InvalidInput(m) => DecoderErrorView::InvalidInput(m@),
            DecoderError::DecodeModeChanged => DecoderErrorView::DecodeModeChanged,
            DecoderError::Tokenizer(e) => DecoderErrorView::Tokenizer(e@),
        }
    }
}

} // verus!
