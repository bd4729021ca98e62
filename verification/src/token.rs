//! Token representation: the closed set of token kinds, the token record
//! with its optional payload, and the errors a tokenization run can raise.
use vstd::prelude::*;
use vstd::string::StringExecFns;

verus! {

/// The closed set of token categories the tokenizer can emit. A downstream
/// parser switches exhaustively over these; no kind may be added without
/// updating every recognizer branch.
#[derive(Clone, Copy, PartialEq, Eq, Structural, Debug)]
pub enum TokenType {
    ObjectStart,
    ObjectEnd,
    ArrayStart,
    ArrayEnd,
    Colon,
    Comma,
    String,
    True,
    False,
    Number,
    Null,
    End,
}

/// The keyword a literal recognizer was expecting when it failed.
#[derive(Clone, Copy, PartialEq, Eq, Structural, Debug)]
pub enum Keyword {
    Null,
    True,
    False,
}

/// How a tokenization run fails. Every error is fatal to the run: no
/// partial token sequence is handed back.
#[derive(Clone, Copy, PartialEq, Eq, Structural, Debug)]
pub enum LexError {
    /// The dispatcher reached a character that starts no token and is not
    /// whitespace; `pos` is its index in the input.
    UnexpectedCharacter { ch: char, pos: usize },
    /// A keyword-start character (`n`, `t`, `f`) was not followed by the
    /// rest of the expected keyword.
    InvalidLiteral { expected: Keyword },
    /// Input ended before the closing quote of a string literal.
    UnterminatedString,
    /// A numeric-looking span parses neither as an integer nor as a float.
    InvalidNumber,
}

impl TokenType {
    /// A payload is present exactly for the String and Number kinds.
    pub open spec fn needs_text(self) -> bool {
        self == TokenType::String || self == TokenType::Number
    }

    /// The canonical short label of the kind in the textual rendering.
    pub open spec fn spec_label(self) -> Seq<char> {
        match self {
            TokenType::ObjectStart => "{ "@,
            TokenType::ObjectEnd => " }"@,
            TokenType::ArrayStart => "[ "@,
            TokenType::ArrayEnd => " ]"@,
            TokenType::Colon => ": "@,
            TokenType::Comma => ", "@,
            TokenType::String => "str"@,
            TokenType::True => "true"@,
            TokenType::False => "false"@,
            TokenType::Number => "num"@,
            TokenType::Null => "null"@,
            TokenType::End => "eof"@,
        }
    }

    /// The canonical short label of the kind, for human inspection.
    pub fn label(self) -> (r: &'static str)
        ensures
            r@ == self.spec_label(),
    {
        match self {
            TokenType::ObjectStart => "{ ",
            TokenType::ObjectEnd => " }",
            TokenType::ArrayStart => "[ ",
            TokenType::ArrayEnd => " ]",
            TokenType::Colon => ": ",
            TokenType::Comma => ", ",
            TokenType::String => "str",
            TokenType::True => "true",
            TokenType::False => "false",
            TokenType::Number => "num",
            TokenType::Null => "null",
            TokenType::End => "eof",
        }
    }
}

impl TokenModel {
    /// Textual rendering: `label(payload)` with a payload, bare `label`
    /// without one.
    pub open spec fn spec_render(self) -> Seq<char> {
        match self.text {
            Some(t) => self.kind.spec_label() + "("@ + t + ")"@,
            None => self.kind.spec_label(),
        }
    }
}

/// Mathematical model of a token: its kind and its optional payload text.
#[verifier::ext_equal]
pub struct TokenModel {
    pub kind: TokenType,
    pub text: Option<Seq<char>>,
}

/// The model of a token without payload.
pub open spec fn tok(kind: TokenType) -> TokenModel {
    TokenModel { kind, text: None }
}

/// The model of a token carrying payload text.
pub open spec fn tok_text(kind: TokenType, text: Seq<char>) -> TokenModel {
    TokenModel { kind, text: Some(text) }
}

/// Textual rendering of a token sequence: the space-joined renderings
/// of its tokens, in order.
pub open spec fn spec_render_seq(ts: Seq<TokenModel>) -> Seq<char>
    decreases ts.len(),
{
    if ts.len() == 0 {
        Seq::empty()
    } else if ts.len() == 1 {
        ts[0].spec_render()
    } else {
        spec_render_seq(ts.drop_last()) + " "@ + ts.last().spec_render()
    }
}

/// One classified unit of input text: a kind plus a payload exactly for
/// the String and Number kinds.
#[derive(Debug)]
pub struct JsonToken {
    token_type: TokenType,
    value: Option<String>,
}

impl View for JsonToken {
    type V = TokenModel;

    closed spec fn view(&self) -> TokenModel {
        TokenModel {
            kind: self.token_type,
            text: match self.value {
                Some(ref s) => Some(s@),
                None => None,
            },
        }
    }
}

impl JsonToken {
    /// The payload is present if and only if the kind calls for one.
    pub open spec fn wf(self) -> bool {
        self@.text is Some <==> self@.kind.needs_text()
    }

    pub fn new(token_type: TokenType) -> (t: Self)
        requires
            !token_type.needs_text(),
        ensures
            t@ == tok(token_type),
            t.wf(),
    {
        Self { token_type, value: None }
    }

    pub fn new_str(token_type: TokenType, value: String) -> (t: Self)
        requires
            token_type.needs_text(),
        ensures
            t@ == tok_text(token_type, value@),
            t.wf(),
    {
        Self { token_type, value: Some(value) }
    }

    /// The token's kind.
    pub fn kind(&self) -> (k: TokenType)
        ensures
            k == self@.kind,
    {
        self.token_type
    }

    /// The token's payload, if its kind carries one.
    pub fn value(&self) -> (v: &Option<String>)
        ensures
            v is Some <==> self@.text is Some,
            v is Some ==> v->0@ == self@.text->0,
    {
        &self.value
    }

    /// Render the token for human inspection: `label(payload)` when a
    /// payload is present, the bare label otherwise.
    pub fn render(&self) -> (r: String)
        ensures
            r@ == self@.spec_render(),
    {
        match &self.value {
            Some(v) => {
                let mut s = String::new();
                s.append(self.token_type.label());
                s.append("(");
                s.append(v.as_str());
                s.append(")");
                proof {
                    assert(s@ =~= self@.spec_render());
                }
                s
            },
            None => String::from_str(self.token_type.label()),
        }
    }
}

} // verus!
