//! The tokenizer: one pass over the input, classifying each position
//! into a token, proved to produce exactly the outcome of the model's
//! `spec_tokens`.
use vstd::prelude::*;

use crate::model::{
    find_char, kw_tail, lemma_one_of_one, lemma_prepend_cons, lemma_models_push,
    lemma_scan_text_verbatim, lemma_find_char, matches_at, models, num_delims, number_text,
    number_text_ok, prepend, scan_text, spec_tokens, starts_number,
};
use crate::num::{check_float, check_int, has_dot, is_digit_char};
use crate::reader::{StringReader, is_ws_char};
use crate::token::{JsonToken, Keyword, LexError, TokenType, spec_render_seq, tok, tok_text};
use vstd::string::StringExecFns;

verus! {

/// The number-terminator set of the scan, as characters.
fn num_delims_vec() -> (v: Vec<char>)
    ensures
        v@ == num_delims(),
{
    let mut v: Vec<char> = Vec::new();
    v.push(',');
    v.push(']');
    v.push('}');
    v.push(';');
    assert(v@ =~= num_delims());
    v
}

/// The one-character delimiter set that ends a string literal.
fn quote_vec() -> (v: Vec<char>)
    ensures
        v@ == seq!['"'],
{
    let mut v: Vec<char> = Vec::new();
    v.push('"');
    assert(v@ =~= seq!['"']);
    v
}

/// The tail of a keyword after its dispatch character, as characters.
fn kw_tail_vec(k: Keyword) -> (v: Vec<char>)
    ensures
        v@ == kw_tail(k),
{
    let mut v: Vec<char> = Vec::new();
    match k {
        Keyword::Null => {
            v.push('u');
            v.push('l');
            v.push('l');
        },
        Keyword::True => {
            v.push('r');
            v.push('u');
            v.push('e');
        },
        Keyword::False => {
            v.push('a');
            v.push('l');
            v.push('s');
            v.push('e');
        },
    }
    assert(v@ =~= kw_tail(k));
    v
}

/// Relies on String's FromIterator over char: collecting characters
/// yields the string that holds exactly those characters, in order.
#[verifier::external_body]
fn chars_to_string(v: &Vec<char>) -> (s: String)
    ensures
        s@ == v@,
{
    v.iter().collect()
}

/// The tokenizer: owns the cursor for one run and appends tokens to its
/// output sequence, then a final `End` token.
pub struct Json4Analyze {
    pub _reader: StringReader,
    pub tokens: Vec<JsonToken>,
}

impl Json4Analyze {
    /// The full input character sequence.
    pub closed spec fn input(&self) -> Seq<char> {
        self._reader.content()
    }

    /// The cursor's read position.
    pub closed spec fn rpos(&self) -> int {
        self._reader.pos()
    }

    /// The cursor is within bounds.
    pub closed spec fn reader_wf(&self) -> bool {
        self._reader.wf()
    }

    /// Well-formed run state: cursor in bounds, every emitted token with
    /// a payload exactly where its kind calls for one.
    pub open spec fn wf(&self) -> bool {
        &&& self.reader_wf()
        &&& forall|k: int| 0 <= k < self.tokens@.len() ==> (#[trigger] self.tokens@[k]).wf()
    }

    pub fn new(json: String) -> (r: Self)
        ensures
            r.wf(),
            r.input() == json@,
            r.rpos() == 0,
            r.tokens@.len() == 0,
    {
        Self { _reader: StringReader::new(json), tokens: Vec::new() }
    }

    /// Append a token without payload.
    fn add(&mut self, token_type: TokenType)
        requires
            old(self).wf(),
            !token_type.needs_text(),
        ensures
            final(self).wf(),
            final(self).input() == old(self).input(),
            final(self).rpos() == old(self).rpos(),
            models(final(self).tokens@) == models(old(self).tokens@).push(tok(token_type)),
    {
        let t = JsonToken::new(token_type);
        proof {
            lemma_models_push(self.tokens@, t);
        }
        self.tokens.push(t);
    }

    /// Recognize a number: scan to a delimiter or the end of input, step
    /// back off a found delimiter, and validate the collected text.
    fn read_num(&mut self) -> (r: Result<(), LexError>)
        requires
            old(self).wf(),
            1 <= old(self).rpos() <= old(self).input().len(),
            starts_number(old(self).input()[old(self).rpos() - 1]),
        ensures
            final(self).wf(),
            final(self).input() == old(self).input(),
            ({
                let s = old(self).input();
                let p = old(self).rpos();
                let j = find_char(s, p, s.len() as int, num_delims());
                let text = seq![s[p - 1]] + scan_text(s, p, j, true);
                if number_text_ok(text) {
                    &&& r == Ok::<(), LexError>(())
                    &&& models(final(self).tokens@) == models(old(self).tokens@).push(
                        tok_text(TokenType::Number, text),
                    )
                    &&& final(self).rpos() == j
                } else {
                    &&& r == Err::<(), LexError>(LexError::InvalidNumber)
                    &&& final(self).tokens@ == old(self).tokens@
                }
            }),
    {
        let ghost s = self.input();
        let ghost p = self.rpos();
        proof {
            lemma_find_char(s, p, s.len() as int, num_delims());
        }
        let delims = num_delims_vec();
        let (acc, found) = self._reader.collect_untill(&delims, true);
        if found {
            self._reader.back();
        }
        let ok = if has_dot(&acc) {
            check_float(&acc)
        } else {
            check_int(&acc)
        };
        if ok {
            let payload = chars_to_string(&acc);
            let t = JsonToken::new_str(TokenType::Number, payload);
            proof {
                lemma_models_push(self.tokens@, t);
            }
            self.tokens.push(t);
            Ok(())
        } else {
            Err(LexError::InvalidNumber)
        }
    }

    /// Recognize a string literal: scan to the closing quote; the payload
    /// keeps both quotes and the raw interior characters.
    fn read_str(&mut self) -> (r: Result<(), LexError>)
        requires
            old(self).wf(),
            1 <= old(self).rpos() <= old(self).input().len(),
            old(self).input()[old(self).rpos() - 1] == '"',
        ensures
            final(self).wf(),
            final(self).input() == old(self).input(),
            ({
                let s = old(self).input();
                let p = old(self).rpos();
                let j = find_char(s, p, s.len() as int, seq!['"']);
                if j == s.len() {
                    &&& r == Err::<(), LexError>(LexError::UnterminatedString)
                    &&& final(self).tokens@ == old(self).tokens@
                } else {
                    &&& r == Ok::<(), LexError>(())
                    &&& models(final(self).tokens@) == models(old(self).tokens@).push(
                        tok_text(TokenType::String, s.subrange(p - 1, j + 1)),
                    )
                    &&& final(self).rpos() == j + 1
                }
            }),
    {
        let ghost s = self.input();
        let ghost p = self.rpos();
        let quote = quote_vec();
        let (mut acc, found) = self._reader.collect_untill(&quote, false);
        if !found {
            return Err(LexError::UnterminatedString);
        }
        acc.push('"');
        proof {
            let j = find_char(s, p, s.len() as int, seq!['"']);
            lemma_find_char(s, p, s.len() as int, seq!['"']);
            lemma_one_of_one('"', s[j]);
            lemma_scan_text_verbatim(s, p, j);
            assert(acc@ =~= s.subrange(p - 1, j + 1));
        }
        let payload = chars_to_string(&acc);
        let t = JsonToken::new_str(TokenType::String, payload);
        proof {
            lemma_models_push(self.tokens@, t);
        }
        self.tokens.push(t);
        Ok(())
    }

    /// Recognize the `null` keyword after its leading `n`.
    fn read_null(&mut self) -> (r: Result<(), LexError>)
        requires
            old(self).wf(),
            1 <= old(self).rpos() <= old(self).input().len(),
            old(self).input()[old(self).rpos() - 1] == 'n',
        ensures
            final(self).wf(),
            final(self).input() == old(self).input(),
            ({
                let s = old(self).input();
                let p = old(self).rpos();
                if matches_at(s, p, kw_tail(Keyword::Null)) {
                    &&& r == Ok::<(), LexError>(())
                    &&& models(final(self).tokens@) == models(old(self).tokens@).push(
                        tok(TokenType::Null),
                    )
                    &&& final(self).rpos() == p + 3
                } else {
                    &&& r == Err::<(), LexError>(
                        LexError::InvalidLiteral { expected: Keyword::Null },
                    )
                    &&& final(self).tokens@ == old(self).tokens@
                }
            }),
    {
        let tail = kw_tail_vec(Keyword::Null);
        match self._reader.next_match(&tail) {
            Ok(_) => {
                self.add(TokenType::Null);
                Ok(())
            },
            Err(_) => Err(LexError::InvalidLiteral { expected: Keyword::Null }),
        }
    }

    /// Recognize `true` or `false` after its leading `t` or `f`.
    fn read_bool(&mut self) -> (r: Result<(), LexError>)
        requires
            old(self).wf(),
            1 <= old(self).rpos() <= old(self).input().len(),
            old(self).input()[old(self).rpos() - 1] == 't' || old(self).input()[old(self).rpos()
                - 1] == 'f',
        ensures
            final(self).wf(),
            final(self).input() == old(self).input(),
            ({
                let s = old(self).input();
                let p = old(self).rpos();
                if s[p - 1] == 't' {
                    if matches_at(s, p, kw_tail(Keyword::True)) {
                        &&& r == Ok::<(), LexError>(())
                        &&& models(final(self).tokens@) == models(old(self).tokens@).push(
                            tok(TokenType::True),
                        )
                        &&& final(self).rpos() == p + 3
                    } else {
                        &&& r == Err::<(), LexError>(
                            LexError::InvalidLiteral { expected: Keyword::True },
                        )
                        &&& final(self).tokens@ == old(self).tokens@
                    }
                } else {
                    if matches_at(s, p, kw_tail(Keyword::False)) {
                        &&& r == Ok::<(), LexError>(())
                        &&& models(final(self).tokens@) == models(old(self).tokens@).push(
                            tok(TokenType::False),
                        )
                        &&& final(self).rpos() == p + 4
                    } else {
                        &&& r == Err::<(), LexError>(
                            LexError::InvalidLiteral { expected: Keyword::False },
                        )
                        &&& final(self).tokens@ == old(self).tokens@
                    }
                }
            }),
    {
        let c = self._reader.now().unwrap();
        if c == 't' {
            let tail = kw_tail_vec(Keyword::True);
            match self._reader.next_match(&tail) {
                Ok(_) => {
                    self.add(TokenType::True);
                    Ok(())
                },
                Err(_) => Err(LexError::InvalidLiteral { expected: Keyword::True }),
            }
        } else {
            let tail = kw_tail_vec(Keyword::False);
            match self._reader.next_match(&tail) {
                Ok(_) => {
                    self.add(TokenType::False);
                    Ok(())
                },
                Err(_) => Err(LexError::InvalidLiteral { expected: Keyword::False }),
            }
        }
    }

    /// Render the token sequence for human inspection: the tokens'
    /// renderings, space-joined in order.
    pub fn render(&self) -> (r: String)
        ensures
            r@ == spec_render_seq(models(self.tokens@)),
    {
        let ghost m = models(self.tokens@);
        let mut s = String::new();
        let mut i: usize = 0;
        while i < self.tokens.len()
            invariant
                i <= self.tokens@.len(),
                m == models(self.tokens@),
                s@ == spec_render_seq(m.subrange(0, i as int)),
            decreases self.tokens@.len() - i,
        {
            if i > 0 {
                s.append(" ");
            }
            let piece = self.tokens[i].render();
            s.append(piece.as_str());
            proof {
                assert(m.subrange(0, i as int + 1).drop_last() =~= m.subrange(0, i as int));
                assert(s@ =~= spec_render_seq(m.subrange(0, i as int + 1)));
            }
            i += 1;
        }
        proof {
            assert(m.subrange(0, m.len() as int) =~= m);
        }
        s
    }

    /// One pass over the whole input. On success the token sequence is
    /// exactly the model's, ending in `End`; on the first error the run
    /// stops, no partial sequence is kept, and the error is returned.
    pub fn analyze(&mut self) -> (r: Result<(), LexError>)
        requires
            old(self).wf(),
            old(self).rpos() == 0,
            old(self).tokens@.len() == 0,
        ensures
            final(self).wf(),
            final(self).input() == old(self).input(),
            match spec_tokens(old(self).input(), 0) {
                Ok(ts) => r == Ok::<(), LexError>(()) && models(final(self).tokens@) == ts,
                Err(e) => r == Err::<(), LexError>(e) && final(self).tokens@.len() == 0,
            },
    {
        let ghost s = self.input();
        proof {
            assert(models(self.tokens@) =~= Seq::<crate::token::TokenModel>::empty());
            if spec_tokens(s, 0) is Ok {
                assert(Seq::<crate::token::TokenModel>::empty() + spec_tokens(s, 0)->Ok_0
                    =~= spec_tokens(s, 0)->Ok_0);
            }
        }
        loop
            invariant
                self.wf(),
                self.input() == s,
                0 <= self.rpos() <= s.len(),
                spec_tokens(s, 0) == prepend(models(self.tokens@), spec_tokens(s, self.rpos())),
            decreases s.len() - self.rpos(),
        {
            let ghost p_it = self.rpos();
            let ghost m0 = models(self.tokens@);
            match self._reader.peek() {
                None => {
                    break;
                },
                Some(c) => {
                    if c == '{' {
                        self.add(TokenType::ObjectStart);
                        proof {
                            lemma_prepend_cons(m0, tok(TokenType::ObjectStart), spec_tokens(s, p_it + 1));
                        }
                    } else if c == '}' {
                        self.add(TokenType::ObjectEnd);
                        proof {
                            lemma_prepend_cons(m0, tok(TokenType::ObjectEnd), spec_tokens(s, p_it + 1));
                        }
                    } else if c == '[' {
                        self.add(TokenType::ArrayStart);
                        proof {
                            lemma_prepend_cons(m0, tok(TokenType::ArrayStart), spec_tokens(s, p_it + 1));
                        }
                    } else if c == ']' {
                        self.add(TokenType::ArrayEnd);
                        proof {
                            lemma_prepend_cons(m0, tok(TokenType::ArrayEnd), spec_tokens(s, p_it + 1));
                        }
                    } else if c == ':' {
                        self.add(TokenType::Colon);
                        proof {
                            lemma_prepend_cons(m0, tok(TokenType::Colon), spec_tokens(s, p_it + 1));
                        }
                    } else if c == ',' {
                        self.add(TokenType::Comma);
                        proof {
                            lemma_prepend_cons(m0, tok(TokenType::Comma), spec_tokens(s, p_it + 1));
                        }
                    } else if c == 'n' {
                        match self.read_null() {
                            Ok(_) => {
                                proof {
                                    lemma_prepend_cons(m0, tok(TokenType::Null), spec_tokens(s, p_it + 4));
                                }
                            },
                            Err(e) => {
                                self.tokens.clear();
                                return Err(e);
                            },
                        }
                    } else if c == '"' {
                        let ghost j = find_char(s, p_it + 1, s.len() as int, seq!['"']);
                        match self.read_str() {
                            Ok(_) => {
                                proof {
                                    lemma_find_char(s, p_it + 1, s.len() as int, seq!['"']);
                                    lemma_prepend_cons(
                                        m0,
                                        tok_text(TokenType::String, s.subrange(p_it, j + 1)),
                                        spec_tokens(s, j + 1),
                                    );
                                }
                            },
                            Err(e) => {
                                self.tokens.clear();
                                return Err(e);
                            },
                        }
                    } else if c == 't' || c == 'f' {
                        match self.read_bool() {
                            Ok(_) => {
                                proof {
                                    if c == 't' {
                                        lemma_prepend_cons(m0, tok(TokenType::True), spec_tokens(s, p_it + 4));
                                    } else {
                                        lemma_prepend_cons(m0, tok(TokenType::False), spec_tokens(s, p_it + 5));
                                    }
                                }
                            },
                            Err(e) => {
                                self.tokens.clear();
                                return Err(e);
                            },
                        }
                    } else if is_ws_char(c) {
                        // no token: whitespace between tokens is skipped
                    } else if is_digit_char(c) || c == '.' || c == '-' {
                        let ghost j = find_char(s, p_it + 1, s.len() as int, num_delims());
                        match self.read_num() {
                            Ok(_) => {
                                proof {
                                    lemma_prepend_cons(
                                        m0,
                                        tok_text(TokenType::Number, number_text(s, p_it)),
                                        spec_tokens(s, j),
                                    );
                                    lemma_find_char(s, p_it + 1, s.len() as int, num_delims());
                                }
                            },
                            Err(e) => {
                                self.tokens.clear();
                                return Err(e);
                            },
                        }
                    } else {
                        let pos_now = self._reader.position();
                        let idx = pos_now - 1;
                        self.tokens.clear();
                        return Err(LexError::UnexpectedCharacter { ch: c, pos: idx });
                    }
                },
            }
        }
        let ghost m_end = models(self.tokens@);
        self.add(TokenType::End);
        proof {
            assert(spec_tokens(s, self.rpos()) == Ok::<Seq<crate::token::TokenModel>, LexError>(
                seq![tok(TokenType::End)],
            ));
            assert(m_end + seq![tok(TokenType::End)] =~= m_end.push(tok(TokenType::End)));
        }
        Ok(())
    }
}

} // verus!
