//! The mathematical model of tokenization: character classification,
//! scanning, numeric-literal validity, and the reference token sequence
//! `spec_tokens` that the executable tokenizer is proved to produce.
use vstd::prelude::*;

use crate::token::{JsonToken, Keyword, LexError, TokenModel, TokenType, tok, tok_text};

verus! {

/// A Unicode whitespace character: the `White_Space` property, as
/// `char::is_whitespace` recognizes it.
pub open spec fn is_ws(c: char) -> bool {
    ||| c == ' '
    ||| c == '\t'
    ||| c == '\n'
    ||| c == '\u{b}'
    ||| c == '\u{c}'
    ||| c == '\r'
    ||| c == '\u{85}'
    ||| c == '\u{a0}'
    ||| c == '\u{1680}'
    ||| ('\u{2000}' <= c && c <= '\u{200a}')
    ||| c == '\u{2028}'
    ||| c == '\u{2029}'
    ||| c == '\u{202f}'
    ||| c == '\u{205f}'
    ||| c == '\u{3000}'
}

/// A decimal digit.
pub open spec fn is_digit(c: char) -> bool {
    '0' <= c && c <= '9'
}

/// A character that starts the number recognizer: a digit, a dot or a
/// minus sign. Full validity is only checked after the whole span is
/// collected.
pub open spec fn starts_number(c: char) -> bool {
    is_digit(c) || c == '.' || c == '-'
}

/// The characters that end a number span: the delimiters the scan stops
/// at. The semicolon is deliberately in the set even though it starts no
/// token of its own.
pub open spec fn num_delims() -> Seq<char> {
    seq![',', ']', '}', ';']
}

/// The tail of a keyword after its leading dispatch character.
pub open spec fn kw_tail(k: Keyword) -> Seq<char> {
    match k {
        Keyword::Null => seq!['u', 'l', 'l'],
        Keyword::True => seq!['r', 'u', 'e'],
        Keyword::False => seq!['a', 'l', 's', 'e'],
    }
}

/// The index of the first character of `s[from..end)` that `stops`
/// contains; `end` if there is none.
pub open spec fn find_char(s: Seq<char>, from: int, end: int, stops: Seq<char>) -> int
    decreases end - from,
{
    if from < 0 || from >= end {
        end
    } else if stops.contains(s[from]) {
        from
    } else {
        find_char(s, from + 1, end, stops)
    }
}

/// `find_char` lands between `from` and `end`, sees no stop character
/// before its result, and a stop character at it unless it is `end`.
pub proof fn lemma_find_char(s: Seq<char>, from: int, end: int, stops: Seq<char>)
    requires
        0 <= from <= end <= s.len(),
    ensures
        from <= find_char(s, from, end, stops) <= end,
        forall|k: int| from <= k < find_char(s, from, end, stops) ==> !stops.contains(#[trigger] s[k]),
        find_char(s, from, end, stops) < end ==> stops.contains(s[find_char(s, from, end, stops)]),
    decreases end - from,
{
    if from < end && !stops.contains(s[from]) {
        lemma_find_char(s, from + 1, end, stops);
    }
}

/// A position with no stop character before it, and one at it unless it
/// is `end`, is exactly what `find_char` returns.
pub proof fn lemma_find_char_is(s: Seq<char>, from: int, end: int, stops: Seq<char>, j: int)
    requires
        0 <= from <= j <= end <= s.len(),
        forall|k: int| from <= k < j ==> !stops.contains(#[trigger] s[k]),
        j < end ==> stops.contains(s[j]),
    ensures
        find_char(s, from, end, stops) == j,
    decreases j - from,
{
    if from < j {
        lemma_find_char_is(s, from + 1, end, stops, j);
    }
}

/// Membership in a one-character set is equality with that character.
pub proof fn lemma_one_of_one(a: char, c: char)
    ensures
        seq![a].contains(c) <==> c == a,
{
    if c == a {
        assert(seq![a][0] == c);
    }
    if seq![a].contains(c) {
        let i = choose|i: int| 0 <= i < seq![a].len() && seq![a][i] == c;
        assert(seq![a][i] == c);
    }
}

/// Membership in a two-character set.
pub proof fn lemma_one_of_two(a: char, b: char, c: char)
    ensures
        seq![a, b].contains(c) <==> (c == a || c == b),
{
    if c == a {
        assert(seq![a, b][0] == c);
    }
    if c == b {
        assert(seq![a, b][1] == c);
    }
    if seq![a, b].contains(c) {
        let i = choose|i: int| 0 <= i < seq![a, b].len() && seq![a, b][i] == c;
        assert(seq![a, b][i] == c);
    }
}

/// The characters of `s[from..end)` that a scan keeps: all of them, or,
/// when `skip_ws` is set, only the non-whitespace ones.
pub open spec fn scan_text(s: Seq<char>, from: int, end: int, skip_ws: bool) -> Seq<char>
    decreases end - from,
{
    if from >= end {
        Seq::empty()
    } else {
        let pre = scan_text(s, from, end - 1, skip_ws);
        if skip_ws && is_ws(s[end - 1]) {
            pre
        } else {
            pre.push(s[end - 1])
        }
    }
}

/// Without whitespace skipping, a scan keeps the characters verbatim.
pub proof fn lemma_scan_text_verbatim(s: Seq<char>, from: int, end: int)
    requires
        0 <= from <= end <= s.len(),
    ensures
        scan_text(s, from, end, false) == s.subrange(from, end),
    decreases end - from,
{
    if from < end {
        lemma_scan_text_verbatim(s, from, end - 1);
        assert(scan_text(s, from, end, false) =~= s.subrange(from, end));
    } else {
        assert(scan_text(s, from, end, false) =~= s.subrange(from, end));
    }
}

/// The keyword tail `w` stands in `s` beginning at `from`.
pub open spec fn matches_at(s: Seq<char>, from: int, w: Seq<char>) -> bool {
    from >= 0 && from + w.len() <= s.len() && s.subrange(from, from + w.len()) == w
}

/// Every character of `s[from..end)` is a decimal digit.
pub open spec fn digits_in(s: Seq<char>, from: int, end: int) -> bool {
    forall|k: int| from <= k < end ==> is_digit(#[trigger] s[k])
}

/// 1 if `t` opens with an explicit sign, else 0: where the digits of a
/// numeric literal begin.
pub open spec fn sign_skip(t: Seq<char>) -> int {
    if t.len() > 0 && (t[0] == '+' || t[0] == '-') {
        1
    } else {
        0
    }
}

/// The value of the digit string `t[from..end)` read in base ten.
pub open spec fn digits_val(t: Seq<char>, from: int, end: int) -> nat
    decreases end - from,
{
    if from >= end {
        0
    } else {
        digits_val(t, from, end - 1) * 10 + ((t[end - 1] as u32 - 48) as nat)
    }
}

/// `t` parses as a (64-bit signed) integer literal: an optional sign,
/// then at least one digit, with the magnitude in range.
pub open spec fn is_valid_int(t: Seq<char>) -> bool {
    let b = sign_skip(t);
    let n = t.len() as int;
    &&& n - b > 0
    &&& digits_in(t, b, n)
    &&& digits_val(t, b, n) <= (if t.len() > 0 && t[0] == '-' {
        9223372036854775808nat
    } else {
        9223372036854775807nat
    })
}

/// `t` parses as a float literal: an optional sign, a mantissa of digits
/// with at most one dot and at least one digit, and an optional exponent
/// `e`/`E`, optional sign, digits.
pub open spec fn is_valid_float(t: Seq<char>) -> bool {
    let b = sign_skip(t);
    let n = t.len() as int;
    let e = find_char(t, b, n, seq!['e', 'E']);
    let d = find_char(t, b, e, seq!['.']);
    let mant_ok = if d == e {
        e - b > 0 && digits_in(t, b, e)
    } else {
        e - b > 1 && digits_in(t, b, d) && digits_in(t, d + 1, e)
    };
    let exp_ok = if e == n {
        true
    } else {
        let xb = if e + 1 < n && (t[e + 1] == '+' || t[e + 1] == '-') {
            e + 2
        } else {
            e + 1
        };
        n - xb > 0 && digits_in(t, xb, n)
    };
    mant_ok && exp_ok
}

/// The text a number scan starting at dispatch position `i` collects:
/// the dispatch character itself, then everything up to the first
/// delimiter or the end of input, with whitespace dropped.
pub open spec fn number_text(s: Seq<char>, i: int) -> Seq<char> {
    let j = find_char(s, i + 1, s.len() as int, num_delims());
    seq![s[i]] + scan_text(s, i + 1, j, true)
}

/// The collected number text is valid: the dot selects float parsing,
/// its absence integer parsing.
pub open spec fn number_text_ok(t: Seq<char>) -> bool {
    if t.contains('.') {
        is_valid_float(t)
    } else {
        is_valid_int(t)
    }
}

/// Prepend one token to a tokenization outcome, keeping an error as it is.
pub open spec fn cons_tok(t: TokenModel, rest: Result<Seq<TokenModel>, LexError>) -> Result<
    Seq<TokenModel>,
    LexError,
> {
    match rest {
        Ok(ts) => Ok(seq![t] + ts),
        Err(e) => Err(e),
    }
}

/// Prepend an already-produced token sequence to a tokenization outcome.
pub open spec fn prepend(ts: Seq<TokenModel>, rest: Result<Seq<TokenModel>, LexError>) -> Result<
    Seq<TokenModel>,
    LexError,
> {
    match rest {
        Ok(more) => Ok(ts + more),
        Err(e) => Err(e),
    }
}

/// The reference tokenization of `s` from read position `i` on: either
/// the remaining token sequence, ending in `End`, or the first error.
/// `Json4Analyze::analyze` is proved to produce exactly this outcome
/// from position 0.
pub open spec fn spec_tokens(s: Seq<char>, i: int) -> Result<Seq<TokenModel>, LexError>
    decreases s.len() - i,
    when 0 <= i
{
    if i >= s.len() {
        Ok(seq![tok(TokenType::End)])
    } else {
        let c = s[i];
        proof {
            lemma_find_char(s, i + 1, s.len() as int, seq!['"']);
            lemma_find_char(s, i + 1, s.len() as int, num_delims());
        }
        if c == '{' {
            cons_tok(tok(TokenType::ObjectStart), spec_tokens(s, i + 1))
        } else if c == '}' {
            cons_tok(tok(TokenType::ObjectEnd), spec_tokens(s, i + 1))
        } else if c == '[' {
            cons_tok(tok(TokenType::ArrayStart), spec_tokens(s, i + 1))
        } else if c == ']' {
            cons_tok(tok(TokenType::ArrayEnd), spec_tokens(s, i + 1))
        } else if c == ':' {
            cons_tok(tok(TokenType::Colon), spec_tokens(s, i + 1))
        } else if c == ',' {
            cons_tok(tok(TokenType::Comma), spec_tokens(s, i + 1))
        } else if c == 'n' {
            if matches_at(s, i + 1, kw_tail(Keyword::Null)) {
                cons_tok(tok(TokenType::Null), spec_tokens(s, i + 4))
            } else {
                Err(LexError::InvalidLiteral { expected: Keyword::Null })
            }
        } else if c == '"' {
            let j = find_char(s, i + 1, s.len() as int, seq!['"']);
            if j == s.len() {
                Err(LexError::UnterminatedString)
            } else {
                cons_tok(tok_text(TokenType::String, s.subrange(i, j + 1)), spec_tokens(s, j + 1))
            }
        } else if c == 't' {
            if matches_at(s, i + 1, kw_tail(Keyword::True)) {
                cons_tok(tok(TokenType::True), spec_tokens(s, i + 4))
            } else {
                Err(LexError::InvalidLiteral { expected: Keyword::True })
            }
        } else if c == 'f' {
            if matches_at(s, i + 1, kw_tail(Keyword::False)) {
                cons_tok(tok(TokenType::False), spec_tokens(s, i + 5))
            } else {
                Err(LexError::InvalidLiteral { expected: Keyword::False })
            }
        } else if is_ws(c) {
            spec_tokens(s, i + 1)
        } else if starts_number(c) {
            let j = find_char(s, i + 1, s.len() as int, num_delims());
            let text = number_text(s, i);
            if number_text_ok(text) {
                cons_tok(tok_text(TokenType::Number, text), spec_tokens(s, j))
            } else {
                Err(LexError::InvalidNumber)
            }
        } else {
            Err(LexError::UnexpectedCharacter { ch: c, pos: i as usize })
        }
    }
}

/// A cons step keeps the end-token property when the prepended token is
/// not `End`.
proof fn lemma_end_token_cons(t: TokenModel, rest: Seq<TokenModel>)
    requires
        t.kind != TokenType::End,
        rest.len() >= 1,
        rest[rest.len() - 1].kind == TokenType::End,
        forall|k: int| 0 <= k < rest.len() - 1 ==> rest[k].kind != TokenType::End,
    ensures
        ({
            let ts = seq![t] + rest;
            &&& ts.len() >= 1
            &&& ts[ts.len() - 1].kind == TokenType::End
            &&& forall|k: int| 0 <= k < ts.len() - 1 ==> ts[k].kind != TokenType::End
        }),
{
    let ts = seq![t] + rest;
    assert forall|k: int| 0 <= k < ts.len() - 1 implies ts[k].kind != TokenType::End by {
        if k >= 1 {
            assert(ts[k] == rest[k - 1]);
        }
    }
}

/// Every successful tokenization ends in exactly one `End` token: one at
/// the tail, and none anywhere before it.
pub proof fn lemma_end_token(s: Seq<char>, i: int)
    requires
        0 <= i <= s.len(),
        spec_tokens(s, i) is Ok,
    ensures
        ({
            let ts = spec_tokens(s, i)->Ok_0;
            &&& ts.len() >= 1
            &&& ts[ts.len() - 1].kind == TokenType::End
            &&& forall|k: int| 0 <= k < ts.len() - 1 ==> ts[k].kind != TokenType::End
        }),
    decreases s.len() - i,
{
    if i < s.len() {
        let c = s[i];
        lemma_find_char(s, i + 1, s.len() as int, seq!['"']);
        lemma_find_char(s, i + 1, s.len() as int, num_delims());
        if c == '{' || c == '}' || c == '[' || c == ']' || c == ':' || c == ',' {
            lemma_end_token(s, i + 1);
            lemma_end_token_cons(spec_tokens(s, i)->Ok_0[0], spec_tokens(s, i + 1)->Ok_0);
        } else if c == 'n' {
            lemma_end_token(s, i + 4);
            lemma_end_token_cons(tok(TokenType::Null), spec_tokens(s, i + 4)->Ok_0);
        } else if c == '"' {
            let j = find_char(s, i + 1, s.len() as int, seq!['"']);
            lemma_end_token(s, j + 1);
            lemma_end_token_cons(
                tok_text(TokenType::String, s.subrange(i, j + 1)),
                spec_tokens(s, j + 1)->Ok_0,
            );
        } else if c == 't' {
            lemma_end_token(s, i + 4);
            lemma_end_token_cons(tok(TokenType::True), spec_tokens(s, i + 4)->Ok_0);
        } else if c == 'f' {
            lemma_end_token(s, i + 5);
            lemma_end_token_cons(tok(TokenType::False), spec_tokens(s, i + 5)->Ok_0);
        } else if is_ws(c) {
            lemma_end_token(s, i + 1);
        } else if starts_number(c) {
            let j = find_char(s, i + 1, s.len() as int, num_delims());
            lemma_end_token(s, j);
            lemma_end_token_cons(
                tok_text(TokenType::Number, number_text(s, i)),
                spec_tokens(s, j)->Ok_0,
            );
        }
    }
}

/// The characters of `s1` from `i1` on are the characters of `s2` from
/// `i2` on.
pub open spec fn suffix_eq(s1: Seq<char>, i1: int, s2: Seq<char>, i2: int) -> bool {
    &&& 0 <= i1 <= s1.len()
    &&& 0 <= i2 <= s2.len()
    &&& s1.len() - i1 == s2.len() - i2
    &&& forall|m: int| 0 <= m < s1.len() - i1 ==> s1[i1 + m] == #[trigger] s2[i2 + m]
}

proof fn lemma_suffix_eq_step(s1: Seq<char>, i1: int, s2: Seq<char>, i2: int, a: int)
    requires
        suffix_eq(s1, i1, s2, i2),
        0 <= a <= s1.len() - i1,
    ensures
        suffix_eq(s1, i1 + a, s2, i2 + a),
{
    assert forall|m: int| 0 <= m < s1.len() - (i1 + a) implies s1[i1 + a + m] == #[trigger] s2[i2
        + a + m] by {
        assert(s1[i1 + (a + m)] == s2[i2 + (a + m)]);
    }
}

/// `find_char` lands at the same offset in equal suffixes.
proof fn lemma_find_char_shift(s1: Seq<char>, i1: int, s2: Seq<char>, i2: int, a: int, stops: Seq<char>)
    requires
        suffix_eq(s1, i1, s2, i2),
        0 <= a <= s1.len() - i1,
    ensures
        find_char(s1, i1 + a, s1.len() as int, stops) - i1 == find_char(
            s2,
            i2 + a,
            s2.len() as int,
            stops,
        ) - i2,
    decreases s1.len() - i1 - a,
{
    assert(s1[i1 + a] == s2[i2 + a] || a >= s1.len() - i1);
    if i1 + a < s1.len() && !stops.contains(s1[i1 + a]) {
        lemma_find_char_shift(s1, i1, s2, i2, a + 1, stops);
    }
}

/// A scan keeps the same characters in equal suffixes.
proof fn lemma_scan_text_shift(
    s1: Seq<char>,
    i1: int,
    s2: Seq<char>,
    i2: int,
    a: int,
    b: int,
    skip_ws: bool,
)
    requires
        suffix_eq(s1, i1, s2, i2),
        0 <= a <= b <= s1.len() - i1,
    ensures
        scan_text(s1, i1 + a, i1 + b, skip_ws) == scan_text(s2, i2 + a, i2 + b, skip_ws),
    decreases b - a,
{
    if a < b {
        lemma_scan_text_shift(s1, i1, s2, i2, a, b - 1, skip_ws);
        assert(s1[i1 + (b - 1)] == s2[i2 + (b - 1)]);
    }
}

/// A keyword tail stands at the same offset in equal suffixes.
proof fn lemma_matches_at_shift(s1: Seq<char>, i1: int, s2: Seq<char>, i2: int, a: int, w: Seq<char>)
    requires
        suffix_eq(s1, i1, s2, i2),
        0 <= a <= s1.len() - i1,
    ensures
        matches_at(s1, i1 + a, w) == matches_at(s2, i2 + a, w),
{
    if i1 + a + w.len() <= s1.len() {
        assert forall|m: int|
            0 <= m < w.len() implies #[trigger] s1.subrange(i1 + a, i1 + a + w.len())[m]
            == s2.subrange(i2 + a, i2 + a + w.len())[m] by {
            assert(s1[i1 + (a + m)] == s2[i2 + (a + m)]);
            assert(s1.subrange(i1 + a, i1 + a + w.len())[m] == s1[i1 + a + m]);
            assert(s2.subrange(i2 + a, i2 + a + w.len())[m] == s2[i2 + a + m]);
        }
        assert(s1.subrange(i1 + a, i1 + a + w.len()) =~= s2.subrange(i2 + a, i2 + a + w.len()));
    }
}

/// Tokenization depends on the characters from the read position on
/// alone: on equal suffixes it succeeds alike, and then with the very
/// same tokens.
pub proof fn lemma_tokens_shift(s1: Seq<char>, i1: int, s2: Seq<char>, i2: int)
    requires
        suffix_eq(s1, i1, s2, i2),
    ensures
        spec_tokens(s1, i1) is Ok <==> spec_tokens(s2, i2) is Ok,
        spec_tokens(s1, i1) is Ok ==> spec_tokens(s1, i1) == spec_tokens(s2, i2),
    decreases s1.len() - i1,
{
    if i1 >= s1.len() {
    } else {
        let c = s1[i1];
        assert(s1[i1 + 0] == s2[i2 + 0]);
        lemma_find_char(s1, i1 + 1, s1.len() as int, seq!['"']);
        lemma_find_char(s1, i1 + 1, s1.len() as int, num_delims());
        if c == '{' || c == '}' || c == '[' || c == ']' || c == ':' || c == ',' || is_ws(c) {
            lemma_suffix_eq_step(s1, i1, s2, i2, 1);
            lemma_tokens_shift(s1, i1 + 1, s2, i2 + 1);
        } else if c == 'n' || c == 't' {
            lemma_matches_at_shift(s1, i1, s2, i2, 1, kw_tail(Keyword::Null));
            lemma_matches_at_shift(s1, i1, s2, i2, 1, kw_tail(Keyword::True));
            if matches_at(s1, i1 + 1, kw_tail(Keyword::Null)) || matches_at(
                s1,
                i1 + 1,
                kw_tail(Keyword::True),
            ) {
                lemma_suffix_eq_step(s1, i1, s2, i2, 4);
                lemma_tokens_shift(s1, i1 + 4, s2, i2 + 4);
            }
        } else if c == 'f' {
            lemma_matches_at_shift(s1, i1, s2, i2, 1, kw_tail(Keyword::False));
            if matches_at(s1, i1 + 1, kw_tail(Keyword::False)) {
                lemma_suffix_eq_step(s1, i1, s2, i2, 5);
                lemma_tokens_shift(s1, i1 + 5, s2, i2 + 5);
            }
        } else if c == '"' {
            let j1 = find_char(s1, i1 + 1, s1.len() as int, seq!['"']);
            let j2 = find_char(s2, i2 + 1, s2.len() as int, seq!['"']);
            lemma_find_char_shift(s1, i1, s2, i2, 1, seq!['"']);
            if j1 < s1.len() {
                assert forall|m: int|
                    0 <= m < j1 + 1 - i1 implies #[trigger] s1.subrange(i1, j1 + 1)[m]
                    == s2.subrange(i2, j2 + 1)[m] by {
                    assert(s1[i1 + m] == s2[i2 + m]);
                    assert(s1.subrange(i1, j1 + 1)[m] == s1[i1 + m]);
                    assert(s2.subrange(i2, j2 + 1)[m] == s2[i2 + m]);
                }
                assert(s1.subrange(i1, j1 + 1) =~= s2.subrange(i2, j2 + 1));
                lemma_suffix_eq_step(s1, i1, s2, i2, j1 + 1 - i1);
                lemma_tokens_shift(s1, j1 + 1, s2, j2 + 1);
            }
        } else if starts_number(c) {
            let j1 = find_char(s1, i1 + 1, s1.len() as int, num_delims());
            let j2 = find_char(s2, i2 + 1, s2.len() as int, num_delims());
            lemma_find_char_shift(s1, i1, s2, i2, 1, num_delims());
            lemma_scan_text_shift(s1, i1, s2, i2, 1, j1 - i1, true);
            assert(number_text(s1, i1) == number_text(s2, i2));
            lemma_suffix_eq_step(s1, i1, s2, i2, j1 - i1);
            lemma_tokens_shift(s1, j1, s2, j2);
        } else {
        }
    }
}

/// Skipping a whitespace run: tokenization from the start of a run of
/// whitespace equals tokenization from just past it.
pub proof fn lemma_ws_run(s: Seq<char>, i: int, j: int)
    requires
        0 <= i <= j <= s.len(),
        forall|k: int| i <= k < j ==> is_ws(#[trigger] s[k]),
    ensures
        spec_tokens(s, i) == spec_tokens(s, j),
    decreases j - i,
{
    if i < j {
        lemma_ws_run(s, i + 1, j);
    }
}

/// Incidental whitespace does not matter: inserting (or, read the other
/// way, removing) a run of whitespace at a position the dispatcher
/// reads from — between tokens, outside string and number literals —
/// never changes whether tokenization of the remainder succeeds, nor,
/// on success, the tokens it produces.
pub proof fn lemma_ws_insensitive(a: Seq<char>, w: Seq<char>, b: Seq<char>)
    requires
        forall|k: int| 0 <= k < w.len() ==> is_ws(#[trigger] w[k]),
    ensures
        spec_tokens(a + w + b, a.len() as int) is Ok <==> spec_tokens(a + b, a.len() as int) is Ok,
        spec_tokens(a + w + b, a.len() as int) is Ok ==> spec_tokens(a + w + b, a.len() as int)
            == spec_tokens(a + b, a.len() as int),
{
    let s1 = a + w + b;
    let s2 = a + b;
    assert forall|k: int| a.len() <= k < a.len() + w.len() implies is_ws(#[trigger] s1[k]) by {
        assert(s1[k] == w[k - a.len()]);
    }
    lemma_ws_run(s1, a.len() as int, a.len() + w.len() as int);
    assert forall|m: int| 0 <= m < s1.len() - (a.len() + w.len()) implies s1[a.len() + w.len() + m]
        == #[trigger] s2[a.len() + m] by {
        assert(s1[a.len() + w.len() + m] == b[m]);
        assert(s2[a.len() + m] == b[m]);
    }
    lemma_tokens_shift(s1, a.len() + w.len() as int, s2, a.len() as int);
}

/// The models of a sequence of tokens.
pub open spec fn models(ts: Seq<JsonToken>) -> Seq<TokenModel> {
    ts.map_values(|t: JsonToken| t@)
}

pub proof fn lemma_models_push(ts: Seq<JsonToken>, t: JsonToken)
    ensures
        models(ts.push(t)) == models(ts).push(t@),
{
    assert(models(ts.push(t)) =~= models(ts).push(t@));
}

/// Prepending tokens one at a time or in one piece comes to the same.
pub proof fn lemma_prepend_cons(ts: Seq<TokenModel>, t: TokenModel, rest: Result<Seq<TokenModel>, LexError>)
    ensures
        prepend(ts, cons_tok(t, rest)) == prepend(ts.push(t), rest),
{
    match rest {
        Ok(more) => {
            assert(ts + (seq![t] + more) =~= ts.push(t) + more);
        },
        Err(_) => {},
    }
}

} // verus!
