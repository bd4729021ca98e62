//! The cursor: a stateful read head over a fixed character sequence.
//! `now` names the character the most recent advance consumed, not the
//! next one to read; `back` un-consumes one character after a scan
//! overshoots into a delimiter.
use vstd::prelude::*;
use vstd::string::StrSliceExecFns;

use crate::model::{find_char, is_ws, lemma_find_char_is, matches_at, scan_text};

verus! {

/// Whether `c` is a Unicode whitespace character.
pub fn is_ws_char(c: char) -> (r: bool)
    ensures
        r == is_ws(c),
{
    ||| c == ' '
    ||| c == '\t'
    ||| c == '\n'
    ||| c == '\u{b}'
    ||| c == '\u{c}'
    ||| c == '\r'
    ||| c == '\u{85}'
    ||| c == '\u{a0}'
    ||| c == '\u{1680}'
    ||| ('\u{2000}' <= c && c <= '\u{200a}')
    ||| c == '\u{2028}'
    ||| c == '\u{2029}'
    ||| c == '\u{202f}'
    ||| c == '\u{205f}'
    ||| c == '\u{3000}'
}

/// Whether the characters contain `c`.
pub fn contains_char(cs: &Vec<char>, c: char) -> (r: bool)
    ensures
        r == cs@.contains(c),
{
    let mut k: usize = 0;
    while k < cs.len()
        invariant
            k <= cs.len(),
            forall|m: int| 0 <= m < k ==> cs@[m] != c,
        decreases cs.len() - k,
    {
        if cs[k] == c {
            return true;
        }
        k += 1;
    }
    false
}

/// The read head over the input: the full character sequence and one
/// read position.
pub struct StringReader {
    chars: Vec<char>,
    index: usize,
}

impl StringReader {
    /// The characters the reader was built from.
    pub closed spec fn content(&self) -> Seq<char> {
        self.chars@
    }

    /// The read position: the count of characters consumed so far.
    pub closed spec fn pos(&self) -> int {
        self.index as int
    }

    /// The position never leaves `[0, length]`.
    pub open spec fn wf(&self) -> bool {
        0 <= self.pos() <= self.content().len()
    }

    pub fn new(str: String) -> (r: Self)
        ensures
            r.wf(),
            r.content() == str@,
            r.pos() == 0,
    {
        let n = str.as_str().unicode_len();
        let mut chars: Vec<char> = Vec::new();
        let mut k: usize = 0;
        while k < n
            invariant
                k <= n,
                n == str@.len(),
                chars@ == str@.subrange(0, k as int),
            decreases n - k,
        {
            let c = str.as_str().get_char(k);
            chars.push(c);
            assert(chars@ =~= str@.subrange(0, k + 1int));
            k += 1;
        }
        assert(chars@ =~= str@);
        Self { chars, index: 0 }
    }

    /// The character consumed by the most recent advance; nothing before
    /// the first advance.
    pub fn now(&self) -> (r: Option<char>)
        requires
            self.wf(),
        ensures
            r == (if self.pos() >= 1 {
                Some(self.content()[self.pos() - 1])
            } else {
                None::<char>
            }),
    {
        if self.index < 1 {
            return None;
        }
        Some(self.chars[self.index - 1])
    }

    /// Advance: consume and return the character at the read position,
    /// or nothing at the end of input. The only forward move.
    pub fn peek(&mut self) -> (r: Option<char>)
        requires
            old(self).wf(),
        ensures
            final(self).wf(),
            final(self).content() == old(self).content(),
            old(self).pos() < old(self).content().len() ==> r == Some(
                old(self).content()[old(self).pos()],
            ) && final(self).pos() == old(self).pos() + 1,
            old(self).pos() >= old(self).content().len() ==> r == None::<char> && final(self).pos()
                == old(self).pos(),
    {
        if self.index >= self.chars.len() {
            return None;
        }
        let c = self.chars[self.index];
        self.index = self.index + 1;
        Some(c)
    }

    /// Un-consume one character, if any was consumed.
    pub fn back(&mut self)
        requires
            old(self).wf(),
        ensures
            final(self).wf(),
            final(self).content() == old(self).content(),
            final(self).pos() == (if old(self).pos() > 0 {
                old(self).pos() - 1
            } else {
                0int
            }),
    {
        if self.index > 0 {
            self.index = self.index - 1;
        }
    }

    /// The number of characters consumed so far.
    pub fn position(&self) -> (r: usize)
        ensures
            r as int == self.pos(),
    {
        self.index
    }

    /// From the current character (inclusive), gather characters up to
    /// the first delimiter (not gathered, but consumed) or the end of
    /// input; whitespace in between is dropped when `ignore_white` is
    /// set. The flag says whether a delimiter was found.
    pub fn collect_untill(&mut self, until: &Vec<char>, ignore_white: bool) -> (r: (Vec<char>, bool))
        requires
            old(self).wf(),
            old(self).pos() >= 1,
        ensures
            final(self).wf(),
            final(self).content() == old(self).content(),
            ({
                let s = old(self).content();
                let j = find_char(s, old(self).pos(), s.len() as int, until@);
                &&& r.1 == (j < s.len())
                &&& r.0@ == seq![s[old(self).pos() - 1]] + scan_text(
                    s,
                    old(self).pos(),
                    j,
                    ignore_white,
                )
                &&& final(self).pos() == (if j < s.len() {
                    j + 1
                } else {
                    j
                })
            }),
    {
        let ghost s = self.chars@;
        let ghost p0 = self.pos();
        let now_c = self.now().unwrap();
        let mut acc: Vec<char> = Vec::new();
        acc.push(now_c);
        loop
            invariant
                self.wf(),
                self.content() == s,
                p0 <= self.pos() <= s.len(),
                forall|k: int| p0 <= k < self.pos() ==> !until@.contains(#[trigger] s[k]),
                acc@ == seq![s[p0 - 1]] + scan_text(s, p0, self.pos(), ignore_white),
            decreases s.len() - self.pos(),
        {
            let ghost p_it = self.pos();
            match self.peek() {
                Some(c) => {
                    if contains_char(until, c) {
                        proof {
                            lemma_find_char_is(s, p0, s.len() as int, until@, p_it);
                        }
                        return (acc, true);
                    } else if ignore_white && is_ws_char(c) {
                        // consumed but not gathered
                    } else {
                        acc.push(c);
                    }
                },
                None => {
                    proof {
                        lemma_find_char_is(s, p0, s.len() as int, until@, s.len() as int);
                    }
                    return (acc, false);
                },
            }
        }
    }

    /// Consume input and compare it, character for character, with
    /// `expected`; Err on the first mismatch or if input ends first.
    pub fn next_match(&mut self, expected: &Vec<char>) -> (r: Result<(), ()>)
        requires
            old(self).wf(),
        ensures
            final(self).wf(),
            final(self).content() == old(self).content(),
            r is Ok <==> matches_at(old(self).content(), old(self).pos(), expected@),
            r is Ok ==> final(self).pos() == old(self).pos() + expected@.len(),
    {
        let ghost s = self.chars@;
        let ghost p0 = self.pos();
        let mut k: usize = 0;
        while k < expected.len()
            invariant
                self.wf(),
                self.content() == s,
                k <= expected.len(),
                self.pos() == p0 + k,
                p0 + k <= s.len(),
                s.subrange(p0, p0 + k) == expected@.subrange(0, k as int),
            decreases expected.len() - k,
        {
            let ghost p_it = self.pos();
            match self.peek() {
                Some(c) => {
                    if c != expected[k] {
                        proof {
                            assert(!matches_at(s, p0, expected@)) by {
                                if matches_at(s, p0, expected@) {
                                    assert(s.subrange(p0, p0 + expected@.len())[k as int]
                                        == expected@[k as int]);
                                }
                            }
                        }
                        return Err(());
                    }
                    assert(s.subrange(p0, p0 + (k + 1)) =~= expected@.subrange(0, k + 1int));
                },
                None => {
                    return Err(());
                },
            }
            k += 1;
        }
        assert(expected@.subrange(0, expected@.len() as int) =~= expected@);
        Ok(())
    }
}

} // verus!
