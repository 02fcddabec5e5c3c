//! A cursor over the characters of a text, shared by the HTML and CSS parsers.

use vstd::prelude::*;

use crate::chars::{chars_of, string_of};

verus! {

/// A character with the Unicode White_Space property, as `char::is_whitespace` tells.
pub open spec fn is_white_space(c: char) -> bool {
    let u = c as u32;
    (0x9 <= u <= 0xd) || u == 0x20 || u == 0x85 || u == 0xa0 || u == 0x1680 || (0x2000 <= u
        <= 0x200a) || u == 0x2028 || u == 0x2029 || u == 0x202f || u == 0x205f || u == 0x3000
}

/// Whether `c` is white space.
pub fn is_whitespace(c: char) -> (r: bool)
    ensures
        r == is_white_space(c),
{
    let u = c as u32;
    (0x9 <= u && u <= 0xd) || u == 0x20 || u == 0x85 || u == 0xa0 || u == 0x1680 || (0x2000 <= u
        && u <= 0x200a) || u == 0x2028 || u == 0x2029 || u == 0x202f || u == 0x205f || u == 0x3000
}

pub open spec fn white_space_chars() -> spec_fn(char) -> bool {
    |c: char| is_white_space(c)
}

/// The character at `p` is `c`.
pub open spec fn at(t: Seq<char>, p: int, c: char) -> bool {
    0 <= p < t.len() && t[p] == c
}

/// The end of the run of characters from `p` on of which `f` holds.
pub open spec fn run_end(t: Seq<char>, p: int, f: spec_fn(char) -> bool) -> int
    decreases t.len() - p,
{
    if 0 <= p < t.len() && f(t[p]) {
        run_end(t, p + 1, f)
    } else {
        p
    }
}

pub proof fn lemma_run_end(t: Seq<char>, p: int, q: int, f: spec_fn(char) -> bool)
    requires
        0 <= p <= q <= t.len(),
        forall|k: int| p <= k < q ==> f(#[trigger] t[k]),
        q == t.len() || !f(t[q]),
    ensures
        run_end(t, p, f) == q,
    decreases q - p,
{
    if p < q {
        lemma_run_end(t, p + 1, q, f);
    }
}

pub proof fn lemma_run_end_bounds(t: Seq<char>, p: int, f: spec_fn(char) -> bool)
    requires
        0 <= p <= t.len(),
    ensures
        p <= run_end(t, p, f) <= t.len(),
    decreases t.len() - p,
{
    if p < t.len() && f(t[p]) {
        lemma_run_end_bounds(t, p + 1, f);
    }
}

/// Why a text could not be parsed. Positions count characters.
#[derive(Clone, Copy, Debug, PartialEq, Eq, Structural)]
pub enum ParseError {
    /// The input ended where more was required.
    UnexpectedEnd,
    /// Another character stands where this one was required.
    Expected(char, usize),
    /// A closing tag names another element than the one it closes.
    MismatchedTag(usize),
    /// A character that cannot stand here.
    Unexpected(char, usize),
    /// A number that does not fit.
    BadNumber(usize),
    /// A unit other than px.
    UnknownUnit(usize),
    /// Two characters that are not a hexadecimal byte.
    BadHex(usize),
}

/// The input and the position of the next character to read, counted in characters.
pub struct Parser {
    pub position: usize,
    pub input: Vec<char>,
}

impl Parser {
    pub open spec fn text(&self) -> Seq<char> {
        self.input@
    }

    pub open spec fn pos(&self) -> int {
        self.position as int
    }

    /// A parser over `input` that reads from character `position` on.
    pub fn new(position: usize, input: String) -> (r: Parser)
        ensures
            r.text() == input@,
            r.pos() == position,
    {
        Parser { position, input: chars_of(input.as_str()) }
    }

    /// Skips white space.
    pub fn consume_whitespace(&mut self)
        requires
            old(self).pos() <= old(self).text().len(),
        ensures
            final(self).text() == old(self).text(),
            old(self).pos() <= final(self).pos() <= final(self).text().len(),
            forall|k: int| old(self).pos() <= k < final(self).pos() ==> is_white_space(#[trigger] final(self).text()[k]),
            final(self).pos() < final(self).text().len() ==> !is_white_space(final(self).text()[final(self).pos()]),
    {
        let test = |c: char| -> (r: bool)
            ensures
                r == is_white_space(c),
            { is_whitespace(c) };
        self.consume_while(test);
    }

    /// Reads characters while `test` holds of them, and returns them.
    pub fn consume_while<F>(&mut self, test: F) -> (r: String) where F: Fn(char) -> bool
        requires
            old(self).pos() <= old(self).text().len(),
            forall|c: char| test.requires((c,)),
        ensures
            final(self).text() == old(self).text(),
            old(self).pos() <= final(self).pos() <= final(self).text().len(),
            r@ == old(self).text().subrange(old(self).pos(), final(self).pos()),
            forall|k: int| old(self).pos() <= k < final(self).pos() ==> test.ensures((#[trigger] final(self).text()[k],), true),
            final(self).pos() < final(self).text().len() ==> test.ensures((final(self).text()[final(self).pos()],), false),
    {
        let start = self.position;
        let mut done = false;
        while !done && self.position < self.input.len()
            invariant
                self.input@ == old(self).input@,
                start == old(self).position,
                start <= self.position <= self.input@.len(),
                forall|c: char| test.requires((c,)),
                forall|k: int| start <= k < self.position ==> test.ensures((#[trigger] self.input@[k],), true),
                done ==> self.position < self.input@.len() && test.ensures((self.input@[self.position as int],), false),
            decreases self.input@.len() - self.position, if done { 0int } else { 1int },
        {
            let c = self.input[self.position];
            if test(c) {
                self.position = self.position + 1;
            } else {
                done = true;
            }
        }
        let piece = slice_to_string(&self.input, start, self.position);
        piece
    }

    /// Reads the next character.
    pub fn consume_char(&mut self) -> (r: char)
        requires
            old(self).pos() < old(self).text().len(),
        ensures
            final(self).text() == old(self).text(),
            final(self).pos() == old(self).pos() + 1,
            r == old(self).text()[old(self).pos()],
    {
        let n = self.input.len();
        let c = self.input[self.position];
        assert(self.position < n);
        self.position = self.position + 1;
        c
    }

    /// Reads the next character, which must be `c`.
    pub fn expect_char(&mut self, c: char) -> (r: Result<(), ParseError>)
        requires
            old(self).pos() <= old(self).text().len(),
        ensures
            final(self).text() == old(self).text(),
            r is Ok <==> old(self).pos() < old(self).text().len() && old(self).text()[old(self).pos()] == c,
            r is Ok ==> final(self).pos() == old(self).pos() + 1,
            r is Err ==> final(self).pos() == old(self).pos(),
            r == Err::<(), ParseError>(ParseError::UnexpectedEnd) <==> old(self).pos() == old(self).text().len(),
            r == Err::<(), ParseError>(ParseError::Expected(c, old(self).pos() as usize)) <==> old(self).pos() < old(self).text().len() && old(self).text()[old(self).pos()] != c,
    {
        if self.ended() {
            return Err(ParseError::UnexpectedEnd);
        }
        if self.next_char() != c {
            return Err(ParseError::Expected(c, self.position));
        }
        self.consume_char();
        Ok(())
    }

    /// The next `n` characters, without reading them.
    pub fn next_chars(&self, n: usize) -> (r: String)
        requires
            self.pos() + n <= self.text().len(),
        ensures
            r@ == self.text().subrange(self.pos(), self.pos() + n),
    {
        let len = self.input.len();
        assert(self.position + n <= len);
        slice_to_string(&self.input, self.position, self.position + n)
    }

    /// The next character, without reading it.
    pub fn next_char(&self) -> (r: char)
        requires
            self.pos() < self.text().len(),
        ensures
            r == self.text()[self.pos()],
    {
        self.input[self.position]
    }

    /// Whether the unread input begins with `test_str`.
    pub fn starts_with(&self, test_str: &str) -> (r: bool)
        requires
            self.pos() <= self.text().len(),
        ensures
            r == (self.pos() + test_str@.len() <= self.text().len() && self.text().subrange(
                self.pos(),
                self.pos() + test_str@.len(),
            ) == test_str@),
    {
        let t = chars_of(test_str);
        let len = self.input.len();
        if t.len() > len - self.position {
            return false;
        }
        let mut k: usize = 0;
        while k < t.len()
            invariant
                self.position + t@.len() <= self.input@.len(),
                len == self.input@.len(),
                t@ == test_str@,
                k <= t@.len(),
                forall|j: int| 0 <= j < k ==> self.input@[self.position + j] == t@[j],
            decreases t@.len() - k,
        {
            if self.input[self.position + k] != t[k] {
                proof {
                    let sub = self.text().subrange(self.pos(), self.pos() + t@.len());
                    assert(sub[k as int] == self.input@[self.position + k]);
                    assert(sub[k as int] != t@[k as int]);
                    assert(sub != t@);
                }
                return false;
            }
            k = k + 1;
        }
        assert(self.text().subrange(self.pos(), self.pos() + t@.len()) =~= t@);
        true
    }

    /// The position of the next character.
    pub fn position(&self) -> (r: usize)
        ensures
            r == self.pos(),
    {
        self.position
    }

    /// Whether all the input has been read.
    pub fn ended(&self) -> (r: bool)
        ensures
            r == (self.pos() >= self.text().len()),
    {
        self.position >= self.input.len()
    }
}

/// The characters of `v` from `from` up to `to`, as a string.
fn slice_to_string(v: &Vec<char>, from: usize, to: usize) -> (r: String)
    requires
        from <= to <= v@.len(),
    ensures
        r@ == v@.subrange(from as int, to as int),
{
    let mut piece: Vec<char> = Vec::new();
    let mut i: usize = from;
    while i < to
        invariant
            from <= i <= to,
            to <= v@.len(),
            piece@ == v@.subrange(from as int, i as int),
        decreases to - i,
    {
        piece.push(v[i]);
        assert(piece@ =~= v@.subrange(from as int, i + 1));
        i = i + 1;
    }
    string_of(piece.as_slice())
}

} // verus!
