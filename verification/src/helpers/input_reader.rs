//! Reading a whole line of values, and unpacking short lists.

use vstd::prelude::*;
use vstd::slice::slice_subrange;
use crate::helpers::red::views;
use crate::helpers::token::{ParseError, Token};

verus! {

/// The length in bytes of the white-space character whose UTF-8 encoding
/// starts at `i`, or 0 where none starts there.
pub open spec fn space_len(s: Seq<u8>, i: int) -> int {
    if !(0 <= i < s.len()) {
        0
    } else if (9 <= s[i] <= 13) || s[i] == 32 {
        1
    } else if i + 1 < s.len() && s[i] == 0xC2 && (s[i + 1] == 0x85 || s[i + 1] == 0xA0) {
        2
    } else if i + 2 < s.len() && s[i] == 0xE1 && s[i + 1] == 0x9A && s[i + 2] == 0x80 {
        3
    } else if i + 2 < s.len() && s[i] == 0xE2 && s[i + 1] == 0x80 && ((0x80 <= s[i + 2] <= 0x8A)
        || s[i + 2] == 0xA8 || s[i + 2] == 0xA9 || s[i + 2] == 0xAF) {
        3
    } else if i + 2 < s.len() && s[i] == 0xE2 && s[i + 1] == 0x81 && s[i + 2] == 0x9F {
        3
    } else if i + 2 < s.len() && s[i] == 0xE3 && s[i + 1] == 0x80 && s[i + 2] == 0x80 {
        3
    } else {
        0
    }
}

/// The first position at or after `i` where no white-space character starts.
pub open spec fn line_skip_spaces(s: Seq<u8>, i: int) -> int
    decreases s.len() - i,
{
    if space_len(s, i) > 0 {
        line_skip_spaces(s, i + space_len(s, i))
    } else {
        i
    }
}

/// The first position at or after `i` where a white-space character
/// starts, or the end of the line.
pub open spec fn line_skip_word(s: Seq<u8>, i: int) -> int
    decreases s.len() - i,
{
    if 0 <= i < s.len() && space_len(s, i) == 0 {
        line_skip_word(s, i + 1)
    } else {
        i
    }
}

/// The values that the words of `s` from position `i` on spell, or the
/// failure of the first word that spells none.
pub open spec fn parse_line<T: Token>(s: Seq<u8>, i: int) -> Result<Seq<T::V>, ParseError>
    decreases s.len() - i,
{
    let start = line_skip_spaces(s, i);
    let end = line_skip_word(s, start);
    if 0 <= i <= start < end <= s.len() {
        match T::parse_spec(s.subrange(start, end)) {
            Err(e) => Err(e),
            Ok(v) => prepend(seq![v], parse_line::<T>(s, end)),
        }
    } else {
        Ok(Seq::empty())
    }
}

/// `r` with `front` put before its values.
pub open spec fn prepend<V>(front: Seq<V>, r: Result<Seq<V>, ParseError>) -> Result<
    Seq<V>,
    ParseError,
> {
    match r {
        Ok(rest) => Ok(front + rest),
        Err(e) => Err(e),
    }
}

proof fn lemma_line_skip_spaces(s: Seq<u8>, i: int)
    requires
        0 <= i <= s.len(),
    ensures
        i <= line_skip_spaces(s, i) <= s.len(),
        space_len(s, line_skip_spaces(s, i)) == 0,
    decreases s.len() - i,
{
    if space_len(s, i) > 0 {
        lemma_line_skip_spaces(s, i + space_len(s, i));
    }
}

proof fn lemma_line_skip_word(s: Seq<u8>, i: int)
    requires
        0 <= i <= s.len(),
    ensures
        i <= line_skip_word(s, i) <= s.len(),
        i < s.len() && space_len(s, i) == 0 ==> i < line_skip_word(s, i),
    decreases s.len() - i,
{
    if i < s.len() && space_len(s, i) == 0 {
        lemma_line_skip_word(s, i + 1);
    }
}

/// Decides [`space_len`].
fn space_len_at(s: &[u8], i: usize) -> (r: usize)
    requires
        i < s@.len(),
    ensures
        r == space_len(s@, i as int),
        i + r <= s@.len(),
{
    let n = s.len();
    let b = s[i];
    if (9 <= b && b <= 13) || b == 32 {
        1
    } else if n - i >= 2 && b == 0xC2 && (s[i + 1] == 0x85 || s[i + 1] == 0xA0) {
        2
    } else if n - i >= 3 && b == 0xE1 && s[i + 1] == 0x9A && s[i + 2] == 0x80 {
        3
    } else if n - i >= 3 && b == 0xE2 && s[i + 1] == 0x80 && ((0x80 <= s[i + 2] && s[i + 2]
        <= 0x8A) || s[i + 2] == 0xA8 || s[i + 2] == 0xA9 || s[i + 2] == 0xAF) {
        3
    } else if n - i >= 3 && b == 0xE2 && s[i + 1] == 0x81 && s[i + 2] == 0x9F {
        3
    } else if n - i >= 3 && b == 0xE3 && s[i + 1] == 0x80 && s[i + 2] == 0x80 {
        3
    } else {
        0
    }
}

/// Reads lines of white-space separated values. A line that fails to parse
/// stays buffered, and the next line is read as its continuation.
pub struct InputReader {
    s: Vec<u8>,
}

impl Default for InputReader {
    fn default() -> (r: InputReader)
        ensures
            r.buffer() == Seq::<u8>::empty(),
    {
        InputReader::new()
    }
}

impl InputReader {
    /// What is buffered from lines that failed.
    pub closed spec fn buffer(&self) -> Seq<u8> {
        self.s@
    }

    /// A reader with nothing buffered.
    pub fn new() -> (r: Self)
        ensures
            r.buffer() == Seq::<u8>::empty(),
    {
        Self { s: Vec::new() }
    }

    /// Parses every word of the buffer followed by `line` as a `T`. On
    /// success the buffer is emptied; on failure it holds the text that
    /// failed.
    pub fn ints_from_line<T: Token>(&mut self, line: &[u8]) -> (r: Result<Vec<T>, ParseError>)
        ensures
            match r {
                Ok(v) => Ok::<Seq<T::V>, ParseError>(views(v@)),
                Err(e) => Err(e),
            } == parse_line::<T>(old(self).buffer() + line@, 0),
            final(self).buffer() == if r is Ok {
                Seq::<u8>::empty()
            } else {
                old(self).buffer() + line@
            },
    {
        let mut k: usize = 0;
        while k < line.len()
            invariant
                k <= line@.len(),
                self.s@ == old(self).s@ + line@.take(k as int),
            decreases line@.len() - k,
        {
            self.s.push(line[k]);
            k = k + 1;
        }
        let ghost text = old(self).s@ + line@;
        proof {
            assert(line@.take(line@.len() as int) =~= line@);
        }
        let n = self.s.len();
        let mut res: Vec<T> = Vec::new();
        let mut i: usize = 0;
        proof {
            assert(views(res@) =~= Seq::<T::V>::empty());
            assert(Seq::<T::V>::empty() + parse_line::<T>(text, 0)->Ok_0 =~= parse_line::<T>(
                text,
                0,
            )->Ok_0);
        }
        loop
            invariant_except_break
                i <= n,
                n == text.len(),
                self.s@ == text,
                text == old(self).s@ + line@,
                parse_line::<T>(text, 0) == prepend(views(res@), parse_line::<T>(text, i as int)),
            ensures
                self.s@ == text,
                text == old(self).s@ + line@,
                parse_line::<T>(text, 0) == Ok::<Seq<T::V>, ParseError>(views(res@)),
            decreases n - i,
        {
            let ghost i0 = i as int;
            proof {
                lemma_line_skip_spaces(text, i0);
            }
            while i < n && space_len_at(self.s.as_slice(), i) > 0
                invariant
                    i0 <= i <= n,
                    n == text.len(),
                    self.s@ == text,
                    line_skip_spaces(text, i0) == line_skip_spaces(text, i as int),
                decreases n - i,
            {
                i = i + space_len_at(self.s.as_slice(), i);
            }
            let start = i;
            if start >= n {
                proof {
                    assert(views(res@) + Seq::<T::V>::empty() =~= views(res@));
                }
                break;
            }
            proof {
                lemma_line_skip_word(text, start as int);
            }
            while i < n && space_len_at(self.s.as_slice(), i) == 0
                invariant
                    start <= i <= n,
                    n == text.len(),
                    self.s@ == text,
                    line_skip_word(text, start as int) == line_skip_word(text, i as int),
                decreases n - i,
            {
                i = i + 1;
            }
            let end = i;
            let ghost before = views(res@);
            match T::parse(slice_subrange(self.s.as_slice(), start, end)) {
                Err(e) => {
                    return Err(e);
                },
                Ok(v) => {
                    res.push(v);
                    proof {
                        assert(views(res@) =~= before.push(v@));
                        let rest = parse_line::<T>(text, end as int);
                        if rest is Ok {
                            assert(before + (seq![v@] + rest->Ok_0) =~= before.push(v@)
                                + rest->Ok_0);
                        }
                    }
                },
            }
        }
        self.s = Vec::new();
        Ok(res)
    }
}

/// Unpacking a list of exactly two, three or four items.
pub trait SliceToTuple<U: Copy> {
    /// The items of the list.
    spec fn items(&self) -> Seq<U>;

    /// Both items of a list of two.
    fn tuple_2(&self) -> (r: (U, U))
        requires
            self.items().len() == 2,
        ensures
            r == (self.items()[0], self.items()[1]),
    ;

    /// The items of a list of three.
    fn tuple_3(&self) -> (r: (U, U, U))
        requires
            self.items().len() == 3,
        ensures
            r == (self.items()[0], self.items()[1], self.items()[2]),
    ;

    /// The items of a list of four.
    fn tuple_4(&self) -> (r: (U, U, U, U))
        requires
            self.items().len() == 4,
        ensures
            r == (self.items()[0], self.items()[1], self.items()[2], self.items()[3]),
    ;
}

impl<U: Copy> SliceToTuple<U> for Vec<U> {
    open spec fn items(&self) -> Seq<U> {
        self@
    }

    fn tuple_2(&self) -> (r: (U, U)) {
        (self[0], self[1])
    }

    fn tuple_3(&self) -> (r: (U, U, U)) {
        (self[0], self[1], self[2])
    }

    fn tuple_4(&self) -> (r: (U, U, U, U)) {
        (self[0], self[1], self[2], self[3])
    }
}

impl<U: Copy> SliceToTuple<U> for [U] {
    open spec fn items(&self) -> Seq<U> {
        self@
    }

    fn tuple_2(&self) -> (r: (U, U)) {
        (self[0], self[1])
    }

    fn tuple_3(&self) -> (r: (U, U, U)) {
        (self[0], self[1], self[2])
    }

    fn tuple_4(&self) -> (r: (U, U, U, U)) {
        (self[0], self[1], self[2], self[3])
    }
}

impl<U: Copy, const N: usize> SliceToTuple<U> for [U; N] {
    open spec fn items(&self) -> Seq<U> {
        self@
    }

    fn tuple_2(&self) -> (r: (U, U)) {
        (self[0], self[1])
    }

    fn tuple_3(&self) -> (r: (U, U, U)) {
        (self[0], self[1], self[2])
    }

    fn tuple_4(&self) -> (r: (U, U, U, U)) {
        (self[0], self[1], self[2], self[3])
    }
}

} // verus!
