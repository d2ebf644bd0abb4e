//! A whitespace-separated token reader over an in-memory byte buffer.

use vstd::prelude::*;
use vstd::slice::slice_subrange;
use crate::helpers::token::{result_view, ParseError, Token};

verus! {

/// The longest token the reader accepts, in bytes.
pub const MAX_TOKEN_LEN: usize = 20;

/// Whether `b`, read as a Latin-1 character, is Unicode white space.
pub open spec fn is_space(b: u8) -> bool {
    (9 <= b <= 13) || b == 32 || b == 0x85 || b == 0xA0
}

/// Decides [`is_space`].
pub fn is_whitespace(b: u8) -> (r: bool)
    ensures
        r == is_space(b),
{
    (9 <= b && b <= 13) || b == 32 || b == 0x85 || b == 0xA0
}

/// The first position at or after `i` that holds no white space.
pub open spec fn skip_spaces(s: Seq<u8>, i: int) -> int
    decreases s.len() - i,
{
    if 0 <= i < s.len() && is_space(s[i]) {
        skip_spaces(s, i + 1)
    } else {
        i
    }
}

/// The first position at or after `i` that holds white space, or the end.
pub open spec fn skip_word(s: Seq<u8>, i: int) -> int
    decreases s.len() - i,
{
    if 0 <= i < s.len() && !is_space(s[i]) {
        skip_word(s, i + 1)
    } else {
        i
    }
}

/// Where the next token begins for a reader standing at `pos`.
pub open spec fn token_start(s: Seq<u8>, pos: int) -> int {
    skip_spaces(s, pos)
}

/// Where the next token ends (exclusive) for a reader standing at `pos`.
pub open spec fn token_end(s: Seq<u8>, pos: int) -> int {
    skip_word(s, skip_spaces(s, pos))
}

/// The next token for a reader standing at `pos`; empty at the end of input.
pub open spec fn token_at(s: Seq<u8>, pos: int) -> Seq<u8> {
    s.subrange(token_start(s, pos), token_end(s, pos))
}

/// Where the reader stands after the next token: behind the one white-space
/// byte that ends it, or at the end of input.
pub open spec fn after_token(s: Seq<u8>, pos: int) -> int {
    let end = token_end(s, pos);
    if end < s.len() {
        end + 1
    } else {
        end
    }
}

/// What reading one `T` yields for a reader standing at `pos`.
pub open spec fn read_spec<T: Token>(s: Seq<u8>, pos: int) -> Result<T::V, ParseError> {
    let token = token_at(s, pos);
    if token.len() > MAX_TOKEN_LEN {
        Err(ParseError::TooLong)
    } else {
        T::parse_spec(token)
    }
}

/// What reading `n` values of type `T` in a row yields for a reader
/// standing at `pos`, and where the reader then stands. Reading stops
/// behind the first token that fails.
pub open spec fn read_many<T: Token>(s: Seq<u8>, pos: int, n: nat) -> (Result<
    Seq<T::V>,
    ParseError,
>, int)
    decreases n,
{
    if n == 0 {
        (Ok(Seq::empty()), pos)
    } else {
        let (front, p) = read_many::<T>(s, pos, (n - 1) as nat);
        match front {
            Err(e) => (Err(e), p),
            Ok(items) => (
                match read_spec::<T>(s, p) {
                    Ok(v) => Ok(items.push(v)),
                    Err(e) => Err(e),
                },
                after_token(s, p),
            ),
        }
    }
}

/// The views of the items of `s`, in order.
pub open spec fn views<T: View>(s: Seq<T>) -> Seq<T::V> {
    s.map_values(|x: T| x@)
}

/// The scanning positions stay within the input.
pub proof fn lemma_token_bounds(s: Seq<u8>, pos: int)
    requires
        0 <= pos <= s.len(),
    ensures
        pos <= token_start(s, pos) <= token_end(s, pos) <= after_token(s, pos) <= s.len(),
        forall|i: int| pos <= i < token_start(s, pos) ==> is_space(#[trigger] s[i]),
        forall|i: int| token_start(s, pos) <= i < token_end(s, pos) ==> !is_space(#[trigger] s[i]),
        token_end(s, pos) < s.len() ==> is_space(s[token_end(s, pos)]),
{
    lemma_skip_spaces(s, pos);
    lemma_skip_word(s, skip_spaces(s, pos));
}

proof fn lemma_skip_spaces(s: Seq<u8>, i: int)
    requires
        0 <= i <= s.len(),
    ensures
        i <= skip_spaces(s, i) <= s.len(),
        forall|k: int| i <= k < skip_spaces(s, i) ==> is_space(#[trigger] s[k]),
        skip_spaces(s, i) < s.len() ==> !is_space(s[skip_spaces(s, i)]),
    decreases s.len() - i,
{
    if i < s.len() && is_space(s[i]) {
        lemma_skip_spaces(s, i + 1);
    }
}

proof fn lemma_skip_word(s: Seq<u8>, i: int)
    requires
        0 <= i <= s.len(),
    ensures
        i <= skip_word(s, i) <= s.len(),
        forall|k: int| i <= k < skip_word(s, i) ==> !is_space(#[trigger] s[k]),
        skip_word(s, i) < s.len() ==> is_space(s[skip_word(s, i)]),
    decreases s.len() - i,
{
    if i < s.len() && !is_space(s[i]) {
        lemma_skip_word(s, i + 1);
    }
}

/// A run of reads that succeeds yields as many values as were asked for.
pub proof fn lemma_read_many_len<T: Token>(s: Seq<u8>, pos: int, n: nat)
    ensures
        read_many::<T>(s, pos, n).0 matches Ok(items) ==> items.len() == n,
    decreases n,
{
    if n > 0 {
        lemma_read_many_len::<T>(s, pos, (n - 1) as nat);
    }
}

/// Once a run of reads has failed, asking for more values changes nothing.
pub proof fn lemma_read_many_stops<T: Token>(s: Seq<u8>, pos: int, k: nat, n: nat)
    requires
        k <= n,
        read_many::<T>(s, pos, k).0 is Err,
    ensures
        read_many::<T>(s, pos, n) == read_many::<T>(s, pos, k),
    decreases n,
{
    if n > k {
        lemma_read_many_stops::<T>(s, pos, k, (n - 1) as nat);
    }
}

/// The value that a reader standing at `pos` reads as a `T`, and where it
/// then stands; `None` where the next token is no `T`.
pub open spec fn value_at<T: Token>(s: Seq<u8>, pos: int) -> Option<(T::V, int)> {
    match read_spec::<T>(s, pos) {
        Ok(v) => Some((v, after_token(s, pos))),
        Err(_) => None,
    }
}

/// What reading `n` records in a row yields, each read by `one`, and where
/// the reader then stands; `None` where one of them is refused.
pub open spec fn repeat<V>(
    s: Seq<u8>,
    pos: int,
    n: nat,
    one: spec_fn(Seq<u8>, int) -> Option<(V, int)>,
) -> Option<(Seq<V>, int)>
    decreases n,
{
    if n == 0 {
        Some((Seq::empty(), pos))
    } else {
        match repeat(s, pos, (n - 1) as nat, one) {
            None => None,
            Some((items, p)) => match one(s, p) {
                None => None,
                Some((v, q)) => Some((items.push(v), q)),
            },
        }
    }
}

/// Once a record is refused, so is every longer run.
pub proof fn lemma_repeat_stops<V>(
    s: Seq<u8>,
    pos: int,
    k: nat,
    n: nat,
    one: spec_fn(Seq<u8>, int) -> Option<(V, int)>,
)
    requires
        k <= n,
        repeat(s, pos, k, one) is None,
    ensures
        repeat(s, pos, n, one) is None,
    decreases n,
{
    if n > k {
        lemma_repeat_stops(s, pos, k, (n - 1) as nat, one);
    }
}

/// A reader of whitespace-separated tokens over a byte buffer.
pub struct Red {
    bytes: Vec<u8>,
    pos: usize,
}

impl Red {
    #[verifier::type_invariant]
    spec fn wf(self) -> bool {
        self.pos <= self.bytes@.len()
    }

    /// The whole input.
    pub closed spec fn bytes(&self) -> Seq<u8> {
        self.bytes@
    }

    /// How many bytes of the input have been consumed.
    pub closed spec fn pos(&self) -> int {
        self.pos as int
    }

    /// A reader at the start of `bytes`.
    pub fn new(bytes: Vec<u8>) -> (r: Red)
        ensures
            r.bytes() == bytes@,
            r.pos() == 0,
    {
        Red { bytes, pos: 0 }
    }

    /// How many bytes of the input have been consumed; never more than
    /// there are.
    pub fn position(&self) -> (r: usize)
        ensures
            r == self.pos(),
            r <= self.bytes().len(),
    {
        proof {
            use_type_invariant(self);
        }
        self.pos
    }

    /// Consumes the next token and reads it as a `T`.
    pub fn try_read<T: Token>(&mut self) -> (r: Result<T, ParseError>)
        ensures
            final(self).bytes() == old(self).bytes(),
            final(self).pos() == after_token(old(self).bytes(), old(self).pos()),
            result_view(r) == read_spec::<T>(old(self).bytes(), old(self).pos()),
    {
        proof {
            use_type_invariant(&*self);
        }
        let ghost s = self.bytes@;
        let ghost p0 = self.pos as int;
        let n = self.bytes.len();
        let mut i = self.pos;
        while i < n && is_whitespace(self.bytes[i])
            invariant
                i <= n,
                n == s.len(),
                self.bytes@ == s,
                skip_spaces(s, p0) == skip_spaces(s, i as int),
            decreases n - i,
        {
            i = i + 1;
        }
        let start = i;
        while i < n && !is_whitespace(self.bytes[i])
            invariant
                start <= i <= n,
                n == s.len(),
                self.bytes@ == s,
                skip_word(s, start as int) == skip_word(s, i as int),
            decreases n - i,
        {
            i = i + 1;
        }
        let end = i;
        self.pos = if end < n { end + 1 } else { end };
        if end - start > MAX_TOKEN_LEN {
            Err(ParseError::TooLong)
        } else {
            T::parse(slice_subrange(self.bytes.as_slice(), start, end))
        }
    }

    /// Consumes the next token and reads it as a `T`, without saying why
    /// where it cannot.
    pub fn value<T: Token>(&mut self) -> (r: Option<T>)
        ensures
            final(self).bytes() == old(self).bytes(),
            final(self).pos() == after_token(old(self).bytes(), old(self).pos()),
            match r {
                Some(v) => value_at::<T>(old(self).bytes(), old(self).pos()) == Some(
                    (v@, final(self).pos()),
                ),
                None => value_at::<T>(old(self).bytes(), old(self).pos()) is None,
            },
    {
        match self.try_read::<T>() {
            Ok(v) => Some(v),
            Err(_) => None,
        }
    }

    /// Consumes the next token and returns it as a `T`.
    pub fn read<T: Token>(&mut self) -> (r: T)
        requires
            read_spec::<T>(old(self).bytes(), old(self).pos()) is Ok,
        ensures
            final(self).bytes() == old(self).bytes(),
            final(self).pos() == after_token(old(self).bytes(), old(self).pos()),
            Ok::<T::V, ParseError>(r@) == read_spec::<T>(old(self).bytes(), old(self).pos()),
    {
        match self.try_read::<T>() {
            Ok(v) => v,
            Err(_) => vstd::pervasive::unreached(),
        }
    }

    /// Consumes `n` tokens and reads each as a `T`, stopping behind the
    /// first one that fails.
    pub fn try_read_vec<T: Token>(&mut self, n: usize) -> (r: Result<Vec<T>, ParseError>)
        ensures
            final(self).bytes() == old(self).bytes(),
            final(self).pos() == read_many::<T>(old(self).bytes(), old(self).pos(), n as nat).1,
            match r {
                Ok(v) => Ok::<Seq<T::V>, ParseError>(views(v@)),
                Err(e) => Err(e),
            } == read_many::<T>(old(self).bytes(), old(self).pos(), n as nat).0,
    {
        let ghost s = self.bytes();
        let ghost p0 = self.pos();
        let mut res: Vec<T> = Vec::new();
        let mut i: usize = 0;
        proof {
            assert(views(res@) =~= Seq::<T::V>::empty());
        }
        while i < n
            invariant
                i <= n,
                s == old(self).bytes(),
                p0 == old(self).pos(),
                self.bytes() == s,
                read_many::<T>(s, p0, i as nat) == (
                    Ok::<Seq<T::V>, ParseError>(views(res@)),
                    self.pos(),
                ),
            decreases n - i,
        {
            let ghost before = views(res@);
            match self.try_read::<T>() {
                Ok(v) => {
                    res.push(v);
                    proof {
                        assert(views(res@) =~= before.push(v@));
                    }
                },
                Err(e) => {
                    proof {
                        lemma_read_many_stops::<T>(s, p0, (i + 1) as nat, n as nat);
                    }
                    return Err(e);
                },
            }
            i = i + 1;
        }
        Ok(res)
    }

    /// Consumes `n` tokens and returns them as values of type `T`.
    pub fn read_vec<T: Token>(&mut self, n: usize) -> (r: Vec<T>)
        requires
            read_many::<T>(old(self).bytes(), old(self).pos(), n as nat).0 is Ok,
        ensures
            final(self).bytes() == old(self).bytes(),
            final(self).pos() == read_many::<T>(old(self).bytes(), old(self).pos(), n as nat).1,
            Ok::<Seq<T::V>, ParseError>(views(r@)) == read_many::<T>(
                old(self).bytes(),
                old(self).pos(),
                n as nat,
            ).0,
    {
        match self.try_read_vec::<T>(n) {
            Ok(v) => v,
            Err(_) => vstd::pervasive::unreached(),
        }
    }
}

} // verus!
