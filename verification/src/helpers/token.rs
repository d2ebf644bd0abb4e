//! Turning one whitespace-free token into a value.

use vstd::prelude::*;

verus! {

/// Why a token could not be read as the requested type.
#[derive(Clone, Copy, Debug, PartialEq, Eq, Structural)]
pub enum ParseError {
    /// A number was asked for and the token has no characters.
    Empty,
    /// A character that is not a decimal digit stands where a digit is expected.
    InvalidDigit,
    /// The number is too large for the type.
    PosOverflow,
    /// The number is too small for the type.
    NegOverflow,
    /// The token is longer than the reader's buffer.
    TooLong,
}

/// Whether `b` is an ASCII decimal digit.
pub open spec fn is_digit(b: u8) -> bool {
    48 <= b <= 57
}

/// The value reached by reading `digits` from left to right onto `acc`, or
/// the first failure met on the way. Digits are subtracted when `negative`.
pub open spec fn scan_digits(digits: Seq<u8>, acc: int, negative: bool, min: int, max: int)
    -> Result<int, ParseError>
    decreases digits.len(),
{
    if digits.len() == 0 {
        Ok(acc)
    } else if !is_digit(digits[0]) {
        Err(ParseError::InvalidDigit)
    } else {
        let d = digits[0] - 48;
        let next = if negative { acc * 10 - d } else { acc * 10 + d };
        if next > max {
            Err(ParseError::PosOverflow)
        } else if next < min {
            Err(ParseError::NegOverflow)
        } else {
            scan_digits(digits.skip(1), next, negative, min, max)
        }
    }
}

/// The decimal integer that `token` spells for a type holding `min..=max`:
/// an optional `+`, or `-` for a signed type, then digits only.
pub open spec fn parse_int(token: Seq<u8>, min: int, max: int) -> Result<int, ParseError> {
    if token.len() == 0 {
        Err(ParseError::Empty)
    } else if token.len() == 1 && (token[0] == 43 || token[0] == 45) {
        Err(ParseError::InvalidDigit)
    } else if token[0] == 43 {
        scan_digits(token.skip(1), 0, false, min, max)
    } else if token[0] == 45 && min < 0 {
        scan_digits(token.skip(1), 0, true, min, max)
    } else {
        scan_digits(token, 0, false, min, max)
    }
}

/// The plain decimal value of a run of digits.
pub open spec fn decimal_value(digits: Seq<u8>) -> int
    decreases digits.len(),
{
    if digits.len() == 0 {
        0
    } else {
        decimal_value(digits.drop_last()) * 10 + (digits.last() - 48)
    }
}

/// A successful scan read digits only and yields their decimal value, added
/// to or taken from the shifted start value, within the bounds.
pub proof fn lemma_scan_digits_value(
    digits: Seq<u8>,
    acc: int,
    negative: bool,
    min: int,
    max: int,
)
    requires
        scan_digits(digits, acc, negative, min, max) is Ok,
        min <= acc <= max,
    ensures
        forall|i: int| 0 <= i < digits.len() ==> is_digit(#[trigger] digits[i]),
        min <= scan_digits(digits, acc, negative, min, max)->Ok_0 <= max,
        scan_digits(digits, acc, negative, min, max)->Ok_0 == acc * pow10(digits.len()) + (if negative {
            -decimal_value(digits)
        } else {
            decimal_value(digits)
        }),
    decreases digits.len(),
{
    if digits.len() == 0 {
    } else {
        let d = digits[0] - 48;
        let next = if negative { acc * 10 - d } else { acc * 10 + d };
        let rest = digits.skip(1);
        lemma_scan_digits_value(rest, next, negative, min, max);
        lemma_decimal_value_front(digits);
        assert forall|i: int| 0 <= i < digits.len() implies is_digit(#[trigger] digits[i]) by {
            if i > 0 {
                assert(digits[i] == rest[i - 1]);
            }
        }
        let p = pow10(rest.len());
        let tail = decimal_value(rest);
        assert(pow10(digits.len()) == 10 * p);
        assert(decimal_value(digits) == d * p + tail);
        if negative {
            assert((acc * 10 - d) * p - tail == acc * (10 * p) - (d * p + tail))
                by (nonlinear_arith);
        } else {
            assert((acc * 10 + d) * p + tail == acc * (10 * p) + (d * p + tail))
                by (nonlinear_arith);
        }
    }
}

/// Ten to the power `n`.
pub open spec fn pow10(n: nat) -> int
    decreases n,
{
    if n == 0 {
        1
    } else {
        10 * pow10((n - 1) as nat)
    }
}

/// The decimal value of a run of digits, split at its first digit.
pub proof fn lemma_decimal_value_front(digits: Seq<u8>)
    requires
        digits.len() > 0,
    ensures
        decimal_value(digits) == (digits[0] - 48) * pow10((digits.len() - 1) as nat) + decimal_value(
            digits.skip(1),
        ),
    decreases digits.len(),
{
    let d = digits[0] - 48;
    let last = digits.last() - 48;
    if digits.len() == 1 {
        assert(decimal_value(digits.drop_last()) == 0);
        assert(decimal_value(digits.skip(1)) == 0);
        assert(pow10(0) == 1);
    } else {
        let front = digits.drop_last();
        lemma_decimal_value_front(front);
        assert(front.skip(1) =~= digits.skip(1).drop_last());
        assert(front[0] == digits[0]);
        assert(digits.skip(1).last() == digits.last());
        let p = pow10((digits.len() - 2) as nat);
        let mid = decimal_value(front.skip(1));
        assert(pow10((digits.len() - 1) as nat) == 10 * p);
        assert(decimal_value(front) == d * p + mid);
        assert(decimal_value(digits) == decimal_value(front) * 10 + last);
        assert(decimal_value(digits.skip(1)) == mid * 10 + last);
        assert((d * p + mid) * 10 + last == d * (10 * p) + (mid * 10 + last))
            by (nonlinear_arith);
    }
}

/// What [`parse_int`] accepts: an optional sign and then at least one digit,
/// spelling a value within the bounds; and that value is what it yields.
pub proof fn lemma_parse_int_value(token: Seq<u8>, min: int, max: int)
    requires
        min <= 0 <= max,
        parse_int(token, min, max) is Ok,
    ensures
        token.len() > 0,
        min <= parse_int(token, min, max)->Ok_0 <= max,
        ({
            let signed = token[0] == 43 || (token[0] == 45 && min < 0);
            let digits = if signed { token.skip(1) } else { token };
            &&& digits.len() > 0
            &&& forall|i: int| 0 <= i < digits.len() ==> is_digit(#[trigger] digits[i])
            &&& parse_int(token, min, max)->Ok_0 == if token[0] == 45 && min < 0 {
                -decimal_value(digits)
            } else {
                decimal_value(digits)
            }
        }),
{
    let negative = token[0] == 45 && min < 0;
    let signed = token[0] == 43 || negative;
    let digits = if signed { token.skip(1) } else { token };
    if token.len() == 1 && token[0] == 45 && min >= 0 {
        assert(!is_digit(token[0]));
    }
    lemma_scan_digits_value(digits, 0, negative, min, max);
}

/// Reads `token` as a decimal integer within `min..=max`.
pub fn parse_integer(token: &[u8], min: i128, max: i128) -> (r: Result<i128, ParseError>)
    requires
        -0x1_0000_0000_0000_0000 <= min <= 0 <= max <= 0x1_0000_0000_0000_0000,
    ensures
        match r {
            Ok(v) => parse_int(token@, min as int, max as int) == Ok::<int, ParseError>(v as int),
            Err(e) => parse_int(token@, min as int, max as int) == Err::<int, ParseError>(e),
        },
{
    let n = token.len();
    if n == 0 {
        return Err(ParseError::Empty);
    }
    let first = token[0];
    if n == 1 && (first == 43 || first == 45) {
        return Err(ParseError::InvalidDigit);
    }
    let negative = first == 45 && min < 0;
    let mut i: usize = if first == 43 || negative { 1 } else { 0 };
    let mut acc: i128 = 0;
    proof {
        assert(token@.skip(0) =~= token@);
    }
    while i < n
        invariant
            i <= n,
            n == token@.len(),
            min <= acc <= max,
            -0x1_0000_0000_0000_0000 <= min <= 0 <= max <= 0x1_0000_0000_0000_0000,
            parse_int(token@, min as int, max as int) == scan_digits(
                token@.skip(i as int),
                acc as int,
                negative,
                min as int,
                max as int,
            ),
        decreases n - i,
    {
        let b = token[i];
        proof {
            assert(token@.skip(i as int).len() > 0);
            assert(token@.skip(i as int)[0] == b);
            assert(token@.skip(i as int).skip(1) =~= token@.skip(i + 1));
        }
        if b < 48 || b > 57 {
            return Err(ParseError::InvalidDigit);
        }
        let d: i128 = (b - 48) as i128;
        let next: i128 = if negative { acc * 10 - d } else { acc * 10 + d };
        if next > max {
            return Err(ParseError::PosOverflow);
        }
        if next < min {
            return Err(ParseError::NegOverflow);
        }
        acc = next;
        i = i + 1;
    }
    proof {
        assert(token@.skip(n as int).len() == 0);
    }
    Ok(acc)
}

/// A type that can be read from one token.
pub trait Token: Sized + View {
    /// What `token` means as a value of this type.
    spec fn parse_spec(token: Seq<u8>) -> Result<Self::V, ParseError>;

    /// Reads `token` as a value of this type.
    fn parse(token: &[u8]) -> (r: Result<Self, ParseError>)
        ensures
            result_view(r) == Self::parse_spec(token@),
    ;
}

/// The outcome of a read, with the value replaced by its view.
pub open spec fn result_view<T: View>(r: Result<T, ParseError>) -> Result<T::V, ParseError> {
    match r {
        Ok(v) => Ok(v@),
        Err(e) => Err(e),
    }
}

/// An integer outcome brought into another integer type.
pub open spec fn int_result<T>(r: Result<int, ParseError>, cast: spec_fn(int) -> T) -> Result<
    T,
    ParseError,
> {
    match r {
        Ok(v) => Ok(cast(v)),
        Err(e) => Err(e),
    }
}

impl Token for u32 {
    open spec fn parse_spec(token: Seq<u8>) -> Result<u32, ParseError> {
        int_result(parse_int(token, 0, u32::MAX as int), |v: int| v as u32)
    }

    fn parse(token: &[u8]) -> (r: Result<u32, ParseError>) {
        match parse_integer(token, 0, u32::MAX as i128) {
            Ok(v) => Ok(v as u32),
            Err(e) => Err(e),
        }
    }
}

impl Token for i32 {
    open spec fn parse_spec(token: Seq<u8>) -> Result<i32, ParseError> {
        int_result(parse_int(token, i32::MIN as int, i32::MAX as int), |v: int| v as i32)
    }

    fn parse(token: &[u8]) -> (r: Result<i32, ParseError>) {
        match parse_integer(token, i32::MIN as i128, i32::MAX as i128) {
            Ok(v) => Ok(v as i32),
            Err(e) => Err(e),
        }
    }
}

impl Token for u64 {
    open spec fn parse_spec(token: Seq<u8>) -> Result<u64, ParseError> {
        int_result(parse_int(token, 0, u64::MAX as int), |v: int| v as u64)
    }

    fn parse(token: &[u8]) -> (r: Result<u64, ParseError>) {
        match parse_integer(token, 0, u64::MAX as i128) {
            Ok(v) => Ok(v as u64),
            Err(e) => Err(e),
        }
    }
}

impl Token for i64 {
    open spec fn parse_spec(token: Seq<u8>) -> Result<i64, ParseError> {
        int_result(parse_int(token, i64::MIN as int, i64::MAX as int), |v: int| v as i64)
    }

    fn parse(token: &[u8]) -> (r: Result<i64, ParseError>) {
        match parse_integer(token, i64::MIN as i128, i64::MAX as i128) {
            Ok(v) => Ok(v as i64),
            Err(e) => Err(e),
        }
    }
}

impl Token for usize {
    open spec fn parse_spec(token: Seq<u8>) -> Result<usize, ParseError> {
        int_result(parse_int(token, 0, usize::MAX as int), |v: int| v as usize)
    }

    fn parse(token: &[u8]) -> (r: Result<usize, ParseError>) {
        match parse_integer(token, 0, usize::MAX as i128) {
            Ok(v) => Ok(v as usize),
            Err(e) => Err(e),
        }
    }
}

impl Token for u8 {
    open spec fn parse_spec(token: Seq<u8>) -> Result<u8, ParseError> {
        int_result(parse_int(token, u8::MIN as int, u8::MAX as int), |v: int| v as u8)
    }

    fn parse(token: &[u8]) -> (r: Result<u8, ParseError>) {
        match parse_integer(token, u8::MIN as i128, u8::MAX as i128) {
            Ok(v) => Ok(v as u8),
            Err(e) => Err(e),
        }
    }
}

impl Token for u16 {
    open spec fn parse_spec(token: Seq<u8>) -> Result<u16, ParseError> {
        int_result(parse_int(token, u16::MIN as int, u16::MAX as int), |v: int| v as u16)
    }

    fn parse(token: &[u8]) -> (r: Result<u16, ParseError>) {
        match parse_integer(token, u16::MIN as i128, u16::MAX as i128) {
            Ok(v) => Ok(v as u16),
            Err(e) => Err(e),
        }
    }
}

impl Token for i8 {
    open spec fn parse_spec(token: Seq<u8>) -> Result<i8, ParseError> {
        int_result(parse_int(token, i8::MIN as int, i8::MAX as int), |v: int| v as i8)
    }

    fn parse(token: &[u8]) -> (r: Result<i8, ParseError>) {
        match parse_integer(token, i8::MIN as i128, i8::MAX as i128) {
            Ok(v) => Ok(v as i8),
            Err(e) => Err(e),
        }
    }
}

impl Token for i16 {
    open spec fn parse_spec(token: Seq<u8>) -> Result<i16, ParseError> {
        int_result(parse_int(token, i16::MIN as int, i16::MAX as int), |v: int| v as i16)
    }

    fn parse(token: &[u8]) -> (r: Result<i16, ParseError>) {
        match parse_integer(token, i16::MIN as i128, i16::MAX as i128) {
            Ok(v) => Ok(v as i16),
            Err(e) => Err(e),
        }
    }
}

impl Token for isize {
    open spec fn parse_spec(token: Seq<u8>) -> Result<isize, ParseError> {
        int_result(parse_int(token, isize::MIN as int, isize::MAX as int), |v: int| v as isize)
    }

    fn parse(token: &[u8]) -> (r: Result<isize, ParseError>) {
        match parse_integer(token, isize::MIN as i128, isize::MAX as i128) {
            Ok(v) => Ok(v as isize),
            Err(e) => Err(e),
        }
    }
}

/// A name is the token's bytes as they stand; reading one never fails.
impl Token for Vec<u8> {
    open spec fn parse_spec(token: Seq<u8>) -> Result<Seq<u8>, ParseError> {
        Ok(token)
    }

    fn parse(token: &[u8]) -> (r: Result<Vec<u8>, ParseError>) {
        Ok(vstd::slice::slice_to_vec(token))
    }
}

} // verus!
