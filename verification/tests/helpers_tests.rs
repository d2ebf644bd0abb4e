use hashcode::helpers::input_reader::{InputReader, SliceToTuple};
use hashcode::helpers::names::{bytes_eq, NameTable};
use hashcode::helpers::red::{is_whitespace, Red, MAX_TOKEN_LEN};
use hashcode::helpers::sort::{sort_pairs, sort_u32};
use hashcode::helpers::token::{parse_integer, ParseError, Token};
use std::num::IntErrorKind;

fn kind_of(e: &std::num::ParseIntError) -> ParseError {
    match e.kind() {
        IntErrorKind::Empty => ParseError::Empty,
        IntErrorKind::InvalidDigit => ParseError::InvalidDigit,
        IntErrorKind::PosOverflow => ParseError::PosOverflow,
        IntErrorKind::NegOverflow => ParseError::NegOverflow,
        _ => unreachable!(),
    }
}

const TOKENS: [&str; 30] = [
    "", "0", "7", "12", "+5", "-5", "-0", "+0", "+", "-", "--1", "+-1", "4294967295", "4294967296",
    "2147483647", "2147483648", "-2147483648", "-2147483649", "18446744073709551615",
    "18446744073709551616", "9223372036854775807", "9223372036854775808", "-9223372036854775808",
    "-9223372036854775809", "99999999999999999999x", "1x", "x1", "00012", "1_000", "12 ",
];

#[test]
fn whitespace_is_that_of_the_latin_1_character() {
    for b in 0u8..=255 {
        assert_eq!(is_whitespace(b), (b as char).is_whitespace(), "byte {}", b);
    }
}

#[test]
fn u32_tokens_parse_as_in_std() {
    for t in TOKENS.iter() {
        let expected = t.parse::<u32>().map_err(|e| kind_of(&e));
        assert_eq!(u32::parse(t.as_bytes()), expected, "token {:?}", t);
    }
}

#[test]
fn i32_tokens_parse_as_in_std() {
    for t in TOKENS.iter() {
        let expected = t.parse::<i32>().map_err(|e| kind_of(&e));
        assert_eq!(i32::parse(t.as_bytes()), expected, "token {:?}", t);
    }
}

#[test]
fn u64_tokens_parse_as_in_std() {
    for t in TOKENS.iter() {
        let expected = t.parse::<u64>().map_err(|e| kind_of(&e));
        assert_eq!(u64::parse(t.as_bytes()), expected, "token {:?}", t);
    }
}

#[test]
fn i64_tokens_parse_as_in_std() {
    for t in TOKENS.iter() {
        let expected = t.parse::<i64>().map_err(|e| kind_of(&e));
        assert_eq!(i64::parse(t.as_bytes()), expected, "token {:?}", t);
    }
}

#[test]
fn usize_tokens_parse_as_in_std() {
    for t in TOKENS.iter() {
        let expected = t.parse::<usize>().map_err(|e| kind_of(&e));
        assert_eq!(usize::parse(t.as_bytes()), expected, "token {:?}", t);
    }
}

#[test]
fn small_and_pointer_sized_tokens_parse_as_in_std() {
    for t in TOKENS.iter().copied().chain(["255", "256", "-128", "-129", "127", "128", "65535", "65536", "-32768", "-32769"]) {
        assert_eq!(u8::parse(t.as_bytes()), t.parse::<u8>().map_err(|e| kind_of(&e)), "{:?}", t);
        assert_eq!(u16::parse(t.as_bytes()), t.parse::<u16>().map_err(|e| kind_of(&e)), "{:?}", t);
        assert_eq!(i8::parse(t.as_bytes()), t.parse::<i8>().map_err(|e| kind_of(&e)), "{:?}", t);
        assert_eq!(i16::parse(t.as_bytes()), t.parse::<i16>().map_err(|e| kind_of(&e)), "{:?}", t);
        assert_eq!(isize::parse(t.as_bytes()), t.parse::<isize>().map_err(|e| kind_of(&e)), "{:?}", t);
    }
}

#[test]
fn non_ascii_bytes_are_no_digits() {
    assert_eq!(u32::parse("1é".as_bytes()), Err(ParseError::InvalidDigit));
    assert_eq!(i32::parse(&[0xff]), Err(ParseError::InvalidDigit));
}

#[test]
fn parse_integer_respects_its_bounds() {
    assert_eq!(parse_integer(b"100", -5, 100), Ok(100));
    assert_eq!(parse_integer(b"101", -5, 100), Err(ParseError::PosOverflow));
    assert_eq!(parse_integer(b"-5", -5, 100), Ok(-5));
    assert_eq!(parse_integer(b"-6", -5, 100), Err(ParseError::NegOverflow));
    assert_eq!(parse_integer(b"-1", 0, 100), Err(ParseError::InvalidDigit));
}

#[test]
fn a_name_is_the_token_itself() {
    assert_eq!(<Vec<u8> as Token>::parse(b"rue-de-rome"), Ok(b"rue-de-rome".to_vec()));
    assert_eq!(<Vec<u8> as Token>::parse(b""), Ok(Vec::new()));
}

#[test]
fn red_reads_tokens_in_order() {
    let mut red = Red::new(b"  12 -7\n\tabc 4294967295".to_vec());
    assert_eq!(red.read::<u32>(), 12);
    assert_eq!(red.read::<i32>(), -7);
    assert_eq!(red.read::<Vec<u8>>(), b"abc".to_vec());
    assert_eq!(red.read::<usize>(), 4294967295);
}

#[test]
fn red_stands_behind_the_white_space_that_ends_a_token() {
    let mut red = Red::new(b"a  b".to_vec());
    assert_eq!(red.position(), 0);
    assert_eq!(red.try_read::<Vec<u8>>(), Ok(b"a".to_vec()));
    assert_eq!(red.position(), 2);
    assert_eq!(red.try_read::<Vec<u8>>(), Ok(b"b".to_vec()));
    assert_eq!(red.position(), 4);
}

#[test]
fn red_at_the_end_reads_the_empty_token() {
    let mut red = Red::new(b"5 \n".to_vec());
    assert_eq!(red.try_read::<u32>(), Ok(5));
    assert_eq!(red.try_read::<u32>(), Err(ParseError::Empty));
    assert_eq!(red.try_read::<Vec<u8>>(), Ok(Vec::new()));
    assert_eq!(red.value::<i32>(), None);
    assert_eq!(red.position(), 3);
}

#[test]
fn red_refuses_a_token_longer_than_its_buffer() {
    assert_eq!(MAX_TOKEN_LEN, 20);
    let mut red = Red::new(b"00000000000000000001 000000000000000000001 7".to_vec());
    assert_eq!(red.try_read::<u32>(), Ok(1));
    assert_eq!(red.try_read::<u32>(), Err(ParseError::TooLong));
    assert_eq!(red.try_read::<u32>(), Ok(7));
}

#[test]
fn red_splits_at_latin_1_white_space() {
    let mut red = Red::new(vec![b'1', 0xA0, b'2', 0x85, b'3', 0x0B, b'4']);
    assert_eq!(red.read_vec::<u32>(4), vec![1, 2, 3, 4]);
}

#[test]
fn red_reads_a_list() {
    let mut red = Red::new(b"3 1 4 1 5".to_vec());
    assert_eq!(red.read_vec::<u32>(3), vec![3, 1, 4]);
    assert_eq!(red.read::<u32>(), 1);
    assert_eq!(red.read_vec::<i64>(0), Vec::<i64>::new());
}

#[test]
fn red_stops_a_list_behind_the_token_that_fails() {
    let mut red = Red::new(b"3 x 4 5".to_vec());
    assert_eq!(red.try_read_vec::<u32>(4), Err(ParseError::InvalidDigit));
    assert_eq!(red.try_read::<u32>(), Ok(4));
}

#[test]
fn a_line_of_numbers_parses_as_by_split_whitespace() {
    let lines = [
        "1 2 3\n",
        "  10\t-20  +30 \r\n",
        "",
        "\n",
        "1\u{00A0}2\u{2003}3\u{3000}4\u{0085}5\u{1680}6\u{2028}7\u{205F}8\u{202F}9",
        "5 x 7",
        "2147483648",
        "1é2",
        "1\u{200B}2",
    ];
    for line in lines.iter() {
        let expected: Result<Vec<i32>, ParseError> = line
            .split_whitespace()
            .map(|t| t.parse::<i32>().map_err(|e| kind_of(&e)))
            .collect();
        let mut reader = InputReader::new();
        assert_eq!(reader.ints_from_line::<i32>(line.as_bytes()), expected, "line {:?}", line);
    }
}

#[test]
fn a_line_that_failed_is_read_again_with_the_next() {
    let mut reader = InputReader::new();
    assert_eq!(reader.ints_from_line::<u32>(b"1 -2\n"), Err(ParseError::InvalidDigit));
    assert_eq!(reader.ints_from_line::<i32>(b"3\n"), Ok(vec![1, -2, 3]));
    assert_eq!(reader.ints_from_line::<i32>(b"4\n"), Ok(vec![4]));
}

#[test]
fn a_line_splits_at_every_white_space_character_of_unicode() {
    for c in '\u{0}'..='\u{ffff}' {
        let text = format!("1{}2", c);
        let expected: Result<Vec<u32>, ParseError> = text
            .split_whitespace()
            .map(|t| t.parse::<u32>().map_err(|e| kind_of(&e)))
            .collect();
        let mut reader = InputReader::new();
        assert_eq!(reader.ints_from_line::<u32>(text.as_bytes()), expected, "char {:?}", c);
    }
}

#[test]
fn the_default_reader_has_nothing_buffered() {
    let mut reader = InputReader::default();
    assert_eq!(reader.ints_from_line::<u8>(b"7 8"), Ok(vec![7, 8]));
}

#[test]
fn lists_unpack_into_tuples() {
    assert_eq!(vec![1, 2].tuple_2(), (1, 2));
    assert_eq!(vec![1, 2, 3].tuple_3(), (1, 2, 3));
    assert_eq!(vec!['a', 'b', 'c', 'd'].tuple_4(), ('a', 'b', 'c', 'd'));
    let slice: &[u8] = &[7, 8];
    assert_eq!(slice.tuple_2(), (7, 8));
    assert_eq!([1u8, 2, 3].tuple_3(), (1, 2, 3));
}

#[test]
fn byte_strings_compare_by_content() {
    assert!(bytes_eq(b"abc", b"abc"));
    assert!(!bytes_eq(b"abc", b"abd"));
    assert!(!bytes_eq(b"abc", b"ab"));
    assert!(bytes_eq(b"", b""));
}

#[test]
fn a_name_is_found_under_its_latest_number() {
    let mut table = NameTable::new();
    assert_eq!(table.len(), 0);
    assert_eq!(table.find(b"a"), None);
    table.push(b"a".to_vec());
    table.push(b"b".to_vec());
    table.push(b"a".to_vec());
    assert_eq!(table.len(), 3);
    assert_eq!(table.find(b"a"), Some(2));
    assert_eq!(table.find(b"b"), Some(1));
    assert_eq!(table.find(b"c"), None);
    assert_eq!(table.find(b""), None);
}

#[test]
fn interning_numbers_names_by_first_occurrence() {
    let mut table = NameTable::new();
    assert_eq!(table.intern(b"cat".to_vec()), 0);
    assert_eq!(table.intern(b"beach".to_vec()), 1);
    assert_eq!(table.intern(b"cat".to_vec()), 0);
    assert_eq!(table.intern(b"".to_vec()), 2);
    assert_eq!(table.len(), 3);
}

#[test]
fn many_names_are_all_found() {
    let mut table = NameTable::new();
    for i in 0..2000u32 {
        assert_eq!(table.intern(format!("tag{}", i).into_bytes()), i as usize);
    }
    for i in 0..2000u32 {
        assert_eq!(table.find(format!("tag{}", i).as_bytes()), Some(i as usize));
    }
}

#[test]
fn numbers_are_sorted_in_ascending_order() {
    let mut v = vec![5, 3, 9, 3, 0, u32::MAX];
    sort_u32(&mut v);
    assert_eq!(v, vec![0, 3, 3, 5, 9, u32::MAX]);
}

#[test]
fn pairs_are_sorted_by_first_then_second() {
    let mut v = vec![(2, 1), (1, 9), (2, 0), (1, 3), (0, u64::MAX)];
    sort_pairs(&mut v);
    assert_eq!(v, vec![(0, u64::MAX), (1, 3), (1, 9), (2, 0), (2, 1)]);
}
