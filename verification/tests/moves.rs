use minesweeper::input::{is_whitespace, move_or_origin, parse_coordinate, parse_move};

#[test]
fn two_numbers_make_a_move() {
    assert_eq!(parse_move("3 4"), Some((3, 4)));
    assert_eq!(parse_move("0 0"), Some((0, 0)));
    assert_eq!(parse_move("12 7"), Some((12, 7)));
}

#[test]
fn white_space_around_the_move_is_dropped() {
    assert_eq!(parse_move("3 4\n"), Some((3, 4)));
    assert_eq!(parse_move("  3 4 \r\n"), Some((3, 4)));
    assert_eq!(parse_move("\t5 6\u{3000}"), Some((5, 6)));
}

#[test]
fn signs_are_read() {
    assert_eq!(parse_move("-1 7"), Some((-1, 7)));
    assert_eq!(parse_move("+2 -9"), Some((2, -9)));
    assert_eq!(parse_move("-0 +0"), Some((0, 0)));
    assert_eq!(parse_move("007 010"), Some((7, 10)));
}

#[test]
fn any_white_space_parts_the_two_numbers() {
    assert_eq!(parse_move("1  2"), Some((1, 2)));
    assert_eq!(parse_move("1  2\n"), Some((1, 2)));
    assert_eq!(parse_move("1\t2"), Some((1, 2)));
    assert_eq!(parse_move("1 \t  2"), Some((1, 2)));
    assert_eq!(parse_move("\t-3\u{a0}\u{2003}+4\r\n"), Some((-3, 4)));
    assert_eq!(parse_move("7\n8"), Some((7, 8)));
    assert_eq!(parse_move("   10          20   "), Some((10, 20)));
}

#[test]
fn one_token_is_no_move() {
    assert_eq!(parse_move("5"), None);
    assert_eq!(parse_move("5\n"), None);
    assert_eq!(parse_move("  5  "), None);
    assert_eq!(parse_move("12"), None);
    assert_eq!(parse_move("1,2"), None);
}

#[test]
fn no_token_is_no_move() {
    assert_eq!(parse_move(""), None);
    assert_eq!(parse_move("   "), None);
    assert_eq!(parse_move("\n"), None);
    assert_eq!(parse_move(" \t\r\n"), None);
}

#[test]
fn more_than_two_tokens_are_no_move() {
    assert_eq!(parse_move("1 2 3"), None);
    assert_eq!(parse_move("1 2 x"), None);
    assert_eq!(parse_move("1  2  3"), None);
    assert_eq!(parse_move("1\t2\t3\n"), None);
    assert_eq!(parse_move("0 0 0 0"), None);
}

#[test]
fn moves_agree_with_splitting_on_white_space() {
    let lines = [
        "", " ", "1", "1 2", "1  2", " 1 2 ", "1\t2", "1 2 3", "a b", "1 b", "-1 -2", "+1 +2",
        "1\u{3000}2", "1\u{85}2", "1\u{200b}2", "1 2\n", "\n1\n2\n", "99999999999999999999 1",
        "1 2 ", "1-2", "- 1", "1 -", "\u{663} \u{664}", "0x1 2",
    ];
    for line in lines {
        let words: Vec<&str> = line.split_whitespace().collect();
        let expected = if words.len() == 2 {
            match (words[0].parse::<isize>(), words[1].parse::<isize>()) {
                (Ok(row), Ok(col)) => Some((row, col)),
                _ => None,
            }
        } else {
            None
        };
        assert_eq!(parse_move(line), expected, "{:?}", line);
    }
}

#[test]
fn tokens_that_are_no_numbers_are_no_move() {
    assert_eq!(parse_move("a b"), None);
    assert_eq!(parse_move("1 b"), None);
    assert_eq!(parse_move("a 2"), None);
    assert_eq!(parse_move("1.5 2"), None);
    assert_eq!(parse_move("- 2"), None);
    assert_eq!(parse_move("+ 2"), None);
    assert_eq!(parse_move("1 -"), None);
    assert_eq!(parse_move("--1 2"), None);
    assert_eq!(parse_move("1 2x"), None);
    assert_eq!(parse_move("\u{661} 2"), None);
}

#[test]
fn numbers_at_the_limits() {
    let line = format!("{} {}", isize::MAX, isize::MIN);
    assert_eq!(parse_move(&line), Some((isize::MAX, isize::MIN)));
    assert_eq!(parse_move("9223372036854775808 0"), "9223372036854775808".parse::<isize>().ok().map(|n| (n, 0)));
    assert_eq!(parse_move("99999999999999999999999999999999999999999999 1"), None);
    assert_eq!(parse_move("1 -99999999999999999999999999999999999999999999"), None);
    assert_eq!(parse_move("00000000000000000000000000000000000000000000001 2"), Some((1, 2)));
}

#[test]
fn coordinates_agree_with_the_standard_parser() {
    let samples = [
        "", "0", "-", "+", "+-1", "-+1", "12", "-12", "+12", " 1", "1 ", "1a", "a1", "0x10",
        "2147483647", "2147483648", "-2147483648", "-2147483649", "9223372036854775807",
        "9223372036854775808", "-9223372036854775808", "-9223372036854775809", "1_000",
    ];
    for text in samples {
        let chars: Vec<char> = text.chars().collect();
        assert_eq!(parse_coordinate(&chars, 0, chars.len()), text.parse::<isize>().ok(), "{:?}", text);
    }
}

#[test]
fn parse_coordinate_reads_the_given_range_only() {
    let chars: Vec<char> = "ab-42cd".chars().collect();
    assert_eq!(parse_coordinate(&chars, 2, 5), Some(-42));
    assert_eq!(parse_coordinate(&chars, 3, 5), Some(42));
    assert_eq!(parse_coordinate(&chars, 2, 6), None);
    assert_eq!(parse_coordinate(&chars, 3, 3), None);
}

#[test]
fn white_space_is_what_the_standard_library_calls_so() {
    for n in 0u32..0x11_0000 {
        if let Some(c) = char::from_u32(n) {
            assert_eq!(is_whitespace(c), c.is_whitespace(), "U+{:04X}", n);
        }
    }
}

#[test]
fn a_line_that_is_no_move_is_played_at_the_origin() {
    assert_eq!(move_or_origin(parse_move("7")), (0, 0));
    assert_eq!(move_or_origin(parse_move("x y")), (0, 0));
    assert_eq!(move_or_origin(None), (0, 0));
    assert_eq!(move_or_origin(parse_move("2 3")), (2, 3));
    assert_eq!(move_or_origin(Some((-4, 9))), (-4, 9));
}
