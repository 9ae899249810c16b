//! Reading a move from a line of text: two whole numbers, row and column,
//! with white space between them.

use vstd::prelude::*;
use vstd::std_specs::iter::IteratorSpec;

verus! {

broadcast use {vstd::string::axiom_spec_iter, vstd::string::next_postcondition};

/// The character is white space, as Unicode defines it.
pub open spec fn is_space(c: char) -> bool {
    let n = c as u32;
    (0x09 <= n <= 0x0D) || n == 0x20 || n == 0x85 || n == 0xA0 || n == 0x1680 || (0x2000 <= n
        <= 0x200A) || n == 0x2028 || n == 0x2029 || n == 0x202F || n == 0x205F || n == 0x3000
}

/// The character is one of `0` to `9`.
pub open spec fn is_digit(c: char) -> bool {
    '0' <= c <= '9'
}

/// The length of the token that the text begins with: the number of its
/// characters before the first white space.
pub open spec fn token_len(s: Seq<char>) -> nat
    decreases s.len(),
{
    if s.len() == 0 || is_space(s.first()) {
        0
    } else {
        1 + token_len(s.drop_first())
    }
}

/// The tokens of a text, in order: its longest runs of characters that are
/// no white space. White space of any kind and length parts two tokens, and
/// white space before the first or after the last makes no token.
pub open spec fn tokens(s: Seq<char>) -> Seq<Seq<char>>
    decreases s.len(),
    via tokens_terminates
{
    if s.len() == 0 {
        Seq::empty()
    } else if is_space(s.first()) {
        tokens(s.drop_first())
    } else {
        seq![s.take(token_len(s) as int)] + tokens(s.skip(token_len(s) as int))
    }
}

/// A token is no longer than its text and, where the text begins with a
/// character that is no white space, not empty: what follows it is shorter.
#[via_fn]
proof fn tokens_terminates(s: Seq<char>) {
    lemma_token_len_bounds(s);
}

/// Every character of the text is a digit.
pub open spec fn all_digits(s: Seq<char>) -> bool {
    forall|k: int| 0 <= k < s.len() ==> is_digit(#[trigger] s[k])
}

/// The number that a text of digits writes in base ten.
pub open spec fn digits_value(s: Seq<char>) -> nat
    decreases s.len(),
{
    if s.len() == 0 {
        0
    } else {
        digits_value(s.drop_last()) * 10 + (s.last() as u32 - '0' as u32) as nat
    }
}

/// The whole number that the text writes: one digit or more, after a `+` or
/// a `-` or nothing.
pub open spec fn number_of(s: Seq<char>) -> Option<int> {
    if s.len() > 0 && (s[0] == '-' || s[0] == '+') {
        let digits = s.drop_first();
        if digits.len() > 0 && all_digits(digits) {
            Some(
                if s[0] == '-' {
                    -(digits_value(digits) as int)
                } else {
                    digits_value(digits) as int
                },
            )
        } else {
            None
        }
    } else if s.len() > 0 && all_digits(s) {
        Some(digits_value(s) as int)
    } else {
        None
    }
}

/// The coordinate that the text writes: a whole number that an `isize` holds.
pub open spec fn coordinate_of(s: Seq<char>) -> Option<isize> {
    match number_of(s) {
        Some(n) => if isize::MIN <= n <= isize::MAX {
            Some(n as isize)
        } else {
            None
        },
        None => None,
    }
}

/// The move that a line writes: the line has two tokens, each writes a
/// coordinate, and the move is the row that the first writes and the column
/// that the second writes. Any other line writes none.
pub open spec fn move_of(line: Seq<char>) -> Option<(isize, isize)> {
    let words = tokens(line);
    if words.len() == 2 {
        match (coordinate_of(words[0]), coordinate_of(words[1])) {
            (Some(row), Some(col)) => Some((row, col)),
            _ => None,
        }
    } else {
        None
    }
}

/// The move that is played for a line: the one it writes, or row 0, column 0
/// where it writes none.
pub open spec fn move_played(parsed: Option<(isize, isize)>) -> (isize, isize) {
    match parsed {
        Some(m) => m,
        None => (0, 0),
    }
}

/// A text of digits writes no smaller a number than any of its beginnings.
pub proof fn lemma_digits_value_grows(s: Seq<char>, k: int)
    requires
        0 <= k <= s.len(),
        all_digits(s),
    ensures
        digits_value(s.take(k)) <= digits_value(s),
    decreases s.len(),
{
    if k == s.len() {
        assert(s.take(k) =~= s);
    } else {
        assert(s.drop_last().take(k) =~= s.take(k));
        lemma_digits_value_grows(s.drop_last(), k);
    }
}

/// A token is no longer than its text, and holds a character exactly where
/// the text begins with one that is no white space.
pub proof fn lemma_token_len_bounds(s: Seq<char>)
    ensures
        token_len(s) <= s.len(),
        token_len(s) > 0 <==> s.len() > 0 && !is_space(s.first()),
    decreases s.len(),
{
    if s.len() > 0 && !is_space(s.first()) {
        lemma_token_len_bounds(s.drop_first());
    }
}

/// The token that a text begins with ends where its first white space
/// stands, or where the text ends.
pub proof fn lemma_token_len_is(s: Seq<char>, n: int)
    requires
        0 <= n <= s.len(),
        forall|m: int| 0 <= m < n ==> !is_space(#[trigger] s[m]),
        n < s.len() ==> is_space(s[n]),
    ensures
        token_len(s) == n,
    decreases n,
{
    if n > 0 {
        assert(!is_space(s[0]));
        assert forall|m: int| 0 <= m < n - 1 implies !is_space(#[trigger] s.drop_first()[m]) by {
            assert(!is_space(s[m + 1]));
        }
        lemma_token_len_is(s.drop_first(), n - 1);
    }
}

/// A text of white space alone has no token.
pub proof fn lemma_tokens_none(s: Seq<char>)
    requires
        forall|m: int| 0 <= m < s.len() ==> is_space(#[trigger] s[m]),
    ensures
        tokens(s) == Seq::<Seq<char>>::empty(),
    decreases s.len(),
{
    if s.len() > 0 {
        assert(is_space(s[0]));
        assert forall|m: int| 0 <= m < s.drop_first().len() implies is_space(
            #[trigger] s.drop_first()[m],
        ) by {
            assert(is_space(s[m + 1]));
        }
        lemma_tokens_none(s.drop_first());
    }
}

/// The first token of a text is its first run of characters that are no
/// white space, and its other tokens are those of the text after that run.
pub proof fn lemma_tokens_first(s: Seq<char>, a: int, b: int)
    requires
        0 <= a < b <= s.len(),
        forall|m: int| 0 <= m < a ==> is_space(#[trigger] s[m]),
        forall|m: int| a <= m < b ==> !is_space(#[trigger] s[m]),
        b < s.len() ==> is_space(s[b]),
    ensures
        tokens(s) == seq![s.subrange(a, b)] + tokens(s.skip(b)),
    decreases a,
{
    if a == 0 {
        lemma_token_len_is(s, b);
        assert(!is_space(s[0]));
        assert(s.take(b) =~= s.subrange(0, b));
    } else {
        let rest = s.drop_first();
        assert(is_space(s[0]));
        assert forall|m: int| 0 <= m < a - 1 implies is_space(#[trigger] rest[m]) by {
            assert(is_space(s[m + 1]));
        }
        assert forall|m: int| a - 1 <= m < b - 1 implies !is_space(#[trigger] rest[m]) by {
            assert(!is_space(s[m + 1]));
        }
        lemma_tokens_first(rest, a - 1, b - 1);
        assert(rest.subrange(a - 1, b - 1) =~= s.subrange(a, b));
        assert(rest.skip(b - 1) =~= s.skip(b));
    }
}

/// A text that holds a character that is no white space has a token.
pub proof fn lemma_tokens_some(s: Seq<char>, a: int)
    requires
        0 <= a < s.len(),
        forall|m: int| 0 <= m < a ==> is_space(#[trigger] s[m]),
        !is_space(s[a]),
    ensures
        tokens(s).len() > 0,
    decreases a,
{
    if a > 0 {
        assert(is_space(s[0]));
        assert forall|m: int| 0 <= m < a - 1 implies is_space(#[trigger] s.drop_first()[m]) by {
            assert(is_space(s[m + 1]));
        }
        lemma_tokens_some(s.drop_first(), a - 1);
    } else {
        assert(!is_space(s[0]));
    }
}

/// Whether the character is white space, as `char::is_whitespace` has it.
pub fn is_whitespace(c: char) -> (b: bool)
    ensures
        b == is_space(c),
{
    let n: u32 = c as u32;
    (0x09 <= n && n <= 0x0D) || n == 0x20 || n == 0x85 || n == 0xA0 || n == 0x1680 || (0x2000 <= n
        && n <= 0x200A) || n == 0x2028 || n == 0x2029 || n == 0x202F || n == 0x205F || n == 0x3000
}

/// The characters of a line.
fn chars_of(line: &str) -> (chars: Vec<char>)
    ensures
        chars@ == line@,
{
    let mut rest = line.chars();
    let mut chars: Vec<char> = Vec::new();
    loop
        invariant
            chars@ + rest.remaining() == line@,
            rest.decrease() is Some,
        ensures
            chars@ == line@,
        decreases rest.decrease()->0,
    {
        match rest.next() {
            Some(c) => {
                chars.push(c);
            },
            None => {
                break ;
            },
        }
    }
    chars
}

/// Reads the coordinate that the characters from `from` up to `to` write, if
/// they write one.
pub fn parse_coordinate(chars: &Vec<char>, from: usize, to: usize) -> (res: Option<isize>)
    requires
        from <= to <= chars.len(),
    ensures
        res == coordinate_of(chars@.subrange(from as int, to as int)),
{
    let ghost text = chars@.subrange(from as int, to as int);
    if from >= to {
        return None;
    }
    let negative: bool = chars[from] == '-';
    let signed: bool = negative || chars[from] == '+';
    let start: usize = if signed {
        from + 1
    } else {
        from
    };
    if start >= to {
        return None;
    }
    let ghost digits = chars@.subrange(start as int, to as int);
    let limit: i128 = if negative {
        -(isize::MIN as i128)
    } else {
        isize::MAX as i128
    };
    let mut value: i128 = 0;
    let mut k: usize = start;
    while k < to
        invariant
            from <= start <= k <= to <= chars.len(),
            start < to,
            text == chars@.subrange(from as int, to as int),
            digits == chars@.subrange(start as int, to as int),
            negative == (text[0] == '-'),
            signed == (text[0] == '-' || text[0] == '+'),
            digits == (if signed {
                text.drop_first()
            } else {
                text
            }),
            limit == (if negative {
                -(isize::MIN as int)
            } else {
                isize::MAX as int
            }),
            all_digits(digits.take(k - start)),
            value == digits_value(digits.take(k - start)),
            0 <= value <= limit,
            0 <= limit <= 0x8000_0000_0000_0000,
        decreases to - k,
    {
        let c: char = chars[k];
        proof {
            assert(digits[k - start] == c);
            assert(digits.take(k - start + 1).drop_last() =~= digits.take(k - start));
        }
        if !('0' <= c && c <= '9') {
            return None;
        }
        value = value * 10 + (c as u32 - '0' as u32) as i128;
        proof {
            assert forall|m: int| 0 <= m < k - start + 1 implies is_digit(
                #[trigger] digits.take(k - start + 1)[m],
            ) by {}
        }
        if value > limit {
            proof {
                if all_digits(digits) {
                    lemma_digits_value_grows(digits, k - start + 1);
                }
            }
            return None;
        }
        k += 1;
    }
    proof {
        assert(digits.take(k - start) =~= digits);
    }
    if negative {
        Some((-value) as isize)
    } else {
        Some(value as isize)
    }
}

/// The first position from `from` on that holds no white space, or the
/// length of the text where only white space follows.
fn skip_spaces(chars: &Vec<char>, from: usize) -> (to: usize)
    requires
        from <= chars.len(),
    ensures
        from <= to <= chars.len(),
        forall|m: int| from <= m < to ==> is_space(#[trigger] chars@[m]),
        to < chars.len() ==> !is_space(chars@[to as int]),
{
    let mut to: usize = from;
    while to < chars.len() && is_whitespace(chars[to])
        invariant
            from <= to <= chars.len(),
            forall|m: int| from <= m < to ==> is_space(#[trigger] chars@[m]),
        decreases chars.len() - to,
    {
        to += 1;
    }
    to
}

/// The first position from `from` on that holds white space, or the length
/// of the text where none follows.
fn skip_token(chars: &Vec<char>, from: usize) -> (to: usize)
    requires
        from <= chars.len(),
    ensures
        from <= to <= chars.len(),
        forall|m: int| from <= m < to ==> !is_space(#[trigger] chars@[m]),
        to < chars.len() ==> is_space(chars@[to as int]),
{
    let mut to: usize = from;
    while to < chars.len() && !is_whitespace(chars[to])
        invariant
            from <= to <= chars.len(),
            forall|m: int| from <= m < to ==> !is_space(#[trigger] chars@[m]),
        decreases chars.len() - to,
    {
        to += 1;
    }
    to
}

/// Reads the move that a line writes: a row and a column with white space
/// between them, of any kind and length, and white space around them at
/// most. A line with one number, with more than two, with anything that is
/// no whole number, or with a number that no `isize` holds writes no move.
pub fn parse_move(line: &str) -> (res: Option<(isize, isize)>)
    ensures
        res == move_of(line@),
{
    let chars = chars_of(line);
    let ghost text = chars@;
    let len: usize = chars.len();
    let row_from: usize = skip_spaces(&chars, 0);
    if row_from >= len {
        proof {
            lemma_tokens_none(text);
        }
        return None;
    }
    let row_to: usize = skip_token(&chars, row_from);
    let col_from: usize = skip_spaces(&chars, row_to);
    let ghost after_row = text.skip(row_to as int);
    proof {
        lemma_tokens_first(text, row_from as int, row_to as int);
        assert forall|m: int| 0 <= m < col_from - row_to implies is_space(
            #[trigger] after_row[m],
        ) by {
            assert(is_space(text[m + row_to]));
        }
    }
    if col_from >= len {
        proof {
            lemma_tokens_none(after_row);
        }
        return None;
    }
    let col_to: usize = skip_token(&chars, col_from);
    let end: usize = skip_spaces(&chars, col_to);
    let ghost after_col = text.skip(col_to as int);
    proof {
        assert forall|m: int| col_from - row_to <= m < col_to - row_to implies !is_space(
            #[trigger] after_row[m],
        ) by {
            assert(!is_space(text[m + row_to]));
        }
        lemma_tokens_first(after_row, col_from - row_to, col_to - row_to);
        assert(after_row.subrange(col_from - row_to, col_to - row_to) =~= text.subrange(
            col_from as int,
            col_to as int,
        ));
        assert(after_row.skip(col_to - row_to) =~= after_col);
        assert forall|m: int| 0 <= m < end - col_to implies is_space(#[trigger] after_col[m]) by {
            assert(is_space(text[m + col_to]));
        }
    }
    if end < len {
        proof {
            lemma_tokens_some(after_col, end - col_to);
        }
        return None;
    }
    proof {
        lemma_tokens_none(after_col);
        assert(tokens(text) =~= seq![
            text.subrange(row_from as int, row_to as int),
            text.subrange(col_from as int, col_to as int),
        ]);
    }
    let row = parse_coordinate(&chars, row_from, row_to);
    let col = parse_coordinate(&chars, col_from, col_to);
    match (row, col) {
        (Some(row), Some(col)) => Some((row, col)),
        _ => None,
    }
}

/// The move to play for what a line wrote: the move itself, or row 0,
/// column 0 where the line wrote none.
pub fn move_or_origin(parsed: Option<(isize, isize)>) -> (at: (isize, isize))
    ensures
        at == move_played(parsed),
{
    match parsed {
        Some(m) => m,
        None => (0, 0),
    }
}

} // verus!
