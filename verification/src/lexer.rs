//! The lexical scanner: from the bytes of a source text to tokens with
//! the numbers of the lines that they begin on.

use crate::chars::{
    from_hex_digit, is_alpha, is_digit, is_newline, is_space, lemma_digit_ranges,
    spec_from_hex_digit, spec_is_alpha, spec_is_digit, spec_is_newline, spec_is_space, ALERT_BEEP,
    AMPERSAND, ASTERISK, BACKSLASH, BACKSPACE, CARET, CARRIAGE_RETURN, COLON, COMMA, DOUBLE_QUOTE,
    EQUALS, FORM_FEED, FORWARD_SLASH, GREATER_THAN, HORIZONTAL_TAB, LEFT_BRACE, LEFT_BRACKET,
    LEFT_PAREN, LESS_THAN, LOWER_A, LOWER_B, LOWER_F, LOWER_N, LOWER_R, LOWER_T, LOWER_U, LOWER_V,
    LOWER_X, LOWER_Z, MINUS, NEWLINE, OCTOTHORPE, PERCENT, PERIOD, PIPE, PLUS, RIGHT_BRACE,
    RIGHT_BRACKET, RIGHT_PAREN, SEMICOLON, SINGLE_QUOTE, TILDE, VERTICAL_TAB,
};
use crate::numeral::{
    at, digits_end, digits_value, lemma_digits_end_bounds, lemma_numeral_bounds, scan_digits,
    scan_numeral, spec_scan_numeral, NumeralKind,
};
use vstd::prelude::*;

verus! {

/// A token. `B` is what holds the bytes of a name, a string or a number:
/// `Vec<u8>` in a token that the scanner hands out, `Seq<u8>` in its model.
#[derive(Debug, Clone, PartialEq, Eq)]
pub enum Token<B> {
    Break,
    Do,
    Else,
    ElseIf,
    End,
    Function,
    Goto,
    If,
    In,
    Local,
    Nil,
    For,
    While,
    Repeat,
    Until,
    Return,
    Then,
    True,
    False,
    Not,
    And,
    Or,
    Plus,
    Minus,
    Times,
    Div,
    IDiv,
    Pow,
    Mod,
    BitAnd,
    BitNot,
    BitOr,
    ShiftRight,
    ShiftLeft,
    Dot,
    Concat,
    Dots,
    Assign,
    Less,
    LessEqual,
    Greater,
    GreaterEqual,
    Equal,
    NotEqual,
    Colon,
    DoubleColon,
    SemiColon,
    Comma,
    Len,
    LeftParen,
    RightParen,
    LeftBracket,
    RightBracket,
    LeftBrace,
    RightBrace,
    /// A literal that denotes a binary64 number, by its text.
    Number(B),
    Integer(i64),
    Name(B),
    String(B),
}

/// What the scanner hands out: a token with its line, or the end of the text.
#[derive(Debug, Clone, PartialEq, Eq)]
pub enum NextToken<B> {
    Next {
        token: Token<B>,
        /// The line that the token begins on, counted from 0.
        line_number: u64,
    },
    End,
}

/// What is wrong with a source text.
#[derive(Clone, Copy, Debug, PartialEq, Eq, Structural)]
pub enum LexErrorKind {
    UnfinishedShortString,
    UnfinishedLongString,
    UnfinishedLongComment,
    InvalidLongStringDelimiter,
    InvalidEscape,
    HexDigitExpected,
    MissingLeftBrace,
    MissingRightBrace,
    InvalidUnicode,
    DecimalEscapeTooLarge,
    MalformedNumber,
    UnexpectedCharacter(u8),
}

/// A lexical error, with the line on which what could not be read begins.
#[derive(Clone, Copy, Debug, PartialEq, Eq, Structural)]
pub struct LexError {
    pub kind: LexErrorKind,
    pub line_number: u64,
}

/// The number of bytes equal to `c` in a row from position `i` on.
pub open spec fn run_length(s: Seq<u8>, i: int, c: u8) -> nat
    decreases s.len() - i,
{
    if 0 <= i < s.len() && s[i] == c {
        1 + run_length(s, i + 1, c)
    } else {
        0
    }
}

/// The byte `c`, `n` times.
pub open spec fn repeat(c: u8, n: nat) -> Seq<u8> {
    Seq::new(n, |i: int| c)
}

/// The length of the line end at position `i`, which holds a newline
/// byte: 2 if the newline byte of the other kind follows, else 1.
pub open spec fn spec_line_end(s: Seq<u8>, i: int) -> int {
    if 0 <= i < s.len() && (at(s, i + 1) matches Some(c) && spec_is_newline(c) && c != s[i]) {
        2
    } else {
        1
    }
}

/// What a piece of source text came to: the position after it, the bytes
/// that it denotes, and the number of line ends in it.
pub struct Piece {
    pub end: int,
    pub bytes: Seq<u8>,
    pub lines: int,
}

/// The body of a long string from position `i` on, up to the closing
/// bracket of the given level. Each line end adds one line feed to the
/// bytes. A closing bracket of another level belongs to the body.
pub open spec fn long_body(s: Seq<u8>, i: int, level: nat, bytes: Seq<u8>, lines: int) -> Result<
    Piece,
    LexErrorKind,
>
    decreases s.len() - i,
{
    if i < 0 || i >= s.len() {
        Err(LexErrorKind::UnfinishedLongString)
    } else if spec_is_newline(s[i]) {
        long_body(s, i + spec_line_end(s, i), level, bytes.push(NEWLINE), lines + 1)
    } else if s[i] == RIGHT_BRACKET {
        let n = run_length(s, i + 1, EQUALS);
        if n == level && at(s, i + 1 + n) == Some(RIGHT_BRACKET) {
            Ok(Piece { end: i + 2 + n, bytes, lines })
        } else {
            proof {
                lemma_run_length_bound(s, i + 1, EQUALS);
            }
            long_body(s, i + 1 + n, level, bytes.push(RIGHT_BRACKET) + repeat(EQUALS, n), lines)
        }
    } else {
        long_body(s, i + 1, level, bytes.push(s[i]), lines)
    }
}

/// Whether a long bracket opens at position `i`: `[`, any number of `=`,
/// and `[`.
pub open spec fn long_bracket_opens(s: Seq<u8>, i: int) -> bool {
    at(s, i) == Some(LEFT_BRACKET) && at(s, i + 1 + run_length(s, i + 1, EQUALS)) == Some(
        LEFT_BRACKET,
    )
}

/// The long string whose opening bracket starts at `start`. A line end
/// right after the opening bracket is not part of the string.
pub open spec fn spec_long_string(s: Seq<u8>, start: int) -> Result<Piece, LexErrorKind> {
    let level = run_length(s, start + 1, EQUALS);
    let body = start + 2 + level;
    if !long_bracket_opens(s, start) {
        Err(LexErrorKind::InvalidLongStringDelimiter)
    } else if at(s, body) matches Some(c) && spec_is_newline(c) {
        long_body(s, body + spec_line_end(s, body), level, Seq::empty(), 1)
    } else {
        long_body(s, body, level, Seq::empty(), 0)
    }
}

/// The number of bytes from position `i` to the end of its line.
pub open spec fn line_rest(s: Seq<u8>, i: int) -> nat
    decreases s.len() - i,
{
    if 0 <= i < s.len() && !spec_is_newline(s[i]) {
        1 + line_rest(s, i + 1)
    } else {
        0
    }
}

/// The comment that starts with the two minus signs at `start`: the
/// position after it and the number of line ends in it. A long bracket that opens
/// right after the minus signs makes it a long comment, which ends with
/// the closing bracket; any other comment ends before the end of its line.
pub open spec fn spec_comment(s: Seq<u8>, start: int) -> Result<(int, int), LexErrorKind> {
    if long_bracket_opens(s, start + 2) {
        match spec_long_string(s, start + 2) {
            Ok(piece) => Ok((piece.end, piece.lines)),
            Err(_) => Err(LexErrorKind::UnfinishedLongComment),
        }
    } else {
        Ok((start + 2 + line_rest(s, start + 2), 0))
    }
}

/// Whether a comment starts at position `i`.
pub open spec fn comment_starts(s: Seq<u8>, i: int) -> bool {
    at(s, i) == Some(MINUS) && at(s, i + 1) == Some(MINUS)
}

/// Where the next token starts, looking from position `i`, and the number
/// of lines that begin on the way; or the error of a long comment that
/// does not end, with the number of lines that begin before that comment.
pub open spec fn spec_skip_whitespace(s: Seq<u8>, i: int, lines: int) -> Result<
    (int, int),
    (LexErrorKind, int),
>
    decreases s.len() - i,
{
    if i < 0 || i >= s.len() {
        Ok((i, lines))
    } else if spec_is_newline(s[i]) {
        spec_skip_whitespace(s, i + spec_line_end(s, i), lines + 1)
    } else if spec_is_space(s[i]) {
        spec_skip_whitespace(s, i + 1, lines)
    } else if comment_starts(s, i) {
        match spec_comment(s, i) {
            Ok((end, more)) => {
                proof {
                    lemma_comment_bounds(s, i);
                }
                spec_skip_whitespace(s, end, lines + more)
            },
            Err(kind) => Err((kind, lines)),
        }
    } else {
        Ok((i, lines))
    }
}

/// A run of equal bytes ends within the text, at a byte of another kind.
pub proof fn lemma_run_length_bound(s: Seq<u8>, i: int, c: u8)
    requires
        0 <= i <= s.len(),
    ensures
        i + run_length(s, i, c) <= s.len(),
        at(s, i + run_length(s, i, c)) != Some(c),
    decreases s.len() - i,
{
    if i < s.len() && s[i] == c {
        lemma_run_length_bound(s, i + 1, c);
    }
}

/// The rest of a line ends within the text.
pub proof fn lemma_line_rest_bound(s: Seq<u8>, i: int)
    requires
        0 <= i <= s.len(),
    ensures
        i + line_rest(s, i) <= s.len(),
    decreases s.len() - i,
{
    if i < s.len() && !spec_is_newline(s[i]) {
        lemma_line_rest_bound(s, i + 1);
    }
}

/// A long string body ends after where it starts and within the text,
/// and holds at most as many line ends as bytes.
pub proof fn lemma_long_body_bounds(s: Seq<u8>, i: int, level: nat, bytes: Seq<u8>, lines: int)
    requires
        0 <= i <= s.len(),
    ensures
        long_body(s, i, level, bytes, lines) matches Ok(piece) ==> i < piece.end <= s.len() && 0
            <= piece.lines - lines <= piece.end - i,
    decreases s.len() - i,
{
    if i >= s.len() {
    } else if spec_is_newline(s[i]) {
        lemma_long_body_bounds(s, i + spec_line_end(s, i), level, bytes.push(NEWLINE), lines + 1);
    } else if s[i] == RIGHT_BRACKET {
        let n = run_length(s, i + 1, EQUALS);
        lemma_run_length_bound(s, i + 1, EQUALS);
        if n == level && at(s, i + 1 + n) == Some(RIGHT_BRACKET) {
        } else {
            lemma_long_body_bounds(
                s,
                i + 1 + n,
                level,
                bytes.push(RIGHT_BRACKET) + repeat(EQUALS, n),
                lines,
            );
        }
    } else {
        lemma_long_body_bounds(s, i + 1, level, bytes.push(s[i]), lines);
    }
}

/// A long string ends after its opening bracket and within the text, and
/// holds at most as many line ends as bytes.
pub proof fn lemma_long_string_bounds(s: Seq<u8>, start: int)
    requires
        0 <= start < s.len(),
    ensures
        spec_long_string(s, start) matches Ok(piece) ==> start + 2 <= piece.end <= s.len() && 0
            <= piece.lines <= piece.end - start,
{
    let level = run_length(s, start + 1, EQUALS);
    let body = start + 2 + level;
    lemma_run_length_bound(s, start + 1, EQUALS);
    if long_bracket_opens(s, start) {
        if at(s, body) matches Some(c) && spec_is_newline(c) {
            lemma_long_body_bounds(s, body + spec_line_end(s, body), level, Seq::empty(), 1);
        } else {
            lemma_long_body_bounds(s, body, level, Seq::empty(), 0);
        }
    }
}

/// A comment ends after its two minus signs and within the text, and holds at
/// most as many line ends as bytes.
pub proof fn lemma_comment_bounds(s: Seq<u8>, start: int)
    requires
        comment_starts(s, start),
    ensures
        spec_comment(s, start) matches Ok((end, lines)) ==> start + 2 <= end <= s.len() && 0
            <= lines <= end - start,
{
    if long_bracket_opens(s, start + 2) {
        lemma_long_string_bounds(s, start + 2);
    } else {
        lemma_line_rest_bound(s, start + 2);
    }
}

fn run_end(source: &Vec<u8>, i: usize, c: u8) -> (end: usize)
    requires
        i <= source.len(),
    ensures
        end == i + run_length(source@, i as int, c),
        end <= source.len(),
{
    let mut j: usize = i;
    while j < source.len() && source[j] == c
        invariant
            i <= j <= source.len(),
            j + run_length(source@, j as int, c) == i + run_length(source@, i as int, c),
        decreases source.len() - j,
    {
        j = j + 1;
    }
    j
}

/// The length of the line end at a position that holds a newline byte.
pub fn line_end(source: &Vec<u8>, i: usize) -> (length: usize)
    requires
        i < source.len(),
        spec_is_newline(source@[i as int]),
    ensures
        length == spec_line_end(source@, i as int),
        i + length <= source.len(),
        1 <= length <= 2,
{
    if i + 1 < source.len() && is_newline(source[i + 1]) && source[i + 1] != source[i] {
        2
    } else {
        1
    }
}

fn push_repeat(out: &mut Vec<u8>, c: u8, n: usize)
    ensures
        final(out)@ == old(out)@ + repeat(c, n as nat),
{
    let mut k: usize = 0;
    assert(out@ =~= old(out)@ + repeat(c, 0));
    while k < n
        invariant
            k <= n,
            out@ == old(out)@ + repeat(c, k as nat),
        decreases n - k,
    {
        out.push(c);
        assert(out@ =~= old(out)@ + repeat(c, (k + 1) as nat));
        k = k + 1;
    }
}

/// Whether the exec result of a scan is what its specification says.
pub open spec fn piece_agrees(
    got: Result<(usize, Vec<u8>, u64), LexErrorKind>,
    expected: Result<Piece, LexErrorKind>,
) -> bool {
    match (got, expected) {
        (Ok((end, bytes, lines)), Ok(piece)) => end == piece.end && bytes@ == piece.bytes && lines
            == piece.lines,
        (Err(e), Err(k)) => e == k,
        _ => false,
    }
}

/// Reads the long string whose opening bracket starts at `start`: the
/// position after its closing bracket, its bytes, and the number of line
/// ends in it.
pub fn long_string(source: &Vec<u8>, start: usize) -> (r: Result<(usize, Vec<u8>, u64), LexErrorKind>)
    requires
        start < source.len(),
    ensures
        piece_agrees(r, spec_long_string(source@, start as int)),
        r matches Ok((end, _, lines)) ==> start < end <= source.len() && lines <= end - start,
{
    if source[start] != LEFT_BRACKET {
        return Err(LexErrorKind::InvalidLongStringDelimiter);
    }
    let opening = run_end(source, start + 1, EQUALS);
    let level: usize = opening - (start + 1);
    if !(opening < source.len() && source[opening] == LEFT_BRACKET) {
        return Err(LexErrorKind::InvalidLongStringDelimiter);
    }
    let mut bytes: Vec<u8> = Vec::new();
    let mut lines: u64 = 0;
    let mut i: usize = opening + 1;
    if i < source.len() && is_newline(source[i]) {
        i = i + line_end(source, i);
        lines = 1;
    }
    loop
        invariant
            start < i <= source.len(),
            lines <= i - start,
            spec_long_string(source@, start as int) == long_body(
                source@,
                i as int,
                level as nat,
                bytes@,
                lines as int,
            ),
        decreases source.len() - i,
    {
        if i >= source.len() {
            return Err(LexErrorKind::UnfinishedLongString);
        }
        let c = source[i];
        if is_newline(c) {
            i = i + line_end(source, i);
            bytes.push(NEWLINE);
            lines = lines + 1;
        } else if c == RIGHT_BRACKET {
            let closing = run_end(source, i + 1, EQUALS);
            let n: usize = closing - (i + 1);
            if n == level && closing < source.len() && source[closing] == RIGHT_BRACKET {
                return Ok((closing + 1, bytes, lines));
            }
            bytes.push(RIGHT_BRACKET);
            push_repeat(&mut bytes, EQUALS, n);
            i = closing;
        } else {
            bytes.push(c);
            i = i + 1;
        }
    }
}

fn long_bracket_at(source: &Vec<u8>, i: usize) -> (r: bool)
    ensures
        r == long_bracket_opens(source@, i as int),
{
    if i < source.len() && source[i] == LEFT_BRACKET {
        let opening = run_end(source, i + 1, EQUALS);
        opening < source.len() && source[opening] == LEFT_BRACKET
    } else {
        false
    }
}

/// Reads the comment that starts with the two minus signs at `start`:
/// the position after it and the number of line ends in it.
pub fn comment(source: &Vec<u8>, start: usize) -> (r: Result<(usize, u64), LexErrorKind>)
    requires
        comment_starts(source@, start as int),
    ensures
        match spec_comment(source@, start as int) {
            Ok((end, lines)) => r == Ok::<(usize, u64), LexErrorKind>((end as usize, lines as u64))
                && start + 2 <= end <= source.len() && 0 <= lines <= end - start,
            Err(kind) => r == Err::<(usize, u64), LexErrorKind>(kind),
        },
{
    assert(start + 1 < source.len());
    if long_bracket_at(source, start + 2) {
        match long_string(source, start + 2) {
            Ok((end, _bytes, lines)) => Ok((end, lines)),
            Err(_) => Err(LexErrorKind::UnfinishedLongComment),
        }
    } else {
        let mut i: usize = start + 2;
        while i < source.len() && !is_newline(source[i])
            invariant
                start + 2 <= i <= source.len(),
                i + line_rest(source@, i as int) == start + 2 + line_rest(source@, start + 2),
            decreases source.len() - i,
        {
            i = i + 1;
        }
        Ok((i, 0))
    }
}

/// Passes white space and comments: returns where the next token starts
/// and the number of lines that begin on the way.
pub fn skip_whitespace(source: &Vec<u8>, start: usize) -> (r: Result<(usize, u64), (LexErrorKind, u64)>)
    requires
        start <= source.len(),
    ensures
        match spec_skip_whitespace(source@, start as int, 0) {
            Ok((end, lines)) => r == Ok::<(usize, u64), (LexErrorKind, u64)>(
                (end as usize, lines as u64),
            ) && start <= end <= source.len() && 0 <= lines <= end - start,
            Err((kind, lines)) => r == Err::<(usize, u64), (LexErrorKind, u64)>(
                (kind, lines as u64),
            ) && 0 <= lines <= source.len() - start,
        },
{
    let mut i: usize = start;
    let mut lines: u64 = 0;
    loop
        invariant
            start <= i <= source.len(),
            lines <= i - start,
            spec_skip_whitespace(source@, start as int, 0) == spec_skip_whitespace(
                source@,
                i as int,
                lines as int,
            ),
        decreases source.len() - i,
    {
        if i >= source.len() {
            return Ok((i, lines));
        }
        let c = source[i];
        if is_newline(c) {
            i = i + line_end(source, i);
            lines = lines + 1;
        } else if is_space(c) {
            i = i + 1;
        } else if c == MINUS && i + 1 < source.len() && source[i + 1] == MINUS {
            match comment(source, i) {
                Ok((end, more)) => {
                    i = end;
                    lines = lines + more;
                },
                Err(kind) => {
                    return Err((kind, lines));
                },
            }
        } else {
            return Ok((i, lines));
        }
    }
}

/// Whether a number is a Unicode scalar value.
pub open spec fn is_scalar(v: int) -> bool {
    0 <= v <= 0x10FFFF && !(0xD800 <= v <= 0xDFFF)
}

/// The UTF-8 encoding of a scalar value.
pub open spec fn utf8(v: int) -> Seq<u8> {
    if v < 0x80 {
        seq![v as u8]
    } else if v < 0x800 {
        seq![(0xC0 + v / 0x40) as u8, (0x80 + v % 0x40) as u8]
    } else if v < 0x10000 {
        seq![
            (0xE0 + v / 0x1000) as u8,
            (0x80 + (v / 0x40) % 0x40) as u8,
            (0x80 + v % 0x40) as u8,
        ]
    } else {
        seq![
            (0xF0 + v / 0x40000) as u8,
            (0x80 + (v / 0x1000) % 0x40) as u8,
            (0x80 + (v / 0x40) % 0x40) as u8,
            (0x80 + v % 0x40) as u8,
        ]
    }
}

fn push_utf8(out: &mut Vec<u8>, v: u32)
    requires
        is_scalar(v as int),
    ensures
        final(out)@ == old(out)@ + utf8(v as int),
{
    if v < 0x80 {
        out.push(v as u8);
    } else if v < 0x800 {
        out.push((0xC0 + v / 0x40) as u8);
        out.push((0x80 + v % 0x40) as u8);
    } else if v < 0x10000 {
        out.push((0xE0 + v / 0x1000) as u8);
        out.push((0x80 + (v / 0x40) % 0x40) as u8);
        out.push((0x80 + v % 0x40) as u8);
    } else {
        out.push((0xF0 + v / 0x40000) as u8);
        out.push((0x80 + (v / 0x1000) % 0x40) as u8);
        out.push((0x80 + (v / 0x40) % 0x40) as u8);
        out.push((0x80 + v % 0x40) as u8);
    }
    assert(out@ =~= old(out)@ + utf8(v as int));
}

/// The byte that a one-letter escape stands for.
pub open spec fn simple_escape(c: u8) -> Option<u8> {
    if c == LOWER_A {
        Some(ALERT_BEEP)
    } else if c == LOWER_B {
        Some(BACKSPACE)
    } else if c == LOWER_F {
        Some(FORM_FEED)
    } else if c == LOWER_N {
        Some(NEWLINE)
    } else if c == LOWER_R {
        Some(CARRIAGE_RETURN)
    } else if c == LOWER_T {
        Some(HORIZONTAL_TAB)
    } else if c == LOWER_V {
        Some(VERTICAL_TAB)
    } else if c == BACKSLASH || c == SINGLE_QUOTE || c == DOUBLE_QUOTE {
        Some(c)
    } else {
        None
    }
}

/// The end of the white space that starts at position `i`, and the
/// number of line ends in it.
pub open spec fn skip_space(s: Seq<u8>, i: int, lines: int) -> (int, int)
    decreases s.len() - i,
{
    if 0 <= i < s.len() && spec_is_newline(s[i]) {
        skip_space(s, i + spec_line_end(s, i), lines + 1)
    } else if 0 <= i < s.len() && spec_is_space(s[i]) {
        skip_space(s, i + 1, lines)
    } else {
        (i, lines)
    }
}

/// White space ends within the text, and holds at most as many line ends as
/// bytes.
pub proof fn lemma_skip_space_bounds(s: Seq<u8>, i: int, lines: int)
    requires
        0 <= i <= s.len(),
    ensures
        i <= skip_space(s, i, lines).0 <= s.len(),
        0 <= skip_space(s, i, lines).1 - lines <= skip_space(s, i, lines).0 - i,
    decreases s.len() - i,
{
    if i < s.len() && spec_is_newline(s[i]) {
        lemma_skip_space_bounds(s, i + spec_line_end(s, i), lines + 1);
    } else if i < s.len() && spec_is_space(s[i]) {
        lemma_skip_space_bounds(s, i + 1, lines);
    }
}

/// The number of decimal digits in a row from position `i` on, up to `most`.
pub open spec fn digits_up_to(s: Seq<u8>, i: int, most: nat) -> nat
    decreases most,
{
    if most > 0 && (at(s, i) matches Some(c) && spec_is_digit(c)) {
        1 + digits_up_to(s, i + 1, (most - 1) as nat)
    } else {
        0
    }
}

/// The digits counted are among the bytes of the text, and not more than
/// asked for.
pub proof fn lemma_digits_up_to_bounds(s: Seq<u8>, i: int, most: nat)
    requires
        0 <= i <= s.len(),
    ensures
        digits_up_to(s, i, most) <= most,
        i + digits_up_to(s, i, most) <= s.len(),
    decreases most,
{
    if most > 0 && (at(s, i) matches Some(c) && spec_is_digit(c)) {
        lemma_digits_up_to_bounds(s, i + 1, (most - 1) as nat);
    }
}

/// What the escape sequence denotes whose first byte after the backslash
/// is at position `i`.
///
/// A letter escape is one byte. A line end stands for itself, as it is
/// written. `x` takes two hexadecimal digits for a byte. `u{..}` takes
/// hexadecimal digits for a Unicode scalar value, which is encoded in
/// UTF-8. `z` passes the white space that follows, line ends included.
/// One to three decimal digits stand for the byte of that value.
pub open spec fn spec_escape(s: Seq<u8>, i: int) -> Result<Piece, LexErrorKind> {
    match at(s, i) {
        None => Err(LexErrorKind::UnfinishedShortString),
        Some(c) => if simple_escape(c) is Some {
            Ok(Piece { end: i + 1, bytes: seq![simple_escape(c).unwrap()], lines: 0 })
        } else if spec_is_newline(c) {
            Ok(
                Piece {
                    end: i + spec_line_end(s, i),
                    bytes: s.subrange(i, i + spec_line_end(s, i)),
                    lines: 1,
                },
            )
        } else if c == LOWER_X {
            match (at(s, i + 1), at(s, i + 2)) {
                (Some(h), Some(l)) => match (spec_from_hex_digit(h), spec_from_hex_digit(l)) {
                    (Some(high), Some(low)) => Ok(
                        Piece { end: i + 3, bytes: seq![(high * 16 + low) as u8], lines: 0 },
                    ),
                    _ => Err(LexErrorKind::HexDigitExpected),
                },
                _ => Err(LexErrorKind::HexDigitExpected),
            }
        } else if c == LOWER_U {
            let close = digits_end(s, i + 2, true);
            let value = digits_value(s, i + 2, close, true);
            if at(s, i + 1) != Some(LEFT_BRACE) {
                Err(LexErrorKind::MissingLeftBrace)
            } else if at(s, close) != Some(RIGHT_BRACE) {
                Err(LexErrorKind::MissingRightBrace)
            } else if !is_scalar(value) {
                Err(LexErrorKind::InvalidUnicode)
            } else {
                Ok(Piece { end: close + 1, bytes: utf8(value), lines: 0 })
            }
        } else if c == LOWER_Z {
            Ok(
                Piece {
                    end: skip_space(s, i + 1, 0).0,
                    bytes: Seq::empty(),
                    lines: skip_space(s, i + 1, 0).1,
                },
            )
        } else if spec_is_digit(c) {
            let n = digits_up_to(s, i, 3);
            let value = digits_value(s, i, i + n, false);
            if value > 255 {
                Err(LexErrorKind::DecimalEscapeTooLarge)
            } else {
                Ok(Piece { end: i + n, bytes: seq![value as u8], lines: 0 })
            }
        } else {
            Err(LexErrorKind::InvalidEscape)
        },
    }
}

/// An escape sequence ends after where it starts and within the text, and
/// holds at most as many line ends as bytes.
pub proof fn lemma_escape_bounds(s: Seq<u8>, i: int)
    requires
        0 <= i <= s.len(),
    ensures
        spec_escape(s, i) matches Ok(piece) ==> i < piece.end <= s.len() && 0 <= piece.lines
            <= piece.end - i,
{
    if i < s.len() {
        let c = s[i];
        if c == LOWER_U {
            if i + 2 <= s.len() {
                lemma_digits_end_bounds(s, i + 2, true);
            }
        } else if c == LOWER_Z {
            lemma_skip_space_bounds(s, i + 1, 0);
        } else if spec_is_digit(c) {
            lemma_digits_up_to_bounds(s, i, 3);
        }
    }
}

/// The body of a short string from position `i` on, up to the closing
/// quote. It ends on its line: only an escaped line end may be in it.
pub open spec fn short_body(s: Seq<u8>, i: int, quote: u8, bytes: Seq<u8>, lines: int) -> Result<
    Piece,
    LexErrorKind,
>
    decreases s.len() - i,
{
    if i < 0 || i >= s.len() {
        Err(LexErrorKind::UnfinishedShortString)
    } else if spec_is_newline(s[i]) {
        Err(LexErrorKind::UnfinishedShortString)
    } else if s[i] == BACKSLASH {
        match spec_escape(s, i + 1) {
            Err(kind) => Err(kind),
            Ok(piece) => {
                proof {
                    lemma_escape_bounds(s, i + 1);
                }
                short_body(s, piece.end, quote, bytes + piece.bytes, lines + piece.lines)
            },
        }
    } else if s[i] == quote {
        Ok(Piece { end: i + 1, bytes, lines })
    } else {
        short_body(s, i + 1, quote, bytes.push(s[i]), lines)
    }
}

/// The short string whose opening quote is at `start`.
pub open spec fn spec_short_string(s: Seq<u8>, start: int) -> Result<Piece, LexErrorKind> {
    short_body(s, start + 1, s[start], Seq::empty(), 0)
}

fn simple_escape_of(c: u8) -> (r: Option<u8>)
    ensures
        r == simple_escape(c),
{
    if c == LOWER_A {
        Some(ALERT_BEEP)
    } else if c == LOWER_B {
        Some(BACKSPACE)
    } else if c == LOWER_F {
        Some(FORM_FEED)
    } else if c == LOWER_N {
        Some(NEWLINE)
    } else if c == LOWER_R {
        Some(CARRIAGE_RETURN)
    } else if c == LOWER_T {
        Some(HORIZONTAL_TAB)
    } else if c == LOWER_V {
        Some(VERTICAL_TAB)
    } else if c == BACKSLASH || c == SINGLE_QUOTE || c == DOUBLE_QUOTE {
        Some(c)
    } else {
        None
    }
}

fn hex_at(source: &Vec<u8>, i: usize) -> (r: Option<u8>)
    ensures
        r == (match at(source@, i as int) {
            Some(c) => spec_from_hex_digit(c),
            None => None,
        }),
        r matches Some(h) ==> h < 16,
{
    if i < source.len() {
        proof {
            lemma_digit_ranges(source@[i as int]);
        }
        from_hex_digit(source[i])
    } else {
        None
    }
}

/// Reads the escape sequence whose first byte after the backslash is at
/// position `i`, and adds what it denotes to `out`. Returns the position
/// after the sequence and the number of line ends in it.
fn escape(source: &Vec<u8>, i: usize, out: &mut Vec<u8>) -> (r: Result<(usize, u64), LexErrorKind>)
    requires
        i <= source.len(),
    ensures
        match spec_escape(source@, i as int) {
            Ok(piece) => r == Ok::<(usize, u64), LexErrorKind>(
                (piece.end as usize, piece.lines as u64),
            ) && final(out)@ == old(out)@ + piece.bytes && i < piece.end <= source.len() && 0
                <= piece.lines <= piece.end - i,
            Err(kind) => r == Err::<(usize, u64), LexErrorKind>(kind),
        },
{
    proof {
        lemma_escape_bounds(source@, i as int);
    }
    if i >= source.len() {
        return Err(LexErrorKind::UnfinishedShortString);
    }
    let c = source[i];
    if let Some(b) = simple_escape_of(c) {
        out.push(b);
        assert(out@ =~= old(out)@ + seq![b]);
        Ok((i + 1, 0))
    } else if is_newline(c) {
        let n = line_end(source, i);
        out.push(c);
        if n == 2 {
            out.push(source[i + 1]);
        }
        assert(out@ =~= old(out)@ + source@.subrange(i as int, i + n));
        Ok((i + n, 1))
    } else if c == LOWER_X {
        match (hex_at(source, i + 1), if i + 1 < source.len() {
            hex_at(source, i + 2)
        } else {
            None
        }) {
            (Some(high), Some(low)) => {
                out.push(high * 16 + low);
                assert(out@ =~= old(out)@ + seq![(high * 16 + low) as u8]);
                Ok((i + 3, 0))
            },
            _ => Err(LexErrorKind::HexDigitExpected),
        }
    } else if c == LOWER_U {
        if !(i + 1 < source.len() && source[i + 1] == LEFT_BRACE) {
            return Err(LexErrorKind::MissingLeftBrace);
        }
        let (close, value) = scan_digits(source, i + 2, true);
        if !(close < source.len() && source[close] == RIGHT_BRACE) {
            return Err(LexErrorKind::MissingRightBrace);
        }
        match value {
            Some(v) => {
                if v <= 0x10FFFF && !(0xD800 <= v && v <= 0xDFFF) {
                    push_utf8(out, v as u32);
                    Ok((close + 1, 0))
                } else {
                    Err(LexErrorKind::InvalidUnicode)
                }
            },
            None => Err(LexErrorKind::InvalidUnicode),
        }
    } else if c == LOWER_Z {
        let mut j: usize = i + 1;
        let mut lines: u64 = 0;
        loop
            invariant
                i < j <= source.len(),
                lines <= j - i,
                skip_space(source@, i + 1, 0) == skip_space(source@, j as int, lines as int),
            ensures
                i < j <= source.len(),
                lines <= j - i,
                skip_space(source@, i + 1, 0) == (j as int, lines as int),
            decreases source.len() - j,
        {
            if j < source.len() && is_newline(source[j]) {
                j = j + line_end(source, j);
                lines = lines + 1;
            } else if j < source.len() && is_space(source[j]) {
                j = j + 1;
            } else {
                break ;
            }
        }
        assert(out@ =~= old(out)@ + Seq::<u8>::empty());
        Ok((j, lines))
    } else if is_digit(c) {
        let mut value: u16 = 0;
        let mut n: usize = 0;
        while n < 3 && i + n < source.len() && is_digit(source[i + n])
            invariant
                n <= 3,
                i + n <= source.len(),
                value == digits_value(source@, i as int, i + n, false),
                value <= 999,
                n < 3 ==> value <= 99,
                n < 2 ==> value <= 9,
                n < 1 ==> value == 0,
                n + digits_up_to(source@, i + n, (3 - n) as nat) == digits_up_to(
                    source@,
                    i as int,
                    3,
                ),
            decreases 3 - n,
        {
            let d = source[i + n] - 48;
            assert(digits_value(source@, i as int, i + n + 1, false) == digits_value(
                source@,
                i as int,
                i + n,
                false,
            ) * 10 + d);
            value = value * 10 + d as u16;
            n = n + 1;
        }
        if value > 255 {
            Err(LexErrorKind::DecimalEscapeTooLarge)
        } else {
            out.push(value as u8);
            assert(out@ =~= old(out)@ + seq![value as u8]);
            Ok((i + n, 0))
        }
    } else {
        Err(LexErrorKind::InvalidEscape)
    }
}

/// Reads the short string whose opening quote is at `start`: the
/// position after its closing quote, its bytes, and the number of line
/// ends in it.
pub fn short_string(source: &Vec<u8>, start: usize) -> (r: Result<(usize, Vec<u8>, u64), LexErrorKind>)
    requires
        start < source.len(),
    ensures
        piece_agrees(r, spec_short_string(source@, start as int)),
        r matches Ok((end, _, lines)) ==> start < end <= source.len() && lines <= end - start,
{
    let quote = source[start];
    let mut bytes: Vec<u8> = Vec::new();
    let mut lines: u64 = 0;
    let mut i: usize = start + 1;
    loop
        invariant
            start < i <= source.len(),
            lines <= i - start,
            quote == source@[start as int],
            spec_short_string(source@, start as int) == short_body(
                source@,
                i as int,
                quote,
                bytes@,
                lines as int,
            ),
        decreases source.len() - i,
    {
        if i >= source.len() {
            return Err(LexErrorKind::UnfinishedShortString);
        }
        let c = source[i];
        if is_newline(c) {
            return Err(LexErrorKind::UnfinishedShortString);
        }
        if c == BACKSLASH {
            match escape(source, i + 1, &mut bytes) {
                Err(kind) => {
                    return Err(kind);
                },
                Ok((end, more)) => {
                    i = end;
                    lines = lines + more;
                },
            }
        } else if c == quote {
            return Ok((i + 1, bytes, lines));
        } else {
            bytes.push(c);
            i = i + 1;
        }
    }
}

impl View for Token<Vec<u8>> {
    type V = Token<Seq<u8>>;

    open spec fn view(&self) -> Token<Seq<u8>> {
        match *self {
            Token::Break => Token::Break,
            Token::Do => Token::Do,
            Token::Else => Token::Else,
            Token::ElseIf => Token::ElseIf,
            Token::End => Token::End,
            Token::Function => Token::Function,
            Token::Goto => Token::Goto,
            Token::If => Token::If,
            Token::In => Token::In,
            Token::Local => Token::Local,
            Token::Nil => Token::Nil,
            Token::For => Token::For,
            Token::While => Token::While,
            Token::Repeat => Token::Repeat,
            Token::Until => Token::Until,
            Token::Return => Token::Return,
            Token::Then => Token::Then,
            Token::True => Token::True,
            Token::False => Token::False,
            Token::Not => Token::Not,
            Token::And => Token::And,
            Token::Or => Token::Or,
            Token::Plus => Token::Plus,
            Token::Minus => Token::Minus,
            Token::Times => Token::Times,
            Token::Div => Token::Div,
            Token::IDiv => Token::IDiv,
            Token::Pow => Token::Pow,
            Token::Mod => Token::Mod,
            Token::BitAnd => Token::BitAnd,
            Token::BitNot => Token::BitNot,
            Token::BitOr => Token::BitOr,
            Token::ShiftRight => Token::ShiftRight,
            Token::ShiftLeft => Token::ShiftLeft,
            Token::Dot => Token::Dot,
            Token::Concat => Token::Concat,
            Token::Dots => Token::Dots,
            Token::Assign => Token::Assign,
            Token::Less => Token::Less,
            Token::LessEqual => Token::LessEqual,
            Token::Greater => Token::Greater,
            Token::GreaterEqual => Token::GreaterEqual,
            Token::Equal => Token::Equal,
            Token::NotEqual => Token::NotEqual,
            Token::Colon => Token::Colon,
            Token::DoubleColon => Token::DoubleColon,
            Token::SemiColon => Token::SemiColon,
            Token::Comma => Token::Comma,
            Token::Len => Token::Len,
            Token::LeftParen => Token::LeftParen,
            Token::RightParen => Token::RightParen,
            Token::LeftBracket => Token::LeftBracket,
            Token::RightBracket => Token::RightBracket,
            Token::LeftBrace => Token::LeftBrace,
            Token::RightBrace => Token::RightBrace,
            Token::Number(b) => Token::Number(b@),
            Token::Integer(i) => Token::Integer(i),
            Token::Name(b) => Token::Name(b@),
            Token::String(b) => Token::String(b@),
        }
    }
}

impl View for NextToken<Vec<u8>> {
    type V = NextToken<Seq<u8>>;

    open spec fn view(&self) -> NextToken<Seq<u8>> {
        match *self {
            NextToken::Next { token, line_number } => NextToken::Next { token: token@, line_number },
            NextToken::End => NextToken::End,
        }
    }
}

/// `break`
pub open spec fn word_break() -> Seq<u8> {
    seq![0x62u8, 0x72, 0x65, 0x61, 0x6b]
}

/// `do`
pub open spec fn word_do() -> Seq<u8> {
    seq![0x64u8, 0x6f]
}

/// `else`
pub open spec fn word_else() -> Seq<u8> {
    seq![0x65u8, 0x6c, 0x73, 0x65]
}

/// `elseif`
pub open spec fn word_elseif() -> Seq<u8> {
    seq![0x65u8, 0x6c, 0x73, 0x65, 0x69, 0x66]
}

/// `end`
pub open spec fn word_end() -> Seq<u8> {
    seq![0x65u8, 0x6e, 0x64]
}

/// `function`
pub open spec fn word_function() -> Seq<u8> {
    seq![0x66u8, 0x75, 0x6e, 0x63, 0x74, 0x69, 0x6f, 0x6e]
}

/// `goto`
pub open spec fn word_goto() -> Seq<u8> {
    seq![0x67u8, 0x6f, 0x74, 0x6f]
}

/// `if`
pub open spec fn word_if() -> Seq<u8> {
    seq![0x69u8, 0x66]
}

/// `in`
pub open spec fn word_in() -> Seq<u8> {
    seq![0x69u8, 0x6e]
}

/// `local`
pub open spec fn word_local() -> Seq<u8> {
    seq![0x6cu8, 0x6f, 0x63, 0x61, 0x6c]
}

/// `nil`
pub open spec fn word_nil() -> Seq<u8> {
    seq![0x6eu8, 0x69, 0x6c]
}

/// `for`
pub open spec fn word_for() -> Seq<u8> {
    seq![0x66u8, 0x6f, 0x72]
}

/// `while`
pub open spec fn word_while() -> Seq<u8> {
    seq![0x77u8, 0x68, 0x69, 0x6c, 0x65]
}

/// `repeat`
pub open spec fn word_repeat() -> Seq<u8> {
    seq![0x72u8, 0x65, 0x70, 0x65, 0x61, 0x74]
}

/// `until`
pub open spec fn word_until() -> Seq<u8> {
    seq![0x75u8, 0x6e, 0x74, 0x69, 0x6c]
}

/// `return`
pub open spec fn word_return() -> Seq<u8> {
    seq![0x72u8, 0x65, 0x74, 0x75, 0x72, 0x6e]
}

/// `then`
pub open spec fn word_then() -> Seq<u8> {
    seq![0x74u8, 0x68, 0x65, 0x6e]
}

/// `true`
pub open spec fn word_true() -> Seq<u8> {
    seq![0x74u8, 0x72, 0x75, 0x65]
}

/// `false`
pub open spec fn word_false() -> Seq<u8> {
    seq![0x66u8, 0x61, 0x6c, 0x73, 0x65]
}

/// `not`
pub open spec fn word_not() -> Seq<u8> {
    seq![0x6eu8, 0x6f, 0x74]
}

/// `and`
pub open spec fn word_and() -> Seq<u8> {
    seq![0x61u8, 0x6e, 0x64]
}

/// `or`
pub open spec fn word_or() -> Seq<u8> {
    seq![0x6fu8, 0x72]
}

/// The keyword that a name is, if it is one.
pub open spec fn keyword(name: Seq<u8>) -> Option<Token<Seq<u8>>> {
    if name == word_break() {
        Some(Token::Break)
    } else if name == word_do() {
        Some(Token::Do)
    } else if name == word_else() {
        Some(Token::Else)
    } else if name == word_elseif() {
        Some(Token::ElseIf)
    } else if name == word_end() {
        Some(Token::End)
    } else if name == word_function() {
        Some(Token::Function)
    } else if name == word_goto() {
        Some(Token::Goto)
    } else if name == word_if() {
        Some(Token::If)
    } else if name == word_in() {
        Some(Token::In)
    } else if name == word_local() {
        Some(Token::Local)
    } else if name == word_nil() {
        Some(Token::Nil)
    } else if name == word_for() {
        Some(Token::For)
    } else if name == word_while() {
        Some(Token::While)
    } else if name == word_repeat() {
        Some(Token::Repeat)
    } else if name == word_until() {
        Some(Token::Until)
    } else if name == word_return() {
        Some(Token::Return)
    } else if name == word_then() {
        Some(Token::Then)
    } else if name == word_true() {
        Some(Token::True)
    } else if name == word_false() {
        Some(Token::False)
    } else if name == word_not() {
        Some(Token::Not)
    } else if name == word_and() {
        Some(Token::And)
    } else if name == word_or() {
        Some(Token::Or)
    } else {
        None
    }
}

fn same<const N: usize>(name: &Vec<u8>, word: &[u8; N]) -> (r: bool)
    ensures
        r == (name@ == word@),
{
    if name.len() != N {
        return false;
    }
    let mut i: usize = 0;
    while i < N
        invariant
            name.len() == N,
            i <= N,
            forall|j: int| 0 <= j < i ==> name@[j] == word@[j],
        decreases N - i,
    {
        if name[i] != word[i] {
            return false;
        }
        i = i + 1;
    }
    assert(name@ =~= word@);
    true
}

fn keyword_of(name: &Vec<u8>) -> (r: Option<Token<Vec<u8>>>)
    ensures
        match keyword(name@) {
            Some(token) => r matches Some(t) && t@ == token,
            None => r is None,
        },
{
    let w_break: [u8; 5] = [0x62, 0x72, 0x65, 0x61, 0x6b];
    assert(w_break@ =~= word_break());
    if same(name, &w_break) {
        return Some(Token::Break);
    }
    let w_do: [u8; 2] = [0x64, 0x6f];
    assert(w_do@ =~= word_do());
    if same(name, &w_do) {
        return Some(Token::Do);
    }
    let w_else: [u8; 4] = [0x65, 0x6c, 0x73, 0x65];
    assert(w_else@ =~= word_else());
    if same(name, &w_else) {
        return Some(Token::Else);
    }
    let w_elseif: [u8; 6] = [0x65, 0x6c, 0x73, 0x65, 0x69, 0x66];
    assert(w_elseif@ =~= word_elseif());
    if same(name, &w_elseif) {
        return Some(Token::ElseIf);
    }
    let w_end: [u8; 3] = [0x65, 0x6e, 0x64];
    assert(w_end@ =~= word_end());
    if same(name, &w_end) {
        return Some(Token::End);
    }
    let w_function: [u8; 8] = [0x66, 0x75, 0x6e, 0x63, 0x74, 0x69, 0x6f, 0x6e];
    assert(w_function@ =~= word_function());
    if same(name, &w_function) {
        return Some(Token::Function);
    }
    let w_goto: [u8; 4] = [0x67, 0x6f, 0x74, 0x6f];
    assert(w_goto@ =~= word_goto());
    if same(name, &w_goto) {
        return Some(Token::Goto);
    }
    let w_if: [u8; 2] = [0x69, 0x66];
    assert(w_if@ =~= word_if());
    if same(name, &w_if) {
        return Some(Token::If);
    }
    let w_in: [u8; 2] = [0x69, 0x6e];
    assert(w_in@ =~= word_in());
    if same(name, &w_in) {
        return Some(Token::In);
    }
    let w_local: [u8; 5] = [0x6c, 0x6f, 0x63, 0x61, 0x6c];
    assert(w_local@ =~= word_local());
    if same(name, &w_local) {
        return Some(Token::Local);
    }
    let w_nil: [u8; 3] = [0x6e, 0x69, 0x6c];
    assert(w_nil@ =~= word_nil());
    if same(name, &w_nil) {
        return Some(Token::Nil);
    }
    let w_for: [u8; 3] = [0x66, 0x6f, 0x72];
    assert(w_for@ =~= word_for());
    if same(name, &w_for) {
        return Some(Token::For);
    }
    let w_while: [u8; 5] = [0x77, 0x68, 0x69, 0x6c, 0x65];
    assert(w_while@ =~= word_while());
    if same(name, &w_while) {
        return Some(Token::While);
    }
    let w_repeat: [u8; 6] = [0x72, 0x65, 0x70, 0x65, 0x61, 0x74];
    assert(w_repeat@ =~= word_repeat());
    if same(name, &w_repeat) {
        return Some(Token::Repeat);
    }
    let w_until: [u8; 5] = [0x75, 0x6e, 0x74, 0x69, 0x6c];
    assert(w_until@ =~= word_until());
    if same(name, &w_until) {
        return Some(Token::Until);
    }
    let w_return: [u8; 6] = [0x72, 0x65, 0x74, 0x75, 0x72, 0x6e];
    assert(w_return@ =~= word_return());
    if same(name, &w_return) {
        return Some(Token::Return);
    }
    let w_then: [u8; 4] = [0x74, 0x68, 0x65, 0x6e];
    assert(w_then@ =~= word_then());
    if same(name, &w_then) {
        return Some(Token::Then);
    }
    let w_true: [u8; 4] = [0x74, 0x72, 0x75, 0x65];
    assert(w_true@ =~= word_true());
    if same(name, &w_true) {
        return Some(Token::True);
    }
    let w_false: [u8; 5] = [0x66, 0x61, 0x6c, 0x73, 0x65];
    assert(w_false@ =~= word_false());
    if same(name, &w_false) {
        return Some(Token::False);
    }
    let w_not: [u8; 3] = [0x6e, 0x6f, 0x74];
    assert(w_not@ =~= word_not());
    if same(name, &w_not) {
        return Some(Token::Not);
    }
    let w_and: [u8; 3] = [0x61, 0x6e, 0x64];
    assert(w_and@ =~= word_and());
    if same(name, &w_and) {
        return Some(Token::And);
    }
    let w_or: [u8; 2] = [0x6f, 0x72];
    assert(w_or@ =~= word_or());
    if same(name, &w_or) {
        return Some(Token::Or);
    }
    None
}

/// The token of a byte that is a token by itself wherever it stands.
pub open spec fn single_char_token(c: u8) -> Option<Token<Seq<u8>>> {
    if c == PLUS {
        Some(Token::Plus)
    } else if c == ASTERISK {
        Some(Token::Times)
    } else if c == CARET {
        Some(Token::Pow)
    } else if c == PERCENT {
        Some(Token::Mod)
    } else if c == AMPERSAND {
        Some(Token::BitAnd)
    } else if c == PIPE {
        Some(Token::BitOr)
    } else if c == OCTOTHORPE {
        Some(Token::Len)
    } else if c == RIGHT_BRACKET {
        Some(Token::RightBracket)
    } else if c == LEFT_BRACE {
        Some(Token::LeftBrace)
    } else if c == RIGHT_BRACE {
        Some(Token::RightBrace)
    } else if c == LEFT_PAREN {
        Some(Token::LeftParen)
    } else if c == RIGHT_PAREN {
        Some(Token::RightParen)
    } else if c == SEMICOLON {
        Some(Token::SemiColon)
    } else if c == COMMA {
        Some(Token::Comma)
    } else {
        None
    }
}

fn single_char_token_of(c: u8) -> (r: Option<Token<Vec<u8>>>)
    ensures
        match single_char_token(c) {
            Some(token) => r matches Some(t) && t@ == token,
            None => r is None,
        },
{
    if c == PLUS {
        Some(Token::Plus)
    } else if c == ASTERISK {
        Some(Token::Times)
    } else if c == CARET {
        Some(Token::Pow)
    } else if c == PERCENT {
        Some(Token::Mod)
    } else if c == AMPERSAND {
        Some(Token::BitAnd)
    } else if c == PIPE {
        Some(Token::BitOr)
    } else if c == OCTOTHORPE {
        Some(Token::Len)
    } else if c == RIGHT_BRACKET {
        Some(Token::RightBracket)
    } else if c == LEFT_BRACE {
        Some(Token::LeftBrace)
    } else if c == RIGHT_BRACE {
        Some(Token::RightBrace)
    } else if c == LEFT_PAREN {
        Some(Token::LeftParen)
    } else if c == RIGHT_PAREN {
        Some(Token::RightParen)
    } else if c == SEMICOLON {
        Some(Token::SemiColon)
    } else if c == COMMA {
        Some(Token::Comma)
    } else {
        None
    }
}

/// The number of bytes of a name from position `i` on: letters,
/// underscores and digits.
pub open spec fn name_length(s: Seq<u8>, i: int) -> nat
    decreases s.len() - i,
{
    if 0 <= i < s.len() && (spec_is_alpha(s[i]) || spec_is_digit(s[i])) {
        1 + name_length(s, i + 1)
    } else {
        0
    }
}

/// What was read at a position: a token, or nothing where white space,
/// a comment or the end of the text stands; with the position after it
/// and the number of line ends in it.
pub struct Lexed {
    pub token: Option<Token<Seq<u8>>>,
    pub end: int,
    pub lines: int,
}

/// A token without line ends.
pub open spec fn plain(token: Token<Seq<u8>>, end: int) -> Result<Lexed, LexErrorKind> {
    Ok(Lexed { token: Some(token), end, lines: 0 })
}

/// The token of a string literal.
pub open spec fn string_token(piece: Result<Piece, LexErrorKind>) -> Result<Lexed, LexErrorKind> {
    match piece {
        Ok(p) => Ok(Lexed { token: Some(Token::String(p.bytes)), end: p.end, lines: p.lines }),
        Err(kind) => Err(kind),
    }
}

/// The token of the numeric literal that starts at `start`: an integer,
/// or a number with the text of the literal.
pub open spec fn spec_numeral(s: Seq<u8>, start: int) -> Result<Lexed, LexErrorKind> {
    match spec_scan_numeral(s, start) {
        None => Err(LexErrorKind::MalformedNumber),
        Some(n) => match n.kind {
            NumeralKind::Integer(i) => plain(Token::Integer(i), n.end as int),
            NumeralKind::Float => plain(
                Token::Number(s.subrange(start, n.end as int)),
                n.end as int,
            ),
        },
    }
}

/// Whether the byte `c` stands right after position `i`.
pub open spec fn followed_by(s: Seq<u8>, i: int, c: u8) -> bool {
    at(s, i + 1) == Some(c)
}

/// What stands at position `i`: the longest token that starts there.
pub open spec fn spec_lex(s: Seq<u8>, i: int) -> Result<Lexed, LexErrorKind> {
    match at(s, i) {
        None => Ok(Lexed { token: None, end: i, lines: 0 }),
        Some(c) => if spec_is_newline(c) {
            Ok(Lexed { token: None, end: i + spec_line_end(s, i), lines: 1 })
        } else if spec_is_space(c) {
            Ok(Lexed { token: None, end: i + 1, lines: 0 })
        } else if c == MINUS {
            if followed_by(s, i, MINUS) {
                match spec_comment(s, i) {
                    Ok((end, lines)) => Ok(Lexed { token: None, end, lines }),
                    Err(kind) => Err(kind),
                }
            } else {
                plain(Token::Minus, i + 1)
            }
        } else if c == LEFT_BRACKET {
            if followed_by(s, i, EQUALS) || followed_by(s, i, LEFT_BRACKET) {
                string_token(spec_long_string(s, i))
            } else {
                plain(Token::LeftBracket, i + 1)
            }
        } else if c == EQUALS {
            if followed_by(s, i, EQUALS) {
                plain(Token::Equal, i + 2)
            } else {
                plain(Token::Assign, i + 1)
            }
        } else if c == LESS_THAN {
            if followed_by(s, i, EQUALS) {
                plain(Token::LessEqual, i + 2)
            } else if followed_by(s, i, LESS_THAN) {
                plain(Token::ShiftLeft, i + 2)
            } else {
                plain(Token::Less, i + 1)
            }
        } else if c == GREATER_THAN {
            if followed_by(s, i, EQUALS) {
                plain(Token::GreaterEqual, i + 2)
            } else if followed_by(s, i, GREATER_THAN) {
                plain(Token::ShiftRight, i + 2)
            } else {
                plain(Token::Greater, i + 1)
            }
        } else if c == FORWARD_SLASH {
            if followed_by(s, i, FORWARD_SLASH) {
                plain(Token::IDiv, i + 2)
            } else {
                plain(Token::Div, i + 1)
            }
        } else if c == TILDE {
            if followed_by(s, i, EQUALS) {
                plain(Token::NotEqual, i + 2)
            } else {
                plain(Token::BitNot, i + 1)
            }
        } else if c == COLON {
            if followed_by(s, i, COLON) {
                plain(Token::DoubleColon, i + 2)
            } else {
                plain(Token::Colon, i + 1)
            }
        } else if c == DOUBLE_QUOTE || c == SINGLE_QUOTE {
            string_token(spec_short_string(s, i))
        } else if c == PERIOD {
            if followed_by(s, i, PERIOD) {
                if at(s, i + 2) == Some(PERIOD) {
                    plain(Token::Dots, i + 3)
                } else {
                    plain(Token::Concat, i + 2)
                }
            } else if at(s, i + 1) matches Some(d) && spec_is_digit(d) {
                spec_numeral(s, i)
            } else {
                plain(Token::Dot, i + 1)
            }
        } else if spec_is_digit(c) {
            spec_numeral(s, i)
        } else if single_char_token(c) is Some {
            plain(single_char_token(c).unwrap(), i + 1)
        } else if spec_is_alpha(c) {
            let name = s.subrange(i, i + name_length(s, i));
            match keyword(name) {
                Some(token) => plain(token, i + name_length(s, i)),
                None => plain(Token::Name(name), i + name_length(s, i)),
            }
        } else {
            Err(LexErrorKind::UnexpectedCharacter(c))
        },
    }
}

/// A name ends within the text.
pub proof fn lemma_name_length_bound(s: Seq<u8>, i: int)
    requires
        0 <= i <= s.len(),
    ensures
        i + name_length(s, i) <= s.len(),
    decreases s.len() - i,
{
    if i < s.len() && (spec_is_alpha(s[i]) || spec_is_digit(s[i])) {
        lemma_name_length_bound(s, i + 1);
    }
}

fn copy_range(source: &Vec<u8>, from: usize, to: usize) -> (r: Vec<u8>)
    requires
        from <= to <= source.len(),
    ensures
        r@ == source@.subrange(from as int, to as int),
{
    let mut r: Vec<u8> = Vec::new();
    let mut i: usize = from;
    while i < to
        invariant
            from <= i <= to <= source.len(),
            r@ == source@.subrange(from as int, i as int),
        decreases to - i,
    {
        r.push(source[i]);
        assert(r@ =~= source@.subrange(from as int, i + 1));
        i = i + 1;
    }
    r
}

fn peek_is(source: &Vec<u8>, i: usize, c: u8) -> (r: bool)
    ensures
        r == (at(source@, i as int) == Some(c)),
{
    i < source.len() && source[i] == c
}

/// Whether the exec result of reading at a position is what the
/// specification says.
pub open spec fn lexed_agrees(
    got: Result<(Option<Token<Vec<u8>>>, usize, u64), LexErrorKind>,
    expected: Result<Lexed, LexErrorKind>,
) -> bool {
    match (got, expected) {
        (Ok((token, end, lines)), Ok(lexed)) => end == lexed.end && lines == lexed.lines && (match (
            token,
            lexed.token,
        ) {
            (Some(t), Some(m)) => t@ == m,
            (None, None) => true,
            _ => false,
        }),
        (Err(e), Err(k)) => e == k,
        _ => false,
    }
}

/// Reads the numeric literal that starts at `start`.
pub fn numeral(source: &Vec<u8>, start: usize) -> (r: Result<
    (Option<Token<Vec<u8>>>, usize, u64),
    LexErrorKind,
>)
    requires
        start <= source.len(),
    ensures
        lexed_agrees(r, spec_numeral(source@, start as int)),
        r matches Ok((token, end, lines)) ==> start < end <= source.len() && lines == 0
            && token is Some,
{
    match scan_numeral(source, start) {
        None => Err(LexErrorKind::MalformedNumber),
        Some(n) => match n.kind {
            NumeralKind::Integer(i) => Ok((Some(Token::Integer(i)), n.end, 0)),
            NumeralKind::Float => Ok(
                (Some(Token::Number(copy_range(source, start, n.end))), n.end, 0),
            ),
        },
    }
}

/// Reads what stands at position `start`: the longest token that starts
/// there, or nothing where white space, a comment or the end of the text
/// stands.
pub fn lex(source: &Vec<u8>, start: usize) -> (r: Result<
    (Option<Token<Vec<u8>>>, usize, u64),
    LexErrorKind,
>)
    requires
        start <= source.len(),
    ensures
        lexed_agrees(r, spec_lex(source@, start as int)),
        r matches Ok((_, end, lines)) ==> start <= end <= source.len() && lines <= end - start,
{
    if start >= source.len() {
        return Ok((None, start, 0));
    }
    let c = source[start];
    let i = start;
    if is_newline(c) {
        Ok((None, i + line_end(source, i), 1))
    } else if is_space(c) {
        Ok((None, i + 1, 0))
    } else if c == MINUS {
        if peek_is(source, i + 1, MINUS) {
            match comment(source, i) {
                Ok((end, lines)) => Ok((None, end, lines)),
                Err(kind) => Err(kind),
            }
        } else {
            Ok((Some(Token::Minus), i + 1, 0))
        }
    } else if c == LEFT_BRACKET {
        if peek_is(source, i + 1, EQUALS) || peek_is(source, i + 1, LEFT_BRACKET) {
            match long_string(source, i) {
                Ok((end, bytes, lines)) => Ok((Some(Token::String(bytes)), end, lines)),
                Err(kind) => Err(kind),
            }
        } else {
            Ok((Some(Token::LeftBracket), i + 1, 0))
        }
    } else if c == EQUALS {
        if peek_is(source, i + 1, EQUALS) {
            Ok((Some(Token::Equal), i + 2, 0))
        } else {
            Ok((Some(Token::Assign), i + 1, 0))
        }
    } else if c == LESS_THAN {
        if peek_is(source, i + 1, EQUALS) {
            Ok((Some(Token::LessEqual), i + 2, 0))
        } else if peek_is(source, i + 1, LESS_THAN) {
            Ok((Some(Token::ShiftLeft), i + 2, 0))
        } else {
            Ok((Some(Token::Less), i + 1, 0))
        }
    } else if c == GREATER_THAN {
        if peek_is(source, i + 1, EQUALS) {
            Ok((Some(Token::GreaterEqual), i + 2, 0))
        } else if peek_is(source, i + 1, GREATER_THAN) {
            Ok((Some(Token::ShiftRight), i + 2, 0))
        } else {
            Ok((Some(Token::Greater), i + 1, 0))
        }
    } else if c == FORWARD_SLASH {
        if peek_is(source, i + 1, FORWARD_SLASH) {
            Ok((Some(Token::IDiv), i + 2, 0))
        } else {
            Ok((Some(Token::Div), i + 1, 0))
        }
    } else if c == TILDE {
        if peek_is(source, i + 1, EQUALS) {
            Ok((Some(Token::NotEqual), i + 2, 0))
        } else {
            Ok((Some(Token::BitNot), i + 1, 0))
        }
    } else if c == COLON {
        if peek_is(source, i + 1, COLON) {
            Ok((Some(Token::DoubleColon), i + 2, 0))
        } else {
            Ok((Some(Token::Colon), i + 1, 0))
        }
    } else if c == DOUBLE_QUOTE || c == SINGLE_QUOTE {
        match short_string(source, i) {
            Ok((end, bytes, lines)) => Ok((Some(Token::String(bytes)), end, lines)),
            Err(kind) => Err(kind),
        }
    } else if c == PERIOD {
        if peek_is(source, i + 1, PERIOD) {
            if peek_is(source, i + 2, PERIOD) {
                Ok((Some(Token::Dots), i + 3, 0))
            } else {
                Ok((Some(Token::Concat), i + 2, 0))
            }
        } else if i + 1 < source.len() && is_digit(source[i + 1]) {
            numeral(source, i)
        } else {
            Ok((Some(Token::Dot), i + 1, 0))
        }
    } else if is_digit(c) {
        numeral(source, i)
    } else if let Some(token) = single_char_token_of(c) {
        Ok((Some(token), i + 1, 0))
    } else if is_alpha(c) {
        let mut end: usize = i;
        while end < source.len() && (is_alpha(source[end]) || is_digit(source[end]))
            invariant
                i <= end <= source.len(),
                end + name_length(source@, end as int) == i + name_length(source@, i as int),
            decreases source.len() - end,
        {
            end = end + 1;
        }
        let name = copy_range(source, i, end);
        match keyword_of(&name) {
            Some(token) => Ok((Some(token), end, 0)),
            None => Ok((Some(Token::Name(name)), end, 0)),
        }
    } else {
        Err(LexErrorKind::UnexpectedCharacter(c))
    }
}

/// Whether a payload can stand between two quotes as it is: it holds no
/// quote of that kind, no backslash and no newline byte.
pub open spec fn is_plain(payload: Seq<u8>, quote: u8) -> bool {
    forall|i: int|
        0 <= i < payload.len() ==> payload[i] != quote && payload[i] != BACKSLASH
            && !spec_is_newline(#[trigger] payload[i])
}

proof fn lemma_short_body_plain(s: Seq<u8>, payload: Seq<u8>, quote: u8, k: int)
    requires
        0 <= k <= payload.len(),
        quote != BACKSLASH,
        !spec_is_newline(quote),
        is_plain(payload, quote),
        s.len() >= payload.len() + 2,
        forall|i: int| 0 <= i < payload.len() ==> s[1 + i] == payload[i],
        s[1 + payload.len() as int] == quote,
    ensures
        short_body(s, 1 + k, quote, payload.take(k), 0) == Ok::<Piece, LexErrorKind>(
            Piece { end: payload.len() as int + 2, bytes: payload, lines: 0 },
        ),
    decreases payload.len() - k,
{
    if k == payload.len() {
        assert(payload.take(k) =~= payload);
    } else {
        assert(s[1 + k] == payload[k]);
        assert(payload.take(k).push(payload[k]) =~= payload.take(k + 1));
        lemma_short_body_plain(s, payload, quote, k + 1);
    }
}

/// A payload without quotes, backslashes and newline bytes, written
/// between two quotes, is read back as it is, whatever follows.
pub proof fn lemma_short_string_round_trip(payload: Seq<u8>, quote: u8, rest: Seq<u8>)
    requires
        quote == SINGLE_QUOTE || quote == DOUBLE_QUOTE,
        is_plain(payload, quote),
    ensures
        spec_short_string(seq![quote] + payload + seq![quote] + rest, 0) == Ok::<
            Piece,
            LexErrorKind,
        >(Piece { end: payload.len() as int + 2, bytes: payload, lines: 0 }),
        spec_lex(seq![quote] + payload + seq![quote] + rest, 0) == Ok::<Lexed, LexErrorKind>(
            Lexed { token: Some(Token::String(payload)), end: payload.len() as int + 2, lines: 0 },
        ),
{
    let s = seq![quote] + payload + seq![quote] + rest;
    assert(s[0] == quote);
    assert(payload.take(0) =~= Seq::<u8>::empty());
    lemma_short_body_plain(s, payload, quote, 0);
}

/// A byte written as a decimal escape: a backslash and three digits.
pub open spec fn decimal_escape(b: u8) -> Seq<u8> {
    seq![BACKSLASH, (48 + b / 100) as u8, (48 + (b / 10) % 10) as u8, (48 + b % 10) as u8]
}

/// A payload with each of its bytes written as a decimal escape.
pub open spec fn escaped(payload: Seq<u8>) -> Seq<u8>
    decreases payload.len(),
{
    if payload.len() == 0 {
        Seq::empty()
    } else {
        escaped(payload.drop_last()) + decimal_escape(payload.last())
    }
}

proof fn lemma_escaped(payload: Seq<u8>, i: int, j: int)
    requires
        0 <= i < payload.len(),
        0 <= j < 4,
    ensures
        escaped(payload).len() == 4 * payload.len(),
        escaped(payload)[4 * i + j] == decimal_escape(payload[i])[j],
    decreases payload.len(),
{
    lemma_escaped_length(payload.drop_last());
    if i < payload.len() - 1 {
        lemma_escaped(payload.drop_last(), i, j);
        assert(payload.drop_last()[i] == payload[i]);
    }
}

proof fn lemma_escaped_length(payload: Seq<u8>)
    ensures
        escaped(payload).len() == 4 * payload.len(),
    decreases payload.len(),
{
    if payload.len() > 0 {
        lemma_escaped_length(payload.drop_last());
    }
}

/// A decimal escape of three digits denotes the byte that was written.
proof fn lemma_decimal_escape(s: Seq<u8>, i: int, b: u8)
    requires
        0 <= i,
        i + 3 <= s.len(),
        s[i] == (48 + b / 100) as u8,
        s[i + 1] == (48 + (b / 10) % 10) as u8,
        s[i + 2] == (48 + b % 10) as u8,
    ensures
        spec_escape(s, i) == Ok::<Piece, LexErrorKind>(
            Piece { end: i + 3, bytes: seq![b], lines: 0 },
        ),
{
    reveal_with_fuel(digits_up_to, 4);
    reveal_with_fuel(digits_value, 4);
    assert(digits_up_to(s, i, 3) == 3);
    assert(digits_value(s, i, i + 3, false) == b);
}

proof fn lemma_short_body_escaped(s: Seq<u8>, payload: Seq<u8>, quote: u8, k: int)
    requires
        0 <= k <= payload.len(),
        quote == SINGLE_QUOTE || quote == DOUBLE_QUOTE,
        s.len() >= 4 * payload.len() + 2,
        forall|i: int, j: int|
            0 <= i < payload.len() && 0 <= j < 4 ==> #[trigger] s[1 + 4 * i + j] == decimal_escape(
                payload[i],
            )[j],
        s[1 + 4 * payload.len() as int] == quote,
    ensures
        short_body(s, 1 + 4 * k, quote, payload.take(k), 0) == Ok::<Piece, LexErrorKind>(
            Piece { end: 4 * payload.len() as int + 2, bytes: payload, lines: 0 },
        ),
    decreases payload.len() - k,
{
    if k == payload.len() {
        assert(payload.take(k) =~= payload);
    } else {
        let at = 1 + 4 * k;
        assert(s[1 + 4 * k + 0] == decimal_escape(payload[k])[0]);
        assert(s[1 + 4 * k + 1] == decimal_escape(payload[k])[1]);
        assert(s[1 + 4 * k + 2] == decimal_escape(payload[k])[2]);
        assert(s[1 + 4 * k + 3] == decimal_escape(payload[k])[3]);
        assert(s[at] == BACKSLASH);
        lemma_decimal_escape(s, at + 1, payload[k]);
        assert(payload.take(k) + seq![payload[k]] =~= payload.take(k + 1));
        lemma_short_body_escaped(s, payload, quote, k + 1);
    }
}

/// Any payload, written between two quotes with each byte as a decimal
/// escape, is read back as it is, whatever follows.
pub proof fn lemma_escaped_string_round_trip(payload: Seq<u8>, quote: u8, rest: Seq<u8>)
    requires
        quote == SINGLE_QUOTE || quote == DOUBLE_QUOTE,
    ensures
        spec_short_string(seq![quote] + escaped(payload) + seq![quote] + rest, 0) == Ok::<
            Piece,
            LexErrorKind,
        >(Piece { end: 4 * payload.len() as int + 2, bytes: payload, lines: 0 }),
{
    let s = seq![quote] + escaped(payload) + seq![quote] + rest;
    lemma_escaped_length(payload);
    assert(s[0] == quote);
    assert forall|i: int, j: int| 0 <= i < payload.len() && 0 <= j < 4 implies #[trigger] s[1 + 4
        * i + j] == decimal_escape(payload[i])[j] by {
        lemma_escaped(payload, i, j);
        assert(s[1 + 4 * i + j] == escaped(payload)[4 * i + j]);
    }
    assert(payload.take(0) =~= Seq::<u8>::empty());
    lemma_short_body_escaped(s, payload, quote, 0);
}

/// The number of line feeds among the first `k` bytes.
pub open spec fn line_feeds(payload: Seq<u8>, k: int) -> int
    decreases k,
{
    if k <= 0 || k > payload.len() {
        0
    } else {
        line_feeds(payload, k - 1) + if payload[k - 1] == NEWLINE {
            1int
        } else {
            0int
        }
    }
}

/// Whether a payload can stand in a long string as it is: it holds no
/// closing bracket and no carriage return, and does not start with a
/// line feed.
pub open spec fn fits_long_string(payload: Seq<u8>) -> bool {
    &&& forall|i: int|
        0 <= i < payload.len() ==> #[trigger] payload[i] != RIGHT_BRACKET && payload[i]
            != CARRIAGE_RETURN
    &&& payload.len() > 0 ==> payload[0] != NEWLINE
}

/// A long bracket of a level: the bracket byte, `level` equals signs, and
/// the bracket byte again.
pub open spec fn long_bracket(bracket: u8, level: nat) -> Seq<u8> {
    seq![bracket] + repeat(EQUALS, level) + seq![bracket]
}

proof fn lemma_run_length_exact(s: Seq<u8>, i: int, c: u8, n: nat)
    requires
        0 <= i,
        i + n <= s.len(),
        forall|j: int| i <= j < i + n ==> s[j] == c,
        at(s, i + n) != Some(c),
    ensures
        run_length(s, i, c) == n,
    decreases n,
{
    if n > 0 {
        lemma_run_length_exact(s, i + 1, c, (n - 1) as nat);
    }
}

proof fn lemma_long_body_plain(s: Seq<u8>, payload: Seq<u8>, level: nat, k: int)
    requires
        0 <= k <= payload.len(),
        fits_long_string(payload),
        s.len() >= payload.len() as int + 2 * level + 4,
        forall|i: int| 0 <= i < payload.len() ==> s[level + 2 + i] == payload[i],
        s[level as int + 2 + payload.len()] == RIGHT_BRACKET,
        forall|j: int|
            level + 3 + payload.len() <= j < 2 * level + 3 + payload.len() ==> s[j] == EQUALS,
        s[2 * level as int + 3 + payload.len()] == RIGHT_BRACKET,
    ensures
        long_body(s, level + 2 + k, level, payload.take(k), line_feeds(payload, k)) == Ok::<
            Piece,
            LexErrorKind,
        >(
            Piece {
                end: payload.len() as int + 2 * level + 4,
                bytes: payload,
                lines: line_feeds(payload, payload.len() as int),
            },
        ),
    decreases payload.len() - k,
{
    let i = level + 2 + k;
    if k == payload.len() {
        assert(payload.take(k) =~= payload);
        lemma_run_length_exact(s, i + 1, EQUALS, level);
    } else {
        assert(s[i] == payload[k]);
        assert(payload.take(k).push(payload[k]) =~= payload.take(k + 1));
        if payload[k] == NEWLINE {
            assert(payload.take(k).push(NEWLINE) =~= payload.take(k + 1));
            if k + 1 < payload.len() {
                assert(s[i + 1] == payload[k + 1]);
            }
            assert(spec_line_end(s, i) == 1);
        }
        lemma_long_body_plain(s, payload, level, k + 1);
    }
}

/// A payload without closing brackets and carriage returns that does not
/// start with a line feed, written between long brackets of any level, is
/// read back as it is, whatever follows; its line feeds are the line ends.
pub proof fn lemma_long_string_round_trip(payload: Seq<u8>, level: nat, rest: Seq<u8>)
    requires
        fits_long_string(payload),
    ensures
        spec_long_string(
            long_bracket(LEFT_BRACKET, level) + payload + long_bracket(RIGHT_BRACKET, level)
                + rest,
            0,
        ) == Ok::<Piece, LexErrorKind>(
            Piece {
                end: payload.len() as int + 2 * level + 4,
                bytes: payload,
                lines: line_feeds(payload, payload.len() as int),
            },
        ),
{
    let s = long_bracket(LEFT_BRACKET, level) + payload + long_bracket(RIGHT_BRACKET, level)
        + rest;
    assert(s[0] == LEFT_BRACKET);
    assert forall|j: int| 1 <= j < 1 + level implies s[j] == EQUALS by {}
    assert(s[1 + level as int] == LEFT_BRACKET);
    lemma_run_length_exact(s, 1, EQUALS, level);
    assert(payload.take(0) =~= Seq::<u8>::empty());
    if payload.len() > 0 {
        assert(s[level as int + 2] == payload[0]);
    } else {
        assert(s[level as int + 2] == RIGHT_BRACKET);
    }
    lemma_long_body_plain(s, payload, level, 0);
}

/// A scanner over a source text: it hands out the tokens of the text
/// one by one.
pub struct Lexer {
    source: Vec<u8>,
    position: usize,
    line_number: u64,
}

/// The state of a scanner.
pub struct LexerModel {
    /// The text.
    pub source: Seq<u8>,
    /// Where the scanner stands in the text.
    pub position: int,
    /// The number of line ends before that position.
    pub line_number: int,
}

/// The token that comes next in a text from a position on, with the
/// line that it begins on, and the position and the line after it. The
/// line of an error is the line that the token begins on that cannot be
/// read.
pub open spec fn spec_next(s: Seq<u8>, position: int, line: int) -> Result<
    (NextToken<Seq<u8>>, int, int),
    LexError,
> {
    match spec_skip_whitespace(s, position, 0) {
        Err((kind, lines)) => Err(LexError { kind, line_number: (line + lines) as u64 }),
        Ok((start, lines)) => match spec_lex(s, start) {
            Err(kind) => Err(LexError { kind, line_number: (line + lines) as u64 }),
            Ok(lexed) => Ok(
                (
                    match lexed.token {
                        Some(token) => NextToken::Next {
                            token,
                            line_number: (line + lines) as u64,
                        },
                        None => NextToken::End,
                    },
                    lexed.end,
                    line + lines + lexed.lines,
                ),
            ),
        },
    }
}

impl View for Lexer {
    type V = LexerModel;

    closed spec fn view(&self) -> LexerModel {
        LexerModel {
            source: self.source@,
            position: self.position as int,
            line_number: self.line_number as int,
        }
    }
}

impl Lexer {
    #[verifier::type_invariant]
    spec fn well_formed(self) -> bool {
        self.line_number <= self.position <= self.source.len()
    }

    /// A scanner at the start of a text.
    pub fn new(source: Vec<u8>) -> (r: Lexer)
        ensures
            r@ == (LexerModel { source: source@, position: 0, line_number: 0 }),
    {
        Lexer { source, position: 0, line_number: 0 }
    }

    /// The line that the scanner stands on, counted from 0.
    pub fn line_number(&self) -> (r: u64)
        ensures
            r == self@.line_number,
    {
        self.line_number
    }

    /// The position in the text that the scanner stands at.
    pub fn position(&self) -> (r: usize)
        ensures
            r == self@.position,
    {
        self.position
    }

    /// Reads the next token: passes white space and comments, and then
    /// reads the longest token that starts there. Returns `End` at the end
    /// of the text. An error leaves the scanner where it is.
    pub fn next(&mut self) -> (r: Result<NextToken<Vec<u8>>, LexError>)
        ensures
            match spec_next(old(self)@.source, old(self)@.position, old(self)@.line_number) {
                Ok((token, position, line_number)) => {
                    &&& r matches Ok(t) && t@ == token
                    &&& final(self)@ == (LexerModel {
                        source: old(self)@.source,
                        position,
                        line_number,
                    })
                },
                Err(e) => {
                    &&& r == Err::<NextToken<Vec<u8>>, LexError>(e)
                    &&& final(self)@ == old(self)@
                },
            },
    {
        proof {
            use_type_invariant(&*self);
        }
        let line = self.line_number;
        match skip_whitespace(&self.source, self.position) {
            Err((kind, lines)) => Err(LexError { kind, line_number: line + lines }),
            Ok((start, lines)) => {
                let line_number = line + lines;
                match lex(&self.source, start) {
                    Err(kind) => Err(LexError { kind, line_number }),
                    Ok((token, end, more)) => {
                        self.position = end;
                        self.line_number = line_number + more;
                        match token {
                            Some(token) => Ok(NextToken::Next { token, line_number }),
                            None => Ok(NextToken::End),
                        }
                    },
                }
            },
        }
    }
}

/// White space and comments end within the text.
pub proof fn lemma_skip_whitespace_bounds(s: Seq<u8>, i: int, lines: int)
    requires
        0 <= i <= s.len(),
    ensures
        spec_skip_whitespace(s, i, lines) matches Ok((end, _)) ==> i <= end <= s.len(),
    decreases s.len() - i,
{
    if i >= s.len() {
    } else if spec_is_newline(s[i]) {
        lemma_skip_whitespace_bounds(s, i + spec_line_end(s, i), lines + 1);
    } else if spec_is_space(s[i]) {
        lemma_skip_whitespace_bounds(s, i + 1, lines);
    } else if comment_starts(s, i) {
        lemma_comment_bounds(s, i);
        if let Ok((end, more)) = spec_comment(s, i) {
            lemma_skip_whitespace_bounds(s, end, lines + more);
        }
    }
}

/// A short string body ends after where it starts and within the text.
pub proof fn lemma_short_body_bounds(s: Seq<u8>, i: int, quote: u8, bytes: Seq<u8>, lines: int)
    requires
        0 <= i <= s.len(),
    ensures
        short_body(s, i, quote, bytes, lines) matches Ok(piece) ==> i < piece.end <= s.len(),
    decreases s.len() - i,
{
    if i >= s.len() || spec_is_newline(s[i]) {
    } else if s[i] == BACKSLASH {
        lemma_escape_bounds(s, i + 1);
        if let Ok(piece) = spec_escape(s, i + 1) {
            lemma_short_body_bounds(s, piece.end, quote, bytes + piece.bytes, lines + piece.lines);
        }
    } else if s[i] == quote {
    } else {
        lemma_short_body_bounds(s, i + 1, quote, bytes.push(s[i]), lines);
    }
}

/// A token is at least one byte long and ends within the text.
pub proof fn lemma_lex_advances(s: Seq<u8>, i: int)
    requires
        0 <= i <= s.len(),
        s.len() <= usize::MAX,
    ensures
        spec_lex(s, i) matches Ok(lexed) ==> i <= lexed.end <= s.len() && (lexed.token is Some
            ==> i < lexed.end),
{
    if i < s.len() {
        let c = s[i];
        lemma_name_length_bound(s, i);
        lemma_numeral_bounds(s, i);
        if c == MINUS && followed_by(s, i, MINUS) {
            lemma_comment_bounds(s, i);
        } else if c == LEFT_BRACKET {
            lemma_long_string_bounds(s, i);
        } else if c == DOUBLE_QUOTE || c == SINGLE_QUOTE {
            lemma_short_body_bounds(s, i + 1, c, Seq::empty(), 0);
        }
    }
}

/// The token that comes next ends after the position and within the text.
pub proof fn lemma_next_advances(s: Seq<u8>, position: int, line: int)
    requires
        0 <= position <= s.len(),
        s.len() <= usize::MAX,
    ensures
        spec_next(s, position, line) matches Ok((next, end, _)) ==> position <= end <= s.len() && (
        next is Next ==> position < end),
{
    lemma_skip_whitespace_bounds(s, position, 0);
    if let Ok((start, _)) = spec_skip_whitespace(s, position, 0) {
        lemma_lex_advances(s, start);
    }
}

/// The tokens of a text from a position on, each with the line that it
/// begins on, up to the end of the text or to the first error.
pub open spec fn spec_tokens(s: Seq<u8>, position: int, line: int) -> Result<
    Seq<(Token<Seq<u8>>, u64)>,
    LexError,
>
    decreases s.len() - position,
    when 0 <= position <= s.len() <= usize::MAX
{
    match spec_next(s, position, line) {
        Err(e) => Err(e),
        Ok((NextToken::End, _, _)) => Ok(Seq::empty()),
        Ok((NextToken::Next { token, line_number }, end, after)) => {
            proof {
                lemma_next_advances(s, position, line);
            }
            match spec_tokens(s, end, after) {
                Err(e) => Err(e),
                Ok(rest) => Ok(seq![(token, line_number)] + rest),
            }
        },
    }
}

/// The tokens with their models.
pub open spec fn token_models(tokens: Seq<(Token<Vec<u8>>, u64)>) -> Seq<(Token<Seq<u8>>, u64)> {
    Seq::new(tokens.len(), |i: int| (tokens[i].0@, tokens[i].1))
}

impl Lexer {
    /// Reads the tokens that are left, each with the line that it begins
    /// on. After an error the scanner stands after the last token that was
    /// read.
    pub fn tokens(&mut self) -> (r: Result<Vec<(Token<Vec<u8>>, u64)>, LexError>)
        ensures
            final(self)@.source == old(self)@.source,
            match spec_tokens(old(self)@.source, old(self)@.position, old(self)@.line_number) {
                Ok(tokens) => r matches Ok(found) && token_models(found@) == tokens,
                Err(e) => r == Err::<Vec<(Token<Vec<u8>>, u64)>, LexError>(e),
            },
    {
        let mut found: Vec<(Token<Vec<u8>>, u64)> = Vec::new();
        let ghost whole = spec_tokens(self@.source, self@.position, self@.line_number);
        proof {
            use_type_invariant(&*self);
            assert(token_models(found@) =~= Seq::empty());
        }
        loop
            invariant
                self@.source == old(self)@.source,
                0 <= self@.position <= self@.source.len() <= usize::MAX,
                whole == spec_tokens(
                    old(self)@.source,
                    old(self)@.position,
                    old(self)@.line_number,
                ),
                match spec_tokens(self@.source, self@.position, self@.line_number) {
                    Ok(rest) => whole == Ok::<Seq<(Token<Seq<u8>>, u64)>, LexError>(
                        token_models(found@) + rest,
                    ),
                    Err(e) => whole == Err::<Seq<(Token<Seq<u8>>, u64)>, LexError>(e),
                },
            decreases self@.source.len() - self@.position,
        {
            proof {
                lemma_next_advances(self@.source, self@.position, self@.line_number);
            }
            let ghost before = token_models(found@);
            match self.next() {
                Err(e) => {
                    return Err(e);
                },
                Ok(NextToken::End) => {
                    proof {
                        assert(before + Seq::empty() =~= before);
                    }
                    return Ok(found);
                },
                Ok(NextToken::Next { token, line_number }) => {
                    let ghost model = token@;
                    found.push((token, line_number));
                    proof {
                        use_type_invariant(&*self);
                        assert(token_models(found@) =~= before.push((model, line_number)));
                        let rest = spec_tokens(self@.source, self@.position, self@.line_number);
                        if let Ok(more) = rest {
                            assert(before.push((model, line_number)) + more =~= before + (seq![
                                (model, line_number),
                            ] + more));
                        }
                    }
                },
            }
        }
    }
}

} // verus!
