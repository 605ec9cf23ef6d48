use luster::lexer::{LexError, LexErrorKind, Lexer, NextToken, Token};

type Tok = Token<Vec<u8>>;

fn tokens(source: &str) -> Result<Vec<(Tok, u64)>, LexError> {
    let mut lexer = Lexer::new(source.as_bytes().to_vec());
    let mut out = Vec::new();
    loop {
        match lexer.next()? {
            NextToken::Next { token, line_number } => out.push((token, line_number)),
            NextToken::End => return Ok(out),
        }
    }
}

fn kinds(source: &str) -> Vec<Tok> {
    tokens(source).unwrap().into_iter().map(|(t, _)| t).collect()
}

fn error(source: &str) -> LexError {
    tokens(source).unwrap_err()
}

fn string(s: &str) -> Tok {
    Token::String(s.as_bytes().to_vec())
}

fn name(s: &str) -> Tok {
    Token::Name(s.as_bytes().to_vec())
}

fn number(s: &str) -> Tok {
    Token::Number(s.as_bytes().to_vec())
}

#[test]
fn long_strings_with_equals() {
    assert_eq!(kinds("[==[abc]=]def]==]"), vec![string("abc]=]def")]);
}

#[test]
fn escape_z_skips_white_space() {
    let mut lexer = Lexer::new(b"\"a\\z  \n  b\"".to_vec());
    assert_eq!(lexer.line_number(), 0);
    assert_eq!(
        lexer.next(),
        Ok(NextToken::Next { token: string("ab"), line_number: 0 })
    );
    assert_eq!(lexer.line_number(), 1);
    assert_eq!(lexer.next(), Ok(NextToken::End));
}

#[test]
fn numeric_boundary() {
    assert_eq!(kinds("9223372036854775807"), vec![Token::Integer(9223372036854775807)]);
    let above = kinds("9223372036854775808");
    assert_eq!(above, vec![number("9223372036854775808")]);
    match &above[0] {
        Token::Number(text) => {
            let value: f64 = std::str::from_utf8(text).unwrap().parse().unwrap();
            assert_eq!(value, 9.223372036854775808e18);
        }
        _ => unreachable!(),
    }
}

#[test]
fn keywords_and_names() {
    assert_eq!(
        kinds("break do else elseif end function goto if in local nil for while repeat until return then true false not and or"),
        vec![
            Token::Break, Token::Do, Token::Else, Token::ElseIf, Token::End, Token::Function,
            Token::Goto, Token::If, Token::In, Token::Local, Token::Nil, Token::For, Token::While,
            Token::Repeat, Token::Until, Token::Return, Token::Then, Token::True, Token::False,
            Token::Not, Token::And, Token::Or,
        ]
    );
    assert_eq!(
        kinds("breaks _do Else e1 x_9 elseif1 an"),
        vec![name("breaks"), name("_do"), name("Else"), name("e1"), name("x_9"), name("elseif1"), name("an")]
    );
}

#[test]
fn punctuation() {
    assert_eq!(
        kinds("+ - * / // % ^ & | ~ << >> # = == ~= < <= > >= ( ) { } [ ] :: : ; , . .. ..."),
        vec![
            Token::Plus, Token::Minus, Token::Times, Token::Div, Token::IDiv, Token::Mod,
            Token::Pow, Token::BitAnd, Token::BitOr, Token::BitNot, Token::ShiftLeft,
            Token::ShiftRight, Token::Len, Token::Assign, Token::Equal, Token::NotEqual,
            Token::Less, Token::LessEqual, Token::Greater, Token::GreaterEqual, Token::LeftParen,
            Token::RightParen, Token::LeftBrace, Token::RightBrace, Token::LeftBracket,
            Token::RightBracket, Token::DoubleColon, Token::Colon, Token::SemiColon, Token::Comma,
            Token::Dot, Token::Concat, Token::Dots,
        ]
    );
}

#[test]
fn longest_token_wins() {
    assert_eq!(kinds("a<=b"), vec![name("a"), Token::LessEqual, name("b")]);
    assert_eq!(kinds("<<="), vec![Token::ShiftLeft, Token::Assign]);
    assert_eq!(kinds("...."), vec![Token::Dots, Token::Dot]);
    assert_eq!(kinds(":::"), vec![Token::DoubleColon, Token::Colon]);
    assert_eq!(kinds("a.b"), vec![name("a"), Token::Dot, name("b")]);
    assert_eq!(kinds("1..2"), vec![Token::Integer(1), Token::Concat, Token::Integer(2)]);
    assert_eq!(kinds("a-b"), vec![name("a"), Token::Minus, name("b")]);
    assert_eq!(kinds("t[1]"), vec![name("t"), Token::LeftBracket, Token::Integer(1), Token::RightBracket]);
}

#[test]
fn line_numbers_count_each_newline_sequence_once() {
    let got = tokens("a\nb\rc\r\nd\n\re\n\nf\r\rg").unwrap();
    let lines: Vec<u64> = got.iter().map(|(_, l)| *l).collect();
    assert_eq!(lines, vec![0, 1, 2, 3, 4, 6, 8]);
}

#[test]
fn white_space_bytes_are_passed() {
    assert_eq!(kinds(" \t\x0b\x0c a \t"), vec![name("a")]);
    assert_eq!(kinds(""), vec![]);
    assert_eq!(kinds("  \n "), vec![]);
}

#[test]
fn short_comments_end_before_the_line_end() {
    let got = tokens("a -- comment [[ ]] \"x\nb --\n--[ not long\nc --[=x\nd").unwrap();
    assert_eq!(
        got,
        vec![(name("a"), 0), (name("b"), 1), (name("c"), 3), (name("d"), 4)]
    );
}

#[test]
fn long_comments_end_with_their_bracket() {
    let got = tokens("a --[[ one\n two ]] b --[==[ x ]] ]=] \n ]==] c").unwrap();
    assert_eq!(got, vec![(name("a"), 0), (name("b"), 1), (name("c"), 2)]);
}

#[test]
fn unfinished_long_comment() {
    assert_eq!(
        error("a\n--[[ never closed\n\n"),
        LexError { kind: LexErrorKind::UnfinishedLongComment, line_number: 1 }
    );
}

#[test]
fn long_string_keeps_other_brackets_and_normalizes_newlines() {
    assert_eq!(kinds("[[a]b]]"), vec![string("a]b")]);
    assert_eq!(kinds("[=[a]]b]=]"), vec![string("a]]b")]);
    assert_eq!(kinds("[=[a]==]b]=]"), vec![string("a]==]b")]);
    assert_eq!(kinds("[[a\r\nb\n\rc\rd\n\ne]]"), vec![string("a\nb\nc\nd\n\ne")]);
    assert_eq!(kinds("[[]]"), vec![string("")]);
    assert_eq!(kinds("[[\\n]]"), vec![string("\\n")]);
}

#[test]
fn long_string_drops_one_leading_newline() {
    assert_eq!(kinds("[[\nabc]]"), vec![string("abc")]);
    assert_eq!(kinds("[[\r\nabc]]"), vec![string("abc")]);
    assert_eq!(kinds("[[\n\nabc]]"), vec![string("\nabc")]);
    assert_eq!(kinds("[==[\n]==]"), vec![string("")]);
    let got = tokens("[[\na\nb]] c").unwrap();
    assert_eq!(got, vec![(string("a\nb"), 0), (name("c"), 2)]);
}

#[test]
fn long_string_errors() {
    assert_eq!(
        error("\n[[abc"),
        LexError { kind: LexErrorKind::UnfinishedLongString, line_number: 1 }
    );
    assert_eq!(
        error("[==[abc]=]"),
        LexError { kind: LexErrorKind::UnfinishedLongString, line_number: 0 }
    );
    assert_eq!(
        error("[=abc"),
        LexError { kind: LexErrorKind::InvalidLongStringDelimiter, line_number: 0 }
    );
    assert_eq!(
        error("[="),
        LexError { kind: LexErrorKind::InvalidLongStringDelimiter, line_number: 0 }
    );
}

#[test]
fn short_strings_and_letter_escapes() {
    assert_eq!(kinds("'abc' \"d'e\" 'f\"g'"), vec![string("abc"), string("d'e"), string("f\"g")]);
    assert_eq!(
        kinds(r#""\a\b\f\n\r\t\v\\\'\"""#),
        vec![Token::String(vec![7, 8, 12, 10, 13, 9, 11, b'\\', b'\'', b'"'])]
    );
    assert_eq!(kinds("''"), vec![string("")]);
}

#[test]
fn escaped_newline_is_kept_as_written() {
    let got = tokens("'a\\\nb' c").unwrap();
    assert_eq!(got, vec![(string("a\nb"), 0), (name("c"), 1)]);
    assert_eq!(kinds("'a\\\r\nb'"), vec![string("a\r\nb")]);
    assert_eq!(error("'a\\\n\nb'").kind, LexErrorKind::UnfinishedShortString);
}

#[test]
fn hexadecimal_escape() {
    assert_eq!(kinds(r#""\x41\x7a\xFf\x00""#), vec![Token::String(vec![0x41, 0x7a, 0xff, 0])]);
    assert_eq!(error(r#""\x4""#).kind, LexErrorKind::HexDigitExpected);
    assert_eq!(error(r#""\xg1""#).kind, LexErrorKind::HexDigitExpected);
    assert_eq!(error("\"\\x").kind, LexErrorKind::HexDigitExpected);
}

#[test]
fn unicode_escape() {
    assert_eq!(kinds(r#""\u{48}""#), vec![string("H")]);
    assert_eq!(kinds(r#""\u{e9}""#), vec![string("\u{e9}")]);
    assert_eq!(kinds(r#""\u{20AC}""#), vec![string("\u{20ac}")]);
    assert_eq!(kinds(r#""\u{1F600}""#), vec![string("\u{1F600}")]);
    assert_eq!(kinds(r#""\u{10FFFF}""#), vec![string("\u{10FFFF}")]);
    assert_eq!(kinds(r#""\u{7f}\u{80}\u{7ff}\u{800}\u{ffff}\u{10000}""#),
        vec![string("\u{7f}\u{80}\u{7ff}\u{800}\u{ffff}\u{10000}")]);
    assert_eq!(kinds(r#""\u{}""#), vec![Token::String(vec![0])]);
    assert_eq!(kinds(r#""\u{0000041}""#), vec![string("A")]);
    assert_eq!(error(r#""\u{110000}""#).kind, LexErrorKind::InvalidUnicode);
    assert_eq!(error(r#""\u{D800}""#).kind, LexErrorKind::InvalidUnicode);
    assert_eq!(error(r#""\u{DFFF}""#).kind, LexErrorKind::InvalidUnicode);
    assert_eq!(error(r#""\u{100000041}""#).kind, LexErrorKind::InvalidUnicode);
    assert_eq!(error(r#""\u{fffffffffffffffffffff}""#).kind, LexErrorKind::InvalidUnicode);
    assert_eq!(error(r#""\u48""#).kind, LexErrorKind::MissingLeftBrace);
    assert_eq!(error(r#""\u{48""#).kind, LexErrorKind::MissingRightBrace);
    assert_eq!(error(r#""\u{4g}""#).kind, LexErrorKind::MissingRightBrace);
}

#[test]
fn decimal_escape() {
    assert_eq!(kinds(r#""\65\066\0\255\2550\1a""#),
        vec![Token::String(vec![65, 66, 0, 255, 255, b'0', 1, b'a'])]);
    assert_eq!(error(r#""\256""#).kind, LexErrorKind::DecimalEscapeTooLarge);
    assert_eq!(error(r#""\999""#).kind, LexErrorKind::DecimalEscapeTooLarge);
}

#[test]
fn short_string_errors() {
    assert_eq!(
        error("x\n'abc"),
        LexError { kind: LexErrorKind::UnfinishedShortString, line_number: 1 }
    );
    assert_eq!(error("'abc\ndef'").kind, LexErrorKind::UnfinishedShortString);
    assert_eq!(error("'abc\rdef'").kind, LexErrorKind::UnfinishedShortString);
    assert_eq!(error("'abc\\").kind, LexErrorKind::UnfinishedShortString);
    assert_eq!(error("'abc\"").kind, LexErrorKind::UnfinishedShortString);
    assert_eq!(error(r#""\q""#).kind, LexErrorKind::InvalidEscape);
    assert_eq!(error(r#""\ ""#).kind, LexErrorKind::InvalidEscape);
}

#[test]
fn numerals() {
    assert_eq!(kinds("0 7 42 0x10 0XfF 0x7fffffffffffffff"),
        vec![Token::Integer(0), Token::Integer(7), Token::Integer(42), Token::Integer(16),
             Token::Integer(255), Token::Integer(i64::MAX)]);
    assert_eq!(kinds("0x8000000000000000"), vec![number("0x8000000000000000")]);
    assert_eq!(kinds("1.5 .5 1e10 1E+10 1e-10 3.25e2 0x1p+4 0x.8 0xA.8P-1"),
        vec![number("1.5"), number(".5"), number("1e10"), number("1E+10"), number("1e-10"),
             number("3.25e2"), number("0x1p+4"), number("0x.8"), number("0xA.8P-1")]);
    assert_eq!(kinds("3 .. 4"), vec![Token::Integer(3), Token::Concat, Token::Integer(4)]);
    assert_eq!(kinds("1."), vec![Token::Integer(1), Token::Dot]);
    assert_eq!(kinds("12abc"), vec![Token::Integer(12), name("abc")]);
    assert_eq!(kinds("00012"), vec![Token::Integer(12)]);
}

#[test]
fn malformed_numerals() {
    assert_eq!(error("1e").kind, LexErrorKind::MalformedNumber);
    assert_eq!(error("1e+").kind, LexErrorKind::MalformedNumber);
    assert_eq!(error("0x").kind, LexErrorKind::MalformedNumber);
    assert_eq!(error("0xg").kind, LexErrorKind::MalformedNumber);
    assert_eq!(error("0x1p").kind, LexErrorKind::MalformedNumber);
    assert_eq!(
        error("a\nb 1ex"),
        LexError { kind: LexErrorKind::MalformedNumber, line_number: 1 }
    );
}

#[test]
fn unexpected_character() {
    assert_eq!(
        error("a\n\n  $"),
        LexError { kind: LexErrorKind::UnexpectedCharacter(b'$'), line_number: 2 }
    );
    assert_eq!(error("@").kind, LexErrorKind::UnexpectedCharacter(b'@'));
    assert_eq!(error("\u{e9}").kind, LexErrorKind::UnexpectedCharacter(0xc3));
    assert_eq!(error("!").kind, LexErrorKind::UnexpectedCharacter(b'!'));
}

#[test]
fn an_error_leaves_the_scanner_where_it_is() {
    let mut lexer = Lexer::new(b"a\n 'x".to_vec());
    assert!(lexer.next().is_ok());
    let at = lexer.position();
    let first = lexer.next();
    assert_eq!(first, Err(LexError { kind: LexErrorKind::UnfinishedShortString, line_number: 1 }));
    assert_eq!(lexer.position(), at);
    assert_eq!(lexer.line_number(), 0);
    assert_eq!(lexer.next(), first);
}

#[test]
fn end_is_returned_again_and_again() {
    let mut lexer = Lexer::new(b"x -- the end".to_vec());
    assert_eq!(lexer.next(), Ok(NextToken::Next { token: name("x"), line_number: 0 }));
    assert_eq!(lexer.next(), Ok(NextToken::End));
    assert_eq!(lexer.next(), Ok(NextToken::End));
    assert_eq!(lexer.position(), 12);
}

#[test]
fn strings_round_trip() {
    // Quoting a payload and reading it again gives the payload.
    let payload: Vec<u8> = (0u8..=255).collect();
    let mut quoted = vec![b'"'];
    for &b in &payload {
        quoted.extend_from_slice(format!("\\{:03}", b).as_bytes());
    }
    quoted.push(b'"');
    let mut lexer = Lexer::new(quoted);
    assert_eq!(lexer.next(), Ok(NextToken::Next { token: Token::String(payload.clone()), line_number: 0 }));

    let plain: Vec<u8> = payload
        .iter()
        .copied()
        .filter(|&b| b != b'"' && b != b'\\' && b != b'\n' && b != b'\r')
        .collect();
    let mut quoted = vec![b'"'];
    quoted.extend_from_slice(&plain);
    quoted.push(b'"');
    let mut lexer = Lexer::new(quoted);
    assert_eq!(lexer.next(), Ok(NextToken::Next { token: Token::String(plain), line_number: 0 }));

    let long: Vec<u8> = payload.iter().copied().filter(|&b| b != b']' && b != b'\r').collect();
    let mut quoted = b"[[x".to_vec();
    quoted.extend_from_slice(&long);
    quoted.extend_from_slice(b"]]");
    let mut expected = vec![b'x'];
    expected.extend_from_slice(&long);
    let mut lexer = Lexer::new(quoted);
    assert_eq!(lexer.next(), Ok(NextToken::Next { token: Token::String(expected), line_number: 0 }));
}

#[test]
fn a_small_program() {
    let source = "local function add(a, b)\n  return a + b -- sum\nend\nprint(add(1, 2.5) .. 'x')\n";
    let got = tokens(source).unwrap();
    assert_eq!(
        got,
        vec![
            (Token::Local, 0), (Token::Function, 0), (name("add"), 0), (Token::LeftParen, 0),
            (name("a"), 0), (Token::Comma, 0), (name("b"), 0), (Token::RightParen, 0),
            (Token::Return, 1), (name("a"), 1), (Token::Plus, 1), (name("b"), 1),
            (Token::End, 2),
            (name("print"), 3), (Token::LeftParen, 3), (name("add"), 3), (Token::LeftParen, 3),
            (Token::Integer(1), 3), (Token::Comma, 3), (number("2.5"), 3), (Token::RightParen, 3),
            (Token::Concat, 3), (string("x"), 3), (Token::RightParen, 3),
        ]
    );
}

#[test]
fn all_the_tokens_at_once() {
    let mut lexer = Lexer::new(b"a = 'b'\n-- c\nreturn 1".to_vec());
    assert_eq!(
        lexer.tokens(),
        Ok(vec![
            (name("a"), 0),
            (Token::Assign, 0),
            (string("b"), 0),
            (Token::Return, 2),
            (Token::Integer(1), 2),
        ])
    );
    assert_eq!(lexer.tokens(), Ok(vec![]));
    assert_eq!(lexer.position(), 21);
    assert_eq!(lexer.line_number(), 2);

    let mut lexer = Lexer::new(b"a\nb $ c".to_vec());
    assert_eq!(
        lexer.tokens(),
        Err(LexError { kind: LexErrorKind::UnexpectedCharacter(b'$'), line_number: 1 })
    );
    // the scanner stands after the last token that was read
    assert_eq!(lexer.position(), 3);
    let mut one_by_one = Lexer::new(b"x y z".to_vec());
    assert_eq!(one_by_one.next(), Ok(NextToken::Next { token: name("x"), line_number: 0 }));
    assert_eq!(one_by_one.tokens(), Ok(vec![(name("y"), 0), (name("z"), 0)]));
}
