use array_lang::error::LexError;
use array_lang::lexer::{lex, InputClass, LexerAction, LexerState, Token};

fn texts(fragments: &[&str]) -> Vec<String> {
    fragments.iter().map(|s| s.to_string()).collect()
}

fn spans(tokens: &[Token]) -> String {
    let mut out = String::new();
    for t in tokens {
        match t {
            Token::Identifier(s) | Token::Operator(s) | Token::StringLiteral(s) => out.push_str(s),
            Token::Number(v) => {
                for s in v {
                    out.push_str(s);
                }
            }
            Token::Eol => out.push('\n'),
        }
    }
    out
}

fn without_blanks(s: &str) -> String {
    s.chars().filter(|c| *c != ' ' && *c != '\t').collect()
}

#[test]
fn classify_covers_every_class() {
    assert_eq!(InputClass::classify(' '), InputClass::Whitespace);
    assert_eq!(InputClass::classify('\t'), InputClass::Whitespace);
    assert_eq!(InputClass::classify('a'), InputClass::Letter);
    assert_eq!(InputClass::classify('Z'), InputClass::Letter);
    assert_eq!(InputClass::classify('0'), InputClass::Digit);
    assert_eq!(InputClass::classify('9'), InputClass::Digit);
    assert_eq!(InputClass::classify('_'), InputClass::Digit);
    assert_eq!(InputClass::classify('.'), InputClass::Dot);
    assert_eq!(InputClass::classify(':'), InputClass::Colon);
    assert_eq!(InputClass::classify('"'), InputClass::Quote);
    assert_eq!(InputClass::classify('\n'), InputClass::LF);
    assert_eq!(InputClass::classify('+'), InputClass::Other);
    assert_eq!(InputClass::classify('é'), InputClass::Other);
    assert_eq!(InputClass::classify('\r'), InputClass::Other);
}

#[test]
fn transition_follows_the_table() {
    assert_eq!(
        LexerState::transition(LexerState::Initial, Some(InputClass::Digit)),
        (LexerState::Num, LexerAction::Advance)
    );
    assert_eq!(
        LexerState::transition(LexerState::Whitespace, Some(InputClass::Whitespace)),
        (LexerState::Whitespace, LexerAction::NoAction)
    );
    assert_eq!(
        LexerState::transition(LexerState::Num, Some(InputClass::Whitespace)),
        (LexerState::Whitespace, LexerAction::AppendAndReset)
    );
    assert_eq!(
        LexerState::transition(LexerState::Num, Some(InputClass::Other)),
        (LexerState::Other, LexerAction::AppendAndAdvance)
    );
    assert_eq!(
        LexerState::transition(LexerState::Num, Some(InputClass::Colon)),
        (LexerState::Other, LexerAction::NoAction)
    );
    assert_eq!(
        LexerState::transition(LexerState::Initial, Some(InputClass::Colon)),
        (LexerState::Other, LexerAction::Advance)
    );
    assert_eq!(
        LexerState::transition(LexerState::Alphanum, Some(InputClass::Whitespace)),
        (LexerState::Whitespace, LexerAction::EmitAndReset)
    );
    assert_eq!(
        LexerState::transition(LexerState::Quote, Some(InputClass::Quote)),
        (LexerState::DoubleQuote, LexerAction::NoAction)
    );
    assert_eq!(
        LexerState::transition(LexerState::DoubleQuote, Some(InputClass::Quote)),
        (LexerState::Quote, LexerAction::NoAction)
    );
    assert_eq!(
        LexerState::transition(LexerState::Quote, Some(InputClass::LF)),
        (LexerState::Quote, LexerAction::NoAction)
    );
    assert_eq!(
        LexerState::transition(LexerState::Quote, None),
        (LexerState::LF, LexerAction::Stop)
    );
    assert_eq!(
        LexerState::transition(LexerState::Other, None),
        (LexerState::LF, LexerAction::EmitAndAdvance)
    );
    assert_eq!(
        LexerState::transition(LexerState::LF, Some(InputClass::Whitespace)),
        (LexerState::Whitespace, LexerAction::EmitAndAdvance)
    );
}

#[test]
fn emit_gives_the_token_of_the_state() {
    assert_eq!(Token::emit("+", LexerState::Other), Token::Operator("+".to_string()));
    assert_eq!(Token::emit("ab", LexerState::Alphanum), Token::Identifier("ab".to_string()));
    assert_eq!(Token::emit("12", LexerState::Num), Token::Number(texts(&["12"])));
    assert_eq!(
        Token::emit("\"a\"", LexerState::Quote),
        Token::StringLiteral("\"a\"".to_string())
    );
    assert_eq!(
        Token::emit("\"a\"", LexerState::DoubleQuote),
        Token::StringLiteral("\"a\"".to_string())
    );
    assert_eq!(Token::emit("\n", LexerState::LF), Token::Eol);
}

#[test]
fn append_extends_a_number() {
    let mut last = Token::Number(texts(&["1"]));
    assert_eq!(Token::append("2", LexerState::Num, Some(&mut last)), None);
    assert_eq!(last, Token::Number(texts(&["1", "2"])));
}

#[test]
fn append_emits_behind_other_tokens() {
    let mut last = Token::Identifier("x".to_string());
    assert_eq!(
        Token::append("2", LexerState::Num, Some(&mut last)),
        Some(Token::Number(texts(&["2"])))
    );
    assert_eq!(last, Token::Identifier("x".to_string()));
    assert_eq!(
        Token::append("2", LexerState::Num, None),
        Some(Token::Number(texts(&["2"])))
    );
    let mut number = Token::Number(texts(&["1"]));
    assert_eq!(
        Token::append("+", LexerState::Other, Some(&mut number)),
        Some(Token::Operator("+".to_string()))
    );
    assert_eq!(number, Token::Number(texts(&["1"])));
}

#[test]
fn lex_space_separated_numbers_as_one_token() {
    assert_eq!(lex("1 2 3").unwrap(), vec![Token::Number(texts(&["1", "2", "3"]))]);
}

#[test]
fn lex_number_then_identifier() {
    assert_eq!(
        lex("1  x").unwrap(),
        vec![Token::Number(texts(&["1"])), Token::Identifier("x".to_string())]
    );
}

#[test]
fn lex_unterminated_quote_fails() {
    assert_eq!(lex("\"abc"), Err(LexError::UnterminatedString { start: 0, end: 4 }));
    assert_eq!(lex("x \"abc"), Err(LexError::UnterminatedString { start: 2, end: 6 }));
    assert_eq!(lex("\"a\"\""), Err(LexError::UnterminatedString { start: 0, end: 4 }));
}

#[test]
fn lex_empty_input() {
    assert_eq!(lex("").unwrap(), Vec::<Token>::new());
    assert_eq!(lex("   \t ").unwrap(), Vec::<Token>::new());
}

#[test]
fn lex_line_with_line_feed() {
    assert_eq!(
        lex("1 2 3\n").unwrap(),
        vec![Token::Number(texts(&["1", "2", "3"])), Token::Eol]
    );
    assert_eq!(lex("\n").unwrap(), vec![Token::Eol]);
    assert_eq!(
        lex("a\n\nb").unwrap(),
        vec![
            Token::Identifier("a".to_string()),
            Token::Eol,
            Token::Eol,
            Token::Identifier("b".to_string())
        ]
    );
}

#[test]
fn lex_expression() {
    assert_eq!(
        lex("1 2 3 + i. 3\n").unwrap(),
        vec![
            Token::Number(texts(&["1", "2", "3"])),
            Token::Operator("+".to_string()),
            Token::Operator("i.".to_string()),
            Token::Number(texts(&["3"])),
            Token::Eol
        ]
    );
}

#[test]
fn lex_numbers_across_an_operator_do_not_merge() {
    assert_eq!(
        lex("1+2").unwrap(),
        vec![
            Token::Number(texts(&["1"])),
            Token::Operator("+".to_string()),
            Token::Number(texts(&["2"]))
        ]
    );
}

#[test]
fn lex_numeric_span_absorbs_letters_and_dots() {
    assert_eq!(lex("1.5e3 2x").unwrap(), vec![Token::Number(texts(&["1.5e3", "2x"]))]);
}

#[test]
fn lex_colon_and_dot_extend_operators() {
    assert_eq!(lex("*.").unwrap(), vec![Token::Operator("*.".to_string())]);
    assert_eq!(lex("=:").unwrap(), vec![Token::Operator("=:".to_string())]);
    assert_eq!(lex("ab.").unwrap(), vec![Token::Operator("ab.".to_string())]);
    assert_eq!(lex("1:").unwrap(), vec![Token::Operator("1:".to_string())]);
    assert_eq!(
        lex(": x").unwrap(),
        vec![Token::Operator(":".to_string()), Token::Identifier("x".to_string())]
    );
    assert_eq!(
        lex("+-").unwrap(),
        vec![Token::Operator("+".to_string()), Token::Operator("-".to_string())]
    );
}

#[test]
fn lex_string_literals() {
    assert_eq!(
        lex("\"a b\"").unwrap(),
        vec![Token::StringLiteral("\"a b\"".to_string())]
    );
    assert_eq!(
        lex("\"a\"\"b\" x").unwrap(),
        vec![
            Token::StringLiteral("\"a\"\"b\"".to_string()),
            Token::Identifier("x".to_string())
        ]
    );
    assert_eq!(
        lex("x\"a\nb\"").unwrap(),
        vec![
            Token::Identifier("x".to_string()),
            Token::StringLiteral("\"a\nb\"".to_string())
        ]
    );
}

#[test]
fn lex_counts_characters_not_bytes() {
    assert_eq!(
        lex("é \"ü").unwrap_err(),
        LexError::UnterminatedString { start: 2, end: 4 }
    );
    assert_eq!(
        lex("é x").unwrap(),
        vec![Token::Operator("é".to_string()), Token::Identifier("x".to_string())]
    );
}

#[test]
fn lex_succeeds_exactly_on_balanced_quotes() {
    let inputs = [
        "", "a", "\"", "\"\"", "\"\"\"", "a \"b\" c", "a \"b c", "1 2 \"x\" 3 \"", "\"\n\"",
        "\"a\"\"b\"", "x\"y\"z\"", "+ \" + \" + \" +",
    ];
    for input in inputs {
        let quotes = input.chars().filter(|c| *c == '"').count();
        assert_eq!(lex(input).is_ok(), quotes % 2 == 0, "{:?}", input);
    }
}

#[test]
fn lex_spans_reconstruct_the_input_but_for_blanks() {
    let inputs = [
        "1 2 3",
        "1  x",
        "  a   b\t c  ",
        "a\n  b\n",
        "x =: 1 2 3 + i. 2 3\n",
        "\n \n",
        "1 2+3 4",
        "ab12.c:d",
    ];
    for input in inputs {
        let tokens = lex(input).unwrap();
        assert_eq!(spans(&tokens), without_blanks(input), "{:?}", input);
    }
    let quoted = lex("a \"b  c\" d").unwrap();
    assert_eq!(spans(&quoted), "a\"b  c\"d");
}
