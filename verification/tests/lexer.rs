use remember::lexer::{keyword_kind, Lexer, Loc, Token, TokenKind};
use remember::stream::{opening, Opening, Run};

fn lexer_on(text: &str) -> Lexer {
    Lexer::new(text.chars().collect(), None)
}

fn check(token: &Token, kind: TokenKind, text: &str, row: usize, col: usize) {
    assert_eq!(token.kind, kind);
    assert_eq!(token.text, text);
    assert_eq!(token.loc.row, row);
    assert_eq!(token.loc.col, col);
}

#[test]
fn rows_count_lines_and_skipped_comments() {
    let mut lexer = lexer_on("a\n#comment\nb");
    let a = lexer.next_token();
    check(&a, TokenKind::Str, "a", 1, 1);
    let b = lexer.next_token();
    check(&b, TokenKind::Str, "b", 3, 1);
    let end = lexer.next_token();
    check(&end, TokenKind::End, "", 3, 2);
    assert!(lexer.next().is_none());
}

#[test]
fn symbols_are_invalid_and_end_the_stream() {
    let mut lexer = lexer_on("sun; 12:30; \"hi\"");
    let tokens = lexer.tokens();
    assert_eq!(tokens.len(), 2);
    check(&tokens[0], TokenKind::Str, "sun", 1, 1);
    check(&tokens[1], TokenKind::Invalid, ";", 1, 4);
    assert!(lexer.is_exhausted());
    assert!(!lexer.has_token());
    assert!(lexer.next().is_none());
}

#[test]
fn values_between_blanks() {
    let mut lexer = lexer_on("sun 12 30 \"hi\" 'ho'");
    let tokens = lexer.tokens();
    assert_eq!(tokens.len(), 6);
    check(&tokens[0], TokenKind::Str, "sun", 1, 1);
    check(&tokens[1], TokenKind::Num, "12", 1, 5);
    check(&tokens[2], TokenKind::Num, "30", 1, 8);
    check(&tokens[3], TokenKind::Str, "hi", 1, 11);
    check(&tokens[4], TokenKind::Str, "ho", 1, 16);
    check(&tokens[5], TokenKind::End, "", 1, 20);
}

#[test]
fn unterminated_quote_is_one_unclosed_string() {
    let mut lexer = lexer_on("\"hi");
    let tokens = lexer.tokens();
    assert_eq!(tokens.len(), 2);
    check(&tokens[0], TokenKind::UnclosedStr, "hi", 1, 1);
    check(&tokens[1], TokenKind::End, "", 1, 4);
}

#[test]
fn a_quote_closes_only_with_its_own_kind() {
    let mut lexer = lexer_on("'a\"b' \"c'd");
    let tokens = lexer.tokens();
    assert_eq!(tokens.len(), 3);
    check(&tokens[0], TokenKind::Str, "a\"b", 1, 1);
    check(&tokens[1], TokenKind::UnclosedStr, "c'd", 1, 7);
    check(&tokens[2], TokenKind::End, "", 1, 11);
}

#[test]
fn empty_input_is_the_end() {
    let mut lexer = lexer_on("");
    assert!(lexer.has_token());
    let end = lexer.next_token();
    check(&end, TokenKind::End, "", 1, 1);
    assert!(lexer.is_exhausted());
    assert!(lexer.next().is_none());
    assert!(lexer.next().is_none());
}

#[test]
fn blank_lines_and_comments_only() {
    let mut lexer = lexer_on("  \n\n # one\n\t#two");
    let end = lexer.next_token();
    check(&end, TokenKind::End, "", 4, 6);
}

#[test]
fn comment_after_a_token_drops_the_rest_of_the_line() {
    let mut lexer = lexer_on("abc # def\n  12");
    let tokens = lexer.tokens();
    assert_eq!(tokens.len(), 3);
    check(&tokens[0], TokenKind::Str, "abc", 1, 1);
    check(&tokens[1], TokenKind::Num, "12", 2, 3);
    check(&tokens[2], TokenKind::End, "", 2, 5);
}

#[test]
fn columns_go_on_behind_a_closing_quote() {
    let mut lexer = lexer_on("\"ab\" cd");
    let tokens = lexer.tokens();
    check(&tokens[0], TokenKind::Str, "ab", 1, 1);
    check(&tokens[1], TokenKind::Str, "cd", 1, 6);
}

#[test]
fn newline_inside_a_string_begins_a_row() {
    let mut lexer = lexer_on("\"a\nb\" c");
    let tokens = lexer.tokens();
    check(&tokens[0], TokenKind::Str, "a\nb", 1, 1);
    check(&tokens[1], TokenKind::Str, "c", 2, 4);
}

#[test]
fn keywords_in_any_case() {
    let mut lexer = lexer_on("quit Q EXIT edit e Remind r list LS help h");
    let kinds: Vec<TokenKind> = lexer.tokens().iter().map(|t| t.kind).collect();
    assert_eq!(
        kinds,
        vec![
            TokenKind::Quit,
            TokenKind::Quit,
            TokenKind::Quit,
            TokenKind::Edit,
            TokenKind::Edit,
            TokenKind::Remind,
            TokenKind::Remind,
            TokenKind::List,
            TokenKind::List,
            TokenKind::Help,
            TokenKind::Help,
            TokenKind::End,
        ]
    );
}

#[test]
fn keyword_text_keeps_its_case() {
    let mut lexer = lexer_on("ReMinD");
    let token = lexer.next_token();
    check(&token, TokenKind::Remind, "ReMinD", 1, 1);
}

#[test]
fn words_that_are_no_keywords() {
    let mut lexer = lexer_on("quits lists x");
    let tokens = lexer.tokens();
    check(&tokens[0], TokenKind::Str, "quits", 1, 1);
    check(&tokens[1], TokenKind::Str, "lists", 1, 7);
    check(&tokens[2], TokenKind::Str, "x", 1, 13);
}

#[test]
fn keyword_table() {
    assert_eq!(keyword_kind("quit"), TokenKind::Quit);
    assert_eq!(keyword_kind("q"), TokenKind::Quit);
    assert_eq!(keyword_kind("exit"), TokenKind::Quit);
    assert_eq!(keyword_kind("edit"), TokenKind::Edit);
    assert_eq!(keyword_kind("e"), TokenKind::Edit);
    assert_eq!(keyword_kind("remind"), TokenKind::Remind);
    assert_eq!(keyword_kind("r"), TokenKind::Remind);
    assert_eq!(keyword_kind("list"), TokenKind::List);
    assert_eq!(keyword_kind("ls"), TokenKind::List);
    assert_eq!(keyword_kind("help"), TokenKind::Help);
    assert_eq!(keyword_kind("h"), TokenKind::Help);
    assert_eq!(keyword_kind("Quit"), TokenKind::Str);
    assert_eq!(keyword_kind(""), TokenKind::Str);
    assert_eq!(keyword_kind("l"), TokenKind::Str);
}

#[test]
fn a_word_ends_where_digits_begin() {
    let mut lexer = lexer_on("ab12cd");
    let tokens = lexer.tokens();
    check(&tokens[0], TokenKind::Str, "ab", 1, 1);
    check(&tokens[1], TokenKind::Num, "12", 1, 3);
    check(&tokens[2], TokenKind::Str, "cd", 1, 5);
}

#[test]
fn letters_beyond_ascii_make_words() {
    let mut lexer = lexer_on("\u{e9}t\u{e9} \u{c9}T\u{c9}");
    let tokens = lexer.tokens();
    check(&tokens[0], TokenKind::Str, "\u{e9}t\u{e9}", 1, 1);
    check(&tokens[1], TokenKind::Str, "\u{c9}T\u{c9}", 1, 5);
}

#[test]
fn numerals_beyond_ascii_make_numbers() {
    let mut lexer = lexer_on("\u{663}\u{664} 5");
    let tokens = lexer.tokens();
    check(&tokens[0], TokenKind::Num, "\u{663}\u{664}", 1, 1);
    check(&tokens[1], TokenKind::Num, "5", 1, 4);
}

#[test]
fn whitespace_beyond_ascii_is_skipped() {
    let mut lexer = lexer_on("\u{a0}\u{2003}ab\t\r12");
    let tokens = lexer.tokens();
    check(&tokens[0], TokenKind::Str, "ab", 1, 3);
    check(&tokens[1], TokenKind::Num, "12", 1, 7);
}

#[test]
fn peek_is_idempotent_and_does_not_take() {
    let mut lexer = lexer_on("ab 12");
    let first = lexer.peek_token().clone();
    let again = lexer.peek_token().clone();
    check(&first, TokenKind::Str, "ab", 1, 1);
    check(&again, TokenKind::Str, "ab", 1, 1);
    let taken = lexer.next_token();
    check(&taken, TokenKind::Str, "ab", 1, 1);
    let next = lexer.peek_token().clone();
    check(&next, TokenKind::Num, "12", 1, 4);
    let taken = lexer.next().unwrap();
    check(&taken, TokenKind::Num, "12", 1, 4);
}

#[test]
fn a_peeked_terminator_is_still_handed_out_once() {
    let mut lexer = lexer_on("  ");
    let seen = lexer.peek_token().clone();
    check(&seen, TokenKind::End, "", 1, 3);
    assert!(lexer.is_exhausted());
    assert!(lexer.has_token());
    let taken = lexer.next().unwrap();
    check(&taken, TokenKind::End, "", 1, 3);
    assert!(!lexer.has_token());
    assert!(lexer.next().is_none());
}

#[test]
fn expect_token_returns_the_token_either_way() {
    let mut lexer = lexer_on("ab 12 cd");
    match lexer.expect_token(TokenKind::Str) {
        Ok(token) => check(&token, TokenKind::Str, "ab", 1, 1),
        Err(_) => panic!("a word was expected"),
    }
    match lexer.expect_token(TokenKind::Str) {
        Ok(_) => panic!("a number is no word"),
        Err(token) => check(&token, TokenKind::Num, "12", 1, 4),
    }
    match lexer.expect_token(TokenKind::Str) {
        Ok(token) => check(&token, TokenKind::Str, "cd", 1, 7),
        Err(_) => panic!("a word was expected"),
    }
    match lexer.expect_token(TokenKind::End) {
        Ok(token) => check(&token, TokenKind::End, "", 1, 9),
        Err(_) => panic!("the end was expected"),
    }
}

#[test]
fn expect_token_takes_the_peeked_token() {
    let mut lexer = lexer_on("12 ab");
    let seen = lexer.peek_token().kind;
    assert_eq!(seen, TokenKind::Num);
    assert!(lexer.expect_token(TokenKind::Num).is_ok());
    assert!(lexer.expect_token(TokenKind::Str).is_ok());
}

#[test]
fn loc_is_where_the_lexer_stands() {
    let mut lexer = lexer_on("ab\n  cd");
    let at = lexer.loc();
    assert_eq!((at.row, at.col), (1, 1));
    lexer.next_token();
    let at = lexer.loc();
    assert_eq!((at.row, at.col), (1, 3));
    lexer.next_token();
    let at = lexer.loc();
    assert_eq!((at.row, at.col), (2, 5));
}

#[test]
fn tokens_carry_the_name_of_their_source() {
    let mut lexer = Lexer::new("ab".chars().collect(), Some(String::from("notes.rem")));
    let token = lexer.next_token();
    assert_eq!(token.loc.file_path.as_deref(), Some("notes.rem"));
    assert_eq!(lexer.loc().file_path.as_deref(), Some("notes.rem"));
    assert_eq!(token.loc.to_string(), "notes.rem:1:1");
    assert_eq!(token.to_string(), "ab at notes.rem:1:1");
}

#[test]
fn locations_as_text() {
    let loc = Loc { file_path: None, row: 12, col: 305 };
    assert_eq!(loc.to_string(), "12:305");
    let loc = Loc { file_path: Some(String::from("a b")), row: 1, col: 10 };
    assert_eq!(loc.to_string(), "a b:1:10");
    let token = Token { kind: TokenKind::Num, text: String::from("42"), loc: Loc { file_path: None, row: 3, col: 7 } };
    assert_eq!(token.to_string(), "42 at 3:7");
}

#[test]
fn terminal_kinds() {
    assert!(TokenKind::End.ends_stream());
    assert!(TokenKind::Invalid.ends_stream());
    assert!(!TokenKind::UnclosedStr.ends_stream());
    assert!(!TokenKind::Str.ends_stream());
    assert!(!TokenKind::Semicolon.ends_stream());
}

#[test]
fn clones_are_equal_field_by_field() {
    let token = Token {
        kind: TokenKind::Str,
        text: String::from("ab"),
        loc: Loc { file_path: Some(String::from("f")), row: 2, col: 3 },
    };
    let copy = token.clone();
    assert_eq!(copy.kind, token.kind);
    assert_eq!(copy.text, token.text);
    assert_eq!(copy.loc.file_path, token.loc.file_path);
    assert_eq!((copy.loc.row, copy.loc.col), (2, 3));
}

#[test]
fn tokens_mark_themselves() {
    let mut lexer = lexer_on("  dance 12");
    let word = lexer.next_token();
    assert_eq!(word.marker(), "   ^^^^^");
    let number = lexer.next_token();
    assert_eq!(number.marker(), "         ^^");
    let end = lexer.next_token();
    assert_eq!(end.marker(), "           ");
}

#[test]
fn the_first_character_shows_what_a_token_is() {
    assert_eq!(opening('"'), Opening::Quote);
    assert_eq!(opening('\''), Opening::Quote);
    assert_eq!(opening('a'), Opening::Letter);
    assert_eq!(opening('Z'), Opening::Letter);
    assert_eq!(opening('\u{e9}'), Opening::Letter);
    assert_eq!(opening('0'), Opening::Numeral);
    assert_eq!(opening('9'), Opening::Numeral);
    assert_eq!(opening('\u{663}'), Opening::Numeral);
    assert_eq!(opening(';'), Opening::Other);
    assert_eq!(opening(':'), Opening::Other);
    assert_eq!(opening('-'), Opening::Other);
    assert_eq!(opening('`'), Opening::Other);
}

#[test]
fn the_kind_of_a_token_by_its_beginning() {
    assert_eq!(Opening::Quote.token_kind(true, ""), TokenKind::Str);
    assert_eq!(Opening::Quote.token_kind(false, ""), TokenKind::UnclosedStr);
    assert_eq!(Opening::Quote.token_kind(true, "quit"), TokenKind::Str);
    assert_eq!(Opening::Letter.token_kind(true, "quit"), TokenKind::Quit);
    assert_eq!(Opening::Letter.token_kind(false, "ls"), TokenKind::List);
    assert_eq!(Opening::Letter.token_kind(true, "sun"), TokenKind::Str);
    assert_eq!(Opening::Numeral.token_kind(true, ""), TokenKind::Num);
    assert_eq!(Opening::Numeral.token_kind(true, "help"), TokenKind::Num);
    assert_eq!(Opening::Other.token_kind(true, ""), TokenKind::Invalid);
    assert_eq!(Opening::Other.token_kind(false, "r"), TokenKind::Invalid);
}

#[test]
fn what_each_run_keeps() {
    assert!(Run::Blank.accepts(' '));
    assert!(Run::Blank.accepts('\t'));
    assert!(!Run::Blank.accepts('\n'));
    assert!(!Run::Blank.accepts('a'));
    assert!(Run::Line.accepts(' '));
    assert!(Run::Line.accepts('#'));
    assert!(!Run::Line.accepts('\n'));
    assert!(Run::Quoted('"').accepts('\''));
    assert!(Run::Quoted('"').accepts('\n'));
    assert!(!Run::Quoted('"').accepts('"'));
    assert!(!Run::Quoted('\'').accepts('\''));
    assert!(Run::Letters.accepts('a'));
    assert!(!Run::Letters.accepts('1'));
    assert!(!Run::Letters.accepts(' '));
    assert!(Run::Numerals.accepts('1'));
    assert!(!Run::Numerals.accepts('a'));
}
