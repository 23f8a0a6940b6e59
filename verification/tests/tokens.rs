use stacklang::lexer::{is_space, tokenize, Lexer, Token, TokenKind};
use stacklang::text::{chars_of, parse_number, slice_of, spells, unescaped};

fn chars(s: &str) -> Vec<char> {
    s.chars().collect()
}

fn token(kind: TokenKind, start: usize, end: usize) -> Token {
    Token { kind, start, end }
}

#[test]
fn blanks_are_space_tab_newline_and_return() {
    assert!(is_space(' '));
    assert!(is_space('\t'));
    assert!(is_space('\n'));
    assert!(is_space('\r'));
    assert!(!is_space('a'));
    assert!(!is_space('#'));
}

#[test]
fn tokens_are_classified_by_their_first_character() {
    assert_eq!(
        tokenize("12 \"ab\" :inc dup"),
        vec![
            token(TokenKind::Number, 0, 2),
            token(TokenKind::String, 4, 6),
            token(TokenKind::Symbol, 9, 12),
            token(TokenKind::Word, 13, 16),
        ]
    );
}

#[test]
fn blanks_of_all_kinds_separate_tokens() {
    assert_eq!(
        tokenize(" a\tb\nc\r\nd  "),
        vec![
            token(TokenKind::Word, 1, 2),
            token(TokenKind::Word, 3, 4),
            token(TokenKind::Word, 5, 6),
            token(TokenKind::Word, 8, 9),
        ]
    );
}

#[test]
fn an_empty_text_has_no_tokens() {
    assert_eq!(tokenize(""), vec![]);
    assert_eq!(tokenize("  \n\t"), vec![]);
}

#[test]
fn a_comment_runs_to_the_end_of_its_line() {
    assert_eq!(
        tokenize("1 # two 3\n4 #"),
        vec![token(TokenKind::Number, 0, 1), token(TokenKind::Number, 10, 11)]
    );
    assert_eq!(tokenize("# only a comment"), vec![]);
}

#[test]
fn a_hash_inside_a_word_starts_no_comment() {
    assert_eq!(tokenize("a#b c"), vec![token(TokenKind::Word, 0, 3), token(TokenKind::Word, 4, 5)]);
}

#[test]
fn a_string_may_hold_blanks_and_hashes() {
    assert_eq!(
        tokenize("\"a # b\" c"),
        vec![token(TokenKind::String, 1, 6), token(TokenKind::Word, 8, 9)]
    );
}

#[test]
fn a_doubled_quote_does_not_end_a_string() {
    assert_eq!(
        tokenize("\"a\"\"b\" c"),
        vec![token(TokenKind::String, 1, 5), token(TokenKind::Word, 7, 8)]
    );
    assert_eq!(tokenize("\"\"\"\""), vec![token(TokenKind::String, 1, 3)]);
}

#[test]
fn an_empty_string_is_a_token() {
    assert_eq!(
        tokenize("\"\" x"),
        vec![token(TokenKind::String, 1, 1), token(TokenKind::Word, 3, 4)]
    );
}

#[test]
fn a_string_without_its_closing_quote_runs_to_the_end() {
    assert_eq!(tokenize("\"abc"), vec![token(TokenKind::String, 1, 4)]);
    assert_eq!(tokenize("\""), vec![token(TokenKind::String, 1, 1)]);
    assert_eq!(tokenize("\"a\"\""), vec![token(TokenKind::String, 1, 4)]);
}

#[test]
fn a_word_may_follow_a_string_at_once() {
    assert_eq!(
        tokenize("\"a\"b"),
        vec![token(TokenKind::String, 1, 2), token(TokenKind::Word, 3, 4)]
    );
}

#[test]
fn a_symbol_is_the_text_behind_its_colon() {
    assert_eq!(tokenize(":"), vec![token(TokenKind::Symbol, 1, 1)]);
    assert_eq!(tokenize(":a:b"), vec![token(TokenKind::Symbol, 1, 4)]);
}

#[test]
fn a_number_runs_to_the_next_blank() {
    assert_eq!(tokenize("12ab"), vec![token(TokenKind::Number, 0, 4)]);
    assert_eq!(tokenize("-5"), vec![token(TokenKind::Word, 0, 2)]);
}

#[test]
fn braces_are_words() {
    assert_eq!(
        tokenize("{ }"),
        vec![token(TokenKind::Word, 0, 1), token(TokenKind::Word, 2, 3)]
    );
    assert_eq!(tokenize("{}"), vec![token(TokenKind::Word, 0, 2)]);
}

#[test]
fn positions_count_characters() {
    assert_eq!(
        tokenize("\u{e9}t\u{e9} \"\u{4e16}\u{754c}\" x"),
        vec![
            token(TokenKind::Word, 0, 3),
            token(TokenKind::String, 5, 7),
            token(TokenKind::Word, 9, 10),
        ]
    );
}

#[test]
fn the_lexer_hands_out_one_token_at_a_time() {
    let text = chars("1 # c\n :a");
    let mut lexer = Lexer::new();
    assert_eq!(lexer.pos, 0);
    assert_eq!(lexer.next(&text), Some(token(TokenKind::Number, 0, 1)));
    assert_eq!(lexer.pos, 1);
    assert_eq!(lexer.next(&text), Some(token(TokenKind::Symbol, 8, 9)));
    assert_eq!(lexer.pos, 9);
    assert_eq!(lexer.next(&text), None);
    assert_eq!(lexer.pos, 9);
    assert_eq!(lexer.next(&text), None);
}

#[test]
fn the_lexer_resumes_behind_a_closing_quote() {
    let text = chars("\"ab\" c");
    let mut lexer = Lexer::new();
    assert_eq!(lexer.next(&text), Some(token(TokenKind::String, 1, 3)));
    assert_eq!(lexer.pos, 4);
}

#[test]
fn the_lexer_moves_over_characters() {
    let text = chars("ab  \n# x\ny");
    let mut lexer = Lexer::new();
    lexer.consume_char(&text);
    assert_eq!(lexer.pos, 1);
    assert_eq!(lexer.consume_while(&text, |ch| ch != ' '), 2);
    assert_eq!(lexer.pos, 2);
    lexer.consume_space(&text);
    assert_eq!(lexer.pos, 5);
    lexer.consume_com(&text);
    assert_eq!(lexer.pos, 8);
    lexer.consume_space(&text);
    assert_eq!(lexer.pos, 9);
    assert_eq!(lexer.consume_while(&text, |_| true), 10);
    assert_eq!(lexer.consume_while(&text, |_| true), 10);
}

#[test]
fn chars_of_keeps_every_character() {
    assert_eq!(chars_of("a\u{e9}\u{4e16}"), vec!['a', '\u{e9}', '\u{4e16}']);
    assert_eq!(chars_of(""), vec![]);
}

#[test]
fn slice_of_copies_a_stretch() {
    assert_eq!(slice_of(&chars("hello"), 1, 3), vec!['e', 'l']);
    assert_eq!(slice_of(&chars("hello"), 2, 2), vec![]);
    assert_eq!(slice_of(&chars("hello"), 0, 5), chars("hello"));
}

#[test]
fn spells_compares_whole_words() {
    assert!(spells(&chars("dup"), "dup"));
    assert!(!spells(&chars("dup"), "du"));
    assert!(!spells(&chars("du"), "dup"));
    assert!(!spells(&chars("dup"), "dip"));
    assert!(spells(&chars(""), ""));
}

#[test]
fn numbers_are_runs_of_digits_that_fit() {
    assert_eq!(parse_number(&chars("0")), Some(0));
    assert_eq!(parse_number(&chars("007")), Some(7));
    assert_eq!(parse_number(&chars("1234567890")), Some(1234567890));
    assert_eq!(parse_number(&chars("9223372036854775807")), Some(i64::MAX));
    assert_eq!(parse_number(&chars("9223372036854775808")), None);
    assert_eq!(parse_number(&chars("99999999999999999999999")), None);
    assert_eq!(parse_number(&chars("")), None);
    assert_eq!(parse_number(&chars("12a")), None);
    assert_eq!(parse_number(&chars("1.5")), None);
    assert_eq!(parse_number(&chars("+1")), None);
    assert_eq!(parse_number(&chars("\u{661}")), None);
}

#[test]
fn unescaped_halves_doubled_quotes() {
    assert_eq!(unescaped(&chars("a\"\"b")), chars("a\"b"));
    assert_eq!(unescaped(&chars("\"\"")), chars("\""));
    assert_eq!(unescaped(&chars("\"\"\"\"")), chars("\"\""));
    assert_eq!(unescaped(&chars("\"\"\"")), chars("\"\""));
    assert_eq!(unescaped(&chars("abc")), chars("abc"));
    assert_eq!(unescaped(&chars("")), chars(""));
}
