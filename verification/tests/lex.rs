use stacklang::lex::{lex_source, produce_token, Symbol, Token};

fn all(source: &str) -> Vec<Token<'_>> {
    let mut stream = lex_source(source);
    let mut tokens = vec![];
    for _ in 0..=source.len() {
        match stream.next() {
            Some(token) => tokens.push(token),
            None => break,
        }
    }
    tokens
}

fn custom(spelling: &str) -> Token<'static> {
    Token::Sym(Symbol::Custom(spelling.to_string()))
}

#[test]
fn words_are_classified() {
    assert_eq!(
        all("+ - * / . dup swap rot true false = not and or if while def exec print"),
        vec![
            Token::Sym(Symbol::Add),
            Token::Sym(Symbol::Sub),
            Token::Sym(Symbol::Mul),
            Token::Sym(Symbol::Div),
            Token::Sym(Symbol::Pop),
            Token::Sym(Symbol::Dup),
            Token::Sym(Symbol::Swap),
            Token::Sym(Symbol::Rot),
            Token::Sym(Symbol::True),
            Token::Sym(Symbol::False),
            Token::Sym(Symbol::Eq),
            Token::Sym(Symbol::Not),
            Token::Sym(Symbol::And),
            Token::Sym(Symbol::Or),
            Token::Sym(Symbol::If),
            Token::Sym(Symbol::While),
            Token::Sym(Symbol::Def),
            Token::Sym(Symbol::Exec),
            Token::Sym(Symbol::Print),
        ]
    );
}

#[test]
fn other_words_are_custom() {
    assert_eq!(all("foo dupe"), vec![custom("foo"), custom("dupe")]);
}

#[test]
fn braces_open_and_close_blocks() {
    assert_eq!(all("{ x }"), vec![Token::OpenBlock, custom("x"), Token::CloseBlock]);
    assert_eq!(all("{}"), vec![custom("{}")]);
}

#[test]
fn a_leading_digit_makes_a_number() {
    assert_eq!(
        all("12 1.5 3x x3"),
        vec![Token::Num("12"), Token::Num("1.5"), Token::Num("3x"), custom("x3")]
    );
}

#[test]
fn strings_stand_between_quotes() {
    assert_eq!(all("\"a b\" c"), vec![Token::Str("a b"), custom("c")]);
    assert_eq!(all("\"\""), vec![Token::Str("")]);
}

#[test]
fn a_quote_drops_what_was_read_before_it() {
    assert_eq!(all("ab\"cd\" e"), vec![Token::Str("cd"), custom("e")]);
}

#[test]
fn a_string_without_its_closing_quote_is_invalid() {
    assert_eq!(all("\"abc"), vec![Token::Invalid("Invalid token".to_string()), custom("abc")]);
    assert_eq!(all("x \""), vec![custom("x"), Token::Invalid("Invalid token".to_string())]);
}

#[test]
fn spaces_and_tabs_separate() {
    assert_eq!(all("a\tb  c"), vec![custom("a"), custom("b"), custom("c")]);
    assert_eq!(all("a\nb"), vec![custom("a\nb")]);
}

#[test]
fn blanks_at_the_end_leave_an_empty_word() {
    assert_eq!(all("a "), vec![custom("a")]);
    assert_eq!(all("a  "), vec![custom("a"), custom("")]);
    assert_eq!(all(" "), vec![custom("")]);
    assert_eq!(all(""), vec![]);
}

#[test]
fn a_stream_ends_for_good() {
    let mut stream = lex_source("dup");
    assert_eq!(stream.next(), Some(Token::Sym(Symbol::Dup)));
    assert_eq!(stream.next(), None);
    assert_eq!(stream.next(), None);
}

#[test]
fn stream_positions_count_characters() {
    assert_eq!(
        all("\u{e9} \"\u{4e16}\u{754c}\" x"),
        vec![custom("\u{e9}"), Token::Str("\u{4e16}\u{754c}"), custom("x")]
    );
}

#[test]
fn produce_token_goes_by_the_flag_first() {
    assert_eq!(produce_token("12", true), Token::Num("12"));
    assert_eq!(produce_token("{", true), Token::Num("{"));
    assert_eq!(produce_token("{", false), Token::OpenBlock);
    assert_eq!(produce_token("}", false), Token::CloseBlock);
    assert_eq!(produce_token("12", false), custom("12"));
    assert_eq!(produce_token("while", false), Token::Sym(Symbol::While));
}
