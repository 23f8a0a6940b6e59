//! A word-at-a-time tokenizer: tokens are separated by spaces and tabs,
//! strings stand between quotes, and each word is classified as it is read.

use vstd::prelude::*;
use vstd::string::StringExecFns;
use crate::text::{chars_of, is_digit, spells};

verus! {

/// A word, classified: one of the reserved words, or any other.
#[derive(Debug, Clone, PartialEq)]
pub enum Symbol {
    Add,
    Sub,
    Mul,
    Div,
    Pop,
    Dup,
    Swap,
    Rot,
    True,
    False,
    Eq,
    Not,
    And,
    Or,
    If,
    While,
    Def,
    Exec,
    Print,
    Custom(String),
}

/// What a `Symbol` stands for.
pub enum Word {
    Add,
    Sub,
    Mul,
    Div,
    Pop,
    Dup,
    Swap,
    Rot,
    True,
    False,
    Eq,
    Not,
    And,
    Or,
    If,
    While,
    Def,
    Exec,
    Print,
    Custom(Seq<char>),
}

impl View for Symbol {
    type V = Word;

    open spec fn view(&self) -> Word {
        match *self {
            Symbol::Add => Word::Add,
            Symbol::Sub => Word::Sub,
            Symbol::Mul => Word::Mul,
            Symbol::Div => Word::Div,
            Symbol::Pop => Word::Pop,
            Symbol::Dup => Word::Dup,
            Symbol::Swap => Word::Swap,
            Symbol::Rot => Word::Rot,
            Symbol::True => Word::True,
            Symbol::False => Word::False,
            Symbol::Eq => Word::Eq,
            Symbol::Not => Word::Not,
            Symbol::And => Word::And,
            Symbol::Or => Word::Or,
            Symbol::If => Word::If,
            Symbol::While => Word::While,
            Symbol::Def => Word::Def,
            Symbol::Exec => Word::Exec,
            Symbol::Print => Word::Print,
            Symbol::Custom(spelling) => Word::Custom(spelling@),
        }
    }
}

/// A token. A number and a string carry their text as it stands in the
/// source; a number's text begins with a digit and is not examined further.
#[derive(Debug, PartialEq)]
pub enum Token<'a> {
    Num(&'a str),
    Str(&'a str),
    Sym(Symbol),
    Invalid(String),
    OpenBlock,
    CloseBlock,
}

/// What a `Token` stands for.
pub enum Lexeme {
    Num(Seq<char>),
    Str(Seq<char>),
    Sym(Word),
    Invalid(Seq<char>),
    OpenBlock,
    CloseBlock,
}

impl<'a> View for Token<'a> {
    type V = Lexeme;

    open spec fn view(&self) -> Lexeme {
        match *self {
            Token::Num(text) => Lexeme::Num(text@),
            Token::Str(text) => Lexeme::Str(text@),
            Token::Sym(symbol) => Lexeme::Sym(symbol@),
            Token::Invalid(message) => Lexeme::Invalid(message@),
            Token::OpenBlock => Lexeme::OpenBlock,
            Token::CloseBlock => Lexeme::CloseBlock,
        }
    }
}

/// The classification of a word by its spelling.
pub open spec fn classify(spelling: Seq<char>) -> Word {
    if spelling == "+"@ {
        Word::Add
    } else if spelling == "-"@ {
        Word::Sub
    } else if spelling == "*"@ {
        Word::Mul
    } else if spelling == "/"@ {
        Word::Div
    } else if spelling == "."@ {
        Word::Pop
    } else if spelling == "dup"@ {
        Word::Dup
    } else if spelling == "swap"@ {
        Word::Swap
    } else if spelling == "rot"@ {
        Word::Rot
    } else if spelling == "true"@ {
        Word::True
    } else if spelling == "false"@ {
        Word::False
    } else if spelling == "="@ {
        Word::Eq
    } else if spelling == "not"@ {
        Word::Not
    } else if spelling == "and"@ {
        Word::And
    } else if spelling == "or"@ {
        Word::Or
    } else if spelling == "if"@ {
        Word::If
    } else if spelling == "while"@ {
        Word::While
    } else if spelling == "def"@ {
        Word::Def
    } else if spelling == "exec"@ {
        Word::Exec
    } else if spelling == "print"@ {
        Word::Print
    } else {
        Word::Custom(spelling)
    }
}

/// The token that a stretch of text outside a string makes; `in_num` says
/// that it began with a digit.
pub open spec fn lexeme(spelling: Seq<char>, in_num: bool) -> Lexeme {
    if in_num {
        Lexeme::Num(spelling)
    } else if spelling == "{"@ {
        Lexeme::OpenBlock
    } else if spelling == "}"@ {
        Lexeme::CloseBlock
    } else {
        Lexeme::Sym(classify(spelling))
    }
}

/// Spaces and tabs separate tokens.
pub open spec fn is_separator(c: char) -> bool {
    c == ' ' || c == '\t'
}

/// The first position at or after `from` that does not hold a separator, or
/// the end of the text.
pub open spec fn skip_separators(text: Seq<char>, from: int) -> int
    decreases text.len() - from,
{
    if from >= text.len() {
        text.len() as int
    } else if is_separator(text[from]) {
        skip_separators(text, from + 1)
    } else {
        from
    }
}

/// The first position at or after `from` that holds a separator or a
/// quote, or the end of the text.
pub open spec fn token_stop(text: Seq<char>, from: int) -> int
    decreases text.len() - from,
{
    if from >= text.len() {
        text.len() as int
    } else if is_separator(text[from]) || text[from] == '"' {
        from
    } else {
        token_stop(text, from + 1)
    }
}

/// The first position at or after `from` that holds a quote, or the end of
/// the text.
pub open spec fn next_quote(text: Seq<char>, from: int) -> int
    decreases text.len() - from,
{
    if from >= text.len() {
        text.len() as int
    } else if text[from] == '"' {
        from
    } else {
        next_quote(text, from + 1)
    }
}

/// The message of the token that stands for a string without its closing
/// quote.
pub open spec fn unclosed() -> Seq<char> {
    "Invalid token"@
}

/// The token that is read from position `from`, and the position at which
/// reading goes on; `None` at the end of the text.
///
/// Separators are passed over. What follows, up to the next separator,
/// is a token, a number if it begins with a digit. A quote ends what was
/// read before it, which is dropped, and opens a string, which runs to the
/// next quote; without one the text is in error, and reading goes on behind
/// the opening quote. Where only separators are left, the empty word is read.
pub open spec fn scan(text: Seq<char>, from: int) -> Option<(Lexeme, int)> {
    if from >= text.len() {
        None
    } else {
        let begin = skip_separators(text, from);
        let stop = token_stop(text, begin);
        if stop < text.len() && text[stop] == '"' {
            let close = next_quote(text, stop + 1);
            if close < text.len() {
                Some((Lexeme::Str(text.subrange(stop + 1, close)), close + 1))
            } else {
                Some((Lexeme::Invalid(unclosed()), stop + 1))
            }
        } else {
            Some(
                (
                    lexeme(text.subrange(begin, stop), begin < text.len() && is_digit(text[begin])),
                    if stop < text.len() {
                        stop + 1
                    } else {
                        stop
                    },
                ),
            )
        }
    }
}

/// Classifies a word.
fn symbol_of(tok_str: &str) -> (symbol: Symbol)
    ensures
        symbol@ == classify(tok_str@),
{
    let word = chars_of(tok_str);
    if spells(&word, "+") {
        Symbol::Add
    } else if spells(&word, "-") {
        Symbol::Sub
    } else if spells(&word, "*") {
        Symbol::Mul
    } else if spells(&word, "/") {
        Symbol::Div
    } else if spells(&word, ".") {
        Symbol::Pop
    } else if spells(&word, "dup") {
        Symbol::Dup
    } else if spells(&word, "swap") {
        Symbol::Swap
    } else if spells(&word, "rot") {
        Symbol::Rot
    } else if spells(&word, "true") {
        Symbol::True
    } else if spells(&word, "false") {
        Symbol::False
    } else if spells(&word, "=") {
        Symbol::Eq
    } else if spells(&word, "not") {
        Symbol::Not
    } else if spells(&word, "and") {
        Symbol::And
    } else if spells(&word, "or") {
        Symbol::Or
    } else if spells(&word, "if") {
        Symbol::If
    } else if spells(&word, "while") {
        Symbol::While
    } else if spells(&word, "def") {
        Symbol::Def
    } else if spells(&word, "exec") {
        Symbol::Exec
    } else if spells(&word, "print") {
        Symbol::Print
    } else {
        Symbol::Custom(String::from_str(tok_str))
    }
}

/// Makes the token for a stretch of text outside a string.
pub fn produce_token<'a>(tok_str: &'a str, in_num: bool) -> (token: Token<'a>)
    ensures
        token@ == lexeme(tok_str@, in_num),
{
    if in_num {
        Token::Num(tok_str)
    } else {
        let word = chars_of(tok_str);
        if spells(&word, "{") {
            Token::OpenBlock
        } else if spells(&word, "}") {
            Token::CloseBlock
        } else {
            Token::Sym(symbol_of(tok_str))
        }
    }
}

/// A source text and a position in it, from which tokens are read one by
/// one.
pub struct TokenStream<'a> {
    src: &'a str,
    chars: Vec<char>,
    pos: usize,
}

impl<'a> TokenStream<'a> {
    /// The stream knows its text, and its position lies inside it.
    pub closed spec fn wf(&self) -> bool {
        self.chars@ == self.src@ && self.pos <= self.chars.len()
    }

    /// The text that is read.
    pub closed spec fn text(&self) -> Seq<char> {
        self.src@
    }

    /// The position from which the next token is read.
    pub closed spec fn position(&self) -> int {
        self.pos as int
    }

    /// Reads the next token; `None` at the end of the text.
    pub fn next(&mut self) -> (token: Option<Token<'a>>)
        requires
            old(self).wf(),
        ensures
            final(self).wf(),
            final(self).text() == old(self).text(),
            match scan(old(self).text(), old(self).position()) {
                Some((lexeme, position)) => {
                    &&& token matches Some(t) && t@ == lexeme
                    &&& final(self).position() == position
                },
                None => token is None && final(self).position() == old(self).position(),
            },
    {
        let len = self.chars.len();
        if self.pos >= len {
            return None;
        }
        let ghost text = self.chars@;
        let ghost from = self.pos as int;
        let mut begin = self.pos;
        while begin < len && (self.chars[begin] == ' ' || self.chars[begin] == '\t')
            invariant
                from <= begin <= len,
                len == text.len(),
                text == self.chars@,
                skip_separators(text, from) == skip_separators(text, begin as int),
            decreases len - begin,
        {
            begin += 1;
        }
        let mut stop = begin;
        while stop < len && !(self.chars[stop] == ' ' || self.chars[stop] == '\t'
            || self.chars[stop] == '"')
            invariant
                begin <= stop <= len,
                len == text.len(),
                text == self.chars@,
                token_stop(text, begin as int) == token_stop(text, stop as int),
            decreases len - stop,
        {
            stop += 1;
        }
        if stop < len && self.chars[stop] == '"' {
            let mut close = stop + 1;
            while close < len && self.chars[close] != '"'
                invariant
                    stop < close <= len,
                    len == text.len(),
                    text == self.chars@,
                    next_quote(text, stop + 1) == next_quote(text, close as int),
                decreases len - close,
            {
                close += 1;
            }
            if close < len {
                self.pos = close + 1;
                Some(Token::Str(self.src.substring_char(stop + 1, close)))
            } else {
                self.pos = stop + 1;
                Some(Token::Invalid(String::from_str("Invalid token")))
            }
        } else {
            let in_num = begin < len && self.chars[begin] >= '0' && self.chars[begin] <= '9';
            self.pos = if stop < len {
                stop + 1
            } else {
                stop
            };
            Some(produce_token(self.src.substring_char(begin, stop), in_num))
        }
    }
}

/// A stream of the tokens of `source`.
pub fn lex_source<'a>(source: &'a str) -> (stream: TokenStream<'a>)
    ensures
        stream.wf(),
        stream.text() == source@,
        stream.position() == 0,
{
    TokenStream { src: source, chars: chars_of(source), pos: 0 }
}

} // verus!
