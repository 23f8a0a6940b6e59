//! The tokenizer: what the tokens of a text are, and a cursor that reads
//! them one by one.

use vstd::prelude::*;
use crate::text::{chars_of, is_digit};

verus! {

/// What a token is, as far as its first character tells.
#[derive(Debug, Clone, Copy, PartialEq, Eq, Structural)]
pub enum TokenKind {
    String,
    Number,
    Symbol,
    Word,
}

/// A stretch of the source text: `start` is the position of its first
/// character, `end` the position after its last.
#[derive(Debug, Clone, Copy, PartialEq, Eq, Structural)]
pub struct Token {
    pub kind: TokenKind,
    pub start: usize,
    pub end: usize,
}

/// Space, tab, newline and carriage return separate tokens.
pub open spec fn is_blank(c: char) -> bool {
    c == ' ' || c == '\t' || c == '\n' || c == '\r'
}

/// The first position at or after `from` that holds a blank, or the end of
/// the text.
pub open spec fn word_end(text: Seq<char>, from: int) -> int
    decreases text.len() - from,
{
    if from >= text.len() {
        text.len() as int
    } else if is_blank(text[from]) {
        from
    } else {
        word_end(text, from + 1)
    }
}

/// The position of the quote that closes a string whose text starts at
/// `from`, or the end of the text if nothing closes it. Two quotes in a row
/// stand for a quote inside the string and close nothing.
pub open spec fn string_end(text: Seq<char>, from: int) -> int
    decreases text.len() - from,
{
    if from >= text.len() {
        text.len() as int
    } else if text[from] != '"' {
        string_end(text, from + 1)
    } else if from + 1 < text.len() && text[from + 1] == '"' {
        string_end(text, from + 2)
    } else {
        from
    }
}

/// The first position at or after `from` at which a token starts, or the
/// end of the text: blanks are passed over, and so is a comment, which runs
/// from a `#` to the end of its line.
pub open spec fn token_start(text: Seq<char>, from: int, in_comment: bool) -> int
    decreases text.len() - from,
{
    if from >= text.len() {
        text.len() as int
    } else if in_comment {
        token_start(text, from + 1, text[from] != '\n')
    } else if is_blank(text[from]) {
        token_start(text, from + 1, false)
    } else if text[from] == '#' {
        token_start(text, from + 1, true)
    } else {
        from
    }
}

/// The token that starts at `at`.
pub open spec fn token_at(text: Seq<char>, at: int) -> Token
    recommends
        0 <= at < text.len(),
{
    let first = text[at];
    if first == '"' {
        Token {
            kind: TokenKind::String,
            start: (at + 1) as usize,
            end: string_end(text, at + 1) as usize,
        }
    } else if first == ':' {
        Token {
            kind: TokenKind::Symbol,
            start: (at + 1) as usize,
            end: word_end(text, at + 1) as usize,
        }
    } else if is_digit(first) {
        Token { kind: TokenKind::Number, start: at as usize, end: word_end(text, at) as usize }
    } else {
        Token { kind: TokenKind::Word, start: at as usize, end: word_end(text, at) as usize }
    }
}

/// Where the tokenizer goes on after `token`: behind the closing quote of a
/// string, and at the end of any other token.
pub open spec fn resume(text: Seq<char>, token: Token) -> int {
    if token.kind == TokenKind::String && token.end < text.len() {
        token.end + 1
    } else {
        token.end as int
    }
}

/// The tokens of `text` from position `from` on.
pub open spec fn tokens_from(text: Seq<char>, from: int) -> Seq<Token>
    recommends
        0 <= from,
        text.len() <= usize::MAX,
    decreases text.len() - from,
{
    let at = token_start(text, from, false);
    if 0 <= from && at < text.len() <= usize::MAX {
        let token = token_at(text, at);
        proof {
            lemma_token_start(text, from, false);
            lemma_token_bounds(text, at);
        }
        seq![token] + tokens_from(text, resume(text, token))
    } else {
        Seq::empty()
    }
}

/// The tokens of `text`.
pub open spec fn tokens(text: Seq<char>) -> Seq<Token>
    recommends
        text.len() <= usize::MAX,
{
    tokens_from(text, 0)
}

/// `word_end` lies between its start and the end of the text; everything
/// before it is not blank, and it holds a blank unless it is the end.
pub proof fn lemma_word_end(text: Seq<char>, from: int)
    requires
        0 <= from <= text.len(),
    ensures
        from <= word_end(text, from) <= text.len(),
        forall|k: int| from <= k < word_end(text, from) ==> !is_blank(#[trigger] text[k]),
        word_end(text, from) < text.len() ==> is_blank(text[word_end(text, from)]),
    decreases text.len() - from,
{
    if from < text.len() && !is_blank(text[from]) {
        lemma_word_end(text, from + 1);
    }
}

/// `string_end` lies between its start and the end of the text.
pub proof fn lemma_string_end(text: Seq<char>, from: int)
    requires
        0 <= from <= text.len(),
    ensures
        from <= string_end(text, from) <= text.len(),
    decreases text.len() - from,
{
    if from < text.len() {
        if text[from] != '"' {
            lemma_string_end(text, from + 1);
        } else if from + 1 < text.len() && text[from + 1] == '"' {
            lemma_string_end(text, from + 2);
        }
    }
}

/// `token_start` lies between its start and the end of the text, and holds
/// neither a blank nor the `#` of a comment unless it is the end.
pub proof fn lemma_token_start(text: Seq<char>, from: int, in_comment: bool)
    requires
        0 <= from <= text.len(),
    ensures
        from <= token_start(text, from, in_comment) <= text.len(),
        token_start(text, from, in_comment) < text.len() ==> {
            &&& !is_blank(text[token_start(text, from, in_comment)])
            &&& text[token_start(text, from, in_comment)] != '#'
        },
    decreases text.len() - from,
{
    if from < text.len() {
        if in_comment {
            lemma_token_start(text, from + 1, text[from] != '\n');
        } else if is_blank(text[from]) {
            lemma_token_start(text, from + 1, false);
        } else if text[from] == '#' {
            lemma_token_start(text, from + 1, true);
        }
    }
}

/// A token lies inside the text, and the tokenizer goes on behind the place
/// where the token began.
pub proof fn lemma_token_bounds(text: Seq<char>, at: int)
    requires
        0 <= at < text.len() <= usize::MAX,
        !is_blank(text[at]),
    ensures
        at <= token_at(text, at).start <= token_at(text, at).end <= text.len(),
        at < resume(text, token_at(text, at)) <= text.len(),
{
    lemma_word_end(text, at);
    lemma_word_end(text, at + 1);
    lemma_string_end(text, at + 1);
}

/// Whether `ch` separates tokens.
pub fn is_space(ch: char) -> (space: bool)
    ensures
        space == is_blank(ch),
{
    match ch {
        ' ' | '\t' | '\n' | '\r' => true,
        _ => false,
    }
}

fn in_word(ch: char) -> (inside: bool)
    ensures
        inside == !is_blank(ch),
{
    !is_space(ch)
}

fn in_line(ch: char) -> (inside: bool)
    ensures
        inside == (ch != '\n'),
{
    ch != '\n'
}

fn in_string(ch: char) -> (inside: bool)
    ensures
        inside == (ch != '"'),
{
    ch != '"'
}

/// A run of blanks does not move the start of the next token.
proof fn lemma_skip_blanks(text: Seq<char>, from: int, to: int)
    requires
        0 <= from <= to <= text.len(),
        forall|k: int| from <= k < to ==> is_blank(#[trigger] text[k]),
    ensures
        token_start(text, from, false) == token_start(text, to, false),
    decreases to - from,
{
    if from < to {
        lemma_skip_blanks(text, from + 1, to);
    }
}

/// Inside a comment, characters other than the newline do not move the
/// start of the next token.
proof fn lemma_skip_comment(text: Seq<char>, from: int, to: int)
    requires
        0 <= from <= to <= text.len(),
        forall|k: int| from <= k < to ==> #[trigger] text[k] != '\n',
    ensures
        token_start(text, from, true) == token_start(text, to, true),
    decreases to - from,
{
    if from < to {
        lemma_skip_comment(text, from + 1, to);
    }
}

/// A run of characters other than the quote does not move the end of a
/// string.
proof fn lemma_skip_string(text: Seq<char>, from: int, to: int)
    requires
        0 <= from <= to <= text.len(),
        forall|k: int| from <= k < to ==> #[trigger] text[k] != '"',
    ensures
        string_end(text, from) == string_end(text, to),
    decreases to - from,
{
    if from < to {
        lemma_skip_string(text, from + 1, to);
    }
}

/// A run of characters other than blanks ends where `word_end` says, if a
/// blank or the end of the text follows it.
proof fn lemma_skip_word(text: Seq<char>, from: int, to: int)
    requires
        0 <= from <= to <= text.len(),
        forall|k: int| from <= k < to ==> !is_blank(#[trigger] text[k]),
        to < text.len() ==> is_blank(text[to]),
    ensures
        word_end(text, from) == to,
    decreases to - from,
{
    if from < to {
        lemma_skip_word(text, from + 1, to);
    }
}

/// A cursor into a source text.
#[derive(Debug)]
pub struct Lexer {
    /// The position of the next character to read.
    pub pos: usize,
}

impl Lexer {
    /// A cursor at the start of a text.
    pub fn new() -> (lexer: Lexer)
        ensures
            lexer.pos == 0,
    {
        Lexer { pos: 0 }
    }

    /// Moves over one character.
    pub fn consume_char(&mut self, text: &Vec<char>)
        requires
            old(self).pos < text.len(),
        ensures
            final(self).pos == old(self).pos + 1,
    {
        self.pos += 1;
    }

    /// Moves over characters as long as `p` holds of them, and returns the
    /// position reached: the first at which `p` fails, or the end of the
    /// text.
    pub fn consume_while<P: Fn(char) -> bool>(&mut self, text: &Vec<char>, p: P) -> (end: usize)
        requires
            old(self).pos <= text.len(),
            forall|c: char| call_requires(p, (c,)),
        ensures
            final(self).pos == end,
            old(self).pos <= end <= text.len(),
            forall|k: int|
                old(self).pos <= k < end ==> call_ensures(p, (#[trigger] text[k],), true),
            end < text.len() ==> call_ensures(p, (text[end as int],), false),
    {
        while self.pos < text.len()
            invariant
                old(self).pos <= self.pos <= text.len(),
                forall|c: char| call_requires(p, (c,)),
                forall|k: int|
                    old(self).pos <= k < self.pos ==> call_ensures(p, (#[trigger] text[k],), true),
            decreases text.len() - self.pos,
        {
            if !p(text[self.pos]) {
                return self.pos;
            }
            self.consume_char(text);
        }
        self.pos
    }

    /// Moves over blanks.
    pub fn consume_space(&mut self, text: &Vec<char>)
        requires
            old(self).pos <= text.len(),
        ensures
            old(self).pos <= final(self).pos <= text.len(),
            forall|k: int| old(self).pos <= k < final(self).pos ==> is_blank(#[trigger] text[k]),
            final(self).pos < text.len() ==> !is_blank(text[final(self).pos as int]),
    {
        self.consume_while(text, is_space);
    }

    /// Moves to the end of the line.
    pub fn consume_com(&mut self, text: &Vec<char>)
        requires
            old(self).pos <= text.len(),
        ensures
            old(self).pos <= final(self).pos <= text.len(),
            forall|k: int| old(self).pos <= k < final(self).pos ==> #[trigger] text[k] != '\n',
            final(self).pos < text.len() ==> text[final(self).pos as int] == '\n',
    {
        self.consume_while(text, in_line);
    }

    /// Reads the string whose opening quote is at the cursor.
    fn consume_str(&mut self, text: &Vec<char>) -> (token: Token)
        requires
            old(self).pos < text.len(),
            text[old(self).pos as int] == '"',
        ensures
            token == token_at(text@, old(self).pos as int),
            final(self).pos == resume(text@, token),
    {
        let start = self.pos + 1;
        proof {
            lemma_string_end(text@, start as int);
        }
        loop
            invariant
                start <= self.pos + 1,
                self.pos < text.len(),
                text[self.pos as int] == '"',
                start == old(self).pos + 1,
                text[old(self).pos as int] == '"',
                string_end(text@, start as int) == string_end(text@, self.pos + 1),
            decreases text.len() - self.pos,
        {
            self.consume_char(text);
            let ghost from = self.pos as int;
            let end = self.consume_while(text, in_string);
            proof {
                lemma_skip_string(text@, from, end as int);
            }
            if end >= text.len() {
                return Token { kind: TokenKind::String, start, end };
            }
            self.consume_char(text);
            if self.pos < text.len() && text[self.pos] == '"' {
                continue ;
            }
            return Token { kind: TokenKind::String, start, end };
        }
    }

    /// Reads the symbol whose colon is at the cursor.
    fn consume_sym(&mut self, text: &Vec<char>) -> (token: Token)
        requires
            old(self).pos < text.len(),
            text[old(self).pos as int] == ':',
        ensures
            token == token_at(text@, old(self).pos as int),
            final(self).pos == resume(text@, token),
    {
        let start = self.pos + 1;
        self.consume_char(text);
        let end = self.consume_while(text, in_word);
        proof {
            lemma_skip_word(text@, start as int, end as int);
        }
        Token { kind: TokenKind::Symbol, start, end }
    }

    /// Reads the number whose first digit is at the cursor.
    fn consume_num(&mut self, text: &Vec<char>) -> (token: Token)
        requires
            old(self).pos < text.len(),
            is_digit(text[old(self).pos as int]),
        ensures
            token == token_at(text@, old(self).pos as int),
            final(self).pos == resume(text@, token),
    {
        let start = self.pos;
        let end = self.consume_while(text, in_word);
        proof {
            lemma_skip_word(text@, start as int, end as int);
        }
        Token { kind: TokenKind::Number, start, end }
    }

    /// Reads the word that starts at the cursor.
    fn consume_word(&mut self, text: &Vec<char>) -> (token: Token)
        requires
            old(self).pos < text.len(),
            text[old(self).pos as int] != '"',
            text[old(self).pos as int] != ':',
            !is_digit(text[old(self).pos as int]),
        ensures
            token == token_at(text@, old(self).pos as int),
            final(self).pos == resume(text@, token),
    {
        let start = self.pos;
        let end = self.consume_while(text, in_word);
        proof {
            lemma_skip_word(text@, start as int, end as int);
        }
        Token { kind: TokenKind::Word, start, end }
    }

    /// Reads the next token, if the text holds one more, and leaves the
    /// cursor behind it.
    pub fn next(&mut self, text: &Vec<char>) -> (token: Option<Token>)
        requires
            old(self).pos <= text.len(),
        ensures
            final(self).pos <= text.len(),
            ({
                let at = token_start(text@, old(self).pos as int, false);
                if at < text.len() {
                    &&& token == Some(token_at(text@, at))
                    &&& final(self).pos == resume(text@, token_at(text@, at))
                } else {
                    &&& token is None
                    &&& final(self).pos == text.len()
                }
            }),
    {
        loop
            invariant
                self.pos <= text.len(),
                token_start(text@, old(self).pos as int, false) == token_start(
                    text@,
                    self.pos as int,
                    false,
                ),
            decreases text.len() - self.pos,
        {
            if self.pos >= text.len() {
                return None;
            }
            let ch = text[self.pos];
            let ghost at = self.pos as int;
            if ch == '#' {
                self.consume_char(text);
                self.consume_com(text);
                proof {
                    lemma_skip_comment(text@, at + 1, self.pos as int);
                }
            } else if is_space(ch) {
                self.consume_space(text);
                proof {
                    lemma_skip_blanks(text@, at, self.pos as int);
                }
            } else {
                let token = if ch == '"' {
                    self.consume_str(text)
                } else if ch == ':' {
                    self.consume_sym(text)
                } else if ch >= '0' && ch <= '9' {
                    self.consume_num(text)
                } else {
                    self.consume_word(text)
                };
                proof {
                    lemma_token_bounds(text@, at);
                }
                return Some(token);
            }
        }
    }
}

/// The tokens of `src`, in order.
pub fn tokenize(src: &str) -> (found: Vec<Token>)
    ensures
        found@ == tokens(src@),
{
    let text = chars_of(src);
    let mut found: Vec<Token> = Vec::new();
    let mut lexer = Lexer::new();
    loop
        invariant
            lexer.pos <= text.len(),
            text@ == src@,
            tokens(text@) == found@ + tokens_from(text@, lexer.pos as int),
        decreases text.len() - lexer.pos,
    {
        let ghost from = lexer.pos as int;
        proof {
            lemma_token_start(text@, from, false);
        }
        match lexer.next(&text) {
            None => {
                return found;
            },
            Some(token) => {
                proof {
                    lemma_token_bounds(text@, token_start(text@, from, false));
                }
                found.push(token);
            },
        }
    }
}

} // verus!
