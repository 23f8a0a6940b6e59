//! The compiler: from source text to a program.

use vstd::prelude::*;
use crate::cell::{instrs, Cell, Code, Instr, Op, Ops, Value};
use crate::compiler::{
    close_block, close_loop, compile, emit, feed, feed_all, finish, lemma_compile_well_formed,
    open_block, pushes_block, reserved, start, well_formed, Build,
};
use crate::intern::{global_symbol, intern_text};
use crate::lexer::{
    lemma_token_bounds, lemma_token_start, token_start, tokens, tokens_from, Lexer, Token,
    TokenKind,
};
use crate::text::{chars_of, parse_number, slice_of, spells, unescaped};

verus! {

/// The instructions of each of a sequence of blocks.
pub open spec fn blocks(outer: Seq<Vec<Op>>) -> Seq<Seq<Instr>> {
    outer.map_values(|block: Vec<Op>| instrs(block@))
}

/// The op that a reserved word stands for, if `word` is one that stands
/// for a single instruction.
fn reserved_op(word: &Vec<char>) -> (op: Option<Op>)
    ensures
        match op {
            Some(op) => reserved(word@) == Some(op@),
            None => reserved(word@) is None,
        },
{
    if spells(word, "false") {
        Some(Op::Push(Cell::False))
    } else if spells(word, "true") {
        Some(Op::Push(Cell::True))
    } else if spells(word, "def") {
        Some(Op::Def)
    } else if spells(word, "+") {
        Some(Op::Add)
    } else if spells(word, "*") {
        Some(Op::Mul)
    } else if spells(word, "-") {
        Some(Op::Sub)
    } else if spells(word, "/") {
        Some(Op::Div)
    } else if spells(word, ">") {
        Some(Op::Gt)
    } else if spells(word, ">=") {
        Some(Op::Gte)
    } else if spells(word, "<") {
        Some(Op::Lt)
    } else if spells(word, "<=") {
        Some(Op::Lte)
    } else if spells(word, "=") {
        Some(Op::Eq)
    } else if spells(word, ".") {
        Some(Op::Drop)
    } else if spells(word, "dup") {
        Some(Op::Dup)
    } else if spells(word, "swap") {
        Some(Op::Swap)
    } else if spells(word, "rot") {
        Some(Op::Rot)
    } else if spells(word, "-rot") {
        Some(Op::UnRot)
    } else if spells(word, "not") {
        Some(Op::Not)
    } else if spells(word, "exec") {
        Some(Op::Exec)
    } else {
        None
    }
}

/// Whether `op` pushes a block.
fn is_block_push(op: &Op) -> (block: bool)
    ensures
        block == pushes_block(op@),
{
    match op {
        Op::Push(Cell::Code(Code::Custom(_))) => true,
        _ => false,
    }
}

/// The compiler at work: the buffer, the open blocks around the current
/// one, and the current block.
struct Compiler {
    ops: Vec<Op>,
    outer: Vec<Vec<Op>>,
    current: Vec<Op>,
}

impl View for Compiler {
    type V = Build;

    closed spec fn view(&self) -> Build {
        Build { ops: instrs(self.ops@), outer: blocks(self.outer@), current: instrs(self.current@) }
    }
}

impl Compiler {
    fn new() -> (compiler: Compiler)
        ensures
            compiler@ == start(),
    {
        let compiler = Compiler { ops: Vec::new(), outer: Vec::new(), current: Vec::new() };
        assert(compiler@.outer =~= Seq::empty());
        assert(compiler@.current =~= Seq::empty());
        compiler
    }

    fn emit(&mut self, op: Op)
        ensures
            final(self)@ == emit(old(self)@, op@),
    {
        self.current.push(op);
        assert(self@.current =~= old(self)@.current.push(op@));
    }

    fn open_block(&mut self)
        ensures
            final(self)@ == open_block(old(self)@),
    {
        let mut enclosing: Vec<Op> = Vec::new();
        std::mem::swap(&mut self.current, &mut enclosing);
        self.outer.push(enclosing);
        assert(self@.outer =~= old(self)@.outer.push(old(self)@.current));
        assert(self@.current =~= Seq::empty());
    }

    fn close_block(&mut self) -> (closed: bool)
        ensures
            match close_block(old(self)@) {
                Some(b) => closed && final(self)@ == b,
                None => !closed,
            },
    {
        match self.outer.pop() {
            None => false,
            Some(mut enclosing) => {
                let sub_start = self.ops.len();
                self.ops.append(&mut self.current);
                self.ops.push(Op::Return);
                enclosing.push(Op::Push(Cell::Code(Code::Custom(sub_start))));
                self.current = enclosing;
                assert(self@.ops =~= (old(self)@.ops + old(self)@.current).push(Instr::Return));
                assert(self@.outer =~= old(self)@.outer.drop_last());
                assert(self@.current =~= old(self)@.outer.last().push(
                    Instr::Push(Value::Code(Code::Custom(sub_start))),
                ));
                true
            },
        }
    }

    fn close_loop(&mut self) -> (closed: bool)
        ensures
            match close_loop(old(self)@) {
                Some(b) => closed && final(self)@ == b,
                None => !closed,
            },
    {
        let n = self.current.len();
        if n >= 2 && is_block_push(&self.current[n - 2]) && is_block_push(&self.current[n - 1]) {
            let body = self.current[n - 1];
            self.current.set(n - 1, Op::Exec);
            self.current.push(body);
            self.current.push(Op::While);
            assert(self@.current =~= old(self)@.current.drop_last().push(Instr::Exec).push(
                old(self)@.current.last(),
            ).push(Instr::While));
            true
        } else {
            false
        }
    }

    /// Takes in one token. After a failure the compiler is of no use.
    fn feed(&mut self, text: &Vec<char>, token: Token) -> (fed: bool)
        requires
            token.start <= token.end <= text.len(),
        ensures
            match feed(old(self)@, text@, token) {
                Some(b) => fed && final(self)@ == b,
                None => !fed,
            },
    {
        let word = slice_of(text, token.start, token.end);
        match token.kind {
            TokenKind::Number => match parse_number(&word) {
                Some(n) => {
                    self.emit(Op::Push(Cell::Int(n)));
                    true
                },
                None => false,
            },
            TokenKind::String => {
                let plain = unescaped(&word);
                self.emit(Op::Push(Cell::Str(intern_text(&plain))));
                true
            },
            TokenKind::Symbol => {
                self.emit(Op::Push(Cell::Sym(global_symbol(&word))));
                true
            },
            TokenKind::Word => {
                if spells(&word, "{") {
                    self.open_block();
                    true
                } else if spells(&word, "}") {
                    self.close_block()
                } else if spells(&word, "if") {
                    self.emit(Op::CondPop);
                    self.emit(Op::Exec);
                    true
                } else if spells(&word, "while") {
                    self.close_loop()
                } else {
                    match reserved_op(&word) {
                        Some(op) => {
                            self.emit(op);
                        },
                        None => {
                            self.emit(Op::Call(global_symbol(&word)));
                        },
                    }
                    true
                }
            },
        }
    }

    fn finish(self) -> (program: Option<Ops>)
        ensures
            match finish(self@) {
                Some(p) => program matches Some(ops) && ops@ == p,
                None => program is None,
            },
    {
        if self.outer.len() > 0 {
            return None;
        }
        let mut ops = self.ops;
        let mut top_level = self.current;
        let start = ops.len();
        ops.append(&mut top_level);
        let program = Ops { ops, start };
        assert(program@.ops =~= self@.ops + self@.current);
        Some(program)
    }
}

/// Compiles the characters of a program.
pub fn parse_chars(text: &Vec<char>) -> (program: Option<Ops>)
    ensures
        match compile(text@) {
            Some(p) => program matches Some(ops) && ops@ == p && well_formed(p),
            None => program is None,
        },
{
    let mut compiler = Compiler::new();
    let mut lexer = Lexer::new();
    loop
        invariant
            lexer.pos <= text.len(),
            feed_all(start(), text@, tokens(text@)) == feed_all(
                compiler@,
                text@,
                tokens_from(text@, lexer.pos as int),
            ),
        decreases text.len() - lexer.pos,
    {
        let ghost from = lexer.pos as int;
        proof {
            lemma_token_start(text@, from, false);
        }
        match lexer.next(text) {
            None => {
                proof {
                    if compile(text@) is Some {
                        lemma_compile_well_formed(text@);
                    }
                }
                return compiler.finish();
            },
            Some(token) => {
                proof {
                    let at = token_start(text@, from, false);
                    lemma_token_bounds(text@, at);
                    let rest = tokens_from(text@, lexer.pos as int);
                    assert((seq![token] + rest).skip(1) =~= rest);
                }
                if !compiler.feed(text, token) {
                    return None;
                }
            },
        }
    }
}

/// Compiles a program: one flat buffer that holds every block before the
/// code that refers to it, and the top-level code last.
pub fn parse_string(src: &str) -> (program: Option<Ops>)
    ensures
        match compile(src@) {
            Some(p) => program matches Some(ops) && ops@ == p && well_formed(p),
            None => program is None,
        },
{
    let text = chars_of(src);
    parse_chars(&text)
}

} // verus!
