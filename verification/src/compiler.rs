//! What compiling means: the program that a text stands for, and what holds
//! of every such program.

use vstd::prelude::*;
use crate::cell::{Code, Instr, Program, Value};
use crate::intern::global;
use crate::lexer::{tokens, Token, TokenKind};
use crate::semantics::{loop_at, loop_header};
use crate::text::{number, unescape};

verus! {

/// The compiler's state between two tokens.
pub struct Build {
    /// The buffer: the blocks that are closed, each followed by a `Return`.
    pub ops: Seq<Instr>,
    /// The blocks that are open around the current one, outermost first.
    pub outer: Seq<Seq<Instr>>,
    /// The instructions of the innermost open block so far.
    pub current: Seq<Instr>,
}

/// The state before the first token: nothing emitted, and the top-level
/// block open and empty.
pub open spec fn start() -> Build {
    Build { ops: Seq::empty(), outer: Seq::empty(), current: Seq::empty() }
}

/// `instr` added to the current block.
pub open spec fn emit(b: Build, instr: Instr) -> Build {
    Build { current: b.current.push(instr), ..b }
}

/// A new, empty block opened inside the current one.
pub open spec fn open_block(b: Build) -> Build {
    Build { outer: b.outer.push(b.current), current: Seq::empty(), ..b }
}

/// The current block closed: its instructions and a `Return` go to the end
/// of the buffer, and the block around it gets a push of the address at
/// which they start. Fails at top level, where no block is open, and where
/// the address is too large to be one.
pub open spec fn close_block(b: Build) -> Option<Build> {
    if b.outer.len() == 0 || b.ops.len() > usize::MAX {
        None
    } else {
        Some(
            Build {
                ops: (b.ops + b.current).push(Instr::Return),
                outer: b.outer.drop_last(),
                current: b.outer.last().push(
                    Instr::Push(Value::Code(Code::Custom(b.ops.len() as usize))),
                ),
            },
        )
    }
}

/// Whether `instr` pushes a block.
pub open spec fn pushes_block(instr: Instr) -> bool {
    instr matches Instr::Push(Value::Code(Code::Custom(_)))
}

/// A loop made of the two blocks that the current block ends in, a
/// condition and a body: the condition is pushed and executed, which leaves
/// a flag, then the body is pushed, and `While` decides. Fails unless the
/// current block ends in two pushes of blocks.
pub open spec fn close_loop(b: Build) -> Option<Build> {
    let n = b.current.len();
    if n >= 2 && pushes_block(b.current[n - 2]) && pushes_block(b.current[n - 1]) {
        Some(
            Build {
                current: b.current.drop_last().push(Instr::Exec).push(b.current.last()).push(
                    Instr::While,
                ),
                ..b
            },
        )
    } else {
        None
    }
}

/// The instruction that a reserved word stands for, if `word` is one that
/// stands for a single instruction.
pub open spec fn reserved(word: Seq<char>) -> Option<Instr> {
    if word == "false"@ {
        Some(Instr::Push(Value::False))
    } else if word == "true"@ {
        Some(Instr::Push(Value::True))
    } else if word == "def"@ {
        Some(Instr::Def)
    } else if word == "+"@ {
        Some(Instr::Add)
    } else if word == "*"@ {
        Some(Instr::Mul)
    } else if word == "-"@ {
        Some(Instr::Sub)
    } else if word == "/"@ {
        Some(Instr::Div)
    } else if word == ">"@ {
        Some(Instr::Gt)
    } else if word == ">="@ {
        Some(Instr::Gte)
    } else if word == "<"@ {
        Some(Instr::Lt)
    } else if word == "<="@ {
        Some(Instr::Lte)
    } else if word == "="@ {
        Some(Instr::Eq)
    } else if word == "."@ {
        Some(Instr::Drop)
    } else if word == "dup"@ {
        Some(Instr::Dup)
    } else if word == "swap"@ {
        Some(Instr::Swap)
    } else if word == "rot"@ {
        Some(Instr::Rot)
    } else if word == "-rot"@ {
        Some(Instr::UnRot)
    } else if word == "not"@ {
        Some(Instr::Not)
    } else if word == "exec"@ {
        Some(Instr::Exec)
    } else {
        None
    }
}

/// What a word does to the compiler's state.
pub open spec fn feed_word(b: Build, word: Seq<char>) -> Option<Build> {
    if word == "{"@ {
        Some(open_block(b))
    } else if word == "}"@ {
        close_block(b)
    } else if word == "if"@ {
        Some(emit(emit(b, Instr::CondPop), Instr::Exec))
    } else if word == "while"@ {
        close_loop(b)
    } else {
        match reserved(word) {
            Some(instr) => Some(emit(b, instr)),
            None => Some(emit(b, Instr::Call(global(word)))),
        }
    }
}

/// What `token` does to the compiler's state, or `None` if the program is
/// wrong at this token.
pub open spec fn feed(b: Build, text: Seq<char>, token: Token) -> Option<Build> {
    let word = text.subrange(token.start as int, token.end as int);
    match token.kind {
        TokenKind::Number => match number(word) {
            Some(n) => Some(emit(b, Instr::Push(Value::Int(n)))),
            None => None,
        },
        TokenKind::String => Some(emit(b, Instr::Push(Value::Str(unescape(word))))),
        TokenKind::Symbol => Some(emit(b, Instr::Push(Value::Sym(global(word))))),
        TokenKind::Word => feed_word(b, word),
    }
}

/// The state after `tokens`, fed in order from state `b`.
pub open spec fn feed_all(b: Build, text: Seq<char>, tokens: Seq<Token>) -> Option<Build>
    decreases tokens.len(),
{
    if tokens.len() == 0 {
        Some(b)
    } else {
        match feed(b, text, tokens[0]) {
            Some(next) => feed_all(next, text, tokens.skip(1)),
            None => None,
        }
    }
}

/// The program that the final state stands for: the buffer, and behind it
/// the top-level block, at which execution starts. There is none if a block
/// is still open.
pub open spec fn finish(b: Build) -> Option<Program> {
    if b.outer.len() == 0 {
        Some(Program { ops: b.ops + b.current, start: b.ops.len() })
    } else {
        None
    }
}

/// The program that `text` compiles to, or `None` if it has none: because
/// of a number that is malformed or too large, a `}` without a `{` or a `{`
/// without a `}`, a `while` that does not follow two blocks, or a buffer
/// that outgrows the addresses.
pub open spec fn compile(text: Seq<char>) -> Option<Program> {
    match feed_all(start(), text, tokens(text)) {
        Some(b) => finish(b),
        None => None,
    }
}

/// Whether the block that `instr` pushes, if it pushes one, lies in
/// `ops[..limit]`: its address is followed there by a `Return`.
pub open spec fn block_lies_before(instr: Instr, ops: Seq<Instr>, limit: int) -> bool {
    match instr {
        Instr::Push(Value::Code(Code::Custom(address))) => exists|j: int|
            address <= j < limit && j < ops.len() && #[trigger] ops[j] == Instr::Return,
        _ => true,
    }
}

/// Every block that the buffer pushes lies before the push.
pub open spec fn blocks_precede(ops: Seq<Instr>) -> bool {
    forall|i: int| 0 <= i < ops.len() ==> block_lies_before(#[trigger] ops[i], ops, i)
}

/// Every block that `block` pushes lies in `ops`.
pub open spec fn blocks_emitted(block: Seq<Instr>, ops: Seq<Instr>) -> bool {
    forall|i: int|
        0 <= i < block.len() ==> block_lies_before(#[trigger] block[i], ops, ops.len() as int)
}

/// Every `While` stands behind its header: the push of a block, an `Exec`
/// and the push of another block.
pub open spec fn loops_have_headers(block: Seq<Instr>) -> bool {
    forall|i: int|
        0 <= i < block.len() && #[trigger] block[i] == Instr::While ==> {
            &&& i >= 3
            &&& pushes_block(block[i - 3])
            &&& block[i - 2] == Instr::Exec
            &&& pushes_block(block[i - 1])
        }
}

/// What holds of the compiler's state between any two tokens.
pub open spec fn orderly(b: Build) -> bool {
    &&& blocks_precede(b.ops)
    &&& loops_have_headers(b.ops)
    &&& blocks_emitted(b.current, b.ops)
    &&& loops_have_headers(b.current)
    &&& forall|k: int|
        0 <= k < b.outer.len() ==> blocks_emitted(#[trigger] b.outer[k], b.ops)
            && loops_have_headers(b.outer[k])
}

/// What holds of every compiled program: execution starts inside the
/// buffer or at its end, every pushed block lies before its push, and every
/// `While` stands behind its header.
pub open spec fn well_formed(program: Program) -> bool {
    &&& program.start <= program.ops.len()
    &&& blocks_precede(program.ops)
    &&& loops_have_headers(program.ops)
}

/// A block that lies in a stretch of the buffer still lies there when the
/// buffer and the stretch grow.
proof fn lemma_block_stays(instr: Instr, ops: Seq<Instr>, limit: int, more: Seq<Instr>, wider: int)
    requires
        block_lies_before(instr, ops, limit),
        limit <= wider,
    ensures
        block_lies_before(instr, ops + more, wider),
{
    match instr {
        Instr::Push(Value::Code(Code::Custom(address))) => {
            let j = choose|j: int|
                address <= j < limit && j < ops.len() && #[trigger] ops[j] == Instr::Return;
            assert((ops + more)[j] == Instr::Return);
        },
        _ => {},
    }
}

/// Closing a block keeps the compiler's state orderly.
proof fn lemma_close_block_orderly(b: Build)
    requires
        orderly(b),
        close_block(b) is Some,
    ensures
        orderly(close_block(b).unwrap()),
{
    let n = close_block(b).unwrap();
    let old_len = b.ops.len() as int;
    let tail = b.current.push(Instr::Return);
    assert forall|i: int| 0 <= i < n.ops.len() implies block_lies_before(
        #[trigger] n.ops[i],
        n.ops,
        i,
    ) by {
        if i < old_len {
            lemma_block_stays(b.ops[i], b.ops, i, tail, i);
        } else if i < old_len + b.current.len() {
            lemma_block_stays(b.current[i - old_len], b.ops, old_len, tail, i);
        }
    }
    let last = n.ops.len() - 1;
    assert(n.ops[last] == Instr::Return);
    let parent = b.outer.last();
    assert forall|i: int| 0 <= i < n.current.len() implies block_lies_before(
        #[trigger] n.current[i],
        n.ops,
        n.ops.len() as int,
    ) by {
        if i < parent.len() {
            lemma_block_stays(parent[i], b.ops, old_len, tail, n.ops.len() as int);
        }
    }
    assert forall|k: int| 0 <= k < n.outer.len() implies blocks_emitted(
        #[trigger] n.outer[k],
        n.ops,
    ) && loops_have_headers(n.outer[k]) by {
        assert forall|i: int| 0 <= i < n.outer[k].len() implies block_lies_before(
            #[trigger] n.outer[k][i],
            n.ops,
            n.ops.len() as int,
        ) by {
            lemma_block_stays(b.outer[k][i], b.ops, old_len, tail, n.ops.len() as int);
        }
    }
}

/// One token keeps the compiler's state orderly.
proof fn lemma_feed_orderly(b: Build, text: Seq<char>, token: Token)
    requires
        orderly(b),
        feed(b, text, token) is Some,
    ensures
        orderly(feed(b, text, token).unwrap()),
{
    let word = text.subrange(token.start as int, token.end as int);
    if token.kind == TokenKind::Word && word != "{"@ && word == "}"@ {
        lemma_close_block_orderly(b);
    }
}

/// Any number of tokens keep the compiler's state orderly.
proof fn lemma_feed_all_orderly(b: Build, text: Seq<char>, tokens: Seq<Token>)
    requires
        orderly(b),
        feed_all(b, text, tokens) is Some,
    ensures
        orderly(feed_all(b, text, tokens).unwrap()),
    decreases tokens.len(),
{
    if tokens.len() > 0 {
        lemma_feed_orderly(b, text, tokens[0]);
        lemma_feed_all_orderly(feed(b, text, tokens[0]).unwrap(), text, tokens.skip(1));
    }
}

/// Every program that the compiler produces is well formed: each block
/// that it pushes starts before the push and is followed, still before the
/// push, by a `Return`; and each `While` stands behind its header.
pub proof fn lemma_compile_well_formed(text: Seq<char>)
    requires
        compile(text) is Some,
    ensures
        well_formed(compile(text).unwrap()),
{
    let b = feed_all(start(), text, tokens(text)).unwrap();
    lemma_feed_all_orderly(start(), text, tokens(text));
    let program = compile(text).unwrap();
    let old_len = b.ops.len() as int;
    assert forall|i: int| 0 <= i < program.ops.len() implies block_lies_before(
        #[trigger] program.ops[i],
        program.ops,
        i,
    ) by {
        if i < old_len {
            lemma_block_stays(b.ops[i], b.ops, i, b.current, i);
        } else {
            lemma_block_stays(b.current[i - old_len], b.ops, old_len, b.current, i);
        }
    }
}

/// In a well-formed program every `While` closes a loop: its header
/// stands before it, and before the header there is room for the body to
/// return to it, so that the machine never misses the header of a compiled
/// loop.
pub proof fn lemma_compiled_loops(program: Program, i: int)
    requires
        well_formed(program),
        program.ops.len() <= usize::MAX,
        0 <= i < program.ops.len(),
        program.ops[i] == Instr::While,
    ensures
        i > loop_header(),
        ({
            let at = i - loop_header();
            exists|cond: usize, body: usize| #[trigger] loop_at(program.ops, at, cond, body)
        }),
{
    match (program.ops[i - 3], program.ops[i - 1]) {
        (
            Instr::Push(Value::Code(Code::Custom(cond))),
            Instr::Push(Value::Code(Code::Custom(body))),
        ) => {
            assert(loop_at(program.ops, i - loop_header(), cond, body));
        },
        _ => {},
    }
}

/// The compiler's state after the first `count` of `tokens`.
pub open spec fn state_after(text: Seq<char>, tokens: Seq<Token>, count: int) -> Option<Build> {
    feed_all(start(), text, tokens.take(count))
}

/// Whether `token` closes a block.
pub open spec fn closes_block(text: Seq<char>, token: Token) -> bool {
    token.kind == TokenKind::Word && text.subrange(token.start as int, token.end as int) == "}"@
}

/// The buffer only grows: a token leaves what was emitted in place.
pub proof fn lemma_feed_appends(b: Build, text: Seq<char>, token: Token)
    requires
        feed(b, text, token) is Some,
    ensures
        b.ops.len() <= feed(b, text, token).unwrap().ops.len(),
        feed(b, text, token).unwrap().ops.take(b.ops.len() as int) == b.ops,
{
}

/// A block that is closed starts where the buffer ended, the block around
/// it gets a push of that address, and the buffer grows.
pub proof fn lemma_close_block_address(b: Build, text: Seq<char>, token: Token)
    requires
        closes_block(text, token),
        feed(b, text, token) is Some,
    ensures
        feed(b, text, token).unwrap().current.last() == Instr::Push(
            Value::Code(Code::Custom(b.ops.len() as usize)),
        ),
        b.ops.len() as usize == b.ops.len(),
        b.ops.len() < feed(b, text, token).unwrap().ops.len(),
        feed(b, text, token).unwrap().ops.last() == Instr::Return,
{
    reveal_strlit("{");
    reveal_strlit("}");
}

/// Feeding one more token is feeding the tokens before it and then that
/// one.
proof fn lemma_feed_all_last(b: Build, text: Seq<char>, tokens: Seq<Token>, k: int)
    requires
        0 <= k < tokens.len(),
    ensures
        feed_all(b, text, tokens.take(k + 1)) == match feed_all(b, text, tokens.take(k)) {
            Some(m) => feed(m, text, tokens[k]),
            None => None,
        },
    decreases k,
{
    let longer = tokens.take(k + 1);
    if k == 0 {
        match feed(b, text, tokens[0]) {
            Some(n) => {
                assert(feed_all(n, text, longer.skip(1)) == Some(n));
            },
            None => {},
        }
    } else {
        let shorter = tokens.take(k);
        assert(longer.skip(1) =~= tokens.skip(1).take(k));
        assert(shorter.skip(1) =~= tokens.skip(1).take(k - 1));
        match feed(b, text, tokens[0]) {
            Some(n) => {
                lemma_feed_all_last(n, text, tokens.skip(1), k - 1);
            },
            None => {},
        }
    }
}

/// The buffer after more tokens is at least as long as after fewer.
pub proof fn lemma_buffer_grows(text: Seq<char>, tokens: Seq<Token>, i: int, j: int)
    requires
        0 <= i <= j <= tokens.len(),
        state_after(text, tokens, j) is Some,
    ensures
        state_after(text, tokens, i) is Some,
        state_after(text, tokens, i).unwrap().ops.len() <= state_after(
            text,
            tokens,
            j,
        ).unwrap().ops.len(),
    decreases j - i,
{
    if i < j {
        lemma_feed_all_last(start(), text, tokens, j - 1);
        let before = state_after(text, tokens, j - 1).unwrap();
        lemma_feed_appends(before, text, tokens[j - 1]);
        lemma_buffer_grows(text, tokens, i, j - 1);
    }
}

/// Blocks get strictly increasing addresses in the order in which they are
/// closed, which is depth first: of two tokens that close a block, the
/// later one finds a longer buffer, and the length of the buffer is the
/// address that the block gets.
pub proof fn lemma_addresses_increase(text: Seq<char>, tokens: Seq<Token>, i: int, j: int)
    requires
        0 <= i < j < tokens.len(),
        closes_block(text, tokens[i]),
        closes_block(text, tokens[j]),
        state_after(text, tokens, j + 1) is Some,
    ensures
        state_after(text, tokens, i) is Some,
        state_after(text, tokens, j) is Some,
        state_after(text, tokens, i).unwrap().ops.len() < state_after(
            text,
            tokens,
            j,
        ).unwrap().ops.len(),
{
    lemma_buffer_grows(text, tokens, j, j + 1);
    lemma_buffer_grows(text, tokens, i + 1, j);
    lemma_buffer_grows(text, tokens, i, i + 1);
    lemma_feed_all_last(start(), text, tokens, i);
    lemma_close_block_address(state_after(text, tokens, i).unwrap(), text, tokens[i]);
}

} // verus!
