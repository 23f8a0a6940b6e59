//! What running a program means: the machine's state as plain mathematics,
//! and the effect of each instruction on it.

use vstd::prelude::*;
use vstd::wrapping::i64_specs::{wrapping_add, wrapping_mul, wrapping_sub};
use crate::cell::{BuiltIn, Code, Instr, Program, Value};
use crate::intern::Name;

verus! {

/// Something a built-in routine handed to the output.
pub enum Written {
    /// The value that was on top of the stack.
    Value(Value),
    LineBreak,
}

/// Why a program stopped early.
pub enum Fault {
    /// A called word has no definition; the word's name.
    Unimplemented(Seq<char>),
    /// An operand has the wrong shape; what was expected.
    InvalidType(Seq<char>),
    StackUnderflow,
    CallStackUnderflow,
    ParsingError,
    /// The step budget ran out before the program ended.
    StepLimit,
}

/// The whole state of a machine.
pub struct State {
    /// The value stack, bottom first.
    pub stack: Seq<Value>,
    /// The return addresses of the calls in progress, oldest first.
    pub calls: Seq<usize>,
    /// The address of the next instruction.
    pub pc: nat,
    /// The word definitions.
    pub defs: Map<Name, Code>,
    /// Everything written so far.
    pub output: Seq<Written>,
}

/// What an arithmetic instruction or a comparison says of operands that are
/// not two integers.
pub open spec fn expects_integers() -> Seq<char> {
    "op takes 2 integers"@
}

/// What `Add` says of operands that are neither two integers nor two
/// strings.
pub open spec fn expects_addable() -> Seq<char> {
    "'+' takes 2 integers or 2 strings"@
}

/// What `Div` says of a divisor that is zero.
pub open spec fn expects_divisor() -> Seq<char> {
    "division by zero"@
}

/// What `Def` says of operands that are not a block and a symbol.
pub open spec fn expects_definition() -> Seq<char> {
    "'def' takes a code block and a symbol"@
}

/// What `Exec` says of an operand that is no code.
pub open spec fn expects_code() -> Seq<char> {
    "Code expected"@
}

/// What `While` says of a body that is no code.
pub open spec fn expects_body() -> Seq<char> {
    "While expects a code block"@
}

/// What `While` says where it stands too close to the start of the buffer
/// to have a header.
pub open spec fn expects_header() -> Seq<char> {
    "While expects a loop header before it"@
}

/// The number of instructions that a loop occupies before its `While`: the
/// push of the condition block, its `Exec`, and the push of the body block.
pub open spec fn loop_header() -> nat {
    3
}

/// `True` or `False`.
pub open spec fn truth(b: bool) -> Value {
    if b {
        Value::True
    } else {
        Value::False
    }
}

/// The quotient of `a` by a non-zero `b`, rounded toward zero.
pub open spec fn truncated(a: int, b: int) -> int
    recommends
        b != 0,
{
    if a >= 0 && b > 0 {
        a / b
    } else if a < 0 && b < 0 {
        (-a) / (-b)
    } else if a < 0 {
        -((-a) / b)
    } else {
        -(a / (-b))
    }
}

/// A quotient rounded toward zero fits in 64 bits if the dividend does,
/// unless the divisor is -1.
pub proof fn lemma_truncated_fits(a: int, b: int)
    requires
        b != 0,
        b != -1,
        i64::MIN <= a <= i64::MAX,
    ensures
        i64::MIN <= truncated(a, b) <= i64::MAX,
{
    assert(a >= 0 && b > 0 ==> 0 <= a / b <= a) by (nonlinear_arith);
    assert(a < 0 && b > 0 ==> 0 <= (-a) / b <= -a) by (nonlinear_arith);
    assert(a >= 0 && b < 0 ==> 0 <= a / (-b) <= a) by (nonlinear_arith);
    assert(a < 0 && b < -1 ==> 0 <= (-a) / (-b) < -a) by (nonlinear_arith);
}

/// The quotient of `m` by a non-zero `n`, rounded toward zero; the one
/// quotient that does not fit, `i64::MIN / -1`, wraps around to `i64::MIN`.
pub open spec fn quotient(m: i64, n: i64) -> i64
    recommends
        n != 0,
{
    if n == -1 {
        wrapping_sub(0, m)
    } else {
        truncated(m as int, n as int) as i64
    }
}

/// The state with its top `count` values removed.
pub open spec fn popped(s: State, count: nat) -> State
    recommends
        count <= s.stack.len(),
{
    State { stack: s.stack.take(s.stack.len() - count), ..s }
}

/// The state with `v` pushed.
pub open spec fn pushed(s: State, v: Value) -> State {
    State { stack: s.stack.push(v), ..s }
}

/// The state with the next instruction as the one to run.
pub open spec fn advanced(s: State) -> State {
    State { pc: s.pc + 1, ..s }
}

/// The value `depth` places below the top of the stack; 0 is the top.
pub open spec fn peek(s: State, depth: nat) -> Value
    recommends
        depth < s.stack.len(),
{
    s.stack[s.stack.len() - 1 - depth]
}

/// What a built-in routine does to the state.
pub open spec fn built_in(s: State, routine: BuiltIn) -> State {
    match routine {
        BuiltIn::Print => if s.stack.len() > 0 {
            State { output: s.output.push(Written::Value(s.stack.last())), ..s }
        } else {
            s
        },
        BuiltIn::LineBreak => State { output: s.output.push(Written::LineBreak), ..s },
    }
}

/// Hands control to `code`, as seen from the instruction at `from`. A block
/// is entered with `from` as its return address, so that its `Return` resumes
/// after `from`; a built-in routine runs at once, and the instruction after
/// `from` is next.
pub open spec fn dispatch(s: State, code: Code, from: usize) -> State {
    match code {
        Code::Custom(address) => State { calls: s.calls.push(from), pc: address as nat, ..s },
        Code::BuiltIn(routine) => State { pc: from as nat + 1, ..built_in(s, routine) },
    }
}

/// The four arithmetic instructions on a stack that ends in `m`, `n`.
pub open spec fn arithmetic(op: Instr, m: Value, n: Value) -> Result<Value, Fault> {
    match (op, m, n) {
        (Instr::Add, Value::Int(m), Value::Int(n)) => Ok(Value::Int(wrapping_add(m, n))),
        (Instr::Add, Value::Str(a), Value::Str(b)) => Ok(Value::Str(a + b)),
        (Instr::Add, _, _) => Err(Fault::InvalidType(expects_addable())),
        (Instr::Sub, Value::Int(m), Value::Int(n)) => Ok(Value::Int(wrapping_sub(m, n))),
        (Instr::Mul, Value::Int(m), Value::Int(n)) => Ok(Value::Int(wrapping_mul(m, n))),
        (Instr::Div, Value::Int(m), Value::Int(n)) => if n == 0 {
            Err(Fault::InvalidType(expects_divisor()))
        } else {
            Ok(Value::Int(quotient(m, n)))
        },
        _ => Err(Fault::InvalidType(expects_integers())),
    }
}

/// The four order comparisons on a stack that ends in `m`, `n`.
pub open spec fn comparison(op: Instr, m: Value, n: Value) -> Result<Value, Fault> {
    match (op, m, n) {
        (Instr::Lt, Value::Int(m), Value::Int(n)) => Ok(truth(m < n)),
        (Instr::Lte, Value::Int(m), Value::Int(n)) => Ok(truth(m <= n)),
        (Instr::Gt, Value::Int(m), Value::Int(n)) => Ok(truth(m > n)),
        (Instr::Gte, Value::Int(m), Value::Int(n)) => Ok(truth(m >= n)),
        _ => Err(Fault::InvalidType(expects_integers())),
    }
}

/// How many values an instruction needs on the stack.
pub open spec fn operands(op: Instr) -> nat {
    match op {
        Instr::Push(_) | Instr::Call(_) | Instr::Return => 0,
        Instr::Drop | Instr::Dup | Instr::Not | Instr::Exec => 1,
        Instr::Rot | Instr::UnRot | Instr::CondPop => 3,
        _ => 2,
    }
}

/// The effect of `op`, the instruction at `s.pc`, on a stack that holds
/// enough values for it.
pub open spec fn execute(s: State, op: Instr) -> Result<State, Fault>
    recommends
        operands(op) <= s.stack.len(),
        s.pc <= usize::MAX,
{
    match op {
        Instr::Push(v) => Ok(advanced(pushed(s, v))),
        Instr::Call(name) => if s.defs.contains_key(name) {
            Ok(dispatch(s, s.defs[name], s.pc as usize))
        } else {
            Err(Fault::Unimplemented(name.name))
        },
        Instr::Return => if s.calls.len() == 0 {
            Err(Fault::CallStackUnderflow)
        } else {
            Ok(State { calls: s.calls.drop_last(), pc: s.calls.last() as nat + 1, ..s })
        },
        Instr::Def => match (peek(s, 0), peek(s, 1)) {
            (Value::Sym(name), Value::Code(code)) => Ok(
                advanced(State { defs: s.defs.insert(name, code), ..popped(s, 2) }),
            ),
            _ => Err(Fault::InvalidType(expects_definition())),
        },
        Instr::Add | Instr::Sub | Instr::Mul | Instr::Div => match arithmetic(
            op,
            peek(s, 1),
            peek(s, 0),
        ) {
            Ok(v) => Ok(advanced(pushed(popped(s, 2), v))),
            Err(fault) => Err(fault),
        },
        Instr::Lt | Instr::Lte | Instr::Gt | Instr::Gte => match comparison(
            op,
            peek(s, 1),
            peek(s, 0),
        ) {
            Ok(v) => Ok(advanced(pushed(popped(s, 2), v))),
            Err(fault) => Err(fault),
        },
        Instr::Eq => Ok(advanced(pushed(popped(s, 2), truth(peek(s, 0) == peek(s, 1))))),
        Instr::Drop => Ok(advanced(popped(s, 1))),
        Instr::Dup => Ok(advanced(pushed(s, peek(s, 0)))),
        Instr::Swap => Ok(advanced(pushed(pushed(popped(s, 2), peek(s, 0)), peek(s, 1)))),
        Instr::Rot => Ok(
            advanced(pushed(pushed(pushed(popped(s, 3), peek(s, 1)), peek(s, 0)), peek(s, 2))),
        ),
        Instr::UnRot => Ok(
            advanced(pushed(pushed(pushed(popped(s, 3), peek(s, 0)), peek(s, 2)), peek(s, 1))),
        ),
        Instr::Not => Ok(advanced(pushed(popped(s, 1), truth(peek(s, 0) == Value::False)))),
        Instr::Exec => match peek(s, 0) {
            Value::Code(code) => Ok(dispatch(popped(s, 1), code, s.pc as usize)),
            _ => Err(Fault::InvalidType(expects_code())),
        },
        Instr::CondPop => Ok(
            advanced(
                pushed(
                    popped(s, 3),
                    if peek(s, 2) == Value::False {
                        peek(s, 0)
                    } else {
                        peek(s, 1)
                    },
                ),
            ),
        ),
        Instr::While => match peek(s, 0) {
            Value::Code(body) => if peek(s, 1) == Value::False {
                Ok(advanced(popped(s, 2)))
            } else if s.pc <= loop_header() {
                Err(Fault::InvalidType(expects_header()))
            } else {
                Ok(dispatch(popped(s, 2), body, (s.pc - loop_header() - 1) as usize))
            },
            _ => Err(Fault::InvalidType(expects_body())),
        },
    }
}

/// One step: the effect of the instruction at `s.pc`. A step that fails
/// leaves the state as it was.
pub open spec fn step(s: State, ops: Seq<Instr>) -> Result<State, Fault>
    recommends
        s.pc < ops.len(),
        s.pc <= usize::MAX,
{
    let op = ops[s.pc as int];
    if s.stack.len() < operands(op) {
        Err(Fault::StackUnderflow)
    } else {
        execute(s, op)
    }
}

/// Whether the program has run off the end of the buffer.
pub open spec fn halted(s: State, ops: Seq<Instr>) -> bool {
    s.pc >= ops.len()
}

/// Runs from `s` until the program counter leaves the buffer, a step fails
/// or `fuel` steps were taken, whichever comes first. The result is the state
/// reached, and the fault if the run did not end by leaving the buffer.
pub open spec fn run(s: State, ops: Seq<Instr>, fuel: nat) -> (State, Option<Fault>)
    decreases fuel,
{
    if halted(s, ops) {
        (s, None)
    } else if fuel == 0 {
        (s, Some(Fault::StepLimit))
    } else {
        match step(s, ops) {
            Ok(next) => run(next, ops, (fuel - 1) as nat),
            Err(fault) => (s, Some(fault)),
        }
    }
}

/// The most steps that one evaluation takes.
pub open spec fn step_limit() -> nat {
    u64::MAX as nat
}

/// Runs `program` from its start on the stacks, the definitions and the
/// output of `s`.
pub open spec fn evaluate(s: State, program: Program) -> (State, Option<Fault>) {
    run(State { pc: program.start, ..s }, program.ops, step_limit())
}


/// `CondPop` selects without branching: of a condition, a value for true
/// and a value for false on top of the stack, it leaves the value for false
/// if the condition is `False` and the value for true otherwise. Two cells
/// fewer remain, and nothing below them changes.
pub proof fn lemma_cond_pop_selects(
    s: State,
    ops: Seq<Instr>,
    below: Seq<Value>,
    cond: Value,
    on_true: Value,
    on_false: Value,
)
    requires
        s.pc < ops.len(),
        ops[s.pc as int] == Instr::CondPop,
        s.stack == below.push(cond).push(on_true).push(on_false),
    ensures
        step(s, ops) == Ok::<State, Fault>(
            State {
                stack: below.push(
                    if cond == Value::False {
                        on_false
                    } else {
                        on_true
                    },
                ),
                pc: s.pc + 1,
                ..s
            },
        ),
        below.len() + 1 == s.stack.len() - 2,
{
    assert(s.stack.take(s.stack.len() - 3) =~= below);
}

/// A call of a word that has no definition fails with the word's name, and
/// the run ends at once in the state in which the call found the machine.
pub proof fn lemma_unbound_call_fails(s: State, ops: Seq<Instr>, name: Name, fuel: nat)
    requires
        s.pc < ops.len(),
        ops[s.pc as int] == Instr::Call(name),
        !s.defs.contains_key(name),
        fuel > 0,
    ensures
        step(s, ops) == Err::<State, Fault>(Fault::Unimplemented(name.name)),
        run(s, ops, fuel) == (s, Some(Fault::Unimplemented(name.name))),
{
}

/// An instruction that finds fewer values than it needs fails with
/// `StackUnderflow`, and the run ends at once in the state in which the
/// instruction found the machine. `Add`, for one, needs two values.
pub proof fn lemma_underflow_fails(s: State, ops: Seq<Instr>, fuel: nat)
    requires
        s.pc < ops.len(),
        s.stack.len() < operands(ops[s.pc as int]),
        fuel > 0,
    ensures
        operands(Instr::Add) == 2,
        step(s, ops) == Err::<State, Fault>(Fault::StackUnderflow),
        run(s, ops, fuel) == (s, Some(Fault::StackUnderflow)),
{
}

/// `Def` binds the symbol on top of the stack to the code below it, in
/// place of what the symbol was bound to before, and consumes both.
pub proof fn lemma_def_binds(s: State, ops: Seq<Instr>, below: Seq<Value>, name: Name, code: Code)
    requires
        s.pc < ops.len(),
        ops[s.pc as int] == Instr::Def,
        s.stack == below.push(Value::Code(code)).push(Value::Sym(name)),
    ensures
        step(s, ops) == Ok::<State, Fault>(
            State { stack: below, pc: s.pc + 1, defs: s.defs.insert(name, code), ..s },
        ),
{
    assert(s.stack.take(s.stack.len() - 2) =~= below);
}

/// A call runs what its word is bound to at the time of the call, whenever
/// the call was compiled: after a `Def` of a word, every call of it
/// dispatches the new code until the word is defined again.
pub proof fn lemma_call_runs_latest(
    s: State,
    ops: Seq<Instr>,
    below: Seq<Value>,
    name: Name,
    code: Code,
    later: State,
)
    requires
        s.pc < ops.len(),
        ops[s.pc as int] == Instr::Def,
        s.stack == below.push(Value::Code(code)).push(Value::Sym(name)),
        later.pc < ops.len(),
        later.pc <= usize::MAX,
        ops[later.pc as int] == Instr::Call(name),
        later.defs.contains_key(name),
        later.defs[name] == s.defs.insert(name, code)[name],
    ensures
        step(s, ops) == Ok::<State, Fault>(
            State { stack: below, pc: s.pc + 1, defs: s.defs.insert(name, code), ..s },
        ),
        step(later, ops) == Ok::<State, Fault>(dispatch(later, code, later.pc as usize)),
{
    lemma_def_binds(s, ops, below, name, code);
}

/// Calls and returns pair up: a block that is entered from the instruction
/// at `from` finds `from` on top of the return addresses, and a `Return`
/// that finds it there resumes behind that instruction, with the calls that
/// were in progress before.
pub proof fn lemma_return_resumes(
    s: State,
    ops: Seq<Instr>,
    address: usize,
    from: usize,
    inside: State,
)
    requires
        inside.calls == dispatch(s, Code::Custom(address), from).calls,
        inside.pc < ops.len(),
        ops[inside.pc as int] == Instr::Return,
    ensures
        dispatch(s, Code::Custom(address), from).pc == address,
        step(inside, ops) == Ok::<State, Fault>(
            State { calls: s.calls, pc: from as nat + 1, ..inside },
        ),
{
    assert(s.calls.push(from).drop_last() =~= s.calls);
}

/// A run can be taken in stretches: where one stretch ends because its
/// fuel is spent, going on from the state it reached does what a single run
/// with the fuel of both would have done.
pub proof fn lemma_run_resumes(s: State, ops: Seq<Instr>, first: nat, second: nat)
    requires
        run(s, ops, first).1 == Some(Fault::StepLimit),
    ensures
        run(s, ops, first + second) == run(run(s, ops, first).0, ops, second),
    decreases first,
{
    if first > 0 && !halted(s, ops) {
        match step(s, ops) {
            Ok(next) => {
                lemma_run_resumes(next, ops, (first - 1) as nat, second);
            },
            Err(_) => {},
        }
    }
}

/// A run that ends without a fault has left the buffer.
pub proof fn lemma_run_halts(s: State, ops: Seq<Instr>, fuel: nat)
    requires
        run(s, ops, fuel).1 is None,
    ensures
        halted(run(s, ops, fuel).0, ops),
    decreases fuel,
{
    if fuel > 0 && !halted(s, ops) {
        match step(s, ops) {
            Ok(next) => {
                lemma_run_halts(next, ops, (fuel - 1) as nat);
            },
            Err(_) => {},
        }
    }
}


/// The state after exactly `n` steps from `s`, if the machine can take that
/// many: none of them fails, and none is due behind the end of the buffer.
pub open spec fn after(s: State, ops: Seq<Instr>, n: nat) -> Option<State>
    decreases n,
{
    if n == 0 {
        Some(s)
    } else if halted(s, ops) {
        None
    } else {
        match step(s, ops) {
            Ok(next) => after(next, ops, (n - 1) as nat),
            Err(_) => None,
        }
    }
}

/// Taking `n` steps and then `m` more is taking `n + m` steps.
pub proof fn lemma_after_adds(s: State, ops: Seq<Instr>, n: nat, m: nat)
    ensures
        after(s, ops, n + m) == match after(s, ops, n) {
            Some(middle) => after(middle, ops, m),
            None => None,
        },
    decreases n,
{
    if n > 0 && !halted(s, ops) {
        match step(s, ops) {
            Ok(next) => {
                lemma_after_adds(next, ops, (n - 1) as nat, m);
            },
            Err(_) => {},
        }
    }
}

/// A run goes through every state that the machine can reach in no more
/// steps than the run has fuel: from there it goes on with the fuel that is
/// left.
pub proof fn lemma_run_passes(s: State, ops: Seq<Instr>, n: nat, reached: State, fuel: nat)
    requires
        after(s, ops, n) == Some(reached),
        n <= fuel,
    ensures
        run(s, ops, fuel) == run(reached, ops, (fuel - n) as nat),
    decreases n,
{
    if n > 0 {
        lemma_run_passes(step(s, ops)->Ok_0, ops, (n - 1) as nat, reached, (fuel - 1) as nat);
    }
}

/// Whether the buffer holds, from address `at` on, a loop with the
/// condition block at `cond` and the body block at `body`.
pub open spec fn loop_at(ops: Seq<Instr>, at: int, cond: usize, body: usize) -> bool {
    &&& 1 <= at
    &&& at + loop_header() < ops.len() <= usize::MAX
    &&& ops[at] == Instr::Push(Value::Code(Code::Custom(cond)))
    &&& ops[at + 1] == Instr::Exec
    &&& ops[at + 2] == Instr::Push(Value::Code(Code::Custom(body)))
    &&& ops[at + 3] == Instr::While
}

/// Whether the block at `address`, entered from the instruction at `from`
/// in state `s`, is back behind that instruction after `n` steps, with the
/// calls in progress as they were, in state `t`.
pub open spec fn block_returns(
    s: State,
    ops: Seq<Instr>,
    address: usize,
    from: usize,
    n: nat,
    t: State,
) -> bool {
    &&& after(State { calls: s.calls.push(from), pc: address as nat, ..s }, ops, n) == Some(t)
    &&& t.pc == from + 1
    &&& t.calls == s.calls
}

/// A loop tests before each pass: from its header the condition block
/// runs, on the stack that the loop found, and leaves a flag, which is
/// popped. If the flag is `False`, the loop is over, and the instruction
/// behind it is next.
pub proof fn lemma_loop_ends(
    s: State,
    ops: Seq<Instr>,
    cond: usize,
    body: usize,
    n: nat,
    tested: State,
)
    requires
        loop_at(ops, s.pc as int, cond, body),
        block_returns(s, ops, cond, (s.pc + 1) as usize, n, tested),
        tested.stack.len() > 0,
        tested.stack.last() == Value::False,
    ensures
        after(s, ops, n + 4) == Some(
            State { stack: tested.stack.drop_last(), pc: s.pc + 4, ..tested },
        ),
{
    lemma_loop_tests(s, ops, cond, body, n, tested);
    let decided = State {
        stack: tested.stack.push(Value::Code(Code::Custom(body))),
        pc: s.pc + 3,
        ..tested
    };
    assert(decided.stack.take(decided.stack.len() - 2) =~= tested.stack.drop_last());
    assert(after(decided, ops, 1) == Some(
        State { stack: tested.stack.drop_last(), pc: s.pc + 4, ..tested },
    )) by {
        reveal_with_fuel(after, 2);
    }
    lemma_after_adds(s, ops, n + 3, 1);
}

/// A loop goes round: if the flag that the condition block leaves is not
/// `False`, the body block runs once, on the stack that the condition left
/// under its flag, and then the loop's header is next again.
pub proof fn lemma_loop_repeats(
    s: State,
    ops: Seq<Instr>,
    cond: usize,
    body: usize,
    n: nat,
    tested: State,
    m: nat,
    done: State,
)
    requires
        loop_at(ops, s.pc as int, cond, body),
        block_returns(s, ops, cond, (s.pc + 1) as usize, n, tested),
        tested.stack.len() > 0,
        tested.stack.last() != Value::False,
        block_returns(
            State { stack: tested.stack.drop_last(), ..tested },
            ops,
            body,
            (s.pc - 1) as usize,
            m,
            done,
        ),
    ensures
        after(s, ops, n + 4 + m) == Some(done),
        done.pc == s.pc,
        done.calls == s.calls,
{
    lemma_loop_tests(s, ops, cond, body, n, tested);
    let decided = State {
        stack: tested.stack.push(Value::Code(Code::Custom(body))),
        pc: s.pc + 3,
        ..tested
    };
    let entered = State {
        stack: tested.stack.drop_last(),
        calls: tested.calls.push((s.pc - 1) as usize),
        pc: body as nat,
        ..tested
    };
    assert(decided.stack.take(decided.stack.len() - 2) =~= tested.stack.drop_last());
    assert(after(decided, ops, 1) == Some(entered)) by {
        reveal_with_fuel(after, 2);
    }
    lemma_after_adds(s, ops, n + 3, 1);
    lemma_after_adds(s, ops, n + 4, m);
}

/// From a loop's header, the condition block runs and the body block is
/// pushed: that takes three steps besides those of the condition block.
proof fn lemma_loop_tests(
    s: State,
    ops: Seq<Instr>,
    cond: usize,
    body: usize,
    n: nat,
    tested: State,
)
    requires
        loop_at(ops, s.pc as int, cond, body),
        block_returns(s, ops, cond, (s.pc + 1) as usize, n, tested),
    ensures
        after(s, ops, n + 3) == Some(
            State {
                stack: tested.stack.push(Value::Code(Code::Custom(body))),
                pc: s.pc + 3,
                ..tested
            },
        ),
{
    let pushed_cond = State {
        stack: s.stack.push(Value::Code(Code::Custom(cond))),
        pc: s.pc + 1,
        ..s
    };
    let entered = State { calls: s.calls.push((s.pc + 1) as usize), pc: cond as nat, ..s };
    assert(pushed_cond.stack.take(pushed_cond.stack.len() - 1) =~= s.stack);
    assert(after(s, ops, 2) == Some(entered)) by {
        reveal_with_fuel(after, 3);
    }
    lemma_after_adds(s, ops, 2, n);
    assert(after(tested, ops, 1) == Some(
        State {
            stack: tested.stack.push(Value::Code(Code::Custom(body))),
            pc: s.pc + 3,
            ..tested
        },
    )) by {
        reveal_with_fuel(after, 2);
    }
    lemma_after_adds(s, ops, 2 + n, 1);
}

} // verus!
