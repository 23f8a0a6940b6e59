//! The stack machine.

use internment::Intern;
use vstd::prelude::*;
use crate::cell::{values, BuiltIn, Cell, Code, Op, Ops};
use crate::compiler::compile;
use crate::definitions::Definitions;
use crate::intern::{global, intern_text, symbol_name, text_of, Name, Symbol};
use crate::parsing::parse_string;
use crate::semantics;
use crate::semantics::{Fault, State, Written};

verus! {

/// Why an evaluation stopped early.
#[derive(Debug, PartialEq, Eq)]
pub enum Error {
    /// A called word has no definition; the word's name.
    Unimplemented(String),
    /// An operand has the wrong shape; what was expected.
    InvalidType(String),
    StackUnderflow,
    CallStackUnderflow,
    ParsingError,
    /// The step budget ran out before the program ended.
    StepLimit,
}

impl View for Error {
    type V = Fault;

    open spec fn view(&self) -> Fault {
        match *self {
            Error::Unimplemented(name) => Fault::Unimplemented(name@),
            Error::InvalidType(expected) => Fault::InvalidType(expected@),
            Error::StackUnderflow => Fault::StackUnderflow,
            Error::CallStackUnderflow => Fault::CallStackUnderflow,
            Error::ParsingError => Fault::ParsingError,
            Error::StepLimit => Fault::StepLimit,
        }
    }
}

/// Something a built-in routine handed to the output, for the caller to
/// display.
#[derive(Debug, Clone, Copy, PartialEq)]
pub enum Output {
    /// The value that was on top of the stack.
    Value(Cell),
    LineBreak,
}

impl View for Output {
    type V = Written;

    open spec fn view(&self) -> Written {
        match *self {
            Output::Value(cell) => Written::Value(cell@),
            Output::LineBreak => Written::LineBreak,
        }
    }
}

/// What a sequence of outputs stands for.
pub open spec fn written(outputs: Seq<Output>) -> Seq<Written> {
    outputs.map_values(|output: Output| output@)
}

/// Whether a call returned what the semantics prescribe: on success the
/// state is the prescribed one, on failure the error is the prescribed one
/// and the state is as it was.
pub open spec fn agrees(
    before: State,
    after: State,
    result: Result<(), Error>,
    prescribed: Result<State, Fault>,
) -> bool {
    match prescribed {
        Ok(next) => result is Ok && after == next,
        Err(fault) => result matches Err(error) && error@ == fault && after == before,
    }
}

/// A stack machine: a value stack, the return addresses of the calls in
/// progress, a program counter, the word definitions, and what the built-in
/// routines have written.
pub struct Machine {
    stack: Vec<Cell>,
    call_stack: Vec<usize>,
    instruction_counter: usize,
    definitions: Definitions,
    output: Vec<Output>,
}

impl View for Machine {
    type V = State;

    closed spec fn view(&self) -> State {
        State {
            stack: values(self.stack@),
            calls: self.call_stack@,
            pc: self.instruction_counter as nat,
            defs: self.definitions@,
            output: written(self.output@),
        }
    }
}

fn invalid_type(expected: &str) -> (error: Error)
    ensures
        error@ == Fault::InvalidType(expected@),
{
    Error::InvalidType(expected.to_owned())
}

/// `Cell::True` or `Cell::False`.
fn truth(b: bool) -> (cell: Cell)
    ensures
        cell@ == semantics::truth(b),
{
    if b {
        Cell::True
    } else {
        Cell::False
    }
}

/// How many values `op` needs on the stack.
fn operands(op: &Op) -> (count: usize)
    ensures
        count == semantics::operands(op@),
{
    match op {
        Op::Push(_) | Op::Call(_) | Op::Return => 0,
        Op::Drop | Op::Dup | Op::Not | Op::Exec => 1,
        Op::Rot | Op::UnRot | Op::CondPop => 3,
        _ => 2,
    }
}

/// The quotient of `m` by a non-zero `n`.
fn divide(m: i64, n: i64) -> (q: i64)
    requires
        n != 0,
    ensures
        q == semantics::quotient(m, n),
{
    if n == -1 {
        0i64.wrapping_sub(m)
    } else {
        proof {
            semantics::lemma_truncated_fits(m as int, n as int);
        }
        match m.checked_div(n) {
            Some(q) => q,
            None => 0,
        }
    }
}

impl Machine {
    /// The definitions are in order, and every return address has a successor.
    pub closed spec fn wf(&self) -> bool {
        &&& self.definitions.wf()
        &&& forall|i: int| 0 <= i < self.call_stack.len() ==> self.call_stack[i] < usize::MAX
    }

    /// The definitions that every new machine starts with.
    pub open spec fn built_ins() -> Map<Name, Code> {
        map![
            global("print"@) => Code::BuiltIn(BuiltIn::Print),
            global("linebreak"@) => Code::BuiltIn(BuiltIn::LineBreak),
        ]
    }

    /// A machine with empty stacks that knows the built-in words.
    pub fn new() -> (machine: Machine)
        ensures
            machine.wf(),
            machine@ == (State {
                stack: Seq::empty(),
                calls: Seq::empty(),
                pc: 0,
                defs: Machine::built_ins(),
                output: Seq::empty(),
            }),
    {
        let mut definitions = Definitions::new();
        definitions.insert(Symbol::new_global("print"), Code::BuiltIn(BuiltIn::Print));
        definitions.insert(Symbol::new_global("linebreak"), Code::BuiltIn(BuiltIn::LineBreak));
        let machine = Machine {
            stack: Vec::new(),
            call_stack: Vec::new(),
            instruction_counter: 0,
            definitions,
            output: Vec::new(),
        };
        assert(machine@.stack =~= Seq::empty());
        assert(machine@.output =~= Seq::empty());
        machine
    }

    /// Pushes `cell`.
    pub fn push(&mut self, cell: Cell)
        requires
            old(self).wf(),
        ensures
            final(self).wf(),
            final(self)@ == semantics::pushed(old(self)@, cell@),
    {
        self.stack.push(cell);
        assert(self@.stack =~= old(self)@.stack.push(cell@));
    }

    /// Pops the top of the stack.
    pub fn pop(&mut self) -> (top: Result<Cell, Error>)
        requires
            old(self).wf(),
        ensures
            final(self).wf(),
            match top {
                Ok(cell) => old(self)@.stack.len() > 0 && cell@ == old(self)@.stack.last()
                    && final(self)@ == semantics::popped(old(self)@, 1),
                Err(error) => old(self)@.stack.len() == 0 && error@ == Fault::StackUnderflow
                    && final(self)@ == old(self)@,
            },
    {
        match self.stack.pop() {
            Some(cell) => {
                assert(self@.stack =~= old(self)@.stack.take(old(self)@.stack.len() - 1));
                Ok(cell)
            },
            None => Err(Error::StackUnderflow),
        }
    }

    /// A copy of the value stack, bottom first.
    pub fn stack(&self) -> (cells: Vec<Cell>)
        ensures
            values(cells@) == self@.stack,
    {
        let mut cells: Vec<Cell> = Vec::new();
        let mut i: usize = 0;
        while i < self.stack.len()
            invariant
                i <= self.stack.len(),
                cells@ == self.stack@.take(i as int),
            decreases self.stack.len() - i,
        {
            cells.push(self.stack[i]);
            i += 1;
        }
        cells
    }

    /// Hands over what the built-in routines have written since the last
    /// call, oldest first.
    pub fn take_output(&mut self) -> (outputs: Vec<Output>)
        requires
            old(self).wf(),
        ensures
            final(self).wf(),
            written(outputs@) == old(self)@.output,
            final(self)@ == (State { output: Seq::empty(), ..old(self)@ }),
    {
        let mut outputs: Vec<Output> = Vec::new();
        outputs.append(&mut self.output);
        assert(self@.output =~= Seq::empty());
        outputs
    }
}

impl Machine {
    /// The cell `depth` places below the top of the stack.
    fn peek(&self, depth: usize) -> (cell: Cell)
        requires
            depth < self@.stack.len(),
        ensures
            cell@ == semantics::peek(self@, depth as nat),
    {
        self.stack[self.stack.len() - 1 - depth]
    }

    /// Moves on to the next instruction.
    fn advance(&mut self)
        requires
            old(self).wf(),
            old(self)@.pc < usize::MAX,
        ensures
            final(self).wf(),
            final(self)@ == semantics::advanced(old(self)@),
    {
        self.instruction_counter = self.instruction_counter + 1;
    }

    /// Removes the top `count` values.
    fn discard(&mut self, count: usize)
        requires
            old(self).wf(),
            count <= old(self)@.stack.len(),
        ensures
            final(self).wf(),
            final(self)@ == semantics::popped(old(self)@, count as nat),
    {
        let len = self.stack.len();
        self.stack.truncate(len - count);
        assert(self@.stack =~= old(self)@.stack.take(old(self)@.stack.len() - count));
    }

    /// Replaces the top `count` values by `cell` and moves on to the next
    /// instruction.
    fn replace_top(&mut self, count: usize, cell: Cell)
        requires
            old(self).wf(),
            count <= old(self)@.stack.len(),
            old(self)@.pc < usize::MAX,
        ensures
            final(self).wf(),
            final(self)@ == semantics::advanced(
                semantics::pushed(semantics::popped(old(self)@, count as nat), cell@),
            ),
    {
        let len = self.stack.len();
        self.stack.truncate(len - count);
        self.stack.push(cell);
        self.instruction_counter = self.instruction_counter + 1;
        assert(self@.stack =~= old(self)@.stack.take(old(self)@.stack.len() - count).push(cell@));
    }

    /// Runs a built-in routine.
    fn call_built_in(&mut self, routine: BuiltIn)
        requires
            old(self).wf(),
        ensures
            final(self).wf(),
            final(self)@ == semantics::built_in(old(self)@, routine),
    {
        match routine {
            BuiltIn::Print => {
                let len = self.stack.len();
                if len > 0 {
                    let top = self.stack[len - 1];
                    self.output.push(Output::Value(top));
                    assert(self@.output =~= old(self)@.output.push(Written::Value(top@)));
                }
            },
            BuiltIn::LineBreak => {
                self.output.push(Output::LineBreak);
                assert(self@.output =~= old(self)@.output.push(Written::LineBreak));
            },
        }
    }

    /// Hands control to `code`, as seen from the instruction at `from`.
    fn exec_code(&mut self, code: Code, from: usize)
        requires
            old(self).wf(),
            from < usize::MAX,
        ensures
            final(self).wf(),
            final(self)@ == semantics::dispatch(old(self)@, code, from),
    {
        match code {
            Code::Custom(address) => {
                self.call_stack.push(from);
                self.instruction_counter = address;
            },
            Code::BuiltIn(routine) => {
                self.call_built_in(routine);
                self.instruction_counter = from + 1;
            },
        }
    }

    /// Calls the word that `symbol` names.
    fn exec_symbol(&mut self, symbol: Intern<Symbol>) -> (result: Result<(), Error>)
        requires
            old(self).wf(),
            old(self)@.pc < usize::MAX,
        ensures
            final(self).wf(),
            agrees(
                old(self)@,
                final(self)@,
                result,
                semantics::execute(old(self)@, Op::Call(symbol)@),
            ),
    {
        match self.definitions.get(symbol) {
            Some(code) => {
                let from = self.instruction_counter;
                self.exec_code(code, from);
                Ok(())
            },
            None => Err(Error::Unimplemented(symbol_name(symbol))),
        }
    }

    /// One of the four arithmetic instructions.
    fn binary_int_op(&mut self, op: Op) -> (result: Result<(), Error>)
        requires
            old(self).wf(),
            op@ is Add || op@ is Sub || op@ is Mul || op@ is Div,
            old(self)@.stack.len() >= 2,
            old(self)@.pc < usize::MAX,
        ensures
            final(self).wf(),
            agrees(old(self)@, final(self)@, result, semantics::execute(old(self)@, op@)),
    {
        let len = self.stack.len();
        let lower = self.stack[len - 2];
        let upper = self.stack[len - 1];
        let outcome = match (op, lower, upper) {
            (Op::Add, Cell::Int(m), Cell::Int(n)) => Cell::Int(m.wrapping_add(n)),
            (Op::Add, Cell::Str(a), Cell::Str(b)) => {
                let mut text = text_of(a);
                let mut rest = text_of(b);
                text.append(&mut rest);
                Cell::Str(intern_text(&text))
            },
            (Op::Add, _, _) => {
                return Err(invalid_type("'+' takes 2 integers or 2 strings"));
            },
            (Op::Sub, Cell::Int(m), Cell::Int(n)) => Cell::Int(m.wrapping_sub(n)),
            (Op::Mul, Cell::Int(m), Cell::Int(n)) => Cell::Int(m.wrapping_mul(n)),
            (Op::Div, Cell::Int(m), Cell::Int(n)) => {
                if n == 0 {
                    return Err(invalid_type("division by zero"));
                }
                Cell::Int(divide(m, n))
            },
            _ => {
                return Err(invalid_type("op takes 2 integers"));
            },
        };
        self.replace_top(2, outcome);
        Ok(())
    }

    /// One of the four order comparisons.
    fn comparison_op(&mut self, op: Op) -> (result: Result<(), Error>)
        requires
            old(self).wf(),
            op@ is Lt || op@ is Lte || op@ is Gt || op@ is Gte,
            old(self)@.stack.len() >= 2,
            old(self)@.pc < usize::MAX,
        ensures
            final(self).wf(),
            agrees(old(self)@, final(self)@, result, semantics::execute(old(self)@, op@)),
    {
        let len = self.stack.len();
        let lower = self.stack[len - 2];
        let upper = self.stack[len - 1];
        let holds = match (op, lower, upper) {
            (Op::Lt, Cell::Int(m), Cell::Int(n)) => m < n,
            (Op::Lte, Cell::Int(m), Cell::Int(n)) => m <= n,
            (Op::Gt, Cell::Int(m), Cell::Int(n)) => m > n,
            (Op::Gte, Cell::Int(m), Cell::Int(n)) => m >= n,
            _ => {
                return Err(invalid_type("op takes 2 integers"));
            },
        };
        self.replace_top(2, truth(holds));
        Ok(())
    }

    /// Exchanges the two values on top of the stack.
    fn swap(&mut self)
        requires
            old(self).wf(),
            old(self)@.stack.len() >= 2,
            old(self)@.pc < usize::MAX,
        ensures
            final(self).wf(),
            agrees(old(self)@, final(self)@, Ok(()), semantics::execute(old(self)@, Op::Swap@)),
    {
        let len = self.stack.len();
        let lower = self.stack[len - 2];
        let upper = self.stack[len - 1];
        self.stack.set(len - 2, upper);
        self.stack.set(len - 1, lower);
        self.instruction_counter = self.instruction_counter + 1;
        assert(self@.stack =~= old(self)@.stack.take(old(self)@.stack.len() - 2).push(
            upper@,
        ).push(lower@));
    }

    /// Turns the three values on top of the stack: upward, so that the
    /// lowest of them comes out on top, or downward, so that the top goes
    /// under the other two.
    fn rotate(&mut self, upward: bool)
        requires
            old(self).wf(),
            old(self)@.stack.len() >= 3,
            old(self)@.pc < usize::MAX,
        ensures
            final(self).wf(),
            agrees(
                old(self)@,
                final(self)@,
                Ok(()),
                semantics::execute(
                    old(self)@,
                    if upward {
                        Op::Rot@
                    } else {
                        Op::UnRot@
                    },
                ),
            ),
    {
        let len = self.stack.len();
        let a = self.stack[len - 3];
        let b = self.stack[len - 2];
        let c = self.stack[len - 1];
        let ghost base = old(self)@.stack.take(old(self)@.stack.len() - 3);
        if upward {
            self.stack.set(len - 3, b);
            self.stack.set(len - 2, c);
            self.stack.set(len - 1, a);
            assert(self@.stack =~= base.push(b@).push(c@).push(a@));
        } else {
            self.stack.set(len - 3, c);
            self.stack.set(len - 2, a);
            self.stack.set(len - 1, b);
            assert(self@.stack =~= base.push(c@).push(a@).push(b@));
        }
        self.instruction_counter = self.instruction_counter + 1;
    }

    /// Keeps, of a condition and two branches on top of the stack, the
    /// branch that the condition selects: the winner is written over the
    /// condition, and the two slots above it are dropped.
    fn cond_pop(&mut self)
        requires
            old(self).wf(),
            old(self)@.stack.len() >= 3,
            old(self)@.pc < usize::MAX,
        ensures
            final(self).wf(),
            agrees(
                old(self)@,
                final(self)@,
                Ok(()),
                semantics::execute(old(self)@, Op::CondPop@),
            ),
    {
        let len = self.stack.len();
        let winner = match self.stack[len - 3] {
            Cell::False => self.stack[len - 1],
            _ => self.stack[len - 2],
        };
        self.stack.set(len - 3, winner);
        self.stack.truncate(len - 2);
        self.instruction_counter = self.instruction_counter + 1;
        assert(self@.stack =~= old(self)@.stack.take(old(self)@.stack.len() - 3).push(winner@));
    }

    /// Binds the symbol on top of the stack to the code below it.
    fn define(&mut self) -> (result: Result<(), Error>)
        requires
            old(self).wf(),
            old(self)@.stack.len() >= 2,
            old(self)@.pc < usize::MAX,
        ensures
            final(self).wf(),
            agrees(old(self)@, final(self)@, result, semantics::execute(old(self)@, Op::Def@)),
    {
        match (self.peek(0), self.peek(1)) {
            (Cell::Sym(symbol), Cell::Code(code)) => {
                self.definitions.insert(symbol, code);
                self.discard(2);
                self.advance();
                Ok(())
            },
            _ => Err(invalid_type("'def' takes a code block and a symbol")),
        }
    }

    /// The loop instruction: with a body on top of the stack and a flag
    /// below it, ends the loop if the flag is `False`, and otherwise runs
    /// the body so that the loop's header comes next.
    fn repeat(&mut self) -> (result: Result<(), Error>)
        requires
            old(self).wf(),
            old(self)@.stack.len() >= 2,
            old(self)@.pc < usize::MAX,
        ensures
            final(self).wf(),
            agrees(old(self)@, final(self)@, result, semantics::execute(old(self)@, Op::While@)),
    {
        match self.peek(0) {
            Cell::Code(body) => {
                match self.peek(1) {
                    Cell::False => {
                        self.discard(2);
                        self.advance();
                        Ok(())
                    },
                    _ => {
                        let pc = self.instruction_counter;
                        if pc <= 3 {
                            return Err(invalid_type("While expects a loop header before it"));
                        }
                        self.discard(2);
                        self.exec_code(body, pc - 4);
                        Ok(())
                    },
                }
            },
            _ => Err(invalid_type("While expects a code block")),
        }
    }
}

impl Machine {
    /// Runs the instruction at the program counter, if the counter stands
    /// inside the buffer; behind its end there is nothing to do. A step that
    /// fails changes nothing.
    pub fn step(&mut self, code: &Ops) -> (result: Result<(), Error>)
        requires
            old(self).wf(),
        ensures
            final(self).wf(),
            if semantics::halted(old(self)@, code@.ops) {
                result is Ok && final(self)@ == old(self)@
            } else {
                agrees(old(self)@, final(self)@, result, semantics::step(old(self)@, code@.ops))
            },
    {
        let pc = self.instruction_counter;
        assert(code@.ops.len() == code.ops.len());
        if pc >= code.ops.len() {
            return Ok(());
        }
        let op = code.ops[pc];
        if self.stack.len() < operands(&op) {
            return Err(Error::StackUnderflow);
        }
        match op {
            Op::Push(cell) => {
                self.push(cell);
                self.advance();
                Ok(())
            },
            Op::Call(symbol) => self.exec_symbol(symbol),
            Op::Return => match self.call_stack.pop() {
                Some(address) => {
                    self.instruction_counter = address + 1;
                    Ok(())
                },
                None => Err(Error::CallStackUnderflow),
            },
            Op::Def => self.define(),
            Op::Add | Op::Sub | Op::Mul | Op::Div => self.binary_int_op(op),
            Op::Lt | Op::Lte | Op::Gt | Op::Gte => self.comparison_op(op),
            Op::Eq => {
                let same = self.peek(0).same(&self.peek(1));
                self.replace_top(2, truth(same));
                Ok(())
            },
            Op::Drop => {
                self.discard(1);
                self.advance();
                Ok(())
            },
            Op::Dup => {
                let top = self.peek(0);
                self.push(top);
                self.advance();
                Ok(())
            },
            Op::Swap => {
                self.swap();
                Ok(())
            },
            Op::Rot => {
                self.rotate(true);
                Ok(())
            },
            Op::UnRot => {
                self.rotate(false);
                Ok(())
            },
            Op::Not => {
                let negated = match self.peek(0) {
                    Cell::False => true,
                    _ => false,
                };
                self.replace_top(1, truth(negated));
                Ok(())
            },
            Op::Exec => match self.peek(0) {
                Cell::Code(target) => {
                    self.discard(1);
                    self.exec_code(target, pc);
                    Ok(())
                },
                _ => Err(invalid_type("Code expected")),
            },
            Op::CondPop => {
                self.cond_pop();
                Ok(())
            },
            Op::While => self.repeat(),
        }
    }

    /// Takes steps until the program counter leaves the buffer, a step fails
    /// or `fuel` steps were taken.
    pub fn run(&mut self, code: &Ops, fuel: u64) -> (result: Result<(), Error>)
        requires
            old(self).wf(),
        ensures
            final(self).wf(),
            final(self)@ == semantics::run(old(self)@, code@.ops, fuel as nat).0,
            match semantics::run(old(self)@, code@.ops, fuel as nat).1 {
                None => result is Ok,
                Some(fault) => result matches Err(error) && error@ == fault,
            },
    {
        let ghost begin = self@;
        let mut left = fuel;
        while self.instruction_counter < code.ops.len()
            invariant
                self.wf(),
                begin == old(self)@,
                code@.ops.len() == code.ops.len(),
                semantics::run(begin, code@.ops, fuel as nat) == semantics::run(
                    self@,
                    code@.ops,
                    left as nat,
                ),
            decreases left,
        {
            if left == 0 {
                return Err(Error::StepLimit);
            }
            match self.step(code) {
                Ok(()) => {},
                Err(error) => {
                    return Err(error);
                },
            }
            left = left - 1;
        }
        Ok(())
    }

    /// Makes the start of `code` the next instruction.
    pub fn load(&mut self, code: &Ops)
        requires
            old(self).wf(),
        ensures
            final(self).wf(),
            final(self)@ == (State { pc: code@.start, ..old(self)@ }),
    {
        self.instruction_counter = code.start;
    }

    /// Runs `code` from its start until it runs off the end of the buffer,
    /// and returns the value stack that it leaves. At the first step that
    /// fails, and after `u64::MAX` steps, the run ends with an error.
    pub fn eval_ops(&mut self, code: &Ops) -> (result: Result<Vec<Cell>, Error>)
        requires
            old(self).wf(),
        ensures
            final(self).wf(),
            final(self)@ == semantics::evaluate(old(self)@, code@).0,
            match semantics::evaluate(old(self)@, code@).1 {
                None => result matches Ok(cells) && values(cells@) == final(self)@.stack,
                Some(fault) => result matches Err(error) && error@ == fault,
            },
    {
        self.load(code);
        match self.run(code, u64::MAX) {
            Ok(()) => Ok(self.stack()),
            Err(error) => Err(error),
        }
    }

    /// Compiles `src` and runs it. A text that does not compile is a
    /// `ParsingError` and leaves the machine as it was.
    pub fn eval(&mut self, src: &str) -> (result: Result<Vec<Cell>, Error>)
        requires
            old(self).wf(),
        ensures
            final(self).wf(),
            match compile(src@) {
                None => result matches Err(error) && error@ == Fault::ParsingError && final(self)@
                    == old(self)@,
                Some(program) => {
                    &&& final(self)@ == semantics::evaluate(old(self)@, program).0
                    &&& match semantics::evaluate(old(self)@, program).1 {
                        None => result matches Ok(cells) && values(cells@) == final(self)@.stack,
                        Some(fault) => result matches Err(error) && error@ == fault,
                    }
                },
            },
    {
        match parse_string(src) {
            Some(ops) => self.eval_ops(&ops),
            None => Err(Error::ParsingError),
        }
    }
}

} // verus!
