//! Values, instructions and compiled programs, each with its mathematical view.

use internment::Intern;
use vstd::prelude::*;
use crate::intern::{interned_text, name_of, same_symbol, same_text, Name, Symbol};

verus! {

/// A routine that the machine itself provides.
#[derive(Debug, Clone, Copy, PartialEq, Eq, Structural)]
pub enum BuiltIn {
    /// Shows the top of the stack, leaving it in place.
    Print,
    /// Ends the current line of output.
    LineBreak,
}

/// Something that can be executed.
#[derive(Debug, Clone, Copy, PartialEq, Eq, Structural)]
pub enum Code {
    /// The block that starts at this address of the instruction buffer.
    Custom(usize),
    BuiltIn(BuiltIn),
}

/// A value on the machine's stack.
#[derive(Debug, Clone, Copy, PartialEq)]
pub enum Cell {
    False,
    True,
    Int(i64),
    Sym(Intern<Symbol>),
    Str(Intern<String>),
    Code(Code),
}

/// What a `Cell` stands for.
pub enum Value {
    False,
    True,
    Int(i64),
    Sym(Name),
    Str(Seq<char>),
    Code(Code),
}

impl View for Cell {
    type V = Value;

    open spec fn view(&self) -> Value {
        match *self {
            Cell::False => Value::False,
            Cell::True => Value::True,
            Cell::Int(n) => Value::Int(n),
            Cell::Sym(handle) => Value::Sym(name_of(handle)),
            Cell::Str(handle) => Value::Str(interned_text(handle)),
            Cell::Code(code) => Value::Code(code),
        }
    }
}

impl Cell {
    /// Whether two cells stand for the same value.
    pub fn same(&self, other: &Cell) -> (same: bool)
        ensures
            same == (self@ == other@),
    {
        match (*self, *other) {
            (Cell::False, Cell::False) => true,
            (Cell::True, Cell::True) => true,
            (Cell::Int(n), Cell::Int(m)) => n == m,
            (Cell::Sym(a), Cell::Sym(b)) => same_symbol(a, b),
            (Cell::Str(a), Cell::Str(b)) => same_text(a, b),
            (Cell::Code(a), Cell::Code(b)) => a == b,
            _ => false,
        }
    }
}

/// Interning is canonical: two symbol cells are the same value, and `=`
/// finds them equal, exactly when the namespaces and the names that their
/// handles were interned from are equal, whatever was interned before or
/// between.
pub proof fn lemma_interning_is_canonical(
    a: Intern<Symbol>,
    b: Intern<Symbol>,
    first: Name,
    second: Name,
)
    requires
        name_of(a) == first,
        name_of(b) == second,
    ensures
        Cell::Sym(a)@ == Cell::Sym(b)@ <==> first.namespace == second.namespace && first.name
            == second.name,
{
}

/// One instruction.
#[derive(Debug, Clone, Copy, PartialEq)]
pub enum Op {
    // Words
    Push(Cell),
    Call(Intern<Symbol>),
    Return,
    Def,
    // Arithmetic
    Add,
    Mul,
    Sub,
    Div,
    // Comparison
    Lt,
    Lte,
    Gt,
    Gte,
    Eq,
    // Stack
    Drop,
    Dup,
    Swap,
    Rot,
    UnRot,
    // Logic
    Not,
    // Control flow
    Exec,
    CondPop,
    While,
}

/// What an `Op` stands for.
pub enum Instr {
    Push(Value),
    Call(Name),
    Return,
    Def,
    Add,
    Mul,
    Sub,
    Div,
    Lt,
    Lte,
    Gt,
    Gte,
    Eq,
    Drop,
    Dup,
    Swap,
    Rot,
    UnRot,
    Not,
    Exec,
    CondPop,
    While,
}

impl View for Op {
    type V = Instr;

    open spec fn view(&self) -> Instr {
        match *self {
            Op::Push(cell) => Instr::Push(cell@),
            Op::Call(handle) => Instr::Call(name_of(handle)),
            Op::Return => Instr::Return,
            Op::Def => Instr::Def,
            Op::Add => Instr::Add,
            Op::Mul => Instr::Mul,
            Op::Sub => Instr::Sub,
            Op::Div => Instr::Div,
            Op::Lt => Instr::Lt,
            Op::Lte => Instr::Lte,
            Op::Gt => Instr::Gt,
            Op::Gte => Instr::Gte,
            Op::Eq => Instr::Eq,
            Op::Drop => Instr::Drop,
            Op::Dup => Instr::Dup,
            Op::Swap => Instr::Swap,
            Op::Rot => Instr::Rot,
            Op::UnRot => Instr::UnRot,
            Op::Not => Instr::Not,
            Op::Exec => Instr::Exec,
            Op::CondPop => Instr::CondPop,
            Op::While => Instr::While,
        }
    }
}

/// The values that a sequence of cells stands for.
pub open spec fn values(cells: Seq<Cell>) -> Seq<Value> {
    cells.map_values(|cell: Cell| cell@)
}

/// The instructions that a sequence of ops stands for.
pub open spec fn instrs(ops: Seq<Op>) -> Seq<Instr> {
    ops.map_values(|op: Op| op@)
}

/// A compiled program: one buffer of instructions, and the address at which
/// its top-level code begins.
#[derive(Debug, PartialEq)]
pub struct Ops {
    pub ops: Vec<Op>,
    pub start: usize,
}

/// What an `Ops` stands for.
pub struct Program {
    pub ops: Seq<Instr>,
    pub start: nat,
}

impl View for Ops {
    type V = Program;

    open spec fn view(&self) -> Program {
        Program { ops: instrs(self.ops@), start: self.start as nat }
    }
}

} // verus!
