use internment::Intern;
use std::hash::{Hash, Hasher};
use stacklang::{Cell, Code, Error, Machine, Op, Ops, Output, Symbol};

fn run(src: &str) -> Result<Vec<Cell>, Error> {
    Machine::new().eval(src)
}

fn text(s: &str) -> Cell {
    Cell::Str(Intern::new(s.to_string()))
}

#[test]
fn adds_two_integers() {
    assert_eq!(run("1 2 +"), Ok(vec![Cell::Int(3)]));
}

#[test]
fn joins_two_strings() {
    assert_eq!(run("\"ab\" \"cd\" +"), Ok(vec![text("abcd")]));
}

#[test]
fn add_rejects_mixed_operands() {
    assert_eq!(
        run("1 \"a\" +"),
        Err(Error::InvalidType("'+' takes 2 integers or 2 strings".to_string()))
    );
}

#[test]
fn subtracts_top_from_lower() {
    assert_eq!(run("5 3 -"), Ok(vec![Cell::Int(2)]));
}

#[test]
fn multiplies() {
    assert_eq!(run("6 7 *"), Ok(vec![Cell::Int(42)]));
}

#[test]
fn division_truncates_toward_zero() {
    assert_eq!(run("7 2 /"), Ok(vec![Cell::Int(3)]));
    assert_eq!(run("0 7 - 2 /"), Ok(vec![Cell::Int(-3)]));
    assert_eq!(run("7 0 2 - /"), Ok(vec![Cell::Int(-3)]));
    assert_eq!(run("0 7 - 0 2 - /"), Ok(vec![Cell::Int(3)]));
}

#[test]
fn division_by_zero_is_an_error() {
    assert_eq!(run("1 0 /"), Err(Error::InvalidType("division by zero".to_string())));
}

#[test]
fn division_of_the_least_integer_by_minus_one_wraps() {
    let mut machine = Machine::new();
    machine.push(Cell::Int(i64::MIN));
    machine.push(Cell::Int(-1));
    assert_eq!(machine.eval("/"), Ok(vec![Cell::Int(i64::MIN)]));
}

#[test]
fn arithmetic_wraps_around() {
    assert_eq!(run("9223372036854775807 1 +"), Ok(vec![Cell::Int(i64::MIN)]));
    assert_eq!(run("0 9223372036854775807 - 2 -"), Ok(vec![Cell::Int(i64::MAX)]));
    assert_eq!(run("9223372036854775807 2 *"), Ok(vec![Cell::Int(-2)]));
}

#[test]
fn arithmetic_rejects_other_values() {
    assert_eq!(run("1 true -"), Err(Error::InvalidType("op takes 2 integers".to_string())));
    assert_eq!(run("\"a\" \"b\" *"), Err(Error::InvalidType("op takes 2 integers".to_string())));
}

#[test]
fn compares_integers() {
    assert_eq!(run("1 2 <"), Ok(vec![Cell::True]));
    assert_eq!(run("2 2 <"), Ok(vec![Cell::False]));
    assert_eq!(run("2 2 <="), Ok(vec![Cell::True]));
    assert_eq!(run("3 2 >"), Ok(vec![Cell::True]));
    assert_eq!(run("1 2 >="), Ok(vec![Cell::False]));
    assert_eq!(run("true 2 <"), Err(Error::InvalidType("op takes 2 integers".to_string())));
}

#[test]
fn equality_is_by_value() {
    assert_eq!(run("1 1 ="), Ok(vec![Cell::True]));
    assert_eq!(run("1 2 ="), Ok(vec![Cell::False]));
    assert_eq!(run("\"a\" \"a\" ="), Ok(vec![Cell::True]));
    assert_eq!(run("\"a\" \"b\" ="), Ok(vec![Cell::False]));
    assert_eq!(run(":a :a ="), Ok(vec![Cell::True]));
    assert_eq!(run(":a :b ="), Ok(vec![Cell::False]));
    assert_eq!(run(":a \"a\" ="), Ok(vec![Cell::False]));
    assert_eq!(run("{ 1 } dup ="), Ok(vec![Cell::True]));
    assert_eq!(run("{ 1 } { 1 } ="), Ok(vec![Cell::False]));
    assert_eq!(run("true 1 ="), Ok(vec![Cell::False]));
}

#[test]
fn stack_shuffles() {
    assert_eq!(run("1 2 ."), Ok(vec![Cell::Int(1)]));
    assert_eq!(run("1 dup"), Ok(vec![Cell::Int(1), Cell::Int(1)]));
    assert_eq!(run("1 2 swap"), Ok(vec![Cell::Int(2), Cell::Int(1)]));
    assert_eq!(run("1 2 3 rot"), Ok(vec![Cell::Int(2), Cell::Int(3), Cell::Int(1)]));
    assert_eq!(run("1 2 3 -rot"), Ok(vec![Cell::Int(3), Cell::Int(1), Cell::Int(2)]));
}

#[test]
fn shuffles_underflow() {
    assert_eq!(run("."), Err(Error::StackUnderflow));
    assert_eq!(run("dup"), Err(Error::StackUnderflow));
    assert_eq!(run("1 swap"), Err(Error::StackUnderflow));
    assert_eq!(run("1 2 rot"), Err(Error::StackUnderflow));
    assert_eq!(run("1 2 -rot"), Err(Error::StackUnderflow));
    assert_eq!(run("not"), Err(Error::StackUnderflow));
    assert_eq!(run("exec"), Err(Error::StackUnderflow));
    assert_eq!(run("1 2 if"), Err(Error::StackUnderflow));
    assert_eq!(run(":a def"), Err(Error::StackUnderflow));
    assert_eq!(run("1 ="), Err(Error::StackUnderflow));
}

#[test]
fn not_treats_everything_but_false_as_true() {
    assert_eq!(run("false not"), Ok(vec![Cell::True]));
    assert_eq!(run("true not"), Ok(vec![Cell::False]));
    assert_eq!(run("7 not"), Ok(vec![Cell::False]));
}

#[test]
fn add_underflows_on_short_stacks() {
    assert_eq!(run("+"), Err(Error::StackUnderflow));
    assert_eq!(run("1 +"), Err(Error::StackUnderflow));
}

#[test]
fn a_failed_step_leaves_the_stack_alone() {
    let mut machine = Machine::new();
    assert_eq!(machine.eval("1 +"), Err(Error::StackUnderflow));
    assert_eq!(machine.stack(), vec![Cell::Int(1)]);
}

#[test]
fn unbound_word_is_unimplemented() {
    assert_eq!(run("foo"), Err(Error::Unimplemented("foo".to_string())));
}

#[test]
fn unbound_word_leaves_the_stack_alone() {
    let mut machine = Machine::new();
    assert_eq!(machine.eval("1 2 foo"), Err(Error::Unimplemented("foo".to_string())));
    assert_eq!(machine.stack(), vec![Cell::Int(1), Cell::Int(2)]);
}

#[test]
fn defines_and_calls_a_word() {
    assert_eq!(run("{ 1 + } :inc def 5 inc"), Ok(vec![Cell::Int(6)]));
}

#[test]
fn redefinition_shadows_for_earlier_compiled_calls() {
    let src = "{ 1 + } :inc def { inc } :twice def { 10 + } :inc def 5 twice";
    assert_eq!(run(src), Ok(vec![Cell::Int(15)]));
}

#[test]
fn a_built_in_can_be_shadowed() {
    let mut machine = Machine::new();
    assert_eq!(machine.eval("{ 7 } :print def print"), Ok(vec![Cell::Int(7)]));
    assert_eq!(machine.take_output(), vec![]);
}

#[test]
fn def_rejects_other_shapes() {
    let expected = "'def' takes a code block and a symbol";
    assert_eq!(run("1 :a def"), Err(Error::InvalidType(expected.to_string())));
    assert_eq!(run("{ } 1 def"), Err(Error::InvalidType(expected.to_string())));
}

#[test]
fn exec_runs_a_block() {
    assert_eq!(run("2 { 3 * } exec"), Ok(vec![Cell::Int(6)]));
    assert_eq!(run("1 exec"), Err(Error::InvalidType("Code expected".to_string())));
}

#[test]
fn nested_blocks_return_to_their_callers() {
    assert_eq!(run("{ { 1 } exec 2 } exec 3"), Ok(vec![Cell::Int(1), Cell::Int(2), Cell::Int(3)]));
}

#[test]
fn if_takes_the_branch_that_the_condition_selects() {
    assert_eq!(run("true { 1 } { 2 } if"), Ok(vec![Cell::Int(1)]));
    assert_eq!(run("false { 1 } { 2 } if"), Ok(vec![Cell::Int(2)]));
    assert_eq!(run("0 { 1 } { 2 } if"), Ok(vec![Cell::Int(1)]));
}

#[test]
fn cond_pop_keeps_one_of_three_cells() {
    let a = Cell::Int(10);
    let b = text("b");
    let code = Ops { ops: vec![Op::CondPop], start: 0 };
    let mut machine = Machine::new();
    machine.push(Cell::Int(0));
    machine.push(Cell::False);
    machine.push(a);
    machine.push(b);
    assert_eq!(machine.eval_ops(&code), Ok(vec![Cell::Int(0), b]));
    let mut machine = Machine::new();
    machine.push(Cell::Int(0));
    machine.push(Cell::True);
    machine.push(a);
    machine.push(b);
    assert_eq!(machine.eval_ops(&code), Ok(vec![Cell::Int(0), a]));
}

#[test]
fn while_counts_down() {
    assert_eq!(run("3 { dup 0 > } { 1 - } while"), Ok(vec![Cell::Int(0)]));
}

#[test]
fn while_checks_the_condition_before_the_first_pass() {
    assert_eq!(run("0 { dup 0 > } { 1 - } while 9"), Ok(vec![Cell::Int(0), Cell::Int(9)]));
}

#[test]
fn while_runs_the_body_once_per_true_condition() {
    let src = "0 5 { dup 0 > } { swap 2 + swap 1 - } while .";
    assert_eq!(run(src), Ok(vec![Cell::Int(10)]));
}

#[test]
fn while_loops_nest() {
    let src = "0 3 { dup 0 > } { 2 { dup 0 > } { rot 1 + -rot 1 - } while . 1 - } while .";
    assert_eq!(run(src), Ok(vec![Cell::Int(6)]));
}

#[test]
fn while_inside_a_word() {
    let src = "{ { dup 0 > } { 1 - } while } :drain def 4 drain 2 drain +";
    assert_eq!(run(src), Ok(vec![Cell::Int(0)]));
}

#[test]
fn while_needs_a_flag() {
    assert_eq!(run("{ } { } while"), Err(Error::StackUnderflow));
}

#[test]
fn while_rejects_a_body_that_is_no_code() {
    let code = Ops { ops: vec![Op::Push(Cell::True), Op::Push(Cell::Int(1)), Op::While], start: 0 };
    assert_eq!(
        Machine::new().eval_ops(&code),
        Err(Error::InvalidType("While expects a code block".to_string()))
    );
}

#[test]
fn while_rejects_a_missing_header() {
    let body = Op::Push(Cell::Code(Code::Custom(0)));
    let code = Ops { ops: vec![Op::Return, Op::Push(Cell::True), body, Op::While], start: 1 };
    assert_eq!(
        Machine::new().eval_ops(&code),
        Err(Error::InvalidType("While expects a loop header before it".to_string()))
    );
}

#[test]
fn while_with_a_false_flag_needs_no_header() {
    let body = Op::Push(Cell::Code(Code::Custom(0)));
    let code = Ops { ops: vec![Op::Return, Op::Push(Cell::False), body, Op::While], start: 1 };
    assert_eq!(Machine::new().eval_ops(&code), Ok(vec![]));
}

#[test]
fn return_at_top_level_underflows_the_call_stack() {
    let code = Ops { ops: vec![Op::Return], start: 0 };
    assert_eq!(Machine::new().eval_ops(&code), Err(Error::CallStackUnderflow));
}

#[test]
fn unbalanced_blocks_do_not_parse() {
    assert_eq!(run("1 }"), Err(Error::ParsingError));
    assert_eq!(run("{ 1"), Err(Error::ParsingError));
}

#[test]
fn malformed_numbers_do_not_parse() {
    assert_eq!(run("12ab"), Err(Error::ParsingError));
    assert_eq!(run("9223372036854775808"), Err(Error::ParsingError));
}

#[test]
fn a_text_that_does_not_parse_leaves_the_machine_alone() {
    let mut machine = Machine::new();
    machine.push(Cell::Int(4));
    assert_eq!(machine.eval("1 2 + }"), Err(Error::ParsingError));
    assert_eq!(machine.stack(), vec![Cell::Int(4)]);
}

#[test]
fn while_without_two_blocks_does_not_parse() {
    assert_eq!(run("while"), Err(Error::ParsingError));
    assert_eq!(run("{ } while"), Err(Error::ParsingError));
    assert_eq!(run("{ } dup while"), Err(Error::ParsingError));
}

#[test]
fn an_endless_loop_runs_out_of_steps() {
    let code = stacklang::parse_string("{ true } { } while").unwrap();
    let mut machine = Machine::new();
    machine.push(Cell::Code(Code::Custom(code.start)));
    let enter = Ops { ops: vec![Op::Exec], start: 0 };
    assert_eq!(machine.run(&enter, 1), Ok(()));
    assert_eq!(machine.run(&code, 1000), Err(Error::StepLimit));
    assert_eq!(machine.stack(), vec![]);
}

#[test]
fn endless_recursion_runs_out_of_steps() {
    let jump = Ops { ops: vec![Op::Push(Cell::Code(Code::Custom(0))), Op::Exec], start: 0 };
    assert_eq!(Machine::new().run(&jump, 1000), Err(Error::StepLimit));
}

#[test]
fn run_stops_when_fuel_is_spent() {
    let code = Ops { ops: vec![Op::Push(Cell::Int(1)), Op::Push(Cell::Int(2)), Op::Add], start: 0 };
    let mut machine = Machine::new();
    assert_eq!(machine.run(&code, 2), Err(Error::StepLimit));
    assert_eq!(machine.stack(), vec![Cell::Int(1), Cell::Int(2)]);
    assert_eq!(machine.run(&code, 1), Ok(()));
    assert_eq!(machine.stack(), vec![Cell::Int(3)]);
}

#[test]
fn step_runs_one_instruction() {
    let code = Ops { ops: vec![Op::Push(Cell::Int(1)), Op::Dup], start: 0 };
    let mut machine = Machine::new();
    assert_eq!(machine.step(&code), Ok(()));
    assert_eq!(machine.stack(), vec![Cell::Int(1)]);
    assert_eq!(machine.step(&code), Ok(()));
    assert_eq!(machine.stack(), vec![Cell::Int(1), Cell::Int(1)]);
}

#[test]
fn push_and_pop() {
    let mut machine = Machine::new();
    assert_eq!(machine.pop(), Err(Error::StackUnderflow));
    machine.push(Cell::Int(1));
    machine.push(Cell::True);
    assert_eq!(machine.pop(), Ok(Cell::True));
    assert_eq!(machine.pop(), Ok(Cell::Int(1)));
    assert_eq!(machine.pop(), Err(Error::StackUnderflow));
}

#[test]
fn print_shows_the_top_without_popping() {
    let mut machine = Machine::new();
    assert_eq!(machine.eval("1 print linebreak \"a\" print"), Ok(vec![Cell::Int(1), text("a")]));
    assert_eq!(
        machine.take_output(),
        vec![Output::Value(Cell::Int(1)), Output::LineBreak, Output::Value(text("a"))]
    );
    assert_eq!(machine.take_output(), vec![]);
}

#[test]
fn print_on_an_empty_stack_writes_nothing() {
    let mut machine = Machine::new();
    assert_eq!(machine.eval("print"), Ok(vec![]));
    assert_eq!(machine.take_output(), vec![]);
}

#[test]
fn symbols_are_interned() {
    let a = Symbol::new_global("inc");
    let b = Symbol::new_global("inc");
    let c = Symbol::new_global("dec");
    assert_eq!(a, b);
    assert_ne!(a, c);
    assert_eq!(a.name, "inc");
    assert_eq!(a.namespace, "");
    assert_eq!(run(":inc"), Ok(vec![Cell::Sym(a)]));
}

#[test]
fn equal_symbols_hash_alike() {
    let mut first = std::collections::hash_map::DefaultHasher::new();
    let mut second = std::collections::hash_map::DefaultHasher::new();
    Symbol::new_global("inc").hash(&mut first);
    Symbol::new_global("inc").hash(&mut second);
    assert_eq!(first.finish(), second.finish());
}

#[test]
fn cells_compare_by_value() {
    assert!(text("a").same(&text("a")));
    assert!(!text("a").same(&text("b")));
    assert!(Cell::Sym(Symbol::new_global("a")).same(&Cell::Sym(Symbol::new_global("a"))));
    assert!(!Cell::Sym(Symbol::new_global("a")).same(&Cell::Sym(Symbol::new_global("b"))));
    assert!(!Cell::Int(1).same(&Cell::True));
    assert!(Cell::Code(Code::Custom(3)).same(&Cell::Code(Code::Custom(3))));
    assert!(!Cell::Code(Code::Custom(3)).same(&Cell::Code(Code::Custom(4))));
}

#[test]
fn exec_runs_a_built_in_at_once() {
    let code = Ops { ops: vec![Op::Exec, Op::Exec], start: 0 };
    let mut machine = Machine::new();
    machine.push(Cell::Int(5));
    machine.push(Cell::Code(Code::BuiltIn(stacklang::BuiltIn::LineBreak)));
    machine.push(Cell::Code(Code::BuiltIn(stacklang::BuiltIn::Print)));
    assert_eq!(machine.eval_ops(&code), Ok(vec![Cell::Int(5)]));
    assert_eq!(
        machine.take_output(),
        vec![
            Output::Value(Cell::Code(Code::BuiltIn(stacklang::BuiltIn::LineBreak))),
            Output::LineBreak
        ]
    );
}

#[test]
fn while_runs_a_built_in_body_and_tests_again() {
    let code = Ops {
        ops: vec![
            Op::Return,
            Op::Push(Cell::Code(Code::Custom(0))),
            Op::Exec,
            Op::Push(Cell::Code(Code::BuiltIn(stacklang::BuiltIn::LineBreak))),
            Op::While,
            Op::Push(Cell::Int(9)),
        ],
        start: 1,
    };
    let mut machine = Machine::new();
    machine.push(Cell::False);
    machine.push(Cell::True);
    machine.push(Cell::Int(3));
    assert_eq!(machine.eval_ops(&code), Ok(vec![Cell::Int(9)]));
    assert_eq!(machine.take_output(), vec![Output::LineBreak, Output::LineBreak]);
}

#[test]
fn a_word_can_call_itself() {
    let src = "{ dup 0 > { 1 - down } { } if } :down def 5 down";
    assert_eq!(run(src), Ok(vec![Cell::Int(0)]));
}

#[test]
fn comments_and_line_breaks_are_skipped() {
    let src = "1 # one\n2 # two\r\n+ # three";
    assert_eq!(run(src), Ok(vec![Cell::Int(3)]));
}

#[test]
fn a_string_with_a_doubled_quote_holds_one_quote() {
    assert_eq!(run("\"a\"\"b\""), Ok(vec![text("a\"b")]));
}

#[test]
fn a_step_behind_the_end_does_nothing() {
    let code = Ops { ops: vec![Op::Push(Cell::Int(1))], start: 0 };
    let mut machine = Machine::new();
    assert_eq!(machine.step(&code), Ok(()));
    assert_eq!(machine.step(&code), Ok(()));
    assert_eq!(machine.step(&code), Ok(()));
    assert_eq!(machine.stack(), vec![Cell::Int(1)]);
}

#[test]
fn a_failed_step_can_be_taken_again() {
    let code = Ops { ops: vec![Op::Add], start: 0 };
    let mut machine = Machine::new();
    machine.push(Cell::Int(1));
    assert_eq!(machine.step(&code), Err(Error::StackUnderflow));
    machine.push(Cell::Int(2));
    assert_eq!(machine.step(&code), Ok(()));
    assert_eq!(machine.stack(), vec![Cell::Int(3)]);
}
