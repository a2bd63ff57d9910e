use linen::vm::chunk::debug::{disassemble_chunk, disassemble_instruction};
use linen::vm::chunk::object::{FunctionObject, NativeObject, Obj, StringObject};
use linen::vm::chunk::value::{Val, ValueType};
use linen::vm::chunk::{Chunk, OpCode};
use linen::vm::{Action, CallFrame, InterpretResult, VM};

fn num(value: f64) -> Val {
    Val::number(value.to_bits())
}

fn string(text: &str) -> Val {
    Val::object(Obj::String(StringObject::new(text)))
}

fn script(code: Vec<u8>, constants: Vec<Val>) -> FunctionObject {
    let mut f = FunctionObject::new();
    for (i, byte) in code.iter().enumerate() {
        f.chunk.write(*byte, i + 1);
    }
    for value in constants {
        f.chunk.add_constant(value);
    }
    f
}

fn machine(code: Vec<u8>, constants: Vec<Val>) -> VM {
    let mut vm = VM::new();
    vm.load(script(code, constants));
    vm
}

fn trace(vm: &VM) -> Vec<String> {
    vm.trace.iter().map(|line| String::from_utf8(line.clone()).unwrap()).collect()
}

fn fault(code: Vec<u8>, constants: Vec<Val>) -> Vec<String> {
    let mut vm = machine(code, constants);
    loop {
        match vm.step() {
            Action::Halt(result) => {
                assert_eq!(result, InterpretResult::RuntimeError);
                assert!(vm.stack.is_empty());
                assert!(vm.frames.is_empty());
                assert_eq!(vm.globals.count, 0);
                return trace(&vm);
            }
            Action::Continue => {}
            other => panic!("unexpected {:?}", other),
        }
    }
}

#[test]
fn push_then_pop_leaves_the_stack_as_it_was() {
    let mut vm = VM::new();
    vm.push(num(1.0));
    let before = vm.stack.clone();
    vm.push(string("x"));
    assert_eq!(vm.peek(0), string("x"));
    assert_eq!(vm.peek(1), num(1.0));
    assert_eq!(vm.pop(), string("x"));
    assert_eq!(vm.stack, before);
    assert!(vm.frames.is_empty());
    assert_eq!(vm.globals.count, 0);
}

#[test]
fn load_pushes_the_script_and_enters_its_frame() {
    let f = script(vec![1, 13], vec![]);
    let mut vm = VM::new();
    vm.push(num(9.0));
    vm.load(f.clone());
    assert_eq!(vm.stack, vec![num(9.0), Val::object(Obj::Function(f.clone()))]);
    assert_eq!(vm.frames.len(), 1);
    assert_eq!(vm.frames[0].function, f);
    assert_eq!(vm.frames[0].ip, 0);
    assert_eq!(vm.frames[0].slot, 2);
}

#[test]
fn a_script_returns_and_halts() {
    let mut vm = machine(vec![1, 13], vec![]);
    assert!(matches!(vm.step(), Action::Continue));
    assert_eq!(vm.frames[0].ip, 1);
    assert_eq!(vm.stack.len(), 2);
    assert!(matches!(vm.step(), Action::Halt(InterpretResult::Success)));
    assert!(vm.frames.is_empty());
    assert_eq!(vm.stack, vec![Val::nil()]);
}

#[test]
fn constants_and_literals_are_pushed() {
    let mut vm = machine(vec![0, 0, 1, 2, 3], vec![num(4.0)]);
    for _ in 0..4 {
        assert!(matches!(vm.step(), Action::Continue));
    }
    assert_eq!(vm.stack[1..], [num(4.0), Val::nil(), Val::boolean(true), Val::boolean(false)]);
    assert_eq!(vm.frames[0].ip, 5);
}

#[test]
fn print_hands_the_value_to_the_host() {
    let mut vm = machine(vec![0, 0, 14], vec![string("out")]);
    assert!(matches!(vm.step(), Action::Continue));
    match vm.step() {
        Action::Print(value) => assert_eq!(value, string("out")),
        other => panic!("unexpected {:?}", other),
    }
    assert_eq!(vm.stack.len(), 1);
}

#[test]
fn arithmetic_is_asked_of_the_host() {
    for (byte, op) in [
        (7, OpCode::OpAdd),
        (8, OpCode::OpSubtract),
        (9, OpCode::OpMultiply),
        (10, OpCode::OpDivide),
    ] {
        let mut vm = machine(vec![0, 0, 0, 1, byte], vec![num(6.0), num(3.0)]);
        vm.step();
        vm.step();
        match vm.step() {
            Action::Arithmetic(asked, left, right) => {
                assert_eq!(asked, op);
                assert_eq!(f64::from_bits(left), 6.0);
                assert_eq!(f64::from_bits(right), 3.0);
            }
            other => panic!("unexpected {:?}", other),
        }
        assert_eq!(vm.stack.len(), 1);
    }
}

#[test]
fn add_joins_two_strings() {
    let mut vm = machine(vec![0, 0, 0, 1, 7], vec![string("hi"), string(" there")]);
    vm.step();
    vm.step();
    assert!(matches!(vm.step(), Action::Continue));
    assert_eq!(vm.peek(0), string("hi there"));
    assert_eq!(vm.stack.len(), 2);
}

#[test]
fn comparisons_push_booleans() {
    let cases = [(5, false), (6, true), (24, false), (25, true), (4, false)];
    for (byte, expected) in cases {
        let mut vm = machine(vec![0, 0, 0, 1, byte], vec![num(1.0), num(2.0)]);
        vm.step();
        vm.step();
        assert!(matches!(vm.step(), Action::Continue));
        assert_eq!(vm.peek(0), Val::boolean(expected));
        assert_eq!(vm.stack.len(), 2);
    }
}

#[test]
fn not_and_negate_replace_the_top() {
    let mut vm = machine(vec![1, 11, 0, 0, 12], vec![num(2.0)]);
    vm.step();
    vm.step();
    assert_eq!(vm.peek(0), Val::boolean(true));
    vm.step();
    vm.step();
    assert_eq!(vm.peek(0), num(-2.0));
    assert_eq!(vm.stack.len(), 3);
}

#[test]
fn globals_are_defined_read_and_set() {
    let name = string("g");
    let mut vm = machine(
        vec![0, 1, 16, 0, 17, 0, 0, 2, 18, 0, 15, 17, 0],
        vec![name, num(1.0), num(2.0)],
    );
    vm.step();
    vm.step();
    assert_eq!(vm.stack.len(), 1);
    assert_eq!(vm.globals.table_get(&StringObject::new("g")), Some(num(1.0)));
    vm.step();
    assert_eq!(vm.peek(0), num(1.0));
    vm.step();
    vm.step();
    assert_eq!(vm.globals.table_get(&StringObject::new("g")), Some(num(2.0)));
    assert_eq!(vm.peek(0), num(2.0));
    assert_eq!(vm.stack.len(), 3);
    vm.step();
    vm.step();
    assert_eq!(vm.peek(0), num(2.0));
}

#[test]
fn locals_live_at_the_slot_of_the_frame() {
    // The frame of the script starts at index 1 of the stack.
    let mut vm = machine(vec![0, 0, 0, 1, 19, 0, 20, 1, 19, 1], vec![num(1.0), num(2.0)]);
    for _ in 0..3 {
        vm.step();
    }
    assert_eq!(vm.peek(0), num(1.0));
    vm.step();
    assert_eq!(vm.stack[1..], [num(1.0), num(1.0), num(1.0)]);
    vm.step();
    assert_eq!(vm.peek(0), num(1.0));
}

#[test]
fn jumps_move_the_instruction_pointer() {
    let mut vm = machine(vec![22, 0, 2, 1, 1, 3, 21, 0, 1, 1, 2, 23, 0, 14], vec![]);
    vm.step();
    assert_eq!(vm.frames[0].ip, 5);
    vm.step();
    vm.step();
    assert_eq!(vm.frames[0].ip, 10);
    assert_eq!(vm.peek(0), Val::boolean(false));
    vm.step();
    // A true value does not branch: the pointer is behind the operand only.
    let mut other = machine(vec![2, 21, 0, 9], vec![]);
    other.step();
    other.step();
    assert_eq!(other.frames[0].ip, 4);
    // LOOP goes back by its operand from behind the operand.
    vm.step();
    assert_eq!(vm.frames[0].ip, 0);
}

#[test]
fn a_call_enters_a_frame_and_a_return_leaves_it() {
    let callee = script(vec![19, 0, 13], vec![]);
    let mut callee = callee;
    callee.arity = 1;
    callee.name = StringObject::new("id");
    let mut vm = machine(
        vec![0, 0, 0, 1, 26, 1, 14],
        vec![Val::object(Obj::Function(callee.clone())), num(5.0)],
    );
    vm.step();
    vm.step();
    assert!(matches!(vm.step(), Action::Continue));
    assert_eq!(vm.frames.len(), 2);
    assert_eq!(vm.frames[1].function, callee);
    assert_eq!(vm.frames[1].ip, 0);
    assert_eq!(vm.frames[1].slot, 2);
    vm.step();
    assert!(matches!(vm.step(), Action::Continue));
    assert_eq!(vm.frames.len(), 1);
    // The callee and its argument are gone; the result stands in their place.
    assert_eq!(vm.stack.len(), 2);
    assert_eq!(vm.peek(0), num(5.0));
    assert_eq!(vm.frames[0].ip, 6);
}

#[test]
fn a_native_call_hands_out_the_arguments_last_first() {
    let clock = Val::object(Obj::Native(NativeObject { name: StringObject::new("clock") }));
    let mut vm = machine(vec![0, 0, 0, 1, 0, 2, 26, 2], vec![clock.clone(), num(1.0), num(2.0)]);
    for _ in 0..3 {
        vm.step();
    }
    match vm.step() {
        Action::Native(name, args) => {
            assert_eq!(name, StringObject::new("clock"));
            assert_eq!(args, vec![num(2.0), num(1.0)]);
        }
        other => panic!("unexpected {:?}", other),
    }
    assert_eq!(vm.peek(0), clock);
    assert_eq!(vm.stack.len(), 2);
}

#[test]
fn run_stops_when_the_fuel_is_spent() {
    // An endless loop.
    let mut vm = machine(vec![23, 0, 3], vec![]);
    assert!(matches!(vm.run(1000), Action::Continue));
    assert_eq!(vm.frames.len(), 1);
    assert!(matches!(vm.run(0), Action::Continue));
    let mut done = machine(vec![1, 15, 1, 13], vec![]);
    assert!(matches!(done.run(3), Action::Continue));
    assert!(matches!(done.run(1), Action::Halt(InterpretResult::Success)));
}

#[test]
fn init_registers_the_clock() {
    let mut vm = VM::new();
    vm.push(num(1.0));
    vm.init_vm();
    assert!(vm.stack.is_empty());
    match vm.globals.table_get(&StringObject::new("clock")) {
        Some(Val { value_type: ValueType::Object(Obj::Native(native)) }) => {
            assert_eq!(native.name, StringObject::new("clock"))
        }
        other => panic!("unexpected {:?}", other),
    }
    assert!(vm.define_native(StringObject::new("other")));
    vm.free_vm();
    assert_eq!(vm.globals.table_get(&StringObject::new("clock")), None);
}

#[test]
fn runtime_errors_name_their_cause() {
    let name = string("g");
    assert_eq!(fault(vec![17, 0], vec![name.clone()]), vec![
        "[line 2] in <main> -- Undefined variable."
    ]);
    assert_eq!(fault(vec![1, 18, 0, 13], vec![name.clone()]), vec![
        "[line 4] in <main> -- Undefined variable."
    ]);
    assert_eq!(fault(vec![1, 12, 13], vec![]), vec!["[line 3] in <main> -- Operand must be a number."]);
    assert_eq!(fault(vec![1, 26, 0, 13], vec![]), vec!["[line 4] in <main> -- Can only call functions."]);
    assert_eq!(fault(vec![2, 2, 7, 13], vec![]), vec![
        "[line 4] in <main> -- Invalid operator for boolean values."
    ]);
    assert_eq!(fault(vec![0, 0, 0, 0, 8, 13], vec![name.clone()]), vec![
        "[line 6] in <main> -- Invalid operator for object values."
    ]);
    assert_eq!(fault(vec![0, 0, 1, 6, 13], vec![num(1.0)]), vec![
        "[line 5] in <main> -- Operands must be two numbers or two booleans."
    ]);
}

#[test]
fn broken_code_is_a_runtime_error() {
    assert_eq!(fault(vec![], vec![]), vec!["[line 0] in <main> -- Instruction pointer out of range."]);
    assert_eq!(fault(vec![1], vec![]), vec!["[line 1] in <main> -- Instruction pointer out of range."]);
    assert_eq!(fault(vec![0], vec![]), vec!["[line 1] in <main> -- Instruction pointer out of range."]);
    assert_eq!(fault(vec![27], vec![]), vec!["[line 1] in <main> -- Unknown opcode."]);
    assert_eq!(fault(vec![0, 3, 13], vec![]), vec!["[line 3] in <main> -- Constant index out of range."]);
    assert_eq!(fault(vec![15, 15, 13], vec![]), vec!["[line 3] in <main> -- Stack underflow."]);
    assert_eq!(fault(vec![19, 9, 13], vec![]), vec!["[line 3] in <main> -- Local slot out of range."]);
    assert_eq!(fault(vec![23, 0, 9, 13], vec![]), vec!["[line 4] in <main> -- Jump out of range."]);
    assert_eq!(fault(vec![16, 0, 13], vec![num(1.0)]), vec![
        "[line 3] in <main> -- Global name is not a string."
    ]);
    let mut vm = VM::new();
    assert!(matches!(vm.step(), Action::Halt(InterpretResult::RuntimeError)));
    assert!(vm.trace.is_empty());
}

#[test]
fn the_trace_lists_the_frames_from_the_innermost() {
    let mut inner = script(vec![17, 0, 13], vec![string("missing")]);
    inner.name = StringObject::new("inner");
    let mut vm = machine(vec![0, 0, 26, 0, 13], vec![Val::object(Obj::Function(inner))]);
    loop {
        if let Action::Halt(result) = vm.step() {
            assert_eq!(result, InterpretResult::RuntimeError);
            break;
        }
    }
    assert_eq!(trace(&vm), vec![
        "[line 3] in inner -- Undefined variable.",
        "[line 5] in <main> -- Undefined variable.",
    ]);
}

#[test]
fn frames_can_be_built_by_hand() {
    let mut vm = VM::new();
    vm.push(Val::nil());
    vm.frames.push(CallFrame { function: script(vec![2, 13], vec![]), ip: 0, slot: 1 });
    assert!(matches!(vm.run(10), Action::Halt(InterpretResult::Success)));
    assert_eq!(vm.stack, vec![Val::boolean(true)]);
}

#[test]
fn lists_one_instruction() {
    let mut chunk = Chunk::new();
    chunk.write(0, 123);
    chunk.write(0, 123);
    chunk.write(13, 123);
    chunk.add_constant(num(1.5));
    let numbers = vec!["1.5".as_bytes().to_vec()];
    let (text, next) = disassemble_instruction(&chunk, 0, &numbers);
    assert_eq!(String::from_utf8(text).unwrap(), "0000  123 OP_CONSTANT         0 '1.5'");
    assert_eq!(next, 2);
    let (text, next) = disassemble_instruction(&chunk, 2, &numbers);
    assert_eq!(String::from_utf8(text).unwrap(), "0002    | OP_RETURN");
    assert_eq!(next, 3);
    let (text, next) = disassemble_instruction(&chunk, 3, &numbers);
    assert_eq!(String::from_utf8(text).unwrap(), "0003 Reached end of code at ip = 3");
    assert_eq!(next, 3);
}

#[test]
fn lists_a_chunk_and_walks_exactly_to_its_end() {
    let f = script(
        vec![0, 0, 21, 0, 4, 15, 19, 1, 22, 1, 0, 23, 0, 9, 17, 5, 26, 2, 13],
        vec![string("s")],
    );
    let (lines, end) = disassemble_chunk(&f.chunk, "demo", &vec![]);
    let lines: Vec<String> = lines.into_iter().map(|l| String::from_utf8(l).unwrap()).collect();
    assert_eq!(end, f.chunk.code.len());
    assert_eq!(lines, vec![
        "== demo ==",
        "0000    1 OP_CONSTANT         0 's'",
        "0002    3 OP_JUMP_IF_FALSE    4",
        "0005    6 OP_POP",
        "0006    7 OP_GET_LOCAL        1",
        "0008    9 OP_JUMP           256",
        "0011   12 OP_LOOP             9",
        "0014   15 OP_GET_GLOBAL       5 [Invalid constant index]",
        "0016   17 OP_CALL             2",
        "0018   19 OP_RETURN",
    ]);
    // The offsets at the start of the lines grow, and each is the start of an instruction.
    let offsets: Vec<usize> = lines[1..].iter().map(|l| l[..4].parse().unwrap()).collect();
    assert!(offsets.windows(2).all(|pair| pair[0] < pair[1]));
    assert_eq!(offsets, vec![0, 2, 5, 6, 8, 11, 14, 16, 18]);
}

#[test]
fn lists_broken_code_without_leaving_it() {
    let f = script(vec![99, 22, 0], vec![]);
    let (lines, end) = disassemble_chunk(&f.chunk, "", &vec![]);
    let lines: Vec<String> = lines.into_iter().map(|l| String::from_utf8(l).unwrap()).collect();
    assert_eq!(end, 3);
    assert_eq!(lines, vec!["==  ==", "0000    1 Unknown opcode 99", "0001    2 OP_JUMP [cut off]"]);
}
