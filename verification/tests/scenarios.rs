use linen::vm::chunk::value::{Val, ValueType};
use linen::vm::chunk::OpCode;
use linen::vm::{Action, InterpretResult, VM};

fn number(text: &Vec<u8>) -> u64 {
    std::str::from_utf8(text).unwrap().parse::<f64>().unwrap().to_bits()
}

fn show(value: &Val) -> String {
    let number = match value.value_type {
        ValueType::Number(bits) => format!("{}", f64::from_bits(bits)),
        _ => String::new(),
    };
    String::from_utf8(value.to_text(number.as_bytes())).unwrap()
}

fn lines(trace: &Vec<Vec<u8>>) -> Vec<String> {
    trace.iter().map(|line| String::from_utf8(line.clone()).unwrap()).collect()
}

fn run_source(source: &str) -> (Vec<String>, InterpretResult, Vec<String>) {
    let mut vm = VM::new();
    vm.init_vm();
    let loaded = vm.interpret(source, number);
    if loaded == InterpretResult::CompileError {
        return (Vec::new(), loaded, lines(&vm.trace));
    }
    let mut printed = Vec::new();
    let mut rounds = 0;
    loop {
        rounds += 1;
        assert!(rounds < 1000, "the program does not end");
        match vm.run(100_000) {
            Action::Continue => {}
            Action::Print(value) => printed.push(show(&value)),
            Action::Arithmetic(op, left, right) => {
                let (x, y) = (f64::from_bits(left), f64::from_bits(right));
                let result = match op {
                    OpCode::OpAdd => x + y,
                    OpCode::OpSubtract => x - y,
                    OpCode::OpMultiply => x * y,
                    _ => x / y,
                };
                vm.push(Val::number(result.to_bits()));
            }
            Action::Native(_, _) => vm.push(Val::number(1234.0f64.to_bits())),
            Action::Halt(result) => return (printed, result, lines(&vm.trace)),
        }
    }
}

#[test]
fn prints_arithmetic_with_precedence() {
    let (printed, result, _) = run_source("print 1 + 2 * 3;");
    assert_eq!(printed, vec!["7"]);
    assert_eq!(result, InterpretResult::Success);
}

#[test]
fn concatenates_strings_from_globals() {
    let (printed, result, _) =
        run_source("var a = \"hi\"; var b = \" there\"; print a + b;");
    assert_eq!(printed, vec!["hi there"]);
    assert_eq!(result, InterpretResult::Success);
}

#[test]
fn sums_in_a_for_loop() {
    let (printed, result, _) =
        run_source("var x = 0; for (var i = 0; i < 5; i = i + 1) { x = x + i; } print x;");
    assert_eq!(printed, vec!["10"]);
    assert_eq!(result, InterpretResult::Success);
}

#[test]
fn computes_fibonacci_recursively() {
    let (printed, result, _) = run_source(
        "fn fib(n) { if (n < 2) return n; return fib(n-1) + fib(n-2); } print fib(10);",
    );
    assert_eq!(printed, vec!["55"]);
    assert_eq!(result, InterpretResult::Success);
}

#[test]
fn reports_an_undefined_global() {
    let (printed, result, trace) = run_source("print y;");
    assert!(printed.is_empty());
    assert_eq!(result, InterpretResult::RuntimeError);
    assert_eq!(trace, vec!["[line 1] in <main> -- Undefined variable."]);
}

#[test]
fn shadows_a_local_in_an_inner_block() {
    let (printed, result, _) =
        run_source("{ var a = 1; { var a = 2; print a; } print a; }");
    assert_eq!(printed, vec!["2", "1"]);
    assert_eq!(result, InterpretResult::Success);
}

#[test]
fn runs_a_while_loop() {
    let (printed, result, _) =
        run_source("var i = 0; while (i < 3) { print i; i = i + 1; }");
    assert_eq!(printed, vec!["0", "1", "2"]);
    assert_eq!(result, InterpretResult::Success);
}

#[test]
fn short_circuits_and_and_or() {
    let (printed, _, _) = run_source(
        "print false and 1; print true and 2; print nil or 3; print 4 or 5;",
    );
    assert_eq!(printed, vec!["false", "2", "3", "4"]);
}

#[test]
fn takes_zero_for_true_in_a_branch() {
    let (printed, _, _) = run_source("if (0) print \"yes\"; else print \"no\";");
    assert_eq!(printed, vec!["yes"]);
}

#[test]
fn reports_a_compile_error() {
    let (printed, result, trace) = run_source("print ;");
    assert!(printed.is_empty());
    assert_eq!(result, InterpretResult::CompileError);
    assert_eq!(trace, vec!["[line 1] Error at end: Expect expression."]);
}

#[test]
fn calls_a_native() {
    let (printed, result, _) = run_source("print clock();");
    assert_eq!(printed, vec!["1234"]);
    assert_eq!(result, InterpretResult::Success);
}

#[test]
fn reports_an_arity_mismatch() {
    let (_, result, trace) = run_source("fn f(a) { return a; }\nf(1, 2);");
    assert_eq!(result, InterpretResult::RuntimeError);
    assert_eq!(trace, vec!["[line 2] in <main> -- Expected 1 arguments but got 2."]);
}

#[test]
fn compares_and_negates_numbers() {
    let (printed, _, _) = run_source(
        "print 1 < 2; print 2 <= 2; print 3 > 4; print 4 >= 5; print -3 < -2; print 1 == 1; print 1 != 1; print !nil;",
    );
    assert_eq!(printed, vec!["true", "true", "false", "false", "true", "true", "false", "true"]);
}

/// Runs a program step by step and checks before each step that the machine stands at an
/// instruction. Returns the height of the stack each time the script is about to execute
/// the instruction at `watch`.
fn heights_at(source: &str, watch: usize) -> Vec<usize> {
    let mut vm = VM::new();
    vm.init_vm();
    assert_eq!(vm.interpret(source, number), InterpretResult::Success);
    let mut heights = Vec::new();
    for _ in 0..100_000 {
        assert!(!vm.frames.is_empty());
        let top = vm.frames.last().unwrap();
        assert!(top.ip < top.function.chunk.code.len());
        if vm.frames.len() == 1 && top.ip == watch {
            heights.push(vm.stack.len());
        }
        match vm.step() {
            Action::Continue | Action::Print(_) => {}
            Action::Arithmetic(op, left, right) => {
                let (x, y) = (f64::from_bits(left), f64::from_bits(right));
                let result = match op {
                    OpCode::OpAdd => x + y,
                    OpCode::OpSubtract => x - y,
                    OpCode::OpMultiply => x * y,
                    _ => x / y,
                };
                vm.push(Val::number(result.to_bits()));
            }
            Action::Native(_, _) => vm.push(Val::nil()),
            Action::Halt(result) => {
                assert_eq!(result, InterpretResult::Success);
                return heights;
            }
        }
    }
    panic!("the program does not end");
}

#[test]
fn every_step_starts_at_an_instruction() {
    heights_at("fn fib(n) { if (n < 2) return n; return fib(n-1) + fib(n-2); } print fib(8);", 0);
    heights_at("var x = 0; for (var i = 0; i < 5; i = i + 1) { x = x + i; } print x;", 0);
    heights_at("var i = 0; while (i < 3 and true or false) { if (i == 1) print i; i = i + 1; }", 0);
}

#[test]
fn a_block_leaves_the_stack_as_it_found_it() {
    // The script is alone on the stack before the block and again behind it, where the
    // closing NIL and RETURN stand at offset 12.
    let source = "{ var a = 1; { var a = 2; print a; } print a; }";
    assert_eq!(heights_at(source, 0), vec![1]);
    assert_eq!(heights_at(source, 12), vec![1]);
    // Each turn of a loop starts with the stack as high as the one before.
    let heights = heights_at("var i = 0; while (i < 3) { var twice = i + i; i = i + 1; }", 4);
    assert_eq!(heights, vec![1, 1, 1, 1]);
}
