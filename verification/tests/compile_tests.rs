use linen::compiler::{Compiler, FunctionType};
use linen::vm::chunk::object::{FunctionObject, Obj};
use linen::vm::chunk::value::{Val, ValueType};
use linen::vm::chunk::{Chunk, OpCode};

fn number(text: &Vec<u8>) -> u64 {
    std::str::from_utf8(text).unwrap().parse::<f64>().unwrap().to_bits()
}

fn compile(source: &str) -> Result<FunctionObject, Vec<String>> {
    let mut compiler = Compiler::new(source, FunctionType::Script, number);
    match compiler.compile(Chunk::new()) {
        Ok(function) => {
            assert!(compiler.diagnostics.is_empty());
            Ok(function)
        }
        Err(message) => {
            assert_eq!(message, "Compilation failed");
            assert!(!compiler.diagnostics.is_empty());
            Err(compiler
                .diagnostics
                .iter()
                .map(|line| String::from_utf8(line.clone()).unwrap())
                .collect())
        }
    }
}

fn code(source: &str) -> Vec<u8> {
    compile(source).unwrap().chunk.code
}

fn errors(source: &str) -> Vec<String> {
    compile(source).unwrap_err()
}

fn operands(op: u8) -> usize {
    match op {
        0 | 16 | 17 | 18 | 19 | 20 | 26 => 1,
        21 | 22 | 23 => 2,
        _ => 0,
    }
}

/// Walks the instructions of a function and of every function among its constants, and
/// checks each opcode, constant index and jump.
fn check_layout(function: &FunctionObject) {
    let chunk = &function.chunk;
    assert_eq!(chunk.code.len(), chunk.lines.len());
    assert!(chunk.constants.values.len() <= 256);
    let mut offset = 0;
    while offset < chunk.code.len() {
        let op = chunk.code[offset];
        assert!(op <= 26);
        let next = offset + 1 + operands(op);
        assert!(next <= chunk.code.len());
        if matches!(op, 0 | 16 | 17 | 18) {
            assert!((chunk.code[offset + 1] as usize) < chunk.constants.values.len());
        }
        if operands(op) == 2 {
            let jump = chunk.code[offset + 1] as usize * 256 + chunk.code[offset + 2] as usize;
            if op == 23 {
                assert!(jump <= next);
            } else {
                assert!(next + jump < chunk.code.len());
            }
        }
        offset = next;
    }
    assert_eq!(offset, chunk.code.len());
    for value in chunk.constants.values.iter() {
        if let ValueType::Object(Obj::Function(inner)) = &value.value_type {
            check_layout(inner);
        }
    }
}

#[test]
fn compiles_print_statement() {
    let function = compile("print 1 + 2 * 3;").unwrap();
    assert_eq!(function.chunk.code, vec![0, 0, 0, 1, 0, 2, 9, 7, 14, 1, 13]);
    assert_eq!(function.chunk.lines, vec![1; 11]);
    assert_eq!(
        function.chunk.constants.values,
        vec![
            Val::number(1.0f64.to_bits()),
            Val::number(2.0f64.to_bits()),
            Val::number(3.0f64.to_bits()),
        ]
    );
    assert_eq!(function.arity, 0);
    assert!(function.name.is_empty());
}

#[test]
fn an_empty_program_returns_nil() {
    assert_eq!(code(""), vec![1, 13]);
    assert_eq!(code("   // nothing here\n"), vec![1, 13]);
}

#[test]
fn an_empty_block_emits_nothing() {
    assert_eq!(code("{}"), vec![1, 13]);
    assert_eq!(code("{{}{}}"), vec![1, 13]);
}

#[test]
fn a_scope_pops_each_of_its_locals() {
    // NIL, NIL for the two locals, then a POP for each at the end of the block.
    assert_eq!(code("{ var a; var b; }"), vec![1, 1, 15, 15, 1, 13]);
}

#[test]
fn compiles_literals_and_unary_operators() {
    assert_eq!(code("true;"), vec![2, 15, 1, 13]);
    assert_eq!(code("false;"), vec![3, 15, 1, 13]);
    assert_eq!(code("nil;"), vec![1, 15, 1, 13]);
    assert_eq!(code("!true;"), vec![2, 11, 15, 1, 13]);
    assert_eq!(code("-1;"), vec![0, 0, 12, 15, 1, 13]);
}

#[test]
fn compiles_each_binary_operator() {
    let cases: Vec<(&str, Vec<u8>)> = vec![
        ("==", vec![4]),
        ("!=", vec![4, 11]),
        (">", vec![5]),
        (">=", vec![24]),
        ("<", vec![6]),
        ("<=", vec![25]),
        ("+", vec![7]),
        ("-", vec![8]),
        ("*", vec![9]),
        ("/", vec![10]),
    ];
    for (operator, bytes) in cases {
        let mut expected = vec![0, 0, 0, 1];
        expected.extend(bytes);
        expected.extend(vec![15, 1, 13]);
        assert_eq!(code(&format!("1 {} 2;", operator)), expected);
    }
}

#[test]
fn binary_operators_associate_to_the_left() {
    // (1 - 2) - 3
    assert_eq!(code("1 - 2 - 3;"), vec![0, 0, 0, 1, 8, 0, 2, 8, 15, 1, 13]);
}

#[test]
fn grouping_overrides_precedence() {
    assert_eq!(code("(1 + 2) * 3;"), vec![0, 0, 0, 1, 7, 0, 2, 9, 15, 1, 13]);
}

#[test]
fn string_constants_drop_their_quotes() {
    let function = compile("\"hi\";").unwrap();
    assert_eq!(function.chunk.code, vec![0, 0, 15, 1, 13]);
    match &function.chunk.constants.values[0].value_type {
        ValueType::Object(Obj::String(s)) => assert_eq!(s.chars, "hi".as_bytes().to_vec()),
        other => panic!("not a string: {:?}", other),
    }
}

#[test]
fn compiles_globals() {
    // var a = 1;  a = 2;  print a;
    assert_eq!(
        code("var a = 1; a = 2; print a;"),
        vec![0, 1, 16, 0, 0, 3, 18, 2, 15, 17, 4, 14, 1, 13]
    );
    assert_eq!(code("var a;"), vec![1, 16, 0, 1, 13]);
}

#[test]
fn compiles_locals_by_slot() {
    assert_eq!(
        code("{ var a = 1; var b = a; b = 2; }"),
        vec![0, 0, 19, 0, 0, 1, 20, 1, 15, 15, 15, 1, 13]
    );
}

#[test]
fn an_inner_local_shadows_an_outer_one() {
    assert_eq!(
        code("{ var a = 1; { var a = 2; print a; } print a; }"),
        vec![0, 0, 0, 1, 19, 1, 14, 15, 19, 0, 14, 15, 1, 13]
    );
}

#[test]
fn compiles_and_with_a_patched_jump() {
    // TRUE, JUMP_IF_FALSE +2, POP, FALSE, POP
    assert_eq!(code("true and false;"), vec![2, 21, 0, 2, 15, 3, 15, 1, 13]);
}

#[test]
fn compiles_or_with_two_patched_jumps() {
    // TRUE, JUMP_IF_FALSE +3, JUMP +2, POP, FALSE, POP
    assert_eq!(code("true or false;"), vec![2, 21, 0, 3, 22, 0, 2, 15, 3, 15, 1, 13]);
}

#[test]
fn compiles_if_and_else() {
    // 0: TRUE, 1: JIF +6 (to 10), 4: POP, 5: NIL, 6: POP, 7: JUMP +3 (to 13), 10: POP,
    // 11: TRUE, 12: POP
    assert_eq!(
        code("if (true) nil; else true;"),
        vec![2, 21, 0, 6, 15, 1, 15, 22, 0, 3, 15, 2, 15, 1, 13]
    );
    assert_eq!(code("if (true) nil;"), vec![2, 21, 0, 6, 15, 1, 15, 22, 0, 1, 15, 1, 13]);
}

#[test]
fn compiles_while_with_a_loop_back_to_its_start() {
    // 0: TRUE, 1: JIF +6, 4: POP, 5: NIL, 6: POP, 7: LOOP 10, 10: POP
    assert_eq!(code("while (true) nil;"), vec![2, 21, 0, 6, 15, 1, 15, 23, 0, 10, 15, 1, 13]);
}

#[test]
fn compiles_for_with_all_three_clauses() {
    let function = compile("for (var i = 0; i < 2; i = i + 1) print i;").unwrap();
    assert_eq!(
        function.chunk.code,
        vec![
            0, 1, 16, 0, // var i = 0
            17, 2, 0, 3, 6, // i < 2
            21, 0, 21, 15, // leave the loop where it is false
            22, 0, 11, // over the increment to the body
            17, 5, 0, 6, 7, 18, 4, 15, // i = i + 1
            23, 0, 23, // back to the condition
            17, 7, 14, // print i
            23, 0, 17, // back to the increment
            15, 1, 13,
        ]
    );
    check_layout(&function);
}

#[test]
fn compiles_for_without_clauses() {
    // The body, and a jump back to it.
    assert_eq!(code("for (;;) nil;"), vec![1, 15, 23, 0, 5, 1, 13]);
}

#[test]
fn compiles_a_function_into_a_constant() {
    let function = compile("fn add(a, b) { return a + b; }").unwrap();
    // The name is constant 0, the function constant 1.
    assert_eq!(function.chunk.code, vec![0, 1, 16, 0, 1, 13]);
    match &function.chunk.constants.values[1].value_type {
        ValueType::Object(Obj::Function(add)) => {
            assert_eq!(add.arity, 2);
            assert_eq!(add.name.chars, "add".as_bytes().to_vec());
            // The parameters stay on the stack: the call frame is cut off on return.
            assert_eq!(add.chunk.code, vec![19, 0, 19, 1, 7, 13, 1, 13]);
        }
        other => panic!("not a function: {:?}", other),
    }
    check_layout(&function);
}

#[test]
fn compiles_a_call_with_its_argument_count() {
    assert_eq!(code("f(1, 2);"), vec![17, 0, 0, 1, 0, 2, 26, 2, 15, 1, 13]);
    assert_eq!(code("f();"), vec![17, 0, 26, 0, 15, 1, 13]);
}

#[test]
fn compiles_return_inside_a_function() {
    let function = compile("fn f() { return; }").unwrap();
    match &function.chunk.constants.values[1].value_type {
        ValueType::Object(Obj::Function(f)) => {
            assert_eq!(f.chunk.code, vec![1, 13, 1, 13]);
            assert_eq!(f.arity, 0);
        }
        other => panic!("not a function: {:?}", other),
    }
}

#[test]
fn records_the_line_of_each_byte() {
    let function = compile("print 1;\n\nprint 2;").unwrap();
    assert_eq!(function.chunk.code, vec![0, 0, 14, 0, 1, 14, 1, 13]);
    assert_eq!(function.chunk.lines, vec![1, 1, 1, 3, 3, 3, 3, 3]);
}

#[test]
fn compiled_programs_are_laid_out_in_order() {
    let sources = [
        "print 1 + 2 * 3;",
        "var x = 0; for (var i = 0; i < 5; i = i + 1) { x = x + i; } print x;",
        "fn fib(n) { if (n < 2) return n; return fib(n-1) + fib(n-2); } print fib(10);",
        "{ var a = 1; { var a = 2; print a; } print a; }",
        "var a = 1; while (a < 10 and a != 5 or false) { if (a > 3) a = a + 2; else a = a + 1; }",
        "fn outer() { fn inner(x) { while (x) x = !x; return x; } return inner; }",
    ];
    for source in sources {
        check_layout(&compile(source).unwrap());
    }
}

#[test]
fn reports_a_missing_expression() {
    assert_eq!(errors("print ;"), vec!["[line 1] Error at end: Expect expression."]);
    assert_eq!(errors("print +;"), vec!["[line 1] Error at ';': Expect expression."]);
}

#[test]
fn reports_missing_punctuation() {
    assert_eq!(errors("print 1"), vec!["[line 1] Error at end: Expect ';' after value."]);
    assert_eq!(errors("1"), vec!["[line 1] Error at end: Expect ';' after expression."]);
    assert_eq!(errors("(1;"), vec!["[line 1] Error at ';': Expect ')' after expression."]);
    assert_eq!(
        errors("var a = 1"),
        vec!["[line 1] Error at end: Expect ';' after variable declaration."]
    );
    assert_eq!(errors("var 1;"), vec!["[line 1] Error at '1': Expected variable name."]);
    assert_eq!(errors("{ 1;"), vec!["[line 1] Error at end: Expect '}' after block."]);
    assert_eq!(errors("if true) 1;"), vec!["[line 1] Error at 'true': Expect '(' after 'if'."]);
    assert_eq!(errors("if (true 1;"), vec!["[line 1] Error at '1': Expect ')' after condition."]);
    assert_eq!(
        errors("while true) 1;"),
        vec!["[line 1] Error at 'true': Expect '(' after 'while'."]
    );
    assert_eq!(errors("for 1;"), vec!["[line 1] Error at '1': Expect '(' after 'for'."]);
    assert_eq!(errors("f(1;"), vec!["[line 1] Error at ';': Expect ')' after arguments."]);
}

#[test]
fn reports_faulty_function_declarations() {
    assert_eq!(errors("fn (a) {}"), vec!["[line 1] Error at '(': Expect function name"]);
    assert_eq!(
        errors("fn f a) {}"),
        vec!["[line 1] Error at 'a': Expect '(' after function name."]
    );
    assert_eq!(errors("fn f(1) {}"), vec!["[line 1] Error at '1': Expect parameter name"]);
    assert_eq!(errors("fn f(a {}"), vec!["[line 1] Error at '{': Expect ')' after parameters."]);
    assert_eq!(
        errors("fn f(a) 1;"),
        vec!["[line 1] Error at '1': Expect '{' before function body."]
    );
}

#[test]
fn reports_a_second_local_of_one_name() {
    assert_eq!(
        errors("{ var a; var a; }"),
        vec!["[line 1] Error at ';': Already a variable with this name in this scope."]
    );
    assert!(compile("{ var a; { var a; } }").is_ok());
    assert!(compile("var a; var a;").is_ok());
}

#[test]
fn reports_a_local_read_in_its_own_initializer() {
    assert_eq!(
        errors("{ var a = a; }"),
        vec!["[line 1] Error at ';': Can't read local variable in its own initializer."]
    );
}

#[test]
fn reports_an_invalid_assignment_target() {
    assert_eq!(errors("1 + 2 = 3;"), vec!["[line 1] Error at '3': Invalid assignment target."]);
}

#[test]
fn reports_return_at_the_top_level() {
    assert_eq!(
        errors("return 1;"),
        vec!["[line 1] Error at '1': Can't return from top-level code."]
    );
}

#[test]
fn reports_lexical_errors_without_a_place() {
    assert_eq!(errors("print @;"), vec!["[line 1] Error: Unexpected character."]);
    assert_eq!(errors("print \"abc;"), vec!["[line 1] Error: Unterminated string."]);
}

#[test]
fn reports_the_line_of_an_error() {
    assert_eq!(errors("print 1;\nprint 2;\nprint ;"), vec![
        "[line 3] Error at end: Expect expression."
    ]);
}

#[test]
fn holds_back_reports_until_the_next_statement() {
    // In the first statement the missing `)` and `;` are held back behind the first
    // report; each later statement reports again.
    assert_eq!(
        errors("print (1 +; print ;\nvar 2;"),
        vec![
            "[line 1] Error at 'print': Expect expression.",
            "[line 2] Error at 'var': Expect expression.",
            "[line 2] Error at '2': Expected variable name.",
        ]
    );
}

#[test]
fn allows_256_constants_and_no_more() {
    let mut source = String::new();
    for i in 0..256 {
        source.push_str(&format!("{};", i));
    }
    let function = compile(&source).unwrap();
    assert_eq!(function.chunk.constants.values.len(), 256);
    source.push_str("256;");
    assert_eq!(errors(&source), vec!["[line 1] Error at ';': Too many constants in one chunk."]);
}

#[test]
fn allows_255_locals_and_no_more() {
    let mut source = String::from("{");
    for i in 0..255 {
        source.push_str(&format!("var v{};", i));
    }
    let ok = format!("{}}}", source);
    assert!(compile(&ok).is_ok());
    source.push_str("var last;}");
    assert_eq!(
        errors(&source),
        vec!["[line 1] Error at ';': Too many local variables in function."]
    );
}

#[test]
fn allows_255_arguments_and_no_more() {
    let arguments = vec!["nil"; 255].join(",");
    let function = compile(&format!("f({});", arguments)).unwrap();
    let n = function.chunk.code.len();
    assert_eq!(function.chunk.code[n - 5..], [26, 255, 15, 1, 13]);
    let too_many = vec!["nil"; 256].join(",");
    assert_eq!(
        errors(&format!("f({});", too_many)),
        vec!["[line 1] Error at ')': Can't have more than 255 arguments."]
    );
}

#[test]
fn allows_255_parameters_and_no_more() {
    let names: Vec<String> = (0..255).map(|i| format!("p{}", i)).collect();
    let function = compile(&format!("fn f({}) {{}}", names.join(","))).unwrap();
    match &function.chunk.constants.values[1].value_type {
        ValueType::Object(Obj::Function(f)) => assert_eq!(f.arity, 255),
        other => panic!("not a function: {:?}", other),
    }
    let names: Vec<String> = (0..256).map(|i| format!("p{}", i)).collect();
    assert_eq!(
        errors(&format!("fn f({}) {{}}", names.join(",")))[0],
        "[line 1] Error at 'p255': Can't have more than 255 parameters."
    );
}

#[test]
fn reports_a_jump_over_too_much_code() {
    // Each `nil;` is two bytes: 33000 of them are more than a jump can span.
    let body = "nil;".repeat(33000);
    assert_eq!(
        errors(&format!("if (true) {{ {} }}", body)),
        vec!["[line 1] Error at end: Too much code to jump over."]
    );
    assert_eq!(
        errors(&format!("while (true) {{ {} }}", body)),
        vec!["[line 1] Error at end: Loop body too large."]
    );
    let short = "nil;".repeat(30000);
    let function = compile(&format!("while (true) {{ {} }}", short)).unwrap();
    check_layout(&function);
}

#[test]
fn opcodes_convert_to_and_from_bytes() {
    for byte in 0..=26u8 {
        assert_eq!(OpCode::from(byte).byte(), byte);
    }
    assert_eq!(OpCode::OpConstant.byte(), 0);
    assert_eq!(OpCode::OpReturn.byte(), 13);
    assert_eq!(OpCode::OpJumpFalse.byte(), 21);
    assert_eq!(OpCode::OpJump.byte(), 22);
    assert_eq!(OpCode::OpLoop.byte(), 23);
    assert_eq!(OpCode::Call.byte(), 26);
}

#[test]
fn chunks_grow_byte_by_byte() {
    let mut chunk = Chunk::new();
    chunk.write(1, 7);
    chunk.write(13, 8);
    assert_eq!(chunk.code, vec![1, 13]);
    assert_eq!(chunk.lines, vec![7, 8]);
    assert_eq!(chunk.add_constant(Val::nil()), 0);
    assert_eq!(chunk.add_constant(Val::boolean(true)), 1);
    assert_eq!(chunk.constants.values, vec![Val::nil(), Val::boolean(true)]);
    chunk.free_chunk();
    assert!(chunk.code.is_empty());
    assert!(chunk.lines.is_empty());
    assert!(chunk.constants.values.is_empty());
}
