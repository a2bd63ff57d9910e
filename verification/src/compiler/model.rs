use vstd::prelude::*;
use vstd::string::*;

use super::parser::Precedence;
use super::scanner::{newlines, skip_blank, token_end, token_kind, token_text};
use super::token::{Token, TokenType};
use super::utils::{rule_for, ParseFn};
use super::{report_text, FunctionType, Local};
use crate::vm::chunk::object::{interned, FunctionView, StringView};
use crate::vm::chunk::value::{ObjView, ValView};
use crate::vm::chunk::ChunkView;

verus! {

/// What a token stands for.
pub struct TokenView {
    pub token_type: TokenType,
    pub length: usize,
    pub line: usize,
    pub start: usize,
    pub lexeme: Seq<u8>,
}

/// What a local stands for.
pub struct LocalView {
    pub name: TokenView,
    pub depth: usize,
}

impl View for Token {
    type V = TokenView;

    open spec fn view(&self) -> TokenView {
        TokenView {
            token_type: self.token_type,
            length: self.length,
            line: self.line,
            start: self.start,
            lexeme: self.lexeme@,
        }
    }
}

impl View for Local {
    type V = LocalView;

    open spec fn view(&self) -> LocalView {
        LocalView { name: self.name@, depth: self.depth }
    }
}

/// The views of locals, in order.
pub open spec fn locals_view(locals: Seq<Local>) -> Seq<LocalView> {
    locals.map_values(|l: Local| l@)
}

/// What the state of the compiler stands for: the source with the cursor of the scanner,
/// the two tokens of the parser with its error state, the reports, the locals with the
/// scope depth, and the function being compiled.
pub struct CompilerView {
    pub source: Seq<u8>,
    pub start: usize,
    pub current: usize,
    pub line: usize,
    pub ahead: TokenView,
    pub previous: TokenView,
    pub had_error: bool,
    pub panic_mode: bool,
    pub reports: Seq<Seq<u8>>,
    pub locals: Seq<LocalView>,
    pub scope_depth: usize,
    pub function_type: FunctionType,
    pub arity: usize,
    pub name: StringView,
    pub code: Seq<u8>,
    pub lines: Seq<usize>,
    pub constants: Seq<ValView>,
}

/// Whether `number` can give `bits` for `text`.
pub open spec fn gives<F: Fn(&Vec<u8>) -> u64>(number: F, text: Seq<u8>, bits: u64) -> bool {
    exists|t: Vec<u8>| t@ == text && #[trigger] call_ensures(number, (&t,), bits)
}

/// The bits of the double that `number` makes of the text of a number literal.
pub open spec fn number_value<F: Fn(&Vec<u8>) -> u64>(number: F, text: Seq<u8>) -> u64 {
    choose|bits: u64| gives(number, text, bits)
}

/// Whether `number` gives one result for one text.
pub open spec fn number_is_function<F: Fn(&Vec<u8>) -> u64>(number: F) -> bool {
    forall|a: Vec<u8>, b: Vec<u8>, x: u64, y: u64|
        a@ == b@ && #[trigger] call_ensures(number, (&a,), x) && #[trigger] call_ensures(
            number,
            (&b,),
            y,
        ) ==> x == y
}

/// The number of bytes from the start of the token ahead to the end of the source.
pub open spec fn rem(s: CompilerView) -> int {
    s.source.len() - s.start
}

/// The state with the next token of the source as the token ahead.
#[verifier::opaque]
pub open spec fn scan(s: CompilerView) -> CompilerView {
    let at = skip_blank(s.source, s.current as int);
    let end = token_end(s.source, at);
    let text = token_text(s.source, at);
    let line = (s.line + newlines(s.source, s.current as int, end)) as usize;
    CompilerView {
        start: at as usize,
        current: end as usize,
        line,
        ahead: TokenView {
            token_type: token_kind(s.source, at),
            length: text.len() as usize,
            line,
            start: at as usize,
            lexeme: text,
        },
        ..s
    }
}

/// The state with an error recorded at the token ahead, unless reports are held back.
#[verifier::opaque]
pub open spec fn error_at_current(s: CompilerView, message: Seq<u8>) -> CompilerView {
    if s.panic_mode {
        s
    } else {
        CompilerView {
            panic_mode: true,
            had_error: true,
            reports: s.reports.push(
                report_text(s.ahead.line, s.ahead.token_type, s.ahead.lexeme, message),
            ),
            ..s
        }
    }
}

/// The state with the next token that is no error token as the token ahead; the error
/// tokens on the way are reported.
#[verifier::opaque]
pub open spec fn skip_errors(s: CompilerView) -> CompilerView
    decreases s.source.len() - s.current,
{
    let t = scan(s);
    let u = error_at_current(t, t.ahead.lexeme);
    if t.ahead.token_type == TokenType::Error && u.source == s.source && s.current < u.current
        <= s.source.len() {
        skip_errors(u)
    } else {
        t
    }
}

/// The state with the token ahead consumed.
#[verifier::opaque]
pub open spec fn advance(s: CompilerView) -> CompilerView {
    skip_errors(CompilerView { previous: s.ahead, ahead: s.previous, ..s })
}

/// The state with the token ahead consumed if it is of the given kind.
#[verifier::opaque]
pub open spec fn match_token(s: CompilerView, kind: TokenType) -> CompilerView {
    if s.ahead.token_type == kind {
        advance(s)
    } else {
        s
    }
}

/// The state with the token ahead consumed if it is of the given kind, and with an
/// error if not.
#[verifier::opaque]
pub open spec fn consume(s: CompilerView, kind: TokenType, message: Seq<u8>) -> CompilerView {
    if s.ahead.token_type == kind {
        advance(s)
    } else {
        error_at_current(s, message)
    }
}

/// The state with a byte appended to the code.
#[verifier::opaque]
pub open spec fn emit_byte(s: CompilerView, byte: u8) -> CompilerView {
    CompilerView { code: s.code.push(byte), lines: s.lines.push(s.previous.line), ..s }
}

/// The state with two bytes appended to the code.
#[verifier::opaque]
pub open spec fn emit_bytes(s: CompilerView, first: u8, second: u8) -> CompilerView {
    emit_byte(emit_byte(s, first), second)
}

/// The state with a forward jump appended, its operand still to be patched.
#[verifier::opaque]
pub open spec fn emit_jump(s: CompilerView, op: u8) -> CompilerView {
    emit_byte(emit_byte(emit_byte(s, op), 0xff), 0xff)
}

/// The state with the operand at `offset` patched to lead to the end of the code.
#[verifier::opaque]
pub open spec fn patch_jump(s: CompilerView, offset: int) -> CompilerView {
    let distance = s.code.len() - offset - 2;
    let t = if distance > 65535 {
        error_at_current(s, "Too much code to jump over.".spec_bytes())
    } else {
        s
    };
    CompilerView {
        code: t.code.update(offset, ((distance / 256) % 256) as u8).update(
            offset + 1,
            (distance % 256) as u8,
        ),
        ..t
    }
}

/// The state with a jump back to `loop_start` appended.
#[verifier::opaque]
pub open spec fn emit_loop(s: CompilerView, loop_start: int) -> CompilerView {
    let span = s.code.len() - loop_start;
    if span > 65532 {
        emit_byte(
            emit_byte(
                emit_byte(error_at_current(s, "Loop body too large.".spec_bytes()), 23),
                255,
            ),
            255,
        )
    } else {
        emit_byte(
            emit_byte(emit_byte(s, 23), ((span + 3) / 256) as u8),
            ((span + 3) % 256) as u8,
        )
    }
}

/// The index that `make_constant` gives.
pub open spec fn constant_index(s: CompilerView) -> u8 {
    if s.constants.len() >= 256 {
        0
    } else {
        s.constants.len() as u8
    }
}

/// The state with a constant added, or with an error where the chunk is full.
#[verifier::opaque]
pub open spec fn make_constant(s: CompilerView, value: ValView) -> CompilerView {
    if s.constants.len() >= 256 {
        error_at_current(s, "Too many constants in one chunk.".spec_bytes())
    } else {
        CompilerView { constants: s.constants.push(value), ..s }
    }
}

/// The state with a constant added and the instruction that loads it appended.
#[verifier::opaque]
pub open spec fn emit_constant(s: CompilerView, value: ValView) -> CompilerView {
    emit_bytes(make_constant(s, value), 0, constant_index(s))
}

/// The state with the instructions that return nil appended.
#[verifier::opaque]
pub open spec fn emit_return(s: CompilerView) -> CompilerView {
    emit_byte(emit_byte(s, 1), 13)
}

/// The state one scope deeper.
#[verifier::opaque]
pub open spec fn begin_scope(s: CompilerView) -> CompilerView {
    CompilerView { scope_depth: (s.scope_depth + 1) as usize, ..s }
}

/// The number of locals that stay when the scopes deeper than `depth` end.
pub open spec fn floor(locals: Seq<LocalView>, depth: int) -> int
    decreases locals.len(),
{
    if locals.len() > 0 && locals.last().depth > depth {
        floor(locals.drop_last(), depth)
    } else {
        locals.len() as int
    }
}

/// The state with `count` instructions appended that each discard the top of the stack.
#[verifier::opaque]
pub open spec fn emit_pops(s: CompilerView, count: int) -> CompilerView {
    CompilerView {
        code: s.code + Seq::new(count as nat, |i: int| 15u8),
        lines: s.lines + Seq::new(count as nat, |i: int| s.previous.line),
        ..s
    }
}

/// The state one scope less deep: the locals of the scope are dropped and discarded.
#[verifier::opaque]
pub open spec fn end_scope(s: CompilerView) -> CompilerView {
    let depth = s.scope_depth - 1;
    let keep = floor(s.locals, depth);
    emit_pops(
        CompilerView { scope_depth: depth as usize, locals: s.locals.take(keep), ..s },
        s.locals.len() - keep,
    )
}

/// The state with a local added whose initializer is still to be compiled.
#[verifier::opaque]
pub open spec fn add_local(s: CompilerView, name: TokenView) -> CompilerView {
    if s.locals.len() >= 255 {
        error_at_current(s, "Too many local variables in function.".spec_bytes())
    } else {
        CompilerView { locals: s.locals.push(LocalView { name, depth: usize::MAX }), ..s }
    }
}

/// Whether a local of the scopes at `depth` or deeper at the tail of `locals` is named
/// `name`.
pub open spec fn declared(locals: Seq<LocalView>, depth: int, name: Seq<u8>) -> bool
    decreases locals.len(),
{
    if locals.len() == 0 || locals.last().depth < depth {
        false
    } else if locals.last().name.lexeme == name {
        true
    } else {
        declared(locals.drop_last(), depth, name)
    }
}

/// The state with the variable declared that the token just consumed names.
#[verifier::opaque]
pub open spec fn declare_variable(s: CompilerView) -> CompilerView {
    if s.scope_depth == 0 {
        s
    } else if declared(s.locals, s.scope_depth as int, s.previous.lexeme) {
        error_at_current(s, "Already a variable with this name in this scope.".spec_bytes())
    } else {
        add_local(s, s.previous)
    }
}

/// The index of the last local named `name`, or -1 where there is none.
pub open spec fn resolved(locals: Seq<LocalView>, name: Seq<u8>) -> int
    decreases locals.len(),
{
    if locals.len() == 0 {
        -1
    } else if locals.last().name.lexeme == name {
        locals.len() - 1
    } else {
        resolved(locals.drop_last(), name)
    }
}

/// The state after the search for the local named `name`: reading a local whose
/// initializer is still being compiled is an error.
#[verifier::opaque]
pub open spec fn resolve_local(s: CompilerView, name: Seq<u8>) -> CompilerView {
    let slot = resolved(s.locals, name);
    if slot >= 0 && s.locals[slot].depth == usize::MAX {
        error_at_current(s, "Can't read local variable in its own initializer.".spec_bytes())
    } else {
        s
    }
}

/// The state with the local declared last marked as initialized.
#[verifier::opaque]
pub open spec fn mark_initialized(s: CompilerView) -> CompilerView {
    if s.scope_depth == 0 || s.locals.len() == 0 {
        s
    } else {
        CompilerView {
            locals: s.locals.drop_last().push(
                LocalView { name: s.locals.last().name, depth: s.scope_depth },
            ),
            ..s
        }
    }
}

/// The state with the variable just declared defined.
#[verifier::opaque]
pub open spec fn define_variable(s: CompilerView, global: u8) -> CompilerView {
    if s.scope_depth > 0 {
        mark_initialized(s)
    } else {
        emit_bytes(s, 16, global)
    }
}

/// The state with the text of a token added to the constants as a string.
#[verifier::opaque]
pub open spec fn identifier_constant(s: CompilerView, name: Seq<u8>) -> CompilerView {
    make_constant(s, ValView::Object(ObjView::String(interned(name))))
}

/// The state with the name of a variable consumed and declared.
#[verifier::opaque]
pub open spec fn parse_variable(s: CompilerView, message: Seq<u8>) -> CompilerView {
    let t = declare_variable(consume(s, TokenType::Identifier, message));
    if t.scope_depth > 0 {
        t
    } else {
        identifier_constant(t, t.previous.lexeme)
    }
}

/// The index that `parse_variable` gives.
pub open spec fn variable_index(s: CompilerView, message: Seq<u8>) -> u8 {
    let t = declare_variable(consume(s, TokenType::Identifier, message));
    if t.scope_depth > 0 {
        0
    } else {
        constant_index(t)
    }
}

/// The text of a string literal without the quotes around it.
pub open spec fn unquoted(lexeme: Seq<u8>) -> Seq<u8> {
    if lexeme.len() >= 2 {
        lexeme.subrange(1, lexeme.len() - 1)
    } else {
        Seq::empty()
    }
}

/// The state with `true`, `false` or `nil` compiled.
#[verifier::opaque]
pub open spec fn literal(s: CompilerView) -> CompilerView {
    emit_byte(
        s,
        match s.previous.token_type {
            TokenType::False => 3u8,
            TokenType::True => 2u8,
            _ => 1u8,
        },
    )
}

/// The state with a string literal compiled.
#[verifier::opaque]
pub open spec fn string(s: CompilerView) -> CompilerView {
    emit_constant(s, ValView::Object(ObjView::String(interned(unquoted(s.previous.lexeme)))))
}

/// The state with a number literal compiled.
#[verifier::opaque]
pub open spec fn number<F: Fn(&Vec<u8>) -> u64>(s: CompilerView, n: F) -> CompilerView {
    emit_constant(s, ValView::Number(number_value(n, s.previous.lexeme)))
}

/// The code of a binary operator.
pub open spec fn binary_code(kind: TokenType) -> Seq<u8> {
    match kind {
        TokenType::BangEqual => seq![4u8, 11u8],
        TokenType::EqualEqual => seq![4u8],
        TokenType::Greater => seq![5u8],
        TokenType::GreaterEqual => seq![24u8],
        TokenType::Less => seq![6u8],
        TokenType::LessEqual => seq![25u8],
        TokenType::Minus => seq![8u8],
        TokenType::Plus => seq![7u8],
        TokenType::Star => seq![9u8],
        _ => seq![10u8],
    }
}

/// The state with the code of a binary operator appended.
#[verifier::opaque]
pub open spec fn emit_operator(s: CompilerView, kind: TokenType) -> CompilerView {
    if kind == TokenType::BangEqual {
        emit_byte(emit_byte(s, 4), 11)
    } else {
        emit_byte(s, binary_code(kind)[0])
    }
}

/// What compiling the arguments of a call gives: the state, their number, and whether
/// the count ran over.
pub struct Arguments {
    pub state: CompilerView,
    pub count: u8,
    pub over: bool,
}

/// The state with an expression of the given precedence or above compiled.
#[verifier::opaque]
pub open spec fn parse_precedence<F: Fn(&Vec<u8>) -> u64>(
    s: CompilerView,
    p: Precedence,
    n: F,
) -> CompilerView
    decreases rem(s), 0nat,
{
    let s1 = advance(s);
    let can_assign = p.spec_level() <= 1;
    match rule_for(s1.previous.token_type).prefix {
        None => error_at_current(s1, "Expect expression.".spec_bytes()),
        Some(f) => {
            if 0 <= rem(s1) < rem(s) {
                let s2 = match f {
                    ParseFn::Grouping => grouping_expression(s1, n),
                    ParseFn::Unary => unary_expression(s1, n),
                    ParseFn::Variable => variable(s1, can_assign, n),
                    ParseFn::String => string(s1),
                    ParseFn::Number => number(s1, n),
                    ParseFn::Literal => literal(s1),
                    _ => s1,
                };
                let s3 = if 0 <= rem(s2) < rem(s) {
                    infix_loop(s2, p, can_assign, n)
                } else {
                    s2
                };
                if can_assign && s3.ahead.token_type == TokenType::Equal {
                    error_at_current(advance(s3), "Invalid assignment target.".spec_bytes())
                } else {
                    s3
                }
            } else {
                s1
            }
        },
    }
}

/// The state with the infix operators of at least the given precedence compiled, each
/// with its right operand.
#[verifier::opaque]
pub open spec fn infix_loop<F: Fn(&Vec<u8>) -> u64>(
    s: CompilerView,
    p: Precedence,
    can_assign: bool,
    n: F,
) -> CompilerView
    decreases rem(s), 0nat,
{
    if p.spec_level() > rule_for(s.ahead.token_type).precedence.spec_level() {
        s
    } else {
        let s1 = advance(s);
        if 0 <= rem(s1) < rem(s) {
            match rule_for(s1.previous.token_type).infix {
                Some(ParseFn::Call) => {
                    let s2 = call(s1, n);
                    if 0 <= rem(s2) < rem(s) {
                        infix_loop(s2, p, can_assign, n)
                    } else {
                        s2
                    }
                },
                Some(ParseFn::Binary) => {
                    let s2 = binary_expression(s1, n);
                    if 0 <= rem(s2) < rem(s) {
                        infix_loop(s2, p, can_assign, n)
                    } else {
                        s2
                    }
                },
                Some(ParseFn::And) => {
                    let s2 = and(s1, n);
                    if 0 <= rem(s2) < rem(s) {
                        infix_loop(s2, p, can_assign, n)
                    } else {
                        s2
                    }
                },
                Some(ParseFn::Or) => {
                    let s2 = or(s1, n);
                    if 0 <= rem(s2) < rem(s) {
                        infix_loop(s2, p, can_assign, n)
                    } else {
                        s2
                    }
                },
                _ => s1,
            }
        } else {
            s1
        }
    }
}

/// The state with an expression compiled.
#[verifier::opaque]
pub open spec fn expression<F: Fn(&Vec<u8>) -> u64>(s: CompilerView, n: F) -> CompilerView
    decreases rem(s), 1nat,
{
    parse_precedence(s, Precedence::Assignment, n)
}

/// The state with an expression in parentheses compiled.
#[verifier::opaque]
pub open spec fn grouping_expression<F: Fn(&Vec<u8>) -> u64>(s: CompilerView, n: F) -> CompilerView
    decreases rem(s), 2nat,
{
    consume(expression(s, n), TokenType::RightParen, "Expect ')' after expression.".spec_bytes())
}

/// The state with the operand of `-` or `!` compiled, and then the operator.
#[verifier::opaque]
pub open spec fn unary_expression<F: Fn(&Vec<u8>) -> u64>(s: CompilerView, n: F) -> CompilerView
    decreases rem(s), 2nat,
{
    emit_byte(
        parse_precedence(s, Precedence::Unary, n),
        if s.previous.token_type == TokenType::Minus {
            12
        } else {
            11
        },
    )
}

/// The state with the right operand of a binary operator compiled, and then the
/// operator.
#[verifier::opaque]
pub open spec fn binary_expression<F: Fn(&Vec<u8>) -> u64>(s: CompilerView, n: F) -> CompilerView
    decreases rem(s), 2nat,
{
    emit_operator(
        parse_precedence(s, rule_for(s.previous.token_type).precedence.spec_next(), n),
        s.previous.token_type,
    )
}

/// The state with a reference to the variable compiled that the token just consumed
/// names.
#[verifier::opaque]
pub open spec fn variable<F: Fn(&Vec<u8>) -> u64>(s: CompilerView, can_assign: bool, n: F) -> CompilerView
    decreases rem(s), 4nat,
{
    named_variable(s, s.previous.lexeme, can_assign, n)
}

/// The state with a read of a variable compiled, by the instruction `get`, or, where an
/// `=` follows and assignment is allowed, an assignment to it, by the instruction `set`.
#[verifier::opaque]
pub open spec fn access<F: Fn(&Vec<u8>) -> u64>(
    s: CompilerView,
    can_assign: bool,
    get: u8,
    set: u8,
    operand: u8,
    n: F,
) -> CompilerView
    decreases rem(s), 2nat,
{
    if can_assign && s.ahead.token_type == TokenType::Equal {
        let s1 = advance(s);
        let s2 = if 0 <= rem(s1) <= rem(s) {
            expression(s1, n)
        } else {
            s1
        };
        emit_bytes(s2, set, operand)
    } else {
        emit_bytes(s, get, operand)
    }
}

/// The state with a read of the variable `name` compiled, or an assignment to it: the
/// last local of that name is meant, and without one the global.
#[verifier::opaque]
pub open spec fn named_variable<F: Fn(&Vec<u8>) -> u64>(
    s: CompilerView,
    name: Seq<u8>,
    can_assign: bool,
    n: F,
) -> CompilerView
    decreases rem(s), 3nat,
{
    let slot = resolved(s.locals, name);
    let s1 = resolve_local(s, name);
    if slot >= 0 {
        if 0 <= rem(s1) <= rem(s) {
            access(s1, can_assign, 19, 20, slot as u8, n)
        } else {
            s1
        }
    } else {
        let s2 = identifier_constant(s1, name);
        if 0 <= rem(s2) <= rem(s) {
            access(s2, can_assign, 17, 18, constant_index(s1), n)
        } else {
            s2
        }
    }
}

/// The state with the arguments of a call compiled, from the one at the token ahead on.
#[verifier::opaque]
pub open spec fn arguments_from<F: Fn(&Vec<u8>) -> u64>(s: CompilerView, count: u8, n: F) -> Arguments
    decreases rem(s), 2nat,
{
    let s1 = expression(s, n);
    if count == 255 {
        Arguments {
            state: error_at_current(s1, "Can't have more than 255 arguments.".spec_bytes()),
            count: 0,
            over: true,
        }
    } else if s1.ahead.token_type == TokenType::Comma {
        let s2 = advance(s1);
        if 0 <= rem(s2) < rem(s) {
            arguments_from(s2, (count + 1) as u8, n)
        } else {
            Arguments { state: s2, count: (count + 1) as u8, over: false }
        }
    } else {
        Arguments { state: s1, count: (count + 1) as u8, over: false }
    }
}

/// The state with the arguments of a call compiled up to the closing parenthesis, and
/// their number.
#[verifier::opaque]
pub open spec fn argument_list<F: Fn(&Vec<u8>) -> u64>(s: CompilerView, n: F) -> Arguments
    decreases rem(s), 3nat,
{
    let message = "Expect ')' after arguments.".spec_bytes();
    if s.ahead.token_type == TokenType::RightParen {
        Arguments { state: consume(s, TokenType::RightParen, message), count: 0, over: false }
    } else {
        let a = arguments_from(s, 0, n);
        if a.over {
            a
        } else {
            Arguments { state: consume(a.state, TokenType::RightParen, message), ..a }
        }
    }
}

/// The state with the arguments of a call compiled, and then the call.
#[verifier::opaque]
pub open spec fn call<F: Fn(&Vec<u8>) -> u64>(s: CompilerView, n: F) -> CompilerView
    decreases rem(s), 4nat,
{
    let a = argument_list(s, n);
    emit_bytes(a.state, 26, a.count)
}

/// The state with the right operand of `and` compiled.
#[verifier::opaque]
pub open spec fn and<F: Fn(&Vec<u8>) -> u64>(s: CompilerView, n: F) -> CompilerView
    decreases rem(s), 2nat,
{
    let s1 = emit_byte(emit_jump(s, 21), 15);
    let s2 = if 0 <= rem(s1) <= rem(s) {
        parse_precedence(s1, Precedence::And, n)
    } else {
        s1
    };
    patch_jump(s2, s.code.len() as int + 1)
}

/// The state with the right operand of `or` compiled.
#[verifier::opaque]
pub open spec fn or<F: Fn(&Vec<u8>) -> u64>(s: CompilerView, n: F) -> CompilerView
    decreases rem(s), 2nat,
{
    let s1 = emit_byte(patch_jump(emit_jump(emit_jump(s, 21), 22), s.code.len() as int + 1), 15);
    let s2 = if 0 <= rem(s1) <= rem(s) {
        parse_precedence(s1, Precedence::Or, n)
    } else {
        s1
    };
    patch_jump(s2, s.code.len() as int + 4)
}

/// The state with an expression statement compiled.
#[verifier::opaque]
pub open spec fn expression_statement<F: Fn(&Vec<u8>) -> u64>(s: CompilerView, n: F) -> CompilerView
    decreases rem(s), 3nat,
{
    emit_byte(
        consume(expression(s, n), TokenType::Semicolon, "Expect ';' after expression.".spec_bytes()),
        15,
    )
}

/// The state with the rest of a print statement compiled.
#[verifier::opaque]
pub open spec fn print_statement<F: Fn(&Vec<u8>) -> u64>(s: CompilerView, n: F) -> CompilerView
    decreases rem(s), 3nat,
{
    emit_byte(
        consume(expression(s, n), TokenType::Semicolon, "Expect ';' after value.".spec_bytes()),
        14,
    )
}

/// The state with the rest of a return statement compiled.
#[verifier::opaque]
pub open spec fn return_statement<F: Fn(&Vec<u8>) -> u64>(s: CompilerView, n: F) -> CompilerView
    decreases rem(s), 3nat,
{
    let s1 = if s.function_type == FunctionType::Script {
        error_at_current(s, "Can't return from top-level code.".spec_bytes())
    } else {
        s
    };
    if s1.ahead.token_type == TokenType::Semicolon {
        emit_return(advance(s1))
    } else if 0 <= rem(s1) <= rem(s) {
        emit_byte(
            consume(
                expression(s1, n),
                TokenType::Semicolon,
                "Expect ';' after return value.".spec_bytes(),
            ),
            13,
        )
    } else {
        s1
    }
}

/// The state with the rest of a variable declaration compiled.
#[verifier::opaque]
pub open spec fn var_declaration<F: Fn(&Vec<u8>) -> u64>(s: CompilerView, n: F) -> CompilerView
    decreases rem(s), 3nat,
{
    let message = "Expected variable name.".spec_bytes();
    let s1 = parse_variable(s, message);
    let s2 = if s1.ahead.token_type == TokenType::Equal {
        let t = advance(s1);
        if 0 <= rem(t) <= rem(s) {
            expression(t, n)
        } else {
            t
        }
    } else {
        emit_byte(s1, 1)
    };
    define_variable(
        consume(s2, TokenType::Semicolon, "Expect ';' after variable declaration.".spec_bytes()),
        variable_index(s, message),
    )
}

/// The state with a statement compiled.
#[verifier::opaque]
pub open spec fn statement<F: Fn(&Vec<u8>) -> u64>(s: CompilerView, n: F) -> CompilerView
    decreases rem(s), 4nat,
{
    let kind = s.ahead.token_type;
    if kind == TokenType::Print || kind == TokenType::For || kind == TokenType::If || kind
        == TokenType::Return || kind == TokenType::While || kind == TokenType::LeftBrace {
        let t = advance(s);
        if 0 <= rem(t) < rem(s) {
            if kind == TokenType::Print {
                print_statement(t, n)
            } else if kind == TokenType::For {
                for_statement(t, n)
            } else if kind == TokenType::If {
                if_statement(t, n)
            } else if kind == TokenType::Return {
                return_statement(t, n)
            } else if kind == TokenType::While {
                while_statement(t, n)
            } else {
                block(t, n)
            }
        } else {
            t
        }
    } else {
        expression_statement(s, n)
    }
}

/// The state with the rest of an if statement compiled.
#[verifier::opaque]
pub open spec fn if_statement<F: Fn(&Vec<u8>) -> u64>(s: CompilerView, n: F) -> CompilerView
    decreases rem(s), 5nat,
{
    let s1 = consume(s, TokenType::LeftParen, "Expect '(' after 'if'.".spec_bytes());
    let s2 = if 0 <= rem(s1) <= rem(s) {
        expression(s1, n)
    } else {
        s1
    };
    let s3 = consume(s2, TokenType::RightParen, "Expect ')' after condition.".spec_bytes());
    let s4 = emit_byte(emit_jump(s3, 21), 15);
    let s5 = if 0 <= rem(s4) <= rem(s) {
        statement(s4, n)
    } else {
        s4
    };
    let s6 = emit_byte(patch_jump(emit_jump(s5, 22), s3.code.len() as int + 1), 15);
    let s7 = if s6.ahead.token_type == TokenType::Else {
        let t = advance(s6);
        if 0 <= rem(t) <= rem(s) {
            statement(t, n)
        } else {
            t
        }
    } else {
        s6
    };
    patch_jump(s7, s5.code.len() as int + 1)
}

/// The state with the rest of a while statement compiled.
#[verifier::opaque]
pub open spec fn while_statement<F: Fn(&Vec<u8>) -> u64>(s: CompilerView, n: F) -> CompilerView
    decreases rem(s), 5nat,
{
    let s1 = consume(s, TokenType::LeftParen, "Expect '(' after 'while'.".spec_bytes());
    let s2 = if 0 <= rem(s1) <= rem(s) {
        expression(s1, n)
    } else {
        s1
    };
    let s3 = consume(s2, TokenType::RightParen, "Expect ')' after condition.".spec_bytes());
    let s4 = emit_byte(emit_jump(s3, 21), 15);
    let s5 = if 0 <= rem(s4) <= rem(s) {
        statement(s4, n)
    } else {
        s4
    };
    emit_byte(patch_jump(emit_loop(s5, s.code.len() as int), s3.code.len() as int + 1), 15)
}

/// The state with the initializer of a for statement compiled, and the scope of the
/// loop begun.
#[verifier::opaque]
pub open spec fn for_initializer<F: Fn(&Vec<u8>) -> u64>(s: CompilerView, n: F) -> CompilerView
    decreases rem(s), 4nat,
{
    let s1 = consume(s, TokenType::LeftParen, "Expect '(' after 'for'.".spec_bytes());
    let s2 = if s1.ahead.token_type == TokenType::Semicolon {
        advance(s1)
    } else if s1.ahead.token_type == TokenType::Var {
        let t = advance(s1);
        if 0 <= rem(t) <= rem(s) {
            var_declaration(t, n)
        } else {
            t
        }
    } else if 0 <= rem(s1) <= rem(s) {
        expression_statement(s1, n)
    } else {
        s1
    };
    begin_scope(s2)
}

/// The state with the condition of a for statement compiled: where there is one, a
/// jump out of the loop follows it, whose operand is still to be patched.
#[verifier::opaque]
pub open spec fn for_condition<F: Fn(&Vec<u8>) -> u64>(s: CompilerView, n: F) -> CompilerView
    decreases rem(s), 4nat,
{
    if s.ahead.token_type == TokenType::Semicolon {
        advance(s)
    } else {
        emit_byte(
            emit_jump(
                consume(
                    expression(s, n),
                    TokenType::Semicolon,
                    "Expect ';' after loop condition.".spec_bytes(),
                ),
                21,
            ),
            15,
        )
    }
}

/// The offset of the operand of the jump out of a for statement, where it has a
/// condition.
pub open spec fn for_exit<F: Fn(&Vec<u8>) -> u64>(s: CompilerView, n: F) -> Option<int> {
    if s.ahead.token_type == TokenType::Semicolon {
        None
    } else {
        Some(
            consume(
                expression(s, n),
                TokenType::Semicolon,
                "Expect ';' after loop condition.".spec_bytes(),
            ).code.len() as int + 1,
        )
    }
}

/// The state with the increment of a for statement compiled: where there is one, it
/// stands behind a jump over it to the body, and a jump back to `loop_start` follows it.
#[verifier::opaque]
pub open spec fn for_increment<F: Fn(&Vec<u8>) -> u64>(
    s: CompilerView,
    loop_start: int,
    n: F,
) -> CompilerView
    decreases rem(s), 4nat,
{
    if s.ahead.token_type == TokenType::RightParen {
        advance(s)
    } else {
        let s1 = emit_jump(s, 22);
        let s2 = if 0 <= rem(s1) <= rem(s) {
            expression(s1, n)
        } else {
            s1
        };
        consume(
            patch_jump(emit_loop(emit_byte(s2, 15), loop_start), s.code.len() as int + 1),
            TokenType::RightParen,
            "Expect ')' after for clauses.".spec_bytes(),
        )
    }
}

/// The offset that the body of a for statement jumps back to: the increment, where
/// there is one, or else `loop_start`.
pub open spec fn for_target(s: CompilerView, loop_start: int) -> int {
    if s.ahead.token_type == TokenType::RightParen {
        loop_start
    } else {
        s.code.len() as int + 3
    }
}

/// The state with the rest of a for statement compiled.
#[verifier::opaque]
pub open spec fn for_statement<F: Fn(&Vec<u8>) -> u64>(s: CompilerView, n: F) -> CompilerView
    decreases rem(s), 5nat,
{
    let s1 = for_initializer(s, n);
    let s2 = if 0 <= rem(s1) <= rem(s) {
        for_condition(s1, n)
    } else {
        s1
    };
    let s3 = if 0 <= rem(s2) <= rem(s) {
        for_increment(s2, s1.code.len() as int, n)
    } else {
        s2
    };
    let s4 = if 0 <= rem(s3) <= rem(s) {
        statement(s3, n)
    } else {
        s3
    };
    let s5 = emit_loop(s4, for_target(s2, s1.code.len() as int));
    let s6 = match for_exit(s1, n) {
        Some(exit) => emit_byte(patch_jump(s5, exit), 15),
        None => s5,
    };
    end_scope(s6)
}

/// The state with a declaration compiled.
#[verifier::opaque]
pub open spec fn declaration<F: Fn(&Vec<u8>) -> u64>(s: CompilerView, n: F) -> CompilerView
    decreases rem(s), 5nat,
{
    if s.ahead.token_type == TokenType::Fun {
        let t = advance(s);
        if 0 <= rem(t) < rem(s) {
            fun_declaration(t, n)
        } else {
            t
        }
    } else if s.ahead.token_type == TokenType::Var {
        let t = advance(s);
        if 0 <= rem(t) < rem(s) {
            var_declaration(t, n)
        } else {
            t
        }
    } else {
        statement(s, n)
    }
}

/// The state with the rest of a function declaration compiled.
#[verifier::opaque]
pub open spec fn fun_declaration<F: Fn(&Vec<u8>) -> u64>(s: CompilerView, n: F) -> CompilerView
    decreases rem(s), 10nat,
{
    let message = "Expect function name".spec_bytes();
    let s1 = mark_initialized(parse_variable(s, message));
    let s2 = if 0 <= rem(s1) <= rem(s) {
        function(s1, FunctionType::Function, n)
    } else {
        s1
    };
    define_variable(s2, variable_index(s, message))
}

/// The state with the declarations of a block compiled up to its closing brace.
#[verifier::opaque]
pub open spec fn block_body<F: Fn(&Vec<u8>) -> u64>(s: CompilerView, n: F) -> CompilerView
    decreases rem(s), 6nat,
{
    if s.ahead.token_type == TokenType::RightBrace || s.ahead.token_type == TokenType::EOF {
        s
    } else {
        let t = declaration(s, n);
        if 0 <= rem(t) < rem(s) {
            block_body(t, n)
        } else {
            t
        }
    }
}

/// The state with a block compiled, in a scope of its own.
#[verifier::opaque]
pub open spec fn block<F: Fn(&Vec<u8>) -> u64>(s: CompilerView, n: F) -> CompilerView
    decreases rem(s), 7nat,
{
    let s1 = begin_scope(s);
    let s2 = if 0 <= rem(s1) <= rem(s) {
        block_body(s1, n)
    } else {
        s1
    };
    end_scope(consume(s2, TokenType::RightBrace, "Expect '}' after block.".spec_bytes()))
}

/// The state with one more parameter counted.
#[verifier::opaque]
pub open spec fn add_parameter(s: CompilerView) -> CompilerView {
    if s.arity >= 255 {
        error_at_current(s, "Can't have more than 255 parameters.".spec_bytes())
    } else {
        CompilerView { arity: (s.arity + 1) as usize, ..s }
    }
}

/// The state with the parameters of a function compiled, from the one at the token
/// ahead on.
#[verifier::opaque]
pub open spec fn parameters(s: CompilerView) -> CompilerView
    decreases rem(s),
{
    let message = "Expect parameter name".spec_bytes();
    let s1 = add_parameter(s);
    let s2 = define_variable(parse_variable(s1, message), variable_index(s1, message));
    if s2.ahead.token_type == TokenType::Comma {
        let s3 = advance(s2);
        if 0 <= rem(s3) < rem(s) {
            parameters(s3)
        } else {
            s3
        }
    } else {
        s2
    }
}

/// The function that a finished state holds, with the instructions that return nil
/// appended.
pub open spec fn finished(s: CompilerView) -> FunctionView {
    let t = emit_return(s);
    FunctionView {
        arity: t.arity,
        name: t.name,
        chunk: ChunkView { code: t.code, lines: t.lines, constants: t.constants },
    }
}

/// The state at the start of the function named by the token just consumed.
pub open spec fn entered(s: CompilerView, function_type: FunctionType) -> CompilerView {
    CompilerView {
        arity: 0,
        name: interned(s.previous.lexeme),
        code: Seq::empty(),
        lines: Seq::empty(),
        constants: Seq::empty(),
        locals: Seq::empty(),
        scope_depth: 0,
        function_type,
        ..s
    }
}

/// The state `s` with the function being compiled as it was at `outer`.
pub open spec fn left(s: CompilerView, outer: CompilerView) -> CompilerView {
    CompilerView {
        arity: outer.arity,
        name: outer.name,
        code: outer.code,
        lines: outer.lines,
        constants: outer.constants,
        locals: outer.locals,
        scope_depth: outer.scope_depth,
        function_type: outer.function_type,
        ..s
    }
}

/// The state at the end of the body of the function named by the token just consumed.
#[verifier::opaque]
pub open spec fn function_body<F: Fn(&Vec<u8>) -> u64>(
    s: CompilerView,
    function_type: FunctionType,
    n: F,
) -> CompilerView
    decreases rem(s), 8nat,
{
    let s1 = consume(
        begin_scope(entered(s, function_type)),
        TokenType::LeftParen,
        "Expect '(' after function name.".spec_bytes(),
    );
    let s2 = if s1.ahead.token_type == TokenType::RightParen {
        s1
    } else {
        parameters(s1)
    };
    let s3 = consume(
        consume(s2, TokenType::RightParen, "Expect ')' after parameters.".spec_bytes()),
        TokenType::LeftBrace,
        "Expect '{' before function body.".spec_bytes(),
    );
    if 0 <= rem(s3) <= rem(s) {
        block(s3, n)
    } else {
        s3
    }
}

/// The state with a function compiled: its parameters and its body in a function state
/// of their own, and in the enclosing function the constant that holds it.
#[verifier::opaque]
pub open spec fn function<F: Fn(&Vec<u8>) -> u64>(
    s: CompilerView,
    function_type: FunctionType,
    n: F,
) -> CompilerView
    decreases rem(s), 9nat,
{
    let inner = function_body(s, function_type, n);
    emit_constant(left(inner, s), ValView::Object(ObjView::Function(finished(inner))))
}

/// The state with tokens passed over up to the start of the next statement.
#[verifier::opaque]
pub open spec fn resume(s: CompilerView) -> CompilerView
    decreases rem(s),
{
    let kind = s.ahead.token_type;
    if kind == TokenType::EOF || s.previous.token_type == TokenType::Semicolon || kind
        == TokenType::Class || kind == TokenType::Fun || kind == TokenType::Var || kind
        == TokenType::For || kind == TokenType::If || kind == TokenType::While || kind
        == TokenType::Print || kind == TokenType::Return {
        s
    } else {
        let t = advance(s);
        if 0 <= rem(t) < rem(s) {
            resume(t)
        } else {
            t
        }
    }
}

/// The state with reports no longer held back and tokens passed over up to the start of
/// the next statement.
#[verifier::opaque]
pub open spec fn synchronize(s: CompilerView) -> CompilerView {
    resume(CompilerView { panic_mode: false, ..s })
}

/// The state with the declarations of a program compiled up to the end of the source.
#[verifier::opaque]
pub open spec fn program<F: Fn(&Vec<u8>) -> u64>(s: CompilerView, n: F) -> CompilerView
    decreases rem(s),
{
    if s.ahead.token_type == TokenType::EOF {
        advance(s)
    } else {
        let s1 = declaration(s, n);
        let s2 = if s1.panic_mode {
            synchronize(s1)
        } else {
            s1
        };
        if 0 <= rem(s2) < rem(s) {
            program(s2, n)
        } else {
            s2
        }
    }
}

/// The state at the end of compiling a whole source.
pub open spec fn compiled<F: Fn(&Vec<u8>) -> u64>(s: CompilerView, n: F) -> CompilerView {
    program(advance(s), n)
}

/// The state of a new compiler at the start of `source`.
pub open spec fn initial(source: Seq<u8>, function_type: FunctionType) -> CompilerView {
    let placeholder = TokenView {
        token_type: TokenType::EOF,
        length: 0,
        line: 1,
        start: 0,
        lexeme: Seq::empty(),
    };
    CompilerView {
        source,
        start: 0,
        current: 0,
        line: 1,
        ahead: placeholder,
        previous: placeholder,
        had_error: false,
        panic_mode: false,
        reports: Seq::empty(),
        locals: Seq::empty(),
        scope_depth: 0,
        function_type,
        arity: 0,
        name: interned(Seq::empty()),
        code: Seq::empty(),
        lines: Seq::empty(),
        constants: Seq::empty(),
    }
}

/// Whether every local belongs to the scope being compiled or to one around it, and none
/// is still waiting for its initializer.
pub open spec fn settled(s: CompilerView) -> bool {
    s.scope_depth < usize::MAX && forall|i: int|
        0 <= i < s.locals.len() ==> (#[trigger] s.locals[i]).depth <= s.scope_depth
}

/// Whether the locals of `s` are those of `before`, followed by locals of the scope
/// being compiled.
pub open spec fn scoped(s: CompilerView, before: CompilerView) -> bool {
    &&& s.scope_depth == before.scope_depth
    &&& before.locals.len() <= s.locals.len()
    &&& forall|i: int| 0 <= i < before.locals.len() ==> #[trigger] s.locals[i] == before.locals[i]
    &&& forall|i: int|
        before.locals.len() <= i < s.locals.len() ==> (#[trigger] s.locals[i]).depth
            == s.scope_depth
}

/// Where the first `keep` locals are no deeper than `depth` and all behind them are,
/// exactly the first `keep` stay when the scopes deeper than `depth` end.
pub proof fn lemma_floor(locals: Seq<LocalView>, keep: int, depth: int)
    requires
        0 <= keep <= locals.len(),
        forall|i: int| 0 <= i < keep ==> (#[trigger] locals[i]).depth <= depth,
        forall|i: int| keep <= i < locals.len() ==> (#[trigger] locals[i]).depth > depth,
    ensures
        floor(locals, depth) == keep,
    decreases locals.len(),
{
    if locals.len() > keep {
        lemma_floor(locals.drop_last(), keep, depth);
    }
}

/// Entering a scope and leaving it at once changes nothing: no byte is emitted and no
/// local is dropped.
pub proof fn lemma_scope_round_trip(s: CompilerView)
    requires
        settled(s),
    ensures
        end_scope(begin_scope(s)) == s,
{
    reveal(begin_scope);
    reveal(end_scope);
    reveal(emit_pops);
    lemma_floor(s.locals, s.locals.len() as int, s.scope_depth as int);
    let t = end_scope(begin_scope(s));
    assert(t.locals =~= s.locals);
    assert(t.code =~= s.code);
    assert(t.lines =~= s.lines);
}

} // verus!
