use vstd::prelude::*;
use vstd::string::*;

pub mod expressions;
pub mod model;
pub mod parser;
pub mod scanner;
pub mod statements;
pub mod token;
pub mod utils;

use crate::text::{append_bytes, decimal, decimal_bytes};
use crate::vm::chunk::object::{interned, FunctionObject, FunctionView, Obj, StringObject};
use crate::vm::chunk::value::{vals_view, ObjView, Val, ValView};
use crate::vm::chunk::{
    boundary, chunk_ok, code_ok_from, ends_with_return, function_ok, function_sound,
    instruction_len, instruction_ok, is_jump, jump_operand, jump_target, jumps_land,
    lemma_reaches_next, lemma_sound_is_ok, reaches, reads_constant, Chunk, ChunkView, OpCode,
};
use model::{locals_view, number_is_function, CompilerView, LocalView, TokenView};
use parser::{Parser, Precedence};
use scanner::Scanner;
use token::{Token, TokenType};
use utils::{get_rules, rule_for, rules_table, ParseFn, ParseRule};

verus! {

/// What is being compiled: the body of a declared function, or the top-level script.
#[derive(Debug, Clone, Copy, PartialEq, Eq, Structural)]
pub enum FunctionType {
    Function,
    Script,
}

/// A local variable: the token that names it and the depth of the scope it belongs to.
/// While its initializer is compiled the depth is `usize::MAX`.
#[derive(Debug)]
pub struct Local {
    pub name: Token,
    pub depth: usize,
}

/// The depth of a local whose initializer is still being compiled.
pub const UNINITIALIZED: usize = usize::MAX;

/// The text of an error report: the line, then the place (the end of the source, nothing
/// for an error token, else the token's text), then the message.
pub open spec fn report_text(line: usize, kind: TokenType, lexeme: Seq<u8>, message: Seq<u8>) -> Seq<
    u8,
> {
    "[line ".spec_bytes() + decimal(line as nat) + "] Error".spec_bytes() + (if kind
        == TokenType::EOF {
        " at end".spec_bytes()
    } else if kind == TokenType::Error {
        Seq::<u8>::empty()
    } else {
        " at '".spec_bytes() + lexeme + "'".spec_bytes()
    }) + ": ".spec_bytes() + message
}

/// Writes the text of an error report.
pub fn report(token: &Token, message: &[u8]) -> (r: Vec<u8>)
    ensures
        r@ == report_text(token.line, token.token_type, token.lexeme@, message@),
{
    let mut r: Vec<u8> = Vec::new();
    append_bytes(&mut r, "[line ".as_bytes());
    let digits = decimal_bytes(token.line);
    append_bytes(&mut r, digits.as_slice());
    append_bytes(&mut r, "] Error".as_bytes());
    if token.token_type == TokenType::EOF {
        append_bytes(&mut r, " at end".as_bytes());
    } else if token.token_type == TokenType::Error {
        assert(r@ + Seq::<u8>::empty() =~= r@);
    } else {
        let ghost before = r@;
        append_bytes(&mut r, " at '".as_bytes());
        append_bytes(&mut r, token.lexeme.as_slice());
        append_bytes(&mut r, "'".as_bytes());
        assert(r@ =~= before + (" at '".spec_bytes() + token.lexeme@ + "'".spec_bytes()));
    }
    append_bytes(&mut r, ": ".as_bytes());
    append_bytes(&mut r, message);
    r
}

/// Whether `starts` lists where the instructions of a chunk begin: the first at 0, each
/// one of a known opcode and followed at its end by the next, the last one ending where
/// the code ends; and every constant index in range.
#[verifier::opaque]
pub open spec fn layout_ok(c: ChunkView, starts: Seq<int>) -> bool {
    &&& c.code.len() == c.lines.len()
    &&& c.constants.len() <= 256
    &&& (starts.len() == 0 ==> c.code.len() == 0)
    &&& (starts.len() > 0 ==> starts[0] == 0 && starts.last() + instruction_len(
        c.code[starts.last()],
    ) == c.code.len())
    &&& forall|i: int|
        0 <= i < starts.len() ==> {
            &&& 0 <= #[trigger] starts[i] < c.code.len()
            &&& c.code[starts[i]] <= 26
            &&& starts[i] + instruction_len(c.code[starts[i]]) <= c.code.len()
            &&& (reads_constant(c.code[starts[i]]) ==> c.code[starts[i] + 1] < c.constants.len())
        }
    &&& forall|i: int, j: int|
        0 <= i < j < starts.len() ==> #[trigger] starts[i] + instruction_len(c.code[starts[i]])
            <= #[trigger] starts[j]
    &&& forall|i: int, j: int|
        0 <= i && j == i + 1 && j < starts.len() ==> #[trigger] starts[i] + instruction_len(
            c.code[starts[i]],
        ) == #[trigger] starts[j]
}

/// Whether every function among the constants can be run without leaving its code.
#[verifier::opaque]
pub open spec fn nested_ok(constants: Seq<ValView>) -> bool {
    forall|i: int|
        0 <= i < constants.len() ==> (#[trigger] constants[i] matches ValView::Object(
            ObjView::Function(g),
        ) ==> function_sound(g))
}

/// Whether `target` is where one of the instructions begins or is `end`, the end of the
/// code.
pub open spec fn lands(starts: Seq<int>, end: int, target: int) -> bool {
    target == end || starts.contains(target)
}

/// Whether every jump among the instructions from index `from` on, but for those whose
/// index is in `pending`, leads to an offset from `lo` to `hi` at which an instruction
/// begins or the code ends.
#[verifier::opaque]
pub open spec fn closed_except(
    code: Seq<u8>,
    starts: Seq<int>,
    from: int,
    lo: int,
    hi: int,
    pending: Set<int>,
) -> bool {
    forall|i: int|
        from <= i < starts.len() && is_jump(code[#[trigger] starts[i]]) && !pending.contains(i)
            ==> lo <= jump_target(code, starts[i]) <= hi && lands(
            starts,
            hi,
            jump_target(code, starts[i]),
        )
}

/// Whether the jumps that `pending` lists, each by the index of its instruction and the
/// offset of its operand, stand among the instructions from index `from` on.
#[verifier::opaque]
pub open spec fn intact(code: Seq<u8>, starts: Seq<int>, from: int, pending: Map<int, int>) -> bool {
    forall|i: int|
        #![trigger pending.contains_key(i)]
        pending.contains_key(i) ==> from <= i < starts.len() && starts[i] == pending[i] - 1 && (
        code[starts[i]] == 21 || code[starts[i]] == 22)
}

/// Whether every jump among the instructions from index `from` on leads to an offset
/// from `lo` to `hi`.
pub open spec fn jumps_closed(code: Seq<u8>, starts: Seq<int>, from: int, lo: int, hi: int) -> bool {
    closed_except(code, starts, from, lo, hi, Set::empty())
}

/// Whether `b` starts with `a`.
#[verifier::opaque]
pub open spec fn is_prefix<T>(a: Seq<T>, b: Seq<T>) -> bool {
    a.len() <= b.len() && forall|i: int| 0 <= i < a.len() ==> #[trigger] b[i] == a[i]
}

/// A single-pass compiler from source text to the chunk of a function. `number` turns
/// the text of a number literal into the bits of its double.
pub struct Compiler<F: Fn(&Vec<u8>) -> u64> {
    pub scanner: Scanner,
    pub parser: Parser,
    pub current_chunk: Option<Chunk>,
    pub rules: Vec<ParseRule>,
    pub locals: Vec<Local>,
    pub scope_depth: usize,
    pub function: FunctionObject,
    pub function_type: FunctionType,
    pub diagnostics: Vec<Vec<u8>>,
    pub number: F,
    pub starts: Ghost<Seq<int>>,
}

impl<F: Fn(&Vec<u8>) -> u64> View for Compiler<F> {
    type V = CompilerView;

    open spec fn view(&self) -> CompilerView {
        CompilerView {
            source: self.scanner.source@,
            start: self.scanner.start,
            current: self.scanner.current,
            line: self.scanner.line,
            ahead: self.parser.current@,
            previous: self.parser.previous@,
            had_error: self.parser.had_error,
            panic_mode: self.parser.panic_mode,
            reports: self.reports(),
            locals: locals_view(self.locals@),
            scope_depth: self.scope_depth,
            function_type: self.function_type,
            arity: self.function.arity,
            name: self.function.name@,
            code: self.code(),
            lines: self.function.chunk.lines@,
            constants: self.pool(),
        }
    }
}

impl<F: Fn(&Vec<u8>) -> u64> Compiler<F> {
    /// The code emitted so far.
    pub open spec fn code(&self) -> Seq<u8> {
        self.function.chunk.code@
    }

    /// The constants added so far.
    pub open spec fn pool(&self) -> Seq<ValView> {
        vals_view(self.function.chunk.constants.values)
    }

    /// The error reports so far.
    pub open spec fn reports(&self) -> Seq<Seq<u8>> {
        Seq::new(self.diagnostics@.len(), |i: int| self.diagnostics@[i]@)
    }

    /// The number of bytes from the start of the token ahead to the end of the source.
    pub open spec fn remaining(&self) -> nat {
        (self.scanner.source@.len() - self.scanner.start) as nat
    }

    /// Whether the token ahead is the end of the source.
    pub open spec fn at_end(&self) -> bool {
        self.parser.current.token_type == TokenType::EOF
    }

    /// The invariant of the compiler.
    pub open spec fn inv(&self) -> bool {
        &&& self.scanner.wf()
        &&& self.scanner.source@.len() <= isize::MAX
        &&& (!self.at_end() ==> self.scanner.start < self.scanner.current)
        &&& (self.at_end() ==> self.scanner.start == self.scanner.source@.len()
            || self.scanner.current == 0)
        &&& rules_table(self.rules@)
        &&& self.locals@.len() <= 255
        &&& self.scope_depth <= self.scanner.start + 1
        &&& (self.parser.panic_mode ==> self.parser.had_error)
        &&& (self.parser.had_error <==> self.diagnostics@.len() > 0)
        &&& self.function.arity <= 255
        &&& layout_ok(self.function.chunk@, self.starts@)
        &&& (!self.parser.had_error ==> nested_ok(self.pool()))
        &&& forall|t: &Vec<u8>| call_requires(self.number, (t,))
        &&& number_is_function(self.number)
    }

    /// Whether nothing but the tokens and the error state differs from `before`.
    pub open spec fn same_output(&self, before: &Self) -> bool {
        &&& self.function == before.function
        &&& self.starts@ == before.starts@
        &&& self.locals@ == before.locals@
        &&& self.scope_depth == before.scope_depth
    }

    /// Whether the parts that no routine changes are those of `before`.
    pub open spec fn same_frame(&self, before: &Self) -> bool {
        &&& self.scanner.source@ == before.scanner.source@
        &&& self.rules == before.rules
        &&& self.number == before.number
        &&& self.function_type == before.function_type
        &&& self.current_chunk == before.current_chunk
    }

    /// Whether the function being compiled has the arity and the name it had at `before`.
    pub open spec fn same_header(&self, before: &Self) -> bool {
        &&& self.function.arity == before.function.arity
        &&& self.function.name@ == before.function.name@
    }

    /// Whether the error state only grew since `before`.
    pub open spec fn errors_grow(&self, before: &Self) -> bool {
        &&& before.parser.had_error ==> self.parser.had_error
        &&& before.diagnostics@.len() <= self.diagnostics@.len()
        &&& is_prefix(before.diagnostics@, self.diagnostics@)
    }

    /// What every routine keeps: the invariant holds; tokens are only consumed; code,
    /// constants and instruction starts are only appended; errors only grow.
    pub open spec fn grows_open(&self, before: &Self) -> bool {
        &&& before.inv()
        &&& self.inv()
        &&& self.same_frame(before)
        &&& self.errors_grow(before)
        &&& before.scanner.start <= self.scanner.start
        &&& before.code().len() <= self.code().len()
        &&& is_prefix(before.code(), self.code())
        &&& before.starts@.len() <= self.starts@.len()
        &&& is_prefix(before.starts@, self.starts@)
        &&& before.pool().len() <= self.pool().len()
        &&& is_prefix(before.pool(), self.pool())
    }

    /// Whether, unless an error was reported, every jump emitted since `before` leads
    /// into the code emitted since `before`.
    pub open spec fn closed_since(&self, before: &Self) -> bool {
        !self.parser.had_error ==> jumps_closed(
            self.code(),
            self.starts@,
            before.starts@.len() as int,
            before.code().len() as int,
            self.code().len() as int,
        )
    }

    /// `grows_open` with every jump emitted since `before` leading into the code emitted
    /// since `before`.
    pub open spec fn grows(&self, before: &Self) -> bool {
        self.grows_open(before) && self.closed_since(before) && self.same_header(before)
    }

    /// What every parsing routine keeps: `grows`, with the scope depth restored.
    pub open spec fn extends(&self, before: &Self) -> bool {
        self.grows(before) && self.scope_depth == before.scope_depth
    }

    /// Whether the tokens and the error state are those of `before`.
    pub open spec fn same_input(&self, before: &Self) -> bool {
        &&& self.scanner == before.scanner
        &&& self.parser == before.parser
        &&& self.diagnostics == before.diagnostics
    }

    /// `extends` without the clause on jumps: a jump whose operand is still to be patched
    /// may stand among the instructions emitted since `before`.
    pub open spec fn extends_open(&self, before: &Self) -> bool {
        self.grows_open(before) && self.scope_depth == before.scope_depth && self.same_header(
            before,
        )
    }

    /// Growth with closed jumps carries over a second step.
    pub proof fn lemma_grows_trans(a: Self, b: Self, c: Self)
        requires
            b.grows(&a),
            c.grows(&b),
        ensures
            c.grows(&a),
    {
        Self::lemma_pending_none(a, b);
        Self::lemma_step(a, b, c, Map::empty());
        Self::lemma_pending_done(a, c);
    }

    /// What every parsing routine keeps carries over a second step.
    pub proof fn lemma_extends_trans(a: Self, b: Self, c: Self)
        requires
            b.extends(&a),
            c.extends(&b),
        ensures
            c.extends(&a),
    {
        Self::lemma_grows_trans(a, b, c);
    }

    /// What every parsing routine keeps holds of a state and itself.
    pub proof fn lemma_extends_refl(a: Self)
        requires
            a.inv(),
        ensures
            a.extends(&a),
    {
        reveal(is_prefix);
        reveal(closed_except);
    }

    /// Whether the jumps that `pending` lists, each by the index of its instruction and
    /// the offset of its operand, stand among the instructions emitted since `before`
    /// with their operands still to be patched, and, unless an error was reported, every
    /// other jump emitted since `before` leads into the code emitted since `before`.
    pub open spec fn pending_since(&self, before: &Self, pending: Map<int, int>) -> bool {
        &&& intact(self.code(), self.starts@, before.starts@.len() as int, pending)
        &&& (!self.parser.had_error ==> closed_except(
            self.code(),
            self.starts@,
            before.starts@.len() as int,
            before.code().len() as int,
            self.code().len() as int,
            pending.dom(),
        ))
    }

    /// Whether `self` is `before` with the operand of the jump at instruction `k`
    /// patched to lead to the end of the code.
    pub open spec fn patched(&self, before: &Self, k: int) -> bool {
        &&& self.inv()
        &&& self.same_frame(before)
        &&& self.same_header(before)
        &&& self.errors_grow(before)
        &&& self.scanner == before.scanner
        &&& self.parser.current == before.parser.current
        &&& self.parser.previous == before.parser.previous
        &&& self.locals@ == before.locals@
        &&& self.scope_depth == before.scope_depth
        &&& self.starts@ == before.starts@
        &&& self.pool() == before.pool()
        &&& self.code().len() == before.code().len()
        &&& 0 <= k < before.starts@.len()
        &&& (forall|i: int|
            0 <= i < before.code().len() && i != before.starts@[k] + 1 && i != before.starts@[k] + 2
                ==> #[trigger] self.code()[i] == before.code()[i])
        &&& (!self.parser.had_error ==> jump_target(self.code(), before.starts@[k])
            == before.code().len())
        &&& (!self.parser.had_error ==> self.parser == before.parser && self.diagnostics
            == before.diagnostics)
    }

    /// Nothing is pending where nothing was emitted.
    pub proof fn lemma_pending_start(a: Self)
        requires
            a.inv(),
        ensures
            a.grows_open(&a),
            a.pending_since(&a, Map::empty()),
    {
        reveal(is_prefix);
        reveal(closed_except);
        reveal(intact);
    }

    /// What was emitted with its jumps closed is emitted with no jump pending.
    pub proof fn lemma_pending_none(a: Self, b: Self)
        requires
            b.closed_since(&a),
        ensures
            b.pending_since(&a, Map::empty()),
    {
        reveal(intact);
        assert(Map::<int, int>::empty().dom() =~= Set::<int>::empty());
    }

    /// Where no jump is pending any more, every jump is closed.
    pub proof fn lemma_pending_done(a: Self, b: Self)
        requires
            b.grows_open(&a),
            b.pending_since(&a, Map::empty()),
        ensures
            b.closed_since(&a),
            b.same_header(&a) ==> b.grows(&a),
    {
        assert(Map::<int, int>::empty().dom() =~= Set::<int>::empty());
    }

    /// An offset at which an instruction begins or the code ends is still one after the
    /// code has grown.
    pub proof fn lemma_mark(b: Self, c: Self, mark: int)
        requires
            c.grows_open(&b),
            lands(b.starts@, b.code().len() as int, mark),
        ensures
            lands(c.starts@, c.code().len() as int, mark),
    {
        reveal(is_prefix);
        reveal(layout_ok);
        let n = b.starts@.len() as int;
        if b.starts@.contains(mark) {
            let j = choose|j: int| 0 <= j < b.starts@.len() && b.starts@[j] == mark;
            assert(c.starts@[j] == mark);
        } else {
            if n > 0 {
                let last = b.starts@[n - 1];
                assert(c.starts@[n - 1] == last);
                assert(c.code()[last] == b.code()[last]);
                assert(b.starts@.last() == last);
                if c.starts@.len() > n {
                    assert(c.starts@[n - 1] + instruction_len(c.code()[c.starts@[n - 1]])
                        == c.starts@[n]);
                    assert(c.starts@[n] == mark);
                } else {
                    assert(c.starts@.last() == last);
                }
            } else {
                if c.starts@.len() > 0 {
                    assert(c.starts@[0] == mark);
                }
            }
        }
    }

    /// A step that closes its own jumps leaves pending what was pending.
    pub proof fn lemma_step(a: Self, b: Self, c: Self, pending: Map<int, int>)
        requires
            b.grows_open(&a),
            b.pending_since(&a, pending),
            c.grows_open(&b),
            c.closed_since(&b),
        ensures
            c.grows_open(&a),
            c.pending_since(&a, pending),
    {
        reveal(is_prefix);
        reveal(layout_ok);
        reveal(closed_except);
        reveal(intact);
        assert forall|i: int| pending.contains_key(i) implies a.starts@.len() <= i
            < c.starts@.len() && c.starts@[i] == pending[i] - 1 && (c.code()[c.starts@[i]] == 21
            || c.code()[c.starts@[i]] == 22) by {
            let p = b.starts@[i];
            assert(c.starts@[i] == p);
            assert(c.code()[p] == b.code()[p]);
        }
        if !c.parser.had_error {
            assert forall|i: int|
                a.starts@.len() <= i < c.starts@.len() && is_jump(c.code()[#[trigger] c.starts@[i]])
                    && !pending.dom().contains(i) implies a.code().len() <= jump_target(
                c.code(),
                c.starts@[i],
            ) <= c.code().len() && lands(
                c.starts@,
                c.code().len() as int,
                jump_target(c.code(), c.starts@[i]),
            ) by {
                if i < b.starts@.len() {
                    let p = b.starts@[i];
                    assert(c.starts@[i] == p);
                    assert(p + instruction_len(b.code()[p]) <= b.code().len());
                    assert(c.code()[p] == b.code()[p]);
                    assert(c.code()[p + 1] == b.code()[p + 1]);
                    assert(c.code()[p + 2] == b.code()[p + 2]);
                    Self::lemma_mark(b, c, jump_target(b.code(), p));
                }
            }
        }
    }

    /// A forward jump just emitted is pending.
    pub proof fn lemma_jump(a: Self, b: Self, c: Self, pending: Map<int, int>)
        requires
            b.grows_open(&a),
            b.pending_since(&a, pending),
            c.grows_open(&b),
            c.starts@ == b.starts@.push(b.code().len() as int),
            c.code().len() == b.code().len() + 3,
            c.code()[b.code().len() as int] == 21 || c.code()[b.code().len() as int] == 22,
        ensures
            c.grows_open(&a),
            c.pending_since(&a, pending.insert(b.starts@.len() as int, b.code().len() as int + 1)),
    {
        reveal(is_prefix);
        reveal(layout_ok);
        reveal(closed_except);
        reveal(intact);
        let more = pending.insert(b.starts@.len() as int, b.code().len() as int + 1);
        assert forall|i: int| more.contains_key(i) implies a.starts@.len() <= i < c.starts@.len()
            && c.starts@[i] == more[i] - 1 && (c.code()[c.starts@[i]] == 21 || c.code()[c.starts@[i]]
            == 22) by {
            if i != b.starts@.len() {
                let p = b.starts@[i];
                assert(c.starts@[i] == p);
                assert(c.code()[p] == b.code()[p]);
            }
        }
        if !c.parser.had_error {
            assert forall|i: int|
                a.starts@.len() <= i < c.starts@.len() && is_jump(c.code()[#[trigger] c.starts@[i]])
                    && !more.dom().contains(i) implies a.code().len() <= jump_target(
                c.code(),
                c.starts@[i],
            ) <= c.code().len() && lands(
                c.starts@,
                c.code().len() as int,
                jump_target(c.code(), c.starts@[i]),
            ) by {
                let p = b.starts@[i];
                assert(c.starts@[i] == p);
                assert(p + instruction_len(b.code()[p]) <= b.code().len());
                assert(c.code()[p] == b.code()[p]);
                assert(c.code()[p + 1] == b.code()[p + 1]);
                assert(c.code()[p + 2] == b.code()[p + 2]);
                    Self::lemma_mark(b, c, jump_target(b.code(), p));
            }
        }
    }

    /// A jump back to an offset within the code emitted since `before` is closed.
    pub proof fn lemma_loop(a: Self, b: Self, c: Self, pending: Map<int, int>, target: int)
        requires
            b.grows_open(&a),
            b.pending_since(&a, pending),
            c.grows_open(&b),
            c.starts@ == b.starts@.push(b.code().len() as int),
            c.code().len() == b.code().len() + 3,
            c.code()[b.code().len() as int] == 23,
            a.code().len() <= target <= b.code().len(),
            lands(b.starts@, b.code().len() as int, target),
            !c.parser.had_error ==> jump_target(c.code(), b.code().len() as int) == target,
        ensures
            c.grows_open(&a),
            c.pending_since(&a, pending),
    {
        reveal(is_prefix);
        reveal(layout_ok);
        reveal(closed_except);
        reveal(intact);
        Self::lemma_mark(b, c, target);
        assert forall|i: int| pending.contains_key(i) implies a.starts@.len() <= i
            < c.starts@.len() && c.starts@[i] == pending[i] - 1 && (c.code()[c.starts@[i]] == 21
            || c.code()[c.starts@[i]] == 22) by {
            let p = b.starts@[i];
            assert(c.starts@[i] == p);
            assert(c.code()[p] == b.code()[p]);
        }
        if !c.parser.had_error {
            assert forall|i: int|
                a.starts@.len() <= i < c.starts@.len() && is_jump(c.code()[#[trigger] c.starts@[i]])
                    && !pending.dom().contains(i) implies a.code().len() <= jump_target(
                c.code(),
                c.starts@[i],
            ) <= c.code().len() && lands(
                c.starts@,
                c.code().len() as int,
                jump_target(c.code(), c.starts@[i]),
            ) by {
                if i < b.starts@.len() {
                    let p = b.starts@[i];
                    assert(c.starts@[i] == p);
                    assert(p + instruction_len(b.code()[p]) <= b.code().len());
                    assert(c.code()[p] == b.code()[p]);
                    assert(c.code()[p + 1] == b.code()[p + 1]);
                    assert(c.code()[p + 2] == b.code()[p + 2]);
                    Self::lemma_mark(b, c, jump_target(b.code(), p));
                }
            }
        }
    }

    /// A pending jump stands where it was emitted.
    pub proof fn lemma_patch_ready(a: Self, b: Self, pending: Map<int, int>, k: int)
        requires
            b.pending_since(&a, pending),
            pending.contains_key(k),
        ensures
            0 <= k < b.starts@.len(),
            b.starts@[k] == pending[k] - 1,
            b.code()[pending[k] - 1] == 21 || b.code()[pending[k] - 1] == 22,
    {
        reveal(intact);
    }

    /// A patched jump is no longer pending.
    pub proof fn lemma_patch(a: Self, b: Self, c: Self, pending: Map<int, int>, k: int)
        requires
            b.grows_open(&a),
            b.pending_since(&a, pending),
            pending.contains_key(k),
            c.patched(&b, k),
        ensures
            c.grows_open(&a),
            c.pending_since(&a, pending.remove(k)),
    {
        reveal(is_prefix);
        reveal(layout_ok);
        reveal(closed_except);
        reveal(intact);
        let starts = b.starts@;
        let at = starts[k];
        assert(a.code().len() <= at) by {
            if a.starts@.len() > 0 {
                let last = a.starts@.len() - 1;
                assert(starts[last] == a.starts@[last]);
                assert(starts[last] + instruction_len(b.code()[starts[last]]) <= starts[k]);
                assert(b.code()[a.starts@[last]] == a.code()[a.starts@[last]]);
            }
        }
        let less = pending.remove(k);
        assert forall|i: int| less.contains_key(i) implies a.starts@.len() <= i < c.starts@.len()
            && c.starts@[i] == less[i] - 1 && (c.code()[c.starts@[i]] == 21 || c.code()[c.starts@[i]]
            == 22) by {
            if i < k {
                assert(starts[i] + instruction_len(b.code()[starts[i]]) <= starts[k]);
            } else {
                assert(starts[k] + instruction_len(b.code()[starts[k]]) <= starts[i]);
            }
        }
        if !c.parser.had_error {
            assert forall|i: int|
                a.starts@.len() <= i < c.starts@.len() && is_jump(c.code()[#[trigger] c.starts@[i]])
                    && !less.dom().contains(i) implies a.code().len() <= jump_target(
                c.code(),
                c.starts@[i],
            ) <= c.code().len() && lands(
                c.starts@,
                c.code().len() as int,
                jump_target(c.code(), c.starts@[i]),
            ) by {
                if i != k {
                    let p = starts[i];
                    assert(p + instruction_len(b.code()[p]) <= b.code().len());
                    if i < k {
                        assert(starts[i] + instruction_len(b.code()[starts[i]]) <= starts[k]);
                    } else {
                        assert(starts[k] + instruction_len(b.code()[starts[k]]) <= starts[i]);
                    }
                    assert(c.code()[p] == b.code()[p]);
                    assert(c.code()[p + 1] == b.code()[p + 1]);
                    assert(c.code()[p + 2] == b.code()[p + 2]);
                }
            }
        }
    }

    /// Records an error at the token ahead unless reports are being held back, and holds
    /// further reports back.
    fn error_at_current(&mut self, message: &[u8])
        requires
            old(self).inv(),
        ensures
            final(self).extends(old(self)),
            final(self).same_output(old(self)),
            final(self).scanner == old(self).scanner,
            final(self).parser.current == old(self).parser.current,
            final(self).parser.previous == old(self).parser.previous,
            final(self).parser.had_error,
            final(self).parser.panic_mode,
            old(self).parser.panic_mode ==> final(self).diagnostics == old(self).diagnostics,
            !old(self).parser.panic_mode ==> final(self).reports() == old(self).reports().push(
                report_text(
                    old(self).parser.current.line,
                    old(self).parser.current.token_type,
                    old(self).parser.current.lexeme@,
                    message@,
                ),
            ),
            final(self)@ == model::error_at_current(old(self)@, message@),
    {
        proof {
            reveal(model::error_at_current);
        }
        proof {
            reveal(is_prefix);
            reveal(layout_ok);
            reveal(nested_ok);
            reveal(closed_except);
        }
        if self.parser.panic_mode {
            return ;
        }
        let text = report(&self.parser.current, message);
        self.parser.panic_mode = true;
        self.diagnostics.push(text);
        self.parser.had_error = true;
        proof {
            assert(self.reports() =~= old(self).reports().push(
                report_text(
                    old(self).parser.current.line,
                    old(self).parser.current.token_type,
                    old(self).parser.current.lexeme@,
                    message@,
                ),
            ));
        }
    }

    /// Takes the next token from the scanner. Error tokens are reported and passed over.
    fn advance(&mut self)
        requires
            old(self).inv(),
        ensures
            final(self).extends(old(self)),
            final(self).same_output(old(self)),
            final(self).parser.previous == old(self).parser.current,
            final(self).parser.current.token_type != TokenType::Error,
            !old(self).at_end() ==> old(self).scanner.start < final(self).scanner.start,
            final(self).at_end() <==> final(self).scanner.start == final(self).scanner.source@.len(),
            final(self)@ == model::advance(old(self)@),
    {
        proof {
            reveal(is_prefix);
            reveal(closed_except);
        }
        core::mem::swap(&mut self.parser.previous, &mut self.parser.current);
        proof {
            reveal(model::advance);
        }
        loop
            invariant_except_break
                model::skip_errors(self@) == model::advance(old(self)@),
            invariant
                self.scanner.wf(),
                self.same_frame(old(self)),
                self.same_header(old(self)),
                self.same_output(old(self)),
                self.errors_grow(old(self)),
                old(self).inv(),
                self.parser.previous == old(self).parser.current,
                old(self).scanner.current <= self.scanner.current,
                self.parser.panic_mode ==> self.parser.had_error,
                self.parser.had_error <==> self.diagnostics@.len() > 0,
            ensures
                self.extends(old(self)),
                self.same_output(old(self)),
                self.parser.previous == old(self).parser.current,
                self.parser.current.token_type != TokenType::Error,
                old(self).scanner.current <= self.scanner.start,
                self.at_end() <==> self.scanner.start == self.scanner.source@.len(),
                self@ == model::advance(old(self)@),
            decreases self.scanner.source@.len() - self.scanner.current,
        {
            proof {
                reveal(is_prefix);
                reveal(closed_except);
            }
            let ghost before = self@;
            let token = self.scanner.scan_token();
            let is_error = token.token_type == TokenType::Error;
            let message = if is_error {
                token.lexeme.clone()
            } else {
                Vec::new()
            };
            self.parser.current = token;
            proof {
                assert(self@ == model::scan(before)) by {
                    reveal(model::scan);
                }
                let t = model::scan(before);
                let u = model::error_at_current(t, t.ahead.lexeme);
                assert(u.source == t.source && u.current == t.current) by {
                    reveal(model::error_at_current);
                }
                assert(model::skip_errors(before) == (if t.ahead.token_type == TokenType::Error
                    && u.source == before.source && before.current < u.current
                    <= before.source.len() {
                    model::skip_errors(u)
                } else {
                    t
                })) by {
                    reveal(model::skip_errors);
                }
            }
            if !is_error {
                break ;
            }
            self.error_at_current(message.as_slice());
        }
    }

    /// Whether the token ahead is of the given kind.
    fn check(&self, token_type: TokenType) -> (r: bool)
        ensures
            r == (self.parser.current.token_type == token_type),
    {
        self.parser.current.token_type == token_type
    }

    /// Consumes the token ahead if it is of the given kind, and says whether it was.
    fn match_token(&mut self, token_type: TokenType) -> (r: bool)
        requires
            old(self).inv(),
        ensures
            r == (old(self).parser.current.token_type == token_type),
            !r ==> *final(self) == *old(self),
            final(self).extends(old(self)),
            final(self).same_output(old(self)),
            r ==> final(self).parser.previous == old(self).parser.current,
            r && token_type != TokenType::EOF ==> old(self).scanner.start < final(self).scanner.start,
            r ==> (final(self).at_end() <==> final(self).scanner.start == final(self).scanner.source@.len()),
            final(self)@ == model::match_token(old(self)@, token_type),
    {
        proof {
            reveal(model::match_token);
        }
        proof {
            reveal(is_prefix);
            reveal(closed_except);
        }
        if !self.check(token_type) {
            return false;
        }
        self.advance();
        true
    }

    /// Consumes the token ahead if it is of the given kind, and reports `message` if not.
    fn consume(&mut self, token_type: TokenType, message: &[u8])
        requires
            old(self).inv(),
        ensures
            final(self).extends(old(self)),
            final(self).same_output(old(self)),
            old(self).parser.current.token_type != token_type ==> final(self).parser.had_error,
            old(self).parser.current.token_type == token_type && token_type != TokenType::EOF
                ==> old(self).scanner.start < final(self).scanner.start,
            final(self)@ == model::consume(old(self)@, token_type, message@),
    {
        proof {
            reveal(model::consume);
        }
        proof {
            reveal(is_prefix);
            reveal(closed_except);
        }
        if self.parser.current.token_type == token_type {
            self.advance();
            return ;
        }
        self.error_at_current(message);
    }

    /// Appends one byte to the code, with the line of the token just consumed.
    fn emit_byte(&mut self, byte: u8)
        ensures
            final(self).same_input(old(self)),
            final(self).same_frame(old(self)),
            final(self).same_header(old(self)),
            final(self).locals@ == old(self).locals@,
            final(self).scope_depth == old(self).scope_depth,
            final(self).starts == old(self).starts,
            final(self).pool() == old(self).pool(),
            final(self).code() == old(self).code().push(byte),
            final(self).function.chunk.lines@ == old(self).function.chunk.lines@.push(
                old(self).parser.previous.line,
            ),
            final(self)@ == model::emit_byte(old(self)@, byte),
    {
        proof {
            reveal(model::emit_byte);
        }
        let line = self.parser.previous.line;
        self.function.chunk.write(byte, line);
    }

    /// Appends an instruction without operands.
    fn emit_op(&mut self, op: OpCode)
        requires
            old(self).inv(),
            instruction_len(op.spec_byte()) == 1,
        ensures
            final(self).extends(old(self)),
            final(self).same_input(old(self)),
            final(self).locals@ == old(self).locals@,
            final(self).code() == old(self).code().push(op.spec_byte()),
            final(self).starts@ == old(self).starts@.push(old(self).code().len() as int),
            final(self).pool() == old(self).pool(),
            final(self)@ == model::emit_byte(old(self)@, op.spec_byte()),
    {
        proof {
            reveal(model::emit_byte);
        }
        proof {
            reveal(is_prefix);
            reveal(layout_ok);
            reveal(nested_ok);
            reveal(closed_except);
        }
        let ghost at = self.code().len() as int;
        self.emit_byte(op.byte());
        self.starts = Ghost(self.starts@.push(at));
    }

    /// Appends an instruction with a one-byte operand.
    fn emit_bytes(&mut self, op: OpCode, operand: u8)
        requires
            old(self).inv(),
            instruction_len(op.spec_byte()) == 2,
            reads_constant(op.spec_byte()) ==> operand < old(self).pool().len(),
        ensures
            final(self).extends(old(self)),
            final(self).same_input(old(self)),
            final(self).locals@ == old(self).locals@,
            final(self).code() == old(self).code().push(op.spec_byte()).push(operand),
            final(self).starts@ == old(self).starts@.push(old(self).code().len() as int),
            final(self).pool() == old(self).pool(),
            final(self)@ == model::emit_bytes(old(self)@, op.spec_byte(), operand),
    {
        proof {
            reveal(model::emit_bytes);
        }
        proof {
            reveal(is_prefix);
            reveal(layout_ok);
            reveal(nested_ok);
            reveal(closed_except);
        }
        let ghost at = self.code().len() as int;
        self.emit_byte(op.byte());
        self.emit_byte(operand);
        self.starts = Ghost(self.starts@.push(at));
    }

    /// Appends a forward jump with a placeholder for its operand, and returns the offset
    /// of the placeholder.
    fn emit_jump(&mut self, op: OpCode) -> (offset: usize)
        requires
            old(self).inv(),
            op == OpCode::OpJump || op == OpCode::OpJumpFalse,
        ensures
            final(self).extends_open(old(self)),
            final(self).same_input(old(self)),
            final(self).locals@ == old(self).locals@,
            final(self).code() == old(self).code().push(op.spec_byte()).push(0xff).push(0xff),
            final(self).starts@ == old(self).starts@.push(old(self).code().len() as int),
            final(self).pool() == old(self).pool(),
            offset == old(self).code().len() + 1,
            final(self)@ == model::emit_jump(old(self)@, op.spec_byte()),
    {
        proof {
            reveal(model::emit_jump);
        }
        proof {
            reveal(is_prefix);
            reveal(layout_ok);
            reveal(nested_ok);
            reveal(closed_except);
        }
        let ghost at = self.code().len() as int;
        self.emit_byte(op.byte());
        self.emit_byte(0xff);
        self.emit_byte(0xff);
        self.starts = Ghost(self.starts@.push(at));
        self.function.chunk.code.len() - 2
    }

    /// Writes into the placeholder at `offset` the distance from behind it to the end of
    /// the code. A distance above 65535 is an error.
    fn patch_jump(&mut self, offset: usize, Ghost(k): Ghost<int>)
        requires
            old(self).inv(),
            0 <= k < old(self).starts@.len(),
            old(self).starts@[k] == offset - 1,
            old(self).code()[offset - 1] == 21 || old(self).code()[offset - 1] == 22,
        ensures
            final(self).inv(),
            final(self).same_frame(old(self)),
            final(self).same_header(old(self)),
            final(self).errors_grow(old(self)),
            final(self).scanner == old(self).scanner,
            final(self).parser.current == old(self).parser.current,
            final(self).parser.previous == old(self).parser.previous,
            final(self).locals@ == old(self).locals@,
            final(self).scope_depth == old(self).scope_depth,
            final(self).starts@ == old(self).starts@,
            final(self).pool() == old(self).pool(),
            final(self).code().len() == old(self).code().len(),
            forall|i: int|
                0 <= i < old(self).code().len() && i != offset && i != offset + 1
                    ==> #[trigger] final(self).code()[i] == old(self).code()[i],
            !final(self).parser.had_error ==> jump_target(final(self).code(), offset - 1) == old(self).code().len(),
            !final(self).parser.had_error ==> final(self).parser == old(self).parser
                && final(self).diagnostics == old(self).diagnostics,
            final(self).patched(old(self), k),
            final(self)@ == model::patch_jump(old(self)@, offset as int),
    {
        proof {
            reveal(model::patch_jump);
        }
        proof {
            reveal(is_prefix);
            reveal(layout_ok);
            reveal(nested_ok);
            reveal(closed_except);
        }
        let distance: usize = self.function.chunk.code.len() - offset - 2;
        if distance > 65535 {
            self.error_at_current("Too much code to jump over.".as_bytes());
        }
        let high: u8 = ((distance / 256) % 256) as u8;
        let low: u8 = (distance % 256) as u8;
        let ghost before = self.code();
        let ghost starts = self.starts@;
        proof {
            assert forall|i: int| 0 <= i < starts.len() implies #[trigger] starts[i] != offset
                && starts[i] != offset + 1 by {
                if i < k {
                    assert(starts[i] + instruction_len(before[starts[i]]) <= starts[k]);
                } else if i > k {
                    assert(starts[k] + instruction_len(before[starts[k]]) <= starts[i]);
                }
            }
        }
        self.function.chunk.code[offset] = high;
        self.function.chunk.code[offset + 1] = low;
        proof {
            let after = self.code();
            assert(after =~= before.update(offset as int, high).update(offset + 1, low));
            assert forall|i: int| 0 <= i < starts.len() implies after[#[trigger] starts[i]]
                == before[starts[i]] by {}
            assert forall|i: int|
                0 <= i < starts.len() && reads_constant(after[#[trigger] starts[i]]) implies after[starts[i]
                + 1] == before[starts[i] + 1] by {
                if i < k {
                    assert(starts[i] + instruction_len(before[starts[i]]) <= starts[k]);
                } else if i > k {
                    assert(starts[k] + instruction_len(before[starts[k]]) <= starts[i]);
                }
            }
            assert(layout_ok(self.function.chunk@, self.starts@));
        }
    }

    /// Appends a jump back to `loop_start`. A distance above 65535 is an error.
    fn emit_loop(&mut self, loop_start: usize)
        requires
            old(self).inv(),
            loop_start <= old(self).code().len(),
        ensures
            final(self).extends_open(old(self)),
            final(self).scanner == old(self).scanner,
            final(self).parser.current == old(self).parser.current,
            final(self).parser.previous == old(self).parser.previous,
            final(self).locals@ == old(self).locals@,
            final(self).code().len() == old(self).code().len() + 3,
            final(self).code()[old(self).code().len() as int] == 23,
            final(self).starts@ == old(self).starts@.push(old(self).code().len() as int),
            final(self).pool() == old(self).pool(),
            !final(self).parser.had_error ==> jump_target(
                final(self).code(),
                old(self).code().len() as int,
            ) == loop_start,
            !final(self).parser.had_error ==> final(self).parser == old(self).parser
                && final(self).diagnostics == old(self).diagnostics,
            final(self)@ == model::emit_loop(old(self)@, loop_start as int),
    {
        proof {
            reveal(model::emit_loop);
        }
        proof {
            reveal(is_prefix);
            reveal(layout_ok);
            reveal(nested_ok);
            reveal(closed_except);
        }
        let ghost at = self.code().len() as int;
        let span: usize = self.function.chunk.code.len() - loop_start;
        let distance: usize = if span > 65532 {
            self.error_at_current("Loop body too large.".as_bytes());
            65535
        } else {
            span + 3
        };
        self.emit_byte(OpCode::OpLoop.byte());
        self.emit_byte((distance / 256) as u8);
        self.emit_byte((distance % 256) as u8);
        self.starts = Ghost(self.starts@.push(at));
    }

    /// Enters a scope.
    fn begin_scope(&mut self)
        requires
            old(self).inv(),
            old(self).scope_depth <= old(self).scanner.start,
        ensures
            final(self).grows(old(self)),
            final(self).same_input(old(self)),
            final(self).function == old(self).function,
            final(self).starts@ == old(self).starts@,
            final(self).locals@ == old(self).locals@,
            final(self).scope_depth == old(self).scope_depth + 1,
            final(self)@ == model::begin_scope(old(self)@),
            final(self)@.locals == old(self)@.locals,
    {
        proof {
            reveal(model::begin_scope);
        }
        proof {
            reveal(is_prefix);
            reveal(layout_ok);
            reveal(nested_ok);
            reveal(closed_except);
        }
        self.scope_depth += 1;
    }

    /// Leaves a scope: the locals of the scope are dropped, and for each of them an
    /// instruction is appended that discards it from the stack.
    fn end_scope(&mut self)
        requires
            old(self).inv(),
            old(self).scope_depth > 0,
        ensures
            final(self).grows(old(self)),
            final(self).same_input(old(self)),
            final(self).scope_depth == old(self).scope_depth - 1,
            final(self).pool() == old(self).pool(),
            final(self)@ == model::end_scope(old(self)@),
            final(self)@.locals == old(self)@.locals.take(
                model::floor(old(self)@.locals, old(self).scope_depth - 1),
            ),
    {
        proof {
            reveal(model::end_scope);
            reveal(model::emit_pops);
        }
        proof {
            reveal(is_prefix);
            reveal(closed_except);
        }
        self.scope_depth -= 1;
        let ghost depth = self.scope_depth as int;
        let ghost all = locals_view(self.locals@);
        let ghost start = self@;
        proof {
            assert(all.take(all.len() as int) =~= all);
            assert(model::emit_pops(start, 0).code =~= start.code);
            assert(model::emit_pops(start, 0).lines =~= start.lines);
        }
        loop
            invariant
                self.grows(old(self)),
                self.same_input(old(self)),
                self.scope_depth == depth,
                depth == old(self).scope_depth - 1,
                all == locals_view(old(self).locals@),
                start == (CompilerView { scope_depth: depth as usize, ..old(self)@ }),
                self.locals@.len() <= all.len(),
                locals_view(self.locals@) == all.take(self.locals@.len() as int),
                model::floor(locals_view(self.locals@), depth) == model::floor(all, depth),
                self@ == model::emit_pops(
                    CompilerView { locals: locals_view(self.locals@), ..start },
                    all.len() - self.locals@.len(),
                ),
                self.pool() == old(self).pool(),
            ensures
                self.locals@.len() == model::floor(all, depth),
            decreases self.locals@.len(),
        {
            proof {
                reveal(is_prefix);
                reveal(closed_except);
            }
            proof {
                reveal(model::emit_pops);
                reveal(model::emit_byte);
            }
            let n = self.locals.len();
            if n == 0 {
                break ;
            }
            assert(locals_view(self.locals@).last() == self.locals@[n - 1]@);
            if self.locals[n - 1].depth > self.scope_depth {
                let ghost mid = *self;
                self.emit_op(OpCode::OpPop);
                self.locals.pop();
                proof {
                    Self::lemma_grows_trans(*old(self), mid, *self);
                    assert(locals_view(self.locals@) =~= all.take(n - 1));
                    assert(locals_view(mid.locals@).drop_last() =~= locals_view(self.locals@));
                    let k = all.len() - n;
                    assert(self@.code =~= model::emit_pops(
                        CompilerView { locals: locals_view(self.locals@), ..start },
                        k + 1,
                    ).code);
                    assert(self@.lines =~= model::emit_pops(
                        CompilerView { locals: locals_view(self.locals@), ..start },
                        k + 1,
                    ).lines);
                }
            } else {
                break ;
            }
        }
    }

    /// Whether two tokens have the same text.
    fn identifiers_equal(a: &Token, b: &Token) -> (r: bool)
        ensures
            r == (a.lexeme@ == b.lexeme@),
    {
        crate::vm::chunk::object::bytes_equal(a.lexeme.as_slice(), b.lexeme.as_slice())
    }

    /// Adds a local whose initializer is still to be compiled. A function holds at most
    /// 255 locals: one more is an error.
    fn add_local(&mut self, name: Token)
        requires
            old(self).inv(),
        ensures
            final(self).extends(old(self)),
            final(self).function == old(self).function,
            final(self).starts@ == old(self).starts@,
            final(self).scanner == old(self).scanner,
            final(self).parser.current == old(self).parser.current,
            final(self).parser.previous == old(self).parser.previous,
            final(self)@ == model::add_local(old(self)@, name@),
            !final(self).parser.had_error ==> final(self)@.locals == old(self)@.locals.push(
                LocalView { name: name@, depth: usize::MAX },
            ),
    {
        proof {
            reveal(model::add_local);
        }
        proof {
            reveal(is_prefix);
            reveal(layout_ok);
            reveal(nested_ok);
            reveal(closed_except);
        }
        if self.locals.len() >= 255 {
            self.error_at_current("Too many local variables in function.".as_bytes());
            return ;
        }
        let ghost all = locals_view(self.locals@);
        let ghost view = name@;
        self.locals.push(Local { name, depth: UNINITIALIZED });
        proof {
            assert(locals_view(self.locals@) =~= all.push(
                LocalView { name: view, depth: usize::MAX },
            ));
        }
    }

    /// Declares the variable that the token just consumed names. At the top level nothing
    /// is declared. A second local of one name in one scope is an error.
    fn declare_variable(&mut self)
        requires
            old(self).inv(),
        ensures
            final(self).extends(old(self)),
            final(self).function == old(self).function,
            final(self).starts@ == old(self).starts@,
            final(self).scanner == old(self).scanner,
            final(self).parser.current == old(self).parser.current,
            final(self).parser.previous == old(self).parser.previous,
            final(self)@ == model::declare_variable(old(self)@),
            old(self).scope_depth == 0 ==> final(self)@.locals == old(self)@.locals,
            old(self).scope_depth > 0 && !final(self).parser.had_error ==> final(self)@.locals
                == old(self)@.locals.push(
                LocalView { name: old(self)@.previous, depth: usize::MAX },
            ),
    {
        proof {
            reveal(model::declare_variable);
        }
        proof {
            reveal(is_prefix);
            reveal(closed_except);
        }
        if self.scope_depth == 0 {
            return ;
        }
        let name = self.parser.previous.clone();
        let mut i: usize = self.locals.len();
        let ghost all = locals_view(self.locals@);
        proof {
            assert(all.take(i as int) =~= all);
        }
        loop
            invariant
                i <= self.locals@.len(),
                *self == *old(self),
                self.inv(),
                self.scope_depth > 0,
                name@ == self.parser.previous@,
                all == locals_view(self.locals@),
                model::declared(all.take(i as int), self.scope_depth as int, name.lexeme@)
                    == model::declared(all, self.scope_depth as int, name.lexeme@),
            ensures
                *self == *old(self),
                name@ == self.parser.previous@,
                !model::declared(all, self.scope_depth as int, name.lexeme@),
            decreases i,
        {
            if i == 0 {
                break ;
            }
            proof {
                reveal(is_prefix);
                reveal(closed_except);
                reveal(model::declare_variable);
                assert(all.take(i as int).drop_last() =~= all.take(i - 1));
                assert(all.take(i as int).last() == self.locals@[i - 1]@);
            }
            if self.locals[i - 1].depth < self.scope_depth {
                break ;
            }
            if Self::identifiers_equal(&self.locals[i - 1].name, &name) {
                self.error_at_current("Already a variable with this name in this scope.".as_bytes());
                return ;
            }
            i -= 1;
        }
        self.add_local(name);
    }

    /// The slot of the last local named like `name`. Reading a local whose initializer is
    /// still being compiled is an error.
    fn resolve_local(&mut self, name: &Token) -> (r: Option<usize>)
        requires
            old(self).inv(),
        ensures
            final(self).extends(old(self)),
            final(self).same_output(old(self)),
            final(self).scanner == old(self).scanner,
            final(self).parser.current == old(self).parser.current,
            final(self).parser.previous == old(self).parser.previous,
            r matches Some(i) ==> i < 255 && i < old(self).locals@.len() && model::resolved(
                old(self)@.locals,
                name.lexeme@,
            ) == i,
            final(self)@ == model::resolve_local(old(self)@, name.lexeme@),
            model::resolved(old(self)@.locals, name.lexeme@) < 0 ==> r is None,
            model::resolved(old(self)@.locals, name.lexeme@) >= 0 ==> r == Some(
                model::resolved(old(self)@.locals, name.lexeme@) as usize,
            ),
    {
        proof {
            reveal(model::resolve_local);
        }
        proof {
            reveal(is_prefix);
            reveal(closed_except);
        }
        let mut i: usize = self.locals.len();
        let ghost all = locals_view(self.locals@);
        proof {
            assert(all.take(i as int) =~= all);
        }
        while i > 0
            invariant
                i <= self.locals@.len(),
                *self == *old(self),
                self.inv(),
                all == locals_view(self.locals@),
                model::resolved(all.take(i as int), name.lexeme@) == model::resolved(
                    all,
                    name.lexeme@,
                ),
            decreases i,
        {
            proof {
                reveal(is_prefix);
                reveal(closed_except);
                reveal(model::resolve_local);
                assert(all.take(i as int).drop_last() =~= all.take(i - 1));
                assert(all.take(i as int).last() == self.locals@[i - 1]@);
                assert(all[i - 1] == self.locals@[i - 1]@);
            }
            if Self::identifiers_equal(name, &self.locals[i - 1].name) {
                if self.locals[i - 1].depth == UNINITIALIZED {
                    self.error_at_current(
                        "Can't read local variable in its own initializer.".as_bytes(),
                    );
                }
                return Some(i - 1);
            }
            i -= 1;
        }
        None
    }

    /// Marks the local declared last as initialized: its depth becomes that of the scope.
    /// At the top level nothing is marked.
    fn mark_initialized(&mut self)
        requires
            old(self).inv(),
        ensures
            final(self).extends(old(self)),
            final(self).same_input(old(self)),
            final(self).function == old(self).function,
            final(self).starts@ == old(self).starts@,
            final(self)@ == model::mark_initialized(old(self)@),
            old(self).scope_depth == 0 || old(self)@.locals.len() == 0 ==> final(self)@.locals
                == old(self)@.locals,
            old(self).scope_depth > 0 && old(self)@.locals.len() > 0 ==> final(self)@.locals
                == old(self)@.locals.drop_last().push(
                LocalView { name: old(self)@.locals.last().name, depth: old(self).scope_depth },
            ),
    {
        proof {
            reveal(model::mark_initialized);
        }
        proof {
            reveal(is_prefix);
            reveal(layout_ok);
            reveal(nested_ok);
            reveal(closed_except);
        }
        if self.scope_depth == 0 || self.locals.len() == 0 {
            return ;
        }
        let ghost all = locals_view(self.locals@);
        match self.locals.pop() {
            Some(last) => {
                let ghost rest = self.locals@;
                let ghost name = last.name@;
                self.locals.push(Local { name: last.name, depth: self.scope_depth });
                proof {
                    assert(locals_view(self.locals@) =~= all.drop_last().push(
                        LocalView { name, depth: self.scope_depth },
                    ));
                }
            },
            None => {},
        }
    }

    /// Defines the variable just declared: a local is marked initialized, and for a
    /// global the instruction that defines it is appended.
    fn define_variable(&mut self, global: u8)
        requires
            old(self).inv(),
            old(self).scope_depth == 0 ==> global < old(self).pool().len(),
        ensures
            final(self).extends(old(self)),
            final(self).same_input(old(self)),
            final(self).pool() == old(self).pool(),
            old(self).scope_depth > 0 ==> final(self).code() == old(self).code(),
            old(self).scope_depth == 0 ==> final(self).code() == old(self).code().push(16).push(
                global,
            ) && final(self).locals@ == old(self).locals@,
            final(self)@ == model::define_variable(old(self)@, global),
            old(self).scope_depth == 0 || old(self)@.locals.len() == 0 ==> final(self)@.locals
                == old(self)@.locals,
            old(self).scope_depth > 0 && old(self)@.locals.len() > 0 ==> final(self)@.locals
                == old(self)@.locals.drop_last().push(
                LocalView { name: old(self)@.locals.last().name, depth: old(self).scope_depth },
            ),
    {
        proof {
            reveal(model::define_variable);
        }
        proof {
            reveal(is_prefix);
            reveal(closed_except);
        }
        if self.scope_depth > 0 {
            self.mark_initialized();
            return ;
        }
        self.emit_bytes(OpCode::OpDefineGlobal, global);
    }

    /// Adds the text of a token to the constants as a string, and returns its index.
    fn identifier_constant(&mut self, name: &Token) -> (index: u8)
        requires
            old(self).inv(),
        ensures
            final(self).extends(old(self)),
            final(self).scanner == old(self).scanner,
            final(self).parser.current == old(self).parser.current,
            final(self).parser.previous == old(self).parser.previous,
            final(self).locals@ == old(self).locals@,
            final(self).code() == old(self).code(),
            final(self).starts@ == old(self).starts@,
            index < final(self).pool().len(),
            old(self).pool().len() < 256 ==> final(self).same_input(old(self)) && final(self).pool() == old(self).pool().push(
                ValView::Object(ObjView::String(interned(name.lexeme@))),
            ) && index == old(self).pool().len(),
            old(self).pool().len() >= 256 ==> final(self).parser.had_error && index == 0,
            final(self)@ == model::identifier_constant(old(self)@, name.lexeme@),
            index == model::constant_index(old(self)@),
    {
        proof {
            reveal(model::identifier_constant);
        }
        proof {
            reveal(is_prefix);
            reveal(closed_except);
        }
        let text = StringObject::from_bytes(name.lexeme.as_slice());
        self.make_constant(Val::object(Obj::String(text)))
    }

    /// Consumes the name of a variable and declares it. For a global the result is the
    /// index of its name among the constants; for a local it is 0.
    fn parse_variable(&mut self, message: &[u8]) -> (index: u8)
        requires
            old(self).inv(),
        ensures
            final(self).extends(old(self)),
            final(self).code() == old(self).code(),
            final(self).starts@ == old(self).starts@,
            old(self).scope_depth == 0 ==> index < final(self).pool().len(),
            old(self).scope_depth > 0 ==> index == 0 && final(self).pool() == old(self).pool(),
            old(self).parser.current.token_type != TokenType::Identifier ==> final(self).parser.had_error,
            final(self)@ == model::parse_variable(old(self)@, message@),
            index == model::variable_index(old(self)@, message@),
            old(self).scope_depth == 0 ==> final(self)@.locals == old(self)@.locals,
            old(self).scope_depth > 0 && !final(self).parser.had_error ==> final(self)@.locals
                == old(self)@.locals.push(
                LocalView { name: final(self)@.previous, depth: usize::MAX },
            ),
    {
        proof {
            reveal(model::parse_variable);
        }
        proof {
            reveal(is_prefix);
            reveal(closed_except);
        }
        self.consume(TokenType::Identifier, message);
        self.declare_variable();
        if self.scope_depth > 0 {
            return 0;
        }
        let name = self.parser.previous.clone();
        self.identifier_constant(&name)
    }

    /// Adds a constant and returns its index. A chunk holds at most 256 constants: one
    /// more is an error, and the index is 0.
    fn make_constant(&mut self, value: Val) -> (index: u8)
        requires
            old(self).inv(),
            !old(self).parser.had_error ==> (value@ matches ValView::Object(ObjView::Function(g))
                ==> function_sound(g)),
        ensures
            final(self).extends(old(self)),
            final(self).same_input(old(self)) || old(self).pool().len() >= 256,
            final(self).scanner == old(self).scanner,
            final(self).parser.current == old(self).parser.current,
            final(self).parser.previous == old(self).parser.previous,
            final(self).locals@ == old(self).locals@,
            final(self).code() == old(self).code(),
            final(self).starts@ == old(self).starts@,
            index < final(self).pool().len(),
            old(self).pool().len() < 256 ==> final(self).pool() == old(self).pool().push(value@)
                && index == old(self).pool().len(),
            old(self).pool().len() >= 256 ==> final(self).pool() == old(self).pool() && index == 0
                && final(self).parser.had_error,
            final(self)@ == model::make_constant(old(self)@, value@),
            index == model::constant_index(old(self)@),
    {
        proof {
            reveal(model::make_constant);
        }
        proof {
            reveal(is_prefix);
            reveal(layout_ok);
            reveal(nested_ok);
            reveal(closed_except);
        }
        if self.function.chunk.constants.values.len() >= 256 {
            self.error_at_current("Too many constants in one chunk.".as_bytes());
            return 0;
        }
        let index = self.function.chunk.add_constant(value);
        index as u8
    }

    /// Adds a constant and appends the instruction that loads it.
    fn emit_constant(&mut self, value: Val)
        requires
            old(self).inv(),
            !old(self).parser.had_error ==> (value@ matches ValView::Object(ObjView::Function(g))
                ==> function_sound(g)),
        ensures
            final(self).extends(old(self)),
            final(self).scanner == old(self).scanner,
            final(self).parser.current == old(self).parser.current,
            final(self).parser.previous == old(self).parser.previous,
            final(self).locals@ == old(self).locals@,
            old(self).pool().len() < 256 ==> final(self).pool() == old(self).pool().push(value@)
                && final(self).code() == old(self).code().push(0).push(
                old(self).pool().len() as u8,
            ) && final(self).same_input(old(self)),
            old(self).pool().len() >= 256 ==> final(self).parser.had_error,
            final(self)@ == model::emit_constant(old(self)@, value@),
    {
        proof {
            reveal(model::emit_constant);
        }
        proof {
            reveal(is_prefix);
            reveal(closed_except);
        }
        let constant = self.make_constant(value);
        self.emit_bytes(OpCode::OpConstant, constant);
    }

    /// Appends the instructions that return nil.
    fn emit_return(&mut self)
        requires
            old(self).inv(),
        ensures
            final(self).extends(old(self)),
            final(self).same_input(old(self)),
            final(self).locals@ == old(self).locals@,
            final(self).code() == old(self).code().push(1).push(13),
            final(self).starts@ == old(self).starts@.push(old(self).code().len() as int).push(
                old(self).code().len() as int + 1,
            ),
            final(self).pool() == old(self).pool(),
            final(self)@ == model::emit_return(old(self)@),
    {
        proof {
            reveal(model::emit_return);
        }
        proof {
            reveal(is_prefix);
            reveal(closed_except);
        }
        self.emit_op(OpCode::OpNil);
        self.emit_op(OpCode::OpReturn);
    }

    /// A compiler at the start of `source`, with an empty function to compile into.
    /// `number` is asked for the bits of the double that a number literal denotes.
    pub fn new(source: &str, function_type: FunctionType, number: F) -> (r: Self)
        requires
            source.spec_bytes().len() <= isize::MAX,
            forall|t: &Vec<u8>| call_requires(number, (t,)),
            number_is_function(number),
        ensures
            r.inv(),
            r.scanner.source@ == source.spec_bytes(),
            r.scanner.start == 0,
            r.scanner.current == 0,
            r.scanner.line == 1,
            r.function_type == function_type,
            r.number == number,
            r.current_chunk is None,
            r.code().len() == 0,
            r.pool().len() == 0,
            r.starts@.len() == 0,
            r.locals@.len() == 0,
            r.scope_depth == 0,
            r.function.arity == 0,
            r.function.name@ == interned(Seq::empty()),
            !r.parser.had_error,
            !r.parser.panic_mode,
            r.diagnostics@.len() == 0,
            r@ == model::initial(source.spec_bytes(), function_type),
    {
        let r = Compiler {
            scanner: Scanner::new(source),
            parser: Parser::new(
                Token::new(TokenType::EOF, 0, 1, 0, Vec::new()),
                Token::new(TokenType::EOF, 0, 1, 0, Vec::new()),
            ),
            current_chunk: None,
            rules: get_rules(),
            locals: Vec::new(),
            scope_depth: 0,
            function: FunctionObject::new(),
            function_type,
            diagnostics: Vec::new(),
            number,
            starts: Ghost(Seq::empty()),
        };
        proof {
            reveal(layout_ok);
            reveal(nested_ok);
            assert(r.reports() =~= Seq::empty());
            assert(locals_view(r.locals@) =~= Seq::empty());
            assert(r.pool() =~= Seq::empty());
        }
        r
    }

    /// Compiles the whole source into the function of the compiler and hands the
    /// function out, unless an error was reported. `chunk` is kept and not written to.
    pub fn compile(&mut self, chunk: Chunk) -> (r: Result<FunctionObject, String>)
        requires
            old(self).inv(),
            old(self).code().len() == 0,
        ensures
            final(self).inv(),
            final(self).scanner.source@ == old(self).scanner.source@,
            final(self).current_chunk == Some(chunk),
            final(self).function_type == old(self).function_type,
            final(self).errors_grow(old(self)),
            final(self).at_end(),
            final(self).code().len() == 0,
            r is Err <==> final(self).parser.had_error,
            r is Err <==> model::compiled(old(self)@, old(self).number).had_error,
            final(self).reports() == model::compiled(old(self)@, old(self).number).reports,
            r matches Ok(f) ==> f@ == model::finished(
                model::compiled(old(self)@, old(self).number),
            ),
            r matches Err(e) ==> e@ == "Compilation failed"@,
            r matches Ok(f) ==> function_ok(f@) && function_sound(f@) && f@.arity == old(self).function.arity && f@.name
                == old(self).function.name@ && f@.chunk.code.len() >= 2 && f@.chunk.code[f@.chunk.code.len()
                - 2] == 1 && f@.chunk.code.last() == 13,
    {
        self.current_chunk = Some(chunk);
        proof {
            reveal(layout_ok);
            reveal(nested_ok);
            assert(self.inv());
        }
        let ghost s0 = *self;
        self.advance();
        let ghost first = *self;
        loop
            invariant_except_break
                model::program(self@, self.number) == model::program(first@, s0.number),
            invariant
                self.extends(&s0),
                s0.starts@.len() == 0,
                s0.code().len() == 0,
                self.at_end() ==> self.scanner.start == self.scanner.source@.len(),
            ensures
                self.extends(&s0),
                self.at_end(),
                self@ == model::program(first@, s0.number),
            decreases self.remaining(),
        {
            proof {
                reveal(model::program);
                reveal(model::match_token);
            }
            let ghost s1 = *self;
            if self.match_token(TokenType::EOF) {
                proof {
                    Self::lemma_extends_trans(s0, s1, *self);
                }
                break ;
            }
            self.declaration();
            proof {
                Self::lemma_extends_trans(s0, s1, *self);
            }
            if self.parser.panic_mode {
                let ghost s2 = *self;
                self.synchronize();
                proof {
                    Self::lemma_extends_trans(s0, s2, *self);
                }
            }
        }
        let function = self.end_compiler();
        if self.parser.had_error {
            Err(String::from_str("Compilation failed"))
        } else {
            Ok(function)
        }
    }

    /// Ends the function being compiled: the instructions that return nil are appended,
    /// and the function is handed out. The compiler is left with an empty function.
    pub(crate) fn end_compiler(&mut self) -> (r: FunctionObject)
        requires
            old(self).inv(),
            !old(self).parser.had_error ==> jumps_closed(
                old(self).code(),
                old(self).starts@,
                0,
                0,
                old(self).code().len() as int,
            ),
        ensures
            r@.arity == old(self).function.arity,
            r@.name == old(self).function.name@,
            r@.chunk.code == old(self).code().push(1).push(13),
            r@.chunk.constants == old(self).pool(),
            r@ == model::finished(old(self)@),
            final(self)@ == (CompilerView {
                arity: 0,
                name: interned(Seq::empty()),
                code: Seq::empty(),
                lines: Seq::empty(),
                constants: Seq::empty(),
                ..old(self)@
            }),
            !old(self).parser.had_error ==> function_ok(r@) && function_sound(r@),
            final(self).inv(),
            final(self).same_frame(old(self)),
            final(self).same_input(old(self)),
            final(self).locals@ == old(self).locals@,
            final(self).scope_depth == old(self).scope_depth,
            final(self).code().len() == 0,
            final(self).pool().len() == 0,
            final(self).starts@.len() == 0,
            final(self).function.arity == 0,
    {
        let ghost s0 = *self;
        self.emit_return();
        proof {
            reveal(model::emit_return);
            reveal(model::emit_byte);
            reveal(is_prefix);
            reveal(layout_ok);
            reveal(nested_ok);
            reveal(closed_except);
            if !self.parser.had_error {
                let c = self.function.chunk@;
                let starts = self.starts@;
                assert forall|i: int| 0 <= i < starts.len() && is_jump(c.code[#[trigger] starts[i]])
                    implies 0 <= jump_target(c.code, starts[i]) < c.code.len() && starts.contains(
                    jump_target(c.code, starts[i]),
                ) by {
                    if i < s0.starts@.len() {
                        let p = s0.starts@[i];
                        assert(p + instruction_len(s0.code()[p]) <= s0.code().len());
                        assert(c.code[p] == s0.code()[p]);
                        assert(c.code[p + 1] == s0.code()[p + 1]);
                        assert(c.code[p + 2] == s0.code()[p + 2]);
                        let t = jump_target(s0.code(), p);
                        if s0.starts@.contains(t) {
                            let j = choose|j: int| 0 <= j < s0.starts@.len() && s0.starts@[j] == t;
                            assert(starts[j] == t);
                        } else {
                            assert(starts[s0.starts@.len() as int] == t);
                        }
                    }
                }
                assert(c.code[starts.last()] == 13);
                lemma_walk(c, starts, 0);
                lemma_sound(c, starts);
                assert forall|i: int| 0 <= i < c.constants.len() implies (#[trigger] c.constants[i]
                    matches ValView::Object(ObjView::Function(g)) ==> function_ok(g)) by {
                    if let ValView::Object(ObjView::Function(g)) = c.constants[i] {
                        lemma_sound_is_ok(g);
                    }
                }
                assert(function_ok(self.function@));
                assert(self.function.chunk.code.len() <= usize::MAX);
                assert(function_sound(self.function@));
            }
        }
        let mut done = FunctionObject::new();
        core::mem::swap(&mut self.function, &mut done);
        self.starts = Ghost(Seq::empty());
        proof {
            assert(self.function.chunk@.constants =~= Seq::<ValView>::empty());
        }
        done
    }
}

/// Where the instructions are laid out in order and every jump leads into the code, the
/// code from each instruction on is in order.
pub proof fn lemma_walk(c: ChunkView, starts: Seq<int>, i: int)
    requires
        layout_ok(c, starts),
        forall|i: int|
            0 <= i < starts.len() && is_jump(c.code[#[trigger] starts[i]]) ==> 0 <= jump_target(
                c.code,
                starts[i],
            ) < c.code.len(),
        0 <= i <= starts.len(),
    ensures
        code_ok_from(
            c,
            if i < starts.len() {
                starts[i]
            } else {
                c.code.len() as int
            },
        ),
        i == 0 ==> chunk_ok(c),
    decreases starts.len() - i,
{
    reveal(layout_ok);
    if i < starts.len() {
        lemma_walk(c, starts, i + 1);
        assert(instruction_ok(c, starts[i]));
        if i + 1 < starts.len() {
            assert(starts[i] + instruction_len(c.code[starts[i]]) == starts[i + 1]);
        } else {
            assert(starts[i] == starts.last());
        }
    }
}

/// A walk from the start of the code arrives at each offset at which an instruction
/// begins, and at the end of the code.
pub proof fn lemma_start_is_boundary(c: ChunkView, starts: Seq<int>, i: int)
    requires
        layout_ok(c, starts),
        0 <= i <= starts.len(),
    ensures
        boundary(
            c.code,
            if i < starts.len() {
                starts[i]
            } else {
                c.code.len() as int
            },
        ),
    decreases i,
{
    reveal(layout_ok);
    if i == 0 {
        assert(reaches(c.code, 0, 0));
    } else {
        lemma_start_is_boundary(c, starts, i - 1);
        let at = starts[i - 1];
        lemma_reaches_next(c.code, 0, at);
        if i < starts.len() {
            assert(starts[i - 1] + instruction_len(c.code[starts[i - 1]]) == starts[i]);
        } else {
            assert(starts[i - 1] == starts.last());
        }
    }
}

/// A walk from an instruction on arrives only where an instruction begins or the code
/// ends.
pub proof fn lemma_boundary_is_start(c: ChunkView, starts: Seq<int>, i: int, at: int)
    requires
        layout_ok(c, starts),
        0 <= i < starts.len(),
        starts[i] <= at <= c.code.len(),
        reaches(c.code, starts[i], at),
    ensures
        at == c.code.len() || exists|j: int| i <= j < starts.len() && starts[j] == at,
    decreases starts.len() - i,
{
    reveal(layout_ok);
    if starts[i] < at {
        if i + 1 < starts.len() {
            assert(starts[i] + instruction_len(c.code[starts[i]]) == starts[i + 1]);
            lemma_boundary_is_start(c, starts, i + 1, at);
        } else {
            assert(starts[i] == starts.last());
        }
    }
}

/// Where the instructions are laid out in order, every jump leads to where an
/// instruction begins, and the last instruction returns, the chunk can be run without
/// leaving its code.
pub proof fn lemma_sound(c: ChunkView, starts: Seq<int>)
    requires
        layout_ok(c, starts),
        starts.len() > 0,
        c.code[starts.last()] == 13,
        forall|i: int|
            0 <= i < starts.len() && is_jump(c.code[#[trigger] starts[i]]) ==> starts.contains(
                jump_target(c.code, starts[i]),
            ),
    ensures
        jumps_land(c),
        ends_with_return(c),
{
    assert(c.code.len() > 0) by {
        reveal(layout_ok);
    }
    assert(starts[0] == 0) by {
        reveal(layout_ok);
    }
    assert forall|at: int|
        #![trigger boundary(c.code, at)]
        boundary(c.code, at) && at < c.code.len() && is_jump(c.code[at]) implies boundary(
        c.code,
        jump_target(c.code, at),
    ) by {
        lemma_boundary_is_start(c, starts, 0, at);
        let j = choose|j: int| 0 <= j < starts.len() && starts[j] == at;
        let t = jump_target(c.code, starts[j]);
        let k = choose|k: int| 0 <= k < starts.len() && starts[k] == t;
        lemma_start_is_boundary(c, starts, k);
    }
    assert forall|at: int|
        #![trigger boundary(c.code, at)]
        boundary(c.code, at) && at < c.code.len() && at + instruction_len(c.code[at])
            >= c.code.len() implies c.code[at] == 13 by {
        lemma_boundary_is_start(c, starts, 0, at);
        let j = choose|j: int| 0 <= j < starts.len() && starts[j] == at;
        if j + 1 < starts.len() {
            reveal(layout_ok);
            assert(starts[j] + instruction_len(c.code[starts[j]]) == starts[j + 1]);
            assert(starts[j + 1] < c.code.len());
        } else {
            assert(starts[j] == starts.last());
        }
    }
}

} // verus!
