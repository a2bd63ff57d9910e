use vstd::prelude::*;
use vstd::string::*;

pub mod chunk;

use crate::compiler::model;
use crate::compiler::{Compiler, FunctionType};
use crate::text::{append_bytes, decimal, decimal_bytes};
use chunk::object::{
    bytes_equal, function_view, interned, FunctionObject, FunctionView, NativeObject, Obj,
    StringObject, StringView,
};
use chunk::table::Table;
use chunk::value::{
    negate_number, number_eq, number_le, number_less, number_less_equal, number_lt, number_neg,
    numbers_equal, val_view, vals_view, ObjView, Val, ValView, ValueType,
};
use chunk::{
    boundary, function_ok, function_sound, instruction_len, instruction_ok, jump_target,
    lemma_ok_at, lemma_reaches_next, reaches, Chunk, ChunkView, OpCode,
};

verus! {

/// How running a program ended.
#[derive(Debug, Clone, Copy, PartialEq, Eq, Structural)]
pub enum InterpretResult {
    Success,
    CompileError,
    RuntimeError,
}

/// What a call frame stands for.
pub struct FrameView {
    pub function: FunctionView,
    pub ip: usize,
    pub slot: usize,
}

/// The activation of a function: the function, the offset of its next instruction, and
/// the index in the value stack at which its locals begin.
#[derive(Debug)]
pub struct CallFrame {
    pub function: FunctionObject,
    pub ip: usize,
    pub slot: usize,
}

impl View for CallFrame {
    type V = FrameView;

    open spec fn view(&self) -> FrameView {
        FrameView { function: self.function@, ip: self.ip, slot: self.slot }
    }
}

/// What the machine asks of its host after a step.
#[derive(Debug)]
pub enum Action {
    /// Nothing: the next step can follow.
    Continue,
    /// To write the value and a newline.
    Print(Val),
    /// To compute the sum, difference, product or quotient of two doubles, given by
    /// their bits, and to push the result.
    Arithmetic(OpCode, u64, u64),
    /// To call the native of this name with these arguments, the last one first, and to
    /// push the result.
    Native(StringObject, Vec<Val>),
    /// Nothing more: the program has ended.
    Halt(InterpretResult),
}

/// What an action stands for.
pub enum ActionView {
    Continue,
    Print(ValView),
    Arithmetic(OpCode, u64, u64),
    Native(StringView, Seq<ValView>),
    Halt(InterpretResult),
}

impl View for Action {
    type V = ActionView;

    open spec fn view(&self) -> ActionView {
        match self {
            Action::Continue => ActionView::Continue,
            Action::Print(v) => ActionView::Print(v@),
            Action::Arithmetic(op, a, b) => ActionView::Arithmetic(*op, *a, *b),
            Action::Native(name, args) => ActionView::Native(name@, vals_view(*args)),
            Action::Halt(r) => ActionView::Halt(*r),
        }
    }
}

/// What the machine stands for: the value stack, the globals, the call frames, and the
/// lines of the last error report.
pub struct VmView {
    pub stack: Seq<ValView>,
    pub globals: Map<StringView, ValView>,
    pub frames: Seq<FrameView>,
    pub trace: Seq<Seq<u8>>,
}

/// What a step comes to: the next state with an action, or a runtime error with the
/// frames as they stood and the message.
pub enum Outcome {
    Next(VmView, ActionView),
    Fault(Seq<FrameView>, Seq<u8>),
}

/// The state with a value pushed.
pub open spec fn pushed(v: VmView, x: ValView) -> VmView {
    VmView { stack: v.stack.push(x), ..v }
}

/// The state with the top value popped.
pub open spec fn popped(v: VmView) -> VmView {
    VmView { stack: v.stack.drop_last(), ..v }
}

/// The state with the top frame at another instruction.
pub open spec fn moved(v: VmView, ip: int) -> VmView {
    VmView {
        frames: v.frames.update(
            v.frames.len() - 1,
            FrameView { ip: ip as usize, ..v.frames.last() },
        ),
        ..v
    }
}

/// Equality of values as the language sees it: numbers as doubles, strings by their
/// bytes, functions by name, arity and chunk, natives by name.
pub open spec fn spec_values_equal(a: ValView, b: ValView) -> bool {
    match (a, b) {
        (ValView::Number(x), ValView::Number(y)) => number_eq(x, y),
        (ValView::Boolean(x), ValView::Boolean(y)) => x == y,
        (ValView::Nil, ValView::Nil) => true,
        (ValView::Object(ObjView::String(s)), ValView::Object(ObjView::String(t))) => s.chars
            == t.chars,
        (ValView::Object(ObjView::Function(f)), ValView::Object(ObjView::Function(g))) => f == g,
        (ValView::Object(ObjView::Native(s)), ValView::Object(ObjView::Native(t))) => s == t,
        _ => false,
    }
}

/// A value equals itself, unless it is a NaN.
pub proof fn lemma_values_equal_reflexive(a: ValView)
    requires
        !(a matches ValView::Number(x) && chunk::value::number_is_nan(x)),
    ensures
        spec_values_equal(a, a),
{
}

/// The source line that an error report gives for a frame: that of the byte at its
/// instruction pointer, or of the last byte where the pointer is behind the code, or 0
/// where there is no code.
pub open spec fn trace_line_number(f: FrameView) -> usize {
    if f.ip < f.function.chunk.lines.len() {
        f.function.chunk.lines[f.ip as int]
    } else if f.function.chunk.lines.len() > 0 {
        f.function.chunk.lines.last()
    } else {
        0
    }
}

/// The name that an error report gives for a function: its name, or `<main>` for the
/// script.
pub open spec fn trace_name(name: StringView) -> Seq<u8> {
    if name.length == 0 {
        "<main>".spec_bytes()
    } else {
        name.chars
    }
}

/// The line of an error report for one frame.
pub open spec fn trace_line(f: FrameView, message: Seq<u8>) -> Seq<u8> {
    "[line ".spec_bytes() + decimal(trace_line_number(f) as nat) + "] in ".spec_bytes()
        + trace_name(f.function.name) + " -- ".spec_bytes() + message
}

/// The error report: a line for each frame, the innermost first.
pub open spec fn trace_of(frames: Seq<FrameView>, message: Seq<u8>) -> Seq<Seq<u8>> {
    Seq::new(frames.len(), |i: int| trace_line(frames[frames.len() - 1 - i], message))
}

/// The state after a runtime error: the report is kept and everything else is released.
pub open spec fn faulted(frames: Seq<FrameView>, message: Seq<u8>) -> VmView {
    VmView {
        stack: Seq::empty(),
        globals: Map::empty(),
        frames: Seq::empty(),
        trace: trace_of(frames, message),
    }
}

/// The message of an arity mismatch.
pub open spec fn arity_message(arity: usize, given: u8) -> Seq<u8> {
    "Expected ".spec_bytes() + decimal(arity as nat) + " arguments but got ".spec_bytes()
        + decimal(given as nat) + ".".spec_bytes()
}

/// The string that a constant names, where it is a string.
pub open spec fn name_at(c: ChunkView, index: int) -> Option<StringView> {
    if 0 <= index < c.constants.len() {
        match c.constants[index] {
            ValView::Object(ObjView::String(s)) => Some(s),
            _ => None,
        }
    } else {
        None
    }
}

/// What a comparison or an arithmetic instruction does with two operands that are not
/// both numbers: the message of the error.
pub open spec fn operand_fault(a: ValView, b: ValView) -> Seq<u8> {
    if a is Boolean && b is Boolean {
        "Invalid operator for boolean values.".spec_bytes()
    } else if a is Object && b is Object {
        "Invalid operator for object values.".spec_bytes()
    } else {
        "Operands must be two numbers or two booleans.".spec_bytes()
    }
}

/// The result of a comparison instruction on two doubles.
pub open spec fn compare(op: u8, x: u64, y: u64) -> bool {
    if op == 5 {
        number_lt(y, x)
    } else if op == 6 {
        number_lt(x, y)
    } else if op == 24 {
        number_le(y, x)
    } else {
        number_le(x, y)
    }
}

/// The arguments of a native call as they are handed out: popped one by one, so the
/// last one comes first.
pub open spec fn native_args(stack: Seq<ValView>, argc: int) -> Seq<ValView> {
    Seq::new(argc as nat, |i: int| stack[stack.len() - 1 - i])
}

/// What the instruction `op`, fetched with its operands from `code` at `ip`, does to
/// the state `w`, whose top frame is already behind the instruction.
pub open spec fn execute(w: VmView, code: Seq<u8>, ip: int, op: u8, room: bool) -> Outcome {
    let f = w.frames.last();
    let c = f.function.chunk;
    let n = w.stack.len() as int;
    let underflow = Outcome::Fault(w.frames, "Stack underflow.".spec_bytes());
    if op == 0 {
        if (code[ip + 1] as int) < c.constants.len() {
            Outcome::Next(pushed(w, c.constants[code[ip + 1] as int]), ActionView::Continue)
        } else {
            Outcome::Fault(w.frames, "Constant index out of range.".spec_bytes())
        }
    } else if op == 1 {
        Outcome::Next(pushed(w, ValView::Nil), ActionView::Continue)
    } else if op == 2 {
        Outcome::Next(pushed(w, ValView::Boolean(true)), ActionView::Continue)
    } else if op == 3 {
        Outcome::Next(pushed(w, ValView::Boolean(false)), ActionView::Continue)
    } else if op == 15 {
        if n >= 1 {
            Outcome::Next(popped(w), ActionView::Continue)
        } else {
            underflow
        }
    } else if op == 16 || op == 17 || op == 18 {
        match name_at(c, code[ip + 1] as int) {
            None => Outcome::Fault(w.frames, "Global name is not a string.".spec_bytes()),
            Some(name) => if op == 17 {
                if w.globals.contains_key(name) {
                    Outcome::Next(pushed(w, w.globals[name]), ActionView::Continue)
                } else {
                    Outcome::Fault(w.frames, "Undefined variable.".spec_bytes())
                }
            } else if n < 1 {
                underflow
            } else if op == 18 && !w.globals.contains_key(name) {
                Outcome::Fault(w.frames, "Undefined variable.".spec_bytes())
            } else if !room {
                Outcome::Fault(w.frames, "Too many globals.".spec_bytes())
            } else if op == 16 {
                Outcome::Next(
                    VmView {
                        globals: w.globals.insert(name, w.stack.last()),
                        stack: w.stack.drop_last(),
                        ..w
                    },
                    ActionView::Continue,
                )
            } else {
                Outcome::Next(
                    VmView { globals: w.globals.insert(name, w.stack.last()), ..w },
                    ActionView::Continue,
                )
            },
        }
    } else if op == 19 {
        if f.slot + code[ip + 1] < n {
            Outcome::Next(pushed(w, w.stack[f.slot + code[ip + 1]]), ActionView::Continue)
        } else {
            Outcome::Fault(w.frames, "Local slot out of range.".spec_bytes())
        }
    } else if op == 20 {
        if f.slot + code[ip + 1] < n {
            Outcome::Next(
                VmView { stack: w.stack.update(f.slot + code[ip + 1], w.stack.last()), ..w },
                ActionView::Continue,
            )
        } else {
            Outcome::Fault(w.frames, "Local slot out of range.".spec_bytes())
        }
    } else if op == 11 {
        if n >= 1 {
            Outcome::Next(
                pushed(popped(w), ValView::Boolean(!Val::spec_is_truthy(w.stack.last()))),
                ActionView::Continue,
            )
        } else {
            underflow
        }
    } else if op == 12 {
        if n < 1 {
            underflow
        } else {
            match w.stack.last() {
                ValView::Number(x) => Outcome::Next(
                    pushed(popped(w), ValView::Number(number_neg(x))),
                    ActionView::Continue,
                ),
                _ => Outcome::Fault(w.frames, "Operand must be a number.".spec_bytes()),
            }
        }
    } else if op == 14 {
        if n >= 1 {
            Outcome::Next(popped(w), ActionView::Print(w.stack.last()))
        } else {
            underflow
        }
    } else if op == 4 || op == 5 || op == 6 || op == 24 || op == 25 || op == 7 || op == 8 || op
        == 9 || op == 10 {
        if n < 2 {
            underflow
        } else {
            let a = w.stack[n - 2];
            let b = w.stack[n - 1];
            let rest = VmView { stack: w.stack.take(n - 2), ..w };
            if op == 4 {
                Outcome::Next(
                    pushed(rest, ValView::Boolean(spec_values_equal(a, b))),
                    ActionView::Continue,
                )
            } else {
                match (a, b) {
                    (ValView::Number(x), ValView::Number(y)) => if op == 7 || op == 8 || op == 9
                        || op == 10 {
                        Outcome::Next(rest, ActionView::Arithmetic(opcode_of(op), x, y))
                    } else {
                        Outcome::Next(
                            pushed(rest, ValView::Boolean(compare(op, x, y))),
                            ActionView::Continue,
                        )
                    },
                    (
                        ValView::Object(ObjView::String(s)),
                        ValView::Object(ObjView::String(t)),
                    ) => if op == 7 {
                        Outcome::Next(
                            pushed(
                                rest,
                                ValView::Object(ObjView::String(interned(s.chars + t.chars))),
                            ),
                            ActionView::Continue,
                        )
                    } else {
                        Outcome::Fault(w.frames, operand_fault(a, b))
                    },
                    _ => Outcome::Fault(w.frames, operand_fault(a, b)),
                }
            }
        }
    } else if op == 21 || op == 22 {
        let target = ip + 3 + code[ip + 1] as int * 256 + code[ip + 2] as int;
        if op == 21 && n < 1 {
            underflow
        } else if op == 21 && Val::spec_is_truthy(w.stack.last()) {
            Outcome::Next(w, ActionView::Continue)
        } else if target <= usize::MAX {
            Outcome::Next(moved(w, target), ActionView::Continue)
        } else {
            Outcome::Fault(w.frames, "Jump out of range.".spec_bytes())
        }
    } else if op == 23 {
        let target = ip + 3 - (code[ip + 1] as int * 256 + code[ip + 2] as int);
        if target >= 0 {
            Outcome::Next(moved(w, target), ActionView::Continue)
        } else {
            Outcome::Fault(w.frames, "Jump out of range.".spec_bytes())
        }
    } else if op == 26 {
        let argc = code[ip + 1] as int;
        if n <= argc {
            underflow
        } else {
            match w.stack[n - 1 - argc] {
                ValView::Object(ObjView::Function(g)) => if g.arity == argc {
                    Outcome::Next(
                        VmView {
                            frames: w.frames.push(
                                FrameView { function: g, ip: 0, slot: (n - argc) as usize },
                            ),
                            ..w
                        },
                        ActionView::Continue,
                    )
                } else {
                    Outcome::Fault(w.frames, arity_message(g.arity, code[ip + 1]))
                },
                ValView::Object(ObjView::Native(name)) => Outcome::Next(
                    VmView { stack: w.stack.take(n - argc), ..w },
                    ActionView::Native(name, native_args(w.stack, argc)),
                ),
                _ => Outcome::Fault(w.frames, "Can only call functions.".spec_bytes()),
            }
        }
    } else {
        if n < 1 {
            underflow
        } else {
            let result = w.stack.last();
            let base = if f.slot > 0 {
                f.slot - 1
            } else {
                0
            };
            let kept = if base <= n - 1 {
                w.stack.take(base)
            } else {
                w.stack.drop_last()
            };
            Outcome::Next(
                VmView { stack: kept.push(result), frames: w.frames.drop_last(), ..w },
                if w.frames.len() == 1 {
                    ActionView::Halt(InterpretResult::Success)
                } else {
                    ActionView::Continue
                },
            )
        }
    }
}

/// The instruction that a byte up to 26 encodes.
pub open spec fn opcode_of(op: u8) -> OpCode {
    if op == 7 {
        OpCode::OpAdd
    } else if op == 8 {
        OpCode::OpSubtract
    } else if op == 9 {
        OpCode::OpMultiply
    } else {
        OpCode::OpDivide
    }
}

/// Whether the machine stands at an instruction: there is a frame, and the instruction
/// pointer of the top frame lies in its code.
pub open spec fn at_instruction(v: VmView) -> bool {
    v.frames.len() > 0 && v.frames.last().ip < v.frames.last().function.chunk.code.len()
}

/// What one step does: the instruction at the instruction pointer of the top frame is
/// fetched with its operands and executed. Without a frame, with the pointer behind the
/// code, with an unknown opcode or with operands cut off, the step is a runtime error.
/// `room` says whether the table of globals can still grow.
pub open spec fn step_outcome(v: VmView, room: bool) -> Outcome {
    if v.frames.len() == 0 {
        Outcome::Fault(v.frames, "No call frame.".spec_bytes())
    } else {
        let f = v.frames.last();
        let code = f.function.chunk.code;
        let ip = f.ip as int;
        if ip >= code.len() {
            Outcome::Fault(v.frames, "Instruction pointer out of range.".spec_bytes())
        } else if code[ip] > 26 {
            Outcome::Fault(v.frames, "Unknown opcode.".spec_bytes())
        } else if ip + instruction_len(code[ip]) > code.len() {
            Outcome::Fault(v.frames, "Instruction pointer out of range.".spec_bytes())
        } else {
            execute(moved(v, ip + instruction_len(code[ip])), code, ip, code[ip], room)
        }
    }
}

/// Whether a value, where it is a function, can be run without leaving its code.
pub open spec fn value_sound(v: ValView) -> bool {
    v matches ValView::Object(ObjView::Function(f)) ==> function_sound(f)
}

/// Whether a frame holds a function that can be run without leaving its code, with its
/// instruction pointer at an instruction.
pub open spec fn frame_sound(f: FrameView) -> bool {
    &&& function_sound(f.function)
    &&& boundary(f.function.chunk.code, f.ip as int)
    &&& f.ip < f.function.chunk.code.len()
}

/// Whether every frame stands at an instruction of a function that can be run without
/// leaving its code, and every function on the stack and among the globals is one.
#[verifier::opaque]
pub open spec fn sound(v: VmView) -> bool {
    &&& forall|i: int| 0 <= i < v.stack.len() ==> value_sound(#[trigger] v.stack[i])
    &&& forall|k: StringView| v.globals.contains_key(k) ==> value_sound(#[trigger] v.globals[k])
    &&& forall|i: int| 0 <= i < v.frames.len() ==> frame_sound(#[trigger] v.frames[i])
}

/// Whether the instruction at the instruction pointer of the top frame can be fetched:
/// its opcode is known, its operands are there, and its constant index, if it has one,
/// is in range.
pub open spec fn fetches(v: VmView) -> bool {
    &&& at_instruction(v)
    &&& instruction_ok(v.frames.last().function.chunk, v.frames.last().ip as int)
}

/// A sound machine with a frame stands at an instruction that can be fetched.
pub proof fn lemma_sound_fetches(v: VmView)
    requires
        sound(v),
        v.frames.len() > 0,
    ensures
        fetches(v),
{
    reveal(sound);
    let f = v.frames.last();
    assert(frame_sound(f));
    lemma_ok_at(f.function.chunk, 0, f.ip as int);
}

/// Loading a function that can be run without leaving its code keeps the machine sound.
pub proof fn lemma_loaded_sound(v: VmView, f: FunctionView)
    requires
        sound(v),
        function_sound(f),
    ensures
        sound(loaded(v, f)),
{
    reveal(sound);
    let w = loaded(v, f);
    assert(reaches(f.chunk.code, 0, 0));
    assert forall|i: int| 0 <= i < w.stack.len() implies value_sound(#[trigger] w.stack[i]) by {
        if i < v.stack.len() {
            assert(w.stack[i] == v.stack[i]);
        }
    }
    assert forall|i: int| 0 <= i < w.frames.len() implies frame_sound(#[trigger] w.frames[i]) by {
        if i < v.frames.len() {
            assert(w.frames[i] == v.frames[i]);
        }
    }
}

/// Pushing a value that is no function, or a function that can be run without leaving
/// its code, keeps the machine sound.
pub proof fn lemma_pushed_sound(v: VmView, x: ValView)
    requires
        sound(v),
        value_sound(x),
    ensures
        sound(pushed(v, x)),
{
    reveal(sound);
    let w = pushed(v, x);
    assert forall|i: int| 0 <= i < w.stack.len() implies value_sound(#[trigger] w.stack[i]) by {
        if i < v.stack.len() {
            assert(w.stack[i] == v.stack[i]);
        }
    }
}

/// A machine with the same frames, the top of its stack cut off, and the same globals
/// or none stays sound.
pub proof fn lemma_less_sound(v: VmView, w: VmView)
    requires
        sound(v),
        w.stack.len() <= v.stack.len(),
        forall|i: int| 0 <= i < w.stack.len() ==> #[trigger] w.stack[i] == v.stack[i],
        w.globals == v.globals || w.globals == Map::<StringView, ValView>::empty(),
        w.frames == v.frames,
    ensures
        sound(w),
{
    reveal(sound);
    assert forall|i: int| 0 <= i < w.stack.len() implies value_sound(#[trigger] w.stack[i]) by {
        assert(value_sound(v.stack[i]));
    }
}

/// A machine without values, globals and frames is sound.
pub proof fn lemma_empty_sound(v: VmView)
    requires
        v.stack.len() == 0,
        v.frames.len() == 0,
        v.globals == Map::<StringView, ValView>::empty(),
    ensures
        sound(v),
{
    reveal(sound);
}

/// Setting a global to a value that is no function, or to a function that can be run
/// without leaving its code, keeps the machine sound.
pub proof fn lemma_global_set_sound(v: VmView, k: StringView, x: ValView)
    requires
        sound(v),
        value_sound(x),
    ensures
        sound(VmView { globals: v.globals.insert(k, x), ..v }),
{
    reveal(sound);
}

/// The top of the stack of a sound machine is sound.
pub proof fn lemma_top_sound(v: VmView)
    requires
        sound(v),
        v.stack.len() > 0,
    ensures
        value_sound(v.stack.last()),
{
    reveal(sound);
}

/// Whether the machine stands behind the instruction at `ip` of its top frame, which it
/// has just fetched, and was sound before.
pub open spec fn fetched(w: VmView, ip: int) -> bool {
    &&& w.frames.len() > 0
    &&& forall|i: int| 0 <= i < w.stack.len() ==> value_sound(#[trigger] w.stack[i])
    &&& forall|k: StringView| w.globals.contains_key(k) ==> value_sound(#[trigger] w.globals[k])
    &&& forall|i: int| 0 <= i < w.frames.len() - 1 ==> frame_sound(#[trigger] w.frames[i])
    &&& function_sound(w.frames.last().function)
    &&& boundary(w.frames.last().function.chunk.code, ip)
    &&& 0 <= ip < w.frames.last().function.chunk.code.len()
    &&& instruction_ok(w.frames.last().function.chunk, ip)
    &&& w.frames.last().ip == ip + instruction_len(w.frames.last().function.chunk.code[ip])
}

/// Behind an instruction that does not return, the machine is sound.
pub proof fn lemma_fetched_sound(w: VmView, ip: int)
    requires
        fetched(w, ip),
        w.frames.last().function.chunk.code[ip] != 13,
    ensures
        sound(w),
{
    reveal(sound);
    let f = w.frames.last();
    let code = f.function.chunk.code;
    lemma_reaches_next(code, 0, ip);
    assert(boundary(code, ip));
    assert(frame_sound(f));
    assert forall|i: int| 0 <= i < w.frames.len() implies frame_sound(#[trigger] w.frames[i]) by {
        if i == w.frames.len() - 1 {
            assert(w.frames[i] == f);
        }
    }
}

/// `RETURN` leaves a sound machine sound.
pub proof fn lemma_return_sound(w: VmView, ip: int, room: bool)
    requires
        fetched(w, ip),
        w.frames.last().function.chunk.code[ip] == 13,
    ensures
        execute(w, w.frames.last().function.chunk.code, ip, 13, room) matches Outcome::Next(r, a)
            ==> sound(r),
{
    reveal(sound);
    let code = w.frames.last().function.chunk.code;
    match execute(w, code, ip, 13, room) {
        Outcome::Next(r, a) => {
            assert(r.frames =~= w.frames.drop_last());
            assert forall|i: int| 0 <= i < r.frames.len() implies frame_sound(
                #[trigger] r.frames[i],
            ) by {
                assert(r.frames[i] == w.frames[i]);
            }
            assert forall|i: int| 0 <= i < r.stack.len() implies value_sound(
                #[trigger] r.stack[i],
            ) by {
                if i < r.stack.len() - 1 {
                    assert(r.stack[i] == w.stack[i]);
                } else {
                    assert(r.stack[i] == w.stack.last());
                }
            }
        },
        Outcome::Fault(_, _) => {},
    }
}

/// A jump leaves a sound machine sound.
pub proof fn lemma_jump_sound(w: VmView, ip: int, op: u8, room: bool)
    requires
        fetched(w, ip),
        op == w.frames.last().function.chunk.code[ip],
        op == 21 || op == 22 || op == 23,
    ensures
        execute(w, w.frames.last().function.chunk.code, ip, op, room) matches Outcome::Next(r, a)
            ==> sound(r),
{
    reveal(sound);
    let f = w.frames.last();
    let code = f.function.chunk.code;
    lemma_fetched_sound(w, ip);
    let t = jump_target(code, ip);
    assert(boundary(code, t));
    match execute(w, code, ip, op, room) {
        Outcome::Next(r, a) => {
            if r != w {
                assert(r == moved(w, t));
                assert forall|i: int| 0 <= i < r.frames.len() implies frame_sound(
                    #[trigger] r.frames[i],
                ) by {
                    if i < r.frames.len() - 1 {
                        assert(r.frames[i] == w.frames[i]);
                    }
                }
            }
        },
        Outcome::Fault(_, _) => {},
    }
}

/// A call leaves a sound machine sound.
pub proof fn lemma_call_sound(w: VmView, ip: int, room: bool)
    requires
        fetched(w, ip),
        w.frames.last().function.chunk.code[ip] == 26,
    ensures
        execute(w, w.frames.last().function.chunk.code, ip, 26, room) matches Outcome::Next(r, a)
            ==> sound(r),
{
    reveal(sound);
    let f = w.frames.last();
    let code = f.function.chunk.code;
    lemma_fetched_sound(w, ip);
    let n = w.stack.len() as int;
    let argc = code[ip + 1] as int;
    match execute(w, code, ip, 26, room) {
        Outcome::Next(r, a) => {
            match w.stack[n - 1 - argc] {
                ValView::Object(ObjView::Function(g)) => {
                    assert(value_sound(w.stack[n - 1 - argc]));
                    assert(reaches(g.chunk.code, 0, 0));
                    assert forall|i: int| 0 <= i < r.frames.len() implies frame_sound(
                        #[trigger] r.frames[i],
                    ) by {
                        if i < w.frames.len() {
                            assert(r.frames[i] == w.frames[i]);
                        }
                    }
                },
                _ => {
                    assert forall|i: int| 0 <= i < r.stack.len() implies value_sound(
                        #[trigger] r.stack[i],
                    ) by {
                        assert(r.stack[i] == w.stack[i]);
                    }
                },
            }
        },
        Outcome::Fault(_, _) => {},
    }
}

/// An instruction on a global leaves a sound machine sound.
pub proof fn lemma_global_sound(w: VmView, ip: int, op: u8, room: bool)
    requires
        fetched(w, ip),
        op == w.frames.last().function.chunk.code[ip],
        op == 16 || op == 17 || op == 18,
    ensures
        execute(w, w.frames.last().function.chunk.code, ip, op, room) matches Outcome::Next(r, a)
            ==> sound(r),
{
    reveal(sound);
    let f = w.frames.last();
    let code = f.function.chunk.code;
    lemma_fetched_sound(w, ip);
    match execute(w, code, ip, op, room) {
        Outcome::Next(r, a) => {
            assert(r.frames == w.frames);
            assert forall|i: int| 0 <= i < r.stack.len() implies value_sound(
                #[trigger] r.stack[i],
            ) by {
                if i < w.stack.len() {
                    assert(r.stack[i] == w.stack[i]);
                }
            }
            assert forall|k: StringView| r.globals.contains_key(k) implies value_sound(
                #[trigger] r.globals[k],
            ) by {
                if w.globals.contains_key(k) && r.globals[k] == w.globals[k] {
                } else {
                    assert(r.globals[k] == w.stack.last());
                }
            }
        },
        Outcome::Fault(_, _) => {},
    }
}

/// An instruction that only works on the stack leaves a sound machine sound.
pub proof fn lemma_stack_sound(w: VmView, ip: int, op: u8, room: bool)
    requires
        fetched(w, ip),
        op == w.frames.last().function.chunk.code[ip],
        op != 13 && op != 21 && op != 22 && op != 23 && op != 26 && op != 16 && op != 17 && op
            != 18,
    ensures
        execute(w, w.frames.last().function.chunk.code, ip, op, room) matches Outcome::Next(r, a)
            ==> sound(r),
{
    reveal(sound);
    let f = w.frames.last();
    let c = f.function.chunk;
    let code = c.code;
    lemma_fetched_sound(w, ip);
    match execute(w, code, ip, op, room) {
        Outcome::Next(r, a) => {
            assert(r.frames == w.frames);
            assert(r.globals == w.globals);
            assert forall|i: int| 0 <= i < r.stack.len() implies value_sound(
                #[trigger] r.stack[i],
            ) by {
                if i < w.stack.len() && r.stack[i] == w.stack[i] {
                } else if op == 0 {
                    assert(r.stack[i] == c.constants[code[ip + 1] as int]);
                } else if op == 19 || op == 20 {
                    assert(r.stack[i] == w.stack.last() || r.stack[i] == w.stack[f.slot + code[ip
                        + 1]]);
                }
            }
        },
        Outcome::Fault(_, _) => {},
    }
}

/// A step of a sound machine fetches its instruction without an error and leaves the
/// machine sound: the frames stay at instructions of their functions, whatever the
/// instruction does.
pub proof fn lemma_step_sound(v: VmView, room: bool)
    requires
        sound(v),
    ensures
        v.frames.len() > 0 ==> fetches(v),
        step_outcome(v, room) matches Outcome::Next(w, a) ==> sound(w),
{
    reveal(sound);
    if v.frames.len() > 0 {
        lemma_sound_fetches(v);
        let f = v.frames.last();
        let code = f.function.chunk.code;
        let ip = f.ip as int;
        let op = code[ip];
        let w = moved(v, ip + instruction_len(op));
        assert(frame_sound(f));
        assert(w.frames.last().function == f.function);
        assert forall|i: int| 0 <= i < w.frames.len() - 1 implies frame_sound(#[trigger] w.frames[i]) by {
            assert(w.frames[i] == v.frames[i]);
        }
        assert(fetched(w, ip));
        if op == 13 {
            lemma_return_sound(w, ip, room);
        } else if op == 21 || op == 22 || op == 23 {
            lemma_jump_sound(w, ip, op, room);
        } else if op == 26 {
            lemma_call_sound(w, ip, room);
        } else if op == 16 || op == 17 || op == 18 {
            lemma_global_sound(w, ip, op, room);
        } else {
            lemma_stack_sound(w, ip, op, room);
        }
    }
}

/// The views of call frames, in order.
pub open spec fn frames_view(frames: Seq<CallFrame>) -> Seq<FrameView> {
    Seq::new(frames.len(), |i: int| frames[i]@)
}

/// The bytes of lines of text, in order.
pub open spec fn lines_view(lines: Seq<Vec<u8>>) -> Seq<Seq<u8>> {
    Seq::new(lines.len(), |i: int| lines[i]@)
}

/// The number of operand bytes of an opcode.
pub fn operand_count(op: u8) -> (r: usize)
    ensures
        r == chunk::operand_bytes(op),
{
    if op == 0 || op == 16 || op == 17 || op == 18 || op == 19 || op == 20 || op == 26 {
        1
    } else if op == 21 || op == 22 || op == 23 {
        2
    } else {
        0
    }
}

/// Whether two functions agree in name, arity and chunk.
pub fn same_function(a: &FunctionObject, b: &FunctionObject) -> (r: bool)
    ensures
        r == (a@ == b@),
    decreases *a,
{
    if a.arity != b.arity || !a.name.same(&b.name) {
        return false;
    }
    if !bytes_equal(a.chunk.code.as_slice(), b.chunk.code.as_slice()) {
        return false;
    }
    if a.chunk.lines.len() != b.chunk.lines.len() {
        assert(a@.chunk.lines.len() != b@.chunk.lines.len());
        return false;
    }
    let mut i: usize = 0;
    while i < a.chunk.lines.len()
        invariant
            i <= a.chunk.lines@.len(),
            a.chunk.lines@.len() == b.chunk.lines@.len(),
            forall|j: int| 0 <= j < i ==> a.chunk.lines@[j] == b.chunk.lines@[j],
        decreases a.chunk.lines@.len() - i,
    {
        if a.chunk.lines[i] != b.chunk.lines[i] {
            assert(a@.chunk.lines[i as int] != b@.chunk.lines[i as int]);
            return false;
        }
        i += 1;
    }
    assert(a@.chunk.lines =~= b@.chunk.lines);
    let n = a.chunk.constants.values.len();
    if n != b.chunk.constants.values.len() {
        assert(a@.chunk.constants.len() != b@.chunk.constants.len());
        return false;
    }
    let mut k: usize = 0;
    while k < n
        invariant
            k <= n,
            n == a.chunk.constants.values@.len(),
            n == b.chunk.constants.values@.len(),
            forall|j: int| 0 <= j < k ==> a@.chunk.constants[j] == b@.chunk.constants[j],
        decreases n - k,
    {
        if !same_value(&a.chunk.constants.values[k], &b.chunk.constants.values[k]) {
            assert(a@.chunk.constants[k as int] != b@.chunk.constants[k as int]);
            return false;
        }
        k += 1;
    }
    assert(a@.chunk.constants =~= b@.chunk.constants);
    true
}

/// Whether two values agree in everything.
pub fn same_value(a: &Val, b: &Val) -> (r: bool)
    ensures
        r == (a@ == b@),
    decreases *a,
{
    match (&a.value_type, &b.value_type) {
        (ValueType::Boolean(x), ValueType::Boolean(y)) => *x == *y,
        (ValueType::Nil, ValueType::Nil) => true,
        (ValueType::Number(x), ValueType::Number(y)) => *x == *y,
        (ValueType::Object(x), ValueType::Object(y)) => match (x, y) {
            (Obj::String(s), Obj::String(t)) => s.same(t),
            (Obj::Function(f), Obj::Function(g)) => same_function(f, g),
            (Obj::Native(m), Obj::Native(n)) => m.name.same(&n.name),
            _ => false,
        },
        _ => false,
    }
}

/// Equality of values as the language sees it.
pub fn values_equal(a: &Val, b: &Val) -> (r: bool)
    ensures
        r == spec_values_equal(a@, b@),
{
    match (&a.value_type, &b.value_type) {
        (ValueType::Boolean(x), ValueType::Boolean(y)) => *x == *y,
        (ValueType::Nil, ValueType::Nil) => true,
        (ValueType::Number(x), ValueType::Number(y)) => numbers_equal(*x, *y),
        (ValueType::Object(x), ValueType::Object(y)) => match (x, y) {
            (Obj::String(s), Obj::String(t)) => bytes_equal(s.chars.as_slice(), t.chars.as_slice()),
            (Obj::Function(f), Obj::Function(g)) => same_function(f, g),
            (Obj::Native(m), Obj::Native(n)) => m.name.same(&n.name),
            _ => false,
        },
        _ => false,
    }
}

/// The stack machine: the value stack, the table of interned strings, the globals, the
/// call frames, and the lines of the last error report.
#[derive(Debug)]
pub struct VM {
    pub stack: Vec<Val>,
    pub table: Table,
    pub globals: Table,
    pub frames: Vec<CallFrame>,
    pub trace: Vec<Vec<u8>>,
}

impl View for VM {
    type V = VmView;

    open spec fn view(&self) -> VmView {
        VmView {
            stack: vals_view(self.stack),
            globals: self.globals@,
            frames: frames_view(self.frames@),
            trace: lines_view(self.trace@),
        }
    }
}

impl VM {
    /// The invariant of the machine: its tables are in order.
    pub open spec fn wf(&self) -> bool {
        self.globals.wf() && self.table.wf()
    }

    /// Whether the table of globals can still grow.
    pub open spec fn room(&self) -> bool {
        self.globals.capacity <= usize::MAX / 2
    }

    /// What `step` does, by `step_outcome`: the state and the action it gives, or after a
    /// runtime error the report with everything else released.
    #[verifier::opaque]
    pub open spec fn stepped(&self, before: &VM, action: &Action) -> bool {
        match step_outcome(before@, before.room()) {
            Outcome::Next(v, a) => self@ == v && action@ == a,
            Outcome::Fault(frames, message) => self@ == faulted(frames, message) && action@
                == ActionView::Halt(InterpretResult::RuntimeError),
        }
    }

    /// A machine with nothing on its stack, no globals and no frames.
    pub fn new() -> (r: Self)
        ensures
            r.wf(),
            r@ == (VmView {
                stack: Seq::empty(),
                globals: Map::empty(),
                frames: Seq::empty(),
                trace: Seq::empty(),
            }),
            sound(r@),
    {
        let r = VM {
            stack: Vec::new(),
            table: Table::new(),
            globals: Table::new(),
            frames: Vec::new(),
            trace: Vec::new(),
        };
        proof {
            assert(r@.stack =~= Seq::empty());
            assert(r@.frames =~= Seq::empty());
            assert(r@.trace =~= Seq::empty());
            lemma_empty_sound(r@);
        }
        r
    }

    /// Pushes a value.
    pub fn push(&mut self, value: Val)
        ensures
            final(self)@ == pushed(old(self)@, value@),
            final(self).globals == old(self).globals,
            final(self).table == old(self).table,
            final(self).frames == old(self).frames,
            final(self).trace == old(self).trace,
            sound(old(self)@) && value_sound(value@) ==> sound(final(self)@),
    {
        self.stack.push(value);
        proof {
            assert(self@.stack =~= old(self)@.stack.push(value@));
            if sound(old(self)@) && value_sound(value@) {
                lemma_pushed_sound(old(self)@, value@);
            }
        }
    }

    /// Pops the top value.
    pub fn pop(&mut self) -> (r: Val)
        requires
            old(self)@.stack.len() > 0,
        ensures
            r@ == old(self)@.stack.last(),
            final(self)@ == popped(old(self)@),
            final(self).globals == old(self).globals,
            final(self).table == old(self).table,
            final(self).frames == old(self).frames,
            final(self).trace == old(self).trace,
            sound(old(self)@) ==> sound(final(self)@) && value_sound(r@),
    {
        let r = self.stack.pop();
        proof {
            assert(self@.stack =~= old(self)@.stack.drop_last());
            if sound(old(self)@) {
                lemma_top_sound(old(self)@);
                lemma_less_sound(old(self)@, self@);
            }
        }
        match r {
            Some(v) => v,
            None => Val::nil(),
        }
    }

    /// A copy of the value at `distance` from the top.
    pub fn peek(&self, distance: usize) -> (r: Val)
        requires
            distance < self@.stack.len(),
        ensures
            r@ == self@.stack[self@.stack.len() - 1 - distance],
    {
        self.stack[self.stack.len() - distance - 1].clone()
    }

    /// Whether two values are equal as the language sees it, as a boolean value.
    pub fn values_equal(&self, a: Val, b: Val) -> (r: Val)
        ensures
            r@ == ValView::Boolean(spec_values_equal(a@, b@)),
    {
        Val::boolean(values_equal(&a, &b))
    }

    /// Empties the tables.
    pub fn free_vm(&mut self)
        ensures
            final(self).wf(),
            final(self)@ == (VmView { globals: Map::empty(), ..old(self)@ }),
            final(self).stack == old(self).stack,
            final(self).frames == old(self).frames,
            final(self).trace == old(self).trace,
            sound(old(self)@) ==> sound(final(self)@),
    {
        self.table.free_table();
        self.globals.free_table();
        proof {
            if sound(old(self)@) {
                lemma_less_sound(old(self)@, self@);
            }
        }
    }

    /// Writes the report of a runtime error, a line for each frame from the innermost
    /// on, and releases the stack, the frames and the tables.
    pub fn runtime_error(&mut self, message: &[u8])
        ensures
            final(self).wf(),
            final(self)@ == faulted(old(self)@.frames, message@),
            sound(final(self)@),
    {
        let mut lines: Vec<Vec<u8>> = Vec::new();
        let n = self.frames.len();
        let mut i: usize = 0;
        while i < n
            invariant
                i <= n,
                n == self.frames@.len(),
                *self == *old(self),
                lines@.len() == i,
                forall|j: int|
                    0 <= j < i ==> (#[trigger] lines@[j])@ == trace_line(
                        self@.frames[n - 1 - j],
                        message@,
                    ),
            decreases n - i,
        {
            let frame = &self.frames[n - 1 - i];
            assert(frame@ == self@.frames[n - 1 - i]);
            let count = frame.function.chunk.lines.len();
            let number: usize = if frame.ip < count {
                frame.function.chunk.lines[frame.ip]
            } else if count > 0 {
                frame.function.chunk.lines[count - 1]
            } else {
                0
            };
            let mut line: Vec<u8> = Vec::new();
            append_bytes(&mut line, "[line ".as_bytes());
            let digits = decimal_bytes(number);
            append_bytes(&mut line, digits.as_slice());
            append_bytes(&mut line, "] in ".as_bytes());
            if frame.function.name.length == 0 {
                append_bytes(&mut line, "<main>".as_bytes());
            } else {
                append_bytes(&mut line, frame.function.name.chars.as_slice());
            }
            append_bytes(&mut line, " -- ".as_bytes());
            append_bytes(&mut line, message);
            lines.push(line);
            i += 1;
        }
        self.trace = lines;
        self.free_vm();
        self.stack = Vec::new();
        self.frames = Vec::new();
        proof {
            assert(self@.stack =~= Seq::empty());
            assert(self@.frames =~= Seq::empty());
            assert(self@.trace =~= trace_of(old(self)@.frames, message@));
            lemma_empty_sound(self@);
        }
    }

    /// Reports a runtime error and gives the action that ends the run.
    fn fail(&mut self, message: &[u8]) -> (action: Action)
        ensures
            final(self).wf(),
            final(self)@ == faulted(old(self)@.frames, message@),
            action@ == ActionView::Halt(InterpretResult::RuntimeError),
    {
        self.runtime_error(message);
        Action::Halt(InterpretResult::RuntimeError)
    }

    /// Moves the top frame to another instruction.
    fn set_ip(&mut self, ip: usize)
        requires
            old(self)@.frames.len() > 0,
        ensures
            final(self)@ == moved(old(self)@, ip as int),
            final(self).globals == old(self).globals,
            final(self).table == old(self).table,
            final(self).stack == old(self).stack,
            final(self).trace == old(self).trace,
            final(self).frames@.len() == old(self).frames@.len(),
            final(self).frames@.last().function == old(self).frames@.last().function,
    {
        match self.frames.pop() {
            Some(frame) => {
                self.frames.push(CallFrame { function: frame.function, ip, slot: frame.slot });
            },
            None => {},
        }
        proof {
            assert(self@.frames =~= moved(old(self)@, ip as int).frames);
        }
    }

    /// Whether the state and the action are what `outcome` says.
    pub open spec fn executed(&self, action: &Action, outcome: Outcome) -> bool {
        match outcome {
            Outcome::Next(v, a) => self@ == v && action@ == a,
            Outcome::Fault(frames, message) => self@ == faulted(frames, message) && action@
                == ActionView::Halt(InterpretResult::RuntimeError),
        }
    }

    /// Executes `CONSTANT`.
    fn op_constant(&mut self, Ghost(code): Ghost<Seq<u8>>, Ghost(ip): Ghost<int>, index: u8) -> (action:
        Action)
        requires
            old(self).wf(),
            old(self)@.frames.len() > 0,
            code[ip + 1] == index,
        ensures
            final(self).wf(),
            final(self).executed(&action, execute(old(self)@, code, ip, 0, old(self).room())),
    {
        let n = self.frames.len();
        let frame = &self.frames[n - 1];
        assert(frame@ == self@.frames.last());
        if (index as usize) < frame.function.chunk.constants.values.len() {
            let value = frame.function.chunk.constants.values[index as usize].clone();
            self.push(value);
            Action::Continue
        } else {
            self.fail("Constant index out of range.".as_bytes())
        }
    }

    /// Executes `NIL`, `TRUE` or `FALSE`.
    fn op_literal(&mut self, Ghost(code): Ghost<Seq<u8>>, Ghost(ip): Ghost<int>, op: u8) -> (action:
        Action)
        requires
            old(self).wf(),
            old(self)@.frames.len() > 0,
            op == 1 || op == 2 || op == 3,
        ensures
            final(self).wf(),
            final(self).executed(&action, execute(old(self)@, code, ip, op, old(self).room())),
    {
        if op == 1 {
            self.push(Val::nil());
        } else {
            self.push(Val::boolean(op == 2));
        }
        Action::Continue
    }

    /// Executes `POP`, `NOT`, `NEGATE` or `PRINT`.
    fn op_unary(&mut self, Ghost(code): Ghost<Seq<u8>>, Ghost(ip): Ghost<int>, op: u8) -> (action:
        Action)
        requires
            old(self).wf(),
            old(self)@.frames.len() > 0,
            op == 15 || op == 11 || op == 12 || op == 14,
        ensures
            final(self).wf(),
            final(self).executed(&action, execute(old(self)@, code, ip, op, old(self).room())),
    {
        if self.stack.len() == 0 {
            return self.fail("Stack underflow.".as_bytes());
        }
        if op == 12 {
            let top = self.peek(0);
            match top.value_type {
                ValueType::Number(x) => {
                    self.pop();
                    self.push(Val::number(negate_number(x)));
                    return Action::Continue;
                },
                _ => {
                    return self.fail("Operand must be a number.".as_bytes());
                },
            }
        }
        let value = self.pop();
        if op == 15 {
            Action::Continue
        } else if op == 11 {
            let truthy = value.is_truthy();
            self.push(Val::boolean(!truthy));
            Action::Continue
        } else {
            Action::Print(value)
        }
    }

    /// Executes `DEFINE_GLOBAL`, `GET_GLOBAL` or `SET_GLOBAL`.
    fn op_global(&mut self, Ghost(code): Ghost<Seq<u8>>, Ghost(ip): Ghost<int>, op: u8, index: u8) -> (action:
        Action)
        requires
            old(self).wf(),
            old(self)@.frames.len() > 0,
            code[ip + 1] == index,
            op == 16 || op == 17 || op == 18,
        ensures
            final(self).wf(),
            final(self).executed(&action, execute(old(self)@, code, ip, op, old(self).room())),
    {
        let n = self.frames.len();
        let frame = &self.frames[n - 1];
        assert(frame@ == self@.frames.last());
        let constants = &frame.function.chunk.constants.values;
        let name: Option<StringObject> = if (index as usize) < constants.len() {
            match &constants[index as usize].value_type {
                ValueType::Object(Obj::String(s)) => Some(s.clone()),
                _ => None,
            }
        } else {
            None
        };
        let name = match name {
            Some(name) => name,
            None => {
                return self.fail("Global name is not a string.".as_bytes());
            },
        };
        if op == 17 {
            return match self.globals.table_get(&name) {
                Some(value) => {
                    self.push(value);
                    Action::Continue
                },
                None => self.fail("Undefined variable.".as_bytes()),
            };
        }
        if self.stack.len() == 0 {
            return self.fail("Stack underflow.".as_bytes());
        }
        if op == 18 && self.globals.table_get(&name).is_none() {
            return self.fail("Undefined variable.".as_bytes());
        }
        if self.globals.capacity > usize::MAX / 2 {
            return self.fail("Too many globals.".as_bytes());
        }
        if op == 16 {
            let value = self.pop();
            self.globals.set_table(name, value);
        } else {
            let value = self.peek(0);
            self.globals.set_table(name, value);
        }
        Action::Continue
    }

    /// Executes `GET_LOCAL` or `SET_LOCAL`.
    fn op_local(&mut self, Ghost(code): Ghost<Seq<u8>>, Ghost(ip): Ghost<int>, op: u8, slot: u8) -> (action:
        Action)
        requires
            old(self).wf(),
            old(self)@.frames.len() > 0,
            code[ip + 1] == slot,
            op == 19 || op == 20,
        ensures
            final(self).wf(),
            final(self).executed(&action, execute(old(self)@, code, ip, op, old(self).room())),
    {
        let n = self.frames.len();
        let base = self.frames[n - 1].slot;
        assert(self.frames@[n - 1]@ == self@.frames.last());
        let len = self.stack.len();
        if base >= len || (slot as usize) >= len - base {
            return self.fail("Local slot out of range.".as_bytes());
        }
        let index = base + slot as usize;
        if op == 19 {
            let value = self.stack[index].clone();
            self.push(value);
        } else {
            let value = self.peek(0);
            let ghost before = self@.stack;
            self.stack[index] = value;
            proof {
                assert(self@.stack =~= before.update(index as int, value@));
            }
        }
        Action::Continue
    }

    /// Executes `EQUAL`, a comparison or an arithmetic instruction.
    fn op_binary(&mut self, Ghost(code): Ghost<Seq<u8>>, Ghost(ip): Ghost<int>, op: u8) -> (action:
        Action)
        requires
            old(self).wf(),
            old(self)@.frames.len() > 0,
            op == 4 || op == 5 || op == 6 || op == 24 || op == 25 || op == 7 || op == 8 || op == 9
                || op == 10,
        ensures
            final(self).wf(),
            final(self).executed(&action, execute(old(self)@, code, ip, op, old(self).room())),
    {
        if self.stack.len() < 2 {
            return self.fail("Stack underflow.".as_bytes());
        }
        let ghost w = self@;
        let ghost frames = self@.frames;
        let b = self.pop();
        let a = self.pop();
        proof {
            assert(self@.stack =~= w.stack.take(w.stack.len() - 2));
        }
        if op == 4 {
            let r = values_equal(&a, &b);
            self.push(Val::boolean(r));
            return Action::Continue;
        }
        match (&a.value_type, &b.value_type) {
            (ValueType::Number(x), ValueType::Number(y)) => {
                if op == 7 || op == 8 || op == 9 || op == 10 {
                    Action::Arithmetic(OpCode::from(op), *x, *y)
                } else {
                    let r = if op == 5 {
                        number_less(*y, *x)
                    } else if op == 6 {
                        number_less(*x, *y)
                    } else if op == 24 {
                        number_less_equal(*y, *x)
                    } else {
                        number_less_equal(*x, *y)
                    };
                    self.push(Val::boolean(r));
                    Action::Continue
                }
            },
            (ValueType::Object(Obj::String(s)), ValueType::Object(Obj::String(t))) => {
                if op == 7 {
                    let mut text: Vec<u8> = Vec::new();
                    append_bytes(&mut text, s.chars.as_slice());
                    append_bytes(&mut text, t.chars.as_slice());
                    assert(text@ =~= s@.chars + t@.chars);
                    let joined = StringObject::from_bytes(text.as_slice());
                    self.push(Val::object(Obj::String(joined)));
                    Action::Continue
                } else {
                    self.fail("Invalid operator for object values.".as_bytes())
                }
            },
            (ValueType::Boolean(_), ValueType::Boolean(_)) => self.fail(
                "Invalid operator for boolean values.".as_bytes(),
            ),
            (ValueType::Object(_), ValueType::Object(_)) => self.fail(
                "Invalid operator for object values.".as_bytes(),
            ),
            _ => self.fail("Operands must be two numbers or two booleans.".as_bytes()),
        }
    }

    /// Executes `JUMP`, `JUMP_IF_FALSE` or `LOOP`.
    fn op_jump(
        &mut self,
        Ghost(code): Ghost<Seq<u8>>,
        Ghost(ip): Ghost<int>,
        op: u8,
        next: usize,
        high: u8,
        low: u8,
    ) -> (action: Action)
        requires
            old(self).wf(),
            old(self)@.frames.len() > 0,
            code[ip + 1] == high,
            code[ip + 2] == low,
            next == ip + 3,
            op == 21 || op == 22 || op == 23,
        ensures
            final(self).wf(),
            final(self).executed(&action, execute(old(self)@, code, ip, op, old(self).room())),
    {
        let offset: usize = high as usize * 256 + low as usize;
        if op == 23 {
            if offset > next {
                return self.fail("Jump out of range.".as_bytes());
            }
            self.set_ip(next - offset);
            return Action::Continue;
        }
        if op == 21 {
            if self.stack.len() == 0 {
                return self.fail("Stack underflow.".as_bytes());
            }
            if self.stack[self.stack.len() - 1].is_truthy() {
                return Action::Continue;
            }
        }
        if offset > usize::MAX - next {
            return self.fail("Jump out of range.".as_bytes());
        }
        self.set_ip(next + offset);
        Action::Continue
    }

    /// Pops `count` values; the one popped first comes first.
    fn pop_n(&mut self, count: usize) -> (values: Vec<Val>)
        requires
            count <= old(self)@.stack.len(),
        ensures
            vals_view(values) == native_args(old(self)@.stack, count as int),
            final(self)@ == (VmView {
                stack: old(self)@.stack.take(old(self)@.stack.len() - count),
                ..old(self)@
            }),
            final(self).globals == old(self).globals,
            final(self).table == old(self).table,
            final(self).frames == old(self).frames,
            final(self).trace == old(self).trace,
    {
        let mut values: Vec<Val> = Vec::new();
        let ghost all = self@.stack;
        let mut i: usize = 0;
        proof {
            assert(all.take(all.len() as int) =~= all);
        }
        while i < count
            invariant
                i <= count <= all.len(),
                all == old(self)@.stack,
                self@.stack == all.take(all.len() - i),
                self.globals == old(self).globals,
                self.table == old(self).table,
                self.frames == old(self).frames,
                self.trace == old(self).trace,
                values@.len() == i,
                forall|j: int| 0 <= j < i ==> (#[trigger] values@[j])@ == all[all.len() - 1 - j],
            decreases count - i,
        {
            let value = self.pop();
            values.push(value);
            proof {
                assert(self@.stack =~= all.take(all.len() - (i + 1)));
            }
            i += 1;
        }
        proof {
            assert(vals_view(values) =~= native_args(all, count as int));
        }
        values
    }

    /// Executes `CALL`.
    fn op_call(&mut self, Ghost(code): Ghost<Seq<u8>>, Ghost(ip): Ghost<int>, argc: u8) -> (action:
        Action)
        requires
            old(self).wf(),
            old(self)@.frames.len() > 0,
            code[ip + 1] == argc,
        ensures
            final(self).wf(),
            final(self).executed(&action, execute(old(self)@, code, ip, 26, old(self).room())),
    {
        let len = self.stack.len();
        if len <= argc as usize {
            return self.fail("Stack underflow.".as_bytes());
        }
        let callee = self.peek(argc as usize);
        match callee.value_type {
            ValueType::Object(Obj::Function(function)) => {
                if argc as usize != function.arity {
                    let mut message: Vec<u8> = Vec::new();
                    append_bytes(&mut message, "Expected ".as_bytes());
                    let arity = decimal_bytes(function.arity);
                    append_bytes(&mut message, arity.as_slice());
                    append_bytes(&mut message, " arguments but got ".as_bytes());
                    let given = decimal_bytes(argc as usize);
                    append_bytes(&mut message, given.as_slice());
                    append_bytes(&mut message, ".".as_bytes());
                    return self.fail(message.as_slice());
                }
                let ghost before = self@.frames;
                let frame = CallFrame { function, ip: 0, slot: len - argc as usize };
                self.frames.push(frame);
                proof {
                    assert(self@.frames =~= before.push(frame@));
                }
                Action::Continue
            },
            ValueType::Object(Obj::Native(native)) => {
                let args = self.pop_n(argc as usize);
                Action::Native(native.name, args)
            },
            _ => self.fail("Can only call functions.".as_bytes()),
        }
    }

    /// Executes `RETURN`.
    fn op_return(&mut self, Ghost(code): Ghost<Seq<u8>>, Ghost(ip): Ghost<int>) -> (action: Action)
        requires
            old(self).wf(),
            old(self)@.frames.len() > 0,
        ensures
            final(self).wf(),
            final(self).executed(&action, execute(old(self)@, code, ip, 13, old(self).room())),
    {
        if self.stack.len() == 0 {
            return self.fail("Stack underflow.".as_bytes());
        }
        let ghost w = self@;
        let result = self.pop();
        let n = self.frames.len();
        let slot = self.frames[n - 1].slot;
        assert(self.frames@[n - 1]@ == w.frames.last());
        self.frames.pop();
        let base: usize = if slot > 0 {
            slot - 1
        } else {
            0
        };
        self.stack.truncate(base);
        proof {
            assert(self@.frames =~= w.frames.drop_last());
            if base <= w.stack.len() - 1 {
                assert(self@.stack =~= w.stack.take(base as int));
            } else {
                assert(self@.stack =~= w.stack.drop_last());
            }
        }
        self.push(result);
        if self.frames.len() == 0 {
            Action::Halt(InterpretResult::Success)
        } else {
            Action::Continue
        }
    }

    /// Executes the instruction at the instruction pointer of the top frame.
    pub fn step(&mut self) -> (action: Action)
        requires
            old(self).wf(),
        ensures
            final(self).wf(),
            final(self).stepped(old(self), &action),
            !(action@ is Halt) ==> at_instruction(old(self)@),
            sound(old(self)@) ==> sound(final(self)@),
            sound(old(self)@) && old(self)@.frames.len() > 0 ==> fetches(old(self)@),
    {
        proof {
            reveal(VM::stepped);
            if sound(self@) {
                lemma_step_sound(self@, self.room());
                if let Outcome::Fault(frames, message) = step_outcome(self@, self.room()) {
                    lemma_empty_sound(faulted(frames, message));
                }
            }
        }
        let n = self.frames.len();
        if n == 0 {
            return self.fail("No call frame.".as_bytes());
        }
        let frame = &self.frames[n - 1];
        assert(frame@ == self@.frames.last());
        let ip = frame.ip;
        let len = frame.function.chunk.code.len();
        if ip >= len {
            return self.fail("Instruction pointer out of range.".as_bytes());
        }
        let op = frame.function.chunk.code[ip];
        if op > 26 {
            return self.fail("Unknown opcode.".as_bytes());
        }
        let operands = operand_count(op);
        if len - ip < 1 + operands {
            return self.fail("Instruction pointer out of range.".as_bytes());
        }
        let first: u8 = if operands >= 1 {
            frame.function.chunk.code[ip + 1]
        } else {
            0
        };
        let second: u8 = if operands >= 2 {
            frame.function.chunk.code[ip + 2]
        } else {
            0
        };
        let ghost code = frame.function.chunk.code@;
        let next = ip + 1 + operands;
        self.set_ip(next);
        if op == 0 {
            self.op_constant(Ghost(code), Ghost(ip as int), first)
        } else if op == 1 || op == 2 || op == 3 {
            self.op_literal(Ghost(code), Ghost(ip as int), op)
        } else if op == 15 || op == 11 || op == 12 || op == 14 {
            self.op_unary(Ghost(code), Ghost(ip as int), op)
        } else if op == 16 || op == 17 || op == 18 {
            self.op_global(Ghost(code), Ghost(ip as int), op, first)
        } else if op == 19 || op == 20 {
            self.op_local(Ghost(code), Ghost(ip as int), op, first)
        } else if op == 21 || op == 22 || op == 23 {
            self.op_jump(Ghost(code), Ghost(ip as int), op, next, first, second)
        } else if op == 26 {
            self.op_call(Ghost(code), Ghost(ip as int), first)
        } else if op == 13 {
            self.op_return(Ghost(code), Ghost(ip as int))
        } else {
            self.op_binary(Ghost(code), Ghost(ip as int), op)
        }
    }

    /// Runs steps until one asks something of the host or ends the program, but `fuel`
    /// steps at most. The action is `Continue` where the fuel ran out first.
    pub fn run(&mut self, fuel: usize) -> (action: Action)
        requires
            old(self).wf(),
        ensures
            final(self).wf(),
            exists|trail: Seq<VM>|
                #![trigger steps_along(trail)]
                steps_along(trail) && trail.len() >= 1 && trail[0] == *old(self) && trail.len() - 1
                    <= fuel && trail.last().wf() && (if action@ is Continue {
                    trail.len() - 1 == fuel && *final(self) == trail.last()
                } else {
                    trail.len() - 1 < fuel && final(self).stepped(&trail.last(), &action)
                }),
            sound(old(self)@) ==> sound(final(self)@),
    {
        let mut done: usize = 0;
        let ghost mut trail: Seq<VM> = seq![*self];
        while done < fuel
            invariant
                done <= fuel,
                trail.len() == done + 1,
                trail[0] == *old(self),
                trail.last() == *self,
                self.wf(),
                steps_along(trail),
                sound(old(self)@) ==> sound(self@),
            decreases fuel - done,
        {
            let ghost mid = *self;
            let action = self.step();
            if !matches!(action, Action::Continue) {
                return action;
            }
            proof {
                assert(action == Action::Continue);
                let before = trail;
                trail = trail.push(*self);
                assert forall|i: int| 0 <= i && i + 1 < trail.len() implies (#[trigger] trail[i]).wf()
                    && trail[i + 1].stepped(&trail[i], &Action::Continue) by {
                    if i + 1 < before.len() {
                        assert(trail[i] == before[i]);
                        assert(trail[i + 1] == before[i + 1]);
                    } else {
                        assert(trail[i] == mid);
                    }
                }
            }
            done += 1;
        }
        Action::Continue
    }

    /// Registers a native under its name among the globals, and says whether the table
    /// of globals had room for it.
    pub fn define_native(&mut self, name: StringObject) -> (defined: bool)
        requires
            old(self).wf(),
        ensures
            final(self).wf(),
            defined == old(self).room(),
            defined ==> final(self)@ == (VmView {
                globals: old(self)@.globals.insert(name@, ValView::Object(ObjView::Native(name@))),
                ..old(self)@
            }),
            !defined ==> final(self)@ == old(self)@,
            sound(old(self)@) ==> sound(final(self)@),
    {
        if self.globals.capacity > usize::MAX / 2 {
            return false;
        }
        let native = NativeObject { name: name.clone() };
        self.globals.set_table(name, Val::object(Obj::Native(native)));
        proof {
            if sound(old(self)@) {
                lemma_global_set_sound(
                    old(self)@,
                    name@,
                    ValView::Object(ObjView::Native(name@)),
                );
            }
        }
        true
    }

    /// Empties the stack and registers the native `clock`.
    pub fn init_vm(&mut self)
        requires
            old(self).wf(),
        ensures
            final(self).wf(),
            final(self)@.stack == Seq::<ValView>::empty(),
            final(self)@.frames == old(self)@.frames,
            final(self)@.trace == old(self)@.trace,
            old(self).room() ==> final(self)@.globals == old(self)@.globals.insert(
                interned("clock".spec_bytes()),
                ValView::Object(ObjView::Native(interned("clock".spec_bytes()))),
            ),
            !old(self).room() ==> final(self)@.globals == old(self)@.globals,
            sound(old(self)@) ==> sound(final(self)@),
    {
        self.stack = Vec::new();
        proof {
            assert(self@.stack =~= Seq::empty());
            if sound(old(self)@) {
                lemma_less_sound(old(self)@, self@);
            }
        }
        self.define_native(StringObject::new("clock"));
    }

    /// Makes a compiled function ready to run: it is pushed, and a frame for it is
    /// entered. The last error report is dropped.
    pub fn load(&mut self, function: FunctionObject)
        requires
            old(self).wf(),
        ensures
            final(self).wf(),
            final(self)@ == loaded(old(self)@, function@),
            sound(old(self)@) && function_sound(function@) ==> sound(final(self)@),
    {
        let held = function.clone();
        self.push(Val::object(Obj::Function(function)));
        let ghost before = self@.frames;
        let frame = CallFrame { function: held, ip: 0, slot: self.stack.len() };
        self.frames.push(frame);
        self.trace = Vec::new();
        proof {
            assert(self@.frames =~= before.push(frame@));
            assert(self@.trace =~= Seq::empty());
            assert(self@.stack == old(self)@.stack.push(ValView::Object(ObjView::Function(function@))));
            assert(frame@ == (FrameView { function: function@, ip: 0, slot: (old(self)@.stack.len() + 1) as usize }));
            assert(before == old(self)@.frames);
            if sound(old(self)@) && function_sound(function@) {
                lemma_loaded_sound(old(self)@, function@);
            }
        }
    }

    /// Compiles a source text and, unless the compiler reported an error, makes it ready
    /// to run. After an error the reports are the lines of the trace.
    pub fn interpret<F: Fn(&Vec<u8>) -> u64>(&mut self, source: &str, number: F) -> (r:
        InterpretResult)
        requires
            old(self).wf(),
            source.spec_bytes().len() <= isize::MAX,
            forall|t: &Vec<u8>| call_requires(number, (t,)),
            model::number_is_function(number),
        ensures
            final(self).wf(),
            r == (if script_of(source.spec_bytes(), number).had_error {
                InterpretResult::CompileError
            } else {
                InterpretResult::Success
            }),
            r == InterpretResult::CompileError ==> final(self)@ == (VmView {
                trace: script_of(source.spec_bytes(), number).reports,
                ..old(self)@
            }),
            r == InterpretResult::Success ==> final(self)@ == loaded(
                old(self)@,
                model::finished(script_of(source.spec_bytes(), number)),
            ) && function_sound(model::finished(script_of(source.spec_bytes(), number))),
            sound(old(self)@) ==> sound(final(self)@),
    {
        let mut compiler = Compiler::new(source, FunctionType::Script, number);
        match compiler.compile(Chunk::new()) {
            Ok(function) => {
                self.load(function);
                InterpretResult::Success
            },
            Err(_) => {
                self.trace = compiler.diagnostics;
                proof {
                    assert(self@.trace =~= compiler.reports());
                    if sound(old(self)@) {
                        lemma_less_sound(old(self)@, self@);
                    }
                }
                InterpretResult::CompileError
            },
        }
    }
}

/// The state of the compiler at the end of compiling `source` as a script.
pub open spec fn script_of<F: Fn(&Vec<u8>) -> u64>(source: Seq<u8>, number: F) -> model::CompilerView {
    model::compiled(model::initial(source, FunctionType::Script), number)
}

impl Default for VM {
    fn default() -> (r: Self)
        ensures
            r.wf(),
            r@ == (VmView {
                stack: Seq::empty(),
                globals: Map::empty(),
                frames: Seq::empty(),
                trace: Seq::empty(),
            }),
    {
        VM::new()
    }
}

/// Whether each state of `trail` but the last is in order, and a step that asks nothing
/// of the host leads from it to the next one.
pub open spec fn steps_along(trail: Seq<VM>) -> bool {
    forall|i: int|
        #![trigger trail[i]]
        0 <= i && i + 1 < trail.len() ==> trail[i].wf() && trail[i + 1].stepped(
            &trail[i],
            &Action::Continue,
        )
}

/// The state with a compiled function pushed and a frame for it entered.
pub open spec fn loaded(v: VmView, f: FunctionView) -> VmView {
    VmView {
        stack: v.stack.push(ValView::Object(ObjView::Function(f))),
        frames: v.frames.push(FrameView { function: f, ip: 0, slot: (v.stack.len() + 1) as usize }),
        trace: Seq::empty(),
        ..v
    }
}

/// Pushing a value and popping it again leaves the state as it was, and gives the value.
pub proof fn lemma_push_pop(v: VmView, x: ValView)
    ensures
        popped(pushed(v, x)) == v,
        pushed(v, x).stack.last() == x,
{
    assert(v.stack.push(x).drop_last() =~= v.stack);
}

} // verus!
