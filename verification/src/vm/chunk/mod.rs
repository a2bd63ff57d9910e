use vstd::prelude::*;

pub mod debug;
pub mod object;
pub mod table;
pub mod value;

use object::FunctionView;
use value::{vals_view, ObjView, Val, ValView, Value};

verus! {

/// The instructions of the machine.
#[derive(Debug, Clone, Copy, PartialEq, Eq, Structural)]
pub enum OpCode {
    OpConstant,
    OpNil,
    OpTrue,
    OpFalse,
    OpEqual,
    OpGreater,
    OpLess,
    OpAdd,
    OpSubtract,
    OpMultiply,
    OpDivide,
    OpNot,
    OpNegate,
    OpReturn,
    OpPrint,
    OpPop,
    OpDefineGlobal,
    OpGetGlobal,
    OpSetGlobal,
    OpGetLocal,
    OpSetLocal,
    OpJumpFalse,
    OpJump,
    OpLoop,
    OpGreaterEqual,
    OpLessEqual,
    Call,
}

/// The largest byte that encodes an instruction.
pub const LAST_OPCODE: u8 = 26;

impl OpCode {
    /// The byte that encodes an instruction.
    pub open spec fn spec_byte(self) -> u8 {
        match self {
            OpCode::OpConstant => 0,
            OpCode::OpNil => 1,
            OpCode::OpTrue => 2,
            OpCode::OpFalse => 3,
            OpCode::OpEqual => 4,
            OpCode::OpGreater => 5,
            OpCode::OpLess => 6,
            OpCode::OpAdd => 7,
            OpCode::OpSubtract => 8,
            OpCode::OpMultiply => 9,
            OpCode::OpDivide => 10,
            OpCode::OpNot => 11,
            OpCode::OpNegate => 12,
            OpCode::OpReturn => 13,
            OpCode::OpPrint => 14,
            OpCode::OpPop => 15,
            OpCode::OpDefineGlobal => 16,
            OpCode::OpGetGlobal => 17,
            OpCode::OpSetGlobal => 18,
            OpCode::OpGetLocal => 19,
            OpCode::OpSetLocal => 20,
            OpCode::OpJumpFalse => 21,
            OpCode::OpJump => 22,
            OpCode::OpLoop => 23,
            OpCode::OpGreaterEqual => 24,
            OpCode::OpLessEqual => 25,
            OpCode::Call => 26,
        }
    }

    /// The byte that encodes an instruction.
    #[verifier::when_used_as_spec(spec_byte)]
    pub fn byte(self) -> (r: u8)
        ensures
            r == self.spec_byte(),
            r <= 26,
    {
        match self {
            OpCode::OpConstant => 0,
            OpCode::OpNil => 1,
            OpCode::OpTrue => 2,
            OpCode::OpFalse => 3,
            OpCode::OpEqual => 4,
            OpCode::OpGreater => 5,
            OpCode::OpLess => 6,
            OpCode::OpAdd => 7,
            OpCode::OpSubtract => 8,
            OpCode::OpMultiply => 9,
            OpCode::OpDivide => 10,
            OpCode::OpNot => 11,
            OpCode::OpNegate => 12,
            OpCode::OpReturn => 13,
            OpCode::OpPrint => 14,
            OpCode::OpPop => 15,
            OpCode::OpDefineGlobal => 16,
            OpCode::OpGetGlobal => 17,
            OpCode::OpSetGlobal => 18,
            OpCode::OpGetLocal => 19,
            OpCode::OpSetLocal => 20,
            OpCode::OpJumpFalse => 21,
            OpCode::OpJump => 22,
            OpCode::OpLoop => 23,
            OpCode::OpGreaterEqual => 24,
            OpCode::OpLessEqual => 25,
            OpCode::Call => 26,
        }
    }

    /// The instruction that a byte encodes. Bytes above 26 encode none.
    pub fn from(value: u8) -> (r: Self)
        requires
            value <= 26,
        ensures
            r.spec_byte() == value,
    {
        match value {
            0 => OpCode::OpConstant,
            1 => OpCode::OpNil,
            2 => OpCode::OpTrue,
            3 => OpCode::OpFalse,
            4 => OpCode::OpEqual,
            5 => OpCode::OpGreater,
            6 => OpCode::OpLess,
            7 => OpCode::OpAdd,
            8 => OpCode::OpSubtract,
            9 => OpCode::OpMultiply,
            10 => OpCode::OpDivide,
            11 => OpCode::OpNot,
            12 => OpCode::OpNegate,
            13 => OpCode::OpReturn,
            14 => OpCode::OpPrint,
            15 => OpCode::OpPop,
            16 => OpCode::OpDefineGlobal,
            17 => OpCode::OpGetGlobal,
            18 => OpCode::OpSetGlobal,
            19 => OpCode::OpGetLocal,
            20 => OpCode::OpSetLocal,
            21 => OpCode::OpJumpFalse,
            22 => OpCode::OpJump,
            23 => OpCode::OpLoop,
            24 => OpCode::OpGreaterEqual,
            25 => OpCode::OpLessEqual,
            _ => OpCode::Call,
        }
    }
}

/// The number of operand bytes that follow an opcode byte.
pub open spec fn operand_bytes(op: u8) -> int {
    if op == 0 || op == 16 || op == 17 || op == 18 || op == 19 || op == 20 || op == 26 {
        1
    } else if op == 21 || op == 22 || op == 23 {
        2
    } else {
        0
    }
}

/// The length of an instruction: its opcode byte and its operand bytes.
pub open spec fn instruction_len(op: u8) -> int {
    1 + operand_bytes(op)
}

/// Whether the operand of an opcode is an index into the constants.
pub open spec fn reads_constant(op: u8) -> bool {
    op == 0 || op == 16 || op == 17 || op == 18
}

/// Whether an opcode is a jump, forward or back.
pub open spec fn is_jump(op: u8) -> bool {
    op == 21 || op == 22 || op == 23
}

/// The operand of the jump at `pos`: two bytes, the high one first.
pub open spec fn jump_operand(code: Seq<u8>, pos: int) -> int {
    code[pos + 1] as int * 256 + code[pos + 2] as int
}

/// Where the jump at `pos` leads: `JUMP` and `JUMP_IF_FALSE` add their operand to the
/// offset behind it, `LOOP` subtracts it.
pub open spec fn jump_target(code: Seq<u8>, pos: int) -> int {
    if code[pos] == 23 {
        pos + 3 - jump_operand(code, pos)
    } else {
        pos + 3 + jump_operand(code, pos)
    }
}

/// Whether a whole instruction of a known opcode stands at `pos`, whose constant index,
/// if it has one, is in range, and whose jump, if it is one, leads into the code.
pub open spec fn instruction_ok(c: ChunkView, pos: int) -> bool {
    &&& 0 <= pos < c.code.len()
    &&& c.code[pos] <= 26
    &&& pos + instruction_len(c.code[pos]) <= c.code.len()
    &&& (reads_constant(c.code[pos]) ==> c.code[pos + 1] < c.constants.len())
    &&& (is_jump(c.code[pos]) ==> 0 <= jump_target(c.code, pos) < c.code.len())
}

/// Whether the instructions from `pos` on are all in order and the last one ends where
/// the code ends.
pub open spec fn code_ok_from(c: ChunkView, pos: int) -> bool
    decreases c.code.len() - pos,
{
    if 0 <= pos < c.code.len() {
        instruction_ok(c, pos) && code_ok_from(c, pos + instruction_len(c.code[pos]))
    } else {
        pos == c.code.len()
    }
}

/// Whether a chunk is in order: a line for every byte, at most 256 constants, and code
/// that is a sequence of whole instructions, checked as `instruction_ok` says.
pub open spec fn chunk_ok(c: ChunkView) -> bool {
    &&& c.code.len() == c.lines.len()
    &&& c.constants.len() <= 256
    &&& code_ok_from(c, 0)
}

/// Whether the chunk of a function is in order, and so is that of every function among
/// its constants, to any depth.
pub open spec fn function_ok(f: FunctionView) -> bool
    decreases f,
{
    &&& chunk_ok(f.chunk)
    &&& forall|i: int|
        0 <= i < f.chunk.constants.len() ==> (#[trigger] f.chunk.constants[i]
            matches ValView::Object(ObjView::Function(g)) ==> function_ok(g))
}

/// Whether a walk from one instruction to the next that starts at `from` arrives at `to`.
pub open spec fn reaches(code: Seq<u8>, from: int, to: int) -> bool
    decreases to - from,
{
    if from >= to {
        from == to
    } else {
        0 <= from < code.len() && code[from] <= 26 && from + instruction_len(code[from]) <= to
            && reaches(code, from + instruction_len(code[from]), to)
    }
}

/// Whether `at` is where an instruction of the code begins, or the end of the code.
pub open spec fn boundary(code: Seq<u8>, at: int) -> bool {
    0 <= at <= code.len() && reaches(code, 0, at)
}

/// Whether every jump leads to where an instruction begins.
pub open spec fn jumps_land(c: ChunkView) -> bool {
    forall|at: int|
        #![trigger boundary(c.code, at)]
        boundary(c.code, at) && at < c.code.len() && is_jump(c.code[at]) ==> boundary(
            c.code,
            jump_target(c.code, at),
        )
}

/// Whether the code is not empty and its last instruction is `RETURN`.
pub open spec fn ends_with_return(c: ChunkView) -> bool {
    c.code.len() > 0 && forall|at: int|
        #![trigger boundary(c.code, at)]
        boundary(c.code, at) && at < c.code.len() && at + instruction_len(c.code[at])
            >= c.code.len() ==> c.code[at] == 13
}

/// Whether a function can be run without leaving its code: its chunk is in order, every
/// jump leads to an instruction, the last instruction returns, and the same holds of
/// every function among its constants, to any depth.
pub open spec fn function_sound(f: FunctionView) -> bool
    decreases f,
{
    &&& chunk_ok(f.chunk)
    &&& f.chunk.code.len() <= usize::MAX
    &&& jumps_land(f.chunk)
    &&& ends_with_return(f.chunk)
    &&& forall|i: int|
        0 <= i < f.chunk.constants.len() ==> (#[trigger] f.chunk.constants[i]
            matches ValView::Object(ObjView::Function(g)) ==> function_sound(g))
}

/// A function that can be run without leaving its code is in order.
pub proof fn lemma_sound_is_ok(f: FunctionView)
    requires
        function_sound(f),
    ensures
        function_ok(f),
    decreases f,
{
    assert forall|i: int| 0 <= i < f.chunk.constants.len() implies (#[trigger] f.chunk.constants[i]
        matches ValView::Object(ObjView::Function(g)) ==> function_ok(g)) by {
        if let ValView::Object(ObjView::Function(g)) = f.chunk.constants[i] {
            lemma_sound_is_ok(g);
        }
    }
}

/// A walk that arrives at an instruction also arrives behind it.
pub proof fn lemma_reaches_next(code: Seq<u8>, from: int, at: int)
    requires
        from <= at,
        reaches(code, from, at),
        0 <= at < code.len(),
        code[at] <= 26,
    ensures
        reaches(code, from, at + instruction_len(code[at])),
    decreases at - from,
{
    if from < at {
        lemma_reaches_next(code, from + instruction_len(code[from]), at);
    } else {
        assert(reaches(code, at + instruction_len(code[at]), at + instruction_len(code[at])));
    }
}

/// In code that is in order from `from` on, the instruction at which a walk from `from`
/// arrives is in order.
pub proof fn lemma_ok_at(c: ChunkView, from: int, at: int)
    requires
        0 <= from <= at < c.code.len(),
        code_ok_from(c, from),
        reaches(c.code, from, at),
    ensures
        instruction_ok(c, at),
    decreases at - from,
{
    if from < at {
        lemma_ok_at(c, from + instruction_len(c.code[from]), at);
    }
}

/// What a chunk stands for: its bytes, the source line of each byte, and its constant pool.
pub struct ChunkView {
    pub code: Seq<u8>,
    pub lines: Seq<usize>,
    pub constants: Seq<ValView>,
}

/// The code of one function: opcodes with their operand bytes, the source line of each
/// byte, and the constants that one-byte operands index.
#[derive(Debug, PartialEq)]
pub struct Chunk {
    pub code: Vec<u8>,
    pub lines: Vec<usize>,
    pub constants: Value,
}

/// The view of a chunk, with the constants viewed in depth.
pub open spec fn chunk_view(c: Chunk) -> ChunkView
    decreases c,
{
    ChunkView { code: c.code@, lines: c.lines@, constants: vals_view(c.constants.values) }
}

impl Chunk {
    /// An empty chunk.
    pub fn new() -> (r: Self)
        ensures
            r@.code == Seq::<u8>::empty(),
            r@.lines == Seq::<usize>::empty(),
            r@.constants == Seq::<ValView>::empty(),
    {
        let r = Chunk { code: Vec::new(), lines: Vec::new(), constants: Value::new() };
        proof {
            assert(r@.constants =~= Seq::empty());
        }
        r
    }

    /// Appends one byte with the source line it comes from.
    pub fn write(&mut self, byte: u8, line: usize)
        ensures
            final(self)@.code == old(self)@.code.push(byte),
            final(self)@.lines == old(self)@.lines.push(line),
            final(self)@.constants == old(self)@.constants,
    {
        self.code.push(byte);
        self.lines.push(line);
    }

    /// Appends a constant and returns its index.
    pub fn add_constant(&mut self, value: Val) -> (index: usize)
        ensures
            index == old(self)@.constants.len(),
            final(self)@.constants == old(self)@.constants.push(value@),
            final(self)@.code == old(self)@.code,
            final(self)@.lines == old(self)@.lines,
    {
        let index = self.constants.values.len();
        self.constants.write(value);
        index
    }

    /// Empties the chunk.
    pub fn free_chunk(&mut self)
        ensures
            final(self)@.code == Seq::<u8>::empty(),
            final(self)@.lines == Seq::<usize>::empty(),
            final(self)@.constants == Seq::<ValView>::empty(),
    {
        self.constants.free_value();
        self.code.clear();
        self.lines.clear();
    }
}

impl Default for Chunk {
    fn default() -> (r: Self)
        ensures
            r@.code == Seq::<u8>::empty(),
            r@.lines == Seq::<usize>::empty(),
            r@.constants == Seq::<ValView>::empty(),
    {
        Self::new()
    }
}

impl Clone for Chunk {
    fn clone(&self) -> (r: Self)
        ensures
            r@ == self@,
        decreases *self,
    {
        Chunk {
            code: self.code.clone(),
            lines: self.lines.clone(),
            constants: self.constants.clone(),
        }
    }
}

impl View for Chunk {
    type V = ChunkView;

    open spec fn view(&self) -> ChunkView {
        chunk_view(*self)
    }
}

} // verus!
