use vstd::prelude::*;
use vstd::string::*;

use super::value::{rendered, ValView};
use super::{chunk_ok, code_ok_from, instruction_len, instruction_ok, operand_bytes, reads_constant, is_jump, Chunk, ChunkView};
use crate::text::{
    append_bytes, append_padded_left, append_padded_right, decimal, decimal_bytes, padded_left,
    padded_right,
};

verus! {

/// The name of an opcode in a listing.
pub open spec fn opcode_name(op: u8) -> Seq<u8> {
    if op == 0 {
        "OP_CONSTANT".spec_bytes()
    } else if op == 1 {
        "OP_NIL".spec_bytes()
    } else if op == 2 {
        "OP_TRUE".spec_bytes()
    } else if op == 3 {
        "OP_FALSE".spec_bytes()
    } else if op == 4 {
        "OP_EQUAL".spec_bytes()
    } else if op == 5 {
        "OP_GREATER".spec_bytes()
    } else if op == 6 {
        "OP_LESS".spec_bytes()
    } else if op == 7 {
        "OP_ADD".spec_bytes()
    } else if op == 8 {
        "OP_SUBTRACT".spec_bytes()
    } else if op == 9 {
        "OP_MULTIPLY".spec_bytes()
    } else if op == 10 {
        "OP_DIVIDE".spec_bytes()
    } else if op == 11 {
        "OP_NOT".spec_bytes()
    } else if op == 12 {
        "OP_NEGATE".spec_bytes()
    } else if op == 13 {
        "OP_RETURN".spec_bytes()
    } else if op == 14 {
        "OP_PRINT".spec_bytes()
    } else if op == 15 {
        "OP_POP".spec_bytes()
    } else if op == 16 {
        "OP_DEFINE_GLOBAL".spec_bytes()
    } else if op == 17 {
        "OP_GET_GLOBAL".spec_bytes()
    } else if op == 18 {
        "OP_SET_GLOBAL".spec_bytes()
    } else if op == 19 {
        "OP_GET_LOCAL".spec_bytes()
    } else if op == 20 {
        "OP_SET_LOCAL".spec_bytes()
    } else if op == 21 {
        "OP_JUMP_IF_FALSE".spec_bytes()
    } else if op == 22 {
        "OP_JUMP".spec_bytes()
    } else if op == 23 {
        "OP_LOOP".spec_bytes()
    } else if op == 24 {
        "OP_GREATER_EQUAL".spec_bytes()
    } else if op == 25 {
        "OP_LESS_EQUAL".spec_bytes()
    } else {
        "OP_CALL".spec_bytes()
    }
}

/// The name of an opcode in a listing.
pub fn name_of(op: u8) -> (r: &'static str)
    ensures
        r.spec_bytes() == opcode_name(op),
{
    if op == 0 {
        "OP_CONSTANT"
    } else if op == 1 {
        "OP_NIL"
    } else if op == 2 {
        "OP_TRUE"
    } else if op == 3 {
        "OP_FALSE"
    } else if op == 4 {
        "OP_EQUAL"
    } else if op == 5 {
        "OP_GREATER"
    } else if op == 6 {
        "OP_LESS"
    } else if op == 7 {
        "OP_ADD"
    } else if op == 8 {
        "OP_SUBTRACT"
    } else if op == 9 {
        "OP_MULTIPLY"
    } else if op == 10 {
        "OP_DIVIDE"
    } else if op == 11 {
        "OP_NOT"
    } else if op == 12 {
        "OP_NEGATE"
    } else if op == 13 {
        "OP_RETURN"
    } else if op == 14 {
        "OP_PRINT"
    } else if op == 15 {
        "OP_POP"
    } else if op == 16 {
        "OP_DEFINE_GLOBAL"
    } else if op == 17 {
        "OP_GET_GLOBAL"
    } else if op == 18 {
        "OP_SET_GLOBAL"
    } else if op == 19 {
        "OP_GET_LOCAL"
    } else if op == 20 {
        "OP_SET_LOCAL"
    } else if op == 21 {
        "OP_JUMP_IF_FALSE"
    } else if op == 22 {
        "OP_JUMP"
    } else if op == 23 {
        "OP_LOOP"
    } else if op == 24 {
        "OP_GREATER_EQUAL"
    } else if op == 25 {
        "OP_LESS_EQUAL"
    } else {
        "OP_CALL"
    }
}

/// Where the instruction at `offset` ends: behind its operands, or behind its opcode
/// where the opcode is unknown, or at the end of the code where its operands are cut
/// off. Behind the code nothing follows.
pub open spec fn next_offset(code: Seq<u8>, offset: int) -> int {
    if !(0 <= offset < code.len()) {
        offset
    } else if code[offset] > 26 {
        offset + 1
    } else if offset + instruction_len(code[offset]) > code.len() {
        code.len() as int
    } else {
        offset + instruction_len(code[offset])
    }
}

/// Where a walk over the instructions that starts at `offset` ends.
pub open spec fn walk_end(code: Seq<u8>, offset: int) -> int
    decreases code.len() - offset,
{
    if 0 <= offset < code.len() {
        walk_end(code, next_offset(code, offset))
    } else {
        offset
    }
}

/// The offsets that a walk over the instructions visits from `offset` on.
pub open spec fn walk(code: Seq<u8>, offset: int) -> Seq<int>
    decreases code.len() - offset,
{
    if 0 <= offset < code.len() {
        seq![offset] + walk(code, next_offset(code, offset))
    } else {
        Seq::empty()
    }
}

/// The text that a listing shows for constant `index`: the value in quotes, or a note
/// where the index is out of range. The text of a number is taken from `numbers` at the
/// index of the constant.
pub open spec fn constant_note(c: ChunkView, index: int, numbers: Seq<Seq<u8>>) -> Seq<u8> {
    if 0 <= index < c.constants.len() {
        " '".spec_bytes() + rendered(
            c.constants[index],
            if index < numbers.len() {
                numbers[index]
            } else {
                Seq::empty()
            },
        ) + "'".spec_bytes()
    } else {
        " [Invalid constant index]".spec_bytes()
    }
}

/// The start of a line of a listing: the offset in four digits, and the source line, or
/// a bar where it is that of the byte before.
pub open spec fn line_head(c: ChunkView, offset: int) -> Seq<u8> {
    padded_left(decimal(offset as nat), 4, 48) + " ".spec_bytes() + (if offset > 0 && offset
        < c.lines.len() && c.lines[offset] == c.lines[offset - 1] {
        "   | ".spec_bytes()
    } else {
        padded_left(
            decimal(
                (if offset < c.lines.len() {
                    c.lines[offset]
                } else {
                    0
                }) as nat,
            ),
            4,
            32,
        ) + " ".spec_bytes()
    })
}

/// The line of a listing for the instruction at `offset`.
pub open spec fn instruction_text(c: ChunkView, offset: int, numbers: Seq<Seq<u8>>) -> Seq<u8> {
    if !(0 <= offset < c.code.len()) {
        padded_left(decimal(offset as nat), 4, 48) + " ".spec_bytes()
            + "Reached end of code at ip = ".spec_bytes() + decimal(offset as nat)
    } else {
        line_head(c, offset) + instruction_body(c, offset, numbers)
    }
}

/// The bytes of lines of text, in order.
pub open spec fn texts(lines: Seq<Vec<u8>>) -> Seq<Seq<u8>> {
    Seq::new(lines.len(), |i: int| lines[i]@)
}

/// Writes the start of a line of a listing.
fn write_head(chunk: &Chunk, offset: usize) -> (text: Vec<u8>)
    ensures
        text@ == line_head(chunk@, offset as int),
{
    let mut text: Vec<u8> = Vec::new();
    let place = decimal_bytes(offset);
    append_padded_left(&mut text, place.as_slice(), 4, 48);
    append_bytes(&mut text, " ".as_bytes());
    if offset > 0 && offset < chunk.lines.len() && chunk.lines[offset] == chunk.lines[offset - 1] {
        append_bytes(&mut text, "   | ".as_bytes());
    } else {
        let line: usize = if offset < chunk.lines.len() {
            chunk.lines[offset]
        } else {
            0
        };
        let digits = decimal_bytes(line);
        let ghost start = text@;
        append_padded_left(&mut text, digits.as_slice(), 4, 32);
        append_bytes(&mut text, " ".as_bytes());
        proof {
            assert(text@ =~= start + (padded_left(decimal(line as nat), 4, 32) + " ".spec_bytes()));
        }
    }
    text
}

/// Writes what a listing shows for a constant.
fn write_constant(chunk: &Chunk, index: usize, numbers: &Vec<Vec<u8>>) -> (text: Vec<u8>)
    ensures
        text@ == constant_note(chunk@, index as int, texts(numbers@)),
{
    let mut text: Vec<u8> = Vec::new();
    if index < chunk.constants.values.len() {
        append_bytes(&mut text, " '".as_bytes());
        let empty: Vec<u8> = Vec::new();
        let value = if index < numbers.len() {
            chunk.constants.values[index].to_text(numbers[index].as_slice())
        } else {
            chunk.constants.values[index].to_text(empty.as_slice())
        };
        append_bytes(&mut text, value.as_slice());
        append_bytes(&mut text, "'".as_bytes());
        proof {
            assert(texts(numbers@).len() == numbers@.len());
        }
    } else {
        append_bytes(&mut text, " [Invalid constant index]".as_bytes());
    }
    text
}

/// Writes the name of an opcode, padded, and its operand.
fn write_operand(op: u8, operand: usize) -> (text: Vec<u8>)
    ensures
        text@ == padded_right(opcode_name(op), 16) + " ".spec_bytes() + padded_left(
            decimal(operand as nat),
            4,
            32,
        ),
{
    let mut text: Vec<u8> = Vec::new();
    append_padded_right(&mut text, name_of(op).as_bytes(), 16);
    append_bytes(&mut text, " ".as_bytes());
    let digits = decimal_bytes(operand);
    append_padded_left(&mut text, digits.as_slice(), 4, 32);
    text
}

/// What a line of a listing shows behind its start, for an instruction in the code.
pub open spec fn instruction_body(c: ChunkView, offset: int, numbers: Seq<Seq<u8>>) -> Seq<u8> {
    let op = c.code[offset];
    if op > 26 {
        "Unknown opcode ".spec_bytes() + decimal(op as nat)
    } else if offset + instruction_len(op) > c.code.len() {
        opcode_name(op) + " [cut off]".spec_bytes()
    } else if operand_bytes(op) == 0 {
        opcode_name(op)
    } else if operand_bytes(op) == 1 {
        padded_right(opcode_name(op), 16) + " ".spec_bytes() + padded_left(
            decimal(c.code[offset + 1] as nat),
            4,
            32,
        ) + (if reads_constant(op) {
            constant_note(c, c.code[offset + 1] as int, numbers)
        } else {
            Seq::empty()
        })
    } else {
        padded_right(opcode_name(op), 16) + " ".spec_bytes() + padded_left(
            decimal((c.code[offset + 1] as int * 256 + c.code[offset + 2] as int) as nat),
            4,
            32,
        )
    }
}

/// Writes what a line of a listing shows behind its start.
fn write_body(chunk: &Chunk, offset: usize, numbers: &Vec<Vec<u8>>) -> (text: Vec<u8>)
    requires
        offset < chunk@.code.len(),
    ensures
        text@ == instruction_body(chunk@, offset as int, texts(numbers@)),
{
    let op = chunk.code[offset];
    let len = chunk.code.len();
    let mut text: Vec<u8> = Vec::new();
    if op > 26 {
        append_bytes(&mut text, "Unknown opcode ".as_bytes());
        let digits = decimal_bytes(op as usize);
        append_bytes(&mut text, digits.as_slice());
        return text;
    }
    let operands = crate::vm::operand_count(op);
    if len - offset < 1 + operands {
        append_bytes(&mut text, name_of(op).as_bytes());
        append_bytes(&mut text, " [cut off]".as_bytes());
        return text;
    }
    if operands == 0 {
        append_bytes(&mut text, name_of(op).as_bytes());
        return text;
    }
    if operands == 1 {
        let operand = chunk.code[offset + 1];
        let mut text = write_operand(op, operand as usize);
        if op == 0 || op == 16 || op == 17 || op == 18 {
            let note = write_constant(chunk, operand as usize, numbers);
            append_bytes(&mut text, note.as_slice());
        } else {
            proof {
                assert(text@ + Seq::<u8>::empty() =~= text@);
            }
        }
        return text;
    }
    let operand: usize = chunk.code[offset + 1] as usize * 256 + chunk.code[offset + 2] as usize;
    write_operand(op, operand)
}

/// Writes the line of a listing for the instruction at `offset`, and returns it with the
/// offset of the next instruction. `numbers` holds, at the index of each constant that
/// is a number, the text of its double.
pub fn disassemble_instruction(chunk: &Chunk, offset: usize, numbers: &Vec<Vec<u8>>) -> (r: (
    Vec<u8>,
    usize,
))
    ensures
        r.0@ == instruction_text(chunk@, offset as int, texts(numbers@)),
        r.1 == next_offset(chunk@.code, offset as int),
        offset < chunk@.code.len() ==> offset < r.1 <= chunk@.code.len(),
{
    let len = chunk.code.len();
    if offset >= len {
        let mut text: Vec<u8> = Vec::new();
        let place = decimal_bytes(offset);
        append_padded_left(&mut text, place.as_slice(), 4, 48);
        append_bytes(&mut text, " ".as_bytes());
        append_bytes(&mut text, "Reached end of code at ip = ".as_bytes());
        append_bytes(&mut text, place.as_slice());
        return (text, offset);
    }
    let mut text = write_head(chunk, offset);
    let body = write_body(chunk, offset, numbers);
    append_bytes(&mut text, body.as_slice());
    let op = chunk.code[offset];
    let next: usize = if op > 26 {
        offset + 1
    } else {
        let operands = crate::vm::operand_count(op);
        if len - offset < 1 + operands {
            len
        } else {
            offset + 1 + operands
        }
    };
    (text, next)
}

/// The lines of the listing of a chunk from `offset` on.
pub open spec fn listing_from(c: ChunkView, offset: int, numbers: Seq<Seq<u8>>) -> Seq<Seq<u8>>
    decreases c.code.len() - offset,
{
    if 0 <= offset < c.code.len() {
        seq![instruction_text(c, offset, numbers)] + listing_from(
            c,
            next_offset(c.code, offset),
            numbers,
        )
    } else {
        Seq::empty()
    }
}

/// Writes the listing of a chunk: a heading with `name`, and a line for each instruction.
/// Returns the lines and the offset at which the walk over the instructions ended.
pub fn disassemble_chunk(chunk: &Chunk, name: &str, numbers: &Vec<Vec<u8>>) -> (r: (
    Vec<Vec<u8>>,
    usize,
))
    ensures
        texts(r.0@) == seq!["== ".spec_bytes() + name.spec_bytes() + " ==".spec_bytes()]
            + listing_from(chunk@, 0, texts(numbers@)),
        r.1 == walk_end(chunk@.code, 0),
        r.1 == chunk@.code.len(),
{
    let mut lines: Vec<Vec<u8>> = Vec::new();
    let mut heading: Vec<u8> = Vec::new();
    append_bytes(&mut heading, "== ".as_bytes());
    append_bytes(&mut heading, name.as_bytes());
    append_bytes(&mut heading, " ==".as_bytes());
    lines.push(heading);
    let ghost first = seq!["== ".spec_bytes() + name.spec_bytes() + " ==".spec_bytes()];
    let ghost c = chunk@;
    let ghost shown = texts(numbers@);
    let mut offset: usize = 0;
    proof {
        assert(texts(lines@) =~= first);
    }
    while offset < chunk.code.len()
        invariant
            offset <= chunk@.code.len(),
            c == chunk@,
            shown == texts(numbers@),
            walk_end(c.code, offset as int) == walk_end(c.code, 0),
            texts(lines@) + listing_from(c, offset as int, shown) == first + listing_from(
                c,
                0,
                shown,
            ),
        decreases chunk@.code.len() - offset,
    {
        let ghost before = texts(lines@);
        let (text, next) = disassemble_instruction(chunk, offset, numbers);
        lines.push(text);
        proof {
            assert(texts(lines@) =~= before.push(text@));
            assert(before.push(text@) + listing_from(c, next as int, shown) =~= before + (
            seq![text@] + listing_from(c, next as int, shown)));
        }
        offset = next;
    }
    proof {
        assert(texts(lines@) + Seq::<Seq<u8>>::empty() =~= texts(lines@));
    }
    (lines, offset)
}

/// A walk over the instructions of a chunk in order goes from instruction to instruction,
/// each offset behind the one before, and ends exactly at the end of the code.
pub proof fn lemma_walk_exact(c: ChunkView, offset: int)
    requires
        0 <= offset <= c.code.len(),
        code_ok_from(c, offset),
    ensures
        walk_end(c.code, offset) == c.code.len(),
        forall|i: int|
            0 <= i < walk(c.code, offset).len() ==> offset <= #[trigger] walk(c.code, offset)[i]
                < c.code.len() && instruction_ok(c, walk(c.code, offset)[i]),
        forall|i: int|
            #![trigger walk(c.code, offset)[i]]
            0 <= i && i + 1 < walk(c.code, offset).len() ==> walk(c.code, offset)[i] < walk(
                c.code,
                offset,
            )[i + 1],
    decreases c.code.len() - offset,
{
    if offset < c.code.len() {
        let next = next_offset(c.code, offset);
        lemma_walk_exact(c, next);
        let rest = walk(c.code, next);
        let all = walk(c.code, offset);
        assert(all =~= seq![offset] + rest);
        assert forall|i: int| 0 <= i < all.len() implies offset <= #[trigger] all[i] < c.code.len()
            && instruction_ok(c, all[i]) by {
            if i > 0 {
                assert(all[i] == rest[i - 1]);
            }
        }
        assert forall|i: int| #![trigger all[i]] 0 <= i && i + 1 < all.len() implies all[i] < all[i
            + 1] by {
            assert(all[i + 1] == rest[i]);
            if i > 0 {
                assert(all[i] == rest[i - 1]);
            }
        }
    }
}

} // verus!
