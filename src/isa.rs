use vstd::prelude::*;
use crate::syntax::{Pos, Error};

verus! {

/// A resolved machine instruction of the 8-bit stack machine.
#[derive(Clone, Copy, PartialEq, Eq, Structural, Debug)]
pub enum Instruction {
    Psh(u8),
    Phn(u8),
    Ldo(u8),
    Sto(u8),
    Add(u8),
    Adc(u8),
    Sub(u8),
    Sbc(u8),
    Shf(u8),
    Sfc(u8),
    Rot(u8),
    Iff(u8),
    Orr(u8),
    And(u8),
    Xor(u8),
    Xnd(u8),
    Adn,
    Sbn,
    Inc,
    Dec,
    Neg,
    Not,
    Buf,
    Nop,
    Clc,
    Sec,
    Flc,
    Swp,
    Pop,
    Lda,
    Sta,
    Ldi,
    Sti,
    Lds,
    Sts,
    Raw(u8),
}

/// An operand size the arithmetic family accepts.
pub open spec fn valid_size(size: u8) -> bool {
    size == 1 || size == 2 || size == 4 || size == 8
}

/// The two-bit code of an operand size.
pub open spec fn size_code(size: u8) -> u8 {
    if size == 1 {
        0
    } else if size == 2 {
        1
    } else if size == 4 {
        2
    } else {
        3
    }
}

/// Whether every operand of `i` fits its bit field.
pub open spec fn encodable(i: Instruction) -> bool {
    match i {
        Instruction::Psh(imm) => imm < 128,
        Instruction::Phn(n) => n < 16,
        Instruction::Ldo(o) => o < 16,
        Instruction::Sto(o) => o < 16,
        Instruction::Add(s) => valid_size(s),
        Instruction::Adc(s) => valid_size(s),
        Instruction::Sub(s) => valid_size(s),
        Instruction::Sbc(s) => valid_size(s),
        Instruction::Shf(s) => valid_size(s),
        Instruction::Sfc(s) => valid_size(s),
        Instruction::Rot(s) => valid_size(s),
        Instruction::Iff(s) => valid_size(s),
        Instruction::Orr(s) => valid_size(s),
        Instruction::And(s) => valid_size(s),
        Instruction::Xor(s) => valid_size(s),
        Instruction::Xnd(s) => valid_size(s),
        _ => true,
    }
}

/// The byte that encodes `i`.
pub open spec fn opcode(i: Instruction) -> u8 {
    match i {
        Instruction::Psh(imm) => imm,
        Instruction::Phn(n) => 0xF0 | n,
        Instruction::Ldo(o) => 0xC0 | o,
        Instruction::Sto(o) => 0xD0 | o,
        Instruction::Add(s) => 0x80 | size_code(s),
        Instruction::Adc(s) => 0x84 | size_code(s),
        Instruction::Sub(s) => 0x88 | size_code(s),
        Instruction::Sbc(s) => 0x8C | size_code(s),
        Instruction::Shf(s) => 0x90 | size_code(s),
        Instruction::Sfc(s) => 0x94 | size_code(s),
        Instruction::Rot(s) => 0x98 | size_code(s),
        Instruction::Iff(s) => 0x9C | size_code(s),
        Instruction::Orr(s) => 0xA0 | size_code(s),
        Instruction::And(s) => 0xA4 | size_code(s),
        Instruction::Xor(s) => 0xA8 | size_code(s),
        Instruction::Xnd(s) => 0xAC | size_code(s),
        Instruction::Adn => 0xB0,
        Instruction::Sbn => 0xB1,
        Instruction::Inc => 0xB2,
        Instruction::Dec => 0xB3,
        Instruction::Neg => 0xB4,
        Instruction::Not => 0xB6,
        Instruction::Buf => 0xB7,
        Instruction::Nop => 0xE0,
        Instruction::Clc => 0xE1,
        Instruction::Sec => 0xE2,
        Instruction::Flc => 0xE3,
        Instruction::Swp => 0xE4,
        Instruction::Pop => 0xE5,
        Instruction::Lda => 0xE8,
        Instruction::Sta => 0xE9,
        Instruction::Ldi => 0xEA,
        Instruction::Sti => 0xEB,
        Instruction::Lds => 0xEC,
        Instruction::Sts => 0xED,
        Instruction::Raw(b) => b,
    }
}

fn encode_size(size: u8) -> (r: u8)
    requires
        valid_size(size),
    ensures
        r == size_code(size),
{
    if size == 1 {
        0
    } else if size == 2 {
        1
    } else if size == 4 {
        2
    } else {
        3
    }
}

/// Encodes one instruction as its byte.
pub fn encode(i: Instruction) -> (r: u8)
    requires
        encodable(i),
    ensures
        r == opcode(i),
{
    match i {
        Instruction::Psh(imm) => imm,
        Instruction::Phn(n) => 0xF0 | n,
        Instruction::Ldo(o) => 0xC0 | o,
        Instruction::Sto(o) => 0xD0 | o,
        Instruction::Add(s) => 0x80 | encode_size(s),
        Instruction::Adc(s) => 0x84 | encode_size(s),
        Instruction::Sub(s) => 0x88 | encode_size(s),
        Instruction::Sbc(s) => 0x8C | encode_size(s),
        Instruction::Shf(s) => 0x90 | encode_size(s),
        Instruction::Sfc(s) => 0x94 | encode_size(s),
        Instruction::Rot(s) => 0x98 | encode_size(s),
        Instruction::Iff(s) => 0x9C | encode_size(s),
        Instruction::Orr(s) => 0xA0 | encode_size(s),
        Instruction::And(s) => 0xA4 | encode_size(s),
        Instruction::Xor(s) => 0xA8 | encode_size(s),
        Instruction::Xnd(s) => 0xAC | encode_size(s),
        Instruction::Adn => 0xB0,
        Instruction::Sbn => 0xB1,
        Instruction::Inc => 0xB2,
        Instruction::Dec => 0xB3,
        Instruction::Neg => 0xB4,
        Instruction::Not => 0xB6,
        Instruction::Buf => 0xB7,
        Instruction::Nop => 0xE0,
        Instruction::Clc => 0xE1,
        Instruction::Sec => 0xE2,
        Instruction::Flc => 0xE3,
        Instruction::Swp => 0xE4,
        Instruction::Pop => 0xE5,
        Instruction::Lda => 0xE8,
        Instruction::Sta => 0xE9,
        Instruction::Ldi => 0xEA,
        Instruction::Sti => 0xEB,
        Instruction::Lds => 0xEC,
        Instruction::Sts => 0xED,
        Instruction::Raw(b) => b,
    }
}

/// The number of bytes of the machine's memory.
pub const MEMORY_SIZE: usize = 256;

/// The memory image of a sequence of instructions: their bytes, padded with zeros to fill
/// memory when they fit.
pub open spec fn image(instructions: Seq<(Pos, Instruction)>) -> Seq<u8> {
    Seq::new(
        if instructions.len() > 256 {
            instructions.len()
        } else {
            256
        },
        |k: int|
            if k < instructions.len() {
                opcode(instructions[k].1)
            } else {
                0
            },
    )
}

/// Encodes each instruction as its byte, then pads with zero bytes to the size of memory;
/// a program larger than memory is reported, and left unpadded.
pub fn codegen(instructions: Vec<(Pos, Instruction)>, errors: &mut Vec<(Pos, Error)>) -> (r: Vec<(Pos, u8)>)
    requires
        forall|k: int| 0 <= k < instructions@.len() ==> encodable(#[trigger] instructions@[k].1),
    ensures
        r@.len() == image(instructions@).len(),
        forall|k: int| 0 <= k < r@.len() ==> #[trigger] r@[k].1 == image(instructions@)[k],
        forall|k: int| 0 <= k < instructions@.len() ==> #[trigger] r@[k].0 == instructions@[k].0,
        instructions@.len() <= 256 ==> final(errors)@ == old(errors)@,
        instructions@.len() > 256 ==> final(errors)@.len() == old(errors)@.len() + 1
            && final(errors)@.take(old(errors)@.len() as int) == old(errors)@
            && final(errors)@.last().1 == Error::ProgramTooLarge(instructions@.len() as usize)
            && final(errors)@.last().0.scope@ == "[codegen]"@ && final(errors)@.last().0.index == 0,
{
    let n = instructions.len();
    let mut bytes: Vec<(Pos, u8)> = Vec::new();
    let mut i: usize = 0;
    while i < n
        invariant
            i <= n,
            n == instructions@.len(),
            forall|k: int| 0 <= k < instructions@.len() ==> encodable(#[trigger] instructions@[k].1),
            bytes@.len() == i,
            forall|k: int| 0 <= k < i ==> #[trigger] bytes@[k] == (instructions@[k].0, opcode(instructions@[k].1)),
        decreases n - i,
    {
        bytes.push((instructions[i].0.copy(), encode(instructions[i].1)));
        i = i + 1;
    }
    if n > MEMORY_SIZE {
        let pos = Pos { scope: String::from_str("[codegen]"), index: 0 };
        errors.push((pos, Error::ProgramTooLarge(n)));
        assert(errors@.take(old(errors)@.len() as int) =~= old(errors)@);
    } else {
        while bytes.len() < MEMORY_SIZE
            invariant
                n <= bytes@.len() <= 256,
                n == instructions@.len(),
                forall|k: int| 0 <= k < n ==> #[trigger] bytes@[k] == (instructions@[k].0, opcode(instructions@[k].1)),
                forall|k: int| n <= k < bytes@.len() ==> #[trigger] bytes@[k].1 == 0,
            decreases 256 - bytes@.len(),
        {
            let pos = Pos { scope: String::from_str("[codegen]"), index: 0 };
            bytes.push((pos, 0));
        }
    }
    bytes
}

} // verus!
