//! The instructions of the command protocol and their opcodes.

use vstd::prelude::*;

verus! {

/// An instruction named by a command's opcode.
#[derive(Debug, Clone, Copy, PartialEq, Eq, Structural)]
pub enum Instruction {
    GetVersion,
    Sign,
    Commitment,
    GetPublicKey,
    GetPublicNonce,
    Exit,
    /// An opcode that names no instruction.
    BadInstruction(u8),
}

/// The instruction that opcode `b` names.
pub open spec fn instruction_of(b: u8) -> Instruction {
    if b == 0x01 {
        Instruction::GetVersion
    } else if b == 0x02 {
        Instruction::Sign
    } else if b == 0x03 {
        Instruction::Commitment
    } else if b == 0x04 {
        Instruction::GetPublicKey
    } else if b == 0x05 {
        Instruction::GetPublicNonce
    } else if b == 0x06 {
        Instruction::Exit
    } else {
        Instruction::BadInstruction(b)
    }
}

/// The opcode of an instruction.
pub open spec fn opcode_of(i: Instruction) -> u8 {
    match i {
        Instruction::GetVersion => 0x01,
        Instruction::Sign => 0x02,
        Instruction::Commitment => 0x03,
        Instruction::GetPublicKey => 0x04,
        Instruction::GetPublicNonce => 0x05,
        Instruction::Exit => 0x06,
        Instruction::BadInstruction(b) => b,
    }
}

impl Instruction {
    /// The instruction that `opcode` names, or `BadInstruction(opcode)`.
    pub fn from_u8(opcode: u8) -> (r: Self)
        ensures
            r == instruction_of(opcode),
    {
        match opcode {
            0x01 => Instruction::GetVersion,
            0x02 => Instruction::Sign,
            0x03 => Instruction::Commitment,
            0x04 => Instruction::GetPublicKey,
            0x05 => Instruction::GetPublicNonce,
            0x06 => Instruction::Exit,
            other => Instruction::BadInstruction(other),
        }
    }

    /// The opcode of the instruction.
    pub fn as_u8(&self) -> (r: u8)
        ensures
            r == opcode_of(*self),
    {
        match self {
            Instruction::GetVersion => 0x01,
            Instruction::Sign => 0x02,
            Instruction::Commitment => 0x03,
            Instruction::GetPublicKey => 0x04,
            Instruction::GetPublicNonce => 0x05,
            Instruction::Exit => 0x06,
            Instruction::BadInstruction(b) => *b,
        }
    }
}

/// Decoding an opcode and encoding the result gives the opcode back; a known
/// instruction survives encoding and decoding.
pub proof fn lemma_opcode_round_trip(b: u8, i: Instruction)
    ensures
        opcode_of(instruction_of(b)) == b,
        !(i is BadInstruction) ==> instruction_of(opcode_of(i)) == i,
{
}

} // verus!
