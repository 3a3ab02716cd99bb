//! The instruction set, and the records of a loaded program as a symbol
//! table describes them.
use vstd::prelude::*;

verus! {

/// The four bytes `FSBC` that open a binary file.
pub const MAGIC_NUMBER: [u8; 4] = [0x46, 0x53, 0x42, 0x43];

/// The version of the binary format.
pub const VERSION: u16 = 1;

/// A program header as a loader reads it.
#[derive(Debug, Clone, Copy, PartialEq, Eq)]
pub struct BinaryHeader {
    pub magic: [u8; 4],
    pub version: u16,
    pub constant_count: u32,
    pub function_count: u32,
    pub constant_offset: u32,
    pub function_offset: u32,
    pub bytecode_offset: u32,
    pub entry_function: u32,
}

/// A constant of the pool. A decimal constant is held by the bit pattern
/// of its 64-bit IEEE-754 representation.
#[derive(Debug, PartialEq)]
pub enum Constant {
    Int(i64),
    Float(u64),
    String(String),
}

/// A function with its name and where its code stands.
#[derive(Debug, PartialEq)]
pub struct BinaryFunction {
    pub name: String,
    pub parameter_count: u32,
    pub local_count: u32,
    pub bytecode_offset: u32,
    pub bytecode_size: u32,
}

/// A loaded program.
#[derive(Debug, PartialEq)]
pub struct BinaryProgram {
    pub header: BinaryHeader,
    pub constants: Vec<Constant>,
    pub functions: Vec<BinaryFunction>,
    pub bytecode: Vec<u8>,
}

/// The instructions of the machine.
#[derive(Debug, Clone, Copy, PartialEq, Eq, Structural)]
pub enum OpCode {
    LoadConst,
    LoadLocal,
    StoreLocal,
    LoadGlobal,
    StoreGlobal,
    Add,
    Sub,
    Mul,
    Div,
    Call,
    Return,
    Jump,
    JumpIfFalse,
    Equal,
    NotEqual,
    Greater,
    Less,
    Halt,
}

/// The byte that encodes each instruction.
pub open spec fn opcode_byte(op: OpCode) -> u8 {
    match op {
        OpCode::LoadConst => 1,
        OpCode::LoadLocal => 2,
        OpCode::StoreLocal => 3,
        OpCode::LoadGlobal => 4,
        OpCode::StoreGlobal => 5,
        OpCode::Add => 6,
        OpCode::Sub => 7,
        OpCode::Mul => 8,
        OpCode::Div => 9,
        OpCode::Call => 10,
        OpCode::Return => 11,
        OpCode::Jump => 12,
        OpCode::JumpIfFalse => 13,
        OpCode::Equal => 14,
        OpCode::NotEqual => 15,
        OpCode::Greater => 16,
        OpCode::Less => 17,
        OpCode::Halt => 255,
    }
}

impl OpCode {
    /// The byte that encodes the instruction.
    pub fn byte(self) -> (b: u8)
        ensures
            b == opcode_byte(self),
    {
        match self {
            OpCode::LoadConst => 1,
            OpCode::LoadLocal => 2,
            OpCode::StoreLocal => 3,
            OpCode::LoadGlobal => 4,
            OpCode::StoreGlobal => 5,
            OpCode::Add => 6,
            OpCode::Sub => 7,
            OpCode::Mul => 8,
            OpCode::Div => 9,
            OpCode::Call => 10,
            OpCode::Return => 11,
            OpCode::Jump => 12,
            OpCode::JumpIfFalse => 13,
            OpCode::Equal => 14,
            OpCode::NotEqual => 15,
            OpCode::Greater => 16,
            OpCode::Less => 17,
            OpCode::Halt => 255,
        }
    }
}

/// Distinct instructions have distinct bytes.
pub proof fn lemma_opcode_bytes_distinct(a: OpCode, b: OpCode)
    ensures
        opcode_byte(a) == opcode_byte(b) ==> a == b,
{
}

} // verus!
