//! The in-memory form of a compiled program, as the binary container holds it.
use vstd::prelude::*;

verus! {

/// The four bytes `FSBC` that open every binary file.
pub const MAGIC: [u8; 4] = [0x46, 0x53, 0x42, 0x43];

/// The version of the binary format.
pub const VERSION: u16 = 1;

/// A constant of the constant pool. A decimal constant is held by the bit
/// pattern of its 64-bit IEEE-754 representation.
#[derive(Debug, PartialEq)]
pub enum Constant {
    Int(i64),
    Float(u64),
    String(String),
}

/// A constant with its text taken as a character sequence.
pub enum ConstantView {
    Int(i64),
    Float(u64),
    String(Seq<char>),
}

impl View for Constant {
    type V = ConstantView;

    open spec fn view(&self) -> ConstantView {
        match self {
            Constant::Int(v) => ConstantView::Int(*v),
            Constant::Float(v) => ConstantView::Float(*v),
            Constant::String(s) => ConstantView::String(s@),
        }
    }
}

impl Clone for Constant {
    fn clone(&self) -> (r: Self)
        ensures
            r == *self,
    {
        match self {
            Constant::Int(v) => Constant::Int(*v),
            Constant::Float(v) => Constant::Float(*v),
            Constant::String(s) => Constant::String(s.clone()),
        }
    }
}

/// A function as a symbol table names it.
#[derive(Debug, Clone, PartialEq)]
pub struct BinaryFunction {
    pub name: String,
    pub parameter_count: u32,
    pub local_count: u32,
    pub bytecode_offset: u32,
    pub bytecode_size: u32,
}

/// The header that opens a binary file.
#[derive(Debug, Clone, Copy, PartialEq, Eq)]
pub struct BinaryHeader {
    pub magic: [u8; 4],
    pub version: u16,
    pub constant_count: u32,
    pub function_count: u32,
    pub constant_offset: u32,
    pub function_offset: u32,
    pub code_offset: u32,
    pub code_size: u32,
    pub entry_function: u32,
}

/// One entry of the function table.
#[derive(Debug, Clone, Copy, PartialEq, Eq, Structural)]
pub struct FunctionInfo {
    pub parameter_count: u16,
    pub local_count: u16,
    pub stack_size: u16,
    pub code_offset: u32,
    pub code_size: u32,
}

/// A compiled program: constant pool, function table, code and entry point.
#[derive(Debug, PartialEq)]
pub struct BinaryProgram {
    pub constants: Vec<Constant>,
    pub functions: Vec<FunctionInfo>,
    pub code: Vec<u8>,
    pub entry_function: u32,
}

/// What a `BinaryProgram` holds, as sequences.
pub struct BinaryProgramView {
    pub constants: Seq<ConstantView>,
    pub functions: Seq<FunctionInfo>,
    pub code: Seq<u8>,
    pub entry_function: u32,
}

impl View for BinaryProgram {
    type V = BinaryProgramView;

    open spec fn view(&self) -> BinaryProgramView {
        BinaryProgramView {
            constants: self.constants@.map_values(|c: Constant| c@),
            functions: self.functions@,
            code: self.code@,
            entry_function: self.entry_function,
        }
    }
}

} // verus!
