//! Encoding a compiled program into the bytes of the binary container.
use vstd::prelude::*;
use vstd::bytes::*;
use vstd::utf8::*;
use crate::format::{Constant, FunctionInfo, BinaryProgram, MAGIC, VERSION};
use crate::encoding::{HEADER_SIZE, FUNCTION_SIZE, magic_bytes, constant_bytes, constants_bytes, function_bytes, functions_bytes, header_bytes, encode_program, encodable, pool_size, lemma_constants_len, lemma_constant_len, lemma_pool_size_prefix, constant_size};

verus! {

/// Accumulates the bytes of a binary file.
pub struct BinaryWriter {
    buffer: Vec<u8>,
}

impl View for BinaryWriter {
    type V = Seq<u8>;

    closed spec fn view(&self) -> Seq<u8> {
        self.buffer@
    }
}

impl BinaryWriter {
    /// An empty writer.
    pub fn new() -> (w: Self)
        ensures
            w@ == Seq::<u8>::empty(),
    {
        Self { buffer: Vec::with_capacity(4096) }
    }

    fn write_bytes(&mut self, bytes: &[u8])
        ensures
            final(self)@ == old(self)@ + bytes@,
    {
        let ghost start = self.buffer@;
        let mut i: usize = 0;
        while i < bytes.len()
            invariant
                i <= bytes@.len(),
                self.buffer@ == start + bytes@.subrange(0, i as int),
            decreases bytes@.len() - i,
        {
            self.buffer.push(bytes[i]);
            i = i + 1;
            assert(self.buffer@ =~= start + bytes@.subrange(0, i as int));
        }
        assert(bytes@.subrange(0, i as int) =~= bytes@);
    }

    fn write_u8(&mut self, value: u8)
        ensures
            final(self)@ == old(self)@ + seq![value],
    {
        self.buffer.push(value);
        assert(self.buffer@ =~= old(self)@ + seq![value]);
    }

    fn write_u16(&mut self, value: u16)
        ensures
            final(self)@ == old(self)@ + spec_u16_to_le_bytes(value),
    {
        let bytes = u16_to_le_bytes(value);
        self.write_bytes(bytes.as_slice());
    }

    fn write_u32(&mut self, value: u32)
        ensures
            final(self)@ == old(self)@ + spec_u32_to_le_bytes(value),
    {
        let bytes = u32_to_le_bytes(value);
        self.write_bytes(bytes.as_slice());
    }

    fn write_i64(&mut self, value: i64)
        ensures
            final(self)@ == old(self)@ + spec_u64_to_le_bytes(value as u64),
    {
        let bytes = u64_to_le_bytes(value as u64);
        self.write_bytes(bytes.as_slice());
    }

    /// Writes the bit pattern of a decimal value.
    fn write_f64(&mut self, value: u64)
        ensures
            final(self)@ == old(self)@ + spec_u64_to_le_bytes(value),
    {
        let bytes = u64_to_le_bytes(value);
        self.write_bytes(bytes.as_slice());
    }

    fn write_string(&mut self, value: &str)
        requires
            encode_utf8(value@).len() <= u32::MAX,
        ensures
            final(self)@ == old(self)@ + spec_u32_to_le_bytes(encode_utf8(value@).len() as u32)
                + encode_utf8(value@),
    {
        self.write_u32(value.len() as u32);
        self.write_bytes(value.as_bytes());
    }

    fn write_constant(&mut self, constant: &Constant)
        requires
            constant_size(constant@) <= u32::MAX,
        ensures
            final(self)@ == old(self)@ + constant_bytes(constant@),
    {
        match constant {
            Constant::Int(v) => {
                self.write_u8(0);
                self.write_i64(*v);
            },
            Constant::Float(v) => {
                self.write_u8(1);
                self.write_f64(*v);
            },
            Constant::String(v) => {
                self.write_u8(2);
                proof {
                    lemma_constant_len(constant@);
                }
                self.write_string(v.as_str());
            },
        }
        assert(self@ =~= old(self)@ + constant_bytes(constant@));
    }

    fn write_constants(&mut self, constants: &[Constant])
        requires
            pool_size(constants@.map_values(|c: Constant| c@)) <= u32::MAX,
        ensures
            final(self)@ == old(self)@ + constants_bytes(constants@.map_values(|c: Constant| c@)),
    {
        let ghost start = self@;
        let ghost cv = constants@.map_values(|c: Constant| c@);
        let mut i: usize = 0;
        while i < constants.len()
            invariant
                i <= constants@.len(),
                cv == constants@.map_values(|c: Constant| c@),
                pool_size(cv) <= u32::MAX,
                self@ == start + constants_bytes(cv.subrange(0, i as int)),
            decreases constants@.len() - i,
        {
            proof {
                lemma_pool_size_prefix(cv, i as int + 1);
                assert(cv.subrange(0, i + 1).drop_last() =~= cv.subrange(0, i as int));
                assert(cv.subrange(0, i + 1).last() == cv[i as int]);
                lemma_constants_len(cv.subrange(0, i as int));
            }
            self.write_constant(&constants[i]);
            assert(cv.subrange(0, i + 1).drop_last() =~= cv.subrange(0, i as int));
            i = i + 1;
            assert(self@ =~= start + constants_bytes(cv.subrange(0, i as int)));
        }
        assert(cv.subrange(0, i as int) =~= cv);
    }

    fn write_function(&mut self, function: &FunctionInfo)
        ensures
            final(self)@ == old(self)@ + function_bytes(*function),
    {
        self.write_u16(function.parameter_count);
        self.write_u16(function.local_count);
        self.write_u16(function.stack_size);
        self.write_u32(function.code_offset);
        self.write_u32(function.code_size);
        assert(self@ =~= old(self)@ + function_bytes(*function));
    }

    fn write_functions(&mut self, functions: &[FunctionInfo])
        ensures
            final(self)@ == old(self)@ + functions_bytes(functions@),
    {
        let ghost start = self@;
        let mut i: usize = 0;
        while i < functions.len()
            invariant
                i <= functions@.len(),
                self@ == start + functions_bytes(functions@.subrange(0, i as int)),
            decreases functions@.len() - i,
        {
            self.write_function(&functions[i]);
            assert(functions@.subrange(0, i + 1).drop_last() =~= functions@.subrange(0, i as int));
            i = i + 1;
            assert(self@ =~= start + functions_bytes(functions@.subrange(0, i as int)));
        }
        assert(functions@.subrange(0, i as int) =~= functions@);
    }

    /// Appends the encoding of `program` (header, constant pool, function
    /// table, code) and gives back all the bytes written.
    pub fn generate(self, program: &BinaryProgram) -> (bytes: Vec<u8>)
        requires
            encodable(program@),
        ensures
            bytes@ == self@ + encode_program(program@),
    {
        let mut writer = self;
        writer.write_header(program);
        writer.write_constants(program.constants.as_slice());
        writer.write_functions(program.functions.as_slice());
        writer.write_bytecode(program.code.as_slice());
        assert(writer@ =~= self@ + encode_program(program@));
        writer.buffer
    }

    fn write_header(&mut self, program: &BinaryProgram)
        requires
            encodable(program@),
        ensures
            final(self)@ == old(self)@ + header_bytes(program@),
    {
        proof {
            lemma_constants_len(program@.constants);
        }
        let constant_offset: u32 = HEADER_SIZE;
        let constant_size = self.compute_constant_pool_size(program.constants.as_slice());
        let function_offset = constant_offset + constant_size;
        let function_size = self.compute_function_table_size(program.functions.as_slice());
        let code_offset = function_offset + function_size;
        self.write_bytes(&MAGIC);
        assert(MAGIC@ =~= magic_bytes());
        self.write_u16(VERSION);
        self.write_u32(constant_offset);
        self.write_u32(function_offset);
        self.write_u32(code_offset);
        self.write_u32(program.code.len() as u32);
        self.write_u32(program.constants.len() as u32);
        self.write_u32(program.functions.len() as u32);
        self.write_u32(program.entry_function);
        assert(self@ =~= old(self)@ + header_bytes(program@));
    }

    fn write_bytecode(&mut self, code: &[u8])
        ensures
            final(self)@ == old(self)@ + code@,
    {
        self.write_bytes(code);
    }

    fn compute_constant_pool_size(&self, constants: &[Constant]) -> (size: u32)
        requires
            pool_size(constants@.map_values(|c: Constant| c@)) <= u32::MAX,
        ensures
            size == pool_size(constants@.map_values(|c: Constant| c@)),
    {
        let ghost cv = constants@.map_values(|c: Constant| c@);
        let mut size: u32 = 0;
        let mut i: usize = 0;
        while i < constants.len()
            invariant
                i <= constants@.len(),
                cv == constants@.map_values(|c: Constant| c@),
                pool_size(cv) <= u32::MAX,
                size == pool_size(cv.subrange(0, i as int)),
            decreases constants@.len() - i,
        {
            proof {
                lemma_pool_size_prefix(cv, i as int + 1);
                assert(cv.subrange(0, i + 1).drop_last() =~= cv.subrange(0, i as int));
            }
            let item: u32 = match &constants[i] {
                Constant::Int(_) => 1 + 8,
                Constant::Float(_) => 1 + 8,
                Constant::String(value) => {
                    proof {
                        lemma_constant_len(cv[i as int]);
                    }
                    1 + 4 + value.as_str().as_bytes().len() as u32
                },
            };
            size = size + item;
            i = i + 1;
        }
        assert(cv.subrange(0, i as int) =~= cv);
        size
    }

    fn compute_function_table_size(&self, functions: &[FunctionInfo]) -> (size: u32)
        requires
            FUNCTION_SIZE * functions@.len() <= u32::MAX,
        ensures
            size == FUNCTION_SIZE * functions@.len(),
    {
        functions.len() as u32 * FUNCTION_SIZE
    }
}

} // verus!
