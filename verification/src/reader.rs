//! Decoding the bytes of a binary container back into a program.
use vstd::prelude::*;
use vstd::bytes::*;
use vstd::slice::{slice_subrange, slice_to_vec};
use vstd::utf8::{valid_utf8, decode_utf8};
use crate::format::{Constant, FunctionInfo, BinaryHeader, BinaryProgram};
use crate::encoding::{take_u8, take_u16, take_u32, take_u64, take_string, take_constant, take_constants, take_function, take_functions, take_header, decode_program_at};

verus! {

/// `String::from_utf8`: the text that the bytes encode in UTF-8, or `None`
/// where they are not valid UTF-8.
#[verifier::external_body]
fn string_from_utf8(bytes: Vec<u8>) -> (r: Option<String>)
    ensures
        r is Some <==> valid_utf8(bytes@),
        r matches Some(s) ==> s@ == decode_utf8(bytes@),
{
    String::from_utf8(bytes).ok()
}

/// Reads a binary file held in memory, from a cursor that moves forward.
pub struct BinaryReader {
    pub buffer: Vec<u8>,
    pub cursor: usize,
}

impl BinaryReader {
    fn read_u8(&mut self) -> (r: Option<u8>)
        ensures
            final(self).buffer == old(self).buffer,
            match take_u8(old(self).buffer@, old(self).cursor as int) {
                Some((v, p)) => r == Some(v) && final(self).cursor == p,
                None => r is None,
            },
    {
        if self.cursor < self.buffer.len() {
            let v = self.buffer[self.cursor];
            self.cursor = self.cursor + 1;
            Some(v)
        } else {
            None
        }
    }

    fn read_u16(&mut self) -> (r: Option<u16>)
        ensures
            final(self).buffer == old(self).buffer,
            match take_u16(old(self).buffer@, old(self).cursor as int) {
                Some((v, p)) => r == Some(v) && final(self).cursor == p,
                None => r is None,
            },
    {
        if self.cursor <= self.buffer.len() && self.buffer.len() - self.cursor >= 2 {
            let bytes = slice_subrange(self.buffer.as_slice(), self.cursor, self.cursor + 2);
            let v = u16_from_le_bytes(bytes);
            self.cursor = self.cursor + 2;
            Some(v)
        } else {
            None
        }
    }

    fn read_u32(&mut self) -> (r: Option<u32>)
        ensures
            final(self).buffer == old(self).buffer,
            match take_u32(old(self).buffer@, old(self).cursor as int) {
                Some((v, p)) => r == Some(v) && final(self).cursor == p,
                None => r is None,
            },
    {
        if self.cursor <= self.buffer.len() && self.buffer.len() - self.cursor >= 4 {
            let bytes = slice_subrange(self.buffer.as_slice(), self.cursor, self.cursor + 4);
            let v = u32_from_le_bytes(bytes);
            self.cursor = self.cursor + 4;
            Some(v)
        } else {
            None
        }
    }

    fn read_u64(&mut self) -> (r: Option<u64>)
        ensures
            final(self).buffer == old(self).buffer,
            match take_u64(old(self).buffer@, old(self).cursor as int) {
                Some((v, p)) => r == Some(v) && final(self).cursor == p,
                None => r is None,
            },
    {
        if self.cursor <= self.buffer.len() && self.buffer.len() - self.cursor >= 8 {
            let bytes = slice_subrange(self.buffer.as_slice(), self.cursor, self.cursor + 8);
            let v = u64_from_le_bytes(bytes);
            self.cursor = self.cursor + 8;
            Some(v)
        } else {
            None
        }
    }

    fn read_i64(&mut self) -> (r: Option<i64>)
        ensures
            final(self).buffer == old(self).buffer,
            match take_u64(old(self).buffer@, old(self).cursor as int) {
                Some((v, p)) => r == Some(v as i64) && final(self).cursor == p,
                None => r is None,
            },
    {
        match self.read_u64() {
            Some(v) => Some(v as i64),
            None => None,
        }
    }

    fn read_string(&mut self) -> (r: Option<String>)
        ensures
            final(self).buffer == old(self).buffer,
            match take_string(old(self).buffer@, old(self).cursor as int) {
                Some((t, p)) => r is Some && r->0@ == t && final(self).cursor == p,
                None => r is None,
            },
    {
        let len = match self.read_u32() {
            Some(n) => n as usize,
            None => return None,
        };
        if self.buffer.len() - self.cursor < len {
            return None;
        }
        let bytes = slice_to_vec(slice_subrange(self.buffer.as_slice(), self.cursor, self.cursor + len));
        match string_from_utf8(bytes) {
            Some(s) => {
                self.cursor = self.cursor + len;
                Some(s)
            },
            None => None,
        }
    }

    fn read_header(&mut self) -> (r: Option<BinaryHeader>)
        ensures
            final(self).buffer == old(self).buffer,
            match take_header(old(self).buffer@, old(self).cursor as int) {
                Some((h, p)) => r == Some(h) && final(self).cursor == p,
                None => r is None,
            },
    {
        if !(self.cursor <= self.buffer.len() && self.buffer.len() - self.cursor >= 34) {
            return None;
        }
        let c = self.cursor;
        let magic = [self.buffer[c], self.buffer[c + 1], self.buffer[c + 2], self.buffer[c + 3]];
        self.cursor = c + 4;
        let version = self.read_u16().unwrap();
        let constant_offset = self.read_u32().unwrap();
        let function_offset = self.read_u32().unwrap();
        let code_offset = self.read_u32().unwrap();
        let code_size = self.read_u32().unwrap();
        let constant_count = self.read_u32().unwrap();
        let function_count = self.read_u32().unwrap();
        let entry_function = self.read_u32().unwrap();
        Some(
            BinaryHeader {
                magic,
                version,
                constant_count,
                function_count,
                constant_offset,
                function_offset,
                code_offset,
                code_size,
                entry_function,
            },
        )
    }

    /// One constant, by its tag: 0 an integer, 1 a decimal (whose eight
    /// bytes are read without moving past them), 2 a text.
    fn read_constant(&mut self) -> (r: Option<Constant>)
        ensures
            final(self).buffer == old(self).buffer,
            match take_constant(old(self).buffer@, old(self).cursor as int) {
                Some((c, p)) => r is Some && r->0@ == c && final(self).cursor == p,
                None => r is None,
            },
    {
        let tag = match self.read_u8() {
            Some(t) => t,
            None => return None,
        };
        if tag == 0 {
            match self.read_i64() {
                Some(v) => Some(Constant::Int(v)),
                None => None,
            }
        } else if tag == 1 {
            // The eight bytes are read in place: the cursor stays after the tag.
            if self.cursor <= self.buffer.len() && self.buffer.len() - self.cursor >= 8 {
                let bytes = slice_subrange(self.buffer.as_slice(), self.cursor, self.cursor + 8);
                Some(Constant::Float(u64_from_le_bytes(bytes)))
            } else {
                None
            }
        } else if tag == 2 {
            match self.read_string() {
                Some(s) => Some(Constant::String(s)),
                None => None,
            }
        } else {
            None
        }
    }

    fn read_constants(&mut self, count: u32) -> (r: Option<Vec<Constant>>)
        ensures
            final(self).buffer == old(self).buffer,
            match take_constants(old(self).buffer@, old(self).cursor as int, count as nat) {
                Some((cs, p)) => r is Some && r->0@.map_values(|c: Constant| c@) == cs
                    && final(self).cursor == p,
                None => r is None,
            },
    {
        let mut constants: Vec<Constant> = Vec::new();
        let mut i: u32 = 0;
        while i < count
            invariant
                i <= count,
                self.buffer == old(self).buffer,
                take_constants(self.buffer@, old(self).cursor as int, i as nat) == Some(
                    (constants@.map_values(|c: Constant| c@), self.cursor as int),
                ),
            decreases count - i,
        {
            match self.read_constant() {
                Some(c) => {
                    let ghost before = constants@;
                    constants.push(c);
                    assert(constants@.map_values(|c: Constant| c@) =~= before.map_values(
                        |c: Constant| c@,
                    ).push(c@));
                },
                None => {
                    proof {
                        lemma_constants_fail(self.buffer@, old(self).cursor as int, i as nat + 1, count as nat);
                    }
                    return None;
                },
            }
            i = i + 1;
        }
        Some(constants)
    }

    fn read_function(&mut self) -> (r: Option<FunctionInfo>)
        ensures
            final(self).buffer == old(self).buffer,
            match take_function(old(self).buffer@, old(self).cursor as int) {
                Some((f, p)) => r == Some(f) && final(self).cursor == p,
                None => r is None,
            },
    {
        if !(self.cursor <= self.buffer.len() && self.buffer.len() - self.cursor >= 14) {
            return None;
        }
        let parameter_count = self.read_u16().unwrap();
        let local_count = self.read_u16().unwrap();
        let stack_size = self.read_u16().unwrap();
        let code_offset = self.read_u32().unwrap();
        let code_size = self.read_u32().unwrap();
        Some(FunctionInfo { parameter_count, local_count, stack_size, code_offset, code_size })
    }

    fn read_functions(&mut self, count: u32) -> (r: Option<Vec<FunctionInfo>>)
        ensures
            final(self).buffer == old(self).buffer,
            match take_functions(old(self).buffer@, old(self).cursor as int, count as nat) {
                Some((fs, p)) => r is Some && r->0@ == fs && final(self).cursor == p,
                None => r is None,
            },
    {
        let mut functions: Vec<FunctionInfo> = Vec::new();
        let mut i: u32 = 0;
        while i < count
            invariant
                i <= count,
                self.buffer == old(self).buffer,
                take_functions(self.buffer@, old(self).cursor as int, i as nat) == Some(
                    (functions@, self.cursor as int),
                ),
            decreases count - i,
        {
            match self.read_function() {
                Some(f) => {
                    functions.push(f);
                },
                None => {
                    proof {
                        lemma_functions_fail(self.buffer@, old(self).cursor as int, i as nat + 1, count as nat);
                    }
                    return None;
                },
            }
            i = i + 1;
        }
        Some(functions)
    }

    fn read_bytecode(&mut self, size: usize) -> (r: Vec<u8>)
        requires
            old(self).cursor + size <= old(self).buffer.len(),
        ensures
            final(self).buffer == old(self).buffer,
            r@ == old(self).buffer@.subrange(old(self).cursor as int, old(self).cursor + size),
            final(self).cursor == old(self).cursor + size,
    {
        let data = slice_to_vec(slice_subrange(self.buffer.as_slice(), self.cursor, self.cursor + size));
        self.cursor = self.cursor + size;
        data
    }

    /// Reads a program from the cursor on: the header, as many constants and
    /// function table entries as the header counts, and every remaining byte
    /// as the code. A decimal constant is read in place, so what follows it
    /// is read from its payload on. `None` where the bytes run out first, a constant has an
    /// unknown tag, or a text is not valid UTF-8.
    pub fn try_load_program(self) -> (r: Option<BinaryProgram>)
        ensures
            match decode_program_at(self.buffer@, self.cursor as int) {
                Some(p) => r is Some && r->0@ == p,
                None => r is None,
            },
    {
        let mut reader = self;
        let header = match reader.read_header() {
            Some(h) => h,
            None => return None,
        };
        let constants = match reader.read_constants(header.constant_count) {
            Some(cs) => cs,
            None => return None,
        };
        let functions = match reader.read_functions(header.function_count) {
            Some(fs) => fs,
            None => return None,
        };
        let size = reader.buffer.len() - reader.cursor;
        let code = reader.read_bytecode(size);
        Some(BinaryProgram { constants, functions, code, entry_function: header.entry_function })
    }

    /// Reads a program from the cursor on, where the bytes hold one: the
    /// header, the constants and function table entries it counts, and
    /// every remaining byte as the code.
    pub fn load_program(self) -> (p: BinaryProgram)
        requires
            decode_program_at(self.buffer@, self.cursor as int) is Some,
        ensures
            decode_program_at(self.buffer@, self.cursor as int) == Some(p@),
    {
        self.try_load_program().unwrap()
    }
}

/// Where `k` constants cannot be read, no more than `k` can be.
proof fn lemma_constants_fail(s: Seq<u8>, pos: int, k: nat, n: nat)
    requires
        k <= n,
        take_constants(s, pos, k) is None,
    ensures
        take_constants(s, pos, n) is None,
    decreases n - k,
{
    if k < n {
        lemma_constants_fail(s, pos, k, (n - 1) as nat);
    }
}

/// Where `k` function entries cannot be read, no more than `k` can be.
proof fn lemma_functions_fail(s: Seq<u8>, pos: int, k: nat, n: nat)
    requires
        k <= n,
        take_functions(s, pos, k) is None,
    ensures
        take_functions(s, pos, n) is None,
    decreases n - k,
{
    if k < n {
        lemma_functions_fail(s, pos, k, (n - 1) as nat);
    }
}

} // verus!
