//! The byte layout of the binary container: how a program is encoded, how
//! bytes are decoded, and the law that decoding undoes encoding.
//!
//! Layout, all integers little-endian:
//! header (34 bytes): magic `FSBC`, version (u16), constant offset (u32),
//! function offset (u32), code offset (u32), code size (u32),
//! constant count (u32), function count (u32), entry function (u32);
//! then the constant pool, the function table (14 bytes per entry) and the code.
//!
//! The offsets the header declares count from a header size of 38, so each
//! lies four bytes past the section it names. A decimal constant is read
//! without moving past its eight payload bytes: what follows it is read from
//! those bytes on.
use vstd::prelude::*;
use vstd::bytes::*;
use vstd::utf8::*;
use crate::format::{ConstantView, FunctionInfo, BinaryHeader, BinaryProgramView, VERSION};

verus! {

/// The header size the offsets are counted from: the constant pool's
/// declared offset.
pub const HEADER_SIZE: u32 = 38;

/// The number of bytes the header takes.
pub const HEADER_LENGTH: u32 = 34;

/// Size in bytes of one entry of the function table.
pub const FUNCTION_SIZE: u32 = 14;

/// The magic bytes `FSBC`.
pub open spec fn magic_bytes() -> Seq<u8> {
    seq![0x46u8, 0x53u8, 0x42u8, 0x43u8]
}

/// The bytes of one constant: a tag (0 integer, 1 decimal, 2 text), then the
/// payload; text is its UTF-8 byte length (u32) followed by the bytes.
pub open spec fn constant_bytes(c: ConstantView) -> Seq<u8> {
    match c {
        ConstantView::Int(v) => seq![0u8] + spec_u64_to_le_bytes(v as u64),
        ConstantView::Float(b) => seq![1u8] + spec_u64_to_le_bytes(b),
        ConstantView::String(s) => seq![2u8] + spec_u32_to_le_bytes(encode_utf8(s).len() as u32)
            + encode_utf8(s),
    }
}

/// The number of bytes one constant takes.
pub open spec fn constant_size(c: ConstantView) -> int {
    match c {
        ConstantView::Int(_) => 9,
        ConstantView::Float(_) => 9,
        ConstantView::String(s) => 5 + encode_utf8(s).len() as int,
    }
}

/// The constant pool: the constants' bytes one after the other.
pub open spec fn constants_bytes(cs: Seq<ConstantView>) -> Seq<u8>
    decreases cs.len(),
{
    if cs.len() == 0 {
        seq![]
    } else {
        constants_bytes(cs.drop_last()) + constant_bytes(cs.last())
    }
}

/// The size of the constant pool.
pub open spec fn pool_size(cs: Seq<ConstantView>) -> int
    decreases cs.len(),
{
    if cs.len() == 0 {
        0
    } else {
        pool_size(cs.drop_last()) + constant_size(cs.last())
    }
}

/// A prefix of the constants takes no more room than all of them.
pub proof fn lemma_pool_size_prefix(cs: Seq<ConstantView>, k: int)
    requires
        0 <= k <= cs.len(),
    ensures
        pool_size(cs.subrange(0, k)) <= pool_size(cs),
    decreases cs.len(),
{
    if k < cs.len() {
        lemma_constant_len(cs.last());
        assert(cs.drop_last().subrange(0, k) =~= cs.subrange(0, k));
        lemma_pool_size_prefix(cs.drop_last(), k);
    } else {
        assert(cs.subrange(0, k) =~= cs);
    }
}

/// The bytes of one function table entry.
pub open spec fn function_bytes(f: FunctionInfo) -> Seq<u8> {
    spec_u16_to_le_bytes(f.parameter_count) + spec_u16_to_le_bytes(f.local_count)
        + spec_u16_to_le_bytes(f.stack_size) + spec_u32_to_le_bytes(f.code_offset)
        + spec_u32_to_le_bytes(f.code_size)
}

/// The function table: the entries' bytes one after the other.
pub open spec fn functions_bytes(fs: Seq<FunctionInfo>) -> Seq<u8>
    decreases fs.len(),
{
    if fs.len() == 0 {
        seq![]
    } else {
        functions_bytes(fs.drop_last()) + function_bytes(fs.last())
    }
}

/// The constant pool's offset as the header declares it.
pub open spec fn constant_offset(p: BinaryProgramView) -> int {
    HEADER_SIZE as int
}

/// The function table's offset as the header declares it.
pub open spec fn function_offset(p: BinaryProgramView) -> int {
    constant_offset(p) + pool_size(p.constants)
}

/// The code's offset as the header declares it.
pub open spec fn code_offset(p: BinaryProgramView) -> int {
    function_offset(p) + FUNCTION_SIZE * p.functions.len()
}

/// Where the constant pool starts: right after the header.
pub open spec fn constant_start(p: BinaryProgramView) -> int {
    HEADER_LENGTH as int
}

/// Where the function table starts.
pub open spec fn function_start(p: BinaryProgramView) -> int {
    constant_start(p) + pool_size(p.constants)
}

/// Where the code starts.
pub open spec fn code_start(p: BinaryProgramView) -> int {
    function_start(p) + FUNCTION_SIZE * p.functions.len()
}

/// No constant of the pool is a decimal.
pub open spec fn decimal_free(cs: Seq<ConstantView>) -> bool {
    forall|i: int| 0 <= i < cs.len() ==> !(#[trigger] cs[i] is Float)
}

/// How far reading a constant moves: past all its bytes, but only past the
/// tag of a decimal.
pub open spec fn constant_read_size(c: ConstantView) -> int {
    match c {
        ConstantView::Float(_) => 1,
        _ => constant_size(c),
    }
}

/// The program's offsets fit in the u32 fields of the header.
pub open spec fn encodable(p: BinaryProgramView) -> bool {
    code_offset(p) <= u32::MAX
}

/// The header bytes of a program.
pub open spec fn header_bytes(p: BinaryProgramView) -> Seq<u8> {
    magic_bytes() + spec_u16_to_le_bytes(VERSION) + spec_u32_to_le_bytes(
        constant_offset(p) as u32,
    ) + spec_u32_to_le_bytes(function_offset(p) as u32) + spec_u32_to_le_bytes(
        code_offset(p) as u32,
    ) + spec_u32_to_le_bytes(p.code.len() as u32) + spec_u32_to_le_bytes(
        p.constants.len() as u32,
    ) + spec_u32_to_le_bytes(p.functions.len() as u32) + spec_u32_to_le_bytes(p.entry_function)
}

/// The whole encoding of a program: header, constant pool, function table, code.
pub open spec fn encode_program(p: BinaryProgramView) -> Seq<u8> {
    header_bytes(p) + constants_bytes(p.constants) + functions_bytes(p.functions) + p.code
}

// ---------------------------------------------------------------------------
// Decoding: each reader takes the bytes and a position, and gives the value
// read and the position after it, or `None` where the bytes run out or do
// not hold such a value.
/// One byte.
pub open spec fn take_u8(s: Seq<u8>, pos: int) -> Option<(u8, int)> {
    if 0 <= pos && pos + 1 <= s.len() {
        Some((s[pos], pos + 1))
    } else {
        None
    }
}

/// A little-endian u16.
pub open spec fn take_u16(s: Seq<u8>, pos: int) -> Option<(u16, int)> {
    if 0 <= pos && pos + 2 <= s.len() {
        Some((spec_u16_from_le_bytes(s.subrange(pos, pos + 2)), pos + 2))
    } else {
        None
    }
}

/// A little-endian u32.
pub open spec fn take_u32(s: Seq<u8>, pos: int) -> Option<(u32, int)> {
    if 0 <= pos && pos + 4 <= s.len() {
        Some((spec_u32_from_le_bytes(s.subrange(pos, pos + 4)), pos + 4))
    } else {
        None
    }
}

/// A little-endian u64.
pub open spec fn take_u64(s: Seq<u8>, pos: int) -> Option<(u64, int)> {
    if 0 <= pos && pos + 8 <= s.len() {
        Some((spec_u64_from_le_bytes(s.subrange(pos, pos + 8)), pos + 8))
    } else {
        None
    }
}

/// A text: its byte length (u32), then that many bytes of UTF-8.
pub open spec fn take_string(s: Seq<u8>, pos: int) -> Option<(Seq<char>, int)> {
    match take_u32(s, pos) {
        Some((n, p)) => if p + n <= s.len() && valid_utf8(s.subrange(p, p + n)) {
            Some((decode_utf8(s.subrange(p, p + n)), p + n))
        } else {
            None
        },
        None => None,
    }
}

/// One constant, by its tag. A decimal's eight bytes are read, but the
/// position stays right after its tag.
pub open spec fn take_constant(s: Seq<u8>, pos: int) -> Option<(ConstantView, int)> {
    match take_u8(s, pos) {
        Some((tag, p)) => if tag == 0 {
            match take_u64(s, p) {
                Some((v, q)) => Some((ConstantView::Int(v as i64), q)),
                None => None,
            }
        } else if tag == 1 {
            match take_u64(s, p) {
                Some((v, _)) => Some((ConstantView::Float(v), p)),
                None => None,
            }
        } else if tag == 2 {
            match take_string(s, p) {
                Some((t, q)) => Some((ConstantView::String(t), q)),
                None => None,
            }
        } else {
            None
        },
        None => None,
    }
}

/// `n` constants one after the other.
pub open spec fn take_constants(s: Seq<u8>, pos: int, n: nat) -> Option<(Seq<ConstantView>, int)>
    decreases n,
{
    if n == 0 {
        Some((seq![], pos))
    } else {
        match take_constants(s, pos, (n - 1) as nat) {
            Some((cs, p)) => match take_constant(s, p) {
                Some((c, q)) => Some((cs.push(c), q)),
                None => None,
            },
            None => None,
        }
    }
}

/// One function table entry.
pub open spec fn take_function(s: Seq<u8>, pos: int) -> Option<(FunctionInfo, int)> {
    if 0 <= pos && pos + 14 <= s.len() {
        Some(
            (
                FunctionInfo {
                    parameter_count: spec_u16_from_le_bytes(s.subrange(pos, pos + 2)),
                    local_count: spec_u16_from_le_bytes(s.subrange(pos + 2, pos + 4)),
                    stack_size: spec_u16_from_le_bytes(s.subrange(pos + 4, pos + 6)),
                    code_offset: spec_u32_from_le_bytes(s.subrange(pos + 6, pos + 10)),
                    code_size: spec_u32_from_le_bytes(s.subrange(pos + 10, pos + 14)),
                },
                pos + 14,
            ),
        )
    } else {
        None
    }
}

/// `n` function table entries one after the other.
pub open spec fn take_functions(s: Seq<u8>, pos: int, n: nat) -> Option<(Seq<FunctionInfo>, int)>
    decreases n,
{
    if n == 0 {
        Some((seq![], pos))
    } else {
        match take_functions(s, pos, (n - 1) as nat) {
            Some((fs, p)) => match take_function(s, p) {
                Some((f, q)) => Some((fs.push(f), q)),
                None => None,
            },
            None => None,
        }
    }
}

/// The header.
pub open spec fn take_header(s: Seq<u8>, pos: int) -> Option<(BinaryHeader, int)> {
    if 0 <= pos && pos + 34 <= s.len() {
        Some(
            (
                BinaryHeader {
                    magic: [s[pos], s[pos + 1], s[pos + 2], s[pos + 3]],
                    version: spec_u16_from_le_bytes(s.subrange(pos + 4, pos + 6)),
                    constant_offset: spec_u32_from_le_bytes(s.subrange(pos + 6, pos + 10)),
                    function_offset: spec_u32_from_le_bytes(s.subrange(pos + 10, pos + 14)),
                    code_offset: spec_u32_from_le_bytes(s.subrange(pos + 14, pos + 18)),
                    code_size: spec_u32_from_le_bytes(s.subrange(pos + 18, pos + 22)),
                    constant_count: spec_u32_from_le_bytes(s.subrange(pos + 22, pos + 26)),
                    function_count: spec_u32_from_le_bytes(s.subrange(pos + 26, pos + 30)),
                    entry_function: spec_u32_from_le_bytes(s.subrange(pos + 30, pos + 34)),
                },
                pos + 34,
            ),
        )
    } else {
        None
    }
}

/// A program read from position `pos`: the header, as many constants and
/// functions as it counts, and all the bytes that follow as the code. The
/// header's offsets, code size and magic are not checked.
pub open spec fn decode_program_at(s: Seq<u8>, pos: int) -> Option<BinaryProgramView> {
    match take_header(s, pos) {
        Some((h, p1)) => match take_constants(s, p1, h.constant_count as nat) {
            Some((cs, p2)) => match take_functions(s, p2, h.function_count as nat) {
                Some((fs, p3)) => Some(
                    BinaryProgramView {
                        constants: cs,
                        functions: fs,
                        code: s.subrange(p3, s.len() as int),
                        entry_function: h.entry_function,
                    },
                ),
                None => None,
            },
            None => None,
        },
        None => None,
    }
}

/// A program read from the start of the bytes.
pub open spec fn decode_program(s: Seq<u8>) -> Option<BinaryProgramView> {
    decode_program_at(s, 0)
}

// ---------------------------------------------------------------------------
// Sizes of the encodings.
/// A constant's bytes are as long as its size.
pub proof fn lemma_constant_len(c: ConstantView)
    ensures
        constant_bytes(c).len() == constant_size(c),
        constant_size(c) >= 5,
{
    lemma_auto_spec_u64_to_from_le_bytes();
    lemma_auto_spec_u32_to_from_le_bytes();
}

/// The constant pool is as long as its size, and every constant counts at
/// least five bytes.
pub proof fn lemma_constants_len(cs: Seq<ConstantView>)
    ensures
        constants_bytes(cs).len() == pool_size(cs),
        pool_size(cs) >= 5 * cs.len(),
    decreases cs.len(),
{
    if cs.len() > 0 {
        lemma_constants_len(cs.drop_last());
        lemma_constant_len(cs.last());
    }
}

/// A function table entry takes fourteen bytes.
pub proof fn lemma_function_len(f: FunctionInfo)
    ensures
        function_bytes(f).len() == 14,
{
    lemma_auto_spec_u16_to_from_le_bytes();
    lemma_auto_spec_u32_to_from_le_bytes();
}

/// The function table takes fourteen bytes per entry.
pub proof fn lemma_functions_len(fs: Seq<FunctionInfo>)
    ensures
        functions_bytes(fs).len() == 14 * fs.len(),
    decreases fs.len(),
{
    if fs.len() > 0 {
        lemma_functions_len(fs.drop_last());
        lemma_function_len(fs.last());
    }
}

/// The header takes thirty-four bytes.
pub proof fn lemma_header_len(p: BinaryProgramView)
    ensures
        header_bytes(p).len() == 34,
{
    lemma_auto_spec_u16_to_from_le_bytes();
    lemma_auto_spec_u32_to_from_le_bytes();
}

// ---------------------------------------------------------------------------
// Reading back what was written.
/// Where a stretch of bytes equals `a + b`, its two parts equal `a` and `b`.
pub proof fn lemma_split(s: Seq<u8>, pos: int, a: Seq<u8>, b: Seq<u8>)
    requires
        0 <= pos,
        pos + a.len() + b.len() <= s.len(),
        s.subrange(pos, pos + a.len() + b.len()) == a + b,
    ensures
        s.subrange(pos, pos + a.len()) == a,
        s.subrange(pos + a.len(), pos + a.len() + b.len()) == b,
{
    assert(s.subrange(pos, pos + a.len()) =~= s.subrange(pos, pos + a.len() + b.len()).subrange(0, a.len() as int));
    assert(s.subrange(pos + a.len(), pos + a.len() + b.len()) =~= s.subrange(pos, pos + a.len() + b.len()).subrange(a.len() as int, (a.len() + b.len()) as int));
    assert((a + b).subrange(0, a.len() as int) =~= a);
    assert((a + b).subrange(a.len() as int, (a.len() + b.len()) as int) =~= b);
}
/// A text written as its UTF-8 byte length (u32) and its bytes reads back as
/// the text, past all those bytes: the length counts bytes, not characters.
pub proof fn lemma_take_string(s: Seq<u8>, pos: int, t: Seq<char>)
    requires
        0 <= pos,
        encode_utf8(t).len() <= u32::MAX,
        pos + 4 + encode_utf8(t).len() <= s.len(),
        s.subrange(pos, pos + 4 + encode_utf8(t).len()) == spec_u32_to_le_bytes(encode_utf8(t).len() as u32)
            + encode_utf8(t),
    ensures
        take_string(s, pos) == Some((t, pos + 4 + encode_utf8(t).len())),
{
    lemma_auto_spec_u32_to_from_le_bytes();
    let tb = encode_utf8(t);
    let lb = spec_u32_to_le_bytes(tb.len() as u32);
    lemma_split(s, pos, lb, tb);
    encode_utf8_valid_utf8(t);
    encode_utf8_decode_utf8(t);
}

/// A constant's bytes read back as the constant; the position moves past
/// them, or, for a decimal, past its tag only.
pub proof fn lemma_take_constant(s: Seq<u8>, pos: int, c: ConstantView)
    requires
        0 <= pos,
        pos + constant_size(c) <= s.len(),
        constant_size(c) <= u32::MAX,
        s.subrange(pos, pos + constant_size(c)) == constant_bytes(c),
    ensures
        take_constant(s, pos) == Some((c, pos + constant_read_size(c))),
{
    lemma_auto_spec_u64_to_from_le_bytes();
    lemma_auto_spec_u32_to_from_le_bytes();
    lemma_constant_len(c);
    let b = constant_bytes(c);
    assert(s[pos] == s.subrange(pos, pos + constant_size(c))[0]);
    assert(s[pos] == b[0]);
    match c {
        ConstantView::Int(v) => {
            lemma_split(s, pos, seq![0u8], spec_u64_to_le_bytes(v as u64));
            assert((v as u64) as i64 == v) by (bit_vector);
        },
        ConstantView::Float(v) => {
            lemma_split(s, pos, seq![1u8], spec_u64_to_le_bytes(v));
        },
        ConstantView::String(t) => {
            let tb = encode_utf8(t);
            let lb = spec_u32_to_le_bytes(tb.len() as u32);
            lemma_split(s, pos, seq![2u8] + lb, tb);
            lemma_split(s, pos, seq![2u8], lb);
            encode_utf8_valid_utf8(t);
            encode_utf8_decode_utf8(t);
        },
    }
}

/// A constant pool without decimals reads back as its constants.
pub proof fn lemma_take_constants(s: Seq<u8>, pos: int, cs: Seq<ConstantView>)
    requires
        decimal_free(cs),
        0 <= pos,
        pos + pool_size(cs) <= s.len(),
        pool_size(cs) <= u32::MAX,
        s.subrange(pos, pos + pool_size(cs)) == constants_bytes(cs),
    ensures
        take_constants(s, pos, cs.len()) == Some((cs, pos + pool_size(cs))),
    decreases cs.len(),
{
    lemma_constants_len(cs);
    if cs.len() > 0 {
        let init = cs.drop_last();
        let c = cs.last();
        lemma_constants_len(init);
        lemma_constant_len(c);
        let li = pool_size(init);
        assert(s.subrange(pos, pos + li) =~= constants_bytes(init)) by {
            assert(s.subrange(pos, pos + li) =~= s.subrange(pos, pos + pool_size(cs)).subrange(0, li));
        }
        assert(decimal_free(init)) by {
            assert forall|i: int| 0 <= i < init.len() implies !(#[trigger] init[i] is Float) by {
                assert(init[i] == cs[i]);
            }
        }
        assert(!(cs[cs.len() - 1] is Float));
        lemma_take_constants(s, pos, init);
        assert(s.subrange(pos + li, pos + li + constant_size(c)) =~= constant_bytes(c)) by {
            assert(s.subrange(pos + li, pos + li + constant_size(c)) =~= s.subrange(pos, pos + pool_size(cs)).subrange(li, pool_size(cs)));
        }
        lemma_take_constant(s, pos + li, c);
        assert(init.push(c) =~= cs);
    }
}

/// A function table entry reads back as the entry.
pub proof fn lemma_take_function(s: Seq<u8>, pos: int, f: FunctionInfo)
    requires
        0 <= pos,
        pos + 14 <= s.len(),
        s.subrange(pos, pos + 14) == function_bytes(f),
    ensures
        take_function(s, pos) == Some((f, pos + 14)),
{
    lemma_auto_spec_u16_to_from_le_bytes();
    lemma_auto_spec_u32_to_from_le_bytes();
    let b0 = spec_u16_to_le_bytes(f.parameter_count);
    let b1 = spec_u16_to_le_bytes(f.local_count);
    let b2 = spec_u16_to_le_bytes(f.stack_size);
    let b3 = spec_u32_to_le_bytes(f.code_offset);
    let b4 = spec_u32_to_le_bytes(f.code_size);
    lemma_split(s, pos, b0 + b1 + b2 + b3, b4);
    lemma_split(s, pos, b0 + b1 + b2, b3);
    lemma_split(s, pos, b0 + b1, b2);
    lemma_split(s, pos, b0, b1);
}

/// A function table reads back as its entries.
pub proof fn lemma_take_functions(s: Seq<u8>, pos: int, fs: Seq<FunctionInfo>)
    requires
        0 <= pos,
        pos + 14 * fs.len() <= s.len(),
        s.subrange(pos, pos + 14 * fs.len()) == functions_bytes(fs),
    ensures
        take_functions(s, pos, fs.len()) == Some((fs, pos + 14 * fs.len())),
    decreases fs.len(),
{
    lemma_functions_len(fs);
    if fs.len() > 0 {
        let init = fs.drop_last();
        let f = fs.last();
        lemma_functions_len(init);
        lemma_function_len(f);
        let li: int = 14 * init.len() as int;
        assert(s.subrange(pos, pos + li) =~= functions_bytes(init)) by {
            assert(s.subrange(pos, pos + li) =~= s.subrange(pos, pos + 14 * fs.len()).subrange(0, li));
        }
        lemma_take_functions(s, pos, init);
        assert(s.subrange(pos + li, pos + li + 14) =~= function_bytes(f)) by {
            assert(s.subrange(pos + li, pos + li + 14) =~= s.subrange(pos, pos + 14 * fs.len()).subrange(li, 14 * fs.len() as int));
        }
        lemma_take_function(s, pos + li, f);
        assert(init.push(f) =~= fs);
    }
}

/// Decoding undoes encoding: the bytes that the writer produces for a
/// program whose offsets fit in the header, and whose constants hold no
/// decimal, read back as the same program, with the same constants,
/// function table, code and entry function. (A decimal is read without
/// moving past its payload, so what follows it is read from other bytes.)
pub proof fn lemma_decode_encode(p: BinaryProgramView)
    requires
        encodable(p),
        decimal_free(p.constants),
    ensures
        decode_program(encode_program(p)) == Some(p),
{
    lemma_auto_spec_u16_to_from_le_bytes();
    lemma_auto_spec_u32_to_from_le_bytes();
    lemma_header_len(p);
    lemma_constants_len(p.constants);
    lemma_functions_len(p.functions);
    let e = encode_program(p);
    let h = header_bytes(p);
    let n = p.constants.len();
    let m = p.functions.len();
    let ps = pool_size(p.constants);
    assert(e.subrange(22, 26) =~= spec_u32_to_le_bytes(n as u32)) by {
        assert(e.subrange(22, 26) =~= h.subrange(22, 26));
    }
    assert(e.subrange(26, 30) =~= spec_u32_to_le_bytes(m as u32)) by {
        assert(e.subrange(26, 30) =~= h.subrange(26, 30));
    }
    assert(e.subrange(30, 34) =~= spec_u32_to_le_bytes(p.entry_function)) by {
        assert(e.subrange(30, 34) =~= h.subrange(30, 34));
    }
    let (hd, p1) = take_header(e, 0).unwrap();
    assert(p1 == 34);
    assert(hd.constant_count == n);
    assert(hd.function_count == m);
    assert(hd.entry_function == p.entry_function);
    assert(e.subrange(34, 34 + ps) =~= constants_bytes(p.constants));
    lemma_take_constants(e, 34, p.constants);
    assert(e.subrange(34 + ps, 34 + ps + 14 * m) =~= functions_bytes(p.functions));
    lemma_take_functions(e, 34 + ps, p.functions);
    assert(e.subrange(34 + ps + 14 * m, e.len() as int) =~= p.code);
}

/// The layout of an encoded program: it opens with the magic bytes and the
/// version; its header holds the counts of constants and functions, the
/// code size and the entry function, and declares offsets that lie four
/// bytes past where the constant pool, the function table and the code
/// start, in that order (strictly, past a section that holds something);
/// the sections hold the constants, the function table entries and the
/// code, and the code ends the bytes. Reading the header takes its 34 bytes.
pub proof fn lemma_header_layout(p: BinaryProgramView)
    requires
        encodable(p),
    ensures
        ({
            let e = encode_program(p);
            let h = take_header(e, 0).unwrap().0;
            &&& take_header(e, 0) is Some
            &&& take_header(e, 0).unwrap().1 == HEADER_LENGTH
            &&& e.subrange(0, 4) == magic_bytes()
            &&& h.magic@ == magic_bytes()
            &&& h.version == VERSION
            &&& h.constant_count == p.constants.len()
            &&& h.function_count == p.functions.len()
            &&& h.entry_function == p.entry_function
            &&& h.code_size == p.code.len() as u32
            &&& h.constant_offset == constant_offset(p) == constant_start(p) + 4
            &&& h.function_offset == function_offset(p) == function_start(p) + 4
            &&& h.code_offset == code_offset(p) == code_start(p) + 4
            &&& constant_start(p) <= function_start(p) <= code_start(p) <= e.len()
            &&& p.constants.len() > 0 ==> constant_offset(p) < function_offset(p)
            &&& p.functions.len() > 0 ==> function_offset(p) < code_offset(p)
            &&& e.subrange(constant_start(p), function_start(p)) == constants_bytes(p.constants)
            &&& e.subrange(function_start(p), code_start(p)) == functions_bytes(p.functions)
            &&& e.subrange(code_start(p), e.len() as int) == p.code
        }),
{
    lemma_auto_spec_u16_to_from_le_bytes();
    lemma_auto_spec_u32_to_from_le_bytes();
    lemma_header_len(p);
    lemma_constants_len(p.constants);
    lemma_functions_len(p.functions);
    let e = encode_program(p);
    let hb = header_bytes(p);
    let ps = pool_size(p.constants);
    let m = p.functions.len();
    assert(e.subrange(0, 4) =~= magic_bytes());
    assert(e.subrange(4, 6) =~= spec_u16_to_le_bytes(VERSION)) by {
        assert(e.subrange(4, 6) =~= hb.subrange(4, 6));
    }
    assert(e.subrange(6, 10) =~= spec_u32_to_le_bytes(constant_offset(p) as u32)) by {
        assert(e.subrange(6, 10) =~= hb.subrange(6, 10));
    }
    assert(e.subrange(10, 14) =~= spec_u32_to_le_bytes(function_offset(p) as u32)) by {
        assert(e.subrange(10, 14) =~= hb.subrange(10, 14));
    }
    assert(e.subrange(14, 18) =~= spec_u32_to_le_bytes(code_offset(p) as u32)) by {
        assert(e.subrange(14, 18) =~= hb.subrange(14, 18));
    }
    assert(e.subrange(18, 22) =~= spec_u32_to_le_bytes(p.code.len() as u32)) by {
        assert(e.subrange(18, 22) =~= hb.subrange(18, 22));
    }
    assert(e.subrange(22, 26) =~= spec_u32_to_le_bytes(p.constants.len() as u32)) by {
        assert(e.subrange(22, 26) =~= hb.subrange(22, 26));
    }
    assert(e.subrange(26, 30) =~= spec_u32_to_le_bytes(p.functions.len() as u32)) by {
        assert(e.subrange(26, 30) =~= hb.subrange(26, 30));
    }
    assert(e.subrange(30, 34) =~= spec_u32_to_le_bytes(p.entry_function)) by {
        assert(e.subrange(30, 34) =~= hb.subrange(30, 34));
    }
    let h = take_header(e, 0).unwrap().0;
    assert(h.magic@ =~= magic_bytes());
    assert(e.subrange(34, 34 + ps) =~= constants_bytes(p.constants));
    assert(e.subrange(34 + ps, 34 + ps + 14 * m) =~= functions_bytes(p.functions));
    assert(e.subrange(34 + ps + 14 * m, e.len() as int) =~= p.code);
}

} // verus!
