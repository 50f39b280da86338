//! Pieces of WebAssembly code shared by the instructions' emitters.
//!
//! The emitted code reaches the interpreter's state through an address
//! (`program_addr`). It reads the data pointer at offset 0, the length of
//! the memory at offset 8 and the address of the memory's cells at offset
//! 12, and writes the data pointer back at offset 0. Nothing here fixes
//! that layout: whoever hands out the address must lay the state out so
//! there.
//!
//! Every literal of `i32.const` is the signed LEB128 encoding of its value,
//! as WebAssembly reads it.

use vstd::prelude::*;
use vstd::utf8::encode_utf8;

use crate::compiler::web::{
    lemma_sleb128_length, lemma_sleb128_round_trip, leb128_framed, sleb128, sleb128_value, SLEB128,
};
use crate::tokeniser::SourceMapping;

verus! {

/// `i32.const` with a signed literal.
pub open spec fn signed_const(v: i32) -> Seq<u8> {
    seq![0x41u8] + sleb128(v as int)
}

/// The literal of every `i32.const` that the emitters write reads back, as
/// WebAssembly reads it, as the value it was written for: the opcode is
/// followed by a framed signed LEB128 literal of one to five bytes whose
/// value is `v`.
pub proof fn lemma_signed_const(v: i32)
    ensures
        signed_const(v)[0] == 0x41,
        leb128_framed(signed_const(v).drop_first()),
        sleb128_value(signed_const(v).drop_first()) == v,
        2 <= signed_const(v).len() <= 6,
{
    lemma_sleb128_round_trip(v as int);
    lemma_sleb128_length(v as int);
    assert(signed_const(v).drop_first() =~= sleb128(v as int));
}

/// Loads the 32-bit field at `offset` of the program at `program_addr`.
pub open spec fn load_field(program_addr: i32, offset: u8) -> Seq<u8> {
    signed_const(program_addr) + seq![0x28u8, 0x02, offset]
}

/// Pushes the address of the current cell: data pointer plus the
/// address of the memory's cells.
pub open spec fn cell_address(program_addr: i32) -> Seq<u8> {
    load_field(program_addr, 0x00) + load_field(program_addr, 0x0c) + seq![0x6au8]
}

/// The length in bytes of a source mapping's file path.
pub open spec fn path_bytes(m: SourceMapping) -> nat {
    encode_utf8(m.file_path@).len()
}

/// The length in bytes of a source mapping's file path, as the emitted
/// code receives it.
pub open spec fn path_length(m: SourceMapping) -> i32 {
    path_bytes(m) as i32
}

/// Whether a count can be the literal of an `i32.const`.
pub open spec fn fits_i32(n: usize) -> bool {
    n <= i32::MAX
}

/// Whether the line, the column and the length of the path of a source
/// mapping can be the literals of `i32.const`s.
pub open spec fn mapping_encodable(m: SourceMapping) -> bool {
    &&& fits_i32(m.line)
    &&& fits_i32(m.column)
    &&& path_bytes(m) <= i32::MAX
}

/// Throws the runtime error tag with an error code and the place of the
/// instruction, when the condition on the stack holds.
pub open spec fn raise(code: u8, m: SourceMapping, path_addr: i32) -> Seq<u8> {
    seq![0x04u8, 0x40, 0x41, code] + signed_const(m.line as i32) + signed_const(
        m.column as i32,
    ) + signed_const(path_addr) + signed_const(path_length(m)) + seq![0x08u8, 0x00, 0x0b]
}

/// Stores local 2 into the data pointer of the program.
pub open spec fn store_pointer(program_addr: i32) -> Seq<u8> {
    signed_const(program_addr) + seq![0x20u8, 0x02, 0x36, 0x02, 0x00]
}

/// Appends `bytes` to `result`.
pub(crate) fn put(result: &mut Vec<u8>, bytes: &[u8])
    ensures
        final(result)@ == old(result)@ + bytes@,
{
    let mut i: usize = 0;
    while i < bytes.len()
        invariant
            i <= bytes@.len(),
            result@ == old(result)@ + bytes@.subrange(0, i as int),
        decreases bytes@.len() - i,
    {
        result.push(bytes[i]);
        i = i + 1;
        assert(result@ =~= old(result)@ + bytes@.subrange(0, i as int));
    }
    assert(bytes@.subrange(0, i as int) =~= bytes@);
}

pub(crate) fn put_signed_const(result: &mut Vec<u8>, v: i32)
    ensures
        final(result)@ == old(result)@ + signed_const(v),
{
    put(result, &[0x41]);
    let mut literal = SLEB128::from(v);
    result.append(&mut literal.inner);
    assert(result@ =~= old(result)@ + signed_const(v));
}

pub(crate) fn put_load_field(result: &mut Vec<u8>, program_addr: i32, offset: u8)
    ensures
        final(result)@ == old(result)@ + load_field(program_addr, offset),
{
    put_signed_const(result, program_addr);
    put(result, &[0x28, 0x02, offset]);
    assert(result@ =~= old(result)@ + load_field(program_addr, offset));
}

pub(crate) fn put_cell_address(result: &mut Vec<u8>, program_addr: i32)
    ensures
        final(result)@ == old(result)@ + cell_address(program_addr),
{
    put_load_field(result, program_addr, 0x00);
    put_load_field(result, program_addr, 0x0c);
    put(result, &[0x6a]);
    assert(result@ =~= old(result)@ + cell_address(program_addr));
}

/// Whether the literals that a source mapping gives the emitted code fit.
pub(crate) fn mapping_fits(m: &SourceMapping) -> (r: bool)
    ensures
        r == mapping_encodable(*m),
{
    let path = m.file_path().as_bytes();
    m.line() <= 0x7fff_ffff && m.column() <= 0x7fff_ffff && path.len() <= 0x7fff_ffff
}

pub(crate) fn put_raise(result: &mut Vec<u8>, code: u8, m: &SourceMapping, path_addr: i32)
    requires
        mapping_encodable(*m),
    ensures
        final(result)@ == old(result)@ + raise(code, *m, path_addr),
{
    put(result, &[0x04, 0x40, 0x41, code]);
    put_signed_const(result, m.line() as i32);
    put_signed_const(result, m.column() as i32);
    put_signed_const(result, path_addr);
    let path = m.file_path().as_bytes();
    let path_length = path.len();
    put_signed_const(result, path_length as i32);
    put(result, &[0x08, 0x00, 0x0b]);
    assert(result@ =~= old(result)@ + raise(code, *m, path_addr));
}

pub(crate) fn put_store_pointer(result: &mut Vec<u8>, program_addr: i32)
    ensures
        final(result)@ == old(result)@ + store_pointer(program_addr),
{
    put_signed_const(result, program_addr);
    put(result, &[0x20, 0x02, 0x36, 0x02, 0x00]);
    assert(result@ =~= old(result)@ + store_pointer(program_addr));
}

} // verus!
