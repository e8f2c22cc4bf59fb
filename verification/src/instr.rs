use vstd::prelude::*;

verus! {

/// One decoded instruction: its offset inside the file, its virtual address,
/// and the byte-order-corrected 32-bit opcode word.
#[derive(Clone, Copy, Debug)]
pub struct Instruction {
    pub file_addr: u64,
    pub vram_addr: u64,
    pub op: u32,
}

impl Instruction {
    pub open spec fn view(self) -> (u64, u64, u32) {
        (self.file_addr, self.vram_addr, self.op)
    }
}

/// The coarse comparison class of an opcode word: its six high-order bits,
/// the architecture's primary opcode field.
pub open spec fn spec_signature(op: u32) -> u8 {
    ((op >> 26) & 0x3f) as u8
}

/// Reduce one opcode word to its signature byte.
pub fn signature(op: u32) -> (r: u8)
    ensures
        r == spec_signature(op),
        r < 64,
{
    proof {
        assert((op >> 26) & 0x3f == op >> 26 && (op >> 26) < 64) by (bit_vector);
    }
    (op >> 26) as u8
}

/// Every signature byte lies in the six-bit range.
pub proof fn lemma_signature_in_range(op: u32)
    ensures
        spec_signature(op) < 64,
{
    assert((op >> 26) & 0x3f < 64) by (bit_vector);
}

/// Two opcode words that differ only in their low 26 bits have the same
/// signature byte.
pub proof fn lemma_signature_ignores_low_bits(a: u32, b: u32)
    requires
        a >> 26 == b >> 26,
    ensures
        spec_signature(a) == spec_signature(b),
{
}

/// The four bytes of a word in reverse order: the disassembler emits the
/// opcode in the opposite byte order from the one the pipeline compares.
pub open spec fn spec_swap_bytes(op: u32) -> u32 {
    ((op & 0xff) << 24) | (((op >> 8) & 0xff) << 16) | (((op >> 16) & 0xff) << 8) | ((op >> 24)
        & 0xff)
}

/// Reverse the four bytes of an opcode word.
pub fn swap_bytes(op: u32) -> (r: u32)
    ensures
        r == spec_swap_bytes(op),
{
    ((op & 0xff) << 24u32) | (((op >> 8u32) & 0xff) << 16u32) | (((op >> 16u32) & 0xff) << 8u32)
        | ((op >> 24u32) & 0xff)
}

/// Swapping twice restores the original word.
pub proof fn lemma_swap_bytes_involutive(op: u32)
    ensures
        spec_swap_bytes(spec_swap_bytes(op)) == op,
{
    let s = spec_swap_bytes(op);
    assert(spec_swap_bytes(((op & 0xff) << 24) | (((op >> 8) & 0xff) << 16) | (((op >> 16) & 0xff)
        << 8) | ((op >> 24) & 0xff)) == op) by (bit_vector);
}

} // verus!
