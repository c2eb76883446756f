//! Byte-level access to tracer words.
//!
//! The tracer memory interface only supports word-granularity reads and
//! writes, so patching a single byte means reading the aligned word that
//! contains it, replacing one byte by shift-and-mask, and writing the whole
//! word back.  The functions here are that shift-and-mask logic.

use vstd::prelude::*;

verus! {

/// The single-byte trap instruction patched over a breakpoint address.
pub const TRAP_BYTE: u8 = 0xcc;

/// Byte `i` of the word `w`, counting from the least significant byte,
/// which is the byte at the lowest address (words are little-endian).
pub open spec fn word_byte(w: u64, i: u64) -> u8 {
    ((w >> ((8 * i) as u64)) & 0xff) as u8
}

/// Rounds `addr` down to the start of the word that contains it.
pub fn align_addr_to_word(addr: usize) -> (r: usize)
    ensures
        r % 8 == 0,
        r <= addr < r + 8,
{
    let r = addr & !7;
    proof {
        assert((addr & !7usize) % 8 == 0 && (addr & !7usize) <= addr < (addr & !7usize) + 8)
            by (bit_vector);
    }
    r
}

/// Extracts byte `off` of `w`.
pub fn extract_byte(w: u64, off: usize) -> (r: u8)
    requires
        off < 8,
    ensures
        r == word_byte(w, off as u64),
{
    ((w >> (8 * off as u64)) & 0xff) as u8
}

/// Replaces byte `off` of `w` with `val`, leaving the other bytes unchanged.
pub fn set_byte_in_word(w: u64, off: usize, val: u8) -> (r: u64)
    requires
        off < 8,
    ensures
        word_byte(r, off as u64) == val,
        forall|i: u64| i < 8 && i != off ==> word_byte(r, i) == word_byte(w, i),
{
    let shift: u64 = 8 * off as u64;
    let masked: u64 = w & !(0xffu64 << shift);
    let r: u64 = masked | ((val as u64) << shift);
    proof {
        let offb = off as u64;
        assert({
            let s = (8 * offb) as u64;
            let m = w & !(0xffu64 << s);
            let res = m | ((val as u64) << s);
            word_byte(res, offb) == val
        }) by (bit_vector)
            requires
                offb < 8,
        ;
        assert(forall|i: u64|
            i < 8 && i != offb ==> word_byte(
                (w & !(0xffu64 << ((8 * offb) as u64))) | ((val as u64) << ((8 * offb) as u64)),
                i,
            ) == #[trigger] word_byte(w, i)) by (bit_vector)
            requires
                offb < 8,
        ;
    }
    r
}

} // verus!
