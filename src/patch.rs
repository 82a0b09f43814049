//! Byte-granular patching inside machine words.
//!
//! The tracing interface reads and writes whole, aligned words only, so a
//! single byte is changed by reading its word, splicing the byte in and
//! writing the word back.
use vstd::prelude::*;

verus! {

/// Number of bytes in one word of the traced child's memory.
pub const WORD_BYTES: usize = 8;

/// The byte at little-endian position `k` (0 to 7) of `w`.
pub open spec fn byte_at(w: u64, k: u64) -> u64 {
    (w >> (8 * k)) & 0xff
}

/// Rounds `addr` down to the start of the word that holds it.
pub fn align_addr_to_word(addr: usize) -> (r: usize)
    ensures
        r as int == addr as int - addr as int % WORD_BYTES as int,
        r % WORD_BYTES == 0,
        r <= addr,
        addr - r < WORD_BYTES,
{
    addr - addr % WORD_BYTES
}

/// Replaces the byte at position `offset` of `word` by `val`.
///
/// Returns the new word and the byte that was replaced. The seven other
/// bytes of the word are kept as they were.
pub fn patch_word(word: u64, offset: usize, val: u8) -> (r: (u64, u8))
    requires
        offset < WORD_BYTES,
    ensures
        r.1 as u64 == byte_at(word, offset as u64),
        byte_at(r.0, offset as u64) == val as u64,
        forall|k: u64| k < 8 && k != offset ==> byte_at(r.0, k) == byte_at(word, k),
{
    let k: u64 = offset as u64;
    let shift: u64 = 8 * k;
    let orig: u64 = (word >> shift) & 0xff;
    let updated: u64 = (word & !(0xffu64 << shift)) | ((val as u64) << shift);
    let v: u64 = val as u64;
    assert(orig < 256) by (bit_vector)
        requires
            orig == (word >> shift) & 0xff,
    ;
    assert(byte_at(updated, k) == v) by (bit_vector)
        requires
            k < 8,
            shift == 8 * k,
            v < 256,
            updated == (word & !(0xffu64 << shift)) | (v << shift),
    ;
    assert forall|j: u64| j < 8 && j != k implies byte_at(updated, j) == byte_at(word, j) by {
        assert(byte_at(updated, j) == byte_at(word, j)) by (bit_vector)
            requires
                k < 8,
                j < 8,
                j != k,
                shift == 8 * k,
                v < 256,
                updated == (word & !(0xffu64 << shift)) | (v << shift),
        ;
    }
    (updated, orig as u8)
}

/// Patching one byte of a word and then reading the word back shows exactly
/// that byte changed: it now holds the new value, and every other byte of
/// the word is the one it held before.
pub proof fn lemma_patch_round_trip(word: u64, offset: u64, val: u8, patched: u64)
    requires
        offset < 8,
        byte_at(patched, offset) == val as u64,
        forall|k: u64| k < 8 && k != offset ==> byte_at(patched, k) == byte_at(word, k),
    ensures
        forall|k: u64|
            k < 8 ==> (byte_at(patched, k) != byte_at(word, k) ==> k == offset),
        byte_at(word, offset) != val as u64 ==> patched != word,
        byte_at(word, offset) == val as u64 ==> patched == word,
{
    if byte_at(word, offset) == val as u64 {
        assert forall|k: u64| k < 8 implies byte_at(patched, k) == byte_at(word, k) by {}
        lemma_bytes_determine_word(patched, word);
    }
}

/// Two words whose eight bytes agree are equal.
proof fn lemma_bytes_determine_word(a: u64, b: u64)
    requires
        forall|k: u64| k < 8 ==> byte_at(a, k) == byte_at(b, k),
    ensures
        a == b,
{
    assert(a == b) by (bit_vector)
        requires
            byte_at(a, 0) == byte_at(b, 0), byte_at(a, 1) == byte_at(b, 1),
            byte_at(a, 2) == byte_at(b, 2), byte_at(a, 3) == byte_at(b, 3),
            byte_at(a, 4) == byte_at(b, 4), byte_at(a, 5) == byte_at(b, 5),
            byte_at(a, 6) == byte_at(b, 6), byte_at(a, 7) == byte_at(b, 7),
    ;
}

} // verus!
