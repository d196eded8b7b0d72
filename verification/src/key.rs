//! Lattice keys and the integer code under which the hash tables hold them.

use vstd::prelude::*;

verus! {

/// The identity of a lattice cell: its quantized plane coordinates.
pub type Key = (i32, i32);

/// The code of a key: both coordinates shifted to be non-negative, the first
/// in the high 32 bits and the second in the low 32 bits.
pub open spec fn key_code(key: Key) -> u64 {
    ((key.0 + 0x8000_0000) * 0x1_0000_0000 + (key.1 + 0x8000_0000)) as u64
}

/// The key that a code stands for.
pub open spec fn code_key(code: u64) -> Key {
    ((code / 0x1_0000_0000 - 0x8000_0000) as i32, (code % 0x1_0000_0000 - 0x8000_0000) as i32)
}

/// Decoding undoes encoding.
pub proof fn lemma_code_key_of_key_code(key: Key)
    ensures
        code_key(key_code(key)) == key,
{
    let hi: int = key.0 + 0x8000_0000;
    let lo: int = key.1 + 0x8000_0000;
    assert(0 <= hi < 0x1_0000_0000 && 0 <= lo < 0x1_0000_0000);
    assert((hi * 0x1_0000_0000 + lo) / 0x1_0000_0000 == hi && (hi * 0x1_0000_0000 + lo)
        % 0x1_0000_0000 == lo) by (nonlinear_arith)
        requires
            0 <= hi < 0x1_0000_0000,
            0 <= lo < 0x1_0000_0000,
    ;
    assert(0 <= hi * 0x1_0000_0000 + lo <= u64::MAX) by (nonlinear_arith)
        requires
            0 <= hi < 0x1_0000_0000,
            0 <= lo < 0x1_0000_0000,
    ;
}

/// Encoding undoes decoding.
pub proof fn lemma_key_code_of_code_key(code: u64)
    ensures
        key_code(code_key(code)) == code,
{
    let hi: int = code as int / 0x1_0000_0000;
    let lo: int = code as int % 0x1_0000_0000;
    assert(0 <= hi < 0x1_0000_0000 && 0 <= lo < 0x1_0000_0000 && hi * 0x1_0000_0000 + lo
        == code) by (nonlinear_arith)
        requires
            hi == code as int / 0x1_0000_0000,
            lo == code as int % 0x1_0000_0000,
            0 <= code <= u64::MAX,
    ;
}

/// Two different keys never share a code, so no two cells share a slot of a
/// table that is addressed by code.
pub proof fn lemma_key_code_injective(k1: Key, k2: Key)
    ensures
        key_code(k1) == key_code(k2) <==> k1 == k2,
{
    lemma_code_key_of_key_code(k1);
    lemma_code_key_of_key_code(k2);
}

/// Computes the code of a key.
pub fn encode_key(key: Key) -> (code: u64)
    ensures
        code == key_code(key),
{
    let hi: u64 = (key.0 as i64 + 0x8000_0000) as u64;
    let lo: u64 = (key.1 as i64 + 0x8000_0000) as u64;
    assert(hi * 0x1_0000_0000 + lo <= u64::MAX) by (nonlinear_arith)
        requires
            0 <= hi < 0x1_0000_0000,
            0 <= lo < 0x1_0000_0000,
    ;
    hi * 0x1_0000_0000 + lo
}

/// Computes the key that a code stands for.
pub fn decode_key(code: u64) -> (key: Key)
    ensures
        key == code_key(code),
{
    let hi: u64 = code / 0x1_0000_0000;
    let lo: u64 = code % 0x1_0000_0000;
    ((hi as i64 - 0x8000_0000) as i32, (lo as i64 - 0x8000_0000) as i32)
}

} // verus!
