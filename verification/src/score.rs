//! The stored form of the high score: four bytes, least significant first.
use vstd::prelude::*;

verus! {

/// The number that four bytes stand for, least significant byte first.
pub open spec fn le_value(b: Seq<u8>) -> int {
    b[0] + 256 * b[1] + 65536 * b[2] + 16777216 * b[3]
}

/// The four bytes that stand for `v`, least significant byte first.
pub open spec fn le_bytes(v: u32) -> Seq<u8> {
    seq![(v % 256) as u8, ((v / 256) % 256) as u8, ((v / 65536) % 256) as u8, (v / 16777216) as u8]
}

/// Reads a high score from its stored bytes.
pub fn decode_high_score(bytes: [u8; 4]) -> (v: u32)
    ensures
        v == le_value(bytes@),
{
    let b0: u32 = bytes[0] as u32;
    let b1: u32 = bytes[1] as u32;
    let b2: u32 = bytes[2] as u32;
    let b3: u32 = bytes[3] as u32;
    b0 + 256 * b1 + 65536 * b2 + 16777216 * b3
}

/// The bytes in which a high score is stored.
pub fn encode_high_score(v: u32) -> (bytes: [u8; 4])
    ensures
        bytes@ == le_bytes(v),
{
    let bytes: [u8; 4] = [(v % 256) as u8, ((v / 256) % 256) as u8, ((v / 65536) % 256) as u8, (v / 16777216) as u8];
    assert(bytes@ =~= le_bytes(v));
    bytes
}

/// Reading back the stored bytes of a high score gives the same score.
pub proof fn lemma_read_after_write(v: u32)
    ensures
        le_value(le_bytes(v)) == v,
{
    let b = le_bytes(v);
    assert(v == (v % 256) + 256 * ((v / 256) % 256) + 65536 * ((v / 65536) % 256) + 16777216 * (v / 16777216))
        by (nonlinear_arith);
}

/// Storing the score that four bytes stand for gives back the same bytes.
pub proof fn lemma_write_after_read(b: Seq<u8>)
    requires
        b.len() == 4,
    ensures
        0 <= le_value(b) <= u32::MAX,
        le_bytes(le_value(b) as u32) =~= b,
{
    let v = le_value(b);
    let (b0, b1, b2, b3) = (b[0] as int, b[1] as int, b[2] as int, b[3] as int);
    assert(v % 256 == b0 && (v / 256) % 256 == b1 && (v / 65536) % 256 == b2 && v / 16777216 == b3)
        by (nonlinear_arith)
        requires
            v == b0 + 256 * b1 + 65536 * b2 + 16777216 * b3,
            0 <= b0 < 256,
            0 <= b1 < 256,
            0 <= b2 < 256,
            0 <= b3 < 256,
    ;
}

} // verus!
