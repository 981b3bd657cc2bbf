//! Network byte order and character-string framing, as mathematical functions.

use vstd::prelude::*;
use vstd::utf8::*;

verus! {

/// The two bytes of `v`, most significant first.
pub open spec fn u16_bytes(v: u16) -> Seq<u8> {
    seq![(v / 256) as u8, (v % 256) as u8]
}

/// The value of the first two bytes of `b`, read most significant first.
pub open spec fn be_u16(b: Seq<u8>) -> u16 {
    (b[0] as int * 256 + b[1] as int) as u16
}

/// The four bytes of `v`, most significant first.
pub open spec fn u32_bytes(v: u32) -> Seq<u8> {
    seq![
        (v / 0x100_0000) as u8,
        ((v / 0x1_0000) % 256) as u8,
        ((v / 256) % 256) as u8,
        (v % 256) as u8,
    ]
}

/// The value of the first four bytes of `b`, read most significant first.
pub open spec fn be_u32(b: Seq<u8>) -> u32 {
    (b[0] as int * 0x100_0000 + b[1] as int * 0x1_0000 + b[2] as int * 256 + b[3] as int) as u32
}

/// The four bytes of the two's-complement form of `v`, most significant first.
pub open spec fn i32_bytes(v: i32) -> Seq<u8> {
    u32_bytes(#[verifier::truncate] (v as u32))
}

/// The two's-complement value of the first four bytes of `b`.
pub open spec fn be_i32(b: Seq<u8>) -> i32 {
    #[verifier::truncate] (be_u32(b) as i32)
}

/// A character-string on the wire: one length byte, then the UTF-8 bytes of `s`.
pub open spec fn character_data(s: Seq<char>) -> Seq<u8> {
    seq![encode_utf8(s).len() as u8] + encode_utf8(s)
}

/// Reading back the bytes of a `u16` gives the `u16`.
pub proof fn lemma_u16_round_trip(v: u16)
    ensures
        be_u16(u16_bytes(v)) == v,
{
}

/// Reading back the bytes of a `u32` gives the `u32`.
pub proof fn lemma_u32_round_trip(v: u32)
    ensures
        be_u32(u32_bytes(v)) == v,
{
}

/// Reading back the bytes of an `i32` gives the `i32`.
pub proof fn lemma_i32_round_trip(v: i32)
    ensures
        be_i32(i32_bytes(v)) == v,
{
    let u = #[verifier::truncate] (v as u32);
    lemma_u32_round_trip(u);
    assert((#[verifier::truncate] (u as i32)) == v) by (bit_vector)
        requires
            u == #[verifier::truncate] (v as u32),
    ;
}

/// Reading back a character-string gives its text: the length byte counts
/// the bytes that follow, and they are valid UTF-8 that decodes to the text.
pub proof fn lemma_character_data_round_trip(s: Seq<char>)
    requires
        encode_utf8(s).len() <= 255,
    ensures
        character_data(s).len() == 1 + character_data(s)[0],
        valid_utf8(character_data(s).subrange(1, 1 + character_data(s)[0])),
        decode_utf8(character_data(s).subrange(1, 1 + character_data(s)[0])) == s,
{
    broadcast use encode_utf8_valid_utf8, encode_utf8_decode_utf8;

    let b = character_data(s);
    assert(b.subrange(1, 1 + b[0]) =~= encode_utf8(s));
}

} // verus!
