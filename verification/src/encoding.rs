//! Text as bytes: facts about UTF-8 encodings, and the lossy decoding that
//! the server applies to the bytes it receives.

use vstd::prelude::*;
use vstd::utf8::*;

verus! {

/// The encoding of two texts one after the other is the encoding of the
/// first followed by that of the second.
pub proof fn encode_concat(a: Seq<char>, b: Seq<char>)
    ensures
        encode_utf8(a + b) == encode_utf8(a) + encode_utf8(b),
    decreases a.len(),
{
    if a.len() == 0 {
        assert(a + b =~= b);
        assert(encode_utf8(a) + encode_utf8(b) =~= encode_utf8(b));
    } else {
        assert((a + b).drop_first() =~= a.drop_first() + b);
        assert((a + b)[0] == a[0]);
        encode_concat(a.drop_first(), b);
        assert(encode_scalar(a[0] as u32) + (encode_utf8(a.drop_first()) + encode_utf8(b))
            =~= (encode_scalar(a[0] as u32) + encode_utf8(a.drop_first())) + encode_utf8(b));
    }
}

/// Whether every character of `s` is ASCII.
pub open spec fn all_ascii(s: Seq<char>) -> bool {
    forall|i: int| 0 <= i < s.len() ==> (#[trigger] s[i] as u32) < 0x80
}

/// The bytes of an ASCII text: one per character, its code.
pub open spec fn ascii_bytes(s: Seq<char>) -> Seq<u8> {
    s.map_values(|c: char| c as u32 as u8)
}

proof fn lemma_low_byte(v: u32)
    by (bit_vector)
    requires
        v < 0x80,
    ensures
        (v & 0x7F) as u8 == v as u8,
{
}

/// An ASCII text encodes to one byte per character, its code.
pub proof fn encode_ascii(s: Seq<char>)
    requires
        all_ascii(s),
    ensures
        encode_utf8(s) == ascii_bytes(s),
    decreases s.len(),
{
    if s.len() > 0 {
        let v = s[0] as u32;
        assert(v < 0x80);
        lemma_low_byte(v);
        assert forall|i: int| 0 <= i < s.drop_first().len() implies (#[trigger] s.drop_first()[i] as u32) < 0x80 by {
            assert(s.drop_first()[i] == s[i + 1]);
        }
        encode_ascii(s.drop_first());
        assert(ascii_bytes(s) =~= seq![v as u8] + ascii_bytes(s.drop_first()));
    } else {
        assert(ascii_bytes(s) =~= Seq::<u8>::empty());
    }
}

proof fn lemma_high_bytes(v: u32)
    by (bit_vector)
    ensures
        0xC0u8 | (((v >> 6u32) & 0x1Fu32) as u8) >= 0x80u8,
        0xE0u8 | (((v >> 12u32) & 0x0Fu32) as u8) >= 0x80u8,
        0xF0u8 | (((v >> 18u32) & 0x7u32) as u8) >= 0x80u8,
        0x80u8 | ((v & 0x3Fu32) as u8) >= 0x80u8,
        0x80u8 | (((v >> 6u32) & 0x3Fu32) as u8) >= 0x80u8,
        0x80u8 | (((v >> 12u32) & 0x3Fu32) as u8) >= 0x80u8,
{
}

/// The encoding of one character holds the byte `b` below 0x80 only where the
/// character is that byte's ASCII character.
proof fn lemma_scalar_low_byte(c: char, b: u8)
    requires
        b < 0x80,
        c as u32 != b as u32,
    ensures
        forall|i: int| 0 <= i < encode_scalar(c as u32).len() ==> #[trigger] encode_scalar(c as u32)[i] != b,
{
    let v = c as u32;
    lemma_high_bytes(v);
    if has_width_1_encoding(v) {
        lemma_low_byte(v);
    }
}

/// A text without the ASCII character `b` encodes to bytes without `b`.
pub proof fn encode_avoids_ascii(s: Seq<char>, b: u8)
    requires
        b < 0x80,
        forall|i: int| 0 <= i < s.len() ==> (#[trigger] s[i] as u32) != b as u32,
    ensures
        forall|i: int| 0 <= i < encode_utf8(s).len() ==> #[trigger] encode_utf8(s)[i] != b,
    decreases s.len(),
{
    if s.len() > 0 {
        lemma_scalar_low_byte(s[0], b);
        assert forall|i: int| 0 <= i < s.drop_first().len() implies (#[trigger] s.drop_first()[i] as u32) != b as u32 by {
            assert(s.drop_first()[i] == s[i + 1]);
        }
        encode_avoids_ascii(s.drop_first(), b);
        let e = encode_scalar(s[0] as u32);
        let r = encode_utf8(s.drop_first());
        assert forall|i: int| 0 <= i < encode_utf8(s).len() implies #[trigger] encode_utf8(s)[i] != b by {
            if i < e.len() {
                assert(encode_utf8(s)[i] == e[i]);
            } else {
                assert(encode_utf8(s)[i] == r[i - e.len()]);
            }
        }
    }
}

/// What `String::from_utf8_lossy` gives for `bytes`: the text they encode,
/// with each invalid sequence replaced by U+FFFD.
pub uninterp spec fn lossy_text(bytes: Seq<u8>) -> Seq<char>;

/// Calls `String::from_utf8_lossy`. The result depends on the bytes alone;
/// how invalid sequences are replaced is left to the name.
#[verifier::external_body]
pub(crate) fn decode_lossy(bytes: &[u8]) -> (r: String)
    ensures
        r@ == lossy_text(bytes@),
{
    String::from_utf8_lossy(bytes).to_string()
}

} // verus!
