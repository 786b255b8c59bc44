//! Why collapsing never breaks UTF-8: a space or a tab is a one-byte
//! character, and no byte of any other character is a space or a tab.
use vstd::prelude::*;
use vstd::utf8::*;

use crate::model::{collapsed, is_blank, lemma_scan_concat, scan, step, trim_end, SPACE};

verus! {

/// Reading bytes none of which is blank copies them.
proof fn lemma_scan_copies_plain(out: Seq<u8>, e: Seq<u8>)
    requires
        forall|i: int| 0 <= i < e.len() ==> !is_blank(#[trigger] e[i]),
    ensures
        scan(out, e) == out + e,
    decreases e.len(),
{
    if e.len() == 0 {
        assert(out + e =~= out);
    } else {
        lemma_scan_copies_plain(out.push(e[0]), e.drop_first());
        assert(out.push(e[0]) + e.drop_first() =~= out + e);
    }
}

proof fn lemma_width_1_byte(v: u32)
    requires
        v <= 0x7F,
    ensures
        leading_byte_width_1(v) as u32 == v,
{
    assert(v <= 0x7F ==> ((v & 0x7F) as u8) as u32 == v) by (bit_vector);
}

proof fn lemma_high_bit_set(x: u8)
    ensures
        (0x80u8 | x) >= 0x80,
        (0xC0u8 | x) >= 0x80,
        (0xE0u8 | x) >= 0x80,
        (0xF0u8 | x) >= 0x80,
{
    assert((0x80u8 | x) >= 0x80) by (bit_vector);
    assert((0xC0u8 | x) >= 0x80) by (bit_vector);
    assert((0xE0u8 | x) >= 0x80) by (bit_vector);
    assert((0xF0u8 | x) >= 0x80) by (bit_vector);
}

/// The encoding of a character other than space and tab holds no blank byte.
proof fn lemma_encoding_has_no_blank(c: char)
    requires
        c != ' ',
        c != '\t',
    ensures
        forall|i: int|
            0 <= i < encode_scalar(c as u32).len() ==> !is_blank(
                #[trigger] encode_scalar(c as u32)[i],
            ),
{
    let v = c as u32;
    if has_width_1_encoding(v) {
        lemma_width_1_byte(v);
        assert(v != 0x20 && v != 0x09);
    } else {
        lemma_high_bit_set(((v >> 6) & 0x1F) as u8);
        lemma_high_bit_set(((v >> 12) & 0x0F) as u8);
        lemma_high_bit_set(((v >> 18) & 0x7) as u8);
        lemma_high_bit_set((v & 0x3F) as u8);
        lemma_high_bit_set(((v >> 6) & 0x3F) as u8);
        lemma_high_bit_set(((v >> 12) & 0x3F) as u8);
    }
}

/// Reading the encoding of any characters from valid output leaves it valid.
proof fn lemma_scan_encoded_valid(out: Seq<u8>, cs: Seq<char>)
    requires
        valid_utf8(out),
    ensures
        valid_utf8(scan(out, encode_utf8(cs))),
    decreases cs.len(),
{
    if cs.len() > 0 {
        let c = cs[0];
        let e = encode_scalar(c as u32);
        let rest = encode_utf8(cs.drop_first());
        lemma_scan_concat(out, e, rest);
        assert(encode_utf8(seq![c]) == e + encode_utf8(seq![c].drop_first()));
        assert(seq![c].drop_first() =~= Seq::<char>::empty());
        assert(e + Seq::<u8>::empty() =~= e);
        encode_utf8_valid_utf8(seq![c]);
        let next = scan(out, e);
        if c == ' ' || c == '\t' {
            lemma_width_1_byte(c as u32);
            assert(e =~= seq![e[0]]);
            assert(scan(out, e) == scan(step(out, e[0]), e.drop_first()));
            assert(e.drop_first() =~= Seq::<u8>::empty());
            assert(is_blank(e[0]));
            // a separator is the encoding of a space
            assert(encode_utf8(seq![' ']) =~= seq![SPACE]) by {
                lemma_width_1_byte(' ' as u32);
                assert(seq![' '].drop_first() =~= Seq::<char>::empty());
            }
            encode_utf8_valid_utf8(seq![' ']);
            valid_utf8_concat(out, seq![SPACE]);
            assert(out.push(SPACE) =~= out + seq![SPACE]);
        } else {
            lemma_encoding_has_no_blank(c);
            lemma_scan_copies_plain(out, e);
            valid_utf8_concat(out, e);
        }
        lemma_scan_encoded_valid(next, cs.drop_first());
    }
}

/// Collapsing keeps text valid: only original bytes and single spaces are
/// ever written, so no multi-byte character is split.
pub proof fn lemma_collapsed_valid_utf8(s: Seq<u8>)
    requires
        valid_utf8(s),
    ensures
        valid_utf8(collapsed(s)),
{
    decode_utf8_encode_utf8(s);
    assert(valid_utf8(Seq::<u8>::empty()));
    lemma_scan_encoded_valid(Seq::empty(), decode_utf8(s));
    let raw = scan(Seq::empty(), s);
    if raw.len() > 0 && raw.last() == SPACE {
        let n = raw.len() - 1;
        is_char_boundary_iff_not_is_continuation_byte(raw, n);
        valid_utf8_split(raw, n);
        assert(raw.subrange(0, n) =~= trim_end(raw));
    }
}

} // verus!
