//! The collapsing pass itself.
use vstd::prelude::*;

use crate::encoding::lemma_collapsed_valid_utf8;
use crate::lanes::{blank_mask, HIT, LANES};
use crate::model::{
    collapsed, is_blank, lemma_scan_push, scan, separator_pending, step, SPACE, TAB,
};
use crate::words::{join_words, lemma_collapsed_joins_words, words};
use vstd::utf8::{encode_utf8, encode_utf8_valid_utf8, valid_utf8};

verus! {

/// Appends what reading `b` adds to `out`, given whether `b` is a blank and
/// whether a separator is pending; returns whether one is pending afterwards.
fn emit(out: &mut Vec<u8>, b: u8, blank: bool, pending: bool) -> (now_pending: bool)
    requires
        blank == is_blank(b),
        pending == separator_pending(old(out)@),
    ensures
        final(out)@ == step(old(out)@, b),
        now_pending == separator_pending(final(out)@),
{
    if blank {
        if !pending {
            out.push(SPACE);
        }
        true
    } else {
        out.push(b);
        false
    }
}

/// Relies on `String::from_utf8`: bytes that are valid UTF-8 become a `String`
/// holding exactly those bytes.
#[verifier::external_body]
fn string_from_utf8(bytes: Vec<u8>) -> (r: String)
    requires
        valid_utf8(bytes@),
    ensures
        encode_utf8(r@) == bytes@,
{
    String::from_utf8(bytes).unwrap()
}

/// Collapses every maximal run of spaces and tabs in `input` into one space,
/// and drops such runs at the start and the end. Every other byte, line
/// breaks and the bytes of multi-byte characters included, is copied as it
/// stands.
pub fn collapse_whitespace(input: &str) -> (r: String)
    ensures
        encode_utf8(r@) == collapsed(encode_utf8(input@)),
        encode_utf8(r@) == join_words(words(encode_utf8(input@))),
{
    let bytes = input.as_bytes();
    let len = bytes.len();
    let ghost s = bytes@;
    let mut result: Vec<u8> = Vec::with_capacity(len);
    let mut last_was_space = true;
    let mut i: usize = 0;
    // Bulk pass: sixteen bytes classified at once, then emitted in order.
    while len - i >= LANES
        invariant
            len == s.len(),
            bytes@ == s,
            i <= len,
            result@ == scan(Seq::empty(), s.take(i as int)),
            last_was_space == separator_pending(result@),
        decreases len - i,
    {
        let mut chunk = [0u8; 16];
        let mut k: usize = 0;
        while k < LANES
            invariant
                bytes@ == s,
                i + LANES <= len == s.len(),
                k <= LANES,
                forall|j: int| 0 <= j < k ==> chunk[j] == s[i + j],
            decreases LANES - k,
        {
            chunk[k] = bytes[i + k];
            k += 1;
        }
        let mask = blank_mask(chunk);
        let mut j: usize = 0;
        while j < LANES
            invariant
                i + LANES <= len == s.len(),
                j <= LANES,
                forall|m: int| 0 <= m < 16 ==> chunk[m] == s[i + m],
                forall|m: int|
                    0 <= m < 16 ==> mask[m] == (if is_blank(chunk[m]) { HIT } else { 0u8 }),
                result@ == scan(Seq::empty(), s.take(i + j)),
                last_was_space == separator_pending(result@),
            decreases LANES - j,
        {
            proof {
                lemma_scan_push(Seq::empty(), s.take(i + j), s[i + j]);
                assert(s.take(i + j).push(s[i + j]) =~= s.take(i + j + 1));
            }
            last_was_space = emit(&mut result, chunk[j], mask[j] == HIT, last_was_space);
            j += 1;
        }
        i += LANES;
    }
    // Scalar pass over the bytes that do not fill a chunk.
    while i < len
        invariant
            len == s.len(),
            bytes@ == s,
            i <= len,
            result@ == scan(Seq::empty(), s.take(i as int)),
            last_was_space == separator_pending(result@),
        decreases len - i,
    {
        let b = bytes[i];
        proof {
            lemma_scan_push(Seq::empty(), s.take(i as int), b);
            assert(s.take(i as int).push(b) =~= s.take(i + 1));
        }
        last_was_space = emit(&mut result, b, b == SPACE || b == TAB, last_was_space);
        i += 1;
    }
    assert(s.take(len as int) =~= s);
    if result.len() > 0 && result[result.len() - 1] == SPACE {
        result.pop();
    }
    proof {
        encode_utf8_valid_utf8(input@);
        lemma_collapsed_valid_utf8(s);
        lemma_collapsed_joins_words(s);
    }
    string_from_utf8(result)
}

} // verus!
