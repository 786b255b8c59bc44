//! The mathematical meaning of collapsing, over byte sequences.
use vstd::prelude::*;

verus! {

/// The separator byte that every run of blanks turns into.
pub const SPACE: u8 = 0x20;

/// The tab byte, which collapses like a space.
pub const TAB: u8 = 0x09;

/// True for the two bytes that collapse into a separator: space and tab.
pub open spec fn is_blank(b: u8) -> bool {
    b == SPACE || b == TAB
}

/// True when the output built so far is empty or ends in a separator: a
/// blank read now adds nothing.
pub open spec fn separator_pending(out: Seq<u8>) -> bool {
    out.len() == 0 || out.last() == SPACE
}

/// The output after reading one more input byte: a blank adds a separator
/// unless one is already pending, any other byte is copied.
pub open spec fn step(out: Seq<u8>, b: u8) -> Seq<u8> {
    if !is_blank(b) {
        out.push(b)
    } else if separator_pending(out) {
        out
    } else {
        out.push(SPACE)
    }
}

/// The output after reading all of `s`, left to right, starting from `out`.
pub open spec fn scan(out: Seq<u8>, s: Seq<u8>) -> Seq<u8>
    decreases s.len(),
{
    if s.len() == 0 {
        out
    } else {
        scan(step(out, s[0]), s.drop_first())
    }
}

/// `out` without a final separator.
pub open spec fn trim_end(out: Seq<u8>) -> Seq<u8> {
    if out.len() > 0 && out.last() == SPACE {
        out.drop_last()
    } else {
        out
    }
}

/// The collapsed form of `s`: each maximal run of spaces and tabs becomes one
/// space, and runs at the start or the end vanish.
pub open spec fn collapsed(s: Seq<u8>) -> Seq<u8> {
    trim_end(scan(Seq::empty(), s))
}

/// The bytes of `s` that are neither space nor tab, in order.
pub open spec fn without_blanks(s: Seq<u8>) -> Seq<u8> {
    s.filter(|b: u8| !is_blank(b))
}

/// Reading `a` and then `b` gives what reading `a + b` gives: the input may be
/// cut into pieces anywhere.
pub proof fn lemma_scan_concat(out: Seq<u8>, a: Seq<u8>, b: Seq<u8>)
    ensures
        scan(out, a + b) == scan(scan(out, a), b),
    decreases a.len(),
{
    if a.len() == 0 {
        assert(a + b =~= b);
    } else {
        assert((a + b).drop_first() =~= a.drop_first() + b);
        lemma_scan_concat(step(out, a[0]), a.drop_first(), b);
    }
}

/// Reading one more byte is one more step.
pub proof fn lemma_scan_push(out: Seq<u8>, a: Seq<u8>, b: u8)
    ensures
        scan(out, a.push(b)) == step(scan(out, a), b),
{
    lemma_scan_concat(out, a, seq![b]);
    assert(a.push(b) =~= a + seq![b]);
    let x = scan(out, a);
    assert(seq![b].drop_first() =~= Seq::<u8>::empty());
    assert(scan(x, seq![b]) == scan(step(x, b), Seq::<u8>::empty()));
}

} // verus!
