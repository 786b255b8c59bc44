//! What holds of every collapsed text.
use vstd::prelude::*;

use crate::model::{
    collapsed, is_blank, lemma_scan_concat, lemma_scan_push, scan, separator_pending, step,
    trim_end, without_blanks, SPACE, TAB,
};

verus! {

/// No tab, no space first, no two spaces in a row.
pub open spec fn well_spaced(out: Seq<u8>) -> bool {
    &&& forall|i: int| 0 <= i < out.len() ==> #[trigger] out[i] != TAB
    &&& out.len() > 0 ==> out[0] != SPACE
    &&& forall|i: int| 0 <= i < out.len() - 1 && #[trigger] out[i] == SPACE ==> out[i + 1] != SPACE
}

proof fn lemma_step_well_spaced(out: Seq<u8>, b: u8)
    requires
        well_spaced(out),
    ensures
        well_spaced(step(out, b)),
{
    let r = step(out, b);
    assert forall|i: int| 0 <= i < r.len() - 1 && #[trigger] r[i] == SPACE implies r[i + 1] != SPACE by {
        if i < out.len() - 1 {
            assert(r[i] == out[i] && r[i + 1] == out[i + 1]);
        }
    }
}

proof fn lemma_scan_well_spaced(out: Seq<u8>, s: Seq<u8>)
    requires
        well_spaced(out),
    ensures
        well_spaced(scan(out, s)),
    decreases s.len(),
{
    if s.len() > 0 {
        lemma_step_well_spaced(out, s[0]);
        lemma_scan_well_spaced(step(out, s[0]), s.drop_first());
    }
}

proof fn lemma_collapsed_shape(s: Seq<u8>)
    ensures
        well_spaced(collapsed(s)),
        collapsed(s).len() > 0 ==> collapsed(s).last() != SPACE,
{
    let raw = scan(Seq::empty(), s);
    lemma_scan_well_spaced(Seq::empty(), s);
    if raw.len() > 0 && raw.last() == SPACE && raw.len() > 1 {
        assert(raw[raw.len() - 2] != SPACE);
    }
}

/// The collapsed text never holds two spaces in a row, nor a tab.
pub proof fn lemma_no_double_space(s: Seq<u8>)
    ensures
        forall|i: int|
            0 <= i < collapsed(s).len() - 1 ==> !(#[trigger] collapsed(s)[i] == SPACE
                && collapsed(s)[i + 1] == SPACE),
        forall|i: int| 0 <= i < collapsed(s).len() ==> #[trigger] collapsed(s)[i] != TAB,
{
    lemma_collapsed_shape(s);
}

/// The collapsed text neither starts nor ends with a space.
pub proof fn lemma_no_edge_space(s: Seq<u8>)
    ensures
        collapsed(s).len() > 0 ==> collapsed(s)[0] != SPACE && collapsed(s).last() != SPACE,
{
    lemma_collapsed_shape(s);
}

proof fn lemma_scan_len(out: Seq<u8>, s: Seq<u8>)
    ensures
        scan(out, s).len() <= out.len() + s.len(),
    decreases s.len(),
{
    if s.len() > 0 {
        lemma_scan_len(step(out, s[0]), s.drop_first());
    }
}

/// Collapsing never lengthens a text.
pub proof fn lemma_collapsed_len(s: Seq<u8>)
    ensures
        collapsed(s).len() <= s.len(),
{
    lemma_scan_len(Seq::empty(), s);
}

proof fn lemma_without_blanks_push(out: Seq<u8>, b: u8)
    ensures
        without_blanks(out.push(b)) == if is_blank(b) {
            without_blanks(out)
        } else {
            without_blanks(out).push(b)
        },
{
    assert(out.push(b).drop_last() =~= out);
    reveal_with_fuel(Seq::filter, 1);
}

proof fn lemma_scan_without_blanks(out: Seq<u8>, s: Seq<u8>)
    ensures
        without_blanks(scan(out, s)) == without_blanks(out) + without_blanks(s),
    decreases s.len(),
{
    if s.len() == 0 {
        assert(without_blanks(s) =~= Seq::<u8>::empty());
        assert(without_blanks(out) + without_blanks(s) =~= without_blanks(out));
    } else {
        let b = s[0];
        let rest = s.drop_first();
        lemma_scan_without_blanks(step(out, b), rest);
        lemma_without_blanks_push(out, b);
        lemma_without_blanks_push(out, SPACE);
        lemma_without_blanks_push(Seq::empty(), b);
        assert(Seq::<u8>::empty().push(b) =~= seq![b]);
        assert(without_blanks(Seq::<u8>::empty()) =~= Seq::<u8>::empty());
        assert(s =~= seq![b] + rest);
        Seq::filter_distributes_over_add(seq![b], rest, |x: u8| !is_blank(x));
        if is_blank(b) {
            assert(without_blanks(seq![b]) =~= Seq::<u8>::empty());
            assert(without_blanks(s) =~= without_blanks(rest));
        } else {
            assert(without_blanks(seq![b]) =~= seq![b]);
            assert(without_blanks(out).push(b) + without_blanks(rest) =~= without_blanks(out)
                + without_blanks(s));
        }
    }
}

/// Leaving out every space and tab, the collapsed text and the input hold
/// the same bytes in the same order.
pub proof fn lemma_keeps_other_bytes(s: Seq<u8>)
    ensures
        without_blanks(collapsed(s)) == without_blanks(s),
{
    let raw = scan(Seq::empty(), s);
    lemma_scan_without_blanks(Seq::empty(), s);
    assert(without_blanks(Seq::<u8>::empty()) =~= Seq::<u8>::empty());
    assert(Seq::<u8>::empty() + without_blanks(s) =~= without_blanks(s));
    if raw.len() > 0 && raw.last() == SPACE {
        lemma_without_blanks_push(raw.drop_last(), SPACE);
        assert(raw.drop_last().push(SPACE) =~= raw);
    }
}

proof fn lemma_all_blank_filters_to_empty(s: Seq<u8>)
    requires
        forall|i: int| 0 <= i < s.len() ==> is_blank(#[trigger] s[i]),
    ensures
        without_blanks(s).len() == 0,
    decreases s.len(),
{
    if s.len() > 0 {
        lemma_all_blank_filters_to_empty(s.drop_last());
        lemma_without_blanks_push(s.drop_last(), s.last());
        assert(s.drop_last().push(s.last()) =~= s);
    } else {
        assert(without_blanks(s) =~= Seq::<u8>::empty());
    }
}

/// A text of spaces and tabs alone, the empty text included, collapses to
/// the empty text.
pub proof fn lemma_blank_input_gives_empty(s: Seq<u8>)
    requires
        forall|i: int| 0 <= i < s.len() ==> is_blank(#[trigger] s[i]),
    ensures
        collapsed(s).len() == 0,
{
    let c = collapsed(s);
    lemma_keeps_other_bytes(s);
    lemma_collapsed_shape(s);
    lemma_all_blank_filters_to_empty(s);
    if c.len() > 0 {
        c.lemma_filter_contains(|b: u8| !is_blank(b), 0);
    }
}

/// A well-spaced text is read back as it stands.
proof fn lemma_scan_well_spaced_prefix(t: Seq<u8>, k: int)
    requires
        well_spaced(t),
        0 <= k <= t.len(),
    ensures
        scan(Seq::empty(), t.take(k)) == t.take(k),
    decreases k,
{
    if k == 0 {
        assert(t.take(0) =~= Seq::<u8>::empty());
    } else {
        lemma_scan_well_spaced_prefix(t, k - 1);
        lemma_scan_push(Seq::empty(), t.take(k - 1), t[k - 1]);
        assert(t.take(k - 1).push(t[k - 1]) =~= t.take(k));
        if is_blank(t[k - 1]) {
            assert(t[k - 1] == SPACE);
            assert(k - 1 > 0);
            assert(t.take(k - 1).last() == t[k - 2]);
            assert(!separator_pending(t.take(k - 1)));
        }
    }
}

/// Collapsing twice gives what collapsing once gives.
pub proof fn lemma_collapse_idempotent(s: Seq<u8>)
    ensures
        collapsed(collapsed(s)) == collapsed(s),
{
    let t = collapsed(s);
    lemma_collapsed_shape(s);
    lemma_scan_well_spaced_prefix(t, t.len() as int);
    assert(t.take(t.len() as int) =~= t);
}

/// `s` with every tab made a space.
pub open spec fn tabs_as_spaces(s: Seq<u8>) -> Seq<u8> {
    s.map_values(|b: u8| if b == TAB { SPACE } else { b })
}

proof fn lemma_scan_tabs_as_spaces(out: Seq<u8>, s: Seq<u8>)
    ensures
        scan(out, tabs_as_spaces(s)) == scan(out, s),
    decreases s.len(),
{
    if s.len() > 0 {
        let t = tabs_as_spaces(s);
        assert(t.drop_first() =~= tabs_as_spaces(s.drop_first()));
        assert(step(out, t[0]) == step(out, s[0]));
        lemma_scan_tabs_as_spaces(step(out, s[0]), s.drop_first());
    }
}

/// Tabs and spaces trigger collapsing alike: making every tab a space does
/// not change the result.
pub proof fn lemma_tab_is_space(s: Seq<u8>)
    ensures
        collapsed(tabs_as_spaces(s)) == collapsed(s),
{
    lemma_scan_tabs_as_spaces(Seq::empty(), s);
}

/// Reading `s` in pieces of `w` bytes and the rest one at a time, as the
/// bulk pass and the scalar pass do, starting from `out`.
pub open spec fn scan_chunked(out: Seq<u8>, s: Seq<u8>, w: nat) -> Seq<u8>
    decreases s.len(),
{
    if w == 0 || s.len() < w {
        scan(out, s)
    } else {
        scan_chunked(scan(out, s.take(w as int)), s.skip(w as int), w)
    }
}

proof fn lemma_scan_chunked(out: Seq<u8>, s: Seq<u8>, w: nat)
    ensures
        scan_chunked(out, s, w) == scan(out, s),
    decreases s.len(),
{
    if w > 0 && s.len() >= w {
        lemma_scan_chunked(scan(out, s.take(w as int)), s.skip(w as int), w);
        lemma_scan_concat(out, s.take(w as int), s.skip(w as int));
        assert(s.take(w as int) + s.skip(w as int) =~= s);
    }
}

/// The result does not depend on the width of the bulk pass, runs of blanks
/// that straddle a chunk boundary included.
pub proof fn lemma_width_invariance(s: Seq<u8>, w: nat)
    ensures
        trim_end(scan_chunked(Seq::empty(), s, w)) == collapsed(s),
{
    lemma_scan_chunked(Seq::empty(), s, w);
}

} // verus!
