//! Collapsing seen whole: the words of the input, joined by single spaces.
use vstd::prelude::*;

use crate::model::{collapsed, is_blank, lemma_scan_push, scan, SPACE};

verus! {

/// The words of `s`: its maximal runs of bytes that are neither space nor
/// tab, in order.
pub open spec fn words(s: Seq<u8>) -> Seq<Seq<u8>>
    decreases s.len(),
{
    if s.len() == 0 {
        Seq::empty()
    } else {
        let p = s.drop_last();
        let b = s.last();
        if is_blank(b) {
            words(p)
        } else if p.len() == 0 || is_blank(p.last()) {
            words(p).push(seq![b])
        } else {
            let ws = words(p);
            ws.update(ws.len() - 1, ws.last().push(b))
        }
    }
}

/// The words `ws` with one space between each two of them.
pub open spec fn join_words(ws: Seq<Seq<u8>>) -> Seq<u8>
    decreases ws.len(),
{
    if ws.len() == 0 {
        Seq::empty()
    } else if ws.len() == 1 {
        ws[0]
    } else {
        join_words(ws.drop_last()) + seq![SPACE] + ws.last()
    }
}

/// Every word is non-empty and holds no blank.
pub open spec fn proper_words(ws: Seq<Seq<u8>>) -> bool {
    forall|i: int|
        0 <= i < ws.len() ==> (#[trigger] ws[i]).len() > 0 && forall|j: int|
            0 <= j < ws[i].len() ==> !is_blank(#[trigger] ws[i][j])
}

proof fn lemma_words_proper(s: Seq<u8>)
    ensures
        proper_words(words(s)),
        s.len() > 0 && !is_blank(s.last()) ==> words(s).len() > 0 && words(s).last().last()
            == s.last(),
    decreases s.len(),
{
    if s.len() > 0 {
        let p = s.drop_last();
        lemma_words_proper(p);
        let ws = words(p);
        let b = s.last();
        if !is_blank(b) && !(p.len() == 0 || is_blank(p.last())) {
            let nw = ws.update(ws.len() - 1, ws.last().push(b));
            assert forall|i: int| 0 <= i < nw.len() implies (#[trigger] nw[i]).len() > 0
                && forall|j: int| 0 <= j < nw[i].len() ==> !is_blank(#[trigger] nw[i][j]) by {
                if i == ws.len() - 1 {
                    assert forall|j: int| 0 <= j < nw[i].len() implies !is_blank(
                        #[trigger] nw[i][j],
                    ) by {
                        if j < ws[i].len() {
                            assert(nw[i][j] == ws[i][j]);
                        }
                    }
                }
            }
        }
    }
}

proof fn lemma_join_proper(ws: Seq<Seq<u8>>)
    requires
        proper_words(ws),
    ensures
        ws.len() > 0 ==> join_words(ws).len() > 0 && join_words(ws).last() == ws.last().last(),
        ws.len() > 0 ==> !is_blank(join_words(ws).last()),
        ws.len() > 0 ==> join_words(ws)[0] != SPACE,
    decreases ws.len(),
{
    if ws.len() > 1 {
        let ps = ws.drop_last();
        assert(proper_words(ps)) by {
            assert forall|i: int| 0 <= i < ps.len() implies (#[trigger] ps[i]).len() > 0
                && forall|j: int| 0 <= j < ps[i].len() ==> !is_blank(#[trigger] ps[i][j]) by {
                assert(ps[i] == ws[i]);
            }
        }
        lemma_join_proper(ps);
        assert(ws[ws.len() - 1].len() > 0);
        assert(!is_blank(ws[ws.len() - 1][ws[ws.len() - 1].len() - 1]));
    } else if ws.len() == 1 {
        assert(ws[0].len() > 0);
        assert(!is_blank(ws[0][ws[0].len() - 1]));
        assert(!is_blank(ws[0][0]));
    }
}

/// What reading a prefix has built: its words joined, and a separator after
/// them when the prefix ends in a blank.
pub open spec fn joined_prefix(p: Seq<u8>) -> Seq<u8> {
    if words(p).len() > 0 && is_blank(p.last()) {
        join_words(words(p)).push(SPACE)
    } else {
        join_words(words(p))
    }
}

proof fn lemma_scan_is_joined_prefix(s: Seq<u8>)
    ensures
        scan(Seq::empty(), s) == joined_prefix(s),
    decreases s.len(),
{
    if s.len() > 0 {
        let p = s.drop_last();
        let b = s.last();
        lemma_scan_is_joined_prefix(p);
        lemma_scan_push(Seq::empty(), p, b);
        assert(p.push(b) =~= s);
        lemma_words_proper(p);
        lemma_join_proper(words(p));
        let ws = words(p);
        let j = join_words(ws);
        if is_blank(b) {
            assert(words(s) == ws);
        } else if p.len() == 0 || is_blank(p.last()) {
            let nw = ws.push(seq![b]);
            assert(nw.drop_last() =~= ws);
            if ws.len() == 0 {
                assert(join_words(nw) == seq![b]);
                assert(j.push(b) =~= seq![b]);
            } else {
                assert(join_words(nw) == j + seq![SPACE] + seq![b]);
                assert(j.push(SPACE).push(b) =~= j + seq![SPACE] + seq![b]);
            }
        } else {
            let nw = ws.update(ws.len() - 1, ws.last().push(b));
            assert(ws.len() > 0);
            if ws.len() == 1 {
                assert(join_words(nw) == nw[0]);
            } else {
                assert(nw.drop_last() =~= ws.drop_last());
                assert(join_words(nw) == join_words(ws.drop_last()) + seq![SPACE] + ws.last().push(
                    b,
                ));
                assert(join_words(ws.drop_last()) + seq![SPACE] + ws.last().push(b) =~= j.push(b));
            }
        }
    }
}

/// Collapsing a text gives its words, the maximal runs of bytes other than
/// space and tab, in order and with one space between each two.
pub proof fn lemma_collapsed_joins_words(s: Seq<u8>)
    ensures
        collapsed(s) == join_words(words(s)),
{
    lemma_scan_is_joined_prefix(s);
    lemma_words_proper(s);
    lemma_join_proper(words(s));
    let j = join_words(words(s));
    if words(s).len() > 0 && is_blank(s.last()) {
        assert(j.push(SPACE).drop_last() =~= j);
    }
}

} // verus!
