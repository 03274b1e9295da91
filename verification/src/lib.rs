//! Interactive state machine for arranging and persisting multi-monitor
//! display layouts: workspace store, layout engine, dialog state machine,
//! input dispatch with pointer geometry, drag-to-reorder, and the textual
//! persistence and compositor-config formats.

pub mod app;
pub mod codec;
pub mod db;
pub mod geometry;
pub mod input;
pub mod monitor;
pub mod rotation;
pub mod state;
pub mod text;

use vstd::prelude::*;

verus! {

/// Width in columns of one monitor box in the arrangement panel.
pub const BOX_WIDTH: u16 = 18;

/// Height in rows of one monitor box in the arrangement panel.
pub const BOX_HEIGHT: u16 = 6;

/// Gap in columns between adjacent monitor boxes.
pub const BOX_GAP: u16 = 3;

/// Swapping two adjacent elements keeps the multiset of a sequence.
pub proof fn lemma_swap_adjacent_multiset<T>(s: Seq<T>, i: int)
    requires
        0 <= i,
        i + 1 < s.len(),
    ensures
        s.update(i, s[i + 1]).update(i + 1, s[i]).to_multiset() == s.to_multiset(),
{
    vstd::seq_lib::to_multiset_remove(s, i);
    vstd::seq_lib::to_multiset_insert(s.remove(i), i + 1, s[i]);
    vstd::seq_lib::to_multiset_contains(s, s[i]);
    assert(s.contains(s[i]));
    assert(s.to_multiset().count(s[i]) > 0);
    assert(s.remove(i).insert(i + 1, s[i]).to_multiset() =~= s.to_multiset());
    assert(s.update(i, s[i + 1]).update(i + 1, s[i]) =~= s.remove(i).insert(i + 1, s[i]));
}

/// Swaps the elements at positions `i` and `i + 1`.
pub fn swap_adjacent<T>(v: &mut Vec<T>, i: usize)
    requires
        i + 1 < old(v)@.len(),
    ensures
        final(v)@ == old(v)@.update(i as int, old(v)@[i + 1]).update(i + 1, old(v)@[i as int]),
        final(v)@.len() == old(v)@.len(),
        final(v)@.to_multiset() == old(v)@.to_multiset(),
{
    let ghost orig = v@;
    let n = v.len();
    proof {
        assert(i + 1 < n);
    }
    let x = v.remove(i);
    v.insert(i + 1, x);
    proof {
        assert(v@ =~= orig.update(i as int, orig[i + 1]).update(i + 1, orig[i as int]));
        vstd::seq_lib::to_multiset_remove(orig, i as int);
        vstd::seq_lib::to_multiset_insert(orig.remove(i as int), i + 1, orig[i as int]);
        vstd::seq_lib::to_multiset_contains(orig, orig[i as int]);
        assert(orig.contains(orig[i as int]));
        assert(orig.to_multiset().count(orig[i as int]) > 0);
        assert(orig.remove(i as int).insert(i + 1, orig[i as int]).to_multiset()
            =~= orig.to_multiset());
        assert(v@ == orig.remove(i as int).insert(i + 1, orig[i as int]));
    }
}

} // verus!
