//! Retention of the rolling segment buffer: how many segments to keep and
//! which ones to delete.

use vstd::multiset::Multiset;
use vstd::prelude::*;

use crate::text::{lemma_lex_total, lemma_lex_transitive, lex_le, str_le};

verus! {

/// `ceil(a / b)` for a positive divisor.
pub open spec fn ceil_div(a: int, b: int) -> int
    recommends
        b > 0,
{
    (a + b - 1) / b
}

/// Number of segment files to keep so that `max_replay_seconds` of history
/// stays available: enough whole segments to cover the window (a zero
/// segment length counts as one second), plus two spare segments.
pub open spec fn spec_keep_segment_count(max_replay_seconds: u32, segment_seconds: u32) -> int {
    let seg = if segment_seconds == 0 { 1int } else { segment_seconds as int };
    ceil_div(max_replay_seconds as int, seg) + 2
}

/// `a.div_ceil(b)` on `u32`.
pub fn div_ceil_u32(a: u32, b: u32) -> (r: u32)
    requires
        b > 0,
    ensures
        r == ceil_div(a as int, b as int),
{
    let q = a / b;
    let rem = a % b;
    proof {
        vstd::arithmetic::div_mod::lemma_fundamental_div_mod(a as int, b as int);
        assert(a as int == b as int * q as int + rem as int);
        vstd::arithmetic::mul::lemma_mul_is_commutative(b as int, q as int);
    }
    if rem == 0 {
        proof {
            vstd::arithmetic::div_mod::lemma_fundamental_div_mod_converse(
                a as int + b as int - 1,
                b as int,
                q as int,
                b as int - 1,
            );
        }
        q
    } else {
        proof {
            assert((q as int + 1) * b as int == q as int * b as int + b as int) by (nonlinear_arith);
            vstd::arithmetic::div_mod::lemma_fundamental_div_mod_converse(
                a as int + b as int - 1,
                b as int,
                q as int + 1,
                rem as int - 1,
            );
            assert(q as int * b as int <= a as int);
            if q as int + 1 > u32::MAX {
                assert(q as int * b as int >= q as int) by (nonlinear_arith)
                    requires
                        b >= 1,
                        q >= 0,
                ;
            }
        }
        q + 1
    }
}

/// How many segment files to keep for a replay window of
/// `max_replay_seconds`, cut in segments of `segment_seconds`.
pub fn keep_segment_count(max_replay_seconds: u32, segment_seconds: u32) -> (r: usize)
    requires
        spec_keep_segment_count(max_replay_seconds, segment_seconds) <= usize::MAX,
    ensures
        r == spec_keep_segment_count(max_replay_seconds, segment_seconds),
{
    let seg = if segment_seconds == 0 { 1 } else { segment_seconds };
    let c = div_ceil_u32(max_replay_seconds, seg);
    c as usize + 2
}

/// Whether the keep count of a replay window fits in `usize`, as
/// `keep_segment_count` needs.
pub fn keep_count_fits(max_replay_seconds: u32, segment_seconds: u32) -> (r: bool)
    ensures
        r == (spec_keep_segment_count(max_replay_seconds, segment_seconds) <= usize::MAX),
{
    let seg = if segment_seconds == 0 { 1 } else { segment_seconds };
    let c = div_ceil_u32(max_replay_seconds, seg) as u64 + 2;
    c <= usize::MAX as u64
}


/// A type whose values can be put in order, as segment names and
/// timestamps are: `key_le` is a total relation that `leq` decides.
pub trait SortKey: Sized {
    /// `self` sorts no later than `other`.
    spec fn key_le(self, other: Self) -> bool;

    /// Any two values are ordered one way or the other.
    proof fn lemma_total(a: Self, b: Self)
        ensures
            a.key_le(b) || b.key_le(a),
    ;

    /// Order is transitive.
    proof fn lemma_transitive(a: Self, b: Self, c: Self)
        requires
            a.key_le(b),
            b.key_le(c),
        ensures
            a.key_le(c),
    ;

    /// Decides `key_le`.
    fn leq(&self, other: &Self) -> (r: bool)
        ensures
            r == self.key_le(*other),
    ;
}

impl SortKey for i32 {
    open spec fn key_le(self, other: Self) -> bool {
        self <= other
    }

    proof fn lemma_total(a: Self, b: Self) {
    }

    proof fn lemma_transitive(a: Self, b: Self, c: Self) {
    }

    fn leq(&self, other: &Self) -> (r: bool) {
        *self <= *other
    }
}

impl SortKey for u32 {
    open spec fn key_le(self, other: Self) -> bool {
        self <= other
    }

    proof fn lemma_total(a: Self, b: Self) {
    }

    proof fn lemma_transitive(a: Self, b: Self, c: Self) {
    }

    fn leq(&self, other: &Self) -> (r: bool) {
        *self <= *other
    }
}

impl SortKey for u64 {
    open spec fn key_le(self, other: Self) -> bool {
        self <= other
    }

    proof fn lemma_total(a: Self, b: Self) {
    }

    proof fn lemma_transitive(a: Self, b: Self, c: Self) {
    }

    fn leq(&self, other: &Self) -> (r: bool) {
        *self <= *other
    }
}

impl<'a> SortKey for &'a str {
    open spec fn key_le(self, other: Self) -> bool {
        lex_le(self@, other@)
    }

    proof fn lemma_total(a: Self, b: Self) {
        lemma_lex_total(a@, b@);
    }

    proof fn lemma_transitive(a: Self, b: Self, c: Self) {
        lemma_lex_transitive(a@, b@, c@);
    }

    fn leq(&self, other: &Self) -> (r: bool) {
        str_le(*self, *other)
    }
}

impl SortKey for String {
    open spec fn key_le(self, other: Self) -> bool {
        lex_le(self@, other@)
    }

    proof fn lemma_total(a: Self, b: Self) {
        lemma_lex_total(a@, b@);
    }

    proof fn lemma_transitive(a: Self, b: Self, c: Self) {
        lemma_lex_transitive(a@, b@, c@);
    }

    fn leq(&self, other: &Self) -> (r: bool) {
        str_le(self.as_str(), other.as_str())
    }
}

/// A buffered segment, ordered by its sort key (its timestamped name).
#[derive(Debug, Clone, PartialEq, Eq)]
pub struct SegmentDescriptor {
    pub sort_key: String,
}

impl SortKey for SegmentDescriptor {
    open spec fn key_le(self, other: Self) -> bool {
        lex_le(self.sort_key@, other.sort_key@)
    }

    proof fn lemma_total(a: Self, b: Self) {
        lemma_lex_total(a.sort_key@, b.sort_key@);
    }

    proof fn lemma_transitive(a: Self, b: Self, c: Self) {
        lemma_lex_transitive(a.sort_key@, b.sort_key@, c.sort_key@);
    }

    fn leq(&self, other: &Self) -> (r: bool) {
        str_le(self.sort_key.as_str(), other.sort_key.as_str())
    }
}

/// Every earlier element sorts no later than every later one.
pub open spec fn is_sorted<T: SortKey>(s: Seq<T>) -> bool {
    forall|i: int, j: int| #![trigger s[i], s[j]] 0 <= i < j < s.len() ==> s[i].key_le(s[j])
}

/// `sorted` is `items` put in order.
pub open spec fn is_sorted_permutation<T: SortKey>(sorted: Seq<T>, items: Seq<T>) -> bool {
    &&& is_sorted(sorted)
    &&& sorted.to_multiset() == items.to_multiset()
}

/// How many of `len` items go when `keep` of them stay.
pub open spec fn delete_count(len: int, keep: int) -> int {
    if len <= keep { 0 } else { len - keep }
}

/// `idx` maps each position of `sorted` to a distinct position of
/// `items` that holds the same element, and two elements whose keys are
/// equal keep the order in which `items` holds them.
pub open spec fn is_stable_index<T: SortKey>(idx: Seq<int>, sorted: Seq<T>, items: Seq<T>) -> bool {
    &&& idx.len() == sorted.len()
    &&& forall|k: int| 0 <= k < idx.len() ==> 0 <= #[trigger] idx[k] < items.len() && sorted[k] == items[idx[k]]
    &&& forall|a: int, b: int| #![trigger idx[a], idx[b]] 0 <= a < b < idx.len() ==> idx[a] != idx[b]
    &&& forall|a: int, b: int|
        #![trigger sorted[a], sorted[b]]
        0 <= a < b < sorted.len() && sorted[b].key_le(sorted[a]) ==> idx[a] < idx[b]
}

/// `sorted` holds the elements of `items` with equal keys in the order of
/// `items` (a stable order).
pub open spec fn is_stable_order<T: SortKey>(sorted: Seq<T>, items: Seq<T>) -> bool {
    exists|idx: Seq<int>| #[trigger] is_stable_index(idx, sorted, items)
}

/// Inserts `x` into the sorted `out` after every element that sorts no
/// later than it, and gives the position it took.
fn insert_sorted<T: SortKey>(out: &mut Vec<T>, x: T) -> (pos: usize)
    requires
        is_sorted(old(out)@),
    ensures
        is_sorted(final(out)@),
        final(out)@.to_multiset() == old(out)@.to_multiset().insert(x),
        pos <= old(out)@.len(),
        final(out)@ == old(out)@.insert(pos as int, x),
        forall|i: int| 0 <= i < pos ==> #[trigger] old(out)@[i].key_le(x),
        forall|j: int| pos <= j < old(out)@.len() ==> !(#[trigger] old(out)@[j]).key_le(x),
{
    broadcast use vstd::seq_lib::group_to_multiset_ensures;

    let mut pos: usize = 0;
    while pos < out.len()
        invariant
            pos <= out.len(),
            forall|i: int| 0 <= i < pos ==> #[trigger] out@[i].key_le(x),
        ensures
            pos <= out.len(),
            forall|i: int| 0 <= i < pos ==> #[trigger] out@[i].key_le(x),
            pos < out.len() ==> !out@[pos as int].key_le(x),
        decreases out.len() - pos,
    {
        if !out[pos].leq(&x) {
            break;
        }
        pos += 1;
    }
    let ghost before = out@;
    assert forall|j: int| pos <= j < before.len() implies x.key_le(#[trigger] before[j]) by {
        if pos < before.len() {
            assert(!before[pos as int].key_le(x));
            T::lemma_total(before[pos as int], x);
            if j > pos {
                assert(before[pos as int].key_le(before[j]));
                T::lemma_transitive(x, before[pos as int], before[j]);
            }
        }
    }
    assert forall|j: int| pos <= j < before.len() implies !(#[trigger] before[j]).key_le(x) by {
        if j > pos && before[j].key_le(x) {
            assert(before[pos as int].key_le(before[j]));
            T::lemma_transitive(before[pos as int], before[j], x);
        }
    }
    out.insert(pos, x);
    assert forall|i: int, j: int| 0 <= i < j < out@.len() implies #[trigger] out@[i].key_le(
        #[trigger] out@[j],
    ) by {
        if j < pos {
            assert(before[i] == out@[i] && before[j] == out@[j]);
        } else if j == pos {
        } else if i < pos {
            assert(out@[j] == before[j - 1]);
            T::lemma_transitive(out@[i], x, out@[j]);
        } else if i == pos {
            assert(out@[j] == before[j - 1]);
        } else {
            assert(out@[i] == before[i - 1] && out@[j] == before[j - 1]);
        }
    }
    pos
}


/// `items` put in order; items with equal keys keep their order (a stable
/// sort, as `slice::sort` is).
pub fn sort_items<T: SortKey>(items: Vec<T>) -> (sorted: Vec<T>)
    ensures
        is_sorted_permutation(sorted@, items@),
        is_stable_order(sorted@, items@),
        sorted@.len() == items@.len(),
{
    broadcast use vstd::seq_lib::group_to_multiset_ensures;

    broadcast use vstd::multiset::group_multiset_axioms;

    let ghost original = items@;
    let mut rest = items;
    let mut out: Vec<T> = Vec::new();
    let ghost mut idx: Seq<int> = Seq::empty();
    assert(out@.to_multiset() =~= Multiset::empty());
    assert(original.skip(0) =~= original);
    while rest.len() > 0
        invariant
            is_sorted(out@),
            out@.to_multiset().add(rest@.to_multiset()) == original.to_multiset(),
            out@.len() + rest@.len() == original.len(),
            rest@ == original.skip(out@.len() as int),
            is_stable_index(idx, out@, original),
            forall|k: int| 0 <= k < idx.len() ==> #[trigger] idx[k] < out@.len(),
        decreases rest.len(),
    {
        let ghost before = rest@;
        let ghost m = out@.len() as int;
        let ghost old_out = out@;
        let x = rest.remove(0);
        assert(before[0] == x);
        assert(x == original[m]);
        assert(before.contains(x));
        proof {
            vstd::seq_lib::to_multiset_contains(before, x);
            vstd::seq_lib::to_multiset_remove(before, 0);
        }
        assert(rest@ == before.remove(0));
        assert(rest@ =~= original.skip(m + 1));
        assert(rest@.to_multiset() == before.to_multiset().remove(x));
        let pos = insert_sorted(&mut out, x);
        proof {
            let old_idx = idx;
            idx = old_idx.insert(pos as int, m);
            let o = out@;
            assert forall|k: int| 0 <= k < idx.len() implies 0 <= #[trigger] idx[k] < original.len()
                && o[k] == original[idx[k]] && idx[k] < o.len() by {
                if k < pos {
                    assert(idx[k] == old_idx[k] && o[k] == old_out[k]);
                } else if k > pos {
                    assert(idx[k] == old_idx[k - 1] && o[k] == old_out[k - 1]);
                }
            }
            assert forall|a: int, b: int| 0 <= a < b < idx.len() implies #[trigger] idx[a]
                != #[trigger] idx[b] by {
                if b < pos {
                    assert(idx[a] == old_idx[a] && idx[b] == old_idx[b]);
                } else if b == pos {
                    assert(idx[a] == old_idx[a]);
                } else if a < pos {
                    assert(idx[a] == old_idx[a] && idx[b] == old_idx[b - 1]);
                } else if a == pos {
                    assert(idx[b] == old_idx[b - 1]);
                } else {
                    assert(idx[a] == old_idx[a - 1] && idx[b] == old_idx[b - 1]);
                }
            }
            assert forall|a: int, b: int|
                0 <= a < b < o.len() && (#[trigger] o[b]).key_le(#[trigger] o[a]) implies idx[a]
                < idx[b] by {
                if b < pos {
                    assert(idx[a] == old_idx[a] && idx[b] == old_idx[b]);
                    assert(o[a] == old_out[a] && o[b] == old_out[b]);
                } else if b == pos {
                    assert(idx[a] == old_idx[a]);
                } else if a < pos {
                    assert(idx[a] == old_idx[a] && idx[b] == old_idx[b - 1]);
                    assert(o[a] == old_out[a] && o[b] == old_out[b - 1]);
                } else if a == pos {
                    assert(o[b] == old_out[b - 1]);
                    assert(!old_out[b - 1].key_le(x));
                } else {
                    assert(idx[a] == old_idx[a - 1] && idx[b] == old_idx[b - 1]);
                    assert(o[a] == old_out[a - 1] && o[b] == old_out[b - 1]);
                }
            }
            assert(is_stable_index(idx, out@, original));
        }
        assert(out@.to_multiset().add(rest@.to_multiset()) =~= original.to_multiset());
    }
    assert(rest@.to_multiset() =~= Multiset::empty());
    assert(out@.to_multiset() =~= original.to_multiset());
    assert(is_stable_order(out@, original));
    out
}

/// Chooses the items to delete so that the `keep` items that sort last
/// remain: when there are more than `keep` items, the `len - keep` that
/// sort first, in order, items with equal keys in their given order;
/// otherwise none.
pub fn files_to_delete<T: SortKey>(items: Vec<T>, keep: usize) -> (doomed: Vec<T>)
    ensures
        doomed@.len() == delete_count(items@.len() as int, keep as int),
        exists|sorted: Seq<T>|
            #![trigger is_sorted_permutation(sorted, items@)]
            is_sorted_permutation(sorted, items@) && is_stable_order(sorted, items@) && doomed@
                == sorted.take(doomed@.len() as int),
{
    if items.len() <= keep {
        let empty: Vec<T> = Vec::new();
        let sorted = sort_items(items);
        assert(empty@ =~= sorted@.take(0));
        return empty;
    }
    let mut sorted = sort_items(items);
    let count = sorted.len() - keep;
    let ghost full = sorted@;
    sorted.truncate(count);
    assert(sorted@ =~= full.take(count as int));
    sorted
}


/// The segments kept cover the replay window with whole segments, two to
/// spare, and one segment fewer before the spares would not cover it.
pub proof fn law_keep_covers_window(max_replay_seconds: u32, segment_seconds: u32)
    requires
        segment_seconds >= 1,
    ensures
        (spec_keep_segment_count(max_replay_seconds, segment_seconds) - 2) * segment_seconds
            >= max_replay_seconds,
        (spec_keep_segment_count(max_replay_seconds, segment_seconds) - 3) * segment_seconds
            < max_replay_seconds,
{
    let m = max_replay_seconds as int;
    let b = segment_seconds as int;
    let q = (m + b - 1) / b;
    vstd::arithmetic::div_mod::lemma_fundamental_div_mod(m + b - 1, b);
    let r = (m + b - 1) % b;
    assert(m + b - 1 == b * q + r);
    assert(0 <= r < b);
    assert(q * b == b * q) by (nonlinear_arith);
    assert((q - 1) * b == q * b - b) by (nonlinear_arith);
}

/// A longer window never keeps fewer segments.
pub proof fn law_keep_grows_with_window(a: u32, b: u32, segment_seconds: u32)
    requires
        a <= b,
    ensures
        spec_keep_segment_count(a, segment_seconds) <= spec_keep_segment_count(b, segment_seconds),
{
    let seg = if segment_seconds == 0 { 1int } else { segment_seconds as int };
    vstd::arithmetic::div_mod::lemma_div_is_ordered(a + seg - 1, b + seg - 1, seg);
}

/// What `files_to_delete` picks sorts no later than everything it leaves:
/// for any sorted order of the items, the first `n` are ordered before the
/// rest, and together they are the items.
pub proof fn law_deleted_sort_before_kept<T: SortKey>(items: Seq<T>, sorted: Seq<T>, n: int)
    requires
        is_sorted_permutation(sorted, items),
        0 <= n <= sorted.len(),
    ensures
        forall|i: int, j: int|
            #![trigger sorted[i], sorted[j]]
            0 <= i < n <= j < sorted.len() ==> sorted[i].key_le(sorted[j]),
        (sorted.take(n) + sorted.skip(n)).to_multiset() == items.to_multiset(),
{
    assert(sorted.take(n) + sorted.skip(n) =~= sorted);
}

} // verus!
