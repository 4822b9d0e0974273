//! The order in which devices are listed: by name, ties by insertion.

use crate::device::{views, Device, DeviceView};
use vstd::prelude::*;
use vstd::std_specs::iter::IteratorSpec;

verus! {

/// Whether `a` comes strictly before `b` when names are ordered character by
/// character, a proper prefix first.
pub open spec fn name_before(a: Seq<char>, b: Seq<char>) -> bool
    decreases a.len(),
{
    if b.len() == 0 {
        false
    } else if a.len() == 0 {
        true
    } else if a[0] != b[0] {
        a[0] < b[0]
    } else {
        name_before(a.drop_first(), b.drop_first())
    }
}

/// Tells whether `a` is ordered strictly before `b`.
pub fn comes_before(a: &str, b: &str) -> (before: bool)
    ensures
        before == name_before(a@, b@),
{
    broadcast use vstd::string::group_string_axioms;

    let mut rest_a = a.chars();
    let mut rest_b = b.chars();
    loop
        invariant
            rest_a.obeys_prophetic_iter_laws(),
            rest_b.obeys_prophetic_iter_laws(),
            rest_b.decrease() is Some,
            name_before(a@, b@) == name_before(rest_a.remaining(), rest_b.remaining()),
        decreases rest_b.decrease().unwrap(),
    {
        let ghost before_a = rest_a.remaining();
        let ghost before_b = rest_b.remaining();
        let next_b = rest_b.next();
        match next_b {
            None => {
                return false;
            },
            Some(cb) => {
                let next_a = rest_a.next();
                match next_a {
                    None => {
                        return true;
                    },
                    Some(ca) => {
                        if ca != cb {
                            return ca < cb;
                        }
                    },
                }
            },
        }
    }
}

/// Whether the name at index `a` is listed before the one at index `b`: by
/// name, and among equal names by index.
pub open spec fn precedes(names: Seq<Seq<char>>, a: int, b: int) -> bool {
    name_before(names[a], names[b]) || (names[a] == names[b] && a < b)
}

/// Whether `order` arranges all the indices of `names` for display: every
/// index occurs, and each entry is listed before the ones that follow it.
pub open spec fn is_display_order(names: Seq<Seq<char>>, order: Seq<int>) -> bool {
    &&& order.len() == names.len()
    &&& forall|p: int| 0 <= p < order.len() ==> 0 <= #[trigger] order[p] < names.len()
    &&& forall|k: int| 0 <= k < names.len() ==> order.contains(k)
    &&& forall|p: int, q: int|
        0 <= p < q < order.len() ==> precedes(names, #[trigger] order[p], #[trigger] order[q])
}

/// The names of a run of devices, in order.
pub open spec fn names_of(devices: Seq<DeviceView>) -> Seq<Seq<char>> {
    devices.map_values(|d: DeviceView| d.name)
}

/// A run of indices as mathematical integers.
pub open spec fn positions(order: Seq<usize>) -> Seq<int> {
    order.map_values(|k: usize| k as int)
}

/// Whether `order` arranges the indices from `lo` up to `hi` for display.
pub open spec fn arranges_range(names: Seq<Seq<char>>, order: Seq<int>, lo: int, hi: int) -> bool {
    &&& order.len() == hi - lo
    &&& forall|p: int| 0 <= p < order.len() ==> lo <= #[trigger] order[p] < hi
    &&& forall|k: int| lo <= k < hi ==> order.contains(k)
    &&& forall|p: int, q: int|
        0 <= p < q < order.len() ==> precedes(names, #[trigger] order[p], #[trigger] order[q])
}

/// Tells whether the device at `a` is listed before the device at `b`.
fn listed_before(devices: &Vec<Device>, a: usize, b: usize) -> (before: bool)
    requires
        a < devices.len(),
        b < devices.len(),
    ensures
        before == precedes(names_of(views(devices@)), a as int, b as int),
{
    let name_a = devices[a].name.as_str();
    let name_b = devices[b].name.as_str();
    proof {
        lemma_name_order_total(name_a@, name_b@);
        lemma_name_order_irreflexive(name_a@);
    }
    if comes_before(name_a, name_b) {
        true
    } else if comes_before(name_b, name_a) {
        false
    } else {
        a < b
    }
}

/// Merges the display orders of two neighbouring ranges of indices into the
/// display order of both.
fn merge(devices: &Vec<Device>, left: &Vec<usize>, right: &Vec<usize>, lo: usize, mid: usize, hi: usize) -> (order: Vec<usize>)
    requires
        lo <= mid <= hi <= devices.len(),
        arranges_range(names_of(views(devices@)), positions(left@), lo as int, mid as int),
        arranges_range(names_of(views(devices@)), positions(right@), mid as int, hi as int),
    ensures
        arranges_range(names_of(views(devices@)), positions(order@), lo as int, hi as int),
{
    let ghost names = names_of(views(devices@));
    let ghost first = positions(left@);
    let ghost second = positions(right@);
    let mut order: Vec<usize> = Vec::new();
    let mut i: usize = 0;
    let mut j: usize = 0;
    while i < left.len() || j < right.len()
        invariant
            0 <= i <= left.len(),
            0 <= j <= right.len(),
            lo <= mid <= hi <= devices.len(),
            names == names_of(views(devices@)),
            first == positions(left@),
            second == positions(right@),
            arranges_range(names, first, lo as int, mid as int),
            arranges_range(names, second, mid as int, hi as int),
            order.len() == i + j,
            forall|p: int| 0 <= p < order.len() ==> lo <= #[trigger] positions(order@)[p] < hi,
            forall|p: int| 0 <= p < i ==> positions(order@).contains(#[trigger] first[p]),
            forall|q: int| 0 <= q < j ==> positions(order@).contains(#[trigger] second[q]),
            forall|p: int, q: int|
                0 <= p < q < order.len() ==> precedes(
                    names,
                    #[trigger] positions(order@)[p],
                    #[trigger] positions(order@)[q],
                ),
            forall|p: int, q: int|
                0 <= p < order.len() && i <= q < first.len() ==> precedes(
                    names,
                    #[trigger] positions(order@)[p],
                    #[trigger] first[q],
                ),
            forall|p: int, q: int|
                0 <= p < order.len() && j <= q < second.len() ==> precedes(
                    names,
                    #[trigger] positions(order@)[p],
                    #[trigger] second[q],
                ),
        decreases left.len() - i + right.len() - j,
    {
        let ghost merged = positions(order@);
        let from_left = if i == left.len() {
            false
        } else if j == right.len() {
            true
        } else {
            assert(lo <= first[i as int] < mid);
            assert(mid <= second[j as int] < hi);
            listed_before(devices, left[i], right[j])
        };
        if from_left {
            let next = left[i];
            assert(first[i as int] == next);
            order.push(next);
            proof {
                let now = positions(order@);
                assert(now =~= merged.push(next as int));
                lemma_push_keeps(merged, next as int, first, i as int);
                lemma_push_keeps(merged, next as int, second, j as int);
                assert(now[merged.len() as int] == first[i as int]);
                assert forall|p: int, q: int|
                    0 <= p < now.len() && j <= q < second.len() implies precedes(
                    names,
                    #[trigger] now[p],
                    #[trigger] second[q],
                ) by {
                    if p == merged.len() {
                        if q > j {
                            assert(precedes(names, second[j as int], second[q]));
                            lemma_precedes_transitive(names, next as int, second[j as int], second[q]);
                        }
                    } else {
                        assert(now[p] == merged[p]);
                    }
                }
                assert forall|p: int, q: int|
                    0 <= p < now.len() && i + 1 <= q < first.len() implies precedes(
                    names,
                    #[trigger] now[p],
                    #[trigger] first[q],
                ) by {
                    if p == merged.len() {
                        assert(precedes(names, first[i as int], first[q]));
                    } else {
                        assert(now[p] == merged[p]);
                    }
                }
                assert forall|p: int, q: int| 0 <= p < q < now.len() implies precedes(
                    names,
                    #[trigger] now[p],
                    #[trigger] now[q],
                ) by {
                    assert(now[p] == merged[p]);
                    if q < merged.len() {
                        assert(now[q] == merged[q]);
                    } else {
                        assert(precedes(names, merged[p], first[i as int]));
                    }
                }
            }
            i += 1;
        } else {
            let next = right[j];
            assert(second[j as int] == next);
            order.push(next);
            proof {
                let now = positions(order@);
                assert(now =~= merged.push(next as int));
                lemma_push_keeps(merged, next as int, first, i as int);
                lemma_push_keeps(merged, next as int, second, j as int);
                assert(now[merged.len() as int] == second[j as int]);
                assert forall|p: int, q: int|
                    0 <= p < now.len() && i <= q < first.len() implies precedes(
                    names,
                    #[trigger] now[p],
                    #[trigger] first[q],
                ) by {
                    if p == merged.len() {
                        assert(lo <= first[i as int] < mid);
                        assert(mid <= second[j as int] < hi);
                        lemma_precedes_total(names, first[i as int], next as int);
                        assert(precedes(names, next as int, first[i as int]));
                        if q > i {
                            assert(precedes(names, first[i as int], first[q]));
                            lemma_precedes_transitive(names, next as int, first[i as int], first[q]);
                        }
                    } else {
                        assert(now[p] == merged[p]);
                    }
                }
                assert forall|p: int, q: int|
                    0 <= p < now.len() && j + 1 <= q < second.len() implies precedes(
                    names,
                    #[trigger] now[p],
                    #[trigger] second[q],
                ) by {
                    if p == merged.len() {
                        assert(precedes(names, second[j as int], second[q]));
                    } else {
                        assert(now[p] == merged[p]);
                    }
                }
                assert forall|p: int, q: int| 0 <= p < q < now.len() implies precedes(
                    names,
                    #[trigger] now[p],
                    #[trigger] now[q],
                ) by {
                    assert(now[p] == merged[p]);
                    if q < merged.len() {
                        assert(now[q] == merged[q]);
                    } else {
                        assert(precedes(names, merged[p], second[j as int]));
                    }
                }
            }
            j += 1;
        }
    }
    proof {
        let all = positions(order@);
        assert forall|k: int| lo <= k < hi implies all.contains(k) by {
            if k < mid {
                assert(first.contains(k));
                let p = choose|p: int| 0 <= p < first.len() && first[p] == k;
                assert(all.contains(first[p]));
            } else {
                assert(second.contains(k));
                let q = choose|q: int| 0 <= q < second.len() && second[q] == k;
                assert(all.contains(second[q]));
            }
        }
    }
    order
}

/// What a sequence held of the first `upto` entries of `source`, it still
/// holds after a push.
proof fn lemma_push_keeps(merged: Seq<int>, next: int, source: Seq<int>, upto: int)
    requires
        0 <= upto <= source.len(),
        forall|p: int| 0 <= p < upto ==> merged.contains(#[trigger] source[p]),
    ensures
        forall|p: int| 0 <= p < upto ==> merged.push(next).contains(#[trigger] source[p]),
        merged.push(next).contains(next),
{
    assert forall|p: int| 0 <= p < upto implies merged.push(next).contains(
        #[trigger] source[p],
    ) by {
        let at = choose|at: int| 0 <= at < merged.len() && merged[at] == source[p];
        assert(merged.push(next)[at] == source[p]);
    }
    assert(merged.push(next)[merged.len() as int] == next);
}

/// Arranges the indices from `lo` up to `hi` for display, by merging the
/// arrangements of the two halves.
fn sort_range(devices: &Vec<Device>, lo: usize, hi: usize) -> (order: Vec<usize>)
    requires
        lo <= hi <= devices.len(),
    ensures
        arranges_range(names_of(views(devices@)), positions(order@), lo as int, hi as int),
    decreases hi - lo,
{
    if hi - lo == 0 {
        let order: Vec<usize> = Vec::new();
        assert(positions(order@) =~= Seq::<int>::empty());
        order
    } else if hi - lo == 1 {
        let mut order: Vec<usize> = Vec::new();
        order.push(lo);
        assert(positions(order@)[0] == lo);
        order
    } else {
        let mid = lo + (hi - lo) / 2;
        let left = sort_range(devices, lo, mid);
        let right = sort_range(devices, mid, hi);
        merge(devices, &left, &right, lo, mid, hi)
    }
}

/// Arranges the indices of `devices` for display: by name, and among equal
/// names by position.
pub fn display_order(devices: &Vec<Device>) -> (order: Vec<usize>)
    ensures
        is_display_order(names_of(views(devices@)), positions(order@)),
{
    sort_range(devices, 0, devices.len())
}

/// No name comes before itself.
pub proof fn lemma_name_order_irreflexive(a: Seq<char>)
    ensures
        !name_before(a, a),
    decreases a.len(),
{
    if a.len() > 0 {
        lemma_name_order_irreflexive(a.drop_first());
    }
}

/// Of two different names one comes before the other.
pub proof fn lemma_name_order_total(a: Seq<char>, b: Seq<char>)
    ensures
        name_before(a, b) || a == b || name_before(b, a),
    decreases a.len(),
{
    if a.len() == 0 || b.len() == 0 {
        if a.len() == 0 && b.len() == 0 {
            assert(a =~= b);
        }
    } else if a[0] == b[0] {
        lemma_name_order_total(a.drop_first(), b.drop_first());
        if a.drop_first() == b.drop_first() {
            assert(a.len() == b.len()) by {
                assert(a.drop_first().len() == b.drop_first().len());
            }
            assert forall|i: int| 0 <= i < a.len() implies a[i] == b[i] by {
                if i > 0 {
                    assert(a.drop_first()[i - 1] == a[i]);
                    assert(b.drop_first()[i - 1] == b[i]);
                }
            }
            assert(a =~= b);
        }
    }
}

/// The order of names is transitive.
pub proof fn lemma_name_order_transitive(a: Seq<char>, b: Seq<char>, c: Seq<char>)
    requires
        name_before(a, b),
        name_before(b, c),
    ensures
        name_before(a, c),
    decreases a.len(),
{
    if a.len() > 0 && a[0] == b[0] && b[0] == c[0] {
        lemma_name_order_transitive(a.drop_first(), b.drop_first(), c.drop_first());
    }
}

/// Listing order is transitive.
pub proof fn lemma_precedes_transitive(names: Seq<Seq<char>>, a: int, b: int, c: int)
    requires
        precedes(names, a, b),
        precedes(names, b, c),
    ensures
        precedes(names, a, c),
{
    if name_before(names[a], names[b]) && name_before(names[b], names[c]) {
        lemma_name_order_transitive(names[a], names[b], names[c]);
    }
}

/// Of two different indices one is listed before the other, never both.
pub proof fn lemma_precedes_total(names: Seq<Seq<char>>, a: int, b: int)
    ensures
        a != b ==> (precedes(names, a, b) <==> !precedes(names, b, a)),
        !precedes(names, a, a),
{
    lemma_name_order_irreflexive(names[a]);
    lemma_name_order_total(names[a], names[b]);
    if name_before(names[a], names[b]) && name_before(names[b], names[a]) {
        lemma_name_order_transitive(names[a], names[b], names[a]);
    }
}

/// There is only one display order.
pub proof fn lemma_display_order_unique(names: Seq<Seq<char>>, first: Seq<int>, second: Seq<int>)
    requires
        is_display_order(names, first),
        is_display_order(names, second),
    ensures
        first == second,
{
    assert forall|p: int| 0 <= p < first.len() implies first[p] == second[p] by {
        lemma_same_up_to(names, first, second, p);
    }
    assert(first =~= second);
}

proof fn lemma_same_up_to(names: Seq<Seq<char>>, first: Seq<int>, second: Seq<int>, p: int)
    requires
        is_display_order(names, first),
        is_display_order(names, second),
        0 <= p < first.len(),
    ensures
        first[p] == second[p],
    decreases p,
{
    assert forall|r: int| 0 <= r < p implies first[r] == second[r] by {
        lemma_same_up_to(names, first, second, r);
    }
    let a = first[p];
    let b = second[p];
    if a != b {
        lemma_precedes_total(names, a, b);
        if precedes(names, a, b) {
            lemma_not_later(names, first, second, p);
        } else {
            lemma_not_later(names, second, first, p);
        }
    }
}

/// Where two display orders agree before `p`, the entry of the first at `p`
/// is not listed before the entry of the second at `p`.
proof fn lemma_not_later(names: Seq<Seq<char>>, first: Seq<int>, second: Seq<int>, p: int)
    requires
        is_display_order(names, first),
        is_display_order(names, second),
        0 <= p < first.len(),
        forall|r: int| 0 <= r < p ==> first[r] == second[r],
    ensures
        !precedes(names, first[p], second[p]),
{
    let a = first[p];
    let b = second[p];
    assert(second.contains(a));
    let q = choose|q: int| 0 <= q < second.len() && second[q] == a;
    lemma_precedes_total(names, a, b);
    lemma_precedes_total(names, a, a);
    if q < p {
        assert(first[q] == a);
        assert(precedes(names, first[q], first[p]));
    } else if q > p {
        assert(precedes(names, second[p], second[q]));
    }
}

/// The arrangement of the first `count` indices of `names`, built by putting
/// each index behind the last entry whose name does not come after its own.
pub open spec fn arrangement(names: Seq<Seq<char>>, count: nat) -> Seq<int>
    decreases count,
{
    if count == 0 {
        Seq::empty()
    } else {
        let before = arrangement(names, (count - 1) as nat);
        before.insert(slot(names, before, count - 1, before.len() as int), count - 1)
    }
}

/// Where the index `k` goes among the first `upto` entries of `order`:
/// behind the last of them whose name does not come after its own.
pub open spec fn slot(names: Seq<Seq<char>>, order: Seq<int>, k: int, upto: int) -> int
    decreases upto,
{
    if upto <= 0 {
        0
    } else if name_before(names[k], names[order[upto - 1]]) {
        slot(names, order, k, upto - 1)
    } else {
        upto
    }
}

proof fn lemma_slot(names: Seq<Seq<char>>, order: Seq<int>, k: int, upto: int)
    requires
        0 <= upto <= order.len(),
    ensures
        0 <= slot(names, order, k, upto) <= upto,
        forall|q: int|
            slot(names, order, k, upto) <= q < upto ==> name_before(
                names[k],
                names[#[trigger] order[q]],
            ),
        slot(names, order, k, upto) > 0 ==> !name_before(
            names[k],
            names[order[slot(names, order, k, upto) - 1]],
        ),
    decreases upto,
{
    if upto > 0 && name_before(names[k], names[order[upto - 1]]) {
        lemma_slot(names, order, k, upto - 1);
    }
}

proof fn lemma_arrangement(names: Seq<Seq<char>>, count: nat)
    requires
        count <= names.len(),
    ensures
        arranges_range(names, arrangement(names, count), 0, count as int),
    decreases count,
{
    if count > 0 {
        let k = count - 1;
        let sorted = arrangement(names, k as nat);
        lemma_arrangement(names, k as nat);
        lemma_slot(names, sorted, k, sorted.len() as int);
        let pos = slot(names, sorted, k, sorted.len() as int);
        let next = sorted.insert(pos, k);
        assert forall|j: int| 0 <= j < count implies next.contains(j) by {
            if j == k {
                assert(next[pos] == j);
            } else {
                assert(sorted.contains(j));
                let p = choose|p: int| 0 <= p < sorted.len() && sorted[p] == j;
                if p < pos {
                    assert(next[p] == j);
                } else {
                    assert(next[p + 1] == j);
                }
            }
        }
        assert forall|p: int| 0 <= p < next.len() implies 0 <= #[trigger] next[p] < count by {
            if p < pos {
                assert(next[p] == sorted[p]);
            } else if p > pos {
                assert(next[p] == sorted[p - 1]);
            }
        }
        assert forall|p: int, q: int| 0 <= p < q < next.len() implies precedes(
            names,
            #[trigger] next[p],
            #[trigger] next[q],
        ) by {
            if q == pos {
                let last = sorted[pos - 1];
                assert(0 <= last < k);
                lemma_name_order_total(names[k], names[last]);
                assert(precedes(names, last, k));
                if p < pos - 1 {
                    assert(next[p] == sorted[p]);
                    assert(precedes(names, sorted[p], sorted[pos - 1]));
                    lemma_precedes_transitive(names, next[p], last, k);
                }
            } else if p == pos {
                assert(next[q] == sorted[q - 1]);
            } else {
                let before_p = if p < pos { p } else { p - 1 };
                let before_q = if q < pos { q } else { q - 1 };
                assert(next[p] == sorted[before_p]);
                assert(next[q] == sorted[before_q]);
            }
        }
    }
}

/// Every run of names has a display order.
pub proof fn lemma_display_order_exists(names: Seq<Seq<char>>)
    ensures
        is_display_order(names, arrangement(names, names.len())),
{
    lemma_arrangement(names, names.len());
}

} // verus!
