//! The order in which ordered-statistics decoding visits likelihoods. Equal
//! keys keep the order that this quicksort leaves them in, which decides the
//! information basis.
use vstd::prelude::*;

verus! {

/// `s` with the entries at `a` and `b` exchanged.
pub open spec fn swapped(s: Seq<usize>, a: int, b: int) -> Seq<usize> {
    s.update(a, s[b]).update(b, s[a])
}

/// The key of the item at place `p`.
pub open spec fn key(keys: Seq<u32>, order: Seq<usize>, p: int) -> u32 {
    keys[order[p] as int]
}

/// Moves the item at `i` down to its place among the sorted ones from `left`.
pub open spec fn sunk(keys: Seq<u32>, order: Seq<usize>, left: int, i: int) -> Seq<usize>
    decreases i - left,
{
    if i > left && key(keys, order, i - 1) > key(keys, order, i) {
        sunk(keys, swapped(order, i - 1, i), left, i - 1)
    } else {
        order
    }
}

/// Inserts the items at `j..=right`, one after the other.
pub open spec fn inserted(
    keys: Seq<u32>,
    order: Seq<usize>,
    left: int,
    j: int,
    right: int,
) -> Seq<usize>
    decreases right + 1 - j,
{
    if j > right {
        order
    } else {
        inserted(keys, sunk(keys, order, left, j), left, j + 1, right)
    }
}

/// Places the median of the first, middle and last key at `left`, with a key
/// that is no greater behind it and one that is no less at `right`.
pub open spec fn median_placed(keys: Seq<u32>, order: Seq<usize>, left: int, right: int) -> Seq<
    usize,
> {
    let a = swapped(order, (left + right) / 2, left + 1);
    let b = if key(keys, a, left + 1) > key(keys, a, right) {
        swapped(a, left + 1, right)
    } else {
        a
    };
    let c = if key(keys, b, left) > key(keys, b, right) {
        swapped(b, left, right)
    } else {
        b
    };
    if key(keys, c, left + 1) > key(keys, c, left) {
        swapped(c, left + 1, left)
    } else {
        c
    }
}

/// The first place from `i` up whose key is at least `value`.
pub open spec fn scan_up(keys: Seq<u32>, order: Seq<usize>, i: int, value: u32) -> int
    decreases order.len() - i,
{
    if i < order.len() && key(keys, order, i) < value {
        scan_up(keys, order, i + 1, value)
    } else {
        i
    }
}

/// The first place from `j` down whose key is at most `value`.
pub open spec fn scan_down(keys: Seq<u32>, order: Seq<usize>, j: int, value: u32) -> int
    decreases j,
{
    if j > 0 && key(keys, order, j) > value {
        scan_down(keys, order, j - 1, value)
    } else {
        j
    }
}

pub proof fn lemma_scans(keys: Seq<u32>, order: Seq<usize>, i: int, j: int, value: u32)
    ensures
        scan_up(keys, order, i, value) >= i,
        scan_down(keys, order, j, value) <= j,
    decreases order.len() - i, j,
{
    if i < order.len() && key(keys, order, i) < value {
        lemma_scans(keys, order, i + 1, j, value);
    }
    lemma_scan_down(keys, order, j, value);
}

proof fn lemma_scan_down(keys: Seq<u32>, order: Seq<usize>, j: int, value: u32)
    ensures
        scan_down(keys, order, j, value) <= j,
    decreases j,
{
    if j > 0 && key(keys, order, j) > value {
        lemma_scan_down(keys, order, j - 1, value);
    }
}

/// Exchanges misplaced pairs from both ends until the scans cross; gives the
/// order and the two places where they stopped.
pub open spec fn parted(keys: Seq<u32>, order: Seq<usize>, i: int, j: int, value: u32) -> (
    Seq<usize>,
    int,
    int,
)
    decreases j - i + 2,
    when i <= j
{
    let up = scan_up(keys, order, i + 1, value);
    let down = scan_down(keys, order, j - 1, value);
    proof {
        lemma_scans(keys, order, i + 1, j - 1, value);
    }
    if down < up {
        (order, up, down)
    } else {
        parted(keys, swapped(order, up, down), up, down, value)
    }
}

/// The places `left..=right` sorted by key: short runs by insertion, longer ones
/// by partition around the median of three.
pub open spec fn sorted_run(keys: Seq<u32>, order: Seq<usize>, left: int, right: int) -> Seq<usize>
    decreases right - left,
    when left <= right
{
    if right - left < 7 {
        inserted(keys, order, left, left + 1, right)
    } else {
        let placed = median_placed(keys, order, left, right);
        let (moved, up, down) = parted(
            keys,
            placed,
            left + 1,
            right,
            key(keys, placed, left),
        );
        let pivoted = swapped(moved, left, down);
        if left < down <= right && left < up <= right {
            sorted_run(keys, sorted_run(keys, pivoted, left, down - 1), up, right)
        } else {
            pivoted
        }
    }
}

/// Item numbers `0..174` by ascending key.
pub open spec fn ascending(keys: Seq<u32>) -> Seq<usize> {
    sorted_run(keys, Seq::new(174, |i: int| i as usize), 0, 173)
}

/// Every item number below 174 stands in the order exactly once.
pub open spec fn is_order(order: Seq<usize>) -> bool {
    &&& order.len() == 174
    &&& order.no_duplicates()
    &&& forall|p: int| 0 <= p < 174 ==> #[trigger] order[p] < 174
}

spec fn stems(old_order: Seq<usize>, new: Seq<usize>, p: int, q: int, left: int, right: int) -> bool {
    left <= q <= right && new[p] == old_order[q]
}

spec fn stems_inside(old_order: Seq<usize>, new: Seq<usize>, p: int, left: int, right: int) -> bool {
    exists|q: int| stems(old_order, new, p, q, left, right)
}

/// `new` rearranges the places `left..=right` of `old` and no others.
spec fn rearranged(old_order: Seq<usize>, new: Seq<usize>, left: int, right: int) -> bool {
    &&& new.len() == old_order.len()
    &&& forall|p: int|
        0 <= p < new.len() && !(left <= p <= right) ==> #[trigger] new[p] == old_order[p]
    &&& forall|p: int|
        left <= p <= right ==> #[trigger] stems_inside(old_order, new, p, left, right)
}

proof fn lemma_rearranged_refl(order: Seq<usize>, left: int, right: int)
    ensures
        rearranged(order, order, left, right),
{
    assert forall|p: int| left <= p <= right implies #[trigger] stems_inside(
        order,
        order,
        p,
        left,
        right,
    ) by {
        assert(stems(order, order, p, p, left, right));
    }
}

proof fn lemma_rearranged_twice(
    a: Seq<usize>,
    b: Seq<usize>,
    c: Seq<usize>,
    left: int,
    right: int,
)
    requires
        rearranged(a, b, left, right),
        rearranged(b, c, left, right),
    ensures
        rearranged(a, c, left, right),
{
    assert forall|p: int| left <= p <= right implies #[trigger] stems_inside(
        a,
        c,
        p,
        left,
        right,
    ) by {
        assert(stems_inside(b, c, p, left, right));
        let q = choose|q: int| stems(b, c, p, q, left, right);
        assert(stems_inside(a, b, q, left, right));
        let t = choose|t: int| stems(a, b, q, t, left, right);
        assert(stems(a, c, p, t, left, right));
    }
}

proof fn lemma_swap(order: Seq<usize>, a: int, b: int, left: int, right: int)
    requires
        is_order(order),
        0 <= left <= a <= right < 174,
        left <= b <= right,
    ensures
        is_order(swapped(order, a, b)),
        rearranged(order, swapped(order, a, b), left, right),
{
    let new = swapped(order, a, b);
    assert forall|p: int| left <= p <= right implies #[trigger] stems_inside(
        order,
        new,
        p,
        left,
        right,
    ) by {
        let q = if p == a { b } else if p == b { a } else { p };
        assert(stems(order, new, p, q, left, right));
    }
}

fn swap(order: &mut Vec<usize>, a: usize, b: usize)
    requires
        a < old(order).len(),
        b < old(order).len(),
    ensures
        final(order)@ == swapped(old(order)@, a as int, b as int),
{
    let first: usize = order[a];
    let second: usize = order[b];
    order[a] = second;
    order[b] = first;
}

spec fn ascends(keys: Seq<u32>, order: Seq<usize>, left: int, right: int) -> bool {
    forall|p: int, q: int|
        left <= p <= q <= right ==> #[trigger] key(keys, order, p) <= #[trigger] key(keys, order, q)
}

fn sink(keys: &[u32; 174], order: &mut Vec<usize>, left: usize, from: usize)
    requires
        is_order(old(order)@),
        left <= from < 174,
        ascends(keys@, old(order)@, left as int, from - 1),
    ensures
        final(order)@ == sunk(keys@, old(order)@, left as int, from as int),
        is_order(final(order)@),
        rearranged(old(order)@, final(order)@, left as int, from as int),
        ascends(keys@, final(order)@, left as int, from as int),
{
    let mut i: usize = from;
    proof {
        lemma_rearranged_refl(order@, left as int, from as int);
    }
    while i > left && keys[order[i - 1]] > keys[order[i]]
        invariant
            left <= i <= from < 174,
            is_order(order@),
            rearranged(old(order)@, order@, left as int, from as int),
            sunk(keys@, old(order)@, left as int, from as int) == sunk(
                keys@,
                order@,
                left as int,
                i as int,
            ),
            forall|p: int, q: int|
                left <= p <= q <= from && p != i && q != i ==> #[trigger] key(keys@, order@, p)
                    <= #[trigger] key(keys@, order@, q),
            forall|q: int| i < q <= from ==> key(keys@, order@, i as int) < #[trigger] key(
                keys@,
                order@,
                q,
            ),
        decreases i,
    {
        let ghost before = order@;
        swap(order, i - 1, i);
        proof {
            lemma_swap(before, i - 1, i as int, left as int, from as int);
            lemma_rearranged_twice(old(order)@, before, order@, left as int, from as int);
            assert forall|p: int, q: int|
                left <= p <= q <= from && p != i - 1 && q != i - 1 implies #[trigger] key(
                keys@,
                order@,
                p,
            ) <= #[trigger] key(keys@, order@, q) by {
                let p0 = if p == i { i - 1 } else { p };
                let q0 = if q == i { i - 1 } else { q };
                assert(key(keys@, before, p0) <= key(keys@, before, q0));
            }
            assert forall|q: int| i - 1 < q <= from implies key(keys@, order@, i - 1)
                < #[trigger] key(keys@, order@, q) by {
                let q0 = if q == i { i - 1 } else { q };
                assert(key(keys@, before, i as int) < key(keys@, before, q0));
            }
        }
        i = i - 1;
    }
    assert(ascends(keys@, order@, left as int, from as int)) by {
        assert forall|p: int, q: int| left <= p <= q <= from implies #[trigger] key(
            keys@,
            order@,
            p,
        ) <= #[trigger] key(keys@, order@, q) by {
            if p < i && q == i {
                assert(key(keys@, order@, p) <= key(keys@, order@, i - 1));
            }
        }
    }
}

fn insert_run(keys: &[u32; 174], order: &mut Vec<usize>, left: usize, right: usize)
    requires
        is_order(old(order)@),
        left <= right < 174,
    ensures
        final(order)@ == inserted(keys@, old(order)@, left as int, left + 1, right as int),
        is_order(final(order)@),
        rearranged(old(order)@, final(order)@, left as int, right as int),
        ascends(keys@, final(order)@, left as int, right as int),
{
    let mut j: usize = left + 1;
    proof {
        lemma_rearranged_refl(order@, left as int, right as int);
    }
    while j <= right
        invariant
            left < j <= right + 1,
            right < 174,
            is_order(order@),
            rearranged(old(order)@, order@, left as int, right as int),
            ascends(keys@, order@, left as int, j - 1),
            inserted(keys@, old(order)@, left as int, left + 1, right as int) == inserted(
                keys@,
                order@,
                left as int,
                j as int,
                right as int,
            ),
        decreases right + 1 - j,
    {
        let ghost before = order@;
        sink(keys, order, left, j);
        proof {
            lemma_widen(before, order@, left as int, j as int, left as int, right as int);
            lemma_rearranged_twice(old(order)@, before, order@, left as int, right as int);
        }
        j = j + 1;
    }
}

proof fn lemma_widen(
    a: Seq<usize>,
    b: Seq<usize>,
    inner_left: int,
    inner_right: int,
    left: int,
    right: int,
)
    requires
        rearranged(a, b, inner_left, inner_right),
        0 <= left <= inner_left,
        inner_right <= right < a.len(),
    ensures
        rearranged(a, b, left, right),
{
    assert forall|p: int| left <= p <= right implies #[trigger] stems_inside(
        a,
        b,
        p,
        left,
        right,
    ) by {
        if inner_left <= p <= inner_right {
            assert(stems_inside(a, b, p, inner_left, inner_right));
            let q = choose|q: int| stems(a, b, p, q, inner_left, inner_right);
            assert(stems(a, b, p, q, left, right));
        } else {
            assert(stems(a, b, p, p, left, right));
        }
    }
}

proof fn lemma_bounds(
    keys: Seq<u32>,
    a: Seq<usize>,
    b: Seq<usize>,
    left: int,
    right: int,
    low: u32,
    high: u32,
)
    requires
        rearranged(a, b, left, right),
        forall|p: int| left <= p <= right ==> low <= #[trigger] key(keys, a, p) <= high,
    ensures
        forall|p: int| left <= p <= right ==> low <= #[trigger] key(keys, b, p) <= high,
{
    assert forall|p: int| left <= p <= right implies low <= #[trigger] key(keys, b, p) <= high by {
        assert(stems_inside(a, b, p, left, right));
        let q = choose|q: int| stems(a, b, p, q, left, right);
        assert(low <= key(keys, a, q) <= high);
    }
}

fn place_median(keys: &[u32; 174], order: &mut Vec<usize>, left: usize, right: usize)
    requires
        is_order(old(order)@),
        left + 7 <= right < 174,
    ensures
        final(order)@ == median_placed(keys@, old(order)@, left as int, right as int),
        is_order(final(order)@),
        rearranged(old(order)@, final(order)@, left as int, right as int),
        key(keys@, final(order)@, left + 1) <= key(keys@, final(order)@, left as int),
        key(keys@, final(order)@, left as int) <= key(keys@, final(order)@, right as int),
{
    let ghost start = order@;
    swap(order, (left + right) / 2, left + 1);
    let ghost a = order@;
    proof {
        lemma_swap(start, (left + right) / 2, left + 1, left as int, right as int);
    }
    if keys[order[left + 1]] > keys[order[right]] {
        swap(order, left + 1, right);
    }
    let ghost b = order@;
    proof {
        lemma_swap(a, left + 1, right as int, left as int, right as int);
        lemma_rearranged_refl(a, left as int, right as int);
        lemma_rearranged_twice(start, a, b, left as int, right as int);
    }
    if keys[order[left]] > keys[order[right]] {
        swap(order, left, right);
    }
    let ghost c = order@;
    proof {
        lemma_swap(b, left as int, right as int, left as int, right as int);
        lemma_rearranged_refl(b, left as int, right as int);
        lemma_rearranged_twice(start, b, c, left as int, right as int);
    }
    if keys[order[left + 1]] > keys[order[left]] {
        swap(order, left + 1, left);
    }
    proof {
        lemma_swap(c, left + 1, left as int, left as int, right as int);
        lemma_rearranged_refl(c, left as int, right as int);
        lemma_rearranged_twice(start, c, order@, left as int, right as int);
    }
}

fn part(keys: &[u32; 174], order: &mut Vec<usize>, left: usize, right: usize) -> (r: (
    usize,
    usize,
))
    requires
        is_order(old(order)@),
        left + 7 <= right < 174,
        key(keys@, old(order)@, left + 1) <= key(keys@, old(order)@, left as int),
        key(keys@, old(order)@, left as int) <= key(keys@, old(order)@, right as int),
    ensures
        (final(order)@, r.0 as int, r.1 as int) == parted(
            keys@,
            old(order)@,
            left + 1,
            right as int,
            key(keys@, old(order)@, left as int),
        ),
        is_order(final(order)@),
        rearranged(old(order)@, final(order)@, left + 1, right as int),
        left < r.1 < r.0 <= right,
        forall|p: int|
            left < p < r.0 ==> #[trigger] key(keys@, final(order)@, p) <= key(
                keys@,
                old(order)@,
                left as int,
            ),
        forall|p: int|
            r.1 < p <= right ==> key(keys@, old(order)@, left as int) <= #[trigger] key(
                keys@,
                final(order)@,
                p,
            ),
{
    let value: u32 = keys[order[left]];
    let mut i: usize = left + 1;
    let mut j: usize = right;
    proof {
        lemma_rearranged_refl(order@, left + 1, right as int);
    }
    loop
        invariant
            is_order(old(order)@),
            is_order(order@),
            left + 7 <= right < 174,
            value == key(keys@, old(order)@, left as int),
            rearranged(old(order)@, order@, left + 1, right as int),
            left + 1 <= i <= j <= right,
            i == j ==> left + 1 < i && j < right,
            forall|p: int| left < p <= i ==> #[trigger] key(keys@, order@, p) <= value,
            forall|p: int| j <= p <= right ==> value <= #[trigger] key(keys@, order@, p),
            parted(keys@, old(order)@, left + 1, right as int, value) == parted(
                keys@,
                order@,
                i as int,
                j as int,
                value,
            ),
        decreases j - i + 2,
    {
        let ghost start_i: int = i as int;
        let ghost start_j: int = j as int;
        assert(start_i < start_j ==> value <= key(keys@, order@, start_j));
        assert(start_i == start_j ==> value <= key(keys@, order@, start_j + 1));
        i = i + 1;
        while keys[order[i]] < value
            invariant
                is_order(order@),
                left + 1 <= start_i < i <= right < 174,
                start_i <= start_j <= right,
                i <= start_j || i == start_j + 1,
                start_i < start_j ==> i <= start_j && value <= key(keys@, order@, start_j),
                start_i == start_j ==> i == start_j + 1 && value <= key(
                    keys@,
                    order@,
                    start_j + 1,
                ),
                forall|p: int| left < p < i ==> #[trigger] key(keys@, order@, p) <= value,
                scan_up(keys@, order@, start_i + 1, value) == scan_up(
                    keys@,
                    order@,
                    i as int,
                    value,
                ),
            decreases right - i,
        {
            i = i + 1;
        }
        assert(key(keys@, order@, start_i) <= value);
        assert(start_i == start_j ==> key(keys@, order@, start_i - 1) <= value);
        j = j - 1;
        while keys[order[j]] > value
            invariant
                is_order(order@),
                j <= right < 174,
                left + 1 <= j < start_j,
                start_i <= start_j,
                start_i < start_j ==> start_i <= j && key(keys@, order@, start_i) <= value,
                start_i == start_j ==> j == start_j - 1 && key(keys@, order@, start_i - 1)
                    <= value,
                left + 1 <= start_i,
                forall|p: int| j < p <= right ==> value <= #[trigger] key(keys@, order@, p),
                scan_down(keys@, order@, start_j - 1, value) == scan_down(
                    keys@,
                    order@,
                    j as int,
                    value,
                ),
            decreases j,
        {
            j = j - 1;
        }
        assert(i as int == scan_up(keys@, order@, start_i + 1, value));
        assert(j as int == scan_down(keys@, order@, start_j - 1, value));
        if j < i {
            return (i, j);
        }
        let ghost before = order@;
        swap(order, i, j);
        proof {
            lemma_swap(before, i as int, j as int, left + 1, right as int);
            lemma_rearranged_twice(old(order)@, before, order@, left + 1, right as int);
            assert forall|p: int| left < p <= i implies #[trigger] key(keys@, order@, p) <= value by {
                if p < i {
                    assert(key(keys@, before, p) <= value);
                }
            }
            assert forall|p: int| j <= p <= right implies value <= #[trigger] key(
                keys@,
                order@,
                p,
            ) by {
                if p > j {
                    assert(value <= key(keys@, before, p));
                }
            }
        }
    }
}

fn sort_run(keys: &[u32; 174], order: &mut Vec<usize>, left: usize, right: usize)
    requires
        is_order(old(order)@),
        left <= right < 174,
    ensures
        final(order)@ == sorted_run(keys@, old(order)@, left as int, right as int),
        is_order(final(order)@),
        rearranged(old(order)@, final(order)@, left as int, right as int),
        ascends(keys@, final(order)@, left as int, right as int),
    decreases right - left,
{
    if right - left < 7 {
        insert_run(keys, order, left, right);
        return ;
    }
    let ghost start = order@;
    place_median(keys, order, left, right);
    let ghost placed = order@;
    let ghost value: u32 = key(keys@, placed, left as int);
    let (up, down) = part(keys, order, left, right);
    let ghost moved = order@;
    swap(order, left, down);
    let ghost pivoted = order@;
    proof {
        lemma_widen(placed, moved, left + 1, right as int, left as int, right as int);
        lemma_rearranged_twice(start, placed, moved, left as int, right as int);
        lemma_swap(moved, left as int, down as int, left as int, right as int);
        lemma_rearranged_twice(start, moved, pivoted, left as int, right as int);
        assert(moved[left as int] == placed[left as int]);
        assert forall|p: int| left <= p < down implies 0 <= #[trigger] key(keys@, pivoted, p)
            <= value by {
            if p > left {
                assert(key(keys@, moved, p) <= value);
            } else {
                assert(key(keys@, moved, down as int) <= value);
            }
        }
        assert forall|p: int| up <= p <= right implies value <= #[trigger] key(keys@, pivoted, p)
            <= u32::MAX by {
            assert(value <= key(keys@, moved, p));
        }
        assert forall|p: int| down <= p < up implies #[trigger] key(keys@, pivoted, p) == value by {
            if p > down {
                assert(value <= key(keys@, moved, p));
                assert(key(keys@, moved, p) <= value);
            }
        }
    }
    sort_run(keys, order, left, down - 1);
    let ghost half = order@;
    proof {
        lemma_widen(pivoted, half, left as int, down - 1, left as int, right as int);
        lemma_rearranged_twice(start, pivoted, half, left as int, right as int);
        lemma_bounds(keys@, pivoted, half, left as int, down - 1, 0, value);
        assert forall|p: int| down <= p <= right implies #[trigger] key(keys@, half, p) == key(
            keys@,
            pivoted,
            p,
        ) by {}
    }
    sort_run(keys, order, up, right);
    proof {
        lemma_widen(half, order@, up as int, right as int, left as int, right as int);
        lemma_rearranged_twice(start, half, order@, left as int, right as int);
        lemma_bounds(keys@, half, order@, up as int, right as int, value, u32::MAX);
        assert forall|p: int| left <= p < up implies #[trigger] key(keys@, order@, p) == key(
            keys@,
            half,
            p,
        ) by {}
        assert forall|p: int, q: int| left <= p <= q <= right implies #[trigger] key(
            keys@,
            order@,
            p,
        ) <= #[trigger] key(keys@, order@, q) by {
            if p < down {
                assert(key(keys@, half, p) <= value);
                if q < down {
                    assert(key(keys@, half, p) <= key(keys@, half, q));
                }
            }
            if down <= p < up {
                assert(key(keys@, half, p) == key(keys@, pivoted, p));
            }
            if down <= q < up {
                assert(key(keys@, half, q) == key(keys@, pivoted, q));
            }
        }
    }
}

/// Item numbers by ascending key. Items of equal key come in the order in which
/// the partition steps leave them.
pub fn indexx(keys: &[u32; 174]) -> (r: Vec<usize>)
    ensures
        r@ == ascending(keys@),
        is_order(r@),
        forall|p: int, q: int|
            0 <= p <= q < 174 ==> #[trigger] key(keys@, r@, p) <= #[trigger] key(keys@, r@, q),
{
    let mut order: Vec<usize> = Vec::new();
    let mut i: usize = 0;
    while i < 174
        invariant
            i <= 174,
            order@ =~= Seq::new(i as nat, |k: int| k as usize),
        decreases 174 - i,
    {
        order.push(i);
        i = i + 1;
    }
    sort_run(keys, &mut order, 0, 173);
    order
}

// ---------------------------------------------------------------------------
// Laws
// ---------------------------------------------------------------------------

proof fn lemma_any_swap(order: Seq<usize>, a: int, b: int)
    requires
        is_order(order),
        0 <= a < 174,
        0 <= b < 174,
    ensures
        is_order(swapped(order, a, b)),
{
}

proof fn lemma_sunk_order(keys: Seq<u32>, order: Seq<usize>, left: int, i: int)
    requires
        is_order(order),
        0 <= left <= i < 174,
    ensures
        is_order(sunk(keys, order, left, i)),
    decreases i - left,
{
    if i > left && key(keys, order, i - 1) > key(keys, order, i) {
        lemma_any_swap(order, i - 1, i);
        lemma_sunk_order(keys, swapped(order, i - 1, i), left, i - 1);
    }
}

proof fn lemma_inserted_order(keys: Seq<u32>, order: Seq<usize>, left: int, j: int, right: int)
    requires
        is_order(order),
        0 <= left <= j,
        right < 174,
    ensures
        is_order(inserted(keys, order, left, j, right)),
    decreases right + 1 - j,
{
    if j <= right {
        lemma_sunk_order(keys, order, left, j);
        lemma_inserted_order(keys, sunk(keys, order, left, j), left, j + 1, right);
    }
}

proof fn lemma_scan_up_bound(keys: Seq<u32>, order: Seq<usize>, i: int, value: u32)
    ensures
        scan_up(keys, order, i, value) >= i,
    decreases order.len() - i,
{
    if i < order.len() && key(keys, order, i) < value {
        lemma_scan_up_bound(keys, order, i + 1, value);
    }
}

proof fn lemma_scan_down_bound(keys: Seq<u32>, order: Seq<usize>, j: int, value: u32)
    requires
        0 <= j,
    ensures
        0 <= scan_down(keys, order, j, value) <= j,
    decreases j,
{
    if j > 0 && key(keys, order, j) > value {
        lemma_scan_down_bound(keys, order, j - 1, value);
    }
}

proof fn lemma_parted_order(keys: Seq<u32>, order: Seq<usize>, i: int, j: int, value: u32)
    requires
        is_order(order),
        0 <= i <= j < 174,
        0 < j,
    ensures
        is_order(parted(keys, order, i, j, value).0),
        0 <= parted(keys, order, i, j, value).2 < 174,
    decreases j - i + 2,
{
    let up = scan_up(keys, order, i + 1, value);
    let down = scan_down(keys, order, j - 1, value);
    lemma_scan_up_bound(keys, order, i + 1, value);
    lemma_scan_down_bound(keys, order, j - 1, value);
    if down >= up {
        lemma_any_swap(order, up, down);
        lemma_parted_order(keys, swapped(order, up, down), up, down, value);
    }
}

proof fn lemma_run_order(keys: Seq<u32>, order: Seq<usize>, left: int, right: int)
    requires
        is_order(order),
        0 <= left <= right < 174,
    ensures
        is_order(sorted_run(keys, order, left, right)),
    decreases right - left,
{
    if right - left < 7 {
        lemma_inserted_order(keys, order, left, left + 1, right);
    } else {
        let a = swapped(order, (left + right) / 2, left + 1);
        lemma_any_swap(order, (left + right) / 2, left + 1);
        lemma_any_swap(a, left + 1, right);
        let b = if key(keys, a, left + 1) > key(keys, a, right) {
            swapped(a, left + 1, right)
        } else {
            a
        };
        lemma_any_swap(b, left, right);
        let c = if key(keys, b, left) > key(keys, b, right) {
            swapped(b, left, right)
        } else {
            b
        };
        lemma_any_swap(c, left + 1, left);
        let placed = median_placed(keys, order, left, right);
        assert(is_order(placed));
        let value = key(keys, placed, left);
        lemma_parted_order(keys, placed, left + 1, right, value);
        let (moved, up, down) = parted(keys, placed, left + 1, right, value);
        lemma_any_swap(moved, left, down);
        let pivoted = swapped(moved, left, down);
        if left < down <= right && left < up <= right {
            lemma_run_order(keys, pivoted, left, down - 1);
            lemma_run_order(keys, sorted_run(keys, pivoted, left, down - 1), up, right);
        }
    }
}

/// Sorting keeps every item: each number below 174 comes out exactly once.
pub proof fn sorting_keeps_every_item(keys: Seq<u32>)
    ensures
        is_order(ascending(keys)),
        is_order(ascending(keys).reverse()),
{
    let order = Seq::new(174, |i: int| i as usize);
    assert(is_order(order));
    lemma_run_order(keys, order, 0, 173);
}

} // verus!
