//! A stable sort by rank, and the order of strings.

use vstd::prelude::*;

verus! {

/// Whether one row of integers comes before another, compared from a position on:
/// the first difference decides, and a row comes before its extensions.
pub open spec fn precedes_from(a: Seq<int>, b: Seq<int>, i: int) -> bool
    decreases b.len() - i,
{
    if i >= b.len() {
        false
    } else if i >= a.len() {
        true
    } else if a[i] != b[i] {
        a[i] < b[i]
    } else {
        precedes_from(a, b, i + 1)
    }
}

/// Lexicographic order.
pub open spec fn precedes(a: Seq<int>, b: Seq<int>) -> bool {
    precedes_from(a, b, 0)
}

/// The rank of a string: its characters.
pub open spec fn text_rank(text: Seq<char>) -> Seq<int> {
    text.map_values(|c: char| c as int)
}

proof fn precedes_from_is_transitive(a: Seq<int>, b: Seq<int>, c: Seq<int>, i: int)
    requires
        0 <= i,
        precedes_from(a, b, i),
        precedes_from(b, c, i),
    ensures
        precedes_from(a, c, i),
    decreases c.len() - i,
{
    if i < a.len() && i < b.len() && i < c.len() && a[i] == b[i] && b[i] == c[i] {
        precedes_from_is_transitive(a, b, c, i + 1);
    }
}

proof fn precedes_from_is_total(a: Seq<int>, b: Seq<int>, i: int)
    requires
        0 <= i <= a.len(),
        i <= b.len(),
        forall|k: int| 0 <= k < i ==> a[k] == b[k],
    ensures
        precedes_from(a, b, i) || precedes_from(b, a, i) || a == b,
        !(precedes_from(a, b, i) && precedes_from(b, a, i)),
    decreases b.len() - i,
{
    if i < a.len() && i < b.len() {
        if a[i] == b[i] {
            precedes_from_is_total(a, b, i + 1);
        }
    } else if i == a.len() && i == b.len() {
        assert(a =~= b);
    }
}

/// The order of ranks is strict and total.
pub proof fn precedes_is_a_total_order(a: Seq<int>, b: Seq<int>, c: Seq<int>)
    ensures
        !precedes(a, a),
        !(precedes(a, b) && precedes(b, a)),
        precedes(a, b) || precedes(b, a) || a == b,
        precedes(a, b) && precedes(b, c) ==> precedes(a, c),
{
    precedes_from_is_total(a, a, 0);
    precedes_from_is_total(a, b, 0);
    if precedes(a, b) && precedes(b, c) {
        precedes_from_is_transitive(a, b, c, 0);
    }
}

/// Something that is sorted by a rank.
pub trait Ranked: Sized {
    spec fn rank(&self) -> Seq<int>;

    /// Whether this item's rank comes before another's.
    fn ranks_before(&self, other: &Self) -> (before: bool)
        ensures
            before == precedes(self.rank(), other.rank()),
    ;
}

/// Whether one item of a row goes before another: by rank, and between equal ranks
/// by place.
pub open spec fn goes_first<T: Ranked>(items: Seq<T>, a: int, b: int) -> bool {
    precedes(items[a].rank(), items[b].rank()) || (items[a].rank() == items[b].rank() && a < b)
}

/// An order of places in a row, between two bounds, in which each goes before the
/// ones after it.
pub open spec fn is_run<T: Ranked>(items: Seq<T>, run: Seq<usize>, low: int, high: int) -> bool {
    &&& run.len() == high - low
    &&& forall|i: int| 0 <= i < run.len() ==> low <= #[trigger] run[i] < high
    &&& forall|i: int, j: int|
        #![trigger run[i], run[j]]
        0 <= i < j < run.len() ==> goes_first(items, run[i] as int, run[j] as int)
}

/// The order of all places of a row under a stable sort.
pub open spec fn is_stable_order<T: Ranked>(items: Seq<T>, order: Seq<usize>) -> bool {
    is_run(items, order, 0, items.len() as int)
}

/// Whether one row is another one, stably sorted by rank.
pub open spec fn is_stable_sort<T: Ranked>(items: Seq<T>, sorted: Seq<T>) -> bool {
    exists|order: Seq<usize>|
        #[trigger] is_stable_order(items, order) && sorted == arranged(items, order)
}

/// The items of a row in the given order.
pub open spec fn arranged<T>(items: Seq<T>, order: Seq<usize>) -> Seq<T> {
    Seq::new(order.len(), |i: int| items[order[i] as int])
}

/// Merges two runs, where the places of the first are all below those of the second.
fn merge<T: Ranked>(items: &Vec<T>, a: &Vec<usize>, b: &Vec<usize>, low: usize, mid: usize, high: usize) -> (run: Vec<usize>)
    requires
        low <= mid <= high <= items@.len(),
        is_run(items@, a@, low as int, mid as int),
        is_run(items@, b@, mid as int, high as int),
    ensures
        is_run(items@, run@, low as int, high as int),
{
    let mut run: Vec<usize> = Vec::new();
    let mut i: usize = 0;
    let mut j: usize = 0;
    while i < a.len() || j < b.len()
        invariant
            low <= mid <= high <= items@.len(),
            is_run(items@, a@, low as int, mid as int),
            is_run(items@, b@, mid as int, high as int),
            i <= a@.len(),
            j <= b@.len(),
            run@.len() == i + j,
            forall|k: int| 0 <= k < run@.len() ==> low <= #[trigger] run@[k] < high,
            forall|k: int, l: int|
                #![trigger run@[k], run@[l]]
                0 <= k < l < run@.len() ==> goes_first(items@, run@[k] as int, run@[l] as int),
            forall|k: int, l: int|
                #![trigger run@[k], a@[l]]
                0 <= k < run@.len() && i <= l < a@.len() ==> goes_first(items@, run@[k] as int, a@[l] as int),
            forall|k: int, l: int|
                #![trigger run@[k], b@[l]]
                0 <= k < run@.len() && j <= l < b@.len() ==> goes_first(items@, run@[k] as int, b@[l] as int),
        decreases a.len() - i + b.len() - j,
    {
        let from_a: bool = if i == a.len() {
            false
        } else if j == b.len() {
            true
        } else {
            !items[b[j]].ranks_before(&items[a[i]])
        };
        let ghost before = run@;
        if from_a {
            proof {
                assert forall|l: int| j <= l < b@.len() implies goes_first(items@, a@[i as int] as int, #[trigger] b@[l] as int) by {
                    let x = items@[a@[i as int] as int].rank();
                    let y = items@[b@[j as int] as int].rank();
                    let z = items@[b@[l] as int].rank();
                    precedes_is_a_total_order(x, y, z);
                    precedes_is_a_total_order(y, z, x);
                }
            }
            run.push(a[i]);
            i = i + 1;
        } else {
            proof {
                assert forall|l: int| i <= l < a@.len() implies goes_first(items@, b@[j as int] as int, #[trigger] a@[l] as int) by {
                    let x = items@[b@[j as int] as int].rank();
                    let y = items@[a@[i as int] as int].rank();
                    let z = items@[a@[l] as int].rank();
                    precedes_is_a_total_order(x, y, z);
                    precedes_is_a_total_order(y, z, x);
                }
            }
            run.push(b[j]);
            j = j + 1;
        }
        assert(forall|k: int| 0 <= k < before.len() ==> run@[k] == before[k]);
    }
    run
}

fn run_of<T: Ranked>(items: &Vec<T>, low: usize, high: usize) -> (run: Vec<usize>)
    requires
        low <= high <= items@.len(),
    ensures
        is_run(items@, run@, low as int, high as int),
    decreases high - low,
{
    if high - low == 0 {
        Vec::new()
    } else if high - low == 1 {
        let mut run: Vec<usize> = Vec::new();
        run.push(low);
        run
    } else {
        let mid: usize = low + (high - low) / 2;
        let a = run_of(items, low, mid);
        let b = run_of(items, mid, high);
        merge(items, &a, &b, low, mid, high)
    }
}

/// The places of a row in the order of a stable sort by rank.
pub fn stable_order<T: Ranked>(items: &Vec<T>) -> (order: Vec<usize>)
    ensures
        is_stable_order(items@, order@),
{
    run_of(items, 0, items.len())
}

/// A row from its end to its start.
pub fn reversed<T>(items: Vec<T>) -> (turned: Vec<T>)
    ensures
        turned@ == items@.reverse(),
{
    let ghost given = items@;
    let mut rest = items;
    let mut turned: Vec<T> = Vec::new();
    while rest.len() > 0
        invariant
            rest@.len() + turned@.len() == given.len(),
            forall|k: int| 0 <= k < rest@.len() ==> rest@[k] == given[k],
            forall|k: int| 0 <= k < turned@.len() ==> turned@[k] == given[given.len() - 1 - k],
        decreases rest.len(),
    {
        match rest.pop() {
            Some(item) => turned.push(item),
            None => {},
        }
    }
    assert(turned@ =~= given.reverse());
    turned
}

/// A stable sort by rank.
pub fn sort_by_rank<T: Ranked>(items: Vec<T>) -> (sorted: Vec<T>)
    ensures
        is_stable_sort(items@, sorted@),
{
    let order = stable_order(&items);
    let ghost given = items@;
    let mut slots: Vec<Option<T>> = Vec::new();
    let mut rest = items;
    while rest.len() > 0
        invariant
            rest@.len() + slots@.len() == given.len(),
            forall|k: int| 0 <= k < rest@.len() ==> rest@[k] == given[k],
            forall|k: int| 0 <= k < slots@.len() ==> slots@[k] == Some(given[given.len() - 1 - k]),
        decreases rest.len(),
    {
        match rest.pop() {
            Some(item) => slots.push(Some(item)),
            None => {},
        }
    }
    let n: usize = slots.len();
    let mut sorted: Vec<T> = Vec::new();
    let mut i: usize = 0;
    while i < n
        invariant
            i <= n,
            n == given.len(),
            slots@.len() == n,
            order@.len() == n,
            is_stable_order(given, order@),
            sorted@ == arranged(given, order@).take(i as int),
            forall|k: int|
                i <= k < n ==> slots@[given.len() - 1 - (#[trigger] order@[k])] == Some(given[order@[k] as int]),
        decreases n - i,
    {
        let ghost slots_before = slots@;
        let place: usize = order[i];
        let mut slot: Option<T> = None;
        std::mem::swap(&mut slot, &mut slots[n - 1 - place]);
        match slot {
            Some(item) => {
                proof {
                    assert(arranged(given, order@).take(i + 1) =~= sorted@.push(item));
                    assert forall|k: int| i < k < n implies
                        slots@[given.len() - 1 - (#[trigger] order@[k])] == Some(given[order@[k] as int]) by {
                        assert(order@[i as int] != order@[k]) by {
                            precedes_is_a_total_order(
                                given[place as int].rank(), given[place as int].rank(), given[place as int].rank());
                            assert(goes_first(given, order@[i as int] as int, order@[k] as int));
                        }
                    }
                }
                sorted.push(item);
            },
            None => {
                assert(slots_before[given.len() - 1 - order@[i as int]] is Some);
            },
        }
        i = i + 1;
    }
    assert(sorted@ =~= arranged(given, order@));
    sorted
}

/// A run holds no place twice.
proof fn a_run_has_no_duplicates<T: Ranked>(items: Seq<T>, run: Seq<usize>, low: int, high: int)
    requires
        is_run(items, run, low, high),
    ensures
        run.no_duplicates(),
{
    assert forall|i: int, j: int| 0 <= i < j < run.len() implies run[i] != run[j] by {
        let r = items[run[i] as int].rank();
        precedes_is_a_total_order(r, r, r);
        assert(goes_first(items, run[i] as int, run[j] as int));
    }
}

/// Sorting neither loses nor repeats an item: each place of the row occurs in the
/// order.
pub proof fn each_place_is_in_the_order<T: Ranked>(items: Seq<T>, order: Seq<usize>, place: usize)
    requires
        is_stable_order(items, order),
        place < items.len(),
    ensures
        order.contains(place),
{
    a_run_has_no_duplicates(items, order, 0, items.len() as int);
    let n = items.len() as int;
    let held = order.map_values(|p: usize| p as int);
    assert(held.no_duplicates()) by {
        assert forall|i: int, j: int| 0 <= i < j < held.len() implies held[i] != held[j] by {
            assert(order[i] != order[j]);
        }
    }
    held.unique_seq_to_set();
    vstd::set_lib::lemma_int_range(0, n);
    assert(held.to_set().subset_of(vstd::set_lib::set_int_range(0, n)));
    vstd::set_lib::lemma_subset_equality(held.to_set(), vstd::set_lib::set_int_range(0, n));
    assert(held.to_set().contains(place as int));
    let k = choose|k: int| 0 <= k < held.len() && held[k] == place as int;
    assert(order[k] == place);
}

proof fn orders_agree<T: Ranked>(items: Seq<T>, a: Seq<usize>, b: Seq<usize>, k: int)
    requires
        is_stable_order(items, a),
        is_stable_order(items, b),
        0 <= k <= items.len(),
    ensures
        forall|i: int| 0 <= i < k ==> a[i] == b[i],
    decreases k,
{
    if k > 0 {
        orders_agree(items, a, b, k - 1);
        a_run_has_no_duplicates(items, a, 0, items.len() as int);
        a_run_has_no_duplicates(items, b, 0, items.len() as int);
        each_place_is_in_the_order(items, a, b[k - 1]);
        each_place_is_in_the_order(items, b, a[k - 1]);
        let m = choose|m: int| 0 <= m < a.len() && a[m] == b[k - 1];
        let l = choose|l: int| 0 <= l < b.len() && b[l] == a[k - 1];
        if a[k - 1] != b[k - 1] {
            assert(m >= k) by {
                if m < k - 1 {
                    assert(b[m] == b[k - 1]);
                }
            }
            assert(l >= k) by {
                if l < k - 1 {
                    assert(a[l] == a[k - 1]);
                }
            }
            assert(goes_first(items, a[k - 1] as int, a[m] as int));
            assert(goes_first(items, b[k - 1] as int, b[l] as int));
            let x = items[a[k - 1] as int].rank();
            let y = items[b[k - 1] as int].rank();
            precedes_is_a_total_order(x, y, x);
        }
    }
}

/// A row has one stable sort.
pub proof fn the_stable_sort_is_unique<T: Ranked>(items: Seq<T>, a: Seq<T>, b: Seq<T>)
    requires
        is_stable_sort(items, a),
        is_stable_sort(items, b),
    ensures
        a == b,
{
    let p = choose|order: Seq<usize>| #[trigger] is_stable_order(items, order) && a == arranged(items, order);
    let q = choose|order: Seq<usize>| #[trigger] is_stable_order(items, order) && b == arranged(items, order);
    orders_agree(items, p, q, items.len() as int);
    assert(a =~= b);
}

/// A sorted row goes up, and items of equal rank stay in the order they came in.
pub proof fn a_stable_sort_goes_up<T: Ranked>(items: Seq<T>, order: Seq<usize>, i: int, j: int)
    requires
        is_stable_order(items, order),
        0 <= i < j < items.len(),
    ensures
        !precedes(arranged(items, order)[j].rank(), arranged(items, order)[i].rank()),
        arranged(items, order)[i].rank() == arranged(items, order)[j].rank() ==> order[i] < order[j],
{
    let x = items[order[i] as int].rank();
    let y = items[order[j] as int].rank();
    precedes_is_a_total_order(x, y, x);
    assert(goes_first(items, order[i] as int, order[j] as int));
}

/// Whether one string comes before another, as `str` orders them.
pub fn text_precedes(a: &[char], b: &[char]) -> (before: bool)
    ensures
        before == precedes(text_rank(a@), text_rank(b@)),
{
    let ghost x = text_rank(a@);
    let ghost y = text_rank(b@);
    let mut i: usize = 0;
    while i < a.len() && i < b.len() && a[i] == b[i]
        invariant
            i <= a@.len(),
            i <= b@.len(),
            x == text_rank(a@),
            y == text_rank(b@),
            precedes(x, y) == precedes_from(x, y, i as int),
        decreases a.len() - i,
    {
        i = i + 1;
    }
    if i >= b.len() {
        false
    } else if i >= a.len() {
        true
    } else {
        a[i] < b[i]
    }
}

/// Whether a text is another one or comes before it: it is a start of the other, or at the
/// first place where they differ it has the smaller character.
pub open spec fn is_not_after(a: Seq<char>, b: Seq<char>) -> bool {
    exists|n: int| #[trigger]
        agree_up_to(a, b, n) && (n == a.len() || n < a.len() && n < b.len() && (a[n] as int) < (b[n] as int))
}

/// Whether two texts have as many characters, and the first ones are the same.
pub open spec fn agree_up_to(a: Seq<char>, b: Seq<char>, n: int) -> bool {
    0 <= n <= a.len() && n <= b.len() && a.take(n) == b.take(n)
}

proof fn texts_differ_somewhere(a: Seq<char>, b: Seq<char>, i: int)
    requires
        agree_up_to(a, b, i),
        !precedes_from(text_rank(b), text_rank(a), i),
    ensures
        is_not_after(a, b),
    decreases a.len() - i,
{
    if i < a.len() && i < b.len() && a[i] == b[i] {
        assert(a.take(i + 1) =~= a.take(i).push(a[i]));
        assert(b.take(i + 1) =~= b.take(i).push(b[i]));
        texts_differ_somewhere(a, b, i + 1);
    } else if i < a.len() && i < b.len() {
        assert(text_rank(a)[i] == a[i] as int);
        assert(text_rank(b)[i] == b[i] as int);
    }
}

/// The rank of texts orders them as they are written in a dictionary of characters.
pub proof fn texts_rank_by_their_characters(a: Seq<char>, b: Seq<char>)
    ensures
        !precedes(text_rank(b), text_rank(a)) ==> is_not_after(a, b),
{
    if !precedes(text_rank(b), text_rank(a)) {
        assert(a.take(0) =~= b.take(0));
        texts_differ_somewhere(a, b, 0);
    }
}

/// Of two pairs of numbers of which the second does not come first, the first numbers go up,
/// and where they are the same, the second ones do.
pub proof fn pairs_rank_by_their_first(a: Seq<int>, b: Seq<int>)
    requires
        a.len() == 2,
        b.len() == 2,
        !precedes(b, a),
    ensures
        a[0] <= b[0],
        a[0] == b[0] ==> a[1] <= b[1],
{
    reveal_with_fuel(precedes_from, 4);
}

/// The same of three numbers.
pub proof fn triples_rank_by_their_first(a: Seq<int>, b: Seq<int>)
    requires
        a.len() == 3,
        b.len() == 3,
        !precedes(b, a),
    ensures
        a[0] <= b[0],
        a[0] == b[0] ==> a[1] <= b[1],
        a[0] == b[0] && a[1] == b[1] ==> a[2] <= b[2],
{
    reveal_with_fuel(precedes_from, 5);
}

/// A sorted row has the items of the row it was made of, no more and no fewer, and no item
/// comes before one above it.
pub proof fn a_sorted_row_rearranges<T: Ranked>(items: Seq<T>, sorted: Seq<T>)
    requires
        is_stable_sort(items, sorted),
        items.len() <= usize::MAX,
    ensures
        sorted.len() == items.len(),
        forall|i: int, j: int|
            #![trigger sorted[i], sorted[j]]
            0 <= i < j < sorted.len() ==> !precedes(sorted[j].rank(), sorted[i].rank()),
        forall|i: int| 0 <= i < items.len() ==> sorted.contains(#[trigger] items[i]),
        forall|i: int| 0 <= i < sorted.len() ==> items.contains(#[trigger] sorted[i]),
{
    let order = choose|order: Seq<usize>| #[trigger] is_stable_order(items, order) && sorted == arranged(items, order);
    assert forall|i: int, j: int| #![trigger sorted[i], sorted[j]] 0 <= i < j < sorted.len() implies !precedes(
        sorted[j].rank(),
        sorted[i].rank(),
    ) by {
        a_stable_sort_goes_up(items, order, i, j);
    }
    assert forall|i: int| 0 <= i < items.len() implies sorted.contains(#[trigger] items[i]) by {
        each_place_is_in_the_order(items, order, i as usize);
        let k = choose|k: int| 0 <= k < order.len() && order[k] == i as usize;
        assert(sorted[k] == items[i]);
    }
    assert forall|i: int| 0 <= i < sorted.len() implies items.contains(#[trigger] sorted[i]) by {
        assert(sorted[i] == items[order[i] as int]);
    }
}

/// A sorted row holds what was sorted and goes up.
pub proof fn a_row_is_sorted_by_rank<T: Ranked>(items: Vec<T>, sorted: Vec<T>)
    requires
        items@.len() <= usize::MAX,
        call_ensures(sort_by_rank::<T>, (items,), sorted),
    ensures
        sorted@.len() == items@.len(),
        forall|i: int| 0 <= i < items@.len() ==> sorted@.contains(#[trigger] items@[i]),
        forall|i: int, j: int|
            #![trigger sorted@[i], sorted@[j]]
            0 <= i < j < sorted@.len() ==> !precedes(sorted@[j].rank(), sorted@[i].rank()),
{
    a_sorted_row_rearranges(items@, sorted@);
}

/// A text comes before another by its first characters that differ.
pub proof fn a_text_comes_before_by_its_characters(a: &[char], b: &[char], before: bool)
    requires
        call_ensures(text_precedes, (a, b), before),
    ensures
        !before ==> is_not_after(b@, a@),
        before ==> is_not_after(a@, b@) && a@ != b@,
{
    texts_rank_by_their_characters(a@, b@);
    texts_rank_by_their_characters(b@, a@);
    precedes_is_a_total_order(text_rank(a@), text_rank(b@), text_rank(a@));
}

} // verus!
