//! Stable sorting of positions under an order that a context supplies.

use crate::text::Order;
use vstd::prelude::*;
use vstd::set_lib::{lemma_int_range, lemma_len_subset, set_int_range};

verus! {

/// Something whose items stand at positions and can be compared in pairs.
pub trait Comparison {
    /// How many items there are.
    spec fn count(&self) -> nat;

    /// How the items at two positions compare.
    spec fn order(&self) -> spec_fn(int, int) -> Order;

    fn size(&self) -> (result: usize)
        ensures
            result == self.count(),
    ;

    fn compare(&self, left: usize, right: usize) -> (result: Order)
        requires
            left < self.count(),
            right < self.count(),
        ensures
            result == self.order()(left as int, right as int),
    ;
}

/// Whether an item may directly precede another in a stable arrangement: the
/// two are compared with the item of the lower position on the left.
pub open spec fn may_precede(order: spec_fn(int, int) -> Order, left: int, right: int) -> bool {
    if left < right {
        order(left, right) != Order::Greater
    } else {
        order(right, left) == Order::Greater
    }
}

/// Neighbours stand in order, and those that compare as equal keep their places.
pub open spec fn neighbours_ordered(
    order: spec_fn(int, int) -> Order,
    positions: Seq<usize>,
) -> bool {
    forall|k: int, m: int|
        #![trigger positions[k], positions[m]]
        0 <= k && m == k + 1 && m < positions.len() ==> may_precede(
            order,
            positions[k] as int,
            positions[m] as int,
        )
}

/// The positions from `low` up to `high`, each once.
pub open spec fn covers(positions: Seq<usize>, low: int, high: int) -> bool {
    &&& positions.len() == high - low
    &&& positions.no_duplicates()
    &&& forall|k: int| 0 <= k < positions.len() ==> low <= #[trigger] positions[k] < high
}

/// A stable arrangement of a number of items under an order.
pub open spec fn stably_sorted(
    count: nat,
    order: spec_fn(int, int) -> Order,
    positions: Seq<usize>,
) -> bool {
    covers(positions, 0, count as int) && neighbours_ordered(order, positions)
}

/// An order under which exchanging the sides exchanges the result, and "not
/// greater" is transitive.
pub open spec fn consistent(count: nat, order: spec_fn(int, int) -> Order) -> bool {
    &&& forall|a: int, b: int|
        #![trigger order(a, b)]
        0 <= a < count && 0 <= b < count ==> order(b, a) == order(a, b).spec_reverse()
    &&& forall|a: int, b: int, c: int|
        #![trigger order(a, b), order(b, c)]
        0 <= a < count && 0 <= b < count && 0 <= c < count && order(a, b) != Order::Greater
            && order(b, c) != Order::Greater ==> {
            &&& order(a, c) != Order::Greater
            &&& order(a, c) == Order::Equal ==> order(a, b) == Order::Equal && order(b, c)
                == Order::Equal
        }
}

/// Under a consistent order a stable arrangement orders every pair, not only
/// neighbours, and items that compare as equal keep their places.
pub proof fn lemma_sorted_pairs(
    count: nat,
    order: spec_fn(int, int) -> Order,
    positions: Seq<usize>,
    i: int,
    j: int,
)
    requires
        stably_sorted(count, order, positions),
        consistent(count, order),
        0 <= i < j < positions.len(),
    ensures
        order(positions[i] as int, positions[j] as int) != Order::Greater,
        order(positions[i] as int, positions[j] as int) == Order::Equal ==> positions[i]
            < positions[j],
    decreases j - i,
{
    let a = positions[i] as int;
    let b = positions[i + 1] as int;
    assert(may_precede(order, a, b));
    assert(order(b, a) == order(a, b).spec_reverse());
    if i + 1 < j {
        lemma_sorted_pairs(count, order, positions, i + 1, j);
        let c = positions[j] as int;
        assert(order(b, c) != Order::Greater);
    }
}

/// Two lists of positions as one, the first of either that does not come after the
/// first of the other in front.
spec fn merged(
    order: spec_fn(int, int) -> Order,
    left: Seq<usize>,
    right: Seq<usize>,
) -> Seq<usize>
    decreases left.len() + right.len(),
{
    if left.len() == 0 {
        right
    } else if right.len() == 0 {
        left
    } else if order(left[0] as int, right[0] as int) != Order::Greater {
        seq![left[0]] + merged(order, left.drop_first(), right)
    } else {
        seq![right[0]] + merged(order, left, right.drop_first())
    }
}

spec fn sorted_range(order: spec_fn(int, int) -> Order, low: int, high: int) -> Seq<usize>
    decreases high - low,
{
    if high - low <= 1 {
        if low < high {
            seq![low as usize]
        } else {
            Seq::empty()
        }
    } else {
        let middle = low + (high - low) / 2;
        merged(order, sorted_range(order, low, middle), sorted_range(order, middle, high))
    }
}

/// The stable arrangement that sorting gives. It depends on the number of items and
/// their order alone, also where the order ranks items in a circle and so leaves
/// more than one.
pub closed spec fn arrangement(count: nat, order: spec_fn(int, int) -> Order) -> Seq<usize> {
    sorted_range(order, 0, count as int)
}

fn merge<C: Comparison>(
    context: &C,
    left: &Vec<usize>,
    right: &Vec<usize>,
    Ghost(low): Ghost<int>,
    Ghost(middle): Ghost<int>,
    Ghost(high): Ghost<int>,
) -> (result: Vec<usize>)
    requires
        0 <= low <= middle <= high <= context.count(),
        covers(left@, low, middle),
        covers(right@, middle, high),
        neighbours_ordered(context.order(), left@),
        neighbours_ordered(context.order(), right@),
    ensures
        covers(result@, low, high),
        neighbours_ordered(context.order(), result@),
        result@ == merged(context.order(), left@, right@),
{
    proof {
        assert(left@.skip(0) =~= left@);
        assert(right@.skip(0) =~= right@);
        assert(Seq::<usize>::empty() + merged(context.order(), left@, right@) =~= merged(
            context.order(),
            left@,
            right@,
        ));
    }
    let mut result: Vec<usize> = Vec::new();
    let mut i: usize = 0;
    let mut j: usize = 0;
    while i < left.len() || j < right.len()
        invariant
            0 <= low <= middle <= high <= context.count(),
            covers(left@, low, middle),
            covers(right@, middle, high),
            neighbours_ordered(context.order(), left@),
            neighbours_ordered(context.order(), right@),
            i <= left@.len(),
            j <= right@.len(),
            result@.len() == i + j,
            result@ + merged(context.order(), left@.skip(i as int), right@.skip(j as int))
                == merged(context.order(), left@, right@),
            neighbours_ordered(context.order(), result@),
            result@.no_duplicates(),
            forall|k: int| 0 <= k < result@.len() ==> low <= #[trigger] result@[k] < high,
            forall|k: int, m: int|
                0 <= k < result@.len() && i <= m < left@.len() ==> result@[k] != left@[m],
            forall|k: int, m: int|
                0 <= k < result@.len() && j <= m < right@.len() ==> result@[k] != right@[m],
            result@.len() > 0 && i < left@.len() ==> may_precede(
                context.order(),
                result@.last() as int,
                left@[i as int] as int,
            ),
            result@.len() > 0 && j < right@.len() ==> may_precede(
                context.order(),
                result@.last() as int,
                right@[j as int] as int,
            ),
        decreases left@.len() - i + right@.len() - j,
    {
        let take_left = if i == left.len() {
            false
        } else if j == right.len() {
            true
        } else {
            !context.compare(left[i], right[j]).is_gt()
        };
        let ghost before = result@;
        let ghost rest = merged(context.order(), left@.skip(i as int), right@.skip(j as int));
        proof {
            if i < left@.len() {
                assert(left@.skip(i as int)[0] == left@[i as int]);
                assert(left@.skip(i as int).drop_first() =~= left@.skip(i + 1));
            }
            if j < right@.len() {
                assert(right@.skip(j as int)[0] == right@[j as int]);
                assert(right@.skip(j as int).drop_first() =~= right@.skip(j + 1));
            }
        }
        if take_left {
            result.push(left[i]);
            i = i + 1;
        } else {
            result.push(right[j]);
            j = j + 1;
        }
        proof {
            assert(result@.drop_last() =~= before);
            assert forall|k: int, m: int|
                #![trigger result@[k], result@[m]]
                0 <= k && m == k + 1 && m < result@.len() implies may_precede(
                context.order(),
                result@[k] as int,
                result@[m] as int,
            ) by {
                if m < before.len() {
                    assert(before[k] == result@[k]);
                    assert(before[m] == result@[m]);
                } else {
                    assert(result@[k] == before.last());
                }
            }
            if take_left {
                assert(left@[i - 1] == result@.last());
            } else {
                assert(right@[j - 1] == result@.last());
            }
            let next = merged(context.order(), left@.skip(i as int), right@.skip(j as int));
            assert(rest =~= seq![result@.last()] + next);
            assert(result@ + next =~= before + rest);
        }
    }
    proof {
        let nothing = merged(context.order(), left@.skip(i as int), right@.skip(j as int));
        assert(nothing =~= Seq::empty());
        assert(result@ + nothing =~= result@);
    }
    result
}

fn sort_range<C: Comparison>(context: &C, low: usize, high: usize) -> (result: Vec<usize>)
    requires
        low <= high <= context.count(),
    ensures
        covers(result@, low as int, high as int),
        neighbours_ordered(context.order(), result@),
        result@ == sorted_range(context.order(), low as int, high as int),
    decreases high - low,
{
    if high - low <= 1 {
        let mut result: Vec<usize> = Vec::new();
        if low < high {
            result.push(low);
        }
        result
    } else {
        let middle = low + (high - low) / 2;
        let left = sort_range(context, low, middle);
        let right = sort_range(context, middle, high);
        merge(
            context,
            &left,
            &right,
            Ghost(low as int),
            Ghost(middle as int),
            Ghost(high as int),
        )
    }
}

/// The positions of all items, in stable order.
pub fn sorted_positions<C: Comparison>(context: &C) -> (result: Vec<usize>)
    ensures
        stably_sorted(context.count(), context.order(), result@),
        result@ == arrangement(context.count(), context.order()),
{
    let count = context.size();
    sort_range(context, 0, count)
}

/// The items at the given positions.
pub open spec fn arranged<T>(items: Seq<T>, positions: Seq<usize>) -> Seq<T> {
    Seq::new(positions.len(), |k: int| items[positions[k] as int])
}

/// Positions that cover a range hold each position of it.
pub proof fn lemma_covers_each(positions: Seq<usize>, count: nat, i: int) -> (k: int)
    requires
        covers(positions, 0, count as int),
        0 <= i < count,
    ensures
        0 <= k < positions.len(),
        positions[k] == i,
{
    let values = positions.map_values(|position: usize| position as int);
    if !values.contains(i) {
        let others = set_int_range(0, count as int).remove(i);
        values.unique_seq_to_set();
        lemma_int_range(0, count as int);
        assert forall|value: int| values.to_set().contains(value) implies others.contains(
            value,
        ) by {
            let k = choose|k: int| 0 <= k < values.len() && values[k] == value;
            assert(positions[k] == value);
        }
        lemma_len_subset(values.to_set(), others);
    }
    let k = choose|k: int| 0 <= k < values.len() && values[k] == i;
    assert(positions[k] == i);
    k
}

/// Under a consistent order there is one stable arrangement.
pub proof fn lemma_sorted_unique(
    count: nat,
    order: spec_fn(int, int) -> Order,
    first: Seq<usize>,
    second: Seq<usize>,
)
    requires
        stably_sorted(count, order, first),
        stably_sorted(count, order, second),
        consistent(count, order),
    ensures
        first == second,
{
    lemma_same_start(count, order, first, second, count);
    assert(first =~= second);
}

proof fn lemma_same_start(
    count: nat,
    order: spec_fn(int, int) -> Order,
    first: Seq<usize>,
    second: Seq<usize>,
    length: nat,
)
    requires
        stably_sorted(count, order, first),
        stably_sorted(count, order, second),
        consistent(count, order),
        length <= count,
    ensures
        forall|k: int| 0 <= k < length ==> first[k] == second[k],
    decreases length,
{
    if length > 0 {
        let k = length - 1;
        lemma_same_start(count, order, first, second, k as nat);
        let a = first[k] as int;
        let b = second[k] as int;
        if a != b {
            let i = lemma_covers_each(first, count, b);
            let j = lemma_covers_each(second, count, a);
            assert(i > k);
            assert(j > k);
            lemma_sorted_pairs(count, order, first, k, i);
            lemma_sorted_pairs(count, order, second, k, j);
            assert(order(b, a) == order(a, b).spec_reverse());
        }
    }
}

/// Two arrangements of the same items hold the same items: each is an arrangement
/// of the other.
pub proof fn lemma_rearranged<T>(
    items: Seq<T>,
    first: Seq<usize>,
    second: Seq<usize>,
) -> (positions: Seq<usize>)
    requires
        covers(first, 0, items.len() as int),
        covers(second, 0, items.len() as int),
    ensures
        covers(positions, 0, items.len() as int),
        arranged(items, second) == arranged(arranged(items, first), positions),
{
    let count = items.len();
    assert forall|k: int| 0 <= k < count implies exists|i: int|
        0 <= i < count && first[i] == #[trigger] second[k] by {
        let i = lemma_covers_each(first, count, second[k] as int);
        assert(first[i] == second[k]);
    }
    let at = |k: int| choose|i: int| 0 <= i < count && first[i] == second[k];
    assert forall|k: int| 0 <= k < count implies 0 <= #[trigger] at(k) < count && first[at(k)]
        == second[k] by {
        let i = lemma_covers_each(first, count, second[k] as int);
        assert(0 <= i < count && first[i] == second[k]);
    }
    if count > 0 {
        // A position of the last item fits, so every position does.
        lemma_positions_fit(first, count);
    }
    let positions = Seq::new(count, |k: int| at(k) as usize);
    assert forall|i: int, j: int| 0 <= i < count && 0 <= j < count && i != j implies positions[i]
        != positions[j] by {
        assert(0 <= at(i) < count && 0 <= at(j) < count);
        assert(second[i] != second[j]);
    }
    assert forall|k: int| 0 <= k < count implies #[trigger] arranged(
        arranged(items, first),
        positions,
    )[k] == arranged(items, second)[k] by {
        assert(0 <= at(k) < count);
    }
    assert(arranged(items, second) =~= arranged(arranged(items, first), positions));
    positions
}

/// The positions of a range of machine integers are machine integers.
proof fn lemma_positions_fit(positions: Seq<usize>, count: nat)
    requires
        covers(positions, 0, count as int),
        count > 0,
    ensures
        count - 1 <= usize::MAX,
{
    let k = lemma_covers_each(positions, count, count - 1);
    assert(positions[k] == count - 1);
}

} // verus!
