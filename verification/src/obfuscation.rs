//! Simple obfuscation algorithm for secret data: its elements are read along the
//! diagonals of a triangle in which they are laid out row by row.
use vstd::prelude::*;
use vstd::seq_lib::seq_to_set_is_finite;
use vstd::set_lib::{lemma_int_range, lemma_subset_equality, set_int_range};

verus! {

/// The `x`-th triangular number: the sum of the numbers from 1 to `x`.
pub open spec fn triangular(x: nat) -> nat
    decreases x,
{
    if x == 0 {
        0
    } else {
        x + triangular((x - 1) as nat)
    }
}

/// The smallest `x`, from `from` on, for which the `x`-th triangular number is `target` or more.
/// The search ends at `target`, whose triangular number is never less than itself.
pub open spec fn passes_from(target: nat, from: nat) -> nat
    decreases target - from,
{
    if from >= target || triangular(from) >= target {
        from
    } else {
        passes_from(target, from + 1)
    }
}

/// The smallest `x` for which the `x`-th triangular number is `target` or more.
pub open spec fn passes(target: nat) -> nat {
    passes_from(target, 0)
}

/// The triangular numbers from the first to the one of rank `upto`.
pub open spec fn triangulars(upto: nat) -> Seq<usize> {
    Seq::new(upto, |k: int| triangular((k + 1) as nat) as usize)
}

/// The place in the clear data that the row `x` of the triangle gives at the step `step`.
pub open spec fn source(x: nat, step: nat) -> int {
    triangular(x) - step - 1
}

/// The places that the step `step` gives when it goes up the rows, from the row
/// after `step` to the row `upto`: those that are before `length`.
pub open spec fn ascending(length: nat, step: nat, upto: nat) -> Seq<int>
    decreases upto,
{
    if upto <= step {
        Seq::empty()
    } else if source(upto, step) < length {
        ascending(length, step, (upto - 1) as nat).push(source(upto, step))
    } else {
        ascending(length, step, (upto - 1) as nat)
    }
}

/// The places that the step `step` gives when it goes down the rows, from the
/// row `last` to the row `from`: those that are before `length`.
pub open spec fn descending(length: nat, step: nat, from: nat, last: nat) -> Seq<int>
    decreases last + 1 - from,
{
    if from > last {
        Seq::empty()
    } else if source(from, step) < length {
        descending(length, step, from + 1, last).push(source(from, step))
    } else {
        descending(length, step, from + 1, last)
    }
}

/// The places that one step gives: an even step goes down the rows, an odd one up.
pub open spec fn step_sources(length: nat, rows: nat, step: nat) -> Seq<int> {
    if step % 2 == 0 {
        descending(length, step, step + 1, rows)
    } else {
        ascending(length, step, rows)
    }
}

/// The places that the steps before `steps` give, one step after the other.
pub open spec fn sources_before(length: nat, rows: nat, steps: nat) -> Seq<int>
    decreases steps,
{
    if steps == 0 {
        Seq::empty()
    } else {
        sources_before(length, rows, (steps - 1) as nat) + step_sources(length, rows, (steps - 1) as nat)
    }
}

/// The places of the clear data in the order in which the obfuscated data holds them.
pub open spec fn sources(length: nat) -> Seq<int> {
    sources_before(length, passes(length), passes(length))
}

/// The rank in the obfuscated data of the element that stands at `place` in the clear data.
pub open spec fn rank_of(length: nat, place: int) -> int {
    choose|k: int| 0 <= k < sources(length).len() && sources(length)[k] == place
}

/// The data obfuscated: its element at `k` is the element of `data` at the `k`-th
/// place that [`sources`] lists.
pub open spec fn obfuscated<T>(data: Seq<T>) -> Seq<T> {
    Seq::new(data.len(), |k: int| data[sources(data.len())[k]])
}

/// The data in the clear: its element at a place is the element of `data` at the
/// rank that [`sources`] gives to the place.
pub open spec fn deobfuscated<T>(data: Seq<T>) -> Seq<T> {
    Seq::new(data.len(), |place: int| data[rank_of(data.len(), place)])
}

/// The triangular numbers grow, and the `x`-th is `x` or more.
pub proof fn lemma_triangular_grows(a: nat, b: nat)
    requires
        a <= b,
    ensures
        triangular(a) <= triangular(b),
        a <= triangular(a),
    decreases b,
{
    if a < b {
        lemma_triangular_grows(a, (b - 1) as nat);
    } else if a > 0 {
        lemma_triangular_grows((a - 1) as nat, (a - 1) as nat);
    }
}

/// What `passes_from` finds, when no triangular number before `from` reaches `target`.
proof fn lemma_passes_from(target: nat, from: nat)
    requires
        from == 0 || triangular((from - 1) as nat) < target,
    ensures
        from <= passes_from(target, from),
        triangular(passes_from(target, from)) >= target,
        passes_from(target, from) == 0 || triangular((passes_from(target, from) - 1) as nat) < target,
    decreases target - from,
{
    lemma_triangular_grows(from, from);
    if from < target && triangular(from) < target {
        lemma_passes_from(target, from + 1);
    }
}

/// `passes` is the rank of the first triangular number that is `target` or more,
/// and is at most `target`.
pub proof fn lemma_passes(target: nat)
    ensures
        triangular(passes(target)) >= target,
        passes(target) == 0 || triangular((passes(target) - 1) as nat) < target,
        passes(target) <= target,
{
    lemma_passes_from(target, 0);
    if passes(target) > 0 {
        lemma_triangular_grows((passes(target) - 1) as nat, (passes(target) - 1) as nat);
    }
}

/// Returns the smallest x for which the x-th triangular number is `max - 1` or more.
pub fn triangular_numbers_count(max: usize) -> (count: usize)
    requires
        max >= 1,
    ensures
        count == passes((max - 1) as nat),
{
    let target: u128 = (max - 1) as u128;
    let mut count: usize = 0;
    let mut reached: u128 = 0;
    proof {
        lemma_passes((max - 1) as nat);
    }
    while reached < target
        invariant
            target == max - 1,
            reached == triangular(count as nat),
            count <= reached,
            count == 0 || triangular((count - 1) as nat) < target,
            passes_from(target as nat, count as nat) == passes(target as nat),
            passes(target as nat) <= target,
        decreases target - count,
    {
        proof {
            lemma_passes_from(target as nat, count as nat);
        }
        count += 1;
        reached += count as u128;
    }
    count
}

/// Returns the triangular numbers from the first to the one that is `max - 1` or
/// more, as far as their rank is before `max`.
pub fn triangular_numbers(max: usize) -> (numbers: Vec<usize>)
    requires
        1 <= max <= usize::MAX / 2,
    ensures
        numbers@ == triangulars(passes((max - 1) as nat)),
{
    let count: usize = triangular_numbers_count(max);
    let mut numbers: Vec<usize> = Vec::new();
    let mut x: usize = 0;
    let mut reached: usize = 0;
    proof {
        lemma_passes((max - 1) as nat);
    }
    while x < count
        invariant
            1 <= max <= usize::MAX / 2,
            count == passes((max - 1) as nat),
            count <= max - 1,
            count == 0 || triangular((count - 1) as nat) < max - 1,
            x <= count,
            reached == triangular(x as nat),
            numbers@ == triangulars(x as nat),
        decreases count - x,
    {
        proof {
            lemma_triangular_grows(x as nat, (count - 1) as nat);
        }
        x += 1;
        // Every rank up to `count` is before `max`: none is left out.
        if x < max {
            reached += x;
            numbers.push(reached);
            assert(numbers@ =~= triangulars(x as nat));
        }
    }
    numbers
}

/// The places with their rank: the place in the clear data, then the place in the obfuscated data.
pub open spec fn pairs_of(places: Seq<int>) -> Seq<(usize, usize)> {
    Seq::new(places.len(), |k: int| (places[k] as usize, k as usize))
}

/// How many places the steps before `steps` give in the rows before the last one.
spec fn given_before(rows: nat, steps: nat) -> int
    decreases steps,
{
    if steps == 0 {
        0
    } else {
        given_before(rows, (steps - 1) as nat) + (rows - steps)
    }
}

/// How many places the steps before `steps` give in the last row, which the data
/// fills but for its last `hole` places.
spec fn given_last(hole: int, steps: nat) -> int {
    if steps > hole {
        steps - hole
    } else {
        0
    }
}

/// The steps before `steps` give, in the rows before the last one, the places of
/// these rows but for those of the rows that the steps have not reached.
proof fn lemma_given_before(rows: nat, steps: nat)
    requires
        1 <= rows,
        steps <= rows,
    ensures
        steps < rows ==> given_before(rows, steps) == triangular((rows - 1) as nat) - triangular(
            (rows - 1 - steps) as nat,
        ),
        steps == rows ==> given_before(rows, steps) == triangular((rows - 1) as nat),
    decreases steps,
{
    if steps > 0 {
        lemma_given_before(rows, (steps - 1) as nat);
    }
}

/// Obfuscates some `data`: returns a list of `(normal_pos, obfuscated_pos)`.
pub fn two_way_obfuscate(length: usize) -> (pairs: Vec<(usize, usize)>)
    requires
        length < usize::MAX / 2,
    ensures
        pairs@ == pairs_of(sources(length as nat)),
        pairs@.len() == length,
        forall|k: int| 0 <= k < length ==> 0 <= (#[trigger] sources(length as nat)[k]) < length,
{
    let rows: usize = triangular_numbers_count(length + 1);
    let numbers: Vec<usize> = triangular_numbers(length + 1);
    let ghost placed: Seq<int> = Seq::empty();
    let mut pairs: Vec<(usize, usize)> = Vec::new();
    let mut step: usize = 0;
    proof {
        lemma_passes(length as nat);
        assert(pairs@ =~= pairs_of(placed));
    }
    while step < rows
        invariant
            length < usize::MAX / 2,
            rows == passes(length as nat),
            rows <= length,
            numbers@ == triangulars(rows as nat),
            rows == 0 || triangular((rows - 1) as nat) < length,
            step <= rows,
            placed == sources_before(length as nat, rows as nat, step as nat),
            pairs@ == pairs_of(placed),
        decreases rows - step,
    {
        let ghost before = placed;
        let ghost part: Seq<int> = Seq::empty();
        proof {
            assert(before + part =~= before);
        }
        if step % 2 == 0 {
            let mut x: usize = rows;
            while x > step
                invariant
                    length < usize::MAX / 2,
                    rows <= length,
                    numbers@ == triangulars(rows as nat),
                    rows == 0 || triangular((rows - 1) as nat) < length,
                    step < rows,
                    step <= x <= rows,
                    part == descending(length as nat, step as nat, (x + 1) as nat, rows as nat),
                    placed == before + part,
                    pairs@ == pairs_of(placed),
                decreases x,
            {
                proof {
                    lemma_triangular_grows(x as nat, x as nat);
                    if x < rows {
                        lemma_triangular_grows(x as nat, (rows - 1) as nat);
                    }
                }
                let n: usize = numbers[x - 1] - step - 1;
                if n < length {
                    proof {
                        assert(pairs_of(placed.push(n as int)) =~= pairs_of(placed).push((n, placed.len() as usize)));
                        assert(before + part.push(n as int) =~= (before + part).push(n as int));
                        part = part.push(n as int);
                        placed = placed.push(n as int);
                    }
                    let rank: usize = pairs.len();
                    pairs.push((n, rank));
                }
                x -= 1;
            }
        } else {
            let mut x: usize = step;
            while x < rows
                invariant
                    length < usize::MAX / 2,
                    rows <= length,
                    numbers@ == triangulars(rows as nat),
                    rows == 0 || triangular((rows - 1) as nat) < length,
                    step < rows,
                    step <= x <= rows,
                    part == ascending(length as nat, step as nat, x as nat),
                    placed == before + part,
                    pairs@ == pairs_of(placed),
                decreases rows - x,
            {
                x += 1;
                proof {
                    lemma_triangular_grows(x as nat, x as nat);
                    if x < rows {
                        lemma_triangular_grows(x as nat, (rows - 1) as nat);
                    }
                }
                let n: usize = numbers[x - 1] - step - 1;
                if n < length {
                    proof {
                        assert(pairs_of(placed.push(n as int)) =~= pairs_of(placed).push((n, placed.len() as usize)));
                        assert(before + part.push(n as int) =~= (before + part).push(n as int));
                        part = part.push(n as int);
                        placed = placed.push(n as int);
                    }
                    let rank: usize = pairs.len();
                    pairs.push((n, rank));
                }
            }
        }
        step += 1;
    }
    proof {
        lemma_sources_len(length as nat);
    }
    pairs
}

/// The step that gives the place `place`: how far the place is from the end of its
/// row in the triangle.
pub open spec fn diagonal(place: int) -> int {
    triangular(passes((place + 1) as nat)) - 1 - place
}

/// `passes` is the one rank whose triangular number is the first to reach `target`.
proof fn lemma_passes_is(target: nat, x: nat)
    requires
        triangular(x) >= target,
        x == 0 || triangular((x - 1) as nat) < target,
    ensures
        passes(target) == x,
{
    lemma_passes(target);
    let found = passes(target);
    if found < x {
        lemma_triangular_grows(found, (x - 1) as nat);
    }
    if found > x {
        lemma_triangular_grows(x, (found - 1) as nat);
    }
}

/// The place that the row `x` gives at the step `step` is given at that step only.
proof fn lemma_diagonal(x: nat, step: nat)
    requires
        step < x,
    ensures
        source(x, step) >= 0,
        diagonal(source(x, step)) == step,
{
    lemma_triangular_grows(x, x);
    lemma_passes_is((source(x, step) + 1) as nat, x);
}

/// The places of a step that goes up the rows are given at that step, and grow.
proof fn lemma_ascending(length: nat, step: nat, upto: nat)
    ensures
        forall|a: int|
            0 <= a < ascending(length, step, upto).len() ==> {
                &&& diagonal(#[trigger] ascending(length, step, upto)[a]) == step
                &&& ascending(length, step, upto)[a] <= source(upto, step)
            },
        forall|a: int, b: int|
            #![trigger ascending(length, step, upto)[a], ascending(length, step, upto)[b]]
            0 <= a < b < ascending(length, step, upto).len() ==> ascending(length, step, upto)[a] < ascending(
                length,
                step,
                upto,
            )[b],
    decreases upto,
{
    if upto > step {
        let rows = ascending(length, step, upto);
        let before = ascending(length, step, (upto - 1) as nat);
        let place = source(upto, step);
        lemma_ascending(length, step, (upto - 1) as nat);
        lemma_diagonal(upto, step);
        assert(source((upto - 1) as nat, step) < place);
        assert forall|a: int| 0 <= a < rows.len() implies diagonal(#[trigger] rows[a]) == step && rows[a]
            <= place by {
            if a < before.len() {
                assert(rows[a] == before[a]);
            }
        }
        assert forall|a: int, b: int| 0 <= a < b < rows.len() implies #[trigger] rows[a] < #[trigger] rows[b] by {
            assert(rows[a] == before[a]);
            if b < before.len() {
                assert(rows[b] == before[b]);
            }
        }
    }
}

/// The places of a step that goes down the rows are given at that step, and shrink.
proof fn lemma_descending(length: nat, step: nat, from: nat, last: nat)
    requires
        step < from,
    ensures
        forall|a: int|
            0 <= a < descending(length, step, from, last).len() ==> {
                &&& diagonal(#[trigger] descending(length, step, from, last)[a]) == step
                &&& descending(length, step, from, last)[a] >= source(from, step)
            },
        forall|a: int, b: int|
            #![trigger descending(length, step, from, last)[a], descending(length, step, from, last)[b]]
            0 <= a < b < descending(length, step, from, last).len() ==> descending(length, step, from, last)[a]
                > descending(length, step, from, last)[b],
    decreases last + 1 - from,
{
    if from <= last {
        let rows = descending(length, step, from, last);
        let before = descending(length, step, from + 1, last);
        let place = source(from, step);
        lemma_descending(length, step, from + 1, last);
        lemma_diagonal(from, step);
        assert(source(from + 1, step) > place);
        assert forall|a: int| 0 <= a < rows.len() implies diagonal(#[trigger] rows[a]) == step && rows[a]
            >= place by {
            if a < before.len() {
                assert(rows[a] == before[a]);
            }
        }
        assert forall|a: int, b: int| 0 <= a < b < rows.len() implies #[trigger] rows[a] > #[trigger] rows[b] by {
            assert(rows[a] == before[a]);
            if b < before.len() {
                assert(rows[b] == before[b]);
            }
        }
    }
}

/// The places that the steps before `steps` give are all different, and each is
/// given at one of these steps.
proof fn lemma_sources_before(length: nat, rows: nat, steps: nat)
    ensures
        sources_before(length, rows, steps).no_duplicates(),
        forall|k: int|
            0 <= k < sources_before(length, rows, steps).len() ==> 0 <= diagonal(
                #[trigger] sources_before(length, rows, steps)[k],
            ) < steps,
    decreases steps,
{
    if steps > 0 {
        let step = (steps - 1) as nat;
        let before = sources_before(length, rows, step);
        let added = step_sources(length, rows, step);
        lemma_sources_before(length, rows, step);
        lemma_ascending(length, step, rows);
        lemma_descending(length, step, step + 1, rows);
        assert forall|k: int| 0 <= k < added.len() implies diagonal(#[trigger] added[k]) == step by {}
        assert forall|i: int, j: int| 0 <= i < added.len() && 0 <= j < added.len() && i != j implies added[i]
            != added[j] by {
            if i < j {
                assert(added[i] != added[j]);
            } else {
                assert(added[j] != added[i]);
            }
        }
        let all = before + added;
        assert forall|i: int, j: int| 0 <= i < all.len() && 0 <= j < all.len() && i != j implies all[i]
            != all[j] by {
            if i < before.len() && j < before.len() {
                assert(before[i] != before[j]);
            } else if i >= before.len() && j >= before.len() {
                assert(added[i - before.len()] != added[j - before.len()]);
            } else if i < before.len() {
                assert(diagonal(before[i]) < step);
                assert(diagonal(added[j - before.len()]) == step);
            } else {
                assert(diagonal(before[j]) < step);
                assert(diagonal(added[i - before.len()]) == step);
            }
        }
        assert forall|k: int| 0 <= k < all.len() implies 0 <= diagonal(#[trigger] all[k]) < steps by {
            if k < before.len() {
                assert(all[k] == before[k]);
            } else {
                assert(all[k] == added[k - before.len()]);
            }
        }
    }
}

/// How many places a step that goes up the rows gives, and that they are places of the data.
proof fn lemma_ascending_len(length: nat, rows: nat, step: nat, upto: nat)
    requires
        rows == passes(length),
        step < rows,
        step <= upto <= rows,
    ensures
        ascending(length, step, upto).len() == (if upto < rows {
            upto - step
        } else {
            (rows - 1 - step) + given_last(triangular(rows) - length, step + 1) - given_last(
                triangular(rows) - length,
                step,
            )
        }),
        forall|a: int|
            0 <= a < ascending(length, step, upto).len() ==> 0 <= (#[trigger] ascending(length, step, upto)[a])
                < length,
    decreases upto,
{
    lemma_passes(length);
    if upto > step {
        let rows_before = ascending(length, step, (upto - 1) as nat);
        lemma_ascending_len(length, rows, step, (upto - 1) as nat);
        lemma_triangular_grows(upto, upto);
        if upto < rows {
            lemma_triangular_grows(upto, (rows - 1) as nat);
        }
        assert forall|a: int| 0 <= a < ascending(length, step, upto).len() implies 0 <= (#[trigger] ascending(
            length,
            step,
            upto,
        )[a]) < length by {
            if a < rows_before.len() {
                assert(ascending(length, step, upto)[a] == rows_before[a]);
            }
        }
    }
}

/// How many places a step that goes down the rows gives, and that they are places of the data.
proof fn lemma_descending_len(length: nat, rows: nat, step: nat, from: nat)
    requires
        rows == passes(length),
        step < rows,
        step < from <= rows + 1,
    ensures
        descending(length, step, from, rows).len() == (if from <= rows {
            (rows - from) + given_last(triangular(rows) - length, step + 1) - given_last(
                triangular(rows) - length,
                step,
            )
        } else {
            0
        }),
        forall|a: int|
            0 <= a < descending(length, step, from, rows).len() ==> 0 <= (#[trigger] descending(
                length,
                step,
                from,
                rows,
            )[a]) < length,
    decreases rows + 1 - from,
{
    lemma_passes(length);
    if from <= rows {
        let rows_before = descending(length, step, from + 1, rows);
        lemma_descending_len(length, rows, step, from + 1);
        lemma_triangular_grows(from, from);
        if from < rows {
            lemma_triangular_grows(from, (rows - 1) as nat);
        }
        assert forall|a: int| 0 <= a < descending(length, step, from, rows).len() implies 0 <= (
        #[trigger] descending(length, step, from, rows)[a]) < length by {
            if a < rows_before.len() {
                assert(descending(length, step, from, rows)[a] == rows_before[a]);
            }
        }
    }
}

/// How many places the steps before `steps` give, and that they are places of the data.
proof fn lemma_sources_before_len(length: nat, rows: nat, steps: nat)
    requires
        rows == passes(length),
        steps <= rows,
    ensures
        sources_before(length, rows, steps).len() == given_before(rows, steps) + given_last(
            triangular(rows) - length,
            steps,
        ),
        forall|k: int|
            0 <= k < sources_before(length, rows, steps).len() ==> 0 <= (#[trigger] sources_before(
                length,
                rows,
                steps,
            )[k]) < length,
    decreases steps,
{
    lemma_passes(length);
    if steps > 0 {
        let step = (steps - 1) as nat;
        let before = sources_before(length, rows, step);
        let added = step_sources(length, rows, step);
        lemma_sources_before_len(length, rows, step);
        lemma_ascending_len(length, rows, step, rows);
        lemma_descending_len(length, rows, step, step + 1);
        assert forall|k: int| 0 <= k < (before + added).len() implies 0 <= (#[trigger] (before + added)[k])
            < length by {
            if k < before.len() {
                assert((before + added)[k] == before[k]);
            } else {
                assert((before + added)[k] == added[k - before.len()]);
            }
        }
    }
}

/// The places that [`sources`] lists are as many as the data, and are places of it.
pub proof fn lemma_sources_len(length: nat)
    ensures
        sources(length).len() == length,
        forall|k: int| 0 <= k < length ==> 0 <= (#[trigger] sources(length)[k]) < length,
{
    let rows = passes(length);
    lemma_passes(length);
    lemma_sources_before_len(length, rows, rows);
    if rows > 0 {
        lemma_given_before(rows, rows);
    }
}

/// Every place of the data stands once among [`sources`]: they put the places in
/// another order, and leave none out.
pub proof fn lemma_sources_are_all(length: nat)
    ensures
        sources(length).len() == length,
        sources(length).no_duplicates(),
        forall|place: int| 0 <= place < length ==> sources(length).contains(place),
{
    let places = sources(length);
    lemma_sources_len(length);
    lemma_sources_before(length, passes(length), passes(length));
    places.unique_seq_to_set();
    seq_to_set_is_finite(places);
    lemma_int_range(0, length as int);
    assert(places.to_set().subset_of(set_int_range(0, length as int))) by {
        assert forall|place: int| places.to_set().contains(place) implies set_int_range(
            0,
            length as int,
        ).contains(place) by {
            let k = choose|k: int| 0 <= k < places.len() && places[k] == place;
            assert(0 <= places[k] < length);
        }
    }
    lemma_subset_equality(places.to_set(), set_int_range(0, length as int));
    assert forall|place: int| 0 <= place < length implies places.contains(place) by {
        assert(set_int_range(0, length as int).contains(place));
        assert(places.to_set().contains(place));
    }
}

/// Obfuscate some `data`: the element at the place `k` of the result is the
/// element of `data` at the `k`-th of the places that [`sources`] lists.
pub fn obfuscate<T: Copy + Default>(data: &[T]) -> (hidden: Vec<T>)
    requires
        data@.len() < usize::MAX / 2,
    ensures
        hidden@ == obfuscated(data@),
{
    let length: usize = data.len();
    let pairs: Vec<(usize, usize)> = two_way_obfuscate(length);
    let mut hidden: Vec<T> = Vec::new();
    let mut k: usize = 0;
    while k < length
        invariant
            k <= length,
            hidden@.len() == k,
        decreases length - k,
    {
        hidden.push(T::default());
        k += 1;
    }
    k = 0;
    while k < length
        invariant
            length == data@.len(),
            pairs@ == pairs_of(sources(length as nat)),
            pairs@.len() == length,
            forall|j: int| 0 <= j < length ==> 0 <= (#[trigger] sources(length as nat)[j]) < length,
            k <= length,
            hidden@.len() == length,
            forall|j: int| 0 <= j < k ==> (#[trigger] hidden@[j]) == data@[sources(length as nat)[j]],
        decreases length - k,
    {
        let pair: (usize, usize) = pairs[k];
        assert(0 <= sources(length as nat)[k as int] < length);
        hidden.set(pair.1, data[pair.0]);
        k += 1;
    }
    assert(hidden@ =~= obfuscated(data@));
    hidden
}

/// Deobfuscate some `data`: the element of `data` at the place `k` is written at
/// the `k`-th of the places that [`sources`] lists, which are all the places of the
/// result, each once.
pub fn deobfuscate<T: Copy + Default>(data: &[T]) -> (clear: Vec<T>)
    requires
        data@.len() < usize::MAX / 2,
    ensures
        clear@ == deobfuscated(data@),
{
    let length: usize = data.len();
    let pairs: Vec<(usize, usize)> = two_way_obfuscate(length);
    let mut clear: Vec<T> = Vec::new();
    let mut k: usize = 0;
    while k < length
        invariant
            k <= length,
            clear@.len() == k,
        decreases length - k,
    {
        clear.push(T::default());
        k += 1;
    }
    proof {
        lemma_sources_are_all(length as nat);
    }
    k = 0;
    while k < length
        invariant
            length == data@.len(),
            pairs@ == pairs_of(sources(length as nat)),
            pairs@.len() == length,
            sources(length as nat).no_duplicates(),
            forall|j: int| 0 <= j < length ==> 0 <= (#[trigger] sources(length as nat)[j]) < length,
            k <= length,
            clear@.len() == length,
            forall|j: int| 0 <= j < k ==> clear@[#[trigger] sources(length as nat)[j]] == data@[j],
        decreases length - k,
    {
        let pair: (usize, usize) = pairs[k];
        assert(0 <= sources(length as nat)[k as int] < length);
        clear.set(pair.0, data[pair.1]);
        k += 1;
    }
    proof {
        let places = sources(length as nat);
        assert forall|place: int| 0 <= place < length implies clear@[place] == data@[rank_of(
            length as nat,
            place,
        )] by {
            assert(places.contains(place));
            let rank = rank_of(length as nat, place);
            assert(clear@[places[rank]] == data@[rank]);
        }
        assert(clear@ =~= deobfuscated(data@));
    }
    clear
}

/// Deobfuscating what was obfuscated gives the data back, and the other way round.
pub proof fn law_two_way<T>(data: Seq<T>)
    ensures
        deobfuscated(obfuscated(data)) == data,
        obfuscated(deobfuscated(data)) == data,
{
    let length = data.len();
    let places = sources(length);
    lemma_sources_are_all(length);
    lemma_sources_len(length);
    assert forall|place: int| 0 <= place < length implies deobfuscated(obfuscated(data))[place] == data[place] by {
        assert(places.contains(place));
    }
    assert forall|k: int| 0 <= k < length implies obfuscated(deobfuscated(data))[k] == data[k] by {
        assert(places.contains(places[k]));
        let rank = rank_of(length, places[k]);
        assert(places[rank] == places[k]);
        assert(rank == k);
    }
    assert(deobfuscated(obfuscated(data)) =~= data);
    assert(obfuscated(deobfuscated(data)) =~= data);
}

} // verus!
