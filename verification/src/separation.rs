//! Keeping songs that share a "real name" far from each other in the queue.
//!
//! The rules are stated over the sequence of the songs' real names; the
//! functions that reorder a queue are proved against them.
use vstd::prelude::*;
use vstd::seq_lib::{to_multiset_build, to_multiset_contains};
use crate::song::Song;

verus! {

/// The real names of the songs of a queue, in order.
pub open spec fn names_of<'name, T: Song<'name>>(files: Seq<T>) -> Seq<Option<Seq<char>>> {
    Seq::new(files.len(), |i: int| files[i].real_name())
}

/// How many songs of the queue have the given real name.
pub open spec fn count_of(names: Seq<Option<Seq<char>>>, name: Option<Seq<char>>) -> nat {
    names.to_multiset().count(name)
}

/// The smallest distance accepted between two songs of a group of `count` songs
/// in a queue of `length` songs: three quarters of the even spacing.
pub open spec fn min_distance(length: int, count: int) -> int {
    length * 3 / (count * 4)
}

/// The last index before `end` that holds `name`, or -1.
pub open spec fn last_before(names: Seq<Option<Seq<char>>>, name: Option<Seq<char>>, end: int) -> int
    decreases end,
{
    if end <= 0 {
        -1
    } else if names[end - 1] == name {
        end - 1
    } else {
        last_before(names, name, end - 1)
    }
}

/// The index of the previous song with the same real name as the song at `index`, or -1.
pub open spec fn previous_occurrence(names: Seq<Option<Seq<char>>>, index: int) -> int {
    last_before(names, names[index], index)
}

/// The distance that the song at `index` has to keep from the previous song of its group.
pub open spec fn distance_at(names: Seq<Option<Seq<char>>>, index: int) -> int {
    min_distance(names.len() as int, count_of(names, names[index]) as int)
}

/// The song at `index` has a real name and follows the previous song with that
/// name more closely than its group accepts.
pub open spec fn too_close(names: Seq<Option<Seq<char>>>, index: int) -> bool {
    &&& names[index] is Some
    &&& previous_occurrence(names, index) >= 0
    &&& index - previous_occurrence(names, index) < distance_at(names, index)
}

/// Every song with a real name is far enough from the previous song of its group.
pub open spec fn well_separated(names: Seq<Option<Seq<char>>>) -> bool {
    forall|i: int| 0 <= i < names.len() ==> !too_close(names, i)
}

/// The song at `target` can take the place of the misplaced song at `index`: it is
/// far enough from the previous song of the group and is not of the group itself.
pub open spec fn is_target(names: Seq<Option<Seq<char>>>, index: int, target: int) -> bool {
    let previous = previous_occurrence(names, index);
    let distance = distance_at(names, index);
    &&& target - previous >= distance || previous - target >= distance
    &&& names[target] != names[index]
}

/// The first target at or after `from` for the song at `index`, or the length of the queue.
pub open spec fn target_from(names: Seq<Option<Seq<char>>>, index: int, from: int) -> int
    decreases names.len() - from,
{
    if from >= names.len() {
        names.len() as int
    } else if is_target(names, index, from) {
        from
    } else {
        target_from(names, index, from + 1)
    }
}

/// The first target in the queue for the song at `index`, or the length of the queue.
pub open spec fn first_target(names: Seq<Option<Seq<char>>>, index: int) -> int {
    target_from(names, index, 0)
}

/// The song at `index` is too close to the previous one of its group and has a target.
pub open spec fn repairable(names: Seq<Option<Seq<char>>>, index: int) -> bool {
    too_close(names, index) && first_target(names, index) < names.len()
}

/// The first repairable index at or after `from`, or the length of the queue.
pub open spec fn repair_from(names: Seq<Option<Seq<char>>>, from: int) -> int
    decreases names.len() - from,
{
    if from >= names.len() {
        names.len() as int
    } else if repairable(names, from) {
        from
    } else {
        repair_from(names, from + 1)
    }
}

/// The first repairable index of the queue, or its length.
pub open spec fn first_repair(names: Seq<Option<Seq<char>>>) -> int {
    repair_from(names, 0)
}

/// No song of the queue can be repaired: a scan of the queue moves nothing.
pub open spec fn is_settled(names: Seq<Option<Seq<char>>>) -> bool {
    first_repair(names) >= names.len()
}

/// The song at `index` is the first of a group of two songs or more.
pub open spec fn is_first_double(names: Seq<Option<Seq<char>>>, index: int) -> bool {
    &&& names[index] is Some
    &&& previous_occurrence(names, index) < 0
    &&& count_of(names, names[index]) >= 2
}

/// The real names that two songs or more among the first `end` of the queue begin a
/// group with, each with the number of songs of the whole queue that have it, in the
/// order in which the names first occur.
pub open spec fn doubles_before(names: Seq<Option<Seq<char>>>, end: int) -> Seq<(Seq<char>, nat)>
    decreases end,
{
    if end <= 0 {
        Seq::empty()
    } else if is_first_double(names, end - 1) {
        doubles_before(names, end - 1).push((names[end - 1]->0, count_of(names, names[end - 1])))
    } else {
        doubles_before(names, end - 1)
    }
}

/// The real names that two songs or more of the queue have, each with its number of songs.
pub open spec fn double_songs_of(names: Seq<Option<Seq<char>>>) -> Seq<(Seq<char>, nat)> {
    doubles_before(names, names.len() as int)
}

/// The queue with the songs at `i` and `j` exchanged.
pub open spec fn swapped<T>(files: Seq<T>, i: int, j: int) -> Seq<T> {
    files.update(i, files[j]).update(j, files[i])
}

/// The queue turned left by one place: its first song becomes the last.
pub open spec fn rotated<T>(files: Seq<T>) -> Seq<T> {
    if files.len() == 0 {
        files
    } else {
        files.subrange(1, files.len() as int).push(files[0])
    }
}

/// The queue after one repair: the first misplaced song is exchanged with its first target.
/// When that same exchange is already in `history`, the queue is also turned left by one place.
pub open spec fn step_files<'name, T: Song<'name>>(files: Seq<T>, history: Seq<(usize, usize)>) -> Seq<T> {
    let names = names_of(files);
    let i = first_repair(names);
    let j = first_target(names, i);
    let moved = swapped(files, i, j);
    if history.contains((i as usize, j as usize)) {
        rotated(moved)
    } else {
        moved
    }
}

/// The exchanges remembered after one repair: the history starts again with the
/// exchange when it was already there, and grows by it otherwise.
pub open spec fn step_history<'name, T: Song<'name>>(files: Seq<T>, history: Seq<(usize, usize)>) -> Seq<(usize, usize)> {
    let names = names_of(files);
    let i = first_repair(names);
    let j = first_target(names, i);
    if history.contains((i as usize, j as usize)) {
        seq![(i as usize, j as usize)]
    } else {
        history.push((i as usize, j as usize))
    }
}

/// The queue after repairs are made until it is settled, or until `rounds` of them are done.
pub open spec fn repaired<'name, T: Song<'name>>(files: Seq<T>, history: Seq<(usize, usize)>, rounds: nat) -> Seq<T>
    decreases rounds,
{
    if rounds == 0 || is_settled(names_of(files)) {
        files
    } else {
        repaired(step_files(files, history), step_history(files, history), (rounds - 1) as nat)
    }
}

/// `last_before` is the one index before `end` that holds `name` with no `name` between it and `end`.
pub proof fn lemma_last_before(names: Seq<Option<Seq<char>>>, name: Option<Seq<char>>, end: int, index: int)
    requires
        -1 <= index < end <= names.len(),
        0 <= index ==> names[index] == name,
        forall|k: int| index < k < end ==> names[k] != name,
    ensures
        last_before(names, name, end) == index,
    decreases end,
{
    if end > 0 && index != end - 1 {
        lemma_last_before(names, name, end - 1, index);
    }
}

/// What `last_before` finds: an index that holds `name`, with no `name` after it before `end`.
pub proof fn lemma_last_before_found(names: Seq<Option<Seq<char>>>, name: Option<Seq<char>>, end: int)
    requires
        0 <= end <= names.len(),
    ensures
        -1 <= last_before(names, name, end) < end,
        0 <= last_before(names, name, end) ==> names[last_before(names, name, end)] == name,
        forall|k: int| last_before(names, name, end) < k < end ==> names[k] != name,
    decreases end,
{
    if end > 0 && names[end - 1] != name {
        lemma_last_before_found(names, name, end - 1);
    }
}

/// `target_from` is the first index from `from` on that is a target.
pub proof fn lemma_target_from(names: Seq<Option<Seq<char>>>, index: int, from: int, target: int)
    requires
        0 <= from <= target <= names.len(),
        target < names.len() ==> is_target(names, index, target),
        forall|k: int| from <= k < target ==> !is_target(names, index, k),
    ensures
        target_from(names, index, from) == target,
    decreases target - from,
{
    if from < target {
        lemma_target_from(names, index, from + 1, target);
    }
}

/// What `target_from` finds: a target, with none between `from` and it.
pub proof fn lemma_target_from_found(names: Seq<Option<Seq<char>>>, index: int, from: int)
    requires
        0 <= from <= names.len(),
    ensures
        from <= target_from(names, index, from) <= names.len(),
        target_from(names, index, from) < names.len() ==> is_target(names, index, target_from(names, index, from)),
        forall|k: int| from <= k < target_from(names, index, from) ==> !is_target(names, index, k),
    decreases names.len() - from,
{
    if from < names.len() && !is_target(names, index, from) {
        lemma_target_from_found(names, index, from + 1);
    }
}

/// `repair_from` is the first index from `from` on that is repairable.
pub proof fn lemma_repair_from(names: Seq<Option<Seq<char>>>, from: int, index: int)
    requires
        0 <= from <= index <= names.len(),
        index < names.len() ==> repairable(names, index),
        forall|k: int| from <= k < index ==> !repairable(names, k),
    ensures
        repair_from(names, from) == index,
    decreases index - from,
{
    if from < index {
        lemma_repair_from(names, from + 1, index);
    }
}

/// What `repair_from` finds: a repairable index, with none between `from` and it.
pub proof fn lemma_repair_from_found(names: Seq<Option<Seq<char>>>, from: int)
    requires
        0 <= from <= names.len(),
    ensures
        from <= repair_from(names, from) <= names.len(),
        repair_from(names, from) < names.len() ==> repairable(names, repair_from(names, from)),
        forall|k: int| from <= k < repair_from(names, from) ==> !repairable(names, k),
    decreases names.len() - from,
{
    if from < names.len() && !repairable(names, from) {
        lemma_repair_from_found(names, from + 1);
    }
}

/// The number of songs before `end` that hold `name`.
spec fn same_below(names: Seq<Option<Seq<char>>>, name: Option<Seq<char>>, end: int) -> int
    decreases end,
{
    if end <= 0 {
        0
    } else {
        same_below(names, name, end - 1) + if names[end - 1] == name {
            1int
        } else {
            0int
        }
    }
}

/// The number of places before `end` that are nearer to `center` than `distance`.
spec fn near_below(center: int, distance: int, end: int) -> int
    decreases end,
{
    if end <= 0 {
        0
    } else {
        near_below(center, distance, end - 1) + if center - distance < end - 1 < center + distance {
            1int
        } else {
            0int
        }
    }
}

/// The number of songs before `end` that hold `name` and are nearer to `center` than `distance`.
spec fn both_below(names: Seq<Option<Seq<char>>>, name: Option<Seq<char>>, center: int, distance: int, end: int) -> int
    decreases end,
{
    if end <= 0 {
        0
    } else {
        both_below(names, name, center, distance, end - 1) + if names[end - 1] == name && center - distance < end
            - 1 < center + distance {
            1int
        } else {
            0int
        }
    }
}

/// Counting the songs before `end`: those that hold `name` are as many as the
/// multiset says; the near places are at most `2 * distance - 1`; two songs that
/// hold `name` near the center are counted; and when every place holds `name` or
/// is near, the places are at most the near ones and those that hold `name`,
/// less those that are both.
proof fn lemma_counts(
    names: Seq<Option<Seq<char>>>,
    name: Option<Seq<char>>,
    center: int,
    distance: int,
    other: int,
    end: int,
)
    requires
        0 <= end <= names.len(),
        0 <= center < other < names.len(),
        other - center < distance,
        names[center] == name,
        names[other] == name,
    ensures
        same_below(names, name, end) == count_of(names.subrange(0, end), name),
        near_below(center, distance, end) <= 2 * distance - 1,
        near_below(center, distance, end) <= end,
        both_below(names, name, center, distance, end) >= (if center < end {
            1int
        } else {
            0int
        }) + (if other < end {
            1int
        } else {
            0int
        }),
        (forall|j: int| 0 <= j < end ==> names[j] == name || center - distance < j < center + distance) ==> end
            <= near_below(center, distance, end) + same_below(names, name, end) - both_below(
            names,
            name,
            center,
            distance,
            end,
        ),
        near_below(center, distance, end) <= vstd::math::max(
            0,
            vstd::math::min(end, center + distance) - vstd::math::max(0, center - distance + 1),
        ),
    decreases end,
{
    if end <= 0 {
        to_multiset_contains(names.subrange(0, 0), name);
    } else {
        lemma_counts(names, name, center, distance, other, end - 1);
        let before = names.subrange(0, end - 1);
        assert(names.subrange(0, end) =~= before.push(names[end - 1]));
        to_multiset_build(before, names[end - 1]);
    }
}

/// A song that is too close to the previous one of its group has a target: there
/// are more places in the queue than those near the previous song and those of the group.
pub proof fn lemma_target_exists(names: Seq<Option<Seq<char>>>, index: int)
    requires
        0 <= index < names.len(),
        too_close(names, index),
    ensures
        first_target(names, index) < names.len(),
        is_target(names, index, first_target(names, index)),
{
    let length = names.len() as int;
    let name = names[index];
    let previous = previous_occurrence(names, index);
    let distance = distance_at(names, index);
    let count = count_of(names, name) as int;
    lemma_last_before_found(names, name, index);
    lemma_target_from_found(names, index, 0);
    if first_target(names, index) >= length {
        lemma_counts(names, name, previous, distance, index, length);
        assert(names.subrange(0, length) =~= names);
        assert forall|j: int| 0 <= j < length implies names[j] == name || previous - distance < j < previous
            + distance by {
            assert(!is_target(names, index, j));
        }
        let near = near_below(previous, distance, length);
        let both = both_below(names, name, previous, distance, length);
        assert(length <= near + count - both);
        assert(length <= 2 * distance + count - 3);
        assert(count >= 2);
        assert(distance >= 2);
        assert(distance * (count * 4) <= length * 3) by (nonlinear_arith)
            requires
                distance == length * 3 / (count * 4),
                count >= 2,
                length >= 0,
        ;
        assert(distance * count >= 2 * distance + 2 * count - 4) by (nonlinear_arith)
            requires
                distance >= 2,
                count >= 2,
        ;
        assert(distance * (count * 4) == 4 * (distance * count)) by (nonlinear_arith);
        assert(false);
    }
}

/// A queue in which nothing can be repaired is well separated, and the other way round.
pub proof fn lemma_settled_is_separated(names: Seq<Option<Seq<char>>>)
    ensures
        is_settled(names) == well_separated(names),
{
    lemma_repair_from_found(names, 0);
    if is_settled(names) {
        assert forall|i: int| 0 <= i < names.len() implies !too_close(names, i) by {
            if too_close(names, i) {
                lemma_target_exists(names, i);
                assert(repairable(names, i));
            }
        }
    }
    if well_separated(names) {
        if first_repair(names) < names.len() {
            assert(too_close(names, first_repair(names)));
        }
    }
}

/// In a queue that is well separated, two songs with the same real name are as far
/// from each other as their group asks: three quarters of the length of the queue
/// divided by the number of songs of the group, rounded down.
pub proof fn law_group_keeps_distance(names: Seq<Option<Seq<char>>>, first: int, second: int)
    requires
        well_separated(names),
        0 <= first < second < names.len(),
        names[first] is Some,
        names[first] == names[second],
    ensures
        second - first >= names.len() * 3 / (count_of(names, names[second]) * 4),
{
    lemma_last_before_found(names, names[second], second);
    assert(!too_close(names, second));
}

/// A queue in which no real name stands twice is well separated: whatever order
/// a shuffle gives it, a repair leaves it as it is.
pub proof fn law_single_songs_are_separated(names: Seq<Option<Seq<char>>>)
    requires
        forall|i: int, j: int|
            0 <= i < j < names.len() && names[i] is Some ==> #[trigger] names[i] != #[trigger] names[j],
    ensures
        well_separated(names),
{
    assert forall|i: int| 0 <= i < names.len() implies !too_close(names, i) by {
        lemma_last_before_found(names, names[i], i);
        let previous = previous_occurrence(names, i);
        if names[i] is Some && previous >= 0 {
            assert(names[previous] != names[i]);
        }
    }
}

/// Repairing a queue that is well separated changes nothing, whatever was remembered.
pub proof fn law_valid_queue_is_kept<'name, T: Song<'name>>(files: Seq<T>, history: Seq<(usize, usize)>, rounds: nat)
    requires
        well_separated(names_of(files)),
    ensures
        repaired(files, history, rounds) == files,
{
    lemma_settled_is_separated(names_of(files));
}

} // verus!
