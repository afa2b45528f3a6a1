//! Reordering a queue of songs so that songs with the same "real name" stay apart.
use vstd::prelude::*;
use vstd::seq_lib::*;
use crate::separation::{
    count_of, distance_at, double_songs_of, doubles_before, first_repair, first_target, is_settled,
    is_target, lemma_last_before, lemma_last_before_found, lemma_repair_from,
    lemma_settled_is_separated, lemma_target_from, min_distance, names_of, previous_occurrence,
    repairable, repaired, rotated, step_files, step_history, swapped, well_separated,
};
use crate::song::Song;
use crate::text::same_text;

verus! {

/// The greatest number of repairs that [`check_double_songs`] makes on one queue.
pub const MAX_ROUNDS: usize = 100_000;

/// `ids` gives every song a label: the length of the queue to a song without a
/// real name, and the same label to two songs exactly when they share their real name.
pub open spec fn labelled(names: Seq<Option<Seq<char>>>, ids: Seq<usize>) -> bool {
    &&& ids.len() == names.len()
    &&& forall|i: int| 0 <= i < names.len() ==> (#[trigger] ids[i]) <= names.len()
    &&& forall|i: int| 0 <= i < names.len() ==> ((#[trigger] ids[i]) == names.len() <==> names[i] is None)
    &&& forall|i: int, j: int|
        0 <= i < names.len() && 0 <= j < names.len() ==> ((#[trigger] ids[i]) == (#[trigger] ids[j])
            <==> names[i] == names[j])
}

/// The label of every song with a real name is the index of the first song with that name.
pub open spec fn labelled_by_first(names: Seq<Option<Seq<char>>>, ids: Seq<usize>) -> bool {
    &&& ids.len() == names.len()
    &&& forall|i: int| 0 <= i < names.len() && names[i] is None ==> (#[trigger] ids[i]) == names.len()
    &&& forall|i: int|
        0 <= i < names.len() && names[i] is Some ==> {
            &&& (#[trigger] ids[i]) <= i
            &&& names[ids[i] as int] == names[i]
            &&& forall|k: int| 0 <= k < ids[i] ==> names[k] != names[i]
        }
}

/// `counts` holds, under the label of every song with a real name, how many songs have that name.
pub open spec fn counted(names: Seq<Option<Seq<char>>>, ids: Seq<usize>, counts: Seq<usize>) -> bool {
    &&& counts.len() == names.len()
    &&& forall|i: int|
        0 <= i < names.len() && names[i] is Some ==> counts[(#[trigger] ids[i]) as int] == count_of(
            names,
            names[i],
        )
}

/// Labels that follow the first occurrences are labels.
proof fn lemma_first_labels(names: Seq<Option<Seq<char>>>, ids: Seq<usize>)
    requires
        labelled_by_first(names, ids),
    ensures
        labelled(names, ids),
{
    assert forall|i: int, j: int| 0 <= i < names.len() && 0 <= j < names.len() implies ((#[trigger] ids[i])
        == (#[trigger] ids[j]) <==> names[i] == names[j]) by {
        if names[i] is Some && names[j] is Some {
            if names[i] == names[j] {
                if ids[i] < ids[j] {
                    assert(names[ids[i] as int] != names[j]);
                }
                if ids[j] < ids[i] {
                    assert(names[ids[j] as int] != names[i]);
                }
            }
        }
    }
}

/// Gives every song of the queue its label.
fn label_songs<'name, T: Song<'name>>(files: &Vec<T>) -> (ids: Vec<usize>)
    ensures
        labelled_by_first(names_of(files@), ids@),
        labelled(names_of(files@), ids@),
{
    let ghost names = names_of(files@);
    let length: usize = files.len();
    let mut ids: Vec<usize> = Vec::new();
    let mut i: usize = 0;
    while i < length
        invariant
            names == names_of(files@),
            length == files@.len(),
            i <= length,
            ids@.len() == i,
            forall|a: int| 0 <= a < i && names[a] is None ==> (#[trigger] ids@[a]) == length,
            forall|a: int|
                0 <= a < i && names[a] is Some ==> {
                    &&& (#[trigger] ids@[a]) <= a
                    &&& names[ids@[a] as int] == names[a]
                    &&& forall|k: int| 0 <= k < ids@[a] ==> names[k] != names[a]
                },
        decreases length - i,
    {
        let mut label: usize = length;
        if let Some(name) = files[i].get_real_name() {
            label = i;
            let mut k: usize = 0;
            while k < i
                invariant_except_break
                    label == i,
                    forall|m: int| 0 <= m < k ==> names[m] != names[i as int],
                invariant
                    names == names_of(files@),
                    length == files@.len(),
                    i < length,
                    k <= i,
                    ids@.len() == i,
                    names[i as int] == Some(name@),
                    forall|a: int| 0 <= a < i && names[a] is None ==> (#[trigger] ids@[a]) == length,
                    forall|a: int|
                        0 <= a < i && names[a] is Some ==> {
                            &&& (#[trigger] ids@[a]) <= a
                            &&& names[ids@[a] as int] == names[a]
                            &&& forall|m: int| 0 <= m < ids@[a] ==> names[m] != names[a]
                        },
                ensures
                    label <= i,
                    names[label as int] == names[i as int],
                    forall|m: int| 0 <= m < label ==> names[m] != names[i as int],
                decreases i - k,
            {
                if ids[k] == k {
                    if let Some(other) = files[k].get_real_name() {
                        if same_text(other, name) {
                            label = k;
                            break;
                        }
                    }
                } else {
                    assert(names[k as int] != names[i as int]) by {
                        if names[k as int] is Some {
                            assert(names[ids@[k as int] as int] == names[k as int]);
                        }
                    }
                }
                k += 1;
            }
        }
        ids.push(label);
        i += 1;
    }
    proof {
        lemma_first_labels(names, ids@);
    }
    ids
}

/// Counts the songs under every label.
fn count_labels(ids: &Vec<usize>, Ghost(names): Ghost<Seq<Option<Seq<char>>>>) -> (counts: Vec<usize>)
    requires
        labelled(names, ids@),
    ensures
        counted(names, ids@, counts@),
{
    let length: usize = ids.len();
    let mut counts: Vec<usize> = Vec::new();
    let mut g: usize = 0;
    while g < length
        invariant
            g <= length,
            counts@.len() == g,
            forall|a: int| 0 <= a < g ==> counts@[a] == 0,
        decreases length - g,
    {
        counts.push(0);
        g += 1;
    }
    let mut i: usize = 0;
    proof {
        let nothing = names.subrange(0, 0);
        assert forall|k: int| 0 <= k < length implies count_of(nothing, #[trigger] names[k]) == 0 by {
            to_multiset_contains(nothing, names[k]);
        }
    }
    while i < length
        invariant
            labelled(names, ids@),
            length == names.len(),
            i <= length,
            counts@.len() == length,
            forall|a: int| 0 <= a < length ==> (#[trigger] counts@[a]) <= i,
            forall|k: int|
                0 <= k < length && names[k] is Some ==> counts@[(#[trigger] ids@[k]) as int] == count_of(
                    names.subrange(0, i as int),
                    names[k],
                ),
        decreases length - i,
    {
        let label: usize = ids[i];
        proof {
            let before = names.subrange(0, i as int);
            assert(names.subrange(0, i + 1) =~= before.push(names[i as int]));
            to_multiset_build(before, names[i as int]);
        }
        if label < length {
            let count: usize = counts[label];
            counts.set(label, count + 1);
        }
        i += 1;
    }
    assert(names.subrange(0, length as int) =~= names);
    counts
}

/// The smallest distance accepted in a queue of `length` songs for a group of `count` songs.
fn distance_for(length: usize, count: usize) -> (distance: u128)
    requires
        count > 0,
    ensures
        distance == min_distance(length as int, count as int),
{
    (length as u128) * 3 / ((count as u128) * 4)
}

/// Searches the queue for the first target of the misplaced song at `index`.
fn find_target(
    ids: &Vec<usize>,
    index: usize,
    previous: usize,
    distance: u128,
    Ghost(names): Ghost<Seq<Option<Seq<char>>>>,
) -> (target: usize)
    requires
        labelled(names, ids@),
        index < names.len(),
        previous == previous_occurrence(names, index as int),
        distance == distance_at(names, index as int),
    ensures
        target == first_target(names, index as int),
        target <= names.len(),
{
    let length: usize = ids.len();
    let label: usize = ids[index];
    let mut j: usize = 0;
    while j < length
        invariant
            labelled(names, ids@),
            length == names.len(),
            index < length,
            label == ids@[index as int],
            j <= length,
            previous == previous_occurrence(names, index as int),
            distance == distance_at(names, index as int),
            forall|k: int| 0 <= k < j ==> !is_target(names, index as int, k),
        decreases length - j,
    {
        let gap: usize = if j >= previous {
            j - previous
        } else {
            previous - j
        };
        if gap as u128 >= distance && ids[j] != label {
            proof {
                lemma_target_from(names, index as int, 0, j as int);
            }
            return j;
        }
        j += 1;
    }
    proof {
        lemma_target_from(names, index as int, 0, length as int);
    }
    length
}

/// Scans the queue for the first song that can be repaired, and for its first target.
fn find_repair(ids: &Vec<usize>, counts: &Vec<usize>, Ghost(names): Ghost<Seq<Option<Seq<char>>>>) -> (found:
    Option<(usize, usize)>)
    requires
        labelled(names, ids@),
        counted(names, ids@, counts@),
    ensures
        match found {
            Some((i, j)) => {
                &&& i == first_repair(names)
                &&& j == first_target(names, i as int)
                &&& i < names.len()
                &&& j < names.len()
            },
            None => is_settled(names),
        },
{
    let length: usize = ids.len();
    // The last position of every label in the part of the queue that was scanned.
    let mut last: Vec<usize> = Vec::new();
    let mut g: usize = 0;
    while g < length
        invariant
            g <= length,
            last@.len() == g,
            forall|a: int| 0 <= a < g ==> last@[a] == length,
        decreases length - g,
    {
        last.push(length);
        g += 1;
    }
    let mut i: usize = 0;
    while i < length
        invariant
            labelled(names, ids@),
            counted(names, ids@, counts@),
            length == names.len(),
            i <= length,
            last@.len() == length,
            forall|k: int| 0 <= k < i ==> !repairable(names, k),
            forall|a: int|
                0 <= a < length ==> {
                    &&& (#[trigger] last@[a]) <= length
                    &&& last@[a] == length ==> forall|k: int| 0 <= k < i ==> ids@[k] != a
                    &&& last@[a] < length ==> {
                        &&& last@[a] < i
                        &&& ids@[last@[a] as int] == a
                        &&& forall|k: int| last@[a] < k < i ==> ids@[k] != a
                    }
                },
        decreases length - i,
    {
        let label: usize = ids[i];
        if label < length {
            let previous: usize = last[label];
            proof {
                let found: int = if previous < length {
                    previous as int
                } else {
                    -1
                };
                assert forall|k: int| found < k < i implies names[k] != names[i as int] by {
                    assert(ids@[k] != ids@[i as int]);
                }
                lemma_last_before(names, names[i as int], i as int, found);
            }
            if previous < length {
                let count: usize = counts[label];
                proof {
                    assert(names.contains(names[i as int]));
                    to_multiset_contains(names, names[i as int]);
                }
                let distance: u128 = distance_for(length, count);
                if ((i - previous) as u128) < distance {
                    let target: usize = find_target(ids, i, previous, distance, Ghost(names));
                    if target < length {
                        proof {
                            lemma_repair_from(names, 0, i as int);
                        }
                        return Some((i, target));
                    }
                }
            }
            last.set(label, i);
        }
        i += 1;
    }
    proof {
        lemma_repair_from(names, 0, length as int);
    }
    None
}

/// Exchanges the elements at `i` and `j`.
pub(crate) fn swap_in<T>(list: &mut Vec<T>, i: usize, j: usize)
    requires
        i < old(list)@.len(),
        j < old(list)@.len(),
    ensures
        final(list)@ == swapped(old(list)@, i as int, j as int),
{
    if i != j {
        let low: usize = if i < j {
            i
        } else {
            j
        };
        let high: usize = if i < j {
            j
        } else {
            i
        };
        let upper: T = list.remove(high);
        let lower: T = list.remove(low);
        list.insert(low, upper);
        list.insert(high, lower);
    }
    assert(list@ =~= swapped(old(list)@, i as int, j as int));
}

/// Turns the list left by one place.
fn rotate_in<T>(list: &mut Vec<T>)
    ensures
        final(list)@ == rotated(old(list)@),
{
    if list.len() > 0 {
        let first: T = list.remove(0);
        list.push(first);
    }
    assert(list@ =~= rotated(old(list)@));
}

/// Exchanging two songs exchanges their real names.
proof fn lemma_names_swapped<'name, T: Song<'name>>(files: Seq<T>, i: int, j: int)
    requires
        0 <= i < files.len(),
        0 <= j < files.len(),
    ensures
        names_of(swapped(files, i, j)) == swapped(names_of(files), i, j),
{
    assert(names_of(swapped(files, i, j)) =~= swapped(names_of(files), i, j));
}

/// Turning the queue turns its real names.
proof fn lemma_names_rotated<'name, T: Song<'name>>(files: Seq<T>)
    ensures
        names_of(rotated(files)) == rotated(names_of(files)),
{
    assert(names_of(rotated(files)) =~= rotated(names_of(files)));
}

/// An exchange keeps the elements of a sequence, each as many times as before.
pub proof fn lemma_swapped_multiset<A>(list: Seq<A>, i: int, j: int)
    requires
        0 <= i < list.len(),
        0 <= j < list.len(),
    ensures
        swapped(list, i, j).to_multiset() == list.to_multiset(),
{
    let half = list.update(i, list[j]);
    to_multiset_update(list, i, list[j]);
    to_multiset_update(half, j, list[i]);
    to_multiset_contains(list, list[i]);
    to_multiset_contains(list, list[j]);
    assert(list.contains(list[i]));
    assert(list.contains(list[j]));
    assert(swapped(list, i, j).to_multiset() =~= list.to_multiset());
}

/// A turn keeps the elements of a sequence, each as many times as before.
pub proof fn lemma_rotated_multiset<A>(list: Seq<A>)
    ensures
        rotated(list).to_multiset() == list.to_multiset(),
{
    if list.len() > 0 {
        let head = list.subrange(0, 1);
        let tail = list.subrange(1, list.len() as int);
        assert(head + tail =~= list);
        assert(tail + head =~= rotated(list));
        lemma_seq_union_to_multiset_commutative(head, tail);
    }
}

/// Labels and counts stay right when the songs and their labels are exchanged alike.
proof fn lemma_labels_swapped(
    names: Seq<Option<Seq<char>>>,
    ids: Seq<usize>,
    counts: Seq<usize>,
    i: int,
    j: int,
)
    requires
        labelled(names, ids),
        counted(names, ids, counts),
        0 <= i < names.len(),
        0 <= j < names.len(),
    ensures
        labelled(swapped(names, i, j), swapped(ids, i, j)),
        counted(swapped(names, i, j), swapped(ids, i, j), counts),
{
    let new_names = swapped(names, i, j);
    let new_ids = swapped(ids, i, j);
    let origin = |k: int| if k == i { j } else if k == j { i } else { k };
    lemma_swapped_multiset(names, i, j);
    assert forall|k: int| 0 <= k < names.len() implies new_names[k] == names[origin(k)] && (#[trigger] new_ids[k])
        == ids[origin(k)] by {}
    assert forall|a: int, b: int| 0 <= a < names.len() && 0 <= b < names.len() implies ((#[trigger] new_ids[a])
        == (#[trigger] new_ids[b]) <==> new_names[a] == new_names[b]) by {
        assert(ids[origin(a)] == ids[origin(b)] <==> names[origin(a)] == names[origin(b)]);
    }
    assert forall|k: int| 0 <= k < names.len() implies (#[trigger] new_ids[k]) <= names.len() && (new_ids[k]
        == names.len() <==> new_names[k] is None) by {
        assert(ids[origin(k)] <= names.len());
    }
    assert forall|k: int| 0 <= k < names.len() && new_names[k] is Some implies counts[(#[trigger] new_ids[k]) as int]
        == count_of(new_names, new_names[k]) by {
        assert(counts[ids[origin(k)] as int] == count_of(names, names[origin(k)]));
    }
}

/// Labels and counts stay right when the songs and their labels are turned alike.
proof fn lemma_labels_rotated(names: Seq<Option<Seq<char>>>, ids: Seq<usize>, counts: Seq<usize>)
    requires
        labelled(names, ids),
        counted(names, ids, counts),
    ensures
        labelled(rotated(names), rotated(ids)),
        counted(rotated(names), rotated(ids), counts),
{
    let new_names = rotated(names);
    let new_ids = rotated(ids);
    let length = names.len() as int;
    let origin = |k: int| if k == length - 1 { 0 } else { k + 1 };
    lemma_rotated_multiset(names);
    assert forall|k: int| 0 <= k < length implies new_names[k] == names[origin(k)] && (#[trigger] new_ids[k])
        == ids[origin(k)] by {}
    assert forall|a: int, b: int| 0 <= a < length && 0 <= b < length implies ((#[trigger] new_ids[a])
        == (#[trigger] new_ids[b]) <==> new_names[a] == new_names[b]) by {
        assert(ids[origin(a)] == ids[origin(b)] <==> names[origin(a)] == names[origin(b)]);
    }
    assert forall|k: int| 0 <= k < length implies (#[trigger] new_ids[k]) <= length && (new_ids[k] == length
        <==> new_names[k] is None) by {
        assert(ids[origin(k)] <= length);
    }
    assert forall|k: int| 0 <= k < length && new_names[k] is Some implies counts[(#[trigger] new_ids[k]) as int]
        == count_of(new_names, new_names[k]) by {
        assert(counts[ids[origin(k)] as int] == count_of(names, names[origin(k)]));
    }
}

/// Tells whether the exchange of `i` and `j` is among the remembered ones.
fn remembers(history: &Vec<(usize, usize)>, i: usize, j: usize) -> (found: bool)
    ensures
        found == history@.contains((i, j)),
{
    let mut k: usize = 0;
    while k < history.len()
        invariant
            k <= history@.len(),
            forall|m: int| 0 <= m < k ==> history@[m] != (i, j),
        decreases history@.len() - k,
    {
        let pair: (usize, usize) = history[k];
        if pair.0 == i && pair.1 == j {
            return true;
        }
        k += 1;
    }
    false
}

/// What a list of names and counts says: the characters of each name, and its count.
pub open spec fn pairs_view(pairs: Seq<(&str, usize)>) -> Seq<(Seq<char>, nat)> {
    Seq::new(pairs.len(), |i: int| (pairs[i].0@, pairs[i].1 as nat))
}

/// Searches for double songs.
/// Returns the real names that two songs or more have, in the order in which they
/// first occur in the queue, each with the number of songs that have it.
pub fn get_double_songs<'name, T: Song<'name>>(files: &Vec<T>) -> (doubles: Vec<(&'name str, usize)>)
    ensures
        pairs_view(doubles@) == double_songs_of(names_of(files@)),
{
    let ghost names = names_of(files@);
    let ids: Vec<usize> = label_songs(files);
    let counts: Vec<usize> = count_labels(&ids, Ghost(names));
    let length: usize = files.len();
    let mut doubles: Vec<(&'name str, usize)> = Vec::new();
    let mut i: usize = 0;
    while i < length
        invariant
            names == names_of(files@),
            labelled_by_first(names, ids@),
            counted(names, ids@, counts@),
            length == names.len(),
            i <= length,
            pairs_view(doubles@) == doubles_before(names, i as int),
        decreases length - i,
    {
        let ghost listed = pairs_view(doubles@);
        proof {
            lemma_last_before_found(names, names[i as int], i as int);
            if names[i as int] is Some && ids@[i as int] == i {
                lemma_last_before(names, names[i as int], i as int, -1);
            }
        }
        if ids[i] == i && counts[i] >= 2 {
            if let Some(name) = files[i].get_real_name() {
                doubles.push((name, counts[i]));
                assert(pairs_view(doubles@) =~= listed.push((name@, counts@[i as int] as nat)));
            }
        }
        i += 1;
    }
    doubles
}

/// Changes the queue order to put double songs far from each other.
///
/// The queue is scanned from its start for a song that follows the previous song
/// of its group too closely; that song is exchanged with the first song that is far
/// enough from the previous one and not of the group, and the scan starts again.
/// An exchange that was made before also turns the queue left by one place.
/// The work ends when a scan finds nothing to repair, which is reported as `true`:
/// every song is then as far from the previous song of its group as the group asks.
/// It also ends after [`MAX_ROUNDS`] repairs, which is reported as `false`.
pub fn check_double_songs<'name, T: Song<'name>>(files: &mut Vec<T>) -> (settled: bool)
    ensures
        final(files)@ == repaired(old(files)@, Seq::empty(), MAX_ROUNDS as nat),
        settled == well_separated(names_of(final(files)@)),
        final(files)@.to_multiset() == old(files)@.to_multiset(),
        final(files)@.len() == old(files)@.len(),
        well_separated(names_of(old(files)@)) ==> settled && final(files)@ == old(files)@,
{
    let mut ids: Vec<usize> = label_songs(files);
    let counts: Vec<usize> = count_labels(&ids, Ghost(names_of(files@)));
    let mut history: Vec<(usize, usize)> = Vec::new();
    let mut rounds: usize = MAX_ROUNDS;
    loop
        invariant
            labelled(names_of(files@), ids@),
            counted(names_of(files@), ids@, counts@),
            files@.to_multiset() == old(files)@.to_multiset(),
            files@.len() == old(files)@.len(),
            repaired(old(files)@, Seq::empty(), MAX_ROUNDS as nat) == repaired(files@, history@, rounds as nat),
            well_separated(names_of(old(files)@)) ==> files@ == old(files)@,
        decreases rounds,
    {
        let ghost before = files@;
        let ghost names = names_of(files@);
        let ghost remembered = history@;
        proof {
            lemma_settled_is_separated(names);
        }
        match find_repair(&ids, &counts, Ghost(names)) {
            None => {
                return true;
            },
            Some((i, j)) => {
                if rounds == 0 {
                    return false;
                }
                rounds -= 1;
                proof {
                    lemma_names_swapped(before, i as int, j as int);
                    lemma_labels_swapped(names, ids@, counts@, i as int, j as int);
                    lemma_swapped_multiset(before, i as int, j as int);
                }
                swap_in(files, i, j);
                swap_in(&mut ids, i, j);
                if remembers(&history, i, j) {
                    proof {
                        lemma_names_rotated(files@);
                        lemma_labels_rotated(names_of(files@), ids@, counts@);
                        lemma_rotated_multiset(files@);
                    }
                    history.clear();
                    rotate_in(files);
                    rotate_in(&mut ids);
                }
                history.push((i, j));
                assert(history@ =~= step_history(before, remembered));
                assert(files@ == step_files(before, remembered));
            },
        }
    }
}

} // verus!
