use crate::note::Note;
use crate::note::NoteView;
use vstd::prelude::*;
use vstd::seq_lib::*;

verus! {

/// Two frequencies closer than this many microhertz, a thousandth of a hertz,
/// are taken for the same entry when a position of the sorted view is looked up.
pub const FREQUENCY_EPSILON: u64 = 1_000;

/// The notes of a vector, as mathematical values.
pub open spec fn views(notes: Seq<Note>) -> Seq<NoteView> {
    Seq::new(notes.len(), |i: int| notes[i]@)
}

/// The entered frequencies of a sequence of notes, in its order.
pub open spec fn frequencies(notes: Seq<NoteView>) -> Seq<nat> {
    Seq::new(notes.len(), |i: int| notes[i].from_freq)
}

/// Whether the entered frequencies never fall along the sequence.
pub open spec fn is_ascending(notes: Seq<NoteView>) -> bool {
    forall|i: int, j: int| 0 <= i < j < notes.len() ==> notes[i].from_freq <= notes[j].from_freq
}

/// How many of the notes were entered at `freq` or lower.
pub open spec fn count_up_to(notes: Seq<NoteView>, freq: nat) -> nat
    decreases notes.len(),
{
    if notes.len() == 0 {
        0
    } else {
        count_up_to(notes.drop_last(), freq) + if notes.last().from_freq <= freq {
            1nat
        } else {
            0nat
        }
    }
}

/// The notes in ascending order of their entered frequency, notes of one
/// frequency in the order in which they were entered: each note stands behind
/// every earlier one that is not higher.
pub open spec fn sorted_view(notes: Seq<NoteView>) -> Seq<NoteView>
    decreases notes.len(),
{
    if notes.len() == 0 {
        Seq::empty()
    } else {
        let earlier = sorted_view(notes.drop_last());
        earlier.insert(count_up_to(earlier, notes.last().from_freq) as int, notes.last())
    }
}

/// Whether two frequencies lie within the epsilon of each other.
pub open spec fn is_near(first: nat, second: nat) -> bool {
    first - second < FREQUENCY_EPSILON && second - first < FREQUENCY_EPSILON
}

/// Whether `entry` is the first position, in the order of entry, of a note whose
/// frequency lies within the epsilon of `target`.
pub open spec fn is_first_near(notes: Seq<NoteView>, target: nat, entry: int) -> bool {
    &&& 0 <= entry < notes.len()
    &&& is_near(notes[entry].from_freq, target)
    &&& forall|i: int| 0 <= i < entry ==> !is_near(#[trigger] notes[i].from_freq, target)
}

/// The position, in the order of entry, that a position of the sorted view
/// leads to: that of the first note within the epsilon of the frequency
/// shown there.
pub open spec fn real_index(notes: Seq<NoteView>, sorted_index: int) -> int {
    choose|entry: int| is_first_near(notes, sorted_view(notes)[sorted_index].from_freq, entry)
}

/// No more notes are counted than there are.
pub proof fn lemma_count_up_to_bound(notes: Seq<NoteView>, freq: nat)
    ensures
        count_up_to(notes, freq) <= notes.len(),
    decreases notes.len(),
{
    if notes.len() > 0 {
        lemma_count_up_to_bound(notes.drop_last(), freq);
    }
}

/// In an ascending sequence the notes up to a frequency are its beginning.
pub proof fn lemma_count_up_to_splits(notes: Seq<NoteView>, freq: nat)
    requires
        is_ascending(notes),
    ensures
        count_up_to(notes, freq) <= notes.len(),
        forall|i: int| 0 <= i < count_up_to(notes, freq) ==> (#[trigger] notes[i]).from_freq <= freq,
        forall|i: int|
            count_up_to(notes, freq) <= i < notes.len() ==> (#[trigger] notes[i]).from_freq > freq,
    decreases notes.len(),
{
    if notes.len() > 0 {
        let init = notes.drop_last();
        assert forall|i: int, j: int| 0 <= i < j < init.len() implies init[i].from_freq
            <= init[j].from_freq by {
            assert(init[i] == notes[i] && init[j] == notes[j]);
        }
        lemma_count_up_to_splits(init, freq);
        let before = count_up_to(init, freq);
        if notes.last().from_freq <= freq {
            if before < init.len() {
                assert(init[before as int].from_freq > freq);
                assert(init[before as int] == notes[before as int]);
                assert(notes[before as int].from_freq <= notes[notes.len() - 1].from_freq);
            }
            assert forall|i: int| 0 <= i < count_up_to(notes, freq) implies (#[trigger] notes[i]).from_freq
                <= freq by {
                if i < init.len() {
                    assert(init[i] == notes[i]);
                }
            }
        } else {
            assert forall|i: int| 0 <= i < count_up_to(notes, freq) implies (#[trigger] notes[i]).from_freq
                <= freq by {
                assert(init[i] == notes[i]);
            }
            assert forall|i: int| count_up_to(notes, freq) <= i < notes.len() implies (
            #[trigger] notes[i]).from_freq > freq by {
                if i < init.len() {
                    assert(init[i] == notes[i]);
                }
            }
        }
    }
}

/// Where an ascending sequence divides at a frequency, there its count stands.
pub proof fn lemma_count_up_to_is(notes: Seq<NoteView>, freq: nat, place: int)
    requires
        0 <= place <= notes.len(),
        forall|i: int| 0 <= i < place ==> (#[trigger] notes[i]).from_freq <= freq,
        forall|i: int| place <= i < notes.len() ==> (#[trigger] notes[i]).from_freq > freq,
    ensures
        count_up_to(notes, freq) == place,
    decreases notes.len(),
{
    if notes.len() > 0 {
        let init = notes.drop_last();
        let last = notes.len() - 1;
        assert(notes[last] == notes.last());
        if place == notes.len() {
            assert forall|i: int| 0 <= i < place - 1 implies (#[trigger] init[i]).from_freq
                <= freq by {
                assert(init[i] == notes[i]);
            }
            lemma_count_up_to_is(init, freq, place - 1);
        } else {
            assert forall|i: int| 0 <= i < place implies (#[trigger] init[i]).from_freq
                <= freq by {
                assert(init[i] == notes[i]);
            }
            assert forall|i: int| place <= i < init.len() implies (#[trigger] init[i]).from_freq
                > freq by {
                assert(init[i] == notes[i]);
            }
            lemma_count_up_to_is(init, freq, place);
        }
    }
}

/// The sorted view holds as many notes as were entered.
pub proof fn lemma_sorted_view_len(notes: Seq<NoteView>)
    ensures
        sorted_view(notes).len() == notes.len(),
    decreases notes.len(),
{
    if notes.len() > 0 {
        let earlier = sorted_view(notes.drop_last());
        lemma_sorted_view_len(notes.drop_last());
        lemma_count_up_to_bound(earlier, notes.last().from_freq);
    }
}

/// A note put behind those that are not higher keeps an ascending sequence
/// ascending.
pub proof fn lemma_insert_keeps_ascending(earlier: Seq<NoteView>, note: NoteView)
    requires
        is_ascending(earlier),
    ensures
        is_ascending(earlier.insert(count_up_to(earlier, note.from_freq) as int, note)),
{
    let place = count_up_to(earlier, note.from_freq) as int;
    lemma_count_up_to_splits(earlier, note.from_freq);
    let out = earlier.insert(place, note);
    assert forall|i: int, j: int| 0 <= i < j < out.len() implies out[i].from_freq
        <= out[j].from_freq by {
        if j < place {
            assert(out[i] == earlier[i] && out[j] == earlier[j]);
        } else if j == place {
            assert(out[i] == earlier[i]);
        } else if i < place {
            assert(out[i] == earlier[i] && out[j] == earlier[j - 1]);
        } else if i == place {
            assert(out[j] == earlier[j - 1]);
        } else {
            assert(out[i] == earlier[i - 1] && out[j] == earlier[j - 1]);
        }
    }
}

/// The sorted view is in ascending order of the entered frequencies.
pub proof fn lemma_sorted_view_ascending(notes: Seq<NoteView>)
    ensures
        is_ascending(sorted_view(notes)),
    decreases notes.len(),
{
    if notes.len() > 0 {
        lemma_sorted_view_ascending(notes.drop_last());
        lemma_insert_keeps_ascending(sorted_view(notes.drop_last()), notes.last());
    }
}

/// The sorted view holds the notes that were entered, each as often as it was
/// entered.
pub proof fn lemma_sorted_view_permutation(notes: Seq<NoteView>)
    ensures
        sorted_view(notes).to_multiset() == notes.to_multiset(),
    decreases notes.len(),
{
    if notes.len() == 0 {
        assert(sorted_view(notes) =~= notes);
    } else {
        let init = notes.drop_last();
        let earlier = sorted_view(init);
        lemma_sorted_view_permutation(init);
        lemma_count_up_to_bound(earlier, notes.last().from_freq);
        to_multiset_insert(earlier, count_up_to(earlier, notes.last().from_freq) as int, notes.last());
        to_multiset_build(init, notes.last());
        assert(init.push(notes.last()) =~= notes);
    }
}

/// Every note of the sorted view was entered: the position given back is one
/// at which it stands in the order of entry.
pub proof fn lemma_sorted_view_source(notes: Seq<NoteView>, sorted_index: int) -> (entry: int)
    requires
        0 <= sorted_index < notes.len(),
    ensures
        0 <= entry < notes.len(),
        notes[entry] == sorted_view(notes)[sorted_index],
    decreases notes.len(),
{
    let init = notes.drop_last();
    let earlier = sorted_view(init);
    let place = count_up_to(earlier, notes.last().from_freq) as int;
    lemma_sorted_view_len(init);
    lemma_count_up_to_bound(earlier, notes.last().from_freq);
    if sorted_index == place {
        notes.len() - 1
    } else if sorted_index < place {
        let entry = lemma_sorted_view_source(init, sorted_index);
        assert(init[entry] == notes[entry]);
        entry
    } else {
        let entry = lemma_sorted_view_source(init, sorted_index - 1);
        assert(init[entry] == notes[entry]);
        entry
    }
}

/// The test for a note entered at `freq`.
pub open spec fn has_frequency(freq: nat) -> spec_fn(NoteView) -> bool {
    |note: NoteView| note.from_freq == freq
}

/// The notes entered at `freq`, in their order.
pub open spec fn entered_at(notes: Seq<NoteView>, freq: nat) -> Seq<NoteView> {
    notes.filter(has_frequency(freq))
}

/// Sorting is stable: the notes of one frequency stand in the sorted view in
/// the order in which they were entered.
pub proof fn lemma_sorted_view_stable(notes: Seq<NoteView>, freq: nat)
    ensures
        entered_at(sorted_view(notes), freq) == entered_at(notes, freq),
    decreases notes.len(),
{
    if notes.len() > 0 {
        let init = notes.drop_last();
        let earlier = sorted_view(init);
        let last = notes.last();
        let place = count_up_to(earlier, last.from_freq) as int;
        let pred = has_frequency(freq);
        lemma_sorted_view_stable(init, freq);
        lemma_sorted_view_ascending(init);
        lemma_count_up_to_splits(earlier, last.from_freq);
        let head = earlier.subrange(0, place);
        let tail = earlier.subrange(place, earlier.len() as int);
        assert(earlier =~= head + tail);
        assert(earlier.insert(place, last) =~= head.push(last) + tail);
        Seq::filter_distributes_over_add(head, tail, pred);
        Seq::filter_distributes_over_add(head.push(last), tail, pred);
        head.lemma_filter_push(last, pred);
        init.lemma_filter_push(last, pred);
        assert(init.push(last) =~= notes);
        if last.from_freq == freq {
            assert forall|i: int| 0 <= i < tail.len() implies !pred(#[trigger] tail[i]) by {
                assert(tail[i] == earlier[place + i]);
            }
            assert(tail.all(|x: NoteView| !pred(x)));
            tail.lemma_all_neg_filter_empty(pred);
            assert(tail.filter(pred) =~= Seq::<NoteView>::empty());
            assert(head.filter(pred) + tail.filter(pred) =~= head.filter(pred));
            assert(head.filter(pred).push(last) + tail.filter(pred) =~= head.filter(pred).push(
                last,
            ));
        }
    }
}

/// Whether the entered frequencies that differ lie apart by the epsilon or
/// more, so that only notes of one frequency are taken for the same entry.
pub open spec fn frequencies_apart(notes: Seq<NoteView>) -> bool {
    forall|i: int, j: int|
        0 <= i < notes.len() && 0 <= j < notes.len() && is_near(
            (#[trigger] notes[i]).from_freq,
            (#[trigger] notes[j]).from_freq,
        ) ==> notes[i].from_freq == notes[j].from_freq
}

/// At most one position is the first near a frequency.
pub proof fn lemma_first_near_unique(notes: Seq<NoteView>, target: nat, first: int, second: int)
    requires
        is_first_near(notes, target, first),
        is_first_near(notes, target, second),
    ensures
        first == second,
{
}

/// A position of the sorted view always leads to a position of entry.
pub proof fn lemma_real_index_exists(notes: Seq<NoteView>, sorted_index: int)
    requires
        0 <= sorted_index < notes.len(),
    ensures
        is_first_near(
            notes,
            sorted_view(notes)[sorted_index].from_freq,
            real_index(notes, sorted_index),
        ),
{
    let target = sorted_view(notes)[sorted_index].from_freq;
    let source = lemma_sorted_view_source(notes, sorted_index);
    lemma_first_near_from(notes, target, 0, source);
}

/// Where the entered frequencies that differ lie apart, a position of the
/// sorted view leads to a note of the very frequency that is shown there.
pub proof fn lemma_real_index_frequency(notes: Seq<NoteView>, sorted_index: int)
    requires
        0 <= sorted_index < notes.len(),
        frequencies_apart(notes),
    ensures
        notes[real_index(notes, sorted_index)].from_freq == sorted_view(
            notes,
        )[sorted_index].from_freq,
{
    let source = lemma_sorted_view_source(notes, sorted_index);
    lemma_real_index_exists(notes, sorted_index);
    assert(is_near(notes[real_index(notes, sorted_index)].from_freq, notes[source].from_freq));
}

proof fn lemma_first_near_from(notes: Seq<NoteView>, target: nat, start: int, source: int)
    requires
        0 <= start <= source < notes.len(),
        is_near(notes[source].from_freq, target),
        forall|i: int| 0 <= i < start ==> !is_near(#[trigger] notes[i].from_freq, target),
    ensures
        exists|entry: int| is_first_near(notes, target, entry),
    decreases source - start,
{
    if is_near(notes[start].from_freq, target) {
        assert(is_first_near(notes, target, start));
    } else {
        lemma_first_near_from(notes, target, start + 1, source);
    }
}

} // verus!
