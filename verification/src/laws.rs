use crate::app::AppView;
use crate::app::Key;
use crate::note::NoteView;
use crate::views::count_up_to;
use crate::views::frequencies;
use crate::views::frequencies_apart;
use crate::views::lemma_real_index_frequency;
use crate::views::lemma_count_up_to_bound;
use crate::views::lemma_real_index_exists;
use crate::views::lemma_sorted_view_ascending;
use crate::views::lemma_sorted_view_len;
use crate::views::real_index;
use crate::views::sorted_view;
use vstd::prelude::*;
use vstd::relations::*;
use vstd::seq_lib::*;

verus! {

/// What can be done to the list of a session.
pub enum Command {
    Append(NoteView),
    ToggleSort,
    DeleteSelected,
    SelectNext,
    SelectPrevious,
}

/// The session after a command.
pub open spec fn after_command(state: AppView, command: Command) -> AppView {
    match command {
        Command::Append(note) => state.appended(note),
        Command::ToggleSort => state.toggled(),
        Command::DeleteSelected => state.deleted(),
        Command::SelectNext => state.moved_down(),
        Command::SelectPrevious => state.moved_up(),
    }
}

/// The session after a sequence of commands, the first of them first.
pub open spec fn after_commands(start: AppView, commands: Seq<Command>) -> AppView
    decreases commands.len(),
{
    if commands.len() == 0 {
        start
    } else {
        after_command(after_commands(start, commands.drop_last()), commands.last())
    }
}

/// How many of the commands put a note into the ledger.
pub open spec fn appends_in(commands: Seq<Command>) -> nat
    decreases commands.len(),
{
    if commands.len() == 0 {
        0
    } else {
        appends_in(commands.drop_last()) + if commands.last() is Append {
            1nat
        } else {
            0nat
        }
    }
}

/// How many of the commands took a note out of the ledger: the deletions that
/// found a note selected.
pub open spec fn deletions_in(start: AppView, commands: Seq<Command>) -> nat
    decreases commands.len(),
{
    if commands.len() == 0 {
        0
    } else {
        deletions_in(start, commands.drop_last()) + if commands.last() is DeleteSelected
            && after_commands(start, commands.drop_last()).selected_entry() is Some {
            1nat
        } else {
            0nat
        }
    }
}

/// The note that a deletion takes out stands in the ledger.
pub proof fn lemma_selected_entry_in_ledger(state: AppView)
    requires
        state.selected_entry() is Some,
    ensures
        0 <= state.selected_entry()->Some_0 < state.notes.len(),
{
    if state.cursor.sorted_active {
        lemma_real_index_exists(state.notes, state.cursor.active_position()->Some_0 as int);
    }
}

/// No command moves a selection out of its view, and a command changes the
/// number of notes by one if it appends or deletes, and not at all otherwise.
pub proof fn lemma_command_keeps_selections_in_view(state: AppView, command: Command)
    requires
        state.wf(),
    ensures
        after_command(state, command).wf(),
        after_command(state, command).notes.len() == state.notes.len() + (if command is Append {
            1int
        } else {
            0int
        }) - (if command is DeleteSelected && state.selected_entry() is Some {
            1int
        } else {
            0int
        }),
{
    if command is DeleteSelected && state.selected_entry() is Some {
        lemma_selected_entry_in_ledger(state);
    }
}

/// After any sequence of appends, deletions, changes of view and moves, the
/// ledger holds as many notes as it held before, and as were appended, less
/// those that were deleted; and each selection that is set lies within its
/// view.
pub proof fn lemma_commands_keep_count(start: AppView, commands: Seq<Command>)
    requires
        start.wf(),
    ensures
        after_commands(start, commands).wf(),
        after_commands(start, commands).notes.len() == start.notes.len() + appends_in(commands)
            - deletions_in(start, commands),
    decreases commands.len(),
{
    if commands.len() > 0 {
        lemma_commands_keep_count(start, commands.drop_last());
        lemma_command_keeps_selections_in_view(
            after_commands(start, commands.drop_last()),
            commands.last(),
        );
    }
}

/// No key moves a selection out of its view.
pub proof fn lemma_key_keeps_selections_in_view(state: AppView, key: Key)
    requires
        state.wf(),
    ensures
        state.after_key(key).wf(),
{
    let stopped = if key == Key::Char('q') {
        state.stopped()
    } else {
        state
    };
    if stopped.selected_entry() is Some {
        lemma_selected_entry_in_ledger(stopped);
    }
}

/// Changing the view twice gives the session as it was: the same view shown,
/// with the same selection.
pub proof fn lemma_toggle_sort_twice(state: AppView)
    ensures
        state.toggled().toggled() == state,
        state.toggled().cursor.input == state.cursor.input,
        state.toggled().cursor.sorted == state.cursor.sorted,
{
}

/// The frequencies of a sorted view hold those that were entered, each as
/// often as it was entered.
pub proof fn lemma_sorted_frequencies_permutation(notes: Seq<NoteView>)
    ensures
        frequencies(sorted_view(notes)).to_multiset() == frequencies(notes).to_multiset(),
    decreases notes.len(),
{
    if notes.len() == 0 {
        assert(frequencies(sorted_view(notes)) =~= frequencies(notes));
    } else {
        let init = notes.drop_last();
        let earlier = sorted_view(init);
        let last = notes.last();
        let place = count_up_to(earlier, last.from_freq) as int;
        lemma_sorted_frequencies_permutation(init);
        lemma_count_up_to_bound(earlier, last.from_freq);
        assert(frequencies(earlier.insert(place, last)) =~= frequencies(earlier).insert(
            place,
            last.from_freq,
        ));
        assert(frequencies(notes) =~= frequencies(init).push(last.from_freq));
        to_multiset_insert(frequencies(earlier), place, last.from_freq);
        to_multiset_build(frequencies(init), last.from_freq);
    }
}

/// Deleting the note that is selected in the sorted view takes out of the
/// ledger a note of the frequency shown at the selection, leaves every other
/// note as it was and in its place among the others, and leaves the sorted
/// view without the frequency at the selection and otherwise as it was. This
/// holds wherever the lookup finds a note of the very frequency that is
/// shown; a note entered earlier within the epsilon of it, at another
/// frequency, is found in its place. `lemma_real_index_frequency` gives this
/// for every ledger whose differing frequencies lie apart.
pub proof fn lemma_delete_in_sorted_view(state: AppView, position: usize)
    requires
        state.wf(),
        state.cursor.sorted_active,
        state.cursor.sorted == Some(position),
        state.notes[real_index(state.notes, position as int)].from_freq == sorted_view(
            state.notes,
        )[position as int].from_freq,
    ensures
        state.deleted().notes == state.notes.remove(real_index(state.notes, position as int)),
        state.deleted().notes.len() == state.notes.len() - 1,
        forall|i: int|
            0 <= i < real_index(state.notes, position as int) ==> state.deleted().notes[i]
                == state.notes[i],
        forall|i: int|
            real_index(state.notes, position as int) <= i < state.notes.len() - 1
                ==> state.deleted().notes[i] == state.notes[i + 1],
        frequencies(sorted_view(state.deleted().notes)) == frequencies(
            sorted_view(state.notes),
        ).remove(position as int),
{
    let notes = state.notes;
    let entry = real_index(notes, position as int);
    lemma_real_index_exists(notes, position as int);
    let left = notes.remove(entry);
    let target = notes[entry].from_freq;
    let leq = |a: nat, b: nat| a <= b;
    let before = frequencies(sorted_view(notes));
    let after = frequencies(sorted_view(left));
    lemma_sorted_view_len(notes);
    lemma_sorted_view_len(left);
    lemma_sorted_view_ascending(notes);
    lemma_sorted_view_ascending(left);
    lemma_sorted_frequencies_permutation(notes);
    lemma_sorted_frequencies_permutation(left);
    assert(frequencies(left) =~= frequencies(notes).remove(entry));
    to_multiset_remove(frequencies(notes), entry);
    to_multiset_remove(before, position as int);
    assert(before[position as int] == target);
    assert(frequencies(notes)[entry] == target);
    assert(after.to_multiset() == before.remove(position as int).to_multiset());
    assert(sorted_by(after, leq)) by {
        assert forall|i: int, j: int| 0 <= i < j < after.len() implies #[trigger] leq(
            after[i],
            after[j],
        ) by {
            assert(sorted_view(left)[i].from_freq <= sorted_view(left)[j].from_freq);
        }
    }
    let shorter = before.remove(position as int);
    assert(sorted_by(shorter, leq)) by {
        assert forall|i: int, j: int| 0 <= i < j < shorter.len() implies #[trigger] leq(
            shorter[i],
            shorter[j],
        ) by {
            let from_i = if i < position {
                i
            } else {
                i + 1
            };
            let from_j = if j < position {
                j
            } else {
                j + 1
            };
            assert(sorted_view(notes)[from_i].from_freq <= sorted_view(notes)[from_j].from_freq);
        }
    }
    assert(total_ordering(leq)) by {
        assert(reflexive(leq));
        assert(antisymmetric(leq));
        assert(transitive(leq));
        assert(strongly_connected(leq));
    }
    lemma_sorted_unique(after, shorter, leq);
}

/// In a ledger whose differing frequencies lie apart by the epsilon or more,
/// deleting the note that is selected in the sorted view takes out a note of
/// the frequency shown at the selection, leaves every other note as it was and
/// in its place among the others, and leaves the sorted view without the
/// frequency at the selection and otherwise as it was.
pub proof fn lemma_delete_in_sorted_view_apart(state: AppView, position: usize)
    requires
        state.wf(),
        state.cursor.sorted_active,
        state.cursor.sorted == Some(position),
        frequencies_apart(state.notes),
    ensures
        state.notes[real_index(state.notes, position as int)].from_freq == sorted_view(
            state.notes,
        )[position as int].from_freq,
        state.deleted().notes == state.notes.remove(real_index(state.notes, position as int)),
        state.deleted().notes.len() == state.notes.len() - 1,
        frequencies(sorted_view(state.deleted().notes)) == frequencies(
            sorted_view(state.notes),
        ).remove(position as int),
{
    lemma_real_index_frequency(state.notes, position as int);
    lemma_delete_in_sorted_view(state, position);
}

} // verus!
