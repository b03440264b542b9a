use crate::note::Note;
use crate::note::NoteView;
use crate::views::count_up_to;
use crate::views::is_ascending;
use crate::views::is_first_near;
use crate::views::is_near;
use crate::views::lemma_count_up_to_is;
use crate::views::lemma_first_near_unique;
use crate::views::lemma_insert_keeps_ascending;
use crate::views::lemma_real_index_exists;
use crate::views::lemma_sorted_view_len;
use crate::views::lemma_sorted_view_permutation;
use crate::views::real_index;
use crate::views::sorted_view;
use crate::views::views;
use crate::views::FREQUENCY_EPSILON;
use vstd::prelude::*;

verus! {

/// Why the ledger left a removal undone.
#[derive(Debug, Clone, Copy, PartialEq, Eq, Structural)]
pub enum LedgerError {
    /// No note stands at the position in the order of entry.
    IndexOutOfRange,
    /// The position of the sorted view leads to no note.
    ViewDesync,
}

/// The notes in the order in which they were entered. The sorted view is
/// worked out from them whenever it is asked for, and never kept.
#[derive(Debug)]
pub struct NoteLedger {
    notes: Vec<Note>,
}

impl View for NoteLedger {
    type V = Seq<NoteView>;

    closed spec fn view(&self) -> Seq<NoteView> {
        views(self.notes@)
    }
}

/// Whether two frequencies lie within the epsilon of each other.
pub fn near(first: u64, second: u64) -> (r: bool)
    ensures
        r == is_near(first as nat, second as nat),
{
    if first >= second {
        first - second < FREQUENCY_EPSILON
    } else {
        second - first < FREQUENCY_EPSILON
    }
}

impl NoteLedger {
    /// A ledger without notes.
    pub fn new() -> (ledger: NoteLedger)
        ensures
            ledger@ == Seq::<NoteView>::empty(),
    {
        let ledger = NoteLedger { notes: Vec::new() };
        assert(ledger@ =~= Seq::<NoteView>::empty());
        ledger
    }

    /// The number of notes.
    pub fn len(&self) -> (len: usize)
        ensures
            len == self@.len(),
    {
        self.notes.len()
    }

    /// Puts a note behind all others.
    pub fn append(&mut self, note: Note)
        ensures
            final(self)@ == old(self)@.push(note@),
    {
        self.notes.push(note);
        assert(self@ =~= old(self)@.push(note@));
    }

    /// Takes out the note at a position of the order of entry and gives it
    /// back; the notes behind it move up by one. Past the end nothing is
    /// removed.
    pub fn remove_at(&mut self, index: usize) -> (removed: Result<Note, LedgerError>)
        ensures
            index < old(self)@.len() ==> removed is Ok && removed->Ok_0@ == old(self)@[index as int]
                && final(self)@ == old(self)@.remove(index as int),
            index >= old(self)@.len() ==> removed == Err::<Note, LedgerError>(
                LedgerError::IndexOutOfRange,
            ) && final(self)@ == old(self)@,
    {
        if index < self.notes.len() {
            let note = self.notes.remove(index);
            assert(self@ =~= old(self)@.remove(index as int));
            Ok(note)
        } else {
            Err(LedgerError::IndexOutOfRange)
        }
    }

    /// A copy of the notes in the order of entry, independent of the ledger.
    pub fn snapshot(&self) -> (copy: Vec<Note>)
        ensures
            views(copy@) == self@,
    {
        let mut copy: Vec<Note> = Vec::new();
        let mut i: usize = 0;
        while i < self.notes.len()
            invariant
                i <= self.notes.len(),
                copy@.len() == i,
                forall|j: int| 0 <= j < i ==> (#[trigger] copy@[j])@ == self.notes@[j]@,
            decreases self.notes.len() - i,
        {
            let note = self.notes[i].clone();
            copy.push(note);
            i = i + 1;
        }
        assert(views(copy@) =~= self@);
        copy
    }

    /// A copy of the notes in ascending order of the entered frequency; notes
    /// of one frequency keep the order in which they were entered.
    pub fn sorted(&self) -> (copy: Vec<Note>)
        ensures
            views(copy@) == sorted_view(self@),
            copy@.len() == self@.len(),
            is_ascending(views(copy@)),
            views(copy@).to_multiset() == self@.to_multiset(),
    {
        proof {
            lemma_sorted_view_len(self@);
            lemma_sorted_view_permutation(self@);
        }
        let mut copy: Vec<Note> = Vec::new();
        let mut i: usize = 0;
        assert(views(self.notes@.subrange(0, 0)) =~= Seq::<NoteView>::empty());
        assert(views(copy@) =~= Seq::<NoteView>::empty());
        while i < self.notes.len()
            invariant
                i <= self.notes.len(),
                copy@.len() == i,
                views(copy@) == sorted_view(views(self.notes@.subrange(0, i as int))),
                is_ascending(views(copy@)),
            decreases self.notes.len() - i,
        {
            let note = self.notes[i].clone();
            let mut place: usize = copy.len();
            while place > 0 && copy[place - 1].from_freq > note.from_freq
                invariant
                    place <= copy@.len(),
                    forall|j: int|
                        place <= j < copy@.len() ==> (#[trigger] views(copy@)[j]).from_freq
                            > note.from_freq,
                decreases place,
            {
                place = place - 1;
            }
            proof {
                let earlier = views(copy@);
                assert forall|j: int| 0 <= j < place implies (#[trigger] earlier[j]).from_freq
                    <= note.from_freq by {
                    assert(earlier[j].from_freq <= earlier[place - 1].from_freq);
                }
                lemma_count_up_to_is(earlier, note.from_freq as nat, place as int);
                lemma_insert_keeps_ascending(earlier, note@);
                let before = views(self.notes@.subrange(0, i as int));
                let now = views(self.notes@.subrange(0, i + 1));
                assert(now.drop_last() =~= before);
                assert(now.last() == note@);
                assert(views(copy@.insert(place as int, note)) =~= earlier.insert(
                    place as int,
                    note@,
                ));
            }
            copy.insert(place, note);
            i = i + 1;
        }
        assert(self.notes@.subrange(0, i as int) =~= self.notes@);
        copy
    }

    /// Finds for a position of the sorted view the position, in the order
    /// of entry, of the first note whose frequency lies within the epsilon of
    /// the one shown there. A position within the view always leads to one; one
    /// past its end does not.
    pub fn sorted_index_to_real_index(&self, index: usize) -> (found: Option<usize>)
        ensures
            index < self@.len() ==> found is Some && found->Some_0 as int == real_index(
                self@,
                index as int,
            ) && is_first_near(
                self@,
                sorted_view(self@)[index as int].from_freq,
                real_index(self@, index as int),
            ),
            index >= self@.len() ==> found is None,
    {
        let sorted = self.sorted();
        proof {
            lemma_sorted_view_len(self@);
        }
        if index >= sorted.len() {
            return None;
        }
        let target: u64 = sorted[index].from_freq;
        assert(target == views(sorted@)[index as int].from_freq);
        proof {
            lemma_real_index_exists(self@, index as int);
        }
        let mut at: usize = 0;
        while at < self.notes.len()
            invariant
                at <= self.notes.len(),
                index < self@.len() == self.notes.len(),
                target == sorted_view(self@)[index as int].from_freq,
                is_first_near(self@, target as nat, real_index(self@, index as int)),
                forall|i: int| 0 <= i < at ==> !is_near(#[trigger] self@[i].from_freq, target as nat),
            decreases self.notes.len() - at,
        {
            if near(self.notes[at].from_freq, target) {
                assert(self@[at as int].from_freq == self.notes[at as int].from_freq);
                proof {
                    lemma_first_near_unique(
                        self@,
                        target as nat,
                        at as int,
                        real_index(self@, index as int),
                    );
                }
                return Some(at);
            }
            assert(self@[at as int].from_freq == self.notes[at as int].from_freq);
            at = at + 1;
        }
        assert(false) by {
            let found = real_index(self@, index as int);
            assert(is_near(self@[found].from_freq, target as nat));
        }
        None
    }

    /// Takes out the note that a position of the sorted view leads to,
    /// and gives it back.
    pub fn remove_sorted(&mut self, index: usize) -> (removed: Result<Note, LedgerError>)
        ensures
            index < old(self)@.len() ==> removed is Ok && removed->Ok_0@ == old(self)@[real_index(
                old(self)@,
                index as int,
            )] && final(self)@ == old(self)@.remove(real_index(old(self)@, index as int)),
            index >= old(self)@.len() ==> removed == Err::<Note, LedgerError>(
                LedgerError::ViewDesync,
            ) && final(self)@ == old(self)@,
    {
        match self.sorted_index_to_real_index(index) {
            Some(entry) => self.remove_at(entry),
            None => Err(LedgerError::ViewDesync),
        }
    }
}

} // verus!
