use crate::cursor::DualCursor;
use crate::ledger::LedgerError;
use crate::ledger::NoteLedger;
use crate::note::note_of_frequency;
use crate::note::Note;
use crate::note::NoteView;
use crate::parse::is_digit;
use crate::parse::parse_frequency;
use crate::parse::parsed_frequency;
use crate::views::is_ascending;
use crate::views::is_first_near;
use crate::views::lemma_real_index_exists;
use crate::views::real_index;
use crate::views::sorted_view;
use crate::views::views;
use vstd::prelude::*;
use vstd::string::*;

verus! {

/// Which screen takes the keys.
#[derive(Debug, Clone, Copy, PartialEq, Eq, Structural)]
pub enum CurrentScreen {
    /// The list of notes: keys move, delete, sort and open the entry.
    Main,
    /// The entry of a frequency: keys write into the buffer.
    NoteInput,
}

/// A key, as far as the session tells keys apart.
#[derive(Debug, Clone, Copy)]
pub enum Key {
    Char(char),
    Up,
    Down,
    Enter,
    Esc,
    Backspace,
    Other,
}

/// The session: the ledger, the two selections, the screen and the text that
/// is being entered.
#[derive(Debug)]
pub struct App {
    ledger: NoteLedger,
    cursor: DualCursor,
    running: bool,
    current_screen: CurrentScreen,
    note_input: String,
}

/// What a session holds, as mathematical values.
pub struct AppView {
    pub notes: Seq<NoteView>,
    pub cursor: DualCursor,
    pub running: bool,
    pub screen: CurrentScreen,
    pub input: Seq<char>,
}

/// Whether a character is one that the entry knows: a digit or the decimal
/// point.
pub open spec fn is_input_char(c: char) -> bool {
    is_digit(c) || c == '.'
}

/// Whether the entry takes a character behind what the buffer holds: every
/// digit, and the decimal point where the buffer holds none yet.
pub open spec fn takes_char(input: Seq<char>, c: char) -> bool {
    is_digit(c) || (c == '.' && !input.contains('.'))
}

impl AppView {
    /// Whether each selection that is set lies within its view.
    pub open spec fn wf(self) -> bool {
        self.cursor.wf(self.notes.len())
    }

    /// A session that has just begun.
    pub open spec fn initial() -> AppView {
        AppView {
            notes: Seq::empty(),
            cursor: DualCursor { input: None, sorted: None, sorted_active: false },
            running: true,
            screen: CurrentScreen::Main,
            input: Seq::empty(),
        }
    }

    /// The notes as the shown view orders them.
    pub open spec fn shown_notes(self) -> Seq<NoteView> {
        if self.cursor.sorted_active {
            sorted_view(self.notes)
        } else {
            self.notes
        }
    }

    /// The position, in the order of entry, of the note that is selected in
    /// the shown view.
    pub open spec fn selected_entry(self) -> Option<int> {
        match self.cursor.active_position() {
            Some(i) => if i >= self.notes.len() {
                None
            } else if self.cursor.sorted_active {
                Some(real_index(self.notes, i as int))
            } else {
                Some(i as int)
            },
            None => None,
        }
    }

    /// A note put behind all others. The selections stay.
    pub open spec fn appended(self, note: NoteView) -> AppView {
        AppView { notes: self.notes.push(note), ..self }
    }

    /// The note at `entry` taken out, and both selections brought back within
    /// the shorter views.
    pub open spec fn removed(self, entry: int) -> AppView {
        AppView {
            notes: self.notes.remove(entry),
            cursor: self.cursor.clamped_to((self.notes.len() - 1) as nat),
            ..self
        }
    }

    /// The selected note taken out, or nothing changed where none is selected.
    pub open spec fn deleted(self) -> AppView {
        match self.selected_entry() {
            Some(entry) => self.removed(entry),
            None => self,
        }
    }

    /// The shown view's selection moved one note down.
    pub open spec fn moved_down(self) -> AppView {
        AppView { cursor: self.cursor.moved_down(self.notes.len()), ..self }
    }

    /// The shown view's selection moved one note up.
    pub open spec fn moved_up(self) -> AppView {
        AppView { cursor: self.cursor.moved_up(self.notes.len()), ..self }
    }

    /// The other view shown, both selections as they were.
    pub open spec fn toggled(self) -> AppView {
        AppView { cursor: self.cursor.toggled(), ..self }
    }

    /// The entry of a frequency opened.
    pub open spec fn input_begun(self) -> AppView {
        AppView { screen: CurrentScreen::NoteInput, ..self }
    }

    /// A character written into the buffer, if the entry takes it: a digit
    /// always, a decimal point only as the first one.
    pub open spec fn typed(self, c: char) -> AppView {
        if takes_char(self.input, c) {
            AppView { input: self.input.push(c), ..self }
        } else {
            self
        }
    }

    /// The last character of the buffer taken back.
    pub open spec fn erased(self) -> AppView {
        if self.input.len() > 0 {
            AppView { input: self.input.drop_last(), ..self }
        } else {
            self
        }
    }

    /// The entry given up: the buffer emptied, back on the list.
    pub open spec fn cancelled(self) -> AppView {
        AppView { screen: CurrentScreen::Main, input: Seq::empty(), ..self }
    }

    /// Whether the buffer writes a frequency above zero.
    pub open spec fn input_accepted(self) -> bool {
        match parsed_frequency(self.input) {
            Some(freq) => freq > 0,
            None => false,
        }
    }

    /// The entry closed: the note of the buffer's frequency put behind the
    /// others if the buffer writes a frequency above zero, and no note
    /// otherwise; either way the buffer emptied, back on the list.
    pub open spec fn committed(self) -> AppView {
        AppView {
            notes: if self.input_accepted() {
                self.notes.push(note_of_frequency(parsed_frequency(self.input)->Some_0))
            } else {
                self.notes
            },
            screen: CurrentScreen::Main,
            input: Seq::empty(),
            ..self
        }
    }

    /// The session ended.
    pub open spec fn stopped(self) -> AppView {
        AppView { running: false, ..self }
    }

    /// What a key does on the screen that is shown, `q` aside.
    pub open spec fn after_screen_key(self, key: Key) -> AppView {
        match self.screen {
            CurrentScreen::Main => match key {
                Key::Up => self.moved_up(),
                Key::Down => self.moved_down(),
                Key::Char(c) => if c == 'd' {
                    self.deleted()
                } else if c == 'n' {
                    self.input_begun()
                } else if c == 's' {
                    self.toggled()
                } else {
                    self
                },
                _ => self,
            },
            CurrentScreen::NoteInput => match key {
                Key::Esc => self.cancelled(),
                Key::Enter => self.committed(),
                Key::Char(c) => self.typed(c),
                Key::Backspace => self.erased(),
                _ => self,
            },
        }
    }

    /// The session after a key: `q` ends it on either screen, and every key
    /// does what the shown screen has for it.
    pub open spec fn after_key(self, key: Key) -> AppView {
        let state = if key == Key::Char('q') {
            self.stopped()
        } else {
            self
        };
        state.after_screen_key(key)
    }
}

impl View for App {
    type V = AppView;

    closed spec fn view(&self) -> AppView {
        AppView {
            notes: self.ledger@,
            cursor: self.cursor,
            running: self.running,
            screen: self.current_screen,
            input: self.note_input@,
        }
    }
}

/// Whether a text holds a decimal point.
fn holds_point(text: &str) -> (r: bool)
    ensures
        r == text@.contains('.'),
{
    let len = text.unicode_len();
    let mut at: usize = 0;
    while at < len
        invariant
            at <= len,
            len == text@.len(),
            forall|i: int| 0 <= i < at ==> text@[i] != '.',
        decreases len - at,
    {
        if text.get_char(at) == '.' {
            return true;
        }
        at = at + 1;
    }
    false
}

/// The text of a character that the entry knows.
fn input_text(c: char) -> (text: Option<&'static str>)
    ensures
        match text {
            Some(t) => is_input_char(c) && t@ == seq![c],
            None => !is_input_char(c),
        },
{
    if c == '0' {
        proof {
            reveal_strlit("0");
        }
        assert("0"@ =~= seq![c]);
        Some("0")
    } else if c == '1' {
        proof {
            reveal_strlit("1");
        }
        assert("1"@ =~= seq![c]);
        Some("1")
    } else if c == '2' {
        proof {
            reveal_strlit("2");
        }
        assert("2"@ =~= seq![c]);
        Some("2")
    } else if c == '3' {
        proof {
            reveal_strlit("3");
        }
        assert("3"@ =~= seq![c]);
        Some("3")
    } else if c == '4' {
        proof {
            reveal_strlit("4");
        }
        assert("4"@ =~= seq![c]);
        Some("4")
    } else if c == '5' {
        proof {
            reveal_strlit("5");
        }
        assert("5"@ =~= seq![c]);
        Some("5")
    } else if c == '6' {
        proof {
            reveal_strlit("6");
        }
        assert("6"@ =~= seq![c]);
        Some("6")
    } else if c == '7' {
        proof {
            reveal_strlit("7");
        }
        assert("7"@ =~= seq![c]);
        Some("7")
    } else if c == '8' {
        proof {
            reveal_strlit("8");
        }
        assert("8"@ =~= seq![c]);
        Some("8")
    } else if c == '9' {
        proof {
            reveal_strlit("9");
        }
        assert("9"@ =~= seq![c]);
        Some("9")
    } else if c == '.' {
        proof {
            reveal_strlit(".");
        }
        assert("."@ =~= seq![c]);
        Some(".")
    } else {
        None
    }
}

impl App {
    /// Whether each selection that is set lies within its view. Every session
    /// begins so and every operation keeps it so.
    pub open spec fn wf(&self) -> bool {
        self@.wf()
    }

    /// A session without notes, on the list, nothing selected.
    pub fn new() -> (app: App)
        ensures
            app.wf(),
            app@ == AppView::initial(),
    {
        App {
            ledger: NoteLedger::new(),
            cursor: DualCursor::new(),
            running: true,
            current_screen: CurrentScreen::Main,
            note_input: String::new(),
        }
    }

    /// Whether each selection that is set lies within its view.
    pub fn selections_in_view(&self) -> (r: bool)
        ensures
            r == self.wf(),
    {
        self.cursor.is_within(self.ledger.len())
    }

    /// Whether the session goes on.
    pub fn running(&self) -> (running: bool)
        ensures
            running == self@.running,
    {
        self.running
    }

    /// The screen that takes the keys.
    pub fn current_screen(&self) -> (screen: CurrentScreen)
        ensures
            screen == self@.screen,
    {
        self.current_screen
    }

    /// Whether the sorted view is the one shown.
    pub fn sorted_active(&self) -> (sorted: bool)
        ensures
            sorted == self@.cursor.sorted_active,
    {
        self.cursor.sorted_active
    }

    /// The selection of the shown view.
    pub fn selected(&self) -> (position: Option<usize>)
        ensures
            position == self@.cursor.active_position(),
    {
        self.cursor.selected()
    }

    /// Both selections and the view that is shown.
    pub fn cursor(&self) -> (cursor: DualCursor)
        ensures
            cursor == self@.cursor,
    {
        self.cursor
    }

    /// The text entered so far.
    pub fn note_input(&self) -> (text: String)
        ensures
            text@ == self@.input,
    {
        self.note_input.clone()
    }

    /// The number of notes.
    pub fn len(&self) -> (len: usize)
        ensures
            len == self@.notes.len(),
    {
        self.ledger.len()
    }

    /// A copy of the notes in the order in which they were entered.
    pub fn notes_in_input_order(&self) -> (notes: Vec<Note>)
        ensures
            views(notes@) == self@.notes,
    {
        self.ledger.snapshot()
    }

    /// A copy of the notes in ascending order of the entered frequency.
    pub fn notes_sorted(&self) -> (notes: Vec<Note>)
        ensures
            views(notes@) == sorted_view(self@.notes),
            notes@.len() == self@.notes.len(),
            is_ascending(views(notes@)),
            views(notes@).to_multiset() == self@.notes.to_multiset(),
    {
        self.ledger.sorted()
    }

    /// A copy of the notes as the shown view orders them.
    pub fn shown_notes(&self) -> (notes: Vec<Note>)
        ensures
            views(notes@) == self@.shown_notes(),
    {
        if self.cursor.sorted_active {
            self.ledger.sorted()
        } else {
            self.ledger.snapshot()
        }
    }

    /// Finds for a position of the sorted view the position, in the order
    /// of entry, of the first note whose frequency lies within the epsilon of
    /// the one shown there. Only a position past the end leads to none.
    pub fn sorted_index_to_real_index(&self, index: usize) -> (found: Option<usize>)
        ensures
            index < self@.notes.len() ==> found is Some && found->Some_0 as int
                == real_index(self@.notes, index as int) && is_first_near(
                self@.notes,
                sorted_view(self@.notes)[index as int].from_freq,
                real_index(self@.notes, index as int),
            ),
            index >= self@.notes.len() ==> found is None,
    {
        self.ledger.sorted_index_to_real_index(index)
    }

    /// Puts a note behind all others. The selections stay.
    pub fn append(&mut self, note: Note)
        requires
            old(self).wf(),
        ensures
            final(self).wf(),
            final(self)@ == old(self)@.appended(note@),
    {
        self.ledger.append(note);
    }

    /// Takes out the note at a position of the order of entry and brings both
    /// selections back within the shorter views. Past the end nothing changes.
    pub fn remove_at(&mut self, index: usize) -> (removed: Result<Note, LedgerError>)
        requires
            old(self).wf(),
        ensures
            final(self).wf(),
            index < old(self)@.notes.len() ==> removed is Ok && removed->Ok_0@
                == old(self)@.notes[index as int] && final(self)@ == old(self)@.removed(
                index as int,
            ),
            index >= old(self)@.notes.len() ==> removed == Err::<Note, LedgerError>(
                LedgerError::IndexOutOfRange,
            ) && final(self)@ == old(self)@,
    {
        let removed = self.ledger.remove_at(index);
        if removed.is_ok() {
            self.cursor.clamp(self.ledger.len());
        }
        removed
    }

    /// Takes out the note that is selected in the shown view and gives it back.
    /// In the sorted view the selection is first led back to the order of
    /// entry. Where nothing is selected nothing changes; where a note is
    /// selected its removal succeeds.
    pub fn delete_selected(&mut self) -> (removed: Option<Note>)
        requires
            old(self).wf(),
        ensures
            final(self).wf(),
            final(self)@ == old(self)@.deleted(),
            removed is Some <==> old(self)@.cursor.active_position() is Some,
            removed is Some ==> removed->Some_0@ == old(self)@.notes[old(
                self,
            )@.selected_entry()->Some_0],
    {
        match self.cursor.selected() {
            Some(position) => {
                let removed = if self.cursor.sorted_active {
                    proof {
                        lemma_real_index_exists(self@.notes, position as int);
                    }
                    self.ledger.remove_sorted(position)
                } else {
                    self.ledger.remove_at(position)
                };
                self.cursor.clamp(self.ledger.len());
                match removed {
                    Ok(note) => Some(note),
                    Err(_) => None,
                }
            },
            None => None,
        }
    }

    /// Moves the shown view's selection one note down.
    pub fn select_next(&mut self)
        requires
            old(self).wf(),
        ensures
            final(self).wf(),
            final(self)@ == old(self)@.moved_down(),
    {
        self.cursor.select_next(self.ledger.len());
    }

    /// Moves the shown view's selection one note up.
    pub fn select_previous(&mut self)
        requires
            old(self).wf(),
        ensures
            final(self).wf(),
            final(self)@ == old(self)@.moved_up(),
    {
        self.cursor.select_previous(self.ledger.len());
    }

    /// Shows the other view. Neither selection changes.
    pub fn toggle_sort(&mut self)
        requires
            old(self).wf(),
        ensures
            final(self).wf(),
            final(self)@ == old(self)@.toggled(),
    {
        self.cursor.toggle();
    }

    /// Opens the entry of a frequency.
    pub fn begin_input(&mut self)
        requires
            old(self).wf(),
        ensures
            final(self).wf(),
            final(self)@ == old(self)@.input_begun(),
    {
        self.current_screen = CurrentScreen::NoteInput;
    }

    /// Writes a digit into the buffer, or a decimal point if the buffer holds
    /// none yet; a second decimal point and any other character are dropped.
    pub fn type_char(&mut self, c: char)
        requires
            old(self).wf(),
        ensures
            final(self).wf(),
            final(self)@ == old(self)@.typed(c),
    {
        match input_text(c) {
            Some(text) => {
                if c != '.' || !holds_point(self.note_input.as_str()) {
                    self.note_input.append(text);
                    assert(self.note_input@ =~= old(self).note_input@.push(c));
                }
            },
            None => {},
        }
    }

    /// Takes the last character of the buffer back.
    pub fn backspace(&mut self)
        requires
            old(self).wf(),
        ensures
            final(self).wf(),
            final(self)@ == old(self)@.erased(),
    {
        let len = self.note_input.as_str().unicode_len();
        if len > 0 {
            let shorter = String::from_str(self.note_input.as_str().substring_char(0, len - 1));
            assert(shorter@ =~= self.note_input@.drop_last());
            self.note_input = shorter;
        }
    }

    /// Replaces the buffer by a text, whatever it holds.
    pub fn set_note_input(&mut self, text: &str)
        requires
            old(self).wf(),
        ensures
            final(self).wf(),
            final(self)@ == (AppView { input: text@, ..old(self)@ }),
    {
        self.note_input = String::from_str(text);
    }

    /// Gives the entry up: the buffer is emptied and the list shown.
    pub fn cancel_input(&mut self)
        requires
            old(self).wf(),
        ensures
            final(self).wf(),
            final(self)@ == old(self)@.cancelled(),
    {
        self.current_screen = CurrentScreen::Main;
        self.note_input = String::new();
    }

    /// Closes the entry. A buffer that writes a frequency above zero gives one
    /// new note behind the others; any other buffer is dropped without a word.
    /// Either way the buffer is emptied and the list shown. Tells whether a
    /// note was added.
    pub fn commit_input(&mut self) -> (accepted: bool)
        requires
            old(self).wf(),
        ensures
            final(self).wf(),
            final(self)@ == old(self)@.committed(),
            accepted == old(self)@.input_accepted(),
    {
        let accepted = match parse_frequency(self.note_input.as_str()) {
            Some(freq) => {
                if freq > 0 {
                    self.ledger.append(Note::from_freq(freq));
                    true
                } else {
                    false
                }
            },
            None => false,
        };
        self.current_screen = CurrentScreen::Main;
        self.note_input = String::new();
        accepted
    }

    /// Ends the session.
    pub fn quit(&mut self)
        requires
            old(self).wf(),
        ensures
            final(self).wf(),
            final(self)@ == old(self)@.stopped(),
    {
        self.running = false;
    }

    /// Applies one key to the session.
    pub fn handle_key(&mut self, key: Key)
        requires
            old(self).wf(),
        ensures
            final(self).wf(),
            final(self)@ == old(self)@.after_key(key),
    {
        if let Key::Char(c) = key {
            if c == 'q' {
                self.quit();
            }
        }
        match self.current_screen {
            CurrentScreen::Main => match key {
                Key::Up => self.select_previous(),
                Key::Down => self.select_next(),
                Key::Char(c) => if c == 'd' {
                    let _ = self.delete_selected();
                } else if c == 'n' {
                    self.begin_input();
                } else if c == 's' {
                    self.toggle_sort();
                },
                _ => {},
            },
            CurrentScreen::NoteInput => match key {
                Key::Esc => self.cancel_input(),
                Key::Enter => {
                    let _ = self.commit_input();
                },
                Key::Char(c) => self.type_char(c),
                Key::Backspace => self.backspace(),
                _ => {},
            },
        }
    }
}

impl Default for App {
    fn default() -> (app: App)
        ensures
            app.wf(),
            app@ == AppView::initial(),
    {
        App::new()
    }
}

} // verus!
