use freq_to_notes::app::App;
use freq_to_notes::app::CurrentScreen;
use freq_to_notes::app::Key;
use freq_to_notes::ledger::LedgerError;
use freq_to_notes::note::Note;

fn entered(notes: &[Note]) -> Vec<u64> {
    notes.iter().map(|note| note.from_freq).collect()
}

fn type_text(app: &mut App, text: &str) {
    for c in text.chars() {
        app.handle_key(Key::Char(c));
    }
}

fn enter(app: &mut App, text: &str) {
    app.handle_key(Key::Char('n'));
    type_text(app, text);
    app.handle_key(Key::Enter);
}

fn session_of(texts: &[&str]) -> App {
    let mut app = App::new();
    for text in texts {
        enter(&mut app, text);
    }
    app
}

fn selections_in_view(app: &App) -> bool {
    let cursor = app.cursor();
    cursor.input.map_or(true, |i| i < app.len()) && cursor.sorted.map_or(true, |i| i < app.len())
}

#[test]
fn a_session_begins_empty_on_the_list() {
    let app = App::default();
    assert!(app.running());
    assert_eq!(app.current_screen(), CurrentScreen::Main);
    assert!(!app.sorted_active());
    assert_eq!(app.selected(), None);
    assert_eq!(app.note_input(), "");
    assert_eq!(app.len(), 0);
    assert!(app.notes_in_input_order().is_empty());
    assert!(app.notes_sorted().is_empty());
    assert!(app.shown_notes().is_empty());
}

#[test]
fn text_that_is_no_number_gives_no_note() {
    let mut app = App::new();
    app.begin_input();
    app.set_note_input("4a4");
    assert_eq!(app.note_input(), "4a4");
    assert!(!app.commit_input());
    assert_eq!(app.len(), 0);
    assert_eq!(app.current_screen(), CurrentScreen::Main);
    assert_eq!(app.note_input(), "");
}

#[test]
fn the_entry_takes_digits_and_the_point_only() {
    let mut app = App::new();
    app.handle_key(Key::Char('n'));
    assert_eq!(app.current_screen(), CurrentScreen::NoteInput);
    type_text(&mut app, "4a4");
    assert_eq!(app.note_input(), "44");
    type_text(&mut app, ".-+e 5d.s");
    assert_eq!(app.note_input(), "44.5");
    app.handle_key(Key::Enter);
    assert_eq!(app.len(), 1);
    assert_eq!(app.notes_in_input_order()[0].from_freq, 44_500_000);
    assert_eq!(app.current_screen(), CurrentScreen::Main);
    assert_eq!(app.note_input(), "");
}

#[test]
fn a_frequency_gives_one_note() {
    let mut app = App::new();
    enter(&mut app, "523.25");
    assert_eq!(app.len(), 1);
    assert_eq!(app.current_screen(), CurrentScreen::Main);
    assert_eq!(app.note_input(), "");
    let notes = app.notes_in_input_order();
    assert_eq!(notes[0].note, "C5");
    assert_eq!(notes[0].from_freq, 523_250_000);
    assert_eq!(notes[0].freq, 523_251_130);
    assert_eq!(notes[0].midi, 72);
}

#[test]
fn zero_and_negative_frequencies_give_no_note() {
    let mut app = App::new();
    enter(&mut app, "0");
    assert_eq!(app.len(), 0);
    enter(&mut app, "0.0");
    assert_eq!(app.len(), 0);
    enter(&mut app, "000.0000000");
    assert_eq!(app.len(), 0);
    app.begin_input();
    app.set_note_input("-440");
    assert!(!app.commit_input());
    assert_eq!(app.len(), 0);
    app.begin_input();
    app.set_note_input("0");
    assert!(!app.commit_input());
    assert_eq!(app.len(), 0);
    assert_eq!(app.current_screen(), CurrentScreen::Main);
    app.begin_input();
    app.set_note_input("0.000001");
    assert!(app.commit_input());
    assert_eq!(app.len(), 1);
}

#[test]
fn backspace_takes_the_last_character_back() {
    let mut app = App::new();
    app.handle_key(Key::Char('n'));
    type_text(&mut app, "44.1");
    app.handle_key(Key::Backspace);
    assert_eq!(app.note_input(), "44.");
    app.handle_key(Key::Backspace);
    app.handle_key(Key::Backspace);
    app.handle_key(Key::Backspace);
    assert_eq!(app.note_input(), "");
    app.handle_key(Key::Backspace);
    assert_eq!(app.note_input(), "");
    assert_eq!(app.current_screen(), CurrentScreen::NoteInput);
    app.set_note_input("añ");
    app.backspace();
    assert_eq!(app.note_input(), "a");
}

#[test]
fn escape_gives_the_entry_up() {
    let mut app = session_of(&["440"]);
    app.handle_key(Key::Char('n'));
    type_text(&mut app, "220");
    app.handle_key(Key::Esc);
    assert_eq!(app.current_screen(), CurrentScreen::Main);
    assert_eq!(app.note_input(), "");
    assert_eq!(app.len(), 1);
}

#[test]
fn q_ends_the_session_on_either_screen() {
    let mut app = App::new();
    app.handle_key(Key::Char('q'));
    assert!(!app.running());
    let mut app = App::new();
    app.handle_key(Key::Char('n'));
    type_text(&mut app, "44");
    app.handle_key(Key::Char('q'));
    assert!(!app.running());
    assert_eq!(app.note_input(), "44");
    assert_eq!(app.current_screen(), CurrentScreen::NoteInput);
    let mut app = App::new();
    app.quit();
    assert!(!app.running());
}

#[test]
fn keys_of_the_other_screen_do_nothing() {
    let mut app = session_of(&["440", "220"]);
    app.handle_key(Key::Down);
    app.handle_key(Key::Enter);
    app.handle_key(Key::Esc);
    app.handle_key(Key::Backspace);
    app.handle_key(Key::Other);
    app.handle_key(Key::Char('5'));
    app.handle_key(Key::Char('x'));
    assert_eq!(app.len(), 2);
    assert_eq!(app.selected(), Some(0));
    assert_eq!(app.current_screen(), CurrentScreen::Main);
    assert_eq!(app.note_input(), "");
    app.handle_key(Key::Char('n'));
    app.handle_key(Key::Up);
    app.handle_key(Key::Down);
    app.handle_key(Key::Other);
    app.handle_key(Key::Char('d'));
    app.handle_key(Key::Char('s'));
    app.handle_key(Key::Char('n'));
    assert_eq!(app.len(), 2);
    assert_eq!(app.selected(), Some(0));
    assert!(!app.sorted_active());
    assert_eq!(app.note_input(), "");
}

#[test]
fn moving_goes_by_the_shown_view() {
    let mut app = session_of(&["440", "220", "330"]);
    assert_eq!(app.selected(), None);
    app.handle_key(Key::Down);
    assert_eq!(app.selected(), Some(0));
    app.handle_key(Key::Down);
    app.handle_key(Key::Down);
    app.handle_key(Key::Down);
    assert_eq!(app.selected(), Some(2));
    app.handle_key(Key::Up);
    assert_eq!(app.selected(), Some(1));
    app.handle_key(Key::Char('s'));
    assert_eq!(app.selected(), None);
    app.handle_key(Key::Up);
    assert_eq!(app.selected(), Some(2));
    app.handle_key(Key::Up);
    app.handle_key(Key::Up);
    app.handle_key(Key::Up);
    assert_eq!(app.selected(), Some(0));
    assert_eq!(app.cursor().input, Some(1));
    let mut empty = App::new();
    empty.handle_key(Key::Down);
    assert_eq!(empty.selected(), None);
    empty.handle_key(Key::Up);
    assert_eq!(empty.selected(), None);
}

#[test]
fn toggling_twice_gives_the_view_and_selection_back() {
    let mut app = session_of(&["440", "220", "330"]);
    app.handle_key(Key::Down);
    app.handle_key(Key::Down);
    let before = app.cursor();
    let shown = entered(&app.shown_notes());
    app.handle_key(Key::Char('s'));
    assert!(app.sorted_active());
    assert_eq!(entered(&app.shown_notes()), vec![220_000_000, 330_000_000, 440_000_000]);
    assert_eq!(app.cursor().input, before.input);
    assert_eq!(app.cursor().sorted, before.sorted);
    app.handle_key(Key::Char('s'));
    assert_eq!(app.sorted_active(), before.sorted_active);
    assert_eq!(app.selected(), Some(1));
    assert_eq!(app.cursor().input, before.input);
    assert_eq!(app.cursor().sorted, before.sorted);
    assert_eq!(entered(&app.shown_notes()), shown);
    app.toggle_sort();
    app.toggle_sort();
    assert_eq!(app.selected(), Some(1));
    assert!(!app.sorted_active());
}

#[test]
fn deleting_in_the_order_of_entry() {
    let mut app = session_of(&["440", "220", "330"]);
    app.handle_key(Key::Down);
    app.handle_key(Key::Down);
    let removed = app.delete_selected();
    assert_eq!(removed.map(|note| note.from_freq), Some(220_000_000));
    assert_eq!(entered(&app.notes_in_input_order()), vec![440_000_000, 330_000_000]);
    assert_eq!(app.selected(), Some(1));
    app.handle_key(Key::Char('d'));
    assert_eq!(entered(&app.notes_in_input_order()), vec![440_000_000]);
    assert_eq!(app.selected(), Some(0));
    app.handle_key(Key::Char('d'));
    assert_eq!(app.len(), 0);
    assert_eq!(app.selected(), None);
    app.handle_key(Key::Char('d'));
    assert_eq!(app.len(), 0);
}

#[test]
fn deleting_with_nothing_selected_changes_nothing() {
    let mut app = session_of(&["440", "220"]);
    assert!(app.delete_selected().is_none());
    assert_eq!(app.len(), 2);
    app.toggle_sort();
    assert!(app.delete_selected().is_none());
    assert_eq!(app.len(), 2);
}

#[test]
fn deleting_in_the_sorted_view_takes_the_note_shown() {
    let mut app = session_of(&["440", "220", "880", "330", "110"]);
    app.handle_key(Key::Char('s'));
    app.handle_key(Key::Down);
    app.handle_key(Key::Down);
    app.handle_key(Key::Down);
    assert_eq!(app.selected(), Some(2));
    assert_eq!(app.notes_sorted()[2].from_freq, 330_000_000);
    assert_eq!(app.sorted_index_to_real_index(2), Some(3));
    let removed = app.delete_selected();
    assert_eq!(removed.map(|note| note.from_freq), Some(330_000_000));
    assert_eq!(
        entered(&app.notes_in_input_order()),
        vec![440_000_000, 220_000_000, 880_000_000, 110_000_000]
    );
    assert_eq!(
        entered(&app.notes_sorted()),
        vec![110_000_000, 220_000_000, 440_000_000, 880_000_000]
    );
    assert_eq!(app.selected(), Some(2));
}

#[test]
fn deleting_the_last_sorted_note_clamps_both_selections() {
    let mut app = session_of(&["440", "220", "880"]);
    app.handle_key(Key::Up);
    assert_eq!(app.cursor().input, Some(2));
    app.handle_key(Key::Char('s'));
    app.handle_key(Key::Up);
    assert_eq!(app.cursor().sorted, Some(2));
    app.handle_key(Key::Char('d'));
    assert_eq!(entered(&app.notes_in_input_order()), vec![440_000_000, 220_000_000]);
    assert_eq!(app.cursor().sorted, Some(1));
    assert_eq!(app.cursor().input, Some(1));
    app.handle_key(Key::Char('d'));
    app.handle_key(Key::Char('d'));
    assert_eq!(app.len(), 0);
    assert_eq!(app.cursor().sorted, None);
    assert_eq!(app.cursor().input, None);
}

#[test]
fn an_earlier_note_within_the_epsilon_is_deleted_in_place_of_the_one_shown() {
    let mut app = session_of(&["440", "440.0005"]);
    app.handle_key(Key::Char('s'));
    app.handle_key(Key::Up);
    assert_eq!(app.selected(), Some(1));
    assert_eq!(app.notes_sorted()[1].from_freq, 440_000_500);
    let removed = app.delete_selected();
    assert_eq!(removed.map(|note| note.from_freq), Some(440_000_000));
    assert_eq!(entered(&app.notes_in_input_order()), vec![440_000_500]);
}

#[test]
fn of_two_notes_of_one_frequency_the_first_is_deleted() {
    let mut app = App::new();
    app.append(Note { from_freq: 440_000_000, freq: 1, note: String::from("first"), midi: 0 });
    app.append(Note::from_freq(220_000_000));
    app.append(Note { from_freq: 440_000_000, freq: 2, note: String::from("second"), midi: 0 });
    app.toggle_sort();
    app.select_previous();
    assert_eq!(app.selected(), Some(2));
    assert_eq!(app.notes_sorted()[2].note, "second");
    let removed = app.delete_selected();
    assert_eq!(removed.map(|note| note.note), Some(String::from("first")));
    assert_eq!(entered(&app.notes_sorted()), vec![220_000_000, 440_000_000]);
}

#[test]
fn count_is_appends_less_deletions_and_selections_stay_in_view() {
    let mut app = App::new();
    let mut appends = 0;
    let mut deletions = 0;
    let texts = ["440", "220.5", "880", "330", "110", "440", "55.25", "1760"];
    for text in texts {
        enter(&mut app, text);
        appends += 1;
        assert!(selections_in_view(&app));
    }
    let keys = [
        Key::Down,
        Key::Down,
        Key::Char('s'),
        Key::Up,
        Key::Char('d'),
        Key::Char('d'),
        Key::Char('s'),
        Key::Char('d'),
        Key::Up,
        Key::Up,
        Key::Char('d'),
        Key::Char('s'),
        Key::Char('s'),
        Key::Char('s'),
        Key::Char('d'),
        Key::Char('d'),
        Key::Char('d'),
        Key::Char('d'),
        Key::Char('d'),
        Key::Char('d'),
        Key::Char('s'),
        Key::Char('d'),
    ];
    for key in keys {
        let before = app.len();
        let selected = app.selected().is_some();
        app.handle_key(key);
        if let Key::Char('d') = key {
            if selected {
                deletions += 1;
                assert_eq!(app.len(), before - 1);
            } else {
                assert_eq!(app.len(), before);
            }
        } else {
            assert_eq!(app.len(), before);
        }
        assert!(selections_in_view(&app));
        assert_eq!(app.len(), appends - deletions);
    }
    assert_eq!(appends, 8);
    assert_eq!(deletions, 8);
    assert_eq!(app.len(), 0);
}

#[test]
fn removing_by_position_clamps_the_selections() {
    let mut app = session_of(&["440", "220", "330"]);
    app.select_previous();
    app.toggle_sort();
    app.select_previous();
    assert_eq!(app.remove_at(0).map(|note| note.from_freq), Ok(440_000_000));
    assert_eq!(app.cursor().input, Some(1));
    assert_eq!(app.cursor().sorted, Some(1));
    assert_eq!(app.remove_at(2).map(|note| note.from_freq), Err(LedgerError::IndexOutOfRange));
    assert_eq!(app.len(), 2);
}

#[test]
fn appending_leaves_the_selections() {
    let mut app = session_of(&["440"]);
    app.select_next();
    app.append(Note::from_midi(60));
    assert_eq!(app.selected(), Some(0));
    assert_eq!(entered(&app.notes_in_input_order()), vec![440_000_000, 261_625_565]);
    assert_eq!(app.sorted_index_to_real_index(0), Some(1));
    assert_eq!(app.sorted_index_to_real_index(2), None);
}

#[test]
fn typing_outside_the_keys() {
    let mut app = App::new();
    app.begin_input();
    app.type_char('4');
    app.type_char('x');
    app.type_char('.');
    app.type_char('5');
    assert_eq!(app.note_input(), "4.5");
    app.cancel_input();
    assert_eq!(app.note_input(), "");
    assert_eq!(app.current_screen(), CurrentScreen::Main);
}

#[test]
fn selections_are_in_view_after_every_key() {
    let mut app = session_of(&["440", "220", "330"]);
    assert!(app.selections_in_view());
    let keys = [Key::Up, Key::Char('s'), Key::Up, Key::Char('d'), Key::Char('d'), Key::Char('d')];
    for key in keys {
        app.handle_key(key);
        assert!(app.selections_in_view());
        assert!(app.cursor().is_within(app.len()));
    }
    assert!(!app.cursor().is_within(0) || app.cursor().selected().is_none());
}

#[test]
fn the_entry_takes_a_single_point() {
    let mut app = App::new();
    app.handle_key(Key::Char('n'));
    type_text(&mut app, "1.2.3");
    assert_eq!(app.note_input(), "1.23");
    type_text(&mut app, "...");
    assert_eq!(app.note_input(), "1.23");
    app.handle_key(Key::Enter);
    assert_eq!(app.len(), 1);
    assert_eq!(app.notes_in_input_order()[0].from_freq, 1_230_000);
    app.handle_key(Key::Char('n'));
    type_text(&mut app, "..5");
    assert_eq!(app.note_input(), ".5");
    app.handle_key(Key::Backspace);
    app.handle_key(Key::Backspace);
    assert_eq!(app.note_input(), "");
    type_text(&mut app, "7.");
    assert_eq!(app.note_input(), "7.");
    app.handle_key(Key::Backspace);
    type_text(&mut app, ".");
    assert_eq!(app.note_input(), "7.");
    assert_eq!(app.current_screen(), CurrentScreen::NoteInput);
    assert_eq!(app.len(), 1);
}

#[test]
fn a_point_is_dropped_behind_any_buffer_that_holds_one() {
    let mut app = App::new();
    app.begin_input();
    app.set_note_input("a.b");
    app.type_char('.');
    assert_eq!(app.note_input(), "a.b");
    app.type_char('4');
    assert_eq!(app.note_input(), "a.b4");
    app.set_note_input("12");
    app.type_char('.');
    app.type_char('.');
    assert_eq!(app.note_input(), "12.");
}
