use freq_to_notes::cursor::clamp_position;
use freq_to_notes::cursor::step_down;
use freq_to_notes::cursor::step_up;
use freq_to_notes::cursor::DualCursor;
use freq_to_notes::ledger::near;
use freq_to_notes::ledger::LedgerError;
use freq_to_notes::ledger::NoteLedger;
use freq_to_notes::note::Note;
use freq_to_notes::views::FREQUENCY_EPSILON;

fn ledger_of(freqs: &[u64]) -> NoteLedger {
    let mut ledger = NoteLedger::new();
    for freq in freqs {
        ledger.append(Note::from_freq(*freq));
    }
    ledger
}

fn entered(notes: &[Note]) -> Vec<u64> {
    notes.iter().map(|note| note.from_freq).collect()
}

#[test]
fn append_keeps_the_order_of_entry() {
    let ledger = ledger_of(&[440_000_000, 220_000_000, 330_000_000]);
    assert_eq!(ledger.len(), 3);
    assert_eq!(entered(&ledger.snapshot()), vec![440_000_000, 220_000_000, 330_000_000]);
}

#[test]
fn new_ledger_is_empty() {
    let ledger = NoteLedger::new();
    assert_eq!(ledger.len(), 0);
    assert!(ledger.snapshot().is_empty());
    assert!(ledger.sorted().is_empty());
    assert_eq!(ledger.sorted_index_to_real_index(0), None);
}

#[test]
fn remove_at_shifts_the_notes_behind() {
    let mut ledger = ledger_of(&[440_000_000, 220_000_000, 330_000_000]);
    let removed = ledger.remove_at(1);
    assert_eq!(removed.map(|note| note.from_freq), Ok(220_000_000));
    assert_eq!(entered(&ledger.snapshot()), vec![440_000_000, 330_000_000]);
}

#[test]
fn remove_at_past_the_end_is_out_of_range() {
    let mut ledger = ledger_of(&[440_000_000]);
    assert_eq!(ledger.remove_at(1).map(|note| note.from_freq), Err(LedgerError::IndexOutOfRange));
    assert_eq!(
        ledger.remove_at(usize::MAX).map(|note| note.from_freq),
        Err(LedgerError::IndexOutOfRange)
    );
    assert_eq!(ledger.len(), 1);
    let mut empty = NoteLedger::new();
    assert_eq!(empty.remove_at(0).map(|note| note.from_freq), Err(LedgerError::IndexOutOfRange));
}

#[test]
fn snapshot_is_independent_of_the_ledger() {
    let ledger = ledger_of(&[440_000_000, 220_000_000]);
    let mut copy = ledger.snapshot();
    copy.remove(0);
    copy[0].from_freq = 1;
    assert_eq!(entered(&ledger.snapshot()), vec![440_000_000, 220_000_000]);
}

#[test]
fn sorted_view_ascends_and_leaves_the_ledger_alone() {
    let ledger = ledger_of(&[440_000_000, 220_000_000, 880_000_000, 330_000_000, 110_000_000]);
    assert_eq!(
        entered(&ledger.sorted()),
        vec![110_000_000, 220_000_000, 330_000_000, 440_000_000, 880_000_000]
    );
    assert_eq!(
        entered(&ledger.snapshot()),
        vec![440_000_000, 220_000_000, 880_000_000, 330_000_000, 110_000_000]
    );
}

#[test]
fn sorted_view_keeps_equal_frequencies_in_order_of_entry() {
    let mut ledger = NoteLedger::new();
    ledger.append(Note { from_freq: 5, freq: 1, note: String::from("first"), midi: 0 });
    ledger.append(Note { from_freq: 3, freq: 2, note: String::from("low"), midi: 0 });
    ledger.append(Note { from_freq: 5, freq: 3, note: String::from("second"), midi: 0 });
    ledger.append(Note { from_freq: 5, freq: 4, note: String::from("third"), midi: 0 });
    let names: Vec<String> = ledger.sorted().iter().map(|note| note.note.clone()).collect();
    assert_eq!(names, vec!["low", "first", "second", "third"]);
}

#[test]
fn sorted_positions_lead_to_positions_of_entry() {
    let ledger = ledger_of(&[440_000_000, 220_000_000, 880_000_000, 330_000_000]);
    assert_eq!(ledger.sorted_index_to_real_index(0), Some(1));
    assert_eq!(ledger.sorted_index_to_real_index(1), Some(3));
    assert_eq!(ledger.sorted_index_to_real_index(2), Some(0));
    assert_eq!(ledger.sorted_index_to_real_index(3), Some(2));
}

#[test]
fn lookup_past_the_end_finds_nothing() {
    let ledger = ledger_of(&[440_000_000, 220_000_000]);
    assert_eq!(ledger.sorted_index_to_real_index(2), None);
    assert_eq!(ledger.sorted_index_to_real_index(usize::MAX), None);
}

#[test]
fn lookup_takes_the_first_note_within_the_epsilon() {
    let ledger = ledger_of(&[440_000_000, 440_000_500, 440_000_999, 440_001_000]);
    assert_eq!(ledger.sorted_index_to_real_index(0), Some(0));
    assert_eq!(ledger.sorted_index_to_real_index(1), Some(0));
    assert_eq!(ledger.sorted_index_to_real_index(2), Some(0));
    assert_eq!(ledger.sorted_index_to_real_index(3), Some(1));
    let twice = ledger_of(&[220_000_000, 440_000_000, 440_000_000]);
    assert_eq!(twice.sorted_index_to_real_index(1), Some(1));
    assert_eq!(twice.sorted_index_to_real_index(2), Some(1));
}

#[test]
fn epsilon_is_a_thousandth_of_a_hertz() {
    assert_eq!(FREQUENCY_EPSILON, 1_000);
    assert!(near(440_000_000, 440_000_000));
    assert!(near(440_000_000, 440_000_999));
    assert!(near(440_000_999, 440_000_000));
    assert!(!near(440_000_000, 440_001_000));
    assert!(!near(440_001_000, 440_000_000));
    assert!(near(0, 999));
    assert!(!near(0, u64::MAX));
    assert!(!near(u64::MAX, 0));
}

#[test]
fn remove_sorted_takes_the_note_shown_at_the_position() {
    let mut ledger = ledger_of(&[440_000_000, 220_000_000, 880_000_000, 330_000_000]);
    assert_eq!(ledger.remove_sorted(1).map(|note| note.from_freq), Ok(330_000_000));
    assert_eq!(entered(&ledger.snapshot()), vec![440_000_000, 220_000_000, 880_000_000]);
    assert_eq!(entered(&ledger.sorted()), vec![220_000_000, 440_000_000, 880_000_000]);
}

#[test]
fn remove_sorted_past_the_end_is_a_desync() {
    let mut ledger = ledger_of(&[440_000_000, 220_000_000]);
    assert_eq!(ledger.remove_sorted(2).map(|note| note.from_freq), Err(LedgerError::ViewDesync));
    assert_eq!(ledger.len(), 2);
}

#[test]
fn positions_are_clamped_to_the_view() {
    assert_eq!(clamp_position(None, 3), None);
    assert_eq!(clamp_position(Some(2), 3), Some(2));
    assert_eq!(clamp_position(Some(3), 3), Some(2));
    assert_eq!(clamp_position(Some(usize::MAX), 1), Some(0));
    assert_eq!(clamp_position(Some(0), 0), None);
    assert_eq!(clamp_position(None, 0), None);
}

#[test]
fn stepping_stops_at_the_ends() {
    assert_eq!(step_down(None, 3), Some(0));
    assert_eq!(step_down(Some(0), 3), Some(1));
    assert_eq!(step_down(Some(2), 3), Some(2));
    assert_eq!(step_down(Some(usize::MAX), 3), Some(2));
    assert_eq!(step_down(Some(0), 0), None);
    assert_eq!(step_down(None, 0), None);
    assert_eq!(step_up(None, 3), Some(2));
    assert_eq!(step_up(Some(2), 3), Some(1));
    assert_eq!(step_up(Some(0), 3), Some(0));
    assert_eq!(step_up(Some(usize::MAX), 3), Some(2));
    assert_eq!(step_up(Some(7), 3), Some(2));
    assert_eq!(step_up(None, 0), None);
}

#[test]
fn each_view_has_a_selection_of_its_own() {
    let mut cursor = DualCursor::new();
    assert_eq!(cursor.selected(), None);
    assert!(!cursor.sorted_active);
    cursor.select_next(3);
    cursor.select_next(3);
    assert_eq!(cursor.selected(), Some(1));
    cursor.toggle();
    assert!(cursor.sorted_active);
    assert_eq!(cursor.selected(), None);
    cursor.select_previous(3);
    assert_eq!(cursor.selected(), Some(2));
    assert_eq!(cursor.input, Some(1));
    cursor.toggle();
    assert_eq!(cursor.selected(), Some(1));
    assert_eq!(cursor.sorted, Some(2));
    cursor.clamp(2);
    assert_eq!(cursor.input, Some(1));
    assert_eq!(cursor.sorted, Some(1));
    cursor.clamp(0);
    assert_eq!(cursor.input, None);
    assert_eq!(cursor.sorted, None);
}
