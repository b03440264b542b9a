use freq_to_notes::note::Note;
use std::cmp::Ordering;

#[test]
fn note_from_frequency_keeps_what_was_entered() {
    let note = Note::from_freq(523_250_000);
    assert_eq!(note.from_freq, 523_250_000);
    assert_eq!(note.freq, 523_251_130);
    assert_eq!(note.midi, 72);
    assert_eq!(note.note, "C5");
    assert_eq!(note.display_name(), "C5");
}

#[test]
fn note_from_midi_stands_at_its_own_frequency() {
    let note = Note::from_midi(60);
    assert_eq!(note.from_freq, 261_625_565);
    assert_eq!(note.freq, 261_625_565);
    assert_eq!(note.midi, 60);
    assert_eq!(note.note, "C4");
}

#[test]
fn default_note_is_a4() {
    let note = Note::default();
    assert_eq!(note.from_freq, 440_000_000);
    assert_eq!(note.freq, 440_000_000);
    assert_eq!(note.midi, 69);
    assert_eq!(note.note, "A4");
    assert!(note == Note::from_freq(440_000_000));
    assert!(note == Note::from_midi(69));
}

#[test]
fn notes_are_equal_by_entered_frequency_alone() {
    let low = Note::from_freq(439_000_000);
    let high = Note::from_freq(441_000_000);
    assert_eq!(low.note, high.note);
    assert_eq!(low.midi, high.midi);
    assert!(low != high);
    assert!(low == Note::from_freq(439_000_000));
    let relabelled = Note { from_freq: 439_000_000, freq: 1, note: String::from("x"), midi: 0 };
    assert!(low == relabelled);
}

#[test]
fn notes_are_ordered_by_entered_frequency() {
    let low = Note::from_freq(439_000_000);
    let high = Note::from_freq(441_000_000);
    assert_eq!(low.partial_cmp(&high), Some(Ordering::Less));
    assert_eq!(high.partial_cmp(&low), Some(Ordering::Greater));
    assert_eq!(low.partial_cmp(&Note::from_freq(439_000_000)), Some(Ordering::Equal));
    assert!(low < high);
    assert!(high > low);
    assert!(low <= low.clone());
}

#[test]
fn clone_copies_every_field() {
    let note = Note::from_freq(233_080_000);
    let copy = note.clone();
    assert_eq!(copy.from_freq, 233_080_000);
    assert_eq!(copy.freq, note.freq);
    assert_eq!(copy.midi, 58);
    assert_eq!(copy.note, "A#3");
}
