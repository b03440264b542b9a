use crate::names::midi_name;
use crate::names::midi_to_name;
use crate::pitch::freq_to_midi;
use crate::pitch::midi_to_std_freq;
use crate::pitch::nearest_midi;
use crate::pitch::standard_frequency;
use vstd::prelude::*;
use vstd::string::*;

verus! {

/// One entered frequency with the pitch nearest to it. Frequencies are whole
/// numbers of microhertz.
#[derive(Debug)]
pub struct Note {
    /// The frequency as it was entered.
    pub from_freq: u64,
    /// The frequency of the nearest equal-temperament pitch.
    pub freq: u64,
    /// Letter, accidental and octave of that pitch.
    pub note: String,
    /// The MIDI number of that pitch.
    pub midi: u8,
}

/// What a `Note` holds, as mathematical values.
pub struct NoteView {
    pub from_freq: nat,
    pub freq: nat,
    pub note: Seq<char>,
    pub midi: nat,
}

impl View for Note {
    type V = NoteView;

    open spec fn view(&self) -> NoteView {
        NoteView {
            from_freq: self.from_freq as nat,
            freq: self.freq as nat,
            note: self.note@,
            midi: self.midi as nat,
        }
    }
}

/// The note of the pitch nearest to `freq`.
pub open spec fn note_of_frequency(freq: nat) -> NoteView {
    NoteView {
        from_freq: freq,
        freq: standard_frequency(nearest_midi(freq)),
        note: midi_name(nearest_midi(freq)),
        midi: nearest_midi(freq),
    }
}

/// The note of the pitch `midi`, as if its own frequency had been entered.
pub open spec fn note_of_midi(midi: nat) -> NoteView {
    NoteView {
        from_freq: standard_frequency(midi),
        freq: standard_frequency(midi),
        note: midi_name(midi),
        midi,
    }
}

impl Note {
    /// The note nearest to a frequency. The frequency is kept as entered.
    pub fn from_freq(freq: u64) -> (note: Note)
        requires
            freq > 0,
        ensures
            note@ == note_of_frequency(freq as nat),
    {
        let midi = freq_to_midi(freq);
        Note { from_freq: freq, freq: midi_to_std_freq(midi), note: midi_to_name(midi), midi }
    }

    /// The note of a MIDI number.
    pub fn from_midi(midi: u8) -> (note: Note)
        ensures
            note@ == note_of_midi(midi as nat),
    {
        let freq = midi_to_std_freq(midi);
        Note { from_freq: freq, freq, note: midi_to_name(midi), midi }
    }

    /// The name under which the note is shown.
    pub fn display_name(&self) -> (name: String)
        ensures
            name@ == self@.note,
    {
        self.note.clone()
    }
}

impl Clone for Note {
    fn clone(&self) -> (copy: Note)
        ensures
            copy@ == self@,
    {
        Note { from_freq: self.from_freq, freq: self.freq, note: self.note.clone(), midi: self.midi }
    }
}

impl Default for Note {
    /// A4 at 440 Hz.
    fn default() -> (note: Note)
        ensures
            note@ == (NoteView {
                from_freq: 440_000_000,
                freq: 440_000_000,
                note: seq!['A', '4'],
                midi: 69,
            }),
    {
        proof {
            reveal_strlit("A4");
        }
        let name = String::from_str("A4");
        assert(name@ =~= seq!['A', '4']);
        Note { from_freq: 440_000_000, freq: 440_000_000, note: name, midi: 69 }
    }
}

} // verus!
