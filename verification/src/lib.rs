//! Frequencies and the notes nearest to them: the pitch arithmetic of twelve-tone
//! equal temperament around A4 = 440 Hz, a ledger of entered notes with a
//! sorted view beside the order of entry, one selection for each view, and the
//! session that keys drive. Frequencies are whole numbers of microhertz
//! throughout, so that every comparison and every rounding is exact.

pub mod app;
pub mod cursor;
pub mod laws;
pub mod ledger;
pub mod names;
pub mod note;
pub mod note_order;
pub mod parse;
pub mod pitch;
pub mod semitones;
pub mod views;
