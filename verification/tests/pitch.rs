use freq_to_notes::names::midi_to_name;
use freq_to_notes::pitch::freq_to_midi;
use freq_to_notes::pitch::midi_to_std_freq;
use freq_to_notes::pitch::HIGHEST_PITCH_EDGE;
use freq_to_notes::pitch::LOWEST_PITCH_EDGE;
use freq_to_notes::semitones::semitone_boundary_of;
use freq_to_notes::semitones::semitone_frequency_of;
use freq_to_notes::semitones::A4_FREQUENCY;

fn hertz(freq: u64) -> f64 {
    freq as f64 / 1_000_000.0
}

fn midi_by_logarithm(freq: u64) -> i64 {
    (69.0 + 12.0 * (hertz(freq) / 440.0).log2()).round() as i64
}

fn frequency_by_power(midi: u8) -> f64 {
    440.0 * 2f64.powf((midi as i32 - 69) as f64 / 12.0)
}

#[test]
fn a4_is_midi_69_and_named_a4() {
    assert_eq!(A4_FREQUENCY, 440_000_000);
    assert_eq!(freq_to_midi(440_000_000), 69);
    assert_eq!(midi_to_name(69), "A4");
}

#[test]
fn middle_c_is_midi_60_and_named_c4() {
    assert_eq!(freq_to_midi(261_630_000), 60);
    assert_eq!(midi_to_name(freq_to_midi(261_630_000)), "C4");
}

#[test]
fn b_flat_below_middle_c_is_midi_58() {
    assert_eq!(freq_to_midi(233_080_000), 58);
    assert_eq!(midi_to_name(58), "A#3");
}

#[test]
fn c5_is_midi_72() {
    assert_eq!(freq_to_midi(523_250_000), 72);
    assert_eq!(midi_to_name(72), "C5");
}

#[test]
fn midi_changes_exactly_at_the_half_semitone() {
    assert_eq!(freq_to_midi(427_474_054), 68);
    assert_eq!(freq_to_midi(427_474_055), 69);
    assert_eq!(freq_to_midi(452_892_984), 69);
    assert_eq!(freq_to_midi(452_892_985), 70);
    assert_eq!(freq_to_midi(8_415_368), 0);
    assert_eq!(freq_to_midi(8_415_369), 1);
}

#[test]
fn midi_is_held_within_its_range() {
    assert_eq!(freq_to_midi(1), 0);
    assert_eq!(freq_to_midi(1_000_000), 0);
    assert_eq!(freq_to_midi(LOWEST_PITCH_EDGE - 1), 0);
    assert_eq!(freq_to_midi(LOWEST_PITCH_EDGE), 0);
    assert_eq!(freq_to_midi(19_809_553_772_758), 254);
    assert_eq!(freq_to_midi(19_809_553_772_759), 255);
    assert_eq!(freq_to_midi(HIGHEST_PITCH_EDGE - 1), 255);
    assert_eq!(freq_to_midi(HIGHEST_PITCH_EDGE), 255);
    assert_eq!(freq_to_midi(u64::MAX), 255);
}

#[test]
fn midi_agrees_with_the_logarithm() {
    let mut freq: u64 = 9_000_000;
    while freq < 20_000_000_000 {
        let exact = 69.0 + 12.0 * (hertz(freq) / 440.0).log2();
        if (exact - exact.round()).abs() < 0.49 {
            assert_eq!(freq_to_midi(freq) as i64, midi_by_logarithm(freq), "at {}", freq);
        }
        freq = freq + freq / 97 + 1;
    }
}

#[test]
fn standard_frequencies_are_exact_to_the_microhertz() {
    assert_eq!(midi_to_std_freq(69), 440_000_000);
    assert_eq!(midi_to_std_freq(57), 220_000_000);
    assert_eq!(midi_to_std_freq(81), 880_000_000);
    assert_eq!(midi_to_std_freq(21), 27_500_000);
    assert_eq!(midi_to_std_freq(60), 261_625_565);
    assert_eq!(midi_to_std_freq(72), 523_251_130);
    assert_eq!(midi_to_std_freq(58), 233_081_880);
    assert_eq!(midi_to_std_freq(0), 8_175_798);
    assert_eq!(midi_to_std_freq(1), 8_661_957);
    assert_eq!(midi_to_std_freq(127), 12_543_853_951);
    assert_eq!(midi_to_std_freq(128), 13_289_750_322);
    assert_eq!(midi_to_std_freq(255), 20_390_018_005_210);
}

#[test]
fn standard_frequency_agrees_with_the_power() {
    let mut midi: u8 = 0;
    loop {
        let expected = frequency_by_power(midi);
        let got = hertz(midi_to_std_freq(midi));
        assert!((got - expected).abs() <= expected * 1e-9 + 1e-6, "at {}", midi);
        if midi == 255 {
            break;
        }
        midi += 1;
    }
}

#[test]
fn every_midi_number_comes_back_from_its_frequency() {
    let mut midi: u8 = 0;
    loop {
        assert_eq!(freq_to_midi(midi_to_std_freq(midi)), midi);
        if midi == 255 {
            break;
        }
        midi += 1;
    }
}

#[test]
fn round_trip_stays_within_fifty_cents() {
    let mut freq: u64 = LOWEST_PITCH_EDGE;
    while freq < HIGHEST_PITCH_EDGE {
        let back = midi_to_std_freq(freq_to_midi(freq));
        let cents = 1200.0 * ((back as f64 + 1.0) / freq as f64).log2();
        let cents_below = 1200.0 * (back as f64 / freq as f64).log2();
        assert!(cents > -50.0 - 1e-6, "at {}", freq);
        assert!(cents_below < 50.0 + 1e-6, "at {}", freq);
        freq = freq + freq / 53 + 1;
    }
}

#[test]
fn round_trip_fails_below_the_lowest_edge() {
    let back = midi_to_std_freq(freq_to_midi(1_000_000));
    assert_eq!(back, 8_175_798);
    let cents = 1200.0 * (back as f64 / 1_000_000.0).log2();
    assert!(cents > 50.0);
}

#[test]
fn semitone_tables_hold_one_octave() {
    assert_eq!(semitone_boundary_of(0), 16_657_782_755_289);
    assert_eq!(semitone_boundary_of(4), 20_987_491_137_965);
    assert_eq!(semitone_boundary_of(11), 31_445_706_497_899);
    assert_eq!(semitone_frequency_of(0), 17_145_893_047_540);
    assert_eq!(semitone_frequency_of(9), 28_835_840_000_000);
    assert_eq!(semitone_frequency_of(11), 32_367_136_031_121);
    let mut class: u16 = 0;
    while class < 11 {
        assert!(semitone_boundary_of(class) < semitone_boundary_of(class + 1));
        assert!(semitone_frequency_of(class) < semitone_frequency_of(class + 1));
        assert!(semitone_boundary_of(class) < semitone_frequency_of(class) as u128);
        class += 1;
    }
}
