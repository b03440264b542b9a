use vstd::prelude::*;
use vstd::string::*;

verus! {

/// The letter and accidental of a pitch class, `0` being C and `11` being B.
pub open spec fn pitch_class_name(class: nat) -> Seq<char> {
    if class == 0 {
        seq!['C']
    } else if class == 1 {
        seq!['C', '#']
    } else if class == 2 {
        seq!['D']
    } else if class == 3 {
        seq!['D', '#']
    } else if class == 4 {
        seq!['E']
    } else if class == 5 {
        seq!['F']
    } else if class == 6 {
        seq!['F', '#']
    } else if class == 7 {
        seq!['G']
    } else if class == 8 {
        seq!['G', '#']
    } else if class == 9 {
        seq!['A']
    } else if class == 10 {
        seq!['A', '#']
    } else {
        seq!['B']
    }
}

/// The character of a decimal digit.
pub open spec fn digit_char(digit: int) -> char {
    if digit == 0 {
        '0'
    } else if digit == 1 {
        '1'
    } else if digit == 2 {
        '2'
    } else if digit == 3 {
        '3'
    } else if digit == 4 {
        '4'
    } else if digit == 5 {
        '5'
    } else if digit == 6 {
        '6'
    } else if digit == 7 {
        '7'
    } else if digit == 8 {
        '8'
    } else {
        '9'
    }
}

/// The octave of a MIDI number: twelve semitones to the octave, MIDI number 12
/// opening octave 0.
pub open spec fn octave_of(midi: nat) -> int {
    midi / 12 - 1
}

/// An octave from -1 to 99 in decimal digits.
pub open spec fn octave_text(octave: int) -> Seq<char> {
    if octave < 0 {
        seq!['-', digit_char(-octave)]
    } else if octave < 10 {
        seq![digit_char(octave)]
    } else {
        seq![digit_char(octave / 10), digit_char(octave % 10)]
    }
}

/// The name of a MIDI number: its pitch class, then its octave, nothing between.
pub open spec fn midi_name(midi: nat) -> Seq<char> {
    pitch_class_name(midi % 12) + octave_text(octave_of(midi))
}

fn pitch_class_text(class: u8) -> (text: &'static str)
    requires
        class < 12,
    ensures
        text@ == pitch_class_name(class as nat),
{
    if class == 0 {
        proof {
            reveal_strlit("C");
        }
        assert("C"@ =~= seq!['C']);
        "C"
    } else if class == 1 {
        proof {
            reveal_strlit("C#");
        }
        assert("C#"@ =~= seq!['C', '#']);
        "C#"
    } else if class == 2 {
        proof {
            reveal_strlit("D");
        }
        assert("D"@ =~= seq!['D']);
        "D"
    } else if class == 3 {
        proof {
            reveal_strlit("D#");
        }
        assert("D#"@ =~= seq!['D', '#']);
        "D#"
    } else if class == 4 {
        proof {
            reveal_strlit("E");
        }
        assert("E"@ =~= seq!['E']);
        "E"
    } else if class == 5 {
        proof {
            reveal_strlit("F");
        }
        assert("F"@ =~= seq!['F']);
        "F"
    } else if class == 6 {
        proof {
            reveal_strlit("F#");
        }
        assert("F#"@ =~= seq!['F', '#']);
        "F#"
    } else if class == 7 {
        proof {
            reveal_strlit("G");
        }
        assert("G"@ =~= seq!['G']);
        "G"
    } else if class == 8 {
        proof {
            reveal_strlit("G#");
        }
        assert("G#"@ =~= seq!['G', '#']);
        "G#"
    } else if class == 9 {
        proof {
            reveal_strlit("A");
        }
        assert("A"@ =~= seq!['A']);
        "A"
    } else if class == 10 {
        proof {
            reveal_strlit("A#");
        }
        assert("A#"@ =~= seq!['A', '#']);
        "A#"
    } else {
        proof {
            reveal_strlit("B");
        }
        assert("B"@ =~= seq!['B']);
        "B"
    }
}

fn octave_label(octave_index: u8) -> (text: &'static str)
    requires
        octave_index <= 21,
    ensures
        text@ == octave_text(octave_index - 1),
{
    if octave_index == 0 {
        proof {
            reveal_strlit("-1");
        }
        assert("-1"@ =~= seq!['-', '1']);
        "-1"
    } else if octave_index == 1 {
        proof {
            reveal_strlit("0");
        }
        assert("0"@ =~= seq!['0']);
        "0"
    } else if octave_index == 2 {
        proof {
            reveal_strlit("1");
        }
        assert("1"@ =~= seq!['1']);
        "1"
    } else if octave_index == 3 {
        proof {
            reveal_strlit("2");
        }
        assert("2"@ =~= seq!['2']);
        "2"
    } else if octave_index == 4 {
        proof {
            reveal_strlit("3");
        }
        assert("3"@ =~= seq!['3']);
        "3"
    } else if octave_index == 5 {
        proof {
            reveal_strlit("4");
        }
        assert("4"@ =~= seq!['4']);
        "4"
    } else if octave_index == 6 {
        proof {
            reveal_strlit("5");
        }
        assert("5"@ =~= seq!['5']);
        "5"
    } else if octave_index == 7 {
        proof {
            reveal_strlit("6");
        }
        assert("6"@ =~= seq!['6']);
        "6"
    } else if octave_index == 8 {
        proof {
            reveal_strlit("7");
        }
        assert("7"@ =~= seq!['7']);
        "7"
    } else if octave_index == 9 {
        proof {
            reveal_strlit("8");
        }
        assert("8"@ =~= seq!['8']);
        "8"
    } else if octave_index == 10 {
        proof {
            reveal_strlit("9");
        }
        assert("9"@ =~= seq!['9']);
        "9"
    } else if octave_index == 11 {
        proof {
            reveal_strlit("10");
        }
        assert("10"@ =~= seq!['1', '0']);
        "10"
    } else if octave_index == 12 {
        proof {
            reveal_strlit("11");
        }
        assert("11"@ =~= seq!['1', '1']);
        "11"
    } else if octave_index == 13 {
        proof {
            reveal_strlit("12");
        }
        assert("12"@ =~= seq!['1', '2']);
        "12"
    } else if octave_index == 14 {
        proof {
            reveal_strlit("13");
        }
        assert("13"@ =~= seq!['1', '3']);
        "13"
    } else if octave_index == 15 {
        proof {
            reveal_strlit("14");
        }
        assert("14"@ =~= seq!['1', '4']);
        "14"
    } else if octave_index == 16 {
        proof {
            reveal_strlit("15");
        }
        assert("15"@ =~= seq!['1', '5']);
        "15"
    } else if octave_index == 17 {
        proof {
            reveal_strlit("16");
        }
        assert("16"@ =~= seq!['1', '6']);
        "16"
    } else if octave_index == 18 {
        proof {
            reveal_strlit("17");
        }
        assert("17"@ =~= seq!['1', '7']);
        "17"
    } else if octave_index == 19 {
        proof {
            reveal_strlit("18");
        }
        assert("18"@ =~= seq!['1', '8']);
        "18"
    } else if octave_index == 20 {
        proof {
            reveal_strlit("19");
        }
        assert("19"@ =~= seq!['1', '9']);
        "19"
    } else {
        proof {
            reveal_strlit("20");
        }
        assert("20"@ =~= seq!['2', '0']);
        "20"
    }
}

/// The display name of a MIDI number, such as `A4` for 69 and `C#3` for 49.
pub fn midi_to_name(midi: u8) -> (name: String)
    ensures
        name@ == midi_name(midi as nat),
{
    let mut name = String::from_str(pitch_class_text(midi % 12));
    name.append(octave_label(midi / 12));
    name
}

} // verus!
