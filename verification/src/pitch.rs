use crate::semitones::lemma_semitone_boundary;
use crate::semitones::lemma_semitone_frequency;
use crate::semitones::semitone_boundary;
use crate::semitones::semitone_boundary_of;
use crate::semitones::semitone_frequency;
use crate::semitones::semitone_frequency_of;
use crate::semitones::A4_FREQUENCY;
use vstd::arithmetic::power::*;
use vstd::arithmetic::power2::*;
use vstd::prelude::*;

verus! {

/// The lowest frequency, in microhertz, that lies within half a semitone of a
/// MIDI pitch: the lower edge of MIDI number 0, rounded up.
pub const LOWEST_PITCH_EDGE: u64 = 7_943_050;

/// The upper edge of MIDI number 255, in microhertz, rounded up: frequencies
/// from here on are farther than half a semitone from every MIDI pitch.
pub const HIGHEST_PITCH_EDGE: u64 = 20_987_491_137_965;

/// Whether `freq` microhertz lies at or above the lower edge of MIDI number
/// `midi`, which is `440 Hz * 2^((midi - 69.5) / 12)`. Raised to the 24th power
/// and cleared of negative exponents, the comparison is one of whole numbers.
pub open spec fn reaches(freq: nat, midi: nat) -> bool {
    pow(freq as int, 24) * pow2(139) >= pow(A4_FREQUENCY as int, 24) * pow2(2 * midi)
}

/// Whether `midi` is `69 + 12 * log2(freq / 440 Hz)` rounded to the nearest
/// whole number and held within `0..=255`.
pub open spec fn is_nearest_midi(freq: nat, midi: nat) -> bool {
    &&& midi <= 255
    &&& (midi == 0 || reaches(freq, midi))
    &&& (midi == 255 || !reaches(freq, midi + 1))
}

/// The MIDI number nearest to `freq` microhertz.
pub open spec fn nearest_midi(freq: nat) -> nat {
    choose|midi: nat| is_nearest_midi(freq, midi)
}

/// Whether `freq` is `440 Hz * 2^((midi - 69) / 12)` in microhertz, rounded down.
pub open spec fn is_standard_frequency(midi: nat, freq: nat) -> bool {
    &&& pow(freq as int, 12) * pow2(69) <= pow(A4_FREQUENCY as int, 12) * pow2(midi)
    &&& pow(A4_FREQUENCY as int, 12) * pow2(midi) < pow(freq as int + 1, 12) * pow2(69)
}

/// The equal-temperament frequency of MIDI number `midi`, in whole microhertz.
pub open spec fn standard_frequency(midi: nat) -> nat {
    choose|freq: nat| is_standard_frequency(midi, freq)
}

/// Powers with a fixed exponent grow with their base.
pub proof fn lemma_pow_base_increases(a: int, b: int, e: nat)
    requires
        0 <= a <= b,
    ensures
        0 <= pow(a, e) <= pow(b, e),
    decreases e,
{
    reveal(pow);
    if e > 0 {
        lemma_pow_base_increases(a, b, (e - 1) as nat);
        let pa = pow(a, (e - 1) as nat);
        let pb = pow(b, (e - 1) as nat);
        assert(0 <= a * pa <= b * pb) by (nonlinear_arith)
            requires
                0 <= a <= b,
                0 <= pa <= pb,
        ;
    }
}

proof fn lemma_rescale_le(x: int, y: int, dd: int, e: int, p: int, m: int)
    requires
        x * dd <= y * e,
        e * p == m * dd,
        dd > 0,
        p > 0,
    ensures
        x * p <= y * m,
{
    assert((x * dd) * p <= (y * e) * p) by (nonlinear_arith)
        requires
            x * dd <= y * e,
            p > 0,
    ;
    assert((y * e) * p == (y * m) * dd) by (nonlinear_arith)
        requires
            e * p == m * dd,
    ;
    assert((x * dd) * p == (x * p) * dd) by (nonlinear_arith);
    assert(x * p <= y * m) by (nonlinear_arith)
        requires
            (x * p) * dd <= (y * m) * dd,
            dd > 0,
    ;
}

proof fn lemma_rescale_lt(x: int, y: int, dd: int, e: int, p: int, m: int)
    requires
        x * dd < y * e,
        e * p == m * dd,
        dd > 0,
        p > 0,
    ensures
        x * p < y * m,
{
    assert((x * dd) * p < (y * e) * p) by (nonlinear_arith)
        requires
            x * dd < y * e,
            p > 0,
    ;
    assert((y * e) * p == (y * m) * dd) by (nonlinear_arith)
        requires
            e * p == m * dd,
    ;
    assert((x * dd) * p == (x * p) * dd) by (nonlinear_arith);
    assert(x * p < y * m) by (nonlinear_arith)
        requires
            (x * p) * dd < (y * m) * dd,
            dd > 0,
    ;
}

/// `(a * 2^k)^e == a^e * 2^(e * k)`.
proof fn lemma_pow_of_scaled(a: int, k: nat, e: nat)
    ensures
        pow(a * pow2(k), e) == pow(a, e) * pow2(e * k),
{
    lemma_pow_distributes(a, pow2(k) as int, e);
    lemma_pow2(k);
    lemma_pow_multiplies(2, k, e);
    lemma_pow2(e * k);
    assert(k * e == e * k) by (nonlinear_arith);
}

/// A lower edge is reached whenever a higher one is.
pub proof fn lemma_reaches_lower(freq: nat, low: nat, high: nat)
    requires
        low <= high,
        reaches(freq, high),
    ensures
        reaches(freq, low),
{
    let y = pow(A4_FREQUENCY as int, 24);
    lemma_pow_base_increases(0, A4_FREQUENCY as int, 24);
    if low < high {
        lemma_pow2_strictly_increases(2 * low, 2 * high);
    }
    let a = pow2(2 * low) as int;
    let b = pow2(2 * high) as int;
    assert(y * a <= y * b) by (nonlinear_arith)
        requires
            0 <= y,
            a <= b,
    ;
}

/// At most one MIDI number is nearest to a frequency.
pub proof fn lemma_nearest_midi_unique(freq: nat, first: nat, second: nat)
    requires
        is_nearest_midi(freq, first),
        is_nearest_midi(freq, second),
    ensures
        first == second,
{
    if first < second {
        lemma_reaches_lower(freq, first + 1, second);
    } else if second < first {
        lemma_reaches_lower(freq, second + 1, first);
    }
}

/// The number that rounds from `freq` is `nearest_midi(freq)`.
pub proof fn lemma_nearest_midi_is(freq: nat, midi: nat)
    requires
        is_nearest_midi(freq, midi),
    ensures
        nearest_midi(freq) == midi,
{
    lemma_nearest_midi_unique(freq, midi, nearest_midi(freq));
}

proof fn lemma_nearest_midi_from(freq: nat, start: nat)
    requires
        start <= 255,
        start == 0 || reaches(freq, start),
    ensures
        is_nearest_midi(freq, nearest_midi(freq)),
    decreases 255 - start,
{
    if start < 255 && reaches(freq, start + 1) {
        lemma_nearest_midi_from(freq, start + 1);
    } else {
        assert(is_nearest_midi(freq, start));
    }
}

/// Every frequency has a nearest MIDI number.
pub proof fn lemma_nearest_midi_exists(freq: nat)
    ensures
        is_nearest_midi(freq, nearest_midi(freq)),
{
    lemma_nearest_midi_from(freq, 0);
}

/// The test that the conversion makes: the frequency, scaled up to the octave
/// of the table, against the table's edge for the pitch class.
pub proof fn lemma_boundary_test(freq: nat, octave: nat, class: nat)
    requires
        octave <= 21,
        class < 12,
    ensures
        freq * pow2((21 - octave) as nat) >= semitone_boundary(class) <==> reaches(
            freq,
            12 * octave + class,
        ),
{
    let k = (21 - octave) as nat;
    let a = freq as int * pow2(k);
    let c = semitone_boundary(class) as int;
    let x = pow(freq as int, 24);
    let y = pow(A4_FREQUENCY as int, 24);
    let dd = pow2(24 * k) as int;
    let e = pow2(2 * class + 365) as int;
    let p = pow2(139) as int;
    let m = pow2(2 * (12 * octave + class)) as int;
    lemma_semitone_boundary(class);
    lemma_pow_of_scaled(freq as int, k, 24);
    assert(pow(a, 24) == x * dd);
    lemma_pow2_adds(2 * class + 365, 139);
    lemma_pow2_adds(2 * (12 * octave + class), 24 * k);
    assert(2 * class + 365 + 139 == 2 * (12 * octave + class) + 24 * k);
    assert(e * p == m * dd);
    lemma_pow2_pos(24 * k);
    lemma_pow2_pos(139);
    lemma_pow2_pos(k);
    assert(0 <= a) by (nonlinear_arith)
        requires
            a == freq as int * pow2(k),
            pow2(k) > 0,
    ;
    lemma_pow2_pos(2 * class + 365);
    lemma_pow2_pos(2 * (12 * octave + class));
    assert(dd * m == p * e) by (nonlinear_arith)
        requires
            e * p == m * dd,
    ;
    if a >= c {
        lemma_pow_base_increases(c, a, 24);
        lemma_rescale_le(y, x, e, dd, m, p);
    } else {
        lemma_pow_base_increases(a, c - 1, 24);
        lemma_rescale_lt(x, y, dd, e, p, m);
    }
}

/// The frequency of a pitch, from the table's entry for its class, halved once
/// for each octave below the table's.
pub proof fn lemma_standard_frequency_of(octave: nat, class: nat)
    requires
        octave <= 21,
        class < 12,
    ensures
        is_standard_frequency(
            12 * octave + class,
            semitone_frequency(class) / pow2((21 - octave) as nat),
        ),
{
    let k = (21 - octave) as nat;
    let d = pow2(k) as int;
    let t = semitone_frequency(class) as int;
    let s = t / d;
    let y = pow(A4_FREQUENCY as int, 12);
    let dd = pow2(12 * k) as int;
    let e = pow2(class + 183) as int;
    let p = pow2(69) as int;
    let m = pow2(12 * octave + class) as int;
    lemma_pow2_pos(k);
    lemma_pow2_pos(12 * k);
    lemma_pow2_pos(69);
    assert(0 <= s && s * d <= t && t + 1 <= (s + 1) * d) by (nonlinear_arith)
        requires
            s == t / d,
            d > 0,
            t >= 0,
    ;
    lemma_semitone_frequency(class);
    lemma_pow_of_scaled(s, k, 12);
    lemma_pow_of_scaled(s + 1, k, 12);
    assert(0 <= s * d) by (nonlinear_arith)
        requires
            0 <= s,
            d > 0,
    ;
    lemma_pow_base_increases(s * d, t, 12);
    lemma_pow_base_increases(t + 1, (s + 1) * d, 12);
    lemma_pow2_adds(class + 183, 69);
    lemma_pow2_adds(12 * octave + class, 12 * k);
    assert(class + 183 + 69 == 12 * octave + class + 12 * k);
    assert(e * p == m * dd);
    lemma_pow2_pos(class + 183);
    lemma_pow2_pos(12 * octave + class);
    assert(dd * m == p * e) by (nonlinear_arith)
        requires
            e * p == m * dd,
    ;
    lemma_rescale_le(pow(s, 12), y, dd, e, p, m);
    lemma_rescale_lt(y, pow(s + 1, 12), e, dd, m, p);
}

/// At most one whole number of microhertz is the frequency of a pitch.
pub proof fn lemma_standard_frequency_unique(midi: nat, first: nat, second: nat)
    requires
        is_standard_frequency(midi, first),
        is_standard_frequency(midi, second),
    ensures
        first == second,
{
    lemma_pow2_pos(69);
    let p = pow2(69) as int;
    if first < second {
        lemma_pow_base_increases(first as int + 1, second as int, 12);
        let u = pow(first as int + 1, 12);
        let v = pow(second as int, 12);
        assert(u * p <= v * p) by (nonlinear_arith)
            requires
                u <= v,
                p > 0,
        ;
    } else if second < first {
        lemma_pow_base_increases(second as int + 1, first as int, 12);
        let u = pow(second as int + 1, 12);
        let v = pow(first as int, 12);
        assert(u * p <= v * p) by (nonlinear_arith)
            requires
                u <= v,
                p > 0,
        ;
    }
}

/// The frequency that satisfies the definition of a pitch is `standard_frequency`.
pub proof fn lemma_standard_frequency_is(midi: nat, freq: nat)
    requires
        is_standard_frequency(midi, freq),
    ensures
        standard_frequency(midi) == freq,
{
    lemma_standard_frequency_unique(midi, freq, standard_frequency(midi));
}

proof fn lemma_standard_frequency_witness(midi: nat, freq: nat)
    requires
        is_standard_frequency(midi, freq),
    ensures
        is_standard_frequency(midi, standard_frequency(midi)),
{
}

/// Every MIDI number up to 255 has a frequency.
pub proof fn lemma_standard_frequency_exists(midi: nat)
    requires
        midi <= 255,
    ensures
        is_standard_frequency(midi, standard_frequency(midi)),
{
    lemma_standard_frequency_of(midi / 12, midi % 12);
    let found = semitone_frequency(midi % 12) / pow2((21 - midi / 12) as nat);
    assert(12 * (midi / 12) + midi % 12 == midi);
    lemma_standard_frequency_witness(midi, found);
}

/// Converting a frequency to the nearest pitch and back loses at most half a
/// semitone, that is 50 cents: with `s` the pitch's frequency rounded down to
/// a whole microhertz, `s <= freq * 2^(1/24)` and `freq < (s + 1) * 2^(1/24)`.
/// This holds of every frequency that lies within half a semitone of some
/// MIDI pitch.
pub proof fn lemma_round_trip_within_half_semitone(freq: nat)
    requires
        LOWEST_PITCH_EDGE <= freq < HIGHEST_PITCH_EDGE,
    ensures
        pow(standard_frequency(nearest_midi(freq)) as int, 24) <= 2 * pow(freq as int, 24),
        pow(freq as int, 24) < 2 * pow(standard_frequency(nearest_midi(freq)) as int + 1, 24),
{
    let midi = nearest_midi(freq);
    let s = standard_frequency(midi) as int;
    lemma_nearest_midi_exists(freq);
    lemma_standard_frequency_exists(midi);
    lemma2_to64();
    lemma_boundary_test(freq, 0, 0);
    lemma_boundary_test(freq, 21, 4);
    assert(freq * pow2(21) >= semitone_boundary(0)) by (nonlinear_arith)
        requires
            freq >= 7_943_050,
            pow2(21) == 0x200000,
            semitone_boundary(0) == 16_657_782_755_289,
    ;
    assert(freq * pow2(0) < semitone_boundary(4)) by (nonlinear_arith)
        requires
            freq < 20_987_491_137_965,
            pow2(0) == 1,
            semitone_boundary(4) == 20_987_491_137_965,
    ;
    assert(reaches(freq, 0));
    assert(!reaches(freq, 256));
    assert(reaches(freq, midi));
    assert(!reaches(freq, midi + 1));
    let x = pow(freq as int, 24);
    let y = pow(A4_FREQUENCY as int, 24);
    let y12 = pow(A4_FREQUENCY as int, 12);
    let lo = pow(s, 12);
    let hi = pow(s + 1, 12);
    let p69 = pow2(69) as int;
    let pm = pow2(midi) as int;
    lemma_pow_adds(A4_FREQUENCY as int, 12, 12);
    lemma_pow_adds(s, 12, 12);
    lemma_pow_adds(s + 1, 12, 12);
    lemma_pow2_adds(69, 69);
    lemma_pow2_adds(midi, midi);
    lemma_pow2_unfold(139);
    lemma_pow2_unfold(2 * midi + 2);
    lemma_pow2_unfold(2 * midi + 1);
    lemma_pow_base_increases(0, s, 12);
    lemma_pow_base_increases(0, A4_FREQUENCY as int, 12);
    lemma_pow2_pos(69);
    lemma_pow2_pos(midi);
    lemma_pow2_pos(138);
    let p138 = pow2(138) as int;
    let p2m = pow2(2 * midi) as int;
    assert((lo * lo) * p138 <= y * p2m) by (nonlinear_arith)
        requires
            0 <= lo * p69 <= y12 * pm,
            p138 == p69 * p69,
            p2m == pm * pm,
            y == y12 * y12,
    ;
    assert(pow(s, 24) <= 2 * x) by (nonlinear_arith)
        requires
            pow(s, 24) * p138 <= y * p2m,
            x * (2 * p138) >= y * p2m,
            p138 > 0,
    ;
    assert(y * p2m < (hi * hi) * p138) by (nonlinear_arith)
        requires
            0 <= y12 * pm < hi * p69,
            p138 == p69 * p69,
            p2m == pm * pm,
            y == y12 * y12,
    ;
    assert(x < 2 * pow(s + 1, 24)) by (nonlinear_arith)
        requires
            y * p2m < pow(s + 1, 24) * p138,
            x * (2 * p138) < y * (4 * p2m),
            p138 > 0,
    ;
}

fn power_of_two(exponent: u16) -> (r: u128)
    requires
        exponent <= 21,
    ensures
        r == pow2(exponent as nat),
        0 < r <= 0x200000,
{
    let mut r: u128 = 1;
    let mut i: u16 = 0;
    proof {
        lemma2_to64();
    }
    while i < exponent
        invariant
            i <= exponent <= 21,
            r == pow2(i as nat),
            0 < r <= 0x200000,
            pow2(21) == 0x200000,
        decreases exponent - i,
    {
        proof {
            lemma_pow2_unfold((i + 1) as nat);
            if i + 1 < 21 {
                lemma_pow2_strictly_increases((i + 1) as nat, 21);
            }
        }
        r = r * 2;
        i = i + 1;
    }
    r
}

fn reaches_edge(freq: u64, midi: u16) -> (r: bool)
    requires
        midi <= 255,
    ensures
        r == reaches(freq as nat, midi as nat),
{
    let octave: u16 = midi / 12;
    let class: u16 = midi % 12;
    let scale: u128 = power_of_two(21 - octave);
    assert(freq as u128 * scale <= u128::MAX) by (nonlinear_arith)
        requires
            freq <= u64::MAX,
            0 < scale <= 0x200000,
    ;
    let scaled: u128 = freq as u128 * scale;
    proof {
        lemma_boundary_test(freq as nat, octave as nat, class as nat);
    }
    scaled >= semitone_boundary_of(class)
}

/// The MIDI number nearest to `freq` microhertz: `69 + 12 * log2(freq / 440 Hz)`,
/// rounded to the nearest whole number and held within `0..=255`. No whole
/// number of microhertz lies halfway between two pitches, so no tie arises.
pub fn freq_to_midi(freq: u64) -> (midi: u8)
    requires
        freq > 0,
    ensures
        is_nearest_midi(freq as nat, midi as nat),
        midi as nat == nearest_midi(freq as nat),
{
    let mut midi: u16 = 0;
    while midi < 255 && reaches_edge(freq, midi + 1)
        invariant
            midi <= 255,
            midi == 0 || reaches(freq as nat, midi as nat),
        decreases 255 - midi,
    {
        midi = midi + 1;
    }
    proof {
        lemma_nearest_midi_is(freq as nat, midi as nat);
    }
    midi as u8
}

/// The equal-temperament frequency of `midi`, `440 Hz * 2^((midi - 69) / 12)`,
/// in microhertz, rounded down.
pub fn midi_to_std_freq(midi: u8) -> (freq: u64)
    ensures
        is_standard_frequency(midi as nat, freq as nat),
        freq as nat == standard_frequency(midi as nat),
{
    let wide: u16 = midi as u16;
    let octave: u16 = wide / 12;
    let class: u16 = wide % 12;
    let divisor: u128 = power_of_two(21 - octave);
    let top: u64 = semitone_frequency_of(class);
    let freq: u64 = top / (divisor as u64);
    proof {
        lemma_standard_frequency_of(octave as nat, class as nat);
        lemma_standard_frequency_is(midi as nat, freq as nat);
    }
    freq
}

} // verus!
