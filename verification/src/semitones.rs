use vstd::prelude::*;
use vstd::arithmetic::power::*;
use vstd::arithmetic::power2::*;

verus! {

/// The frequency of A4, the reference pitch, in microhertz.
pub const A4_FREQUENCY: u64 = 440_000_000;

/// `x` to the twelfth power, written out as products.
pub open spec fn twelfth_power(x: int) -> int {
    let x2 = x * x;
    let x4 = x2 * x2;
    let x8 = x4 * x4;
    x8 * x4
}

/// `x` to the twenty-fourth power, written out as products.
pub open spec fn twenty_fourth_power(x: int) -> int {
    twelfth_power(x) * twelfth_power(x)
}

/// The product forms agree with `pow`.
pub proof fn lemma_power_products(x: int)
    ensures
        pow(x, 12) == twelfth_power(x),
        pow(x, 24) == twenty_fourth_power(x),
{
    lemma_pow1(x);
    lemma_pow_adds(x, 1, 1);
    lemma_pow_adds(x, 2, 2);
    lemma_pow_adds(x, 4, 4);
    lemma_pow_adds(x, 8, 4);
    lemma_pow_adds(x, 12, 12);
}

/// The lower edge of pitch class `class` in the lowest octave, scaled by `2^21`
/// and rounded up to a whole number of microhertz: the least `c` with
/// `c^24 >= 440000000^24 * 2^(2 * class + 365)`.
pub open spec fn semitone_boundary(class: nat) -> nat {
    if class == 0 {
        16_657_782_755_289
    } else if class == 1 {
        17_648_306_063_084
    } else if class == 2 {
        18_697_728_951_794
    } else if class == 3 {
        19_809_553_772_759
    } else if class == 4 {
        20_987_491_137_965
    } else if class == 5 {
        22_235_472_303_866
    } else if class == 6 {
        23_557_662_291_594
    } else if class == 7 {
        24_958_473_787_324
    } else if class == 8 {
        26_442_581_869_203
    } else if class == 9 {
        28_014_939_609_995
    } else if class == 10 {
        29_680_794_607_494
    } else {
        31_445_706_497_899
    }
}

/// The frequency of pitch class `class` in the lowest octave, scaled by `2^21`
/// and rounded down to a whole number of microhertz: the greatest `t` with
/// `t^12 <= 440000000^12 * 2^(class + 183)`.
pub open spec fn semitone_frequency(class: nat) -> nat {
    if class == 0 {
        17_145_893_047_540
    } else if class == 1 {
        18_165_440_903_700
    } else if class == 2 {
        19_245_614_230_235
    } else if class == 3 {
        20_390_018_005_210
    } else if class == 4 {
        21_602_471_569_841
    } else if class == 5 {
        22_887_021_375_193
    } else if class == 6 {
        24_247_954_486_829
    } else if class == 7 {
        25_689_812_892_499
    } else if class == 8 {
        27_217_408_660_599
    } else if class == 9 {
        28_835_840_000_000
    } else if class == 10 {
        30_550_508_274_849
    } else {
        32_367_136_031_121
    }
}

/// The table of lower edges, one for each pitch class.
pub fn semitone_boundary_of(class: u16) -> (r: u128)
    requires
        class < 12,
    ensures
        r == semitone_boundary(class as nat),
{
    match class {
        0 => 16_657_782_755_289,
        1 => 17_648_306_063_084,
        2 => 18_697_728_951_794,
        3 => 19_809_553_772_759,
        4 => 20_987_491_137_965,
        5 => 22_235_472_303_866,
        6 => 23_557_662_291_594,
        7 => 24_958_473_787_324,
        8 => 26_442_581_869_203,
        9 => 28_014_939_609_995,
        10 => 29_680_794_607_494,
        _ => 31_445_706_497_899,
    }
}

/// The table of frequencies, one for each pitch class.
pub fn semitone_frequency_of(class: u16) -> (r: u64)
    requires
        class < 12,
    ensures
        r == semitone_frequency(class as nat),
{
    match class {
        0 => 17_145_893_047_540,
        1 => 18_165_440_903_700,
        2 => 19_245_614_230_235,
        3 => 20_390_018_005_210,
        4 => 21_602_471_569_841,
        5 => 22_887_021_375_193,
        6 => 24_247_954_486_829,
        7 => 25_689_812_892_499,
        8 => 27_217_408_660_599,
        9 => 28_835_840_000_000,
        10 => 30_550_508_274_849,
        _ => 32_367_136_031_121,
    }
}

proof fn lemma_pow2_128()
    ensures
        pow2(128) == 0x100000000000000000000000000000000,
{
    lemma2_to64();
    lemma_pow2_adds(64, 64);
    assert(pow2(128) == 0x100000000000000000000000000000000) by (nonlinear_arith)
        requires
            pow2(128) == pow2(64) * pow2(64),
            pow2(64) == 0x10000000000000000,
    ;
}

proof fn lemma_pow2_183()
    ensures
        pow2(183) == 0x8000000000000000000000000000000000000000000000,
{
    lemma2_to64();
    lemma_pow2_128();
    lemma_pow2_adds(32, 23);
    lemma_pow2_adds(128, 55);
    assert(pow2(55) == 0x80000000000000) by (nonlinear_arith)
        requires
            pow2(55) == pow2(32) * pow2(23),
            pow2(32) == 0x100000000,
            pow2(23) == 0x800000,
    ;
    assert(pow2(183) == 0x8000000000000000000000000000000000000000000000) by (nonlinear_arith)
        requires
            pow2(183) == pow2(128) * pow2(55),
            pow2(128) == 0x100000000000000000000000000000000,
            pow2(55) == 0x80000000000000,
    ;
}

proof fn lemma_pow2_365()
    ensures
        pow2(365) == 0x20000000000000000000000000000000000000000000000000000000000000000000000000000000000000000000,
{
    lemma_pow2_183();
    lemma_pow2_adds(183, 182);
    lemma_pow2_unfold(183);
    assert(pow2(182) == 0x4000000000000000000000000000000000000000000000) by (nonlinear_arith)
        requires
            pow2(183) == 2 * pow2(182),
            pow2(183) == 0x8000000000000000000000000000000000000000000000,
    ;
    assert(pow2(365) == 0x20000000000000000000000000000000000000000000000000000000000000000000000000000000000000000000) by (nonlinear_arith)
        requires
            pow2(365) == pow2(183) * pow2(182),
            pow2(183) == 0x8000000000000000000000000000000000000000000000,
            pow2(182) == 0x4000000000000000000000000000000000000000000000,
    ;
}

/// Each boundary of the table is the least whole number at or above the true edge.
pub proof fn lemma_semitone_boundary(class: nat)
    requires
        class < 12,
    ensures
        pow(semitone_boundary(class) as int, 24) >= pow(A4_FREQUENCY as int, 24) * pow2(
            2 * class + 365,
        ),
        pow(semitone_boundary(class) - 1, 24) < pow(A4_FREQUENCY as int, 24) * pow2(
            2 * class + 365,
        ),
{
    lemma2_to64();
    lemma_pow2_365();
    lemma_pow2_adds(2 * class, 365);
    lemma_power_products(A4_FREQUENCY as int);
    lemma_power_products(semitone_boundary(class) as int);
    lemma_power_products(semitone_boundary(class) - 1);
    if class == 0 {
        assert(pow2(2 * class + 365) == 0x20000000000000000000000000000000000000000000000000000000000000000000000000000000000000000000) by (nonlinear_arith)
            requires
                pow2(2 * class + 365) == pow2(2 * class) * pow2(365),
                pow2(2 * class) == 0x1,
                pow2(365) == 0x20000000000000000000000000000000000000000000000000000000000000000000000000000000000000000000,
        ;
        assert(twenty_fourth_power(16657782755289) >= twenty_fourth_power(440000000) * 0x20000000000000000000000000000000000000000000000000000000000000000000000000000000000000000000)
            by (nonlinear_arith);
        assert(twenty_fourth_power(16657782755288) < twenty_fourth_power(440000000) * 0x20000000000000000000000000000000000000000000000000000000000000000000000000000000000000000000)
            by (nonlinear_arith);
    } else if class == 1 {
        assert(pow2(2 * class + 365) == 0x80000000000000000000000000000000000000000000000000000000000000000000000000000000000000000000) by (nonlinear_arith)
            requires
                pow2(2 * class + 365) == pow2(2 * class) * pow2(365),
                pow2(2 * class) == 0x4,
                pow2(365) == 0x20000000000000000000000000000000000000000000000000000000000000000000000000000000000000000000,
        ;
        assert(twenty_fourth_power(17648306063084) >= twenty_fourth_power(440000000) * 0x80000000000000000000000000000000000000000000000000000000000000000000000000000000000000000000)
            by (nonlinear_arith);
        assert(twenty_fourth_power(17648306063083) < twenty_fourth_power(440000000) * 0x80000000000000000000000000000000000000000000000000000000000000000000000000000000000000000000)
            by (nonlinear_arith);
    } else if class == 2 {
        assert(pow2(2 * class + 365) == 0x200000000000000000000000000000000000000000000000000000000000000000000000000000000000000000000) by (nonlinear_arith)
            requires
                pow2(2 * class + 365) == pow2(2 * class) * pow2(365),
                pow2(2 * class) == 0x10,
                pow2(365) == 0x20000000000000000000000000000000000000000000000000000000000000000000000000000000000000000000,
        ;
        assert(twenty_fourth_power(18697728951794) >= twenty_fourth_power(440000000) * 0x200000000000000000000000000000000000000000000000000000000000000000000000000000000000000000000)
            by (nonlinear_arith);
        assert(twenty_fourth_power(18697728951793) < twenty_fourth_power(440000000) * 0x200000000000000000000000000000000000000000000000000000000000000000000000000000000000000000000)
            by (nonlinear_arith);
    } else if class == 3 {
        assert(pow2(2 * class + 365) == 0x800000000000000000000000000000000000000000000000000000000000000000000000000000000000000000000) by (nonlinear_arith)
            requires
                pow2(2 * class + 365) == pow2(2 * class) * pow2(365),
                pow2(2 * class) == 0x40,
                pow2(365) == 0x20000000000000000000000000000000000000000000000000000000000000000000000000000000000000000000,
        ;
        assert(twenty_fourth_power(19809553772759) >= twenty_fourth_power(440000000) * 0x800000000000000000000000000000000000000000000000000000000000000000000000000000000000000000000)
            by (nonlinear_arith);
        assert(twenty_fourth_power(19809553772758) < twenty_fourth_power(440000000) * 0x800000000000000000000000000000000000000000000000000000000000000000000000000000000000000000000)
            by (nonlinear_arith);
    } else if class == 4 {
        assert(pow2(2 * class + 365) == 0x2000000000000000000000000000000000000000000000000000000000000000000000000000000000000000000000) by (nonlinear_arith)
            requires
                pow2(2 * class + 365) == pow2(2 * class) * pow2(365),
                pow2(2 * class) == 0x100,
                pow2(365) == 0x20000000000000000000000000000000000000000000000000000000000000000000000000000000000000000000,
        ;
        assert(twenty_fourth_power(20987491137965) >= twenty_fourth_power(440000000) * 0x2000000000000000000000000000000000000000000000000000000000000000000000000000000000000000000000)
            by (nonlinear_arith);
        assert(twenty_fourth_power(20987491137964) < twenty_fourth_power(440000000) * 0x2000000000000000000000000000000000000000000000000000000000000000000000000000000000000000000000)
            by (nonlinear_arith);
    } else if class == 5 {
        assert(pow2(2 * class + 365) == 0x8000000000000000000000000000000000000000000000000000000000000000000000000000000000000000000000) by (nonlinear_arith)
            requires
                pow2(2 * class + 365) == pow2(2 * class) * pow2(365),
                pow2(2 * class) == 0x400,
                pow2(365) == 0x20000000000000000000000000000000000000000000000000000000000000000000000000000000000000000000,
        ;
        assert(twenty_fourth_power(22235472303866) >= twenty_fourth_power(440000000) * 0x8000000000000000000000000000000000000000000000000000000000000000000000000000000000000000000000)
            by (nonlinear_arith);
        assert(twenty_fourth_power(22235472303865) < twenty_fourth_power(440000000) * 0x8000000000000000000000000000000000000000000000000000000000000000000000000000000000000000000000)
            by (nonlinear_arith);
    } else if class == 6 {
        assert(pow2(2 * class + 365) == 0x20000000000000000000000000000000000000000000000000000000000000000000000000000000000000000000000) by (nonlinear_arith)
            requires
                pow2(2 * class + 365) == pow2(2 * class) * pow2(365),
                pow2(2 * class) == 0x1000,
                pow2(365) == 0x20000000000000000000000000000000000000000000000000000000000000000000000000000000000000000000,
        ;
        assert(twenty_fourth_power(23557662291594) >= twenty_fourth_power(440000000) * 0x20000000000000000000000000000000000000000000000000000000000000000000000000000000000000000000000)
            by (nonlinear_arith);
        assert(twenty_fourth_power(23557662291593) < twenty_fourth_power(440000000) * 0x20000000000000000000000000000000000000000000000000000000000000000000000000000000000000000000000)
            by (nonlinear_arith);
    } else if class == 7 {
        assert(pow2(2 * class + 365) == 0x80000000000000000000000000000000000000000000000000000000000000000000000000000000000000000000000) by (nonlinear_arith)
            requires
                pow2(2 * class + 365) == pow2(2 * class) * pow2(365),
                pow2(2 * class) == 0x4000,
                pow2(365) == 0x20000000000000000000000000000000000000000000000000000000000000000000000000000000000000000000,
        ;
        assert(twenty_fourth_power(24958473787324) >= twenty_fourth_power(440000000) * 0x80000000000000000000000000000000000000000000000000000000000000000000000000000000000000000000000)
            by (nonlinear_arith);
        assert(twenty_fourth_power(24958473787323) < twenty_fourth_power(440000000) * 0x80000000000000000000000000000000000000000000000000000000000000000000000000000000000000000000000)
            by (nonlinear_arith);
    } else if class == 8 {
        assert(pow2(2 * class + 365) == 0x200000000000000000000000000000000000000000000000000000000000000000000000000000000000000000000000) by (nonlinear_arith)
            requires
                pow2(2 * class + 365) == pow2(2 * class) * pow2(365),
                pow2(2 * class) == 0x10000,
                pow2(365) == 0x20000000000000000000000000000000000000000000000000000000000000000000000000000000000000000000,
        ;
        assert(twenty_fourth_power(26442581869203) >= twenty_fourth_power(440000000) * 0x200000000000000000000000000000000000000000000000000000000000000000000000000000000000000000000000)
            by (nonlinear_arith);
        assert(twenty_fourth_power(26442581869202) < twenty_fourth_power(440000000) * 0x200000000000000000000000000000000000000000000000000000000000000000000000000000000000000000000000)
            by (nonlinear_arith);
    } else if class == 9 {
        assert(pow2(2 * class + 365) == 0x800000000000000000000000000000000000000000000000000000000000000000000000000000000000000000000000) by (nonlinear_arith)
            requires
                pow2(2 * class + 365) == pow2(2 * class) * pow2(365),
                pow2(2 * class) == 0x40000,
                pow2(365) == 0x20000000000000000000000000000000000000000000000000000000000000000000000000000000000000000000,
        ;
        assert(twenty_fourth_power(28014939609995) >= twenty_fourth_power(440000000) * 0x800000000000000000000000000000000000000000000000000000000000000000000000000000000000000000000000)
            by (nonlinear_arith);
        assert(twenty_fourth_power(28014939609994) < twenty_fourth_power(440000000) * 0x800000000000000000000000000000000000000000000000000000000000000000000000000000000000000000000000)
            by (nonlinear_arith);
    } else if class == 10 {
        assert(pow2(2 * class + 365) == 0x2000000000000000000000000000000000000000000000000000000000000000000000000000000000000000000000000) by (nonlinear_arith)
            requires
                pow2(2 * class + 365) == pow2(2 * class) * pow2(365),
                pow2(2 * class) == 0x100000,
                pow2(365) == 0x20000000000000000000000000000000000000000000000000000000000000000000000000000000000000000000,
        ;
        assert(twenty_fourth_power(29680794607494) >= twenty_fourth_power(440000000) * 0x2000000000000000000000000000000000000000000000000000000000000000000000000000000000000000000000000)
            by (nonlinear_arith);
        assert(twenty_fourth_power(29680794607493) < twenty_fourth_power(440000000) * 0x2000000000000000000000000000000000000000000000000000000000000000000000000000000000000000000000000)
            by (nonlinear_arith);
    } else {
        assert(pow2(2 * class + 365) == 0x8000000000000000000000000000000000000000000000000000000000000000000000000000000000000000000000000) by (nonlinear_arith)
            requires
                pow2(2 * class + 365) == pow2(2 * class) * pow2(365),
                pow2(2 * class) == 0x400000,
                pow2(365) == 0x20000000000000000000000000000000000000000000000000000000000000000000000000000000000000000000,
        ;
        assert(twenty_fourth_power(31445706497899) >= twenty_fourth_power(440000000) * 0x8000000000000000000000000000000000000000000000000000000000000000000000000000000000000000000000000)
            by (nonlinear_arith);
        assert(twenty_fourth_power(31445706497898) < twenty_fourth_power(440000000) * 0x8000000000000000000000000000000000000000000000000000000000000000000000000000000000000000000000000)
            by (nonlinear_arith);
    }
}

/// Each frequency of the table is the greatest whole number at or below the true pitch.
pub proof fn lemma_semitone_frequency(class: nat)
    requires
        class < 12,
    ensures
        pow(semitone_frequency(class) as int, 12) <= pow(A4_FREQUENCY as int, 12) * pow2(
            class + 183,
        ),
        pow(A4_FREQUENCY as int, 12) * pow2(class + 183) < pow(
            semitone_frequency(class) as int + 1,
            12,
        ),
{
    lemma2_to64();
    lemma_pow2_183();
    lemma_pow2_adds(class, 183);
    lemma_power_products(A4_FREQUENCY as int);
    lemma_power_products(semitone_frequency(class) as int);
    lemma_power_products(semitone_frequency(class) as int + 1);
    if class == 0 {
        assert(pow2(class + 183) == 0x8000000000000000000000000000000000000000000000) by (nonlinear_arith)
            requires
                pow2(class + 183) == pow2(class) * pow2(183),
                pow2(class) == 0x1,
                pow2(183) == 0x8000000000000000000000000000000000000000000000,
        ;
        assert(twelfth_power(17145893047540) <= twelfth_power(440000000) * 0x8000000000000000000000000000000000000000000000)
            by (nonlinear_arith);
        assert(twelfth_power(440000000) * 0x8000000000000000000000000000000000000000000000 < twelfth_power(17145893047541))
            by (nonlinear_arith);
    } else if class == 1 {
        assert(pow2(class + 183) == 0x10000000000000000000000000000000000000000000000) by (nonlinear_arith)
            requires
                pow2(class + 183) == pow2(class) * pow2(183),
                pow2(class) == 0x2,
                pow2(183) == 0x8000000000000000000000000000000000000000000000,
        ;
        assert(twelfth_power(18165440903700) <= twelfth_power(440000000) * 0x10000000000000000000000000000000000000000000000)
            by (nonlinear_arith);
        assert(twelfth_power(440000000) * 0x10000000000000000000000000000000000000000000000 < twelfth_power(18165440903701))
            by (nonlinear_arith);
    } else if class == 2 {
        assert(pow2(class + 183) == 0x20000000000000000000000000000000000000000000000) by (nonlinear_arith)
            requires
                pow2(class + 183) == pow2(class) * pow2(183),
                pow2(class) == 0x4,
                pow2(183) == 0x8000000000000000000000000000000000000000000000,
        ;
        assert(twelfth_power(19245614230235) <= twelfth_power(440000000) * 0x20000000000000000000000000000000000000000000000)
            by (nonlinear_arith);
        assert(twelfth_power(440000000) * 0x20000000000000000000000000000000000000000000000 < twelfth_power(19245614230236))
            by (nonlinear_arith);
    } else if class == 3 {
        assert(pow2(class + 183) == 0x40000000000000000000000000000000000000000000000) by (nonlinear_arith)
            requires
                pow2(class + 183) == pow2(class) * pow2(183),
                pow2(class) == 0x8,
                pow2(183) == 0x8000000000000000000000000000000000000000000000,
        ;
        assert(twelfth_power(20390018005210) <= twelfth_power(440000000) * 0x40000000000000000000000000000000000000000000000)
            by (nonlinear_arith);
        assert(twelfth_power(440000000) * 0x40000000000000000000000000000000000000000000000 < twelfth_power(20390018005211))
            by (nonlinear_arith);
    } else if class == 4 {
        assert(pow2(class + 183) == 0x80000000000000000000000000000000000000000000000) by (nonlinear_arith)
            requires
                pow2(class + 183) == pow2(class) * pow2(183),
                pow2(class) == 0x10,
                pow2(183) == 0x8000000000000000000000000000000000000000000000,
        ;
        assert(twelfth_power(21602471569841) <= twelfth_power(440000000) * 0x80000000000000000000000000000000000000000000000)
            by (nonlinear_arith);
        assert(twelfth_power(440000000) * 0x80000000000000000000000000000000000000000000000 < twelfth_power(21602471569842))
            by (nonlinear_arith);
    } else if class == 5 {
        assert(pow2(class + 183) == 0x100000000000000000000000000000000000000000000000) by (nonlinear_arith)
            requires
                pow2(class + 183) == pow2(class) * pow2(183),
                pow2(class) == 0x20,
                pow2(183) == 0x8000000000000000000000000000000000000000000000,
        ;
        assert(twelfth_power(22887021375193) <= twelfth_power(440000000) * 0x100000000000000000000000000000000000000000000000)
            by (nonlinear_arith);
        assert(twelfth_power(440000000) * 0x100000000000000000000000000000000000000000000000 < twelfth_power(22887021375194))
            by (nonlinear_arith);
    } else if class == 6 {
        assert(pow2(class + 183) == 0x200000000000000000000000000000000000000000000000) by (nonlinear_arith)
            requires
                pow2(class + 183) == pow2(class) * pow2(183),
                pow2(class) == 0x40,
                pow2(183) == 0x8000000000000000000000000000000000000000000000,
        ;
        assert(twelfth_power(24247954486829) <= twelfth_power(440000000) * 0x200000000000000000000000000000000000000000000000)
            by (nonlinear_arith);
        assert(twelfth_power(440000000) * 0x200000000000000000000000000000000000000000000000 < twelfth_power(24247954486830))
            by (nonlinear_arith);
    } else if class == 7 {
        assert(pow2(class + 183) == 0x400000000000000000000000000000000000000000000000) by (nonlinear_arith)
            requires
                pow2(class + 183) == pow2(class) * pow2(183),
                pow2(class) == 0x80,
                pow2(183) == 0x8000000000000000000000000000000000000000000000,
        ;
        assert(twelfth_power(25689812892499) <= twelfth_power(440000000) * 0x400000000000000000000000000000000000000000000000)
            by (nonlinear_arith);
        assert(twelfth_power(440000000) * 0x400000000000000000000000000000000000000000000000 < twelfth_power(25689812892500))
            by (nonlinear_arith);
    } else if class == 8 {
        assert(pow2(class + 183) == 0x800000000000000000000000000000000000000000000000) by (nonlinear_arith)
            requires
                pow2(class + 183) == pow2(class) * pow2(183),
                pow2(class) == 0x100,
                pow2(183) == 0x8000000000000000000000000000000000000000000000,
        ;
        assert(twelfth_power(27217408660599) <= twelfth_power(440000000) * 0x800000000000000000000000000000000000000000000000)
            by (nonlinear_arith);
        assert(twelfth_power(440000000) * 0x800000000000000000000000000000000000000000000000 < twelfth_power(27217408660600))
            by (nonlinear_arith);
    } else if class == 9 {
        assert(pow2(class + 183) == 0x1000000000000000000000000000000000000000000000000) by (nonlinear_arith)
            requires
                pow2(class + 183) == pow2(class) * pow2(183),
                pow2(class) == 0x200,
                pow2(183) == 0x8000000000000000000000000000000000000000000000,
        ;
        assert(twelfth_power(28835840000000) <= twelfth_power(440000000) * 0x1000000000000000000000000000000000000000000000000)
            by (nonlinear_arith);
        assert(twelfth_power(440000000) * 0x1000000000000000000000000000000000000000000000000 < twelfth_power(28835840000001))
            by (nonlinear_arith);
    } else if class == 10 {
        assert(pow2(class + 183) == 0x2000000000000000000000000000000000000000000000000) by (nonlinear_arith)
            requires
                pow2(class + 183) == pow2(class) * pow2(183),
                pow2(class) == 0x400,
                pow2(183) == 0x8000000000000000000000000000000000000000000000,
        ;
        assert(twelfth_power(30550508274849) <= twelfth_power(440000000) * 0x2000000000000000000000000000000000000000000000000)
            by (nonlinear_arith);
        assert(twelfth_power(440000000) * 0x2000000000000000000000000000000000000000000000000 < twelfth_power(30550508274850))
            by (nonlinear_arith);
    } else {
        assert(pow2(class + 183) == 0x4000000000000000000000000000000000000000000000000) by (nonlinear_arith)
            requires
                pow2(class + 183) == pow2(class) * pow2(183),
                pow2(class) == 0x800,
                pow2(183) == 0x8000000000000000000000000000000000000000000000,
        ;
        assert(twelfth_power(32367136031121) <= twelfth_power(440000000) * 0x4000000000000000000000000000000000000000000000000)
            by (nonlinear_arith);
        assert(twelfth_power(440000000) * 0x4000000000000000000000000000000000000000000000000 < twelfth_power(32367136031122))
            by (nonlinear_arith);
    }
}

} // verus!
