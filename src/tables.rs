use vstd::prelude::*;

verus! {

/// Number of notes in the tuning table.
pub const NOTE_COUNT: usize = 108;

/// Number of capacitor magnitudes in the base series.
pub const BASE_COUNT: usize = 24;

/// Note frequencies in hundredths of a hertz, lowest first.
pub const NOTE_CENTI_HZ: [u64; 108] = [
    1635, 1732, 1835, 1945, 2060, 2183, 2312, 2450, 2596, 2750, 2914, 3087,
    3270, 3465, 3671, 3889, 4120, 4365, 4625, 4900, 5191, 5500, 5827, 6174,
    6541, 6930, 7342, 7778, 8241, 8731, 9250, 9800, 10383, 11000, 11654, 12347,
    13081, 13859, 14683, 15556, 16481, 17461, 18500, 19600, 20765, 22000, 23308, 24694,
    26163, 27718, 29366, 31113, 32963, 34923, 36999, 39200, 41530, 44000, 46616, 49388,
    52325, 55437, 58733, 62225, 65925, 69846, 73999, 78399, 83061, 88000, 93233, 98777,
    104650, 110873, 117466, 124451, 131851, 139691, 147998, 156798, 166122, 176000, 186466, 197553,
    209300, 221746, 234932, 248902, 263702, 279383, 295996, 313596, 332244, 352000, 372931, 395107,
    418601, 443492, 469863, 497803, 527404, 558765, 591991, 627193, 664488, 704000, 745862, 790213,];

/// Capacitor magnitudes of the base series, in tenths (10 stands for 1.0).
pub const BASE_TENTHS: [u64; 24] = [
    10, 11, 12, 13, 15, 16, 18, 20, 22, 24, 27, 30, 33, 36, 39, 43, 47, 51, 56, 62, 68, 75, 82, 91,
];

pub open spec fn note_centi_hz(i: int) -> u64 {
    NOTE_CENTI_HZ@[i]
}

pub open spec fn base_tenths(i: int) -> u64 {
    BASE_TENTHS@[i]
}

/// Every magnitude of the base series lies between 1.0 and 9.1.
pub proof fn lemma_base_bounds()
    ensures
        forall|i: int| 0 <= i < BASE_COUNT ==> 10 <= #[trigger] base_tenths(i) <= 91,
{
    assert(BASE_TENTHS@ =~= seq![
        10u64, 11, 12, 13, 15, 16, 18, 20, 22, 24, 27, 30, 33, 36, 39, 43, 47, 51, 56, 62, 68, 75,
        82, 91,
    ]);
}

/// The target frequency of note `i`, in hundredths of a hertz.
pub fn note_frequency(i: usize) -> (r: u64)
    requires
        i < NOTE_COUNT,
    ensures
        r == note_centi_hz(i as int),
{
    NOTE_CENTI_HZ[i]
}

} // verus!
