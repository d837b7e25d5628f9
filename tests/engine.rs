use synth_tuner::matcher::{enumerate, find, find_min_max_trim, match_group, Cap, NoMatch};
use synth_tuner::oscillator::{
    boundary_frequency, frequency, in_reach, Capacitance, Decade, TrimEnd, UnitScale,
};
use synth_tuner::search::best_trim_for;
use synth_tuner::tables::note_frequency;

fn cap(base: usize, unit: UnitScale, decade: Decade) -> Capacitance {
    Capacitance { base, unit, decade }
}

#[test]
fn test_known_good_b8() {
    let res = find(790213, 107, cap(22, UnitScale::Nano, Decade::One)).unwrap();
    assert_eq!(7902.13, res.frequency as f64 / 100.0);
    assert_eq!(634.7, res.trim as f64 / 10.0);
}

#[test]
fn c0_sweep_stops_at_first_trim_within_tolerance() {
    // 818.4 ohms gives 16.3451 Hz, the first trim from the top within 0.005 Hz;
    // 815.0 ohms would be closer but comes later in the sweep.
    let res = find(1635, 0, cap(14, UnitScale::Micro, Decade::One)).unwrap();
    assert_eq!(16.35, res.frequency as f64 / 100.0);
    assert_eq!(8184, res.trim);
}

#[test]
fn a4_sweep_stops_at_first_trim_within_tolerance() {
    let res = find(44000, 57, cap(4, UnitScale::Nano, Decade::Hundred)).unwrap();
    assert_eq!(440.0, res.frequency as f64 / 100.0);
    assert_eq!(4319, res.trim);
}

#[test]
fn out_of_range_capacitance_gives_no_match() {
    let c = cap(0, UnitScale::Pico, Decade::One);
    assert_eq!(find(1635, 0, c), Err(NoMatch));
    assert!(!in_reach(c, 1635));
}

#[test]
fn frequency_decreases_with_trim() {
    let c = cap(14, UnitScale::Micro, Decade::One);
    let samples: Vec<u64> = (0..9).map(|i| frequency(c, 10000 - 2500 * i)).collect();
    assert_eq!(samples, vec![1609, 1644, 1682, 1721, 1762, 1805, 1850, 1897, 1947]);
    for w in samples.windows(2) {
        assert!(w[0] < w[1]);
    }
}

#[test]
fn boundary_frequencies_of_both_ends() {
    let c = cap(14, UnitScale::Micro, Decade::One);
    assert_eq!(boundary_frequency(c, TrimEnd::High), 1609);
    assert_eq!(boundary_frequency(c, TrimEnd::Low), 1947);
    let r = find_min_max_trim(1635, c);
    assert_eq!((r.low, r.high, r.trim, r.frequency), (1609, 1947, 8184, 1635));
}

#[test]
fn interval_ends_are_inclusive() {
    // The reachable interval is 16.0870 Hz to 19.4737 Hz.
    let c = cap(14, UnitScale::Micro, Decade::One);
    assert!(in_reach(c, 1609));
    assert!(!in_reach(c, 1608));
    assert!(in_reach(c, 1947));
    assert!(!in_reach(c, 1948));
}

#[test]
fn best_trim_is_within_tolerance_and_first() {
    let c = cap(14, UnitScale::Micro, Decade::One);
    let m = best_trim_for(c, 1635);
    assert_eq!(m.trim, 8184);
    // One step earlier the frequency is 16.3449 Hz, more than 0.005 Hz away.
    assert_eq!(frequency(c, 8185), 1634);
}

#[test]
fn best_trim_outside_interval_is_nearest_end() {
    let c = cap(14, UnitScale::Micro, Decade::One);
    let low = best_trim_for(c, 100);
    assert_eq!((low.trim, low.frequency), (10000, 1609));
    let high = best_trim_for(c, 500000);
    assert_eq!((high.trim, high.frequency), (-10000, 1947));
}

#[test]
fn best_trim_round_trips_through_frequency() {
    for (c, target) in [
        (cap(14, UnitScale::Micro, Decade::One), 1635),
        (cap(4, UnitScale::Nano, Decade::Hundred), 44000),
        (cap(22, UnitScale::Nano, Decade::One), 790213),
        (cap(14, UnitScale::Micro, Decade::One), 100),
    ] {
        let m = best_trim_for(c, target);
        assert_eq!(frequency(c, m.trim), m.frequency);
    }
}

#[test]
fn first_group_of_lowest_note() {
    let r = match_group(0, 0).unwrap();
    assert_eq!(r.cap, cap(14, UnitScale::Micro, Decade::One));
    assert_eq!((r.note, r.trim, r.frequency), (0, 8184, 1635));
    assert_eq!(r.capacitance_centi(), 390);
    assert_eq!(r.trim_resistance_deci(), 18184);
    assert_eq!(r.trim_percent_centi(), 9092);
    assert_eq!(r.target(), 1635);
}

#[test]
fn full_enumeration_summary() {
    let s = enumerate();
    assert_eq!(s.records.len(), 114);
    assert_eq!(s.inventory.len(), 54);
    assert_eq!((s.min_trim, s.max_trim), (-8266, 9908));
    assert!(s.unmatched.is_empty());
    assert_eq!(s.inventory[0], Cap { value: 4, unit: UnitScale::Micro });
    for w in s.records.windows(2) {
        assert!(w[0].note <= w[1].note);
    }
}

#[test]
fn enumeration_is_repeatable() {
    let a = enumerate();
    let b = enumerate();
    assert_eq!(a.records, b.records);
    assert_eq!(a.inventory, b.inventory);
    assert_eq!((a.min_trim, a.max_trim), (b.min_trim, b.max_trim));
    assert_eq!(a.unmatched, b.unmatched);
}

#[test]
fn inventory_entries_compare_by_value_and_unit() {
    let a = Cap { value: 39, unit: UnitScale::Nano };
    assert!(a == Cap { value: 39, unit: UnitScale::Nano });
    assert!(a != Cap { value: 39, unit: UnitScale::Pico });
    assert!(a != Cap { value: 40, unit: UnitScale::Nano });
}

#[test]
fn note_table_ends() {
    assert_eq!(note_frequency(0), 1635);
    assert_eq!(note_frequency(57), 44000);
    assert_eq!(note_frequency(107), 790213);
}

#[test]
fn unit_letters() {
    assert_eq!(UnitScale::Micro.letter(), 'u');
    assert_eq!(UnitScale::Nano.letter(), 'n');
    assert_eq!(UnitScale::Pico.letter(), 'p');
}
