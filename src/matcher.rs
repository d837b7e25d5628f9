//! Matching notes to capacitances, and the full enumeration over all notes,
//! units, decades and base magnitudes.
use vstd::prelude::*;
use crate::oscillator::{
    Capacitance, Decade, TRIM_LIMIT, TrimEnd, UnitScale, boundary_frequency, in_range, in_reach,
    in_travel, rounded_centi_hz,
};
use crate::search::{best_trim, best_trim_for};
use crate::tables::{BASE_COUNT, BASE_TENTHS, NOTE_COUNT, base_tenths, lemma_base_bounds, note_centi_hz};

verus! {

/// Number of (unit, decade) groups tried for each note.
pub const GROUP_COUNT: usize = 9;

/// What a search for one note and one capacitance found: the rounded
/// frequencies at both ends of the trim travel, and the trim the sweep
/// settled on with its rounded frequency.
#[derive(Clone, Copy, PartialEq, Eq, Structural, Debug)]
pub struct TrimRange {
    pub low: u64,
    pub high: u64,
    pub trim: i32,
    pub frequency: u64,
}

/// The note's frequency lies outside what the trim travel reaches.
#[derive(Clone, Copy, PartialEq, Eq, Structural, Debug)]
pub struct NoMatch;

pub open spec fn spec_trim_range(c: Capacitance, centi_hz: int) -> TrimRange {
    TrimRange {
        low: rounded_centi_hz(c, TRIM_LIMIT as int) as u64,
        high: rounded_centi_hz(c, -TRIM_LIMIT) as u64,
        trim: best_trim(c, centi_hz) as i32,
        frequency: rounded_centi_hz(c, best_trim(c, centi_hz)) as u64,
    }
}

/// Both ends of the reachable interval and the best trim for `centi_hz`.
pub fn find_min_max_trim(centi_hz: u64, cap: Capacitance) -> (r: TrimRange)
    requires
        cap.wf(),
    ensures
        r == spec_trim_range(cap, centi_hz as int),
        r.low == rounded_centi_hz(cap, TRIM_LIMIT as int),
        r.high == rounded_centi_hz(cap, -TRIM_LIMIT),
        r.trim == best_trim(cap, centi_hz as int),
        r.frequency == rounded_centi_hz(cap, r.trim as int),
{
    let low = boundary_frequency(cap, TrimEnd::High);
    let high = boundary_frequency(cap, TrimEnd::Low);
    let best = best_trim_for(cap, centi_hz);
    TrimRange { low, high, trim: best.trim, frequency: best.frequency }
}

/// Searches a trim of `cap` for the frequency `centi_hz`, provided that the
/// frequency of note `note` lies in the interval the trim travel reaches.
pub fn find(centi_hz: u64, note: usize, cap: Capacitance) -> (r: Result<TrimRange, NoMatch>)
    requires
        cap.wf(),
        note < NOTE_COUNT,
    ensures
        r is Ok <==> in_range(cap, note_centi_hz(note as int) as int),
        r is Ok ==> r->Ok_0 == spec_trim_range(cap, centi_hz as int),
        r is Err ==> r->Err_0 == NoMatch,
{
    let found = find_min_max_trim(centi_hz, cap);
    let target = crate::tables::note_frequency(note);
    if in_reach(cap, target) {
        Ok(found)
    } else {
        Err(NoMatch)
    }
}

/// An accepted pairing of a note with a capacitance and a trim.
#[derive(Clone, Copy, PartialEq, Eq, Structural, Debug)]
pub struct MatchRecord {
    pub note: usize,
    pub cap: Capacitance,
    pub trim: i32,
    pub frequency: u64,
}

/// A capacitor value of the inventory: its magnitude times the decade,
/// rounded to a whole number, and its unit.
#[derive(Clone, Copy, Debug)]
pub struct Cap {
    pub value: u32,
    pub unit: UnitScale,
}

impl PartialEq for Cap {
    fn eq(&self, other: &Cap) -> (r: bool) {
        self.value == other.value && self.unit == other.unit
    }
}

impl vstd::std_specs::cmp::PartialEqSpecImpl for Cap {
    open spec fn obeys_eq_spec() -> bool {
        true
    }

    open spec fn eq_spec(&self, other: &Cap) -> bool {
        self.value == other.value && self.unit == other.unit
    }
}

impl Eq for Cap {

}

/// The inventory entry for a capacitance.
pub open spec fn cap_entry(c: Capacitance) -> Cap {
    Cap {
        value: ((base_tenths(c.base as int) * c.decade.factor() + 5) / 10) as u32,
        unit: c.unit,
    }
}

pub fn entry_of(c: Capacitance) -> (r: Cap)
    requires
        c.wf(),
    ensures
        r == cap_entry(c),
{
    proof {
        lemma_base_bounds();
    }
    let b = BASE_TENTHS[c.base];
    let m = c.decade.exec_factor();
    proof {
        assert(b * m <= 9100) by (nonlinear_arith)
            requires
                b <= 91,
                m <= 100,
        ;
    }
    Cap { value: ((b * m + 5) / 10) as u32, unit: c.unit }
}

/// Unit of the `g`-th (unit, decade) group: micro, nano, then pico.
pub open spec fn group_unit(g: int) -> UnitScale {
    if g / 3 == 0 {
        UnitScale::Micro
    } else if g / 3 == 1 {
        UnitScale::Nano
    } else {
        UnitScale::Pico
    }
}

/// Decade of the `g`-th (unit, decade) group: 1, 10, then 100.
pub open spec fn group_decade(g: int) -> Decade {
    if g % 3 == 0 {
        Decade::One
    } else if g % 3 == 1 {
        Decade::Ten
    } else {
        Decade::Hundred
    }
}

pub open spec fn group_cap(g: int, base: int) -> Capacitance {
    Capacitance { base: base as usize, unit: group_unit(g), decade: group_decade(g) }
}

/// The first base magnitude from `base` on whose capacitance in group `g`
/// reaches the frequency of `note`.
pub open spec fn first_in_range(note: int, g: int, base: int) -> Option<int>
    decreases BASE_COUNT - base,
{
    if base < 0 || base >= BASE_COUNT {
        None
    } else if in_range(group_cap(g, base), note_centi_hz(note) as int) {
        Some(base)
    } else {
        first_in_range(note, g, base + 1)
    }
}

pub open spec fn spec_record(note: int, c: Capacitance) -> MatchRecord {
    let t = best_trim(c, note_centi_hz(note) as int);
    MatchRecord {
        note: note as usize,
        cap: c,
        trim: t as i32,
        frequency: rounded_centi_hz(c, t) as u64,
    }
}

/// The record that group `g` yields for `note`, if any.
pub open spec fn group_record(note: int, g: int) -> Option<MatchRecord> {
    match first_in_range(note, g, 0) {
        Some(b) => Some(spec_record(note, group_cap(g, b))),
        None => None,
    }
}

pub open spec fn option_seq(o: Option<MatchRecord>) -> Seq<MatchRecord> {
    match o {
        Some(r) => seq![r],
        None => Seq::empty(),
    }
}

/// Records of the first `groups` groups for `note`.
pub open spec fn note_records(note: int, groups: int) -> Seq<MatchRecord>
    decreases groups,
{
    if groups <= 0 {
        Seq::empty()
    } else {
        note_records(note, groups - 1) + option_seq(group_record(note, groups - 1))
    }
}

/// Records of the first `notes` notes, in enumeration order.
pub open spec fn records_upto(notes: int) -> Seq<MatchRecord>
    decreases notes,
{
    if notes <= 0 {
        Seq::empty()
    } else {
        records_upto(notes - 1) + note_records(notes - 1, GROUP_COUNT as int)
    }
}

/// Notes among the first `notes` that no group matched.
pub open spec fn unmatched_upto(notes: int) -> Seq<usize>
    decreases notes,
{
    if notes <= 0 {
        Seq::empty()
    } else if note_records(notes - 1, GROUP_COUNT as int).len() == 0 {
        unmatched_upto(notes - 1).push((notes - 1) as usize)
    } else {
        unmatched_upto(notes - 1)
    }
}

/// The inventory after the records `rs`: each entry once, in order of first use.
pub open spec fn inventory_of(rs: Seq<MatchRecord>) -> Seq<Cap>
    decreases rs.len(),
{
    if rs.len() == 0 {
        Seq::empty()
    } else {
        let prev = inventory_of(rs.drop_last());
        let e = cap_entry(rs.last().cap);
        if prev.contains(e) {
            prev
        } else {
            prev.push(e)
        }
    }
}

/// One step of the trim extrema: a trim below the minimum replaces it;
/// otherwise a trim above the maximum replaces that.
pub open spec fn extrema_step(e: (int, int), t: int) -> (int, int) {
    if t < e.0 {
        (t, e.1)
    } else if t > e.1 {
        (e.0, t)
    } else {
        e
    }
}

/// The trim extrema after the records `rs`, seeded with the minimum at
/// +1000 ohms and the maximum at -1000 ohms.
pub open spec fn trim_extrema(rs: Seq<MatchRecord>) -> (int, int)
    decreases rs.len(),
{
    if rs.len() == 0 {
        (TRIM_LIMIT as int, -TRIM_LIMIT)
    } else {
        extrema_step(trim_extrema(rs.drop_last()), rs.last().trim as int)
    }
}

/// Everything a full run produces.
pub struct Summary {
    pub records: Vec<MatchRecord>,
    pub inventory: Vec<Cap>,
    pub min_trim: i32,
    pub max_trim: i32,
    pub unmatched: Vec<usize>,
}

impl Summary {
    /// The outcome of the enumeration over all notes and groups.
    pub open spec fn is_full_run(&self) -> bool {
        &&& self.records@ == records_upto(NOTE_COUNT as int)
        &&& self.inventory@ == inventory_of(self.records@)
        &&& (self.min_trim as int, self.max_trim as int) == trim_extrema(self.records@)
        &&& self.unmatched@ == unmatched_upto(NOTE_COUNT as int)
    }
}

fn group_of(g: usize) -> (r: (UnitScale, Decade))
    requires
        g < GROUP_COUNT,
    ensures
        r.0 == group_unit(g as int),
        r.1 == group_decade(g as int),
{
    let unit = if g / 3 == 0 {
        UnitScale::Micro
    } else if g / 3 == 1 {
        UnitScale::Nano
    } else {
        UnitScale::Pico
    };
    let decade = if g % 3 == 0 {
        Decade::One
    } else if g % 3 == 1 {
        Decade::Ten
    } else {
        Decade::Hundred
    };
    (unit, decade)
}

/// Scans the base magnitudes of group `g` for `note`, stopping at the first
/// capacitance that reaches the note.
pub fn match_group(note: usize, g: usize) -> (r: Option<MatchRecord>)
    requires
        note < NOTE_COUNT,
        g < GROUP_COUNT,
    ensures
        r == group_record(note as int, g as int),
        r matches Some(rec) ==> rec.wf(),
{
    let (unit, decade) = group_of(g);
    let target = crate::tables::note_frequency(note);
    let mut b: usize = 0;
    while b < BASE_COUNT
        invariant
            b <= BASE_COUNT,
            note < NOTE_COUNT,
            unit == group_unit(g as int),
            decade == group_decade(g as int),
            target == note_centi_hz(note as int),
            first_in_range(note as int, g as int, 0) == first_in_range(
                note as int,
                g as int,
                b as int,
            ),
        decreases BASE_COUNT - b,
    {
        let cap = Capacitance { base: b, unit, decade };
        assert(cap == group_cap(g as int, b as int));
        if in_reach(cap, target) {
            let best = best_trim_for(cap, target);
            assert(in_travel(best.trim as int));
            return Some(MatchRecord { note, cap, trim: best.trim, frequency: best.frequency });
        }
        b = b + 1;
    }
    None
}

fn inventory_contains(inv: &Vec<Cap>, c: Cap) -> (r: bool)
    ensures
        r == inv@.contains(c),
{
    let mut i: usize = 0;
    while i < inv.len()
        invariant
            i <= inv.len(),
            forall|j: int| 0 <= j < i ==> inv@[j] != c,
        decreases inv.len() - i,
    {
        if inv[i] == c {
            return true;
        }
        i = i + 1;
    }
    false
}

proof fn lemma_push_drop_last<T>(s: Seq<T>, x: T)
    ensures
        s.push(x).drop_last() == s,
        s.push(x).last() == x,
{
    assert(s.push(x).drop_last() =~= s);
}

/// Adds an accepted record to the run's accumulators.
fn accept(summary: &mut Summary, rec: MatchRecord)
    requires
        rec.wf(),
        old(summary).inventory@ == inventory_of(old(summary).records@),
        (old(summary).min_trim as int, old(summary).max_trim as int) == trim_extrema(
            old(summary).records@,
        ),
    ensures
        final(summary).records@ == old(summary).records@.push(rec),
        final(summary).inventory@ == inventory_of(final(summary).records@),
        (final(summary).min_trim as int, final(summary).max_trim as int) == trim_extrema(
            final(summary).records@,
        ),
        final(summary).unmatched@ == old(summary).unmatched@,
{
    proof {
        lemma_push_drop_last(summary.records@, rec);
    }
    let e = entry_of(rec.cap);
    if !inventory_contains(&summary.inventory, e) {
        summary.inventory.push(e);
    }
    if rec.trim < summary.min_trim {
        summary.min_trim = rec.trim;
    } else if rec.trim > summary.max_trim {
        summary.max_trim = rec.trim;
    }
    summary.records.push(rec);
}

/// Runs the whole enumeration: notes in ascending order; for each, units
/// micro, nano, pico; for each, decades 1, 10, 100; in each such group the
/// base magnitudes in table order up to the first that reaches the note.
pub fn enumerate() -> (r: Summary)
    ensures
        r.is_full_run(),
        forall|i: int| 0 <= i < r.records@.len() ==> (#[trigger] r.records@[i]).wf(),
{
    let mut summary = Summary {
        records: Vec::new(),
        inventory: Vec::new(),
        min_trim: TRIM_LIMIT,
        max_trim: -TRIM_LIMIT,
        unmatched: Vec::new(),
    };
    let mut note: usize = 0;
    while note < NOTE_COUNT
        invariant
            note <= NOTE_COUNT,
            summary.records@ == records_upto(note as int),
            summary.inventory@ == inventory_of(summary.records@),
            (summary.min_trim as int, summary.max_trim as int) == trim_extrema(summary.records@),
            summary.unmatched@ == unmatched_upto(note as int),
            forall|i: int| 0 <= i < summary.records@.len() ==> (#[trigger] summary.records@[i]).wf(),
        decreases NOTE_COUNT - note,
    {
        let mut g: usize = 0;
        let mut found = false;
        while g < GROUP_COUNT
            invariant
                note < NOTE_COUNT,
                g <= GROUP_COUNT,
                summary.records@ == records_upto(note as int) + note_records(note as int, g as int),
                summary.inventory@ == inventory_of(summary.records@),
                (summary.min_trim as int, summary.max_trim as int) == trim_extrema(
                    summary.records@,
                ),
                summary.unmatched@ == unmatched_upto(note as int),
                found == (note_records(note as int, g as int).len() > 0),
                forall|i: int|
                    0 <= i < summary.records@.len() ==> (#[trigger] summary.records@[i]).wf(),
            decreases GROUP_COUNT - g,
        {
            let m = match_group(note, g);
            let ghost before = summary.records@;
            match m {
                Some(rec) => {
                    accept(&mut summary, rec);
                    found = true;
                },
                None => {},
            }
            proof {
                assert(summary.records@ =~= records_upto(note as int) + note_records(
                    note as int,
                    g + 1,
                ));
            }
            g = g + 1;
        }
        if !found {
            summary.unmatched.push(note);
        }
        proof {
            assert(summary.records@ =~= records_upto(note + 1));
        }
        note = note + 1;
    }
    summary
}

/// Two runs of the enumeration agree in everything they produce: records,
/// inventory, trim extrema and unmatched notes.
pub proof fn lemma_run_repeatable(a: &Summary, b: &Summary)
    requires
        a.is_full_run(),
        b.is_full_run(),
    ensures
        a.records@ == b.records@,
        a.inventory@ == b.inventory@,
        a.min_trim == b.min_trim,
        a.max_trim == b.max_trim,
        a.unmatched@ == b.unmatched@,
{
}

/// The inventory holds each capacitor value once, and exactly the values of
/// the records' capacitances.
pub proof fn lemma_inventory_distinct(rs: Seq<MatchRecord>)
    ensures
        inventory_of(rs).no_duplicates(),
        forall|e: Cap|
            inventory_of(rs).contains(e) <==> exists|i: int|
                0 <= i < rs.len() && #[trigger] cap_entry(rs[i].cap) == e,
    decreases rs.len(),
{
    if rs.len() > 0 {
        let prev = rs.drop_last();
        let inv = inventory_of(prev);
        let last = cap_entry(rs.last().cap);
        lemma_inventory_distinct(prev);
        if !inv.contains(last) {
            assert forall|i: int, j: int|
                0 <= i < inv.push(last).len() && 0 <= j < inv.push(last).len() && i != j
                implies inv.push(last)[i] != inv.push(last)[j] by {
                if i == inv.len() {
                    assert(inv.contains(inv[j]));
                } else if j == inv.len() {
                    assert(inv.contains(inv[i]));
                }
            }
        }
        assert forall|e: Cap|
            inventory_of(rs).contains(e) <==> exists|i: int|
                0 <= i < rs.len() && #[trigger] cap_entry(rs[i].cap) == e by {
            if inventory_of(rs).contains(e) {
                if inv.contains(e) {
                    let i = choose|i: int| 0 <= i < prev.len() && #[trigger] cap_entry(prev[i].cap) == e;
                    assert(rs[i] == prev[i]);
                } else {
                    assert(cap_entry(rs[rs.len() - 1].cap) == e);
                }
            }
            if exists|i: int| 0 <= i < rs.len() && #[trigger] cap_entry(rs[i].cap) == e {
                let i = choose|i: int| 0 <= i < rs.len() && #[trigger] cap_entry(rs[i].cap) == e;
                if i < rs.len() - 1 {
                    assert(prev[i] == rs[i]);
                    assert(inv.contains(e));
                } else {
                    assert(inventory_of(rs).contains(last) || inv.contains(last));
                }
                if inv.contains(e) && !inv.contains(last) {
                    assert(inv.push(last)[inv.index_of(e)] == e);
                }
                if !inv.contains(last) {
                    assert(inv.push(last)[inv.len() as int] == last);
                }
            }
        }
    }
}

impl MatchRecord {
    pub open spec fn wf(self) -> bool {
        self.cap.wf() && in_travel(self.trim as int) && self.note < NOTE_COUNT
    }

    /// The capacitor value (magnitude times decade) in hundredths of its unit.
    pub fn capacitance_centi(&self) -> (r: u64)
        requires
            self.wf(),
        ensures
            r == base_tenths(self.cap.base as int) * self.cap.decade.factor() * 10,
    {
        proof {
            lemma_base_bounds();
        }
        let b = BASE_TENTHS[self.cap.base];
        let m = self.cap.decade.exec_factor();
        proof {
            assert(b * m <= 9100) by (nonlinear_arith)
                requires
                    b <= 91,
                    m <= 100,
            ;
        }
        b * m * 10
    }

    /// The trim resistor's value, 1000 ohms plus the trim, in tenths of an ohm.
    pub fn trim_resistance_deci(&self) -> (r: u32)
        requires
            self.wf(),
        ensures
            r == 10000 + self.trim,
    {
        (10000 + self.trim) as u32
    }

    /// The trim resistor's value as a share of its 2000 ohm travel, in
    /// hundredths of a percent, rounded half up.
    pub fn trim_percent_centi(&self) -> (r: u32)
        requires
            self.wf(),
        ensures
            r == (10000 + self.trim + 1) / 2,
    {
        ((10000 + self.trim + 1) / 2) as u32
    }

    /// The target frequency of the record's note, in hundredths of a hertz.
    pub fn target(&self) -> (r: u64)
        requires
            self.wf(),
        ensures
            r == note_centi_hz(self.note as int),
    {
        crate::tables::note_frequency(self.note)
    }
}

} // verus!
