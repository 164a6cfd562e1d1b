//! Clock tempo state and the per-pulse decisions of the MIDI clock.
//!
//! Tempos are in thousandths of a beat per minute ("milli-BPM"); times and
//! intervals are in nanoseconds.
use std::collections::VecDeque;
use vstd::prelude::*;

use crate::beat_confirmation::ConfirmedBeat;
use crate::pll::{pll_step, spec_detected_bpm, spec_pll_comparison, Pll};
use crate::state::{SharedState, SystemState};

verus! {

/// MIDI clock pulses per quarter note.
pub const PULSES_PER_QUARTER_NOTE: u64 = 24;

/// Number of most recent clock beat timestamps kept for phase comparison.
pub const BEAT_TIMESTAMP_CAPACITY: usize = 8;

/// Nanoseconds in one minute, times the milli-BPM scale: a tempo of `b` milli-BPM has
/// a beat every `NANOS_PER_MINUTE_MILLI / b` nanoseconds.
pub const NANOS_PER_MINUTE_MILLI: u64 = 60_000_000_000_000;

/// Time from `t` to `now`, zero when `t` is later.
pub open spec fn elapsed_since(now: u64, t: u64) -> int {
    if now >= t {
        now - t
    } else {
        0
    }
}

/// The tempo values of a `ClockState`.
pub struct ClockView {
    /// Tempo the clock converges on, in milli-BPM.
    pub base_bpm: i64,
    /// Short-lived phase correction added to the base tempo, in milli-BPM.
    pub temporary_offset: i64,
}

/// The clock's tempo: a base tempo and a temporary offset for phase correction.
pub struct ClockState {
    base_bpm: i64,
    temporary_offset: i64,
}

impl View for ClockState {
    type V = ClockView;

    closed spec fn view(&self) -> ClockView {
        ClockView { base_bpm: self.base_bpm, temporary_offset: self.temporary_offset }
    }
}

/// The tempo the clock runs at: base plus offset.
pub open spec fn spec_effective_bpm(v: ClockView) -> int {
    v.base_bpm + v.temporary_offset
}

impl ClockState {
    /// Starts at `initial_bpm` with no offset.
    pub fn new(initial_bpm: i64) -> (s: Self)
        ensures
            s@.base_bpm == initial_bpm,
            s@.temporary_offset == 0,
    {
        ClockState { base_bpm: initial_bpm, temporary_offset: 0 }
    }

    pub fn base_bpm(&self) -> (b: i64)
        ensures
            b == self@.base_bpm,
    {
        self.base_bpm
    }

    /// Sets the base tempo; the offset is unchanged.
    pub fn set_base_bpm(&mut self, bpm: i64)
        ensures
            final(self)@.base_bpm == bpm,
            final(self)@.temporary_offset == old(self)@.temporary_offset,
    {
        self.base_bpm = bpm;
    }

    pub fn temporary_offset(&self) -> (o: i64)
        ensures
            o == self@.temporary_offset,
    {
        self.temporary_offset
    }

    /// Sets the offset; the base tempo is unchanged.
    pub fn set_temporary_offset(&mut self, offset: i64)
        ensures
            final(self)@.temporary_offset == offset,
            final(self)@.base_bpm == old(self)@.base_bpm,
    {
        self.temporary_offset = offset;
    }

    /// Base tempo plus offset.
    pub fn effective_bpm(&self) -> (e: i64)
        requires
            i64::MIN <= spec_effective_bpm(self@) <= i64::MAX,
        ensures
            e == spec_effective_bpm(self@),
    {
        self.base_bpm + self.temporary_offset
    }
}

/// Nanoseconds between two clock pulses at `bpm` milli-BPM: one minute divided by
/// `bpm` beats of `PULSES_PER_QUARTER_NOTE` pulses.
pub open spec fn spec_pulse_interval(bpm: int) -> int {
    NANOS_PER_MINUTE_MILLI as int / (PULSES_PER_QUARTER_NOTE as int * bpm)
}

/// Nanoseconds between two clock pulses at `bpm` milli-BPM (rounded down).
pub fn pulse_interval(bpm: i64) -> (nanos: u64)
    requires
        bpm > 0,
    ensures
        nanos == spec_pulse_interval(bpm as int),
{
    proof {
        assert(NANOS_PER_MINUTE_MILLI as int == 2_500_000_000_000int * PULSES_PER_QUARTER_NOTE as int);
        vstd::arithmetic::div_mod::lemma_div_denominator(2_500_000_000_000int * 24, 24, bpm as int);
        vstd::arithmetic::div_mod::lemma_div_multiples_vanish_fancy(2_500_000_000_000int, 0, 24);
        assert((2_500_000_000_000int * 24) / 24 == 2_500_000_000_000int);
    }
    2_500_000_000_000u64 / (bpm as u64)
}

/// The beat timestamps after a clock beat at `now`: the oldest is dropped when
/// `BEAT_TIMESTAMP_CAPACITY` are kept.
pub open spec fn beats_after(beats: Seq<u64>, now: u64) -> Seq<u64> {
    if beats.len() >= BEAT_TIMESTAMP_CAPACITY {
        beats.drop_first().push(now)
    } else {
        beats.push(now)
    }
}

/// No more than `BEAT_TIMESTAMP_CAPACITY` beat timestamps are kept, and the newest is
/// the beat just recorded.
pub proof fn lemma_beats_after_bounded(beats: Seq<u64>, now: u64)
    requires
        beats.len() <= BEAT_TIMESTAMP_CAPACITY,
    ensures
        beats_after(beats, now).len() <= BEAT_TIMESTAMP_CAPACITY,
        beats_after(beats, now).len() >= 1,
        beats_after(beats, now).last() == now,
{
}

/// A faster tempo never gives a longer pulse interval.
pub proof fn lemma_pulse_interval_monotone(slow: int, fast: int)
    requires
        0 < slow <= fast,
    ensures
        spec_pulse_interval(fast) <= spec_pulse_interval(slow),
{
    let p = PULSES_PER_QUARTER_NOTE as int;
    assert(p * slow <= p * fast) by (nonlinear_arith)
        requires 0 < slow <= fast, p == 24;
    assert(0 < p * slow) by (nonlinear_arith)
        requires 0 < slow, p == 24;
    vstd::arithmetic::div_mod::lemma_div_is_ordered_by_denominator(NANOS_PER_MINUTE_MILLI as int, p * slow, p * fast);
}

/// Beats come every `PULSES_PER_QUARTER_NOTE` pulses: pulse 0 starts a beat, and after
/// a beat the next `PULSES_PER_QUARTER_NOTE - 1` pulses do not while the one after them
/// does.
pub proof fn lemma_beat_every_quarter_note(c: u64)
    requires
        is_beat_pulse(c),
        c + PULSES_PER_QUARTER_NOTE <= u64::MAX,
    ensures
        is_beat_pulse(0),
        is_beat_pulse((c + PULSES_PER_QUARTER_NOTE) as u64),
        forall|p: u64| c < p < c + PULSES_PER_QUARTER_NOTE ==> !#[trigger] is_beat_pulse(p),
{
    assert forall|p: u64| c < p < c + PULSES_PER_QUARTER_NOTE implies !#[trigger] is_beat_pulse(p) by {
        let j = p - c;
        vstd::arithmetic::div_mod::lemma_fundamental_div_mod(c as int, 24);
        let q = c as int / 24;
        assert(c as int == 24 * q);
        assert(p as int == 24 * q + j);
        vstd::arithmetic::div_mod::lemma_mod_multiples_vanish(q, j, 24);
        vstd::arithmetic::div_mod::lemma_small_mod(j as nat, 24);
    }
    vstd::arithmetic::div_mod::lemma_fundamental_div_mod(c as int, 24);
    vstd::arithmetic::div_mod::lemma_mod_multiples_vanish(c as int / 24 + 1, 0, 24);
    assert((c + 24) as int == 24 * (c as int / 24 + 1) + 0);
}

/// Whether the pulse with this count starts a beat.
pub open spec fn is_beat_pulse(pulse_count: u64) -> bool {
    pulse_count % PULSES_PER_QUARTER_NOTE == 0
}

/// What the clock loop remembers between pulses.
pub struct ClockEngineView {
    /// Pulses since the last phase reset.
    pub pulse_count: u64,
    /// Timestamps of the most recent clock beats, oldest first.
    pub beats: Seq<u64>,
    /// Tapped tempo held by the phase-locked loop.
    pub tap_bpm: Option<i64>,
}

/// The decisions of the MIDI clock loop; the caller sleeps until each pulse, sends it,
/// and schedules the next one `pulse_interval(effective_bpm)` later.
pub struct ClockEngine {
    pulse_count: u64,
    beat_timestamps: VecDeque<u64>,
    pll: Pll,
}

impl View for ClockEngine {
    type V = ClockEngineView;

    closed spec fn view(&self) -> ClockEngineView {
        ClockEngineView {
            pulse_count: self.pulse_count,
            beats: self.beat_timestamps@,
            tap_bpm: self.pll@,
        }
    }
}

impl ClockEngine {
    /// No pulses, no beats, no tapped tempo.
    pub fn new() -> (e: Self)
        ensures
            e@.pulse_count == 0,
            e@.beats == Seq::<u64>::empty(),
            e@.tap_bpm is None,
    {
        ClockEngine { pulse_count: 0, beat_timestamps: VecDeque::new(), pll: Pll::new() }
    }

    /// Pulses since the last phase reset.
    pub fn pulse_count(&self) -> (n: u64)
        ensures
            n == self@.pulse_count,
    {
        self.pulse_count
    }

    /// Number of clock beat timestamps kept.
    pub fn beat_count(&self) -> (n: usize)
        ensures
            n == self@.beats.len(),
    {
        self.beat_timestamps.len()
    }

    /// A tapped tempo at `now`: the clock takes it as its base tempo without offset, the
    /// loop keeps it as tap constraint, the system starts locking, and the phase restarts
    /// with a beat at `now`.
    pub fn on_tap(&mut self, bpm: i64, now: u64, clock_state: &mut ClockState, system_state: &mut SharedState)
        ensures
            final(clock_state)@.base_bpm == bpm,
            final(clock_state)@.temporary_offset == 0,
            final(system_state)@ == SystemState::RateLocking,
            final(self)@.tap_bpm == Some(bpm),
            final(self)@.pulse_count == 0,
            final(self)@.beats == seq![now],
    {
        clock_state.set_base_bpm(bpm);
        clock_state.set_temporary_offset(0);
        self.pll.set_tap_bpm(bpm);
        system_state.set(SystemState::RateLocking);
        self.pulse_count = 0;
        self.beat_timestamps.clear();
        self.beat_timestamps.push_back(now);
        assert(self.beat_timestamps@ =~= seq![now]);
    }

    /// A clock pulse at `now` (the time source's reading). Every
    /// `PULSES_PER_QUARTER_NOTE`-th pulse is a beat: its time joins the beat timestamps
    /// and the phase-locked loop runs on them, judging the age of confirmed beats at
    /// `wall_now` (a reading of the real monotonic clock). The result tells whether to
    /// emit this pulse: true in every state but `Idle`.
    pub fn on_pulse(
        &mut self,
        now: u64,
        wall_now: u64,
        confirmed: &[ConfirmedBeat],
        system_state: &mut SharedState,
        clock_state: &mut ClockState,
    ) -> (gate_open: bool)
        requires
            old(self)@.pulse_count < u64::MAX,
        ensures
            final(self)@.pulse_count == old(self)@.pulse_count + 1,
            old(self)@.pulse_count % PULSES_PER_QUARTER_NOTE == 0 ==> final(self)@.beats.len() >= 1
                && final(self)@.beats.last() == now,
            old(self)@.pulse_count % PULSES_PER_QUARTER_NOTE != 0 ==> final(self)@.beats == old(self)@.beats,
            is_beat_pulse(old(self)@.pulse_count) ==> ({
                let beats = beats_after(old(self)@.beats, now);
                let out = pll_step(
                    old(self)@.tap_bpm,
                    old(system_state)@,
                    old(clock_state)@,
                    spec_detected_bpm(confirmed@, wall_now),
                    spec_pll_comparison(beats, confirmed@),
                );
                &&& final(self)@.beats == beats
                &&& final(self)@.tap_bpm == out.tap_bpm
                &&& final(system_state)@ == out.state
                &&& final(clock_state)@.base_bpm == out.base_bpm
                &&& final(clock_state)@.temporary_offset == out.temporary_offset
            }),
            !is_beat_pulse(old(self)@.pulse_count) ==> {
                &&& final(self)@.beats == old(self)@.beats
                &&& final(self)@.tap_bpm == old(self)@.tap_bpm
                &&& final(system_state)@ == old(system_state)@
                &&& final(clock_state)@ == old(clock_state)@
            },
            gate_open == (final(system_state)@ != SystemState::Idle),
    {
        let is_beat = self.pulse_count % PULSES_PER_QUARTER_NOTE == 0;
        if is_beat {
            let ghost b0 = self.beat_timestamps@;
            if self.beat_timestamps.len() >= BEAT_TIMESTAMP_CAPACITY {
                self.beat_timestamps.pop_front();
            }
            self.beat_timestamps.push_back(now);
            assert(self.beat_timestamps@ =~= beats_after(b0, now));

            let mut snapshot: Vec<u64> = Vec::new();
            let mut k: usize = 0;
            while k < self.beat_timestamps.len()
                invariant
                    k <= self.beat_timestamps@.len(),
                    snapshot@ == self.beat_timestamps@.take(k as int),
                decreases self.beat_timestamps.len() - k,
            {
                snapshot.push(self.beat_timestamps[k]);
                k += 1;
                assert(snapshot@ =~= self.beat_timestamps@.take(k as int));
            }
            assert(snapshot@ =~= self.beat_timestamps@);
            self.pll.update(wall_now, snapshot.as_slice(), confirmed, system_state, clock_state);
        }
        let gate_open = system_state.midi_active();
        self.pulse_count = self.pulse_count + 1;
        gate_open
    }
}

} // verus!
