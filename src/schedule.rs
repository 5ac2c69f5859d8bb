//! Frequency selection for one CPU cluster: a strictly ascending frequency
//! table, a position in it that follows the comparison of the measured diff
//! with the target diff, burst ramp-up, position smoothing, touch and slide
//! boosts, and the configured ceiling percentage.
use vstd::prelude::*;

use crate::cycles::Cycles;
use crate::parse::{lemma_numbers_bounded, numbers_of, parse_list};
use vstd::string::StringSliceAdditionalSpecFns;

verus! {

/// Burst after a step that was not a headroom step.
pub const BURST_DEFAULT: usize = 0;

/// Largest burst: the most positions one headroom step can climb.
pub const BURST_MAX: usize = 2;

/// Largest kilohertz value whose hertz value fits an `i64`.
pub const MAX_KHZ: u64 = 9_223_372_036_854_775;

/// What the touch input reports: a slide in progress, a tap in progress.
#[derive(Clone, Copy, Debug, PartialEq, Eq, Structural)]
pub struct TouchStatus {
    pub slide: bool,
    pub touch: bool,
}

/// Settings read from configuration for each write.
#[derive(Clone, Copy, Debug, PartialEq, Eq, Structural)]
pub struct WriteConfig {
    /// Positions added while a tap is active.
    pub touch_boost: usize,
    /// Positions added while a slide is active or recent.
    pub slide_boost: usize,
    /// How long after a slide its boost lasts, in milliseconds.
    pub slide_timer_ms: u64,
    /// Highest share of the table that may be selected, 0 to 100.
    pub max_freq_per: u8,
}

/// The mathematical state of a cluster's schedule.
pub struct ScheduleState {
    pub table: Seq<Cycles>,
    pub pos: int,
    pub burst: int,
    /// The two samples in the position smoothing window, older first.
    pub prev: int,
    pub last: int,
    /// The frequency most recently selected: the ceiling for the next sample.
    pub cur: int,
    /// When a slide boost was last granted or refreshed, in milliseconds.
    pub touch_timer: int,
}

pub open spec fn strictly_ascending(t: Seq<Cycles>) -> bool {
    forall|i: int, j: int| 0 <= i < j < t.len() ==> t[i].hz < t[j].hz
}

pub open spec fn min_int(a: int, b: int) -> int {
    if a < b {
        a
    } else {
        b
    }
}

impl ScheduleState {
    pub open spec fn wf(self) -> bool {
        &&& self.table.len() >= 1
        &&& strictly_ascending(self.table)
        &&& self.table[0].hz >= 0
        &&& 0 <= self.pos < self.table.len()
        &&& 0 <= self.burst <= BURST_MAX
        &&& 0 <= self.prev < self.table.len()
        &&& 0 <= self.last < self.table.len()
        &&& self.cur >= 0
        &&& self.touch_timer >= 0
    }
}

/// One comparison step on `(position, burst)` for a table of `len` entries.
pub open spec fn step(pos: int, burst: int, len: int, target: int, diff: int) -> (int, int) {
    if target < diff {
        (if pos > 0 { pos - 1 } else { 0 }, BURST_DEFAULT as int)
    } else if target > diff {
        (min_int(pos + burst, len - 1), min_int(BURST_MAX as int, burst + 1))
    } else {
        (pos, BURST_DEFAULT as int)
    }
}

/// Mean of the two-sample window, rounded half up, kept inside the table.
pub open spec fn smoothed(prev: int, last: int, len: int) -> int {
    min_int((prev + last + 1) / 2, len - 1)
}

/// Highest index allowed by a ceiling percentage:
/// `round(percentage / 100 * (len - 1))`, halves rounded up.
pub open spec fn max_pos(len: int, per: int) -> int {
    min_int(((len - 1) * per + 50) / 100, len - 1)
}

pub open spec fn elapsed(now: int, since: int) -> int {
    if now >= since {
        now - since
    } else {
        0
    }
}

/// A slide boost applies: a slide is in progress, or the last one is
/// within the slide timer.
pub open spec fn slide_active(touch: Option<TouchStatus>, now: int, timer: int, cfg: WriteConfig) -> bool {
    match touch {
        Some(t) => t.slide || elapsed(now, timer) <= cfg.slide_timer_ms,
        None => false,
    }
}

pub open spec fn boosted(ori: int, touch: Option<TouchStatus>, slide: bool, cfg: WriteConfig) -> int {
    if slide {
        ori + cfg.slide_boost
    } else if touch matches Some(t) && t.touch {
        ori + cfg.touch_boost
    } else {
        ori
    }
}

/// The index that a write selects from state `s`.
pub open spec fn write_index(s: ScheduleState, now: int, touch: Option<TouchStatus>, cfg: WriteConfig) -> int {
    let len = s.table.len() as int;
    let ori = smoothed(s.prev, s.last, len);
    let slide = slide_active(touch, now, s.touch_timer, cfg);
    min_int(boosted(ori, touch, slide, cfg), max_pos(len, cfg.max_freq_per as int))
}

/// The state after a write.
pub open spec fn written(s: ScheduleState, now: int, touch: Option<TouchStatus>, cfg: WriteConfig) -> ScheduleState {
    ScheduleState {
        cur: s.table[write_index(s, now, touch, cfg)].hz as int,
        touch_timer: if slide_active(touch, now, s.touch_timer, cfg) {
            now
        } else {
            s.touch_timer
        },
        ..s
    }
}

/// The state after one comparison step and the smoothing sample it feeds.
pub open spec fn stepped(s: ScheduleState, target: int, diff: int) -> ScheduleState {
    let (p, b) = step(s.pos, s.burst, s.table.len() as int, target, diff);
    ScheduleState { pos: p, burst: b, prev: s.last, last: p, ..s }
}

/// The state after a reset, before its write.
pub open spec fn restarted(s: ScheduleState) -> ScheduleState {
    let top = s.table.len() - 1;
    ScheduleState { pos: top, burst: BURST_DEFAULT as int, prev: top, last: top, ..s }
}

pub open spec fn khz_in(khz: Seq<u64>, hz: int) -> bool {
    exists|b: int| 0 <= b < khz.len() && khz[b] * 1000 == hz
}

pub open spec fn khz_listed(ns: Seq<int>, hz: int) -> bool {
    exists|b: int| 0 <= b < ns.len() && ns[b] * 1000 == hz
}

pub open spec fn hz_in(t: Seq<Cycles>, hz: int) -> bool {
    exists|a: int| 0 <= a < t.len() && t[a].hz == hz
}

/// The frequency table built from hardware-reported kilohertz values, in
/// any order and with repeats: strictly ascending, in hertz, holding
/// exactly the values reported.
pub fn build_table(khz: &Vec<u64>) -> (t: Vec<Cycles>)
    requires
        forall|b: int| 0 <= b < khz.len() ==> #[trigger] khz[b] <= MAX_KHZ,
    ensures
        strictly_ascending(t@),
        forall|hz: int| hz_in(t@, hz) <==> khz_in(khz@, hz),
{
    let mut t: Vec<Cycles> = Vec::new();
    let mut j: usize = 0;
    while j < khz.len()
        invariant
            j <= khz.len(),
            forall|b: int| 0 <= b < khz.len() ==> #[trigger] khz[b] <= MAX_KHZ,
            strictly_ascending(t@),
            forall|hz: int| hz_in(t@, hz) <==> khz_in(khz@.subrange(0, j as int), hz),
        decreases khz.len() - j,
    {
        let hz: i64 = (khz[j] as i64) * 1000;
        let mut idx: usize = 0;
        while idx < t.len() && t[idx].hz < hz
            invariant
                idx <= t.len(),
                forall|a: int| 0 <= a < idx ==> t[a].hz < hz,
                j < khz.len(),
                hz == khz[j as int] * 1000,
                forall|b: int| 0 <= b < khz.len() ==> #[trigger] khz[b] <= MAX_KHZ,
                strictly_ascending(t@),
                forall|h: int| hz_in(t@, h) <==> khz_in(khz@.subrange(0, j as int), h),
            decreases t.len() - idx,
        {
            idx = idx + 1;
        }
        let ghost old_t = t@;
        let ghost prefix = khz@.subrange(0, j as int);
        let ghost next = khz@.subrange(0, j as int + 1);
        assert forall|h: int| khz_in(next, h) <==> (khz_in(prefix, h) || h == hz) by {
            if khz_in(next, h) {
                let b = choose|b: int| 0 <= b < next.len() && next[b] * 1000 == h;
                if b < j {
                    assert(prefix[b] == next[b]);
                }
            }
            if khz_in(prefix, h) {
                let b = choose|b: int| 0 <= b < prefix.len() && prefix[b] * 1000 == h;
                assert(next[b] == prefix[b]);
            }
            if h == hz {
                assert(next[j as int] * 1000 == h);
            }
        }
        if idx < t.len() && t[idx].hz == hz {
            assert(hz_in(t@, hz as int));
            assert forall|h: int| hz_in(t@, h) <==> (khz_in(prefix, h) || h == hz) by {
                if h == hz {
                    assert(hz_in(old_t, h));
                }
            }
        } else {
            t.insert(idx, Cycles { hz });
            assert forall|a: int| 0 <= a < t@.len() implies #[trigger] t@[a] == (if a < idx {
                old_t[a]
            } else if a == idx {
                Cycles { hz }
            } else {
                old_t[a - 1]
            }) by {}
            assert forall|h: int| hz_in(t@, h) <==> (hz_in(old_t, h) || h == hz) by {
                if hz_in(t@, h) {
                    let a = choose|a: int| 0 <= a < t@.len() && t@[a].hz == h;
                    if a < idx {
                        assert(old_t[a].hz == h);
                    } else if a > idx {
                        assert(old_t[a - 1].hz == h);
                    }
                }
                if hz_in(old_t, h) {
                    let a = choose|a: int| 0 <= a < old_t.len() && old_t[a].hz == h;
                    if a < idx {
                        assert(t@[a].hz == h);
                    } else {
                        assert(t@[a + 1].hz == h);
                    }
                }
                if h == hz {
                    assert(t@[idx as int].hz == h);
                }
            }
            assert forall|h: int| hz_in(t@, h) <==> (khz_in(prefix, h) || h == hz) by {
                if hz_in(old_t, h) {
                    assert(khz_in(prefix, h));
                }
                if khz_in(prefix, h) {
                    assert(hz_in(old_t, h));
                }
            }
        }
        assert forall|h: int| hz_in(t@, h) <==> khz_in(next, h) by {
            assert(hz_in(t@, h) <==> (khz_in(prefix, h) || h == hz));
            assert(khz_in(next, h) <==> (khz_in(prefix, h) || h == hz));
        }
        j = j + 1;
        assert(next =~= khz@.subrange(0, j as int));
    }
    assert(khz@.subrange(0, khz.len() as int) =~= khz@);
    t
}

/// `(position, burst)` after a sequence of `(target, diff)` comparisons.
pub open spec fn steps(pos: int, burst: int, len: int, events: Seq<(int, int)>) -> (int, int)
    decreases events.len(),
{
    if events.len() == 0 {
        (pos, burst)
    } else {
        let (p, b) = steps(pos, burst, len, events.drop_last());
        step(p, b, len, events.last().0, events.last().1)
    }
}

/// Whatever the comparisons, the position stays inside the table and the
/// burst within `[0, BURST_MAX]`.
pub proof fn lemma_steps_stay_in_bounds(pos: int, burst: int, len: int, events: Seq<(int, int)>)
    requires
        0 <= pos < len,
        0 <= burst <= BURST_MAX,
    ensures
        0 <= steps(pos, burst, len, events).0 < len,
        0 <= steps(pos, burst, len, events).1 <= BURST_MAX,
    decreases events.len(),
{
    if events.len() > 0 {
        lemma_steps_stay_in_bounds(pos, burst, len, events.drop_last());
    }
}

/// Starting from the default burst, the burst reaches `BURST_MAX` only once
/// the last two comparisons both found headroom (target above diff).
pub proof fn lemma_burst_max_needs_two_climbs(pos: int, len: int, events: Seq<(int, int)>)
    requires
        0 <= pos < len,
    ensures
        steps(pos, BURST_DEFAULT as int, len, events).1 == BURST_MAX ==> {
            &&& events.len() >= 2
            &&& events[events.len() - 1].0 > events[events.len() - 1].1
            &&& events[events.len() - 2].0 > events[events.len() - 2].1
        },
    decreases events.len(),
{
    if events.len() > 0 {
        let prior = events.drop_last();
        lemma_steps_stay_in_bounds(pos, BURST_DEFAULT as int, len, prior);
        lemma_burst_max_needs_two_climbs(pos, len, prior);
        if prior.len() > 0 {
            let pp = prior.drop_last();
            lemma_steps_stay_in_bounds(pos, BURST_DEFAULT as int, len, pp);
            assert(prior.last() == events[events.len() - 2]);
        }
    }
}

pub struct Schedule {
    table: Vec<Cycles>,
    pos: usize,
    burst: usize,
    prev: usize,
    last: usize,
    cur_cycles: Cycles,
    touch_timer_ms: u64,
}

impl View for Schedule {
    type V = ScheduleState;

    closed spec fn view(&self) -> ScheduleState {
        ScheduleState {
            table: self.table@,
            pos: self.pos as int,
            burst: self.burst as int,
            prev: self.prev as int,
            last: self.last as int,
            cur: self.cur_cycles.hz as int,
            touch_timer: self.touch_timer_ms as int,
        }
    }
}

impl Schedule {
    pub open spec fn wf(&self) -> bool {
        self@.wf()
    }

    /// Builds a cluster's schedule from the frequencies it reports, in
    /// kilohertz and in any order, at time `now_ms`. The position starts at
    /// the top of the table.
    pub fn new(freqs_khz: &Vec<u64>, now_ms: u64) -> (r: Schedule)
        requires
            freqs_khz.len() >= 1,
            forall|b: int| 0 <= b < freqs_khz.len() ==> #[trigger] freqs_khz[b] <= MAX_KHZ,
        ensures
            r.wf(),
            strictly_ascending(r@.table),
            forall|hz: int| hz_in(r@.table, hz) <==> khz_in(freqs_khz@, hz),
            r@.pos == r@.table.len() - 1,
            r@.burst == BURST_DEFAULT,
            r@.prev == r@.pos && r@.last == r@.pos,
            r@.cur == r@.table[r@.table.len() - 1].hz,
            r@.touch_timer == now_ms,
    {
        let table = build_table(freqs_khz);
        proof {
            assert(freqs_khz[0] >= 0);
            assert(khz_in(freqs_khz@, freqs_khz[0] * 1000));
            assert(hz_in(table@, freqs_khz[0] * 1000));
            let a = choose|a: int| 0 <= a < table@.len() && table@[a].hz == freqs_khz[0] * 1000;
            assert(table@[a].hz >= 0);
            assert(khz_in(freqs_khz@, table@[0].hz as int)) by {
                assert(hz_in(table@, table@[0].hz as int));
            }
            let b = choose|b: int| 0 <= b < freqs_khz.len() && freqs_khz[b] * 1000 == table@[0].hz;
            assert(freqs_khz[b] >= 0);
        }
        let top = table.len() - 1;
        let cur = table[top];
        Schedule {
            table,
            pos: top,
            burst: BURST_DEFAULT,
            prev: top,
            last: top,
            cur_cycles: cur,
            touch_timer_ms: now_ms,
        }
    }

    /// Builds a cluster's schedule from the text of its list of available
    /// frequencies (whitespace-separated kilohertz). Gives `None` when the
    /// text is not such a list, a value exceeds `MAX_KHZ`, or it is empty.
    pub fn from_frequencies(text: &str, now_ms: u64) -> (r: Option<Schedule>)
        ensures
            match numbers_of(text.spec_bytes(), MAX_KHZ as int) {
                Some(ns) => if ns.len() == 0 {
                    r is None
                } else {
                    r matches Some(sch) && sch.wf() && sch@.pos == sch@.table.len() - 1
                        && sch@.burst == BURST_DEFAULT && sch@.touch_timer == now_ms && forall|hz: int|
                        hz_in(sch@.table, hz) <==> khz_listed(ns, hz)
                },
                None => r is None,
            },
    {
        match parse_list(text, MAX_KHZ) {
            Some(khz) => {
                if khz.len() == 0 {
                    None
                } else {
                    let ghost ns = numbers_of(text.spec_bytes(), MAX_KHZ as int)->Some_0;
                    assert forall|b: int| 0 <= b < khz.len() implies #[trigger] khz[b] <= MAX_KHZ by {
                        assert(khz@[b] == ns[b]);
                        lemma_numbers_bounded(text.spec_bytes(), MAX_KHZ as int, b);
                    }
                    let sch = Schedule::new(&khz, now_ms);
                    assert forall|hz: int| khz_in(khz@, hz) <==> khz_listed(ns, hz) by {
                        if khz_in(khz@, hz) {
                            let b = choose|b: int| 0 <= b < khz@.len() && khz@[b] * 1000 == hz;
                            assert(ns[b] * 1000 == hz);
                        }
                        if khz_listed(ns, hz) {
                            let b = choose|b: int| 0 <= b < ns.len() && ns[b] * 1000 == hz;
                            assert(khz@[b] * 1000 == hz);
                        }
                    }
                    assert forall|hz: int| hz_in(sch@.table, hz) <==> khz_listed(ns, hz) by {
                        assert(hz_in(sch@.table, hz) <==> khz_in(khz@, hz));
                        assert(khz_in(khz@, hz) <==> khz_listed(ns, hz));
                    }
                    Some(sch)
                }
            },
            None => None,
        }
    }

    /// The frequency table, ascending.
    pub fn table(&self) -> (r: &Vec<Cycles>)
        ensures
            r@ == self@.table,
    {
        &self.table
    }

    pub fn pos(&self) -> (r: usize)
        ensures
            r == self@.pos,
    {
        self.pos
    }

    pub fn burst(&self) -> (r: usize)
        ensures
            r == self@.burst,
    {
        self.burst
    }

    /// The frequency most recently selected: the ceiling that the next
    /// sample is measured against.
    pub fn cur_cycles(&self) -> (r: Cycles)
        ensures
            r.hz == self@.cur,
    {
        self.cur_cycles
    }

    /// The smoothed position: the window's mean, halves rounded up, kept
    /// inside the table.
    pub fn smoothed_pos(&self) -> (r: usize)
        requires
            self.wf(),
        ensures
            r == smoothed(self@.prev, self@.last, self@.table.len() as int),
            r < self@.table.len(),
    {
        let m: u128 = (self.prev as u128 + self.last as u128 + 1) / 2;
        let top = self.table.len() - 1;
        if m < top as u128 {
            m as usize
        } else {
            top
        }
    }

    /// Clamps `pos` under the highest index that `max_freq_per` percent of
    /// the table allows.
    pub fn pos_clamp(&self, pos: usize, max_freq_per: u8) -> (r: usize)
        requires
            self.wf(),
            max_freq_per <= 100,
        ensures
            r == min_int(pos as int, max_pos(self@.table.len() as int, max_freq_per as int)),
            r <= max_pos(self@.table.len() as int, max_freq_per as int),
            max_freq_per == 100 ==> r == min_int(pos as int, self@.table.len() - 1),
    {
        let top = self.table.len() - 1;
        proof {
            assert((top as int) * (max_freq_per as int) <= (top as int) * 100) by (nonlinear_arith)
                requires
                    0 <= max_freq_per <= 100,
                    top >= 0,
            ;
            assert((top as int) * 100 + 50 <= u128::MAX);
        }
        let scaled: u128 = (top as u128) * (max_freq_per as u128) + 50;
        let m: u128 = scaled / 100;
        let max: usize = if m < top as u128 {
            m as usize
        } else {
            top
        };
        proof {
            if max_freq_per == 100 {
                assert(((top as int) * 100 + 50) / 100 == top);
            }
        }
        if pos < max {
            pos
        } else {
            max
        }
    }

    /// Selects the frequency for the current state at time `now_ms`: the
    /// smoothed position, raised by the slide boost while a slide is active
    /// or recent (which refreshes the slide timer), else by the touch boost
    /// during a tap, then clamped by the ceiling percentage. Returns the
    /// frequency, which is also the new ceiling.
    pub fn write(&mut self, now_ms: u64, touch: Option<TouchStatus>, cfg: WriteConfig) -> (r: Cycles)
        requires
            old(self).wf(),
            cfg.max_freq_per <= 100,
        ensures
            final(self).wf(),
            final(self)@ == written(old(self)@, now_ms as int, touch, cfg),
            r.hz == final(self)@.cur,
            r == old(self)@.table[write_index(old(self)@, now_ms as int, touch, cfg)],
    {
        let ghost s0 = self@;
        let ori = self.smoothed_pos();
        let elapsed_ms: u64 = if now_ms >= self.touch_timer_ms {
            now_ms - self.touch_timer_ms
        } else {
            0
        };
        let pos: usize = match touch {
            Some(t) => {
                if t.slide || elapsed_ms <= cfg.slide_timer_ms {
                    self.touch_timer_ms = now_ms;
                    ori.saturating_add(cfg.slide_boost)
                } else if t.touch {
                    ori.saturating_add(cfg.touch_boost)
                } else {
                    ori
                }
            },
            None => ori,
        };
        assert(elapsed_ms == elapsed(now_ms as int, s0.touch_timer));
        assert(slide_active(touch, now_ms as int, s0.touch_timer, cfg) ==> self.touch_timer_ms == now_ms);
        assert(!slide_active(touch, now_ms as int, s0.touch_timer, cfg) ==> self.touch_timer_ms == s0.touch_timer);
        let ghost b = boosted(ori as int, touch, slide_active(touch, now_ms as int, s0.touch_timer, cfg), cfg);
        assert(pos == b || (pos == usize::MAX && b > usize::MAX));
        assert(self@.table == s0.table);
        assert(ori == smoothed(s0.prev, s0.last, s0.table.len() as int));
        assert(self.table.len() <= usize::MAX);
        let pos = self.pos_clamp(pos, cfg.max_freq_per);
        assert(pos == write_index(s0, now_ms as int, touch, cfg));
        let freq = self.table[pos];
        proof {
            let k = pos as int;
            if k > 0 {
                assert(self.table@[0].hz < self.table@[k].hz);
            }
        }
        self.cur_cycles = freq;
        freq
    }

    /// Puts the position back at the top of the table with a default burst
    /// and a fresh smoothing window, then writes.
    pub fn reset(&mut self, now_ms: u64, touch: Option<TouchStatus>, cfg: WriteConfig) -> (r: Cycles)
        requires
            old(self).wf(),
            cfg.max_freq_per <= 100,
        ensures
            final(self).wf(),
            final(self)@ == written(restarted(old(self)@), now_ms as int, touch, cfg),
            r.hz == final(self)@.cur,
    {
        let top = self.table.len() - 1;
        self.burst = BURST_DEFAULT;
        self.pos = top;
        self.prev = top;
        self.last = top;
        self.write(now_ms, touch, cfg)
    }

    /// One scheduling round for a measured `diff` against the externally
    /// computed `target_diff`. A negative diff changes nothing. Otherwise the
    /// target is capped at the current ceiling; a target below the diff
    /// steps down one position, a target above climbs by the burst (which
    /// then grows, up to its maximum), an equal one holds; any step but a
    /// climb resets the burst. The new position enters the smoothing window
    /// and a write follows, whose frequency is returned.
    pub fn run(
        &mut self,
        diff: Cycles,
        target_diff: Cycles,
        now_ms: u64,
        touch: Option<TouchStatus>,
        cfg: WriteConfig,
    ) -> (r: Option<Cycles>)
        requires
            old(self).wf(),
            diff.hz >= 0 ==> cfg.max_freq_per <= 100,
            diff.hz >= 0 ==> target_diff.hz >= 0,
        ensures
            final(self).wf(),
            diff.hz < 0 ==> r is None && final(self)@ == old(self)@,
            diff.hz >= 0 ==> {
                let target = min_int(target_diff.hz as int, old(self)@.cur);
                let mid = stepped(old(self)@, target, diff.hz as int);
                &&& final(self)@ == written(mid, now_ms as int, touch, cfg)
                &&& r == Some(mid.table[write_index(mid, now_ms as int, touch, cfg)])
            },
    {
        if diff.hz < 0 {
            return None;
        }
        let target: i64 = if target_diff.hz < self.cur_cycles.hz {
            target_diff.hz
        } else {
            self.cur_cycles.hz
        };
        let top = self.table.len() - 1;
        if target < diff.hz {
            self.pos = if self.pos > 0 {
                self.pos - 1
            } else {
                0
            };
            self.burst = BURST_DEFAULT;
        } else if target > diff.hz {
            self.pos = if self.burst < top - self.pos {
                self.pos + self.burst
            } else {
                top
            };
            self.burst = if self.burst + 1 < BURST_MAX {
                self.burst + 1
            } else {
                BURST_MAX
            };
        } else {
            self.burst = BURST_DEFAULT;
        }
        self.prev = self.last;
        self.last = self.pos;
        Some(self.write(now_ms, touch, cfg))
    }
}

} // verus!
