use crate::waveform::{samples_wf, Logic, Sample, Signal, Waveform};
use vstd::prelude::*;

verus! {

/// Activity of one bit of a signal over one time window: the time spent at each symbol and
/// the classified transition counts.
#[derive(Debug, Clone, Copy, PartialEq, Eq, Structural)]
pub struct SignalStats {
    pub trans_count_doubled: u64,
    pub clean_trans_count: u64,
    pub glitch_trans_count: u64,
    pub high_time: u64,
    pub low_time: u64,
    pub x_time: u64,
    pub z_time: u64,
}

/// The statistics of one signal over one window.
#[derive(Debug, PartialEq, Eq)]
pub enum PackedStats {
    /// A signal of width 1.
    OneBit(SignalStats),
    /// Any other signal: one entry per bit, the last bit of a sample first.
    Vector(Vec<SignalStats>),
}

/// The three transition counters.
pub enum Counter {
    Clean,
    Glitch,
    Doubled,
}

/// By how much the change of a bit from `prev` to `cur` raises `counter`.
///
/// A change between 0 and 1 is one clean transition and counts twice in the doubled count.
/// A change into or out of X is one glitch and counts once. A change into or out of Z counts
/// once, and is a clean transition where the other symbol is 0.
pub open spec fn edge_weight(counter: Counter, prev: Logic, cur: Logic) -> int {
    if prev == cur {
        0
    } else if prev == Logic::X || cur == Logic::X {
        match counter {
            Counter::Clean => 0,
            Counter::Glitch => 1,
            Counter::Doubled => 1,
        }
    } else if prev == Logic::Z || cur == Logic::Z {
        match counter {
            Counter::Clean => if prev == Logic::Zero || cur == Logic::Zero {
                1
            } else {
                0
            },
            Counter::Glitch => 0,
            Counter::Doubled => 1,
        }
    } else {
        match counter {
            Counter::Clean => 1,
            Counter::Glitch => 0,
            Counter::Doubled => 2,
        }
    }
}

/// Whether a sample taken at `t` changes the signal inside the window that starts at `start`
/// and ends before `end`. The sample at `start` itself is what is in effect there, and one at
/// `end` is outside the window.
pub open spec fn in_window(t: int, start: int, end: int) -> bool {
    start < t < end
}

/// For how long sample `j` is in effect between `start` and `end`. The first sample is in
/// effect from the beginning of time, the last one for ever.
pub open spec fn dwell(s: Seq<Sample>, j: int, start: int, end: int) -> int {
    let lo = if j == 0 || s[j].time <= start {
        start
    } else {
        s[j].time as int
    };
    let hi = if j + 1 == s.len() || s[j + 1].time >= end {
        end
    } else {
        s[j + 1].time as int
    };
    if lo < hi {
        hi - lo
    } else {
        0
    }
}

/// The time between `start` and `end` during which bit `bit` holds `sym`, counting only the
/// first `upto` samples.
pub open spec fn time_in_state(
    s: Seq<Sample>,
    bit: int,
    sym: Logic,
    start: int,
    end: int,
    upto: int,
) -> int
    decreases upto,
{
    if upto <= 0 {
        0
    } else {
        time_in_state(s, bit, sym, start, end, upto - 1) + if s[upto - 1].bits[bit] == sym {
            dwell(s, upto - 1, start, end)
        } else {
            0
        }
    }
}

/// The value of `counter` for bit `bit` over the window from `start` up to `end`, counting
/// only the changes at the first `upto` samples. A change counts if it comes after `start`
/// and before `end`.
pub open spec fn transitions(
    s: Seq<Sample>,
    bit: int,
    counter: Counter,
    start: int,
    end: int,
    upto: int,
) -> int
    decreases upto,
{
    if upto <= 1 {
        0
    } else {
        transitions(s, bit, counter, start, end, upto - 1) + if in_window(
            s[upto - 1].time as int,
            start,
            end,
        ) {
            edge_weight(counter, s[upto - 2].bits[bit], s[upto - 1].bits[bit])
        } else {
            0
        }
    }
}

/// The mathematical content of a `SignalStats`.
pub struct Activity {
    pub trans_count_doubled: int,
    pub clean_trans_count: int,
    pub glitch_trans_count: int,
    pub high_time: int,
    pub low_time: int,
    pub x_time: int,
    pub z_time: int,
}

impl Activity {
    /// No time and no transitions.
    pub open spec fn zero() -> Activity {
        Activity {
            trans_count_doubled: 0,
            clean_trans_count: 0,
            glitch_trans_count: 0,
            high_time: 0,
            low_time: 0,
            x_time: 0,
            z_time: 0,
        }
    }

    /// Whether the counters look like glitch activity: two or more clean transitions, two or
    /// more glitches, or a doubled count above two.
    pub open spec fn is_glitch(self) -> bool {
        self.clean_trans_count >= 2 || self.glitch_trans_count >= 2 || self.trans_count_doubled
            > 2
    }

    /// The time accounted to `sym`.
    pub open spec fn time_of(self, sym: Logic) -> int {
        match sym {
            Logic::One => self.high_time,
            Logic::Zero => self.low_time,
            Logic::X => self.x_time,
            Logic::Z => self.z_time,
        }
    }

    /// The same activity with `elapsed` more time accounted to `sym`.
    pub open spec fn with_time(self, sym: Logic, elapsed: int) -> Activity {
        match sym {
            Logic::One => Activity { high_time: self.high_time + elapsed, ..self },
            Logic::Zero => Activity { low_time: self.low_time + elapsed, ..self },
            Logic::X => Activity { x_time: self.x_time + elapsed, ..self },
            Logic::Z => Activity { z_time: self.z_time + elapsed, ..self },
        }
    }

    /// The time accounted to all four symbols together.
    pub open spec fn total_time(self) -> int {
        self.high_time + self.low_time + self.x_time + self.z_time
    }

    /// What is kept of the activity of a bit. In glitch-only mode the activity of the clock,
    /// and any that does not look like a glitch, is discarded.
    pub open spec fn filtered(self, glitches_only: bool, is_clock: bool) -> Activity {
        if glitches_only && (is_clock || !self.is_glitch()) {
            Activity::zero()
        } else {
            self
        }
    }
}

/// The activity of bit `bit` when only the changes at the first `edges` samples and the
/// time of the first `dwells` samples are counted.
pub open spec fn activity_upto(
    s: Seq<Sample>,
    bit: int,
    start: int,
    end: int,
    edges: int,
    dwells: int,
) -> Activity {
    Activity {
        trans_count_doubled: transitions(s, bit, Counter::Doubled, start, end, edges),
        clean_trans_count: transitions(s, bit, Counter::Clean, start, end, edges),
        glitch_trans_count: transitions(s, bit, Counter::Glitch, start, end, edges),
        high_time: time_in_state(s, bit, Logic::One, start, end, dwells),
        low_time: time_in_state(s, bit, Logic::Zero, start, end, dwells),
        x_time: time_in_state(s, bit, Logic::X, start, end, dwells),
        z_time: time_in_state(s, bit, Logic::Z, start, end, dwells),
    }
}

/// The activity of bit `bit` of the samples `s` over the window from `start` to `end`.
pub open spec fn bit_activity(s: Seq<Sample>, bit: int, start: int, end: int) -> Activity {
    activity_upto(s, bit, start, end, s.len() as int, s.len() as int)
}

/// The statistics of a signal over the window from `start` to `end`.
///
/// A real-valued signal and one without samples have none. A signal of width 1 has those of
/// its only bit. Any other signal has one entry per bit, the last bit of a sample first.
pub open spec fn signal_activity(
    signal: Signal,
    glitches_only: bool,
    is_clock: bool,
    start: int,
    end: int,
) -> PackedActivity {
    match signal {
        Signal::Real => PackedActivity::Vector(Seq::empty()),
        Signal::BitVector(samples) => {
            let s = samples@;
            if s.len() == 0 {
                PackedActivity::Vector(Seq::empty())
            } else {
                let width = s[0].bits.len() as int;
                if width == 1 {
                    PackedActivity::OneBit(
                        bit_activity(s, 0, start, end).filtered(glitches_only, is_clock),
                    )
                } else {
                    PackedActivity::Vector(
                        Seq::new(
                            width as nat,
                            |k: int|
                                bit_activity(s, width - 1 - k, start, end).filtered(
                                    glitches_only,
                                    is_clock,
                                ),
                        ),
                    )
                }
            }
        },
    }
}

impl View for SignalStats {
    type V = Activity;

    open spec fn view(&self) -> Activity {
        Activity {
            trans_count_doubled: self.trans_count_doubled as int,
            clean_trans_count: self.clean_trans_count as int,
            glitch_trans_count: self.glitch_trans_count as int,
            high_time: self.high_time as int,
            low_time: self.low_time as int,
            x_time: self.x_time as int,
            z_time: self.z_time as int,
        }
    }
}

/// The mathematical content of a `PackedStats`.
pub enum PackedActivity {
    OneBit(Activity),
    Vector(Seq<Activity>),
}

impl View for PackedStats {
    type V = PackedActivity;

    open spec fn view(&self) -> PackedActivity {
        match self {
            PackedStats::OneBit(stat) => PackedActivity::OneBit(stat@),
            PackedStats::Vector(stats) => PackedActivity::Vector(
                Seq::new(stats@.len(), |k: int| stats@[k]@),
            ),
        }
    }
}

impl Default for SignalStats {
    fn default() -> (stats: Self)
        ensures
            stats@ == Activity::zero(),
    {
        Self {
            trans_count_doubled: 0,
            clean_trans_count: 0,
            glitch_trans_count: 0,
            high_time: 0,
            low_time: 0,
            x_time: 0,
            z_time: 0,
        }
    }
}

impl SignalStats {
    /// Accounts `elapsed` more time to the symbol `val`.
    pub fn modify_time_stat_of_value(&mut self, val: Logic, elapsed: u64)
        requires
            old(self)@.time_of(val) + elapsed <= u64::MAX,
        ensures
            final(self)@ == old(self)@.with_time(val, elapsed as int),
    {
        match val {
            Logic::One => self.high_time = self.high_time + elapsed,
            Logic::Zero => self.low_time = self.low_time + elapsed,
            Logic::X => self.x_time = self.x_time + elapsed,
            Logic::Z => self.z_time = self.z_time + elapsed,
        }
    }

    /// Whether the counters look like glitch activity.
    pub fn is_glitch(&self) -> (glitch: bool)
        ensures
            glitch == self@.is_glitch(),
    {
        self.clean_trans_count >= 2 || self.glitch_trans_count >= 2 || self.trans_count_doubled > 2
    }

    /// Discards everything.
    pub fn clear(&mut self)
        ensures
            final(self)@ == Activity::zero(),
    {
        self.trans_count_doubled = 0;
        self.clean_trans_count = 0;
        self.glitch_trans_count = 0;
        self.high_time = 0;
        self.low_time = 0;
        self.x_time = 0;
        self.z_time = 0;
    }
}


/// Samples that come at the end of the window or after it add nothing to the activity of a
/// bit.
proof fn lemma_later_samples_idle(
    s: Seq<Sample>,
    bit: int,
    start: int,
    end: int,
    from: int,
    upto: int,
)
    requires
        samples_wf(s),
        1 <= from <= upto <= s.len(),
        start <= end,
        from < s.len() ==> s[from].time >= end,
    ensures
        activity_upto(s, bit, start, end, upto, upto) == activity_upto(
            s,
            bit,
            start,
            end,
            from,
            from,
        ),
    decreases upto - from,
{
    if from < upto {
        lemma_later_samples_idle(s, bit, start, end, from, upto - 1);
        let j = upto - 1;
        assert(s[from].time <= s[j].time) by {
            if from < j {
                assert(s[from].time < s[j].time);
            }
        }
        assert(dwell(s, j, start, end) == 0) by {
            if j + 1 < s.len() {
                assert(s[j].time < s[j + 1].time);
            }
        }
        assert(!in_window(s[j].time as int, start, end));
    }
}

/// Accumulates the activity of every bit of `samples` over the window from
/// `first_time_stamp` to `last_time_stamp`: entry `b` of the result belongs to bit `b` of a
/// sample.
fn accumulate(samples: &Vec<Sample>, first_time_stamp: u64, last_time_stamp: u64) -> (ss: Vec<
    SignalStats,
>)
    requires
        samples_wf(samples@),
        samples.len() > 0,
        first_time_stamp <= last_time_stamp,
        last_time_stamp - first_time_stamp <= i64::MAX,
    ensures
        ss.len() == samples[0].bits.len(),
        forall|b: int|
            0 <= b < ss.len() ==> (#[trigger] ss[b])@ == bit_activity(
                samples@,
                b,
                first_time_stamp as int,
                last_time_stamp as int,
            ),
{
    let ghost s = samples@;
    let ghost start = first_time_stamp as int;
    let ghost end = last_time_stamp as int;
    let n = samples.len();
    let width = samples[0].bits.len();

    let mut ss: Vec<SignalStats> = Vec::with_capacity(width);
    while ss.len() < width
        invariant
            ss.len() <= width,
            forall|b: int| 0 <= b < ss.len() ==> (#[trigger] ss[b])@ == Activity::zero(),
        decreases width - ss.len(),
    {
        ss.push(SignalStats::default());
    }

    // Skip what was sampled up to the start of the window: the last of it is in effect there.
    let mut idx: usize = 1;
    while idx < n && samples[idx].time <= first_time_stamp
        invariant
            1 <= idx <= n,
            n == samples.len(),
            s == samples@,
            samples_wf(s),
            forall|j: int| 1 <= j < idx ==> (#[trigger] s[j]).time <= first_time_stamp,
        decreases n - idx,
    {
        idx += 1;
    }

    proof {
        assert forall|b: int| 0 <= b < width implies (#[trigger] ss[b])@ == activity_upto(
            s,
            b,
            start,
            end,
            idx as int,
            idx - 1,
        ) by {
            lemma_early_samples_idle(s, b, start, end, idx as int);
        }
        if idx < n {
            assert(s[idx as int].time > first_time_stamp);
        }
    }

    let mut prev_ts = first_time_stamp;
    while idx < n && samples[idx].time < last_time_stamp
        invariant
            1 <= idx <= n,
            n == samples.len(),
            s == samples@,
            start == first_time_stamp,
            end == last_time_stamp,
            samples_wf(s),
            width == s[0].bits.len(),
            ss.len() == width,
            start <= prev_ts <= end,
            end - start <= i64::MAX,
            prev_ts == (if idx == 1 || s[idx - 1].time <= start {
                start
            } else {
                s[idx - 1].time as int
            }),
            idx < n ==> s[idx as int].time > prev_ts,
            forall|b: int|
                0 <= b < width ==> (#[trigger] ss[b])@ == activity_upto(
                    s,
                    b,
                    start,
                    end,
                    idx as int,
                    idx - 1,
                ),
            forall|b: int| 0 <= b < width ==> within_budget((#[trigger] ss[b])@, prev_ts - start),
        decreases n - idx,
    {
        let ts = samples[idx].time;
        let elapsed = ts - prev_ts;
        proof {
            assert(s[idx as int].bits.len() == width);
            assert(s[idx - 1].bits.len() == width);
            assert(dwell(s, idx - 1, start, end) == elapsed);
            assert(in_window(ts as int, start, end));
        }
        let mut i: usize = 0;
        while i < width
            invariant
                0 <= i <= width,
                1 <= idx < n,
                n == samples.len(),
                s == samples@,
                ss.len() == width,
                s[idx as int].bits.len() == width,
                s[idx - 1].bits.len() == width,
                ts == s[idx as int].time,
                in_window(ts as int, start, end),
                elapsed == ts - prev_ts,
                elapsed >= 1,
                start <= prev_ts,
                ts < end,
                end - start <= i64::MAX,
                dwell(s, idx - 1, start, end) == elapsed,
                forall|b: int|
                    i <= b < width ==> (#[trigger] ss[b])@ == activity_upto(
                        s,
                        b,
                        start,
                        end,
                        idx as int,
                        idx - 1,
                    ),
                forall|b: int|
                    i <= b < width ==> within_budget((#[trigger] ss[b])@, prev_ts - start),
                forall|b: int|
                    0 <= b < i ==> (#[trigger] ss[b])@ == activity_upto(
                        s,
                        b,
                        start,
                        end,
                        idx + 1,
                        idx as int,
                    ),
                forall|b: int| 0 <= b < i ==> within_budget((#[trigger] ss[b])@, ts - start),
            decreases width - i,
        {
            let prev_c = samples[idx - 1].bits[i];
            let c = samples[idx].bits[i];
            let mut stat = ss[i];
            proof {
                assert(within_budget(stat@, prev_ts - start));
                assert(stat@ == activity_upto(s, i as int, start, end, idx as int, idx - 1));
            }
            if prev_c != c {
                if prev_c == Logic::X || c == Logic::X {
                    stat.trans_count_doubled = stat.trans_count_doubled + 1;
                    stat.glitch_trans_count = stat.glitch_trans_count + 1;
                } else if prev_c == Logic::Z || c == Logic::Z {
                    stat.trans_count_doubled = stat.trans_count_doubled + 1;
                    if prev_c == Logic::Zero || c == Logic::Zero {
                        stat.clean_trans_count = stat.clean_trans_count + 1;
                    }
                } else {
                    stat.clean_trans_count = stat.clean_trans_count + 1;
                    stat.trans_count_doubled = stat.trans_count_doubled + 2;
                }
            }
            stat.modify_time_stat_of_value(prev_c, elapsed);
            proof {
                lemma_activity_step(s, i as int, start, end, idx as int);
            }
            ss.set(i, stat);
            i += 1;
        }
        prev_ts = ts;
        idx += 1;
        proof {
            if idx < n {
                assert(s[idx - 1].time < s[idx as int].time);
            }
        }
    }

    // The value in effect at the end of the window holds until there.
    let remaining = last_time_stamp - prev_ts;
    proof {
        assert(dwell(s, idx - 1, start, end) == remaining);
    }
    let mut i: usize = 0;
    while i < width
        invariant
            0 <= i <= width,
            1 <= idx <= n,
            n == samples.len(),
            s == samples@,
            samples_wf(s),
            width == s[0].bits.len(),
            ss.len() == width,
            start <= prev_ts <= end,
            remaining == end - prev_ts,
            end - start <= i64::MAX,
            dwell(s, idx - 1, start, end) == remaining,
            forall|b: int|
                i <= b < width ==> (#[trigger] ss[b])@ == activity_upto(
                    s,
                    b,
                    start,
                    end,
                    idx as int,
                    idx - 1,
                ),
            forall|b: int| i <= b < width ==> within_budget((#[trigger] ss[b])@, prev_ts - start),
            forall|b: int|
                0 <= b < i ==> (#[trigger] ss[b])@ == activity_upto(
                    s,
                    b,
                    start,
                    end,
                    idx as int,
                    idx as int,
                ),
        decreases width - i,
    {
        proof {
            assert(s[idx - 1].bits.len() == width);
        }
        let prev_c = samples[idx - 1].bits[i];
        let mut stat = ss[i];
        proof {
            assert(within_budget(stat@, prev_ts - start));
            assert(stat@ == activity_upto(s, i as int, start, end, idx as int, idx - 1));
        }
        stat.modify_time_stat_of_value(prev_c, remaining);
        proof {
            lemma_activity_step(s, i as int, start, end, idx as int);
        }
        ss.set(i, stat);
        i += 1;
    }

    proof {
        assert forall|b: int| 0 <= b < ss.len() implies (#[trigger] ss[b])@ == bit_activity(
            s,
            b,
            start,
            end,
        ) by {
            lemma_later_samples_idle(s, b, start, end, idx as int, n as int);
        }
    }
    ss
}

/// What the counters and times of a bit cannot exceed once `elapsed` of the window has been
/// accounted for: sample times differ, so each unit of time brings at most one change.
spec fn within_budget(a: Activity, elapsed: int) -> bool {
    &&& a.total_time() == elapsed
    &&& 0 <= a.clean_trans_count <= elapsed
    &&& 0 <= a.glitch_trans_count <= elapsed
    &&& 0 <= a.trans_count_doubled <= 2 * elapsed
    &&& 0 <= a.high_time
    &&& 0 <= a.low_time
    &&& 0 <= a.x_time
    &&& 0 <= a.z_time
}

/// How the activity of a bit grows by one sample: by the change at that sample, and by the
/// time spent in the sample before it.
proof fn lemma_activity_step(s: Seq<Sample>, bit: int, start: int, end: int, idx: int)
    requires
        1 <= idx,
    ensures
        forall|c: Counter|
            #[trigger] transitions(s, bit, c, start, end, idx + 1) == transitions(
                s,
                bit,
                c,
                start,
                end,
                idx,
            ) + if in_window(s[idx].time as int, start, end) {
                edge_weight(c, s[idx - 1].bits[bit], s[idx].bits[bit])
            } else {
                0
            },
        forall|sym: Logic|
            #[trigger] time_in_state(s, bit, sym, start, end, idx) == time_in_state(
                s,
                bit,
                sym,
                start,
                end,
                idx - 1,
            ) + if s[idx - 1].bits[bit] == sym {
                dwell(s, idx - 1, start, end)
            } else {
                0
            },
{
}

/// Samples taken up to the start of the window bring no change, and those before the last of
/// them spend no time inside it.
proof fn lemma_early_samples_idle(s: Seq<Sample>, bit: int, start: int, end: int, upto: int)
    requires
        samples_wf(s),
        1 <= upto <= s.len(),
        start <= end,
        forall|j: int| 1 <= j < upto ==> (#[trigger] s[j]).time <= start,
    ensures
        activity_upto(s, bit, start, end, upto, upto - 1) == Activity::zero(),
    decreases upto,
{
    if upto > 1 {
        lemma_early_samples_idle(s, bit, start, end, upto - 1);
        assert(s[upto - 1].time <= start);
        assert(dwell(s, upto - 2, start, end) == 0);
        assert(!in_window(s[upto - 1].time as int, start, end));
    }
}


/// Whether in each bit of `stats` the times at the four symbols add up to `duration`.
pub open spec fn fills_window(stats: PackedActivity, duration: int) -> bool {
    match stats {
        PackedActivity::OneBit(activity) => activity.total_time() == duration,
        PackedActivity::Vector(bits) => forall|k: int|
            0 <= k < bits.len() ==> (#[trigger] bits[k]).total_time() == duration,
    }
}

/// The statistics of signal `sig_ref` of `wave` over the window that starts at
/// `first_time_stamp` and ends before `last_time_stamp`: the value in effect at the start is
/// taken as it is, and a change at `last_time_stamp` is outside the window.
///
/// With `glitches_only`, the activity of a bit is discarded unless it looks like a glitch, and
/// that of the signal `clk_signal` is discarded in any case.
pub fn calc_stats(
    wave: &Waveform,
    glitches_only: bool,
    clk_signal: Option<usize>,
    sig_ref: usize,
    first_time_stamp: u64,
    last_time_stamp: u64,
) -> (stats: PackedStats)
    requires
        sig_ref < wave.signals.len(),
        wave.signals[sig_ref as int].wf(),
        first_time_stamp <= last_time_stamp,
        last_time_stamp - first_time_stamp <= i64::MAX,
    ensures
        stats@ == signal_activity(
            wave.signals[sig_ref as int],
            glitches_only,
            clk_signal == Some(sig_ref),
            first_time_stamp as int,
            last_time_stamp as int,
        ),
        !glitches_only ==> fills_window(stats@, last_time_stamp - first_time_stamp),
{
    let is_clock = match clk_signal {
        Some(clk) => clk == sig_ref,
        None => false,
    };
    let samples = match &wave.signals[sig_ref] {
        Signal::Real => {
            let stats = PackedStats::Vector(Vec::new());
            assert(stats@->Vector_0 =~= Seq::<Activity>::empty());
            return stats;
        },
        Signal::BitVector(samples) => samples,
    };
    if samples.len() == 0 {
        let stats = PackedStats::Vector(Vec::new());
        assert(stats@->Vector_0 =~= Seq::<Activity>::empty());
        return stats;
    }
    let ss = accumulate(samples, first_time_stamp, last_time_stamp);
    let width = ss.len();
    let ghost s = samples@;
    let ghost start = first_time_stamp as int;
    let ghost end = last_time_stamp as int;

    // Filter, and put the last bit first.
    let mut packed: Vec<SignalStats> = Vec::with_capacity(width);
    while packed.len() < width
        invariant
            packed.len() <= width,
            width == ss.len(),
            forall|b: int|
                0 <= b < width ==> (#[trigger] ss[b])@ == bit_activity(s, b, start, end),
            forall|k: int|
                0 <= k < packed.len() ==> (#[trigger] packed[k])@ == bit_activity(
                    s,
                    width - 1 - k,
                    start,
                    end,
                ).filtered(glitches_only, is_clock),
        decreases width - packed.len(),
    {
        let mut stat = ss[width - 1 - packed.len()];
        if glitches_only {
            if !stat.is_glitch() || is_clock {
                stat.clear();
            }
        }
        packed.push(stat);
    }

    proof {
        assert forall|k: int| 0 <= k < width implies bit_activity(
            s,
            k,
            start,
            end,
        ).total_time() == end - start by {
            lemma_state_times_fill_window(s, k, start, end);
        }
    }
    if width == 1 {
        PackedStats::OneBit(packed[0])
    } else {
        let stats = PackedStats::Vector(packed);
        assert(stats@->Vector_0 =~= signal_activity(
            wave.signals[sig_ref as int],
            glitches_only,
            is_clock,
            start,
            end,
        )->Vector_0);
        stats
    }
}

/// The length of each of `num_of_iterations` equal windows of a trace that lasts `end_time`.
pub open spec fn span_length(end_time: int, num_of_iterations: int) -> int {
    end_time / num_of_iterations
}

/// The statistics of signal `sig_ref` over each of `num_of_iterations` equal windows that
/// follow one another from time 0; entry `i` is for window `i`. A change at the very time at
/// which one window ends and the next starts is inside neither: the next window starts with
/// the new value in effect.
pub fn calc_stats_for_each_time_span(
    wave: &Waveform,
    glitches_only: bool,
    clk_signal: Option<usize>,
    sig_ref: usize,
    num_of_iterations: u64,
) -> (stats: Vec<PackedStats>)
    requires
        num_of_iterations > 0,
        sig_ref < wave.signals.len(),
        wave.signals[sig_ref as int].wf(),
        span_length(wave.end_time as int, num_of_iterations as int) <= i64::MAX,
    ensures
        stats.len() == num_of_iterations,
        forall|i: int|
            0 <= i < num_of_iterations ==> (#[trigger] stats[i])@ == signal_activity(
                wave.signals[sig_ref as int],
                glitches_only,
                clk_signal == Some(sig_ref),
                i * span_length(wave.end_time as int, num_of_iterations as int),
                (i + 1) * span_length(wave.end_time as int, num_of_iterations as int),
            ),
{
    let mut stats: Vec<PackedStats> = Vec::new();
    let time_span: u64 = wave.end_time / num_of_iterations;
    let mut index: u64 = 0;
    while index < num_of_iterations
        invariant
            index <= num_of_iterations,
            stats.len() == index,
            time_span == span_length(wave.end_time as int, num_of_iterations as int),
            time_span <= i64::MAX,
            sig_ref < wave.signals.len(),
            wave.signals[sig_ref as int].wf(),
            forall|i: int|
                0 <= i < index ==> (#[trigger] stats[i])@ == signal_activity(
                    wave.signals[sig_ref as int],
                    glitches_only,
                    clk_signal == Some(sig_ref),
                    i * time_span,
                    (i + 1) * time_span,
                ),
        decreases num_of_iterations - index,
    {
        proof {
            lemma_window_in_trace(
                wave.end_time as int,
                num_of_iterations as int,
                index as int,
            );
        }
        let first_time_stamp: u64 = index * time_span;
        let last_time_stamp: u64 = (index + 1) * time_span;
        stats.push(
            calc_stats(
                wave,
                glitches_only,
                clk_signal,
                sig_ref,
                first_time_stamp,
                last_time_stamp,
            ),
        );
        index += 1;
    }
    stats
}

/// Window `index` of `n` equal windows lies inside the trace and has the common length.
proof fn lemma_window_in_trace(end_time: int, n: int, index: int)
    requires
        0 <= end_time,
        0 <= index < n,
    ensures
        0 <= index * (end_time / n) <= (index + 1) * (end_time / n) <= end_time,
        (index + 1) * (end_time / n) - index * (end_time / n) == end_time / n,
{
    let span = end_time / n;
    assert(0 <= span && n * span <= end_time) by (nonlinear_arith)
        requires
            span == end_time / n,
            0 <= end_time,
            0 < n,
    ;
    assert(0 <= index * span && (index + 1) * span == index * span + span && (index + 1) * span
        <= n * span) by (nonlinear_arith)
        requires
            0 <= span,
            0 <= index < n,
    ;
}

/// In any window, the times that a bit spends at 0, at 1, at X and at Z add up to the length
/// of the window.
pub proof fn lemma_state_times_fill_window(s: Seq<Sample>, bit: int, start: int, end: int)
    requires
        samples_wf(s),
        s.len() > 0,
        start <= end,
    ensures
        bit_activity(s, bit, start, end).total_time() == end - start,
{
    lemma_state_times_upto(s, bit, start, end, s.len() as int);
}

proof fn lemma_state_times_upto(s: Seq<Sample>, bit: int, start: int, end: int, upto: int)
    requires
        samples_wf(s),
        1 <= upto <= s.len(),
        start <= end,
    ensures
        activity_upto(s, bit, start, end, 0, upto).total_time() == (if upto == s.len()
            || s[upto].time >= end {
            end - start
        } else if s[upto].time <= start {
            0
        } else {
            s[upto].time - start
        }),
    decreases upto,
{
    lemma_activity_step(s, bit, start, end, upto);
    if upto > 1 {
        lemma_state_times_upto(s, bit, start, end, upto - 1);
        assert(s[upto - 2].time < s[upto - 1].time);
    }
    if upto < s.len() {
        assert(s[upto - 1].time < s[upto].time);
    }
}

/// A window cut in two: the time that a bit spends at a symbol in the whole is what it spends
/// there in the two parts together.
pub proof fn lemma_time_splits(
    s: Seq<Sample>,
    bit: int,
    sym: Logic,
    start: int,
    cut: int,
    end: int,
)
    requires
        samples_wf(s),
        start <= cut <= end,
    ensures
        bit_activity(s, bit, start, end).time_of(sym) == bit_activity(s, bit, start, cut).time_of(
            sym,
        ) + bit_activity(s, bit, cut, end).time_of(sym),
{
    lemma_time_splits_upto(s, bit, sym, start, cut, end, s.len() as int);
}

proof fn lemma_time_splits_upto(
    s: Seq<Sample>,
    bit: int,
    sym: Logic,
    start: int,
    cut: int,
    end: int,
    upto: int,
)
    requires
        samples_wf(s),
        start <= cut <= end,
        0 <= upto <= s.len(),
    ensures
        time_in_state(s, bit, sym, start, end, upto) == time_in_state(
            s,
            bit,
            sym,
            start,
            cut,
            upto,
        ) + time_in_state(s, bit, sym, cut, end, upto),
    decreases upto,
{
    if upto > 0 {
        lemma_time_splits_upto(s, bit, sym, start, cut, end, upto - 1);
        if upto < s.len() {
            assert(s[upto - 1].time < s[upto].time);
        }
        assert(dwell(s, upto - 1, start, end) == dwell(s, upto - 1, start, cut) + dwell(
            s,
            upto - 1,
            cut,
            end,
        ));
    }
}

/// The time that a bit spends at `sym` in the first `n` windows of length `span`, window by
/// window.
pub open spec fn windowed_time(s: Seq<Sample>, bit: int, sym: Logic, span: int, n: int) -> int
    decreases n,
{
    if n <= 0 {
        0
    } else {
        windowed_time(s, bit, sym, span, n - 1) + bit_activity(
            s,
            bit,
            (n - 1) * span,
            n * span,
        ).time_of(sym)
    }
}

/// Windowing loses no time: what a bit spends at a symbol in `n` consecutive windows of equal
/// length, added up, is what it spends there in the one window that spans them all.
pub proof fn lemma_windows_add_up(s: Seq<Sample>, bit: int, sym: Logic, span: int, n: int)
    requires
        samples_wf(s),
        0 <= span,
        0 <= n,
    ensures
        windowed_time(s, bit, sym, span, n) == bit_activity(s, bit, 0, n * span).time_of(sym),
    decreases n,
{
    if n == 0 {
        lemma_time_splits(s, bit, sym, 0, 0, 0);
    } else {
        lemma_windows_add_up(s, bit, sym, span, n - 1);
        assert(0 <= (n - 1) * span <= n * span) by (nonlinear_arith)
            requires
                0 <= span,
                1 <= n,
        ;
        lemma_time_splits(s, bit, sym, 0, (n - 1) * span, n * span);
    }
}

/// The activity of a bit depends on the sample times and on that bit's own symbols, and on
/// nothing else: two sample streams that agree on these give the bit the same activity,
/// whatever their other bits hold.
pub proof fn lemma_bits_are_independent(
    s1: Seq<Sample>,
    s2: Seq<Sample>,
    bit: int,
    start: int,
    end: int,
)
    requires
        s1.len() == s2.len(),
        forall|j: int| 0 <= j < s1.len() ==> (#[trigger] s1[j]).time == s2[j].time,
        forall|j: int| 0 <= j < s1.len() ==> (#[trigger] s1[j]).bits[bit] == s2[j].bits[bit],
    ensures
        bit_activity(s1, bit, start, end) == bit_activity(s2, bit, start, end),
{
    lemma_bits_are_independent_upto(s1, s2, bit, start, end, s1.len() as int);
}

proof fn lemma_bits_are_independent_upto(
    s1: Seq<Sample>,
    s2: Seq<Sample>,
    bit: int,
    start: int,
    end: int,
    upto: int,
)
    requires
        s1.len() == s2.len(),
        0 <= upto <= s1.len(),
        forall|j: int| 0 <= j < s1.len() ==> (#[trigger] s1[j]).time == s2[j].time,
        forall|j: int| 0 <= j < s1.len() ==> (#[trigger] s1[j]).bits[bit] == s2[j].bits[bit],
    ensures
        activity_upto(s1, bit, start, end, upto, upto) == activity_upto(
            s2,
            bit,
            start,
            end,
            upto,
            upto,
        ),
    decreases upto,
{
    if upto > 0 {
        lemma_bits_are_independent_upto(s1, s2, bit, start, end, upto - 1);
        assert(s1[upto - 1].time == s2[upto - 1].time);
        assert(s1[upto - 1].bits[bit] == s2[upto - 1].bits[bit]);
        if upto < s1.len() {
            assert(s1[upto].time == s2[upto].time);
        }
        assert(dwell(s1, upto - 1, start, end) == dwell(s2, upto - 1, start, end));
        if upto > 1 {
            assert(s1[upto - 2].bits[bit] == s2[upto - 2].bits[bit]);
        }
    }
}


/// Cutting a trace into equal windows loses no time: where `n` divides the length
/// `end_time` of the trace, the times that a bit spends at a symbol in each of the `n`
/// windows add up to the time that it spends there in the whole trace.
pub proof fn lemma_equal_windows_add_up(
    s: Seq<Sample>,
    bit: int,
    sym: Logic,
    end_time: int,
    n: int,
)
    requires
        samples_wf(s),
        0 <= end_time,
        0 < n,
        end_time % n == 0,
    ensures
        windowed_time(s, bit, sym, span_length(end_time, n), n) == bit_activity(
            s,
            bit,
            0,
            end_time,
        ).time_of(sym),
{
    let span = span_length(end_time, n);
    assert(0 <= span && n * span == end_time) by (nonlinear_arith)
        requires
            span == end_time / n,
            0 <= end_time,
            0 < n,
            end_time % n == 0,
    ;
    lemma_windows_add_up(s, bit, sym, span, n);
}

} // verus!
