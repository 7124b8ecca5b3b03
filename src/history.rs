use vstd::prelude::*;

verus! {

/// Minimum time, in milliseconds, between two recorded temperature samples.
pub const SAMPLE_INTERVAL_MS: u64 = 1500;

/// Mathematical picture of a temperature history.
pub struct HistoryModel {
    pub samples: Seq<u64>,
    pub peak: u64,
    pub last_sample_ms: u64,
}

/// Largest value of `s`, or 0 for the empty sequence.
pub open spec fn seq_max(s: Seq<u64>) -> u64
    decreases s.len(),
{
    if s.len() == 0 {
        0
    } else {
        let m = seq_max(s.drop_last());
        if s.last() > m { s.last() } else { m }
    }
}

/// Whether a call at `now_ms` is due to record a sample, the last one having
/// been recorded at `last_ms`.
pub open spec fn sample_due(last_ms: u64, now_ms: u64) -> bool {
    now_ms as int >= last_ms as int + SAMPLE_INTERVAL_MS as int
}

/// The last `width` elements of `s` (all of it when it is no longer).
pub open spec fn keep_last(s: Seq<u64>, width: u16) -> Seq<u64> {
    if s.len() > width as int {
        s.subrange(s.len() - width as int, s.len() as int)
    } else {
        s
    }
}

/// Effect of one update on the model.
pub open spec fn step(m: HistoryModel, current: u64, width: u16, now_ms: u64) -> HistoryModel {
    let due = sample_due(m.last_sample_ms, now_ms);
    let grown = if due { m.samples.push(current) } else { m.samples };
    HistoryModel {
        samples: keep_last(grown, width),
        peak: if current > m.peak { current } else { m.peak },
        last_sample_ms: if due { now_ms } else { m.last_sample_ms },
    }
}

/// The model after a series of updates `(temperature, width, time)`, applied
/// oldest first.
pub open spec fn run(m: HistoryModel, inputs: Seq<(u64, u16, u64)>) -> HistoryModel
    decreases inputs.len(),
{
    if inputs.len() == 0 {
        m
    } else {
        let prev = run(m, inputs.drop_last());
        let (t, w, now) = inputs.last();
        step(prev, t, w, now)
    }
}

/// The temperatures of a series of updates.
pub open spec fn temperatures(inputs: Seq<(u64, u16, u64)>) -> Seq<u64> {
    inputs.map_values(|x: (u64, u16, u64)| x.0)
}

/// The model of a history created at `now_ms`.
pub open spec fn initial(now_ms: u64) -> HistoryModel {
    HistoryModel { samples: Seq::empty(), peak: 0, last_sample_ms: now_ms }
}

/// Recent temperature samples, bounded by the plot width, with the peak seen
/// so far.
pub struct TempState {
    data: Vec<u64>,
    peak: u64,
    last_sample_ms: u64,
}

impl View for TempState {
    type V = HistoryModel;

    closed spec fn view(&self) -> HistoryModel {
        HistoryModel { samples: self.data@, peak: self.peak, last_sample_ms: self.last_sample_ms }
    }
}

/// Every retained sample is at most the peak.
pub open spec fn model_wf(m: HistoryModel) -> bool {
    forall|i: int| 0 <= i < m.samples.len() ==> m.samples[i] <= m.peak
}

impl TempState {
    pub open spec fn wf(&self) -> bool {
        model_wf(self@)
    }

    /// An empty history whose sampling clock starts at `now_ms`.
    pub fn new(now_ms: u64) -> (r: TempState)
        ensures
            r@ == initial(now_ms),
            r.wf(),
    {
        TempState { data: Vec::new(), peak: 0, last_sample_ms: now_ms }
    }

    /// Records `current`: raises the peak, appends a sample when the sampling
    /// interval has passed, and drops the oldest samples beyond `width`.
    pub fn update(&mut self, current: u64, width: u16, now_ms: u64)
        requires
            old(self).wf(),
        ensures
            final(self)@ == step(old(self)@, current, width, now_ms),
            final(self).wf(),
            final(self)@.samples.len() <= width as int,
    {
        if current > self.peak {
            self.peak = current;
        }
        assert(forall|k: int| 0 <= k < self.data@.len() ==> self.data@[k] <= old(self)@.samples[k]);
        if now_ms >= self.last_sample_ms && now_ms - self.last_sample_ms >= SAMPLE_INTERVAL_MS {
            self.data.push(current);
            self.last_sample_ms = now_ms;
        }
        let ghost grown = self.data@;
        assert(forall|k: int| 0 <= k < grown.len() ==> grown[k] <= self.peak);
        let excess: usize = if self.data.len() > width as usize {
            self.data.len() - width as usize
        } else {
            0
        };
        let mut kept: Vec<u64> = Vec::new();
        let mut i: usize = excess;
        while i < self.data.len()
            invariant
                excess <= i <= self.data.len(),
                self.data@ == grown,
                kept@ == grown.subrange(excess as int, i as int),
                forall|k: int| 0 <= k < grown.len() ==> grown[k] <= self.peak,
            decreases self.data.len() - i,
        {
            kept.push(self.data[i]);
            i = i + 1;
        }
        self.data = kept;
        assert(self.data@ =~= keep_last(grown, width));
    }

    /// The retained samples, oldest first.
    pub fn samples(&self) -> (r: &Vec<u64>)
        ensures
            r@ == self@.samples,
    {
        &self.data
    }

    /// The highest temperature passed to `update` so far (0 before any).
    pub fn peak(&self) -> (r: u64)
        ensures
            r == self@.peak,
    {
        self.peak
    }
}

/// Over any series of updates starting from a fresh history, the peak after
/// each prefix of the series equals the largest temperature of that prefix.
pub proof fn lemma_peak_is_running_max(start_ms: u64, inputs: Seq<(u64, u16, u64)>)
    ensures
        forall|k: int|
            0 <= k <= inputs.len() ==> #[trigger] run(initial(start_ms), inputs.take(k)).peak
                == seq_max(temperatures(inputs.take(k))),
{
    assert forall|k: int| 0 <= k <= inputs.len() implies #[trigger] run(
        initial(start_ms),
        inputs.take(k),
    ).peak == seq_max(temperatures(inputs.take(k))) by {
        lemma_peak_of_run(start_ms, inputs.take(k));
    }
}

proof fn lemma_peak_of_run(start_ms: u64, inputs: Seq<(u64, u16, u64)>)
    ensures
        run(initial(start_ms), inputs).peak == seq_max(temperatures(inputs)),
    decreases inputs.len(),
{
    if inputs.len() > 0 {
        lemma_peak_of_run(start_ms, inputs.drop_last());
        assert(temperatures(inputs).drop_last() =~= temperatures(inputs.drop_last()));
    }
}

/// After any update, no more samples are kept than the width given to it.
pub proof fn lemma_width_bounds_samples(m: HistoryModel, current: u64, width: u16, now_ms: u64)
    ensures
        step(m, current, width, now_ms).samples.len() <= width as int,
{
}

/// When an update records a sample, an update less than the sampling
/// interval later records none: its samples are those of the first update,
/// cut to its own width.
pub proof fn lemma_no_sample_within_interval(
    m: HistoryModel,
    t1: u64,
    w1: u16,
    now1: u64,
    t2: u64,
    w2: u16,
    now2: u64,
)
    requires
        sample_due(m.last_sample_ms, now1),
        (now2 as int) < now1 as int + SAMPLE_INTERVAL_MS as int,
    ensures
        ({
            let m1 = step(m, t1, w1, now1);
            let m2 = step(m1, t2, w2, now2);
            &&& m1.last_sample_ms == now1
            &&& m2.samples == keep_last(m1.samples, w2)
            &&& m2.samples.len() <= m1.samples.len()
        }),
{
}

} // verus!
