//! PID gain evolution: bounded random-walk mutation of the gains and the
//! fitness score of an evaluation window.
//!
//! Gains are fixed-point integers in units of 1e-9 (so a `kp` of 600_000
//! stands for 0.0006). Frame times are nanoseconds.
use vstd::prelude::*;

use rand::Rng;

verus! {

/// Proportional gain bounds and perturbation half-width, in units of 1e-9.
pub const KP_MIN: i64 = 400_000;
pub const KP_MAX: i64 = 800_000;
pub const KP_STEP: i64 = 100_000;

/// Integral gain bounds and perturbation half-width, in units of 1e-9.
pub const KI_MIN: i64 = 15_000;
pub const KI_MAX: i64 = 80_000;
pub const KI_STEP: i64 = 10_000;

/// Derivative gain bounds and perturbation half-width, in units of 1e-9.
pub const KD_MIN: i64 = 50_000;
pub const KD_MAX: i64 = 80_000;
pub const KD_STEP: i64 = 10_000;

/// Seconds of frames, at the target rate, that a score needs.
pub const FRAME_SECONDS: u64 = 5;

/// Fewest controller outputs a fitness is computed from.
pub const MIN_CONTROL_SAMPLES: usize = 30;

/// Largest scaled frame time, in nanoseconds, that the score accepts.
pub const FRAME_NS_LIMIT: u64 = 1_000_000_000_000;

/// Largest margin, in milliseconds, that the score accepts.
pub const MARGIN_MS_LIMIT: u64 = 1_000_000;

/// Largest magnitude of a controller output that the score accepts.
pub const CONTROL_LIMIT: i64 = 1_000_000_000_000;

/// Most samples of either kind that the score accepts.
pub const SAMPLES_LIMIT: usize = 1_000_000_000;

/// PID gains, each in units of 1e-9.
#[derive(Clone, Copy, Debug, PartialEq, Eq, Structural)]
pub struct PidParams {
    pub kp: i64,
    pub ki: i64,
    pub kd: i64,
}

pub open spec fn clamp_int(x: int, lo: int, hi: int) -> int {
    if x < lo {
        lo
    } else if x > hi {
        hi
    } else {
        x
    }
}

impl PidParams {
    /// Every gain lies in its clamp interval.
    pub open spec fn in_bounds(self) -> bool {
        &&& KP_MIN <= self.kp <= KP_MAX
        &&& KI_MIN <= self.ki <= KI_MAX
        &&& KD_MIN <= self.kd <= KD_MAX
    }
}

/// The gains moved by the given offsets and clamped into their intervals.
pub open spec fn shifted(p: PidParams, dkp: int, dki: int, dkd: int) -> PidParams {
    PidParams {
        kp: clamp_int(p.kp + dkp, KP_MIN as int, KP_MAX as int) as i64,
        ki: clamp_int(p.ki + dki, KI_MIN as int, KI_MAX as int) as i64,
        kd: clamp_int(p.kd + dkd, KD_MIN as int, KD_MAX as int) as i64,
    }
}

/// The offsets a mutation may draw: each in its half-open range
/// `-step..step`.
pub open spec fn offsets_ok(dkp: int, dki: int, dkd: int) -> bool {
    &&& -KP_STEP <= dkp < KP_STEP
    &&& -KI_STEP <= dki < KI_STEP
    &&& -KD_STEP <= dkd < KD_STEP
}

fn clamp_shift(x: i64, d: i64, lo: i64, hi: i64) -> (r: i64)
    requires
        lo <= hi,
    ensures
        r == clamp_int(x + d, lo as int, hi as int),
{
    let s: i128 = x as i128 + d as i128;
    if s < lo as i128 {
        lo
    } else if s > hi as i128 {
        hi
    } else {
        s as i64
    }
}

/// Moves each gain by its offset and clamps it into its interval.
pub fn apply_offsets(params: PidParams, dkp: i64, dki: i64, dkd: i64) -> (r: PidParams)
    ensures
        r == shifted(params, dkp as int, dki as int, dkd as int),
        r.in_bounds(),
{
    PidParams {
        kp: clamp_shift(params.kp, dkp, KP_MIN, KP_MAX),
        ki: clamp_shift(params.ki, dki, KI_MIN, KI_MAX),
        kd: clamp_shift(params.kd, dkd, KD_MIN, KD_MAX),
    }
}

/// Relies on rand's `thread_rng().gen_range(lo..hi)`: a value of the
/// half-open range `lo..hi`, which must not be empty.
#[verifier::external_body]
fn random_in(lo: i64, hi: i64) -> (r: i64)
    requires
        lo < hi,
    ensures
        lo <= r < hi,
{
    rand::thread_rng().gen_range(lo..hi)
}

/// Perturbs each gain by an independent uniform offset and clamps it into
/// its interval.
pub fn mutate_params(params: PidParams) -> (r: PidParams)
    ensures
        r.in_bounds(),
        exists|dkp: int, dki: int, dkd: int|
            offsets_ok(dkp, dki, dkd) && r == shifted(params, dkp, dki, dkd),
{
    let dkp = random_in(-KP_STEP, KP_STEP);
    let dki = random_in(-KI_STEP, KI_STEP);
    let dkd = random_in(-KD_STEP, KD_STEP);
    let r = apply_offsets(params, dkp, dki, dkd);
    assert(offsets_ok(dkp as int, dki as int, dkd as int));
    r
}

/// The gains after a sequence of offset triples, one mutation each.
pub open spec fn shifted_repeatedly(p: PidParams, offsets: Seq<(int, int, int)>) -> PidParams
    decreases offsets.len(),
{
    if offsets.len() == 0 {
        p
    } else {
        let q = shifted_repeatedly(p, offsets.drop_last());
        let (a, b, c) = offsets.last();
        shifted(q, a, b, c)
    }
}

/// However often the gains are mutated, from whatever start, after at
/// least one mutation every gain lies in its clamp interval.
pub proof fn lemma_mutations_stay_bounded(p: PidParams, offsets: Seq<(int, int, int)>)
    requires
        offsets.len() >= 1,
    ensures
        shifted_repeatedly(p, offsets).in_bounds(),
{
}

/// Target frame period in nanoseconds: one second plus the margin.
pub open spec fn target_ns(margin_ms: int) -> int {
    1_000_000_000 + margin_ms * 1_000_000
}

pub open spec fn square(x: int) -> int {
    x * x
}

/// Sum over the first `n` frame times of the squared deviation of the
/// frame time scaled by `fps` from `target`.
pub open spec fn frame_sq_sum(ft: Seq<u64>, fps: int, target: int, n: nat) -> int
    decreases n,
{
    if n == 0 {
        0
    } else {
        frame_sq_sum(ft, fps, target, (n - 1) as nat) + square(ft[n - 1] * fps - target)
    }
}

/// Sum of the squares of the first `n` controller outputs.
pub open spec fn control_sq_sum(c: Seq<i64>, n: nat) -> int
    decreases n,
{
    if n == 0 {
        0
    } else {
        control_sq_sum(c, (n - 1) as nat) + square(c[n - 1] as int)
    }
}

/// Enough samples have been gathered for a score.
pub open spec fn fitness_ready(n_frames: int, fps: Option<u32>, n_control: int) -> bool {
    match fps {
        Some(f) => n_frames >= FRAME_SECONDS * f && n_control >= MIN_CONTROL_SAMPLES,
        None => false,
    }
}

/// The exact score of an evaluation window, held as its sums and counts:
/// minus the mean squared frame-time deviation (square nanoseconds) minus a
/// hundredth of the mean squared controller output. As a fraction it is
/// `numerator() / denominator()`.
#[derive(Clone, Copy, Debug, PartialEq, Eq, Structural)]
pub struct Fitness {
    /// Sum of squared deviations of the scaled frame times from the target.
    pub frame_sq_sum: u128,
    /// Number of frame times.
    pub frames: u64,
    /// Sum of squared controller outputs.
    pub control_sq_sum: u128,
    /// Number of controller outputs.
    pub controls: u64,
}

impl Fitness {
    /// `-(100·m·Σdev² + n·Σc²)` for `n` frames and `m` outputs.
    pub open spec fn numerator(self) -> int {
        -(100 * self.controls * self.frame_sq_sum + self.frames * self.control_sq_sum)
    }

    /// `100·n·m`.
    pub open spec fn denominator(self) -> int {
        100 * self.frames * self.controls
    }

    /// This score is strictly below `other`, compared as exact fractions.
    pub open spec fn lower_than(self, other: Fitness) -> bool {
        self.numerator() * other.denominator() < other.numerator() * self.denominator()
    }
}

/// The score of frame times `ft` at `fps` with a margin, and outputs `c`.
pub open spec fn fitness_of(ft: Seq<u64>, fps: int, margin_ms: int, c: Seq<i64>) -> Fitness {
    Fitness {
        frame_sq_sum: frame_sq_sum(ft, fps, target_ns(margin_ms), ft.len()) as u128,
        frames: ft.len() as u64,
        control_sq_sum: control_sq_sum(c, c.len()) as u128,
        controls: c.len() as u64,
    }
}

/// Inputs small enough for the score to be computed exactly.
pub open spec fn fitness_inputs_fit(ft: Seq<u64>, fps: u32, margin_ms: u64, c: Seq<i64>) -> bool {
    &&& ft.len() <= SAMPLES_LIMIT
    &&& c.len() <= SAMPLES_LIMIT
    &&& margin_ms <= MARGIN_MS_LIMIT
    &&& forall|i: int| 0 <= i < ft.len() ==> #[trigger] ft[i] * fps <= FRAME_NS_LIMIT
    &&& forall|i: int| 0 <= i < c.len() ==> -CONTROL_LIMIT <= #[trigger] c[i] <= CONTROL_LIMIT
}

/// Bound on one squared deviation for inputs that fit.
pub const SQ_LIMIT: u128 = 1_100_000_000_000_000_000_000_000;

/// Scores an evaluation window from its frame times (nanoseconds, one per
/// sample) and the controller outputs. Gives nothing until the frame-time
/// buffer holds `5 × target_fps` samples and the history 30. A zero target
/// rate admits a window without frames, whose score has a zero denominator.
pub fn evaluate_fitness(
    frametimes: &Vec<u64>,
    target_fps: Option<u32>,
    margin_ms: u64,
    control_history: &Vec<i64>,
) -> (r: Option<Fitness>)
    requires
        target_fps matches Some(f) ==> fitness_inputs_fit(
            frametimes@,
            f,
            margin_ms,
            control_history@,
        ),
    ensures
        r is None <==> !fitness_ready(frametimes.len() as int, target_fps, control_history.len() as int),
        r matches Some(v) ==> v == fitness_of(
            frametimes@,
            target_fps->Some_0 as int,
            margin_ms as int,
            control_history@,
        ),
        r matches Some(v) ==> v.numerator() <= 0 && (v.frames >= 1 ==> v.denominator() > 0),
{
    let fps: u32 = match target_fps {
        Some(f) => f,
        None => return None,
    };
    if (frametimes.len() as u64) < FRAME_SECONDS * (fps as u64) || control_history.len()
        < MIN_CONTROL_SAMPLES {
        return None;
    }
    let target: u128 = 1_000_000_000 + (margin_ms as u128) * 1_000_000;
    let ghost t = target_ns(margin_ms as int);
    let mut fsum: u128 = 0;
    let mut i: usize = 0;
    while i < frametimes.len()
        invariant
            i <= frametimes.len(),
            fitness_inputs_fit(frametimes@, fps, margin_ms, control_history@),
            target == t,
            t == target_ns(margin_ms as int),
            fsum == frame_sq_sum(frametimes@, fps as int, t, i as nat),
            fsum <= i * SQ_LIMIT,
        decreases frametimes.len() - i,
    {
        let ft = frametimes[i];
        proof {
            assert(ft * fps <= FRAME_NS_LIMIT);
            assert((ft as int) * (fps as int) <= u128::MAX);
        }
        let scaled: u128 = (ft as u128) * (fps as u128);
        let dev: u128 = if scaled >= target {
            scaled - target
        } else {
            target - scaled
        };
        proof {
            let x = ft * fps - t;
            assert(dev == x || dev == -x);
            assert(dev <= 1_001_000_000_000);
            assert(square(x) == dev * dev) by (nonlinear_arith)
                requires
                    dev == x || dev == -x,
            ;
            assert(dev * dev <= SQ_LIMIT) by (nonlinear_arith)
                requires
                    0 <= dev <= 1_001_000_000_000,
            ;
            assert(fsum + dev * dev <= (i + 1) * SQ_LIMIT) by (nonlinear_arith)
                requires
                    fsum <= i * SQ_LIMIT,
                    dev * dev <= SQ_LIMIT,
            ;
            assert((i + 1) * SQ_LIMIT <= u128::MAX) by (nonlinear_arith)
                requires
                    i < SAMPLES_LIMIT,
            ;
        }
        fsum = fsum + dev * dev;
        i = i + 1;
    }
    let mut csum: u128 = 0;
    let mut j: usize = 0;
    while j < control_history.len()
        invariant
            j <= control_history.len(),
            fitness_inputs_fit(frametimes@, fps, margin_ms, control_history@),
            csum == control_sq_sum(control_history@, j as nat),
            csum <= j * SQ_LIMIT,
        decreases control_history.len() - j,
    {
        let c = control_history[j];
        let m: u128 = if c >= 0 {
            c as u128
        } else {
            (-(c as i128)) as u128
        };
        proof {
            assert(-CONTROL_LIMIT <= c <= CONTROL_LIMIT);
            assert(square(c as int) == m * m) by (nonlinear_arith)
                requires
                    m == c || m == -c,
            ;
            assert(m * m <= SQ_LIMIT) by (nonlinear_arith)
                requires
                    0 <= m <= CONTROL_LIMIT,
            ;
            assert(csum + m * m <= (j + 1) * SQ_LIMIT) by (nonlinear_arith)
                requires
                    csum <= j * SQ_LIMIT,
                    m * m <= SQ_LIMIT,
            ;
            assert((j + 1) * SQ_LIMIT <= u128::MAX) by (nonlinear_arith)
                requires
                    j < SAMPLES_LIMIT,
            ;
        }
        csum = csum + m * m;
        j = j + 1;
    }
    proof {
        assert(fsum <= SAMPLES_LIMIT * SQ_LIMIT) by (nonlinear_arith)
            requires
                fsum <= i * SQ_LIMIT,
                i <= SAMPLES_LIMIT,
        ;
        assert(csum <= SAMPLES_LIMIT * SQ_LIMIT) by (nonlinear_arith)
            requires
                csum <= j * SQ_LIMIT,
                j <= SAMPLES_LIMIT,
        ;
        let f = Fitness {
            frame_sq_sum: fsum,
            frames: frametimes.len() as u64,
            control_sq_sum: csum,
            controls: control_history.len() as u64,
        };
        assert(f.numerator() <= 0) by (nonlinear_arith)
            requires
                f.frame_sq_sum >= 0,
                f.control_sq_sum >= 0,
                f.frames >= 0,
                f.controls >= 0,
        ;
        if f.frames >= 1 {
            assert(f.denominator() > 0) by (nonlinear_arith)
                requires
                    f.frames >= 1,
                    f.controls >= 1,
            ;
        }
    }
    Some(
        Fitness {
            frame_sq_sum: fsum,
            frames: frametimes.len() as u64,
            control_sq_sum: csum,
            controls: control_history.len() as u64,
        },
    )
}

/// With the same controller outputs, a window whose mean squared
/// frame-time deviation is larger (as an exact fraction) scores strictly
/// lower.
pub proof fn lemma_fitness_monotone(a: Fitness, b: Fitness)
    requires
        a.frames >= 1,
        b.frames >= 1,
        a.controls >= 1,
        a.controls == b.controls,
        a.control_sq_sum == b.control_sq_sum,
        a.frame_sq_sum * b.frames > b.frame_sq_sum * a.frames,
    ensures
        a.lower_than(b),
{
    let m = a.controls as int;
    let c = a.control_sq_sum as int;
    let (fa, fb) = (a.frame_sq_sum as int, b.frame_sq_sum as int);
    let (na, nb) = (a.frames as int, b.frames as int);
    assert(fa * nb > fb * na);
    assert(100 * m * (fa * nb) + na * nb * c > 100 * m * (fb * na) + na * nb * c) by (nonlinear_arith)
        requires
            fa * nb > fb * na,
            m >= 1,
    ;
    assert(a.numerator() * b.denominator() == -(100 * m * (fa * nb) + na * nb * c) * (100 * m))
        by (nonlinear_arith)
        requires
            a.numerator() == -(100 * m * fa + na * c),
            b.denominator() == 100 * nb * m,
    ;
    assert(b.numerator() * a.denominator() == -(100 * m * (fb * na) + na * nb * c) * (100 * m))
        by (nonlinear_arith)
        requires
            b.numerator() == -(100 * m * fb + nb * c),
            a.denominator() == 100 * na * m,
    ;
    assert(-(100 * m * (fa * nb) + na * nb * c) * (100 * m) < -(100 * m * (fb * na) + na * nb * c)
        * (100 * m)) by (nonlinear_arith)
        requires
            100 * m * (fa * nb) + na * nb * c > 100 * m * (fb * na) + na * nb * c,
            m >= 1,
    ;
}

/// Controller effort always costs: with frames and outputs present, any
/// nonzero output makes the score strictly negative, and no score is
/// positive.
pub proof fn lemma_control_effort_costs(f: Fitness)
    requires
        f.frames >= 1,
        f.controls >= 1,
    ensures
        f.numerator() <= 0,
        f.control_sq_sum > 0 ==> f.numerator() < 0,
{
    assert(f.frames * f.control_sq_sum >= 0 && 100 * f.controls * f.frame_sq_sum >= 0) by (nonlinear_arith)
        requires
            f.frames >= 1,
            f.controls >= 1,
    ;
    if f.control_sq_sum > 0 {
        assert(f.frames * f.control_sq_sum > 0) by (nonlinear_arith)
            requires
                f.frames >= 1,
                f.control_sq_sum > 0,
        ;
    }
}

/// A nonzero controller output makes the sum of squared outputs positive.
pub proof fn lemma_control_sq_sum_positive(c: Seq<i64>, n: nat, k: int)
    requires
        n <= c.len(),
        0 <= k < n,
        c[k] != 0,
    ensures
        control_sq_sum(c, n) > 0,
    decreases n,
{
    lemma_control_sq_sum_nonneg(c, (n - 1) as nat);
    if k < n - 1 {
        lemma_control_sq_sum_positive(c, (n - 1) as nat, k);
    }
    assert(square(c[n - 1] as int) >= 0) by (nonlinear_arith);
    if k == n - 1 {
        assert(square(c[k] as int) > 0) by (nonlinear_arith)
            requires
                c[k] != 0,
        ;
    }
}

proof fn lemma_control_sq_sum_nonneg(c: Seq<i64>, n: nat)
    requires
        n <= c.len(),
    ensures
        control_sq_sum(c, n) >= 0,
    decreases n,
{
    if n > 0 {
        lemma_control_sq_sum_nonneg(c, (n - 1) as nat);
        assert(square(c[n - 1] as int) >= 0) by (nonlinear_arith);
    }
}

} // verus!
