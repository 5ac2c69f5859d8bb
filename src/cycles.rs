//! Cycle-delta sampling: per-core deltas, conversion into a frequency
//! headroom signal, and validation of the smoothing filter configuration.
use vstd::prelude::*;
use vstd::string::StringSliceAdditionalSpecFns;

use crate::parse::bytes_eq;

verus! {

/// Nanoseconds in one second.
pub const NANOS_PER_SEC: u64 = 1_000_000_000;

/// A frequency-equivalent quantity in hertz (cycles per second).
#[derive(Clone, Copy, Debug, PartialEq, Eq, Structural)]
pub struct Cycles {
    pub hz: i64,
}

impl Cycles {
    pub fn from_hz(hz: i64) -> (r: Cycles)
        ensures
            r.hz == hz,
    {
        Cycles { hz }
    }

    pub fn from_khz(khz: i64) -> (r: Cycles)
        requires
            -9_223_372_036_854_775 <= khz <= 9_223_372_036_854_775,
        ensures
            r.hz == khz * 1000,
    {
        Cycles { hz: khz * 1000 }
    }

    pub fn as_hz(&self) -> (r: i64)
        ensures
            r == self.hz,
    {
        self.hz
    }

    /// Whole kilohertz, rounded down.
    pub fn as_khz(&self) -> (r: i64)
        requires
            self.hz >= 0,
        ensures
            r == self.hz / 1000,
    {
        self.hz / 1000
    }
}

/// The cycles a core ran between two readings; a counter that went
/// backwards (wrapped or reset) counts as zero.
pub open spec fn core_delta(former: u64, later: u64) -> nat {
    if later >= former {
        (later - former) as nat
    } else {
        0
    }
}

/// The largest per-core delta among the first `n` cores.
pub open spec fn max_delta_prefix(former: Seq<u64>, later: Seq<u64>, n: nat) -> nat
    decreases n,
{
    if n == 0 {
        0
    } else {
        let rest = max_delta_prefix(former, later, (n - 1) as nat);
        let d = core_delta(former[n - 1], later[n - 1]);
        if d > rest {
            d
        } else {
            rest
        }
    }
}

/// Headroom between the current frequency ceiling and the rate measured from
/// `cycles` over `elapsed_ns`, never negative. A zero interval gives zero.
pub open spec fn diff_of(cycles: nat, elapsed_ns: nat, cur_hz: int) -> int {
    if elapsed_ns == 0 {
        0
    } else {
        let rate = (cycles * NANOS_PER_SEC) as int / elapsed_ns as int;
        if cur_hz > rate {
            cur_hz - rate
        } else {
            0
        }
    }
}

/// The busiest core's cycle delta: the per-core readings `former` and
/// `later` are taken in the same core order.
pub fn max_core_delta(former: &Vec<u64>, later: &Vec<u64>) -> (r: u64)
    requires
        former.len() == later.len(),
        former.len() >= 1,
    ensures
        r == max_delta_prefix(former@, later@, former.len() as nat),
        forall|i: int|
            0 <= i < former.len() ==> core_delta(former[i], later[i]) <= r,
        exists|i: int| 0 <= i < former.len() && core_delta(former[i], later[i]) == r,
{
    let mut best: u64 = 0;
    let mut i: usize = 0;
    while i < former.len()
        invariant
            former.len() == later.len(),
            former.len() >= 1,
            i <= former.len(),
            best == max_delta_prefix(former@, later@, i as nat),
            forall|j: int| 0 <= j < i ==> core_delta(former[j], later[j]) <= best,
            i == 0 ==> best == 0,
            i > 0 ==> exists|j: int| 0 <= j < i && core_delta(former[j], later[j]) == best,
        decreases former.len() - i,
    {
        let d: u64 = if later[i] >= former[i] {
            later[i] - former[i]
        } else {
            0
        };
        if d > best || i == 0 {
            proof {
                if i == 0 {
                    assert(max_delta_prefix(former@, later@, 0) == 0);
                }
            }
            best = d;
        }
        i = i + 1;
    }
    best
}

/// Converts a cycle count measured over `elapsed_ns` into the headroom
/// left under `cur_freq`; the result is never negative.
pub fn diff_from_cycles(cycles: u64, elapsed_ns: u64, cur_freq: Cycles) -> (r: Cycles)
    ensures
        r.hz == diff_of(cycles as nat, elapsed_ns as nat, cur_freq.hz as int),
        r.hz >= 0,
{
    if elapsed_ns == 0 {
        return Cycles { hz: 0 };
    }
    assert((cycles as u128) * (NANOS_PER_SEC as u128) <= u128::MAX) by (nonlinear_arith)
        requires
            cycles <= u64::MAX,
            NANOS_PER_SEC == 1_000_000_000u64,
    ;
    let prod: u128 = cycles as u128 * NANOS_PER_SEC as u128;
    let rate: u128 = prod / elapsed_ns as u128;
    if cur_freq.hz > 0 && (cur_freq.hz as u128) > rate {
        Cycles { hz: (cur_freq.hz as u128 - rate) as i64 }
    } else {
        Cycles { hz: 0 }
    }
}

/// Why a sampler configuration was refused.
#[derive(Clone, Copy, Debug, PartialEq, Eq, Structural)]
pub enum ConfigError {
    /// The filter name is none of `EMA`, `DEMA`, `SMA`, `None`.
    UnknownFilter,
    /// The window does not fit the chosen filter (it must be 1 to 255).
    InvalidWindow,
}

/// The smoothing applied to the raw diff, with its window length.
#[derive(Clone, Copy, Debug, PartialEq, Eq, Structural)]
pub enum FilterSpec {
    Ema(u8),
    Dema(u8),
    Sma(u8),
    /// Pass-through: the raw diff is used as it is.
    Identity,
}

pub open spec fn ema_name() -> Seq<u8> {
    seq![69u8, 77u8, 65u8]
}

pub open spec fn dema_name() -> Seq<u8> {
    seq![68u8, 69u8, 77u8, 65u8]
}

pub open spec fn sma_name() -> Seq<u8> {
    seq![83u8, 77u8, 65u8]
}

pub open spec fn none_name() -> Seq<u8> {
    seq![78u8, 111u8, 110u8, 101u8]
}

/// A moving-average window must be at least one sample and fit the
/// filter's period type (`u8`).
pub open spec fn window_ok(window: int) -> bool {
    1 <= window <= 255
}

/// The filter that a configured name and window select.
pub open spec fn filter_of(name: Seq<u8>, window: int) -> Result<FilterSpec, ConfigError> {
    if name == ema_name() || name == dema_name() || name == sma_name() {
        if !window_ok(window) {
            Err(ConfigError::InvalidWindow)
        } else if name == ema_name() {
            Ok(FilterSpec::Ema(window as u8))
        } else if name == dema_name() {
            Ok(FilterSpec::Dema(window as u8))
        } else {
            Ok(FilterSpec::Sma(window as u8))
        }
    } else if name == none_name() {
        Ok(FilterSpec::Identity)
    } else {
        Err(ConfigError::UnknownFilter)
    }
}

impl FilterSpec {
    /// Selects the filter from its configured name (`EMA`, `DEMA`, `SMA` or
    /// `None`) and window length.
    pub fn from_config(name: &str, window: i64) -> (r: Result<FilterSpec, ConfigError>)
        ensures
            r == filter_of(name.spec_bytes(), window as int),
    {
        let bytes = name.as_bytes();
        let ema: [u8; 3] = [69u8, 77u8, 65u8];
        let dema: [u8; 4] = [68u8, 69u8, 77u8, 65u8];
        let sma: [u8; 3] = [83u8, 77u8, 65u8];
        let none: [u8; 4] = [78u8, 111u8, 110u8, 101u8];
        let is_ema = bytes_eq(bytes, ema.as_slice());
        let is_dema = bytes_eq(bytes, dema.as_slice());
        let is_sma = bytes_eq(bytes, sma.as_slice());
        assert(ema@ =~= ema_name());
        assert(dema@ =~= dema_name());
        assert(sma@ =~= sma_name());
        assert(none@ =~= none_name());
        if is_ema || is_dema || is_sma {
            if window < 1 || window > 255 {
                Err(ConfigError::InvalidWindow)
            } else if is_ema {
                Ok(FilterSpec::Ema(window as u8))
            } else if is_dema {
                Ok(FilterSpec::Dema(window as u8))
            } else {
                Ok(FilterSpec::Sma(window as u8))
            }
        } else if bytes_eq(bytes, none.as_slice()) {
            Ok(FilterSpec::Identity)
        } else {
            Err(ConfigError::UnknownFilter)
        }
    }
}

/// The computing half of a cluster's sampler: which cores it watches and
/// how their readings are smoothed. The counters themselves are read by
/// the caller, which hands over one reading per core in `affected_cpus`
/// order.
pub struct DiffReader {
    pub affected_cpus: Vec<i32>,
    pub filter: FilterSpec,
}

impl DiffReader {
    pub open spec fn wf(&self) -> bool {
        self.affected_cpus.len() >= 1
    }

    /// Builds the sampler of a cluster from its cores and the configured
    /// filter name and window.
    pub fn new(affected_cpus: Vec<i32>, ema_type: &str, window: i64) -> (r: Result<
        DiffReader,
        ConfigError,
    >)
        requires
            affected_cpus.len() >= 1,
        ensures
            match filter_of(ema_type.spec_bytes(), window as int) {
                Ok(f) => r matches Ok(d) && d.filter == f && d.affected_cpus@ == affected_cpus@
                    && d.wf(),
                Err(e) => r == Err::<DiffReader, ConfigError>(e),
            },
    {
        match FilterSpec::from_config(ema_type, window) {
            Ok(filter) => Ok(DiffReader { affected_cpus, filter }),
            Err(e) => Err(e),
        }
    }

    /// The unsmoothed diff of one sampling window: the busiest core's cycle
    /// delta over `elapsed_ns`, as headroom under `cur_freq`, floored at zero.
    pub fn read_diff(&self, former: &Vec<u64>, later: &Vec<u64>, elapsed_ns: u64, cur_freq: Cycles) -> (r: Cycles)
        requires
            self.wf(),
            former.len() == self.affected_cpus.len(),
            later.len() == self.affected_cpus.len(),
        ensures
            r.hz == diff_of(
                max_delta_prefix(former@, later@, former.len() as nat),
                elapsed_ns as nat,
                cur_freq.hz as int,
            ),
            r.hz >= 0,
    {
        let cycles = max_core_delta(former, later);
        diff_from_cycles(cycles, elapsed_ns, cur_freq)
    }
}

} // verus!
