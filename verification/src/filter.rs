use vstd::prelude::*;
use crate::errors::SignalError;
use crate::fixed::COEFF_LIMIT;
use crate::fixed::DAMPING_MICRO;
use crate::fixed::MAG_LIMIT;
use crate::fixed::SCALE;
use crate::fixed::lemma_tdiv_bound;
use crate::fixed::tdiv;
use crate::fixed::tdiv128;

verus! {

/// Which of the two outputs of the state-variable core a stage emits.
#[derive(Clone, Copy, Debug, PartialEq, Eq, Structural)]
pub enum FilterKind {
    Lowpass,
    Highpass,
}

/// One second-order state-variable filter stage: a cutoff, the sample rate
/// the coefficient was derived against, the fixed-point integration
/// coefficient, and the two accumulators forming the recursive memory.
pub struct FilterStage {
    pub kind: FilterKind,
    /// Cutoff in Hz; 0 is a sentinel that disables the stage, passing the
    /// input through unchanged.
    pub cutoff: i32,
    /// The sample rate the coefficient was derived against, in Hz.
    pub sample_rate: i32,
    /// The integration coefficient, tan(pi * cutoff / sample_rate) in
    /// millionths, supplied by the caller at configuration time.
    pub g_micro: i64,
    /// Recursive memory: the band accumulator.
    pub band: i64,
    /// Recursive memory: the low accumulator.
    pub low: i64,
}

impl FilterStage {
    /// The coefficient and both accumulators stay inside the fixed-point
    /// ranges every step preserves.
    pub open spec fn wf(self) -> bool {
        &&& 0 <= self.g_micro <= COEFF_LIMIT
        &&& -MAG_LIMIT <= self.band <= MAG_LIMIT
        &&& -MAG_LIMIT <= self.low <= MAG_LIMIT
    }

    /// A cutoff of 0 disables the stage.
    pub open spec fn enabled(self) -> bool {
        self.cutoff != 0
    }

    /// The highpass term `x - damping * band - low` over given accumulators.
    pub open spec fn mid_of(self, x: int, band: int, low: int) -> int {
        x - tdiv(DAMPING_MICRO * band, SCALE as int) - low
    }

    /// The band accumulator after integrating one input.
    pub open spec fn step_band(self, x: int) -> int {
        self.band + tdiv(self.g_micro * self.mid_of(x, self.band as int, self.low as int), SCALE as int)
    }

    /// The low accumulator after integrating one input.
    pub open spec fn step_low(self, x: int) -> int {
        self.low + tdiv(self.g_micro * self.step_band(x), SCALE as int)
    }

    /// The stage's output for one input: the low accumulator for a lowpass,
    /// the highpass term over the updated accumulators for a highpass.
    pub open spec fn step_out(self, x: int) -> int {
        match self.kind {
            FilterKind::Lowpass => self.step_low(x),
            FilterKind::Highpass => self.mid_of(x, self.step_band(x), self.step_low(x)),
        }
    }

    /// Does one step of an enabled stage stay inside the fixed-point range?
    pub open spec fn step_fits(self, x: int) -> bool {
        &&& -MAG_LIMIT <= self.step_band(x) <= MAG_LIMIT
        &&& -MAG_LIMIT <= self.step_low(x) <= MAG_LIMIT
        &&& -MAG_LIMIT <= self.step_out(x) <= MAG_LIMIT
    }

    /// A step succeeds unless an enabled stage would leave the range.
    pub open spec fn step_ok(self, x: int) -> bool {
        !self.enabled() || self.step_fits(x)
    }

    /// The stage after one successful step: a disabled stage is untouched,
    /// an enabled one keeps its configuration and updates its memory.
    pub open spec fn step_state(self, x: int) -> FilterStage {
        if !self.enabled() {
            self
        } else {
            FilterStage { band: self.step_band(x) as i64, low: self.step_low(x) as i64, ..self }
        }
    }

    /// The value one successful step hands on.
    pub open spec fn step_value(self, x: int) -> int {
        if !self.enabled() {
            x
        } else {
            self.step_out(x)
        }
    }

    /// A configuration the stage accepts: a positive sample rate, a cutoff
    /// strictly below Nyquist or the disabling sentinel 0, and a coefficient
    /// within range.
    pub open spec fn config_valid(sample_rate: int, cutoff: int, g_micro: int) -> bool {
        &&& sample_rate >= 1
        &&& 0 <= cutoff
        &&& (cutoff == 0 || 2 * cutoff < sample_rate)
        &&& 0 <= g_micro <= COEFF_LIMIT
    }

    /// A disabled stage with cleared memory.
    pub fn new_disabled() -> (r: FilterStage)
        ensures
            r == (FilterStage {
                kind: FilterKind::Lowpass,
                cutoff: 0,
                sample_rate: 1000,
                g_micro: 0,
                band: 0,
                low: 0,
            }),
            r.wf(),
            !r.enabled(),
    {
        FilterStage { kind: FilterKind::Lowpass, cutoff: 0, sample_rate: 1000, g_micro: 0, band: 0, low: 0 }
    }

    /// Reconfigure the stage. The accumulators are preserved in every case,
    /// so a reconfigured filter continues from its prior transient state; a
    /// cutoff at or above Nyquist, a negative cutoff, a non-positive sample
    /// rate or a coefficient out of range is refused and changes nothing.
    pub fn set(&mut self, kind: FilterKind, sample_rate: i32, cutoff: i32, g_micro: i64) -> (r: Result<(), SignalError>)
        requires
            old(self).wf(),
        ensures
            final(self).wf(),
            final(self).band == old(self).band,
            final(self).low == old(self).low,
            r is Ok <==> Self::config_valid(sample_rate as int, cutoff as int, g_micro as int),
            r is Ok ==> *final(self) == (FilterStage {
                kind,
                cutoff,
                sample_rate,
                g_micro,
                band: old(self).band,
                low: old(self).low,
            }),
            r is Err ==> *final(self) == *old(self) && r == Err::<(), SignalError>(
                SignalError::FilterConfigError,
            ),
    {
        if sample_rate < 1 || cutoff < 0 || g_micro < 0 || g_micro > COEFF_LIMIT {
            return Err(SignalError::FilterConfigError);
        }
        if cutoff != 0 && 2 * (cutoff as i64) >= sample_rate as i64 {
            return Err(SignalError::FilterConfigError);
        }
        self.kind = kind;
        self.cutoff = cutoff;
        self.sample_rate = sample_rate;
        self.g_micro = g_micro;
        Ok(())
    }

    /// Push one input through the stage: integrate the trapezoidal
    /// recurrence over the two accumulators and emit the configured output.
    /// A disabled stage hands the input back untouched; an enabled step that
    /// would leave the fixed-point range is refused and changes nothing.
    pub fn step(&mut self, input: i64) -> (r: Result<i64, SignalError>)
        requires
            old(self).wf(),
            -MAG_LIMIT <= input <= MAG_LIMIT,
        ensures
            final(self).wf(),
            r is Ok <==> old(self).step_ok(input as int),
            r is Ok ==> *final(self) == old(self).step_state(input as int),
            r matches Ok(v) ==> v as int == old(self).step_value(input as int) && -MAG_LIMIT <= v
                <= MAG_LIMIT,
            r is Err ==> *final(self) == *old(self) && r == Err::<i64, SignalError>(
                SignalError::ValueOutOfRange,
            ),
    {
        if self.cutoff == 0 {
            return Ok(input);
        }
        let g: i128 = self.g_micro as i128;
        let b0: i128 = self.band as i128;
        let l0: i128 = self.low as i128;
        let x: i128 = input as i128;
        let t1: i128 = tdiv128(771_000 * b0, 1_000_000);
        proof {
            lemma_tdiv_bound(771_000 * (b0 as int), 1_000_000, 771_000_000_000_000);
        }
        let mid: i128 = x - t1 - l0;
        proof {
            assert((g as int) * (mid as int) <= 3_000_000_000_000_000_000_000_000_000
                && (g as int) * (mid as int) >= -3_000_000_000_000_000_000_000_000_000)
                by (nonlinear_arith)
                requires
                    0 <= g <= 1_000_000_000_000,
                    -3_000_000_000_000_000 <= mid <= 3_000_000_000_000_000,
            ;
        }
        let t2: i128 = tdiv128(g * mid, 1_000_000);
        proof {
            lemma_tdiv_bound((g as int) * (mid as int), 1_000_000, 3_000_000_000_000_000_000_000);
        }
        let b1: i128 = b0 + t2;
        proof {
            assert((g as int) * (b1 as int) <= 4_000_000_000_000_000_000_000_000_000_000_000
                && (g as int) * (b1 as int) >= -4_000_000_000_000_000_000_000_000_000_000_000)
                by (nonlinear_arith)
                requires
                    0 <= g <= 1_000_000_000_000,
                    -4_000_000_000_000_000_000_000 <= b1 <= 4_000_000_000_000_000_000_000,
            ;
        }
        let t3: i128 = tdiv128(g * b1, 1_000_000);
        proof {
            lemma_tdiv_bound((g as int) * (b1 as int), 1_000_000, 4_000_000_000_000_000_000_000_000_000);
        }
        let l1: i128 = l0 + t3;
        let t4: i128 = tdiv128(771_000 * b1, 1_000_000);
        proof {
            lemma_tdiv_bound(771_000 * (b1 as int), 1_000_000, 4_000_000_000_000_000_000_000_000_000);
        }
        let out: i128 = match self.kind {
            FilterKind::Lowpass => l1,
            FilterKind::Highpass => x - t4 - l1,
        };
        let lim: i128 = MAG_LIMIT as i128;
        if b1 < -lim || b1 > lim || l1 < -lim || l1 > lim || out < -lim || out > lim {
            return Err(SignalError::ValueOutOfRange);
        }
        proof {
            assert(b1 as int == old(self).step_band(input as int));
            assert(l1 as int == old(self).step_low(input as int));
            assert(out as int == old(self).step_out(input as int));
        }
        self.band = b1 as i64;
        self.low = l1 as i64;
        Ok(out as i64)
    }
}

/// The settled state of an enabled lowpass stage — band 0 and low equal to
/// the input — is a fixed point: one more step returns the input exactly
/// and leaves the memory unchanged. Once the transient settles on a
/// constant input, a lowpass passes it through.
pub proof fn lemma_lowpass_steady_state(st: FilterStage, x: int)
    requires
        st.wf(),
        st.kind == FilterKind::Lowpass,
        st.enabled(),
        st.band == 0,
        st.low == x,
        -MAG_LIMIT <= x <= MAG_LIMIT,
    ensures
        st.step_ok(x),
        st.step_value(x) == x,
        st.step_state(x) == st,
{
    assert(tdiv(DAMPING_MICRO * 0, SCALE as int) == 0);
    assert(st.mid_of(x, 0, x) == 0);
    assert(st.g_micro * 0 == 0);
    assert(tdiv(0, SCALE as int) == 0);
    assert(st.step_band(x) == 0);
    assert(st.step_low(x) == x);
}

/// The same settled state of an enabled highpass stage is a fixed point
/// that emits exactly 0: a settled highpass removes a constant input.
pub proof fn lemma_highpass_steady_state(st: FilterStage, x: int)
    requires
        st.wf(),
        st.kind == FilterKind::Highpass,
        st.enabled(),
        st.band == 0,
        st.low == x,
        -MAG_LIMIT <= x <= MAG_LIMIT,
    ensures
        st.step_ok(x),
        st.step_value(x) == 0,
        st.step_state(x) == st,
{
    assert(tdiv(DAMPING_MICRO * 0, SCALE as int) == 0);
    assert(st.mid_of(x, 0, x) == 0);
    assert(st.g_micro * 0 == 0);
    assert(tdiv(0, SCALE as int) == 0);
    assert(st.step_band(x) == 0);
    assert(st.step_low(x) == x);
    assert(st.step_out(x) == st.mid_of(x, 0, x));
}

} // verus!
