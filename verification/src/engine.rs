use vstd::prelude::*;
use rand::rngs::ThreadRng;
use crate::cursor::advance;
use crate::cursor::advance_index;
use crate::errors::SignalError;
use crate::filter::FilterKind;
use crate::filter::FilterStage;
use crate::fixed::MAG_LIMIT;
use crate::fixed::SCALE;
use crate::fixed::quant_spec;
use crate::fixed::quantize;
use crate::loader::csv_first_fields;
use crate::loader::extract_first_fields;
use crate::loader::field_views;
use crate::loader::fields_valid;
use crate::loader::parse_fields;
use crate::loader::raw_seq;
use crate::noise::apply_noise;
use crate::noise::draw_unit_micro;
use crate::noise::fresh_rng;
use crate::noise::noise_term;
use crate::normalize::norm_spec;
use crate::normalize::normalize_samples;
use crate::normalize::seq_max;
use crate::normalize::seq_min;
use crate::parse::micro_value;

verus! {

/// One value leaving the pipeline: a plain fixed-point sample, or the
/// quantizer's integer when quantization mode is on.
#[derive(Clone, Copy, Debug, PartialEq, Eq, Structural)]
pub enum TickValue {
    Analog(i64),
    Quantized(i64),
}

/// The engine: the normalized sample buffer, the playback cursor, the tick
/// period, the decimation count, the two filter stages, the noise source
/// with its level, and the output mode. The surrounding binary owns the
/// socket and the timer and calls `get_next_data` once per tick.
pub struct Signal {
    /// The normalized sample buffer, every value in [-1, 1].
    pub signal_data: Vec<i64>,
    /// The playback cursor, always inside the buffer once one is loaded.
    pub signal_index: usize,
    /// The tick period in whole milliseconds.
    pub ms_delay: i32,
    /// How many samples each tick skips past.
    pub skip_n: usize,
    /// Quantization mode: integers 0..1000 instead of [-1, 1] samples.
    pub int_mode: bool,
    /// The first filter stage of each tick, configured as the lowpass.
    pub lp_filter: FilterStage,
    /// The second filter stage of each tick, configured as the highpass.
    pub hp_filter: FilterStage,
    /// The noise level in percent.
    pub noise_level: i32,
    /// The process-lifetime noise source.
    pub rng: ThreadRng,
}

impl Signal {
    /// Both filter stages are well formed, the buffer is normalized, and
    /// the cursor is inside the buffer whenever one is loaded.
    pub open spec fn wf(self) -> bool {
        &&& self.lp_filter.wf()
        &&& self.hp_filter.wf()
        &&& forall|i: int|
            0 <= i < self.signal_data@.len() ==> -SCALE <= #[trigger] self.signal_data@[i]
                <= SCALE
        &&& (self.signal_data@.len() > 0 ==> (self.signal_index as int) < self.signal_data@.len())
    }

    /// A fresh engine: an empty buffer, the cursor at 0, the default tick
    /// period of 5 ms (200 samples per second), no decimation, quantization
    /// on, both filter stages disabled with cleared memory, and no noise.
    pub fn new() -> (s: Signal)
        ensures
            s.wf(),
            s.signal_data@.len() == 0,
            s.signal_index == 0,
            s.ms_delay == 5,
            s.skip_n == 0,
            s.int_mode == true,
            s.noise_level == 0,
            !s.lp_filter.enabled(),
            s.lp_filter.band == 0 && s.lp_filter.low == 0,
            !s.hp_filter.enabled(),
            s.hp_filter.band == 0 && s.hp_filter.low == 0,
    {
        Signal {
            signal_data: Vec::new(),
            signal_index: 0,
            ms_delay: 5,
            skip_n: 0,
            int_mode: true,
            lp_filter: FilterStage::new_disabled(),
            hp_filter: FilterStage::new_disabled(),
            noise_level: 0,
            rng: fresh_rng(),
        }
    }

    /// Configure the lowpass stage; the coefficient is the fixed-point
    /// tan(pi * cutoff / sample_f), derived by the caller. The stage's
    /// memory survives reconfiguration; an invalid configuration is refused
    /// and changes nothing.
    pub fn set_lp_filter(&mut self, sample_f: i32, cutoff: i32, g_micro: i64) -> (r: Result<
        (),
        SignalError,
    >)
        requires
            old(self).wf(),
        ensures
            final(self).wf(),
            r is Ok <==> FilterStage::config_valid(sample_f as int, cutoff as int, g_micro as int),
            r is Ok ==> *final(self) == (Signal {
                lp_filter: (FilterStage {
                    kind: FilterKind::Lowpass,
                    cutoff,
                    sample_rate: sample_f,
                    g_micro,
                    band: old(self).lp_filter.band,
                    low: old(self).lp_filter.low,
                }),
                ..*old(self)
            }),
            r is Err ==> *final(self) == *old(self) && r == Err::<(), SignalError>(
                SignalError::FilterConfigError,
            ),
    {
        self.lp_filter.set(FilterKind::Lowpass, sample_f, cutoff, g_micro)
    }

    /// Configure the highpass stage; as for the lowpass, the memory
    /// survives and an invalid configuration is refused.
    pub fn set_hp_filter(&mut self, sample_f: i32, cutoff: i32, g_micro: i64) -> (r: Result<
        (),
        SignalError,
    >)
        requires
            old(self).wf(),
        ensures
            final(self).wf(),
            r is Ok <==> FilterStage::config_valid(sample_f as int, cutoff as int, g_micro as int),
            r is Ok ==> *final(self) == (Signal {
                hp_filter: (FilterStage {
                    kind: FilterKind::Highpass,
                    cutoff,
                    sample_rate: sample_f,
                    g_micro,
                    band: old(self).hp_filter.band,
                    low: old(self).hp_filter.low,
                }),
                ..*old(self)
            }),
            r is Err ==> *final(self) == *old(self) && r == Err::<(), SignalError>(
                SignalError::FilterConfigError,
            ),
    {
        self.hp_filter.set(FilterKind::Highpass, sample_f, cutoff, g_micro)
    }

    /// Set the noise level in percent; 0 silences the noise stage.
    pub fn set_noise(&mut self, noise_level: i32)
        requires
            old(self).wf(),
        ensures
            final(self).wf(),
            *final(self) == (Signal { noise_level, ..*old(self) }),
    {
        self.noise_level = noise_level;
    }

    /// Set the sample rate: the tick period becomes 1000 / rate whole
    /// milliseconds, truncated, so rates that do not divide 1000 round the
    /// period down, and rates above 1000 truncate it to 0.
    pub fn set_sample_f(&mut self, sample_f: i32)
        requires
            old(self).wf(),
            sample_f >= 1,
        ensures
            final(self).wf(),
            final(self).ms_delay as int == 1000int / (sample_f as int),
            *final(self) == (Signal { ms_delay: final(self).ms_delay, ..*old(self) }),
    {
        self.ms_delay = 1000 / sample_f;
    }

    /// Set how many samples each tick skips past.
    pub fn set_skip_n(&mut self, n: usize)
        requires
            old(self).wf(),
        ensures
            final(self).wf(),
            *final(self) == (Signal { skip_n: n, ..*old(self) }),
    {
        self.skip_n = n;
    }

    /// Choose between plain samples and quantized integers.
    pub fn set_int_mode(&mut self, int_mode: bool)
        requires
            old(self).wf(),
        ensures
            final(self).wf(),
            *final(self) == (Signal { int_mode, ..*old(self) }),
    {
        self.int_mode = int_mode;
    }

    /// The tick period in whole milliseconds.
    pub fn get_ms_delay(&self) -> (r: i32)
        ensures
            r == self.ms_delay,
    {
        self.ms_delay
    }

    /// Does the loader accept this batch of fields? Every field must parse,
    /// there must be at least one, and the raw samples must not all be equal.
    pub open spec fn load_accepts(fs: Seq<Seq<u8>>) -> bool {
        &&& fields_valid(fs)
        &&& fs.len() > 0
        &&& seq_min(raw_seq(fs)) < seq_max(raw_seq(fs))
    }

    /// The error a refused batch earns: an unparsable field first, then
    /// emptiness, then a degenerate range.
    pub open spec fn load_error(fs: Seq<Seq<u8>>) -> SignalError {
        if !fields_valid(fs) {
            SignalError::ParseError
        } else if fs.len() == 0 {
            SignalError::EmptyInput
        } else {
            SignalError::DegenerateRange
        }
    }

    /// After a successful load of `fs`: the buffer holds the normalized
    /// samples of `fs` in order, playback restarts at 0, and everything
    /// else is untouched.
    pub open spec fn loaded_from(pre: Signal, post: Signal, fs: Seq<Seq<u8>>) -> bool {
        &&& post.signal_data@.len() == fs.len()
        &&& forall|i: int|
            0 <= i < fs.len() ==> #[trigger] post.signal_data@[i] as int == norm_spec(
                micro_value(fs[i]),
                seq_min(raw_seq(fs)),
                seq_max(raw_seq(fs)),
            )
        &&& post.signal_index == 0
        &&& post.ms_delay == pre.ms_delay
        &&& post.skip_n == pre.skip_n
        &&& post.int_mode == pre.int_mode
        &&& post.noise_level == pre.noise_level
        &&& post.lp_filter == pre.lp_filter
        &&& post.hp_filter == pre.hp_filter
    }

    /// Parse and normalize a batch of record fields and install them as the
    /// sample buffer, restarting playback at its head. A batch with an
    /// unparsable field, no records, or a constant value is refused with
    /// the matching error, leaving the engine untouched.
    pub fn load_from_fields(&mut self, fields: &Vec<Vec<u8>>) -> (r: Result<(), SignalError>)
        requires
            old(self).wf(),
        ensures
            final(self).wf(),
            r is Ok <==> Self::load_accepts(field_views(fields@)),
            r is Ok ==> Self::loaded_from(*old(self), *final(self), field_views(fields@)),
            r is Err ==> *final(self) == *old(self) && r == Err::<(), SignalError>(
                Self::load_error(field_views(fields@)),
            ),
    {
        let ghost fs = field_views(fields@);
        proof {
            assert(fs.len() == fields@.len());
            assert(forall|i: int| 0 <= i < fields@.len() ==> fs[i] == #[trigger] fields@[i]@);
        }
        let raws = match parse_fields(fields) {
            Ok(v) => v,
            Err(e) => {
                return Err(e);
            },
        };
        proof {
            assert(raws@ =~= raw_seq(fs));
        }
        let w = match normalize_samples(&raws) {
            Ok(v) => v,
            Err(e) => {
                return Err(e);
            },
        };
        self.signal_data = w;
        self.signal_index = 0;
        Ok(())
    }

    /// Load the sample buffer from the raw bytes of a csv file: the first
    /// field of every record after the header row is parsed and the batch
    /// normalized, as in `load_from_fields`; bytes the csv reader refuses
    /// earn a parse error.
    pub fn load_csv_bytes(&mut self, data: &[u8]) -> (r: Result<(), SignalError>)
        requires
            old(self).wf(),
        ensures
            final(self).wf(),
            csv_first_fields(data@) is None ==> r == Err::<(), SignalError>(
                SignalError::ParseError,
            ) && *final(self) == *old(self),
            csv_first_fields(data@) matches Some(fs) ==> {
                &&& (r is Ok <==> Self::load_accepts(fs))
                &&& (r is Ok ==> Self::loaded_from(*old(self), *final(self), fs))
                &&& (r is Err ==> *final(self) == *old(self) && r == Err::<(), SignalError>(
                    Self::load_error(fs),
                ))
            },
    {
        match extract_first_fields(data) {
            Some(fields) => self.load_from_fields(&fields),
            None => Err(SignalError::ParseError),
        }
    }

    /// The sample under the cursor with one draw of noise added.
    pub open spec fn tick_noised(self, u: int) -> int {
        self.signal_data@[self.signal_index as int] + noise_term(u, self.noise_level as int)
    }

    /// The outcome of one tick with draw `u`: the lowpass and highpass
    /// states after the tick, and the produced value — or the range error
    /// when a filter step would leave the fixed-point range, in which case
    /// the failing stage and everything after it stay untouched.
    pub open spec fn tick_spec(self, u: int) -> (FilterStage, FilterStage, Result<
        TickValue,
        SignalError,
    >) {
        let x = self.tick_noised(u);
        if !self.lp_filter.step_ok(x) {
            (self.lp_filter, self.hp_filter, Err(SignalError::ValueOutOfRange))
        } else {
            let lp2 = self.lp_filter.step_state(x);
            let y = self.lp_filter.step_value(x);
            if !self.hp_filter.step_ok(y) {
                (lp2, self.hp_filter, Err(SignalError::ValueOutOfRange))
            } else {
                let hp2 = self.hp_filter.step_state(y);
                let z = self.hp_filter.step_value(y);
                let v = if self.int_mode {
                    TickValue::Quantized(quant_spec(z) as i64)
                } else {
                    TickValue::Analog(z as i64)
                };
                (lp2, hp2, Ok(v))
            }
        }
    }

    /// What one tick establishes, given the draw `u` the noise source
    /// produced: the filters move to their post states and the result is
    /// the pipeline's value.
    pub open spec fn tick_rel(pre: Signal, post: Signal, r: Result<TickValue, SignalError>, u: int) -> bool {
        &&& 0 <= u < SCALE
        &&& post.lp_filter == pre.tick_spec(u).0
        &&& post.hp_filter == pre.tick_spec(u).1
        &&& r == pre.tick_spec(u).2
    }

    /// With the noise level at 0, the draw does not matter: every tick is
    /// deterministic, and the noise stage hands its input on exactly.
    pub proof fn lemma_quiet_tick_ignores_draw(self, u1: int, u2: int)
        requires
            self.noise_level == 0,
            self.signal_data@.len() > 0,
            self.signal_index < self.signal_data@.len(),
        ensures
            self.tick_noised(u1) == self.signal_data@[self.signal_index as int],
            self.tick_spec(u1) == self.tick_spec(u2),
    {
        assert((2 * u1 - SCALE) * 0 == 0);
        assert((2 * u2 - SCALE) * 0 == 0);
        assert(crate::fixed::tdiv(0, 100) == 0);
    }

    /// Produce the next value: fetch the sample under the cursor, advance
    /// the cursor by one plus the decimation count (wrapping at the end of
    /// the buffer), add one draw of noise, run the lowpass then the
    /// highpass, and quantize when the mode asks for integers. The draw is
    /// consumed whatever the noise level. Skipped samples are never read.
    pub fn get_next_data(&mut self) -> (r: Result<TickValue, SignalError>)
        requires
            old(self).wf(),
            old(self).signal_data@.len() > 0,
        ensures
            final(self).wf(),
            final(self).signal_data == old(self).signal_data,
            final(self).signal_index as int == advance_index(
                old(self).signal_index as int,
                old(self).skip_n as int,
                old(self).signal_data@.len() as int,
            ),
            final(self).ms_delay == old(self).ms_delay,
            final(self).skip_n == old(self).skip_n,
            final(self).int_mode == old(self).int_mode,
            final(self).noise_level == old(self).noise_level,
            exists|u: int| Self::tick_rel(*old(self), *final(self), r, u),
    {
        let len = self.signal_data.len();
        let x0 = self.signal_data[self.signal_index];
        self.signal_index = advance(self.signal_index, self.skip_n, len);
        let draw = draw_unit_micro(&mut self.rng);
        let noised = apply_noise(x0, draw, self.noise_level);
        let y = match self.lp_filter.step(noised) {
            Ok(v) => v,
            Err(e) => {
                proof {
                    assert(Self::tick_rel(
                        *old(self),
                        *self,
                        Err::<TickValue, SignalError>(SignalError::ValueOutOfRange),
                        draw as int,
                    ));
                }
                return Err(e);
            },
        };
        let z = match self.hp_filter.step(y) {
            Ok(v) => v,
            Err(e) => {
                proof {
                    assert(Self::tick_rel(
                        *old(self),
                        *self,
                        Err::<TickValue, SignalError>(SignalError::ValueOutOfRange),
                        draw as int,
                    ));
                }
                return Err(e);
            },
        };
        let out = if self.int_mode {
            TickValue::Quantized(quantize(z))
        } else {
            TickValue::Analog(z)
        };
        proof {
            assert(Self::tick_rel(
                *old(self),
                *self,
                Ok::<TickValue, SignalError>(out),
                draw as int,
            ));
        }
        Ok(out)
    }
}

} // verus!
