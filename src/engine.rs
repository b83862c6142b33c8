use crate::frame::{
    checksum_spec, classify_pulse, decode_frame, decode_spec, frame_of_bits, lemma_frame_of_no_bits,
    lemma_frame_push, pulse_spec, DhtError, DhtReading, FRAME_BITS, PULSE_CAP_US,
};
use vstd::prelude::*;

verus! {

/// The phase of a read that the engine is in, after the start signal.
#[derive(Debug, Clone, Copy, PartialEq, Eq, Structural)]
pub enum Phase {
    /// Waiting for the sensor to pull the line low in response.
    ResponseLow,
    /// Waiting for the sensor to release the line high.
    ResponseHigh,
    /// Waiting for the line to go low at the start of the first data bit.
    DataStart,
    /// Waiting for the low sync pulse before a bit to end.
    BitSync,
    /// Timing the high pulse that carries a bit.
    BitMeasure,
}

impl Phase {
    /// The level that ends a waiting phase: `true` for high.
    pub open spec fn spec_awaits_high(self) -> bool {
        match self {
            Phase::ResponseLow => false,
            Phase::ResponseHigh => true,
            Phase::DataStart => false,
            Phase::BitSync => true,
            Phase::BitMeasure => false,
        }
    }

    /// The longest the phase may wait for its transition, in microseconds.
    pub open spec fn spec_bound_us(self) -> u64 {
        match self {
            Phase::ResponseLow => 60,
            Phase::ResponseHigh => 100,
            Phase::DataStart => 100,
            Phase::BitSync => 80,
            Phase::BitMeasure => PULSE_CAP_US,
        }
    }

    /// The phase that follows a waiting phase once its transition is seen.
    pub open spec fn spec_next(self) -> Phase {
        match self {
            Phase::ResponseLow => Phase::ResponseHigh,
            Phase::ResponseHigh => Phase::DataStart,
            Phase::DataStart => Phase::BitSync,
            Phase::BitSync => Phase::BitMeasure,
            Phase::BitMeasure => Phase::BitSync,
        }
    }

    /// The level that ends this phase: `true` for high.
    #[verifier::when_used_as_spec(spec_awaits_high)]
    pub fn awaits_high(self) -> (r: bool)
        ensures
            r == self.spec_awaits_high(),
    {
        match self {
            Phase::ResponseLow => false,
            Phase::ResponseHigh => true,
            Phase::DataStart => false,
            Phase::BitSync => true,
            Phase::BitMeasure => false,
        }
    }

    /// The bound of this phase, in microseconds.
    #[verifier::when_used_as_spec(spec_bound_us)]
    pub fn bound_us(self) -> (r: u64)
        ensures
            r == self.spec_bound_us(),
    {
        match self {
            Phase::ResponseLow => 60,
            Phase::ResponseHigh => 100,
            Phase::DataStart => 100,
            Phase::BitSync => 80,
            Phase::BitMeasure => PULSE_CAP_US,
        }
    }

    /// The phase that follows this one.
    #[verifier::when_used_as_spec(spec_next)]
    pub fn next(self) -> (r: Phase)
        ensures
            r == self.spec_next(),
    {
        match self {
            Phase::ResponseLow => Phase::ResponseHigh,
            Phase::ResponseHigh => Phase::DataStart,
            Phase::DataStart => Phase::BitSync,
            Phase::BitSync => Phase::BitMeasure,
            Phase::BitMeasure => Phase::BitSync,
        }
    }
}

/// What the caller does after handing the engine one sample of the line.
#[derive(Debug, Clone, Copy)]
pub enum Step {
    /// Sample the line again; the phase's clock keeps running.
    Poll,
    /// The phase ended: restart the clock and sample the line again.
    NextPhase,
    /// The read is over, with this outcome.
    Done(Result<DhtReading, DhtError>),
}

/// The abstract state of a read: the phase reached, the bits received so far,
/// and the outcome once there is one.
pub struct ReadState {
    pub phase: Phase,
    pub bits: Seq<bool>,
    pub outcome: Option<Result<DhtReading, DhtError>>,
}

/// The state in which every read begins.
pub open spec fn initial_state() -> ReadState {
    ReadState { phase: Phase::ResponseLow, bits: Seq::empty(), outcome: None }
}

/// The states a read can be in: no bit before the handshake is over, at most
/// one frame of bits, and an outcome that is a timeout unless the whole frame
/// came, in which case it is the frame's decoding.
pub open spec fn state_ok(s: ReadState) -> bool {
    &&& s.bits.len() <= FRAME_BITS
    &&& (s.phase == Phase::ResponseLow || s.phase == Phase::ResponseHigh || s.phase
        == Phase::DataStart) ==> s.bits.len() == 0
    &&& s.outcome.is_none() ==> s.bits.len() < FRAME_BITS
    &&& s.outcome.is_some() ==> if s.bits.len() == FRAME_BITS {
        s.outcome == Some(decode_spec(frame_of_bits(s.bits)))
    } else {
        s.outcome == Some(Err::<DhtReading, DhtError>(DhtError::Timeout))
    }
}

/// The state `s` with the read ended by a timeout.
pub open spec fn timed_out(s: ReadState) -> (ReadState, Step) {
    (
        ReadState { outcome: Some(Err(DhtError::Timeout)), ..s },
        Step::Done(Err(DhtError::Timeout)),
    )
}

/// What one sample does: the line is high when `line_high` holds, and
/// `elapsed_us` microseconds have passed since the current phase began.
///
/// A waiting phase ends when the line reaches its level, and times out when it
/// has not after more than the phase's bound. The bit pulse ends when the line
/// goes low, its length giving the bit, and times out at 100 us. The fortieth
/// bit ends the read with the frame's decoding. Once the read is over, further
/// samples change nothing.
pub open spec fn step_spec(s: ReadState, line_high: bool, elapsed_us: u64) -> (ReadState, Step) {
    if s.outcome.is_some() {
        (s, Step::Done(s.outcome.unwrap()))
    } else if s.phase == Phase::BitMeasure {
        if line_high {
            if elapsed_us >= PULSE_CAP_US {
                timed_out(s)
            } else {
                (s, Step::Poll)
            }
        } else {
            match pulse_spec(elapsed_us) {
                Err(_) => timed_out(s),
                Ok(bit) => {
                    let bits = s.bits.push(bit);
                    if bits.len() == FRAME_BITS {
                        let o = decode_spec(frame_of_bits(bits));
                        (ReadState { phase: s.phase, bits, outcome: Some(o) }, Step::Done(o))
                    } else {
                        (ReadState { phase: Phase::BitSync, bits, outcome: None }, Step::NextPhase)
                    }
                },
            }
        }
    } else if line_high == s.phase.spec_awaits_high() {
        (ReadState { phase: s.phase.spec_next(), ..s }, Step::NextPhase)
    } else if elapsed_us > s.phase.spec_bound_us() {
        timed_out(s)
    } else {
        (s, Step::Poll)
    }
}

/// The protocol engine for one sensor: it turns samples of the line, taken
/// after the start signal, into a validated reading or a failure.
///
/// The caller drives the line low for 20 ms and releases it, calls `start`,
/// and then, inside a region that nothing may preempt, samples the line and
/// hands each sample to `step` until it returns `Step::Done`.
pub struct Dht11 {
    phase: Phase,
    bits_read: usize,
    frame: [u8; 5],
    outcome: Option<Result<DhtReading, DhtError>>,
    bits: Ghost<Seq<bool>>,
}

impl View for Dht11 {
    type V = ReadState;

    closed spec fn view(&self) -> ReadState {
        ReadState { phase: self.phase, bits: self.bits@, outcome: self.outcome }
    }
}

impl Dht11 {
    /// The engine's fields agree with its abstract state.
    pub closed spec fn wf(&self) -> bool {
        &&& state_ok(self@)
        &&& self.bits_read == self.bits@.len()
        &&& self.frame@ == frame_of_bits(self.bits@)
    }

    /// An engine ready for a read.
    pub fn new() -> (r: Dht11)
        ensures
            r.wf(),
            r@ == initial_state(),
    {
        proof {
            lemma_frame_of_no_bits();
        }
        let r = Dht11 {
            phase: Phase::ResponseLow,
            bits_read: 0,
            frame: [0u8; 5],
            outcome: None,
            bits: Ghost(Seq::empty()),
        };
        assert(r.frame@ =~= frame_of_bits(Seq::empty()));
        r
    }

    /// Begins a new read: nothing of an earlier read is kept.
    pub fn start(&mut self)
        ensures
            final(self).wf(),
            final(self)@ == initial_state(),
    {
        *self = Dht11::new();
    }

    /// The phase reached; after a timeout, the phase that timed out.
    pub fn phase(&self) -> (r: Phase)
        ensures
            r == self@.phase,
    {
        self.phase
    }

    /// The outcome of the read, once it is over.
    pub fn outcome(&self) -> (r: Option<Result<DhtReading, DhtError>>)
        ensures
            r == self@.outcome,
    {
        self.outcome
    }

    /// The frame received so far, most significant bit first; once the read
    /// has ended with a checksum mismatch, the whole raw frame.
    pub fn frame(&self) -> (r: [u8; 5])
        requires
            self.wf(),
        ensures
            r@ == frame_of_bits(self@.bits),
    {
        self.frame
    }

    /// Hands the engine one sample: the line is high when `line_high` holds,
    /// and `elapsed_us` microseconds have passed since the current phase
    /// began.
    pub fn step(&mut self, line_high: bool, elapsed_us: u64) -> (r: Step)
        requires
            old(self).wf(),
        ensures
            final(self).wf(),
            (final(self)@, r) == step_spec(old(self)@, line_high, elapsed_us),
    {
        if let Some(o) = self.outcome {
            return Step::Done(o);
        }
        if self.phase == Phase::BitMeasure {
            if line_high {
                if elapsed_us >= PULSE_CAP_US {
                    self.outcome = Some(Err(DhtError::Timeout));
                    Step::Done(Err(DhtError::Timeout))
                } else {
                    Step::Poll
                }
            } else {
                match classify_pulse(elapsed_us) {
                    Err(e) => {
                        self.outcome = Some(Err(e));
                        Step::Done(Err(e))
                    },
                    Ok(bit) => {
                        proof {
                            lemma_frame_push(self.bits@, bit);
                        }
                        let j = self.bits_read / 8;
                        let v = self.frame[j];
                        self.frame[j] = 2 * v + if bit {
                            1
                        } else {
                            0
                        };
                        self.bits_read = self.bits_read + 1;
                        self.bits = Ghost(self.bits@.push(bit));
                        if self.bits_read == FRAME_BITS {
                            let o = decode_frame(&self.frame);
                            self.outcome = Some(o);
                            Step::Done(o)
                        } else {
                            self.phase = Phase::BitSync;
                            Step::NextPhase
                        }
                    },
                }
            }
        } else if line_high == self.phase.awaits_high() {
            self.phase = self.phase.next();
            Step::NextPhase
        } else if elapsed_us > self.phase.bound_us() {
            self.outcome = Some(Err(DhtError::Timeout));
            Step::Done(Err(DhtError::Timeout))
        } else {
            Step::Poll
        }
    }
}

/// The state after a sequence of samples, each a line level (`true` for high)
/// and the microseconds elapsed in the current phase.
pub open spec fn run_spec(s: ReadState, samples: Seq<(bool, u64)>) -> ReadState
    decreases samples.len(),
{
    if samples.len() == 0 {
        s
    } else {
        run_spec(step_spec(s, samples[0].0, samples[0].1).0, samples.drop_first())
    }
}

/// Whether `elapsed_us` lies past the bound of phase `p`: beyond it for a
/// waiting phase, at or beyond it for the bit pulse.
pub open spec fn past_bound(p: Phase, elapsed_us: u64) -> bool {
    if p == Phase::BitMeasure {
        elapsed_us >= p.spec_bound_us()
    } else {
        elapsed_us > p.spec_bound_us()
    }
}

/// One sample keeps a read in the states it can be in.
pub proof fn lemma_step_state_ok(s: ReadState, line_high: bool, elapsed_us: u64)
    requires
        state_ok(s),
    ensures
        state_ok(step_spec(s, line_high, elapsed_us).0),
{
}

/// While the line has not reached the level that ends the current phase, a
/// sample within the phase's bound keeps the engine polling in that phase, and
/// one past the bound ends the read with a timeout, with the engine left in
/// the phase that timed out and no bit added.
pub proof fn lemma_phase_timeout(s: ReadState, elapsed_us: u64)
    requires
        state_ok(s),
        s.outcome.is_none(),
    ensures
        ({
            let (t, r) = step_spec(s, !s.phase.spec_awaits_high(), elapsed_us);
            if past_bound(s.phase, elapsed_us) {
                &&& r == Step::Done(Err(DhtError::Timeout))
                &&& t.outcome == Some(Err::<DhtReading, DhtError>(DhtError::Timeout))
                &&& t.phase == s.phase
                &&& t.bits == s.bits
            } else {
                &&& r == Step::Poll
                &&& t == s
            }
        }),
{
}

/// Whatever the line does, a read never yields a reading unless all forty
/// bits came and the checksum holds; the reading is then the humidity and
/// temperature bytes of that frame. Every other outcome is a failure.
pub proof fn lemma_no_partial_result(samples: Seq<(bool, u64)>)
    ensures
        ({
            let t = run_spec(initial_state(), samples);
            let f = frame_of_bits(t.bits);
            &&& state_ok(t)
            &&& forall|x: DhtReading|
                t.outcome == Some(Ok::<DhtReading, DhtError>(x)) ==> {
                    &&& t.bits.len() == FRAME_BITS
                    &&& checksum_spec(f) == f[4] as int
                    &&& x == DhtReading { temperature: f[2], humidity: f[0] }
                }
        }),
{
    lemma_run_state_ok(initial_state(), samples);
}

/// A run of samples keeps a read in the states it can be in.
pub proof fn lemma_run_state_ok(s: ReadState, samples: Seq<(bool, u64)>)
    requires
        state_ok(s),
    ensures
        state_ok(run_spec(s, samples)),
    decreases samples.len(),
{
    if samples.len() > 0 {
        lemma_step_state_ok(s, samples[0].0, samples[0].1);
        lemma_run_state_ok(step_spec(s, samples[0].0, samples[0].1).0, samples.drop_first());
    }
}

/// Two reads that each begin with `start` and see the same line behave the
/// same: whatever came before, they end in the same state with the same
/// outcome.
pub proof fn lemma_repeat_read(a: ReadState, b: ReadState, samples: Seq<(bool, u64)>)
    requires
        a == initial_state(),
        b == initial_state(),
    ensures
        run_spec(a, samples) == run_spec(b, samples),
{
}

/// The handshake of a sensor that answers promptly: response low, release
/// high, data start low.
pub open spec fn handshake_samples() -> Seq<(bool, u64)> {
    seq![(false, 20), (true, 80), (false, 50)]
}

/// One bit sent with nominal timing: the sync pulse ends after 50 us, then
/// the line stays high for 28 us for a `0` or 70 us for a `1`.
pub open spec fn bit_samples(b: bool) -> Seq<(bool, u64)> {
    seq![(true, 50), (false, if b { 70 } else { 28 })]
}

/// The bits of `bits`, in order, sent with nominal timing.
pub open spec fn bits_samples(bits: Seq<bool>) -> Seq<(bool, u64)>
    decreases bits.len(),
{
    if bits.len() == 0 {
        Seq::empty()
    } else {
        bits_samples(bits.drop_last()) + bit_samples(bits.last())
    }
}

/// Running two sequences of samples one after the other is running their
/// concatenation.
pub proof fn lemma_run_concat(s: ReadState, a: Seq<(bool, u64)>, b: Seq<(bool, u64)>)
    ensures
        run_spec(s, a + b) == run_spec(run_spec(s, a), b),
    decreases a.len(),
{
    if a.len() == 0 {
        assert(a + b =~= b);
    } else {
        lemma_run_concat(step_spec(s, a[0].0, a[0].1).0, a.drop_first(), b);
        assert((a + b).drop_first() =~= a.drop_first() + b);
    }
}

/// Running two samples is stepping twice.
proof fn lemma_run_two(s: ReadState, x: (bool, u64), y: (bool, u64))
    ensures
        run_spec(s, seq![x, y]) == step_spec(step_spec(s, x.0, x.1).0, y.0, y.1).0,
{
    let t = step_spec(s, x.0, x.1).0;
    assert(seq![x, y].drop_first() =~= seq![y]);
    assert(seq![y].drop_first() =~= Seq::<(bool, u64)>::empty());
    assert(run_spec(t, seq![y]) == run_spec(step_spec(t, y.0, y.1).0, Seq::empty()));
}

/// After the handshake, fewer than forty bits sent with nominal timing leave
/// the engine waiting for the next sync pulse with exactly those bits.
proof fn lemma_bits_prefix(bits: Seq<bool>)
    requires
        bits.len() < FRAME_BITS,
    ensures
        run_spec(ReadState { phase: Phase::BitSync, bits: Seq::empty(), outcome: None }, bits_samples(bits))
            == (ReadState { phase: Phase::BitSync, bits, outcome: None }),
    decreases bits.len(),
{
    let s0 = ReadState { phase: Phase::BitSync, bits: Seq::empty(), outcome: None };
    if bits.len() == 0 {
        assert(bits =~= Seq::<bool>::empty());
    } else {
        let init = bits.drop_last();
        lemma_bits_prefix(init);
        lemma_run_concat(s0, bits_samples(init), bit_samples(bits.last()));
        let mid = ReadState { phase: Phase::BitSync, bits: init, outcome: None };
        lemma_run_two(mid, bit_samples(bits.last())[0], bit_samples(bits.last())[1]);
        assert(init.push(bits.last()) =~= bits);
    }
}

/// A sensor that answers promptly and sends any forty bits with nominal
/// timing yields exactly the frame of those bits, most significant bit first,
/// and the read ends with that frame's decoding: the reading when its checksum
/// holds, a checksum mismatch otherwise.
pub proof fn lemma_nominal_read(bits: Seq<bool>)
    requires
        bits.len() == FRAME_BITS,
    ensures
        run_spec(initial_state(), handshake_samples() + bits_samples(bits)) == (ReadState {
            phase: Phase::BitMeasure,
            bits,
            outcome: Some(decode_spec(frame_of_bits(bits))),
        }),
{
    let h = handshake_samples();
    let s0 = ReadState { phase: Phase::BitSync, bits: Seq::empty(), outcome: None };
    assert(h.drop_first() =~= seq![(true, 80u64), (false, 50u64)]);
    lemma_run_two(
        step_spec(initial_state(), false, 20).0,
        (true, 80u64),
        (false, 50u64),
    );
    assert(run_spec(initial_state(), h) == s0);
    let init = bits.drop_last();
    lemma_bits_prefix(init);
    lemma_run_concat(initial_state(), h, bits_samples(bits));
    lemma_run_concat(s0, bits_samples(init), bit_samples(bits.last()));
    let mid = ReadState { phase: Phase::BitSync, bits: init, outcome: None };
    lemma_run_two(mid, bit_samples(bits.last())[0], bit_samples(bits.last())[1]);
    assert(init.push(bits.last()) =~= bits);
}

} // verus!
