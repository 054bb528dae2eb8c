use vstd::prelude::*;
use crate::wavetable::WaveTable;
use crate::wavetable::valid_size;

verus! {

/// The number of phase steps between one sample of a table and the next.
pub const SLOT: u64 = 65536;

/// The length of one period of a table of `size` samples, in phase steps.
pub open spec fn period(size: int) -> int {
    size * SLOT
}

/// The phase steps by which an oscillator moves with each sample it gives:
/// `frequency * size / sample_rate` table slots, rounded down to a whole
/// phase step. The frequency is in millihertz, the rate in samples a second.
pub open spec fn phase_increment(frequency: int, size: int, sample_rate: int) -> int {
    (frequency * size * SLOT) / (1000 * sample_rate)
}

/// The phase that follows `phase`: moved on by `increment` and wrapped into
/// the period.
pub open spec fn advance(phase: int, increment: int, size: int) -> int {
    (phase + increment) % period(size)
}

/// The value of the table at `phase`: the sample below the phase and the one
/// after it, which is the first again past the last, each weighted by how
/// near the phase lies to it. The result is rounded down.
pub open spec fn interpolate(table: Seq<i32>, phase: int) -> int {
    let below = phase / (SLOT as int);
    let above = (below + 1) % (table.len() as int);
    let weight = phase % (SLOT as int);
    ((SLOT - weight) * table[below] + weight * table[above]) / (SLOT as int)
}

/// The phase that is reached from `phase` after `steps` samples.
pub open spec fn phase_after(phase: int, increment: int, size: int, steps: nat) -> int
    decreases steps,
{
    if steps == 0 {
        phase
    } else {
        advance(phase_after(phase, increment, size, (steps - 1) as nat), increment, size)
    }
}

/// The first `count` samples that an oscillator gives which stands at
/// `phase` and moves by `increment`.
pub open spec fn stream(table: Seq<i32>, phase: int, increment: int, count: nat) -> Seq<i32> {
    Seq::new(
        count,
        |k: int| interpolate(table, phase_after(phase, increment, table.len() as int, k as nat)) as i32,
    )
}

/// A source of samples without end: it reads one wave table, which it shares
/// with others, at a phase of its own.
#[derive(Clone, Copy)]
pub struct WavetableOscillator<'a> {
    sample_rate: u32,
    wave_table: &'a WaveTable,
    index: u64,
    index_increment: i64,
}

impl<'a> WavetableOscillator<'a> {
    #[verifier::type_invariant]
    spec fn well_formed(&self) -> bool {
        &&& self.sample_rate > 0
        &&& valid_size(self.wave_table@.len() as int)
        &&& self.index < period(self.wave_table@.len() as int)
    }

    /// The samples of the table that the oscillator reads.
    pub closed spec fn table(&self) -> Seq<i32> {
        self.wave_table@
    }

    /// The rate at which the samples are meant to be played, in samples a second.
    pub closed spec fn rate(&self) -> int {
        self.sample_rate as int
    }

    /// Where in the table the oscillator stands, in phase steps.
    pub closed spec fn phase(&self) -> int {
        self.index as int
    }

    /// By how many phase steps the oscillator moves with each sample.
    pub closed spec fn increment(&self) -> int {
        self.index_increment as int
    }

    /// An oscillator at the start of the table, which does not move until a
    /// frequency is set.
    pub fn new(sample_rate: u32, wave_table: &'a WaveTable) -> (osc: Self)
        requires
            sample_rate > 0,
        ensures
            osc.table() == wave_table@,
            osc.rate() == sample_rate,
            osc.phase() == 0,
            osc.increment() == 0,
    {
        let size = wave_table.len();
        assert(0 < period(size as int)) by (nonlinear_arith)
            requires
                size >= 1,
        ;
        WavetableOscillator { sample_rate, wave_table, index: 0, index_increment: 0 }
    }

    /// Sets the frequency, in millihertz, at which the table is read from now
    /// on. A negative frequency reads the table backwards.
    pub fn set_frequency(&mut self, frequency: i32)
        ensures
            final(self).increment() == phase_increment(
                frequency as int,
                old(self).table().len() as int,
                old(self).rate(),
            ),
            final(self).phase() == old(self).phase(),
            final(self).table() == old(self).table(),
            final(self).rate() == old(self).rate(),
    {
        proof {
            use_type_invariant(&*self);
        }
        let size = self.wave_table.len();
        assert(-0x80_0000_0000_0000 <= (frequency as int) * (size as int) <= 0x80_0000_0000_0000)
            by (nonlinear_arith)
            requires
                -0x8000_0000 <= frequency <= 0x8000_0000,
                0 < size <= 0x100_0000,
        ;
        let slots: i128 = (frequency as i128) * (size as i128);
        let numerator: i128 = slots * 65536;
        let denominator: i128 = 1000 * (self.sample_rate as i128);
        proof {
            lemma_quotient_is_small(numerator as int, denominator as int);
            assert(frequency * size * SLOT == numerator) by (nonlinear_arith)
                requires
                    slots == (frequency as int) * (size as int),
                    numerator == slots * 65536,
                    SLOT == 65536,
            ;
        }
        let increment = numerator.checked_div_euclid(denominator);
        self.index_increment = increment.unwrap() as i64;
    }

    /// The value of the table at the phase where the oscillator stands.
    pub fn lerp(&self) -> (sample: i32)
        ensures
            sample == interpolate(self.table(), self.phase()),
    {
        proof {
            use_type_invariant(self);
        }
        let size = self.wave_table.len();
        let truncated_index: usize = (self.index / 65536) as usize;
        let next_index: usize = (truncated_index + 1) % size;
        let next_index_weight: i64 = (self.index % 65536) as i64;
        let truncated_index_weight: i64 = 65536 - next_index_weight;
        let below: i64 = self.wave_table.sample(truncated_index) as i64;
        let above: i64 = self.wave_table.sample(next_index) as i64;
        proof {
            lemma_mix_is_between(below as int, above as int, next_index_weight as int);
            assert(-0x8000_0000_0000 <= truncated_index_weight * below <= 0x8000_0000_0000)
                by (nonlinear_arith)
                requires
                    0 <= truncated_index_weight <= 0x1_0000,
                    -0x8000_0000 <= below <= 0x8000_0000,
            ;
            assert(-0x8000_0000_0000 <= next_index_weight * above <= 0x8000_0000_0000)
                by (nonlinear_arith)
                requires
                    0 <= next_index_weight <= 0x1_0000,
                    -0x8000_0000 <= above <= 0x8000_0000,
            ;
        }
        let mixed: i64 = truncated_index_weight * below + next_index_weight * above;
        mixed.checked_div_euclid(65536).unwrap() as i32
    }

    /// Where in the table the oscillator stands, in phase steps: less than a
    /// period.
    pub fn index(&self) -> (phase: u64)
        ensures
            phase == self.phase(),
            phase < period(self.table().len() as int),
            valid_size(self.table().len() as int),
    {
        proof {
            use_type_invariant(self);
        }
        self.index
    }

    /// By how many phase steps the oscillator moves with each sample.
    pub fn index_increment(&self) -> (increment: i64)
        ensures
            increment == self.increment(),
    {
        self.index_increment
    }

    /// Puts the oscillator back to the start of the table.
    pub fn reset(&mut self)
        ensures
            final(self).phase() == 0,
            final(self).increment() == old(self).increment(),
            final(self).table() == old(self).table(),
            final(self).rate() == old(self).rate(),
    {
        proof {
            use_type_invariant(&*self);
            assert(0 < period(self.wave_table@.len() as int)) by (nonlinear_arith)
                requires
                    self.wave_table@.len() >= 1,
            ;
        }
        self.index = 0;
    }

    /// The oscillator has one channel.
    pub fn channels(&self) -> (n: u16)
        ensures
            n == 1,
    {
        1
    }

    /// The rate at which the samples are meant to be played.
    pub fn sample_rate(&self) -> (rate: u32)
        ensures
            rate == self.rate(),
            rate > 0,
    {
        proof {
            use_type_invariant(self);
        }
        self.sample_rate
    }

    /// The samples come in no frames of a fixed length.
    pub fn current_frame_len(&self) -> (len: Option<usize>)
        ensures
            len.is_none(),
    {
        None
    }

    /// The samples never end, so they last no known time (in microseconds).
    pub fn total_duration(&self) -> (micros: Option<u128>)
        ensures
            micros.is_none(),
    {
        None
    }

    /// The next sample, which there always is.
    pub fn next(&mut self) -> (sample: Option<i32>)
        ensures
            sample == Some(interpolate(old(self).table(), old(self).phase()) as i32),
            final(self).phase() == advance(
                old(self).phase(),
                old(self).increment(),
                old(self).table().len() as int,
            ),
            final(self).increment() == old(self).increment(),
            final(self).table() == old(self).table(),
            final(self).rate() == old(self).rate(),
    {
        Some(self.get_sample())
    }

    /// Appends the next `count` samples to `sink`.
    pub fn render(&mut self, count: u64, sink: &mut Vec<i32>)
        ensures
            final(sink)@ == old(sink)@ + stream(
                old(self).table(),
                old(self).phase(),
                old(self).increment(),
                count as nat,
            ),
            final(self).phase() == phase_after(
                old(self).phase(),
                old(self).increment(),
                old(self).table().len() as int,
                count as nat,
            ),
            final(self).increment() == old(self).increment(),
            final(self).table() == old(self).table(),
            final(self).rate() == old(self).rate(),
    {
        let ghost table = self.table();
        let ghost start = self.phase();
        let ghost increment = self.increment();
        let ghost before = sink@;
        let mut given: u64 = 0;
        while given < count
            invariant
                given <= count,
                self.table() == table,
                self.increment() == increment,
                self.rate() == old(self).rate(),
                self.phase() == phase_after(start, increment, table.len() as int, given as nat),
                sink@ == before + stream(table, start, increment, given as nat),
            decreases count - given,
        {
            let sample = self.get_sample();
            sink.push(sample);
            given += 1;
            assert(sink@ =~= before + stream(table, start, increment, given as nat));
        }
    }

    /// Gives the sample at the phase where the oscillator stands, and moves
    /// the oscillator on by its increment.
    pub fn get_sample(&mut self) -> (sample: i32)
        ensures
            sample == interpolate(old(self).table(), old(self).phase()),
            final(self).phase() == advance(
                old(self).phase(),
                old(self).increment(),
                old(self).table().len() as int,
            ),
            0 <= final(self).phase() < period(old(self).table().len() as int),
            final(self).increment() == old(self).increment(),
            final(self).table() == old(self).table(),
            final(self).rate() == old(self).rate(),
    {
        proof {
            use_type_invariant(&*self);
        }
        let sample = self.lerp();
        let size = self.wave_table.len();
        let table_period: i128 = (size as i128) * 65536;
        let moved: i128 = (self.index as i128) + (self.index_increment as i128);
        let wrapped = moved.checked_rem_euclid(table_period);
        self.index = wrapped.unwrap() as u64;
        sample
    }
}

/// The increment follows the frequency: it is nothing at no frequency, it is
/// not negative at a positive frequency, it is negative at a negative one,
/// and it does not fall as the frequency rises.
pub proof fn lemma_increment_follows_the_frequency(
    lower: int,
    higher: int,
    size: int,
    sample_rate: int,
)
    requires
        size > 0,
        sample_rate > 0,
        lower <= higher,
    ensures
        phase_increment(0, size, sample_rate) == 0,
        lower >= 0 ==> phase_increment(lower, size, sample_rate) >= 0,
        higher < 0 ==> phase_increment(higher, size, sample_rate) < 0,
        phase_increment(lower, size, sample_rate) <= phase_increment(higher, size, sample_rate),
{
    let d = 1000 * sample_rate;
    assert(lower * size * SLOT <= higher * size * SLOT) by (nonlinear_arith)
        requires
            lower <= higher,
            size > 0,
    ;
    vstd::arithmetic::div_mod::lemma_div_is_ordered(lower * size * SLOT, higher * size * SLOT, d);
    assert(0 * size * SLOT == 0);
    if lower >= 0 {
        assert(lower * size * SLOT >= 0) by (nonlinear_arith)
            requires
                lower >= 0,
                size > 0,
        ;
        vstd::arithmetic::div_mod::lemma_div_pos_is_pos(lower * size * SLOT, d);
    }
    if higher < 0 {
        let n = higher * size * SLOT;
        assert(n < 0) by (nonlinear_arith)
            requires
                n == higher * size * SLOT,
                higher < 0,
                size > 0,
        ;
        vstd::arithmetic::div_mod::lemma_fundamental_div_mod(n, d);
        assert(n / d < 0) by (nonlinear_arith)
            requires
                n == d * (n / d) + n % d,
                0 <= n % d < d,
                n < 0,
                d > 0,
        ;
    }
}

/// After any number of samples the phase is the start moved on by that many
/// increments and wrapped into the period.
pub proof fn lemma_phase_after_is_wrapped_sum(phase: int, increment: int, size: int, steps: nat)
    requires
        size > 0,
        0 <= phase < period(size),
    ensures
        phase_after(phase, increment, size, steps) == (phase + steps * increment) % period(size),
        0 <= phase_after(phase, increment, size, steps) < period(size),
    decreases steps,
{
    let p = period(size);
    if steps == 0 {
        assert(phase + 0 * increment == phase);
        vstd::arithmetic::div_mod::lemma_small_mod(phase as nat, p as nat);
    } else {
        let before = (steps - 1) as nat;
        lemma_phase_after_is_wrapped_sum(phase, increment, size, before);
        vstd::arithmetic::div_mod::lemma_add_mod_noop_right(
            increment,
            phase + before * increment,
            p,
        );
        assert(increment + (phase + before * increment) == phase + steps * increment)
            by (nonlinear_arith)
            requires
                before == steps - 1,
        ;
        assert(phase_after(phase, increment, size, before) + increment == increment + (phase
            + before * increment) % p);
    }
}

/// An oscillator whose increment is a whole number of table slots that
/// divides the size of the table is back at its phase, and so at the sample
/// it gave first, after as many samples as the increment goes into the size.
pub proof fn lemma_oscillator_is_periodic(table: Seq<i32>, phase: int, step: int)
    requires
        table.len() > 0,
        0 <= phase < period(table.len() as int),
        step > 0,
        table.len() % (step as nat) == 0,
    ensures
        ({
            let size = table.len() as int;
            let back = phase_after(phase, step * SLOT, size, (size / step) as nat);
            &&& back == phase
            &&& interpolate(table, back) == interpolate(table, phase)
        }),
{
    let size = table.len() as int;
    let turns = size / step;
    vstd::arithmetic::div_mod::lemma_fundamental_div_mod(size, step);
    vstd::arithmetic::div_mod::lemma_div_pos_is_pos(size, step);
    lemma_phase_after_is_wrapped_sum(phase, step * SLOT, size, turns as nat);
    assert(turns * (step * SLOT) == period(size) * 1) by (nonlinear_arith)
        requires
            size == step * turns,
            period(size) == size * SLOT,
    ;
    vstd::arithmetic::div_mod::lemma_mod_multiples_vanish(1, phase, period(size));
    vstd::arithmetic::div_mod::lemma_small_mod(phase as nat, period(size) as nat);
}

/// What the oscillator gives lies between the two samples that it reads.
pub proof fn lemma_interpolation_is_between(table: Seq<i32>, phase: int)
    requires
        table.len() > 0,
        0 <= phase < period(table.len() as int),
    ensures
        ({
            let below = table[phase / (SLOT as int)];
            let above = table[(phase / (SLOT as int) + 1) % (table.len() as int)];
            let sample = interpolate(table, phase);
            &&& (below <= above ==> below <= sample <= above)
            &&& (above <= below ==> above <= sample <= below)
        }),
{
    let below = table[phase / (SLOT as int)];
    let above = table[(phase / (SLOT as int) + 1) % (table.len() as int)];
    lemma_mix_is_between(below as int, above as int, phase % (SLOT as int));
}

/// Where the phase falls on a sample of the table, the oscillator gives
/// that sample.
pub proof fn lemma_interpolation_at_a_sample(table: Seq<i32>, n: int)
    requires
        0 <= n < table.len(),
    ensures
        interpolate(table, n * SLOT) == table[n],
{
    let above = table[(n + 1) % (table.len() as int)];
    assert((SLOT - 0) * table[n] + 0 * above == SLOT * table[n]);
    vstd::arithmetic::div_mod::lemma_div_multiples_vanish(table[n] as int, SLOT as int);
}

/// A quotient by a thousand or more of a number below 2^71 in size fits in
/// 64 bits.
proof fn lemma_quotient_is_small(numerator: int, denominator: int)
    requires
        -0x80_0000_0000_0000_0000 <= numerator <= 0x80_0000_0000_0000_0000,
        denominator >= 1000,
    ensures
        -0x7fff_ffff_ffff_ffff <= numerator / denominator <= 0x7fff_ffff_ffff_ffff,
{
    let q = numerator / denominator;
    let r = numerator % denominator;
    vstd::arithmetic::div_mod::lemma_fundamental_div_mod(numerator, denominator);
    assert(0 <= r < denominator);
    assert(-0x7fff_ffff_ffff_ffff <= q <= 0x7fff_ffff_ffff_ffff) by (nonlinear_arith)
        requires
            numerator == denominator * q + r,
            0 <= r < denominator,
            denominator >= 1000,
            -0x80_0000_0000_0000_0000 <= numerator <= 0x80_0000_0000_0000_0000,
    ;
}

/// A weighted mean of two samples, rounded down, lies between them.
proof fn lemma_mix_is_between(below: int, above: int, weight: int)
    requires
        0 <= weight < SLOT,
    ensures
        ({
            let mixed = ((SLOT - weight) * below + weight * above) / (SLOT as int);
            &&& (below <= above ==> below <= mixed <= above)
            &&& (above <= below ==> above <= mixed <= below)
        }),
{
    let sum = (SLOT - weight) * below + weight * above;
    if below <= above {
        assert(SLOT * below <= sum <= SLOT * above) by (nonlinear_arith)
            requires
                sum == (SLOT - weight) * below + weight * above,
                0 <= weight < SLOT,
                below <= above,
        ;
    } else {
        assert(SLOT * above <= sum <= SLOT * below) by (nonlinear_arith)
            requires
                sum == (SLOT - weight) * below + weight * above,
                0 <= weight < SLOT,
                above <= below,
        ;
    }
}

} // verus!
