use vstd::prelude::*;
use vstd::arithmetic::div_mod::lemma_div_is_ordered;
use vstd::arithmetic::div_mod::lemma_div_multiples_vanish;
use crate::error::SongError;
use crate::random::draw;

verus! {

/// The sample value that stands for an amplitude of one.
pub const UNIT: i32 = 65536;

/// The largest number of samples that a wave table may hold.
pub const MAX_TABLE_SIZE: usize = 16777216;

/// The fixed-point value of the fraction `num / den`: the largest multiple of
/// one 65536th that is not above it.
pub open spec fn quantize(num: int, den: int) -> int {
    (num * UNIT) / den
}

/// Sample `n` of a saw table of `size` samples: a ramp from -1 that rises by
/// `2 / size` with each sample.
pub open spec fn saw_sample(n: int, size: int) -> int {
    quantize(2 * n - size, size)
}

/// Sample `n` of a square table of `size` samples: +1 over the half period in
/// which the sine is not negative, both ends included, and -1 after it.
pub open spec fn square_sample(n: int, size: int) -> int {
    if 2 * n <= size {
        UNIT as int
    } else {
        -(UNIT as int)
    }
}

/// Sample `n` of a triangle table of `size` samples: up from -1 by `4 / size`
/// a sample over the first half of the period, and down again from
/// `3 - 4 * n / size` over the second.
pub open spec fn triangle_sample(n: int, size: int) -> int {
    if 2 * n < size {
        quantize(4 * n - size, size)
    } else {
        quantize(3 * size - 4 * n, size)
    }
}

/// Whether a table may have `size` samples.
pub open spec fn valid_size(size: int) -> bool {
    1 <= size <= MAX_TABLE_SIZE
}

/// The quantised fraction lies between the whole numbers that bound the
/// fraction.
pub proof fn lemma_quantize_bounds(num: int, den: int, low: int, high: int)
    requires
        den > 0,
        low * den <= num <= high * den,
    ensures
        low * UNIT <= quantize(num, den) <= high * UNIT,
{
    assert(low * UNIT * den <= num * UNIT <= high * UNIT * den) by (nonlinear_arith)
        requires
            low * den <= num <= high * den,
    ;
    lemma_div_is_ordered(low * UNIT * den, num * UNIT, den);
    lemma_div_is_ordered(num * UNIT, high * UNIT * den, den);
    lemma_div_multiples_vanish(low * UNIT, den);
    lemma_div_multiples_vanish(high * UNIT, den);
    assert(low * UNIT * den == den * (low * UNIT)) by (nonlinear_arith);
    assert(high * UNIT * den == den * (high * UNIT)) by (nonlinear_arith);
}

/// A square table holds only +1 and -1, and starts with +1.
pub proof fn lemma_square_is_bipolar(size: nat)
    ensures
        forall|n: int|
            0 <= n < size ==> {
                let s = #[trigger] WaveTable::square_table(size)[n];
                s == UNIT || s == -UNIT
            },
        size > 0 ==> WaveTable::square_table(size)[0] == UNIT,
{
}

/// A saw table starts at -1, never falls, and stays below +1.
pub proof fn lemma_saw_shape(size: nat)
    requires
        valid_size(size as int),
    ensures
        WaveTable::saw_table(size)[0] == -UNIT,
        forall|n: int| 0 <= n < size ==> -UNIT <= #[trigger] WaveTable::saw_table(size)[n] < UNIT,
        forall|m: int, n: int|
            0 <= m <= n < size ==> WaveTable::saw_table(size)[m] <= WaveTable::saw_table(size)[n],
{
    let d = size as int;
    assert forall|n: int| 0 <= n < size implies -UNIT <= #[trigger] saw_sample(n, d) < UNIT by {
        lemma_quantize_bounds(2 * n - d, d, -1, 1);
        assert((2 * n - d) * UNIT < UNIT * d) by (nonlinear_arith)
            requires
                2 * n - d < d,
        ;
        vstd::arithmetic::div_mod::lemma_div_by_multiple_is_strongly_ordered(
            (2 * n - d) * UNIT,
            UNIT * d,
            UNIT as int,
            d,
        );
        lemma_div_multiples_vanish(UNIT as int, d);
        assert(UNIT * d == d * UNIT) by (nonlinear_arith);
    }
    assert(saw_sample(0, d) == -UNIT) by {
        lemma_div_multiples_vanish(-(UNIT as int), d);
        assert((2 * 0 - d) * UNIT == d * -(UNIT as int)) by (nonlinear_arith);
    }
    assert forall|m: int, n: int| 0 <= m <= n < size implies saw_sample(m, d) <= saw_sample(
        n,
        d,
    ) by {
        assert((2 * m - d) * UNIT <= (2 * n - d) * UNIT) by (nonlinear_arith)
            requires
                m <= n,
        ;
        lemma_div_is_ordered((2 * m - d) * UNIT, (2 * n - d) * UNIT, d);
    }
}

/// A triangle table starts at -1 and stays between -1 and +1; with an even
/// number of samples it reaches +1 at the middle of the period.
pub proof fn lemma_triangle_shape(size: nat)
    requires
        valid_size(size as int),
    ensures
        WaveTable::triangle_table(size)[0] == -UNIT,
        forall|n: int|
            0 <= n < size ==> -UNIT <= #[trigger] WaveTable::triangle_table(size)[n] <= UNIT,
        size % 2 == 0 ==> WaveTable::triangle_table(size)[size as int / 2] == UNIT,
{
    let d = size as int;
    assert forall|n: int| 0 <= n < size implies -UNIT <= #[trigger] triangle_sample(n, d)
        <= UNIT by {
        if 2 * n < d {
            lemma_quantize_bounds(4 * n - d, d, -1, 1);
        } else {
            lemma_quantize_bounds(3 * d - 4 * n, d, -1, 1);
        }
    }
    assert(triangle_sample(0, d) == -UNIT) by {
        lemma_div_multiples_vanish(-(UNIT as int), d);
        assert((4 * 0 - d) * UNIT == d * -(UNIT as int)) by (nonlinear_arith);
    }
    if size % 2 == 0 {
        let n = d / 2;
        assert(triangle_sample(n, d) == UNIT) by {
            lemma_div_multiples_vanish(UNIT as int, d);
            assert((3 * d - 4 * n) * UNIT == d * UNIT) by (nonlinear_arith)
                requires
                    2 * n == d,
            ;
        }
    }
}

/// Computes `quantize(num, den)` for a fraction between -4 and 4.
fn quantized(num: i64, den: i64) -> (q: i32)
    requires
        0 < den <= MAX_TABLE_SIZE,
        -4 * den <= num <= 4 * den,
    ensures
        q == quantize(num as int, den as int),
        -4 * UNIT <= q <= 4 * UNIT,
{
    proof {
        lemma_quantize_bounds(num as int, den as int, -4, 4);
    }
    let scaled: i64 = num * 65536;
    let q = scaled.checked_div_euclid(den);
    q.unwrap() as i32
}

/// One period of a waveform: between 1 and `MAX_TABLE_SIZE` samples, read
/// cyclically.
pub struct WaveTable {
    samples: Vec<i32>,
}

impl View for WaveTable {
    type V = Seq<i32>;

    closed spec fn view(&self) -> Seq<i32> {
        self.samples@
    }
}

impl WaveTable {
    #[verifier::type_invariant]
    spec fn well_formed(&self) -> bool {
        valid_size(self.samples@.len() as int)
    }

    /// The saw table of `size` samples.
    pub open spec fn saw_table(size: nat) -> Seq<i32> {
        Seq::new(size, |n: int| saw_sample(n, size as int) as i32)
    }

    /// The square table of `size` samples.
    pub open spec fn square_table(size: nat) -> Seq<i32> {
        Seq::new(size, |n: int| square_sample(n, size as int) as i32)
    }

    /// The triangle table of `size` samples.
    pub open spec fn triangle_table(size: nat) -> Seq<i32> {
        Seq::new(size, |n: int| triangle_sample(n, size as int) as i32)
    }

    /// A table of the given samples, if their number is one that a table may
    /// have.
    pub fn from_samples(samples: Vec<i32>) -> (r: Result<WaveTable, SongError>)
        ensures
            valid_size(samples@.len() as int) ==> r is Ok && r->Ok_0@ == samples@,
            !valid_size(samples@.len() as int) ==> r == Err::<WaveTable, SongError>(
                SongError::Configuration,
            ),
    {
        if samples.len() == 0 || samples.len() > MAX_TABLE_SIZE {
            Err(SongError::Configuration)
        } else {
            Ok(WaveTable { samples })
        }
    }

    /// The saw table of `size` samples.
    pub fn saw(size: usize) -> (r: Result<WaveTable, SongError>)
        ensures
            valid_size(size as int) ==> r is Ok && r->Ok_0@ == Self::saw_table(size as nat),
            !valid_size(size as int) ==> r == Err::<WaveTable, SongError>(SongError::Configuration),
    {
        if size == 0 || size > MAX_TABLE_SIZE {
            return Err(SongError::Configuration);
        }
        let mut samples: Vec<i32> = Vec::with_capacity(size);
        let mut n: usize = 0;
        while n < size
            invariant
                valid_size(size as int),
                n <= size,
                samples@.len() == n,
                forall|j: int| 0 <= j < n ==> samples@[j] == saw_sample(j, size as int),
            decreases size - n,
        {
            samples.push(quantized(2 * (n as i64) - size as i64, size as i64));
            n += 1;
        }
        assert(samples@ =~= Self::saw_table(size as nat));
        Ok(WaveTable { samples })
    }

    /// The square table of `size` samples.
    pub fn square(size: usize) -> (r: Result<WaveTable, SongError>)
        ensures
            valid_size(size as int) ==> r is Ok && r->Ok_0@ == Self::square_table(size as nat),
            !valid_size(size as int) ==> r == Err::<WaveTable, SongError>(SongError::Configuration),
    {
        if size == 0 || size > MAX_TABLE_SIZE {
            return Err(SongError::Configuration);
        }
        let mut samples: Vec<i32> = Vec::with_capacity(size);
        let mut n: usize = 0;
        while n < size
            invariant
                valid_size(size as int),
                n <= size,
                samples@.len() == n,
                forall|j: int| 0 <= j < n ==> samples@[j] == square_sample(j, size as int),
            decreases size - n,
        {
            if 2 * n <= size {
                samples.push(UNIT);
            } else {
                samples.push(-UNIT);
            }
            n += 1;
        }
        assert(samples@ =~= Self::square_table(size as nat));
        Ok(WaveTable { samples })
    }

    /// The triangle table of `size` samples.
    pub fn triangle(size: usize) -> (r: Result<WaveTable, SongError>)
        ensures
            valid_size(size as int) ==> r is Ok && r->Ok_0@ == Self::triangle_table(size as nat),
            !valid_size(size as int) ==> r == Err::<WaveTable, SongError>(SongError::Configuration),
    {
        if size == 0 || size > MAX_TABLE_SIZE {
            return Err(SongError::Configuration);
        }
        let mut samples: Vec<i32> = Vec::with_capacity(size);
        let mut n: usize = 0;
        while n < size
            invariant
                valid_size(size as int),
                n <= size,
                samples@.len() == n,
                forall|j: int| 0 <= j < n ==> samples@[j] == triangle_sample(j, size as int),
            decreases size - n,
        {
            if 2 * n < size {
                samples.push(quantized(4 * (n as i64) - size as i64, size as i64));
            } else {
                samples.push(quantized(3 * (size as i64) - 4 * (n as i64), size as i64));
            }
            n += 1;
        }
        assert(samples@ =~= Self::triangle_table(size as nat));
        Ok(WaveTable { samples })
    }

    /// A table of `size` samples drawn at random, each at least -1 and below
    /// 1. The table is drawn once and does not change afterwards.
    ///
    /// The samples come from the random generator of the thread. Where the
    /// operating system gives that generator no entropy, when it is first
    /// used in a thread or when it seeds itself anew, it panics, and so does
    /// this function: no argument causes that and none prevents it.
    pub fn noise(size: usize) -> (r: Result<WaveTable, SongError>)
        ensures
            valid_size(size as int) ==> r is Ok && r->Ok_0@.len() == size && forall|n: int|
                0 <= n < size ==> -UNIT <= #[trigger] r->Ok_0@[n] < UNIT,
            !valid_size(size as int) ==> r == Err::<WaveTable, SongError>(SongError::Configuration),
    {
        if size == 0 || size > MAX_TABLE_SIZE {
            return Err(SongError::Configuration);
        }
        let mut rng = rand::thread_rng();
        let mut samples: Vec<i32> = Vec::with_capacity(size);
        let mut n: usize = 0;
        while n < size
            invariant
                n <= size,
                samples@.len() == n,
                forall|j: int| 0 <= j < n ==> -UNIT <= #[trigger] samples@[j] < UNIT,
            decreases size - n,
        {
            samples.push(draw(&mut rng, -UNIT, UNIT));
            n += 1;
        }
        Ok(WaveTable { samples })
    }

    /// The number of samples in the table.
    pub fn len(&self) -> (n: usize)
        ensures
            n == self@.len(),
            valid_size(n as int),
    {
        proof {
            use_type_invariant(self);
        }
        self.samples.len()
    }

    /// Sample `n` of the table.
    pub fn sample(&self, n: usize) -> (s: i32)
        requires
            n < self@.len(),
        ensures
            s == self@[n as int],
    {
        self.samples[n]
    }

    /// The samples of the table, in order.
    pub fn samples(&self) -> (s: &Vec<i32>)
        ensures
            s@ == self@,
    {
        &self.samples
    }
}

} // verus!
