use vstd::prelude::*;
use crate::error::SongError;
use crate::wavetable::WaveTable;
use crate::wavetable::valid_size;
use crate::wavetable::UNIT;

verus! {

/// The instrument that a track is played with.
#[derive(Clone, Copy, Debug, PartialEq, Eq, Structural)]
pub enum Instruments {
    Sine,
    Saw,
    Square,
    Triangle,
    Snare,
    Kick,
}

/// The kind of wave that a table holds one period of.
#[derive(Clone, Copy, Debug, PartialEq, Eq, Structural)]
pub enum Waveform {
    Sine,
    Saw,
    Square,
    Triangle,
    Noise,
}

impl Instruments {
    /// The wave that the instrument sounds with: the drums are played from
    /// the noise table, every other instrument from the table of its name.
    pub open spec fn wave(self) -> Waveform {
        match self {
            Instruments::Sine => Waveform::Sine,
            Instruments::Saw => Waveform::Saw,
            Instruments::Square => Waveform::Square,
            Instruments::Triangle => Waveform::Triangle,
            Instruments::Snare => Waveform::Noise,
            Instruments::Kick => Waveform::Noise,
        }
    }

    /// The wave that the instrument sounds with.
    pub fn waveform(&self) -> (kind: Waveform)
        ensures
            kind == self.wave(),
    {
        match self {
            Instruments::Sine => Waveform::Sine,
            Instruments::Saw => Waveform::Saw,
            Instruments::Square => Waveform::Square,
            Instruments::Triangle => Waveform::Triangle,
            Instruments::Snare => Waveform::Noise,
            Instruments::Kick => Waveform::Noise,
        }
    }
}

/// The wave tables of a song, at most one of each kind. They are made once
/// and then only read: every oscillator that plays a kind shares its table.
pub struct TableBank {
    sine: Option<WaveTable>,
    saw: Option<WaveTable>,
    square: Option<WaveTable>,
    triangle: Option<WaveTable>,
    noise: Option<WaveTable>,
}

/// The samples of a table that may be missing.
pub open spec fn samples_of(table: Option<WaveTable>) -> Option<Seq<i32>> {
    match table {
        Some(t) => Some(t@),
        None => None,
    }
}

impl TableBank {
    /// The samples of the table of the given kind, if the bank has one.
    pub closed spec fn table(&self, kind: Waveform) -> Option<Seq<i32>> {
        match kind {
            Waveform::Sine => samples_of(self.sine),
            Waveform::Saw => samples_of(self.saw),
            Waveform::Square => samples_of(self.square),
            Waveform::Triangle => samples_of(self.triangle),
            Waveform::Noise => samples_of(self.noise),
        }
    }

    /// Whether the bank has a table for the instrument.
    pub open spec fn supports(&self, instrument: Instruments) -> bool {
        self.table(instrument.wave()) is Some
    }

    /// A bank without tables.
    pub fn new() -> (bank: TableBank)
        ensures
            forall|kind: Waveform| bank.table(kind) is None,
    {
        TableBank { sine: None, saw: None, square: None, triangle: None, noise: None }
    }

    /// Whether the bank is one that is made for tables of `size` samples:
    /// its saw, square and triangle are the closed forms of that size, its
    /// noise table has that size and stays within one, and its sine table is
    /// `sine`, or is missing where `sine` is.
    pub open spec fn is_generated(&self, size: nat, sine: Option<Seq<i32>>) -> bool {
        &&& self.table(Waveform::Sine) == sine
        &&& self.table(Waveform::Saw) == Some(WaveTable::saw_table(size))
        &&& self.table(Waveform::Square) == Some(WaveTable::square_table(size))
        &&& self.table(Waveform::Triangle) == Some(WaveTable::triangle_table(size))
        &&& self.table(Waveform::Noise) is Some
        &&& self.table(Waveform::Noise)->Some_0.len() == size
        &&& forall|n: int|
            0 <= n < size ==> -UNIT <= #[trigger] self.table(Waveform::Noise)->Some_0[n] < UNIT
    }

    /// Whether every table that the bank has is one of `size` samples.
    pub open spec fn has_size(&self, size: nat) -> bool {
        forall|kind: Waveform|
            self.table(kind) is Some ==> (#[trigger] self.table(kind))->Some_0.len() == size
    }

    /// A bank with the tables that are made of whole numbers alone, each of
    /// `size` samples: saw, square and triangle in their closed form, and a
    /// noise table drawn at random. It has no sine table.
    ///
    /// The noise is drawn from the random generator of the thread, which
    /// panics where the operating system gives it no entropy.
    pub fn standard(size: usize) -> (r: Result<TableBank, SongError>)
        ensures
            !valid_size(size as int) ==> r == Err::<TableBank, SongError>(SongError::Configuration),
            valid_size(size as int) ==> r is Ok && r->Ok_0.is_generated(size as nat, None)
                && r->Ok_0.has_size(size as nat),
    {
        let saw = match WaveTable::saw(size) {
            Ok(table) => table,
            Err(e) => {
                return Err(e);
            },
        };
        let square = match WaveTable::square(size) {
            Ok(table) => table,
            Err(e) => {
                return Err(e);
            },
        };
        let triangle = match WaveTable::triangle(size) {
            Ok(table) => table,
            Err(e) => {
                return Err(e);
            },
        };
        let noise = match WaveTable::noise(size) {
            Ok(table) => table,
            Err(e) => {
                return Err(e);
            },
        };
        let bank = TableBank {
            sine: None,
            saw: Some(saw),
            square: Some(square),
            triangle: Some(triangle),
            noise: Some(noise),
        };
        proof {
            lemma_generated_bank_has_its_size(bank, size as nat, None);
        }
        Ok(bank)
    }

    /// A bank with a table of `size` samples for every kind of wave: those of
    /// `standard`, and a sine table of the samples `sine`, which are handed in
    /// because no whole-number rule gives them. The samples must be `size` in
    /// number; if they are not, or `size` is none that a table may have, no
    /// bank is made.
    ///
    /// The noise is drawn from the random generator of the thread, which
    /// panics where the operating system gives it no entropy.
    pub fn full(size: usize, sine: Vec<i32>) -> (r: Result<TableBank, SongError>)
        ensures
            !(valid_size(size as int) && sine@.len() == size) ==> r == Err::<TableBank, SongError>(
                SongError::Configuration,
            ),
            valid_size(size as int) && sine@.len() == size ==> r is Ok && r->Ok_0.is_generated(
                size as nat,
                Some(sine@),
            ) && r->Ok_0.has_size(size as nat) && forall|kind: Waveform|
                (#[trigger] r->Ok_0.table(kind)) is Some,
    {
        if sine.len() != size {
            return Err(SongError::Configuration);
        }
        let ghost samples = sine@;
        let sine = match WaveTable::from_samples(sine) {
            Ok(table) => table,
            Err(e) => {
                return Err(e);
            },
        };
        let mut bank = match TableBank::standard(size) {
            Ok(bank) => bank,
            Err(e) => {
                return Err(e);
            },
        };
        bank.insert(Waveform::Sine, sine);
        proof {
            lemma_generated_bank_has_its_size(bank, size as nat, Some(samples));
        }
        Ok(bank)
    }

    /// Puts `table` into the bank as the table of the given kind, in place of
    /// the one that was there.
    pub fn insert(&mut self, kind: Waveform, table: WaveTable)
        ensures
            final(self).table(kind) == Some(table@),
            forall|other: Waveform| other != kind ==> final(self).table(other) == old(self).table(other),
    {
        match kind {
            Waveform::Sine => {
                self.sine = Some(table);
            },
            Waveform::Saw => {
                self.saw = Some(table);
            },
            Waveform::Square => {
                self.square = Some(table);
            },
            Waveform::Triangle => {
                self.triangle = Some(table);
            },
            Waveform::Noise => {
                self.noise = Some(table);
            },
        }
    }

    /// The table of the given kind, if the bank has one.
    pub fn get(&self, kind: Waveform) -> (table: Option<&WaveTable>)
        ensures
            table is Some <==> self.table(kind) is Some,
            table is Some ==> Some(table->Some_0@) == self.table(kind),
    {
        match kind {
            Waveform::Sine => self.sine.as_ref(),
            Waveform::Saw => self.saw.as_ref(),
            Waveform::Square => self.square.as_ref(),
            Waveform::Triangle => self.triangle.as_ref(),
            Waveform::Noise => self.noise.as_ref(),
        }
    }

    /// The table that the instrument is played from. An instrument for which
    /// the bank has no table is refused.
    pub fn table_for(&self, instrument: &Instruments) -> (r: Result<&WaveTable, SongError>)
        ensures
            self.supports(*instrument) ==> r is Ok && Some(r->Ok_0@) == self.table(
                instrument.wave(),
            ),
            !self.supports(*instrument) ==> r == Err::<&WaveTable, SongError>(
                SongError::UnsupportedInstrument,
            ),
    {
        match self.get(instrument.waveform()) {
            Some(table) => Ok(table),
            None => Err(SongError::UnsupportedInstrument),
        }
    }
}

/// Every table of a bank that is made for a size has that size, whatever
/// its kind, where the sine samples that went in had it.
pub proof fn lemma_generated_bank_has_its_size(bank: TableBank, size: nat, sine: Option<Seq<i32>>)
    requires
        bank.is_generated(size, sine),
        sine is Some ==> sine->Some_0.len() == size,
    ensures
        bank.has_size(size),
{
    assert forall|kind: Waveform| bank.table(kind) is Some implies (#[trigger] bank.table(
        kind,
    ))->Some_0.len() == size by {
        match kind {
            Waveform::Sine => {},
            Waveform::Saw => {},
            Waveform::Square => {},
            Waveform::Triangle => {},
            Waveform::Noise => {},
        }
    }
}

/// Making a bank twice for one size, from the same sine samples, gives the
/// same table of every kind but the noise, which is drawn anew each time.
pub proof fn lemma_generated_banks_agree(
    first: TableBank,
    second: TableBank,
    size: nat,
    sine: Option<Seq<i32>>,
)
    requires
        first.is_generated(size, sine),
        second.is_generated(size, sine),
    ensures
        forall|kind: Waveform|
            kind != Waveform::Noise ==> #[trigger] first.table(kind) == second.table(kind),
{
    assert forall|kind: Waveform| kind != Waveform::Noise implies #[trigger] first.table(kind)
        == second.table(kind) by {
        match kind {
            Waveform::Sine => {},
            Waveform::Saw => {},
            Waveform::Square => {},
            Waveform::Triangle => {},
            Waveform::Noise => {},
        }
    }
}

} // verus!
