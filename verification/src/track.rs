use vstd::prelude::*;
use crate::error::SongError;
use crate::instrument::Instruments;
use crate::instrument::TableBank;
use crate::oscillator::WavetableOscillator;
use crate::oscillator::phase_after;
use crate::oscillator::phase_increment;
use crate::oscillator::stream;
use crate::wavetable::UNIT;

verus! {

/// The rate at which tracks are rendered, in samples a second.
pub const SAMPLE_RATE: u32 = 44100;

/// How long a note of `duration` thousandths of a beat lasts at `tempo`
/// beats a minute, in microseconds, rounded down.
pub open spec fn note_micros(duration: int, tempo: int) -> int {
    duration * 60000 / tempo
}

/// How many samples a note of `duration` thousandths of a beat takes at
/// `tempo` beats a minute and `sample_rate` samples a second: its length in
/// seconds times the rate, rounded down once.
pub open spec fn sample_count(duration: int, tempo: int, sample_rate: int) -> int {
    duration * 60 * sample_rate / (1000 * tempo)
}

/// A note: a pitch in millihertz, held for a number of thousandths of a beat.
#[derive(Clone, Copy, Debug, PartialEq, Eq, Structural)]
pub struct Note {
    pub pitch: i32,
    pub duration: u32,
}

impl Note {
    /// A note of the given pitch and length.
    pub fn new(pitch: i32, duration: u32) -> (note: Note)
        ensures
            note.pitch == pitch,
            note.duration == duration,
    {
        Note { pitch, duration }
    }

    /// How long the note lasts at `tempo` beats a minute, in microseconds.
    pub open spec fn spec_micros(self, tempo: int) -> int {
        note_micros(self.duration as int, tempo)
    }

    /// How many samples the note takes at `tempo` beats a minute and
    /// `sample_rate` samples a second.
    pub open spec fn spec_samples(self, tempo: int, sample_rate: int) -> int {
        sample_count(self.duration as int, tempo, sample_rate)
    }

    /// How long the note lasts at `tempo` beats a minute, in microseconds. A
    /// tempo of zero is refused.
    pub fn micros(&self, tempo: u32) -> (r: Result<u64, SongError>)
        ensures
            tempo == 0 ==> r == Err::<u64, SongError>(SongError::Configuration),
            tempo > 0 ==> r == Ok::<u64, SongError>(self.spec_micros(tempo as int) as u64),
            tempo > 0 ==> 0 <= self.spec_micros(tempo as int) < 0x1_0000_0000_0000,
    {
        if tempo == 0 {
            return Err(SongError::Configuration);
        }
        let beats: u64 = (self.duration as u64) * 60000;
        proof {
            vstd::arithmetic::div_mod::lemma_div_nonincreasing(beats as int, tempo as int);
            vstd::arithmetic::div_mod::lemma_div_pos_is_pos(beats as int, tempo as int);
        }
        Ok(beats / (tempo as u64))
    }

    /// How many samples the note takes at `tempo` beats a minute and
    /// `sample_rate` samples a second. A tempo of zero is refused.
    pub fn samples(&self, tempo: u32, sample_rate: u32) -> (r: Result<u64, SongError>)
        ensures
            tempo == 0 ==> r == Err::<u64, SongError>(SongError::Configuration),
            tempo > 0 ==> r == Ok::<u64, SongError>(
                self.spec_samples(tempo as int, sample_rate as int) as u64,
            ),
            tempo > 0 ==> 0 <= self.spec_samples(tempo as int, sample_rate as int) <= u64::MAX,
    {
        if tempo == 0 {
            return Err(SongError::Configuration);
        }
        proof {
            lemma_note_size_is_small(*self, tempo as int, sample_rate as int);
        }
        let beats: u128 = (self.duration as u128) * 60;
        assert(0 <= beats * sample_rate <= 0x3c_0000_0000 * 0x1_0000_0000) by (nonlinear_arith)
            requires
                0 <= beats <= 0x3c_0000_0000,
                0 <= sample_rate < 0x1_0000_0000,
        ;
        let filled: u128 = beats * (sample_rate as u128);
        let per_sample: u128 = 1000 * (tempo as u128);
        Ok((filled / per_sample) as u64)
    }
}

/// A track as it is written down: an instrument, its notes in order, and a
/// tempo in beats a minute.
pub struct ProtoTrack {
    pub instrument: Instruments,
    pub notes: Vec<Note>,
    pub tempo: u32,
}

impl ProtoTrack {
    /// A track for the instrument that has no notes yet, and no tempo.
    pub fn new(instrument: Instruments) -> (proto: ProtoTrack)
        ensures
            proto.instrument == instrument,
            proto.notes@.len() == 0,
            proto.tempo == 0,
    {
        ProtoTrack { instrument, notes: Vec::new(), tempo: 0 }
    }
}

/// What an audio sink has been given: the samples appended to it, in order,
/// its volume in 65536ths, and whether it is held back from playing.
pub struct Sink {
    pub samples: Vec<i32>,
    pub volume: u32,
    pub paused: bool,
}

impl Sink {
    /// A sink that has been given nothing, plays as soon as it is, and does
    /// so at full volume.
    pub fn new() -> (sink: Sink)
        ensures
            sink.samples@.len() == 0,
            sink.volume == UNIT,
            !sink.paused,
    {
        Sink { samples: Vec::new(), volume: 65536, paused: false }
    }

    /// Holds the sink back from playing.
    pub fn pause(&mut self)
        ensures
            final(self).paused,
            final(self).samples == old(self).samples,
            final(self).volume == old(self).volume,
    {
        self.paused = true;
    }

    /// Lets the sink play.
    pub fn play(&mut self)
        ensures
            !final(self).paused,
            final(self).samples == old(self).samples,
            final(self).volume == old(self).volume,
    {
        self.paused = false;
    }

    /// Sets the volume that the sink plays at.
    pub fn set_volume(&mut self, volume: u32)
        ensures
            final(self).volume == volume,
            final(self).samples == old(self).samples,
            final(self).paused == old(self).paused,
    {
        self.volume = volume;
    }

    /// Appends a segment to what the sink plays: it is played after all that
    /// was appended before.
    pub fn append(&mut self, segment: Vec<i32>)
        ensures
            final(self).samples@ == old(self).samples@ + segment@,
            final(self).volume == old(self).volume,
            final(self).paused == old(self).paused,
    {
        let mut segment = segment;
        self.samples.append(&mut segment);
    }
}

/// How long the notes last together at `tempo` beats a minute, in microseconds.
pub open spec fn notes_micros(notes: Seq<Note>, tempo: int) -> int
    decreases notes.len(),
{
    if notes.len() == 0 {
        0
    } else {
        notes_micros(notes.drop_last(), tempo) + notes.last().spec_micros(tempo)
    }
}

/// The phase at which an oscillator stands that started at `phase` and has
/// given the samples of the notes, one note after the other, without being
/// put back in between.
pub open spec fn phase_after_notes(
    size: int,
    sample_rate: int,
    tempo: int,
    phase: int,
    notes: Seq<Note>,
) -> int
    decreases notes.len(),
{
    if notes.len() == 0 {
        phase
    } else {
        phase_after(
            phase_after_notes(size, sample_rate, tempo, phase, notes.drop_last()),
            phase_increment(notes.last().pitch as int, size, sample_rate),
            size,
            notes.last().spec_samples(tempo, sample_rate) as nat,
        )
    }
}

/// The increment with which an oscillator is left that has played the
/// notes: that of the pitch of the last note, or, without a note, the one
/// it had.
pub open spec fn increment_after_notes(
    size: int,
    sample_rate: int,
    increment: int,
    notes: Seq<Note>,
) -> int {
    if notes.len() == 0 {
        increment
    } else {
        phase_increment(notes.last().pitch as int, size, sample_rate)
    }
}

/// The samples of the notes, one note after the other: each note is read
/// from the table at its pitch, from the phase at which the note before it
/// ended, for as many samples as fill its length.
pub open spec fn notes_stream(
    table: Seq<i32>,
    sample_rate: int,
    tempo: int,
    phase: int,
    notes: Seq<Note>,
) -> Seq<i32>
    decreases notes.len(),
{
    if notes.len() == 0 {
        Seq::empty()
    } else {
        notes_stream(table, sample_rate, tempo, phase, notes.drop_last()) + stream(
            table,
            phase_after_notes(table.len() as int, sample_rate, tempo, phase, notes.drop_last()),
            phase_increment(notes.last().pitch as int, table.len() as int, sample_rate),
            notes.last().spec_samples(tempo, sample_rate) as nat,
        )
    }
}

/// A track as it is played: an oscillator, the sink that its notes are
/// rendered into, its volume in 65536ths, and how long the rendered notes
/// last, in microseconds.
pub struct Track<'a> {
    pub oscillator: WavetableOscillator<'a>,
    pub sink: Sink,
    pub notes: Vec<Note>,
    pub volume: u32,
    pub duration: u128,
    pub tempo: u32,
}

/// Why `proto` cannot be scheduled with the tables of `bank`, if it cannot.
pub open spec fn fault_of(proto: ProtoTrack, bank: TableBank) -> Option<SongError> {
    if !bank.supports(proto.instrument) {
        Some(SongError::UnsupportedInstrument)
    } else if proto.tempo == 0 {
        Some(SongError::Configuration)
    } else {
        None
    }
}

/// Whether `track` is `proto` rendered with the tables of `bank`: it holds
/// the samples of all the notes of `proto`, played from the table of its
/// instrument from the start of the table on, and lasts as long as they do.
pub open spec fn is_schedule_of(track: Track, proto: ProtoTrack, bank: TableBank) -> bool {
    let table = track.oscillator.table();
    let tempo = proto.tempo as int;
    &&& bank.table(proto.instrument.wave()) == Some(table)
    &&& track.oscillator.rate() == SAMPLE_RATE
    &&& track.oscillator.phase() == phase_after_notes(
        table.len() as int,
        SAMPLE_RATE as int,
        tempo,
        0,
        proto.notes@,
    )
    &&& track.oscillator.increment() == increment_after_notes(
        table.len() as int,
        SAMPLE_RATE as int,
        0,
        proto.notes@,
    )
    &&& track.sink.samples@ == notes_stream(table, SAMPLE_RATE as int, tempo, 0, proto.notes@)
    &&& track.sink.paused
    &&& track.sink.volume == UNIT
    &&& track.notes@ == proto.notes@
    &&& track.volume == UNIT
    &&& track.duration == notes_micros(proto.notes@, tempo)
    &&& track.tempo == proto.tempo
}

impl<'a> Track<'a> {
    /// A track at full volume of which nothing is rendered yet.
    pub fn new(oscillator: WavetableOscillator<'a>, sink: Sink, notes: Vec<Note>, tempo: u32) -> (track:
        Track<'a>)
        ensures
            track.oscillator == oscillator,
            track.sink == sink,
            track.notes == notes,
            track.volume == UNIT,
            track.duration == 0,
            track.tempo == tempo,
    {
        Track { oscillator, sink, notes, volume: 65536, duration: 0, tempo }
    }

    /// The track for `proto`, with nothing rendered yet: a new oscillator at
    /// the start of the table of the instrument, an empty sink, and the notes
    /// and the tempo of `proto`. An instrument for which `bank` has no table
    /// is refused.
    pub fn from_proto(proto: &ProtoTrack, bank: &'a TableBank) -> (r: Result<Track<'a>, SongError>)
        ensures
            !bank.supports(proto.instrument) ==> r == Err::<Track<'a>, SongError>(
                SongError::UnsupportedInstrument,
            ),
            bank.supports(proto.instrument) ==> r is Ok && ({
                let track = r->Ok_0;
                &&& Some(track.oscillator.table()) == bank.table(proto.instrument.wave())
                &&& track.oscillator.rate() == SAMPLE_RATE
                &&& track.oscillator.phase() == 0
                &&& track.oscillator.increment() == 0
                &&& track.sink.samples@.len() == 0
                &&& track.sink.volume == UNIT
                &&& !track.sink.paused
                &&& track.notes@ == proto.notes@
                &&& track.volume == UNIT
                &&& track.duration == 0
                &&& track.tempo == proto.tempo
            }),
    {
        let table = match bank.table_for(&proto.instrument) {
            Ok(table) => table,
            Err(e) => {
                return Err(e);
            },
        };
        let mut notes: Vec<Note> = Vec::with_capacity(proto.notes.len());
        let mut i: usize = 0;
        while i < proto.notes.len()
            invariant
                i <= proto.notes@.len(),
                notes@ == proto.notes@.take(i as int),
            decreases proto.notes@.len() - i,
        {
            notes.push(proto.notes[i]);
            i += 1;
            assert(notes@ =~= proto.notes@.take(i as int));
        }
        assert(proto.notes@.take(i as int) =~= proto.notes@);
        Ok(Track::new(WavetableOscillator::new(SAMPLE_RATE, table), Sink::new(), notes, proto.tempo))
    }

    /// Renders one note into the sink: the oscillator is set to the pitch of
    /// the note and gives, from the phase where it stands, the samples that
    /// fill the length of the note; the length is added to that of the track.
    fn render_note(&mut self, note: Note)
        requires
            old(self).tempo > 0,
            old(self).duration + 0x1_0000_0000_0000 <= u128::MAX,
        ensures
            final(self).sink.samples@ == old(self).sink.samples@ + stream(
                old(self).oscillator.table(),
                old(self).oscillator.phase(),
                phase_increment(
                    note.pitch as int,
                    old(self).oscillator.table().len() as int,
                    old(self).oscillator.rate(),
                ),
                note.spec_samples(old(self).tempo as int, old(self).oscillator.rate()) as nat,
            ),
            final(self).oscillator.phase() == phase_after(
                old(self).oscillator.phase(),
                phase_increment(
                    note.pitch as int,
                    old(self).oscillator.table().len() as int,
                    old(self).oscillator.rate(),
                ),
                old(self).oscillator.table().len() as int,
                note.spec_samples(old(self).tempo as int, old(self).oscillator.rate()) as nat,
            ),
            final(self).oscillator.increment() == phase_increment(
                note.pitch as int,
                old(self).oscillator.table().len() as int,
                old(self).oscillator.rate(),
            ),
            final(self).duration == old(self).duration + note.spec_micros(old(self).tempo as int),
            final(self).oscillator.table() == old(self).oscillator.table(),
            final(self).oscillator.rate() == old(self).oscillator.rate(),
            final(self).sink.volume == old(self).sink.volume,
            final(self).sink.paused == old(self).sink.paused,
            final(self).notes == old(self).notes,
            final(self).volume == old(self).volume,
            final(self).tempo == old(self).tempo,
    {
        let sample_rate = self.oscillator.sample_rate();
        let micros = note.micros(self.tempo).unwrap();
        let count = note.samples(self.tempo, sample_rate).unwrap();
        self.oscillator.set_frequency(note.pitch);
        let mut segment: Vec<i32> = Vec::new();
        self.oscillator.render(count, &mut segment);
        self.sink.append(segment);
        self.duration = self.duration + (micros as u128);
    }

    /// Renders the notes of the track into its sink, which is held back from
    /// playing: one segment for each note, in the order of the notes, behind
    /// what the sink held before. The oscillator is not put back between the
    /// notes, so each note starts at the phase at which the one before it
    /// ended. The length of the track becomes that of its notes together. A
    /// tempo of zero is refused, and the track is then left as it was.
    pub fn render(&mut self) -> (r: Result<(), SongError>)
        ensures
            old(self).tempo == 0 ==> r == Err::<(), SongError>(SongError::Configuration)
                && *final(self) == *old(self),
            old(self).tempo > 0 ==> r is Ok && ({
                let table = old(self).oscillator.table();
                let rate = old(self).oscillator.rate();
                let tempo = old(self).tempo as int;
                let phase = old(self).oscillator.phase();
                let notes = old(self).notes@;
                &&& final(self).sink.samples@ == old(self).sink.samples@ + notes_stream(
                    table,
                    rate,
                    tempo,
                    phase,
                    notes,
                )
                &&& final(self).sink.paused
                &&& final(self).sink.volume == old(self).sink.volume
                &&& final(self).duration == notes_micros(notes, tempo)
                &&& final(self).oscillator.phase() == phase_after_notes(
                    table.len() as int,
                    rate,
                    tempo,
                    phase,
                    notes,
                )
                &&& final(self).oscillator.increment() == increment_after_notes(
                    table.len() as int,
                    rate,
                    old(self).oscillator.increment(),
                    notes,
                )
                &&& final(self).oscillator.table() == table
                &&& final(self).oscillator.rate() == rate
                &&& final(self).notes == old(self).notes
                &&& final(self).volume == old(self).volume
                &&& final(self).tempo == old(self).tempo
            }),
    {
        if self.tempo == 0 {
            return Err(SongError::Configuration);
        }
        let ghost table = self.oscillator.table();
        let ghost rate = self.oscillator.rate();
        let ghost tempo = self.tempo as int;
        let ghost phase = self.oscillator.phase();
        let ghost notes = self.notes@;
        let ghost before = self.sink.samples@;
        self.duration = 0;
        self.sink.pause();
        let count = self.notes.len();
        let mut i: usize = 0;
        while i < count
            invariant
                i <= count,
                count == notes.len(),
                self.notes@ == notes,
                self.notes == old(self).notes,
                self.tempo == tempo,
                self.tempo == old(self).tempo,
                tempo > 0,
                self.volume == old(self).volume,
                self.oscillator.table() == table,
                self.oscillator.rate() == rate,
                self.sink.paused,
                self.sink.volume == old(self).sink.volume,
                self.duration == notes_micros(notes.take(i as int), tempo),
                self.duration <= i * 0x1_0000_0000_0000,
                self.oscillator.increment() == increment_after_notes(
                    table.len() as int,
                    rate,
                    old(self).oscillator.increment(),
                    notes.take(i as int),
                ),
                self.oscillator.phase() == phase_after_notes(
                    table.len() as int,
                    rate,
                    tempo,
                    phase,
                    notes.take(i as int),
                ),
                self.sink.samples@ == before + notes_stream(
                    table,
                    rate,
                    tempo,
                    phase,
                    notes.take(i as int),
                ),
            decreases count - i,
        {
            let note = self.notes[i];
            proof {
                let played = notes.take(i as int + 1);
                assert(played.drop_last() =~= notes.take(i as int));
                assert(played.last() == note);
                lemma_note_length_is_small(note, tempo);
            }
            self.render_note(note);
            i += 1;
            assert(self.sink.samples@ =~= before + notes_stream(
                table,
                rate,
                tempo,
                phase,
                notes.take(i as int),
            ));
        }
        assert(notes.take(i as int) =~= notes);
        Ok(())
    }

    /// The track for `proto` with all its notes rendered. An instrument for
    /// which `bank` has no table is refused; if it has one, a tempo of zero is.
    pub fn schedule(proto: &ProtoTrack, bank: &'a TableBank) -> (r: Result<Track<'a>, SongError>)
        ensures
            match fault_of(*proto, *bank) {
                Some(e) => r == Err::<Track<'a>, SongError>(e),
                None => r is Ok && is_schedule_of(r->Ok_0, *proto, *bank),
            },
    {
        let mut track = match Track::from_proto(proto, bank) {
            Ok(track) => track,
            Err(e) => {
                return Err(e);
            },
        };
        match track.render() {
            Ok(()) => Ok(track),
            Err(e) => Err(e),
        }
    }
}

/// The oscillator of a rendered track reads a table of the size of the bank
/// that the track was made from.
pub proof fn lemma_scheduled_table_has_the_size_of_the_bank(
    track: Track,
    proto: ProtoTrack,
    bank: TableBank,
    size: nat,
)
    requires
        bank.has_size(size),
        is_schedule_of(track, proto, bank),
    ensures
        track.oscillator.table().len() == size,
{
    assert(bank.table(proto.instrument.wave()) is Some);
}

/// How many samples the notes take together.
pub open spec fn notes_samples(notes: Seq<Note>, tempo: int, sample_rate: int) -> int
    decreases notes.len(),
{
    if notes.len() == 0 {
        0
    } else {
        notes_samples(notes.drop_last(), tempo, sample_rate) + notes.last().spec_samples(tempo, sample_rate)
    }
}

/// The notes are rendered into as many samples as fill their lengths: none
/// is left out and none is added.
pub proof fn lemma_notes_stream_has_the_size_of_the_notes(
    table: Seq<i32>,
    sample_rate: int,
    tempo: int,
    phase: int,
    notes: Seq<Note>,
)
    requires
        tempo > 0,
        sample_rate >= 0,
    ensures
        notes_stream(table, sample_rate, tempo, phase, notes).len() == notes_samples(
            notes,
            tempo,
            sample_rate,
        ),
    decreases notes.len(),
{
    if notes.len() > 0 {
        lemma_notes_stream_has_the_size_of_the_notes(
            table,
            sample_rate,
            tempo,
            phase,
            notes.drop_last(),
        );
        let filled = notes.last().duration * 60 * sample_rate;
        assert(filled >= 0) by (nonlinear_arith)
            requires
                filled == notes.last().duration * 60 * sample_rate,
                notes.last().duration >= 0,
                sample_rate >= 0,
        ;
        vstd::arithmetic::div_mod::lemma_div_pos_is_pos(filled, 1000 * tempo);
    }
}

/// Notes that follow others are rendered from the phase at which the others
/// ended: the samples of two runs of notes played in one go are those of the
/// first run, and behind them those of the second run played from there.
pub proof fn lemma_notes_stream_continues(
    table: Seq<i32>,
    sample_rate: int,
    tempo: int,
    phase: int,
    first: Seq<Note>,
    second: Seq<Note>,
)
    ensures
        phase_after_notes(table.len() as int, sample_rate, tempo, phase, first + second)
            == phase_after_notes(
            table.len() as int,
            sample_rate,
            tempo,
            phase_after_notes(table.len() as int, sample_rate, tempo, phase, first),
            second,
        ),
        notes_stream(table, sample_rate, tempo, phase, first + second) == notes_stream(
            table,
            sample_rate,
            tempo,
            phase,
            first,
        ) + notes_stream(
            table,
            sample_rate,
            tempo,
            phase_after_notes(table.len() as int, sample_rate, tempo, phase, first),
            second,
        ),
    decreases second.len(),
{
    let size = table.len() as int;
    let middle = phase_after_notes(size, sample_rate, tempo, phase, first);
    if second.len() == 0 {
        assert(first + second =~= first);
        assert(notes_stream(table, sample_rate, tempo, phase, first) + Seq::<i32>::empty()
            =~= notes_stream(table, sample_rate, tempo, phase, first));
    } else {
        let all = first + second;
        assert(all.drop_last() =~= first + second.drop_last());
        assert(all.last() == second.last());
        lemma_notes_stream_continues(table, sample_rate, tempo, phase, first, second.drop_last());
        let head = notes_stream(table, sample_rate, tempo, phase, first);
        let body = notes_stream(table, sample_rate, tempo, middle, second.drop_last());
        let tail = stream(
            table,
            phase_after_notes(size, sample_rate, tempo, middle, second.drop_last()),
            phase_increment(second.last().pitch as int, size, sample_rate),
            second.last().spec_samples(tempo, sample_rate) as nat,
        );
        assert((head + body) + tail =~= head + (body + tail));
    }
}

/// The notes last together as long as the first of them and the rest.
pub proof fn lemma_notes_micros_adds_up(first: Seq<Note>, second: Seq<Note>, tempo: int)
    ensures
        notes_micros(first + second, tempo) == notes_micros(first, tempo) + notes_micros(
            second,
            tempo,
        ),
    decreases second.len(),
{
    if second.len() == 0 {
        assert(first + second =~= first);
    } else {
        assert((first + second).drop_last() =~= first + second.drop_last());
        lemma_notes_micros_adds_up(first, second.drop_last(), tempo);
    }
}

/// A note takes less than 2^61 samples.
pub proof fn lemma_note_size_is_small(note: Note, tempo: int, sample_rate: int)
    requires
        tempo > 0,
        0 <= sample_rate <= u32::MAX,
    ensures
        0 <= note.spec_samples(tempo, sample_rate) < 0x2000_0000_0000_0000,
{
    let filled = note.duration * 60 * sample_rate;
    assert(0 <= filled <= 0x3c_0000_0000 * 0x1_0000_0000) by (nonlinear_arith)
        requires
            filled == note.duration * 60 * sample_rate,
            0 <= note.duration <= 0xffff_ffff,
            0 <= sample_rate <= 0xffff_ffff,
    ;
    vstd::arithmetic::div_mod::lemma_div_pos_is_pos(filled, 1000 * tempo);
    vstd::arithmetic::div_mod::lemma_div_is_ordered_by_denominator(filled, 1000, 1000 * tempo);
}

/// A note lasts less than 2^48 microseconds.
pub proof fn lemma_note_length_is_small(note: Note, tempo: int)
    requires
        tempo > 0,
    ensures
        0 <= note.spec_micros(tempo) < 0x1_0000_0000_0000,
{
    let beats = note.duration * 60000;
    vstd::arithmetic::div_mod::lemma_div_nonincreasing(beats, tempo);
    vstd::arithmetic::div_mod::lemma_div_pos_is_pos(beats, tempo);
}

} // verus!
