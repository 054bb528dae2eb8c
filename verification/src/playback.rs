use vstd::prelude::*;
use crate::error::SongError;
use crate::instrument::TableBank;
use crate::track::ProtoTrack;
use crate::track::Track;
use crate::track::fault_of;
use crate::track::is_schedule_of;
use crate::wavetable::UNIT;

verus! {

/// The share of its own volume at which every track is played, in 65536ths:
/// one half.
pub const VOL_MULTIPLIER: u32 = 32768;

/// The volume of the sink of a track whose own volume is `volume`.
pub open spec fn sink_volume(volume: int) -> int {
    volume * VOL_MULTIPLIER / (UNIT as int)
}

/// The length of the longest of the tracks, in microseconds; zero if there
/// is no track.
pub open spec fn longest(tracks: Seq<Track>) -> int
    decreases tracks.len(),
{
    if tracks.len() == 0 {
        0
    } else {
        let rest = longest(tracks.drop_last());
        if tracks.last().duration > rest {
            tracks.last().duration as int
        } else {
            rest
        }
    }
}

/// No track is longer than the longest, and where there is a track, one of
/// them is as long as the longest.
pub proof fn lemma_longest_is_the_maximum(tracks: Seq<Track>)
    ensures
        forall|i: int| 0 <= i < tracks.len() ==> (#[trigger] tracks[i]).duration <= longest(tracks),
        tracks.len() > 0 ==> exists|i: int|
            0 <= i < tracks.len() && (#[trigger] tracks[i]).duration == longest(tracks),
        tracks.len() == 0 ==> longest(tracks) == 0,
    decreases tracks.len(),
{
    if tracks.len() > 0 {
        let rest = tracks.drop_last();
        lemma_longest_is_the_maximum(rest);
        assert forall|i: int| 0 <= i < tracks.len() implies (#[trigger] tracks[i]).duration
            <= longest(tracks) by {
            if i < rest.len() {
                assert(rest[i] == tracks[i]);
            }
        }
        if tracks.last().duration > longest(rest) || rest.len() == 0 {
            assert(tracks[tracks.len() - 1].duration == longest(tracks));
        } else {
            let i = choose|i: int| 0 <= i < rest.len() && (#[trigger] rest[i]).duration == longest(rest);
            assert(tracks[i] == rest[i]);
        }
    }
}

/// Where the playing of a song stands.
#[derive(Clone, Copy, Debug, PartialEq, Eq, Structural)]
pub enum PlaybackState {
    /// The tracks are rendered and nothing plays yet.
    Scheduled,
    /// All sinks have been started.
    Playing,
    /// The longest track has been played to its end.
    Complete,
}

/// The tracks of a song and where their playing stands. The sinks are
/// started together, and the song is over when its longest track is.
pub struct Playback<'a> {
    tracks: Vec<Track<'a>>,
    state: PlaybackState,
}

/// Track `before` as it is once its sink has been started: the sink plays,
/// at the volume of the track times the master volume, and nothing else
/// has changed.
pub open spec fn is_started(after: Track, before: Track) -> bool {
    &&& after.sink.samples == before.sink.samples
    &&& after.sink.volume == sink_volume(before.volume as int)
    &&& !after.sink.paused
    &&& after.oscillator == before.oscillator
    &&& after.notes == before.notes
    &&& after.volume == before.volume
    &&& after.duration == before.duration
    &&& after.tempo == before.tempo
}

impl<'a> Playback<'a> {
    /// The tracks of the song.
    pub closed spec fn tracks(&self) -> Seq<Track<'a>> {
        self.tracks@
    }

    /// Where the playing stands.
    pub closed spec fn state(&self) -> PlaybackState {
        self.state
    }

    /// The song of the given tracks, of which nothing plays yet.
    pub fn new(tracks: Vec<Track<'a>>) -> (playback: Playback<'a>)
        ensures
            playback.tracks() == tracks@,
            playback.state() == PlaybackState::Scheduled,
    {
        Playback { tracks, state: PlaybackState::Scheduled }
    }

    /// Where the playing stands.
    pub fn current_state(&self) -> (state: PlaybackState)
        ensures
            state == self.state(),
    {
        self.state
    }

    /// The tracks of the song.
    pub fn rendered_tracks(&self) -> (tracks: &Vec<Track<'a>>)
        ensures
            tracks@ == self.tracks(),
    {
        &self.tracks
    }

    /// The length of the longest track, in microseconds.
    pub fn longest_duration(&self) -> (micros: u128)
        ensures
            micros == longest(self.tracks()),
    {
        let mut micros: u128 = 0;
        let mut i: usize = 0;
        while i < self.tracks.len()
            invariant
                i <= self.tracks@.len(),
                micros == longest(self.tracks@.take(i as int)),
            decreases self.tracks@.len() - i,
        {
            assert(self.tracks@.take(i as int + 1).drop_last() =~= self.tracks@.take(i as int));
            if self.tracks[i].duration > micros {
                micros = self.tracks[i].duration;
            }
            i += 1;
        }
        assert(self.tracks@.take(i as int) =~= self.tracks@);
        micros
    }

    /// Starts the song, if it has not been started before: every sink is set
    /// to the volume of its track times the master volume, and then all are
    /// let play, one straight after the other. The result is the time to wait
    /// until the song is over, in microseconds: the length of its longest
    /// track. A song that was started before is left as it is.
    pub fn start(&mut self) -> (wait: Option<u128>)
        ensures
            old(self).state() != PlaybackState::Scheduled ==> wait.is_none() && *final(self) == *old(
                self,
            ),
            old(self).state() == PlaybackState::Scheduled ==> {
                &&& wait == Some(longest(old(self).tracks()) as u128)
                &&& final(self).state() == PlaybackState::Playing
                &&& final(self).tracks().len() == old(self).tracks().len()
                &&& forall|i: int|
                    0 <= i < old(self).tracks().len() ==> is_started(
                        #[trigger] final(self).tracks()[i],
                        old(self).tracks()[i],
                    )
            },
    {
        match self.state {
            PlaybackState::Scheduled => {},
            _ => {
                return None;
            },
        }
        let wait = self.longest_duration();
        let count = self.tracks.len();
        let mut i: usize = 0;
        while i < count
            invariant
                i <= count,
                count == old(self).tracks@.len(),
                self.tracks@.len() == count,
                self.state == old(self).state,
                forall|j: int|
                    0 <= j < i ==> {
                        let after = #[trigger] self.tracks@[j];
                        let before = old(self).tracks@[j];
                        &&& after.sink.samples == before.sink.samples
                        &&& after.sink.volume == sink_volume(before.volume as int)
                        &&& after.sink.paused == before.sink.paused
                        &&& after.oscillator == before.oscillator
                        &&& after.notes == before.notes
                        &&& after.volume == before.volume
                        &&& after.duration == before.duration
                        &&& after.tempo == before.tempo
                    },
                forall|j: int| i <= j < count ==> self.tracks@[j] == old(self).tracks@[j],
            decreases count - i,
        {
            let scaled: u64 = (self.tracks[i].volume as u64) * (VOL_MULTIPLIER as u64);
            self.tracks[i].sink.volume = (scaled / 65536) as u32;
            i += 1;
        }
        let mut i: usize = 0;
        while i < count
            invariant
                i <= count,
                count == old(self).tracks@.len(),
                self.tracks@.len() == count,
                self.state == old(self).state,
                forall|j: int|
                    0 <= j < i ==> is_started(#[trigger] self.tracks@[j], old(self).tracks@[j]),
                forall|j: int|
                    i <= j < count ==> {
                        let after = #[trigger] self.tracks@[j];
                        let before = old(self).tracks@[j];
                        &&& after.sink.samples == before.sink.samples
                        &&& after.sink.volume == sink_volume(before.volume as int)
                        &&& after.sink.paused == before.sink.paused
                        &&& after.oscillator == before.oscillator
                        &&& after.notes == before.notes
                        &&& after.volume == before.volume
                        &&& after.duration == before.duration
                        &&& after.tempo == before.tempo
                    },
            decreases count - i,
        {
            self.tracks[i].sink.paused = false;
            i += 1;
        }
        self.state = PlaybackState::Playing;
        Some(wait)
    }

    /// Ends the song once the time is over that `start` gave. A song that does
    /// not play is left as it is.
    pub fn finish(&mut self) -> (done: bool)
        ensures
            done <==> old(self).state() == PlaybackState::Playing,
            done ==> final(self).state() == PlaybackState::Complete,
            !done ==> final(self).state() == old(self).state(),
            final(self).tracks() == old(self).tracks(),
    {
        match self.state {
            PlaybackState::Playing => {
                self.state = PlaybackState::Complete;
                true
            },
            _ => false,
        }
    }
}

/// The fault of the first of the tracks that has one, if any has.
pub open spec fn first_fault(prototracks: Seq<ProtoTrack>, bank: TableBank) -> Option<SongError>
    decreases prototracks.len(),
{
    if prototracks.len() == 0 {
        None
    } else {
        match first_fault(prototracks.drop_last(), bank) {
            Some(e) => Some(e),
            None => fault_of(prototracks.last(), bank),
        }
    }
}

/// Renders a song: each track is played from the table that `bank` has for
/// its instrument, with an oscillator of its own, into a sink of its own.
/// Nothing plays yet. If any track has a fault, no track is rendered, and
/// the fault of the first such track is the error.
pub fn play_song<'a>(prototracks: Vec<ProtoTrack>, bank: &'a TableBank) -> (r: Result<
    Playback<'a>,
    SongError,
>)
    ensures
        match first_fault(prototracks@, *bank) {
            Some(e) => r == Err::<Playback<'a>, SongError>(e),
            None => r is Ok && ({
                let playback = r->Ok_0;
                &&& playback.state() == PlaybackState::Scheduled
                &&& playback.tracks().len() == prototracks@.len()
                &&& forall|i: int|
                    0 <= i < prototracks@.len() ==> is_schedule_of(
                        #[trigger] playback.tracks()[i],
                        prototracks@[i],
                        *bank,
                    )
            }),
        },
{
    let mut tracks: Vec<Track<'a>> = Vec::new();
    let mut i: usize = 0;
    while i < prototracks.len()
        invariant
            i <= prototracks@.len(),
            tracks@.len() == i,
            first_fault(prototracks@.take(i as int), *bank) is None,
            forall|j: int|
                0 <= j < i ==> is_schedule_of(#[trigger] tracks@[j], prototracks@[j], *bank),
        decreases prototracks@.len() - i,
    {
        assert(prototracks@.take(i as int + 1).drop_last() =~= prototracks@.take(i as int));
        match Track::schedule(&prototracks[i], bank) {
            Ok(track) => {
                tracks.push(track);
            },
            Err(e) => {
                proof {
                    lemma_first_fault_stays(prototracks@, *bank, i as int + 1);
                }
                return Err(e);
            },
        }
        i += 1;
    }
    assert(prototracks@.take(i as int) =~= prototracks@);
    Ok(Playback::new(tracks))
}

/// A fault among the first `n` tracks is the first fault of them all.
pub proof fn lemma_first_fault_stays(prototracks: Seq<ProtoTrack>, bank: TableBank, n: int)
    requires
        0 <= n <= prototracks.len(),
        first_fault(prototracks.take(n), bank) is Some,
    ensures
        first_fault(prototracks, bank) == first_fault(prototracks.take(n), bank),
    decreases prototracks.len() - n,
{
    if n < prototracks.len() {
        assert(prototracks.take(n + 1).drop_last() =~= prototracks.take(n));
        lemma_first_fault_stays(prototracks, bank, n + 1);
    } else {
        assert(prototracks.take(n) =~= prototracks);
    }
}

} // verus!
