use composer::play_song;
use composer::Instruments;
use composer::Note;
use composer::Playback;
use composer::PlaybackState;
use composer::ProtoTrack;
use composer::Sink;
use composer::SongError;
use composer::TableBank;
use composer::Track;
use composer::WaveTable;
use composer::Waveform;
use composer::WavetableOscillator;

fn song_track(instrument: Instruments, tempo: u32, notes: &[(i32, u32)]) -> ProtoTrack {
    let mut track = ProtoTrack::new(instrument);
    track.tempo = tempo;
    for (pitch, duration) in notes {
        track.notes.push(Note::new(*pitch, *duration));
    }
    track
}

#[test]
fn song_waits_for_its_longest_track() {
    let bank = TableBank::standard(128).unwrap();
    let song = vec![
        song_track(Instruments::Triangle, 100, &[(261630, 500), (293660, 500)]),
        song_track(Instruments::Saw, 100, &[(261630, 1500), (293660, 1500)]),
    ];
    let mut playback = play_song(song, &bank).unwrap();
    assert_eq!(playback.current_state(), PlaybackState::Scheduled);
    assert_eq!(playback.rendered_tracks()[0].duration, 600000);
    assert_eq!(playback.rendered_tracks()[1].duration, 1800000);
    assert_eq!(playback.longest_duration(), 1800000);
    let wait = playback.start().unwrap();
    assert!(wait >= 1800000);
    assert_eq!(wait, 1800000);
    assert_eq!(playback.current_state(), PlaybackState::Playing);
    assert!(playback.finish());
    assert_eq!(playback.current_state(), PlaybackState::Complete);
}

#[test]
fn longest_track_may_come_first() {
    let bank = TableBank::standard(16).unwrap();
    let song = vec![
        song_track(Instruments::Kick, 60, &[(100000, 20)]),
        song_track(Instruments::Snare, 60, &[(100000, 10)]),
        song_track(Instruments::Square, 60, &[(100000, 15)]),
    ];
    let mut playback = play_song(song, &bank).unwrap();
    assert_eq!(playback.start(), Some(20000));
}

#[test]
fn song_without_tracks_is_over_at_once() {
    let bank = TableBank::new();
    let mut playback = play_song(Vec::new(), &bank).unwrap();
    assert!(playback.rendered_tracks().is_empty());
    assert_eq!(playback.longest_duration(), 0);
    assert_eq!(playback.start(), Some(0));
    assert!(playback.finish());
}

#[test]
fn sinks_are_held_back_until_the_song_starts() {
    let bank = TableBank::standard(128).unwrap();
    let song = vec![
        song_track(Instruments::Square, 120, &[(440000, 100)]),
        song_track(Instruments::Snare, 120, &[(440000, 100)]),
    ];
    let mut playback = play_song(song, &bank).unwrap();
    for track in playback.rendered_tracks() {
        assert!(track.sink.paused);
        assert_eq!(track.sink.volume, 65536);
        assert_eq!(track.sink.samples.len(), 2205);
    }
    playback.start();
    for track in playback.rendered_tracks() {
        assert!(!track.sink.paused);
        assert_eq!(track.sink.volume, 32768);
        assert_eq!(track.volume, 65536);
        assert_eq!(track.sink.samples.len(), 2205);
        assert_eq!(track.duration, 50000);
    }
}

#[test]
fn sink_volume_is_half_the_track_volume() {
    let table = WaveTable::saw(8).unwrap();
    let mut quiet = Track::new(WavetableOscillator::new(44100, &table), Sink::new(), Vec::new(), 60);
    quiet.volume = 20971;
    let mut odd = Track::new(WavetableOscillator::new(44100, &table), Sink::new(), Vec::new(), 60);
    odd.volume = 3;
    let mut loud = Track::new(WavetableOscillator::new(44100, &table), Sink::new(), Vec::new(), 60);
    loud.volume = u32::MAX;
    let mut playback = Playback::new(vec![quiet, odd, loud]);
    assert_eq!(playback.start(), Some(0));
    assert_eq!(playback.rendered_tracks()[0].sink.volume, 10485);
    assert_eq!(playback.rendered_tracks()[1].sink.volume, 1);
    assert_eq!(playback.rendered_tracks()[2].sink.volume, 2147483647);
}

#[test]
fn song_is_started_once_and_ended_once() {
    let bank = TableBank::standard(128).unwrap();
    let song = vec![song_track(Instruments::Square, 120, &[(440000, 100)])];
    let mut playback = play_song(song, &bank).unwrap();
    assert!(!playback.finish());
    assert_eq!(playback.current_state(), PlaybackState::Scheduled);
    assert_eq!(playback.start(), Some(50000));
    assert_eq!(playback.start(), None);
    assert_eq!(playback.current_state(), PlaybackState::Playing);
    assert!(playback.finish());
    assert!(!playback.finish());
    assert_eq!(playback.start(), None);
    assert_eq!(playback.current_state(), PlaybackState::Complete);
}

#[test]
fn song_with_tempo_zero_is_a_configuration_error() {
    let bank = TableBank::standard(128).unwrap();
    let song = vec![
        song_track(Instruments::Triangle, 100, &[(261630, 500)]),
        song_track(Instruments::Saw, 0, &[(261630, 500)]),
    ];
    assert!(matches!(play_song(song, &bank), Err(SongError::Configuration)));
}

#[test]
fn song_with_an_instrument_without_table_is_refused() {
    let bank = TableBank::standard(128).unwrap();
    let song = vec![
        song_track(Instruments::Triangle, 100, &[(261630, 500)]),
        song_track(Instruments::Sine, 100, &[(261630, 500)]),
    ];
    assert!(matches!(play_song(song, &bank), Err(SongError::UnsupportedInstrument)));
}

#[test]
fn first_faulty_track_decides_the_error() {
    let bank = TableBank::standard(128).unwrap();
    let song = vec![
        song_track(Instruments::Triangle, 0, &[(261630, 500)]),
        song_track(Instruments::Sine, 100, &[(261630, 500)]),
    ];
    assert!(matches!(play_song(song, &bank), Err(SongError::Configuration)));
    let song = vec![
        song_track(Instruments::Sine, 100, &[(261630, 500)]),
        song_track(Instruments::Triangle, 0, &[(261630, 500)]),
    ];
    assert!(matches!(play_song(song, &bank), Err(SongError::UnsupportedInstrument)));
}

#[test]
fn song_plays_the_sine_once_the_bank_has_one() {
    let mut bank = TableBank::standard(4).unwrap();
    bank.insert(Waveform::Sine, WaveTable::from_samples(vec![0, 65536, 0, -65536]).unwrap());
    let song = vec![song_track(Instruments::Sine, 60, &[(11025000, 1)])];
    let playback = play_song(song, &bank).unwrap();
    // 11025 Hz on four samples at 44100 samples a second: one slot a sample
    let samples = &playback.rendered_tracks()[0].sink.samples;
    assert_eq!(samples.len(), 44);
    assert_eq!(&samples[..6], &[0, 65536, 0, -65536, 0, 65536]);
}

#[test]
fn every_track_has_an_oscillator_of_its_own() {
    let bank = TableBank::standard(128).unwrap();
    let song = vec![
        song_track(Instruments::Saw, 100, &[(261630, 500), (293660, 500)]),
        song_track(Instruments::Saw, 100, &[(261630, 500), (293660, 500)]),
    ];
    let playback = play_song(song, &bank).unwrap();
    let tracks = playback.rendered_tracks();
    assert_eq!(tracks[0].sink.samples, tracks[1].sink.samples);
    assert_eq!(tracks[0].sink.samples[0], -65536);
}
