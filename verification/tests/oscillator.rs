use composer::WaveTable;
use composer::WavetableOscillator;

#[test]
fn new_oscillator_stands_still_at_the_start() {
    let table = WaveTable::from_samples(vec![10, 20, 30, 40]).unwrap();
    let mut osc = WavetableOscillator::new(44100, &table);
    assert_eq!(osc.get_sample(), 10);
    assert_eq!(osc.get_sample(), 10);
    assert_eq!(osc.lerp(), 10);
}

#[test]
fn interpolation_half_way_between_two_samples() {
    let table = WaveTable::from_samples(vec![0, 65536]).unwrap();
    let mut osc = WavetableOscillator::new(4, &table);
    // one hertz on two samples at four samples a second: half a slot a sample
    osc.set_frequency(1000);
    assert_eq!(osc.get_sample(), 0);
    assert_eq!(osc.lerp(), 32768);
    assert_eq!(osc.get_sample(), 32768);
    assert_eq!(osc.get_sample(), 65536);
    // between the last sample and the first again
    assert_eq!(osc.get_sample(), 32768);
    assert_eq!(osc.get_sample(), 0);
}

#[test]
fn interpolation_weights_the_nearer_sample_more() {
    let table = WaveTable::from_samples(vec![0, 1000, -1000]).unwrap();
    let mut osc = WavetableOscillator::new(12, &table);
    // a quarter of a slot a sample
    osc.set_frequency(1000);
    let mut got = Vec::new();
    for _ in 0..12 {
        got.push(osc.get_sample());
    }
    assert_eq!(got, vec![0, 250, 500, 750, 1000, 500, 0, -500, -1000, -750, -500, -250]);
}

#[test]
fn interpolation_rounds_down() {
    let table = WaveTable::from_samples(vec![0, 1, 0, -1]).unwrap();
    let mut osc = WavetableOscillator::new(8, &table);
    // half a slot a sample
    osc.set_frequency(1000);
    let mut got = Vec::new();
    for _ in 0..8 {
        got.push(osc.get_sample());
    }
    assert_eq!(got, vec![0, 0, 1, 0, 0, -1, -1, -1]);
}

#[test]
fn oscillator_returns_to_its_first_sample_after_a_period() {
    let table = WaveTable::saw(8).unwrap();
    let mut osc = WavetableOscillator::new(4, &table);
    // two slots a sample: back after four samples
    osc.set_frequency(1000);
    let mut got = Vec::new();
    for _ in 0..9 {
        got.push(osc.get_sample());
    }
    assert_eq!(got[4], got[0]);
    assert_eq!(got[8], got[0]);
    assert_eq!(got, vec![-65536, -32768, 0, 32768, -65536, -32768, 0, 32768, -65536]);
}

#[test]
fn phase_increment_is_frequency_times_size_over_rate() {
    // 440 Hz on 128 samples at 44100 samples a second: 1.27709... slots
    let table = WaveTable::saw(128).unwrap();
    let mut osc = WavetableOscillator::new(44100, &table);
    osc.set_frequency(440000);
    assert_eq!(osc.get_sample(), -65536);
    // phase 83695 / 65536 of a slot: 18159 / 65536 of the way from sample 1 to sample 2
    assert_eq!(osc.get_sample(), -64512 + (18159 * 1024) / 65536);
}

#[test]
fn negative_frequency_reads_the_table_backwards() {
    let table = WaveTable::from_samples(vec![0, 100, 200, 300]).unwrap();
    let mut osc = WavetableOscillator::new(4, &table);
    osc.set_frequency(-1000);
    let mut got = Vec::new();
    for _ in 0..5 {
        got.push(osc.get_sample());
    }
    assert_eq!(got, vec![0, 300, 200, 100, 0]);
}

#[test]
fn huge_frequency_wraps_round_the_table() {
    let table = WaveTable::from_samples(vec![0, 100, 200, 300]).unwrap();
    let mut osc = WavetableOscillator::new(4, &table);
    // five slots a sample is one slot a sample
    osc.set_frequency(5000);
    let mut got = Vec::new();
    for _ in 0..5 {
        got.push(osc.get_sample());
    }
    assert_eq!(got, vec![0, 100, 200, 300, 0]);
    let mut fastest = WavetableOscillator::new(1, &table);
    fastest.set_frequency(i32::MAX);
    fastest.get_sample();
    fastest.set_frequency(i32::MIN);
    fastest.get_sample();
}

#[test]
fn setting_the_frequency_keeps_the_phase() {
    let table = WaveTable::from_samples(vec![0, 100, 200, 300]).unwrap();
    let mut osc = WavetableOscillator::new(4, &table);
    osc.set_frequency(1000);
    assert_eq!(osc.get_sample(), 0);
    assert_eq!(osc.get_sample(), 100);
    osc.set_frequency(2000);
    assert_eq!(osc.get_sample(), 200);
    assert_eq!(osc.get_sample(), 0);
}

#[test]
fn reset_puts_the_oscillator_back_to_the_start() {
    let table = WaveTable::from_samples(vec![0, 100, 200, 300]).unwrap();
    let mut osc = WavetableOscillator::new(4, &table);
    osc.set_frequency(1000);
    osc.get_sample();
    osc.get_sample();
    osc.reset();
    assert_eq!(osc.get_sample(), 0);
    assert_eq!(osc.get_sample(), 100);
}

#[test]
fn render_appends_the_next_samples() {
    let table = WaveTable::from_samples(vec![0, 100, 200, 300]).unwrap();
    let mut osc = WavetableOscillator::new(4, &table);
    osc.set_frequency(1000);
    let mut sink = vec![-1];
    osc.render(6, &mut sink);
    assert_eq!(sink, vec![-1, 0, 100, 200, 300, 0, 100]);
    osc.render(0, &mut sink);
    assert_eq!(sink.len(), 7);
    assert_eq!(osc.get_sample(), 200);
}

#[test]
fn copies_of_an_oscillator_do_not_move_each_other() {
    let table = WaveTable::from_samples(vec![0, 100, 200, 300]).unwrap();
    let mut osc = WavetableOscillator::new(4, &table);
    osc.set_frequency(1000);
    osc.get_sample();
    let mut copy = osc.clone();
    assert_eq!(copy.get_sample(), 100);
    assert_eq!(copy.get_sample(), 200);
    assert_eq!(osc.get_sample(), 100);
}

#[test]
fn oscillator_is_an_endless_source_of_one_channel() {
    let table = WaveTable::from_samples(vec![5, 6]).unwrap();
    let mut osc = WavetableOscillator::new(22050, &table);
    assert_eq!(osc.channels(), 1);
    assert_eq!(osc.sample_rate(), 22050);
    assert_eq!(osc.current_frame_len(), None);
    assert_eq!(osc.total_duration(), None);
    assert_eq!(osc.next(), Some(5));
    for _ in 0..1000 {
        assert!(osc.next().is_some());
    }
}

#[test]
fn index_and_increment_count_in_phase_steps() {
    let table = WaveTable::saw(128).unwrap();
    let mut osc = WavetableOscillator::new(44100, &table);
    assert_eq!(osc.index(), 0);
    assert_eq!(osc.index_increment(), 0);
    osc.set_frequency(440000);
    // 440 * 128 / 44100 slots of 65536 steps each, rounded down
    assert_eq!(osc.index_increment(), 83695);
    osc.get_sample();
    assert_eq!(osc.index(), 83695);
    for _ in 0..1000 {
        osc.get_sample();
        assert!(osc.index() < 128 * 65536);
    }
    assert_eq!(osc.index(), (1001 * 83695) % (128 * 65536));
    osc.set_frequency(-440000);
    assert_eq!(osc.index_increment(), -83696);
    osc.set_frequency(0);
    assert_eq!(osc.index_increment(), 0);
}

#[test]
fn backwards_from_the_start_wraps_to_the_end() {
    let table = WaveTable::from_samples(vec![0, 100, 200, 300]).unwrap();
    let mut osc = WavetableOscillator::new(8, &table);
    // half a slot back with each sample
    osc.set_frequency(-1000);
    assert_eq!(osc.index_increment(), -32768);
    osc.get_sample();
    assert_eq!(osc.index(), 4 * 65536 - 32768);
    // half way from the last sample round to the first
    assert_eq!(osc.get_sample(), 150);
    assert_eq!(osc.get_sample(), 300);
}

#[test]
fn sine_table_starts_at_zero_and_peaks_after_a_quarter() {
    let size = 128usize;
    let samples: Vec<i32> = (0..size)
        .map(|n| {
            let angle = 2.0 * std::f64::consts::PI * n as f64 / size as f64;
            (angle.sin() * 65536.0).round() as i32
        })
        .collect();
    let table = WaveTable::from_samples(samples).unwrap();
    assert_eq!(table.len(), size);
    assert_eq!(table.sample(0), 0);
    assert_eq!(table.sample(size / 4), 65536);
    assert_eq!(table.sample(size / 2), 0);
    assert_eq!(table.sample(3 * size / 4), -65536);
    // one slot a sample: the oscillator gives the table as it is
    let mut osc = WavetableOscillator::new(128, &table);
    osc.set_frequency(1000);
    let mut period = Vec::new();
    osc.render(128, &mut period);
    assert_eq!(&period, table.samples());
    let sample = period[32] as f32 / 65536.0;
    assert!((sample - 1.0).abs() < 1e-6);
}
