use composer::wavetable::MAX_TABLE_SIZE;
use composer::wavetable::UNIT;
use composer::SongError;
use composer::WaveTable;

#[test]
fn every_kind_of_table_has_the_size_asked_for() {
    for size in [1usize, 2, 3, 64, 128, 1000] {
        assert_eq!(WaveTable::saw(size).unwrap().len(), size);
        assert_eq!(WaveTable::square(size).unwrap().len(), size);
        assert_eq!(WaveTable::triangle(size).unwrap().len(), size);
        assert_eq!(WaveTable::noise(size).unwrap().len(), size);
        assert_eq!(WaveTable::from_samples(vec![7; size]).unwrap().len(), size);
    }
}

#[test]
fn saw_table_is_a_ramp_from_minus_one() {
    let table = WaveTable::saw(128).unwrap();
    for n in 0..128usize {
        assert_eq!(table.sample(n), -65536 + 1024 * n as i32);
    }
    assert_eq!(table.sample(0), -UNIT);
    assert_eq!(table.sample(64), 0);
    assert_eq!(table.sample(127), 64512);
}

#[test]
fn saw_table_rounds_down() {
    let table = WaveTable::saw(3).unwrap();
    assert_eq!(table.samples(), &vec![-65536, -21846, 21845]);
}

#[test]
fn square_table_holds_plus_and_minus_one() {
    let table = WaveTable::square(128).unwrap();
    assert_eq!(table.sample(0), UNIT);
    for n in 0..128usize {
        let expected = if n <= 64 { 65536 } else { -65536 };
        assert_eq!(table.sample(n), expected);
    }
}

#[test]
fn square_table_of_odd_size() {
    let table = WaveTable::square(5).unwrap();
    assert_eq!(table.samples(), &vec![65536, 65536, 65536, -65536, -65536]);
}

#[test]
fn triangle_table_rises_and_falls() {
    let table = WaveTable::triangle(128).unwrap();
    assert_eq!(table.sample(0), -65536);
    assert_eq!(table.sample(32), 0);
    assert_eq!(table.sample(64), 65536);
    assert_eq!(table.sample(96), 0);
    assert_eq!(table.sample(127), -63488);
    for n in 0..128usize {
        let expected = if n < 64 { -65536 + 2048 * n as i32 } else { 3 * 65536 - 2048 * n as i32 };
        assert_eq!(table.sample(n), expected);
    }
}

#[test]
fn triangle_table_of_odd_size_stays_in_range() {
    let table = WaveTable::triangle(5).unwrap();
    assert_eq!(table.samples(), &vec![-65536, -13108, 39321, 39321, -13108]);
}

#[test]
fn table_of_one_sample() {
    assert_eq!(WaveTable::saw(1).unwrap().samples(), &vec![-65536]);
    assert_eq!(WaveTable::square(1).unwrap().samples(), &vec![65536]);
    assert_eq!(WaveTable::triangle(1).unwrap().samples(), &vec![-65536]);
}

#[test]
fn generating_a_table_twice_gives_the_same_samples() {
    for size in [1usize, 7, 64, 128] {
        assert_eq!(WaveTable::saw(size).unwrap().samples(), WaveTable::saw(size).unwrap().samples());
        assert_eq!(
            WaveTable::square(size).unwrap().samples(),
            WaveTable::square(size).unwrap().samples()
        );
        assert_eq!(
            WaveTable::triangle(size).unwrap().samples(),
            WaveTable::triangle(size).unwrap().samples()
        );
    }
}

#[test]
fn empty_table_is_refused() {
    assert!(matches!(WaveTable::saw(0), Err(SongError::Configuration)));
    assert!(matches!(WaveTable::square(0), Err(SongError::Configuration)));
    assert!(matches!(WaveTable::triangle(0), Err(SongError::Configuration)));
    assert!(matches!(WaveTable::noise(0), Err(SongError::Configuration)));
    assert!(matches!(WaveTable::from_samples(Vec::new()), Err(SongError::Configuration)));
}

#[test]
fn oversized_table_is_refused() {
    let size = MAX_TABLE_SIZE + 1;
    assert!(matches!(WaveTable::saw(size), Err(SongError::Configuration)));
    assert!(matches!(WaveTable::square(size), Err(SongError::Configuration)));
    assert!(matches!(WaveTable::triangle(size), Err(SongError::Configuration)));
    assert!(matches!(WaveTable::noise(size), Err(SongError::Configuration)));
    assert!(matches!(WaveTable::from_samples(vec![0; size]), Err(SongError::Configuration)));
}

#[test]
fn table_from_samples_keeps_them() {
    let table = WaveTable::from_samples(vec![0, 65536, -3, 200000]).unwrap();
    assert_eq!(table.len(), 4);
    assert_eq!(table.samples(), &vec![0, 65536, -3, 200000]);
    assert_eq!(table.sample(3), 200000);
}

#[test]
fn noise_table_stays_in_range() {
    let table = WaveTable::noise(4096).unwrap();
    for n in 0..4096usize {
        assert!(table.sample(n) >= -UNIT);
        assert!(table.sample(n) < UNIT);
    }
}

#[test]
fn noise_table_is_not_constant() {
    let table = WaveTable::noise(128).unwrap();
    let first = table.sample(0);
    assert!(table.samples().iter().any(|s| *s != first));
    assert!(table.samples().iter().any(|s| *s != -UNIT));
    assert!(table.samples().iter().any(|s| *s != UNIT));
}

#[test]
fn largest_table_is_accepted() {
    let table = WaveTable::saw(MAX_TABLE_SIZE).unwrap();
    assert_eq!(table.len(), 16777216);
    assert_eq!(table.sample(0), -65536);
    assert_eq!(table.sample(MAX_TABLE_SIZE / 2), 0);
    assert_eq!(table.sample(MAX_TABLE_SIZE - 1), 65535);
    assert!(WaveTable::from_samples(vec![0; MAX_TABLE_SIZE]).is_ok());
}
