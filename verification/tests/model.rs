use emycloud_client_rs::AudioCoverage;
use emycloud_client_rs::AudioMatch;
use emycloud_client_rs::Fixed;
use emycloud_client_rs::Gap;
use emycloud_client_rs::QueryResult;
use emycloud_client_rs::TrackInfo;

fn fixed(units: i64) -> Fixed {
    Fixed { units }
}

fn sound_coverage() -> AudioCoverage {
    AudioCoverage {
        query_match_starts_at: fixed(0),
        track_match_starts_at: fixed(0),
        query_coverage: Some(fixed(900_000_000)),
        track_coverage: Some(fixed(100_000_000)),
        query_coverage_length: fixed(4_500_000_000),
        track_coverage_length: fixed(4_500_000_000),
        query_discrete_coverage_length: fixed(4_500_000_000),
        track_discrete_coverage_length: fixed(4_500_000_000),
        query_length: fixed(5_000_000_000),
        track_length: fixed(39_500_000_000),
        query_gaps: vec![],
        track_gaps: vec![Gap::new(fixed(4_500_000_000), fixed(39_500_000_000), true).unwrap()],
    }
}

fn result_with(length: Fixed, coverage: Option<AudioCoverage>) -> QueryResult {
    QueryResult {
        id: "m1".to_string(),
        track: TrackInfo { id: "t1".to_string(), title: None, artist: None, length },
        audio: coverage.map(|coverage| AudioMatch { id: "q1".to_string(), coverage }),
    }
}

#[test]
fn a_new_gap_is_as_long_as_the_distance_from_start_to_end() {
    let gap = Gap::new(fixed(4_500_000_000), fixed(39_500_000_000), true).unwrap();
    assert_eq!(gap.start, fixed(4_500_000_000));
    assert_eq!(gap.end, fixed(39_500_000_000));
    assert!(gap.is_on_edge);
    assert_eq!(gap.length_in_seconds, fixed(35_000_000_000));
    assert!(gap.is_valid());
    let short = Gap::new(fixed(0), fixed(1), false).unwrap();
    assert_eq!(short.length_in_seconds, fixed(1));
    assert!(!short.is_on_edge);
    let long = Gap::new(fixed(0), fixed(i64::MAX), false).unwrap();
    assert_eq!(long.length_in_seconds, fixed(i64::MAX));
}

#[test]
fn a_gap_starts_before_it_ends_and_not_before_zero() {
    assert_eq!(Gap::new(fixed(5), fixed(5), false), None);
    assert_eq!(Gap::new(fixed(6), fixed(5), false), None);
    assert_eq!(Gap::new(fixed(-1), fixed(5), false), None);
    assert_eq!(Gap::new(fixed(i64::MIN), fixed(i64::MAX), true), None);
}

#[test]
fn a_gap_with_another_length_than_its_distance_is_not_well_formed() {
    let mut gap = Gap::new(fixed(10), fixed(30), false).unwrap();
    assert!(gap.is_valid());
    gap.length_in_seconds = fixed(21);
    assert!(!gap.is_valid());
    gap.length_in_seconds = fixed(20);
    gap.start = fixed(30);
    assert!(!gap.is_valid());
    let extreme = Gap {
        start: fixed(0),
        end: fixed(i64::MAX),
        is_on_edge: false,
        length_in_seconds: fixed(i64::MIN),
    };
    assert!(!extreme.is_valid());
}

#[test]
fn a_sound_coverage_is_well_formed() {
    assert!(sound_coverage().is_valid());
    let mut without_ratios = sound_coverage();
    without_ratios.query_coverage = None;
    without_ratios.track_coverage = None;
    assert!(without_ratios.is_valid());
    let mut at_the_bounds = sound_coverage();
    at_the_bounds.query_coverage = Some(fixed(0));
    at_the_bounds.track_coverage = Some(fixed(1_000_000_000));
    assert!(at_the_bounds.is_valid());
}

#[test]
fn a_ratio_outside_zero_to_one_is_not_well_formed() {
    let mut coverage = sound_coverage();
    coverage.query_coverage = Some(fixed(1_000_000_001));
    assert!(!coverage.is_valid());
    let mut coverage = sound_coverage();
    coverage.track_coverage = Some(fixed(-1));
    assert!(!coverage.is_valid());
}

#[test]
fn a_negative_duration_is_not_well_formed() {
    let edits: [fn(&mut AudioCoverage); 8] = [
        |c| c.query_match_starts_at = Fixed { units: -1 },
        |c| c.track_match_starts_at = Fixed { units: -1 },
        |c| c.query_coverage_length = Fixed { units: -1 },
        |c| c.track_coverage_length = Fixed { units: -1 },
        |c| c.query_discrete_coverage_length = Fixed { units: -1 },
        |c| c.track_discrete_coverage_length = Fixed { units: -1 },
        |c| c.query_length = Fixed { units: -1 },
        |c| c.track_length = Fixed { units: -1 },
    ];
    for edit in edits {
        let mut coverage = sound_coverage();
        edit(&mut coverage);
        assert!(!coverage.is_valid());
    }
}

#[test]
fn one_gap_that_is_not_well_formed_spoils_the_coverage() {
    let bad = Gap {
        start: fixed(3),
        end: fixed(2),
        is_on_edge: false,
        length_in_seconds: fixed(1),
    };
    let mut coverage = sound_coverage();
    coverage.query_gaps.push(bad);
    assert!(!coverage.is_valid());
    let mut coverage = sound_coverage();
    coverage.track_gaps.push(bad);
    assert!(!coverage.is_valid());
}

#[test]
fn a_result_is_well_formed_with_or_without_an_alignment() {
    assert!(result_with(fixed(39_520_000_000), Some(sound_coverage())).is_valid());
    assert!(result_with(fixed(0), None).is_valid());
    assert!(!result_with(fixed(-1), None).is_valid());
    let mut coverage = sound_coverage();
    coverage.query_length = fixed(-5);
    assert!(!result_with(fixed(1), Some(coverage)).is_valid());
}
