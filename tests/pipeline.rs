use harmonic_sort::key::{get_sort_weight, KeyError, Mode};
use harmonic_sort::sorter::{harmonic_order, harmonic_sort};
use harmonic_sort::store::{apply_lookup, EnrichOutcome, ReferenceStore};
use harmonic_sort::track::{LocalTrackData, TrackInfo};

fn entry(name: &str, artist: &str, bpm_milli: u32, key: &str, duration_ms: Option<u32>) -> LocalTrackData {
    LocalTrackData {
        name: name.to_string(),
        artist: artist.to_string(),
        bpm_milli,
        key_camelot: key.to_string(),
        duration_ms,
        album: None,
    }
}

fn track(id: &str, name: &str, artist: &str) -> TrackInfo {
    TrackInfo::new(id.to_string(), name.to_string(), artist.to_string(), 0)
}

fn resolved(id: &str, key: i32, mode: Mode, tempo_milli: u32) -> TrackInfo {
    let mut t = track(id, id, "x");
    t.key = key;
    t.mode = mode;
    t.tempo_milli = tempo_milli;
    t
}

fn ids(ts: &[TrackInfo]) -> Vec<String> {
    ts.iter().map(|t| t.id.clone()).collect()
}

#[test]
fn end_to_end_three_tracks() {
    let store = ReferenceStore::new(vec![
        entry("Alpha", "Artist A", 98_000, "2B", None),
        entry("Beta", "Artist B", 120_000, "1A", None),
    ]);
    let playlist = vec![
        track("a", "Alpha", "Artist A"),
        track("g", "Gamma", "Nobody"),
        track("b", "Beta", "Artist B"),
    ];
    let (enriched, outcomes) = store.enrich_all(&playlist);
    assert_eq!(outcomes, vec![EnrichOutcome::Matched, EnrichOutcome::Missing, EnrichOutcome::Matched]);
    assert_eq!(get_sort_weight(enriched[0].key, enriched[0].mode), 21);
    assert_eq!(get_sort_weight(enriched[2].key, enriched[2].mode), 10);
    let sorted = harmonic_sort(&enriched);
    assert_eq!(ids(&sorted), vec!["b", "a", "g"]);
    assert_eq!(sorted[0].tempo_milli, 120_000);
    assert_eq!(sorted[1].tempo_milli, 98_000);
    assert!(!sorted[2].is_resolved());
}

#[test]
fn fuzzy_fallback_finds_live_version() {
    let store = ReferenceStore::new(vec![entry("Song - Live", "The Artist", 100_000, "5A", None)]);
    let mut t = track("s", "Song", "Artist");
    assert_eq!(store.enrich_track(&mut t), EnrichOutcome::Matched);
    assert_eq!((t.key, t.mode, t.tempo_milli), (0, Mode::Minor, 100_000));
}

#[test]
fn direct_match_takes_precedence() {
    let store = ReferenceStore::new(vec![
        entry("Song (Remix)", "Artist", 90_000, "3A", None),
        entry("Song", "Artist", 110_000, "4B", None),
    ]);
    let mut t = track("s", "song", "ARTIST");
    assert_eq!(store.enrich_track(&mut t), EnrichOutcome::Matched);
    assert_eq!((t.key, t.mode, t.tempo_milli), (8, Mode::Major, 110_000));
    assert_eq!(store.len(), 2);
    assert_eq!(store.direct_candidates(&"song".chars().collect::<Vec<char>>()).len(), 1);
}

#[test]
fn invalid_reference_key_leaves_track_unresolved() {
    let store = ReferenceStore::new(vec![entry("Song", "Artist", 100_000, "13A", None)]);
    let mut t = track("s", "Song", "Artist");
    assert_eq!(store.enrich_track(&mut t), EnrichOutcome::InvalidKey);
    assert_eq!((t.key, t.tempo_milli), (-1, 0));
}

#[test]
fn unknown_track_is_missing() {
    let store = ReferenceStore::new(vec![entry("Song", "Daft Punk", 100_000, "1A", None)]);
    let mut t = track("s", "Song", "Justice");
    assert_eq!(store.enrich_track(&mut t), EnrichOutcome::Missing);
    assert!(!t.is_resolved());
}

#[test]
fn lookup_result_is_applied() {
    let mut t = track("s", "Song", "Artist");
    assert_eq!(apply_lookup(&mut t, 128_000, "Gb minor"), Ok(()));
    assert_eq!((t.key, t.mode, t.tempo_milli), (6, Mode::Minor, 128_000));
    let mut u = track("u", "Song", "Artist");
    assert_eq!(apply_lookup(&mut u, 128_000, "H"), Err(KeyError::UnrecognizedKeyString));
    assert_eq!((u.key, u.tempo_milli), (-1, 0));
}

#[test]
fn resolved_tracks_come_before_unresolved() {
    let zero_tempo = resolved("z", 4, Mode::Major, 0);
    let ts = vec![
        track("u1", "u1", "x"),
        resolved("r1", 1, Mode::Minor, 90_000),
        zero_tempo,
        resolved("r2", 8, Mode::Minor, 80_000),
        track("u2", "u2", "x"),
    ];
    let sorted = harmonic_sort(&ts);
    assert_eq!(ids(&sorted), vec!["r2", "r1", "u1", "z", "u2"]);
}

#[test]
fn equal_keys_and_tempos_keep_input_order() {
    let ts = vec![
        resolved("first", 9, Mode::Minor, 120_000),
        resolved("other", 9, Mode::Minor, 100_000),
        resolved("second", 9, Mode::Minor, 120_000),
        resolved("third", 9, Mode::Minor, 120_000),
    ];
    assert_eq!(harmonic_order(&ts), vec![1, 0, 2, 3]);
    assert_eq!(ids(&harmonic_sort(&ts)), vec!["other", "first", "second", "third"]);
}

#[test]
fn weight_then_tempo_order() {
    let ts = vec![
        resolved("w41_fast", 0, Mode::Major, 130_000),
        resolved("w10", 8, Mode::Minor, 150_000),
        resolved("w41_slow", 0, Mode::Major, 100_000),
        resolved("w40", 5, Mode::Minor, 200_000),
    ];
    assert_eq!(ids(&harmonic_sort(&ts)), vec!["w10", "w40", "w41_slow", "w41_fast"]);
}

#[test]
fn empty_playlist_sorts_to_empty() {
    assert!(harmonic_sort(&[]).is_empty());
    assert!(harmonic_order(&[]).is_empty());
}
