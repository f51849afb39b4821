use harmonic_sort::matcher::{best_candidate, find_best_match, overlap, score_candidate, CandidateKey};
use harmonic_sort::text::{contains_chars, fold_text, normalize};
use harmonic_sort::track::{LocalTrackData, TrackInfo};

fn chars(s: &str) -> Vec<char> {
    s.chars().collect()
}

fn entry(name: &str, artist: &str, bpm_milli: u32, key: &str, duration_ms: Option<u32>) -> LocalTrackData {
    LocalTrackData {
        name: name.to_string(),
        artist: artist.to_string(),
        bpm_milli,
        key_camelot: key.to_string(),
        duration_ms,
        album: None,
    }
}

fn track(name: &str, artist: &str, duration_ms: u32) -> TrackInfo {
    TrackInfo::new("id".to_string(), name.to_string(), artist.to_string(), duration_ms)
}

fn score_of(t: &TrackInfo, e: &LocalTrackData) -> Option<i32> {
    let key = CandidateKey::of_entry(e);
    score_candidate(&chars(&normalize(&t.artist)), &chars(&normalize(&t.name)), t.duration_ms, &key)
}

#[test]
fn normalize_trims_lowers_and_folds() {
    assert_eq!(normalize("  Don\u{2019}t Stop-Me  "), "don't stop me");
    assert_eq!(normalize("`Quoted\u{201C}x\u{201D}"), "'quoted\"x\"");
    assert_eq!(normalize("ABC"), "abc");
    assert_eq!(normalize(""), "");
}

#[test]
fn all_single_quotes_normalize_alike() {
    let plain = normalize("Don't");
    assert_eq!(plain, "don't");
    assert_eq!(normalize("Don\u{2018}t"), plain);
    assert_eq!(normalize("Don\u{2019}t"), plain);
    assert_eq!(normalize("Don`t"), plain);
}

#[test]
fn normalize_trims_unicode_white_space() {
    assert_eq!(normalize("\u{A0}\u{3000} Song\n\u{2028}"), "song");
    assert_eq!(normalize(" \t "), "");
}

#[test]
fn normalize_collapses_one_pass_of_double_spaces() {
    assert_eq!(normalize("a  b"), "a b");
    assert_eq!(normalize("a   b"), "a  b");
    assert_eq!(normalize("a    b"), "a  b");
    assert_eq!(normalize("Song - Live"), "song  live");
}

#[test]
fn fold_keeps_case() {
    assert_eq!(fold_text("A-B"), "A B");
}

#[test]
fn containment() {
    assert!(contains_chars(&chars("the kills"), &chars("kills")));
    assert!(contains_chars(&chars("abc"), &chars("")));
    assert!(!contains_chars(&chars("kil"), &chars("kills")));
    assert!(overlap(&chars("kills"), &chars("the kills")));
    assert!(!overlap(&chars("daft punk"), &chars("justice")));
}

#[test]
fn close_duration_scores_170() {
    let e = entry("Song", "Artist", 120_000, "8A", Some(200_000));
    let t = track("Song", "Artist", 201_000);
    assert_eq!(score_of(&t, &e), Some(170));
    let m = find_best_match(&t, std::slice::from_ref(&e)).unwrap();
    assert_eq!(m.name, "Song");
    assert_eq!(m.key_camelot, "8A");
}

#[test]
fn far_duration_scores_70_and_still_matches() {
    let e = entry("Song", "Artist", 120_000, "8A", Some(200_000));
    let t = track("Song", "Artist", 210_000);
    assert_eq!(score_of(&t, &e), Some(70));
    assert!(find_best_match(&t, std::slice::from_ref(&e)).is_some());
}

#[test]
fn artist_substring_scores_80() {
    let e = entry("Song", "The Kills", 120_000, "8A", None);
    let t = track("Other", "Kills", 0);
    assert_eq!(score_of(&t, &e), Some(80));
    assert!(find_best_match(&t, std::slice::from_ref(&e)).is_some());
}

#[test]
fn different_artist_is_rejected() {
    let e = entry("Song", "Daft Punk", 120_000, "8A", Some(200_000));
    let t = track("Song", "Justice", 200_000);
    assert_eq!(score_of(&t, &e), None);
    assert!(find_best_match(&t, std::slice::from_ref(&e)).is_none());
}

#[test]
fn no_candidates_no_match() {
    let t = track("Song", "Artist", 1);
    assert!(find_best_match(&t, &[]).is_none());
}

#[test]
fn highest_score_wins_and_ties_keep_the_first() {
    let cands = vec![
        entry("Song", "Artists", 1_000, "1A", None),
        entry("Song", "Artist", 2_000, "2A", None),
        entry("Song", "Artist", 3_000, "3A", None),
    ];
    let t = track("Song", "Artist", 0);
    let m = find_best_match(&t, &cands).unwrap();
    assert_eq!(m.bpm_milli, 2_000);
    let keys: Vec<CandidateKey> = cands.iter().map(CandidateKey::of_entry).collect();
    assert_eq!(best_candidate(&chars("artist"), &chars("song"), 0, &keys), Some(1));
}
