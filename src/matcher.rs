use vstd::prelude::*;
use crate::text::{contains_chars, has_infix, normalize_chars, normalized};
use crate::track::{LocalTrackData, TrackInfo};

verus! {

/// What the matcher reads of a reference record: its normalized artist, its
/// normalized title and its duration.
pub struct CandidateKey {
    pub artist_norm: Vec<char>,
    pub name_norm: Vec<char>,
    pub duration_ms: Option<u32>,
}

impl View for CandidateKey {
    type V = (Seq<char>, Seq<char>, Option<u32>);

    open spec fn view(&self) -> Self::V {
        (self.artist_norm@, self.name_norm@, self.duration_ms)
    }
}

/// The matcher's view of a reference record.
pub open spec fn entry_key(e: LocalTrackData) -> (Seq<char>, Seq<char>, Option<u32>) {
    (normalized(e.artist@), normalized(e.name@), e.duration_ms)
}

impl CandidateKey {
    /// Normalizes the title and the artist of a reference record.
    pub fn of_entry(e: &LocalTrackData) -> (r: Self)
        ensures
            r@ == entry_key(*e),
    {
        CandidateKey {
            artist_norm: normalize_chars(e.artist.as_str()),
            name_norm: normalize_chars(e.name.as_str()),
            duration_ms: e.duration_ms,
        }
    }
}

/// One of two texts holds the other.
pub open spec fn texts_overlap(a: Seq<char>, b: Seq<char>) -> bool {
    has_infix(a, b) || has_infix(b, a)
}

pub open spec fn duration_gap(a: u32, b: u32) -> int {
    if a >= b {
        a - b
    } else {
        b - a
    }
}

/// Score of a candidate `c` for a track with normalized artist `an`,
/// normalized title `tn` and duration `dur`: `None` when the artists do not
/// overlap (the candidate is rejected), else 100 for the same artist or 80 for
/// an overlapping one, plus 50 or minus 50 for a known duration within or not
/// within 5000 ms, plus 20 for the same title.
pub open spec fn score(an: Seq<char>, tn: Seq<char>, dur: u32, c: (Seq<char>, Seq<char>, Option<u32>)) -> Option<int> {
    if c.0 != an && !texts_overlap(c.0, an) {
        None
    } else {
        let artist = if c.0 == an { 100int } else { 80int };
        let duration = match c.2 {
            Some(d) => if duration_gap(d, dur) < 5000 { 50int } else { -50int },
            None => 0int,
        };
        let title = if c.1 == tn { 20int } else { 0int };
        Some(artist + duration + title)
    }
}

/// Best candidate among the first `i` and its score: a candidate replaces the
/// best so far only with a strictly higher score, starting from score 0.
pub open spec fn best_upto(an: Seq<char>, tn: Seq<char>, dur: u32, cs: Seq<(Seq<char>, Seq<char>, Option<u32>)>, i: int) -> (Option<int>, int)
    decreases i,
{
    if i <= 0 {
        (None, 0)
    } else {
        let prev = best_upto(an, tn, dur, cs, i - 1);
        match score(an, tn, dur, cs[i - 1]) {
            Some(s) => if s > prev.1 { (Some(i - 1), s) } else { prev },
            None => prev,
        }
    }
}

/// Index of the best candidate of `cs`, the first of those with the highest score.
pub open spec fn best_index(an: Seq<char>, tn: Seq<char>, dur: u32, cs: Seq<(Seq<char>, Seq<char>, Option<u32>)>) -> Option<int> {
    best_upto(an, tn, dur, cs, cs.len() as int).0
}

proof fn lemma_best_upto(an: Seq<char>, tn: Seq<char>, dur: u32, cs: Seq<(Seq<char>, Seq<char>, Option<u32>)>, i: int)
    requires
        0 <= i <= cs.len(),
    ensures
        ({
            let (b, h) = best_upto(an, tn, dur, cs, i);
            &&& b is None <==> forall|k: int| 0 <= k < i ==> #[trigger] score(an, tn, dur, cs[k]) is None
            &&& b is None ==> h == 0
            &&& b matches Some(j) ==> {
                &&& 0 <= j < i
                &&& score(an, tn, dur, cs[j]) == Some(h)
                &&& forall|k: int|
                    0 <= k < i && #[trigger] score(an, tn, dur, cs[k]) is Some ==> score(
                        an,
                        tn,
                        dur,
                        cs[k],
                    )->0 <= h
                &&& forall|k: int|
                    0 <= k < j && #[trigger] score(an, tn, dur, cs[k]) is Some ==> score(
                        an,
                        tn,
                        dur,
                        cs[k],
                    )->0 < h
            }
        }),
    decreases i,
{
    if i > 0 {
        lemma_best_upto(an, tn, dur, cs, i - 1);
    }
}

/// The matcher's choice, stated directly: no candidate exactly when no
/// candidate's artist overlaps; otherwise the first candidate with the
/// highest score among those whose artist overlaps.
pub proof fn lemma_best_index(an: Seq<char>, tn: Seq<char>, dur: u32, cs: Seq<(Seq<char>, Seq<char>, Option<u32>)>)
    ensures
        best_index(an, tn, dur, cs) is None <==> forall|k: int|
            0 <= k < cs.len() ==> #[trigger] score(an, tn, dur, cs[k]) is None,
        best_index(an, tn, dur, cs) matches Some(i) ==> {
            &&& 0 <= i < cs.len()
            &&& score(an, tn, dur, cs[i]) is Some
            &&& forall|k: int|
                0 <= k < cs.len() && #[trigger] score(an, tn, dur, cs[k]) is Some ==> score(
                    an,
                    tn,
                    dur,
                    cs[k],
                )->0 <= score(an, tn, dur, cs[i])->0
            &&& forall|k: int|
                0 <= k < i && #[trigger] score(an, tn, dur, cs[k]) is Some ==> score(
                    an,
                    tn,
                    dur,
                    cs[k],
                )->0 < score(an, tn, dur, cs[i])->0
        },
{
    lemma_best_upto(an, tn, dur, cs, cs.len() as int);
}

pub open spec fn as_index(r: Option<usize>) -> Option<int> {
    match r {
        Some(i) => Some(i as int),
        None => None,
    }
}

/// Whether two texts are the same.
pub(crate) fn same_chars(a: &[char], b: &[char]) -> (r: bool)
    ensures
        r == (a@ == b@),
{
    if a.len() != b.len() {
        return false;
    }
    let mut i: usize = 0;
    while i < a.len()
        invariant
            a@.len() == b@.len(),
            i <= a@.len(),
            forall|j: int| 0 <= j < i ==> a@[j] == b@[j],
        decreases a@.len() - i,
    {
        if a[i] != b[i] {
            return false;
        }
        i = i + 1;
    }
    assert(a@ =~= b@);
    true
}

/// Whether one of two normalized texts holds the other.
pub fn overlap(a: &[char], b: &[char]) -> (r: bool)
    ensures
        r == texts_overlap(a@, b@),
{
    contains_chars(a, b) || contains_chars(b, a)
}

/// Scores one candidate; see `score`.
pub fn score_candidate(artist_norm: &[char], title_norm: &[char], duration_ms: u32, c: &CandidateKey) -> (r: Option<i32>)
    ensures
        match r {
            Some(s) => score(artist_norm@, title_norm@, duration_ms, c@) == Some(s as int),
            None => score(artist_norm@, title_norm@, duration_ms, c@) is None,
        },
{
    let same_artist = same_chars(c.artist_norm.as_slice(), artist_norm);
    if !same_artist && !overlap(c.artist_norm.as_slice(), artist_norm) {
        return None;
    }
    let mut s: i32 = if same_artist { 100 } else { 80 };
    match c.duration_ms {
        Some(d) => {
            let gap: u32 = if d >= duration_ms { d - duration_ms } else { duration_ms - d };
            if gap < 5000 {
                s = s + 50;
            } else {
                s = s - 50;
            }
        },
        None => {},
    }
    if same_chars(c.name_norm.as_slice(), title_norm) {
        s = s + 20;
    }
    Some(s)
}

/// The best candidate for a track with normalized artist `artist_norm`,
/// normalized title `title_norm` and duration `duration_ms`: the first with
/// the strictly highest score among those whose artist overlaps.
pub fn best_candidate(artist_norm: &[char], title_norm: &[char], duration_ms: u32, cands: &[CandidateKey]) -> (r: Option<usize>)
    ensures
        r matches Some(i) ==> i < cands@.len(),
        as_index(r) == best_index(artist_norm@, title_norm@, duration_ms, cands@.map_values(|c: CandidateKey| c@)),
{
    let ghost views = cands@.map_values(|c: CandidateKey| c@);
    let mut best: Option<usize> = None;
    let mut highest: i32 = 0;
    let mut i: usize = 0;
    while i < cands.len()
        invariant
            views == cands@.map_values(|c: CandidateKey| c@),
            i <= cands@.len(),
            0 <= highest <= 170,
            best matches Some(b) ==> b < i,
            as_index(best) == best_upto(artist_norm@, title_norm@, duration_ms, views, i as int).0,
            highest as int == best_upto(artist_norm@, title_norm@, duration_ms, views, i as int).1,
        decreases cands@.len() - i,
    {
        let sc = score_candidate(artist_norm, title_norm, duration_ms, &cands[i]);
        assert(views[i as int] == cands@[i as int]@);
        match sc {
            Some(s) => {
                if s > highest {
                    highest = s;
                    best = Some(i);
                }
            },
            None => {},
        }
        i = i + 1;
    }
    best
}

/// The candidate that the matcher picks out of `cands`.
pub open spec fn pick(an: Seq<char>, tn: Seq<char>, dur: u32, cands: Seq<LocalTrackData>) -> Option<LocalTrackData> {
    match best_index(an, tn, dur, cands.map_values(|e: LocalTrackData| entry_key(e))) {
        Some(i) => Some(cands[i]),
        None => None,
    }
}

/// The best reference record for a playlist track among `candidates`, or
/// `None` when no candidate's artist overlaps the track's.
pub fn find_best_match(spotify_track: &TrackInfo, candidates: &[LocalTrackData]) -> (r: Option<LocalTrackData>)
    ensures
        r == pick(
            normalized(spotify_track.artist@),
            normalized(spotify_track.name@),
            spotify_track.duration_ms,
            candidates@,
        ),
{
    let artist_norm = normalize_chars(spotify_track.artist.as_str());
    let title_norm = normalize_chars(spotify_track.name.as_str());
    let mut keys: Vec<CandidateKey> = Vec::new();
    let mut i: usize = 0;
    while i < candidates.len()
        invariant
            i <= candidates@.len(),
            keys@.len() == i,
            forall|j: int| 0 <= j < i ==> #[trigger] keys@[j]@ == entry_key(candidates@[j]),
        decreases candidates@.len() - i,
    {
        keys.push(CandidateKey::of_entry(&candidates[i]));
        i = i + 1;
    }
    assert(keys@.map_values(|c: CandidateKey| c@) =~= candidates@.map_values(|e: LocalTrackData| entry_key(e)));
    match best_candidate(artist_norm.as_slice(), title_norm.as_slice(), spotify_track.duration_ms, keys.as_slice()) {
        Some(b) => Some(candidates[b].duplicate()),
        None => None,
    }
}

} // verus!
