use vstd::prelude::*;
use crate::key::{camelot_parse, camelot_to_internal, lookup_key_parse, resolve_lookup_key, KeyError};
use crate::matcher::{
    entry_key, find_best_match, overlap, pick, same_chars, texts_overlap, CandidateKey,
};
use crate::text::{normalize_chars, normalized, trim_of, upper_of};
use crate::track::{LocalTrackData, TrackInfo};

verus! {

/// The records whose normalized title is `tn`, in dataset order.
pub open spec fn title_pool(es: Seq<LocalTrackData>, tn: Seq<char>) -> Seq<LocalTrackData> {
    es.filter(|e: LocalTrackData| normalized(e.name@) == tn)
}

/// A record is a fuzzy candidate for a track when their normalized titles
/// overlap and their normalized artists overlap.
pub open spec fn fuzzy_related(e: LocalTrackData, an: Seq<char>, tn: Seq<char>) -> bool {
    texts_overlap(normalized(e.name@), tn) && texts_overlap(normalized(e.artist@), an)
}

/// The fuzzy candidates for a track, in dataset order.
pub open spec fn fuzzy_pool(es: Seq<LocalTrackData>, an: Seq<char>, tn: Seq<char>) -> Seq<LocalTrackData> {
    es.filter(|e: LocalTrackData| fuzzy_related(e, an, tn))
}

/// The record that a track resolves to: the best among the records with the
/// same title, else the best among the fuzzy candidates.
pub open spec fn match_for(es: Seq<LocalTrackData>, t: TrackInfo) -> Option<LocalTrackData> {
    let an = normalized(t.artist@);
    let tn = normalized(t.name@);
    match pick(an, tn, t.duration_ms, title_pool(es, tn)) {
        Some(e) => Some(e),
        None => pick(an, tn, t.duration_ms, fuzzy_pool(es, an, tn)),
    }
}

/// What enriching one track found.
#[derive(Clone, Copy, Debug, PartialEq, Eq, Structural)]
pub enum EnrichOutcome {
    /// A record matched and its key was read: the track is updated.
    Matched,
    /// A record matched but its Camelot code is invalid: the track is unchanged.
    InvalidKey,
    /// No record matched: the track is unchanged.
    Missing,
}

/// The track after enrichment against `es`, and the outcome.
pub open spec fn enriched(es: Seq<LocalTrackData>, t: TrackInfo) -> (TrackInfo, EnrichOutcome) {
    match match_for(es, t) {
        None => (t, EnrichOutcome::Missing),
        Some(e) => match camelot_parse(upper_of(trim_of(e.key_camelot@))) {
            Ok(k) => (TrackInfo { key: k.0, mode: k.1, tempo_milli: e.bpm_milli, ..t }, EnrichOutcome::Matched),
            Err(_) => (t, EnrichOutcome::InvalidKey),
        },
    }
}

/// The local reference dataset, with each record's normalized title and
/// artist kept beside it.
pub struct ReferenceStore {
    entries: Vec<LocalTrackData>,
    keys: Vec<CandidateKey>,
}

impl ReferenceStore {
    /// The records, in dataset order.
    pub closed spec fn entries(&self) -> Seq<LocalTrackData> {
        self.entries@
    }

    /// Each kept key is the matcher's view of its record.
    pub closed spec fn wf(&self) -> bool {
        &&& self.keys@.len() == self.entries@.len()
        &&& forall|i: int| 0 <= i < self.keys@.len() ==> #[trigger] self.keys@[i]@ == entry_key(self.entries@[i])
    }

    /// A store of the given records.
    pub fn new(entries: Vec<LocalTrackData>) -> (r: Self)
        ensures
            r.wf(),
            r.entries() == entries@,
    {
        let mut keys: Vec<CandidateKey> = Vec::new();
        let mut i: usize = 0;
        while i < entries.len()
            invariant
                i <= entries@.len(),
                keys@.len() == i,
                forall|j: int| 0 <= j < i ==> #[trigger] keys@[j]@ == entry_key(entries@[j]),
            decreases entries@.len() - i,
        {
            keys.push(CandidateKey::of_entry(&entries[i]));
            i = i + 1;
        }
        ReferenceStore { entries, keys }
    }

    /// Number of records.
    pub fn len(&self) -> (r: usize)
        ensures
            r == self.entries().len(),
    {
        self.entries.len()
    }

    /// The records whose normalized title is `title_norm`, in dataset order.
    pub fn direct_candidates(&self, title_norm: &[char]) -> (r: Vec<LocalTrackData>)
        requires
            self.wf(),
        ensures
            r@ == title_pool(self.entries(), title_norm@),
    {
        let ghost pred = |e: LocalTrackData| normalized(e.name@) == title_norm@;
        let mut out: Vec<LocalTrackData> = Vec::new();
        let mut i: usize = 0;
        while i < self.entries.len()
            invariant
                self.wf(),
                i <= self.entries@.len(),
                pred == (|e: LocalTrackData| normalized(e.name@) == title_norm@),
                out@ == self.entries@.subrange(0, i as int).filter(pred),
            decreases self.entries@.len() - i,
        {
            assert(self.entries@.subrange(0, i + 1) =~= self.entries@.subrange(0, i as int).push(self.entries@[i as int]));
            proof {
                self.entries@.subrange(0, i as int).lemma_filter_push(self.entries@[i as int], pred);
            }
            assert(self.keys@[i as int]@ == entry_key(self.entries@[i as int]));
            if same_chars(self.keys[i].name_norm.as_slice(), title_norm) {
                out.push(self.entries[i].duplicate());
            }
            i = i + 1;
        }
        assert(self.entries@.subrange(0, self.entries@.len() as int) =~= self.entries@);
        out
    }

    /// The fuzzy candidates for a track with normalized artist `artist_norm`
    /// and normalized title `title_norm`, in dataset order.
    pub fn fuzzy_candidates(&self, artist_norm: &[char], title_norm: &[char]) -> (r: Vec<LocalTrackData>)
        requires
            self.wf(),
        ensures
            r@ == fuzzy_pool(self.entries(), artist_norm@, title_norm@),
    {
        let ghost pred = |e: LocalTrackData| fuzzy_related(e, artist_norm@, title_norm@);
        let mut out: Vec<LocalTrackData> = Vec::new();
        let mut i: usize = 0;
        while i < self.entries.len()
            invariant
                self.wf(),
                i <= self.entries@.len(),
                pred == (|e: LocalTrackData| fuzzy_related(e, artist_norm@, title_norm@)),
                out@ == self.entries@.subrange(0, i as int).filter(pred),
            decreases self.entries@.len() - i,
        {
            assert(self.entries@.subrange(0, i + 1) =~= self.entries@.subrange(0, i as int).push(self.entries@[i as int]));
            proof {
                self.entries@.subrange(0, i as int).lemma_filter_push(self.entries@[i as int], pred);
            }
            assert(self.keys@[i as int]@ == entry_key(self.entries@[i as int]));
            if overlap(self.keys[i].name_norm.as_slice(), title_norm) && overlap(
                self.keys[i].artist_norm.as_slice(),
                artist_norm,
            ) {
                out.push(self.entries[i].duplicate());
            }
            i = i + 1;
        }
        assert(self.entries@.subrange(0, self.entries@.len() as int) =~= self.entries@);
        out
    }

    /// The record that a track resolves to: the best among the records with
    /// the same normalized title, else the best among the fuzzy candidates.
    pub fn find_match(&self, track: &TrackInfo) -> (r: Option<LocalTrackData>)
        requires
            self.wf(),
        ensures
            r == match_for(self.entries(), *track),
    {
        let artist_norm = normalize_chars(track.artist.as_str());
        let title_norm = normalize_chars(track.name.as_str());
        let direct = self.direct_candidates(title_norm.as_slice());
        match find_best_match(track, direct.as_slice()) {
            Some(e) => Some(e),
            None => {
                let fuzzy = self.fuzzy_candidates(artist_norm.as_slice(), title_norm.as_slice());
                find_best_match(track, fuzzy.as_slice())
            },
        }
    }

    /// Resolves a track's key and tempo from the dataset: on a match whose
    /// Camelot code reads, the track takes the record's key and tempo;
    /// otherwise it is left as it was.
    pub fn enrich_track(&self, track: &mut TrackInfo) -> (r: EnrichOutcome)
        requires
            self.wf(),
        ensures
            (*final(track), r) == enriched(self.entries(), *old(track)),
    {
        match self.find_match(track) {
            None => EnrichOutcome::Missing,
            Some(e) => match camelot_to_internal(e.key_camelot.as_str()) {
                Ok(k) => {
                    track.key = k.0;
                    track.mode = k.1;
                    track.tempo_milli = e.bpm_milli;
                    EnrichOutcome::Matched
                },
                Err(_) => EnrichOutcome::InvalidKey,
            },
        }
    }

    /// Enriches each track of a playlist in turn; the tracks keep their order.
    pub fn enrich_all(&self, tracks: &[TrackInfo]) -> (r: (Vec<TrackInfo>, Vec<EnrichOutcome>))
        requires
            self.wf(),
        ensures
            r.0@.len() == tracks@.len(),
            r.1@.len() == tracks@.len(),
            forall|i: int|
                0 <= i < tracks@.len() ==> (#[trigger] r.0@[i], r.1@[i]) == enriched(
                    self.entries(),
                    tracks@[i],
                ),
    {
        let mut out: Vec<TrackInfo> = Vec::new();
        let mut outcomes: Vec<EnrichOutcome> = Vec::new();
        let mut i: usize = 0;
        while i < tracks.len()
            invariant
                self.wf(),
                i <= tracks@.len(),
                out@.len() == i,
                outcomes@.len() == i,
                forall|j: int|
                    0 <= j < i ==> (#[trigger] out@[j], outcomes@[j]) == enriched(
                        self.entries(),
                        tracks@[j],
                    ),
            decreases tracks@.len() - i,
        {
            let mut t = tracks[i].duplicate();
            let o = self.enrich_track(&mut t);
            out.push(t);
            outcomes.push(o);
            i = i + 1;
        }
        (out, outcomes)
    }
}

/// Applies what the outside lookup returned for a track, a tempo and a key
/// string: when the key reads, the track takes both; otherwise it is left as
/// it was and the key error is returned.
pub fn apply_lookup(track: &mut TrackInfo, tempo_milli: u32, key_of: &str) -> (r: Result<(), KeyError>)
    ensures
        match lookup_key_parse(key_of@) {
            Ok(k) => r is Ok && *final(track) == (TrackInfo {
                key: k.0,
                mode: k.1,
                tempo_milli,
                ..*old(track)
            }),
            Err(e) => r == Err::<(), KeyError>(e) && *final(track) == *old(track),
        },
{
    match resolve_lookup_key(key_of) {
        Ok(k) => {
            track.key = k.0;
            track.mode = k.1;
            track.tempo_milli = tempo_milli;
            Ok(())
        },
        Err(e) => Err(e),
    }
}

} // verus!
