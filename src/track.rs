use vstd::prelude::*;
use crate::key::Mode;

verus! {

/// A playlist entry and what enrichment found for it. `key` is a pitch class
/// 0..=11, or -1 while unresolved; `tempo_milli` is the tempo in thousandths
/// of a beat per minute, 0 while unresolved.
#[derive(Debug)]
pub struct TrackInfo {
    pub id: String,
    pub name: String,
    pub artist: String,
    pub key: i32,
    pub mode: Mode,
    pub tempo_milli: u32,
    pub duration_ms: u32,
}

/// A record of the local reference dataset. `key_camelot` is a Camelot code
/// such as `"5A"`; `bpm_milli` is the tempo in thousandths of a beat per
/// minute.
#[derive(Debug)]
pub struct LocalTrackData {
    pub name: String,
    pub artist: String,
    pub bpm_milli: u32,
    pub key_camelot: String,
    pub duration_ms: Option<u32>,
    pub album: Option<String>,
}

/// Both a key and a positive tempo are known.
pub open spec fn is_resolved(t: TrackInfo) -> bool {
    t.key >= 0 && t.tempo_milli > 0
}

impl TrackInfo {
    /// A fresh playlist entry, not yet enriched.
    pub fn new(id: String, name: String, artist: String, duration_ms: u32) -> (r: Self)
        ensures
            r.id == id,
            r.name == name,
            r.artist == artist,
            r.duration_ms == duration_ms,
            r.key == -1,
            r.mode == Mode::Major,
            r.tempo_milli == 0,
    {
        TrackInfo { id, name, artist, key: -1, mode: Mode::Major, tempo_milli: 0, duration_ms }
    }

    /// Whether both a key and a positive tempo are known.
    pub fn is_resolved(&self) -> (r: bool)
        ensures
            r == is_resolved(*self),
    {
        self.key >= 0 && self.tempo_milli > 0
    }

    /// A copy of this entry.
    pub fn duplicate(&self) -> (r: Self)
        ensures
            r == *self,
    {
        TrackInfo {
            id: self.id.clone(),
            name: self.name.clone(),
            artist: self.artist.clone(),
            key: self.key,
            mode: self.mode,
            tempo_milli: self.tempo_milli,
            duration_ms: self.duration_ms,
        }
    }
}

impl LocalTrackData {
    /// A copy of this record.
    pub fn duplicate(&self) -> (r: Self)
        ensures
            r == *self,
    {
        let album = match &self.album {
            Some(a) => Some(a.clone()),
            None => None,
        };
        LocalTrackData {
            name: self.name.clone(),
            artist: self.artist.clone(),
            bpm_milli: self.bpm_milli,
            key_camelot: self.key_camelot.clone(),
            duration_ms: self.duration_ms,
            album,
        }
    }
}

} // verus!
