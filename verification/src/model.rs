//! What the service answers to a query: the tracks that match, and how
//! each lies on the query.

use crate::number::Fixed;
use crate::number::UNITS_PER_ONE;
use vstd::prelude::*;

verus! {

/// A stretch of a query or of a track that a match does not cover, in seconds.
#[derive(Clone, Copy, Debug, PartialEq, Eq, Structural)]
pub struct Gap {
    /// Where the gap starts.
    pub start: Fixed,
    /// Where the gap ends.
    pub end: Fixed,
    /// Whether the gap touches the very start or the very end.
    pub is_on_edge: bool,
    /// How long the gap is: `end - start`.
    pub length_in_seconds: Fixed,
}

/// How a query and a matched track lie on each other, in seconds.
#[derive(Debug)]
pub struct AudioCoverage {
    /// Where the match starts in the query.
    pub query_match_starts_at: Fixed,
    /// Where the match starts in the track.
    pub track_match_starts_at: Fixed,
    /// The part of the query that the match covers, between zero and one.
    pub query_coverage: Option<Fixed>,
    /// The part of the track that the match covers, between zero and one.
    pub track_coverage: Option<Fixed>,
    /// How much of the query the match covers.
    pub query_coverage_length: Fixed,
    /// How much of the track the match covers.
    pub track_coverage_length: Fixed,
    /// How much of the query the match covers, inner gaps included.
    pub query_discrete_coverage_length: Fixed,
    /// How much of the track the match covers, inner gaps included.
    pub track_discrete_coverage_length: Fixed,
    /// How long the query is.
    pub query_length: Fixed,
    /// How long the track is.
    pub track_length: Fixed,
    /// The gaps in the query, in order.
    pub query_gaps: Vec<Gap>,
    /// The gaps in the track, in order.
    pub track_gaps: Vec<Gap>,
}

/// A scored alignment of the query with a track.
#[derive(Debug)]
pub struct AudioMatch {
    /// The identifier of the match.
    pub id: String,
    pub coverage: AudioCoverage,
}

/// What was registered of a track.
#[derive(Debug)]
pub struct TrackInfo {
    /// The identifier that the track was registered under.
    pub id: String,
    pub title: Option<String>,
    pub artist: Option<String>,
    /// How long the track is, in seconds.
    pub length: Fixed,
}

/// One track that the service found for a query.
#[derive(Debug)]
pub struct QueryResult {
    /// The identifier of this result.
    pub id: String,
    pub track: TrackInfo,
    /// The alignment, where the service could compute one.
    pub audio: Option<AudioMatch>,
}

/// An `AudioCoverage` as contracts see it.
pub struct Coverage {
    pub query_match_starts_at: Fixed,
    pub track_match_starts_at: Fixed,
    pub query_coverage: Option<Fixed>,
    pub track_coverage: Option<Fixed>,
    pub query_coverage_length: Fixed,
    pub track_coverage_length: Fixed,
    pub query_discrete_coverage_length: Fixed,
    pub track_discrete_coverage_length: Fixed,
    pub query_length: Fixed,
    pub track_length: Fixed,
    pub query_gaps: Seq<Gap>,
    pub track_gaps: Seq<Gap>,
}

/// An `AudioMatch` as contracts see it.
pub struct Alignment {
    pub id: Seq<char>,
    pub coverage: Coverage,
}

/// A `TrackInfo` as contracts see it.
pub struct Track {
    pub id: Seq<char>,
    pub title: Option<Seq<char>>,
    pub artist: Option<Seq<char>>,
    pub length: Fixed,
}

/// A `QueryResult` as contracts see it.
pub struct Found {
    pub id: Seq<char>,
    pub track: Track,
    pub audio: Option<Alignment>,
}

impl DeepView for AudioCoverage {
    type V = Coverage;

    open spec fn deep_view(&self) -> Coverage {
        Coverage {
            query_match_starts_at: self.query_match_starts_at,
            track_match_starts_at: self.track_match_starts_at,
            query_coverage: self.query_coverage,
            track_coverage: self.track_coverage,
            query_coverage_length: self.query_coverage_length,
            track_coverage_length: self.track_coverage_length,
            query_discrete_coverage_length: self.query_discrete_coverage_length,
            track_discrete_coverage_length: self.track_discrete_coverage_length,
            query_length: self.query_length,
            track_length: self.track_length,
            query_gaps: self.query_gaps@,
            track_gaps: self.track_gaps@,
        }
    }
}

impl DeepView for AudioMatch {
    type V = Alignment;

    open spec fn deep_view(&self) -> Alignment {
        Alignment { id: self.id@, coverage: self.coverage.deep_view() }
    }
}

impl DeepView for TrackInfo {
    type V = Track;

    open spec fn deep_view(&self) -> Track {
        Track {
            id: self.id@,
            title: self.title.deep_view(),
            artist: self.artist.deep_view(),
            length: self.length,
        }
    }
}

impl DeepView for QueryResult {
    type V = Found;

    open spec fn deep_view(&self) -> Found {
        Found {
            id: self.id@,
            track: self.track.deep_view(),
            audio: self.audio.deep_view(),
        }
    }
}

/// Whether a ratio, where there is one, lies between zero and one.
pub open spec fn is_ratio(ratio: Option<Fixed>) -> bool {
    match ratio {
        Some(value) => value.is_fraction_of_one(),
        None => true,
    }
}

/// Whether every gap of `gaps` is well formed.
pub open spec fn all_well_formed(gaps: Seq<Gap>) -> bool {
    forall|i: int| 0 <= i < gaps.len() ==> (#[trigger] gaps[i]).is_well_formed()
}

impl Gap {
    /// A gap starts at or after zero and before it ends, and its length is
    /// the difference of the two.
    pub open spec fn is_well_formed(self) -> bool {
        &&& 0 <= self.start.units < self.end.units
        &&& self.length_in_seconds.units == self.end.units - self.start.units
    }

    /// The gap from `start` to `end`, with the length that follows from
    /// them; `None` unless `0 <= start < end`.
    pub fn new(start: Fixed, end: Fixed, is_on_edge: bool) -> (r: Option<Gap>)
        ensures
            match r {
                Some(gap) => {
                    &&& gap.is_well_formed()
                    &&& gap.start == start
                    &&& gap.end == end
                    &&& gap.is_on_edge == is_on_edge
                },
                None => !(0 <= start.units < end.units),
            },
    {
        if 0 <= start.units && start.units < end.units {
            Some(
                Gap {
                    start,
                    end,
                    is_on_edge,
                    length_in_seconds: Fixed { units: end.units - start.units },
                },
            )
        } else {
            None
        }
    }

    /// Whether the gap is well formed.
    pub fn is_valid(&self) -> (ok: bool)
        ensures
            ok == self.is_well_formed(),
    {
        0 <= self.start.units && self.start.units < self.end.units
            && self.length_in_seconds.units == self.end.units - self.start.units
    }
}

fn is_valid_ratio(ratio: &Option<Fixed>) -> (ok: bool)
    ensures
        ok == is_ratio(*ratio),
{
    match ratio {
        Some(value) => 0 <= value.units && value.units <= UNITS_PER_ONE,
        None => true,
    }
}

fn are_valid(gaps: &Vec<Gap>) -> (ok: bool)
    ensures
        ok == all_well_formed(gaps@),
{
    let mut i: usize = 0;
    while i < gaps.len()
        invariant
            i <= gaps.len(),
            forall|j: int| 0 <= j < i ==> (#[trigger] gaps@[j]).is_well_formed(),
        decreases gaps.len() - i,
    {
        if !gaps[i].is_valid() {
            return false;
        }
        i = i + 1;
    }
    true
}

impl Coverage {
    /// No offset and no duration is negative, the ratios lie between zero
    /// and one, and every gap is well formed.
    pub open spec fn is_well_formed(self) -> bool {
        &&& self.query_match_starts_at.units >= 0
        &&& self.track_match_starts_at.units >= 0
        &&& is_ratio(self.query_coverage)
        &&& is_ratio(self.track_coverage)
        &&& self.query_coverage_length.units >= 0
        &&& self.track_coverage_length.units >= 0
        &&& self.query_discrete_coverage_length.units >= 0
        &&& self.track_discrete_coverage_length.units >= 0
        &&& self.query_length.units >= 0
        &&& self.track_length.units >= 0
        &&& all_well_formed(self.query_gaps)
        &&& all_well_formed(self.track_gaps)
    }
}

impl Found {
    /// The track's length is not negative, and the coverage of the
    /// alignment, where there is one, is well formed.
    pub open spec fn is_well_formed(self) -> bool {
        &&& self.track.length.units >= 0
        &&& match self.audio {
            Some(alignment) => alignment.coverage.is_well_formed(),
            None => true,
        }
    }
}

impl AudioCoverage {
    /// Whether the coverage is well formed.
    pub fn is_valid(&self) -> (ok: bool)
        ensures
            ok == self.deep_view().is_well_formed(),
    {
        self.query_match_starts_at.units >= 0 && self.track_match_starts_at.units >= 0
            && is_valid_ratio(&self.query_coverage) && is_valid_ratio(&self.track_coverage)
            && self.query_coverage_length.units >= 0 && self.track_coverage_length.units >= 0
            && self.query_discrete_coverage_length.units >= 0
            && self.track_discrete_coverage_length.units >= 0 && self.query_length.units >= 0
            && self.track_length.units >= 0 && are_valid(&self.query_gaps) && are_valid(
            &self.track_gaps,
        )
    }
}

impl QueryResult {
    /// Whether the result is well formed. Results are read as the service
    /// wrote them, so this may fail for one that was read without error.
    pub fn is_valid(&self) -> (ok: bool)
        ensures
            ok == self.deep_view().is_well_formed(),
    {
        self.track.length.units >= 0 && match &self.audio {
            Some(alignment) => alignment.coverage.is_valid(),
            None => true,
        }
    }
}

} // verus!
