//! The shape of the answer to a query, and how it is read from a parsed
//! JSON document.

use crate::error::ClientError;
use crate::json::inspect;
use crate::json::json_of;
use crate::json::member;
use crate::json::member_of;
use crate::json::Json;
use crate::json::Node;
use crate::model::Alignment;
use crate::model::AudioCoverage;
use crate::model::AudioMatch;
use crate::model::Coverage;
use crate::model::Found;
use crate::model::Gap;
use crate::model::QueryResult;
use crate::model::Track;
use crate::model::TrackInfo;
use crate::number::units_of_text;
use crate::number::Fixed;
use vstd::prelude::*;

verus! {

/// The text under `key`, which has to be there.
pub open spec fn text_at(json: Json, key: Seq<char>) -> Option<Seq<char>> {
    match member_of(json, key) {
        Some(Json::Text(text)) => Some(text),
        _ => None,
    }
}

/// The text under `key`, which may be missing or null: `Some(None)` then,
/// and `None` where something other than a text stands there.
pub open spec fn optional_text_at(json: Json, key: Seq<char>) -> Option<Option<Seq<char>>> {
    match member_of(json, key) {
        None => Some(None),
        Some(Json::Null) => Some(None),
        Some(Json::Text(text)) => Some(Some(text)),
        _ => None,
    }
}

/// The quantity that a number stands for, where it fits.
pub open spec fn quantity_of(json: Json) -> Option<Fixed> {
    match json {
        Json::Number(numeral) => match units_of_text(numeral) {
            Some(units) => Some(Fixed { units: units as i64 }),
            None => None,
        },
        _ => None,
    }
}

/// The number under `key`, which has to be there.
pub open spec fn quantity_at(json: Json, key: Seq<char>) -> Option<Fixed> {
    match member_of(json, key) {
        Some(found) => quantity_of(found),
        None => None,
    }
}

/// The number under `key`, which may be missing or null.
pub open spec fn optional_quantity_at(json: Json, key: Seq<char>) -> Option<Option<Fixed>> {
    match member_of(json, key) {
        None => Some(None),
        Some(Json::Null) => Some(None),
        Some(found) => match quantity_of(found) {
            Some(quantity) => Some(Some(quantity)),
            None => None,
        },
    }
}

/// The truth value under `key`, which has to be there.
pub open spec fn flag_at(json: Json, key: Seq<char>) -> Option<bool> {
    match member_of(json, key) {
        Some(Json::Bool(flag)) => Some(flag),
        _ => None,
    }
}

/// The gap that an object with `start`, `end`, `isOnEdge` and
/// `lengthInSeconds` describes.
pub open spec fn gap_of(json: Json) -> Option<Gap> {
    match (
        quantity_at(json, "start"@),
        quantity_at(json, "end"@),
        flag_at(json, "isOnEdge"@),
        quantity_at(json, "lengthInSeconds"@),
    ) {
        (Some(start), Some(end), Some(is_on_edge), Some(length_in_seconds)) => Some(
            Gap { start, end, is_on_edge, length_in_seconds },
        ),
        _ => None,
    }
}

/// The gaps that an array describes, in its order; `None` if one of its
/// items is no gap.
pub open spec fn gaps_of(json: Json) -> Option<Seq<Gap>> {
    match json {
        Json::Array(items) => if forall|i: int|
            0 <= i < items.len() ==> (#[trigger] gap_of(items[i])) is Some {
            Some(Seq::new(items.len(), |i: int| gap_of(items[i])->0))
        } else {
            None
        },
        _ => None,
    }
}

/// The array of gaps under `key`, which has to be there.
pub open spec fn gaps_at(json: Json, key: Seq<char>) -> Option<Seq<Gap>> {
    match member_of(json, key) {
        Some(found) => gaps_of(found),
        None => None,
    }
}

/// The offsets and ratios at the head of a coverage object.
pub open spec fn coverage_head_of(json: Json) -> Option<(Fixed, Fixed, Option<Fixed>, Option<Fixed>)> {
    match (
        quantity_at(json, "queryMatchStartsAt"@),
        quantity_at(json, "trackMatchStartsAt"@),
        optional_quantity_at(json, "queryCoverage"@),
        optional_quantity_at(json, "trackCoverage"@),
    ) {
        (Some(a), Some(b), Some(c), Some(d)) => Some((a, b, c, d)),
        _ => None,
    }
}

/// The six durations of a coverage object: covered length, covered length
/// with inner gaps, and whole length, each of the query and of the track.
pub open spec fn coverage_lengths_of(json: Json) -> Option<
    (Fixed, Fixed, Fixed, Fixed, Fixed, Fixed),
> {
    match (
        quantity_at(json, "queryCoverageLength"@),
        quantity_at(json, "trackCoverageLength"@),
        quantity_at(json, "queryDiscreteCoverageLength"@),
        quantity_at(json, "trackDiscreteCoverageLength"@),
        quantity_at(json, "queryLength"@),
        quantity_at(json, "trackLength"@),
    ) {
        (Some(a), Some(b), Some(c), Some(d), Some(e), Some(f)) => Some((a, b, c, d, e, f)),
        _ => None,
    }
}

/// The coverage that an object describes.
pub open spec fn coverage_of(json: Json) -> Option<Coverage> {
    match (
        coverage_head_of(json),
        coverage_lengths_of(json),
        gaps_at(json, "queryGaps"@),
        gaps_at(json, "trackGaps"@),
    ) {
        (Some(head), Some(lengths), Some(query_gaps), Some(track_gaps)) => Some(
            Coverage {
                query_match_starts_at: head.0,
                track_match_starts_at: head.1,
                query_coverage: head.2,
                track_coverage: head.3,
                query_coverage_length: lengths.0,
                track_coverage_length: lengths.1,
                query_discrete_coverage_length: lengths.2,
                track_discrete_coverage_length: lengths.3,
                query_length: lengths.4,
                track_length: lengths.5,
                query_gaps,
                track_gaps,
            },
        ),
        _ => None,
    }
}

/// The alignment that an object with `queryMatchId` and `coverage` describes.
pub open spec fn alignment_of(json: Json) -> Option<Alignment> {
    match (
        text_at(json, "queryMatchId"@),
        match member_of(json, "coverage"@) {
            Some(found) => coverage_of(found),
            None => None,
        },
    ) {
        (Some(id), Some(coverage)) => Some(Alignment { id, coverage }),
        _ => None,
    }
}

/// The alignment under `key`, which may be missing or null.
pub open spec fn optional_alignment_at(json: Json, key: Seq<char>) -> Option<Option<Alignment>> {
    match member_of(json, key) {
        None => Some(None),
        Some(Json::Null) => Some(None),
        Some(found) => match alignment_of(found) {
            Some(alignment) => Some(Some(alignment)),
            None => None,
        },
    }
}

/// The track that an object with `id`, `audioTrackLength` and, if they are
/// known, `title` and `artist` describes.
pub open spec fn track_of(json: Json) -> Option<Track> {
    match (
        text_at(json, "id"@),
        optional_text_at(json, "title"@),
        optional_text_at(json, "artist"@),
        quantity_at(json, "audioTrackLength"@),
    ) {
        (Some(id), Some(title), Some(artist), Some(length)) => Some(
            Track { id, title, artist, length },
        ),
        _ => None,
    }
}

/// The result that an object with `id`, `track` and, if there is one,
/// `audio` describes.
pub open spec fn found_of(json: Json) -> Option<Found> {
    match (
        text_at(json, "id"@),
        match member_of(json, "track"@) {
            Some(found) => track_of(found),
            None => None,
        },
        optional_alignment_at(json, "audio"@),
    ) {
        (Some(id), Some(track), Some(audio)) => Some(Found { id, track, audio }),
        _ => None,
    }
}

/// The results that the answer to a query describes: an array of results,
/// in its order. `None` if the document is no array or one of its items is
/// no result. Members that are not named here are passed over.
pub open spec fn results_of(json: Json) -> Option<Seq<Found>> {
    match json {
        Json::Array(items) => if forall|i: int|
            0 <= i < items.len() ==> (#[trigger] found_of(items[i])) is Some {
            Some(Seq::new(items.len(), |i: int| found_of(items[i])->0))
        } else {
            None
        },
        _ => None,
    }
}

fn read_text(value: &serde_json::Value, key: &str) -> (r: Option<String>)
    ensures
        r.deep_view() == text_at(json_of(*value), key@),
{
    match member(value, key) {
        Some(found) => match inspect(found) {
            Node::Text(text) => Some(text.to_owned()),
            _ => None,
        },
        None => None,
    }
}

fn read_optional_text(value: &serde_json::Value, key: &str) -> (r: Option<Option<String>>)
    ensures
        r.deep_view() == optional_text_at(json_of(*value), key@),
{
    match member(value, key) {
        Some(found) => match inspect(found) {
            Node::Null => Some(None),
            Node::Text(text) => Some(Some(text.to_owned())),
            _ => None,
        },
        None => Some(None),
    }
}

fn read_quantity_of(found: &serde_json::Value) -> (r: Option<Fixed>)
    ensures
        r == quantity_of(json_of(*found)),
{
    match inspect(found) {
        Node::Number(numeral) => Fixed::parse(numeral.as_str()),
        _ => None,
    }
}

fn read_quantity(value: &serde_json::Value, key: &str) -> (r: Option<Fixed>)
    ensures
        r == quantity_at(json_of(*value), key@),
{
    match member(value, key) {
        Some(found) => read_quantity_of(found),
        None => None,
    }
}

fn read_optional_quantity(value: &serde_json::Value, key: &str) -> (r: Option<Option<Fixed>>)
    ensures
        r == optional_quantity_at(json_of(*value), key@),
{
    match member(value, key) {
        Some(found) => match inspect(found) {
            Node::Null => Some(None),
            _ => match read_quantity_of(found) {
                Some(quantity) => Some(Some(quantity)),
                None => None,
            },
        },
        None => Some(None),
    }
}

fn read_flag(value: &serde_json::Value, key: &str) -> (r: Option<bool>)
    ensures
        r == flag_at(json_of(*value), key@),
{
    match member(value, key) {
        Some(found) => match inspect(found) {
            Node::Bool(flag) => Some(flag),
            _ => None,
        },
        None => None,
    }
}

/// Reads one gap.
pub fn decode_gap(value: &serde_json::Value) -> (r: Option<Gap>)
    ensures
        r == gap_of(json_of(*value)),
{
    let start = read_quantity(value, "start")?;
    let end = read_quantity(value, "end")?;
    let is_on_edge = read_flag(value, "isOnEdge")?;
    let length_in_seconds = read_quantity(value, "lengthInSeconds")?;
    Some(Gap { start, end, is_on_edge, length_in_seconds })
}

fn read_gaps(value: &serde_json::Value, key: &str) -> (r: Option<Vec<Gap>>)
    ensures
        match r {
            Some(gaps) => gaps_at(json_of(*value), key@) == Some(gaps@),
            None => gaps_at(json_of(*value), key@) is None,
        },
{
    let found = member(value, key)?;
    match inspect(found) {
        Node::Array(items) => {
            let ghost described = items@.map_values(|item: serde_json::Value| json_of(item));
            let mut gaps: Vec<Gap> = Vec::new();
            let mut i: usize = 0;
            while i < items.len()
                invariant
                    i <= items.len(),
                    gaps.len() == i,
                    described == items@.map_values(|item: serde_json::Value| json_of(item)),
                    json_of(*found) == Json::Array(described),
                    member_of(json_of(*value), key@) == Some(json_of(*found)),
                    forall|j: int| 0 <= j < i ==> gap_of(#[trigger] described[j]) == Some(gaps@[j]),
                decreases items.len() - i,
            {
                match decode_gap(&items[i]) {
                    Some(gap) => {
                        gaps.push(gap);
                    },
                    None => {
                        assert(gap_of(described[i as int]) is None);
                        return None;
                    },
                }
                i = i + 1;
            }
            assert(gaps@ =~= Seq::new(described.len(), |i: int| gap_of(described[i])->0));
            Some(gaps)
        },
        _ => None,
    }
}

/// Reads the coverage of an alignment.
pub fn decode_coverage(value: &serde_json::Value) -> (r: Option<AudioCoverage>)
    ensures
        r.deep_view() == coverage_of(json_of(*value)),
{
    let query_match_starts_at = read_quantity(value, "queryMatchStartsAt")?;
    let track_match_starts_at = read_quantity(value, "trackMatchStartsAt")?;
    let query_coverage = read_optional_quantity(value, "queryCoverage")?;
    let track_coverage = read_optional_quantity(value, "trackCoverage")?;
    let query_coverage_length = read_quantity(value, "queryCoverageLength")?;
    let track_coverage_length = read_quantity(value, "trackCoverageLength")?;
    let query_discrete_coverage_length = read_quantity(value, "queryDiscreteCoverageLength")?;
    let track_discrete_coverage_length = read_quantity(value, "trackDiscreteCoverageLength")?;
    let query_length = read_quantity(value, "queryLength")?;
    let track_length = read_quantity(value, "trackLength")?;
    let query_gaps = read_gaps(value, "queryGaps")?;
    let track_gaps = read_gaps(value, "trackGaps")?;
    Some(
        AudioCoverage {
            query_match_starts_at,
            track_match_starts_at,
            query_coverage,
            track_coverage,
            query_coverage_length,
            track_coverage_length,
            query_discrete_coverage_length,
            track_discrete_coverage_length,
            query_length,
            track_length,
            query_gaps,
            track_gaps,
        },
    )
}

/// Reads one alignment.
pub fn decode_alignment(value: &serde_json::Value) -> (r: Option<AudioMatch>)
    ensures
        r.deep_view() == alignment_of(json_of(*value)),
{
    let id = read_text(value, "queryMatchId")?;
    let found = member(value, "coverage")?;
    let coverage = decode_coverage(found)?;
    Some(AudioMatch { id, coverage })
}

fn read_optional_alignment(value: &serde_json::Value, key: &str) -> (r: Option<Option<AudioMatch>>)
    ensures
        r.deep_view() == optional_alignment_at(json_of(*value), key@),
{
    match member(value, key) {
        Some(found) => match inspect(found) {
            Node::Null => Some(None),
            _ => match decode_alignment(found) {
                Some(alignment) => Some(Some(alignment)),
                None => None,
            },
        },
        None => Some(None),
    }
}

/// Reads what was registered of one track.
pub fn decode_track(value: &serde_json::Value) -> (r: Option<TrackInfo>)
    ensures
        r.deep_view() == track_of(json_of(*value)),
{
    let id = read_text(value, "id")?;
    let title = read_optional_text(value, "title")?;
    let artist = read_optional_text(value, "artist")?;
    let length = read_quantity(value, "audioTrackLength")?;
    Some(TrackInfo { id, title, artist, length })
}

/// Reads one result of a query.
pub fn decode_result(value: &serde_json::Value) -> (r: Option<QueryResult>)
    ensures
        r.deep_view() == found_of(json_of(*value)),
{
    let id = read_text(value, "id")?;
    let found = member(value, "track")?;
    let track = decode_track(found)?;
    let audio = read_optional_alignment(value, "audio")?;
    Some(QueryResult { id, track, audio })
}

/// Reads the answer to a query: every result of the array, in its order.
/// One item that is no result makes the whole answer a `DecodeError`.
pub fn decode_results(value: &serde_json::Value) -> (r: Result<Vec<QueryResult>, ClientError>)
    ensures
        match r {
            Ok(results) => results_of(json_of(*value)) == Some(results.deep_view()),
            Err(e) => e@ is Decode && results_of(json_of(*value)) is None,
        },
{
    match inspect(value) {
        Node::Array(items) => {
            let ghost described = items@.map_values(|item: serde_json::Value| json_of(item));
            let mut results: Vec<QueryResult> = Vec::new();
            let mut i: usize = 0;
            while i < items.len()
                invariant
                    i <= items.len(),
                    results.len() == i,
                    described == items@.map_values(|item: serde_json::Value| json_of(item)),
                    json_of(*value) == Json::Array(described),
                    forall|j: int|
                        0 <= j < i ==> found_of(#[trigger] described[j]) == Some(
                            results@[j].deep_view(),
                        ),
                decreases items.len() - i,
            {
                match decode_result(&items[i]) {
                    Some(result) => {
                        results.push(result);
                    },
                    None => {
                        assert(found_of(described[i as int]) is None);
                        return Err(ClientError::DecodeError);
                    },
                }
                i = i + 1;
            }
            assert(results.deep_view() =~= Seq::new(
                described.len(),
                |i: int| found_of(described[i])->0,
            ));
            Ok(results)
        },
        _ => Err(ClientError::DecodeError),
    }
}

} // verus!
