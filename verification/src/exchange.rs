//! The two operations, each as one exchange with the service: what is
//! read, what is sent, and what the response means.

use crate::decode::decode_results;
use crate::decode::results_of;
use crate::error::ClientError;
use crate::error::Failure;
use crate::identity::issued;
use crate::identity::TrackIdentity;
use crate::json::json_parse;
use crate::json::parse;
use crate::json::Json;
use crate::media::resolution;
use crate::media::MediaSource;
use crate::media::Resolution;
use crate::media::Resolved;
use crate::media::Source;
use crate::model::Found;
use crate::model::QueryResult;
use crate::number::read_decimal;
use crate::number::reads_within_unit;
use crate::request::insert_request;
use crate::request::query_request;
use crate::request::Outgoing;
use crate::request::Request;
use crate::request::Service;
use crate::text::lossy_text;
use crate::text::text_of;
use vstd::prelude::*;

verus! {

/// The status with which the service reports success.
pub const STATUS_OK: u16 = 200;

/// What an exchange with the service is for.
#[derive(Clone, Copy, Debug)]
pub enum Purpose {
    /// To register a track under `id`.
    Insert { id: TrackIdentity },
    /// To find the tracks that match.
    Query,
}

/// How far an exchange has come. An exchange is one request and its
/// response; it is never tried again.
#[derive(Debug)]
pub enum Exchange {
    /// The file has to be read before `draft` can go out.
    Reading { purpose: Purpose, draft: Request },
    /// The request is out and the response has to come.
    Sending { purpose: Purpose },
    /// The exchange is over.
    Finished,
}

/// How an exchange ended.
#[derive(Debug)]
pub enum Outcome {
    /// The track is registered under `id`.
    Inserted { id: TrackIdentity },
    /// The tracks that match, which may be none.
    Matches { results: Vec<QueryResult> },
    Failed { error: ClientError },
}

/// What the caller has to do next.
#[derive(Debug)]
pub enum Action {
    /// Read the file at `path` and report `FileRead` or `FileUnreadable`.
    ReadFile { path: String },
    /// Send `request` and report `Responded` or `Unreachable`.
    Send { request: Request },
    /// Nothing more: the exchange ended with `outcome`.
    Finish { outcome: Outcome },
}

/// What the caller reports back.
#[derive(Debug)]
pub enum Event {
    FileRead { content: Vec<u8> },
    FileUnreadable { reason: String },
    /// The whole response has arrived.
    Responded { status: u16, body: Vec<u8> },
    /// The request or its response was lost on the way.
    Unreachable { reason: String },
}

/// An `Exchange` as contracts see it.
pub enum Stage {
    Reading { purpose: Purpose, draft: Outgoing },
    Sending { purpose: Purpose },
    Finished,
}

/// An `Outcome` as contracts see it.
pub enum Conclusion {
    Inserted { id: TrackIdentity },
    Matches { results: Seq<Found> },
    Failed { failure: Failure },
}

/// An `Action` as contracts see it.
pub enum Move {
    ReadFile { path: Seq<char> },
    Send { request: Outgoing },
    Finish { conclusion: Conclusion },
}

/// An `Event` as contracts see it.
pub enum Happening {
    FileRead { content: Seq<u8> },
    FileUnreadable { reason: Seq<char> },
    Responded { status: u16, body: Seq<u8> },
    Unreachable { reason: Seq<char> },
}

impl DeepView for Exchange {
    type V = Stage;

    open spec fn deep_view(&self) -> Stage {
        match self {
            Exchange::Reading { purpose, draft } => Stage::Reading {
                purpose: *purpose,
                draft: draft.deep_view(),
            },
            Exchange::Sending { purpose } => Stage::Sending { purpose: *purpose },
            Exchange::Finished => Stage::Finished,
        }
    }
}

impl DeepView for Outcome {
    type V = Conclusion;

    open spec fn deep_view(&self) -> Conclusion {
        match self {
            Outcome::Inserted { id } => Conclusion::Inserted { id: *id },
            Outcome::Matches { results } => Conclusion::Matches { results: results.deep_view() },
            Outcome::Failed { error } => Conclusion::Failed { failure: error@ },
        }
    }
}

impl DeepView for Action {
    type V = Move;

    open spec fn deep_view(&self) -> Move {
        match self {
            Action::ReadFile { path } => Move::ReadFile { path: path@ },
            Action::Send { request } => Move::Send { request: request.deep_view() },
            Action::Finish { outcome } => Move::Finish { conclusion: outcome.deep_view() },
        }
    }
}

impl DeepView for Event {
    type V = Happening;

    open spec fn deep_view(&self) -> Happening {
        match self {
            Event::FileRead { content } => Happening::FileRead { content: content@ },
            Event::FileUnreadable { reason } => Happening::FileUnreadable { reason: reason@ },
            Event::Responded { status, body } => Happening::Responded {
                status: *status,
                body: body@,
            },
            Event::Unreachable { reason } => Happening::Unreachable { reason: reason@ },
        }
    }
}

/// An exchange that ends at once with `failure`.
pub open spec fn stopped(failure: Failure) -> (Stage, Move) {
    (Stage::Finished, Move::Finish { conclusion: Conclusion::Failed { failure } })
}

/// How an exchange starts once its source is resolved and its request
/// drafted: with the request itself where the payload is at hand, and with
/// the reading of the file where it is not.
pub open spec fn started(purpose: Purpose, draft: Outgoing, resolved: Resolution) -> (Stage, Move) {
    match resolved {
        Resolution::Ready { name, data } => (
            Stage::Sending { purpose },
            Move::Send { request: draft.carrying(name, data) },
        ),
        Resolution::Pending { name, path } => (
            Stage::Reading { purpose, draft: draft.carrying(name, Seq::empty()) },
            Move::ReadFile { path },
        ),
    }
}

/// How an exchange starts once its request is drafted: as its source
/// resolves, or with `InvalidPath` where the source is a file without a
/// name.
pub open spec fn launched(purpose: Purpose, draft: Outgoing, source: Source) -> (Stage, Move) {
    match resolution(source) {
        Ok(resolved) => started(purpose, draft, resolved),
        Err(failure) => stopped(failure),
    }
}

/// How the registration of a track starts.
pub open spec fn insert_start(
    root: Seq<char>,
    source: Source,
    id: TrackIdentity,
    artist: Seq<char>,
    title: Seq<char>,
) -> (Stage, Move) {
    launched(Purpose::Insert { id }, insert_request(root, id.bytes@, artist, title), source)
}

/// Whether `text` is a decimal numeral whose value lies between zero and
/// one, both included. The value is the exact one: `1.0000000001` and
/// `-0.0000000001` lie outside.
pub open spec fn is_confidence(text: Seq<char>) -> bool {
    match read_decimal(text) {
        Some(d) => d.is_within_unit(),
        None => false,
    }
}

/// How a query starts: with `InvalidArgument`, before the source is looked
/// at, unless the minimum confidence is a number between zero and one.
pub open spec fn query_start(root: Seq<char>, source: Source, min_confidence: Seq<char>) -> (
    Stage,
    Move,
) {
    if is_confidence(min_confidence) {
        launched(Purpose::Query, query_request(root, min_confidence), source)
    } else {
        stopped(Failure::InvalidArgument)
    }
}

/// What the body of a successful answer to a query holds: the results that
/// it describes, or `DecodeError`.
pub open spec fn answer(body: Seq<u8>) -> Conclusion {
    match json_parse(body) {
        Some(json) => match results_of(json) {
            Some(results) => Conclusion::Matches { results },
            None => Conclusion::Failed { failure: Failure::Decode },
        },
        None => Conclusion::Failed { failure: Failure::Decode },
    }
}

/// What a response means. With any status but `STATUS_OK` the service has
/// rejected the request, and the body is handed on as text without being
/// looked into. With `STATUS_OK` a registration is done whatever the body
/// holds, and a query has the answer that the body describes.
pub open spec fn conclusion(purpose: Purpose, status: u16, body: Seq<u8>) -> Conclusion {
    if status != STATUS_OK {
        Conclusion::Failed { failure: Failure::Rejected { status, body: lossy_text(body) } }
    } else {
        match purpose {
            Purpose::Insert { id } => Conclusion::Inserted { id },
            Purpose::Query => answer(body),
        }
    }
}

/// Where an exchange goes from `stage` when `happening` is reported, and
/// what the caller has to do then. `None` where the exchange does not wait
/// for such a report: one that reads waits for the file, one that sends
/// waits for the response, and one that is over waits for nothing.
pub open spec fn next(stage: Stage, happening: Happening) -> Option<(Stage, Move)> {
    match (stage, happening) {
        (Stage::Reading { purpose, draft }, Happening::FileRead { content }) => Some(
            (
                Stage::Sending { purpose },
                Move::Send { request: draft.carrying(draft.file.file_name, content) },
            ),
        ),
        (Stage::Reading { .. }, Happening::FileUnreadable { reason }) => Some(
            stopped(Failure::Io { reason }),
        ),
        (Stage::Sending { purpose }, Happening::Responded { status, body }) => Some(
            (Stage::Finished, Move::Finish { conclusion: conclusion(purpose, status, body) }),
        ),
        (Stage::Sending { .. }, Happening::Unreachable { reason }) => Some(
            stopped(Failure::Transport { reason }),
        ),
        _ => None,
    }
}

/// A response with any status but `STATUS_OK` is a rejection with that
/// status and the body as text, whatever the exchange is for and whatever
/// the body holds.
pub proof fn lemma_rejection_ignores_the_body(purpose: Purpose, status: u16, body: Seq<u8>)
    requires
        status != STATUS_OK,
    ensures
        conclusion(purpose, status, body) == (Conclusion::Failed {
            failure: Failure::Rejected { status, body: lossy_text(body) },
        }),
{
}

/// A successful answer to a query whose body is no JSON document, or
/// none that describes an array of results, is a `DecodeError`.
pub proof fn lemma_unexpected_answer_is_a_decode_error(body: Seq<u8>)
    requires
        match json_parse(body) {
            Some(json) => results_of(json) is None,
            None => true,
        },
    ensures
        conclusion(Purpose::Query, STATUS_OK, body) == (Conclusion::Failed {
            failure: Failure::Decode,
        }),
{
}

/// A successful answer to a query whose body is an empty array is a
/// success without results.
pub proof fn lemma_empty_answer_is_a_success(body: Seq<u8>)
    requires
        json_parse(body) == Some(Json::Array(Seq::empty())),
    ensures
        conclusion(Purpose::Query, STATUS_OK, body) == (Conclusion::Matches {
            results: Seq::empty(),
        }),
{
    let results = results_of(Json::Array(Seq::empty()));
    assert(results is Some);
    assert(results->0 =~= Seq::<Found>::empty());
}

/// An exchange ends when and only when the caller is told to finish, and
/// it is over after two reports at most: the file, and the response.
pub proof fn lemma_exchange_ends(stage: Stage, first: Happening, second: Happening)
    ensures
        match next(stage, first) {
            Some((after, told)) => {
                &&& !(stage is Finished)
                &&& after is Finished <==> told is Finish
                &&& after is Sending <==> told is Send
                &&& match next(after, second) {
                    Some((last, _)) => last is Finished,
                    None => true,
                }
            },
            None => true,
        },
{
}

fn stop(error: ClientError) -> (r: (Exchange, Action))
    ensures
        r.deep_view() == stopped(error@),
{
    (Exchange::Finished, Action::Finish { outcome: Outcome::Failed { error } })
}

fn launch(purpose: Purpose, draft: Request, resolved: Resolved) -> (r: (Exchange, Action))
    ensures
        r.deep_view() == started(purpose, draft.deep_view(), resolved@),
{
    match resolved {
        Resolved::Ready { payload } => (
            Exchange::Sending { purpose },
            Action::Send { request: draft.carrying(payload.name, payload.data) },
        ),
        Resolved::Pending { name, path } => (
            Exchange::Reading { purpose, draft: draft.carrying(name, Vec::new()) },
            Action::ReadFile { path },
        ),
    }
}

/// Whether `text` is a minimum confidence that a query may carry.
pub fn accepts_confidence(text: &str) -> (ok: bool)
    ensures
        ok == is_confidence(text@),
{
    reads_within_unit(text)
}

/// Starts the registration of the track in `source` under `id`.
///
/// Nothing has happened when this returns: the caller reads the file or
/// sends the request as the action says, and reports to `advance`.
pub fn insert_as(
    service: &Service,
    source: &MediaSource,
    id: TrackIdentity,
    artist: &str,
    title: &str,
) -> (r: (Exchange, Action))
    ensures
        r.deep_view() == insert_start(service.root@, source@, id, artist@, title@),
{
    match source.resolve() {
        Ok(resolved) => {
            let draft = service.insert_request(&id, artist, title);
            launch(Purpose::Insert { id }, draft, resolved)
        },
        Err(error) => stop(error),
    }
}

/// Starts the registration of the track in `source` under the identifier
/// that the policy of the service gives it, which the outcome hands back.
/// Where the source has no name, no identifier is made.
pub fn insert(
    service: &Service,
    source: &MediaSource,
    artist: &str,
    title: &str,
    extra: &str,
) -> (r: (Exchange, Action))
    ensures
        match resolution(source@) {
            Ok(_) => exists|id: TrackIdentity|
                issued(service.policy, id, artist@, title@, extra@) && r.deep_view()
                    == #[trigger] insert_start(service.root@, source@, id, artist@, title@),
            Err(failure) => r.deep_view() == stopped(failure),
        },
{
    match source.resolve() {
        Ok(resolved) => {
            let id = TrackIdentity::assign(service.policy, artist, title, extra);
            let draft = service.insert_request(&id, artist, title);
            let r = launch(Purpose::Insert { id }, draft, resolved);
            assert(r.deep_view() == insert_start(service.root@, source@, id, artist@, title@));
            r
        },
        Err(error) => stop(error),
    }
}

/// Starts a query for the tracks that cover at least `min_confidence` of
/// the media in `source`. The confidence is a decimal numeral between `0`
/// and `1` and goes to the service as it is written.
pub fn query(service: &Service, source: &MediaSource, min_confidence: &str) -> (r: (
    Exchange,
    Action,
))
    ensures
        r.deep_view() == query_start(service.root@, source@, min_confidence@),
{
    if !accepts_confidence(min_confidence) {
        return stop(ClientError::InvalidArgument);
    }
    match source.resolve() {
        Ok(resolved) => {
            let draft = service.query_request(min_confidence);
            launch(Purpose::Query, draft, resolved)
        },
        Err(error) => stop(error),
    }
}

/// Reads the body of a successful answer to a query.
pub fn read_answer(body: &[u8]) -> (outcome: Outcome)
    ensures
        outcome.deep_view() == answer(body@),
{
    match parse(body) {
        Ok(value) => match decode_results(&value) {
            Ok(results) => Outcome::Matches { results },
            Err(error) => Outcome::Failed { error },
        },
        Err(_) => Outcome::Failed { error: ClientError::DecodeError },
    }
}

/// Says what a response means for an exchange.
pub fn interpret(purpose: Purpose, status: u16, body: &[u8]) -> (outcome: Outcome)
    ensures
        outcome.deep_view() == conclusion(purpose, status, body@),
{
    if status != STATUS_OK {
        Outcome::Failed { error: ClientError::ServiceRejected { status, body: text_of(body) } }
    } else {
        match purpose {
            Purpose::Insert { id } => Outcome::Inserted { id },
            Purpose::Query => read_answer(body),
        }
    }
}

impl Exchange {
    /// Takes the exchange one step on with what the caller reports. `None`
    /// where the exchange does not wait for such a report.
    pub fn advance(self, event: Event) -> (r: Option<(Exchange, Action)>)
        ensures
            r.deep_view() == next(self.deep_view(), event.deep_view()),
    {
        match self {
            Exchange::Reading { purpose, draft } => match event {
                Event::FileRead { content } => {
                    let name = draft.file.file_name.clone();
                    Some(
                        (
                            Exchange::Sending { purpose },
                            Action::Send { request: draft.carrying(name, content) },
                        ),
                    )
                },
                Event::FileUnreadable { reason } => Some(stop(ClientError::IoError { reason })),
                _ => None,
            },
            Exchange::Sending { purpose } => match event {
                Event::Responded { status, body } => Some(
                    (
                        Exchange::Finished,
                        Action::Finish { outcome: interpret(purpose, status, body.as_slice()) },
                    ),
                ),
                Event::Unreachable { reason } => Some(
                    stop(ClientError::TransportError { reason }),
                ),
                _ => None,
            },
            Exchange::Finished => None,
        }
    }
}

} // verus!
