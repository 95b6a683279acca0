//! A client for a service that matches audio by its fingerprint.
//!
//! The client registers tracks and asks which registered tracks a piece of
//! audio matches. It does not read files and does not talk to the network
//! itself: `insert` and `query` start an `Exchange`, which tells the caller
//! what to read or send and takes what came of it. Everything that the
//! client decides is decided here: the name a file is submitted under, the
//! identifier of a track, the request that goes out, and what a response
//! means.

pub mod decode;
pub mod error;
pub mod exchange;
pub mod identity;
pub mod json;
pub mod media;
pub mod model;
pub mod number;
pub mod request;
pub mod text;

pub use error::ClientError;
pub use exchange::insert;
pub use exchange::insert_as;
pub use exchange::query;
pub use exchange::Action;
pub use exchange::Event;
pub use exchange::Exchange;
pub use exchange::Outcome;
pub use identity::IdentityPolicy;
pub use identity::TrackIdentity;
pub use media::MediaSource;
pub use model::AudioCoverage;
pub use model::AudioMatch;
pub use model::Gap;
pub use model::QueryResult;
pub use model::TrackInfo;
pub use number::Fixed;
pub use request::Request;
pub use request::Service;
