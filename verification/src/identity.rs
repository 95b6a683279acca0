//! The identifiers under which tracks are registered.

use vstd::bytes::lemma_auto_spec_u64_to_from_le_bytes;
use vstd::bytes::spec_u64_from_le_bytes;
use vstd::bytes::spec_u64_to_le_bytes;
use vstd::bytes::u64_to_le_bytes;
use vstd::prelude::*;
use vstd::utf8::encode_utf8;
use vstd::utf8::encode_utf8_decode_utf8;

verus! {

/// The namespace under which identifiers are derived from metadata.
pub const TRACK_NAMESPACE: [u8; 16] = [
    0x5e, 0x1b, 0x6c, 0x3a, 0x84, 0x0d, 0x4f, 0x27, 0x9c, 0x52, 0xe7, 0x19, 0x0a, 0xb3, 0xd6, 0x48,
];

/// How a track gets its identifier when it is registered. A deployment
/// uses one of the two throughout: only `Derived` lets the service
/// recognise a track that is submitted a second time.
#[derive(Clone, Copy, Debug, PartialEq, Eq, Structural)]
pub enum IdentityPolicy {
    /// A fresh random identifier for every registration.
    Random,
    /// The identifier that the artist, the title and the caller's extra
    /// metadata determine.
    Derived,
}

/// The 128-bit identifier that a track is registered under.
#[derive(Clone, Copy, Debug, PartialEq, Eq)]
pub struct TrackIdentity {
    pub bytes: [u8; 16],
}

/// The name-based identifier of `name` in `namespace`: its SHA-1 digest cut
/// to 128 bits and marked as version 5.
pub uninterp spec fn name_based(namespace: Seq<u8>, name: Seq<u8>) -> Seq<u8>;

/// The digit for a number below sixteen, in lower case.
pub open spec fn hex_digit(n: int) -> char {
    if n < 10 {
        (48 + n) as u8 as char
    } else {
        (87 + n) as u8 as char
    }
}

/// Two digits for each byte, the high half first.
pub open spec fn hex_of(bytes: Seq<u8>) -> Seq<char> {
    Seq::new(
        2 * bytes.len(),
        |i: int|
            if i % 2 == 0 {
                hex_digit(bytes[i / 2] as int / 16)
            } else {
                hex_digit(bytes[i / 2] as int % 16)
            },
    )
}

/// Sixteen bytes in the usual form of five groups of digits with hyphens
/// between them, such as `6ba7b812-9dad-11d1-80b4-00c04fd430c8`.
pub open spec fn hyphenated_text(id: Seq<u8>) -> Seq<char> {
    hex_of(id.subrange(0, 4)) + seq!['-'] + hex_of(id.subrange(4, 6)) + seq!['-'] + hex_of(
        id.subrange(6, 8),
    ) + seq!['-'] + hex_of(id.subrange(8, 10)) + seq!['-'] + hex_of(id.subrange(10, 16))
}

/// `Uuid::new_v4`: sixteen random bytes in which the version is set to 4
/// and the variant to that of RFC 4122. Nothing else is known of them.
#[verifier::external_body]
fn random_uuid() -> (id: [u8; 16])
    ensures
        id@[6] / 16 == 4,
        id@[8] / 64 == 2,
{
    uuid::Uuid::new_v4().into_bytes()
}

/// `Uuid::new_v5`: the name-based identifier of `name` in `namespace`.
#[verifier::external_body]
fn name_based_uuid(namespace: &[u8; 16], name: &[u8]) -> (id: [u8; 16])
    ensures
        id@ == name_based(namespace@, name@),
{
    uuid::Uuid::new_v5(&uuid::Uuid::from_bytes(*namespace), name).into_bytes()
}

/// The `Display` of `Uuid`: lower-case digits in groups of 8, 4, 4, 4 and
/// 12 with hyphens between them.
#[verifier::external_body]
fn uuid_text(id: &[u8; 16]) -> (text: String)
    ensures
        text@ == hyphenated_text(id@),
{
    uuid::Uuid::from_bytes(*id).to_string()
}

/// A text as bytes behind their count, so that where it ends can be told.
pub open spec fn framed(text: Seq<char>) -> Seq<u8> {
    spec_u64_to_le_bytes(encode_utf8(text).len() as u64) + encode_utf8(text)
}

/// The name that an identifier is derived from: artist and title, each
/// framed, and the extra metadata behind them.
pub open spec fn identity_name(artist: Seq<char>, title: Seq<char>, extra: Seq<char>) -> Seq<u8> {
    framed(artist) + framed(title) + encode_utf8(extra)
}

/// The identifier that artist, title and extra metadata determine.
pub open spec fn derived_identity(artist: Seq<char>, title: Seq<char>, extra: Seq<char>) -> Seq<
    u8,
> {
    name_based(TRACK_NAMESPACE@, identity_name(artist, title, extra))
}

/// Whether `id` is an identifier that `policy` gives to a track with the
/// given metadata: any random one, or the one that the metadata determine.
pub open spec fn issued(
    policy: IdentityPolicy,
    id: TrackIdentity,
    artist: Seq<char>,
    title: Seq<char>,
    extra: Seq<char>,
) -> bool {
    match policy {
        IdentityPolicy::Random => id.is_random_form(),
        IdentityPolicy::Derived => id.bytes@ == derived_identity(artist, title, extra),
    }
}

/// Two framed texts with anything behind them are equal only if the texts
/// are equal, and what stands behind them too.
pub proof fn lemma_framed_splits(a: Seq<char>, rest_a: Seq<u8>, b: Seq<char>, rest_b: Seq<u8>)
    requires
        encode_utf8(a).len() <= u64::MAX,
        encode_utf8(b).len() <= u64::MAX,
        framed(a) + rest_a == framed(b) + rest_b,
    ensures
        a == b,
        rest_a == rest_b,
{
    lemma_auto_spec_u64_to_from_le_bytes();
    let bytes_a = encode_utf8(a);
    let bytes_b = encode_utf8(b);
    let count_a = spec_u64_to_le_bytes(bytes_a.len() as u64);
    let count_b = spec_u64_to_le_bytes(bytes_b.len() as u64);
    let all_a = framed(a) + rest_a;
    let all_b = framed(b) + rest_b;
    assert(all_a.subrange(0, 8) =~= count_a);
    assert(all_b.subrange(0, 8) =~= count_b);
    assert(spec_u64_from_le_bytes(count_a) == spec_u64_from_le_bytes(count_b));
    assert(bytes_a.len() == bytes_b.len());
    let end: int = 8 + bytes_a.len() as int;
    assert(all_a.subrange(8, end) =~= bytes_a);
    assert(all_b.subrange(8, end) =~= bytes_b);
    assert(all_a.subrange(end, all_a.len() as int) =~= rest_a);
    assert(all_b.subrange(end, all_b.len() as int) =~= rest_b);
    encode_utf8_decode_utf8(a);
    encode_utf8_decode_utf8(b);
}

/// Different metadata never gives the same name: the name tells artist,
/// title and extra metadata apart.
pub proof fn lemma_identity_name_is_injective(
    artist: Seq<char>,
    title: Seq<char>,
    extra: Seq<char>,
    other_artist: Seq<char>,
    other_title: Seq<char>,
    other_extra: Seq<char>,
)
    requires
        encode_utf8(artist).len() <= u64::MAX,
        encode_utf8(title).len() <= u64::MAX,
        encode_utf8(other_artist).len() <= u64::MAX,
        encode_utf8(other_title).len() <= u64::MAX,
        identity_name(artist, title, extra) == identity_name(
            other_artist,
            other_title,
            other_extra,
        ),
    ensures
        artist == other_artist,
        title == other_title,
        extra == other_extra,
{
    let rest = framed(title) + encode_utf8(extra);
    let other_rest = framed(other_title) + encode_utf8(other_extra);
    assert(identity_name(artist, title, extra) =~= framed(artist) + rest);
    assert(identity_name(other_artist, other_title, other_extra) =~= framed(other_artist)
        + other_rest);
    lemma_framed_splits(artist, rest, other_artist, other_rest);
    lemma_framed_splits(title, encode_utf8(extra), other_title, encode_utf8(other_extra));
    encode_utf8_decode_utf8(extra);
    encode_utf8_decode_utf8(other_extra);
}

/// The same metadata always gives the same identifier.
pub proof fn lemma_derived_identity_is_stable(
    artist: Seq<char>,
    title: Seq<char>,
    extra: Seq<char>,
    other_artist: Seq<char>,
    other_title: Seq<char>,
    other_extra: Seq<char>,
)
    requires
        artist == other_artist,
        title == other_title,
        extra == other_extra,
    ensures
        derived_identity(artist, title, extra) == derived_identity(
            other_artist,
            other_title,
            other_extra,
        ),
{
}

/// Puts `bytes` behind what `out` holds.
fn append(out: &mut Vec<u8>, bytes: &[u8])
    ensures
        final(out)@ == old(out)@ + bytes@,
{
    let mut i: usize = 0;
    while i < bytes.len()
        invariant
            i <= bytes.len(),
            out@ == old(out)@ + bytes@.take(i as int),
        decreases bytes.len() - i,
    {
        out.push(bytes[i]);
        assert(bytes@.take(i + 1) =~= bytes@.take(i as int).push(bytes@[i as int]));
        i = i + 1;
    }
    assert(bytes@.take(i as int) =~= bytes@);
}

/// Puts `text` behind what `out` holds, framed.
fn append_framed(out: &mut Vec<u8>, text: &str)
    ensures
        final(out)@ == old(out)@ + framed(text@),
{
    let bytes = text.as_bytes();
    let count = u64_to_le_bytes(bytes.len() as u64);
    append(out, count.as_slice());
    append(out, bytes);
    assert(out@ =~= old(out)@ + framed(text@));
}

impl TrackIdentity {
    /// A fresh identifier that does not depend on the track.
    pub fn random() -> (id: TrackIdentity)
        ensures
            id.is_random_form(),
    {
        TrackIdentity { bytes: random_uuid() }
    }

    /// Whether version and variant are those of a random identifier.
    pub open spec fn is_random_form(self) -> bool {
        self.bytes@[6] / 16 == 4 && self.bytes@[8] / 64 == 2
    }

    /// The identifier that belongs to the given metadata, the same at
    /// every call.
    pub fn derive(artist: &str, title: &str, extra: &str) -> (id: TrackIdentity)
        ensures
            id.bytes@ == derived_identity(artist@, title@, extra@),
    {
        let mut name: Vec<u8> = Vec::new();
        append_framed(&mut name, artist);
        append_framed(&mut name, title);
        append(&mut name, extra.as_bytes());
        assert(name@ =~= identity_name(artist@, title@, extra@));
        TrackIdentity { bytes: name_based_uuid(&TRACK_NAMESPACE, name.as_slice()) }
    }

    /// The identifier for a registration under `policy`.
    pub fn assign(policy: IdentityPolicy, artist: &str, title: &str, extra: &str) -> (id:
        TrackIdentity)
        ensures
            issued(policy, id, artist@, title@, extra@),
    {
        match policy {
            IdentityPolicy::Random => TrackIdentity::random(),
            IdentityPolicy::Derived => TrackIdentity::derive(artist, title, extra),
        }
    }

    /// The identifier as the service takes it: hyphenated, in lower case.
    pub fn to_text(&self) -> (text: String)
        ensures
            text@ == hyphenated_text(self.bytes@),
    {
        uuid_text(&self.bytes)
    }
}

} // verus!
