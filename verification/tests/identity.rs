use emycloud_client_rs::identity::TRACK_NAMESPACE;
use emycloud_client_rs::IdentityPolicy;
use emycloud_client_rs::TrackIdentity;
use uuid::Uuid;

fn framed_name(artist: &str, title: &str, extra: &str) -> Vec<u8> {
    let mut name = Vec::new();
    name.extend_from_slice(&(artist.len() as u64).to_le_bytes());
    name.extend_from_slice(artist.as_bytes());
    name.extend_from_slice(&(title.len() as u64).to_le_bytes());
    name.extend_from_slice(title.as_bytes());
    name.extend_from_slice(extra.as_bytes());
    name
}

#[test]
fn the_same_metadata_gives_the_same_identifier() {
    let first = TrackIdentity::derive("Nina Simone", "Sinnerman", "1965");
    let second = TrackIdentity::derive("Nina Simone", "Sinnerman", "1965");
    assert_eq!(first, second);
    assert_eq!(first.to_text(), second.to_text());
}

#[test]
fn a_change_in_any_one_input_changes_the_identifier() {
    let base = TrackIdentity::derive("Nina Simone", "Sinnerman", "1965");
    assert_ne!(base, TrackIdentity::derive("Nina Simon", "Sinnerman", "1965"));
    assert_ne!(base, TrackIdentity::derive("Nina Simone", "Sinnerman ", "1965"));
    assert_ne!(base, TrackIdentity::derive("Nina Simone", "Sinnerman", "1966"));
    assert_ne!(base, TrackIdentity::derive("Nina Simone", "Sinnerman", ""));
    assert_ne!(base, TrackIdentity::derive("Sinnerman", "Nina Simone", "1965"));
}

#[test]
fn text_that_moves_between_the_inputs_changes_the_identifier() {
    let ids = [
        TrackIdentity::derive("ab", "c", ""),
        TrackIdentity::derive("a", "bc", ""),
        TrackIdentity::derive("", "abc", ""),
        TrackIdentity::derive("abc", "", ""),
        TrackIdentity::derive("", "", "abc"),
        TrackIdentity::derive("a", "b", "c"),
        TrackIdentity::derive("", "", ""),
    ];
    for i in 0..ids.len() {
        for j in 0..i {
            assert_ne!(ids[i], ids[j], "{i} {j}");
        }
    }
}

#[test]
fn the_derived_identifier_is_the_name_based_one_of_the_framed_metadata() {
    let namespace = Uuid::from_bytes(TRACK_NAMESPACE);
    for (artist, title, extra) in
        [("Nina Simone", "Sinnerman", "1965"), ("", "", ""), ("Björk", "Jóga", "céu")]
    {
        let expected = Uuid::new_v5(&namespace, &framed_name(artist, title, extra));
        let derived = TrackIdentity::derive(artist, title, extra);
        assert_eq!(derived.bytes, expected.into_bytes());
        assert_eq!(expected.get_version_num(), 5);
    }
}

#[test]
fn the_identifier_is_written_in_hyphenated_lower_case() {
    let id = TrackIdentity {
        bytes: [
            0x6b, 0xa7, 0xb8, 0x12, 0x9d, 0xad, 0x11, 0xd1, 0x80, 0xb4, 0x00, 0xc0, 0x4f, 0xd4,
            0x30, 0xc8,
        ],
    };
    assert_eq!(id.to_text(), "6ba7b812-9dad-11d1-80b4-00c04fd430c8");
    let zero = TrackIdentity { bytes: [0; 16] };
    assert_eq!(zero.to_text(), "00000000-0000-0000-0000-000000000000");
    let full = TrackIdentity { bytes: [0xff; 16] };
    assert_eq!(full.to_text(), "ffffffff-ffff-ffff-ffff-ffffffffffff");
}

#[test]
fn the_text_of_an_identifier_reads_back_as_its_bytes() {
    let id = TrackIdentity::derive("a", "b", "c");
    let text = id.to_text();
    assert_eq!(text.len(), 36);
    assert_eq!(Uuid::parse_str(&text).unwrap().into_bytes(), id.bytes);
}

#[test]
fn a_random_identifier_has_version_four() {
    for _ in 0..32 {
        let id = TrackIdentity::random();
        assert_eq!(id.bytes[6] >> 4, 4);
        assert_eq!(id.bytes[8] >> 6, 2);
        assert_eq!(id.to_text().as_bytes()[14], b'4');
    }
}

#[test]
fn random_identifiers_are_not_reused() {
    let first = TrackIdentity::random();
    let second = TrackIdentity::random();
    assert_ne!(first, second);
}

#[test]
fn the_policy_selects_the_scheme() {
    let derived = TrackIdentity::assign(IdentityPolicy::Derived, "a", "b", "c");
    assert_eq!(derived, TrackIdentity::derive("a", "b", "c"));
    let random = TrackIdentity::assign(IdentityPolicy::Random, "a", "b", "c");
    assert_eq!(random.bytes[6] >> 4, 4);
    assert_ne!(random, derived);
}
