use bytes::Bytes;
use emycloud_client_rs::media::file_name;
use emycloud_client_rs::media::Resolved;
use emycloud_client_rs::ClientError;
use emycloud_client_rs::MediaSource;

fn final_name(path: &str) -> Option<String> {
    file_name(path)
}

#[test]
fn a_plain_name_is_its_own_final_segment() {
    assert_eq!(final_name("song.mp3"), Some("song.mp3".to_string()));
}

#[test]
fn the_final_segment_follows_the_last_separator() {
    assert_eq!(final_name("/music/albums/song.mp3"), Some("song.mp3".to_string()));
    assert_eq!(final_name("tmp/foo.txt"), Some("foo.txt".to_string()));
}

#[test]
fn separators_at_the_end_are_passed_over() {
    assert_eq!(final_name("/usr/bin/"), Some("bin".to_string()));
    assert_eq!(final_name("a//b//"), Some("b".to_string()));
}

#[test]
fn single_dots_are_passed_over() {
    assert_eq!(final_name("foo.txt/."), Some("foo.txt".to_string()));
    assert_eq!(final_name("foo.txt/.//"), Some("foo.txt".to_string()));
    assert_eq!(final_name("./a"), Some("a".to_string()));
}

#[test]
fn a_path_that_ends_in_two_dots_has_no_final_segment() {
    assert_eq!(final_name("foo.txt/.."), None);
    assert_eq!(final_name(".."), None);
    assert_eq!(final_name("a/../"), None);
}

#[test]
fn names_that_only_start_with_dots_are_names() {
    assert_eq!(final_name("..a"), Some("..a".to_string()));
    assert_eq!(final_name(".hidden"), Some(".hidden".to_string()));
    assert_eq!(final_name("a/..."), Some("...".to_string()));
}

#[test]
fn the_empty_path_and_the_root_have_no_final_segment() {
    assert_eq!(final_name(""), None);
    assert_eq!(final_name("/"), None);
    assert_eq!(final_name("//"), None);
    assert_eq!(final_name("."), None);
    assert_eq!(final_name("./"), None);
    assert_eq!(final_name("/."), None);
}

#[test]
fn names_keep_characters_outside_ascii() {
    assert_eq!(final_name("musique/été.flac"), Some("été.flac".to_string()));
    assert_eq!(final_name("音楽/曲.mp3/"), Some("曲.mp3".to_string()));
}

#[test]
fn the_final_segment_agrees_with_the_standard_library_on_unix_paths() {
    let paths = [
        "", "/", ".", "..", "a", "a/", "a/b", "a/b/", "/a", "a/.", "a/..", "./a", "../a", "a//b",
        "a/./b/.", "/./", "a/b/../c", "x.y/z.w", "a/. /", " / ", "a/.../",
    ];
    for path in paths {
        let expected = std::path::Path::new(path)
            .file_name()
            .map(|name| name.to_string_lossy().into_owned());
        if std::path::MAIN_SEPARATOR == '/' {
            assert_eq!(final_name(path), expected);
        }
    }
}

#[test]
fn a_file_source_is_named_by_its_final_segment() {
    let source = MediaSource::File("/srv/audio/take one.wav");
    assert_eq!(source.display_name().unwrap(), "take one.wav");
}

#[test]
fn a_file_source_without_a_final_segment_is_an_invalid_path() {
    for path in ["", "/", "..", "music/.."] {
        let source = MediaSource::File(path);
        assert!(matches!(source.display_name(), Err(ClientError::InvalidPath)));
        assert!(matches!(source.resolve(), Err(ClientError::InvalidPath)));
    }
}

#[test]
fn a_file_source_resolves_to_the_file_to_read() {
    let source = MediaSource::File("/srv/audio/a.mp3");
    match source.resolve() {
        Ok(Resolved::Pending { name, path }) => {
            assert_eq!(name, "a.mp3");
            assert_eq!(path, "/srv/audio/a.mp3");
        }
        other => panic!("{other:?}"),
    }
}

#[test]
fn a_bytes_source_resolves_to_its_name_and_its_bytes() {
    let data = Bytes::from(vec![0u8, 1, 2, 255, 254]);
    let source = MediaSource::Bytes("clip.ogg", &data);
    assert_eq!(source.display_name().unwrap(), "clip.ogg");
    match source.resolve() {
        Ok(Resolved::Ready { payload }) => {
            assert_eq!(payload.name, "clip.ogg");
            assert_eq!(payload.data, vec![0u8, 1, 2, 255, 254]);
        }
        other => panic!("{other:?}"),
    }
}

#[test]
fn a_bytes_source_may_be_empty_and_may_have_any_name() {
    let data = Bytes::new();
    let source = MediaSource::Bytes("", &data);
    assert_eq!(source.display_name().unwrap(), "");
    match source.resolve() {
        Ok(Resolved::Ready { payload }) => {
            assert_eq!(payload.name, "");
            assert!(payload.data.is_empty());
        }
        other => panic!("{other:?}"),
    }
    let source = MediaSource::Bytes("a/../..", &data);
    assert_eq!(source.display_name().unwrap(), "a/../..");
}

#[test]
fn a_bytes_source_copies_a_slice_of_a_larger_buffer() {
    let all = Bytes::from_static(b"0123456789");
    let part = all.slice(3..7);
    let source = MediaSource::Bytes("part", &part);
    match source.resolve() {
        Ok(Resolved::Ready { payload }) => assert_eq!(payload.data, b"3456".to_vec()),
        other => panic!("{other:?}"),
    }
}

#[test]
fn a_file_source_is_described_by_its_quoted_path() {
    assert_eq!(MediaSource::File("/srv/audio/a.mp3").describe(), "path=\"/srv/audio/a.mp3\"");
    assert_eq!(MediaSource::File("").describe(), "path=\"\"");
    assert_eq!(MediaSource::File("a \"b\"\n.mp3").describe(), "path=\"a \\\"b\\\"\\n.mp3\"");
    let path = "musique/été.flac";
    assert_eq!(MediaSource::File(path).describe(), format!("path={:?}", std::path::Path::new(path)));
}

#[test]
fn a_bytes_source_is_described_by_its_name_and_its_length() {
    let data = Bytes::from_static(b"01234");
    assert_eq!(MediaSource::Bytes("clip.ogg", &data).describe(), "bytes, filename=clip.ogg len=5");
    let empty = Bytes::new();
    assert_eq!(MediaSource::Bytes("", &empty).describe(), "bytes, filename= len=0");
    for length in [1usize, 9, 10, 11, 99, 100, 101, 12345, 1_000_000] {
        let data = Bytes::from(vec![7u8; length]);
        let expected = format!("bytes, filename=a b len={}", length);
        assert_eq!(MediaSource::Bytes("a b", &data).describe(), expected);
    }
}
