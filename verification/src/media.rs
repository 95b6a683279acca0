//! Where the bytes of a submission come from, and the name they go out
//! under.

use crate::error::ClientError;
use crate::error::Failure;
use crate::text::chars_of;
use crate::text::decimal_of;
use crate::text::decimal_text;
use crate::text::quote;
use crate::text::quoted;
use vstd::prelude::*;
use vstd::string::StrSliceExecFns;
use vstd::string::StringExecFns;

verus! {

#[verifier::external_type_specification]
#[verifier::external_body]
pub struct ExBytes(bytes::Bytes);

/// The bytes that a buffer holds.
pub uninterp spec fn bytes_content(buffer: bytes::Bytes) -> Seq<u8>;

/// `Bytes::to_vec`, through the buffer's view as a slice: a copy of the
/// bytes that the buffer holds, in order.
#[verifier::external_body]
fn copy_of(buffer: &bytes::Bytes) -> (data: Vec<u8>)
    ensures
        data@ == bytes_content(*buffer),
{
    buffer.to_vec()
}

/// `Bytes::len`: how many bytes the buffer holds.
#[verifier::external_body]
fn length_of(buffer: &bytes::Bytes) -> (n: usize)
    ensures
        n == bytes_content(*buffer).len(),
{
    buffer.len()
}

/// Where the bytes of a submission come from.
#[derive(Clone, Copy, Debug)]
pub enum MediaSource<'a> {
    /// A file, by its path with `/` between the segments. It is read when
    /// the submission is made and named by the final segment of the path.
    File(&'a str),
    /// A name and the bytes themselves.
    Bytes(&'a str, &'a bytes::Bytes),
}

/// A `MediaSource` as contracts see it.
pub enum Source {
    File { path: Seq<char> },
    Bytes { name: Seq<char>, data: Seq<u8> },
}

impl<'a> View for MediaSource<'a> {
    type V = Source;

    open spec fn view(&self) -> Source {
        match self {
            MediaSource::File(path) => Source::File { path: path@ },
            MediaSource::Bytes(name, data) => Source::Bytes {
                name: name@,
                data: bytes_content(**data),
            },
        }
    }
}

/// The bytes to submit and the name to submit them under.
#[derive(Debug)]
pub struct Payload {
    pub name: String,
    pub data: Vec<u8>,
}

/// What a source resolves to before any file is read.
#[derive(Debug)]
pub enum Resolved {
    /// The payload is at hand.
    Ready { payload: Payload },
    /// The file at `path` has to be read; its bytes go out under `name`.
    Pending { name: String, path: String },
}

/// A `Resolved` as contracts see it.
pub enum Resolution {
    Ready { name: Seq<char>, data: Seq<u8> },
    Pending { name: Seq<char>, path: Seq<char> },
}

impl View for Resolved {
    type V = Resolution;

    open spec fn view(&self) -> Resolution {
        match self {
            Resolved::Ready { payload } => Resolution::Ready {
                name: payload.name@,
                data: payload.data@,
            },
            Resolved::Pending { name, path } => Resolution::Pending { name: name@, path: path@ },
        }
    }
}

/// How many characters the segment has that ends before `end`.
pub open spec fn segment_len(path: Seq<char>, end: int) -> nat
    decreases end,
{
    if end <= 0 || end > path.len() || path[end - 1] == '/' {
        0
    } else {
        1 + segment_len(path, end - 1)
    }
}

/// The final segment of the first `end` characters of `path`.
pub open spec fn final_segment_before(path: Seq<char>, end: int) -> Option<Seq<char>>
    decreases end,
{
    if end <= 0 || end > path.len() {
        None
    } else if path[end - 1] == '/' {
        final_segment_before(path, end - 1)
    } else {
        let start = end - segment_len(path, end);
        let segment = path.subrange(start, end);
        if segment == seq!['.'] {
            proof {
                lemma_segment(path, end);
            }
            final_segment_before(path, start)
        } else if segment == seq!['.', '.'] {
            None
        } else {
            Some(segment)
        }
    }
}

/// The final segment of a path: the last of its segments between `/` that
/// is neither empty nor `.`, unless that segment is `..`. A path of such
/// segments only (the empty path, `/`, `./`) has none.
pub open spec fn final_segment(path: Seq<char>) -> Option<Seq<char>> {
    final_segment_before(path, path.len() as int)
}

/// The name that a source is submitted under: the given name, or the final
/// segment of the path.
pub open spec fn display_name_of(source: Source) -> Result<Seq<char>, Failure> {
    match source {
        Source::Bytes { name, data } => Ok(name),
        Source::File { path } => match final_segment(path) {
            Some(name) => Ok(name),
            None => Err(Failure::InvalidPath),
        },
    }
}

/// A source in a line of text, as it is written to a log: a file by its
/// quoted path, bytes by their name and their count.
pub open spec fn description_of(source: Source) -> Seq<char> {
    match source {
        Source::File { path } => "path="@ + quoted(path),
        Source::Bytes { name, data } => "bytes, filename="@ + name + " len="@ + decimal_of(
            data.len(),
        ),
    }
}

/// What a source resolves to: the given name and bytes, or the file to read
/// and the name from its path.
pub open spec fn resolution(source: Source) -> Result<Resolution, Failure> {
    match source {
        Source::Bytes { name, data } => Ok(Resolution::Ready { name, data }),
        Source::File { path } => match final_segment(path) {
            Some(name) => Ok(Resolution::Pending { name, path }),
            None => Err(Failure::InvalidPath),
        },
    }
}

/// A source of bytes resolves to exactly its name and its bytes, whatever
/// they are.
pub proof fn lemma_bytes_resolve_to_themselves(name: Seq<char>, data: Seq<u8>)
    ensures
        display_name_of(Source::Bytes { name, data }) == Ok::<Seq<char>, Failure>(name),
        resolution(Source::Bytes { name, data }) == Ok::<Resolution, Failure>(
            Resolution::Ready { name, data },
        ),
{
}

/// A file is named by the final segment of its path, and is an invalid
/// path where the path has none.
pub proof fn lemma_files_resolve_by_their_final_segment(path: Seq<char>)
    ensures
        match final_segment(path) {
            Some(name) => {
                &&& display_name_of(Source::File { path }) == Ok::<Seq<char>, Failure>(name)
                &&& resolution(Source::File { path }) == Ok::<Resolution, Failure>(
                    Resolution::Pending { name, path },
                )
            },
            None => {
                &&& display_name_of(Source::File { path }) == Err::<Seq<char>, Failure>(
                    Failure::InvalidPath,
                )
                &&& resolution(Source::File { path }) == Err::<Resolution, Failure>(
                    Failure::InvalidPath,
                )
            },
        },
{
}

/// A segment reaches back to the start of the path or to a `/`, and holds
/// no `/` itself.
pub proof fn lemma_segment(path: Seq<char>, end: int)
    requires
        0 <= end <= path.len(),
    ensures
        segment_len(path, end) <= end,
        end - segment_len(path, end) == 0 || path[end - segment_len(path, end) - 1] == '/',
        forall|i: int| end - segment_len(path, end) <= i < end ==> path[i] != '/',
    decreases end,
{
    if end > 0 && path[end - 1] != '/' {
        lemma_segment(path, end - 1);
    }
}

/// Whether `name` stands in `path` from `start` on, with nothing but `/`
/// and `.` between it and `end`.
pub open spec fn stands_at(path: Seq<char>, name: Seq<char>, start: int, end: int) -> bool {
    &&& 0 <= start
    &&& start + name.len() <= end
    &&& path.subrange(start, start + name.len()) == name
    &&& forall|i: int| start + name.len() <= i < end ==> path[i] == '/' || path[i] == '.'
}

/// A final segment is a piece of the path that is not empty, holds no `/`
/// and is neither `.` nor `..`; behind it the path holds nothing but `/`
/// and `.`.
pub proof fn lemma_final_segment_is_a_name(path: Seq<char>, end: int)
    requires
        0 <= end <= path.len(),
    ensures
        match final_segment_before(path, end) {
            Some(name) => {
                &&& name.len() > 0
                &&& name != seq!['.']
                &&& name != seq!['.', '.']
                &&& forall|i: int| 0 <= i < name.len() ==> name[i] != '/'
                &&& exists|start: int| stands_at(path, name, start, end)
            },
            None => true,
        },
    decreases end,
{
    if end > 0 {
        if path[end - 1] == '/' {
            let before = end - 1;
            lemma_final_segment_is_a_name(path, before);
            if let Some(name) = final_segment_before(path, before) {
                let start = choose|start: int| stands_at(path, name, start, before);
                assert(stands_at(path, name, start, end));
            }
        } else {
            lemma_segment(path, end);
            let start = end - segment_len(path, end);
            let segment = path.subrange(start, end);
            if segment == seq!['.'] {
                lemma_final_segment_is_a_name(path, start);
                assert(segment.len() == 1);
                assert(segment[0] == '.');
                if let Some(name) = final_segment_before(path, start) {
                    let first = choose|first: int| stands_at(path, name, first, start);
                    assert(stands_at(path, name, first, end));
                }
            } else if segment == seq!['.', '.'] {
            } else {
                assert(stands_at(path, segment, start, end));
            }
        }
    }
}

/// A plain name behind a directory is the final segment of the joined path.
pub proof fn lemma_final_segment_of_joined(directory: Seq<char>, name: Seq<char>)
    requires
        name.len() > 0,
        name != seq!['.'],
        name != seq!['.', '.'],
        forall|i: int| 0 <= i < name.len() ==> name[i] != '/',
    ensures
        final_segment(directory + seq!['/'] + name) == Some(name),
        final_segment(name) == Some(name),
{
    let joined = directory + seq!['/'] + name;
    let start: int = directory.len() as int + 1;
    lemma_whole_segment(joined, start, joined.len() as int);
    assert(joined.subrange(start, joined.len() as int) =~= name);
    lemma_whole_segment(name, 0, name.len() as int);
    assert(name.subrange(0, name.len() as int) =~= name);
}

/// A stretch without `/` that starts at the start of the path or behind a
/// `/` is one segment.
proof fn lemma_whole_segment(path: Seq<char>, start: int, end: int)
    requires
        0 <= start <= end <= path.len(),
        start == 0 || path[start - 1] == '/',
        forall|i: int| start <= i < end ==> path[i] != '/',
    ensures
        segment_len(path, end) == end - start,
    decreases end - start,
{
    if start < end {
        lemma_whole_segment(path, start, end - 1);
    }
}

/// The final segment of `path`, as a name of its own.
pub fn file_name(path: &str) -> (name: Option<String>)
    ensures
        match name {
            Some(n) => final_segment(path@) == Some(n@),
            None => final_segment(path@) is None,
        },
{
    let chars = chars_of(path);
    let mut end: usize = chars.len();
    while end > 0
        invariant
            end <= chars.len(),
            chars@ == path@,
            final_segment_before(chars@, end as int) == final_segment(path@),
        decreases end,
    {
        if chars[end - 1] == '/' {
            end = end - 1;
        } else {
            let mut start: usize = end - 1;
            while start > 0 && chars[start - 1] != '/'
                invariant
                    start < end <= chars.len(),
                    segment_len(chars@, end as int) == (end - start) + segment_len(
                        chars@,
                        start as int,
                    ),
                decreases start,
            {
                start = start - 1;
            }
            let ghost segment = chars@.subrange(start as int, end as int);
            if end - start == 1 && chars[start] == '.' {
                assert(segment =~= seq!['.']);
                end = start;
            } else if end - start == 2 && chars[start] == '.' && chars[start + 1] == '.' {
                assert(segment =~= seq!['.', '.']);
                return None;
            } else {
                assert(segment != seq!['.']) by {
                    if segment == seq!['.'] {
                        assert(segment.len() == 1);
                        assert(segment[0] == '.');
                    }
                }
                assert(segment != seq!['.', '.']) by {
                    if segment == seq!['.', '.'] {
                        assert(segment.len() == 2);
                        assert(segment[0] == '.');
                        assert(segment[1] == '.');
                    }
                }
                let name = path.substring_char(start, end);
                return Some(name.to_owned());
            }
        }
    }
    None
}

impl<'a> MediaSource<'a> {
    /// The source in a line of text.
    pub fn describe(&self) -> (text: String)
        ensures
            text@ == description_of(self@),
    {
        match self {
            MediaSource::File(path) => {
                let mut text = "path=".to_owned();
                let path_text = quote(path);
                text.append(path_text.as_str());
                text
            },
            MediaSource::Bytes(name, data) => {
                let mut text = "bytes, filename=".to_owned();
                text.append(name);
                text.append(" len=");
                let count = decimal_text(length_of(data));
                text.append(count.as_str());
                text
            },
        }
    }

    /// The name that the bytes are submitted under.
    pub fn display_name(&self) -> (r: Result<String, ClientError>)
        ensures
            match r {
                Ok(name) => display_name_of(self@) == Ok::<Seq<char>, Failure>(name@),
                Err(e) => display_name_of(self@) == Err::<Seq<char>, Failure>(e@),
            },
    {
        match self {
            MediaSource::File(path) => match file_name(path) {
                Some(name) => Ok(name),
                None => Err(ClientError::InvalidPath),
            },
            MediaSource::Bytes(name, _) => Ok((*name).to_owned()),
        }
    }

    /// Resolves the source as far as that goes without reading a file.
    pub fn resolve(&self) -> (r: Result<Resolved, ClientError>)
        ensures
            match r {
                Ok(resolved) => resolution(self@) == Ok::<Resolution, Failure>(resolved@),
                Err(e) => resolution(self@) == Err::<Resolution, Failure>(e@),
            },
    {
        match self {
            MediaSource::File(path) => match file_name(path) {
                Some(name) => Ok(Resolved::Pending { name, path: (*path).to_owned() }),
                None => Err(ClientError::InvalidPath),
            },
            MediaSource::Bytes(name, data) => Ok(
                Resolved::Ready {
                    payload: Payload { name: (*name).to_owned(), data: copy_of(data) },
                },
            ),
        }
    }
}

} // verus!
