//! The requests that go to the service, as plain data.

use crate::identity::hyphenated_text;
use crate::identity::IdentityPolicy;
use crate::identity::TrackIdentity;
use vstd::prelude::*;
use vstd::string::StringExecFns;

verus! {

/// The root of the service's interface where it runs on the same machine.
pub const LOCAL_ROOT: &'static str = "http://localhost:3340/api/v1.1/";

/// The service to talk to, and how tracks get their identifiers there.
#[derive(Debug)]
pub struct Service {
    /// The root of the service's interface. The paths of the two
    /// operations are written directly behind it, so it ends in `/`.
    pub root: String,
    /// The one scheme by which this deployment identifies tracks.
    pub policy: IdentityPolicy,
}

/// The one file of a submission.
#[derive(Debug)]
pub struct FilePart {
    /// The name of the part in the form.
    pub name: String,
    /// The name of the file, as the service is told.
    pub file_name: String,
    pub content_type: String,
    pub content: Vec<u8>,
}

/// A request to the service, with basic authentication and a multipart
/// body that holds the text fields and the file.
#[derive(Debug)]
pub struct Request {
    pub method: String,
    pub url: String,
    pub user: String,
    pub password: String,
    /// The value of the `Accept` header.
    pub accept: String,
    /// The parameters of the query string, in order.
    pub query: Vec<(String, String)>,
    /// The text fields of the form, in order.
    pub fields: Vec<(String, String)>,
    pub file: FilePart,
}

/// A `FilePart` as contracts see it.
pub struct Part {
    pub name: Seq<char>,
    pub file_name: Seq<char>,
    pub content_type: Seq<char>,
    pub content: Seq<u8>,
}

/// A `Request` as contracts see it.
pub struct Outgoing {
    pub method: Seq<char>,
    pub url: Seq<char>,
    pub user: Seq<char>,
    pub password: Seq<char>,
    pub accept: Seq<char>,
    pub query: Seq<(Seq<char>, Seq<char>)>,
    pub fields: Seq<(Seq<char>, Seq<char>)>,
    pub file: Part,
}

impl DeepView for FilePart {
    type V = Part;

    open spec fn deep_view(&self) -> Part {
        Part {
            name: self.name@,
            file_name: self.file_name@,
            content_type: self.content_type@,
            content: self.content@,
        }
    }
}

impl DeepView for Request {
    type V = Outgoing;

    open spec fn deep_view(&self) -> Outgoing {
        Outgoing {
            method: self.method@,
            url: self.url@,
            user: self.user@,
            password: self.password@,
            accept: self.accept@,
            query: self.query.deep_view(),
            fields: self.fields.deep_view(),
            file: self.file.deep_view(),
        }
    }
}

impl Outgoing {
    /// The same request with `name` and `content` for its file.
    pub open spec fn carrying(self, name: Seq<char>, content: Seq<u8>) -> Outgoing {
        Outgoing {
            file: Part { file_name: name, content: content, ..self.file },
            ..self
        }
    }
}

/// What every request has in common but for its path, its parameters and
/// its fields: it is a `POST` with the administrator's login without a
/// password, asks for an answer in JSON, and has a part `file` of plain
/// bytes.
pub open spec fn request_to(
    root: Seq<char>,
    path: Seq<char>,
    query: Seq<(Seq<char>, Seq<char>)>,
    fields: Seq<(Seq<char>, Seq<char>)>,
) -> Outgoing {
    Outgoing {
        method: "POST"@,
        url: root + path,
        user: "ADMIN"@,
        password: ""@,
        accept: "application/json"@,
        query,
        fields,
        file: Part {
            name: "file"@,
            file_name: Seq::empty(),
            content_type: "application/octet-stream"@,
            content: Seq::empty(),
        },
    }
}

/// The registration of a track, before its file is put in: the identifier
/// in its text form, artist, title, and the media type, which is always
/// audio.
pub open spec fn insert_request(
    root: Seq<char>,
    id: Seq<u8>,
    artist: Seq<char>,
    title: Seq<char>,
) -> Outgoing {
    request_to(
        root,
        "Tracks"@,
        Seq::empty(),
        seq![
            ("Id"@, hyphenated_text(id)),
            ("Artist"@, artist),
            ("Title"@, title),
            ("MediaType"@, "Audio"@),
        ],
    )
}

/// A query, before its file is put in. It carries no metadata. The
/// threshold goes out as `minCoverage`, and the service is asked to keep
/// what it finds.
pub open spec fn query_request(root: Seq<char>, min_confidence: Seq<char>) -> Outgoing {
    request_to(
        root,
        "Query"@,
        seq![
            ("mediaType"@, "Audio"@),
            ("minCoverage"@, min_confidence),
            ("registerMatches"@, "true"@),
        ],
        Seq::empty(),
    )
}

fn pair(key: &str, value: String) -> (r: (String, String))
    ensures
        r.deep_view() == (key@, value@),
{
    (key.to_owned(), value)
}

impl Service {
    /// The service on the same machine, at `LOCAL_ROOT`.
    pub fn local(policy: IdentityPolicy) -> (service: Service)
        ensures
            service.root@ == LOCAL_ROOT@,
            service.policy == policy,
    {
        Service { root: LOCAL_ROOT.to_owned(), policy }
    }

    /// The service whose interface starts at `root`.
    pub fn at(root: &str, policy: IdentityPolicy) -> (service: Service)
        ensures
            service.root@ == root@,
            service.policy == policy,
    {
        Service { root: root.to_owned(), policy }
    }

    fn request(
        &self,
        path: &str,
        query: Vec<(String, String)>,
        fields: Vec<(String, String)>,
    ) -> (request: Request)
        ensures
            request.deep_view() == request_to(
                self.root@,
                path@,
                query.deep_view(),
                fields.deep_view(),
            ),
    {
        let mut url = self.root.clone();
        url.append(path);
        Request {
            method: "POST".to_owned(),
            url,
            user: "ADMIN".to_owned(),
            password: "".to_owned(),
            accept: "application/json".to_owned(),
            query,
            fields,
            file: FilePart {
                name: "file".to_owned(),
                file_name: String::new(),
                content_type: "application/octet-stream".to_owned(),
                content: Vec::new(),
            },
        }
    }

    /// The request that registers a track, still without its file.
    pub fn insert_request(&self, id: &TrackIdentity, artist: &str, title: &str) -> (request:
        Request)
        ensures
            request.deep_view() == insert_request(self.root@, id.bytes@, artist@, title@),
    {
        let mut fields: Vec<(String, String)> = Vec::new();
        fields.push(pair("Id", id.to_text()));
        fields.push(pair("Artist", artist.to_owned()));
        fields.push(pair("Title", title.to_owned()));
        fields.push(pair("MediaType", "Audio".to_owned()));
        let query: Vec<(String, String)> = Vec::new();
        assert(query.deep_view() =~= Seq::empty());
        assert(fields.deep_view() =~= seq![
            ("Id"@, hyphenated_text(id.bytes@)),
            ("Artist"@, artist@),
            ("Title"@, title@),
            ("MediaType"@, "Audio"@),
        ]);
        self.request("Tracks", query, fields)
    }

    /// The request that asks for the tracks that match, still without its
    /// file.
    pub fn query_request(&self, min_confidence: &str) -> (request: Request)
        ensures
            request.deep_view() == query_request(self.root@, min_confidence@),
    {
        let mut query: Vec<(String, String)> = Vec::new();
        query.push(pair("mediaType", "Audio".to_owned()));
        query.push(pair("minCoverage", min_confidence.to_owned()));
        query.push(pair("registerMatches", "true".to_owned()));
        let fields: Vec<(String, String)> = Vec::new();
        assert(fields.deep_view() =~= Seq::empty());
        assert(query.deep_view() =~= seq![
            ("mediaType"@, "Audio"@),
            ("minCoverage"@, min_confidence@),
            ("registerMatches"@, "true"@),
        ]);
        self.request("Query", query, fields)
    }
}

impl Request {
    /// The same request with `name` and `content` for its file.
    pub fn carrying(self, name: String, content: Vec<u8>) -> (request: Request)
        ensures
            request.deep_view() == self.deep_view().carrying(name@, content@),
    {
        Request {
            method: self.method,
            url: self.url,
            user: self.user,
            password: self.password,
            accept: self.accept,
            query: self.query,
            fields: self.fields,
            file: FilePart {
                name: self.file.name,
                file_name: name,
                content_type: self.file.content_type,
                content,
            },
        }
    }
}

} // verus!
