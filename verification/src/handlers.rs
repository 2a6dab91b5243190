//! The two route handlers' decision logic: turning the outcome of a file
//! read into the HTTP response that the route answers with.

use vstd::prelude::*;
use crate::media::content_type_spec;
use crate::media::infer_content_type;

verus! {

/// An HTTP response as these routes produce it: a status code, the body
/// bytes, and an optional media type for the `Content-Type` header.
#[derive(Debug, PartialEq, Eq)]
pub struct Response {
    pub status: u16,
    pub body: Vec<u8>,
    pub content_type: Option<String>,
}

impl Response {
    /// Every response is either a full success or a bare not-found.
    pub open spec fn wf(self) -> bool {
        ||| self.status == 200u16
        ||| (self.status == 404u16 && self.body@ == Seq::<u8>::empty()
            && self.content_type is None)
    }
}

/// The one response a route may give for a request it serves with the file
/// contents read at `name`, or for one it cannot serve at all: the contents
/// verbatim under status 200 with the media type inferred from the name, or
/// status 404 with an empty body and no media type.
pub open spec fn response_matches(name: Seq<char>, contents: Option<Seq<u8>>, r: Response) -> bool {
    match contents {
        Some(b) => {
            &&& r.status == 200u16
            &&& r.body@ == b
            &&& r.content_type.deep_view() == content_type_spec(name)
        },
        None => {
            &&& r.status == 404u16
            &&& r.body@ == Seq::<u8>::empty()
            &&& r.content_type is None
        },
    }
}

/// The response for any request that cannot be served: status 404 with an
/// empty body and no media type, whatever the reason for the failure.
pub fn not_found() -> (r: Response)
    ensures
        r.status == 404u16,
        r.body@ == Seq::<u8>::empty(),
        r.content_type is None,
        r.wf(),
{
    let body: Vec<u8> = Vec::new();
    proof {
        assert(body@ =~= Seq::<u8>::empty());
    }
    Response { status: 404, body, content_type: None }
}

/// Answer a request that was resolved to the path `name` and then read:
/// the file's bytes when the read succeeded, a bare not-found when it did
/// not, whether the path was missing, unreadable or a directory.
pub fn static_response(name: &str, contents: Option<Vec<u8>>) -> (r: Response)
    ensures
        response_matches(name@, contents.deep_view(), r),
        r.wf(),
{
    match contents {
        Some(body) => {
            proof {
                assert(body.deep_view() =~= body@);
            }
            let content_type = infer_content_type(name);
            Response { status: 200, body, content_type }
        },
        None => not_found(),
    }
}

/// The fixed path of the index document, served for a request to the root.
pub open spec fn index_path_spec() -> Seq<char> {
    "static/index.html"@
}

/// The path at which the index document is read, as a value.
pub fn index_path() -> (r: String)
    ensures
        r@ == index_path_spec(),
{
    String::from_str("static/index.html")
}

/// Answer a request to the root from the outcome of reading the index
/// document at its fixed path.
pub fn index_response(contents: Option<Vec<u8>>) -> (r: Response)
    ensures
        response_matches(index_path_spec(), contents.deep_view(), r),
        r.wf(),
{
    static_response("static/index.html", contents)
}

/// Law: a request is idempotent. The handlers read nothing but their inputs
/// and mutate nothing, so two responses built for the same request name and
/// the same read outcome agree in status, body and media type.
pub proof fn lemma_get_idempotent(
    name: Seq<char>,
    contents: Option<Seq<u8>>,
    r1: Response,
    r2: Response,
)
    requires
        response_matches(name, contents, r1),
        response_matches(name, contents, r2),
    ensures
        r1.status == r2.status,
        r1.body@ == r2.body@,
        r1.content_type.deep_view() == r2.content_type.deep_view(),
{
}

} // verus!
