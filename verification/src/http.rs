//! Requests as plain data, and the meaning of reply statuses.
use vstd::prelude::*;

verus! {

/// The verb of a request.
#[derive(Debug, PartialEq, Eq, Clone, Copy)]
pub enum Method {
    Get,
    Post,
}

/// What a request carries.
#[derive(Debug, PartialEq, Eq)]
pub enum Body {
    /// No body at all.
    Nothing,
    /// These bytes, which may be none.
    Bytes(Vec<u8>),
    /// This JSON text, with the content type of JSON.
    Json(String),
    /// These fields, encoded as an HTML form, with the content type of one.
    Form(Vec<(String, String)>),
}

/// A request that is ready to be sent.
#[derive(Debug, PartialEq, Eq)]
pub struct Request {
    pub method: Method,
    pub url: String,
    pub headers: Vec<(String, String)>,
    /// The token of a bearer authorization.
    pub bearer: Option<String>,
    pub body: Body,
}

/// What a [`Body`] holds.
pub enum BodyView {
    Nothing,
    Bytes(Seq<u8>),
    Json(Seq<char>),
    Form(Seq<(Seq<char>, Seq<char>)>),
}

/// What a [`Request`] holds.
pub struct RequestView {
    pub method: Method,
    pub url: Seq<char>,
    pub headers: Seq<(Seq<char>, Seq<char>)>,
    pub bearer: Option<Seq<char>>,
    pub body: BodyView,
}

impl DeepView for Body {
    type V = BodyView;

    open spec fn deep_view(&self) -> BodyView {
        match self {
            Body::Nothing => BodyView::Nothing,
            Body::Bytes(bytes) => BodyView::Bytes(bytes@),
            Body::Json(json) => BodyView::Json(json@),
            Body::Form(fields) => BodyView::Form(fields.deep_view()),
        }
    }
}

impl DeepView for Request {
    type V = RequestView;

    open spec fn deep_view(&self) -> RequestView {
        RequestView {
            method: self.method,
            url: self.url@,
            headers: self.headers.deep_view(),
            bearer: self.bearer.deep_view(),
            body: self.body.deep_view(),
        }
    }
}

/// The status of a reply that has no content.
pub const NO_CONTENT: u16 = 204;

/// The status of a reply to a request for what is not there.
pub const NOT_FOUND: u16 = 404;

/// The status of a reply to one request too many.
pub const TOO_MANY_REQUESTS: u16 = 429;

/// The status of a reply of a server that cannot serve now.
pub const SERVICE_UNAVAILABLE: u16 = 503;

/// Whether a status says that the client or the server failed.
pub open spec fn is_error(status: u16) -> bool {
    400 <= status < 600
}

/// Whether a status asks to try again later.
pub open spec fn is_rate_limit(status: u16) -> bool {
    status == TOO_MANY_REQUESTS || status == SERVICE_UNAVAILABLE
}

/// Whether a status says that the client or the server failed.
pub fn is_error_status(status: u16) -> (r: bool)
    ensures
        r == is_error(status),
{
    400 <= status && status < 600
}

/// A pair of texts, such as the name and the value of a header.
pub(crate) fn pair_of(name: &str, value: &str) -> (r: (String, String))
    ensures
        r.deep_view() == (name@, value@),
{
    (name.to_owned(), value.to_owned())
}

/// The list with one pair more.
pub(crate) fn with_pair(pairs: Vec<(String, String)>, name: &str, value: &str) -> (r: Vec<
    (String, String),
>)
    ensures
        r.deep_view() == pairs.deep_view().push((name@, value@)),
{
    let ghost before = pairs.deep_view();
    let mut out: Vec<(String, String)> = pairs;
    out.push(pair_of(name, value));
    assert(out.deep_view() =~= before.push((name@, value@)));
    out
}

/// The list without pairs.
pub(crate) fn no_pairs() -> (r: Vec<(String, String)>)
    ensures
        r.deep_view() == Seq::<(Seq<char>, Seq<char>)>::empty(),
{
    let out: Vec<(String, String)> = Vec::new();
    assert(out.deep_view() =~= Seq::<(Seq<char>, Seq<char>)>::empty());
    out
}

} // verus!
