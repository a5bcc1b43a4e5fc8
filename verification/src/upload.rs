//! Handing a new version of an attachment's file to Zotero: authorize, store, register.
use vstd::prelude::*;

use crate::encoding;
use crate::http;
use crate::http::{Body, BodyView, Method, Request, RequestView};
use crate::json;
use crate::number;
use crate::zotero;
use crate::zotero::Zotero;

verus! {

/// What Zotero says about where and how a file is to be stored.
#[derive(Debug, PartialEq, Eq)]
pub struct UploadTicket {
    pub url: String,
    pub content_type: String,
    pub prefix: String,
    pub suffix: String,
    pub upload_key: String,
}

/// What an [`UploadTicket`] holds.
pub struct UploadTicketView {
    pub url: Seq<char>,
    pub content_type: Seq<char>,
    pub prefix: Seq<char>,
    pub suffix: Seq<char>,
    pub upload_key: Seq<char>,
}

impl DeepView for UploadTicket {
    type V = UploadTicketView;

    open spec fn deep_view(&self) -> UploadTicketView {
        UploadTicketView {
            url: self.url@,
            content_type: self.content_type@,
            prefix: self.prefix@,
            suffix: self.suffix@,
            upload_key: self.upload_key@,
        }
    }
}

/// Why the reply to an authorization cannot be used.
#[derive(Debug, PartialEq, Eq, Clone, Copy)]
pub enum TicketError {
    /// The reply is no JSON.
    NotJson,
    /// The reply has no text for `url`.
    MissingUrl,
    /// The reply has no text for `contentType`.
    MissingContentType,
    /// The reply has no text for `prefix`.
    MissingPrefix,
    /// The reply has no text for `suffix`.
    MissingSuffix,
    /// The reply has no text for `uploadKey`.
    MissingUploadKey,
}

/// Why an upload did not come to its end.
#[derive(Debug, PartialEq, Eq, Clone, Copy)]
pub enum UploadError {
    /// Zotero refused to authorize the upload.
    AuthorizationRefused,
    /// Zotero authorized the upload but did not say how to store the file.
    Ticket(TicketError),
    /// The storage refused the file.
    StorageRefused,
    /// Zotero refused to register the stored file.
    RegistrationRefused,
}

/// Which reply an upload waits for.
#[derive(Debug, PartialEq, Eq)]
pub enum UploadStage {
    Authorizing,
    Storing { upload_key: String },
    Registering,
}

/// What an [`UploadStage`] holds.
pub enum UploadStageView {
    Authorizing,
    Storing { upload_key: Seq<char> },
    Registering,
}

impl DeepView for UploadStage {
    type V = UploadStageView;

    open spec fn deep_view(&self) -> UploadStageView {
        match self {
            UploadStage::Authorizing => UploadStageView::Authorizing,
            UploadStage::Storing { upload_key } => UploadStageView::Storing {
                upload_key: upload_key@,
            },
            UploadStage::Registering => UploadStageView::Registering,
        }
    }
}

/// The upload of a file for an attachment, waiting for a reply.
#[derive(Debug, PartialEq, Eq)]
pub struct Upload {
    pub library: String,
    pub key: String,
    pub bytes: Vec<u8>,
    pub stage: UploadStage,
}

/// What an [`Upload`] holds.
pub struct UploadView {
    pub library: Seq<char>,
    pub key: Seq<char>,
    pub bytes: Seq<u8>,
    pub stage: UploadStageView,
}

impl DeepView for Upload {
    type V = UploadView;

    open spec fn deep_view(&self) -> UploadView {
        UploadView {
            library: self.library@,
            key: self.key@,
            bytes: self.bytes@,
            stage: self.stage.deep_view(),
        }
    }
}

/// What comes after a reply.
#[derive(Debug, PartialEq, Eq)]
pub enum UploadStep {
    /// Send the request, holding to Zotero's rate limits where it is `throttled`, and hand its
    /// reply to `next`.
    Send { next: Upload, request: Request, throttled: bool },
    /// The file is stored and registered.
    Done,
    Failed(UploadError),
}

/// What an [`UploadStep`] holds.
pub enum UploadStepView {
    Send { next: UploadView, request: RequestView, throttled: bool },
    Done,
    Failed(UploadError),
}

impl DeepView for UploadStep {
    type V = UploadStepView;

    open spec fn deep_view(&self) -> UploadStepView {
        match self {
            UploadStep::Send { next, request, throttled } => UploadStepView::Send {
                next: next.deep_view(),
                request: request.deep_view(),
                throttled: *throttled,
            },
            UploadStep::Done => UploadStepView::Done,
            UploadStep::Failed(e) => UploadStepView::Failed(*e),
        }
    }
}

/// The fields that describe a file to Zotero.
pub open spec fn file_fields(
    bytes: Seq<u8>,
    filename: Seq<char>,
    mtime: nat,
) -> Seq<(Seq<char>, Seq<char>)> {
    seq![
        ("md5"@, encoding::md5_hex(bytes)),
        ("filename"@, filename),
        ("filesize"@, number::decimal_text(bytes.len())),
        ("mtime"@, number::decimal_text(mtime)),
    ]
}

/// The request that asks leave to upload a file for an attachment.
pub open spec fn authorization_request(
    api_key: Seq<char>,
    library: Seq<char>,
    key: Seq<char>,
    filename: Seq<char>,
    bytes: Seq<u8>,
    mtime: nat,
) -> RequestView {
    zotero::form_request(
        api_key,
        library,
        zotero::file_path(key),
        file_fields(bytes, filename, mtime),
    )
}

/// The ticket made of five texts, or else which of them is missing first.
pub open spec fn ticket_of(
    url: Option<Seq<char>>,
    content_type: Option<Seq<char>>,
    prefix: Option<Seq<char>>,
    suffix: Option<Seq<char>>,
    upload_key: Option<Seq<char>>,
) -> Result<UploadTicketView, TicketError> {
    if url is None {
        Err(TicketError::MissingUrl)
    } else if content_type is None {
        Err(TicketError::MissingContentType)
    } else if prefix is None {
        Err(TicketError::MissingPrefix)
    } else if suffix is None {
        Err(TicketError::MissingSuffix)
    } else if upload_key is None {
        Err(TicketError::MissingUploadKey)
    } else {
        Ok(
            UploadTicketView {
                url: url->0,
                content_type: content_type->0,
                prefix: prefix->0,
                suffix: suffix->0,
                upload_key: upload_key->0,
            },
        )
    }
}

/// The member of that name.
pub open spec fn member(members: Map<Seq<char>, Seq<char>>, name: Seq<char>) -> Option<Seq<char>> {
    if members.contains_key(name) {
        Some(members[name])
    } else {
        None
    }
}

/// The ticket that the members of a reply make.
pub open spec fn ticket_in(members: Map<Seq<char>, Seq<char>>) -> Result<
    UploadTicketView,
    TicketError,
> {
    ticket_of(
        member(members, "url"@),
        member(members, "contentType"@),
        member(members, "prefix"@),
        member(members, "suffix"@),
        member(members, "uploadKey"@),
    )
}

/// The result with its ticket by what it holds.
pub open spec fn shown_ticket(r: Result<UploadTicket, TicketError>) -> Result<
    UploadTicketView,
    TicketError,
> {
    match r {
        Ok(ticket) => Ok(ticket.deep_view()),
        Err(e) => Err(e),
    }
}

/// The request that stores a file as a ticket says: the bytes between the ticket's texts.
pub open spec fn storage_request_of(ticket: UploadTicketView, bytes: Seq<u8>) -> RequestView {
    RequestView {
        method: Method::Post,
        url: ticket.url,
        headers: seq![("content-type"@, ticket.content_type)],
        bearer: None,
        body: BodyView::Bytes(
            vstd::utf8::encode_utf8(ticket.prefix) + bytes + vstd::utf8::encode_utf8(ticket.suffix),
        ),
    }
}

/// The step that follows on a ticket, or on the lack of one.
pub open spec fn ticketed(
    upload: UploadView,
    ticket: Result<UploadTicketView, TicketError>,
) -> UploadStepView {
    match ticket {
        Err(e) => UploadStepView::Failed(UploadError::Ticket(e)),
        Ok(ticket) => UploadStepView::Send {
            next: UploadView {
                stage: UploadStageView::Storing { upload_key: ticket.upload_key },
                ..upload
            },
            request: storage_request_of(ticket, upload.bytes),
            throttled: false,
        },
    }
}

/// The ticket in the body of a reply.
pub open spec fn ticket_of_reply(body: Seq<u8>) -> Result<UploadTicketView, TicketError> {
    match json::json_reply(body) {
        None => Err(TicketError::NotJson),
        Some(members) => ticket_in(members),
    }
}

/// The step that follows on a reply.
pub open spec fn step_after(
    upload: UploadView,
    api_key: Seq<char>,
    status: u16,
    body: Seq<u8>,
) -> UploadStepView {
    match upload.stage {
        UploadStageView::Authorizing => if http::is_error(status) {
            UploadStepView::Failed(UploadError::AuthorizationRefused)
        } else if status == http::NO_CONTENT {
            UploadStepView::Done
        } else {
            ticketed(upload, ticket_of_reply(body))
        },
        UploadStageView::Storing { upload_key } => if http::is_error(status) {
            UploadStepView::Failed(UploadError::StorageRefused)
        } else {
            UploadStepView::Send {
                next: UploadView { stage: UploadStageView::Registering, ..upload },
                request: zotero::form_request(
                    api_key,
                    upload.library,
                    zotero::file_path(upload.key),
                    seq![("upload"@, upload_key)],
                ),
                throttled: true,
            }
        },
        UploadStageView::Registering => if http::is_error(status) {
            UploadStepView::Failed(UploadError::RegistrationRefused)
        } else {
            UploadStepView::Done
        },
    }
}

/// Makes a ticket of the five texts that a reply must have.
pub fn ticket_from(
    url: Option<String>,
    content_type: Option<String>,
    prefix: Option<String>,
    suffix: Option<String>,
    upload_key: Option<String>,
) -> (r: Result<UploadTicket, TicketError>)
    ensures
        shown_ticket(r) == ticket_of(
            url.deep_view(),
            content_type.deep_view(),
            prefix.deep_view(),
            suffix.deep_view(),
            upload_key.deep_view(),
        ),
{
    match url {
        None => Err(TicketError::MissingUrl),
        Some(url) => match content_type {
            None => Err(TicketError::MissingContentType),
            Some(content_type) => match prefix {
                None => Err(TicketError::MissingPrefix),
                Some(prefix) => match suffix {
                    None => Err(TicketError::MissingSuffix),
                    Some(suffix) => match upload_key {
                        None => Err(TicketError::MissingUploadKey),
                        Some(upload_key) => Ok(
                            UploadTicket { url, content_type, prefix, suffix, upload_key },
                        ),
                    },
                },
            },
        },
    }
}

/// Reads the ticket in the body of a reply.
pub fn read_ticket(body: &[u8]) -> (r: Result<UploadTicket, TicketError>)
    ensures
        shown_ticket(r) == ticket_of_reply(body@),
{
    let value = match json::parse(body) {
        Ok(value) => value,
        Err(_) => {
            return Err(TicketError::NotJson);
        },
    };
    ticket_from(
        json::string_member(&value, "url"),
        json::string_member(&value, "contentType"),
        json::string_member(&value, "prefix"),
        json::string_member(&value, "suffix"),
        json::string_member(&value, "uploadKey"),
    )
}

fn push_bytes(out: Vec<u8>, more: &[u8]) -> (r: Vec<u8>)
    ensures
        r@ == out@ + more@,
{
    let ghost before = out@;
    let mut out: Vec<u8> = out;
    let mut i: usize = 0;
    while i < more.len()
        invariant
            i <= more@.len(),
            out@ == before + more@.take(i as int),
        decreases more@.len() - i,
    {
        out.push(more[i]);
        assert(more@.take(i + 1) =~= more@.take(i as int).push(more@[i as int]));
        i += 1;
    }
    assert(more@.take(i as int) =~= more@);
    out
}

/// The request that stores a file as a ticket says.
pub fn storage_request(ticket: &UploadTicket, bytes: &[u8]) -> (r: Request)
    ensures
        r.deep_view() == storage_request_of(ticket.deep_view(), bytes@),
{
    let mut body: Vec<u8> = Vec::new();
    body = push_bytes(body, ticket.prefix.as_str().as_bytes());
    body = push_bytes(body, bytes);
    body = push_bytes(body, ticket.suffix.as_str().as_bytes());
    assert(body@ =~= vstd::utf8::encode_utf8(ticket.prefix@) + bytes@ + vstd::utf8::encode_utf8(
        ticket.suffix@,
    ));
    let headers = http::with_pair(
        http::no_pairs(),
        "content-type",
        ticket.content_type.as_str(),
    );
    assert(headers.deep_view() =~= seq![("content-type"@, ticket.content_type@)]);
    Request {
        method: Method::Post,
        url: ticket.url.clone(),
        headers,
        bearer: None,
        body: Body::Bytes(body),
    }
}

impl Upload {
    /// Goes on with a ticket, or gives up for the lack of one.
    pub fn with_ticket(self, ticket: Result<UploadTicket, TicketError>) -> (r: UploadStep)
        ensures
            r.deep_view() == ticketed(self.deep_view(), shown_ticket(ticket)),
    {
        match ticket {
            Err(e) => UploadStep::Failed(UploadError::Ticket(e)),
            Ok(ticket) => {
                let request = storage_request(&ticket, self.bytes.as_slice());
                UploadStep::Send {
                    next: Upload {
                        library: self.library,
                        key: self.key,
                        bytes: self.bytes,
                        stage: UploadStage::Storing { upload_key: ticket.upload_key },
                    },
                    request,
                    throttled: false,
                }
            },
        }
    }

    /// Takes the reply that the upload waits for.
    pub fn answer(self, zotero: &Zotero, status: u16, body: &[u8]) -> (r: UploadStep)
        ensures
            r.deep_view() == step_after(self.deep_view(), zotero.api_key@, status, body@),
    {
        let refused = http::is_error_status(status);
        match &self.stage {
            UploadStage::Authorizing => {
                if refused {
                    return UploadStep::Failed(UploadError::AuthorizationRefused);
                }
                if status == http::NO_CONTENT {
                    return UploadStep::Done;
                }
                self.with_ticket(read_ticket(body))
            },
            UploadStage::Storing { upload_key } => {
                if refused {
                    return UploadStep::Failed(UploadError::StorageRefused);
                }
                let fields = http::with_pair(http::no_pairs(), "upload", upload_key.as_str());
                assert(fields.deep_view() =~= seq![("upload"@, upload_key@)]);
                let path: String = "items/".to_owned().concat(self.key.as_str()).concat("/file");
                let request = zotero.post(self.library.as_str(), path.as_str(), fields);
                UploadStep::Send {
                    next: Upload {
                        library: self.library,
                        key: self.key,
                        bytes: self.bytes,
                        stage: UploadStage::Registering,
                    },
                    request,
                    throttled: true,
                }
            },
            UploadStage::Registering => if refused {
                UploadStep::Failed(UploadError::RegistrationRefused)
            } else {
                UploadStep::Done
            },
        }
    }
}

impl Zotero {
    /// Begins the upload of a file for an attachment: the request describes the file by its
    /// checksum, its name, its size and the time of its last change (in milliseconds), and holds to
    /// Zotero's rate limits.
    pub fn upload_attachment_pdf(
        &self,
        library: &str,
        key: &str,
        filename: &str,
        bytes: Vec<u8>,
        mtime: u128,
    ) -> (r: (Upload, Request))
        ensures
            r.0.deep_view() == (UploadView {
                library: library@,
                key: key@,
                bytes: bytes@,
                stage: UploadStageView::Authorizing,
            }),
            r.1.deep_view() == authorization_request(
                self.api_key@,
                library@,
                key@,
                filename@,
                bytes@,
                mtime as nat,
            ),
    {
        let path: String = "items/".to_owned().concat(key).concat("/file");
        let mut fields = http::no_pairs();
        fields = http::with_pair(fields, "md5", encoding::md5_text(bytes.as_slice()).as_str());
        fields = http::with_pair(fields, "filename", filename);
        fields = http::with_pair(
            fields,
            "filesize",
            number::decimal(bytes.len() as u128).as_str(),
        );
        fields = http::with_pair(fields, "mtime", number::decimal(mtime).as_str());
        assert(fields.deep_view() =~= file_fields(bytes@, filename@, mtime as nat));
        let request = self.post(library, path.as_str(), fields);
        (
            Upload {
                library: library.to_owned(),
                key: key.to_owned(),
                bytes,
                stage: UploadStage::Authorizing,
            },
            request,
        )
    }
}

/// An upload comes to its end with the reply to its third request at the latest: each stage is
/// followed by the next one, by success or by failure.
pub proof fn uploads_come_to_an_end(upload: UploadView, api_key: Seq<char>, status: u16, body: Seq<u8>)
    ensures
        step_after(upload, api_key, status, body) matches UploadStepView::Send { next, .. } ==> {
            &&& next.bytes == upload.bytes
            &&& next.key == upload.key
            &&& next.library == upload.library
            &&& match upload.stage {
                UploadStageView::Authorizing => next.stage is Storing,
                UploadStageView::Storing { .. } => next.stage is Registering,
                UploadStageView::Registering => false,
            }
        },
{
}

/// A refused request ends an upload in failure, at every stage.
pub proof fn a_refusal_ends_an_upload(upload: UploadView, api_key: Seq<char>, status: u16, body: Seq<u8>)
    requires
        http::is_error(status),
    ensures
        step_after(upload, api_key, status, body) is Failed,
{
}

/// An upload that is authorized with a ticket and refused at no stage sends the file where the ticket
/// says, then registers it under the ticket's key, and is done.
pub proof fn granted_uploads_go_through(
    upload: UploadView,
    api_key: Seq<char>,
    statuses: (u16, u16, u16),
    bodies: (Seq<u8>, Seq<u8>, Seq<u8>),
)
    requires
        upload.stage is Authorizing,
        !http::is_error(statuses.0) && !http::is_error(statuses.1) && !http::is_error(statuses.2),
        statuses.0 != http::NO_CONTENT,
        ticket_of_reply(bodies.0) is Ok,
    ensures
        ({
            let ticket = ticket_of_reply(bodies.0)->Ok_0;
            let first = step_after(upload, api_key, statuses.0, bodies.0);
            let second = step_after(first->Send_next, api_key, statuses.1, bodies.1);
            let third = step_after(second->Send_next, api_key, statuses.2, bodies.2);
            &&& first is Send
            &&& first->Send_request == storage_request_of(ticket, upload.bytes)
            &&& !first->Send_throttled
            &&& second is Send
            &&& second->Send_request == zotero::form_request(
                api_key,
                upload.library,
                zotero::file_path(upload.key),
                seq![("upload"@, ticket.upload_key)],
            )
            &&& second->Send_throttled
            &&& third is Done
        }),
{
}

} // verus!
