//! The reMarkable cloud: its records, its requests and how its replies are read.
use vstd::prelude::*;

use crate::config::RemarkableEndpoints;
use crate::encoding;
use crate::http;
use crate::http::{Body, BodyView, Method, Request, RequestView};
use crate::json;
use crate::keymap::Duplicate;
use crate::number;
use crate::text;

verus! {

/// A document or a folder in the cloud.
#[derive(Debug, Clone, PartialEq, Eq)]
pub struct FileEntry {
    pub id: String,
    pub hash: String,
    pub file_name: String,
    pub entry_type: String,
    pub parent: String,
}

/// What a [`FileEntry`] holds.
pub struct FileEntryView {
    pub id: Seq<char>,
    pub hash: Seq<char>,
    pub file_name: Seq<char>,
    pub entry_type: Seq<char>,
    pub parent: Seq<char>,
}

impl DeepView for FileEntry {
    type V = FileEntryView;

    open spec fn deep_view(&self) -> FileEntryView {
        FileEntryView {
            id: self.id@,
            hash: self.hash@,
            file_name: self.file_name@,
            entry_type: self.entry_type@,
            parent: self.parent@,
        }
    }
}

impl Duplicate for FileEntry {
    fn duplicate(&self) -> (r: Self) {
        FileEntry {
            id: self.id.clone(),
            hash: self.hash.clone(),
            file_name: self.file_name.clone(),
            entry_type: self.entry_type.clone(),
            parent: self.parent.clone(),
        }
    }
}

/// The two shapes that a listing comes in.
#[derive(Debug, PartialEq, Eq)]
pub enum FilesResponse {
    Array(Vec<FileEntry>),
    Wrapped { files: Vec<FileEntry> },
}

/// Where the content of a document can be fetched.
#[derive(Debug, PartialEq, Eq)]
pub struct DownloadRef {
    pub id: String,
    pub blob_url: String,
}

/// What a [`DownloadRef`] holds.
pub struct DownloadRefView {
    pub id: Seq<char>,
    pub blob_url: Seq<char>,
}

impl DeepView for DownloadRef {
    type V = DownloadRefView;

    open spec fn deep_view(&self) -> DownloadRefView {
        DownloadRefView { id: self.id@, blob_url: self.blob_url@ }
    }
}

/// Why a document cannot be fetched.
#[derive(Debug, PartialEq, Eq, Clone, Copy)]
pub enum DownloadError {
    /// The reply does not speak of the document.
    NoInfo,
    /// The reply speaks of the document but does not say where its content is.
    NoBlobUrl,
}

/// A session with the cloud.
#[derive(Debug, PartialEq, Eq)]
pub struct Remarkable {
    pub session_token: String,
    pub upload_host: String,
    pub storage_host: String,
}

/// What the headers name as the sender of a request.
pub const SOURCE: &'static str = "RoR-Browser";

/// What a device is registered as.
pub const DEVICE_KIND: &'static str = "browser-chrome";

/// Whether a text is that of a random UUID: lower-case hexadecimal digits in groups of 8, 4, 4, 4 and
/// 12, of which the third begins with the version and the fourth with the variant.
pub open spec fn is_random_uuid(id: Seq<char>) -> bool {
    &&& id.len() == 36
    &&& id[8] == '-' && id[13] == '-' && id[18] == '-' && id[23] == '-'
    &&& id[14] == '4'
    &&& id[19] == '8' || id[19] == '9' || id[19] == 'a' || id[19] == 'b'
    &&& forall|i: int|
        0 <= i < 36 && i != 8 && i != 13 && i != 18 && i != 23 ==> encoding::is_lower_hex(
            #[trigger] id[i],
        )
}

/// The request that registers a device under a one-time code.
pub open spec fn pair_request(
    auth_host: Seq<char>,
    code: Seq<char>,
    device_id: Seq<char>,
) -> RequestView {
    RequestView {
        method: Method::Post,
        url: auth_host + "/token/json/2/device/new"@,
        headers: Seq::empty(),
        bearer: Some(Seq::empty()),
        body: BodyView::Json(
            json::object_text_of(
                seq![
                    ("code"@, json::quoted(code)),
                    ("deviceDesc"@, json::quoted(DEVICE_KIND@)),
                    ("deviceID"@, json::quoted(device_id)),
                ],
            ),
        ),
    }
}

/// The request that exchanges a device token for a session token.
pub open spec fn connect_request(auth_host: Seq<char>, device_token: Seq<char>) -> RequestView {
    RequestView {
        method: Method::Post,
        url: auth_host + "/token/json/2/user/new"@,
        headers: Seq::empty(),
        bearer: Some(text::trimmed(device_token)),
        body: BodyView::Bytes(Seq::empty()),
    }
}

/// The description of a new document or folder: its name, and its folder unless that is the top.
pub open spec fn meta_text(name: Seq<char>, parent: Option<Seq<char>>) -> Seq<char> {
    json::object_text_of(
        if parent is Some && (parent->0).len() > 0 {
            seq![("file_name"@, json::quoted(name)), ("parent"@, json::quoted(parent->0))]
        } else {
            seq![("file_name"@, json::quoted(name))]
        },
    )
}

/// The bytes of the description.
pub open spec fn meta_bytes(name: Seq<char>, parent: Option<Seq<char>>) -> Seq<u8> {
    vstd::utf8::encode_utf8(meta_text(name, parent))
}

/// Whether the description can be encoded for a header.
pub open spec fn meta_fits(name: Seq<char>, parent: Option<Seq<char>>) -> bool {
    encoding::base64_fits(meta_bytes(name, parent).len())
}

/// The address of the files.
pub open spec fn files_url(upload_host: Seq<char>) -> Seq<char> {
    upload_host + "/doc/v2/files"@
}

/// The request that stores a PDF under a name in a folder.
pub open spec fn upload_request(
    session: Remarkable,
    name: Seq<char>,
    bytes: Seq<u8>,
    parent: Option<Seq<char>>,
) -> RequestView {
    RequestView {
        method: Method::Post,
        url: files_url(session.upload_host@),
        headers: seq![
            ("content-type"@, "application/pdf"@),
            ("rm-meta"@, encoding::base64_of(meta_bytes(name, parent))),
            ("rm-source"@, SOURCE@),
        ],
        bearer: Some(session.session_token@),
        body: BodyView::Bytes(bytes),
    }
}

/// The request that makes a folder in a folder.
pub open spec fn folder_request(
    session: Remarkable,
    name: Seq<char>,
    parent: Option<Seq<char>>,
) -> RequestView {
    RequestView {
        method: Method::Post,
        url: files_url(session.upload_host@),
        headers: seq![
            ("content-type"@, "folder"@),
            ("content-length"@, "0"@),
            ("rm-meta"@, encoding::base64_of(meta_bytes(name, parent))),
            ("rm-source"@, SOURCE@),
        ],
        bearer: Some(session.session_token@),
        body: BodyView::Bytes(Seq::empty()),
    }
}

/// The request for a listing of all files.
pub open spec fn list_request(session: Remarkable) -> RequestView {
    RequestView {
        method: Method::Get,
        url: files_url(session.upload_host@),
        headers: seq![("rm-source"@, SOURCE@)],
        bearer: Some(session.session_token@),
        body: BodyView::Nothing,
    }
}

/// The request for the place of a document's content.
pub open spec fn download_request(session: Remarkable, doc_id: Seq<char>) -> RequestView {
    RequestView {
        method: Method::Post,
        url: session.storage_host@ + "/document-storage/json/2/docs/download?withBlob=true"@,
        headers: seq![("content-type"@, "application/json"@)],
        bearer: Some(session.session_token@),
        body: BodyView::Json(
            seq!['['] + json::object_text_of(
                seq![("ID"@, json::quoted(doc_id)), ("Version"@, number::decimal_text(1))],
            ) + seq![']'],
        ),
    }
}

/// The first reference to a document.
pub open spec fn ref_to(refs: Seq<DownloadRefView>, doc_id: Seq<char>) -> Option<DownloadRefView>
    decreases refs.len(),
{
    if refs.len() == 0 {
        None
    } else if refs[0].id == doc_id {
        Some(refs[0])
    } else {
        ref_to(refs.drop_first(), doc_id)
    }
}

/// Where the content of a document is.
pub open spec fn blob_url_in(refs: Seq<DownloadRefView>, doc_id: Seq<char>) -> Result<
    Seq<char>,
    DownloadError,
> {
    match ref_to(refs, doc_id) {
        None => Err(DownloadError::NoInfo),
        Some(found) => if text::trimmed(found.blob_url).len() == 0 {
            Err(DownloadError::NoBlobUrl)
        } else {
            Ok(text::trimmed(found.blob_url))
        },
    }
}

/// The request for the content of a document.
pub open spec fn blob_request_of(url: Seq<char>) -> RequestView {
    RequestView {
        method: Method::Get,
        url,
        headers: Seq::empty(),
        bearer: None,
        body: BodyView::Nothing,
    }
}

proof fn lemma_first_parts(a: Seq<char>, b: Seq<char>)
    requires
        a.len() > 0,
        b.len() > 0,
        a[0] < b[0],
    ensures
        json::comes_before(a, b),
{
    assert(a.take(0) =~= b.take(0));
    assert(json::parts_at(a, b, 0));
}

/// The order of the keys of the objects that are sent.
proof fn lemma_key_order()
    ensures
        json::comes_before("code"@, "deviceDesc"@),
        json::comes_before("code"@, "deviceID"@),
        json::comes_before("deviceDesc"@, "deviceID"@),
        json::comes_before("file_name"@, "parent"@),
        json::comes_before("ID"@, "Version"@),
{
    assert(json::comes_before("code"@, "deviceDesc"@)) by {
        reveal_strlit("code");
        reveal_strlit("deviceDesc");
        lemma_first_parts("code"@, "deviceDesc"@);
    }
    assert(json::comes_before("code"@, "deviceID"@)) by {
        reveal_strlit("code");
        reveal_strlit("deviceID");
        lemma_first_parts("code"@, "deviceID"@);
    }
    assert(json::comes_before("deviceDesc"@, "deviceID"@)) by {
        reveal_strlit("deviceDesc");
        reveal_strlit("deviceID");
        assert("deviceDesc"@.take(6) =~= "deviceID"@.take(6));
        assert(json::parts_at("deviceDesc"@, "deviceID"@, 6));
    }
    assert(json::comes_before("file_name"@, "parent"@)) by {
        reveal_strlit("file_name");
        reveal_strlit("parent");
        lemma_first_parts("file_name"@, "parent"@);
    }
    assert(json::comes_before("ID"@, "Version"@)) by {
        reveal_strlit("ID");
        reveal_strlit("Version");
        lemma_first_parts("ID"@, "Version"@);
    }
}

/// `uuid::Uuid::new_v4` and its `to_string`: a random UUID as hyphenated text. Which one it is
/// depends on chance alone and is left unsaid. It panics where the system has no randomness to give.
#[verifier::external_body]
fn new_device_id() -> (r: String)
    ensures
        is_random_uuid(r@),
{
    uuid::Uuid::new_v4().to_string()
}

/// The request that registers this machine with the cloud, under a new random identity.
pub fn pair(endpoints: &RemarkableEndpoints, code: &str) -> (r: Request)
    ensures
        exists|device_id: Seq<char>|
            is_random_uuid(device_id) && r.deep_view() == #[trigger] pair_request(
                endpoints.auth_host@,
                code@,
                device_id,
            ),
{
    let device_id = new_device_id();
    pair_as(endpoints, code, device_id.as_str())
}

/// The request that registers this machine with the cloud under a given identity.
pub fn pair_as(endpoints: &RemarkableEndpoints, code: &str, device_id: &str) -> (r: Request)
    ensures
        r.deep_view() == pair_request(endpoints.auth_host@, code@, device_id@),
{
    proof {
        lemma_key_order();
    }
    let mut object = json::new_object();
    json::add_text(&mut object, "code", code);
    json::add_text(&mut object, "deviceDesc", DEVICE_KIND);
    json::add_text(&mut object, "deviceID", device_id);
    assert(json::json_fields(object) =~= seq![
        ("code"@, json::quoted(code@)),
        ("deviceDesc"@, json::quoted(DEVICE_KIND@)),
        ("deviceID"@, json::quoted(device_id@)),
    ]);
    let bearer: String = String::new();
    assert(bearer@ =~= Seq::<char>::empty());
    Request {
        method: Method::Post,
        url: endpoints.auth_host.clone().concat("/token/json/2/device/new"),
        headers: http::no_pairs(),
        bearer: Some(bearer),
        body: Body::Json(json::object_text(object)),
    }
}

fn encoded_meta(name: &str, parent: Option<&str>) -> (r: Option<String>)
    ensures
        match r {
            Some(meta) => meta_fits(name@, parent.deep_view()) && meta@ == encoding::base64_of(
                meta_bytes(name@, parent.deep_view()),
            ),
            None => !meta_fits(name@, parent.deep_view()),
        },
{
    proof {
        lemma_key_order();
    }
    let mut object = json::new_object();
    json::add_text(&mut object, "file_name", name);
    match parent {
        Some(parent) => {
            if !parent.is_empty() {
                json::add_text(&mut object, "parent", parent);
            }
        },
        None => {},
    }
    proof {
        let p: Option<Seq<char>> = parent.deep_view();
        let fields = if p is Some && (p->0).len() > 0 {
            seq![("file_name"@, json::quoted(name@)), ("parent"@, json::quoted(p->0))]
        } else {
            seq![("file_name"@, json::quoted(name@))]
        };
        assert(json::json_fields(object) =~= fields);
    }
    let meta: String = json::object_text(object);
    let bytes = meta.as_str().as_bytes();
    if encoding::can_encode(bytes.len()) {
        Some(encoding::base64_text(bytes))
    } else {
        None
    }
}

/// The address that a reply gives for the content of a document.
pub fn blob_url(refs: &Vec<DownloadRef>, doc_id: &str) -> (r: Result<String, DownloadError>)
    ensures
        match r {
            Ok(url) => blob_url_in(refs.deep_view(), doc_id@) == Ok::<_, DownloadError>(url@),
            Err(e) => blob_url_in(refs.deep_view(), doc_id@) == Err::<Seq<char>, _>(e),
        },
{
    let ghost all = refs.deep_view();
    let mut i: usize = 0;
    assert(all.skip(0) =~= all);
    while i < refs.len()
        invariant
            i <= refs@.len(),
            all == refs.deep_view(),
            ref_to(all, doc_id@) == ref_to(all.skip(i as int), doc_id@),
        decreases refs@.len() - i,
    {
        assert(all.skip(i as int)[0] == refs@[i as int].deep_view());
        assert(all.skip(i as int).drop_first() =~= all.skip(i + 1));
        if text::same_text(refs[i].id.as_str(), doc_id) {
            let url: String = text::trim(refs[i].blob_url.as_str());
            if url.as_str().is_empty() {
                return Err(DownloadError::NoBlobUrl);
            }
            return Ok(url);
        }
        i += 1;
    }
    Err(DownloadError::NoInfo)
}

impl FilesResponse {
    /// The entries of a listing, whatever its shape.
    pub open spec fn entries(self) -> Seq<FileEntryView> {
        match self {
            FilesResponse::Array(files) => files.deep_view(),
            FilesResponse::Wrapped { files } => files.deep_view(),
        }
    }

    /// The entries of a listing, whatever its shape.
    pub fn into_files(self) -> (r: Vec<FileEntry>)
        ensures
            r.deep_view() == self.entries(),
    {
        match self {
            FilesResponse::Array(files) => files,
            FilesResponse::Wrapped { files } => files,
        }
    }
}

impl Remarkable {
    /// The request that exchanges the stored device token for a fresh session token.
    pub fn connect(endpoints: &RemarkableEndpoints, device_token: &str) -> (r: Request)
        ensures
            r.deep_view() == connect_request(endpoints.auth_host@, device_token@),
    {
        // The auth frontend rejects bodiless POSTs with 411 Length Required; an empty body forces a
        // Content-Length: 0 header.
        let body: Vec<u8> = Vec::new();
        assert(body@ =~= Seq::<u8>::empty());
        Request {
            method: Method::Post,
            url: endpoints.auth_host.clone().concat("/token/json/2/user/new"),
            headers: http::no_pairs(),
            bearer: Some(text::trim(device_token)),
            body: Body::Bytes(body),
        }
    }

    /// The session that a session token opens.
    pub fn connected(session_token: String, upload_host: String, storage_host: String) -> (r: Self)
        ensures
            r.session_token@ == session_token@,
            r.upload_host@ == upload_host@,
            r.storage_host@ == storage_host@,
    {
        Remarkable { session_token, upload_host, storage_host }
    }

    /// The session that a session token opens with the hosts of the cloud. The host that takes uploads
    /// also hands documents out.
    pub fn open(endpoints: &RemarkableEndpoints, session_token: String) -> (r: Self)
        ensures
            r.session_token@ == session_token@,
            r.upload_host@ == endpoints.upload_host@,
            r.storage_host@ == endpoints.upload_host@,
    {
        Self::connected(
            session_token,
            endpoints.upload_host.clone(),
            endpoints.upload_host.clone(),
        )
    }

    fn files_address(&self) -> (r: String)
        ensures
            r@ == files_url(self.upload_host@),
    {
        self.upload_host.clone().concat("/doc/v2/files")
    }

    /// The request that uploads a PDF, optionally into a folder. There is none where the
    /// description is too long to be encoded.
    pub fn upload_pdf(&self, visible_name: &str, bytes: Vec<u8>, parent: Option<&str>) -> (r: Option<
        Request,
    >)
        ensures
            r.deep_view() == (if meta_fits(visible_name@, parent.deep_view()) {
                Some(upload_request(*self, visible_name@, bytes@, parent.deep_view()))
            } else {
                None
            }),
    {
        let meta: String = match encoded_meta(visible_name, parent) {
            Some(meta) => meta,
            None => {
                return None;
            },
        };
        let mut headers = http::no_pairs();
        headers = http::with_pair(headers, "content-type", "application/pdf");
        headers = http::with_pair(headers, "rm-meta", meta.as_str());
        headers = http::with_pair(headers, "rm-source", SOURCE);
        assert(headers.deep_view() =~= upload_request(
            *self,
            visible_name@,
            bytes@,
            parent.deep_view(),
        ).headers);
        Some(
            Request {
                method: Method::Post,
                url: self.files_address(),
                headers,
                bearer: Some(self.session_token.clone()),
                body: Body::Bytes(bytes),
            },
        )
    }

    /// The request that makes a folder, optionally in a folder. There is none where the description
    /// is too long to be encoded.
    pub fn create_folder(&self, folder_name: &str, parent: Option<&str>) -> (r: Option<Request>)
        ensures
            r.deep_view() == (if meta_fits(folder_name@, parent.deep_view()) {
                Some(folder_request(*self, folder_name@, parent.deep_view()))
            } else {
                None
            }),
    {
        let meta: String = match encoded_meta(folder_name, parent) {
            Some(meta) => meta,
            None => {
                return None;
            },
        };
        let mut headers = http::no_pairs();
        headers = http::with_pair(headers, "content-type", "folder");
        headers = http::with_pair(headers, "content-length", "0");
        headers = http::with_pair(headers, "rm-meta", meta.as_str());
        headers = http::with_pair(headers, "rm-source", SOURCE);
        assert(headers.deep_view() =~= folder_request(
            *self,
            folder_name@,
            parent.deep_view(),
        ).headers);
        let body: Vec<u8> = Vec::new();
        assert(body@ =~= Seq::<u8>::empty());
        Some(
            Request {
                method: Method::Post,
                url: self.files_address(),
                headers,
                bearer: Some(self.session_token.clone()),
                body: Body::Bytes(body),
            },
        )
    }

    /// The request for a listing of all files.
    pub fn list_files(&self) -> (r: Request)
        ensures
            r.deep_view() == list_request(*self),
    {
        let headers = http::with_pair(http::no_pairs(), "rm-source", SOURCE);
        assert(headers.deep_view() =~= seq![("rm-source"@, SOURCE@)]);
        Request {
            method: Method::Get,
            url: self.files_address(),
            headers,
            bearer: Some(self.session_token.clone()),
            body: Body::Nothing,
        }
    }

    /// The request for the place of a document's content.
    pub fn download_zip(&self, doc_id: &str) -> (r: Request)
        ensures
            r.deep_view() == download_request(*self, doc_id@),
    {
        proof {
            lemma_key_order();
        }
        let mut object = json::new_object();
        json::add_text(&mut object, "ID", doc_id);
        json::add_number(&mut object, "Version", 1);
        assert(json::json_fields(object) =~= seq![
            ("ID"@, json::quoted(doc_id@)),
            ("Version"@, number::decimal_text(1)),
        ]);
        let headers = http::with_pair(http::no_pairs(), "content-type", "application/json");
        assert(headers.deep_view() =~= seq![("content-type"@, "application/json"@)]);
        Request {
            method: Method::Post,
            url: self.storage_host.clone().concat(
                "/document-storage/json/2/docs/download?withBlob=true",
            ),
            headers,
            bearer: Some(self.session_token.clone()),
            body: Body::Json(json::array_text(object)),
        }
    }

    /// The request for the content of a document, once the cloud has said where it is.
    pub fn blob_request(refs: &Vec<DownloadRef>, doc_id: &str) -> (r: Result<
        Request,
        DownloadError,
    >)
        ensures
            match blob_url_in(refs.deep_view(), doc_id@) {
                Ok(url) => r is Ok && r->Ok_0.deep_view() == blob_request_of(url),
                Err(e) => r == Err::<Request, DownloadError>(e),
            },
    {
        match blob_url(refs, doc_id) {
            Ok(url) => Ok(
                Request {
                    method: Method::Get,
                    url,
                    headers: http::no_pairs(),
                    bearer: None,
                    body: Body::Nothing,
                },
            ),
            Err(e) => Err(e),
        }
    }
}

/// A document goes to the top of the tablet in the same way whether no folder is named or one
/// without an identity.
pub proof fn an_unnamed_folder_is_the_top(name: Seq<char>)
    ensures
        meta_text(name, Some(Seq::empty())) == meta_text(name, None),
{
}

/// Only the reply's own word on a document decides where its content is fetched: references to
/// other documents before it make no difference.
pub proof fn other_references_are_passed_over(
    others: Seq<DownloadRefView>,
    refs: Seq<DownloadRefView>,
    doc_id: Seq<char>,
)
    requires
        forall|i: int| 0 <= i < others.len() ==> (#[trigger] others[i]).id != doc_id,
    ensures
        blob_url_in(others + refs, doc_id) == blob_url_in(refs, doc_id),
    decreases others.len(),
{
    if others.len() == 0 {
        assert(others + refs =~= refs);
    } else {
        assert((others + refs).drop_first() =~= others.drop_first() + refs);
        assert(others[0].id != doc_id);
        assert forall|i: int| 0 <= i < others.drop_first().len() implies (
        #[trigger] others.drop_first()[i]).id != doc_id by {
            assert(others[i + 1].id != doc_id);
        }
        other_references_are_passed_over(others.drop_first(), refs, doc_id);
    }
}

} // verus!
