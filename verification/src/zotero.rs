//! The Zotero web API: its records, its requests and how its replies are read.
use vstd::prelude::*;

use crate::http;
use crate::http::{Body, BodyView, Method, Request, RequestView};
use crate::keymap::Duplicate;
use crate::number;
use crate::text;

verus! {

/// An entry of a Zotero library.
#[derive(Debug, PartialEq, Eq)]
pub struct Item {
    pub key: String,
    pub version: u64,
    pub data: ItemData,
}

/// The fields of an entry.
#[derive(Debug, PartialEq, Eq)]
pub struct ItemData {
    pub content_type: Option<String>,
    pub link_mode: Option<String>,
    pub parent_item: Option<String>,
    pub filename: Option<String>,
    pub title: Option<String>,
    pub date: Option<String>,
    pub creators: Vec<Creator>,
    pub collections: Vec<String>,
}

/// An author, editor or other contributor.
#[derive(Debug, PartialEq, Eq)]
pub struct Creator {
    pub last_name: Option<String>,
    /// Single-field creator names (e.g. institutions).
    pub name: Option<String>,
}

/// The fields of a collection.
#[derive(Debug, Clone, PartialEq, Eq)]
pub struct CollectionData {
    pub name: String,
    pub parent_collection: Option<String>,
}

/// A folder of a Zotero library.
#[derive(Debug, Clone, PartialEq, Eq)]
pub struct Collection {
    pub key: String,
    pub data: CollectionData,
}

/// What an [`Item`] holds.
pub struct ItemView {
    pub key: Seq<char>,
    pub version: u64,
    pub data: ItemDataView,
}

/// What an [`ItemData`] holds.
pub struct ItemDataView {
    pub content_type: Option<Seq<char>>,
    pub link_mode: Option<Seq<char>>,
    pub parent_item: Option<Seq<char>>,
    pub filename: Option<Seq<char>>,
    pub title: Option<Seq<char>>,
    pub date: Option<Seq<char>>,
    pub creators: Seq<CreatorView>,
    pub collections: Seq<Seq<char>>,
}

/// What a [`Creator`] holds.
pub struct CreatorView {
    pub last_name: Option<Seq<char>>,
    pub name: Option<Seq<char>>,
}

/// What a [`CollectionData`] holds.
pub struct CollectionDataView {
    pub name: Seq<char>,
    pub parent_collection: Option<Seq<char>>,
}

/// What a [`Collection`] holds.
pub struct CollectionView {
    pub key: Seq<char>,
    pub data: CollectionDataView,
}

impl DeepView for Creator {
    type V = CreatorView;

    open spec fn deep_view(&self) -> CreatorView {
        CreatorView { last_name: self.last_name.deep_view(), name: self.name.deep_view() }
    }
}

impl DeepView for ItemData {
    type V = ItemDataView;

    open spec fn deep_view(&self) -> ItemDataView {
        ItemDataView {
            content_type: self.content_type.deep_view(),
            link_mode: self.link_mode.deep_view(),
            parent_item: self.parent_item.deep_view(),
            filename: self.filename.deep_view(),
            title: self.title.deep_view(),
            date: self.date.deep_view(),
            creators: self.creators.deep_view(),
            collections: self.collections.deep_view(),
        }
    }
}

impl DeepView for Item {
    type V = ItemView;

    open spec fn deep_view(&self) -> ItemView {
        ItemView { key: self.key@, version: self.version, data: self.data.deep_view() }
    }
}

impl DeepView for CollectionData {
    type V = CollectionDataView;

    open spec fn deep_view(&self) -> CollectionDataView {
        CollectionDataView {
            name: self.name@,
            parent_collection: self.parent_collection.deep_view(),
        }
    }
}

impl DeepView for Collection {
    type V = CollectionView;

    open spec fn deep_view(&self) -> CollectionView {
        CollectionView { key: self.key@, data: self.data.deep_view() }
    }
}

impl Duplicate for Collection {
    fn duplicate(&self) -> (r: Self) {
        Collection {
            key: self.key.clone(),
            data: CollectionData {
                name: self.data.name.clone(),
                parent_collection: self.data.parent_collection.clone(),
            },
        }
    }
}

/// The address of the API.
pub const API: &'static str = "https://api.zotero.org";

/// How many entries a page of a listing holds at most.
pub const PAGE_SIZE: usize = 100;

/// How many times to retry a request that returned 429/503 before giving up.
pub const MAX_RETRIES: u32 = 5;

/// The user's access to the API.
#[derive(Debug, PartialEq, Eq)]
pub struct Zotero {
    pub api_key: String,
}

/// The address of something in a library.
pub open spec fn api_url(library: Seq<char>, path: Seq<char>) -> Seq<char> {
    API@ + "/"@ + library + "/"@ + path
}

/// The headers of every request to the API.
pub open spec fn api_headers(api_key: Seq<char>) -> Seq<(Seq<char>, Seq<char>)> {
    seq![("Zotero-API-Key"@, api_key), ("Zotero-API-Version"@, "3"@)]
}

/// A request for something in a library.
pub open spec fn get_request(
    api_key: Seq<char>,
    library: Seq<char>,
    path: Seq<char>,
) -> RequestView {
    RequestView {
        method: Method::Get,
        url: api_url(library, path),
        headers: api_headers(api_key),
        bearer: None,
        body: BodyView::Nothing,
    }
}

/// A request that hands a form to something in a library. The header `If-None-Match: *` asks that it be
/// taken only where nothing is there yet.
pub open spec fn form_request(
    api_key: Seq<char>,
    library: Seq<char>,
    path: Seq<char>,
    fields: Seq<(Seq<char>, Seq<char>)>,
) -> RequestView {
    RequestView {
        method: Method::Post,
        url: api_url(library, path),
        headers: api_headers(api_key).push(("If-None-Match"@, "*"@)),
        bearer: None,
        body: BodyView::Form(fields),
    }
}

/// The path of a page of attachments.
pub open spec fn attachments_path(since: nat, start: nat) -> Seq<char> {
    "items?itemType=attachment&since="@ + number::decimal_text(since) + "&limit="@
        + number::decimal_text(PAGE_SIZE as nat) + "&start="@ + number::decimal_text(start)
}

/// The path of a page of collections.
pub open spec fn collections_path(start: nat) -> Seq<char> {
    "collections?limit="@ + number::decimal_text(PAGE_SIZE as nat) + "&start="@
        + number::decimal_text(start)
}

/// The path of an item.
pub open spec fn item_path(key: Seq<char>) -> Seq<char> {
    "items/"@ + key
}

/// The path of an attachment's file.
pub open spec fn file_path(key: Seq<char>) -> Seq<char> {
    "items/"@ + key + "/file"@
}

/// Whether an item is a PDF file that Zotero itself stores.
pub open spec fn is_stored_pdf(item: ItemView) -> bool {
    &&& item.data.content_type == Some("application/pdf"@)
    &&& item.data.link_mode == Some("imported_file"@) || item.data.link_mode == Some(
        "imported_url"@,
    )
}

/// The items that are PDF files stored in Zotero, in order.
pub open spec fn stored_pdfs(items: Seq<ItemView>) -> Seq<ItemView> {
    items.filter(|item: ItemView| is_stored_pdf(item))
}

/// What the status of a reply to a request for a file means.
pub open spec fn meaning_of(status: u16) -> DownloadReply {
    if status == http::NOT_FOUND {
        DownloadReply::NotStored
    } else if http::is_error(status) {
        DownloadReply::Failed
    } else {
        DownloadReply::Stored
    }
}

/// The request for the next page of a listing of attachments.
pub open spec fn attachments_request(
    api_key: Seq<char>,
    listing: AttachmentListingView,
) -> RequestView {
    get_request(
        api_key,
        listing.library,
        attachments_path(listing.since as nat, listing.items.len()),
    )
}

/// The request for the next page of a listing of collections.
pub open spec fn collections_request(
    api_key: Seq<char>,
    listing: CollectionListingView,
) -> RequestView {
    get_request(api_key, listing.library, collections_path(listing.collections.len()))
}

fn api_address(library: &str, path: &str) -> (r: String)
    ensures
        r@ == api_url(library@, path@),
{
    API.to_owned().concat("/").concat(library).concat("/").concat(path)
}

impl Zotero {
    /// The access that a key gives.
    pub fn new(api_key: &str) -> (r: Self)
        ensures
            r.api_key@ == api_key@,
    {
        Zotero { api_key: api_key.to_owned() }
    }

    fn headers(&self) -> (r: Vec<(String, String)>)
        ensures
            r.deep_view() == api_headers(self.api_key@),
    {
        let none = http::no_pairs();
        let one = http::with_pair(none, "Zotero-API-Key", self.api_key.as_str());
        let two = http::with_pair(one, "Zotero-API-Version", "3");
        assert(two.deep_view() =~= api_headers(self.api_key@));
        two
    }

    /// A request for something in a library. `library` is an API path prefix: "users/<id>" or
    /// "groups/<id>".
    pub fn get(&self, library: &str, path_and_query: &str) -> (r: Request)
        ensures
            r.deep_view() == get_request(self.api_key@, library@, path_and_query@),
    {
        Request {
            method: Method::Get,
            url: api_address(library, path_and_query),
            headers: self.headers(),
            bearer: None,
            body: Body::Nothing,
        }
    }

    /// A request that hands a form to something in a library. It carries the form's fields and, beside
    /// the headers of every request, `If-None-Match: *`, which asks that the form be taken only where
    /// nothing is there yet.
    pub fn post(&self, library: &str, path: &str, fields: Vec<(String, String)>) -> (r: Request)
        ensures
            r.deep_view() == form_request(self.api_key@, library@, path@, fields.deep_view()),
    {
        let headers = http::with_pair(self.headers(), "If-None-Match", "*");
        Request {
            method: Method::Post,
            url: api_address(library, path),
            headers,
            bearer: None,
            body: Body::Form(fields),
        }
    }

    /// The request for an item.
    pub fn item(&self, library: &str, key: &str) -> (r: Request)
        ensures
            r.deep_view() == get_request(self.api_key@, library@, item_path(key@)),
    {
        let path: String = "items/".to_owned().concat(key);
        self.get(library, path.as_str())
    }

    /// The request for an attachment's file content.
    pub fn download(&self, library: &str, key: &str) -> (r: Request)
        ensures
            r.deep_view() == get_request(self.api_key@, library@, file_path(key@)),
    {
        let path: String = "items/".to_owned().concat(key).concat("/file");
        self.get(library, path.as_str())
    }
}

/// What a reply to a request for a file means.
#[derive(Debug, PartialEq, Eq, Clone, Copy)]
pub enum DownloadReply {
    /// The item exists but its file was never uploaded to Zotero.
    NotStored,
    /// The request failed.
    Failed,
    /// The body of the reply is the file.
    Stored,
}

/// What the status of a reply to a request for a file means.
pub fn download_reply(status: u16) -> (r: DownloadReply)
    ensures
        r == meaning_of(status),
{
    if status == http::NOT_FOUND {
        DownloadReply::NotStored
    } else if http::is_error_status(status) {
        DownloadReply::Failed
    } else {
        DownloadReply::Stored
    }
}

/// A listing of attachments of which some pages have come.
#[derive(Debug, PartialEq, Eq)]
pub struct AttachmentListing {
    pub library: String,
    pub since: u64,
    pub items: Vec<Item>,
    pub library_version: u64,
}

/// A listing of attachments after a page has come.
#[derive(Debug, PartialEq, Eq)]
pub enum AttachmentStep {
    /// Another page is to be asked for.
    More(AttachmentListing),
    /// That was the last page: the PDF files stored in Zotero, and the version of the library.
    Done(Vec<Item>, u64),
}

/// A listing of collections of which some pages have come.
#[derive(Debug, PartialEq, Eq)]
pub struct CollectionListing {
    pub library: String,
    pub collections: Vec<Collection>,
}

/// A listing of collections after a page has come.
#[derive(Debug, PartialEq, Eq)]
pub enum CollectionStep {
    /// Another page is to be asked for.
    More(CollectionListing),
    /// That was the last page.
    Done(Vec<Collection>),
}

/// What an [`AttachmentListing`] holds.
#[verifier::ext_equal]
pub struct AttachmentListingView {
    pub library: Seq<char>,
    pub since: u64,
    pub items: Seq<ItemView>,
    pub library_version: u64,
}

/// What an [`AttachmentStep`] holds.
#[verifier::ext_equal]
pub enum AttachmentStepView {
    More(AttachmentListingView),
    Done(Seq<ItemView>, u64),
}

/// What a [`CollectionListing`] holds.
#[verifier::ext_equal]
pub struct CollectionListingView {
    pub library: Seq<char>,
    pub collections: Seq<CollectionView>,
}

/// What a [`CollectionStep`] holds.
#[verifier::ext_equal]
pub enum CollectionStepView {
    More(CollectionListingView),
    Done(Seq<CollectionView>),
}

impl DeepView for AttachmentListing {
    type V = AttachmentListingView;

    open spec fn deep_view(&self) -> AttachmentListingView {
        AttachmentListingView {
            library: self.library@,
            since: self.since,
            items: self.items.deep_view(),
            library_version: self.library_version,
        }
    }
}

impl DeepView for AttachmentStep {
    type V = AttachmentStepView;

    open spec fn deep_view(&self) -> AttachmentStepView {
        match self {
            AttachmentStep::More(listing) => AttachmentStepView::More(listing.deep_view()),
            AttachmentStep::Done(items, version) => AttachmentStepView::Done(
                items.deep_view(),
                *version,
            ),
        }
    }
}

impl DeepView for CollectionListing {
    type V = CollectionListingView;

    open spec fn deep_view(&self) -> CollectionListingView {
        CollectionListingView {
            library: self.library@,
            collections: self.collections.deep_view(),
        }
    }
}

impl DeepView for CollectionStep {
    type V = CollectionStepView;

    open spec fn deep_view(&self) -> CollectionStepView {
        match self {
            CollectionStep::More(listing) => CollectionStepView::More(listing.deep_view()),
            CollectionStep::Done(collections) => CollectionStepView::Done(
                collections.deep_view(),
            ),
        }
    }
}

/// A page of attachments, and the version header of the reply that brought it.
pub type AttachmentPage = (Seq<ItemView>, Option<Seq<char>>);

/// The version that a reply's header tells, or else the one known before.
pub open spec fn version_after(header: Option<Seq<char>>, before: u64) -> u64 {
    match header {
        Some(h) => match number::number_in(h) {
            Some(version) => version,
            None => before,
        },
        None => before,
    }
}

/// Whether a page is the last one: it is not full.
pub open spec fn is_last_page(len: nat) -> bool {
    len < PAGE_SIZE
}

/// A listing of attachments after a page has come.
pub open spec fn attachments_after(
    listing: AttachmentListingView,
    page: AttachmentPage,
) -> AttachmentStepView {
    let items = listing.items + page.0;
    let version = version_after(page.1, listing.library_version);
    if is_last_page(page.0.len()) {
        AttachmentStepView::Done(stored_pdfs(items), version)
    } else {
        AttachmentStepView::More(
            AttachmentListingView { items, library_version: version, ..listing },
        )
    }
}

/// A listing of collections after a page has come.
pub open spec fn collections_after(
    listing: CollectionListingView,
    page: Seq<CollectionView>,
) -> CollectionStepView {
    let collections = listing.collections + page;
    if is_last_page(page.len()) {
        CollectionStepView::Done(collections)
    } else {
        CollectionStepView::More(CollectionListingView { collections, ..listing })
    }
}

fn has_text(value: &Option<String>, want: &str) -> (r: bool)
    ensures
        r == (value.deep_view() == Some(want@)),
{
    match value {
        Some(v) => text::same_text(v.as_str(), want),
        None => false,
    }
}

fn keep_stored_pdfs(items: Vec<Item>) -> (r: Vec<Item>)
    ensures
        r.deep_view() == stored_pdfs(items.deep_view()),
{
    let ghost all = items.deep_view();
    let ghost keep = |item: ItemView| is_stored_pdf(item);
    let mut kept: Vec<Item> = Vec::new();
    assert(all.take(0).filter(keep) =~= Seq::<ItemView>::empty()) by {
        reveal(Seq::filter);
    }
    assert(kept.deep_view() =~= Seq::<ItemView>::empty());
    assert(all =~= items@.map_values(|item: Item| item.deep_view()));
    for item in it: items
        invariant
            all == it.seq().map_values(|item: Item| item.deep_view()),
            keep == (|item: ItemView| is_stored_pdf(item)),
            kept.deep_view() == all.take(it.index()).filter(keep),
    {
        let ghost before = kept.deep_view();
        let ghost shown = item.deep_view();
        proof {
            assert(all[it.index()] == shown);
            assert(all.take(it.index() + 1).drop_last() =~= all.take(it.index()));
            reveal(Seq::filter);
        }
        if has_text(&item.data.content_type, "application/pdf") && (has_text(
            &item.data.link_mode,
            "imported_file",
        ) || has_text(&item.data.link_mode, "imported_url")) {
            kept.push(item);
            assert(kept.deep_view() =~= before.push(shown));
        }
    }
    assert(all.take(all.len() as int) =~= all);
    kept
}

impl Zotero {
    /// Starts the listing of the PDF attachments stored in the library that were added or modified
    /// after library version `since` (0 for everything). The listing ends with the items and the
    /// current library version, for use as the next `since`. Linked-file attachments are skipped
    /// because their content lives outside Zotero storage.
    pub fn pdf_attachments(&self, library: &str, since: u64) -> (r: AttachmentListing)
        ensures
            r.deep_view() == (AttachmentListingView {
                library: library@,
                since,
                items: Seq::empty(),
                library_version: since,
            }),
    {
        let items: Vec<Item> = Vec::new();
        assert(items.deep_view() =~= Seq::<ItemView>::empty());
        AttachmentListing { library: library.to_owned(), since, items, library_version: since }
    }

    /// Starts the listing of a library's collections.
    pub fn collections(&self, library: &str) -> (r: CollectionListing)
        ensures
            r.deep_view() == (CollectionListingView {
                library: library@,
                collections: Seq::empty(),
            }),
    {
        let collections: Vec<Collection> = Vec::new();
        assert(collections.deep_view() =~= Seq::<CollectionView>::empty());
        CollectionListing { library: library.to_owned(), collections }
    }
}

impl AttachmentListing {
    /// The request for the next page.
    pub fn request(&self, zotero: &Zotero) -> (r: Request)
        ensures
            r.deep_view() == attachments_request(zotero.api_key@, self.deep_view()),
    {
        let path: String = "items?itemType=attachment&since=".to_owned().concat(
            number::decimal(self.since as u128).as_str(),
        ).concat("&limit=").concat(number::decimal(PAGE_SIZE as u128).as_str()).concat(
            "&start=",
        ).concat(number::decimal(self.items.len() as u128).as_str());
        zotero.get(self.library.as_str(), path.as_str())
    }

    /// Takes a page and the reply's version header.
    pub fn page(self, batch: Vec<Item>, version_header: Option<String>) -> (r: AttachmentStep)
        ensures
            r.deep_view() == attachments_after(
                self.deep_view(),
                (batch.deep_view(), version_header.deep_view()),
            ),
    {
        let version: u64 = match &version_header {
            Some(h) => match number::parse_u64(h.as_str()) {
                Some(v) => v,
                None => self.library_version,
            },
            None => self.library_version,
        };
        let done: bool = batch.len() < PAGE_SIZE;
        let ghost before = self.items.deep_view();
        let ghost added = batch.deep_view();
        let mut items: Vec<Item> = self.items;
        let mut batch: Vec<Item> = batch;
        items.append(&mut batch);
        assert(items.deep_view() =~= before + added);
        if done {
            AttachmentStep::Done(keep_stored_pdfs(items), version)
        } else {
            AttachmentStep::More(
                AttachmentListing {
                    library: self.library,
                    since: self.since,
                    items,
                    library_version: version,
                },
            )
        }
    }
}

impl CollectionListing {
    /// The request for the next page.
    pub fn request(&self, zotero: &Zotero) -> (r: Request)
        ensures
            r.deep_view() == collections_request(zotero.api_key@, self.deep_view()),
    {
        let path: String = "collections?limit=".to_owned().concat(
            number::decimal(PAGE_SIZE as u128).as_str(),
        ).concat("&start=").concat(number::decimal(self.collections.len() as u128).as_str());
        zotero.get(self.library.as_str(), path.as_str())
    }

    /// Takes a page.
    pub fn page(self, batch: Vec<Collection>) -> (r: CollectionStep)
        ensures
            r.deep_view() == collections_after(self.deep_view(), batch.deep_view()),
    {
        let done: bool = batch.len() < PAGE_SIZE;
        let ghost before = self.collections.deep_view();
        let ghost added = batch.deep_view();
        let mut collections: Vec<Collection> = self.collections;
        let mut batch: Vec<Collection> = batch;
        collections.append(&mut batch);
        assert(collections.deep_view() =~= before + added);
        if done {
            CollectionStep::Done(collections)
        } else {
            CollectionStep::More(CollectionListing { library: self.library, collections })
        }
    }
}

/// The step at which a listing stands after the pages have come, in order. What comes after the last
/// page is not asked for.
pub open spec fn attachments_after_all(
    listing: AttachmentListingView,
    pages: Seq<AttachmentPage>,
) -> AttachmentStepView
    decreases pages.len(),
{
    if pages.len() == 0 {
        AttachmentStepView::More(listing)
    } else {
        match attachments_after(listing, pages[0]) {
            AttachmentStepView::More(next) => attachments_after_all(next, pages.drop_first()),
            done => done,
        }
    }
}

/// The items of all pages, in order.
pub open spec fn items_of_pages(pages: Seq<AttachmentPage>) -> Seq<ItemView>
    decreases pages.len(),
{
    if pages.len() == 0 {
        Seq::empty()
    } else {
        pages[0].0 + items_of_pages(pages.drop_first())
    }
}

/// The version that the headers of all pages tell: the last one that tells any.
pub open spec fn version_of_pages(pages: Seq<AttachmentPage>, before: u64) -> u64
    decreases pages.len(),
{
    if pages.len() == 0 {
        before
    } else {
        version_of_pages(pages.drop_first(), version_after(pages[0].1, before))
    }
}

/// A listing goes through page after page until one comes that is not full, and ends with all the
/// stored PDF attachments of all the pages, in order, and the version told last. No item is passed
/// over and none is taken twice.
pub proof fn listings_gather_all_pages(
    listing: AttachmentListingView,
    pages: Seq<AttachmentPage>,
)
    requires
        pages.len() > 0,
        forall|i: int| 0 <= i < pages.len() - 1 ==> !is_last_page((#[trigger] pages[i]).0.len()),
        is_last_page(pages.last().0.len()),
    ensures
        attachments_after_all(listing, pages) == AttachmentStepView::Done(
            stored_pdfs(listing.items + items_of_pages(pages)),
            version_of_pages(pages, listing.library_version),
        ),
    decreases pages.len(),
{
    let rest = pages.drop_first();
    if pages.len() == 1 {
        assert(rest =~= Seq::<AttachmentPage>::empty());
        assert(items_of_pages(rest) =~= Seq::<ItemView>::empty());
        assert(pages[0].0 + items_of_pages(rest) =~= pages[0].0);
        assert(version_of_pages(rest, version_after(pages[0].1, listing.library_version))
            == version_after(pages[0].1, listing.library_version));
        assert(pages.last() == pages[0]);
    } else {
        assert(!is_last_page(pages[0].0.len()));
        let next = attachments_after(listing, pages[0])->More_0;
        assert(rest.last() == pages.last());
        assert forall|i: int| 0 <= i < rest.len() - 1 implies !is_last_page(
            (#[trigger] rest[i]).0.len(),
        ) by {
            assert(rest[i] == pages[i + 1]);
        }
        listings_gather_all_pages(next, rest);
        assert(next.items + items_of_pages(rest) =~= listing.items + (pages[0].0 + items_of_pages(
            rest,
        )));
    }
}

/// The step at which a listing stands after the pages have come, in order. What comes after the last
/// page is not asked for.
pub open spec fn collections_after_all(
    listing: CollectionListingView,
    pages: Seq<Seq<CollectionView>>,
) -> CollectionStepView
    decreases pages.len(),
{
    if pages.len() == 0 {
        CollectionStepView::More(listing)
    } else {
        match collections_after(listing, pages[0]) {
            CollectionStepView::More(next) => collections_after_all(next, pages.drop_first()),
            done => done,
        }
    }
}

/// The collections of all pages, in order.
pub open spec fn collections_of_pages(pages: Seq<Seq<CollectionView>>) -> Seq<CollectionView>
    decreases pages.len(),
{
    if pages.len() == 0 {
        Seq::empty()
    } else {
        pages[0] + collections_of_pages(pages.drop_first())
    }
}

/// A listing of collections, too, goes through page after page until one comes that is not full, and
/// ends with all the collections of all the pages, in order.
pub proof fn collections_gather_all_pages(
    listing: CollectionListingView,
    pages: Seq<Seq<CollectionView>>,
)
    requires
        pages.len() > 0,
        forall|i: int| 0 <= i < pages.len() - 1 ==> !is_last_page((#[trigger] pages[i]).len()),
        is_last_page(pages.last().len()),
    ensures
        collections_after_all(listing, pages) == CollectionStepView::Done(
            listing.collections + collections_of_pages(pages),
        ),
    decreases pages.len(),
{
    let rest = pages.drop_first();
    if pages.len() == 1 {
        assert(rest =~= Seq::<Seq<CollectionView>>::empty());
        assert(collections_of_pages(rest) =~= Seq::<CollectionView>::empty());
        assert(pages[0] + collections_of_pages(rest) =~= pages[0]);
        assert(pages.last() == pages[0]);
    } else {
        assert(!is_last_page(pages[0].len()));
        let next = collections_after(listing, pages[0])->More_0;
        assert(rest.last() == pages.last());
        assert forall|i: int| 0 <= i < rest.len() - 1 implies !is_last_page(
            (#[trigger] rest[i]).len(),
        ) by {
            assert(rest[i] == pages[i + 1]);
        }
        collections_gather_all_pages(next, rest);
        assert(next.collections + collections_of_pages(rest) =~= listing.collections + (pages[0]
            + collections_of_pages(rest)));
    }
}

/// Only PDF files that Zotero itself stores are listed, and all of them are.
pub proof fn only_stored_pdfs_are_listed(items: Seq<ItemView>, item: ItemView)
    ensures
        stored_pdfs(items).contains(item) <==> items.contains(item) && is_stored_pdf(item),
        stored_pdfs(items).len() <= items.len(),
    decreases items.len(),
{
    reveal(Seq::filter);
    if items.len() > 0 {
        let before = items.drop_last();
        only_stored_pdfs_are_listed(before, item);
        let kept = stored_pdfs(before);
        assert(items =~= before.push(items.last()));
        if kept.contains(item) {
            let i = choose|i: int| 0 <= i < kept.len() && kept[i] == item;
            assert(stored_pdfs(items)[i] == item);
        }
        if stored_pdfs(items).contains(item) {
            let i = choose|i: int|
                0 <= i < stored_pdfs(items).len() && stored_pdfs(items)[i] == item;
            if i < kept.len() {
                assert(kept[i] == item);
                let j = choose|j: int| 0 <= j < before.len() && before[j] == item;
                assert(items[j] == item);
            } else {
                assert(items[items.len() - 1] == item);
            }
        }
        if items.contains(item) && is_stored_pdf(item) {
            let j = choose|j: int| 0 <= j < items.len() && items[j] == item;
            if j < before.len() {
                assert(before[j] == item);
            } else {
                assert(stored_pdfs(items)[kept.len() as int] == item);
            }
        }
    }
}

} // verus!
