//! What is asked of Zotero, and what its replies come to.
use vstd::prelude::*;

use crate::encoding;
use crate::http;
use crate::http::{BodyView, Method};
use crate::json;
use crate::number;
use crate::text;
use crate::text_laws;
use crate::throttle;
use crate::upload;
use crate::upload::{
    TicketError, UploadError, UploadStageView, UploadStepView, UploadTicketView, UploadView,
};
use crate::zotero;
use crate::zotero::{
    AttachmentListingView, AttachmentPage, AttachmentStepView, CollectionListingView,
    CollectionStepView, CollectionView, ItemView,
};

verus! {

/// Whether the fields of an item say that it is a PDF file in Zotero's own storage.
pub open spec fn says_stored_pdf(item: ItemView) -> bool {
    &&& item.data.content_type is Some
    &&& item.data.content_type->0 == "application/pdf"@
    &&& item.data.link_mode is Some
    &&& item.data.link_mode->0 == "imported_file"@ || item.data.link_mode->0 == "imported_url"@
}

/// What is kept of a listing is decided item by item, by two fields alone: an item whose content type is
/// that of PDF and whose link mode is one of the two for stored files is kept as it is, whatever its
/// other fields are, and every other item is dropped. What is kept of two lists is what is kept of the
/// one and then what is kept of the other.
pub proof fn stored_pdfs_are_kept_one_by_one(a: Seq<ItemView>, b: Seq<ItemView>, item: ItemView)
    ensures
        says_stored_pdf(item) ==> zotero::stored_pdfs(seq![item]) == seq![item],
        !says_stored_pdf(item) ==> zotero::stored_pdfs(seq![item]).len() == 0,
        zotero::stored_pdfs(Seq::<ItemView>::empty()).len() == 0,
        zotero::stored_pdfs(a + b) == zotero::stored_pdfs(a) + zotero::stored_pdfs(b),
    decreases b.len(),
{
    reveal(Seq::filter);
    let one = seq![item];
    assert(one.drop_last() =~= Seq::<ItemView>::empty());
    assert(zotero::stored_pdfs(one.drop_last()) =~= Seq::<ItemView>::empty());
    if says_stored_pdf(item) {
        assert(zotero::stored_pdfs(one) =~= one);
    }
    if b.len() == 0 {
        assert(a + b =~= a);
        assert(zotero::stored_pdfs(a) + zotero::stored_pdfs(b) =~= zotero::stored_pdfs(a));
    } else {
        stored_pdfs_are_kept_one_by_one(a, b.drop_last(), item);
        assert((a + b).drop_last() =~= a + b.drop_last());
        assert((a + b).last() == b.last());
        assert(zotero::stored_pdfs(a + b) =~= zotero::stored_pdfs(a) + zotero::stored_pdfs(b));
    }
}

/// Two items with the same content type and the same link mode are both kept or both dropped, whatever
/// else they say.
pub proof fn other_fields_make_no_difference(a: ItemView, b: ItemView)
    requires
        a.data.content_type == b.data.content_type,
        a.data.link_mode == b.data.link_mode,
    ensures
        zotero::stored_pdfs(seq![a]) == seq![a] <==> zotero::stored_pdfs(seq![b]) == seq![b],
        zotero::stored_pdfs(seq![a]).len() == zotero::stored_pdfs(seq![b]).len(),
{
    stored_pdfs_are_kept_one_by_one(Seq::empty(), Seq::empty(), a);
    stored_pdfs_are_kept_one_by_one(Seq::empty(), Seq::empty(), b);
}

/// A finished listing has an item exactly where it came on one of the pages, or was there before, and
/// its content type is that of PDF and its link mode one of the two for stored files.
pub proof fn finished_listings_have_all_stored_pdfs(
    listing: AttachmentListingView,
    pages: Seq<AttachmentPage>,
    item: ItemView,
)
    requires
        pages.len() > 0,
        forall|i: int| 0 <= i < pages.len() - 1 ==> (#[trigger] pages[i]).0.len() >= 100,
        pages.last().0.len() < 100,
    ensures
        ({
            let done = zotero::attachments_after_all(listing, pages);
            &&& done is Done
            &&& done->Done_0.contains(item) <==> says_stored_pdf(item) && (listing.items.contains(
                item,
            ) || exists|i: int|
                0 <= i < pages.len() && (#[trigger] pages[i]).0.contains(item))
        }),
{
    zotero::listings_gather_all_pages(listing, pages);
    zotero::only_stored_pdfs_are_listed(listing.items + zotero::items_of_pages(pages), item);
    lemma_items_of_pages(pages, item);
    lemma_contains_sum(listing.items, zotero::items_of_pages(pages), item);
}

proof fn lemma_contains_sum(a: Seq<ItemView>, b: Seq<ItemView>, item: ItemView)
    ensures
        (a + b).contains(item) <==> a.contains(item) || b.contains(item),
{
    if a.contains(item) {
        let i = choose|i: int| 0 <= i < a.len() && a[i] == item;
        assert((a + b)[i] == item);
    }
    if b.contains(item) {
        let i = choose|i: int| 0 <= i < b.len() && b[i] == item;
        assert((a + b)[a.len() + i] == item);
    }
    if (a + b).contains(item) {
        let i = choose|i: int| 0 <= i < (a + b).len() && (a + b)[i] == item;
        if i < a.len() {
            assert(a[i] == item);
        } else {
            assert(b[i - a.len()] == item);
        }
    }
}

proof fn lemma_items_of_pages(pages: Seq<AttachmentPage>, item: ItemView)
    ensures
        zotero::items_of_pages(pages).contains(item) <==> exists|i: int|
            0 <= i < pages.len() && (#[trigger] pages[i]).0.contains(item),
    decreases pages.len(),
{
    if pages.len() > 0 {
        let rest = pages.drop_first();
        lemma_items_of_pages(rest, item);
        lemma_contains_sum(pages[0].0, zotero::items_of_pages(rest), item);
        if exists|i: int| 0 <= i < rest.len() && (#[trigger] rest[i]).0.contains(item) {
            let i = choose|i: int| 0 <= i < rest.len() && (#[trigger] rest[i]).0.contains(item);
            assert(pages[i + 1].0.contains(item));
        }
        if exists|i: int| 0 <= i < pages.len() && (#[trigger] pages[i]).0.contains(item) {
            let i = choose|i: int|
                0 <= i < pages.len() && (#[trigger] pages[i]).0.contains(item);
            if i > 0 {
                assert(rest[i - 1].0.contains(item));
            }
        }
    }
}

/// A page of fewer than a hundred entries is the last one: then the listing is what is kept of all the
/// items that have come. After a full page the listing goes on, with all items kept for now.
pub proof fn short_pages_end_a_listing(listing: AttachmentListingView, page: AttachmentPage)
    ensures
        page.0.len() < 100 ==> zotero::attachments_after(listing, page) == AttachmentStepView::Done(
            zotero::stored_pdfs(listing.items + page.0),
            zotero::version_after(page.1, listing.library_version),
        ),
        page.0.len() >= 100 ==> zotero::attachments_after(listing, page) == AttachmentStepView::More(
            AttachmentListingView {
                library: listing.library,
                since: listing.since,
                items: listing.items + page.0,
                library_version: zotero::version_after(page.1, listing.library_version),
            },
        ),
{
}

/// The same of collections, of which every one is kept.
pub proof fn short_pages_end_a_listing_of_collections(
    listing: CollectionListingView,
    page: Seq<CollectionView>,
)
    ensures
        page.len() < 100 ==> zotero::collections_after(listing, page) == CollectionStepView::Done(
            listing.collections + page,
        ),
        page.len() >= 100 ==> zotero::collections_after(listing, page) == CollectionStepView::More(
            CollectionListingView {
                library: listing.library,
                collections: listing.collections + page,
            },
        ),
{
}

/// A listing's version is the number that the header spells in decimal. A reply without the header, or
/// with one that spells no number, leaves it as it was.
pub proof fn headers_tell_the_version(header: Seq<char>, version: u64, before: u64)
    ensures
        zotero::version_after(None, before) == before,
        zotero::version_after(Some(number::decimal_text(version as nat)), before) == version,
        number::number_in(header) is None ==> zotero::version_after(Some(header), before) == before,
        number::number_in(header) is Some ==> zotero::version_after(Some(header), before)
            == number::number_in(header)->0,
{
    number::number_text_round_trip(version);
}

/// Each request to Zotero for something in a library goes to the address of that thing in that library,
/// carries the user's key and the version of the API, and nothing else.
pub proof fn requests_name_the_thing_and_the_key(
    api_key: Seq<char>,
    library: Seq<char>,
    path: Seq<char>,
    key: Seq<char>,
)
    ensures
        ({
            let r = zotero::get_request(api_key, library, path);
            &&& r.method == Method::Get
            &&& r.url == "https://api.zotero.org"@ + "/"@ + library + "/"@ + path
            &&& r.headers.len() == 2
            &&& r.headers[0] == ("Zotero-API-Key"@, api_key)
            &&& r.headers[1] == ("Zotero-API-Version"@, "3"@)
            &&& r.bearer is None
            &&& r.body is Nothing
        }),
        zotero::item_path(key) == "items/"@ + key,
        zotero::file_path(key) == "items/"@ + key + "/file"@,
{
}

/// Each form that is handed to Zotero goes to the address of the thing, carries the user's key, the
/// version of the API and the wish that nothing be replaced, and has exactly the fields given.
pub proof fn forms_name_the_thing_and_the_key(
    api_key: Seq<char>,
    library: Seq<char>,
    path: Seq<char>,
    fields: Seq<(Seq<char>, Seq<char>)>,
)
    ensures
        ({
            let r = zotero::form_request(api_key, library, path, fields);
            &&& r.method == Method::Post
            &&& r.url == "https://api.zotero.org"@ + "/"@ + library + "/"@ + path
            &&& r.headers.len() == 3
            &&& r.headers[0] == ("Zotero-API-Key"@, api_key)
            &&& r.headers[1] == ("Zotero-API-Version"@, "3"@)
            &&& r.headers[2] == ("If-None-Match"@, "*"@)
            &&& r.bearer is None
            &&& r.body == BodyView::Form(fields)
        }),
{
}

proof fn lemma_hundred()
    ensures
        "&limit="@ + number::decimal_text(100) + "&start="@ == "&limit=100&start="@,
        "collections?limit="@ + number::decimal_text(100) + "&start="@
            == "collections?limit=100&start="@,
{
    reveal_strlit("&limit=");
    reveal_strlit("&start=");
    reveal_strlit("&limit=100&start=");
    reveal_strlit("collections?limit=");
    reveal_strlit("collections?limit=100&start=");
    reveal_with_fuel(number::decimal_text, 4);
    assert("&limit="@ + number::decimal_text(100) + "&start="@ =~= "&limit=100&start="@);
    assert("collections?limit="@ + number::decimal_text(100) + "&start="@
        =~= "collections?limit=100&start="@);
}

/// The next page is asked for in portions of a hundred, from the place on where the items that have come
/// end, and always for what changed after the same version.
pub proof fn pages_follow_one_another(api_key: Seq<char>, listing: AttachmentListingView)
    ensures
        zotero::attachments_request(api_key, listing) == zotero::get_request(
            api_key,
            listing.library,
            "items?itemType=attachment&since="@ + number::decimal_text(listing.since as nat)
                + "&limit=100&start="@ + number::decimal_text(listing.items.len()),
        ),
{
    lemma_hundred();
    let head = "items?itemType=attachment&since="@ + number::decimal_text(listing.since as nat);
    let tail = number::decimal_text(listing.items.len());
    assert(head + "&limit="@ + number::decimal_text(100) + "&start="@ + tail =~= head + ("&limit="@
        + number::decimal_text(100) + "&start="@) + tail);
}

/// The same of collections.
pub proof fn pages_of_collections_follow_one_another(
    api_key: Seq<char>,
    listing: CollectionListingView,
)
    ensures
        zotero::collections_request(api_key, listing) == zotero::get_request(
            api_key,
            listing.library,
            "collections?limit=100&start="@ + number::decimal_text(listing.collections.len()),
        ),
{
    lemma_hundred();
}

/// A reply to a request for a file says that there is none with status 404 alone, that the request
/// failed with every other status from 400 to 599, and else brings the file.
pub proof fn only_404_says_that_there_is_no_file(status: u16)
    ensures
        zotero::meaning_of(status) is NotStored <==> status == 404,
        zotero::meaning_of(status) is Failed <==> 400 <= status <= 599 && status != 404,
        zotero::meaning_of(status) is Stored <==> status < 400 || status >= 600,
        http::is_error(status) <==> 400 <= status <= 599,
{
}

/// A request is sent again exactly where the status is 429 or 503 and it was sent again fewer than five
/// times before.
pub proof fn only_rate_limits_are_retried(attempt: u32, status: u16)
    ensures
        throttle::is_retried(attempt, status) <==> (status == 429 || status == 503) && attempt < 5,
{
}

proof fn lemma_trims_to(digits: Seq<char>, before: Seq<char>, after: Seq<char>)
    requires
        digits.len() > 0,
        !text::is_white(digits[0]),
        !text::is_white(digits[digits.len() - 1]),
        forall|i: int| 0 <= i < before.len() ==> text::is_white(#[trigger] before[i]),
        forall|i: int| 0 <= i < after.len() ==> text::is_white(#[trigger] after[i]),
    ensures
        text::trimmed(before + digits + after) == digits,
{
    let s = before + digits + after;
    text_laws::trimming_takes_only_whitespace_at_the_ends(s);
    let (from, to) = choose|from: int, to: int| #[trigger]
        s.subrange(from, to) == text::trimmed(s) && 0 <= from <= to <= s.len() && (forall|i: int|
            0 <= i < from || to <= i < s.len() ==> text::is_white(#[trigger] s[i])) && (from < to
            ==> !text::is_white(s[from]) && !text::is_white(s[to - 1]));
    let first = before.len() as int;
    let last = before.len() + digits.len() - 1;
    assert(s[first] == digits[0]);
    assert(s[last] == digits[digits.len() - 1]);
    assert(from <= first && last < to) by {
        if first < from || to <= first {
            assert(text::is_white(s[first]));
        }
        if last < from || to <= last {
            assert(text::is_white(s[last]));
        }
    }
    assert(from == first) by {
        if from < first {
            assert(s[from] == before[from]);
        }
    }
    assert(to == last + 1) by {
        if last + 1 < to {
            assert(s[to - 1] == after[to - 1 - before.len() - digits.len()]);
        }
    }
    assert(s.subrange(from, to) =~= digits);
}

/// A header that spells a number of seconds in decimal, with or without whitespace round it, means that
/// many seconds: so long is waited before the request is sent again, and so long from the reply on are
/// later requests held back.
pub proof fn headers_tell_the_seconds(
    secs: u64,
    before: Seq<char>,
    after: Seq<char>,
    held: Option<u128>,
    now: u128,
)
    requires
        now <= throttle::CLOCK_END,
        forall|i: int| 0 <= i < before.len() ==> text::is_white(#[trigger] before[i]),
        forall|i: int| 0 <= i < after.len() ==> text::is_white(#[trigger] after[i]),
    ensures
        ({
            let header = Some(before + number::decimal_text(secs as nat) + after);
            &&& throttle::retry_wait(header) == secs
            &&& throttle::backoff_after(held, now, header) is Some
            &&& throttle::backoff_after(held, now, header)->0 == now + secs * 1_000_000_000
        }),
{
    let digits = number::decimal_text(secs as nat);
    number::lemma_decimal(secs as nat);
    assert(text::is_digit(digits[0]));
    assert(text::is_digit(digits[digits.len() - 1]));
    lemma_trims_to(digits, before, after);
    number::number_text_round_trip(secs);
    assert(now + secs * 1_000_000_000 <= u128::MAX) by (nonlinear_arith)
        requires
            now <= throttle::CLOCK_END,
            secs <= u64::MAX,
    ;
}

/// The same of every text that is read as a number once the whitespace round it is gone.
pub proof fn headers_are_read_as_numbers(header: Seq<char>, held: Option<u128>, now: u128)
    requires
        now <= throttle::CLOCK_END,
        number::number_in(text::trimmed(header)) is Some,
    ensures
        ({
            let secs = number::number_in(text::trimmed(header))->0;
            &&& throttle::retry_wait(Some(header)) == secs
            &&& throttle::backoff_after(held, now, Some(header)) is Some
            &&& throttle::backoff_after(held, now, Some(header))->0 == now + secs * 1_000_000_000
        }),
{
    let secs = number::number_in(text::trimmed(header))->0;
    assert(now + secs * 1_000_000_000 <= u128::MAX) by (nonlinear_arith)
        requires
            now <= throttle::CLOCK_END,
            secs <= u64::MAX,
    ;
}

/// A reply without the header, or with one that spells no number, has the request sent again after one
/// second, and holds later requests back no longer than they were.
pub proof fn without_seconds_one_is_waited(
    header: Option<Seq<char>>,
    held: Option<u128>,
    now: u128,
)
    requires
        header is Some ==> number::number_in(text::trimmed(header->0)) is None,
    ensures
        throttle::retry_wait(header) == 1,
        throttle::backoff_after(held, now, header) == held,
{
}

/// Before a request is sent, exactly the time is waited that is left until it may be.
pub proof fn requests_are_held_until_their_time(held: Option<u128>, now: u128)
    ensures
        held is None ==> throttle::hold_of(held, now) is None,
        held is Some && held->0 < now ==> throttle::hold_of(held, now) is None,
        held is Some && now <= held->0 ==> throttle::hold_of(held, now) is Some && now
            + throttle::hold_of(held, now)->0 == held->0,
{
}

/// A file is described to Zotero by its checksum, its name, its size in bytes and its time, in this
/// order, for the attachment it belongs to.
pub proof fn files_are_described_in_full(
    api_key: Seq<char>,
    library: Seq<char>,
    key: Seq<char>,
    filename: Seq<char>,
    bytes: Seq<u8>,
    mtime: nat,
)
    ensures
        ({
            let r = upload::authorization_request(api_key, library, key, filename, bytes, mtime);
            &&& r == zotero::form_request(
                api_key,
                library,
                "items/"@ + key + "/file"@,
                r.body->Form_0,
            )
            &&& r.body->Form_0.len() == 4
            &&& r.body->Form_0[0] == ("md5"@, encoding::md5_hex(bytes))
            &&& r.body->Form_0[1] == ("filename"@, filename)
            &&& r.body->Form_0[2] == ("filesize"@, number::decimal_text(bytes.len()))
            &&& r.body->Form_0[3] == ("mtime"@, number::decimal_text(mtime))
        }),
{
    let r = upload::authorization_request(api_key, library, key, filename, bytes, mtime);
    assert(r.body->Form_0 == upload::file_fields(bytes, filename, mtime));
}

/// A reply is a ticket exactly where it has all five texts, and the ticket holds just these. Else the
/// first of them that is missing is told.
pub proof fn tickets_hold_five_texts(
    url: Option<Seq<char>>,
    content_type: Option<Seq<char>>,
    prefix: Option<Seq<char>>,
    suffix: Option<Seq<char>>,
    upload_key: Option<Seq<char>>,
)
    ensures
        ({
            let r = upload::ticket_of(url, content_type, prefix, suffix, upload_key);
            &&& r is Ok <==> url is Some && content_type is Some && prefix is Some && suffix is Some
                && upload_key is Some
            &&& r is Ok ==> {
                let t = r->Ok_0;
                &&& t.url == url->0
                &&& t.content_type == content_type->0
                &&& t.prefix == prefix->0
                &&& t.suffix == suffix->0
                &&& t.upload_key == upload_key->0
            }
            &&& url is None ==> r->Err_0 is MissingUrl
            &&& url is Some && content_type is None ==> r->Err_0 is MissingContentType
            &&& url is Some && content_type is Some && prefix is None ==> r->Err_0 is MissingPrefix
            &&& url is Some && content_type is Some && prefix is Some && suffix is None
                ==> r->Err_0 is MissingSuffix
            &&& url is Some && content_type is Some && prefix is Some && suffix is Some
                && upload_key is None ==> r->Err_0 is MissingUploadKey
        }),
{
}

/// The texts of a ticket are those that the reply has under their names; where one is missing, the first
/// such is told. A reply that is no JSON is no ticket.
pub proof fn tickets_are_read_by_name(body: Seq<u8>)
    ensures
        json::json_reply(body) is None ==> upload::ticket_of_reply(body) == Err::<
            UploadTicketView,
            TicketError,
        >(TicketError::NotJson),
        json::json_reply(body) is Some ==> {
            let m = json::json_reply(body)->0;
            let r = upload::ticket_of_reply(body);
            &&& r is Ok <==> m.contains_key("url"@) && m.contains_key("contentType"@)
                && m.contains_key("prefix"@) && m.contains_key("suffix"@) && m.contains_key(
                "uploadKey"@,
            )
            &&& !m.contains_key("url"@) ==> r->Err_0 is MissingUrl
            &&& m.contains_key("url"@) && !m.contains_key("contentType"@)
                ==> r->Err_0 is MissingContentType
            &&& m.contains_key("url"@) && m.contains_key("contentType"@) && !m.contains_key(
                "prefix"@,
            ) ==> r->Err_0 is MissingPrefix
            &&& m.contains_key("url"@) && m.contains_key("contentType"@) && m.contains_key(
                "prefix"@,
            ) && !m.contains_key("suffix"@) ==> r->Err_0 is MissingSuffix
            &&& m.contains_key("url"@) && m.contains_key("contentType"@) && m.contains_key(
                "prefix"@,
            ) && m.contains_key("suffix"@) && !m.contains_key("uploadKey"@)
                ==> r->Err_0 is MissingUploadKey
            &&& r is Ok ==> {
                let t = r->Ok_0;
                &&& t.url == m["url"@]
                &&& t.content_type == m["contentType"@]
                &&& t.prefix == m["prefix"@]
                &&& t.suffix == m["suffix"@]
                &&& t.upload_key == m["uploadKey"@]
            }
        },
{
}

/// A file is stored at the ticket's address, with the ticket's content type, as the ticket's prefix, the
/// file's own bytes and the ticket's suffix, and without the user's key.
pub proof fn files_are_stored_as_the_ticket_says(ticket: UploadTicketView, bytes: Seq<u8>)
    ensures
        ({
            let r = upload::storage_request_of(ticket, bytes);
            let prefix = vstd::utf8::encode_utf8(ticket.prefix);
            let suffix = vstd::utf8::encode_utf8(ticket.suffix);
            &&& r.method == Method::Post
            &&& r.url == ticket.url
            &&& r.headers.len() == 1
            &&& r.headers[0] == ("content-type"@, ticket.content_type)
            &&& r.bearer is None
            &&& r.body is Bytes
            &&& r.body->Bytes_0 == prefix + bytes + suffix
        }),
{
}

/// What each reply to an upload comes to. A status from 400 to 599 ends it in the failure of its stage.
/// Else the first reply ends it in success where it has no content, in failure where it brings no
/// ticket, and goes on to the storage where it brings one; the second goes on to the registration under
/// the key of the ticket, and the third ends it in success.
pub proof fn replies_lead_an_upload_on(
    upload: UploadView,
    api_key: Seq<char>,
    status: u16,
    body: Seq<u8>,
)
    ensures
        ({
            let s = upload::step_after(upload, api_key, status, body);
            let refused = 400 <= status <= 599;
            let ticket = upload::ticket_of_reply(body);
            match upload.stage {
                UploadStageView::Authorizing => {
                    &&& refused ==> s == UploadStepView::Failed(UploadError::AuthorizationRefused)
                    &&& status == 204 ==> s is Done
                    &&& !refused && status != 204 && ticket is Err ==> s == UploadStepView::Failed(
                        UploadError::Ticket(ticket->Err_0),
                    )
                    &&& !refused && status != 204 && ticket is Ok ==> {
                        &&& s is Send
                        &&& s->Send_request == upload::storage_request_of(
                            ticket->Ok_0,
                            upload.bytes,
                        )
                        &&& !s->Send_throttled
                        &&& s->Send_next.stage == (UploadStageView::Storing {
                            upload_key: (ticket->Ok_0).upload_key,
                        })
                        &&& s->Send_next.library == upload.library
                        &&& s->Send_next.key == upload.key
                        &&& s->Send_next.bytes == upload.bytes
                    }
                },
                UploadStageView::Storing { upload_key } => {
                    &&& refused ==> s == UploadStepView::Failed(UploadError::StorageRefused)
                    &&& !refused ==> {
                        &&& s is Send
                        &&& s->Send_request == zotero::form_request(
                            api_key,
                            upload.library,
                            "items/"@ + upload.key + "/file"@,
                            seq![("upload"@, upload_key)],
                        )
                        &&& s->Send_throttled
                        &&& s->Send_next.stage is Registering
                        &&& s->Send_next.library == upload.library
                        &&& s->Send_next.key == upload.key
                        &&& s->Send_next.bytes == upload.bytes
                    }
                },
                UploadStageView::Registering => {
                    &&& refused ==> s == UploadStepView::Failed(UploadError::RegistrationRefused)
                    &&& !refused ==> s is Done
                },
            }
        }),
{
}

} // verus!
