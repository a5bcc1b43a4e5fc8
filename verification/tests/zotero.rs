use zoterable::http::{Body, Method, Request};
use zoterable::upload::{
    read_ticket, storage_request, ticket_from, TicketError, Upload, UploadError, UploadStage,
    UploadStep, UploadTicket,
};
use zoterable::zotero::{
    download_reply, AttachmentListing, AttachmentStep, Collection, CollectionData,
    CollectionListing, CollectionStep, DownloadReply, Item, ItemData, Zotero,
};

fn pairs(list: &[(&str, &str)]) -> Vec<(String, String)> {
    list.iter().map(|(a, b)| (a.to_string(), b.to_string())).collect()
}

fn get(url: &str) -> Request {
    Request {
        method: Method::Get,
        url: url.to_string(),
        headers: pairs(&[("Zotero-API-Key", "k3y"), ("Zotero-API-Version", "3")]),
        bearer: None,
        body: Body::Nothing,
    }
}

fn form(url: &str, fields: &[(&str, &str)]) -> Request {
    Request {
        method: Method::Post,
        url: url.to_string(),
        headers: pairs(&[
            ("Zotero-API-Key", "k3y"),
            ("Zotero-API-Version", "3"),
            ("If-None-Match", "*"),
        ]),
        bearer: None,
        body: Body::Form(pairs(fields)),
    }
}

fn item(key: &str, content_type: Option<&str>, link_mode: Option<&str>) -> Item {
    Item {
        key: key.to_string(),
        version: 3,
        data: ItemData {
            content_type: content_type.map(|s| s.to_string()),
            link_mode: link_mode.map(|s| s.to_string()),
            parent_item: None,
            filename: None,
            title: None,
            date: None,
            creators: vec![],
            collections: vec![],
        },
    }
}

fn pdf(key: &str) -> Item {
    item(key, Some("application/pdf"), Some("imported_file"))
}

fn collection(key: usize) -> Collection {
    Collection {
        key: key.to_string(),
        data: CollectionData { name: "n".to_string(), parent_collection: None },
    }
}

#[test]
fn requests_name_the_library_and_the_key() {
    let zotero = Zotero::new("k3y");
    assert_eq!(zotero.item("users/1", "ABC"), get("https://api.zotero.org/users/1/items/ABC"));
    assert_eq!(
        zotero.download("groups/2", "ABC"),
        get("https://api.zotero.org/groups/2/items/ABC/file")
    );
    assert_eq!(zotero.get("users/1", "x?y=z"), get("https://api.zotero.org/users/1/x?y=z"));
    assert_eq!(
        zotero.post("users/1", "x", pairs(&[("a", "b")])),
        form("https://api.zotero.org/users/1/x", &[("a", "b")])
    );
}

#[test]
fn a_missing_file_is_no_failure() {
    assert_eq!(download_reply(404), DownloadReply::NotStored);
    assert_eq!(download_reply(200), DownloadReply::Stored);
    assert_eq!(download_reply(302), DownloadReply::Stored);
    for status in [400, 403, 405, 500, 599] {
        assert_eq!(download_reply(status), DownloadReply::Failed);
    }
}

#[test]
fn the_first_page_starts_at_zero() {
    let zotero = Zotero::new("k3y");
    let listing = zotero.pdf_attachments("users/1", 17);
    assert_eq!(
        listing.request(&zotero),
        get("https://api.zotero.org/users/1/items?itemType=attachment&since=17&limit=100&start=0")
    );
    assert_eq!(
        zotero.collections("users/1").request(&zotero),
        get("https://api.zotero.org/users/1/collections?limit=100&start=0")
    );
}

#[test]
fn a_full_page_is_followed_by_another() {
    let zotero = Zotero::new("k3y");
    let listing = zotero.pdf_attachments("users/1", 17);
    let mut full: Vec<Item> = Vec::new();
    for i in 0..100 {
        full.push(item(&i.to_string(), None, None));
    }
    full[3] = pdf("three");
    let next: AttachmentListing = match listing.page(full, Some("20".to_string())) {
        AttachmentStep::More(next) => next,
        AttachmentStep::Done(..) => panic!("a full page is not the last"),
    };
    assert_eq!(
        next.request(&zotero),
        get("https://api.zotero.org/users/1/items?itemType=attachment&since=17&limit=100&start=100")
    );
    let last = vec![pdf("a"), item("b", Some("text/html"), Some("imported_url"))];
    match next.page(last, None) {
        AttachmentStep::Done(items, version) => {
            assert_eq!(items, [pdf("three"), pdf("a")]);
            assert_eq!(version, 20);
        }
        AttachmentStep::More(_) => panic!("a short page is the last"),
    }
}

#[test]
fn only_stored_pdfs_are_kept() {
    let zotero = Zotero::new("k3y");
    let kept = [pdf("a"), item("b", Some("application/pdf"), Some("imported_url"))];
    let batch = vec![
        pdf("a"),
        item("b", Some("application/pdf"), Some("imported_url")),
        item("c", Some("application/pdf"), Some("linked_file")),
        item("d", Some("application/pdf"), None),
        item("e", None, Some("imported_file")),
        item("f", Some("application/PDF"), Some("imported_file")),
    ];
    match zotero.pdf_attachments("users/1", 5).page(batch, Some("x".to_string())) {
        AttachmentStep::Done(items, version) => {
            assert_eq!(items, kept);
            assert_eq!(version, 5);
        }
        AttachmentStep::More(_) => panic!("a short page is the last"),
    }
}

#[test]
fn an_empty_page_ends_a_listing() {
    let zotero = Zotero::new("k3y");
    match zotero.pdf_attachments("users/1", 5).page(vec![], Some("6".to_string())) {
        AttachmentStep::Done(items, version) => {
            assert!(items.is_empty());
            assert_eq!(version, 6);
        }
        AttachmentStep::More(_) => panic!("an empty page is the last"),
    }
}

#[test]
fn collections_are_gathered_from_all_pages() {
    let zotero = Zotero::new("k3y");
    let full: Vec<Collection> = (0..100).map(collection).collect();
    let next: CollectionListing = match zotero.collections("users/1").page(full) {
        CollectionStep::More(next) => next,
        CollectionStep::Done(_) => panic!("a full page is not the last"),
    };
    assert_eq!(
        next.request(&zotero),
        get("https://api.zotero.org/users/1/collections?limit=100&start=100")
    );
    match next.page(vec![collection(100)]) {
        CollectionStep::Done(all) => {
            assert_eq!(all.len(), 101);
            assert_eq!(all[100], collection(100));
        }
        CollectionStep::More(_) => panic!("a short page is the last"),
    }
}

const TICKET: &[u8] = br#"{"url":"https://s3/","contentType":"multipart/x","prefix":"<\u00e9","suffix":">","uploadKey":"u1"}"#;

fn ticket() -> UploadTicket {
    UploadTicket {
        url: "https://s3/".to_string(),
        content_type: "multipart/x".to_string(),
        prefix: "<é".to_string(),
        suffix: ">".to_string(),
        upload_key: "u1".to_string(),
    }
}

#[test]
fn an_upload_is_authorized_stored_and_registered() {
    let zotero = Zotero::new("k3y");
    let (upload, request) =
        zotero.upload_attachment_pdf("users/1", "ABC", "a b.pdf", b"abc".to_vec(), 1700000000123);
    assert_eq!(
        request,
        form(
            "https://api.zotero.org/users/1/items/ABC/file",
            &[
                ("md5", "900150983cd24fb0d6963f7d28e17f72"),
                ("filename", "a b.pdf"),
                ("filesize", "3"),
                ("mtime", "1700000000123"),
            ]
        )
    );
    assert_eq!(upload.stage, UploadStage::Authorizing);
    let (upload, request) = match upload.answer(&zotero, 200, TICKET) {
        UploadStep::Send { next, request, throttled } => {
            assert!(!throttled);
            (next, request)
        }
        _ => panic!("the file is to be stored"),
    };
    assert_eq!(
        request,
        Request {
            method: Method::Post,
            url: "https://s3/".to_string(),
            headers: pairs(&[("content-type", "multipart/x")]),
            bearer: None,
            body: Body::Bytes("<éabc>".as_bytes().to_vec()),
        }
    );
    let (upload, request) = match upload.answer(&zotero, 201, b"") {
        UploadStep::Send { next, request, throttled } => {
            assert!(throttled);
            (next, request)
        }
        _ => panic!("the file is to be registered"),
    };
    assert_eq!(
        request,
        form("https://api.zotero.org/users/1/items/ABC/file", &[("upload", "u1")])
    );
    assert_eq!(upload.answer(&zotero, 204, b""), UploadStep::Done);
}

#[test]
fn a_file_that_zotero_has_is_not_stored_again() {
    let zotero = Zotero::new("k3y");
    let (upload, _) = zotero.upload_attachment_pdf("users/1", "ABC", "a.pdf", vec![], 0);
    assert_eq!(upload.answer(&zotero, 204, b"no json"), UploadStep::Done);
}

#[test]
fn a_refusal_ends_an_upload() {
    let zotero = Zotero::new("k3y");
    let at = |stage: UploadStage| Upload {
        library: "users/1".to_string(),
        key: "ABC".to_string(),
        bytes: vec![1],
        stage,
    };
    let storing = UploadStage::Storing { upload_key: "u".to_string() };
    assert_eq!(
        at(UploadStage::Authorizing).answer(&zotero, 412, TICKET),
        UploadStep::Failed(UploadError::AuthorizationRefused)
    );
    assert_eq!(
        at(storing).answer(&zotero, 500, b""),
        UploadStep::Failed(UploadError::StorageRefused)
    );
    assert_eq!(
        at(UploadStage::Registering).answer(&zotero, 400, b""),
        UploadStep::Failed(UploadError::RegistrationRefused)
    );
}

#[test]
fn a_ticket_is_read_from_a_reply() {
    assert_eq!(read_ticket(TICKET), Ok(ticket()));
    assert_eq!(read_ticket(b"{"), Err(TicketError::NotJson));
    assert_eq!(read_ticket(b"[]"), Err(TicketError::MissingUrl));
    assert_eq!(read_ticket(br#"{"url":5}"#), Err(TicketError::MissingUrl));
    assert_eq!(read_ticket(br#"{"url":"u"}"#), Err(TicketError::MissingContentType));
    assert_eq!(
        read_ticket(br#"{"contentType":"c","url":"u","suffix":"s"}"#),
        Err(TicketError::MissingPrefix)
    );
    assert_eq!(
        read_ticket(br#"{"contentType":"c","url":"u","prefix":""}"#),
        Err(TicketError::MissingSuffix)
    );
    assert_eq!(
        read_ticket(br#"{"contentType":"c","url":"u","prefix":"","suffix":"","uploadKey":null}"#),
        Err(TicketError::MissingUploadKey)
    );
}

#[test]
fn a_reply_without_a_ticket_ends_an_upload() {
    let zotero = Zotero::new("k3y");
    let (upload, _) = zotero.upload_attachment_pdf("users/1", "ABC", "a.pdf", vec![], 0);
    assert_eq!(
        upload.answer(&zotero, 200, b"{}"),
        UploadStep::Failed(UploadError::Ticket(TicketError::MissingUrl))
    );
}

#[test]
fn a_ticket_needs_all_its_texts() {
    let t = |s: &str| Some(s.to_string());
    assert_eq!(
        ticket_from(t("https://s3/"), t("multipart/x"), t("<é"), t(">"), t("u1")),
        Ok(ticket())
    );
    assert_eq!(ticket_from(None, None, None, None, None), Err(TicketError::MissingUrl));
    assert_eq!(
        ticket_from(t("u"), t("c"), t("p"), t("s"), None),
        Err(TicketError::MissingUploadKey)
    );
}

#[test]
fn the_file_goes_between_the_texts_of_the_ticket() {
    let request = storage_request(&ticket(), &[0, 255]);
    assert_eq!(request.body, Body::Bytes(vec![b'<', 0xc3, 0xa9, 0, 255, b'>']));
}
