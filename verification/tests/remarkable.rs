use zoterable::config::RemarkableEndpoints;
use zoterable::encoding::can_encode;
use zoterable::http::{is_error_status, Body, Method, Request};
use zoterable::remarkable::{
    blob_url, pair, pair_as, DownloadError, DownloadRef, FileEntry, FilesResponse, Remarkable,
};

fn pairs(list: &[(&str, &str)]) -> Vec<(String, String)> {
    list.iter().map(|(a, b)| (a.to_string(), b.to_string())).collect()
}

fn endpoints() -> RemarkableEndpoints {
    RemarkableEndpoints { auth_host: "https://auth".to_string(), upload_host: "https://up".to_string() }
}

fn session() -> Remarkable {
    Remarkable::connected("tok".to_string(), "https://up".to_string(), "https://store".to_string())
}

fn entry(id: &str) -> FileEntry {
    FileEntry {
        id: id.to_string(),
        hash: "h".to_string(),
        file_name: "n".to_string(),
        entry_type: "DocumentType".to_string(),
        parent: "".to_string(),
    }
}

fn reference(id: &str, blob_url: &str) -> DownloadRef {
    DownloadRef { id: id.to_string(), blob_url: blob_url.to_string() }
}

#[test]
fn statuses_of_failure_are_those_from_400_to_599() {
    assert!(!is_error_status(200));
    assert!(!is_error_status(399));
    assert!(is_error_status(400));
    assert!(is_error_status(599));
    assert!(!is_error_status(600));
}

#[test]
fn a_device_is_registered_under_its_code() {
    assert_eq!(
        pair_as(&endpoints(), "abcd\"efg\n\u{1f}", "id-1"),
        Request {
            method: Method::Post,
            url: "https://auth/token/json/2/device/new".to_string(),
            headers: vec![],
            bearer: Some("".to_string()),
            body: Body::Json(
                "{\"code\":\"abcd\\\"efg\\n\\u001f\",\"deviceDesc\":\"browser-chrome\",\"deviceID\":\"id-1\"}"
                    .to_string()
            ),
        }
    );
}

#[test]
fn each_pairing_has_a_new_random_identity() {
    let id = || match pair(&endpoints(), "c").body {
        Body::Json(text) => {
            let start = text.find("\"deviceID\":\"").unwrap() + 12;
            text[start..text.len() - 2].to_string()
        }
        _ => panic!("a device is registered with JSON"),
    };
    let (a, b) = (id(), id());
    assert_ne!(a, b);
    for text in [a, b] {
        assert_eq!(text.len(), 36);
        for (i, c) in text.chars().enumerate() {
            match i {
                8 | 13 | 18 | 23 => assert_eq!(c, '-'),
                14 => assert_eq!(c, '4'),
                19 => assert!("89ab".contains(c)),
                _ => assert!("0123456789abcdef".contains(c)),
            }
        }
    }
}

#[test]
fn a_session_is_asked_for_with_the_trimmed_device_token() {
    assert_eq!(
        Remarkable::connect(&endpoints(), " dev-token\n"),
        Request {
            method: Method::Post,
            url: "https://auth/token/json/2/user/new".to_string(),
            headers: vec![],
            bearer: Some("dev-token".to_string()),
            body: Body::Bytes(vec![]),
        }
    );
}

#[test]
fn a_session_uses_the_upload_host_for_documents_too() {
    let session = Remarkable::open(&endpoints(), "tok".to_string());
    assert_eq!(session.session_token, "tok");
    assert_eq!(session.upload_host, "https://up");
    assert_eq!(session.storage_host, "https://up");
    assert_eq!(session.list_files().url, "https://up/doc/v2/files");
}

#[test]
fn a_document_is_uploaded_with_its_description() {
    assert_eq!(
        session().upload_pdf("Doe - Pa\"per", vec![1, 2], None),
        Some(Request {
            method: Method::Post,
            url: "https://up/doc/v2/files".to_string(),
            headers: pairs(&[
                ("content-type", "application/pdf"),
                ("rm-meta", "eyJmaWxlX25hbWUiOiJEb2UgLSBQYVwicGVyIn0="),
                ("rm-source", "RoR-Browser"),
            ]),
            bearer: Some("tok".to_string()),
            body: Body::Bytes(vec![1, 2]),
        })
    );
}

#[test]
fn a_folder_is_made_in_its_parent() {
    assert_eq!(
        session().create_folder("Notes", Some("f-1")),
        Some(Request {
            method: Method::Post,
            url: "https://up/doc/v2/files".to_string(),
            headers: pairs(&[
                ("content-type", "folder"),
                ("content-length", "0"),
                ("rm-meta", "eyJmaWxlX25hbWUiOiJOb3RlcyIsInBhcmVudCI6ImYtMSJ9"),
                ("rm-source", "RoR-Browser"),
            ]),
            bearer: Some("tok".to_string()),
            body: Body::Bytes(vec![]),
        })
    );
}

#[test]
fn a_folder_without_identity_is_the_top() {
    let s = session();
    assert_eq!(s.create_folder("A", Some("")), s.create_folder("A", None));
    assert_eq!(s.upload_pdf("A", vec![], Some("")), s.upload_pdf("A", vec![], None));
    let headers = s.upload_pdf("A", vec![], None).unwrap().headers;
    assert_eq!(headers[1].1, "eyJmaWxlX25hbWUiOiJBIn0=");
}

#[test]
fn descriptions_have_room() {
    assert!(can_encode(0));
    assert!(can_encode(1 << 20));
    assert!(!can_encode(usize::MAX));
}

#[test]
fn files_are_listed() {
    assert_eq!(
        session().list_files(),
        Request {
            method: Method::Get,
            url: "https://up/doc/v2/files".to_string(),
            headers: pairs(&[("rm-source", "RoR-Browser")]),
            bearer: Some("tok".to_string()),
            body: Body::Nothing,
        }
    );
}

#[test]
fn both_shapes_of_a_listing_hold_files() {
    assert_eq!(FilesResponse::Array(vec![entry("a")]).into_files(), [entry("a")]);
    assert_eq!(FilesResponse::Wrapped { files: vec![entry("b")] }.into_files(), [entry("b")]);
}

#[test]
fn the_place_of_a_document_is_asked_for() {
    assert_eq!(
        session().download_zip("d\\1"),
        Request {
            method: Method::Post,
            url: "https://store/document-storage/json/2/docs/download?withBlob=true".to_string(),
            headers: pairs(&[("content-type", "application/json")]),
            bearer: Some("tok".to_string()),
            body: Body::Json("[{\"ID\":\"d\\\\1\",\"Version\":1}]".to_string()),
        }
    );
}

#[test]
fn the_content_is_fetched_where_the_reply_says() {
    let refs = vec![reference("x", "https://x"), reference("d", " https://d \n"), reference("d", "")];
    assert_eq!(blob_url(&refs, "d"), Ok("https://d".to_string()));
    assert_eq!(
        Remarkable::blob_request(&refs, "d"),
        Ok(Request {
            method: Method::Get,
            url: "https://d".to_string(),
            headers: vec![],
            bearer: None,
            body: Body::Nothing,
        })
    );
}

#[test]
fn other_references_are_passed_over() {
    let one = vec![reference("d", "u")];
    let more = vec![reference("a", "1"), reference("b", "2"), reference("d", "u")];
    assert_eq!(blob_url(&one, "d"), blob_url(&more, "d"));
}

#[test]
fn a_reply_must_say_where_the_content_is() {
    assert_eq!(Remarkable::blob_request(&vec![], "d"), Err(DownloadError::NoInfo));
    assert_eq!(blob_url(&vec![reference("x", "u")], "d"), Err(DownloadError::NoInfo));
    assert_eq!(
        Remarkable::blob_request(&vec![reference("d", " \t"), reference("d", "u")], "d"),
        Err(DownloadError::NoBlobUrl)
    );
}
