use std::io::{Cursor, Write};

use zip::write::SimpleFileOptions;
use zip::ZipWriter;

use zoterable::archive::ArchiveError;
use zoterable::config::Config;
use zoterable::events::{Action, Event, Note, Outcome, PdfReply, Trouble};
use zoterable::keymap::KeyMap;
use zoterable::remarkable::FileEntry;
use zoterable::state::{LibraryState, RemarkableDocState, State};
use zoterable::sync::{run, sync_marked_up_copy, Phase, Step};
use zoterable::zotero::{Collection, CollectionData, Item, ItemData};

fn text(s: &str) -> String {
    s.to_string()
}

fn config(groups: &[&str]) -> Config {
    Config {
        zotero_user_id: text("1"),
        zotero_api_key: text("k"),
        zotero_group_ids: groups.iter().map(|g| text(g)).collect(),
        remarkable_auth_host: None,
        remarkable_upload_host: None,
    }
}

fn item(key: &str, version: u64, parent: Option<&str>) -> Item {
    Item {
        key: text(key),
        version,
        data: ItemData {
            content_type: Some(text("application/pdf")),
            link_mode: Some(text("imported_file")),
            parent_item: parent.map(|p| text(p)),
            filename: Some(format!("{key}.pdf")),
            title: None,
            date: None,
            creators: vec![],
            collections: vec![],
        },
    }
}

fn publication(title: &str, collection: &str) -> Item {
    let mut p = item("P", 1, None);
    p.data.title = Some(text(title));
    p.data.collections = vec![text(collection)];
    p
}

fn collection(key: &str, name: &str, parent: Option<&str>) -> Collection {
    Collection {
        key: text(key),
        data: CollectionData { name: text(name), parent_collection: parent.map(|p| text(p)) },
    }
}

fn file(id: &str, hash: &str, name: &str, kind: &str, parent: &str) -> FileEntry {
    FileEntry {
        id: text(id),
        hash: text(hash),
        file_name: text(name),
        entry_type: text(kind),
        parent: text(parent),
    }
}

fn known(version: u64, synced: &[(&str, u64)], docs: &[(&str, &str, &str)]) -> State {
    let mut lib = LibraryState::new();
    lib.last_library_version = version;
    lib.synced = KeyMap::from_pairs(synced.iter().map(|(k, v)| (text(k), *v)).collect());
    lib.remarkable_docs = KeyMap::from_pairs(
        docs.iter()
            .map(|(k, id, hash)| {
                (text(k), RemarkableDocState { doc_id: text(id), last_hash: text(hash) })
            })
            .collect(),
    );
    let mut state = State::new();
    state.set_library("users/1", &lib);
    state
}

/// Goes on with what came of the action, which must be the one expected.
fn told(step: Step, action: Action, event: Event) -> Step {
    assert_eq!(step.action, action);
    step.run.answer(event)
}

fn list_collections(library: &str) -> Action {
    Action::ListCollections { library: text(library) }
}

fn list_attachments(library: &str, since: u64) -> Action {
    Action::ListAttachments { library: text(library), since }
}

fn fetch_parent(key: &str) -> Action {
    Action::FetchParent { library: text("users/1"), key: text(key) }
}

fn download(key: &str) -> Action {
    Action::DownloadPdf { library: text("users/1"), key: text(key) }
}

fn upload(name: &str, bytes: &[u8], parent: Option<&str>) -> Action {
    Action::UploadPdf { name: text(name), bytes: bytes.to_vec(), parent: parent.map(|p| text(p)) }
}

fn listed(state: State, dry_run: bool, items: Vec<Item>, version: u64) -> Step {
    let since = state.library("users/1").last_library_version;
    let step = run(&config(&[]), state, dry_run);
    let step = told(
        step,
        list_collections("users/1"),
        Event::Collections(Some(vec![
            collection("A", "Papers", None),
            collection("B", "AI", Some("A")),
            collection("X", "x", Some("Y")),
            collection("Y", "y", Some("X")),
        ])),
    );
    told(step, list_attachments("users/1", since), Event::Attachments(Some((items, version))))
}

fn stored(bytes: &[u8]) -> Event {
    Event::Pdf(PdfReply::Stored(bytes.to_vec()))
}

fn archive(entries: &[(&str, &[u8])]) -> Vec<u8> {
    let mut writer = ZipWriter::new(Cursor::new(Vec::new()));
    for (name, content) in entries {
        writer.start_file(*name, SimpleFileOptions::default()).unwrap();
        writer.write_all(content).unwrap();
    }
    writer.finish().unwrap().into_inner()
}

#[test]
fn a_new_attachment_goes_to_its_folder_on_the_tablet() {
    let step = listed(State::new(), false, vec![item("a", 7, Some("P"))], 30);
    assert_eq!(
        step.notes,
        [Note::Counted { library: text("users/1"), changed: 1, new: 1, updated: 0 }]
    );
    let step = told(step, fetch_parent("P"), Event::Parent(Some(publication("T", "B"))));
    let step = told(step, download("a"), stored(b"pdf"));
    let step = told(step, Action::Connect, Event::Connected(true));
    let step = told(
        step,
        Action::ListFiles,
        Event::Files(Some(vec![file("f1", "", "Papers", "CollectionType", "")])),
    );
    let step = told(
        step,
        Action::CreateFolder { name: text("AI"), parent: Some(text("f1")) },
        Event::FolderCreated(Some(file("f2", "", "AI", "CollectionType", "f1"))),
    );
    let step = told(
        step,
        upload("T", b"pdf", Some("f2")),
        Event::Uploaded(Some(file("d1", "h1", "T", "DocumentType", "f2"))),
    );
    assert_eq!(step.notes, [Note::Uploaded { name: text("T") }]);
    let lib = step.run.sync.state.library("users/1");
    assert_eq!(lib.synced.get("a"), Some(&7));
    assert_eq!(lib.last_library_version, 0);
    let doc = lib.remarkable_docs.get("a").unwrap();
    assert_eq!((doc.doc_id.as_str(), doc.last_hash.as_str()), ("d1", "h1"));
    let step = told(step, Action::Save, Event::Saved(true));
    assert_eq!(step.run.sync.state.library("users/1").last_library_version, 30);
    let step = told(step, Action::Save, Event::Saved(true));
    assert_eq!(step.action, Action::Finish(Outcome::Done));
}

#[test]
fn known_attachments_only_have_their_record_refreshed() {
    let state = known(10, &[("a", 3), ("z", 1)], &[]);
    let step = listed(state, false, vec![item("a", 7, None), item("z", 9, None)], 30);
    assert_eq!(
        step.notes,
        [Note::Counted { library: text("users/1"), changed: 2, new: 0, updated: 2 }]
    );
    let lib = step.run.sync.state.library("users/1");
    assert_eq!(lib.synced.get("a"), Some(&7));
    assert_eq!(lib.synced.get("z"), Some(&9));
    assert_eq!(lib.last_library_version, 30);
    let step = told(step, Action::Save, Event::Saved(true));
    assert_eq!(step.action, Action::Finish(Outcome::Done));
}

#[test]
fn the_cloud_is_asked_once_for_many_attachments() {
    let step = listed(State::new(), false, vec![item("a", 1, None), item("b", 2, None)], 5);
    let step = told(step, download("a"), stored(b"1"));
    let step = told(step, Action::Connect, Event::Connected(true));
    let step = told(step, Action::ListFiles, Event::Files(Some(vec![])));
    let step = told(step, upload("a", b"1", None), Event::Uploaded(Some(file("d1", "", "", "", ""))));
    let step = told(step, Action::Save, Event::Saved(true));
    let step = told(step, download("b"), stored(b"2"));
    assert_eq!(step.action, upload("b", b"2", None));
}

#[test]
fn a_missing_file_is_skipped_without_a_record() {
    let step = listed(State::new(), false, vec![item("a", 1, None)], 5);
    let step = told(step, download("a"), Event::Pdf(PdfReply::Missing));
    assert_eq!(step.notes, [Note::Skipped { name: text("a") }]);
    let lib = step.run.sync.state.library("users/1");
    assert!(!lib.synced.contains_key("a"));
    assert_eq!(lib.last_library_version, 5);
    let step = told(step, Action::Save, Event::Saved(true));
    assert_eq!(step.action, Action::Finish(Outcome::Done));
}

#[test]
fn a_failure_holds_the_version_back() {
    let step = listed(known(2, &[], &[]), false, vec![item("a", 1, None), item("b", 1, None)], 5);
    let step = told(step, download("a"), Event::Pdf(PdfReply::Failed));
    assert_eq!(step.notes, [Note::UploadFailed { name: text("a") }]);
    let step = told(step, download("b"), stored(b"2"));
    let step = told(step, Action::Connect, Event::Connected(true));
    let step = told(step, Action::ListFiles, Event::Files(Some(vec![])));
    let step = told(step, upload("b", b"2", None), Event::Uploaded(None));
    assert_eq!(step.notes, [Note::UploadFailed { name: text("b") }]);
    let lib = step.run.sync.state.library("users/1");
    assert_eq!(lib.last_library_version, 2);
    assert!(lib.synced.is_empty());
    let step = told(step, Action::Save, Event::Saved(true));
    assert_eq!(step.action, Action::Finish(Outcome::Failed { failures: 2 }));
}

#[test]
fn a_marked_up_copy_goes_back_to_zotero() {
    let state = known(4, &[("a", 1), ("b", 1), ("c", 1)], &[
        ("a", "gone", "h"),
        ("b", "d2", "same"),
        ("c", "d3", "old"),
        ("e", "d4", "old"),
    ]);
    let step = listed(state, false, vec![], 4);
    let step = told(step, Action::Connect, Event::Connected(true));
    let step = told(
        step,
        Action::ListFiles,
        Event::Files(Some(vec![
            file("d2", "same", "B", "DocumentType", ""),
            file("d3", "new", " Paper ", "DocumentType", ""),
            file("d4", "", "E", "DocumentType", ""),
        ])),
    );
    let zip = archive(&[("d3.pdf", b"marked")]);
    let step = told(
        step,
        Action::DownloadArchive { doc_id: text("d3") },
        Event::Archive(Some(zip)),
    );
    let step = told(
        step,
        Action::UploadAttachment {
            library: text("users/1"),
            key: text("c"),
            filename: text("Paper.pdf"),
            bytes: b"marked".to_vec(),
        },
        Event::WrittenBack(true),
    );
    assert_eq!(step.notes, [Note::WrittenBack { file_name: text(" Paper ") }]);
    let lib = step.run.sync.state.library("users/1");
    assert_eq!(lib.remarkable_docs.get("c").unwrap().last_hash, "new");
    assert_eq!(lib.remarkable_docs.get("c").unwrap().doc_id, "d3");
    assert_eq!(lib.remarkable_docs.get("b").unwrap().last_hash, "same");
    let step = told(step, Action::Save, Event::Saved(true));
    let step = told(step, Action::Save, Event::Saved(true));
    assert_eq!(step.action, Action::Finish(Outcome::Done));
}

fn changed_copy() -> Step {
    let step = listed(known(4, &[], &[("c", "d3", "old")]), false, vec![], 9);
    let step = told(step, Action::Connect, Event::Connected(true));
    told(
        step,
        Action::ListFiles,
        Event::Files(Some(vec![file("d3", "new", "P", "DocumentType", "")])),
    )
}

#[test]
fn a_copy_that_cannot_be_written_back_is_a_failure() {
    let fetch = Action::DownloadArchive { doc_id: text("d3") };
    let step = told(changed_copy(), fetch, Event::Archive(None));
    assert_eq!(step.notes, [Note::WriteBackFailed { key: text("c"), cause: None }]);
    assert_eq!(step.run.sync.state.library("users/1").last_library_version, 4);
    let step = told(step, Action::Save, Event::Saved(true));
    assert_eq!(step.action, Action::Finish(Outcome::Failed { failures: 1 }));

    let fetch = Action::DownloadArchive { doc_id: text("d3") };
    let step = told(changed_copy(), fetch, Event::Archive(Some(b"junk".to_vec())));
    let cause = Some(ArchiveError::NotAnArchive);
    assert_eq!(step.notes, [Note::WriteBackFailed { key: text("c"), cause }]);

    let fetch = Action::DownloadArchive { doc_id: text("d3") };
    let zip = archive(&[("x.PDF", b"m")]);
    let step = told(changed_copy(), fetch, Event::Archive(Some(zip)));
    let step = step.run.answer(Event::WrittenBack(false));
    assert_eq!(step.notes, [Note::WriteBackFailed { key: text("c"), cause: None }]);
    let lib = step.run.sync.state.library("users/1");
    assert_eq!(lib.remarkable_docs.get("c").unwrap().last_hash, "old");
}

#[test]
fn the_pdf_of_an_archive_decides_what_is_written_back() {
    let step = changed_copy();
    match step.run.phase {
        Phase::Archive { work, key, remote } => {
            let step = sync_marked_up_copy(step.run.sync, work, key, remote, Ok(vec![5]));
            assert_eq!(
                step.action,
                Action::UploadAttachment {
                    library: text("users/1"),
                    key: text("c"),
                    filename: text("P.pdf"),
                    bytes: vec![5],
                }
            );
        }
        _ => panic!("an archive is asked for"),
    }
    let step = changed_copy();
    match step.run.phase {
        Phase::Archive { work, key, remote } => {
            let pdf = Err(ArchiveError::NoPdf);
            let step = sync_marked_up_copy(step.run.sync, work, key, remote, pdf);
            let cause = Some(ArchiveError::NoPdf);
            assert_eq!(step.notes, [Note::WriteBackFailed { key: text("c"), cause }]);
            assert_eq!(step.action, Action::Save);
        }
        _ => panic!("an archive is asked for"),
    }
}

#[test]
fn a_dry_run_only_shows() {
    let items = vec![
        item("a", 1, None),
        item("b", 1, Some("P")),
        item("c", 1, None),
        item("k", 1, None),
    ];
    let step = listed(known(4, &[("k", 1)], &[("k", "d", "h")]), true, items, 9);
    assert_eq!(
        step.notes,
        [
            Note::Counted { library: text("users/1"), changed: 4, new: 3, updated: 1 },
            Note::WouldUpload { name: text("a"), folder_path: vec![] },
        ]
    );
    let step = told(step, fetch_parent("P"), Event::Parent(Some(publication("T", "B"))));
    assert_eq!(
        step.notes,
        [
            Note::WouldUpload { name: text("T"), folder_path: vec![text("Papers"), text("AI")] },
            Note::WouldUpload { name: text("c"), folder_path: vec![] },
        ]
    );
    assert_eq!(step.action, Action::Finish(Outcome::Done));
    let lib = step.run.sync.state.library("users/1");
    assert_eq!(lib.last_library_version, 4);
    assert_eq!(lib.synced.len(), 1);
}

#[test]
fn a_parent_that_cannot_be_fetched_leaves_the_fallback_name() {
    let step = listed(State::new(), false, vec![item("a", 1, Some("P"))], 9);
    let step = told(step, fetch_parent("P"), Event::Parent(None));
    let step = told(step, download("a"), stored(b"1"));
    let step = told(step, Action::Connect, Event::Connected(true));
    let step = told(step, Action::ListFiles, Event::Files(Some(vec![])));
    assert_eq!(step.action, upload("a", b"1", None));
}

#[test]
fn libraries_are_synced_one_after_the_other() {
    let step = run(&config(&["7"]), State::new(), false);
    let step = told(step, list_collections("users/1"), Event::Collections(Some(vec![])));
    assert_eq!(step.notes, [Note::Fetching { library: text("users/1"), since: 0 }]);
    let listing = Event::Attachments(Some((vec![item("a", 1, None)], 3)));
    let step = told(step, list_attachments("users/1", 0), listing);
    let step = told(step, download("a"), Event::Pdf(PdfReply::Failed));
    let step = told(step, Action::Save, Event::Saved(true));
    let step = told(step, list_collections("groups/7"), Event::Collections(Some(vec![])));
    let step =
        told(step, list_attachments("groups/7", 0), Event::Attachments(Some((vec![], 8))));
    assert_eq!(step.run.sync.state.library("groups/7").last_library_version, 8);
    assert_eq!(step.run.sync.state.library("users/1").last_library_version, 0);
    let step = told(step, Action::Save, Event::Saved(true));
    assert_eq!(step.action, Action::Finish(Outcome::Failed { failures: 1 }));
}

#[test]
fn other_libraries_are_left_alone() {
    let mut state = known(2, &[("a", 1)], &[("a", "d", "h")]);
    let mut other = LibraryState::new();
    other.last_library_version = 77;
    other.synced = KeyMap::from_pairs(vec![(text("z"), 3)]);
    state.set_library("groups/9", &other);
    let step = listed(state, false, vec![item("b", 2, None)], 5);
    let step = told(step, Action::Connect, Event::Connected(true));
    let step = told(step, Action::ListFiles, Event::Files(Some(vec![])));
    let step = told(step, download("b"), stored(b"2"));
    let step = told(step, upload("b", b"2", None), Event::Uploaded(Some(file("e", "", "", "", ""))));
    let step = told(step, Action::Save, Event::Saved(true));
    let step = told(step, Action::Save, Event::Saved(true));
    assert_eq!(step.action, Action::Finish(Outcome::Done));
    let untouched = step.run.sync.state.library("groups/9");
    assert_eq!(untouched.last_library_version, 77);
    assert_eq!(untouched.synced.get("z"), Some(&3));
    let lib = step.run.sync.state.library("users/1");
    for i in 0..lib.remarkable_docs.len() {
        assert!(lib.synced.contains_key(lib.remarkable_docs.at(i).0));
    }
}

fn aborted(step: Step) -> Trouble {
    assert!(step.notes.is_empty());
    match step.action {
        Action::Finish(Outcome::Aborted(trouble)) => trouble,
        _ => panic!("the run is to stop"),
    }
}

fn uploading() -> Step {
    let step = listed(State::new(), false, vec![item("a", 1, Some("P"))], 9);
    let step = told(step, fetch_parent("P"), Event::Parent(Some(publication("T", "A"))));
    told(step, download("a"), stored(b"1"))
}

#[test]
fn a_run_stops_where_it_cannot_go_on() {
    let start = || run(&config(&[]), State::new(), false);
    assert_eq!(aborted(start().run.answer(Event::Collections(None))), Trouble::Collections);
    let step = start().run.answer(Event::Collections(Some(vec![])));
    assert_eq!(aborted(step.run.answer(Event::Attachments(None))), Trouble::Attachments);
    assert_eq!(aborted(uploading().run.answer(Event::Connected(false))), Trouble::Connection);
    let step = uploading().run.answer(Event::Connected(true));
    assert_eq!(aborted(step.run.answer(Event::Files(None))), Trouble::Listing);
    let step = uploading().run.answer(Event::Connected(true));
    let step = step.run.answer(Event::Files(Some(vec![])));
    assert_eq!(step.action, Action::CreateFolder { name: text("Papers"), parent: None });
    assert_eq!(aborted(step.run.answer(Event::FolderCreated(None))), Trouble::Folder);
    let step = listed(State::new(), false, vec![], 1);
    assert_eq!(aborted(told(step, Action::Save, Event::Saved(false))), Trouble::Save);
}

#[test]
fn circular_collections_stop_a_run() {
    for dry_run in [true, false] {
        let step = listed(State::new(), dry_run, vec![item("a", 1, Some("P"))], 9);
        let step = told(step, fetch_parent("P"), Event::Parent(Some(publication("T", "X"))));
        assert_eq!(aborted(step), Trouble::CircularCollections);
    }
}

#[test]
fn a_reply_out_of_turn_stops_a_run() {
    let step = run(&config(&[]), State::new(), false);
    assert_eq!(aborted(step.run.answer(Event::Saved(true))), Trouble::OutOfTurn);
    let step = uploading();
    assert_eq!(aborted(step.run.answer(Event::Pdf(PdfReply::Missing))), Trouble::OutOfTurn);
    let over = listed(State::new(), true, vec![], 1);
    assert_eq!(over.action, Action::Finish(Outcome::Done));
    assert_eq!(aborted(over.run.answer(Event::Saved(true))), Trouble::OutOfTurn);
}

#[test]
fn a_key_listed_twice_comes_up_twice() {
    let step = listed(State::new(), false, vec![item("a", 1, None), item("a", 2, None)], 9);
    let step = told(step, download("a"), stored(b"1"));
    let step = told(step, Action::Connect, Event::Connected(true));
    let step = told(step, Action::ListFiles, Event::Files(Some(vec![])));
    let step = told(step, upload("a", b"1", None), Event::Uploaded(Some(file("d", "", "", "", ""))));
    let step = told(step, Action::Save, Event::Saved(true));
    assert_eq!(step.action, download("a"));
}

#[test]
fn notes_are_lines_of_text() {
    let line = |note: Note| note.line();
    assert_eq!(
        line(Note::Fetching { library: text("users/1"), since: 12 }),
        "[users/1] fetching PDF attachments changed since library version 12…"
    );
    assert_eq!(
        line(Note::Counted { library: text("users/1"), changed: 10, new: 3, updated: 7 }),
        "[users/1] 10 changed attachment(s): 3 new, 7 already on the tablet."
    );
    assert_eq!(
        line(Note::WouldUpload { name: text("N"), folder_path: vec![] }),
        "would upload: N"
    );
    assert_eq!(
        line(Note::WouldUpload { name: text("N"), folder_path: vec![text("a"), text("b")] }),
        "would upload: N (folder: a/b)"
    );
    assert_eq!(
        line(Note::WrittenBack { file_name: text("F") }),
        "synced marked-up copy back to Zotero: F"
    );
    assert_eq!(
        line(Note::WriteBackFailed { key: text("K"), cause: None }),
        "FAILED syncing marked-up copy for attachment K"
    );
    assert_eq!(line(Note::Skipped { name: text("N") }), "skipped (no PDF stored in Zotero yet): N");
    assert_eq!(line(Note::Uploaded { name: text("N") }), "uploaded: N");
    assert_eq!(line(Note::UploadFailed { name: text("N") }), "FAILED: N");
    assert_eq!(
        line(Note::FetchingAll { library: text("users/1") }),
        "[users/1] fetching all PDF attachments…"
    );
    assert_eq!(
        line(Note::Marked { library: text("users/1"), count: 4, already: 2 }),
        "[users/1] marked 4 attachment(s) as synced (2 were already recorded)."
    );
    assert_eq!(
        line(Note::BaselineDone),
        "Future `zoterable sync` runs will only upload newly added PDFs."
    );
}

#[test]
fn warnings_tell_of_what_was_not_done() {
    assert!(Note::Skipped { name: text("N") }.is_warning());
    assert!(Note::UploadFailed { name: text("N") }.is_warning());
    assert!(Note::WriteBackFailed { key: text("K"), cause: None }.is_warning());
    assert!(!Note::Uploaded { name: text("N") }.is_warning());
    assert!(!Note::BaselineDone.is_warning());
}
