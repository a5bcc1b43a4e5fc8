use zoterable::folders::{is_folder, marked_up_name, FolderIndex, FolderWalk, WalkStep};
use zoterable::remarkable::FileEntry;

fn entry(id: &str, name: &str, kind: &str, parent: &str) -> FileEntry {
    FileEntry {
        id: id.to_string(),
        hash: "h".to_string(),
        file_name: name.to_string(),
        entry_type: kind.to_string(),
        parent: parent.to_string(),
    }
}

fn walk(left: &[&str], folder: &str) -> FolderWalk {
    FolderWalk { left: left.iter().map(|s| s.to_string()).collect(), folder: folder.to_string() }
}

fn index() -> FolderIndex {
    FolderIndex::from_files(vec![
        entry("f1", "Papers", "CollectionType", ""),
        entry("f2", "AI", "folder", "f1"),
        entry("d1", "Doc", "DocumentType", "f1"),
        entry("d2", "Papers", "", ""),
    ])
}

#[test]
fn folders_are_told_by_their_type() {
    assert!(is_folder(&entry("i", "n", "CollectionType", "")));
    assert!(is_folder(&entry("i", "n", "FOLDER", "")));
    assert!(!is_folder(&entry("i", "n", "DocumentType", "")));
    assert!(!is_folder(&entry("i", "n", "", "")));
}

#[test]
fn a_listing_is_sorted_into_folders_and_documents() {
    let index = index();
    assert_eq!(index.folder("", "Papers"), Some("f1".to_string()));
    assert_eq!(index.folder("f1", "AI"), Some("f2".to_string()));
    assert_eq!(index.folder("", "AI"), None);
    assert_eq!(index.doc("d1"), Some(&entry("d1", "Doc", "DocumentType", "f1")));
    assert_eq!(index.doc("d2").map(|d| d.file_name.as_str()), Some("Papers"));
    assert_eq!(index.doc("f1"), None);
}

#[test]
fn a_later_entry_replaces_one_in_the_same_place() {
    let index = FolderIndex::from_files(vec![
        entry("old", "A", "folder", ""),
        entry("new", "A", "folder", ""),
        entry("d", "one", "", ""),
        entry("d", "two", "", ""),
    ]);
    assert_eq!(index.folder("", "A"), Some("new".to_string()));
    assert_eq!(index.doc("d").map(|d| d.file_name.as_str()), Some("two"));
}

#[test]
fn a_path_of_known_folders_is_walked_to_its_end() {
    assert_eq!(
        index().ensure_folder_path(walk(&["Papers", "AI"], "")),
        WalkStep::Reached(Some("f2".to_string()))
    );
    assert_eq!(index().ensure_folder_path(walk(&[], "")), WalkStep::Reached(None));
}

#[test]
fn the_first_missing_folder_is_to_be_made() {
    assert_eq!(
        index().ensure_folder_path(walk(&["Papers", "New", "Deep"], "")),
        WalkStep::Make {
            walk: walk(&["New", "Deep"], "f1"),
            name: "New".to_string(),
            parent: Some("f1".to_string()),
        }
    );
    assert_eq!(
        index().ensure_folder_path(walk(&["Other"], "")),
        WalkStep::Make { walk: walk(&["Other"], ""), name: "Other".to_string(), parent: None }
    );
}

#[test]
fn a_made_folder_is_found_from_then_on() {
    let mut index = index();
    let made = entry("f3", "New", "CollectionType", "f1");
    let on = index.folder_made(walk(&["New", "Deep"], "f1"), made.clone());
    assert_eq!(on, walk(&["Deep"], "f3"));
    assert_eq!(index.folder("f1", "New"), Some("f3".to_string()));
    assert_eq!(index.doc("f3"), Some(&made));
    assert_eq!(
        index.ensure_folder_path(walk(&["Papers", "New"], "")),
        WalkStep::Reached(Some("f3".to_string()))
    );
}

#[test]
fn a_walked_path_is_found_with_all_its_parts() {
    let mut index = index();
    let path = ["Papers", "New", "Deep"];
    let mut on = walk(&path, "");
    let mut made = 0;
    let end = loop {
        match index.ensure_folder_path(on) {
            WalkStep::Reached(folder) => break folder,
            WalkStep::Make { walk, name, parent } => {
                made += 1;
                let id = format!("made{made}");
                let created = entry(&id, &name, "folder", &parent.unwrap_or_default());
                on = index.folder_made(walk, created);
            }
        }
    };
    assert_eq!(made, 2);
    assert_eq!(end, Some("made2".to_string()));
    assert_eq!(index.ensure_folder_path(walk(&path, "")), WalkStep::Reached(end));
    for n in 0..3 {
        assert!(matches!(index.ensure_folder_path(walk(&path[..n], "")), WalkStep::Reached(_)));
    }
}

#[test]
fn a_made_folder_without_identity_leads_to_the_top() {
    let mut index = FolderIndex::new();
    let on = index.folder_made(walk(&["New"], ""), entry("", "New", "folder", ""));
    assert_eq!(index.doc(""), None);
    assert_eq!(index.ensure_folder_path(on), WalkStep::Reached(None));
    assert_eq!(index.ensure_folder_path(walk(&["New"], "")), WalkStep::Reached(None));
}

#[test]
fn documents_without_identity_are_not_kept() {
    let mut index = FolderIndex::new();
    index.add_known(entry("", "n", "", ""));
    assert_eq!(index.doc(""), None);
    index.add_known(entry("x", "n", "", ""));
    assert!(index.doc("x").is_some());
}

#[test]
fn copies_go_back_as_pdf_files() {
    assert_eq!(marked_up_name("  Paper "), "Paper.pdf");
    assert_eq!(marked_up_name("Paper.PDF"), "Paper.PDF");
    assert_eq!(marked_up_name("Paper.pdf\n"), "Paper.pdf");
    assert_eq!(marked_up_name(""), ".pdf");
}
