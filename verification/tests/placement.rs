use zoterable::keymap::KeyMap;
use zoterable::placement::{
    collection_path, collection_path_ends, extract_year, item_placement, sanitize, ItemPlacement,
};
use zoterable::zotero::{Collection, CollectionData, Creator, Item, ItemData};

fn text(s: &str) -> Option<String> {
    Some(s.to_string())
}

fn item(key: &str) -> Item {
    Item {
        key: key.to_string(),
        version: 1,
        data: ItemData {
            content_type: None,
            link_mode: None,
            parent_item: None,
            filename: None,
            title: None,
            date: None,
            creators: vec![],
            collections: vec![],
        },
    }
}

fn last_name(name: &str) -> Creator {
    Creator { last_name: text(name), name: None }
}

fn collections(list: &[(&str, &str, Option<&str>)]) -> KeyMap<Collection> {
    KeyMap::from_pairs(
        list.iter()
            .map(|(key, name, parent)| {
                (
                    key.to_string(),
                    Collection {
                        key: key.to_string(),
                        data: CollectionData {
                            name: name.to_string(),
                            parent_collection: parent.map(|p| p.to_string()),
                        },
                    },
                )
            })
            .collect(),
    )
}

#[test]
fn forbidden_characters_become_single_blanks() {
    assert_eq!(sanitize("a/b\\c:d*e?f\"g<h>i|j"), "a b c d e f g h i j");
    assert_eq!(sanitize("  a \u{7}\t b\u{3000}c  "), "a b c");
    assert_eq!(sanitize(""), "");
    assert_eq!(sanitize("///"), "");
    assert_eq!(sanitize("Ünïcode – fine"), "Ünïcode – fine");
}

#[test]
fn long_names_are_cut_between_characters() {
    let long = "x".repeat(200);
    assert_eq!(sanitize(&long), "x".repeat(128));
    assert_eq!(sanitize(&"x".repeat(128)), "x".repeat(128));
    // The 128th byte falls inside a character of two bytes.
    let name = format!("{}é{}", "x".repeat(127), "y".repeat(10));
    assert_eq!(sanitize(&name), "x".repeat(127));
    // A cut may leave a blank at the end.
    let spaced = format!("{} tail", "x".repeat(127));
    assert_eq!(sanitize(&spaced), format!("{} ", "x".repeat(127)));
}

#[test]
fn names_are_storable_and_stay() {
    for name in ["a/b", "x\u{0}y", "  spaced   out ", &"long name ".repeat(40)] {
        let clean = sanitize(name);
        assert!(clean.len() <= 128);
        assert!(!clean.contains(|c: char| "/\\:*?\"<>|".contains(c) || c.is_control()));
        if !clean.ends_with(' ') {
            assert_eq!(sanitize(&clean), clean);
        }
    }
}

#[test]
fn a_blank_at_the_end_goes_with_the_second_cleaning() {
    let once = sanitize(&format!("{} tail", "x".repeat(127)));
    assert!(once.ends_with(' '));
    let twice = sanitize(&once);
    assert_eq!(twice, "x".repeat(127));
    assert_eq!(sanitize(&twice), twice);
}

#[test]
fn the_year_is_the_first_four_digits_in_a_row() {
    assert_eq!(extract_year("2023-05-01"), text("2023"));
    assert_eq!(extract_year("May 1, 1999"), text("1999"));
    assert_eq!(extract_year("12/31/07"), None);
    assert_eq!(extract_year("123"), None);
    assert_eq!(extract_year(""), None);
    assert_eq!(extract_year("12 345 67890"), text("6789"));
    assert_eq!(extract_year("20230501"), text("2023"));
    assert_eq!(extract_year("٢٠٢٣"), None);
}

#[test]
fn the_path_leads_from_the_outermost_collection_down() {
    let all = collections(&[
        ("A", "Papers", None),
        ("B", "AI: deep/wide", Some("A")),
        ("C", "2024", Some("B")),
    ]);
    let mut parent = item("P");
    parent.data.collections = vec!["C".to_string(), "A".to_string()];
    assert!(collection_path_ends(&parent, &all));
    assert_eq!(collection_path(&parent, &all), ["Papers", "AI deep wide", "2024"]);
}

#[test]
fn the_path_stops_where_a_collection_is_unknown() {
    let all = collections(&[("C", "Inner", Some("GONE"))]);
    let mut parent = item("P");
    assert_eq!(collection_path(&parent, &all), Vec::<String>::new());
    parent.data.collections = vec!["C".to_string()];
    assert_eq!(collection_path(&parent, &all), ["Inner"]);
    parent.data.collections = vec!["GONE".to_string(), "C".to_string()];
    assert_eq!(collection_path(&parent, &all), Vec::<String>::new());
}

#[test]
fn only_circles_have_no_path() {
    let circle = collections(&[("A", "a", Some("B")), ("B", "b", Some("A")), ("C", "c", None)]);
    let mut parent = item("P");
    parent.data.collections = vec!["A".to_string()];
    assert!(!collection_path_ends(&parent, &circle));
    parent.data.collections = vec!["C".to_string()];
    assert!(collection_path_ends(&parent, &circle));
    let own = collections(&[("A", "a", Some("A"))]);
    parent.data.collections = vec!["A".to_string()];
    assert!(!collection_path_ends(&parent, &own));
}

#[test]
fn without_a_publication_an_attachment_keeps_its_name() {
    let none = collections(&[]);
    let mut a = item("KEY1");
    assert_eq!(
        item_placement(&a, None, &none),
        ItemPlacement { name: "KEY1".to_string(), folder_path: vec![] }
    );
    a.data.title = text("A title.PDF");
    assert_eq!(item_placement(&a, None, &none).name, "A title");
    a.data.filename = text("file:name.pdf");
    assert_eq!(item_placement(&a, None, &none).name, "file name");
    a.data.filename = text("odd.pdf.PDF");
    // The upper-case ending is taken away after the lower-case one.
    assert_eq!(item_placement(&a, None, &none).name, "odd.pdf");
    a.data.filename = text("odd.PDF.pdf");
    assert_eq!(item_placement(&a, None, &none).name, "odd");
}

#[test]
fn a_publication_names_its_attachment() {
    let none = collections(&[]);
    let a = item("KEY1");
    let mut p = item("P");
    assert_eq!(item_placement(&a, Some(&p), &none).name, "KEY1");
    p.data.title = text("On Things");
    p.data.date = text("2001-01");
    p.data.creators = vec![last_name("Doe")];
    assert_eq!(item_placement(&a, Some(&p), &none).name, "Doe - 2001 - On Things");
    p.data.creators = vec![last_name("Doe"), Creator { last_name: None, name: text("ACME") }];
    assert_eq!(item_placement(&a, Some(&p), &none).name, "Doe & ACME - 2001 - On Things");
    p.data.creators = vec![
        Creator { last_name: None, name: None },
        last_name("Doe"),
        last_name("Roe"),
        last_name("Poe"),
    ];
    assert_eq!(item_placement(&a, Some(&p), &none).name, "Doe et al. - 2001 - On Things");
    p.data.date = text("n.d.");
    p.data.title = text("");
    assert_eq!(item_placement(&a, Some(&p), &none).name, "Doe et al.");
}

#[test]
fn a_publication_is_filed_in_its_first_collection() {
    let all = collections(&[("A", "Papers", None), ("B", "AI", Some("A"))]);
    let a = item("KEY1");
    let mut p = item("P");
    p.data.title = text("T");
    p.data.collections = vec!["B".to_string()];
    assert_eq!(
        item_placement(&a, Some(&p), &all),
        ItemPlacement {
            name: "T".to_string(),
            folder_path: vec!["Papers".to_string(), "AI".to_string()],
        }
    );
}
