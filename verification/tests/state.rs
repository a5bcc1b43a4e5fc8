use zoterable::keymap::{Duplicate, KeyMap};
use zoterable::state::{is_zero, LibraryState, RemarkableDocState, State};

fn records(list: &[(&str, u64)]) -> KeyMap<u64> {
    KeyMap::from_pairs(list.iter().map(|(k, v)| (k.to_string(), *v)).collect())
}

fn shown(map: &KeyMap<u64>) -> Vec<(String, u64)> {
    (0..map.len()).map(|i| (map.at(i).0.clone(), *map.at(i).1)).collect()
}

fn pairs(list: &[(&str, u64)]) -> Vec<(String, u64)> {
    list.iter().map(|(k, v)| (k.to_string(), *v)).collect()
}

#[test]
fn a_map_keeps_one_value_for_each_key_in_order() {
    let mut map = records(&[("b", 1), ("a", 2), ("b", 3)]);
    assert_eq!(shown(&map), pairs(&[("b", 3), ("a", 2)]));
    map.insert("a".to_string(), 9);
    map.insert("c".to_string(), 4);
    assert_eq!(shown(&map), pairs(&[("b", 3), ("a", 9), ("c", 4)]));
    assert_eq!(map.get("a"), Some(&9));
    assert_eq!(map.get("z"), None);
    assert!(map.contains_key("c"));
    assert!(!map.is_empty());
    assert_eq!(map.len(), 3);
    assert_eq!(shown(&map.duplicate()), shown(&map));
    assert!(KeyMap::<u64>::new().is_empty());
}

#[test]
fn only_zero_is_zero() {
    assert!(is_zero(&0));
    assert!(!is_zero(&1));
}

#[test]
fn nothing_is_known_where_nothing_could_be_read() {
    let state = State::load(None, "users/1");
    assert!(state.libraries.is_empty());
    assert!(state.synced.is_empty());
    assert_eq!(state.last_library_version, 0);
    let lib = state.library("users/1");
    assert_eq!(lib.last_library_version, 0);
    assert!(lib.synced.is_empty());
    assert!(lib.remarkable_docs.is_empty());
}

#[test]
fn a_state_of_many_libraries_is_taken_as_it_is() {
    let mut state = State::new();
    let mut lib = LibraryState::new();
    lib.last_library_version = 5;
    lib.synced = records(&[("a", 1)]);
    state.set_library("groups/2", &lib);
    let state = State::load(Some(state), "users/1");
    assert_eq!(state.libraries.len(), 1);
    assert_eq!(state.library("groups/2").last_library_version, 5);
    assert!(!state.libraries.contains_key("users/1"));
}

#[test]
fn a_state_of_one_library_is_moved_to_the_personal_library() {
    let mut state = State::new();
    state.last_library_version = 12;
    state.synced = records(&[("a", 1), ("b", 2)]);
    let state = State::load(Some(state), "users/1");
    assert_eq!(state.last_library_version, 0);
    assert!(state.synced.is_empty());
    let lib = state.library("users/1");
    assert_eq!(lib.last_library_version, 12);
    assert_eq!(shown(&lib.synced), pairs(&[("a", 1), ("b", 2)]));
}

#[test]
fn what_is_moved_loses_nothing() {
    let mut state = State::new();
    let mut lib = LibraryState::new();
    lib.last_library_version = 20;
    lib.synced = records(&[("a", 7), ("c", 3)]);
    lib.remarkable_docs.insert(
        "c".to_string(),
        RemarkableDocState { doc_id: "d".to_string(), last_hash: "h".to_string() },
    );
    state.set_library("users/1", &lib);
    state.set_library("groups/2", &LibraryState::new());
    state.last_library_version = 12;
    state.synced = records(&[("a", 1), ("b", 2)]);
    let state = State::load(Some(state), "users/1");
    let lib = state.library("users/1");
    assert_eq!(lib.last_library_version, 20);
    assert_eq!(shown(&lib.synced), pairs(&[("a", 1), ("c", 3), ("b", 2)]));
    assert_eq!(lib.remarkable_docs.get("c").map(|d| d.last_hash.as_str()), Some("h"));
    assert!(state.library("groups/2").synced.is_empty());
}

#[test]
fn loading_again_changes_nothing() {
    let mut state = State::new();
    state.synced = records(&[("a", 1)]);
    let once = State::load(Some(state), "users/1");
    let before = shown(&once.library("users/1").synced);
    let twice = State::load(Some(once), "users/1");
    assert_eq!(shown(&twice.library("users/1").synced), before);
    assert_eq!(twice.libraries.len(), 1);
    let other = State::load(Some(twice), "users/2");
    assert_eq!(shown(&other.library("users/1").synced), before);
    assert_eq!(other.libraries.len(), 1);
}
