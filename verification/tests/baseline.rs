use zoterable::baseline::baseline;
use zoterable::config::Config;
use zoterable::events::{Action, Event, Note, Outcome, Trouble};
use zoterable::keymap::KeyMap;
use zoterable::state::{LibraryState, State};
use zoterable::sync::run;
use zoterable::zotero::{Item, ItemData};

fn config() -> Config {
    Config {
        zotero_user_id: "1".to_string(),
        zotero_api_key: "k".to_string(),
        zotero_group_ids: vec!["2".to_string()],
        remarkable_auth_host: None,
        remarkable_upload_host: None,
    }
}

fn item(key: &str, version: u64) -> Item {
    Item {
        key: key.to_string(),
        version,
        data: ItemData {
            content_type: None,
            link_mode: None,
            parent_item: None,
            filename: None,
            title: None,
            date: None,
            creators: vec![],
            collections: vec![],
        },
    }
}

fn everything(library: &str) -> Action {
    Action::ListAttachments { library: library.to_string(), since: 0 }
}

fn known() -> State {
    let mut lib = LibraryState::new();
    lib.last_library_version = 3;
    lib.synced = KeyMap::from_pairs(vec![("a".to_string(), 1), ("old".to_string(), 1)]);
    let mut state = State::new();
    state.set_library("users/1", &lib);
    state
}

fn listing() -> Event {
    Event::Attachments(Some((vec![item("a", 5), item("b", 6)], 9)))
}

#[test]
fn everything_is_recorded_and_saved_once() {
    let step = baseline(&config(), known());
    assert_eq!(step.notes, [Note::FetchingAll { library: "users/1".to_string() }]);
    assert_eq!(step.action, everything("users/1"));
    let step = step.run.answer(listing());
    assert_eq!(
        step.notes,
        [
            Note::Marked { library: "users/1".to_string(), count: 2, already: 2 },
            Note::FetchingAll { library: "groups/2".to_string() },
        ]
    );
    assert_eq!(step.action, everything("groups/2"));
    let step = step.run.answer(Event::Attachments(Some((vec![], 4))));
    assert_eq!(
        step.notes,
        [Note::Marked { library: "groups/2".to_string(), count: 0, already: 0 }]
    );
    assert_eq!(step.action, Action::Save);
    let lib = step.run.state.library("users/1");
    assert_eq!(lib.last_library_version, 9);
    assert_eq!(lib.synced.get("a"), Some(&5));
    assert_eq!(lib.synced.get("b"), Some(&6));
    assert_eq!(lib.synced.get("old"), Some(&1));
    assert_eq!(step.run.state.library("groups/2").last_library_version, 4);
    let step = step.run.answer(Event::Saved(true));
    assert_eq!(step.notes, [Note::BaselineDone]);
    assert_eq!(step.action, Action::Finish(Outcome::Done));
}

#[test]
fn after_a_baseline_nothing_listed_is_new() {
    let step = baseline(&config(), known()).run.answer(listing());
    let step = run(&config(), step.run.state, false);
    let step = step.run.answer(Event::Collections(Some(vec![])));
    assert_eq!(
        step.action,
        Action::ListAttachments { library: "users/1".to_string(), since: 9 }
    );
    let step = step.run.answer(listing());
    assert_eq!(
        step.notes,
        [Note::Counted { library: "users/1".to_string(), changed: 2, new: 0, updated: 2 }]
    );
    assert_eq!(step.action, Action::Save);
}

#[test]
fn a_sync_after_a_baseline_sends_only_additions() {
    let step = baseline(&config(), State::new()).run.answer(listing());
    let step = step.run.answer(Event::Attachments(Some((vec![], 4))));
    let mut step = run(&config(), step.run.state, false);
    let mut added = vec![item("b", 9), item("a", 9)];
    loop {
        let event = match step.action {
            Action::ListCollections { .. } => Event::Collections(Some(vec![])),
            Action::ListAttachments { .. } => {
                Event::Attachments(Some((std::mem::take(&mut added), 12)))
            }
            Action::Save => Event::Saved(true),
            Action::Finish(outcome) => {
                assert_eq!(outcome, Outcome::Done);
                break;
            }
            _ => panic!("nothing is to be sent"),
        };
        step = step.run.answer(event);
    }
    assert_eq!(step.run.sync.state.library("users/1").synced.get("b"), Some(&9));
}

#[test]
fn a_baseline_stops_where_it_cannot_go_on() {
    let stopped = |trouble: Trouble| Action::Finish(Outcome::Aborted(trouble));
    let step = baseline(&config(), known()).run.answer(Event::Attachments(None));
    assert_eq!(step.action, stopped(Trouble::Attachments));
    let step = baseline(&config(), known()).run.answer(Event::Connected(true));
    assert_eq!(step.action, stopped(Trouble::OutOfTurn));
    let step = baseline(&config(), known()).run.answer(listing()).run.answer(listing());
    assert_eq!(step.action, Action::Save);
    let step = step.run.answer(Event::Saved(false));
    assert_eq!(step.action, stopped(Trouble::Save));
    assert!(step.notes.is_empty());
}
