//! What is asked for, what is remembered and what is told.
use vstd::prelude::*;

use crate::baseline;
use crate::baseline::{BaselinePhaseView, BaselineView};
use crate::config;
use crate::config::Config;
use crate::events;
use crate::events::{ActionView, EventView, NoteView, Outcome, Trouble};
use crate::keymap;
use crate::number;
use crate::state;
use crate::state::{LibraryView, StateView};
use crate::step_laws;
use crate::sync_model;
use crate::text;
use crate::zotero::ItemView;

verus! {

/// The libraries of a config are the user's own and then the groups, each once for each time it is
/// named and in the order in which they are.
pub proof fn the_own_library_comes_first(config: Config)
    ensures
        config::library_prefixes(config).len() == 1 + config.zotero_group_ids@.len(),
        config::library_prefixes(config)[0] == "users/"@ + config.zotero_user_id@,
        forall|i: int|
            0 <= i < config.zotero_group_ids@.len() ==> config::library_prefixes(config)[i + 1]
                == "groups/"@ + (#[trigger] config.zotero_group_ids@[i])@,
{
    let all = config::library_prefixes(config);
    assert forall|i: int| 0 <= i < config.zotero_group_ids@.len() implies all[i + 1]
        == "groups/"@ + (#[trigger] config.zotero_group_ids@[i])@ by {
        assert(config.zotero_group_ids.deep_view()[i] == config.zotero_group_ids@[i]@);
    }
}

/// A library's path names its kind and its identity.
pub proof fn libraries_are_named_by_kind(id: Seq<char>)
    ensures
        config::user_prefix(id) == "users/"@ + id,
        config::group_prefix(id) == "groups/"@ + id,
{
}

/// A setting of nothing but whitespace asks for the default, as none does, and any other for what it
/// says without the whitespace round it.
pub proof fn blank_settings_ask_for_the_default(value: Seq<char>, default: Seq<char>)
    ensures
        text::trimmed(value).len() == 0 ==> config::endpoint_of(Some(value), default)
            == config::endpoint_of(None, default),
        text::trimmed(value).len() > 0 ==> config::endpoint_of(Some(value), default)
            == config::endpoint_of(None, text::trimmed(value)),
{
}

/// A host is the setting up to the slashes at its end: nothing but those is taken away, and none is
/// left.
pub proof fn hosts_lose_the_slashes_at_their_end(host: Seq<char>)
    ensures
        ({
            let r = config::endpoint_of(None, host);
            &&& r.len() <= host.len()
            &&& r == host.take(r.len() as int)
            &&& forall|i: int| r.len() <= i < host.len() ==> #[trigger] host[i] == '/'
            &&& r.len() > 0 ==> r.last() != '/'
        }),
{
    reveal_strlit("/");
    lemma_slashes(host);
}

proof fn lemma_slashes(host: Seq<char>)
    ensures
        ({
            let r = text::without_tails(host, "/"@);
            &&& r.len() <= host.len()
            &&& r == host.take(r.len() as int)
            &&& forall|i: int| r.len() <= i < host.len() ==> #[trigger] host[i] == '/'
            &&& r.len() > 0 ==> r.last() != '/'
        }),
    decreases host.len(),
{
    reveal_strlit("/");
    if text::ends_in(host, "/"@) {
        let less = host.take(host.len() - 1);
        lemma_slashes(less);
        let r = text::without_tails(host, "/"@);
        assert(host.skip(host.len() - 1)[0] == host[host.len() - 1]);
        assert(r =~= host.take(r.len() as int));
        assert forall|i: int| r.len() <= i < host.len() implies #[trigger] host[i] == '/' by {
            if i < less.len() {
                assert(less[i] == host[i]);
            }
        }
    } else {
        assert(host.take(host.len() as int) =~= host);
        if host.len() > 0 && host.last() == '/' {
            assert(host.skip(host.len() - 1) =~= "/"@);
        }
    }
}

/// What is written down of a library is what is known of it from then on, and nothing else changes. A
/// library of which nothing was written down has version 0 and no records and no documents.
pub proof fn libraries_are_known_as_written_down(
    state: StateView,
    library: Seq<char>,
    lib: LibraryView,
    other: Seq<char>,
)
    ensures
        ({
            let after = state::with_library(state, library, lib);
            &&& state::library_in(after, library) == lib
            &&& other != library ==> state::library_in(after, other) == state::library_in(
                state,
                other,
            )
            &&& after.libraries.dom() == state.libraries.dom().insert(library)
            &&& after.last_library_version == state.last_library_version
            &&& after.synced == state.synced
        }),
        state.libraries.contains_key(other) ==> state::library_in(state, other)
            == state.libraries[other],
        !state.libraries.contains_key(other) ==> {
            let new = state::library_in(state, other);
            &&& new.last_library_version == 0
            &&& new.synced.dom() == Set::<Seq<char>>::empty()
            &&& new.docs.dom() == Set::<Seq<char>>::empty()
            &&& new.doc_order.len() == 0
        },
        state::new_state().libraries.dom() == Set::<Seq<char>>::empty(),
        state::new_state().synced.dom() == Set::<Seq<char>>::empty(),
        state::new_state().last_library_version == 0,
{
}

/// A state in the format for one library becomes one in which that library is the user's own: it has
/// the later of the two versions, and the record of each key from the old format, or else the one that
/// it had. Its documents, the other libraries, and a state that has nothing in the old format stay as
/// they are, and nothing is left in the old format.
pub proof fn old_states_become_the_own_library(
    state: StateView,
    own: Seq<char>,
    key: Seq<char>,
    other: Seq<char>,
)
    ensures
        ({
            let after = state::migrated(state, own);
            let was = state::library_in(state, own);
            let is = state::library_in(after, own);
            let old = state.last_library_version > 0 || exists|k: Seq<char>| #[trigger]
                state.synced.contains_key(k);
            &&& !old ==> after == state
            &&& old ==> {
                &&& is.last_library_version >= was.last_library_version
                &&& is.last_library_version >= state.last_library_version
                &&& is.last_library_version == was.last_library_version || is.last_library_version
                    == state.last_library_version
                &&& is.synced.contains_key(key) <==> was.synced.contains_key(key)
                    || state.synced.contains_key(key)
                &&& state.synced.contains_key(key) ==> is.synced[key] == state.synced[key]
                &&& was.synced.contains_key(key) && !state.synced.contains_key(key)
                    ==> is.synced[key] == was.synced[key]
                &&& is.docs == was.docs
                &&& is.doc_order == was.doc_order
                &&& after.libraries.contains_key(own)
            }
            &&& other != own ==> {
                &&& after.libraries.contains_key(other) == state.libraries.contains_key(other)
                &&& state::library_in(after, other) == state::library_in(state, other)
            }
            &&& after.last_library_version == 0
            &&& !after.synced.contains_key(key)
        }),
{
    if state.synced != Map::<Seq<char>, u64>::empty() {
        if forall|k: Seq<char>| !(#[trigger] state.synced.contains_key(k)) {
            assert(state.synced =~= Map::<Seq<char>, u64>::empty());
        }
    }
}

/// A baseline goes through the libraries in order and lists all of each, whatever version it is known
/// at. Once they are all done the state is written down.
pub proof fn baselines_list_each_library_in_full(
    libraries: Seq<Seq<char>>,
    state: StateView,
    notes: Seq<NoteView>,
)
    ensures
        ({
            let s = baseline::next_listing(libraries, state, notes);
            &&& s.run.state == state
            &&& libraries.len() == 0 ==> {
                &&& s.action is Save
                &&& s.notes == notes
                &&& s.run.phase is Saved
                &&& s.run.libraries.len() == 0
            }
            &&& libraries.len() > 0 ==> {
                &&& s.action == (ActionView::ListAttachments { library: libraries[0], since: 0 })
                &&& s.notes == notes + seq![NoteView::FetchingAll { library: libraries[0] }]
                &&& s.run.phase == (BaselinePhaseView::Attachments { library: libraries[0] })
                &&& s.run.libraries == libraries.skip(1)
            }
        }),
{
    assert(libraries.len() > 0 ==> libraries.skip(1) =~= libraries.drop_first());
}

/// The record of a key is the version of the last item with that key, or what it was where there is no
/// such item.
pub proof fn records_hold_the_last_version(
    synced: Map<Seq<char>, u64>,
    items: Seq<ItemView>,
    key: Seq<char>,
)
    ensures
        forall|i: int|
            #![trigger items[i]]
            step_laws::comes_last(items, key, i) ==> sync_model::recorded(synced, items).contains_key(key)
                && sync_model::recorded(synced, items)[key] == items[i].version,
        (forall|i: int| 0 <= i < items.len() ==> (#[trigger] items[i]).key != key) ==> {
            &&& sync_model::recorded(synced, items).contains_key(key) == synced.contains_key(key)
            &&& sync_model::recorded(synced, items)[key] == synced[key]
        },
    decreases items.len(),
{
    if items.len() > 0 {
        let before = items.drop_last();
        records_hold_the_last_version(synced, before, key);
        assert forall|i: int| step_laws::comes_last(items, key, i) implies sync_model::recorded(
            synced,
            items,
        ).contains_key(key) && sync_model::recorded(synced, items)[key] == (
        #[trigger] items[i]).version by {
            if i < before.len() {
                assert(items[items.len() - 1].key != key);
                assert forall|j: int| i < j < before.len() implies (
                #[trigger] before[j]).key != key by {
                    assert(items[j].key != key);
                }
                assert(before[i] == items[i]);
                assert(step_laws::comes_last(before, key, i));
            }
        }
        if forall|i: int| 0 <= i < items.len() ==> (#[trigger] items[i]).key != key {
            assert(items[items.len() - 1].key != key);
            assert forall|j: int| 0 <= j < before.len() implies (#[trigger] before[j]).key
                != key by {
                assert(items[j].key != key);
            }
        }
    }
}

/// A baseline that has been told of all attachments of a library records the version of each, sets the
/// library to the version that it was listed at, tells how many were listed and how many records there
/// were before, and goes on to the next library. Nothing else of the state changes.
pub proof fn baselines_record_what_was_listed(
    run: BaselineView,
    library: Seq<char>,
    items: Seq<ItemView>,
    version: u64,
)
    requires
        run.phase == (BaselinePhaseView::Attachments { library }),
    ensures
        ({
            let s = baseline::baseline_after(run, EventView::Attachments(Some((items, version))));
            let was = state::library_in(run.state, library);
            let lib = LibraryView {
                last_library_version: version,
                synced: sync_model::recorded(was.synced, items),
                docs: was.docs,
                doc_order: was.doc_order,
            };
            let after = StateView {
                libraries: run.state.libraries.insert(library, lib),
                last_library_version: run.state.last_library_version,
                synced: run.state.synced,
            };
            let told = seq![
                NoteView::Marked { library, count: items.len(), already: was.synced.len() },
            ];
            s == baseline::next_listing(run.libraries, after, told)
        }),
{
}

/// A baseline ends in success once the state is written down. It gives up, with all that it knows kept
/// and nothing told, where a listing or the writing fails, and on a reply to a request that it did not
/// make.
pub proof fn baselines_end_with_the_state_saved(run: BaselineView, event: EventView)
    requires
        !(run.phase is Attachments && event is Attachments && event->Attachments_0 is Some),
    ensures
        ({
            let s = baseline::baseline_after(run, event);
            let done = run.phase is Saved && event == EventView::Saved(true);
            &&& s.run.state == run.state
            &&& s.run.libraries == run.libraries
            &&& s.run.phase is Over
            &&& done ==> {
                &&& s.action == ActionView::Finish(Outcome::Done)
                &&& s.notes == seq![NoteView::BaselineDone]
            }
            &&& !done ==> {
                &&& s.action is Finish
                &&& s.action->Finish_0 is Aborted
                &&& s.notes.len() == 0
            }
            &&& run.phase is Attachments && event is Attachments ==> s.action
                == ActionView::Finish(Outcome::Aborted(Trouble::Attachments))
            &&& run.phase is Saved && event == EventView::Saved(false) ==> s.action
                == ActionView::Finish(Outcome::Aborted(Trouble::Save))
            &&& run.phase is Over || (run.phase is Attachments && !(event is Attachments)) || (
            run.phase is Saved && !(event is Saved)) ==> s.action == ActionView::Finish(
                Outcome::Aborted(Trouble::OutOfTurn),
            )
        }),
{
}

/// What is told of a library begins with the library in brackets.
pub proof fn lines_begin_with_the_library(
    library: Seq<char>,
    since: u64,
    changed: nat,
    new: nat,
    updated: nat,
)
    ensures
        events::line_of(NoteView::Fetching { library, since }) == "["@ + library
            + "] fetching PDF attachments changed since library version "@ + number::decimal_text(
            since as nat,
        ) + "…"@,
        events::line_of(NoteView::Counted { library, changed, new, updated }) == "["@ + library
            + "] "@ + number::decimal_text(changed) + " changed attachment(s): "@
            + number::decimal_text(new) + " new, "@ + number::decimal_text(updated)
            + " already on the tablet."@,
        events::line_of(NoteView::FetchingAll { library }) == "["@ + library
            + "] fetching all PDF attachments…"@,
        events::line_of(NoteView::Marked { library, count: changed, already: new }) == "["@
            + library + "] marked "@ + number::decimal_text(changed)
            + " attachment(s) as synced ("@ + number::decimal_text(new)
            + " were already recorded)."@,
{
    reveal_strlit("] ");
    reveal_strlit("fetching PDF attachments changed since library version ");
    reveal_strlit("] fetching PDF attachments changed since library version ");
    reveal_strlit("fetching all PDF attachments…");
    reveal_strlit("] fetching all PDF attachments…");
    reveal_strlit("marked ");
    reveal_strlit("] marked ");
    assert("] "@ + "fetching PDF attachments changed since library version "@
        =~= "] fetching PDF attachments changed since library version "@);
    assert("] "@ + "fetching all PDF attachments…"@ =~= "] fetching all PDF attachments…"@);
    assert("] "@ + "marked "@ =~= "] marked "@);
    let a = number::decimal_text(since as nat);
    assert("["@ + library + "] "@ + ("fetching PDF attachments changed since library version "@ + a
        + "…"@) =~= "["@ + library + ("] "@
        + "fetching PDF attachments changed since library version "@) + a + "…"@);
    assert("["@ + library + "] "@ + "fetching all PDF attachments…"@ =~= "["@ + library + ("] "@
        + "fetching all PDF attachments…"@));
    let b = number::decimal_text(changed);
    let c = number::decimal_text(new);
    let d = number::decimal_text(updated);
    assert("["@ + library + "] "@ + (b + " changed attachment(s): "@ + c + " new, "@ + d
        + " already on the tablet."@) =~= "["@ + library + "] "@ + b + " changed attachment(s): "@
        + c + " new, "@ + d + " already on the tablet."@);
    assert("["@ + library + "] "@ + ("marked "@ + b + " attachment(s) as synced ("@ + c
        + " were already recorded)."@) =~= "["@ + library + ("] "@ + "marked "@) + b
        + " attachment(s) as synced ("@ + c + " were already recorded)."@);
}

/// What is told of a document ends with its name, or with the key of its attachment. Only a document
/// that would be uploaded has its folders behind its name, where it has any.
pub proof fn lines_end_with_the_document(
    name: Seq<char>,
    folder_path: Seq<Seq<char>>,
    note: NoteView,
)
    ensures
        folder_path.len() == 0 ==> events::line_of(NoteView::WouldUpload { name, folder_path })
            == "would upload: "@ + name,
        folder_path.len() > 0 ==> events::line_of(NoteView::WouldUpload { name, folder_path })
            == "would upload: "@ + name + " (folder: "@ + text::joined(folder_path, "/"@) + ")"@,
        events::line_of(NoteView::WrittenBack { file_name: name })
            == "synced marked-up copy back to Zotero: "@ + name,
        note is WriteBackFailed ==> events::line_of(note)
            == "FAILED syncing marked-up copy for attachment "@ + note->WriteBackFailed_key,
        events::line_of(NoteView::Skipped { name }) == "skipped (no PDF stored in Zotero yet): "@
            + name,
        events::line_of(NoteView::Uploaded { name }) == "uploaded: "@ + name,
        events::line_of(NoteView::UploadFailed { name }) == "FAILED: "@ + name,
        events::line_of(NoteView::BaselineDone)
            == "Future `zoterable sync` runs will only upload newly added PDFs."@,
        events::is_warning_note(note) <==> !(note is Fetching || note is Counted
            || note is WouldUpload || note is WrittenBack || note is Uploaded || note is FetchingAll
            || note is Marked || note is BaselineDone),
{
}

/// A key that is known keeps its place when it is given a value, and a new one comes behind all others.
pub proof fn new_keys_come_last(keys: Seq<Seq<char>>, key: Seq<char>)
    ensures
        (exists|i: int| 0 <= i < keys.len() && #[trigger] keys[i] == key) ==> keymap::keys_with(
            keys,
            key,
        ) == keys,
        (forall|i: int| 0 <= i < keys.len() ==> #[trigger] keys[i] != key) ==> keymap::keys_with(
            keys,
            key,
        ) == keys + seq![key],
{
}

/// Whether the pair at a place has a key.
pub open spec fn has_key_at<V>(pairs: Seq<(String, V)>, key: Seq<char>, i: int) -> bool {
    0 <= i < pairs.len() && pairs[i].0@ == key
}

/// Pairs leave behind, for each key among them, the value of the last pair with that key.
pub proof fn the_last_pair_counts<V: DeepView>(pairs: Seq<(String, V)>, key: Seq<char>, i: int)
    ensures
        has_key_at(pairs, key, i) ==> keymap::map_of_pairs(pairs).contains_key(key),
        has_key_at(pairs, key, i) && (forall|j: int| i < j ==> !has_key_at(pairs, key, j))
            ==> keymap::map_of_pairs(pairs)[key] == pairs[i].1.deep_view(),
        (forall|j: int| !has_key_at(pairs, key, j)) ==> !keymap::map_of_pairs(pairs).contains_key(
            key,
        ),
    decreases pairs.len(),
{
    if pairs.len() > 0 {
        let before = pairs.drop_last();
        let last = pairs.len() - 1;
        the_last_pair_counts(before, key, i);
        assert forall|j: int| j < last implies has_key_at(pairs, key, j) == has_key_at(
            before,
            key,
            j,
        ) by {
            if 0 <= j {
                assert(before[j] == pairs[j]);
            }
        }
        assert forall|j: int| last <= j implies !has_key_at(before, key, j) by {}
        if i < last && has_key_at(pairs, key, i) && (forall|j: int|
            i < j ==> !has_key_at(pairs, key, j)) {
            assert(!has_key_at(pairs, key, last));
            assert forall|j: int| i < j implies !has_key_at(before, key, j) by {
                assert(!has_key_at(pairs, key, j));
            }
            assert(before[i] == pairs[i]);
        }
        if forall|j: int| !has_key_at(pairs, key, j) {
            assert(!has_key_at(pairs, key, last));
            assert forall|j: int| !has_key_at(before, key, j) by {
                assert(!has_key_at(pairs, key, j));
            }
        }
    }
}

/// Pairs leave behind each of their keys once, and no other, in the order in which they first came:
/// further pairs only add keys behind those that were there.
pub proof fn keys_stay_in_order<V>(a: Seq<(String, V)>, b: Seq<(String, V)>, key: Seq<char>)
    ensures
        keymap::keys_of_pairs(a + b).contains(key) <==> exists|i: int|
            has_key_at(a + b, key, i),
        keymap::keys_of_pairs(a + b).no_duplicates(),
        keymap::keys_of_pairs(a).len() <= keymap::keys_of_pairs(a + b).len(),
        keymap::keys_of_pairs(a + b).take(keymap::keys_of_pairs(a).len() as int)
            == keymap::keys_of_pairs(a),
    decreases b.len(),
{
    lemma_keys_of_pairs(a + b, key);
    let first = keymap::keys_of_pairs(a);
    if b.len() == 0 {
        assert(a + b =~= a);
        assert(first.take(first.len() as int) =~= first);
    } else {
        let before = b.drop_last();
        keys_stay_in_order(a, before, key);
        assert((a + b).drop_last() =~= a + before);
        let some = keymap::keys_of_pairs(a + before);
        let all = keymap::keys_of_pairs(a + b);
        assert(all == some || all == some.push((a + b).last().0@));
        assert(all.take(first.len() as int) =~= some.take(first.len() as int));
    }
}

proof fn lemma_keys_of_pairs<V>(pairs: Seq<(String, V)>, key: Seq<char>)
    ensures
        keymap::keys_of_pairs(pairs).contains(key) <==> exists|i: int| has_key_at(pairs, key, i),
        keymap::keys_of_pairs(pairs).no_duplicates(),
    decreases pairs.len(),
{
    if pairs.len() > 0 {
        let before = pairs.drop_last();
        let last = pairs.len() - 1;
        lemma_keys_of_pairs(before, key);
        let some = keymap::keys_of_pairs(before);
        let all = keymap::keys_of_pairs(pairs);
        if some.contains(key) {
            let i = choose|i: int| has_key_at(before, key, i);
            assert(has_key_at(pairs, key, i));
            let k = choose|k: int| 0 <= k < some.len() && some[k] == key;
            assert(all[k] == key);
        }
        if pairs.last().0@ == key {
            assert(has_key_at(pairs, key, last));
            if !some.contains(key) {
                assert(all[some.len() as int] == key);
            }
        }
        if exists|i: int| has_key_at(pairs, key, i) {
            let i = choose|i: int| has_key_at(pairs, key, i);
            if i < last {
                assert(has_key_at(before, key, i));
            }
        }
        if all.contains(key) && !some.contains(key) {
            let k = choose|k: int| 0 <= k < all.len() && all[k] == key;
            assert(k == some.len());
        }
    }
}

} // verus!
