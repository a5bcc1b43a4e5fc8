//! What holds of every sync, whatever comes of its actions.
use vstd::prelude::*;

use crate::archive;
use crate::events::{ActionView, EventView, NoteView, Outcome, PdfReplyView};
use crate::folders;
use crate::folders::FolderIndexView;
use crate::placement;
use crate::remarkable::FileEntryView;
use crate::state;
use crate::state::{DocView, LibraryView, StateView};
use crate::sync_model;
use crate::sync_model::{GoalView, PhaseView, RunView, StepView, SyncView, WorkView};
use crate::sync_order;
use crate::zotero::{CollectionView, ItemView};

verus! {

/// The attachment that a run is at.
pub open spec fn item_of(phase: PhaseView) -> Option<ItemView> {
    match phase {
        PhaseView::Preview { item, .. } => Some(item),
        PhaseView::Connecting { goal: GoalView::Upload { item, .. }, .. } => Some(item),
        PhaseView::Listing { goal: GoalView::Upload { item, .. }, .. } => Some(item),
        PhaseView::Parent { item, .. } => Some(item),
        PhaseView::Download { item, .. } => Some(item),
        PhaseView::Folder { item, .. } => Some(item),
        PhaseView::Upload { item, .. } => Some(item),
        _ => None,
    }
}

/// What a run knows, and the work that is left, once what came of an action has been taken in and
/// before the run goes on.
pub open spec fn taken(run: RunView, event: EventView) -> (SyncView, WorkView) {
    let sync = run.sync;
    match (run.phase, event) {
        (
            PhaseView::Attachments { library, collections },
            EventView::Attachments(Some(listing)),
        ) => (
            sync,
            sync_model::work_for(sync.state, library, collections, listing.0, listing.1),
        ),
        (PhaseView::Connecting { work, .. }, EventView::Connected(true)) => (
            SyncView { connected: true, ..sync },
            work,
        ),
        (PhaseView::Listing { work, .. }, EventView::Files(Some(files))) => (
            SyncView { index: Some(folders::index_of(files)), ..sync },
            work,
        ),
        (PhaseView::Archive { work, remote, .. }, EventView::Archive(Some(bytes))) => (
            sync,
            if archive::pdf_inside(bytes, remote.id) is Ok {
                work
            } else {
                sync_model::with_failure(work)
            },
        ),
        (PhaseView::Archive { work, .. }, EventView::Archive(None)) => (
            sync,
            sync_model::with_failure(work),
        ),
        (PhaseView::WritingBack { work, key, remote }, EventView::WrittenBack(true)) => {
            let w = WorkView { lib: sync_model::settled(work.lib, key, remote.hash), ..work };
            (sync_model::kept(sync, w), w)
        },
        (PhaseView::WritingBack { work, .. }, EventView::WrittenBack(false)) => (
            sync,
            sync_model::with_failure(work),
        ),
        (PhaseView::Download { work, .. }, EventView::Pdf(PdfReplyView::Failed)) => (
            sync,
            sync_model::with_failure(work),
        ),
        (PhaseView::Folder { work, walk, .. }, EventView::FolderCreated(Some(created))) => (
            SyncView {
                index: Some(folders::index_after_making(sync.index->0, walk, created)),
                ..sync
            },
            work,
        ),
        (PhaseView::Upload { work, item, .. }, EventView::Uploaded(Some(file))) => {
            let w = WorkView { lib: sync_model::with_upload(work.lib, item, file), ..work };
            (
                sync_model::kept(
                    SyncView { index: Some(folders::with_known(sync.index->0, file)), ..sync },
                    w,
                ),
                w,
            )
        },
        (PhaseView::Upload { work, .. }, EventView::Uploaded(None)) => (
            sync,
            sync_model::with_failure(work),
        ),
        _ => (sync, sync_order::work_of(run.phase)->0),
    }
}

/// Whether a step comes of going on with a library's work: at the attachment that it was at or at the
/// next one, or at the end of the library.
pub open spec fn goes_on(
    sync: SyncView,
    work: WorkView,
    item: Option<ItemView>,
    s: StepView,
) -> bool {
    ||| ends_library(sync, work, s)
    ||| stays_at_work(sync, work, item, s)
}

/// Whether a step is the end of a library's work.
pub open spec fn ends_library(sync: SyncView, work: WorkView, s: StepView) -> bool {
    &&& s.run.phase is LibrarySaved
    &&& s.action is Save
    &&& work.new.len() == 0
    &&& s.run.sync == sync_model::kept(
        SyncView { failures: sync_model::counted(sync.failures, work.failures), ..sync },
        WorkView { lib: sync_model::completed(work), ..work },
    )
}

/// Whether a step stays within a library's work.
pub open spec fn stays_at_work(
    sync: SyncView,
    work: WorkView,
    item: Option<ItemView>,
    s: StepView,
) -> bool {
    let w = sync_order::work_of(s.run.phase)->0;
    &&& s.run.sync == sync
    &&& sync_order::work_of(s.run.phase) is Some
    &&& !(s.run.phase is Preview)
    &&& !(s.action is Finish)
    &&& w == (WorkView { new: w.new, docs: w.docs, ..work })
    &&& {
        ||| w.new == work.new && (item_of(s.run.phase) is None || item_of(s.run.phase) == item)
        ||| work.new.len() > 0 && w.new == work.new.drop_first() && item_of(s.run.phase) == Some(
            work.new[0],
        )
    }
    &&& s.action is Connect ==> !sync.connected
    &&& s.action is ListFiles ==> sync.connected && sync.index is None
}

/// Whether the notes tell of a failure.
pub open spec fn tells_failure(notes: Seq<NoteView>) -> bool {
    exists|i: int|
        0 <= i < notes.len() && (#[trigger] notes[i] is UploadFailed
            || notes[i] is WriteBackFailed)
}

/// Whether a run is within a library's work, or comes to it with an event.
pub open spec fn is_at_work(run: RunView, event: EventView) -> bool {
    ||| run.phase is Attachments && !run.sync.dry_run && (event matches EventView::Attachments(l)
        && l is Some)
    ||| sync_order::work_of(run.phase) is Some && !(run.phase is Preview)
}

/// Whether a run shows what it would do, or is between two libraries.
pub open spec fn is_aside(run: RunView) -> bool {
    ||| run.phase is Preview
    ||| run.phase is LibrarySaved
    ||| run.phase is Attachments && run.sync.dry_run
}

/// The forms that a step can have.
pub open spec fn has_form(run: RunView, event: EventView, s: StepView) -> bool {
    ||| is_stop(run, s)
    ||| is_aside(run) && is_next(run, s)
    ||| run.phase is Collections && asks_for_attachments(run, s)
    ||| is_aside(run) && !(run.phase is LibrarySaved) && asks_for_preview(run, s)
    ||| {
        &&& is_at_work(run, event)
        &&& goes_on(taken(run, event).0, taken(run, event).1, item_of(run.phase), s)
        &&& tells_failure(s.notes) ==> taken(run, event).1.failures > 0
    }
}

/// Whether a step gives up.
pub open spec fn is_stop(run: RunView, s: StepView) -> bool {
    &&& s.run.sync == run.sync
    &&& s.run.phase is Over
    &&& s.action is Finish
    &&& s.action->Finish_0 is Aborted
    &&& s.notes.len() == 0
}

/// Whether a step goes on to the next library or ends the run.
pub open spec fn is_next(run: RunView, s: StepView) -> bool {
    exists|told: Seq<NoteView>|
        s == #[trigger] sync_model::next_library(run.sync, told) && !tells_failure(told)
}

/// Whether a step asks for the attachments of a library.
pub open spec fn asks_for_attachments(run: RunView, s: StepView) -> bool {
    &&& s.run.sync == run.sync
    &&& s.run.phase is Attachments
    &&& s.action is ListAttachments
    &&& !tells_failure(s.notes)
}

/// Whether a step asks for the publication of an attachment that would be uploaded.
pub open spec fn asks_for_preview(run: RunView, s: StepView) -> bool {
    &&& s.run.sync == run.sync
    &&& s.run.phase is Preview
    &&& s.action is FetchParent
    &&& !tells_failure(s.notes)
}

proof fn lemma_item_goes_on(
    sync: SyncView,
    work: WorkView,
    item: Option<ItemView>,
    notes: Seq<NoteView>,
)
    ensures
        goes_on(sync, work, item, sync_model::next_item(sync, work, notes)),
        sync_model::next_item(sync, work, notes).notes == notes,
{
}

proof fn lemma_doc_goes_on(
    sync: SyncView,
    index: FolderIndexView,
    work: WorkView,
    item: Option<ItemView>,
    notes: Seq<NoteView>,
)
    ensures
        goes_on(sync, work, item, sync_model::next_doc(sync, index, work, notes)),
        sync_model::next_doc(sync, index, work, notes).notes == notes,
{
    let found = sync_order::lemma_next_doc(sync, index, work, notes);
    let past = WorkView { docs: Seq::empty(), ..work };
    if !found {
        let s = sync_model::next_item(sync, past, notes);
        lemma_item_goes_on(sync, past, item, notes);
        if ends_library(sync, past, s) {
            assert(ends_library(sync, work, s));
        } else {
            assert(stays_at_work(sync, work, item, s));
        }
    } else {
        assert(stays_at_work(sync, work, item, sync_model::next_doc(sync, index, work, notes)));
    }
}

proof fn lemma_tablet_goes_on(
    sync: SyncView,
    work: WorkView,
    goal: GoalView,
    item: Option<ItemView>,
    notes: Seq<NoteView>,
)
    requires
        goal is Upload ==> item == Some(goal->Upload_item),
    ensures
        goes_on(sync, work, item, sync_model::with_tablet(sync, work, goal, notes)),
        sync_model::with_tablet(sync, work, goal, notes).notes == notes,
{
    if sync.connected && sync.index is Some && goal is Docs {
        lemma_doc_goes_on(sync, sync.index->0, work, item, notes);
    } else {
        assert(stays_at_work(
            sync,
            work,
            item,
            sync_model::with_tablet(sync, work, goal, notes),
        ));
    }
}

proof fn lemma_preview_form(sync: SyncView, work: WorkView, notes: Seq<NoteView>)
    requires
        !tells_failure(notes),
    ensures
        ({
            let s = sync_model::preview(sync, work, notes);
            ||| exists|told: Seq<NoteView>|
                s == #[trigger] sync_model::next_library(sync, told) && !tells_failure(told)
            ||| s.run.sync == sync && s.run.phase is Preview && s.action is FetchParent
                && !tells_failure(s.notes)
        }),
    decreases work.new.len(),
{
    let s = sync_model::preview(sync, work, notes);
    if work.new.len() == 0 {
        assert(s == sync_model::next_library(sync, notes));
    } else if work.new[0].data.parent_item is None {
        let note = sync_model::would_upload(
            placement::placement_of(work.new[0], None, work.collections),
        );
        assert(!tells_failure(notes.push(note))) by {
            if tells_failure(notes.push(note)) {
                let i = choose|i: int|
                    0 <= i < notes.push(note).len() && (#[trigger] notes.push(note)[i]
                        is UploadFailed || notes.push(note)[i] is WriteBackFailed);
                assert(notes[i] == notes.push(note)[i]);
            }
        }
        lemma_preview_form(sync, sync_model::past_item(work), notes.push(note));
    }
}

proof fn lemma_attachments_form(
    run: RunView,
    library: Seq<char>,
    collections: Map<Seq<char>, CollectionView>,
    items: Seq<ItemView>,
    version: u64,
)
    ensures
        ({
            let s = sync_model::with_attachments(run.sync, library, collections, items, version);
            let work = sync_model::work_for(run.sync.state, library, collections, items, version);
            if run.sync.dry_run {
                is_next(run, s) || asks_for_preview(run, s)
            } else {
                goes_on(run.sync, work, None, s) && !tells_failure(s.notes)
            }
        }),
{
    let sync = run.sync;
    let work = sync_model::work_for(sync.state, library, collections, items, version);
    let synced = state::library_in(sync.state, library).synced;
    let told = seq![
        NoteView::Counted {
            library,
            changed: items.len(),
            new: work.new.len(),
            updated: sync_model::known_items(items, synced).len(),
        },
    ];
    assert(!tells_failure(told));
    if sync.dry_run {
        lemma_preview_form(sync, work, told);
    } else if work.docs.len() > 0 {
        lemma_tablet_goes_on(sync, work, GoalView::Docs, None, told);
    } else {
        lemma_item_goes_on(sync, work, None, told);
    }
}

/// Every step has one of the forms.
proof fn lemma_forms(run: RunView, event: EventView)
    requires
        sync_order::is_ready(run),
    ensures
        has_form(run, event, sync_model::after(run, event)),
{
    let sync = run.sync;
    let s = sync_model::after(run, event);
    let item = item_of(run.phase);
    let (sync1, work1) = taken(run, event);
    assert(!tells_failure(Seq::empty()));
    match (run.phase, event) {
        (
            PhaseView::Attachments { library, collections },
            EventView::Attachments(Some(listing)),
        ) => {
            lemma_attachments_form(run, library, collections, listing.0, listing.1);
        },
        (PhaseView::Preview { work, item }, EventView::Parent(parent)) => {
            let told = seq![
                sync_model::would_upload(
                    placement::placement_of(item, parent, work.collections),
                ),
            ];
            assert(!tells_failure(told));
            lemma_preview_form(sync, work, told);
        },
        (PhaseView::Connecting { work, goal }, EventView::Connected(ok)) => {
            if ok {
                lemma_tablet_goes_on(sync1, work, goal, item, Seq::empty());
            }
        },
        (PhaseView::Listing { work, goal }, EventView::Files(Some(files))) => {
            lemma_tablet_goes_on(sync1, work, goal, item, Seq::empty());
        },
        (PhaseView::Archive { work, key, remote }, EventView::Archive(Some(bytes))) => {
            match archive::pdf_inside(bytes, remote.id) {
                Err(e) => {
                    lemma_doc_goes_on(
                        sync,
                        sync.index->0,
                        work1,
                        item,
                        seq![NoteView::WriteBackFailed { key, cause: Some(e) }],
                    );
                },
                Ok(_) => {
                    assert(stays_at_work(sync1, work1, item, s));
                },
            }
        },
        (PhaseView::Archive { work, key, remote }, EventView::Archive(None)) => {
            lemma_doc_goes_on(
                sync,
                sync.index->0,
                work1,
                item,
                seq![NoteView::WriteBackFailed { key, cause: None }],
            );
        },
        (PhaseView::WritingBack { work, key, remote }, EventView::WrittenBack(ok)) => {
            if ok {
                assert(stays_at_work(sync1, work1, item, s));
            } else {
                lemma_doc_goes_on(
                    sync,
                    sync.index->0,
                    work1,
                    item,
                    seq![NoteView::WriteBackFailed { key, cause: None }],
                );
            }
        },
        (PhaseView::DocSaved { work }, EventView::Saved(ok)) => {
            if ok {
                lemma_doc_goes_on(sync, sync.index->0, work, item, Seq::empty());
            }
        },
        (PhaseView::Parent { work, item: at }, EventView::Parent(parent)) => {
            if sync_model::can_be_placed(parent, work.collections) {
                assert(stays_at_work(sync1, work1, item, s));
            }
        },
        (PhaseView::Download { work, item: at, placement }, EventView::Pdf(reply)) => {
            match reply {
                PdfReplyView::Stored(bytes) => {
                    lemma_tablet_goes_on(
                        sync,
                        work,
                        GoalView::Upload { item: at, placement, bytes },
                        item,
                        Seq::empty(),
                    );
                },
                PdfReplyView::Missing => {
                    lemma_item_goes_on(
                        sync,
                        work,
                        item,
                        seq![NoteView::Skipped { name: placement.name }],
                    );
                },
                PdfReplyView::Failed => {
                    lemma_item_goes_on(
                        sync,
                        work1,
                        item,
                        seq![NoteView::UploadFailed { name: placement.name }],
                    );
                },
            }
        },
        (
            PhaseView::Folder { work, item: at, placement, bytes, walk },
            EventView::FolderCreated(Some(created)),
        ) => {
            assert(stays_at_work(sync1, work1, item, s));
        },
        (PhaseView::Upload { work, item: at, name }, EventView::Uploaded(reply)) => {
            if reply is None {
                lemma_item_goes_on(sync, work1, item, seq![NoteView::UploadFailed { name }]);
            } else {
                assert(stays_at_work(sync1, work1, item, s));
            }
        },
        (PhaseView::ItemSaved { work }, EventView::Saved(ok)) => {
            if ok {
                lemma_item_goes_on(sync, work, item, Seq::empty());
            }
        },
        (PhaseView::LibrarySaved, EventView::Saved(ok)) => {
            if ok {
                assert(s == sync_model::next_library(sync, Seq::empty()));
            }
        },
        _ => {},
    }
}

/// Whether the library at hand has at least what the state has of it, and the same version.
pub open spec fn keeps_up(run: RunView) -> bool {
    sync_order::work_of(run.phase) is Some && !(run.phase is Preview) ==> {
        let work = sync_order::work_of(run.phase)->0;
        let known = state::library_in(run.sync.state, work.library);
        &&& known.synced.dom().subset_of(work.lib.synced.dom())
        &&& known.docs.dom().subset_of(work.lib.docs.dom())
        &&& work.lib.last_library_version == known.last_library_version
    }
}

/// Writing versions down adds the keys of the items and takes none away.
pub(crate) proof fn lemma_recorded(synced: Map<Seq<char>, u64>, items: Seq<ItemView>)
    ensures
        synced.dom().subset_of(sync_model::recorded(synced, items).dom()),
        forall|i: int|
            0 <= i < items.len() ==> sync_model::recorded(synced, items).contains_key(
                (#[trigger] items[i]).key,
            ),
        forall|key: Seq<char>| #[trigger]
            sync_model::recorded(synced, items).contains_key(key) ==> synced.contains_key(key) || (
            exists|i: int| 0 <= i < items.len() && (#[trigger] items[i]).key == key),
    decreases items.len(),
{
    if items.len() > 0 {
        let before = items.drop_last();
        lemma_recorded(synced, before);
        assert forall|i: int| 0 <= i < items.len() implies sync_model::recorded(
            synced,
            items,
        ).contains_key((#[trigger] items[i]).key) by {
            if i < before.len() {
                assert(before[i] == items[i]);
            }
        }
        assert forall|key: Seq<char>| #[trigger]
            sync_model::recorded(synced, items).contains_key(key) implies synced.contains_key(key)
            || (exists|i: int| 0 <= i < items.len() && (#[trigger] items[i]).key == key) by {
            if key == items.last().key {
                assert(items[items.len() - 1].key == key);
            } else if !synced.contains_key(key) {
                let i = choose|i: int| 0 <= i < before.len() && (#[trigger] before[i]).key == key;
                assert(items[i].key == key);
            }
        }
    }
}

/// Nothing that is recorded of any library is ever forgotten: each attachment and each document that
/// the state knows stays known.
pub proof fn records_are_never_lost(run: RunView, event: EventView)
    requires
        sync_order::is_ready(run),
        keeps_up(run),
    ensures
        ({
            let s = sync_model::after(run, event);
            &&& keeps_up(s.run)
            &&& forall|library: Seq<char>|
                #![trigger state::library_in(s.run.sync.state, library)]
                {
                    let before = state::library_in(run.sync.state, library);
                    let after = state::library_in(s.run.sync.state, library);
                    before.synced.dom().subset_of(after.synced.dom())
                        && before.docs.dom().subset_of(after.docs.dom())
                }
        }),
{
    lemma_forms(run, event);
    let s = sync_model::after(run, event);
    let (sync1, work1) = taken(run, event);
    if is_at_work(run, event) && goes_on(sync1, work1, item_of(run.phase), s) {
        lemma_taken_keeps_up(run, event);
        assert forall|library: Seq<char>|
            #![trigger state::library_in(s.run.sync.state, library)]
            {
                let before = state::library_in(run.sync.state, library);
                let after = state::library_in(s.run.sync.state, library);
                before.synced.dom().subset_of(after.synced.dom())
                    && before.docs.dom().subset_of(after.docs.dom())
            } by {
            assert(state::library_in(sync1.state, library).synced.dom().subset_of(
                state::library_in(s.run.sync.state, library).synced.dom(),
            ));
        }
    }
}

/// What is taken in of an event adds to the records and takes nothing away.
proof fn lemma_taken_keeps_up(run: RunView, event: EventView)
    requires
        keeps_up(run),
        is_at_work(run, event),
    ensures
        ({
            let (sync1, work1) = taken(run, event);
            let known = state::library_in(sync1.state, work1.library);
            &&& known.synced.dom().subset_of(work1.lib.synced.dom())
            &&& known.docs.dom().subset_of(work1.lib.docs.dom())
            &&& work1.lib.last_library_version == known.last_library_version
            &&& work1.lib.last_library_version == state::library_in(
                run.sync.state,
                work1.library,
            ).last_library_version
            &&& forall|library: Seq<char>|
                #![trigger state::library_in(sync1.state, library)]
                {
                    let before = state::library_in(run.sync.state, library);
                    let after = state::library_in(sync1.state, library);
                    &&& before.synced.dom().subset_of(after.synced.dom())
                    &&& before.docs.dom().subset_of(after.docs.dom())
                    &&& after.last_library_version == before.last_library_version
                }
        }),
{
    if let PhaseView::Attachments { library, collections } = run.phase {
        if let EventView::Attachments(Some(listing)) = event {
            let lib = state::library_in(run.sync.state, library);
            lemma_recorded(lib.synced, sync_model::known_items(listing.0, lib.synced));
        }
    }
}

/// A library's version changes only at the end of its work, only to the version that its attachments
/// were listed at, and only where not one step of it failed. So what failed is listed again on the
/// next run.
pub proof fn versions_wait_for_success(run: RunView, event: EventView, library: Seq<char>)
    requires
        sync_order::is_ready(run),
        keeps_up(run),
        state::library_in(sync_model::after(run, event).run.sync.state, library).last_library_version
            != state::library_in(run.sync.state, library).last_library_version,
    ensures
        ({
            let s = sync_model::after(run, event);
            let work = taken(run, event).1;
            &&& s.run.phase is LibrarySaved
            &&& library == work.library
            &&& work.failures == 0
            &&& !tells_failure(s.notes)
            &&& state::library_in(s.run.sync.state, library).last_library_version == work.version
        }),
{
    lemma_forms(run, event);
    if is_at_work(run, event) {
        lemma_taken_keeps_up(run, event);
    }
}

/// At the end of a library's work its version is the one that its attachments were listed at where
/// nothing failed, and the one from before where anything did.
pub proof fn the_end_of_a_library_sets_its_version(run: RunView, event: EventView)
    requires
        sync_order::is_ready(run),
        keeps_up(run),
        sync_model::after(run, event).run.phase is LibrarySaved,
    ensures
        ({
            let s = sync_model::after(run, event);
            let work = taken(run, event).1;
            let now = state::library_in(s.run.sync.state, work.library).last_library_version;
            &&& s.action == ActionView::Save
            &&& work.new.len() == 0
            &&& now == if work.failures == 0 {
                work.version
            } else {
                state::library_in(run.sync.state, work.library).last_library_version
            }
        }),
{
    lemma_forms(run, event);
    if is_at_work(run, event) {
        lemma_taken_keeps_up(run, event);
    }
}

/// Whether none of the attachments has a record, and no two have the same key.
pub open spec fn are_unrecorded(
    synced: Map<Seq<char>, u64>,
    item: Option<ItemView>,
    new: Seq<ItemView>,
) -> bool {
    &&& forall|i: int| 0 <= i < new.len() ==> !synced.contains_key((#[trigger] new[i]).key)
    &&& have_own_keys(new)
    &&& item is Some ==> {
        &&& !synced.contains_key((item->0).key)
        &&& forall|i: int| 0 <= i < new.len() ==> (#[trigger] new[i]).key != (item->0).key
    }
}

/// Whether no two items have the same key.
pub open spec fn have_own_keys(items: Seq<ItemView>) -> bool {
    forall|i: int, j: int|
        0 <= i < j < items.len() ==> (#[trigger] items[i]).key != (#[trigger] items[j]).key
}

/// Whether the attachments that a run has still to upload have no record.
pub open spec fn is_fresh(run: RunView) -> bool {
    sync_order::work_of(run.phase) is Some && !(run.phase is Preview) ==> {
        let work = sync_order::work_of(run.phase)->0;
        are_unrecorded(work.lib.synced, item_of(run.phase), work.new)
    }
}

proof fn lemma_new_items(items: Seq<ItemView>, synced: Map<Seq<char>, u64>)
    requires
        have_own_keys(items),
    ensures
        forall|i: int|
            0 <= i < sync_model::new_items(items, synced).len() ==> {
                &&& !synced.contains_key((#[trigger] sync_model::new_items(items, synced)[i]).key)
                &&& exists|j: int|
                    0 <= j < items.len() && #[trigger] items[j] == sync_model::new_items(
                        items,
                        synced,
                    )[i]
            },
        have_own_keys(sync_model::new_items(items, synced)),
    decreases items.len(),
{
    reveal(Seq::filter);
    if items.len() > 0 {
        let before = items.drop_last();
        let old_new = sync_model::new_items(before, synced);
        let new = sync_model::new_items(items, synced);
        assert(have_own_keys(before)) by {
            assert forall|i: int, j: int| 0 <= i < j < before.len() implies (
            #[trigger] before[i]).key != (#[trigger] before[j]).key by {
                assert(items[i].key != items[j].key);
            }
        }
        lemma_new_items(before, synced);
        assert forall|i: int| 0 <= i < new.len() implies {
            &&& !synced.contains_key((#[trigger] new[i]).key)
            &&& exists|j: int| 0 <= j < items.len() && #[trigger] items[j] == new[i]
        } by {
            if i < old_new.len() {
                assert(old_new[i] == new[i]);
                let j = choose|j: int|
                    0 <= j < before.len() && #[trigger] before[j] == old_new[i];
                assert(items[j] == new[i]);
            } else {
                assert(items[items.len() - 1] == new[i]);
            }
        }
        assert forall|i: int, j: int| 0 <= i < j < new.len() implies (#[trigger] new[i]).key != (
        #[trigger] new[j]).key by {
            assert(old_new[i] == new[i]);
            if j < old_new.len() {
                assert(old_new[j] == new[j]);
            } else {
                let k = choose|k: int|
                    0 <= k < before.len() && #[trigger] before[k] == old_new[i];
                assert(items[k].key != items[items.len() - 1].key);
            }
        }
    }
}

proof fn lemma_known_items(items: Seq<ItemView>, synced: Map<Seq<char>, u64>)
    ensures
        forall|i: int|
            0 <= i < sync_model::known_items(items, synced).len() ==> synced.contains_key(
                (#[trigger] sync_model::known_items(items, synced)[i]).key,
            ),
    decreases items.len(),
{
    reveal(Seq::filter);
    if items.len() > 0 {
        let before = items.drop_last();
        lemma_known_items(before, synced);
        let old_known = sync_model::known_items(before, synced);
        let known = sync_model::known_items(items, synced);
        assert forall|i: int| 0 <= i < known.len() implies synced.contains_key(
            (#[trigger] known[i]).key,
        ) by {
            if i < old_known.len() {
                assert(old_known[i] == known[i]);
            }
        }
    }
}

/// What is taken in of an event leaves the attachments to come without a record.
proof fn lemma_taken_fresh(run: RunView, event: EventView)
    requires
        is_fresh(run),
        is_at_work(run, event),
        event matches EventView::Attachments(Some(listing)) ==> have_own_keys(listing.0),
    ensures
        ({
            let work1 = taken(run, event).1;
            let recorded = run.phase is Upload && (event matches EventView::Uploaded(f) && f is Some);
            let item = if recorded {
                None
            } else {
                item_of(run.phase)
            };
            are_unrecorded(work1.lib.synced, item, work1.new)
        }),
{
    if let PhaseView::Attachments { library, collections } = run.phase {
        if let EventView::Attachments(Some(listing)) = event {
            let lib = state::library_in(run.sync.state, library);
            let known = sync_model::known_items(listing.0, lib.synced);
            lemma_recorded(lib.synced, known);
            lemma_known_items(listing.0, lib.synced);
            lemma_new_items(listing.0, lib.synced);
        }
    }
}

/// An attachment that has a record is never uploaded, so no document comes to the tablet twice: each
/// upload is of an attachment that the state does not know. Zotero lists no key twice; a listing
/// that did could bring the same attachment up again.
pub proof fn known_attachments_are_never_uploaded(run: RunView, event: EventView)
    requires
        sync_order::is_ready(run),
        keeps_up(run),
        is_fresh(run),
        event matches EventView::Attachments(Some(listing)) ==> have_own_keys(listing.0),
    ensures
        ({
            let s = sync_model::after(run, event);
            &&& is_fresh(s.run)
            &&& s.action is UploadPdf ==> {
                &&& s.run.phase is Upload
                &&& !state::library_in(
                    s.run.sync.state,
                    s.run.phase->Upload_work.library,
                ).synced.contains_key(s.run.phase->Upload_item.key)
            }
        }),
{
    lemma_forms(run, event);
    let s = sync_model::after(run, event);
    sync_order::runs_stay_ready(run, event);
    records_are_never_lost(run, event);
    if is_at_work(run, event) {
        lemma_taken_fresh(run, event);
        let (sync1, work1) = taken(run, event);
        if goes_on(sync1, work1, item_of(run.phase), s) && !ends_library(sync1, work1, s) {
            let w = sync_order::work_of(s.run.phase)->0;
            assert(are_unrecorded(w.lib.synced, item_of(s.run.phase), w.new)) by {
                if w.new == work1.new {
                } else {
                    let next = work1.new[0];
                    assert forall|i: int| 0 <= i < w.new.len() implies {
                        &&& !w.lib.synced.contains_key((#[trigger] w.new[i]).key)
                        &&& w.new[i].key != next.key
                    } by {
                        assert(w.new[i] == work1.new[i + 1]);
                        assert(work1.new[0].key != work1.new[i + 1].key);
                    }
                    assert forall|i: int, j: int| 0 <= i < j < w.new.len() implies (
                    #[trigger] w.new[i]).key != (#[trigger] w.new[j]).key by {
                        assert(work1.new[i + 1].key != work1.new[j + 1].key);
                    }
                }
            }
        }
    }
}

/// An upload is written down at once: the state that is saved next has the attachment's version and
/// the document's identity and hash.
pub proof fn uploads_are_recorded(run: RunView, file: FileEntryView)
    requires
        sync_order::is_ready(run),
        run.phase is Upload,
    ensures
        ({
            let s = sync_model::after(run, EventView::Uploaded(Some(file)));
            let item = run.phase->Upload_item;
            let lib = state::library_in(s.run.sync.state, run.phase->Upload_work.library);
            &&& s.action == ActionView::Save
            &&& lib.synced.contains_key(item.key)
            &&& lib.synced[item.key] == item.version
            &&& lib.docs.contains_key(item.key)
            &&& lib.docs[item.key] == (DocView { doc_id: file.id, last_hash: file.hash })
            &&& lib.doc_order.contains(item.key)
        }),
{
    let work = run.phase->Upload_work;
    let key = run.phase->Upload_item.key;
    let order = work.lib.doc_order;
    if !order.contains(key) {
        assert(order.push(key)[order.len() as int] == key);
    }
}

/// An attachment that was not uploaded has no record, whether Zotero had no file for it or a step
/// failed. So it is new again when it is listed again.
pub proof fn what_was_not_uploaded_stays_new(run: RunView, event: EventView)
    requires
        sync_order::is_ready(run),
        keeps_up(run),
        is_fresh(run),
        run.phase is Download || run.phase is Upload,
        event == EventView::Pdf(PdfReplyView::Missing) || event == EventView::Pdf(
            PdfReplyView::Failed,
        ) || event == EventView::Uploaded(None),
    ensures
        ({
            let s = sync_model::after(run, event);
            let library = (sync_order::work_of(run.phase)->0).library;
            let key = (item_of(run.phase)->0).key;
            !state::library_in(s.run.sync.state, library).synced.contains_key(key)
        }),
{
    lemma_forms(run, event);
    lemma_taken_fresh(run, event);
    lemma_taken_keeps_up(run, event);
}

/// That Zotero has no file for an attachment is no failure: it is told, and the run has failed
/// afterwards only where it had before.
pub proof fn a_missing_file_is_no_failure(run: RunView)
    requires
        sync_order::is_ready(run),
        run.phase is Download,
    ensures
        ({
            let s = sync_model::after(run, EventView::Pdf(PdfReplyView::Missing));
            &&& s.notes == seq![NoteView::Skipped { name: run.phase->Download_placement.name }]
            &&& has_failed(s.run) == has_failed(run)
            &&& !(s.action is Finish)
        }),
{
    let work = run.phase->Download_work;
    let told = seq![NoteView::Skipped { name: run.phase->Download_placement.name }];
    lemma_item_goes_on(run.sync, work, item_of(run.phase), told);
}

proof fn lemma_refreshed(
    synced: Map<Seq<char>, u64>,
    known: Map<Seq<char>, u64>,
    items: Seq<ItemView>,
    i: int,
)
    requires
        have_own_keys(items),
        0 <= i < items.len(),
        known.contains_key(items[i].key),
    ensures
        sync_model::recorded(synced, sync_model::known_items(items, known))[items[i].key]
            == items[i].version,
    decreases items.len(),
{
    reveal(Seq::filter);
    let before = items.drop_last();
    let kept = sync_model::known_items(before, known);
    let all = sync_model::known_items(items, known);
    assert(have_own_keys(before)) by {
        assert forall|a: int, b: int| 0 <= a < b < before.len() implies (#[trigger] before[a]).key
            != (#[trigger] before[b]).key by {
            assert(items[a].key != items[b].key);
        }
    }
    if known.contains_key(items.last().key) {
        assert(all == kept.push(items.last()));
        assert(all.drop_last() =~= kept);
    } else {
        assert(all == kept);
    }
    if i < before.len() {
        assert(before[i] == items[i]);
        lemma_refreshed(synced, known, before, i);
        assert(items[i].key != items[items.len() - 1].key);
    }
}

/// An attachment that has a record and is listed again only has its record brought up to date: the
/// record has the listed version, and the attachment is none of those to be uploaded.
pub proof fn known_attachments_are_only_refreshed(
    run: RunView,
    items: Seq<ItemView>,
    version: u64,
    i: int,
)
    requires
        run.phase is Attachments,
        have_own_keys(items),
        0 <= i < items.len(),
        state::library_in(
            run.sync.state,
            run.phase->Attachments_library,
        ).synced.contains_key(items[i].key),
    ensures
        ({
            let work = taken(run, EventView::Attachments(Some((items, version)))).1;
            &&& work.lib.synced.contains_key(items[i].key)
            &&& work.lib.synced[items[i].key] == items[i].version
            &&& forall|j: int|
                0 <= j < work.new.len() ==> (#[trigger] work.new[j]).key != items[i].key
        }),
{
    let synced = state::library_in(run.sync.state, run.phase->Attachments_library).synced;
    lemma_refreshed(synced, synced, items, i);
    lemma_recorded(synced, sync_model::known_items(items, synced));
    lemma_new_items(items, synced);
}

/// A marked-up copy that has been written back is settled: its hash is written down at once, and as
/// long as the cloud has that copy it is not fetched again.
pub proof fn written_back_copies_are_settled(run: RunView, index: FolderIndexView)
    requires
        sync_order::is_ready(run),
        run.phase is WritingBack,
        run.phase->WritingBack_work.lib.docs.contains_key(run.phase->WritingBack_key),
    ensures
        ({
            let s = sync_model::after(run, EventView::WrittenBack(true));
            let key = run.phase->WritingBack_key;
            let remote = run.phase->WritingBack_remote;
            let lib = state::library_in(s.run.sync.state, run.phase->WritingBack_work.library);
            &&& s.action == ActionView::Save
            &&& lib.docs.contains_key(key)
            &&& lib.docs[key].last_hash == remote.hash
            &&& lib.docs[key].doc_id == run.phase->WritingBack_work.lib.docs[key].doc_id
            &&& index.docs.contains_key(lib.docs[key].doc_id) && index.docs[lib.docs[key].doc_id]
                == remote ==> sync_model::changed_copy(index, lib.docs[key]) is None
        }),
{
}

/// Only the copy of a document that has changed since it was last seen is fetched.
pub proof fn only_changed_copies_are_fetched(run: RunView, event: EventView)
    requires
        sync_order::is_ready(run),
    ensures
        ({
            let s = sync_model::after(run, event);
            s.action is DownloadArchive ==> {
                &&& s.run.phase is Archive
                &&& s.action == (ActionView::DownloadArchive {
                    doc_id: s.run.phase->Archive_remote.id,
                })
                &&& s.run.phase->Archive_remote.hash.len() > 0
                &&& exists|doc: DocView| #[trigger]
                    sync_model::changed_copy(s.run.sync.index->0, doc) == Some(
                        s.run.phase->Archive_remote,
                    ) && doc.last_hash != s.run.phase->Archive_remote.hash
            }
        }),
{
    let s = sync_model::after(run, event);
    sync_order::runs_stay_ready(run, event);
    lemma_fetches(run, event);
    if s.action is DownloadArchive {
        let (sync1, work1) = taken(run, event);
        let key = s.run.phase->Archive_key;
        let remote = s.run.phase->Archive_remote;
        let i = choose|i: int|
            sync_order::doc_at(sync1.index->0, work1.docs, key, remote, i);
        assert(sync_model::changed_copy(s.run.sync.index->0, work1.docs[i].1) == Some(remote));
    }
}

/// A marked-up copy goes back to Zotero only from an archive that was asked for, and only with the PDF
/// file that was in it, under the copy's own name and to the attachment that it belongs to.
pub proof fn copies_come_back_out_of_their_archives(run: RunView, event: EventView)
    requires
        sync_order::is_ready(run),
        sync_model::after(run, event).action is UploadAttachment,
    ensures
        run.phase is Archive,
        event is Archive,
        event->Archive_0 is Some,
        ({
            let remote = run.phase->Archive_remote;
            let pdf = archive::pdf_inside(event->Archive_0->0, remote.id);
            &&& pdf is Ok
            &&& sync_model::after(run, event).action == (ActionView::UploadAttachment {
                library: run.phase->Archive_work.library,
                key: run.phase->Archive_key,
                filename: folders::copy_name(remote.file_name),
                bytes: pdf->Ok_0,
            })
        }),
{
    lemma_fetches(run, event);
}

/// A step that asks for an archive comes of going through the documents, and one that writes a copy
/// back comes of an archive.
proof fn lemma_fetches(run: RunView, event: EventView)
    requires
        sync_order::is_ready(run),
    ensures
        ({
            let s = sync_model::after(run, event);
            let (sync1, work1) = taken(run, event);
            s.action is DownloadArchive ==> sync_order::finds_doc(
                sync1,
                sync1.index->0,
                work1,
                s.notes,
                s,
            )
        }),
        sync_model::after(run, event).action is UploadAttachment ==> {
            &&& run.phase is Archive
            &&& event is Archive
            &&& event->Archive_0 is Some
            &&& archive::pdf_inside(event->Archive_0->0, run.phase->Archive_remote.id) is Ok
        },
{
    let sync = run.sync;
    let (sync1, work1) = taken(run, event);
    match (run.phase, event) {
        (
            PhaseView::Attachments { library, collections },
            EventView::Attachments(Some(listing)),
        ) => {
            let synced = state::library_in(sync.state, library).synced;
            let told = seq![
                NoteView::Counted {
                    library,
                    changed: listing.0.len(),
                    new: work1.new.len(),
                    updated: sync_model::known_items(listing.0, synced).len(),
                },
            ];
            let found = sync_order::lemma_next_doc(sync1, sync1.index->0, work1, told);
            sync_order::lemma_preview(sync, work1, told);
        },
        (PhaseView::Preview { work, item }, EventView::Parent(parent)) => {
            sync_order::lemma_preview(
                sync,
                work,
                seq![
                    sync_model::would_upload(
                        placement::placement_of(item, parent, work.collections),
                    ),
                ],
            );
        },
        (PhaseView::Connecting { .. }, _) => {
            let found = sync_order::lemma_next_doc(sync1, sync1.index->0, work1, Seq::empty());
        },
        (PhaseView::Listing { .. }, _) => {
            let found = sync_order::lemma_next_doc(sync1, sync1.index->0, work1, Seq::empty());
        },
        (PhaseView::Archive { key, remote, .. }, EventView::Archive(Some(bytes))) => {
            if let Err(e) = archive::pdf_inside(bytes, remote.id) {
                let told = seq![NoteView::WriteBackFailed { key, cause: Some(e) }];
                let found = sync_order::lemma_next_doc(sync1, sync1.index->0, work1, told);
            }
        },
        (PhaseView::Archive { key, .. }, EventView::Archive(None)) => {
            let told = seq![NoteView::WriteBackFailed { key, cause: None }];
            let found = sync_order::lemma_next_doc(sync1, sync1.index->0, work1, told);
        },
        (PhaseView::WritingBack { key, .. }, _) => {
            let told = seq![NoteView::WriteBackFailed { key, cause: None }];
            let found = sync_order::lemma_next_doc(sync1, sync1.index->0, work1, told);
        },
        (PhaseView::DocSaved { .. }, _) => {
            let found = sync_order::lemma_next_doc(sync1, sync1.index->0, work1, Seq::empty());
        },
        _ => {},
    }
}

/// No attachment is dropped on the way: once a run is at an attachment it stays at it until that is
/// uploaded and recorded, is skipped because Zotero has no file for it, has failed and is told of, or
/// the run gives up.
pub proof fn attachments_are_seen_through(run: RunView, event: EventView)
    requires
        sync_order::is_ready(run),
        item_of(run.phase) is Some,
        !(run.phase is Preview),
    ensures
        ({
            let s = sync_model::after(run, event);
            let item = item_of(run.phase)->0;
            let lib = state::library_in(
                s.run.sync.state,
                (sync_order::work_of(run.phase)->0).library,
            );
            ||| item_of(s.run.phase) == Some(item)
            ||| lib.synced.contains_key(item.key) && lib.synced[item.key] == item.version
                && lib.docs.contains_key(item.key)
            ||| event == EventView::Pdf(PdfReplyView::Missing) && s.notes.len() == 1
                && s.notes[0] is Skipped
            ||| tells_failure(s.notes)
            ||| is_stop(run, s)
        }),
{
    let sync = run.sync;
    let s = sync_model::after(run, event);
    match (run.phase, event) {
        (PhaseView::Download { work, item, placement }, EventView::Pdf(PdfReplyView::Missing)) => {
            lemma_item_goes_on(
                sync,
                work,
                Some(item),
                seq![NoteView::Skipped { name: placement.name }],
            );
        },
        (PhaseView::Download { work, item, placement }, EventView::Pdf(PdfReplyView::Failed)) => {
            let told = seq![NoteView::UploadFailed { name: placement.name }];
            lemma_item_goes_on(sync, sync_model::with_failure(work), Some(item), told);
            assert(told[0] is UploadFailed);
        },
        (PhaseView::Upload { work, item, name }, EventView::Uploaded(None)) => {
            let told = seq![NoteView::UploadFailed { name }];
            lemma_item_goes_on(sync, sync_model::with_failure(work), Some(item), told);
            assert(told[0] is UploadFailed);
        },
        (PhaseView::Upload { work, item, name }, EventView::Uploaded(Some(file))) => {
            uploads_are_recorded(run, file);
        },
        _ => {},
    }
}

/// No attachment is passed over: the attachments to come are taken up one by one, from the first on,
/// and a library's work ends only when none is left.
pub proof fn attachments_are_taken_up_in_order(run: RunView, event: EventView)
    requires
        sync_order::is_ready(run),
        is_at_work(run, event),
    ensures
        ({
            let s = sync_model::after(run, event);
            let new = taken(run, event).1.new;
            ||| is_stop(run, s)
            ||| s.run.phase is LibrarySaved && new.len() == 0
            ||| sync_order::work_of(s.run.phase) is Some && (sync_order::work_of(s.run.phase)->0).new
                == new
            ||| sync_order::work_of(s.run.phase) is Some && new.len() > 0 && item_of(s.run.phase)
                == Some(new[0]) && (sync_order::work_of(s.run.phase)->0).new == new.drop_first()
        }),
{
    lemma_forms(run, event);
}

/// A run opens one session with the cloud and lists its files once, and only when it first needs
/// them.
pub proof fn the_cloud_is_asked_once(run: RunView, event: EventView)
    requires
        sync_order::is_ready(run),
    ensures
        ({
            let s = sync_model::after(run, event);
            &&& run.sync.connected ==> s.run.sync.connected && !(s.action is Connect)
            &&& run.sync.index is Some ==> s.run.sync.index is Some && !(s.action is ListFiles)
            &&& s.action is Connect ==> !s.run.sync.connected
            &&& s.action is ListFiles ==> s.run.sync.connected && s.run.sync.index is None
        }),
{
    lemma_forms(run, event);
}

/// Whether a step of a run has failed.
pub open spec fn has_failed(run: RunView) -> bool {
    ||| run.sync.failures > 0
    ||| sync_order::work_of(run.phase) is Some && !(run.phase is Preview) && (sync_order::work_of(
        run.phase,
    )->0).failures > 0
}

/// A failed step is never passed over: a run in which one failed goes on but does not end as done.
pub proof fn failures_are_counted(run: RunView, event: EventView)
    requires
        sync_order::is_ready(run),
    ensures
        ({
            let s = sync_model::after(run, event);
            &&& has_failed(run) || tells_failure(s.notes) ==> has_failed(s.run)
                || s.run.phase is Over
            &&& has_failed(run) || tells_failure(s.notes) ==> s.action != ActionView::Finish(
                Outcome::Done,
            )
            &&& s.action matches ActionView::Finish(Outcome::Failed { failures }) ==> failures > 0
                && failures == run.sync.failures
        }),
{
    lemma_forms(run, event);
    let s = sync_model::after(run, event);
    if is_aside(run) && is_next(run, s) {
        let told = choose|told: Seq<NoteView>|
            s == #[trigger] sync_model::next_library(run.sync, told) && !tells_failure(told);
        assert(s.notes == told);
    }
}

/// Whether a run only shows what it would do.
pub open spec fn only_shows(run: RunView) -> bool {
    &&& run.sync.dry_run
    &&& run.phase is Collections || run.phase is Attachments || run.phase is Preview
        || run.phase is Over
}

/// A dry run changes nothing: it asks only for what is in Zotero, saves nothing and leaves the state
/// as it is.
pub proof fn dry_runs_change_nothing(run: RunView, event: EventView)
    requires
        only_shows(run),
    ensures
        ({
            let s = sync_model::after(run, event);
            &&& only_shows(s.run)
            &&& s.run.sync.state == run.sync.state
            &&& s.action is ListCollections || s.action is ListAttachments || s.action is FetchParent
                || s.action is Finish
        }),
{
    lemma_forms(run, event);
}

/// The step that a run stands at after it has been told of all the events, in order.
pub open spec fn course(start: StepView, events: Seq<EventView>) -> StepView
    decreases events.len(),
{
    if events.len() == 0 {
        start
    } else {
        sync_model::after(course(start, events.drop_last()).run, events.last())
    }
}

/// Whether no listing names a key twice.
pub open spec fn listings_have_own_keys(events: Seq<EventView>) -> bool {
    forall|i: int|
        0 <= i < events.len() ==> (#[trigger] events[i] matches EventView::Attachments(
            Some(listing),
        ) ==> have_own_keys(listing.0))
}

proof fn lemma_course(
    libraries: Seq<Seq<char>>,
    start: StateView,
    dry_run: bool,
    events: Seq<EventView>,
)
    ensures
        ({
            let run = course(sync_model::first_step(libraries, start, dry_run), events).run;
            &&& sync_order::is_ready(run)
            &&& keeps_up(run)
            &&& forall|library: Seq<char>|
                #![trigger state::library_in(run.sync.state, library)]
                {
                    let before = state::library_in(start, library);
                    let after = state::library_in(run.sync.state, library);
                    before.synced.dom().subset_of(after.synced.dom())
                        && before.docs.dom().subset_of(after.docs.dom())
                }
            &&& dry_run ==> only_shows(run) && run.sync.state == start
        }),
    decreases events.len(),
{
    if events.len() > 0 {
        lemma_course(libraries, start, dry_run, events.drop_last());
        let first = sync_model::first_step(libraries, start, dry_run);
        let before = course(first, events.drop_last()).run;
        sync_order::runs_stay_ready(before, events.last());
        records_are_never_lost(before, events.last());
        if dry_run {
            dry_runs_change_nothing(before, events.last());
        }
        let run = course(first, events).run;
        assert forall|library: Seq<char>|
            #![trigger state::library_in(run.sync.state, library)]
            {
                let was = state::library_in(start, library);
                let after = state::library_in(run.sync.state, library);
                was.synced.dom().subset_of(after.synced.dom()) && was.docs.dom().subset_of(
                    after.docs.dom(),
                )
            } by {
            let mid = state::library_in(before.sync.state, library);
            assert(state::library_in(start, library).synced.dom().subset_of(mid.synced.dom()));
        }
    }
}

/// Every point of a run, whatever it is told, is one at which what holds of single steps holds: the run
/// has what its phase needs, its library keeps up with the state, and the attachments to come have no
/// record as long as no listing names a key twice.
pub proof fn every_point_of_a_run_is_in_order(
    libraries: Seq<Seq<char>>,
    start: StateView,
    dry_run: bool,
    events: Seq<EventView>,
)
    ensures
        ({
            let run = course(sync_model::first_step(libraries, start, dry_run), events).run;
            &&& sync_order::is_ready(run)
            &&& keeps_up(run)
            &&& listings_have_own_keys(events) ==> is_fresh(run)
        }),
{
    lemma_course(libraries, start, dry_run, events);
    if listings_have_own_keys(events) {
        lemma_course_fresh(libraries, start, dry_run, events);
    }
}

/// A library's version never changes at a point of a run at which a step of that library has failed:
/// at every point, what the next event makes of the version is what it was, or the version that the
/// library was listed at, with not one failure in the library's work.
pub proof fn runs_advance_versions_only_without_failure(
    libraries: Seq<Seq<char>>,
    start: StateView,
    dry_run: bool,
    events: Seq<EventView>,
    event: EventView,
    library: Seq<char>,
)
    ensures
        ({
            let run = course(sync_model::first_step(libraries, start, dry_run), events).run;
            let s = sync_model::after(run, event);
            let work = taken(run, event).1;
            let was = state::library_in(run.sync.state, library).last_library_version;
            let is = state::library_in(s.run.sync.state, library).last_library_version;
            is == was || {
                &&& s.run.phase is LibrarySaved
                &&& library == work.library
                &&& work.failures == 0
                &&& !tells_failure(s.notes)
                &&& is == work.version
            }
        }),
{
    lemma_course(libraries, start, dry_run, events);
    let run = course(sync_model::first_step(libraries, start, dry_run), events).run;
    let s = sync_model::after(run, event);
    if state::library_in(s.run.sync.state, library).last_library_version != state::library_in(
        run.sync.state,
        library,
    ).last_library_version {
        versions_wait_for_success(run, event, library);
    }
}

/// At no point of a run, whatever it is told, has anything been forgotten that was recorded when it
/// began.
pub proof fn runs_lose_nothing(
    libraries: Seq<Seq<char>>,
    start: StateView,
    dry_run: bool,
    events: Seq<EventView>,
    library: Seq<char>,
    key: Seq<char>,
)
    ensures
        ({
            let now = course(
                sync_model::first_step(libraries, start, dry_run),
                events,
            ).run.sync.state;
            let before = state::library_in(start, library);
            let after = state::library_in(now, library);
            &&& before.synced.contains_key(key) ==> after.synced.contains_key(key)
            &&& before.docs.contains_key(key) ==> after.docs.contains_key(key)
        }),
{
    lemma_course(libraries, start, dry_run, events);
    let now = course(sync_model::first_step(libraries, start, dry_run), events).run.sync.state;
    let after = state::library_in(now, library);
    assert(state::library_in(start, library).synced.dom().subset_of(after.synced.dom()));
}

/// At no point of a dry run, whatever it is told, has the state changed, and nothing is ever asked
/// for but what is in Zotero.
pub proof fn dry_runs_only_show(
    libraries: Seq<Seq<char>>,
    start: StateView,
    events: Seq<EventView>,
)
    ensures
        ({
            let s = course(sync_model::first_step(libraries, start, true), events);
            &&& s.run.sync.state == start
            &&& s.action is ListCollections || s.action is ListAttachments || s.action is FetchParent
                || s.action is Finish
        }),
{
    lemma_course(libraries, start, true, events);
    if events.len() > 0 {
        let first = sync_model::first_step(libraries, start, true);
        lemma_course(libraries, start, true, events.drop_last());
        dry_runs_change_nothing(course(first, events.drop_last()).run, events.last());
    }
}

proof fn lemma_course_fresh(
    libraries: Seq<Seq<char>>,
    start: StateView,
    dry_run: bool,
    events: Seq<EventView>,
)
    requires
        listings_have_own_keys(events),
    ensures
        is_fresh(course(sync_model::first_step(libraries, start, dry_run), events).run),
    decreases events.len(),
{
    if events.len() > 0 {
        let first = sync_model::first_step(libraries, start, dry_run);
        let before = events.drop_last();
        assert(listings_have_own_keys(before)) by {
            assert forall|i: int| 0 <= i < before.len() implies (
            #[trigger] before[i] matches EventView::Attachments(Some(listing)) ==> have_own_keys(
                listing.0,
            )) by {
                assert(before[i] == events[i]);
            }
        }
        lemma_course_fresh(libraries, start, dry_run, before);
        lemma_course(libraries, start, dry_run, before);
        assert(events.last() == events[events.len() - 1]);
        known_attachments_are_never_uploaded(course(first, before).run, events.last());
    }
}

/// At no point of a run is an attachment uploaded that the state has a record of, be it from before
/// the run or from the run itself, as long as no listing names a key twice.
pub proof fn nothing_is_uploaded_twice(
    libraries: Seq<Seq<char>>,
    start: StateView,
    dry_run: bool,
    events: Seq<EventView>,
)
    requires
        listings_have_own_keys(events),
    ensures
        ({
            let s = course(sync_model::first_step(libraries, start, dry_run), events);
            s.action is UploadPdf ==> {
                let library = s.run.phase->Upload_work.library;
                let key = s.run.phase->Upload_item.key;
                &&& s.run.phase is Upload
                &&& !state::library_in(s.run.sync.state, library).synced.contains_key(key)
                &&& !state::library_in(start, library).synced.contains_key(key)
            }
        }),
{
    let first = sync_model::first_step(libraries, start, dry_run);
    let s = course(first, events);
    if events.len() > 0 {
        let before = events.drop_last();
        assert(listings_have_own_keys(before)) by {
            assert forall|i: int| 0 <= i < before.len() implies (
            #[trigger] before[i] matches EventView::Attachments(Some(listing)) ==> have_own_keys(
                listing.0,
            )) by {
                assert(before[i] == events[i]);
            }
        }
        lemma_course_fresh(libraries, start, dry_run, before);
        lemma_course(libraries, start, dry_run, before);
        assert(events.last() == events[events.len() - 1]);
        known_attachments_are_never_uploaded(course(first, before).run, events.last());
        if s.action is UploadPdf {
            runs_lose_nothing(
                libraries,
                start,
                dry_run,
                events,
                s.run.phase->Upload_work.library,
                s.run.phase->Upload_item.key,
            );
        }
    }
}

/// Where every item has a record, none is new.
pub(crate) proof fn lemma_none_new(items: Seq<ItemView>, synced: Map<Seq<char>, u64>)
    requires
        forall|i: int| 0 <= i < items.len() ==> synced.contains_key((#[trigger] items[i]).key),
    ensures
        sync_model::new_items(items, synced).len() == 0,
    decreases items.len(),
{
    reveal(Seq::filter);
    if items.len() > 0 {
        let before = items.drop_last();
        assert forall|i: int| 0 <= i < before.len() implies synced.contains_key(
            (#[trigger] before[i]).key,
        ) by {
            assert(items[i] == before[i]);
        }
        lemma_none_new(before, synced);
        assert(items[items.len() - 1] == items.last());
    }
}

/// Whether all the attachments that an event lists have a record in a state.
pub open spec fn is_all_known(start: StateView, run: RunView, event: EventView) -> bool {
    run.phase matches PhaseView::Attachments { library, .. } ==> event
        matches EventView::Attachments(Some(listing)) ==> forall|j: int|
        0 <= j < listing.0.len() ==> state::library_in(start, library).synced.contains_key(
            (#[trigger] listing.0[j]).key,
        )
}

/// Whether each listing that a run is told of names only attachments that have a record in a state.
pub open spec fn lists_only_known(
    start: StateView,
    first: StepView,
    events: Seq<EventView>,
) -> bool {
    forall|i: int|
        0 <= i < events.len() ==> #[trigger] is_all_known(
            start,
            course(first, events.take(i)).run,
            events[i],
        )
}

/// Whether a run has no new attachment, neither at hand nor to come.
spec fn has_nothing_new(run: RunView) -> bool {
    &&& item_of(run.phase) is None
    &&& sync_order::work_of(run.phase) is Some ==> (sync_order::work_of(run.phase)->0).new.len()
        == 0
}

/// A listing of known attachments brings nothing new to a run that had nothing new.
proof fn lemma_nothing_new(run: RunView, event: EventView)
    requires
        sync_order::is_ready(run),
        has_nothing_new(run),
        is_all_known(run.sync.state, run, event),
    ensures
        has_nothing_new(sync_model::after(run, event).run),
{
    lemma_forms(run, event);
    if let PhaseView::Attachments { library, collections } = run.phase {
        if let EventView::Attachments(Some(listing)) = event {
            let synced = state::library_in(run.sync.state, library).synced;
            lemma_none_new(listing.0, synced);
        }
    }
}

/// A sync that is told of no attachment without a record leaves the attachments alone: at no point is
/// a publication fetched, a file downloaded, a folder made or anything uploaded to the tablet.
pub proof fn known_attachments_are_left_alone(
    libraries: Seq<Seq<char>>,
    start: StateView,
    dry_run: bool,
    events: Seq<EventView>,
)
    requires
        lists_only_known(start, sync_model::first_step(libraries, start, dry_run), events),
    ensures
        ({
            let s = course(sync_model::first_step(libraries, start, dry_run), events);
            &&& !(s.action is FetchParent)
            &&& !(s.action is DownloadPdf)
            &&& !(s.action is CreateFolder)
            &&& !(s.action is UploadPdf)
        }),
{
    lemma_course_nothing_new(libraries, start, dry_run, events);
}

proof fn lemma_course_nothing_new(
    libraries: Seq<Seq<char>>,
    start: StateView,
    dry_run: bool,
    events: Seq<EventView>,
)
    requires
        lists_only_known(start, sync_model::first_step(libraries, start, dry_run), events),
    ensures
        ({
            let s = course(sync_model::first_step(libraries, start, dry_run), events);
            has_nothing_new(s.run) && sync_order::asks_for(s.run.phase, s.action)
        }),
    decreases events.len(),
{
    let first = sync_model::first_step(libraries, start, dry_run);
    if events.len() > 0 {
        let before = events.drop_last();
        let last = events.len() - 1;
        assert forall|i: int| 0 <= i < before.len() implies #[trigger] is_all_known(
            start,
            course(first, before.take(i)).run,
            before[i],
        ) by {
            assert(before.take(i) =~= events.take(i));
            assert(is_all_known(start, course(first, events.take(i)).run, events[i]));
        }
        lemma_course_nothing_new(libraries, start, dry_run, before);
        lemma_course(libraries, start, dry_run, before);
        let run = course(first, before).run;
        assert(events.take(last) =~= before);
        assert(is_all_known(start, course(first, events.take(last)).run, events[last]));
        assert(is_all_known(run.sync.state, run, events.last())) by {
            if let PhaseView::Attachments { library, collections } = run.phase {
                assert(state::library_in(start, library).synced.dom().subset_of(
                    state::library_in(run.sync.state, library).synced.dom(),
                ));
            }
        }
        lemma_nothing_new(run, events.last());
        sync_order::runs_stay_ready(run, events.last());
    }
}

/// The library that a run is at and may write to.
spec fn library_at(phase: PhaseView) -> Option<Seq<char>> {
    match phase {
        PhaseView::Collections { library } => Some(library),
        PhaseView::Attachments { library, .. } => Some(library),
        PhaseView::Preview { .. } => None,
        _ => match sync_order::work_of(phase) {
            Some(work) => Some(work.library),
            None => None,
        },
    }
}

/// Whether a run is at one of the libraries, and only some of them are to come.
spec fn stays_within(libraries: Seq<Seq<char>>, run: RunView) -> bool {
    &&& library_at(run.phase) is Some ==> libraries.contains(library_at(run.phase)->0)
    &&& forall|i: int|
        0 <= i < run.sync.libraries.len() ==> libraries.contains(
            #[trigger] run.sync.libraries[i],
        )
}

/// A step keeps to the libraries, and changes none but the one that the run is at.
proof fn lemma_stays_within(libraries: Seq<Seq<char>>, run: RunView, event: EventView)
    requires
        sync_order::is_ready(run),
        stays_within(libraries, run),
    ensures
        ({
            let s = sync_model::after(run, event);
            &&& stays_within(libraries, s.run)
            &&& forall|library: Seq<char>|
                !libraries.contains(library) ==> #[trigger] state::library_in(
                    s.run.sync.state,
                    library,
                ) == state::library_in(run.sync.state, library)
        }),
{
    lemma_forms(run, event);
    let s = sync_model::after(run, event);
    if is_aside(run) && is_next(run, s) && run.sync.libraries.len() > 0 {
        assert(libraries.contains(run.sync.libraries[0]));
        assert forall|i: int| 0 <= i < s.run.sync.libraries.len() implies libraries.contains(
            #[trigger] s.run.sync.libraries[i],
        ) by {
            assert(s.run.sync.libraries[i] == run.sync.libraries[i + 1]);
        }
    }
}

/// At no point of a run, whatever it is told, has anything changed that is known of a library which is
/// not among those to be synced.
pub proof fn other_libraries_are_left_alone(
    libraries: Seq<Seq<char>>,
    start: StateView,
    dry_run: bool,
    events: Seq<EventView>,
    library: Seq<char>,
)
    requires
        !libraries.contains(library),
    ensures
        state::library_in(
            course(sync_model::first_step(libraries, start, dry_run), events).run.sync.state,
            library,
        ) == state::library_in(start, library),
{
    lemma_course_within(libraries, start, dry_run, events, library);
}

proof fn lemma_course_within(
    libraries: Seq<Seq<char>>,
    start: StateView,
    dry_run: bool,
    events: Seq<EventView>,
    library: Seq<char>,
)
    requires
        !libraries.contains(library),
    ensures
        ({
            let run = course(sync_model::first_step(libraries, start, dry_run), events).run;
            &&& stays_within(libraries, run)
            &&& state::library_in(run.sync.state, library) == state::library_in(start, library)
        }),
    decreases events.len(),
{
    let first = sync_model::first_step(libraries, start, dry_run);
    if events.len() == 0 {
        if libraries.len() > 0 {
            assert(libraries.contains(libraries[0]));
            assert forall|i: int| 0 <= i < first.run.sync.libraries.len() implies libraries.contains(
                #[trigger] first.run.sync.libraries[i],
            ) by {
                assert(first.run.sync.libraries[i] == libraries[i + 1]);
            }
        }
    } else {
        let before = events.drop_last();
        lemma_course_within(libraries, start, dry_run, before, library);
        lemma_course(libraries, start, dry_run, before);
        lemma_stays_within(libraries, course(first, before).run, events.last());
    }
}

/// Whether every document of a library belongs to an attachment that has a record.
pub open spec fn documents_have_records(lib: LibraryView) -> bool {
    lib.docs.dom().subset_of(lib.synced.dom())
}

/// Whether what a run knows of a library has a record for each document.
spec fn knows_documents_by_records(run: RunView, library: Seq<char>) -> bool {
    &&& documents_have_records(state::library_in(run.sync.state, library))
    &&& sync_order::work_of(run.phase) is Some && !(run.phase is Preview) && (sync_order::work_of(
        run.phase,
    )->0).library == library ==> documents_have_records((sync_order::work_of(run.phase)->0).lib)
}

proof fn lemma_documents_have_records(run: RunView, event: EventView, library: Seq<char>)
    requires
        sync_order::is_ready(run),
        knows_documents_by_records(run, library),
    ensures
        knows_documents_by_records(sync_model::after(run, event).run, library),
{
    lemma_forms(run, event);
    if let PhaseView::Attachments { library: at, collections } = run.phase {
        if let EventView::Attachments(Some(listing)) = event {
            let lib = state::library_in(run.sync.state, at);
            lemma_recorded(lib.synced, sync_model::known_items(listing.0, lib.synced));
        }
    }
}

/// The documents that are kept track of stay within the recorded attachments: where every document of
/// a library belonged to an attachment with a record when a run began, that is so at every point of
/// the run, whatever it is told.
pub proof fn documents_stay_within_the_records(
    libraries: Seq<Seq<char>>,
    start: StateView,
    dry_run: bool,
    events: Seq<EventView>,
    library: Seq<char>,
)
    requires
        documents_have_records(state::library_in(start, library)),
    ensures
        documents_have_records(
            state::library_in(
                course(sync_model::first_step(libraries, start, dry_run), events).run.sync.state,
                library,
            ),
        ),
{
    lemma_course_documents(libraries, start, dry_run, events, library);
}

proof fn lemma_course_documents(
    libraries: Seq<Seq<char>>,
    start: StateView,
    dry_run: bool,
    events: Seq<EventView>,
    library: Seq<char>,
)
    requires
        documents_have_records(state::library_in(start, library)),
    ensures
        knows_documents_by_records(
            course(sync_model::first_step(libraries, start, dry_run), events).run,
            library,
        ),
    decreases events.len(),
{
    if events.len() > 0 {
        let first = sync_model::first_step(libraries, start, dry_run);
        let before = events.drop_last();
        lemma_course_documents(libraries, start, dry_run, before, library);
        lemma_course(libraries, start, dry_run, before);
        lemma_documents_have_records(course(first, before).run, events.last(), library);
    }
}

} // verus!
