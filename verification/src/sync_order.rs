//! The order of a sync: replies are taken in turn, and every reply brings the end nearer.
use vstd::prelude::*;

use crate::archive;
use crate::archive::ArchiveError;
use crate::events::{ActionView, EventView, NoteView, Outcome, PdfReplyView, Trouble};
use crate::folders;
use crate::folders::{FolderIndexView, WalkView};
use crate::placement;
use crate::placement::ItemPlacementView;
use crate::remarkable::FileEntryView;
use crate::state;
use crate::state::{DocView, StateView};
use crate::sync_model;
use crate::sync_model::{GoalView, PhaseView, RunView, StepView, SyncView, WorkView};
use crate::zotero::{CollectionView, ItemView};

verus! {

/// The work that a run is at.
pub open spec fn work_of(phase: PhaseView) -> Option<WorkView> {
    match phase {
        PhaseView::Preview { work, .. } => Some(work),
        PhaseView::Connecting { work, .. } => Some(work),
        PhaseView::Listing { work, .. } => Some(work),
        PhaseView::Archive { work, .. } => Some(work),
        PhaseView::WritingBack { work, .. } => Some(work),
        PhaseView::DocSaved { work } => Some(work),
        PhaseView::Parent { work, .. } => Some(work),
        PhaseView::Download { work, .. } => Some(work),
        PhaseView::Folder { work, .. } => Some(work),
        PhaseView::Upload { work, .. } => Some(work),
        PhaseView::ItemSaved { work } => Some(work),
        _ => None,
    }
}

/// Whether a phase is one of those that need the files in the cloud.
pub open spec fn needs_index(phase: PhaseView) -> bool {
    phase is Archive || phase is WritingBack || phase is DocSaved || phase is Folder
        || phase is Upload
}

/// Whether a run holds what its phase needs.
pub open spec fn is_ready(run: RunView) -> bool {
    &&& run.phase is Listing ==> run.sync.connected
    &&& needs_index(run.phase) ==> run.sync.index is Some
    &&& run.phase matches PhaseView::Folder { walk, .. } ==> walk.left.len() > 0
}

/// Whether an action is the one whose result a phase waits for.
pub open spec fn asks_for(phase: PhaseView, action: ActionView) -> bool {
    match phase {
        PhaseView::Collections { .. } => action is ListCollections,
        PhaseView::Attachments { .. } => action is ListAttachments,
        PhaseView::Preview { .. } => action is FetchParent,
        PhaseView::Connecting { .. } => action is Connect,
        PhaseView::Listing { .. } => action is ListFiles,
        PhaseView::Archive { .. } => action is DownloadArchive,
        PhaseView::WritingBack { .. } => action is UploadAttachment,
        PhaseView::DocSaved { .. } => action is Save,
        PhaseView::Parent { .. } => action is FetchParent,
        PhaseView::Download { .. } => action is DownloadPdf,
        PhaseView::Folder { .. } => action is CreateFolder,
        PhaseView::Upload { .. } => action is UploadPdf,
        PhaseView::ItemSaved { .. } => action is Save,
        PhaseView::LibrarySaved => action is Save,
        PhaseView::Over => action is Finish,
    }
}

/// Whether an event tells what came of an action.
pub open spec fn tells_of(event: EventView, action: ActionView) -> bool {
    match action {
        ActionView::ListCollections { .. } => event is Collections,
        ActionView::ListAttachments { .. } => event is Attachments,
        ActionView::FetchParent { .. } => event is Parent,
        ActionView::DownloadPdf { .. } => event is Pdf,
        ActionView::Connect => event is Connected,
        ActionView::ListFiles => event is Files,
        ActionView::CreateFolder { .. } => event is FolderCreated,
        ActionView::UploadPdf { .. } => event is Uploaded,
        ActionView::DownloadArchive { .. } => event is Archive,
        ActionView::UploadAttachment { .. } => event is WrittenBack,
        ActionView::Save => event is Saved,
        ActionView::Finish(_) => false,
    }
}

/// Whether a step asks for the archive of one of the documents, which has changed.
pub open spec fn finds_doc(
    sync: SyncView,
    index: FolderIndexView,
    work: WorkView,
    notes: Seq<NoteView>,
    s: StepView,
) -> bool {
    let phase = s.run.phase;
    &&& s.run.sync == sync
    &&& s.notes == notes
    &&& phase is Archive
    &&& s.action == (ActionView::DownloadArchive { doc_id: phase->Archive_remote.id })
    &&& phase->Archive_work == (WorkView { docs: phase->Archive_work.docs, ..work })
    &&& phase->Archive_work.docs.len() < work.docs.len()
    &&& exists|i: int|
        doc_at(index, work.docs, phase->Archive_key, phase->Archive_remote, i)
}

/// Whether the document at `i` is that of an attachment and has changed to what the cloud has.
pub open spec fn doc_at(
    index: FolderIndexView,
    docs: Seq<(Seq<char>, DocView)>,
    key: Seq<char>,
    remote: FileEntryView,
    i: int,
) -> bool {
    &&& 0 <= i < docs.len()
    &&& docs[i].0 == key
    &&& sync_model::changed_copy(index, docs[i].1) == Some(remote)
}

/// Going on to the next document leads to the new attachments once all documents have been looked
/// at, or to one of the documents.
pub(crate) proof fn lemma_next_doc(
    sync: SyncView,
    index: FolderIndexView,
    work: WorkView,
    notes: Seq<NoteView>,
) -> (found: bool)
    ensures
        found ==> finds_doc(
            sync,
            index,
            work,
            notes,
            sync_model::next_doc(sync, index, work, notes),
        ),
        !found ==> sync_model::next_doc(sync, index, work, notes) == sync_model::next_item(
            sync,
            WorkView { docs: Seq::empty(), ..work },
            notes,
        ),
    decreases work.docs.len(),
{
    let s = sync_model::next_doc(sync, index, work, notes);
    if work.docs.len() == 0 {
        assert(work.docs =~= Seq::<(Seq<char>, DocView)>::empty());
        assert((WorkView { docs: Seq::empty(), ..work }) == work);
        false
    } else if sync_model::changed_copy(index, work.docs[0].1) is None {
        let rest = sync_model::past_doc(work);
        let found = lemma_next_doc(sync, index, rest, notes);
        if found {
            let key = s.run.phase->Archive_key;
            let remote = s.run.phase->Archive_remote;
            let i = choose|i: int| doc_at(index, rest.docs, key, remote, i);
            assert(work.docs[i + 1] == rest.docs[i]);
            assert(doc_at(index, work.docs, key, remote, i + 1));
        }
        found
    } else {
        assert(doc_at(
            index,
            work.docs,
            s.run.phase->Archive_key,
            s.run.phase->Archive_remote,
            0,
        ));
        true
    }
}

/// Where a preview leads: to the next library, or to an attachment whose publication is asked for.
pub open spec fn preview_shape(sync: SyncView, work: WorkView, s: StepView) -> bool {
    ||| exists|told: Seq<NoteView>| s == #[trigger] sync_model::next_library(sync, told)
    ||| {
        &&& s.run.sync == sync
        &&& s.run.phase matches PhaseView::Preview { work: w, .. }
        &&& s.action is FetchParent
        &&& w == (WorkView { new: w.new, ..work })
        &&& w.new.len() < work.new.len()
    }
}

/// A preview leads to the next library, or to the publication of one of its attachments.
pub(crate) proof fn lemma_preview(sync: SyncView, work: WorkView, notes: Seq<NoteView>)
    ensures
        preview_shape(sync, work, sync_model::preview(sync, work, notes)),
    decreases work.new.len(),
{
    if work.new.len() > 0 && work.new[0].data.parent_item is None {
        lemma_preview(
            sync,
            sync_model::past_item(work),
            notes.push(
                sync_model::would_upload(
                    placement::placement_of(work.new[0], None, work.collections),
                ),
            ),
        );
    }
}

/// Whether a step asks for what its phase waits for, has what the phase needs, and is no answer to a
/// reply out of turn.
spec fn is_sound(s: StepView) -> bool {
    &&& is_ready(s.run)
    &&& asks_for(s.run.phase, s.action)
    &&& s.action != ActionView::Finish(Outcome::Aborted(Trouble::OutOfTurn))
}

proof fn lemma_sound_item(sync: SyncView, work: WorkView, notes: Seq<NoteView>)
    ensures
        is_sound(sync_model::next_item(sync, work, notes)),
{
}

proof fn lemma_sound_doc(
    sync: SyncView,
    index: FolderIndexView,
    work: WorkView,
    notes: Seq<NoteView>,
)
    requires
        sync.index is Some,
    ensures
        is_sound(sync_model::next_doc(sync, index, work, notes)),
{
    let found = lemma_next_doc(sync, index, work, notes);
    lemma_sound_item(sync, WorkView { docs: Seq::empty(), ..work }, notes);
}

proof fn lemma_sound_preview(sync: SyncView, work: WorkView, notes: Seq<NoteView>)
    ensures
        is_sound(sync_model::preview(sync, work, notes)),
{
    lemma_preview(sync, work, notes);
}

proof fn lemma_sound_path(
    sync: SyncView,
    index: FolderIndexView,
    work: WorkView,
    item: ItemView,
    placement: ItemPlacementView,
    bytes: Seq<u8>,
    walk: WalkView,
    notes: Seq<NoteView>,
)
    requires
        sync.index is Some,
    ensures
        is_sound(sync_model::down_path(sync, index, work, item, placement, bytes, walk, notes)),
{
    folders::only_missing_folders_are_made(index, walk);
}

proof fn lemma_sound_tablet(sync: SyncView, work: WorkView, goal: GoalView, notes: Seq<NoteView>)
    ensures
        is_sound(sync_model::with_tablet(sync, work, goal, notes)),
{
    if sync.connected && sync.index is Some {
        match goal {
            GoalView::Docs => lemma_sound_doc(sync, sync.index->0, work, notes),
            GoalView::Upload { item, placement, bytes } => lemma_sound_path(
                sync,
                sync.index->0,
                work,
                item,
                placement,
                bytes,
                WalkView { left: placement.folder_path, folder: Seq::empty() },
                notes,
            ),
        }
    }
}

proof fn lemma_sound_attachments(
    sync: SyncView,
    library: Seq<char>,
    collections: Map<Seq<char>, CollectionView>,
    items: Seq<ItemView>,
    version: u64,
)
    ensures
        is_sound(sync_model::with_attachments(sync, library, collections, items, version)),
{
    let work = sync_model::work_for(sync.state, library, collections, items, version);
    let synced = state::library_in(sync.state, library).synced;
    let told = seq![
        NoteView::Counted {
            library,
            changed: items.len(),
            new: work.new.len(),
            updated: sync_model::known_items(items, synced).len(),
        },
    ];
    lemma_sound_preview(sync, work, told);
    lemma_sound_tablet(sync, work, GoalView::Docs, told);
    lemma_sound_item(sync, work, told);
}

proof fn lemma_sound_failed_doc(
    sync: SyncView,
    index: FolderIndexView,
    work: WorkView,
    key: Seq<char>,
    cause: Option<ArchiveError>,
)
    requires
        sync.index is Some,
    ensures
        is_sound(sync_model::doc_failed(sync, index, work, key, cause)),
{
    lemma_sound_doc(
        sync,
        index,
        sync_model::with_failure(work),
        seq![NoteView::WriteBackFailed { key, cause }],
    );
}

/// Whether an event is of the kind that a phase waits for.
spec fn answers(phase: PhaseView, event: EventView) -> bool {
    match phase {
        PhaseView::Collections { .. } => event is Collections,
        PhaseView::Attachments { .. } => event is Attachments,
        PhaseView::Preview { .. } => event is Parent,
        PhaseView::Connecting { .. } => event is Connected,
        PhaseView::Listing { .. } => event is Files,
        PhaseView::Archive { .. } => event is Archive,
        PhaseView::WritingBack { .. } => event is WrittenBack,
        PhaseView::DocSaved { .. } => event is Saved,
        PhaseView::Parent { .. } => event is Parent,
        PhaseView::Download { .. } => event is Pdf,
        PhaseView::Folder { .. } => event is FolderCreated,
        PhaseView::Upload { .. } => event is Uploaded,
        PhaseView::ItemSaved { .. } => event is Saved,
        PhaseView::LibrarySaved => event is Saved,
        PhaseView::Over => false,
    }
}

/// A run begins with what its phase needs, and asks for what that phase waits for.
pub proof fn runs_begin_ready(libraries: Seq<Seq<char>>, state: StateView, dry_run: bool)
    ensures
        ({
            let s = sync_model::first_step(libraries, state, dry_run);
            is_ready(s.run) && asks_for(s.run.phase, s.action)
        }),
{
}

/// Each step asks for what its phase waits for, and has what it needs, whatever came before.
pub proof fn runs_stay_ready(run: RunView, event: EventView)
    requires
        is_ready(run),
    ensures
        ({
            let s = sync_model::after(run, event);
            is_ready(s.run) && asks_for(s.run.phase, s.action)
        }),
{
    if answers(run.phase, event) {
        lemma_sound(run, event);
    }
}

/// A reply that tells of the action which was asked for is always taken: only another one can be
/// refused as out of turn.
pub proof fn replies_in_turn_are_taken(run: RunView, action: ActionView, event: EventView)
    requires
        is_ready(run),
        asks_for(run.phase, action),
        tells_of(event, action),
    ensures
        sync_model::after(run, event).action != ActionView::Finish(
            Outcome::Aborted(Trouble::OutOfTurn),
        ),
{
    lemma_sound(run, event);
}

proof fn lemma_sound(run: RunView, event: EventView)
    requires
        is_ready(run),
        answers(run.phase, event),
    ensures
        is_sound(sync_model::after(run, event)),
{
    let sync = run.sync;
    assert(is_sound(sync_model::after(run, event))) by {
        match (run.phase, event) {
            (
                PhaseView::Attachments { library, collections },
                EventView::Attachments(Some(listing)),
            ) => {
                lemma_sound_attachments(sync, library, collections, listing.0, listing.1);
            },
            (PhaseView::Preview { work, item }, EventView::Parent(parent)) => {
                lemma_sound_preview(
                    sync,
                    work,
                    seq![
                        sync_model::would_upload(
                            placement::placement_of(item, parent, work.collections),
                        ),
                    ],
                );
            },
            (PhaseView::Connecting { work, goal }, _) => {
                lemma_sound_tablet(
                    SyncView { connected: true, ..sync },
                    work,
                    goal,
                    Seq::empty(),
                );
            },
            (PhaseView::Listing { work, goal }, EventView::Files(Some(files))) => {
                lemma_sound_tablet(
                    SyncView { index: Some(folders::index_of(files)), ..sync },
                    work,
                    goal,
                    Seq::empty(),
                );
            },
            (PhaseView::Archive { work, key, remote }, EventView::Archive(Some(bytes))) => {
                if let Err(e) = archive::pdf_inside(bytes, remote.id) {
                    lemma_sound_failed_doc(sync, sync.index->0, work, key, Some(e));
                }
            },
            (PhaseView::Archive { work, key, remote }, EventView::Archive(None)) => {
                lemma_sound_failed_doc(sync, sync.index->0, work, key, None);
            },
            (PhaseView::WritingBack { work, key, remote }, _) => {
                lemma_sound_failed_doc(sync, sync.index->0, work, key, None);
            },
            (PhaseView::DocSaved { work }, _) => {
                lemma_sound_doc(sync, sync.index->0, work, Seq::empty());
            },
            (
                PhaseView::Download { work, item, placement },
                EventView::Pdf(PdfReplyView::Stored(bytes)),
            ) => {
                lemma_sound_tablet(
                    sync,
                    work,
                    GoalView::Upload { item, placement, bytes },
                    Seq::empty(),
                );
            },
            (
                PhaseView::Folder { work, item, placement, bytes, walk },
                EventView::FolderCreated(Some(created)),
            ) => {
                let after = folders::index_after_making(sync.index->0, walk, created);
                lemma_sound_path(
                    SyncView { index: Some(after), ..sync },
                    after,
                    work,
                    item,
                    placement,
                    bytes,
                    folders::walk_after_making(walk, created),
                    Seq::empty(),
                );
            },
            _ => {},
        }
    }
}

/// How far a run is from its end: the libraries to come, how much of the library at hand is left, the
/// documents and attachments to come, how much of the one at hand is left, and the folders to come.
pub struct Rank {
    pub libraries: nat,
    pub stage: nat,
    pub pieces: nat,
    pub steps: nat,
    pub folders: nat,
}

/// Whether `a` is nearer to the end than `b`: the first number in which they differ decides.
pub open spec fn is_nearer(a: Rank, b: Rank) -> bool {
    ||| a.libraries < b.libraries
    ||| a.libraries == b.libraries && a.stage < b.stage
    ||| a.libraries == b.libraries && a.stage == b.stage && a.pieces < b.pieces
    ||| a.libraries == b.libraries && a.stage == b.stage && a.pieces == b.pieces && a.steps
        < b.steps
    ||| a.libraries == b.libraries && a.stage == b.stage && a.pieces == b.pieces && a.steps
        == b.steps && a.folders < b.folders
}

/// The rank of a run in the middle of a library's work.
pub open spec fn work_rank(sync: SyncView, work: WorkView, steps: nat, folders: nat) -> Rank {
    Rank {
        libraries: sync.libraries.len(),
        stage: 1,
        pieces: work.docs.len() + work.new.len(),
        steps,
        folders,
    }
}

/// The rank of a run between two pieces of work.
pub open spec fn stage_rank(sync: SyncView, stage: nat) -> Rank {
    Rank { libraries: sync.libraries.len(), stage, pieces: 0, steps: 0, folders: 0 }
}

/// How far a run is from its end.
pub open spec fn rank(run: RunView) -> Rank {
    match run.phase {
        PhaseView::Collections { .. } => stage_rank(run.sync, 3),
        PhaseView::Attachments { .. } => stage_rank(run.sync, 2),
        PhaseView::Preview { work, .. } => work_rank(run.sync, work, 0, 0),
        PhaseView::Parent { work, .. } => work_rank(run.sync, work, 6, 0),
        PhaseView::Download { work, .. } => work_rank(run.sync, work, 5, 0),
        PhaseView::Connecting { work, .. } => work_rank(run.sync, work, 4, 0),
        PhaseView::Listing { work, .. } => work_rank(run.sync, work, 3, 0),
        PhaseView::Folder { work, walk, .. } => work_rank(run.sync, work, 2, walk.left.len()),
        PhaseView::Archive { work, .. } => work_rank(run.sync, work, 2, 0),
        PhaseView::Upload { work, .. } => work_rank(run.sync, work, 1, 0),
        PhaseView::WritingBack { work, .. } => work_rank(run.sync, work, 1, 0),
        PhaseView::DocSaved { work } => work_rank(run.sync, work, 0, 0),
        PhaseView::ItemSaved { work } => work_rank(run.sync, work, 0, 0),
        PhaseView::LibrarySaved => stage_rank(run.sync, 0),
        PhaseView::Over => stage_rank(run.sync, 0),
    }
}

/// Whether a step ends the run or brings it nearer to its end than `r`.
spec fn nears(s: StepView, r: Rank) -> bool {
    s.run.phase is Over || is_nearer(rank(s.run), r)
}

proof fn lemma_item_nears(sync: SyncView, work: WorkView, notes: Seq<NoteView>)
    ensures
        nears(sync_model::next_item(sync, work, notes), work_rank(sync, work, 0, 0)),
{
}

proof fn lemma_doc_nears(
    sync: SyncView,
    index: FolderIndexView,
    work: WorkView,
    notes: Seq<NoteView>,
)
    ensures
        nears(sync_model::next_doc(sync, index, work, notes), work_rank(sync, work, 0, 0)),
{
    let found = lemma_next_doc(sync, index, work, notes);
    lemma_item_nears(sync, WorkView { docs: Seq::empty(), ..work }, notes);
}

proof fn lemma_preview_nears(sync: SyncView, work: WorkView, notes: Seq<NoteView>)
    ensures
        nears(sync_model::preview(sync, work, notes), work_rank(sync, work, 0, 0)),
{
    lemma_preview(sync, work, notes);
}

proof fn lemma_path_nears(
    sync: SyncView,
    index: FolderIndexView,
    work: WorkView,
    item: ItemView,
    placement: ItemPlacementView,
    bytes: Seq<u8>,
    walk: WalkView,
    notes: Seq<NoteView>,
)
    ensures
        nears(
            sync_model::down_path(sync, index, work, item, placement, bytes, walk, notes),
            work_rank(sync, work, 2, walk.left.len() + 1),
        ),
{
    folders::only_missing_folders_are_made(index, walk);
}

proof fn lemma_tablet_nears(sync: SyncView, work: WorkView, goal: GoalView, notes: Seq<NoteView>)
    ensures
        ({
            let s = sync_model::with_tablet(sync, work, goal, notes);
            &&& nears(s, work_rank(sync, work, 5, 0))
            &&& sync.connected ==> nears(s, work_rank(sync, work, 4, 0))
            &&& sync.connected && sync.index is Some ==> nears(s, work_rank(sync, work, 3, 0))
        }),
{
    if sync.connected && sync.index is Some {
        match goal {
            GoalView::Docs => lemma_doc_nears(sync, sync.index->0, work, notes),
            GoalView::Upload { item, placement, bytes } => lemma_path_nears(
                sync,
                sync.index->0,
                work,
                item,
                placement,
                bytes,
                WalkView { left: placement.folder_path, folder: Seq::empty() },
                notes,
            ),
        }
    }
}

proof fn lemma_attachments_near(
    sync: SyncView,
    library: Seq<char>,
    collections: Map<Seq<char>, CollectionView>,
    items: Seq<ItemView>,
    version: u64,
)
    ensures
        nears(
            sync_model::with_attachments(sync, library, collections, items, version),
            stage_rank(sync, 2),
        ),
{
    let work = sync_model::work_for(sync.state, library, collections, items, version);
    let synced = state::library_in(sync.state, library).synced;
    let told = seq![
        NoteView::Counted {
            library,
            changed: items.len(),
            new: work.new.len(),
            updated: sync_model::known_items(items, synced).len(),
        },
    ];
    lemma_preview_nears(sync, work, told);
    lemma_tablet_nears(sync, work, GoalView::Docs, told);
    lemma_item_nears(sync, work, told);
}

proof fn lemma_failed_doc_nears(
    sync: SyncView,
    index: FolderIndexView,
    work: WorkView,
    key: Seq<char>,
    cause: Option<ArchiveError>,
)
    ensures
        nears(
            sync_model::doc_failed(sync, index, work, key, cause),
            work_rank(sync, work, 0, 0),
        ),
{
    lemma_doc_nears(
        sync,
        index,
        sync_model::with_failure(work),
        seq![NoteView::WriteBackFailed { key, cause }],
    );
}

/// Every run comes to an end: each reply, whatever it is, either ends the run or brings it nearer to
/// its end. A reply to no request ends it.
pub proof fn every_reply_brings_the_end_nearer(run: RunView, event: EventView)
    requires
        is_ready(run),
    ensures
        ({
            let s = sync_model::after(run, event);
            s.run.phase is Over || is_nearer(rank(s.run), rank(run))
        }),
{
    let sync = run.sync;
    assert(nears(sync_model::after(run, event), rank(run))) by {
        match (run.phase, event) {
            (
                PhaseView::Attachments { library, collections },
                EventView::Attachments(Some(listing)),
            ) => {
                lemma_attachments_near(sync, library, collections, listing.0, listing.1);
            },
            (PhaseView::Preview { work, item }, EventView::Parent(parent)) => {
                lemma_preview_nears(
                    sync,
                    work,
                    seq![
                        sync_model::would_upload(
                            placement::placement_of(item, parent, work.collections),
                        ),
                    ],
                );
            },
            (PhaseView::Connecting { work, goal }, _) => {
                lemma_tablet_nears(
                    SyncView { connected: true, ..sync },
                    work,
                    goal,
                    Seq::empty(),
                );
            },
            (PhaseView::Listing { work, goal }, EventView::Files(Some(files))) => {
                lemma_tablet_nears(
                    SyncView { index: Some(folders::index_of(files)), ..sync },
                    work,
                    goal,
                    Seq::empty(),
                );
            },
            (PhaseView::Archive { work, key, remote }, EventView::Archive(Some(bytes))) => {
                if let Err(e) = archive::pdf_inside(bytes, remote.id) {
                    lemma_failed_doc_nears(sync, sync.index->0, work, key, Some(e));
                }
            },
            (PhaseView::Archive { work, key, remote }, EventView::Archive(None)) => {
                lemma_failed_doc_nears(sync, sync.index->0, work, key, None);
            },
            (PhaseView::WritingBack { work, key, remote }, _) => {
                lemma_failed_doc_nears(sync, sync.index->0, work, key, None);
            },
            (PhaseView::DocSaved { work }, _) => {
                lemma_doc_nears(sync, sync.index->0, work, Seq::empty());
            },
            (
                PhaseView::Download { work, item, placement },
                EventView::Pdf(PdfReplyView::Stored(bytes)),
            ) => {
                lemma_tablet_nears(
                    sync,
                    work,
                    GoalView::Upload { item, placement, bytes },
                    Seq::empty(),
                );
            },
            (
                PhaseView::Folder { work, item, placement, bytes, walk },
                EventView::FolderCreated(Some(created)),
            ) => {
                let after = folders::index_after_making(sync.index->0, walk, created);
                lemma_path_nears(
                    SyncView { index: Some(after), ..sync },
                    after,
                    work,
                    item,
                    placement,
                    bytes,
                    folders::walk_after_making(walk, created),
                    Seq::empty(),
                );
            },
            (PhaseView::Download { work, item, placement }, EventView::Pdf(reply)) => {
                lemma_item_nears(
                    sync,
                    work,
                    seq![NoteView::Skipped { name: placement.name }],
                );
                lemma_item_nears(
                    sync,
                    sync_model::with_failure(work),
                    seq![NoteView::UploadFailed { name: placement.name }],
                );
            },
            (PhaseView::Upload { work, item, name }, _) => {
                lemma_item_nears(
                    sync,
                    sync_model::with_failure(work),
                    seq![NoteView::UploadFailed { name }],
                );
            },
            (PhaseView::ItemSaved { work }, _) => {
                lemma_item_nears(sync, work, Seq::empty());
            },
            _ => {},
        }
    }
}

} // verus!
