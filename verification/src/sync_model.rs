//! The course of a sync, as a function from where it stands and what came of the last action to what
//! comes next.
use vstd::prelude::*;

use crate::archive;
use crate::archive::ArchiveError;
use crate::events::{ActionView, EventView, NoteView, Outcome, PdfReplyView, Trouble};
use crate::folders;
use crate::folders::{FolderIndexView, WalkStepView, WalkView};
use crate::keymap;
use crate::placement;
use crate::placement::ItemPlacementView;
use crate::remarkable::FileEntryView;
use crate::state;
use crate::state::{DocView, LibraryView, StateView};
use crate::zotero::{CollectionView, ItemView};

verus! {

/// What a run keeps from library to library.
#[verifier::ext_equal]
pub struct SyncView {
    /// Whether the run only tells what it would do.
    pub dry_run: bool,
    /// The libraries that are still to come.
    pub libraries: Seq<Seq<char>>,
    pub state: StateView,
    /// Whether a session with the cloud is open.
    pub connected: bool,
    /// The files in the cloud, once they have been listed.
    pub index: Option<FolderIndexView>,
    /// How many steps failed in the libraries that are done.
    pub failures: usize,
}

/// What a run knows of the library at hand.
#[verifier::ext_equal]
pub struct WorkView {
    pub library: Seq<char>,
    pub lib: LibraryView,
    pub collections: Map<Seq<char>, CollectionView>,
    /// The version that the library has now.
    pub version: u64,
    /// The new attachments that are still to come.
    pub new: Seq<ItemView>,
    /// The documents that are still to be looked at.
    pub docs: Seq<(Seq<char>, DocView)>,
    /// How many steps failed in this library.
    pub failures: usize,
}

/// What the files in the cloud are needed for.
#[verifier::ext_equal]
pub enum GoalView {
    /// To see which documents have changed.
    Docs,
    /// To find the folder for a new document.
    Upload { item: ItemView, placement: ItemPlacementView, bytes: Seq<u8> },
}

/// What a run waits for.
#[verifier::ext_equal]
pub enum PhaseView {
    /// The collections of a library.
    Collections { library: Seq<char> },
    /// The attachments of a library.
    Attachments { library: Seq<char>, collections: Map<Seq<char>, CollectionView> },
    /// The publication of an attachment that would be uploaded.
    Preview { work: WorkView, item: ItemView },
    /// A session with the cloud.
    Connecting { work: WorkView, goal: GoalView },
    /// The files in the cloud.
    Listing { work: WorkView, goal: GoalView },
    /// The archive of a document that has changed.
    Archive { work: WorkView, key: Seq<char>, remote: FileEntryView },
    /// The end of an upload to Zotero.
    WritingBack { work: WorkView, key: Seq<char>, remote: FileEntryView },
    /// The state being written down, after an upload to Zotero.
    DocSaved { work: WorkView },
    /// The publication of an attachment that is to be uploaded.
    Parent { work: WorkView, item: ItemView },
    /// The file of an attachment.
    Download { work: WorkView, item: ItemView, placement: ItemPlacementView },
    /// A folder that was missing.
    Folder {
        work: WorkView,
        item: ItemView,
        placement: ItemPlacementView,
        bytes: Seq<u8>,
        walk: WalkView,
    },
    /// The end of an upload to the cloud.
    Upload { work: WorkView, item: ItemView, name: Seq<char> },
    /// The state being written down, after an upload to the cloud.
    ItemSaved { work: WorkView },
    /// The state being written down, after all of a library.
    LibrarySaved,
    /// Nothing: the run is over.
    Over,
}

/// Where a run stands.
#[verifier::ext_equal]
pub struct RunView {
    pub sync: SyncView,
    pub phase: PhaseView,
}

/// What comes next: where the run stands then, what is to be done and what is to be told before.
#[verifier::ext_equal]
pub struct StepView {
    pub run: RunView,
    pub action: ActionView,
    pub notes: Seq<NoteView>,
}

/// A step, from its parts.
pub open spec fn step(
    sync: SyncView,
    phase: PhaseView,
    action: ActionView,
    notes: Seq<NoteView>,
) -> StepView {
    StepView { run: RunView { sync, phase }, action, notes }
}

/// The end of a run.
pub open spec fn finished(sync: SyncView, outcome: Outcome, notes: Seq<NoteView>) -> StepView {
    step(sync, PhaseView::Over, ActionView::Finish(outcome), notes)
}

/// The end of a run that cannot go on.
pub open spec fn aborted(sync: SyncView, trouble: Trouble) -> StepView {
    finished(sync, Outcome::Aborted(trouble), Seq::empty())
}

/// One more, up to the largest number there is.
pub open spec fn counted(a: usize, b: usize) -> usize {
    if a + b <= usize::MAX {
        (a + b) as usize
    } else {
        usize::MAX
    }
}

/// The work with one more failure.
pub open spec fn with_failure(work: WorkView) -> WorkView {
    WorkView { failures: counted(work.failures, 1), ..work }
}

/// Goes on to the next library, or ends the run.
pub open spec fn next_library(sync: SyncView, notes: Seq<NoteView>) -> StepView {
    if sync.libraries.len() == 0 {
        finished(
            sync,
            if sync.failures > 0 {
                Outcome::Failed { failures: sync.failures }
            } else {
                Outcome::Done
            },
            notes,
        )
    } else {
        step(
            SyncView { libraries: sync.libraries.drop_first(), ..sync },
            PhaseView::Collections { library: sync.libraries[0] },
            ActionView::ListCollections { library: sync.libraries[0] },
            notes,
        )
    }
}

/// The collections by their keys: one that comes later replaces one before it.
pub open spec fn by_key(list: Seq<CollectionView>) -> Map<Seq<char>, CollectionView>
    decreases list.len(),
{
    if list.len() == 0 {
        Map::empty()
    } else {
        by_key(list.drop_last()).insert(list.last().key, list.last())
    }
}

/// Goes on with the collections of a library.
pub open spec fn with_collections(
    sync: SyncView,
    library: Seq<char>,
    list: Seq<CollectionView>,
) -> StepView {
    let since = state::library_in(sync.state, library).last_library_version;
    step(
        sync,
        PhaseView::Attachments { library, collections: by_key(list) },
        ActionView::ListAttachments { library, since },
        seq![NoteView::Fetching { library, since }],
    )
}

/// The items that have no record.
pub open spec fn new_items(items: Seq<ItemView>, synced: Map<Seq<char>, u64>) -> Seq<ItemView> {
    items.filter(|item: ItemView| !synced.contains_key(item.key))
}

/// The items that have a record.
pub open spec fn known_items(items: Seq<ItemView>, synced: Map<Seq<char>, u64>) -> Seq<ItemView> {
    items.filter(|item: ItemView| synced.contains_key(item.key))
}

/// The records after the version of each item has been written down.
pub open spec fn recorded(synced: Map<Seq<char>, u64>, items: Seq<ItemView>) -> Map<Seq<char>, u64>
    decreases items.len(),
{
    if items.len() == 0 {
        synced
    } else {
        recorded(synced, items.drop_last()).insert(items.last().key, items.last().version)
    }
}

/// The documents of a library, in order.
pub open spec fn docs_of(lib: LibraryView) -> Seq<(Seq<char>, DocView)> {
    Seq::new(lib.doc_order.len(), |i: int| (lib.doc_order[i], lib.docs[lib.doc_order[i]]))
}

/// The work that a library's changed attachments make.
pub open spec fn work_for(
    state: StateView,
    library: Seq<char>,
    collections: Map<Seq<char>, CollectionView>,
    items: Seq<ItemView>,
    version: u64,
) -> WorkView {
    let lib = state::library_in(state, library);
    WorkView {
        library,
        lib: LibraryView {
            synced: recorded(lib.synced, known_items(items, lib.synced)),
            ..lib
        },
        collections,
        version,
        new: new_items(items, lib.synced),
        docs: docs_of(lib),
        failures: 0,
    }
}

/// Goes on with the changed attachments of a library. Only those without a record are uploaded;
/// the record of each other one is brought up to date.
pub open spec fn with_attachments(
    sync: SyncView,
    library: Seq<char>,
    collections: Map<Seq<char>, CollectionView>,
    items: Seq<ItemView>,
    version: u64,
) -> StepView {
    let synced = state::library_in(sync.state, library).synced;
    let work = work_for(sync.state, library, collections, items, version);
    let notes = seq![
        NoteView::Counted {
            library,
            changed: items.len(),
            new: work.new.len(),
            updated: known_items(items, synced).len(),
        },
    ];
    if sync.dry_run {
        preview(sync, work, notes)
    } else if work.docs.len() > 0 {
        with_tablet(sync, work, GoalView::Docs, notes)
    } else {
        next_item(sync, work, notes)
    }
}

/// The work without its first new attachment.
pub open spec fn past_item(work: WorkView) -> WorkView {
    WorkView { new: work.new.drop_first(), ..work }
}

/// The work without its first document.
pub open spec fn past_doc(work: WorkView) -> WorkView {
    WorkView { docs: work.docs.drop_first(), ..work }
}

/// What is told of a document that would be uploaded.
pub open spec fn would_upload(placement: ItemPlacementView) -> NoteView {
    NoteView::WouldUpload { name: placement.name, folder_path: placement.folder_path }
}

/// Tells what would be uploaded of a library, and goes on to the next one.
pub open spec fn preview(sync: SyncView, work: WorkView, notes: Seq<NoteView>) -> StepView
    decreases work.new.len(),
{
    if work.new.len() == 0 {
        next_library(sync, notes)
    } else {
        match work.new[0].data.parent_item {
            Some(key) => step(
                sync,
                PhaseView::Preview { work: past_item(work), item: work.new[0] },
                ActionView::FetchParent { library: work.library, key },
                notes,
            ),
            None => preview(
                sync,
                past_item(work),
                notes.push(
                    would_upload(placement::placement_of(work.new[0], None, work.collections)),
                ),
            ),
        }
    }
}

/// Whether the placement of an attachment can be found: a publication's collections must not lead
/// back to themselves.
pub open spec fn can_be_placed(
    parent: Option<ItemView>,
    collections: Map<Seq<char>, CollectionView>,
) -> bool {
    parent is Some ==> placement::chain_ends(parent->0, collections)
}

/// Goes on with the publication of an attachment that would be uploaded.
pub open spec fn previewed(
    sync: SyncView,
    work: WorkView,
    item: ItemView,
    parent: Option<ItemView>,
) -> StepView {
    if can_be_placed(parent, work.collections) {
        preview(
            sync,
            work,
            seq![would_upload(placement::placement_of(item, parent, work.collections))],
        )
    } else {
        aborted(sync, Trouble::CircularCollections)
    }
}

/// Sees to it that the files in the cloud are known, and goes on to the goal.
pub open spec fn with_tablet(
    sync: SyncView,
    work: WorkView,
    goal: GoalView,
    notes: Seq<NoteView>,
) -> StepView {
    if !sync.connected {
        step(sync, PhaseView::Connecting { work, goal }, ActionView::Connect, notes)
    } else {
        match sync.index {
            None => step(sync, PhaseView::Listing { work, goal }, ActionView::ListFiles, notes),
            Some(index) => match goal {
                GoalView::Docs => next_doc(sync, index, work, notes),
                GoalView::Upload { item, placement, bytes } => down_path(
                    sync,
                    index,
                    work,
                    item,
                    placement,
                    bytes,
                    WalkView { left: placement.folder_path, folder: Seq::empty() },
                    notes,
                ),
            },
        }
    }
}

/// The copy in the cloud of a document, where it has changed since it was last seen.
pub open spec fn changed_copy(index: FolderIndexView, doc: DocView) -> Option<FileEntryView> {
    if index.docs.contains_key(doc.doc_id) {
        let remote = index.docs[doc.doc_id];
        if remote.hash.len() == 0 || remote.hash == doc.last_hash {
            None
        } else {
            Some(remote)
        }
    } else {
        None
    }
}

/// Goes on to the next document that has changed, or to the new attachments.
pub open spec fn next_doc(
    sync: SyncView,
    index: FolderIndexView,
    work: WorkView,
    notes: Seq<NoteView>,
) -> StepView
    decreases work.docs.len(),
{
    if work.docs.len() == 0 {
        next_item(sync, work, notes)
    } else {
        match changed_copy(index, work.docs[0].1) {
            None => next_doc(sync, index, past_doc(work), notes),
            Some(remote) => step(
                sync,
                PhaseView::Archive { work: past_doc(work), key: work.docs[0].0, remote },
                ActionView::DownloadArchive { doc_id: remote.id },
                notes,
            ),
        }
    }
}

/// Goes on after a document that could not be written back.
pub open spec fn doc_failed(
    sync: SyncView,
    index: FolderIndexView,
    work: WorkView,
    key: Seq<char>,
    cause: Option<ArchiveError>,
) -> StepView {
    next_doc(sync, index, with_failure(work), seq![NoteView::WriteBackFailed { key, cause }])
}

/// Goes on with the PDF file of a document that has changed.
pub open spec fn with_pdf(
    sync: SyncView,
    index: FolderIndexView,
    work: WorkView,
    key: Seq<char>,
    remote: FileEntryView,
    pdf: Result<Seq<u8>, ArchiveError>,
) -> StepView {
    match pdf {
        Err(e) => doc_failed(sync, index, work, key, Some(e)),
        Ok(bytes) => step(
            sync,
            PhaseView::WritingBack { work, key, remote },
            ActionView::UploadAttachment {
                library: work.library,
                key,
                filename: folders::copy_name(remote.file_name),
                bytes,
            },
            Seq::empty(),
        ),
    }
}

/// The library with a document's hash written down.
pub open spec fn settled(lib: LibraryView, key: Seq<char>, hash: Seq<char>) -> LibraryView {
    if lib.docs.contains_key(key) {
        LibraryView {
            docs: lib.docs.insert(key, DocView { last_hash: hash, ..lib.docs[key] }),
            doc_order: keymap::keys_with(lib.doc_order, key),
            ..lib
        }
    } else {
        lib
    }
}

/// The run's state with the library at hand as the work has it.
pub open spec fn kept(sync: SyncView, work: WorkView) -> SyncView {
    SyncView { state: state::with_library(sync.state, work.library, work.lib), ..sync }
}

/// Goes on after an upload to Zotero.
pub open spec fn wrote_back(
    sync: SyncView,
    index: FolderIndexView,
    work: WorkView,
    key: Seq<char>,
    remote: FileEntryView,
    ok: bool,
) -> StepView {
    if ok {
        let after = WorkView { lib: settled(work.lib, key, remote.hash), ..work };
        step(
            kept(sync, after),
            PhaseView::DocSaved { work: after },
            ActionView::Save,
            seq![NoteView::WrittenBack { file_name: remote.file_name }],
        )
    } else {
        doc_failed(sync, index, work, key, None)
    }
}

/// Goes on to the next new attachment, or to the end of the library.
pub open spec fn next_item(sync: SyncView, work: WorkView, notes: Seq<NoteView>) -> StepView {
    if work.new.len() == 0 {
        end_library(sync, work, notes)
    } else {
        let item = work.new[0];
        match item.data.parent_item {
            Some(key) => step(
                sync,
                PhaseView::Parent { work: past_item(work), item },
                ActionView::FetchParent { library: work.library, key },
                notes,
            ),
            None => download(
                sync,
                past_item(work),
                item,
                placement::placement_of(item, None, work.collections),
                notes,
            ),
        }
    }
}

/// Asks for the file of an attachment.
pub open spec fn download(
    sync: SyncView,
    work: WorkView,
    item: ItemView,
    placement: ItemPlacementView,
    notes: Seq<NoteView>,
) -> StepView {
    step(
        sync,
        PhaseView::Download { work, item, placement },
        ActionView::DownloadPdf { library: work.library, key: item.key },
        notes,
    )
}

/// Goes on with the publication of an attachment.
pub open spec fn with_parent(
    sync: SyncView,
    work: WorkView,
    item: ItemView,
    parent: Option<ItemView>,
) -> StepView {
    if can_be_placed(parent, work.collections) {
        download(
            sync,
            work,
            item,
            placement::placement_of(item, parent, work.collections),
            Seq::empty(),
        )
    } else {
        aborted(sync, Trouble::CircularCollections)
    }
}

/// Goes on after an attachment that could not be uploaded.
pub open spec fn item_failed(sync: SyncView, work: WorkView, name: Seq<char>) -> StepView {
    next_item(sync, with_failure(work), seq![NoteView::UploadFailed { name }])
}

/// Goes on with the file of an attachment. One that Zotero does not have is passed over without a
/// record, so that it is looked at again once its version changes.
pub open spec fn downloaded(
    sync: SyncView,
    work: WorkView,
    item: ItemView,
    placement: ItemPlacementView,
    reply: PdfReplyView,
) -> StepView {
    match reply {
        PdfReplyView::Stored(bytes) => with_tablet(
            sync,
            work,
            GoalView::Upload { item, placement, bytes },
            Seq::empty(),
        ),
        PdfReplyView::Missing => next_item(
            sync,
            work,
            seq![NoteView::Skipped { name: placement.name }],
        ),
        PdfReplyView::Failed => item_failed(sync, work, placement.name),
    }
}

/// Goes down the path to the folder of a new document, and asks for its upload there.
pub open spec fn down_path(
    sync: SyncView,
    index: FolderIndexView,
    work: WorkView,
    item: ItemView,
    placement: ItemPlacementView,
    bytes: Seq<u8>,
    walk: WalkView,
    notes: Seq<NoteView>,
) -> StepView {
    match folders::next_on_path(index, walk) {
        WalkStepView::Reached(parent) => step(
            sync,
            PhaseView::Upload { work, item, name: placement.name },
            ActionView::UploadPdf { name: placement.name, bytes, parent },
            notes,
        ),
        WalkStepView::Make { walk: now, name, parent } => step(
            sync,
            PhaseView::Folder { work, item, placement, bytes, walk: now },
            ActionView::CreateFolder { name, parent },
            notes,
        ),
    }
}

/// Goes on with a folder that was missing.
pub open spec fn with_folder(
    sync: SyncView,
    index: FolderIndexView,
    work: WorkView,
    item: ItemView,
    placement: ItemPlacementView,
    bytes: Seq<u8>,
    walk: WalkView,
    created: FileEntryView,
) -> StepView {
    let after = folders::index_after_making(index, walk, created);
    down_path(
        SyncView { index: Some(after), ..sync },
        after,
        work,
        item,
        placement,
        bytes,
        folders::walk_after_making(walk, created),
        Seq::empty(),
    )
}

/// The library with an upload written down.
pub open spec fn with_upload(
    lib: LibraryView,
    item: ItemView,
    uploaded: FileEntryView,
) -> LibraryView {
    LibraryView {
        synced: lib.synced.insert(item.key, item.version),
        docs: lib.docs.insert(
            item.key,
            DocView { doc_id: uploaded.id, last_hash: uploaded.hash },
        ),
        doc_order: keymap::keys_with(lib.doc_order, item.key),
        ..lib
    }
}

/// Goes on after an upload to the cloud.
pub open spec fn uploaded(
    sync: SyncView,
    index: FolderIndexView,
    work: WorkView,
    item: ItemView,
    name: Seq<char>,
    reply: Option<FileEntryView>,
) -> StepView {
    match reply {
        Some(file) => {
            let after = WorkView { lib: with_upload(work.lib, item, file), ..work };
            step(
                kept(
                    SyncView { index: Some(folders::with_known(index, file)), ..sync },
                    after,
                ),
                PhaseView::ItemSaved { work: after },
                ActionView::Save,
                seq![NoteView::Uploaded { name }],
            )
        },
        None => item_failed(sync, work, name),
    }
}

/// The library at the end of its work. The version only advances where nothing failed, so that
/// failed items are picked up again on the next run.
pub open spec fn completed(work: WorkView) -> LibraryView {
    if work.failures == 0 {
        LibraryView { last_library_version: work.version, ..work.lib }
    } else {
        work.lib
    }
}

/// Ends the work on a library.
pub open spec fn end_library(sync: SyncView, work: WorkView, notes: Seq<NoteView>) -> StepView {
    let after = WorkView { lib: completed(work), ..work };
    step(
        kept(SyncView { failures: counted(sync.failures, work.failures), ..sync }, after),
        PhaseView::LibrarySaved,
        ActionView::Save,
        notes,
    )
}

/// Takes the collections of a library.
pub open spec fn on_collections(sync: SyncView, library: Seq<char>, event: EventView) -> StepView {
    match event {
        EventView::Collections(Some(list)) => with_collections(sync, library, list),
        EventView::Collections(None) => aborted(sync, Trouble::Collections),
        _ => aborted(sync, Trouble::OutOfTurn),
    }
}

/// Takes the changed attachments of a library.
pub open spec fn on_attachments(
    sync: SyncView,
    library: Seq<char>,
    collections: Map<Seq<char>, CollectionView>,
    event: EventView,
) -> StepView {
    match event {
        EventView::Attachments(Some(listing)) => with_attachments(
            sync,
            library,
            collections,
            listing.0,
            listing.1,
        ),
        EventView::Attachments(None) => aborted(sync, Trouble::Attachments),
        _ => aborted(sync, Trouble::OutOfTurn),
    }
}

/// Takes the publication of an attachment that would be uploaded.
pub open spec fn on_preview(
    sync: SyncView,
    work: WorkView,
    item: ItemView,
    event: EventView,
) -> StepView {
    match event {
        EventView::Parent(parent) => previewed(sync, work, item, parent),
        _ => aborted(sync, Trouble::OutOfTurn),
    }
}

/// Takes a session with the cloud.
pub open spec fn on_connection(
    sync: SyncView,
    work: WorkView,
    goal: GoalView,
    event: EventView,
) -> StepView {
    match event {
        EventView::Connected(true) => with_tablet(
            SyncView { connected: true, ..sync },
            work,
            goal,
            Seq::empty(),
        ),
        EventView::Connected(false) => aborted(sync, Trouble::Connection),
        _ => aborted(sync, Trouble::OutOfTurn),
    }
}

/// Takes the files in the cloud.
pub open spec fn on_listing(
    sync: SyncView,
    work: WorkView,
    goal: GoalView,
    event: EventView,
) -> StepView {
    match event {
        EventView::Files(Some(files)) => with_tablet(
            SyncView { index: Some(folders::index_of(files)), ..sync },
            work,
            goal,
            Seq::empty(),
        ),
        EventView::Files(None) => aborted(sync, Trouble::Listing),
        _ => aborted(sync, Trouble::OutOfTurn),
    }
}

/// Takes the archive of a document.
pub open spec fn on_archive(
    sync: SyncView,
    work: WorkView,
    key: Seq<char>,
    remote: FileEntryView,
    event: EventView,
) -> StepView {
    match (sync.index, event) {
        (Some(index), EventView::Archive(Some(bytes))) => with_pdf(
            sync,
            index,
            work,
            key,
            remote,
            archive::pdf_inside(bytes, remote.id),
        ),
        (Some(index), EventView::Archive(None)) => doc_failed(sync, index, work, key, None),
        _ => aborted(sync, Trouble::OutOfTurn),
    }
}

/// Takes the end of an upload to Zotero.
pub open spec fn on_write_back(
    sync: SyncView,
    work: WorkView,
    key: Seq<char>,
    remote: FileEntryView,
    event: EventView,
) -> StepView {
    match (sync.index, event) {
        (Some(index), EventView::WrittenBack(ok)) => wrote_back(sync, index, work, key, remote, ok),
        _ => aborted(sync, Trouble::OutOfTurn),
    }
}

/// Takes the state having been written down after an upload to Zotero.
pub open spec fn on_doc_saved(sync: SyncView, work: WorkView, event: EventView) -> StepView {
    match (sync.index, event) {
        (Some(index), EventView::Saved(true)) => next_doc(sync, index, work, Seq::empty()),
        (Some(index), EventView::Saved(false)) => aborted(sync, Trouble::Save),
        _ => aborted(sync, Trouble::OutOfTurn),
    }
}

/// Takes the publication of an attachment.
pub open spec fn on_parent(
    sync: SyncView,
    work: WorkView,
    item: ItemView,
    event: EventView,
) -> StepView {
    match event {
        EventView::Parent(parent) => with_parent(sync, work, item, parent),
        _ => aborted(sync, Trouble::OutOfTurn),
    }
}

/// Takes the file of an attachment.
pub open spec fn on_download(
    sync: SyncView,
    work: WorkView,
    item: ItemView,
    placement: ItemPlacementView,
    event: EventView,
) -> StepView {
    match event {
        EventView::Pdf(reply) => downloaded(sync, work, item, placement, reply),
        _ => aborted(sync, Trouble::OutOfTurn),
    }
}

/// Takes a folder that was missing.
pub open spec fn on_folder(
    sync: SyncView,
    work: WorkView,
    item: ItemView,
    placement: ItemPlacementView,
    bytes: Seq<u8>,
    walk: WalkView,
    event: EventView,
) -> StepView {
    match (sync.index, event) {
        (Some(index), EventView::FolderCreated(Some(created))) => if walk.left.len() > 0 {
            with_folder(sync, index, work, item, placement, bytes, walk, created)
        } else {
            aborted(sync, Trouble::OutOfTurn)
        },
        (Some(index), EventView::FolderCreated(None)) => aborted(sync, Trouble::Folder),
        _ => aborted(sync, Trouble::OutOfTurn),
    }
}

/// Takes the end of an upload to the cloud.
pub open spec fn on_upload(
    sync: SyncView,
    work: WorkView,
    item: ItemView,
    name: Seq<char>,
    event: EventView,
) -> StepView {
    match (sync.index, event) {
        (Some(index), EventView::Uploaded(reply)) => uploaded(sync, index, work, item, name, reply),
        _ => aborted(sync, Trouble::OutOfTurn),
    }
}

/// Takes the state having been written down after an upload to the cloud.
pub open spec fn on_item_saved(sync: SyncView, work: WorkView, event: EventView) -> StepView {
    match event {
        EventView::Saved(true) => next_item(sync, work, Seq::empty()),
        EventView::Saved(false) => aborted(sync, Trouble::Save),
        _ => aborted(sync, Trouble::OutOfTurn),
    }
}

/// Takes the state having been written down after all of a library.
pub open spec fn on_library_saved(sync: SyncView, event: EventView) -> StepView {
    match event {
        EventView::Saved(true) => next_library(sync, Seq::empty()),
        EventView::Saved(false) => aborted(sync, Trouble::Save),
        _ => aborted(sync, Trouble::OutOfTurn),
    }
}

/// What comes next where a run stands and an action has come to this.
pub open spec fn after(run: RunView, event: EventView) -> StepView {
    let sync = run.sync;
    match run.phase {
        PhaseView::Collections { library } => on_collections(sync, library, event),
        PhaseView::Attachments { library, collections } => on_attachments(
            sync,
            library,
            collections,
            event,
        ),
        PhaseView::Preview { work, item } => on_preview(sync, work, item, event),
        PhaseView::Connecting { work, goal } => on_connection(sync, work, goal, event),
        PhaseView::Listing { work, goal } => on_listing(sync, work, goal, event),
        PhaseView::Archive { work, key, remote } => on_archive(sync, work, key, remote, event),
        PhaseView::WritingBack { work, key, remote } => on_write_back(
            sync,
            work,
            key,
            remote,
            event,
        ),
        PhaseView::DocSaved { work } => on_doc_saved(sync, work, event),
        PhaseView::Parent { work, item } => on_parent(sync, work, item, event),
        PhaseView::Download { work, item, placement } => on_download(
            sync,
            work,
            item,
            placement,
            event,
        ),
        PhaseView::Folder { work, item, placement, bytes, walk } => on_folder(
            sync,
            work,
            item,
            placement,
            bytes,
            walk,
            event,
        ),
        PhaseView::Upload { work, item, name } => on_upload(sync, work, item, name, event),
        PhaseView::ItemSaved { work } => on_item_saved(sync, work, event),
        PhaseView::LibrarySaved => on_library_saved(sync, event),
        PhaseView::Over => aborted(sync, Trouble::OutOfTurn),
    }
}

/// The first step of a run.
pub open spec fn first_step(
    libraries: Seq<Seq<char>>,
    state: StateView,
    dry_run: bool,
) -> StepView {
    next_library(
        SyncView {
            dry_run,
            libraries,
            state,
            connected: false,
            index: None,
            failures: 0,
        },
        Seq::empty(),
    )
}

} // verus!
