//! The course of a sync: new attachments go to the tablet, marked-up copies come back.
use vstd::prelude::*;

use crate::archive;
use crate::archive::ArchiveError;
use crate::config;
use crate::config::Config;
use crate::events::{Action, Event, Note, NoteView, Outcome, PdfReply, Trouble};
use crate::folders;
use crate::folders::{FolderIndex, FolderWalk, WalkStep};
use crate::keymap::{Duplicate, KeyMap};
use crate::placement;
use crate::placement::ItemPlacement;
use crate::remarkable::FileEntry;
use crate::state::{LibraryState, RemarkableDocState, State};
use crate::sync_model;
use crate::sync_model::{GoalView, PhaseView, RunView, StepView, SyncView, WorkView};
use crate::text;
use crate::zotero::{Collection, CollectionView, Item, ItemView};

verus! {

/// What a run keeps from library to library.
pub struct Sync {
    /// Whether the run only tells what it would do.
    pub dry_run: bool,
    /// The libraries that are still to come.
    pub libraries: Vec<String>,
    pub state: State,
    /// Whether a session with the cloud is open.
    pub connected: bool,
    /// The files in the cloud, once they have been listed.
    pub index: Option<FolderIndex>,
    /// How many steps failed in the libraries that are done.
    pub failures: usize,
}

/// What a run knows of the library at hand.
pub struct Work {
    pub library: String,
    pub lib: LibraryState,
    pub collections: KeyMap<Collection>,
    /// The version that the library has now.
    pub version: u64,
    /// The new attachments that are still to come.
    pub new: Vec<Item>,
    /// The documents that are still to be looked at.
    pub docs: Vec<(String, RemarkableDocState)>,
    /// How many steps failed in this library.
    pub failures: usize,
}

/// What the files in the cloud are needed for.
pub enum Goal {
    /// To see which documents have changed.
    Docs,
    /// To find the folder for a new document.
    Upload { item: Item, placement: ItemPlacement, bytes: Vec<u8> },
}

/// What a run waits for.
pub enum Phase {
    /// The collections of a library.
    Collections { library: String },
    /// The attachments of a library.
    Attachments { library: String, collections: KeyMap<Collection> },
    /// The publication of an attachment that would be uploaded.
    Preview { work: Work, item: Item },
    /// A session with the cloud.
    Connecting { work: Work, goal: Goal },
    /// The files in the cloud.
    Listing { work: Work, goal: Goal },
    /// The archive of a document that has changed.
    Archive { work: Work, key: String, remote: FileEntry },
    /// The end of an upload to Zotero.
    WritingBack { work: Work, key: String, remote: FileEntry },
    /// The state being written down, after an upload to Zotero.
    DocSaved { work: Work },
    /// The publication of an attachment that is to be uploaded.
    Parent { work: Work, item: Item },
    /// The file of an attachment.
    Download { work: Work, item: Item, placement: ItemPlacement },
    /// A folder that was missing.
    Folder {
        work: Work,
        item: Item,
        placement: ItemPlacement,
        bytes: Vec<u8>,
        walk: FolderWalk,
    },
    /// The end of an upload to the cloud.
    Upload { work: Work, item: Item, name: String },
    /// The state being written down, after an upload to the cloud.
    ItemSaved { work: Work },
    /// The state being written down, after all of a library.
    LibrarySaved,
    /// Nothing: the run is over.
    Over,
}

/// Where a run stands.
pub struct Run {
    pub sync: Sync,
    pub phase: Phase,
}

/// What comes next: where the run stands then, what is to be done and what is to be told before.
pub struct Step {
    pub run: Run,
    pub action: Action,
    pub notes: Vec<Note>,
}

impl DeepView for Sync {
    type V = SyncView;

    open spec fn deep_view(&self) -> SyncView {
        SyncView {
            dry_run: self.dry_run,
            libraries: self.libraries.deep_view(),
            state: self.state.deep_view(),
            connected: self.connected,
            index: self.index.deep_view(),
            failures: self.failures,
        }
    }
}

impl DeepView for Work {
    type V = WorkView;

    open spec fn deep_view(&self) -> WorkView {
        WorkView {
            library: self.library@,
            lib: self.lib.deep_view(),
            collections: self.collections.deep_view(),
            version: self.version,
            new: self.new.deep_view(),
            docs: self.docs.deep_view(),
            failures: self.failures,
        }
    }
}

impl DeepView for Goal {
    type V = GoalView;

    open spec fn deep_view(&self) -> GoalView {
        match self {
            Goal::Docs => GoalView::Docs,
            Goal::Upload { item, placement, bytes } => GoalView::Upload {
                item: item.deep_view(),
                placement: placement.deep_view(),
                bytes: bytes@,
            },
        }
    }
}

impl DeepView for Phase {
    type V = PhaseView;

    open spec fn deep_view(&self) -> PhaseView {
        match self {
            Phase::Collections { library } => PhaseView::Collections { library: library@ },
            Phase::Attachments { library, collections } => PhaseView::Attachments {
                library: library@,
                collections: collections.deep_view(),
            },
            Phase::Preview { work, item } => PhaseView::Preview {
                work: work.deep_view(),
                item: item.deep_view(),
            },
            Phase::Connecting { work, goal } => PhaseView::Connecting {
                work: work.deep_view(),
                goal: goal.deep_view(),
            },
            Phase::Listing { work, goal } => PhaseView::Listing {
                work: work.deep_view(),
                goal: goal.deep_view(),
            },
            Phase::Archive { work, key, remote } => PhaseView::Archive {
                work: work.deep_view(),
                key: key@,
                remote: remote.deep_view(),
            },
            Phase::WritingBack { work, key, remote } => PhaseView::WritingBack {
                work: work.deep_view(),
                key: key@,
                remote: remote.deep_view(),
            },
            Phase::DocSaved { work } => PhaseView::DocSaved { work: work.deep_view() },
            Phase::Parent { work, item } => PhaseView::Parent {
                work: work.deep_view(),
                item: item.deep_view(),
            },
            Phase::Download { work, item, placement } => PhaseView::Download {
                work: work.deep_view(),
                item: item.deep_view(),
                placement: placement.deep_view(),
            },
            Phase::Folder { work, item, placement, bytes, walk } => PhaseView::Folder {
                work: work.deep_view(),
                item: item.deep_view(),
                placement: placement.deep_view(),
                bytes: bytes@,
                walk: walk.deep_view(),
            },
            Phase::Upload { work, item, name } => PhaseView::Upload {
                work: work.deep_view(),
                item: item.deep_view(),
                name: name@,
            },
            Phase::ItemSaved { work } => PhaseView::ItemSaved { work: work.deep_view() },
            Phase::LibrarySaved => PhaseView::LibrarySaved,
            Phase::Over => PhaseView::Over,
        }
    }
}

impl DeepView for Run {
    type V = RunView;

    open spec fn deep_view(&self) -> RunView {
        RunView { sync: self.sync.deep_view(), phase: self.phase.deep_view() }
    }
}

impl DeepView for Step {
    type V = StepView;

    open spec fn deep_view(&self) -> StepView {
        StepView {
            run: self.run.deep_view(),
            action: self.action.deep_view(),
            notes: self.notes.deep_view(),
        }
    }
}

fn no_notes() -> (r: Vec<Note>)
    ensures
        r.deep_view() == Seq::<NoteView>::empty(),
{
    let notes: Vec<Note> = Vec::new();
    assert(notes.deep_view() =~= Seq::<NoteView>::empty());
    notes
}

fn one_note(note: Note) -> (r: Vec<Note>)
    ensures
        r.deep_view() == seq![note.deep_view()],
{
    let mut notes: Vec<Note> = Vec::new();
    notes.push(note);
    assert(notes.deep_view() =~= seq![note.deep_view()]);
    notes
}

fn count(a: usize, b: usize) -> (r: usize)
    ensures
        r == sync_model::counted(a, b),
{
    a.saturating_add(b)
}

fn index_by_key(list: Vec<Collection>) -> (r: KeyMap<Collection>)
    ensures
        r.deep_view() == sync_model::by_key(list.deep_view()),
{
    let ghost all = list.deep_view();
    let mut out: KeyMap<Collection> = KeyMap::new();
    assert(all.take(0) =~= Seq::<CollectionView>::empty());
    for collection in it: list
        invariant
            it.seq().map_values(|c: Collection| c.deep_view()) == all,
            out.deep_view() == sync_model::by_key(all.take(it.index())),
    {
        assert(all[it.index()] == collection.deep_view());
        assert(all.take(it.index() + 1).drop_last() =~= all.take(it.index()));
        out.insert(collection.key.clone(), collection);
    }
    assert(all.take(all.len() as int) =~= all);
    out
}

/// The new items, the records brought up to date for the others, and how many others there are.
fn split_items(items: Vec<Item>, synced: &KeyMap<u64>) -> (r: (Vec<Item>, KeyMap<u64>, usize))
    ensures
        r.0.deep_view() == sync_model::new_items(items.deep_view(), synced.deep_view()),
        r.1.deep_view() == sync_model::recorded(
            synced.deep_view(),
            sync_model::known_items(items.deep_view(), synced.deep_view()),
        ),
        r.2 == sync_model::known_items(items.deep_view(), synced.deep_view()).len(),
{
    reveal(Seq::filter);
    let ghost all = items.deep_view();
    let ghost known = synced.deep_view();
    let total: usize = items.len();
    let mut new: Vec<Item> = Vec::new();
    let mut records: KeyMap<u64> = synced.duplicate();
    let mut updated: usize = 0;
    assert(all.take(0) =~= Seq::<ItemView>::empty());
    assert(new.deep_view() =~= sync_model::new_items(all.take(0), known));
    for item in it: items
        invariant
            it.seq().map_values(|i: Item| i.deep_view()) == all,
            known == synced.deep_view(),
            updated <= it.index(),
            it.seq().len() == total,
            new.deep_view() == sync_model::new_items(all.take(it.index()), known),
            records.deep_view() == sync_model::recorded(
                known,
                sync_model::known_items(all.take(it.index()), known),
            ),
            updated == sync_model::known_items(all.take(it.index()), known).len(),
    {
        reveal(Seq::filter);
        let ghost before = new.deep_view();
        let ghost seen = sync_model::known_items(all.take(it.index()), known);
        assert(all[it.index()] == item.deep_view());
        assert(all.take(it.index() + 1).drop_last() =~= all.take(it.index()));
        if synced.contains_key(item.key.as_str()) {
            proof {
                let now = sync_model::known_items(all.take(it.index() + 1), known);
                assert(now == seen.push(item.deep_view()));
                assert(now.drop_last() =~= seen);
            }
            records.insert(item.key.clone(), item.version);
            updated += 1;
        } else {
            new.push(item);
            assert(new.deep_view() =~= before.push(item.deep_view()));
        }
    }
    assert(all.take(all.len() as int) =~= all);
    (new, records, updated)
}

fn tracked_docs(lib: &LibraryState) -> (r: Vec<(String, RemarkableDocState)>)
    ensures
        r.deep_view() == sync_model::docs_of(lib.deep_view()),
{
    let ghost want = sync_model::docs_of(lib.deep_view());
    let total: usize = lib.remarkable_docs.len();
    let mut out: Vec<(String, RemarkableDocState)> = Vec::new();
    let mut i: usize = 0;
    while i < total
        invariant
            i <= total == lib.remarkable_docs.keys().len(),
            want == sync_model::docs_of(lib.deep_view()),
            out.deep_view() == want.take(i as int),
        decreases total - i,
    {
        let ghost before = out.deep_view();
        let (key, doc) = lib.remarkable_docs.at(i);
        out.push((key.clone(), doc.duplicate()));
        assert(out.deep_view() =~= before.push((key@, doc.deep_view())));
        assert(out.deep_view() =~= want.take(i + 1));
        i += 1;
    }
    assert(out.deep_view() =~= want);
    out
}

fn finish(sync: Sync, outcome: Outcome, notes: Vec<Note>) -> (r: Step)
    ensures
        r.deep_view() == sync_model::finished(sync.deep_view(), outcome, notes.deep_view()),
{
    Step { run: Run { sync, phase: Phase::Over }, action: Action::Finish(outcome), notes }
}

fn abort(sync: Sync, trouble: Trouble) -> (r: Step)
    ensures
        r.deep_view() == sync_model::aborted(sync.deep_view(), trouble),
{
    finish(sync, Outcome::Aborted(trouble), no_notes())
}

fn to_next_library(sync: Sync, notes: Vec<Note>) -> (r: Step)
    ensures
        r.deep_view() == sync_model::next_library(sync.deep_view(), notes.deep_view()),
{
    if sync.libraries.len() == 0 {
        let outcome = if sync.failures > 0 {
            Outcome::Failed { failures: sync.failures }
        } else {
            Outcome::Done
        };
        return finish(sync, outcome, notes);
    }
    let ghost all = sync.libraries.deep_view();
    let mut sync = sync;
    let library: String = sync.libraries.remove(0);
    assert(sync.libraries.deep_view() =~= all.drop_first());
    Step {
        action: Action::ListCollections { library: library.clone() },
        run: Run { sync, phase: Phase::Collections { library } },
        notes,
    }
}

fn take_collections(sync: Sync, library: String, list: Vec<Collection>) -> (r: Step)
    ensures
        r.deep_view() == sync_model::with_collections(
            sync.deep_view(),
            library@,
            list.deep_view(),
        ),
{
    let since: u64 = sync.state.library(library.as_str()).last_library_version;
    let notes = one_note(Note::Fetching { library: library.clone(), since });
    Step {
        action: Action::ListAttachments { library: library.clone(), since },
        run: Run {
            sync,
            phase: Phase::Attachments { library, collections: index_by_key(list) },
        },
        notes,
    }
}

/// Takes the changed attachments of a library. Only never-seen attachments are uploaded:
/// re-uploading a known key would create a duplicate document on the tablet, so metadata-only edits
/// just refresh the record.
fn take_attachments(
    sync: Sync,
    library: String,
    collections: KeyMap<Collection>,
    items: Vec<Item>,
    version: u64,
) -> (r: Step)
    ensures
        r.deep_view() == sync_model::with_attachments(
            sync.deep_view(),
            library@,
            collections.deep_view(),
            items.deep_view(),
            version,
        ),
{
    let lib: LibraryState = sync.state.library(library.as_str());
    let changed: usize = items.len();
    let (new, records, updated) = split_items(items, &lib.synced);
    let docs = tracked_docs(&lib);
    let notes = one_note(
        Note::Counted { library: library.clone(), changed, new: new.len(), updated },
    );
    let work = Work {
        library,
        lib: LibraryState {
            last_library_version: lib.last_library_version,
            synced: records,
            remarkable_docs: lib.remarkable_docs,
        },
        collections,
        version,
        new,
        docs,
        failures: 0,
    };
    if sync.dry_run {
        show_preview(sync, work, notes)
    } else if work.docs.len() > 0 {
        reach_tablet(sync, work, Goal::Docs, notes)
    } else {
        to_next_item(sync, work, notes)
    }
}

fn preview_note(placement: ItemPlacement) -> (r: Note)
    ensures
        r.deep_view() == sync_model::would_upload(placement.deep_view()),
{
    Note::WouldUpload { name: placement.name, folder_path: placement.folder_path }
}

fn show_preview(sync: Sync, work: Work, notes: Vec<Note>) -> (r: Step)
    ensures
        r.deep_view() == sync_model::preview(
            sync.deep_view(),
            work.deep_view(),
            notes.deep_view(),
        ),
{
    let ghost want = sync_model::preview(sync.deep_view(), work.deep_view(), notes.deep_view());
    let mut rest: Work = work;
    let mut told: Vec<Note> = notes;
    while rest.new.len() > 0
        invariant
            want == sync_model::preview(sync.deep_view(), work.deep_view(), notes.deep_view()),
            want == sync_model::preview(sync.deep_view(), rest.deep_view(), told.deep_view()),
        decreases rest.new@.len(),
    {
        let ghost before = rest.deep_view();
        let ghost told_before = told.deep_view();
        let item: Item = rest.new.remove(0);
        assert(rest.deep_view() =~= sync_model::past_item(before)) by {
            assert(rest.new.deep_view() =~= before.new.drop_first());
        }
        match item.data.parent_item.clone() {
            Some(key) => {
                return Step {
                    action: Action::FetchParent { library: rest.library.clone(), key },
                    run: Run { sync, phase: Phase::Preview { work: rest, item } },
                    notes: told,
                };
            },
            None => {
                let placement = placement::item_placement(&item, None, &rest.collections);
                let note = preview_note(placement);
                told.push(note);
                assert(told.deep_view() =~= told_before.push(note.deep_view()));
            },
        }
    }
    to_next_library(sync, told)
}

/// Where an attachment goes, or nothing where its publication's collections lead back to themselves.
fn placed(item: &Item, parent: &Option<Item>, collections: &KeyMap<Collection>) -> (r: Option<
    ItemPlacement,
>)
    ensures
        match r {
            Some(p) => sync_model::can_be_placed(parent.deep_view(), collections.deep_view())
                && p.deep_view() == placement::placement_of(
                item.deep_view(),
                parent.deep_view(),
                collections.deep_view(),
            ),
            None => !sync_model::can_be_placed(parent.deep_view(), collections.deep_view()),
        },
{
    match parent {
        Some(parent) => {
            if placement::collection_path_ends(parent, collections) {
                Some(placement::item_placement(item, Some(parent), collections))
            } else {
                None
            }
        },
        None => Some(placement::item_placement(item, None, collections)),
    }
}

fn take_preview_parent(sync: Sync, work: Work, item: Item, parent: Option<Item>) -> (r: Step)
    ensures
        r.deep_view() == sync_model::previewed(
            sync.deep_view(),
            work.deep_view(),
            item.deep_view(),
            parent.deep_view(),
        ),
{
    match placed(&item, &parent, &work.collections) {
        Some(placement) => {
            let notes = one_note(preview_note(placement));
            show_preview(sync, work, notes)
        },
        None => abort(sync, Trouble::CircularCollections),
    }
}

fn reach_tablet(sync: Sync, work: Work, goal: Goal, notes: Vec<Note>) -> (r: Step)
    ensures
        r.deep_view() == sync_model::with_tablet(
            sync.deep_view(),
            work.deep_view(),
            goal.deep_view(),
            notes.deep_view(),
        ),
{
    if !sync.connected {
        return Step {
            run: Run { sync, phase: Phase::Connecting { work, goal } },
            action: Action::Connect,
            notes,
        };
    }
    if sync.index.is_none() {
        return Step {
            run: Run { sync, phase: Phase::Listing { work, goal } },
            action: Action::ListFiles,
            notes,
        };
    }
    match goal {
        Goal::Docs => to_next_doc(sync, work, notes),
        Goal::Upload { item, placement, bytes } => {
            let left = copy_of(&placement.folder_path);
            let folder: String = String::new();
            assert(folder@ =~= Seq::<char>::empty());
            go_down(sync, work, item, placement, bytes, FolderWalk { left, folder }, notes)
        },
    }
}

fn copy_of(names: &Vec<String>) -> (r: Vec<String>)
    ensures
        r.deep_view() == names.deep_view(),
{
    let mut out: Vec<String> = Vec::new();
    let mut i: usize = 0;
    while i < names.len()
        invariant
            i <= names@.len(),
            out.deep_view() == names.deep_view().take(i as int),
        decreases names@.len() - i,
    {
        let ghost before = out.deep_view();
        out.push(names[i].clone());
        assert(out.deep_view() =~= before.push(names@[i as int]@));
        assert(out.deep_view() =~= names.deep_view().take(i + 1));
        i += 1;
    }
    assert(out.deep_view() =~= names.deep_view());
    out
}

fn find_changed_copy(index: &FolderIndex, doc: &RemarkableDocState) -> (r: Option<FileEntry>)
    ensures
        r.deep_view() == sync_model::changed_copy(index.deep_view(), doc.deep_view()),
{
    match index.doc(doc.doc_id.as_str()) {
        None => None,
        Some(remote) => {
            if remote.hash.as_str().is_empty() || text::same_text(
                remote.hash.as_str(),
                doc.last_hash.as_str(),
            ) {
                None
            } else {
                Some(remote.duplicate())
            }
        },
    }
}

fn to_next_doc(sync: Sync, work: Work, notes: Vec<Note>) -> (r: Step)
    requires
        sync.index is Some,
    ensures
        r.deep_view() == sync_model::next_doc(
            sync.deep_view(),
            sync.index->0.deep_view(),
            work.deep_view(),
            notes.deep_view(),
        ),
{
    let ghost index = sync.index->0.deep_view();
    let ghost want = sync_model::next_doc(
        sync.deep_view(),
        index,
        work.deep_view(),
        notes.deep_view(),
    );
    let mut rest: Work = work;
    while rest.docs.len() > 0
        invariant
            sync.index is Some,
            index == sync.index->0.deep_view(),
            want == sync_model::next_doc(
                sync.deep_view(),
                index,
                work.deep_view(),
                notes.deep_view(),
            ),
            want == sync_model::next_doc(
                sync.deep_view(),
                index,
                rest.deep_view(),
                notes.deep_view(),
            ),
        decreases rest.docs@.len(),
    {
        let ghost before = rest.deep_view();
        let (key, doc) = rest.docs.remove(0);
        assert(rest.deep_view() =~= sync_model::past_doc(before)) by {
            assert(rest.docs.deep_view() =~= before.docs.drop_first());
        }
        assert(before.docs[0] == (key@, doc.deep_view()));
        let found: Option<FileEntry> = match &sync.index {
            Some(known) => find_changed_copy(known, &doc),
            None => None,
        };
        match found {
            Some(remote) => {
                return Step {
                    action: Action::DownloadArchive { doc_id: remote.id.clone() },
                    run: Run { sync, phase: Phase::Archive { work: rest, key, remote } },
                    notes,
                };
            },
            None => {},
        }
    }
    to_next_item(sync, rest, notes)
}

fn fail_doc(sync: Sync, work: Work, key: String, cause: Option<ArchiveError>) -> (r: Step)
    requires
        sync.index is Some,
    ensures
        r.deep_view() == sync_model::doc_failed(
            sync.deep_view(),
            sync.index->0.deep_view(),
            work.deep_view(),
            key@,
            cause,
        ),
{
    let mut work: Work = work;
    work.failures = count(work.failures, 1);
    to_next_doc(sync, work, one_note(Note::WriteBackFailed { key, cause }))
}

fn to_next_item(sync: Sync, work: Work, notes: Vec<Note>) -> (r: Step)
    ensures
        r.deep_view() == sync_model::next_item(
            sync.deep_view(),
            work.deep_view(),
            notes.deep_view(),
        ),
{
    if work.new.len() == 0 {
        return end_of_library(sync, work, notes);
    }
    let ghost before = work.deep_view();
    let mut work: Work = work;
    let item: Item = work.new.remove(0);
    assert(work.deep_view() =~= sync_model::past_item(before)) by {
        assert(work.new.deep_view() =~= before.new.drop_first());
    }
    match item.data.parent_item.clone() {
        Some(key) => Step {
            action: Action::FetchParent { library: work.library.clone(), key },
            run: Run { sync, phase: Phase::Parent { work, item } },
            notes,
        },
        None => {
            let placement = placement::item_placement(&item, None, &work.collections);
            fetch_file(sync, work, item, placement, notes)
        },
    }
}

fn fetch_file(sync: Sync, work: Work, item: Item, placement: ItemPlacement, notes: Vec<Note>) -> (r:
    Step)
    ensures
        r.deep_view() == sync_model::download(
            sync.deep_view(),
            work.deep_view(),
            item.deep_view(),
            placement.deep_view(),
            notes.deep_view(),
        ),
{
    Step {
        action: Action::DownloadPdf { library: work.library.clone(), key: item.key.clone() },
        run: Run { sync, phase: Phase::Download { work, item, placement } },
        notes,
    }
}

fn take_parent(sync: Sync, work: Work, item: Item, parent: Option<Item>) -> (r: Step)
    ensures
        r.deep_view() == sync_model::with_parent(
            sync.deep_view(),
            work.deep_view(),
            item.deep_view(),
            parent.deep_view(),
        ),
{
    match placed(&item, &parent, &work.collections) {
        Some(placement) => fetch_file(sync, work, item, placement, no_notes()),
        None => abort(sync, Trouble::CircularCollections),
    }
}

fn fail_item(sync: Sync, work: Work, name: String) -> (r: Step)
    ensures
        r.deep_view() == sync_model::item_failed(sync.deep_view(), work.deep_view(), name@),
{
    let mut work: Work = work;
    work.failures = count(work.failures, 1);
    to_next_item(sync, work, one_note(Note::UploadFailed { name }))
}

fn take_file(sync: Sync, work: Work, item: Item, placement: ItemPlacement, reply: PdfReply) -> (r:
    Step)
    ensures
        r.deep_view() == sync_model::downloaded(
            sync.deep_view(),
            work.deep_view(),
            item.deep_view(),
            placement.deep_view(),
            reply.deep_view(),
        ),
{
    match reply {
        PdfReply::Stored(bytes) => reach_tablet(
            sync,
            work,
            Goal::Upload { item, placement, bytes },
            no_notes(),
        ),
        PdfReply::Missing => to_next_item(
            sync,
            work,
            one_note(Note::Skipped { name: placement.name }),
        ),
        PdfReply::Failed => fail_item(sync, work, placement.name),
    }
}

fn go_down(
    sync: Sync,
    work: Work,
    item: Item,
    placement: ItemPlacement,
    bytes: Vec<u8>,
    walk: FolderWalk,
    notes: Vec<Note>,
) -> (r: Step)
    requires
        sync.index is Some,
    ensures
        r.deep_view() == sync_model::down_path(
            sync.deep_view(),
            sync.index->0.deep_view(),
            work.deep_view(),
            item.deep_view(),
            placement.deep_view(),
            bytes@,
            walk.deep_view(),
            notes.deep_view(),
        ),
{
    let next: WalkStep = match &sync.index {
        Some(index) => index.ensure_folder_path(walk),
        None => WalkStep::Reached(None),
    };
    match next {
        WalkStep::Reached(parent) => Step {
            action: Action::UploadPdf { name: placement.name.clone(), bytes, parent },
            run: Run { sync, phase: Phase::Upload { work, item, name: placement.name } },
            notes,
        },
        WalkStep::Make { walk, name, parent } => Step {
            action: Action::CreateFolder { name, parent },
            run: Run { sync, phase: Phase::Folder { work, item, placement, bytes, walk } },
            notes,
        },
    }
}

fn take_folder(
    sync: Sync,
    work: Work,
    item: Item,
    placement: ItemPlacement,
    bytes: Vec<u8>,
    walk: FolderWalk,
    created: FileEntry,
) -> (r: Step)
    requires
        sync.index is Some,
        walk.left@.len() > 0,
    ensures
        r.deep_view() == sync_model::with_folder(
            sync.deep_view(),
            sync.index->0.deep_view(),
            work.deep_view(),
            item.deep_view(),
            placement.deep_view(),
            bytes@,
            walk.deep_view(),
            created.deep_view(),
        ),
{
    let mut sync: Sync = sync;
    let mut index: FolderIndex = sync.index.unwrap();
    let walk: FolderWalk = index.folder_made(walk, created);
    sync.index = Some(index);
    go_down(sync, work, item, placement, bytes, walk, no_notes())
}

fn keep(sync: Sync, work: &Work) -> (r: Sync)
    ensures
        r.deep_view() == sync_model::kept(sync.deep_view(), work.deep_view()),
{
    let mut sync: Sync = sync;
    sync.state.set_library(work.library.as_str(), &work.lib);
    sync
}

fn take_upload(sync: Sync, work: Work, item: Item, name: String, file: FileEntry) -> (r: Step)
    requires
        sync.index is Some,
    ensures
        r.deep_view() == sync_model::uploaded(
            sync.deep_view(),
            sync.index->0.deep_view(),
            work.deep_view(),
            item.deep_view(),
            name@,
            Some(file.deep_view()),
        ),
{
    let mut work: Work = work;
    work.lib.synced.insert(item.key.clone(), item.version);
    work.lib.remarkable_docs.insert(
        item.key.clone(),
        RemarkableDocState { doc_id: file.id.clone(), last_hash: file.hash.clone() },
    );
    let mut sync: Sync = sync;
    let mut index: FolderIndex = sync.index.unwrap();
    index.add_known(file);
    sync.index = Some(index);
    let sync: Sync = keep(sync, &work);
    Step {
        run: Run { sync, phase: Phase::ItemSaved { work } },
        action: Action::Save,
        notes: one_note(Note::Uploaded { name }),
    }
}

fn take_write_back(sync: Sync, work: Work, key: String, remote: FileEntry, ok: bool) -> (r: Step)
    requires
        sync.index is Some,
    ensures
        r.deep_view() == sync_model::wrote_back(
            sync.deep_view(),
            sync.index->0.deep_view(),
            work.deep_view(),
            key@,
            remote.deep_view(),
            ok,
        ),
{
    if !ok {
        return fail_doc(sync, work, key, None);
    }
    let mut work: Work = work;
    let doc_id: Option<String> = match work.lib.remarkable_docs.get(key.as_str()) {
        Some(doc) => Some(doc.doc_id.clone()),
        None => None,
    };
    match doc_id {
        Some(doc_id) => {
            work.lib.remarkable_docs.insert(
                key,
                RemarkableDocState { doc_id, last_hash: remote.hash.clone() },
            );
        },
        None => {},
    }
    let sync: Sync = keep(sync, &work);
    Step {
        run: Run { sync, phase: Phase::DocSaved { work } },
        action: Action::Save,
        notes: one_note(Note::WrittenBack { file_name: remote.file_name }),
    }
}

fn end_of_library(sync: Sync, work: Work, notes: Vec<Note>) -> (r: Step)
    ensures
        r.deep_view() == sync_model::end_library(
            sync.deep_view(),
            work.deep_view(),
            notes.deep_view(),
        ),
{
    let mut work: Work = work;
    if work.failures == 0 {
        work.lib.last_library_version = work.version;
    }
    let mut sync: Sync = sync;
    sync.failures = count(sync.failures, work.failures);
    let sync: Sync = keep(sync, &work);
    Step { run: Run { sync, phase: Phase::LibrarySaved }, action: Action::Save, notes }
}

/// Goes on with the PDF file that came out of a document's archive: it is uploaded to Zotero under
/// the document's name, or the step has failed.
pub fn sync_marked_up_copy(
    sync: Sync,
    work: Work,
    key: String,
    remote: FileEntry,
    pdf: Result<Vec<u8>, ArchiveError>,
) -> (r: Step)
    requires
        sync.index is Some,
    ensures
        r.deep_view() == sync_model::with_pdf(
            sync.deep_view(),
            sync.index->0.deep_view(),
            work.deep_view(),
            key@,
            remote.deep_view(),
            archive::shown(pdf),
        ),
{
    match pdf {
        Err(e) => fail_doc(sync, work, key, Some(e)),
        Ok(bytes) => Step {
            action: Action::UploadAttachment {
                library: work.library.clone(),
                key: key.clone(),
                filename: folders::marked_up_name(remote.file_name.as_str()),
                bytes,
            },
            run: Run { sync, phase: Phase::WritingBack { work, key, remote } },
            notes: no_notes(),
        },
    }
}

fn on_collections(
    sync: Sync,
    library: String,
    event: Event,
) -> (r: Step)
    ensures
        r.deep_view() == sync_model::on_collections(
            sync.deep_view(),
            library@,
            event.deep_view(),
        ),
{
    match event {
        Event::Collections(Some(list)) => take_collections(sync, library, list),
        Event::Collections(None) => abort(sync, Trouble::Collections),
        _ => abort(sync, Trouble::OutOfTurn),
    }
}

fn on_attachments(
    sync: Sync,
    library: String,
    collections: KeyMap<Collection>,
    event: Event,
) -> (r: Step)
    ensures
        r.deep_view() == sync_model::on_attachments(
            sync.deep_view(),
            library@,
            collections.deep_view(),
            event.deep_view(),
        ),
{
    match event {
        Event::Attachments(Some((items, version))) => take_attachments(
            sync,
            library,
            collections,
            items,
            version,
        ),
        Event::Attachments(None) => abort(sync, Trouble::Attachments),
        _ => abort(sync, Trouble::OutOfTurn),
    }
}

fn on_preview(
    sync: Sync,
    work: Work,
    item: Item,
    event: Event,
) -> (r: Step)
    ensures
        r.deep_view() == sync_model::on_preview(
            sync.deep_view(),
            work.deep_view(),
            item.deep_view(),
            event.deep_view(),
        ),
{
    match event {
        Event::Parent(parent) => take_preview_parent(sync, work, item, parent),
        _ => abort(sync, Trouble::OutOfTurn),
    }
}

fn on_connection(
    sync: Sync,
    work: Work,
    goal: Goal,
    event: Event,
) -> (r: Step)
    ensures
        r.deep_view() == sync_model::on_connection(
            sync.deep_view(),
            work.deep_view(),
            goal.deep_view(),
            event.deep_view(),
        ),
{
    match event {
        Event::Connected(ok) => {
            if !ok {
                return abort(sync, Trouble::Connection);
            }
            let mut sync: Sync = sync;
            sync.connected = true;
            reach_tablet(sync, work, goal, no_notes())
        },
        _ => abort(sync, Trouble::OutOfTurn),
    }
}

fn on_listing(
    sync: Sync,
    work: Work,
    goal: Goal,
    event: Event,
) -> (r: Step)
    ensures
        r.deep_view() == sync_model::on_listing(
            sync.deep_view(),
            work.deep_view(),
            goal.deep_view(),
            event.deep_view(),
        ),
{
    match event {
        Event::Files(Some(files)) => {
            let mut sync: Sync = sync;
            sync.index = Some(FolderIndex::from_files(files));
            reach_tablet(sync, work, goal, no_notes())
        },
        Event::Files(None) => abort(sync, Trouble::Listing),
        _ => abort(sync, Trouble::OutOfTurn),
    }
}

fn on_archive(
    sync: Sync,
    work: Work,
    key: String,
    remote: FileEntry,
    event: Event,
) -> (r: Step)
    ensures
        r.deep_view() == sync_model::on_archive(
            sync.deep_view(),
            work.deep_view(),
            key@,
            remote.deep_view(),
            event.deep_view(),
        ),
{
    if sync.index.is_none() {
        return abort(sync, Trouble::OutOfTurn);
    }
    match event {
        Event::Archive(Some(bytes)) => {
            assert(bytes.deep_view() =~= bytes@);
            let pdf = archive::pdf_from_zip(bytes, remote.id.as_str());
            sync_marked_up_copy(sync, work, key, remote, pdf)
        },
        Event::Archive(None) => fail_doc(sync, work, key, None),
        _ => abort(sync, Trouble::OutOfTurn),
    }
}

fn on_write_back(
    sync: Sync,
    work: Work,
    key: String,
    remote: FileEntry,
    event: Event,
) -> (r: Step)
    ensures
        r.deep_view() == sync_model::on_write_back(
            sync.deep_view(),
            work.deep_view(),
            key@,
            remote.deep_view(),
            event.deep_view(),
        ),
{
    if sync.index.is_none() {
        return abort(sync, Trouble::OutOfTurn);
    }
    match event {
        Event::WrittenBack(ok) => take_write_back(sync, work, key, remote, ok),
        _ => abort(sync, Trouble::OutOfTurn),
    }
}

fn on_doc_saved(
    sync: Sync,
    work: Work,
    event: Event,
) -> (r: Step)
    ensures
        r.deep_view() == sync_model::on_doc_saved(
            sync.deep_view(),
            work.deep_view(),
            event.deep_view(),
        ),
{
    if sync.index.is_none() {
        return abort(sync, Trouble::OutOfTurn);
    }
    match event {
        Event::Saved(ok) => {
            if ok {
                to_next_doc(sync, work, no_notes())
            } else {
                abort(sync, Trouble::Save)
            }
        },
        _ => abort(sync, Trouble::OutOfTurn),
    }
}

fn on_parent(
    sync: Sync,
    work: Work,
    item: Item,
    event: Event,
) -> (r: Step)
    ensures
        r.deep_view() == sync_model::on_parent(
            sync.deep_view(),
            work.deep_view(),
            item.deep_view(),
            event.deep_view(),
        ),
{
    match event {
        Event::Parent(parent) => take_parent(sync, work, item, parent),
        _ => abort(sync, Trouble::OutOfTurn),
    }
}

fn on_download(
    sync: Sync,
    work: Work,
    item: Item,
    placement: ItemPlacement,
    event: Event,
) -> (r: Step)
    ensures
        r.deep_view() == sync_model::on_download(
            sync.deep_view(),
            work.deep_view(),
            item.deep_view(),
            placement.deep_view(),
            event.deep_view(),
        ),
{
    match event {
        Event::Pdf(reply) => take_file(sync, work, item, placement, reply),
        _ => abort(sync, Trouble::OutOfTurn),
    }
}

fn on_folder(
    sync: Sync,
    work: Work,
    item: Item,
    placement: ItemPlacement,
    bytes: Vec<u8>,
    walk: FolderWalk,
    event: Event,
) -> (r: Step)
    ensures
        r.deep_view() == sync_model::on_folder(
            sync.deep_view(),
            work.deep_view(),
            item.deep_view(),
            placement.deep_view(),
            bytes@,
            walk.deep_view(),
            event.deep_view(),
        ),
{
    if sync.index.is_none() {
        return abort(sync, Trouble::OutOfTurn);
    }
    match event {
        Event::FolderCreated(Some(created)) => {
            if walk.left.len() == 0 {
                return abort(sync, Trouble::OutOfTurn);
            }
            take_folder(sync, work, item, placement, bytes, walk, created)
        },
        Event::FolderCreated(None) => abort(sync, Trouble::Folder),
        _ => abort(sync, Trouble::OutOfTurn),
    }
}

fn on_upload(
    sync: Sync,
    work: Work,
    item: Item,
    name: String,
    event: Event,
) -> (r: Step)
    ensures
        r.deep_view() == sync_model::on_upload(
            sync.deep_view(),
            work.deep_view(),
            item.deep_view(),
            name@,
            event.deep_view(),
        ),
{
    if sync.index.is_none() {
        return abort(sync, Trouble::OutOfTurn);
    }
    match event {
        Event::Uploaded(Some(file)) => take_upload(sync, work, item, name, file),
        Event::Uploaded(None) => fail_item(sync, work, name),
        _ => abort(sync, Trouble::OutOfTurn),
    }
}

fn on_item_saved(
    sync: Sync,
    work: Work,
    event: Event,
) -> (r: Step)
    ensures
        r.deep_view() == sync_model::on_item_saved(
            sync.deep_view(),
            work.deep_view(),
            event.deep_view(),
        ),
{
    match event {
        Event::Saved(ok) => {
            if ok {
                to_next_item(sync, work, no_notes())
            } else {
                abort(sync, Trouble::Save)
            }
        },
        _ => abort(sync, Trouble::OutOfTurn),
    }
}

fn on_library_saved(
    sync: Sync,
    event: Event,
) -> (r: Step)
    ensures
        r.deep_view() == sync_model::on_library_saved(
            sync.deep_view(),
            event.deep_view(),
        ),
{
    match event {
        Event::Saved(ok) => {
            if ok {
                to_next_library(sync, no_notes())
            } else {
                abort(sync, Trouble::Save)
            }
        },
        _ => abort(sync, Trouble::OutOfTurn),
    }
}

impl Run {
    /// Takes what came of the last action, and says what comes next.
    pub fn answer(self, event: Event) -> (r: Step)
        ensures
            r.deep_view() == sync_model::after(self.deep_view(), event.deep_view()),
    {
        let sync: Sync = self.sync;
        match self.phase {
            Phase::Collections { library } => on_collections(sync, library, event),
            Phase::Attachments { library, collections } => on_attachments(
                sync,
                library,
                collections,
                event,
            ),
            Phase::Preview { work, item } => on_preview(sync, work, item, event),
            Phase::Connecting { work, goal } => on_connection(sync, work, goal, event),
            Phase::Listing { work, goal } => on_listing(sync, work, goal, event),
            Phase::Archive { work, key, remote } => on_archive(sync, work, key, remote, event),
            Phase::WritingBack { work, key, remote } => on_write_back(
                sync,
                work,
                key,
                remote,
                event,
            ),
            Phase::DocSaved { work } => on_doc_saved(sync, work, event),
            Phase::Parent { work, item } => on_parent(sync, work, item, event),
            Phase::Download { work, item, placement } => on_download(
                sync,
                work,
                item,
                placement,
                event,
            ),
            Phase::Folder { work, item, placement, bytes, walk } => on_folder(
                sync,
                work,
                item,
                placement,
                bytes,
                walk,
                event,
            ),
            Phase::Upload { work, item, name } => on_upload(sync, work, item, name, event),
            Phase::ItemSaved { work } => on_item_saved(sync, work, event),
            Phase::LibrarySaved => on_library_saved(sync, event),
            Phase::Over => abort(sync, Trouble::OutOfTurn),
        }
    }
}

/// Begins a sync of the configured libraries, from the state that the last one left. A dry run only
/// tells what it would upload.
pub fn run(config: &Config, state: State, dry_run: bool) -> (r: Step)
    ensures
        r.deep_view() == sync_model::first_step(
            config::library_prefixes(*config),
            state.deep_view(),
            dry_run,
        ),
{
    to_next_library(
        Sync {
            dry_run,
            libraries: config.libraries(),
            state,
            connected: false,
            index: None,
            failures: 0,
        },
        no_notes(),
    )
}

} // verus!
