//! What each reply brings a sync to.
use vstd::prelude::*;

use crate::archive;
use crate::events::{ActionView, EventView, NoteView, Outcome, PdfReplyView, Trouble};
use crate::folders;
use crate::folders::{FolderIndexView, WalkView};
use crate::placement;
use crate::placement::ItemPlacementView;
use crate::remarkable::FileEntryView;
use crate::state;
use crate::state::{DocView, LibraryView, StateView};
use crate::sync_laws;
use crate::sync_model;
use crate::sync_model::{GoalView, PhaseView, RunView, StepView, SyncView, WorkView};
use crate::sync_order;
use crate::zotero::{CollectionView, ItemView};

verus! {

/// Whether the cloud has a copy of a document with a hash, and that is not the one last seen.
pub open spec fn is_changed(index: FolderIndexView, doc: DocView) -> bool {
    &&& index.docs.contains_key(doc.doc_id)
    &&& index.docs[doc.doc_id].hash.len() > 0
    &&& index.docs[doc.doc_id].hash != doc.last_hash
}

/// Whether the document at a place is the first that has changed.
pub open spec fn first_changed(
    index: FolderIndexView,
    docs: Seq<(Seq<char>, DocView)>,
    i: int,
) -> bool {
    &&& 0 <= i < docs.len()
    &&& is_changed(index, docs[i].1)
    &&& forall|j: int| 0 <= j < i ==> !is_changed(index, (#[trigger] docs[j]).1)
}

/// Whether none of the documents has changed.
pub open spec fn none_changed(index: FolderIndexView, docs: Seq<(Seq<char>, DocView)>) -> bool {
    forall|j: int| 0 <= j < docs.len() ==> !is_changed(index, (#[trigger] docs[j]).1)
}

/// Whether this is what a run knows once a library is done: the state has the library as the work has
/// it, at the version that it was listed at where nothing failed, and at the one before else. The
/// failures add up, as far as they can be counted, and all else is as it was.
pub open spec fn ends_with(sync: SyncView, work: WorkView, after: SyncView) -> bool {
    let version = if work.failures == 0 {
        work.version
    } else {
        work.lib.last_library_version
    };
    let lib = LibraryView { last_library_version: version, ..work.lib };
    let total = sync.failures + work.failures;
    &&& after.dry_run == sync.dry_run
    &&& after.libraries == sync.libraries
    &&& after.connected == sync.connected
    &&& after.index == sync.index
    &&& after.failures == if total <= usize::MAX {
        total
    } else {
        usize::MAX as int
    }
    &&& after.state.libraries == sync.state.libraries.insert(work.library, lib)
    &&& after.state.last_library_version == sync.state.last_library_version
    &&& after.state.synced == sync.state.synced
}

/// Whether a step takes up the first of the new attachments, or ends the library where there is none.
pub open spec fn takes_up_attachments(
    sync: SyncView,
    work: WorkView,
    notes: Seq<NoteView>,
    s: StepView,
) -> bool {
    &&& s.notes == notes
    &&& work.new.len() == 0 ==> {
        &&& s.action is Save
        &&& s.run.phase is LibrarySaved
        &&& ends_with(sync, work, s.run.sync)
    }
    &&& work.new.len() > 0 ==> {
        let item = work.new[0];
        let left = WorkView { new: work.new.skip(1), ..work };
        &&& s.run.sync == sync
        &&& item.data.parent_item is Some ==> {
            &&& s.run.phase == (PhaseView::Parent { work: left, item })
            &&& s.action == (ActionView::FetchParent {
                library: work.library,
                key: item.data.parent_item->0,
            })
        }
        &&& item.data.parent_item is None ==> {
            &&& s.run.phase is Download
            &&& s.run.phase->Download_work == left
            &&& s.run.phase->Download_item == item
            &&& s.run.phase->Download_placement == placement::placement_of(
                item,
                None,
                work.collections,
            )
            &&& s.action == (ActionView::DownloadPdf { library: work.library, key: item.key })
        }
    }
}

/// Whether a step takes up the document at a place: the ones behind it are left.
pub open spec fn takes_up_document(
    sync: SyncView,
    index: FolderIndexView,
    work: WorkView,
    notes: Seq<NoteView>,
    i: int,
    s: StepView,
) -> bool {
    let remote = index.docs[work.docs[i].1.doc_id];
    &&& s.run.sync == sync
    &&& s.notes == notes
    &&& s.action == (ActionView::DownloadArchive { doc_id: remote.id })
    &&& s.run.phase is Archive
    &&& s.run.phase->Archive_key == work.docs[i].0
    &&& s.run.phase->Archive_remote == remote
    &&& s.run.phase->Archive_work.docs == work.docs.skip(i + 1)
    &&& s.run.phase->Archive_work == (WorkView { docs: work.docs.skip(i + 1), ..work })
}

/// Whether a step looks at the documents that are left: it takes up the first that has changed, and
/// goes on to the new attachments only where none has.
pub open spec fn looks_at_documents(
    sync: SyncView,
    index: FolderIndexView,
    work: WorkView,
    notes: Seq<NoteView>,
    s: StepView,
) -> bool {
    ||| exists|i: int|
        #![trigger work.docs[i]]
        first_changed(index, work.docs, i) && takes_up_document(sync, index, work, notes, i, s)
    ||| none_changed(index, work.docs) && takes_up_attachments(
        sync,
        WorkView { docs: Seq::empty(), ..work },
        notes,
        s,
    )
}

proof fn lemma_attachments(sync: SyncView, work: WorkView, notes: Seq<NoteView>)
    ensures
        takes_up_attachments(sync, work, notes, sync_model::next_item(sync, work, notes)),
{
    assert(work.new.len() > 0 ==> work.new.skip(1) =~= work.new.drop_first());
}

proof fn lemma_documents(
    sync: SyncView,
    index: FolderIndexView,
    work: WorkView,
    notes: Seq<NoteView>,
)
    ensures
        looks_at_documents(
            sync,
            index,
            work,
            notes,
            sync_model::next_doc(sync, index, work, notes),
        ),
    decreases work.docs.len(),
{
    let s = sync_model::next_doc(sync, index, work, notes);
    if work.docs.len() == 0 {
        assert(work.docs =~= Seq::<(Seq<char>, DocView)>::empty());
        lemma_attachments(sync, work, notes);
        assert((WorkView { docs: Seq::empty(), ..work }) == work);
    } else if sync_model::changed_copy(index, work.docs[0].1) is None {
        let rest = sync_model::past_doc(work);
        lemma_documents(sync, index, rest, notes);
        assert(forall|j: int| 0 <= j < rest.docs.len() ==> rest.docs[j] == work.docs[j + 1]);
        assert(!is_changed(index, work.docs[0].1));
        if none_changed(index, rest.docs) && takes_up_attachments(
            sync,
            WorkView { docs: Seq::empty(), ..rest },
            notes,
            s,
        ) {
            assert forall|j: int| 0 <= j < work.docs.len() implies !is_changed(
                index,
                (#[trigger] work.docs[j]).1,
            ) by {
                if j > 0 {
                    assert(rest.docs[j - 1] == work.docs[j]);
                }
            }
        } else {
            let i = choose|i: int|
                #![trigger rest.docs[i]]
                first_changed(index, rest.docs, i) && takes_up_document(
                    sync,
                    index,
                    rest,
                    notes,
                    i,
                    s,
                );
            assert(rest.docs[i] == work.docs[i + 1]);
            assert(rest.docs.skip(i + 1) =~= work.docs.skip(i + 2));
            assert forall|j: int| 0 <= j < i + 1 implies !is_changed(
                index,
                (#[trigger] work.docs[j]).1,
            ) by {
                if j > 0 {
                    assert(rest.docs[j - 1] == work.docs[j]);
                }
            }
            assert(first_changed(index, work.docs, i + 1));
            assert(takes_up_document(sync, index, work, notes, i + 1, s));
        }
    } else {
        assert(work.docs.skip(1) =~= work.docs.drop_first());
        assert(first_changed(index, work.docs, 0));
        assert(takes_up_document(sync, index, work, notes, 0, s));
    }
}

/// The work with a failure more.
pub open spec fn failed_once_more(work: WorkView) -> WorkView {
    WorkView {
        failures: if work.failures < usize::MAX {
            (work.failures + 1) as usize
        } else {
            usize::MAX
        },
        ..work
    }
}

/// Wherever a run goes on with the documents that are left, it takes up the first of them that has
/// changed, and those behind it are left. The new attachments, and the end of the library, come only
/// where none of the documents has changed. That holds once the cloud has been listed, after each
/// document that was written back and saved, and after each that failed.
pub proof fn changed_documents_are_taken_up_in_order(run: RunView, event: EventView)
    requires
        sync_order::is_ready(run),
    ensures
        ({
            let s = sync_model::after(run, event);
            let index = run.sync.index->0;
            match (run.phase, event) {
                (
                    PhaseView::Listing { work, goal: GoalView::Docs },
                    EventView::Files(Some(files)),
                ) => {
                    let listed = folders::index_of(files);
                    looks_at_documents(
                        SyncView { index: Some(listed), ..run.sync },
                        listed,
                        work,
                        Seq::empty(),
                        s,
                    )
                },
                (
                    PhaseView::Connecting { work, goal: GoalView::Docs },
                    EventView::Connected(true),
                ) => {
                    let sync = SyncView { connected: true, ..run.sync };
                    &&& run.sync.index is Some ==> looks_at_documents(
                        sync,
                        index,
                        work,
                        Seq::empty(),
                        s,
                    )
                    &&& run.sync.index is None ==> {
                        &&& s.action is ListFiles
                        &&& s.notes.len() == 0
                        &&& s.run.sync == sync
                        &&& s.run.phase == (PhaseView::Listing { work, goal: GoalView::Docs })
                    }
                },
                (PhaseView::DocSaved { work }, EventView::Saved(true)) => looks_at_documents(
                    run.sync,
                    index,
                    work,
                    Seq::empty(),
                    s,
                ),
                (PhaseView::Archive { work, key, .. }, EventView::Archive(None)) => {
                    looks_at_documents(
                        run.sync,
                        index,
                        failed_once_more(work),
                        seq![NoteView::WriteBackFailed { key, cause: None }],
                        s,
                    )
                },
                (PhaseView::Archive { work, key, remote }, EventView::Archive(Some(bytes))) => {
                    let pdf = archive::pdf_inside(bytes, remote.id);
                    &&& pdf is Err ==> looks_at_documents(
                        run.sync,
                        index,
                        failed_once_more(work),
                        seq![NoteView::WriteBackFailed { key, cause: Some(pdf->Err_0) }],
                        s,
                    )
                    &&& pdf is Ok ==> {
                        &&& s.action == (ActionView::UploadAttachment {
                            library: work.library,
                            key,
                            filename: folders::copy_name(remote.file_name),
                            bytes: pdf->Ok_0,
                        })
                        &&& s.notes.len() == 0
                        &&& s.run.sync == run.sync
                        &&& s.run.phase == (PhaseView::WritingBack { work, key, remote })
                    }
                },
                (PhaseView::WritingBack { work, key, .. }, EventView::WrittenBack(false)) => {
                    looks_at_documents(
                        run.sync,
                        index,
                        failed_once_more(work),
                        seq![NoteView::WriteBackFailed { key, cause: None }],
                        s,
                    )
                },
                _ => true,
            }
        }),
{
    let none = Seq::<NoteView>::empty();
    let index = run.sync.index->0;
    match (run.phase, event) {
        (PhaseView::Listing { work, goal: GoalView::Docs }, EventView::Files(Some(files))) => {
            let listed = folders::index_of(files);
            lemma_documents(
                SyncView { index: Some(listed), ..run.sync },
                listed,
                work,
                none,
            );
        },
        (PhaseView::Connecting { work, goal: GoalView::Docs }, EventView::Connected(true)) => {
            if run.sync.index is Some {
                lemma_documents(SyncView { connected: true, ..run.sync }, index, work, none);
            }
        },
        (PhaseView::DocSaved { work }, EventView::Saved(true)) => {
            lemma_documents(run.sync, index, work, none);
        },
        (PhaseView::Archive { work, key, .. }, EventView::Archive(None)) => {
            lemma_documents(
                run.sync,
                index,
                failed_once_more(work),
                seq![NoteView::WriteBackFailed { key, cause: None }],
            );
        },
        (PhaseView::Archive { work, key, remote }, EventView::Archive(Some(bytes))) => {
            let pdf = archive::pdf_inside(bytes, remote.id);
            if pdf is Err {
                lemma_documents(
                    run.sync,
                    index,
                    failed_once_more(work),
                    seq![NoteView::WriteBackFailed { key, cause: Some(pdf->Err_0) }],
                );
            }
        },
        (PhaseView::WritingBack { work, key, .. }, EventView::WrittenBack(false)) => {
            lemma_documents(
                run.sync,
                index,
                failed_once_more(work),
                seq![NoteView::WriteBackFailed { key, cause: None }],
            );
        },
        _ => {},
    }
}

/// Whether a step goes on to the first of the libraries that are still to come, or ends the run where
/// there is none: in success exactly where nothing failed.
pub open spec fn goes_to_next_library(sync: SyncView, s: StepView) -> bool {
    &&& sync.libraries.len() == 0 ==> {
        &&& s.run.sync == sync
        &&& s.run.phase is Over
        &&& s.action is Finish
        &&& sync.failures == 0 ==> s.action->Finish_0 is Done
        &&& sync.failures > 0 ==> s.action->Finish_0 == (Outcome::Failed {
            failures: sync.failures,
        })
    }
    &&& sync.libraries.len() > 0 ==> {
        &&& s.run.sync == (SyncView { libraries: sync.libraries.skip(1), ..sync })
        &&& s.run.phase == (PhaseView::Collections { library: sync.libraries[0] })
        &&& s.action == (ActionView::ListCollections { library: sync.libraries[0] })
    }
}

/// Whether a step tells of the first `n` of the new attachments, each of which belongs to no
/// publication, one by one and after what was told before, and then asks for the publication of the
/// next one, or goes on to the next library where there is none.
pub open spec fn shows_up_to(
    sync: SyncView,
    work: WorkView,
    told: Seq<NoteView>,
    n: int,
    s: StepView,
) -> bool {
    &&& 0 <= n <= work.new.len()
    &&& forall|i: int| 0 <= i < n ==> (#[trigger] work.new[i]).data.parent_item is None
    &&& s.notes.len() == told.len() + n
    &&& forall|i: int| 0 <= i < told.len() ==> #[trigger] s.notes[i] == told[i]
    &&& forall|i: int|
        0 <= i < n ==> {
            let place = placement::placement_of(#[trigger] work.new[i], None, work.collections);
            s.notes[told.len() + i] == (NoteView::WouldUpload {
                name: place.name,
                folder_path: place.folder_path,
            })
        }
    &&& n == work.new.len() ==> goes_to_next_library(sync, s)
    &&& n < work.new.len() ==> {
        &&& s.run.sync == sync
        &&& work.new[n].data.parent_item is Some
        &&& s.action == (ActionView::FetchParent {
            library: work.library,
            key: work.new[n].data.parent_item->0,
        })
        &&& s.run.phase is Preview
        &&& s.run.phase->Preview_item == work.new[n]
        &&& s.run.phase->Preview_work == (WorkView { new: work.new.skip(n + 1), ..work })
    }
}

proof fn lemma_next_library(sync: SyncView, notes: Seq<NoteView>)
    ensures
        goes_to_next_library(sync, sync_model::next_library(sync, notes)),
        sync_model::next_library(sync, notes).notes == notes,
{
    assert(sync.libraries.len() > 0 ==> sync.libraries.skip(1) =~= sync.libraries.drop_first());
}

proof fn lemma_shows(sync: SyncView, work: WorkView, told: Seq<NoteView>) -> (n: int)
    ensures
        shows_up_to(sync, work, told, n, sync_model::preview(sync, work, told)),
    decreases work.new.len(),
{
    let s = sync_model::preview(sync, work, told);
    if work.new.len() == 0 {
        lemma_next_library(sync, told);
        0
    } else if work.new[0].data.parent_item is Some {
        assert(work.new.skip(1) =~= work.new.drop_first());
        0
    } else {
        let rest = sync_model::past_item(work);
        let place = placement::placement_of(work.new[0], None, work.collections);
        let note = NoteView::WouldUpload { name: place.name, folder_path: place.folder_path };
        let m = lemma_shows(sync, rest, told.push(note));
        let n = m + 1;
        assert(s == sync_model::preview(sync, rest, told.push(note)));
        assert(forall|i: int| 0 <= i < rest.new.len() ==> rest.new[i] == work.new[i + 1]);
        assert forall|i: int| 0 <= i < n implies (
        #[trigger] work.new[i]).data.parent_item is None by {
            if i > 0 {
                assert(rest.new[i - 1] == work.new[i]);
            }
        }
        assert forall|i: int| 0 <= i < told.len() implies #[trigger] s.notes[i] == told[i] by {
            assert(told.push(note)[i] == told[i]);
        }
        assert forall|i: int| 0 <= i < n implies ({
            let p = placement::placement_of(#[trigger] work.new[i], None, work.collections);
            s.notes[told.len() + i] == (NoteView::WouldUpload {
                name: p.name,
                folder_path: p.folder_path,
            })
        }) by {
            if i > 0 {
                assert(rest.new[i - 1] == work.new[i]);
                assert(told.push(note).len() + (i - 1) == told.len() + i);
            } else {
                assert(told.push(note)[told.len() as int] == note);
                assert(s.notes[told.len() as int] == told.push(note)[told.len() as int]);
            }
        }
        if n < work.new.len() {
            assert(rest.new.skip(m + 1) =~= work.new.skip(n + 1));
        }
        n
    }
}

/// Whether this is what a state knows of a library: nothing, where it has no part for it.
pub open spec fn is_known_of(state: StateView, library: Seq<char>, lib: LibraryView) -> bool {
    &&& state.libraries.contains_key(library) ==> lib == state.libraries[library]
    &&& !state.libraries.contains_key(library) ==> {
        &&& lib.last_library_version == 0
        &&& lib.synced == Map::<Seq<char>, u64>::empty()
        &&& lib.docs == Map::<Seq<char>, DocView>::empty()
        &&& lib.doc_order.len() == 0
    }
}

/// Whether this is the work that the changed attachments of a library make: the attachments without a
/// record, in order, all the documents that the state knows, in order, and no failure yet. Of what the
/// state knows only the records of attachments that have one already are brought up to date.
pub open spec fn is_work_for(
    lib: LibraryView,
    library: Seq<char>,
    collections: Map<Seq<char>, CollectionView>,
    items: Seq<ItemView>,
    version: u64,
    work: WorkView,
) -> bool {
    &&& work.library == library
    &&& work.collections == collections
    &&& work.version == version
    &&& work.failures == 0
    &&& work.new == sync_model::new_items(items, lib.synced)
    &&& work.docs.len() == lib.doc_order.len()
    &&& forall|i: int|
        0 <= i < work.docs.len() ==> (#[trigger] work.docs[i]).0 == lib.doc_order[i]
            && work.docs[i].1 == lib.docs[lib.doc_order[i]]
    &&& work.lib.last_library_version == lib.last_library_version
    &&& work.lib.docs == lib.docs
    &&& work.lib.doc_order == lib.doc_order
    &&& work.lib.synced.dom() == lib.synced.dom()
    &&& forall|key: Seq<char>, i: int|
        #![trigger lib.synced.contains_key(key), items[i]]
        lib.synced.contains_key(key) && comes_last(items, key, i) ==> work.lib.synced[key]
            == items[i].version
    &&& forall|key: Seq<char>|
        #![trigger lib.synced.contains_key(key)]
        lib.synced.contains_key(key) && (forall|i: int|
            0 <= i < items.len() ==> (#[trigger] items[i]).key != key) ==> work.lib.synced[key]
            == lib.synced[key]
}

/// Whether the item at a place is the last one with a key.
pub open spec fn comes_last(items: Seq<ItemView>, key: Seq<char>, i: int) -> bool {
    &&& 0 <= i < items.len()
    &&& items[i].key == key
    &&& forall|j: int| i < j < items.len() ==> (#[trigger] items[j]).key != key
}

/// An attachment is new exactly where it has no record, whatever its version and its other fields are,
/// and known else. What is new of two lists is what is new of the one and then what is new of the
/// other, and so with what is known.
pub proof fn attachments_are_new_one_by_one(
    a: Seq<ItemView>,
    b: Seq<ItemView>,
    item: ItemView,
    synced: Map<Seq<char>, u64>,
)
    ensures
        !synced.contains_key(item.key) ==> {
            &&& sync_model::new_items(seq![item], synced) == seq![item]
            &&& sync_model::known_items(seq![item], synced).len() == 0
        },
        synced.contains_key(item.key) ==> {
            &&& sync_model::new_items(seq![item], synced).len() == 0
            &&& sync_model::known_items(seq![item], synced) == seq![item]
        },
        sync_model::new_items(Seq::empty(), synced).len() == 0,
        sync_model::known_items(Seq::empty(), synced).len() == 0,
        sync_model::new_items(a + b, synced) == sync_model::new_items(a, synced)
            + sync_model::new_items(b, synced),
        sync_model::known_items(a + b, synced) == sync_model::known_items(a, synced)
            + sync_model::known_items(b, synced),
    decreases b.len(),
{
    reveal(Seq::filter);
    let one = seq![item];
    assert(one.drop_last() =~= Seq::<ItemView>::empty());
    assert(sync_model::new_items(one.drop_last(), synced) =~= Seq::<ItemView>::empty());
    assert(sync_model::known_items(one.drop_last(), synced) =~= Seq::<ItemView>::empty());
    if synced.contains_key(item.key) {
        assert(sync_model::known_items(one, synced) =~= one);
    } else {
        assert(sync_model::new_items(one, synced) =~= one);
    }
    if b.len() == 0 {
        assert(a + b =~= a);
        assert(sync_model::new_items(a, synced) + sync_model::new_items(b, synced)
            =~= sync_model::new_items(a, synced));
        assert(sync_model::known_items(a, synced) + sync_model::known_items(b, synced)
            =~= sync_model::known_items(a, synced));
    } else {
        attachments_are_new_one_by_one(a, b.drop_last(), item, synced);
        assert((a + b).drop_last() =~= a + b.drop_last());
        assert((a + b).last() == b.last());
        assert(sync_model::new_items(a + b, synced) =~= sync_model::new_items(a, synced)
            + sync_model::new_items(b, synced));
        assert(sync_model::known_items(a + b, synced) =~= sync_model::known_items(a, synced)
            + sync_model::known_items(b, synced));
    }
}

proof fn lemma_recorded_last(
    synced: Map<Seq<char>, u64>,
    items: Seq<ItemView>,
    known: Map<Seq<char>, u64>,
    key: Seq<char>,
)
    requires
        known.contains_key(key),
    ensures
        forall|i: int|
            #![trigger items[i]]
            comes_last(items, key, i) ==> sync_model::recorded(
                synced,
                sync_model::known_items(items, known),
            )[key] == items[i].version,
        (forall|i: int| 0 <= i < items.len() ==> (#[trigger] items[i]).key != key)
            ==> sync_model::recorded(synced, sync_model::known_items(items, known))[key]
            == synced[key],
    decreases items.len(),
{
    reveal(Seq::filter);
    if items.len() > 0 {
        let before = items.drop_last();
        lemma_recorded_last(synced, before, known, key);
        let kept = sync_model::known_items(before, known);
        let all = sync_model::known_items(items, known);
        if known.contains_key(items.last().key) {
            assert(all == kept.push(items.last()));
            assert(all.drop_last() =~= kept);
        } else {
            assert(all == kept);
        }
        assert forall|i: int| comes_last(items, key, i) implies sync_model::recorded(
            synced,
            all,
        )[key] == (#[trigger] items[i]).version by {
            if i < before.len() {
                assert(items[items.len() - 1].key != key);
                assert forall|j: int| i < j < before.len() implies (
                #[trigger] before[j]).key != key by {
                    assert(items[j].key != key);
                }
                assert(before[i] == items[i]);
                assert(comes_last(before, key, i));
            }
        }
        if forall|i: int| 0 <= i < items.len() ==> (#[trigger] items[i]).key != key {
            assert(items[items.len() - 1].key != key);
            assert forall|j: int| 0 <= j < before.len() implies (#[trigger] before[j]).key
                != key by {
                assert(items[j].key != key);
            }
        }
    }
}

proof fn lemma_recorded_dom(synced: Map<Seq<char>, u64>, items: Seq<ItemView>)
    requires
        forall|i: int| 0 <= i < items.len() ==> synced.contains_key((#[trigger] items[i]).key),
    ensures
        sync_model::recorded(synced, items).dom() == synced.dom(),
    decreases items.len(),
{
    if items.len() > 0 {
        assert forall|i: int| 0 <= i < items.drop_last().len() implies synced.contains_key(
            (#[trigger] items.drop_last()[i]).key,
        ) by {
            assert(items[i] == items.drop_last()[i]);
        }
        lemma_recorded_dom(synced, items.drop_last());
        assert(synced.contains_key(items[items.len() - 1].key));
        assert(sync_model::recorded(synced, items).dom() =~= synced.dom());
    }
}

proof fn lemma_parts(items: Seq<ItemView>, synced: Map<Seq<char>, u64>)
    ensures
        sync_model::new_items(items, synced).len() + sync_model::known_items(items, synced).len()
            == items.len(),
        forall|i: int|
            0 <= i < sync_model::known_items(items, synced).len() ==> synced.contains_key(
                (#[trigger] sync_model::known_items(items, synced)[i]).key,
            ),
    decreases items.len(),
{
    reveal(Seq::filter);
    if items.len() > 0 {
        lemma_parts(items.drop_last(), synced);
        let before = sync_model::known_items(items.drop_last(), synced);
        let known = sync_model::known_items(items, synced);
        assert forall|i: int| 0 <= i < known.len() implies synced.contains_key(
            (#[trigger] known[i]).key,
        ) by {
            if i < before.len() {
                assert(before[i] == known[i]);
            }
        }
    }
}

proof fn lemma_work(
    state: StateView,
    lib: LibraryView,
    library: Seq<char>,
    collections: Map<Seq<char>, CollectionView>,
    items: Seq<ItemView>,
    version: u64,
)
    requires
        is_known_of(state, library, lib),
    ensures
        is_work_for(
            lib,
            library,
            collections,
            items,
            version,
            sync_model::work_for(state, library, collections, items, version),
        ),
{
    let work = sync_model::work_for(state, library, collections, items, version);
    assert(lib =~= state::library_in(state, library));
    lemma_parts(items, lib.synced);
    lemma_recorded_dom(lib.synced, sync_model::known_items(items, lib.synced));
    assert forall|key: Seq<char>, i: int|
        #![trigger lib.synced.contains_key(key), items[i]]
        lib.synced.contains_key(key) && comes_last(items, key, i) implies work.lib.synced[key]
        == items[i].version by {
        lemma_recorded_last(lib.synced, items, lib.synced, key);
    }
    assert forall|key: Seq<char>|
        #![trigger lib.synced.contains_key(key)]
        lib.synced.contains_key(key) && (forall|i: int|
            0 <= i < items.len() ==> (#[trigger] items[i]).key != key) implies work.lib.synced[key]
        == lib.synced[key] by {
        lemma_recorded_last(lib.synced, items, lib.synced, key);
    }
}

/// A listing of changed attachments is counted, and each attachment in it counts as new or as updated.
/// A dry run then tells of the new ones, one by one and in order, up to the first that belongs to a
/// publication; that publication is asked for. Any other run looks at all the documents of the library
/// first, and takes up the new attachments at once only where there is no document.
pub proof fn listings_make_the_work(
    run: RunView,
    library: Seq<char>,
    collections: Map<Seq<char>, CollectionView>,
    lib: LibraryView,
    items: Seq<ItemView>,
    version: u64,
) -> (r: (WorkView, int))
    requires
        run.phase == (PhaseView::Attachments { library, collections }),
        is_known_of(run.sync.state, library, lib),
    ensures
        is_work_for(lib, library, collections, items, version, r.0),
        ({
            let s = sync_model::after(run, EventView::Attachments(Some((items, version))));
            let (work, n) = r;
            let told = seq![
                NoteView::Counted {
                    library,
                    changed: items.len(),
                    new: work.new.len(),
                    updated: (items.len() - work.new.len()) as nat,
                },
            ];
            &&& work.new.len() <= items.len()
            &&& run.sync.dry_run ==> shows_up_to(run.sync, work, told, n, s)
            &&& !run.sync.dry_run && work.docs.len() == 0 ==> takes_up_attachments(
                run.sync,
                work,
                told,
                s,
            )
            &&& !run.sync.dry_run && work.docs.len() > 0 ==> {
                &&& !run.sync.connected ==> {
                    &&& s.action is Connect
                    &&& s.notes == told
                    &&& s.run.sync == run.sync
                    &&& s.run.phase == (PhaseView::Connecting { work, goal: GoalView::Docs })
                }
                &&& run.sync.connected && run.sync.index is None ==> {
                    &&& s.action is ListFiles
                    &&& s.notes == told
                    &&& s.run.sync == run.sync
                    &&& s.run.phase == (PhaseView::Listing { work, goal: GoalView::Docs })
                }
                &&& run.sync.connected && run.sync.index is Some ==> looks_at_documents(
                    run.sync,
                    run.sync.index->0,
                    work,
                    told,
                    s,
                )
            }
        }),
{
    let sync = run.sync;
    let work = sync_model::work_for(sync.state, library, collections, items, version);
    assert(lib =~= state::library_in(sync.state, library));
    lemma_work(sync.state, lib, library, collections, items, version);
    lemma_parts(items, lib.synced);
    let told = seq![
        NoteView::Counted {
            library,
            changed: items.len(),
            new: work.new.len(),
            updated: (items.len() - work.new.len()) as nat,
        },
    ];
    if sync.dry_run {
        (work, lemma_shows(sync, work, told))
    } else {
        lemma_attachments(sync, work, told);
        if sync.index is Some {
            lemma_documents(sync, sync.index->0, work, told);
        }
        (work, 0)
    }
}

/// Once the publication of an attachment is known, or is known to be missing, a dry run tells of that
/// attachment, and then of the new ones behind it, one by one and in order, up to the next that belongs
/// to a publication. It gives up only where the collections round the publication lead back to
/// themselves.
pub proof fn dry_runs_tell_of_each_attachment(
    run: RunView,
    work: WorkView,
    item: ItemView,
    parent: Option<ItemView>,
) -> (n: int)
    requires
        run.phase == (PhaseView::Preview { work, item }),
    ensures
        ({
            let s = sync_model::after(run, EventView::Parent(parent));
            let place = placement::placement_of(item, parent, work.collections);
            let told = seq![
                NoteView::WouldUpload { name: place.name, folder_path: place.folder_path },
            ];
            if parent is None || placement::chain_ends(parent->0, work.collections) {
                shows_up_to(run.sync, work, told, n, s)
            } else {
                &&& s.action == ActionView::Finish(Outcome::Aborted(Trouble::CircularCollections))
                &&& s.notes.len() == 0
                &&& s.run.sync == run.sync
                &&& s.run.phase is Over
            }
        }),
{
    let place = placement::placement_of(item, parent, work.collections);
    let told = seq![NoteView::WouldUpload { name: place.name, folder_path: place.folder_path }];
    lemma_shows(run.sync, work, told)
}

/// All that is told from a step on, while the events come in order.
pub open spec fn told_from(s: StepView, events: Seq<EventView>) -> Seq<NoteView>
    decreases events.len(),
{
    if events.len() == 0 {
        s.notes
    } else {
        s.notes + told_from(sync_model::after(s.run, events[0]), events.drop_first())
    }
}

/// The step that a run stands at from a step on, after the events have come in order.
pub open spec fn led_from(s: StepView, events: Seq<EventView>) -> StepView
    decreases events.len(),
{
    if events.len() == 0 {
        s
    } else {
        led_from(sync_model::after(s.run, events[0]), events.drop_first())
    }
}

/// The replies that bring the publications of the attachments from a place on, for each attachment that
/// belongs to one.
pub open spec fn publications_from(
    new: Seq<ItemView>,
    parents: Seq<Option<ItemView>>,
    from: int,
) -> Seq<EventView>
    decreases new.len() - from,
{
    if from >= new.len() {
        Seq::empty()
    } else if new[from].data.parent_item is Some {
        seq![EventView::Parent(parents[from])] + publications_from(new, parents, from + 1)
    } else {
        publications_from(new, parents, from + 1)
    }
}

/// Whether these can be the publications of the attachments: none for one that belongs to none, and
/// each one known or missing, in collections that do not lead back to themselves.
pub open spec fn are_publications(
    new: Seq<ItemView>,
    parents: Seq<Option<ItemView>>,
    collections: Map<Seq<char>, CollectionView>,
) -> bool {
    &&& parents.len() == new.len()
    &&& forall|i: int|
        0 <= i < new.len() ==> {
            &&& (#[trigger] new[i]).data.parent_item is None ==> parents[i] is None
            &&& parents[i] is Some ==> placement::chain_ends(parents[i]->0, collections)
        }
}

proof fn lemma_publications_from(
    new: Seq<ItemView>,
    parents: Seq<Option<ItemView>>,
    cut: int,
    from: int,
)
    requires
        0 <= cut,
        0 <= from,
        cut + from <= new.len() == parents.len(),
    ensures
        publications_from(new, parents, cut + from) == publications_from(
            new.skip(cut),
            parents.skip(cut),
            from,
        ),
    decreases new.len() - from,
{
    if cut + from < new.len() {
        assert(new.skip(cut)[from] == new[cut + from]);
        assert(parents.skip(cut)[from] == parents[cut + from]);
        lemma_publications_from(new, parents, cut, from + 1);
    }
}

proof fn lemma_no_publications(
    new: Seq<ItemView>,
    parents: Seq<Option<ItemView>>,
    from: int,
    n: int,
)
    requires
        0 <= from <= n <= new.len(),
        forall|i: int| 0 <= i < n ==> (#[trigger] new[i]).data.parent_item is None,
    ensures
        publications_from(new, parents, from) == publications_from(new, parents, n),
    decreases n - from,
{
    if from < n {
        assert(new[from].data.parent_item is None);
        lemma_no_publications(new, parents, from + 1, n);
    }
}

/// Whether a list tells, from a place on and up to its end, of each of the attachments once and in
/// order, by the name and the folders that its publication gives it.
pub open spec fn tells_of_each(
    all: Seq<NoteView>,
    at: nat,
    new: Seq<ItemView>,
    parents: Seq<Option<ItemView>>,
    collections: Map<Seq<char>, CollectionView>,
) -> bool {
    &&& all.len() == at + new.len()
    &&& forall|i: int|
        0 <= i < new.len() ==> #[trigger] all[at + i] == (NoteView::WouldUpload {
            name: placement::placement_of(new[i], parents[i], collections).name,
            folder_path: placement::placement_of(new[i], parents[i], collections).folder_path,
        })
}

proof fn lemma_tells_on(
    sync: SyncView,
    work: WorkView,
    told: Seq<NoteView>,
    n: int,
    s: StepView,
    parents: Seq<Option<ItemView>>,
    behind: Seq<NoteView>,
)
    requires
        shows_up_to(sync, work, told, n, s),
        are_publications(work.new, parents, work.collections),
        n < work.new.len(),
        tells_of_each(
            behind,
            1,
            work.new.skip(n + 1),
            parents.skip(n + 1),
            work.collections,
        ),
        behind[0] == (NoteView::WouldUpload {
            name: placement::placement_of(work.new[n], parents[n], work.collections).name,
            folder_path: placement::placement_of(
                work.new[n],
                parents[n],
                work.collections,
            ).folder_path,
        }),
    ensures
        tells_of_each(s.notes + behind, told.len(), work.new, parents, work.collections),
{
    let all = s.notes + behind;
    let left = work.new.skip(n + 1);
    let rest = parents.skip(n + 1);
    assert forall|i: int| 0 <= i < work.new.len() implies #[trigger] all[told.len() + i] == (
    NoteView::WouldUpload {
        name: placement::placement_of(work.new[i], parents[i], work.collections).name,
        folder_path: placement::placement_of(
            work.new[i],
            parents[i],
            work.collections,
        ).folder_path,
    }) by {
        if i < n {
            assert(work.new[i].data.parent_item is None);
            assert(parents[i] is None);
            assert(all[told.len() + i] == s.notes[told.len() + i]);
        } else if i == n {
            assert(all[told.len() + i] == behind[0]);
        } else {
            let k = i - n - 1;
            assert(left[k] == work.new[i]);
            assert(rest[k] == parents[i]);
            assert(all[told.len() + i] == behind[1 + k]);
        }
    }
}

/// A dry run, once it has told of the first new attachments, tells of each other one too, while their
/// publications come: once each, in the order in which they were listed, and by the name and the
/// folders that its own publication gives it. Then it goes on to the next library.
pub proof fn dry_runs_go_on_to_the_last_attachment(
    sync: SyncView,
    work: WorkView,
    told: Seq<NoteView>,
    n: int,
    s: StepView,
    parents: Seq<Option<ItemView>>,
)
    requires
        shows_up_to(sync, work, told, n, s),
        are_publications(work.new, parents, work.collections),
    ensures
        ({
            let events = publications_from(work.new, parents, n);
            let all = told_from(s, events);
            &&& tells_of_each(all, told.len(), work.new, parents, work.collections)
            &&& all.take(told.len() as int) == told
            &&& goes_to_next_library(sync, led_from(s, events))
        }),
    decreases work.new.len(),
{
    let events = publications_from(work.new, parents, n);
    let all = told_from(s, events);
    if n < work.new.len() {
        let item = work.new[n];
        let parent = parents[n];
        let left = WorkView { new: work.new.skip(n + 1), ..work };
        let rest = parents.skip(n + 1);
        let next = sync_model::after(s.run, EventView::Parent(parent));
        let place = placement::placement_of(item, parent, work.collections);
        let note = NoteView::WouldUpload { name: place.name, folder_path: place.folder_path };
        assert(parent is None || placement::chain_ends(parent->0, work.collections));
        let m = dry_runs_tell_of_each_attachment(s.run, left, item, parent);
        assert forall|i: int| 0 <= i < left.new.len() implies {
            &&& (#[trigger] left.new[i]).data.parent_item is None ==> rest[i] is None
            &&& rest[i] is Some ==> placement::chain_ends(rest[i]->0, work.collections)
        } by {
            assert(left.new[i] == work.new[n + 1 + i]);
            assert(rest[i] == parents[n + 1 + i]);
        }
        dry_runs_go_on_to_the_last_attachment(sync, left, seq![note], m, next, rest);
        let later = publications_from(left.new, rest, m);
        assert(events == seq![EventView::Parent(parent)] + later) by {
            lemma_publications_from(work.new, parents, n + 1, 0);
            lemma_no_publications(left.new, rest, 0, m);
        }
        assert(events.drop_first() =~= later);
        let behind = told_from(next, later);
        assert(behind[0] == behind.take(1)[0]);
        lemma_tells_on(sync, work, told, n, s, parents, behind);
        assert(all.take(told.len() as int) =~= told);
    } else {
        assert forall|i: int| 0 <= i < work.new.len() implies #[trigger] all[told.len() + i] == (
        NoteView::WouldUpload {
            name: placement::placement_of(work.new[i], parents[i], work.collections).name,
            folder_path: placement::placement_of(
                work.new[i],
                parents[i],
                work.collections,
            ).folder_path,
        }) by {
            assert(work.new[i].data.parent_item is None);
            assert(parents[i] is None);
        }
        assert(all.take(told.len() as int) =~= told);
    }
}

/// A dry run tells of a library, after the count, of every new attachment: once each and in the order in
/// which they were listed, and of nothing else.
pub proof fn dry_runs_tell_of_all_new_attachments(
    run: RunView,
    library: Seq<char>,
    collections: Map<Seq<char>, CollectionView>,
    lib: LibraryView,
    items: Seq<ItemView>,
    version: u64,
    parents: Seq<Option<ItemView>>,
)
    requires
        run.sync.dry_run,
        run.phase == (PhaseView::Attachments { library, collections }),
        is_known_of(run.sync.state, library, lib),
        are_publications(sync_model::new_items(items, lib.synced), parents, collections),
    ensures
        ({
            let new = sync_model::new_items(items, lib.synced);
            let s = sync_model::after(run, EventView::Attachments(Some((items, version))));
            let events = publications_from(new, parents, 0);
            let all = told_from(s, events);
            &&& all[0] is Counted
            &&& tells_of_each(all, 1, new, parents, collections)
            &&& goes_to_next_library(run.sync, led_from(s, events))
        }),
{
    let s = sync_model::after(run, EventView::Attachments(Some((items, version))));
    let (work, n) = listings_make_the_work(run, library, collections, lib, items, version);
    let told = seq![
        NoteView::Counted {
            library,
            changed: items.len(),
            new: work.new.len(),
            updated: (items.len() - work.new.len()) as nat,
        },
    ];
    lemma_no_publications(work.new, parents, 0, n);
    dry_runs_go_on_to_the_last_attachment(run.sync, work, told, n, s, parents);
    let all = told_from(s, publications_from(work.new, parents, 0));
    assert(all[0] == all.take(1)[0]);
}

/// Whether a step sends a document to the cloud: to the folder that the whole path leads to from the
/// top. Where a folder is missing on the way, that is asked for first.
pub open spec fn sends_document(
    sync: SyncView,
    work: WorkView,
    item: ItemView,
    placement: ItemPlacementView,
    bytes: Seq<u8>,
    s: StepView,
) -> bool {
    let start = WalkView { left: placement.folder_path, folder: Seq::empty() };
    let next = folders::next_on_path(sync.index->0, start);
    &&& sync.index is Some
    &&& s.run.sync == sync
    &&& s.notes.len() == 0
    &&& next is Reached ==> {
        &&& s.action == (ActionView::UploadPdf {
            name: placement.name,
            bytes,
            parent: next->Reached_0,
        })
        &&& s.run.phase == (PhaseView::Upload { work, item, name: placement.name })
    }
    &&& next is Make ==> {
        &&& s.action == (ActionView::CreateFolder {
            name: next->Make_name,
            parent: next->Make_parent,
        })
        &&& s.run.phase == (PhaseView::Folder {
            work,
            item,
            placement,
            bytes,
            walk: next->Make_walk,
        })
    }
}

/// Whether a run that waits for a folder has come so far down the path of the document that it is at.
pub open spec fn is_on_its_path(run: RunView) -> bool {
    run.phase matches PhaseView::Folder { placement, walk, .. } ==> {
        let start = WalkView { left: placement.folder_path, folder: Seq::empty() };
        let next = folders::next_on_path(run.sync.index->0, start);
        run.sync.index is Some && next is Make && next->Make_walk == walk
    }
}

proof fn lemma_sends(
    sync: SyncView,
    index: FolderIndexView,
    work: WorkView,
    item: ItemView,
    placement: ItemPlacementView,
    bytes: Seq<u8>,
    walk: WalkView,
)
    requires
        sync.index == Some(index),
        folders::descended(index, walk) == folders::descended(
            index,
            WalkView { left: placement.folder_path, folder: Seq::empty() },
        ),
    ensures
        ({
            let s = sync_model::down_path(
                sync,
                index,
                work,
                item,
                placement,
                bytes,
                walk,
                Seq::empty(),
            );
            sends_document(sync, work, item, placement, bytes, s) && is_on_its_path(s.run)
        }),
{
}

proof fn lemma_made(
    sync: SyncView,
    index: FolderIndexView,
    work: WorkView,
    item: ItemView,
    placement: ItemPlacementView,
    bytes: Seq<u8>,
    walk: WalkView,
    created: FileEntryView,
)
    requires
        sync.index == Some(index),
        is_on_its_path(
            RunView { sync, phase: PhaseView::Folder { work, item, placement, bytes, walk } },
        ),
    ensures
        walk.left.len() > 0,
        ({
            let after = folders::index_after_making(index, walk, created);
            let s = sync_model::with_folder(
                sync,
                index,
                work,
                item,
                placement,
                bytes,
                walk,
                created,
            );
            sends_document(
                SyncView { index: Some(after), ..sync },
                work,
                item,
                placement,
                bytes,
                s,
            ) && is_on_its_path(s.run)
        }),
{
    let start = WalkView { left: placement.folder_path, folder: Seq::empty() };
    let after = folders::index_after_making(index, walk, created);
    folders::lemma_descended_stops(index, start);
    assert(folders::descended(index, start) == walk);
    assert(folders::has_folders_of(after, index));
    folders::lemma_further(index, after, start);
    folders::made_folders_are_found(index, walk, created);
    lemma_sends(
        SyncView { index: Some(after), ..sync },
        after,
        work,
        item,
        placement,
        bytes,
        folders::walk_after_making(walk, created),
    );
}

/// Where the file of an attachment has come, and each time that the run learns more of the cloud, the
/// document goes to the folder that its whole path leads to, under the name of its placement and with
/// the bytes that came. Until the cloud is known, what is to be sent is kept as it is, and nothing is
/// sent in any other place of a run.
pub proof fn documents_go_where_their_path_leads(run: RunView, event: EventView)
    requires
        sync_order::is_ready(run),
        is_on_its_path(run),
    ensures
        ({
            let s = sync_model::after(run, event);
            &&& is_on_its_path(s.run)
            &&& match (run.phase, event) {
                (
                    PhaseView::Download { work, item, placement },
                    EventView::Pdf(PdfReplyView::Stored(bytes)),
                ) => {
                    let goal = GoalView::Upload { item, placement, bytes };
                    &&& !run.sync.connected ==> {
                        &&& s.action is Connect
                        &&& s.notes.len() == 0
                        &&& s.run.sync == run.sync
                        &&& s.run.phase == (PhaseView::Connecting { work, goal })
                    }
                    &&& run.sync.connected && run.sync.index is None ==> {
                        &&& s.action is ListFiles
                        &&& s.notes.len() == 0
                        &&& s.run.sync == run.sync
                        &&& s.run.phase == (PhaseView::Listing { work, goal })
                    }
                    &&& run.sync.connected && run.sync.index is Some ==> sends_document(
                        run.sync,
                        work,
                        item,
                        placement,
                        bytes,
                        s,
                    )
                },
                (
                    PhaseView::Connecting {
                        work,
                        goal: GoalView::Upload { item, placement, bytes },
                    },
                    EventView::Connected(true),
                ) => {
                    let sync = SyncView { connected: true, ..run.sync };
                    let goal = GoalView::Upload { item, placement, bytes };
                    &&& run.sync.index is None ==> {
                        &&& s.action is ListFiles
                        &&& s.notes.len() == 0
                        &&& s.run.sync == sync
                        &&& s.run.phase == (PhaseView::Listing { work, goal })
                    }
                    &&& run.sync.index is Some ==> sends_document(
                        sync,
                        work,
                        item,
                        placement,
                        bytes,
                        s,
                    )
                },
                (
                    PhaseView::Listing { work, goal: GoalView::Upload { item, placement, bytes } },
                    EventView::Files(Some(files)),
                ) => sends_document(
                    SyncView { index: Some(folders::index_of(files)), ..run.sync },
                    work,
                    item,
                    placement,
                    bytes,
                    s,
                ),
                (
                    PhaseView::Folder { work, item, placement, bytes, walk },
                    EventView::FolderCreated(Some(created)),
                ) => sends_document(
                    SyncView {
                        index: Some(
                            folders::index_after_making(run.sync.index->0, walk, created),
                        ),
                        ..run.sync
                    },
                    work,
                    item,
                    placement,
                    bytes,
                    s,
                ),
                _ => !(s.action is UploadPdf) && !(s.action is CreateFolder),
            }
        }),
{
    let s = sync_model::after(run, event);
    let sync = run.sync;
    let index = sync.index->0;
    match (run.phase, event) {
        (
            PhaseView::Download { work, item, placement },
            EventView::Pdf(PdfReplyView::Stored(bytes)),
        ) => {
            if sync.connected && sync.index is Some {
                let start = WalkView { left: placement.folder_path, folder: Seq::empty() };
                lemma_sends(sync, index, work, item, placement, bytes, start);
            }
        },
        (
            PhaseView::Connecting { work, goal: GoalView::Upload { item, placement, bytes } },
            EventView::Connected(true),
        ) => {
            if sync.index is Some {
                let start = WalkView { left: placement.folder_path, folder: Seq::empty() };
                let now = SyncView { connected: true, ..sync };
                lemma_sends(now, index, work, item, placement, bytes, start);
            }
        },
        (
            PhaseView::Listing { work, goal: GoalView::Upload { item, placement, bytes } },
            EventView::Files(Some(files)),
        ) => {
            let listed = folders::index_of(files);
            let start = WalkView { left: placement.folder_path, folder: Seq::empty() };
            let now = SyncView { index: Some(listed), ..sync };
            lemma_sends(now, listed, work, item, placement, bytes, start);
        },
        (
            PhaseView::Folder { work, item, placement, bytes, walk },
            EventView::FolderCreated(Some(created)),
        ) => {
            lemma_made(sync, index, work, item, placement, bytes, walk, created);
        },
        (
            PhaseView::Attachments { library, collections },
            EventView::Attachments(Some(listing)),
        ) => {
            let lib = state::library_in(sync.state, library);
            let r = listings_make_the_work(run, library, collections, lib, listing.0, listing.1);
        },
        (PhaseView::Preview { work, item }, EventView::Parent(parent)) => {
            let n = dry_runs_tell_of_each_attachment(run, work, item, parent);
        },
        _ => {
            changed_documents_are_taken_up_in_order(run, event);
        },
    }
}

/// At every point of a run, whatever it is told, it is on the path of the document that it is at.
pub proof fn runs_stay_on_their_path(
    libraries: Seq<Seq<char>>,
    start: StateView,
    dry_run: bool,
    events: Seq<EventView>,
)
    ensures
        is_on_its_path(
            sync_laws::course(sync_model::first_step(libraries, start, dry_run), events).run,
        ),
    decreases events.len(),
{
    if events.len() > 0 {
        let before = events.drop_last();
        runs_stay_on_their_path(libraries, start, dry_run, before);
        sync_laws::every_point_of_a_run_is_in_order(libraries, start, dry_run, before);
        let first = sync_model::first_step(libraries, start, dry_run);
        documents_go_where_their_path_leads(sync_laws::course(first, before).run, events.last());
    }
}

/// A run begins with nothing known of the cloud and no failure, at the first library of all.
pub proof fn runs_begin_at_the_first_library(
    libraries: Seq<Seq<char>>,
    state: StateView,
    dry_run: bool,
)
    ensures
        ({
            let s = sync_model::first_step(libraries, state, dry_run);
            &&& s.notes.len() == 0
            &&& goes_to_next_library(
                SyncView {
                    dry_run,
                    libraries,
                    state,
                    connected: false,
                    index: None,
                    failures: 0,
                },
                s,
            )
        }),
{
    lemma_next_library(
        SyncView { dry_run, libraries, state, connected: false, index: None, failures: 0 },
        Seq::empty(),
    );
}

/// Once the collections of a library have come, its attachments are asked for: those that changed after
/// the version that the state has for it, or all where it has none. A collection is known by its key,
/// as the last one with that key was listed.
pub proof fn attachments_are_asked_for_since_the_last_version(
    run: RunView,
    library: Seq<char>,
    list: Seq<CollectionView>,
)
    requires
        run.phase == (PhaseView::Collections { library }),
    ensures
        ({
            let s = sync_model::after(run, EventView::Collections(Some(list)));
            let since = if run.sync.state.libraries.contains_key(library) {
                run.sync.state.libraries[library].last_library_version
            } else {
                0
            };
            let known = s.run.phase->Attachments_collections;
            &&& s.run.sync == run.sync
            &&& s.action == (ActionView::ListAttachments { library, since })
            &&& s.notes == seq![NoteView::Fetching { library, since }]
            &&& s.run.phase is Attachments
            &&& s.run.phase->Attachments_library == library
            &&& forall|key: Seq<char>| #[trigger]
                known.contains_key(key) <==> exists|i: int|
                    0 <= i < list.len() && (#[trigger] list[i]).key == key
            &&& forall|i: int|
                #![trigger list[i]]
                0 <= i < list.len() && (forall|j: int|
                    i < j < list.len() ==> (#[trigger] list[j]).key != list[i].key)
                    ==> known[list[i].key] == list[i]
        }),
{
    lemma_by_key(list);
}

proof fn lemma_by_key(list: Seq<CollectionView>)
    ensures
        forall|key: Seq<char>| #[trigger]
            sync_model::by_key(list).contains_key(key) <==> exists|i: int|
                0 <= i < list.len() && (#[trigger] list[i]).key == key,
        forall|i: int|
            #![trigger list[i]]
            0 <= i < list.len() && (forall|j: int|
                i < j < list.len() ==> (#[trigger] list[j]).key != list[i].key)
                ==> sync_model::by_key(list)[list[i].key] == list[i],
    decreases list.len(),
{
    if list.len() > 0 {
        let before = list.drop_last();
        let known = sync_model::by_key(list);
        lemma_by_key(before);
        assert forall|key: Seq<char>| #[trigger] known.contains_key(key) <==> exists|i: int|
            0 <= i < list.len() && (#[trigger] list[i]).key == key by {
            assert(known.contains_key(key) <==> sync_model::by_key(before).contains_key(key)
                || list.last().key == key);
            if sync_model::by_key(before).contains_key(key) {
                let i = choose|i: int| 0 <= i < before.len() && (#[trigger] before[i]).key == key;
                assert(list[i].key == key);
            }
            if list.last().key == key {
                assert(list[list.len() - 1].key == key);
            }
            if exists|i: int| 0 <= i < list.len() && (#[trigger] list[i]).key == key {
                let i = choose|i: int| 0 <= i < list.len() && (#[trigger] list[i]).key == key;
                if i < before.len() {
                    assert(before[i].key == key);
                }
            }
        }
        assert forall|i: int|
            #![trigger list[i]]
            0 <= i < list.len() && (forall|j: int|
                i < j < list.len() ==> (#[trigger] list[j]).key != list[i].key) implies known[
        list[i].key] == list[i] by {
            if i < before.len() {
                assert(list[list.len() - 1].key != list[i].key);
                assert(before[i] == list[i]);
                assert forall|j: int| i < j < before.len() implies (#[trigger] before[j]).key
                    != before[i].key by {
                    assert(list[j].key != list[i].key);
                }
            }
        }
    }
}

/// Once the publication of an attachment is known, or is known to be missing, the attachment gets its
/// place and its file is asked for. The run gives up only where the collections round the publication
/// lead back to themselves.
pub proof fn files_are_asked_for_once_placed(
    run: RunView,
    work: WorkView,
    item: ItemView,
    parent: Option<ItemView>,
)
    requires
        run.phase == (PhaseView::Parent { work, item }),
    ensures
        ({
            let s = sync_model::after(run, EventView::Parent(parent));
            let placed = parent is None || placement::chain_ends(parent->0, work.collections);
            &&& s.run.sync == run.sync
            &&& s.notes.len() == 0
            &&& placed ==> {
                &&& s.action == (ActionView::DownloadPdf { library: work.library, key: item.key })
                &&& s.run.phase == (PhaseView::Download {
                    work,
                    item,
                    placement: placement::placement_of(item, parent, work.collections),
                })
            }
            &&& !placed ==> {
                &&& s.action == ActionView::Finish(Outcome::Aborted(Trouble::CircularCollections))
                &&& s.run.phase is Over
            }
        }),
{
}

/// An attachment without a file is told of as skipped and is no failure; one whose download or upload
/// failed is told of and counted, once. Either way the next new attachment is taken up.
pub proof fn attachments_that_fail_are_passed_over(run: RunView, event: EventView)
    requires
        sync_order::is_ready(run),
    ensures
        ({
            let s = sync_model::after(run, event);
            match (run.phase, event) {
                (
                    PhaseView::Download { work, placement, .. },
                    EventView::Pdf(PdfReplyView::Missing),
                ) => takes_up_attachments(
                    run.sync,
                    work,
                    seq![NoteView::Skipped { name: placement.name }],
                    s,
                ),
                (
                    PhaseView::Download { work, placement, .. },
                    EventView::Pdf(PdfReplyView::Failed),
                ) => takes_up_attachments(
                    run.sync,
                    failed_once_more(work),
                    seq![NoteView::UploadFailed { name: placement.name }],
                    s,
                ),
                (PhaseView::Upload { work, name, .. }, EventView::Uploaded(None)) => {
                    takes_up_attachments(
                        run.sync,
                        failed_once_more(work),
                        seq![NoteView::UploadFailed { name }],
                        s,
                    )
                },
                (PhaseView::ItemSaved { work }, EventView::Saved(true)) => takes_up_attachments(
                    run.sync,
                    work,
                    Seq::empty(),
                    s,
                ),
                (PhaseView::LibrarySaved, EventView::Saved(true)) => {
                    goes_to_next_library(run.sync, s) && s.notes.len() == 0
                },
                _ => true,
            }
        }),
{
    match (run.phase, event) {
        (PhaseView::Download { work, placement, .. }, EventView::Pdf(reply)) => {
            lemma_attachments(run.sync, work, seq![NoteView::Skipped { name: placement.name }]);
            lemma_attachments(
                run.sync,
                failed_once_more(work),
                seq![NoteView::UploadFailed { name: placement.name }],
            );
        },
        (PhaseView::Upload { work, name, .. }, EventView::Uploaded(None)) => {
            lemma_attachments(
                run.sync,
                failed_once_more(work),
                seq![NoteView::UploadFailed { name }],
            );
        },
        (PhaseView::ItemSaved { work }, EventView::Saved(true)) => {
            lemma_attachments(run.sync, work, Seq::empty());
        },
        (PhaseView::LibrarySaved, EventView::Saved(true)) => {
            lemma_next_library(run.sync, Seq::empty());
        },
        _ => {},
    }
}

/// An upload to the cloud writes down, before anything else is done, the version of the attachment and
/// the identity and hash that the document has in the cloud. The document comes behind those that are
/// known already, or stays in its place where it is one of them. Nothing else of the state changes, and
/// the cloud's other documents stay known.
pub proof fn uploads_change_one_record(
    run: RunView,
    work: WorkView,
    item: ItemView,
    name: Seq<char>,
    file: FileEntryView,
)
    requires
        sync_order::is_ready(run),
        run.phase == (PhaseView::Upload { work, item, name }),
    ensures
        ({
            let s = sync_model::after(run, EventView::Uploaded(Some(file)));
            let index = run.sync.index->0;
            let lib = s.run.phase->ItemSaved_work.lib;
            let doc = DocView { doc_id: file.id, last_hash: file.hash };
            &&& s.action is Save
            &&& s.notes == seq![NoteView::Uploaded { name }]
            &&& s.run.phase is ItemSaved
            &&& s.run.phase->ItemSaved_work == (WorkView { lib, ..work })
            &&& lib.last_library_version == work.lib.last_library_version
            &&& lib.synced == work.lib.synced.insert(item.key, item.version)
            &&& lib.docs == work.lib.docs.insert(item.key, doc)
            &&& work.lib.doc_order.contains(item.key) ==> lib.doc_order == work.lib.doc_order
            &&& !work.lib.doc_order.contains(item.key) ==> lib.doc_order
                == work.lib.doc_order.push(item.key)
            &&& s.run.sync.state.libraries == run.sync.state.libraries.insert(work.library, lib)
            &&& s.run.sync.state.last_library_version == run.sync.state.last_library_version
            &&& s.run.sync.state.synced == run.sync.state.synced
            &&& s.run.sync.dry_run == run.sync.dry_run
            &&& s.run.sync.libraries == run.sync.libraries
            &&& s.run.sync.connected == run.sync.connected
            &&& s.run.sync.failures == run.sync.failures
            &&& s.run.sync.index is Some
            &&& s.run.sync.index->0.folders == index.folders
            &&& file.id.len() > 0 ==> s.run.sync.index->0.docs == index.docs.insert(file.id, file)
            &&& file.id.len() == 0 ==> s.run.sync.index->0.docs == index.docs
        }),
{
}

/// A marked-up copy that has been written back has its hash written down before anything else is done,
/// so that it counts as seen. Nothing else of the state changes.
pub proof fn written_back_copies_change_one_hash(
    run: RunView,
    work: WorkView,
    key: Seq<char>,
    remote: FileEntryView,
)
    requires
        sync_order::is_ready(run),
        run.phase == (PhaseView::WritingBack { work, key, remote }),
    ensures
        ({
            let s = sync_model::after(run, EventView::WrittenBack(true));
            let lib = s.run.phase->DocSaved_work.lib;
            &&& s.action is Save
            &&& s.notes == seq![NoteView::WrittenBack { file_name: remote.file_name }]
            &&& s.run.phase is DocSaved
            &&& s.run.phase->DocSaved_work == (WorkView { lib, ..work })
            &&& lib.last_library_version == work.lib.last_library_version
            &&& lib.synced == work.lib.synced
            &&& !work.lib.docs.contains_key(key) ==> lib == work.lib
            &&& work.lib.docs.contains_key(key) ==> {
                &&& lib.docs == work.lib.docs.insert(
                    key,
                    DocView { doc_id: work.lib.docs[key].doc_id, last_hash: remote.hash },
                )
                &&& work.lib.doc_order.contains(key) ==> lib.doc_order == work.lib.doc_order
                &&& !work.lib.doc_order.contains(key) ==> lib.doc_order
                    == work.lib.doc_order.push(key)
            }
            &&& s.run.sync == (SyncView { state: s.run.sync.state, ..run.sync })
            &&& s.run.sync.state.libraries == run.sync.state.libraries.insert(work.library, lib)
            &&& s.run.sync.state.last_library_version == run.sync.state.last_library_version
            &&& s.run.sync.state.synced == run.sync.state.synced
        }),
{
}

/// What a reply that a run cannot go on with is called.
pub open spec fn trouble_of(phase: PhaseView, event: EventView) -> Trouble {
    match (phase, event) {
        (PhaseView::Collections { .. }, EventView::Collections(None)) => Trouble::Collections,
        (PhaseView::Attachments { .. }, EventView::Attachments(None)) => Trouble::Attachments,
        (PhaseView::Connecting { .. }, EventView::Connected(false)) => Trouble::Connection,
        (PhaseView::Listing { .. }, EventView::Files(None)) => Trouble::Listing,
        (PhaseView::Folder { .. }, EventView::FolderCreated(None)) => Trouble::Folder,
        (PhaseView::DocSaved { .. }, EventView::Saved(false)) => Trouble::Save,
        (PhaseView::ItemSaved { .. }, EventView::Saved(false)) => Trouble::Save,
        (PhaseView::LibrarySaved, EventView::Saved(false)) => Trouble::Save,
        _ => Trouble::OutOfTurn,
    }
}

/// Whether a reply is to the request that a phase made, and says that it failed.
pub open spec fn is_fatal(phase: PhaseView, event: EventView) -> bool {
    match (phase, event) {
        (PhaseView::Collections { .. }, EventView::Collections(None)) => true,
        (PhaseView::Attachments { .. }, EventView::Attachments(None)) => true,
        (PhaseView::Connecting { .. }, EventView::Connected(false)) => true,
        (PhaseView::Listing { .. }, EventView::Files(None)) => true,
        (PhaseView::Folder { .. }, EventView::FolderCreated(None)) => true,
        (PhaseView::DocSaved { .. }, EventView::Saved(false)) => true,
        (PhaseView::ItemSaved { .. }, EventView::Saved(false)) => true,
        (PhaseView::LibrarySaved, EventView::Saved(false)) => true,
        _ => false,
    }
}

/// A run gives up with all that it knows kept and nothing told. It does so on each reply that says that
/// what the run cannot do without has failed, and says what that was.
pub proof fn runs_give_up_on_what_they_need(run: RunView, event: EventView)
    requires
        sync_order::is_ready(run),
    ensures
        ({
            let s = sync_model::after(run, event);
            is_fatal(run.phase, event) ==> {
                &&& s.run.sync == run.sync
                &&& s.run.phase is Over
                &&& s.notes.len() == 0
                &&& s.action == ActionView::Finish(
                    Outcome::Aborted(trouble_of(run.phase, event)),
                )
            }
        }),
{
}

/// A reply to a request that was not made ends the run, with all that it knows kept and nothing told.
pub proof fn replies_out_of_turn_end_a_run(run: RunView, action: ActionView, event: EventView)
    requires
        sync_order::is_ready(run),
        sync_order::asks_for(run.phase, action),
        !sync_order::tells_of(event, action),
    ensures
        ({
            let s = sync_model::after(run, event);
            &&& s.run.sync == run.sync
            &&& s.run.phase is Over
            &&& s.notes.len() == 0
            &&& s.action == ActionView::Finish(Outcome::Aborted(Trouble::OutOfTurn))
        }),
{
}

} // verus!
