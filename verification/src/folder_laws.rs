//! Where the way down a path of folders leads, and what a listing leaves behind.
use vstd::prelude::*;

use crate::folders;
use crate::folders::{FolderIndexView, WalkView};
use crate::remarkable::FileEntryView;
use crate::text;

verus! {

/// Whether each folder of a path is there in the one before it: `ids` holds the folder where the path
/// begins and then the folders of the path, in order.
pub open spec fn leads_through(
    index: FolderIndexView,
    path: Seq<Seq<char>>,
    ids: Seq<Seq<char>>,
) -> bool {
    &&& ids.len() == path.len() + 1
    &&& forall|i: int|
        0 <= i < path.len() ==> index.folders.contains_key((ids[i], #[trigger] path[i]))
            && index.folders[(ids[i], path[i])] == ids[i + 1]
}

proof fn lemma_leads_on(index: FolderIndexView, path: Seq<Seq<char>>, ids: Seq<Seq<char>>)
    requires
        leads_through(index, path, ids),
        path.len() > 0,
    ensures
        index.folders.contains_key((ids[0], path[0])),
        index.folders[(ids[0], path[0])] == ids[1],
        leads_through(index, path.drop_first(), ids.drop_first()),
{
    let rest = path.drop_first();
    let below = ids.drop_first();
    assert(path[0] == path[0]);
    assert forall|i: int| 0 <= i < rest.len() implies index.folders.contains_key(
        (below[i], #[trigger] rest[i]),
    ) && index.folders[(below[i], rest[i])] == below[i + 1] by {
        assert(rest[i] == path[i + 1]);
    }
}

/// A path whose folders are all there leads to the last of them: that is where something new goes, or
/// to the top where it has no identity. No folder is made.
pub proof fn known_paths_lead_to_their_last_folder(
    index: FolderIndexView,
    path: Seq<Seq<char>>,
    ids: Seq<Seq<char>>,
)
    requires
        leads_through(index, path, ids),
    ensures
        ({
            let reached = folders::next_on_path(index, WalkView { left: path, folder: ids[0] });
            &&& reached is Reached
            &&& ids.last().len() == 0 ==> reached->Reached_0 is None
            &&& ids.last().len() > 0 ==> reached->Reached_0 == Some(ids.last())
        }),
    decreases path.len(),
{
    if path.len() > 0 {
        lemma_leads_on(index, path, ids);
        known_paths_lead_to_their_last_folder(index, path.drop_first(), ids.drop_first());
    }
}

/// The first folder of a path that is missing is the one to be made: under the folder before it, or at
/// the top where that has no identity.
pub proof fn the_first_missing_folder_is_made(
    index: FolderIndexView,
    path: Seq<Seq<char>>,
    ids: Seq<Seq<char>>,
    n: int,
)
    requires
        0 <= n < path.len(),
        leads_through(index, path.take(n), ids),
        !index.folders.contains_key((ids[n], path[n])),
    ensures
        ({
            let next = folders::next_on_path(index, WalkView { left: path, folder: ids[0] });
            &&& next is Make
            &&& next->Make_name == path[n]
            &&& ids[n].len() == 0 ==> next->Make_parent is None
            &&& ids[n].len() > 0 ==> next->Make_parent == Some(ids[n])
            &&& next->Make_walk.left == path.skip(n)
            &&& next->Make_walk.folder == ids[n]
        }),
    decreases n,
{
    if n > 0 {
        lemma_leads_on(index, path.take(n), ids);
        assert(path.take(n)[0] == path[0]);
        assert(path.take(n).drop_first() =~= path.drop_first().take(n - 1));
        the_first_missing_folder_is_made(index, path.drop_first(), ids.drop_first(), n - 1);
        assert(path.drop_first().skip(n - 1) =~= path.skip(n));
    } else {
        assert(path.skip(0) =~= path);
    }
}

/// Each way down a path is one of these two: it leads through all its folders, or through those before
/// the first that is missing.
pub proof fn paths_lead_to_the_end_or_to_a_gap(
    index: FolderIndexView,
    path: Seq<Seq<char>>,
    top: Seq<char>,
) -> (ids: Seq<Seq<char>>)
    ensures
        ids.len() > 0,
        ids[0] == top,
        ids.len() <= path.len() + 1,
        leads_through(index, path.take(ids.len() - 1), ids),
        ids.len() <= path.len() ==> !index.folders.contains_key(
            (ids.last(), path[ids.len() - 1]),
        ),
    decreases path.len(),
{
    if path.len() == 0 || !index.folders.contains_key((top, path[0])) {
        seq![top]
    } else {
        let next = index.folders[(top, path[0])];
        let below = paths_lead_to_the_end_or_to_a_gap(index, path.drop_first(), next);
        let ids = seq![top] + below;
        let part = path.take(ids.len() - 1);
        assert forall|i: int| 0 <= i < part.len() implies index.folders.contains_key(
            (ids[i], #[trigger] part[i]),
        ) && index.folders[(ids[i], part[i])] == ids[i + 1] by {
            if i > 0 {
                let rest = path.drop_first().take(below.len() - 1);
                assert(rest[i - 1] == part[i]);
                assert(ids[i] == below[i - 1]);
                assert(ids[i + 1] == below[i]);
            } else {
                assert(ids[1] == below[0]);
            }
        }
        ids
    }
}

/// A folder that has been made is known from then on under the folder and the name it was made for, and
/// as a document under its own identity where it has one. Nothing else is changed.
pub proof fn made_folders_are_known(
    index: FolderIndexView,
    walk: WalkView,
    created: FileEntryView,
)
    requires
        walk.left.len() > 0,
    ensures
        ({
            let after = folders::index_after_making(index, walk, created);
            &&& after.folders == index.folders.insert((walk.folder, walk.left[0]), created.id)
            &&& created.id.len() == 0 ==> after.docs == index.docs
            &&& created.id.len() > 0 ==> after.docs == index.docs.insert(created.id, created)
            &&& folders::walk_after_making(walk, created).left == walk.left.skip(1)
            &&& folders::walk_after_making(walk, created).folder == created.id
        }),
{
}

/// A folder or a document that is taken in is known from then on, and nothing else is changed. Where
/// only documents with an identity are wanted, one without is passed over.
pub proof fn what_is_taken_in_is_known(
    index: FolderIndexView,
    parent: Seq<char>,
    name: Seq<char>,
    id: Seq<char>,
    file: FileEntryView,
)
    ensures
        folders::with_folder(index, parent, name, id).folders == index.folders.insert(
            (parent, name),
            id,
        ),
        folders::with_folder(index, parent, name, id).docs == index.docs,
        folders::with_doc(index, file).docs == index.docs.insert(file.id, file),
        folders::with_doc(index, file).folders == index.folders,
        file.id.len() > 0 ==> folders::with_known(index, file) == folders::with_doc(index, file),
        file.id.len() == 0 ==> folders::with_known(index, file) == index,
        folders::empty_index().folders.dom() == Set::<(Seq<char>, Seq<char>)>::empty(),
        folders::empty_index().docs.dom() == Set::<Seq<char>>::empty(),
{
}

/// Whether the entry at a place of a listing is that of a folder under a parent and a name.
pub open spec fn lists_folder(
    files: Seq<FileEntryView>,
    i: int,
    parent: Seq<char>,
    name: Seq<char>,
) -> bool {
    &&& 0 <= i < files.len()
    &&& text::lower_text(files[i].entry_type) == "collectiontype"@ || text::lower_text(
        files[i].entry_type,
    ) == "folder"@
    &&& files[i].parent == parent
    &&& files[i].file_name == name
}

/// Whether the entry at a place of a listing is that of a document of an identity.
pub open spec fn lists_doc(files: Seq<FileEntryView>, i: int, id: Seq<char>) -> bool {
    &&& 0 <= i < files.len()
    &&& text::lower_text(files[i].entry_type) != "collectiontype"@
    &&& text::lower_text(files[i].entry_type) != "folder"@
    &&& files[i].id == id
}

/// A folder is known by its parent and its name exactly where the listing has it, and by the identity
/// that it has in the last entry for it.
pub proof fn listed_folders_are_known(
    files: Seq<FileEntryView>,
    parent: Seq<char>,
    name: Seq<char>,
)
    ensures
        folders::index_of(files).folders.contains_key((parent, name)) <==> exists|i: int|
            lists_folder(files, i, parent, name),
        forall|i: int|
            #![trigger lists_folder(files, i, parent, name)]
            lists_folder(files, i, parent, name) && (forall|j: int|
                i < j ==> !lists_folder(files, j, parent, name)) ==> folders::index_of(
                files,
            ).folders[(parent, name)] == files[i].id,
    decreases files.len(),
{
    if files.len() == 0 {
        assert forall|i: int| !lists_folder(files, i, parent, name) by {}
    } else {
        let before = files.drop_last();
        let last = files.len() - 1;
        listed_folders_are_known(before, parent, name);
        assert forall|i: int| i < last implies lists_folder(files, i, parent, name)
            == lists_folder(before, i, parent, name) by {
            if 0 <= i {
                assert(before[i] == files[i]);
            }
        }
        if lists_folder(files, last, parent, name) {
            assert forall|i: int|
                lists_folder(files, i, parent, name) && (forall|j: int|
                    i < j ==> !lists_folder(files, j, parent, name)) implies folders::index_of(
                files,
            ).folders[(parent, name)] == files[i].id by {
                if i < last {
                    assert(!lists_folder(files, last, parent, name));
                }
            }
        } else {
            assert(folders::index_of(files).folders.contains_key((parent, name))
                == folders::index_of(before).folders.contains_key((parent, name)));
            if exists|i: int| lists_folder(files, i, parent, name) {
                let i = choose|i: int| lists_folder(files, i, parent, name);
                assert(lists_folder(before, i, parent, name));
            }
            if exists|i: int| lists_folder(before, i, parent, name) {
                let i = choose|i: int| lists_folder(before, i, parent, name);
                assert(lists_folder(files, i, parent, name));
            }
            assert forall|i: int|
                lists_folder(files, i, parent, name) && (forall|j: int|
                    i < j ==> !lists_folder(files, j, parent, name)) implies folders::index_of(
                files,
            ).folders[(parent, name)] == files[i].id by {
                assert(lists_folder(before, i, parent, name));
                assert forall|j: int| i < j implies !lists_folder(before, j, parent, name) by {
                    assert(!lists_folder(files, j, parent, name));
                }
            }
        }
    }
}

/// A document is known by its identity exactly where the listing has it, and as the last entry for it
/// has it.
pub proof fn listed_documents_are_known(files: Seq<FileEntryView>, id: Seq<char>)
    ensures
        folders::index_of(files).docs.contains_key(id) <==> exists|i: int| lists_doc(files, i, id),
        forall|i: int|
            #![trigger lists_doc(files, i, id)]
            lists_doc(files, i, id) && (forall|j: int| i < j ==> !lists_doc(files, j, id))
                ==> folders::index_of(files).docs[id] == files[i],
    decreases files.len(),
{
    if files.len() == 0 {
        assert forall|i: int| !lists_doc(files, i, id) by {}
    } else {
        let before = files.drop_last();
        let last = files.len() - 1;
        listed_documents_are_known(before, id);
        assert forall|i: int| i < last implies lists_doc(files, i, id) == lists_doc(before, i, id) by {
            if 0 <= i {
                assert(before[i] == files[i]);
            }
        }
        if lists_doc(files, last, id) {
            assert forall|i: int|
                lists_doc(files, i, id) && (forall|j: int|
                    i < j ==> !lists_doc(files, j, id)) implies folders::index_of(files).docs[id]
                == files[i] by {
                if i < last {
                    assert(!lists_doc(files, last, id));
                }
            }
        } else {
            assert(folders::index_of(files).docs.contains_key(id) == folders::index_of(
                before,
            ).docs.contains_key(id));
            if exists|i: int| lists_doc(files, i, id) {
                let i = choose|i: int| lists_doc(files, i, id);
                assert(lists_doc(before, i, id));
            }
            if exists|i: int| lists_doc(before, i, id) {
                let i = choose|i: int| lists_doc(before, i, id);
                assert(lists_doc(files, i, id));
            }
            assert forall|i: int|
                lists_doc(files, i, id) && (forall|j: int|
                    i < j ==> !lists_doc(files, j, id)) implies folders::index_of(files).docs[id]
                == files[i] by {
                assert(lists_doc(before, i, id));
                assert forall|j: int| i < j implies !lists_doc(before, j, id) by {
                    assert(!lists_doc(files, j, id));
                }
            }
        }
    }
}

/// A marked-up copy keeps its name, without the whitespace round it. The ending of a PDF file is added
/// where the name does not end in it, whatever the case of its letters, and only there.
pub proof fn copies_keep_their_names(file_name: Seq<char>)
    ensures
        ({
            let name = text::trimmed(file_name);
            let low = text::lower_text(name);
            let is_pdf = low.len() >= 4 && low.skip(low.len() - 4) == ".pdf"@;
            &&& is_pdf ==> folders::copy_name(file_name) == name
            &&& !is_pdf ==> folders::copy_name(file_name) == name + ".pdf"@
        }),
{
    reveal_strlit(".pdf");
    let low = text::lower_text(text::trimmed(file_name));
    if low.len() >= 4 {
        assert(low.skip(low.len() - 4) =~= low.subrange(low.len() - 4, low.len() as int));
    }
}

} // verus!
