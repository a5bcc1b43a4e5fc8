//! The folders and documents on the tablet, and the way down a path of folders.
use vstd::prelude::*;

use crate::keymap::KeyMap;
use crate::remarkable::{FileEntry, FileEntryView};
use crate::text;

verus! {

/// A folder under its parent and its name. The top has no identity: its parent is the empty text.
struct FolderRecord {
    parent: String,
    name: String,
    id: String,
}

/// The folders by parent and name, and the documents by identity.
pub struct FolderIndex {
    by_parent_and_name: Vec<FolderRecord>,
    docs_by_id: KeyMap<FileEntry>,
}

/// What a [`FolderIndex`] holds.
#[verifier::ext_equal]
pub struct FolderIndexView {
    pub folders: Map<(Seq<char>, Seq<char>), Seq<char>>,
    pub docs: Map<Seq<char>, FileEntryView>,
}

/// The folders that the records leave behind when each is put in after those before it.
spec fn folders_in(records: Seq<FolderRecord>) -> Map<(Seq<char>, Seq<char>), Seq<char>>
    decreases records.len(),
{
    if records.len() == 0 {
        Map::empty()
    } else {
        folders_in(records.drop_last()).insert(
            (records.last().parent@, records.last().name@),
            records.last().id@,
        )
    }
}

impl DeepView for FolderIndex {
    type V = FolderIndexView;

    closed spec fn deep_view(&self) -> FolderIndexView {
        FolderIndexView {
            folders: folders_in(self.by_parent_and_name@),
            docs: self.docs_by_id.deep_view(),
        }
    }
}

/// Whether an entry is a folder.
pub open spec fn is_folder_entry(file: FileEntryView) -> bool {
    text::lower_text(file.entry_type) == "collectiontype"@ || text::lower_text(file.entry_type)
        == "folder"@
}

/// The index of no files.
pub open spec fn empty_index() -> FolderIndexView {
    FolderIndexView { folders: Map::empty(), docs: Map::empty() }
}

/// The index with a folder more.
pub open spec fn with_folder(
    index: FolderIndexView,
    parent: Seq<char>,
    name: Seq<char>,
    id: Seq<char>,
) -> FolderIndexView {
    FolderIndexView { folders: index.folders.insert((parent, name), id), ..index }
}

/// The index with a document more.
pub open spec fn with_doc(index: FolderIndexView, file: FileEntryView) -> FolderIndexView {
    FolderIndexView { docs: index.docs.insert(file.id, file), ..index }
}

/// The index with a document more, unless that has no identity.
pub open spec fn with_known(index: FolderIndexView, file: FileEntryView) -> FolderIndexView {
    if file.id.len() > 0 {
        with_doc(index, file)
    } else {
        index
    }
}

/// The index of a listing: each entry counts as a folder or as a document, and one that comes later
/// replaces one before it in the same place.
pub open spec fn index_of(files: Seq<FileEntryView>) -> FolderIndexView
    decreases files.len(),
{
    if files.len() == 0 {
        empty_index()
    } else {
        let before = index_of(files.drop_last());
        let file = files.last();
        if is_folder_entry(file) {
            with_folder(before, file.parent, file.file_name, file.id)
        } else {
            with_doc(before, file)
        }
    }
}

/// How far down a path of folders one has come: the part of the path that is left, and the folder
/// that has been reached.
#[verifier::ext_equal]
pub struct WalkView {
    pub left: Seq<Seq<char>>,
    pub folder: Seq<char>,
}

/// How far one comes down the path without making a folder.
pub open spec fn descended(index: FolderIndexView, walk: WalkView) -> WalkView
    decreases walk.left.len(),
{
    if walk.left.len() > 0 && index.folders.contains_key((walk.folder, walk.left[0])) {
        descended(
            index,
            WalkView {
                left: walk.left.drop_first(),
                folder: index.folders[(walk.folder, walk.left[0])],
            },
        )
    } else {
        walk
    }
}

/// The folder as the place of something new: none for the top.
pub open spec fn place_in(folder: Seq<char>) -> Option<Seq<char>> {
    if folder.len() > 0 {
        Some(folder)
    } else {
        None
    }
}

/// The index after a missing folder has been made.
pub open spec fn index_after_making(
    index: FolderIndexView,
    walk: WalkView,
    created: FileEntryView,
) -> FolderIndexView {
    with_known(with_folder(index, walk.folder, walk.left[0], created.id), created)
}

/// How far one has come after a missing folder has been made.
pub open spec fn walk_after_making(walk: WalkView, created: FileEntryView) -> WalkView {
    WalkView { left: walk.left.drop_first(), folder: created.id }
}

/// The name under which a marked-up copy goes back to Zotero.
pub open spec fn copy_name(file_name: Seq<char>) -> Seq<char> {
    let name = text::trimmed(file_name);
    if text::ends_in(text::lower_text(name), ".pdf"@) {
        name
    } else {
        name + ".pdf"@
    }
}

/// Whether an entry is a folder.
pub fn is_folder(file: &FileEntry) -> (r: bool)
    ensures
        r == is_folder_entry(file.deep_view()),
{
    let kind: String = text::to_ascii_lowercase(file.entry_type.as_str());
    text::same_text(kind.as_str(), "collectiontype") || text::same_text(kind.as_str(), "folder")
}

/// The name under which a marked-up copy goes back to Zotero: that on the tablet, with the ending of
/// a PDF file.
pub fn marked_up_name(file_name: &str) -> (r: String)
    ensures
        r@ == copy_name(file_name@),
{
    let name: String = text::trim(file_name);
    let low: String = text::to_ascii_lowercase(name.as_str());
    if text::ends_with(low.as_str(), ".pdf") {
        name
    } else {
        name.concat(".pdf")
    }
}

/// How far down a path of folders one has come.
#[derive(Debug, PartialEq, Eq)]
pub struct FolderWalk {
    pub left: Vec<String>,
    pub folder: String,
}

impl DeepView for FolderWalk {
    type V = WalkView;

    open spec fn deep_view(&self) -> WalkView {
        WalkView { left: self.left.deep_view(), folder: self.folder@ }
    }
}

/// What comes next on the way down a path.
#[derive(Debug, PartialEq, Eq)]
pub enum WalkStep {
    /// The end of the path is reached: this is the folder, or the top.
    Reached(Option<String>),
    /// A folder is missing: it is to be made under the parent, or at the top.
    Make { walk: FolderWalk, name: String, parent: Option<String> },
}

/// What a [`WalkStep`] holds.
pub enum WalkStepView {
    Reached(Option<Seq<char>>),
    Make { walk: WalkView, name: Seq<char>, parent: Option<Seq<char>> },
}

impl DeepView for WalkStep {
    type V = WalkStepView;

    open spec fn deep_view(&self) -> WalkStepView {
        match self {
            WalkStep::Reached(folder) => WalkStepView::Reached(folder.deep_view()),
            WalkStep::Make { walk, name, parent } => WalkStepView::Make {
                walk: walk.deep_view(),
                name: name@,
                parent: parent.deep_view(),
            },
        }
    }
}

/// What comes next on the way down a path, by the folders that are there.
pub open spec fn next_on_path(index: FolderIndexView, walk: WalkView) -> WalkStepView {
    let now = descended(index, walk);
    if now.left.len() == 0 {
        WalkStepView::Reached(place_in(now.folder))
    } else {
        WalkStepView::Make { walk: now, name: now.left[0], parent: place_in(now.folder) }
    }
}

fn place(folder: String) -> (r: Option<String>)
    ensures
        r.deep_view() == place_in(folder@),
{
    if folder.as_str().is_empty() {
        None
    } else {
        Some(folder)
    }
}

impl FolderIndex {
    /// The index of no files.
    pub fn new() -> (r: Self)
        ensures
            r.deep_view() == empty_index(),
    {
        FolderIndex { by_parent_and_name: Vec::new(), docs_by_id: KeyMap::new() }
    }

    /// The identity of a folder under its parent and its name.
    pub fn folder(&self, parent: &str, name: &str) -> (r: Option<String>)
        ensures
            r.deep_view() == (if self.deep_view().folders.contains_key((parent@, name@)) {
                Some(self.deep_view().folders[(parent@, name@)])
            } else {
                None
            }),
    {
        let ghost all = self.by_parent_and_name@;
        let ghost key = (parent@, name@);
        let mut i: usize = self.by_parent_and_name.len();
        assert(all.take(i as int) =~= all);
        while i > 0
            invariant
                i <= all.len(),
                all == self.by_parent_and_name@,
                key == (parent@, name@),
                folders_in(all).contains_key(key) == folders_in(all.take(i as int)).contains_key(
                    key,
                ),
                folders_in(all).contains_key(key) ==> folders_in(all)[key] == folders_in(
                    all.take(i as int),
                )[key],
            decreases i,
        {
            i -= 1;
            let record = &self.by_parent_and_name[i];
            assert(all.take(i + 1).drop_last() =~= all.take(i as int));
            assert(all.take(i + 1).last() == record);
            if text::same_text(record.parent.as_str(), parent) && text::same_text(
                record.name.as_str(),
                name,
            ) {
                return Some(record.id.clone());
            }
        }
        assert(all.take(0) =~= Seq::<FolderRecord>::empty());
        None
    }

    /// The document of an identity.
    pub fn doc(&self, id: &str) -> (r: Option<&FileEntry>)
        ensures
            match r {
                Some(file) => self.deep_view().docs.contains_key(id@) && file.deep_view()
                    == self.deep_view().docs[id@],
                None => !self.deep_view().docs.contains_key(id@),
            },
    {
        self.docs_by_id.get(id)
    }

    /// Takes a folder in.
    pub fn add_folder(&mut self, parent: String, name: String, id: String)
        ensures
            final(self).deep_view() == with_folder(old(self).deep_view(), parent@, name@, id@),
    {
        let ghost before = self.by_parent_and_name@;
        self.by_parent_and_name.push(FolderRecord { parent, name, id });
        assert(self.by_parent_and_name@.drop_last() =~= before);
    }

    /// Takes a document in.
    pub fn add_doc(&mut self, file: FileEntry)
        ensures
            final(self).deep_view() == with_doc(old(self).deep_view(), file.deep_view()),
    {
        self.docs_by_id.insert(file.id.clone(), file);
    }

    /// Takes a document in, unless it has no identity.
    pub fn add_known(&mut self, file: FileEntry)
        ensures
            final(self).deep_view() == with_known(old(self).deep_view(), file.deep_view()),
    {
        if !file.id.as_str().is_empty() {
            self.add_doc(file);
        }
    }

    /// The index of a listing.
    pub fn from_files(files: Vec<FileEntry>) -> (r: Self)
        ensures
            r.deep_view() == index_of(files.deep_view()),
    {
        let ghost all = files.deep_view();
        let mut index = FolderIndex::new();
        assert(all.take(0) =~= Seq::<FileEntryView>::empty());
        for file in it: files
            invariant
                it.seq().map_values(|f: FileEntry| f.deep_view()) == all,
                index.deep_view() == index_of(all.take(it.index())),
        {
            assert(all[it.index()] == file.deep_view());
            assert(all.take(it.index() + 1).drop_last() =~= all.take(it.index()));
            if is_folder(&file) {
                index.add_folder(file.parent.clone(), file.file_name.clone(), file.id.clone());
            } else {
                index.add_doc(file);
            }
        }
        assert(all.take(all.len() as int) =~= all);
        index
    }

    /// Goes down a path as far as its folders are there, and says what comes next.
    pub fn ensure_folder_path(&self, walk: FolderWalk) -> (r: WalkStep)
        ensures
            r.deep_view() == next_on_path(self.deep_view(), walk.deep_view()),
    {
        let ghost index = self.deep_view();
        let ghost start = walk.deep_view();
        let mut left: Vec<String> = walk.left;
        let mut folder: String = walk.folder;
        loop
            invariant
                index == self.deep_view(),
                descended(index, start) == descended(
                    index,
                    WalkView { left: left.deep_view(), folder: folder@ },
                ),
            ensures
                descended(index, start) == (WalkView { left: left.deep_view(), folder: folder@ }),
            decreases left@.len(),
        {
            if left.len() == 0 {
                break;
            }
            match self.folder(folder.as_str(), left[0].as_str()) {
                None => {
                    break;
                },
                Some(id) => {
                    let ghost before = left.deep_view();
                    let _ = left.remove(0);
                    assert(left.deep_view() =~= before.drop_first());
                    folder = id;
                },
            }
        }
        if left.len() == 0 {
            return WalkStep::Reached(place(folder));
        }
        let name: String = left[0].clone();
        let parent: Option<String> = place(folder.clone());
        WalkStep::Make { walk: FolderWalk { left, folder }, name, parent }
    }

    /// Takes in a folder that was missing on the way down a path and has been made.
    pub fn folder_made(&mut self, walk: FolderWalk, created: FileEntry) -> (r: FolderWalk)
        requires
            walk.left@.len() > 0,
        ensures
            final(self).deep_view() == index_after_making(
                old(self).deep_view(),
                walk.deep_view(),
                created.deep_view(),
            ),
            r.deep_view() == walk_after_making(walk.deep_view(), created.deep_view()),
    {
        let ghost before = walk.left.deep_view();
        let mut left: Vec<String> = walk.left;
        let name: String = left.remove(0);
        assert(left.deep_view() =~= before.drop_first());
        let folder: String = created.id.clone();
        self.add_folder(walk.folder, name, created.id.clone());
        self.add_known(created);
        FolderWalk { left, folder }
    }
}

/// A folder that has been made is found from then on: the way down the rest of the path leads
/// through it, and no second folder is made in its place.
pub proof fn made_folders_are_found(
    index: FolderIndexView,
    walk: WalkView,
    created: FileEntryView,
)
    requires
        walk.left.len() > 0,
    ensures
        ({
            let after = index_after_making(index, walk, created);
            descended(after, walk) == descended(after, walk_after_making(walk, created))
        }),
{
}

/// Where one stands after going down a path and making the missing folders, in order: the index and
/// how far one has come. Once the end is reached nothing more is made.
pub open spec fn walked(
    index: FolderIndexView,
    walk: WalkView,
    made: Seq<FileEntryView>,
) -> (FolderIndexView, WalkView)
    decreases made.len(),
{
    if made.len() == 0 {
        (index, descended(index, walk))
    } else {
        let (before, now) = walked(index, walk, made.drop_last());
        if now.left.len() == 0 {
            (before, now)
        } else {
            let after = index_after_making(before, now, made.last());
            (after, descended(after, walk_after_making(now, made.last())))
        }
    }
}

/// Whether an index has all the folders of another one, in the same places.
pub(crate) open spec fn has_folders_of(more: FolderIndexView, index: FolderIndexView) -> bool {
    forall|place: (Seq<char>, Seq<char>)| #[trigger]
        index.folders.contains_key(place) ==> more.folders.contains_key(place)
            && more.folders[place] == index.folders[place]
}

/// With more folders one comes at least as far, on the same way.
pub(crate) proof fn lemma_further(index: FolderIndexView, more: FolderIndexView, walk: WalkView)
    requires
        has_folders_of(more, index),
    ensures
        descended(more, walk) == descended(more, descended(index, walk)),
    decreases walk.left.len(),
{
    if walk.left.len() > 0 && index.folders.contains_key((walk.folder, walk.left[0])) {
        lemma_further(
            index,
            more,
            WalkView {
                left: walk.left.drop_first(),
                folder: index.folders[(walk.folder, walk.left[0])],
            },
        );
    }
}

/// At each point of the way down, going down the whole path again leads to the same place.
proof fn lemma_walked(index: FolderIndexView, walk: WalkView, made: Seq<FileEntryView>)
    ensures
        ({
            let (after, now) = walked(index, walk, made);
            descended(after, walk) == now && descended(after, now) == now
        }),
    decreases made.len(),
{
    if made.len() == 0 {
        lemma_further(index, index, walk);
    } else {
        lemma_walked(index, walk, made.drop_last());
        let (before, now) = walked(index, walk, made.drop_last());
        if now.left.len() > 0 {
            let created = made.last();
            let after = index_after_making(before, now, created);
            assert(!before.folders.contains_key((now.folder, now.left[0]))) by {
                lemma_descended_stops(before, walk);
            }
            assert(has_folders_of(after, before));
            lemma_further(before, after, walk);
            made_folders_are_found(before, now, created);
            lemma_further(after, after, walk_after_making(now, created));
        }
    }
}

/// One goes down until a folder is missing.
pub(crate) proof fn lemma_descended_stops(index: FolderIndexView, walk: WalkView)
    ensures
        ({
            let now = descended(index, walk);
            now.left.len() > 0 ==> !index.folders.contains_key((now.folder, now.left[0]))
        }),
    decreases walk.left.len(),
{
    if walk.left.len() > 0 && index.folders.contains_key((walk.folder, walk.left[0])) {
        lemma_descended_stops(
            index,
            WalkView {
                left: walk.left.drop_first(),
                folder: index.folders[(walk.folder, walk.left[0])],
            },
        );
    }
}

/// Where a path leads to its end, so does each part of it from the start on.
proof fn lemma_prefix_reached(index: FolderIndexView, walk: WalkView, n: int)
    requires
        0 <= n <= walk.left.len(),
        descended(index, walk).left.len() == 0,
    ensures
        descended(index, WalkView { left: walk.left.take(n), ..walk }).left.len() == 0,
    decreases walk.left.len(),
{
    if n > 0 {
        let below = WalkView {
            left: walk.left.drop_first(),
            folder: index.folders[(walk.folder, walk.left[0])],
        };
        lemma_prefix_reached(index, below, n - 1);
        assert(walk.left.take(n).drop_first() =~= walk.left.drop_first().take(n - 1));
    }
}

/// A path that has been walked to its end is there from then on, whatever folders were made on the
/// way: going down it again makes no folder and ends in the same one, and going down any part of it
/// from the start makes none either.
pub proof fn walked_paths_are_found(
    index: FolderIndexView,
    walk: WalkView,
    made: Seq<FileEntryView>,
)
    requires
        walked(index, walk, made).1.left.len() == 0,
    ensures
        ({
            let (after, now) = walked(index, walk, made);
            &&& next_on_path(after, walk) == WalkStepView::Reached(place_in(now.folder))
            &&& forall|n: int|
                0 <= n <= walk.left.len() ==> next_on_path(
                    after,
                    WalkView { left: #[trigger] walk.left.take(n), ..walk },
                ) is Reached
        }),
{
    lemma_walked(index, walk, made);
    let (after, now) = walked(index, walk, made);
    assert forall|n: int| 0 <= n <= walk.left.len() implies next_on_path(
        after,
        WalkView { left: #[trigger] walk.left.take(n), ..walk },
    ) is Reached by {
        lemma_prefix_reached(after, walk, n);
    }
}

/// Going down a path never makes a folder that is there already, and never passes one that is
/// missing.
pub proof fn only_missing_folders_are_made(index: FolderIndexView, walk: WalkView)
    ensures
        next_on_path(index, walk) matches WalkStepView::Make { walk: now, name, parent } ==> {
            &&& !index.folders.contains_key((now.folder, name))
            &&& parent == place_in(now.folder)
            &&& now.left.len() > 0
            &&& now.left[0] == name
            &&& now.left.len() <= walk.left.len()
            &&& now.left == walk.left.skip(walk.left.len() - now.left.len())
        },
        next_on_path(index, walk) is Reached ==> descended(index, walk).left.len() == 0,
    decreases walk.left.len(),
{
    if walk.left.len() > 0 && index.folders.contains_key((walk.folder, walk.left[0])) {
        let below = WalkView {
            left: walk.left.drop_first(),
            folder: index.folders[(walk.folder, walk.left[0])],
        };
        only_missing_folders_are_made(index, below);
        let now = descended(index, walk);
        if now.left.len() > 0 {
            assert(now.left =~= walk.left.skip(walk.left.len() - now.left.len()));
        }
    } else {
        assert(walk.left.skip(0) =~= walk.left);
    }
}

/// A listing is sorted into folders and documents: an identity is listed among the documents only
/// for an entry that is none of the folders.
pub proof fn listings_are_sorted(files: Seq<FileEntryView>)
    ensures
        forall|id: Seq<char>| #[trigger]
            index_of(files).docs.contains_key(id) ==> {
                &&& files.contains(index_of(files).docs[id])
                &&& index_of(files).docs[id].id == id
                &&& !is_folder_entry(index_of(files).docs[id])
            },
        forall|i: int|
            0 <= i < files.len() ==> if is_folder_entry(#[trigger] files[i]) {
                index_of(files).folders.contains_key((files[i].parent, files[i].file_name))
            } else {
                index_of(files).docs.contains_key(files[i].id)
            },
    decreases files.len(),
{
    if files.len() > 0 {
        let before = files.drop_last();
        listings_are_sorted(before);
        assert forall|id: Seq<char>| #[trigger] index_of(files).docs.contains_key(id) implies {
            &&& files.contains(index_of(files).docs[id])
            &&& index_of(files).docs[id].id == id
            &&& !is_folder_entry(index_of(files).docs[id])
        } by {
            let doc = index_of(files).docs[id];
            if !is_folder_entry(files.last()) && files.last().id == id {
                assert(files[files.len() - 1] == doc);
            } else {
                assert(index_of(before).docs.contains_key(id));
                let i = choose|i: int| 0 <= i < before.len() && before[i] == doc;
                assert(files[i] == doc);
            }
        }
        assert forall|i: int| 0 <= i < files.len() implies if is_folder_entry(
            #[trigger] files[i],
        ) {
            index_of(files).folders.contains_key((files[i].parent, files[i].file_name))
        } else {
            index_of(files).docs.contains_key(files[i].id)
        } by {
            if i < before.len() {
                assert(before[i] == files[i]);
            }
        }
    }
}

/// A marked-up copy always goes back under a name of a PDF file.
pub proof fn copies_are_named_as_pdf(file_name: Seq<char>)
    ensures
        text::ends_in(text::lower_text(copy_name(file_name)), ".pdf"@),
{
    reveal_strlit(".pdf");
    let name = text::trimmed(file_name);
    let low = text::lower_text(name + ".pdf"@);
    assert(low.skip(low.len() - 4) =~= ".pdf"@);
}

} // verus!
