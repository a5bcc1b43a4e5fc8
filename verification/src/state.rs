//! What is remembered from one run to the next.
use vstd::prelude::*;

use crate::keymap::{Duplicate, KeyMap};

verus! {

/// The tablet's copy of an attachment.
#[derive(Debug, PartialEq, Eq)]
pub struct RemarkableDocState {
    pub doc_id: String,
    /// The hash of the copy when it was last uploaded or written back.
    pub last_hash: String,
}

/// What is known of a library.
pub struct LibraryState {
    /// Zotero library version at the last completed sync; only items modified after this are
    /// fetched.
    pub last_library_version: u64,
    /// Zotero attachment key -> item version at last successful upload.
    pub synced: KeyMap<u64>,
    /// Zotero attachment key -> reMarkable cloud document details.
    pub remarkable_docs: KeyMap<RemarkableDocState>,
}

/// What is known of all libraries.
pub struct State {
    /// Per-library sync state, keyed by API prefix ("users/…" or "groups/…").
    pub libraries: KeyMap<LibraryState>,
    /// Legacy field of the single-library format; moved into `libraries` on load.
    pub last_library_version: u64,
    /// Legacy field of the single-library format; moved into `libraries` on load.
    pub synced: KeyMap<u64>,
}

/// What a [`RemarkableDocState`] holds.
pub struct DocView {
    pub doc_id: Seq<char>,
    pub last_hash: Seq<char>,
}

/// What a [`LibraryState`] holds: the documents with the order in which they came.
#[verifier::ext_equal]
pub struct LibraryView {
    pub last_library_version: u64,
    pub synced: Map<Seq<char>, u64>,
    pub docs: Map<Seq<char>, DocView>,
    pub doc_order: Seq<Seq<char>>,
}

/// What a [`State`] holds.
#[verifier::ext_equal]
pub struct StateView {
    pub libraries: Map<Seq<char>, LibraryView>,
    pub last_library_version: u64,
    pub synced: Map<Seq<char>, u64>,
}

impl DeepView for RemarkableDocState {
    type V = DocView;

    open spec fn deep_view(&self) -> DocView {
        DocView { doc_id: self.doc_id@, last_hash: self.last_hash@ }
    }
}

impl DeepView for LibraryState {
    type V = LibraryView;

    open spec fn deep_view(&self) -> LibraryView {
        LibraryView {
            last_library_version: self.last_library_version,
            synced: self.synced.deep_view(),
            docs: self.remarkable_docs.deep_view(),
            doc_order: self.remarkable_docs.keys(),
        }
    }
}

impl DeepView for State {
    type V = StateView;

    open spec fn deep_view(&self) -> StateView {
        StateView {
            libraries: self.libraries.deep_view(),
            last_library_version: self.last_library_version,
            synced: self.synced.deep_view(),
        }
    }
}

/// What is known of a library that was never synced.
pub open spec fn new_library() -> LibraryView {
    LibraryView {
        last_library_version: 0,
        synced: Map::empty(),
        docs: Map::empty(),
        doc_order: Seq::empty(),
    }
}

/// What is known before the first run.
pub open spec fn new_state() -> StateView {
    StateView { libraries: Map::empty(), last_library_version: 0, synced: Map::empty() }
}

/// What is known of a library.
pub open spec fn library_in(state: StateView, library: Seq<char>) -> LibraryView {
    if state.libraries.contains_key(library) {
        state.libraries[library]
    } else {
        new_library()
    }
}

/// The state with a library's part replaced.
pub open spec fn with_library(
    state: StateView,
    library: Seq<char>,
    lib: LibraryView,
) -> StateView {
    StateView { libraries: state.libraries.insert(library, lib), ..state }
}

/// Whether a state holds anything in the single-library format.
pub open spec fn has_legacy(state: StateView) -> bool {
    state.last_library_version != 0 || state.synced != Map::<Seq<char>, u64>::empty()
}

/// The larger of two versions.
pub open spec fn later(a: u64, b: u64) -> u64 {
    if a >= b {
        a
    } else {
        b
    }
}

/// The state with what it holds in the single-library format moved to the personal library: the
/// later version stays, and a moved record replaces one under the same key.
pub open spec fn migrated(state: StateView, user_library: Seq<char>) -> StateView {
    if has_legacy(state) {
        let lib = library_in(state, user_library);
        StateView {
            libraries: state.libraries.insert(
                user_library,
                LibraryView {
                    last_library_version: later(
                        lib.last_library_version,
                        state.last_library_version,
                    ),
                    synced: lib.synced.union_prefer_right(state.synced),
                    ..lib
                },
            ),
            last_library_version: 0,
            synced: Map::empty(),
        }
    } else {
        state
    }
}

/// Whether a number is zero, and need not be written down.
pub fn is_zero(n: &u64) -> (r: bool)
    ensures
        r == (*n == 0),
{
    *n == 0
}

impl Duplicate for RemarkableDocState {
    fn duplicate(&self) -> (r: Self) {
        RemarkableDocState { doc_id: self.doc_id.clone(), last_hash: self.last_hash.clone() }
    }
}

impl Duplicate for LibraryState {
    fn duplicate(&self) -> (r: Self) {
        LibraryState {
            last_library_version: self.last_library_version,
            synced: self.synced.duplicate(),
            remarkable_docs: self.remarkable_docs.duplicate(),
        }
    }
}

impl LibraryState {
    /// What is known of a library that was never synced.
    pub fn new() -> (r: Self)
        ensures
            r.deep_view() == new_library(),
    {
        LibraryState {
            last_library_version: 0,
            synced: KeyMap::new(),
            remarkable_docs: KeyMap::new(),
        }
    }
}

/// The records of both maps, those of `more` where both have one.
fn extended(synced: KeyMap<u64>, more: &KeyMap<u64>) -> (r: KeyMap<u64>)
    ensures
        r.deep_view() == synced.deep_view().union_prefer_right(more.deep_view()),
{
    let ghost base = synced.deep_view();
    let ghost all = more.deep_view();
    let mut out: KeyMap<u64> = synced;
    let count: usize = more.len();
    let mut i: usize = 0;
    assert(more.keys().take(0).to_set() =~= Set::<Seq<char>>::empty());
    assert(base =~= base.union_prefer_right(all.restrict(Set::<Seq<char>>::empty())));
    while i < count
        invariant
            i <= count == more.keys().len(),
            all == more.deep_view(),
            out.deep_view() == base.union_prefer_right(
                all.restrict(more.keys().take(i as int).to_set()),
            ),
        decreases count - i,
    {
        let (key, version) = more.at(i);
        let ghost before = more.keys().take(i as int);
        out.insert(key.clone(), *version);
        proof {
            let after = more.keys().take(i + 1);
            assert(after =~= before.push(key@));
            assert forall|k: Seq<char>|
                after.to_set().contains(k) == (before.to_set().contains(k) || k == key@) by {
                if before.contains(k) {
                    let j = choose|j: int| 0 <= j < before.len() && before[j] == k;
                    assert(after[j] == k);
                }
                assert(after[i as int] == key@);
            }
            assert(out.deep_view() =~= base.union_prefer_right(all.restrict(after.to_set())));
        }
        i += 1;
    }
    proof {
        assert(more.keys().take(count as int) =~= more.keys());
        assert(all.restrict(all.dom()) =~= all);
    }
    out
}

impl State {
    /// What is known before the first run.
    pub fn new() -> (r: Self)
        ensures
            r.deep_view() == new_state(),
    {
        State { libraries: KeyMap::new(), last_library_version: 0, synced: KeyMap::new() }
    }

    /// What is known of a library.
    pub fn library(&self, library: &str) -> (r: LibraryState)
        ensures
            r.deep_view() == library_in(self.deep_view(), library@),
    {
        match self.libraries.get(library) {
            Some(lib) => lib.duplicate(),
            None => LibraryState::new(),
        }
    }

    /// Replaces a library's part.
    pub fn set_library(&mut self, library: &str, lib: &LibraryState)
        ensures
            final(self).deep_view() == with_library(
                old(self).deep_view(),
                library@,
                lib.deep_view(),
            ),
    {
        self.libraries.insert(library.to_owned(), lib.duplicate());
    }

    /// The state to start from, given what could be read of the last one. Nothing is known where
    /// nothing could be read, and what comes in the single-library format is moved to the personal
    /// library.
    pub fn load(parsed: Option<State>, user_library: &str) -> (r: Self)
        ensures
            r.deep_view() == (match parsed {
                Some(state) => migrated(state.deep_view(), user_library@),
                None => new_state(),
            }),
    {
        let mut state: State = match parsed {
            Some(state) => state,
            None => State::new(),
        };
        if state.last_library_version != 0 || !state.synced.is_empty() {
            let lib: LibraryState = state.library(user_library);
            let version: u64 = if lib.last_library_version >= state.last_library_version {
                lib.last_library_version
            } else {
                state.last_library_version
            };
            let merged = LibraryState {
                last_library_version: version,
                synced: extended(lib.synced, &state.synced),
                remarkable_docs: lib.remarkable_docs,
            };
            state.set_library(user_library, &merged);
            state.last_library_version = 0;
            state.synced = KeyMap::new();
        }
        state
    }
}

/// Loading loses no record: each key that was recorded for the personal library, in either format,
/// still is, and each other library is as it was.
pub proof fn loading_loses_nothing(state: StateView, user_library: Seq<char>)
    ensures
        ({
            let before = library_in(state, user_library);
            let after = library_in(migrated(state, user_library), user_library);
            &&& after.synced.dom() == before.synced.dom().union(state.synced.dom())
            &&& forall|key: Seq<char>|
                #![trigger after.synced[key]]
                after.synced.contains_key(key) ==> after.synced[key]
                    == if state.synced.contains_key(key) {
                    state.synced[key]
                } else {
                    before.synced[key]
                }
            &&& after.docs == before.docs
            &&& after.doc_order == before.doc_order
            &&& after.last_library_version >= before.last_library_version
            &&& after.last_library_version >= state.last_library_version
        }),
        forall|library: Seq<char>|
            library != user_library ==> library_in(migrated(state, user_library), library)
                == #[trigger] library_in(state, library),
{
    let before = library_in(state, user_library);
    let after = library_in(migrated(state, user_library), user_library);
    assert(after.synced.dom() =~= before.synced.dom().union(state.synced.dom()));
}

/// A state that holds nothing in the single-library format is loaded as it is, for whatever personal
/// library. A state that was loaded is such a state, so loading what was saved of it changes nothing,
/// even where the personal library is another one by then.
pub proof fn loading_again_changes_nothing(
    state: StateView,
    user_library: Seq<char>,
    next_library: Seq<char>,
)
    ensures
        !has_legacy(state) ==> migrated(state, next_library) == state,
        !has_legacy(migrated(state, user_library)),
        migrated(migrated(state, user_library), next_library) == migrated(state, user_library),
{
}

} // verus!
