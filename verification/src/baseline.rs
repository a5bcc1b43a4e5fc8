//! Recording what is in Zotero already, so that only what comes later is uploaded.
use vstd::prelude::*;

use crate::config;
use crate::config::Config;
use crate::events::{Action, ActionView, Event, EventView, Note, NoteView, Outcome, Trouble};
use crate::state;
use crate::state::{LibraryState, LibraryView, State, StateView};
use crate::sync_laws;
use crate::sync_model;
use crate::sync_model::{PhaseView, RunView, StepView};
use crate::zotero::{Item, ItemView};

verus! {

/// What a baseline run waits for.
pub enum BaselinePhase {
    /// The attachments of a library.
    Attachments { library: String },
    /// The state being written down.
    Saved,
    /// Nothing: the run is over.
    Over,
}

/// Where a baseline run stands.
pub struct Baseline {
    /// The libraries that are still to come.
    pub libraries: Vec<String>,
    pub state: State,
    pub phase: BaselinePhase,
}

/// What comes next: where the run stands then, what is to be done and what is to be told before.
pub struct BaselineStep {
    pub run: Baseline,
    pub action: Action,
    pub notes: Vec<Note>,
}

/// What a [`BaselinePhase`] holds.
#[verifier::ext_equal]
pub enum BaselinePhaseView {
    Attachments { library: Seq<char> },
    Saved,
    Over,
}

/// What a [`Baseline`] holds.
#[verifier::ext_equal]
pub struct BaselineView {
    pub libraries: Seq<Seq<char>>,
    pub state: StateView,
    pub phase: BaselinePhaseView,
}

/// What a [`BaselineStep`] holds.
#[verifier::ext_equal]
pub struct BaselineStepView {
    pub run: BaselineView,
    pub action: ActionView,
    pub notes: Seq<NoteView>,
}

impl DeepView for BaselinePhase {
    type V = BaselinePhaseView;

    open spec fn deep_view(&self) -> BaselinePhaseView {
        match self {
            BaselinePhase::Attachments { library } => BaselinePhaseView::Attachments {
                library: library@,
            },
            BaselinePhase::Saved => BaselinePhaseView::Saved,
            BaselinePhase::Over => BaselinePhaseView::Over,
        }
    }
}

impl DeepView for Baseline {
    type V = BaselineView;

    open spec fn deep_view(&self) -> BaselineView {
        BaselineView {
            libraries: self.libraries.deep_view(),
            state: self.state.deep_view(),
            phase: self.phase.deep_view(),
        }
    }
}

impl DeepView for BaselineStep {
    type V = BaselineStepView;

    open spec fn deep_view(&self) -> BaselineStepView {
        BaselineStepView {
            run: self.run.deep_view(),
            action: self.action.deep_view(),
            notes: self.notes.deep_view(),
        }
    }
}

/// Goes on to the next library, or to the end.
pub open spec fn next_listing(
    libraries: Seq<Seq<char>>,
    state: StateView,
    notes: Seq<NoteView>,
) -> BaselineStepView {
    if libraries.len() == 0 {
        BaselineStepView {
            run: BaselineView { libraries, state, phase: BaselinePhaseView::Saved },
            action: ActionView::Save,
            notes,
        }
    } else {
        BaselineStepView {
            run: BaselineView {
                libraries: libraries.drop_first(),
                state,
                phase: BaselinePhaseView::Attachments { library: libraries[0] },
            },
            action: ActionView::ListAttachments { library: libraries[0], since: 0 },
            notes: notes.push(NoteView::FetchingAll { library: libraries[0] }),
        }
    }
}

/// The library with all its attachments recorded.
pub open spec fn all_recorded(
    lib: LibraryView,
    items: Seq<ItemView>,
    version: u64,
) -> LibraryView {
    LibraryView {
        last_library_version: version,
        synced: sync_model::recorded(lib.synced, items),
        ..lib
    }
}

/// The end of a run.
pub open spec fn ended(
    run: BaselineView,
    outcome: Outcome,
    notes: Seq<NoteView>,
) -> BaselineStepView {
    BaselineStepView {
        run: BaselineView { phase: BaselinePhaseView::Over, ..run },
        action: ActionView::Finish(outcome),
        notes,
    }
}

/// What comes next where a run stands and an action has come to this.
pub open spec fn baseline_after(run: BaselineView, event: EventView) -> BaselineStepView {
    match (run.phase, event) {
        (
            BaselinePhaseView::Attachments { library },
            EventView::Attachments(Some(listing)),
        ) => {
            let lib = state::library_in(run.state, library);
            next_listing(
                run.libraries,
                state::with_library(
                    run.state,
                    library,
                    all_recorded(lib, listing.0, listing.1),
                ),
                seq![
                    NoteView::Marked {
                        library,
                        count: listing.0.len(),
                        already: lib.synced.len(),
                    },
                ],
            )
        },
        (BaselinePhaseView::Attachments { library }, EventView::Attachments(None)) => ended(
            run,
            Outcome::Aborted(Trouble::Attachments),
            Seq::empty(),
        ),
        (BaselinePhaseView::Saved, EventView::Saved(ok)) => if ok {
            ended(run, Outcome::Done, seq![NoteView::BaselineDone])
        } else {
            ended(run, Outcome::Aborted(Trouble::Save), Seq::empty())
        },
        _ => ended(run, Outcome::Aborted(Trouble::OutOfTurn), Seq::empty()),
    }
}

fn to_next_listing(libraries: Vec<String>, state: State, notes: Vec<Note>) -> (r: BaselineStep)
    ensures
        r.deep_view() == next_listing(
            libraries.deep_view(),
            state.deep_view(),
            notes.deep_view(),
        ),
{
    if libraries.len() == 0 {
        return BaselineStep {
            run: Baseline { libraries, state, phase: BaselinePhase::Saved },
            action: Action::Save,
            notes,
        };
    }
    let ghost all = libraries.deep_view();
    let ghost told = notes.deep_view();
    let mut libraries: Vec<String> = libraries;
    let mut notes: Vec<Note> = notes;
    let library: String = libraries.remove(0);
    assert(libraries.deep_view() =~= all.drop_first());
    notes.push(Note::FetchingAll { library: library.clone() });
    assert(notes.deep_view() =~= told.push(NoteView::FetchingAll { library: library@ }));
    BaselineStep {
        action: Action::ListAttachments { library: library.clone(), since: 0 },
        run: Baseline { libraries, state, phase: BaselinePhase::Attachments { library } },
        notes,
    }
}

fn record_all(lib: LibraryState, items: &Vec<Item>, version: u64) -> (r: LibraryState)
    ensures
        r.deep_view() == all_recorded(lib.deep_view(), items.deep_view(), version),
{
    let ghost all = items.deep_view();
    let ghost base = lib.synced.deep_view();
    let mut synced = lib.synced;
    let mut i: usize = 0;
    assert(all.take(0) =~= Seq::<ItemView>::empty());
    while i < items.len()
        invariant
            i <= items@.len(),
            all == items.deep_view(),
            synced.deep_view() == sync_model::recorded(base, all.take(i as int)),
        decreases items@.len() - i,
    {
        assert(all.take(i + 1).drop_last() =~= all.take(i as int));
        assert(all.take(i + 1).last() == items@[i as int].deep_view());
        synced.insert(items[i].key.clone(), items[i].version);
        i += 1;
    }
    assert(all.take(i as int) =~= all);
    LibraryState {
        last_library_version: version,
        synced,
        remarkable_docs: lib.remarkable_docs,
    }
}

impl Baseline {
    fn end(self, outcome: Outcome, notes: Vec<Note>) -> (r: BaselineStep)
        ensures
            r.deep_view() == ended(self.deep_view(), outcome, notes.deep_view()),
    {
        BaselineStep {
            run: Baseline {
                libraries: self.libraries,
                state: self.state,
                phase: BaselinePhase::Over,
            },
            action: Action::Finish(outcome),
            notes,
        }
    }

    fn stop(self, trouble: Trouble) -> (r: BaselineStep)
        ensures
            r.deep_view() == ended(self.deep_view(), Outcome::Aborted(trouble), Seq::empty()),
    {
        let notes: Vec<Note> = Vec::new();
        assert(notes.deep_view() =~= Seq::<NoteView>::empty());
        self.end(Outcome::Aborted(trouble), notes)
    }

    /// Takes what came of the last action, and says what comes next.
    pub fn answer(self, event: Event) -> (r: BaselineStep)
        ensures
            r.deep_view() == baseline_after(self.deep_view(), event.deep_view()),
    {
        match (&self.phase, event) {
            (BaselinePhase::Attachments { library }, Event::Attachments(listing)) => match listing {
                Some((items, version)) => {
                    let lib: LibraryState = self.state.library(library.as_str());
                    let already: usize = lib.synced.len();
                    let lib: LibraryState = record_all(lib, &items, version);
                    let mut notes: Vec<Note> = Vec::new();
                    notes.push(
                        Note::Marked { library: library.clone(), count: items.len(), already },
                    );
                    assert(notes.deep_view() =~= seq![
                        NoteView::Marked {
                            library: library@,
                            count: items@.len(),
                            already: already as nat,
                        },
                    ]);
                    let mut state: State = self.state;
                    state.set_library(library.as_str(), &lib);
                    to_next_listing(self.libraries, state, notes)
                },
                None => self.stop(Trouble::Attachments),
            },
            (BaselinePhase::Saved, Event::Saved(ok)) => {
                if ok {
                    let mut notes: Vec<Note> = Vec::new();
                    notes.push(Note::BaselineDone);
                    assert(notes.deep_view() =~= seq![NoteView::BaselineDone]);
                    self.end(Outcome::Done, notes)
                } else {
                    self.stop(Trouble::Save)
                }
            },
            _ => self.stop(Trouble::OutOfTurn),
        }
    }
}

/// Begins to record every PDF attachment currently in the configured libraries as already synced,
/// without uploading anything. After this, a sync only sends future additions.
pub fn baseline(config: &Config, state: State) -> (r: BaselineStep)
    ensures
        r.deep_view() == next_listing(
            config::library_prefixes(*config),
            state.deep_view(),
            Seq::empty(),
        ),
{
    let notes: Vec<Note> = Vec::new();
    assert(notes.deep_view() =~= Seq::<NoteView>::empty());
    to_next_listing(config.libraries(), state, notes)
}

/// Once a baseline has listed a library, not one of the attachments that were listed counts as new any
/// more, and the library is synced from the listed version on.
pub proof fn a_baseline_leaves_nothing_new(
    run: BaselineView,
    items: Seq<ItemView>,
    version: u64,
)
    requires
        run.phase is Attachments,
    ensures
        ({
            let after = baseline_after(run, EventView::Attachments(Some((items, version))));
            let lib = state::library_in(after.run.state, run.phase->Attachments_library);
            &&& sync_model::new_items(items, lib.synced).len() == 0
            &&& lib.last_library_version == version
        }),
{
    let lib = state::library_in(run.state, run.phase->Attachments_library);
    sync_laws::lemma_recorded(lib.synced, items);
    sync_laws::lemma_none_new(items, sync_model::recorded(lib.synced, items));
}

/// A baseline uploads nothing and forgets nothing: it only lists attachments and saves, each record
/// and each document that was known stays known, and every other library is as it was.
pub proof fn a_baseline_only_adds_records(run: BaselineView, event: EventView)
    ensures
        ({
            let after = baseline_after(run, event);
            &&& after.action is ListAttachments || after.action is Save || after.action is Finish
            &&& forall|library: Seq<char>|
                #![trigger state::library_in(after.run.state, library)]
                {
                    let was = state::library_in(run.state, library);
                    let is = state::library_in(after.run.state, library);
                    &&& was.synced.dom().subset_of(is.synced.dom())
                    &&& is.docs == was.docs
                    &&& is.doc_order == was.doc_order
                    &&& run.phase != (BaselinePhaseView::Attachments { library }) ==> is == was
                }
        }),
{
    if let BaselinePhaseView::Attachments { library } = run.phase {
        if let EventView::Attachments(Some(listing)) = event {
            let lib = state::library_in(run.state, library);
            sync_laws::lemma_recorded(lib.synced, listing.0);
        }
    }
}

/// The step that a baseline stands at after it has been told of all the events, in order.
pub open spec fn baseline_course(
    start: BaselineStepView,
    events: Seq<EventView>,
) -> BaselineStepView
    decreases events.len(),
{
    if events.len() == 0 {
        start
    } else {
        baseline_after(baseline_course(start, events.drop_last()).run, events.last())
    }
}

/// Whether an event that a baseline is told of lists a key for a library.
pub open spec fn lists(
    run: BaselineView,
    event: EventView,
    library: Seq<char>,
    key: Seq<char>,
) -> bool {
    &&& run.phase == (BaselinePhaseView::Attachments { library })
    &&& event matches EventView::Attachments(Some(listing))
    &&& exists|j: int| 0 <= j < listing.0.len() && (#[trigger] listing.0[j]).key == key
}

/// Whether a baseline was told of a key for a library, by the event at `i`.
pub open spec fn was_listed_at(
    start: BaselineStepView,
    events: Seq<EventView>,
    library: Seq<char>,
    key: Seq<char>,
    i: int,
) -> bool {
    &&& 0 <= i < events.len()
    &&& lists(baseline_course(start, events.take(i)).run, events[i], library, key)
}

/// Whether a baseline was told of a key for a library.
pub open spec fn was_listed(
    start: BaselineStepView,
    events: Seq<EventView>,
    library: Seq<char>,
    key: Seq<char>,
) -> bool {
    exists|i: int| was_listed_at(start, events, library, key, i)
}

proof fn lemma_listed_is_recorded(
    start: BaselineStepView,
    events: Seq<EventView>,
    library: Seq<char>,
    key: Seq<char>,
)
    requires
        was_listed(start, events, library, key),
    ensures
        state::library_in(
            baseline_course(start, events).run.state,
            library,
        ).synced.contains_key(key),
    decreases events.len(),
{
    let i = choose|i: int| was_listed_at(start, events, library, key, i);
    let before = events.drop_last();
    let run = baseline_course(start, before).run;
    if i < before.len() {
        assert(before.take(i) =~= events.take(i));
        assert(before[i] == events[i]);
        assert(was_listed_at(start, before, library, key, i));
        lemma_listed_is_recorded(start, before, library, key);
        a_baseline_only_adds_records(run, events.last());
        let was = state::library_in(run.state, library);
        let is = state::library_in(baseline_course(start, events).run.state, library);
        assert(was.synced.dom().subset_of(is.synced.dom()));
    } else {
        assert(events.take(i) =~= before);
        if let EventView::Attachments(Some(listing)) = events.last() {
            let lib = state::library_in(run.state, library);
            sync_laws::lemma_recorded(lib.synced, listing.0);
        }
    }
}

/// Whether, at each point at which a sync is told of a library's attachments, a baseline had been told
/// of all of them before.
pub open spec fn lists_nothing_further(
    baseline: BaselineStepView,
    before: Seq<EventView>,
    sync: StepView,
    events: Seq<EventView>,
) -> bool {
    forall|i: int|
        0 <= i < events.len() ==> #[trigger] was_all_listed(
            baseline,
            before,
            sync_laws::course(sync, events.take(i)).run,
            events[i],
        )
}

/// Whether a baseline had been told of all the attachments that an event lists.
pub open spec fn was_all_listed(
    baseline: BaselineStepView,
    before: Seq<EventView>,
    run: RunView,
    event: EventView,
) -> bool {
    run.phase matches PhaseView::Attachments { library, .. } ==> event
        matches EventView::Attachments(Some(listing)) ==> forall|j: int|
        0 <= j < listing.0.len() ==> was_listed(
            baseline,
            before,
            library,
            (#[trigger] listing.0[j]).key,
        )
}

/// After a baseline, a sync only sends future additions. As long as what a sync is told of a library
/// was all listed when the baseline was made, no publication is fetched, no file is downloaded, no
/// folder is made and nothing is uploaded to the tablet, at any point, whatever else the sync is told.
pub proof fn syncs_after_a_baseline_send_only_additions(
    libraries: Seq<Seq<char>>,
    start: StateView,
    before: Seq<EventView>,
    synced_libraries: Seq<Seq<char>>,
    dry_run: bool,
    events: Seq<EventView>,
)
    requires
        ({
            let first = next_listing(libraries, start, Seq::empty());
            let saved = baseline_course(first, before).run.state;
            lists_nothing_further(
                first,
                before,
                sync_model::first_step(synced_libraries, saved, dry_run),
                events,
            )
        }),
    ensures
        ({
            let first = next_listing(libraries, start, Seq::empty());
            let saved = baseline_course(first, before).run.state;
            let s = sync_laws::course(
                sync_model::first_step(synced_libraries, saved, dry_run),
                events,
            );
            &&& !(s.action is FetchParent)
            &&& !(s.action is DownloadPdf)
            &&& !(s.action is CreateFolder)
            &&& !(s.action is UploadPdf)
        }),
{
    let first = next_listing(libraries, start, Seq::empty());
    let saved = baseline_course(first, before).run.state;
    let step = sync_model::first_step(synced_libraries, saved, dry_run);
    assert forall|i: int| 0 <= i < events.len() implies #[trigger] sync_laws::is_all_known(
        saved,
        sync_laws::course(step, events.take(i)).run,
        events[i],
    ) by {
        let run = sync_laws::course(step, events.take(i)).run;
        assert(was_all_listed(first, before, run, events[i]));
        if let PhaseView::Attachments { library, collections } = run.phase {
            if let EventView::Attachments(Some(listing)) = events[i] {
                assert forall|j: int| 0 <= j < listing.0.len() implies state::library_in(
                    saved,
                    library,
                ).synced.contains_key((#[trigger] listing.0[j]).key) by {
                    lemma_listed_is_recorded(first, before, library, listing.0[j].key);
                }
            }
        }
    }
    sync_laws::known_attachments_are_left_alone(synced_libraries, saved, dry_run, events);
}

/// How many replies a baseline still waits for.
pub open spec fn replies_left(run: BaselineView) -> nat {
    match run.phase {
        BaselinePhaseView::Attachments { .. } => run.libraries.len() + 2,
        BaselinePhaseView::Saved => 1,
        BaselinePhaseView::Over => 0,
    }
}

/// Every baseline comes to an end: each reply, whatever it is, leaves fewer to wait for, and what was
/// recorded is saved once, after the last library.
pub proof fn baselines_come_to_an_end(run: BaselineView, event: EventView)
    requires
        !(run.phase is Over),
    ensures
        ({
            let s = baseline_after(run, event);
            &&& replies_left(s.run) < replies_left(run)
            &&& s.action is Finish <==> s.run.phase is Over
            &&& s.action is Save <==> s.run.phase is Saved
            &&& s.action is Save ==> run.phase is Attachments && run.libraries.len() == 0
        }),
{
}

/// Whether a baseline is at one of the libraries, and only some of them are to come.
spec fn keeps_to(libraries: Seq<Seq<char>>, run: BaselineView) -> bool {
    &&& run.phase is Attachments ==> libraries.contains(run.phase->Attachments_library)
    &&& forall|i: int|
        0 <= i < run.libraries.len() ==> libraries.contains(#[trigger] run.libraries[i])
}

proof fn lemma_keeps_to(
    libraries: Seq<Seq<char>>,
    rest: Seq<Seq<char>>,
    state: StateView,
    notes: Seq<NoteView>,
)
    requires
        forall|i: int| 0 <= i < rest.len() ==> libraries.contains(#[trigger] rest[i]),
    ensures
        keeps_to(libraries, next_listing(rest, state, notes).run),
{
    if rest.len() > 0 {
        assert(libraries.contains(rest[0]));
        assert forall|i: int| 0 <= i < rest.drop_first().len() implies libraries.contains(
            #[trigger] rest.drop_first()[i],
        ) by {
            assert(rest.drop_first()[i] == rest[i + 1]);
        }
    }
}

proof fn lemma_baseline_course(
    libraries: Seq<Seq<char>>,
    start: StateView,
    events: Seq<EventView>,
    library: Seq<char>,
)
    ensures
        ({
            let run = baseline_course(next_listing(libraries, start, Seq::empty()), events).run;
            let was = state::library_in(start, library);
            let is = state::library_in(run.state, library);
            &&& keeps_to(libraries, run)
            &&& was.synced.dom().subset_of(is.synced.dom())
            &&& is.docs == was.docs
            &&& is.doc_order == was.doc_order
            &&& !libraries.contains(library) ==> is == was
        }),
    decreases events.len(),
{
    let first = next_listing(libraries, start, Seq::empty());
    if events.len() == 0 {
        assert forall|i: int| 0 <= i < libraries.len() implies libraries.contains(
            #[trigger] libraries[i],
        ) by {}
        lemma_keeps_to(libraries, libraries, start, Seq::empty());
    } else {
        let before = baseline_course(first, events.drop_last()).run;
        lemma_baseline_course(libraries, start, events.drop_last(), library);
        a_baseline_only_adds_records(before, events.last());
        let now = baseline_after(before, events.last());
        let mid = state::library_in(before.state, library);
        assert(mid.synced.dom().subset_of(state::library_in(now.run.state, library).synced.dom()));
        if let BaselinePhaseView::Attachments { library: at } = before.phase {
            if let EventView::Attachments(Some(listing)) = events.last() {
                lemma_keeps_to(libraries, before.libraries, now.run.state, Seq::empty());
            }
        }
    }
}

/// At no point of a baseline, whatever it is told, has a record been forgotten or a document changed,
/// and what is known of a library that is not among those to be recorded is as it was.
pub proof fn baselines_lose_nothing(
    libraries: Seq<Seq<char>>,
    start: StateView,
    events: Seq<EventView>,
    library: Seq<char>,
)
    ensures
        ({
            let now = baseline_course(
                next_listing(libraries, start, Seq::empty()),
                events,
            ).run.state;
            let was = state::library_in(start, library);
            let is = state::library_in(now, library);
            &&& was.synced.dom().subset_of(is.synced.dom())
            &&& is.docs == was.docs
            &&& is.doc_order == was.doc_order
            &&& sync_laws::documents_have_records(was) ==> sync_laws::documents_have_records(is)
            &&& !libraries.contains(library) ==> is == was
        }),
{
    lemma_baseline_course(libraries, start, events, library);
}

} // verus!
