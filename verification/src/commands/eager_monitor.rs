//! A monitor that looks for the repositories as soon as a file changes, and that holds every
//! event back for the same time.
use vstd::prelude::*;

use crate::commands::event;
use crate::commands::rescan;
use crate::commands::watcher;
use crate::commands::watcher::{Change, FsEvent};
use crate::diff;
use crate::diff::PathSet;
use crate::duration;
use crate::duration::Duration;
use crate::facts::{Findings, Kind};
use crate::order;
use crate::order::{Ordered, Rank};
use crate::path;
use crate::path::FilePath;
use crate::sorted_set;
use crate::sorted_set::SortedSet;

verus! {

/// For how long events are held back, in seconds.
pub const DEBOUNCE_SECS: u64 = 2;

/// Something to do.
#[derive(Debug)]
pub enum Event {
    /// Request to reload the configuration.
    ReloadConfiguration,
    /// Request to scan some repositories.
    ScanRepositories(PathSet),
    /// Request to stop. No event comes behind this one.
    Shutdown,
}

/// What an event is.
pub enum EventView {
    ReloadConfiguration,
    ScanRepositories(Seq<Seq<u8>>),
    Shutdown,
}

impl View for Event {
    type V = EventView;

    open spec fn view(&self) -> EventView {
        match *self {
            Event::ReloadConfiguration => EventView::ReloadConfiguration,
            Event::ScanRepositories(repositories) => EventView::ScanRepositories(repositories@),
            Event::Shutdown => EventView::Shutdown,
        }
    }
}

/// Events in the order in which they are to be handled.
pub type EventSet = SortedSet<Event>;

/// Where an event stands among the kinds.
pub open spec fn event_rank(event: EventView) -> int {
    match event {
        EventView::ReloadConfiguration => 0,
        EventView::ScanRepositories(_) => 1,
        EventView::Shutdown => 2,
    }
}

/// The repositories of a request to scan them.
pub open spec fn event_repositories(event: EventView) -> Seq<Seq<Seq<u8>>> {
    match event {
        EventView::ScanRepositories(repositories) => event::all_components(repositories),
        _ => Seq::empty(),
    }
}

fn rank_of(event: &Event) -> (rank: u8)
    ensures
        rank == event_rank(event@),
{
    match event {
        Event::ReloadConfiguration => 0,
        Event::ScanRepositories(_) => 1,
        Event::Shutdown => 2,
    }
}

impl Ordered for Event {
    type Key = (int, Seq<Seq<Seq<u8>>>);

    open spec fn key(v: EventView) -> (int, Seq<Seq<Seq<u8>>>) {
        (event_rank(v), event_repositories(v))
    }

    /// By kind, and requests to scan by their repositories.
    open spec fn before(a: (int, Seq<Seq<Seq<u8>>>), b: (int, Seq<Seq<Seq<u8>>>)) -> bool {
        ||| a.0 < b.0
        ||| a.0 == b.0 && order::lex_before(event::path_order(), a.1, b.1)
    }

    proof fn before_is_irreflexive(a: (int, Seq<Seq<Seq<u8>>>)) {
        event::paths_are_ordered();
        order::lex_irreflexive(event::path_order(), a.1);
    }

    proof fn before_is_transitive(
        a: (int, Seq<Seq<Seq<u8>>>),
        b: (int, Seq<Seq<Seq<u8>>>),
        c: (int, Seq<Seq<Seq<u8>>>),
    ) {
        event::paths_are_ordered();
        if a.0 == b.0 && b.0 == c.0 {
            order::lex_transitive(event::path_order(), a.1, b.1, c.1);
        }
    }

    proof fn before_is_total(a: (int, Seq<Seq<Seq<u8>>>), b: (int, Seq<Seq<Seq<u8>>>)) {
        event::paths_are_ordered();
        order::lex_total(event::path_order(), a.1, b.1);
    }

    fn compare(&self, other: &Event) -> (rank: Rank) {
        let a: u8 = rank_of(self);
        let b: u8 = rank_of(other);
        if a < b {
            return Rank::Less;
        }
        if b < a {
            return Rank::Greater;
        }
        match (self, other) {
            (Event::ScanRepositories(x), Event::ScanRepositories(y)) => event::order_paths(x, y),
            _ => Rank::Equal,
        }
    }
}

/// An order to the thread that watches the file system.
#[derive(Debug)]
pub enum Control {
    SetPaths(PathSet),
    Shutdown,
}

/// The repositories that a change concerns, as far as they are in one of the search directories.
pub fn find_repositories(
    search_directories: &PathSet,
    paths: &Vec<FilePath>,
    found: &Findings,
) -> (repositories: PathSet)
    ensures
        repositories@ == sorted_set::extended::<FilePath>(
            Seq::empty(),
            rescan::searched_repositories(
                found@,
                search_directories@,
                sorted_set::item_views(paths@),
            ),
        ),
{
    let ghost all = sorted_set::item_views(paths@);
    let mut repositories = PathSet::new();
    let mut i: usize = 0;
    assert(all.take(0) =~= Seq::<Seq<u8>>::empty());
    while i < paths.len()
        invariant
            i <= paths@.len(),
            all == sorted_set::item_views(paths@),
            repositories@ == sorted_set::extended::<FilePath>(
                Seq::empty(),
                rescan::searched_repositories(
                    found@,
                    search_directories@,
                    all.take(i as int),
                ),
            ),
        decreases paths@.len() - i,
    {
        assert(all.take(i + 1).drop_last() =~= all.take(i as int));
        assert(all[i as int] == paths@[i as int]@);
        let ghost some = rescan::searched_repositories(
            found@,
            search_directories@,
            all.take(i as int),
        );
        if let Some(repository) = rescan::repository_of(&paths[i], search_directories, found) {
            assert(some.push(repository@).drop_last() =~= some);
            repositories.insert(repository);
        }
        i = i + 1;
    }
    assert(all.take(i as int) =~= all);
    repositories
}

/// What to do about a change: the configuration is reloaded where its file or the file with the
/// patterns that git ignores everywhere changed, and the repositories are scanned where the
/// change is accepted.
pub open spec fn fs_events(
    watched: Seq<Seq<u8>>,
    configuration_file: Seq<u8>,
    global_gitignore: Option<Seq<u8>>,
    found: Seq<(Seq<u8>, Kind)>,
    change: Change,
    paths: Seq<Seq<u8>>,
) -> Seq<EventView> {
    (if diff::lists(paths, path::components(configuration_file)) || watcher::concerns(
        paths,
        global_gitignore,
    ) {
        seq![EventView::ReloadConfiguration]
    } else {
        Seq::empty()
    }) + (if watcher::is_accepted(change, paths) {
        seq![
            EventView::ScanRepositories(
                sorted_set::extended::<FilePath>(
                    Seq::empty(),
                    rescan::searched_repositories(found, watched, paths),
                ),
            ),
        ]
    } else {
        Seq::empty()
    })
}

/// What to do about a change in the file system.
pub fn file_system_changed(
    watched: &PathSet,
    configuration_file: &FilePath,
    global_gitignore: &Option<FilePath>,
    found: &Findings,
    event: &FsEvent,
) -> (events: Vec<Event>)
    ensures
        sorted_set::item_views(events@) == fs_events(
            watched@,
            configuration_file@,
            watcher::option_view(*global_gitignore),
            found@,
            event.change,
            sorted_set::item_views(event.paths@),
        ),
{
    let mut events: Vec<Event> = Vec::new();
    if watcher::lists_path(&event.paths, configuration_file) || watcher::concerns_file(
        &event.paths,
        global_gitignore,
    ) {
        events.push(Event::ReloadConfiguration);
    }
    if watcher::accept_event(event) {
        events.push(Event::ScanRepositories(find_repositories(watched, &event.paths, found)));
    }
    assert(sorted_set::item_views(events@) =~= fs_events(
        watched@,
        configuration_file@,
        watcher::option_view(*global_gitignore),
        found@,
        event.change,
        sorted_set::item_views(event.paths@),
    ));
    events
}

/// Something that the debouncer waits for.
#[derive(Debug)]
pub enum DebouncerInput {
    Event(Event),
    /// The time is over.
    Timeout,
    /// No more events will come.
    InputDropped,
}

/// What the debouncer got.
pub enum InputView {
    Event(EventView),
    Timeout,
    InputDropped,
}

impl View for DebouncerInput {
    type V = InputView;

    open spec fn view(&self) -> InputView {
        match *self {
            DebouncerInput::Event(event) => InputView::Event(event@),
            DebouncerInput::Timeout => InputView::Timeout,
            DebouncerInput::InputDropped => InputView::InputDropped,
        }
    }
}

/// It holds every event back until some time after the first one, and hands on together what came
/// meanwhile.
#[derive(Debug)]
pub struct Debouncer {
    due: Option<Duration>,
    held: EventSet,
}

/// The state of a debouncer.
pub struct DebouncerView {
    /// When the events are due, if any are held back.
    pub due: Option<int>,
    /// What is held back.
    pub held: Seq<EventView>,
}

impl View for Debouncer {
    type V = DebouncerView;

    closed spec fn view(&self) -> DebouncerView {
        DebouncerView {
            due: match self.due {
                Some(moment) => Some(moment@),
                None => None,
            },
            held: self.held@,
        }
    }
}

/// A debouncer that holds nothing back.
pub open spec fn idle() -> DebouncerView {
    DebouncerView { due: None, held: Seq::empty() }
}

/// The state after an input.
pub open spec fn debouncer_after(s: DebouncerView, input: InputView, now: int) -> DebouncerView {
    match input {
        InputView::Event(got) => DebouncerView {
            due: match s.due {
                Some(moment) => Some(moment),
                None => Some(now + duration::in_nanos(DEBOUNCE_SECS as int, 0)),
            },
            held: sorted_set::inserted::<Event>(s.held, got),
        },
        _ => idle(),
    }
}

/// What is handed on after an input.
pub open spec fn debouncer_sends(s: DebouncerView, input: InputView) -> Seq<EventView> {
    match input {
        InputView::Event(_) => Seq::empty(),
        _ => s.held,
    }
}

/// What came of an input.
#[derive(Debug)]
pub struct Step {
    /// What to hand on.
    pub send: Vec<Event>,
    /// Nothing more is to come.
    pub done: bool,
}

impl Debouncer {
    pub fn new() -> (debouncer: Debouncer)
        ensures
            debouncer@ == idle(),
    {
        Debouncer { due: None, held: EventSet::new() }
    }

    /// The moment until which to wait for an event, if events are held back.
    pub fn deadline(&self) -> (due: Option<Duration>)
        ensures
            match due {
                Some(moment) => self@.due == Some(moment@),
                None => self@.due is None,
            },
    {
        self.due
    }

    /// Takes an input.
    pub fn step(&mut self, input: DebouncerInput, now: Duration) -> (step: Step)
        requires
            input@ is Event && old(self)@.due is None ==> now@ + duration::in_nanos(
                DEBOUNCE_SECS as int,
                0,
            ) <= duration::longest(),
        ensures
            final(self)@ == debouncer_after(old(self)@, input@, now@),
            sorted_set::item_views(step.send@) == debouncer_sends(old(self)@, input@),
            step.done == (input@ is InputDropped),
    {
        match input {
            DebouncerInput::Event(got) => {
                if self.due.is_none() {
                    self.due = now.checked_add(Duration::from_secs(DEBOUNCE_SECS));
                }
                self.held.insert(got);
                let send: Vec<Event> = Vec::new();
                assert(sorted_set::item_views(send@) =~= Seq::<EventView>::empty());
                Step { send, done: false }
            },
            DebouncerInput::Timeout => {
                self.due = None;
                Step { send: self.held.take().into_items(), done: false }
            },
            DebouncerInput::InputDropped => {
                self.due = None;
                Step { send: self.held.take().into_items(), done: true }
            },
        }
    }
}

/// A shutdown comes out behind all that was held back with it.
pub proof fn shutdown_is_last(held: Seq<EventView>, i: int, j: int)
    requires
        sorted_set::increasing::<Event>(held),
        0 <= i < j < held.len(),
    ensures
        !(held[i] is Shutdown),
{
    assert(<Event as Ordered>::before(
        <Event as Ordered>::key(held[i]),
        <Event as Ordered>::key(held[j]),
    ));
    if held[i] is Shutdown {
        <Event as Ordered>::before_is_irreflexive(<Event as Ordered>::key(held[i]));
    }
}

} // verus!
