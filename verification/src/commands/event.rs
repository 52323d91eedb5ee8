//! The events that the monitor works on.
use vstd::prelude::*;

use crate::diff::PathSet;
use crate::order;
use crate::order::{Ordered, Rank};
use crate::path;
use crate::path::FilePath;
use crate::sorted_set;
use crate::sorted_set::SortedSet;

verus! {

/// Something to do, or something that happened.
#[derive(Debug)]
pub enum Event {
    /// Request to reload the configuration.
    ReloadConfiguration,
    /// A Time Machine backup finished.
    TimeMachineBackupFinished,
    /// Request to scan everything.
    InitialScan,
    /// Request to scan the repositories that hold some paths.
    ScanPaths(PathSet),
    /// Request to stop. No event comes behind this one.
    Shutdown,
}

/// What an event is.
pub enum EventView {
    ReloadConfiguration,
    TimeMachineBackupFinished,
    InitialScan,
    ScanPaths(Seq<Seq<u8>>),
    Shutdown,
}

impl View for Event {
    type V = EventView;

    open spec fn view(&self) -> EventView {
        match *self {
            Event::ReloadConfiguration => EventView::ReloadConfiguration,
            Event::TimeMachineBackupFinished => EventView::TimeMachineBackupFinished,
            Event::InitialScan => EventView::InitialScan,
            Event::ScanPaths(paths) => EventView::ScanPaths(paths@),
            Event::Shutdown => EventView::Shutdown,
        }
    }
}

/// Events in the order in which they are to be handled.
pub type EventSet = SortedSet<Event>;

/// An event waits until a backup has finished.
pub open spec fn can_wait(event: EventView) -> bool {
    event is InitialScan || event is ScanPaths
}

/// Where an event stands among the kinds.
pub open spec fn event_rank(event: EventView) -> int {
    match event {
        EventView::ReloadConfiguration => 0,
        EventView::TimeMachineBackupFinished => 1,
        EventView::InitialScan => 2,
        EventView::ScanPaths(_) => 3,
        EventView::Shutdown => 4,
    }
}

/// The components of some paths.
pub open spec fn all_components(paths: Seq<Seq<u8>>) -> Seq<Seq<Seq<u8>>> {
    paths.map_values(|p: Seq<u8>| path::components(p))
}

/// The order of paths.
pub open spec fn path_order() -> spec_fn(Seq<Seq<u8>>, Seq<Seq<u8>>) -> bool {
    |x: Seq<Seq<u8>>, y: Seq<Seq<u8>>| path::components_before(x, y)
}

/// The order of paths is a strict total order.
pub proof fn paths_are_ordered()
    ensures
        order::strict_total(path_order()),
{
    let by_path = path_order();
    assert forall|x: Seq<Seq<u8>>| !#[trigger] by_path(x, x) by {
        <FilePath as Ordered>::before_is_irreflexive(x);
    }
    assert forall|x: Seq<Seq<u8>>, y: Seq<Seq<u8>>, z: Seq<Seq<u8>>| #[trigger]
        by_path(x, y) && #[trigger] by_path(y, z) implies by_path(x, z) by {
        <FilePath as Ordered>::before_is_transitive(x, y, z);
    }
    assert forall|x: Seq<Seq<u8>>, y: Seq<Seq<u8>>| #[trigger]
        by_path(x, y) || x == y || by_path(y, x) by {
        <FilePath as Ordered>::before_is_total(x, y);
    }
}

/// The paths of a request to scan them.
pub open spec fn event_paths(event: EventView) -> Seq<Seq<Seq<u8>>> {
    match event {
        EventView::ScanPaths(paths) => all_components(paths),
        _ => Seq::empty(),
    }
}

fn rank_of(event: &Event) -> (rank: u8)
    ensures
        rank == event_rank(event@),
{
    match event {
        Event::ReloadConfiguration => 0,
        Event::TimeMachineBackupFinished => 1,
        Event::InitialScan => 2,
        Event::ScanPaths(_) => 3,
        Event::Shutdown => 4,
    }
}

pub(crate) fn order_paths(a: &PathSet, b: &PathSet) -> (rank: Rank)
    ensures
        match rank {
            Rank::Less => order::lex_before(path_order(), all_components(a@), all_components(b@)),
            Rank::Equal => all_components(a@) == all_components(b@),
            Rank::Greater => order::lex_before(
                path_order(),
                all_components(b@),
                all_components(a@),
            ),
        },
{
    let ghost x = all_components(a@);
    let ghost y = all_components(b@);
    let mut i: usize = 0;
    while i < a.len() && i < b.len()
        invariant
            i <= a@.len(),
            i <= b@.len(),
            x == all_components(a@),
            y == all_components(b@),
            forall|j: int| 0 <= j < i ==> x[j] == y[j],
        decreases a@.len() - i,
    {
        assert(x[i as int] == path::components(a@[i as int]));
        assert(y[i as int] == path::components(b@[i as int]));
        match a.get(i).compare(b.get(i)) {
            Rank::Less => {
                assert(order::parts_at(path_order(), x, y, i as int));
                return Rank::Less;
            },
            Rank::Greater => {
                assert(order::parts_at(path_order(), y, x, i as int));
                return Rank::Greater;
            },
            Rank::Equal => {},
        }
        i = i + 1;
    }
    if i < b.len() {
        assert(order::parts_at(path_order(), x, y, i as int));
        Rank::Less
    } else if i < a.len() {
        assert(order::parts_at(path_order(), y, x, i as int));
        Rank::Greater
    } else {
        assert(x =~= y);
        Rank::Equal
    }
}

impl Ordered for Event {
    type Key = (int, Seq<Seq<Seq<u8>>>);

    open spec fn key(v: EventView) -> (int, Seq<Seq<Seq<u8>>>) {
        (event_rank(v), event_paths(v))
    }

    /// By kind, and requests to scan by their paths.
    open spec fn before(a: (int, Seq<Seq<Seq<u8>>>), b: (int, Seq<Seq<Seq<u8>>>)) -> bool {
        ||| a.0 < b.0
        ||| a.0 == b.0 && order::lex_before(path_order(), a.1, b.1)
    }

    proof fn before_is_irreflexive(a: (int, Seq<Seq<Seq<u8>>>)) {
        paths_are_ordered();
        order::lex_irreflexive(path_order(), a.1);
    }

    proof fn before_is_transitive(
        a: (int, Seq<Seq<Seq<u8>>>),
        b: (int, Seq<Seq<Seq<u8>>>),
        c: (int, Seq<Seq<Seq<u8>>>),
    ) {
        paths_are_ordered();
        if a.0 == b.0 && b.0 == c.0 {
            order::lex_transitive(path_order(), a.1, b.1, c.1);
        }
    }

    proof fn before_is_total(a: (int, Seq<Seq<Seq<u8>>>), b: (int, Seq<Seq<Seq<u8>>>)) {
        paths_are_ordered();
        order::lex_total(path_order(), a.1, b.1);
    }

    fn compare(&self, other: &Event) -> (rank: Rank) {
        let a: u8 = rank_of(self);
        let b: u8 = rank_of(other);
        if a < b {
            return Rank::Less;
        }
        if b < a {
            return Rank::Greater;
        }
        match (self, other) {
            (Event::ScanPaths(x), Event::ScanPaths(y)) => order_paths(x, y),
            _ => Rank::Equal,
        }
    }
}

impl Event {
    /// Whether the event can wait until a backup has finished.
    pub fn can_be_delayed(&self) -> (res: bool)
        ensures
            res == can_wait(self@),
    {
        match self {
            Event::ReloadConfiguration | Event::TimeMachineBackupFinished | Event::Shutdown => {
                false
            },
            Event::InitialScan | Event::ScanPaths(_) => true,
        }
    }
}

/// What is set aside: events other than requests to scan paths, and the paths to scan.
#[derive(Debug)]
pub struct Aside {
    pub events: EventSet,
    pub paths: PathSet,
}

/// What is set aside.
pub struct AsideView {
    pub events: Seq<EventView>,
    pub paths: Seq<Seq<u8>>,
}

impl View for Aside {
    type V = AsideView;

    open spec fn view(&self) -> AsideView {
        AsideView { events: self.events@, paths: self.paths@ }
    }
}

/// Nothing set aside.
pub open spec fn nothing_aside() -> AsideView {
    AsideView { events: Seq::empty(), paths: Seq::empty() }
}

/// With one more event set aside: the paths to scan are gathered.
pub open spec fn with_aside(aside: AsideView, event: EventView) -> AsideView {
    match event {
        EventView::ScanPaths(paths) => AsideView {
            events: aside.events,
            paths: sorted_set::extended::<FilePath>(aside.paths, paths),
        },
        event => AsideView {
            events: sorted_set::inserted::<Event>(aside.events, event),
            paths: aside.paths,
        },
    }
}

/// The events that stand for what was set aside, in their order.
pub open spec fn aside_events(aside: AsideView) -> Seq<EventView> {
    if aside.paths.len() > 0 {
        sorted_set::inserted::<Event>(aside.events, EventView::ScanPaths(aside.paths))
    } else {
        aside.events
    }
}

impl Aside {
    pub fn new() -> (aside: Aside)
        ensures
            aside@ == nothing_aside(),
    {
        Aside { events: EventSet::new(), paths: PathSet::new() }
    }

    /// Sets an event aside.
    pub fn collect(&mut self, event: Event)
        ensures
            final(self)@ == with_aside(old(self)@, event@),
    {
        match event {
            Event::ScanPaths(paths) => {
                self.paths.extend(paths);
            },
            event => {
                self.events.insert(event);
            },
        }
    }

    /// Takes what was set aside, as events in their order.
    pub fn release(&mut self) -> (events: Vec<Event>)
        ensures
            final(self)@ == nothing_aside(),
            sorted_set::item_views(events@) == aside_events(old(self)@),
    {
        if !self.paths.is_empty() {
            let paths = self.paths.take();
            self.events.insert(Event::ScanPaths(paths));
        }
        assert(self.paths@ =~= Seq::<Seq<u8>>::empty());
        self.events.take().into_items()
    }
}

/// What is set aside is in order, and holds requests to scan as paths only.
pub open spec fn is_aside(aside: AsideView) -> bool {
    &&& sorted_set::increasing::<Event>(aside.events)
    &&& sorted_set::increasing::<FilePath>(aside.paths)
    &&& forall|i: int| 0 <= i < aside.events.len() ==> !((#[trigger] aside.events[i]) is ScanPaths)
}

/// Nothing is set aside in order, and setting an event aside keeps the order.
pub proof fn aside_keeps_order(aside: AsideView, event: EventView)
    requires
        is_aside(aside),
    ensures
        is_aside(nothing_aside()),
        is_aside(with_aside(aside, event)),
{
    match event {
        EventView::ScanPaths(paths) => {
            sorted_set::extended_laws::<FilePath>(aside.paths, paths);
        },
        _ => {
            sorted_set::inserted_laws::<Event>(aside.events, event);
            let all = with_aside(aside, event).events;
            assert forall|i: int| 0 <= i < all.len() implies !((#[trigger] all[i])
                is ScanPaths) by {
                assert(all.contains(all[i]));
                if aside.events.contains(all[i]) {
                    let j = choose|j: int|
                        0 <= j < aside.events.len() && aside.events[j] == all[i];
                    assert(!(aside.events[j] is ScanPaths));
                }
            }
        },
    }
}

/// Every path that is set aside comes out in the one request to scan paths, with those that were
/// set aside before.
pub proof fn aside_loses_no_path(aside: AsideView, paths: Seq<Seq<u8>>, k: Seq<Seq<u8>>)
    requires
        is_aside(aside),
        sorted_set::has_key::<FilePath>(aside.paths, k) || sorted_set::has_key::<FilePath>(
            paths,
            k,
        ),
    ensures
        exists|i: int|
            0 <= i < aside_events(with_aside(aside, EventView::ScanPaths(paths))).len()
                && #[trigger] aside_events(with_aside(aside, EventView::ScanPaths(paths)))[i]
                == EventView::ScanPaths(with_aside(aside, EventView::ScanPaths(paths)).paths),
        sorted_set::has_key::<FilePath>(
            with_aside(aside, EventView::ScanPaths(paths)).paths,
            k,
        ),
{
    let after = with_aside(aside, EventView::ScanPaths(paths));
    sorted_set::extended_laws::<FilePath>(aside.paths, paths);
    assert(sorted_set::has_key::<FilePath>(after.paths, k));
    request_is_released(after);
}

/// The paths that are set aside come out in just one request.
pub proof fn request_is_released(aside: AsideView)
    requires
        is_aside(aside),
        aside.paths.len() > 0,
    ensures
        exists|i: int|
            0 <= i < aside_events(aside).len() && #[trigger] aside_events(aside)[i]
                == EventView::ScanPaths(aside.paths),
        forall|i: int|
            0 <= i < aside_events(aside).len() && (#[trigger] aside_events(aside)[i])
                is ScanPaths ==> aside_events(aside)[i] == EventView::ScanPaths(aside.paths),
{
    let request = EventView::ScanPaths(aside.paths);
    let all = aside_events(aside);
    let k = <Event as Ordered>::key(request);
    sorted_set::inserted_laws::<Event>(aside.events, request);
    assert(!sorted_set::has_key::<Event>(aside.events, k));
    assert(all.contains(request));
    assert forall|i: int| 0 <= i < all.len() && (#[trigger] all[i]) is ScanPaths implies all[i]
        == request by {
        assert(all.contains(all[i]));
        if aside.events.contains(all[i]) {
            let j = choose|j: int| 0 <= j < aside.events.len() && aside.events[j] == all[i];
            assert(!(aside.events[j] is ScanPaths));
        }
    }
}

/// Events other than requests to scan paths come out as they are in what was set aside.
pub proof fn aside_keeps_other_events(aside: AsideView, event: EventView)
    requires
        is_aside(aside),
        !(event is ScanPaths),
    ensures
        aside_events(aside).contains(event) <==> aside.events.contains(event),
        aside_events(with_aside(aside, event)).contains(event),
        aside.events.contains(event) ==> with_aside(aside, event) == aside,
{
    let after = with_aside(aside, event);
    let k = <Event as Ordered>::key(event);
    sorted_set::inserted_laws::<Event>(aside.events, event);
    aside_keeps_order(aside, event);
    sorted_set::inserted_laws::<Event>(aside.events, EventView::ScanPaths(aside.paths));
    sorted_set::inserted_laws::<Event>(after.events, EventView::ScanPaths(after.paths));
    if sorted_set::has_key::<Event>(aside.events, k) {
        let i = choose|i: int|
            0 <= i < aside.events.len() && <Event as Ordered>::key(#[trigger] aside.events[i])
                == k;
        assert(!(aside.events[i] is ScanPaths));
        assert(aside.events[i] == event);
    } else {
        if aside.events.contains(event) {
            let i = choose|i: int| 0 <= i < aside.events.len() && aside.events[i] == event;
            assert(<Event as Ordered>::key(aside.events[i]) == k);
        }
        assert(after.events.contains(event));
    }
}

/// Setting the same event aside twice is the same as once.
pub proof fn repeated_event_is_one(aside: AsideView, event: EventView)
    requires
        is_aside(aside),
        !(event is ScanPaths),
    ensures
        with_aside(with_aside(aside, event), event) == with_aside(aside, event),
{
    aside_keeps_order(aside, event);
    aside_keeps_other_events(aside, event);
    aside_keeps_other_events(with_aside(aside, event), event);
    sorted_set::inserted_laws::<Event>(
        with_aside(aside, event).events,
        EventView::ScanPaths(with_aside(aside, event).paths),
    );
}

/// The events come out in the order of their kinds, so that nothing comes behind a shutdown.
pub proof fn released_in_order(aside: AsideView)
    requires
        is_aside(aside),
    ensures
        forall|i: int, j: int|
            0 <= i < j < aside_events(aside).len() ==> event_rank(
                #[trigger] aside_events(aside)[i],
            ) < event_rank(#[trigger] aside_events(aside)[j]),
{
    let all = aside_events(aside);
    if aside.paths.len() > 0 {
        sorted_set::inserted_laws::<Event>(aside.events, EventView::ScanPaths(aside.paths));
        request_is_released(aside);
    }
    assert forall|i: int, j: int| 0 <= i < j < all.len() implies event_rank(#[trigger] all[i])
        < event_rank(#[trigger] all[j]) by {
        paths_are_ordered();
        assert(<Event as Ordered>::before(
            <Event as Ordered>::key(all[i]),
            <Event as Ordered>::key(all[j]),
        ));
        if event_rank(all[i]) == event_rank(all[j]) {
            assert(event_paths(all[i]) == event_paths(all[j]));
            order::lex_irreflexive(path_order(), event_paths(all[i]));
        }
    }
}

} // verus!
