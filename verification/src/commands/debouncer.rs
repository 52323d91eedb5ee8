//! The debouncer: it holds events back for a while, and hands on together what came meanwhile.
use vstd::prelude::*;

use crate::commands::event;
use crate::commands::event::{Aside, AsideView, Event, EventView};
use crate::duration;
use crate::duration::Duration;
use crate::path::FilePath;
use crate::sorted_set;

verus! {

/// The time for which events are held back until another one is set, in seconds.
pub const FIRST_DEBOUNCE_SECS: u64 = 2;

/// An order to the debouncer.
#[derive(Debug)]
pub enum DebouncerControl {
    SetDebounceDuration(Duration),
}

/// Something that the debouncer waits for.
#[derive(Debug)]
pub enum DebouncerInput {
    Event(Event),
    /// No more events will come.
    InputDropped,
    /// The time is over.
    Timeout,
    Control(DebouncerControl),
    /// No more orders will come.
    ControlDropped,
}

/// What the debouncer got.
pub enum InputView {
    Event(EventView),
    InputDropped,
    Timeout,
    SetDebounceDuration(int),
    ControlDropped,
}

impl View for DebouncerInput {
    type V = InputView;

    open spec fn view(&self) -> InputView {
        match *self {
            DebouncerInput::Event(event) => InputView::Event(event@),
            DebouncerInput::InputDropped => InputView::InputDropped,
            DebouncerInput::Timeout => InputView::Timeout,
            DebouncerInput::Control(DebouncerControl::SetDebounceDuration(d)) => {
                InputView::SetDebounceDuration(d@)
            },
            DebouncerInput::ControlDropped => InputView::ControlDropped,
        }
    }
}

/// The state of a debouncer.
pub struct DebouncerView {
    /// For how long events are held back, in nanoseconds.
    pub duration: int,
    /// When the events are due, if any are held back.
    pub due: Option<int>,
    /// What is held back.
    pub held: AsideView,
}

#[derive(Debug)]
pub struct Debouncer {
    duration: Duration,
    due: Option<Duration>,
    held: Aside,
}

impl View for Debouncer {
    type V = DebouncerView;

    closed spec fn view(&self) -> DebouncerView {
        DebouncerView {
            duration: self.duration@,
            due: match self.due {
                Some(moment) => Some(moment@),
                None => None,
            },
            held: self.held@,
        }
    }
}

/// What to wait for.
#[derive(Debug)]
pub struct Wait {
    /// For how long to wait, if events are held back.
    pub timeout: Option<Duration>,
    /// What to hand on before.
    pub send: Vec<Event>,
}

/// What came of an input.
#[derive(Debug)]
pub struct Step {
    /// What to hand on.
    pub send: Vec<Event>,
    /// Nothing more is to come.
    pub done: bool,
}

/// A new debouncer.
pub open spec fn new_debouncer() -> DebouncerView {
    DebouncerView {
        duration: duration::in_nanos(FIRST_DEBOUNCE_SECS as int, 0),
        due: None,
        held: event::nothing_aside(),
    }
}

/// The events are overdue.
pub open spec fn is_overdue(s: DebouncerView, now: int) -> bool {
    s.due matches Some(moment) && moment < now
}

/// With nothing held back.
pub open spec fn released(s: DebouncerView) -> DebouncerView {
    DebouncerView { duration: s.duration, due: None, held: event::nothing_aside() }
}

/// The moment a span after `now`; where there is no moment so late, `now`.
pub open spec fn due_after(now: int, span: int) -> int {
    if now + span > duration::longest() {
        now
    } else {
        now + span
    }
}

/// With one more event held back.
pub open spec fn holding(s: DebouncerView, got: EventView, now: int) -> DebouncerView {
    DebouncerView {
        duration: s.duration,
        due: match s.due {
            Some(moment) => Some(moment),
            None => Some(due_after(now, s.duration)),
        },
        held: event::with_aside(s.held, got),
    }
}

/// The state after an input.
pub open spec fn debouncer_after(s: DebouncerView, input: InputView, now: int) -> DebouncerView {
    match input {
        InputView::Event(EventView::Shutdown) => released(s),
        InputView::Event(got) => holding(s, got, now),
        InputView::InputDropped => released(s),
        InputView::Timeout => released(s),
        InputView::SetDebounceDuration(d) => DebouncerView {
            duration: d,
            due: s.due,
            held: s.held,
        },
        InputView::ControlDropped => s,
    }
}

/// What is handed on after an input.
pub open spec fn debouncer_sends(s: DebouncerView, input: InputView) -> Seq<EventView> {
    match input {
        InputView::Event(EventView::Shutdown) => event::aside_events(s.held).push(
            EventView::Shutdown,
        ),
        InputView::InputDropped | InputView::Timeout => event::aside_events(s.held),
        _ => Seq::empty(),
    }
}

/// Nothing more is to come after the input.
pub open spec fn ends_debouncer(input: InputView) -> bool {
    input == InputView::Event(EventView::Shutdown) || input is InputDropped
}

impl Debouncer {
    pub fn new() -> (debouncer: Debouncer)
        ensures
            debouncer@ == new_debouncer(),
    {
        Debouncer {
            duration: Duration::from_secs(FIRST_DEBOUNCE_SECS),
            due: None,
            held: Aside::new(),
        }
    }

    /// What to wait for now. Events that are overdue are to be handed on at once.
    pub fn wait(&mut self, now: Duration) -> (wait: Wait)
        ensures
            if is_overdue(old(self)@, now@) {
                &&& final(self)@ == released(old(self)@)
                &&& wait.timeout is None
                &&& sorted_set::item_views(wait.send@) == event::aside_events(old(self)@.held)
            } else {
                &&& final(self)@ == old(self)@
                &&& wait.send@.len() == 0
                &&& match old(self)@.due {
                    Some(moment) => wait.timeout is Some && wait.timeout->0@ == moment - now@,
                    None => wait.timeout is None,
                }
            },
    {
        match self.due {
            None => Wait { timeout: None, send: Vec::new() },
            Some(moment) => match moment.checked_sub(now) {
                Some(timeout) => Wait { timeout: Some(timeout), send: Vec::new() },
                None => {
                    self.due = None;
                    Wait { timeout: None, send: self.held.release() }
                },
            },
        }
    }

    /// Takes an input.
    pub fn step(&mut self, input: DebouncerInput, now: Duration) -> (step: Step)
        ensures
            final(self)@ == debouncer_after(old(self)@, input@, now@),
            sorted_set::item_views(step.send@) == debouncer_sends(old(self)@, input@),
            step.done == ends_debouncer(input@),
    {
        match input {
            DebouncerInput::Event(Event::Shutdown) => {
                self.due = None;
                let mut send = self.held.release();
                let ghost before = sorted_set::item_views(send@);
                send.push(Event::Shutdown);
                assert(sorted_set::item_views(send@) =~= before.push(EventView::Shutdown));
                Step { send, done: true }
            },
            DebouncerInput::Event(got) => {
                if self.due.is_none() {
                    self.due =
                    match now.checked_add(self.duration) {
                        Some(moment) => Some(moment),
                        None => Some(now),
                    };
                }
                self.held.collect(got);
                let send: Vec<Event> = Vec::new();
                assert(sorted_set::item_views(send@) =~= Seq::<EventView>::empty());
                Step { send, done: false }
            },
            DebouncerInput::InputDropped => {
                self.due = None;
                Step { send: self.held.release(), done: true }
            },
            DebouncerInput::Timeout => {
                self.due = None;
                Step { send: self.held.release(), done: false }
            },
            DebouncerInput::Control(DebouncerControl::SetDebounceDuration(duration)) => {
                self.duration = duration;
                let send: Vec<Event> = Vec::new();
                assert(sorted_set::item_views(send@) =~= Seq::<EventView>::empty());
                Step { send, done: false }
            },
            DebouncerInput::ControlDropped => {
                let send: Vec<Event> = Vec::new();
                assert(sorted_set::item_views(send@) =~= Seq::<EventView>::empty());
                Step { send, done: false }
            },
        }
    }
}

/// What a debouncer holds back is in order, and a shutdown is never held back.
pub open spec fn is_debouncer(s: DebouncerView) -> bool {
    &&& event::is_aside(s.held)
    &&& forall|i: int| 0 <= i < s.held.events.len() ==> !((#[trigger] s.held.events[i]) is Shutdown)
    &&& s.due is None ==> event::aside_events(s.held).len() == 0
}

/// A new debouncer holds nothing back, and every input keeps what it holds in order; what it
/// holds back is always due.
pub proof fn debouncer_is_kept(s: DebouncerView, input: InputView, now: int)
    requires
        is_debouncer(s),
    ensures
        is_debouncer(new_debouncer()),
        is_debouncer(released(s)),
        is_debouncer(debouncer_after(s, input, now)),
{
    event::aside_keeps_order(s.held, EventView::InitialScan);
    if let InputView::Event(got) = input {
        event::aside_keeps_order(s.held, got);
        if !(got is ScanPaths) && !(got is Shutdown) {
            sorted_set::inserted_laws::<Event>(s.held.events, got);
            let all = event::with_aside(s.held, got).events;
            assert forall|i: int| 0 <= i < all.len() implies !((#[trigger] all[i])
                is Shutdown) by {
                assert(all.contains(all[i]));
                if s.held.events.contains(all[i]) {
                    let j = choose|j: int|
                        0 <= j < s.held.events.len() && s.held.events[j] == all[i];
                    assert(!(s.held.events[j] is Shutdown));
                }
            }
        }
    }
}

/// A shutdown is handed on as the last event, once, behind all that was held back.
pub proof fn shutdown_is_last(s: DebouncerView)
    requires
        is_debouncer(s),
    ensures
        ({
            let sent = debouncer_sends(s, InputView::Event(EventView::Shutdown));
            &&& sent.last() == EventView::Shutdown
            &&& sent.drop_last() == event::aside_events(s.held)
            &&& forall|i: int| 0 <= i < sent.len() - 1 ==> !((#[trigger] sent[i]) is Shutdown)
        }),
{
    let held = event::aside_events(s.held);
    let sent = debouncer_sends(s, InputView::Event(EventView::Shutdown));
    assert(sent.drop_last() =~= held);
    assert forall|i: int| 0 <= i < sent.len() - 1 implies !((#[trigger] sent[i]) is Shutdown) by {
        assert(held[i] == sent[i]);
        assert(held.contains(sent[i]));
        if sent[i] is Shutdown {
            event::aside_keeps_other_events(s.held, sent[i]);
            let j = choose|j: int| 0 <= j < s.held.events.len() && s.held.events[j] == sent[i];
            assert(!(s.held.events[j] is Shutdown));
        }
    }
}

/// Events are handed on only when their time is over or when nothing more is to come; until
/// then they are held back, and the moment at which they are due does not move.
pub proof fn events_are_held_until_due(s: DebouncerView, got: EventView, now: int)
    requires
        is_debouncer(s),
        !(got is Shutdown),
    ensures
        debouncer_sends(s, InputView::Event(got)).len() == 0,
        debouncer_after(s, InputView::Event(got), now).held == event::with_aside(s.held, got),
        debouncer_after(s, InputView::Event(got), now).due is Some,
        s.due is Some ==> debouncer_after(s, InputView::Event(got), now).due == s.due,
{
}

/// Every path that a debouncer was asked to scan comes out when the events are due.
pub proof fn no_path_is_lost(
    s: DebouncerView,
    paths: Seq<Seq<u8>>,
    k: Seq<Seq<u8>>,
    now: int,
)
    requires
        is_debouncer(s),
        sorted_set::has_key::<FilePath>(s.held.paths, k) || sorted_set::has_key::<FilePath>(
            paths,
            k,
        ),
    ensures
        ({
            let after = debouncer_after(s, InputView::Event(EventView::ScanPaths(paths)), now);
            let sent = debouncer_sends(after, InputView::Timeout);
            exists|i: int|
                #![trigger sent[i]]
                0 <= i < sent.len() && sent[i] == EventView::ScanPaths(after.held.paths)
                    && sorted_set::has_key::<FilePath>(after.held.paths, k)
        }),
{
    event::aside_loses_no_path(s.held, paths, k);
    let after = debouncer_after(s, InputView::Event(EventView::ScanPaths(paths)), now);
    let sent = debouncer_sends(after, InputView::Timeout);
    assert(sent == event::aside_events(event::with_aside(s.held, EventView::ScanPaths(paths))));
    let i = choose|i: int|
        0 <= i < sent.len() && #[trigger] sent[i] == EventView::ScanPaths(after.held.paths);
    assert(sent[i] == EventView::ScanPaths(after.held.paths));
}

/// Every other event comes out as it is when the events are due.
pub proof fn no_event_is_lost(s: DebouncerView, got: EventView, now: int)
    requires
        is_debouncer(s),
        !(got is ScanPaths),
        !(got is Shutdown),
    ensures
        debouncer_sends(
            debouncer_after(s, InputView::Event(got), now),
            InputView::Timeout,
        ).contains(got),
{
    event::aside_keeps_other_events(s.held, got);
}

/// The same event twice in the time for which events are held back comes out once.
pub proof fn repeated_event_is_debounced(s: DebouncerView, got: EventView, now: int, later: int)
    requires
        is_debouncer(s),
        !(got is ScanPaths),
        !(got is Shutdown),
    ensures
        ({
            let once = debouncer_after(s, InputView::Event(got), now);
            let twice = debouncer_after(once, InputView::Event(got), later);
            twice == once
        }),
{
    event::repeated_event_is_one(s.held, got);
}

} // verus!
