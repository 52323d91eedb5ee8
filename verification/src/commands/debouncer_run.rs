//! What a debouncer does from its beginning to its end.
use vstd::prelude::*;

use crate::commands::debouncer;
use crate::commands::debouncer::{DebouncerView, InputView};
use crate::commands::event;
use crate::commands::event::{AsideView, Event, EventView};
use crate::path::FilePath;
use crate::sorted_set;

verus! {

/// One round of a debouncer: the moment at which it begins to wait, what it gets, and when.
pub struct Round {
    pub waits_at: int,
    pub input: InputView,
    pub now: int,
}

/// The state in which a debouncer waits.
pub open spec fn waiting(s: DebouncerView, now: int) -> DebouncerView {
    if debouncer::is_overdue(s, now) {
        debouncer::released(s)
    } else {
        s
    }
}

/// What is handed on before a debouncer waits.
pub open spec fn sent_before_waiting(s: DebouncerView, now: int) -> Seq<EventView> {
    if debouncer::is_overdue(s, now) {
        event::aside_events(s.held)
    } else {
        Seq::empty()
    }
}

/// The state of a new debouncer after some rounds.
pub open spec fn state_after(rounds: Seq<Round>) -> DebouncerView
    decreases rounds.len(),
{
    if rounds.len() == 0 {
        debouncer::new_debouncer()
    } else {
        let round = rounds.last();
        debouncer::debouncer_after(
            waiting(state_after(rounds.drop_last()), round.waits_at),
            round.input,
            round.now,
        )
    }
}

/// All that a new debouncer hands on in some rounds.
pub open spec fn sent_in(rounds: Seq<Round>) -> Seq<EventView>
    decreases rounds.len(),
{
    if rounds.len() == 0 {
        Seq::empty()
    } else {
        let round = rounds.last();
        let s = state_after(rounds.drop_last());
        sent_in(rounds.drop_last()) + sent_before_waiting(s, round.waits_at)
            + debouncer::debouncer_sends(waiting(s, round.waits_at), round.input)
    }
}

/// The events that a debouncer gets in some rounds.
pub open spec fn received_in(rounds: Seq<Round>) -> Seq<EventView>
    decreases rounds.len(),
{
    if rounds.len() == 0 {
        Seq::empty()
    } else {
        let init = received_in(rounds.drop_last());
        match rounds.last().input {
            InputView::Event(got) => init.push(got),
            _ => init,
        }
    }
}

/// None of the rounds ends the debouncer.
pub open spec fn goes_on(rounds: Seq<Round>) -> bool {
    forall|i: int|
        0 <= i < rounds.len() ==> !debouncer::ends_debouncer((#[trigger] rounds[i]).input)
}

/// The event asks to scan a path with these components.
pub open spec fn asks_for(got: EventView, k: Seq<Seq<u8>>) -> bool {
    got matches EventView::ScanPaths(paths) && sorted_set::has_key::<FilePath>(paths, k)
}

/// One of the events asks to scan a path with these components.
pub open spec fn one_asks_for(events: Seq<EventView>, k: Seq<Seq<u8>>) -> bool {
    exists|i: int| 0 <= i < events.len() && asks_for(#[trigger] events[i], k)
}

/// No event asks to scan no path at all.
pub open spec fn all_ask_for_some(events: Seq<EventView>) -> bool {
    forall|i: int|
        0 <= i < events.len() ==> ((#[trigger] events[i]) matches EventView::ScanPaths(paths)
            ==> paths.len() > 0)
}

/// None of the events is a shutdown.
pub open spec fn no_shutdown(events: Seq<EventView>) -> bool {
    forall|i: int| 0 <= i < events.len() ==> !((#[trigger] events[i]) is Shutdown)
}

/// How often an event is among some.
pub open spec fn count_of(events: Seq<EventView>, e: EventView) -> nat
    decreases events.len(),
{
    if events.len() == 0 {
        0
    } else {
        count_of(events.drop_last(), e) + (if events.last() == e {
            1nat
        } else {
            0nat
        })
    }
}

proof fn count_of_both(a: Seq<EventView>, b: Seq<EventView>, e: EventView)
    ensures
        count_of(a + b, e) == count_of(a, e) + count_of(b, e),
    decreases b.len(),
{
    if b.len() == 0 {
        assert(a + b =~= a);
    } else {
        count_of_both(a, b.drop_last(), e);
        assert((a + b).drop_last() =~= a + b.drop_last());
    }
}

proof fn count_of_distinct(events: Seq<EventView>, e: EventView)
    requires
        events.no_duplicates(),
    ensures
        count_of(events, e) == (if events.contains(e) {
            1nat
        } else {
            0nat
        }),
    decreases events.len(),
{
    if events.len() > 0 {
        let init = events.drop_last();
        count_of_distinct(init, e);
        assert(events =~= init.push(events.last()));
        vstd::seq_lib::lemma_seq_contains_after_push(init, events.last(), e);
        if init.contains(e) {
            let i = choose|i: int| 0 <= i < init.len() && init[i] == e;
            assert(events[i] == e && events[events.len() - 1] == events.last());
        }
    }
}

proof fn both_ask(a: Seq<EventView>, b: Seq<EventView>, k: Seq<Seq<u8>>, e: EventView)
    ensures
        one_asks_for(a + b, k) <==> one_asks_for(a, k) || one_asks_for(b, k),
        all_ask_for_some(a) && all_ask_for_some(b) ==> all_ask_for_some(a + b),
        no_shutdown(a) && no_shutdown(b) ==> no_shutdown(a + b),
        (a + b).contains(e) <==> a.contains(e) || b.contains(e),
{
    let all = a + b;
    if one_asks_for(all, k) {
        let i = choose|i: int| 0 <= i < all.len() && asks_for(#[trigger] all[i], k);
        if i < a.len() {
            assert(asks_for(a[i], k));
        } else {
            assert(asks_for(b[i - a.len()], k));
        }
    }
    if one_asks_for(a, k) {
        let i = choose|i: int| 0 <= i < a.len() && asks_for(#[trigger] a[i], k);
        assert(asks_for(all[i], k));
    }
    if one_asks_for(b, k) {
        let i = choose|i: int| 0 <= i < b.len() && asks_for(#[trigger] b[i], k);
        assert(asks_for(all[a.len() + i], k));
    }
    assert(all.contains(e) <==> a.contains(e) || b.contains(e)) by {
        if a.contains(e) {
            let i = choose|i: int| 0 <= i < a.len() && a[i] == e;
            assert(all[i] == e);
        }
        if b.contains(e) {
            let i = choose|i: int| 0 <= i < b.len() && b[i] == e;
            assert(all[a.len() + i] == e);
        }
    }
}

/// What comes out of what was held back.
proof fn released_events(held: AsideView, k: Seq<Seq<u8>>, e: EventView)
    requires
        event::is_aside(held),
        no_shutdown(held.events),
    ensures
        one_asks_for(event::aside_events(held), k) <==> sorted_set::has_key::<FilePath>(
            held.paths,
            k,
        ),
        all_ask_for_some(event::aside_events(held)),
        no_shutdown(event::aside_events(held)),
        !(e is ScanPaths) ==> (event::aside_events(held).contains(e) <==> held.events.contains(e)),
        !(e is ScanPaths) ==> count_of(event::aside_events(held), e) == (if held.events.contains(
            e,
        ) {
            1nat
        } else {
            0nat
        }),
{
    let all = event::aside_events(held);
    event::released_in_order(held);
    assert(all.no_duplicates()) by {
        assert forall|i: int, j: int| 0 <= i < all.len() && 0 <= j < all.len() && i != j implies
            all[i] != all[j] by {
            if i < j {
                assert(event::event_rank(all[i]) < event::event_rank(all[j]));
            } else {
                assert(event::event_rank(all[j]) < event::event_rank(all[i]));
            }
        }
    }
    count_of_distinct(all, e);
    if !(e is ScanPaths) {
        event::aside_keeps_other_events(held, e);
    }
    if held.paths.len() > 0 {
        event::request_is_released(held);
        let r = choose|i: int|
            0 <= i < all.len() && #[trigger] all[i] == EventView::ScanPaths(held.paths);
        assert(all[r] == EventView::ScanPaths(held.paths));
        if one_asks_for(all, k) {
            let i = choose|i: int| 0 <= i < all.len() && asks_for(#[trigger] all[i], k);
            assert(all[i] is ScanPaths);
        }
        if sorted_set::has_key::<FilePath>(held.paths, k) {
            assert(asks_for(all[r], k));
        }
    }
    assert forall|i: int| 0 <= i < all.len() implies !((#[trigger] all[i]) is Shutdown) by {
        if all[i] is Shutdown {
            assert(all.contains(all[i]));
            event::aside_keeps_other_events(held, all[i]);
            let j = choose|j: int| 0 <= j < held.events.len() && held.events[j] == all[i];
            assert(!(held.events[j] is Shutdown));
        }
    }
}

/// What was received was handed on or is held back.
spec fn is_settled(
    s: DebouncerView,
    sent: Seq<EventView>,
    received: Seq<EventView>,
    k: Seq<Seq<u8>>,
    e: EventView,
) -> bool {
    &&& debouncer::is_debouncer(s)
    &&& one_asks_for(received, k) <==> one_asks_for(sent, k) || sorted_set::has_key::<FilePath>(
        s.held.paths,
        k,
    )
    &&& all_ask_for_some(sent)
    &&& no_shutdown(sent)
    &&& !(e is ScanPaths) ==> {
        &&& count_of(sent, e) + (if s.held.events.contains(e) {
            1int
        } else {
            0int
        }) <= count_of(received, e)
        &&& received.contains(e) ==> sent.contains(e) || s.held.events.contains(e)
    }
}

/// Handing on all that is held back keeps it so.
proof fn release_settles(
    s: DebouncerView,
    sent: Seq<EventView>,
    received: Seq<EventView>,
    k: Seq<Seq<u8>>,
    e: EventView,
)
    requires
        is_settled(s, sent, received, k, e),
    ensures
        is_settled(
            debouncer::released(s),
            sent + event::aside_events(s.held),
            received,
            k,
            e,
        ),
{
    let out = event::aside_events(s.held);
    released_events(s.held, k, e);
    both_ask(sent, out, k, e);
    count_of_both(sent, out, e);
    debouncer::debouncer_is_kept(s, InputView::Timeout, 0);
}

proof fn round_settles(rounds: Seq<Round>, k: Seq<Seq<u8>>, e: EventView)
    requires
        goes_on(rounds),
    ensures
        is_settled(state_after(rounds), sent_in(rounds), received_in(rounds), k, e),
    decreases rounds.len(),
{
    if rounds.len() == 0 {
        event::aside_keeps_order(event::nothing_aside(), EventView::InitialScan);
        debouncer::debouncer_is_kept(debouncer::new_debouncer(), InputView::Timeout, 0);
    } else {
        let init = rounds.drop_last();
        let round = rounds.last();
        assert(rounds[rounds.len() - 1] == round);
        assert(goes_on(init)) by {
            assert forall|i: int| 0 <= i < init.len() implies !debouncer::ends_debouncer(
                (#[trigger] init[i]).input,
            ) by {
                assert(rounds[i] == init[i]);
            }
        }
        round_settles(init, k, e);
        let s = state_after(init);
        let received = received_in(init);
        let w = waiting(s, round.waits_at);
        let sent = sent_in(init) + sent_before_waiting(s, round.waits_at);
        assert(is_settled(w, sent, received, k, e)) by {
            if debouncer::is_overdue(s, round.waits_at) {
                release_settles(s, sent_in(init), received, k, e);
            } else {
                assert(sent =~= sent_in(init));
            }
        }
        debouncer::debouncer_is_kept(w, round.input, round.now);
        match round.input {
            InputView::Timeout => {
                release_settles(w, sent, received, k, e);
            },
            InputView::Event(got) => {
                assert(sent_in(rounds) =~= sent);
                let now = received.push(got);
                assert(now =~= received + seq![got]);
                both_ask(received, seq![got], k, e);
                count_of_both(received, seq![got], e);
                assert(seq![got].drop_last() =~= Seq::<EventView>::empty());
                reveal_with_fuel(count_of, 2);
                assert(count_of(seq![got], e) == (if got == e {
                    1nat
                } else {
                    0nat
                }));
                assert(one_asks_for(seq![got], k) <==> asks_for(got, k)) by {
                    assert(seq![got][0] == got);
                }
                assert(seq![got].contains(e) <==> got == e) by {
                    assert(seq![got][0] == got);
                }
                if let EventView::ScanPaths(paths) = got {
                    sorted_set::extended_laws::<FilePath>(w.held.paths, paths);
                } else {
                    event::aside_keeps_other_events(w.held, got);
                    sorted_set::inserted_laws::<Event>(w.held.events, got);
                    let after = event::with_aside(w.held, got);
                    event::aside_keeps_order(w.held, got);
                    event::aside_keeps_other_events(after, got);
                }
            },
            _ => {
                assert(sent_in(rounds) =~= sent);
            },
        }
    }
}

/// A debouncer that gets some events up to a shutdown, or until no more will come, hands on what
/// it got: the paths in its requests are those in the requests that it got, and no request is for
/// no path; every other event comes out at least once, and not more often than it came in; a
/// shutdown comes out once and last, if it came in, and else not at all.
pub proof fn everything_comes_out(rounds: Seq<Round>, k: Seq<Seq<u8>>, e: EventView)
    requires
        rounds.len() > 0,
        goes_on(rounds.drop_last()),
        debouncer::ends_debouncer(rounds.last().input),
    ensures
        one_asks_for(sent_in(rounds), k) <==> one_asks_for(received_in(rounds), k),
        all_ask_for_some(sent_in(rounds)),
        !(e is ScanPaths) && !(e is Shutdown) ==> {
            &&& received_in(rounds).contains(e) ==> sent_in(rounds).contains(e)
            &&& count_of(sent_in(rounds), e) <= count_of(received_in(rounds), e)
        },
        if received_in(rounds).contains(EventView::Shutdown) {
            &&& sent_in(rounds).len() > 0
            &&& sent_in(rounds).last() == EventView::Shutdown
            &&& no_shutdown(sent_in(rounds).drop_last())
        } else {
            no_shutdown(sent_in(rounds))
        },
{
    let init = rounds.drop_last();
    let round = rounds.last();
    let s = state_after(init);
    let received = received_in(init);
    let w = waiting(s, round.waits_at);
    let sent = sent_in(init) + sent_before_waiting(s, round.waits_at);
    let out = event::aside_events(w.held);
    round_settles(init, k, e);
    round_settles(init, k, EventView::Shutdown);
    if debouncer::is_overdue(s, round.waits_at) {
        release_settles(s, sent_in(init), received, k, e);
    } else {
        assert(sent =~= sent_in(init));
    }
    release_settles(w, sent, received, k, e);
    let all = sent + out;
    no_shutdown_received(init);
    if round.input is InputDropped {
        assert(sent_in(rounds) == all);
        assert(!received.contains(EventView::Shutdown)) by {
            if received.contains(EventView::Shutdown) {
                let i = choose|i: int|
                    0 <= i < received.len() && received[i] == EventView::Shutdown;
                assert(!(received[i] is Shutdown));
            }
        }
    } else {
        let last = seq![EventView::Shutdown];
        assert(sent_in(rounds) =~= all + last);
        assert(received_in(rounds) =~= received + last);
        both_ask(all, last, k, e);
        both_ask(received, last, k, e);
        both_ask(received, last, k, EventView::Shutdown);
        count_of_both(all, last, e);
        count_of_both(received, last, e);
        assert(last.drop_last() =~= Seq::<EventView>::empty());
        assert(last[0] == EventView::Shutdown);
        assert(last.contains(EventView::Shutdown));
        assert(sent_in(rounds).drop_last() =~= all);
        assert(!one_asks_for(last, k));
        assert(all_ask_for_some(last));
    }
}

proof fn no_shutdown_received(rounds: Seq<Round>)
    requires
        goes_on(rounds),
    ensures
        no_shutdown(received_in(rounds)),
    decreases rounds.len(),
{
    if rounds.len() > 0 {
        let init = rounds.drop_last();
        assert(rounds[rounds.len() - 1] == rounds.last());
        assert forall|i: int| 0 <= i < init.len() implies !debouncer::ends_debouncer(
            (#[trigger] init[i]).input,
        ) by {
            assert(rounds[i] == init[i]);
        }
        no_shutdown_received(init);
    }
}

} // verus!
