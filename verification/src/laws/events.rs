//! Laws of the events, of what holds them back, and of what is done for them.
use vstd::prelude::*;

use crate::commands::debouncer;
use crate::commands::debouncer::{DebouncerView, InputView};
use crate::commands::eager_monitor;
use crate::commands::event;
use crate::commands::event::{AsideView, Event, EventView};
use crate::commands::monitor;
use crate::commands::monitor::{BackupsView, MonitorView, OrderView, WorkView};
use crate::commands::watcher::MonitorControlView;
use crate::config::ConfigView;
use crate::diff;
use crate::order::Ordered;
use crate::path::FilePath;
use crate::report;
use crate::report::Level;
use crate::sorted_set;

verus! {

/// A request to scan, of everything or of some paths, can wait; nothing else can.
pub proof fn scans_can_wait(paths: Seq<Seq<u8>>)
    ensures
        event::can_wait(EventView::InitialScan),
        event::can_wait(EventView::ScanPaths(paths)),
        !event::can_wait(EventView::ReloadConfiguration),
        !event::can_wait(EventView::TimeMachineBackupFinished),
        !event::can_wait(EventView::Shutdown),
{
}

/// The configuration is reloaded first, then the end of a backup counts, then everything is
/// scanned, then some paths are, and a shutdown is last.
pub proof fn kinds_in_order(paths: Seq<Seq<u8>>)
    ensures
        ({
            let reload = <Event as Ordered>::key(EventView::ReloadConfiguration);
            let finished = <Event as Ordered>::key(EventView::TimeMachineBackupFinished);
            let all = <Event as Ordered>::key(EventView::InitialScan);
            let some = <Event as Ordered>::key(EventView::ScanPaths(paths));
            let shutdown = <Event as Ordered>::key(EventView::Shutdown);
            &&& <Event as Ordered>::before(reload, finished)
            &&& <Event as Ordered>::before(finished, all)
            &&& <Event as Ordered>::before(all, some)
            &&& <Event as Ordered>::before(some, shutdown)
        }),
{
}

/// Setting a request for paths aside adds its paths and no event; setting another event aside adds
/// that event and no path.
pub proof fn what_is_set_aside(
    aside: AsideView,
    paths: Seq<Seq<u8>>,
    other: EventView,
    e: EventView,
    k: Seq<Seq<u8>>,
)
    requires
        event::is_aside(aside),
        !(other is ScanPaths),
        !(e is ScanPaths),
    ensures
        ({
            let after = event::with_aside(aside, EventView::ScanPaths(paths));
            &&& after.events == aside.events
            &&& diff::lists(after.paths, k) <==> diff::lists(aside.paths, k) || diff::lists(paths, k)
        }),
        ({
            let after = event::with_aside(aside, other);
            &&& after.paths == aside.paths
            &&& after.events.contains(e) <==> aside.events.contains(e) || e == other
        }),
{
    sorted_set::extended_laws::<FilePath>(aside.paths, paths);
    assert(diff::lists(event::with_aside(aside, EventView::ScanPaths(paths)).paths, k)
        <==> sorted_set::has_key::<FilePath>(aside.paths, k) || sorted_set::has_key::<FilePath>(
        paths,
        k,
    ));
    sorted_set::inserted_laws::<Event>(aside.events, other);
    event::aside_keeps_order(aside, other);
    event::aside_keeps_other_events(aside, other);
    let after = event::with_aside(aside, other);
    event::aside_keeps_other_events(after, other);
}

/// What was set aside comes out whole: every event, and the paths in one request, if there are any.
pub proof fn what_comes_out(aside: AsideView, e: EventView)
    requires
        event::is_aside(aside),
    ensures
        !(e is ScanPaths) ==> (event::aside_events(aside).contains(e) <==> aside.events.contains(
            e,
        )),
        e is ScanPaths ==> (event::aside_events(aside).contains(e) <==> e == EventView::ScanPaths(
            aside.paths,
        ) && aside.paths.len() > 0),
{
    let all = event::aside_events(aside);
    if !(e is ScanPaths) {
        event::aside_keeps_other_events(aside, e);
    } else if aside.paths.len() > 0 {
        event::request_is_released(aside);
        let i = choose|i: int|
            0 <= i < all.len() && #[trigger] all[i] == EventView::ScanPaths(aside.paths);
        assert(all.contains(all[i]));
        if all.contains(e) {
            let j = choose|j: int| 0 <= j < all.len() && all[j] == e;
            assert(all[j] is ScanPaths);
        }
    } else if all.contains(e) {
        let j = choose|j: int| 0 <= j < all.len() && all[j] == e;
        assert(!(aside.events[j] is ScanPaths));
    }
}

/// The first event that is held back is due when the time for which events are held back has
/// passed; where there is no moment so late, it is due at once. A later one does not move the
/// moment.
pub proof fn events_are_due_in_time(
    s: DebouncerView,
    got: EventView,
    now: int,
    d: int,
)
    requires
        !(got is Shutdown),
    ensures
        ({
            let after = debouncer::debouncer_after(s, InputView::Event(got), now);
            let latest = u64::MAX * 1_000_000_000 + 999_999_999;
            &&& s.due is None && now + s.duration <= latest ==> after.due == Some(now + s.duration)
            &&& s.due is None && now + s.duration > latest ==> after.due == Some(now)
            &&& s.due is Some ==> after.due == s.due
            &&& after.duration == s.duration
            &&& debouncer::debouncer_sends(s, InputView::Event(got)).len() == 0
        }),
        ({
            let after = debouncer::debouncer_after(s, InputView::SetDebounceDuration(d), now);
            &&& after.duration == d
            &&& after.due == s.due
            &&& after.held == s.held
            &&& debouncer::debouncer_sends(s, InputView::SetDebounceDuration(d)).len() == 0
        }),
        debouncer::debouncer_after(s, InputView::ControlDropped, now) == s,
        debouncer::new_debouncer().duration == 2_000_000_000,
        debouncer::new_debouncer().due is None,
        debouncer::is_overdue(s, now) <==> s.due is Some && s.due->0 < now,
{
}

/// When the time is over, and when no more events will come, all that was held back is handed on
/// and nothing is held back any more. A shutdown is handed on behind it. Only a shutdown and the
/// end of the events end the debouncer.
pub proof fn held_events_are_handed_on(s: DebouncerView, input: InputView, now: int)
    ensures
        input is Timeout || input is InputDropped ==> debouncer::debouncer_sends(s, input)
            == event::aside_events(s.held),
        input == InputView::Event(EventView::Shutdown) ==> debouncer::debouncer_sends(s, input)
            == event::aside_events(s.held) + seq![EventView::Shutdown],
        input is Timeout || input is InputDropped || input == InputView::Event(
            EventView::Shutdown,
        ) ==> {
            let after = debouncer::debouncer_after(s, input, now);
            &&& after.due is None
            &&& after.held.events.len() == 0
            &&& after.held.paths.len() == 0
            &&& after.duration == s.duration
        },
        debouncer::ends_debouncer(input) <==> input is InputDropped || input == InputView::Event(
            EventView::Shutdown,
        ),
{
    assert(event::aside_events(s.held).push(EventView::Shutdown) =~= event::aside_events(s.held)
        + seq![EventView::Shutdown]);
}

/// Every event is answered with its own work.
pub proof fn work_for_every_event(paths: Seq<Seq<u8>>)
    ensures
        monitor::work_for(EventView::ReloadConfiguration) is Reload,
        monitor::work_for(EventView::InitialScan) is Scan,
        monitor::work_for(EventView::ScanPaths(paths)) == WorkView::Rescan(paths),
        monitor::work_for(EventView::TimeMachineBackupFinished) is Nothing,
        monitor::work_for(EventView::Shutdown) is Stop,
{
}

/// A request to scan is set aside while a backup is known to run, and where it turns out that one
/// runs, which is asked just where none is known to run; otherwise it is handled at once.
pub proof fn scans_wait_for_backups(
    s: BackupsView,
    request: EventView,
    backup_runs: bool,
)
    requires
        request is InitialScan || request is ScanPaths,
    ensures
        monitor::asks_for_status(s, request) <==> !s.is_timemachine_running,
        monitor::backup_starts(s, request, backup_runs) <==> !s.is_timemachine_running
            && backup_runs,
        s.is_timemachine_running || backup_runs ==> {
            let after = monitor::backups_after(s, request, backup_runs);
            &&& monitor::handled(s, request, backup_runs).len() == 0
            &&& after.is_timemachine_running
            &&& after.delayed == event::with_aside(s.delayed, request)
        },
        !s.is_timemachine_running && !backup_runs ==> {
            &&& monitor::handled(s, request, backup_runs) == seq![request]
            &&& monitor::backups_after(s, request, backup_runs) == s
        },
{
}

/// A reload and a shutdown are handled at once, and Time Machine is not asked for them. When a
/// backup has finished, what was set aside is handled, nothing is set aside, and no backup is
/// known to run.
pub proof fn other_events_do_not_wait(s: BackupsView, other: EventView, backup_runs: bool)
    requires
        other is ReloadConfiguration || other is Shutdown || other is TimeMachineBackupFinished,
    ensures
        !monitor::asks_for_status(s, other),
        !monitor::backup_starts(s, other, backup_runs),
        !(other is TimeMachineBackupFinished) ==> {
            &&& monitor::handled(s, other, backup_runs) == seq![other]
            &&& monitor::backups_after(s, other, backup_runs) == s
            &&& monitor::backup_messages(s, other, backup_runs).len() == 0
        },
        other is TimeMachineBackupFinished ==> {
            let after = monitor::backups_after(s, other, backup_runs);
            &&& monitor::handled(s, other, backup_runs) == event::aside_events(s.delayed)
            &&& !after.is_timemachine_running
            &&& after.delayed.events.len() == 0
            &&& after.delayed.paths.len() == 0
            &&& monitor::backup_messages(s, other, backup_runs) == seq![
                report::message(Level::Info, "Time Machine backup finished"@),
            ]
        },
        !monitor::no_backup().is_timemachine_running,
{
    let said = monitor::backup_messages(s, other, backup_runs);
    if other is TimeMachineBackupFinished {
        assert(said =~= seq![report::message(Level::Info, "Time Machine backup finished"@)]);
    }
}

/// The monitor begins with a scan of everything, and orders to watch the configuration file, the
/// file with the patterns for everywhere, if there is one, and the directories, and to hold events
/// back for the time in the configuration.
pub proof fn monitor_begins(config_file: Seq<u8>, global_gitignore: Seq<u8>, config: ConfigView)
    ensures
        ({
            let watch_config = OrderView::Monitor(
                MonitorControlView::SetConfigurationFile(config_file),
            );
            let watch_gitignore = OrderView::Monitor(
                MonitorControlView::SetGlobalGitIgnore(global_gitignore),
            );
            let watch = OrderView::Monitor(
                MonitorControlView::SetWatchedPaths(config.search_directories),
            );
            let hold = OrderView::SetDebounceDuration(config.debounce_duration);
            &&& monitor::started(config_file, Some(global_gitignore), config) == (MonitorView {
                pending_events: seq![EventView::InitialScan],
                orders: seq![watch_config, watch_gitignore, watch, hold],
            })
            &&& monitor::started(config_file, None, config) == (MonitorView {
                pending_events: seq![EventView::InitialScan],
                orders: seq![watch_config, watch, hold],
            })
        }),
{
    let none = Seq::<EventView>::empty();
    let first = sorted_set::inserted::<Event>(none, EventView::InitialScan);
    assert(!sorted_set::has_key::<Event>(
        none,
        <Event as Ordered>::key(EventView::InitialScan),
    ));
    assert(first =~= seq![EventView::InitialScan]);
    let with = monitor::started(config_file, Some(global_gitignore), config);
    let without = monitor::started(config_file, None, config);
    assert(with.orders =~= seq![with.orders[0], with.orders[1], with.orders[2], with.orders[3]]);
    assert(without.orders =~= seq![without.orders[0], without.orders[1], without.orders[2]]);
}

/// A configuration that was reloaded adds the orders to watch its directories and to hold events
/// back for its time, and a scan of everything; what was pending stays pending.
pub proof fn monitor_goes_on_with_a_configuration(
    before: MonitorView,
    config: ConfigView,
    e: EventView,
)
    requires
        sorted_set::increasing::<Event>(before.pending_events),
    ensures
        ({
            let after = monitor::reloaded(before, config);
            &&& after.orders == before.orders + seq![
                OrderView::Monitor(MonitorControlView::SetWatchedPaths(config.search_directories)),
                OrderView::SetDebounceDuration(config.debounce_duration),
            ]
            &&& sorted_set::has_key::<Event>(
                after.pending_events,
                <Event as Ordered>::key(EventView::InitialScan),
            )
            &&& before.pending_events.contains(e) ==> after.pending_events.contains(e)
            &&& after.pending_events.contains(e) ==> before.pending_events.contains(e) || e
                == EventView::InitialScan
        }),
{
    let after = monitor::reloaded(before, config);
    sorted_set::inserted_laws::<Event>(before.pending_events, EventView::InitialScan);
    assert(after.orders =~= before.orders + seq![
        OrderView::Monitor(MonitorControlView::SetWatchedPaths(config.search_directories)),
        OrderView::SetDebounceDuration(config.debounce_duration),
    ]);
    assert(sorted_set::has_key::<Event>(
        after.pending_events,
        <Event as Ordered>::key(EventView::InitialScan),
    ));
}

/// The monitor that looks for the repositories at once holds every event back for two seconds from
/// the first one, and then hands on all of them.
pub proof fn eager_events_are_due_in_time(
    s: eager_monitor::DebouncerView,
    got: eager_monitor::EventView,
    now: int,
    k: (int, Seq<Seq<Seq<u8>>>),
)
    requires
        sorted_set::increasing::<eager_monitor::Event>(s.held),
    ensures
        ({
            let after = eager_monitor::debouncer_after(
                s,
                eager_monitor::InputView::Event(got),
                now,
            );
            &&& s.due is None ==> after.due == Some(now + 2_000_000_000)
            &&& s.due is Some ==> after.due == s.due
            &&& sorted_set::has_key::<eager_monitor::Event>(after.held, k) <==> sorted_set::has_key::<
                eager_monitor::Event,
            >(s.held, k) || k == <eager_monitor::Event as Ordered>::key(got)
            &&& eager_monitor::debouncer_sends(s, eager_monitor::InputView::Event(got)).len() == 0
        }),
        eager_monitor::debouncer_sends(s, eager_monitor::InputView::Timeout) == s.held,
        eager_monitor::debouncer_sends(s, eager_monitor::InputView::InputDropped) == s.held,
        eager_monitor::debouncer_after(s, eager_monitor::InputView::Timeout, now).held.len() == 0,
        eager_monitor::debouncer_after(s, eager_monitor::InputView::Timeout, now).due is None,
{
    sorted_set::inserted_laws::<eager_monitor::Event>(s.held, got);
}

} // verus!
