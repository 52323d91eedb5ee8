//! The `monitor` command: it keeps the exclusions up to date while files change.
use vstd::prelude::*;

use crate::commands::debouncer::DebouncerControl;
use crate::commands::event;
use crate::commands::event::{Aside, AsideView, Event, EventSet, EventView};
use crate::commands::watcher::{MonitorControl, MonitorControlView, TimeMachineControl};
use crate::config;
use crate::config::{Config, ConfigView, LoadError};
use crate::diff;
use crate::diff::PathSet;
use crate::duration::Duration;
use crate::facts::Findings;
use crate::path::FilePath;
use crate::report;
use crate::report::{Level, Message, MessageView};
use crate::shell::Environment;
use crate::sorted_set;
use crate::text;
use crate::whitelist;
use crate::whitelist::{Created, Whitelist};

verus! {

/// An order to one of the threads of the monitor.
#[derive(Debug)]
pub enum Order {
    Monitor(MonitorControl),
    Debouncer(DebouncerControl),
    TimeMachine(TimeMachineControl),
}

/// An order to one of the threads of the monitor.
pub enum OrderView {
    Monitor(MonitorControlView),
    SetDebounceDuration(int),
    TimeMachine(TimeMachineControl),
}

impl View for Order {
    type V = OrderView;

    open spec fn view(&self) -> OrderView {
        match *self {
            Order::Monitor(control) => OrderView::Monitor(control@),
            Order::Debouncer(DebouncerControl::SetDebounceDuration(d)) => {
                OrderView::SetDebounceDuration(d@)
            },
            Order::TimeMachine(control) => OrderView::TimeMachine(control),
        }
    }
}

/// The hub of the monitor: events that it gave to itself, and orders to its threads.
#[derive(Debug)]
pub struct Monitor {
    pending_events: EventSet,
    orders: Vec<Order>,
}

/// The hub of the monitor.
pub struct MonitorView {
    pub pending_events: Seq<EventView>,
    /// The orders that are still to be given, the first one first.
    pub orders: Seq<OrderView>,
}

impl View for Monitor {
    type V = MonitorView;

    closed spec fn view(&self) -> MonitorView {
        MonitorView {
            pending_events: self.pending_events@,
            orders: sorted_set::item_views(self.orders@),
        }
    }
}

/// With one more order.
pub open spec fn with_order(monitor: MonitorView, order: OrderView) -> MonitorView {
    MonitorView { pending_events: monitor.pending_events, orders: monitor.orders.push(order) }
}

/// With one more event.
pub open spec fn with_event(monitor: MonitorView, event: EventView) -> MonitorView {
    MonitorView {
        pending_events: sorted_set::inserted::<Event>(monitor.pending_events, event),
        orders: monitor.orders,
    }
}

impl Monitor {
    pub fn new() -> (monitor: Monitor)
        ensures
            monitor@ == (MonitorView { pending_events: Seq::empty(), orders: Seq::empty() }),
    {
        let orders: Vec<Order> = Vec::new();
        assert(sorted_set::item_views(orders@) =~= Seq::<OrderView>::empty());
        Monitor { pending_events: EventSet::new(), orders }
    }

    /// Gives an event to the monitor itself.
    pub fn push_event(&mut self, event: Event)
        ensures
            final(self)@ == with_event(old(self)@, event@),
    {
        self.pending_events.insert(event);
    }

    /// The first of the events that the monitor gave to itself. Where there is none, the next
    /// event is one from the threads.
    pub fn get_event(&mut self) -> (event: Option<Event>)
        ensures
            match event {
                Some(e) => old(self)@.pending_events.len() > 0 && e@
                    == old(self)@.pending_events[0] && final(self)@ == (MonitorView {
                    pending_events: old(self)@.pending_events.drop_first(),
                    orders: old(self)@.orders,
                }),
                None => old(self)@.pending_events.len() == 0 && final(self)@ == old(self)@,
            },
    {
        self.pending_events.pop_first()
    }

    fn order(&mut self, order: Order)
        ensures
            final(self)@ == with_order(old(self)@, order@),
    {
        let ghost before = sorted_set::item_views(self.orders@);
        self.orders.push(order);
        assert(sorted_set::item_views(self.orders@) =~= before.push(order@));
    }

    pub fn set_configuration_file(&mut self, path: &FilePath)
        ensures
            final(self)@ == with_order(
                old(self)@,
                OrderView::Monitor(MonitorControlView::SetConfigurationFile(path@)),
            ),
    {
        self.order(Order::Monitor(MonitorControl::SetConfigurationFile(path.clone())));
    }

    pub fn set_global_gitignore(&mut self, path: &FilePath)
        ensures
            final(self)@ == with_order(
                old(self)@,
                OrderView::Monitor(MonitorControlView::SetGlobalGitIgnore(path@)),
            ),
    {
        self.order(Order::Monitor(MonitorControl::SetGlobalGitIgnore(path.clone())));
    }

    pub fn set_watched_paths(&mut self, paths: &PathSet)
        ensures
            final(self)@ == with_order(
                old(self)@,
                OrderView::Monitor(MonitorControlView::SetWatchedPaths(paths@)),
            ),
    {
        self.order(Order::Monitor(MonitorControl::SetWatchedPaths(diff::copy_paths(paths))));
    }

    pub fn set_debounce_duration(&mut self, duration: Duration)
        ensures
            final(self)@ == with_order(old(self)@, OrderView::SetDebounceDuration(duration@)),
    {
        self.order(Order::Debouncer(DebouncerControl::SetDebounceDuration(duration)));
    }

    pub fn start_timemachine_monitoring(&mut self)
        ensures
            final(self)@ == with_order(
                old(self)@,
                OrderView::TimeMachine(TimeMachineControl::ResumeMonitoring),
            ),
    {
        self.order(Order::TimeMachine(TimeMachineControl::ResumeMonitoring));
    }

    /// Stops the threads.
    pub fn shutdown(&mut self)
        ensures
            final(self)@ == with_order(
                with_order(old(self)@, OrderView::Monitor(MonitorControlView::Shutdown)),
                OrderView::TimeMachine(TimeMachineControl::Shutdown),
            ),
    {
        self.order(Order::Monitor(MonitorControl::Shutdown));
        self.order(Order::TimeMachine(TimeMachineControl::Shutdown));
    }

    /// Takes the orders, to give them to the threads.
    pub fn take_orders(&mut self) -> (orders: Vec<Order>)
        ensures
            sorted_set::item_views(orders@) == old(self)@.orders,
            final(self)@ == (MonitorView {
                pending_events: old(self)@.pending_events,
                orders: Seq::empty(),
            }),
    {
        let mut orders: Vec<Order> = Vec::new();
        assert(sorted_set::item_views(orders@) =~= Seq::<OrderView>::empty());
        std::mem::swap(&mut orders, &mut self.orders);
        orders
    }
}

/// The orders for a configuration.
pub open spec fn configured(monitor: MonitorView, config: ConfigView) -> MonitorView {
    with_order(
        with_order(
            monitor,
            OrderView::Monitor(MonitorControlView::SetWatchedPaths(config.search_directories)),
        ),
        OrderView::SetDebounceDuration(config.debounce_duration),
    )
}

/// The monitor at its beginning: everything is to be scanned, and the threads watch the
/// configuration file, the file with the patterns that git ignores everywhere, if there is one,
/// and the directories.
pub open spec fn started(
    config_file: Seq<u8>,
    global_gitignore: Option<Seq<u8>>,
    config: ConfigView,
) -> MonitorView {
    let first = with_order(
        with_event(
            MonitorView { pending_events: Seq::empty(), orders: Seq::empty() },
            EventView::InitialScan,
        ),
        OrderView::Monitor(MonitorControlView::SetConfigurationFile(config_file)),
    );
    configured(
        match global_gitignore {
            Some(file) => with_order(
                first,
                OrderView::Monitor(MonitorControlView::SetGlobalGitIgnore(file)),
            ),
            None => first,
        },
        config,
    )
}

/// Starts the monitor.
pub fn start(
    config_file: &FilePath,
    global_gitignore: &Option<FilePath>,
    config: &Config,
) -> (monitor: Monitor)
    ensures
        monitor@ == started(
            config_file@,
            match *global_gitignore {
                Some(file) => Some(file@),
                None => None,
            },
            config@,
        ),
{
    let mut monitor = Monitor::new();
    monitor.push_event(Event::InitialScan);
    monitor.set_configuration_file(config_file);
    if let Some(file) = global_gitignore {
        monitor.set_global_gitignore(file);
    }
    monitor.set_watched_paths(&config.search_directories);
    monitor.set_debounce_duration(config.debounce_duration);
    monitor
}

/// What is to be done for an event.
#[derive(Debug)]
pub enum Work {
    /// Reload the configuration.
    Reload,
    /// Scan everything.
    Scan,
    /// Scan the repositories that hold these paths.
    Rescan(PathSet),
    Nothing,
    Stop,
}

/// What is to be done for an event.
pub enum WorkView {
    Reload,
    Scan,
    Rescan(Seq<Seq<u8>>),
    Nothing,
    Stop,
}

impl View for Work {
    type V = WorkView;

    open spec fn view(&self) -> WorkView {
        match *self {
            Work::Reload => WorkView::Reload,
            Work::Scan => WorkView::Scan,
            Work::Rescan(paths) => WorkView::Rescan(paths@),
            Work::Nothing => WorkView::Nothing,
            Work::Stop => WorkView::Stop,
        }
    }
}

/// What is to be done for an event.
pub open spec fn work_for(event: EventView) -> WorkView {
    match event {
        EventView::ReloadConfiguration => WorkView::Reload,
        EventView::TimeMachineBackupFinished => WorkView::Nothing,
        EventView::InitialScan => WorkView::Scan,
        EventView::ScanPaths(paths) => WorkView::Rescan(paths),
        EventView::Shutdown => WorkView::Stop,
    }
}

/// What the monitor knows of the backups, and the events that wait until a backup has finished.
#[derive(Debug)]
pub struct Backups {
    is_timemachine_running: bool,
    delayed: Aside,
}

/// What the monitor knows of the backups, and the events that wait.
pub struct BackupsView {
    pub is_timemachine_running: bool,
    pub delayed: AsideView,
}

impl View for Backups {
    type V = BackupsView;

    closed spec fn view(&self) -> BackupsView {
        BackupsView {
            is_timemachine_running: self.is_timemachine_running,
            delayed: self.delayed@,
        }
    }
}

/// What came of an event.
#[derive(Debug)]
pub struct Received {
    /// The events to handle now, in this order.
    pub handle: Vec<Event>,
    pub messages: Vec<Message>,
}

/// No backup is known to run, and no event waits.
pub open spec fn no_backup() -> BackupsView {
    BackupsView { is_timemachine_running: false, delayed: event::nothing_aside() }
}

/// Before the event is handled it is to be found out whether a backup runs.
pub open spec fn asks_for_status(s: BackupsView, event: EventView) -> bool {
    !s.is_timemachine_running && event::can_wait(event)
}

/// The event reveals that a backup started.
pub open spec fn backup_starts(s: BackupsView, event: EventView, backup_runs: bool) -> bool {
    asks_for_status(s, event) && backup_runs
}

/// The event waits until the backup has finished.
pub open spec fn is_delayed(s: BackupsView, event: EventView, backup_runs: bool) -> bool {
    event::can_wait(event) && (s.is_timemachine_running || backup_runs)
}

/// What the monitor knows after an event.
pub open spec fn backups_after(
    s: BackupsView,
    event: EventView,
    backup_runs: bool,
) -> BackupsView {
    if event is TimeMachineBackupFinished {
        no_backup()
    } else if is_delayed(s, event, backup_runs) {
        BackupsView {
            is_timemachine_running: true,
            delayed: event::with_aside(s.delayed, event),
        }
    } else {
        s
    }
}

/// The events that are handled when an event comes.
pub open spec fn handled(s: BackupsView, event: EventView, backup_runs: bool) -> Seq<EventView> {
    if event is TimeMachineBackupFinished {
        event::aside_events(s.delayed)
    } else if is_delayed(s, event, backup_runs) {
        Seq::empty()
    } else {
        seq![event]
    }
}

/// What is said when an event comes.
pub open spec fn backup_messages(
    s: BackupsView,
    event: EventView,
    backup_runs: bool,
) -> Seq<MessageView> {
    (if backup_starts(s, event, backup_runs) {
        seq![report::message(Level::Info, "Time Machine backup started"@)]
    } else {
        Seq::empty()
    }) + (if event is TimeMachineBackupFinished {
        seq![report::message(Level::Info, "Time Machine backup finished"@)]
    } else if is_delayed(s, event, backup_runs) {
        seq![report::message(Level::Debug, "Time Machine is backing up, delaying event"@)]
    } else {
        Seq::empty()
    })
}

impl Backups {
    pub fn new() -> (backups: Backups)
        ensures
            backups@ == no_backup(),
    {
        Backups { is_timemachine_running: false, delayed: Aside::new() }
    }

    /// Whether it is to be found out if a backup runs, before the event is received.
    pub fn needs_status(&self, event: &Event) -> (res: bool)
        ensures
            res == asks_for_status(self@, event@),
    {
        !self.is_timemachine_running && event.can_be_delayed()
    }

    /// Receives an event. `backup_runs` says whether a backup runs; it matters only where
    /// `needs_status` asks for it.
    pub fn receive(&mut self, event: Event, backup_runs: bool, monitor: &mut Monitor) -> (received:
        Received)
        ensures
            final(self)@ == backups_after(old(self)@, event@, backup_runs),
            sorted_set::item_views(received.handle@) == handled(
                old(self)@,
                event@,
                backup_runs,
            ),
            sorted_set::item_views(received.messages@) == backup_messages(
                old(self)@,
                event@,
                backup_runs,
            ),
            final(monitor)@ == (if backup_starts(old(self)@, event@, backup_runs) {
                with_order(
                    old(monitor)@,
                    OrderView::TimeMachine(TimeMachineControl::ResumeMonitoring),
                )
            } else {
                old(monitor)@
            }),
    {
        let ghost before = self@;
        let ghost e = event@;
        let mut messages: Vec<Message> = Vec::new();
        if self.needs_status(&event) && backup_runs {
            report::tell(&mut messages, Level::Info, "Time Machine backup started".to_owned());
            monitor.start_timemachine_monitoring();
            self.is_timemachine_running = true;
        }
        let handle: Vec<Event> = match event {
            Event::TimeMachineBackupFinished => {
                report::tell(&mut messages, Level::Info, "Time Machine backup finished".to_owned());
                self.is_timemachine_running = false;
                self.delayed.release()
            },
            event => {
                if self.is_timemachine_running && event.can_be_delayed() {
                    report::tell(
                        &mut messages,
                        Level::Debug,
                        "Time Machine is backing up, delaying event".to_owned(),
                    );
                    self.delayed.collect(event);
                    let none: Vec<Event> = Vec::new();
                    assert(sorted_set::item_views(none@) =~= Seq::<EventView>::empty());
                    none
                } else {
                    let mut one: Vec<Event> = Vec::new();
                    one.push(event);
                    assert(sorted_set::item_views(one@) =~= seq![e]);
                    one
                }
            },
        };
        assert(sorted_set::item_views(messages@) =~= backup_messages(before, e, backup_runs));
        Received { handle, messages }
    }

    /// What is to be done for an event.
    pub fn handle_event(&mut self, event: Event) -> (work: Work)
        ensures
            work@ == work_for(event@),
            final(self)@ == (BackupsView {
                is_timemachine_running: old(self)@.is_timemachine_running && !(event@
                    is TimeMachineBackupFinished),
                delayed: old(self)@.delayed,
            }),
    {
        match event {
            Event::ReloadConfiguration => Work::Reload,
            Event::InitialScan => Work::Scan,
            Event::ScanPaths(paths) => Work::Rescan(paths),
            Event::TimeMachineBackupFinished => {
                self.is_timemachine_running = false;
                Work::Nothing
            },
            Event::Shutdown => Work::Stop,
        }
    }
}

/// Only events that can wait are delayed, in order, and only while a backup runs.
pub open spec fn is_backups(s: BackupsView) -> bool {
    &&& event::is_aside(s.delayed)
    &&& forall|i: int|
        0 <= i < s.delayed.events.len() ==> event::can_wait(#[trigger] s.delayed.events[i])
    &&& !s.is_timemachine_running ==> s.delayed == event::nothing_aside()
}

/// Every event keeps the delayed events in order, and leaves only such as can wait: a shutdown is
/// never delayed.
pub proof fn backups_are_kept(s: BackupsView, event: EventView, backup_runs: bool)
    requires
        is_backups(s),
    ensures
        is_backups(no_backup()),
        is_backups(backups_after(s, event, backup_runs)),
{
    event::aside_keeps_order(s.delayed, event);
    if is_delayed(s, event, backup_runs) && !(event is ScanPaths) {
        sorted_set::inserted_laws::<Event>(s.delayed.events, event);
        let all = event::with_aside(s.delayed, event).events;
        assert forall|i: int| 0 <= i < all.len() implies event::can_wait(#[trigger] all[i]) by {
            assert(all.contains(all[i]));
            if s.delayed.events.contains(all[i]) {
                let j = choose|j: int|
                    0 <= j < s.delayed.events.len() && s.delayed.events[j] == all[i];
                assert(event::can_wait(s.delayed.events[j]));
            }
        }
    }
}

/// While a backup is known to run, nothing that can wait is handled.
pub proof fn nothing_that_can_wait_is_handled_during_a_backup(
    s: BackupsView,
    event: EventView,
    backup_runs: bool,
)
    requires
        backups_after(s, event, backup_runs).is_timemachine_running,
    ensures
        forall|i: int|
            0 <= i < handled(s, event, backup_runs).len() ==> !event::can_wait(
                #[trigger] handled(s, event, backup_runs)[i],
            ),
{
}

/// What cannot wait is handled at once, whether a backup runs or not.
pub proof fn urgent_events_are_handled_at_once(
    s: BackupsView,
    event: EventView,
    backup_runs: bool,
)
    requires
        !event::can_wait(event),
        !(event is TimeMachineBackupFinished),
    ensures
        handled(s, event, backup_runs) == seq![event],
        backups_after(s, event, backup_runs) == s,
{
}

/// An event that was delayed is handled when the backup has finished: a request to scan
/// everything as it is, and paths in one request to scan all the paths that were delayed.
pub proof fn delayed_events_come_back(
    s: BackupsView,
    event: EventView,
    backup_runs: bool,
    answer: bool,
)
    requires
        is_backups(s),
        is_delayed(s, event, backup_runs),
    ensures
        ({
            let waiting = backups_after(s, event, backup_runs);
            let back = handled(waiting, EventView::TimeMachineBackupFinished, answer);
            &&& !(event is ScanPaths) ==> back.contains(event)
            &&& waiting.delayed.paths.len() > 0 ==> back.contains(
                EventView::ScanPaths(waiting.delayed.paths),
            )
            &&& event matches EventView::ScanPaths(paths) ==> forall|k: Seq<Seq<u8>>|
                diff::lists(paths, k) ==> #[trigger] diff::lists(waiting.delayed.paths, k)
            &&& forall|k: Seq<Seq<u8>>|
                diff::lists(s.delayed.paths, k) ==> #[trigger] diff::lists(
                    waiting.delayed.paths,
                    k,
                )
            &&& backups_after(waiting, EventView::TimeMachineBackupFinished, answer)
                == no_backup()
        }),
{
    let waiting = backups_after(s, event, backup_runs);
    let back = handled(waiting, EventView::TimeMachineBackupFinished, answer);
    backups_are_kept(s, event, backup_runs);
    if let EventView::ScanPaths(paths) = event {
        sorted_set::extended_laws::<FilePath>(s.delayed.paths, paths);
        assert forall|k: Seq<Seq<u8>>| diff::lists(paths, k) implies #[trigger] diff::lists(
            waiting.delayed.paths,
            k,
        ) by {
            assert(sorted_set::has_key::<FilePath>(waiting.delayed.paths, k));
        }
        assert forall|k: Seq<Seq<u8>>| diff::lists(s.delayed.paths, k) implies #[trigger]
        diff::lists(waiting.delayed.paths, k) by {
            assert(sorted_set::has_key::<FilePath>(waiting.delayed.paths, k));
        }
    } else {
        event::aside_keeps_other_events(s.delayed, event);
    }
    if waiting.delayed.paths.len() > 0 {
        event::request_is_released(waiting.delayed);
        let i = choose|i: int|
            0 <= i < back.len() && #[trigger] back[i] == EventView::ScanPaths(
                waiting.delayed.paths,
            );
        assert(back.contains(back[i]));
    }
}

/// What is said where the configuration could not be reloaded.
pub open spec fn reload_warnings(config_file: Seq<u8>, error: Seq<char>) -> Seq<MessageView> {
    seq![
        report::message(
            Level::Warn,
            "Failed to reload configuration '"@ + text::lossy_text(config_file) + "': "@ + error,
        ),
        report::message(Level::Warn, "Due to an error the configuration stay unchanged"@),
    ]
}

/// The monitor when a configuration was reloaded: everything is to be scanned again.
pub open spec fn reloaded(monitor: MonitorView, config: ConfigView) -> MonitorView {
    with_event(configured(monitor, config), EventView::InitialScan)
}

fn warn_of(config_file: &FilePath, error: &LoadError) -> (messages: Vec<Message>)
    ensures
        sorted_set::item_views(messages@) == reload_warnings(
            config_file@,
            config::load_error_text(*error),
        ),
{
    let mut messages: Vec<Message> = Vec::new();
    let line = "Failed to reload configuration '".to_owned().concat(
        config_file.display().as_str(),
    ).concat("': ").concat(error.text().as_str());
    report::tell(&mut messages, Level::Warn, line);
    report::tell(
        &mut messages,
        Level::Warn,
        "Due to an error the configuration stay unchanged".to_owned(),
    );
    assert(sorted_set::item_views(messages@) =~= reload_warnings(
        config_file@,
        config::load_error_text(*error),
    ));
    messages
}

/// Goes on with a configuration that was reloaded, and with the whitelist that was made of its
/// patterns: the whitelist takes the place of the one before, and the threads get their orders.
/// Where no whitelist could be made, that is the error, and nothing changes.
pub fn apply_reloaded(
    config: &Config,
    whitelist: &mut Whitelist,
    monitor: &mut Monitor,
    created: Created,
) -> (res: Result<Vec<Message>, String>)
    ensures
        match created.whitelist {
            Ok(new_whitelist) => {
                &&& final(whitelist)@ == new_whitelist@
                &&& final(monitor)@ == reloaded(old(monitor)@, config@)
                &&& res is Ok
                &&& sorted_set::item_views(res->Ok_0@) == report::messages(
                    Level::Error,
                    sorted_set::item_views(created.messages@),
                ).push(report::message(Level::Debug, "Configuration reloaded"@))
            },
            Err(message) => {
                &&& final(whitelist)@ == old(whitelist)@
                &&& final(monitor)@ == old(monitor)@
                &&& res is Err
                &&& res->Err_0@ == message@
            },
        },
{
    match created.whitelist {
        Err(message) => Err(message),
        Ok(new_whitelist) => {
            *whitelist = new_whitelist;
            monitor.set_watched_paths(&config.search_directories);
            monitor.set_debounce_duration(config.debounce_duration);
            monitor.push_event(Event::InitialScan);
            let mut messages = report::all_of(Level::Error, created.messages);
            report::tell(&mut messages, Level::Debug, "Configuration reloaded".to_owned());
            Ok(messages)
        },
    }
}

/// Reloads the configuration from what was loaded, and goes on with it as `apply_reloaded` does.
/// Where it cannot be reloaded, that is said, and nothing else changes. The error is one of the
/// whitelist: there is none where the patterns compile.
pub fn reload_configuration(
    config: &mut Config,
    whitelist: &mut Whitelist,
    monitor: &mut Monitor,
    config_file: &FilePath,
    loaded: Result<Config, LoadError>,
    environment: &Environment,
    found: &Findings,
) -> (res: Result<Vec<Message>, String>)
    ensures
        match loaded {
            Err(error) => {
                &&& final(config)@ == old(config)@
                &&& final(whitelist)@ == old(whitelist)@
                &&& final(monitor)@ == old(monitor)@
                &&& res is Ok
                &&& sorted_set::item_views(res->Ok_0@) == reload_warnings(
                    config_file@,
                    config::load_error_text(error),
                )
            },
            Ok(read) => {
                ||| {
                    &&& final(config)@ == old(config)@
                    &&& final(whitelist)@ == old(whitelist)@
                    &&& final(monitor)@ == old(monitor)@
                    &&& res is Ok
                    &&& exists|expanded: ConfigView| #[trigger]
                        config::is_expanded_in(read@, environment@, expanded)
                            && config::validation_fails(found@, expanded).len() > 0
                            && sorted_set::item_views(res->Ok_0@) == reload_warnings(
                            config_file@,
                            "Validation error:\n"@ + config::fail_lines(
                                config::validation_fails(found@, expanded),
                            ),
                        )
                }
                ||| {
                    &&& config::is_expanded_in(read@, environment@, final(config)@)
                    &&& config::validation_fails(found@, final(config)@).len() == 0
                    &&& match res {
                        Ok(messages) => {
                            &&& final(whitelist)@ == whitelist::valid_regexes(
                                final(config)@.whitelist_patterns,
                            )
                            &&& final(monitor)@ == reloaded(old(monitor)@, final(config)@)
                            &&& sorted_set::item_views(messages@) == report::messages(
                                Level::Error,
                                whitelist::invalid_messages(final(config)@.whitelist_patterns),
                            ).push(report::message(Level::Debug, "Configuration reloaded"@))
                        },
                        Err(message) => {
                            &&& final(whitelist)@ == old(whitelist)@
                            &&& final(monitor)@ == old(monitor)@
                            &&& whitelist::can_refuse(
                                whitelist::valid_regexes(final(config)@.whitelist_patterns),
                                message@,
                            )
                            &&& whitelist::valid_regexes(
                                final(config)@.whitelist_patterns,
                            ).len() > 0
                        },
                    }
                }
            },
        },
        whitelist::compiles(
            whitelist::valid_regexes(final(config)@.whitelist_patterns),
        ) ==> res is Ok,
{
    match config.reload(loaded, environment, found) {
        Err(error) => Ok(warn_of(config_file, &error)),
        Ok(_) => {
            let created = whitelist::create_whitelist(&config.whitelist_patterns);
            apply_reloaded(config, whitelist, monitor, created)
        },
    }
}

/// What is said when a repository is scanned.
pub fn scanning(repository: &FilePath) -> (message: Message)
    ensures
        message@ == report::message(
            Level::Debug,
            "Scanning repository '"@ + text::lossy_text(repository@) + "'"@,
        ),
{
    Message {
        level: Level::Debug,
        text: "Scanning repository '".to_owned().concat(repository.display().as_str()).concat("'"),
    }
}

/// What is said when the scan of a repository finds nothing new.
pub fn unchanged(repository: &FilePath) -> (message: Message)
    ensures
        message@ == report::message(
            Level::Debug,
            "No changes in repository '"@ + text::lossy_text(repository@) + "'"@,
        ),
{
    Message {
        level: Level::Debug,
        text: "No changes in repository '".to_owned().concat(
            repository.display().as_str(),
        ).concat("'"),
    }
}

} // verus!
