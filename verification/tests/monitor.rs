use tmignore::commands::debouncer::{Debouncer, DebouncerControl, DebouncerInput};
use tmignore::commands::eager_monitor;
use tmignore::commands::event::Event;
use tmignore::commands::monitor::{
    apply_reloaded, reload_configuration, scanning, start, unchanged, Backups, Monitor, Order, Work,
};
use tmignore::commands::watcher::{
    accept_event, Change, FsEvent, MonitorControl, TimeMachineControl, WatchRequest, Watched,
};
use tmignore::config::{Config, LoadError, TextSet};
use tmignore::diff::PathSet;
use tmignore::duration::Duration;
use tmignore::facts::{Findings, Kind};
use tmignore::path::FilePath;
use tmignore::report::Level;
use tmignore::shell::{Environment, Variable};
use tmignore::whitelist::{create_whitelist, Created, Whitelist};

fn p(text: &str) -> FilePath {
    FilePath::new(text)
}

fn set(paths: &[&str]) -> PathSet {
    let mut all = PathSet::new();
    for path in paths {
        all.insert(p(path));
    }
    all
}

fn event(change: Change, paths: &[&str]) -> FsEvent {
    FsEvent { change, paths: paths.iter().map(|path| p(path)).collect() }
}

fn millis(n: u64) -> Duration {
    Duration::new(n / 1000, (n % 1000) as u32 * 1_000_000)
}

fn input(debouncer: &mut Debouncer, event: Event, now: u64) -> (Vec<String>, bool) {
    let step = debouncer.step(DebouncerInput::Event(event), millis(now));
    (names(&step.send), step.done)
}

fn name(event: &Event) -> String {
    match event {
        Event::ReloadConfiguration => "reload".to_string(),
        Event::TimeMachineBackupFinished => "finished".to_string(),
        Event::InitialScan => "scan".to_string(),
        Event::ScanPaths(paths) => {
            let all: Vec<String> =
                paths.items().iter().map(|path| path.to_str().unwrap()).collect();
            format!("paths {}", all.join(" "))
        }
        Event::Shutdown => "shutdown".to_string(),
    }
}

fn names(events: &[Event]) -> Vec<String> {
    events.iter().map(name).collect()
}

fn none() -> Vec<String> {
    Vec::new()
}

#[test]
fn test_accept_event() {
    assert_eq!(true, accept_event(&event(Change::Created, &[])));
    assert_eq!(true, accept_event(&event(Change::Removed, &[])));
    assert_eq!(true, accept_event(&event(Change::Written, &[".gitignore"])));
    assert_eq!(false, accept_event(&event(Change::Written, &["yop"])));
    assert_eq!(true, accept_event(&event(Change::Renamed, &[])));
    assert_eq!(false, accept_event(&event(Change::Other, &[])));
    assert_eq!(true, accept_event(&event(Change::Written, &["a", "/r/.gitignore"])));
    assert_eq!(false, accept_event(&event(Change::Written, &["/r/x.gitignore"])));
}

#[test]
fn test_spawn_debouncer_thread_shutdown() {
    let mut debouncer = Debouncer::new();
    assert_eq!((vec!["shutdown".to_string()], true), input(&mut debouncer, Event::Shutdown, 0));
}

#[test]
fn test_spawn_debouncer_thread_input_dropped() {
    let mut debouncer = Debouncer::new();
    let step = debouncer.step(DebouncerInput::InputDropped, millis(0));
    assert!(step.done);
    assert!(step.send.is_empty());
}

#[test]
fn test_spawn_debouncer_thread_input_dropped_during_debounce() {
    let mut debouncer = Debouncer::new();
    let two_seconds = DebouncerControl::SetDebounceDuration(Duration::from_secs(2));
    assert!(!debouncer.step(DebouncerInput::Control(two_seconds), millis(0)).done);
    assert_eq!((none(), false), input(&mut debouncer, Event::ReloadConfiguration, 1));
    let step = debouncer.step(DebouncerInput::InputDropped, millis(2));
    assert!(step.done);
    assert_eq!(vec!["reload"], names(&step.send));
}

#[test]
fn test_spawn_debouncer_thread_control_during_debounce() {
    let mut debouncer = Debouncer::new();
    let two_seconds = || {
        DebouncerInput::Control(DebouncerControl::SetDebounceDuration(Duration::from_secs(2)))
    };
    assert!(!debouncer.step(two_seconds(), millis(0)).done);
    assert_eq!((none(), false), input(&mut debouncer, Event::ReloadConfiguration, 1));
    let step = debouncer.step(two_seconds(), millis(2));
    assert!(!step.done);
    assert!(step.send.is_empty());
    let (sent, done) = input(&mut debouncer, Event::Shutdown, 3);
    assert!(done);
    assert_eq!(vec!["reload", "shutdown"], sent);
}

#[test]
fn test_spawn_debouncer_thread_reload_event_is_debounced() {
    let mut debouncer = Debouncer::new();
    let control = DebouncerControl::SetDebounceDuration(millis(250));
    debouncer.step(DebouncerInput::Control(control), millis(0));
    assert_eq!((none(), false), input(&mut debouncer, Event::ReloadConfiguration, 10));
    assert_eq!((none(), false), input(&mut debouncer, Event::ReloadConfiguration, 20));
    let wait = debouncer.wait(millis(30));
    assert_eq!(Some(millis(230)), wait.timeout);
    assert!(wait.send.is_empty());
    let step = debouncer.step(DebouncerInput::Timeout, millis(260));
    assert_eq!(vec!["reload"], names(&step.send));
    let wait = debouncer.wait(millis(600));
    assert_eq!(None, wait.timeout);
    assert!(wait.send.is_empty());
    assert_eq!((vec!["shutdown".to_string()], true), input(&mut debouncer, Event::Shutdown, 700));
}

#[test]
fn test_spawn_debouncer_thread_scan_paths_are_merged() {
    let mut debouncer = Debouncer::new();
    let control = DebouncerControl::SetDebounceDuration(millis(250));
    debouncer.step(DebouncerInput::Control(control), millis(0));
    assert_eq!((none(), false), input(&mut debouncer, Event::ScanPaths(set(&["/a"])), 10));
    assert_eq!((none(), false), input(&mut debouncer, Event::ScanPaths(set(&["/b"])), 20));
    let wait = debouncer.wait(millis(261));
    assert_eq!(None, wait.timeout);
    assert_eq!(vec!["paths /a /b"], names(&wait.send));
    assert!(debouncer.wait(millis(600)).send.is_empty());
}

#[test]
fn test_spawn_debouncer_thread_reload_event_is_debounced_early_shutdown() {
    let mut debouncer = Debouncer::new();
    let control = DebouncerControl::SetDebounceDuration(millis(250));
    debouncer.step(DebouncerInput::Control(control), millis(0));
    assert_eq!((none(), false), input(&mut debouncer, Event::ReloadConfiguration, 10));
    assert_eq!((none(), false), input(&mut debouncer, Event::ReloadConfiguration, 20));
    let (sent, done) = input(&mut debouncer, Event::Shutdown, 30);
    assert!(done);
    assert_eq!(vec!["reload", "shutdown"], sent);
}

#[test]
fn everything_that_goes_in_comes_out() {
    let mut debouncer = Debouncer::new();
    let mut sent = none();
    let inputs = [
        (Event::ScanPaths(set(&["/a"])), 0),
        (Event::ReloadConfiguration, 100),
        (Event::ScanPaths(set(&[])), 200),
        (Event::ReloadConfiguration, 5000),
        (Event::ScanPaths(set(&["/b", "/a"])), 5100),
        (Event::InitialScan, 9000),
        (Event::Shutdown, 9100),
    ];
    let mut done = false;
    for (event, now) in inputs {
        assert!(!done);
        sent.extend(names(&debouncer.wait(millis(now)).send));
        let (more, ends) = input(&mut debouncer, event, now);
        sent.extend(more);
        done = ends;
    }
    assert!(done);
    assert_eq!(
        vec!["reload", "paths /a", "reload", "paths /a /b", "scan", "shutdown"],
        sent
    );
}

#[test]
fn no_request_for_no_path_comes_out() {
    let mut debouncer = Debouncer::new();
    input(&mut debouncer, Event::ScanPaths(set(&[])), 0);
    assert!(debouncer.wait(millis(3000)).send.is_empty());
    assert!(debouncer.step(DebouncerInput::InputDropped, millis(3001)).send.is_empty());
}

#[test]
fn events_come_out_in_the_order_of_their_kinds() {
    let mut debouncer = Debouncer::new();
    input(&mut debouncer, Event::ScanPaths(set(&["/b", "/a"])), 0);
    input(&mut debouncer, Event::InitialScan, 1);
    input(&mut debouncer, Event::TimeMachineBackupFinished, 2);
    input(&mut debouncer, Event::ReloadConfiguration, 3);
    input(&mut debouncer, Event::InitialScan, 4);
    assert_eq!(Some(millis(1995)), debouncer.wait(millis(5)).timeout);
    assert_eq!(Some(millis(0)), debouncer.wait(millis(2000)).timeout);
    let wait = debouncer.wait(millis(2001));
    assert_eq!(vec!["reload", "finished", "scan", "paths /a /b"], names(&wait.send));
}

#[test]
fn a_duration_that_is_too_long_holds_nothing_back() {
    let mut debouncer = Debouncer::new();
    let control = DebouncerControl::SetDebounceDuration(Duration::from_secs(u64::MAX));
    debouncer.step(DebouncerInput::Control(control), millis(0));
    input(&mut debouncer, Event::InitialScan, 1000);
    assert_eq!(Some(millis(0)), debouncer.wait(millis(1000)).timeout);
    assert_eq!(vec!["scan"], names(&debouncer.wait(millis(1001)).send));
    let step = debouncer.step(DebouncerInput::ControlDropped, millis(2000));
    assert!(!step.done && step.send.is_empty());
}

#[test]
fn only_scans_can_be_delayed() {
    assert!(Event::InitialScan.can_be_delayed());
    assert!(Event::ScanPaths(set(&[])).can_be_delayed());
    assert!(!Event::ReloadConfiguration.can_be_delayed());
    assert!(!Event::TimeMachineBackupFinished.can_be_delayed());
    assert!(!Event::Shutdown.can_be_delayed());
}

#[test]
fn scans_wait_until_a_backup_has_finished() {
    let mut backups = Backups::new();
    let mut monitor = Monitor::new();
    assert!(backups.needs_status(&Event::InitialScan));
    assert!(!backups.needs_status(&Event::Shutdown));
    let received = backups.receive(Event::ScanPaths(set(&["/b"])), true, &mut monitor);
    assert!(received.handle.is_empty());
    assert_eq!("Time Machine backup started", received.messages[0].text);
    assert_eq!(Level::Info, received.messages[0].level);
    assert_eq!("Time Machine is backing up, delaying event", received.messages[1].text);
    let orders = monitor.take_orders();
    assert_eq!(1, orders.len());
    assert!(matches!(orders[0], Order::TimeMachine(TimeMachineControl::ResumeMonitoring)));
    assert!(!backups.needs_status(&Event::InitialScan));
    assert!(backups.receive(Event::InitialScan, false, &mut monitor).handle.is_empty());
    assert!(backups.receive(Event::ScanPaths(set(&["/a"])), false, &mut monitor).handle.is_empty());
    let received = backups.receive(Event::ReloadConfiguration, false, &mut monitor);
    assert_eq!(vec!["reload"], names(&received.handle));
    let received = backups.receive(Event::TimeMachineBackupFinished, false, &mut monitor);
    assert_eq!(vec!["scan", "paths /a /b"], names(&received.handle));
    assert_eq!("Time Machine backup finished", received.messages[0].text);
    let received = backups.receive(Event::InitialScan, false, &mut monitor);
    assert_eq!(vec!["scan"], names(&received.handle));
    assert!(received.messages.is_empty());
    assert!(monitor.take_orders().is_empty());
}

#[test]
fn every_event_has_its_work() {
    let mut backups = Backups::new();
    assert!(matches!(backups.handle_event(Event::ReloadConfiguration), Work::Reload));
    assert!(matches!(backups.handle_event(Event::InitialScan), Work::Scan));
    assert!(matches!(backups.handle_event(Event::TimeMachineBackupFinished), Work::Nothing));
    assert!(matches!(backups.handle_event(Event::Shutdown), Work::Stop));
    match backups.handle_event(Event::ScanPaths(set(&["/a"]))) {
        Work::Rescan(paths) => assert!(paths.contains(&p("/a"))),
        other => panic!("{other:?}"),
    }
}

fn config(search: &[&str], patterns: &[&str]) -> Config {
    let mut whitelist_patterns = TextSet::new();
    for pattern in patterns {
        whitelist_patterns.insert(pattern.to_string());
    }
    Config {
        search_directories: set(search),
        ignored_directories: set(&[]),
        whitelist_patterns,
        threads: 4,
        debounce_duration: Duration::from_secs(7),
    }
}

fn no_whitelist() -> Whitelist {
    create_whitelist(&TextSet::new()).whitelist.unwrap()
}

fn order_name(order: &Order) -> String {
    match order {
        Order::Monitor(MonitorControl::SetWatchedPaths(paths)) => {
            format!("watch {}", paths.len())
        }
        Order::Monitor(MonitorControl::SetConfigurationFile(path)) => {
            format!("config {}", path.to_str().unwrap())
        }
        Order::Monitor(MonitorControl::SetGlobalGitIgnore(path)) => {
            format!("gitignore {}", path.to_str().unwrap())
        }
        Order::Monitor(MonitorControl::Shutdown) => "stop monitor".to_string(),
        Order::Debouncer(DebouncerControl::SetDebounceDuration(d)) => {
            format!("debounce {}", d.secs())
        }
        Order::TimeMachine(TimeMachineControl::ResumeMonitoring) => "resume".to_string(),
        Order::TimeMachine(TimeMachineControl::Shutdown) => "stop timemachine".to_string(),
    }
}

fn orders(monitor: &mut Monitor) -> Vec<String> {
    monitor.take_orders().iter().map(order_name).collect()
}

#[test]
fn the_monitor_starts_with_a_scan_of_everything() {
    let mut monitor = start(&p("/c.json"), &Some(p("/g")), &config(&["/a", "/b"], &[]));
    assert_eq!(vec!["config /c.json", "gitignore /g", "watch 2", "debounce 7"], orders(&mut monitor));
    assert!(matches!(monitor.get_event(), Some(Event::InitialScan)));
    assert!(monitor.get_event().is_none());
    let mut monitor = start(&p("/c.json"), &None, &config(&["/a"], &[]));
    assert_eq!(vec!["config /c.json", "watch 1", "debounce 7"], orders(&mut monitor));
    monitor.shutdown();
    assert_eq!(vec!["stop monitor", "stop timemachine"], orders(&mut monitor));
    monitor.push_event(Event::Shutdown);
    monitor.push_event(Event::ReloadConfiguration);
    assert!(matches!(monitor.get_event(), Some(Event::ReloadConfiguration)));
    assert!(matches!(monitor.get_event(), Some(Event::InitialScan)));
    assert!(matches!(monitor.get_event(), Some(Event::Shutdown)));
}

fn environment() -> Environment {
    let name = Variable { name: "NAME".to_string(), value: "new".to_string() };
    Environment { home: "/home/u".to_string(), variables: vec![name] }
}

#[test]
fn a_reloaded_configuration_is_scanned() {
    let mut all = Findings::new();
    all.add(p("/home/u/new"), Kind::Directory);
    let mut current = config(&["/old"], &[]);
    let mut whitelist = no_whitelist();
    let mut monitor = Monitor::new();
    let messages = reload_configuration(
        &mut current,
        &mut whitelist,
        &mut monitor,
        &p("/c.json"),
        Ok(config(&["~/$NAME"], &["*.keep", "[z-a]"])),
        &environment(),
        &all,
    )
    .unwrap();
    assert_eq!(2, messages.len());
    assert_eq!(Level::Error, messages[0].level);
    assert!(messages[0].text.starts_with("Error: invalid whitelist pattern '[z-a]': "));
    assert_eq!("Configuration reloaded", messages[1].text);
    assert!(current.search_directories.contains(&p("/home/u/new")));
    assert!(whitelist.is_match("/new/a.keep"));
    assert_eq!(vec!["watch 1", "debounce 7"], orders(&mut monitor));
    assert!(matches!(monitor.get_event(), Some(Event::InitialScan)));
}

#[test]
fn a_whitelist_that_was_made_is_taken_over() {
    let reloaded = config(&["/b", "/a"], &["*.keep"]);
    let mut whitelist = no_whitelist();
    let mut monitor = Monitor::new();
    let created = Created {
        whitelist: Ok(Whitelist::from_regexes(&vec!["keep$".to_string()]).unwrap()),
        messages: vec!["wrong".to_string()],
    };
    let messages =
        apply_reloaded(&reloaded, &mut whitelist, &mut monitor, created).unwrap();
    assert_eq!(2, messages.len());
    assert_eq!((Level::Error, "wrong"), (messages[0].level, messages[0].text.as_str()));
    assert_eq!(Level::Debug, messages[1].level);
    assert_eq!("Configuration reloaded", messages[1].text);
    assert!(whitelist.is_match("/a/x.keep"));
    assert_eq!(vec!["watch 2", "debounce 7"], orders(&mut monitor));
    assert!(matches!(monitor.get_event(), Some(Event::InitialScan)));
    assert!(monitor.get_event().is_none());
}

#[test]
fn a_whitelist_that_was_not_made_is_the_error() {
    let reloaded = config(&["/new"], &["*.keep"]);
    let mut whitelist = Whitelist::from_regexes(&vec!["old$".to_string()]).unwrap();
    let mut monitor = Monitor::new();
    let created =
        Created { whitelist: Err("too big".to_string()), messages: vec!["wrong".to_string()] };
    let error = apply_reloaded(&reloaded, &mut whitelist, &mut monitor, created).unwrap_err();
    assert_eq!("too big", error);
    assert!(whitelist.is_match("/x.old"));
    assert!(orders(&mut monitor).is_empty());
    assert!(monitor.get_event().is_none());
}

#[test]
fn a_reload_that_fails_changes_nothing() {
    let mut current = config(&["/old"], &[]);
    let mut whitelist = no_whitelist();
    let mut monitor = Monitor::new();
    let messages = reload_configuration(
        &mut current,
        &mut whitelist,
        &mut monitor,
        &p("/c.json"),
        Err(LoadError::Json("bad".to_string())),
        &environment(),
        &Findings::new(),
    )
    .unwrap();
    assert_eq!("Failed to reload configuration '/c.json': bad", messages[0].text);
    assert_eq!("Due to an error the configuration stay unchanged", messages[1].text);
    assert_eq!(Level::Warn, messages[1].level);
    assert!(current.search_directories.contains(&p("/old")));
    assert!(monitor.get_event().is_none());
    assert!(orders(&mut monitor).is_empty());
}

#[test]
fn scans_are_told() {
    assert_eq!("Scanning repository '/r'", scanning(&p("/r")).text);
    assert_eq!("No changes in repository '/r'", unchanged(&p("/r")).text);
    assert_eq!(Level::Debug, unchanged(&p("/r")).level);
}

fn request_name(request: &WatchRequest) -> String {
    match request {
        WatchRequest::Unwatch(path) => format!("unwatch {}", path.to_str().unwrap()),
        WatchRequest::WatchTree(path) => format!("tree {}", path.to_str().unwrap()),
        WatchRequest::WatchFile(path) => format!("file {}", path.to_str().unwrap()),
    }
}

fn requests(watched: &Watched, control: &MonitorControl) -> Vec<String> {
    watched.requests(control).iter().map(request_name).collect()
}

#[test]
fn watches_follow_the_orders() {
    let mut watched = Watched::new();
    let control = MonitorControl::SetWatchedPaths(set(&["/b", "/a"]));
    assert_eq!(vec!["tree /a", "tree /b"], requests(&watched, &control));
    assert!(watched.control(control, &vec![true, false]));
    let control = MonitorControl::SetWatchedPaths(set(&["/c"]));
    assert_eq!(vec!["unwatch /a", "tree /c"], requests(&watched, &control));
    assert!(watched.control(control, &vec![true]));
    let control = MonitorControl::SetConfigurationFile(p("/c.json"));
    assert_eq!(vec!["file /c.json"], requests(&watched, &control));
    assert!(watched.control(control, &vec![]));
    let control = MonitorControl::SetConfigurationFile(p("/d.json"));
    assert_eq!(vec!["unwatch /c.json", "file /d.json"], requests(&watched, &control));
    assert!(watched.control(control, &vec![]));
    let control = MonitorControl::SetGlobalGitIgnore(p("/g"));
    assert_eq!(vec!["file /g"], requests(&watched, &control));
    assert!(watched.control(control, &vec![]));
    assert!(requests(&watched, &MonitorControl::Shutdown).is_empty());
    assert!(!watched.control(MonitorControl::Shutdown, &vec![]));

    let sent = watched.file_system_changed(&event(Change::Written, &["/d.json"]));
    assert_eq!(vec!["reload"], names(&sent));
    let sent = watched.file_system_changed(&event(Change::Created, &["/g", "/c/x"]));
    assert_eq!(vec!["reload", "paths /c/x /g"], names(&sent));
    let sent = watched.file_system_changed(&event(Change::Written, &["/c/x"]));
    assert!(sent.is_empty());
    let sent = watched.file_system_changed(&event(Change::Written, &["/c/.gitignore"]));
    assert_eq!(vec!["paths /c/.gitignore"], names(&sent));
}

#[test]
fn repositories_are_looked_for_as_soon_as_a_file_changes() {
    let mut all = Findings::new();
    all.add(p("/in/r/.git"), Kind::Directory);
    all.add(p("/out/r/.git"), Kind::Directory);
    let sent = eager_monitor::file_system_changed(
        &set(&["/in"]),
        &p("/c.json"),
        &None,
        &all,
        &event(Change::Removed, &["/in/r/a/b", "/out/r/a", "/in/x", "/in/r/c"]),
    );
    assert_eq!(1, sent.len());
    match &sent[0] {
        eager_monitor::Event::ScanRepositories(found) => {
            assert_eq!(&vec![p("/in/r")], found.items());
        }
        other => panic!("{other:?}"),
    }
    let sent = eager_monitor::file_system_changed(
        &set(&["/in"]),
        &p("/c.json"),
        &Some(p("/g")),
        &all,
        &event(Change::Written, &["/g"]),
    );
    assert!(matches!(sent[0], eager_monitor::Event::ReloadConfiguration));
}

#[test]
fn a_shutdown_is_held_back_with_the_other_events() {
    let mut debouncer = eager_monitor::Debouncer::new();
    let shutdown = eager_monitor::DebouncerInput::Event(eager_monitor::Event::Shutdown);
    assert!(!debouncer.step(shutdown, millis(0)).done);
    let reload = eager_monitor::DebouncerInput::Event(eager_monitor::Event::ReloadConfiguration);
    assert!(debouncer.step(reload, millis(1)).send.is_empty());
    assert_eq!(Some(millis(2000)), debouncer.deadline());
    let step = debouncer.step(eager_monitor::DebouncerInput::Timeout, millis(2000));
    assert!(matches!(step.send[0], eager_monitor::Event::ReloadConfiguration));
    assert!(matches!(step.send[1], eager_monitor::Event::Shutdown));
    assert_eq!(None, debouncer.deadline());
    let step = debouncer.step(eager_monitor::DebouncerInput::InputDropped, millis(3000));
    assert!(step.done && step.send.is_empty());
}
