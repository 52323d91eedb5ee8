//! Watching the file system, and watching Time Machine.
use vstd::prelude::*;

use crate::commands::event::{Event, EventView};
use crate::diff;
use crate::diff::PathSet;
use crate::path;
use crate::path::FilePath;
use crate::sorted_set;

verus! {

/// What happened in the file system.
#[derive(Clone, Copy, PartialEq, Eq, Debug, Structural)]
pub enum Change {
    Created,
    Removed,
    Renamed,
    /// The contents of a file changed.
    Written,
    Other,
}

/// A change in the file system, and the paths that it concerns.
#[derive(Debug)]
pub struct FsEvent {
    pub change: Change,
    pub paths: Vec<FilePath>,
}

/// The bytes of `.gitignore`.
pub open spec fn gitignore_name() -> Seq<u8> {
    seq![46u8, 103u8, 105u8, 116u8, 105u8, 103u8, 110u8, 111u8, 114u8, 101u8]
}

/// One of the paths ends with `.gitignore`.
pub open spec fn names_gitignore(paths: Seq<Seq<u8>>) -> bool {
    exists|i: int|
        0 <= i < paths.len() && path::path_ends_with(#[trigger] paths[i], gitignore_name())
}

/// A change can change what git ignores.
pub open spec fn is_accepted(change: Change, paths: Seq<Seq<u8>>) -> bool {
    match change {
        Change::Created | Change::Removed | Change::Renamed => true,
        Change::Written => names_gitignore(paths),
        Change::Other => false,
    }
}

/// Whether a change can change what git ignores.
pub fn accept_event(event: &FsEvent) -> (accepted: bool)
    ensures
        accepted == is_accepted(event.change, sorted_set::item_views(event.paths@)),
{
    match event.change {
        Change::Created | Change::Removed | Change::Renamed => true,
        Change::Other => false,
        Change::Written => {
            let ghost all = sorted_set::item_views(event.paths@);
            let name = FilePath::from_bytes(
                vec![46u8, 103u8, 105u8, 116u8, 105u8, 103u8, 110u8, 111u8, 114u8, 101u8],
            );
            assert(name@ =~= gitignore_name());
            let mut i: usize = 0;
            while i < event.paths.len()
                invariant
                    i <= event.paths@.len(),
                    event.change == Change::Written,
                    name@ == gitignore_name(),
                    all == sorted_set::item_views(event.paths@),
                    forall|j: int|
                        0 <= j < i ==> !path::path_ends_with(#[trigger] all[j], gitignore_name()),
                decreases event.paths@.len() - i,
            {
                assert(all[i as int] == event.paths@[i as int]@);
                if event.paths[i].ends_with(&name) {
                    return true;
                }
                i = i + 1;
            }
            false
        },
    }
}

/// An order to the thread that watches the file system.
#[derive(Debug)]
pub enum MonitorControl {
    SetWatchedPaths(PathSet),
    SetConfigurationFile(FilePath),
    SetGlobalGitIgnore(FilePath),
    Shutdown,
}

/// An order to the thread that watches the file system.
pub enum MonitorControlView {
    SetWatchedPaths(Seq<Seq<u8>>),
    SetConfigurationFile(Seq<u8>),
    SetGlobalGitIgnore(Seq<u8>),
    Shutdown,
}

impl View for MonitorControl {
    type V = MonitorControlView;

    open spec fn view(&self) -> MonitorControlView {
        match *self {
            MonitorControl::SetWatchedPaths(paths) => MonitorControlView::SetWatchedPaths(paths@),
            MonitorControl::SetConfigurationFile(path) => {
                MonitorControlView::SetConfigurationFile(path@)
            },
            MonitorControl::SetGlobalGitIgnore(path) => {
                MonitorControlView::SetGlobalGitIgnore(path@)
            },
            MonitorControl::Shutdown => MonitorControlView::Shutdown,
        }
    }
}

/// A request to the watcher of the operating system.
#[derive(Debug)]
pub enum WatchRequest {
    Unwatch(FilePath),
    /// Watch a directory and all below it.
    WatchTree(FilePath),
    /// Watch one file.
    WatchFile(FilePath),
}

/// A request to the watcher of the operating system.
pub enum WatchRequestView {
    Unwatch(Seq<u8>),
    WatchTree(Seq<u8>),
    WatchFile(Seq<u8>),
}

impl View for WatchRequest {
    type V = WatchRequestView;

    open spec fn view(&self) -> WatchRequestView {
        match *self {
            WatchRequest::Unwatch(path) => WatchRequestView::Unwatch(path@),
            WatchRequest::WatchTree(path) => WatchRequestView::WatchTree(path@),
            WatchRequest::WatchFile(path) => WatchRequestView::WatchFile(path@),
        }
    }
}

/// What is watched.
#[derive(Debug)]
pub struct Watched {
    paths: PathSet,
    configuration_file: Option<FilePath>,
    global_gitignore: Option<FilePath>,
}

/// What is watched.
pub struct WatchedView {
    pub paths: Seq<Seq<u8>>,
    pub configuration_file: Option<Seq<u8>>,
    pub global_gitignore: Option<Seq<u8>>,
}

/// The view of a path that may be missing.
pub open spec fn option_view(path: Option<FilePath>) -> Option<Seq<u8>> {
    match path {
        Some(p) => Some(p@),
        None => None,
    }
}

impl View for Watched {
    type V = WatchedView;

    closed spec fn view(&self) -> WatchedView {
        WatchedView {
            paths: self.paths@,
            configuration_file: option_view(self.configuration_file),
            global_gitignore: option_view(self.global_gitignore),
        }
    }
}

/// Nothing is watched.
pub open spec fn nothing_watched() -> WatchedView {
    WatchedView { paths: Seq::empty(), configuration_file: None, global_gitignore: None }
}

/// The paths hold the file, if there is one.
pub open spec fn concerns(paths: Seq<Seq<u8>>, file: Option<Seq<u8>>) -> bool {
    file matches Some(f) && diff::lists(paths, path::components(f))
}

/// What to do about a change: the configuration is reloaded where its file or the file with the
/// patterns that git ignores everywhere changed, and the paths are scanned where the change is
/// accepted.
pub open spec fn fs_events(
    watched: WatchedView,
    change: Change,
    paths: Seq<Seq<u8>>,
) -> Seq<EventView> {
    (if concerns(paths, watched.configuration_file) || concerns(paths, watched.global_gitignore) {
        seq![EventView::ReloadConfiguration]
    } else {
        Seq::empty()
    }) + (if is_accepted(change, paths) {
        seq![EventView::ScanPaths(sorted_set::extended::<FilePath>(Seq::empty(), paths))]
    } else {
        Seq::empty()
    })
}

/// Requests to forget some paths.
pub open spec fn unwatch_all(paths: Seq<Seq<u8>>) -> Seq<WatchRequestView> {
    paths.map_values(|p: Seq<u8>| WatchRequestView::Unwatch(p))
}

/// Requests to watch some trees.
pub open spec fn watch_all(paths: Seq<Seq<u8>>) -> Seq<WatchRequestView> {
    paths.map_values(|p: Seq<u8>| WatchRequestView::WatchTree(p))
}

/// Requests to watch a file in place of another one.
pub open spec fn watch_instead(old_file: Option<Seq<u8>>, file: Seq<u8>) -> Seq<WatchRequestView> {
    match old_file {
        Some(f) => seq![WatchRequestView::Unwatch(f), WatchRequestView::WatchFile(file)],
        None => seq![WatchRequestView::WatchFile(file)],
    }
}

/// What to ask of the operating system for an order.
pub open spec fn watch_requests(
    watched: WatchedView,
    control: MonitorControlView,
) -> Seq<WatchRequestView> {
    match control {
        MonitorControlView::SetWatchedPaths(paths) => unwatch_all(watched.paths) + watch_all(paths),
        MonitorControlView::SetConfigurationFile(file) => watch_instead(
            watched.configuration_file,
            file,
        ),
        MonitorControlView::SetGlobalGitIgnore(file) => watch_instead(
            watched.global_gitignore,
            file,
        ),
        MonitorControlView::Shutdown => Seq::empty(),
    }
}

/// The paths for which the answer is yes.
pub open spec fn agreed(paths: Seq<Seq<u8>>, answers: Seq<bool>) -> Seq<Seq<u8>>
    decreases paths.len(),
{
    if paths.len() == 0 {
        Seq::empty()
    } else {
        let init = agreed(paths.drop_last(), answers);
        if answers[paths.len() - 1] {
            init.push(paths.last())
        } else {
            init
        }
    }
}

/// What is watched after an order, when `answers` says which of the trees the operating system
/// agreed to watch.
pub open spec fn watched_after(
    watched: WatchedView,
    control: MonitorControlView,
    answers: Seq<bool>,
) -> WatchedView {
    match control {
        MonitorControlView::SetWatchedPaths(paths) => WatchedView {
            paths: sorted_set::extended::<FilePath>(Seq::empty(), agreed(paths, answers)),
            configuration_file: watched.configuration_file,
            global_gitignore: watched.global_gitignore,
        },
        MonitorControlView::SetConfigurationFile(file) => WatchedView {
            paths: watched.paths,
            configuration_file: Some(file),
            global_gitignore: watched.global_gitignore,
        },
        MonitorControlView::SetGlobalGitIgnore(file) => WatchedView {
            paths: watched.paths,
            configuration_file: watched.configuration_file,
            global_gitignore: Some(file),
        },
        MonitorControlView::Shutdown => watched,
    }
}

/// Whether one of the paths is this one.
pub fn lists_path(paths: &Vec<FilePath>, wanted: &FilePath) -> (res: bool)
    ensures
        res == diff::lists(sorted_set::item_views(paths@), path::components(wanted@)),
{
    let ghost all = sorted_set::item_views(paths@);
    let mut i: usize = 0;
    while i < paths.len()
        invariant
            i <= paths@.len(),
            all == sorted_set::item_views(paths@),
            forall|j: int|
                0 <= j < i ==> path::components(#[trigger] all[j]) != path::components(wanted@),
        decreases paths@.len() - i,
    {
        assert(all[i as int] == paths@[i as int]@);
        if paths[i] == *wanted {
            return true;
        }
        i = i + 1;
    }
    false
}

/// Whether the paths hold the file, if there is one.
pub fn concerns_file(paths: &Vec<FilePath>, file: &Option<FilePath>) -> (res: bool)
    ensures
        res == concerns(sorted_set::item_views(paths@), option_view(*file)),
{
    match file {
        Some(f) => lists_path(paths, f),
        None => false,
    }
}

fn watch_file(old_file: &Option<FilePath>, file: &FilePath) -> (requests: Vec<WatchRequest>)
    ensures
        sorted_set::item_views(requests@) == watch_instead(option_view(*old_file), file@),
{
    let mut requests: Vec<WatchRequest> = Vec::new();
    if let Some(f) = old_file {
        requests.push(WatchRequest::Unwatch(f.clone()));
    }
    requests.push(WatchRequest::WatchFile(file.clone()));
    assert(sorted_set::item_views(requests@) =~= watch_instead(option_view(*old_file), file@));
    requests
}

impl Watched {
    pub fn new() -> (watched: Watched)
        ensures
            watched@ == nothing_watched(),
    {
        Watched { paths: PathSet::new(), configuration_file: None, global_gitignore: None }
    }

    /// What to do about a change in the file system.
    pub fn file_system_changed(&self, event: &FsEvent) -> (events: Vec<Event>)
        ensures
            sorted_set::item_views(events@) == fs_events(
                self@,
                event.change,
                sorted_set::item_views(event.paths@),
            ),
    {
        let mut events: Vec<Event> = Vec::new();
        if concerns_file(&event.paths, &self.configuration_file) || concerns_file(
            &event.paths,
            &self.global_gitignore,
        ) {
            events.push(Event::ReloadConfiguration);
        }
        if accept_event(event) {
            events.push(Event::ScanPaths(diff::path_set(&event.paths)));
        }
        assert(sorted_set::item_views(events@) =~= fs_events(
            self@,
            event.change,
            sorted_set::item_views(event.paths@),
        ));
        events
    }

    /// What to ask of the operating system for an order, in this order.
    pub fn requests(&self, control: &MonitorControl) -> (requests: Vec<WatchRequest>)
        ensures
            sorted_set::item_views(requests@) == watch_requests(self@, control@),
    {
        match control {
            MonitorControl::SetWatchedPaths(paths) => {
                let ghost all = watch_requests(self@, control@);
                let mut requests: Vec<WatchRequest> = Vec::new();
                let mut i: usize = 0;
                assert(sorted_set::item_views(requests@) =~= all.take(0));
                while i < self.paths.len()
                    invariant
                        i <= self.paths@.len(),
                        all == unwatch_all(self.paths@) + watch_all(paths@),
                        sorted_set::item_views(requests@) == all.take(i as int),
                    decreases self.paths@.len() - i,
                {
                    let ghost before = sorted_set::item_views(requests@);
                    let request = WatchRequest::Unwatch(self.paths.get(i).clone());
                    let ghost v = request@;
                    requests.push(request);
                    assert(all[i as int] == v);
                    assert(sorted_set::item_views(requests@) =~= before.push(v));
                    assert(before.push(v) =~= all.take(i + 1));
                    i = i + 1;
                }
                let ghost n = self.paths@.len() as int;
                let mut j: usize = 0;
                while j < paths.len()
                    invariant
                        j <= paths@.len(),
                        n == self.paths@.len(),
                        all == unwatch_all(self.paths@) + watch_all(paths@),
                        sorted_set::item_views(requests@) == all.take(n + j),
                    decreases paths@.len() - j,
                {
                    let ghost before = sorted_set::item_views(requests@);
                    let request = WatchRequest::WatchTree(paths.get(j).clone());
                    let ghost v = request@;
                    requests.push(request);
                    assert(all[n + j] == watch_all(paths@)[j as int]);
                    assert(sorted_set::item_views(requests@) =~= before.push(v));
                    assert(before.push(v) =~= all.take(n + j + 1));
                    j = j + 1;
                }
                assert(all.take(n + j) =~= all);
                requests
            },
            MonitorControl::SetConfigurationFile(file) => watch_file(
                &self.configuration_file,
                file,
            ),
            MonitorControl::SetGlobalGitIgnore(file) => watch_file(&self.global_gitignore, file),
            MonitorControl::Shutdown => {
                let requests: Vec<WatchRequest> = Vec::new();
                assert(sorted_set::item_views(requests@) =~= Seq::<WatchRequestView>::empty());
                requests
            },
        }
    }

    /// Takes an order. `answers` says which of the trees to watch the operating system agreed
    /// to watch. Returns whether the thread goes on.
    pub fn control(&mut self, control: MonitorControl, answers: &Vec<bool>) -> (goes_on: bool)
        requires
            control@ matches MonitorControlView::SetWatchedPaths(paths) ==> answers@.len()
                >= paths.len(),
        ensures
            final(self)@ == watched_after(old(self)@, control@, answers@),
            goes_on == !(control@ is Shutdown),
    {
        match control {
            MonitorControl::SetWatchedPaths(paths) => {
                let ghost all = paths@;
                let mut watched = PathSet::new();
                let ghost mut taken: Seq<Seq<u8>> = Seq::empty();
                let mut i: usize = 0;
                assert(all.take(0) =~= Seq::<Seq<u8>>::empty());
                while i < paths.len()
                    invariant
                        i <= all.len(),
                        all == paths@,
                        answers@.len() >= all.len(),
                        taken == agreed(all.take(i as int), answers@),
                        watched@ == sorted_set::extended::<FilePath>(Seq::empty(), taken),
                    decreases all.len() - i,
                {
                    assert(all.take(i + 1).drop_last() =~= all.take(i as int));
                    if answers[i] {
                        watched.insert(paths.get(i).clone());
                        proof {
                            assert(taken.push(all[i as int]).drop_last() =~= taken);
                            taken = taken.push(all[i as int]);
                        }
                    }
                    i = i + 1;
                }
                assert(all.take(i as int) =~= all);
                self.paths = watched;
                true
            },
            MonitorControl::SetConfigurationFile(file) => {
                self.configuration_file = Some(file);
                true
            },
            MonitorControl::SetGlobalGitIgnore(file) => {
                self.global_gitignore = Some(file);
                true
            },
            MonitorControl::Shutdown => false,
        }
    }
}

/// An order to the thread that watches Time Machine.
#[derive(Clone, Copy, PartialEq, Eq, Debug, Structural)]
pub enum TimeMachineControl {
    ResumeMonitoring,
    Shutdown,
}

/// How long to wait before Time Machine is asked again, in seconds.
pub const STATUS_PAUSE_SECS: u64 = 1;

/// What the thread that watches Time Machine does.
#[derive(Clone, Copy, PartialEq, Eq, Debug, Structural)]
pub enum TimeMachineWatch {
    /// It waits for an order.
    Idle,
    /// It asks whether a backup runs.
    Asking,
    /// It waits for an order, for a while, before it asks again.
    Pausing,
    Stopped,
}

/// Something that the thread that watches Time Machine waits for.
#[derive(Clone, Copy, PartialEq, Eq, Debug, Structural)]
pub enum TimeMachineInput {
    Control(TimeMachineControl),
    /// No more orders will come.
    ControlDropped,
    /// No order came for a while.
    Timeout,
    /// Whether a backup runs.
    Status(bool),
}

/// What is done after an input. While a backup runs, only a shutdown ends the watch.
pub open spec fn timemachine_after(
    watch: TimeMachineWatch,
    input: TimeMachineInput,
) -> TimeMachineWatch {
    match watch {
        TimeMachineWatch::Idle => match input {
            TimeMachineInput::Control(TimeMachineControl::ResumeMonitoring) => {
                TimeMachineWatch::Asking
            },
            TimeMachineInput::Control(TimeMachineControl::Shutdown) => TimeMachineWatch::Stopped,
            TimeMachineInput::ControlDropped => TimeMachineWatch::Stopped,
            _ => TimeMachineWatch::Idle,
        },
        TimeMachineWatch::Asking => match input {
            TimeMachineInput::Status(true) => TimeMachineWatch::Pausing,
            TimeMachineInput::Status(false) => TimeMachineWatch::Idle,
            _ => TimeMachineWatch::Asking,
        },
        TimeMachineWatch::Pausing => match input {
            TimeMachineInput::Control(TimeMachineControl::Shutdown) => TimeMachineWatch::Stopped,
            TimeMachineInput::Status(_) => TimeMachineWatch::Pausing,
            _ => TimeMachineWatch::Asking,
        },
        TimeMachineWatch::Stopped => TimeMachineWatch::Stopped,
    }
}

/// The input tells that a backup that was watched has finished.
pub open spec fn backup_finished(watch: TimeMachineWatch, input: TimeMachineInput) -> bool {
    watch == TimeMachineWatch::Asking && input == TimeMachineInput::Status(false)
}

/// Takes an input: what is done next, and whether to tell that the backup finished.
pub fn watch_timemachine(watch: TimeMachineWatch, input: TimeMachineInput) -> (res: (
    TimeMachineWatch,
    Option<Event>,
))
    ensures
        res.0 == timemachine_after(watch, input),
        match res.1 {
            Some(told) => backup_finished(watch, input) && told@
                == EventView::TimeMachineBackupFinished,
            None => !backup_finished(watch, input),
        },
{
    match watch {
        TimeMachineWatch::Idle => match input {
            TimeMachineInput::Control(TimeMachineControl::ResumeMonitoring) => (
                TimeMachineWatch::Asking,
                None,
            ),
            TimeMachineInput::Control(TimeMachineControl::Shutdown) => (
                TimeMachineWatch::Stopped,
                None,
            ),
            TimeMachineInput::ControlDropped => (TimeMachineWatch::Stopped, None),
            _ => (TimeMachineWatch::Idle, None),
        },
        TimeMachineWatch::Asking => match input {
            TimeMachineInput::Status(running) => if running {
                (TimeMachineWatch::Pausing, None)
            } else {
                (TimeMachineWatch::Idle, Some(Event::TimeMachineBackupFinished))
            },
            _ => (TimeMachineWatch::Asking, None),
        },
        TimeMachineWatch::Pausing => match input {
            TimeMachineInput::Control(TimeMachineControl::Shutdown) => (
                TimeMachineWatch::Stopped,
                None,
            ),
            TimeMachineInput::Status(_) => (TimeMachineWatch::Pausing, None),
            _ => (TimeMachineWatch::Asking, None),
        },
        TimeMachineWatch::Stopped => (TimeMachineWatch::Stopped, None),
    }
}

} // verus!
