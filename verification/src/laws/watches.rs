//! Laws of what is watched, and of what is done about a change.
use vstd::prelude::*;

use crate::commands::eager_monitor;
use crate::commands::event::EventView;
use crate::commands::watcher;
use crate::commands::watcher::{
    Change, MonitorControlView, TimeMachineControl, TimeMachineInput, TimeMachineWatch,
    WatchRequestView, WatchedView,
};
use crate::diff;
use crate::facts::Kind;
use crate::laws::exclusions;
use crate::laws::paths;
use crate::laws::rescans;
use crate::path;
use crate::path::FilePath;
use crate::sorted_set;

verus! {

/// The bytes of `.gitignore`.
pub open spec fn gitignore() -> Seq<u8> {
    seq![46u8, 103u8, 105u8, 116u8, 105u8, 103u8, 110u8, 111u8, 114u8, 101u8]
}

proof fn components_of_gitignore()
    ensures
        path::components(watcher::gitignore_name()) == seq![gitignore()],
{
    let name = gitignore();
    assert(!name.contains(47u8)) by {
        if name.contains(47u8) {
            let i = choose|i: int| 0 <= i < name.len() && name[i] == 47u8;
            assert(name[0] == 46u8 && name[1] == 103u8 && name[2] == 105u8 && name[3] == 116u8);
            assert(name[4] == 105u8 && name[5] == 103u8 && name[6] == 110u8 && name[7] == 111u8);
            assert(name[8] == 114u8 && name[9] == 101u8);
        }
    }
    assert(name.len() == 10 && seq![46u8].len() == 1);
    let none = Seq::<u8>::empty();
    paths::joined_name(none, name);
    assert(none + name =~= name);
    paths::components_of_the_shortest_paths();
    assert(path::components(name) =~= seq![name]);
}

/// What is created, removed or renamed counts, and so does what is written where one of the paths
/// is a `.gitignore`, in whatever directory; nothing else does.
pub proof fn changes_that_count(change: Change, changed: Seq<Seq<u8>>)
    ensures
        watcher::is_accepted(change, changed) <==> {
            ||| change == Change::Created
            ||| change == Change::Removed
            ||| change == Change::Renamed
            ||| change == Change::Written && exists|i: int|
                0 <= i < changed.len() && path::components(#[trigger] changed[i]).len() > 0
                    && path::components(changed[i]).last() == gitignore()
        },
{
    components_of_gitignore();
    let name = watcher::gitignore_name();
    assert forall|i: int| 0 <= i < changed.len() implies (path::path_ends_with(
        #[trigger] changed[i],
        name,
    ) <==> path::components(changed[i]).len() > 0 && path::components(changed[i]).last()
        == gitignore()) by {
        let a = path::components(changed[i]);
        paths::ends_with(changed[i], name);
        if path::path_ends_with(changed[i], name) {
            let first = choose|first: Seq<Seq<u8>>| a == #[trigger] (first + seq![gitignore()]);
            assert(a.last() == gitignore());
        }
        if a.len() > 0 && a.last() == gitignore() {
            assert(a =~= a.drop_last() + seq![gitignore()]);
        }
    }
    if watcher::names_gitignore(changed) {
        let i = choose|i: int|
            0 <= i < changed.len() && path::path_ends_with(#[trigger] changed[i], name);
        assert(path::components(changed[i]).len() > 0);
    }
    if exists|i: int|
        0 <= i < changed.len() && path::components(#[trigger] changed[i]).len() > 0
            && path::components(changed[i]).last() == gitignore() {
        let i = choose|i: int|
            0 <= i < changed.len() && path::components(#[trigger] changed[i]).len() > 0
                && path::components(changed[i]).last() == gitignore();
        assert(path::path_ends_with(changed[i], name));
    }
}

/// One of the paths is the file.
pub open spec fn is_changed(changed: Seq<Seq<u8>>, file: Seq<u8>) -> bool {
    exists|i: int|
        0 <= i < changed.len() && path::components(#[trigger] changed[i]) == path::components(file)
}

/// A change of the configuration file, or of the file with the patterns for everywhere, reloads the
/// configuration, whatever kind of change it is; a change that counts asks to scan just its paths;
/// nothing else is done.
pub proof fn what_is_done_about_a_change(
    watched: WatchedView,
    change: Change,
    changed: Seq<Seq<u8>>,
    k: Seq<Seq<u8>>,
)
    ensures
        ({
            let reload = seq![EventView::ReloadConfiguration];
            let all = sorted_set::extended::<FilePath>(Seq::empty(), changed);
            let is_reload = (watched.configuration_file is Some && is_changed(
                changed,
                watched.configuration_file->0,
            )) || (watched.global_gitignore is Some && is_changed(
                changed,
                watched.global_gitignore->0,
            ));
            let counts = watcher::is_accepted(change, changed);
            let events = watcher::fs_events(watched, change, changed);
            &&& is_reload && counts ==> events == reload + seq![EventView::ScanPaths(all)]
            &&& is_reload && !counts ==> events == reload
            &&& !is_reload && counts ==> events == seq![EventView::ScanPaths(all)]
            &&& !is_reload && !counts ==> events.len() == 0
            &&& diff::lists(all, k) <==> exists|i: int|
                0 <= i < changed.len() && path::components(#[trigger] changed[i]) == k
        }),
{
    let reload = seq![EventView::ReloadConfiguration];
    let all = sorted_set::extended::<FilePath>(Seq::empty(), changed);
    let none = Seq::<EventView>::empty();
    sorted_set::extended_laws::<FilePath>(Seq::empty(), changed);
    assert(diff::lists(all, k) <==> sorted_set::has_key::<FilePath>(changed, k));
    exclusions::listed_by_components(changed, k);
    if let Some(file) = watched.configuration_file {
        exclusions::listed_by_components(changed, path::components(file));
    }
    if let Some(file) = watched.global_gitignore {
        exclusions::listed_by_components(changed, path::components(file));
    }
    assert(none + seq![EventView::ScanPaths(all)] =~= seq![EventView::ScanPaths(all)]);
    assert(reload + none =~= reload);
    assert(none + none =~= none);
}

/// To watch other directories, every one that was watched is forgotten and then every new one is
/// watched.
pub proof fn requests_for_directories(watched: WatchedView, directories: Seq<Seq<u8>>)
    ensures
        ({
            let requests = watcher::watch_requests(
                watched,
                MonitorControlView::SetWatchedPaths(directories),
            );
            let n = watched.paths.len() as int;
            &&& requests.len() == n + directories.len()
            &&& forall|i: int|
                0 <= i < n ==> #[trigger] requests[i] == WatchRequestView::Unwatch(watched.paths[i])
            &&& forall|i: int|
                n <= i < n + directories.len() ==> #[trigger] requests[i]
                    == WatchRequestView::WatchTree(directories[i - n])
        }),
{
}

/// To watch a file, the one that was watched in its place is forgotten before.
pub proof fn requests_for_files(watched: WatchedView, file: Seq<u8>)
    ensures
        watched.configuration_file is None ==> watcher::watch_requests(
            watched,
            MonitorControlView::SetConfigurationFile(file),
        ) == seq![WatchRequestView::WatchFile(file)],
        watched.configuration_file matches Some(other) ==> watcher::watch_requests(
            watched,
            MonitorControlView::SetConfigurationFile(file),
        ) == seq![WatchRequestView::Unwatch(other), WatchRequestView::WatchFile(file)],
        watched.global_gitignore is None ==> watcher::watch_requests(
            watched,
            MonitorControlView::SetGlobalGitIgnore(file),
        ) == seq![WatchRequestView::WatchFile(file)],
        watched.global_gitignore matches Some(other) ==> watcher::watch_requests(
            watched,
            MonitorControlView::SetGlobalGitIgnore(file),
        ) == seq![WatchRequestView::Unwatch(other), WatchRequestView::WatchFile(file)],
        watcher::watch_requests(watched, MonitorControlView::Shutdown).len() == 0,
{
}

proof fn agreed_members(directories: Seq<Seq<u8>>, answers: Seq<bool>, k: Seq<Seq<u8>>)
    ensures
        diff::lists(watcher::agreed(directories, answers), k) <==> exists|i: int|
            0 <= i < directories.len() && path::components(#[trigger] directories[i]) == k
                && answers[i],
    decreases directories.len(),
{
    if directories.len() > 0 {
        let n = directories.len() - 1;
        let init = directories.drop_last();
        let some = watcher::agreed(init, answers);
        agreed_members(init, answers, k);
        diff::lists_after_push(some, directories.last(), k);
        if diff::lists(some, k) {
            let i = choose|i: int|
                0 <= i < init.len() && path::components(#[trigger] init[i]) == k && answers[i];
            assert(directories[i] == init[i]);
        }
        if answers[n] && path::components(directories.last()) == k {
            assert(directories[n] == directories.last());
        }
        if exists|i: int|
            0 <= i < directories.len() && path::components(#[trigger] directories[i]) == k
                && answers[i] {
            let i = choose|i: int|
                0 <= i < directories.len() && path::components(#[trigger] directories[i]) == k
                    && answers[i];
            if i < n {
                assert(init[i] == directories[i]);
            }
        }
    }
}

/// After an order to watch directories just those are watched that the system agreed to watch, and
/// the files stay; an order to watch a file changes that file alone.
pub proof fn what_is_watched(
    watched: WatchedView,
    directories: Seq<Seq<u8>>,
    answers: Seq<bool>,
    file: Seq<u8>,
    k: Seq<Seq<u8>>,
)
    ensures
        ({
            let after = watcher::watched_after(
                watched,
                MonitorControlView::SetWatchedPaths(directories),
                answers,
            );
            &&& after.configuration_file == watched.configuration_file
            &&& after.global_gitignore == watched.global_gitignore
            &&& diff::lists(after.paths, k) <==> exists|i: int|
                0 <= i < directories.len() && path::components(#[trigger] directories[i]) == k
                    && answers[i]
        }),
        watcher::watched_after(watched, MonitorControlView::SetConfigurationFile(file), answers)
            == (WatchedView {
            paths: watched.paths,
            configuration_file: Some(file),
            global_gitignore: watched.global_gitignore,
        }),
        watcher::watched_after(watched, MonitorControlView::SetGlobalGitIgnore(file), answers)
            == (WatchedView {
            paths: watched.paths,
            configuration_file: watched.configuration_file,
            global_gitignore: Some(file),
        }),
        watcher::watched_after(watched, MonitorControlView::Shutdown, answers) == watched,
{
    agreed_members(directories, answers, k);
    sorted_set::extended_laws::<FilePath>(Seq::empty(), watcher::agreed(directories, answers));
    let after = watcher::watched_after(
        watched,
        MonitorControlView::SetWatchedPaths(directories),
        answers,
    );
    assert(diff::lists(after.paths, k) <==> sorted_set::has_key::<FilePath>(
        watcher::agreed(directories, answers),
        k,
    ));
}

/// When it is told to, the watch of Time Machine asks whether a backup runs, and asks again after
/// every pause as long as one does; when none does any more, and only then, it tells that the
/// backup finished, and waits for the next order. A shutdown stops it, but while it asks.
pub proof fn time_machine_is_watched(watch: TimeMachineWatch, input: TimeMachineInput)
    ensures
        watcher::timemachine_after(
            TimeMachineWatch::Idle,
            TimeMachineInput::Control(TimeMachineControl::ResumeMonitoring),
        ) == TimeMachineWatch::Asking,
        watcher::timemachine_after(TimeMachineWatch::Asking, TimeMachineInput::Status(true))
            == TimeMachineWatch::Pausing,
        watcher::timemachine_after(TimeMachineWatch::Pausing, TimeMachineInput::Timeout)
            == TimeMachineWatch::Asking,
        watcher::timemachine_after(TimeMachineWatch::Asking, TimeMachineInput::Status(false))
            == TimeMachineWatch::Idle,
        watch != TimeMachineWatch::Asking && input == TimeMachineInput::Control(
            TimeMachineControl::Shutdown,
        ) ==> watcher::timemachine_after(watch, input) == TimeMachineWatch::Stopped,
        watcher::timemachine_after(TimeMachineWatch::Idle, TimeMachineInput::ControlDropped)
            == TimeMachineWatch::Stopped,
        watcher::timemachine_after(TimeMachineWatch::Stopped, input) == TimeMachineWatch::Stopped,
        watcher::timemachine_after(TimeMachineWatch::Idle, TimeMachineInput::Timeout)
            == TimeMachineWatch::Idle,
        !(input is Status) ==> watcher::timemachine_after(TimeMachineWatch::Asking, input)
            == TimeMachineWatch::Asking,
        watcher::timemachine_after(
            TimeMachineWatch::Pausing,
            TimeMachineInput::Control(TimeMachineControl::ResumeMonitoring),
        ) == TimeMachineWatch::Asking,
        watcher::timemachine_after(TimeMachineWatch::Pausing, TimeMachineInput::ControlDropped)
            == TimeMachineWatch::Asking,
        watcher::timemachine_after(TimeMachineWatch::Pausing, input) == TimeMachineWatch::Stopped
            ==> input == TimeMachineInput::Control(TimeMachineControl::Shutdown),
        watcher::backup_finished(watch, input) <==> watch == TimeMachineWatch::Asking && input
            == TimeMachineInput::Status(false),
{
}

/// The monitor that looks for the repositories at once asks, for a change that counts, to scan the
/// repositories of all its paths that are in a watched directory, and no others.
pub proof fn eager_monitor_finds_repositories(
    watched: Seq<Seq<u8>>,
    configuration_file: Seq<u8>,
    global_gitignore: Seq<u8>,
    found: Seq<(Seq<u8>, Kind)>,
    change: Change,
    changed: Seq<Seq<u8>>,
    k: Seq<Seq<u8>>,
)
    ensures
        ({
            let reload = seq![eager_monitor::EventView::ReloadConfiguration];
            let none = Seq::<eager_monitor::EventView>::empty();
            let all = sorted_set::extended::<FilePath>(
                Seq::empty(),
                crate::commands::rescan::searched_repositories(found, watched, changed),
            );
            let events = eager_monitor::fs_events(
                watched,
                configuration_file,
                Some(global_gitignore),
                found,
                change,
                changed,
            );
            &&& events == (if is_changed(changed, configuration_file) || is_changed(
                changed,
                global_gitignore,
            ) {
                reload
            } else {
                none
            }) + (if watcher::is_accepted(change, changed) {
                seq![eager_monitor::EventView::ScanRepositories(all)]
            } else {
                none
            })
            &&& diff::lists(all, k) <==> exists|p: Seq<u8>, r: Seq<u8>|
                changed.contains(p) && #[trigger] rescans::is_searched_in(found, watched, p, r)
                    && path::components(r) == k
        }),
{
    let repositories = crate::commands::rescan::searched_repositories(found, watched, changed);
    let all = sorted_set::extended::<FilePath>(Seq::empty(), repositories);
    exclusions::listed_by_components(changed, path::components(configuration_file));
    exclusions::listed_by_components(changed, path::components(global_gitignore));
    sorted_set::extended_laws::<FilePath>(Seq::empty(), repositories);
    assert(diff::lists(all, k) <==> sorted_set::has_key::<FilePath>(repositories, k));
    rescans::searched(found, watched, changed, k);
}

} // verus!
