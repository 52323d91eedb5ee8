//! Laws of what is told, word by word.
use vstd::prelude::*;

use crate::cache;
use crate::cache::OpenOrCreateError;
use crate::commands;
use crate::commands::event::EventView;
use crate::commands::monitor;
use crate::commands::monitor::BackupsView;
use crate::commands::path::{are_expanded, location, Locations, Paths};
use crate::commands::run;
use crate::config;
use crate::config::{ConfigView, LoadError, ValidationFailView};
use crate::facts::Kind;
use crate::git;
use crate::import;
use crate::report;
use crate::report::{Level, MessageView};
use crate::shell;
use crate::sorted_set;
use crate::text;
use crate::timemachine;

verus! {

/// Texts of one level become messages of that level, in their order.
pub proof fn messages_of_one_level(level: Level, texts: Seq<Seq<char>>, i: int)
    requires
        0 <= i < texts.len(),
    ensures
        report::messages(level, texts).len() == texts.len(),
        report::messages(level, texts)[i].level == level,
        report::messages(level, texts)[i].text == texts[i],
{
}

/// A fault is told with the path that it is about.
pub proof fn faults_are_told(p: Seq<u8>)
    ensures
        config::fail_text(ValidationFailView::FileInSearchPaths(p))
            == "File in search_directories: '"@ + text::lossy_text(p) + "'"@,
        config::fail_text(ValidationFailView::FileInIgnoredDirectories(p))
            == "File in ignored_directories: '"@ + text::lossy_text(p) + "'"@,
        config::fail_text(ValidationFailView::NotFound(p)) == "Path not found '"@
            + text::lossy_text(p) + "'"@,
        config::fail_text(ValidationFailView::NoSearchDirectories) == "No search directories"@,
{
}

/// An error of a configuration that is not valid holds all its faults, of which there are some, and
/// every other error keeps its own words.
pub proof fn errors_of_configurations(
    error: LoadError,
    found: Seq<(Seq<u8>, Kind)>,
    configuration: ConfigView,
)
    ensures
        config::is_validation_error(error, found, configuration) ==> {
            &&& error is Validation
            &&& config::validation_fails(found, configuration).len() > 0
            &&& sorted_set::item_views(error->Validation_0.fails@) == config::validation_fails(
                found,
                configuration,
            )
            &&& config::load_error_text(error) == "Validation error:\n"@ + config::fail_lines(
                config::validation_fails(found, configuration),
            )
        },
        error matches LoadError::Io(message) ==> config::load_error_text(error) == message@,
        error matches LoadError::Json(message) ==> config::load_error_text(error) == message@,
{
    if config::is_validation_error(error, found, configuration) {
        assert(sorted_set::item_views(error->Validation_0.fails@).len()
            == error->Validation_0.fails@.len());
    }
}

/// A reload that failed is told with the file and the error, and that nothing changed.
pub proof fn failed_reloads_are_told(config_file: Seq<u8>, error: Seq<char>)
    ensures
        monitor::reload_warnings(config_file, error).len() == 2,
        monitor::reload_warnings(config_file, error)[0].level == Level::Warn,
        monitor::reload_warnings(config_file, error)[0].text
            == "Failed to reload configuration '"@ + text::lossy_text(config_file) + "': "@ + error,
        monitor::reload_warnings(config_file, error)[1].level == Level::Warn,
        monitor::reload_warnings(config_file, error)[1].text
            == "Due to an error the configuration stay unchanged"@,
        config::no_parent_text(config_file) == "Can't get a parent path for '"@ + text::lossy_text(
            config_file,
        ) + "'"@,
{
}

/// Where a request to scan reveals a backup, that is told, and then that the request is delayed; in
/// a backup that is known only the latter is; without a backup nothing is.
pub proof fn backups_are_told(s: BackupsView, request: EventView)
    requires
        request is InitialScan || request is ScanPaths,
    ensures
        ({
            let started = report::message(Level::Info, "Time Machine backup started"@);
            let delayed = report::message(
                Level::Debug,
                "Time Machine is backing up, delaying event"@,
            );
            &&& !s.is_timemachine_running ==> monitor::backup_messages(s, request, true) == seq![
                started,
                delayed,
            ]
            &&& !s.is_timemachine_running ==> monitor::backup_messages(s, request, false).len() == 0
            &&& s.is_timemachine_running ==> monitor::backup_messages(s, request, true) == seq![
                delayed,
            ]
            &&& s.is_timemachine_running ==> monitor::backup_messages(s, request, false) == seq![
                delayed,
            ]
        }),
{
    let started = report::message(Level::Info, "Time Machine backup started"@);
    let delayed = report::message(Level::Debug, "Time Machine is backing up, delaying event"@);
    let none = Seq::<MessageView>::empty();
    assert(seq![started] + seq![delayed] =~= seq![started, delayed]);
    assert(none + seq![delayed] =~= seq![delayed]);
    assert(none + none =~= none);
}

/// Where the status is not known, that is told with the reason.
pub proof fn unknown_status_is_told(reason: Seq<char>)
    ensures
        timemachine::status_warning(reason) == "Failed to query Time Machine status: "@ + reason,
{
}

/// How many repositories a scan found is told, and with details each of them behind a bullet.
pub proof fn repositories_are_told(repositories: Seq<Seq<u8>>)
    ensures
        ({
            let n = repositories.len();
            let found = report::message(
                Level::Info,
                "Found "@ + text::decimal(n) + " "@ + text::pluralized("repository"@, n),
            );
            &&& run::found_messages(repositories, false) == seq![found]
            &&& run::found_messages(repositories, true) == seq![found] + commands::path_messages(
                "• "@,
                repositories,
                Seq::empty(),
            )
        }),
{
    assert(run::found_messages(repositories, false) =~= seq![
        run::found_messages(repositories, false)[0],
    ]);
}

/// The failure of a git command is told with the directory and with what git wrote.
pub proof fn git_failures_are_told(directory: Seq<u8>, stderr: Seq<u8>)
    ensures
        git::ls_files_warning(directory, stderr) == "Failed to find ignored file in repository '"@
            + text::lossy_text(directory) + "': "@ + text::lossy_text(stderr),
{
}

/// A configuration that was taken over is told with the new file, and then with the old one.
pub proof fn imports_are_told(old_file: Seq<u8>, new_file: Seq<u8>)
    ensures
        import::import_ends(old_file, new_file).len() == 2,
        import::import_ends(old_file, new_file)[0] == report::message(
            Level::Info,
            "Create new config file '"@ + text::lossy_text(new_file) + "'"@,
        ),
        import::import_ends(old_file, new_file)[1] == report::message(
            Level::Info,
            "You can delete '"@ + text::lossy_text(old_file) + "' now"@,
        ),
{
}

/// Errors of the cache are told in their own words, and another version with both numbers.
pub proof fn cache_errors_are_told(error: OpenOrCreateError, previous: u32, new: u32)
    ensures
        error is FileDoesNotExist ==> cache::open_error_text(error) == "File does not exist"@,
        error is NoParentDirectory ==> cache::open_error_text(error) == "No parent directory"@,
        error matches OpenOrCreateError::Io(message) ==> cache::open_error_text(error) == message@,
        error matches OpenOrCreateError::Sqlite(message) ==> cache::open_error_text(error)
            == message@,
        cache::update_text(previous, new) == "Cache updated from version "@ + text::decimal(
            previous as nat,
        ) + " to version "@ + text::decimal(new as nat),
{
}

/// A thread that panicked is told with its name and with what it said, as far as there are any.
pub proof fn panics_are_told(name: Seq<char>, said: Seq<char>)
    ensures
        commands::panic_text(Some(name), Some(said)) == "Thread '"@ + name + "' panicked"@ + (": "@
            + said),
        commands::panic_text(Some(name), None) == "Thread '"@ + name + "' panicked"@,
        commands::panic_text(None, None) == "Thread '"@ + "<unamed>"@ + "' panicked"@,
{
    assert(commands::panic_text(Some(name), None) =~= "Thread '"@ + name + "' panicked"@);
    assert(commands::panic_text(None, None) =~= "Thread '"@ + "<unamed>"@ + "' panicked"@);
}

/// The home directory takes the place of `~` in every location.
pub proof fn every_location_is_expanded(before: Locations, home: Seq<char>, after: Locations)
    requires
        are_expanded(before, home, after),
    ensures
        shell::is_expanded_with(before.config@, home, after.config@),
        shell::is_expanded_with(before.cache@, home, after.cache@),
        shell::is_expanded_with(before.legacy_config@, home, after.legacy_config@),
        shell::is_expanded_with(before.legacy_cache@, home, after.legacy_cache@),
{
    assert(location(before, Paths::Config) == before.config@);
    assert(location(before, Paths::Cache) == before.cache@);
    assert(location(before, Paths::LegacyConfig) == before.legacy_config@);
    assert(location(before, Paths::LegacyCache) == before.legacy_cache@);
}

/// Each file of the program has its own location.
pub proof fn every_file_has_its_location(locations: Locations)
    ensures
        location(locations, Paths::Config) == locations.config@,
        location(locations, Paths::Cache) == locations.cache@,
        location(locations, Paths::LegacyConfig) == locations.legacy_config@,
        location(locations, Paths::LegacyCache) == locations.legacy_cache@,
{
}

} // verus!
