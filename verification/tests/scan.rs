use tmignore::cache::{Cache, Stored, Timestamp};
use tmignore::commands::rescan::{
    commit_changes, find_changes, find_repositories_to_scan, paths_in_repository,
    repositories_in_doubt,
};
use tmignore::commands::run::Scan;
use tmignore::commands::{
    apply_diff_and_print, find_paths_to_exclude_from_backup, removals_to_apply, requests_for,
    reset, run, thread_panicked, Answers, Request, Resolution,
};
use tmignore::config::TextSet;
use tmignore::diff::{Diff, Exclusion, PathSet};
use tmignore::facts::{Findings, Kind};
use tmignore::git::{contains_not_ignored_path, find_ignored_files, LsFiles};
use tmignore::path::FilePath;
use tmignore::report::Level;
use tmignore::whitelist::{create_whitelist, Whitelist};

fn p(text: &str) -> FilePath {
    FilePath::new(text)
}

fn set(paths: &[&str]) -> PathSet {
    let mut all = PathSet::new();
    for path in paths {
        all.insert(p(path));
    }
    all
}

fn now() -> Timestamp {
    Timestamp { seconds: 1, nanos: 0 }
}

fn whitelist(patterns: &[&str]) -> Whitelist {
    let mut all = TextSet::new();
    for pattern in patterns {
        all.insert(pattern.to_string());
    }
    create_whitelist(&all).whitelist.unwrap()
}

/// What git lists in a repository: the names, each with a zero byte behind it.
fn listed(repository: &str, names: &[&str]) -> Vec<FilePath> {
    let mut stdout = Vec::new();
    for name in names {
        stdout.extend_from_slice(name.as_bytes());
        stdout.push(0);
    }
    find_ignored_files(&LsFiles::Listed(p(repository), stdout)).files
}

/// Time Machine agrees to everything.
fn agreed(diff: &Diff) -> Answers {
    Answers { added: vec![0; diff.added.len()], removed: vec![0; diff.removed.len()] }
}

/// A scan of everything, from what git lists in each repository that is found.
fn full_scan(cache: &mut Cache, found: &[(&str, &[&str])], dry_run: bool) -> usize {
    let mut scan = Scan::begin(&set(&["/"])).unwrap();
    let mut scanned = 0;
    for (repository, names) in found {
        if scan.visit(&p(repository)) {
            scanned += 1;
            let ignored = listed(repository, names);
            scan.collect(&p(repository), &ignored, &vec![], &whitelist(&[]));
        }
    }
    let result = scan.finish(false);
    let diff = cache.find_diff(&result.exclusions);
    let applied = apply_diff_and_print(&diff, &vec![], &agreed(&diff), dry_run, false);
    run::commit(cache, &result.exclusions, &applied.failed, dry_run, now());
    scanned
}

/// A scan of one repository again.
fn rescan_one(cache: &mut Cache, repository: &str, names: &[&str]) -> Vec<FilePath> {
    let mut exclusions = Vec::new();
    find_paths_to_exclude_from_backup(
        &p(repository),
        &listed(repository, names),
        &vec![],
        &whitelist(&[]),
        &mut exclusions,
    );
    if let Some(diff) = find_changes(cache, &p(repository), exclusions) {
        let applied = apply_diff_and_print(&diff, &vec![], &agreed(&diff), false, false);
        commit_changes(cache, &p(repository), &diff, &applied.failed, false, now());
    }
    sorted(cache.paths())
}

fn sorted(paths: Vec<FilePath>) -> Vec<FilePath> {
    tmignore::sort::sort(paths)
}

fn all(paths: &[&str]) -> Vec<FilePath> {
    paths.iter().map(|path| p(path)).collect()
}

#[test]
fn test_command() {
    let mut cache = Cache::open_in_memory();
    full_scan(&mut cache, &[("/t", &["a", "b"])], false);
    let paths = cache.paths();
    assert_eq!(2, paths.len());
    assert_eq!(p("/t/a"), paths[0]);
    assert_eq!(p("/t/b"), paths[1]);
}

#[test]
fn test_dry_run() {
    let mut cache = Cache::open_in_memory();
    full_scan(&mut cache, &[("/t", &["a", "b"])], true);
    assert_eq!(0, cache.paths().len());
    assert_eq!(None, cache.last_update().unwrap());
    let diff = Diff { added: set(&["/t/a"]), removed: set(&["/t/b"]) };
    let requests = requests_for(&diff, &vec![], true);
    assert!(requests.is_empty());
}

#[test]
fn test_gitignored_symlink_does_not_exclude_target() {
    let mut scan = Scan::begin(&set(&["/t/repository"])).unwrap();
    assert!(scan.visit(&p("/t/repository")));
    let ignored = listed("/t/repository", &["link"]);
    scan.collect(&p("/t/repository"), &ignored, &all(&["/t/repository/link"]), &whitelist(&[]));
    assert!(scan.finish(false).exclusions.is_empty());
}

#[test]
fn test_case_only_rename_keeps_the_directory_excluded() {
    let mut cache = Cache::open_in_memory();
    full_scan(&mut cache, &[("/t/repository", &["Foo/"])], false);
    let exclusions = vec![Exclusion::new(p("/t/repository/foo/"), p("/t/repository"))];
    let diff = cache.find_diff(&exclusions);
    let resolved = vec![
        Resolution { path: p("/t/repository/Foo/"), canonical: p("/t/repository/foo") },
        Resolution { path: p("/t/repository/foo/"), canonical: p("/t/repository/foo") },
    ];
    let requests = requests_for(&diff, &resolved, false);
    assert_eq!(2, requests.len());
    assert!(matches!(&requests[0], Request::Remove(paths) if paths.is_empty()));
    assert!(matches!(&requests[1], Request::Add(paths) if *paths == all(&["/t/repository/foo"])));
}

#[test]
fn test_overlapping_search_directories_scan_every_repository_once() {
    let mut cache = Cache::open_in_memory();
    let scanned = full_scan(
        &mut cache,
        &[
            ("/t/nested/repository", &["a"]),
            ("/t/other_repository", &["b"]),
            ("/t/nested/repository", &["a"]),
        ],
        false,
    );
    assert_eq!(2, scanned);
    assert_eq!(
        all(&["/t/nested/repository/a", "/t/other_repository/b"]),
        sorted(cache.paths())
    );
}

#[test]
fn nothing_is_scanned_without_directories() {
    assert!(Scan::begin(&set(&[])).is_none());
}

#[test]
fn a_scan_tells_what_it_found() {
    let mut scan = Scan::begin(&set(&["/t"])).unwrap();
    assert!(scan.visit(&p("/t/b")));
    assert!(scan.visit(&p("/t/a")));
    assert!(!scan.visit(&p("/t/b/")));
    let found = scan.finish(true);
    let lines: Vec<&str> = found.messages.iter().map(|m| m.text.as_str()).collect();
    assert_eq!(vec!["Found 2 repositories", "• /t/a", "• /t/b"], lines);
    let mut scan = Scan::begin(&set(&["/t"])).unwrap();
    scan.visit(&p("/t/b"));
    assert_eq!("Found 1 repository", scan.finish(false).messages[0].text);
}

#[test]
fn a_second_scan_retries_what_failed() {
    let mut cache = Cache::open_in_memory();
    let exclusions = vec![Exclusion::new(p("/r/a"), p("/r")), Exclusion::new(p("/r/b"), p("/r"))];
    let diff = cache.find_diff(&exclusions);
    let answers = Answers { added: vec![0, 5], removed: vec![] };
    let applied = apply_diff_and_print(&diff, &vec![], &answers, false, true);
    assert_eq!(vec![p("/r/b")], applied.failed.items().clone());
    let lines: Vec<&str> = applied.messages.iter().map(|m| m.text.as_str()).collect();
    assert_eq!(
        vec![
            "Added 1 path to the backup exclusion list",
            "+ /r/a",
            "Error: /r/b: OS Status 5"
        ],
        lines
    );
    run::commit(&mut cache, &exclusions, &applied.failed, false, now());
    assert_eq!(all(&["/r/a"]), cache.paths());
    let diff = cache.find_diff(&exclusions);
    assert_eq!(vec![p("/r/b")], diff.added.into_items());
    assert!(diff.removed.is_empty());
}

#[test]
fn reset_test_reset() {
    let mut cache = Cache::open_in_memory();
    full_scan(&mut cache, &[("/t", &["a", "b"])], false);
    let diff = reset::find_changes(&cache);
    assert!(diff.added.is_empty());
    assert_eq!(all(&["/t/a", "/t/b"]), diff.removed.into_items());
    reset::commit(&mut cache, true, now());
    assert_eq!(2, cache.paths().len());
    reset::commit(&mut cache, false, now());
    assert!(cache.paths().is_empty());
}

#[test]
fn test_apply_diff_add_print_error() {
    let diff = Diff { added: set(&["/t/a"]), removed: PathSet::new() };
    let answers = Answers { added: vec![1], removed: vec![] };
    let applied = apply_diff_and_print(&diff, &vec![], &answers, false, false);

    assert_eq!(1, applied.failed.len());
    let last = applied.messages.last().unwrap();
    assert_eq!("Error: /t/a: OS Status 1", last.text);
    assert_eq!(Level::Warn, last.level);
}

#[test]
fn test_apply_diff_remove_print_error() {
    let diff = Diff { removed: set(&["/t/a"]), added: PathSet::new() };
    let answers = Answers { added: vec![], removed: vec![1] };
    let applied = apply_diff_and_print(&diff, &vec![], &answers, false, false);
    assert!(applied.failed.is_empty());
    let lines: Vec<&str> = applied.messages.iter().map(|m| m.text.as_str()).collect();
    assert_eq!(
        vec!["Removed 1 path from the backup exclusion list", "Error: /t/a: OS Status 1"],
        lines
    );
}

#[test]
fn test_apply_diff_does_not_remove_an_item_it_adds_under_another_spelling() {
    let diff = Diff { added: set(&["/t/foo"]), removed: set(&["/t/Foo"]) };
    let resolved = vec![
        Resolution { path: p("/t/foo"), canonical: p("/t/foo") },
        Resolution { path: p("/t/Foo"), canonical: p("/t/foo") },
    ];
    let requests = requests_for(&diff, &resolved, false);
    assert_eq!(2, requests.len());
    assert!(matches!(&requests[0], Request::Remove(paths) if paths.is_empty()));
    assert!(matches!(&requests[1], Request::Add(paths) if *paths == all(&["/t/foo"])));
    let applied = apply_diff_and_print(&diff, &resolved, &agreed(&diff), false, false);
    assert!(applied.failed.is_empty());
}

#[test]
fn removals_are_asked_for_before_additions() {
    let diff = Diff { added: set(&["/d", "/c"]), removed: set(&["/b", "/a"]) };
    let requests = requests_for(&diff, &vec![], false);
    assert_eq!(2, requests.len());
    assert!(matches!(&requests[0], Request::Remove(paths) if *paths == all(&["/a", "/b"])));
    assert!(matches!(&requests[1], Request::Add(paths) if *paths == all(&["/c", "/d"])));
}

#[test]
fn removals_are_applied_where_nothing_is_added() {
    let diff = Diff { added: PathSet::new(), removed: set(&["/b", "/a"]) };
    let resolved = vec![Resolution { path: p("/a"), canonical: p("/a") }];
    assert_eq!(all(&["/a", "/b"]), removals_to_apply(&diff, &resolved));
    let diff = Diff { added: set(&["/c"]), removed: set(&["/b", "/a"]) };
    assert_eq!(all(&["/a", "/b"]), removals_to_apply(&diff, &resolved));
}

#[test]
fn changes_are_counted() {
    let diff = Diff { added: set(&["/a", "/b"]), removed: set(&["/c", "/d", "/e"]) };
    let applied = apply_diff_and_print(&diff, &vec![], &agreed(&diff), true, true);
    let lines: Vec<&str> = applied.messages.iter().map(|m| m.text.as_str()).collect();
    assert_eq!(
        vec![
            "Added 2 paths to the backup exclusion list",
            "Removed 3 paths from the backup exclusion list",
            "+ /a",
            "+ /b",
            "- /c",
            "- /d",
            "- /e",
        ],
        lines
    );
    let none = Diff { added: PathSet::new(), removed: PathSet::new() };
    let applied = apply_diff_and_print(&none, &vec![], &agreed(&none), false, false);
    assert_eq!("No changes to the backup exclusion list", applied.messages[0].text);
}

#[test]
fn the_whitelist_keeps_paths_in_the_backup() {
    let mut exclusions = Vec::new();
    let not_text = FilePath::from_bytes(vec![47, 255, 46, 107]);
    let mut ignored = all(&["/r/a.keep", "/r/b", "/r/link"]);
    ignored.push(not_text.clone());
    find_paths_to_exclude_from_backup(
        &p("/r"),
        &ignored,
        &all(&["/r/link"]),
        &whitelist(&["*.keep"]),
        &mut exclusions,
    );
    assert_eq!(
        vec![Exclusion::new(p("/r/b"), p("/r")), Exclusion::new(not_text, p("/r"))],
        exclusions
    );
}

#[test]
fn test_rescan_main_repository_does_not_remove_submodule_exclusions() {
    let mut cache = Cache::open_in_memory();
    full_scan(
        &mut cache,
        &[("/t/main", &["ignored_in_main"]), ("/t/main/submodule", &["ignored_in_sub"])],
        false,
    );
    let cached = rescan_one(&mut cache, "/t/main", &["ignored_in_main"]);
    assert_eq!(all(&["/t/main/ignored_in_main", "/t/main/submodule/ignored_in_sub"]), cached);
}

#[test]
fn test_rescan_main_repository_does_not_remove_nested_worktree_exclusions() {
    let mut cache = Cache::open_in_memory();
    full_scan(
        &mut cache,
        &[
            ("/t/main", &["ignored_in_main"]),
            ("/t/main/nested_worktree", &["ignored_in_worktree"]),
        ],
        false,
    );
    let cached = rescan_one(&mut cache, "/t/main", &["ignored_in_main"]);
    assert!(cached.contains(&p("/t/main/nested_worktree/ignored_in_worktree")));
}

#[test]
fn test_rescan_adds_and_removes_exclusions_in_the_same_scan() {
    let mut cache = Cache::open_in_memory();
    full_scan(&mut cache, &[("/t/main", &["a", "b"])], false);
    let cached = rescan_one(&mut cache, "/t/main", &["b", "c"]);
    assert!(!cached.contains(&p("/t/main/a")));
    assert!(cached.contains(&p("/t/main/b")));
    assert!(cached.contains(&p("/t/main/c")));
}

#[test]
fn test_rescan_main_repository_does_not_remove_submodule_exclusions_when_submodule_directory_is_gitignored(
) {
    let mut cache = Cache::open_in_memory();
    full_scan(
        &mut cache,
        &[("/t/main", &["ignored_in_main"]), ("/t/main/submodule", &["ignored_in_sub"])],
        false,
    );
    let cached = rescan_one(&mut cache, "/t/main", &["ignored_in_main", "submodule/"]);
    assert!(cached.contains(&p("/t/main/submodule/ignored_in_sub")));
}

#[test]
fn test_rescan_excludes_a_new_ignored_file_in_a_not_collapsed_directory() {
    let mut cache = Cache::open_in_memory();
    full_scan(&mut cache, &[("/t/main", &[])], false);
    assert!(cache.paths().is_empty());
    let cached = rescan_one(&mut cache, "/t/main", &["src/new.log"]);
    assert_eq!(all(&["/t/main/src/new.log"]), cached);
}

#[test]
fn test_rescan_excludes_a_new_wholly_ignored_directory() {
    let mut cache = Cache::open_in_memory();
    full_scan(&mut cache, &[("/t/main", &[])], false);
    let cached = rescan_one(&mut cache, "/t/main", &["node_modules/"]);
    assert_eq!(all(&["/t/main/node_modules"]), cached);
}

#[test]
fn test_rescan_removes_a_directory_exclusion_when_a_non_ignored_file_appears_in_it() {
    let mut cache = Cache::open_in_memory();
    full_scan(&mut cache, &[("/t/main", &["big_dir/"])], false);
    assert_eq!(all(&["/t/main/big_dir"]), cache.paths());
    let cached = rescan_one(&mut cache, "/t/main", &["big_dir/a.log", "big_dir/b.log"]);
    assert_eq!(all(&["/t/main/big_dir/a.log", "/t/main/big_dir/b.log"]), cached);
}

#[test]
fn test_rescan_main_repository_removes_the_exclusion_it_created_for_a_nested_repository() {
    let mut cache = Cache::open_in_memory();
    full_scan(
        &mut cache,
        &[("/t/main", &["ignored_in_main"]), ("/t/main/nested", &["ignored_in_nested"])],
        false,
    );
    let cached = rescan_one(&mut cache, "/t/main", &["ignored_in_main", "nested/"]);
    assert_eq!(
        all(&["/t/main/ignored_in_main", "/t/main/nested", "/t/main/nested/ignored_in_nested"]),
        cached
    );
    let cached = rescan_one(&mut cache, "/t/main", &["ignored_in_main"]);
    assert_eq!(all(&["/t/main/ignored_in_main", "/t/main/nested/ignored_in_nested"]), cached);
}

#[test]
fn test_rescan_removes_an_exclusion_after_a_repository_appears_under_it() {
    let mut cache = Cache::open_in_memory();
    full_scan(&mut cache, &[("/t/main", &["vendor/thing/"])], false);
    assert!(cache.paths().contains(&p("/t/main/vendor/thing")));
    let cached = rescan_one(&mut cache, "/t/main", &[]);
    assert!(!cached.contains(&p("/t/main/vendor/thing")));
}

#[test]
fn test_a_cache_written_before_the_repository_was_recorded_is_usable_after_a_full_scan() {
    let file = Stored {
        rows: vec![Exclusion::orphan(p("/t/main/a")), Exclusion::orphan(p("/t/main/big_dir/"))],
        last_update: None,
        version: 2,
    };
    let mut cache = Cache::open(Some(file)).unwrap();
    assert!(cache.paths_created_by(&p("/t/main")).is_empty());

    full_scan(&mut cache, &[("/t/main", &["a", "big_dir/"])], false);

    let owned = sorted(cache.paths_created_by(&p("/t/main")));
    assert_eq!(all(&["/t/main/a", "/t/main/big_dir"]), owned);

    let cached = rescan_one(&mut cache, "/t/main", &["big_dir/"]);
    assert_eq!(all(&["/t/main/big_dir"]), cached);
}

#[test]
fn a_rescan_without_changes_leaves_the_cache() {
    let mut cache = Cache::open_in_memory();
    cache.reset(
        vec![Exclusion::new(p("/r/a/"), p("/r"))],
        Timestamp { seconds: 9, nanos: 9 },
    );
    let same = vec![Exclusion::new(p("/r/a"), p("/r")), Exclusion::new(p("/r/a"), p("/r"))];
    assert!(find_changes(&cache, &p("/r"), same).is_none());
}

#[test]
fn a_path_is_cached_in_one_spelling() {
    let mut cache = Cache::open_in_memory();
    full_scan(&mut cache, &[("/t", &["a", "a/"]), ("/u", &["c"])], false);
    assert_eq!(1, cache.paths_created_by(&p("/t")).len());
    rescan_one(&mut cache, "/t", &["a/", "b", "b/"]);
    assert_eq!(2, cache.paths_created_by(&p("/t")).len());
    assert_eq!(all(&["/t/a", "/t/b"]), sorted(cache.paths_created_by(&p("/t"))));
    assert_eq!(all(&["/u/c"]), cache.paths_created_by(&p("/u")));
}

#[test]
fn a_dry_rescan_leaves_the_cache() {
    let mut cache = Cache::open_in_memory();
    let diff = Diff { added: set(&["/r/a"]), removed: PathSet::new() };
    commit_changes(&mut cache, &p("/r"), &diff, &PathSet::new(), true, now());
    assert!(cache.paths().is_empty());
    assert_eq!(None, cache.last_update().unwrap());
    commit_changes(&mut cache, &p("/r"), &diff, &set(&["/r/a"]), false, now());
    assert!(cache.paths().is_empty());
    assert_eq!(Some(now()), cache.last_update().unwrap());
}

/// The repositories to scan, when git ignores just the given paths.
fn scan(cache: &Cache, paths: &[&str], ignored: &[&str]) -> Vec<FilePath> {
    let mut found = Findings::new();
    found.add(p("/t/repository/.git"), Kind::Directory);
    found.add(p("/t/outside/.git"), Kind::Directory);
    let directories = set(&["/t/repository"]);
    let paths = set(paths);
    let mut unignored = PathSet::new();
    let doubtful = repositories_in_doubt(&paths, &directories, cache, &found);
    for repository in doubtful.items() {
        let asked = paths_in_repository(&paths, &directories, &found, repository);
        let mut answer = Vec::new();
        for path in ignored {
            answer.extend_from_slice(path.as_bytes());
            answer.push(0);
        }
        if contains_not_ignored_path(&asked, &Some(answer)) {
            unignored.insert(repository.clone());
        }
    }
    find_repositories_to_scan(&paths, &directories, cache, &found, &unignored).into_items()
}

#[test]
fn test_find_repositories_to_scan() {
    let mut cache = Cache::open_in_memory();
    cache.reset(
        vec![
            Exclusion::new(p("/t/repository/target"), p("/t/repository")),
            Exclusion::new(p("/t/repository/logs"), p("/t/repository")),
        ],
        now(),
    );
    let ignored = [
        "/t/repository/target/debug/binary",
        "/t/repository/target/debug/deleted_binary",
        "/t/repository/logs/a.log",
        "/t/repository/new.log",
        "/t/repository/target",
    ];
    let scanned = all(&["/t/repository"]);

    assert_eq!(scanned, scan(&cache, &["/t/repository/src/main.rs"], &ignored));
    assert!(scan(&cache, &["/t/repository/target/debug/binary"], &ignored).is_empty());
    assert!(scan(&cache, &["/t/repository/logs/a.log"], &ignored).is_empty());
    assert_eq!(scanned, scan(&cache, &["/t/repository/new.log"], &ignored));
    assert_eq!(scanned, scan(&cache, &["/t/repository/logs/keep.txt"], &ignored));
    assert!(scan(&cache, &["/t/repository/target/debug/deleted_binary"], &ignored).is_empty());
    assert_eq!(scanned, scan(&cache, &["/t/repository/target"], &ignored));
    assert!(scan(&cache, &["/t/outside/file"], &ignored).is_empty());
    assert_eq!(
        scanned,
        scan(&cache, &["/t/repository/logs/a.log", "/t/repository/logs/keep.txt"], &ignored)
    );
}

#[test]
fn a_thread_that_panicked_is_told() {
    assert_eq!("Thread 'x' panicked: boom", thread_panicked(Some("x"), Some("boom")));
    assert_eq!("Thread '<unamed>' panicked", thread_panicked(None, None));
}
