use tmignore::cache::{
    failed_to_load, version_message, Cache, OpenOrCreateError, Stored, Timestamp, LATEST_VERSION,
};
use tmignore::diff::{Diff, Exclusion, PathSet};
use tmignore::path::FilePath;
use tmignore::path_cache;

fn p(text: &str) -> FilePath {
    FilePath::new(text)
}

fn at(seconds: i64) -> Timestamp {
    Timestamp { seconds, nanos: 0 }
}

fn orphans(paths: &[&str]) -> Vec<Exclusion> {
    paths.iter().map(|path| Exclusion::orphan(p(path))).collect()
}

fn owned(repository: &str, paths: &[&str]) -> Vec<Exclusion> {
    paths.iter().map(|path| Exclusion::new(p(path), p(repository))).collect()
}

fn set(paths: &[&str]) -> PathSet {
    let mut all = PathSet::new();
    for path in paths {
        all.insert(p(path));
    }
    all
}

fn stored(cache: &Cache) -> Stored {
    Stored {
        rows: cache.rows().iter().cloned().collect(),
        last_update: cache.last_update().unwrap(),
        version: cache.get_version(),
    }
}

#[test]
fn test_setup() {
    let _cache = Cache::open_in_memory();
}

#[test]
fn test_last_update_is_none_for_new_cache() {
    let cache = Cache::open_in_memory();
    assert!(cache.last_update().unwrap().is_none());
}

#[test]
fn test_reset_sets_last_update() {
    let mut cache = Cache::open_in_memory();
    assert!(cache.last_update().unwrap().is_none());

    cache.reset(orphans(&["hello"]), at(1));
    let first_update = cache.last_update().unwrap().unwrap();

    cache.reset(orphans(&["world"]), at(2));
    let second_update = cache.last_update().unwrap().unwrap();

    assert!(second_update > first_update);
    assert_eq!(at(2), second_update);
}

#[test]
fn test_add_paths_sets_last_update() {
    let mut cache = Cache::open_in_memory();
    assert!(cache.last_update().unwrap().is_none());

    cache.add_paths(orphans(&["hello"]), at(1));
    let first_update = cache.last_update().unwrap().unwrap();

    cache.add_paths(orphans(&["world"]), at(2));
    let second_update = cache.last_update().unwrap().unwrap();

    assert!(second_update > first_update);
    assert_eq!(2, cache.paths().len());
}

#[test]
fn test_remove_paths_sets_last_update() {
    let mut cache = Cache::open_in_memory();
    assert!(cache.last_update().unwrap().is_none());

    cache.remove_paths(&vec![p("hello")], &p("/repo"), at(1));
    let first_update = cache.last_update().unwrap().unwrap();

    cache.remove_paths(&vec![p("world")], &p("/repo"), at(2));
    let second_update = cache.last_update().unwrap().unwrap();

    assert!(second_update > first_update);
}

#[test]
fn test_version() {
    let cache = Cache::open_in_memory();
    let version = cache.get_version();

    assert_eq!(3, version);
    assert_eq!(LATEST_VERSION, version);
}

#[test]
fn cache_test_reset() {
    let mut cache = Cache::open_in_memory();
    assert!(cache.paths().is_empty());
    cache.reset(orphans(&["hello", "world"]), at(1));
    assert_eq!(2, cache.paths().len());
}

#[test]
fn cache_test_find_diff() {
    let mut cache = Cache::open_in_memory();
    cache.reset(orphans(&["hello", "world"]), at(1));
    let exclusions = owned("/repo", &["hey", "world"]);
    let diff = cache.find_diff(&exclusions);
    assert_eq!(1, diff.added.len());
    assert!(diff.added.contains(&p("hey")));
    assert_eq!(1, diff.removed.len());
    assert!(diff.removed.contains(&p("hello")));
}

#[test]
fn test_paths_created_by() {
    let mut cache = Cache::open_in_memory();
    let mut exclusions = owned("/repo", &["/repo/a", "/repo/b"]);
    exclusions.extend(owned("/repo/nested", &["/repo/nested/c"]));
    exclusions.extend(owned("/repo-sibling", &["/repo-sibling/d"]));
    exclusions.extend(orphans(&["/repo/e"]));
    cache.reset(exclusions, at(1));

    let paths = cache.paths_created_by(&p("/repo"));

    assert_eq!(vec![p("/repo/a"), p("/repo/b")], paths);
}

#[test]
fn test_paths_created_by_reports_a_path_two_repositories_created() {
    let mut cache = Cache::open_in_memory();
    let mut exclusions = owned("/repo", &["/repo/shared"]);
    exclusions.extend(owned("/other", &["/repo/shared"]));
    cache.reset(exclusions, at(1));

    assert_eq!(vec![p("/repo/shared")], cache.paths_created_by(&p("/repo")));
    assert_eq!(vec![p("/repo/shared")], cache.paths_created_by(&p("/other")));
    assert_eq!(vec![p("/repo/shared")], cache.paths());
}

#[test]
fn test_remove_paths() {
    let mut cache = Cache::open_in_memory();

    cache.reset(owned("/repo", &["/repo/removed", "/repo/kept"]), at(1));
    cache.remove_paths(&vec![p("/repo/removed")], &p("/repo"), at(2));

    assert_eq!(vec![p("/repo/kept")], cache.paths());
}

#[test]
fn test_remove_paths_only_removes_what_the_repository_created() {
    let mut cache = Cache::open_in_memory();

    let mut exclusions = owned("/repo", &["/repo/shared"]);
    exclusions.extend(owned("/other", &["/repo/shared"]));
    cache.reset(exclusions, at(1));
    cache.remove_paths(&vec![p("/repo/shared")], &p("/repo"), at(2));

    assert!(cache.paths_created_by(&p("/repo")).is_empty());
    assert_eq!(vec![p("/repo/shared")], cache.paths_created_by(&p("/other")));
}

#[test]
fn test_contains_ancestor_of() {
    let cases = [
        ("/repo/target/debug/binary", true),
        ("/repo/target/file", true),
        ("/repo/target", false),
        ("/repo/src/main.rs", false),
        ("/repo-sibling/file", false),
        ("/", false),
    ];
    let mut cache = Cache::open_in_memory();
    cache.reset(owned("/repo", &["/repo/target", "/repo/a"]), at(1));

    for (path, expected) in cases {
        assert_eq!(expected, cache.contains_ancestor_of(&p(path)), "{path}");
    }
}

#[test]
fn test_open_migrates_a_cache_written_before_the_repository_was_recorded() {
    let file = Stored {
        rows: owned("/ignored", &["/repo/big_dir/", "/repo/a"]),
        last_update: None,
        version: 2,
    };

    let cache = Cache::open(Some(file)).unwrap();

    assert_eq!(3, cache.get_version());
    assert_eq!(2, cache.paths().len());
    assert!(cache.paths_created_by(&p("/repo")).is_empty());
    assert!(cache.paths_created_by(&p("/ignored")).is_empty());
    assert_eq!(2, cache.find_diff(&[]).removed.len());
}

#[test]
fn test_open_cache_no_parent_dir() {
    let result = Cache::open_or_create(&p("/"), Ok(None));

    assert!(matches!(result, Err(OpenOrCreateError::NoParentDirectory)));
    assert_eq!("No parent directory", result.unwrap_err().text());
}

#[test]
fn test_open_cache_create_no_legacy() {
    let result = Cache::open_or_create(&p("/tmp/x/cache.db"), Ok(None)).unwrap();

    assert!(result.paths().is_empty());
}

#[test]
fn test_open_cache_existing() {
    let path = p("/tmp/x/cache.db");
    let mut cache = Cache::open_or_create(&path, Ok(None)).unwrap();
    cache.add_paths(orphans(&["yo"]), at(1));
    let file = stored(&cache);
    let cache = Cache::open_or_create(&path, Ok(Some(file))).unwrap();
    let paths = cache.paths();
    assert_eq!(1, paths.len());
    assert_eq!(p("yo"), paths[0]);
}

#[test]
fn test_open_does_not_change_last_update() {
    let path = p("/tmp/x/cache.db");
    let mut cache = Cache::open_or_create(&path, Ok(None)).unwrap();
    cache.add_paths(orphans(&["yo"]), at(7));
    let last_update_after_create = cache.last_update().unwrap();
    let cache = Cache::open(Some(stored(&cache))).unwrap();

    assert_eq!(last_update_after_create, cache.last_update().unwrap());
    assert_eq!(Some(at(7)), cache.last_update().unwrap());
}

#[test]
fn opening_without_a_file_fails() {
    let result = Cache::open(None);
    assert!(matches!(result, Err(OpenOrCreateError::FileDoesNotExist)));
    assert_eq!("File does not exist", result.unwrap_err().text());
}

#[test]
fn opening_a_newer_cache_fails() {
    let file = Stored { rows: vec![], last_update: None, version: 4 };
    let result = Cache::open_or_create(&p("/x/cache.db"), Ok(Some(file)));
    assert!(matches!(result, Err(OpenOrCreateError::UnknownVersion(4))));
    assert_eq!(
        "rusqlite_migration error in migrations definition: Attempt to migrate a database with a \
         migration number that is too high",
        result.unwrap_err().text()
    );
}

#[test]
fn errors_of_the_file_are_passed_on() {
    let result = Cache::open_or_create(
        &p("/x/cache.db"),
        Err(OpenOrCreateError::Sqlite("file is not a database".to_string())),
    );
    assert_eq!("file is not a database", result.unwrap_err().text());
    let error = OpenOrCreateError::Io("denied".to_string());
    assert_eq!("denied", error.text());
    assert_eq!("Failed to load file /x/cache.db", failed_to_load(&p("/x/cache.db")));
}

#[test]
fn a_version_that_changed_is_told() {
    assert_eq!(
        Some("Cache updated from version 2 to version 3".to_string()),
        version_message(2, 3)
    );
    assert_eq!(None, version_message(3, 3));
}

#[test]
fn rows_of_the_latest_version_keep_their_repository() {
    let file = Stored {
        rows: owned("/repo", &["/repo/a"]),
        last_update: Some(at(5)),
        version: 3,
    };
    let cache = Cache::open(Some(file)).unwrap();
    assert_eq!(vec![p("/repo/a")], cache.paths_created_by(&p("/repo")));
    assert_eq!(Some(at(5)), cache.last_update().unwrap());
}

#[test]
fn removing_leaves_what_others_created() {
    let mut cache = Cache::open_in_memory();
    let mut exclusions = owned("/a", &["/x", "/y"]);
    exclusions.extend(owned("/b", &["/x"]));
    exclusions.extend(orphans(&["/x"]));
    cache.reset(exclusions, at(1));
    cache.remove_paths(&vec![p("/x")], &p("/a"), at(2));
    assert_eq!(vec![p("/y")], cache.paths_created_by(&p("/a")));
    assert_eq!(vec![p("/x")], cache.paths_created_by(&p("/b")));
    assert_eq!(3, cache.rows().len());
    assert_eq!(None, cache.rows()[2].repository());
}

#[test]
fn mod_test_find_diff() {
    let opened = path_cache::Cache::open_or_create(
        &p(""),
        Err(path_cache::OpenOrCreateError::FileDoesNotExist),
    );
    let mut cache = match opened {
        Ok(path_cache::OpenOrCreate::Created(cache)) => cache,
        other => panic!("{other:?}"),
    };
    cache.write(vec![p("hello"), p("world")]);
    let exclusions = set(&["world", "hey"]);
    let diff = cache.find_diff(&exclusions);
    assert_eq!(1, diff.added.len());
    assert!(diff.added.contains(&p("hey")));
    assert_eq!(1, diff.removed.len());
    assert!(diff.removed.contains(&p("hello")));
    assert_eq!(2, cache.paths().len());
    assert_eq!(&p(""), cache.file_path());
}

#[test]
fn a_set_of_paths_is_loaded_from_its_file() {
    let cache = path_cache::Cache::load_from_file(&p("/c.json"), Ok(set(&["b", "a"]))).unwrap();
    assert_eq!(&p("a"), cache.paths().get(0));
    let failed = path_cache::Cache::open_or_create(
        &p("/c.json"),
        Err(path_cache::OpenOrCreateError::Json("bad".to_string())),
    );
    assert!(matches!(failed, Err(path_cache::OpenOrCreateError::Json(_))));
    let opened = path_cache::Cache::open_or_create(&p("/c.json"), Ok(set(&["b"])));
    assert!(matches!(opened, Ok(path_cache::OpenOrCreate::Opened(_))));
}

#[test]
fn a_difference_leads_to_the_current_paths() {
    let current = owned("/r", &["/r/a", "/r/b", "/r/b/c"]);
    let previous = vec![p("/r/b"), p("/r/x")];
    let diff = Diff::from_sorted(&current, &previous);
    assert_eq!(vec![p("/r/a"), p("/r/b/c")], diff.added.into_items());
    assert_eq!(vec![p("/r/x")], diff.removed.into_items());
}

#[test]
fn the_spelling_of_a_path_is_no_difference() {
    let current = owned("/r", &["/r/dir/"]);
    let diff = Diff::from_sorted(&current, &[p("/r/dir")]);
    assert!(diff.added.is_empty());
    assert!(diff.removed.is_empty());
}

#[test]
fn exclusions_are_sorted_by_path_then_by_repository() {
    let all = vec![
        Exclusion::new(p("/b"), p("/r")),
        Exclusion::new(p("/a"), p("/s")),
        Exclusion::new(p("/a"), p("/r")),
        Exclusion::orphan(p("/a")),
        Exclusion::new(p("/a"), p("/s")),
    ];
    let sorted = tmignore::diff::sort_and_dedup(all);
    assert_eq!(4, sorted.len());
    assert_eq!(Exclusion::orphan(p("/a")), sorted[0]);
    assert_eq!(Exclusion::new(p("/a"), p("/r")), sorted[1]);
    assert_eq!(Exclusion::new(p("/a"), p("/s")), sorted[2]);
    assert_eq!(Exclusion::new(p("/b"), p("/r")), sorted[3]);
    assert_eq!(&p("/b"), sorted[3].path());
    assert_eq!(Some(&p("/r")), sorted[3].repository());
}
