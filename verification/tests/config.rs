use tmignore::config::{
    collect_expanded, Config, LoadError, LoadOrCreate, TextSet, ValidationError, ValidationFail,
};
use tmignore::diff::PathSet;
use tmignore::duration::Duration;
use tmignore::facts::{Findings, Kind};
use tmignore::human_time::{deserialize_human_time, from_parsed, serialize_human_time};
use tmignore::import::{
    import_legacy_cache_file, import_legacy_config_file, importing, needs_import,
};
use tmignore::cache::{OpenOrCreateError, Timestamp};
use tmignore::legacy_cache::LegacyCache;
use tmignore::legacy_config::LegacyConfig;
use tmignore::path::FilePath;
use tmignore::shell::{Environment, Variable};

fn p(text: &str) -> FilePath {
    FilePath::new(text)
}

fn set(paths: &[&str]) -> PathSet {
    let mut all = PathSet::new();
    for path in paths {
        all.insert(p(path));
    }
    all
}

fn texts(all: &[&str]) -> TextSet {
    let mut res = TextSet::new();
    for text in all {
        res.insert(text.to_string());
    }
    res
}

fn found(entries: &[(&str, Kind)]) -> Findings {
    let mut all = Findings::new();
    for (path, kind) in entries {
        all.add(p(path), *kind);
    }
    all
}

fn config(search: &[&str], ignored: &[&str]) -> Config {
    Config {
        search_directories: set(search),
        ignored_directories: set(ignored),
        whitelist_patterns: texts(&[]),
        threads: 4,
        debounce_duration: deserialize_human_time("5s").unwrap().unwrap(),
    }
}

fn environment() -> Environment {
    Environment {
        home: "/home/u".to_string(),
        variables: vec![
            Variable { name: "DISK".to_string(), value: "Data".to_string() },
            Variable { name: "DISK".to_string(), value: "Other".to_string() },
            Variable { name: "T".to_string(), value: "~".to_string() },
            Variable { name: "EMPTY".to_string(), value: String::new() },
        ],
    }
}

/// A directory stands at every path of the configuration.
fn all_directories(config: &mut Config) -> Findings {
    config.expand(&environment());
    let mut all = Findings::new();
    for path in config.paths_to_check() {
        all.add(path, Kind::Directory);
    }
    all
}

fn has_tilde(paths: &PathSet) -> bool {
    paths.items().iter().any(|path| path.to_str().unwrap().contains('~'))
}

fn validation_error(error: LoadError) -> ValidationError {
    match error {
        LoadError::Validation(error) => error,
        other => panic!("{other:?}"),
    }
}

#[test]
fn test_expand_default() {
    let path = p("/t/does_not_exist.json");
    let plan = Config::load_or_create(&path, &Findings::new()).unwrap();
    assert!(matches!(plan, LoadOrCreate::Create(parent) if parent == p("/t")));
    let mut config = Config::default();
    config.expand(&environment());

    assert!(config.search_directories.len() > 0);
    assert!(config.ignored_directories.len() > 0);
    assert!(!has_tilde(&config.search_directories));
    assert!(!has_tilde(&config.ignored_directories));
}

#[test]
fn test_expand_loaded() {
    let all = all_directories(&mut config(&["~"], &[]));
    let config = Config::load(Ok(config(&["~"], &[])), &environment(), &all).unwrap();

    assert_eq!(1, config.search_directories.len());
    assert!(!has_tilde(&config.search_directories));
}

#[test]
fn test_expand_reloaded() {
    let all = all_directories(&mut config(&["~"], &[]));
    let mut loaded = Config::load(Ok(config(&["~"], &[])), &environment(), &all).unwrap();
    let again = Config::load(Ok(config(&["~"], &[])), &environment(), &all);
    loaded.reload(again, &environment(), &all).unwrap();

    assert_eq!(1, loaded.search_directories.len());
    assert!(!has_tilde(&loaded.search_directories));
}

#[test]
fn test_missing_required_field() {
    let read = Err(LoadError::Json("missing field `search_directories`".to_string()));
    let error = Config::load(read, &environment(), &Findings::new()).unwrap_err();
    assert!(matches!(error, LoadError::Json(_)));
    assert_eq!("missing field `search_directories`", error.text());
}

#[test]
fn test_search_paths_does_not_exist() {
    let result = Config::load(Ok(config(&["/does_not_exist"], &[])), &environment(), &Findings::new());
    let error = validation_error(result.unwrap_err());
    assert_eq!(1, error.fails.len());
    assert!(matches!(&error.fails[0], ValidationFail::NotFound(path) if *path == p("/does_not_exist")));
    assert_eq!("Validation error:\n - Path not found '/does_not_exist'\n", error.text());
}

#[test]
fn test_no_search_paths() {
    let result = Config::load(Ok(config(&[], &[])), &environment(), &Findings::new());
    let error = validation_error(result.unwrap_err());
    assert_eq!(1, error.fails.len());
    assert!(matches!(error.fails[0], ValidationFail::NoSearchDirectories));
    assert_eq!("No search directories", error.fails[0].text());
}

#[test]
fn test_reload() {
    let all = all_directories(&mut config(&["~"], &["~"]));
    let mut loaded = Config::load(Ok(config(&["~"], &[])), &environment(), &all).unwrap();
    let again = Config::load(Ok(config(&["~"], &["~"])), &environment(), &all);
    loaded.reload(again, &environment(), &all).unwrap();

    assert!(!loaded.ignored_directories.is_empty());
}

#[test]
fn test_reload_error() {
    let all = all_directories(&mut config(&["~"], &[]));
    let mut loaded = Config::load(Ok(config(&["~"], &[])), &environment(), &all).unwrap();
    let invalid = Config::load(Ok(config(&[], &[])), &environment(), &all);
    assert!(loaded.reload(invalid, &environment(), &all).is_err());
    assert_eq!(1, loaded.search_directories.len());
}

#[test]
fn every_fault_is_reported() {
    let all = found(&[("/file", Kind::File), ("/dir", Kind::Directory), ("/pipe", Kind::Other)]);
    let error = config(&["/dir", "/file", "/pipe"], &["/dir", "/file", "/missing"])
        .validate(&all)
        .unwrap_err();
    let texts: Vec<String> = error.fails.iter().map(ValidationFail::text).collect();
    assert_eq!(
        vec![
            "File in search_directories: '/file'",
            "Path not found '/pipe'",
            "File in ignored_directories: '/file'"
        ],
        texts
    );
    assert!(config(&["/dir"], &["/missing"]).validate(&all).is_ok());
}

#[test]
fn an_unreadable_file_leaves_the_configuration() {
    let mut loaded = config(&["/dir"], &[]);
    let unreadable = Err(LoadError::Io("gone".to_string()));
    let error = loaded.reload(unreadable, &environment(), &Findings::new());
    assert_eq!("gone", error.unwrap_err().text());
    assert!(loaded.search_directories.contains(&p("/dir")));
}

#[test]
fn a_reload_that_is_not_valid_any_more_leaves_the_configuration() {
    let mut loaded = config(&["/dir"], &[]);
    let gone = Ok(config(&["/gone"], &[]));
    let error = loaded.reload(gone, &environment(), &Findings::new()).unwrap_err();
    assert_eq!("Validation error:\n - Path not found '/gone'\n", error.text());
    assert_eq!(&vec![p("/dir")], loaded.search_directories.items());
}

#[test]
fn the_default_configuration() {
    let config = Config::default();
    assert_eq!(&vec![p("~")], config.search_directories.items());
    assert_eq!(
        &vec![
            p("~/.Trash"),
            p("~/Applications"),
            p("~/Downloads"),
            p("~/Library"),
            p("~/Music/Music"),
            p("~/Music/iTunes"),
            p("~/Pictures/Photos Library.photoslibrary"),
        ],
        config.ignored_directories.items()
    );
    assert_eq!(
        &vec![
            "*.broguerec".to_string(),
            "*.broguesave".to_string(),
            "*/BrogueHighScores.txt".to_string(),
            "*/BrogueRunHistory.txt".to_string(),
        ],
        config.whitelist_patterns.items()
    );
    assert_eq!(4, config.threads);
    assert_eq!(Duration::from_secs(2), config.debounce_duration);
}

#[test]
fn plain_directories_are_not_expanded() {
    let mut plain = config(&["/a", "b/c", "/~", "x~/y"], &["~user/z"]);
    plain.expand(&environment());
    assert_eq!(&vec![p("/a"), p("/~"), p("b/c"), p("x~/y")], plain.search_directories.items());
    assert_eq!(&vec![p("~user/z")], plain.ignored_directories.items());
}

fn expanded(directory: &str) -> Vec<FilePath> {
    let mut config = config(&[directory], &[]);
    config.expand(&environment());
    config.search_directories.into_items()
}

#[test]
fn the_home_directory_of_the_environment_takes_the_place_of_the_tilde() {
    let mut given = config(&["~", "~/x", "/plain"], &["~other", "a/~"]);
    given.expand(&environment());
    assert_eq!(
        &vec![p("/home/u"), p("/home/u/x"), p("/plain")],
        given.search_directories.items()
    );
    assert_eq!(&vec![p("a/~"), p("~other")], given.ignored_directories.items());
    let mut unknown = config(&["~/x"], &[]);
    unknown.expand(&Environment { home: "~".to_string(), variables: vec![] });
    assert_eq!(&vec![p("~/x")], unknown.search_directories.items());
}

#[test]
fn the_value_takes_the_place_of_a_variable() {
    assert_eq!(vec![p("/Volumes/Data/src")], expanded("/Volumes/$DISK/src"));
    assert_eq!(vec![p("/Volumes/Data")], expanded("/Volumes/$DISK"));
    assert_eq!(vec![p("Data/src")], expanded("$DISK/src"));
    assert_eq!(vec![p("/Volumes/Data2")], expanded("/Volumes/${DISK}2"));
    assert_eq!(vec![p("/home/u/Data/Data")], expanded("~/$DISK/$DISK"));
    assert_eq!(vec![p("~/x")], expanded("$T/x"));
    assert_eq!(vec![p("/x")], expanded("$EMPTY/x"));
    assert_eq!(vec![p("/a/b")], expanded("/a/${NONE:-b}"));
}

#[test]
fn an_unknown_variable_drops_the_directory() {
    let mut config = config(&["/$NONE/x", "/kept"], &["/$NONE"]);
    config.expand(&environment());
    assert_eq!(&vec![p("/kept")], config.search_directories.items());
    assert!(config.ignored_directories.is_empty());
}

#[test]
fn a_variable_has_its_first_value() {
    let all = environment();
    assert_eq!(Ok(Some("Data".to_string())), all.value_of("DISK"));
    assert_eq!(Ok(Some(String::new())), all.value_of("EMPTY"));
    assert_eq!(Err(()), all.value_of("DIS"));
    assert_eq!(Err(()), all.value_of("DISKS"));
}

#[test]
fn a_path_that_is_no_text_is_dropped() {
    let mut config = config(&["/kept"], &[]);
    config.search_directories.insert(FilePath::from_bytes(vec![b'/', 0xff]));
    config.expand(&environment());
    assert_eq!(&vec![p("/kept")], config.search_directories.items());
}

#[test]
fn a_configuration_is_loaded_in_its_environment() {
    let all = found(&[("/home/u/Data", Kind::Directory)]);
    let loaded = Config::load(Ok(config(&["~/$DISK"], &["~/x"])), &environment(), &all).unwrap();
    assert_eq!(&vec![p("/home/u/Data")], loaded.search_directories.items());
    assert_eq!(&vec![p("/home/u/x")], loaded.ignored_directories.items());
    let elsewhere = Environment { home: "/home/v".to_string(), ..environment() };
    let error = Config::load(Ok(config(&["~/$DISK"], &[])), &elsewhere, &all).unwrap_err();
    assert_eq!("Validation error:\n - Path not found '/home/v/Data'\n", error.text());
    let mut current = config(&["/old"], &[]);
    current.reload(Ok(config(&["~/$DISK"], &[])), &environment(), &all).unwrap();
    assert_eq!(&vec![p("/home/u/Data")], current.search_directories.items());
}

#[test]
fn expansions_are_collected() {
    let all = vec![Some("/b".to_string()), None, Some("/a".to_string()), Some("/b/".to_string())];
    assert_eq!(vec![p("/a"), p("/b")], collect_expanded(&all).into_items());
}

#[test]
fn a_configuration_file_that_is_there_is_loaded() {
    let all = found(&[("/t/config.json", Kind::File)]);
    let plan = Config::load_or_create(&p("/t/config.json"), &all);
    assert!(matches!(plan, Ok(LoadOrCreate::Load)));
    let error = Config::load_or_create(&p("/"), &all).unwrap_err();
    assert_eq!("Can't get a parent path for '/'", error);
}

#[test]
fn durations_are_read_as_people_write_them() {
    let five = deserialize_human_time("5s").unwrap().unwrap();
    assert_eq!(5, five.secs());
    assert_eq!(0, five.nanos());
    let mixed = deserialize_human_time("1m 2s 30ms").unwrap().unwrap();
    assert_eq!(62, mixed.secs());
    assert_eq!(30_000_000, mixed.nanos());
}

#[test]
fn a_duration_without_a_unit_is_an_error() {
    assert_eq!(
        "Invalid duration: time unit needed, for example 5sec or 5ms. See \
         https://github.com/IohannRabeson/tmignore-rs?tab=readme-ov-file#debounce_duration for \
         help.",
        deserialize_human_time("5").unwrap().unwrap_err()
    );
}

#[test]
fn long_durations_are_read() {
    let read = |text: &str| deserialize_human_time(text).unwrap().unwrap();
    assert_eq!(Duration::from_secs(123_456_789_012), read("123456789012s"));
    assert_eq!(Duration::from_secs(100), read("100000000000ns"));
    assert_eq!(Duration::new(100_000_000_000, 500_000_000), read("100000000000.5s"));
    assert_eq!(Duration::from_secs(u64::MAX), read("18446744073709551615s"));
    assert_eq!(Duration::from_secs(1), read("500ms 500ms"));
    assert_eq!(Duration::from_secs(0), read("0"));
    assert_eq!(Duration::from_secs(9_000_000_000), read("9000000000000ms"));
    assert_eq!(Duration::from_secs(18_446_744_073), read("18446744073000000000ns"));
    assert_eq!(Duration::new(u64::MAX, 999_999_999), read("18446744073709551615s 999999999ns"));
    assert_eq!(Duration::new(u64::MAX, 500_000_000), read("18446744073709551615.5s"));
    assert_eq!(Duration::from_secs(u64::MAX), read("18446744073709551613s 1000ms 1s"));
    assert_eq!(
        Duration::new(584_542_046_090 * 31_557_600 + 2_630_016 + 60, 1_500_000),
        read("584542046090years 1month 1minute 1500us")
    );
    assert_eq!(Duration::new(7 * 86_400 + 86_400 + 3_600 + 90, 0), read("1w1day 1hour 1.5min"));
}

#[test]
fn durations_that_are_too_long_are_errors() {
    let fails = |text: &str| deserialize_human_time(text).unwrap().is_err();
    assert!(fails("18446744073709551616s"));
    assert!(fails("18446744073709551615s 1s"));
    assert!(fails("18446744073709551615s 2000ms"));
    assert!(fails("18446744073709551615s 999999999ns 1000000001ns"));
    assert!(fails("1.00000000000000000000s"));
    assert!(fails("1.5ns"));
}

#[test]
fn nothing_is_said_of_a_second_of_nanoseconds_too_many() {
    for text in [
        "18446744073709551615s 1000ms",
        "18446744073709551615s 400ms 600000us",
        "18446744073709551615s 999999999ns 1ns",
        "18446744073709551615.4s 600millis",
        "18446744073709551614s 0.5s 1.5s",
    ] {
        assert!(deserialize_human_time(text).is_none(), "{text}");
    }
}

#[test]
fn a_duration_that_was_written_is_read_again() {
    let spans = [
        (0, 0),
        (2, 0),
        (3661, 5),
        (86_400, 999_999_999),
        (1, 250_000_000),
        (315_575_999_999, 123_456_789),
        (u64::MAX, 0),
        (u64::MAX, 999_999_999),
    ];
    for (secs, nanos) in spans {
        let span = Duration::new(secs, nanos);
        let text = serialize_human_time(&span);
        assert_eq!(span, deserialize_human_time(&text).unwrap().unwrap(), "{text}");
    }
    assert_eq!("2s", serialize_human_time(&Duration::from_secs(2)));
    assert_eq!("1h 1m 1s 5ns", serialize_human_time(&Duration::new(3661, 5)));
}

#[test]
fn what_was_parsed_becomes_a_duration() {
    assert_eq!(Duration::new(1, 2), from_parsed(Ok((1, 2))).unwrap());
    assert_eq!(
        "Invalid duration: x. See \
         https://github.com/IohannRabeson/tmignore-rs?tab=readme-ov-file#debounce_duration for \
         help.",
        from_parsed(Err("x".to_string())).unwrap_err()
    );
}

#[test]
fn durations_are_added_and_subtracted() {
    let a = Duration::new(1, 600_000_000);
    let b = Duration::new(2, 500_000_000);
    assert_eq!(Some(Duration::new(4, 100_000_000)), a.checked_add(b));
    assert_eq!(Some(Duration::new(0, 900_000_000)), b.checked_sub(a));
    assert_eq!(None, a.checked_sub(b));
    assert_eq!(None, Duration::from_secs(u64::MAX).checked_add(Duration::from_secs(1)));
    assert_eq!(
        None,
        Duration::new(u64::MAX, 999_999_999).checked_add(Duration::new(0, 1))
    );
    assert_eq!(Some(Duration::from_secs(0)), a.checked_sub(a));
}

fn legacy_config() -> LegacyConfig {
    LegacyConfig {
        search_directories: set(&["/t"]),
        ignored_directories: set(&["a"]),
        whitelist_patterns: texts(&["*.hey"]),
    }
}

#[test]
fn test_import_legacy_config_file_dont_exist() {
    assert!(!needs_import(&p("don't exist"), &p("don't exist"), &Findings::new()));
}

#[test]
fn test_import_legacy_config_file() {
    let all = found(&[("/t/legacy.json", Kind::File), ("/t", Kind::Directory)]);
    let old_file = p("/t/legacy.json");
    let new_file = p("/t/config.json");
    assert!(needs_import(&old_file, &new_file, &all));
    let imported = import_legacy_config_file(&old_file, &new_file, &legacy_config());
    assert_eq!("Importing legacy config '/t/legacy.json'...", importing(&old_file).text);
    assert_eq!("Create new config file '/t/config.json'", imported.messages[0].text);
    assert_eq!("You can delete '/t/legacy.json' now", imported.messages[1].text);
    let config = Config::load(Ok(imported.config), &environment(), &all).unwrap();
    assert!(config.search_directories.contains(&p("/t")));
    assert!(config.ignored_directories.contains(&p("a")));
    assert!(config.whitelist_patterns.contains(&"*.hey".to_string()));
    assert_eq!(4, config.threads);
    assert_eq!(Duration::from_secs(2), config.debounce_duration);
}

#[test]
fn test_import_legacy_cache_file_dont_exist() {
    let imported = import_legacy_cache_file(
        &p("dont exist"),
        &p("dont exist"),
        &Findings::new(),
        &LegacyCache { paths: vec![] },
        Timestamp { seconds: 1, nanos: 0 },
    )
    .unwrap();
    assert!(imported.is_none());
}

#[test]
fn test_import_legacy_cache_file() {
    let all = found(&[("/t/legacy.json", Kind::File)]);
    let cache = import_legacy_cache_file(
        &p("/t/legacy.json"),
        &p("/t/cache.db"),
        &all,
        &LegacyCache { paths: vec![p("a"), p("b")] },
        Timestamp { seconds: 1, nanos: 0 },
    )
    .unwrap()
    .unwrap();
    let paths = cache.paths();
    assert_eq!(2, paths.len());
    assert!(paths.contains(&p("a")));
    assert!(paths.contains(&p("b")));
    assert_eq!(None, cache.rows()[0].repository());
}

#[test]
fn nothing_is_imported_over_a_file_that_is_there() {
    let all = found(&[("/t/legacy.json", Kind::File), ("/t/cache.db", Kind::File)]);
    let legacy = LegacyCache { paths: vec![p("a")] };
    let now = Timestamp { seconds: 1, nanos: 0 };
    let none =
        import_legacy_cache_file(&p("/t/legacy.json"), &p("/t/cache.db"), &all, &legacy, now);
    assert!(none.unwrap().is_none());
    let failed = import_legacy_cache_file(&p("/t/legacy.json"), &p("/"), &all, &legacy, now);
    assert!(matches!(failed, Err(OpenOrCreateError::NoParentDirectory)));
}
