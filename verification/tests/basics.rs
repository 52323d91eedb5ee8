use tmignore::cache::{Cache, Timestamp};
use tmignore::commands::list;
use tmignore::commands::path::{execute, Locations, Paths};
use tmignore::commands::stats::{self, fetch_total_size, Entry, SizeScan, Stats};
use tmignore::config::TextSet;
use tmignore::diff::Exclusion;
use tmignore::facts::{Findings, Kind};
use tmignore::order::{Ordered, Rank};
use tmignore::path::FilePath;
use tmignore::sort::{dedup, sort};
use tmignore::text::{contains, number, plural, signed_number, trim};
use tmignore::whitelist::{create_whitelist, translate, Whitelist};

fn p(text: &str) -> FilePath {
    FilePath::new(text)
}

fn orphans(paths: &[&str]) -> Vec<Exclusion> {
    paths.iter().map(|path| Exclusion::orphan(p(path))).collect()
}

fn now() -> Timestamp {
    Timestamp { seconds: 1, nanos: 0 }
}

fn patterns(all: &[&str]) -> TextSet {
    let mut res = TextSet::new();
    for pattern in all {
        res.insert(pattern.to_string());
    }
    res
}

#[test]
fn list_test_execute() {
    let mut cache = Cache::open_in_memory();
    cache.reset(orphans(&["a", "b", "c"]), now());

    let text = list::execute(&cache, '\n');

    let lines: Vec<_> = text.lines().collect();
    assert_eq!(3, lines.len());
    assert_eq!("a", lines[0]);
    assert_eq!("b", lines[1]);
    assert_eq!("c", lines[2]);
    assert_eq!("a\0b\0c\0", list::execute(&cache, list::separator(true)));
    assert_eq!('\n', list::separator(false));
}

fn locations() -> Locations {
    Locations {
        config: String::from("/yo/config.json"),
        cache: String::from("/yo/cache.db"),
        legacy_config: String::from("/yo/legacy_config.json"),
        legacy_cache: String::from("/yo/legacy_cache.json"),
    }
}

#[test]
fn test_execute() {
    let cases = [
        (Paths::Config, "/yo/config.json\n"),
        (Paths::Cache, "/yo/cache.db\n"),
        (Paths::LegacyCache, "/yo/legacy_cache.json\n"),
        (Paths::LegacyConfig, "/yo/legacy_config.json\n"),
    ];
    for (path, expected_output) in cases {
        assert_eq!(expected_output, execute(&locations(), path));
    }
}

#[test]
fn the_home_directory_takes_the_place_of_the_tilde() {
    let mut all = locations();
    all.config = "~/.config/tmignore-rs/config.json".to_string();
    let home = all.expand();
    assert_eq!(format!("{home}/.config/tmignore-rs/config.json"), all.config);
    assert!(all.config.ends_with("/.config/tmignore-rs/config.json"));
    assert!(!all.config.starts_with('~'));
    assert_eq!("/yo/cache.db", all.cache);
    assert_eq!("/yo/legacy_config.json", all.legacy_config);
    assert_eq!("/yo/legacy_cache.json", all.legacy_cache);
}

#[test]
fn a_given_directory_takes_the_place_of_the_tilde() {
    let mut all = Locations {
        config: "~".to_string(),
        cache: "~/cache.db".to_string(),
        legacy_config: "~other/x".to_string(),
        legacy_cache: "/a/~/b".to_string(),
    };
    all.expand_with("/home/u");
    assert_eq!("/home/u", all.config);
    assert_eq!("/home/u/cache.db", all.cache);
    assert_eq!("~other/x", all.legacy_config);
    assert_eq!("/a/~/b", all.legacy_cache);
    all.cache = "~/cache.db".to_string();
    all.expand_with("~");
    assert_eq!("~/cache.db", all.cache);
}

#[test]
fn stats_test_execute() {
    let mut cache = Cache::open_in_memory();
    cache.add_paths(orphans(&["/t/a", "/t/dir"]), now());
    let mut found = Findings::new();
    found.add(p("/t/a"), Kind::File);
    found.add(p("/t/dir"), Kind::Directory);
    let mut scan = SizeScan::new(&cache.paths(), &found);
    assert_eq!(Some(p("/t/dir")), scan.next_directory());
    scan.add_entries(&vec![Entry { path: p("/t/dir/b"), kind: Kind::File }]);
    assert_eq!(None, scan.next_directory());
    assert_eq!(&vec![p("/t/a"), p("/t/dir/b")], scan.files().items());
    let total = fetch_total_size(&vec![Some(1), Some(2)]);
    let output = stats::execute(Stats::Size { humanize: false }, total, None);
    let size: u64 = output.trim().parse().unwrap();
    assert_eq!(3, size);
}

#[test]
fn test_fetch_total_size_does_not_follow_symlinks_outside_directory() {
    let mut found = Findings::new();
    found.add(p("/t/excluded"), Kind::Directory);
    let mut scan = SizeScan::new(&vec![p("/t/excluded")], &found);
    assert_eq!(Some(p("/t/excluded")), scan.next_directory());
    scan.add_entries(&vec![Entry { path: p("/t/excluded/link"), kind: Kind::Other }]);
    assert_eq!(None, scan.next_directory());
    assert!(scan.files().is_empty());
    assert_eq!(0, fetch_total_size(&vec![]));
}

#[test]
fn a_file_is_measured_once() {
    let mut found = Findings::new();
    found.add(p("/d/a"), Kind::File);
    found.add(p("/d"), Kind::Directory);
    let mut scan = SizeScan::new(&vec![p("/d/a"), p("/d"), p("/missing")], &found);
    assert_eq!(Some(p("/d")), scan.next_directory());
    scan.add_entries(&vec![
        Entry { path: p("/d/a"), kind: Kind::File },
        Entry { path: p("/d/x"), kind: Kind::Directory },
        Entry { path: p("/d/y"), kind: Kind::Directory },
    ]);
    assert_eq!(Some(p("/d/x")), scan.next_directory());
    assert_eq!(Some(p("/d/y")), scan.next_directory());
    assert_eq!(1, scan.files().len());
}

#[test]
fn every_file_below_a_directory_is_found() {
    let holds = |directory: &str| -> Vec<(&str, Kind)> {
        match directory {
            "/d" => vec![("/d/x", Kind::Directory), ("/d/1", Kind::File), ("/d/l", Kind::Other)],
            "/d/x" => vec![("/d/x/y", Kind::Directory), ("/d/x/2", Kind::File)],
            "/d/x/y" => vec![("/d/x/y/3", Kind::File)],
            other => panic!("{other}"),
        }
    };
    let mut found = Findings::new();
    found.add(p("/d"), Kind::Directory);
    found.add(p("/f"), Kind::File);
    let mut scan = SizeScan::new(&vec![p("/f"), p("/d"), p("/gone")], &found);
    while let Some(directory) = scan.next_directory() {
        let entries = holds(&directory.to_str().unwrap())
            .into_iter()
            .map(|(path, kind)| Entry { path: p(path), kind })
            .collect();
        scan.add_entries(&entries);
    }
    assert_eq!(
        &vec![p("/d/1"), p("/d/x/2"), p("/d/x/y/3"), p("/f")],
        scan.files().items()
    );
}

#[test]
fn sizes_add_up_to_the_greatest_number() {
    assert_eq!(6, fetch_total_size(&vec![Some(1), None, Some(5)]));
    assert_eq!(u64::MAX, fetch_total_size(&vec![Some(u64::MAX), Some(5)]));
    assert_eq!(u64::MAX, fetch_total_size(&vec![Some(u64::MAX - 5), Some(5)]));
}

#[test]
fn figures_are_printed() {
    assert_eq!("1500\n", stats::execute(Stats::Size { humanize: false }, 1500, None));
    assert_eq!("1.5 KiB\n", stats::execute(Stats::Size { humanize: true }, 1536, None));
    assert_eq!("1023 B\n", stats::execute(Stats::Size { humanize: true }, 1023, None));
    assert_eq!(
        "2024-01-02 03:04:05 +01:00\n",
        stats::execute(Stats::LastUpdate, 0, Some("2024-01-02 03:04:05 +01:00"))
    );
    assert_eq!("", stats::execute(Stats::LastUpdate, 0, None));
}

#[test]
fn test_plural() {
    assert_eq!("thing", plural("thing", 1));
    assert_eq!("things", plural("thing", 0));
    assert_eq!("repositories", plural("repository", 2));
}

#[test]
fn test_create_whitelist_invalid() {
    let created = create_whitelist(&patterns(&["[z-a].txt"]));
    let whitelist = created.whitelist.unwrap();
    assert!(!whitelist.is_match("z.txt"));
    assert!(translate(&patterns(&["[z-a].txt"])).regexes.is_empty());
    assert_eq!(
        vec![
            "Error: invalid whitelist pattern '[z-a].txt': Reversed range from 'z' to 'a'"
                .to_string()
        ],
        created.messages
    );
}

#[test]
fn patterns_match_whole_paths() {
    let created = create_whitelist(&patterns(&["*.broguerec", "*/BrogueRunHistory.txt"]));
    assert!(created.messages.is_empty());
    let whitelist = created.whitelist.unwrap();
    assert!(whitelist.is_match("/home/u/game.broguerec"));
    assert!(whitelist.is_match("/home/u/BrogueRunHistory.txt"));
    assert!(!whitelist.is_match("/home/u/game.broguerec.bak"));
    assert!(!whitelist.is_match("BrogueRunHistory.txt"));
}

#[test]
fn patterns_are_translated() {
    let translated = translate(&patterns(&["a?", "[z-a]", "*.txt"]));
    assert_eq!(vec!["^.*\\.txt$".to_string(), "^a[^/]$".to_string()], translated.regexes);
    assert_eq!(1, translated.messages.len());
}

#[test]
fn an_invalid_regular_expression_is_refused() {
    assert!(Whitelist::from_regexes(&vec!["(".to_string()]).is_err());
    let both = Whitelist::from_regexes(&vec!["^a".to_string(), "b$".to_string()]).unwrap();
    assert!(both.is_match("ax"));
    assert!(both.is_match("xb"));
    assert!(!both.is_match("xay"));
}

#[test]
fn texts_are_built() {
    assert_eq!("0", number(0));
    assert_eq!("18446744073709551615", number(u64::MAX));
    assert_eq!("-2147483648", signed_number(i32::MIN));
    assert_eq!("x y", trim(" \t\u{3000}x y\n"));
    assert!(contains("abc", "bc"));
    assert!(contains("abc", ""));
    assert!(!contains("abc", "cb"));
}

#[test]
fn paths_are_taken_apart() {
    assert_eq!(Some(p("/a/b")), p("/a/b//c/").parent());
    assert_eq!(Some(p("")), p("a").parent());
    assert_eq!(None, p("/").parent());
    assert_eq!(None, p("").parent());
    assert_eq!(p("/a/b"), p("/a").join(&p("b")));
    assert_eq!(p("/b"), p("/a").join(&p("/b")));
    assert_eq!(p("a"), p("a/./"));
    assert!(p("./a") != p("a"));
    assert!(p("/a/b").starts_with(&p("/a/")));
    assert!(!p("/ab").starts_with(&p("/a")));
    assert!(p("/a/b/c").ends_with(&p("b/c")));
    assert!(!p("/a/bc").ends_with(&p("c")));
    assert!(p("/a/.git/").has_file_name(&b".git".to_vec()));
    assert!(!p("/a/..").has_file_name(&b"..".to_vec()));
    assert!(!p("/a/").same_bytes(&p("/a")));
    assert_eq!(&b"/a/".to_vec(), p("/a/").as_bytes());
    assert_eq!("\u{FFFD}", FilePath::from_bytes(vec![255]).display());
    assert_eq!(None, FilePath::from_bytes(vec![255]).to_str());
}

#[test]
fn paths_are_ordered_by_their_components() {
    assert_eq!(Rank::Less, p("/a/b").compare(&p("/a-b")));
    assert_eq!(Rank::Less, p("/a").compare(&p("/a/b")));
    assert_eq!(Rank::Equal, p("/a//b/").compare(&p("/a/b")));
    assert_eq!(Rank::Greater, p("a").compare(&p("/z")));
    assert_eq!(Rank::Greater, p("a").compare(&p("../z")));
    assert_eq!(Rank::Less, "Music".to_string().compare(&"iTunes".to_string()));
}

#[test]
fn paths_are_sorted() {
    let all = vec![p("/b"), p("/a/c"), p("/a"), p("/a/"), p("/a-b")];
    let once = dedup(sort(all));
    assert_eq!(vec![p("/a"), p("/a/c"), p("/a-b"), p("/b")], once);
}
