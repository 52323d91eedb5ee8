//! The configuration.
use vstd::prelude::*;
use vstd::utf8;

use crate::diff;
use crate::diff::PathSet;
use crate::duration;
use crate::duration::Duration;
use crate::facts;
use crate::facts::{Findings, Kind};
use crate::legacy_config::LegacyConfig;
use crate::path;
use crate::path::FilePath;
use crate::shell;
use crate::shell::{Environment, EnvironmentView};
use crate::sorted_set;
use crate::sorted_set::SortedSet;
use crate::text;

verus! {

/// A set of texts in their order.
pub type TextSet = SortedSet<String>;

/// The configuration of the program.
#[derive(Debug)]
pub struct Config {
    /// The directories to scan.
    pub search_directories: PathSet,
    /// The directories to ignore.
    pub ignored_directories: PathSet,
    /// The patterns of the entries that stay in the backups.
    pub whitelist_patterns: TextSet,
    /// How many threads scan the file system.
    pub threads: usize,
    /// For how long changes are gathered before they are looked at.
    pub debounce_duration: Duration,
}

/// What a configuration is.
pub struct ConfigView {
    pub search_directories: Seq<Seq<u8>>,
    pub ignored_directories: Seq<Seq<u8>>,
    pub whitelist_patterns: Seq<Seq<char>>,
    pub threads: usize,
    pub debounce_duration: int,
}

impl View for Config {
    type V = ConfigView;

    open spec fn view(&self) -> ConfigView {
        ConfigView {
            search_directories: self.search_directories@,
            ignored_directories: self.ignored_directories@,
            whitelist_patterns: self.whitelist_patterns@,
            threads: self.threads,
            debounce_duration: self.debounce_duration@,
        }
    }
}

/// What is wrong with a configuration.
#[derive(Debug)]
pub enum ValidationFail {
    FileInSearchPaths(FilePath),
    FileInIgnoredDirectories(FilePath),
    NotFound(FilePath),
    NoSearchDirectories,
}

/// What is wrong with a configuration.
pub enum ValidationFailView {
    FileInSearchPaths(Seq<u8>),
    FileInIgnoredDirectories(Seq<u8>),
    NotFound(Seq<u8>),
    NoSearchDirectories,
}

impl View for ValidationFail {
    type V = ValidationFailView;

    open spec fn view(&self) -> ValidationFailView {
        match *self {
            ValidationFail::FileInSearchPaths(p) => ValidationFailView::FileInSearchPaths(p@),
            ValidationFail::FileInIgnoredDirectories(p) => {
                ValidationFailView::FileInIgnoredDirectories(p@)
            },
            ValidationFail::NotFound(p) => ValidationFailView::NotFound(p@),
            ValidationFail::NoSearchDirectories => ValidationFailView::NoSearchDirectories,
        }
    }
}

/// What is said of a fault.
pub open spec fn fail_text(fail: ValidationFailView) -> Seq<char> {
    match fail {
        ValidationFailView::FileInSearchPaths(p) => "File in search_directories: '"@
            + text::lossy_text(p) + "'"@,
        ValidationFailView::FileInIgnoredDirectories(p) => "File in ignored_directories: '"@
            + text::lossy_text(p) + "'"@,
        ValidationFailView::NotFound(p) => "Path not found '"@ + text::lossy_text(p) + "'"@,
        ValidationFailView::NoSearchDirectories => "No search directories"@,
    }
}

impl ValidationFail {
    pub fn text(&self) -> (text: String)
        ensures
            text@ == fail_text(self@),
    {
        match self {
            ValidationFail::FileInSearchPaths(p) => {
                "File in search_directories: '".to_owned().concat(p.display().as_str()).concat("'")
            },
            ValidationFail::FileInIgnoredDirectories(p) => {
                "File in ignored_directories: '".to_owned().concat(p.display().as_str()).concat("'")
            },
            ValidationFail::NotFound(p) => {
                "Path not found '".to_owned().concat(p.display().as_str()).concat("'")
            },
            ValidationFail::NoSearchDirectories => "No search directories".to_owned(),
        }
    }
}

/// All that is wrong with a configuration.
#[derive(Debug)]
pub struct ValidationError {
    pub fails: Vec<ValidationFail>,
}

/// The faults, each on a line of its own.
pub open spec fn fail_lines(fails: Seq<ValidationFailView>) -> Seq<char>
    decreases fails.len(),
{
    if fails.len() == 0 {
        Seq::empty()
    } else {
        fail_lines(fails.drop_last()) + " - "@ + fail_text(fails.last()) + "\n"@
    }
}

impl ValidationError {
    pub fn text(&self) -> (text: String)
        ensures
            text@ == "Validation error:\n"@ + fail_lines(sorted_set::item_views(self.fails@)),
    {
        let ghost all = sorted_set::item_views(self.fails@);
        let ghost start = "Validation error:\n"@;
        let mut text = "Validation error:\n".to_owned();
        let mut i: usize = 0;
        assert(all.take(0) =~= Seq::<ValidationFailView>::empty());
        assert(start + fail_lines(all.take(0)) =~= start);
        while i < self.fails.len()
            invariant
                i <= self.fails@.len(),
                all == sorted_set::item_views(self.fails@),
                text@ == start + fail_lines(all.take(i as int)),
            decreases self.fails@.len() - i,
        {
            let ghost before = fail_lines(all.take(i as int));
            let ghost line = fail_text(all[i as int]);
            assert(all[i as int] == self.fails@[i as int]@);
            assert(all.take(i + 1).drop_last() =~= all.take(i as int));
            text = text.concat(" - ").concat(self.fails[i].text().as_str()).concat("\n");
            assert(start + before + " - "@ + line + "\n"@ =~= start + (before + " - "@ + line
                + "\n"@));
            i = i + 1;
        }
        assert(all.take(i as int) =~= all);
        text
    }
}

/// Why a configuration was not loaded.
#[derive(Debug)]
pub enum LoadError {
    /// The file could not be read.
    Io(String),
    /// The file does not hold a configuration.
    Json(String),
    Validation(ValidationError),
}

/// What an error says.
pub open spec fn load_error_text(error: LoadError) -> Seq<char> {
    match error {
        LoadError::Io(message) => message@,
        LoadError::Json(message) => message@,
        LoadError::Validation(e) => "Validation error:\n"@ + fail_lines(
            sorted_set::item_views(e.fails@),
        ),
    }
}

impl LoadError {
    pub fn text(&self) -> (text: String)
        ensures
            text@ == load_error_text(*self),
    {
        match self {
            LoadError::Io(message) => message.as_str().to_owned(),
            LoadError::Json(message) => message.as_str().to_owned(),
            LoadError::Validation(error) => error.text(),
        }
    }
}

/// The faults of the directories to scan.
pub open spec fn search_fails(
    found: Seq<(Seq<u8>, Kind)>,
    paths: Seq<Seq<u8>>,
) -> Seq<ValidationFailView>
    decreases paths.len(),
{
    if paths.len() == 0 {
        Seq::empty()
    } else {
        let init = search_fails(found, paths.drop_last());
        match facts::kind_at(found, paths.last()) {
            Kind::File => init.push(ValidationFailView::FileInSearchPaths(paths.last())),
            Kind::Directory => init,
            _ => init.push(ValidationFailView::NotFound(paths.last())),
        }
    }
}

/// The faults of the directories to ignore.
pub open spec fn ignored_fails(
    found: Seq<(Seq<u8>, Kind)>,
    paths: Seq<Seq<u8>>,
) -> Seq<ValidationFailView>
    decreases paths.len(),
{
    if paths.len() == 0 {
        Seq::empty()
    } else {
        let init = ignored_fails(found, paths.drop_last());
        if facts::kind_at(found, paths.last()) == Kind::File {
            init.push(ValidationFailView::FileInIgnoredDirectories(paths.last()))
        } else {
            init
        }
    }
}

/// All that is wrong with a configuration.
pub open spec fn validation_fails(
    found: Seq<(Seq<u8>, Kind)>,
    config: ConfigView,
) -> Seq<ValidationFailView> {
    search_fails(found, config.search_directories) + ignored_fails(
        found,
        config.ignored_directories,
    ) + (if config.search_directories.len() == 0 {
        seq![ValidationFailView::NoSearchDirectories]
    } else {
        Seq::empty()
    })
}

/// A configuration without faults has a directory to scan, every directory to scan is one, and
/// no file is to be ignored.
pub proof fn valid_config_has_directories(found: Seq<(Seq<u8>, Kind)>, config: ConfigView)
    ensures
        validation_fails(found, config).len() == 0 <==> {
            &&& config.search_directories.len() > 0
            &&& forall|i: int|
                0 <= i < config.search_directories.len() ==> facts::kind_at(
                    found,
                    #[trigger] config.search_directories[i],
                ) == Kind::Directory
            &&& forall|i: int|
                0 <= i < config.ignored_directories.len() ==> facts::kind_at(
                    found,
                    #[trigger] config.ignored_directories[i],
                ) != Kind::File
        },
{
    no_search_fails(found, config.search_directories);
    no_ignored_fails(found, config.ignored_directories);
}

proof fn no_search_fails(found: Seq<(Seq<u8>, Kind)>, paths: Seq<Seq<u8>>)
    ensures
        search_fails(found, paths).len() == 0 <==> forall|i: int|
            0 <= i < paths.len() ==> facts::kind_at(found, #[trigger] paths[i]) == Kind::Directory,
    decreases paths.len(),
{
    if paths.len() > 0 {
        let init = paths.drop_last();
        no_search_fails(found, init);
        assert forall|i: int| 0 <= i < init.len() implies #[trigger] init[i] == paths[i] by {}
        assert(paths[paths.len() - 1] == paths.last());
        if search_fails(found, paths).len() == 0 {
            assert forall|i: int| 0 <= i < paths.len() implies facts::kind_at(
                found,
                #[trigger] paths[i],
            ) == Kind::Directory by {
                if i < init.len() {
                    assert(init[i] == paths[i]);
                }
            }
        } else if search_fails(found, init).len() > 0 {
            let i = choose|i: int|
                0 <= i < init.len() && facts::kind_at(found, #[trigger] init[i])
                    != Kind::Directory;
            assert(paths[i] == init[i]);
        }
    }
}

proof fn no_ignored_fails(found: Seq<(Seq<u8>, Kind)>, paths: Seq<Seq<u8>>)
    ensures
        ignored_fails(found, paths).len() == 0 <==> forall|i: int|
            0 <= i < paths.len() ==> facts::kind_at(found, #[trigger] paths[i]) != Kind::File,
    decreases paths.len(),
{
    if paths.len() > 0 {
        let init = paths.drop_last();
        no_ignored_fails(found, init);
        assert(paths[paths.len() - 1] == paths.last());
        if ignored_fails(found, paths).len() == 0 {
            assert forall|i: int| 0 <= i < paths.len() implies facts::kind_at(
                found,
                #[trigger] paths[i],
            ) != Kind::File by {
                if i < init.len() {
                    assert(init[i] == paths[i]);
                }
            }
        } else if ignored_fails(found, init).len() > 0 {
            let i = choose|i: int|
                0 <= i < init.len() && facts::kind_at(found, #[trigger] init[i]) == Kind::File;
            assert(paths[i] == init[i]);
        }
    }
}

/// What comes of the notation of the shell in a path. A path that is not a text is dropped; so is
/// one that names a variable which is not there.
pub open spec fn expanded_directory(
    path: Seq<u8>,
    environment: EnvironmentView,
) -> Option<Seq<char>> {
    if utf8::valid_utf8(path) {
        shell::expanded_text(utf8::decode_utf8(path), environment.home, environment.variables)
    } else {
        None
    }
}

/// What comes of the notation of the shell in a path depends on the system.
pub open spec fn is_system_dependent(path: Seq<u8>) -> bool {
    utf8::valid_utf8(path) && shell::depends_on_system(utf8::decode_utf8(path))
}

/// What can come of the notation of the shell in a path: just one thing, but where it depends on
/// the system.
pub open spec fn can_expand_to(
    path: Seq<u8>,
    environment: EnvironmentView,
    expanded: Option<Seq<char>>,
) -> bool {
    &&& !is_system_dependent(path) ==> expanded == expanded_directory(path, environment)
    &&& utf8::valid_utf8(path) ==> shell::follows_notation(
        utf8::decode_utf8(path),
        environment,
        expanded,
    )
}

/// Each of the expansions can come of the path at the same place.
pub open spec fn can_expand_all(
    paths: Seq<Seq<u8>>,
    environment: EnvironmentView,
    expanded: Seq<Option<Seq<char>>>,
) -> bool {
    &&& expanded.len() == paths.len()
    &&& forall|i: int|
        0 <= i < paths.len() ==> can_expand_to(paths[i], environment, #[trigger] expanded[i])
}

/// The paths that came of the notation of the shell.
pub open spec fn expansions(expanded: Seq<Option<Seq<char>>>) -> Seq<Seq<u8>>
    decreases expanded.len(),
{
    if expanded.len() == 0 {
        Seq::empty()
    } else {
        let init = expansions(expanded.drop_last());
        match expanded.last() {
            Some(text) => init.push(utf8::encode_utf8(text)),
            None => init,
        }
    }
}

/// The set of the paths that came of the notation of the shell.
pub open spec fn expanded_set(expanded: Seq<Option<Seq<char>>>) -> Seq<Seq<u8>> {
    sorted_set::extended::<FilePath>(Seq::empty(), expansions(expanded))
}

/// The views of texts that may be missing.
pub open spec fn option_views(texts: Seq<Option<String>>) -> Seq<Option<Seq<char>>> {
    texts.map_values(|t: Option<String>| shell::option_text(t))
}

/// The paths that came of the notation of the shell, as a set.
pub fn collect_expanded(expanded: &Vec<Option<String>>) -> (paths: PathSet)
    ensures
        paths@ == expanded_set(option_views(expanded@)),
{
    let ghost all = option_views(expanded@);
    let mut paths = PathSet::new();
    let mut i: usize = 0;
    assert(all.take(0) =~= Seq::<Option<Seq<char>>>::empty());
    while i < expanded.len()
        invariant
            i <= expanded@.len(),
            all == option_views(expanded@),
            paths@ == expanded_set(all.take(i as int)),
        decreases expanded@.len() - i,
    {
        assert(all.take(i + 1).drop_last() =~= all.take(i as int));
        let ghost some = expansions(all.take(i as int));
        if let Some(text) = &expanded[i] {
            assert(all[i as int] == Some(text@));
            let path = FilePath::new(text.as_str());
            assert(some.push(path@).drop_last() =~= some);
            paths.insert(path);
        }
        i = i + 1;
    }
    assert(all.take(i as int) =~= all);
    paths
}

fn expand_each(paths: &PathSet, environment: &Environment) -> (expanded: Vec<Option<String>>)
    ensures
        can_expand_all(paths@, environment@, option_views(expanded@)),
{
    let mut expanded: Vec<Option<String>> = Vec::new();
    let mut i: usize = 0;
    while i < paths.len()
        invariant
            i <= paths@.len(),
            expanded@.len() == i,
            forall|j: int|
                0 <= j < i ==> can_expand_to(
                    paths@[j],
                    environment@,
                    #[trigger] option_views(expanded@)[j],
                ),
        decreases paths@.len() - i,
    {
        let ghost before = option_views(expanded@);
        let one = match paths.get(i).to_str() {
            Some(text) => shell::expand_full(text.as_str(), environment),
            None => None,
        };
        let ghost v = shell::option_text(one);
        expanded.push(one);
        assert(option_views(expanded@) =~= before.push(v));
        i = i + 1;
    }
    expanded
}

/// A configuration with other directories.
pub open spec fn with_directories(
    config: ConfigView,
    search: Seq<Seq<u8>>,
    ignored: Seq<Seq<u8>>,
) -> ConfigView {
    ConfigView {
        search_directories: search,
        ignored_directories: ignored,
        whitelist_patterns: config.whitelist_patterns,
        threads: config.threads,
        debounce_duration: config.debounce_duration,
    }
}

/// `after` is `before` with the notation of the shell in its directories expanded.
pub open spec fn is_expanded_in(
    before: ConfigView,
    environment: EnvironmentView,
    after: ConfigView,
) -> bool {
    exists|search: Seq<Option<Seq<char>>>, ignored: Seq<Option<Seq<char>>>| #[trigger]
        can_expand_all(before.search_directories, environment, search) && #[trigger]
            can_expand_all(before.ignored_directories, environment, ignored) && after
            == with_directories(before, expanded_set(search), expanded_set(ignored))
}

/// What comes of the notation of the shell in the paths.
pub open spec fn expanded_directories(
    paths: Seq<Seq<u8>>,
    environment: EnvironmentView,
) -> Seq<Option<Seq<char>>> {
    paths.map_values(|path: Seq<u8>| expanded_directory(path, environment))
}

/// The configuration with the notation of the shell in its directories expanded.
pub open spec fn expanded_config(config: ConfigView, environment: EnvironmentView) -> ConfigView {
    with_directories(
        config,
        expanded_set(expanded_directories(config.search_directories, environment)),
        expanded_set(expanded_directories(config.ignored_directories, environment)),
    )
}

/// Only one thing comes of the notation of the shell in a configuration, unless one of its
/// directories depends on the system.
pub proof fn expansion_is_settled(
    before: ConfigView,
    environment: EnvironmentView,
    after: ConfigView,
)
    requires
        is_expanded_in(before, environment, after),
        forall|i: int|
            0 <= i < before.search_directories.len() ==> !is_system_dependent(
                #[trigger] before.search_directories[i],
            ),
        forall|i: int|
            0 <= i < before.ignored_directories.len() ==> !is_system_dependent(
                #[trigger] before.ignored_directories[i],
            ),
    ensures
        after == expanded_config(before, environment),
{
    let (search, ignored) = choose|
        search: Seq<Option<Seq<char>>>,
        ignored: Seq<Option<Seq<char>>>,
    | #[trigger]
        can_expand_all(before.search_directories, environment, search) && #[trigger]
            can_expand_all(before.ignored_directories, environment, ignored) && after
            == with_directories(before, expanded_set(search), expanded_set(ignored));
    assert forall|i: int| 0 <= i < search.len() implies #[trigger] search[i]
        == expanded_directory(before.search_directories[i], environment) by {
        assert(!is_system_dependent(before.search_directories[i]));
    }
    assert forall|i: int| 0 <= i < ignored.len() implies #[trigger] ignored[i]
        == expanded_directory(before.ignored_directories[i], environment) by {
        assert(!is_system_dependent(before.ignored_directories[i]));
    }
    assert(search =~= expanded_directories(before.search_directories, environment));
    assert(ignored =~= expanded_directories(before.ignored_directories, environment));
}

/// The set of some paths that are given as texts.
pub open spec fn paths_from(texts: Seq<Seq<char>>) -> Seq<Seq<u8>> {
    sorted_set::extended::<FilePath>(
        Seq::empty(),
        texts.map_values(|t: Seq<char>| utf8::encode_utf8(t)),
    )
}

/// The directories to ignore by default.
pub open spec fn default_ignored_directories() -> Seq<Seq<char>> {
    seq![
        "~/.Trash"@,
        "~/Applications"@,
        "~/Downloads"@,
        "~/Library"@,
        "~/Music/iTunes"@,
        "~/Music/Music"@,
        "~/Pictures/Photos Library.photoslibrary"@,
    ]
}

/// The patterns on the whitelist by default.
pub open spec fn default_whitelist_patterns() -> Seq<Seq<char>> {
    seq![
        "*.broguerec"@,
        "*.broguesave"@,
        "*/BrogueHighScores.txt"@,
        "*/BrogueRunHistory.txt"@,
    ]
}

/// For how long changes are gathered by default, in seconds.
pub const DEFAULT_DEBOUNCE_DURATION_SECS: u64 = 2;

/// How many threads scan by default.
pub const DEFAULT_THREADS: usize = 4;

/// The default configuration.
pub open spec fn default_config() -> ConfigView {
    ConfigView {
        search_directories: paths_from(seq!["~"@]),
        ignored_directories: paths_from(default_ignored_directories()),
        whitelist_patterns: sorted_set::extended::<String>(
            Seq::empty(),
            default_whitelist_patterns(),
        ),
        threads: DEFAULT_THREADS,
        debounce_duration: duration::in_nanos(DEFAULT_DEBOUNCE_DURATION_SECS as int, 0),
    }
}

fn paths_of(texts: &Vec<&str>) -> (paths: PathSet)
    ensures
        paths@ == paths_from(texts@.map_values(|t: &str| t@)),
{
    let ghost all = texts@.map_values(|t: &str| t@).map_values(
        |t: Seq<char>| utf8::encode_utf8(t),
    );
    let mut paths = PathSet::new();
    let mut i: usize = 0;
    assert(all.take(0) =~= Seq::<Seq<u8>>::empty());
    while i < texts.len()
        invariant
            i <= texts@.len(),
            all == texts@.map_values(|t: &str| t@).map_values(
                |t: Seq<char>| utf8::encode_utf8(t),
            ),
            paths@ == sorted_set::extended::<FilePath>(Seq::empty(), all.take(i as int)),
        decreases texts@.len() - i,
    {
        assert(all.take(i + 1).drop_last() =~= all.take(i as int));
        assert(all[i as int] == utf8::encode_utf8(texts@[i as int]@));
        paths.insert(FilePath::new(texts[i]));
        i = i + 1;
    }
    assert(all.take(i as int) =~= all);
    paths
}

fn texts_of(texts: &Vec<&str>) -> (all: TextSet)
    ensures
        all@ == sorted_set::extended::<String>(
            Seq::empty(),
            texts@.map_values(|t: &str| t@),
        ),
{
    let ghost views = texts@.map_values(|t: &str| t@);
    let mut all = TextSet::new();
    let mut i: usize = 0;
    assert(views.take(0) =~= Seq::<Seq<char>>::empty());
    while i < texts.len()
        invariant
            i <= texts@.len(),
            views == texts@.map_values(|t: &str| t@),
            all@ == sorted_set::extended::<String>(Seq::empty(), views.take(i as int)),
        decreases texts@.len() - i,
    {
        assert(views.take(i + 1).drop_last() =~= views.take(i as int));
        assert(views[i as int] == texts@[i as int]@);
        all.insert(texts[i].to_owned());
        i = i + 1;
    }
    assert(views.take(i as int) =~= views);
    all
}

/// A copy of a set of texts.
pub fn copy_texts(texts: &TextSet) -> (copy: TextSet)
    ensures
        copy@ == texts@,
{
    proof {
        use_type_invariant(texts);
    }
    let mut items: Vec<String> = Vec::new();
    let mut i: usize = 0;
    while i < texts.len()
        invariant
            i <= texts@.len(),
            items@.len() == i,
            forall|j: int| 0 <= j < i ==> (#[trigger] items@[j])@ == texts@[j],
        decreases texts@.len() - i,
    {
        items.push(texts.get(i).as_str().to_owned());
        i = i + 1;
    }
    assert(sorted_set::item_views(items@) =~= texts@);
    TextSet::from_increasing(items)
}

impl Default for Config {
    fn default() -> (config: Config)
        ensures
            config@ == default_config(),
    {
        let search = vec!["~"];
        let ignored = vec![
            "~/.Trash",
            "~/Applications",
            "~/Downloads",
            "~/Library",
            "~/Music/iTunes",
            "~/Music/Music",
            "~/Pictures/Photos Library.photoslibrary",
        ];
        let whitelist = vec![
            "*.broguerec",
            "*.broguesave",
            "*/BrogueHighScores.txt",
            "*/BrogueRunHistory.txt",
        ];
        assert(search@.map_values(|t: &str| t@) =~= seq!["~"@]);
        assert(ignored@.map_values(|t: &str| t@) =~= default_ignored_directories());
        assert(whitelist@.map_values(|t: &str| t@) =~= default_whitelist_patterns());
        Config {
            search_directories: paths_of(&search),
            ignored_directories: paths_of(&ignored),
            whitelist_patterns: texts_of(&whitelist),
            threads: DEFAULT_THREADS,
            debounce_duration: Duration::from_secs(DEFAULT_DEBOUNCE_DURATION_SECS),
        }
    }
}

/// What to do to get a configuration.
#[derive(Debug)]
pub enum LoadOrCreate {
    /// Load the file.
    Load,
    /// Create the file in this directory.
    Create(FilePath),
}

/// What is said where there is no directory to create a file in.
pub open spec fn no_parent_text(file_path: Seq<u8>) -> Seq<char> {
    "Can't get a parent path for '"@ + text::lossy_text(file_path) + "'"@
}

impl Config {
    /// The configuration that stands for an old one.
    pub fn from_legacy(legacy_config: &LegacyConfig) -> (config: Config)
        ensures
            config@ == (ConfigView {
                search_directories: legacy_config.search_directories@,
                ignored_directories: legacy_config.ignored_directories@,
                whitelist_patterns: legacy_config.whitelist_patterns@,
                threads: default_config().threads,
                debounce_duration: default_config().debounce_duration,
            }),
    {
        let default = Config::default();
        Config {
            search_directories: diff::copy_paths(&legacy_config.search_directories),
            ignored_directories: diff::copy_paths(&legacy_config.ignored_directories),
            whitelist_patterns: copy_texts(&legacy_config.whitelist_patterns),
            threads: default.threads,
            debounce_duration: default.debounce_duration,
        }
    }

    /// Whether to load the configuration file or to create it.
    pub fn load_or_create(file_path: &FilePath, found: &Findings) -> (res: Result<
        LoadOrCreate,
        String,
    >)
        ensures
            if facts::kind_at(found@, file_path@) == Kind::File {
                res == Ok::<LoadOrCreate, String>(LoadOrCreate::Load)
            } else {
                match res {
                    Ok(LoadOrCreate::Load) => false,
                    Ok(LoadOrCreate::Create(parent)) => path::path_parent(file_path@) == Some(
                        parent@,
                    ),
                    Err(message) => path::path_parent(file_path@) is None && message@
                        == no_parent_text(file_path@),
                }
            },
    {
        match found.kind(file_path) {
            Kind::File => Ok(LoadOrCreate::Load),
            _ => match file_path.parent() {
                Some(parent) => Ok(LoadOrCreate::Create(parent)),
                None => Err(
                    "Can't get a parent path for '".to_owned().concat(
                        file_path.display().as_str(),
                    ).concat("'"),
                ),
            },
        }
    }

    fn expand_paths(paths: &PathSet, environment: &Environment) -> (expanded: PathSet)
        ensures
            exists|all: Seq<Option<Seq<char>>>| #[trigger]
                can_expand_all(paths@, environment@, all) && expanded@ == expanded_set(all),
    {
        let all = expand_each(paths, environment);
        collect_expanded(&all)
    }

    /// Expands the notation of the shell in the directories.
    pub fn expand(&mut self, environment: &Environment)
        ensures
            is_expanded_in(old(self)@, environment@, final(self)@),
    {
        let ghost before = self@;
        let search = Config::expand_paths(&self.search_directories, environment);
        let ignored = Config::expand_paths(&self.ignored_directories, environment);
        self.search_directories = search;
        self.ignored_directories = ignored;
        proof {
            let s = choose|all: Seq<Option<Seq<char>>>| #[trigger]
                can_expand_all(before.search_directories, environment@, all) && search@
                    == expanded_set(all);
            let i = choose|all: Seq<Option<Seq<char>>>| #[trigger]
                can_expand_all(before.ignored_directories, environment@, all) && ignored@
                    == expanded_set(all);
            assert(can_expand_all(before.search_directories, environment@, s));
            assert(can_expand_all(before.ignored_directories, environment@, i));
            assert(self@ == with_directories(before, expanded_set(s), expanded_set(i)));
        }
    }

    /// Checks the directories.
    pub fn validate(&self, found: &Findings) -> (res: Result<(), ValidationError>)
        ensures
            match res {
                Ok(_) => validation_fails(found@, self@).len() == 0,
                Err(error) => sorted_set::item_views(error.fails@) == validation_fails(
                    found@,
                    self@,
                ) && error.fails@.len() > 0,
            },
    {
        let ghost search = self.search_directories@;
        let ghost ignored = self.ignored_directories@;
        let mut fails: Vec<ValidationFail> = Vec::new();
        let mut i: usize = 0;
        assert(search.take(0) =~= Seq::<Seq<u8>>::empty());
        assert(sorted_set::item_views(fails@) =~= Seq::<ValidationFailView>::empty());
        while i < self.search_directories.len()
            invariant
                i <= search.len(),
                search == self.search_directories@,
                sorted_set::item_views(fails@) == search_fails(found@, search.take(i as int)),
            decreases search.len() - i,
        {
            let path = self.search_directories.get(i);
            let ghost before = sorted_set::item_views(fails@);
            assert(search.take(i + 1).drop_last() =~= search.take(i as int));
            match found.kind(path) {
                Kind::File => {
                    fails.push(ValidationFail::FileInSearchPaths(path.clone()));
                    assert(sorted_set::item_views(fails@) =~= before.push(
                        ValidationFailView::FileInSearchPaths(path@),
                    ));
                },
                Kind::Directory => {},
                _ => {
                    fails.push(ValidationFail::NotFound(path.clone()));
                    assert(sorted_set::item_views(fails@) =~= before.push(
                        ValidationFailView::NotFound(path@),
                    ));
                },
            }
            i = i + 1;
        }
        assert(search.take(i as int) =~= search);
        let ghost first = search_fails(found@, search);
        let mut j: usize = 0;
        assert(ignored.take(0) =~= Seq::<Seq<u8>>::empty());
        assert(first + ignored_fails(found@, ignored.take(0)) =~= first);
        while j < self.ignored_directories.len()
            invariant
                j <= ignored.len(),
                ignored == self.ignored_directories@,
                sorted_set::item_views(fails@) == first + ignored_fails(
                    found@,
                    ignored.take(j as int),
                ),
            decreases ignored.len() - j,
        {
            let path = self.ignored_directories.get(j);
            let ghost before = sorted_set::item_views(fails@);
            let ghost some = ignored_fails(found@, ignored.take(j as int));
            assert(ignored.take(j + 1).drop_last() =~= ignored.take(j as int));
            match found.kind(path) {
                Kind::File => {
                    let ghost v = ValidationFailView::FileInIgnoredDirectories(path@);
                    fails.push(ValidationFail::FileInIgnoredDirectories(path.clone()));
                    assert(sorted_set::item_views(fails@) =~= before.push(v));
                    assert(before.push(v) =~= first + some.push(v));
                },
                _ => {},
            }
            j = j + 1;
        }
        assert(ignored.take(j as int) =~= ignored);
        let ghost before = sorted_set::item_views(fails@);
        if self.search_directories.is_empty() {
            fails.push(ValidationFail::NoSearchDirectories);
            assert(sorted_set::item_views(fails@) =~= before.push(
                ValidationFailView::NoSearchDirectories,
            ));
        }
        assert(sorted_set::item_views(fails@) =~= validation_fails(found@, self@));
        if fails.len() == 0 {
            assert(validation_fails(found@, self@).len() == fails@.len());
            Ok(())
        } else {
            Err(ValidationError { fails })
        }
    }

    /// The paths at which to look before the configuration is checked.
    pub fn paths_to_check(&self) -> (paths: Vec<FilePath>)
        ensures
            sorted_set::item_views(paths@) == self@.search_directories
                + self@.ignored_directories,
    {
        let mut paths = diff::copy_paths(&self.search_directories).into_items();
        let mut more = diff::copy_paths(&self.ignored_directories).into_items();
        let ghost a = sorted_set::item_views(paths@);
        let ghost b = sorted_set::item_views(more@);
        paths.append(&mut more);
        assert(sorted_set::item_views(paths@) =~= a + b);
        paths
    }

    /// Loads a configuration: what was read, with the notation of the shell expanded, if there is
    /// nothing wrong with it. `found` is what stands at the paths of the expanded configuration.
    pub fn load(
        read: Result<Config, LoadError>,
        environment: &Environment,
        found: &Findings,
    ) -> (res: Result<Config, LoadError>)
        ensures
            match read {
                Err(error) => res == Err::<Config, LoadError>(error),
                Ok(config) => match res {
                    Ok(loaded) => is_expanded_in(config@, environment@, loaded@)
                        && validation_fails(found@, loaded@).len() == 0,
                    Err(error) => exists|expanded: ConfigView| #[trigger]
                        is_expanded_in(config@, environment@, expanded) && is_validation_error(
                            error,
                            found@,
                            expanded,
                        ),
                },
            },
    {
        match read {
            Err(error) => Err(error),
            Ok(config) => {
                let mut config = config;
                config.expand(environment);
                match config.validate(found) {
                    Ok(_) => Ok(config),
                    Err(error) => Err(LoadError::Validation(error)),
                }
            },
        }
    }

    /// Takes over a configuration that was loaded, after it is expanded again and checked again.
    /// Where none was loaded, or where something is wrong with it by now, the configuration stays
    /// as it is.
    pub fn reload(
        &mut self,
        loaded: Result<Config, LoadError>,
        environment: &Environment,
        found: &Findings,
    ) -> (res: Result<(), LoadError>)
        ensures
            res is Err ==> final(self)@ == old(self)@,
            match loaded {
                Err(error) => res == Err::<(), LoadError>(error),
                Ok(config) => match res {
                    Ok(_) => is_expanded_in(config@, environment@, final(self)@)
                        && validation_fails(found@, final(self)@).len() == 0,
                    Err(error) => exists|expanded: ConfigView| #[trigger]
                        is_expanded_in(config@, environment@, expanded) && is_validation_error(
                            error,
                            found@,
                            expanded,
                        ),
                },
            },
    {
        match loaded {
            Err(error) => Err(error),
            Ok(config) => {
                let mut config = config;
                config.expand(environment);
                match config.validate(found) {
                    Ok(_) => {
                        *self = config;
                        Ok(())
                    },
                    Err(error) => Err(LoadError::Validation(error)),
                }
            },
        }
    }
}

/// The error says what is wrong with the configuration, and something is.
pub open spec fn is_validation_error(
    error: LoadError,
    found: Seq<(Seq<u8>, Kind)>,
    config: ConfigView,
) -> bool {
    error matches LoadError::Validation(e) && sorted_set::item_views(e.fails@)
        == validation_fails(found, config) && e.fails@.len() > 0
}

/// Directories without the notation of the shell stay as they are, but for the order in which
/// they are kept.
pub proof fn plain_directories_stay(
    paths: Seq<Seq<u8>>,
    environment: EnvironmentView,
    expanded: Seq<Option<Seq<char>>>,
)
    requires
        can_expand_all(paths, environment, expanded),
        forall|i: int|
            0 <= i < paths.len() ==> utf8::valid_utf8(#[trigger] paths[i]) && !utf8::decode_utf8(
                paths[i],
            ).contains('$') && !shell::may_name_home(utf8::decode_utf8(paths[i])),
    ensures
        expansions(expanded) == paths,
    decreases paths.len(),
{
    if paths.len() > 0 {
        let n = paths.len() - 1;
        let init = paths.drop_last();
        let some = expanded.drop_last();
        assert forall|i: int| 0 <= i < init.len() implies can_expand_to(
            init[i],
            environment,
            #[trigger] some[i],
        ) by {
            assert(expanded[i] == some[i] && paths[i] == init[i]);
        }
        assert forall|i: int| 0 <= i < init.len() implies utf8::valid_utf8(#[trigger] init[i])
            && !utf8::decode_utf8(init[i]).contains('$') && !shell::may_name_home(
            utf8::decode_utf8(init[i]),
        ) by {
            assert(paths[i] == init[i]);
        }
        plain_directories_stay(init, environment, some);
        assert(can_expand_to(paths[n], environment, expanded[n]));
        assert(utf8::valid_utf8(paths[n]));
        utf8::decode_utf8_encode_utf8(paths[n]);
        assert(paths =~= init.push(paths[n]));
    } else {
        assert(expansions(expanded) =~= paths);
    }
}

} // verus!
