//! Git repositories: where they are, and which of their files git ignores.
use vstd::prelude::*;
use vstd::utf8;

use crate::diff::PathSet;
use crate::facts;
use crate::facts::{Findings, Kind};
use crate::path;
use crate::path::FilePath;
use crate::sorted_set;
use crate::text;

verus! {


/// `.git`: the name of the file or directory that makes a directory a repository.
pub open spec fn dot_git() -> Seq<u8> {
    seq![46u8, 103u8, 105u8, 116u8]
}

fn dot_git_bytes() -> (bytes: Vec<u8>)
    ensures
        bytes@ == dot_git(),
{
    vec![46u8, 103u8, 105u8, 116u8]
}

/// `.git` in a directory.
pub open spec fn marker(directory: Seq<u8>) -> Seq<u8> {
    path::path_join(directory, dot_git())
}

fn marker_of(directory: &FilePath) -> (found: FilePath)
    ensures
        found@ == marker(directory@),
{
    directory.join(&FilePath::from_bytes(dot_git_bytes()))
}

/// The nearest directory from the path up that has a `.git`.
pub open spec fn parent_repository(
    found: Seq<(Seq<u8>, Kind)>,
    path: Seq<u8>,
) -> Option<Seq<u8>>
    decreases path.len(),
{
    if facts::kind_at(found, marker(path)) != Kind::Missing {
        Some(path)
    } else {
        match path::path_parent(path) {
            None => None,
            Some(up) => {
                proof {
                    path::parent_is_shorter(path);
                }
                parent_repository(found, up)
            },
        }
    }
}

/// The parent repository of a path is the first of the directories from it up that has a `.git`.
pub proof fn parent_repository_is_nearest(found: Seq<(Seq<u8>, Kind)>, path: Seq<u8>)
    ensures
        match parent_repository(found, path) {
            Some(repository) => exists|k: int|
                #![trigger path::ancestors(path)[k]]
                0 <= k < path::ancestors(path).len() && path::ancestors(path)[k] == repository
                    && facts::kind_at(found, marker(repository)) != Kind::Missing && forall|j: int|
                    0 <= j < k ==> facts::kind_at(
                        found,
                        marker(#[trigger] path::ancestors(path)[j]),
                    ) == Kind::Missing,
            None => forall|j: int|
                0 <= j < path::ancestors(path).len() ==> facts::kind_at(
                    found,
                    marker(#[trigger] path::ancestors(path)[j]),
                ) == Kind::Missing,
        },
    decreases path.len(),
{
    let all = path::ancestors(path);
    path::ancestors_start(path);
    if facts::kind_at(found, marker(path)) != Kind::Missing {
        assert(all[0] == path);
    } else if let Some(up) = path::path_parent(path) {
        path::parent_is_shorter(path);
        parent_repository_is_nearest(found, up);
        let above = path::ancestors(up);
        assert(above == all.skip(1));
        assert forall|j: int| 0 <= j < all.len() && (j > 0 ==> facts::kind_at(
            found,
            marker(above[j - 1]),
        ) == Kind::Missing) implies facts::kind_at(found, marker(#[trigger] all[j]))
            == Kind::Missing by {
            if j > 0 {
                assert(all[j] == above[j - 1]);
            }
        }
        if let Some(repository) = parent_repository(found, up) {
            let k = choose|k: int|
                #![trigger above[k]]
                0 <= k < above.len() && above[k] == repository && facts::kind_at(
                    found,
                    marker(repository),
                ) != Kind::Missing && forall|j: int|
                    0 <= j < k ==> facts::kind_at(found, marker(#[trigger] above[j]))
                        == Kind::Missing;
            assert(all[k + 1] == above[k]);
        } else {
            assert forall|j: int| 0 <= j < all.len() implies facts::kind_at(
                found,
                marker(#[trigger] all[j]),
            ) == Kind::Missing by {
                if j > 0 {
                    assert(all[j] == above[j - 1]);
                }
            }
        }
    }
}

/// The repository of a path is the path itself or stands above it.
pub proof fn parent_repository_is_above(found: Seq<(Seq<u8>, Kind)>, path: Seq<u8>)
    ensures
        parent_repository(found, path) matches Some(repository) ==> path::path_starts_with(
            path,
            repository,
        ),
{
    parent_repository_is_nearest(found, path);
    if let Some(repository) = parent_repository(found, path) {
        let all = path::ancestors(path);
        let k = choose|k: int|
            #![trigger all[k]]
            0 <= k < all.len() && all[k] == repository && facts::kind_at(found, marker(repository))
                != Kind::Missing && forall|j: int|
                0 <= j < k ==> facts::kind_at(found, marker(#[trigger] all[j])) == Kind::Missing;
        path::ancestors_are_above(path, k);
    }
}

/// The repository that the path is in: the nearest directory from it up that has a `.git`.
pub fn find_parent_repository(path: &FilePath, found: &Findings) -> (repository: Option<FilePath>)
    ensures
        match repository {
            Some(r) => parent_repository(found@, path@) == Some(r@),
            None => parent_repository(found@, path@) is None,
        },
{
    let mut current = path.clone();
    loop
        invariant
            parent_repository(found@, path@) == parent_repository(found@, current@),
        decreases current@.len(),
    {
        if found.has(&marker_of(&current)) {
            return Some(current);
        }
        proof {
            path::parent_is_shorter(current@);
        }
        match current.parent() {
            None => {
                return None;
            },
            Some(up) => {
                current = up;
            },
        }
    }
}

/// `.git` in every directory from the path up.
pub open spec fn markers_from(path: Seq<u8>) -> Seq<Seq<u8>> {
    path::ancestors(path).map_values(|directory: Seq<u8>| marker(directory))
}

/// The paths that tell which repository the path is in: `.git` in every directory from it up.
pub fn repository_markers(path: &FilePath) -> (markers: Vec<FilePath>)
    ensures
        sorted_set::item_views(markers@) == markers_from(path@),
{
    let ghost all = path::ancestors(path@);
    let mut markers: Vec<FilePath> = Vec::new();
    let mut current = path.clone();
    proof {
        path::ancestors_start(path@);
        assert(all.skip(0) =~= all);
    }
    loop
        invariant
            all == path::ancestors(path@),
            markers@.len() < all.len(),
            all.skip(markers@.len() as int) == path::ancestors(current@),
            forall|j: int| 0 <= j < markers@.len() ==> (#[trigger] markers@[j])@ == marker(all[j]),
        decreases current@.len(),
    {
        let ghost n = markers@.len() as int;
        proof {
            path::parent_is_shorter(current@);
            path::ancestors_start(current@);
            assert(all.skip(n)[0] == all[n]);
            assert(all.skip(n).skip(1) =~= all.skip(n + 1));
        }
        markers.push(marker_of(&current));
        match current.parent() {
            None => {
                assert(sorted_set::item_views(markers@) =~= markers_from(path@));
                return markers;
            },
            Some(up) => {
                proof {
                    path::ancestors_start(up@);
                }
                current = up;
            },
        }
    }
}

/// Whether a walk goes on below an entry.
#[derive(Clone, Copy, PartialEq, Eq, Debug, Structural)]
pub enum Walk {
    Continue,
    Skip,
}

/// What an entry means to the search for repositories.
#[derive(Debug)]
pub struct Visit {
    /// The repository that the entry reveals.
    pub repository: Option<FilePath>,
    pub walk: Walk,
}

/// The directory that holds the entry, if the entry is a `.git`.
pub open spec fn revealed(path: Seq<u8>) -> Option<Seq<u8>> {
    if path::path_file_name(path) == Some(dot_git()) {
        path::path_parent(path)
    } else {
        None
    }
}

/// Below an ignored directory no repository is searched for.
pub open spec fn is_skipped(path: Seq<u8>, kind: Kind, ignored: Seq<Seq<u8>>) -> bool {
    kind == Kind::Directory && sorted_set::has_key::<FilePath>(ignored, path::components(path))
}

/// The repository that an entry reveals. The `.git` of a worktree is a file.
pub open spec fn visited_repository(
    path: Seq<u8>,
    kind: Kind,
    ignored: Seq<Seq<u8>>,
) -> Option<Seq<u8>> {
    if (kind == Kind::File || kind == Kind::Directory) && !is_skipped(path, kind, ignored) {
        revealed(path)
    } else {
        None
    }
}

fn revealed_by(path: &FilePath) -> (repository: Option<FilePath>)
    ensures
        match repository {
            Some(r) => revealed(path@) == Some(r@),
            None => revealed(path@) is None,
        },
{
    if path.has_file_name(&dot_git_bytes()) {
        path.parent()
    } else {
        None
    }
}

/// What an entry of a walk means to the search for repositories.
pub fn visit_entry(path: &FilePath, kind: Kind, ignored_directories: &PathSet) -> (visit: Visit)
    ensures
        visit.walk == (if is_skipped(path@, kind, ignored_directories@) {
            Walk::Skip
        } else {
            Walk::Continue
        }),
        match visit.repository {
            Some(r) => visited_repository(path@, kind, ignored_directories@) == Some(r@),
            None => visited_repository(path@, kind, ignored_directories@) is None,
        },
{
    match kind {
        Kind::File => Visit { repository: revealed_by(path), walk: Walk::Continue },
        Kind::Directory => {
            if ignored_directories.contains(path) {
                Visit { repository: None, walk: Walk::Skip }
            } else {
                Visit { repository: revealed_by(path), walk: Walk::Continue }
            }
        },
        _ => Visit { repository: None, walk: Walk::Continue },
    }
}

/// What `git ls-files` said of a repository.
#[derive(Debug)]
pub enum LsFiles {
    /// The directory does not exist.
    NoDirectory,
    /// The command failed in this directory, and wrote this to its error stream.
    Failed(FilePath, Vec<u8>),
    /// The command wrote this in this directory: names, each with a zero byte behind it.
    Listed(FilePath, Vec<u8>),
}

/// The files that git ignores in a repository.
#[derive(Debug)]
pub struct IgnoredFiles {
    pub files: Vec<FilePath>,
    /// What to warn of.
    pub warning: Option<String>,
}

/// The pieces between the zero bytes.
pub open spec fn zero_separated(bytes: Seq<u8>) -> Seq<Seq<u8>>
    decreases bytes.len(),
{
    if bytes.len() == 0 {
        seq![Seq::<u8>::empty()]
    } else {
        let init = zero_separated(bytes.drop_last());
        if bytes.last() == 0 {
            init.push(Seq::empty())
        } else {
            init.drop_last().push(init.last().push(bytes.last()))
        }
    }
}

/// The names among the pieces, as paths in the directory. An empty piece is no name, and one
/// that is not UTF-8 is left out.
pub open spec fn names_in(directory: Seq<u8>, pieces: Seq<Seq<u8>>) -> Seq<Seq<u8>>
    decreases pieces.len(),
{
    if pieces.len() == 0 {
        Seq::empty()
    } else {
        let init = names_in(directory, pieces.drop_last());
        if pieces.last().len() > 0 && utf8::valid_utf8(pieces.last()) {
            init.push(path::path_join(directory, pieces.last()))
        } else {
            init
        }
    }
}

/// What is warned of where the command failed.
pub open spec fn ls_files_warning(directory: Seq<u8>, stderr: Seq<u8>) -> Seq<char> {
    "Failed to find ignored file in repository '"@ + text::lossy_text(directory) + "': "@
        + text::lossy_text(stderr)
}

/// Splits at the zero bytes.
pub fn split_at_zeros(bytes: &Vec<u8>) -> (pieces: Vec<Vec<u8>>)
    ensures
        sorted_set::item_views(pieces@) == zero_separated(bytes@),
{
    let mut pieces: Vec<Vec<u8>> = Vec::new();
    let mut piece: Vec<u8> = Vec::new();
    let mut i: usize = 0;
    assert(bytes@.take(0) =~= Seq::<u8>::empty());
    assert(sorted_set::item_views(pieces@).push(piece@) =~= seq![Seq::<u8>::empty()]);
    while i < bytes.len()
        invariant
            i <= bytes@.len(),
            sorted_set::item_views(pieces@).push(piece@) == zero_separated(
                bytes@.take(i as int),
            ),
        decreases bytes@.len() - i,
    {
        let ghost before = sorted_set::item_views(pieces@);
        let ghost now = bytes@.take(i + 1);
        assert(now.drop_last() =~= bytes@.take(i as int));
        assert(now.last() == bytes@[i as int]);
        let b = bytes[i];
        let ghost old_piece = piece@;
        if b == 0 {
            pieces.push(piece);
            piece = Vec::new();
            assert(sorted_set::item_views(pieces@) =~= before.push(old_piece));
            assert(piece@ =~= Seq::<u8>::empty());
        } else {
            piece.push(b);
            assert(before.push(old_piece).drop_last() =~= before);
        }
        i = i + 1;
    }
    assert(bytes@.take(i as int) =~= bytes@);
    let ghost before = sorted_set::item_views(pieces@);
    let ghost last = piece@;
    pieces.push(piece);
    assert(sorted_set::item_views(pieces@) =~= before.push(last));
    pieces
}

fn copy_of(bytes: &Vec<u8>) -> (copy: Vec<u8>)
    ensures
        copy@ == bytes@,
{
    let copy = path::copy_bytes(bytes, 0, bytes.len());
    assert(copy@ =~= bytes@);
    copy
}

/// The files that git ignores in a repository, from what `git ls-files` said of it.
pub fn find_ignored_files(said: &LsFiles) -> (ignored: IgnoredFiles)
    ensures
        sorted_set::item_views(ignored.files@) == (match *said {
            LsFiles::Listed(directory, stdout) => names_in(directory@, zero_separated(stdout@)),
            _ => Seq::empty(),
        }),
        match *said {
            LsFiles::Failed(directory, stderr) => ignored.warning is Some
                && ignored.warning->0@ == ls_files_warning(directory@, stderr@),
            _ => ignored.warning is None,
        },
{
    let mut files: Vec<FilePath> = Vec::new();
    assert(sorted_set::item_views(files@) =~= Seq::<Seq<u8>>::empty());
    match said {
        LsFiles::NoDirectory => IgnoredFiles { files, warning: None },
        LsFiles::Failed(directory, stderr) => {
            let message = "Failed to find ignored file in repository '".to_owned().concat(
                directory.display().as_str(),
            ).concat("': ").concat(text::decode_lossy(stderr).as_str());
            IgnoredFiles { files, warning: Some(message) }
        },
        LsFiles::Listed(directory, stdout) => {
            let pieces = split_at_zeros(stdout);
            let ghost all = sorted_set::item_views(pieces@);
            let mut i: usize = 0;
            assert(all.take(0) =~= Seq::<Seq<u8>>::empty());
            while i < pieces.len()
                invariant
                    i <= pieces@.len(),
                    all == sorted_set::item_views(pieces@),
                    sorted_set::item_views(files@) == names_in(directory@, all.take(i as int)),
                decreases pieces@.len() - i,
            {
                let ghost before = sorted_set::item_views(files@);
                assert(all[i as int] == pieces@[i as int]@);
                assert(all.take(i + 1).drop_last() =~= all.take(i as int));
                if pieces[i].len() > 0 && text::decode(copy_of(&pieces[i])).is_some() {
                    let name = FilePath::from_bytes(copy_of(&pieces[i]));
                    let file = directory.join(&name);
                    let ghost path = file@;
                    files.push(file);
                    assert(sorted_set::item_views(files@) =~= before.push(path));
                }
                i = i + 1;
            }
            assert(all.take(i as int) =~= all);
            IgnoredFiles { files, warning: None }
        },
    }
}

/// The answer names the path.
pub open spec fn says_ignored(answer: Option<Vec<u8>>, path: Seq<u8>) -> bool {
    answer is Some && zero_separated(answer->0@).contains(path)
}

/// Whether git left one of the paths out when it was asked which of them it ignores. What git
/// wrote are the ignored ones, each with a zero byte behind it; where git could not be asked,
/// none of them counts as ignored.
pub fn contains_not_ignored_path(paths: &Vec<FilePath>, ignored: &Option<Vec<u8>>) -> (res: bool)
    ensures
        res == exists|i: int|
            0 <= i < paths@.len() && !#[trigger] says_ignored(*ignored, paths@[i]@),
{
    let pieces = match ignored {
        Some(bytes) => split_at_zeros(bytes),
        None => {
            assert(!says_ignored(*ignored, paths@[0]@));
            return paths.len() > 0;
        },
    };
    let ghost all = zero_separated(ignored->0@);
    let mut i: usize = 0;
    while i < paths.len()
        invariant
            i <= paths@.len(),
            all == sorted_set::item_views(pieces@),
            ignored is Some,
            all == zero_separated(ignored->0@),
            forall|j: int| 0 <= j < i ==> #[trigger] says_ignored(*ignored, paths@[j]@),
        decreases paths@.len() - i,
    {
        let mut listed = false;
        let mut j: usize = 0;
        while j < pieces.len()
            invariant
                j <= pieces@.len(),
                i < paths@.len(),
                all == sorted_set::item_views(pieces@),
                listed ==> all.contains(paths@[i as int]@),
                !listed ==> forall|k: int| 0 <= k < j ==> #[trigger] all[k] != paths@[i as int]@,
            decreases pieces@.len() - j,
        {
            assert(all[j as int] == pieces@[j as int]@);
            let piece = FilePath::from_bytes(copy_of(&pieces[j]));
            if piece.same_bytes(&paths[i]) {
                listed = true;
            }
            j = j + 1;
        }
        if !listed {
            assert(!says_ignored(*ignored, paths@[i as int]@));
            return true;
        }
        assert(says_ignored(*ignored, paths@[i as int]@));
        i = i + 1;
    }
    false
}

/// The file with the patterns that git ignores everywhere: git's answer without the white space
/// around it, where a file stands there.
pub open spec fn global_gitignore(stdout: Seq<u8>, found: Seq<(Seq<u8>, Kind)>) -> Option<
    Seq<u8>,
> {
    if utf8::valid_utf8(stdout) {
        let name = utf8::encode_utf8(text::trimmed(utf8::decode_utf8(stdout)));
        if text::trimmed(utf8::decode_utf8(stdout)).len() > 0 && facts::kind_at(found, name)
            == Kind::File {
            Some(name)
        } else {
            None
        }
    } else {
        None
    }
}

/// The path that git's answer names, if it names one.
pub fn named_global_git_ignore(stdout: &Vec<u8>) -> (named: Option<FilePath>)
    ensures
        match named {
            Some(path) => utf8::valid_utf8(stdout@) && text::trimmed(
                utf8::decode_utf8(stdout@),
            ).len() > 0 && path@ == utf8::encode_utf8(text::trimmed(utf8::decode_utf8(stdout@))),
            None => !utf8::valid_utf8(stdout@) || text::trimmed(
                utf8::decode_utf8(stdout@),
            ).len() == 0,
        },
{
    match text::decode(copy_of(stdout)) {
        None => None,
        Some(answer) => {
            let name = text::trim(answer.as_str());
            if text::to_chars(name.as_str()).len() == 0 {
                None
            } else {
                Some(FilePath::new(name.as_str()))
            }
        },
    }
}

/// The file with the patterns that git ignores everywhere, from git's answer.
pub fn get_global_git_ignore(stdout: &Vec<u8>, found: &Findings) -> (file: Option<FilePath>)
    ensures
        match file {
            Some(path) => global_gitignore(stdout@, found@) == Some(path@),
            None => global_gitignore(stdout@, found@) is None,
        },
{
    match named_global_git_ignore(stdout) {
        None => None,
        Some(path) => match found.kind(&path) {
            Kind::File => Some(path),
            _ => None,
        },
    }
}

/// The arguments with which every git command begins. A repository can name a program in
/// `core.fsmonitor` that git then runs; what is said here overrides it.
pub open spec fn safe_arguments() -> Seq<Seq<u8>> {
    seq![utf8::encode_utf8("-c"@), utf8::encode_utf8("core.fsmonitor="@)]
}

/// The bytes of some texts.
pub open spec fn encoded(texts: Seq<Seq<char>>) -> Seq<Seq<u8>> {
    texts.map_values(|t: Seq<char>| utf8::encode_utf8(t))
}

/// The arguments of the command that lists the files which git ignores in a directory.
pub open spec fn ls_files_command(directory: Seq<u8>) -> Seq<Seq<u8>> {
    safe_arguments().push(utf8::encode_utf8("-C"@)).push(directory) + encoded(
        seq![
            "ls-files"@,
            "--directory"@,
            "--exclude-standard"@,
            "--ignored"@,
            "--others"@,
            "-z"@,
        ],
    )
}

/// The arguments of the command that says which of the paths it reads git ignores.
pub open spec fn check_ignore_command(directory: Seq<u8>) -> Seq<Seq<u8>> {
    safe_arguments().push(utf8::encode_utf8("-C"@)).push(directory) + encoded(
        seq!["check-ignore"@, "--stdin"@, "-z"@],
    )
}

/// The arguments of the command that names the file with the patterns which git ignores
/// everywhere. The settings of a repository do not count.
pub open spec fn global_gitignore_command() -> Seq<Seq<u8>> {
    safe_arguments() + encoded(
        seq!["config"@, "--global"@, "--get"@, "core.excludesFile"@],
    )
}

/// Every git command begins with the arguments that keep a repository from naming a program.
pub proof fn git_commands_are_safe(directory: Seq<u8>)
    ensures
        ls_files_command(directory).take(2) == safe_arguments(),
        check_ignore_command(directory).take(2) == safe_arguments(),
        global_gitignore_command().take(2) == safe_arguments(),
{
    assert(ls_files_command(directory).take(2) =~= safe_arguments());
    assert(check_ignore_command(directory).take(2) =~= safe_arguments());
    assert(global_gitignore_command().take(2) =~= safe_arguments());
}

fn push_texts(arguments: &mut Vec<FilePath>, texts: &Vec<&str>)
    ensures
        sorted_set::item_views(final(arguments)@) == sorted_set::item_views(old(arguments)@)
            + encoded(texts@.map_values(|t: &str| t@)),
{
    let ghost before = sorted_set::item_views(arguments@);
    let ghost all = encoded(texts@.map_values(|t: &str| t@));
    let mut i: usize = 0;
    assert(before + all.take(0) =~= before);
    while i < texts.len()
        invariant
            i <= texts@.len(),
            all == encoded(texts@.map_values(|t: &str| t@)),
            sorted_set::item_views(arguments@) == before + all.take(i as int),
        decreases texts@.len() - i,
    {
        let ghost some = sorted_set::item_views(arguments@);
        let argument = FilePath::new(texts[i]);
        let ghost v = argument@;
        arguments.push(argument);
        assert(all[i as int] == v);
        assert(sorted_set::item_views(arguments@) =~= some.push(v));
        assert(some.push(v) =~= before + all.take(i + 1));
        i = i + 1;
    }
    assert(all.take(i as int) =~= all);
}

fn git_command(directory: Option<&FilePath>, texts: &Vec<&str>) -> (arguments: Vec<FilePath>)
    ensures
        sorted_set::item_views(arguments@) == (match directory {
            Some(d) => safe_arguments().push(utf8::encode_utf8("-C"@)).push(d@),
            None => safe_arguments(),
        }) + encoded(texts@.map_values(|t: &str| t@)),
{
    let mut arguments: Vec<FilePath> = Vec::new();
    arguments.push(FilePath::new("-c"));
    arguments.push(FilePath::new("core.fsmonitor="));
    if let Some(d) = directory {
        arguments.push(FilePath::new("-C"));
        arguments.push(d.clone());
    }
    assert(sorted_set::item_views(arguments@) =~= (match directory {
        Some(d) => safe_arguments().push(utf8::encode_utf8("-C"@)).push(d@),
        None => safe_arguments(),
    }));
    push_texts(&mut arguments, texts);
    arguments
}

/// The arguments of the git command that lists the files which git ignores in a directory.
pub fn ls_files_arguments(directory: &FilePath) -> (arguments: Vec<FilePath>)
    ensures
        sorted_set::item_views(arguments@) == ls_files_command(directory@),
{
    let texts = vec![
        "ls-files",
        "--directory",
        "--exclude-standard",
        "--ignored",
        "--others",
        "-z",
    ];
    assert(texts@.map_values(|t: &str| t@) =~= seq![
        "ls-files"@,
        "--directory"@,
        "--exclude-standard"@,
        "--ignored"@,
        "--others"@,
        "-z"@,
    ]);
    git_command(Some(directory), &texts)
}

/// The arguments of the git command that says which of the paths it reads git ignores.
pub fn check_ignore_arguments(directory: &FilePath) -> (arguments: Vec<FilePath>)
    ensures
        sorted_set::item_views(arguments@) == check_ignore_command(directory@),
{
    let texts = vec!["check-ignore", "--stdin", "-z"];
    assert(texts@.map_values(|t: &str| t@) =~= seq!["check-ignore"@, "--stdin"@, "-z"@]);
    git_command(Some(directory), &texts)
}

/// The arguments of the git command that names the file with the patterns which git ignores
/// everywhere.
pub fn global_gitignore_arguments() -> (arguments: Vec<FilePath>)
    ensures
        sorted_set::item_views(arguments@) == global_gitignore_command(),
{
    let texts = vec!["config", "--global", "--get", "core.excludesFile"];
    assert(texts@.map_values(|t: &str| t@) =~= seq![
        "config"@,
        "--global"@,
        "--get"@,
        "core.excludesFile"@,
    ]);
    git_command(None, &texts)
}

} // verus!
