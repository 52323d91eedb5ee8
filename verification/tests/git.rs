use tmignore::diff::PathSet;
use tmignore::facts::{Findings, Kind};
use tmignore::git::{
    check_ignore_arguments, contains_not_ignored_path, find_ignored_files,
    find_parent_repository, get_global_git_ignore, global_gitignore_arguments,
    ls_files_arguments, named_global_git_ignore, repository_markers, visit_entry, LsFiles, Walk,
};
use tmignore::path::FilePath;

fn p(text: &str) -> FilePath {
    FilePath::new(text)
}

fn found(entries: &[(&str, Kind)]) -> Findings {
    let mut all = Findings::new();
    for (path, kind) in entries {
        all.add(p(path), *kind);
    }
    all
}

fn text(path: &FilePath) -> String {
    path.to_str().unwrap()
}

/// Walks a tree that is given in the order of a walk, and gathers the repositories.
fn find_repositories(tree: &[(&str, Kind)], ignored: &[&str]) -> Vec<FilePath> {
    let mut ignored_directories = PathSet::new();
    for path in ignored {
        ignored_directories.insert(p(path));
    }
    let mut skipped: Vec<FilePath> = Vec::new();
    let mut repositories = Vec::new();
    for (path, kind) in tree {
        let path = p(path);
        if skipped.iter().any(|s| path.starts_with(s)) {
            continue;
        }
        let visit = visit_entry(&path, *kind, &ignored_directories);
        if visit.walk == Walk::Skip {
            skipped.push(path);
        }
        repositories.extend(visit.repository);
    }
    repositories
}

#[test]
fn git_test_root_directory() {
    let repositories =
        find_repositories(&[("/t", Kind::Directory), ("/t/.git", Kind::Directory)], &[]);
    assert_eq!(vec![p("/t")], repositories);
}

#[test]
fn find_repositories_test_root_directory() {
    let repositories =
        find_repositories(&[("/t", Kind::Directory), ("/t/.git", Kind::Directory)], &[]);
    assert_eq!(vec![p("/t")], repositories);
}

#[test]
fn git_test_sub_directory() {
    let repositories = find_repositories(
        &[
            ("/t", Kind::Directory),
            ("/t/subdirectory", Kind::Directory),
            ("/t/subdirectory/.git", Kind::Directory),
        ],
        &[],
    );
    assert_eq!(vec![p("/t/subdirectory")], repositories);
}

#[test]
fn find_repositories_test_sub_directory() {
    let repositories = find_repositories(
        &[
            ("/t", Kind::Directory),
            ("/t/subdirectory", Kind::Directory),
            ("/t/subdirectory/.git", Kind::Directory),
        ],
        &[],
    );
    assert_eq!(vec![p("/t/subdirectory")], repositories);
}

#[test]
fn git_test_nested_repositories() {
    let repositories = find_repositories(
        &[
            ("/t", Kind::Directory),
            ("/t/subdirectory", Kind::Directory),
            ("/t/subdirectory/.git", Kind::Directory),
            ("/t/subdirectory/sub_subdirectory", Kind::Directory),
            ("/t/subdirectory/sub_subdirectory/.git", Kind::Directory),
        ],
        &[],
    );
    assert_eq!(repositories.len(), 2);
    assert!(repositories.contains(&p("/t/subdirectory/sub_subdirectory")));
    assert!(repositories.contains(&p("/t/subdirectory")));
}

#[test]
fn find_repositories_test_nested_repositories() {
    let repositories = find_repositories(
        &[
            ("/t", Kind::Directory),
            ("/t/subdirectory", Kind::Directory),
            ("/t/subdirectory/.git", Kind::Directory),
            ("/t/subdirectory/sub_subdirectory", Kind::Directory),
            ("/t/subdirectory/sub_subdirectory/.git", Kind::Directory),
        ],
        &[],
    );
    assert_eq!(repositories.len(), 2);
    assert!(repositories.contains(&p("/t/subdirectory/sub_subdirectory")));
    assert!(repositories.contains(&p("/t/subdirectory")));
}

#[test]
fn git_test_ignored_repositories() {
    let repositories = find_repositories(
        &[
            ("/t", Kind::Directory),
            ("/t/subdirectory", Kind::Directory),
            ("/t/subdirectory/.git", Kind::Directory),
            ("/t/subdirectory/ignored", Kind::Directory),
            ("/t/subdirectory/ignored/.git", Kind::Directory),
        ],
        &["/t/subdirectory/ignored"],
    );
    assert_eq!(repositories.len(), 1);
    assert_eq!(repositories[0], p("/t/subdirectory"));
}

#[test]
fn find_repositories_test_ignored_repositories() {
    let repositories = find_repositories(
        &[
            ("/t", Kind::Directory),
            ("/t/subdirectory", Kind::Directory),
            ("/t/subdirectory/.git", Kind::Directory),
            ("/t/subdirectory/ignored", Kind::Directory),
            ("/t/subdirectory/ignored/.git", Kind::Directory),
        ],
        &["/t/subdirectory/ignored"],
    );
    assert_eq!(repositories.len(), 1);
    assert_eq!(repositories[0], p("/t/subdirectory"));
}

#[test]
fn test_worktree() {
    let repositories = find_repositories(
        &[
            ("/t", Kind::Directory),
            ("/t/worktree", Kind::Directory),
            ("/t/worktree/.git", Kind::File),
        ],
        &[],
    );
    assert_eq!(repositories.len(), 1);
    assert_eq!(repositories[0], p("/t/worktree"));
}

#[test]
fn other_entries_reveal_nothing() {
    let none = PathSet::new();
    assert!(visit_entry(&p("/t/.git"), Kind::Other, &none).repository.is_none());
    assert!(visit_entry(&p("/t/.gitignore"), Kind::File, &none).repository.is_none());
    let mut ignored = PathSet::new();
    ignored.insert(p("/t/.git"));
    let visit = visit_entry(&p("/t/.git"), Kind::File, &ignored);
    assert_eq!(Some(p("/t")), visit.repository);
    let visit = visit_entry(&p("/t/.git"), Kind::Directory, &ignored);
    assert_eq!(Walk::Skip, visit.walk);
    assert!(visit.repository.is_none());
}

#[test]
fn test_find_parent_repository_success() {
    let all = found(&[("/t/repository/.git", Kind::Directory)]);
    let repository_path = p("/t/repository");

    assert_eq!(
        find_parent_repository(&p("/t/repository/suddir"), &all).as_ref(),
        Some(&repository_path)
    );
    assert_eq!(
        find_parent_repository(&p("/t/repository/suddir/suddir"), &all).as_ref(),
        Some(&repository_path)
    );
    assert_eq!(find_parent_repository(&p("/t/not_a_repo/sub"), &all), None);
}

#[test]
fn test_find_parent_repository_worktree() {
    let all = found(&[("/t/worktree/.git", Kind::File)]);

    assert_eq!(
        find_parent_repository(&p("/t/worktree/subdir"), &all).as_ref(),
        Some(&p("/t/worktree"))
    );
}

#[test]
fn the_nearest_repository_is_the_parent() {
    let all = found(&[("/t/.git", Kind::Directory), ("/t/a/.git", Kind::File)]);
    assert_eq!(Some(p("/t/a")), find_parent_repository(&p("/t/a/b/c"), &all));
    assert_eq!(Some(p("/t")), find_parent_repository(&p("/t/x"), &all));
    assert_eq!(Some(p("/t/a")), find_parent_repository(&p("/t/a"), &all));
}

#[test]
fn every_directory_from_the_path_up_is_looked_at() {
    let markers: Vec<String> = repository_markers(&p("/t/a/b")).iter().map(text).collect();
    assert_eq!(vec!["/t/a/b/.git", "/t/a/.git", "/t/.git", "/.git"], markers);
}

#[test]
fn test_find_ignored_files_not_a_git_repository() {
    let said = LsFiles::Failed(
        p("/t"),
        b"fatal: not a git repository (or any of the parent directories): .git\n".to_vec(),
    );
    let ignored = find_ignored_files(&said);
    assert!(ignored.files.is_empty());
    assert_eq!(
        Some(
            "Failed to find ignored file in repository '/t': fatal: not a git repository (or \
             any of the parent directories): .git\n"
                .to_string()
        ),
        ignored.warning
    );
}

#[test]
fn test_find_ignored_files_path_does_not_exist() {
    assert!(find_ignored_files(&LsFiles::NoDirectory).files.is_empty());
}

#[test]
fn ignored_files_are_joined_with_the_directory() {
    let said = LsFiles::Listed(p("/r"), b"a\0big_dir/\0\0b\xff\0c d\0".to_vec());
    let ignored = find_ignored_files(&said);
    let names: Vec<String> = ignored.files.iter().map(text).collect();
    assert_eq!(vec!["/r/a", "/r/big_dir/", "/r/c d"], names);
    assert_eq!(None, ignored.warning);
}

#[test]
fn a_path_that_git_left_out_is_not_ignored() {
    let paths = vec![p("/r/a"), p("/r/b")];
    assert!(!contains_not_ignored_path(&paths, &Some(b"/r/a\0/r/b\0".to_vec())));
    assert!(contains_not_ignored_path(&paths, &Some(b"/r/b\0".to_vec())));
    assert!(contains_not_ignored_path(&paths, &None));
    assert!(!contains_not_ignored_path(&vec![], &None));
}

#[test]
fn test_get_global_git_ignore_ignores_repository_local_config() {
    let excludes_path = p("/t/repository/local_excludes");
    let all = found(&[("/t/repository/local_excludes", Kind::File)]);
    let arguments: Vec<String> = global_gitignore_arguments().iter().map(text).collect();
    assert_eq!(
        vec!["-c", "core.fsmonitor=", "config", "--global", "--get", "core.excludesFile"],
        arguments
    );
    // Asked for the global setting, git does not answer with the one of the repository.
    let result = get_global_git_ignore(&Vec::new(), &all);

    assert_ne!(Some(excludes_path), result);
}

#[test]
fn the_global_gitignore_is_a_file() {
    let all = found(&[("/home/u/.gitignore", Kind::File), ("/home/u/dir", Kind::Directory)]);
    let answer = b" /home/u/.gitignore\n".to_vec();
    assert_eq!(Some(p("/home/u/.gitignore")), get_global_git_ignore(&answer, &all));
    assert_eq!(None, get_global_git_ignore(&b"/home/u/dir\n".to_vec(), &all));
    assert_eq!(None, get_global_git_ignore(&b"/home/u/missing\n".to_vec(), &all));
    assert_eq!(None, get_global_git_ignore(&b"\n".to_vec(), &all));
    assert_eq!(None, get_global_git_ignore(&vec![47, 255], &all));
    assert_eq!(Some(p("/x")), named_global_git_ignore(&b"/x\n".to_vec()));
}

#[test]
fn git_runs_no_program_that_a_repository_names() {
    let arguments: Vec<String> = ls_files_arguments(&p("/r")).iter().map(text).collect();
    assert_eq!(
        vec![
            "-c",
            "core.fsmonitor=",
            "-C",
            "/r",
            "ls-files",
            "--directory",
            "--exclude-standard",
            "--ignored",
            "--others",
            "-z"
        ],
        arguments
    );
    let arguments: Vec<String> = check_ignore_arguments(&p("/r")).iter().map(text).collect();
    assert_eq!(
        vec!["-c", "core.fsmonitor=", "-C", "/r", "check-ignore", "--stdin", "-z"],
        arguments
    );
}
