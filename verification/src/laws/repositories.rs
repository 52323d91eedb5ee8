//! Laws of repositories and of what git says of them.
use vstd::prelude::*;
use vstd::utf8;

use crate::facts;
use crate::facts::Kind;
use crate::git;
use crate::laws::paths;
use crate::laws::texts;
use crate::path;
use crate::text;

verus! {

/// The names, each with a zero byte behind it.
pub open spec fn zero_terminated(names: Seq<Seq<u8>>) -> Seq<u8>
    decreases names.len(),
{
    if names.len() == 0 {
        Seq::empty()
    } else {
        zero_terminated(names.drop_last()) + names.last().push(0u8)
    }
}

/// None of the names has a zero byte.
pub open spec fn are_free_of_zeros(names: Seq<Seq<u8>>) -> bool {
    forall|i: int| 0 <= i < names.len() ==> !(#[trigger] names[i]).contains(0u8)
}

/// Bytes without a zero are one piece, and a zero parts the pieces before it from those behind.
pub proof fn zeros_part(a: Seq<u8>, b: Seq<u8>)
    ensures
        !a.contains(0u8) ==> git::zero_separated(a) == seq![a],
        git::zero_separated(a + seq![0u8] + b) == git::zero_separated(a) + git::zero_separated(b),
    decreases a.len() + b.len(),
{
    pieces_are_some(a);
    if !a.contains(0u8) {
        one_piece(a);
    }
    let all = a + seq![0u8] + b;
    if b.len() == 0 {
        assert(all =~= a.push(0u8));
        assert(all.drop_last() =~= a);
        assert(b =~= Seq::<u8>::empty());
        assert(git::zero_separated(b) =~= seq![Seq::<u8>::empty()]);
        assert(git::zero_separated(all) =~= git::zero_separated(a) + git::zero_separated(b));
    } else {
        let init = b.drop_last();
        zeros_part(a, init);
        pieces_are_some(init);
        assert(all.drop_last() =~= a + seq![0u8] + init);
        assert(all.last() == b.last());
        let x = git::zero_separated(a);
        let y = git::zero_separated(init);
        assert((x + y).last() == y.last());
        assert((x + y).drop_last() =~= x + y.drop_last());
        assert(git::zero_separated(all) =~= x + git::zero_separated(b));
    }
}

proof fn pieces_are_some(a: Seq<u8>)
    ensures
        git::zero_separated(a).len() > 0,
    decreases a.len(),
{
    if a.len() > 0 {
        pieces_are_some(a.drop_last());
    }
}

proof fn one_piece(a: Seq<u8>)
    requires
        !a.contains(0u8),
    ensures
        git::zero_separated(a) == seq![a],
    decreases a.len(),
{
    if a.len() > 0 {
        let init = a.drop_last();
        assert(a[a.len() - 1] == a.last());
        assert(a.contains(a.last()));
        assert(!init.contains(0u8)) by {
            if init.contains(0u8) {
                let i = choose|i: int| 0 <= i < init.len() && init[i] == 0u8;
                assert(a[i] == 0u8);
            }
        }
        one_piece(init);
        assert(init.push(a.last()) =~= a);
        assert(git::zero_separated(a) =~= seq![a]);
    } else {
        assert(a =~= Seq::<u8>::empty());
    }
}

proof fn terminated_pieces(names: Seq<Seq<u8>>)
    requires
        are_free_of_zeros(names),
    ensures
        git::zero_separated(zero_terminated(names)) == names.push(Seq::empty()),
    decreases names.len(),
{
    if names.len() > 0 {
        let init = names.drop_last();
        let last = names.last();
        assert(names[names.len() - 1] == last);
        assert forall|i: int| 0 <= i < init.len() implies !(#[trigger] init[i]).contains(0u8) by {
            assert(names[i] == init[i]);
        }
        terminated_pieces(init);
        let written = zero_terminated(init);
        let none = Seq::<u8>::empty();
        if init.len() == 0 {
            assert(written =~= none);
            assert(zero_terminated(names) =~= last + seq![0u8] + none);
            zeros_part(last, none);
            assert(git::zero_separated(none) =~= seq![none]);
        } else {
            let before = init.drop_last();
            assert(written =~= zero_terminated(before) + init.last() + seq![0u8] + none);
            zeros_part(zero_terminated(before) + init.last(), none);
            let x = git::zero_separated(zero_terminated(before) + init.last());
            assert(git::zero_separated(none) =~= seq![none]);
            assert(x.push(none) =~= x + seq![none]);
            assert(x =~= init) by {
                assert(x.push(none) == init.push(none));
                assert(x.push(none).drop_last() =~= x);
                assert(init.push(none).drop_last() =~= init);
            }
            assert(zero_terminated(names) =~= (zero_terminated(before) + init.last()) + seq![0u8]
                + (last + seq![0u8] + none));
            zeros_part(zero_terminated(before) + init.last(), last + seq![0u8] + none);
            zeros_part(last, none);
            assert(git::zero_separated(last + seq![0u8] + none) =~= seq![last, none]);
        }
        assert(git::zero_separated(zero_terminated(names)) =~= names.push(none));
    } else {
        assert(zero_terminated(names) =~= Seq::<u8>::empty());
        assert(git::zero_separated(zero_terminated(names)) =~= names.push(Seq::empty()));
    }
}

/// The files in two lists, one behind the other, are those in the first and then those in the
/// second.
pub proof fn names_of_parts(directory: Seq<u8>, x: Seq<Seq<u8>>, y: Seq<Seq<u8>>)
    ensures
        git::names_in(directory, x + y) == git::names_in(directory, x) + git::names_in(
            directory,
            y,
        ),
    decreases y.len(),
{
    if y.len() == 0 {
        assert(x + y =~= x);
        assert(git::names_in(directory, x) + git::names_in(directory, y) =~= git::names_in(
            directory,
            x,
        ));
    } else {
        names_of_parts(directory, x, y.drop_last());
        assert((x + y).drop_last() =~= x + y.drop_last());
        assert(git::names_in(directory, x + y) =~= git::names_in(directory, x) + git::names_in(
            directory,
            y,
        ));
    }
}

/// What git wrote of some names, each with a zero byte behind it, are just these files in the
/// directory, in the same order.
pub proof fn every_listed_name_is_found(directory: Seq<u8>, names: Seq<Seq<u8>>)
    requires
        are_free_of_zeros(names),
        forall|i: int|
            0 <= i < names.len() ==> (#[trigger] names[i]).len() > 0 && utf8::valid_utf8(names[i]),
    ensures
        git::names_in(directory, git::zero_separated(zero_terminated(names)))
            == names.map_values(|name: Seq<u8>| path::path_join(directory, name)),
{
    terminated_pieces(names);
    let none = Seq::<u8>::empty();
    assert(names.push(none).drop_last() =~= names);
    assert(git::names_in(directory, names.push(none)) == git::names_in(directory, names));
    names_one_by_one(directory, names);
}

proof fn names_one_by_one(directory: Seq<u8>, names: Seq<Seq<u8>>)
    requires
        forall|i: int|
            0 <= i < names.len() ==> (#[trigger] names[i]).len() > 0 && utf8::valid_utf8(names[i]),
    ensures
        git::names_in(directory, names) == names.map_values(
            |name: Seq<u8>| path::path_join(directory, name),
        ),
    decreases names.len(),
{
    let all = names.map_values(|name: Seq<u8>| path::path_join(directory, name));
    if names.len() > 0 {
        let init = names.drop_last();
        assert(names[names.len() - 1] == names.last());
        assert forall|i: int| 0 <= i < init.len() implies (#[trigger] init[i]).len() > 0
            && utf8::valid_utf8(init[i]) by {
            assert(names[i] == init[i]);
        }
        names_one_by_one(directory, init);
    }
    assert(git::names_in(directory, names) =~= all);
}

/// A file is found if and only if it is in the directory under a name that git wrote; a name is a
/// piece of what git wrote that is not empty and that is a text.
pub proof fn found_files_are_listed(directory: Seq<u8>, pieces: Seq<Seq<u8>>, file: Seq<u8>)
    ensures
        git::names_in(directory, pieces).contains(file) <==> exists|i: int|
            0 <= i < pieces.len() && (#[trigger] pieces[i]).len() > 0 && utf8::valid_utf8(pieces[i])
                && file == path::path_join(directory, pieces[i]),
    decreases pieces.len(),
{
    let all = git::names_in(directory, pieces);
    if pieces.len() > 0 {
        let init = pieces.drop_last();
        let last = pieces.last();
        let some = git::names_in(directory, init);
        found_files_are_listed(directory, init, file);
        vstd::seq_lib::lemma_seq_contains_after_push(
            some,
            path::path_join(directory, last),
            file,
        );
        if some.contains(file) {
            let i = choose|i: int|
                0 <= i < init.len() && (#[trigger] init[i]).len() > 0 && utf8::valid_utf8(init[i])
                    && file == path::path_join(directory, init[i]);
            assert(pieces[i] == init[i]);
        }
        if all.contains(file) && !some.contains(file) {
            assert(pieces[pieces.len() - 1] == last);
        }
        if exists|i: int|
            0 <= i < pieces.len() && (#[trigger] pieces[i]).len() > 0 && utf8::valid_utf8(pieces[i])
                && file == path::path_join(directory, pieces[i]) {
            let i = choose|i: int|
                0 <= i < pieces.len() && (#[trigger] pieces[i]).len() > 0 && utf8::valid_utf8(
                    pieces[i],
                ) && file == path::path_join(directory, pieces[i]);
            if i < init.len() {
                assert(init[i] == pieces[i]);
            }
        }
    }
}

/// Git says that it ignores a path if and only if it wrote the path; where it wrote nothing, it
/// says so of none.
pub proof fn written_paths_are_ignored(answer: Vec<u8>, ignored: Seq<Seq<u8>>, path: Seq<u8>)
    requires
        are_free_of_zeros(ignored),
        answer@ == zero_terminated(ignored),
        path.len() > 0,
    ensures
        git::says_ignored(Some(answer), path) <==> ignored.contains(path),
        !git::says_ignored(None, path),
{
    terminated_pieces(ignored);
    vstd::seq_lib::lemma_seq_contains_after_push(ignored, Seq::<u8>::empty(), path);
}

/// The bytes of `.git`.
pub open spec fn git_name() -> Seq<u8> {
    seq![46u8, 103u8, 105u8, 116u8]
}

proof fn git_name_is_a_name()
    ensures
        paths::is_name(git_name()),
        git_name() != seq![46u8, 46u8],
{
    let name = git_name();
    assert(!name.contains(47u8)) by {
        if name.contains(47u8) {
            let i = choose|i: int| 0 <= i < name.len() && name[i] == 47u8;
            assert(name[0] == 46u8 && name[1] == 103u8 && name[2] == 105u8 && name[3] == 116u8);
        }
    }
    assert(name.len() == 4 && seq![46u8].len() == 1 && seq![46u8, 46u8].len() == 2);
}

/// A directory is marked as a repository by `.git` in it.
pub proof fn marker_is_in_the_directory(directory: Seq<u8>)
    ensures
        git::marker(directory) == path::path_join(directory, git_name()),
        path::components(git::marker(directory)) == path::components(directory).push(git_name()),
{
    git_name_is_a_name();
    paths::joined_name(directory, git_name());
}

/// The repository of a path is the path itself if there is a `.git` in it, and else that of the
/// directory that holds it.
pub proof fn repository_of_a_name(
    found: Seq<(Seq<u8>, Kind)>,
    directory: Seq<u8>,
    name: Seq<u8>,
)
    requires
        paths::is_plain(directory),
        paths::is_name(name),
    ensures
        ({
            let whole = path::path_join(directory, name);
            git::parent_repository(found, whole) == (if facts::kind_at(
                found,
                path::path_join(whole, git_name()),
            ) != Kind::Missing {
                Some(whole)
            } else {
                git::parent_repository(found, directory)
            })
        }),
        facts::kind_at(found, path::path_join(directory, git_name())) != Kind::Missing
            ==> git::parent_repository(found, directory) == Some(directory),
{
    paths::parent_of_a_name(directory, name);
    marker_is_in_the_directory(path::path_join(directory, name));
    marker_is_in_the_directory(directory);
}

/// The directories that are looked at for `.git` are the path and all those above it.
pub proof fn markers_of_a_name(directory: Seq<u8>, name: Seq<u8>)
    requires
        paths::is_plain(directory),
        paths::is_name(name),
    ensures
        git::markers_from(path::path_join(directory, name)) == seq![
            path::path_join(path::path_join(directory, name), git_name()),
        ] + git::markers_from(directory),
{
    let whole = path::path_join(directory, name);
    paths::ancestors_of_a_name(directory, name);
    marker_is_in_the_directory(whole);
    assert(git::markers_from(whole) =~= seq![path::path_join(whole, git_name())]
        + git::markers_from(directory));
}

/// A walk goes on below every entry but the directories that are to be ignored, in any spelling.
pub proof fn only_ignored_directories_are_skipped(
    entry: Seq<u8>,
    kind: Kind,
    ignored: Seq<Seq<u8>>,
)
    ensures
        git::is_skipped(entry, kind, ignored) <==> kind == Kind::Directory && exists|i: int|
            0 <= i < ignored.len() && path::components(#[trigger] ignored[i]) == path::components(
                entry,
            ),
{
}

/// A `.git` that is a file or a directory reveals the directory that holds it, unless it is itself
/// a directory that is to be ignored; nothing else reveals a repository.
pub proof fn git_reveals_its_directory(directory: Seq<u8>, kind: Kind, ignored: Seq<Seq<u8>>)
    requires
        paths::is_plain(directory),
    ensures
        ({
            let entry = path::path_join(directory, git_name());
            let is_ignored = exists|i: int|
                0 <= i < ignored.len() && path::components(#[trigger] ignored[i])
                    == path::components(directory).push(git_name());
            git::visited_repository(entry, kind, ignored) == (if kind == Kind::File || kind
                == Kind::Directory && !is_ignored {
                Some(directory)
            } else {
                None
            })
        }),
{
    let entry = path::path_join(directory, git_name());
    git_name_is_a_name();
    paths::joined_name(directory, git_name());
    paths::parent_of_a_name(directory, git_name());
    paths::file_name_of_a_name(directory, git_name());
    only_ignored_directories_are_skipped(entry, kind, ignored);
}

/// An entry whose last component is not `.git` reveals no repository.
pub proof fn only_git_reveals(entry: Seq<u8>, kind: Kind, ignored: Seq<Seq<u8>>)
    requires
        git::visited_repository(entry, kind, ignored) is Some,
    ensures
        path::components(entry).len() > 0,
        path::components(entry).last() == git_name(),
        path::components(git::visited_repository(entry, kind, ignored)->0) == path::components(
            entry,
        ).drop_last(),
        kind == Kind::File || kind == Kind::Directory,
{
    paths::file_name_is_the_last_component(entry);
    paths::parent_by_components(entry);
}

/// The file with the patterns that git ignores everywhere is the one that git names, whatever
/// blanks and ends of lines stand around the name, where a file stands there. An answer of blanks
/// names none.
pub proof fn global_gitignore_is_named(
    a: Seq<char>,
    name: Seq<char>,
    b: Seq<char>,
    found: Seq<(Seq<u8>, Kind)>,
)
    requires
        texts::is_blank(a),
        texts::is_blank(b),
        texts::has_visible_ends(name),
    ensures
        git::global_gitignore(utf8::encode_utf8(a + name + b), found) == (if facts::kind_at(
            found,
            utf8::encode_utf8(name),
        ) == Kind::File {
            Some(utf8::encode_utf8(name))
        } else {
            None
        }),
        git::global_gitignore(utf8::encode_utf8(a), found) is None,
{
    texts::blanks_are_trimmed(a, name, b);
    let none = Seq::<char>::empty();
    texts::blanks_are_trimmed(a, none, none);
    assert(a + none + none =~= a);
    utf8::encode_utf8_valid_utf8(a + name + b);
    utf8::encode_utf8_decode_utf8(a + name + b);
    utf8::encode_utf8_valid_utf8(a);
    utf8::encode_utf8_decode_utf8(a);
    assert(text::trimmed(a + name + b) == name);
    assert(text::trimmed(a) == none);
}

/// The command that lists what git ignores is run in the directory, and asks for the ignored
/// files that git does not track, whole directories as one, by the standard patterns, with zero
/// bytes behind the names.
pub proof fn ls_files_asks_for_ignored_files(directory: Seq<u8>)
    ensures
        git::ls_files_command(directory) == seq![
            utf8::encode_utf8("-c"@),
            utf8::encode_utf8("core.fsmonitor="@),
            utf8::encode_utf8("-C"@),
            directory,
            utf8::encode_utf8("ls-files"@),
            utf8::encode_utf8("--directory"@),
            utf8::encode_utf8("--exclude-standard"@),
            utf8::encode_utf8("--ignored"@),
            utf8::encode_utf8("--others"@),
            utf8::encode_utf8("-z"@),
        ],
{
    assert(git::ls_files_command(directory) =~= seq![
        utf8::encode_utf8("-c"@),
        utf8::encode_utf8("core.fsmonitor="@),
        utf8::encode_utf8("-C"@),
        directory,
        utf8::encode_utf8("ls-files"@),
        utf8::encode_utf8("--directory"@),
        utf8::encode_utf8("--exclude-standard"@),
        utf8::encode_utf8("--ignored"@),
        utf8::encode_utf8("--others"@),
        utf8::encode_utf8("-z"@),
    ]);
}

/// The command that tells which paths git ignores is run in the directory, reads the paths, and
/// takes and writes zero bytes behind them; the one that names the file with the patterns for
/// everywhere asks for the settings of the user alone.
pub proof fn git_is_asked_in_the_directory(directory: Seq<u8>)
    ensures
        git::check_ignore_command(directory) == seq![
            utf8::encode_utf8("-c"@),
            utf8::encode_utf8("core.fsmonitor="@),
            utf8::encode_utf8("-C"@),
            directory,
            utf8::encode_utf8("check-ignore"@),
            utf8::encode_utf8("--stdin"@),
            utf8::encode_utf8("-z"@),
        ],
        git::global_gitignore_command() == seq![
            utf8::encode_utf8("-c"@),
            utf8::encode_utf8("core.fsmonitor="@),
            utf8::encode_utf8("config"@),
            utf8::encode_utf8("--global"@),
            utf8::encode_utf8("--get"@),
            utf8::encode_utf8("core.excludesFile"@),
        ],
{
    assert(git::check_ignore_command(directory) =~= seq![
        utf8::encode_utf8("-c"@),
        utf8::encode_utf8("core.fsmonitor="@),
        utf8::encode_utf8("-C"@),
        directory,
        utf8::encode_utf8("check-ignore"@),
        utf8::encode_utf8("--stdin"@),
        utf8::encode_utf8("-z"@),
    ]);
    assert(git::global_gitignore_command() =~= seq![
        utf8::encode_utf8("-c"@),
        utf8::encode_utf8("core.fsmonitor="@),
        utf8::encode_utf8("config"@),
        utf8::encode_utf8("--global"@),
        utf8::encode_utf8("--get"@),
        utf8::encode_utf8("core.excludesFile"@),
    ]);
}

} // verus!
