//! Laws of the configuration.
use vstd::prelude::*;
use vstd::utf8;

use crate::config;
use crate::config::{ConfigView, ValidationFailView};
use crate::diff;
use crate::duration;
use crate::facts;
use crate::facts::Kind;
use crate::human_time;
use crate::import;
use crate::laws::exclusions;
use crate::path;
use crate::path::FilePath;
use crate::shell;
use crate::shell::EnvironmentView;
use crate::sorted_set;

verus! {

/// The faults of two lists of directories to scan, one behind the other, are those of the first and
/// then those of the second. A directory has none; a file is told, and so is everything else as not
/// found.
pub proof fn faults_of_search_directories(
    found: Seq<(Seq<u8>, Kind)>,
    x: Seq<Seq<u8>>,
    y: Seq<Seq<u8>>,
    p: Seq<u8>,
)
    ensures
        config::search_fails(found, x + y) == config::search_fails(found, x) + config::search_fails(
            found,
            y,
        ),
        facts::kind_at(found, p) == Kind::Directory ==> config::search_fails(found, seq![p]).len()
            == 0,
        facts::kind_at(found, p) == Kind::File ==> config::search_fails(found, seq![p]) == seq![
            ValidationFailView::FileInSearchPaths(p),
        ],
        facts::kind_at(found, p) == Kind::Missing || facts::kind_at(found, p) == Kind::Other
            ==> config::search_fails(found, seq![p]) == seq![ValidationFailView::NotFound(p)],
    decreases y.len(),
{
    reveal_with_fuel(config::search_fails, 2);
    let none = Seq::<ValidationFailView>::empty();
    assert(seq![p].drop_last() =~= Seq::<Seq<u8>>::empty());
    assert(none.push(ValidationFailView::FileInSearchPaths(p)) =~= seq![
        ValidationFailView::FileInSearchPaths(p),
    ]);
    assert(none.push(ValidationFailView::NotFound(p)) =~= seq![ValidationFailView::NotFound(p)]);
    let a = config::search_fails(found, x);
    if y.len() == 0 {
        assert(x + y =~= x);
        assert(a + config::search_fails(found, y) =~= a);
    } else {
        faults_of_search_directories(found, x, y.drop_last(), p);
        assert((x + y).drop_last() =~= x + y.drop_last());
        assert(config::search_fails(found, x + y) =~= a + config::search_fails(found, y));
    }
}

/// The faults of two lists of directories to ignore, one behind the other, are those of the first
/// and then those of the second. Only a file is a fault there.
pub proof fn faults_of_ignored_directories(
    found: Seq<(Seq<u8>, Kind)>,
    x: Seq<Seq<u8>>,
    y: Seq<Seq<u8>>,
    p: Seq<u8>,
)
    ensures
        config::ignored_fails(found, x + y) == config::ignored_fails(found, x)
            + config::ignored_fails(found, y),
        facts::kind_at(found, p) != Kind::File ==> config::ignored_fails(found, seq![p]).len() == 0,
        facts::kind_at(found, p) == Kind::File ==> config::ignored_fails(found, seq![p]) == seq![
            ValidationFailView::FileInIgnoredDirectories(p),
        ],
    decreases y.len(),
{
    reveal_with_fuel(config::ignored_fails, 2);
    let none = Seq::<ValidationFailView>::empty();
    assert(seq![p].drop_last() =~= Seq::<Seq<u8>>::empty());
    assert(none.push(ValidationFailView::FileInIgnoredDirectories(p)) =~= seq![
        ValidationFailView::FileInIgnoredDirectories(p),
    ]);
    let a = config::ignored_fails(found, x);
    if y.len() == 0 {
        assert(x + y =~= x);
        assert(a + config::ignored_fails(found, y) =~= a);
    } else {
        faults_of_ignored_directories(found, x, y.drop_last(), p);
        assert((x + y).drop_last() =~= x + y.drop_last());
        assert(config::ignored_fails(found, x + y) =~= a + config::ignored_fails(found, y));
    }
}

/// A configuration is valid if and only if it has directories to scan, at each of them a directory
/// was found, and at none of those to ignore a file was. Without directories to scan, that is the
/// last fault.
pub proof fn valid_configurations(found: Seq<(Seq<u8>, Kind)>, configuration: ConfigView)
    ensures
        config::validation_fails(found, configuration).len() == 0 <==> {
            &&& configuration.search_directories.len() > 0
            &&& forall|p: Seq<u8>| #[trigger]
                configuration.search_directories.contains(p) ==> facts::kind_at(found, p)
                    == Kind::Directory
            &&& forall|p: Seq<u8>| #[trigger]
                configuration.ignored_directories.contains(p) ==> facts::kind_at(found, p)
                    != Kind::File
        },
        configuration.search_directories.len() == 0 ==> config::validation_fails(
            found,
            configuration,
        ) == config::ignored_fails(found, configuration.ignored_directories).push(
            ValidationFailView::NoSearchDirectories,
        ),
        configuration.search_directories.len() > 0 ==> config::validation_fails(
            found,
            configuration,
        ) == config::search_fails(found, configuration.search_directories) + config::ignored_fails(
            found,
            configuration.ignored_directories,
        ),
{
    config::valid_config_has_directories(found, configuration);
    let search = configuration.search_directories;
    let ignored = configuration.ignored_directories;
    let fails = config::validation_fails(found, configuration);
    if fails.len() == 0 {
        assert forall|p: Seq<u8>| #[trigger] search.contains(p) implies facts::kind_at(found, p)
            == Kind::Directory by {
            let i = choose|i: int| 0 <= i < search.len() && search[i] == p;
            assert(facts::kind_at(found, search[i]) == Kind::Directory);
        }
        assert forall|p: Seq<u8>| #[trigger] ignored.contains(p) implies facts::kind_at(found, p)
            != Kind::File by {
            let i = choose|i: int| 0 <= i < ignored.len() && ignored[i] == p;
            assert(facts::kind_at(found, ignored[i]) != Kind::File);
        }
    }
    if search.len() > 0 && (forall|p: Seq<u8>| #[trigger]
        search.contains(p) ==> facts::kind_at(found, p) == Kind::Directory) && (forall|
        p: Seq<u8>,
    | #[trigger]
        ignored.contains(p) ==> facts::kind_at(found, p) != Kind::File) {
        assert forall|i: int| 0 <= i < search.len() implies facts::kind_at(
            found,
            #[trigger] search[i],
        ) == Kind::Directory by {
            assert(search.contains(search[i]));
        }
        assert forall|i: int| 0 <= i < ignored.len() implies facts::kind_at(
            found,
            #[trigger] ignored[i],
        ) != Kind::File by {
            assert(ignored.contains(ignored[i]));
        }
    }
    let b = config::ignored_fails(found, ignored);
    if search.len() == 0 {
        assert(config::search_fails(found, search) =~= Seq::<ValidationFailView>::empty());
        assert(fails =~= b.push(ValidationFailView::NoSearchDirectories));
    } else {
        assert(fails =~= config::search_fails(found, search) + b);
    }
}

/// The lines for two lists of faults, one behind the other, are those for the first and then those
/// for the second; each fault has a line.
pub proof fn every_fault_has_a_line(
    x: Seq<ValidationFailView>,
    y: Seq<ValidationFailView>,
    fail: ValidationFailView,
)
    ensures
        config::fail_lines(x + y) == config::fail_lines(x) + config::fail_lines(y),
        config::fail_lines(seq![fail]) == " - "@ + config::fail_text(fail) + "\n"@,
    decreases y.len(),
{
    reveal_with_fuel(config::fail_lines, 2);
    assert(seq![fail].drop_last() =~= Seq::<ValidationFailView>::empty());
    assert(config::fail_lines(seq![fail]) =~= " - "@ + config::fail_text(fail) + "\n"@);
    let a = config::fail_lines(x);
    if y.len() == 0 {
        assert(x + y =~= x);
        assert(a + config::fail_lines(y) =~= a);
    } else {
        every_fault_has_a_line(x, y.drop_last(), fail);
        assert((x + y).drop_last() =~= x + y.drop_last());
        assert(config::fail_lines(x + y) =~= a + config::fail_lines(y));
    }
}

/// What comes of two lists of directories, one behind the other, is what comes of the first and
/// then what comes of the second; a directory of which nothing comes is left out.
pub proof fn expansions_in_parts(
    x: Seq<Option<Seq<char>>>,
    y: Seq<Option<Seq<char>>>,
    text: Seq<char>,
)
    ensures
        config::expansions(x + y) == config::expansions(x) + config::expansions(y),
        config::expansions(seq![Some(text)]) == seq![utf8::encode_utf8(text)],
        config::expansions(seq![None::<Seq<char>>]).len() == 0,
    decreases y.len(),
{
    reveal_with_fuel(config::expansions, 2);
    assert(seq![Some(text)].drop_last() =~= Seq::<Option<Seq<char>>>::empty());
    assert(seq![None::<Seq<char>>].drop_last() =~= Seq::<Option<Seq<char>>>::empty());
    assert(config::expansions(seq![Some(text)]) =~= seq![utf8::encode_utf8(text)]);
    let a = config::expansions(x);
    if y.len() == 0 {
        assert(x + y =~= x);
        assert(a + config::expansions(y) =~= a);
    } else {
        expansions_in_parts(x, y.drop_last(), text);
        assert((x + y).drop_last() =~= x + y.drop_last());
        assert(config::expansions(x + y) =~= a + config::expansions(y));
    }
}

proof fn expansions_have(expanded: Seq<Option<Seq<char>>>, i: int, text: Seq<char>)
    requires
        0 <= i < expanded.len(),
        expanded[i] == Some(text),
    ensures
        config::expansions(expanded).contains(utf8::encode_utf8(text)),
{
    let x = expanded.take(i);
    let y = expanded.skip(i + 1);
    assert(expanded =~= x + (seq![Some(text)] + y));
    expansions_in_parts(x, seq![Some(text)] + y, text);
    expansions_in_parts(seq![Some(text)], y, text);
    let all = config::expansions(expanded);
    assert(all[config::expansions(x).len() as int] == utf8::encode_utf8(text));
}

/// Every directory to scan comes out of the expansion: `~` and what begins with `~/` with the home
/// directory in place of `~`, and what has no `~` at its beginning and no `$` as it is. The other
/// settings stay.
pub proof fn directories_come_out(
    before: ConfigView,
    environment: EnvironmentView,
    after: ConfigView,
    i: int,
    rest: Seq<char>,
)
    requires
        config::is_expanded_in(before, environment, after),
        0 <= i < before.search_directories.len(),
        !rest.contains('$'),
        rest.len() > 0 ==> rest[0] == '/',
    ensures
        before.search_directories[i] == utf8::encode_utf8(seq!['~'] + rest) ==> diff::lists(
            after.search_directories,
            path::components(utf8::encode_utf8(environment.home + rest)),
        ),
        before.search_directories[i] == utf8::encode_utf8(rest) ==> diff::lists(
            after.search_directories,
            path::components(before.search_directories[i]),
        ),
        after.whitelist_patterns == before.whitelist_patterns,
        after.threads == before.threads,
        after.debounce_duration == before.debounce_duration,
{
    let (search, ignored) = choose|
        search: Seq<Option<Seq<char>>>,
        ignored: Seq<Option<Seq<char>>>,
    | #[trigger]
        config::can_expand_all(before.search_directories, environment, search) && #[trigger]
            config::can_expand_all(before.ignored_directories, environment, ignored) && after
            == config::with_directories(
            before,
            config::expanded_set(search),
            config::expanded_set(ignored),
        );
    let p = before.search_directories[i];
    assert(config::can_expand_to(p, environment, search[i]));
    let home_text = seq!['~'] + rest;
    let all = config::expansions(search);
    sorted_set::extended_laws::<FilePath>(Seq::empty(), all);
    if p == utf8::encode_utf8(home_text) {
        utf8::encode_utf8_valid_utf8(home_text);
        utf8::encode_utf8_decode_utf8(home_text);
        assert(!home_text.contains('$')) by {
            if home_text.contains('$') {
                let j = choose|j: int| 0 <= j < home_text.len() && home_text[j] == '$';
                assert(rest[j - 1] == '$');
            }
        }
        assert(home_text.skip(1) =~= rest);
        if rest.len() > 0 {
            assert(home_text[1] == rest[0]);
        }
        expansions_have(search, i, environment.home + rest);
        let k = path::components(utf8::encode_utf8(environment.home + rest));
        exclusions::listed_by_components(all, k);
        assert(sorted_set::has_key::<FilePath>(after.search_directories, k));
    }
    if p == utf8::encode_utf8(rest) {
        utf8::encode_utf8_valid_utf8(rest);
        utf8::encode_utf8_decode_utf8(rest);
        expansions_have(search, i, rest);
        exclusions::listed_by_components(all, path::components(p));
        assert(sorted_set::has_key::<FilePath>(after.search_directories, path::components(p)));
    }
}

/// Nothing comes out of the expansion but what came of one of the directories.
pub proof fn nothing_else_comes_out(
    expanded: Seq<Option<Seq<char>>>,
    k: Seq<Seq<u8>>,
)
    ensures
        diff::lists(config::expanded_set(expanded), k) <==> exists|i: int|
            0 <= i < expanded.len() && (#[trigger] expanded[i]) is Some && path::components(
                utf8::encode_utf8(expanded[i]->0),
            ) == k,
{
    let all = config::expansions(expanded);
    sorted_set::extended_laws::<FilePath>(Seq::empty(), all);
    assert(diff::lists(config::expanded_set(expanded), k) <==> sorted_set::has_key::<FilePath>(
        all,
        k,
    ));
    exclusions::listed_by_components(all, k);
    if exists|i: int|
        0 <= i < expanded.len() && (#[trigger] expanded[i]) is Some && path::components(
            utf8::encode_utf8(expanded[i]->0),
        ) == k {
        let i = choose|i: int|
            0 <= i < expanded.len() && (#[trigger] expanded[i]) is Some && path::components(
                utf8::encode_utf8(expanded[i]->0),
            ) == k;
        expansions_have(expanded, i, expanded[i]->0);
        assert(all.contains(utf8::encode_utf8(expanded[i]->0)));
    }
    if diff::lists(all, k) {
        expansions_come_from(expanded, k);
    }
}

proof fn expansions_come_from(expanded: Seq<Option<Seq<char>>>, k: Seq<Seq<u8>>)
    requires
        diff::lists(config::expansions(expanded), k),
    ensures
        exists|i: int|
            0 <= i < expanded.len() && (#[trigger] expanded[i]) is Some && path::components(
                utf8::encode_utf8(expanded[i]->0),
            ) == k,
    decreases expanded.len(),
{
    let init = expanded.drop_last();
    let last = expanded.last();
    let some = config::expansions(init);
    if let Some(text) = last {
        diff::lists_after_push(some, utf8::encode_utf8(text), k);
    }
    if diff::lists(some, k) {
        expansions_come_from(init, k);
        let i = choose|i: int|
            0 <= i < init.len() && (#[trigger] init[i]) is Some && path::components(
                utf8::encode_utf8(init[i]->0),
            ) == k;
        assert(expanded[i] == init[i]);
    } else {
        assert(expanded[expanded.len() - 1] == last);
    }
}

/// Every directory to ignore comes out of the expansion as the directories to scan do.
pub proof fn ignored_directories_come_out(
    before: ConfigView,
    environment: EnvironmentView,
    after: ConfigView,
    i: int,
    rest: Seq<char>,
)
    requires
        config::is_expanded_in(before, environment, after),
        0 <= i < before.ignored_directories.len(),
        !rest.contains('$'),
        rest.len() > 0 ==> rest[0] == '/',
    ensures
        before.ignored_directories[i] == utf8::encode_utf8(seq!['~'] + rest) ==> diff::lists(
            after.ignored_directories,
            path::components(utf8::encode_utf8(environment.home + rest)),
        ),
        before.ignored_directories[i] == utf8::encode_utf8(rest) ==> diff::lists(
            after.ignored_directories,
            path::components(before.ignored_directories[i]),
        ),
{
    let swapped = config::with_directories(
        before,
        before.ignored_directories,
        before.search_directories,
    );
    let (search, ignored) = choose|
        search: Seq<Option<Seq<char>>>,
        ignored: Seq<Option<Seq<char>>>,
    | #[trigger]
        config::can_expand_all(before.search_directories, environment, search) && #[trigger]
            config::can_expand_all(before.ignored_directories, environment, ignored) && after
            == config::with_directories(
            before,
            config::expanded_set(search),
            config::expanded_set(ignored),
        );
    let swapped_after = config::with_directories(
        before,
        config::expanded_set(ignored),
        config::expanded_set(search),
    );
    assert(swapped_after == config::with_directories(
        swapped,
        config::expanded_set(ignored),
        config::expanded_set(search),
    ));
    assert(config::can_expand_all(swapped.search_directories, environment, ignored));
    assert(config::can_expand_all(swapped.ignored_directories, environment, search));
    assert(config::is_expanded_in(swapped, environment, swapped_after));
    directories_come_out(swapped, environment, swapped_after, i, rest);
}

/// By default the home directory is scanned, four threads scan, and events are held back for two
/// seconds.
pub proof fn default_configuration()
    ensures
        config::default_config().threads == 4,
        config::default_config().debounce_duration == 2_000_000_000,
        config::default_config().search_directories == seq![utf8::encode_utf8("~"@)],
        config::default_config().whitelist_patterns == sorted_set::extended::<String>(
            Seq::empty(),
            seq![
                "*.broguerec"@,
                "*.broguesave"@,
                "*/BrogueHighScores.txt"@,
                "*/BrogueRunHistory.txt"@,
            ],
        ),
{
    let texts = seq!["~"@];
    let paths = texts.map_values(|t: Seq<char>| utf8::encode_utf8(t));
    let p = utf8::encode_utf8("~"@);
    assert(paths =~= seq![p]);
    assert(seq![p].drop_last() =~= Seq::<Seq<u8>>::empty());
    reveal_with_fuel(sorted_set::extended, 2);
    assert(config::default_config().search_directories =~= seq![p]);
}

/// Some of the texts as a path has these components if and only if the set of the paths has such
/// a path.
pub proof fn default_directories(texts: Seq<Seq<char>>, k: Seq<Seq<u8>>)
    ensures
        diff::lists(config::paths_from(texts), k) <==> exists|i: int|
            0 <= i < texts.len() && path::components(utf8::encode_utf8(#[trigger] texts[i])) == k,
        config::default_config().ignored_directories == config::paths_from(
            seq![
                "~/.Trash"@,
                "~/Applications"@,
                "~/Downloads"@,
                "~/Library"@,
                "~/Music/iTunes"@,
                "~/Music/Music"@,
                "~/Pictures/Photos Library.photoslibrary"@,
            ],
        ),
{
    let paths = texts.map_values(|t: Seq<char>| utf8::encode_utf8(t));
    sorted_set::extended_laws::<FilePath>(Seq::empty(), paths);
    assert(diff::lists(config::paths_from(texts), k) <==> sorted_set::has_key::<FilePath>(
        paths,
        k,
    ));
    if sorted_set::has_key::<FilePath>(paths, k) {
        let i = choose|i: int| 0 <= i < paths.len() && path::components(#[trigger] paths[i]) == k;
        assert(path::components(utf8::encode_utf8(texts[i])) == k);
    }
    if exists|i: int|
        0 <= i < texts.len() && path::components(utf8::encode_utf8(#[trigger] texts[i])) == k {
        let i = choose|i: int|
            0 <= i < texts.len() && path::components(utf8::encode_utf8(#[trigger] texts[i])) == k;
        assert(path::components(paths[i]) == k);
    }
}

/// An old file is taken over if and only if it is a file and the new one is none yet.
pub proof fn old_files_are_taken_over(
    found: Seq<(Seq<u8>, Kind)>,
    old_file: Seq<u8>,
    new_file: Seq<u8>,
)
    ensures
        facts::kind_at(found, old_file) == Kind::File && facts::kind_at(found, new_file)
            != Kind::File <==> import::is_taken_over(found, old_file, new_file),
{
}

/// A variable has the value that stands first behind its name.
pub proof fn first_variable_counts(
    before: Seq<(Seq<char>, Seq<char>)>,
    name: Seq<char>,
    value: Seq<char>,
    behind: Seq<(Seq<char>, Seq<char>)>,
)
    requires
        forall|i: int| 0 <= i < before.len() ==> (#[trigger] before[i]).0 != name,
    ensures
        shell::variable_value(before, name) is None,
        shell::variable_value(before + seq![(name, value)] + behind, name) == Some(value),
    decreases before.len(),
{
    let all = before + seq![(name, value)] + behind;
    if before.len() > 0 {
        let rest = before.drop_first();
        assert(all[0] == before[0]);
        assert(all.drop_first() =~= rest + seq![(name, value)] + behind);
        assert forall|i: int| 0 <= i < rest.len() implies (#[trigger] rest[i]).0 != name by {
            assert(rest[i] == before[i + 1]);
        }
        first_variable_counts(rest, name, value, behind);
    } else {
        assert(all[0] == (name, value));
    }
}

/// The home directory takes the place of a `~` that stands alone or in front of a slash; a text that
/// begins with something else comes back as it is, and so does one that begins with a name behind
/// `~`.
pub proof fn tilde_is_the_home_directory(
    rest: Seq<char>,
    home: Seq<char>,
    other: Seq<char>,
    after: Seq<char>,
)
    requires
        rest.len() > 0 ==> rest[0] == '/',
        other.len() > 0 ==> other[0] != '~' || other.len() > 1 && other[1] != '/' && other[1] != '\\',
    ensures
        shell::is_expanded_with(seq!['~'] + rest, home, after) <==> after == home + rest,
        shell::is_expanded_with(other, home, after) <==> after == other,
{
    let text = seq!['~'] + rest;
    assert(text.skip(1) =~= rest);
    if rest.len() > 0 {
        assert(text[1] == rest[0]);
    }
}

/// A span is its seconds and its nanoseconds; the longest one has the greatest number of seconds.
pub proof fn spans_in_nanoseconds(secs: int, nanos: int)
    ensures
        duration::in_nanos(secs, nanos) == secs * 1_000_000_000 + nanos,
        duration::longest() == u64::MAX * 1_000_000_000 + 999_999_999,
{
}

/// A text is readable unless the numbers in it add up to more than the longest span.
pub proof fn texts_that_are_not_too_long_are_readable(text: Seq<char>)
    requires
        human_time::nanos_before(text, text.len() as int) < 18_446_744_073_709_551_616_000_000_000,
    ensures
        human_time::is_readable(text),
{
    assert forall|i: int|
        0 <= i < text.len() && #[trigger] human_time::starts_unit(
            text,
            i,
        ) implies !human_time::fills_up_at(text, i) by {
        nanos_grow(text, i + 1, text.len() as int);
        assert(human_time::nanos_before(text, i + 1) == human_time::nanos_before(text, i)
            + human_time::whole_nanos(text, i) + human_time::part_nanos(text, i));
    }
}

/// A second, a minute and the other units have as many nanoseconds as they have.
pub proof fn units_of_time(before: Seq<char>, other: Seq<char>)
    requires
        other.len() > 0 ==> !human_time::is_unit_letter(other[0]),
    ensures
        ({
            let n = before.len() as int;
            &&& human_time::unit_nanos(before + seq!['n', 's'] + other, n) == 1
            &&& human_time::unit_nanos(before + seq!['u', 's'] + other, n) == 1_000
            &&& human_time::unit_nanos(before + seq!['m', 's'] + other, n) == 1_000_000
            &&& human_time::unit_nanos(before + seq!['s'] + other, n) == 1_000_000_000
            &&& human_time::unit_nanos(before + seq!['m'] + other, n) == 60 * 1_000_000_000
            &&& human_time::unit_nanos(before + seq!['m', 'i', 'n'] + other, n) == 60
                * 1_000_000_000
            &&& human_time::unit_nanos(before + seq!['h'] + other, n) == 3_600 * 1_000_000_000
            &&& human_time::unit_nanos(before + seq!['d'] + other, n) == 24 * 3_600
                * 1_000_000_000
            &&& human_time::unit_nanos(before + seq!['w'] + other, n) == 7 * 24 * 3_600
                * 1_000_000_000
        }),
{
    let n = before.len() as int;
    let minute = before + seq!['m'] + other;
    if other.len() > 0 {
        assert(minute[n + 1] == other[0]);
    }
    assert((before + seq!['n', 's'] + other)[n] == 'n');
    assert((before + seq!['u', 's'] + other)[n] == 'u');
    assert((before + seq!['m', 's'] + other)[n] == 'm');
    assert((before + seq!['m', 's'] + other)[n + 1] == 's');
    assert((before + seq!['m', 'i', 'n'] + other)[n] == 'm');
    assert((before + seq!['m', 'i', 'n'] + other)[n + 1] == 'i');
    assert((before + seq!['m', 'i', 'n'] + other)[n + 2] == 'n');
    assert((before + seq!['s'] + other)[n] == 's');
    assert(minute[n] == 'm');
    assert((before + seq!['h'] + other)[n] == 'h');
    assert((before + seq!['d'] + other)[n] == 'd');
    assert((before + seq!['w'] + other)[n] == 'w');
}

proof fn nanos_grow(text: Seq<char>, i: int, j: int)
    requires
        0 <= i <= j,
    ensures
        human_time::nanos_before(text, i) <= human_time::nanos_before(text, j),
    decreases j - i,
{
    if i < j {
        nanos_grow(text, i, j - 1);
    }
}

/// What is read of a readable text is the span that was parsed, or what is wrong with it, with a
/// hint.
pub proof fn what_is_read(text: Seq<char>)
    requires
        human_time::is_readable(text),
    ensures
        match human_time::parsed_duration(text) {
            Ok(span) => human_time::read_duration(text) == Some(
                Ok::<int, Seq<char>>(span.0 * 1_000_000_000 + span.1),
            ),
            Err(error) => human_time::read_duration(text) == Some(
                Err::<int, Seq<char>>(
                    "Invalid duration: "@ + error + ". See "@ + human_time::HELP_URL@
                        + " for help."@,
                ),
            ),
        },
{
}

} // verus!
