//! Laws of what is asked of Time Machine, and of what is told.
use vstd::prelude::*;
use vstd::utf8;

use crate::commands;
use crate::commands::RequestView;
use crate::diff;
use crate::diff::ExclusionView;
use crate::path;
use crate::path::FilePath;
use crate::report;
use crate::report::{Level, MessageView};
use crate::sorted_set;
use crate::text;
use crate::timemachine;
use crate::timemachine::ErrorView;
use crate::whitelist;

verus! {

/// Some path in a list has these components if and only if one of its places has such a path.
pub proof fn listed_by_components(s: Seq<Seq<u8>>, k: Seq<Seq<u8>>)
    ensures
        diff::lists(s, k) <==> exists|i: int|
            0 <= i < s.len() && path::components(#[trigger] s[i]) == k,
        diff::lists(s, k) <==> exists|p: Seq<u8>| #[trigger]
            s.contains(p) && path::components(p) == k,
{
    if diff::lists(s, k) {
        let i = choose|i: int| 0 <= i < s.len() && path::components(#[trigger] s[i]) == k;
        assert(s.contains(s[i]));
    }
    if exists|p: Seq<u8>| #[trigger] s.contains(p) && path::components(p) == k {
        let p = choose|p: Seq<u8>| #[trigger] s.contains(p) && path::components(p) == k;
        let i = choose|i: int| 0 <= i < s.len() && s[i] == p;
        assert(path::components(s[i]) == k);
    }
}

/// A path leads where the first resolution of it says, and nowhere where there is none.
pub proof fn first_resolution_counts(
    before: Seq<(Seq<u8>, Seq<u8>)>,
    path: Seq<u8>,
    target: Seq<u8>,
    behind: Seq<(Seq<u8>, Seq<u8>)>,
)
    requires
        forall|i: int| 0 <= i < before.len() ==> (#[trigger] before[i]).0 != path,
    ensures
        commands::canonical(before, path) is None,
        commands::canonical(before + seq![(path, target)] + behind, path) == Some(target),
    decreases before.len(),
{
    let all = before + seq![(path, target)] + behind;
    if before.len() > 0 {
        let rest = before.drop_first();
        assert(all[0] == before[0]);
        assert(all.drop_first() =~= rest + seq![(path, target)] + behind);
        assert forall|i: int| 0 <= i < rest.len() implies (#[trigger] rest[i]).0 != path by {
            assert(rest[i] == before[i + 1]);
        }
        first_resolution_counts(rest, path, target, behind);
    } else {
        assert(all[0] == (path, target));
    }
}

/// Both paths are resolved, and lead to the same item.
pub open spec fn lead_to_one(
    resolved: Seq<(Seq<u8>, Seq<u8>)>,
    p: Seq<u8>,
    q: Seq<u8>,
) -> bool {
    commands::canonical(resolved, p) matches Some(a) && commands::canonical(resolved, q) matches Some(
        b,
    ) && path::components(a) == path::components(b)
}

proof fn canonicals_list(
    resolved: Seq<(Seq<u8>, Seq<u8>)>,
    paths: Seq<Seq<u8>>,
    k: Seq<Seq<u8>>,
)
    ensures
        diff::lists(commands::canonicals(resolved, paths), k) <==> exists|q: Seq<u8>| #[trigger]
            paths.contains(q) && commands::canonical(resolved, q) is Some && path::components(
                commands::canonical(resolved, q)->0,
            ) == k,
    decreases paths.len(),
{
    if paths.len() > 0 {
        let init = paths.drop_last();
        let last = paths.last();
        let some = commands::canonicals(resolved, init);
        canonicals_list(resolved, init, k);
        assert(paths =~= init.push(last));
        assert forall|q: Seq<u8>| #[trigger] paths.contains(q) <==> init.contains(q) || q
            == last by {
            vstd::seq_lib::lemma_seq_contains_after_push(init, last, q);
        }
        if let Some(target) = commands::canonical(resolved, last) {
            diff::lists_after_push(some, target, k);
        }
        assert(paths.contains(last));
        if diff::lists(some, k) {
            let q = choose|q: Seq<u8>| #[trigger]
                init.contains(q) && commands::canonical(resolved, q) is Some && path::components(
                    commands::canonical(resolved, q)->0,
                ) == k;
            assert(paths.contains(q));
        }
    }
}

/// A removed path is removed from the exclusions, unless an added path leads to the same item; so
/// one that leads elsewhere than all added paths, or nowhere, is always removed.
pub proof fn removals_that_are_applied(
    resolved: Seq<(Seq<u8>, Seq<u8>)>,
    added: Seq<Seq<u8>>,
    removed: Seq<Seq<u8>>,
    p: Seq<u8>,
)
    ensures
        commands::applied_removals(resolved, added, removed).contains(p) <==> removed.contains(p)
            && !exists|q: Seq<u8>| #[trigger] added.contains(q) && lead_to_one(resolved, p, q),
    decreases removed.len(),
{
    if removed.len() > 0 {
        let init = removed.drop_last();
        let last = removed.last();
        removals_that_are_applied(resolved, added, init, p);
        assert(removed =~= init.push(last));
        vstd::seq_lib::lemma_seq_contains_after_push(init, last, p);
        vstd::seq_lib::lemma_seq_contains_after_push(
            commands::applied_removals(resolved, added, init),
            last,
            p,
        );
        if let Some(target) = commands::canonical(resolved, last) {
            canonicals_list(resolved, added, path::components(target));
        }
        if p == last {
            if commands::respelled(resolved, added, last) {
                let target = commands::canonical(resolved, last)->0;
                let q = choose|q: Seq<u8>| #[trigger]
                    added.contains(q) && commands::canonical(resolved, q) is Some
                        && path::components(commands::canonical(resolved, q)->0)
                        == path::components(target);
                assert(added.contains(q) && lead_to_one(resolved, p, q));
            }
            if exists|q: Seq<u8>| #[trigger] added.contains(q) && lead_to_one(resolved, p, q) {
                let q = choose|q: Seq<u8>| #[trigger]
                    added.contains(q) && lead_to_one(resolved, p, q);
                assert(commands::respelled(resolved, added, last));
            }
        }
    }
}

/// The removals from two lists, one behind the other, are those from the first and then those from
/// the second: they stay in their order.
pub proof fn removals_in_parts(
    resolved: Seq<(Seq<u8>, Seq<u8>)>,
    added: Seq<Seq<u8>>,
    x: Seq<Seq<u8>>,
    y: Seq<Seq<u8>>,
)
    ensures
        commands::applied_removals(resolved, added, x + y) == commands::applied_removals(
            resolved,
            added,
            x,
        ) + commands::applied_removals(resolved, added, y),
        y.len() == 1 ==> commands::applied_removals(resolved, added, y).len() <= 1,
    decreases y.len(),
{
    reveal_with_fuel(commands::applied_removals, 2);
    let a = commands::applied_removals(resolved, added, x);
    if y.len() == 0 {
        assert(x + y =~= x);
        assert(a + commands::applied_removals(resolved, added, y) =~= a);
    } else {
        removals_in_parts(resolved, added, x, y.drop_last());
        assert((x + y).drop_last() =~= x + y.drop_last());
        assert(commands::applied_removals(resolved, added, x + y) =~= a
            + commands::applied_removals(resolved, added, y));
    }
}

/// Just two requests are made, one for removals and then one for all additions. Every removed path
/// is in the first, unless an added path leads to the same item, and nothing else is. A dry run
/// makes none.
pub proof fn requests_for_a_difference(
    resolved: Seq<(Seq<u8>, Seq<u8>)>,
    added: Seq<Seq<u8>>,
    removed: Seq<Seq<u8>>,
    p: Seq<u8>,
)
    ensures
        commands::asked_for(resolved, added, removed, true).len() == 0,
        ({
            let requests = commands::asked_for(resolved, added, removed, false);
            &&& requests.len() == 2
            &&& requests[0] matches RequestView::Remove(paths) && (paths.contains(p)
                <==> removed.contains(p) && !exists|q: Seq<u8>| #[trigger]
                added.contains(q) && lead_to_one(resolved, p, q))
            &&& requests[1] == RequestView::Add(added)
        }),
{
    removals_that_are_applied(resolved, added, removed, p);
}

/// A path that git ignores is excluded for its repository, unless it is a symbolic link, or a text
/// in which one of the regular expressions of the whitelist matches; nothing else is excluded.
pub proof fn what_is_excluded(
    repository: Seq<u8>,
    ignored: Seq<Seq<u8>>,
    symlinks: Seq<Seq<u8>>,
    regexes: Seq<Seq<char>>,
    e: ExclusionView,
)
    ensures
        commands::exclusions_for(repository, ignored, symlinks, regexes).contains(e) <==> {
            &&& e.repository == Some(repository)
            &&& ignored.contains(e.path)
            &&& !symlinks.contains(e.path)
            &&& !(utf8::valid_utf8(e.path) && exists|i: int|
                0 <= i < regexes.len() && whitelist::regex_matches(
                    #[trigger] regexes[i],
                    utf8::decode_utf8(e.path),
                ))
        },
{
    let all = commands::exclusions_for(repository, ignored, symlinks, regexes);
    commands::exclusions_for_name_the_repository(repository, ignored, symlinks, regexes);
    commands::ignored_paths_are_excluded(repository, ignored, symlinks, regexes, e.path);
    if all.contains(e) {
        let i = choose|i: int| 0 <= i < all.len() && all[i] == e;
        assert(all[i].repository == Some(repository));
    }
    if e.repository == Some(repository) {
        assert(e == (ExclusionView { path: e.path, repository: Some(repository) }));
    }
}

/// The exclusions for two lists of paths, one behind the other, are those for the first and then
/// those for the second.
pub proof fn exclusions_in_parts(
    repository: Seq<u8>,
    x: Seq<Seq<u8>>,
    y: Seq<Seq<u8>>,
    symlinks: Seq<Seq<u8>>,
    regexes: Seq<Seq<char>>,
)
    ensures
        commands::exclusions_for(repository, x + y, symlinks, regexes) == commands::exclusions_for(
            repository,
            x,
            symlinks,
            regexes,
        ) + commands::exclusions_for(repository, y, symlinks, regexes),
        y.len() == 1 ==> commands::exclusions_for(repository, y, symlinks, regexes).len() <= 1,
    decreases y.len(),
{
    reveal_with_fuel(commands::exclusions_for, 2);
    let a = commands::exclusions_for(repository, x, symlinks, regexes);
    if y.len() == 0 {
        assert(x + y =~= x);
        assert(a + commands::exclusions_for(repository, y, symlinks, regexes) =~= a);
    } else {
        exclusions_in_parts(repository, x, y.drop_last(), symlinks, regexes);
        assert((x + y).drop_last() =~= x + y.drop_last());
        assert(commands::exclusions_for(repository, x + y, symlinks, regexes) =~= a
            + commands::exclusions_for(repository, y, symlinks, regexes));
    }
}

/// The regular expressions of a whitelist are those of its valid patterns, in their order; what is
/// wrong with each of the others is said, in their order.
pub proof fn every_pattern_counts(x: Seq<Seq<char>>, y: Seq<Seq<char>>, pattern: Seq<char>)
    ensures
        whitelist::valid_regexes(x + y) == whitelist::valid_regexes(x) + whitelist::valid_regexes(
            y,
        ),
        whitelist::invalid_messages(x + y) == whitelist::invalid_messages(x)
            + whitelist::invalid_messages(y),
        match whitelist::glob_regex(pattern) {
            Ok(regex) => whitelist::valid_regexes(seq![pattern]) == seq![regex]
                && whitelist::invalid_messages(seq![pattern]).len() == 0,
            Err(error) => whitelist::valid_regexes(seq![pattern]).len() == 0
                && whitelist::invalid_messages(seq![pattern]) == seq![
                "Error: invalid whitelist pattern '"@ + pattern + "': "@ + error,
            ],
        },
    decreases y.len(),
{
    reveal_with_fuel(whitelist::valid_regexes, 2);
    reveal_with_fuel(whitelist::invalid_messages, 2);
    assert(seq![pattern].drop_last() =~= Seq::<Seq<char>>::empty());
    let none = Seq::<Seq<char>>::empty();
    match whitelist::glob_regex(pattern) {
        Ok(regex) => {
            assert(whitelist::valid_regexes(seq![pattern]) =~= seq![regex]);
        },
        Err(error) => {
            assert(whitelist::invalid_messages(seq![pattern]) =~= seq![
                "Error: invalid whitelist pattern '"@ + pattern + "': "@ + error,
            ]);
        },
    }
    let a = whitelist::valid_regexes(x);
    let b = whitelist::invalid_messages(x);
    if y.len() == 0 {
        assert(x + y =~= x);
        assert(a + whitelist::valid_regexes(y) =~= a);
        assert(b + whitelist::invalid_messages(y) =~= b);
    } else {
        every_pattern_counts(x, y.drop_last(), pattern);
        assert((x + y).drop_last() =~= x + y.drop_last());
        assert(whitelist::valid_regexes(x + y) =~= a + whitelist::valid_regexes(y));
        assert(whitelist::invalid_messages(x + y) =~= b + whitelist::invalid_messages(y));
    }
}

/// The failed paths are those that some error names.
pub proof fn failed_paths_are_named(errors: Seq<ErrorView>, k: Seq<Seq<u8>>)
    ensures
        diff::lists(commands::failed_paths(errors), k) <==> exists|i: int|
            0 <= i < errors.len() && path::components((#[trigger] errors[i]).path) == k,
{
    let paths = commands::error_paths(errors);
    sorted_set::extended_laws::<FilePath>(Seq::empty(), paths);
    assert(diff::lists(commands::failed_paths(errors), k) <==> sorted_set::has_key::<FilePath>(
        paths,
        k,
    ));
    if sorted_set::has_key::<FilePath>(paths, k) {
        let i = choose|i: int| 0 <= i < paths.len() && path::components(#[trigger] paths[i]) == k;
        assert(path::components(errors[i].path) == k);
    }
    if exists|i: int| 0 <= i < errors.len() && path::components((#[trigger] errors[i]).path) == k {
        let i = choose|i: int|
            0 <= i < errors.len() && path::components((#[trigger] errors[i]).path) == k;
        assert(path::components(paths[i]) == k);
    }
}

/// How many paths were added and how many were removed is said where there are any, in this order;
/// where there are none, it is said that nothing changed.
pub proof fn changes_are_counted(added: nat, removed: nat)
    requires
        added > 1,
        removed > 1,
    ensures
        ({
            let many_added = report::message(
                Level::Info,
                "Added "@ + (text::decimal(added) + " "@ + "path"@.push('s'))
                    + " to the backup exclusion list"@,
            );
            let many_removed = report::message(
                Level::Info,
                "Removed "@ + (text::decimal(removed) + " "@ + "path"@.push('s'))
                    + " from the backup exclusion list"@,
            );
            let one_added = report::message(
                Level::Info,
                "Added "@ + (text::decimal(1) + " "@ + "path"@)
                    + " to the backup exclusion list"@,
            );
            let one_removed = report::message(
                Level::Info,
                "Removed "@ + (text::decimal(1) + " "@ + "path"@)
                    + " from the backup exclusion list"@,
            );
            &&& commands::count_messages(added as int, removed as int) == seq![
                many_added,
                many_removed,
            ]
            &&& commands::count_messages(added as int, 0) == seq![many_added]
            &&& commands::count_messages(0, removed as int) == seq![many_removed]
            &&& commands::count_messages(1, 1) == seq![one_added, one_removed]
            &&& commands::count_messages(1, 0) == seq![one_added]
            &&& commands::count_messages(0, 1) == seq![one_removed]
            &&& commands::count_messages(1, removed as int) == seq![one_added, many_removed]
            &&& commands::count_messages(added as int, 1) == seq![many_added, one_removed]
            &&& commands::count_messages(0, 0) == seq![
                report::message(Level::Info, "No changes to the backup exclusion list"@),
            ]
        }),
{
    reveal_strlit("path");
    let none = Seq::<MessageView>::empty();
    assert(commands::count_messages(added as int, removed as int) =~= seq![
        commands::count_messages(added as int, removed as int)[0],
        commands::count_messages(added as int, removed as int)[1],
    ]);
    assert(commands::count_messages(added as int, 0).len() == 1);
    assert(commands::count_messages(0, removed as int).len() == 1);
    assert(commands::count_messages(1, 1).len() == 2);
    assert(commands::count_messages(1, 0).len() == 1);
    assert(commands::count_messages(0, 1).len() == 1);
    assert(commands::count_messages(1, removed as int).len() == 2);
    assert(commands::count_messages(added as int, 1).len() == 2);
    assert(commands::count_messages(0, 0).len() == 1);
}

/// Every path is told behind the mark, in their order, unless a path with its components is left
/// out.
pub proof fn paths_are_told(
    mark: Seq<char>,
    x: Seq<Seq<u8>>,
    y: Seq<Seq<u8>>,
    p: Seq<u8>,
    left_out: Seq<Seq<u8>>,
)
    ensures
        commands::path_messages(mark, x + y, left_out) == commands::path_messages(mark, x, left_out)
            + commands::path_messages(mark, y, left_out),
        commands::path_messages(mark, seq![p], left_out) == (if exists|i: int|
            0 <= i < left_out.len() && path::components(#[trigger] left_out[i])
                == path::components(p) {
            Seq::empty()
        } else {
            seq![report::message(Level::Info, mark + text::lossy_text(p))]
        }),
    decreases y.len(),
{
    reveal_with_fuel(commands::path_messages, 2);
    assert(seq![p].drop_last() =~= Seq::<Seq<u8>>::empty());
    listed_by_components(left_out, path::components(p));
    let one = seq![report::message(Level::Info, mark + text::lossy_text(p))];
    if !diff::lists(left_out, path::components(p)) {
        assert(commands::path_messages(mark, seq![p], left_out) =~= one);
    }
    let a = commands::path_messages(mark, x, left_out);
    if y.len() == 0 {
        assert(x + y =~= x);
        assert(a + commands::path_messages(mark, y, left_out) =~= a);
    } else {
        paths_are_told(mark, x, y.drop_last(), p, left_out);
        assert((x + y).drop_last() =~= x + y.drop_last());
        assert(commands::path_messages(mark, x + y, left_out) =~= a + commands::path_messages(
            mark,
            y,
            left_out,
        ));
    }
}

/// What is told of a difference: the counts, where an addition that failed is not counted; then,
/// with details, the added paths but for those that failed, and the removed paths; then the errors
/// of the additions and those of the removals.
pub proof fn what_is_told_of_a_difference(
    added: Seq<Seq<u8>>,
    removed: Seq<Seq<u8>>,
    add_errors: Seq<ErrorView>,
    remove_errors: Seq<ErrorView>,
)
    requires
        add_errors.len() <= added.len(),
    ensures
        ({
            let counts = commands::count_messages(
                added.len() - add_errors.len(),
                removed.len() as int,
            );
            let errors = commands::error_messages(add_errors) + commands::error_messages(
                remove_errors,
            );
            &&& commands::applied_messages(added, removed, add_errors, remove_errors, false)
                == counts + errors
            &&& commands::applied_messages(added, removed, add_errors, remove_errors, true)
                == counts + commands::path_messages(
                "+ "@,
                added,
                commands::failed_paths(add_errors),
            ) + commands::path_messages("- "@, removed, Seq::empty()) + errors
        }),
        forall|i: int|
            0 <= i < add_errors.len() ==> #[trigger] commands::error_messages(add_errors)[i]
                == report::message(
                Level::Warn,
                "Error: "@ + text::lossy_text(add_errors[i].path) + ": "@ + add_errors[i].message,
            ),
        commands::error_messages(add_errors).len() == add_errors.len(),
        forall|statuses: Seq<i32>|
            #[trigger] commands::addition_errors(added, statuses, true).len() == 0,
        forall|statuses: Seq<i32>| #[trigger]
            commands::addition_errors(added, statuses, false) == timemachine::request_errors(
                added,
                statuses,
            ),
{
    let counts = commands::count_messages(added.len() - add_errors.len(), removed.len() as int);
    let a = commands::error_messages(add_errors);
    let b = commands::error_messages(remove_errors);
    let plus = commands::path_messages("+ "@, added, commands::failed_paths(add_errors));
    let minus = commands::path_messages("- "@, removed, Seq::empty());
    assert(commands::applied_messages(added, removed, add_errors, remove_errors, false) =~= counts
        + (a + b));
    assert(commands::applied_messages(added, removed, add_errors, remove_errors, true) =~= counts
        + plus + minus + (a + b));
}

} // verus!
