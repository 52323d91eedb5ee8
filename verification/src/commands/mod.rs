//! The commands, and what several of them share.
pub mod debouncer;
pub mod debouncer_run;
pub mod eager_monitor;
pub mod event;
pub mod list;
pub mod monitor;
pub mod path;
pub mod rescan;
pub mod reset;
pub mod run;
pub mod stats;
pub mod watcher;

use vstd::prelude::*;
use vstd::utf8;

use crate::diff;
use crate::diff::{Diff, Exclusion, ExclusionView, PathSet};
use crate::path::FilePath;
use crate::report;
use crate::report::{Level, Message, MessageView};
use crate::sorted_set;
use crate::text;
use crate::timemachine;
use crate::timemachine::{Error, ErrorView};
use crate::whitelist;
use crate::whitelist::Whitelist;

verus! {

/// A path, and the path that it leads to when every symbolic link is followed.
#[derive(Debug)]
pub struct Resolution {
    pub path: FilePath,
    pub canonical: FilePath,
}

impl View for Resolution {
    type V = (Seq<u8>, Seq<u8>);

    open spec fn view(&self) -> (Seq<u8>, Seq<u8>) {
        (self.path@, self.canonical@)
    }
}

/// Where the path leads to, if that is known.
pub open spec fn canonical(resolved: Seq<(Seq<u8>, Seq<u8>)>, path: Seq<u8>) -> Option<Seq<u8>>
    decreases resolved.len(),
{
    if resolved.len() == 0 {
        None
    } else if resolved[0].0 == path {
        Some(resolved[0].1)
    } else {
        canonical(resolved.drop_first(), path)
    }
}

/// Where the paths lead to, as far as that is known.
pub open spec fn canonicals(
    resolved: Seq<(Seq<u8>, Seq<u8>)>,
    paths: Seq<Seq<u8>>,
) -> Seq<Seq<u8>>
    decreases paths.len(),
{
    if paths.len() == 0 {
        Seq::empty()
    } else {
        let init = canonicals(resolved, paths.drop_last());
        match canonical(resolved, paths.last()) {
            Some(target) => init.push(target),
            None => init,
        }
    }
}

/// The path leads where one of the added paths leads: it is the same item in another spelling.
pub open spec fn respelled(
    resolved: Seq<(Seq<u8>, Seq<u8>)>,
    added: Seq<Seq<u8>>,
    path: Seq<u8>,
) -> bool {
    match canonical(resolved, path) {
        Some(target) => diff::lists(canonicals(resolved, added), crate::path::components(target)),
        None => false,
    }
}

/// The removed paths without those that are added in another spelling.
pub open spec fn applied_removals(
    resolved: Seq<(Seq<u8>, Seq<u8>)>,
    added: Seq<Seq<u8>>,
    removed: Seq<Seq<u8>>,
) -> Seq<Seq<u8>>
    decreases removed.len(),
{
    if removed.len() == 0 {
        removed
    } else {
        let init = applied_removals(resolved, added, removed.drop_last());
        if respelled(resolved, added, removed.last()) {
            init
        } else {
            init.push(removed.last())
        }
    }
}

/// Where nothing is added, every removal is applied.
pub proof fn removals_without_additions(
    resolved: Seq<(Seq<u8>, Seq<u8>)>,
    removed: Seq<Seq<u8>>,
)
    ensures
        applied_removals(resolved, Seq::empty(), removed) == removed,
    decreases removed.len(),
{
    if removed.len() > 0 {
        removals_without_additions(resolved, removed.drop_last());
        assert(removed =~= removed.drop_last().push(removed.last()));
    }
}

fn canonical_of<'a>(resolved: &'a Vec<Resolution>, path: &FilePath) -> (target: Option<&'a FilePath>)
    ensures
        match target {
            Some(r) => canonical(sorted_set::item_views(resolved@), path@) == Some(r@),
            None => canonical(sorted_set::item_views(resolved@), path@) is None,
        },
{
    let ghost all = sorted_set::item_views(resolved@);
    let mut i: usize = 0;
    assert(all.skip(0) =~= all);
    while i < resolved.len()
        invariant
            i <= resolved@.len(),
            all == sorted_set::item_views(resolved@),
            canonical(all, path@) == canonical(all.skip(i as int), path@),
        decreases resolved@.len() - i,
    {
        assert(all[i as int] == resolved@[i as int]@);
        assert(all.skip(i as int).drop_first() =~= all.skip(i + 1));
        if resolved[i].path.same_bytes(path) {
            return Some(&resolved[i].canonical);
        }
        i = i + 1;
    }
    None
}

/// The removals to ask Time Machine for.
///
/// Where a directory is renamed by case only, on a file system that ignores case, it is removed
/// in its old spelling and added in the new one. Both are one item, and Time Machine does not
/// apply two contrary requests for one item in their order, so the removal is dropped.
pub fn removals_to_apply(diff: &Diff, resolved: &Vec<Resolution>) -> (removals: Vec<FilePath>)
    ensures
        sorted_set::item_views(removals@) == applied_removals(
            sorted_set::item_views(resolved@),
            diff.added@,
            diff.removed@,
        ),
{
    let ghost known = sorted_set::item_views(resolved@);
    let ghost added = diff.added@;
    let ghost removed = diff.removed@;
    let mut targets = PathSet::new();
    let ghost mut target_views: Seq<Seq<u8>> = Seq::empty();
    let mut i: usize = 0;
    assert(added.take(0) =~= Seq::<Seq<u8>>::empty());
    while i < diff.added.len()
        invariant
            i <= added.len(),
            added == diff.added@,
            known == sorted_set::item_views(resolved@),
            target_views == canonicals(known, added.take(i as int)),
            targets@ == sorted_set::extended::<FilePath>(Seq::empty(), target_views),
        decreases added.len() - i,
    {
        assert(added.take(i + 1).drop_last() =~= added.take(i as int));
        if let Some(target) = canonical_of(resolved, diff.added.get(i)) {
            proof {
                assert(target_views.push(target@).drop_last() =~= target_views);
                target_views = target_views.push(target@);
            }
            targets.insert(target.clone());
        }
        i = i + 1;
    }
    assert(added.take(i as int) =~= added);
    proof {
        sorted_set::extended_laws::<FilePath>(Seq::empty(), target_views);
    }
    let mut removals: Vec<FilePath> = Vec::new();
    let mut j: usize = 0;
    assert(removed.take(0) =~= Seq::<Seq<u8>>::empty());
    assert(sorted_set::item_views(removals@) =~= Seq::<Seq<u8>>::empty());
    while j < diff.removed.len()
        invariant
            j <= removed.len(),
            removed == diff.removed@,
            known == sorted_set::item_views(resolved@),
            forall|k: Seq<Seq<u8>>| #[trigger]
                sorted_set::has_key::<FilePath>(targets@, k) <==> sorted_set::has_key::<FilePath>(
                    canonicals(known, added),
                    k,
                ),
            sorted_set::item_views(removals@) == applied_removals(
                known,
                added,
                removed.take(j as int),
            ),
        decreases removed.len() - j,
    {
        let ghost before = sorted_set::item_views(removals@);
        assert(removed.take(j + 1).drop_last() =~= removed.take(j as int));
        let path = diff.removed.get(j);
        let dropped = match canonical_of(resolved, path) {
            Some(target) => targets.contains(target),
            None => false,
        };
        if !dropped {
            removals.push(path.clone());
            assert(sorted_set::item_views(removals@) =~= before.push(path@));
        }
        j = j + 1;
    }
    assert(removed.take(j as int) =~= removed);
    removals
}

/// A request to Time Machine.
#[derive(Debug)]
pub enum Request {
    /// To back these paths up again.
    Remove(Vec<FilePath>),
    /// To leave these paths out of the backups.
    Add(Vec<FilePath>),
}

/// A request to Time Machine.
pub enum RequestView {
    Remove(Seq<Seq<u8>>),
    Add(Seq<Seq<u8>>),
}

impl View for Request {
    type V = RequestView;

    open spec fn view(&self) -> RequestView {
        match self {
            Request::Remove(paths) => RequestView::Remove(sorted_set::item_views(paths@)),
            Request::Add(paths) => RequestView::Add(sorted_set::item_views(paths@)),
        }
    }
}

/// The requests for a difference, in their order: one for the removals that are applied, and after
/// it one for the additions. A dry run asks for nothing.
pub open spec fn asked_for(
    resolved: Seq<(Seq<u8>, Seq<u8>)>,
    added: Seq<Seq<u8>>,
    removed: Seq<Seq<u8>>,
    dry_run: bool,
) -> Seq<RequestView> {
    if dry_run {
        Seq::empty()
    } else {
        seq![
            RequestView::Remove(applied_removals(resolved, added, removed)),
            RequestView::Add(added),
        ]
    }
}

/// What to ask of Time Machine for a difference, one request after the other.
pub fn requests_for(diff: &Diff, resolved: &Vec<Resolution>, dry_run: bool) -> (requests: Vec<
    Request,
>)
    ensures
        sorted_set::item_views(requests@) == asked_for(
            sorted_set::item_views(resolved@),
            diff.added@,
            diff.removed@,
            dry_run,
        ),
{
    let mut requests: Vec<Request> = Vec::new();
    if !dry_run {
        requests.push(Request::Remove(removals_to_apply(diff, resolved)));
        requests.push(Request::Add(diff::copy_paths(&diff.added).into_items()));
    }
    assert(sorted_set::item_views(requests@) =~= asked_for(
        sorted_set::item_views(resolved@),
        diff.added@,
        diff.removed@,
        dry_run,
    ));
    requests
}

/// What was asked of Time Machine for a difference: the status that it answered for every
/// addition and for every removal that is applied.
#[derive(Debug)]
pub struct Answers {
    pub added: Vec<i32>,
    pub removed: Vec<i32>,
}

/// What came of applying a difference.
#[derive(Debug)]
pub struct Applied {
    /// The paths that could not be added.
    pub failed: PathSet,
    pub messages: Vec<Message>,
}

/// The paths of some errors.
pub open spec fn error_paths(errors: Seq<ErrorView>) -> Seq<Seq<u8>> {
    errors.map_values(|error: ErrorView| error.path)
}

/// The paths that some errors name, as a set.
pub open spec fn failed_paths(errors: Seq<ErrorView>) -> Seq<Seq<u8>> {
    sorted_set::extended::<FilePath>(Seq::empty(), error_paths(errors))
}

/// A count of paths.
pub open spec fn path_count(count: int) -> Seq<char> {
    text::decimal(count as nat) + " "@ + text::pluralized("path"@, count as nat)
}

/// How many paths changed.
pub open spec fn count_messages(added: int, removed: int) -> Seq<MessageView> {
    (if added > 0 {
        seq![
            report::message(
                Level::Info,
                "Added "@ + path_count(added) + " to the backup exclusion list"@,
            ),
        ]
    } else {
        Seq::empty()
    }) + (if removed > 0 {
        seq![
            report::message(
                Level::Info,
                "Removed "@ + path_count(removed) + " from the backup exclusion list"@,
            ),
        ]
    } else {
        Seq::empty()
    }) + (if added == 0 && removed == 0 {
        seq![report::message(Level::Info, "No changes to the backup exclusion list"@)]
    } else {
        Seq::empty()
    })
}

/// The paths behind a mark, but for those that `left_out` lists.
pub open spec fn path_messages(
    mark: Seq<char>,
    paths: Seq<Seq<u8>>,
    left_out: Seq<Seq<u8>>,
) -> Seq<MessageView>
    decreases paths.len(),
{
    if paths.len() == 0 {
        Seq::empty()
    } else {
        let init = path_messages(mark, paths.drop_last(), left_out);
        if diff::lists(left_out, crate::path::components(paths.last())) {
            init
        } else {
            init.push(report::message(Level::Info, mark + text::lossy_text(paths.last())))
        }
    }
}

/// What the errors are.
pub open spec fn error_messages(errors: Seq<ErrorView>) -> Seq<MessageView> {
    errors.map_values(
        |error: ErrorView|
            report::message(
                Level::Warn,
                "Error: "@ + text::lossy_text(error.path) + ": "@ + error.message,
            ),
    )
}

/// How many additions succeeded.
pub open spec fn added_count(added: Seq<Seq<u8>>, errors: Seq<ErrorView>) -> int {
    if added.len() >= errors.len() {
        added.len() - errors.len()
    } else {
        0
    }
}

/// All that is said when a difference is applied.
pub open spec fn applied_messages(
    added: Seq<Seq<u8>>,
    removed: Seq<Seq<u8>>,
    add_errors: Seq<ErrorView>,
    remove_errors: Seq<ErrorView>,
    details: bool,
) -> Seq<MessageView> {
    count_messages(added_count(added, add_errors), removed.len() as int) + (if details {
        path_messages("+ "@, added, failed_paths(add_errors)) + path_messages(
            "- "@,
            removed,
            Seq::empty(),
        )
    } else {
        Seq::empty()
    }) + error_messages(add_errors) + error_messages(remove_errors)
}

/// The errors of the additions; a dry run asks for nothing.
pub open spec fn addition_errors(
    added: Seq<Seq<u8>>,
    statuses: Seq<i32>,
    dry_run: bool,
) -> Seq<ErrorView> {
    if dry_run {
        Seq::empty()
    } else {
        timemachine::request_errors(added, statuses)
    }
}

fn count_text(count: usize) -> (res: String)
    ensures
        res@ == path_count(count as int),
{
    text::number(count as u64).concat(" ").concat(text::plural("path", count).as_str())
}

fn tell_counts(messages: &mut Vec<Message>, added: usize, removed: usize)
    ensures
        sorted_set::item_views(final(messages)@) == sorted_set::item_views(old(messages)@)
            + count_messages(added as int, removed as int),
{
    let ghost before = sorted_set::item_views(messages@);
    if added > 0 {
        report::tell(
            messages,
            Level::Info,
            "Added ".to_owned().concat(count_text(added).as_str()).concat(
                " to the backup exclusion list",
            ),
        );
    }
    if removed > 0 {
        report::tell(
            messages,
            Level::Info,
            "Removed ".to_owned().concat(count_text(removed).as_str()).concat(
                " from the backup exclusion list",
            ),
        );
    }
    if added == 0 && removed == 0 {
        report::tell(messages, Level::Info, "No changes to the backup exclusion list".to_owned());
    }
    assert(sorted_set::item_views(messages@) =~= before + count_messages(
        added as int,
        removed as int,
    ));
}

/// Names the paths behind a mark, but for those that are left out.
pub fn tell_paths(messages: &mut Vec<Message>, mark: &str, paths: &Vec<FilePath>, left_out: &PathSet)
    ensures
        sorted_set::item_views(final(messages)@) == sorted_set::item_views(old(messages)@)
            + path_messages(mark@, sorted_set::item_views(paths@), left_out@),
{
    let ghost before = sorted_set::item_views(messages@);
    let ghost all = sorted_set::item_views(paths@);
    let mut i: usize = 0;
    assert(all.take(0) =~= Seq::<Seq<u8>>::empty());
    assert(before + path_messages(mark@, all.take(0), left_out@) =~= before);
    while i < paths.len()
        invariant
            i <= paths@.len(),
            all == sorted_set::item_views(paths@),
            sorted_set::item_views(messages@) == before + path_messages(
                mark@,
                all.take(i as int),
                left_out@,
            ),
        decreases paths@.len() - i,
    {
        assert(all.take(i + 1).drop_last() =~= all.take(i as int));
        assert(all[i as int] == paths@[i as int]@);
        let ghost some = path_messages(mark@, all.take(i as int), left_out@);
        if !left_out.contains(&paths[i]) {
            let line = mark.to_owned().concat(paths[i].display().as_str());
            report::tell(messages, Level::Info, line);
            assert((before + some).push(report::message(Level::Info, line@)) =~= before
                + some.push(report::message(Level::Info, line@)));
        }
        i = i + 1;
    }
    assert(all.take(i as int) =~= all);
}

fn tell_errors(messages: &mut Vec<Message>, errors: &Vec<Error>)
    ensures
        sorted_set::item_views(final(messages)@) == sorted_set::item_views(old(messages)@)
            + error_messages(sorted_set::item_views(errors@)),
{
    let ghost before = sorted_set::item_views(messages@);
    let ghost said = error_messages(sorted_set::item_views(errors@));
    let mut i: usize = 0;
    assert(before + said.take(0) =~= before);
    while i < errors.len()
        invariant
            i <= errors@.len(),
            said == error_messages(sorted_set::item_views(errors@)),
            sorted_set::item_views(messages@) == before + said.take(i as int),
        decreases errors@.len() - i,
    {
        let line = "Error: ".to_owned().concat(errors[i].path.display().as_str()).concat(
            ": ",
        ).concat(errors[i].message.as_str());
        report::tell(messages, Level::Warn, line);
        assert(said[i as int] == report::message(Level::Warn, line@));
        assert((before + said.take(i as int)).push(said[i as int]) =~= before + said.take(i + 1));
        i = i + 1;
    }
    assert(said.take(i as int) =~= said);
}

fn paths_of(errors: &Vec<Error>) -> (paths: PathSet)
    ensures
        paths@ == failed_paths(sorted_set::item_views(errors@)),
{
    let ghost all = error_paths(sorted_set::item_views(errors@));
    let mut paths = PathSet::new();
    let mut i: usize = 0;
    assert(all.take(0) =~= Seq::<Seq<u8>>::empty());
    while i < errors.len()
        invariant
            i <= errors@.len(),
            all == error_paths(sorted_set::item_views(errors@)),
            paths@ == sorted_set::extended::<FilePath>(Seq::empty(), all.take(i as int)),
        decreases errors@.len() - i,
    {
        assert(all.take(i + 1).drop_last() =~= all.take(i as int));
        assert(all[i as int] == errors@[i as int].path@);
        paths.insert(errors[i].path.clone());
        i = i + 1;
    }
    assert(all.take(i as int) =~= all);
    paths
}

/// What comes of a difference: the paths that could not be added, and what to say.
///
/// `answers` are the statuses that Time Machine gave for what `requests_for` asks. A dry run asks
/// for nothing, and its answers do not matter.
pub fn apply_diff_and_print(
    diff: &Diff,
    resolved: &Vec<Resolution>,
    answers: &Answers,
    dry_run: bool,
    details: bool,
) -> (applied: Applied)
    requires
        !dry_run ==> answers.added@.len() >= diff.added@.len(),
        !dry_run ==> answers.removed@.len() >= applied_removals(
            sorted_set::item_views(resolved@),
            diff.added@,
            diff.removed@,
        ).len(),
    ensures
        applied.failed@ == failed_paths(
            addition_errors(diff.added@, answers.added@, dry_run),
        ),
        sorted_set::item_views(applied.messages@) == applied_messages(
            diff.added@,
            applied_removals(sorted_set::item_views(resolved@), diff.added@, diff.removed@),
            addition_errors(diff.added@, answers.added@, dry_run),
            addition_errors(
                applied_removals(sorted_set::item_views(resolved@), diff.added@, diff.removed@),
                answers.removed@,
                dry_run,
            ),
            details,
        ),
{
    let removed = removals_to_apply(diff, resolved);
    let ghost removals = sorted_set::item_views(removed@);
    assert(removals.len() == removed@.len());
    let add_errors = if dry_run {
        Vec::new()
    } else {
        timemachine::add_exclusions(diff.added.items(), &answers.added)
    };
    let remove_errors = if dry_run {
        Vec::new()
    } else {
        timemachine::remove_exclusions(&removed, &answers.removed)
    };
    let ghost a = addition_errors(diff.added@, answers.added@, dry_run);
    let ghost r = addition_errors(removals, answers.removed@, dry_run);
    assert(sorted_set::item_views(add_errors@) =~= a);
    assert(sorted_set::item_views(remove_errors@) =~= r);
    let failed = paths_of(&add_errors);
    let mut messages: Vec<Message> = Vec::new();
    assert(sorted_set::item_views(messages@) =~= Seq::<MessageView>::empty());
    assert(sorted_set::item_views(add_errors@).len() == add_errors@.len());
    let add_count: usize = if diff.added.len() >= add_errors.len() {
        diff.added.len() - add_errors.len()
    } else {
        0
    };
    tell_counts(&mut messages, add_count, removed.len());
    let ghost counts = sorted_set::item_views(messages@);
    if details {
        tell_paths(&mut messages, "+ ", diff.added.items(), &failed);
        tell_paths(&mut messages, "- ", &removed, &PathSet::new());
    }
    tell_errors(&mut messages, &add_errors);
    tell_errors(&mut messages, &remove_errors);
    assert(sorted_set::item_views(messages@) =~= applied_messages(
        diff.added@,
        removals,
        a,
        r,
        details,
    ));
    Applied { failed, messages }
}

/// A path that git ignores stays in the backups if it is a symbolic link, or if it is on the
/// whitelist; the whitelist speaks of texts only.
pub open spec fn stays_in_backup(
    symlinks: Seq<Seq<u8>>,
    regexes: Seq<Seq<char>>,
    path: Seq<u8>,
) -> bool {
    ||| symlinks.contains(path)
    ||| utf8::valid_utf8(path) && whitelist::matches_one(regexes, utf8::decode_utf8(path))
}

/// The exclusions for the paths that git ignores in a repository.
pub open spec fn exclusions_for(
    repository: Seq<u8>,
    ignored: Seq<Seq<u8>>,
    symlinks: Seq<Seq<u8>>,
    regexes: Seq<Seq<char>>,
) -> Seq<ExclusionView>
    decreases ignored.len(),
{
    if ignored.len() == 0 {
        Seq::empty()
    } else {
        let init = exclusions_for(repository, ignored.drop_last(), symlinks, regexes);
        if stays_in_backup(symlinks, regexes, ignored.last()) {
            init
        } else {
            init.push(ExclusionView { path: ignored.last(), repository: Some(repository) })
        }
    }
}

/// Every exclusion for a repository names that repository.
pub proof fn exclusions_for_name_the_repository(
    repository: Seq<u8>,
    ignored: Seq<Seq<u8>>,
    symlinks: Seq<Seq<u8>>,
    regexes: Seq<Seq<char>>,
)
    ensures
        forall|i: int|
            0 <= i < exclusions_for(repository, ignored, symlinks, regexes).len() ==> (
            #[trigger] exclusions_for(repository, ignored, symlinks, regexes)[i]).repository
                == Some(repository),
    decreases ignored.len(),
{
    if ignored.len() > 0 {
        exclusions_for_name_the_repository(repository, ignored.drop_last(), symlinks, regexes);
    }
}

/// A path is excluded for a repository if and only if git ignores it there and it does not stay in
/// the backups: what is on the whitelist is never excluded.
pub proof fn ignored_paths_are_excluded(
    repository: Seq<u8>,
    ignored: Seq<Seq<u8>>,
    symlinks: Seq<Seq<u8>>,
    regexes: Seq<Seq<char>>,
    path: Seq<u8>,
)
    ensures
        exclusions_for(repository, ignored, symlinks, regexes).contains(
            ExclusionView { path, repository: Some(repository) },
        ) <==> ignored.contains(path) && !stays_in_backup(symlinks, regexes, path),
    decreases ignored.len(),
{
    if ignored.len() > 0 {
        let init = ignored.drop_last();
        let last = ignored.last();
        let wanted = ExclusionView { path, repository: Some(repository) };
        ignored_paths_are_excluded(repository, init, symlinks, regexes, path);
        assert(ignored =~= init.push(last));
        vstd::seq_lib::lemma_seq_contains_after_push(init, last, path);
        vstd::seq_lib::lemma_seq_contains_after_push(
            exclusions_for(repository, init, symlinks, regexes),
            ExclusionView { path: last, repository: Some(repository) },
            wanted,
        );
    }
}

/// Adds the exclusions for a repository: the paths that git ignores there, but for the symbolic
/// links and what is on the whitelist. A path may be added more than once.
pub fn find_paths_to_exclude_from_backup(
    repository: &FilePath,
    ignored: &Vec<FilePath>,
    symlinks: &Vec<FilePath>,
    whitelist: &Whitelist,
    exclusions: &mut Vec<Exclusion>,
)
    ensures
        sorted_set::item_views(final(exclusions)@) == sorted_set::item_views(old(exclusions)@)
            + exclusions_for(
            repository@,
            sorted_set::item_views(ignored@),
            sorted_set::item_views(symlinks@),
            whitelist@,
        ),
{
    let ghost before = sorted_set::item_views(exclusions@);
    let ghost all = sorted_set::item_views(ignored@);
    let ghost links = sorted_set::item_views(symlinks@);
    let mut i: usize = 0;
    assert(all.take(0) =~= Seq::<Seq<u8>>::empty());
    assert(before + exclusions_for(repository@, all.take(0), links, whitelist@) =~= before);
    while i < ignored.len()
        invariant
            i <= ignored@.len(),
            all == sorted_set::item_views(ignored@),
            links == sorted_set::item_views(symlinks@),
            sorted_set::item_views(exclusions@) == before + exclusions_for(
                repository@,
                all.take(i as int),
                links,
                whitelist@,
            ),
        decreases ignored@.len() - i,
    {
        let path = &ignored[i];
        let ghost some = exclusions_for(repository@, all.take(i as int), links, whitelist@);
        assert(all[i as int] == path@);
        assert(all.take(i + 1).drop_last() =~= all.take(i as int));
        let kept = if diff::is_spelled(symlinks, path) {
            true
        } else {
            match path.to_str() {
                Some(name) => whitelist.is_match(name.as_str()),
                None => false,
            }
        };
        if !kept {
            let exclusion = Exclusion::new(path.clone(), repository.clone());
            let ghost v = exclusion@;
            exclusions.push(exclusion);
            assert(sorted_set::item_views(exclusions@) =~= (before + some).push(v));
            assert((before + some).push(v) =~= before + some.push(v));
        }
        i = i + 1;
    }
    assert(all.take(i as int) =~= all);
}

/// What is said of a thread that panicked.
pub open spec fn panic_text(name: Option<Seq<char>>, payload: Option<Seq<char>>) -> Seq<char> {
    "Thread '"@ + (match name {
        Some(n) => n,
        None => "<unamed>"@,
    }) + "' panicked"@ + (match payload {
        Some(t) => ": "@ + t,
        None => Seq::empty(),
    })
}

/// What is said of a thread that panicked, from its name and the text that it panicked with, as
/// far as there are any.
pub fn thread_panicked(name: Option<&str>, payload: Option<&str>) -> (res: String)
    ensures
        res@ == panic_text(
            match name {
                Some(n) => Some(n@),
                None => None,
            },
            match payload {
                Some(t) => Some(t@),
                None => None,
            },
        ),
{
    let thread = match name {
        Some(n) => n,
        None => "<unamed>",
    };
    let start = "Thread '".to_owned().concat(thread).concat("' panicked");
    match payload {
        Some(t) => start.concat(": ").concat(t),
        None => start,
    }
}

} // verus!
