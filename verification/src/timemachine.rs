//! Time Machine: what its answers mean.
use vstd::prelude::*;
use vstd::utf8;

use crate::path::FilePath;
use crate::sorted_set;
use crate::text;

verus! {

/// Why a path was not excluded from the backups, or not included again.
#[derive(Clone, Copy, PartialEq, Eq, Debug, Structural)]
pub enum ExcludePathError {
    Os(i32),
    InvalidUtf8,
}

/// What an error says.
pub open spec fn exclude_error_text(error: ExcludePathError) -> Seq<char> {
    match error {
        ExcludePathError::Os(status) => "OS Status "@ + text::signed_decimal(status as int),
        ExcludePathError::InvalidUtf8 => "Invalid UTF-8"@,
    }
}

impl ExcludePathError {
    pub fn text(&self) -> (text: String)
        ensures
            text@ == exclude_error_text(*self),
    {
        match self {
            ExcludePathError::Os(status) => {
                "OS Status ".to_owned().concat(text::signed_number(*status).as_str())
            },
            ExcludePathError::InvalidUtf8 => "Invalid UTF-8".to_owned(),
        }
    }
}

/// A path that Time Machine did not take, and why.
#[derive(Debug)]
pub struct Error {
    pub path: FilePath,
    pub message: String,
}

/// What an error is made of.
pub struct ErrorView {
    pub path: Seq<u8>,
    pub message: Seq<char>,
}

impl View for Error {
    type V = ErrorView;

    open spec fn view(&self) -> ErrorView {
        ErrorView { path: self.path@, message: self.message@ }
    }
}

/// The error of a request. The system takes texts only, and answers with a status that is zero
/// where it agrees.
pub open spec fn request_error(path: Seq<u8>, status: i32) -> Option<ExcludePathError> {
    if !utf8::valid_utf8(path) {
        Some(ExcludePathError::InvalidUtf8)
    } else if status != 0 {
        Some(ExcludePathError::Os(status))
    } else {
        None
    }
}

/// The text to hand to the system for a path.
pub fn request_text(path: &FilePath) -> (res: Result<String, ExcludePathError>)
    ensures
        match res {
            Ok(text) => utf8::valid_utf8(path@) && text@ == utf8::decode_utf8(path@),
            Err(error) => !utf8::valid_utf8(path@) && error == ExcludePathError::InvalidUtf8,
        },
{
    match path.to_str() {
        Some(text) => Ok(text),
        None => Err(ExcludePathError::InvalidUtf8),
    }
}

/// What came of the request for a path.
pub fn exclude_path(path: &FilePath, status: i32) -> (res: Result<(), ExcludePathError>)
    ensures
        match res {
            Ok(_) => request_error(path@, status) is None,
            Err(error) => request_error(path@, status) == Some(error),
        },
{
    match request_text(path) {
        Err(error) => Err(error),
        Ok(_) => if status == 0 {
            Ok(())
        } else {
            Err(ExcludePathError::Os(status))
        },
    }
}

/// The errors of some requests, in their order.
pub open spec fn request_errors(paths: Seq<Seq<u8>>, statuses: Seq<i32>) -> Seq<ErrorView>
    decreases paths.len(),
{
    if paths.len() == 0 {
        Seq::empty()
    } else {
        let init = request_errors(paths.drop_last(), statuses);
        match request_error(paths.last(), statuses[paths.len() - 1]) {
            Some(error) => init.push(
                ErrorView { path: paths.last(), message: exclude_error_text(error) },
            ),
            None => init,
        }
    }
}

fn errors_of(paths: &Vec<FilePath>, statuses: &Vec<i32>) -> (errors: Vec<Error>)
    requires
        statuses@.len() >= paths@.len(),
    ensures
        sorted_set::item_views(errors@) == request_errors(
            sorted_set::item_views(paths@),
            statuses@,
        ),
{
    let ghost all = sorted_set::item_views(paths@);
    let mut errors: Vec<Error> = Vec::new();
    let mut i: usize = 0;
    assert(all.take(0) =~= Seq::<Seq<u8>>::empty());
    assert(sorted_set::item_views(errors@) =~= Seq::<ErrorView>::empty());
    while i < paths.len()
        invariant
            i <= paths@.len(),
            statuses@.len() >= paths@.len(),
            all == sorted_set::item_views(paths@),
            sorted_set::item_views(errors@) == request_errors(all.take(i as int), statuses@),
        decreases paths@.len() - i,
    {
        let ghost before = sorted_set::item_views(errors@);
        assert(all[i as int] == paths@[i as int]@);
        assert(all.take(i + 1).drop_last() =~= all.take(i as int));
        if let Err(error) = exclude_path(&paths[i], statuses[i]) {
            let error = Error { path: paths[i].clone(), message: error.text() };
            let ghost v = error@;
            errors.push(error);
            assert(sorted_set::item_views(errors@) =~= before.push(v));
        }
        i = i + 1;
    }
    assert(all.take(i as int) =~= all);
    errors
}

/// The paths that could not be excluded from the backups, from the status that the system
/// answered for each. The status of a path that is not UTF-8 does not matter.
pub fn add_exclusions(paths: &Vec<FilePath>, statuses: &Vec<i32>) -> (errors: Vec<Error>)
    requires
        statuses@.len() >= paths@.len(),
    ensures
        sorted_set::item_views(errors@) == request_errors(
            sorted_set::item_views(paths@),
            statuses@,
        ),
{
    errors_of(paths, statuses)
}

/// The paths that could not be included in the backups again, from the status that the system
/// answered for each. The status of a path that is not UTF-8 does not matter.
pub fn remove_exclusions(paths: &Vec<FilePath>, statuses: &Vec<i32>) -> (errors: Vec<Error>)
    requires
        statuses@.len() >= paths@.len(),
    ensures
        sorted_set::item_views(errors@) == request_errors(
            sorted_set::item_views(paths@),
            statuses@,
        ),
{
    errors_of(paths, statuses)
}

/// Only paths that were asked for have errors, and every path without an error was taken.
pub proof fn request_errors_name_the_failures(paths: Seq<Seq<u8>>, statuses: Seq<i32>, p: Seq<u8>)
    requires
        statuses.len() >= paths.len(),
    ensures
        (exists|i: int|
            0 <= i < request_errors(paths, statuses).len() && (#[trigger] request_errors(
                paths,
                statuses,
            )[i]).path == p) <==> (exists|j: int|
            0 <= j < paths.len() && #[trigger] paths[j] == p && request_error(p, statuses[j])
                is Some),
    decreases paths.len(),
{
    if paths.len() > 0 {
        let n = paths.len() - 1;
        let init = paths.drop_last();
        let some = request_errors(init, statuses);
        let all = request_errors(paths, statuses);
        request_errors_name_the_failures(init, statuses, p);
        if exists|i: int| 0 <= i < all.len() && (#[trigger] all[i]).path == p {
            let i = choose|i: int| 0 <= i < all.len() && (#[trigger] all[i]).path == p;
            if i < some.len() {
                assert(some[i] == all[i]);
                let j = choose|j: int|
                    0 <= j < init.len() && #[trigger] init[j] == p && request_error(
                        p,
                        statuses[j],
                    ) is Some;
                assert(paths[j] == p);
            } else {
                assert(paths[n] == p);
            }
        }
        if exists|j: int|
            0 <= j < paths.len() && #[trigger] paths[j] == p && request_error(p, statuses[j])
                is Some {
            let j = choose|j: int|
                0 <= j < paths.len() && #[trigger] paths[j] == p && request_error(
                    p,
                    statuses[j],
                ) is Some;
            if j < n {
                assert(init[j] == p);
                let i = choose|i: int| 0 <= i < some.len() && (#[trigger] some[i]).path == p;
                assert(all[i] == some[i]);
            } else {
                assert(all[all.len() - 1].path == p);
            }
        }
    }
}

/// What `tmutil status` wrote, or what to say where it failed.
pub fn status_from_output(
    success: bool,
    status: &str,
    stdout: &Vec<u8>,
    stderr: &Vec<u8>,
) -> (res: Result<String, String>)
    ensures
        match res {
            Ok(written) => success && written@ == text::lossy_text(stdout@),
            Err(message) => !success && message@ == "tmutil status exited with "@ + status@
                + ": "@ + text::trimmed(text::lossy_text(stderr@)),
        },
        success && utf8::valid_utf8(stdout@) ==> res->Ok_0@ == utf8::decode_utf8(stdout@),
{
    if success {
        Ok(text::decode_lossy(stdout))
    } else {
        let reason = text::trim(text::decode_lossy(stderr).as_str());
        Err(
            "tmutil status exited with ".to_owned().concat(status).concat(": ").concat(
                reason.as_str(),
            ),
        )
    }
}

/// A backup runs.
pub open spec fn says_running(status: Seq<char>) -> bool {
    text::occurs(status, "Running = 1"@)
}

/// Whether a backup runs, from what `tmutil status` wrote.
pub fn parse_running(status: &str) -> (running: bool)
    ensures
        running == says_running(status@),
        running == exists|i: int|
            0 <= i <= status@.len() - "Running = 1"@.len() && #[trigger] status@.subrange(
                i,
                i + "Running = 1"@.len(),
            ) == "Running = 1"@,
{
    text::contains(status, "Running = 1")
}

/// Whether a backup runs, from what `tmutil status` wrote or why it failed.
pub fn is_time_machine_running(status: Result<String, String>) -> (res: Result<bool, String>)
    ensures
        match status {
            Ok(written) => res == Ok::<bool, String>(says_running(written@)),
            Err(message) => res == Err::<bool, String>(message),
        },
{
    match status {
        Ok(written) => Ok(parse_running(written.as_str())),
        Err(message) => Err(message),
    }
}

/// What is warned of where the status is not known.
pub open spec fn status_warning(message: Seq<char>) -> Seq<char> {
    "Failed to query Time Machine status: "@ + message
}

/// Whether a backup runs, and what to warn of. A backup of which nothing is known does not run.
pub fn log_status(status: Result<bool, String>) -> (res: (bool, Option<String>))
    ensures
        match status {
            Ok(running) => res.0 == running && res.1 is None,
            Err(message) => !res.0 && res.1 is Some && res.1->0@ == status_warning(message@),
        },
{
    match status {
        Ok(running) => (running, None),
        Err(message) => (
            false,
            Some("Failed to query Time Machine status: ".to_owned().concat(message.as_str())),
        ),
    }
}

} // verus!
