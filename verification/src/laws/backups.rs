//! Laws of what Time Machine answers.
use vstd::prelude::*;
use vstd::utf8;

use crate::laws::texts;
use crate::text;
use crate::timemachine;
use crate::timemachine::ErrorView;

verus! {

/// A backup runs if and only if `Running = 1` occurs in what `tmutil status` wrote, whatever
/// stands before it and behind it.
pub proof fn running_is_said_anywhere(status: Seq<char>)
    ensures
        forall|a: Seq<char>, b: Seq<char>|
            timemachine::says_running(#[trigger] (a + "Running = 1"@ + b)),
        timemachine::says_running(status) ==> exists|a: Seq<char>, b: Seq<char>|
            status == #[trigger] (a + "Running = 1"@ + b),
{
    texts::part_occurs(status, "Running = 1"@);
}

/// A request succeeds if and only if the path is a text and the system answers with zero. A path
/// that is no text is said to be none, and any other answer is told by its number.
pub proof fn requests_succeed_with_zero(path: Seq<u8>, status: i32)
    ensures
        timemachine::request_error(path, status) is None <==> utf8::valid_utf8(path) && status == 0,
        timemachine::request_error(path, status) matches Some(error) ==> {
            &&& !utf8::valid_utf8(path) ==> timemachine::exclude_error_text(error)
                == "Invalid UTF-8"@
            &&& utf8::valid_utf8(path) ==> timemachine::exclude_error_text(error) == "OS Status "@
                + text::signed_decimal(status as int)
        },
{
}

/// The errors of the requests before one are those of these requests, and this one adds its error
/// at the end, if it has one.
pub proof fn errors_in_their_order(paths: Seq<Seq<u8>>, statuses: Seq<i32>, path: Seq<u8>)
    ensures
        timemachine::request_errors(Seq::empty(), statuses) == Seq::<ErrorView>::empty(),
        utf8::valid_utf8(path) && statuses[paths.len() as int] == 0 ==> timemachine::request_errors(
            paths.push(path),
            statuses,
        ) == timemachine::request_errors(paths, statuses),
        utf8::valid_utf8(path) && statuses[paths.len() as int] != 0 ==> timemachine::request_errors(
            paths.push(path),
            statuses,
        ) == timemachine::request_errors(paths, statuses).push(
            (ErrorView {
                path,
                message: "OS Status "@ + text::signed_decimal(
                    statuses[paths.len() as int] as int,
                ),
            }),
        ),
        !utf8::valid_utf8(path) ==> timemachine::request_errors(paths.push(path), statuses)
            == timemachine::request_errors(paths, statuses).push(
            (ErrorView { path, message: "Invalid UTF-8"@ }),
        ),
{
    assert(paths.push(path).drop_last() =~= paths);
}

/// A path has an error if and only if it was asked for, and the answer was not zero or the path is
/// no text.
pub proof fn failed_paths_have_errors(paths: Seq<Seq<u8>>, statuses: Seq<i32>, path: Seq<u8>)
    requires
        statuses.len() >= paths.len(),
    ensures
        (exists|i: int|
            0 <= i < timemachine::request_errors(paths, statuses).len() && (
            #[trigger] timemachine::request_errors(paths, statuses)[i]).path == path) <==> (exists|
            j: int,
        |
            0 <= j < paths.len() && #[trigger] paths[j] == path && (statuses[j] != 0
                || !utf8::valid_utf8(path))),
{
    timemachine::request_errors_name_the_failures(paths, statuses, path);
    if exists|j: int|
        0 <= j < paths.len() && #[trigger] paths[j] == path && (statuses[j] != 0
            || !utf8::valid_utf8(path)) {
        let j = choose|j: int|
            0 <= j < paths.len() && #[trigger] paths[j] == path && (statuses[j] != 0
                || !utf8::valid_utf8(path));
        assert(timemachine::request_error(path, statuses[j]) is Some);
    }
    if exists|j: int|
        0 <= j < paths.len() && #[trigger] paths[j] == path && timemachine::request_error(
            path,
            statuses[j],
        ) is Some {
        let j = choose|j: int|
            0 <= j < paths.len() && #[trigger] paths[j] == path && timemachine::request_error(
                path,
                statuses[j],
            ) is Some;
        assert(statuses[j] != 0 || !utf8::valid_utf8(path));
    }
}

} // verus!
