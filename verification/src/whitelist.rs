//! The whitelist: the paths that stay in the backups though git ignores them.
use vstd::prelude::*;

use crate::sorted_set;
use crate::sorted_set::SortedSet;

verus! {

/// What `fnmatch_regex::glob_to_regex_pattern` makes of a glob pattern: the regular expression,
/// or what is wrong with the pattern.
pub uninterp spec fn glob_regex(pattern: Seq<char>) -> Result<Seq<char>, Seq<char>>;

/// The regular expressions that a `regex::RegexSet` was made from, in their order.
pub uninterp spec fn regexes_of(set: regex::RegexSet) -> Seq<Seq<char>>;

/// Whether there is a machine on which `regex::RegexSet::new` refuses the regular expressions with
/// this error.
pub uninterp spec fn can_refuse(regexes: Seq<Seq<char>>, error: Seq<char>) -> bool;

/// Whether `regex` finds a match of the regular expression in the text.
pub uninterp spec fn regex_matches(pattern: Seq<char>, text: Seq<char>) -> bool;

/// A set of compiled regular expressions.
#[verifier::external_type_specification]
#[verifier::external_body]
pub struct ExRegexSet(regex::RegexSet);

/// `fnmatch_regex::glob_to_regex_pattern`: the regular expression that a glob pattern stands for,
/// or the text of the error; it depends on the pattern alone.
#[verifier::external_body]
fn glob_to_regex_pattern(pattern: &str) -> (res: Result<String, String>)
    ensures
        match res {
            Ok(regex) => glob_regex(pattern@) == Ok::<Seq<char>, Seq<char>>(regex@),
            Err(message) => glob_regex(pattern@) == Err::<Seq<char>, Seq<char>>(message@),
        },
{
    match fnmatch_regex::glob_to_regex_pattern(pattern) {
        Ok(regex) => Ok(regex),
        Err(error) => Err(error.to_string()),
    }
}

/// `regex::RegexSet::new`: a set that was made holds just the given regular expressions, in their
/// order, and one of no regular expressions is always made. An error is one with which just these
/// regular expressions can be refused. When they are is not stated: it rests on the size of the
/// compiled program on the machine too.
#[verifier::external_body]
fn compile(patterns: &Vec<String>) -> (res: Result<regex::RegexSet, String>)
    ensures
        match res {
            Ok(set) => regexes_of(set) == sorted_set::item_views(patterns@),
            Err(message) => can_refuse(sorted_set::item_views(patterns@), message@),
        },
        patterns@.len() == 0 ==> res is Ok,
{
    match regex::RegexSet::new(patterns) {
        Ok(set) => Ok(set),
        Err(error) => Err(error.to_string()),
    }
}

/// `regex::RegexSet::is_match`: whether one of the regular expressions matches the text.
#[verifier::external_body]
fn is_match(set: &regex::RegexSet, text: &str) -> (res: bool)
    ensures
        res == (exists|i: int|
            0 <= i < regexes_of(*set).len() && regex_matches(
                #[trigger] regexes_of(*set)[i],
                text@,
            )),
{
    set.is_match(text)
}

/// The regular expressions are refused on no machine.
pub open spec fn compiles(regexes: Seq<Seq<char>>) -> bool {
    forall|error: Seq<char>| !#[trigger] can_refuse(regexes, error)
}

/// One of the regular expressions matches the text.
pub open spec fn matches_one(regexes: Seq<Seq<char>>, text: Seq<char>) -> bool {
    exists|i: int| 0 <= i < regexes.len() && regex_matches(#[trigger] regexes[i], text)
}

/// The regular expressions of the patterns that are valid.
pub open spec fn valid_regexes(patterns: Seq<Seq<char>>) -> Seq<Seq<char>>
    decreases patterns.len(),
{
    if patterns.len() == 0 {
        Seq::empty()
    } else {
        let init = valid_regexes(patterns.drop_last());
        match glob_regex(patterns.last()) {
            Ok(regex) => init.push(regex),
            Err(_) => init,
        }
    }
}

/// What is said of an invalid pattern.
pub open spec fn invalid_message(pattern: Seq<char>, error: Seq<char>) -> Seq<char> {
    "Error: invalid whitelist pattern '"@ + pattern + "': "@ + error
}

/// What is said of the patterns that are invalid.
pub open spec fn invalid_messages(patterns: Seq<Seq<char>>) -> Seq<Seq<char>>
    decreases patterns.len(),
{
    if patterns.len() == 0 {
        Seq::empty()
    } else {
        let init = invalid_messages(patterns.drop_last());
        match glob_regex(patterns.last()) {
            Ok(_) => init,
            Err(error) => init.push(invalid_message(patterns.last(), error)),
        }
    }
}

/// The patterns of the paths that stay in the backups.
pub struct Whitelist {
    set: regex::RegexSet,
}

impl View for Whitelist {
    type V = Seq<Seq<char>>;

    closed spec fn view(&self) -> Seq<Seq<char>> {
        regexes_of(self.set)
    }
}

impl Whitelist {
    /// A whitelist of regular expressions.
    pub fn from_regexes(regexes: &Vec<String>) -> (res: Result<Whitelist, String>)
        ensures
            match res {
                Ok(whitelist) => whitelist@ == sorted_set::item_views(regexes@),
                Err(message) => can_refuse(sorted_set::item_views(regexes@), message@),
            },
            regexes@.len() == 0 ==> res is Ok,
            compiles(sorted_set::item_views(regexes@)) ==> res is Ok,
    {
        match compile(regexes) {
            Ok(set) => Ok(Whitelist { set }),
            Err(message) => Err(message),
        }
    }

    /// Whether the text is on the whitelist.
    pub fn is_match(&self, text: &str) -> (res: bool)
        ensures
            res == matches_one(self@, text@),
    {
        is_match(&self.set, text)
    }
}

/// The patterns as regular expressions.
#[derive(Debug)]
pub struct Translated {
    pub regexes: Vec<String>,
    /// What to say of the patterns that are invalid.
    pub messages: Vec<String>,
}

/// The whitelist of some patterns.
pub struct Created {
    pub whitelist: Result<Whitelist, String>,
    /// What to say of the patterns that are invalid.
    pub messages: Vec<String>,
}

/// Translates the patterns. Those that are invalid are left out.
pub fn translate(patterns: &SortedSet<String>) -> (res: Translated)
    ensures
        sorted_set::item_views(res.regexes@) == valid_regexes(patterns@),
        sorted_set::item_views(res.messages@) == invalid_messages(patterns@),
{
    let ghost all = patterns@;
    let mut regexes: Vec<String> = Vec::new();
    let mut messages: Vec<String> = Vec::new();
    let mut i: usize = 0;
    assert(all.take(0) =~= Seq::<Seq<char>>::empty());
    assert(sorted_set::item_views(regexes@) =~= Seq::<Seq<char>>::empty());
    assert(sorted_set::item_views(messages@) =~= Seq::<Seq<char>>::empty());
    while i < patterns.len()
        invariant
            i <= all.len(),
            all == patterns@,
            sorted_set::item_views(regexes@) == valid_regexes(all.take(i as int)),
            sorted_set::item_views(messages@) == invalid_messages(all.take(i as int)),
        decreases all.len() - i,
    {
        let pattern = patterns.get(i);
        let ghost some_regexes = sorted_set::item_views(regexes@);
        let ghost some_messages = sorted_set::item_views(messages@);
        assert(all.take(i + 1).drop_last() =~= all.take(i as int));
        match glob_to_regex_pattern(pattern.as_str()) {
            Ok(regex) => {
                let ghost v = regex@;
                regexes.push(regex);
                assert(sorted_set::item_views(regexes@) =~= some_regexes.push(v));
            },
            Err(error) => {
                let message = "Error: invalid whitelist pattern '".to_owned().concat(
                    pattern.as_str(),
                ).concat("': ").concat(error.as_str());
                let ghost v = message@;
                messages.push(message);
                assert(sorted_set::item_views(messages@) =~= some_messages.push(v));
            },
        }
        i = i + 1;
    }
    assert(all.take(i as int) =~= all);
    Translated { regexes, messages }
}

/// The whitelist of the patterns. Those that are invalid are left out.
pub fn create_whitelist(patterns: &SortedSet<String>) -> (created: Created)
    ensures
        sorted_set::item_views(created.messages@) == invalid_messages(patterns@),
        match created.whitelist {
            Ok(whitelist) => whitelist@ == valid_regexes(patterns@),
            Err(message) => can_refuse(valid_regexes(patterns@), message@),
        },
        valid_regexes(patterns@).len() == 0 ==> created.whitelist is Ok,
        compiles(valid_regexes(patterns@)) ==> created.whitelist is Ok,
{
    let translated = translate(patterns);
    assert(sorted_set::item_views(translated.regexes@).len() == translated.regexes@.len());
    Created {
        whitelist: Whitelist::from_regexes(&translated.regexes),
        messages: translated.messages,
    }
}

} // verus!
