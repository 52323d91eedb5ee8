//! The notation of the shell: `~` for the home directory, and `$` for variables.
use vstd::prelude::*;

use crate::order::{Ordered, Rank};
use crate::sorted_set;

verus! {

/// A variable of the environment.
#[derive(Debug)]
pub struct Variable {
    pub name: String,
    pub value: String,
}

impl View for Variable {
    type V = (Seq<char>, Seq<char>);

    open spec fn view(&self) -> (Seq<char>, Seq<char>) {
        (self.name@, self.value@)
    }
}

/// What the notation of the shell stands for.
#[derive(Debug)]
pub struct Environment {
    /// The home directory; where it is not known, `~` itself.
    pub home: String,
    pub variables: Vec<Variable>,
}

/// What the notation of the shell stands for.
pub struct EnvironmentView {
    pub home: Seq<char>,
    pub variables: Seq<(Seq<char>, Seq<char>)>,
}

impl View for Environment {
    type V = EnvironmentView;

    open spec fn view(&self) -> EnvironmentView {
        EnvironmentView {
            home: self.home@,
            variables: sorted_set::item_views(self.variables@),
        }
    }
}

/// The value of the first variable with this name, if there is one.
pub open spec fn variable_value(
    variables: Seq<(Seq<char>, Seq<char>)>,
    name: Seq<char>,
) -> Option<Seq<char>>
    decreases variables.len(),
{
    if variables.len() == 0 {
        None
    } else if variables[0].0 == name {
        Some(variables[0].1)
    } else {
        variable_value(variables.drop_first(), name)
    }
}

impl Environment {
    /// The value of a variable. It is an error to ask for one that is not there.
    pub fn value_of(&self, name: &str) -> (value: Result<Option<String>, ()>)
        ensures
            match variable_value(self@.variables, name@) {
                Some(v) => value is Ok && value->Ok_0 is Some && value->Ok_0->0@ == v,
                None => value is Err,
            },
    {
        let ghost all = self@.variables;
        let wanted = name.to_owned();
        let mut i: usize = 0;
        assert(all.skip(0) =~= all);
        while i < self.variables.len()
            invariant
                i <= self.variables@.len(),
                all == self@.variables,
                wanted@ == name@,
                variable_value(all, name@) == variable_value(all.skip(i as int), name@),
            decreases self.variables@.len() - i,
        {
            let variable = &self.variables[i];
            assert(all[i as int] == variable@);
            assert(all.skip(i as int).drop_first() =~= all.skip(i + 1));
            proof {
                <String as Ordered>::before_is_irreflexive(name@);
            }
            if let Rank::Equal = wanted.compare(&variable.name) {
                return Ok(Some(variable.value.as_str().to_owned()));
            }
            i = i + 1;
        }
        Err(())
    }
}

/// The text begins as one in which `~` stands for the home directory.
pub open spec fn may_name_home(text: Seq<char>) -> bool {
    text.len() > 0 && text[0] == '~' && (text.len() == 1 || text[1] == '/' || text[1] == '\\')
}

/// `after` is `before`, or `before` with something in place of its first character; the latter
/// only where that stands for the home directory.
pub open spec fn is_tilde_expansion(before: Seq<char>, after: Seq<char>) -> bool {
    after == before || may_name_home(before) && after.len() >= before.len() - 1 && after.skip(
        after.len() - (before.len() - 1),
    ) == before.skip(1)
}

/// In the text `~` stands for the home directory.
pub open spec fn names_home(text: Seq<char>) -> bool {
    text.len() > 0 && text[0] == '~' && (text.len() == 1 || text[1] == '/')
}

/// `after` is `before` with the home directory in place of `~`, where `~` stands for it. Behind a
/// `~` a backslash is a separator on some systems only: there `before` may come back too.
pub open spec fn is_expanded_with(before: Seq<char>, home: Seq<char>, after: Seq<char>) -> bool {
    if names_home(before) {
        after == home + before.skip(1)
    } else if may_name_home(before) {
        after == before || after == home + before.skip(1)
    } else {
        after == before
    }
}

/// `shellexpand::tilde_with_context`: the text with the given home directory in place of `~`,
/// where the text is `~` or begins with `~` and a separator; any other text comes back as it is.
#[verifier::external_body]
pub(crate) fn expand_tilde_with(text: &str, home: &str) -> (expanded: String)
    ensures
        is_expanded_with(text@, home@, expanded@),
{
    shellexpand::tilde_with_context(text, || Some(home)).to_string()
}

/// `shellexpand::tilde`: the text with the home directory in place of `~`, where the text is `~`
/// or begins with `~` and a separator, and where the home directory is known; any other text
/// comes back as it is. Which directory it is depends on the machine, and is not stated.
#[verifier::external_body]
pub(crate) fn expand_tilde(text: &str) -> (expanded: String)
    ensures
        is_tilde_expansion(text@, expanded@),
{
    shellexpand::tilde(text).to_string()
}

/// The text begins with a `~` in front of a backslash, or of a variable, whose value may begin with
/// one. A backslash is a separator on some systems only.
pub open spec fn depends_on_system(text: Seq<char>) -> bool {
    text.len() > 1 && text[0] == '~' && (text[1] == '\\' || text[1] == '$')
}

/// What `shellexpand::full_with_context` makes of a text, with this home directory and these
/// variables.
pub uninterp spec fn expanded_text(
    text: Seq<char>,
    home: Seq<char>,
    variables: Seq<(Seq<char>, Seq<char>)>,
) -> Option<Seq<char>>;

/// A letter, a digit or an underscore.
pub open spec fn is_name_char(c: char) -> bool {
    'a' <= c <= 'z' || 'A' <= c <= 'Z' || '0' <= c <= '9' || c == '_'
}

/// The text does not begin with `~`, and its only `$` is the one at `from`; between that and `to`
/// stands the name of a variable, which ends with the text or in front of a separator.
pub open spec fn names_variable(text: Seq<char>, from: int, to: int) -> bool {
    &&& 0 <= from && from + 1 < to <= text.len()
    &&& text[0] != '~'
    &&& forall|i: int| 0 <= i < text.len() ==> (#[trigger] text[i] == '$' <==> i == from)
    &&& forall|i: int| from < i < to ==> is_name_char(#[trigger] text[i])
    &&& to < text.len() ==> text[to] == '/'
}

/// The text with a value in place of what stands between two places, if there is a value.
pub open spec fn with_value(
    text: Seq<char>,
    from: int,
    to: int,
    value: Option<Seq<char>>,
) -> Option<Seq<char>> {
    match value {
        Some(v) => Some(text.take(from) + v + text.skip(to)),
        None => None,
    }
}

/// In a text that names no variable only the home directory is put in place of `~`; in a text that
/// names one, its value is put in place of it.
pub open spec fn follows_notation(
    text: Seq<char>,
    environment: EnvironmentView,
    expanded: Option<Seq<char>>,
) -> bool {
    &&& !text.contains('$') ==> expanded is Some && is_expanded_with(
        text,
        environment.home,
        expanded->0,
    )
    &&& forall|from: int, to: int| #[trigger]
        names_variable(text, from, to) ==> expanded == with_value(
            text,
            from,
            to,
            variable_value(environment.variables, text.subrange(from + 1, to)),
        )
}

/// The view of a text that may be missing.
pub open spec fn option_text(text: Option<String>) -> Option<Seq<char>> {
    match text {
        Some(s) => Some(s@),
        None => None,
    }
}

/// `shellexpand::full_with_context`, which `shellexpand::full` calls too: the text with the values
/// of the variables in place of their names behind `$`, and then with the home directory in place
/// of `~`. Nothing comes back where the text names a variable that is not there and gives no value
/// to take instead. What comes back depends on the text, the home directory and the variables
/// alone, but for the texts that depend on the system. What it is is said of the texts without `$`,
/// which always come back, and of those with one plain name behind a `$`.
#[verifier::external_body]
pub(crate) fn expand_full(text: &str, environment: &Environment) -> (expanded: Option<String>)
    ensures
        !depends_on_system(text@) ==> option_text(expanded) == expanded_text(
            text@,
            environment@.home,
            environment@.variables,
        ),
        follows_notation(text@, environment@, option_text(expanded)),
{
    let home = || Some(environment.home.as_str());
    match shellexpand::full_with_context(text, home, |name| environment.value_of(name)) {
        Ok(expanded) => Some(expanded.to_string()),
        Err(_) => None,
    }
}

} // verus!
