//! What the program tells its user.
use vstd::prelude::*;

use crate::sorted_set;

verus! {

/// How much a message matters.
#[derive(Clone, Copy, PartialEq, Eq, Debug, Structural)]
pub enum Level {
    Debug,
    Info,
    Warn,
    Error,
}

/// A message to the user.
#[derive(Debug)]
pub struct Message {
    pub level: Level,
    pub text: String,
}

/// What a message is made of.
pub struct MessageView {
    pub level: Level,
    pub text: Seq<char>,
}

impl View for Message {
    type V = MessageView;

    open spec fn view(&self) -> MessageView {
        MessageView { level: self.level, text: self.text@ }
    }
}

/// A message of a level.
pub open spec fn message(level: Level, text: Seq<char>) -> MessageView {
    MessageView { level, text }
}

/// The messages of one level.
pub open spec fn messages(level: Level, texts: Seq<Seq<char>>) -> Seq<MessageView> {
    texts.map_values(|text: Seq<char>| message(level, text))
}

/// Adds a message.
pub fn tell(all: &mut Vec<Message>, level: Level, text: String)
    ensures
        sorted_set::item_views(final(all)@) == sorted_set::item_views(old(all)@).push(
            message(level, text@),
        ),
{
    let ghost before = sorted_set::item_views(all@);
    all.push(Message { level, text });
    assert(sorted_set::item_views(all@) =~= before.push(message(level, text@)));
}

/// Some texts as messages of one level.
pub fn all_of(level: Level, texts: Vec<String>) -> (all: Vec<Message>)
    ensures
        sorted_set::item_views(all@) == messages(level, sorted_set::item_views(texts@)),
{
    let ghost said = messages(level, sorted_set::item_views(texts@));
    let mut all: Vec<Message> = Vec::new();
    let mut i: usize = 0;
    while i < texts.len()
        invariant
            i <= texts@.len(),
            all@.len() == i,
            said == messages(level, sorted_set::item_views(texts@)),
            forall|j: int| 0 <= j < i ==> (#[trigger] all@[j])@ == said[j],
        decreases texts@.len() - i,
    {
        all.push(Message { level, text: texts[i].as_str().to_owned() });
        i = i + 1;
    }
    assert(sorted_set::item_views(all@) =~= said);
    all
}

} // verus!
