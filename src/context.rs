use vstd::prelude::*;

verus! {

/// What the dispatcher reads of one inbound event: the text of a message,
/// or the data carried by an interactive callback.
#[derive(Clone, Debug, PartialEq, Eq)]
pub struct PluginContext {
    pub message_text: Option<String>,
    pub callback_data: Option<String>,
}

impl PluginContext {
    pub fn new(message_text: Option<String>, callback_data: Option<String>) -> (r: PluginContext)
        ensures
            r.message_text == message_text,
            r.callback_data == callback_data,
    {
        PluginContext { message_text, callback_data }
    }

    /// The message text as a sequence of characters, if the event carries one.
    pub open spec fn text_view(&self) -> Option<Seq<char>> {
        match self.message_text {
            Some(t) => Some(t@),
            None => None,
        }
    }

    /// The callback payload as a sequence of characters, if the event carries one.
    pub open spec fn callback_view(&self) -> Option<Seq<char>> {
        match self.callback_data {
            Some(c) => Some(c@),
            None => None,
        }
    }
}

} // verus!
