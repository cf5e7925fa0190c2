use vstd::prelude::*;

verus! {

/// One chat message, as the windowing logic reads it.
///
/// `timestamp` counts microseconds since the Unix epoch (UTC).
#[derive(Clone, Debug)]
pub struct Message {
    pub id: u64,
    pub content: String,
    pub timestamp: i64,
    pub author: u64,
    pub reference: Option<u64>,
}

impl Message {
    /// A field-by-field copy of the message.
    pub fn duplicate(&self) -> (r: Message)
        ensures
            r == *self,
    {
        Message {
            id: self.id,
            content: self.content.clone(),
            timestamp: self.timestamp,
            author: self.author,
            reference: self.reference,
        }
    }
}

/// One training example: the context that others wrote, and the reply
/// that followed it.
#[derive(Clone, Debug)]
pub struct Reply {
    pub prompt: String,
    pub reply: String,
}

impl View for Reply {
    type V = (Seq<char>, Seq<char>);

    open spec fn view(&self) -> (Seq<char>, Seq<char>) {
        (self.prompt@, self.reply@)
    }
}

} // verus!
