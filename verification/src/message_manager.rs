use vstd::prelude::*;

use crate::game::events::Message;
pub use crate::logic::MessageMeta;

verus! {

/// What a connection hands on: the text of a message, the connection
/// closing, or a connection opening, known by the given handle.
pub enum Content {
    Message(String),
    Close,
    Start(usize),
}

/// What a connection hands on, with its sender and room.
pub struct MessageContainer {
    pub meta: MessageMeta,
    pub message: Content,
}

impl MessageContainer {
    /// The room message this becomes, the text of a message read as the
    /// command `cmd`.
    pub fn into_room_message(self, cmd: Option<Message>) -> (r: crate::logic::MessageContainer)
        requires
            self.message is Message ==> cmd is Some,
        ensures
            r.meta.name@ == self.meta.name@,
            r.meta.room@ == self.meta.room@,
            match self.message {
                Content::Message(_) => r.message == crate::logic::Content::Message(cmd->Some_0),
                Content::Close => r.message == crate::logic::Content::Close,
                Content::Start(h) => r.message == crate::logic::Content::Start(h),
            },
    {
        let message = match self.message {
            Content::Message(_) => match cmd {
                Some(m) => crate::logic::Content::Message(m),
                None => crate::logic::Content::Close,
            },
            Content::Close => crate::logic::Content::Close,
            Content::Start(h) => crate::logic::Content::Start(h),
        };
        crate::logic::MessageContainer { meta: self.meta, message }
    }
}

} // verus!
