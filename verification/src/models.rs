//! Shared data: chat messages and the chat request.
use vstd::prelude::*;

verus! {

/// One chat message: a role (`user` / `assistant` / `system`) and its text.
pub struct ChatMessage {
    pub role: String,
    pub content: String,
}

impl ChatMessage {
    /// A message with the given role and text.
    pub fn new(role: String, content: String) -> (res: Self)
        ensures
            res.role@ == role@,
            res.content@ == content@,
    {
        ChatMessage { role, content }
    }
}

impl Clone for ChatMessage {
    fn clone(&self) -> (res: Self)
        ensures
            res.role@ == self.role@,
            res.content@ == self.content@,
    {
        ChatMessage { role: self.role.clone(), content: self.content.clone() }
    }
}

/// A chat request from the front end: the whole conversation, oldest first.
pub struct ChatRequest {
    pub messages: Vec<ChatMessage>,
}

} // verus!
