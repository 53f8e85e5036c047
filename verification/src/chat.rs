//! A minimal role-tagged chat vocabulary.
//!
//! Beside the canonical message model, the simple chat surface speaks in
//! role-tagged messages and flat streaming chunks. Both live here, with the
//! role names pinned to their wire spellings.

use vstd::prelude::*;

verus! {

/// Who speaks a chat message.
pub enum MessageRole {
    User,
    Assistant,
    System,
}

impl MessageRole {
    /// The wire spelling of the assistant role.
    pub fn assistant() -> (r: &'static str)
        ensures
            r@ == "assistant"@,
    {
        "assistant"
    }

    /// The wire spelling of the user role.
    pub fn user() -> (r: &'static str)
        ensures
            r@ == "user"@,
    {
        "user"
    }

    /// The wire spelling of the system role.
    pub fn system() -> (r: &'static str)
        ensures
            r@ == "system"@,
    {
        "system"
    }

    /// This role's wire spelling.
    pub fn as_str(&self) -> (r: &'static str)
        ensures
            r@ == self.spec_str(),
    {
        match self {
            MessageRole::User => "user",
            MessageRole::Assistant => "assistant",
            MessageRole::System => "system",
        }
    }

    /// The wire spelling of each role.
    pub open spec fn spec_str(&self) -> Seq<char> {
        match self {
            MessageRole::User => "user"@,
            MessageRole::Assistant => "assistant"@,
            MessageRole::System => "system"@,
        }
    }
}

impl core::str::FromStr for MessageRole {
    type Err = ();

    /// The role a wire spelling names, if any.
    fn from_str(role: &str) -> Result<MessageRole, ()> {
        let owned = role.to_owned();
        if owned == MessageRole::user().to_owned() {
            Ok(MessageRole::User)
        } else if owned == MessageRole::assistant().to_owned() {
            Ok(MessageRole::Assistant)
        } else if owned == MessageRole::system().to_owned() {
            Ok(MessageRole::System)
        } else {
            Err(())
        }
    }
}

/// A role-tagged chat message with an optional continuation id.
pub struct ChatMessage {
    pub role: MessageRole,
    pub content: String,
    pub response_id: Option<String>,
}

impl ChatMessage {
    /// A user message.
    pub fn create_user_message(content: &str, response_id: Option<String>) -> (r: ChatMessage)
        ensures
            r.role is User,
            r.content@ == content@,
            r.response_id.deep_view() == response_id.deep_view(),
    {
        ChatMessage { role: MessageRole::User, content: content.to_owned(), response_id }
    }

    /// A system message.
    pub fn create_system_message(content: &str, response_id: Option<String>) -> (r: ChatMessage)
        ensures
            r.role is System,
            r.content@ == content@,
            r.response_id.deep_view() == response_id.deep_view(),
    {
        ChatMessage { role: MessageRole::System, content: content.to_owned(), response_id }
    }

    /// An assistant message.
    pub fn create_assistant_message(content: &str, response_id: Option<String>) -> (r: ChatMessage)
        ensures
            r.role is Assistant,
            r.content@ == content@,
            r.response_id.deep_view() == response_id.deep_view(),
    {
        ChatMessage { role: MessageRole::Assistant, content: content.to_owned(), response_id }
    }
}

/// The unified parameters of a provider client.
pub struct LlmConfig {
    pub model: String,
}

/// One provider entry of the catalog a service reports: an identifier, the
/// provider's name, and its models.
pub struct LlmProvider {
    pub id: String,
    pub llm: String,
    pub models: Vec<String>,
}

/// One chunk of a streamed chat answer; a stream ends at the first chunk
/// whose `is_final` is true.
pub struct ChatResponseChunk {
    pub content: String,
    pub thinking: String,
    pub is_final: bool,
}

impl ChatResponseChunk {
    /// An empty, non-final chunk.
    pub fn default() -> (r: ChatResponseChunk)
        ensures
            r.content@ == Seq::<char>::empty(),
            r.thinking@ == Seq::<char>::empty(),
            !r.is_final,
    {
        ChatResponseChunk { content: String::new(), thinking: String::new(), is_final: false }
    }

    /// The terminal chunk.
    pub fn stop() -> (r: ChatResponseChunk)
        ensures
            r.content@ == Seq::<char>::empty(),
            r.thinking@ == Seq::<char>::empty(),
            r.is_final,
    {
        ChatResponseChunk { content: String::new(), thinking: String::new(), is_final: true }
    }

    /// A non-final chunk carrying text and, possibly, thinking text.
    pub fn content(content: String, thinking: String) -> (r: ChatResponseChunk)
        ensures
            r.content@ == content@,
            r.thinking@ == thinking@,
            !r.is_final,
    {
        ChatResponseChunk { content, thinking, is_final: false }
    }
}

} // verus!
