//! Chat message types.
use vstd::prelude::*;

verus! {

/// The content of a chat message: a plain string, or any other JSON value
/// kept as its JSON text.
#[derive(Debug)]
pub enum MessageContent {
    Text(String),
    Json(String),
}

/// A chat message as the session history keeps it.
#[derive(Debug)]
pub struct ChatMessage {
    pub role: String,
    pub content: MessageContent,
    /// The `tool_calls` value as JSON text, where present.
    pub tool_calls: Option<String>,
    pub tool_call_id: Option<String>,
    pub name: Option<String>,
}

/// `m` is a message with role `role`, text content `content`, and no tool
/// fields.
pub open spec fn is_text_message(m: ChatMessage, role: Seq<char>, content: Seq<char>) -> bool {
    &&& m.role@ == role
    &&& m.content matches MessageContent::Text(t) && t@ == content
    &&& m.tool_calls is None
    &&& m.tool_call_id is None
    &&& m.name is None
}

fn clone_opt(o: &Option<String>) -> (r: Option<String>)
    ensures
        r == *o,
{
    match o {
        Some(s) => Some(s.clone()),
        None => None,
    }
}

impl ChatMessage {
    /// A text message with the given role.
    pub fn text(role: &str, content: &str) -> (r: ChatMessage)
        ensures
            r.role@ == role@,
            r.content matches MessageContent::Text(t) && t@ == content@,
            r.tool_calls is None,
            r.tool_call_id is None,
            r.name is None,
    {
        ChatMessage {
            role: String::from_str(role),
            content: MessageContent::Text(String::from_str(content)),
            tool_calls: None,
            tool_call_id: None,
            name: None,
        }
    }

    pub fn copy(&self) -> (r: ChatMessage)
        ensures
            r == *self,
    {
        ChatMessage {
            role: self.role.clone(),
            content: match &self.content {
                MessageContent::Text(t) => MessageContent::Text(t.clone()),
                MessageContent::Json(t) => MessageContent::Json(t.clone()),
            },
            tool_calls: clone_opt(&self.tool_calls),
            tool_call_id: clone_opt(&self.tool_call_id),
            name: clone_opt(&self.name),
        }
    }
}

/// A copy of a message list.
pub fn copy_messages(v: &Vec<ChatMessage>) -> (r: Vec<ChatMessage>)
    ensures
        r@ == v@,
{
    let mut r: Vec<ChatMessage> = Vec::new();
    let mut i: usize = 0;
    while i < v.len()
        invariant
            i <= v@.len(),
            r@ == v@.take(i as int),
        decreases v@.len() - i,
    {
        r.push(v[i].copy());
        assert(r@ =~= v@.take(i + 1));
        i = i + 1;
    }
    assert(v@.take(v@.len() as int) =~= v@);
    r
}

} // verus!
