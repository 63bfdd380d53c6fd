//! The terminal agent's decisions on a model reply.
use vstd::prelude::*;
use crate::server_llm::anthropic_stream::{
    self, ReplyBlock, ToolUse, opt_is, reply_text, tool_uses,
};

verus! {

/// What the terminal agent does with a reply.
#[derive(Debug)]
pub enum CliOutcome {
    /// The final answer: print it, and add it to the conversation as the
    /// assistant's message.
    Reply(String),
    /// The request failed: print this and leave the conversation as it is.
    Failed(String),
    /// Run these tools and ask again.
    Tools(Vec<ToolUse>),
}

/// An error reply is shown as `API error: <message>`; a stop reason other
/// than `tool_use` ends the turn with the reply text; otherwise the tool
/// calls run.
pub fn cli_outcome(error: &Option<String>, stop_reason: &Option<String>, blocks: &Vec<ReplyBlock>) -> (r:
    CliOutcome)
    ensures
        match r {
            CliOutcome::Failed(t) => error matches Some(e) && t@ == "API error: "@ + e@,
            CliOutcome::Reply(t) => error is None && !opt_is(*stop_reason, "tool_use"@) && t@
                == anthropic_stream::spec_reply_text(blocks@),
            CliOutcome::Tools(ts) => error is None && opt_is(*stop_reason, "tool_use"@)
                && ts@.map_values(|t: ToolUse| anthropic_stream::tu_view(t))
                == anthropic_stream::spec_tool_uses(blocks@),
        },
{
    match error {
        Some(e) => {
            let mut t = String::from_str("API error: ");
            t.append(e.as_str());
            CliOutcome::Failed(t)
        },
        None => {
            let is_tools = match stop_reason {
                Some(s) => crate::text::str_eq(s.as_str(), "tool_use"),
                None => false,
            };
            if is_tools {
                CliOutcome::Tools(tool_uses(blocks))
            } else {
                CliOutcome::Reply(reply_text(blocks))
            }
        },
    }
}

/// What a line typed at the prompt asks for.
#[derive(Debug)]
pub enum ReplInput {
    /// Nothing: prompt again.
    Skip,
    /// `exit` or `quit`: leave.
    Quit,
    /// A message to the agent: the line trimmed.
    Message(String),
}

pub fn repl_input(line: &str) -> (r: ReplInput)
    ensures
        match r {
            ReplInput::Skip => crate::text::trim(line@).len() == 0,
            ReplInput::Quit => crate::text::trim(line@) == "exit"@ || crate::text::trim(line@)
                == "quit"@,
            ReplInput::Message(m) => m@ == crate::text::trim(line@) && m@.len() > 0 && m@ != "exit"@
                && m@ != "quit"@,
        },
{
    let t = crate::text::trim_str(line);
    let v = crate::text::chars_of(t.as_str());
    if v.len() == 0 {
        ReplInput::Skip
    } else if crate::text::str_eq(t.as_str(), "exit") || crate::text::str_eq(t.as_str(), "quit") {
        ReplInput::Quit
    } else {
        ReplInput::Message(t)
    }
}

/// `Error: <message>`.
pub fn error_text(message: &str) -> (r: String)
    ensures
        r@ == "Error: "@ + message@,
{
    let mut r = String::from_str("Error: ");
    r.append(message);
    r
}

/// The result of a forwarded tool call that failed.
pub fn remote_tool_error(message: &str) -> (r: String)
    ensures
        r@ == "Error calling server_auto: "@ + message@,
{
    let mut r = String::from_str("Error calling server_auto: ");
    r.append(message);
    r
}

/// The reply when the tool loop runs out of rounds.
pub fn max_rounds_reply() -> (r: String)
    ensures
        r@ == "Error: tool call loop exceeded max rounds"@,
{
    String::from_str("Error: tool call loop exceeded max rounds")
}

} // verus!
