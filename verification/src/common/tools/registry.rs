//! The local tool registry: which tools run in-process, how a call's
//! arguments are read, and how results are reported.
use vstd::prelude::*;
use crate::text::str_eq;

verus! {

/// The names of the tools run in-process, in registry order.
pub open spec fn spec_local_tool_names() -> Seq<Seq<char>> {
    seq![
        "file_read"@,
        "file_write"@,
        "memory_append"@,
        "memory_search"@,
        "soul_read"@,
        "memory_topic_write"@,
        "memory_topic_read"@,
        "memory_topic_list"@,
        "reference_read"@,
        "reference_write"@,
        "reference_list"@,
        "reference_search"@,
    ]
}

/// Tool names that are handled locally (not forwarded to the automation
/// server).
pub fn local_tool_names() -> (r: &'static [&'static str])
    ensures
        r@.map_values(|s: &str| s@) == spec_local_tool_names(),
{
    let r: &'static [&'static str] = &[
        "file_read",
        "file_write",
        "memory_append",
        "memory_search",
        "soul_read",
        "memory_topic_write",
        "memory_topic_read",
        "memory_topic_list",
        "reference_read",
        "reference_write",
        "reference_list",
        "reference_search",
    ];
    assert(r@.map_values(|s: &str| s@) =~= spec_local_tool_names());
    r
}

/// `name` is one of the local tools.
pub fn is_local_tool(name: &str) -> (r: bool)
    ensures
        r == spec_local_tool_names().contains(name@),
{
    let names = local_tool_names();
    let mut i: usize = 0;
    while i < names.len()
        invariant
            i <= names@.len(),
            names@.map_values(|s: &str| s@) == spec_local_tool_names(),
            forall|j: int| 0 <= j < i ==> spec_local_tool_names()[j] != name@,
        decreases names@.len() - i,
    {
        assert(spec_local_tool_names()[i as int] == names@[i as int]@);
        if str_eq(names[i], name) {
            return true;
        }
        i = i + 1;
    }
    false
}

/// One argument of a tool call: its key, and its value where that is a
/// string.
#[derive(Debug)]
pub struct ToolArg {
    pub key: String,
    pub value: Option<String>,
}

/// The string argument `key` of a call: its value where it is a string,
/// else empty.
pub open spec fn spec_str_arg(args: Seq<ToolArg>, key: Seq<char>) -> Seq<char>
    decreases args.len(),
{
    if args.len() == 0 {
        seq![]
    } else if args.last().key@ == key {
        match args.last().value {
            Some(v) => v@,
            None => seq![],
        }
    } else {
        spec_str_arg(args.drop_last(), key)
    }
}

pub fn str_arg(args: &Vec<ToolArg>, key: &str) -> (r: String)
    ensures
        r@ == spec_str_arg(args@, key@),
{
    let mut i: usize = args.len();
    assert(args@.take(i as int) =~= args@);
    while i > 0
        invariant
            i <= args@.len(),
            spec_str_arg(args@, key@) == spec_str_arg(args@.take(i as int), key@),
        decreases i,
    {
        assert(args@.take(i as int).drop_last() =~= args@.take(i - 1));
        assert(args@.take(i as int).last() == args@[i - 1]);
        if str_eq(args[i - 1].key.as_str(), key) {
            return match &args[i - 1].value {
                Some(v) => v.clone(),
                None => String::new(),
            };
        }
        i = i - 1;
    }
    String::new()
}

/// A call of a local tool, with its arguments read.
#[derive(Debug)]
pub enum ToolCall {
    FileRead { path: String },
    FileWrite { path: String, content: String },
    MemoryAppend { text: String },
    MemorySearch { query: String },
    SoulRead,
    MemoryTopicWrite { topic: String, content: String },
    MemoryTopicRead { topic: String },
    MemoryTopicList,
    ReferenceRead { name: String },
    ReferenceWrite { name: String, content: String },
    ReferenceList,
    ReferenceSearch { query: String },
}

/// The call that tool `name` with `args` makes, or the error reported for
/// an unknown tool.
pub open spec fn spec_parse_call(name: Seq<char>, args: Seq<ToolArg>, c: ToolCall) -> bool {
    let a = |k: Seq<char>| spec_str_arg(args, k);
    match c {
        ToolCall::FileRead { path } => name == "file_read"@ && path@ == a("path"@),
        ToolCall::FileWrite { path, content } => name == "file_write"@ && path@ == a("path"@)
            && content@ == a("content"@),
        ToolCall::MemoryAppend { text } => name == "memory_append"@ && text@ == a("text"@),
        ToolCall::MemorySearch { query } => name == "memory_search"@ && query@ == a("query"@),
        ToolCall::SoulRead => name == "soul_read"@,
        ToolCall::MemoryTopicWrite { topic, content } => name == "memory_topic_write"@ && topic@
            == a("topic"@) && content@ == a("content"@),
        ToolCall::MemoryTopicRead { topic } => name == "memory_topic_read"@ && topic@ == a(
            "topic"@,
        ),
        ToolCall::MemoryTopicList => name == "memory_topic_list"@,
        ToolCall::ReferenceRead { name: n } => name == "reference_read"@ && n@ == a("name"@),
        ToolCall::ReferenceWrite { name: n, content } => name == "reference_write"@ && n@ == a(
            "name"@,
        ) && content@ == a("content"@),
        ToolCall::ReferenceList => name == "reference_list"@,
        ToolCall::ReferenceSearch { query } => name == "reference_search"@ && query@ == a(
            "query"@,
        ),
    }
}

/// Reads a local tool call. A name that is not a local tool gives
/// `Error: unknown local tool '<name>'`.
pub fn parse_call(name: &str, args: &Vec<ToolArg>) -> (r: Result<ToolCall, String>)
    ensures
        match r {
            Ok(c) => spec_parse_call(name@, args@, c),
            Err(e) => !spec_local_tool_names().contains(name@) && e@ == "Error: unknown local tool '"@
                + name@ + "'"@,
        },
{
    proof {
        assert(spec_local_tool_names()[0] == "file_read"@);
        assert(spec_local_tool_names()[1] == "file_write"@);
        assert(spec_local_tool_names()[2] == "memory_append"@);
        assert(spec_local_tool_names()[3] == "memory_search"@);
        assert(spec_local_tool_names()[4] == "soul_read"@);
        assert(spec_local_tool_names()[5] == "memory_topic_write"@);
        assert(spec_local_tool_names()[6] == "memory_topic_read"@);
        assert(spec_local_tool_names()[7] == "memory_topic_list"@);
        assert(spec_local_tool_names()[8] == "reference_read"@);
        assert(spec_local_tool_names()[9] == "reference_write"@);
        assert(spec_local_tool_names()[10] == "reference_list"@);
        assert(spec_local_tool_names()[11] == "reference_search"@);
    }
    if str_eq(name, "file_read") {
        Ok(ToolCall::FileRead { path: str_arg(args, "path") })
    } else if str_eq(name, "file_write") {
        Ok(ToolCall::FileWrite { path: str_arg(args, "path"), content: str_arg(args, "content") })
    } else if str_eq(name, "memory_append") {
        Ok(ToolCall::MemoryAppend { text: str_arg(args, "text") })
    } else if str_eq(name, "memory_search") {
        Ok(ToolCall::MemorySearch { query: str_arg(args, "query") })
    } else if str_eq(name, "soul_read") {
        Ok(ToolCall::SoulRead)
    } else if str_eq(name, "memory_topic_write") {
        Ok(
            ToolCall::MemoryTopicWrite {
                topic: str_arg(args, "topic"),
                content: str_arg(args, "content"),
            },
        )
    } else if str_eq(name, "memory_topic_read") {
        Ok(ToolCall::MemoryTopicRead { topic: str_arg(args, "topic") })
    } else if str_eq(name, "memory_topic_list") {
        Ok(ToolCall::MemoryTopicList)
    } else if str_eq(name, "reference_read") {
        Ok(ToolCall::ReferenceRead { name: str_arg(args, "name") })
    } else if str_eq(name, "reference_write") {
        Ok(ToolCall::ReferenceWrite { name: str_arg(args, "name"), content: str_arg(args, "content") })
    } else if str_eq(name, "reference_list") {
        Ok(ToolCall::ReferenceList)
    } else if str_eq(name, "reference_search") {
        Ok(ToolCall::ReferenceSearch { query: str_arg(args, "query") })
    } else {
        assert(!spec_local_tool_names().contains(name@));
        let mut e = String::from_str("Error: unknown local tool '");
        e.append(name);
        e.append("'");
        Err(e)
    }
}

/// A tool's result as the model sees it: the text, or `Error: <message>`.
pub fn result_text(r: Result<String, String>) -> (s: String)
    ensures
        match r {
            Ok(t) => s@ == t@,
            Err(e) => s@ == "Error: "@ + e@,
        },
{
    match r {
        Ok(t) => t,
        Err(e) => {
            let mut s = String::from_str("Error: ");
            s.append(e.as_str());
            s
        },
    }
}


// ---------------------------------------------------------------
// Schemas

/// A tool as offered to the model: its name, its description and the JSON
/// schema of its parameters (as JSON text).
#[derive(Debug)]
pub struct ToolSpec {
    pub name: &'static str,
    pub description: &'static str,
    pub parameters: &'static str,
}

pub open spec fn spec_tools_schema() -> Seq<(Seq<char>, Seq<char>, Seq<char>)> {
    seq![
        (r#"file_read"#@, r#"Read a small text file from the workspace."#@, r#"{"type":"object","properties":{"path":{"type":"string","description":"Relative path to the file."}},"required":["path"]}"#@),
        (r#"file_write"#@, r#"Overwrite or create a text file."#@, r#"{"type":"object","properties":{"path":{"type":"string"},"content":{"type":"string"}},"required":["path","content"]}"#@),
        (r#"memory_append"#@, r#"Append a note to today's daily memory file."#@, r#"{"type":"object","properties":{"text":{"type":"string"}},"required":["text"]}"#@),
        (r#"memory_search"#@, r#"Search daily and topic memory files for a query."#@, r#"{"type":"object","properties":{"query":{"type":"string"}},"required":["query"]}"#@),
        (r#"soul_read"#@, r#"Read all Layer 1 soul files (identity, agents, user profile)."#@, r#"{"type":"object","properties":{}}"#@),
        (r#"memory_topic_write"#@, r#"Write or overwrite a topic summary in Layer 2 memory."#@, r#"{"type":"object","properties":{"topic":{"type":"string"},"content":{"type":"string"}},"required":["topic","content"]}"#@),
        (r#"memory_topic_read"#@, r#"Read a specific topic file from Layer 2 memory."#@, r#"{"type":"object","properties":{"topic":{"type":"string"}},"required":["topic"]}"#@),
        (r#"memory_topic_list"#@, r#"List all topic files in Layer 2 memory."#@, r#"{"type":"object","properties":{}}"#@),
        (r#"reference_read"#@, r#"Read a document from the Layer 3 reference library."#@, r#"{"type":"object","properties":{"name":{"type":"string"}},"required":["name"]}"#@),
        (r#"reference_write"#@, r#"Write or overwrite a document in the Layer 3 reference library."#@, r#"{"type":"object","properties":{"name":{"type":"string"},"content":{"type":"string"}},"required":["name","content"]}"#@),
        (r#"reference_list"#@, r#"List all documents in the Layer 3 reference library."#@, r#"{"type":"object","properties":{}}"#@),
        (r#"reference_search"#@, r#"Search lines in Layer 3 reference documents."#@, r#"{"type":"object","properties":{"query":{"type":"string"}},"required":["query"]}"#@),
        (r#"gmail_inbox"#@, r#"Get recent emails from Gmail inbox."#@, r#"{"type":"object","properties":{"max_results":{"type":"integer","description":"Max emails to return (default 15)."}}}"#@),
        (r#"gmail_send"#@, r#"Send an email via Gmail."#@, r#"{"type":"object","properties":{"to":{"type":"string"},"subject":{"type":"string"},"body":{"type":"string"}},"required":["to","subject","body"]}"#@),
        (r#"gmail_search"#@, r#"Search Gmail using query syntax (e.g. 'is:unread', 'from:bob')."#@, r#"{"type":"object","properties":{"query":{"type":"string"},"max_results":{"type":"integer"}},"required":["query"]}"#@),
        (r#"web_search"#@, r#"Search the web via Google and return top results."#@, r#"{"type":"object","properties":{"query":{"type":"string"}},"required":["query"]}"#@),
        (r#"web_fetch"#@, r#"Fetch a URL and return its main text content."#@, r#"{"type":"object","properties":{"url":{"type":"string"}},"required":["url"]}"#@),
        (r#"linkedin_feed"#@, r#"Get recent LinkedIn feed posts."#@, r#"{"type":"object","properties":{}}"#@),
        (r#"linkedin_like"#@, r#"Like a LinkedIn feed post by index. Use dry_run=true to preview."#@, r#"{"type":"object","properties":{"post_index":{"type":"integer"},"dry_run":{"type":"boolean"}},"required":["post_index"]}"#@),
        (r#"web_research"#@, r#"Research a topic using Perplexity AI (web-grounded, no browser needed)."#@, r#"{"type":"object","properties":{"query":{"type":"string"}},"required":["query"]}"#@),
    ]
}

/// The local tools are offered to the model first, in registry order; every
/// other offered tool goes to the automation server.
pub proof fn law_local_tools_offered_first()
    ensures
        spec_tools_schema().len() >= spec_local_tool_names().len(),
        forall|i: int|
            0 <= i < spec_local_tool_names().len() ==> #[trigger] spec_tools_schema()[i].0
                == spec_local_tool_names()[i],
        forall|i: int|
            spec_local_tool_names().len() <= i < spec_tools_schema().len()
                ==> !spec_local_tool_names().contains(#[trigger] spec_tools_schema()[i].0),
{
    let names = spec_local_tool_names();
    let specs = spec_tools_schema();
    assert forall|i: int| 0 <= i < names.len() implies #[trigger] specs[i].0 == names[i] by {}
    assert forall|i: int| names.len() <= i < specs.len() implies !names.contains(
        #[trigger] specs[i].0,
    ) by {
        assert(specs[i].0.len() > 0 && (specs[i].0[0] == 'g' || specs[i].0[0] == 'w'
            || specs[i].0[0] == 'l')) by {
            reveal_strlit("gmail_inbox");
            reveal_strlit("gmail_send");
            reveal_strlit("gmail_search");
            reveal_strlit("web_search");
            reveal_strlit("web_fetch");
            reveal_strlit("linkedin_feed");
            reveal_strlit("linkedin_like");
            reveal_strlit("web_research");
        }
        assert forall|j: int| 0 <= j < names.len() implies names[j] != specs[i].0 by {
            assert(names[j].len() > 0 && (names[j][0] == 'f' || names[j][0] == 'm' || names[j][0]
                == 's' || names[j][0] == 'r')) by {
                reveal_strlit("file_read");
                reveal_strlit("file_write");
                reveal_strlit("memory_append");
                reveal_strlit("memory_search");
                reveal_strlit("soul_read");
                reveal_strlit("memory_topic_write");
                reveal_strlit("memory_topic_read");
                reveal_strlit("memory_topic_list");
                reveal_strlit("reference_read");
                reveal_strlit("reference_write");
                reveal_strlit("reference_list");
                reveal_strlit("reference_search");
            }
        }
    }
}

/// No two offered tools share a name.
#[verifier::rlimit(60)]
pub proof fn law_tool_names_distinct()
    ensures
        forall|i: int, j: int|
            0 <= i < j < spec_tools_schema().len() ==> #[trigger] spec_tools_schema()[i].0
                != #[trigger] spec_tools_schema()[j].0,
{
    let specs = spec_tools_schema();
    assert forall|i: int, j: int| 0 <= i < j < specs.len() implies #[trigger] specs[i].0
        != #[trigger] specs[j].0 by {
        reveal_strlit("file_read");
        reveal_strlit("file_write");
        reveal_strlit("memory_append");
        reveal_strlit("memory_search");
        reveal_strlit("soul_read");
        reveal_strlit("memory_topic_write");
        reveal_strlit("memory_topic_read");
        reveal_strlit("memory_topic_list");
        reveal_strlit("reference_read");
        reveal_strlit("reference_write");
        reveal_strlit("reference_list");
        reveal_strlit("reference_search");
        reveal_strlit("gmail_inbox");
        reveal_strlit("gmail_send");
        reveal_strlit("gmail_search");
        reveal_strlit("web_search");
        reveal_strlit("web_fetch");
        reveal_strlit("linkedin_feed");
        reveal_strlit("linkedin_like");
        reveal_strlit("web_research");
        assert(specs[i].0.len() != specs[j].0.len() || specs[i].0[0] != specs[j].0[0]
            || specs[i].0.last() != specs[j].0.last());
    }
}

pub open spec fn ts_view(t: ToolSpec) -> (Seq<char>, Seq<char>, Seq<char>) {
    (t.name@, t.description@, t.parameters@)
}

/// Every tool offered to the model, local and forwarded, in the order they
/// are offered.
pub fn get_tools_schema() -> (r: Vec<ToolSpec>)
    ensures
        r@.map_values(|t: ToolSpec| ts_view(t)) == spec_tools_schema(),
{
    let r: Vec<ToolSpec> = vec![
        ToolSpec { name: r#"file_read"#, description: r#"Read a small text file from the workspace."#, parameters: r#"{"type":"object","properties":{"path":{"type":"string","description":"Relative path to the file."}},"required":["path"]}"# },
        ToolSpec { name: r#"file_write"#, description: r#"Overwrite or create a text file."#, parameters: r#"{"type":"object","properties":{"path":{"type":"string"},"content":{"type":"string"}},"required":["path","content"]}"# },
        ToolSpec { name: r#"memory_append"#, description: r#"Append a note to today's daily memory file."#, parameters: r#"{"type":"object","properties":{"text":{"type":"string"}},"required":["text"]}"# },
        ToolSpec { name: r#"memory_search"#, description: r#"Search daily and topic memory files for a query."#, parameters: r#"{"type":"object","properties":{"query":{"type":"string"}},"required":["query"]}"# },
        ToolSpec { name: r#"soul_read"#, description: r#"Read all Layer 1 soul files (identity, agents, user profile)."#, parameters: r#"{"type":"object","properties":{}}"# },
        ToolSpec { name: r#"memory_topic_write"#, description: r#"Write or overwrite a topic summary in Layer 2 memory."#, parameters: r#"{"type":"object","properties":{"topic":{"type":"string"},"content":{"type":"string"}},"required":["topic","content"]}"# },
        ToolSpec { name: r#"memory_topic_read"#, description: r#"Read a specific topic file from Layer 2 memory."#, parameters: r#"{"type":"object","properties":{"topic":{"type":"string"}},"required":["topic"]}"# },
        ToolSpec { name: r#"memory_topic_list"#, description: r#"List all topic files in Layer 2 memory."#, parameters: r#"{"type":"object","properties":{}}"# },
        ToolSpec { name: r#"reference_read"#, description: r#"Read a document from the Layer 3 reference library."#, parameters: r#"{"type":"object","properties":{"name":{"type":"string"}},"required":["name"]}"# },
        ToolSpec { name: r#"reference_write"#, description: r#"Write or overwrite a document in the Layer 3 reference library."#, parameters: r#"{"type":"object","properties":{"name":{"type":"string"},"content":{"type":"string"}},"required":["name","content"]}"# },
        ToolSpec { name: r#"reference_list"#, description: r#"List all documents in the Layer 3 reference library."#, parameters: r#"{"type":"object","properties":{}}"# },
        ToolSpec { name: r#"reference_search"#, description: r#"Search lines in Layer 3 reference documents."#, parameters: r#"{"type":"object","properties":{"query":{"type":"string"}},"required":["query"]}"# },
        ToolSpec { name: r#"gmail_inbox"#, description: r#"Get recent emails from Gmail inbox."#, parameters: r#"{"type":"object","properties":{"max_results":{"type":"integer","description":"Max emails to return (default 15)."}}}"# },
        ToolSpec { name: r#"gmail_send"#, description: r#"Send an email via Gmail."#, parameters: r#"{"type":"object","properties":{"to":{"type":"string"},"subject":{"type":"string"},"body":{"type":"string"}},"required":["to","subject","body"]}"# },
        ToolSpec { name: r#"gmail_search"#, description: r#"Search Gmail using query syntax (e.g. 'is:unread', 'from:bob')."#, parameters: r#"{"type":"object","properties":{"query":{"type":"string"},"max_results":{"type":"integer"}},"required":["query"]}"# },
        ToolSpec { name: r#"web_search"#, description: r#"Search the web via Google and return top results."#, parameters: r#"{"type":"object","properties":{"query":{"type":"string"}},"required":["query"]}"# },
        ToolSpec { name: r#"web_fetch"#, description: r#"Fetch a URL and return its main text content."#, parameters: r#"{"type":"object","properties":{"url":{"type":"string"}},"required":["url"]}"# },
        ToolSpec { name: r#"linkedin_feed"#, description: r#"Get recent LinkedIn feed posts."#, parameters: r#"{"type":"object","properties":{}}"# },
        ToolSpec { name: r#"linkedin_like"#, description: r#"Like a LinkedIn feed post by index. Use dry_run=true to preview."#, parameters: r#"{"type":"object","properties":{"post_index":{"type":"integer"},"dry_run":{"type":"boolean"}},"required":["post_index"]}"# },
        ToolSpec { name: r#"web_research"#, description: r#"Research a topic using Perplexity AI (web-grounded, no browser needed)."#, parameters: r#"{"type":"object","properties":{"query":{"type":"string"}},"required":["query"]}"# },
    ];
    assert(r@.map_values(|t: ToolSpec| ts_view(t)) =~= spec_tools_schema());
    r
}

} // verus!
