//! The chat endpoint's rules: the session id, the system prompt, and the
//! final text picked out of the event stream.
use vstd::prelude::*;
use crate::text;
use crate::text::{chars_of, slice_chars, str_contains, string_from_chars, trim_vec};

verus! {

/// The session a request belongs to: the one it names, or `default`.
pub fn session_id_or_default(o: Option<String>) -> (r: String)
    ensures
        r@ == (match o {
            Some(s) => s@,
            None => "default"@,
        }),
{
    match o {
        Some(s) => s,
        None => String::from_str("default"),
    }
}

/// The system prompt: the base prompt, then the soul under its heading.
pub fn system_prompt(base: &str, soul: &str) -> (r: String)
    ensures
        r@ == base@ + "\n\n# Core Identity (Soul)\n\n"@ + soul@,
{
    let mut r = String::from_str(base);
    r.append("\n\n# Core Identity (Soul)\n\n");
    r.append(soul);
    r
}

/// `s` without any number of leading `p` (`trim_start_matches`).
pub open spec fn strip_all_prefix(s: Seq<char>, p: Seq<char>) -> Seq<char>
    decreases s.len(),
{
    if p.len() > 0 && text::is_prefix(p, s) {
        strip_all_prefix(s.skip(p.len() as int), p)
    } else {
        s
    }
}

/// Where an event line carries the turn's `full_text`, the JSON payload to
/// read it from: the line without leading `data: `, trimmed.
pub open spec fn spec_full_text_payload(line: Seq<char>) -> Option<Seq<char>> {
    if text::contains(line, "\"full_text\""@) {
        Some(text::trim(strip_all_prefix(line, "data: "@)))
    } else {
        None
    }
}

pub fn full_text_payload(line: &str) -> (r: Option<String>)
    ensures
        match r {
            Some(p) => spec_full_text_payload(line@) == Some(p@),
            None => spec_full_text_payload(line@) is None,
        },
{
    if !str_contains(line, "\"full_text\"") {
        return None;
    }
    let p = chars_of("data: ");
    let mut v = chars_of(line);
    proof {
        reveal_strlit("data: ");
    }
    assert(p@.len() == 6);
    loop
        invariant
            p@ == "data: "@,
            p@.len() == 6,
            strip_all_prefix(line@, p@) == strip_all_prefix(v@, p@),
        ensures
            strip_all_prefix(line@, p@) == v@,
        decreases v@.len(),
    {
        if text::starts_with_vec(&v, &p) {
            let rest = slice_chars(&v, p.len(), v.len());
            assert(rest@ =~= v@.skip(p@.len() as int));
            v = rest;
        } else {
            break ;
        }
    }
    let t = trim_vec(&v);
    Some(string_from_chars(&t))
}

/// The last message's content is replaced by a request's structured
/// content only where that message is the user's.
pub fn replaces_last_content(has_content: bool, last_role: Option<String>) -> (r: bool)
    ensures
        r == (has_content && last_role is Some && last_role->0@ == "user"@),
{
    has_content && match last_role {
        Some(role) => crate::text::str_eq(role.as_str(), "user"),
        None => false,
    }
}

} // verus!
