//! The chat model protocol: splitting a server-sent event stream into lines,
//! following the content blocks of a streamed reply, and the decisions of
//! the tool-call loop.
use vstd::prelude::*;
use crate::text;
use crate::codec;
use crate::text::{chars_of, push_char, slice_chars, str_contains, str_eq, str_starts_with, string_from_chars};

verus! {

/// Rounds of tool use in one chat turn.
pub const MAX_TOOL_ROUNDS: usize = 10;

// ---------------------------------------------------------------
// Event-stream lines

/// `s` without its trailing carriage returns (`trim_end_matches('\r')`).
pub open spec fn trim_crs(s: Seq<char>) -> Seq<char>
    decreases s.len(),
{
    if s.len() > 0 && s.last() == '\r' {
        trim_crs(s.drop_last())
    } else {
        s
    }
}

/// The complete lines of `s` read after `cur`, each without trailing
/// carriage returns, and what follows the last newline.
pub open spec fn complete_lines(s: Seq<char>, cur: Seq<char>) -> (Seq<Seq<char>>, Seq<char>)
    decreases s.len(),
{
    if s.len() == 0 {
        (seq![], cur)
    } else if s[0] == '\n' {
        let rest = complete_lines(s.drop_first(), seq![]);
        (seq![trim_crs(cur)] + rest.0, rest.1)
    } else {
        complete_lines(s.drop_first(), cur.push(s[0]))
    }
}

pub open spec fn no_newline(s: Seq<char>) -> bool {
    forall|i: int| 0 <= i < s.len() ==> s[i] != '\n'
}

/// Reading `x` then `y` gives the lines of `x`, then those of `y` read
/// after what `x` left over.
pub proof fn lemma_complete_lines_concat(x: Seq<char>, y: Seq<char>, cur: Seq<char>)
    ensures
        complete_lines(x + y, cur) == ({
            let a = complete_lines(x, cur);
            let b = complete_lines(y, a.1);
            (a.0 + b.0, b.1)
        }),
    decreases x.len(),
{
    if x.len() == 0 {
        assert(x + y =~= y);
        assert(Seq::<Seq<char>>::empty() + complete_lines(y, cur).0 =~= complete_lines(y, cur).0);
    } else {
        assert((x + y).drop_first() =~= x.drop_first() + y);
        assert((x + y)[0] == x[0]);
        if x[0] == '\n' {
            lemma_complete_lines_concat(x.drop_first(), y, seq![]);
            let a = complete_lines(x.drop_first(), seq![]);
            let b = complete_lines(y, a.1);
            assert(seq![trim_crs(cur)] + (a.0 + b.0) =~= (seq![trim_crs(cur)] + a.0) + b.0);
        } else {
            lemma_complete_lines_concat(x.drop_first(), y, cur.push(x[0]));
        }
    }
}

/// Text read after a partial line without newline is read as if that
/// partial line came first.
pub proof fn lemma_complete_lines_prefix(s: Seq<char>, cur: Seq<char>)
    requires
        no_newline(cur),
    ensures
        complete_lines(cur + s, seq![]) == complete_lines(s, cur),
    decreases cur.len(),
{
    if cur.len() == 0 {
        assert(cur + s =~= s);
        assert(cur =~= Seq::<char>::empty());
    } else {
        let c0 = cur.drop_last();
        let c = cur.last();
        assert(cur + s =~= c0 + (seq![c] + s));
        assert(no_newline(c0)) by {
            assert forall|i: int| 0 <= i < c0.len() implies c0[i] != '\n' by {
                assert(c0[i] == cur[i]);
            }
        }
        assert(c != '\n') by {
            assert(cur[cur.len() - 1] == c);
        }
        lemma_complete_lines_prefix(seq![c] + s, c0);
        assert((seq![c] + s)[0] == c);
        assert((seq![c] + s).drop_first() =~= s);
        assert(c0.push(c) =~= cur);
        assert(complete_lines(seq![c] + s, c0) == complete_lines(s, c0.push(c)));
    }
}

/// The undelivered tail of an event stream: the text after the last
/// newline seen so far.
pub struct LineBuffer {
    pub buf: Vec<char>,
}

impl LineBuffer {
    pub open spec fn wf(&self) -> bool {
        no_newline(self.buf@)
    }

    pub fn new() -> (r: LineBuffer)
        ensures
            r.buf@ == Seq::<char>::empty(),
            r.wf(),
    {
        LineBuffer { buf: Vec::new() }
    }

    /// Adds text to the stream and hands back the lines it completes, each
    /// without trailing carriage returns; the rest stays buffered.
    pub fn push_text(&mut self, chunk: &str) -> (r: Vec<Vec<char>>)
        requires
            old(self).wf(),
        ensures
            final(self).wf(),
            text::views(r@) == complete_lines(chunk@, old(self).buf@).0,
            final(self).buf@ == complete_lines(chunk@, old(self).buf@).1,
    {
        let v = chars_of(chunk);
        let n: usize = v.len();
        let mut out: Vec<Vec<char>> = Vec::new();
        let mut i: usize = 0;
        let ghost total = complete_lines(v@, self.buf@);
        assert(v@.skip(0) =~= v@);
        assert(text::views(out@) =~= Seq::<Seq<char>>::empty());
        while i < n
            invariant
                i <= n == v@.len(),
                total == complete_lines(v@, old(self).buf@),
                no_newline(self.buf@),
                total.0 == text::views(out@) + complete_lines(v@.skip(i as int), self.buf@).0,
                total.1 == complete_lines(v@.skip(i as int), self.buf@).1,
            decreases n - i,
        {
            let ghost rest = v@.skip(i as int);
            assert(rest[0] == v@[i as int]);
            assert(rest.drop_first() =~= v@.skip(i + 1));
            let c = v[i];
            if c == '\n' {
                let mut k: usize = self.buf.len();
                assert(self.buf@.take(k as int) =~= self.buf@);
                while k > 0 && self.buf[k - 1] == '\r'
                    invariant
                        k <= self.buf@.len(),
                        trim_crs(self.buf@) == trim_crs(self.buf@.take(k as int)),
                    decreases k,
                {
                    assert(self.buf@.take(k as int).drop_last() =~= self.buf@.take(k - 1));
                    k = k - 1;
                }
                let line = slice_chars(&self.buf, 0, k);
                assert(line@ =~= self.buf@.take(k as int));
                let ghost o = out@;
                out.push(line);
                assert(text::views(out@) =~= text::views(o) + seq![trim_crs(self.buf@)]);
                self.buf = Vec::new();
                assert(self.buf@ =~= Seq::<char>::empty());
                assert(total.0 =~= text::views(out@) + complete_lines(v@.skip(i + 1), self.buf@).0);
            } else {
                self.buf.push(c);
            }
            i = i + 1;
        }
        assert(v@.skip(n as int) =~= Seq::<char>::empty());
        assert(total.0 =~= text::views(out@));
        out
    }

    /// Adds a chunk of bytes, each chunk read as lossy UTF-8 on its own.
    pub fn push_bytes(&mut self, chunk: &[u8]) -> (r: Vec<Vec<char>>)
        requires
            old(self).wf(),
        ensures
            final(self).wf(),
            text::views(r@) == complete_lines(codec::spec_utf8_lossy(chunk@), old(self).buf@).0,
            final(self).buf@ == complete_lines(codec::spec_utf8_lossy(chunk@), old(self).buf@).1,
    {
        let s = codec::utf8_lossy(chunk);
        self.push_text(s.as_str())
    }
}

/// How the stream is cut into chunks does not change the lines read: two
/// pushes give the lines of one push of both chunks, and leave the same
/// text buffered.
pub proof fn law_chunking_independent(buf: Seq<char>, c1: Seq<char>, c2: Seq<char>)
    requires
        no_newline(buf),
    ensures
        ({
            let a = complete_lines(c1, buf);
            let b = complete_lines(c2, a.1);
            let whole = complete_lines(c1 + c2, buf);
            a.0 + b.0 == whole.0 && b.1 == whole.1
        }),
{
    lemma_complete_lines_concat(c1, c2, buf);
}

/// The lines of an event stream do not depend on where it was cut: what a
/// reader gives, read from an empty buffer, is `complete_lines(s, [])`.
pub proof fn law_buffered_prefix(buf: Seq<char>, s: Seq<char>)
    requires
        no_newline(buf),
    ensures
        complete_lines(buf + s, seq![]) == complete_lines(s, buf),
{
    lemma_complete_lines_prefix(s, buf);
}

proof fn lemma_trim_crs_no_newline(s: Seq<char>)
    requires
        no_newline(s),
    ensures
        no_newline(trim_crs(s)),
    decreases s.len(),
{
    if s.len() > 0 && s.last() == '\r' {
        assert(no_newline(s.drop_last())) by {
            assert forall|i: int| 0 <= i < s.drop_last().len() implies s.drop_last()[i] != '\n' by {
                assert(s.drop_last()[i] == s[i]);
            }
        }
        lemma_trim_crs_no_newline(s.drop_last());
    }
}

/// The lines an event stream is cut into hold no newline, and none ends in
/// a carriage return; nor does what stays buffered hold a newline.
pub proof fn law_lines_are_single(s: Seq<char>, cur: Seq<char>)
    requires
        no_newline(cur),
    ensures
        forall|k: int|
            0 <= k < complete_lines(s, cur).0.len() ==> no_newline(
                #[trigger] complete_lines(s, cur).0[k],
            ) && (complete_lines(s, cur).0[k].len() == 0 || complete_lines(s, cur).0[k].last()
                != '\r'),
        no_newline(complete_lines(s, cur).1),
    decreases s.len(),
{
    if s.len() > 0 {
        if s[0] == '\n' {
            law_lines_are_single(s.drop_first(), seq![]);
            lemma_trim_crs_no_newline(cur);
            lemma_trim_crs_last(cur);
            let rest = complete_lines(s.drop_first(), seq![]);
            assert forall|k: int| 0 <= k < complete_lines(s, cur).0.len() implies no_newline(
                #[trigger] complete_lines(s, cur).0[k],
            ) && (complete_lines(s, cur).0[k].len() == 0 || complete_lines(s, cur).0[k].last()
                != '\r') by {
                if k > 0 {
                    assert(complete_lines(s, cur).0[k] == rest.0[k - 1]);
                }
            }
        } else {
            let c = cur.push(s[0]);
            assert(no_newline(c)) by {
                assert forall|i: int| 0 <= i < c.len() implies c[i] != '\n' by {
                    if i < cur.len() {
                        assert(c[i] == cur[i]);
                    }
                }
            }
            law_lines_are_single(s.drop_first(), c);
        }
    }
}

proof fn lemma_trim_crs_last(s: Seq<char>)
    ensures
        trim_crs(s).len() == 0 || trim_crs(s).last() != '\r',
    decreases s.len(),
{
    if s.len() > 0 && s.last() == '\r' {
        lemma_trim_crs_last(s.drop_last());
    }
}

/// The payload of an event-stream `data: ` line.
pub open spec fn spec_sse_data(line: Seq<char>) -> Option<Seq<char>> {
    if text::is_prefix("data: "@, line) {
        Some(line.skip(6))
    } else {
        None
    }
}

pub fn sse_data(line: &Vec<char>) -> (r: Option<String>)
    ensures
        match r {
            Some(d) => text::is_prefix("data: "@, line@) && "data: "@ + d@ == line@,
            None => !text::is_prefix("data: "@, line@),
        },
{
    let p = chars_of("data: ");
    if text::starts_with_vec(line, &p) {
        let rest = slice_chars(line, p.len(), line.len());
        assert(p@ + rest@ =~= line@);
        Some(string_from_chars(&rest))
    } else {
        None
    }
}

/// One server-sent event frame: `data: `, the payload, a blank line.
pub fn sse_frame(payload: &str) -> (r: String)
    ensures
        r@ == "data: "@ + payload@ + "\n\n"@,
{
    let mut r = String::from_str("data: ");
    r.append(payload);
    r.append("\n\n");
    r
}

/// The frame of a JSON object with one string field `key`.
pub open spec fn spec_field_frame(key: Seq<char>, value: Seq<char>) -> Seq<char> {
    "data: {\""@ + key + "\":"@ + codec::spec_json_string(value) + "}\n\n"@
}

fn field_frame(key: &str, value: &str) -> (r: String)
    ensures
        r@ == spec_field_frame(key@, value@),
{
    let mut r = String::from_str("data: {\"");
    r.append(key);
    r.append("\":");
    let q = codec::json_string(value);
    r.append(q.as_str());
    r.append("}\n\n");
    r
}

/// The frame that passes a text token on to the client.
pub fn token_frame(token: &str) -> (r: String)
    ensures
        r@ == spec_field_frame("token"@, token@),
{
    field_frame("token", token)
}

/// The frame sent before a round's tools run.
pub fn status_frame() -> (r: String)
    ensures
        r@ == spec_field_frame("status"@, "Using tools..."@),
{
    field_frame("status", "Using tools...")
}

/// The frame that ends a turn on an error; nothing follows it.
pub fn error_frame(message: &str) -> (r: String)
    ensures
        r@ == spec_field_frame("error"@, message@),
{
    field_frame("error", message)
}

/// The frames that close a turn: `[DONE]`, then the turn's whole text.
pub fn closing_frames(full_text: &str) -> (r: Vec<String>)
    ensures
        r@.len() == 2,
        r@[0]@ == "data: [DONE]\n\n"@,
        r@[1]@ == spec_field_frame("full_text"@, full_text@),
{
    let mut r: Vec<String> = Vec::new();
    r.push(String::from_str("data: [DONE]\n\n"));
    r.push(field_frame("full_text", full_text));
    r
}

// ---------------------------------------------------------------
// Model availability

/// An error body that says the model cannot serve the request.
pub open spec fn spec_is_model_unavailable(body: Seq<char>) -> bool {
    text::contains(body, "overloaded"@) || text::contains(body, "not_found"@) || text::contains(
        body,
        "unavailable"@,
    )
}

pub fn is_model_unavailable(body: &str) -> (r: bool)
    ensures
        r == spec_is_model_unavailable(body@),
{
    str_contains(body, "overloaded") || str_contains(body, "not_found") || str_contains(
        body,
        "unavailable",
    )
}

/// What the tool loop does after an error reply.
#[derive(Debug)]
pub enum ErrorAction {
    /// Run the round again with this model.
    Retry(String),
    /// Stop with this error message.
    Fail(String),
}

/// After a failed request: switch once from the primary model to the
/// fallback where the error says the model is unavailable; otherwise stop
/// with the error.
pub fn on_model_error(model: &str, primary: &str, fallback: &str, message: &str) -> (r: ErrorAction)
    ensures
        match r {
            ErrorAction::Retry(m) => spec_is_model_unavailable(message@) && model@ == primary@ && m@
                == fallback@,
            ErrorAction::Fail(e) => !(spec_is_model_unavailable(message@) && model@ == primary@)
                && e@ == message@,
        },
{
    if is_model_unavailable(message) && str_eq(model, primary) {
        ErrorAction::Retry(String::from_str(fallback))
    } else {
        ErrorAction::Fail(String::from_str(message))
    }
}

/// Whether an error reply switches models (see `on_model_error`).
pub open spec fn spec_retries(model: Seq<char>, primary: Seq<char>, message: Seq<char>) -> bool {
    spec_is_model_unavailable(message) && model == primary
}

/// The fallback is tried at most once per turn: once the model in use is
/// the fallback (and it differs from the primary), a further error ends the
/// turn.
pub proof fn law_fallback_once(primary: Seq<char>, fallback: Seq<char>, m1: Seq<char>, m2: Seq<char>)
    requires
        fallback != primary,
    ensures
        spec_retries(primary, primary, m1) ==> !spec_retries(fallback, primary, m2),
{
}

/// The request loop of one chat turn: how many requests were made, and the
/// model the next one uses.
pub struct TurnLoop {
    pub rounds: usize,
    pub model: String,
    pub primary: String,
    pub fallback: String,
}

impl TurnLoop {
    pub open spec fn wf(&self) -> bool {
        self.rounds <= MAX_TOOL_ROUNDS
    }

    /// A turn that has made no request yet, on the primary model.
    pub fn new(primary: &str, fallback: &str) -> (r: TurnLoop)
        ensures
            r.wf(),
            r.rounds == 0,
            r.model@ == primary@,
            r.primary@ == primary@,
            r.fallback@ == fallback@,
    {
        TurnLoop {
            rounds: 0,
            model: String::from_str(primary),
            primary: String::from_str(primary),
            fallback: String::from_str(fallback),
        }
    }

    /// The model of the next request, while the turn has rounds left; every
    /// request, retries included, uses up a round.
    pub fn next_request(&mut self) -> (r: Option<String>)
        requires
            old(self).wf(),
        ensures
            final(self).wf(),
            final(self).model == old(self).model,
            final(self).primary == old(self).primary,
            final(self).fallback == old(self).fallback,
            old(self).rounds < MAX_TOOL_ROUNDS ==> (r matches Some(m) && m@ == old(self).model@
                && final(self).rounds == old(self).rounds + 1),
            old(self).rounds >= MAX_TOOL_ROUNDS ==> r is None && final(self).rounds == old(
                self,
            ).rounds,
    {
        if self.rounds < MAX_TOOL_ROUNDS {
            self.rounds = self.rounds + 1;
            Some(self.model.clone())
        } else {
            None
        }
    }

    /// After a failed request (see `on_model_error`): where it retries, the
    /// next request uses the fallback model.
    pub fn on_error(&mut self, message: &str) -> (r: ErrorAction)
        ensures
            final(self).rounds == old(self).rounds,
            final(self).primary == old(self).primary,
            final(self).fallback == old(self).fallback,
            match r {
                ErrorAction::Retry(m) => spec_retries(old(self).model@, old(self).primary@, message@)
                    && m@ == old(self).fallback@ && final(self).model@ == old(self).fallback@,
                ErrorAction::Fail(e) => !spec_retries(old(self).model@, old(self).primary@, message@)
                    && e@ == message@ && final(self).model == old(self).model,
            },
    {
        let a = on_model_error(self.model.as_str(), self.primary.as_str(), self.fallback.as_str(), message);
        match a {
            ErrorAction::Retry(m) => {
                self.model = m.clone();
                ErrorAction::Retry(m)
            },
            ErrorAction::Fail(e) => ErrorAction::Fail(e),
        }
    }
}

/// The requests a turn makes from `rounds` made so far, over `n` asks for
/// one: each ask gives a request while fewer than `MAX_TOOL_ROUNDS` were made.
pub open spec fn requests_made(rounds: nat, n: nat) -> nat
    decreases n,
{
    if n == 0 {
        0
    } else if rounds < MAX_TOOL_ROUNDS {
        1 + requests_made(rounds + 1, (n - 1) as nat)
    } else {
        requests_made(rounds, (n - 1) as nat)
    }
}

/// A turn makes at most `MAX_TOOL_ROUNDS` requests however often it asks
/// for one, and exactly as many as it asks for up to that bound.
pub proof fn law_requests_bounded(n: nat)
    ensures
        requests_made(0, n) == if n < MAX_TOOL_ROUNDS {
            n
        } else {
            MAX_TOOL_ROUNDS as nat
        },
{
    lemma_requests_made(0, n);
}

proof fn lemma_requests_made(rounds: nat, n: nat)
    requires
        rounds <= MAX_TOOL_ROUNDS,
    ensures
        requests_made(rounds, n) == if rounds + n < MAX_TOOL_ROUNDS {
            n
        } else {
            (MAX_TOOL_ROUNDS - rounds) as nat
        },
    decreases n,
{
    if n > 0 {
        if rounds < MAX_TOOL_ROUNDS {
            lemma_requests_made(rounds + 1, (n - 1) as nat);
        } else {
            lemma_requests_made(rounds, (n - 1) as nat);
        }
    }
}

/// The message sent to the client when the streaming request fails with an
/// HTTP status.
pub fn stream_error_message(status: &str, body: &str) -> (r: String)
    ensures
        r@ == "Anthropic API error "@ + status@ + ": "@ + body@,
{
    let mut r = String::from_str("Anthropic API error ");
    r.append(status);
    r.append(": ");
    r.append(body);
    r
}

// ---------------------------------------------------------------
// Conversation shape

/// A message of the conversation as the protocol reads it: its role and,
/// where the content is a string, that string.
#[derive(Debug)]
pub struct RoleMessage {
    pub role: Option<String>,
    pub content_text: Option<String>,
}

pub open spec fn role_is(m: RoleMessage, r: Seq<char>) -> bool {
    m.role is Some && m.role->0@ == r
}

/// The system prompt: the text of the last `system` message (empty where
/// its content is not a string, or where there is none).
pub open spec fn spec_system(ms: Seq<RoleMessage>) -> Seq<char>
    decreases ms.len(),
{
    if ms.len() == 0 {
        seq![]
    } else if role_is(ms.last(), "system"@) {
        match ms.last().content_text {
            Some(t) => t@,
            None => seq![],
        }
    } else {
        spec_system(ms.drop_last())
    }
}

/// The positions of the `user` and `assistant` messages, in order.
pub open spec fn spec_turns(ms: Seq<RoleMessage>) -> Seq<usize>
    decreases ms.len(),
{
    if ms.len() == 0 {
        seq![]
    } else {
        spec_turns(ms.drop_last()) + if role_is(ms.last(), "user"@) || role_is(
            ms.last(),
            "assistant"@,
        ) {
            seq![(ms.len() - 1) as usize]
        } else {
            seq![]
        }
    }
}

fn role_eq(m: &RoleMessage, r: &str) -> (b: bool)
    ensures
        b == role_is(*m, r@),
{
    match &m.role {
        Some(x) => str_eq(x.as_str(), r),
        None => false,
    }
}

/// Splits a conversation into the system prompt and the user and assistant
/// turns sent to the model.
pub fn split_conversation(ms: &Vec<RoleMessage>) -> (r: (String, Vec<usize>))
    ensures
        r.0@ == spec_system(ms@),
        r.1@ == spec_turns(ms@),
{
    let mut system = String::new();
    let mut turns: Vec<usize> = Vec::new();
    let mut i: usize = 0;
    let n: usize = ms.len();
    assert(ms@.take(0) =~= Seq::<RoleMessage>::empty());
    while i < n
        invariant
            i <= n == ms@.len(),
            system@ == spec_system(ms@.take(i as int)),
            turns@ == spec_turns(ms@.take(i as int)),
        decreases n - i,
    {
        let ghost t = ms@.take(i + 1);
        assert(t.drop_last() =~= ms@.take(i as int));
        assert(t.last() == ms@[i as int]);
        let m = &ms[i];
        if role_eq(m, "system") {
            system = match &m.content_text {
                Some(c) => c.clone(),
                None => String::new(),
            };
        }
        if role_eq(m, "user") || role_eq(m, "assistant") {
            turns.push(i);
            assert(turns@ =~= spec_turns(t));
        } else {
            assert(turns@ =~= spec_turns(t));
        }
        i = i + 1;
    }
    assert(ms@.take(n as int) =~= ms@);
    (system, turns)
}


// ---------------------------------------------------------------
// Streamed reply

/// A tool call being streamed: the content block index, the call id, the
/// tool name and the JSON arguments received so far.
#[derive(Debug)]
pub struct ToolBlock {
    pub index: usize,
    pub id: String,
    pub name: String,
    pub args: String,
}

pub open spec fn tb_view(b: ToolBlock) -> (Seq<char>, Seq<char>, Seq<char>) {
    (b.id@, b.name@, b.args@)
}

/// Strictly increasing block indices.
pub open spec fn sorted_blocks(v: Seq<ToolBlock>) -> bool {
    forall|i: int, j: int| 0 <= i < j < v.len() ==> v[i].index < v[j].index
}

pub open spec fn has_index(v: Seq<ToolBlock>, k: usize) -> bool {
    exists|i: int| 0 <= i < v.len() && v[i].index == k
}

/// The tool calls as a map from block index.
pub open spec fn blocks_map(v: Seq<ToolBlock>) -> Map<usize, (Seq<char>, Seq<char>, Seq<char>)> {
    Map::new(
        |k: usize| has_index(v, k),
        |k: usize| tb_view(v[choose|i: int| 0 <= i < v.len() && v[i].index == k]),
    )
}

proof fn lemma_map_at(v: Seq<ToolBlock>, i: int)
    requires
        sorted_blocks(v),
        0 <= i < v.len(),
    ensures
        blocks_map(v).contains_key(v[i].index),
        blocks_map(v)[v[i].index] == tb_view(v[i]),
{
    let k = v[i].index;
    assert(has_index(v, k));
    let j = choose|j: int| 0 <= j < v.len() && v[j].index == k;
    if j < i {
        assert(v[j].index < v[i].index);
    } else if j > i {
        assert(v[i].index < v[j].index);
    }
}

proof fn lemma_map_update(v: Seq<ToolBlock>, p: int, b: ToolBlock)
    requires
        sorted_blocks(v),
        0 <= p < v.len(),
        v[p].index == b.index,
    ensures
        sorted_blocks(v.update(p, b)),
        blocks_map(v.update(p, b)) == blocks_map(v).insert(b.index, tb_view(b)),
{
    let w = v.update(p, b);
    assert(sorted_blocks(w)) by {
        assert forall|i: int, j: int| 0 <= i < j < w.len() implies w[i].index < w[j].index by {
            assert(v[i].index < v[j].index);
        }
    }
    let m = blocks_map(v).insert(b.index, tb_view(b));
    assert forall|k: usize| #[trigger] blocks_map(w).contains_key(k) <==> m.contains_key(k) by {
        if blocks_map(w).contains_key(k) {
            let i = choose|i: int| 0 <= i < w.len() && w[i].index == k;
            if i != p {
                assert(has_index(v, k));
            }
        }
        if m.contains_key(k) && k != b.index {
            let i = choose|i: int| 0 <= i < v.len() && v[i].index == k;
            assert(w[i].index == k);
        }
        if k == b.index {
            assert(w[p].index == k);
        }
    }
    assert forall|k: usize| #[trigger] blocks_map(w).contains_key(k) implies blocks_map(w)[k]
        == m[k] by {
        let i = choose|i: int| 0 <= i < w.len() && w[i].index == k;
        lemma_map_at(w, i);
        if i != p {
            lemma_map_at(v, i);
        }
    }
    assert(blocks_map(w) =~= m);
}

proof fn lemma_map_insert(v: Seq<ToolBlock>, p: int, b: ToolBlock)
    requires
        sorted_blocks(v),
        0 <= p <= v.len(),
        p == 0 || v[p - 1].index < b.index,
        p == v.len() || b.index < v[p].index,
    ensures
        sorted_blocks(v.insert(p, b)),
        blocks_map(v.insert(p, b)) == blocks_map(v).insert(b.index, tb_view(b)),
{
    let w = v.insert(p, b);
    assert(sorted_blocks(w)) by {
        assert forall|i: int, j: int| 0 <= i < j < w.len() implies w[i].index < w[j].index by {
            if i < p && j < p {
                assert(v[i].index < v[j].index);
            } else if i < p && j == p {
                if i < p - 1 {
                    assert(v[i].index < v[p - 1].index);
                }
            } else if i < p && j > p {
                assert(v[i].index < v[j - 1].index);
            } else if i == p {
                if j > p + 1 {
                    assert(v[p].index < v[j - 1].index);
                }
            } else {
                assert(v[i - 1].index < v[j - 1].index);
            }
        }
    }
    let m = blocks_map(v).insert(b.index, tb_view(b));
    assert forall|k: usize| #[trigger] blocks_map(w).contains_key(k) <==> m.contains_key(k) by {
        if blocks_map(w).contains_key(k) {
            let i = choose|i: int| 0 <= i < w.len() && w[i].index == k;
            if i < p {
                assert(v[i].index == k);
            } else if i > p {
                assert(v[i - 1].index == k);
            }
        }
        if m.contains_key(k) && k != b.index {
            let i = choose|i: int| 0 <= i < v.len() && v[i].index == k;
            if i < p {
                assert(w[i].index == k);
            } else {
                assert(w[i + 1].index == k);
            }
        }
        if k == b.index {
            assert(w[p].index == k);
        }
    }
    assert forall|k: usize| #[trigger] blocks_map(w).contains_key(k) implies blocks_map(w)[k]
        == m[k] by {
        let i = choose|i: int| 0 <= i < w.len() && w[i].index == k;
        lemma_map_at(w, i);
        if i < p {
            lemma_map_at(v, i);
        } else if i > p {
            lemma_map_at(v, i - 1);
        }
    }
    assert(blocks_map(w) =~= m);
}

/// One parsed event of the stream, holding what the protocol reads of it:
/// `type`, `index`, `content_block.type/id/name`, `delta.type/text/
/// partial_json` and `delta.stop_reason` (each `None` where missing or not
/// of the expected JSON type).
#[derive(Debug)]
pub struct StreamEvent {
    pub kind: Option<String>,
    pub index: Option<u64>,
    pub block_type: Option<String>,
    pub block_id: Option<String>,
    pub block_name: Option<String>,
    pub delta_type: Option<String>,
    pub text: Option<String>,
    pub partial_json: Option<String>,
    pub stop_reason: Option<String>,
}

pub open spec fn opt_is(o: Option<String>, s: Seq<char>) -> bool {
    o is Some && o->0@ == s
}

pub open spec fn opt_text(o: Option<String>) -> Seq<char> {
    match o {
        Some(x) => x@,
        None => seq![],
    }
}

pub open spec fn event_index(ev: StreamEvent) -> usize {
    match ev.index {
        Some(i) => i as usize,
        None => 0,
    }
}

/// What one round of a streamed reply has built: the tool calls by block
/// index, the text of this round, the text of the whole turn, and the stop
/// reason.
pub struct StreamModel {
    pub blocks: Map<usize, (Seq<char>, Seq<char>, Seq<char>)>,
    pub text_buf: Seq<char>,
    pub full_text: Seq<char>,
    pub stop_reason: Seq<char>,
}

/// The effect of one event, and the text token to pass on to the client.
pub open spec fn step(m: StreamModel, ev: StreamEvent) -> (StreamModel, Option<Seq<char>>) {
    let k = event_index(ev);
    if opt_is(ev.kind, "content_block_start"@) {
        if opt_is(ev.block_type, "tool_use"@) {
            (
                StreamModel {
                    blocks: m.blocks.insert(
                        k,
                        (opt_text(ev.block_id), opt_text(ev.block_name), seq![]),
                    ),
                    ..m
                },
                None,
            )
        } else {
            (m, None)
        }
    } else if opt_is(ev.kind, "content_block_delta"@) {
        if opt_is(ev.delta_type, "text_delta"@) {
            if ev.text is Some && ev.text->0@.len() > 0 {
                let t = ev.text->0@;
                (
                    StreamModel { text_buf: m.text_buf + t, full_text: m.full_text + t, ..m },
                    Some(t),
                )
            } else {
                (m, None)
            }
        } else if opt_is(ev.delta_type, "input_json_delta"@) && ev.partial_json is Some
            && m.blocks.contains_key(k) {
            let b = m.blocks[k];
            (
                StreamModel {
                    blocks: m.blocks.insert(k, (b.0, b.1, b.2 + ev.partial_json->0@)),
                    ..m
                },
                None,
            )
        } else {
            (m, None)
        }
    } else if opt_is(ev.kind, "message_delta"@) && ev.stop_reason is Some {
        (StreamModel { stop_reason: ev.stop_reason->0@, ..m }, None)
    } else {
        (m, None)
    }
}

/// A non-empty text delta is passed on as it is: the token is exactly the
/// event's text, which is appended as it is to the round's and the turn's
/// text; the tool calls and the stop reason stay.
pub proof fn law_text_delta_verbatim(m: StreamModel, ev: StreamEvent)
    requires
        ev.kind is Some && ev.kind->0@ == "content_block_delta"@,
        ev.delta_type is Some && ev.delta_type->0@ == "text_delta"@,
        ev.text is Some && ev.text->0@.len() > 0,
    ensures
        step(m, ev).1 == Some(ev.text->0@),
        step(m, ev).0.text_buf == m.text_buf + ev.text->0@,
        step(m, ev).0.full_text == m.full_text + ev.text->0@,
        step(m, ev).0.blocks == m.blocks,
        step(m, ev).0.stop_reason == m.stop_reason,
{
    reveal_strlit("content_block_delta");
    reveal_strlit("content_block_start");
    assert("content_block_delta"@ != "content_block_start"@) by {
        assert("content_block_delta"@[14] != "content_block_start"@[14]);
    }
}

/// The start of a `tool_use` block opens a tool call at the event's index
/// with the block's id and name and no arguments yet; nothing is passed on
/// and the text stays.
pub proof fn law_tool_start_opens_call(m: StreamModel, ev: StreamEvent)
    requires
        ev.kind is Some && ev.kind->0@ == "content_block_start"@,
        ev.block_type is Some && ev.block_type->0@ == "tool_use"@,
    ensures
        step(m, ev).1 is None,
        step(m, ev).0.blocks.contains_key(event_index(ev)),
        step(m, ev).0.blocks[event_index(ev)] == (opt_text(ev.block_id), opt_text(ev.block_name), Seq::<char>::empty()),
        forall|j: usize| j != event_index(ev) ==> step(m, ev).0.blocks.contains_key(j) == m.blocks.contains_key(j)
            && (m.blocks.contains_key(j) ==> #[trigger] step(m, ev).0.blocks[j] == m.blocks[j]),
        step(m, ev).0.text_buf == m.text_buf,
        step(m, ev).0.full_text == m.full_text,
        step(m, ev).0.stop_reason == m.stop_reason,
{
}

/// A `message_delta` with a stop reason records that reason, and changes
/// nothing else.
pub proof fn law_stop_reason_recorded(m: StreamModel, ev: StreamEvent)
    requires
        ev.kind is Some && ev.kind->0@ == "message_delta"@,
        ev.stop_reason is Some,
    ensures
        step(m, ev).1 is None,
        step(m, ev).0.stop_reason == ev.stop_reason->0@,
        step(m, ev).0.blocks == m.blocks,
        step(m, ev).0.text_buf == m.text_buf,
        step(m, ev).0.full_text == m.full_text,
{
    reveal_strlit("message_delta");
    reveal_strlit("content_block_start");
    reveal_strlit("content_block_delta");
    assert("message_delta"@.len() != "content_block_start"@.len());
    assert("message_delta"@.len() != "content_block_delta"@.len());
}

/// Only a text delta passes a token on, and that token is the event's text,
/// unchanged and never empty; no other event changes the text.
pub proof fn law_tokens_only_from_text(m: StreamModel, ev: StreamEvent)
    ensures
        step(m, ev).1 is Some ==> (ev.text is Some && step(m, ev).1 == Some(ev.text->0@)
            && ev.text->0@.len() > 0 && opt_is(ev.delta_type, "text_delta"@)),
        step(m, ev).1 is None ==> step(m, ev).0.text_buf == m.text_buf && step(m, ev).0.full_text
            == m.full_text,
{
}

/// The state after a run of events, and the text tokens passed on, joined.
pub open spec fn run_events(m: StreamModel, evs: Seq<StreamEvent>) -> (StreamModel, Seq<char>)
    decreases evs.len(),
{
    if evs.len() == 0 {
        (m, seq![])
    } else {
        let (m1, t) = step(m, evs[0]);
        let (m2, rest) = run_events(m1, evs.drop_first());
        (
            m2,
            (match t {
                Some(x) => x,
                None => seq![],
            }) + rest,
        )
    }
}

/// What the client is sent is what the turn's text becomes: over any run of
/// events, the turn's text and the round's text grow by exactly the tokens
/// passed on, in order.
pub proof fn law_streamed_text_is_tokens(m: StreamModel, evs: Seq<StreamEvent>)
    ensures
        run_events(m, evs).0.full_text == m.full_text + run_events(m, evs).1,
        run_events(m, evs).0.text_buf == m.text_buf + run_events(m, evs).1,
    decreases evs.len(),
{
    if evs.len() == 0 {
        assert(m.full_text + Seq::<char>::empty() =~= m.full_text);
        assert(m.text_buf + Seq::<char>::empty() =~= m.text_buf);
    } else {
        let (m1, t) = step(m, evs[0]);
        law_streamed_text_is_tokens(m1, evs.drop_first());
        let tt: Seq<char> = match t {
            Some(x) => x,
            None => seq![],
        };
        assert(m1.full_text == m.full_text + tt);
        assert(m1.text_buf == m.text_buf + tt);
        let rest = run_events(m1, evs.drop_first()).1;
        assert(m.full_text + tt + rest =~= m.full_text + (tt + rest));
        assert(m.text_buf + tt + rest =~= m.text_buf + (tt + rest));
    }
}

/// The event starts a tool call at block `k`.
pub open spec fn starts_tool_at(ev: StreamEvent, k: usize) -> bool {
    opt_is(ev.kind, "content_block_start"@) && opt_is(ev.block_type, "tool_use"@) && event_index(
        ev,
    ) == k
}

/// The JSON fragment the event carries for block `k`, if any.
pub open spec fn json_delta_at(ev: StreamEvent, k: usize) -> Seq<char> {
    if opt_is(ev.kind, "content_block_delta"@) && opt_is(ev.delta_type, "input_json_delta"@)
        && ev.partial_json is Some && event_index(ev) == k {
        ev.partial_json->0@
    } else {
        seq![]
    }
}

/// The JSON fragments a run of events carries for block `k`, joined.
pub open spec fn json_deltas(evs: Seq<StreamEvent>, k: usize) -> Seq<char>
    decreases evs.len(),
{
    if evs.len() == 0 {
        seq![]
    } else {
        json_delta_at(evs[0], k) + json_deltas(evs.drop_first(), k)
    }
}

/// A tool call's arguments are the JSON fragments streamed for its block,
/// in order: once a call is open at block `k`, and as long as no new call
/// starts there, its id and name stay and its arguments grow by exactly the
/// fragments for `k`.
pub proof fn law_tool_arguments_accumulate(m: StreamModel, evs: Seq<StreamEvent>, k: usize)
    requires
        m.blocks.contains_key(k),
        forall|i: int| 0 <= i < evs.len() ==> !starts_tool_at(#[trigger] evs[i], k),
    ensures
        run_events(m, evs).0.blocks.contains_key(k),
        run_events(m, evs).0.blocks[k] == (
            m.blocks[k].0,
            m.blocks[k].1,
            m.blocks[k].2 + json_deltas(evs, k),
        ),
    decreases evs.len(),
{
    if evs.len() == 0 {
        assert(m.blocks[k].2 + Seq::<char>::empty() =~= m.blocks[k].2);
    } else {
        reveal_strlit("content_block_start");
        reveal_strlit("content_block_delta");
        reveal_strlit("text_delta");
        reveal_strlit("input_json_delta");
        assert("content_block_start"@[14] != "content_block_delta"@[14]);
        assert("text_delta"@.len() != "input_json_delta"@.len());
        let ev = evs[0];
        assert(!starts_tool_at(ev, k));
        let m1 = step(m, ev).0;
        let d = json_delta_at(ev, k);
        assert(m1.blocks.contains_key(k));
        if d.len() > 0 {
            assert(m1.blocks[k] == (m.blocks[k].0, m.blocks[k].1, m.blocks[k].2 + d));
        } else {
            assert(m1.blocks[k] == m.blocks[k]) by {
                if opt_is(ev.kind, "content_block_delta"@) && !opt_is(ev.delta_type, "text_delta"@)
                    && opt_is(ev.delta_type, "input_json_delta"@) && ev.partial_json is Some
                    && event_index(ev) == k {
                    assert(m1.blocks[k].2 == m.blocks[k].2 + d);
                    assert(d =~= Seq::<char>::empty());
                    assert(m.blocks[k].2 + d =~= m.blocks[k].2);
                }
            }
        }
        assert forall|i: int| 0 <= i < evs.drop_first().len() implies !starts_tool_at(
            #[trigger] evs.drop_first()[i],
            k,
        ) by {
            assert(evs.drop_first()[i] == evs[i + 1]);
        }
        law_tool_arguments_accumulate(m1, evs.drop_first(), k);
        assert(m.blocks[k].2 + d + json_deltas(evs.drop_first(), k) =~= m.blocks[k].2 + (d
            + json_deltas(evs.drop_first(), k)));
    }
}

/// The state of a streamed reply.
pub struct StreamState {
    pub blocks: Vec<ToolBlock>,
    pub text_buf: String,
    pub full_text: String,
    pub stop_reason: String,
}

impl View for StreamState {
    type V = StreamModel;

    open spec fn view(&self) -> StreamModel {
        StreamModel {
            blocks: blocks_map(self.blocks@),
            text_buf: self.text_buf@,
            full_text: self.full_text@,
            stop_reason: self.stop_reason@,
        }
    }
}

fn opt_eq(o: &Option<String>, s: &str) -> (r: bool)
    ensures
        r == opt_is(*o, s@),
{
    match o {
        Some(x) => str_eq(x.as_str(), s),
        None => false,
    }
}

fn opt_string(o: &Option<String>) -> (r: String)
    ensures
        r@ == opt_text(*o),
{
    match o {
        Some(x) => x.clone(),
        None => String::new(),
    }
}

fn clone_block(b: &ToolBlock) -> (r: ToolBlock)
    ensures
        r.index == b.index,
        tb_view(r) == tb_view(*b),
{
    ToolBlock { index: b.index, id: b.id.clone(), name: b.name.clone(), args: b.args.clone() }
}

impl StreamState {
    pub open spec fn wf(&self) -> bool {
        sorted_blocks(self.blocks@)
    }

    /// The state at the start of a turn.
    pub fn new() -> (r: StreamState)
        ensures
            r.wf(),
            r@.blocks == Map::<usize, (Seq<char>, Seq<char>, Seq<char>)>::empty(),
            r@.text_buf == Seq::<char>::empty(),
            r@.full_text == Seq::<char>::empty(),
            r@.stop_reason == Seq::<char>::empty(),
    {
        let r = StreamState {
            blocks: Vec::new(),
            text_buf: String::new(),
            full_text: String::new(),
            stop_reason: String::new(),
        };
        assert(blocks_map(r.blocks@) =~= Map::empty());
        r
    }

    /// A new round: tool calls, round text and stop reason are cleared; the
    /// turn's text is kept.
    pub fn start_round(&mut self)
        ensures
            final(self).wf(),
            final(self)@ == (StreamModel {
                blocks: Map::empty(),
                text_buf: seq![],
                stop_reason: seq![],
                ..old(self)@
            }),
    {
        self.blocks = Vec::new();
        self.text_buf = String::new();
        self.stop_reason = String::new();
        assert(blocks_map(self.blocks@) =~= Map::empty());
        assert(self.text_buf@ =~= Seq::<char>::empty());
        assert(self.stop_reason@ =~= Seq::<char>::empty());
    }

    /// Position of the first block whose index is at least `k`.
    fn lower_bound(&self, k: usize) -> (p: usize)
        requires
            self.wf(),
        ensures
            p <= self.blocks@.len(),
            forall|i: int| 0 <= i < p ==> self.blocks@[i].index < k,
            p < self.blocks@.len() ==> self.blocks@[p as int].index >= k,
    {
        let mut p: usize = 0;
        while p < self.blocks.len() && self.blocks[p].index < k
            invariant
                p <= self.blocks@.len(),
                forall|i: int| 0 <= i < p ==> self.blocks@[i].index < k,
            decreases self.blocks@.len() - p,
        {
            p = p + 1;
        }
        p
    }

    fn put_block(&mut self, b: ToolBlock)
        requires
            old(self).wf(),
        ensures
            final(self).wf(),
            final(self)@ == (StreamModel {
                blocks: old(self)@.blocks.insert(b.index, tb_view(b)),
                ..old(self)@
            }),
    {
        let p = self.lower_bound(b.index);
        let ghost v = self.blocks@;
        let ghost bv = b;
        if p < self.blocks.len() && self.blocks[p].index == b.index {
            self.blocks.set(p, b);
            proof {
                lemma_map_update(v, p as int, bv);
            }
        } else {
            proof {
                if p > 0 {
                    assert(v[p - 1].index < bv.index);
                }
            }
            self.blocks.insert(p, b);
            proof {
                lemma_map_insert(v, p as int, bv);
            }
        }
    }

    /// Applies one event (see `step`); returns the text token to pass on.
    pub fn apply(&mut self, ev: &StreamEvent) -> (r: Option<String>)
        requires
            old(self).wf(),
        ensures
            final(self).wf(),
            final(self)@ == step(old(self)@, *ev).0,
            opt_seq(r) == step(old(self)@, *ev).1,
    {
        let k: usize = match ev.index {
            Some(i) => i as usize,
            None => 0,
        };
        if opt_eq(&ev.kind, "content_block_start") {
            if opt_eq(&ev.block_type, "tool_use") {
                let b = ToolBlock {
                    index: k,
                    id: opt_string(&ev.block_id),
                    name: opt_string(&ev.block_name),
                    args: String::new(),
                };
                self.put_block(b);
            }
            None
        } else if opt_eq(&ev.kind, "content_block_delta") {
            if opt_eq(&ev.delta_type, "text_delta") {
                match &ev.text {
                    Some(t) => {
                        let tv = chars_of(t.as_str());
                        if tv.len() > 0 {
                            self.text_buf.append(t.as_str());
                            self.full_text.append(t.as_str());
                            Some(t.clone())
                        } else {
                            None
                        }
                    },
                    None => None,
                }
            } else if opt_eq(&ev.delta_type, "input_json_delta") {
                match &ev.partial_json {
                    Some(pj) => {
                        let p = self.lower_bound(k);
                        if p < self.blocks.len() && self.blocks[p].index == k {
                            proof {
                                lemma_map_at(self.blocks@, p as int);
                            }
                            let mut b = clone_block(&self.blocks[p]);
                            b.args.append(pj.as_str());
                            self.put_block(b);
                        } else {
                            proof {
                                if has_index(self.blocks@, k) {
                                    let i = choose|i: int|
                                        0 <= i < self.blocks@.len() && self.blocks@[i].index == k;
                                    if i > p {
                                        assert(self.blocks@[p as int].index < self.blocks@[i].index);
                                    }
                                }
                            }
                        }
                        None
                    },
                    None => None,
                }
            } else {
                None
            }
        } else if opt_eq(&ev.kind, "message_delta") {
            match &ev.stop_reason {
                Some(sr) => {
                    self.stop_reason = sr.clone();
                },
                None => {},
            }
            None
        } else {
            None
        }
    }

    /// How the round ended: a final answer, or tool calls to run.
    pub fn finish_round(&self) -> (r: RoundEnd)
        requires
            self.wf(),
        ensures
            match r {
                RoundEnd::Done => self@.stop_reason != "tool_use"@,
                RoundEnd::ToolUse { text, calls } => {
                    &&& self@.stop_reason == "tool_use"@
                    &&& opt_seq(text) == (if self@.text_buf.len() > 0 {
                        Some(self@.text_buf)
                    } else {
                        None
                    })
                    &&& sorted_blocks(calls@)
                    &&& blocks_map(calls@) == self@.blocks
                },
            },
    {
        if !str_eq(self.stop_reason.as_str(), "tool_use") {
            return RoundEnd::Done;
        }
        let tv = chars_of(self.text_buf.as_str());
        let text = if tv.len() > 0 {
            Some(self.text_buf.clone())
        } else {
            None
        };
        let mut calls: Vec<ToolBlock> = Vec::new();
        let mut i: usize = 0;
        while i < self.blocks.len()
            invariant
                i <= self.blocks@.len(),
                calls@.len() == i,
                forall|j: int|
                    0 <= j < i ==> #[trigger] calls@[j].index == self.blocks@[j].index && tb_view(
                        calls@[j],
                    ) == tb_view(self.blocks@[j]),
            decreases self.blocks@.len() - i,
        {
            calls.push(clone_block(&self.blocks[i]));
            i = i + 1;
        }
        proof {
            let v = self.blocks@;
            let w = calls@;
            assert(sorted_blocks(w)) by {
                assert forall|a: int, b: int| 0 <= a < b < w.len() implies w[a].index
                    < w[b].index by {
                    assert(w[a].index == v[a].index);
                    assert(w[b].index == v[b].index);
                }
            }
            assert forall|k: usize| #[trigger] blocks_map(w).contains_key(k) <==> blocks_map(
                v,
            ).contains_key(k) by {
                if blocks_map(w).contains_key(k) {
                    let j = choose|j: int| 0 <= j < w.len() && w[j].index == k;
                    assert(v[j].index == k);
                }
                if blocks_map(v).contains_key(k) {
                    let j = choose|j: int| 0 <= j < v.len() && v[j].index == k;
                    assert(w[j].index == k);
                }
            }
            assert forall|k: usize| #[trigger] blocks_map(w).contains_key(k) implies blocks_map(
                w,
            )[k] == blocks_map(v)[k] by {
                let j = choose|j: int| 0 <= j < w.len() && w[j].index == k;
                lemma_map_at(w, j);
                assert(v[j].index == k);
                lemma_map_at(v, j);
            }
            assert(blocks_map(w) =~= blocks_map(v));
        }
        RoundEnd::ToolUse { text, calls }
    }
}

/// A content block of the assistant message that records a tool round.
#[derive(Debug)]
pub enum ContentBlock {
    Text(String),
    /// A tool call with its arguments as streamed (JSON text).
    ToolUse { id: String, name: String, args: String },
}

/// The result of one tool call, answering the call with that id.
#[derive(Debug)]
pub struct ToolResult {
    pub tool_use_id: String,
    pub content: String,
}

/// The assistant message of a tool round: the round's text first where
/// there is any, then each call in block-index order.
pub fn assistant_content(text: Option<String>, calls: &Vec<ToolBlock>) -> (r: Vec<ContentBlock>)
    ensures
        ({
            let off: int = if text is Some {
                1
            } else {
                0
            };
            &&& r@.len() == off + calls@.len()
            &&& text matches Some(t) ==> (r@[0] matches ContentBlock::Text(x) && x@ == t@)
            &&& forall|i: int|
                0 <= i < calls@.len() ==> (#[trigger] r@[off + i] matches ContentBlock::ToolUse {
                    id,
                    name,
                    args,
                } && id@ == calls@[i].id@ && name@ == calls@[i].name@ && args@ == calls@[i].args@)
        }),
{
    let mut r: Vec<ContentBlock> = Vec::new();
    let ghost off: int = if text is Some {
        1
    } else {
        0
    };
    match text {
        Some(t) => r.push(ContentBlock::Text(t)),
        None => {},
    }
    let mut i: usize = 0;
    while i < calls.len()
        invariant
            i <= calls@.len(),
            off == (if text is Some {
                1int
            } else {
                0int
            }),
            r@.len() == off + i,
            text matches Some(t) ==> (r@[0] matches ContentBlock::Text(x) && x@ == t@),
            forall|j: int|
                0 <= j < i ==> (#[trigger] r@[off + j] matches ContentBlock::ToolUse {
                    id,
                    name,
                    args,
                } && id@ == calls@[j].id@ && name@ == calls@[j].name@ && args@ == calls@[j].args@),
        decreases calls@.len() - i,
    {
        let b = &calls[i];
        let ghost r0 = r@;
        r.push(ContentBlock::ToolUse { id: b.id.clone(), name: b.name.clone(), args: b.args.clone() });
        i = i + 1;
    }
    r
}

/// The user message that answers a tool round: one result per call, in the
/// calls' order, each naming its call.
pub fn tool_results(calls: &Vec<ToolBlock>, results: Vec<String>) -> (r: Vec<ToolResult>)
    requires
        results@.len() == calls@.len(),
    ensures
        r@.len() == calls@.len(),
        forall|i: int|
            0 <= i < r@.len() ==> #[trigger] r@[i].tool_use_id@ == calls@[i].id@ && r@[i].content
                == results@[i],
{
    let mut r: Vec<ToolResult> = Vec::new();
    let mut results = results;
    let ghost orig = results@;
    let mut i: usize = 0;
    while i < calls.len()
        invariant
            i <= calls@.len() == orig.len(),
            results@ == orig.skip(i as int),
            r@.len() == i,
            forall|j: int|
                0 <= j < i ==> #[trigger] r@[j].tool_use_id@ == calls@[j].id@ && r@[j].content
                    == orig[j],
        decreases calls@.len() - i,
    {
        let content = results.remove(0);
        assert(content == orig[i as int]);
        assert(results@ =~= orig.skip(i + 1));
        r.push(ToolResult { tool_use_id: calls[i].id.clone(), content });
        i = i + 1;
    }
    r
}

pub open spec fn opt_seq(o: Option<String>) -> Option<Seq<char>> {
    match o {
        Some(s) => Some(s@),
        None => None,
    }
}

/// How a streamed round ended.
#[derive(Debug)]
pub enum RoundEnd {
    /// The model stopped for another reason than tool use: the turn is over.
    Done,
    /// The model asked for tools: the round's text, if any, and the calls
    /// in block-index order.
    ToolUse { text: Option<String>, calls: Vec<ToolBlock> },
}


// ---------------------------------------------------------------
// Whole replies

/// A content block of a whole reply: its `type`, and its `text`, `id` and
/// `name` where they are strings.
#[derive(Debug)]
pub struct ReplyBlock {
    pub kind: Option<String>,
    pub text: Option<String>,
    pub id: Option<String>,
    pub name: Option<String>,
}

/// The text of a reply: the texts of its `text` blocks, joined.
pub open spec fn spec_reply_text(bs: Seq<ReplyBlock>) -> Seq<char>
    decreases bs.len(),
{
    if bs.len() == 0 {
        seq![]
    } else {
        spec_reply_text(bs.drop_last()) + if opt_is(bs.last().kind, "text"@) && bs.last().text is Some {
            bs.last().text->0@
        } else {
            seq![]
        }
    }
}

pub fn reply_text(bs: &Vec<ReplyBlock>) -> (r: String)
    ensures
        r@ == spec_reply_text(bs@),
{
    let mut r = String::new();
    let mut i: usize = 0;
    let n: usize = bs.len();
    assert(bs@.take(0) =~= Seq::<ReplyBlock>::empty());
    while i < n
        invariant
            i <= n == bs@.len(),
            r@ == spec_reply_text(bs@.take(i as int)),
        decreases n - i,
    {
        assert(bs@.take(i + 1).drop_last() =~= bs@.take(i as int));
        assert(bs@.take(i + 1).last() == bs@[i as int]);
        let b = &bs[i];
        if opt_eq(&b.kind, "text") {
            match &b.text {
                Some(t) => {
                    r.append(t.as_str());
                },
                None => {
                    assert(r@ =~= r@ + Seq::<char>::empty());
                },
            }
        } else {
            assert(r@ =~= r@ + Seq::<char>::empty());
        }
        i = i + 1;
    }
    assert(bs@.take(n as int) =~= bs@);
    r
}

/// A tool call of a whole reply: the position of its block, its id and its
/// tool name (empty where not strings).
#[derive(Debug)]
pub struct ToolUse {
    pub position: usize,
    pub id: String,
    pub name: String,
}

pub open spec fn tu_view(t: ToolUse) -> (usize, Seq<char>, Seq<char>) {
    (t.position, t.id@, t.name@)
}

/// The `tool_use` blocks of a reply, in order.
pub open spec fn spec_tool_uses(bs: Seq<ReplyBlock>) -> Seq<(usize, Seq<char>, Seq<char>)>
    decreases bs.len(),
{
    if bs.len() == 0 {
        seq![]
    } else {
        spec_tool_uses(bs.drop_last()) + if opt_is(bs.last().kind, "tool_use"@) {
            seq![((bs.len() - 1) as usize, opt_text(bs.last().id), opt_text(bs.last().name))]
        } else {
            seq![]
        }
    }
}

pub fn tool_uses(bs: &Vec<ReplyBlock>) -> (r: Vec<ToolUse>)
    ensures
        r@.map_values(|t: ToolUse| tu_view(t)) == spec_tool_uses(bs@),
{
    let mut r: Vec<ToolUse> = Vec::new();
    let mut i: usize = 0;
    let n: usize = bs.len();
    assert(bs@.take(0) =~= Seq::<ReplyBlock>::empty());
    assert(r@.map_values(|t: ToolUse| tu_view(t)) =~= Seq::empty());
    while i < n
        invariant
            i <= n == bs@.len(),
            r@.map_values(|t: ToolUse| tu_view(t)) == spec_tool_uses(bs@.take(i as int)),
        decreases n - i,
    {
        assert(bs@.take(i + 1).drop_last() =~= bs@.take(i as int));
        assert(bs@.take(i + 1).last() == bs@[i as int]);
        let b = &bs[i];
        let ghost r0 = r@;
        if opt_eq(&b.kind, "tool_use") {
            r.push(ToolUse { position: i, id: opt_string(&b.id), name: opt_string(&b.name) });
            assert(r@.map_values(|t: ToolUse| tu_view(t)) =~= r0.map_values(|t: ToolUse| tu_view(t))
                + seq![(i, opt_text(b.id), opt_text(b.name))]);
        } else {
            assert(r@.map_values(|t: ToolUse| tu_view(t)) =~= r0.map_values(|t: ToolUse| tu_view(t))
                + Seq::empty());
        }
        i = i + 1;
    }
    assert(bs@.take(n as int) =~= bs@);
    r
}

/// What the tool loop does with a whole reply.
#[derive(Debug)]
pub enum ReplyOutcome {
    /// Run the round again with this model.
    Retry(String),
    /// Stop with this error.
    Fail(String),
    /// The final answer.
    Answer(String),
    /// Run these tools and go on.
    Tools(Vec<ToolUse>),
}

/// The gateway's handling of a whole reply: an error message retries once
/// with the fallback model or fails; a stop reason other than `tool_use`
/// ends with the reply text; otherwise the tool calls run.
pub fn reply_outcome(
    error: &Option<String>,
    model: &str,
    primary: &str,
    fallback: &str,
    stop_reason: &Option<String>,
    blocks: &Vec<ReplyBlock>,
) -> (r: ReplyOutcome)
    ensures
        match r {
            ReplyOutcome::Retry(m) => error is Some && spec_is_model_unavailable(error->0@)
                && model@ == primary@ && m@ == fallback@,
            ReplyOutcome::Fail(e) => error is Some && !(spec_is_model_unavailable(error->0@)
                && model@ == primary@) && e@ == error->0@,
            ReplyOutcome::Answer(t) => error is None && !opt_is(*stop_reason, "tool_use"@) && t@
                == spec_reply_text(blocks@),
            ReplyOutcome::Tools(ts) => error is None && opt_is(*stop_reason, "tool_use"@)
                && ts@.map_values(|t: ToolUse| tu_view(t)) == spec_tool_uses(blocks@),
        },
{
    match error {
        Some(e) => match on_model_error(model, primary, fallback, e.as_str()) {
            ErrorAction::Retry(m) => ReplyOutcome::Retry(m),
            ErrorAction::Fail(m) => ReplyOutcome::Fail(m),
        },
        None => {
            if opt_eq(stop_reason, "tool_use") {
                ReplyOutcome::Tools(tool_uses(blocks))
            } else {
                ReplyOutcome::Answer(reply_text(blocks))
            }
        },
    }
}

} // verus!
