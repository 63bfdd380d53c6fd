//! Per-session message history: the in-memory cache of each session's
//! recent messages, the bound on their number, and the file names sessions
//! are saved under. Reading and writing the files is the caller's part.
use vstd::prelude::*;
use crate::common::types::{self, ChatMessage, copy_messages};
use crate::text;
use crate::text::{chars_of, push_char, str_eq, string_from_chars};

verus! {

/// Messages kept per session.
pub const MAX_MESSAGES: usize = 50;

/// The last `MAX_MESSAGES` messages of `s`.
pub open spec fn keep_last(s: Seq<ChatMessage>) -> Seq<ChatMessage> {
    if s.len() > MAX_MESSAGES {
        s.skip(s.len() - MAX_MESSAGES)
    } else {
        s
    }
}

/// The cached histories, by session id.
pub type History = Map<Seq<char>, Seq<ChatMessage>>;

/// Loading a session: the cached history where there is one; otherwise
/// what was read from disk, which is then cached.
pub open spec fn spec_load(m: History, sid: Seq<char>, disk: Seq<ChatMessage>) -> (
    Seq<ChatMessage>,
    History,
) {
    if m.contains_key(sid) {
        (m[sid], m)
    } else {
        (disk, m.insert(sid, disk))
    }
}

/// Adding a message: appended to the session's history (empty where the
/// session is not cached), which then keeps only its last `MAX_MESSAGES`.
pub open spec fn spec_add(m: History, sid: Seq<char>, msg: ChatMessage) -> History {
    let cur = if m.contains_key(sid) {
        m[sid]
    } else {
        seq![]
    };
    m.insert(sid, keep_last(cur.push(msg)))
}

/// One cached session.
struct SessionEntry {
    sid: String,
    messages: Vec<ChatMessage>,
}

spec fn has_sid(v: Seq<SessionEntry>, k: Seq<char>) -> bool {
    exists|i: int| 0 <= i < v.len() && v[i].sid@ == k
}

spec fn entries_map(v: Seq<SessionEntry>) -> History {
    Map::new(
        |k: Seq<char>| has_sid(v, k),
        |k: Seq<char>| v[choose|i: int| 0 <= i < v.len() && v[i].sid@ == k].messages@,
    )
}

spec fn distinct_sids(v: Seq<SessionEntry>) -> bool {
    forall|i: int, j: int| 0 <= i < j < v.len() ==> v[i].sid@ != v[j].sid@
}

proof fn lemma_entry_at(v: Seq<SessionEntry>, i: int)
    requires
        distinct_sids(v),
        0 <= i < v.len(),
    ensures
        entries_map(v).contains_key(v[i].sid@),
        entries_map(v)[v[i].sid@] == v[i].messages@,
{
    let k = v[i].sid@;
    assert(has_sid(v, k));
    let j = choose|j: int| 0 <= j < v.len() && v[j].sid@ == k;
    if j < i {
        assert(v[j].sid@ != v[i].sid@);
    } else if j > i {
        assert(v[i].sid@ != v[j].sid@);
    }
}

proof fn lemma_entries_update(v: Seq<SessionEntry>, p: int, e: SessionEntry)
    requires
        distinct_sids(v),
        0 <= p < v.len(),
        v[p].sid@ == e.sid@,
    ensures
        distinct_sids(v.update(p, e)),
        entries_map(v.update(p, e)) == entries_map(v).insert(e.sid@, e.messages@),
{
    let w = v.update(p, e);
    assert(distinct_sids(w)) by {
        assert forall|i: int, j: int| 0 <= i < j < w.len() implies w[i].sid@ != w[j].sid@ by {
            assert(v[i].sid@ != v[j].sid@);
        }
    }
    let m = entries_map(v).insert(e.sid@, e.messages@);
    assert forall|k: Seq<char>| #[trigger] entries_map(w).contains_key(k) <==> m.contains_key(
        k,
    ) by {
        if entries_map(w).contains_key(k) {
            let i = choose|i: int| 0 <= i < w.len() && w[i].sid@ == k;
            if i != p {
                assert(has_sid(v, k));
            }
        }
        if m.contains_key(k) && k != e.sid@ {
            let i = choose|i: int| 0 <= i < v.len() && v[i].sid@ == k;
            assert(w[i].sid@ == k);
        }
        if k == e.sid@ {
            assert(w[p].sid@ == k);
        }
    }
    assert forall|k: Seq<char>| #[trigger] entries_map(w).contains_key(k) implies entries_map(w)[k]
        == m[k] by {
        let i = choose|i: int| 0 <= i < w.len() && w[i].sid@ == k;
        lemma_entry_at(w, i);
        if i != p {
            lemma_entry_at(v, i);
        }
    }
    assert(entries_map(w) =~= m);
}

proof fn lemma_entries_push(v: Seq<SessionEntry>, e: SessionEntry)
    requires
        distinct_sids(v),
        !has_sid(v, e.sid@),
    ensures
        distinct_sids(v.push(e)),
        entries_map(v.push(e)) == entries_map(v).insert(e.sid@, e.messages@),
{
    let w = v.push(e);
    let p = v.len() as int;
    assert(distinct_sids(w)) by {
        assert forall|i: int, j: int| 0 <= i < j < w.len() implies w[i].sid@ != w[j].sid@ by {
            if j == p {
                assert(v[i].sid@ != e.sid@);
            } else {
                assert(v[i].sid@ != v[j].sid@);
            }
        }
    }
    let m = entries_map(v).insert(e.sid@, e.messages@);
    assert forall|k: Seq<char>| #[trigger] entries_map(w).contains_key(k) <==> m.contains_key(
        k,
    ) by {
        if entries_map(w).contains_key(k) {
            let i = choose|i: int| 0 <= i < w.len() && w[i].sid@ == k;
            if i != p {
                assert(has_sid(v, k));
            }
        }
        if m.contains_key(k) && k != e.sid@ {
            let i = choose|i: int| 0 <= i < v.len() && v[i].sid@ == k;
            assert(w[i].sid@ == k);
        }
        if k == e.sid@ {
            assert(w[p].sid@ == k);
        }
    }
    assert forall|k: Seq<char>| #[trigger] entries_map(w).contains_key(k) implies entries_map(w)[k]
        == m[k] by {
        let i = choose|i: int| 0 <= i < w.len() && w[i].sid@ == k;
        lemma_entry_at(w, i);
        if i != p {
            lemma_entry_at(v, i);
        }
    }
    assert(entries_map(w) =~= m);
}

proof fn lemma_entries_remove(v: Seq<SessionEntry>, p: int)
    requires
        distinct_sids(v),
        0 <= p < v.len(),
    ensures
        distinct_sids(v.remove(p)),
        entries_map(v.remove(p)) == entries_map(v).remove(v[p].sid@),
{
    let w = v.remove(p);
    assert(distinct_sids(w)) by {
        assert forall|i: int, j: int| 0 <= i < j < w.len() implies w[i].sid@ != w[j].sid@ by {
            let i0 = if i < p {
                i
            } else {
                i + 1
            };
            let j0 = if j < p {
                j
            } else {
                j + 1
            };
            assert(v[i0].sid@ != v[j0].sid@);
        }
    }
    let key = v[p].sid@;
    let m = entries_map(v).remove(key);
    assert forall|k: Seq<char>| #[trigger] entries_map(w).contains_key(k) <==> m.contains_key(
        k,
    ) by {
        if entries_map(w).contains_key(k) {
            let i = choose|i: int| 0 <= i < w.len() && w[i].sid@ == k;
            let i0 = if i < p {
                i
            } else {
                i + 1
            };
            assert(v[i0].sid@ == k);
            if k == key {
                if i0 < p {
                    assert(v[i0].sid@ != v[p].sid@);
                } else {
                    assert(v[p].sid@ != v[i0].sid@);
                }
            }
        }
        if m.contains_key(k) {
            let i = choose|i: int| 0 <= i < v.len() && v[i].sid@ == k;
            assert(i != p);
            if i < p {
                assert(w[i].sid@ == k);
            } else {
                assert(w[i - 1].sid@ == k);
            }
        }
    }
    assert forall|k: Seq<char>| #[trigger] entries_map(w).contains_key(k) implies entries_map(w)[k]
        == m[k] by {
        let i = choose|i: int| 0 <= i < w.len() && w[i].sid@ == k;
        lemma_entry_at(w, i);
        if i < p {
            lemma_entry_at(v, i);
        } else {
            lemma_entry_at(v, i + 1);
        }
    }
    assert(entries_map(w) =~= m);
}

/// The cached session histories.
pub struct SessionStore {
    entries: Vec<SessionEntry>,
}

impl View for SessionStore {
    type V = History;

    closed spec fn view(&self) -> History {
        entries_map(self.entries@)
    }
}

impl SessionStore {
    #[verifier::type_invariant]
    closed spec fn inv(self) -> bool {
        distinct_sids(self.entries@)
    }

    /// An empty store.
    pub fn new() -> (r: SessionStore)
        ensures
            r@ == History::empty(),
    {
        let r = SessionStore { entries: Vec::new() };
        assert(entries_map(r.entries@) =~= History::empty());
        r
    }

    fn find(&self, sid: &str) -> (r: Option<usize>)
        ensures
            match r {
                Some(i) => i < self.entries@.len() && self.entries@[i as int].sid@ == sid@,
                None => !has_sid(self.entries@, sid@),
            },
    {
        let mut i: usize = 0;
        while i < self.entries.len()
            invariant
                i <= self.entries@.len(),
                forall|j: int| 0 <= j < i ==> self.entries@[j].sid@ != sid@,
            decreases self.entries@.len() - i,
        {
            if str_eq(self.entries[i].sid.as_str(), sid) {
                return Some(i);
            }
            i = i + 1;
        }
        None
    }

    /// Whether session `sid` is cached.
    pub fn is_cached(&self, sid: &str) -> (r: bool)
        ensures
            r == self@.contains_key(sid@),
    {
        self.find(sid).is_some()
    }

    fn put(&mut self, sid: &str, messages: Vec<ChatMessage>)
        ensures
            final(self)@ == old(self)@.insert(sid@, messages@),
    {
        proof {
            use_type_invariant(&*self);
        }
        let ghost v = self.entries@;
        match self.find(sid) {
            Some(i) => {
                let e = SessionEntry { sid: String::from_str(sid), messages };
                let ghost ev = e;
                let mut es: Vec<SessionEntry> = Vec::new();
                std::mem::swap(&mut es, &mut self.entries);
                es.set(i, e);
                self.entries = es;
                proof {
                    lemma_entries_update(v, i as int, ev);
                }
            },
            None => {
                let e = SessionEntry { sid: String::from_str(sid), messages };
                let ghost ev = e;
                let mut es: Vec<SessionEntry> = Vec::new();
                std::mem::swap(&mut es, &mut self.entries);
                es.push(e);
                self.entries = es;
                proof {
                    lemma_entries_push(v, ev);
                }
            },
        }
    }

    /// The history of `sid`: the cached one, or else `on_disk` (what the
    /// session's file holds, empty where there is none), which is cached.
    pub fn get_messages(&mut self, sid: &str, on_disk: Vec<ChatMessage>) -> (r: Vec<ChatMessage>)
        ensures
            r@ == spec_load(old(self)@, sid@, on_disk@).0,
            final(self)@ == spec_load(old(self)@, sid@, on_disk@).1,
    {
        proof {
            use_type_invariant(&*self);
        }
        match self.find(sid) {
            Some(i) => {
                proof {
                    lemma_entry_at(self.entries@, i as int);
                }
                copy_messages(&self.entries[i].messages)
            },
            None => {
                let r = copy_messages(&on_disk);
                self.put(sid, on_disk);
                r
            },
        }
    }

    /// Adds a message with `role` and text `content` to `sid` (see
    /// `spec_add`); returns the session's new history, to be saved. A session
    /// that is not cached starts from an empty history here: to continue
    /// what its file holds, load it first (`get_messages`).
    pub fn add_message(&mut self, sid: &str, role: &str, content: &str) -> (r: Vec<ChatMessage>)
        ensures
            final(self)@ == spec_add(old(self)@, sid@, r@.last()),
            r@ == final(self)@[sid@],
            r@.len() >= 1,
            types::is_text_message(r@.last(), role@, content@),
    {
        proof {
            use_type_invariant(&*self);
        }
        let msg = ChatMessage::text(role, content);
        let ghost mv = msg;
        let mut cur: Vec<ChatMessage> = match self.find(sid) {
            Some(i) => {
                proof {
                    lemma_entry_at(self.entries@, i as int);
                }
                copy_messages(&self.entries[i].messages)
            },
            None => Vec::new(),
        };
        cur.push(msg);
        let ghost pushed = cur@;
        let kept: Vec<ChatMessage> = if cur.len() > MAX_MESSAGES {
            let drop_to: usize = cur.len() - MAX_MESSAGES;
            let mut k: Vec<ChatMessage> = Vec::new();
            let mut i: usize = drop_to;
            while i < cur.len()
                invariant
                    drop_to <= i <= cur@.len(),
                    k@ == cur@.subrange(drop_to as int, i as int),
                decreases cur@.len() - i,
            {
                k.push(cur[i].copy());
                assert(k@ =~= cur@.subrange(drop_to as int, i + 1));
                i = i + 1;
            }
            assert(k@ =~= pushed.skip(drop_to as int));
            k
        } else {
            cur
        };
        assert(kept@ == keep_last(pushed));
        assert(kept@.last() == mv);
        let r = copy_messages(&kept);
        self.put(sid, kept);
        r
    }

    /// Session `sid`: loaded as `get_messages` does where it is cached or
    /// its file exists, else none.
    pub fn get_session(&mut self, sid: &str, file_exists: bool, on_disk: Vec<ChatMessage>) -> (r:
        Option<Vec<ChatMessage>>)
        ensures
            (old(self)@.contains_key(sid@) || file_exists) ==> (r matches Some(v) && v@
                == spec_load(old(self)@, sid@, on_disk@).0),
            (old(self)@.contains_key(sid@) || file_exists) ==> final(self)@ == spec_load(
                old(self)@,
                sid@,
                on_disk@,
            ).1,
            !(old(self)@.contains_key(sid@) || file_exists) ==> r is None && final(self)@ == old(
                self,
            )@,
    {
        if self.is_cached(sid) || file_exists {
            Some(self.get_messages(sid, on_disk))
        } else {
            None
        }
    }

    /// Drops `sid` from the cache.
    pub fn delete_session(&mut self, sid: &str)
        ensures
            final(self)@ == old(self)@.remove(sid@),
    {
        proof {
            use_type_invariant(&*self);
        }
        let ghost v = self.entries@;
        match self.find(sid) {
            Some(i) => {
                let mut es: Vec<SessionEntry> = Vec::new();
                std::mem::swap(&mut es, &mut self.entries);
                es.remove(i);
                self.entries = es;
                proof {
                    lemma_entries_remove(v, i as int);
                }
            },
            None => {
                assert(entries_map(v) =~= entries_map(v).remove(sid@));
            },
        }
    }
}


// ---------------------------------------------------------------
// Laws of the history

/// What an add stores is what the next load of that session gives: the
/// previous history with the new message appended, cut to its last
/// `MAX_MESSAGES`, ending with the new message.
pub proof fn law_load_after_add(m: History, sid: Seq<char>, msg: ChatMessage, disk: Seq<ChatMessage>)
    ensures
        ({
            let cur = if m.contains_key(sid) {
                m[sid]
            } else {
                seq![]
            };
            let got = spec_load(spec_add(m, sid, msg), sid, disk).0;
            &&& got == keep_last(cur.push(msg))
            &&& got.len() > 0
            &&& got.last() == msg
        }),
{
}

/// What an add returns is what is saved in the session's file: a fresh
/// store (after a restart) that loads that file gives the same history as
/// the store that made the add.
pub proof fn law_reload_after_add(
    m: History,
    sid: Seq<char>,
    msg: ChatMessage,
    disk: Seq<ChatMessage>,
)
    ensures
        ({
            let saved = spec_add(m, sid, msg)[sid];
            spec_load(History::empty(), sid, saved).0 == spec_load(spec_add(m, sid, msg), sid, disk).0
        }),
{
}

/// A session never holds more than `MAX_MESSAGES` messages after an add,
/// and holds all of them while there are no more than that.
pub proof fn law_history_bounded(m: History, sid: Seq<char>, msg: ChatMessage)
    ensures
        spec_add(m, sid, msg)[sid].len() <= MAX_MESSAGES,
        ({
            let cur = if m.contains_key(sid) {
                m[sid]
            } else {
                seq![]
            };
            cur.len() < MAX_MESSAGES ==> spec_add(m, sid, msg)[sid] == cur.push(msg)
        }),
{
}

/// Adding to one session leaves every other session as it was.
pub proof fn law_add_isolated(m: History, sid: Seq<char>, other: Seq<char>, msg: ChatMessage)
    requires
        other != sid,
    ensures
        spec_add(m, sid, msg).contains_key(other) == m.contains_key(other),
        m.contains_key(other) ==> spec_add(m, sid, msg)[other] == m[other],
{
}

/// Once loaded, a session is served from the cache: a second load gives
/// the same history whatever the disk holds, and changes nothing.
pub proof fn law_load_cached(
    m: History,
    sid: Seq<char>,
    d1: Seq<ChatMessage>,
    d2: Seq<ChatMessage>,
)
    ensures
        ({
            let (first, m1) = spec_load(m, sid, d1);
            let (second, m2) = spec_load(m1, sid, d2);
            second == first && m2 == m1
        }),
{
}

/// After a delete the session is no longer cached, and the others stay.
pub proof fn law_delete_forgets(m: History, sid: Seq<char>, other: Seq<char>)
    ensures
        !m.remove(sid).contains_key(sid),
        other != sid ==> m.remove(sid).contains_key(other) == m.contains_key(other),
{
}

// ---------------------------------------------------------------
// Session files

/// The file name of session `sid`: `/` replaced by `_`, then `.json`.
pub open spec fn spec_session_file_name(sid: Seq<char>) -> Seq<char> {
    sid.map_values(|c: char| if c == '/' { '_' } else { c }) + ".json"@
}

/// A session's file name holds no `/`: every session is saved directly in
/// the sessions directory, whatever its id.
pub proof fn law_session_file_flat(sid: Seq<char>)
    ensures
        forall|i: int|
            0 <= i < spec_session_file_name(sid).len() ==> #[trigger] spec_session_file_name(sid)[i]
                != '/',
{
    reveal_strlit(".json");
    let m = sid.map_values(|c: char| if c == '/' { '_' } else { c });
    assert forall|i: int| 0 <= i < spec_session_file_name(sid).len() implies #[trigger] spec_session_file_name(sid)[i] != '/' by {
        if i < m.len() {
            assert(spec_session_file_name(sid)[i] == m[i]);
        } else {
            assert(spec_session_file_name(sid)[i] == ".json"@[i - m.len()]);
        }
    }
}

pub fn session_file_name(sid: &str) -> (r: String)
    ensures
        r@ == spec_session_file_name(sid@),
{
    let v = chars_of(sid);
    let mut r = String::new();
    let mut i: usize = 0;
    let ghost mapped = sid@.map_values(|c: char| if c == '/' { '_' } else { c });
    while i < v.len()
        invariant
            i <= v@.len(),
            v@ == sid@,
            mapped == sid@.map_values(|c: char| if c == '/' { '_' } else { c }),
            r@ == mapped.take(i as int),
        decreases v@.len() - i,
    {
        let c = v[i];
        push_char(&mut r, if c == '/' { '_' } else { c });
        assert(r@ =~= mapped.take(i + 1));
        i = i + 1;
    }
    assert(mapped.take(v@.len() as int) =~= mapped);
    r.append(".json");
    r
}

/// The session ids among file names: those ending in `.json`, without it.
pub open spec fn json_stems(names: Seq<Seq<char>>) -> Seq<Seq<char>>
    decreases names.len(),
{
    if names.len() == 0 {
        seq![]
    } else {
        json_stems(names.drop_last()) + if text::is_suffix(".json"@, names.last()) {
            seq![names.last().take(names.last().len() - ".json"@.len())]
        } else {
            seq![]
        }
    }
}

impl SessionStore {
    /// The saved sessions, from the names of the files in the sessions
    /// directory: the `.json` files' stems, sorted.
    pub fn list_sessions(&self, file_names: Vec<String>) -> (r: Vec<String>)
        ensures
            text::sorted_seqs(text::string_views(r@)),
            text::string_views(r@).to_multiset() == json_stems(text::string_views(file_names@)).to_multiset(),
    {
        let suffix = chars_of(".json");
        let mut stems: Vec<String> = Vec::new();
        let mut i: usize = 0;
        let n: usize = file_names.len();
        let ghost fv = text::string_views(file_names@);
        assert(fv.take(0) =~= Seq::<Seq<char>>::empty());
        assert(text::string_views(stems@) =~= Seq::<Seq<char>>::empty());
        while i < n
            invariant
                i <= n == file_names@.len(),
                fv == text::string_views(file_names@),
                suffix@ == ".json"@,
                text::string_views(stems@) == json_stems(fv.take(i as int)),
            decreases n - i,
        {
            assert(fv.take(i + 1).drop_last() =~= fv.take(i as int));
            assert(fv.take(i + 1).last() == file_names@[i as int]@);
            let v = chars_of(file_names[i].as_str());
            let ghost s0 = text::string_views(stems@);
            if v.len() >= suffix.len() && text::occurs_at_exec(&v, &suffix, v.len() - suffix.len()) {
                let stem = text::slice_chars(&v, 0, v.len() - suffix.len());
                stems.push(string_from_chars(&stem));
                assert(text::string_views(stems@) =~= s0 + seq![stem@]);
            } else {
                assert(text::string_views(stems@) =~= s0 + Seq::empty());
            }
            i = i + 1;
        }
        assert(fv.take(n as int) =~= fv);
        text::sort_strings(stems)
    }
}

} // verus!
