//! The DevTools endpoints and tab selection.
use vstd::prelude::*;
use crate::text;
use crate::text::{chars_of, str_contains, str_starts_with};

verus! {

/// A browser tab as the `/json` endpoint lists it.
#[derive(Debug)]
pub struct TabInfo {
    pub id: String,
    pub url: String,
    pub title: String,
    /// `webSocketDebuggerUrl`, empty where missing.
    pub ws_url: String,
}

pub open spec fn cdp_http() -> Seq<char> {
    "http://127.0.0.1:9222"@
}

/// The tab listing endpoint.
pub fn list_tabs_url() -> (r: String)
    ensures
        r@ == cdp_http() + "/json"@,
{
    let mut r = String::from_str("http://127.0.0.1:9222");
    r.append("/json");
    r
}

/// The endpoint that opens a tab on `url`.
pub fn new_tab_url(url: &str) -> (r: String)
    ensures
        r@ == cdp_http() + "/json/new?"@ + url@,
{
    let mut r = String::from_str("http://127.0.0.1:9222");
    r.append("/json/new?");
    r.append(url);
    r
}

/// The endpoint that closes tab `tab_id`.
pub fn close_tab_url(tab_id: &str) -> (r: String)
    ensures
        r@ == cdp_http() + "/json/close/"@ + tab_id@,
{
    let mut r = String::from_str("http://127.0.0.1:9222");
    r.append("/json/close/");
    r.append(tab_id);
    r
}

/// The debugger socket of a new tab: the one it reports, or the page path
/// under the local debugging port where it reports none.
pub fn session_ws_url(tab: &TabInfo) -> (r: String)
    ensures
        r@ == if tab.ws_url@.len() == 0 {
            "ws://127.0.0.1:9222/devtools/page/"@ + tab.id@
        } else {
            tab.ws_url@
        },
{
    let wv = chars_of(tab.ws_url.as_str());
    if wv.len() == 0 {
        let mut r = String::from_str("ws://127.0.0.1:9222/devtools/page/");
        r.append(tab.id.as_str());
        r
    } else {
        tab.ws_url.clone()
    }
}

/// How many 100 ms polls `wait_for_selector` makes: `max_ms / 100`, at
/// least one.
pub fn poll_steps(max_ms: u64) -> (r: u64)
    ensures
        r == if max_ms / 100 >= 1 {
            max_ms / 100
        } else {
            1
        },
{
    let s: u64 = max_ms / 100;
    if s >= 1 {
        s
    } else {
        1
    }
}

pub open spec fn candidate(t: TabInfo, prefix: Seq<char>) -> bool {
    text::is_prefix(prefix, t.url@) && t.ws_url@.len() > 0
}

pub open spec fn is_feed(t: TabInfo) -> bool {
    text::contains(t.title@, "Feed"@)
}

/// The positions of the candidate tabs whose feed-ness is `feed`, in order.
pub open spec fn picks(tabs: Seq<TabInfo>, prefix: Seq<char>, feed: bool) -> Seq<usize>
    decreases tabs.len(),
{
    if tabs.len() == 0 {
        seq![]
    } else {
        picks(tabs.drop_last(), prefix, feed) + if candidate(tabs.last(), prefix) && is_feed(
            tabs.last(),
        ) == feed {
            seq![(tabs.len() - 1) as usize]
        } else {
            seq![]
        }
    }
}

/// The tabs to try attaching to, by position: those whose URL starts with
/// `prefix` and that have a debugger socket, the feed pages first, each
/// group in listing order.
pub fn attach_candidates(tabs: &Vec<TabInfo>, prefix: &str) -> (r: Vec<usize>)
    ensures
        r@ == picks(tabs@, prefix@, true) + picks(tabs@, prefix@, false),
{
    let mut feed: Vec<usize> = Vec::new();
    let mut other: Vec<usize> = Vec::new();
    let mut i: usize = 0;
    let n: usize = tabs.len();
    assert(tabs@.take(0) =~= Seq::<TabInfo>::empty());
    while i < n
        invariant
            i <= n == tabs@.len(),
            feed@ == picks(tabs@.take(i as int), prefix@, true),
            other@ == picks(tabs@.take(i as int), prefix@, false),
        decreases n - i,
    {
        let ghost t = tabs@.take(i + 1);
        assert(t.drop_last() =~= tabs@.take(i as int));
        assert(t.last() == tabs@[i as int]);
        let tab = &tabs[i];
        let wv = chars_of(tab.ws_url.as_str());
        let ghost f0 = feed@;
        let ghost o0 = other@;
        if str_starts_with(tab.url.as_str(), prefix) && wv.len() > 0 {
            if str_contains(tab.title.as_str(), "Feed") {
                feed.push(i);
                assert(other@ =~= o0 + Seq::<usize>::empty());
            } else {
                other.push(i);
                assert(feed@ =~= f0 + Seq::<usize>::empty());
            }
        } else {
            assert(feed@ =~= f0 + Seq::<usize>::empty());
            assert(other@ =~= o0 + Seq::<usize>::empty());
        }
        i = i + 1;
    }
    assert(tabs@.take(n as int) =~= tabs@);
    let mut r = feed;
    let mut o = other;
    r.append(&mut o);
    r
}

/// The PNG bytes of a screenshot reply's base64 `data`, where it decodes.
pub fn decode_screenshot(data: &str) -> (r: Option<Vec<u8>>)
    ensures
        match r {
            Some(v) => crate::codec::spec_b64_decode(
                crate::codec::B64Engine::Standard,
                vstd::utf8::encode_utf8(data@),
            ) == Some(v@),
            None => crate::codec::spec_b64_decode(
                crate::codec::B64Engine::Standard,
                vstd::utf8::encode_utf8(data@),
            ) is None,
        },
{
    crate::codec::b64_decode(crate::codec::B64Engine::Standard, data.as_bytes())
}

} // verus!
