//! High-level browser actions: search and page-text results.
use vstd::prelude::*;
use crate::codec;
use crate::text;
use crate::text::{chars_of, trim_str};

verus! {

/// One search result.
#[derive(Debug)]
pub struct SearchResult {
    pub title: String,
    pub url: String,
    pub snippet: String,
}

/// One feed post.
#[derive(Debug)]
pub struct LinkedInPost {
    pub author: String,
    pub text: String,
    pub likes: String,
}

/// The search page for `query`.
pub fn search_url(query: &str) -> (r: String)
    ensures
        r@ == "https://www.google.com/search?q="@ + codec::spec_url_encode(
            vstd::utf8::encode_utf8(query@),
        ),
{
    let mut r = String::from_str("https://www.google.com/search?q=");
    let q = codec::url_encode(query);
    r.append(q.as_str());
    r
}

pub open spec fn titled(v: Seq<SearchResult>) -> Seq<SearchResult>
    decreases v.len(),
{
    if v.len() == 0 {
        seq![]
    } else {
        titled(v.drop_last()) + if v.last().title@.len() > 0 {
            seq![v.last()]
        } else {
            seq![]
        }
    }
}

/// The results with a title, in order.
pub fn keep_titled(v: Vec<SearchResult>) -> (r: Vec<SearchResult>)
    ensures
        r@ == titled(v@),
{
    let mut r: Vec<SearchResult> = Vec::new();
    let mut v = v;
    let ghost orig = v@;
    let ghost mut k: int = 0;
    assert(orig.take(0) =~= Seq::<SearchResult>::empty());
    assert(orig.take(0) + v@ =~= orig);
    while v.len() > 0
        invariant
            0 <= k <= orig.len(),
            orig.take(k) + v@ == orig,
            r@ == titled(orig.take(k)),
        decreases v@.len(),
    {
        let ghost v0 = v@;
        let x = v.remove(0);
        assert(orig[k] == v0[0]);
        assert(orig.take(k + 1).drop_last() =~= orig.take(k));
        assert(orig.take(k + 1).last() == x);
        assert(orig.take(k + 1) + v@ =~= orig);
        let tv = chars_of(x.title.as_str());
        if tv.len() > 0 {
            r.push(x);
        } else {
            assert(r@ =~= r@ + Seq::<SearchResult>::empty());
        }
        proof {
            k = k + 1;
        }
    }
    assert(orig.take(k) =~= orig);
    r
}

pub open spec fn authored(v: Seq<LinkedInPost>) -> Seq<LinkedInPost>
    decreases v.len(),
{
    if v.len() == 0 {
        seq![]
    } else {
        authored(v.drop_last()) + if v.last().author@.len() > 0 {
            seq![v.last()]
        } else {
            seq![]
        }
    }
}

/// A post has an author.
pub open spec fn has_author() -> spec_fn(LinkedInPost) -> bool {
    |p: LinkedInPost| p.author@.len() > 0
}

proof fn lemma_authored_filter(v: Seq<LinkedInPost>)
    ensures
        authored(v) == v.filter(has_author()),
    decreases v.len(),
{
    reveal(Seq::filter);
    if v.len() > 0 {
        lemma_authored_filter(v.drop_last());
        let f = v.drop_last().filter(has_author());
        if v.last().author@.len() > 0 {
            assert(f + seq![v.last()] =~= f.push(v.last()));
        } else {
            assert(f + Seq::<LinkedInPost>::empty() =~= f);
        }
    }
}

/// The feed keeps exactly the posts that have an author, whatever their
/// text and likes, in their order: every post with an author is there, and
/// no other.
pub proof fn law_authored_posts_kept(v: Seq<LinkedInPost>)
    ensures
        authored(v) == v.filter(has_author()),
        forall|i: int| 0 <= i < v.len() && v[i].author@.len() > 0 ==> authored(v).contains(#[trigger] v[i]),
        forall|i: int| 0 <= i < authored(v).len() ==> (#[trigger] authored(v)[i]).author@.len() > 0,
{
    broadcast use vstd::seq_lib::group_filter_ensures;
    lemma_authored_filter(v);
    assert forall|i: int| 0 <= i < v.len() && v[i].author@.len() > 0 implies authored(v).contains(#[trigger] v[i]) by {
        v.lemma_filter_contains(has_author(), i);
    }
    assert forall|i: int| 0 <= i < authored(v).len() implies (#[trigger] authored(v)[i]).author@.len() > 0 by {
        v.lemma_filter_pred(has_author(), i);
    }
}

/// The posts with an author, in order.
pub fn keep_authored(v: Vec<LinkedInPost>) -> (r: Vec<LinkedInPost>)
    ensures
        r@ == authored(v@),
{
    let mut r: Vec<LinkedInPost> = Vec::new();
    let mut v = v;
    let ghost orig = v@;
    let ghost mut k: int = 0;
    assert(orig.take(0) =~= Seq::<LinkedInPost>::empty());
    assert(orig.take(0) + v@ =~= orig);
    while v.len() > 0
        invariant
            0 <= k <= orig.len(),
            orig.take(k) + v@ == orig,
            r@ == authored(orig.take(k)),
        decreases v@.len(),
    {
        let ghost v0 = v@;
        let x = v.remove(0);
        assert(orig[k] == v0[0]);
        assert(orig.take(k + 1).drop_last() =~= orig.take(k));
        assert(orig.take(k + 1).last() == x);
        assert(orig.take(k + 1) + v@ =~= orig);
        let tv = chars_of(x.author.as_str());
        if tv.len() > 0 {
            r.push(x);
        } else {
            assert(r@ =~= r@ + Seq::<LinkedInPost>::empty());
        }
        proof {
            k = k + 1;
        }
    }
    assert(orig.take(k) =~= orig);
    r
}

/// The page text handed back: the extracted text trimmed; where it has more
/// than `max_chars` characters, its first `max_chars` characters followed by
/// `\n...[truncated]`.
pub open spec fn spec_page_text(raw: Seq<char>, max_chars: usize) -> Seq<char> {
    let t = text::trim(raw);
    if t.len() > max_chars {
        t.take(max_chars as int) + "\n...[truncated]"@
    } else {
        t
    }
}

pub fn page_text(raw: &str, max_chars: usize) -> (r: String)
    ensures
        r@ == spec_page_text(raw@, max_chars),
{
    let t = trim_str(raw);
    let v = chars_of(t.as_str());
    if v.len() > max_chars {
        let head = text::slice_chars(&v, 0, max_chars);
        let mut r = text::string_from_chars(&head);
        r.append("\n...[truncated]");
        r
    } else {
        t
    }
}

// ---------------------------------------------------------------
// Liking a post

/// The page script that describes feed post `post_index`: its author, the
/// start of its text and whether a like button was found.
pub open spec fn spec_like_info_script(post_index: usize) -> Seq<char> {
    r#"
    (function() {
        var items = document.querySelectorAll('.feed-shared-update-v2');
        var el = items["#@ + codec::spec_decimal(post_index as nat) + r#"];
        if (!el) return JSON.stringify({error: 'post not found'});
        var authorEl = el.querySelector('.update-components-actor__name') ||
                       el.querySelector('.update-components-actor__title') ||
                       el.querySelector('[class*="actor__name"]');
        var textEl = el.querySelector('.feed-shared-text') ||
                     el.querySelector('.update-components-text') ||
                     el.querySelector('.attributed-text-segment-list__content');
        var likeBtn = el.querySelector('button[aria-label*="Like"]') || el.querySelector('.reactions-react-button');
        var authorRaw = authorEl ? authorEl.textContent.trim().split('\n')[0].trim() : '';
        var half = Math.floor(authorRaw.length / 2);
        if (half > 2 && authorRaw.slice(0, half) === authorRaw.slice(half)) authorRaw = authorRaw.slice(0, half);
        return JSON.stringify({
            author: authorRaw,
            text: textEl ? textEl.textContent.trim().slice(0, 200) : '',
            like_button_found: likeBtn !== null
        });
    })()"#@
}

/// The page script that clicks the like button of feed post `post_index`.
pub open spec fn spec_like_click_script(post_index: usize) -> Seq<char> {
    r#"
    (function() {
        var items = document.querySelectorAll('.feed-shared-update-v2');
        var el = items["#@ + codec::spec_decimal(post_index as nat) + r#"];
        if (!el) return 'post not found';
        var btn = el.querySelector('button[aria-label*="Like"]') || el.querySelector('.reactions-react-button');
        if (!btn) return 'like button not found';
        btn.click();
        return 'clicked';
    })()"#@
}

pub fn like_info_script(post_index: usize) -> (r: String)
    ensures
        r@ == spec_like_info_script(post_index),
{
    let mut r = String::from_str(r#"
    (function() {
        var items = document.querySelectorAll('.feed-shared-update-v2');
        var el = items["#);
    let d = codec::decimal(post_index as u64);
    r.append(d.as_str());
    r.append(r#"];
        if (!el) return JSON.stringify({error: 'post not found'});
        var authorEl = el.querySelector('.update-components-actor__name') ||
                       el.querySelector('.update-components-actor__title') ||
                       el.querySelector('[class*="actor__name"]');
        var textEl = el.querySelector('.feed-shared-text') ||
                     el.querySelector('.update-components-text') ||
                     el.querySelector('.attributed-text-segment-list__content');
        var likeBtn = el.querySelector('button[aria-label*="Like"]') || el.querySelector('.reactions-react-button');
        var authorRaw = authorEl ? authorEl.textContent.trim().split('\n')[0].trim() : '';
        var half = Math.floor(authorRaw.length / 2);
        if (half > 2 && authorRaw.slice(0, half) === authorRaw.slice(half)) authorRaw = authorRaw.slice(0, half);
        return JSON.stringify({
            author: authorRaw,
            text: textEl ? textEl.textContent.trim().slice(0, 200) : '',
            like_button_found: likeBtn !== null
        });
    })()"#);
    r
}

pub fn like_click_script(post_index: usize) -> (r: String)
    ensures
        r@ == spec_like_click_script(post_index),
{
    let mut r = String::from_str(r#"
    (function() {
        var items = document.querySelectorAll('.feed-shared-update-v2');
        var el = items["#);
    let d = codec::decimal(post_index as u64);
    r.append(d.as_str());
    r.append(r#"];
        if (!el) return 'post not found';
        var btn = el.querySelector('button[aria-label*="Like"]') || el.querySelector('.reactions-react-button');
        if (!btn) return 'like button not found';
        btn.click();
        return 'clicked';
    })()"#);
    r
}

/// What a dry run reports in place of the click.
pub fn dry_run_action() -> (r: String)
    ensures
        r@ == "not liked (dry run)"@,
{
    String::from_str("not liked (dry run)")
}

} // verus!
