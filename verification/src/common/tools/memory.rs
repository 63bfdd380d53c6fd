//! The three memory layers as text: file names for topics and references,
//! the daily log entry, line search, listings and the soul prompt. Walking
//! directories and reading and writing files is the caller's part.
use vstd::prelude::*;
use crate::text;
use crate::text::{
    char_is_alphanumeric, chars_of, push_char, str_contains, str_to_lowercase, string_from_chars,
    trim_str,
};

verus! {

// ---------------------------------------------------------------
// Names

pub open spec fn name_char_kept(c: char) -> bool {
    text::alnum(c) || c == '-' || c == '_'
}

/// The characters of `s` that may stand in a file name.
pub open spec fn keep_name_chars(s: Seq<char>) -> Seq<char>
    decreases s.len(),
{
    if s.len() == 0 {
        seq![]
    } else {
        keep_name_chars(s.drop_last()) + if name_char_kept(s.last()) {
            seq![s.last()]
        } else {
            seq![]
        }
    }
}

/// A topic or document name made safe as a file name: trimmed, lower-cased,
/// spaces made `-`, only letters, digits, `-` and `_` kept; `untitled`
/// where nothing is left.
pub open spec fn spec_sanitize(name: Seq<char>) -> Seq<char> {
    let lowered = text::lowercase(text::trim(name));
    let dashed = lowered.map_values(|c: char| if c == ' ' { '-' } else { c });
    let kept = keep_name_chars(dashed);
    if kept.len() == 0 {
        "untitled"@
    } else {
        kept
    }
}

proof fn lemma_keep_name_chars(s: Seq<char>)
    ensures
        forall|i: int|
            0 <= i < keep_name_chars(s).len() ==> name_char_kept(#[trigger] keep_name_chars(s)[i]),
    decreases s.len(),
{
    if s.len() > 0 {
        lemma_keep_name_chars(s.drop_last());
        let p = keep_name_chars(s.drop_last());
        assert forall|i: int| 0 <= i < keep_name_chars(s).len() implies name_char_kept(
            #[trigger] keep_name_chars(s)[i],
        ) by {
            if i < p.len() {
                assert(keep_name_chars(s)[i] == p[i]);
            }
        }
    }
}

/// A sanitized name is never empty and is made only of letters, digits,
/// `-` and `_` (so no `/`, `.` or ASCII whitespace): it cannot leave its
/// directory.
pub proof fn law_sanitize_safe(name: Seq<char>)
    ensures
        spec_sanitize(name).len() > 0,
        forall|i: int|
            0 <= i < spec_sanitize(name).len() ==> name_char_kept(#[trigger] spec_sanitize(name)[i]),
{
    reveal_strlit("untitled");
    let lowered = text::lowercase(text::trim(name));
    let dashed = lowered.map_values(|c: char| if c == ' ' { '-' } else { c });
    lemma_keep_name_chars(dashed);
    lemma_untitled_lower();
}

/// A lower-case ASCII letter, a digit, `-` or `_`.
pub open spec fn lower_name_char(c: char) -> bool {
    ('a' <= c <= 'z') || ('0' <= c <= '9') || c == '-' || c == '_'
}

proof fn lemma_untitled_lower()
    ensures
        forall|i: int| 0 <= i < "untitled"@.len() ==> lower_name_char(#[trigger] "untitled"@[i]),
{
    reveal_strlit("untitled");
    assert("untitled"@ =~= seq!['u', 'n', 't', 'i', 't', 'l', 'e', 'd']);
}

proof fn lemma_keep_lower(s: Seq<char>)
    requires
        forall|j: int| 0 <= j < s.len() ==> (#[trigger] s[j] as u32) < 128 && !('A' <= s[j] <= 'Z') && s[j] != ' ',
    ensures
        forall|i: int| 0 <= i < keep_name_chars(s).len() ==> lower_name_char(#[trigger] keep_name_chars(s)[i]),
    decreases s.len(),
{
    if s.len() > 0 {
        let d = s.drop_last();
        assert forall|j: int| 0 <= j < d.len() implies (#[trigger] d[j] as u32) < 128 && !('A' <= d[j] <= 'Z') && d[j] != ' ' by {
            assert(d[j] == s[j]);
        }
        lemma_keep_lower(d);
        let p = keep_name_chars(d);
        let c = s.last();
        assert(c == s[s.len() - 1]);
        assert forall|i: int| 0 <= i < keep_name_chars(s).len() implies lower_name_char(
            #[trigger] keep_name_chars(s)[i],
        ) by {
            if i < p.len() {
                assert(keep_name_chars(s)[i] == p[i]);
            } else {
                assert(keep_name_chars(s)[i] == c);
            }
        }
    }
}

proof fn lemma_keep_all(s: Seq<char>)
    requires
        forall|j: int| 0 <= j < s.len() ==> lower_name_char(#[trigger] s[j]),
    ensures
        keep_name_chars(s) == s,
    decreases s.len(),
{
    if s.len() > 0 {
        let d = s.drop_last();
        assert forall|j: int| 0 <= j < d.len() implies lower_name_char(#[trigger] d[j]) by {
            assert(d[j] == s[j]);
        }
        lemma_keep_all(d);
        assert(lower_name_char(s[s.len() - 1]));
        assert(name_char_kept(s.last()));
        assert(d + seq![s.last()] =~= s);
    }
}

/// Sanitizing an ASCII name gives lower-case letters, digits, `-` and `_`
/// only, and sanitizing that again changes nothing.
pub proof fn law_sanitize_idempotent_ascii(name: Seq<char>)
    requires
        vstd::utf8::is_ascii_chars(name),
    ensures
        forall|i: int|
            0 <= i < spec_sanitize(name).len() ==> lower_name_char(#[trigger] spec_sanitize(name)[i]),
        spec_sanitize(spec_sanitize(name)) == spec_sanitize(name),
{
    reveal_strlit("untitled");
    let t = text::trim(name);
    text::lemma_trim_sub(name);
    assert(vstd::utf8::is_ascii_chars(t)) by {
        assert forall|i: int| 0 <= i < t.len() implies '\0' <= #[trigger] t[i] <= '\u{7f}' by {
            let j = choose|j: int| 0 <= j < name.len() && t[i] == name[j];
        }
    }
    let lowered = text::lowercase(t);
    assert(lowered == text::ascii_lower_seq(t));
    let dashed = lowered.map_values(|c: char| if c == ' ' { '-' } else { c });
    assert forall|j: int| 0 <= j < dashed.len() implies (#[trigger] dashed[j] as u32) < 128 && !('A' <= dashed[j] <= 'Z') && dashed[j] != ' ' by {
        assert(dashed[j] == (if lowered[j] == ' ' { '-' } else { lowered[j] }));
        assert(lowered[j] == text::ascii_lower(t[j]));
    }
    lemma_keep_lower(dashed);
    lemma_untitled_lower();
    let s = spec_sanitize(name);
    assert forall|i: int| 0 <= i < s.len() implies lower_name_char(#[trigger] s[i]) by {}
    assert forall|j: int| 0 <= j < s.len() implies !text::is_ws(#[trigger] s[j]) by {
        assert(lower_name_char(s[j]));
    }
    text::lemma_trim_no_ws(s);
    assert(vstd::utf8::is_ascii_chars(s)) by {
        assert forall|i: int| 0 <= i < s.len() implies '\0' <= #[trigger] s[i] <= '\u{7f}' by {
            assert(lower_name_char(s[i]));
        }
    }
    let l2 = text::lowercase(s);
    assert(l2 =~= s) by {
        assert forall|i: int| 0 <= i < s.len() implies #[trigger] l2[i] == s[i] by {
            assert(lower_name_char(s[i]));
        }
    }
    let d2 = l2.map_values(|c: char| if c == ' ' { '-' } else { c });
    assert(d2 =~= s) by {
        assert forall|i: int| 0 <= i < s.len() implies #[trigger] d2[i] == s[i] by {
            assert(lower_name_char(s[i]));
        }
    }
    lemma_keep_all(s);
}

pub fn sanitize(name: &str) -> (r: String)
    ensures
        r@ == spec_sanitize(name@),
{
    let t = trim_str(name);
    let lowered = str_to_lowercase(t.as_str());
    let v = chars_of(lowered.as_str());
    let ghost dashed = v@.map_values(|c: char| if c == ' ' { '-' } else { c });
    let mut kept: Vec<char> = Vec::new();
    let mut i: usize = 0;
    assert(dashed.take(0) =~= Seq::<char>::empty());
    while i < v.len()
        invariant
            i <= v@.len(),
            dashed == v@.map_values(|c: char| if c == ' ' { '-' } else { c }),
            kept@ == keep_name_chars(dashed.take(i as int)),
        decreases v@.len() - i,
    {
        let c0 = v[i];
        let c = if c0 == ' ' {
            '-'
        } else {
            c0
        };
        assert(dashed.take(i + 1).drop_last() =~= dashed.take(i as int));
        assert(dashed.take(i + 1).last() == c);
        if char_is_alphanumeric(c) || c == '-' || c == '_' {
            kept.push(c);
        } else {
            assert(kept@ =~= kept@ + Seq::<char>::empty());
        }
        i = i + 1;
    }
    assert(dashed.take(v@.len() as int) =~= dashed);
    if kept.len() == 0 {
        String::from_str("untitled")
    } else {
        string_from_chars(&kept)
    }
}

/// The file name of a topic or reference document: its sanitized name and
/// `.md`.
pub fn md_file_name(name: &str) -> (r: String)
    ensures
        r@ == spec_sanitize(name@) + ".md"@,
{
    let mut r = sanitize(name);
    r.append(".md");
    r
}

/// A directory entry name Markdown files are recognised by: a non-empty
/// stem and the extension `md` (so `.md` alone is not one).
pub open spec fn spec_is_md(name: Seq<char>) -> bool {
    name.len() > 3 && text::is_suffix(".md"@, name)
}

/// The name without `.md`.
pub open spec fn md_stem(name: Seq<char>) -> Seq<char> {
    name.take(name.len() - 3)
}

pub fn is_md_file(name: &str) -> (r: bool)
    ensures
        r == spec_is_md(name@),
{
    let v = chars_of(name);
    let suffix = chars_of(".md");
    proof {
        reveal_strlit(".md");
    }
    v.len() > 3 && text::occurs_at_exec(&v, &suffix, v.len() - 3)
}

/// The Markdown file names among `names`, sorted (the order files are read
/// in).
pub open spec fn md_names(names: Seq<Seq<char>>) -> Seq<Seq<char>>
    decreases names.len(),
{
    if names.len() == 0 {
        seq![]
    } else {
        md_names(names.drop_last()) + if spec_is_md(names.last()) {
            seq![names.last()]
        } else {
            seq![]
        }
    }
}

pub fn md_files_sorted(names: Vec<String>) -> (r: Vec<String>)
    ensures
        text::sorted_seqs(text::string_views(r@)),
        text::string_views(r@).to_multiset() == md_names(text::string_views(names@)).to_multiset(),
{
    let mut kept: Vec<String> = Vec::new();
    let mut i: usize = 0;
    let n: usize = names.len();
    let ghost nv = text::string_views(names@);
    assert(nv.take(0) =~= Seq::<Seq<char>>::empty());
    assert(text::string_views(kept@) =~= Seq::<Seq<char>>::empty());
    while i < n
        invariant
            i <= n == names@.len(),
            nv == text::string_views(names@),
            text::string_views(kept@) == md_names(nv.take(i as int)),
        decreases n - i,
    {
        assert(nv.take(i + 1).drop_last() =~= nv.take(i as int));
        assert(nv.take(i + 1).last() == names@[i as int]@);
        let ghost k0 = text::string_views(kept@);
        if is_md_file(names[i].as_str()) {
            kept.push(names[i].clone());
            assert(text::string_views(kept@) =~= k0 + seq![names@[i as int]@]);
        } else {
            assert(text::string_views(kept@) =~= k0 + Seq::empty());
        }
        i = i + 1;
    }
    assert(nv.take(n as int) =~= nv);
    text::sort_strings(kept)
}

/// The stems of the Markdown file names among `names`, in order.
pub open spec fn md_stems(names: Seq<Seq<char>>) -> Seq<Seq<char>>
    decreases names.len(),
{
    if names.len() == 0 {
        seq![]
    } else {
        md_stems(names.drop_last()) + if spec_is_md(names.last()) {
            seq![md_stem(names.last())]
        } else {
            seq![]
        }
    }
}

/// A listing of topics or documents from the names of the files in their
/// directory: the Markdown stems, sorted, one per line (`sorted`); `empty`
/// where there are none.
pub open spec fn spec_listing(names: Seq<Seq<char>>, empty: Seq<char>, sorted: Seq<Seq<char>>, r: Seq<char>) -> bool {
    &&& text::sorted_seqs(sorted)
    &&& sorted.to_multiset() == md_stems(names).to_multiset()
    &&& r == if sorted.len() == 0 {
        empty
    } else {
        text::join(sorted, "\n"@)
    }
}

/// The listing of topics or documents (see `spec_listing`), with the
/// sorted stems it lists.
pub fn listing(names: Vec<String>, empty: &str) -> (r: (String, Vec<String>))
    ensures
        spec_listing(text::string_views(names@), empty@, text::string_views(r.1@), r.0@),
{
    let mut stems: Vec<String> = Vec::new();
    let mut i: usize = 0;
    let n: usize = names.len();
    let ghost nv = text::string_views(names@);
    assert(nv.take(0) =~= Seq::<Seq<char>>::empty());
    assert(text::string_views(stems@) =~= Seq::<Seq<char>>::empty());
    proof {
        reveal_strlit(".md");
    }
    while i < n
        invariant
            i <= n == names@.len(),
            nv == text::string_views(names@),
            text::string_views(stems@) == md_stems(nv.take(i as int)),
        decreases n - i,
    {
        assert(nv.take(i + 1).drop_last() =~= nv.take(i as int));
        assert(nv.take(i + 1).last() == names@[i as int]@);
        let ghost k0 = text::string_views(stems@);
        if is_md_file(names[i].as_str()) {
            let v = chars_of(names[i].as_str());
            let stem = text::slice_chars(&v, 0, v.len() - 3);
            stems.push(string_from_chars(&stem));
            assert(text::string_views(stems@) =~= k0 + seq![md_stem(nv[i as int])]);
        } else {
            assert(text::string_views(stems@) =~= k0 + Seq::empty());
        }
        i = i + 1;
    }
    assert(nv.take(n as int) =~= nv);
    let sorted = text::sort_strings(stems);
    if sorted.len() == 0 {
        (String::from_str(empty), sorted)
    } else {
        (text::join_strings(&sorted, "\n"), sorted)
    }
}

// ---------------------------------------------------------------
// Daily log

/// The daily log after appending `entry`: the existing text, then a
/// `# <date>` heading where the file did not exist yet, then `- <entry>`.
pub open spec fn spec_daily_append(
    existing: Seq<char>,
    file_exists: bool,
    today: Seq<char>,
    entry: Seq<char>,
) -> Seq<char> {
    existing + (if file_exists {
        seq![]
    } else {
        "# "@ + today + "\n\n"@
    }) + "- "@ + entry + "\n"@
}

pub fn daily_append(existing: &str, file_exists: bool, today: &str, entry: &str) -> (r: String)
    ensures
        r@ == spec_daily_append(existing@, file_exists, today@, entry@),
{
    let mut r = String::from_str(existing);
    if !file_exists {
        r.append("# ");
        r.append(today);
        r.append("\n\n");
    } else {
        assert(r@ =~= r@ + Seq::<char>::empty());
    }
    r.append("- ");
    r.append(entry);
    r.append("\n");
    r
}

// ---------------------------------------------------------------
// Search

/// A file to search: its path relative to the searched directory, and its
/// text.
#[derive(Debug)]
pub struct SearchFile {
    pub rel: String,
    pub text: String,
}

/// The line matches the query, ignoring case.
pub open spec fn line_matches(line: Seq<char>, query: Seq<char>) -> bool {
    text::contains(text::lowercase(line), text::lowercase(query))
}

/// The matching lines of one file, as `<rel>: <line>`.
pub open spec fn file_hits(rel: Seq<char>, ls: Seq<Seq<char>>, query: Seq<char>) -> Seq<Seq<char>>
    decreases ls.len(),
{
    if ls.len() == 0 {
        seq![]
    } else {
        file_hits(rel, ls.drop_last(), query) + if line_matches(ls.last(), query) {
            seq![rel + ": "@ + ls.last()]
        } else {
            seq![]
        }
    }
}

/// The matching lines of all files, file by file, line by line.
pub open spec fn search_hits(files: Seq<SearchFile>, query: Seq<char>) -> Seq<Seq<char>>
    decreases files.len(),
{
    if files.len() == 0 {
        seq![]
    } else {
        search_hits(files.drop_last(), query) + file_hits(
            files.last().rel@,
            text::lines(files.last().text@),
            query,
        )
    }
}

/// The search report: the hits one per line, or `no matches`.
pub open spec fn spec_search_report(files: Seq<SearchFile>, query: Seq<char>) -> Seq<char> {
    let hits = search_hits(files, query);
    if hits.len() == 0 {
        "no matches"@
    } else {
        text::join(hits, "\n"@)
    }
}

/// A line matches when, lower-cased, it contains the lower-cased query.
pub open spec fn matches_query(query: Seq<char>) -> spec_fn(Seq<char>) -> bool {
    |l: Seq<char>| text::contains(text::lowercase(l), text::lowercase(query))
}

/// A hit as reported: the file's relative path, `: `, the line.
pub open spec fn hit_in(rel: Seq<char>) -> spec_fn(Seq<char>) -> Seq<char> {
    |l: Seq<char>| rel + ": "@ + l
}

/// The hits of one file: each of its matching lines, in order.
pub open spec fn hits_in_file(query: Seq<char>) -> spec_fn(SearchFile) -> Seq<Seq<char>> {
    |f: SearchFile| text::lines(f.text@).filter(matches_query(query)).map_values(hit_in(f.rel@))
}

proof fn lemma_file_hits_filter(rel: Seq<char>, ls: Seq<Seq<char>>, query: Seq<char>)
    ensures
        file_hits(rel, ls, query) == ls.filter(matches_query(query)).map_values(hit_in(rel)),
    decreases ls.len(),
{
    reveal(Seq::filter);
    if ls.len() > 0 {
        lemma_file_hits_filter(rel, ls.drop_last(), query);
        let f = ls.drop_last().filter(matches_query(query));
        let h = f.map_values(hit_in(rel));
        if line_matches(ls.last(), query) {
            assert(f.push(ls.last()).map_values(hit_in(rel)) =~= h + seq![rel + ": "@ + ls.last()]);
        } else {
            assert(h + Seq::<Seq<char>>::empty() =~= h);
        }
    }
}

proof fn lemma_search_hits_flatten(files: Seq<SearchFile>, query: Seq<char>)
    ensures
        search_hits(files, query) == files.map_values(hits_in_file(query)).flatten(),
    decreases files.len(),
{
    if files.len() > 0 {
        let d = files.drop_last();
        lemma_search_hits_flatten(d, query);
        lemma_file_hits_filter(files.last().rel@, text::lines(files.last().text@), query);
        assert(files.map_values(hits_in_file(query)) =~= d.map_values(hits_in_file(query)).push(
            hits_in_file(query)(files.last()),
        ));
        d.map_values(hits_in_file(query)).lemma_flatten_push(hits_in_file(query)(files.last()));
    }
}

/// The search reports every line of every file that matches the query,
/// ignoring case, and nothing else: file by file, line by line, one hit
/// `<rel>: <line>` per matching line (a file with two matching lines gives
/// two hits), the hits joined by newlines, or `no matches` where there are
/// none.
pub proof fn law_search_reports_every_match(files: Seq<SearchFile>, query: Seq<char>)
    ensures
        ({
            let hits = files.map_values(hits_in_file(query)).flatten();
            spec_search_report(files, query) == if hits.len() == 0 {
                "no matches"@
            } else {
                text::join(hits, "\n"@)
            }
        }),
{
    lemma_search_hits_flatten(files, query);
}

pub fn search_report(files: &Vec<SearchFile>, query: &str) -> (r: String)
    ensures
        r@ == spec_search_report(files@, query@),
{
    let q = str_to_lowercase(query);
    let mut hits: Vec<String> = Vec::new();
    let mut fi: usize = 0;
    let nf: usize = files.len();
    assert(files@.take(0) =~= Seq::<SearchFile>::empty());
    assert(text::string_views(hits@) =~= Seq::<Seq<char>>::empty());
    while fi < nf
        invariant
            fi <= nf == files@.len(),
            q@ == text::lowercase(query@),
            text::string_views(hits@) == search_hits(files@.take(fi as int), query@),
        decreases nf - fi,
    {
        assert(files@.take(fi + 1).drop_last() =~= files@.take(fi as int));
        assert(files@.take(fi + 1).last() == files@[fi as int]);
        let f = &files[fi];
        let tv = chars_of(f.text.as_str());
        let ls = text::split_lines(&tv);
        let ghost lv = text::views(ls@);
        let ghost h0 = text::string_views(hits@);
        let mut li: usize = 0;
        assert(lv.take(0) =~= Seq::<Seq<char>>::empty());
        assert(h0 + file_hits(f.rel@, lv.take(0), query@) =~= h0);
        while li < ls.len()
            invariant
                li <= ls@.len() == lv.len(),
                lv == text::views(ls@),
                q@ == text::lowercase(query@),
                text::string_views(hits@) == h0 + file_hits(f.rel@, lv.take(li as int), query@),
            decreases ls@.len() - li,
        {
            assert(lv.take(li + 1).drop_last() =~= lv.take(li as int));
            assert(lv.take(li + 1).last() == ls@[li as int]@);
            let line = string_from_chars(&ls[li]);
            let ll = str_to_lowercase(line.as_str());
            let ghost hb = text::string_views(hits@);
            if str_contains(ll.as_str(), q.as_str()) {
                let mut h = f.rel.clone();
                h.append(": ");
                h.append(line.as_str());
                hits.push(h);
                assert(text::string_views(hits@) =~= hb + seq![h@]);
            } else {
                assert(text::string_views(hits@) =~= hb + Seq::empty());
            }
            li = li + 1;
        }
        assert(lv.take(ls@.len() as int) =~= lv);
        fi = fi + 1;
    }
    assert(files@.take(nf as int) =~= files@);
    if hits.len() == 0 {
        String::from_str("no matches")
    } else {
        text::join_strings(&hits, "\n")
    }
}

// ---------------------------------------------------------------
// Soul

/// One soul file in the prompt: `--- <name> ---`, then its text.
pub open spec fn soul_part(name: Seq<char>, body: Seq<char>) -> Seq<char> {
    "--- "@ + name + " ---\n"@ + body
}

pub open spec fn soul_parts(files: Seq<SearchFile>) -> Seq<Seq<char>>
    decreases files.len(),
{
    if files.len() == 0 {
        seq![]
    } else {
        soul_parts(files.drop_last()) + seq![soul_part(files.last().rel@, files.last().text@)]
    }
}

/// The soul prompt from its files (name and text, in reading order): the
/// parts separated by blank lines, or `empty soul` where there are none.
pub fn soul_report(files: &Vec<SearchFile>) -> (r: String)
    ensures
        r@ == if files@.len() == 0 {
            "empty soul"@
        } else {
            text::join(soul_parts(files@), "\n\n"@)
        },
{
    let mut parts: Vec<String> = Vec::new();
    let mut i: usize = 0;
    assert(files@.take(0) =~= Seq::<SearchFile>::empty());
    assert(text::string_views(parts@) =~= Seq::<Seq<char>>::empty());
    while i < files.len()
        invariant
            i <= files@.len(),
            text::string_views(parts@) == soul_parts(files@.take(i as int)),
        decreases files@.len() - i,
    {
        assert(files@.take(i + 1).drop_last() =~= files@.take(i as int));
        assert(files@.take(i + 1).last() == files@[i as int]);
        let mut p = String::from_str("--- ");
        p.append(files[i].rel.as_str());
        p.append(" ---\n");
        p.append(files[i].text.as_str());
        let ghost p0 = text::string_views(parts@);
        parts.push(p);
        assert(text::string_views(parts@) =~= p0 + seq![p@]);
        i = i + 1;
    }
    assert(files@.take(files@.len() as int) =~= files@);
    if files.len() == 0 {
        String::from_str("empty soul")
    } else {
        text::join_strings(&parts, "\n\n")
    }
}

// ---------------------------------------------------------------
// Reports

pub fn topic_written(file_name: &str) -> (r: String)
    ensures
        r@ == "wrote topic: "@ + file_name@,
{
    let mut r = String::from_str("wrote topic: ");
    r.append(file_name);
    r
}

pub fn reference_written(file_name: &str) -> (r: String)
    ensures
        r@ == "wrote reference: "@ + file_name@,
{
    let mut r = String::from_str("wrote reference: ");
    r.append(file_name);
    r
}

/// `topic '<name>' not found`, with the name as asked for.
pub fn topic_not_found(topic: &str) -> (r: String)
    ensures
        r@ == "topic '"@ + topic@ + "' not found"@,
{
    let mut r = String::from_str("topic '");
    r.append(topic);
    r.append("' not found");
    r
}

/// `reference '<name>' not found`, with the name as asked for.
pub fn reference_not_found(name: &str) -> (r: String)
    ensures
        r@ == "reference '"@ + name@ + "' not found"@,
{
    let mut r = String::from_str("reference '");
    r.append(name);
    r.append("' not found");
    r
}

} // verus!
