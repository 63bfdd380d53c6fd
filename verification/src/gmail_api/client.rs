//! Gmail message handling: reading bodies and headers out of a message
//! payload tree, and composing outgoing and forwarded messages.
use vstd::prelude::*;
use crate::text;
use crate::codec::{self, B64Engine, b64_decode, b64_encode, decimal, hex_lower, url_encode, utf8_lossy};
use crate::text::{chars_of, is_whitespace, push_char, push_chars, slice_chars, split_lines, str_eq, str_starts_with, trim_vec};

verus! {

// ---------------------------------------------------------------
// HTML to text

/// The characters of `s` outside `<...>` tags; `in_tag` says whether the
/// scan starts inside a tag.
pub open spec fn drop_tags(s: Seq<char>, in_tag: bool) -> Seq<char>
    decreases s.len(),
{
    if s.len() == 0 {
        seq![]
    } else if s[0] == '<' {
        drop_tags(s.drop_first(), true)
    } else if s[0] == '>' {
        drop_tags(s.drop_first(), false)
    } else if !in_tag {
        seq![s[0]] + drop_tags(s.drop_first(), false)
    } else {
        drop_tags(s.drop_first(), true)
    }
}

/// Each line trimmed and followed by `\n`; of a run of blank lines only the
/// first gives a `\n`. `blank_run` says whether the previous line was blank.
pub open spec fn collapse_lines(ls: Seq<Seq<char>>, blank_run: bool) -> Seq<char>
    decreases ls.len(),
{
    if ls.len() == 0 {
        seq![]
    } else if text::trim(ls[0]).len() == 0 {
        (if blank_run {
            seq![]
        } else {
            seq!['\n']
        }) + collapse_lines(ls.drop_first(), true)
    } else {
        text::trim(ls[0]) + seq!['\n'] + collapse_lines(ls.drop_first(), false)
    }
}

/// The text of an HTML body: tags removed, lines trimmed, runs of blank
/// lines collapsed to one.
pub open spec fn spec_strip_html_tags(html: Seq<char>) -> Seq<char> {
    collapse_lines(text::lines(drop_tags(html, false)), false)
}

/// `drop_tags` never keeps a tag bracket.
proof fn lemma_drop_tags_no_brackets(s: Seq<char>, in_tag: bool)
    ensures
        forall|i: int|
            0 <= i < drop_tags(s, in_tag).len() ==> #[trigger] drop_tags(s, in_tag)[i] != '<'
                && drop_tags(s, in_tag)[i] != '>',
    decreases s.len(),
{
    if s.len() > 0 {
        let nt = s[0] == '<' || (s[0] != '>' && in_tag);
        lemma_drop_tags_no_brackets(s.drop_first(), nt);
        if !(s[0] != '<' && s[0] != '>' && !in_tag) {
            assert(drop_tags(s, in_tag) == drop_tags(s.drop_first(), nt));
        }
        if s[0] != '<' && s[0] != '>' && !in_tag {
            let rest = drop_tags(s.drop_first(), false);
            assert forall|i: int| 0 <= i < drop_tags(s, in_tag).len() implies #[trigger] drop_tags(
                s,
                in_tag,
            )[i] != '<' && drop_tags(s, in_tag)[i] != '>' by {
                if i > 0 {
                    assert(drop_tags(s, in_tag)[i] == rest[i - 1]);
                }
            }
        }
    }
}

pub open spec fn no_brackets(s: Seq<char>) -> bool {
    forall|i: int| 0 <= i < s.len() ==> #[trigger] s[i] != '<' && s[i] != '>'
}

proof fn lemma_lines_from_no_brackets(s: Seq<char>, cur: Seq<char>)
    requires
        no_brackets(s),
        no_brackets(cur),
    ensures
        forall|k: int| 0 <= k < text::lines_from(s, cur).len() ==> no_brackets(
            #[trigger] text::lines_from(s, cur)[k],
        ),
    decreases s.len(),
{
    if s.len() > 0 {
        assert(no_brackets(s.drop_first())) by {
            assert forall|i: int| 0 <= i < s.drop_first().len() implies #[trigger] s.drop_first()[i]
                != '<' && s.drop_first()[i] != '>' by {
                assert(s.drop_first()[i] == s[i + 1]);
            }
        }
        if s[0] == '\n' {
            lemma_lines_from_no_brackets(s.drop_first(), seq![]);
            let rest = text::lines_from(s.drop_first(), seq![]);
            let c = text::strip_cr(cur);
            assert(no_brackets(c)) by {
                assert forall|i: int| 0 <= i < c.len() implies #[trigger] c[i] != '<' && c[i]
                    != '>' by {
                    assert(c[i] == cur[i]);
                }
            }
            assert forall|k: int| 0 <= k < text::lines_from(s, cur).len() implies no_brackets(
                #[trigger] text::lines_from(s, cur)[k],
            ) by {
                if k > 0 {
                    assert(text::lines_from(s, cur)[k] == rest[k - 1]);
                }
            }
        } else {
            let c = cur.push(s[0]);
            assert(text::lines_from(s, cur) == text::lines_from(s.drop_first(), c));
            assert(no_brackets(c)) by {
                assert forall|i: int| 0 <= i < c.len() implies #[trigger] c[i] != '<' && c[i]
                    != '>' by {
                    if i < cur.len() {
                        assert(c[i] == cur[i]);
                    }
                }
            }
            lemma_lines_from_no_brackets(s.drop_first(), c);
        }
    } else {
        if cur.len() > 0 {
            assert(text::lines_from(s, cur) =~= seq![cur]);
        } else {
            assert(text::lines_from(s, cur) =~= Seq::<Seq<char>>::empty());
        }
    }
}

proof fn lemma_trim_no_brackets(s: Seq<char>)
    requires
        no_brackets(s),
    ensures
        no_brackets(text::trim(s)),
{
    text::lemma_trim_sub(s);
}

proof fn lemma_collapse_no_brackets(ls: Seq<Seq<char>>, blank_run: bool)
    requires
        forall|k: int| 0 <= k < ls.len() ==> no_brackets(#[trigger] ls[k]),
    ensures
        no_brackets(collapse_lines(ls, blank_run)),
    decreases ls.len(),
{
    if ls.len() > 0 {
        assert(no_brackets(ls[0]));
        lemma_trim_no_brackets(ls[0]);
        let t = text::trim(ls[0]);
        let rest_blank = t.len() == 0;
        assert forall|k: int| 0 <= k < ls.drop_first().len() implies no_brackets(
            #[trigger] ls.drop_first()[k],
        ) by {
            assert(ls.drop_first()[k] == ls[k + 1]);
        }
        lemma_collapse_no_brackets(ls.drop_first(), rest_blank);
        let rest = collapse_lines(ls.drop_first(), rest_blank);
        let head: Seq<char> = if t.len() == 0 {
            if blank_run {
                seq![]
            } else {
                seq!['\n']
            }
        } else {
            t + seq!['\n']
        };
        assert(no_brackets(head)) by {
            assert forall|i: int| 0 <= i < head.len() implies #[trigger] head[i] != '<' && head[i]
                != '>' by {
                if t.len() > 0 && i < t.len() {
                    assert(head[i] == t[i]);
                }
            }
        }
        assert(collapse_lines(ls, blank_run) =~= head + rest);
        assert forall|i: int| 0 <= i < (head + rest).len() implies #[trigger] (head + rest)[i] != '<'
            && (head + rest)[i] != '>' by {
            if i >= head.len() {
                assert((head + rest)[i] == rest[i - head.len()]);
            }
        }
    }
}

/// Text made from HTML holds no tag brackets: every `<` and `>` of the
/// input is dropped.
pub proof fn law_strip_html_no_brackets(html: Seq<char>)
    ensures
        no_brackets(spec_strip_html_tags(html)),
{
    let d = drop_tags(html, false);
    lemma_drop_tags_no_brackets(html, false);
    assert(no_brackets(d));
    assert(no_brackets(Seq::<char>::empty()));
    lemma_lines_from_no_brackets(d, seq![]);
    lemma_collapse_no_brackets(text::lines(d), false);
}

pub open spec fn has_newline(s: Seq<char>) -> bool {
    exists|i: int| 0 <= i < s.len() && s[i] == '\n'
}

/// No three newlines in a row: at most one blank line between lines.
pub open spec fn no_blank_run(s: Seq<char>) -> bool {
    forall|i: int|
        0 <= i && i + 2 < s.len() ==> !(#[trigger] s[i] == '\n' && s[i + 1] == '\n' && s[i + 2]
            == '\n')
}

proof fn lemma_lines_from_no_newline(s: Seq<char>, cur: Seq<char>)
    requires
        !has_newline(cur),
    ensures
        forall|k: int| 0 <= k < text::lines_from(s, cur).len() ==> !has_newline(
            #[trigger] text::lines_from(s, cur)[k],
        ),
    decreases s.len(),
{
    if s.len() > 0 {
        if s[0] == '\n' {
            lemma_lines_from_no_newline(s.drop_first(), seq![]);
            let rest = text::lines_from(s.drop_first(), seq![]);
            let c = text::strip_cr(cur);
            assert(!has_newline(c)) by {
                if has_newline(c) {
                    let i = choose|i: int| 0 <= i < c.len() && c[i] == '\n';
                    assert(cur[i] == '\n');
                }
            }
            assert forall|k: int| 0 <= k < text::lines_from(s, cur).len() implies !has_newline(
                #[trigger] text::lines_from(s, cur)[k],
            ) by {
                if k > 0 {
                    assert(text::lines_from(s, cur)[k] == rest[k - 1]);
                } else {
                    assert(text::lines_from(s, cur)[0] == c);
                }
            }
        } else {
            let c = cur.push(s[0]);
            assert(text::lines_from(s, cur) == text::lines_from(s.drop_first(), c));
            assert(!has_newline(c)) by {
                if has_newline(c) {
                    let i = choose|i: int| 0 <= i < c.len() && c[i] == '\n';
                    if i < cur.len() {
                        assert(cur[i] == '\n');
                    }
                }
            }
            lemma_lines_from_no_newline(s.drop_first(), c);
        }
    } else {
        if cur.len() > 0 {
            assert(text::lines_from(s, cur) =~= seq![cur]);
        } else {
            assert(text::lines_from(s, cur) =~= Seq::<Seq<char>>::empty());
        }
    }
}

proof fn lemma_collapse_blank_runs(ls: Seq<Seq<char>>, blank_run: bool)
    requires
        forall|k: int| 0 <= k < ls.len() ==> !has_newline(#[trigger] ls[k]),
    ensures
        no_blank_run(collapse_lines(ls, blank_run)),
        blank_run ==> (collapse_lines(ls, blank_run).len() == 0 || collapse_lines(ls, blank_run)[0]
            != '\n'),
        !(collapse_lines(ls, blank_run).len() >= 2 && collapse_lines(ls, blank_run)[0] == '\n'
            && collapse_lines(ls, blank_run)[1] == '\n'),
    decreases ls.len(),
{
    let r = collapse_lines(ls, blank_run);
    if ls.len() > 0 {
        assert forall|k: int| 0 <= k < ls.drop_first().len() implies !has_newline(
            #[trigger] ls.drop_first()[k],
        ) by {
            assert(ls.drop_first()[k] == ls[k + 1]);
        }
        let t = text::trim(ls[0]);
        assert(!has_newline(ls[0]));
        assert(!has_newline(t)) by {
            text::lemma_trim_sub(ls[0]);
            if has_newline(t) {
                let i = choose|i: int| 0 <= i < t.len() && t[i] == '\n';
                let j = choose|j: int| 0 <= j < ls[0].len() && #[trigger] t[i] == ls[0][j];
                assert(ls[0][j] == '\n');
            }
        }
        if t.len() == 0 {
            lemma_collapse_blank_runs(ls.drop_first(), true);
            let rest = collapse_lines(ls.drop_first(), true);
            if !blank_run {
                assert(r =~= seq!['\n'] + rest);
                assert forall|i: int| 0 <= i && i + 2 < r.len() implies !(#[trigger] r[i] == '\n'
                    && r[i + 1] == '\n' && r[i + 2] == '\n') by {
                    if i == 0 {
                        assert(r[1] == rest[0]);
                    } else {
                        assert(r[i] == rest[i - 1]);
                        assert(r[i + 1] == rest[i]);
                        assert(r[i + 2] == rest[i + 1]);
                    }
                }
                if r.len() >= 2 {
                    assert(r[1] == rest[0]);
                }
            } else {
                assert(r =~= Seq::<char>::empty() + rest);
                assert(r =~= rest);
            }
        } else {
            lemma_collapse_blank_runs(ls.drop_first(), false);
            let rest = collapse_lines(ls.drop_first(), false);
            let h = t + seq!['\n'];
            assert(r =~= h + rest);
            assert(r[0] == t[0]);
            assert(t[0] != '\n');
            assert forall|i: int| 0 <= i && i + 2 < r.len() implies !(#[trigger] r[i] == '\n'
                && r[i + 1] == '\n' && r[i + 2] == '\n') by {
                if i + 2 < h.len() {
                    assert(r[i] == t[i]);
                } else if i >= h.len() {
                    assert(r[i] == rest[i - h.len()]);
                    assert(r[i + 1] == rest[i + 1 - h.len()]);
                    assert(r[i + 2] == rest[i + 2 - h.len()]);
                } else if i == h.len() - 1 {
                    assert(r[i + 1] == rest[0]);
                    assert(r[i + 2] == rest[1]);
                } else {
                    assert(i == h.len() - 2);
                    assert(r[i] == t[t.len() - 1]);
                }
            }
        }
    }
}

proof fn lemma_collapse_ends_newline(ls: Seq<Seq<char>>, blank_run: bool)
    ensures
        collapse_lines(ls, blank_run).len() == 0 || collapse_lines(ls, blank_run).last() == '\n',
    decreases ls.len(),
{
    if ls.len() > 0 {
        let t = text::trim(ls[0]);
        let nb = t.len() == 0;
        lemma_collapse_ends_newline(ls.drop_first(), nb);
        let rest = collapse_lines(ls.drop_first(), nb);
        let r = collapse_lines(ls, blank_run);
        if rest.len() > 0 {
            assert(r.last() == rest.last());
        } else if t.len() == 0 {
            if !blank_run {
                assert(r =~= seq!['\n'] + rest);
            } else {
                assert(r =~= rest);
            }
        } else {
            assert(r =~= t + seq!['\n'] + rest);
        }
    }
}

/// Text made from HTML is empty or ends with a newline.
pub proof fn law_strip_html_ends_with_newline(html: Seq<char>)
    ensures
        spec_strip_html_tags(html).len() == 0 || spec_strip_html_tags(html).last() == '\n',
{
    lemma_collapse_ends_newline(text::lines(drop_tags(html, false)), false);
}

proof fn lemma_lines_append(x: Seq<char>, y: Seq<char>, cur: Seq<char>)
    requires
        !has_newline(x),
    ensures
        text::lines_from(x + y, cur) == text::lines_from(y, cur + x),
    decreases x.len(),
{
    if x.len() == 0 {
        assert(x + y =~= y);
        assert(cur + x =~= cur);
    } else {
        assert((x + y)[0] == x[0]);
        assert(x[0] != '\n');
        assert((x + y).drop_first() =~= x.drop_first() + y);
        assert(!has_newline(x.drop_first())) by {
            if has_newline(x.drop_first()) {
                let i = choose|i: int| 0 <= i < x.drop_first().len() && x.drop_first()[i] == '\n';
                assert(x[i + 1] == '\n');
            }
        }
        lemma_lines_append(x.drop_first(), y, cur.push(x[0]));
        assert(cur.push(x[0]) + x.drop_first() =~= cur + x);
    }
}

/// Every line of `r` is its own trim.
pub open spec fn lines_trimmed(r: Seq<char>) -> bool {
    forall|k: int| 0 <= k < text::lines(r).len() ==> text::trim(#[trigger] text::lines(r)[k])
        == text::lines(r)[k]
}

proof fn lemma_trim_no_newline(l: Seq<char>)
    requires
        !has_newline(l),
    ensures
        !has_newline(text::trim(l)),
{
    let t = text::trim(l);
    text::lemma_trim_sub(l);
    if has_newline(t) {
        let i = choose|i: int| 0 <= i < t.len() && t[i] == '\n';
        let j = choose|j: int| 0 <= j < l.len() && #[trigger] t[i] == l[j];
        assert(l[j] == '\n');
    }
}

proof fn lemma_lines_cons(x: Seq<char>, rest: Seq<char>)
    requires
        !has_newline(x),
        x.len() == 0 || x.last() != '\r',
    ensures
        text::lines(x + (seq!['\n'] + rest)) == seq![x] + text::lines(rest),
{
    lemma_lines_append(x, seq!['\n'] + rest, seq![]);
    assert(Seq::<char>::empty() + x =~= x);
    assert((seq!['\n'] + rest)[0] == '\n');
    assert((seq!['\n'] + rest).drop_first() =~= rest);
    assert(text::strip_cr(x) == x);
}

proof fn lemma_collapse_lines_trimmed(ls: Seq<Seq<char>>, blank_run: bool)
    requires
        forall|k: int| 0 <= k < ls.len() ==> !has_newline(#[trigger] ls[k]),
    ensures
        lines_trimmed(collapse_lines(ls, blank_run)),
    decreases ls.len(),
{
    let r = collapse_lines(ls, blank_run);
    if ls.len() == 0 {
        assert(text::lines(r) =~= Seq::<Seq<char>>::empty());
    } else {
        assert forall|k: int| 0 <= k < ls.drop_first().len() implies !has_newline(
            #[trigger] ls.drop_first()[k],
        ) by {
            assert(ls.drop_first()[k] == ls[k + 1]);
        }
        let t = text::trim(ls[0]);
        assert(!has_newline(ls[0]));
        lemma_trim_no_newline(ls[0]);
        let nb = t.len() == 0;
        lemma_collapse_lines_trimmed(ls.drop_first(), nb);
        let rest = collapse_lines(ls.drop_first(), nb);
        let lr = text::lines(rest);
        if t.len() == 0 && blank_run {
            assert(r =~= rest);
        } else {
            let x: Seq<char> = if t.len() == 0 {
                seq![]
            } else {
                t
            };
            text::lemma_trim_idempotent(ls[0]);
            assert(r =~= x + (seq!['\n'] + rest)) by {
                if t.len() == 0 {
                    assert(r =~= seq!['\n'] + rest);
                } else {
                    assert(r =~= t + seq!['\n'] + rest);
                }
            }
            assert(!has_newline(x));
            assert(x.len() == 0 || x.last() != '\r') by {
                if x.len() > 0 {
                    assert(!text::is_ws(x.last()));
                }
            }
            lemma_lines_cons(x, rest);
            assert(text::trim(x) == x) by {
                if x.len() == 0 {
                    assert(text::trim(x) =~= x);
                }
            }
            let lrr = text::lines(r);
            assert(lrr == seq![x] + lr);
            assert forall|k: int| 0 <= k < lrr.len() implies text::trim(#[trigger] lrr[k]) == lrr[k] by {
                if k > 0 {
                    assert(lrr[k] == lr[k - 1]);
                    assert(text::trim(lr[k - 1]) == lr[k - 1]);
                } else {
                    assert(lrr[0] == x);
                }
            }
        }
    }
}

/// Every line of text made from HTML is trimmed.
pub proof fn law_strip_html_lines_trimmed(html: Seq<char>)
    ensures
        lines_trimmed(spec_strip_html_tags(html)),
{
    let d = drop_tags(html, false);
    assert(!has_newline(Seq::<char>::empty()));
    lemma_lines_from_no_newline(d, seq![]);
    lemma_collapse_lines_trimmed(text::lines(d), false);
}

/// No tag bracket in `s`.
pub open spec fn bracket_free(s: Seq<char>) -> bool {
    forall|i: int| 0 <= i < s.len() ==> s[i] != '<' && s[i] != '>'
}

proof fn lemma_drop_tags_prefix(a: Seq<char>, x: Seq<char>)
    requires
        bracket_free(a),
    ensures
        drop_tags(a + x, false) == a + drop_tags(x, false),
    decreases a.len(),
{
    if a.len() == 0 {
        assert(a + x =~= x);
        assert(a + drop_tags(x, false) =~= drop_tags(x, false));
    } else {
        let a1 = a.drop_first();
        assert(bracket_free(a1)) by {
            assert forall|i: int| 0 <= i < a1.len() implies a1[i] != '<' && a1[i] != '>' by {
                assert(a1[i] == a[i + 1]);
            }
        }
        lemma_drop_tags_prefix(a1, x);
        assert((a + x)[0] == a[0]);
        assert(a[0] != '<' && a[0] != '>');
        assert((a + x).drop_first() =~= a1 + x);
        assert(seq![a[0]] + (a1 + drop_tags(x, false)) =~= a + drop_tags(x, false));
    }
}

proof fn lemma_drop_tags_inside(t: Seq<char>, c: Seq<char>)
    requires
        bracket_free(t),
    ensures
        drop_tags(t + seq!['>'] + c, true) == drop_tags(c, false),
    decreases t.len(),
{
    let s = t + seq!['>'] + c;
    if t.len() == 0 {
        assert(s[0] == '>');
        assert(s.drop_first() =~= c);
    } else {
        let t1 = t.drop_first();
        assert(bracket_free(t1)) by {
            assert forall|i: int| 0 <= i < t1.len() implies t1[i] != '<' && t1[i] != '>' by {
                assert(t1[i] == t[i + 1]);
            }
        }
        lemma_drop_tags_inside(t1, c);
        assert(s[0] == t[0]);
        assert(s.drop_first() =~= t1 + seq!['>'] + c);
    }
}

/// A tag contributes nothing: removing a whole tag `<...>` from HTML whose
/// text before it holds no bracket leaves the resulting text unchanged.
pub proof fn law_strip_html_drops_tag(a: Seq<char>, tag: Seq<char>, c: Seq<char>)
    requires
        bracket_free(a),
        bracket_free(tag),
    ensures
        spec_strip_html_tags(a + seq!['<'] + tag + seq!['>'] + c) == spec_strip_html_tags(a + c),
{
    let x = seq!['<'] + tag + seq!['>'] + c;
    assert(a + seq!['<'] + tag + seq!['>'] + c =~= a + x);
    lemma_drop_tags_prefix(a, x);
    lemma_drop_tags_prefix(a, c);
    assert(x[0] == '<');
    assert(x.drop_first() =~= tag + seq!['>'] + c);
    lemma_drop_tags_inside(tag, c);
}

/// Text with no tags, on one line and without surrounding whitespace, comes
/// out as it is, followed by a newline: every character outside tags,
/// spaces between words included, is kept.
pub proof fn law_strip_html_plain_line(h: Seq<char>)
    requires
        bracket_free(h),
        !has_newline(h),
        text::trim(h) == h,
        h.len() > 0,
    ensures
        spec_strip_html_tags(h) == h + seq!['\n'],
{
    lemma_drop_tags_prefix(h, seq![]);
    assert(h + Seq::<char>::empty() =~= h);
    assert(h + drop_tags(Seq::<char>::empty(), false) =~= h);
    lemma_lines_append(h, seq![], seq![]);
    assert(Seq::<char>::empty() + h =~= h);
    let ls = text::lines(h);
    assert(ls == seq![h]);
    assert(ls.drop_first() =~= Seq::<Seq<char>>::empty());
    assert(collapse_lines(ls.drop_first(), false) == Seq::<char>::empty());
    assert(collapse_lines(ls, false) == h + seq!['\n'] + Seq::<char>::empty());
    assert(h + seq!['\n'] + Seq::<char>::empty() =~= h + seq!['\n']);
}

/// The characters of `s` that are not whitespace, in order.
pub open spec fn visible(s: Seq<char>) -> Seq<char>
    decreases s.len(),
{
    if s.len() == 0 {
        seq![]
    } else {
        (if text::is_ws(s[0]) {
            seq![]
        } else {
            seq![s[0]]
        }) + visible(s.drop_first())
    }
}

/// The visible characters of each line, one line after another.
pub open spec fn visible_lines(ls: Seq<Seq<char>>) -> Seq<char>
    decreases ls.len(),
{
    if ls.len() == 0 {
        seq![]
    } else {
        visible(ls[0]) + visible_lines(ls.drop_first())
    }
}

proof fn lemma_visible_add(a: Seq<char>, b: Seq<char>)
    ensures
        visible(a + b) == visible(a) + visible(b),
    decreases a.len(),
{
    if a.len() == 0 {
        assert(a + b =~= b);
        assert(visible(a) + visible(b) =~= visible(b));
    } else {
        lemma_visible_add(a.drop_first(), b);
        assert((a + b)[0] == a[0]);
        assert((a + b).drop_first() =~= a.drop_first() + b);
        let h: Seq<char> = if text::is_ws(a[0]) {
            seq![]
        } else {
            seq![a[0]]
        };
        assert(h + (visible(a.drop_first()) + visible(b)) =~= (h + visible(a.drop_first())) + visible(b));
    }
}

proof fn lemma_visible_trim_start(s: Seq<char>)
    ensures
        visible(text::trim_start(s)) == visible(s),
    decreases s.len(),
{
    if s.len() > 0 && text::is_ws(s[0]) {
        lemma_visible_trim_start(s.drop_first());
        assert(Seq::<char>::empty() + visible(s.drop_first()) =~= visible(s.drop_first()));
    }
}

proof fn lemma_visible_trim_end(s: Seq<char>)
    ensures
        visible(text::trim_end(s)) == visible(s),
    decreases s.len(),
{
    if s.len() > 0 && text::is_ws(s.last()) {
        lemma_visible_trim_end(s.drop_last());
        assert(s.drop_last() + seq![s.last()] =~= s);
        lemma_visible_add(s.drop_last(), seq![s.last()]);
        lemma_visible_one(s.last());
        assert(visible(s.drop_last()) + Seq::<char>::empty() =~= visible(s.drop_last()));
    }
}

proof fn lemma_visible_trim(s: Seq<char>)
    ensures
        visible(text::trim(s)) == visible(s),
{
    lemma_visible_trim_start(s);
    lemma_visible_trim_end(text::trim_start(s));
}

proof fn lemma_visible_one(c: char)
    ensures
        visible(seq![c]) == (if text::is_ws(c) {
            Seq::<char>::empty()
        } else {
            seq![c]
        }),
{
    let s = seq![c];
    assert(s.len() == 1 && s[0] == c);
    assert(s.drop_first() =~= Seq::<char>::empty());
    assert(visible(s.drop_first()) == Seq::<char>::empty());
    assert(seq![c] + Seq::<char>::empty() =~= seq![c]);
    assert(Seq::<char>::empty() + Seq::<char>::empty() =~= Seq::<char>::empty());
}

proof fn lemma_visible_lines_from(s: Seq<char>, cur: Seq<char>)
    ensures
        visible_lines(text::lines_from(s, cur)) == visible(cur) + visible(s),
    decreases s.len(),
{
    let ls = text::lines_from(s, cur);
    if s.len() == 0 {
        assert(visible(s) == Seq::<char>::empty());
        if cur.len() == 0 {
            assert(ls == Seq::<Seq<char>>::empty());
            assert(visible(cur) == Seq::<char>::empty());
            assert(visible(cur) + visible(s) =~= Seq::<char>::empty());
        } else {
            assert(ls == seq![cur]);
            assert(ls[0] == cur);
            assert(ls.drop_first() =~= Seq::<Seq<char>>::empty());
            assert(visible_lines(ls.drop_first()) == Seq::<char>::empty());
            assert(visible(cur) + Seq::<char>::empty() =~= visible(cur));
        }
    } else if s[0] == '\n' {
        let rest = text::lines_from(s.drop_first(), seq![]);
        lemma_visible_lines_from(s.drop_first(), seq![]);
        assert(ls == seq![text::strip_cr(cur)] + rest);
        assert(ls[0] == text::strip_cr(cur));
        assert(ls.drop_first() =~= rest);
        assert(visible(Seq::<char>::empty()) == Seq::<char>::empty());
        assert(visible(Seq::<char>::empty()) + visible(s.drop_first()) =~= visible(s.drop_first()));
        assert(text::is_ws('\n'));
        assert(visible(s) =~= Seq::<char>::empty() + visible(s.drop_first()));
        assert(visible(s) =~= visible(s.drop_first()));
        if cur.len() > 0 && cur.last() == '\r' {
            assert(cur.drop_last() + seq![cur.last()] =~= cur);
            lemma_visible_add(cur.drop_last(), seq![cur.last()]);
            lemma_visible_one(cur.last());
            assert(visible(cur.drop_last()) + Seq::<char>::empty() =~= visible(cur.drop_last()));
        }
        assert(visible(text::strip_cr(cur)) == visible(cur));
        assert(visible_lines(ls) == visible(ls[0]) + visible_lines(ls.drop_first()));
    } else {
        lemma_visible_lines_from(s.drop_first(), cur.push(s[0]));
        assert(ls == text::lines_from(s.drop_first(), cur.push(s[0])));
        assert(cur.push(s[0]) =~= cur + seq![s[0]]);
        lemma_visible_add(cur, seq![s[0]]);
        lemma_visible_one(s[0]);
        let h: Seq<char> = if text::is_ws(s[0]) {
            seq![]
        } else {
            seq![s[0]]
        };
        assert(visible(s) == h + visible(s.drop_first()));
        assert((visible(cur) + h) + visible(s.drop_first()) =~= visible(cur) + (h + visible(s.drop_first())));
    }
}

proof fn lemma_visible_collapse(ls: Seq<Seq<char>>, blank_run: bool)
    ensures
        visible(collapse_lines(ls, blank_run)) == visible_lines(ls),
    decreases ls.len(),
{
    if ls.len() > 0 {
        let t = text::trim(ls[0]);
        let nb = t.len() == 0;
        lemma_visible_collapse(ls.drop_first(), nb);
        let rest = collapse_lines(ls.drop_first(), nb);
        lemma_visible_trim(ls[0]);
        lemma_visible_one('\n');
        assert(text::is_ws('\n'));
        if t.len() == 0 {
            assert(visible(t) =~= Seq::<char>::empty());
            let p: Seq<char> = if blank_run {
                seq![]
            } else {
                seq!['\n']
            };
            lemma_visible_add(p, rest);
            assert(visible(p) =~= Seq::<char>::empty());
            assert(Seq::<char>::empty() + visible(rest) =~= visible(rest));
        } else {
            lemma_visible_add(t, seq!['\n']);
            lemma_visible_add(t + seq!['\n'], rest);
            assert(visible(t) + Seq::<char>::empty() =~= visible(t));
        }
    }
}

/// The text made from HTML keeps, in order, every character that is neither
/// whitespace nor inside or part of a tag, and no other: stripping moves
/// only whitespace.
pub proof fn law_strip_html_keeps_text(html: Seq<char>)
    ensures
        visible(spec_strip_html_tags(html)) == visible(drop_tags(html, false)),
{
    let d = drop_tags(html, false);
    lemma_visible_collapse(text::lines(d), false);
    lemma_visible_lines_from(d, seq![]);
    assert(visible(Seq::<char>::empty()) + visible(d) =~= visible(d));
}

/// Text made from HTML never holds more than one blank line in a row, and
/// does not start with two.
pub proof fn law_strip_html_blank_lines(html: Seq<char>)
    ensures
        no_blank_run(spec_strip_html_tags(html)),
        !(spec_strip_html_tags(html).len() >= 2 && spec_strip_html_tags(html)[0] == '\n'
            && spec_strip_html_tags(html)[1] == '\n'),
{
    let d = drop_tags(html, false);
    assert(!has_newline(Seq::<char>::empty()));
    lemma_lines_from_no_newline(d, seq![]);
    lemma_collapse_blank_runs(text::lines(d), false);
}

pub fn strip_html_tags(html: &str) -> (r: String)
    ensures
        r@ == spec_strip_html_tags(html@),
{
    let v = chars_of(html);
    let n: usize = v.len();
    let mut out: Vec<char> = Vec::new();
    let mut in_tag = false;
    let mut i: usize = 0;
    assert(v@.skip(0) =~= v@);
    while i < n
        invariant
            i <= n == v@.len(),
            out@ + drop_tags(v@.skip(i as int), in_tag) == drop_tags(v@, false),
        decreases n - i,
    {
        let ghost rest = v@.skip(i as int);
        assert(rest[0] == v@[i as int]);
        assert(rest.drop_first() =~= v@.skip(i + 1));
        let c = v[i];
        if c == '<' {
            in_tag = true;
        } else if c == '>' {
            in_tag = false;
        } else if !in_tag {
            let ghost o = out@;
            out.push(c);
            assert(out@ + drop_tags(v@.skip(i + 1), false) =~= o + (seq![c] + drop_tags(
                v@.skip(i + 1),
                false,
            )));
        }
        i = i + 1;
    }
    assert(v@.skip(n as int) =~= Seq::<char>::empty());
    assert(out@ + Seq::<char>::empty() =~= out@);
    let ls = split_lines(&out);
    let ghost lv = text::views(ls@);
    let mut result = String::new();
    let mut blank_run = false;
    let mut k: usize = 0;
    assert(lv.skip(0) =~= lv);
    assert(result@ =~= Seq::<char>::empty());
    assert(result@ + collapse_lines(lv, false) =~= collapse_lines(lv, false));
    while k < ls.len()
        invariant
            k <= ls@.len() == lv.len(),
            lv == text::views(ls@),
            lv == text::lines(drop_tags(html@, false)),
            result@ + collapse_lines(lv.skip(k as int), blank_run) == collapse_lines(lv, false),
        decreases ls@.len() - k,
    {
        let ghost rest = lv.skip(k as int);
        assert(rest[0] == ls@[k as int]@);
        assert(rest.drop_first() =~= lv.skip(k + 1));
        let t = trim_vec(&ls[k]);
        let ghost r0 = result@;
        if t.len() == 0 {
            if !blank_run {
                push_char(&mut result, '\n');
                assert(result@ + collapse_lines(lv.skip(k + 1), true) =~= r0 + (seq!['\n']
                    + collapse_lines(lv.skip(k + 1), true)));
            } else {
                assert(r0 + (Seq::<char>::empty() + collapse_lines(lv.skip(k + 1), true))
                    =~= r0 + collapse_lines(lv.skip(k + 1), true));
            }
            blank_run = true;
        } else {
            push_chars(&mut result, &t);
            push_char(&mut result, '\n');
            assert(result@ + collapse_lines(lv.skip(k + 1), false) =~= r0 + (t@ + seq!['\n']
                + collapse_lines(lv.skip(k + 1), false)));
            blank_run = false;
        }
        k = k + 1;
    }
    assert(lv.skip(ls@.len() as int) =~= Seq::<Seq<char>>::empty());
    assert(result@ + Seq::<char>::empty() =~= result@);
    result
}


// ---------------------------------------------------------------
// Message payloads

/// One `{name, value}` entry of a payload's `headers` array; a field that is
/// missing or not a string is `None`.
#[derive(Debug)]
pub struct HeaderField {
    pub name: Option<String>,
    pub value: Option<String>,
}

/// A node of a Gmail message payload tree, holding what the library reads
/// of it: `mimeType`, `filename`, `body.data`, `body.attachmentId` (each
/// `None` where missing or not a string), `headers` and `parts`.
#[derive(Debug)]
pub struct Payload {
    pub mime_type: Option<String>,
    pub filename: Option<String>,
    pub body_data: Option<String>,
    pub attachment_id: Option<String>,
    pub headers: Vec<HeaderField>,
    pub parts: Vec<Payload>,
}

/// The text of `o`, or `d` where it is `None`.
pub open spec fn opt_view(o: Option<String>, d: Seq<char>) -> Seq<char> {
    match o {
        Some(s) => s@,
        None => d,
    }
}

pub open spec fn opt_seq(o: Option<String>) -> Option<Seq<char>> {
    match o {
        Some(s) => Some(s@),
        None => None,
    }
}

/// `s` without its whitespace characters.
pub open spec fn remove_ws(s: Seq<char>) -> Seq<char>
    decreases s.len(),
{
    if s.len() == 0 {
        seq![]
    } else {
        (if text::is_ws(s[0]) {
            seq![]
        } else {
            seq![s[0]]
        }) + remove_ws(s.drop_first())
    }
}

/// Body data as Gmail sends it: URL-safe base64, tried without padding, then
/// with padding, then without padding once whitespace is removed; the bytes
/// read as lossy UTF-8. Empty data gives nothing.
pub open spec fn spec_decode_data(d: Seq<char>) -> Option<Seq<char>> {
    if d.len() == 0 {
        None
    } else {
        let b = vstd::utf8::encode_utf8(d);
        let bytes = if codec::spec_b64_decode(B64Engine::UrlSafeNoPad, b) is Some {
            codec::spec_b64_decode(B64Engine::UrlSafeNoPad, b)
        } else if codec::spec_b64_decode(B64Engine::UrlSafe, b) is Some {
            codec::spec_b64_decode(B64Engine::UrlSafe, b)
        } else {
            codec::spec_b64_decode(B64Engine::UrlSafeNoPad, vstd::utf8::encode_utf8(remove_ws(d)))
        };
        match bytes {
            Some(x) => Some(codec::spec_utf8_lossy(x)),
            None => None,
        }
    }
}

pub open spec fn spec_decode_part_data(p: Payload) -> Option<Seq<char>> {
    match p.body_data {
        Some(d) => spec_decode_data(d@),
        None => None,
    }
}

fn remove_whitespace(d: &str) -> (r: String)
    ensures
        r@ == remove_ws(d@),
{
    let v = chars_of(d);
    let mut r = String::new();
    let mut i: usize = v.len();
    // built from the back: r holds remove_ws of the suffix from i
    let mut kept: Vec<char> = Vec::new();
    assert(v@.skip(v@.len() as int) =~= Seq::<char>::empty());
    while i > 0
        invariant
            i <= v@.len(),
            kept@.reverse() == remove_ws(v@.skip(i as int)),
        decreases i,
    {
        i = i - 1;
        let ghost rest = v@.skip(i as int);
        assert(rest[0] == v@[i as int]);
        assert(rest.drop_first() =~= v@.skip(i + 1));
        let ghost k0 = kept@;
        if !is_whitespace(v[i]) {
            kept.push(v[i]);
            assert(kept@.reverse() =~= seq![v@[i as int]] + k0.reverse());
        } else {
            assert(remove_ws(rest) =~= remove_ws(v@.skip(i + 1)));
        }
    }
    assert(v@.skip(0) =~= v@);
    let mut j: usize = kept.len();
    let ghost total = kept@.reverse();
    while j > 0
        invariant
            j <= kept@.len(),
            total == kept@.reverse(),
            r@ == total.subrange(0, (kept@.len() - j) as int),
        decreases j,
    {
        j = j - 1;
        push_char(&mut r, kept[j]);
        assert(total[(kept@.len() - j - 1) as int] == kept@[j as int]);
        assert(r@ =~= total.subrange(0, (kept@.len() - j) as int));
    }
    assert(total.subrange(0, kept@.len() as int) =~= total);
    r
}

/// Decodes Gmail body data (see `spec_decode_data`). Text encoded for
/// sending (`encode_message`) decodes back to itself.
pub fn decode_data(d: &str) -> (r: Option<String>)
    ensures
        opt_seq(r) == spec_decode_data(d@),
        forall|raw: Seq<char>|
            raw.len() > 0 && d@ == #[trigger] codec::spec_b64_encode(
                true,
                false,
                vstd::utf8::encode_utf8(raw),
            ) ==> opt_seq(r) == Some(raw),
{
    broadcast use vstd::utf8::encode_utf8_valid_utf8, vstd::utf8::encode_utf8_decode_utf8;
    let dv = chars_of(d);
    if dv.len() == 0 {
        proof {
            assert forall|raw: Seq<char>|
                raw.len() > 0 && d@ == #[trigger] codec::spec_b64_encode(
                    true,
                    false,
                    vstd::utf8::encode_utf8(raw),
                ) implies false by {
                let b = vstd::utf8::encode_utf8(raw);
                assert(b.len() > 0);
                assert(codec::spec_b64_encode(true, false, b).len() > 0);
            }
        }
        return None;
    }
    let b = d.as_bytes();
    let first = b64_decode(B64Engine::UrlSafeNoPad, b);
    proof {
        assert forall|raw: Seq<char>|
            raw.len() > 0 && d@ == #[trigger] codec::spec_b64_encode(
                true,
                false,
                vstd::utf8::encode_utf8(raw),
            ) implies codec::opt_bytes(first) == Some(vstd::utf8::encode_utf8(raw)) by {
            let eb = vstd::utf8::encode_utf8(raw);
            assert(codec::engine_is_url(B64Engine::UrlSafeNoPad));
            assert(!codec::engine_pads(B64Engine::UrlSafeNoPad));
            assert(b@ == vstd::utf8::encode_utf8(
                codec::spec_b64_encode(
                    codec::engine_is_url(B64Engine::UrlSafeNoPad),
                    codec::engine_pads(B64Engine::UrlSafeNoPad),
                    eb,
                ),
            ));
        }
    }
    let bytes = match first {
        Some(x) => x,
        None => match b64_decode(B64Engine::UrlSafe, b) {
            Some(x) => x,
            None => {
                let clean = remove_whitespace(d);
                match b64_decode(B64Engine::UrlSafeNoPad, clean.as_str().as_bytes()) {
                    Some(x) => x,
                    None => {
                        return None;
                    },
                }
            },
        },
    };
    Some(utf8_lossy(bytes.as_slice()))
}

/// The decoded `body.data` of one payload node.
pub fn decode_part_data(p: &Payload) -> (r: Option<String>)
    ensures
        opt_seq(r) == spec_decode_part_data(*p),
{
    match &p.body_data {
        Some(d) => decode_data(d.as_str()),
        None => None,
    }
}

/// The non-empty decoded body of this node itself, where its MIME type is
/// `mime`.
pub open spec fn body_here(p: Payload, mime: Seq<char>) -> Option<Seq<char>> {
    if opt_view(p.mime_type, seq![]) == mime {
        match spec_decode_part_data(p) {
            Some(t) => if t.len() > 0 {
                Some(t)
            } else {
                None
            },
            None => None,
        }
    } else {
        None
    }
}

/// The first non-empty decoded body of MIME type `mime` in a depth-first,
/// node-before-children walk of the tree.
pub open spec fn find_body(p: Payload, mime: Seq<char>) -> Option<Seq<char>>
    decreases p, p.parts@.len() + 1,
{
    match body_here(p, mime) {
        Some(t) => Some(t),
        None => find_body_from(p, mime, 0),
    }
}

/// `find_body` over the children of `p` from index `i` on.
pub open spec fn find_body_from(p: Payload, mime: Seq<char>, i: int) -> Option<Seq<char>>
    decreases p, p.parts@.len() - i,
{
    if i < 0 || i >= p.parts@.len() {
        None
    } else {
        proof {
            assert(decreases_to!(p => p.parts@[i]));
        }
        match find_body(p.parts@[i], mime) {
            Some(t) => Some(t),
            None => find_body_from(p, mime, i + 1),
        }
    }
}

fn mime_is(p: &Payload, mime: &str) -> (r: bool)
    ensures
        r == (opt_view(p.mime_type, seq![]) == mime@),
{
    match &p.mime_type {
        Some(m) => str_eq(m.as_str(), mime),
        None => {
            let e = String::new();
            str_eq(e.as_str(), mime)
        },
    }
}

fn body_here_exec(p: &Payload, mime: &str) -> (r: Option<String>)
    ensures
        opt_seq(r) == body_here(*p, mime@),
{
    if mime_is(p, mime) {
        match decode_part_data(p) {
            Some(t) => {
                let tv = chars_of(t.as_str());
                if tv.len() > 0 {
                    Some(t)
                } else {
                    None
                }
            },
            None => None,
        }
    } else {
        None
    }
}

/// See `find_body`.
pub fn find_body_exec(p: &Payload, mime: &str) -> (r: Option<String>)
    ensures
        opt_seq(r) == find_body(*p, mime@),
    decreases p,
{
    let h = body_here_exec(p, mime);
    if h.is_some() {
        return h;
    }
    let n: usize = p.parts.len();
    let mut i: usize = 0;
    while i < n
        invariant
            i <= n == p.parts@.len(),
            body_here(*p, mime@) is None,
            find_body_from(*p, mime@, 0) == find_body_from(*p, mime@, i as int),
        decreases n - i,
    {
        proof {
            assert(decreases_to!(p => p.parts@[i as int]));
        }
        let r = find_body_exec(&p.parts[i], mime);
        if r.is_some() {
            return r;
        }
        i = i + 1;
    }
    None
}

/// A body found by `find_body` is never empty.
pub proof fn lemma_find_body_nonempty(p: Payload, mime: Seq<char>)
    ensures
        find_body(p, mime) matches Some(t) ==> t.len() > 0,
    decreases p, p.parts@.len() + 1,
{
    lemma_find_body_from_nonempty(p, mime, 0);
}

pub proof fn lemma_find_body_from_nonempty(p: Payload, mime: Seq<char>, i: int)
    ensures
        find_body_from(p, mime, i) matches Some(t) ==> t.len() > 0,
    decreases p, p.parts@.len() - i,
{
    if 0 <= i < p.parts@.len() {
        assert(decreases_to!(p => p.parts@[i]));
        lemma_find_body_nonempty(p.parts@[i], mime);
        lemma_find_body_from_nonempty(p, mime, i + 1);
    }
}

/// `extract_body_prefer_plain`: the first non-empty `text/plain` body.
pub fn extract_body_prefer_plain(p: &Payload) -> (r: Option<String>)
    ensures
        opt_seq(r) == find_body(*p, "text/plain"@),
{
    find_body_exec(p, "text/plain")
}

/// The first non-empty `text/html` body, as it stands.
pub fn extract_body_raw_html(p: &Payload) -> (r: Option<String>)
    ensures
        opt_seq(r) == find_body(*p, "text/html"@),
{
    find_body_exec(p, "text/html")
}

/// The first non-empty `text/html` body, reduced to text.
pub fn extract_body_html(p: &Payload) -> (r: Option<String>)
    ensures
        opt_seq(r) == (match find_body(*p, "text/html"@) {
            Some(h) => Some(spec_strip_html_tags(h)),
            None => None,
        }),
{
    match find_body_exec(p, "text/html") {
        Some(h) => Some(strip_html_tags(h.as_str())),
        None => None,
    }
}

/// The readable body: the first plain-text body, else the first HTML body
/// reduced to text, else empty.
pub open spec fn spec_extract_body(p: Payload) -> Seq<char> {
    match find_body(p, "text/plain"@) {
        Some(t) => t,
        None => match find_body(p, "text/html"@) {
            Some(h) => spec_strip_html_tags(h),
            None => seq![],
        },
    }
}

pub fn extract_body(p: &Payload) -> (r: String)
    ensures
        r@ == spec_extract_body(*p),
{
    match extract_body_prefer_plain(p) {
        Some(t) => t,
        None => match extract_body_html(p) {
            Some(h) => h,
            None => String::new(),
        },
    }
}


// ---------------------------------------------------------------
// Headers and message records

/// The value of the last header named `key` whose name and value are both
/// strings (later entries replace earlier ones, as in a map built from the
/// list), or empty.
pub open spec fn header_lookup(hs: Seq<HeaderField>, key: Seq<char>) -> Seq<char>
    decreases hs.len(),
{
    if hs.len() == 0 {
        seq![]
    } else if hs.last().name is Some && hs.last().value is Some && hs.last().name->0@ == key {
        hs.last().value->0@
    } else {
        header_lookup(hs.drop_last(), key)
    }
}

pub fn header_value(hs: &Vec<HeaderField>, key: &str) -> (r: String)
    ensures
        r@ == header_lookup(hs@, key@),
{
    let mut i: usize = hs.len();
    assert(hs@.take(i as int) =~= hs@);
    while i > 0
        invariant
            i <= hs@.len(),
            header_lookup(hs@, key@) == header_lookup(hs@.take(i as int), key@),
        decreases i,
    {
        let ghost t = hs@.take(i as int);
        assert(t.last() == hs@[i - 1]);
        assert(t.drop_last() =~= hs@.take(i - 1));
        let h = &hs[i - 1];
        match (&h.name, &h.value) {
            (Some(n), Some(v)) => {
                if str_eq(n.as_str(), key) {
                    return v.clone();
                }
            },
            _ => {},
        }
        i = i - 1;
    }
    String::new()
}

/// One line of an inbox or search listing.
#[derive(Debug)]
pub struct EmailSummary {
    pub id: String,
    pub from: String,
    pub subject: String,
    pub date: String,
    pub snippet: String,
}

/// A whole message: headers, the readable body and the raw HTML body.
#[derive(Debug)]
pub struct EmailFull {
    pub id: String,
    pub from: String,
    pub to: String,
    pub subject: String,
    pub date: String,
    pub body: String,
    pub body_html: String,
}

/// The listing line for message `id` from its metadata headers and snippet
/// (a missing or non-string snippet is empty).
pub fn email_summary(id: &str, headers: &Vec<HeaderField>, snippet: Option<String>) -> (r:
    EmailSummary)
    ensures
        r.id@ == id@,
        r.from@ == header_lookup(headers@, "From"@),
        r.subject@ == header_lookup(headers@, "Subject"@),
        r.date@ == header_lookup(headers@, "Date"@),
        r.snippet@ == opt_view(snippet, seq![]),
{
    EmailSummary {
        id: String::from_str(id),
        from: header_value(headers, "From"),
        subject: header_value(headers, "Subject"),
        date: header_value(headers, "Date"),
        snippet: match snippet {
            Some(s) => s,
            None => String::new(),
        },
    }
}

/// The body shown for a message: the HTML body reduced to text where there
/// is one, else the readable body.
pub open spec fn spec_display_body(p: Payload) -> Seq<char> {
    match find_body(p, "text/html"@) {
        Some(h) => spec_strip_html_tags(h),
        None => spec_extract_body(p),
    }
}

/// The record of message `msg_id` from its full payload.
pub fn email_full(msg_id: &str, payload: &Payload) -> (r: EmailFull)
    ensures
        r.id@ == msg_id@,
        r.from@ == header_lookup(payload.headers@, "From"@),
        r.to@ == header_lookup(payload.headers@, "To"@),
        r.subject@ == header_lookup(payload.headers@, "Subject"@),
        r.date@ == header_lookup(payload.headers@, "Date"@),
        r.body_html@ == (match find_body(*payload, "text/html"@) {
            Some(h) => h,
            None => seq![],
        }),
        r.body@ == spec_display_body(*payload),
{
    let body_html = match extract_body_raw_html(payload) {
        Some(h) => h,
        None => String::new(),
    };
    let hv = chars_of(body_html.as_str());
    proof {
        lemma_find_body_nonempty(*payload, "text/html"@);
    }
    let body = if hv.len() == 0 {
        extract_body(payload)
    } else {
        strip_html_tags(body_html.as_str())
    };
    EmailFull {
        id: String::from_str(msg_id),
        from: header_value(&payload.headers, "From"),
        to: header_value(&payload.headers, "To"),
        subject: header_value(&payload.headers, "Subject"),
        date: header_value(&payload.headers, "Date"),
        body,
        body_html,
    }
}

// ---------------------------------------------------------------
// Payload structure

/// The shape of a payload tree: MIME type, byte length of the body data and
/// the children, without the data itself.
#[derive(Debug)]
pub struct PayloadSummary {
    pub mime_type: String,
    pub body_data_len: usize,
    pub parts: Vec<PayloadSummary>,
}

pub open spec fn data_len(p: Payload) -> usize {
    match p.body_data {
        Some(d) => vstd::utf8::encode_utf8(d@).len() as usize,
        None => 0,
    }
}

/// `s` summarizes `p`: same MIME type (empty where missing), the byte
/// length of the data (0 where missing), and each child summarized.
pub open spec fn summarizes(s: PayloadSummary, p: Payload) -> bool
    decreases p, p.parts@.len() + 1,
{
    &&& s.mime_type@ == opt_view(p.mime_type, seq![])
    &&& s.body_data_len == data_len(p)
    &&& s.parts@.len() == p.parts@.len()
    &&& summarizes_from(s, p, 0)
}

/// The children of `s` from index `i` on summarize those of `p`.
pub open spec fn summarizes_from(s: PayloadSummary, p: Payload, i: int) -> bool
    decreases p, p.parts@.len() - i,
{
    if i < 0 || i >= p.parts@.len() {
        true
    } else {
        proof {
            assert(decreases_to!(p => p.parts@[i]));
        }
        summarizes(s.parts@[i], p.parts@[i]) && summarizes_from(s, p, i + 1)
    }
}

proof fn lemma_summarizes_from(s: PayloadSummary, p: Payload, i: int)
    requires
        0 <= i <= p.parts@.len(),
        s.parts@.len() == p.parts@.len(),
        forall|j: int| i <= j < p.parts@.len() ==> #[trigger] summarizes(s.parts@[j], p.parts@[j]),
    ensures
        summarizes_from(s, p, i),
    decreases p.parts@.len() - i,
{
    if i < p.parts@.len() {
        assert(summarizes(s.parts@[i], p.parts@[i]));
        lemma_summarizes_from(s, p, i + 1);
    }
}

/// `get_raw_payload`'s summary of a payload tree.
pub fn summarize(p: &Payload) -> (r: PayloadSummary)
    ensures
        summarizes(r, *p),
    decreases p,
{
    let mime_type = match &p.mime_type {
        Some(m) => m.clone(),
        None => String::new(),
    };
    let body_data_len: usize = match &p.body_data {
        Some(d) => d.as_str().len(),
        None => 0,
    };
    let mut parts: Vec<PayloadSummary> = Vec::new();
    let n: usize = p.parts.len();
    let mut i: usize = 0;
    while i < n
        invariant
            i <= n == p.parts@.len(),
            parts@.len() == i,
            forall|j: int| 0 <= j < i ==> #[trigger] summarizes(parts@[j], p.parts@[j]),
        decreases n - i,
    {
        proof {
            assert(decreases_to!(p => p.parts@[i as int]));
        }
        let s = summarize(&p.parts[i]);
        parts.push(s);
        i = i + 1;
    }
    let r = PayloadSummary { mime_type, body_data_len, parts };
    assert(r.mime_type@ == opt_view(p.mime_type, seq![]));
    assert(r.body_data_len == data_len(*p));
    assert(r.parts@.len() == p.parts@.len());
    proof {
        lemma_summarizes_from(r, *p, 0);
    }
    r
}


// ---------------------------------------------------------------
// Attachments

/// An attachment found in a payload tree: its file name, its MIME type and
/// where its data is: an attachment id, or `inline:` followed by the data.
#[derive(Debug)]
pub struct AttachmentInfo {
    pub filename: String,
    pub mime_type: String,
    pub source: String,
}

pub open spec fn info_view(a: AttachmentInfo) -> (Seq<char>, Seq<char>, Seq<char>) {
    (a.filename@, a.mime_type@, a.source@)
}

pub open spec fn info_views(v: Seq<AttachmentInfo>) -> Seq<(Seq<char>, Seq<char>, Seq<char>)> {
    v.map_values(|a: AttachmentInfo| info_view(a))
}

/// The attachment this node itself carries: one where it has a file name
/// and an attachment id or inline data.
pub open spec fn own_attachment(p: Payload) -> Seq<(Seq<char>, Seq<char>, Seq<char>)> {
    let f = opt_view(p.filename, seq![]);
    let aid = opt_view(p.attachment_id, seq![]);
    let inline = opt_view(p.body_data, seq![]);
    if f.len() > 0 && (aid.len() > 0 || inline.len() > 0) {
        seq![
            (f, opt_view(p.mime_type, "application/octet-stream"@), if aid.len() == 0 {
                "inline:"@ + inline
            } else {
                aid
            }),
        ]
    } else {
        seq![]
    }
}

/// The attachments of a payload tree, node before children, children in
/// order.
pub open spec fn spec_attachments(p: Payload) -> Seq<(Seq<char>, Seq<char>, Seq<char>)>
    decreases p, p.parts@.len() + 1,
{
    own_attachment(p) + spec_attachments_from(p, 0)
}

pub open spec fn spec_attachments_from(p: Payload, i: int) -> Seq<
    (Seq<char>, Seq<char>, Seq<char>),
>
    decreases p, p.parts@.len() - i,
{
    if i < 0 || i >= p.parts@.len() {
        seq![]
    } else {
        proof {
            assert(decreases_to!(p => p.parts@[i]));
        }
        spec_attachments(p.parts@[i]) + spec_attachments_from(p, i + 1)
    }
}

fn opt_or(o: &Option<String>, d: &str) -> (r: String)
    ensures
        r@ == opt_view(*o, d@),
{
    match o {
        Some(s) => s.clone(),
        None => String::from_str(d),
    }
}

fn opt_or_empty(o: &Option<String>) -> (r: String)
    ensures
        r@ == opt_view(*o, seq![]),
{
    match o {
        Some(s) => s.clone(),
        None => String::new(),
    }
}

/// Appends the attachments of `p` to `out`.
pub fn collect_attachment_infos(p: &Payload, out: &mut Vec<AttachmentInfo>)
    ensures
        info_views(final(out)@) == info_views(old(out)@) + spec_attachments(*p),
    decreases p,
{
    let ghost out0 = out@;
    let filename = opt_or_empty(&p.filename);
    let fv = chars_of(filename.as_str());
    if fv.len() > 0 {
        let mime = opt_or(&p.mime_type, "application/octet-stream");
        let aid = opt_or_empty(&p.attachment_id);
        let inline = opt_or_empty(&p.body_data);
        let av = chars_of(aid.as_str());
        let iv = chars_of(inline.as_str());
        if av.len() > 0 || iv.len() > 0 {
            let source = if av.len() == 0 {
                let mut s = String::from_str("inline:");
                s.append(inline.as_str());
                s
            } else {
                aid
            };
            let ghost e = (filename@, mime@, source@);
            assert(own_attachment(*p) =~= seq![e]);
            out.push(AttachmentInfo { filename, mime_type: mime, source });
            assert(info_views(out@) =~= info_views(out0) + seq![e]);
        } else {
            assert(own_attachment(*p) =~= Seq::empty());
            assert(info_views(out@) =~= info_views(out0) + Seq::empty());
        }
    } else {
        assert(own_attachment(*p) =~= Seq::empty());
        assert(info_views(out@) =~= info_views(out0) + Seq::empty());
    }
    assert(info_views(out@) =~= info_views(out0) + own_attachment(*p));
    let ghost out1 = out@;
    let n: usize = p.parts.len();
    let mut i: usize = 0;
    assert(info_views(out@) + spec_attachments_from(*p, 0) =~= info_views(out0) + spec_attachments(
        *p,
    ));
    while i < n
        invariant
            i <= n == p.parts@.len(),
            info_views(out@) + spec_attachments_from(*p, i as int) == info_views(out0)
                + spec_attachments(*p),
        decreases n - i,
    {
        proof {
            assert(decreases_to!(p => p.parts@[i as int]));
        }
        let ghost before = out@;
        collect_attachment_infos(&p.parts[i], out);
        assert(info_views(out@) + spec_attachments_from(*p, i + 1) =~= info_views(before) + (
        spec_attachments(p.parts@[i as int]) + spec_attachments_from(*p, i + 1)));
        i = i + 1;
    }
    assert(info_views(out@) + Seq::empty() =~= info_views(out@));
}

/// Where an attachment's data comes from.
#[derive(Debug)]
pub enum AttachmentSource {
    /// The data itself, carried in the payload.
    Inline(String),
    /// An attachment id to fetch.
    Fetch(String),
}

/// Reads an `AttachmentInfo::source`.
pub fn attachment_source(source: &str) -> (r: AttachmentSource)
    ensures
        match r {
            AttachmentSource::Inline(d) => is_prefix("inline:"@, source@) && "inline:"@ + d@
                == source@,
            AttachmentSource::Fetch(id) => !is_prefix("inline:"@, source@) && id@ == source@,
        },
{
    if str_starts_with(source, "inline:") {
        let v = chars_of(source);
        let p = chars_of("inline:");
        let rest = slice_chars(&v, p.len(), v.len());
        assert(p@ + rest@ =~= v@);
        AttachmentSource::Inline(crate::text::string_from_chars(&rest))
    } else {
        AttachmentSource::Fetch(String::from_str(source))
    }
}

pub open spec fn is_prefix(p: Seq<char>, s: Seq<char>) -> bool {
    crate::text::is_prefix(p, s)
}

// ---------------------------------------------------------------
// base64 for MIME bodies

pub open spec fn byte_len_ok(s: Seq<char>) -> bool {
    text::byte_len_ok(s)
}

/// `s` cut into lines of 76 characters joined by CRLF.
pub open spec fn wrap76(s: Seq<char>) -> Seq<char>
    decreases s.len(),
{
    if s.len() <= 76 {
        s
    } else {
        s.take(76) + "\r\n"@ + wrap76(s.skip(76))
    }
}

pub fn wrap_lines76(s: &str) -> (r: String)
    ensures
        r@ == wrap76(s@),
{
    let v = chars_of(s);
    let n: usize = v.len();
    let mut r = String::new();
    let mut i: usize = 0;
    assert(v@.skip(0) =~= v@);
    assert(r@ + wrap76(v@) =~= wrap76(v@));
    while n - i > 76
        invariant
            i <= n == v@.len(),
            r@ + wrap76(v@.skip(i as int)) == wrap76(v@),
        decreases n - i,
    {
        let ghost rest = v@.skip(i as int);
        let chunk = slice_chars(&v, i, i + 76);
        assert(chunk@ =~= rest.take(76));
        assert(rest.skip(76) =~= v@.skip(i + 76));
        let ghost r0 = r@;
        push_chars(&mut r, &chunk);
        r.append("\r\n");
        assert(r@ + wrap76(v@.skip(i + 76)) =~= r0 + (rest.take(76) + "\r\n"@ + wrap76(
            rest.skip(76),
        )));
        i = i + 76;
    }
    let last = slice_chars(&v, i, n);
    assert(last@ =~= v@.skip(i as int));
    push_chars(&mut r, &last);
    r
}

/// A character of the standard base64 alphabet, or the padding `=`.
pub open spec fn std_b64_char(c: char) -> bool {
    ('A' <= c <= 'Z') || ('a' <= c <= 'z') || ('0' <= c <= '9') || c == '+' || c == '/' || c == '='
}

proof fn lemma_b64_char_std(x: int)
    requires
        0 <= x < 64,
    ensures
        std_b64_char(codec::b64_char(false, x)),
{
}

proof fn lemma_std_b64_alphabet(b: Seq<u8>)
    ensures
        forall|i: int| 0 <= i < codec::spec_b64_encode(false, true, b).len() ==> std_b64_char(
            #[trigger] codec::spec_b64_encode(false, true, b)[i],
        ),
    decreases b.len(),
{
    let e = codec::spec_b64_encode(false, true, b);
    if b.len() >= 1 {
        let b0 = b[0] as int;
        lemma_b64_char_std(b0 / 4);
        if b.len() == 1 {
            lemma_b64_char_std((b0 % 4) * 16);
        } else {
            let b1 = b[1] as int;
            lemma_b64_char_std((b0 % 4) * 16 + b1 / 16);
            if b.len() == 2 {
                lemma_b64_char_std((b1 % 16) * 4);
            } else {
                let b2 = b[2] as int;
                lemma_b64_char_std((b1 % 16) * 4 + b2 / 64);
                lemma_b64_char_std(b2 % 64);
                lemma_std_b64_alphabet(b.skip(3));
                let rest = codec::spec_b64_encode(false, true, b.skip(3));
                assert forall|i: int| 0 <= i < e.len() implies std_b64_char(#[trigger] e[i]) by {
                    if i >= 4 {
                        assert(e[i] == rest[i - 4]);
                    }
                }
            }
        }
    }
}

/// The pieces `wrap76` cuts `s` into: 76 characters each, the last one
/// at most 76.
pub open spec fn pieces76(s: Seq<char>) -> Seq<Seq<char>>
    decreases s.len(),
{
    if s.len() <= 76 {
        seq![s]
    } else {
        seq![s.take(76)] + pieces76(s.skip(76))
    }
}

/// Pieces put back together.
pub open spec fn concat_pieces(ps: Seq<Seq<char>>) -> Seq<char>
    decreases ps.len(),
{
    if ps.len() == 0 {
        seq![]
    } else {
        ps[0] + concat_pieces(ps.drop_first())
    }
}

/// Pieces joined by CRLF.
pub open spec fn join_crlf(ps: Seq<Seq<char>>) -> Seq<char>
    decreases ps.len(),
{
    if ps.len() == 0 {
        seq![]
    } else if ps.len() == 1 {
        ps[0]
    } else {
        ps[0] + "\r\n"@ + join_crlf(ps.drop_first())
    }
}

proof fn lemma_pieces76(s: Seq<char>)
    ensures
        wrap76(s) == join_crlf(pieces76(s)),
        pieces76(s).len() > 0,
        forall|i: int| 0 <= i < pieces76(s).len() ==> #[trigger] pieces76(s)[i].len() <= 76,
        forall|i: int| 0 <= i < pieces76(s).len() - 1 ==> #[trigger] pieces76(s)[i].len() == 76,
        concat_pieces(pieces76(s)) == s,
    decreases s.len(),
{
    if s.len() > 76 {
        let rest = s.skip(76);
        lemma_pieces76(rest);
        let ps = pieces76(s);
        let pr = pieces76(rest);
        assert(ps.drop_first() =~= pr);
        assert forall|i: int| 0 <= i < ps.len() implies #[trigger] ps[i].len() <= 76 by {
            if i > 0 {
                assert(ps[i] == pr[i - 1]);
            }
        }
        assert forall|i: int| 0 <= i < ps.len() - 1 implies #[trigger] ps[i].len() == 76 by {
            if i > 0 {
                assert(ps[i] == pr[i - 1]);
            }
        }
        assert(ps[0] == s.take(76));
        assert(concat_pieces(ps) == ps[0] + concat_pieces(ps.drop_first()));
        assert(concat_pieces(ps) == s.take(76) + rest);
        assert(s.take(76) + rest =~= s);
    } else {
        let ps = pieces76(s);
        assert(ps =~= seq![s]);
        assert(ps.drop_first() =~= Seq::<Seq<char>>::empty());
        assert(concat_pieces(ps.drop_first()) == Seq::<char>::empty());
        assert(concat_pieces(ps) == s + Seq::<char>::empty());
        assert(s + Seq::<char>::empty() =~= s);
    }
}

/// Attachment data re-encoded for a MIME part is standard base64 cut into
/// CRLF-separated lines of 76 characters, the last of at most 76; the
/// lines put back together are the encoding, which holds only the standard
/// alphabet and `=` (so no line break of its own).
pub proof fn law_standard_b64_lines(b: Seq<u8>)
    ensures
        ({
            let e = codec::spec_b64_encode(false, true, b);
            let ps = pieces76(e);
            &&& wrap76(e) == join_crlf(ps)
            &&& forall|i: int| 0 <= i < e.len() ==> std_b64_char(#[trigger] e[i])
            &&& forall|i: int| 0 <= i < ps.len() ==> #[trigger] ps[i].len() <= 76
            &&& forall|i: int| 0 <= i < ps.len() - 1 ==> #[trigger] ps[i].len() == 76
            &&& concat_pieces(ps) == e
        }),
{
    let e = codec::spec_b64_encode(false, true, b);
    lemma_std_b64_alphabet(b);
    lemma_pieces76(e);
}

/// Standard padded base64 of the UTF-8 bytes of `text`.
pub open spec fn b64_std(text: Seq<char>) -> Seq<char> {
    codec::spec_b64_encode(false, true, vstd::utf8::encode_utf8(text))
}

/// Gmail attachment data (URL-safe base64, with or without padding)
/// re-encoded as standard base64 wrapped at 76 characters; data that does
/// not decode gives an empty body.
pub open spec fn spec_to_standard_b64_wrapped(url_safe: Seq<char>) -> Seq<char> {
    let b = vstd::utf8::encode_utf8(url_safe);
    let bytes = if codec::spec_b64_decode(B64Engine::UrlSafeNoPad, b) is Some {
        codec::spec_b64_decode(B64Engine::UrlSafeNoPad, b)->0
    } else if codec::spec_b64_decode(B64Engine::UrlSafe, b) is Some {
        codec::spec_b64_decode(B64Engine::UrlSafe, b)->0
    } else {
        seq![]
    };
    wrap76(codec::spec_b64_encode(false, true, bytes))
}

/// Data that is the URL-safe encoding of some bytes, with or without
/// padding, comes out as those bytes' standard encoding, wrapped.
pub fn to_standard_b64_wrapped(url_safe: &str) -> (r: String)
    requires
        byte_len_ok(url_safe@),
    ensures
        r@ == spec_to_standard_b64_wrapped(url_safe@),
        forall|bs: Seq<u8>, pad: bool|
            url_safe@ == #[trigger] codec::spec_b64_encode(true, pad, bs) ==> r@ == wrap76(
                codec::spec_b64_encode(false, true, bs),
            ),
{
    let b = url_safe.as_bytes();
    let first = b64_decode(B64Engine::UrlSafeNoPad, b);
    let second = b64_decode(B64Engine::UrlSafe, b);
    proof {
        assert forall|bs: Seq<u8>, pad: bool|
            url_safe@ == #[trigger] codec::spec_b64_encode(true, pad, bs) implies (if codec::opt_bytes(
                first,
            ) is Some {
                codec::opt_bytes(first)
            } else {
                codec::opt_bytes(second)
            }) == Some(bs) by {
            assert(codec::engine_is_url(B64Engine::UrlSafeNoPad));
            assert(!codec::engine_pads(B64Engine::UrlSafeNoPad));
            assert(codec::engine_is_url(B64Engine::UrlSafe));
            assert(codec::engine_pads(B64Engine::UrlSafe));
            if !pad {
                assert(b@ == vstd::utf8::encode_utf8(
                    codec::spec_b64_encode(
                        codec::engine_is_url(B64Engine::UrlSafeNoPad),
                        codec::engine_pads(B64Engine::UrlSafeNoPad),
                        bs,
                    ),
                ));
            } else if bs.len() % 3 == 0 {
                codec::lemma_b64_no_pad_needed(true, bs);
                assert(b@ == vstd::utf8::encode_utf8(
                    codec::spec_b64_encode(
                        codec::engine_is_url(B64Engine::UrlSafeNoPad),
                        codec::engine_pads(B64Engine::UrlSafeNoPad),
                        bs,
                    ),
                ));
            } else {
                codec::lemma_b64_padded(true, bs);
                codec::lemma_utf8_has_eq_byte(url_safe@);
                assert(first is None);
                assert(b@ == vstd::utf8::encode_utf8(
                    codec::spec_b64_encode(
                        codec::engine_is_url(B64Engine::UrlSafe),
                        codec::engine_pads(B64Engine::UrlSafe),
                        bs,
                    ),
                ));
            }
        }
    }
    let bytes: Vec<u8> = match first {
        Some(x) => x,
        None => match second {
            Some(x) => x,
            None => Vec::new(),
        },
    };
    assert(bytes@ =~= (if codec::spec_b64_decode(B64Engine::UrlSafeNoPad, b@) is Some {
        codec::spec_b64_decode(B64Engine::UrlSafeNoPad, b@)->0
    } else if codec::spec_b64_decode(B64Engine::UrlSafe, b@) is Some {
        codec::spec_b64_decode(B64Engine::UrlSafe, b@)->0
    } else {
        seq![]
    }));
    let std = b64_encode(B64Engine::Standard, bytes.as_slice());
    wrap_lines76(std.as_str())
}

/// Standard base64 of `text`'s UTF-8 bytes, wrapped at 76 characters.
fn b64_std_wrapped(text: &str) -> (r: String)
    requires
        byte_len_ok(text@),
    ensures
        r@ == wrap76(b64_std(text@)),
{
    let e = b64_encode(B64Engine::Standard, text.as_bytes());
    wrap_lines76(e.as_str())
}

// ---------------------------------------------------------------
// Outgoing messages

/// The raw text of a plain-text message.
pub open spec fn spec_plain_raw(to: Seq<char>, subject: Seq<char>, body: Seq<char>) -> Seq<char> {
    "To: "@ + to + "\r\nSubject: "@ + subject + "\r\nContent-Type: text/plain; charset=UTF-8\r\n\r\n"@
        + body
}

/// The raw text of an HTML message.
pub open spec fn spec_html_raw(to: Seq<char>, subject: Seq<char>, html: Seq<char>) -> Seq<char> {
    "To: "@ + to + "\r\nSubject: "@ + subject
        + "\r\nMIME-Version: 1.0\r\nContent-Type: text/html; charset=UTF-8\r\n\r\n"@ + html
}

pub fn plain_email_raw(to: &str, subject: &str, body: &str) -> (r: String)
    ensures
        r@ == spec_plain_raw(to@, subject@, body@),
{
    let mut r = String::from_str("To: ");
    r.append(to);
    r.append("\r\nSubject: ");
    r.append(subject);
    r.append("\r\nContent-Type: text/plain; charset=UTF-8\r\n\r\n");
    r.append(body);
    r
}

pub fn html_email_raw(to: &str, subject: &str, html: &str) -> (r: String)
    ensures
        r@ == spec_html_raw(to@, subject@, html@),
{
    let mut r = String::from_str("To: ");
    r.append(to);
    r.append("\r\nSubject: ");
    r.append(subject);
    r.append("\r\nMIME-Version: 1.0\r\nContent-Type: text/html; charset=UTF-8\r\n\r\n");
    r.append(html);
    r
}

/// The `raw` field Gmail's send call takes: URL-safe base64 without padding
/// of the message's UTF-8 bytes.
pub fn encode_message(raw: &str) -> (r: String)
    requires
        byte_len_ok(raw@),
    ensures
        r@ == codec::spec_b64_encode(true, false, vstd::utf8::encode_utf8(raw@)),
{
    b64_encode(B64Engine::UrlSafeNoPad, raw.as_bytes())
}

// ---------------------------------------------------------------
// Forwarding

/// The subject of a forward: unchanged where it already starts with
/// `Fwd:`, else prefixed with `Fwd: `.
pub open spec fn spec_forward_subject(subject: Seq<char>) -> Seq<char> {
    if crate::text::is_prefix("Fwd:"@, subject) {
        subject
    } else {
        "Fwd: "@ + subject
    }
}

pub fn forward_subject(subject: &str) -> (r: String)
    ensures
        r@ == spec_forward_subject(subject@),
{
    if str_starts_with(subject, "Fwd:") {
        String::from_str(subject)
    } else {
        let mut r = String::from_str("Fwd: ");
        r.append(subject);
        r
    }
}

/// Forwarding a forward does not stack prefixes: the subject of a forward
/// of a forward is the subject of the first forward.
pub proof fn law_forward_subject_idempotent(subject: Seq<char>)
    ensures
        spec_forward_subject(spec_forward_subject(subject)) == spec_forward_subject(subject),
{
    reveal_strlit("Fwd:");
    reveal_strlit("Fwd: ");
    let f = spec_forward_subject(subject);
    if !crate::text::is_prefix("Fwd:"@, subject) {
        assert(f.subrange(0, 4) =~= "Fwd:"@);
    }
}

/// The block that introduces a forwarded message.
pub open spec fn spec_forward_header(
    from: Seq<char>,
    date: Seq<char>,
    subject: Seq<char>,
    to: Seq<char>,
) -> Seq<char> {
    "<div style=\"margin-bottom:16px\">---------- Forwarded message ----------<br>From: "@ + from
        + "<br>Date: "@ + date + "<br>Subject: "@ + subject + "<br>To: "@ + to + "</div>"@
}

/// The HTML body of a forward of `p`: the introduction followed by the
/// original HTML body, or by the readable body in a `<pre>` block where
/// there is no HTML body.
pub open spec fn spec_forward_html(p: Payload) -> Seq<char> {
    let head = spec_forward_header(
        header_lookup(p.headers@, "From"@),
        header_lookup(p.headers@, "Date"@),
        header_lookup(p.headers@, "Subject"@),
        header_lookup(p.headers@, "To"@),
    );
    match find_body(p, "text/html"@) {
        Some(h) => head + h,
        None => head + "<pre style=\"white-space:pre-wrap\">"@ + spec_extract_body(p)
            + "</pre>"@,
    }
}

/// What a forward takes from the original message.
#[derive(Debug)]
pub struct ForwardPlan {
    pub subject: String,
    pub html_body: String,
    pub attachments: Vec<AttachmentInfo>,
}

/// The subject, HTML body and attachment list of a forward of `p`.
pub fn plan_forward(p: &Payload) -> (r: ForwardPlan)
    ensures
        r.subject@ == spec_forward_subject(header_lookup(p.headers@, "Subject"@)),
        r.html_body@ == spec_forward_html(*p),
        info_views(r.attachments@) == spec_attachments(*p),
{
    let subject = header_value(&p.headers, "Subject");
    let from = header_value(&p.headers, "From");
    let date = header_value(&p.headers, "Date");
    let orig_to = header_value(&p.headers, "To");
    let fwd_subject = forward_subject(subject.as_str());
    let body_html = match extract_body_raw_html(p) {
        Some(h) => h,
        None => String::new(),
    };
    proof {
        lemma_find_body_nonempty(*p, "text/html"@);
    }
    let mut html = String::from_str(
        "<div style=\"margin-bottom:16px\">---------- Forwarded message ----------<br>From: ",
    );
    html.append(from.as_str());
    html.append("<br>Date: ");
    html.append(date.as_str());
    html.append("<br>Subject: ");
    html.append(subject.as_str());
    html.append("<br>To: ");
    html.append(orig_to.as_str());
    html.append("</div>");
    let hv = chars_of(body_html.as_str());
    if hv.len() > 0 {
        html.append(body_html.as_str());
    } else {
        let plain = extract_body(p);
        html.append("<pre style=\"white-space:pre-wrap\">");
        html.append(plain.as_str());
        html.append("</pre>");
    }
    let mut attachments: Vec<AttachmentInfo> = Vec::new();
    collect_attachment_infos(p, &mut attachments);
    assert(info_views(Seq::<AttachmentInfo>::empty()) =~= Seq::empty());
    assert(info_views(attachments@) =~= spec_attachments(*p));
    ForwardPlan { subject: fwd_subject, html_body: html, attachments }
}

/// An attachment with its data, as Gmail gives it (URL-safe base64).
#[derive(Debug)]
pub struct Attachment {
    pub filename: String,
    pub mime_type: String,
    pub data_b64: String,
}

pub open spec fn att_view(a: Attachment) -> (Seq<char>, Seq<char>, Seq<char>) {
    (a.filename@, a.mime_type@, a.data_b64@)
}

/// The attachments whose data is not empty.
pub open spec fn kept_attachments(v: Seq<Attachment>) -> Seq<(Seq<char>, Seq<char>, Seq<char>)>
    decreases v.len(),
{
    if v.len() == 0 {
        seq![]
    } else {
        kept_attachments(v.drop_last()) + (if v.last().data_b64@.len() > 0 {
            seq![att_view(v.last())]
        } else {
            seq![]
        })
    }
}

/// One attachment part of a multipart message.
pub open spec fn spec_attachment_part(
    boundary: Seq<char>,
    a: (Seq<char>, Seq<char>, Seq<char>),
) -> Seq<char> {
    "--"@ + boundary + "\r\nContent-Type: "@ + a.1 + "; name=\""@ + a.0
        + "\"\r\nContent-Transfer-Encoding: base64\r\nContent-Disposition: attachment; filename=\""@
        + a.0 + "\"\r\n\r\n"@ + spec_to_standard_b64_wrapped(a.2) + "\r\n"@
}

pub open spec fn spec_attachment_parts(
    boundary: Seq<char>,
    atts: Seq<(Seq<char>, Seq<char>, Seq<char>)>,
) -> Seq<char>
    decreases atts.len(),
{
    if atts.len() == 0 {
        seq![]
    } else {
        spec_attachment_parts(boundary, atts.drop_last()) + spec_attachment_part(
            boundary,
            atts.last(),
        )
    }
}

/// The raw text of a forward: a single base64 HTML part where no attachment
/// has data, else a `multipart/mixed` message with the HTML part first and
/// one part per attachment with data, closed by the boundary.
pub open spec fn spec_forward_raw(
    to: Seq<char>,
    subject: Seq<char>,
    html: Seq<char>,
    atts: Seq<Attachment>,
    boundary: Seq<char>,
) -> Seq<char> {
    let kept = kept_attachments(atts);
    if kept.len() == 0 {
        "To: "@ + to + "\r\nSubject: "@ + subject
            + "\r\nMIME-Version: 1.0\r\nContent-Type: text/html; charset=UTF-8\r\nContent-Transfer-Encoding: base64\r\n\r\n"@
            + wrap76(b64_std(html))
    } else {
        "To: "@ + to + "\r\nSubject: "@ + subject
            + "\r\nMIME-Version: 1.0\r\nContent-Type: multipart/mixed; boundary=\""@ + boundary
            + "\"\r\n\r\n--"@ + boundary
            + "\r\nContent-Type: text/html; charset=UTF-8\r\nContent-Transfer-Encoding: base64\r\n\r\n"@
            + wrap76(b64_std(html)) + "\r\n"@ + spec_attachment_parts(boundary, kept) + "--"@
            + boundary + "--"@
    }
}

/// An attachment has data.
pub open spec fn has_data() -> spec_fn(Attachment) -> bool {
    |a: Attachment| a.data_b64@.len() > 0
}

/// The MIME part of an attachment: its name and type, and its data
/// re-encoded as wrapped standard base64.
pub open spec fn mime_part(boundary: Seq<char>) -> spec_fn(Attachment) -> Seq<char> {
    |a: Attachment|
        "--"@ + boundary + "\r\nContent-Type: "@ + a.mime_type@ + "; name=\""@ + a.filename@
            + "\"\r\nContent-Transfer-Encoding: base64\r\nContent-Disposition: attachment; filename=\""@
            + a.filename@ + "\"\r\n\r\n"@ + spec_to_standard_b64_wrapped(a.data_b64@) + "\r\n"@
}

proof fn lemma_parts_of_kept(boundary: Seq<char>, v: Seq<Attachment>)
    ensures
        kept_attachments(v).len() == v.filter(has_data()).len(),
        spec_attachment_parts(boundary, kept_attachments(v)) == v.filter(has_data()).map_values(
            mime_part(boundary),
        ).flatten(),
    decreases v.len(),
{
    reveal(Seq::filter);
    if v.len() > 0 {
        let d = v.drop_last();
        let a = v.last();
        lemma_parts_of_kept(boundary, d);
        let kd = kept_attachments(d);
        let fd = d.filter(has_data());
        if a.data_b64@.len() > 0 {
            let k = kept_attachments(v);
            assert(k == kd + seq![att_view(a)]);
            assert(k.drop_last() =~= kd);
            assert(k.last() == att_view(a));
            assert(spec_attachment_parts(boundary, k) == spec_attachment_parts(boundary, kd)
                + spec_attachment_part(boundary, att_view(a)));
            assert(spec_attachment_part(boundary, att_view(a)) == mime_part(boundary)(a));
            assert(v.filter(has_data()) == fd.push(a));
            assert(fd.push(a).map_values(mime_part(boundary)) =~= fd.map_values(mime_part(boundary)).push(
                mime_part(boundary)(a),
            ));
            fd.map_values(mime_part(boundary)).lemma_flatten_push(mime_part(boundary)(a));
        } else {
            assert(kept_attachments(v) =~= kd);
            assert(v.filter(has_data()) == fd);
        }
    }
}

/// A forward holds one attachment part for each attachment with data, in
/// their order, and no other: with none it is a single HTML part; else a
/// `multipart/mixed` message with the HTML part, then those attachment
/// parts one after another, then the closing boundary.
pub proof fn law_forward_one_part_per_attachment(
    to: Seq<char>,
    subject: Seq<char>,
    html: Seq<char>,
    atts: Seq<Attachment>,
    boundary: Seq<char>,
)
    ensures
        ({
            let with_data = atts.filter(has_data());
            let raw = spec_forward_raw(to, subject, html, atts, boundary);
            let body = wrap76(b64_std(html));
            &&& with_data.len() == 0 ==> raw == "To: "@ + to + "\r\nSubject: "@ + subject
                + "\r\nMIME-Version: 1.0\r\nContent-Type: text/html; charset=UTF-8\r\nContent-Transfer-Encoding: base64\r\n\r\n"@
                + body
            &&& with_data.len() > 0 ==> raw == "To: "@ + to + "\r\nSubject: "@ + subject
                + "\r\nMIME-Version: 1.0\r\nContent-Type: multipart/mixed; boundary=\""@
                + boundary + "\"\r\n\r\n--"@ + boundary
                + "\r\nContent-Type: text/html; charset=UTF-8\r\nContent-Transfer-Encoding: base64\r\n\r\n"@
                + body + "\r\n"@ + with_data.map_values(mime_part(boundary)).flatten() + "--"@
                + boundary + "--"@
        }),
{
    lemma_parts_of_kept(boundary, atts);
}

/// The multipart boundary for a forward made at `secs` seconds and `nanos`
/// nanoseconds past the epoch.
pub open spec fn spec_boundary(secs: u64, nanos: u32) -> Seq<char> {
    "fwd_boundary_"@ + codec::spec_hex(secs as nat) + codec::spec_hex(nanos as nat)
}

/// The time-derived id used in boundaries: seconds then nanoseconds, in
/// lower-case hexadecimal.
pub fn uuid_hex(secs: u64, nanos: u32) -> (r: String)
    ensures
        r@ == codec::spec_hex(secs as nat) + codec::spec_hex(nanos as nat),
{
    let mut r = hex_lower(secs);
    let n = hex_lower(nanos as u64);
    r.append(n.as_str());
    r
}

pub fn forward_boundary(secs: u64, nanos: u32) -> (r: String)
    ensures
        r@ == spec_boundary(secs, nanos),
{
    let mut r = String::from_str("fwd_boundary_");
    let h = uuid_hex(secs, nanos);
    r.append(h.as_str());
    r
}

/// The raw text of a forward to `to` (see `spec_forward_raw`).
#[verifier::rlimit(40)]
pub fn forward_raw(
    to: &str,
    subject: &str,
    html: &str,
    atts: &Vec<Attachment>,
    boundary: &str,
) -> (r: String)
    requires
        byte_len_ok(html@),
        forall|i: int| 0 <= i < atts@.len() ==> byte_len_ok(#[trigger] atts@[i].data_b64@),
    ensures
        r@ == spec_forward_raw(to@, subject@, html@, atts@, boundary@),
{
    let mut kept: Vec<usize> = Vec::new();
    let mut i: usize = 0;
    let mut parts = String::new();
    assert(atts@.take(0) =~= Seq::<Attachment>::empty());
    while i < atts.len()
        invariant
            i <= atts@.len(),
            forall|j: int| 0 <= j < atts@.len() ==> byte_len_ok(#[trigger] atts@[j].data_b64@),
            kept@.len() == kept_attachments(atts@.take(i as int)).len(),
            parts@ == spec_attachment_parts(boundary@, kept_attachments(atts@.take(i as int))),
        decreases atts@.len() - i,
    {
        let a = &atts[i];
        assert(atts@.take(i + 1).drop_last() =~= atts@.take(i as int));
        assert(atts@.take(i + 1).last() == atts@[i as int]);
        let dv = chars_of(a.data_b64.as_str());
        if dv.len() > 0 {
            let ghost k0 = kept_attachments(atts@.take(i as int));
            let ghost p0 = parts@;
            parts.append("--");
            parts.append(boundary);
            parts.append("\r\nContent-Type: ");
            parts.append(a.mime_type.as_str());
            parts.append("; name=\"");
            parts.append(a.filename.as_str());
            parts.append(
                "\"\r\nContent-Transfer-Encoding: base64\r\nContent-Disposition: attachment; filename=\"",
            );
            parts.append(a.filename.as_str());
            parts.append("\"\r\n\r\n");
            let std = to_standard_b64_wrapped(a.data_b64.as_str());
            parts.append(std.as_str());
            parts.append("\r\n");
            kept.push(i);
            let ghost k1 = kept_attachments(atts@.take(i + 1));
            assert(k1 =~= k0 + seq![att_view(atts@[i as int])]);
            assert(k1.drop_last() =~= k0);
            assert(parts@ =~= p0 + spec_attachment_part(boundary@, att_view(atts@[i as int])));
        } else {
            assert(kept_attachments(atts@.take(i + 1)) =~= kept_attachments(atts@.take(i as int)));
        }
        i = i + 1;
    }
    assert(atts@.take(atts@.len() as int) =~= atts@);
    let wrapped = b64_std_wrapped(html);
    let mut r = String::from_str("To: ");
    r.append(to);
    r.append("\r\nSubject: ");
    r.append(subject);
    if kept.len() == 0 {
        r.append(
            "\r\nMIME-Version: 1.0\r\nContent-Type: text/html; charset=UTF-8\r\nContent-Transfer-Encoding: base64\r\n\r\n",
        );
        r.append(wrapped.as_str());
    } else {
        r.append("\r\nMIME-Version: 1.0\r\nContent-Type: multipart/mixed; boundary=\"");
        r.append(boundary);
        r.append("\"\r\n\r\n--");
        r.append(boundary);
        r.append(
            "\r\nContent-Type: text/html; charset=UTF-8\r\nContent-Transfer-Encoding: base64\r\n\r\n",
        );
        r.append(wrapped.as_str());
        r.append("\r\n");
        r.append(parts.as_str());
        r.append("--");
        r.append(boundary);
        r.append("--");
    }
    r
}

// ---------------------------------------------------------------
// Requests

pub open spec fn base_url() -> Seq<char> {
    "https://www.googleapis.com/gmail/v1/users/me"@
}

/// The `Authorization` header value for an access token.
pub fn auth_header(token: &str) -> (r: String)
    ensures
        r@ == "Bearer "@ + token@,
{
    let mut r = String::from_str("Bearer ");
    r.append(token);
    r
}

/// The inbox listing request for at most `max_results` messages.
pub fn inbox_url(max_results: u32) -> (r: String)
    ensures
        r@ == base_url() + "/messages?labelIds=INBOX&maxResults="@ + codec::spec_decimal(
            max_results as nat,
        ),
{
    let mut r = String::from_str("https://www.googleapis.com/gmail/v1/users/me");
    r.append("/messages?labelIds=INBOX&maxResults=");
    let d = decimal(max_results as u64);
    r.append(d.as_str());
    r
}

/// The search request for `query` (percent-encoded), at most `max_results`
/// messages.
pub fn search_url(query: &str, max_results: u32) -> (r: String)
    ensures
        r@ == base_url() + "/messages?q="@ + codec::spec_url_encode(
            vstd::utf8::encode_utf8(query@),
        ) + "&maxResults="@ + codec::spec_decimal(max_results as nat),
{
    let mut r = String::from_str("https://www.googleapis.com/gmail/v1/users/me");
    r.append("/messages?q=");
    let q = url_encode(query);
    r.append(q.as_str());
    r.append("&maxResults=");
    let d = decimal(max_results as u64);
    r.append(d.as_str());
    r
}

/// The request for a message's From, Subject and Date headers and snippet.
pub fn metadata_url(id: &str) -> (r: String)
    ensures
        r@ == base_url() + "/messages/"@ + id@
            + "?format=metadata&metadataHeaders=From&metadataHeaders=Subject&metadataHeaders=Date"@,
{
    let mut r = String::from_str("https://www.googleapis.com/gmail/v1/users/me");
    r.append("/messages/");
    r.append(id);
    r.append(
        "?format=metadata&metadataHeaders=From&metadataHeaders=Subject&metadataHeaders=Date",
    );
    r
}

/// The request for a whole message.
pub fn full_message_url(id: &str) -> (r: String)
    ensures
        r@ == base_url() + "/messages/"@ + id@ + "?format=full"@,
{
    let mut r = String::from_str("https://www.googleapis.com/gmail/v1/users/me");
    r.append("/messages/");
    r.append(id);
    r.append("?format=full");
    r
}

/// The request for one attachment's data.
pub fn attachment_url(msg_id: &str, attachment_id: &str) -> (r: String)
    ensures
        r@ == base_url() + "/messages/"@ + msg_id@ + "/attachments/"@ + attachment_id@,
{
    let mut r = String::from_str("https://www.googleapis.com/gmail/v1/users/me");
    r.append("/messages/");
    r.append(msg_id);
    r.append("/attachments/");
    r.append(attachment_id);
    r
}

/// The send request.
pub fn send_url() -> (r: String)
    ensures
        r@ == base_url() + "/messages/send"@,
{
    let mut r = String::from_str("https://www.googleapis.com/gmail/v1/users/me");
    r.append("/messages/send");
    r
}

/// The label listing request.
pub fn labels_url() -> (r: String)
    ensures
        r@ == base_url() + "/labels"@,
{
    let mut r = String::from_str("https://www.googleapis.com/gmail/v1/users/me");
    r.append("/labels");
    r
}

pub open spec fn present_names(v: Seq<Option<String>>) -> Seq<Seq<char>>
    decreases v.len(),
{
    if v.len() == 0 {
        seq![]
    } else {
        present_names(v.drop_last()) + match v.last() {
            Some(s) => seq![s@],
            None => seq![],
        }
    }
}

/// The label names, skipping labels whose name is missing or not a string.
pub fn label_names(names: Vec<Option<String>>) -> (r: Vec<String>)
    ensures
        crate::text::string_views(r@) == present_names(names@),
{
    let mut r: Vec<String> = Vec::new();
    let mut i: usize = 0;
    let n: usize = names.len();
    assert(names@.take(0) =~= Seq::<Option<String>>::empty());
    while i < n
        invariant
            i <= n == names@.len(),
            crate::text::string_views(r@) == present_names(names@.take(i as int)),
        decreases n - i,
    {
        assert(names@.take(i + 1).drop_last() =~= names@.take(i as int));
        assert(names@.take(i + 1).last() == names@[i as int]);
        let ghost r0 = r@;
        match &names[i] {
            Some(s) => {
                r.push(s.clone());
                assert(crate::text::string_views(r@) =~= crate::text::string_views(r0) + seq![s@]);
            },
            None => {
                assert(present_names(names@.take(i + 1)) =~= present_names(names@.take(i as int)));
            },
        }
        i = i + 1;
    }
    assert(names@.take(n as int) =~= names@);
    r
}

} // verus!
