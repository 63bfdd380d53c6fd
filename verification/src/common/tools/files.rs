//! Workspace file tools: whether a path lies inside the workspace, the
//! order a directory's entries are visited in, and the reports of reads,
//! writes and listings.
use vstd::prelude::*;
use crate::codec;
use crate::text;
use crate::text::{chars_of, vec_eq};

verus! {

// ---------------------------------------------------------------
// Path components

/// A piece between separators as a component: none for an empty piece or
/// `.`, else the piece itself.
pub open spec fn keep_segment(c: Seq<char>) -> Seq<Seq<char>> {
    if c.len() == 0 || c == "."@ {
        seq![]
    } else {
        seq![c]
    }
}

/// The components of `s`, read after `cur` was read as the start of the
/// current piece: its pieces between `/`, without empty pieces and `.`.
pub open spec fn segments_from(s: Seq<char>, cur: Seq<char>) -> Seq<Seq<char>>
    decreases s.len(),
{
    if s.len() == 0 {
        keep_segment(cur)
    } else if s[0] == '/' {
        keep_segment(cur) + segments_from(s.drop_first(), seq![])
    } else {
        segments_from(s.drop_first(), cur.push(s[0]))
    }
}

/// The component a path starts with: the root `/` for an absolute path, `.`
/// for a relative one written `.` or `./...`.
pub open spec fn path_head(s: Seq<char>) -> Seq<Seq<char>> {
    if s.len() > 0 && s[0] == '/' {
        seq!["/"@]
    } else if s == "."@ || text::is_prefix("./"@, s) {
        seq!["."@]
    } else {
        seq![]
    }
}

/// `Path::components` on Unix, each component as text: the root or a
/// leading `.`, then the non-empty pieces between separators other than
/// `.` (`..` is kept).
pub open spec fn path_components(s: Seq<char>) -> Seq<Seq<char>> {
    path_head(s) + segments_from(s, seq![])
}

/// `Path::starts_with`: the components of `base` begin those of `p`.
pub open spec fn spec_path_starts_with(p: Seq<char>, base: Seq<char>) -> bool {
    let a = path_components(p);
    let b = path_components(base);
    b.len() <= a.len() && a.take(b.len() as int) == b
}

fn keep_into(out: &mut Vec<Vec<char>>, cur: Vec<char>)
    ensures
        text::views(final(out)@) == text::views(old(out)@) + keep_segment(cur@),
{
    let dot = chars_of(".");
    proof {
        reveal_strlit(".");
    }
    let ghost o = out@;
    if cur.len() == 0 || vec_eq(&cur, &dot) {
        assert(text::views(out@) =~= text::views(o) + Seq::<Seq<char>>::empty());
    } else {
        let ghost c = cur@;
        out.push(cur);
        assert(text::views(out@) =~= text::views(o) + seq![c]);
    }
}

/// The components of `s` (see `path_components`).
pub fn components(s: &str) -> (r: Vec<Vec<char>>)
    ensures
        text::views(r@) == path_components(s@),
{
    let v = chars_of(s);
    let n: usize = v.len();
    let mut out: Vec<Vec<char>> = Vec::new();
    proof {
        reveal_strlit("/");
        reveal_strlit(".");
        reveal_strlit("./");
    }
    if n > 0 && v[0] == '/' {
        out.push(chars_of("/"));
    } else if (n == 1 && v[0] == '.') || (n >= 2 && v[0] == '.' && v[1] == '/') {
        out.push(chars_of("."));
        assert(v@ == "."@ || text::is_prefix("./"@, v@)) by {
            if n == 1 {
                assert(v@ =~= "."@);
            } else {
                assert(v@.subrange(0, 2) =~= "./"@);
            }
        }
    } else {
        assert(!(v@ == "."@)) by {
            if v@ == "."@ {
                assert(v@[0] == '.');
            }
        }
        assert(!text::is_prefix("./"@, v@)) by {
            if text::is_prefix("./"@, v@) {
                assert(v@.subrange(0, 2)[0] == '.');
                assert(v@.subrange(0, 2)[1] == '/');
            }
        }
    }
    assert(text::views(out@) =~= path_head(s@));
    let ghost head = text::views(out@);
    let mut cur: Vec<char> = Vec::new();
    let mut i: usize = 0;
    assert(v@.skip(0) =~= v@);
    assert(cur@ =~= Seq::<char>::empty());
    while i < n
        invariant
            i <= n == v@.len(),
            v@ == s@,
            text::views(out@) + segments_from(v@.skip(i as int), cur@) == head + segments_from(
                v@,
                seq![],
            ),
        decreases n - i,
    {
        let ghost rest = v@.skip(i as int);
        assert(rest[0] == v@[i as int]);
        assert(rest.drop_first() =~= v@.skip(i + 1));
        let c = v[i];
        if c == '/' {
            let ghost o = text::views(out@);
            let ghost cv = cur@;
            keep_into(&mut out, cur);
            cur = Vec::new();
            assert(cur@ =~= Seq::<char>::empty());
            assert(text::views(out@) + segments_from(v@.skip(i + 1), cur@) =~= o + (keep_segment(
                cv,
            ) + segments_from(v@.skip(i + 1), seq![])));
        } else {
            cur.push(c);
        }
        i = i + 1;
    }
    assert(v@.skip(n as int) =~= Seq::<char>::empty());
    keep_into(&mut out, cur);
    out
}

/// Whether `p` lies under `base` component by component (`Path::starts_with`):
/// the check a workspace path must pass.
pub fn path_starts_with(p: &str, base: &str) -> (r: bool)
    ensures
        r == spec_path_starts_with(p@, base@),
{
    let a = components(p);
    let b = components(base);
    assert(text::views(a@).len() == a@.len());
    assert(text::views(b@).len() == b@.len());
    if b.len() > a.len() {
        return false;
    }
    let ghost av = text::views(a@);
    let ghost bv = text::views(b@);
    let mut i: usize = 0;
    while i < b.len()
        invariant
            i <= b@.len() <= a@.len(),
            av == text::views(a@),
            bv == text::views(b@),
            av == path_components(p@),
            bv == path_components(base@),
            forall|j: int| 0 <= j < i ==> av[j] == bv[j],
        decreases b@.len() - i,
    {
        assert(av[i as int] == a@[i as int]@);
        assert(bv[i as int] == b@[i as int]@);
        if !vec_eq(&a[i], &b[i]) {
            assert(av.take(bv.len() as int)[i as int] != bv[i as int]);
            return false;
        }
        i = i + 1;
    }
    assert(av.take(bv.len() as int) =~= bv);
    true
}

/// A path always lies under itself.
pub proof fn law_path_starts_with_itself(p: Seq<char>)
    ensures
        spec_path_starts_with(p, p),
{
    assert(path_components(p).take(path_components(p).len() as int) =~= path_components(p));
}

/// Lying under is transitive: a path under `mid`, itself under `base`, lies
/// under `base`.
pub proof fn law_path_starts_with_trans(p: Seq<char>, mid: Seq<char>, base: Seq<char>)
    requires
        spec_path_starts_with(p, mid),
        spec_path_starts_with(mid, base),
    ensures
        spec_path_starts_with(p, base),
{
    let a = path_components(p);
    let m = path_components(mid);
    let b = path_components(base);
    assert forall|j: int| 0 <= j < b.len() implies a.take(b.len() as int)[j] == b[j] by {
        assert(a.take(m.len() as int)[j] == m[j]);
        assert(m.take(b.len() as int)[j] == b[j]);
    }
    assert(a.take(b.len() as int) =~= b);
}

// ---------------------------------------------------------------
// Resolving a path inside the workspace

/// One step of lexical resolution: the root starts over, `.` stays, `..`
/// drops the last ordinary component (not the root; kept where nothing can
/// be dropped), and any other component is appended.
pub open spec fn resolve_step(stack: Seq<Seq<char>>, c: Seq<char>) -> Seq<Seq<char>> {
    if c == "/"@ {
        seq!["/"@]
    } else if c == "."@ {
        stack
    } else if c == ".."@ {
        if stack.len() > 0 && stack.last() == "/"@ {
            stack
        } else if stack.len() > 0 && stack.last() != "."@ && stack.last() != ".."@ {
            stack.drop_last()
        } else {
            stack.push(c)
        }
    } else {
        stack.push(c)
    }
}

pub open spec fn resolve_steps(stack: Seq<Seq<char>>, comps: Seq<Seq<char>>) -> Seq<Seq<char>>
    decreases comps.len(),
{
    if comps.len() == 0 {
        stack
    } else {
        resolve_steps(resolve_step(stack, comps[0]), comps.drop_first())
    }
}

/// The components of `rel` joined onto `base` (`Path::join`: an absolute
/// `rel` replaces `base`), with `.` and `..` resolved lexically.
pub open spec fn spec_resolved(base: Seq<char>, rel: Seq<char>) -> Seq<Seq<char>> {
    resolve_steps(path_components(base), path_components(rel))
}

/// Each component behind a `/`.
pub open spec fn render_tail(cs: Seq<Seq<char>>) -> Seq<char>
    decreases cs.len(),
{
    if cs.len() == 0 {
        seq![]
    } else {
        "/"@ + cs[0] + render_tail(cs.drop_first())
    }
}

/// A path written from its components.
pub open spec fn render(stack: Seq<Seq<char>>) -> Seq<char> {
    if stack.len() == 0 {
        seq![]
    } else if stack[0] == "/"@ {
        if stack.len() == 1 {
            "/"@
        } else {
            render_tail(stack.drop_first())
        }
    } else {
        stack[0] + render_tail(stack.drop_first())
    }
}

pub open spec fn is_prefix_of(b: Seq<Seq<char>>, a: Seq<Seq<char>>) -> bool {
    b.len() <= a.len() && a.take(b.len() as int) == b
}

pub open spec fn has_slash(c: Seq<char>) -> bool {
    exists|i: int| 0 <= i < c.len() && c[i] == '/'
}

/// An ordinary component: not empty, not `.`, without `/`.
pub open spec fn seg_ok(c: Seq<char>) -> bool {
    c.len() > 0 && c != "."@ && !has_slash(c)
}

/// An absolute component list: the root, then ordinary components.
pub open spec fn abs_stack(stack: Seq<Seq<char>>) -> bool {
    stack.len() >= 1 && stack[0] == "/"@ && forall|i: int| 1 <= i < stack.len() ==> seg_ok(
        #[trigger] stack[i],
    )
}

proof fn lemma_segments_ok(s: Seq<char>, cur: Seq<char>)
    requires
        !has_slash(cur),
    ensures
        forall|k: int| 0 <= k < segments_from(s, cur).len() ==> seg_ok(
            #[trigger] segments_from(s, cur)[k],
        ),
    decreases s.len(),
{
    reveal_strlit(".");
    if s.len() == 0 {
        assert(segments_from(s, cur) == keep_segment(cur));
    } else if s[0] == '/' {
        lemma_segments_ok(s.drop_first(), seq![]);
        let rest = segments_from(s.drop_first(), seq![]);
        let k0 = keep_segment(cur);
        assert forall|k: int| 0 <= k < segments_from(s, cur).len() implies seg_ok(
            #[trigger] segments_from(s, cur)[k],
        ) by {
            if k < k0.len() {
                assert(segments_from(s, cur)[k] == cur);
            } else {
                assert(segments_from(s, cur)[k] == rest[k - k0.len()]);
            }
        }
    } else {
        let c = cur.push(s[0]);
        assert(!has_slash(c)) by {
            if has_slash(c) {
                let i = choose|i: int| 0 <= i < c.len() && c[i] == '/';
                if i < cur.len() {
                    assert(cur[i] == '/');
                }
            }
        }
        lemma_segments_ok(s.drop_first(), c);
        assert(segments_from(s, cur) == segments_from(s.drop_first(), c));
    }
}

proof fn lemma_components_ok(s: Seq<char>)
    ensures
        forall|k: int| 0 <= k < path_components(s).len() ==> (#[trigger] path_components(s)[k]
            == "/"@ || path_components(s)[k] == "."@ || seg_ok(path_components(s)[k])),
{
    lemma_segments_ok(s, seq![]);
    let h = path_head(s);
    let g = segments_from(s, seq![]);
    assert forall|k: int| 0 <= k < path_components(s).len() implies (#[trigger] path_components(
        s,
    )[k] == "/"@ || path_components(s)[k] == "."@ || seg_ok(path_components(s)[k])) by {
        if k >= h.len() {
            assert(path_components(s)[k] == g[k - h.len()]);
        }
    }
}

proof fn lemma_resolve_abs(stack: Seq<Seq<char>>, comps: Seq<Seq<char>>)
    requires
        abs_stack(stack),
        forall|k: int| 0 <= k < comps.len() ==> (#[trigger] comps[k] == "/"@ || comps[k] == "."@
            || seg_ok(comps[k])),
    ensures
        abs_stack(resolve_steps(stack, comps)),
    decreases comps.len(),
{
    if comps.len() > 0 {
        reveal_strlit("/");
        reveal_strlit(".");
        reveal_strlit("..");
        let c = comps[0];
        let s2 = resolve_step(stack, c);
        assert(c == "/"@ || c == "."@ || seg_ok(c));
        assert(abs_stack(s2)) by {
            if c == "/"@ {
                assert(s2 =~= seq!["/"@]);
            } else if c == "."@ {
            } else if c == ".."@ {
                if stack.last() == "/"@ {
                } else if stack.last() != "."@ && stack.last() != ".."@ {
                    assert(stack.len() > 1) by {
                        if stack.len() == 1 {
                            assert(stack.last() == stack[0]);
                        }
                    }
                    assert forall|i: int| 1 <= i < s2.len() implies seg_ok(#[trigger] s2[i]) by {
                        assert(s2[i] == stack[i]);
                    }
                } else {
                    assert forall|i: int| 1 <= i < s2.len() implies seg_ok(#[trigger] s2[i]) by {
                        if i < stack.len() {
                            assert(s2[i] == stack[i]);
                        }
                    }
                }
            } else {
                assert forall|i: int| 1 <= i < s2.len() implies seg_ok(#[trigger] s2[i]) by {
                    if i < stack.len() {
                        assert(s2[i] == stack[i]);
                    }
                }
            }
        }
        assert forall|k: int| 0 <= k < comps.drop_first().len() implies (#[trigger] comps.drop_first()[k]
            == "/"@ || comps.drop_first()[k] == "."@ || seg_ok(comps.drop_first()[k])) by {
            assert(comps.drop_first()[k] == comps[k + 1]);
        }
        lemma_resolve_abs(s2, comps.drop_first());
    }
}

proof fn lemma_segments_append(c: Seq<char>, t: Seq<char>, cur: Seq<char>)
    requires
        !has_slash(c),
    ensures
        segments_from(c + t, cur) == segments_from(t, cur + c),
    decreases c.len(),
{
    if c.len() == 0 {
        assert(c + t =~= t);
        assert(cur + c =~= cur);
    } else {
        assert((c + t)[0] == c[0]);
        assert(c[0] != '/');
        assert((c + t).drop_first() =~= c.drop_first() + t);
        assert(!has_slash(c.drop_first())) by {
            if has_slash(c.drop_first()) {
                let i = choose|i: int| 0 <= i < c.drop_first().len() && c.drop_first()[i] == '/';
                assert(c[i + 1] == '/');
            }
        }
        lemma_segments_append(c.drop_first(), t, cur.push(c[0]));
        assert(cur.push(c[0]) + c.drop_first() =~= cur + c);
    }
}

proof fn lemma_render_tail(cs: Seq<Seq<char>>, cur: Seq<char>)
    requires
        forall|i: int| 0 <= i < cs.len() ==> seg_ok(#[trigger] cs[i]),
    ensures
        segments_from(render_tail(cs), cur) == keep_segment(cur) + cs,
    decreases cs.len(),
{
    reveal_strlit("/");
    if cs.len() == 0 {
        assert(keep_segment(cur) + cs =~= keep_segment(cur));
    } else {
        let c = cs[0];
        let rest = cs.drop_first();
        let x = c + render_tail(rest);
        assert(render_tail(cs) =~= seq!['/'] + x);
        assert((seq!['/'] + x)[0] == '/');
        assert((seq!['/'] + x).drop_first() =~= x);
        assert(seg_ok(c));
        lemma_segments_append(c, render_tail(rest), seq![]);
        assert(Seq::<char>::empty() + c =~= c);
        assert forall|i: int| 0 <= i < rest.len() implies seg_ok(#[trigger] rest[i]) by {
            assert(rest[i] == cs[i + 1]);
        }
        lemma_render_tail(rest, c);
        assert(keep_segment(c) =~= seq![c]);
        assert(keep_segment(Seq::<char>::empty()) =~= Seq::<Seq<char>>::empty());
        assert(keep_segment(cur) + (Seq::<Seq<char>>::empty() + (seq![c] + rest)) =~= keep_segment(
            cur,
        ) + cs);
    }
}

/// An absolute component list, written out, reads back as itself.
proof fn lemma_render_abs(stack: Seq<Seq<char>>)
    requires
        abs_stack(stack),
    ensures
        path_components(render(stack)) == stack,
{
    reveal_strlit("/");
    let tail = stack.drop_first();
    let r = render(stack);
    if stack.len() == 1 {
        assert(r =~= seq!['/']);
        assert(r.drop_first() =~= Seq::<char>::empty());
        assert(segments_from(r, seq![]) == keep_segment(seq![]) + segments_from(
            r.drop_first(),
            seq![],
        ));
        assert(path_components(r) =~= stack);
    } else {
        assert forall|i: int| 0 <= i < tail.len() implies seg_ok(#[trigger] tail[i]) by {
            assert(tail[i] == stack[i + 1]);
        }
        lemma_render_tail(tail, seq![]);
        assert(r[0] == '/');
        assert(path_head(r) =~= seq!["/"@]);
        assert(keep_segment(Seq::<char>::empty()) =~= Seq::<Seq<char>>::empty());
        assert(path_components(r) =~= stack);
    }
}

fn lit(s: &str) -> (r: Vec<char>)
    ensures
        r@ == s@,
{
    chars_of(s)
}

fn copy_components(v: &Vec<Vec<char>>) -> (r: Vec<Vec<char>>)
    ensures
        text::views(r@) == text::views(v@),
{
    let mut r: Vec<Vec<char>> = Vec::new();
    let mut i: usize = 0;
    while i < v.len()
        invariant
            i <= v@.len(),
            text::views(r@) == text::views(v@).take(i as int),
        decreases v@.len() - i,
    {
        let c = text::slice_chars(&v[i], 0, v[i].len());
        assert(c@ =~= v@[i as int]@);
        let ghost r0 = r@;
        r.push(c);
        assert(text::views(r@) =~= text::views(r0).push(v@[i as int]@));
        assert(text::views(v@).take(i + 1) =~= text::views(v@).take(i as int).push(v@[i as int]@));
        i = i + 1;
    }
    assert(text::views(v@).take(v@.len() as int) =~= text::views(v@));
    r
}

/// The path of `rel` inside the workspace `base`, resolved lexically (see
/// `spec_resolved`), where it stays under `base`; `None` where it leaves it.
/// Under an absolute `base`, the path it gives has exactly the resolved
/// components, so it lies under `base`.
pub fn resolve_within(base: &str, rel: &str) -> (r: Option<String>)
    ensures
        match r {
            Some(p) => p@ == render(spec_resolved(base@, rel@)) && is_prefix_of(
                path_components(base@),
                spec_resolved(base@, rel@),
            ),
            None => !is_prefix_of(path_components(base@), spec_resolved(base@, rel@)),
        },
        base@.len() > 0 && base@[0] == '/' ==> (r matches Some(p) ==> path_components(p@)
            == spec_resolved(base@, rel@) && spec_path_starts_with(p@, base@)),
{
    let bc = components(base);
    let rc = components(rel);
    let slash = lit("/");
    let dot = lit(".");
    let dotdot = lit("..");
    proof {
        reveal_strlit("/");
        reveal_strlit(".");
        reveal_strlit("..");
    }
    let ghost rv = text::views(rc@);
    let ghost res = spec_resolved(base@, rel@);
    let mut stack = copy_components(&bc);
    let mut i: usize = 0;
    assert(rv.skip(0) =~= rv);
    while i < rc.len()
        invariant
            i <= rc@.len(),
            rv == text::views(rc@),
            rv == path_components(rel@),
            res == spec_resolved(base@, rel@),
            slash@ == "/"@,
            dot@ == "."@,
            dotdot@ == ".."@,
            resolve_steps(text::views(stack@), rv.skip(i as int)) == res,
        decreases rc@.len() - i,
    {
        let ghost sv = text::views(stack@);
        let ghost c = rv[i as int];
        assert(c == rc@[i as int]@);
        assert(rv.skip(i as int)[0] == c);
        assert(rv.skip(i as int).drop_first() =~= rv.skip(i + 1));
        let ci = &rc[i];
        if vec_eq(ci, &slash) {
            stack = Vec::new();
            stack.push(lit("/"));
            assert(text::views(stack@) =~= seq!["/"@]);
        } else if vec_eq(ci, &dot) {
        } else if vec_eq(ci, &dotdot) {
            let n = stack.len();
            if n > 0 && vec_eq(&stack[n - 1], &slash) {
                assert(sv.last() == stack@[n - 1]@);
            } else if n > 0 && !vec_eq(&stack[n - 1], &dot) && !vec_eq(&stack[n - 1], &dotdot) {
                assert(sv.last() == stack@[n - 1]@);
                stack.pop();
                assert(text::views(stack@) =~= sv.drop_last());
            } else {
                proof {
                    if n > 0 {
                        assert(sv.last() == stack@[n - 1]@);
                    }
                }
                stack.push(ci.clone());
                assert(text::views(stack@) =~= sv.push(c));
            }
        } else {
            stack.push(ci.clone());
            assert(text::views(stack@) =~= sv.push(c));
        }
        i = i + 1;
    }
    assert(rv.skip(rc@.len() as int) =~= Seq::<Seq<char>>::empty());
    let ghost sv = text::views(stack@);
    assert(sv == res);
    // the prefix check
    let ghost bv = text::views(bc@);
    assert(bv == path_components(base@));
    assert(sv.len() == stack@.len());
    assert(bv.len() == bc@.len());
    if bc.len() > stack.len() {
        return None;
    }
    let mut k: usize = 0;
    while k < bc.len()
        invariant
            k <= bc@.len() <= stack@.len(),
            bv == text::views(bc@),
            sv == text::views(stack@),
            sv == res,
            bv == path_components(base@),
            res == spec_resolved(base@, rel@),
            forall|j: int| 0 <= j < k ==> sv[j] == bv[j],
        decreases bc@.len() - k,
    {
        assert(sv[k as int] == stack@[k as int]@);
        assert(bv[k as int] == bc@[k as int]@);
        if !vec_eq(&stack[k], &bc[k]) {
            assert(sv.take(bv.len() as int)[k as int] != bv[k as int]);
            return None;
        }
        k = k + 1;
    }
    assert(sv.take(bv.len() as int) =~= bv);
    // writing the path out
    let mut out = String::new();
    let n = stack.len();
    let start: usize = if n > 0 && vec_eq(&stack[0], &slash) {
        1
    } else {
        0
    };
    let ghost lead: Seq<char> = if start == 0 && n > 0 {
        sv[0]
    } else {
        seq![]
    };
    if start == 0 && n > 0 {
        text::push_chars(&mut out, &stack[0]);
        assert(sv[0] == stack@[0]@);
    }
    let first: usize = if start == 0 && n > 0 {
        1
    } else {
        start
    };
    assert(out@ == lead);
    let mut j: usize = first;
    let ghost total = sv.skip(first as int);
    assert(out@ + render_tail(sv.skip(first as int)) == lead + render_tail(total));
    while j < n
        invariant
            first <= j <= n == stack@.len(),
            sv == text::views(stack@),
            total == sv.skip(first as int),
            out@ + render_tail(sv.skip(j as int)) == lead + render_tail(total),
        decreases n - j,
    {
        let ghost rest = sv.skip(j as int);
        assert(rest[0] == stack@[j as int]@);
        assert(rest.drop_first() =~= sv.skip(j + 1));
        let ghost o = out@;
        text::push_char(&mut out, '/');
        text::push_chars(&mut out, &stack[j]);
        proof {
            reveal_strlit("/");
        }
        assert("/"@ =~= seq!['/']);
        assert(out@ =~= o + seq!['/'] + rest[0]);
        assert(render_tail(rest) == "/"@ + rest[0] + render_tail(rest.drop_first()));
        assert(o + render_tail(rest) =~= out@ + render_tail(sv.skip(j + 1)));
        j = j + 1;
    }
    assert(sv.skip(n as int) =~= Seq::<Seq<char>>::empty());
    assert(out@ =~= lead + render_tail(total));
    if start == 1 && n == 1 {
        out = String::from_str("/");
        assert(out@ == render(sv));
    } else if start == 1 {
        assert(lead + render_tail(total) =~= render_tail(sv.drop_first()));
        assert(sv.skip(1) =~= sv.drop_first());
    } else if n > 0 {
        assert(sv.skip(1) =~= sv.drop_first());
        assert(sv[0] != "/"@);
    } else {
        assert(out@ =~= Seq::<char>::empty());
    }
    assert(out@ == render(sv));
    proof {
        if base@.len() > 0 && base@[0] == '/' {
            lemma_components_ok(rel@);
            assert(path_head(base@) =~= seq!["/"@]);
            lemma_segments_ok(base@, seq![]);
            assert(!has_slash(Seq::<char>::empty()));
            let b = path_components(base@);
            assert(abs_stack(b)) by {
                assert forall|q: int| 1 <= q < b.len() implies seg_ok(#[trigger] b[q]) by {
                    assert(b[q] == segments_from(base@, seq![])[q - 1]);
                }
            }
            lemma_resolve_abs(b, path_components(rel@));
            lemma_render_abs(res);
        }
    }
    Some(out)
}

/// What `resolve_within` gives.
pub open spec fn spec_resolve_within(base: Seq<char>, rel: Seq<char>) -> Option<Seq<char>> {
    if is_prefix_of(path_components(base), spec_resolved(base, rel)) {
        Some(render(spec_resolved(base, rel)))
    } else {
        None
    }
}

pub open spec fn opt_text(o: Option<String>) -> Option<Seq<char>> {
    match o {
        Some(s) => Some(s@),
        None => None,
    }
}

/// The path a file tool uses, once its path has resolved lexically inside
/// the workspace. `anchor` is the deepest part of that path that exists on
/// disk, resolved with links followed (`None` where it does not resolve, as
/// for a dangling link); `rest` is the part below it, which does not exist
/// yet and is created under `anchor`. The path is `rest` under `anchor` (as
/// `resolve_within` joins them), and only where `anchor` lies under `base`:
/// whatever links the existing part holds, what is created or written lies
/// under the workspace.
pub fn accept_workspace_path(base: &str, anchor: Option<String>, rest: &str) -> (r: Option<String>)
    ensures
        match anchor {
            None => r is None,
            Some(a) => if spec_path_starts_with(a@, base@) {
                opt_text(r) == spec_resolve_within(a@, rest@)
            } else {
                r is None
            },
        },
        anchor matches Some(a) && a@.len() > 0 && a@[0] == '/' ==> (r matches Some(p)
            ==> spec_path_starts_with(p@, base@)),
{
    match anchor {
        None => None,
        Some(a) => {
            if path_starts_with(a.as_str(), base) {
                let r = resolve_within(a.as_str(), rest);
                proof {
                    if a@.len() > 0 && a@[0] == '/' {
                        if r is Some {
                            law_path_starts_with_trans(r->0@, a@, base@);
                        }
                    }
                }
                r
            } else {
                None
            }
        },
    }
}

// ---------------------------------------------------------------
// Reports

/// The error for a path outside the workspace.
pub fn outside_workspace_message() -> (r: String)
    ensures
        r@ == "path outside workspace"@,
{
    String::from_str("path outside workspace")
}

/// The error for a listing of a path that does not exist.
pub fn not_found_message(rel: &str) -> (r: String)
    ensures
        r@ == "not found: "@ + rel@,
{
    let mut r = String::from_str("not found: ");
    r.append(rel);
    r
}

/// A line of a directory listing: the entry's path, with `/` after a
/// directory.
pub fn listing_entry(rel: &str, is_dir: bool) -> (r: String)
    ensures
        r@ == rel@ + (if is_dir {
            "/"@
        } else {
            seq![]
        }),
{
    let mut r = String::from_str(rel);
    if is_dir {
        r.append("/");
    } else {
        assert(r@ =~= rel@ + Seq::<char>::empty());
    }
    r
}

/// The report of a write: the content's length in bytes and the path as
/// given.
pub fn file_write_message(path: &str, content: &str) -> (r: String)
    ensures
        r@ == "wrote "@ + codec::spec_decimal(
            vstd::utf8::encode_utf8(content@).len() as usize as nat,
        ) + " chars to "@ + path@,
{
    let n: usize = content.len();
    let mut r = String::from_str("wrote ");
    let d = codec::decimal(n as u64);
    r.append(d.as_str());
    r.append(" chars to ");
    r.append(path);
    r
}

// ---------------------------------------------------------------
// Directory order

/// Byte-wise lexicographic order of names, the order of `OsStr` on Unix:
/// `a` comes no later than `b`.
pub open spec fn name_le(a: Seq<u8>, b: Seq<u8>) -> bool
    decreases a.len(),
{
    if a.len() == 0 {
        true
    } else if b.len() == 0 {
        false
    } else if a[0] != b[0] {
        a[0] < b[0]
    } else {
        name_le(a.drop_first(), b.drop_first())
    }
}

proof fn lemma_name_le_total(a: Seq<u8>, b: Seq<u8>)
    ensures
        name_le(a, b) || name_le(b, a),
    decreases a.len(),
{
    if a.len() > 0 && b.len() > 0 && a[0] == b[0] {
        lemma_name_le_total(a.drop_first(), b.drop_first());
    }
}

proof fn lemma_name_le_trans(a: Seq<u8>, b: Seq<u8>, c: Seq<u8>)
    requires
        name_le(a, b),
        name_le(b, c),
    ensures
        name_le(a, c),
    decreases a.len(),
{
    if a.len() > 0 && b.len() > 0 && c.len() > 0 && a[0] == b[0] && b[0] == c[0] {
        lemma_name_le_trans(a.drop_first(), b.drop_first(), c.drop_first());
    }
}

proof fn lemma_name_le_step(a: Seq<u8>, b: Seq<u8>, i: int)
    requires
        0 <= i < a.len(),
        i < b.len(),
        a[i] == b[i],
    ensures
        name_le(a.skip(i), b.skip(i)) == name_le(a.skip(i + 1), b.skip(i + 1)),
{
    assert(a.skip(i).drop_first() =~= a.skip(i + 1));
    assert(b.skip(i).drop_first() =~= b.skip(i + 1));
}

/// Compares two names byte by byte.
pub fn names_le(a: &Vec<u8>, b: &Vec<u8>) -> (r: bool)
    ensures
        r == name_le(a@, b@),
{
    let mut i: usize = 0;
    assert(a@.skip(0) =~= a@);
    assert(b@.skip(0) =~= b@);
    while i < a.len() && i < b.len() && a[i] == b[i]
        invariant
            i <= a@.len(),
            i <= b@.len(),
            name_le(a@, b@) == name_le(a@.skip(i as int), b@.skip(i as int)),
        decreases a@.len() - i,
    {
        proof {
            lemma_name_le_step(a@, b@, i as int);
        }
        i = i + 1;
    }
    if i == a.len() {
        true
    } else if i == b.len() {
        false
    } else {
        assert(a@.skip(i as int)[0] == a@[i as int]);
        assert(b@.skip(i as int)[0] == b@[i as int]);
        a[i] < b[i]
    }
}

/// The name of entry `k`.
pub open spec fn key_of(names: Seq<Vec<u8>>, k: usize) -> Seq<u8> {
    names[k as int]@
}

/// `order` visits entries of `names` in name order, each once, and entries
/// with equal names in the order they were given.
pub open spec fn is_name_order(names: Seq<Vec<u8>>, order: Seq<usize>) -> bool {
    &&& order.len() == names.len()
    &&& forall|p: int| 0 <= p < order.len() ==> #[trigger] order[p] < names.len()
    &&& forall|p: int, q: int| 0 <= p < q < order.len() ==> order[p] != order[q]
    &&& forall|p: int, q: int|
        0 <= p < q < order.len() ==> name_le(key_of(names, order[p]), key_of(names, order[q]))
    &&& forall|p: int, q: int|
        0 <= p < q < order.len() && key_of(names, order[p]) == key_of(names, order[q]) ==> order[p]
            < order[q]
}

/// The order in which a directory's entries are visited: the indices of
/// `names`, stably sorted by name.
pub fn name_order(names: &Vec<Vec<u8>>) -> (r: Vec<usize>)
    ensures
        is_name_order(names@, r@),
{
    let n: usize = names.len();
    let mut r: Vec<usize> = Vec::new();
    let mut i: usize = 0;
    while i < n
        invariant
            i <= n == names@.len(),
            r@.len() == i,
            forall|p: int| 0 <= p < r@.len() ==> #[trigger] r@[p] < i,
            forall|p: int, q: int| 0 <= p < q < r@.len() ==> r@[p] != r@[q],
            forall|p: int, q: int|
                0 <= p < q < r@.len() ==> name_le(key_of(names@, r@[p]), key_of(names@, r@[q])),
            forall|p: int, q: int|
                0 <= p < q < r@.len() && key_of(names@, r@[p]) == key_of(names@, r@[q]) ==> r@[p]
                    < r@[q],
        decreases n - i,
    {
        let ghost x = key_of(names@, i);
        let mut j: usize = 0;
        while j < r.len() && names_le(&names[r[j]], &names[i])
            invariant
                i < n == names@.len(),
                x == key_of(names@, i),
                j <= r@.len() == i,
                forall|p: int| 0 <= p < r@.len() ==> #[trigger] r@[p] < i,
                forall|p: int| 0 <= p < j ==> name_le(#[trigger] key_of(names@, r@[p]), x),
            decreases r@.len() - j,
        {
            j = j + 1;
        }
        let ghost s = r@;
        proof {
            if j < s.len() {
                lemma_name_le_total(key_of(names@, s[j as int]), x);
            }
        }
        r.insert(j, i);
        proof {
            let t = r@;
            assert(t == s.insert(j as int, i));
            assert forall|p: int| 0 <= p < t.len() implies #[trigger] t[p] < i + 1 by {
                if p > j {
                    assert(t[p] == s[p - 1]);
                }
            }
            assert forall|p: int, q: int| 0 <= p < q < t.len() implies t[p] != t[q] by {
                if p < j && q > j {
                    assert(t[p] == s[p]);
                    assert(t[q] == s[q - 1]);
                } else if q > j && p > j {
                    assert(t[p] == s[p - 1]);
                    assert(t[q] == s[q - 1]);
                } else if q > j {
                    assert(t[q] == s[q - 1]);
                } else if p == j {
                } else {
                    assert(t[p] == s[p]);
                }
            }
            assert forall|p: int, q: int| 0 <= p < q < t.len() implies name_le(
                key_of(names@, t[p]),
                key_of(names@, t[q]),
            ) by {
                if q < j {
                } else if q == j {
                    assert(t[p] == s[p]);
                } else if p < j {
                    assert(t[p] == s[p]);
                    assert(t[q] == s[q - 1]);
                } else if p == j {
                    assert(t[q] == s[q - 1]);
                    if q - 1 > j {
                        lemma_name_le_trans(
                            x,
                            key_of(names@, s[j as int]),
                            key_of(names@, s[q - 1]),
                        );
                    }
                } else {
                    assert(t[p] == s[p - 1]);
                    assert(t[q] == s[q - 1]);
                }
            }
            assert forall|p: int, q: int|
                0 <= p < q < t.len() && key_of(names@, t[p]) == key_of(names@, t[q]) implies t[p]
                < t[q] by {
                if q < j {
                } else if q == j {
                    assert(t[p] == s[p]);
                } else if p < j {
                    assert(t[p] == s[p]);
                    assert(t[q] == s[q - 1]);
                } else if p == j {
                    assert(t[q] == s[q - 1]);
                    if q - 1 > j {
                        assert(name_le(key_of(names@, s[j as int]), key_of(names@, s[q - 1])));
                    }
                    assert(name_le(key_of(names@, s[j as int]), x));
                    assert(false);
                } else {
                    assert(t[p] == s[p - 1]);
                    assert(t[q] == s[q - 1]);
                }
            }
        }
        i = i + 1;
    }
    r
}

} // verus!
