//! The workspace sandbox: which paths a tool may touch, and the text work of its file, search
//! and shell tools. The file system itself is reached by the caller, which hands in what it
//! found; every path this module accepts lies inside the workspace root.
use vstd::prelude::*;

use crate::paths::{join_path, join_path_seq};
use crate::runtime::ToolError;
use crate::text::{
    byte_head, byte_len, chars_of, occurs_at, contains, contains_seq, count_matches, count_occ, dec, dec_int,
    ends_with, ends_with_seq, eq_str, find, first_occ, head_bytes, i32_to_string, is_boundary,
    is_whitespace, is_ws, join, join_seq, lines, lines_seq, owned, push_char, push_str,
    replace_all, replace_all_str, replace_first, replacen_first, slen, spec_to_lowercase,
    starts_with, starts_with_seq, string_of_range, to_lowercase, trim, trim_end, trim_end_seq,
    trim_seq, usize_to_string, views,
};

verus! {

// ---------------------------------------------------------------------------
// Path components
// ---------------------------------------------------------------------------

/// Scanning `s` from the left: the pieces ended by `sep` so far, and the rest.
pub open spec fn split_char(s: Seq<char>, sep: char) -> (Seq<Seq<char>>, Seq<char>)
    decreases s.len(),
{
    if s.len() == 0 {
        (seq![], seq![])
    } else {
        let (d, c) = split_char(s.drop_last(), sep);
        if s.last() == sep {
            (d.push(c), seq![])
        } else {
            (d, c.push(s.last()))
        }
    }
}

/// The text after the last separator holds no separator.
pub proof fn lemma_split_rest(x: Seq<char>, sep: char)
    ensures
        !split_char(x, sep).1.contains(sep),
    decreases x.len(),
{
    if x.len() > 0 {
        lemma_split_rest(x.drop_last(), sep);
        let c = split_char(x.drop_last(), sep).1;
        if x.last() != sep {
            assert forall|k: int| 0 <= k < c.push(x.last()).len() implies c.push(x.last())[k]
                != sep by {
                if k < c.len() {
                    assert(c.push(x.last())[k] == c[k]);
                }
            }
        }
    }
}

/// Text without a separator is all pending.
pub proof fn lemma_split_plain(c: Seq<char>, sep: char)
    requires
        !c.contains(sep),
    ensures
        split_char(c, sep) == (Seq::<Seq<char>>::empty(), c),
    decreases c.len(),
{
    if c.len() > 0 {
        assert(!c.drop_last().contains(sep)) by {
            if c.drop_last().contains(sep) {
                let k = choose|k: int| 0 <= k < c.drop_last().len() && c.drop_last()[k] == sep;
                assert(c[k] == sep);
            }
        }
        lemma_split_plain(c.drop_last(), sep);
        assert(c[c.len() - 1] != sep);
        assert(c.drop_last().push(c.last()) =~= c);
    }
}

/// Splitting `x + y` is splitting `x`, then splitting what `x` left pending followed by `y`.
pub proof fn lemma_split_append(x: Seq<char>, y: Seq<char>, sep: char)
    ensures
        split_char(x + y, sep) == ({
            let (d1, c1) = split_char(x, sep);
            let (d2, c2) = split_char(c1 + y, sep);
            (d1 + d2, c2)
        }),
    decreases y.len(),
{
    let (d1, c1) = split_char(x, sep);
    if y.len() == 0 {
        assert(x + y =~= x);
        assert(c1 + y =~= c1);
        lemma_split_rest(x, sep);
        lemma_split_plain(c1, sep);
        assert(d1 + Seq::<Seq<char>>::empty() =~= d1);
    } else {
        let y0 = y.drop_last();
        lemma_split_append(x, y0, sep);
        assert((x + y).drop_last() =~= x + y0);
        assert((x + y).last() == y.last());
        assert((c1 + y).drop_last() =~= c1 + y0);
        assert((c1 + y).last() == y.last());
        let (d2, c2) = split_char(c1 + y0, sep);
        if y.last() == sep {
            assert((d1 + d2).push(c2) =~= d1 + d2.push(c2));
        }
    }
}

/// The pieces of `s` between the separators `sep`, empty ones included (`s.split(sep)`).
pub open spec fn pieces(s: Seq<char>, sep: char) -> Seq<Seq<char>> {
    let (d, c) = split_char(s, sep);
    d.push(c)
}

/// The pieces of `s` between slashes, empty ones included.
pub open spec fn segments(s: Seq<char>) -> Seq<Seq<char>> {
    pieces(s, '/')
}

/// Whether `s` starts at the root (`/`).
pub open spec fn has_root(s: Seq<char>) -> bool {
    s.len() > 0 && s[0] == '/'
}

/// A segment that names something: not empty and not `.`.
pub open spec fn is_normal(seg: Seq<char>) -> bool {
    seg.len() > 0 && seg != "."@
}

/// The segments that name something, in order.
pub open spec fn normal_parts(segs: Seq<Seq<char>>) -> Seq<Seq<char>>
    decreases segs.len(),
{
    if segs.len() == 0 {
        seq![]
    } else {
        let r = normal_parts(segs.drop_last());
        if is_normal(segs.last()) {
            r.push(segs.last())
        } else {
            r
        }
    }
}

/// The components of a path as `Path::components` gives them on Unix: `/` for the root, `.`
/// for a leading current directory, then every named segment (empty segments and other `.`
/// segments are dropped; `..` is kept).
pub open spec fn components(s: Seq<char>) -> Seq<Seq<char>> {
    let segs = segments(s);
    let lead = if has_root(s) {
        seq!["/"@]
    } else if segs[0] == "."@ {
        seq!["."@]
    } else {
        seq![]
    };
    lead + normal_parts(segs)
}

/// `Path::starts_with`: the components of `base` begin those of `p`.
pub open spec fn path_starts_with(p: Seq<char>, base: Seq<char>) -> bool {
    let a = components(p);
    let b = components(base);
    b.len() <= a.len() && a.subrange(0, b.len() as int) == b
}

/// The pieces of `s` between the separators `sep` (`s.split(sep)`).
pub fn split_on(s: &str, sep: char) -> (r: Vec<String>)
    ensures
        views(r@) == pieces(s@, sep),
{
    let v = chars_of(s);
    let mut out: Vec<String> = Vec::new();
    let mut cur = String::new();
    let mut i: usize = 0;
    while i < v.len()
        invariant
            i <= v.len(),
            v@ == s@,
            (views(out@), cur@) == split_char(v@.take(i as int), sep),
        decreases v.len() - i,
    {
        let c = v[i];
        proof {
            assert(v@.take(i + 1).drop_last() =~= v@.take(i as int));
            assert(v@.take(i + 1).last() == c);
        }
        if c == sep {
            let ghost before = out@;
            out.push(cur);
            proof {
                assert(views(out@) =~= views(before).push(split_char(v@.take(i as int), sep).1));
            }
            cur = String::new();
        } else {
            push_char(&mut cur, c);
        }
        i += 1;
    }
    proof {
        assert(v@.take(v@.len() as int) =~= v@);
    }
    let ghost before = out@;
    out.push(cur);
    proof {
        assert(views(out@) =~= views(before).push(cur@));
    }
    out
}

/// Whether a segment names something.
fn normal_segment(seg: &str) -> (r: bool)
    ensures
        r == is_normal(seg@),
{
    !seg.is_empty() && !eq_str(seg, ".")
}

/// The components of a path (`Path::components` on Unix).
pub fn path_components(s: &str) -> (r: Vec<String>)
    ensures
        views(r@) == components(s@),
{
    let segs = split_on(s, '/');
    let ghost sv = views(segs@);
    let mut out: Vec<String> = Vec::new();
    let v = chars_of(s);
    proof {
        assert(sv.len() >= 1);
    }
    if v.len() > 0 && v[0] == '/' {
        out.push(owned("/"));
    } else if eq_str(segs[0].as_str(), ".") {
        out.push(owned("."));
    }
    let ghost lead = views(out@);
    proof {
        reveal_strlit("/");
        reveal_strlit(".");
        assert(lead =~= if has_root(s@) {
            seq!["/"@]
        } else if sv[0] == "."@ {
            seq!["."@]
        } else {
            seq![]
        });
    }
    let mut i: usize = 0;
    while i < segs.len()
        invariant
            i <= segs@.len(),
            sv == views(segs@),
            views(out@) == lead + normal_parts(sv.take(i as int)),
        decreases segs@.len() - i,
    {
        proof {
            assert(sv.take(i + 1).drop_last() =~= sv.take(i as int));
            assert(sv.take(i + 1).last() == segs@[i as int]@);
        }
        if normal_segment(segs[i].as_str()) {
            let ghost before = out@;
            out.push(segs[i].clone());
            proof {
                assert(views(out@) =~= views(before).push(segs@[i as int]@));
            }
        }
        i += 1;
    }
    proof {
        assert(sv.take(sv.len() as int) =~= sv);
    }
    out
}

/// `Path::new(p).starts_with(base)`.
pub fn starts_with_path(p: &str, base: &str) -> (r: bool)
    ensures
        r == path_starts_with(p@, base@),
{
    let a = path_components(p);
    let b = path_components(base);
    if b.len() > a.len() {
        return false;
    }
    let mut i: usize = 0;
    while i < b.len()
        invariant
            i <= b@.len() <= a@.len(),
            views(a@) == components(p@),
            views(b@) == components(base@),
            forall|k: int| 0 <= k < i ==> views(a@)[k] == views(b@)[k],
        decreases b@.len() - i,
    {
        if !eq_str(a[i].as_str(), b[i].as_str()) {
            proof {
                let ghost k = i as int;
                assert(views(a@).subrange(0, views(b@).len() as int)[k] != views(b@)[k]);
            }
            return false;
        }
        i += 1;
    }
    proof {
        assert(views(a@).subrange(0, views(b@).len() as int) =~= views(b@));
    }
    true
}

// ---------------------------------------------------------------------------
// Normalizing a relative path
// ---------------------------------------------------------------------------

/// Walking the components of a relative path: `.` is skipped, `..` drops the last name (and
/// fails where there is none), a name is kept.
pub open spec fn norm_fold(comps: Seq<Seq<char>>) -> Option<Seq<Seq<char>>>
    decreases comps.len(),
{
    if comps.len() == 0 {
        Some(seq![])
    } else {
        match norm_fold(comps.drop_last()) {
            None => None,
            Some(st) => {
                let c = comps.last();
                if c == ".."@ {
                    if st.len() == 0 {
                        None
                    } else {
                        Some(st.drop_last())
                    }
                } else if c == "."@ {
                    Some(st)
                } else {
                    Some(st.push(c))
                }
            },
        }
    }
}

/// A relative path with its `.` and `..` resolved, or `None` where it is absolute or climbs
/// above its start.
pub open spec fn normalized(rel: Seq<char>) -> Option<Seq<char>> {
    if has_root(rel) {
        None
    } else {
        match norm_fold(components(rel)) {
            Some(st) => Some(join_seq(st, "/"@)),
            None => None,
        }
    }
}

/// The error of a path that cannot be normalized.
pub open spec fn normalize_error(rel: Seq<char>) -> Seq<char> {
    if has_root(rel) {
        "absolute paths are not allowed: "@ + rel
    } else {
        "path escapes workspace via ..: "@ + rel
    }
}

/// A tool error whose message is `prefix` then `detail`.
pub fn error_with(prefix: &str, detail: &str) -> (r: ToolError)
    ensures
        r.message@ == prefix@ + detail@,
{
    let mut m = owned(prefix);
    push_str(&mut m, detail);
    ToolError { message: m }
}

/// `rel` with `.` and `..` resolved; absolute paths and paths that climb above their start
/// are refused.
pub fn normalize_rel(rel: &str) -> (r: Result<String, ToolError>)
    ensures
        match r {
            Ok(p) => normalized(rel@) == Some(p@),
            Err(e) => normalized(rel@) is None && e.message@ == normalize_error(rel@),
        },
{
    let v = chars_of(rel);
    if v.len() > 0 && v[0] == '/' {
        return Err(error_with("absolute paths are not allowed: ", rel));
    }
    let comps = path_components(rel);
    let ghost cv = views(comps@);
    let mut st: Vec<String> = Vec::new();
    let mut i: usize = 0;
    while i < comps.len()
        invariant
            i <= comps@.len(),
            cv == views(comps@),
            cv == components(rel@),
            !has_root(rel@),
            norm_fold(cv.take(i as int)) == Some(views(st@)),
        decreases comps@.len() - i,
    {
        proof {
            assert(cv.take(i + 1).drop_last() =~= cv.take(i as int));
            assert(cv.take(i + 1).last() == comps@[i as int]@);
        }
        let c = comps[i].as_str();
        if eq_str(c, "..") {
            if st.len() == 0 {
                proof {
                    assert forall|n: int| i + 1 <= n <= cv.len() implies norm_fold(cv.take(n))
                        is None by {
                        lemma_norm_fold_none(cv, i + 1, n);
                    }
                    assert(cv.take(cv.len() as int) =~= cv);
                }
                return Err(error_with("path escapes workspace via ..: ", rel));
            }
            let ghost before = st@;
            st.pop();
            proof {
                assert(views(st@) =~= views(before).drop_last());
            }
        } else if eq_str(c, ".") {
        } else {
            let ghost before = st@;
            st.push(comps[i].clone());
            proof {
                assert(views(st@) =~= views(before).push(comps@[i as int]@));
            }
        }
        i += 1;
    }
    proof {
        assert(cv.take(cv.len() as int) =~= cv);
    }
    Ok(join(&st, "/"))
}

/// Once the walk fails it stays failed.
proof fn lemma_norm_fold_none(cv: Seq<Seq<char>>, m: int, n: int)
    requires
        0 <= m <= n <= cv.len(),
        norm_fold(cv.take(m)) is None,
    ensures
        norm_fold(cv.take(n)) is None,
    decreases n - m,
{
    if m < n {
        assert(cv.take(m + 1).drop_last() =~= cv.take(m));
        lemma_norm_fold_none(cv, m + 1, n);
    }
}

/// A successful walk keeps only names: no `.`, no `..`, nothing empty.
pub proof fn lemma_norm_fold_names(comps: Seq<Seq<char>>)
    requires
        forall|k: int| 0 <= k < comps.len() ==> #[trigger] comps[k].len() > 0,
        norm_fold(comps) is Some,
    ensures
        forall|k: int|
            0 <= k < norm_fold(comps)->0.len() ==> {
                let c = #[trigger] norm_fold(comps)->0[k];
                c.len() > 0 && c != "."@ && c != ".."@
            },
    decreases comps.len(),
{
    if comps.len() > 0 {
        let p = comps.drop_last();
        assert forall|k: int| 0 <= k < p.len() implies #[trigger] p[k].len() > 0 by {
            assert(p[k] == comps[k]);
        }
        lemma_norm_fold_names(p);
        assert(comps.last() == comps[comps.len() - 1]);
    }
}

/// The pieces of `a`, a separator, then `b` are those of `a` followed by those of `b`.
proof fn lemma_pieces_concat(a: Seq<char>, b: Seq<char>, sep: char)
    ensures
        pieces(a + seq![sep] + b, sep) == pieces(a, sep) + pieces(b, sep),
{
    let x = a + seq![sep];
    lemma_split_append(x, b, sep);
    assert(x.drop_last() =~= a);
    assert(x.last() == sep);
    assert(Seq::<char>::empty() + b =~= b);
    let (da, ca) = split_char(a, sep);
    let (db, cb) = split_char(b, sep);
    assert((da.push(ca) + db).push(cb) =~= da.push(ca) + db.push(cb));
}

/// The named segments of two runs of segments are those of each, in order.
proof fn lemma_normal_parts_concat(s1: Seq<Seq<char>>, s2: Seq<Seq<char>>)
    ensures
        normal_parts(s1 + s2) == normal_parts(s1) + normal_parts(s2),
    decreases s2.len(),
{
    if s2.len() == 0 {
        assert(s1 + s2 =~= s1);
        assert(normal_parts(s1) + normal_parts(s2) =~= normal_parts(s1));
    } else {
        lemma_normal_parts_concat(s1, s2.drop_last());
        assert((s1 + s2).drop_last() =~= s1 + s2.drop_last());
        assert((s1 + s2).last() == s2.last());
        if is_normal(s2.last()) {
            assert((normal_parts(s1) + normal_parts(s2.drop_last())).push(s2.last())
                =~= normal_parts(s1) + normal_parts(s2.drop_last()).push(s2.last()));
        }
    }
}

/// Joining a path below an absolute root keeps the root's components first, then adds the
/// named segments of the joined path.
proof fn lemma_join_components(root: Seq<char>, n: Seq<char>)
    requires
        has_root(root),
    ensures
        components(join_path_seq(root, n)) == components(root) + normal_parts(segments(n)),
{
    let j = join_path_seq(root, n);
    if root.last() == '/' {
        let r0 = root.drop_last();
        assert(root =~= r0 + seq!['/'] + Seq::<char>::empty());
        assert(j =~= r0 + seq!['/'] + n);
        lemma_pieces_concat(r0, n, '/');
        lemma_pieces_concat(r0, Seq::<char>::empty(), '/');
        assert(pieces(Seq::<char>::empty(), '/') =~= seq![Seq::<char>::empty()]);
        lemma_normal_parts_concat(segments(r0), segments(n));
        lemma_normal_parts_concat(segments(r0), seq![Seq::<char>::empty()]);
        assert(normal_parts(seq![Seq::<char>::empty()]) =~= Seq::<Seq<char>>::empty()) by {
            reveal_with_fuel(normal_parts, 2);
            let e = seq![Seq::<char>::empty()];
            assert(e.drop_last() =~= Seq::<Seq<char>>::empty());
            assert(e.last() == Seq::<char>::empty());
            assert(!is_normal(e.last()));
        }
        assert(normal_parts(segments(r0)) + Seq::<Seq<char>>::empty() =~= normal_parts(
            segments(r0),
        ));
    } else {
        assert(j =~= root + seq!['/'] + n);
        lemma_pieces_concat(root, n, '/');
        lemma_normal_parts_concat(segments(root), segments(n));
    }
    assert(has_root(j));
    assert(seq!["/"@] + (normal_parts(segments(root)) + normal_parts(segments(n))) =~= (seq![
        "/"@,
    ] + normal_parts(segments(root))) + normal_parts(segments(n)));
}

/// No piece holds the separator.
proof fn lemma_pieces_plain(x: Seq<char>, sep: char)
    ensures
        forall|k: int| 0 <= k < pieces(x, sep).len() ==> !(#[trigger] pieces(x, sep)[k]).contains(sep),
    decreases x.len(),
{
    lemma_split_rest(x, sep);
    if x.len() > 0 {
        lemma_pieces_plain(x.drop_last(), sep);
        let (d0, c0) = split_char(x.drop_last(), sep);
        assert(pieces(x.drop_last(), sep) == d0.push(c0));
        assert forall|k: int| 0 <= k < d0.len() implies !(#[trigger] d0[k]).contains(sep) by {
            assert(d0[k] == pieces(x.drop_last(), sep)[k]);
        }
    }
}

/// What the walk keeps is taken from what it walked.
proof fn lemma_norm_fold_from(comps: Seq<Seq<char>>)
    requires
        norm_fold(comps) is Some,
    ensures
        forall|k: int|
            0 <= k < norm_fold(comps)->0.len() ==> exists|j: int|
                0 <= j < comps.len() && comps[j] == #[trigger] norm_fold(comps)->0[k],
    decreases comps.len(),
{
    if comps.len() > 0 {
        let p = comps.drop_last();
        lemma_norm_fold_from(p);
        let st = norm_fold(p)->0;
        let r = norm_fold(comps)->0;
        assert forall|k: int| 0 <= k < r.len() implies exists|j: int|
            0 <= j < comps.len() && comps[j] == #[trigger] r[k] by {
            if k < st.len() {
                let j = choose|j: int| 0 <= j < p.len() && p[j] == st[k];
                assert(comps[j] == p[j]);
                assert(r[k] == st[k]);
            } else {
                assert(r[k] == comps[comps.len() - 1]);
            }
        }
    }
}

/// Named segments without a slash, joined with slashes, split back into themselves.
proof fn lemma_join_segments(st: Seq<Seq<char>>)
    requires
        forall|k: int| 0 <= k < st.len() ==> is_normal(#[trigger] st[k]) && !st[k].contains('/'),
    ensures
        normal_parts(segments(join_seq(st, "/"@))) == st,
    decreases st.len(),
{
    reveal_strlit("/");
    assert("/"@ =~= seq!['/']);
    if st.len() == 0 {
        assert(pieces(Seq::<char>::empty(), '/') =~= seq![Seq::<char>::empty()]);
        assert(normal_parts(seq![Seq::<char>::empty()]) =~= Seq::<Seq<char>>::empty()) by {
            reveal_with_fuel(normal_parts, 2);
            let e = seq![Seq::<char>::empty()];
            assert(e.drop_last() =~= Seq::<Seq<char>>::empty());
            assert(e.last() == Seq::<char>::empty());
            assert(!is_normal(e.last()));
        }
    } else if st.len() == 1 {
        lemma_split_plain(st[0], '/');
        assert(segments(st[0]) =~= seq![st[0]]);
        assert(normal_parts(seq![st[0]]) =~= seq![st[0]]) by {
            reveal_with_fuel(normal_parts, 2);
            let e = seq![st[0]];
            assert(e.drop_last() =~= Seq::<Seq<char>>::empty());
            assert(e.last() == st[0]);
            assert(is_normal(st[0]));
            assert(Seq::<Seq<char>>::empty().push(st[0]) =~= e);
        }
    } else {
        let p = st.drop_last();
        assert forall|k: int| 0 <= k < p.len() implies is_normal(#[trigger] p[k]) && !p[k].contains(
            '/',
        ) by {
            assert(p[k] == st[k]);
        }
        lemma_join_segments(p);
        let l = st.last();
        assert(is_normal(st[st.len() - 1]));
        lemma_split_plain(l, '/');
        assert(segments(l) =~= seq![l]);
        lemma_pieces_concat(join_seq(p, "/"@), l, '/');
        assert(join_seq(st, "/"@) == join_seq(p, "/"@) + seq!['/'] + l);
        lemma_normal_parts_concat(segments(join_seq(p, "/"@)), seq![l]);
        assert(normal_parts(seq![l]) =~= seq![l]) by {
            reveal_with_fuel(normal_parts, 2);
            let e = seq![l];
            assert(e.drop_last() =~= Seq::<Seq<char>>::empty());
            assert(e.last() == l);
            assert(Seq::<Seq<char>>::empty().push(l) =~= e);
        }
        assert(p + seq![l] =~= st);
    }
}

/// A relative path the sandbox accepts names a place inside the root before the file system
/// is even asked: below an absolute root, the components of its candidate are the root's,
/// followed by plain names only (never `.` or `..`, never empty).
pub proof fn law_candidate_inside(root: Seq<char>, rel: Seq<char>)
    requires
        has_root(root),
        normalized(rel) is Some,
    ensures
        ({
            let c = components(join_path_seq(root, normalized(rel)->0));
            let b = components(root);
            &&& path_starts_with(join_path_seq(root, normalized(rel)->0), root)
            &&& forall|k: int|
                b.len() <= k < c.len() ==> (#[trigger] c[k]).len() > 0 && c[k] != "."@ && c[k]
                    != ".."@
        }),
{
    reveal_strlit(".");
    reveal_strlit("..");
    let st = norm_fold(components(rel))->0;
    let n = join_seq(st, "/"@);
    lemma_normalized_names(rel);
    lemma_join_segments(st);
    lemma_join_components(root, n);
    let c = components(join_path_seq(root, n));
    let b = components(root);
    assert(c.subrange(0, b.len() as int) =~= b);
    assert forall|k: int| b.len() <= k < c.len() implies (#[trigger] c[k]).len() > 0 && c[k] != "."@
        && c[k] != ".."@ by {
        assert(c[k] == st[k - b.len()]);
    }
}

/// What a relative path normalizes to holds only names: none empty, none `.` or `..`,
/// none with a slash.
proof fn lemma_normalized_names(rel: Seq<char>)
    requires
        normalized(rel) is Some,
    ensures
        forall|k: int|
            0 <= k < norm_fold(components(rel))->0.len() ==> {
                let c = #[trigger] norm_fold(components(rel))->0[k];
                &&& is_normal(c)
                &&& !c.contains('/')
                &&& c != ".."@
            },
        normalized(rel) == Some(join_seq(norm_fold(components(rel))->0, "/"@)),
{
    reveal_strlit(".");
    reveal_strlit("..");
    reveal_strlit("/");
    let comps = components(rel);
    let st = norm_fold(comps)->0;
    let segs = segments(rel);
    lemma_pieces_plain(rel, '/');
    assert(!has_root(rel));
    assert forall|j: int| 0 <= j < comps.len() implies (#[trigger] comps[j]).len() > 0 && !comps[j].contains(
        '/',
    ) by {
        lemma_normal_parts_from(segs);
        if segs[0] == "."@ {
            if j == 0 {
                assert(comps[j] == "."@);
                assert(!"."@.contains('/')) by {
                    assert("."@ =~= seq!['.']);
                }
            } else {
                assert(comps[j] == normal_parts(segs)[j - 1]);
            }
        } else {
            assert(comps[j] == normal_parts(segs)[j]);
        }
    }
    lemma_norm_fold_names(comps);
    lemma_norm_fold_from(comps);
    assert forall|k: int| 0 <= k < st.len() implies {
        &&& is_normal(#[trigger] st[k])
        &&& !st[k].contains('/')
        &&& st[k] != ".."@
    } by {
        let j = choose|j: int| 0 <= j < comps.len() && comps[j] == st[k];
        assert(st[k] != "."@);
    }
}

/// The names less the `..` among `comps` (a `.` counts for nothing).
pub open spec fn depth(comps: Seq<Seq<char>>) -> int
    decreases comps.len(),
{
    if comps.len() == 0 {
        0
    } else {
        depth(comps.drop_last()) + if comps.last() == ".."@ {
            -1int
        } else if comps.last() == "."@ {
            0int
        } else {
            1int
        }
    }
}

/// Some first part of `comps` holds more `..` than names: the path climbs above its start.
pub open spec fn climbs(comps: Seq<Seq<char>>) -> bool {
    exists|k: int| 0 <= k <= comps.len() && #[trigger] depth(comps.take(k)) < 0
}

/// The walk fails exactly where the components climb, and otherwise keeps as many names as
/// their depth.
proof fn lemma_norm_fold_depth(comps: Seq<Seq<char>>)
    ensures
        norm_fold(comps) is None <==> climbs(comps),
        norm_fold(comps) is Some ==> norm_fold(comps)->0.len() == depth(comps),
    decreases comps.len(),
{
    if comps.len() == 0 {
        assert forall|k: int| 0 <= k <= comps.len() implies #[trigger] depth(comps.take(k)) >= 0 by {
            assert(comps.take(k) =~= Seq::<Seq<char>>::empty());
        }
    } else {
        let p = comps.drop_last();
        lemma_norm_fold_depth(p);
        assert forall|k: int| 0 <= k <= p.len() implies #[trigger] comps.take(k) == p.take(k) by {
            assert(comps.take(k) =~= p.take(k));
        }
        assert(comps.take(comps.len() as int) =~= comps);
        match norm_fold(p) {
            None => {
                let k = choose|k: int| 0 <= k <= p.len() && #[trigger] depth(p.take(k)) < 0;
                assert(depth(comps.take(k)) < 0);
            },
            Some(st) => {
                assert forall|k: int| 0 <= k <= p.len() implies #[trigger] depth(p.take(k)) >= 0 by {
                    if depth(p.take(k)) < 0 {
                        assert(climbs(p));
                    }
                }
                if norm_fold(comps) is None {
                    assert(depth(comps.take(comps.len() as int)) < 0);
                } else {
                    assert forall|k: int| 0 <= k <= comps.len() implies #[trigger] depth(
                        comps.take(k),
                    ) >= 0 by {
                        if k <= p.len() {
                            assert(depth(comps.take(k)) == depth(p.take(k)));
                        }
                    }
                }
            },
        }
    }
}

/// `resolve` and `resolve_for_write` refuse a relative path, whatever the file system says,
/// exactly when it is absolute or when some first part of its components holds more `..`
/// than names (it climbs above the workspace root).
pub proof fn law_refused_paths(rel: Seq<char>)
    ensures
        normalized(rel) is None <==> (has_root(rel) || climbs(components(rel))),
{
    lemma_norm_fold_depth(components(rel));
}

/// Adding plain names below an absolute path adds them to its components.
proof fn lemma_pushed_components(base: Seq<char>, names: Seq<Seq<char>>)
    requires
        has_root(base),
        forall|k: int| 0 <= k < names.len() ==> is_normal(#[trigger] names[k]) && !names[k].contains('/'),
    ensures
        has_root(pushed(base, names)),
        components(pushed(base, names)) == components(base) + names,
    decreases names.len(),
{
    if names.len() == 0 {
        assert(components(base) + names =~= components(base));
    } else {
        let p = names.drop_last();
        let l = names.last();
        assert forall|k: int| 0 <= k < p.len() implies is_normal(#[trigger] p[k]) && !p[k].contains('/') by {
            assert(p[k] == names[k]);
        }
        lemma_pushed_components(base, p);
        let b = pushed(base, p);
        assert(is_normal(names[names.len() - 1]) && !names[names.len() - 1].contains('/'));
        lemma_join_components(b, l);
        lemma_join_segments(seq![l]);
        assert(join_seq(seq![l], "/"@) == l) by {
            reveal_with_fuel(join_seq, 2);
        }
        assert(join_path_seq(b, l)[0] == b[0]);
        assert(components(base) + p + seq![l] =~= components(base) + names);
    }
}

/// Adding names in two runs is adding them in one.
proof fn lemma_pushed_concat(base: Seq<char>, x: Seq<Seq<char>>, y: Seq<Seq<char>>)
    ensures
        pushed(pushed(base, x), y) == pushed(base, x + y),
    decreases y.len(),
{
    if y.len() == 0 {
        assert(x + y =~= x);
    } else {
        lemma_pushed_concat(base, x, y.drop_last());
        assert((x + y).drop_last() =~= x + y.drop_last());
        assert((x + y).last() == y.last());
    }
}

/// Where no link redirects any part of it, the path `resolve_for_write` gives for a relative
/// path is the root joined with that path normalized. The nearest existing ancestor is then
/// the root with the first `k` names added, and the names still missing are the rest (given
/// from the path's own name up, they are the rest reversed); the ancestor lies inside the root, and the
/// path made of it and the missing names is the root with all the names added, inside the
/// root and with the components of `root.join(normalized)`.
pub proof fn law_write_path_joins(root: Seq<char>, rel: Seq<char>, k: int)
    requires
        has_root(root),
        normalized(rel) is Some,
        0 <= k <= norm_fold(components(rel))->0.len(),
    ensures
        ({
            let st = norm_fold(components(rel))->0;
            let a = pushed(root, st.take(k));
            let f = pushed(a, st.skip(k));
            &&& path_starts_with(a, root)
            &&& f == pushed(root, st)
            &&& path_starts_with(f, root)
            &&& components(f) == components(join_path_seq(root, normalized(rel)->0))
        }),
{
    let st = norm_fold(components(rel))->0;
    lemma_normalized_names(rel);
    let a = pushed(root, st.take(k));
    assert forall|j: int| 0 <= j < st.take(k).len() implies is_normal(#[trigger] st.take(k)[j])
        && !st.take(k)[j].contains('/') by {
        assert(st.take(k)[j] == st[j]);
    }
    lemma_pushed_components(root, st.take(k));
    assert(components(a).subrange(0, components(root).len() as int) =~= components(root));
    lemma_pushed_concat(root, st.take(k), st.skip(k));
    assert(st.take(k) + st.skip(k) =~= st);
    lemma_pushed_components(root, st);
    let f = pushed(root, st);
    assert(components(f).subrange(0, components(root).len() as int) =~= components(root));
    let n = join_seq(st, "/"@);
    lemma_join_segments(st);
    lemma_join_components(root, n);
}

/// A path made of the root and a relative path of plain names is shown as that relative
/// path: `rel_display(root.join(r))` gives back `r`.
pub proof fn law_rel_display_round_trip(root: Seq<char>, names: Seq<Seq<char>>)
    requires
        has_root(root),
        forall|k: int| 0 <= k < names.len() ==> is_normal(#[trigger] names[k]) && !names[k].contains('/'),
    ensures
        rel_text(root, join_path_seq(root, join_seq(names, "/"@))) == join_seq(names, "/"@),
{
    let n = join_seq(names, "/"@);
    lemma_join_segments(names);
    lemma_join_components(root, n);
    let c = components(join_path_seq(root, n));
    let b = components(root);
    assert(c.subrange(0, b.len() as int) =~= b);
    assert(c.skip(b.len() as int) =~= names);
}

/// Every named segment is one of the segments, holding what they hold.
proof fn lemma_normal_parts_from(segs: Seq<Seq<char>>)
    ensures
        forall|k: int|
            0 <= k < normal_parts(segs).len() ==> exists|j: int|
                0 <= j < segs.len() && segs[j] == #[trigger] normal_parts(segs)[k],
        forall|k: int| 0 <= k < normal_parts(segs).len() ==> is_normal(#[trigger] normal_parts(segs)[k]),
    decreases segs.len(),
{
    if segs.len() > 0 {
        let p = segs.drop_last();
        lemma_normal_parts_from(p);
        let r = normal_parts(segs);
        let q = normal_parts(p);
        assert forall|k: int| 0 <= k < r.len() implies exists|j: int|
            0 <= j < segs.len() && segs[j] == #[trigger] r[k] by {
            if k < q.len() {
                let j = choose|j: int| 0 <= j < p.len() && p[j] == q[k];
                assert(segs[j] == p[j]);
                assert(r[k] == q[k]);
            } else {
                assert(r[k] == segs[segs.len() - 1]);
            }
        }
        assert forall|k: int| 0 <= k < r.len() implies is_normal(#[trigger] r[k]) by {
            if k < q.len() {
                assert(r[k] == q[k]);
            }
        }
    }
}

// ---------------------------------------------------------------------------
// The workspace
// ---------------------------------------------------------------------------

/// What the file system says of a path about to be resolved.
#[derive(Debug)]
pub enum Probe {
    /// Nothing is there.
    Missing,
    /// It is there; this is its canonical form.
    Found(String),
    /// It is there but could not be made canonical; this is why.
    Failed(String),
}

/// The workspace the tools work in, by its canonical absolute root.
#[derive(Debug, Clone)]
pub struct Workspace {
    root: String,
}

impl View for Workspace {
    type V = Seq<char>;

    /// The root path.
    closed spec fn view(&self) -> Seq<char> {
        self.root@
    }
}

/// The message of a path found outside the workspace.
pub open spec fn escape_error(p: Seq<char>) -> Seq<char> {
    "path escapes workspace: "@ + p
}

/// The path at `base` with the names `parts` added one after the other.
pub open spec fn pushed(base: Seq<char>, parts: Seq<Seq<char>>) -> Seq<char>
    decreases parts.len(),
{
    if parts.len() == 0 {
        base
    } else {
        join_path_seq(pushed(base, parts.drop_last()), parts.last())
    }
}

/// A path shown relative to the root where it lies inside it, else as it is.
pub open spec fn rel_text(root: Seq<char>, p: Seq<char>) -> Seq<char> {
    if path_starts_with(p, root) {
        join_seq(components(p).skip(components(root).len() as int), "/"@)
    } else {
        p
    }
}

impl Workspace {
    /// The workspace at `root`, which the caller has made canonical.
    pub fn new(root: String) -> (r: Workspace)
        ensures
            r@ == root@,
    {
        Workspace { root }
    }

    /// The root directory.
    pub fn root(&self) -> (r: &str)
        ensures
            r@ == self@,
    {
        self.root.as_str()
    }

    /// The path under the root that `rel` names, before the file system is asked about it.
    pub fn candidate(&self, rel: &str) -> (r: Result<String, ToolError>)
        ensures
            match r {
                Ok(c) => normalized(rel@) matches Some(n) && c@ == join_path_seq(self@, n),
                Err(e) => normalized(rel@) is None && e.message@ == normalize_error(rel@),
            },
    {
        let n = normalize_rel(rel)?;
        Ok(join_path(self.root.as_str(), n.as_str()))
    }

    /// Refuses a path that is not inside the root.
    fn ensure_inside(&self, path: &str) -> (r: Result<(), ToolError>)
        ensures
            r is Ok <==> path_starts_with(path@, self@),
            r matches Err(e) ==> e.message@ == escape_error(path@),
    {
        if !starts_with_path(path, self.root.as_str()) {
            return Err(error_with("path escapes workspace: ", path));
        }
        Ok(())
    }

    /// The existing path `rel` names, given what the file system says of its candidate (see
    /// `candidate`): refused where `rel` is absolute or climbs out, where nothing is there,
    /// where it cannot be made canonical, or where its canonical form lies outside the root.
    pub fn resolve(&self, rel: &str, probe: Probe) -> (r: Result<String, ToolError>)
        ensures
            normalized(rel@) is None ==> (r matches Err(e) && e.message@ == normalize_error(rel@)),
            normalized(rel@) matches Some(n) ==> match probe {
                Probe::Missing => r matches Err(e) && e.message@ == "path not found: "@ + n,
                Probe::Failed(m) => r matches Err(e) && e.message@ == "canonicalize "@
                    + join_path_seq(self@, n) + ": "@ + m@,
                Probe::Found(c) => if path_starts_with(c@, self@) {
                    r matches Ok(p) && p@ == c@
                } else {
                    r matches Err(e) && e.message@ == escape_error(c@)
                },
            },
            r matches Ok(p) ==> path_starts_with(p@, self@),
    {
        let n = normalize_rel(rel)?;
        match probe {
            Probe::Missing => Err(error_with("path not found: ", n.as_str())),
            Probe::Failed(m) => {
                let c = join_path(self.root.as_str(), n.as_str());
                let mut msg = owned("canonicalize ");
                push_str(&mut msg, c.as_str());
                push_str(&mut msg, ": ");
                push_str(&mut msg, m.as_str());
                Err(ToolError { message: msg })
            },
            Probe::Found(c) => {
                self.ensure_inside(c.as_str())?;
                Ok(c)
            },
        }
    }

    /// The path `rel` names for writing, given the canonical form of its nearest existing
    /// ancestor (or why none could be found) and the names below it that do not exist yet,
    /// the path's own name first: refused where `rel` is absolute or climbs out, where the ancestor
    /// could not be found, or where the ancestor or the full path lies outside the root.
    pub fn resolve_for_write(
        &self,
        rel: &str,
        ancestor: Result<String, String>,
        missing: &Vec<String>,
    ) -> (r: Result<String, ToolError>)
        ensures
            normalized(rel@) is None ==> (r matches Err(e) && e.message@ == normalize_error(rel@)),
            normalized(rel@) is Some ==> match ancestor {
                Err(m) => r matches Err(e) && e.message@ == m@,
                Ok(c) => if !path_starts_with(c@, self@) {
                    r matches Err(e) && e.message@ == escape_error(c@)
                } else {
                    let f = pushed(c@, views(missing@).reverse());
                    if path_starts_with(f, self@) {
                        r matches Ok(p) && p@ == f
                    } else {
                        r matches Err(e) && e.message@ == escape_error(f)
                    }
                },
            },
            r matches Ok(p) ==> path_starts_with(p@, self@),
    {
        let _n = normalize_rel(rel)?;
        let c = match ancestor {
            Ok(c) => c,
            Err(m) => {
                return Err(ToolError { message: m });
            },
        };
        self.ensure_inside(c.as_str())?;
        let ghost mv = views(missing@);
        let mut path = c;
        let mut k: usize = missing.len();
        while k > 0
            invariant
                k <= missing@.len(),
                mv == views(missing@),
                path@ == pushed(c@, mv.reverse().take((missing@.len() - k) as int)),
            decreases k,
        {
            k -= 1;
            let ghost before = path@;
            path = join_path(path.as_str(), missing[k].as_str());
            proof {
                let t = mv.reverse().take((missing@.len() - k) as int);
                assert(t.drop_last() =~= mv.reverse().take((missing@.len() - k - 1) as int));
                assert(t.last() == mv[k as int]);
            }
        }
        proof {
            assert(mv.reverse().take(missing@.len() as int) =~= mv.reverse());
        }
        if !starts_with_path(path.as_str(), self.root.as_str()) {
            return Err(error_with("path escapes workspace: ", path.as_str()));
        }
        Ok(path)
    }

    /// `path` shown relative to the root where it lies inside it, else as it is.
    pub fn rel_display(&self, path: &str) -> (r: String)
        ensures
            r@ == rel_text(self@, path@),
    {
        strip_root(self.root.as_str(), path)
    }
}

/// `path` relative to `root` where it lies inside it, else as it is
/// (`path.strip_prefix(root).unwrap_or(path)`).
pub fn strip_root(root: &str, path: &str) -> (r: String)
    ensures
        r@ == rel_text(root@, path@),
{
    if !starts_with_path(path, root) {
        return owned(path);
    }
    let a = path_components(path);
    let b = path_components(root);
    let ghost av = views(a@);
    let mut rest: Vec<String> = Vec::new();
    let mut i = b.len();
    proof {
        assert(views(b@).len() <= av.len());
    }
    while i < a.len()
        invariant
            b@.len() <= i <= a@.len(),
            av == views(a@),
            views(rest@) == av.subrange(b@.len() as int, i as int),
        decreases a@.len() - i,
    {
        let ghost before = rest@;
        rest.push(a[i].clone());
        proof {
            assert(views(rest@) =~= views(before).push(a@[i as int]@));
            assert(views(rest@) =~= av.subrange(b@.len() as int, i + 1));
        }
        i += 1;
    }
    proof {
        assert(av.skip(b@.len() as int) =~= av.subrange(b@.len() as int, av.len() as int));
    }
    join(&rest, "/")
}

/// Whether `list_dir` lists the root itself for `rel`: empty, or only `.`.
pub open spec fn names_root(rel: Seq<char>) -> bool {
    rel.len() == 0 || components(rel) == seq!["."@]
}

/// Whether `list_dir` of `rel` lists the root itself.
pub fn lists_root(rel: &str) -> (r: bool)
    ensures
        r == names_root(rel@),
{
    if rel.is_empty() {
        return true;
    }
    let c = path_components(rel);
    proof {
        reveal_strlit(".");
    }
    if c.len() == 1 && eq_str(c[0].as_str(), ".") {
        proof {
            assert(views(c@) =~= seq!["."@]);
        }
        return true;
    }
    proof {
        if views(c@) == seq!["."@] {
            assert(views(c@)[0] == c@[0]@);
        }
    }
    false
}

/// The path a search starts from: the root when `path` is absent, empty or `.`, else the
/// given path (to be resolved).
pub fn search_start(path: Option<&str>) -> (r: Option<String>)
    ensures
        match path {
            Some(p) if p@.len() > 0 && p@ != "."@ => r matches Some(q) && q@ == p@,
            _ => r is None,
        },
{
    match path {
        Some(p) => {
            if !p.is_empty() && !eq_str(p, ".") {
                Some(owned(p))
            } else {
                None
            }
        },
        None => None,
    }
}

/// `(exit N)`.
pub open spec fn exit_note(status: i32) -> Seq<char> {
    "(exit "@ + dec_int(status as int) + ")"@
}

/// The output of a command: stdout, then stderr on a line of its own; `(exit N)` alone when
/// both are empty, or on a last line when the command failed.
pub open spec fn combined_text(status: i32, out: Seq<char>, err: Seq<char>) -> Seq<char> {
    let o = if err.len() == 0 {
        out
    } else if out.len() == 0 {
        err
    } else {
        out + "\n"@ + err
    };
    if o.len() == 0 {
        exit_note(status)
    } else if status != 0 {
        o + "\n"@ + exit_note(status)
    } else {
        o
    }
}

/// What a shell command gave: its exit status and output.
#[derive(Debug, Clone)]
pub struct CommandOutput {
    pub status: i32,
    pub stdout: String,
    pub stderr: String,
}

impl CommandOutput {
    /// Both outputs as one text, with the exit status where it matters.
    pub fn combined(&self) -> (r: String)
        ensures
            r@ == combined_text(self.status, self.stdout@, self.stderr@),
    {
        let mut out = String::new();
        if !self.stdout.as_str().is_empty() {
            push_str(&mut out, self.stdout.as_str());
        }
        if !self.stderr.as_str().is_empty() {
            if !out.as_str().is_empty() {
                push_char(&mut out, '\n');
            }
            push_str(&mut out, self.stderr.as_str());
        }
        proof {
            reveal_strlit("\n");
            if self.stderr@.len() > 0 && self.stdout@.len() > 0 {
                assert(out@ =~= self.stdout@ + "\n"@ + self.stderr@);
            }
        }
        if out.as_str().is_empty() {
            let mut r = owned("(exit ");
            let d = i32_to_string(self.status);
            push_str(&mut r, d.as_str());
            push_str(&mut r, ")");
            r
        } else if self.status != 0 {
            push_str(&mut out, "\n(exit ");
            let d = i32_to_string(self.status);
            push_str(&mut out, d.as_str());
            push_str(&mut out, ")");
            proof {
                reveal_strlit("\n(exit ");
                reveal_strlit("\n");
                reveal_strlit("(exit ");
            }
            out
        } else {
            out
        }
    }
}

/// A command's output is kept up to this many bytes.
pub const OUTPUT_CAP: usize = 40000;

/// An output can be capped: short enough, or byte 40000 starts a character.
pub open spec fn cap_safe(s: Seq<char>) -> bool {
    slen(s) <= 40000 || is_boundary(s, 40000)
}

/// An output as kept: unchanged up to the cap, else its first 40000 bytes, `...` and a line
/// naming the stream.
pub open spec fn capped(s: Seq<char>, stream: Seq<char>) -> Seq<char> {
    if slen(s) > 40000 {
        byte_head(s, 40000) + "...\n["@ + stream + " truncated]"@
    } else {
        s
    }
}

/// Caps an output of the stream `stream`.
fn cap_output(s: String, stream: &str) -> (r: String)
    requires
        cap_safe(s@),
    ensures
        r@ == capped(s@, stream@),
{
    if byte_len(s.as_str()) > OUTPUT_CAP {
        let mut r = head_bytes(s.as_str(), OUTPUT_CAP);
        push_str(&mut r, "...\n[");
        push_str(&mut r, stream);
        push_str(&mut r, " truncated]");
        r
    } else {
        s
    }
}

/// Refuses a command that is empty or only whitespace.
pub fn check_command(command: &str) -> (r: Result<(), ToolError>)
    ensures
        r is Ok <==> crate::text::trim_seq(command@).len() > 0,
        r matches Err(e) ==> e.message@ == "empty command"@,
{
    let t = crate::text::trim(command);
    if t.as_str().is_empty() {
        return Err(ToolError { message: owned("empty command") });
    }
    Ok(())
}

/// The result of a finished command: its exit code (-1 when it had none) and both outputs,
/// each capped at 40000 bytes.
pub fn shell_output(code: Option<i32>, stdout: String, stderr: String) -> (r: CommandOutput)
    requires
        cap_safe(stdout@),
        cap_safe(stderr@),
    ensures
        r.status == match code {
            Some(c) => c,
            None => -1i32,
        },
        r.stdout@ == capped(stdout@, "stdout"@),
        r.stderr@ == capped(stderr@, "stderr"@),
{
    let status = match code {
        Some(c) => c,
        None => -1,
    };
    let stdout = cap_output(stdout, "stdout");
    let stderr = cap_output(stderr, "stderr");
    CommandOutput { status, stdout, stderr }
}

// ---------------------------------------------------------------------------
// Editing file text
// ---------------------------------------------------------------------------

/// `s` cut to its first `n` bytes with `…` after it, where it is longer.
pub open spec fn truncated_to(s: Seq<char>, n: usize) -> Seq<char> {
    if slen(s) <= n {
        s
    } else {
        byte_head(s, n as int) + "…"@
    }
}

/// `s` can be cut at byte `n`: short enough, or byte `n` starts a character.
pub open spec fn cut_safe(s: Seq<char>, n: usize) -> bool {
    slen(s) <= n || is_boundary(s, n as int)
}

/// Cuts `s` to its first `n` bytes, marking the cut with `…`.
pub fn truncate(s: &str, n: usize) -> (r: String)
    requires
        cut_safe(s@, n),
    ensures
        r@ == truncated_to(s@, n),
{
    if byte_len(s) <= n {
        owned(s)
    } else {
        let mut r = head_bytes(s, n);
        push_str(&mut r, "…");
        r
    }
}

/// The message of an empty `old_string`.
pub open spec fn empty_old_error() -> Seq<char> {
    "old_string must not be empty"@
}

/// What replacing the unique occurrence of `old` by `new` in the text of file `rel` gives:
/// the new text, or why it is refused (`old` empty, absent, or found more than once).
pub open spec fn replace_outcome(rel: Seq<char>, content: Seq<char>, old: Seq<char>, new: Seq<char>) -> Result<Seq<char>, Seq<char>> {
    if old.len() == 0 {
        Err(empty_old_error())
    } else {
        let m = count_occ(content, old);
        if m == 0 {
            Err("old_string not found in "@ + rel)
        } else if m > 1 {
            Err("old_string matched "@ + dec(m) + " times in "@ + rel + "; make it unique"@)
        } else {
            Ok(replace_first(content, old, new))
        }
    }
}

/// Refuses an empty `old_string` (checked before the file is looked up).
pub fn check_old_string(old: &str) -> (r: Result<(), ToolError>)
    ensures
        r is Ok <==> old@.len() > 0,
        r matches Err(e) ==> e.message@ == empty_old_error(),
{
    if old.is_empty() {
        return Err(ToolError { message: owned("old_string must not be empty") });
    }
    Ok(())
}

/// The text of file `rel` with the unique occurrence of `old` replaced by `new`.
pub fn replace_unique(rel: &str, content: &str, old: &str, new: &str) -> (r: Result<String, ToolError>)
    ensures
        match r {
            Ok(t) => replace_outcome(rel@, content@, old@, new@) == Ok::<Seq<char>, Seq<char>>(t@),
            Err(e) => replace_outcome(rel@, content@, old@, new@) == Err::<Seq<char>, Seq<char>>(
                e.message@,
            ),
        },
{
    check_old_string(old)?;
    let m = count_matches(content, old);
    if m == 0 {
        return Err(error_with("old_string not found in ", rel));
    }
    if m > 1 {
        let mut msg = owned("old_string matched ");
        let d = usize_to_string(m);
        push_str(&mut msg, d.as_str());
        push_str(&mut msg, " times in ");
        push_str(&mut msg, rel);
        push_str(&mut msg, "; make it unique");
        return Err(ToolError { message: msg });
    }
    Ok(replacen_first(content, old, new))
}

/// The message after a replacement in `rel`.
pub fn updated_message(rel: &str) -> (r: String)
    ensures
        r@ == "updated "@ + rel@,
{
    let mut r = owned("updated ");
    push_str(&mut r, rel);
    r
}

/// One edit of a multi-edit: its `old` must occur exactly once in the text so far.
pub open spec fn edit_step(c: Seq<char>, old: Seq<char>, new: Seq<char>) -> Result<Seq<char>, Seq<char>> {
    if old.len() == 0 {
        Err(empty_old_error())
    } else {
        let m = count_occ(c, old);
        if m != 1 {
            Err("edit for '"@ + truncated_to(old, 40) + "' matched "@ + dec(m)
                + " times (need exactly 1)"@)
        } else {
            Ok(replace_first(c, old, new))
        }
    }
}

/// The edits applied in order to `content`: the final text, or the first edit's refusal.
pub open spec fn edits_outcome(content: Seq<char>, edits: Seq<(Seq<char>, Seq<char>)>) -> Result<Seq<char>, Seq<char>>
    decreases edits.len(),
{
    if edits.len() == 0 {
        Ok(content)
    } else {
        match edits_outcome(content, edits.drop_last()) {
            Err(e) => Err(e),
            Ok(c) => edit_step(c, edits.last().0, edits.last().1),
        }
    }
}

/// The edits can be reported: the first edit that fails (if any) can have its `old` cut at
/// byte 40.
pub open spec fn edits_reportable(content: Seq<char>, edits: Seq<(Seq<char>, Seq<char>)>) -> bool
    decreases edits.len(),
{
    if edits.len() == 0 {
        true
    } else {
        edits_reportable(content, edits.drop_last()) && step_reportable(
            content,
            edits.drop_last(),
            edits.last(),
        )
    }
}

/// The edit `e` after `prefix` fails only with an `old` that can be cut at byte 40.
pub open spec fn step_reportable(
    content: Seq<char>,
    prefix: Seq<(Seq<char>, Seq<char>)>,
    e: (Seq<char>, Seq<char>),
) -> bool {
    match edits_outcome(content, prefix) {
        Err(_) => true,
        Ok(c) => edit_step(c, e.0, e.1) is Ok || cut_safe(e.0, 40),
    }
}

/// The pairs of a list of edits, as values.
pub open spec fn edit_pairs(e: Seq<(String, String)>) -> Seq<(Seq<char>, Seq<char>)> {
    e.map_values(|p: (String, String)| (p.0@, p.1@))
}

/// Once an edit fails, the edits after it do not change the outcome.
proof fn lemma_edits_fail_stays(content: Seq<char>, edits: Seq<(Seq<char>, Seq<char>)>, m: int, n: int)
    requires
        0 <= m <= n <= edits.len(),
        edits_outcome(content, edits.take(m)) is Err,
    ensures
        edits_outcome(content, edits.take(n)) == edits_outcome(content, edits.take(m)),
        edits_reportable(content, edits.take(m)) ==> edits_reportable(content, edits.take(n)),
    decreases n - m,
{
    if m < n {
        assert(edits.take(m + 1).drop_last() =~= edits.take(m));
        lemma_edits_fail_stays(content, edits, m + 1, n);
    }
}

/// `content` with each edit `(old, new)` applied in order, each `old` occurring exactly once
/// in the text at its turn.
pub fn apply_edits(content: &str, edits: &Vec<(String, String)>) -> (r: Result<String, ToolError>)
    requires
        edits_reportable(content@, edit_pairs(edits@)),
    ensures
        match r {
            Ok(t) => edits_outcome(content@, edit_pairs(edits@)) == Ok::<Seq<char>, Seq<char>>(t@),
            Err(e) => edits_outcome(content@, edit_pairs(edits@)) == Err::<Seq<char>, Seq<char>>(
                e.message@,
            ),
        },
{
    let ghost ev = edit_pairs(edits@);
    let mut cur = owned(content);
    let mut i: usize = 0;
    while i < edits.len()
        invariant
            i <= edits@.len(),
            ev == edit_pairs(edits@),
            edits_reportable(content@, ev),
            edits_outcome(content@, ev.take(i as int)) == Ok::<Seq<char>, Seq<char>>(cur@),
        decreases edits@.len() - i,
    {
        proof {
            assert(ev.take(i + 1).drop_last() =~= ev.take(i as int));
            assert(ev.take(i + 1).last() == ev[i as int]);
            assert(ev.take(ev.len() as int) =~= ev);
            lemma_reportable_prefix(content@, ev, i + 1);
        }
        let old = edits[i].0.as_str();
        let new = edits[i].1.as_str();
        if old.is_empty() {
            proof {
                lemma_edits_fail_stays(content@, ev, i + 1, ev.len() as int);
            }
            return Err(ToolError { message: owned("old_string must not be empty") });
        }
        let m = count_matches(cur.as_str(), old);
        if m != 1 {
            let mut msg = owned("edit for '");
            let t = truncate(old, 40);
            push_str(&mut msg, t.as_str());
            push_str(&mut msg, "' matched ");
            let d = usize_to_string(m);
            push_str(&mut msg, d.as_str());
            push_str(&mut msg, " times (need exactly 1)");
            proof {
                lemma_edits_fail_stays(content@, ev, i + 1, ev.len() as int);
            }
            return Err(ToolError { message: msg });
        }
        cur = replacen_first(cur.as_str(), old, new);
        i += 1;
    }
    proof {
        assert(ev.take(ev.len() as int) =~= ev);
    }
    Ok(cur)
}

/// A prefix of reportable edits is reportable.
proof fn lemma_reportable_prefix(content: Seq<char>, edits: Seq<(Seq<char>, Seq<char>)>, n: int)
    requires
        0 <= n <= edits.len(),
        edits_reportable(content, edits),
    ensures
        edits_reportable(content, edits.take(n)),
        n > 0 ==> step_reportable(content, edits.take(n - 1), edits[n - 1]),
    decreases edits.len() - n,
{
    if n < edits.len() {
        lemma_reportable_prefix(content, edits, n + 1);
        let t = edits.take(n + 1);
        assert(t.drop_last() =~= edits.take(n));
    } else {
        assert(edits.take(n) =~= edits);
    }
    if n > 0 {
        let t = edits.take(n);
        assert(t.drop_last() =~= edits.take(n - 1));
        assert(t.last() == edits[n - 1]);
        assert(edits_reportable(content, t));
        assert(step_reportable(content, t.drop_last(), t.last()));
    }
}

/// The message after a multi-edit of `rel`.
pub fn applied_message(count: usize, rel: &str) -> (r: String)
    ensures
        r@ == "applied "@ + dec(count as nat) + " edits to "@ + rel@,
{
    let mut r = owned("applied ");
    let d = usize_to_string(count);
    push_str(&mut r, d.as_str());
    push_str(&mut r, " edits to ");
    push_str(&mut r, rel);
    r
}

// ---------------------------------------------------------------------------
// Reading files
// ---------------------------------------------------------------------------

/// A file is read whole up to this many bytes.
pub const MAX_READ_BYTES: u64 = 120000;

/// The text of a file longer than `MAX_READ_BYTES`: its first bytes, then a note of its size.
pub fn truncated_read(head: &str, size: u64) -> (r: String)
    ensures
        r@ == head@ + "\n\n...[truncated at 120000 bytes; file is "@ + dec(size as nat)
            + " bytes]"@,
{
    let mut r = owned(head);
    push_str(&mut r, "\n\n...[truncated at 120000 bytes; file is ");
    let d = crate::text::u64_to_string(size);
    push_str(&mut r, d.as_str());
    push_str(&mut r, " bytes]");
    r
}

/// `d` right-aligned in four columns (`{:>4}`).
pub open spec fn pad4(d: Seq<char>) -> Seq<char> {
    if d.len() >= 4 {
        d
    } else {
        Seq::new((4 - d.len()) as nat, |_i: int| ' ') + d
    }
}

/// Line `k` (counting from 0) shown with its number.
pub open spec fn numbered_line(k: int, line: Seq<char>) -> Seq<char> {
    pad4(dec((k + 1) as nat)) + "|"@ + line
}

/// The lines `lo..hi` of `ls`, numbered.
pub open spec fn numbered_range(ls: Seq<Seq<char>>, lo: int, hi: int) -> Seq<Seq<char>> {
    Seq::new((hi - lo) as nat, |x: int| numbered_line(lo + x, ls[lo + x]))
}

/// Lines `start_line` to `end_line` of `content` (counting from 1), numbered, one per line;
/// the start is at least 1 and the end at least the start.
pub open spec fn range_text(content: Seq<char>, start_line: usize, end_line: usize) -> Seq<char> {
    let ls = lines_seq(content);
    let start: int = if start_line >= 1 {
        start_line as int
    } else {
        1
    };
    let end: int = if end_line >= start {
        end_line as int
    } else {
        start
    };
    let hi: int = if end < ls.len() {
        end
    } else {
        ls.len() as int
    };
    if start - 1 < hi {
        join_seq(numbered_range(ls, start - 1, hi), "\n"@)
    } else {
        seq![]
    }
}

/// The numbered lines shown for `start_line..end_line`: for each line number `k` from the
/// start (at least 1) to the end (at least the start) that the text has, one after the other,
/// line `k` after its number, joined by newlines. From line 1 to the last line or past it,
/// that is every line of the text.
pub proof fn law_range_lines(content: Seq<char>, start_line: usize, end_line: usize)
    ensures
        ({
            let ls = lines_seq(content);
            let s: int = if start_line >= 1 {
                start_line as int
            } else {
                1
            };
            let e: int = if end_line >= s {
                end_line as int
            } else {
                s
            };
            let last: int = if e <= ls.len() {
                e
            } else {
                ls.len() as int
            };
            let n: int = if last >= s {
                last - s + 1
            } else {
                0
            };
            range_text(content, start_line, end_line) == join_seq(
                Seq::new(n as nat, |x: int| pad4(dec((s + x) as nat)) + "|"@ + ls[s - 1 + x]),
                "\n"@,
            )
        }),
        start_line <= 1 && end_line >= lines_seq(content).len() ==> range_text(
            content,
            start_line,
            end_line,
        ) == join_seq(
            Seq::new(
                lines_seq(content).len(),
                |k: int| pad4(dec((k + 1) as nat)) + "|"@ + lines_seq(content)[k],
            ),
            "\n"@,
        ),
{
    let ls = lines_seq(content);
    let s: int = if start_line >= 1 {
        start_line as int
    } else {
        1
    };
    let e: int = if end_line >= s {
        end_line as int
    } else {
        s
    };
    let last: int = if e <= ls.len() {
        e
    } else {
        ls.len() as int
    };
    let n: int = if last >= s {
        last - s + 1
    } else {
        0
    };
    let want = Seq::new(n as nat, |x: int| pad4(dec((s + x) as nat)) + "|"@ + ls[s - 1 + x]);
    if s - 1 < last {
        assert(numbered_range(ls, s - 1, last) =~= want);
    } else {
        assert(want =~= Seq::<Seq<char>>::empty());
    }
    if start_line <= 1 && end_line >= ls.len() {
        if ls.len() > 0 {
            assert(want =~= Seq::new(ls.len(), |k: int| pad4(dec((k + 1) as nat)) + "|"@ + ls[k]));
        } else {
            assert(Seq::new(ls.len(), |k: int| pad4(dec((k + 1) as nat)) + "|"@ + ls[k])
                =~= Seq::<Seq<char>>::empty());
        }
    }
}

/// `{:>4}` of a number.
fn pad_number(n: usize) -> (r: String)
    ensures
        r@ == pad4(dec(n as nat)),
{
    let d = usize_to_string(n);
    let len = chars_of(d.as_str()).len();
    if len >= 4 {
        return d;
    }
    let mut r = String::new();
    let mut k: usize = 0;
    while k < 4 - len
        invariant
            len == d@.len(),
            len < 4,
            k <= 4 - len,
            r@ == Seq::new(k as nat, |_i: int| ' '),
        decreases 4 - len - k,
    {
        push_char(&mut r, ' ');
        k += 1;
        assert(r@ =~= Seq::new(k as nat, |_i: int| ' '));
    }
    push_str(&mut r, d.as_str());
    r
}

/// Lines `start_line` to `end_line` of a file's text, numbered (`read_file` with a range).
pub fn number_lines(content: &str, start_line: usize, end_line: usize) -> (r: String)
    ensures
        r@ == range_text(content@, start_line, end_line),
{
    let ls = lines(content);
    let ghost lv = views(ls@);
    let start = if start_line >= 1 {
        start_line
    } else {
        1
    };
    let end = if end_line >= start {
        end_line
    } else {
        start
    };
    let hi = if end < ls.len() {
        end
    } else {
        ls.len()
    };
    let mut out: Vec<String> = Vec::new();
    if start - 1 < hi {
        let mut k = start - 1;
        while k < hi
            invariant
                start - 1 <= k <= hi <= ls@.len(),
                lv == views(ls@),
                views(out@) == numbered_range(lv, start - 1, k as int),
            decreases hi - k,
        {
            let mut line = pad_number(k + 1);
            push_str(&mut line, "|");
            push_str(&mut line, ls[k].as_str());
            proof {
                reveal_strlit("|");
                assert(lv[k as int] == ls@[k as int]@);
                assert(line@ == numbered_line(k as int, lv[k as int]));
            }
            let ghost before = out@;
            out.push(line);
            proof {
                assert(views(out@) =~= views(before).push(line@));
                assert(views(out@) =~= numbered_range(lv, start - 1, k + 1));
            }
            k += 1;
        }
        return join(&out, "\n");
    }
    String::new()
}

// ---------------------------------------------------------------------------
// Git commands
// ---------------------------------------------------------------------------

/// Scanning `s` from the left: the words ended by whitespace so far, and the word going on.
pub open spec fn split_words(s: Seq<char>) -> (Seq<Seq<char>>, Seq<char>)
    decreases s.len(),
{
    if s.len() == 0 {
        (seq![], seq![])
    } else {
        let (d, c) = split_words(s.drop_last());
        if is_ws(s.last()) {
            if c.len() > 0 {
                (d.push(c), seq![])
            } else {
                (d, seq![])
            }
        } else {
            (d, c.push(s.last()))
        }
    }
}

/// The words of `s` (`s.split_whitespace()`).
pub open spec fn words(s: Seq<char>) -> Seq<Seq<char>> {
    let (d, c) = split_words(s);
    if c.len() > 0 {
        d.push(c)
    } else {
        d
    }
}

/// The words of `s`, computed.
pub fn split_whitespace(s: &str) -> (r: Vec<String>)
    ensures
        views(r@) == words(s@),
{
    let v = chars_of(s);
    let mut out: Vec<String> = Vec::new();
    let mut cur = String::new();
    let mut i: usize = 0;
    while i < v.len()
        invariant
            i <= v.len(),
            v@ == s@,
            (views(out@), cur@) == split_words(v@.take(i as int)),
        decreases v.len() - i,
    {
        let c = v[i];
        proof {
            assert(v@.take(i + 1).drop_last() =~= v@.take(i as int));
            assert(v@.take(i + 1).last() == c);
        }
        if is_whitespace(c) {
            if !cur.as_str().is_empty() {
                let ghost before = out@;
                out.push(cur);
                proof {
                    assert(views(out@) =~= views(before).push(split_words(v@.take(i as int)).1));
                }
                cur = String::new();
            }
        } else {
            push_char(&mut cur, c);
        }
        i += 1;
    }
    proof {
        assert(v@.take(v@.len() as int) =~= v@);
    }
    if !cur.as_str().is_empty() {
        let ghost before = out@;
        out.push(cur);
        proof {
            assert(views(out@) =~= views(before).push(cur@));
        }
    }
    out
}

/// A `git add` argument that is refused: a flag other than `-A`, `-u` and `--all`.
pub open spec fn bad_add_arg(w: Seq<char>) -> bool {
    w.len() > 0 && w[0] == '-' && w != "."@ && w != "-A"@ && w != "-u"@ && w != "--all"@
}

/// The first refused argument among `ws`, if any.
pub open spec fn first_bad_arg(ws: Seq<Seq<char>>) -> Option<Seq<char>>
    decreases ws.len(),
{
    if ws.len() == 0 {
        None
    } else if bad_add_arg(ws[0]) {
        Some(ws[0])
    } else {
        first_bad_arg(ws.drop_first())
    }
}

/// The paths given to `git add`: trimmed, `.` when empty.
pub open spec fn add_paths(paths: Seq<char>) -> Seq<char> {
    if trim_seq(paths).len() == 0 {
        "."@
    } else {
        trim_seq(paths)
    }
}

/// The `git add` command for `paths` (trimmed; `.` when empty), refusing flags other than
/// `-A`, `-u` and `--all`.
pub fn git_add_command(paths: &str) -> (r: Result<String, ToolError>)
    ensures
        match first_bad_arg(words(add_paths(paths@))) {
            Some(w) => r matches Err(e) && e.message@ == "unsupported git add arg: "@ + w,
            None => r matches Ok(c) && c@ == "git add "@ + add_paths(paths@),
        },
{
    let t = trim(paths);
    let p = if t.as_str().is_empty() {
        owned(".")
    } else {
        t
    };
    proof {
        reveal_strlit(".");
    }
    let ws = split_whitespace(p.as_str());
    let ghost wv = views(ws@);
    proof {
        assert(wv.skip(0) =~= wv);
    }
    let mut i: usize = 0;
    while i < ws.len()
        invariant
            i <= ws@.len(),
            wv == views(ws@),
            wv == words(add_paths(paths@)),
            p@ == add_paths(paths@),
            first_bad_arg(wv) == first_bad_arg(wv.skip(i as int)),
        decreases ws@.len() - i,
    {
        let w = ws[i].as_str();
        let wc = chars_of(w);
        proof {
            assert(wv.skip(i as int)[0] == wv[i as int]);
            assert(wv.skip(i as int).drop_first() =~= wv.skip(i + 1));
            reveal_strlit("-A");
            reveal_strlit("-u");
            reveal_strlit("--all");
        }
        if wc.len() > 0 && wc[0] == '-' && !eq_str(w, ".") && !eq_str(w, "-A") && !eq_str(w, "-u")
            && !eq_str(w, "--all") {
            proof {
                assert(w@ == wv[i as int]);
                assert(bad_add_arg(wv[i as int]));
            }
            return Err(error_with("unsupported git add arg: ", w));
        }
        proof {
            assert(w@ == wv[i as int]);
            reveal_strlit(".");
            if wc@.len() > 0 {
                assert(w@[0] == wc@[0]);
            }
            assert(!bad_add_arg(wv[i as int]));
        }
        i += 1;
    }
    proof {
        assert(wv.skip(wv.len() as int) =~= Seq::<Seq<char>>::empty());
    }
    let mut c = owned("git add ");
    push_str(&mut c, p.as_str());
    Ok(c)
}

/// The `git commit` command for `message`, quoted for the shell; an empty message is refused.
pub fn git_commit_command(message: &str) -> (r: Result<String, ToolError>)
    ensures
        trim_seq(message@).len() == 0 ==> (r matches Err(e) && e.message@
            == "commit message required"@),
        trim_seq(message@).len() > 0 ==> (r matches Ok(c) && c@ == "git commit -m '"@
            + replace_all(message@, "'"@, "'\\''"@) + "'"@),
{
    let t = trim(message);
    if t.as_str().is_empty() {
        return Err(ToolError { message: owned("commit message required") });
    }
    proof {
        reveal_strlit("'");
    }
    let escaped = replace_all_str(message, "'", "'\\''");
    let mut c = owned("git commit -m '");
    push_str(&mut c, escaped.as_str());
    push_str(&mut c, "'");
    Ok(c)
}

// ---------------------------------------------------------------------------
// Listing, finding and searching
// ---------------------------------------------------------------------------

/// Directory names the tools never enter or list.
pub open spec fn skipped_name(n: Seq<char>) -> bool {
    ||| n == "target"@
    ||| n == ".git"@
    ||| n == "node_modules"@
    ||| n == "dist"@
    ||| n == ".vesper"@
    ||| n == ".lydia"@
    ||| n == "__pycache__"@
    ||| n == ".venv"@
    ||| n == "venv"@
}

/// Whether the tools pass over an entry of this name.
pub fn skip_name(name: &str) -> (r: bool)
    ensures
        r == skipped_name(name@),
{
    eq_str(name, "target") || eq_str(name, ".git") || eq_str(name, "node_modules") || eq_str(
        name,
        "dist",
    ) || eq_str(name, ".vesper") || eq_str(name, ".lydia") || eq_str(name, "__pycache__")
        || eq_str(name, ".venv") || eq_str(name, "venv")
}

/// The entries of a directory as listed: each entry `(name, is_dir)` not passed over, a
/// directory with `/` after its name.
pub open spec fn listed_names(entries: Seq<(Seq<char>, bool)>) -> Seq<Seq<char>>
    decreases entries.len(),
{
    if entries.len() == 0 {
        seq![]
    } else {
        let r = listed_names(entries.drop_last());
        let (n, d) = entries.last();
        if skipped_name(n) {
            r
        } else {
            r.push(
                if d {
                    n + "/"@
                } else {
                    n
                },
            )
        }
    }
}

/// The entries of a list, as values.
pub open spec fn entry_views(e: Seq<(String, bool)>) -> Seq<(Seq<char>, bool)> {
    e.map_values(|p: (String, bool)| (p.0@, p.1))
}

/// A directory's listing (`list_dir`): its entries `(name, is_dir)` not passed over, a
/// directory marked with `/`, in order.
pub fn dir_listing(entries: &Vec<(String, bool)>) -> (r: Vec<String>)
    ensures
        crate::order::texts_sorted(views(r@)),
        views(r@).to_multiset() == listed_names(entry_views(entries@)).to_multiset(),
{
    let ghost ev = entry_views(entries@);
    let mut names: Vec<String> = Vec::new();
    let mut i: usize = 0;
    while i < entries.len()
        invariant
            i <= entries@.len(),
            ev == entry_views(entries@),
            views(names@) == listed_names(ev.take(i as int)),
        decreases entries@.len() - i,
    {
        proof {
            assert(ev.take(i + 1).drop_last() =~= ev.take(i as int));
            assert(ev.take(i + 1).last() == ev[i as int]);
        }
        let name = entries[i].0.as_str();
        if !skip_name(name) {
            let mut n = owned(name);
            if entries[i].1 {
                push_str(&mut n, "/");
            }
            let ghost before = names@;
            names.push(n);
            proof {
                assert(views(names@) =~= views(before).push(n@));
            }
        }
        i += 1;
    }
    proof {
        assert(ev.take(ev.len() as int) =~= ev);
    }
    crate::order::sort_texts(names)
}

/// A list of results, or `(no matches)` when there is none.
pub open spec fn results_text(out: Seq<Seq<char>>) -> Seq<char> {
    if out.len() == 0 {
        "(no matches)"@
    } else {
        join_seq(out, "\n"@)
    }
}

/// The results of a search as one text.
pub fn results_or_none(out: &Vec<String>) -> (r: String)
    ensures
        r@ == results_text(views(out@)),
{
    if out.len() == 0 {
        owned("(no matches)")
    } else {
        join(out, "\n")
    }
}

/// A search collects at most this many file names.
pub const MAX_FIND_RESULTS: usize = 200;

/// A search collects at most this many matching lines.
pub const MAX_GREP_MATCHES: usize = 80;

/// What to do with an entry met while walking the tree.
#[derive(Debug, PartialEq, Eq, Structural)]
pub enum WalkStep {
    /// The results are full: the note was added; stop.
    Stop,
    /// Pass over the entry.
    Skip,
    /// Walk into the directory.
    Descend,
    /// Look at the file.
    Visit,
}

/// The step of a walk at an entry: stop (adding `note`) once `out` holds `limit` results,
/// pass over a skipped name, walk into a directory, or look at a file.
pub fn walk_step(out: &mut Vec<String>, limit: usize, note: &str, name: &str, is_dir: bool) -> (r: WalkStep)
    ensures
        old(out)@.len() >= limit ==> r == WalkStep::Stop && views(final(out)@) == views(
            old(out)@,
        ).push(note@),
        old(out)@.len() < limit ==> final(out)@ == old(out)@ && r == if skipped_name(name@) {
            WalkStep::Skip
        } else if is_dir {
            WalkStep::Descend
        } else {
            WalkStep::Visit
        },
{
    if out.len() >= limit {
        let ghost before = out@;
        out.push(owned(note));
        proof {
            assert(views(out@) =~= views(before).push(note@));
        }
        return WalkStep::Stop;
    }
    if skip_name(name) {
        WalkStep::Skip
    } else if is_dir {
        WalkStep::Descend
    } else {
        WalkStep::Visit
    }
}

/// The search `pat` (already lowercase) against the lowercase path `text`, where `pat` holds
/// `*`: the pieces between stars occur in order (see `globish`).
pub open spec fn glob_from(rest: Seq<char>, parts: Seq<Seq<char>>, i: int) -> bool
    decreases parts.len() - i,
{
    if i >= parts.len() || i < 1 {
        true
    } else if parts[i].len() == 0 {
        glob_from(rest, parts, i + 1)
    } else if i == parts.len() - 1 {
        ends_with_seq(rest, parts[i]) || contains_seq(rest, parts[i])
    } else {
        let k = first_occ(rest, parts[i]);
        if k < 0 {
            false
        } else {
            glob_from(rest.skip(k + parts[i].len()), parts, i + 1)
        }
    }
}

/// A small `*` matcher: `pat` must hold a star; the pieces between stars must occur in
/// `text` in order, the last one anywhere in what is left.
pub open spec fn glob_match(text: Seq<char>, pat: Seq<char>) -> bool {
    if !pat.contains('*') {
        false
    } else {
        let parts = pieces(pat, '*');
        let p0 = parts[0];
        if p0.len() > 0 {
            let k = first_occ(text, p0);
            if k < 0 {
                false
            } else {
                glob_from(text.skip(k + p0.len()), parts, 1)
            }
        } else {
            glob_from(text, parts, 1)
        }
    }
}

/// `s[k..]` as a `String`, `k` counted in characters.
fn skip_chars(s: &str, k: usize) -> (r: String)
    requires
        k <= s@.len(),
    ensures
        r@ == s@.skip(k as int),
{
    let v = chars_of(s);
    let r = string_of_range(&v, k, v.len());
    assert(v@.subrange(k as int, v@.len() as int) =~= s@.skip(k as int));
    r
}

/// What follows the first occurrence of `p` in `s`, if `p` occurs.
fn after_first(s: &str, p: &str) -> (r: Option<String>)
    ensures
        match r {
            Some(t) => first_occ(s@, p@) >= 0 && t@ == s@.skip(first_occ(s@, p@) + p@.len()),
            None => first_occ(s@, p@) < 0,
        },
{
    let sv = chars_of(s);
    let pv = chars_of(p);
    proof {
        crate::text::lemma_first_occ(s@, p@);
    }
    match crate::text::find_first(&sv, &pv) {
        Some(i) => {
            let n = sv.len();
            let m = pv.len();
            assert(occurs_at(sv@, pv@, i as int));
            let r = string_of_range(&sv, i + m, n);
            assert(sv@.subrange(i + pv@.len(), sv@.len() as int) =~= s@.skip(i + p@.len()));
            Some(r)
        },
        None => None,
    }
}

/// The small `*` matcher of file search.
pub fn globish(text: &str, pat: &str) -> (r: bool)
    ensures
        r == glob_match(text@, pat@),
{
    let pc = chars_of(pat);
    let mut has_star = false;
    let mut q: usize = 0;
    while q < pc.len()
        invariant
            q <= pc.len(),
            pc@ == pat@,
            has_star <==> exists|m: int| 0 <= m < q && pc@[m] == '*',
        decreases pc.len() - q,
    {
        if pc[q] == '*' {
            has_star = true;
        }
        q += 1;
    }
    if !has_star {
        return false;
    }
    proof {
        let m = choose|m: int| 0 <= m < pc@.len() && pc@[m] == '*';
        assert(pat@.contains('*'));
    }
    let parts = split_on(pat, '*');
    let ghost pv = views(parts@);
    proof {
        assert(pv.len() >= 1);
    }
    let mut rest = owned(text);
    let p0 = parts[0].as_str();
    if !p0.is_empty() {
        match after_first(rest.as_str(), p0) {
            Some(t) => {
                rest = t;
            },
            None => {
                return false;
            },
        }
    }
    let mut i: usize = 1;
    while i < parts.len()
        invariant
            1 <= i <= parts@.len(),
            pv == views(parts@),
            pv == pieces(pat@, '*'),
            glob_match(text@, pat@) == glob_from(rest@, pv, i as int),
        decreases parts@.len() - i,
    {
        let part = parts[i].as_str();
        proof {
            assert(part@ == pv[i as int]);
        }
        if part.is_empty() {
            i += 1;
            continue;
        }
        if i == parts.len() - 1 {
            return ends_with(rest.as_str(), part) || contains(rest.as_str(), part);
        }
        match after_first(rest.as_str(), part) {
            Some(t) => {
                rest = t;
            },
            None => {
                return false;
            },
        }
        i += 1;
    }
    true
}

/// Whether a file is a result of the search `pattern`: with `*.ext` its name must end with
/// `.ext`; else its name or path must hold the pattern, or match it as a `*` pattern (all
/// compared in lowercase).
pub open spec fn found_by(name: Seq<char>, rel: Seq<char>, pattern: Seq<char>) -> bool {
    let pat = spec_to_lowercase(pattern);
    let name_l = spec_to_lowercase(name);
    let rel_l = spec_to_lowercase(rel);
    if starts_with_seq(pat, "*."@) {
        ends_with_seq(name_l, "."@ + pat.skip(2))
    } else {
        contains_seq(name_l, pat) || contains_seq(rel_l, pat) || glob_match(rel_l, pat)
    }
}

/// Whether a file is found depends on its name, its path and the pattern only through their
/// lowercase forms: the search ignores case.
pub proof fn law_found_by_ignores_case(
    n1: Seq<char>,
    r1: Seq<char>,
    p1: Seq<char>,
    n2: Seq<char>,
    r2: Seq<char>,
    p2: Seq<char>,
)
    requires
        spec_to_lowercase(n1) == spec_to_lowercase(n2),
        spec_to_lowercase(r1) == spec_to_lowercase(r2),
        spec_to_lowercase(p1) == spec_to_lowercase(p2),
    ensures
        found_by(n1, r1, p1) == found_by(n2, r2, p2),
{
}

/// A file whose name is the pattern is found, in whatever case both are written.
pub proof fn law_found_by_own_name(name: Seq<char>, rel: Seq<char>)
    ensures
        found_by(name, rel, name),
{
    let l = spec_to_lowercase(name);
    reveal_strlit("*.");
    reveal_strlit(".");
    if starts_with_seq(l, "*."@) {
        assert(l[1] == "*."@[1]);
        assert(l.skip(l.len() - ("."@ + l.skip(2)).len()) =~= "."@ + l.skip(2));
    } else {
        assert(l.subrange(0, l.len() as int) =~= l);
        assert(occurs_at(l, l, 0));
    }
}

/// Whether the file `name` at path `rel` is a result of the search `pattern`.
pub fn find_match(name: &str, rel: &str, pattern: &str) -> (r: bool)
    ensures
        r == found_by(name@, rel@, pattern@),
{
    let pat = to_lowercase(pattern);
    let name_l = to_lowercase(name);
    let rel_l = to_lowercase(rel);
    proof {
        reveal_strlit("*.");
        reveal_strlit(".");
    }
    if starts_with(pat.as_str(), "*.") {
        let ext = skip_chars(pat.as_str(), 2);
        let mut suffix = owned(".");
        push_str(&mut suffix, ext.as_str());
        ends_with(name_l.as_str(), suffix.as_str())
    } else {
        contains(name_l.as_str(), pat.as_str()) || contains(rel_l.as_str(), pat.as_str())
            || globish(rel_l.as_str(), pat.as_str())
    }
}

// ---------------------------------------------------------------------------
// Searching file text with a regular expression
// ---------------------------------------------------------------------------

/// `regex::Regex`, a compiled regular expression, as an opaque value.
#[verifier::external_type_specification]
#[verifier::external_body]
pub struct ExRegex(regex::Regex);

/// Why the regular expression `pattern`, made case-insensitive, does not compile (the
/// `regex` crate's error message), or `None` where it compiles.
pub uninterp spec fn regex_build_error(pattern: Seq<char>) -> Option<Seq<char>>;

/// Whether the case-insensitive regular expression `pattern` matches somewhere in `line`.
pub uninterp spec fn regex_finds(pattern: Seq<char>, line: Seq<char>) -> bool;

/// Calls `regex::RegexBuilder::new(pattern)`, `.case_insensitive(true)` and `.build()`: the
/// build fails exactly when `regex_build_error` names a message for the pattern, and then
/// with that message (the error's `Display`). What compiles is fixed by the pattern alone.
#[verifier::external_body]
fn build_case_insensitive(pattern: &str) -> (r: Result<regex::Regex, String>)
    ensures
        match r {
            Ok(_) => regex_build_error(pattern@) is None,
            Err(m) => regex_build_error(pattern@) == Some(m@),
        },
{
    match regex::RegexBuilder::new(pattern).case_insensitive(true).build() {
        Ok(re) => Ok(re),
        Err(e) => Err(e.to_string()),
    }
}

/// A compiled search: the pattern, and the case-insensitive regex built from it (only
/// `LineMatcher::compile` makes one).
pub struct LineMatcher {
    pattern: String,
    re: regex::Regex,
}

/// Calls `regex::Regex::is_match` on the matcher's regex, which `compile` built from the
/// matcher's pattern, made case-insensitive: the result is `regex_finds` of that pattern and
/// the line.
#[verifier::external_body]
fn regex_is_match(m: &LineMatcher, line: &str) -> (r: bool)
    ensures
        r == regex_finds(m.pattern(), line@),
{
    m.re.is_match(line)
}

impl LineMatcher {
    /// The pattern it was compiled from.
    pub closed spec fn pattern(&self) -> Seq<char> {
        self.pattern@
    }

    /// Compiles `pattern` as a case-insensitive regular expression.
    pub fn compile(pattern: &str) -> (r: Result<LineMatcher, ToolError>)
        ensures
            match r {
                Ok(m) => regex_build_error(pattern@) is None && m.pattern() == pattern@,
                Err(e) => regex_build_error(pattern@) matches Some(msg) && e.message@
                    == "invalid regex: "@ + pattern@ + ": "@ + msg,
            },
    {
        match build_case_insensitive(pattern) {
            Ok(re) => Ok(LineMatcher { pattern: owned(pattern), re }),
            Err(m) => {
                let mut msg = owned("invalid regex: ");
                push_str(&mut msg, pattern);
                push_str(&mut msg, ": ");
                push_str(&mut msg, m.as_str());
                Err(ToolError { message: msg })
            },
        }
    }

    /// Whether the pattern matches somewhere in `line`.
    pub fn is_match(&self, line: &str) -> (r: bool)
        ensures
            r == regex_finds(self.pattern(), line@),
    {
        regex_is_match(self, line)
    }
}

/// A matching line as reported: `path:number:line`, the line's end trimmed.
pub open spec fn hit_text(rel: Seq<char>, k: int, line: Seq<char>) -> Seq<char> {
    rel + ":"@ + dec((k + 1) as nat) + ":"@ + trim_end_seq(line)
}

/// The matching lines among the first `n` lines of `ls`, as reported.
pub open spec fn hits(pattern: Seq<char>, rel: Seq<char>, ls: Seq<Seq<char>>, n: int) -> Seq<Seq<char>>
    decreases n,
{
    if n <= 0 {
        seq![]
    } else {
        let r = hits(pattern, rel, ls, n - 1);
        if regex_finds(pattern, ls[n - 1]) {
            r.push(hit_text(rel, n - 1, ls[n - 1]))
        } else {
            r
        }
    }
}

/// Adds the lines of file `rel` that the search matches to `out`, stopping once `out`
/// holds 80 results.
pub fn grep_file(out: &mut Vec<String>, rel: &str, content: &str, m: &LineMatcher)
    requires
        old(out)@.len() < 80,
    ensures
        ({
            let found = hits(m.pattern(), rel@, lines_seq(content@), lines_seq(content@).len() as int);
            let room = 80 - old(out)@.len();
            views(final(out)@) == views(old(out)@) + found.take(
                if found.len() < room {
                    found.len() as int
                } else {
                    room
                },
            )
        }),
{
    let ls = lines(content);
    let ghost lv = views(ls@);
    let ghost o0 = views(out@);
    let ghost room = 80 - out@.len();
    let mut i: usize = 0;
    while i < ls.len()
        invariant
            i <= ls@.len(),
            lv == views(ls@),
            lv == lines_seq(content@),
            room == 80 - o0.len(),
            o0 == views(old(out)@),
            0 < room,
            views(out@) == o0 + hits(m.pattern(), rel@, lv, i as int),
            out@.len() < 80,
        decreases ls@.len() - i,
    {
        let line = ls[i].as_str();
        if m.is_match(line) {
            let mut h = owned(rel);
            push_str(&mut h, ":");
            let d = crate::text::succ_to_string(i);
            push_str(&mut h, d.as_str());
            push_str(&mut h, ":");
            let t = trim_end(line);
            push_str(&mut h, t.as_str());
            let ghost before = out@;
            out.push(h);
            proof {
                assert(line@ == lv[i as int]);
                assert(views(out@) =~= views(before).push(h@));
                assert(views(out@) =~= o0 + hits(m.pattern(), rel@, lv, i + 1));
            }
            if out.len() >= 80 {
                proof {
                    lemma_hits_grow(m.pattern(), rel@, lv, i + 1, lv.len() as int);
                    let found = hits(m.pattern(), rel@, lv, lv.len() as int);
                    assert(hits(m.pattern(), rel@, lv, i + 1).len() == room);
                    assert(found.take(room) =~= hits(m.pattern(), rel@, lv, i + 1));
                }
                return;
            }
        } else {
            proof {
                assert(line@ == lv[i as int]);
            }
        }
        i += 1;
    }
    proof {
        let found = hits(m.pattern(), rel@, lv, lv.len() as int);
        assert(found.take(found.len() as int) =~= found);
    }
}

/// The hits of a longer prefix extend those of a shorter one.
proof fn lemma_hits_grow(pattern: Seq<char>, rel: Seq<char>, ls: Seq<Seq<char>>, m: int, n: int)
    requires
        0 <= m <= n,
    ensures
        hits(pattern, rel, ls, m).len() <= hits(pattern, rel, ls, n).len(),
        hits(pattern, rel, ls, n).take(hits(pattern, rel, ls, m).len() as int) == hits(
            pattern,
            rel,
            ls,
            m,
        ),
    decreases n - m,
{
    if m < n {
        lemma_hits_grow(pattern, rel, ls, m, n - 1);
        let a = hits(pattern, rel, ls, n - 1);
        let b = hits(pattern, rel, ls, n);
        let k = hits(pattern, rel, ls, m).len() as int;
        assert(b.take(k) =~= a.take(k));
    } else {
        let a = hits(pattern, rel, ls, n);
        assert(a.take(a.len() as int) =~= a);
    }
}

} // verus!
