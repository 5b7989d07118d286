//! A small line diff in unified format, shown before an edit is approved.
//!
//! The diff walks the old and the new lines side by side. Equal lines are skipped; at a
//! mismatch it collects a hunk, looking up to six lines ahead on either side for a point where
//! the two agree again, and giving up on a side after 41 lines. The text stops after 120 lines.
use vstd::prelude::*;

use crate::text::{
    dec, eq_str, lemma_split_no_newline, lines, lines_seq, owned, push_str, split_nl, strip_cr,
    succ_to_string,
    usize_to_string, views,
};

verus! {

/// A hunk of a diff: from old line `old_start` (counting from 0) the old lines `del` give way
/// to the new lines `add`, which start at new line `new_start`.
pub struct Hunk {
    pub old_start: int,
    pub del: Seq<Seq<char>>,
    pub new_start: int,
    pub add: Seq<Seq<char>>,
}

/// Looking ahead from a mismatch of old line `i` and new line `j`: the first `look` (up to 6)
/// at which old line `i + look` equals new line `j` (the old lines between are dropped), or
/// else old line `i` equals new line `j + look` (the new lines between are added).
pub open spec fn resync(b: Seq<Seq<char>>, a: Seq<Seq<char>>, i: int, j: int, look: int) -> Option<
    (int, int),
>
    decreases 7 - look,
{
    if look > 6 {
        None
    } else if i + look < b.len() && b[i + look] == a[j] {
        Some((i + look, j))
    } else if j + look < a.len() && i < b.len() && b[i] == a[j + look] {
        Some((i, j + look))
    } else {
        resync(b, a, i, j, look + 1)
    }
}

/// The old side of a hunk that starts at old line `start`: from old line `i`, while it does
/// not match new line `j`, resync if possible, else drop it, giving up after 41 lines. The
/// result is where both sides stand after it.
pub open spec fn del_scan(b: Seq<Seq<char>>, a: Seq<Seq<char>>, start: int, i: int, j: int) -> (
    int,
    int,
)
    decreases b.len() - i,
{
    if 0 <= i < b.len() && (j >= a.len() || b[i] != a[j]) {
        match if j < a.len() {
            resync(b, a, i, j, 1)
        } else {
            None
        } {
            Some(p) => p,
            None => if i + 1 - start > 40 {
                (i + 1, j)
            } else {
                del_scan(b, a, start, i + 1, j)
            },
        }
    } else {
        (i, j)
    }
}

/// Looking ahead on the new side: the first `look` (up to 6) at which new line `j + look`
/// equals old line `i`.
pub open spec fn add_resync(b: Seq<Seq<char>>, a: Seq<Seq<char>>, i: int, j: int, look: int) -> Option<int>
    decreases 7 - look,
{
    if look > 6 {
        None
    } else if j + look < a.len() && a[j + look] == b[i] {
        Some(j + look)
    } else {
        add_resync(b, a, i, j, look + 1)
    }
}

/// The new side of a hunk that starts at new line `start`: from new line `j`, while it does
/// not match old line `i`, resync if possible, else add it, giving up after 41 lines. The
/// result is where the new side stands after it.
pub open spec fn add_scan(b: Seq<Seq<char>>, a: Seq<Seq<char>>, start: int, i: int, j: int) -> int
    decreases a.len() - j,
{
    if 0 <= j < a.len() && (i >= b.len() || b[i] != a[j]) {
        match if 0 <= i < b.len() {
            add_resync(b, a, i, j, 1)
        } else {
            None
        } {
            Some(k) => k,
            None => if j + 1 - start > 40 {
                j + 1
            } else {
                add_scan(b, a, start, i, j + 1)
            },
        }
    } else {
        j
    }
}

/// Where both sides stand after the hunk that starts at old line `i` and new line `j`.
pub open spec fn hunk_end(b: Seq<Seq<char>>, a: Seq<Seq<char>>, i: int, j: int) -> (int, int) {
    let (x, y) = del_scan(b, a, i, i, j);
    (x, add_scan(b, a, j, x, y))
}

proof fn lemma_resync(b: Seq<Seq<char>>, a: Seq<Seq<char>>, i: int, j: int, look: int)
    requires
        0 <= i < b.len(),
        0 <= j < a.len(),
        1 <= look,
    ensures
        match resync(b, a, i, j, look) {
            Some((x, y)) => (i < x < b.len() && y == j && b[x] == a[j]) || (x == i && j < y
                < a.len() && b[i] == a[y]),
            None => true,
        },
    decreases 7 - look,
{
    if look <= 6 {
        lemma_resync(b, a, i, j, look + 1);
    }
}

proof fn lemma_add_resync(b: Seq<Seq<char>>, a: Seq<Seq<char>>, i: int, j: int, look: int)
    requires
        0 <= i < b.len(),
        0 <= j < a.len(),
        1 <= look,
    ensures
        match add_resync(b, a, i, j, look) {
            Some(k) => j < k < a.len() && a[k] == b[i],
            None => true,
        },
    decreases 7 - look,
{
    if look <= 6 {
        lemma_add_resync(b, a, i, j, look + 1);
    }
}

proof fn lemma_del_scan(b: Seq<Seq<char>>, a: Seq<Seq<char>>, start: int, i: int, j: int)
    requires
        0 <= start <= i <= b.len(),
        0 <= j <= a.len(),
    ensures
        ({
            let (x, y) = del_scan(b, a, start, i, j);
            &&& i <= x <= b.len()
            &&& j <= y <= a.len()
            &&& (i < b.len() && (j >= a.len() || b[i] != a[j])) ==> (x > i || y > j)
        }),
    decreases b.len() - i,
{
    if 0 <= i < b.len() && (j >= a.len() || b[i] != a[j]) {
        if j < a.len() {
            lemma_resync(b, a, i, j, 1);
        }
        lemma_del_scan(b, a, start, i + 1, j);
    }
}

proof fn lemma_add_scan(b: Seq<Seq<char>>, a: Seq<Seq<char>>, start: int, i: int, j: int)
    requires
        0 <= start <= j <= a.len(),
        0 <= i <= b.len(),
    ensures
        j <= add_scan(b, a, start, i, j) <= a.len(),
        (j < a.len() && (i >= b.len() || b[i] != a[j])) ==> add_scan(b, a, start, i, j) > j,
    decreases a.len() - j,
{
    if 0 <= j < a.len() && (i >= b.len() || b[i] != a[j]) {
        if i < b.len() {
            lemma_add_resync(b, a, i, j, 1);
        }
        lemma_add_scan(b, a, start, i, j + 1);
    }
}

/// A hunk ends within both texts and moves at least one of the two sides on.
pub proof fn lemma_hunk_end(b: Seq<Seq<char>>, a: Seq<Seq<char>>, i: int, j: int)
    requires
        0 <= i <= b.len(),
        0 <= j <= a.len(),
        i < b.len() || j < a.len(),
        !(i < b.len() && j < a.len() && b[i] == a[j]),
    ensures
        i <= hunk_end(b, a, i, j).0 <= b.len(),
        j <= hunk_end(b, a, i, j).1 <= a.len(),
        hunk_end(b, a, i, j).0 + hunk_end(b, a, i, j).1 > i + j,
{
    lemma_del_scan(b, a, i, i, j);
    let (x, y) = del_scan(b, a, i, i, j);
    lemma_add_scan(b, a, j, x, y);
    if !(i < b.len() && (j >= a.len() || b[i] != a[j])) {
        assert(x == i && y == j);
    }
}

/// The hunks of the diff of old lines `b` and new lines `a`, from old line `i` and new line
/// `j` on.
pub open spec fn walk(b: Seq<Seq<char>>, a: Seq<Seq<char>>, i: int, j: int) -> Seq<Hunk>
    decreases (b.len() - i) + (a.len() - j),
{
    if !(0 <= i <= b.len() && 0 <= j <= a.len()) || (i == b.len() && j == a.len()) {
        seq![]
    } else if i < b.len() && j < a.len() && b[i] == a[j] {
        walk(b, a, i + 1, j + 1)
    } else {
        proof {
            lemma_hunk_end(b, a, i, j);
        }
        let (x, y) = hunk_end(b, a, i, j);
        seq![Hunk { old_start: i, del: b.subrange(i, x), new_start: j, add: a.subrange(j, y) }]
            + walk(b, a, x, y)
    }
}

/// The lines `ls`, each after the mark `m` and before a newline.
pub open spec fn marked(m: char, ls: Seq<Seq<char>>) -> Seq<char>
    decreases ls.len(),
{
    if ls.len() == 0 {
        seq![]
    } else {
        marked(m, ls.drop_last()) + seq![m] + ls.last() + "\n"@
    }
}

/// `n`, but at least 1.
pub open spec fn at_least_one(n: nat) -> nat {
    if n == 0 {
        1
    } else {
        n
    }
}

/// A hunk as text: `@@ -old,len +new,len @@`, counting lines from 1, then its old lines
/// after `-` and its new lines after `+`.
pub open spec fn hunk_text(h: Hunk) -> Seq<char> {
    "@@ -"@ + dec((h.old_start + 1) as nat) + ","@ + dec(at_least_one(h.del.len())) + " +"@ + dec(
        (h.new_start + 1) as nat,
    ) + ","@ + dec(at_least_one(h.add.len())) + " @@\n"@ + marked('-', h.del) + marked(
        '+',
        h.add,
    )
}

/// The note that ends a diff cut short.
pub open spec fn truncated_note() -> Seq<char> {
    "...[diff truncated]\n"@
}

/// The note of a diff without hunks.
pub open spec fn no_change_note() -> Seq<char> {
    "(no line changes detected, or binary/identical)\n"@
}

/// `out` followed by the hunks `hs`, stopping with a note once the text has more than 120
/// lines.
pub open spec fn render(out: Seq<char>, hs: Seq<Hunk>) -> Seq<char>
    decreases hs.len(),
{
    if hs.len() == 0 {
        out
    } else {
        let o = out + hunk_text(hs[0]);
        if lines_seq(o).len() > 120 {
            o + truncated_note()
        } else {
            render(o, hs.drop_first())
        }
    }
}

/// The two header lines of a diff of `path`.
pub open spec fn diff_header(path: Seq<char>) -> Seq<char> {
    "--- a/"@ + path + "\n+++ b/"@ + path + "\n"@
}

/// The hunks of the diff of two texts.
pub open spec fn diff_hunks(before: Seq<char>, after: Seq<char>) -> Seq<Hunk> {
    walk(lines_seq(before), lines_seq(after), 0, 0)
}

/// The unified diff of `before` and `after` for `path`: the header, the hunks (cut after 120
/// lines), and a note when no hunk was shown.
pub open spec fn diff_text(path: Seq<char>, before: Seq<char>, after: Seq<char>) -> Seq<char> {
    let o = render(diff_header(path), diff_hunks(before, after));
    if lines_seq(o).len() <= 2 {
        o + no_change_note()
    } else {
        o
    }
}

/// Whether old line `i` equals new line `j`.
fn same_line(b: &Vec<String>, i: usize, a: &Vec<String>, j: usize) -> (r: bool)
    requires
        i < b@.len(),
        j < a@.len(),
    ensures
        r == (views(b@)[i as int] == views(a@)[j as int]),
{
    eq_str(b[i].as_str(), a[j].as_str())
}

/// `resync` from `look` = 1, computed.
fn find_resync(b: &Vec<String>, a: &Vec<String>, i: usize, j: usize) -> (r: Option<(usize, usize)>)
    requires
        i < b@.len(),
        j < a@.len(),
    ensures
        match r {
            Some((x, y)) => resync(views(b@), views(a@), i as int, j as int, 1) == Some(
                (x as int, y as int),
            ),
            None => resync(views(b@), views(a@), i as int, j as int, 1) is None,
        },
{
    let ghost bv = views(b@);
    let ghost av = views(a@);
    let mut look: usize = 1;
    while look <= 6
        invariant
            1 <= look <= 7,
            i < b@.len(),
            j < a@.len(),
            bv == views(b@),
            av == views(a@),
            resync(bv, av, i as int, j as int, 1) == resync(bv, av, i as int, j as int, look as int),
        decreases 7 - look,
    {
        if look < b.len() - i && same_line(b, i + look, a, j) {
            return Some((i + look, j));
        }
        if look < a.len() - j && i < b.len() && same_line(b, i, a, j + look) {
            return Some((i, j + look));
        }
        look += 1;
    }
    None
}

/// `add_resync` from `look` = 1, computed.
fn find_add_resync(b: &Vec<String>, a: &Vec<String>, i: usize, j: usize) -> (r: Option<usize>)
    requires
        i < b@.len(),
        j < a@.len(),
    ensures
        match r {
            Some(k) => add_resync(views(b@), views(a@), i as int, j as int, 1) == Some(k as int),
            None => add_resync(views(b@), views(a@), i as int, j as int, 1) is None,
        },
{
    let ghost bv = views(b@);
    let ghost av = views(a@);
    let mut look: usize = 1;
    while look <= 6
        invariant
            1 <= look <= 7,
            i < b@.len(),
            j < a@.len(),
            bv == views(b@),
            av == views(a@),
            add_resync(bv, av, i as int, j as int, 1) == add_resync(
                bv,
                av,
                i as int,
                j as int,
                look as int,
            ),
        decreases 7 - look,
    {
        if look < a.len() - j && same_line(b, i, a, j + look) {
            return Some(j + look);
        }
        look += 1;
    }
    None
}

/// `del_scan`, computed.
fn scan_del(b: &Vec<String>, a: &Vec<String>, start: usize, i: usize, j: usize) -> (r: (
    usize,
    usize,
))
    requires
        start <= i <= b@.len(),
        j <= a@.len(),
    ensures
        (r.0 as int, r.1 as int) == del_scan(
            views(b@),
            views(a@),
            start as int,
            i as int,
            j as int,
        ),
{
    let ghost bv = views(b@);
    let ghost av = views(a@);
    let ghost goal = del_scan(bv, av, start as int, i as int, j as int);
    let mut x = i;
    while x < b.len() && (j >= a.len() || !same_line(b, x, a, j))
        invariant
            start <= x <= b@.len(),
            j <= a@.len(),
            bv == views(b@),
            av == views(a@),
            goal == del_scan(bv, av, start as int, x as int, j as int),
            goal == del_scan(bv, av, start as int, i as int, j as int),
        decreases b@.len() - x,
    {
        if j < a.len() {
            match find_resync(b, a, x, j) {
                Some(p) => {
                    assert(goal == (p.0 as int, p.1 as int));
                    return p;
                },
                None => {},
            }
        }
        x += 1;
        if x - start > 40 {
            assert(goal == (x as int, j as int));
            return (x, j);
        }
    }
    (x, j)
}

/// `add_scan`, computed; `hunk_start` is where the hunk started on the old side.
fn scan_add(
    b: &Vec<String>,
    a: &Vec<String>,
    hunk_start: usize,
    start: usize,
    i: usize,
    j: usize,
) -> (r: usize)
    requires
        hunk_start <= i <= b@.len(),
        start <= j <= a@.len(),
    ensures
        r as int == add_scan(views(b@), views(a@), start as int, i as int, j as int),
{
    let ghost bv = views(b@);
    let ghost av = views(a@);
    let ghost goal = add_scan(bv, av, start as int, i as int, j as int);
    let mut y = j;
    while y < a.len() && (hunk_start >= b.len() || i >= b.len() || !same_line(b, i, a, y))
        invariant
            hunk_start <= i <= b@.len(),
            start <= y <= a@.len(),
            bv == views(b@),
            av == views(a@),
            goal == add_scan(bv, av, start as int, i as int, y as int),
            goal == add_scan(bv, av, start as int, i as int, j as int),
        decreases a@.len() - y,
    {
        if i < b.len() {
            match find_add_resync(b, a, i, y) {
                Some(k) => {
                    return k;
                },
                None => {},
            }
        }
        y += 1;
        if y - start > 40 {
            return y;
        }
    }
    y
}

/// Appends the lines `v[lo..hi]` to `out`, each after `m` and before a newline.
fn push_marked(out: &mut String, m: &str, v: &Vec<String>, lo: usize, hi: usize)
    requires
        lo <= hi <= v@.len(),
        m@.len() == 1,
    ensures
        final(out)@ == old(out)@ + marked(m@[0], views(v@).subrange(lo as int, hi as int)),
{
    let ghost vv = views(v@);
    let mut k = lo;
    while k < hi
        invariant
            lo <= k <= hi <= v@.len(),
            vv == views(v@),
            m@.len() == 1,
            out@ == old(out)@ + marked(m@[0], vv.subrange(lo as int, k as int)),
        decreases hi - k,
    {
        let ghost before = out@;
        push_str(out, m);
        push_str(out, v[k].as_str());
        push_str(out, "\n");
        proof {
            let s = vv.subrange(lo as int, k + 1);
            assert(s.drop_last() =~= vv.subrange(lo as int, k as int));
            assert(s.last() == v@[k as int]@);
            assert(m@ =~= seq![m@[0]]);
            assert(out@ =~= old(out)@ + marked(m@[0], s));
        }
        k += 1;
    }
}

/// Appends the hunk that drops `b[i0..i1]` at `i0` and adds `a[j0..j1]` at `j0`.
fn push_hunk(out: &mut String, b: &Vec<String>, a: &Vec<String>, i0: usize, i1: usize, j0: usize, j1: usize)
    requires
        i0 <= i1 <= b@.len(),
        j0 <= j1 <= a@.len(),
    ensures
        final(out)@ == old(out)@ + hunk_text(
            Hunk {
                old_start: i0 as int,
                del: views(b@).subrange(i0 as int, i1 as int),
                new_start: j0 as int,
                add: views(a@).subrange(j0 as int, j1 as int),
            },
        ),
{
    let dl = i1 - i0;
    let al = j1 - j0;
    push_str(out, "@@ -");
    let s = succ_to_string(i0);
    push_str(out, s.as_str());
    push_str(out, ",");
    let s = usize_to_string(if dl > 1 { dl } else { 1 });
    push_str(out, s.as_str());
    push_str(out, " +");
    let s = succ_to_string(j0);
    push_str(out, s.as_str());
    push_str(out, ",");
    let s = usize_to_string(if al > 1 { al } else { 1 });
    push_str(out, s.as_str());
    push_str(out, " @@\n");
    proof {
        reveal_strlit("-");
        reveal_strlit("+");
    }
    push_marked(out, "-", b, i0, i1);
    push_marked(out, "+", a, j0, j1);
    proof {
        assert(final(out)@ =~= old(out)@ + hunk_text(
            Hunk {
                old_start: i0 as int,
                del: views(b@).subrange(i0 as int, i1 as int),
                new_start: j0 as int,
                add: views(a@).subrange(j0 as int, j1 as int),
            },
        ));
    }
}

/// A minimal unified diff of two texts, line by line, for showing an edit before it is
/// approved: the header, hunks of dropped (`-`) and added (`+`) lines, cut after 120 lines,
/// or a note that no line changed.
pub fn unified_diff(path: &str, before: &str, after: &str) -> (r: String)
    ensures
        r@ == diff_text(path@, before@, after@),
{
    let b = lines(before);
    let a = lines(after);
    let ghost bv = views(b@);
    let ghost av = views(a@);
    let mut out = owned("--- a/");
    push_str(&mut out, path);
    push_str(&mut out, "\n+++ b/");
    push_str(&mut out, path);
    push_str(&mut out, "\n");
    let ghost total = render(diff_header(path@), walk(bv, av, 0, 0));
    proof {
        assert(out@ =~= diff_header(path@));
    }
    let mut i: usize = 0;
    let mut j: usize = 0;
    while i < b.len() || j < a.len()
        invariant_except_break
            i <= b@.len(),
            j <= a@.len(),
            bv == views(b@),
            av == views(a@),
            render(out@, walk(bv, av, i as int, j as int)) == total,
        ensures
            out@ == total,
        decreases (b@.len() - i) + (a@.len() - j),
    {
        if i < b.len() && j < a.len() && same_line(&b, i, &a, j) {
            i += 1;
            j += 1;
            continue;
        }
        let hunk_i = i;
        let hunk_j = j;
        let (i1, j1) = scan_del(&b, &a, hunk_i, i, j);
        proof {
            lemma_del_scan(bv, av, i as int, i as int, j as int);
            lemma_hunk_end(bv, av, i as int, j as int);
        }
        let j2 = scan_add(&b, &a, hunk_i, hunk_j, i1, j1);
        if i1 == hunk_i && j2 == hunk_j {
            if i < b.len() {
                i += 1;
            }
            if j < a.len() {
                j += 1;
            }
            continue;
        }
        let ghost h = Hunk {
            old_start: hunk_i as int,
            del: bv.subrange(hunk_i as int, i1 as int),
            new_start: hunk_j as int,
            add: av.subrange(hunk_j as int, j2 as int),
        };
        let ghost rest = walk(bv, av, i1 as int, j2 as int);
        let ghost o0 = out@;
        proof {
            assert(walk(bv, av, i as int, j as int) == seq![h] + rest);
            assert((seq![h] + rest)[0] == h);
            assert((seq![h] + rest).drop_first() =~= rest);
        }
        push_hunk(&mut out, &b, &a, hunk_i, i1, hunk_j, j2);
        proof {
            assert(out@ =~= o0 + hunk_text(h));
        }
        i = i1;
        j = j2;
        if lines(out.as_str()).len() > 120 {
            push_str(&mut out, "...[diff truncated]\n");
            break;
        }
    }
    if lines(out.as_str()).len() <= 2 {
        push_str(&mut out, "(no line changes detected, or binary/identical)\n");
    }
    out
}

// ---------------------------------------------------------------------------
// What the hunks mean
// ---------------------------------------------------------------------------

/// The old lines from `pos` on with the hunks `hs` applied: the lines up to each hunk are
/// kept, its old lines give way to its new lines.
pub open spec fn apply_hunks(b: Seq<Seq<char>>, hs: Seq<Hunk>, pos: int) -> Seq<Seq<char>>
    decreases hs.len(),
{
    if hs.len() == 0 {
        b.subrange(pos, b.len() as int)
    } else {
        b.subrange(pos, hs[0].old_start) + hs[0].add + apply_hunks(
            b,
            hs.drop_first(),
            hs[0].old_start + hs[0].del.len(),
        )
    }
}

/// Every hunk of the walk from `i` starts at or after old line `i`.
proof fn lemma_walk_start(b: Seq<Seq<char>>, a: Seq<Seq<char>>, i: int, j: int)
    requires
        0 <= i <= b.len(),
        0 <= j <= a.len(),
    ensures
        walk(b, a, i, j).len() > 0 ==> walk(b, a, i, j)[0].old_start >= i,
    decreases (b.len() - i) + (a.len() - j),
{
    if i == b.len() && j == a.len() {
    } else if i < b.len() && j < a.len() && b[i] == a[j] {
        lemma_walk_start(b, a, i + 1, j + 1);
    } else {
        lemma_hunk_end(b, a, i, j);
    }
}

/// The walk from old line `i` and new line `j` turns the old lines from `i` into the new
/// lines from `j`, and each hunk holds the lines found at its positions.
proof fn lemma_walk_apply(b: Seq<Seq<char>>, a: Seq<Seq<char>>, i: int, j: int)
    requires
        0 <= i <= b.len(),
        0 <= j <= a.len(),
    ensures
        apply_hunks(b, walk(b, a, i, j), i) == a.subrange(j, a.len() as int),
        forall|k: int|
            0 <= k < walk(b, a, i, j).len() ==> {
                let h = #[trigger] walk(b, a, i, j)[k];
                &&& 0 <= h.old_start && h.old_start + h.del.len() <= b.len()
                &&& h.del == b.subrange(h.old_start, h.old_start + h.del.len())
                &&& 0 <= h.new_start && h.new_start + h.add.len() <= a.len()
                &&& h.add == a.subrange(h.new_start, h.new_start + h.add.len())
            },
    decreases (b.len() - i) + (a.len() - j),
{
    let w = walk(b, a, i, j);
    if i == b.len() && j == a.len() {
        assert(w.len() == 0);
        assert(b.subrange(i, b.len() as int) =~= a.subrange(j, a.len() as int));
    } else if i < b.len() && j < a.len() && b[i] == a[j] {
        lemma_walk_apply(b, a, i + 1, j + 1);
        lemma_walk_start(b, a, i + 1, j + 1);
        assert(w == walk(b, a, i + 1, j + 1));
        if w.len() == 0 {
            assert(b.subrange(i, b.len() as int) =~= seq![b[i]] + b.subrange(i + 1, b.len() as int));
        } else {
            assert(b.subrange(i, w[0].old_start) =~= seq![b[i]] + b.subrange(i + 1, w[0].old_start));
        }
        assert(a.subrange(j, a.len() as int) =~= seq![a[j]] + a.subrange(j + 1, a.len() as int));
    } else {
        lemma_hunk_end(b, a, i, j);
        let (x, y) = hunk_end(b, a, i, j);
        let h = Hunk { old_start: i, del: b.subrange(i, x), new_start: j, add: a.subrange(j, y) };
        lemma_walk_apply(b, a, x, y);
        let rest = walk(b, a, x, y);
        assert(w == seq![h] + rest);
        assert(w[0] == h);
        assert(w.drop_first() =~= rest);
        assert(b.subrange(i, i) =~= Seq::<Seq<char>>::empty());
        assert(a.subrange(j, a.len() as int) =~= a.subrange(j, y) + a.subrange(y, a.len() as int));
        assert forall|k: int| 0 <= k < w.len() implies {
            let h2 = #[trigger] w[k];
            &&& 0 <= h2.old_start && h2.old_start + h2.del.len() <= b.len()
            &&& h2.del == b.subrange(h2.old_start, h2.old_start + h2.del.len())
            &&& 0 <= h2.new_start && h2.new_start + h2.add.len() <= a.len()
            &&& h2.add == a.subrange(h2.new_start, h2.new_start + h2.add.len())
        } by {
            if k > 0 {
                assert(w[k] == rest[k - 1]);
            }
        }
    }
}

/// Applying the hunks of the diff of two texts to the old lines gives the new lines, and each
/// hunk's `-` and `+` lines are the old and the new lines found at its positions.
pub proof fn law_diff_hunks_rebuild_new(before: Seq<char>, after: Seq<char>)
    ensures
        apply_hunks(lines_seq(before), diff_hunks(before, after), 0) == lines_seq(after),
        forall|k: int|
            0 <= k < diff_hunks(before, after).len() ==> {
                let h = #[trigger] diff_hunks(before, after)[k];
                &&& 0 <= h.old_start && h.old_start + h.del.len() <= lines_seq(before).len()
                &&& h.del == lines_seq(before).subrange(h.old_start, h.old_start + h.del.len())
                &&& 0 <= h.new_start && h.new_start + h.add.len() <= lines_seq(after).len()
                &&& h.add == lines_seq(after).subrange(h.new_start, h.new_start + h.add.len())
            },
{
    let b = lines_seq(before);
    let a = lines_seq(after);
    lemma_walk_apply(b, a, 0, 0);
    assert(a.subrange(0, a.len() as int) =~= a);
}

/// The walk over equal lines has no hunk.
proof fn lemma_walk_same(b: Seq<Seq<char>>, i: int)
    requires
        0 <= i <= b.len(),
    ensures
        walk(b, b, i, i).len() == 0,
    decreases b.len() - i,
{
    if i < b.len() {
        lemma_walk_same(b, i + 1);
    }
}

/// A diff has no hunk exactly when the two texts have the same lines.
pub proof fn law_diff_no_hunks_iff_same_lines(before: Seq<char>, after: Seq<char>)
    ensures
        diff_hunks(before, after).len() == 0 <==> lines_seq(before) == lines_seq(after),
{
    let b = lines_seq(before);
    let a = lines_seq(after);
    if lines_seq(before) == lines_seq(after) {
        lemma_walk_same(b, 0);
    }
    if diff_hunks(before, after).len() == 0 {
        lemma_walk_apply(b, a, 0, 0);
        assert(b.subrange(0, b.len() as int) =~= b);
        assert(a.subrange(0, a.len() as int) =~= a);
    }
}

/// The header of a diff of a path without a newline is two lines.
proof fn lemma_header_lines(path: Seq<char>)
    requires
        !path.contains('\n'),
    ensures
        lines_seq(diff_header(path)).len() == 2,
{
    reveal_strlit("--- a/");
    reveal_strlit("\n+++ b/");
    reveal_strlit("+++ b/");
    reveal_strlit("\n");
    let p1 = "--- a/"@ + path;
    let p2 = "+++ b/"@ + path;
    assert(!p1.contains('\n')) by {
        if p1.contains('\n') {
            let k = choose|k: int| 0 <= k < p1.len() && p1[k] == '\n';
            if k >= 6 {
                assert(path[k - 6] == '\n');
            }
        }
    }
    assert(!p2.contains('\n')) by {
        if p2.contains('\n') {
            let k = choose|k: int| 0 <= k < p2.len() && p2[k] == '\n';
            if k >= 6 {
                assert(path[k - 6] == '\n');
            }
        }
    }
    let e = Seq::<char>::empty();
    lemma_split_no_newline(e, p1);
    assert(e + p1 =~= p1);
    let q1 = p1 + "\n"@;
    assert(q1.drop_last() =~= p1);
    lemma_split_no_newline(q1, p2);
    let q2 = q1 + p2 + "\n"@;
    assert(q2.drop_last() =~= q1 + p2);
    assert(diff_header(path) =~= q2);
}

/// Two texts with the same lines give, for a path without a newline, the header and the note
/// that no line changed.
pub proof fn law_diff_same_lines_note(path: Seq<char>, before: Seq<char>, after: Seq<char>)
    requires
        lines_seq(before) == lines_seq(after),
        !path.contains('\n'),
    ensures
        diff_text(path, before, after) == diff_header(path) + no_change_note(),
{
    law_diff_no_hunks_iff_same_lines(before, after);
    lemma_header_lines(path);
}

/// The texts of the hunks `hs`, one after another.
pub open spec fn hunks_text(hs: Seq<Hunk>) -> Seq<char>
    decreases hs.len(),
{
    if hs.len() == 0 {
        seq![]
    } else {
        hunk_text(hs[0]) + hunks_text(hs.drop_first())
    }
}

/// How many of the hunks `hs` `render` shows after `out`, and whether it cut the text short.
pub open spec fn render_extent(out: Seq<char>, hs: Seq<Hunk>) -> (nat, bool)
    decreases hs.len(),
{
    if hs.len() == 0 {
        (0, false)
    } else {
        let o = out + hunk_text(hs[0]);
        if lines_seq(o).len() > 120 {
            (1, true)
        } else {
            let (m, cut) = render_extent(o, hs.drop_first());
            (m + 1, cut)
        }
    }
}

/// What `render` writes: the first hunks in order, then the note where it stopped early.
proof fn lemma_render_extent(out: Seq<char>, hs: Seq<Hunk>)
    ensures
        render_extent(out, hs).0 <= hs.len(),
        hs.len() > 0 ==> render_extent(out, hs).0 >= 1,
        render(out, hs) == out + hunks_text(hs.take(render_extent(out, hs).0 as int)) + if render_extent(
            out,
            hs,
        ).1 {
            truncated_note()
        } else {
            Seq::<char>::empty()
        },
    decreases hs.len(),
{
    if hs.len() == 0 {
        assert(hs.take(0) =~= Seq::<Hunk>::empty());
        assert(out + Seq::<char>::empty() + Seq::<char>::empty() =~= out);
    } else {
        let o = out + hunk_text(hs[0]);
        if lines_seq(o).len() > 120 {
            let t = hs.take(1);
            assert(t.drop_first() =~= Seq::<Hunk>::empty());
            assert(t[0] == hs[0]);
            assert(hunks_text(t.drop_first()) == Seq::<char>::empty());
            assert(hunks_text(t) =~= hunk_text(hs[0]));
        } else {
            let rest = hs.drop_first();
            lemma_render_extent(o, rest);
            let m = render_extent(o, rest).0;
            let t = hs.take((m + 1) as int);
            assert(t.drop_first() =~= rest.take(m as int));
            assert(t[0] == hs[0]);
            let note = if render_extent(o, rest).1 {
                truncated_note()
            } else {
                Seq::<char>::empty()
            };
            assert(out + hunks_text(t) + note =~= o + hunks_text(rest.take(m as int)) + note);
        }
    }
}

/// A unified diff is its two header lines `--- a/path` and `+++ b/path`, then the first
/// hunks of the diff in order, each an `@@` line, its dropped lines after `-` and its added
/// lines after `+`, then the note where it was cut after 120 lines, and the note that no line
/// changed where it shows no more than two lines. Each hunk's `-` lines are old lines and its
/// `+` lines are new lines, found at the hunk's positions.
pub proof fn law_diff_text_parts(path: Seq<char>, before: Seq<char>, after: Seq<char>)
    ensures
        ({
            let hs = diff_hunks(before, after);
            let (m, cut) = render_extent(diff_header(path), hs);
            let o = diff_header(path) + hunks_text(hs.take(m as int)) + if cut {
                truncated_note()
            } else {
                Seq::<char>::empty()
            };
            &&& m <= hs.len()
            &&& hs.len() > 0 ==> m >= 1
            &&& diff_text(path, before, after) == if lines_seq(o).len() <= 2 {
                o + no_change_note()
            } else {
                o
            }
        }),
        diff_header(path) == "--- a/"@ + path + "\n+++ b/"@ + path + "\n"@,
        forall|k: int|
            0 <= k < diff_hunks(before, after).len() ==> {
                let h = #[trigger] diff_hunks(before, after)[k];
                &&& hunk_text(h) == "@@ -"@ + dec((h.old_start + 1) as nat) + ","@ + dec(
                    at_least_one(h.del.len()),
                ) + " +"@ + dec((h.new_start + 1) as nat) + ","@ + dec(at_least_one(h.add.len()))
                    + " @@\n"@ + marked('-', h.del) + marked('+', h.add)
                &&& h.del == lines_seq(before).subrange(h.old_start, h.old_start + h.del.len())
                &&& h.add == lines_seq(after).subrange(h.new_start, h.new_start + h.add.len())
            },
{
    lemma_render_extent(diff_header(path), diff_hunks(before, after));
    law_diff_hunks_rebuild_new(before, after);
}

} // verus!
