//! The order of strings (`String`'s `Ord`: by code point, a prefix first), and sorting by it.
use vstd::prelude::*;

use crate::text::{chars_of, views};

verus! {

/// The first position where `a` and `b` differ, or the shorter length.
pub open spec fn first_diff(a: Seq<char>, b: Seq<char>) -> int
    decreases a.len(),
{
    if a.len() == 0 || b.len() == 0 || a[0] != b[0] {
        0
    } else {
        1 + first_diff(a.drop_first(), b.drop_first())
    }
}

/// `a` comes strictly before `b`: at the first position where they differ `a` has the smaller
/// character, or `a` ends there while `b` goes on.
pub open spec fn text_lt(a: Seq<char>, b: Seq<char>) -> bool {
    let d = first_diff(a, b);
    ||| (d == a.len() && d < b.len())
    ||| (d < a.len() && d < b.len() && (a[d] as int) < (b[d] as int))
}

/// `a` comes before `b` or equals it.
pub open spec fn text_le(a: Seq<char>, b: Seq<char>) -> bool {
    a == b || text_lt(a, b)
}

proof fn lemma_first_diff(a: Seq<char>, b: Seq<char>)
    ensures
        0 <= first_diff(a, b) <= a.len(),
        first_diff(a, b) <= b.len(),
        first_diff(a, b) == first_diff(b, a),
        a.take(first_diff(a, b)) == b.take(first_diff(a, b)),
        first_diff(a, b) < a.len() && first_diff(a, b) < b.len() ==> a[first_diff(a, b)]
            != b[first_diff(a, b)],
        forall|k: int| 0 <= k < first_diff(a, b) ==> a[k] == b[k],
    decreases a.len(),
{
    if a.len() == 0 || b.len() == 0 || a[0] != b[0] {
        assert(a.take(0) =~= b.take(0));
    } else {
        let (x, y) = (a.drop_first(), b.drop_first());
        lemma_first_diff(x, y);
        let d = first_diff(x, y);
        assert(a.take(d + 1) =~= seq![a[0]] + x.take(d));
        assert(b.take(d + 1) =~= seq![b[0]] + y.take(d));
        assert forall|k: int| 0 <= k < d + 1 implies a[k] == b[k] by {
            if k > 0 {
                assert(a[k] == x[k - 1] && b[k] == y[k - 1]);
            }
        }
    }
}

/// Two texts that agree on their first `k` characters differ no earlier than `k`.
proof fn lemma_prefix_agree(a: Seq<char>, b: Seq<char>, k: int)
    requires
        0 <= k <= a.len(),
        k <= b.len(),
        forall|i: int| 0 <= i < k ==> a[i] == b[i],
    ensures
        k <= first_diff(a, b),
    decreases k,
{
    lemma_first_diff(a, b);
    if k > 0 {
        let (x, y) = (a.drop_first(), b.drop_first());
        assert(a[0] == b[0]);
        assert(first_diff(a, b) == 1 + first_diff(x, y));
        assert forall|i: int| 0 <= i < k - 1 implies x[i] == y[i] by {
            assert(a[i + 1] == b[i + 1]);
        }
        lemma_prefix_agree(x, y, k - 1);
    }
}

/// Texts that agree up to the end of both are equal.
proof fn lemma_diff_equal(a: Seq<char>, b: Seq<char>)
    requires
        first_diff(a, b) == a.len(),
        first_diff(a, b) == b.len(),
    ensures
        a == b,
{
    lemma_first_diff(a, b);
    assert(a =~= b);
}

/// Any two texts are ordered one way or the other.
pub proof fn lemma_text_total(a: Seq<char>, b: Seq<char>)
    ensures
        text_le(a, b) || text_lt(b, a),
{
    lemma_first_diff(a, b);
    lemma_first_diff(b, a);
    let d = first_diff(a, b);
    if d == a.len() && d == b.len() {
        lemma_diff_equal(a, b);
    } else if d < a.len() && d < b.len() {
        assert(a[d] != b[d]);
        assert((a[d] as int) != (b[d] as int));
    }
}

/// The order is transitive, strictly where either step is strict.
pub proof fn lemma_text_trans(a: Seq<char>, b: Seq<char>, c: Seq<char>)
    requires
        text_le(a, b),
        text_le(b, c),
    ensures
        text_le(a, c),
        text_lt(a, b) || text_lt(b, c) ==> text_lt(a, c),
{
    if a == b || b == c {
        return;
    }
    lemma_first_diff(a, b);
    lemma_first_diff(b, c);
    lemma_first_diff(a, c);
    let d1 = first_diff(a, b);
    let d2 = first_diff(b, c);
    let d3 = first_diff(a, c);
    let m = if d1 < d2 {
        d1
    } else {
        d2
    };
    assert forall|i: int| 0 <= i < m implies a[i] == c[i] by {
        assert(a[i] == b[i] && b[i] == c[i]);
    }
    lemma_prefix_agree(a, c, m);
    if d1 < d2 {
        if d1 < a.len() {
            assert(b[d1] == c[d1]);
            if d3 > d1 {
                assert(a[d1] == c[d1]);
            }
        }
    } else if d2 < d1 {
        assert(a[d2] == b[d2]);
        if d3 > d2 {
            assert(a[d2] == c[d2]);
        }
    } else {
        if d1 < a.len() && d3 > d1 {
            assert(a[d1] == c[d1]);
        }
    }
}

/// Whether `a` comes before `b` or equals it.
pub fn text_le_exec(a: &str, b: &str) -> (r: bool)
    ensures
        r == text_le(a@, b@),
{
    let av = chars_of(a);
    let bv = chars_of(b);
    let mut k: usize = 0;
    while k < av.len() && k < bv.len() && av[k] == bv[k]
        invariant
            av@ == a@,
            bv@ == b@,
            k <= av.len(),
            k <= bv.len(),
            av@.take(k as int) == bv@.take(k as int),
        decreases av.len() - k,
    {
        assert(av@.take(k + 1) =~= av@.take(k as int).push(av@[k as int]));
        assert(bv@.take(k + 1) =~= bv@.take(k as int).push(bv@[k as int]));
        k += 1;
    }
    proof {
        lemma_first_diff(a@, b@);
        assert forall|i: int| 0 <= i < k implies a@[i] == b@[i] by {
            assert(av@.take(k as int)[i] == bv@.take(k as int)[i]);
        }
        lemma_prefix_agree(a@, b@, k as int);
        let d = first_diff(a@, b@);
        if k < av.len() && k < bv.len() && d > k {
            assert(a@[k as int] == b@[k as int]);
        }
        if k == av.len() && k == bv.len() {
            lemma_diff_equal(a@, b@);
        }
        if a@ == b@ && k < av.len() {
            assert(a@[k as int] == b@[k as int]);
        }
    }
    if k < av.len() && k < bv.len() {
        av[k] < bv[k]
    } else {
        k == av.len()
    }
}

/// The texts are in order.
pub open spec fn texts_sorted(s: Seq<Seq<char>>) -> bool {
    forall|i: int, j: int| 0 <= i < j < s.len() ==> text_le(s[i], s[j])
}

/// `v` sorted into order (`v.sort()` for strings): the same texts, in order.
pub fn sort_texts(v: Vec<String>) -> (r: Vec<String>)
    ensures
        texts_sorted(views(r@)),
        views(r@).to_multiset() == views(v@).to_multiset(),
{
    broadcast use vstd::seq_lib::group_to_multiset_ensures;

    let mut out: Vec<String> = Vec::new();
    let ghost vv = views(v@);
    let mut rest = v;
    proof {
        assert(views(out@) =~= Seq::<Seq<char>>::empty());
        assert(views(out@).to_multiset() =~= vstd::multiset::Multiset::empty());
        assert(views(out@).to_multiset().add(views(rest@).to_multiset()) =~= vv.to_multiset());
    }
    while rest.len() > 0
        invariant
            texts_sorted(views(out@)),
            views(out@).to_multiset().add(views(rest@).to_multiset()) == vv.to_multiset(),
        decreases rest@.len(),
    {
        let ghost r0 = views(rest@);
        let x = rest.pop().unwrap();
        proof {
            assert(r0 =~= views(rest@).push(x@));
            vstd::seq_lib::to_multiset_build(views(rest@), x@);
        }
        let mut p: usize = 0;
        while p < out.len() && text_le_exec(out[p].as_str(), x.as_str())
            invariant
                p <= out@.len(),
                forall|k: int| 0 <= k < p ==> text_le(#[trigger] views(out@)[k], x@),
            decreases out@.len() - p,
        {
            p += 1;
        }
        let ghost o0 = views(out@);
        proof {
            if p < out@.len() {
                lemma_text_total(o0[p as int], x@);
                assert forall|k: int| p <= k < o0.len() implies text_lt(x@, #[trigger] o0[k]) by {
                    if k > p {
                        lemma_text_trans(x@, o0[p as int], o0[k]);
                    }
                }
            }
        }
        out.insert(p, x);
        proof {
            let o1 = views(out@);
            assert(o1 =~= o0.insert(p as int, x@));
            vstd::seq_lib::to_multiset_insert(o0, p as int, x@);
            assert forall|a: int, b: int| 0 <= a < b < o1.len() implies text_le(o1[a], o1[b]) by {
                if a < p && b == p {
                } else if a == p && b > p {
                    assert(o1[b] == o0[b - 1]);
                } else if a < p && b > p {
                    assert(o1[b] == o0[b - 1]);
                    lemma_text_trans(o0[a], x@, o0[b - 1]);
                } else if b < p {
                } else {
                    assert(o1[a] == o0[a - 1]);
                    assert(o1[b] == o0[b - 1]);
                }
            }
        }
    }
    proof {
        assert(views(rest@) =~= Seq::<Seq<char>>::empty());
        assert(views(out@).to_multiset().add(views(rest@).to_multiset()) =~= views(
            out@,
        ).to_multiset());
    }
    out
}

} // verus!
