//! Text primitives over `str` / `String`, stated over their `Seq<char>` views.
use vstd::prelude::*;

verus! {

// ---------------------------------------------------------------------------
// Building strings
// ---------------------------------------------------------------------------

/// The characters of `s`, collected into a vector.
pub fn chars_of(s: &str) -> (v: Vec<char>)
    ensures
        v@ == s@,
{
    let mut v: Vec<char> = Vec::new();
    for c in it: s.chars()
        invariant
            v@ == it.seq().take(it.index() as int),
            it.seq() == s@,
    {
        v.push(c);
    }
    v
}

/// Appends one character (`String::push`).
#[verifier::external_body]
pub(crate) fn push_char(s: &mut String, c: char)
    ensures
        final(s)@ == old(s)@.push(c),
{
    s.push(c);
}

/// Appends a string slice.
pub fn push_str(s: &mut String, t: &str)
    ensures
        final(s)@ == old(s)@ + t@,
{
    s.append(t);
}

/// A new `String` holding `v[lo..hi]`.
pub fn string_of_range(v: &Vec<char>, lo: usize, hi: usize) -> (r: String)
    requires
        lo <= hi <= v.len(),
    ensures
        r@ == v@.subrange(lo as int, hi as int),
{
    let mut r = String::new();
    let mut i = lo;
    while i < hi
        invariant
            lo <= i <= hi <= v.len(),
            r@ == v@.subrange(lo as int, i as int),
        decreases hi - i,
    {
        push_char(&mut r, v[i]);
        assert(v@.subrange(lo as int, i + 1) == v@.subrange(lo as int, i as int).push(v@[i as int]));
        i += 1;
    }
    r
}

/// The view of an optional string.
pub open spec fn opt_view(o: Option<String>) -> Option<Seq<char>> {
    match o {
        Some(s) => Some(s@),
        None => None,
    }
}

/// A copy of `s` as an owned `String`.
pub fn owned(s: &str) -> (r: String)
    ensures
        r@ == s@,
{
    String::from_str(s)
}

/// The concatenation `a + b`.
pub fn concat2(a: &str, b: &str) -> (r: String)
    ensures
        r@ == a@ + b@,
{
    let mut r = String::from_str(a);
    r.append(b);
    r
}

// ---------------------------------------------------------------------------
// Whitespace and trimming (`char::is_whitespace`: the Unicode White_Space set)
// ---------------------------------------------------------------------------

/// The Unicode `White_Space` property, which `char::is_whitespace` tests.
pub open spec fn is_ws(c: char) -> bool {
    let u = c as u32;
    ||| 0x09 <= u <= 0x0D
    ||| u == 0x20
    ||| u == 0x85
    ||| u == 0xA0
    ||| u == 0x1680
    ||| 0x2000 <= u <= 0x200A
    ||| u == 0x2028
    ||| u == 0x2029
    ||| u == 0x202F
    ||| u == 0x205F
    ||| u == 0x3000
}

/// `c.is_whitespace()`.
pub fn is_whitespace(c: char) -> (b: bool)
    ensures
        b == is_ws(c),
{
    let u = c as u32;
    (0x09 <= u && u <= 0x0D) || u == 0x20 || u == 0x85 || u == 0xA0 || u == 0x1680 || (0x2000
        <= u && u <= 0x200A) || u == 0x2028 || u == 0x2029 || u == 0x202F || u == 0x205F || u
        == 0x3000
}

/// `s` without its leading whitespace.
pub open spec fn trim_start_seq(s: Seq<char>) -> Seq<char>
    decreases s.len(),
{
    if s.len() > 0 && is_ws(s[0]) {
        trim_start_seq(s.drop_first())
    } else {
        s
    }
}

/// `s` without its trailing whitespace.
pub open spec fn trim_end_seq(s: Seq<char>) -> Seq<char>
    decreases s.len(),
{
    if s.len() > 0 && is_ws(s.last()) {
        trim_end_seq(s.drop_last())
    } else {
        s
    }
}

/// `s` without leading and trailing whitespace (`str::trim`).
pub open spec fn trim_seq(s: Seq<char>) -> Seq<char> {
    trim_end_seq(trim_start_seq(s))
}

proof fn lemma_trim_start_skip(s: Seq<char>, i: int)
    requires
        0 <= i <= s.len(),
        forall|j: int| 0 <= j < i ==> is_ws(#[trigger] s[j]),
    ensures
        trim_start_seq(s) == trim_start_seq(s.skip(i)),
    decreases i,
{
    if i == 0 {
        assert(s.skip(0) =~= s);
    } else {
        assert(s.drop_first().skip(i - 1) =~= s.skip(i));
        assert forall|j: int| 0 <= j < i - 1 implies is_ws(#[trigger] s.drop_first()[j]) by {
            assert(s.drop_first()[j] == s[j + 1]);
        }
        lemma_trim_start_skip(s.drop_first(), i - 1);
    }
}

proof fn lemma_trim_end_take(s: Seq<char>, i: int)
    requires
        0 <= i <= s.len(),
        forall|j: int| i <= j < s.len() ==> is_ws(#[trigger] s[j]),
    ensures
        trim_end_seq(s) == trim_end_seq(s.take(i)),
    decreases s.len() - i,
{
    if i < s.len() {
        assert(s.drop_last().take(i) =~= s.take(i));
        assert forall|j: int| i <= j < s.drop_last().len() implies is_ws(
            #[trigger] s.drop_last()[j],
        ) by {
            assert(s.drop_last()[j] == s[j]);
        }
        lemma_trim_end_take(s.drop_last(), i);
    } else {
        assert(s.take(i) =~= s);
    }
}

proof fn lemma_trim_start_props(s: Seq<char>)
    ensures
        trim_start_seq(s).len() == 0 || !is_ws(trim_start_seq(s)[0]),
        trim_start_seq(s).len() <= s.len(),
        trim_start_seq(s) == s.skip(s.len() - trim_start_seq(s).len()),
    decreases s.len(),
{
    if s.len() > 0 && is_ws(s[0]) {
        lemma_trim_start_props(s.drop_first());
        let t = trim_start_seq(s.drop_first());
        assert(s.drop_first().skip(s.drop_first().len() - t.len()) =~= s.skip(s.len() - t.len()));
    } else {
        assert(s.skip(0) =~= s);
    }
}

proof fn lemma_trim_end_props(s: Seq<char>)
    ensures
        trim_end_seq(s).len() == 0 || !is_ws(trim_end_seq(s).last()),
        trim_end_seq(s).len() <= s.len(),
        trim_end_seq(s) == s.take(trim_end_seq(s).len() as int),
    decreases s.len(),
{
    if s.len() > 0 && is_ws(s.last()) {
        lemma_trim_end_props(s.drop_last());
        let t = trim_end_seq(s.drop_last());
        assert(s.drop_last().take(t.len() as int) =~= s.take(t.len() as int));
    } else {
        assert(s.take(s.len() as int) =~= s);
    }
}

/// Trimming twice is trimming once.
pub proof fn lemma_trim_idempotent(s: Seq<char>)
    ensures
        trim_seq(trim_seq(s)) == trim_seq(s),
{
    let a = trim_start_seq(s);
    lemma_trim_start_props(s);
    let u = trim_end_seq(a);
    lemma_trim_end_props(a);
    if u.len() > 0 {
        assert(u[0] == a[0]);
        assert(trim_start_seq(u) == u);
        assert(trim_end_seq(u) == u);
    } else {
        assert(trim_start_seq(u) == u);
        assert(trim_end_seq(u) == u);
    }
}

/// The bounds `lo..hi` of `trim_seq(v)` inside `v`.
pub fn trim_bounds(v: &Vec<char>) -> (r: (usize, usize))
    ensures
        r.0 <= r.1 <= v.len(),
        v@.subrange(r.0 as int, r.1 as int) == trim_seq(v@),
        trim_start_seq(v@) == v@.skip(r.0 as int),
        trim_end_seq(v@) == v@.take(r.1 as int) || r.0 == r.1,
{
    let mut lo: usize = 0;
    while lo < v.len() && is_whitespace(v[lo])
        invariant
            lo <= v.len(),
            forall|j: int| 0 <= j < lo ==> is_ws(#[trigger] v@[j]),
        decreases v.len() - lo,
    {
        lo += 1;
    }
    proof {
        lemma_trim_start_skip(v@, lo as int);
        assert(trim_start_seq(v@.skip(lo as int)) == v@.skip(lo as int));
    }
    let mut hi: usize = v.len();
    while hi > lo && is_whitespace(v[hi - 1])
        invariant
            lo <= hi <= v.len(),
            forall|j: int| hi <= j < v.len() ==> is_ws(#[trigger] v@[j]),
        decreases hi,
    {
        hi -= 1;
    }
    proof {
        let t = v@.skip(lo as int);
        assert forall|j: int| hi - lo <= j < t.len() implies is_ws(#[trigger] t[j]) by {
            assert(t[j] == v@[j + lo]);
        }
        lemma_trim_end_take(t, hi - lo);
        assert(t.take(hi - lo) =~= v@.subrange(lo as int, hi as int));
        if hi > lo {
            assert(t.take(hi - lo).last() == v@[hi - 1]);
        }
        assert(trim_end_seq(t.take(hi - lo)) == t.take(hi - lo));
        lemma_trim_end_take(v@, hi as int);
        if hi > lo {
            assert(v@.take(hi as int).last() == v@[hi - 1]);
            assert(trim_end_seq(v@.take(hi as int)) == v@.take(hi as int));
        }
    }
    (lo, hi)
}

/// `s.trim()`.
pub fn trim(s: &str) -> (r: String)
    ensures
        r@ == trim_seq(s@),
{
    let v = chars_of(s);
    let (lo, hi) = trim_bounds(&v);
    string_of_range(&v, lo, hi)
}

/// `s.trim_end()`.
pub fn trim_end(s: &str) -> (r: String)
    ensures
        r@ == trim_end_seq(s@),
{
    let v = chars_of(s);
    let mut hi: usize = v.len();
    while hi > 0 && is_whitespace(v[hi - 1])
        invariant
            hi <= v.len(),
            forall|j: int| hi <= j < v.len() ==> is_ws(#[trigger] v@[j]),
        decreases hi,
    {
        hi -= 1;
    }
    proof {
        lemma_trim_end_take(v@, hi as int);
        if hi > 0 {
            assert(v@.take(hi as int).last() == v@[hi - 1]);
        }
        assert(trim_end_seq(v@.take(hi as int)) == v@.take(hi as int));
        assert(v@.subrange(0, hi as int) == v@.take(hi as int));
    }
    string_of_range(&v, 0, hi)
}

// ---------------------------------------------------------------------------
// Case mapping (`str::to_lowercase`)
// ---------------------------------------------------------------------------

/// What `str::to_lowercase` returns for a string: the Unicode lowercase mapping.
pub uninterp spec fn spec_to_lowercase(s: Seq<char>) -> Seq<char>;

/// The ASCII lowercase of one character.
pub open spec fn ascii_lower_char(c: char) -> char {
    if 'A' <= c <= 'Z' {
        ((c as u32) + 32) as char
    } else {
        c
    }
}

/// Every character is ASCII.
pub open spec fn all_ascii(s: Seq<char>) -> bool {
    forall|i: int| 0 <= i < s.len() ==> (#[trigger] s[i] as u32) < 128
}

/// Calls `str::to_lowercase`. The result is named by `spec_to_lowercase`; on an
/// all-ASCII string the Unicode lowercase mapping is the ASCII one (only `A`..`Z`
/// change, each to its small letter), which is also stated.
#[verifier::external_body]
pub(crate) fn to_lowercase(s: &str) -> (r: String)
    ensures
        r@ == spec_to_lowercase(s@),
        all_ascii(s@) ==> r@ == s@.map_values(|c: char| ascii_lower_char(c)),
{
    s.to_lowercase()
}

// ---------------------------------------------------------------------------
// Searching
// ---------------------------------------------------------------------------

/// `p` occurs in `s` at position `i`.
pub open spec fn occurs_at(s: Seq<char>, p: Seq<char>, i: int) -> bool {
    0 <= i && i + p.len() <= s.len() && s.subrange(i, i + p.len()) == p
}

/// `p` occurs somewhere in `s` (`str::contains`).
pub open spec fn contains_seq(s: Seq<char>, p: Seq<char>) -> bool {
    exists|i: int| occurs_at(s, p, i)
}

/// `s` starts with `p`.
pub open spec fn starts_with_seq(s: Seq<char>, p: Seq<char>) -> bool {
    p.len() <= s.len() && s.take(p.len() as int) == p
}

/// `s` ends with `p`.
pub open spec fn ends_with_seq(s: Seq<char>, p: Seq<char>) -> bool {
    p.len() <= s.len() && s.skip(s.len() - p.len()) == p
}

/// The first position at or after `from` where `p` occurs in `s`, if any.
pub fn find_from(s: &Vec<char>, p: &Vec<char>, from: usize) -> (r: Option<usize>)
    ensures
        match r {
            Some(i) => from <= i && occurs_at(s@, p@, i as int) && forall|j: int|
                from <= j < i ==> !occurs_at(s@, p@, j),
            None => forall|j: int| from <= j ==> !occurs_at(s@, p@, j),
        },
{
    if p.len() > s.len() {
        return None;
    }
    let last = s.len() - p.len();
    let mut i = from;
    while i <= last
        invariant
            last == s.len() - p.len(),
            from <= i,
            forall|j: int| from <= j < i ==> !occurs_at(s@, p@, j),
        decreases last + 1 - i,
    {
        let mut k: usize = 0;
        while k < p.len() && s[i + k] == p[k]
            invariant
                i <= last,
                last == s.len() - p.len(),
                k <= p.len(),
                forall|m: int| 0 <= m < k ==> s@[i + m] == p@[m],
            decreases p.len() - k,
        {
            k += 1;
        }
        if k == p.len() {
            assert(s@.subrange(i as int, i + p.len()) =~= p@);
            return Some(i);
        }
        assert(s@.subrange(i as int, i + p.len())[k as int] != p@[k as int]);
        i += 1;
    }
    None
}

/// `s.contains(p)`.
pub fn contains(s: &str, p: &str) -> (b: bool)
    ensures
        b == contains_seq(s@, p@),
{
    let sv = chars_of(s);
    let pv = chars_of(p);
    match find_from(&sv, &pv, 0) {
        Some(_) => true,
        None => false,
    }
}

/// `a == b`.
pub fn eq_str(a: &str, b: &str) -> (r: bool)
    ensures
        r == (a@ == b@),
{
    let av = chars_of(a);
    let bv = chars_of(b);
    if av.len() != bv.len() {
        return false;
    }
    let mut k: usize = 0;
    while k < av.len()
        invariant
            av@ == a@,
            bv@ == b@,
            av.len() == bv.len(),
            k <= av.len(),
            forall|m: int| 0 <= m < k ==> av@[m] == bv@[m],
        decreases av.len() - k,
    {
        if av[k] != bv[k] {
            return false;
        }
        k += 1;
    }
    assert(av@ =~= bv@);
    true
}

/// `s` without its leading newlines (`trim_start_matches('\n')`).
pub open spec fn trim_leading_newlines(s: Seq<char>) -> Seq<char>
    decreases s.len(),
{
    if s.len() > 0 && s[0] == '\n' {
        trim_leading_newlines(s.drop_first())
    } else {
        s
    }
}

/// `s.starts_with(p)`.
pub fn starts_with(s: &str, p: &str) -> (b: bool)
    ensures
        b == starts_with_seq(s@, p@),
{
    let sv = chars_of(s);
    let pv = chars_of(p);
    if pv.len() > sv.len() {
        return false;
    }
    let mut k: usize = 0;
    while k < pv.len()
        invariant
            sv@ == s@,
            pv@ == p@,
            pv.len() <= sv.len(),
            k <= pv.len(),
            forall|m: int| 0 <= m < k ==> sv@[m] == pv@[m],
        decreases pv.len() - k,
    {
        if sv[k] != pv[k] {
            assert(sv@.take(pv@.len() as int)[k as int] != pv@[k as int]);
            assert(sv@.take(pv@.len() as int) != pv@);
            return false;
        }
        k += 1;
    }
    assert(sv@.take(pv@.len() as int) =~= pv@);
    true
}

/// `s.ends_with(p)`.
pub fn ends_with(s: &str, p: &str) -> (b: bool)
    ensures
        b == ends_with_seq(s@, p@),
{
    let sv = chars_of(s);
    let pv = chars_of(p);
    if pv.len() > sv.len() {
        return false;
    }
    let off = sv.len() - pv.len();
    let mut k: usize = 0;
    while k < pv.len()
        invariant
            sv@ == s@,
            pv@ == p@,
            pv.len() <= sv.len(),
            off == sv.len() - pv.len(),
            k <= pv.len(),
            forall|m: int| 0 <= m < k ==> sv@[off + m] == pv@[m],
        decreases pv.len() - k,
    {
        if sv[off + k] != pv[k] {
            assert(sv@.skip(off as int)[k as int] != pv@[k as int]);
            assert(sv@.skip(off as int) != pv@);
            return false;
        }
        k += 1;
    }
    assert(sv@.skip(off as int) =~= pv@);
    true
}


// ---------------------------------------------------------------------------
// First occurrence, counting, replacing
// ---------------------------------------------------------------------------

/// The position of the first occurrence of `p` in `s`, or -1 (`str::find`, in characters).
pub open spec fn first_occ(s: Seq<char>, p: Seq<char>) -> int
    decreases s.len(),
{
    if p.len() == 0 {
        0
    } else if p.len() > s.len() {
        -1
    } else if s.take(p.len() as int) == p {
        0
    } else {
        let r = first_occ(s.drop_first(), p);
        if r < 0 {
            -1
        } else {
            r + 1
        }
    }
}

/// `first_occ` is the least position where `p` occurs, and -1 exactly when it occurs nowhere.
pub proof fn lemma_first_occ(s: Seq<char>, p: Seq<char>)
    ensures
        -1 <= first_occ(s, p),
        first_occ(s, p) >= 0 ==> occurs_at(s, p, first_occ(s, p)),
        forall|j: int| 0 <= j < first_occ(s, p) ==> !occurs_at(s, p, j),
        first_occ(s, p) < 0 ==> forall|j: int| !occurs_at(s, p, j),
    decreases s.len(),
{
    if p.len() == 0 {
        assert(s.subrange(0, 0) =~= p);
    } else if p.len() > s.len() {
    } else if s.take(p.len() as int) == p {
        assert(s.subrange(0, p.len() as int) == s.take(p.len() as int));
    } else {
        let t = s.drop_first();
        lemma_first_occ(t, p);
        assert(!occurs_at(s, p, 0)) by {
            assert(s.subrange(0, p.len() as int) == s.take(p.len() as int));
        }
        assert forall|j: int| 1 <= j && occurs_at(s, p, j) implies occurs_at(t, p, j - 1) by {
            assert(t.subrange(j - 1, j - 1 + p.len()) =~= s.subrange(j, j + p.len()));
        }
        assert forall|j: int| 0 <= j && occurs_at(t, p, j) implies occurs_at(s, p, j + 1) by {
            assert(t.subrange(j, j + p.len()) =~= s.subrange(j + 1, j + 1 + p.len()));
        }
    }
}

/// The first occurrence of `p` in `s`, computed.
pub fn find_first(s: &Vec<char>, p: &Vec<char>) -> (r: Option<usize>)
    ensures
        match r {
            Some(i) => i as int == first_occ(s@, p@),
            None => first_occ(s@, p@) < 0,
        },
{
    proof {
        lemma_first_occ(s@, p@);
    }
    let r = find_from(s, p, 0);
    match r {
        Some(i) => {
            proof {
                if first_occ(s@, p@) < 0 {
                } else if first_occ(s@, p@) < i {
                } else if first_occ(s@, p@) > i {
                }
            }
            r
        },
        None => r,
    }
}

/// `s.find(p)`, as a character position.
pub fn find(s: &str, p: &str) -> (r: Option<usize>)
    ensures
        match r {
            Some(i) => i as int == first_occ(s@, p@),
            None => first_occ(s@, p@) < 0,
        },
{
    let sv = chars_of(s);
    let pv = chars_of(p);
    find_first(&sv, &pv)
}

/// The number of non-overlapping occurrences of `p` in `s`, scanning from the left
/// (`s.matches(p).count()` for a non-empty `p`).
pub open spec fn count_occ(s: Seq<char>, p: Seq<char>) -> nat
    decreases s.len(),
{
    if p.len() == 0 {
        0
    } else {
        let i = first_occ(s, p);
        if i < 0 || i + p.len() > s.len() {
            0
        } else {
            1 + count_occ(s.skip(i + p.len()), p)
        }
    }
}

/// `s` with the first occurrence of `p` replaced by `q` (`s.replacen(p, q, 1)`).
pub open spec fn replace_first(s: Seq<char>, p: Seq<char>, q: Seq<char>) -> Seq<char> {
    let i = first_occ(s, p);
    if i < 0 {
        s
    } else {
        s.take(i) + q + s.skip(i + p.len())
    }
}

/// `s` with every non-overlapping occurrence of `p` (scanning from the left) replaced by
/// `q` (`s.replace(p, q)` for a non-empty `p`).
pub open spec fn replace_all(s: Seq<char>, p: Seq<char>, q: Seq<char>) -> Seq<char>
    decreases s.len(),
{
    if p.len() == 0 {
        s
    } else {
        let i = first_occ(s, p);
        if i < 0 || i + p.len() > s.len() {
            s
        } else {
            s.take(i) + q + replace_all(s.skip(i + p.len()), p, q)
        }
    }
}

/// Counts non-overlapping occurrences of a non-empty `p` in `s` (`s.matches(p).count()`).
pub fn count_matches(s: &str, p: &str) -> (n: usize)
    requires
        p@.len() > 0,
    ensures
        n == count_occ(s@, p@),
{
    let sv = chars_of(s);
    let pv = chars_of(p);
    let mut n: usize = 0;
    let mut from: usize = 0;
    let mut done = false;
    proof {
        assert(sv@.skip(0) =~= sv@);
    }
    while !done
        invariant
            sv@ == s@,
            pv@ == p@,
            pv@.len() > 0,
            from <= sv.len(),
            n <= from,
            !done ==> n + count_occ(sv@.skip(from as int), pv@) == count_occ(sv@, pv@),
            done ==> n == count_occ(sv@, pv@),
        decreases sv.len() - from + (if done { 0int } else { 1int }),
    {
        let ghost rest = sv@.skip(from as int);
        proof {
            lemma_first_occ(rest, pv@);
        }
        match find_from(&sv, &pv, from) {
            Some(i) => {
                proof {
                    assert(occurs_at(rest, pv@, i - from)) by {
                        assert(rest.subrange(i - from, i - from + pv@.len()) =~= sv@.subrange(
                            i as int,
                            i + pv@.len(),
                        ));
                    }
                    assert forall|j: int| 0 <= j < i - from implies !occurs_at(rest, pv@, j) by {
                        assert(rest.subrange(j, j + pv@.len()) =~= sv@.subrange(
                            j + from,
                            j + from + pv@.len(),
                        ));
                        assert(!occurs_at(sv@, pv@, j + from));
                    }
                    assert(first_occ(rest, pv@) == i - from);
                    assert(rest.skip(i - from + pv@.len()) =~= sv@.skip(i + pv@.len()));
                }
                n += 1;
                from = i + pv.len();
            },
            None => {
                proof {
                    if first_occ(rest, pv@) >= 0 {
                        let j = first_occ(rest, pv@);
                        assert(rest.subrange(j, j + pv@.len()) =~= sv@.subrange(
                            j + from,
                            j + from + pv@.len(),
                        ));
                        assert(occurs_at(sv@, pv@, j + from));
                    }
                }
                done = true;
            },
        }
    }
    n
}

/// `s.replacen(p, q, 1)`.
pub fn replacen_first(s: &str, p: &str, q: &str) -> (r: String)
    ensures
        r@ == replace_first(s@, p@, q@),
{
    let sv = chars_of(s);
    let pv = chars_of(p);
    proof {
        lemma_first_occ(sv@, pv@);
    }
    match find_first(&sv, &pv) {
        Some(i) => {
            assert(occurs_at(sv@, pv@, i as int));
            assert(i + pv@.len() <= sv@.len());
            assert(pv.len() == pv@.len() && sv.len() == sv@.len());
            let end = i + pv.len();
            let mut r = string_of_range(&sv, 0, i);
            push_str(&mut r, q);
            let tail = string_of_range(&sv, end, sv.len());
            push_str(&mut r, tail.as_str());
            proof {
                assert(sv@.subrange(0, i as int) == sv@.take(i as int));
                assert(sv@.subrange(i + pv@.len(), sv@.len() as int) == sv@.skip(i + pv@.len()));
            }
            r
        },
        None => owned(s),
    }
}

/// `s.replace(p, q)` for a non-empty `p`.
pub fn replace_all_str(s: &str, p: &str, q: &str) -> (r: String)
    requires
        p@.len() > 0,
    ensures
        r@ == replace_all(s@, p@, q@),
{
    let sv = chars_of(s);
    let pv = chars_of(p);
    let mut r = String::new();
    let mut from: usize = 0;
    let mut done = false;
    proof {
        assert(sv@.skip(0) =~= sv@);
    }
    while !done
        invariant
            sv@ == s@,
            pv@ == p@,
            pv@.len() > 0,
            from <= sv.len(),
            !done ==> r@ + replace_all(sv@.skip(from as int), pv@, q@) == replace_all(
                sv@,
                pv@,
                q@,
            ),
            done ==> r@ == replace_all(sv@, pv@, q@),
        decreases sv.len() - from + (if done { 0int } else { 1int }),
    {
        let ghost rest = sv@.skip(from as int);
        proof {
            lemma_first_occ(rest, pv@);
        }
        match find_from(&sv, &pv, from) {
            Some(i) => {
                proof {
                    assert(occurs_at(rest, pv@, i - from)) by {
                        assert(rest.subrange(i - from, i - from + pv@.len()) =~= sv@.subrange(
                            i as int,
                            i + pv@.len(),
                        ));
                    }
                    assert forall|j: int| 0 <= j < i - from implies !occurs_at(rest, pv@, j) by {
                        assert(rest.subrange(j, j + pv@.len()) =~= sv@.subrange(
                            j + from,
                            j + from + pv@.len(),
                        ));
                        assert(!occurs_at(sv@, pv@, j + from));
                    }
                    assert(first_occ(rest, pv@) == i - from);
                    assert(rest.skip(i - from + pv@.len()) =~= sv@.skip(i + pv@.len()));
                    assert(rest.take(i - from) =~= sv@.subrange(from as int, i as int));
                }
                let mid = string_of_range(&sv, from, i);
                push_str(&mut r, mid.as_str());
                push_str(&mut r, q);
                proof {
                    assert(r@ + replace_all(sv@.skip(i + pv@.len()), pv@, q@) =~= old_r_plus(
                        r@,
                        sv@,
                        pv@,
                        q@,
                        i as int,
                    ));
                }
                from = i + pv.len();
            },
            None => {
                proof {
                    if first_occ(rest, pv@) >= 0 {
                        let j = first_occ(rest, pv@);
                        assert(rest.subrange(j, j + pv@.len()) =~= sv@.subrange(
                            j + from,
                            j + from + pv@.len(),
                        ));
                        assert(occurs_at(sv@, pv@, j + from));
                    }
                    assert(sv@.subrange(from as int, sv@.len() as int) == rest);
                }
                let tail = string_of_range(&sv, from, sv.len());
                push_str(&mut r, tail.as_str());
                done = true;
            },
        }
    }
    r
}

spec fn old_r_plus(r: Seq<char>, s: Seq<char>, p: Seq<char>, q: Seq<char>, i: int) -> Seq<char> {
    r + replace_all(s.skip(i + p.len()), p, q)
}


// ---------------------------------------------------------------------------
// Lines and joining
// ---------------------------------------------------------------------------

/// `c` without one trailing carriage return.
pub open spec fn strip_cr(c: Seq<char>) -> Seq<char> {
    if c.len() > 0 && c.last() == '\r' {
        c.drop_last()
    } else {
        c
    }
}

/// Scanning `s` from the left: the lines ended by a newline so far (each without its
/// line ending), and the unterminated rest.
pub open spec fn split_nl(s: Seq<char>) -> (Seq<Seq<char>>, Seq<char>)
    decreases s.len(),
{
    if s.len() == 0 {
        (seq![], seq![])
    } else {
        let (d, c) = split_nl(s.drop_last());
        if s.last() == '\n' {
            (d.push(strip_cr(c)), seq![])
        } else {
            (d, c.push(s.last()))
        }
    }
}

/// `s.lines()`: split at `\n`, a `\r` before a `\n` dropped, no line after a final `\n`.
pub open spec fn lines_seq(s: Seq<char>) -> Seq<Seq<char>> {
    let (d, c) = split_nl(s);
    if c.len() == 0 {
        d
    } else {
        d.push(c)
    }
}

/// Appending text without a newline extends the unterminated rest.
pub proof fn lemma_split_no_newline(x: Seq<char>, s: Seq<char>)
    requires
        !s.contains('\n'),
    ensures
        split_nl(x + s) == (split_nl(x).0, split_nl(x).1 + s),
    decreases s.len(),
{
    if s.len() == 0 {
        assert(x + s =~= x);
        assert(split_nl(x).1 + s =~= split_nl(x).1);
    } else {
        let s0 = s.drop_last();
        assert(!s0.contains('\n')) by {
            if s0.contains('\n') {
                let k = choose|k: int| 0 <= k < s0.len() && s0[k] == '\n';
                assert(s[k] == '\n');
            }
        }
        lemma_split_no_newline(x, s0);
        assert((x + s).drop_last() =~= x + s0);
        assert((x + s).last() == s.last());
        assert(s.last() != '\n') by {
            assert(s[s.len() - 1] == s.last());
        }
        assert(split_nl(x).1 + s0 + seq![s.last()] =~= split_nl(x).1 + s);
    }
}

/// No line of a text holds a newline.
pub proof fn lemma_lines_plain(s: Seq<char>)
    ensures
        forall|k: int| 0 <= k < lines_seq(s).len() ==> !(#[trigger] lines_seq(s)[k]).contains('\n'),
{
    lemma_split_nl_plain(s);
    let (d, c) = split_nl(s);
    if c.len() > 0 {
        assert forall|k: int| 0 <= k < d.push(c).len() implies !(#[trigger] d.push(c)[k]).contains(
            '\n',
        ) by {
            if k < d.len() {
                assert(d.push(c)[k] == d[k]);
            }
        }
    }
}

/// What `split_nl` gives holds no newline.
proof fn lemma_split_nl_plain(s: Seq<char>)
    ensures
        forall|k: int| 0 <= k < split_nl(s).0.len() ==> !(#[trigger] split_nl(s).0[k]).contains('\n'),
        !split_nl(s).1.contains('\n'),
    decreases s.len(),
{
    if s.len() > 0 {
        lemma_split_nl_plain(s.drop_last());
        let (d, c) = split_nl(s.drop_last());
        if s.last() == '\n' {
            assert(!strip_cr(c).contains('\n')) by {
                if strip_cr(c).contains('\n') {
                    let k = choose|k: int| 0 <= k < strip_cr(c).len() && strip_cr(c)[k] == '\n';
                    assert(c[k] == '\n');
                }
            }
            assert forall|k: int| 0 <= k < d.push(strip_cr(c)).len() implies !(#[trigger] d.push(
                strip_cr(c),
            )[k]).contains('\n') by {
                if k < d.len() {
                    assert(d.push(strip_cr(c))[k] == d[k]);
                }
            }
        } else {
            assert(!c.push(s.last()).contains('\n')) by {
                if c.push(s.last()).contains('\n') {
                    let k = choose|k: int| 0 <= k < c.push(s.last()).len() && c.push(s.last())[k]
                        == '\n';
                    if k < c.len() {
                        assert(c[k] == '\n');
                    }
                }
            }
        }
    }
}

/// Lines without a newline, the last not empty and none but the last ending in a carriage
/// return, joined with newlines, split back into themselves.
pub proof fn lemma_lines_of_join(ls: Seq<Seq<char>>)
    requires
        forall|k: int| 0 <= k < ls.len() ==> !(#[trigger] ls[k]).contains('\n'),
        ls.len() > 0 ==> ls.last().len() > 0,
        forall|k: int| 0 <= k < ls.len() - 1 ==> !((#[trigger] ls[k]).len() > 0 && ls[k].last() == '\r'),
    ensures
        lines_seq(join_seq(ls, "\n"@)) == ls,
{
    if ls.len() > 0 {
        lemma_split_join(ls);
        assert(split_nl(join_seq(ls, "\n"@)).0.push(ls.last()) =~= ls);
    } else {
        assert(split_nl(Seq::<char>::empty()) == (Seq::<Seq<char>>::empty(), Seq::<char>::empty()));
    }
}

proof fn lemma_split_join(ls: Seq<Seq<char>>)
    requires
        ls.len() > 0,
        forall|k: int| 0 <= k < ls.len() ==> !(#[trigger] ls[k]).contains('\n'),
        forall|k: int| 0 <= k < ls.len() - 1 ==> !((#[trigger] ls[k]).len() > 0 && ls[k].last() == '\r'),
    ensures
        split_nl(join_seq(ls, "\n"@)) == (ls.drop_last(), ls.last()),
    decreases ls.len(),
{
    reveal_strlit("\n");
    if ls.len() == 1 {
        let e = Seq::<char>::empty();
        lemma_split_no_newline(e, ls[0]);
        assert(e + ls[0] =~= ls[0]);
        assert(ls.drop_last() =~= Seq::<Seq<char>>::empty());
    } else {
        let p = ls.drop_last();
        assert forall|k: int| 0 <= k < p.len() implies !(#[trigger] p[k]).contains('\n') by {
            assert(p[k] == ls[k]);
        }
        assert forall|k: int| 0 <= k < p.len() - 1 implies !((#[trigger] p[k]).len() > 0 && p[k].last()
            == '\r') by {
            assert(p[k] == ls[k]);
        }
        lemma_split_join(p);
        let jp = join_seq(p, "\n"@);
        let q = jp + "\n"@;
        assert(q.drop_last() =~= jp);
        assert(q.last() == '\n');
        assert(p.last() == ls[ls.len() - 2]);
        assert(strip_cr(p.last()) == p.last());
        assert(p.drop_last().push(p.last()) =~= p);
        assert(!ls[ls.len() - 1].contains('\n'));
        lemma_split_no_newline(q, ls.last());
        assert(join_seq(ls, "\n"@) == q + ls.last());
        assert(Seq::<char>::empty() + ls.last() =~= ls.last());
    }
}

/// The views of a vector of strings.
pub open spec fn views(v: Seq<String>) -> Seq<Seq<char>> {
    v.map_values(|x: String| x@)
}

/// `strip_cr`, computed.
pub fn strip_cr_string(c: String) -> (r: String)
    ensures
        r@ == strip_cr(c@),
{
    let v = chars_of(c.as_str());
    if v.len() > 0 && v[v.len() - 1] == '\r' {
        let r = string_of_range(&v, 0, v.len() - 1);
        assert(v@.subrange(0, v@.len() - 1) =~= v@.drop_last());
        r
    } else {
        c
    }
}

/// `s.lines()`, collected.
pub fn lines(s: &str) -> (r: Vec<String>)
    ensures
        views(r@) == lines_seq(s@),
{
    let v = chars_of(s);
    let mut out: Vec<String> = Vec::new();
    let mut cur = String::new();
    let mut i: usize = 0;
    while i < v.len()
        invariant
            i <= v.len(),
            (views(out@), cur@) == split_nl(v@.take(i as int)),
        decreases v.len() - i,
    {
        let c = v[i];
        proof {
            assert(v@.take(i + 1).drop_last() =~= v@.take(i as int));
            assert(v@.take(i + 1).last() == c);
        }
        if c == '\n' {
            let line = strip_cr_string(cur);
            let ghost before = out@;
            out.push(line);
            proof {
                assert(views(out@) =~= views(before).push(line@));
            }
            cur = String::new();
        } else {
            push_char(&mut cur, c);
        }
        i += 1;
    }
    proof {
        assert(v@.take(v@.len() as int) =~= v@);
    }
    if !cur.as_str().is_empty() {
        let ghost before = out@;
        out.push(cur);
        proof {
            assert(views(out@) =~= views(before).push(cur@));
        }
    }
    out
}

/// The parts joined with `sep` between them (`[..].join(sep)`).
pub open spec fn join_seq(parts: Seq<Seq<char>>, sep: Seq<char>) -> Seq<char>
    decreases parts.len(),
{
    if parts.len() == 0 {
        seq![]
    } else if parts.len() == 1 {
        parts[0]
    } else {
        join_seq(parts.drop_last(), sep) + sep + parts.last()
    }
}

/// `parts.join(sep)`.
pub fn join(parts: &Vec<String>, sep: &str) -> (r: String)
    ensures
        r@ == join_seq(views(parts@), sep@),
{
    let mut r = String::new();
    let mut i: usize = 0;
    while i < parts.len()
        invariant
            i <= parts.len(),
            r@ == join_seq(views(parts@).take(i as int), sep@),
        decreases parts.len() - i,
    {
        proof {
            let t = views(parts@).take(i + 1);
            assert(t.drop_last() =~= views(parts@).take(i as int));
            assert(t.last() == parts@[i as int]@);
            if i == 0 {
                assert(t.len() == 1);
            }
        }
        if i > 0 {
            push_str(&mut r, sep);
        }
        push_str(&mut r, parts[i].as_str());
        i += 1;
    }
    proof {
        assert(views(parts@).take(parts@.len() as int) =~= views(parts@));
    }
    r
}

/// The byte length of `s` as `str::len` returns it.
pub open spec fn slen(s: Seq<char>) -> usize {
    blen(s) as usize
}

/// The encoding of a concatenation is the concatenation of the encodings.
pub proof fn lemma_encode_concat(a: Seq<char>, b: Seq<char>)
    ensures
        vstd::utf8::encode_utf8(a + b) == vstd::utf8::encode_utf8(a) + vstd::utf8::encode_utf8(b),
    decreases a.len(),
{
    if a.len() > 0 {
        assert((a + b).drop_first() =~= a.drop_first() + b);
        assert((a + b)[0] == a[0]);
        lemma_encode_concat(a.drop_first(), b);
        assert(vstd::utf8::encode_utf8(a + b) =~= vstd::utf8::encode_utf8(a) + vstd::utf8::encode_utf8(b));
    } else {
        assert(a + b =~= b);
        assert(vstd::utf8::encode_utf8(a) =~= Seq::<u8>::empty());
        assert(vstd::utf8::encode_utf8(a) + vstd::utf8::encode_utf8(b) =~= vstd::utf8::encode_utf8(b));
    }
}

/// `s.len()`: the length of `s` in bytes.
pub fn byte_len(s: &str) -> (n: usize)
    ensures
        n == slen(s@),
        n as int == blen(s@),
{
    s.as_bytes().len()
}

/// `b` is a character boundary of the UTF-8 encoding of `s`.
pub open spec fn is_boundary(s: Seq<char>, b: int) -> bool {
    vstd::utf8::is_char_boundary(vstd::utf8::encode_utf8(s), b)
}

/// `s.is_char_boundary(b)`.
pub fn char_boundary(s: &str, b: usize) -> (r: bool)
    ensures
        r == is_boundary(s@, b as int),
{
    s.is_char_boundary(b)
}

/// `s[..n]` as a new `String`: the first `n` bytes, which must end on a character boundary.
pub fn byte_prefix(s: &str, n: usize) -> (r: String)
    requires
        is_boundary(s@, n as int),
    ensures
        vstd::utf8::encode_utf8(r@) == vstd::utf8::encode_utf8(s@).subrange(0, n as int),
{
    let (a, _b) = s.split_at(n);
    String::from_str(a)
}

/// `s[n..]` as a new `String`: the bytes from `n` on, which must start on a character boundary.
pub fn byte_suffix(s: &str, n: usize) -> (r: String)
    requires
        is_boundary(s@, n as int),
    ensures
        vstd::utf8::encode_utf8(r@) == vstd::utf8::encode_utf8(s@).subrange(
            n as int,
            blen(s@) as int,
        ),
{
    let (_a, b) = s.split_at(n);
    String::from_str(b)
}

/// The text of the first `n` bytes of `s`.
pub open spec fn byte_head(s: Seq<char>, n: int) -> Seq<char> {
    vstd::utf8::decode_utf8(vstd::utf8::encode_utf8(s).subrange(0, n))
}

/// The text of the bytes of `s` from `n` on.
pub open spec fn byte_tail(s: Seq<char>, n: int) -> Seq<char> {
    vstd::utf8::decode_utf8(vstd::utf8::encode_utf8(s).subrange(n, blen(s) as int))
}

/// `&s[..n]` as a `String`.
pub fn head_bytes(s: &str, n: usize) -> (r: String)
    requires
        is_boundary(s@, n as int),
    ensures
        r@ == byte_head(s@, n as int),
{
    let r = byte_prefix(s, n);
    proof {
        vstd::utf8::encode_utf8_decode_utf8(r@);
    }
    r
}

/// `&s[n..]` as a `String`.
pub fn tail_bytes(s: &str, n: usize) -> (r: String)
    requires
        is_boundary(s@, n as int),
    ensures
        r@ == byte_tail(s@, n as int),
{
    let r = byte_suffix(s, n);
    proof {
        vstd::utf8::encode_utf8_decode_utf8(r@);
    }
    r
}

// ---------------------------------------------------------------------------
// Decimal numbers
// ---------------------------------------------------------------------------

/// The decimal digit character for `d < 10`.
pub open spec fn digit_char(d: nat) -> char {
    ((d + 48) as u8) as char
}

/// The decimal representation of `n` (as `{}` formats an unsigned integer).
pub open spec fn dec(n: nat) -> Seq<char>
    decreases n,
{
    if n < 10 {
        seq![digit_char(n)]
    } else {
        dec(n / 10).push(digit_char(n % 10))
    }
}

/// The decimal representation of a signed integer.
pub open spec fn dec_int(n: int) -> Seq<char> {
    if n < 0 {
        seq!['-'] + dec((-n) as nat)
    } else {
        dec(n as nat)
    }
}

/// `n.to_string()` for a `u64`.
pub fn u64_to_string(n: u64) -> (r: String)
    ensures
        r@ == dec(n as nat),
    decreases n,
{
    if n < 10 {
        let mut r = String::new();
        push_char(&mut r, ((n + 48) as u8) as char);
        proof {
            assert(r@ =~= seq![digit_char(n as nat)]);
        }
        r
    } else {
        let mut r = u64_to_string(n / 10);
        push_char(&mut r, ((n % 10 + 48) as u8) as char);
        r
    }
}

/// `n.to_string()` for a `u128`.
pub fn u128_to_string(n: u128) -> (r: String)
    ensures
        r@ == dec(n as nat),
    decreases n,
{
    if n < 10 {
        let mut r = String::new();
        push_char(&mut r, ((n + 48) as u8) as char);
        proof {
            assert(r@ =~= seq![digit_char(n as nat)]);
        }
        r
    } else {
        let mut r = u128_to_string(n / 10);
        push_char(&mut r, ((n % 10 + 48) as u8) as char);
        r
    }
}

/// `(n + 1).to_string()` for a `usize`, without overflow.
pub fn succ_to_string(n: usize) -> (r: String)
    ensures
        r@ == dec(n as nat + 1),
{
    u128_to_string(n as u128 + 1)
}

/// `n.to_string()` for a `usize`.
pub fn usize_to_string(n: usize) -> (r: String)
    ensures
        r@ == dec(n as nat),
{
    u64_to_string(n as u64)
}

/// `n.to_string()` for an `i32`.
pub fn i32_to_string(n: i32) -> (r: String)
    ensures
        r@ == dec_int(n as int),
{
    if n < 0 {
        let m: u64 = (-(n as i64)) as u64;
        let d = u64_to_string(m);
        let mut r = String::new();
        push_char(&mut r, '-');
        push_str(&mut r, d.as_str());
        proof {
            assert(r@ =~= seq!['-'] + dec((-n) as nat));
        }
        r
    } else {
        u64_to_string(n as u64)
    }
}

// ---------------------------------------------------------------------------
// Byte lengths (UTF-8)
// ---------------------------------------------------------------------------

/// The length in bytes of the UTF-8 encoding of `s` (`str::len`).
pub open spec fn blen(s: Seq<char>) -> nat {
    vstd::utf8::encode_utf8(s).len()
}

} // verus!
