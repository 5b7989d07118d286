//! A ranked map of a repository's files for orienting the agent: important manifests first,
//! then paths that match the request, listed with their scores.
use vstd::prelude::*;

use crate::order::{text_le, text_le_exec};
use crate::text::{
    chars_of, contains, contains_seq, dec_int, ends_with, ends_with_seq, eq_str, i32_to_string,
    owned, push_char, push_str, slen, spec_to_lowercase, to_lowercase, usize_to_string, views,
};

verus! {

/// The manifests that head the map when they are files.
pub open spec fn important_names() -> Seq<Seq<char>> {
    seq!["README.md"@, "Cargo.toml"@, "package.json"@, "pyproject.toml"@]
}

/// The important manifests present: `present[i]` says whether the `i`-th of
/// `important_names` is a file (a missing flag counts as absent).
pub open spec fn important_of(present: Seq<bool>, n: int) -> Seq<Seq<char>>
    decreases n,
{
    if n <= 0 {
        seq![]
    } else {
        let r = important_of(present, n - 1);
        if n - 1 < present.len() && present[n - 1] {
            r.push(important_names()[n - 1])
        } else {
            r
        }
    }
}

/// The important manifests looked for, in order (see `important_names`).
pub fn important_file_names() -> (r: Vec<String>)
    ensures
        views(r@) == important_names(),
{
    let v: Vec<String> = vec![
        owned("README.md"),
        owned("Cargo.toml"),
        owned("package.json"),
        owned("pyproject.toml"),
    ];
    proof {
        assert(views(v@) =~= important_names());
    }
    v
}

/// The important manifests that are files, in order.
pub fn important_paths(present: &Vec<bool>) -> (r: Vec<String>)
    ensures
        views(r@) == important_of(present@, 4),
{
    let mut v: Vec<String> = Vec::new();
    let mut i: usize = 0;
    while i < 4
        invariant
            i <= 4,
            views(v@) == important_of(present@, i as int),
        decreases 4 - i,
    {
        if i < present.len() && present[i] {
            let n = match i {
                0 => "README.md",
                1 => "Cargo.toml",
                2 => "package.json",
                _ => "pyproject.toml",
            };
            let ghost before = v@;
            v.push(owned(n));
            proof {
                assert(n@ == important_names()[i as int]);
                assert(views(v@) =~= views(before).push(n@));
            }
        }
        i += 1;
    }
    v
}

/// Names the map never enters or lists.
pub open spec fn map_skipped(n: Seq<char>) -> bool {
    ||| n == "target"@
    ||| n == "node_modules"@
    ||| n == ".git"@
    ||| n == "dist"@
    ||| n == "build"@
    ||| n == ".vesper"@
    ||| n == "__pycache__"@
    ||| n == ".venv"@
    ||| n == "venv"@
    ||| n == ".idea"@
    ||| n == ".cursor"@
    ||| (n.len() > 0 && n[0] == '.')
}

/// Whether the map passes over an entry of this name.
pub fn skip(name: &str) -> (r: bool)
    ensures
        r == map_skipped(name@),
{
    let v = chars_of(name);
    eq_str(name, "target") || eq_str(name, "node_modules") || eq_str(name, ".git") || eq_str(
        name,
        "dist",
    ) || eq_str(name, "build") || eq_str(name, ".vesper") || eq_str(name, "__pycache__") || eq_str(
        name,
        ".venv",
    ) || eq_str(name, "venv") || eq_str(name, ".idea") || eq_str(name, ".cursor") || (v.len() > 0
        && v[0] == '.')
}

/// Names of files the map lists: code, manifests and documents.
pub open spec fn codeish(n: Seq<char>) -> bool {
    ||| ends_with_seq(n, ".rs"@)
    ||| ends_with_seq(n, ".py"@)
    ||| ends_with_seq(n, ".ts"@)
    ||| ends_with_seq(n, ".tsx"@)
    ||| ends_with_seq(n, ".js"@)
    ||| ends_with_seq(n, ".go"@)
    ||| ends_with_seq(n, ".java"@)
    ||| ends_with_seq(n, ".toml"@)
    ||| ends_with_seq(n, ".md"@)
    ||| ends_with_seq(n, ".yaml"@)
    ||| ends_with_seq(n, ".yml"@)
    ||| ends_with_seq(n, ".json"@)
}

/// Whether the map lists a file of this name.
pub fn is_codeish(name: &str) -> (r: bool)
    ensures
        r == codeish(name@),
{
    ends_with(name, ".rs") || ends_with(name, ".py") || ends_with(name, ".ts") || ends_with(
        name,
        ".tsx",
    ) || ends_with(name, ".js") || ends_with(name, ".go") || ends_with(name, ".java") || ends_with(
        name,
        ".toml",
    ) || ends_with(name, ".md") || ends_with(name, ".yaml") || ends_with(name, ".yml") || ends_with(
        name,
        ".json",
    )
}

/// Whether `char::is_alphanumeric` holds of `c` (Unicode alphabetic or numeric).
pub uninterp spec fn spec_is_alphanumeric(c: char) -> bool;

/// Calls `char::is_alphanumeric`; its result is named by `spec_is_alphanumeric`.
#[verifier::external_body]
fn is_alphanumeric(c: char) -> (r: bool)
    ensures
        r == spec_is_alphanumeric(c),
{
    c.is_alphanumeric()
}

/// Scanning `s` from the left: the pieces ended by a character that is not alphanumeric,
/// and the piece going on.
pub open spec fn split_alnum(s: Seq<char>) -> (Seq<Seq<char>>, Seq<char>)
    decreases s.len(),
{
    if s.len() == 0 {
        (seq![], seq![])
    } else {
        let (d, c) = split_alnum(s.drop_last());
        if spec_is_alphanumeric(s.last()) {
            (d, c.push(s.last()))
        } else {
            (d.push(c), seq![])
        }
    }
}

/// The pieces longer than two bytes.
pub open spec fn long_pieces(ps: Seq<Seq<char>>) -> Seq<Seq<char>>
    decreases ps.len(),
{
    if ps.len() == 0 {
        seq![]
    } else {
        let r = long_pieces(ps.drop_last());
        if slen(ps.last()) > 2 {
            r.push(ps.last())
        } else {
            r
        }
    }
}

/// The words of a request that rank paths: its lowercase pieces between characters that are
/// not alphanumeric, longer than two bytes.
pub open spec fn query_words(query: Seq<char>) -> Seq<Seq<char>> {
    let (d, c) = split_alnum(spec_to_lowercase(query));
    long_pieces(d.push(c))
}

/// The words of a request that rank paths.
pub fn query_tokens(query: &str) -> (r: Vec<String>)
    ensures
        views(r@) == query_words(query@),
{
    let q = to_lowercase(query);
    let v = chars_of(q.as_str());
    let mut pieces: Vec<String> = Vec::new();
    let mut cur = String::new();
    let mut i: usize = 0;
    while i < v.len()
        invariant
            i <= v.len(),
            v@ == spec_to_lowercase(query@),
            (views(pieces@), cur@) == split_alnum(v@.take(i as int)),
        decreases v.len() - i,
    {
        let c = v[i];
        proof {
            assert(v@.take(i + 1).drop_last() =~= v@.take(i as int));
            assert(v@.take(i + 1).last() == c);
        }
        if is_alphanumeric(c) {
            push_char(&mut cur, c);
        } else {
            let ghost before = pieces@;
            pieces.push(cur);
            proof {
                assert(views(pieces@) =~= views(before).push(split_alnum(v@.take(i as int)).1));
            }
            cur = String::new();
        }
        i += 1;
    }
    proof {
        assert(v@.take(v@.len() as int) =~= v@);
    }
    let ghost before = pieces@;
    pieces.push(cur);
    proof {
        assert(views(pieces@) =~= views(before).push(cur@));
    }
    let ghost pv = views(pieces@);
    let mut out: Vec<String> = Vec::new();
    let mut k: usize = 0;
    while k < pieces.len()
        invariant
            k <= pieces@.len(),
            pv == views(pieces@),
            views(out@) == long_pieces(pv.take(k as int)),
        decreases pieces@.len() - k,
    {
        proof {
            assert(pv.take(k + 1).drop_last() =~= pv.take(k as int));
            assert(pv.take(k + 1).last() == pieces@[k as int]@);
        }
        if crate::text::byte_len(pieces[k].as_str()) > 2 {
            let ghost b = out@;
            out.push(pieces[k].clone());
            proof {
                assert(views(out@) =~= views(b).push(pieces@[k as int]@));
            }
        }
        k += 1;
    }
    proof {
        assert(pv.take(pv.len() as int) =~= pv);
    }
    out
}

/// The number of words that occur in `lower`.
pub open spec fn words_in(lower: Seq<char>, ws: Seq<Seq<char>>) -> int
    decreases ws.len(),
{
    if ws.len() == 0 {
        0
    } else {
        words_in(lower, ws.drop_last()) + if contains_seq(lower, ws.last()) {
            1int
        } else {
            0
        }
    }
}

/// The score of a path that starts at `base`: 8 per request word it holds (in lowercase),
/// 5 for a README or Cargo manifest, 6 for a crate root under `src/`, 2 off for a test.
pub open spec fn path_score(base: int, path: Seq<char>, ws: Seq<Seq<char>>) -> int {
    let lower = spec_to_lowercase(path);
    base + 8 * words_in(lower, ws) + (if ends_with_seq(lower, "readme.md"@) || ends_with_seq(
        lower,
        "cargo.toml"@,
    ) {
        5int
    } else {
        0
    }) + (if contains_seq(lower, "/src/"@) && (ends_with_seq(lower, "main.rs"@) || ends_with_seq(
        lower,
        "lib.rs"@,
    )) {
        6int
    } else {
        0
    }) - (if contains_seq(lower, "test"@) {
        2int
    } else {
        0
    })
}

/// The most words a request may hold for scores to stay within `i32`.
pub const MAX_QUERY_WORDS: usize = 268435452;

proof fn lemma_words_in_bound(lower: Seq<char>, ws: Seq<Seq<char>>)
    ensures
        0 <= words_in(lower, ws) <= ws.len(),
    decreases ws.len(),
{
    if ws.len() > 0 {
        lemma_words_in_bound(lower, ws.drop_last());
    }
}

/// The score of a path starting at `base` (0 or 20).
fn score_path(base: i32, path: &str, words: &Vec<String>) -> (r: i32)
    requires
        base == 0 || base == 20,
        words@.len() <= 268435452,
    ensures
        r as int == path_score(base as int, path@, views(words@)),
{
    let lower = to_lowercase(path);
    let ghost wv = views(words@);
    let mut n: i32 = base;
    let mut i: usize = 0;
    while i < words.len()
        invariant
            i <= words@.len() <= 268435452,
            wv == views(words@),
            base == 0 || base == 20,
            n as int == base + 8 * words_in(lower@, wv.take(i as int)),
            0 <= words_in(lower@, wv.take(i as int)) <= i,
        decreases words@.len() - i,
    {
        proof {
            assert(wv.take(i + 1).drop_last() =~= wv.take(i as int));
            assert(wv.take(i + 1).last() == words@[i as int]@);
        }
        if contains(lower.as_str(), words[i].as_str()) {
            n = n + 8;
        }
        i += 1;
    }
    proof {
        assert(wv.take(wv.len() as int) =~= wv);
        lemma_words_in_bound(lower@, wv);
    }
    if ends_with(lower.as_str(), "readme.md") || ends_with(lower.as_str(), "cargo.toml") {
        n = n + 5;
    }
    if contains(lower.as_str(), "/src/") && (ends_with(lower.as_str(), "main.rs") || ends_with(
        lower.as_str(),
        "lib.rs",
    )) {
        n = n + 6;
    }
    if contains(lower.as_str(), "test") {
        n = n - 2;
    }
    n
}

/// A ranked path: its score and the path.
pub type Ranked = (int, Seq<char>);

/// `a` ranks before or with `b`: a higher score, or the same score and a path no later.
pub open spec fn ranks_before(a: Ranked, b: Ranked) -> bool {
    a.0 > b.0 || (a.0 == b.0 && text_le(a.1, b.1))
}

/// Inserting `x` into a ranked list: after every entry that ranks before or with it.
pub open spec fn insert_ranked(s: Seq<Ranked>, x: Ranked) -> Seq<Ranked>
    decreases s.len(),
{
    if s.len() == 0 {
        seq![x]
    } else if ranks_before(s.last(), x) {
        s.push(x)
    } else {
        insert_ranked(s.drop_last(), x).push(s.last())
    }
}

/// The entries ranked: highest score first, then by path.
pub open spec fn ranked(s: Seq<Ranked>) -> Seq<Ranked>
    decreases s.len(),
{
    if s.len() == 0 {
        seq![]
    } else {
        insert_ranked(ranked(s.drop_last()), s.last())
    }
}

/// The list without an entry whose path repeats the one kept just before it.
pub open spec fn dedup_adjacent(s: Seq<Ranked>) -> Seq<Ranked>
    decreases s.len(),
{
    if s.len() == 0 {
        seq![]
    } else {
        let r = dedup_adjacent(s.drop_last());
        if r.len() > 0 && r.last().1 == s.last().1 {
            r
        } else {
            r.push(s.last())
        }
    }
}

/// `d` right-aligned in two columns (`{:>2}`).
pub open spec fn pad2(d: Seq<char>) -> Seq<char> {
    if d.len() >= 2 {
        d
    } else {
        seq![' '] + d
    }
}

/// Line `n` of the map, for the entry `e`: `{n:>2}. [score] path`.
pub open spec fn map_line(n: nat, e: Ranked) -> Seq<char> {
    pad2(crate::text::dec(n)) + ". ["@ + dec_int(e.0) + "] "@ + e.1 + "\n"@
}

/// The lines of the map for `s`, numbered from 1.
pub open spec fn map_lines(s: Seq<Ranked>) -> Seq<char>
    decreases s.len(),
{
    if s.len() == 0 {
        seq![]
    } else {
        map_lines(s.drop_last()) + map_line(s.len(), s.last())
    }
}

/// Appends line `n` of the map.
fn push_map_line(out: &mut String, n: usize, score: i32, path: &str)
    ensures
        final(out)@ == old(out)@ + map_line(n as nat, (score as int, path@)),
{
    let num = usize_to_string(n);
    if chars_of(num.as_str()).len() < 2 {
        push_char(out, ' ');
    }
    push_str(out, num.as_str());
    push_str(out, ". [");
    let sc = i32_to_string(score);
    push_str(out, sc.as_str());
    push_str(out, "] ");
    push_str(out, path);
    push_str(out, "\n");
    proof {
        assert(out@ =~= old(out)@ + map_line(n as nat, (score as int, path@)));
    }
}

/// The scored entries: the important manifests at 20, the collected paths at 0, each
/// scored against the request words.
pub open spec fn scored(important: Seq<Seq<char>>, collected: Seq<Seq<char>>, ws: Seq<Seq<char>>) -> Seq<Ranked> {
    Seq::new(important.len(), |i: int| (path_score(20, important[i], ws), important[i])) + Seq::new(
        collected.len(),
        |i: int| (path_score(0, collected[i], ws), collected[i]),
    )
}

/// The map text: the heading, then at most 40 ranked paths without adjacent repeats.
pub open spec fn map_text(important: Seq<Seq<char>>, collected: Seq<Seq<char>>, ws: Seq<Seq<char>>) -> Seq<char> {
    let d = dedup_adjacent(ranked(scored(important, collected, ws)));
    "Repo map (ranked paths):\n"@ + map_lines(
        if d.len() > 40 {
            d.take(40)
        } else {
            d
        },
    )
}

/// An entry of the map being built.
struct Entry {
    score: i32,
    path: String,
}

/// The entries as ranked values.
spec fn entries_view(s: Seq<Entry>) -> Seq<Ranked> {
    s.map_values(|e: Entry| (e.score as int, e.path@))
}

/// Whether `a` ranks before or with `b`.
fn ranks_before_exec(a: &Entry, b: &Entry) -> (r: bool)
    ensures
        r == ranks_before((a.score as int, a.path@), (b.score as int, b.path@)),
{
    a.score > b.score || (a.score == b.score && text_le_exec(a.path.as_str(), b.path.as_str()))
}

/// Inserts `x` into the ranked entries.
fn insert_entry(sorted: &mut Vec<Entry>, x: Entry)
    ensures
        entries_view(final(sorted)@) == insert_ranked(entries_view(old(sorted)@), (
            x.score as int,
            x.path@,
        )),
{
    let ghost xv = (x.score as int, x.path@);
    let ghost s0 = entries_view(sorted@);
    let mut p = sorted.len();
    proof {
        assert(s0.take(p as int) =~= s0);
        assert(s0.skip(p as int) =~= Seq::<Ranked>::empty());
        assert(insert_ranked(s0, xv) =~= insert_ranked(s0.take(p as int), xv) + s0.skip(p as int));
    }
    while p > 0 && !ranks_before_exec(&sorted[p - 1], &x)
        invariant
            p <= sorted@.len(),
            entries_view(sorted@) == s0,
            s0 == entries_view(old(sorted)@),
            xv == (x.score as int, x.path@),
            insert_ranked(s0, xv) == insert_ranked(s0.take(p as int), xv) + s0.skip(p as int),
        decreases p,
    {
        proof {
            let t = s0.take(p as int);
            assert(s0[p - 1] == (sorted@[p - 1].score as int, sorted@[p - 1].path@));
            assert(t.drop_last() =~= s0.take(p - 1));
            assert(t.last() == s0[p - 1]);
            assert(s0.skip(p - 1) =~= seq![s0[p - 1]] + s0.skip(p as int));
            assert(insert_ranked(t, xv) == insert_ranked(s0.take(p - 1), xv).push(s0[p - 1]));
            assert(insert_ranked(t, xv) + s0.skip(p as int) =~= insert_ranked(s0.take(p - 1), xv)
                + s0.skip(p - 1));
        }
        p -= 1;
    }
    proof {
        let t = s0.take(p as int);
        if p > 0 {
            assert(t.last() == s0[p - 1]);
            assert(s0[p - 1] == (sorted@[p - 1].score as int, sorted@[p - 1].path@));
        }
        assert(insert_ranked(t, xv) == t.push(xv));
    }
    sorted.insert(p, x);
    proof {
        assert(entries_view(sorted@) =~= s0.take(p as int).push(xv) + s0.skip(p as int));
    }
}

/// The ranked map of a repository: `important` are the important manifests found (scored
/// from 20), `collected` the code files found (from 0), `words` the request's words (see
/// `query_tokens`).
pub fn repo_map(important: &Vec<String>, collected: &Vec<String>, words: &Vec<String>) -> (r: String)
    requires
        words@.len() <= 268435452,
    ensures
        r@ == map_text(views(important@), views(collected@), views(words@)),
{
    let ghost wv = views(words@);
    let ghost all = scored(views(important@), views(collected@), wv);
    let ghost ni = important@.len() as int;
    let mut sorted: Vec<Entry> = Vec::new();
    let mut i: usize = 0;
    while i < important.len()
        invariant
            i <= important@.len(),
            wv == views(words@),
            words@.len() <= 268435452,
            all == scored(views(important@), views(collected@), wv),
            entries_view(sorted@) == ranked(all.take(i as int)),
        decreases important@.len() - i,
    {
        let x = Entry { score: score_path(20, important[i].as_str(), words), path: important[i].clone() };
        proof {
            assert(all[i as int] == (x.score as int, x.path@));
            assert(all.take(i + 1).drop_last() =~= all.take(i as int));
            assert(all.take(i + 1).last() == all[i as int]);
        }
        insert_entry(&mut sorted, x);
        i += 1;
    }
    let mut k: usize = 0;
    while k < collected.len()
        invariant
            k <= collected@.len(),
            ni == important@.len(),
            wv == views(words@),
            words@.len() <= 268435452,
            all == scored(views(important@), views(collected@), wv),
            entries_view(sorted@) == ranked(all.take(ni + k)),
        decreases collected@.len() - k,
    {
        let x = Entry { score: score_path(0, collected[k].as_str(), words), path: collected[k].clone() };
        proof {
            assert(all[ni + k] == (x.score as int, x.path@));
            assert(all.take(ni + k + 1).drop_last() =~= all.take(ni + k));
            assert(all.take(ni + k + 1).last() == all[ni + k]);
        }
        insert_entry(&mut sorted, x);
        k += 1;
    }
    proof {
        assert(all.take(ni + collected@.len()) =~= all);
    }
    let ghost rk = entries_view(sorted@);
    let mut kept: Vec<Entry> = Vec::new();
    let mut j: usize = 0;
    while j < sorted.len()
        invariant
            j <= sorted@.len(),
            rk == entries_view(sorted@),
            entries_view(kept@) == dedup_adjacent(rk.take(j as int)),
        decreases sorted@.len() - j,
    {
        proof {
            assert(rk.take(j + 1).drop_last() =~= rk.take(j as int));
            assert(rk.take(j + 1).last() == rk[j as int]);
        }
        let same = kept.len() > 0 && eq_str(
            kept[kept.len() - 1].path.as_str(),
            sorted[j].path.as_str(),
        );
        if !same {
            let ghost b = kept@;
            kept.push(Entry { score: sorted[j].score, path: sorted[j].path.clone() });
            proof {
                assert(entries_view(kept@) =~= entries_view(b).push(rk[j as int]));
            }
        } else {
            proof {
                assert(entries_view(kept@).last() == (kept@.last().score as int, kept@.last().path@));
            }
        }
        j += 1;
    }
    proof {
        assert(rk.take(rk.len() as int) =~= rk);
    }
    let ghost d = entries_view(kept@);
    let limit = if kept.len() > 40 {
        40
    } else {
        kept.len()
    };
    let ghost shown = if d.len() > 40 {
        d.take(40)
    } else {
        d
    };
    let mut out = owned("Repo map (ranked paths):\n");
    let ghost head = out@;
    let mut k: usize = 0;
    while k < limit
        invariant
            k <= limit <= kept@.len(),
            d == entries_view(kept@),
            limit == shown.len(),
            shown == if d.len() > 40 {
                d.take(40)
            } else {
                d
            },
            out@ == head + map_lines(shown.take(k as int)),
        decreases limit - k,
    {
        let ghost o0 = out@;
        push_map_line(&mut out, k + 1, kept[k].score, kept[k].path.as_str());
        proof {
            let t = shown.take(k + 1);
            assert(t.drop_last() =~= shown.take(k as int));
            assert(t.last() == shown[k as int]);
            assert(shown[k as int] == (kept@[k as int].score as int, kept@[k as int].path@));
            assert(map_lines(t) == map_lines(shown.take(k as int)) + map_line(
                (k + 1) as nat,
                shown[k as int],
            ));
        }
        k += 1;
    }
    proof {
        assert(shown.take(limit as int) =~= shown);
    }
    out
}

/// The ranked map of a repository for a request (`query`): the manifests and code files found
/// ranked by `repo_map` against the request's words. `None` only where the request holds more
/// than `MAX_QUERY_WORDS` words, which no scoring of a path can hold.
pub fn build_repo_map(important: &Vec<String>, collected: &Vec<String>, query: &str) -> (r: Option<String>)
    ensures
        query_words(query@).len() <= MAX_QUERY_WORDS ==> (r matches Some(t) && t@ == map_text(
            views(important@),
            views(collected@),
            query_words(query@),
        )),
        query_words(query@).len() > MAX_QUERY_WORDS ==> r is None,
{
    let words = query_tokens(query);
    if words.len() > MAX_QUERY_WORDS {
        return None;
    }
    Some(repo_map(important, collected, &words))
}

} // verus!
