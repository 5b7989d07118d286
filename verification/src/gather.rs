//! A digest of a codebase for summarizing it: which files to read, in which order, how much
//! of each, and the prompt made of them. The caller walks the directories and reads the
//! files; this module decides.
use vstd::prelude::*;

use crate::project::ProjectInfo;
use crate::text::{
    blen, byte_head, byte_len, byte_tail, chars_of, contains, contains_seq, dec, ends_with,
    ends_with_seq, eq_str, head_bytes, is_boundary, join, join_seq, lines, lines_seq, owned,
    push_str, slen, starts_with, starts_with_seq, string_of_range, tail_bytes, trim, trim_seq,
    usize_to_string, views,
};

verus! {

/// An excerpt of a file read into the digest.
#[derive(Debug)]
pub struct CodeFileSnippet {
    pub path: String,
    pub content: String,
    pub bytes: usize,
}

/// The digest of a codebase: the scan, the excerpts, and the files noted but not read.
#[derive(Debug)]
pub struct CodebaseDigest {
    pub info: ProjectInfo,
    pub files: Vec<CodeFileSnippet>,
    pub skipped: Vec<String>,
}

/// A file's part of the digest prompt.
pub open spec fn file_block(f: CodeFileSnippet) -> Seq<char> {
    "===== FILE: "@ + f.path@ + " ("@ + dec(f.bytes as nat) + " bytes, excerpt) =====\n"@
        + f.content@ + "\n\n"@
}

/// The files' parts of the prompt, in order.
pub open spec fn file_blocks(fs: Seq<CodeFileSnippet>) -> Seq<char>
    decreases fs.len(),
{
    if fs.len() == 0 {
        seq![]
    } else {
        file_blocks(fs.drop_last()) + file_block(fs.last())
    }
}

/// The list of files noted but not read.
pub open spec fn skipped_lines(s: Seq<Seq<char>>) -> Seq<char>
    decreases s.len(),
{
    if s.len() == 0 {
        seq![]
    } else {
        skipped_lines(s.drop_last()) + "- "@ + s.last() + "\n"@
    }
}

/// The prompt of a digest: the scan, each excerpt, and the files not read.
pub open spec fn digest_prompt(d: CodebaseDigest) -> Seq<char> {
    "Project scan: "@ + d.info.summary@ + "\nLanguages: "@ + join_seq(
        views(d.info.languages@),
        ", "@,
    ) + "\nKey manifests: "@ + join_seq(views(d.info.key_files@), ", "@) + "\n\n"@ + file_blocks(
        d.files@,
    ) + if d.skipped@.len() == 0 {
        Seq::<char>::empty()
    } else {
        "Also noted but not fully inlined:\n"@ + skipped_lines(views(d.skipped@))
    }
}

impl CodebaseDigest {
    /// The prompt that asks for a summary of the codebase.
    pub fn prompt_block(&self) -> (r: String)
        ensures
            r@ == digest_prompt(*self),
    {
        let mut out = owned("Project scan: ");
        push_str(&mut out, self.info.summary.as_str());
        push_str(&mut out, "\nLanguages: ");
        let l = join(&self.info.languages, ", ");
        push_str(&mut out, l.as_str());
        push_str(&mut out, "\nKey manifests: ");
        let k = join(&self.info.key_files, ", ");
        push_str(&mut out, k.as_str());
        push_str(&mut out, "\n\n");
        let ghost head = out@;
        let mut i: usize = 0;
        while i < self.files.len()
            invariant
                i <= self.files@.len(),
                out@ == head + file_blocks(self.files@.take(i as int)),
            decreases self.files@.len() - i,
        {
            let f = &self.files[i];
            push_str(&mut out, "===== FILE: ");
            push_str(&mut out, f.path.as_str());
            push_str(&mut out, " (");
            let d = usize_to_string(f.bytes);
            push_str(&mut out, d.as_str());
            push_str(&mut out, " bytes, excerpt) =====\n");
            push_str(&mut out, f.content.as_str());
            push_str(&mut out, "\n\n");
            proof {
                let t = self.files@.take(i + 1);
                assert(t.drop_last() =~= self.files@.take(i as int));
                assert(t.last() == *f);
                assert(out@ =~= head + file_blocks(t));
            }
            i += 1;
        }
        proof {
            assert(self.files@.take(self.files@.len() as int) =~= self.files@);
        }
        let ghost mid = out@;
        if self.skipped.len() > 0 {
            push_str(&mut out, "Also noted but not fully inlined:\n");
            let ghost h2 = out@;
            let ghost sv = views(self.skipped@);
            let mut j: usize = 0;
            while j < self.skipped.len()
                invariant
                    j <= self.skipped@.len(),
                    sv == views(self.skipped@),
                    out@ == h2 + skipped_lines(sv.take(j as int)),
                decreases self.skipped@.len() - j,
            {
                push_str(&mut out, "- ");
                push_str(&mut out, self.skipped[j].as_str());
                push_str(&mut out, "\n");
                proof {
                    let t = sv.take(j + 1);
                    assert(t.drop_last() =~= sv.take(j as int));
                    assert(t.last() == self.skipped@[j as int]@);
                    assert(out@ =~= h2 + skipped_lines(t));
                }
                j += 1;
            }
            proof {
                assert(sv.take(sv.len() as int) =~= sv);
                assert(out@ =~= mid + ("Also noted but not fully inlined:\n"@ + skipped_lines(sv)));
            }
        } else {
            proof {
                assert(out@ =~= mid + Seq::<char>::empty());
            }
        }
        out
    }
}

// ---------------------------------------------------------------------------
// Which files to read
// ---------------------------------------------------------------------------

/// The manifests and documents read first, when they are files.
pub open spec fn first_files() -> Seq<Seq<char>> {
    seq![
        "README.md"@,
        "README"@,
        "Cargo.toml"@,
        "package.json"@,
        "pyproject.toml"@,
        "go.mod"@,
        "AGENTS.md"@,
    ]
}

/// The manifests and documents read first, when they are files (see `first_files`).
pub fn first_file_names() -> (r: Vec<String>)
    ensures
        views(r@) == first_files(),
{
    let mut v: Vec<String> = Vec::new();
    v.push(owned("README.md"));
    v.push(owned("README"));
    v.push(owned("Cargo.toml"));
    v.push(owned("package.json"));
    v.push(owned("pyproject.toml"));
    v.push(owned("go.mod"));
    v.push(owned("AGENTS.md"));
    proof {
        assert(views(v@) =~= first_files());
    }
    v
}

/// The workspace member a line of `Cargo.toml` names, if it looks like one: a trimmed line
/// that starts with `"` and ends with `",` or `"`, with no space in between.
pub open spec fn member_of_line(line: Seq<char>) -> Option<Seq<char>> {
    let t = trim_seq(line);
    if t.len() > 0 && t[0] == '"' {
        let s = t.drop_first();
        let m = if ends_with_seq(s, "\","@) {
            Some(s.take(s.len() - 2))
        } else if ends_with_seq(s, "\""@) {
            Some(s.take(s.len() - 1))
        } else {
            None
        };
        match m {
            Some(x) => if x.contains(' ') {
                None
            } else {
                Some(x)
            },
            None => None,
        }
    } else {
        None
    }
}

/// The members named by the lines of a `Cargo.toml`, in order.
pub open spec fn members_of(ls: Seq<Seq<char>>) -> Seq<Seq<char>>
    decreases ls.len(),
{
    if ls.len() == 0 {
        seq![]
    } else {
        let r = members_of(ls.drop_last());
        match member_of_line(ls.last()) {
            Some(m) => r.push(m),
            None => r,
        }
    }
}

/// The member a line names, computed.
fn member_line(line: &str) -> (r: Option<String>)
    ensures
        crate::text::opt_view(r) == member_of_line(line@),
{
    let t = trim(line);
    let v = chars_of(t.as_str());
    if v.len() == 0 || v[0] != '"' {
        return None;
    }
    let s = string_of_range(&v, 1, v.len());
    proof {
        assert(v@.subrange(1, v@.len() as int) =~= t@.drop_first());
        reveal_strlit("\",");
        reveal_strlit("\"");
    }
    let sv = chars_of(s.as_str());
    let m = if ends_with(s.as_str(), "\",") {
        string_of_range(&sv, 0, sv.len() - 2)
    } else if ends_with(s.as_str(), "\"") {
        string_of_range(&sv, 0, sv.len() - 1)
    } else {
        return None;
    };
    proof {
        if ends_with_seq(s@, "\","@) {
            assert(sv@.subrange(0, sv@.len() - 2) =~= s@.take(s@.len() - 2));
        } else {
            assert(sv@.subrange(0, sv@.len() - 1) =~= s@.take(s@.len() - 1));
        }
    }
    let mc = chars_of(m.as_str());
    let mut k: usize = 0;
    proof {
        assert(member_of_line(line@) == if m@.contains(' ') {
            None::<Seq<char>>
        } else {
            Some(m@)
        });
    }
    while k < mc.len()
        invariant
            k <= mc@.len(),
            mc@ == m@,
            forall|q: int| 0 <= q < k ==> mc@[q] != ' ',
            member_of_line(line@) == if m@.contains(' ') {
                None::<Seq<char>>
            } else {
                Some(m@)
            },
        decreases mc@.len() - k,
    {
        if mc[k] == ' ' {
            return None;
        }
        k += 1;
    }
    proof {
        assert(!m@.contains(' '));
    }
    Some(m)
}

/// The workspace members a `Cargo.toml` names (each is read only if it is a directory).
pub fn cargo_members(cargo: &str) -> (r: Vec<String>)
    ensures
        views(r@) == members_of(lines_seq(cargo@)),
{
    let ls = lines(cargo);
    let ghost lv = views(ls@);
    let mut out: Vec<String> = Vec::new();
    let mut i: usize = 0;
    while i < ls.len()
        invariant
            i <= ls@.len(),
            lv == views(ls@),
            views(out@) == members_of(lv.take(i as int)),
        decreases ls@.len() - i,
    {
        proof {
            assert(lv.take(i + 1).drop_last() =~= lv.take(i as int));
            assert(lv.take(i + 1).last() == ls@[i as int]@);
        }
        match member_line(ls[i].as_str()) {
            Some(m) => {
                let ghost before = out@;
                out.push(m);
                proof {
                    assert(views(out@) =~= views(before).push(m@));
                }
            },
            None => {},
        }
        i += 1;
    }
    proof {
        assert(lv.take(lv.len() as int) =~= lv);
    }
    out
}

/// The entry points looked for in a package directory, in order.
pub open spec fn entrypoints_of(c: Seq<char>) -> Seq<Seq<char>> {
    seq![
        c + "/Cargo.toml"@,
        c + "/package.json"@,
        c + "/src/lib.rs"@,
        c + "/src/main.rs"@,
        c + "/src/mod.rs"@,
        c + "/lib.rs"@,
        c + "/main.rs"@,
        c + "/index.ts"@,
        c + "/index.js"@,
        c + "/__init__.py"@,
    ]
}

/// Among the entry points looked for in any package directory are its manifests, its library
/// and program roots (`src/lib.rs`, `src/main.rs`), and the usual module roots of Rust,
/// TypeScript, JavaScript and Python packages.
pub proof fn law_entrypoints_hold_crate_roots(c: Seq<char>)
    ensures
        entrypoints_of(c).contains(c + "/Cargo.toml"@),
        entrypoints_of(c).contains(c + "/package.json"@),
        entrypoints_of(c).contains(c + "/src/lib.rs"@),
        entrypoints_of(c).contains(c + "/src/main.rs"@),
        entrypoints_of(c).contains(c + "/src/mod.rs"@),
        entrypoints_of(c).contains(c + "/lib.rs"@),
        entrypoints_of(c).contains(c + "/main.rs"@),
        entrypoints_of(c).contains(c + "/index.ts"@),
        entrypoints_of(c).contains(c + "/index.js"@),
        entrypoints_of(c).contains(c + "/__init__.py"@),
{
    let e = entrypoints_of(c);
    assert(e[0] == c + "/Cargo.toml"@);
    assert(e[1] == c + "/package.json"@);
    assert(e[2] == c + "/src/lib.rs"@);
    assert(e[3] == c + "/src/main.rs"@);
    assert(e[4] == c + "/src/mod.rs"@);
    assert(e[5] == c + "/lib.rs"@);
    assert(e[6] == c + "/main.rs"@);
    assert(e[7] == c + "/index.ts"@);
    assert(e[8] == c + "/index.js"@);
    assert(e[9] == c + "/__init__.py"@);
}

/// The entry points looked for in the package directory `name` (each is read only if it is
/// a file).
pub fn crate_entrypoints(name: &str) -> (r: Vec<String>)
    ensures
        views(r@) == entrypoints_of(name@),
{
    let mut v: Vec<String> = Vec::new();
    v.push(crate::text::concat2(name, "/Cargo.toml"));
    v.push(crate::text::concat2(name, "/package.json"));
    v.push(crate::text::concat2(name, "/src/lib.rs"));
    v.push(crate::text::concat2(name, "/src/main.rs"));
    v.push(crate::text::concat2(name, "/src/mod.rs"));
    v.push(crate::text::concat2(name, "/lib.rs"));
    v.push(crate::text::concat2(name, "/main.rs"));
    v.push(crate::text::concat2(name, "/index.ts"));
    v.push(crate::text::concat2(name, "/index.js"));
    v.push(crate::text::concat2(name, "/__init__.py"));
    proof {
        assert(views(v@) =~= entrypoints_of(name@));
    }
    v
}

/// Directory names the digest does not enter: build output, tools, and hidden ones.
pub open spec fn skipped_dir(n: Seq<char>) -> bool {
    ||| n == "target"@
    ||| n == ".git"@
    ||| n == "node_modules"@
    ||| n == "dist"@
    ||| n == "build"@
    ||| n == ".vesper"@
    ||| n == ".lydia"@
    ||| n == "__pycache__"@
    ||| n == ".venv"@
    ||| n == "venv"@
    ||| n == ".idea"@
    ||| n == ".cursor"@
    ||| (n.len() > 0 && n[0] == '.')
}

/// Whether the digest passes over an entry of this name.
pub fn skip_dir(name: &str) -> (r: bool)
    ensures
        r == skipped_dir(name@),
{
    let v = chars_of(name);
    eq_str(name, "target") || eq_str(name, ".git") || eq_str(name, "node_modules") || eq_str(
        name,
        "dist",
    ) || eq_str(name, "build") || eq_str(name, ".vesper") || eq_str(name, ".lydia") || eq_str(
        name,
        "__pycache__",
    ) || eq_str(name, ".venv") || eq_str(name, "venv") || eq_str(name, ".idea") || eq_str(
        name,
        ".cursor",
    ) || (v.len() > 0 && v[0] == '.')
}

/// Names of source and text files the digest reads.
pub open spec fn source_name(n: Seq<char>) -> bool {
    ||| ends_with_seq(n, ".rs"@)
    ||| ends_with_seq(n, ".py"@)
    ||| ends_with_seq(n, ".ts"@)
    ||| ends_with_seq(n, ".tsx"@)
    ||| ends_with_seq(n, ".js"@)
    ||| ends_with_seq(n, ".go"@)
    ||| ends_with_seq(n, ".java"@)
    ||| ends_with_seq(n, ".toml"@)
    ||| ends_with_seq(n, ".md"@)
}

/// Whether a file of this name is read into the digest.
pub fn is_source_name(name: &str) -> (r: bool)
    ensures
        r == source_name(name@),
{
    ends_with(name, ".rs") || ends_with(name, ".py") || ends_with(name, ".ts") || ends_with(
        name,
        ".tsx",
    ) || ends_with(name, ".js") || ends_with(name, ".go") || ends_with(name, ".java") || ends_with(
        name,
        ".toml",
    ) || ends_with(name, ".md")
}

/// A path that looks like a test, passed over when looking for more sources.
pub open spec fn test_path(p: Seq<char>) -> bool {
    contains_seq(p, "/tests/"@) || contains_seq(p, "test_"@)
}

/// Whether a found source path looks like a test.
pub fn is_test_path(p: &str) -> (r: bool)
    ensures
        r == test_path(p@),
{
    contains(p, "/tests/") || contains(p, "test_")
}

/// `v` without repeats: each path's first occurrence, in order.
pub open spec fn first_occurrences(v: Seq<Seq<char>>) -> Seq<Seq<char>>
    decreases v.len(),
{
    if v.len() == 0 {
        seq![]
    } else {
        let r = first_occurrences(v.drop_last());
        if v.drop_last().contains(v.last()) {
            r
        } else {
            r.push(v.last())
        }
    }
}

/// The paths kept are exactly the paths given.
proof fn lemma_first_occurrences(v: Seq<Seq<char>>)
    ensures
        forall|x: Seq<char>| #[trigger] first_occurrences(v).contains(x) <==> v.contains(x),
    decreases v.len(),
{
    if v.len() > 0 {
        let p = v.drop_last();
        let l = v.last();
        lemma_first_occurrences(p);
        assert forall|x: Seq<char>| #[trigger] first_occurrences(v).contains(x) <==> v.contains(
            x,
        ) by {
            let r = first_occurrences(p);
            assert(r.contains(x) <==> p.contains(x));
            assert(r.contains(l) <==> p.contains(l));
            assert(v =~= p.push(l));
            assert(v.contains(x) <==> (p.contains(x) || x == l)) by {
                if v.contains(x) {
                    let q = choose|q: int| 0 <= q < v.len() && v[q] == x;
                    if q < p.len() {
                        assert(p[q] == x);
                    }
                }
                if p.contains(x) {
                    let q = choose|q: int| 0 <= q < p.len() && p[q] == x;
                    assert(v[q] == x);
                }
                if x == l {
                    assert(v[v.len() - 1] == x);
                }
            }
            assert(r.push(l).contains(x) <==> (r.contains(x) || x == l)) by {
                if r.push(l).contains(x) {
                    let q = choose|q: int| 0 <= q < r.len() + 1 && r.push(l)[q] == x;
                    if q < r.len() {
                        assert(r[q] == x);
                    }
                }
                if r.contains(x) {
                    let q = choose|q: int| 0 <= q < r.len() && r[q] == x;
                    assert(r.push(l)[q] == x);
                }
                if x == l {
                    assert(r.push(l)[r.len() as int] == x);
                }
            }
        }
    }
}

/// The candidates without repeats, in first-seen order.
pub fn dedup_paths(v: &Vec<String>) -> (r: Vec<String>)
    ensures
        views(r@) == first_occurrences(views(v@)),
{
    let ghost vv = views(v@);
    let mut out: Vec<String> = Vec::new();
    let mut i: usize = 0;
    while i < v.len()
        invariant
            i <= v@.len(),
            vv == views(v@),
            views(out@) == first_occurrences(vv.take(i as int)),
        decreases v@.len() - i,
    {
        let ghost t = vv.take(i + 1);
        proof {
            assert(t.drop_last() =~= vv.take(i as int));
            assert(t.last() == v@[i as int]@);
            lemma_first_occurrences(vv.take(i as int));
        }
        let mut seen = false;
        let mut k: usize = 0;
        while k < out.len()
            invariant
                i < v@.len(),
                k <= out@.len(),
                seen <==> exists|q: int| 0 <= q < k && out@[q]@ == v@[i as int]@,
            decreases out@.len() - k,
        {
            if eq_str(out[k].as_str(), v[i].as_str()) {
                seen = true;
            }
            k += 1;
        }
        proof {
            if seen {
                let q = choose|q: int| 0 <= q < out@.len() && out@[q]@ == v@[i as int]@;
                assert(views(out@)[q] == v@[i as int]@);
            } else {
                assert(!views(out@).contains(v@[i as int]@)) by {
                    if views(out@).contains(v@[i as int]@) {
                        let q = choose|q: int|
                            0 <= q < views(out@).len() && views(out@)[q] == v@[i as int]@;
                        assert(out@[q]@ == v@[i as int]@);
                    }
                }
            }
        }
        let ghost o0 = views(out@);
        proof {
            assert(first_occurrences(vv.take(i as int)).contains(v@[i as int]@)
                <==> vv.take(i as int).contains(v@[i as int]@));
            assert(seen <==> vv.take(i as int).contains(v@[i as int]@));
        }
        if !seen {
            let ghost before = out@;
            out.push(v[i].clone());
            proof {
                assert(views(out@) =~= views(before).push(v@[i as int]@));
            }
        }
        proof {
            assert(views(out@) == first_occurrences(t));
        }
        i += 1;
    }
    proof {
        assert(vv.take(vv.len() as int) =~= vv);
    }
    out
}

// ---------------------------------------------------------------------------
// Excerpts and limits
// ---------------------------------------------------------------------------

/// Each file is cut to about this many bytes.
pub const MAX_FILE_CHARS: usize = 2500;

/// The digest stops reading after its excerpts reach this many bytes.
pub const MAX_TOTAL_CHARS: usize = 28000;

/// The digest reads at most this many files.
pub const MAX_FILES: usize = 24;

/// The largest character boundary at or below `i` (the end where `i` is past it).
pub open spec fn floor_boundary_at(s: Seq<char>, i: int) -> int
    decreases i,
{
    if i >= slen(s) {
        slen(s) as int
    } else if i <= 0 || is_boundary(s, i) {
        if i < 0 {
            0
        } else {
            i
        }
    } else {
        floor_boundary_at(s, i - 1)
    }
}

proof fn lemma_floor_boundary(s: Seq<char>, i: int)
    requires
        0 <= i,
        blen(s) <= usize::MAX,
    ensures
        0 <= floor_boundary_at(s, i) <= slen(s),
        i < slen(s) ==> floor_boundary_at(s, i) <= i,
        is_boundary(s, floor_boundary_at(s, i)),
    decreases i,
{
    vstd::utf8::encode_utf8_valid_utf8(s);
    vstd::utf8::is_char_boundary_start_end_of_seq(vstd::utf8::encode_utf8(s));
    assert(slen(s) as int == blen(s));
    if i < slen(s) && i > 0 && !is_boundary(s, i) {
        lemma_floor_boundary(s, i - 1);
    }
}

/// The largest character boundary at or below `index`.
fn floor_boundary(s: &str, index: usize) -> (r: usize)
    ensures
        r as int == floor_boundary_at(s@, index as int),
{
    let n = byte_len(s);
    if index >= n {
        return n;
    }
    let mut i = index;
    while i > 0 && !crate::text::char_boundary(s, i)
        invariant
            i <= index < n,
            n == slen(s@),
            floor_boundary_at(s@, index as int) == floor_boundary_at(s@, i as int),
        decreases i,
    {
        i -= 1;
    }
    i
}

/// A long text cut for the digest: about three quarters of `max` from its start and the
/// rest from its end, each at a character boundary, with a note between.
pub open spec fn smart_cut(content: Seq<char>, max: usize) -> Seq<char> {
    let n = slen(content) as int;
    if n <= max {
        content
    } else {
        let head = max * 3 / 4;
        let tail = if max >= head + 32 {
            max - (head + 32)
        } else {
            0
        };
        let a = floor_boundary_at(content, head);
        let b = floor_boundary_at(content, if n >= tail {
            n - tail
        } else {
            0
        });
        byte_head(content, a) + "\n\n...[truncated]...\n\n"@ + byte_tail(content, b)
    }
}

/// In valid UTF-8 a character boundary lies at most three bytes below any position.
proof fn lemma_boundary_near(bytes: Seq<u8>, i: int)
    requires
        vstd::utf8::valid_utf8(bytes),
        0 <= i <= bytes.len(),
    ensures
        exists|j: int| i - 3 <= j <= i && 0 <= j && vstd::utf8::is_char_boundary(bytes, j),
    decreases bytes.len(),
{
    if i <= 3 {
        assert(vstd::utf8::is_char_boundary(bytes, 0));
    } else {
        let l = vstd::utf8::length_of_first_scalar(bytes);
        let rest = vstd::utf8::pop_first_scalar(bytes);
        assert(1 <= l <= 4);
        assert(l <= bytes.len());
        assert(rest.len() == bytes.len() - l);
        lemma_boundary_near(rest, i - l);
        let j = choose|j: int|
            i - l - 3 <= j <= i - l && 0 <= j && vstd::utf8::is_char_boundary(rest, j);
        assert(vstd::utf8::is_char_boundary(bytes, j + l));
    }
}

/// The largest boundary at or below `i` is at or above any boundary there.
proof fn lemma_floor_at_least(s: Seq<char>, i: int, j: int)
    requires
        0 <= j <= i,
        is_boundary(s, j),
        blen(s) <= usize::MAX,
    ensures
        floor_boundary_at(s, i) >= j,
    decreases i,
{
    vstd::utf8::encode_utf8_valid_utf8(s);
    assert(j <= blen(s));
    if i < slen(s) && i > 0 && !is_boundary(s, i) {
        lemma_floor_at_least(s, i - 1, j);
    }
}

/// A text all in ASCII takes one byte a character.
proof fn lemma_ascii_blen(s: Seq<char>)
    requires
        forall|k: int| 0 <= k < s.len() ==> (#[trigger] s[k] as u32) < 128,
    ensures
        blen(s) == s.len(),
    decreases s.len(),
{
    if s.len() > 0 {
        assert forall|k: int| 0 <= k < s.drop_first().len() implies (
        #[trigger] s.drop_first()[k] as u32) < 128 by {
            assert(s.drop_first()[k] == s[k + 1]);
        }
        lemma_ascii_blen(s.drop_first());
        assert((s[0] as u32) < 128);
    }
}

/// A text cut for the digest takes at most 2500 bytes: at most 1875 from the start, the
/// note, and at most 596 from the end.
proof fn lemma_cut_fits(content: Seq<char>)
    requires
        blen(content) <= usize::MAX,
    ensures
        blen(smart_cut(content, 2500)) <= 2500,
{
    let n = slen(content) as int;
    if n > 2500 {
        let e = vstd::utf8::encode_utf8(content);
        vstd::utf8::encode_utf8_valid_utf8(content);
        let a = floor_boundary_at(content, 1875);
        let b = floor_boundary_at(content, n - 593);
        lemma_floor_boundary(content, 1875);
        lemma_floor_boundary(content, n - 593);
        lemma_boundary_near(e, n - 593);
        let j = choose|j: int| n - 593 - 3 <= j <= n - 593 && 0 <= j
            && vstd::utf8::is_char_boundary(e, j);
        lemma_floor_at_least(content, n - 593, j);
        vstd::utf8::valid_utf8_split(e, a);
        vstd::utf8::valid_utf8_split(e, b);
        vstd::utf8::decode_utf8_encode_utf8(e.subrange(0, a));
        vstd::utf8::decode_utf8_encode_utf8(e.subrange(b, e.len() as int));
        let h = byte_head(content, a);
        let t = byte_tail(content, b);
        let m = "\n\n...[truncated]...\n\n"@;
        reveal_strlit("\n\n...[truncated]...\n\n");
        assert(m.len() == 21);
        assert forall|k: int| 0 <= k < m.len() implies (#[trigger] m[k] as u32) < 128 by {}
        lemma_ascii_blen(m);
        crate::text::lemma_encode_concat(h, m);
        crate::text::lemma_encode_concat(h + m, t);
        assert(smart_cut(content, 2500) == h + m + t);
    }
}

/// Cuts a long text to its start and end.
fn truncate_smart(content: &str, max: usize) -> (r: String)
    requires
        max <= usize::MAX / 3,
    ensures
        r@ == smart_cut(content@, max),
{
    let n = byte_len(content);
    if n <= max {
        return owned(content);
    }
    let head = max * 3 / 4;
    let tail = max.saturating_sub(head + 32);
    let start_end = floor_boundary(content, head);
    let end_start = floor_boundary(content, n.saturating_sub(tail));
    proof {
        lemma_floor_boundary(content@, head as int);
        lemma_floor_boundary(content@, n.saturating_sub(tail) as int);
    }
    let mut r = head_bytes(content, start_end);
    push_str(&mut r, "\n\n...[truncated]...\n\n");
    let t = tail_bytes(content, end_start);
    push_str(&mut r, t.as_str());
    r
}

/// The digest being gathered: the excerpts so far, the files noted but not read, and the
/// bytes of excerpt so far. `sources` holds, for each excerpt, the text it was cut from.
pub struct Gathering {
    files: Vec<CodeFileSnippet>,
    skipped: Vec<String>,
    total: usize,
    sources: Ghost<Seq<Seq<char>>>,
}

/// What the gathering does with the next candidate path.
pub enum GatherStep {
    /// Read this file, then add its excerpt (`Gathering::add`), or tell of the failure
    /// (`Gathering::read_failed`).
    Read(String),
    /// Note this path as not read (`Gathering::skip`), and go on with the next.
    Skip(String),
    /// This path was read already: go on with the next.
    Pass,
    /// Note this path as not read (`Gathering::skip`), and end the pass.
    Stop(String),
    /// No candidates are left.
    Done,
}

/// Paths of the excerpts are distinct.
pub open spec fn distinct_paths(fs: Seq<CodeFileSnippet>) -> bool {
    forall|i: int, j: int| 0 <= i < j < fs.len() ==> fs[i].path@ != fs[j].path@
}

impl Gathering {
    /// The excerpts read so far, in order.
    pub closed spec fn read_files(&self) -> Seq<CodeFileSnippet> {
        self.files@
    }

    /// The paths noted but not read, in order.
    pub closed spec fn skipped_paths(&self) -> Seq<Seq<char>> {
        views(self.skipped@)
    }

    /// The bytes of excerpt so far (saturating).
    pub closed spec fn total_bytes(&self) -> nat {
        self.total as nat
    }

    /// The texts the excerpts were cut from, in order.
    pub closed spec fn source_texts(&self) -> Seq<Seq<char>> {
        self.sources@
    }

    /// Another file may be read: fewer than 24 read and fewer than 28000 bytes of excerpt.
    pub open spec fn room(&self) -> bool {
        self.read_files().len() < 24 && self.total_bytes() < 28000
    }

    /// A file with this path was read.
    pub open spec fn has_read(&self, p: Seq<char>) -> bool {
        exists|k: int| 0 <= k < self.read_files().len() && self.read_files()[k].path@ == p
    }

    /// At most 24 excerpts, of distinct paths, each the cut of its source text to 2500 bytes
    /// (so at most 2500 bytes long) with that text's length.
    #[verifier::type_invariant]
    spec fn well_formed(&self) -> bool {
        &&& self.files@.len() <= 24
        &&& self.sources@.len() == self.files@.len()
        &&& distinct_paths(self.files@)
        &&& forall|i: int|
            0 <= i < self.files@.len() ==> {
                &&& (#[trigger] self.files@[i]).content@ == smart_cut(self.sources@[i], 2500)
                &&& self.files@[i].bytes == slen(self.sources@[i])
                &&& blen(self.files@[i].content@) <= 2500
            }
    }

    /// Nothing gathered yet.
    pub fn new() -> (r: Gathering)
        ensures
            r.read_files().len() == 0,
            r.skipped_paths().len() == 0,
            r.total_bytes() == 0,
    {
        Gathering {
            files: Vec::new(),
            skipped: Vec::new(),
            total: 0,
            sources: Ghost(Seq::empty()),
        }
    }

    /// Whether another file may be read: fewer than 24 read and fewer than 28000 bytes.
    pub fn has_room(&self) -> (r: bool)
        ensures
            r == self.room(),
    {
        self.files.len() < MAX_FILES && self.total < MAX_TOTAL_CHARS
    }

    /// Whether the shallow search for more sources is made: fewer than 8 files were read.
    pub fn needs_extra_pass(&self) -> (r: bool)
        ensures
            r == (self.read_files().len() < 8),
    {
        self.files.len() < 8
    }

    /// Notes a file that is not read.
    pub fn skip(&mut self, path: String)
        ensures
            final(self).read_files() == old(self).read_files(),
            final(self).source_texts() == old(self).source_texts(),
            final(self).total_bytes() == old(self).total_bytes(),
            final(self).skipped_paths() == old(self).skipped_paths().push(path@),
    {
        proof {
            use_type_invariant(&*self);
        }
        let ghost before = self.skipped@;
        let mut s: Vec<String> = Vec::new();
        std::mem::swap(&mut s, &mut self.skipped);
        s.push(path);
        self.skipped = s;
        proof {
            assert(views(self.skipped@) =~= views(before).push(path@));
        }
    }

    /// Tells of a file that could not be read: in the first pass it is noted as not read, in
    /// the extra pass it is passed over.
    pub fn read_failed(&mut self, path: String, extra_pass: bool)
        ensures
            final(self).read_files() == old(self).read_files(),
            final(self).source_texts() == old(self).source_texts(),
            final(self).total_bytes() == old(self).total_bytes(),
            final(self).skipped_paths() == if extra_pass {
                old(self).skipped_paths()
            } else {
                old(self).skipped_paths().push(path@)
            },
    {
        if !extra_pass {
            self.skip(path);
        }
    }

    /// Adds the excerpt of a file read (its text cut to 2500 bytes), counting its bytes
    /// (saturating). Where there is no room, or the path was read already, nothing changes.
    pub fn add(&mut self, path: String, content: &str)
        ensures
            final(self).skipped_paths() == old(self).skipped_paths(),
            (old(self).room() && !old(self).has_read(path@)) ==> {
                &&& final(self).read_files().len() == old(self).read_files().len() + 1
                &&& final(self).read_files().drop_last() == old(self).read_files()
                &&& final(self).read_files().last().path@ == path@
                &&& final(self).read_files().last().bytes == slen(content@)
                &&& final(self).read_files().last().content@ == smart_cut(content@, 2500)
                &&& final(self).source_texts() == old(self).source_texts().push(content@)
                &&& final(self).total_bytes() == if old(self).total_bytes() + slen(
                    smart_cut(content@, 2500),
                ) > usize::MAX {
                    usize::MAX as int
                } else {
                    old(self).total_bytes() + slen(smart_cut(content@, 2500))
                }
            },
            !(old(self).room() && !old(self).has_read(path@)) ==> {
                &&& final(self).read_files() == old(self).read_files()
                &&& final(self).source_texts() == old(self).source_texts()
                &&& final(self).total_bytes() == old(self).total_bytes()
            },
    {
        proof {
            use_type_invariant(&*self);
        }
        if !self.has_room() || self.has_file(path.as_str()) {
            return;
        }
        let bytes = byte_len(content);
        let excerpt = truncate_smart(content, MAX_FILE_CHARS);
        let n = byte_len(excerpt.as_str());
        let mut g = Gathering::new();
        std::mem::swap(&mut g, self);
        proof {
            use_type_invariant(&g);
        }
        let Gathering { files: mut fs, skipped, total, sources } = g;
        let ghost before = fs@;
        let ghost new_sources = sources@.push(content@);
        fs.push(CodeFileSnippet { path, content: excerpt, bytes });
        proof {
            assert(fs@.drop_last() =~= before);
            assert forall|i: int, j: int| 0 <= i < j < fs@.len() implies fs@[i].path@
                != fs@[j].path@ by {
                if j == fs@.len() - 1 {
                    assert(fs@[i] == before[i]);
                } else {
                    assert(fs@[i] == before[i] && fs@[j] == before[j]);
                }
            }
            lemma_cut_fits(content@);
            assert forall|i: int| 0 <= i < fs@.len() implies {
                &&& (#[trigger] fs@[i]).content@ == smart_cut(new_sources[i], 2500)
                &&& fs@[i].bytes == slen(new_sources[i])
                &&& blen(fs@[i].content@) <= 2500
            } by {
                if i < fs@.len() - 1 {
                    assert(fs@[i] == before[i]);
                }
            }
        }
        *self = Gathering {
            files: fs,
            skipped,
            total: total.saturating_add(n),
            sources: Ghost(new_sources),
        };
    }

    /// Whether a file with this path was read.
    pub fn has_file(&self, path: &str) -> (r: bool)
        ensures
            r == self.has_read(path@),
    {
        let mut i: usize = 0;
        while i < self.files.len()
            invariant
                i <= self.files@.len(),
                forall|k: int| 0 <= k < i ==> self.files@[k].path@ != path@,
            decreases self.files@.len() - i,
        {
            if eq_str(self.files[i].path.as_str(), path) {
                proof {
                    assert(self.read_files()[i as int].path@ == path@);
                }
                return true;
            }
            i += 1;
        }
        false
    }

    /// What to do with the candidate at `next`. In the first pass a candidate is read while
    /// there is room and noted as not read once there is none; in the extra pass a path read
    /// already is passed over, and the first candidate without room is noted and ends the
    /// pass.
    pub fn next_step(&self, candidates: &Vec<String>, next: usize, extra_pass: bool) -> (r:
        GatherStep)
        ensures
            next >= candidates@.len() ==> r is Done,
            next < candidates@.len() && !extra_pass && !self.room() ==> (r matches GatherStep::Skip(
                p,
            ) && p@ == candidates@[next as int]@),
            next < candidates@.len() && !extra_pass && self.room() && self.has_read(
                candidates@[next as int]@,
            ) ==> r is Pass,
            next < candidates@.len() && !extra_pass && self.room() && !self.has_read(
                candidates@[next as int]@,
            ) ==> (r matches GatherStep::Read(p) && p@ == candidates@[next as int]@),
            next < candidates@.len() && extra_pass && self.has_read(candidates@[next as int]@)
                ==> r is Pass,
            next < candidates@.len() && extra_pass && !self.has_read(candidates@[next as int]@)
                && !self.room() ==> (r matches GatherStep::Stop(p) && p@
                == candidates@[next as int]@),
            next < candidates@.len() && extra_pass && !self.has_read(candidates@[next as int]@)
                && self.room() ==> (r matches GatherStep::Read(p) && p@
                == candidates@[next as int]@),
            r matches GatherStep::Read(p) ==> self.room() && !self.has_read(p@),
    {
        if next >= candidates.len() {
            return GatherStep::Done;
        }
        let c = &candidates[next];
        let room = self.has_room();
        let seen = self.has_file(c.as_str());
        if !extra_pass {
            if !room {
                GatherStep::Skip(c.clone())
            } else if seen {
                GatherStep::Pass
            } else {
                GatherStep::Read(c.clone())
            }
        } else {
            if seen {
                GatherStep::Pass
            } else if !room {
                GatherStep::Stop(c.clone())
            } else {
                GatherStep::Read(c.clone())
            }
        }
    }

    /// The digest, with the scan: at most 24 excerpts, of distinct paths, each the cut of a
    /// file's text to 2500 bytes.
    pub fn finish(self, info: ProjectInfo) -> (r: CodebaseDigest)
        ensures
            r.info == info,
            r.files@ == self.read_files(),
            views(r.skipped@) == self.skipped_paths(),
            r.files@.len() <= 24,
            distinct_paths(r.files@),
            r.files@.len() == self.source_texts().len(),
            forall|i: int|
                0 <= i < r.files@.len() ==> {
                    &&& (#[trigger] r.files@[i]).content@ == smart_cut(
                        self.source_texts()[i],
                        2500,
                    )
                    &&& r.files@[i].bytes == slen(self.source_texts()[i])
                    &&& blen(r.files@[i].content@) <= 2500
                },
    {
        proof {
            use_type_invariant(&self);
        }
        let Gathering { files, skipped, total: _, sources: _ } = self;
        CodebaseDigest { info, files, skipped }
    }
}

} // verus!
