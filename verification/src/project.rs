//! What kind of project a workspace holds, from its manifest files and the names at its top.
use vstd::prelude::*;

use crate::text::{eq_str, join, join_seq, owned, push_str, spec_to_lowercase, to_lowercase, views};

verus! {

/// What a scan found out about a project.
#[derive(Debug)]
pub struct ProjectInfo {
    pub languages: Vec<String>,
    pub project_type: String,
    pub key_files: Vec<String>,
    pub suggested_verify: Option<String>,
    pub summary: String,
}

/// The manifest files looked for, in order, with the language each shows and the command
/// that tests such a project.
pub open spec fn manifest_checks() -> Seq<(Seq<char>, Seq<char>, Option<Seq<char>>)> {
    seq![
        ("Cargo.toml"@, "Rust"@, Some("cargo test"@)),
        ("package.json"@, "Node/JS"@, Some("npm test"@)),
        ("pyproject.toml"@, "Python"@, Some("pytest -q"@)),
        ("requirements.txt"@, "Python"@, Some("pytest -q"@)),
        ("go.mod"@, "Go"@, Some("go test ./..."@)),
        ("pom.xml"@, "Java/Maven"@, Some("mvn test"@)),
        ("build.gradle"@, "Java/Gradle"@, Some("./gradlew test"@)),
        ("CMakeLists.txt"@, "C/C++"@, None),
        ("Makefile"@, "Make"@, None),
    ]
}

/// The number of manifest files looked for.
pub const MANIFEST_COUNT: usize = 9;

/// The `i`-th manifest check, computed.
pub fn manifest_check(i: usize) -> (r: (&'static str, &'static str, Option<&'static str>))
    requires
        i < 9,
    ensures
        (r.0@, r.1@, match r.2 {
            Some(v) => Some(v@),
            None => None,
        }) == manifest_checks()[i as int],
{
    match i {
        0 => ("Cargo.toml", "Rust", Some("cargo test")),
        1 => ("package.json", "Node/JS", Some("npm test")),
        2 => ("pyproject.toml", "Python", Some("pytest -q")),
        3 => ("requirements.txt", "Python", Some("pytest -q")),
        4 => ("go.mod", "Go", Some("go test ./...")),
        5 => ("pom.xml", "Java/Maven", Some("mvn test")),
        6 => ("build.gradle", "Java/Gradle", Some("./gradlew test")),
        7 => ("CMakeLists.txt", "C/C++", None),
        _ => ("Makefile", "Make", None),
    }
}

/// `l` added to `langs` unless already there.
pub open spec fn add_language(langs: Seq<Seq<char>>, l: Seq<char>) -> Seq<Seq<char>> {
    if langs.contains(l) {
        langs
    } else {
        langs.push(l)
    }
}

/// The findings after the first `n` manifest checks, given which manifests exist: the
/// languages (each once, in order found), the manifests found, the project type (the
/// lowercase language of the first manifest found, else `unknown`) and the test command of
/// the first manifest found that has one.
pub open spec fn after_checks(present: Seq<bool>, n: int) -> (
    Seq<Seq<char>>,
    Seq<Seq<char>>,
    Seq<char>,
    Option<Seq<char>>,
)
    decreases n,
{
    if n <= 0 {
        (seq![], seq![], "unknown"@, None)
    } else {
        let (langs, keys, pt, sv) = after_checks(present, n - 1);
        let (file, lang, verify) = manifest_checks()[n - 1];
        if n - 1 < present.len() && present[n - 1] {
            (
                add_language(langs, lang),
                keys.push(file),
                if pt == "unknown"@ {
                    spec_to_lowercase(lang)
                } else {
                    pt
                },
                if sv is None {
                    verify
                } else {
                    sv
                },
            )
        } else {
            (langs, keys, pt, sv)
        }
    }
}

/// The text after the last `.` of a name, if it has one.
pub open spec fn extension(name: Seq<char>) -> Option<Seq<char>>
    decreases name.len(),
{
    if name.len() == 0 {
        None
    } else if name.last() == '.' {
        Some(seq![])
    } else {
        match extension(name.drop_last()) {
            Some(e) => Some(e.push(name.last())),
            None => None,
        }
    }
}

/// The language a file extension shows, if any.
pub open spec fn extension_language(e: Seq<char>) -> Option<Seq<char>> {
    if e == "rs"@ {
        Some("Rust"@)
    } else if e == "py"@ {
        Some("Python"@)
    } else if e == "ts"@ || e == "tsx"@ || e == "js"@ || e == "jsx"@ {
        Some("TypeScript/JS"@)
    } else if e == "go"@ {
        Some("Go"@)
    } else if e == "java"@ {
        Some("Java"@)
    } else if e == "cu"@ || e == "cuh"@ {
        Some("CUDA"@)
    } else if e == "cpp"@ || e == "cc"@ || e == "hpp"@ || e == "c"@ || e == "h"@ {
        Some("C/C++"@)
    } else {
        None
    }
}

/// The languages after also looking at the names `names`.
pub open spec fn with_name_languages(langs: Seq<Seq<char>>, names: Seq<Seq<char>>) -> Seq<Seq<char>>
    decreases names.len(),
{
    if names.len() == 0 {
        langs
    } else {
        let l = with_name_languages(langs, names.drop_last());
        match extension(names.last()) {
            Some(e) => match extension_language(e) {
                Some(x) => add_language(l, x),
                None => l,
            },
            None => l,
        }
    }
}

/// The summary line of a scan.
pub open spec fn summary_line(pt: Seq<char>, langs: Seq<Seq<char>>, keys: Seq<Seq<char>>) -> Seq<char> {
    "type="@ + pt + "; languages="@ + join_seq(langs, ","@) + "; key_files="@ + if keys.len() == 0 {
        "(none)"@
    } else {
        join_seq(keys, ","@)
    }
}

/// The languages of a scan: from the manifests, then from up to 80 names at the top of
/// the workspace; `unknown` when none.
pub open spec fn scan_languages(present: Seq<bool>, names: Seq<Seq<char>>) -> Seq<Seq<char>> {
    let l = with_name_languages(
        after_checks(present, 9).0,
        if names.len() > 80 {
            names.take(80)
        } else {
            names
        },
    );
    if l.len() == 0 {
        seq!["unknown"@]
    } else {
        l
    }
}

/// Adds `l` to `langs` unless already there.
fn add_language_exec(langs: &mut Vec<String>, l: &str)
    ensures
        views(final(langs)@) == add_language(views(old(langs)@), l@),
{
    let mut i: usize = 0;
    while i < langs.len()
        invariant
            i <= langs@.len(),
            forall|k: int| 0 <= k < i ==> langs@[k]@ != l@,
        decreases langs@.len() - i,
    {
        if eq_str(langs[i].as_str(), l) {
            proof {
                assert(views(langs@)[i as int] == l@);
            }
            return;
        }
        i += 1;
    }
    proof {
        assert(!views(langs@).contains(l@)) by {
            if views(langs@).contains(l@) {
                let k = choose|k: int| 0 <= k < views(langs@).len() && views(langs@)[k] == l@;
                assert(langs@[k]@ == l@);
            }
        }
    }
    let ghost before = langs@;
    langs.push(owned(l));
    proof {
        assert(views(langs@) =~= views(before).push(l@));
    }
}

/// The extension of a name, computed.
fn extension_of(name: &str) -> (r: Option<String>)
    ensures
        crate::text::opt_view(r) == extension(name@),
{
    let v = crate::text::chars_of(name);
    let mut i = v.len();
    while i > 0 && v[i - 1] != '.'
        invariant
            i <= v@.len(),
            v@ == name@,
            forall|k: int| i <= k < v@.len() ==> v@[k] != '.',
        decreases i,
    {
        i -= 1;
    }
    proof {
        lemma_extension(v@, i as int);
    }
    if i == 0 {
        None
    } else {
        Some(crate::text::string_of_range(&v, i, v.len()))
    }
}

/// The extension is what follows the last dot.
proof fn lemma_extension(s: Seq<char>, i: int)
    requires
        0 <= i <= s.len(),
        forall|k: int| i <= k < s.len() ==> s[k] != '.',
        i > 0 ==> s[i - 1] == '.',
    ensures
        extension(s) == if i == 0 {
            None::<Seq<char>>
        } else {
            Some(s.subrange(i, s.len() as int))
        },
    decreases s.len(),
{
    if s.len() > 0 {
        if s.len() == i {
            assert(s.subrange(i, s.len() as int) =~= Seq::<char>::empty());
        } else {
            let t = s.drop_last();
            lemma_extension(t, i);
            if i > 0 {
                assert(s.subrange(i, s.len() as int) =~= t.subrange(i, t.len() as int).push(
                    s.last(),
                ));
            }
        }
    }
}

/// The language an extension shows, computed.
fn extension_language_of(e: &str) -> (r: Option<&'static str>)
    ensures
        match r {
            Some(x) => extension_language(e@) == Some(x@),
            None => extension_language(e@) is None,
        },
{
    if eq_str(e, "rs") {
        Some("Rust")
    } else if eq_str(e, "py") {
        Some("Python")
    } else if eq_str(e, "ts") || eq_str(e, "tsx") || eq_str(e, "js") || eq_str(e, "jsx") {
        Some("TypeScript/JS")
    } else if eq_str(e, "go") {
        Some("Go")
    } else if eq_str(e, "java") {
        Some("Java")
    } else if eq_str(e, "cu") || eq_str(e, "cuh") {
        Some("CUDA")
    } else if eq_str(e, "cpp") || eq_str(e, "cc") || eq_str(e, "hpp") || eq_str(e, "c") || eq_str(
        e,
        "h",
    ) {
        Some("C/C++")
    } else {
        None
    }
}

/// Scans a project: `present[i]` says whether the `i`-th manifest of `manifest_checks`
/// exists (a missing flag counts as absent) and `names` are the entries at the top of the
/// workspace (up to 80 are looked at).
pub fn scan_project(present: &Vec<bool>, names: &Vec<String>) -> (r: ProjectInfo)
    ensures
        ({
            let (_, keys, pt, sv) = after_checks(present@, 9);
            let langs = scan_languages(present@, views(names@));
            &&& views(r.languages@) == langs
            &&& views(r.key_files@) == keys
            &&& r.project_type@ == pt
            &&& crate::text::opt_view(r.suggested_verify) == sv
            &&& r.summary@ == summary_line(pt, langs, keys)
        }),
{
    let mut languages: Vec<String> = Vec::new();
    let mut key_files: Vec<String> = Vec::new();
    let mut project_type = owned("unknown");
    let mut suggested_verify: Option<String> = None;
    let mut i: usize = 0;
    proof {
        reveal_strlit("unknown");
    }
    while i < MANIFEST_COUNT
        invariant
            i <= 9,
            (views(languages@), views(key_files@), project_type@, crate::text::opt_view(
                suggested_verify,
            )) == after_checks(present@, i as int),
        decreases 9 - i,
    {
        let (file, lang, verify) = manifest_check(i);
        if i < present.len() && present[i] {
            let ghost k0 = key_files@;
            key_files.push(owned(file));
            proof {
                assert(views(key_files@) =~= views(k0).push(file@));
            }
            add_language_exec(&mut languages, lang);
            if eq_str(project_type.as_str(), "unknown") {
                project_type = to_lowercase(lang);
            }
            if suggested_verify.is_none() {
                if let Some(v) = verify {
                    suggested_verify = Some(owned(v));
                }
            }
        }
        i += 1;
    }
    let ghost base = views(languages@);
    let limit = if names.len() > 80 {
        80
    } else {
        names.len()
    };
    let ghost nv = views(names@);
    let ghost taken = if nv.len() > 80 {
        nv.take(80)
    } else {
        nv
    };
    let mut j: usize = 0;
    while j < limit
        invariant
            j <= limit <= names@.len(),
            nv == views(names@),
            limit == taken.len(),
            taken == if nv.len() > 80 {
                nv.take(80)
            } else {
                nv
            },
            views(languages@) == with_name_languages(base, taken.take(j as int)),
        decreases limit - j,
    {
        proof {
            assert(taken.take(j + 1).drop_last() =~= taken.take(j as int));
            assert(taken.take(j + 1).last() == names@[j as int]@);
        }
        match extension_of(names[j].as_str()) {
            Some(e) => match extension_language_of(e.as_str()) {
                Some(l) => add_language_exec(&mut languages, l),
                None => {},
            },
            None => {},
        }
        j += 1;
    }
    proof {
        assert(taken.take(limit as int) =~= taken);
    }
    if languages.len() == 0 {
        languages.push(owned("unknown"));
        proof {
            assert(views(languages@) =~= seq!["unknown"@]);
        }
    }
    let mut summary = owned("type=");
    push_str(&mut summary, project_type.as_str());
    push_str(&mut summary, "; languages=");
    let l = join(&languages, ",");
    push_str(&mut summary, l.as_str());
    push_str(&mut summary, "; key_files=");
    if key_files.len() == 0 {
        push_str(&mut summary, "(none)");
    } else {
        let k = join(&key_files, ",");
        push_str(&mut summary, k.as_str());
    }
    ProjectInfo { languages, project_type, key_files, suggested_verify, summary }
}

} // verus!
