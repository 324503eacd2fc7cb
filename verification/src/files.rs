//! What the indexer makes of a file's name: its extension, its language, and
//! whether it is source code to index.
use vstd::prelude::*;

use crate::text::{
    chars_of, ends_with_text, has_suffix, is_text, lowercase, string_of, string_of_range,
    to_lowercase,
};

verus! {

// ── Extensions ────────────────────────────────────────────────────────────────

/// Position of the last `'.'` of `s`, or `-1` when there is none.
pub open spec fn last_dot(s: Seq<char>) -> int
    decreases s.len(),
{
    if s.len() == 0 {
        -1
    } else if s.last() == '.' {
        s.len() - 1
    } else {
        last_dot(s.drop_last())
    }
}

/// Bounds and meaning of [`last_dot`].
pub proof fn lemma_last_dot(s: Seq<char>)
    ensures
        -1 <= last_dot(s) < s.len(),
        last_dot(s) >= 0 ==> s[last_dot(s)] == '.',
        forall|j: int| last_dot(s) < j < s.len() ==> s[j] != '.',
    decreases s.len(),
{
    if s.len() > 0 && s.last() != '.' {
        lemma_last_dot(s.drop_last());
        assert forall|j: int| last_dot(s) < j < s.len() implies s[j] != '.' by {
            if j < s.len() - 1 {
                assert(s[j] == s.drop_last()[j]);
            }
        }
    }
}

/// The extension of a file name (`Path::extension`): what follows its last
/// `'.'`, unless that dot is its first character, or the name is `".."`.
pub open spec fn extension(name: Seq<char>) -> Option<Seq<char>> {
    let d = last_dot(name);
    if name == seq!['.', '.'] || d <= 0 {
        None
    } else {
        Some(name.skip(d + 1))
    }
}

/// The extension of the file name `file_name` (see [`extension`]).
pub fn file_extension(file_name: &str) -> (r: Option<String>)
    ensures
        r matches Some(e) ==> extension(file_name@) == Some(e@),
        r is None ==> extension(file_name@) is None,
{
    let v = chars_of(file_name);
    let mut d: usize = v.len();
    while d > 0 && v[d - 1] != '.'
        invariant
            d <= v.len(),
            forall|j: int| d <= j < v.len() ==> v@[j] != '.',
        decreases d,
    {
        d = d - 1;
    }
    proof {
        lemma_last_dot(v@);
        if d > 0 {
            assert(v@[d - 1] == '.');
            assert(last_dot(v@) == d - 1);
        } else {
            if last_dot(v@) >= 0 {
                assert(v@[last_dot(v@)] == '.');
            }
        }
    }
    proof {
        reveal_strlit("..");
        assert("..".view() =~= seq!['.', '.']);
    }
    if is_text(&v, "..") || d <= 1 {
        None
    } else {
        Some(string_of_range(&v, d, v.len()))
    }
}

/// The lowercase extension of a file name, or the empty text when it has none.
pub open spec fn ext_lower(name: Seq<char>) -> Seq<char> {
    match extension(name) {
        Some(e) => lowercase(e),
        None => Seq::empty(),
    }
}

/// The lowercase extension of `file_name` (see [`ext_lower`]).
pub fn lowercase_extension(file_name: &str) -> (r: String)
    ensures
        r@ == ext_lower(file_name@),
{
    match file_extension(file_name) {
        Some(e) => to_lowercase(e.as_str()),
        None => String::new(),
    }
}

// ── Languages ─────────────────────────────────────────────────────────────────

/// `cabal.project` and its companion files.
pub open spec fn is_cabal_project_name(name: Seq<char>) -> bool {
    name == "cabal.project"@ || name == "cabal.project.freeze"@ || name
        == "cabal.project.local"@
}

/// Haskell boot files.
pub open spec fn is_boot_name(name: Seq<char>) -> bool {
    has_suffix(name, ".hs-boot"@) || has_suffix(name, ".lhs-boot"@)
}

/// The language of a lowercase file extension; `"text"` when unknown.
pub open spec fn language_of_ext(ext: Seq<char>) -> Seq<char> {
    if ext == "hs"@ || ext == "lhs"@ || ext == "hsc"@ || ext == "chs"@ {
        "haskell"@
    } else if ext == "rs"@ {
        "rust"@
    } else if ext == "py"@ {
        "python"@
    } else if ext == "ts"@ || ext == "tsx"@ {
        "typescript"@
    } else if ext == "js"@ || ext == "jsx"@ {
        "javascript"@
    } else if ext == "nix"@ {
        "nix"@
    } else if ext == "go"@ {
        "go"@
    } else if ext == "java"@ {
        "java"@
    } else if ext == "kt"@ || ext == "kts"@ {
        "kotlin"@
    } else if ext == "scala"@ {
        "scala"@
    } else if ext == "ml"@ || ext == "mli"@ {
        "ocaml"@
    } else if ext == "c"@ || ext == "h"@ {
        "c"@
    } else if ext == "cpp"@ || ext == "hpp"@ {
        "cpp"@
    } else if ext == "sql"@ {
        "sql"@
    } else if ext == "tex"@ {
        "latex"@
    } else if ext == "sh"@ {
        "bash"@
    } else if ext == "toml"@ {
        "toml"@
    } else if ext == "yaml"@ || ext == "yml"@ {
        "yaml"@
    } else if ext == "json"@ {
        "json"@
    } else if ext == "cabal"@ {
        "cabal"@
    } else {
        "text"@
    }
}

/// The language of the lowercase extension `ext` (see [`language_of_ext`]).
pub fn language_for_extension(ext: &str) -> (r: String)
    ensures
        r@ == language_of_ext(ext@),
{
    let e = chars_of(ext);
    let lang = if is_text(&e, "hs") || is_text(&e, "lhs") || is_text(&e, "hsc") || is_text(
        &e,
        "chs",
    ) {
        "haskell"
    } else if is_text(&e, "rs") {
        "rust"
    } else if is_text(&e, "py") {
        "python"
    } else if is_text(&e, "ts") || is_text(&e, "tsx") {
        "typescript"
    } else if is_text(&e, "js") || is_text(&e, "jsx") {
        "javascript"
    } else if is_text(&e, "nix") {
        "nix"
    } else if is_text(&e, "go") {
        "go"
    } else if is_text(&e, "java") {
        "java"
    } else if is_text(&e, "kt") || is_text(&e, "kts") {
        "kotlin"
    } else if is_text(&e, "scala") {
        "scala"
    } else if is_text(&e, "ml") || is_text(&e, "mli") {
        "ocaml"
    } else if is_text(&e, "c") || is_text(&e, "h") {
        "c"
    } else if is_text(&e, "cpp") || is_text(&e, "hpp") {
        "cpp"
    } else if is_text(&e, "sql") {
        "sql"
    } else if is_text(&e, "tex") {
        "latex"
    } else if is_text(&e, "sh") {
        "bash"
    } else if is_text(&e, "toml") {
        "toml"
    } else if is_text(&e, "yaml") || is_text(&e, "yml") {
        "yaml"
    } else if is_text(&e, "json") {
        "json"
    } else if is_text(&e, "cabal") {
        "cabal"
    } else {
        "text"
    };
    let l = chars_of(lang);
    string_of(&l)
}

/// The language table: each lowercase extension row gives its language,
/// and any other extension gives `"text"`.
pub proof fn lemma_language_table(ext: Seq<char>)
    ensures
        ext == "hs"@ || ext == "lhs"@ || ext == "hsc"@ || ext == "chs"@ ==> language_of_ext(ext) == "haskell"@,
        ext == "rs"@ ==> language_of_ext(ext) == "rust"@,
        ext == "py"@ ==> language_of_ext(ext) == "python"@,
        ext == "ts"@ || ext == "tsx"@ ==> language_of_ext(ext) == "typescript"@,
        ext == "js"@ || ext == "jsx"@ ==> language_of_ext(ext) == "javascript"@,
        ext == "nix"@ ==> language_of_ext(ext) == "nix"@,
        ext == "go"@ ==> language_of_ext(ext) == "go"@,
        ext == "java"@ ==> language_of_ext(ext) == "java"@,
        ext == "kt"@ || ext == "kts"@ ==> language_of_ext(ext) == "kotlin"@,
        ext == "scala"@ ==> language_of_ext(ext) == "scala"@,
        ext == "ml"@ || ext == "mli"@ ==> language_of_ext(ext) == "ocaml"@,
        ext == "c"@ || ext == "h"@ ==> language_of_ext(ext) == "c"@,
        ext == "cpp"@ || ext == "hpp"@ ==> language_of_ext(ext) == "cpp"@,
        ext == "sql"@ ==> language_of_ext(ext) == "sql"@,
        ext == "tex"@ ==> language_of_ext(ext) == "latex"@,
        ext == "sh"@ ==> language_of_ext(ext) == "bash"@,
        ext == "toml"@ ==> language_of_ext(ext) == "toml"@,
        ext == "yaml"@ || ext == "yml"@ ==> language_of_ext(ext) == "yaml"@,
        ext == "json"@ ==> language_of_ext(ext) == "json"@,
        ext == "cabal"@ ==> language_of_ext(ext) == "cabal"@,
        !(ext == "hs"@ || ext == "lhs"@ || ext == "hsc"@ || ext == "chs"@ || ext == "rs"@ || ext == "py"@ || ext == "ts"@ || ext == "tsx"@ || ext == "js"@ || ext == "jsx"@ || ext == "nix"@ || ext == "go"@ || ext == "java"@ || ext == "kt"@ || ext == "kts"@ || ext == "scala"@ || ext == "ml"@ || ext == "mli"@ || ext == "c"@ || ext == "h"@ || ext == "cpp"@ || ext == "hpp"@ || ext == "sql"@ || ext == "tex"@ || ext == "sh"@ || ext == "toml"@ || ext == "yaml"@ || ext == "yml"@ || ext == "json"@ || ext == "cabal"@) ==> language_of_ext(ext) == "text"@,
{
    reveal_strlit("hs");
    reveal_strlit("lhs");
    reveal_strlit("hsc");
    reveal_strlit("chs");
    reveal_strlit("rs");
    reveal_strlit("py");
    reveal_strlit("ts");
    reveal_strlit("tsx");
    reveal_strlit("js");
    reveal_strlit("jsx");
    reveal_strlit("nix");
    reveal_strlit("go");
    reveal_strlit("java");
    reveal_strlit("kt");
    reveal_strlit("kts");
    reveal_strlit("scala");
    reveal_strlit("ml");
    reveal_strlit("mli");
    reveal_strlit("c");
    reveal_strlit("h");
    reveal_strlit("cpp");
    reveal_strlit("hpp");
    reveal_strlit("sql");
    reveal_strlit("tex");
    reveal_strlit("sh");
    reveal_strlit("toml");
    reveal_strlit("yaml");
    reveal_strlit("yml");
    reveal_strlit("json");
    reveal_strlit("cabal");
    assert("hs"@.len() == 2 && "hs"@[0] == 'h' && "hs"@[1] == 's');
    assert("lhs"@.len() == 3 && "lhs"@[0] == 'l' && "lhs"@[1] == 'h' && "lhs"@[2] == 's');
    assert("hsc"@.len() == 3 && "hsc"@[0] == 'h' && "hsc"@[1] == 's' && "hsc"@[2] == 'c');
    assert("chs"@.len() == 3 && "chs"@[0] == 'c' && "chs"@[1] == 'h' && "chs"@[2] == 's');
    assert("rs"@.len() == 2 && "rs"@[0] == 'r' && "rs"@[1] == 's');
    assert("py"@.len() == 2 && "py"@[0] == 'p' && "py"@[1] == 'y');
    assert("ts"@.len() == 2 && "ts"@[0] == 't' && "ts"@[1] == 's');
    assert("tsx"@.len() == 3 && "tsx"@[0] == 't' && "tsx"@[1] == 's' && "tsx"@[2] == 'x');
    assert("js"@.len() == 2 && "js"@[0] == 'j' && "js"@[1] == 's');
    assert("jsx"@.len() == 3 && "jsx"@[0] == 'j' && "jsx"@[1] == 's' && "jsx"@[2] == 'x');
    assert("nix"@.len() == 3 && "nix"@[0] == 'n' && "nix"@[1] == 'i' && "nix"@[2] == 'x');
    assert("go"@.len() == 2 && "go"@[0] == 'g' && "go"@[1] == 'o');
    assert("java"@.len() == 4 && "java"@[0] == 'j' && "java"@[1] == 'a' && "java"@[2] == 'v' && "java"@[3] == 'a');
    assert("kt"@.len() == 2 && "kt"@[0] == 'k' && "kt"@[1] == 't');
    assert("kts"@.len() == 3 && "kts"@[0] == 'k' && "kts"@[1] == 't' && "kts"@[2] == 's');
    assert("scala"@.len() == 5 && "scala"@[0] == 's' && "scala"@[1] == 'c' && "scala"@[2] == 'a' && "scala"@[3] == 'l' && "scala"@[4] == 'a');
    assert("ml"@.len() == 2 && "ml"@[0] == 'm' && "ml"@[1] == 'l');
    assert("mli"@.len() == 3 && "mli"@[0] == 'm' && "mli"@[1] == 'l' && "mli"@[2] == 'i');
    assert("c"@.len() == 1 && "c"@[0] == 'c');
    assert("h"@.len() == 1 && "h"@[0] == 'h');
    assert("cpp"@.len() == 3 && "cpp"@[0] == 'c' && "cpp"@[1] == 'p' && "cpp"@[2] == 'p');
    assert("hpp"@.len() == 3 && "hpp"@[0] == 'h' && "hpp"@[1] == 'p' && "hpp"@[2] == 'p');
    assert("sql"@.len() == 3 && "sql"@[0] == 's' && "sql"@[1] == 'q' && "sql"@[2] == 'l');
    assert("tex"@.len() == 3 && "tex"@[0] == 't' && "tex"@[1] == 'e' && "tex"@[2] == 'x');
    assert("sh"@.len() == 2 && "sh"@[0] == 's' && "sh"@[1] == 'h');
    assert("toml"@.len() == 4 && "toml"@[0] == 't' && "toml"@[1] == 'o' && "toml"@[2] == 'm' && "toml"@[3] == 'l');
    assert("yaml"@.len() == 4 && "yaml"@[0] == 'y' && "yaml"@[1] == 'a' && "yaml"@[2] == 'm' && "yaml"@[3] == 'l');
    assert("yml"@.len() == 3 && "yml"@[0] == 'y' && "yml"@[1] == 'm' && "yml"@[2] == 'l');
    assert("json"@.len() == 4 && "json"@[0] == 'j' && "json"@[1] == 's' && "json"@[2] == 'o' && "json"@[3] == 'n');
    assert("cabal"@.len() == 5 && "cabal"@[0] == 'c' && "cabal"@[1] == 'a' && "cabal"@[2] == 'b' && "cabal"@[3] == 'a' && "cabal"@[4] == 'l');
}

/// The language of a file from its name: the `cabal.project` files are
/// cabal, Haskell boot files are Haskell, and any other file has the
/// language of its lowercase extension by the table of
/// [`lemma_language_table`]; with no known extension it is `"text"`.
pub proof fn lemma_detect_language(name: Seq<char>)
    ensures
        name == "cabal.project"@ || name == "cabal.project.freeze"@ || name == "cabal.project.local"@
            ==> spec_detect_language(name) == "cabal"@,
        !(name == "cabal.project"@ || name == "cabal.project.freeze"@ || name == "cabal.project.local"@)
            && (has_suffix(name, ".hs-boot"@) || has_suffix(name, ".lhs-boot"@)) ==> spec_detect_language(name)
            == "haskell"@,
        !(name == "cabal.project"@ || name == "cabal.project.freeze"@ || name == "cabal.project.local"@)
            && !has_suffix(name, ".hs-boot"@) && !has_suffix(name, ".lhs-boot"@) ==> spec_detect_language(name)
            == language_of_ext(ext_lower(name)),
{
}

/// The language of a file, from its name.
pub open spec fn spec_detect_language(name: Seq<char>) -> Seq<char> {
    if is_cabal_project_name(name) {
        "cabal"@
    } else if is_boot_name(name) {
        "haskell"@
    } else {
        language_of_ext(ext_lower(name))
    }
}

fn is_cabal_project(v: &Vec<char>) -> (r: bool)
    ensures
        r == is_cabal_project_name(v@),
{
    is_text(v, "cabal.project") || is_text(v, "cabal.project.freeze") || is_text(
        v,
        "cabal.project.local",
    )
}

fn is_boot(v: &Vec<char>) -> (r: bool)
    ensures
        r == is_boot_name(v@),
{
    ends_with_text(v, ".hs-boot") || ends_with_text(v, ".lhs-boot")
}

/// The language of the file named `file_name` (its last path component).
pub fn detect_language(file_name: &str) -> (r: String)
    ensures
        r@ == spec_detect_language(file_name@),
{
    let v = chars_of(file_name);
    if is_cabal_project(&v) {
        let l = chars_of("cabal");
        return string_of(&l);
    }
    if is_boot(&v) {
        let l = chars_of("haskell");
        return string_of(&l);
    }
    let ext = lowercase_extension(file_name);
    language_for_extension(ext.as_str())
}

// ── Which files are code ──────────────────────────────────────────────────────

/// The lowercase extensions of the source files that get indexed.
pub open spec fn is_code_ext(ext: Seq<char>) -> bool {
    ||| ext == "hs"@ || ext == "lhs"@ || ext == "hsc"@ || ext == "chs"@
    ||| ext == "rs"@ || ext == "py"@ || ext == "ts"@ || ext == "tsx"@
    ||| ext == "js"@ || ext == "jsx"@ || ext == "nix"@ || ext == "go"@
    ||| ext == "java"@ || ext == "scala"@ || ext == "ml"@ || ext == "mli"@
    ||| ext == "c"@ || ext == "cpp"@ || ext == "h"@ || ext == "hpp"@
    ||| ext == "sql"@ || ext == "sh"@ || ext == "toml"@ || ext == "yaml"@
    ||| ext == "yml"@ || ext == "json"@ || ext == "tex"@ || ext == "cabal"@
}

/// Whether the lowercase extension `ext` is that of an indexed source file.
pub fn is_code_extension(ext: &str) -> (r: bool)
    ensures
        r == is_code_ext(ext@),
{
    let e = chars_of(ext);
    is_text(&e, "hs") || is_text(&e, "lhs") || is_text(&e, "hsc") || is_text(&e, "chs")
        || is_text(&e, "rs") || is_text(&e, "py") || is_text(&e, "ts") || is_text(&e, "tsx")
        || is_text(&e, "js") || is_text(&e, "jsx") || is_text(&e, "nix") || is_text(&e, "go")
        || is_text(&e, "java") || is_text(&e, "scala") || is_text(&e, "ml") || is_text(&e, "mli")
        || is_text(&e, "c") || is_text(&e, "cpp") || is_text(&e, "h") || is_text(&e, "hpp")
        || is_text(&e, "sql") || is_text(&e, "sh") || is_text(&e, "toml") || is_text(&e, "yaml")
        || is_text(&e, "yml") || is_text(&e, "json") || is_text(&e, "tex") || is_text(&e, "cabal")
}

/// `glob::Pattern::matches`: the glob `pattern` is valid and matches `path`.
pub uninterp spec fn glob_matches(pattern: Seq<char>, path: Seq<char>) -> bool;

/// Compiles `pattern` with `glob::Pattern::new` and tests `path` against it;
/// an invalid pattern matches nothing. Named [`glob_matches`]; the glob
/// syntax is not restated here.
#[verifier::external_body]
fn glob_match(pattern: &str, path: &str) -> (r: bool)
    ensures
        r == glob_matches(pattern@, path@),
{
    match glob::Pattern::new(pattern) {
        Ok(pat) => pat.matches(path),
        Err(_) => false,
    }
}

/// Some pattern of `patterns` matches `path`.
pub open spec fn any_glob_matches(patterns: Seq<String>, path: Seq<char>) -> bool {
    exists|i: int| 0 <= i < patterns.len() && glob_matches(#[trigger] patterns[i]@, path)
}

/// A file is indexed as code when its lowercase extension is a source one,
/// it is a cabal project file or a boot file, or an extra glob matches it.
pub open spec fn is_code_file_spec(
    name: Seq<char>,
    ext: Seq<char>,
    glob_hit: bool,
) -> bool {
    is_code_ext(ext) || is_cabal_project_name(name) || is_boot_name(name) || glob_hit
}

/// Whether the file at `path`, named `file_name`, is indexed as code, given
/// its lowercase extension `ext` and whether an extra pattern matched it.
pub fn code_file_rule(file_name: &str, ext: &str, glob_hit: bool) -> (r: bool)
    ensures
        r == is_code_file_spec(file_name@, ext@, glob_hit),
{
    let v = chars_of(file_name);
    is_code_extension(ext) || is_cabal_project(&v) || is_boot(&v) || glob_hit
}

/// Which files are indexed as code: every file whose lowercase extension
/// `l` is one of the source extensions, and no other file unless it is a
/// `cabal.project` file, a Haskell boot file, or matched by an extra
/// pattern (`glob_hit`).
pub proof fn lemma_code_extensions(name: Seq<char>, l: Seq<char>, glob_hit: bool)
    ensures
        l == "hs"@ || l == "lhs"@ || l == "hsc"@ || l == "chs"@ || l == "rs"@ || l == "py"@ || l == "ts"@ || l == "tsx"@ || l == "js"@ || l == "jsx"@ || l == "nix"@ || l == "go"@ || l == "java"@ || l == "scala"@ || l == "ml"@ || l == "mli"@ || l == "c"@ || l == "cpp"@ || l == "h"@ || l == "hpp"@ || l == "sql"@ || l == "sh"@ || l == "toml"@ || l == "yaml"@ || l == "yml"@ || l == "json"@ || l == "tex"@ || l == "cabal"@ ==> is_code_file_spec(name, l, glob_hit),
        !(l == "hs"@ || l == "lhs"@ || l == "hsc"@ || l == "chs"@ || l == "rs"@ || l == "py"@ || l == "ts"@ || l == "tsx"@ || l == "js"@ || l == "jsx"@ || l == "nix"@ || l == "go"@ || l == "java"@ || l == "scala"@ || l == "ml"@ || l == "mli"@ || l == "c"@ || l == "cpp"@ || l == "h"@ || l == "hpp"@ || l == "sql"@ || l == "sh"@ || l == "toml"@ || l == "yaml"@ || l == "yml"@ || l == "json"@ || l == "tex"@ || l == "cabal"@) && !(name == "cabal.project"@ || name == "cabal.project.freeze"@
            || name == "cabal.project.local"@) && !has_suffix(name, ".hs-boot"@) && !has_suffix(
            name,
            ".lhs-boot"@,
        ) && !glob_hit ==> !is_code_file_spec(name, l, glob_hit),
        glob_hit ==> is_code_file_spec(name, l, glob_hit),
{
    reveal_strlit("hs");
    reveal_strlit("lhs");
    reveal_strlit("hsc");
    reveal_strlit("chs");
    reveal_strlit("rs");
    reveal_strlit("py");
    reveal_strlit("ts");
    reveal_strlit("tsx");
    reveal_strlit("js");
    reveal_strlit("jsx");
    reveal_strlit("nix");
    reveal_strlit("go");
    reveal_strlit("java");
    reveal_strlit("kt");
    reveal_strlit("kts");
    reveal_strlit("scala");
    reveal_strlit("ml");
    reveal_strlit("mli");
    reveal_strlit("c");
    reveal_strlit("h");
    reveal_strlit("cpp");
    reveal_strlit("hpp");
    reveal_strlit("sql");
    reveal_strlit("tex");
    reveal_strlit("sh");
    reveal_strlit("toml");
    reveal_strlit("yaml");
    reveal_strlit("yml");
    reveal_strlit("json");
    reveal_strlit("cabal");
    assert("hs"@.len() == 2 && "hs"@[0] == 'h' && "hs"@[1] == 's');
    assert("lhs"@.len() == 3 && "lhs"@[0] == 'l' && "lhs"@[1] == 'h' && "lhs"@[2] == 's');
    assert("hsc"@.len() == 3 && "hsc"@[0] == 'h' && "hsc"@[1] == 's' && "hsc"@[2] == 'c');
    assert("chs"@.len() == 3 && "chs"@[0] == 'c' && "chs"@[1] == 'h' && "chs"@[2] == 's');
    assert("rs"@.len() == 2 && "rs"@[0] == 'r' && "rs"@[1] == 's');
    assert("py"@.len() == 2 && "py"@[0] == 'p' && "py"@[1] == 'y');
    assert("ts"@.len() == 2 && "ts"@[0] == 't' && "ts"@[1] == 's');
    assert("tsx"@.len() == 3 && "tsx"@[0] == 't' && "tsx"@[1] == 's' && "tsx"@[2] == 'x');
    assert("js"@.len() == 2 && "js"@[0] == 'j' && "js"@[1] == 's');
    assert("jsx"@.len() == 3 && "jsx"@[0] == 'j' && "jsx"@[1] == 's' && "jsx"@[2] == 'x');
    assert("nix"@.len() == 3 && "nix"@[0] == 'n' && "nix"@[1] == 'i' && "nix"@[2] == 'x');
    assert("go"@.len() == 2 && "go"@[0] == 'g' && "go"@[1] == 'o');
    assert("java"@.len() == 4 && "java"@[0] == 'j' && "java"@[1] == 'a' && "java"@[2] == 'v' && "java"@[3] == 'a');
    assert("kt"@.len() == 2 && "kt"@[0] == 'k' && "kt"@[1] == 't');
    assert("kts"@.len() == 3 && "kts"@[0] == 'k' && "kts"@[1] == 't' && "kts"@[2] == 's');
    assert("scala"@.len() == 5 && "scala"@[0] == 's' && "scala"@[1] == 'c' && "scala"@[2] == 'a' && "scala"@[3] == 'l' && "scala"@[4] == 'a');
    assert("ml"@.len() == 2 && "ml"@[0] == 'm' && "ml"@[1] == 'l');
    assert("mli"@.len() == 3 && "mli"@[0] == 'm' && "mli"@[1] == 'l' && "mli"@[2] == 'i');
    assert("c"@.len() == 1 && "c"@[0] == 'c');
    assert("h"@.len() == 1 && "h"@[0] == 'h');
    assert("cpp"@.len() == 3 && "cpp"@[0] == 'c' && "cpp"@[1] == 'p' && "cpp"@[2] == 'p');
    assert("hpp"@.len() == 3 && "hpp"@[0] == 'h' && "hpp"@[1] == 'p' && "hpp"@[2] == 'p');
    assert("sql"@.len() == 3 && "sql"@[0] == 's' && "sql"@[1] == 'q' && "sql"@[2] == 'l');
    assert("tex"@.len() == 3 && "tex"@[0] == 't' && "tex"@[1] == 'e' && "tex"@[2] == 'x');
    assert("sh"@.len() == 2 && "sh"@[0] == 's' && "sh"@[1] == 'h');
    assert("toml"@.len() == 4 && "toml"@[0] == 't' && "toml"@[1] == 'o' && "toml"@[2] == 'm' && "toml"@[3] == 'l');
    assert("yaml"@.len() == 4 && "yaml"@[0] == 'y' && "yaml"@[1] == 'a' && "yaml"@[2] == 'm' && "yaml"@[3] == 'l');
    assert("yml"@.len() == 3 && "yml"@[0] == 'y' && "yml"@[1] == 'm' && "yml"@[2] == 'l');
    assert("json"@.len() == 4 && "json"@[0] == 'j' && "json"@[1] == 's' && "json"@[2] == 'o' && "json"@[3] == 'n');
    assert("cabal"@.len() == 5 && "cabal"@[0] == 'c' && "cabal"@[1] == 'a' && "cabal"@[2] == 'b' && "cabal"@[3] == 'a' && "cabal"@[4] == 'l');
}

/// Whether the file at `path`, named `file_name`, is indexed as code; the
/// `extra_patterns` are globs matched against `path`.
pub fn is_code_file(file_name: &str, path: &str, extra_patterns: &[String]) -> (r: bool)
    ensures
        r == is_code_file_spec(
            file_name@,
            ext_lower(file_name@),
            any_glob_matches(extra_patterns@, path@),
        ),
{
    let mut hit = false;
    let mut i: usize = 0;
    while i < extra_patterns.len()
        invariant
            i <= extra_patterns.len(),
            hit == exists|j: int|
                0 <= j < i && glob_matches(#[trigger] extra_patterns@[j]@, path@),
        decreases extra_patterns.len() - i,
    {
        if glob_match(extra_patterns[i].as_str(), path) {
            hit = true;
        }
        i = i + 1;
    }
    let ext = lowercase_extension(file_name);
    code_file_rule(file_name, ext.as_str(), hit)
}

/// Whether a source file goes through the literate-Haskell chunker.
pub open spec fn uses_lhs_chunker_spec(name: Seq<char>, ext: Seq<char>) -> bool {
    ext == "lhs"@ || has_suffix(name, ".lhs-boot"@)
}

/// Whether the file named `file_name` goes through the literate-Haskell chunker.
pub fn uses_lhs_chunker(file_name: &str) -> (r: bool)
    ensures
        r == uses_lhs_chunker_spec(file_name@, ext_lower(file_name@)),
{
    let ext = lowercase_extension(file_name);
    let e = chars_of(ext.as_str());
    let v = chars_of(file_name);
    is_text(&e, "lhs") || ends_with_text(&v, ".lhs-boot")
}

// ── Directories the walkers leave out ─────────────────────────────────────────

/// Directory names skipped while looking for source files.
pub open spec fn is_skipped_code_dir_name(name: Seq<char>) -> bool {
    ||| name == "target"@ || name == "dist"@ || name == "build"@ || name == "__pycache__"@
    ||| name == ".stack-work"@ || name == "vendor"@ || name == ".cache"@ || name == "result"@
    ||| name == ".direnv"@ || name == "coverage"@ || name == ".next"@ || name == "out"@
}

/// Whether the source walker skips an entry named `name`.
pub fn is_skipped_code_dir(name: &str) -> (r: bool)
    ensures
        r == is_skipped_code_dir_name(name@),
{
    let v = chars_of(name);
    is_text(&v, "target") || is_text(&v, "dist") || is_text(&v, "build") || is_text(
        &v,
        "__pycache__",
    ) || is_text(&v, ".stack-work") || is_text(&v, "vendor") || is_text(&v, ".cache")
        || is_text(&v, "result") || is_text(&v, ".direnv") || is_text(&v, "coverage") || is_text(
        &v,
        ".next",
    ) || is_text(&v, "out")
}

/// Directory names skipped while looking for documentation.
pub open spec fn is_skipped_doc_dir_name(name: Seq<char>) -> bool {
    ||| name == ".git"@ || name == "node_modules"@ || name == "target"@ || name == "dist"@
    ||| name == "build"@ || name == "__pycache__"@ || name == ".direnv"@ || name == "result"@
}

/// Whether the documentation walker skips an entry named `name`.
pub fn is_skipped_doc_dir(name: &str) -> (r: bool)
    ensures
        r == is_skipped_doc_dir_name(name@),
{
    let v = chars_of(name);
    is_text(&v, ".git") || is_text(&v, "node_modules") || is_text(&v, "target") || is_text(
        &v,
        "dist",
    ) || is_text(&v, "build") || is_text(&v, "__pycache__") || is_text(&v, ".direnv")
        || is_text(&v, "result")
}

} // verus!
