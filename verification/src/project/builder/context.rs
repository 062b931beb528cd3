//! What a build needs to know, and which backend (Unix-style compiler, MSVC, GNU as, NASM)
//! builds it.
use vstd::prelude::*;
use crate::project::builder::common::{collect_sources as collect_common, cwd_view, kept_sources, roots_text};
use crate::utils::sort::key_leq;
use crate::utils::strings::{contains_str, has_sub, lowercase_of, split_char, split_seq, str_eq, to_lowercase, trim, trim_seq, views};

verus! {

/// Everything a backend needs to build the project.
pub struct BuildContext {
    pub profile: String,
    pub project_name: String,
    pub compiler: String,
    pub language: String,
    pub standard: String,
    pub target: Option<String>,
    pub target_dir: Option<String>,
    pub kind: String,
    pub platform: Option<String>,
    pub linker: Option<String>,
    pub archiver: Option<String>,
    pub package_type: Option<String>,
    pub source_roots: Vec<String>,
    pub exclude_dirs: Vec<String>,
    pub include_paths: Vec<String>,
    pub include_dirs: Vec<String>,
    pub lib_dirs: Vec<String>,
    pub libs: Vec<String>,
    pub cflags: Vec<String>,
    pub ldflags: Vec<String>,
    pub output_filename: Option<String>,
    pub output_extension: Option<String>,
    pub verbose: bool,
}

/// The build backends.
#[derive(PartialEq, Eq, Structural, Clone, Copy)]
pub enum Backend {
    UnixCc,
    Msvc,
    Gas,
    Nasm,
}

/// The backend that builds with `compiler` (by its lower-case name): `clang-cl` is MSVC-like,
/// `as` and names with `gas` are GNU as, names with `nasm` are NASM, `cl` and names with `msvc`
/// are MSVC, anything else is a Unix-style compiler.
pub open spec fn build_backend(compiler: Seq<char>) -> Backend {
    let c = lowercase_of(compiler);
    if has_sub(c, "clang-cl"@) {
        Backend::Msvc
    } else if c == "as"@ || has_sub(c, "gas"@) {
        Backend::Gas
    } else if has_sub(c, "nasm"@) {
        Backend::Nasm
    } else if c == "cl"@ || has_sub(c, "msvc"@) {
        Backend::Msvc
    } else {
        Backend::UnixCc
    }
}

/// The backend whose source rules apply to `compiler`: MSVC-like names first, then GNU as,
/// then NASM, else a Unix-style compiler.
pub open spec fn source_backend(compiler: Seq<char>) -> Backend {
    let c = lowercase_of(compiler);
    if has_sub(c, "clang-cl"@) || c == "cl"@ || has_sub(c, "msvc"@) {
        Backend::Msvc
    } else if c == "as"@ || has_sub(c, "gas"@) {
        Backend::Gas
    } else if has_sub(c, "nasm"@) {
        Backend::Nasm
    } else {
        Backend::UnixCc
    }
}

/// The backend that builds with `compiler` (see `build_backend`).
pub fn select_backend(compiler: &str) -> (r: Backend)
    ensures
        r == build_backend(compiler@),
{
    let c = to_lowercase(compiler);
    let c = c.as_str();
    if contains_str(c, "clang-cl") {
        Backend::Msvc
    } else if str_eq(c, "as") || contains_str(c, "gas") {
        Backend::Gas
    } else if contains_str(c, "nasm") {
        Backend::Nasm
    } else if str_eq(c, "cl") || contains_str(c, "msvc") {
        Backend::Msvc
    } else {
        Backend::UnixCc
    }
}

/// The backend whose source rules apply to `compiler` (see `source_backend`).
pub fn select_source_backend(compiler: &str) -> (r: Backend)
    ensures
        r == source_backend(compiler@),
{
    let c = to_lowercase(compiler);
    let c = c.as_str();
    if contains_str(c, "clang-cl") || str_eq(c, "cl") || contains_str(c, "msvc") {
        Backend::Msvc
    } else if str_eq(c, "as") || contains_str(c, "gas") {
        Backend::Gas
    } else if contains_str(c, "nasm") {
        Backend::Nasm
    } else {
        Backend::UnixCc
    }
}

/// The extensions one language of a `+`-joined language setting adds.
pub open spec fn lang_exts(lang: Seq<char>, asm_ok: bool) -> Seq<Seq<char>> {
    if lang == "c"@ {
        seq!["c"@]
    } else if lang == "c++"@ || lang == "cpp"@ || lang == "cxx"@ {
        seq!["cpp"@, "cxx"@, "cc"@]
    } else if lang == "asm"@ && asm_ok {
        seq!["s"@, "S"@, "asm"@]
    } else {
        Seq::empty()
    }
}

/// The extensions of the languages in `parts` (each trimmed and put in lower case).
pub open spec fn exts_of_parts(parts: Seq<Seq<char>>, asm_ok: bool) -> Seq<Seq<char>>
    decreases parts.len(),
{
    if parts.len() == 0 {
        Seq::empty()
    } else {
        exts_of_parts(parts.drop_last(), asm_ok) + lang_exts(lowercase_of(trim_seq(parts.last())), asm_ok)
    }
}

/// The source extensions of a language setting such as `c+asm`; `c` when it names none.
/// Assembly counts only where `asm_ok` (the MSVC backend builds no assembly).
pub open spec fn source_exts(language: Seq<char>, asm_ok: bool) -> Seq<Seq<char>> {
    let e = exts_of_parts(split_seq(language, '+'), asm_ok);
    if e.len() == 0 {
        seq!["c"@]
    } else {
        e
    }
}

fn push_all(out: &mut Vec<String>, items: Vec<&str>)
    ensures
        views(final(out)@) == views(old(out)@) + items@.map_values(|s: &str| s@),
{
    let mut i: usize = 0;
    let ghost start = views(out@);
    while i < items.len()
        invariant
            i <= items@.len(),
            views(out@) == start + items@.map_values(|s: &str| s@).take(i as int),
        decreases items@.len() - i,
    {
        let ghost prev = out@;
        out.push(items[i].to_owned());
        assert(views(out@) =~= views(prev).push(items@[i as int]@));
        assert(items@.map_values(|s: &str| s@).take(i + 1) =~= items@.map_values(|s: &str| s@).take(i as int).push(items@[i as int]@));
        i = i + 1;
    }
    assert(items@.map_values(|s: &str| s@).take(i as int) =~= items@.map_values(|s: &str| s@));
}

/// The source extensions of a language setting (see `source_exts`).
pub fn source_extensions(language: &str, asm_ok: bool) -> (r: Vec<String>)
    ensures
        views(r@) == source_exts(language@, asm_ok),
{
    let parts = split_char(language, '+');
    let ghost ps = views(parts@);
    let mut out: Vec<String> = Vec::new();
    let mut i: usize = 0;
    while i < parts.len()
        invariant
            ps == views(parts@),
            ps == split_seq(language@, '+'),
            i <= parts@.len(),
            views(out@) == exts_of_parts(ps.take(i as int), asm_ok),
        decreases parts@.len() - i,
    {
        assert(ps.take(i + 1).drop_last() =~= ps.take(i as int));
        assert(ps.take(i + 1).last() == parts@[i as int]@);
        let lower = to_lowercase(trim(parts[i].as_str()));
        let l = lower.as_str();
        let ghost prev = views(out@);
        if str_eq(l, "c") {
            let items = vec!["c"];
            assert(items@.map_values(|s: &str| s@) =~= seq!["c"@]);
            push_all(&mut out, items);
        } else if str_eq(l, "c++") || str_eq(l, "cpp") || str_eq(l, "cxx") {
            let items = vec!["cpp", "cxx", "cc"];
            assert(items@.map_values(|s: &str| s@) =~= seq!["cpp"@, "cxx"@, "cc"@]);
            push_all(&mut out, items);
        } else if str_eq(l, "asm") && asm_ok {
            let items = vec!["s", "S", "asm"];
            assert(items@.map_values(|s: &str| s@) =~= seq!["s"@, "S"@, "asm"@]);
            push_all(&mut out, items);
        }
        assert(views(out@) =~= prev + lang_exts(lowercase_of(trim_seq(ps[i as int])), asm_ok));
        i = i + 1;
    }
    assert(ps.take(i as int) =~= ps);
    if out.len() == 0 {
        let items = vec!["c"];
        assert(items@.map_values(|s: &str| s@) =~= seq!["c"@]);
        push_all(&mut out, items);
    }
    out
}

/// The extensions whose files the backend for `compiler` builds.
pub open spec fn backend_exts(compiler: Seq<char>, language: Seq<char>) -> Seq<Seq<char>> {
    match source_backend(compiler) {
        Backend::Msvc => source_exts(language, false),
        Backend::Gas => seq!["s"@],
        Backend::Nasm => seq!["asm"@],
        Backend::UnixCc => source_exts(language, true),
    }
}

/// The sources of the build: the files found under the source roots that the backend for the
/// compiler builds (see `common::collect_sources`), sorted.
pub fn collect_sources(ctx: &BuildContext, files: &Vec<String>, cwd: Option<&str>) -> (r: Result<Vec<String>, String>)
    ensures
        ({
            let kept = kept_sources(views(files@), backend_exts(ctx.compiler@, ctx.language@), views(ctx.exclude_dirs@), views(ctx.include_paths@), cwd_view(cwd));
            match r {
                Ok(v) => kept.len() > 0 && views(v@) == kept.sort_by(key_leq()),
                Err(m) => kept.len() == 0 && m@ == "No source files found in "@ + roots_text(views(ctx.source_roots@)),
            }
        }),
{
    let exts = match select_source_backend(ctx.compiler.as_str()) {
        Backend::Msvc => source_extensions(ctx.language.as_str(), false),
        Backend::Gas => {
            let v = vec!["s".to_owned()];
            assert(views(v@) =~= seq!["s"@]);
            v
        },
        Backend::Nasm => {
            let v = vec!["asm".to_owned()];
            assert(views(v@) =~= seq!["asm"@]);
            v
        },
        Backend::UnixCc => source_extensions(ctx.language.as_str(), true),
    };
    collect_common(files, &ctx.source_roots, &exts, &ctx.exclude_dirs, &ctx.include_paths, cwd)
}

} // verus!
