//! Dependencies: where each one comes from (a path, a git repository or the registry), and the
//! paths and names a build takes from them.
use vstd::prelude::*;
use sha2::Digest;
use crate::project::json::{json_field, json_str_field, JsonData, JsonValue};
use crate::project::value::{data_get, data_str, TomlData, TomlTable, TomlValue};
use crate::utils::paths::last_index;
use crate::utils::sort::{key_leq, sort_strings};
use crate::utils::paths::{is_abs, is_absolute, join, join_path};
use crate::utils::strings::{
    hex_seq, join_seq, to_hex, is_blank, contains_char, has_sub, occurs_at, replace, replace_seq, starts, starts_with, strip_prefix, trim, trim_seq,
    views,
};

verus! {

/// Where a dependency comes from.
pub enum DepSource {
    Path(String),
    Git { url: String, branch: Option<String>, tag: Option<String>, rev: Option<String> },
    Registry { version: String, features: Option<Vec<String>> },
}

/// A dependency as declared.
pub struct DepSpec {
    pub name: String,
    pub source: DepSource,
    pub include_raw: Option<Vec<String>>,
    pub lib_raw: Option<Vec<String>>,
    pub libs_raw: Option<Vec<String>>,
}

/// What a build takes from the dependencies: header and library directories, and libraries.
pub struct ResolvedDeps {
    pub include_dirs: Vec<String>,
    pub lib_dirs: Vec<String>,
    pub libs: Vec<String>,
}

/// A package registry.
pub struct Registry {
    pub url: String,
    pub priority: i32,
}

/// `raw` resolved against the project root (an absolute `raw` stands as it is).
pub fn resolve_path(project_root: &str, raw: &str) -> (r: Result<String, String>)
    ensures
        r matches Ok(p) && p@ == join_path(project_root@, raw@),
{
    Ok(join(project_root, raw))
}

/// `raw` with every `{profile}` replaced by the profile's name.
pub open spec fn expand_profile_seq(raw: Seq<char>, profile: Seq<char>) -> Seq<char> {
    replace_seq(raw, "{profile}"@, profile)
}

/// `raw` with every `{profile}` replaced by `profile`.
pub fn expand_profile(raw: &str, profile: &str) -> (r: String)
    ensures
        r@ == expand_profile_seq(raw@, profile@),
{
    proof { reveal_strlit("{profile}"); }
    replace(raw, "{profile}", profile)
}

/// The paths `resolve_paths` looks at: each configured path (its profile expanded) against the
/// base, or, when none is configured, each default against the base.
pub open spec fn path_candidates_seq(base: Seq<char>, raw: Option<Seq<Seq<char>>>, defaults: Seq<Seq<char>>, profile: Seq<char>) -> Seq<Seq<char>> {
    match raw {
        Some(r) => r.map_values(|x: Seq<char>| join_path(base, expand_profile_seq(x, profile))),
        None => defaults.map_values(|d: Seq<char>| join_path(base, d)),
    }
}

/// The view of optional strings.
pub open spec fn opt_views(o: Option<&Vec<String>>) -> Option<Seq<Seq<char>>> {
    match o {
        Some(v) => Some(views(v@)),
        None => None,
    }
}

/// The paths `resolve_paths` looks at (see `path_candidates_seq`); the caller tells it which of
/// them exist.
pub fn path_candidates(base: &str, raw: Option<&Vec<String>>, defaults: &Vec<String>, profile: &str) -> (r: Vec<String>)
    ensures
        views(r@) == path_candidates_seq(base@, opt_views(raw), views(defaults@), profile@),
{
    let mut out: Vec<String> = Vec::new();
    match raw {
        Some(rv) => {
            let mut i: usize = 0;
            while i < rv.len()
                invariant
                    i <= rv@.len(),
                    views(out@) == path_candidates_seq(base@, Some(views(rv@)), views(defaults@), profile@).take(i as int),
                decreases rv@.len() - i,
            {
                let e = expand_profile(rv[i].as_str(), profile);
                let p = join(base, e.as_str());
                let ghost prev = out@;
                out.push(p);
                assert(views(out@) =~= views(prev).push(p@));
                assert(views(rv@)[i as int] == rv@[i as int]@);
                assert(views(out@) =~= path_candidates_seq(base@, Some(views(rv@)), views(defaults@), profile@).take(i + 1));
                i = i + 1;
            }
            assert(path_candidates_seq(base@, Some(views(rv@)), views(defaults@), profile@).take(i as int)
                =~= path_candidates_seq(base@, Some(views(rv@)), views(defaults@), profile@));
        },
        None => {
            let mut i: usize = 0;
            while i < defaults.len()
                invariant
                    i <= defaults@.len(),
                    views(out@) == path_candidates_seq(base@, None, views(defaults@), profile@).take(i as int),
                decreases defaults@.len() - i,
            {
                let p = join(base, defaults[i].as_str());
                let ghost prev = out@;
                out.push(p);
                assert(views(out@) =~= views(prev).push(p@));
                assert(views(defaults@)[i as int] == defaults@[i as int]@);
                assert(views(out@) =~= path_candidates_seq(base@, None, views(defaults@), profile@).take(i + 1));
                i = i + 1;
            }
            assert(path_candidates_seq(base@, None, views(defaults@), profile@).take(i as int)
                =~= path_candidates_seq(base@, None, views(defaults@), profile@));
        },
    }
    out
}

/// The candidates that exist, in order.
pub open spec fn existing(c: Seq<Seq<char>>, exists: Seq<bool>) -> Seq<Seq<char>>
    decreases c.len(),
{
    if c.len() == 0 {
        Seq::empty()
    } else {
        let init = existing(c.drop_last(), exists.take(c.len() - 1));
        if exists[c.len() - 1] {
            init.push(c.last())
        } else {
            init
        }
    }
}

/// Resolves configured paths against `base`: every configured path must exist (the first that
/// does not is named in the error); without configured paths, the defaults that exist.
/// `exists[i]` tells whether the `i`-th of `path_candidates` exists.
pub fn resolve_paths(base: &str, raw: Option<&Vec<String>>, defaults: &Vec<String>, profile: &str, exists: &Vec<bool>) -> (r: Result<Vec<String>, String>)
    requires
        exists@.len() == path_candidates_seq(base@, opt_views(raw), views(defaults@), profile@).len(),
    ensures
        ({
            let c = path_candidates_seq(base@, opt_views(raw), views(defaults@), profile@);
            match r {
                Ok(v) => if raw is Some {
                    (forall|i: int| 0 <= i < exists@.len() ==> #[trigger] exists@[i]) && views(v@) == c
                } else {
                    views(v@) == existing(c, exists@)
                },
                Err(m) => raw is Some && exists|i: int| 0 <= i < exists@.len() && !#[trigger] exists@[i]
                    && (forall|j: int| 0 <= j < i ==> exists@[j]) && m@ == "Path does not exist: "@ + c[i],
            }
        }),
{
    let c = path_candidates(base, raw, defaults, profile);
    let ghost cs = views(c@);
    let mut out: Vec<String> = Vec::new();
    let mut i: usize = 0;
    while i < c.len()
        invariant
            cs == views(c@),
            cs == path_candidates_seq(base@, opt_views(raw), views(defaults@), profile@),
            exists@.len() == cs.len(),
            i <= cs.len(),
            raw is Some ==> (forall|j: int| 0 <= j < i ==> exists@[j]) && views(out@) == cs.take(i as int),
            raw is None ==> views(out@) == existing(cs.take(i as int), exists@.take(i as int)),
        decreases cs.len() - i,
    {
        assert(cs.take(i + 1).drop_last() =~= cs.take(i as int));
        assert(exists@.take(i + 1).take(i as int) =~= exists@.take(i as int));
        if exists[i] {
            out.push(c[i].clone());
            assert(views(out@) =~= views(out@.drop_last()).push(cs[i as int]));
        } else if raw.is_some() {
            let mut m = "Path does not exist: ".to_owned();
            m.append(c[i].as_str());
            return Err(m);
        }
        i = i + 1;
        assert(views(out@) =~= (if raw is Some { cs.take(i as int) } else { existing(cs.take(i as int), exists@.take(i as int)) }));
    }
    assert(cs.take(i as int) =~= cs);
    assert(exists@.take(i as int) =~= exists@);
    Ok(out)
}

/// `<dep_root>/target/include`.
pub fn registry_include_dir(dep_root: &str) -> (r: String)
    ensures
        r@ == join_path(join_path(dep_root@, "target"@), "include"@),
{
    let t = join(dep_root, "target");
    join(t.as_str(), "include")
}

/// `<dep_root>/target/lib`.
pub fn registry_lib_dir(dep_root: &str) -> (r: String)
    ensures
        r@ == join_path(join_path(dep_root@, "target"@), "lib"@),
{
    let t = join(dep_root, "target");
    join(t.as_str(), "lib")
}

/// A dependency string that names a local path.
pub open spec fn path_like(raw: Seq<char>) -> bool {
    starts(raw, "path:"@) || starts(raw, "./"@) || starts(raw, "../"@) || starts(raw, "/"@) || starts(raw, "~/"@)
        || raw.contains('\\')
}

/// A dependency string that names a git repository.
pub open spec fn git_like(raw: Seq<char>) -> bool {
    starts(raw, "git:"@) || starts(raw, "github:"@) || starts(raw, "gitlab:"@) || starts(raw, "http://"@)
        || starts(raw, "https://"@) || starts(raw, "git@"@)
}

/// Whether a dependency string names a local path.
pub fn is_path_like_string(raw: &str) -> (r: bool)
    ensures
        r == path_like(raw@),
{
    let slash = contains_char(raw, '\\');
    proof {
        if slash {
            assert(raw@.contains('\\'));
        }
    }
    starts_with(raw, "path:") || starts_with(raw, "./") || starts_with(raw, "../") || starts_with(raw, "/")
        || starts_with(raw, "~/") || slash
}

/// Whether a dependency string names a git repository.
pub fn is_git_like_string(raw: &str) -> (r: bool)
    ensures
        r == git_like(raw@),
{
    starts_with(raw, "git:") || starts_with(raw, "github:") || starts_with(raw, "gitlab:") || starts_with(
        raw,
        "http://",
    ) || starts_with(raw, "https://") || starts_with(raw, "git@")
}

/// A dependency taken from the registry: a string that names neither a path nor a git
/// repository, or a table without `git`, `path` or `url` that has `version`, `features`,
/// `optional` or `registry`.
pub open spec fn registry_dep(d: TomlData) -> bool {
    match d {
        TomlData::Str(s) => !path_like(trim_seq(s)) && !git_like(trim_seq(s)),
        TomlData::Table(t) => {
            &&& data_get(t, "git"@) is None && data_get(t, "path"@) is None && data_get(t, "url"@) is None
            &&& (data_get(t, "version"@) is Some || data_get(t, "features"@) is Some || data_get(t, "optional"@)
                is Some || data_get(t, "registry"@) is Some)
        },
        _ => false,
    }
}

/// Whether a dependency is taken from the registry (see `registry_dep`).
pub fn is_registry_dep(value: &TomlValue) -> (r: bool)
    ensures
        r == registry_dep(value.data()),
{
    if let Some(raw) = value.as_str() {
        let raw = trim(raw);
        return !is_path_like_string(raw) && !is_git_like_string(raw);
    }
    if let Some(table) = value.as_table() {
        if table.contains_key("git") || table.contains_key("path") || table.contains_key("url") {
            return false;
        }
        table.contains_key("version") || table.contains_key("features") || table.contains_key("optional")
            || table.contains_key("registry")
    } else {
        false
    }
}

/// The path a dependency string names: after `path:`, or the whole (trimmed) string when it
/// looks like a path.
pub open spec fn string_dep_path(d: TomlData) -> Option<Seq<char>> {
    match d {
        TomlData::Str(s) => {
            let raw = trim_seq(s);
            if starts(raw, "path:"@) {
                Some(raw.skip(5))
            } else if path_like(raw) {
                Some(raw)
            } else {
                None
            }
        },
        _ => None,
    }
}

/// The path a dependency string names (see `string_dep_path`).
pub fn path_from_string_dep(value: &TomlValue) -> (r: Option<&str>)
    ensures
        match r {
            Some(p) => string_dep_path(value.data()) == Some(p@),
            None => string_dep_path(value.data()) is None,
        },
{
    let raw = trim(value.as_str()?);
    proof { reveal_strlit("path:"); }
    if let Some(path) = strip_prefix(raw, "path:") {
        return Some(path);
    }
    if is_path_like_string(raw) {
        return Some(raw);
    }
    None
}

/// The path of a path dependency: the `path` of a table, or the path a string names.
pub open spec fn dep_path(d: TomlData) -> Option<Seq<char>> {
    match d {
        TomlData::Table(t) => match data_get(t, "path"@) {
            Some(TomlData::Str(p)) => Some(p),
            _ => None,
        },
        _ => string_dep_path(d),
    }
}

/// The path of a path dependency (see `dep_path`).
pub fn path_dep_path(value: &TomlValue) -> (r: Option<&str>)
    ensures
        match r {
            Some(p) => dep_path(value.data()) == Some(p@),
            None => dep_path(value.data()) is None,
        },
{
    if let Some(table) = value.as_table() {
        return match table.get("path") {
            Some(v) => v.as_str(),
            None => None,
        };
    }
    path_from_string_dep(value)
}

/// A package recorded in `dcr.lock`.
pub struct DepLock {
    pub name: String,
    pub version: String,
    pub checksum: String,
    pub source: String,
}

/// A value escaped for a TOML string: `\` and `"` get a backslash.
pub open spec fn escaped(s: Seq<char>) -> Seq<char> {
    replace_seq(replace_seq(s, "\\"@, "\\\\"@), "\""@, "\\\""@)
}

/// A value escaped for a TOML string (see `escaped`).
pub fn escape_value(input: &str) -> (r: String)
    ensures
        r@ == escaped(input@),
{
    proof {
        reveal_strlit("\\");
        reveal_strlit("\"");
    }
    let a = replace(input, "\\", "\\\\");
    replace(a.as_str(), "\"", "\\\"")
}

/// Each item escaped and quoted.
pub open spec fn quoted_escaped(items: Seq<Seq<char>>) -> Seq<Seq<char>> {
    items.map_values(|s: Seq<char>| "\""@ + escaped(s) + "\""@)
}

/// The items escaped, quoted and joined with `, `.
pub fn quote_list(items: &Vec<String>) -> (r: String)
    ensures
        r@ == join_seq(quoted_escaped(views(items@)), ", "@),
{
    let mut parts: Vec<String> = Vec::new();
    let mut i: usize = 0;
    while i < items.len()
        invariant
            i <= items@.len(),
            views(parts@) == quoted_escaped(views(items@)).take(i as int),
        decreases items@.len() - i,
    {
        let mut q = "\"".to_owned();
        let e = escape_value(items[i].as_str());
        q.append(e.as_str());
        q.append("\"");
        let ghost prev = parts@;
        parts.push(q);
        assert(views(parts@) =~= views(prev).push(q@));
        assert(quoted_escaped(views(items@)).take(i + 1) =~= quoted_escaped(views(items@)).take(i as int).push(q@));
        i = i + 1;
    }
    assert(quoted_escaped(views(items@)).take(i as int) =~= quoted_escaped(views(items@)));
    crate::utils::strings::join(&parts, ", ")
}

/// The line `key = "value"` with the value escaped.
pub open spec fn lock_line(key: Seq<char>, value: Seq<char>) -> Seq<char> {
    key + " = \""@ + escaped(value) + "\"\n"@
}

/// The `[[package]]` block of a locked dependency.
pub open spec fn lock_entry(p: DepLock) -> Seq<char> {
    "[[package]]\n"@ + lock_line("name"@, p.name@) + lock_line("version"@, p.version@) + lock_line("source"@, p.source@)
        + lock_line("checksum"@, p.checksum@) + "\n"@
}

/// The blocks of the locked dependencies, in order.
pub open spec fn lock_entries(ps: Seq<DepLock>) -> Seq<char>
    decreases ps.len(),
{
    if ps.len() == 0 {
        Seq::empty()
    } else {
        lock_entries(ps.drop_last()) + lock_entry(ps.last())
    }
}

proof fn lemma_lock_entries_hold(ps: Seq<DepLock>, k: int)
    requires
        0 <= k < ps.len(),
    ensures
        has_sub(lock_entries(ps), lock_entry(ps[k])),
    decreases ps.len(),
{
    let dl = ps.drop_last();
    let whole = lock_entries(ps);
    let e = lock_entry(ps[k]);
    if k == ps.len() - 1 {
        let off = lock_entries(dl).len() as int;
        assert(whole.subrange(off, off + e.len()) =~= e);
        assert(occurs_at(whole, e, off));
    } else {
        lemma_lock_entries_hold(dl, k);
        assert(dl[k] == ps[k]);
        let i = choose|i: int| occurs_at(lock_entries(dl), e, i);
        assert(whole.subrange(i, i + e.len()) =~= lock_entries(dl).subrange(i, i + e.len()));
        assert(occurs_at(whole, e, i));
    }
}

/// `dcr.lock` records every locked package: for each one there is a `[[package]]` block with
/// its name, version, source and checksum, each escaped and quoted, in that order; with no
/// package the file is empty.
pub proof fn law_lock_records_packages(name: Seq<char>, version: Seq<char>, ps: Seq<DepLock>)
    ensures
        ps.len() == 0 ==> lock_text_of(name, version, ps).len() == 0,
        forall|k: int|
            0 <= k < ps.len() ==> has_sub(
                lock_text_of(name, version, ps),
                "[[package]]\n"@ + ("name"@ + " = \""@ + escaped(#[trigger] ps[k].name@) + "\"\n"@) + ("version"@ + " = \""@
                    + escaped(ps[k].version@) + "\"\n"@) + ("source"@ + " = \""@ + escaped(ps[k].source@) + "\"\n"@) + (
                "checksum"@ + " = \""@ + escaped(ps[k].checksum@) + "\"\n"@) + "\n"@,
            ),
{
    let text = lock_text_of(name, version, ps);
    let head = if ps.len() > 0 {
        "[[package]]\n"@ + lock_line("name"@, name) + lock_line("version"@, version) + "dependencies = ["@ + join_seq(
            quoted_escaped(ps.map_values(|p: DepLock| p.name@)),
            ", "@,
        ) + "]\n\n"@
    } else {
        Seq::<char>::empty()
    };
    assert(text == head + lock_entries(ps));
    if ps.len() == 0 {
        assert(lock_entries(ps) =~= Seq::<char>::empty());
    }
    assert forall|k: int| 0 <= k < ps.len() implies has_sub(
        text,
        "[[package]]\n"@ + ("name"@ + " = \""@ + escaped(#[trigger] ps[k].name@) + "\"\n"@) + ("version"@ + " = \""@
            + escaped(ps[k].version@) + "\"\n"@) + ("source"@ + " = \""@ + escaped(ps[k].source@) + "\"\n"@) + (
        "checksum"@ + " = \""@ + escaped(ps[k].checksum@) + "\"\n"@) + "\n"@,
    ) by {
        lemma_lock_entries_hold(ps, k);
        let e = lock_entry(ps[k]);
        let i = choose|i: int| occurs_at(lock_entries(ps), e, i);
        let off = head.len() as int;
        assert(text.subrange(off + i, off + i + e.len()) =~= lock_entries(ps).subrange(i, i + e.len()));
        assert(occurs_at(text, e, off + i));
    }
}

/// The text of `dcr.lock`: when there are dependencies, the project's block listing them, then
/// one block per dependency.
pub open spec fn lock_text_of(name: Seq<char>, version: Seq<char>, ps: Seq<DepLock>) -> Seq<char> {
    (if ps.len() > 0 {
        "[[package]]\n"@ + lock_line("name"@, name) + lock_line("version"@, version) + "dependencies = ["@ + join_seq(
            quoted_escaped(ps.map_values(|p: DepLock| p.name@)),
            ", "@,
        ) + "]\n\n"@
    } else {
        Seq::empty()
    }) + lock_entries(ps)
}

fn push_quoted_line(out: &mut String, key: &str, value: &str)
    ensures
        final(out)@ == old(out)@ + lock_line(key@, value@),
{
    out.append(key);
    out.append(" = \"");
    let e = escape_value(value);
    out.append(e.as_str());
    out.append("\"\n");
    assert(final(out)@ =~= old(out)@ + lock_line(key@, value@));
}

/// The text of `dcr.lock` (see `lock_text_of`).
pub fn lock_text(project_name: &str, project_version: &str, packages: &Vec<DepLock>) -> (r: String)
    ensures
        r@ == lock_text_of(project_name@, project_version@, packages@),
{
    let mut out = String::new();
    let ghost empty = out@;
    if packages.len() > 0 {
        let mut names: Vec<String> = Vec::new();
        let mut i: usize = 0;
        while i < packages.len()
            invariant
                i <= packages@.len(),
                views(names@) == packages@.map_values(|p: DepLock| p.name@).take(i as int),
            decreases packages@.len() - i,
        {
            let ghost prev = names@;
            names.push(packages[i].name.clone());
            assert(views(names@) =~= views(prev).push(packages@[i as int].name@));
            assert(packages@.map_values(|p: DepLock| p.name@).take(i + 1) =~= packages@.map_values(|p: DepLock| p.name@).take(i as int).push(packages@[i as int].name@));
            i = i + 1;
        }
        assert(packages@.map_values(|p: DepLock| p.name@).take(i as int) =~= packages@.map_values(|p: DepLock| p.name@));
        out.append("[[package]]\n");
        push_quoted_line(&mut out, "name", project_name);
        push_quoted_line(&mut out, "version", project_version);
        out.append("dependencies = [");
        let q = quote_list(&names);
        out.append(q.as_str());
        out.append("]\n\n");
        assert(out@ =~= "[[package]]\n"@ + lock_line("name"@, project_name@) + lock_line("version"@, project_version@)
            + "dependencies = ["@ + join_seq(quoted_escaped(packages@.map_values(|p: DepLock| p.name@)), ", "@) + "]\n\n"@);
    }
    let ghost head = out@;
    let mut i: usize = 0;
    while i < packages.len()
        invariant
            i <= packages@.len(),
            out@ == head + lock_entries(packages@.take(i as int)),
        decreases packages@.len() - i,
    {
        assert(packages@.take(i + 1).drop_last() =~= packages@.take(i as int));
        let p = &packages[i];
        let ghost prev = out@;
        out.append("[[package]]\n");
        push_quoted_line(&mut out, "name", p.name.as_str());
        push_quoted_line(&mut out, "version", p.version.as_str());
        push_quoted_line(&mut out, "source", p.source.as_str());
        push_quoted_line(&mut out, "checksum", p.checksum.as_str());
        out.append("\n");
        assert(out@ =~= prev + lock_entry(packages@[i as int]));
        i = i + 1;
        assert(out@ =~= head + lock_entries(packages@.take(i as int)));
    }
    assert(packages@.take(i as int) =~= packages@);
    assert(out@ =~= lock_text_of(project_name@, project_version@, packages@));
    out
}

// ---------------------------------------------------------------------------------------------
// The registry.
// ---------------------------------------------------------------------------------------------

/// The first package of the index's `packages` array whose `name` is `name`.
pub open spec fn index_package(index: JsonData, name: Seq<char>) -> Option<JsonData> {
    match json_field(index, "packages"@) {
        Some(JsonData::Array(pkgs)) => first_named(pkgs, name),
        _ => None,
    }
}

/// The first package named `name`.
pub open spec fn first_named(pkgs: Seq<JsonData>, name: Seq<char>) -> Option<JsonData>
    decreases pkgs.len(),
{
    if pkgs.len() == 0 {
        None
    } else if json_str_field(pkgs[0], "name"@) == Some(name) {
        Some(pkgs[0])
    } else {
        first_named(pkgs.drop_first(), name)
    }
}

/// The package named `name` in a registry index (see `index_package`).
pub fn find_registry_package<'a>(index: &'a JsonValue, name: &str) -> (r: Option<&'a JsonValue>)
    ensures
        match r {
            Some(p) => index_package(index.data(), name@) == Some(p.data()),
            None => index_package(index.data(), name@) is None,
        },
{
    let pv = index.get("packages")?;
    let pkgs = pv.as_array()?;
    let ghost d = pv.data()->Array_0;
    let mut i: usize = 0;
    assert(d.skip(0) =~= d);
    while i < pkgs.len()
        invariant
            json_field(index.data(), "packages"@) == Some(pv.data()),
            pv.data() == JsonData::Array(d),
            d.len() == pkgs@.len(),
            forall|j: int| 0 <= j < pkgs@.len() ==> #[trigger] d[j] == pkgs@[j].data(),
            i <= pkgs@.len(),
            first_named(d, name@) == first_named(d.skip(i as int), name@),
        decreases pkgs@.len() - i,
    {
        assert(d.skip(i as int).drop_first() =~= d.skip(i + 1));
        assert(d.skip(i as int)[0] == d[i as int]);
        let p = &pkgs[i];
        if let Some(n) = p.get("name") {
            if let Some(ns) = n.as_str() {
                if crate::utils::strings::str_eq(ns, name) {
                    return Some(p);
                }
            }
        }
        i = i + 1;
    }
    None
}

/// What looking a package up in the registry gives: `Err` when there is no registry
/// configuration, when the index cannot be read or parsed, or when no package has the name.
/// `index` is the index file's content (`None`: there is no index file; `Err`: reading failed).
pub open spec fn registry_lookup(registries: int, index: Option<Result<Seq<char>, Seq<char>>>, index_path: Seq<char>, name: Seq<char>) -> Result<JsonData, Seq<char>> {
    let not_found = "Package "@ + name + " not found in registry (checked: \""@ + index_path + "\")"@;
    if registries < 0 {
        Err("No registry config found"@)
    } else if registries == 0 {
        Err(not_found)
    } else {
        match index {
            None => Err(not_found),
            Some(Err(e)) => Err(e),
            Some(Ok(text)) => match crate::project::json::json_document(text) {
                None => Err(crate::project::json::json_error(text)),
                Some(doc) => match index_package(doc, name) {
                    Some(p) => Ok(p),
                    None => Err(not_found),
                },
            },
        }
    }
}

/// Looks a package up in the registry (see `registry_lookup`). `registries` is the number of
/// configured registries, or `None` when there is no registry configuration.
pub fn resolve_package_from_registry(registries: Option<usize>, index: Option<Result<String, String>>, index_path: &str, name: &str) -> (r: Result<JsonValue, String>)
    ensures
        ({
            let regs = match registries {
                Some(n) => n as int,
                None => -1,
            };
            let idx = match index {
                Some(Ok(t)) => Some(Ok::<Seq<char>, Seq<char>>(t@)),
                Some(Err(e)) => Some(Err::<Seq<char>, Seq<char>>(e@)),
                None => None,
            };
            match r {
                Ok(p) => registry_lookup(regs, idx, index_path@, name@) == Ok::<JsonData, Seq<char>>(p.data()),
                Err(m) => registry_lookup(regs, idx, index_path@, name@) == Err::<JsonData, Seq<char>>(m@),
            }
        }),
{
    let count = match registries {
        Some(n) => n,
        None => {
            return Err("No registry config found".to_owned());
        },
    };
    let mut not_found = "Package ".to_owned();
    not_found.append(name);
    not_found.append(" not found in registry (checked: \"");
    not_found.append(index_path);
    not_found.append("\")");
    if count == 0 {
        return Err(not_found);
    }
    match index {
        None => Err(not_found),
        Some(Err(e)) => Err(e),
        Some(Ok(text)) => match crate::project::json::parse_json(text.as_str()) {
            Err(e) => Err(e),
            Ok(doc) => match find_registry_package(&doc, name) {
                Some(p) => Ok(copy_json(p)),
                None => Err(not_found),
            },
        },
    }
}

/// A copy of a JSON value.
pub fn copy_json(v: &JsonValue) -> (r: JsonValue)
    ensures
        r.data() == v.data(),
{
    v.deep_clone()
}

/// The version a registry entry offers: `latest_version`, or `version` when that is absent.
pub open spec fn registry_version_of(info: JsonData) -> Option<Seq<char>> {
    match json_field(info, "latest_version"@) {
        Some(JsonData::Str(s)) => Some(s),
        Some(_) => None,
        None => json_str_field(info, "version"@),
    }
}

/// The version a registry entry offers (see `registry_version_of`).
pub fn registry_version(info: &JsonValue) -> (r: Option<String>)
    ensures
        match r {
            Some(v) => registry_version_of(info.data()) == Some(v@),
            None => registry_version_of(info.data()) is None,
        },
{
    let v = match info.get("latest_version") {
        Some(v) => v,
        None => info.get("version")?,
    };
    Some(v.as_str()?.to_owned())
}

/// The directory of a registry package: its `path` (against the registry cache when
/// relative); a path to the package's `dcr.toml` gives the directory that holds it.
pub open spec fn package_root_of(info: JsonData, cache_root: Seq<char>) -> Result<Seq<char>, Seq<char>> {
    match json_str_field(info, "path"@) {
        None => Err("Registry package is missing path"@),
        Some(raw) => if trim_seq(raw).len() == 0 {
            Err("Registry package path is empty"@)
        } else {
            let full = join_path(cache_root, raw);
            let start = match last_index(full, '/') {
                Some(i) => i + 1,
                None => 0,
            };
            if full.skip(start) == "dcr.toml"@ {
                Ok(if start == 0 {
                    Seq::empty()
                } else if start == 1 {
                    "/"@
                } else {
                    full.take(start - 1)
                })
            } else {
                Ok(full)
            }
        },
    }
}

/// The directory of a registry package (see `package_root_of`).
pub fn package_root_from_registry_info(info: &JsonValue, cache_root: &str) -> (r: Result<String, String>)
    ensures
        match r {
            Ok(p) => package_root_of(info.data(), cache_root@) == Ok::<Seq<char>, Seq<char>>(p@),
            Err(m) => package_root_of(info.data(), cache_root@) == Err::<Seq<char>, Seq<char>>(m@),
        },
{
    let raw = match info.get("path") {
        Some(v) => match v.as_str() {
            Some(s) => s,
            None => {
                return Err("Registry package is missing path".to_owned());
            },
        },
        None => {
            return Err("Registry package is missing path".to_owned());
        },
    };
    if is_blank(raw) {
        return Err("Registry package path is empty".to_owned());
    }
    let full = join(cache_root, raw);
    let v = crate::utils::strings::chars_of(full.as_str());
    let n = v.len();
    let mut j: usize = n;
    assert(v@.subrange(0, n as int) =~= full@);
    while j > 0 && v[j - 1] != '/'
        invariant
            v@ == full@,
            n == v@.len(),
            j <= n,
            last_index(full@, '/') == last_index(full@.subrange(0, j as int), '/'),
        decreases j,
    {
        assert(full@.subrange(0, j as int).drop_last() =~= full@.subrange(0, j - 1));
        j = j - 1;
    }
    proof {
        if j > 0 {
            assert(full@.subrange(0, j as int).last() == '/');
        } else {
            assert(full@.subrange(0, 0) =~= Seq::<char>::empty());
        }
    }
    let name = crate::utils::strings::string_of_range(&v, j, n);
    assert(name@ =~= full@.skip(j as int));
    if crate::utils::strings::str_eq(name.as_str(), "dcr.toml") {
        if j == 0 {
            return Ok(String::new());
        }
        if j == 1 {
            return Ok("/".to_owned());
        }
        let parent = crate::utils::strings::string_of_range(&v, 0, j - 1);
        assert(parent@ =~= full@.take(j - 1));
        return Ok(parent);
    }
    Ok(full)
}

/// The lock entry of a registry dependency.
pub open spec fn registry_lock_of(name: Seq<char>, info: JsonData) -> (Seq<char>, Seq<char>, Seq<char>, Seq<char>) {
    (
        name,
        match json_str_field(info, "version"@) {
            Some(v) => v,
            None => Seq::empty(),
        },
        Seq::empty(),
        "registry+"@ + match json_str_field(info, "registry_url"@) {
            Some(u) => u,
            None => "https://dcr-registry.pages.dev"@,
        },
    )
}

/// The view of a lock entry: name, version, checksum, source.
pub open spec fn lock_view(l: DepLock) -> (Seq<char>, Seq<char>, Seq<char>, Seq<char>) {
    (l.name@, l.version@, l.checksum@, l.source@)
}

/// The lock entry of a registry dependency (see `registry_lock_of`).
pub fn registry_lock(name: &str, info: &JsonValue) -> (r: DepLock)
    ensures
        lock_view(r) == registry_lock_of(name@, info.data()),
{
    let version = match info.get("version") {
        Some(v) => match v.as_str() {
            Some(s) => s.to_owned(),
            None => String::new(),
        },
        None => String::new(),
    };
    let mut source = "registry+".to_owned();
    match info.get("registry_url") {
        Some(u) => match u.as_str() {
            Some(s) => source.append(s),
            None => source.append("https://dcr-registry.pages.dev"),
        },
        None => source.append("https://dcr-registry.pages.dev"),
    }
    DepLock { name: name.to_owned(), version, checksum: String::new(), source }
}

// ---------------------------------------------------------------------------------------------
// Resolving the dependencies of a build.
// ---------------------------------------------------------------------------------------------

/// Which of a path dependency's default directories exist: `include`, `lib`, `lib64`,
/// `target/lib`.
pub struct PathFacts {
    pub include_dir: bool,
    pub lib: bool,
    pub lib64: bool,
    pub target_lib: bool,
}

/// What a build takes from one dependency: header directories, library directories, libraries.
pub type DepPaths = (Seq<Seq<char>>, Seq<Seq<char>>, Seq<Seq<char>>);

/// The strings of array items joined onto `root` (items that are not strings are skipped).
pub open spec fn joined_items(root: Seq<char>, a: Seq<TomlData>) -> Seq<Seq<char>>
    decreases a.len(),
{
    if a.len() == 0 {
        Seq::empty()
    } else {
        let init = joined_items(root, a.drop_last());
        match a.last() {
            TomlData::Str(s) => init.push(join_path(root, s)),
            _ => init,
        }
    }
}

/// The strings among array items.
pub open spec fn str_items(a: Seq<TomlData>) -> Seq<Seq<char>>
    decreases a.len(),
{
    if a.len() == 0 {
        Seq::empty()
    } else {
        let init = str_items(a.drop_last());
        match a.last() {
            TomlData::Str(s) => init.push(s),
            _ => init,
        }
    }
}

/// The default library directories that exist.
pub open spec fn default_lib_dirs(root: Seq<char>, f: PathFacts) -> Seq<Seq<char>> {
    (if f.lib {
        seq![join_path(root, "lib"@)]
    } else {
        Seq::empty()
    }) + (if f.lib64 {
        seq![join_path(root, "lib64"@)]
    } else {
        Seq::empty()
    }) + (if f.target_lib {
        seq![join_path(join_path(root, "target"@), "lib"@)]
    } else {
        Seq::empty()
    })
}

/// The default header directory, if it exists.
pub open spec fn default_include(root: Seq<char>, f: PathFacts) -> Seq<Seq<char>> {
    if f.include_dir {
        seq![join_path(root, "include"@)]
    } else {
        Seq::empty()
    }
}

/// What a path dependency gives: a table may list `include`, `lib` (both against the
/// dependency's root) and `libs`; what it leaves out comes from the default directories that
/// exist, and the library is named after the dependency.
pub open spec fn path_dep_paths(name: Seq<char>, d: TomlData, root: Seq<char>, f: PathFacts) -> DepPaths {
    match d {
        TomlData::Table(t) => (
            match data_get(t, "include"@) {
                Some(TomlData::Array(a)) => joined_items(root, a),
                _ => default_include(root, f),
            },
            match data_get(t, "lib"@) {
                Some(TomlData::Array(a)) => joined_items(root, a),
                _ => default_lib_dirs(root, f),
            },
            match data_get(t, "libs"@) {
                Some(TomlData::Array(a)) => str_items(a),
                _ => seq![name],
            },
        ),
        _ => (default_include(root, f), default_lib_dirs(root, f), seq![name]),
    }
}

fn push_joined_items(out: &mut Vec<String>, root: &str, a: &Vec<TomlValue>, d: Ghost<Seq<TomlData>>)
    requires
        d@.len() == a@.len(),
        forall|i: int| 0 <= i < a@.len() ==> #[trigger] d@[i] == a@[i].data(),
    ensures
        views(final(out)@) == views(old(out)@) + joined_items(root@, d@),
{
    let ghost start = views(out@);
    let mut i: usize = 0;
    while i < a.len()
        invariant
            i <= a@.len(),
            d@.len() == a@.len(),
            forall|j: int| 0 <= j < a@.len() ==> #[trigger] d@[j] == a@[j].data(),
            views(out@) == start + joined_items(root@, d@.take(i as int)),
        decreases a@.len() - i,
    {
        assert(d@.take(i + 1).drop_last() =~= d@.take(i as int));
        assert(d@.take(i + 1).last() == a@[i as int].data());
        let ghost prev = out@;
        if let Some(s) = a[i].as_str() {
            let j = join(root, s);
            out.push(j);
            assert(views(out@) =~= views(prev).push(j@));
        }
        assert(views(out@) =~= start + joined_items(root@, d@.take(i + 1)));
        i = i + 1;
    }
    assert(d@.take(i as int) =~= d@);
}

pub(crate) fn push_str_items(out: &mut Vec<String>, a: &Vec<TomlValue>, d: Ghost<Seq<TomlData>>)
    requires
        d@.len() == a@.len(),
        forall|i: int| 0 <= i < a@.len() ==> #[trigger] d@[i] == a@[i].data(),
    ensures
        views(final(out)@) == views(old(out)@) + str_items(d@),
{
    let ghost start = views(out@);
    let mut i: usize = 0;
    while i < a.len()
        invariant
            i <= a@.len(),
            d@.len() == a@.len(),
            forall|j: int| 0 <= j < a@.len() ==> #[trigger] d@[j] == a@[j].data(),
            views(out@) == start + str_items(d@.take(i as int)),
        decreases a@.len() - i,
    {
        assert(d@.take(i + 1).drop_last() =~= d@.take(i as int));
        assert(d@.take(i + 1).last() == a@[i as int].data());
        let ghost prev = out@;
        if let Some(s) = a[i].as_str() {
            let o = s.to_owned();
            out.push(o);
            assert(views(out@) =~= views(prev).push(o@));
        }
        assert(views(out@) =~= start + str_items(d@.take(i + 1)));
        i = i + 1;
    }
    assert(d@.take(i as int) =~= d@);
}

fn push_default_include(out: &mut Vec<String>, root: &str, f: &PathFacts)
    ensures
        views(final(out)@) == views(old(out)@) + default_include(root@, *f),
{
    let ghost start = views(out@);
    if f.include_dir {
        out.push(join(root, "include"));
    }
    assert(views(out@) =~= start + default_include(root@, *f));
}

fn push_default_lib_dirs(out: &mut Vec<String>, root: &str, f: &PathFacts)
    ensures
        views(final(out)@) == views(old(out)@) + default_lib_dirs(root@, *f),
{
    let ghost start = views(out@);
    if f.lib {
        out.push(join(root, "lib"));
    }
    if f.lib64 {
        out.push(join(root, "lib64"));
    }
    if f.target_lib {
        let t = join(root, "target");
        out.push(join(t.as_str(), "lib"));
    }
    assert(views(out@) =~= start + default_lib_dirs(root@, *f));
}

/// Adds what a path dependency gives (see `path_dep_paths`) to `resolved`; `dep_root` is the
/// dependency's root and `facts` tells which of its default directories exist.
pub fn add_path_dependency(resolved: &mut ResolvedDeps, name: &str, value: &TomlValue, dep_root: &str, facts: &PathFacts)
    ensures
        ({
            let p = path_dep_paths(name@, value.data(), dep_root@, *facts);
            &&& views(final(resolved).include_dirs@) == views(old(resolved).include_dirs@) + p.0
            &&& views(final(resolved).lib_dirs@) == views(old(resolved).lib_dirs@) + p.1
            &&& views(final(resolved).libs@) == views(old(resolved).libs@) + p.2
        }),
{
    match value.as_table() {
        Some(t) => {
            match t.get("include") {
                Some(v) => match v.as_array() {
                    Some(a) => push_joined_items(&mut resolved.include_dirs, dep_root, a, Ghost(v.data()->Array_0)),
                    None => push_default_include(&mut resolved.include_dirs, dep_root, facts),
                },
                None => push_default_include(&mut resolved.include_dirs, dep_root, facts),
            }
            match t.get("lib") {
                Some(v) => match v.as_array() {
                    Some(a) => push_joined_items(&mut resolved.lib_dirs, dep_root, a, Ghost(v.data()->Array_0)),
                    None => push_default_lib_dirs(&mut resolved.lib_dirs, dep_root, facts),
                },
                None => push_default_lib_dirs(&mut resolved.lib_dirs, dep_root, facts),
            }
            let ghost before = views(resolved.libs@);
            match t.get("libs") {
                Some(v) => match v.as_array() {
                    Some(a) => push_str_items(&mut resolved.libs, a, Ghost(v.data()->Array_0)),
                    None => {
                        resolved.libs.push(name.to_owned());
                        assert(views(resolved.libs@) =~= before + seq![name@]);
                    },
                },
                None => {
                    resolved.libs.push(name.to_owned());
                    assert(views(resolved.libs@) =~= before + seq![name@]);
                },
            }
        },
        None => {
            push_default_include(&mut resolved.include_dirs, dep_root, facts);
            push_default_lib_dirs(&mut resolved.lib_dirs, dep_root, facts);
            let ghost before = views(resolved.libs@);
            resolved.libs.push(name.to_owned());
            assert(views(resolved.libs@) =~= before + seq![name@]);
        },
    }
}

/// A git dependency: a table with a string `git`, and its `version` when it has one.
pub open spec fn git_dep_of(d: TomlData) -> Option<(Seq<char>, Option<Seq<char>>)> {
    match d {
        TomlData::Table(t) => match data_get(t, "git"@) {
            Some(TomlData::Str(url)) => Some((url, match data_get(t, "version"@) {
                Some(TomlData::Str(v)) => Some(v),
                _ => None,
            })),
            _ => None,
        },
        _ => None,
    }
}

/// A git dependency's URL and version (see `git_dep_of`).
pub fn git_dep(value: &TomlValue) -> (r: Option<(String, Option<String>)>)
    ensures
        match r {
            Some(g) => git_dep_of(value.data()) == Some((g.0@, match g.1 {
                Some(v) => Some(v@),
                None => None::<Seq<char>>,
            })),
            None => git_dep_of(value.data()) is None,
        },
{
    let t = value.as_table()?;
    let url = t.get("git")?.as_str()?;
    let version = match t.get("version") {
        Some(v) => match v.as_str() {
            Some(s) => Some(s.to_owned()),
            None => None,
        },
        None => None,
    };
    Some((url.to_owned(), version))
}

/// What the caller found out about one dependency before resolving: the registry entry of a
/// registry dependency (or why the lookup failed), the registry cache's root, which default
/// directories of a path dependency exist, and a path dependency's version.
pub struct DepFacts {
    pub registry: Option<Result<JsonValue, String>>,
    pub cache_root: String,
    pub paths: PathFacts,
    pub version: String,
}

/// The view of the registry lookup of a dependency.
pub open spec fn lookup_view(f: DepFacts) -> Option<Result<JsonData, Seq<char>>> {
    match f.registry {
        Some(Ok(v)) => Some(Ok(v.data())),
        Some(Err(e)) => Some(Err(e@)),
        None => None,
    }
}

/// One dependency resolved: what the build takes from it, and its lock entry if it has one.
pub open spec fn dep_step(name: Seq<char>, d: TomlData, f: DepFacts, project_root: Seq<char>) -> Result<(DepPaths, Option<(Seq<char>, Seq<char>, Seq<char>, Seq<char>)>), Seq<char>> {
    if registry_dep(d) {
        match lookup_view(f) {
            Some(Ok(info)) => match package_root_of(info, f.cache_root@) {
                Ok(root) => Ok((
                    (
                        seq![join_path(join_path(root, "target"@), "include"@)],
                        seq![join_path(join_path(root, "target"@), "lib"@)],
                        seq![name],
                    ),
                    Some(registry_lock_of(name, info)),
                )),
                Err(m) => Err(m),
            },
            Some(Err(e)) => Err(e),
            None => Err("Package "@ + name + " was not looked up in the registry"@),
        }
    } else {
        match dep_path(d) {
            Some(p) => {
                let root = join_path(project_root, p);
                Ok((path_dep_paths(name, d, root, f.paths), Some((name, f.version@, Seq::empty(), "path+"@ + root))))
            },
            None => match git_dep_of(d) {
                Some(g) => Ok((
                    (Seq::empty(), Seq::empty(), Seq::empty()),
                    Some((name, match g.1 {
                        Some(v) => v,
                        None => Seq::empty(),
                    }, Seq::empty(), "git+"@ + g.0)),
                )),
                None => Ok(((Seq::empty(), Seq::empty(), Seq::empty()), None)),
            },
        }
    }
}

/// The dependencies resolved in order: the paths gathered and the lock entries, or the first
/// error.
pub open spec fn deps_fold(entries: Seq<(Seq<char>, TomlData)>, facts: Seq<DepFacts>, project_root: Seq<char>) -> Result<(DepPaths, Seq<(Seq<char>, Seq<char>, Seq<char>, Seq<char>)>), Seq<char>>
    decreases entries.len(),
{
    if entries.len() == 0 {
        Ok(((Seq::empty(), Seq::empty(), Seq::empty()), Seq::empty()))
    } else {
        match deps_fold(entries.drop_last(), facts, project_root) {
            Err(m) => Err(m),
            Ok((paths, locks)) => {
                let i = entries.len() - 1;
                match dep_step(entries[i].0, entries[i].1, facts[i], project_root) {
                    Err(m) => Err(m),
                    Ok((p, l)) => Ok((
                        (paths.0 + p.0, paths.1 + p.1, paths.2 + p.2),
                        match l {
                            Some(x) => locks.push(x),
                            None => locks,
                        },
                    )),
                }
            },
        }
    }
}

fn add_registry_dependency(resolved: &mut ResolvedDeps, locks: &mut Vec<DepLock>, name: &str, info: &JsonValue, cache_root: &str) -> (r: Result<(), String>)
    ensures
        match package_root_of(info.data(), cache_root@) {
            Ok(root) => r is Ok && views(final(resolved).include_dirs@) == views(old(resolved).include_dirs@) + seq![join_path(join_path(root, "target"@), "include"@)]
                && views(final(resolved).lib_dirs@) == views(old(resolved).lib_dirs@) + seq![join_path(join_path(root, "target"@), "lib"@)]
                && views(final(resolved).libs@) == views(old(resolved).libs@) + seq![name@]
                && final(locks)@.map_values(|l: DepLock| lock_view(l)) == old(locks)@.map_values(|l: DepLock| lock_view(l)).push(registry_lock_of(name@, info.data())),
            Err(m) => (r matches Err(e) && e@ == m),
        },
{
    let root = package_root_from_registry_info(info, cache_root)?;
    let ghost i0 = views(resolved.include_dirs@);
    let ghost l0 = views(resolved.lib_dirs@);
    let ghost n0 = views(resolved.libs@);
    let ghost k0 = locks@;
    resolved.include_dirs.push(registry_include_dir(root.as_str()));
    resolved.lib_dirs.push(registry_lib_dir(root.as_str()));
    resolved.libs.push(name.to_owned());
    locks.push(registry_lock(name, info));
    assert(views(resolved.include_dirs@) =~= i0 + seq![join_path(join_path(root@, "target"@), "include"@)]);
    assert(views(resolved.lib_dirs@) =~= l0 + seq![join_path(join_path(root@, "target"@), "lib"@)]);
    assert(views(resolved.libs@) =~= n0 + seq![name@]);
    assert(locks@.map_values(|l: DepLock| lock_view(l)) =~= k0.map_values(|l: DepLock| lock_view(l)).push(registry_lock_of(name@, info.data())));
    Ok(())
}

/// Resolves the dependencies of `[dependencies]` in order (see `dep_step`): what the build
/// takes from them, and the entries of `dcr.lock`. `facts[i]` is what the caller found out
/// about the `i`-th dependency; a registry dependency must come with its lookup.
pub fn resolve_deps(config: &crate::project::config::Config, project_root: &str, facts: &Vec<DepFacts>) -> (r: Result<(ResolvedDeps, Vec<DepLock>), String>)
    requires
        facts@.len() == crate::project::config::section_entries(config.doc()->Table_0, "dependencies"@).len(),
    ensures
        ({
            let entries = crate::project::config::section_entries(config.doc()->Table_0, "dependencies"@);
            match r {
                Ok((res, locks)) => deps_fold(entries, facts@, project_root@) == Ok::<(DepPaths, Seq<(Seq<char>, Seq<char>, Seq<char>, Seq<char>)>), Seq<char>>((
                    (views(res.include_dirs@), views(res.lib_dirs@), views(res.libs@)),
                    locks@.map_values(|l: DepLock| lock_view(l)),
                )),
                Err(m) => deps_fold(entries, facts@, project_root@) == Err::<(DepPaths, Seq<(Seq<char>, Seq<char>, Seq<char>, Seq<char>)>), Seq<char>>(m@),
            }
        }),
{
    let mut resolved = ResolvedDeps { include_dirs: Vec::new(), lib_dirs: Vec::new(), libs: Vec::new() };
    let mut locks: Vec<DepLock> = Vec::new();
    let ghost entries = crate::project::config::section_entries(config.doc()->Table_0, "dependencies"@);
    assert(views(resolved.include_dirs@) =~= Seq::<Seq<char>>::empty());
    assert(views(resolved.lib_dirs@) =~= Seq::<Seq<char>>::empty());
    assert(views(resolved.libs@) =~= Seq::<Seq<char>>::empty());
    assert(locks@.map_values(|l: DepLock| lock_view(l)) =~= Seq::<(Seq<char>, Seq<char>, Seq<char>, Seq<char>)>::empty());
    let root_table = match config.root() {
        Some(t) => t,
        None => {
            return Ok((resolved, locks));
        },
    };
    let deps = match root_table.get("dependencies") {
        Some(v) => match v.as_table() {
            Some(t) => t,
            None => {
                return Ok((resolved, locks));
            },
        },
        None => {
            return Ok((resolved, locks));
        },
    };
    let n = deps.len();
    let mut i: usize = 0;
    while i < n
        invariant
            entries == deps.data(),
            entries == crate::project::config::section_entries(config.doc()->Table_0, "dependencies"@),
            n == entries.len(),
            facts@.len() == n,
            i <= n,
            deps_fold(entries.take(i as int), facts@, project_root@) == Ok::<(DepPaths, Seq<(Seq<char>, Seq<char>, Seq<char>, Seq<char>)>), Seq<char>>((
                (views(resolved.include_dirs@), views(resolved.lib_dirs@), views(resolved.libs@)),
                locks@.map_values(|l: DepLock| lock_view(l)),
            )),
        decreases n - i,
    {
        assert(entries.take(i + 1).drop_last() =~= entries.take(i as int));
        let (name, value) = deps.entry(i);
        let f = &facts[i];
        if is_registry_dep(value) {
            match &f.registry {
                Some(Ok(info)) => {
                    match add_registry_dependency(&mut resolved, &mut locks, name.as_str(), info, f.cache_root.as_str()) {
                        Ok(()) => {},
                        Err(e) => {
                            assert(deps_fold(entries.take(i + 1), facts@, project_root@) == Err::<(DepPaths, Seq<(Seq<char>, Seq<char>, Seq<char>, Seq<char>)>), Seq<char>>(e@));
                            proof { lemma_fold_err(entries, facts@, project_root@, (i + 1) as int, e@); }
                            return Err(e);
                        },
                    }
                },
                Some(Err(e)) => {
                    proof { lemma_fold_err(entries, facts@, project_root@, (i + 1) as int, e@); }
                    return Err(e.clone());
                },
                None => {
                    let mut m = "Package ".to_owned();
                    m.append(name.as_str());
                    m.append(" was not looked up in the registry");
                    proof { lemma_fold_err(entries, facts@, project_root@, (i + 1) as int, m@); }
                    return Err(m);
                },
            }
        } else if let Some(p) = path_dep_path(value) {
            let root = join(project_root, p);
            add_path_dependency(&mut resolved, name.as_str(), value, root.as_str(), &f.paths);
            let mut source = "path+".to_owned();
            source.append(root.as_str());
            let ghost k0 = locks@;
            locks.push(DepLock { name: name.clone(), version: f.version.clone(), checksum: String::new(), source });
            assert(locks@.map_values(|l: DepLock| lock_view(l)) =~= k0.map_values(|l: DepLock| lock_view(l)).push((name@, f.version@, Seq::empty(), "path+"@ + root@)));
        } else if let Some((url, version)) = git_dep(value) {
            let mut source = "git+".to_owned();
            source.append(url.as_str());
            let ver = match version {
                Some(v) => v,
                None => String::new(),
            };
            let ghost k0 = locks@;
            let ghost vv = ver@;
            locks.push(DepLock { name: name.clone(), version: ver, checksum: String::new(), source });
            assert(locks@.map_values(|l: DepLock| lock_view(l)) =~= k0.map_values(|l: DepLock| lock_view(l)).push((name@, vv, Seq::empty(), "git+"@ + url@)));
            assert(views(resolved.include_dirs@) =~= views(resolved.include_dirs@) + Seq::<Seq<char>>::empty());
            assert(views(resolved.lib_dirs@) =~= views(resolved.lib_dirs@) + Seq::<Seq<char>>::empty());
            assert(views(resolved.libs@) =~= views(resolved.libs@) + Seq::<Seq<char>>::empty());
        } else {
            assert(views(resolved.include_dirs@) =~= views(resolved.include_dirs@) + Seq::<Seq<char>>::empty());
            assert(views(resolved.lib_dirs@) =~= views(resolved.lib_dirs@) + Seq::<Seq<char>>::empty());
            assert(views(resolved.libs@) =~= views(resolved.libs@) + Seq::<Seq<char>>::empty());
        }
        i = i + 1;
    }
    assert(entries.take(i as int) =~= entries);
    Ok((resolved, locks))
}

/// Once the fold fails on a prefix, it fails with the same error on the whole.
proof fn lemma_fold_err(entries: Seq<(Seq<char>, TomlData)>, facts: Seq<DepFacts>, project_root: Seq<char>, k: int, m: Seq<char>)
    requires
        0 <= k <= entries.len(),
        deps_fold(entries.take(k), facts, project_root) == Err::<(DepPaths, Seq<(Seq<char>, Seq<char>, Seq<char>, Seq<char>)>), Seq<char>>(m),
    ensures
        deps_fold(entries, facts, project_root) == Err::<(DepPaths, Seq<(Seq<char>, Seq<char>, Seq<char>, Seq<char>)>), Seq<char>>(m),
    decreases entries.len() - k,
{
    if k < entries.len() {
        assert(entries.take(k + 1).drop_last() =~= entries.take(k));
        lemma_fold_err(entries, facts, project_root, k + 1, m);
    } else {
        assert(entries.take(k) =~= entries);
    }
}

// ---------------------------------------------------------------------------------------------
// The version and checksum of a path dependency, and where the registry's files live.
// ---------------------------------------------------------------------------------------------

/// A dependency's version: `package.version` of its `dcr.toml` (`content`, when the file
/// could be read), or empty when the file is missing, is not a valid configuration, or sets
/// no version string.
pub fn dep_version(path: &str, content: Option<&str>) -> (r: String)
    ensures
        match content {
            Some(text) => match crate::project::value::toml_document(text@) {
                Some(d) => if crate::project::config::typed_ok(d) && crate::project::rules::config_valid(d) {
                    r@ == crate::cli::run::str_or_empty(d, "package.version"@)
                } else {
                    r@.len() == 0
                },
                None => r@.len() == 0,
            },
            None => r@.len() == 0,
        },
{
    match crate::project::config::Config::open(path, content) {
        Ok(c) => match c.get("package.version") {
            Some(v) => match v.as_str() {
                Some(s) => s.to_owned(),
                None => String::new(),
            },
            None => String::new(),
        },
        Err(_) => String::new(),
    }
}

/// The SHA-256 digest of some bytes.
pub uninterp spec fn sha256_of(data: Seq<u8>) -> Seq<u8>;

/// `Sha256::digest` of the `sha2` crate: the digest of `data`, which is 32 bytes long (the
/// hash's output size). What the digest is, is not stated beyond its name.
#[verifier::external_body]
pub(crate) fn sha256_digest(data: &[u8]) -> (r: Vec<u8>)
    ensures
        r@ == sha256_of(data@),
        r@.len() == 32,
{
    sha2::Sha256::digest(data).to_vec()
}

/// The contents given for the file at `rel` (the first entry naming it; empty when none
/// does).
pub open spec fn data_for(entries: Seq<(String, Vec<u8>)>, rel: Seq<char>) -> Seq<u8>
    decreases entries.len(),
{
    if entries.len() == 0 {
        Seq::empty()
    } else if entries[0].0@ == rel {
        entries[0].1@
    } else {
        data_for(entries.drop_first(), rel)
    }
}

/// What a dependency's checksum hashes: for each file in order, its relative path in UTF-8,
/// then its contents.
pub open spec fn checksum_input(rels: Seq<Seq<char>>, entries: Seq<(String, Vec<u8>)>) -> Seq<u8>
    decreases rels.len(),
{
    if rels.len() == 0 {
        Seq::empty()
    } else {
        checksum_input(rels.drop_last(), entries) + vstd::utf8::encode_utf8(rels.last()) + data_for(entries, rels.last())
    }
}

/// The relative paths of the files.
pub open spec fn rel_paths(entries: Seq<(String, Vec<u8>)>) -> Seq<Seq<char>> {
    entries.map_values(|e: (String, Vec<u8>)| e.0@)
}

/// A dependency's checksum: the SHA-256 of its files (relative paths sorted) in lower-case
/// hexadecimal.
pub open spec fn checksum_of(entries: Seq<(String, Vec<u8>)>) -> Seq<char> {
    hex_seq(sha256_of(checksum_input(rel_paths(entries).sort_by(key_leq()), entries)))
}

fn append_bytes(buf: &mut Vec<u8>, b: &[u8])
    ensures
        final(buf)@ == old(buf)@ + b@,
{
    let ghost start = buf@;
    let mut i: usize = 0;
    while i < b.len()
        invariant
            i <= b@.len(),
            buf@ == start + b@.take(i as int),
        decreases b@.len() - i,
    {
        buf.push(b[i]);
        assert(b@.take(i + 1) =~= b@.take(i as int).push(b@[i as int]));
        i = i + 1;
    }
    assert(b@.take(i as int) =~= b@);
}

fn contents_index(entries: &Vec<(String, Vec<u8>)>, rel: &str) -> (r: Option<usize>)
    ensures
        match r {
            Some(k) => k < entries@.len() && entries@[k as int].1@ == data_for(entries@, rel@),
            None => data_for(entries@, rel@) == Seq::<u8>::empty(),
        },
{
    let mut i: usize = 0;
    assert(entries@.skip(0) =~= entries@);
    while i < entries.len()
        invariant
            i <= entries@.len(),
            data_for(entries@, rel@) == data_for(entries@.skip(i as int), rel@),
        decreases entries@.len() - i,
    {
        assert(entries@.skip(i as int)[0] == entries@[i as int]);
        assert(entries@.skip(i as int).drop_first() =~= entries@.skip(i + 1));
        if crate::utils::strings::str_eq(entries[i].0.as_str(), rel) {
            return Some(i);
        }
        i = i + 1;
    }
    None
}

/// A dependency's checksum from its files (see `checksum_of`): each entry is a file's path
/// relative to the dependency's root and its contents.
pub fn compute_checksum(entries: &Vec<(String, Vec<u8>)>) -> (r: String)
    ensures
        r@ == checksum_of(entries@),
{
    let mut rels: Vec<String> = Vec::new();
    let mut i: usize = 0;
    while i < entries.len()
        invariant
            i <= entries@.len(),
            views(rels@) == rel_paths(entries@).take(i as int),
        decreases entries@.len() - i,
    {
        let ghost prev = rels@;
        rels.push(entries[i].0.clone());
        assert(views(rels@) =~= views(prev).push(entries@[i as int].0@));
        assert(rel_paths(entries@).take(i + 1) =~= rel_paths(entries@).take(i as int).push(entries@[i as int].0@));
        i = i + 1;
    }
    assert(rel_paths(entries@).take(i as int) =~= rel_paths(entries@));
    let sorted = sort_strings(rels);
    let ghost order = views(sorted@);
    let mut buf: Vec<u8> = Vec::new();
    let mut k: usize = 0;
    while k < sorted.len()
        invariant
            k <= sorted@.len(),
            order == views(sorted@),
            buf@ == checksum_input(order.take(k as int), entries@),
        decreases sorted@.len() - k,
    {
        assert(order.take(k + 1).drop_last() =~= order.take(k as int));
        assert(order.take(k + 1).last() == sorted@[k as int]@);
        let rel = sorted[k].as_str();
        append_bytes(&mut buf, rel.as_bytes());
        match contents_index(entries, rel) {
            Some(e) => append_bytes(&mut buf, entries[e].1.as_slice()),
            None => {},
        }
        assert(buf@ =~= checksum_input(order.take(k + 1), entries@));
        k = k + 1;
    }
    assert(order.take(k as int) =~= order);
    let h = sha256_digest(buf.as_slice());
    to_hex(h.as_slice())
}

/// No two entries name the same relative path.
pub open spec fn distinct_paths(entries: Seq<(String, Vec<u8>)>) -> bool {
    forall|i: int, j: int| 0 <= i < entries.len() && 0 <= j < entries.len() && i != j
        ==> entries[i].0@ != entries[j].0@
}

/// Every entry of `a` (path and contents) is an entry of `b`.
pub open spec fn entries_within(a: Seq<(String, Vec<u8>)>, b: Seq<(String, Vec<u8>)>) -> bool {
    forall|i: int| #![trigger a[i]] 0 <= i < a.len() ==> exists|j: int| #![trigger b[j]] 0 <= j < b.len() && b[j].0@ == a[i].0@ && b[j].1@ == a[i].1@
}

proof fn lemma_data_for_at(entries: Seq<(String, Vec<u8>)>, k: int)
    requires
        0 <= k < entries.len(),
        distinct_paths(entries),
    ensures
        data_for(entries, entries[k].0@) == entries[k].1@,
    decreases entries.len(),
{
    if k > 0 {
        assert(entries[0].0@ != entries[k].0@);
        let rest = entries.drop_first();
        assert(rest[k - 1] == entries[k]);
        assert(distinct_paths(rest)) by {
            assert forall|i: int, j: int| 0 <= i < rest.len() && 0 <= j < rest.len() && i != j
                implies rest[i].0@ != rest[j].0@ by {
                assert(rest[i] == entries[i + 1] && rest[j] == entries[j + 1]);
            }
        }
        lemma_data_for_at(rest, k - 1);
    }
}

proof fn lemma_data_for_absent(entries: Seq<(String, Vec<u8>)>, rel: Seq<char>)
    requires
        forall|i: int| 0 <= i < entries.len() ==> #[trigger] entries[i].0@ != rel,
    ensures
        data_for(entries, rel) == Seq::<u8>::empty(),
    decreases entries.len(),
{
    if entries.len() > 0 {
        let rest = entries.drop_first();
        assert forall|i: int| 0 <= i < rest.len() implies #[trigger] rest[i].0@ != rel by {
            assert(rest[i] == entries[i + 1]);
        }
        lemma_data_for_absent(rest, rel);
    }
}

proof fn lemma_same_data(a: Seq<(String, Vec<u8>)>, b: Seq<(String, Vec<u8>)>, rel: Seq<char>)
    requires
        distinct_paths(a),
        distinct_paths(b),
        entries_within(a, b),
        entries_within(b, a),
    ensures
        data_for(a, rel) == data_for(b, rel),
{
    if exists|i: int| 0 <= i < a.len() && #[trigger] a[i].0@ == rel {
        let i = choose|i: int| 0 <= i < a.len() && #[trigger] a[i].0@ == rel;
        let j = choose|j: int| 0 <= j < b.len() && #[trigger] b[j].0@ == a[i].0@ && b[j].1@ == a[i].1@;
        lemma_data_for_at(a, i);
        lemma_data_for_at(b, j);
    } else {
        assert forall|j: int| 0 <= j < b.len() implies #[trigger] b[j].0@ != rel by {
            if b[j].0@ == rel {
                let i = choose|i: int| 0 <= i < a.len() && #[trigger] a[i].0@ == b[j].0@ && a[i].1@ == b[j].1@;
                assert(a[i].0@ == rel);
            }
        }
        lemma_data_for_absent(a, rel);
        lemma_data_for_absent(b, rel);
    }
}

proof fn lemma_checksum_input_agree(rels: Seq<Seq<char>>, a: Seq<(String, Vec<u8>)>, b: Seq<(String, Vec<u8>)>)
    requires
        forall|r: Seq<char>| #[trigger] data_for(a, r) == data_for(b, r),
    ensures
        checksum_input(rels, a) == checksum_input(rels, b),
    decreases rels.len(),
{
    if rels.len() > 0 {
        lemma_checksum_input_agree(rels.drop_last(), a, b);
        assert(data_for(a, rels.last()) == data_for(b, rels.last()));
    }
}

proof fn lemma_paths_multiset(a: Seq<(String, Vec<u8>)>, b: Seq<(String, Vec<u8>)>)
    requires
        distinct_paths(a),
        distinct_paths(b),
        entries_within(a, b),
        entries_within(b, a),
    ensures
        rel_paths(a).to_multiset() =~= rel_paths(b).to_multiset(),
{
    broadcast use vstd::seq_lib::group_to_multiset_ensures;
    let ra = rel_paths(a);
    let rb = rel_paths(b);
    assert(ra.no_duplicates()) by {
        assert forall|i: int, j: int| 0 <= i < ra.len() && 0 <= j < ra.len() && i != j implies ra[i] != ra[j] by {
            assert(ra[i] == a[i].0@ && ra[j] == a[j].0@);
        }
    }
    assert(rb.no_duplicates()) by {
        assert forall|i: int, j: int| 0 <= i < rb.len() && 0 <= j < rb.len() && i != j implies rb[i] != rb[j] by {
            assert(rb[i] == b[i].0@ && rb[j] == b[j].0@);
        }
    }
    ra.lemma_multiset_has_no_duplicates();
    rb.lemma_multiset_has_no_duplicates();
    assert forall|x: Seq<char>| ra.contains(x) <==> rb.contains(x) by {
        if ra.contains(x) {
            let i = choose|i: int| 0 <= i < ra.len() && ra[i] == x;
            assert(ra[i] == a[i].0@);
            let j = choose|j: int| 0 <= j < b.len() && #[trigger] b[j].0@ == a[i].0@ && b[j].1@ == a[i].1@;
            assert(rb[j] == x);
        }
        if rb.contains(x) {
            let j = choose|j: int| 0 <= j < rb.len() && rb[j] == x;
            assert(rb[j] == b[j].0@);
            let i = choose|i: int| 0 <= i < a.len() && #[trigger] a[i].0@ == b[j].0@ && a[i].1@ == b[j].1@;
            assert(ra[i] == x);
        }
    }
    assert forall|x: Seq<char>| ra.to_multiset().count(x) == rb.to_multiset().count(x) by {
        if ra.contains(x) {
            assert(ra.to_multiset().count(x) > 0);
            assert(rb.to_multiset().count(x) > 0);
        } else {
            assert(!rb.contains(x));
        }
    }
}

/// The checksum of a dependency does not depend on the order in which its files were found:
/// two listings of the same files (each path named once) give the same checksum.
pub proof fn law_checksum_ignores_order(a: Seq<(String, Vec<u8>)>, b: Seq<(String, Vec<u8>)>)
    requires
        distinct_paths(a),
        distinct_paths(b),
        entries_within(a, b),
        entries_within(b, a),
    ensures
        checksum_of(a) == checksum_of(b),
{
    broadcast use vstd::seq_lib::group_to_multiset_ensures;
    crate::utils::sort::lemma_key_leq_total();
    lemma_paths_multiset(a, b);
    let sa = rel_paths(a).sort_by(key_leq());
    let sb = rel_paths(b).sort_by(key_leq());
    rel_paths(a).lemma_sort_by_ensures(key_leq());
    rel_paths(b).lemma_sort_by_ensures(key_leq());
    vstd::seq_lib::lemma_sorted_unique(sa, sb, key_leq());
    assert forall|r: Seq<char>| #[trigger] data_for(a, r) == data_for(b, r) by {
        lemma_same_data(a, b, r);
    }
    lemma_checksum_input_agree(sa, a, b);
}

/// The home directory: `HOME`, else `USERPROFILE` (the values of the environment, where set).
pub fn home_dir(home: Option<&str>, user_profile: Option<&str>) -> (r: Option<String>)
    ensures
        match r {
            Some(h) => match home {
                Some(x) => h@ == x@,
                None => user_profile matches Some(y) && h@ == y@,
            },
            None => home is None && user_profile is None,
        },
{
    match home {
        Some(h) => Some(h.to_owned()),
        None => match user_profile {
            Some(u) => Some(u.to_owned()),
            None => None,
        },
    }
}

/// dcr's own directory: `.dcr` in the home directory.
pub fn dcr_config_dir(home: Option<&str>) -> (r: Option<String>)
    ensures
        match r {
            Some(d) => home matches Some(h) && d@ == join_path(h@, ".dcr"@),
            None => home is None,
        },
{
    match home {
        Some(h) => Some(join(h, ".dcr")),
        None => None,
    }
}

/// Where the registry's index lives: `DCR_INDEX_PATH` when it is set, else `index.json` in
/// dcr's own directory (or in `.` without a home directory).
pub open spec fn index_path_of(env_index: Option<Seq<char>>, home: Option<Seq<char>>) -> Seq<char> {
    match env_index {
        Some(p) => p,
        None => join_path(
            match home {
                Some(h) => join_path(h, ".dcr"@),
                None => "."@,
            },
            "index.json"@,
        ),
    }
}

/// Where the registry's index lives (see `index_path_of`).
pub fn get_index_path(env_index: Option<&str>, home: Option<&str>) -> (r: String)
    ensures
        r@ == index_path_of(crate::platform::opt_str_view(env_index), crate::platform::opt_str_view(home)),
{
    match env_index {
        Some(p) => p.to_owned(),
        None => {
            let dir = match dcr_config_dir(home) {
                Some(d) => d,
                None => ".".to_owned(),
            };
            join(dir.as_str(), "index.json")
        },
    }
}

/// Where the registry's packages are cached: the index's directory, or `.` when the index
/// path has no parent.
pub fn registry_cache_root(index_path: &str) -> (r: String)
    ensures
        r@ == match crate::utils::paths::parent_of(index_path@) {
            Some(p) => p,
            None => "."@,
        },
{
    match crate::utils::paths::parent(index_path) {
        Some(p) => p,
        None => ".".to_owned(),
    }
}

} // verus!
