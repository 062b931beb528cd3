//! What `dcr gen` learns about a project from its configuration: settings for a profile, the
//! compiler to name, the dependencies' directories, and the whole `ProjectInfo`.
use vstd::prelude::*;
use crate::cli::gen::ProjectInfo;
use crate::project::builder::common::{cwd_view, glob_magic, has_glob_magic, kept_sources, roots_text};
use crate::project::builder::context::{backend_exts, collect_sources, BuildContext};
use crate::project::builder::unix_cc::push_strings;
use crate::project::config::{opt_view, Config};
use crate::project::lookup::{cfg_opt, get_config_opt};
use crate::utils::sort::key_leq;
use crate::utils::strings::{replace, replace_seq};
use crate::project::deps::{expand_profile, expand_profile_seq, push_str_items, str_items, DepPaths, PathFacts};
use crate::utils::paths::{join, join_path};
use crate::project::lookup::{cfg_at, cfg_str, get_config_str, profile_section, profile_table};
use crate::project::value::{data_bool, data_get, TomlData, TomlValue};
use crate::platform::opt_str_view;
use crate::utils::build_helpers::{build_compiler_for, normalize_target_os, resolve_compiler, target_triple};
use crate::utils::strings::{join_seq, lowercase_of, split_char, split_seq, str_eq, to_lowercase, trim, trim_seq, views};

verus! {

/// `build.` and the field's name.
pub open spec fn build_key_of(field: Seq<char>) -> Seq<char> {
    "build."@ + field
}

fn build_key(field: &str) -> (r: String)
    ensures
        r@ == build_key_of(field@),
{
    let mut k = "build.".to_owned();
    k.append(field);
    k
}

/// A `build` string for a profile: the profile section's value, trimmed, when that is a
/// string that is not blank; else `build.<field>` as it stands.
pub open spec fn gen_string(d: TomlData, field: Seq<char>, profile: Seq<char>) -> Seq<char> {
    let base = cfg_str(d, build_key_of(field));
    match profile_section(d, profile) {
        None => base,
        Some(t) => {
            let v = match data_get(t, field) {
                Some(TomlData::Str(s)) => s,
                _ => Seq::empty(),
            };
            if trim_seq(v).len() == 0 {
                base
            } else {
                trim_seq(v)
            }
        },
    }
}

/// A `build` string for a profile (see `gen_string`).
pub fn get_string_with_profile(config: &Config, field: &str, profile: &str) -> (r: String)
    ensures
        r@ == gen_string(config.doc(), field@, profile@),
{
    proof { reveal_strlit(""); }
    let k = build_key(field);
    let base = get_config_str(config, k.as_str());
    let table = match profile_table(config, profile) {
        Some(t) => t,
        None => return base,
    };
    let value: &str = match table.get(field) {
        Some(v) => match v.as_str() {
            Some(s) => s,
            None => "",
        },
        None => "",
    };
    let trimmed = trim(value);
    if trimmed.unicode_len() == 0 {
        base
    } else {
        trimmed.to_owned()
    }
}

/// The strings of the array at `key` (items that are not strings are skipped); empty when
/// the key is missing or holds no array.
pub open spec fn gen_list(d: TomlData, key: Seq<char>) -> Seq<Seq<char>> {
    match cfg_at(d, key) {
        Some(TomlData::Array(a)) => str_items(a),
        _ => Seq::empty(),
    }
}

/// The strings of the array at `key` (see `gen_list`).
pub fn get_config_list(config: &Config, key: &str) -> (r: Vec<String>)
    ensures
        views(r@) == gen_list(config.doc(), key@),
{
    let mut out: Vec<String> = Vec::new();
    assert(views(out@) =~= Seq::<Seq<char>>::empty());
    if let Some(v) = config.get(key) {
        if let Some(a) = v.as_array() {
            push_str_items(&mut out, a, Ghost(v.data()->Array_0));
        }
    }
    out
}

/// A `build` list for a profile: the strings of `build.<field>`, then those of the profile
/// section's `<field>` array.
pub open spec fn gen_profile_list(d: TomlData, field: Seq<char>, profile: Seq<char>) -> Seq<Seq<char>> {
    gen_list(d, build_key_of(field)) + match profile_section(d, profile) {
        Some(t) => match data_get(t, field) {
            Some(TomlData::Array(a)) => str_items(a),
            _ => Seq::empty(),
        },
        None => Seq::empty(),
    }
}

/// A `build` list for a profile (see `gen_profile_list`).
pub fn get_list_with_profile(config: &Config, field: &str, profile: &str) -> (r: Vec<String>)
    ensures
        views(r@) == gen_profile_list(config.doc(), field@, profile@),
{
    let k = build_key(field);
    let mut out = get_config_list(config, k.as_str());
    let ghost base = views(out@);
    if let Some(table) = profile_table(config, profile) {
        if let Some(v) = table.get(field) {
            if let Some(a) = v.as_array() {
                push_str_items(&mut out, a, Ghost(v.data()->Array_0));
            }
        }
    }
    assert(views(out@) =~= gen_profile_list(config.doc(), field@, profile@));
    out
}

/// A `build` flag for a profile: the profile section's boolean, else `build.<field>`'s, else
/// `default`.
pub open spec fn gen_bool(d: TomlData, field: Seq<char>, profile: Seq<char>, default: bool) -> bool {
    let from_profile = match profile_section(d, profile) {
        Some(t) => match data_get(t, field) {
            Some(v) => data_bool(v),
            None => None,
        },
        None => None,
    };
    let base = match cfg_at(d, build_key_of(field)) {
        Some(v) => data_bool(v),
        None => None,
    };
    match from_profile {
        Some(b) => b,
        None => match base {
            Some(b) => b,
            None => default,
        },
    }
}

/// A `build` flag for a profile (see `gen_bool`).
pub fn get_bool_with_profile(config: &Config, field: &str, profile: &str, default: bool) -> (r: bool)
    ensures
        r == gen_bool(config.doc(), field@, profile@, default),
{
    let k = build_key(field);
    let base = match config.get(k.as_str()) {
        Some(v) => v.as_bool(),
        None => None,
    };
    let from_profile = match profile_table(config, profile) {
        Some(t) => match t.get(field) {
            Some(v) => v.as_bool(),
            None => None,
        },
        None => None,
    };
    match from_profile {
        Some(b) => b,
        None => match base {
            Some(b) => b,
            None => default,
        },
    }
}

/// A language setting's value: a string, trimmed; an array, its strings joined with `+`;
/// anything else `c`.
pub open spec fn language_of(v: TomlData) -> Seq<char> {
    match v {
        TomlData::Str(s) => trim_seq(s),
        TomlData::Array(a) => join_seq(str_items(a), "+"@),
        _ => "c"@,
    }
}

/// A language setting's value (see `language_of`).
pub fn parse_language_value(value: &TomlValue) -> (r: String)
    ensures
        r@ == language_of(value.data()),
{
    if let Some(s) = value.as_str() {
        return trim(s).to_owned();
    }
    if let Some(a) = value.as_array() {
        let mut parts: Vec<String> = Vec::new();
        assert(views(parts@) =~= Seq::<Seq<char>>::empty());
        push_str_items(&mut parts, a, Ghost(value.data()->Array_0));
        return crate::utils::strings::join(&parts, "+");
    }
    "c".to_owned()
}

/// The language for a profile: the profile section's `language` when it has one, else
/// `build.language`, else `c`.
pub open spec fn gen_language(d: TomlData, profile: Seq<char>) -> Seq<char> {
    match profile_section(d, profile) {
        Some(t) if data_get(t, "language"@) is Some => language_of(data_get(t, "language"@)->0),
        _ => match cfg_at(d, "build.language"@) {
            Some(v) => language_of(v),
            None => "c"@,
        },
    }
}

/// The language for a profile (see `gen_language`).
pub fn get_language_with_profile(config: &Config, profile: &str) -> (r: String)
    ensures
        r@ == gen_language(config.doc(), profile@),
{
    if let Some(t) = profile_table(config, profile) {
        if let Some(v) = t.get("language") {
            return parse_language_value(v);
        }
    }
    match config.get("build.language") {
        Some(v) => parse_language_value(v),
        None => "c".to_owned(),
    }
}

/// The language names in a `+`-separated language setting: each part trimmed and in lower
/// case, empty parts left out.
pub open spec fn lang_parts(raw: Seq<Seq<char>>) -> Seq<Seq<char>>
    decreases raw.len(),
{
    if raw.len() == 0 {
        Seq::empty()
    } else {
        let init = lang_parts(raw.drop_last());
        let p = lowercase_of(trim_seq(raw.last()));
        if p.len() > 0 {
            init.push(p)
        } else {
            init
        }
    }
}

/// A name of C++: `c++`, `cpp` or `cxx`.
pub open spec fn is_cxx(p: Seq<char>) -> bool {
    p == "c++"@ || p == "cpp"@ || p == "cxx"@
}

/// The first C++ name among the parts.
pub open spec fn first_cxx(parts: Seq<Seq<char>>) -> Option<Seq<char>>
    decreases parts.len(),
{
    if parts.len() == 0 {
        None
    } else if is_cxx(parts[0]) {
        Some(parts[0])
    } else {
        first_cxx(parts.drop_first())
    }
}

/// The language that decides the compiler: the first C++ name, else `c` when it is named,
/// else `asm` when it is named, else the whole setting in lower case.
pub open spec fn primary_lang(language: Seq<char>) -> Seq<char> {
    let parts = lang_parts(split_seq(language, '+'));
    match first_cxx(parts) {
        Some(p) => p,
        None => if parts.contains("c"@) {
            "c"@
        } else if parts.contains("asm"@) {
            "asm"@
        } else {
            lowercase_of(language)
        },
    }
}

fn is_cxx_name(p: &str) -> (r: bool)
    ensures
        r == is_cxx(p@),
{
    str_eq(p, "c++") || str_eq(p, "cpp") || str_eq(p, "cxx")
}

proof fn lemma_first_cxx_split(parts: Seq<Seq<char>>, i: int)
    requires
        0 <= i <= parts.len(),
        forall|j: int| 0 <= j < i ==> !is_cxx(#[trigger] parts[j]),
    ensures
        first_cxx(parts) == first_cxx(parts.skip(i)),
    decreases i,
{
    if i == 0 {
        assert(parts.skip(0) =~= parts);
    } else {
        assert(!is_cxx(parts[0]));
        assert forall|j: int| 0 <= j < i - 1 implies !is_cxx(#[trigger] parts.drop_first()[j]) by {
            assert(parts.drop_first()[j] == parts[j + 1]);
        }
        assert(parts.drop_first().skip(i - 1) =~= parts.skip(i));
        lemma_first_cxx_split(parts.drop_first(), i - 1);
    }
}

/// A prefix one element longer holds `x` exactly when the shorter one does or the new element
/// is `x`.
proof fn lemma_take_one_more_contains(ps: Seq<Seq<char>>, k: int, x: Seq<char>)
    requires
        0 <= k < ps.len(),
    ensures
        ps.take(k + 1).contains(x) == (ps.take(k).contains(x) || ps[k] == x),
{
    assert(ps.take(k + 1) =~= ps.take(k).push(ps[k]));
    if ps[k] == x {
        assert(ps.take(k).push(ps[k])[k] == x);
    }
    if ps.take(k).push(ps[k]).contains(x) {
        let w = choose|w: int| 0 <= w < k + 1 && ps.take(k).push(ps[k])[w] == x;
        if w < k {
            assert(ps.take(k)[w] == x);
        }
    }
    if ps.take(k).contains(x) {
        let w = choose|w: int| 0 <= w < k && ps.take(k)[w] == x;
        assert(ps.take(k).push(ps[k])[w] == x);
    }
}

/// The language that decides the compiler (see `primary_lang`).
pub fn primary_language(language: &str) -> (r: String)
    ensures
        r@ == primary_lang(language@),
{
    let raw = split_char(language, '+');
    let mut parts: Vec<String> = Vec::new();
    let mut i: usize = 0;
    while i < raw.len()
        invariant
            i <= raw@.len(),
            views(raw@) == split_seq(language@, '+'),
            views(parts@) == lang_parts(views(raw@).take(i as int)),
        decreases raw@.len() - i,
    {
        assert(views(raw@).take(i + 1).drop_last() =~= views(raw@).take(i as int));
        assert(views(raw@).take(i + 1).last() == raw@[i as int]@);
        let p = to_lowercase(trim(raw[i].as_str()));
        if p.unicode_len() > 0 {
            let ghost prev = parts@;
            parts.push(p);
            assert(views(parts@) =~= views(prev).push(lowercase_of(trim_seq(raw@[i as int]@))));
        }
        i = i + 1;
    }
    assert(views(raw@).take(i as int) =~= views(raw@));
    let ghost ps = views(parts@);
    let mut j: usize = 0;
    while j < parts.len()
        invariant
            j <= parts@.len(),
            ps == views(parts@),
            ps == lang_parts(split_seq(language@, '+')),
            forall|k: int| 0 <= k < j ==> !is_cxx(#[trigger] ps[k]),
        decreases parts@.len() - j,
    {
        if is_cxx_name(parts[j].as_str()) {
            proof {
                lemma_first_cxx_split(ps, j as int);
                assert(ps.skip(j as int)[0] == ps[j as int]);
            }
            let r = parts[j].clone();
            assert(r@ == ps[j as int]);
            return r;
        }
        j = j + 1;
    }
    proof {
        lemma_first_cxx_split(ps, j as int);
        assert(ps.skip(j as int).len() == 0);
    }
    let mut has_c = false;
    let mut has_asm = false;
    let mut k: usize = 0;
    while k < parts.len()
        invariant
            k <= parts@.len(),
            ps == views(parts@),
            ps == lang_parts(split_seq(language@, '+')),
            first_cxx(ps) is None,
            has_c == ps.take(k as int).contains("c"@),
            has_asm == ps.take(k as int).contains("asm"@),
        decreases parts@.len() - k,
    {
        proof {
            lemma_take_one_more_contains(ps, k as int, "c"@);
            lemma_take_one_more_contains(ps, k as int, "asm"@);
        }
        if str_eq(parts[k].as_str(), "c") {
            has_c = true;
        }
        if str_eq(parts[k].as_str(), "asm") {
            has_asm = true;
        }
        k = k + 1;
    }
    assert(ps.take(k as int) =~= ps);
    if has_c {
        return "c".to_owned();
    }
    if has_asm {
        return "asm".to_owned();
    }
    to_lowercase(language)
}

/// A value from the environment, trimmed, unless it is blank.
pub open spec fn env_value(v: Option<Seq<char>>) -> Option<Seq<char>> {
    match v {
        Some(s) => if trim_seq(s).len() > 0 {
            Some(trim_seq(s))
        } else {
            None
        },
        None => None,
    }
}

/// The kind of output: the setting trimmed, or `bin` when it is blank.
pub open spec fn kind_of(s: Seq<char>) -> Seq<char> {
    if trim_seq(s).len() == 0 {
        "bin"@
    } else {
        trim_seq(s)
    }
}

/// The kind of output (see `kind_of`).
pub fn normalize_kind(s: &str) -> (r: &str)
    ensures
        r@ == kind_of(s@),
{
    let t = trim(s);
    if t.unicode_len() == 0 {
        "bin"
    } else {
        t
    }
}

/// The platform: the setting trimmed, or none when it is blank.
pub fn normalize_platform(s: &str) -> (r: Option<&str>)
    ensures
        match r {
            Some(p) => trim_seq(s@).len() > 0 && p@ == trim_seq(s@),
            None => trim_seq(s@).len() == 0,
        },
{
    let t = trim(s);
    if t.unicode_len() == 0 {
        None
    } else {
        Some(t)
    }
}

/// The output directory for a target: `target/<triple>/<profile>`, or none without a target.
pub open spec fn target_dir_of(target: Seq<char>, profile: Seq<char>) -> Option<Seq<char>> {
    let t = target_triple(trim_seq(target));
    if t.len() == 0 {
        None
    } else {
        Some("target/"@ + t + "/"@ + profile)
    }
}

/// The output directory for a target (see `target_dir_of`).
pub fn normalize_target(s: &str, profile: &str) -> (r: Option<String>)
    ensures
        match r {
            Some(d) => target_dir_of(s@, profile@) == Some(d@),
            None => target_dir_of(s@, profile@) is None,
        },
{
    let t = normalize_target_os(trim(s));
    if t.unicode_len() == 0 {
        return None;
    }
    let mut d = "target/".to_owned();
    d.append(t);
    d.append("/");
    d.append(profile);
    Some(d)
}

/// What `dcr gen` reports of the dependencies: header directories, library directories and
/// libraries.
pub struct GenDeps {
    pub include_dirs: Vec<String>,
    pub lib_dirs: Vec<String>,
    pub libs: Vec<String>,
}

/// The root of a dependency as `dcr gen` reads it: a table that is not a system dependency
/// and has a `path` string, its `{profile}` expanded, against the project's root.
pub open spec fn gen_dep_root(d: TomlData, profile: Seq<char>, project_root: Seq<char>) -> Option<Seq<char>> {
    match d {
        TomlData::Table(t) => if data_get(t, "system"@) == Some(TomlData::Bool(true)) {
            None
        } else {
            match data_get(t, "path"@) {
                Some(TomlData::Str(p)) => Some(join_path(project_root, expand_profile_seq(p, profile))),
                _ => None,
            }
        },
        _ => None,
    }
}

/// The strings of array items, their `{profile}` expanded, joined onto `root`.
pub open spec fn expanded_joined(root: Seq<char>, a: Seq<TomlData>, profile: Seq<char>) -> Seq<Seq<char>>
    decreases a.len(),
{
    if a.len() == 0 {
        Seq::empty()
    } else {
        let init = expanded_joined(root, a.drop_last(), profile);
        match a.last() {
            TomlData::Str(s) => init.push(join_path(root, expand_profile_seq(s, profile))),
            _ => init,
        }
    }
}

/// What `dcr gen` takes from a dependency with root `root` (see `gen_dep_root`): the listed
/// `include` and `lib` directories, else `include` if it exists and the first of `lib` and
/// `lib64` that exists; the listed `libs` when there is a string among them, else the
/// dependency's name.
pub open spec fn gen_dep_paths(name: Seq<char>, t: Seq<(Seq<char>, TomlData)>, root: Seq<char>, profile: Seq<char>, f: PathFacts) -> DepPaths {
    (
        match data_get(t, "include"@) {
            Some(TomlData::Array(a)) => expanded_joined(root, a, profile),
            _ => if f.include_dir {
                seq![join_path(root, "include"@)]
            } else {
                Seq::empty()
            },
        },
        match data_get(t, "lib"@) {
            Some(TomlData::Array(a)) => expanded_joined(root, a, profile),
            _ => if f.lib {
                seq![join_path(root, "lib"@)]
            } else if f.lib64 {
                seq![join_path(root, "lib64"@)]
            } else {
                Seq::empty()
            },
        },
        match data_get(t, "libs"@) {
            Some(TomlData::Array(a)) if str_items(a).len() > 0 => str_items(a),
            _ => seq![name],
        },
    )
}

/// What the caller found out about the `i`-th dependency; nothing exists past the end.
pub open spec fn fact_at(facts: Seq<PathFacts>, i: int) -> PathFacts {
    if 0 <= i < facts.len() {
        facts[i]
    } else {
        PathFacts { include_dir: false, lib: false, lib64: false, target_lib: false }
    }
}

/// What `dcr gen` takes from the dependencies, in order.
pub open spec fn gen_deps_fold(entries: Seq<(Seq<char>, TomlData)>, facts: Seq<PathFacts>, profile: Seq<char>, project_root: Seq<char>) -> DepPaths
    decreases entries.len(),
{
    if entries.len() == 0 {
        (Seq::empty(), Seq::empty(), Seq::empty())
    } else {
        let acc = gen_deps_fold(entries.drop_last(), facts, profile, project_root);
        let i = entries.len() - 1;
        match gen_dep_root(entries[i].1, profile, project_root) {
            Some(root) => {
                let p = gen_dep_paths(entries[i].0, entries[i].1->Table_0, root, profile, fact_at(facts, i));
                (acc.0 + p.0, acc.1 + p.1, acc.2 + p.2)
            },
            None => acc,
        }
    }
}

/// The entries of `[dependencies]` as `dcr gen` reads them (none when it is not a table).
pub open spec fn gen_dep_entries(d: TomlData) -> Seq<(Seq<char>, TomlData)> {
    match cfg_at(d, "dependencies"@) {
        Some(TomlData::Table(t)) => t,
        _ => Seq::empty(),
    }
}

fn dep_root_of(value: &TomlValue, profile: &str, project_root: &str) -> (r: Option<String>)
    ensures
        match r {
            Some(x) => gen_dep_root(value.data(), profile@, project_root@) == Some(x@),
            None => gen_dep_root(value.data(), profile@, project_root@) is None,
        },
{
    let t = value.as_table()?;
    let system = match t.get("system") {
        Some(v) => v.as_bool(),
        None => None,
    };
    if system == Some(true) {
        return None;
    }
    let p = t.get("path")?.as_str()?;
    let raw = expand_profile(p, profile);
    Some(join(project_root, raw.as_str()))
}

/// The root of each dependency as `dcr gen` reads it (see `gen_dep_root`), in order: the
/// places whose `include`, `lib` and `lib64` the caller looks for.
pub fn gen_dep_roots(config: &Config, profile: &str, project_root: &str) -> (r: Vec<Option<String>>)
    ensures
        r@.len() == gen_dep_entries(config.doc()).len(),
        forall|i: int| 0 <= i < r@.len() ==> match #[trigger] r@[i] {
            Some(x) => gen_dep_root(gen_dep_entries(config.doc())[i].1, profile@, project_root@) == Some(x@),
            None => gen_dep_root(gen_dep_entries(config.doc())[i].1, profile@, project_root@) is None,
        },
{
    let mut out: Vec<Option<String>> = Vec::new();
    let deps = match config.get("dependencies") {
        Some(v) => match v.as_table() {
            Some(t) => t,
            None => return out,
        },
        None => return out,
    };
    let ghost entries = gen_dep_entries(config.doc());
    let n = deps.len();
    let mut i: usize = 0;
    while i < n
        invariant
            entries == deps.data(),
            n == entries.len(),
            i <= n,
            out@.len() == i,
            forall|k: int| 0 <= k < i ==> match #[trigger] out@[k] {
                Some(x) => gen_dep_root(entries[k].1, profile@, project_root@) == Some(x@),
                None => gen_dep_root(entries[k].1, profile@, project_root@) is None,
            },
        decreases n - i,
    {
        let (_name, value) = deps.entry(i);
        out.push(dep_root_of(value, profile, project_root));
        i = i + 1;
    }
    out
}

fn push_expanded_joined(out: &mut Vec<String>, root: &str, a: &Vec<TomlValue>, profile: &str, d: Ghost<Seq<TomlData>>)
    requires
        d@.len() == a@.len(),
        forall|i: int| 0 <= i < a@.len() ==> #[trigger] d@[i] == a@[i].data(),
    ensures
        views(final(out)@) == views(old(out)@) + expanded_joined(root@, d@, profile@),
{
    let ghost start = views(out@);
    let mut i: usize = 0;
    while i < a.len()
        invariant
            i <= a@.len(),
            d@.len() == a@.len(),
            forall|j: int| 0 <= j < a@.len() ==> #[trigger] d@[j] == a@[j].data(),
            views(out@) == start + expanded_joined(root@, d@.take(i as int), profile@),
        decreases a@.len() - i,
    {
        assert(d@.take(i + 1).drop_last() =~= d@.take(i as int));
        assert(d@.take(i + 1).last() == a@[i as int].data());
        let ghost prev = out@;
        if let Some(s) = a[i].as_str() {
            let e = expand_profile(s, profile);
            let j = join(root, e.as_str());
            out.push(j);
            assert(views(out@) =~= views(prev).push(j@));
        }
        assert(views(out@) =~= start + expanded_joined(root@, d@.take(i + 1), profile@));
        i = i + 1;
    }
    assert(d@.take(i as int) =~= d@);
}

fn fact_of(facts: &Vec<PathFacts>, i: usize) -> (r: PathFacts)
    ensures
        r == fact_at(facts@, i as int),
{
    if i < facts.len() {
        let f = &facts[i];
        PathFacts { include_dir: f.include_dir, lib: f.lib, lib64: f.lib64, target_lib: f.target_lib }
    } else {
        PathFacts { include_dir: false, lib: false, lib64: false, target_lib: false }
    }
}

fn add_gen_dep(out: &mut GenDeps, name: &str, t: &crate::project::value::TomlTable, root: &str, profile: &str, f: &PathFacts)
    ensures
        ({
            let p = gen_dep_paths(name@, t.data(), root@, profile@, *f);
            &&& views(final(out).include_dirs@) == views(old(out).include_dirs@) + p.0
            &&& views(final(out).lib_dirs@) == views(old(out).lib_dirs@) + p.1
            &&& views(final(out).libs@) == views(old(out).libs@) + p.2
        }),
{
    let ghost p = gen_dep_paths(name@, t.data(), root@, profile@, *f);
    let ghost i0 = views(out.include_dirs@);
    let ghost l0 = views(out.lib_dirs@);
    let ghost n0 = views(out.libs@);
    match t.get("include") {
        Some(v) if v.as_array().is_some() => {
            let a = v.as_array().unwrap();
            push_expanded_joined(&mut out.include_dirs, root, a, profile, Ghost(v.data()->Array_0));
        },
        _ => {
            if f.include_dir {
                out.include_dirs.push(join(root, "include"));
            }
        },
    }
    assert(views(out.include_dirs@) =~= i0 + p.0);
    match t.get("lib") {
        Some(v) if v.as_array().is_some() => {
            let a = v.as_array().unwrap();
            push_expanded_joined(&mut out.lib_dirs, root, a, profile, Ghost(v.data()->Array_0));
        },
        _ => {
            if f.lib {
                out.lib_dirs.push(join(root, "lib"));
            } else if f.lib64 {
                out.lib_dirs.push(join(root, "lib64"));
            }
        },
    }
    assert(views(out.lib_dirs@) =~= l0 + p.1);
    let mut listed: Vec<String> = Vec::new();
    assert(views(listed@) =~= Seq::<Seq<char>>::empty());
    let mut has_list = false;
    if let Some(v) = t.get("libs") {
        if let Some(a) = v.as_array() {
            push_str_items(&mut listed, a, Ghost(v.data()->Array_0));
            has_list = true;
        }
    }
    if has_list && listed.len() > 0 {
        let mut i: usize = 0;
        while i < listed.len()
            invariant
                i <= listed@.len(),
                views(out.libs@) == n0 + views(listed@).take(i as int),
                views(out.include_dirs@) == i0 + p.0,
                views(out.lib_dirs@) == l0 + p.1,
            decreases listed@.len() - i,
        {
            let ghost prev = out.libs@;
            out.libs.push(listed[i].clone());
            assert(views(out.libs@) =~= views(prev).push(listed@[i as int]@));
            assert(views(listed@).take(i + 1) =~= views(listed@).take(i as int).push(listed@[i as int]@));
            i = i + 1;
        }
        assert(views(listed@).take(i as int) =~= views(listed@));
    } else {
        out.libs.push(name.to_owned());
    }
    assert(views(out.libs@) =~= n0 + p.2);
}

/// What `dcr gen` takes from the dependencies (see `gen_deps_fold`). A directory need not
/// exist when it is listed; `facts[i]` tells which default directories of the `i`-th
/// dependency exist (its `target_lib` is not read).
pub fn resolve_deps_for_gen(config: &Config, profile: &str, project_root: &str, facts: &Vec<PathFacts>) -> (r: GenDeps)
    ensures
        ({
            let p = gen_deps_fold(gen_dep_entries(config.doc()), facts@, profile@, project_root@);
            &&& views(r.include_dirs@) == p.0
            &&& views(r.lib_dirs@) == p.1
            &&& views(r.libs@) == p.2
        }),
{
    let mut out = GenDeps { include_dirs: Vec::new(), lib_dirs: Vec::new(), libs: Vec::new() };
    assert(views(out.include_dirs@) =~= Seq::<Seq<char>>::empty());
    assert(views(out.lib_dirs@) =~= Seq::<Seq<char>>::empty());
    assert(views(out.libs@) =~= Seq::<Seq<char>>::empty());
    let deps = match config.get("dependencies") {
        Some(v) => match v.as_table() {
            Some(t) => t,
            None => return out,
        },
        None => return out,
    };
    let ghost entries = gen_dep_entries(config.doc());
    let n = deps.len();
    let mut i: usize = 0;
    while i < n
        invariant
            entries == deps.data(),
            entries == gen_dep_entries(config.doc()),
            n == entries.len(),
            i <= n,
            ({
                let p = gen_deps_fold(entries.take(i as int), facts@, profile@, project_root@);
                &&& views(out.include_dirs@) == p.0
                &&& views(out.lib_dirs@) == p.1
                &&& views(out.libs@) == p.2
            }),
        decreases n - i,
    {
        assert(entries.take(i + 1).drop_last() =~= entries.take(i as int));
        let (name, value) = deps.entry(i);
        assert(entries.take(i + 1)[i as int] == entries[i as int]);
        if let Some(root) = dep_root_of(value, profile, project_root) {
            let t = value.as_table().unwrap();
            let f = fact_of(facts, i);
            add_gen_dep(&mut out, name.as_str(), t, root.as_str(), profile, &f);
        }
        i = i + 1;
    }
    assert(entries.take(i as int) =~= entries);
    out
}

/// The values of the environment that `dcr gen` reads: `DCR_COMPILER`, `DCR_AS`, `DCR_CXX`,
/// `DCR_CC`, `DCR_LD` and `DCR_AR`, where they are set.
pub struct GenEnv {
    pub compiler: Option<String>,
    pub assembler: Option<String>,
    pub cxx: Option<String>,
    pub cc: Option<String>,
    pub linker: Option<String>,
    pub archiver: Option<String>,
}

/// What the caller found out for `dcr gen`: which default directories of each dependency
/// exist (see `gen_dep_roots`), the words that `pkg-config --cflags` and `--libs` printed for
/// the `pkg_config` packages, whether each `include` entry names a directory (see
/// `gen_include_candidates`), the regular files under the source roots (see
/// `gen_source_roots`), and the working directory.
pub struct GenFound {
    pub dep_facts: Vec<PathFacts>,
    pub pkg_cflags: Vec<String>,
    pub pkg_ldflags: Vec<String>,
    pub include_is_dir: Vec<bool>,
    pub files: Vec<String>,
    pub cwd: Option<String>,
}

/// A path with its backslashes turned into slashes.
pub open spec fn slashed(s: Seq<char>) -> Seq<char> {
    replace_seq(s, "\\"@, "/"@)
}

fn slash(s: &str) -> (r: String)
    ensures
        r@ == slashed(s@),
{
    proof { reveal_strlit("\\"); }
    replace(s, "\\", "/")
}

/// The items that are not blank, trimmed and joined onto `root`.
pub open spec fn joined_nonblank(root: Seq<char>, items: Seq<Seq<char>>) -> Seq<Seq<char>>
    decreases items.len(),
{
    if items.len() == 0 {
        Seq::empty()
    } else {
        let init = joined_nonblank(root, items.drop_last());
        let t = trim_seq(items.last());
        if t.len() > 0 {
            init.push(join_path(root, t))
        } else {
            init
        }
    }
}

fn join_nonblank(root: &str, items: &Vec<String>) -> (r: Vec<String>)
    ensures
        views(r@) == joined_nonblank(root@, views(items@)),
{
    let mut out: Vec<String> = Vec::new();
    let mut i: usize = 0;
    while i < items.len()
        invariant
            i <= items@.len(),
            views(out@) == joined_nonblank(root@, views(items@).take(i as int)),
        decreases items@.len() - i,
    {
        assert(views(items@).take(i + 1).drop_last() =~= views(items@).take(i as int));
        assert(views(items@).take(i + 1).last() == items@[i as int]@);
        let t = trim(items[i].as_str());
        if t.unicode_len() > 0 {
            let ghost prev = out@;
            let j = join(root, t);
            out.push(j);
            assert(views(out@) =~= views(prev).push(j@));
        }
        i = i + 1;
    }
    assert(views(items@).take(i as int) =~= views(items@));
    out
}

/// The exclusions as patterns for the include list: each item that is not blank, trimmed,
/// with slashes, behind `!`.
pub open spec fn negated_patterns(items: Seq<Seq<char>>) -> Seq<Seq<char>>
    decreases items.len(),
{
    if items.len() == 0 {
        Seq::empty()
    } else {
        let init = negated_patterns(items.drop_last());
        let t = trim_seq(items.last());
        if t.len() > 0 {
            init.push("!"@ + slashed(t))
        } else {
            init
        }
    }
}

/// The include patterns of a source walk: the negated exclusions, then the include entries
/// with slashes.
pub open spec fn include_paths_of(excludes: Seq<Seq<char>>, includes: Seq<Seq<char>>) -> Seq<Seq<char>> {
    negated_patterns(excludes) + includes.map_values(|v: Seq<char>| slashed(v))
}

pub(crate) fn include_patterns_of(excludes: &Vec<String>, includes: &Vec<String>) -> (r: Vec<String>)
    ensures
        views(r@) == include_paths_of(views(excludes@), views(includes@)),
{
    let mut out: Vec<String> = Vec::new();
    let mut i: usize = 0;
    while i < excludes.len()
        invariant
            i <= excludes@.len(),
            views(out@) == negated_patterns(views(excludes@).take(i as int)),
        decreases excludes@.len() - i,
    {
        assert(views(excludes@).take(i + 1).drop_last() =~= views(excludes@).take(i as int));
        assert(views(excludes@).take(i + 1).last() == excludes@[i as int]@);
        let t = trim(excludes[i].as_str());
        if t.unicode_len() > 0 {
            let ghost prev = out@;
            let mut p = "!".to_owned();
            let sl = slash(t);
            p.append(sl.as_str());
            out.push(p);
            assert(views(out@) =~= views(prev).push(p@));
        }
        i = i + 1;
    }
    assert(views(excludes@).take(i as int) =~= views(excludes@));
    let ghost first = views(out@);
    let mut k: usize = 0;
    while k < includes.len()
        invariant
            k <= includes@.len(),
            views(out@) == first + views(includes@).map_values(|v: Seq<char>| slashed(v)).take(k as int),
        decreases includes@.len() - k,
    {
        let ghost prev = out@;
        let sl = slash(includes[k].as_str());
        out.push(sl);
        assert(views(out@) =~= views(prev).push(sl@));
        assert(views(includes@).map_values(|v: Seq<char>| slashed(v)).take(k + 1) =~= views(includes@).map_values(|v: Seq<char>| slashed(v)).take(k as int).push(slashed(includes@[k as int]@)));
        k = k + 1;
    }
    assert(views(includes@).map_values(|v: Seq<char>| slashed(v)).take(k as int) =~= views(includes@).map_values(|v: Seq<char>| slashed(v)));
    out
}

/// The source roots: the configured roots that are not blank, against the project's root;
/// with none, `src` unless the source directory is switched off.
pub open spec fn source_roots_of(root: Seq<char>, roots: Seq<Seq<char>>, src_disable: bool) -> Seq<Seq<char>> {
    let r = joined_nonblank(root, roots);
    if !src_disable && r.len() == 0 {
        seq![join_path(root, "src"@)]
    } else {
        r
    }
}

/// The source roots of a project for a profile (see `source_roots_of`): where the caller
/// walks for the files of `GenFound`.
pub fn gen_source_roots(config: &Config, root: &str, profile: &str) -> (r: Vec<String>)
    ensures
        views(r@) == source_roots_of(root@, gen_profile_list(config.doc(), "roots"@, profile@), gen_bool(config.doc(), "src_disable"@, profile@, false)),
{
    let roots = get_list_with_profile(config, "roots", profile);
    let src_disable = get_bool_with_profile(config, "src_disable", profile, false);
    source_roots(root, &roots, src_disable)
}

/// The source roots (see `source_roots_of`).
pub(crate) fn source_roots(root: &str, roots: &Vec<String>, src_disable: bool) -> (r: Vec<String>)
    ensures
        views(r@) == source_roots_of(root@, views(roots@), src_disable),
{
    let mut r = join_nonblank(root, roots);
    if !src_disable && r.len() == 0 {
        r.push(join(root, "src"));
        assert(views(r@) =~= seq![join_path(root@, "src"@)]);
    }
    r
}

/// The directory an `include` entry may name: the entry trimmed, against the project's root,
/// unless it is blank or a glob pattern.
pub open spec fn include_candidate(root: Seq<char>, raw: Seq<char>) -> Option<Seq<char>> {
    let t = trim_seq(raw);
    if t.len() == 0 || glob_magic(slashed(t)) {
        None
    } else {
        Some(join_path(root, t))
    }
}

fn candidate_of(root: &str, raw: &str) -> (r: Option<String>)
    ensures
        match r {
            Some(x) => include_candidate(root@, raw@) == Some(x@),
            None => include_candidate(root@, raw@) is None,
        },
{
    let t = trim(raw);
    if t.unicode_len() == 0 {
        return None;
    }
    let norm = slash(t);
    if has_glob_magic(norm.as_str()) {
        return None;
    }
    Some(join(root, t))
}

/// For each `include` entry, the directory it may name (see `include_candidate`): the
/// caller tells whether each is a directory.
pub fn include_dir_candidates(root: &str, includes: &Vec<String>) -> (r: Vec<Option<String>>)
    ensures
        r@.len() == includes@.len(),
        forall|i: int| 0 <= i < r@.len() ==> match #[trigger] r@[i] {
            Some(x) => include_candidate(root@, includes@[i]@) == Some(x@),
            None => include_candidate(root@, includes@[i]@) is None,
        },
{
    let mut out: Vec<Option<String>> = Vec::new();
    let mut i: usize = 0;
    while i < includes.len()
        invariant
            i <= includes@.len(),
            out@.len() == i,
            forall|k: int| 0 <= k < i ==> match #[trigger] out@[k] {
                Some(x) => include_candidate(root@, includes@[k]@) == Some(x@),
                None => include_candidate(root@, includes@[k]@) is None,
            },
        decreases includes@.len() - i,
    {
        out.push(candidate_of(root, includes[i].as_str()));
        i = i + 1;
    }
    out
}

/// For each `include` entry of a profile, the directory it may name (see
/// `include_candidate`): the caller tells whether each is a directory.
pub fn gen_include_candidates(config: &Config, root: &str, profile: &str) -> (r: Vec<Option<String>>)
    ensures
        r@.len() == gen_profile_list(config.doc(), "include"@, profile@).len(),
        forall|i: int| 0 <= i < r@.len() ==> match #[trigger] r@[i] {
            Some(x) => include_candidate(root@, gen_profile_list(config.doc(), "include"@, profile@)[i]) == Some(x@),
            None => include_candidate(root@, gen_profile_list(config.doc(), "include"@, profile@)[i]) is None,
        },
{
    let includes = get_list_with_profile(config, "include", profile);
    let r = include_dir_candidates(root, &includes);
    assert forall|i: int| 0 <= i < r@.len() implies includes@[i]@ == gen_profile_list(config.doc(), "include"@, profile@)[i] by {
        assert(views(includes@)[i] == includes@[i]@);
    }
    r
}

/// Whether the `i`-th entry was found to be a directory (`false` past the end).
pub open spec fn bool_at(v: Seq<bool>, i: int) -> bool {
    0 <= i < v.len() && v[i]
}

/// The `include` entries that name a directory that exists.
pub open spec fn dir_includes(root: Seq<char>, includes: Seq<Seq<char>>, is_dir: Seq<bool>) -> Seq<Seq<char>>
    decreases includes.len(),
{
    if includes.len() == 0 {
        Seq::empty()
    } else {
        let init = dir_includes(root, includes.drop_last(), is_dir);
        let k = includes.len() - 1;
        match include_candidate(root, includes[k]) {
            Some(d) => if bool_at(is_dir, k) {
                init.push(d)
            } else {
                init
            },
            None => init,
        }
    }
}

pub(crate) fn push_existing_includes(out: &mut Vec<String>, root: &str, includes: &Vec<String>, is_dir: &Vec<bool>)
    ensures
        views(final(out)@) == views(old(out)@) + dir_includes(root@, views(includes@), is_dir@),
{
    let ghost start = views(out@);
    let mut i: usize = 0;
    while i < includes.len()
        invariant
            i <= includes@.len(),
            views(out@) == start + dir_includes(root@, views(includes@).take(i as int), is_dir@),
        decreases includes@.len() - i,
    {
        assert(views(includes@).take(i + 1).drop_last() =~= views(includes@).take(i as int));
        assert(views(includes@).take(i + 1)[i as int] == includes@[i as int]@);
        if let Some(d) = candidate_of(root, includes[i].as_str()) {
            if i < is_dir.len() && is_dir[i] {
                let ghost prev = out@;
                out.push(d);
                assert(views(out@) =~= views(prev).push(d@));
            }
        }
        assert(views(out@) =~= start + dir_includes(root@, views(includes@).take(i + 1), is_dir@));
        i = i + 1;
    }
    assert(views(includes@).take(i as int) =~= views(includes@));
}

/// The compiler `dcr gen` names for a profile: the one a build of the profile names (see
/// `build_compiler_for`).
pub open spec fn gen_compiler(d: TomlData, profile: Seq<char>, env: GenEnv) -> Seq<char> {
    build_compiler_for(
        gen_language(d, profile),
        gen_string(d, "compiler"@, profile),
        cfg_opt(d, "toolchain.cc"@),
        cfg_opt(d, "toolchain.cxx"@),
        cfg_opt(d, "toolchain.as"@),
        opt_view(env.compiler),
        opt_view(env.assembler),
        opt_view(env.cxx),
        opt_view(env.cc),
    )
}

/// `dcr gen` names the compiler that a build resolves from the same settings: the order of
/// `DCR_*` variables, toolchain entries and the configured compiler is the build's.
pub proof fn law_gen_compiler_is_build_compiler(d: TomlData, profile: Seq<char>, env: GenEnv)
    ensures
        gen_compiler(d, profile, env) == build_compiler_for(
            gen_language(d, profile),
            gen_string(d, "compiler"@, profile),
            cfg_opt(d, "toolchain.cc"@),
            cfg_opt(d, "toolchain.cxx"@),
            cfg_opt(d, "toolchain.as"@),
            opt_view(env.compiler),
            opt_view(env.assembler),
            opt_view(env.cxx),
            opt_view(env.cc),
        ),
{
}

fn opt_as_str(o: &Option<String>) -> (r: Option<&str>)
    ensures
        opt_str_view(r) == opt_view(*o),
{
    match o {
        Some(s) => Some(s.as_str()),
        None => None,
    }
}

/// A tool from the toolchain, else the environment's value (as it is) when that is not blank.
pub open spec fn tool_choice(tc: Option<Seq<char>>, env: Option<Seq<char>>) -> Option<Seq<char>> {
    match tc {
        Some(t) => Some(t),
        None => match env {
            Some(v) => if trim_seq(v).len() > 0 {
                Some(v)
            } else {
                None
            },
            None => None,
        },
    }
}

/// A tool from the toolchain, else from the environment when that is not blank.
fn tool_or_env(tc: Option<String>, env: &Option<String>) -> (r: Option<String>)
    ensures
        opt_view(r) == tool_choice(opt_view(tc), opt_view(*env)),
{
    match tc {
        Some(t) => Some(t),
        None => match env {
            Some(v) => if trim(v.as_str()).unicode_len() > 0 {
                Some(v.clone())
            } else {
                None
            },
            None => None,
        },
    }
}

fn absolute_sources(root: &str, sources: &Vec<String>) -> (r: Vec<String>)
    ensures
        views(r@) == views(sources@).map_values(|s: Seq<char>| join_path(root@, s)),
{
    let mut out: Vec<String> = Vec::new();
    let mut i: usize = 0;
    while i < sources.len()
        invariant
            i <= sources@.len(),
            views(out@) == views(sources@).map_values(|s: Seq<char>| join_path(root@, s)).take(i as int),
        decreases sources@.len() - i,
    {
        let ghost prev = out@;
        let j = join(root, sources[i].as_str());
        out.push(j);
        assert(views(out@) =~= views(prev).push(j@));
        assert(views(sources@).map_values(|s: Seq<char>| join_path(root@, s)).take(i + 1) =~= views(sources@).map_values(|s: Seq<char>| join_path(root@, s)).take(i as int).push(join_path(root@, sources@[i as int]@)));
        i = i + 1;
    }
    assert(views(sources@).map_values(|s: Seq<char>| join_path(root@, s)).take(i as int) =~= views(sources@).map_values(|s: Seq<char>| join_path(root@, s)));
    out
}

/// The sources `dcr gen` reports for a project: the files found that the compiler's backend
/// builds and that the exclusions leave, named as in the build.
pub open spec fn gen_kept(d: TomlData, root: Seq<char>, profile: Seq<char>, env: GenEnv, files: Seq<Seq<char>>, cwd: Option<Seq<char>>) -> Seq<Seq<char>> {
    let excludes = gen_profile_list(d, "exclude"@, profile);
    let includes = gen_profile_list(d, "include"@, profile);
    kept_sources(
        files,
        backend_exts(gen_compiler(d, profile, env), gen_language(d, profile)),
        joined_nonblank(root, excludes),
        include_paths_of(excludes, includes),
        cwd,
    )
}

/// Everything `dcr gen` reports about the project at `root` for `profile`, from its
/// configuration, the environment's values and what the caller found (see `GenFound`).
/// Fails when no source is found, naming the source roots.
pub fn collect_project_info_inner(config: &Config, root: &str, profile: &str, env: &GenEnv, found: &GenFound) -> (r: Result<ProjectInfo, String>)
    ensures
        ({
            let d = config.doc();
            let kept = gen_kept(d, root@, profile@, *env, views(found.files@), opt_view(found.cwd));
            let deps = gen_deps_fold(gen_dep_entries(d), found.dep_facts@, profile@, root@);
            match r {
                Ok(info) => {
                    &&& kept.len() > 0
                    &&& info.name@ == cfg_str(d, "package.name"@)
                    &&& info.version@ == cfg_str(d, "package.version"@)
                    &&& info.root@ == root@
                    &&& info.profile@ == profile@
                    &&& info.language@ == gen_language(d, profile@)
                    &&& info.standard@ == gen_string(d, "standard"@, profile@)
                    &&& info.compiler@ == gen_compiler(d, profile@, *env)
                    &&& info.kind@ == kind_of(gen_string(d, "kind"@, profile@))
                    &&& views(info.sources@) == kept.sort_by(key_leq()).map_values(|s: Seq<char>| join_path(root@, s))
                    &&& views(info.include_dirs@) == deps.0 + dir_includes(root@, gen_profile_list(d, "include"@, profile@), found.include_is_dir@)
                    &&& views(info.lib_dirs@) == deps.1
                    &&& views(info.libs@) == deps.2
                    &&& views(info.cflags@) == gen_profile_list(d, "cflags"@, profile@) + views(found.pkg_cflags@)
                    &&& views(info.ldflags@) == gen_profile_list(d, "ldflags"@, profile@) + views(found.pkg_ldflags@)
                },
                Err(m) => {
                    &&& kept.len() == 0
                    &&& m@ == "Failed to collect sources: "@ + "No source files found in "@ + roots_text(
                        source_roots_of(root@, gen_profile_list(d, "roots"@, profile@), gen_bool(d, "src_disable"@, profile@, false)),
                    )
                },
            }
        }),
{
    let name = get_config_str(config, "package.name");
    let version = get_config_str(config, "package.version");
    let language = get_language_with_profile(config, profile);
    let standard = get_string_with_profile(config, "standard", profile);
    let compiler_s = get_string_with_profile(config, "compiler", profile);
    let kind = get_string_with_profile(config, "kind", profile);
    let build_target = get_string_with_profile(config, "target", profile);
    let platform = get_string_with_profile(config, "platform", profile);
    let tc_cc = get_config_opt(config, "toolchain.cc");
    let tc_cxx = get_config_opt(config, "toolchain.cxx");
    let tc_as = get_config_opt(config, "toolchain.as");
    let tc_ar = get_config_opt(config, "toolchain.ar");
    let tc_ld = get_config_opt(config, "toolchain.ld");
    let mut cflags = get_list_with_profile(config, "cflags", profile);
    let mut ldflags = get_list_with_profile(config, "ldflags", profile);
    let excludes = get_list_with_profile(config, "exclude", profile);
    let includes = get_list_with_profile(config, "include", profile);
    let source_roots = gen_source_roots(config, root, profile);
    let compiler = resolve_compiler(
        language.as_str(),
        compiler_s.as_str(),
        opt_as_str(&tc_cc),
        opt_as_str(&tc_cxx),
        opt_as_str(&tc_as),
        opt_as_str(&env.compiler),
        opt_as_str(&env.assembler),
        opt_as_str(&env.cxx),
        opt_as_str(&env.cc),
    );
    let linker = tool_or_env(tc_ld, &env.linker);
    let archiver = tool_or_env(tc_ar, &env.archiver);
    let deps = resolve_deps_for_gen(config, profile, root, &found.dep_facts);
    push_strings(&mut cflags, &found.pkg_cflags);
    push_strings(&mut ldflags, &found.pkg_ldflags);
    let exclude_dirs = join_nonblank(root, &excludes);
    let include_paths = include_patterns_of(&excludes, &includes);
    let mut include_dirs = deps.include_dirs;
    push_existing_includes(&mut include_dirs, root, &includes, &found.include_is_dir);
    let kind_s = normalize_kind(kind.as_str()).to_owned();
    let ctx = BuildContext {
        profile: profile.to_owned(),
        project_name: name.clone(),
        compiler: compiler.clone(),
        language: language.clone(),
        standard: standard.clone(),
        target: Some(build_target.clone()),
        target_dir: normalize_target(build_target.as_str(), profile),
        kind: kind_s.clone(),
        platform: match normalize_platform(platform.as_str()) {
            Some(p) => Some(p.to_owned()),
            None => None,
        },
        linker,
        archiver,
        package_type: None,
        source_roots,
        exclude_dirs,
        include_paths,
        include_dirs: Vec::new(),
        lib_dirs: Vec::new(),
        libs: Vec::new(),
        cflags: Vec::new(),
        ldflags: Vec::new(),
        output_filename: None,
        output_extension: None,
        verbose: false,
    };
    let cwd = opt_as_str(&found.cwd);
    let sources = match collect_sources(&ctx, &found.files, cwd) {
        Ok(v) => v,
        Err(e) => {
            let mut m = "Failed to collect sources: ".to_owned();
            m.append(e.as_str());
            assert(m@ =~= "Failed to collect sources: "@ + "No source files found in "@ + roots_text(views(ctx.source_roots@)));
            return Err(m);
        },
    };
    let abs = absolute_sources(root, &sources);
    Ok(ProjectInfo {
        name,
        version,
        root: root.to_owned(),
        profile: profile.to_owned(),
        language,
        standard,
        compiler,
        kind: kind_s,
        sources: abs,
        include_dirs,
        lib_dirs: deps.lib_dirs,
        libs: deps.libs,
        cflags,
        ldflags,
    })
}

} // verus!
