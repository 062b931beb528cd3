//! Helpers shared by the build, run, clean and test commands: version strings, target names,
//! flag splitting, compiler selection and profile-aware configuration lookups.
use vstd::prelude::*;
use crate::utils::strings::{
    chars_of, find_char, is_whitespace, is_ws, owned, push_char, split_char, split_once_char,
    split_seq, str_eq, trim, trim_seq, views,
};

use crate::cli::gen_info::{env_value, is_cxx, primary_lang, primary_language};
use crate::platform::opt_str_view;
use crate::project::config::Config;
use crate::project::deps::str_items;
use crate::project::lookup::{cfg_at, profile_section, profile_table};
use crate::project::value::{data_get, TomlData, TomlValue};
use crate::utils::strings::join_seq;

verus! {

/// The parts of a version string `MAJOR.MINOR.PATCH[-SUFFIX]`.
pub struct VersionInfo {
    pub full: String,
    pub major: String,
    pub minor: String,
    pub patch: String,
    pub suffix: String,
    pub suffix_dash: String,
}

/// The trimmed version, or `0.0.0` when it is blank.
pub open spec fn version_full(v: Seq<char>) -> Seq<char> {
    if trim_seq(v).len() == 0 {
        seq!['0', '.', '0', '.', '0']
    } else {
        trim_seq(v)
    }
}

/// The part of a version before its first `-`.
pub open spec fn version_base(full: Seq<char>) -> Seq<char> {
    match find_char(full, '-') {
        Some(k) => full.subrange(0, k),
        None => full,
    }
}

/// The part of a version after its first `-` (empty when there is none).
pub open spec fn version_suffix(full: Seq<char>) -> Seq<char> {
    match find_char(full, '-') {
        Some(k) => full.subrange(k + 1, full.len() as int),
        None => Seq::empty(),
    }
}

/// The `i`-th dot-separated component of the base version, `0` when it is missing.
pub open spec fn version_part(full: Seq<char>, i: int) -> Seq<char> {
    let parts = split_seq(version_base(full), '.');
    if i < parts.len() {
        parts[i]
    } else {
        seq!['0']
    }
}

/// What `parse_version_info` computes from a version string.
pub open spec fn version_info_spec(v: Seq<char>, info: VersionInfo) -> bool {
    let full = version_full(v);
    &&& info.full@ == full
    &&& info.major@ == version_part(full, 0)
    &&& info.minor@ == version_part(full, 1)
    &&& info.patch@ == version_part(full, 2)
    &&& info.suffix@ == version_suffix(full)
    &&& info.suffix_dash@ == (if version_suffix(full).len() == 0 {
        Seq::<char>::empty()
    } else {
        seq!['-'] + version_suffix(full)
    })
}

fn part_or_zero(parts: &Vec<String>, i: usize) -> (r: String)
    ensures
        r@ == (if i < parts@.len() {
            parts@[i as int]@
        } else {
            seq!['0']
        }),
{
    if i < parts.len() {
        parts[i].clone()
    } else {
        let mut s = String::new();
        push_char(&mut s, '0');
        s
    }
}

/// Splits a version string into its parts (`1.2.3-beta` gives `1`, `2`, `3` and `beta`).
pub fn parse_version_info(version: &str) -> (info: VersionInfo)
    ensures
        version_info_spec(version@, info),
{
    let trimmed = trim(version);
    let full = if trimmed.unicode_len() == 0 {
        let mut s = String::new();
        push_char(&mut s, '0');
        push_char(&mut s, '.');
        push_char(&mut s, '0');
        push_char(&mut s, '.');
        push_char(&mut s, '0');
        assert(s@ =~= seq!['0', '.', '0', '.', '0']);
        s
    } else {
        owned(trimmed)
    };
    let (base, suffix) = match split_once_char(full.as_str(), '-') {
        Some(p) => p,
        None => (full.clone(), String::new()),
    };
    let parts = split_char(base.as_str(), '.');
    assert(views(parts@).len() == parts@.len());
    let major = part_or_zero(&parts, 0);
    let minor = part_or_zero(&parts, 1);
    let patch = part_or_zero(&parts, 2);
    let suffix_dash = if suffix.unicode_len() == 0 {
        String::new()
    } else {
        let mut s = String::new();
        push_char(&mut s, '-');
        s.append(suffix.as_str());
        s
    };
    proof {
        assert(forall|i: int| 0 <= i < parts@.len() ==> views(parts@)[i] == parts@[i]@);
    }
    VersionInfo { full, major, minor, patch, suffix, suffix_dash }
}

/// The full target triple for a short target name (`linux`, `macos`, `windows`).
pub open spec fn target_triple(target: Seq<char>) -> Seq<char> {
    if target == "linux"@ {
        "x86_64-unknown-linux-gnu"@
    } else if target == "macos"@ {
        "x86_64-apple-darwin"@
    } else if target == "windows"@ {
        "x86_64-pc-windows-msvc"@
    } else {
        target
    }
}

/// The target triple of a short target name; other names, triples or not, are kept as they are.
pub fn normalize_target_os(target: &str) -> (r: &str)
    ensures
        r@ == target_triple(target@),
{
    if str_eq(target, "linux") {
        "x86_64-unknown-linux-gnu"
    } else if str_eq(target, "macos") {
        "x86_64-apple-darwin"
    } else if str_eq(target, "windows") {
        "x86_64-pc-windows-msvc"
    } else {
        target
    }
}

/// Tokenizer state after a prefix of a flag string: finished words, the word being read,
/// the open quote, if any, and whether a backslash escapes the next character.
pub open spec fn flag_scan(s: Seq<char>) -> (Seq<Seq<char>>, Seq<char>, Option<char>, bool)
    decreases s.len(),
{
    if s.len() == 0 {
        (Seq::empty(), Seq::empty(), None, false)
    } else {
        let (out, cur, quote, esc) = flag_scan(s.drop_last());
        let c = s.last();
        if esc {
            (out, cur.push(c), quote, false)
        } else if quote is Some {
            if Some(c) == quote {
                (out, cur, None, false)
            } else {
                (out, cur.push(c), quote, false)
            }
        } else if c == '\'' || c == '"' {
            (out, cur, Some(c), false)
        } else if c == '\\' {
            (out, cur, None, true)
        } else if is_ws(c) {
            if cur.len() > 0 {
                (out.push(cur), Seq::empty(), None, false)
            } else {
                (out, cur, None, false)
            }
        } else {
            (out, cur.push(c), None, false)
        }
    }
}

/// The words of a flag string, as a shell would split `pkg-config` output: white space
/// separates words, quotes group, a backslash outside quotes takes the next character literally.
pub open spec fn flag_words(s: Seq<char>) -> Seq<Seq<char>> {
    let (out, cur, quote, esc) = flag_scan(s);
    if cur.len() > 0 {
        out.push(cur)
    } else {
        out
    }
}

/// Splits compiler or linker flags printed by `pkg-config` into words.
pub fn split_flags(value: &str) -> (r: Vec<String>)
    ensures
        views(r@) == flag_words(value@),
{
    let chars = chars_of(value);
    let n = chars.len();
    let mut out: Vec<String> = Vec::new();
    let mut current = String::new();
    let mut quote: Option<char> = None;
    let mut escape = false;
    let mut i: usize = 0;
    assert(value@.take(0) =~= Seq::<char>::empty());
    while i < n
        invariant
            chars@ == value@,
            n == value@.len(),
            i <= n,
            (views(out@), current@, quote, escape) == flag_scan(value@.take(i as int)),
            escape ==> quote is None,
        decreases n - i,
    {
        let ch = chars[i];
        assert(value@.take(i + 1).drop_last() =~= value@.take(i as int));
        assert(value@.take(i + 1).last() == ch);
        if escape {
            push_char(&mut current, ch);
            escape = false;
        } else if let Some(q) = quote {
            if ch == q {
                quote = None;
            } else {
                push_char(&mut current, ch);
            }
        } else if ch == '\'' || ch == '"' {
            quote = Some(ch);
        } else if ch == '\\' {
            escape = true;
        } else if is_whitespace(ch) {
            if current.unicode_len() > 0 {
                let ghost o = out@;
                out.push(current);
                assert(views(out@) =~= views(o).push(current@));
                current = String::new();
                assert(current@ =~= Seq::<char>::empty());
            }
        } else {
            push_char(&mut current, ch);
        }
        i = i + 1;
    }
    assert(value@.take(n as int) =~= value@);
    if current.unicode_len() > 0 {
        let ghost o = out@;
        out.push(current);
        assert(views(out@) =~= views(o).push(current@));
    }
    out
}

/// `key is empty`.
pub open spec fn empty_msg(key: Seq<char>) -> Seq<char> {
    key + " is empty"@
}

/// `key must be string or array of strings`.
pub open spec fn shape_msg(key: Seq<char>) -> Seq<char> {
    key + " must be string or array of strings"@
}

/// The parts of a language array, each trimmed; the first item that is not a string, or is
/// blank, is an error.
pub open spec fn language_parts(a: Seq<TomlData>, key: Seq<char>) -> Result<Seq<Seq<char>>, Seq<char>>
    decreases a.len(),
{
    if a.len() == 0 {
        Ok(Seq::empty())
    } else {
        match language_parts(a.drop_last(), key) {
            Err(m) => Err(m),
            Ok(ps) => match a.last() {
                TomlData::Str(s) => if trim_seq(s).len() == 0 {
                    Err(key + " contains empty value"@)
                } else {
                    Ok(ps.push(trim_seq(s)))
                },
                _ => Err(shape_msg(key)),
            },
        }
    }
}

/// A language setting read strictly: a string that is not blank (trimmed), or a non-empty
/// array of such strings joined with `+`.
pub open spec fn strict_language(v: TomlData, key: Seq<char>) -> Result<Seq<char>, Seq<char>> {
    match v {
        TomlData::Str(s) => if trim_seq(s).len() == 0 {
            Err(empty_msg(key))
        } else {
            Ok(trim_seq(s))
        },
        TomlData::Array(a) => match language_parts(a, key) {
            Err(m) => Err(m),
            Ok(ps) => if ps.len() == 0 {
                Err(empty_msg(key))
            } else {
                Ok(join_seq(ps, "+"@))
            },
        },
        _ => Err(shape_msg(key)),
    }
}

fn with_suffix(key: &str, suffix: &str) -> (r: String)
    ensures
        r@ == key@ + suffix@,
{
    let mut m = key.to_owned();
    m.append(suffix);
    m
}

/// A language setting read strictly (see `strict_language`); `key` names it in errors.
pub fn parse_language_value(value: &TomlValue, key: &str) -> (r: Result<String, String>)
    ensures
        match r {
            Ok(s) => strict_language(value.data(), key@) == Ok::<Seq<char>, Seq<char>>(s@),
            Err(m) => strict_language(value.data(), key@) == Err::<Seq<char>, Seq<char>>(m@),
        },
{
    if let Some(s) = value.as_str() {
        let t = trim(s);
        if t.unicode_len() == 0 {
            return Err(with_suffix(key, " is empty"));
        }
        return Ok(t.to_owned());
    }
    let a = match value.as_array() {
        Some(a) => a,
        None => return Err(with_suffix(key, " must be string or array of strings")),
    };
    let ghost d = value.data()->Array_0;
    let mut parts: Vec<String> = Vec::new();
    assert(views(parts@) =~= Seq::<Seq<char>>::empty());
    assert(d.take(0) =~= Seq::<TomlData>::empty());
    let mut i: usize = 0;
    while i < a.len()
        invariant
            i <= a@.len(),
            value.data() == TomlData::Array(d),
            d.len() == a@.len(),
            forall|j: int| 0 <= j < a@.len() ==> #[trigger] d[j] == a@[j].data(),
            language_parts(d.take(i as int), key@) == Ok::<Seq<Seq<char>>, Seq<char>>(views(parts@)),
        decreases a@.len() - i,
    {
        assert(d.take(i + 1).drop_last() =~= d.take(i as int));
        assert(d.take(i + 1).last() == a@[i as int].data());
        let s = match a[i].as_str() {
            Some(s) => s,
            None => {
                proof { lemma_parts_err(d, key@, (i + 1) as int, shape_msg(key@)); }
                return Err(with_suffix(key, " must be string or array of strings"));
            },
        };
        let t = trim(s);
        if t.unicode_len() == 0 {
            proof { lemma_parts_err(d, key@, (i + 1) as int, key@ + " contains empty value"@); }
            return Err(with_suffix(key, " contains empty value"));
        }
        let ghost prev = parts@;
        parts.push(t.to_owned());
        assert(views(parts@) =~= views(prev).push(t@));
        i = i + 1;
    }
    assert(d.take(i as int) =~= d);
    if parts.len() == 0 {
        return Err(with_suffix(key, " is empty"));
    }
    Ok(crate::utils::strings::join(&parts, "+"))
}

proof fn lemma_parts_err(d: Seq<TomlData>, key: Seq<char>, n: int, m: Seq<char>)
    requires
        0 <= n <= d.len(),
        language_parts(d.take(n), key) == Err::<Seq<Seq<char>>, Seq<char>>(m),
    ensures
        language_parts(d, key) == Err::<Seq<Seq<char>>, Seq<char>>(m),
    decreases d.len() - n,
{
    if n < d.len() {
        assert(d.take(n + 1).drop_last() =~= d.take(n));
        lemma_parts_err(d, key, n + 1, m);
    } else {
        assert(d.take(n) =~= d);
    }
}

/// The language for a profile, read strictly: the profile section's `language` when it has
/// one, else `build.language`; it must be there.
pub open spec fn strict_profile_language(d: TomlData, profile: Seq<char>) -> Result<Seq<char>, Seq<char>> {
    match profile_section(d, profile) {
        Some(t) if data_get(t, "language"@) is Some => strict_language(data_get(t, "language"@)->0, "build.language"@),
        _ => match cfg_at(d, "build.language"@) {
            Some(v) => strict_language(v, "build.language"@),
            None => Err("build.language is missing"@),
        },
    }
}

/// The language for a profile, read strictly (see `strict_profile_language`).
pub fn get_language_with_profile(config: &Config, profile: &str) -> (r: Result<String, String>)
    ensures
        match r {
            Ok(s) => strict_profile_language(config.doc(), profile@) == Ok::<Seq<char>, Seq<char>>(s@),
            Err(m) => strict_profile_language(config.doc(), profile@) == Err::<Seq<char>, Seq<char>>(m@),
        },
{
    if let Some(t) = profile_table(config, profile) {
        if let Some(v) = t.get("language") {
            return parse_language_value(v, "build.language");
        }
    }
    match config.get("build.language") {
        Some(v) => parse_language_value(v, "build.language"),
        None => Err("build.language is missing".to_owned()),
    }
}

/// The compiler a build names: `DCR_COMPILER`; for assembly `DCR_AS` and then the
/// toolchain's assembler alone; for C++ `DCR_CXX`, then `DCR_CC`, then the toolchain's C++
/// compiler, then its C compiler; otherwise `DCR_CC`, then the toolchain's C compiler; and at
/// last the configured compiler. The environment's values count when they are not blank, and
/// are trimmed.
pub open spec fn build_compiler_for(
    language: Seq<char>,
    compiler: Seq<char>,
    tc_cc: Option<Seq<char>>,
    tc_cxx: Option<Seq<char>>,
    tc_as: Option<Seq<char>>,
    env_compiler: Option<Seq<char>>,
    env_as: Option<Seq<char>>,
    env_cxx: Option<Seq<char>>,
    env_cc: Option<Seq<char>>,
) -> Seq<char> {
    let lang = primary_lang(language);
    let from_env = if env_value(env_compiler) is Some {
        env_value(env_compiler)
    } else if lang == "asm"@ {
        env_value(env_as)
    } else if is_cxx(lang) && env_value(env_cxx) is Some {
        env_value(env_cxx)
    } else {
        env_value(env_cc)
    };
    let from_toolchain = if lang == "asm"@ {
        tc_as
    } else if is_cxx(lang) && tc_cxx is Some {
        tc_cxx
    } else {
        tc_cc
    };
    match from_env {
        Some(c) => c,
        None => match from_toolchain {
            Some(c) => c,
            None => compiler,
        },
    }
}

fn env_setting(v: Option<&str>) -> (r: Option<String>)
    ensures
        match r {
            Some(s) => env_value(opt_str_view(v)) == Some(s@),
            None => env_value(opt_str_view(v)) is None,
        },
{
    match v {
        Some(s) => {
            let t = trim(s);
            if t.unicode_len() > 0 {
                Some(t.to_owned())
            } else {
                None
            }
        },
        None => None,
    }
}

/// The compiler a build names (see `build_compiler_for`); the `env_` arguments are the values
/// of `DCR_COMPILER`, `DCR_AS`, `DCR_CXX` and `DCR_CC`, where they are set.
pub fn resolve_compiler(
    language: &str,
    compiler: &str,
    tc_cc: Option<&str>,
    tc_cxx: Option<&str>,
    tc_as: Option<&str>,
    env_compiler: Option<&str>,
    env_as: Option<&str>,
    env_cxx: Option<&str>,
    env_cc: Option<&str>,
) -> (r: String)
    ensures
        r@ == build_compiler_for(
            language@,
            compiler@,
            opt_str_view(tc_cc),
            opt_str_view(tc_cxx),
            opt_str_view(tc_as),
            opt_str_view(env_compiler),
            opt_str_view(env_as),
            opt_str_view(env_cxx),
            opt_str_view(env_cc),
        ),
{
    let lang = primary_language(language);
    let is_asm = str_eq(lang.as_str(), "asm");
    let cxx = str_eq(lang.as_str(), "c++") || str_eq(lang.as_str(), "cpp") || str_eq(lang.as_str(), "cxx");
    let from_env = match env_setting(env_compiler) {
        Some(t) => Some(t),
        None => if is_asm {
            env_setting(env_as)
        } else {
            match env_setting(env_cxx) {
                Some(t) if cxx => Some(t),
                _ => env_setting(env_cc),
            }
        },
    };
    if let Some(c) = from_env {
        return c;
    }
    let from_toolchain: Option<&str> = if is_asm {
        tc_as
    } else if cxx && tc_cxx.is_some() {
        tc_cxx
    } else {
        tc_cc
    };
    match from_toolchain {
        Some(c) => c.to_owned(),
        None => compiler.to_owned(),
    }
}

/// A tool: the environment's value when it is not blank (trimmed), else the fallback.
pub fn resolve_tool(env: Option<&str>, fallback: Option<&str>) -> (r: Option<String>)
    ensures
        match r {
            Some(t) => Some(t@) == (if env_value(opt_str_view(env)) is Some {
                env_value(opt_str_view(env))
            } else {
                opt_str_view(fallback)
            }),
            None => env_value(opt_str_view(env)) is None && fallback is None,
        },
{
    match env_setting(env) {
        Some(t) => Some(t),
        None => match fallback {
            Some(f) => Some(f.to_owned()),
            None => None,
        },
    }
}

} // verus!
