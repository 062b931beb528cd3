//! The rules a configuration must meet beyond its types: names, non-blank values, known kinds,
//! and the shape of the per-profile sections and of the workspace.
use vstd::prelude::*;
use crate::project::config::{
    opt_str, opt_view, req_str, str_list, strs_of, table_field, typed_matches, typed_ok,
    ConfigError, DcrConfig, LanguageConfig, ToolchainConfig,
};
use crate::project::value::{data_get, TomlData, TomlTable, TomlValue};
use crate::utils::strings::{
    chars_of, contains_str, has_sub, is_ascii_alnum, is_ascii_alphanumeric, is_blank, str_eq, trim,
    trim_seq, views,
};

verus! {

/// Only white space, or nothing.
pub open spec fn blank(s: Seq<char>) -> bool {
    trim_seq(s).len() == 0
}

/// Every string is non-blank.
pub open spec fn all_nonblank(v: Seq<Seq<char>>) -> bool {
    forall|i: int| 0 <= i < v.len() ==> !blank(#[trigger] v[i])
}

/// An absent value, or a non-blank one.
pub open spec fn opt_nonblank(o: Option<Seq<char>>) -> bool {
    match o {
        Some(s) => !blank(s),
        None => true,
    }
}

/// The kinds of output a build can make.
pub open spec fn valid_kind(k: Seq<char>) -> bool {
    k == "bin"@ || k == "staticlib"@ || k == "sharedlib"@ || k == "efi"@ || k == "elf"@
}

/// A character allowed in a package name.
pub open spec fn name_char_ok(c: char) -> bool {
    is_ascii_alnum(c) || c == '_' || c == '-'
}

/// A package name: no white space around it, no `..`, and only ASCII letters, digits, `_`, `-`.
pub open spec fn package_name_ok(n: Seq<char>) -> bool {
    &&& trim_seq(n) == n
    &&& !has_sub(n, ".."@)
    &&& forall|i: int| 0 <= i < n.len() ==> name_char_ok(#[trigger] n[i])
}

/// `package.type`: absent, blank, or one of `lib`, `app`, `none` (after trimming).
pub open spec fn pkg_type_ok(o: Option<Seq<char>>) -> bool {
    match o {
        Some(t) => blank(t) || trim_seq(t) == "lib"@ || trim_seq(t) == "app"@ || trim_seq(t) == "none"@,
        None => true,
    }
}

/// `build.kind`: absent, blank, or a known kind (after trimming).
pub open spec fn kind_ok(o: Option<Seq<char>>) -> bool {
    match o {
        Some(k) => blank(k) || valid_kind(trim_seq(k)),
        None => true,
    }
}

/// The values of a language setting.
pub open spec fn lang_values(l: LanguageConfig) -> Seq<Seq<char>> {
    match l {
        LanguageConfig::One(s) => seq![s@],
        LanguageConfig::Many(v) => views(v@),
    }
}

/// A language setting names at least one language and no blank one.
pub open spec fn language_config_ok(l: LanguageConfig) -> bool {
    lang_values(l).len() > 0 && all_nonblank(lang_values(l))
}

/// Every tool the toolchain names is non-blank.
pub open spec fn toolchain_config_ok(t: Option<ToolchainConfig>) -> bool {
    match t {
        Some(tc) => opt_nonblank(opt_view(tc.cc)) && opt_nonblank(opt_view(tc.cxx)) && opt_nonblank(
            opt_view(tc.assembler),
        ) && opt_nonblank(opt_view(tc.ar)) && opt_nonblank(opt_view(tc.ld)),
        None => true,
    }
}

// ---------------------------------------------------------------------------------------------
// Profile sections (`[build.release]`, `[build.debug]`) are read loosely: a value that should be
// a string and is not counts as an empty string.
// ---------------------------------------------------------------------------------------------

/// The string a value holds, or the empty string.
pub open spec fn str_or_empty(d: TomlData) -> Seq<char> {
    match d {
        TomlData::Str(s) => s,
        _ => Seq::empty(),
    }
}

/// A value read as a string is non-blank.
pub open spec fn item_nonblank(d: TomlData) -> bool {
    !blank(str_or_empty(d))
}

/// Every item, read as a string, is non-blank.
pub open spec fn items_nonblank(a: Seq<TomlData>) -> bool {
    forall|i: int| 0 <= i < a.len() ==> item_nonblank(#[trigger] a[i])
}

/// A language value: a non-blank string, or a non-empty array of non-blank strings.
pub open spec fn lang_value_ok(d: TomlData) -> bool {
    match d {
        TomlData::Str(s) => !blank(s),
        TomlData::Array(a) => a.len() > 0 && items_nonblank(a),
        _ => false,
    }
}

/// The key is absent or, read as a string, non-blank.
pub open spec fn present_nonblank(t: Seq<(Seq<char>, TomlData)>, k: Seq<char>) -> bool {
    match data_get(t, k) {
        Some(d) => item_nonblank(d),
        None => true,
    }
}

/// The key holds a non-blank string.
pub open spec fn field_nonblank(t: Seq<(Seq<char>, TomlData)>, k: Seq<char>) -> bool {
    match data_get(t, k) {
        Some(d) => item_nonblank(d),
        None => false,
    }
}

/// The key is absent or an array whose items, read as strings, are non-blank.
pub open spec fn str_array_ok(t: Seq<(Seq<char>, TomlData)>, k: Seq<char>) -> bool {
    match data_get(t, k) {
        Some(TomlData::Array(a)) => items_nonblank(a),
        Some(_) => false,
        None => true,
    }
}

/// A build step: a table with a non-blank `name`, `in`, `out` and `cmd`.
pub open spec fn step_ok(d: TomlData) -> bool {
    match d {
        TomlData::Table(s) => field_nonblank(s, "name"@) && field_nonblank(s, "in"@) && field_nonblank(s, "out"@)
            && field_nonblank(s, "cmd"@),
        _ => false,
    }
}

/// The key is absent or an array of build steps.
pub open spec fn steps_ok(t: Seq<(Seq<char>, TomlData)>, k: Seq<char>) -> bool {
    match data_get(t, k) {
        Some(TomlData::Array(a)) => forall|i: int| 0 <= i < a.len() ==> step_ok(#[trigger] a[i]),
        Some(_) => false,
        None => true,
    }
}

/// The rules of one profile section.
pub open spec fn profile_section_ok(t: Seq<(Seq<char>, TomlData)>) -> bool {
    &&& match data_get(t, "language"@) {
        Some(d) => lang_value_ok(d),
        None => true,
    }
    &&& present_nonblank(t, "standard"@)
    &&& present_nonblank(t, "compiler"@)
    &&& present_nonblank(t, "kind"@)
    &&& present_nonblank(t, "target"@)
    &&& present_nonblank(t, "platform"@)
    &&& match data_get(t, "kind"@) {
        Some(TomlData::Str(k)) => blank(k) || valid_kind(trim_seq(k)),
        _ => true,
    }
    &&& match data_get(t, "src_disable"@) {
        Some(d) => d is Bool,
        None => true,
    }
    &&& str_array_ok(t, "cflags"@)
    &&& str_array_ok(t, "ldflags"@)
    &&& str_array_ok(t, "exclude"@)
    &&& str_array_ok(t, "include"@)
    &&& str_array_ok(t, "roots"@)
    &&& str_array_ok(t, "pkg_config"@)
    &&& str_array_ok(t, "generated"@)
    &&& str_array_ok(t, "expect"@)
    &&& str_array_ok(t, "clean"@)
    &&& str_array_ok(t, "targets"@)
    &&& steps_ok(t, "steps"@)
    &&& steps_ok(t, "post_steps"@)
}

/// The profile section `name` of the build table is absent or a table that meets the rules.
pub open spec fn profile_ok(b: Seq<(Seq<char>, TomlData)>, name: Seq<char>) -> bool {
    match data_get(b, name) {
        Some(TomlData::Table(t)) => profile_section_ok(t),
        Some(_) => false,
        None => true,
    }
}

/// A workspace member: a table with a non-blank `path` and non-blank `deps`.
pub open spec fn member_valid(d: TomlData) -> bool {
    match d {
        TomlData::Table(m) => field_nonblank(m, "path"@) && str_array_ok(m, "deps"@),
        _ => false,
    }
}

/// Every member of the workspace table (if there is one) is valid.
pub open spec fn workspace_valid(t: Seq<(Seq<char>, TomlData)>) -> bool {
    match data_get(t, "workspace"@) {
        Some(TomlData::Table(w)) => forall|i: int| 0 <= i < w.len() ==> member_valid(#[trigger] w[i].1),
        _ => true,
    }
}

/// Every rule of a document that can be read as the typed configuration.
pub open spec fn config_valid(d: TomlData) -> bool {
    let t = d->Table_0;
    let p = table_field(t, "package"@)->0;
    let b = table_field(t, "build"@)->0;
    let name = req_str(p, "name"@)->0;
    &&& !blank(name)
    &&& !blank(req_str(p, "version"@)->0)
    &&& package_name_ok(name)
    &&& pkg_type_ok(opt_str(p, "type"@)->0)
    &&& lang_value_ok(data_get(b, "language"@)->0)
    &&& !blank(req_str(b, "standard"@)->0)
    &&& !blank(req_str(b, "compiler"@)->0)
    &&& opt_nonblank(opt_str(b, "platform"@)->0)
    &&& match data_get(t, "toolchain"@) {
        Some(TomlData::Table(c)) => opt_nonblank(opt_str(c, "cc"@)->0) && opt_nonblank(opt_str(c, "cxx"@)->0)
            && opt_nonblank(opt_str(c, "as"@)->0) && opt_nonblank(opt_str(c, "ar"@)->0) && opt_nonblank(
            opt_str(c, "ld"@)->0,
        ),
        _ => true,
    }
    &&& kind_ok(opt_str(b, "kind"@)->0)
    &&& all_nonblank(str_list(b, "exclude"@)->0)
    &&& all_nonblank(str_list(b, "include"@)->0)
    &&& all_nonblank(str_list(b, "roots"@)->0)
    &&& all_nonblank(str_list(b, "clean"@)->0)
    &&& all_nonblank(str_list(b, "cflags"@)->0)
    &&& all_nonblank(str_list(b, "ldflags"@)->0)
    &&& opt_nonblank(opt_str(b, "target"@)->0)
    &&& profile_ok(b, "release"@)
    &&& profile_ok(b, "debug"@)
    &&& workspace_valid(t)
}

// ---------------------------------------------------------------------------------------------
// The message of the first rule a document breaks, in the order the checks run.
// ---------------------------------------------------------------------------------------------

/// The first of two messages.
pub open spec fn or_msg(a: Option<Seq<char>>, b: Option<Seq<char>>) -> Option<Seq<char>> {
    if a is Some {
        a
    } else {
        b
    }
}

/// `<key> contains empty value` for a blank string.
pub open spec fn blank_msg(s: Seq<char>, key: Seq<char>) -> Option<Seq<char>> {
    if blank(s) {
        Some(key + " contains empty value"@)
    } else {
        None
    }
}

/// `<key> contains empty value` when one of the strings is blank.
pub open spec fn list_msg(v: Seq<Seq<char>>, key: Seq<char>) -> Option<Seq<char>> {
    if all_nonblank(v) {
        None
    } else {
        Some(key + " contains empty value"@)
    }
}

/// The message of an optional string that is present and blank.
pub open spec fn opt_msg(o: Option<Seq<char>>, key: Seq<char>) -> Option<Seq<char>> {
    match o {
        Some(s) => blank_msg(s, key),
        None => None,
    }
}

/// What is wrong with a package name (see `package_name_ok`).
pub open spec fn name_msg(n: Seq<char>) -> Option<Seq<char>> {
    if trim_seq(n) != n {
        Some("package.name must not contain leading or trailing whitespace"@)
    } else if has_sub(n, ".."@) {
        Some("package.name is invalid"@)
    } else if !(forall|i: int| 0 <= i < n.len() ==> name_char_ok(#[trigger] n[i])) {
        Some("package.name must contain only ASCII letters, digits, '_' or '-'"@)
    } else {
        None
    }
}

/// What is wrong with a language setting: it names nothing, or a blank language.
pub open spec fn lang_config_msg(l: LanguageConfig, key: Seq<char>) -> Option<Seq<char>> {
    if lang_values(l).len() == 0 {
        Some(key + " is empty"@)
    } else {
        list_msg(lang_values(l), key)
    }
}

/// What is wrong with the toolchain: the first blank tool.
pub open spec fn toolchain_msg(t: Option<ToolchainConfig>) -> Option<Seq<char>> {
    match t {
        Some(tc) => or_msg(
            opt_msg(opt_view(tc.cc), "toolchain.cc"@),
            or_msg(
                opt_msg(opt_view(tc.cxx), "toolchain.cxx"@),
                or_msg(
                    opt_msg(opt_view(tc.assembler), "toolchain.as"@),
                    or_msg(opt_msg(opt_view(tc.ar), "toolchain.ar"@), opt_msg(opt_view(tc.ld), "toolchain.ld"@)),
                ),
            ),
        ),
        None => None,
    }
}

/// What is wrong with the language value of a profile section.
pub open spec fn lang_value_msg(d: TomlData) -> Option<Seq<char>> {
    match d {
        TomlData::Str(s) => if blank(s) {
            Some("build.language is empty"@)
        } else {
            None
        },
        TomlData::Array(a) => if a.len() == 0 {
            Some("build.language is empty"@)
        } else if !items_nonblank(a) {
            Some("build.language contains empty value"@)
        } else {
            None
        },
        _ => Some("build.language must be string or array"@),
    }
}

/// A message about a key of a profile section: `build.<profile>.<key><tail>`.
pub open spec fn in_profile(profile: Seq<char>, key: Seq<char>, tail: Seq<char>) -> Seq<char> {
    "build."@ + profile + "."@ + key + tail
}

/// A key that is present and, read as a string, blank.
pub open spec fn present_msg(t: Seq<(Seq<char>, TomlData)>, profile: Seq<char>, key: Seq<char>) -> Option<Seq<char>> {
    match data_get(t, key) {
        Some(d) => if item_nonblank(d) {
            None
        } else {
            Some(in_profile(profile, key, " is empty"@))
        },
        None => None,
    }
}

/// A key that is no array of non-blank strings.
pub open spec fn str_array_msg(t: Seq<(Seq<char>, TomlData)>, profile: Seq<char>, key: Seq<char>) -> Option<Seq<char>> {
    match data_get(t, key) {
        Some(TomlData::Array(a)) => if items_nonblank(a) {
            None
        } else {
            Some(in_profile(profile, key, " contains empty value"@))
        },
        Some(_) => Some(in_profile(profile, key, " must be an array of strings"@)),
        None => None,
    }
}

/// A build step without a non-blank `req`.
pub open spec fn step_field_msg(s: Seq<(Seq<char>, TomlData)>, profile: Seq<char>, key: Seq<char>, req: Seq<char>) -> Option<Seq<char>> {
    if field_nonblank(s, req) {
        None
    } else {
        Some(in_profile(profile, key, " missing "@ + req))
    }
}

/// What is wrong with a build step (see `step_ok`).
pub open spec fn step_msg(d: TomlData, profile: Seq<char>, key: Seq<char>) -> Option<Seq<char>> {
    match d {
        TomlData::Table(s) => or_msg(
            step_field_msg(s, profile, key, "name"@),
            or_msg(
                step_field_msg(s, profile, key, "in"@),
                or_msg(step_field_msg(s, profile, key, "out"@), step_field_msg(s, profile, key, "cmd"@)),
            ),
        ),
        _ => Some(in_profile(profile, key, " entries must be tables"@)),
    }
}

/// The first faulty build step from the `i`-th on.
pub open spec fn steps_from(a: Seq<TomlData>, profile: Seq<char>, key: Seq<char>, i: int) -> Option<Seq<char>>
    decreases a.len() - i,
{
    if i < 0 || i >= a.len() {
        None
    } else {
        or_msg(step_msg(a[i], profile, key), steps_from(a, profile, key, i + 1))
    }
}

/// A key that is no array of build steps.
pub open spec fn steps_msg(t: Seq<(Seq<char>, TomlData)>, profile: Seq<char>, key: Seq<char>) -> Option<Seq<char>> {
    match data_get(t, key) {
        Some(TomlData::Array(a)) => steps_from(a, profile, key, 0),
        Some(_) => Some(in_profile(profile, key, " must be an array"@)),
        None => None,
    }
}

/// A string `kind` that is not blank and no known kind.
pub open spec fn section_kind_msg(t: Seq<(Seq<char>, TomlData)>, profile: Seq<char>) -> Option<Seq<char>> {
    match data_get(t, "kind"@) {
        Some(TomlData::Str(k)) => if blank(k) || valid_kind(trim_seq(k)) {
            None
        } else {
            Some("build."@ + profile + ".kind is invalid"@)
        },
        _ => None,
    }
}

/// A `src_disable` that is no boolean.
pub open spec fn src_disable_msg(t: Seq<(Seq<char>, TomlData)>, profile: Seq<char>) -> Option<Seq<char>> {
    match data_get(t, "src_disable"@) {
        Some(d) => if d is Bool {
            None
        } else {
            Some("build."@ + profile + ".src_disable must be boolean"@)
        },
        None => None,
    }
}

/// The lists of a profile section, in the order they are checked.
pub open spec fn section_lists_msg(t: Seq<(Seq<char>, TomlData)>, profile: Seq<char>) -> Option<Seq<char>> {
    or_msg(str_array_msg(t, profile, "cflags"@),
    or_msg(str_array_msg(t, profile, "ldflags"@),
    or_msg(str_array_msg(t, profile, "exclude"@),
    or_msg(str_array_msg(t, profile, "include"@),
    or_msg(str_array_msg(t, profile, "roots"@),
    or_msg(str_array_msg(t, profile, "pkg_config"@),
    or_msg(str_array_msg(t, profile, "generated"@),
    or_msg(str_array_msg(t, profile, "expect"@),
    or_msg(str_array_msg(t, profile, "clean"@), str_array_msg(t, profile, "targets"@))))))))))
}

/// What is wrong with a profile section (see `profile_section_ok`), in the order of the checks.
pub open spec fn section_msg(t: Seq<(Seq<char>, TomlData)>, profile: Seq<char>) -> Option<Seq<char>> {
    or_msg(match data_get(t, "language"@) {
        Some(d) => lang_value_msg(d),
        None => None,
    },
    or_msg(present_msg(t, profile, "standard"@),
    or_msg(present_msg(t, profile, "compiler"@),
    or_msg(present_msg(t, profile, "kind"@),
    or_msg(present_msg(t, profile, "target"@),
    or_msg(present_msg(t, profile, "platform"@),
    or_msg(section_kind_msg(t, profile),
    or_msg(src_disable_msg(t, profile),
    or_msg(section_lists_msg(t, profile),
    or_msg(steps_msg(t, profile, "steps"@), steps_msg(t, profile, "post_steps"@)))))))))))
}

/// What is wrong with the profile section `name` of the build table.
pub open spec fn profile_msg(b: Seq<(Seq<char>, TomlData)>, name: Seq<char>) -> Option<Seq<char>> {
    match data_get(b, name) {
        Some(TomlData::Table(t)) => section_msg(t, name),
        Some(_) => Some("build."@ + name + " must be a table"@),
        None => None,
    }
}

/// What is wrong with a workspace member (see `member_valid`).
pub open spec fn member_msg(name: Seq<char>, d: TomlData) -> Option<Seq<char>> {
    match d {
        TomlData::Table(m) => if !field_nonblank(m, "path"@) {
            Some("workspace."@ + name + ".path is empty"@)
        } else {
            match data_get(m, "deps"@) {
                Some(TomlData::Array(a)) => if items_nonblank(a) {
                    None
                } else {
                    Some("workspace."@ + name + ".deps contains empty value"@)
                },
                Some(_) => Some("workspace."@ + name + ".deps must be array"@),
                None => None,
            }
        },
        _ => Some("workspace."@ + name + " must be a table"@),
    }
}

/// The first faulty workspace member from the `i`-th on.
pub open spec fn members_msg(w: Seq<(Seq<char>, TomlData)>, i: int) -> Option<Seq<char>>
    decreases w.len() - i,
{
    if i < 0 || i >= w.len() {
        None
    } else {
        or_msg(member_msg(w[i].0, w[i].1), members_msg(w, i + 1))
    }
}

/// What is wrong with the workspace table, if the document has one.
pub open spec fn workspace_msg(t: Seq<(Seq<char>, TomlData)>) -> Option<Seq<char>> {
    match data_get(t, "workspace"@) {
        Some(TomlData::Table(w)) => members_msg(w, 0),
        _ => None,
    }
}

/// What is wrong with the document's language value, read as the typed setting.
pub open spec fn doc_lang_msg(d: TomlData) -> Option<Seq<char>> {
    match d {
        TomlData::Str(s) => blank_msg(s, "build.language"@),
        TomlData::Array(a) => if a.len() == 0 {
            Some("build.language"@ + " is empty"@)
        } else if !items_nonblank(a) {
            Some("build.language"@ + " contains empty value"@)
        } else {
            None
        },
        _ => None,
    }
}

/// What is wrong with the document's toolchain table.
pub open spec fn doc_toolchain_msg(t: Seq<(Seq<char>, TomlData)>) -> Option<Seq<char>> {
    match data_get(t, "toolchain"@) {
        Some(TomlData::Table(c)) => or_msg(
            opt_msg(opt_str(c, "cc"@)->0, "toolchain.cc"@),
            or_msg(
                opt_msg(opt_str(c, "cxx"@)->0, "toolchain.cxx"@),
                or_msg(
                    opt_msg(opt_str(c, "as"@)->0, "toolchain.as"@),
                    or_msg(opt_msg(opt_str(c, "ar"@)->0, "toolchain.ar"@), opt_msg(opt_str(c, "ld"@)->0, "toolchain.ld"@)),
                ),
            ),
        ),
        _ => None,
    }
}

/// A `package.type` that is neither blank nor `lib`, `app` or `none`.
pub open spec fn type_msg(o: Option<Seq<char>>) -> Option<Seq<char>> {
    if pkg_type_ok(o) {
        None
    } else {
        Some("package.type must be 'lib', 'app', or 'none'"@)
    }
}

/// A `build.kind` that is neither blank nor a known kind.
pub open spec fn kind_msg(o: Option<Seq<char>>) -> Option<Seq<char>> {
    if kind_ok(o) {
        None
    } else {
        Some("build.kind is invalid"@)
    }
}

/// `msg` when `bad` holds.
pub open spec fn msg_if(bad: bool, msg: Seq<char>) -> Option<Seq<char>> {
    if bad {
        Some(msg)
    } else {
        None
    }
}

/// The lists of `[build]`, in the order they are checked.
pub open spec fn build_lists_msg(b: Seq<(Seq<char>, TomlData)>) -> Option<Seq<char>> {
    or_msg(list_msg(str_list(b, "exclude"@)->0, "build.exclude"@),
    or_msg(list_msg(str_list(b, "include"@)->0, "build.include"@),
    or_msg(list_msg(str_list(b, "roots"@)->0, "build.roots"@),
    or_msg(list_msg(str_list(b, "clean"@)->0, "build.clean"@),
    or_msg(list_msg(str_list(b, "cflags"@)->0, "build.cflags"@), list_msg(str_list(b, "ldflags"@)->0, "build.ldflags"@))))))
}

/// The message of the first rule a document (read as the typed configuration) breaks, in the
/// order the checks run; none when it meets them all (see `config_valid`).
pub open spec fn config_msg(d: TomlData) -> Option<Seq<char>> {
    let t = d->Table_0;
    let p = table_field(t, "package"@)->0;
    let b = table_field(t, "build"@)->0;
    let name = req_str(p, "name"@)->0;
    or_msg(msg_if(blank(name), "package.name is empty"@),
    or_msg(msg_if(blank(req_str(p, "version"@)->0), "package.version is empty"@),
    or_msg(name_msg(name),
    or_msg(type_msg(opt_str(p, "type"@)->0),
    or_msg(doc_lang_msg(data_get(b, "language"@)->0),
    or_msg(msg_if(blank(req_str(b, "standard"@)->0), "build.standard is empty"@),
    or_msg(msg_if(blank(req_str(b, "compiler"@)->0), "build.compiler is empty"@),
    or_msg(msg_if(!opt_nonblank(opt_str(b, "platform"@)->0), "build.platform is empty"@),
    or_msg(doc_toolchain_msg(t),
    or_msg(kind_msg(opt_str(b, "kind"@)->0),
    or_msg(build_lists_msg(b),
    or_msg(opt_msg(opt_str(b, "target"@)->0, "build.target"@),
    or_msg(profile_msg(b, "release"@),
    or_msg(profile_msg(b, "debug"@), workspace_msg(t)))))))))))))))
}

/// The error `Invalid` with this message.
pub open spec fn invalid_is(r: Result<(), ConfigError>, m: Option<Seq<char>>) -> bool {
    match m {
        Some(msg) => r matches Err(ConfigError::Invalid(e)) && e@ == msg,
        None => r is Ok,
    }
}

/// `Invalid` with the message `<a><b>`.
fn invalid2(a: &str, b: &str) -> (e: ConfigError)
    ensures
        e matches ConfigError::Invalid(m) && m@ == a@ + b@,
{
    let mut m = a.to_owned();
    m.append(b);
    ConfigError::Invalid(m)
}

/// `Invalid` with the message `<a><b><c>`.
fn invalid3(a: &str, b: &str, c: &str) -> (e: ConfigError)
    ensures
        e matches ConfigError::Invalid(m) && m@ == a@ + b@ + c@,
{
    let mut m = a.to_owned();
    m.append(b);
    m.append(c);
    ConfigError::Invalid(m)
}

/// `Invalid` with the message `build.<profile>.<key><tail>`.
fn invalid_in(profile: &str, key: &str, tail: &str) -> (e: ConfigError)
    ensures
        e matches ConfigError::Invalid(m) && m@ == in_profile(profile@, key@, tail@),
{
    let mut m = "build.".to_owned();
    m.append(profile);
    m.append(".");
    m.append(key);
    m.append(tail);
    ConfigError::Invalid(m)
}

/// Fails with `<key> contains empty value` when `value` is blank.
pub fn validate_non_empty_string(value: &str, key: &str) -> (r: Result<(), ConfigError>)
    ensures
        r is Ok <==> !blank(value@),
        r matches Err(e) ==> e is Invalid,
        invalid_is(r, blank_msg(value@, key@)),
{
    if is_blank(value) {
        return Err(invalid2(key, " contains empty value"));
    }
    Ok(())
}

/// Fails when one of `values` is blank.
pub fn validate_string_list(values: &Vec<String>, key: &str) -> (r: Result<(), ConfigError>)
    ensures
        r is Ok <==> all_nonblank(views(values@)),
        r matches Err(e) ==> e is Invalid,
        invalid_is(r, list_msg(views(values@), key@)),
{
    let mut i: usize = 0;
    while i < values.len()
        invariant
            i <= values@.len(),
            forall|j: int| 0 <= j < i ==> !blank(#[trigger] views(values@)[j]),
        decreases values@.len() - i,
    {
        if is_blank(values[i].as_str()) {
            assert(!all_nonblank(views(values@))) by {
                assert(blank(views(values@)[i as int]));
            }
            return Err(invalid2(key, " contains empty value"));
        }
        i = i + 1;
    }
    Ok(())
}

/// Whether `c` may stand in a package name.
fn is_name_char(c: char) -> (r: bool)
    ensures
        r == name_char_ok(c),
{
    is_ascii_alphanumeric(c) || c == '_' || c == '-'
}

/// Fails unless `name` is a well-formed package name (see `package_name_ok`).
pub fn validate_package_name(name: &str) -> (r: Result<(), ConfigError>)
    ensures
        r is Ok <==> package_name_ok(name@),
        r matches Err(e) ==> e is Invalid,
        invalid_is(r, name_msg(name@)),
{
    let trimmed = trim(name);
    if !str_eq(trimmed, name) {
        return Err(ConfigError::Invalid("package.name must not contain leading or trailing whitespace".to_owned()));
    }
    if contains_str(trimmed, "..") {
        return Err(ConfigError::Invalid("package.name is invalid".to_owned()));
    }
    let v = chars_of(trimmed);
    let mut i: usize = 0;
    while i < v.len()
        invariant
            v@ == name@,
            i <= v@.len(),
            forall|j: int| 0 <= j < i ==> name_char_ok(#[trigger] v@[j]),
            trim_seq(name@) == name@,
            !has_sub(name@, ".."@),
        decreases v@.len() - i,
    {
        if !is_name_char(v[i]) {
            assert(!name_char_ok(name@[i as int]));
            assert(!(forall|j: int| 0 <= j < name@.len() ==> name_char_ok(#[trigger] name@[j])));
            assert(name_msg(name@) == Some("package.name must contain only ASCII letters, digits, '_' or '-'"@));
            return Err(ConfigError::Invalid("package.name must contain only ASCII letters, digits, '_' or '-'".to_owned()));
        }
        i = i + 1;
    }
    Ok(())
}

impl LanguageConfig {
    /// The language names, one or several.
    pub fn values(&self) -> (r: Vec<String>)
        ensures
            views(r@) == lang_values(*self),
    {
        match self {
            LanguageConfig::One(value) => {
                let r = vec![value.clone()];
                assert(views(r@) =~= seq![value@]);
                r
            },
            LanguageConfig::Many(values) => {
                let mut r: Vec<String> = Vec::new();
                let mut i: usize = 0;
                while i < values.len()
                    invariant
                        i <= values@.len(),
                        r@ == values@.take(i as int),
                    decreases values@.len() - i,
                {
                    r.push(values[i].clone());
                    assert(r@ =~= values@.take(i + 1));
                    i = i + 1;
                }
                assert(r@ =~= values@);
                r
            },
        }
    }
}

/// Fails when the language setting is empty or names a blank language.
pub fn validate_language_config(language: &LanguageConfig, key: &str) -> (r: Result<(), ConfigError>)
    ensures
        r is Ok <==> language_config_ok(*language),
        r matches Err(e) ==> e is Invalid,
        invalid_is(r, lang_config_msg(*language, key@)),
{
    let values = language.values();
    if values.len() == 0 {
        return Err(invalid2(key, " is empty"));
    }
    validate_string_list(&values, key)
}

fn validate_tool(value: &Option<String>, key: &str) -> (r: Result<(), ConfigError>)
    ensures
        r is Ok <==> opt_nonblank(opt_view(*value)),
        r matches Err(e) ==> e is Invalid,
        invalid_is(r, opt_msg(opt_view(*value), key@)),
{
    match value {
        Some(v) => validate_non_empty_string(v.as_str(), key),
        None => Ok(()),
    }
}

/// Fails when the toolchain names a blank tool.
pub fn validate_toolchain(toolchain: Option<&ToolchainConfig>) -> (r: Result<(), ConfigError>)
    ensures
        r is Ok <==> toolchain_config_ok(match toolchain {
            Some(t) => Some(*t),
            None => None,
        }),
        r matches Err(e) ==> e is Invalid,
        invalid_is(r, toolchain_msg(match toolchain {
            Some(t) => Some(*t),
            None => None,
        })),
{
    match toolchain {
        None => Ok(()),
        Some(t) => {
            validate_tool(&t.cc, "toolchain.cc")?;
            validate_tool(&t.cxx, "toolchain.cxx")?;
            validate_tool(&t.assembler, "toolchain.as")?;
            validate_tool(&t.ar, "toolchain.ar")?;
            validate_tool(&t.ld, "toolchain.ld")?;
            Ok(())
        },
    }
}

/// A value read as a string: the string, or the empty string.
fn str_or_empty_of(v: &TomlValue) -> (r: &str)
    ensures
        r@ == str_or_empty(v.data()),
{
    match v.as_str() {
        Some(s) => s,
        None => {
            proof { reveal_strlit(""); }
            ""
        },
    }
}

/// Whether every item, read as a string, is non-blank.
fn all_items_nonblank(a: &Vec<TomlValue>, d: Ghost<Seq<TomlData>>) -> (r: bool)
    requires
        d@.len() == a@.len(),
        forall|i: int| 0 <= i < a@.len() ==> #[trigger] d@[i] == a@[i].data(),
    ensures
        r == items_nonblank(d@),
{
    let mut i: usize = 0;
    while i < a.len()
        invariant
            i <= a@.len(),
            d@.len() == a@.len(),
            forall|j: int| 0 <= j < a@.len() ==> #[trigger] d@[j] == a@[j].data(),
            forall|j: int| 0 <= j < i ==> item_nonblank(#[trigger] d@[j]),
        decreases a@.len() - i,
    {
        if is_blank(str_or_empty_of(&a[i])) {
            assert(!item_nonblank(d@[i as int]));
            return false;
        }
        i = i + 1;
    }
    true
}

/// Fails unless a language value is a non-blank string or a non-empty array of non-blank
/// strings.
fn validate_language_value(v: &TomlValue) -> (r: Result<(), ConfigError>)
    ensures
        r is Ok <==> lang_value_ok(v.data()),
        r matches Err(e) ==> e is Invalid,
        invalid_is(r, lang_value_msg(v.data())),
{
    if let Some(s) = v.as_str() {
        if is_blank(s) {
            return Err(ConfigError::Invalid("build.language is empty".to_owned()));
        }
        return Ok(());
    }
    match v.as_array() {
        None => Err(ConfigError::Invalid("build.language must be string or array".to_owned())),
        Some(arr) => {
            if arr.len() == 0 {
                return Err(ConfigError::Invalid("build.language is empty".to_owned()));
            }
            if !all_items_nonblank(arr, Ghost(v.data()->Array_0)) {
                return Err(ConfigError::Invalid("build.language contains empty value".to_owned()));
            }
            Ok(())
        },
    }
}

fn check_present_nonblank(t: &TomlTable, profile: &str, key: &str) -> (r: Result<(), ConfigError>)
    ensures
        r is Ok <==> present_nonblank(t.data(), key@),
        r matches Err(e) ==> e is Invalid,
        invalid_is(r, present_msg(t.data(), profile@, key@)),
{
    if let Some(v) = t.get(key) {
        if is_blank(str_or_empty_of(v)) {
            return Err(invalid_in(profile, key, " is empty"));
        }
    }
    Ok(())
}

fn check_str_array(t: &TomlTable, profile: &str, key: &str) -> (r: Result<(), ConfigError>)
    ensures
        r is Ok <==> str_array_ok(t.data(), key@),
        r matches Err(e) ==> e is Invalid,
        invalid_is(r, str_array_msg(t.data(), profile@, key@)),
{
    match t.get(key) {
        None => Ok(()),
        Some(v) => match v.as_array() {
            None => Err(invalid_in(profile, key, " must be an array of strings")),
            Some(arr) => {
                if !all_items_nonblank(arr, Ghost(v.data()->Array_0)) {
                    return Err(invalid_in(profile, key, " contains empty value"));
                }
                Ok(())
            },
        },
    }
}

fn check_step_field(s: &TomlTable, profile: &str, key: &str, req: &str) -> (r: Result<(), ConfigError>)
    ensures
        r is Ok <==> field_nonblank(s.data(), req@),
        r matches Err(e) ==> e is Invalid,
        invalid_is(r, step_field_msg(s.data(), profile@, key@, req@)),
{
    let text = match s.get(req) {
        Some(v) => str_or_empty_of(v),
        None => {
            proof { reveal_strlit(""); }
            ""
        },
    };
    if is_blank(text) {
        let mut tail = " missing ".to_owned();
        tail.append(req);
        return Err(invalid_in(profile, key, tail.as_str()));
    }
    Ok(())
}

fn check_steps(t: &TomlTable, profile: &str, key: &str) -> (r: Result<(), ConfigError>)
    ensures
        r is Ok <==> steps_ok(t.data(), key@),
        r matches Err(e) ==> e is Invalid,
        invalid_is(r, steps_msg(t.data(), profile@, key@)),
{
    match t.get(key) {
        None => Ok(()),
        Some(v) => match v.as_array() {
            None => Err(invalid_in(profile, key, " must be an array")),
            Some(arr) => {
                let ghost d = v.data()->Array_0;
                let mut i: usize = 0;
                while i < arr.len()
                    invariant
                        i <= arr@.len(),
                        d == v.data()->Array_0,
                        v.data() is Array,
                        data_get(t.data(), key@) == Some(v.data()),
                        d.len() == arr@.len(),
                        forall|j: int| 0 <= j < arr@.len() ==> #[trigger] d[j] == arr@[j].data(),
                        forall|j: int| 0 <= j < i ==> step_ok(#[trigger] d[j]),
                        steps_from(d, profile@, key@, 0) == steps_from(d, profile@, key@, i as int),
                    decreases arr@.len() - i,
                {
                    match arr[i].as_table() {
                        None => {
                            assert(!step_ok(d[i as int]));
                            let e = invalid_in(profile, key, " entries must be tables");
                            assert(steps_from(d, profile@, key@, i as int) == step_msg(d[i as int], profile@, key@));
                            return Err(e);
                        },
                        Some(st) => {
                            let r1 = check_step_field(st, profile, key, "name");
                            let r2 = check_step_field(st, profile, key, "in");
                            let r3 = check_step_field(st, profile, key, "out");
                            let r4 = check_step_field(st, profile, key, "cmd");
                            if r1.is_err() || r2.is_err() || r3.is_err() || r4.is_err() {
                                assert(!step_ok(d[i as int]));
                                let e = if let Err(e) = r1 {
                                    e
                                } else if let Err(e) = r2 {
                                    e
                                } else if let Err(e) = r3 {
                                    e
                                } else if let Err(e) = r4 {
                                    e
                                } else {
                                    ConfigError::Invalid(key.to_owned())
                                };
                                assert(step_msg(d[i as int], profile@, key@) is Some);
                                assert(steps_from(d, profile@, key@, i as int) == step_msg(d[i as int], profile@, key@));
                                return Err(e);
                            }
                            assert(step_msg(d[i as int], profile@, key@) is None);
                            assert(steps_from(d, profile@, key@, i as int) == steps_from(d, profile@, key@, i + 1));
                        },
                    }
                    i = i + 1;
                }
                assert(steps_from(d, profile@, key@, i as int) is None);
                Ok(())
            },
        },
    }
}

/// Checks one profile section (`[build.release]` or `[build.debug]`).
fn validate_profile_section(profile: &str, t: &TomlTable) -> (r: Result<(), ConfigError>)
    ensures
        r is Ok <==> profile_section_ok(t.data()),
        r matches Err(e) ==> e is Invalid,
        invalid_is(r, section_msg(t.data(), profile@)),
{
    if let Some(lang) = t.get("language") {
        validate_language_value(lang)?;
    }
    check_present_nonblank(t, profile, "standard")?;
    check_present_nonblank(t, profile, "compiler")?;
    check_present_nonblank(t, profile, "kind")?;
    check_present_nonblank(t, profile, "target")?;
    check_present_nonblank(t, profile, "platform")?;
    if let Some(k) = t.get("kind") {
        if let Some(kind) = k.as_str() {
            if !is_blank(kind) && !is_valid_kind(trim(kind)) {
                return Err(invalid3("build.", profile, ".kind is invalid"));
            }
        }
    }
    if let Some(sd) = t.get("src_disable") {
        if !sd.is_bool() {
            return Err(invalid3("build.", profile, ".src_disable must be boolean"));
        }
    }
    check_str_array(t, profile, "cflags")?;
    check_str_array(t, profile, "ldflags")?;
    check_str_array(t, profile, "exclude")?;
    check_str_array(t, profile, "include")?;
    check_str_array(t, profile, "roots")?;
    check_str_array(t, profile, "pkg_config")?;
    check_str_array(t, profile, "generated")?;
    check_str_array(t, profile, "expect")?;
    check_str_array(t, profile, "clean")?;
    check_str_array(t, profile, "targets")?;
    check_steps(t, profile, "steps")?;
    check_steps(t, profile, "post_steps")?;
    Ok(())
}

/// Whether `kind` is one of the known build kinds.
pub fn is_valid_kind(kind: &str) -> (r: bool)
    ensures
        r == valid_kind(kind@),
{
    str_eq(kind, "bin") || str_eq(kind, "staticlib") || str_eq(kind, "sharedlib") || str_eq(kind, "efi")
        || str_eq(kind, "elf")
}

/// Checks every member of the workspace table, if the document has one.
fn validate_workspace(root: &TomlTable) -> (r: Result<(), ConfigError>)
    ensures
        r is Ok <==> workspace_valid(root.data()),
        r matches Err(e) ==> e is Invalid,
        invalid_is(r, workspace_msg(root.data())),
{
    let w = match root.get("workspace") {
        Some(v) => match v.as_table() {
            Some(w) => w,
            None => {
                return Ok(());
            },
        },
        None => {
            return Ok(());
        },
    };
    let ghost ww = w.data();
    let n = w.len();
    let mut i: usize = 0;
    while i < n
        invariant
            n == ww.len(),
            ww == w.data(),
            data_get(root.data(), "workspace"@) == Some(TomlData::Table(ww)),
            i <= n,
            forall|j: int| 0 <= j < i ==> member_valid(#[trigger] ww[j].1),
            members_msg(ww, 0) == members_msg(ww, i as int),
        decreases n - i,
    {
        let (name, value) = w.entry(i);
        match value.as_table() {
            None => {
                proof { lemma_workspace_invalid(root.data(), ww, i as int); }
                let e = invalid3("workspace.", name.as_str(), " must be a table");
                assert(members_msg(ww, i as int) == member_msg(ww[i as int].0, ww[i as int].1));
                return Err(e);
            },
            Some(m) => {
                let path = match m.get("path") {
                    Some(p) => str_or_empty_of(p),
                    None => {
                        proof { reveal_strlit(""); }
                        ""
                    },
                };
                if is_blank(path) {
                    proof { lemma_workspace_invalid(root.data(), ww, i as int); }
                    let e = invalid3("workspace.", name.as_str(), ".path is empty");
                    assert(members_msg(ww, i as int) == member_msg(ww[i as int].0, ww[i as int].1));
                    return Err(e);
                }
                if let Some(deps) = m.get("deps") {
                    match deps.as_array() {
                        None => {
                            proof { lemma_workspace_invalid(root.data(), ww, i as int); }
                            let e = invalid3("workspace.", name.as_str(), ".deps must be array");
                            assert(members_msg(ww, i as int) == member_msg(ww[i as int].0, ww[i as int].1));
                            return Err(e);
                        },
                        Some(arr) => {
                            if !all_items_nonblank(arr, Ghost(deps.data()->Array_0)) {
                                proof { lemma_workspace_invalid(root.data(), ww, i as int); }
                                let e = invalid3("workspace.", name.as_str(), ".deps contains empty value");
                                assert(members_msg(ww, i as int) == member_msg(ww[i as int].0, ww[i as int].1));
                                return Err(e);
                            }
                        },
                    }
                }
            },
        }
        assert(member_msg(ww[i as int].0, ww[i as int].1) is None);
        assert(members_msg(ww, i as int) == members_msg(ww, i + 1));
        i = i + 1;
    }
    assert(members_msg(ww, i as int) is None);
    Ok(())
}

proof fn lemma_workspace_invalid(t: Seq<(Seq<char>, TomlData)>, ww: Seq<(Seq<char>, TomlData)>, i: int)
    requires
        data_get(t, "workspace"@) == Some(TomlData::Table(ww)),
        0 <= i < ww.len(),
        !member_valid(ww[i].1),
    ensures
        !workspace_valid(t),
{
    assert(!(forall|j: int| 0 <= j < ww.len() ==> member_valid(#[trigger] ww[j].1)));
    assert(data_get(t, "workspace"@) matches Some(TomlData::Table(w)) && w == ww);
}

/// Checks the profile section `profile` of the build table, if it has one.
fn validate_profile(build: &TomlTable, profile: &str) -> (r: Result<(), ConfigError>)
    ensures
        r is Ok <==> profile_ok(build.data(), profile@),
        r matches Err(e) ==> e is Invalid,
        invalid_is(r, profile_msg(build.data(), profile@)),
{
    match build.get(profile) {
        None => Ok(()),
        Some(section) => match section.as_table() {
            None => Err(invalid3("build.", profile, " must be a table")),
            Some(t) => validate_profile_section(profile, t),
        },
    }
}

/// Checks every rule of a configuration (see `config_valid`), given its document and the typed
/// configuration read out of it.
pub fn validate(typed: &DcrConfig, doc: &TomlValue) -> (r: Result<(), ConfigError>)
    requires
        typed_ok(doc.data()),
        typed_matches(doc.data(), *typed),
    ensures
        r is Ok <==> config_valid(doc.data()),
        r matches Err(e) ==> e is Invalid,
        invalid_is(r, config_msg(doc.data())),
{
    let root = match doc.as_table() {
        Some(t) => t,
        None => {
            return Err(ConfigError::Invalid("root is not a table".to_owned()));
        },
    };
    let ghost t = root.data();
    let ghost b = table_field(t, "build"@)->0;
    if is_blank(typed.package.name.as_str()) {
        return Err(ConfigError::Invalid("package.name is empty".to_owned()));
    }
    if is_blank(typed.package.version.as_str()) {
        return Err(ConfigError::Invalid("package.version is empty".to_owned()));
    }
    validate_package_name(typed.package.name.as_str())?;
    if let Some(pkg_type) = &typed.package.pkg_type {
        let pt = trim(pkg_type.as_str());
        if !is_blank(pkg_type.as_str()) && !str_eq(pt, "lib") && !str_eq(pt, "app") && !str_eq(pt, "none") {
            return Err(ConfigError::Invalid("package.type must be 'lib', 'app', or 'none'".to_owned()));
        }
    }
    proof {
        lemma_language_ok(b, typed.build.language);
        lemma_language_msg(b, typed.build.language);
    }
    validate_language_config(&typed.build.language, "build.language")?;
    if is_blank(typed.build.standard.as_str()) {
        return Err(ConfigError::Invalid("build.standard is empty".to_owned()));
    }
    if is_blank(typed.build.compiler.as_str()) {
        return Err(ConfigError::Invalid("build.compiler is empty".to_owned()));
    }
    if let Some(platform) = &typed.build.platform {
        if is_blank(platform.as_str()) {
            return Err(ConfigError::Invalid("build.platform is empty".to_owned()));
        }
    }
    validate_toolchain(typed.toolchain.as_ref())?;
    if let Some(kind) = &typed.build.kind {
        if !is_blank(kind.as_str()) && !is_valid_kind(trim(kind.as_str())) {
            return Err(ConfigError::Invalid("build.kind is invalid".to_owned()));
        }
    }
    validate_string_list(&typed.build.exclude, "build.exclude")?;
    validate_string_list(&typed.build.include_globs, "build.include")?;
    validate_string_list(&typed.build.roots, "build.roots")?;
    validate_string_list(&typed.build.clean, "build.clean")?;
    validate_string_list(&typed.build.cflags, "build.cflags")?;
    validate_string_list(&typed.build.ldflags, "build.ldflags")?;
    if let Some(target) = &typed.build.target {
        validate_non_empty_string(target.as_str(), "build.target")?;
    }
    let build = match root.get("build") {
        Some(v) => match v.as_table() {
            Some(bt) => bt,
            None => {
                return Err(ConfigError::Invalid("missing [build]".to_owned()));
            },
        },
        None => {
            return Err(ConfigError::Invalid("missing [build]".to_owned()));
        },
    };
    validate_profile(build, "release")?;
    validate_profile(build, "debug")?;
    validate_workspace(root)?;
    Ok(())
}

/// For a language setting read out of the build table, its rule is the rule on the document's
/// value.
proof fn lemma_language_ok(b: Seq<(Seq<char>, TomlData)>, l: LanguageConfig)
    requires
        match l {
            LanguageConfig::One(s) => data_get(b, "language"@) == Some(TomlData::Str(s@)),
            LanguageConfig::Many(v) => data_get(b, "language"@) matches Some(TomlData::Array(a)) && views(v@)
                == strs_of(a) && forall|i: int| 0 <= i < a.len() ==> #[trigger] a[i] is Str,
        },
    ensures
        language_config_ok(l) == lang_value_ok(data_get(b, "language"@)->0),
{
    match l {
        LanguageConfig::One(s) => {
            assert(lang_values(l) =~= seq![s@]);
            assert(lang_values(l)[0] == s@);
            if !blank(s@) {
                assert forall|i: int| 0 <= i < lang_values(l).len() implies !blank(#[trigger] lang_values(l)[i]) by {
                    assert(i == 0);
                }
            }
        },
        LanguageConfig::Many(v) => {
            let a = data_get(b, "language"@)->0->Array_0;
            assert(lang_values(l) == strs_of(a));
            assert(forall|i: int| 0 <= i < a.len() ==> #[trigger] strs_of(a)[i] == str_or_empty(a[i]));
            assert(all_nonblank(lang_values(l)) == items_nonblank(a)) by {
                if all_nonblank(lang_values(l)) {
                    assert forall|i: int| 0 <= i < a.len() implies item_nonblank(#[trigger] a[i]) by {
                        assert(!blank(lang_values(l)[i]));
                    }
                }
                if items_nonblank(a) {
                    assert forall|i: int| 0 <= i < lang_values(l).len() implies !blank(#[trigger] lang_values(l)[i]) by {
                        assert(item_nonblank(a[i]));
                    }
                }
            }
        },
    }
}

/// For a language setting read out of the build table, its message is the message of the
/// document's value.
proof fn lemma_language_msg(b: Seq<(Seq<char>, TomlData)>, l: LanguageConfig)
    requires
        match l {
            LanguageConfig::One(s) => data_get(b, "language"@) == Some(TomlData::Str(s@)),
            LanguageConfig::Many(v) => data_get(b, "language"@) matches Some(TomlData::Array(a)) && views(v@)
                == strs_of(a) && forall|i: int| 0 <= i < a.len() ==> #[trigger] a[i] is Str,
        },
    ensures
        lang_config_msg(l, "build.language"@) == doc_lang_msg(data_get(b, "language"@)->0),
{
    lemma_language_ok(b, l);
    match l {
        LanguageConfig::One(s) => {
            assert(lang_values(l) =~= seq![s@]);
            assert(language_config_ok(l) == !blank(s@));
            assert(all_nonblank(lang_values(l)) == !blank(s@));
            assert(doc_lang_msg(data_get(b, "language"@)->0) == blank_msg(s@, "build.language"@));
            assert(lang_values(l).len() == 1);
            assert(lang_config_msg(l, "build.language"@) == list_msg(lang_values(l), "build.language"@));
            assert(list_msg(lang_values(l), "build.language"@) == blank_msg(s@, "build.language"@));
        },
        LanguageConfig::Many(v) => {
            let a = data_get(b, "language"@)->0->Array_0;
            assert(lang_values(l).len() == a.len());
        },
    }
}

} // verus!
