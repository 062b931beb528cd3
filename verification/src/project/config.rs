//! The project file `dcr.toml`: its document, its typed sections and the rules it must meet.
use vstd::prelude::*;
use crate::project::value::{
    data_at, data_get, get_path, parse_toml, path_blocked, set_effect, set_path, toml_document,
    toml_error, TomlData, TomlTable, TomlValue, blocking_key, not_a_table,
};
use crate::project::format::{format_toml, toml_text, writable};
use crate::project::rules::{blank, config_msg, config_valid, name_msg, package_name_ok, validate};
use crate::utils::strings::{
    owned, chars_of, is_ascii_alnum, is_ascii_alphanumeric, lemma_split_join, lemma_split_nonempty, lemma_split_plain,
    split_char, split_seq, str_eq, trim, trim_seq, views,
};

verus! {

/// Why a configuration could not be read, written or accepted.
pub enum ConfigError {
    Io(String),
    TomlDe(String),
    TomlSer(String),
    Invalid(String),
}

impl ConfigError {
    /// The message that describes the error (`I/O error: ...`, `Invalid config: ...`).
    pub fn message(&self) -> (m: String)
        ensures
            match self {
                ConfigError::Io(e) => m@ == "I/O error: "@ + e@,
                ConfigError::TomlDe(e) => m@ == "TOML parse error: "@ + e@,
                ConfigError::TomlSer(e) => m@ == "TOML serialize error: "@ + e@,
                ConfigError::Invalid(e) => m@ == "Invalid config: "@ + e@,
            },
    {
        let mut m = String::new();
        match self {
            ConfigError::Io(e) => {
                m.append("I/O error: ");
                m.append(e.as_str());
            },
            ConfigError::TomlDe(e) => {
                m.append("TOML parse error: ");
                m.append(e.as_str());
            },
            ConfigError::TomlSer(e) => {
                m.append("TOML serialize error: ");
                m.append(e.as_str());
            },
            ConfigError::Invalid(e) => {
                m.append("Invalid config: ");
                m.append(e.as_str());
            },
        }
        m
    }
}

/// The `[package]` section.
pub struct PackageConfig {
    pub name: String,
    pub version: String,
    pub pkg_type: Option<String>,
}

/// `build.language`: one language or several.
pub enum LanguageConfig {
    One(String),
    Many(Vec<String>),
}

/// The `[build]` section.
pub struct BuildConfig {
    pub language: LanguageConfig,
    pub standard: String,
    pub compiler: String,
    pub kind: Option<String>,
    pub target: Option<String>,
    pub platform: Option<String>,
    pub cflags: Vec<String>,
    pub ldflags: Vec<String>,
    pub exclude: Vec<String>,
    pub include_globs: Vec<String>,
    pub roots: Vec<String>,
    pub clean: Vec<String>,
    pub src_disable: Option<bool>,
}

/// A dependency: a version string or a table of settings.
pub enum DependencyConfig {
    Version(String),
    Table(TomlTable),
}

/// The `[toolchain]` section.
pub struct ToolchainConfig {
    pub cc: Option<String>,
    pub cxx: Option<String>,
    pub assembler: Option<String>,
    pub ar: Option<String>,
    pub ld: Option<String>,
}

/// A member of `[workspace]`.
pub struct WorkspaceMemberConfig {
    pub path: String,
    pub deps: Vec<String>,
}

/// The typed view of `dcr.toml`.
pub struct DcrConfig {
    pub package: PackageConfig,
    pub build: BuildConfig,
    pub dependencies: Vec<(String, DependencyConfig)>,
    pub toolchain: Option<ToolchainConfig>,
    pub workspace: Vec<(String, WorkspaceMemberConfig)>,
}

// ---------------------------------------------------------------------------------------------
// Reading typed fields out of table data. A field that is missing and has a default takes it;
// a field that is present must have the right type.
// ---------------------------------------------------------------------------------------------

/// A required string field (`None`: missing or not a string).
pub open spec fn req_str(t: Seq<(Seq<char>, TomlData)>, k: Seq<char>) -> Option<Seq<char>> {
    match data_get(t, k) {
        Some(TomlData::Str(s)) => Some(s),
        _ => None,
    }
}

/// An optional string field (`None`: present but not a string).
pub open spec fn opt_str(t: Seq<(Seq<char>, TomlData)>, k: Seq<char>) -> Option<Option<Seq<char>>> {
    match data_get(t, k) {
        None => Some(None),
        Some(TomlData::Str(s)) => Some(Some(s)),
        _ => None,
    }
}

/// An optional boolean field (`None`: present but not a boolean).
pub open spec fn opt_bool(t: Seq<(Seq<char>, TomlData)>, k: Seq<char>) -> Option<Option<bool>> {
    match data_get(t, k) {
        None => Some(None),
        Some(TomlData::Bool(b)) => Some(Some(b)),
        _ => None,
    }
}

/// Array data that holds only strings.
pub open spec fn all_strs(a: Seq<TomlData>) -> bool {
    forall|i: int| 0 <= i < a.len() ==> #[trigger] a[i] is Str
}

/// The strings of array data that holds only strings.
pub open spec fn strs_of(a: Seq<TomlData>) -> Seq<Seq<char>> {
    a.map_values(|d: TomlData| d->Str_0)
}

/// A list-of-strings field with an empty default (`None`: present but not such a list).
pub open spec fn str_list(t: Seq<(Seq<char>, TomlData)>, k: Seq<char>) -> Option<Seq<Seq<char>>> {
    match data_get(t, k) {
        None => Some(Seq::empty()),
        Some(TomlData::Array(a)) => if all_strs(a) {
            Some(strs_of(a))
        } else {
            None
        },
        _ => None,
    }
}

/// A section that must be a table.
pub open spec fn table_field(t: Seq<(Seq<char>, TomlData)>, k: Seq<char>) -> Option<Seq<(Seq<char>, TomlData)>> {
    match data_get(t, k) {
        Some(TomlData::Table(s)) => Some(s),
        _ => None,
    }
}

/// `build.language` is a string or a list of strings.
pub open spec fn language_ok(t: Seq<(Seq<char>, TomlData)>) -> bool {
    match data_get(t, "language"@) {
        Some(TomlData::Str(_)) => true,
        Some(TomlData::Array(a)) => all_strs(a),
        _ => false,
    }
}

/// The typed `[package]` section can be read.
pub open spec fn package_ok(p: Seq<(Seq<char>, TomlData)>) -> bool {
    req_str(p, "name"@) is Some && req_str(p, "version"@) is Some && opt_str(p, "type"@) is Some
}

/// The typed `[build]` section can be read.
pub open spec fn build_ok(b: Seq<(Seq<char>, TomlData)>) -> bool {
    &&& language_ok(b)
    &&& req_str(b, "standard"@) is Some
    &&& req_str(b, "compiler"@) is Some
    &&& opt_str(b, "kind"@) is Some
    &&& opt_str(b, "target"@) is Some
    &&& opt_str(b, "platform"@) is Some
    &&& str_list(b, "cflags"@) is Some
    &&& str_list(b, "ldflags"@) is Some
    &&& str_list(b, "exclude"@) is Some
    &&& str_list(b, "include"@) is Some
    &&& str_list(b, "roots"@) is Some
    &&& str_list(b, "clean"@) is Some
    &&& opt_bool(b, "src_disable"@) is Some
}

/// Each dependency is a version string or a table.
pub open spec fn dependencies_ok(t: Seq<(Seq<char>, TomlData)>) -> bool {
    match data_get(t, "dependencies"@) {
        None => true,
        Some(TomlData::Table(d)) => forall|i: int| 0 <= i < d.len() ==> (#[trigger] d[i].1 is Str || d[i].1 is Table),
        _ => false,
    }
}

/// The toolchain section, if present, is a table of optional strings.
pub open spec fn toolchain_ok(t: Seq<(Seq<char>, TomlData)>) -> bool {
    match data_get(t, "toolchain"@) {
        None => true,
        Some(TomlData::Table(c)) => opt_str(c, "cc"@) is Some && opt_str(c, "cxx"@) is Some && opt_str(c, "as"@)
            is Some && opt_str(c, "ar"@) is Some && opt_str(c, "ld"@) is Some,
        _ => false,
    }
}

/// A workspace member is a table with a string `path` and a list of strings `deps`.
pub open spec fn member_ok(d: TomlData) -> bool {
    match d {
        TomlData::Table(m) => req_str(m, "path"@) is Some && str_list(m, "deps"@) is Some,
        _ => false,
    }
}

/// The workspace section, if present, is a table of members.
pub open spec fn workspace_ok(t: Seq<(Seq<char>, TomlData)>) -> bool {
    match data_get(t, "workspace"@) {
        None => true,
        Some(TomlData::Table(w)) => forall|i: int| 0 <= i < w.len() ==> member_ok(#[trigger] w[i].1),
        _ => false,
    }
}

/// The document can be read as the typed configuration.
pub open spec fn typed_ok(d: TomlData) -> bool {
    match d {
        TomlData::Table(t) => {
            &&& table_field(t, "package"@) matches Some(p) && package_ok(p)
            &&& table_field(t, "build"@) matches Some(b) && build_ok(b)
            &&& dependencies_ok(t)
            &&& toolchain_ok(t)
            &&& workspace_ok(t)
        },
        _ => false,
    }
}

// ---------------------------------------------------------------------------------------------
// The message of the first field a document fails to read, in the order the fields are read.
// ---------------------------------------------------------------------------------------------

/// The message of a required field that is missing: ``missing field `<k>` ``.
pub open spec fn missing_msg(k: Seq<char>) -> Seq<char> {
    "missing field `"@ + k + "`"@
}

/// The message of a field of the wrong type: ``invalid type for `<k>` ``.
pub open spec fn bad_type_msg(k: Seq<char>) -> Seq<char> {
    "invalid type for `"@ + k + "`"@
}

/// The first of two messages.
pub open spec fn de_or(a: Option<Seq<char>>, b: Option<Seq<char>>) -> Option<Seq<char>> {
    if a is Some {
        a
    } else {
        b
    }
}

/// A required string field.
pub open spec fn req_de(t: Seq<(Seq<char>, TomlData)>, k: Seq<char>) -> Option<Seq<char>> {
    match data_get(t, k) {
        Some(TomlData::Str(_)) => None,
        Some(_) => Some(bad_type_msg(k)),
        None => Some(missing_msg(k)),
    }
}

/// An optional string field.
pub open spec fn opt_str_de(t: Seq<(Seq<char>, TomlData)>, k: Seq<char>) -> Option<Seq<char>> {
    match data_get(t, k) {
        Some(TomlData::Str(_)) => None,
        Some(_) => Some(bad_type_msg(k)),
        None => None,
    }
}

/// An optional boolean field.
pub open spec fn opt_bool_de(t: Seq<(Seq<char>, TomlData)>, k: Seq<char>) -> Option<Seq<char>> {
    match data_get(t, k) {
        Some(TomlData::Bool(_)) => None,
        Some(_) => Some(bad_type_msg(k)),
        None => None,
    }
}

/// An optional array of strings.
pub open spec fn list_de(t: Seq<(Seq<char>, TomlData)>, k: Seq<char>) -> Option<Seq<char>> {
    match data_get(t, k) {
        Some(TomlData::Array(a)) => if all_strs(a) {
            None
        } else {
            Some(bad_type_msg(k))
        },
        Some(_) => Some(bad_type_msg(k)),
        None => None,
    }
}

/// A required table.
pub open spec fn section_de(t: Seq<(Seq<char>, TomlData)>, k: Seq<char>) -> Option<Seq<char>> {
    match data_get(t, k) {
        Some(TomlData::Table(_)) => None,
        Some(_) => Some(bad_type_msg(k)),
        None => Some(missing_msg(k)),
    }
}

/// The `[package]` fields.
pub open spec fn package_de(p: Seq<(Seq<char>, TomlData)>) -> Option<Seq<char>> {
    de_or(req_de(p, "name"@), de_or(req_de(p, "version"@), opt_str_de(p, "type"@)))
}

/// The language field: a string or an array of strings.
pub open spec fn language_de(b: Seq<(Seq<char>, TomlData)>) -> Option<Seq<char>> {
    match data_get(b, "language"@) {
        Some(TomlData::Str(_)) => None,
        Some(TomlData::Array(a)) => if all_strs(a) {
            None
        } else {
            Some(bad_type_msg("language"@))
        },
        Some(_) => Some(bad_type_msg("language"@)),
        None => Some(missing_msg("language"@)),
    }
}

/// The `[build]` fields, in the order they are read.
pub open spec fn build_de(b: Seq<(Seq<char>, TomlData)>) -> Option<Seq<char>> {
    de_or(language_de(b),
    de_or(req_de(b, "standard"@),
    de_or(req_de(b, "compiler"@),
    de_or(opt_str_de(b, "kind"@),
    de_or(opt_str_de(b, "target"@),
    de_or(opt_str_de(b, "platform"@),
    de_or(list_de(b, "cflags"@),
    de_or(list_de(b, "ldflags"@),
    de_or(list_de(b, "exclude"@),
    de_or(list_de(b, "include"@),
    de_or(list_de(b, "roots"@),
    de_or(list_de(b, "clean"@), opt_bool_de(b, "src_disable"@)))))))))))))
}

/// The first dependency from the `i`-th on that is neither a string nor a table.
pub open spec fn deps_from_de(d: Seq<(Seq<char>, TomlData)>, i: int) -> Option<Seq<char>>
    decreases d.len() - i,
{
    if i < 0 || i >= d.len() {
        None
    } else if d[i].1 is Str || d[i].1 is Table {
        deps_from_de(d, i + 1)
    } else {
        Some(bad_type_msg(d[i].0))
    }
}

/// The `[dependencies]` table, if there is one.
pub open spec fn deps_de(t: Seq<(Seq<char>, TomlData)>) -> Option<Seq<char>> {
    match data_get(t, "dependencies"@) {
        Some(TomlData::Table(d)) => deps_from_de(d, 0),
        Some(_) => Some(bad_type_msg("dependencies"@)),
        None => None,
    }
}

/// The `[toolchain]` table, if there is one.
pub open spec fn toolchain_de(t: Seq<(Seq<char>, TomlData)>) -> Option<Seq<char>> {
    match data_get(t, "toolchain"@) {
        Some(TomlData::Table(c)) => de_or(opt_str_de(c, "cc"@),
            de_or(opt_str_de(c, "cxx"@),
            de_or(opt_str_de(c, "as"@), de_or(opt_str_de(c, "ar"@), opt_str_de(c, "ld"@))))),
        Some(_) => Some(bad_type_msg("toolchain"@)),
        None => None,
    }
}

/// A workspace member.
pub open spec fn member_de(d: TomlData) -> Option<Seq<char>> {
    match d {
        TomlData::Table(m) => de_or(req_de(m, "path"@), list_de(m, "deps"@)),
        _ => Some(bad_type_msg("workspace"@)),
    }
}

/// The first faulty workspace member from the `i`-th on.
pub open spec fn members_de(w: Seq<(Seq<char>, TomlData)>, i: int) -> Option<Seq<char>>
    decreases w.len() - i,
{
    if i < 0 || i >= w.len() {
        None
    } else {
        de_or(member_de(w[i].1), members_de(w, i + 1))
    }
}

/// The `[workspace]` table, if there is one.
pub open spec fn workspace_de(t: Seq<(Seq<char>, TomlData)>) -> Option<Seq<char>> {
    match data_get(t, "workspace"@) {
        Some(TomlData::Table(w)) => members_de(w, 0),
        Some(_) => Some(bad_type_msg("workspace"@)),
        None => None,
    }
}

/// The message of the first field a document fails to read as the typed configuration, in the
/// order the fields are read; none when it reads (see `typed_ok`).
pub open spec fn typed_msg(d: TomlData) -> Option<Seq<char>> {
    match d {
        TomlData::Table(t) => de_or(section_de(t, "package"@),
            de_or(section_de(t, "build"@),
            de_or(package_de(table_field(t, "package"@)->0),
            de_or(build_de(table_field(t, "build"@)->0),
            de_or(deps_de(t), de_or(toolchain_de(t), workspace_de(t))))))),
        _ => Some(bad_type_msg("root"@)),
    }
}

/// The result fails with `TomlDe` and this message, or succeeds when there is none.
pub open spec fn de_is<T>(r: Result<T, ConfigError>, m: Option<Seq<char>>) -> bool {
    match m {
        Some(msg) => r matches Err(ConfigError::TomlDe(e)) && e@ == msg,
        None => r is Ok,
    }
}

/// The view of an optional string.
pub open spec fn opt_view(o: Option<String>) -> Option<Seq<char>> {
    match o {
        Some(s) => Some(s@),
        None => None,
    }
}

/// A dependency holds what its document entry holds.
pub open spec fn dep_matches(d: TomlData, c: DependencyConfig) -> bool {
    match c {
        DependencyConfig::Version(s) => d == TomlData::Str(s@),
        DependencyConfig::Table(t) => d == TomlData::Table(t.data()),
    }
}

/// A workspace member holds what its document entry holds.
pub open spec fn member_matches(d: TomlData, c: WorkspaceMemberConfig) -> bool {
    &&& req_str(d->Table_0, "path"@) == Some(c.path@)
    &&& str_list(d->Table_0, "deps"@) == Some(views(c.deps@))
}

/// The toolchain section holds what its document table holds.
pub open spec fn toolchain_matches(c: Seq<(Seq<char>, TomlData)>, tc: ToolchainConfig) -> bool {
    &&& opt_str(c, "cc"@) == Some(opt_view(tc.cc))
    &&& opt_str(c, "cxx"@) == Some(opt_view(tc.cxx))
    &&& opt_str(c, "as"@) == Some(opt_view(tc.assembler))
    &&& opt_str(c, "ar"@) == Some(opt_view(tc.ar))
    &&& opt_str(c, "ld"@) == Some(opt_view(tc.ld))
}

/// The typed `[package]` section holds what the document holds.
pub open spec fn package_matches(p: Seq<(Seq<char>, TomlData)>, c: PackageConfig) -> bool {
    &&& Some(c.name@) == req_str(p, "name"@)
    &&& Some(c.version@) == req_str(p, "version"@)
    &&& Some(opt_view(c.pkg_type)) == opt_str(p, "type"@)
}

/// The typed `[build]` section holds what the document holds.
pub open spec fn build_matches(b: Seq<(Seq<char>, TomlData)>, c: BuildConfig) -> bool {
    &&& match c.language {
        LanguageConfig::One(s) => data_get(b, "language"@) == Some(TomlData::Str(s@)),
        LanguageConfig::Many(v) => data_get(b, "language"@) matches Some(TomlData::Array(a)) && views(v@) == strs_of(a),
    }
    &&& Some(c.standard@) == req_str(b, "standard"@)
    &&& Some(c.compiler@) == req_str(b, "compiler"@)
    &&& Some(opt_view(c.kind)) == opt_str(b, "kind"@)
    &&& Some(opt_view(c.target)) == opt_str(b, "target"@)
    &&& Some(opt_view(c.platform)) == opt_str(b, "platform"@)
    &&& Some(views(c.cflags@)) == str_list(b, "cflags"@)
    &&& Some(views(c.ldflags@)) == str_list(b, "ldflags"@)
    &&& Some(views(c.exclude@)) == str_list(b, "exclude"@)
    &&& Some(views(c.include_globs@)) == str_list(b, "include"@)
    &&& Some(views(c.roots@)) == str_list(b, "roots"@)
    &&& Some(views(c.clean@)) == str_list(b, "clean"@)
    &&& Some(c.src_disable) == opt_bool(b, "src_disable"@)
}

/// The entries of an optional table section (none when it is missing).
pub open spec fn section_entries(t: Seq<(Seq<char>, TomlData)>, k: Seq<char>) -> Seq<(Seq<char>, TomlData)> {
    match data_get(t, k) {
        Some(TomlData::Table(s)) => s,
        _ => Seq::empty(),
    }
}

/// The typed configuration holds what the document holds.
pub open spec fn typed_matches(d: TomlData, c: DcrConfig) -> bool {
    let t = d->Table_0;
    let deps = section_entries(t, "dependencies"@);
    let ws = section_entries(t, "workspace"@);
    &&& package_matches(table_field(t, "package"@)->0, c.package)
    &&& build_matches(table_field(t, "build"@)->0, c.build)
    &&& c.dependencies@.len() == deps.len()
    &&& forall|i: int| 0 <= i < deps.len() ==> (#[trigger] c.dependencies@[i]).0@ == deps[i].0 && dep_matches(deps[i].1, c.dependencies@[i].1)
    &&& match c.toolchain {
        Some(tc) => data_get(t, "toolchain"@) matches Some(TomlData::Table(tt)) && toolchain_matches(tt, tc),
        None => data_get(t, "toolchain"@) is None,
    }
    &&& c.workspace@.len() == ws.len()
    &&& forall|i: int| 0 <= i < ws.len() ==> (#[trigger] c.workspace@[i]).0@ == ws[i].0 && member_matches(ws[i].1, c.workspace@[i].1)
}

// ---------------------------------------------------------------------------------------------
// Reading the typed configuration out of the document.
// ---------------------------------------------------------------------------------------------

fn missing_field(k: &str) -> (e: ConfigError)
    ensures
        e is TomlDe,
        e matches ConfigError::TomlDe(m) && m@ == missing_msg(k@),
{
    let mut m = String::new();
    m.append("missing field `");
    m.append(k);
    m.append("`");
    ConfigError::TomlDe(m)
}

fn invalid_type(k: &str) -> (e: ConfigError)
    ensures
        e is TomlDe,
        e matches ConfigError::TomlDe(m) && m@ == bad_type_msg(k@),
{
    let mut m = String::new();
    m.append("invalid type for `");
    m.append(k);
    m.append("`");
    ConfigError::TomlDe(m)
}

fn field_req_str(t: &TomlTable, k: &str) -> (r: Result<String, ConfigError>)
    ensures
        match r {
            Ok(s) => req_str(t.data(), k@) == Some(s@),
            Err(e) => req_str(t.data(), k@) is None && e is TomlDe,
        },
        de_is(r, req_de(t.data(), k@)),
{
    match t.get(k) {
        Some(v) => match v.as_str() {
            Some(s) => Ok(owned(s)),
            None => Err(invalid_type(k)),
        },
        None => Err(missing_field(k)),
    }
}

fn field_opt_str(t: &TomlTable, k: &str) -> (r: Result<Option<String>, ConfigError>)
    ensures
        match r {
            Ok(o) => opt_str(t.data(), k@) == Some(opt_view(o)),
            Err(e) => opt_str(t.data(), k@) is None && e is TomlDe,
        },
        de_is(r, opt_str_de(t.data(), k@)),
{
    match t.get(k) {
        Some(v) => match v.as_str() {
            Some(s) => Ok(Some(owned(s))),
            None => Err(invalid_type(k)),
        },
        None => Ok(None),
    }
}

fn field_opt_bool(t: &TomlTable, k: &str) -> (r: Result<Option<bool>, ConfigError>)
    ensures
        match r {
            Ok(o) => opt_bool(t.data(), k@) == Some(o),
            Err(e) => opt_bool(t.data(), k@) is None && e is TomlDe,
        },
        de_is(r, opt_bool_de(t.data(), k@)),
{
    match t.get(k) {
        Some(v) => match v.as_bool() {
            Some(b) => Ok(Some(b)),
            None => Err(invalid_type(k)),
        },
        None => Ok(None),
    }
}

/// The strings of an array value that holds only strings.
pub fn value_strings(v: &TomlValue) -> (r: Option<Vec<String>>)
    ensures
        r is Some <==> (v.data() is Array && all_strs(v.data()->Array_0)),
        r matches Some(x) ==> views(x@) == strs_of(v.data()->Array_0),
{
    match v.as_array() {
        Some(a) => {
            let ghost d = v.data()->Array_0;
            let mut out: Vec<String> = Vec::new();
            let mut i: usize = 0;
            while i < a.len()
                invariant
                    i <= a@.len(),
                    d == v.data()->Array_0,
                    d.len() == a@.len(),
                    forall|j: int| 0 <= j < a@.len() ==> #[trigger] d[j] == a@[j].data(),
                    forall|j: int| 0 <= j < i ==> #[trigger] d[j] is Str,
                    views(out@) == strs_of(d.take(i as int)),
                decreases a@.len() - i,
            {
                match a[i].as_str() {
                    Some(s) => {
                        let o = owned(s);
                        let ghost prev = out@;
                        out.push(o);
                        proof {
                            assert(strs_of(d.take(i + 1)) =~= strs_of(d.take(i as int)).push(s@));
                            assert(views(out@) =~= views(prev).push(s@));
                        }
                    },
                    None => {
                        assert(!(d[i as int] is Str));
                        assert(!all_strs(d));
                        return None;
                    },
                }
                i = i + 1;
            }
            assert(d.take(i as int) =~= d);
            Some(out)
        },
        None => None,
    }
}

fn field_str_list(t: &TomlTable, k: &str) -> (r: Result<Vec<String>, ConfigError>)
    ensures
        match r {
            Ok(v) => str_list(t.data(), k@) == Some(views(v@)),
            Err(e) => str_list(t.data(), k@) is None && e is TomlDe,
        },
        de_is(r, list_de(t.data(), k@)),
{
    match t.get(k) {
        Some(v) => match value_strings(v) {
            Some(x) => Ok(x),
            None => Err(invalid_type(k)),
        },
        None => {
            let v: Vec<String> = Vec::new();
            assert(views(v@) =~= Seq::<Seq<char>>::empty());
            Ok(v)
        },
    }
}

fn section_table<'a>(t: &'a TomlTable, k: &str) -> (r: Result<&'a TomlTable, ConfigError>)
    ensures
        match r {
            Ok(s) => table_field(t.data(), k@) == Some(s.data()),
            Err(e) => table_field(t.data(), k@) is None && e is TomlDe,
        },
        de_is(r, section_de(t.data(), k@)),
{
    match t.get(k) {
        Some(v) => match v.as_table() {
            Some(s) => Ok(s),
            None => Err(invalid_type(k)),
        },
        None => Err(missing_field(k)),
    }
}

fn read_package(p: &TomlTable) -> (r: Result<PackageConfig, ConfigError>)
    ensures
        r is Ok <==> package_ok(p.data()),
        r matches Ok(c) ==> package_matches(p.data(), c),
        r matches Err(e) ==> e is TomlDe,
        de_is(r, package_de(p.data())),
{
    let name = field_req_str(p, "name")?;
    let version = field_req_str(p, "version")?;
    let pkg_type = field_opt_str(p, "type")?;
    Ok(PackageConfig { name, version, pkg_type })
}

fn read_language(b: &TomlTable) -> (r: Result<LanguageConfig, ConfigError>)
    ensures
        r is Ok <==> language_ok(b.data()),
        r matches Ok(c) ==> match c {
            LanguageConfig::One(s) => data_get(b.data(), "language"@) == Some(TomlData::Str(s@)),
            LanguageConfig::Many(v) => data_get(b.data(), "language"@) matches Some(TomlData::Array(a))
                && views(v@) == strs_of(a),
        },
        r matches Err(e) ==> e is TomlDe,
        de_is(r, language_de(b.data())),
{
    match b.get("language") {
        Some(v) => match v.as_str() {
            Some(s) => Ok(LanguageConfig::One(owned(s))),
            None => match value_strings(v) {
                Some(x) => Ok(LanguageConfig::Many(x)),
                None => Err(invalid_type("language")),
            },
        },
        None => Err(missing_field("language")),
    }
}

fn read_build(b: &TomlTable) -> (r: Result<BuildConfig, ConfigError>)
    ensures
        r is Ok <==> build_ok(b.data()),
        r matches Ok(c) ==> build_matches(b.data(), c),
        r matches Err(e) ==> e is TomlDe,
        de_is(r, build_de(b.data())),
{
    let language = read_language(b)?;
    let standard = field_req_str(b, "standard")?;
    let compiler = field_req_str(b, "compiler")?;
    let kind = field_opt_str(b, "kind")?;
    let target = field_opt_str(b, "target")?;
    let platform = field_opt_str(b, "platform")?;
    let cflags = field_str_list(b, "cflags")?;
    let ldflags = field_str_list(b, "ldflags")?;
    let exclude = field_str_list(b, "exclude")?;
    let include_globs = field_str_list(b, "include")?;
    let roots = field_str_list(b, "roots")?;
    let clean = field_str_list(b, "clean")?;
    let src_disable = field_opt_bool(b, "src_disable")?;
    Ok(BuildConfig {
        language,
        standard,
        compiler,
        kind,
        target,
        platform,
        cflags,
        ldflags,
        exclude,
        include_globs,
        roots,
        clean,
        src_disable,
    })
}

fn read_dependencies(t: &TomlTable) -> (r: Result<Vec<(String, DependencyConfig)>, ConfigError>)
    ensures
        r is Ok <==> dependencies_ok(t.data()),
        r matches Ok(c) ==> {
            let deps = section_entries(t.data(), "dependencies"@);
            &&& c@.len() == deps.len()
            &&& forall|i: int| 0 <= i < deps.len() ==> (#[trigger] c@[i]).0@ == deps[i].0 && dep_matches(deps[i].1, c@[i].1)
        },
        r matches Err(e) ==> e is TomlDe,
        de_is(r, deps_de(t.data())),
{
    let mut out: Vec<(String, DependencyConfig)> = Vec::new();
    match t.get("dependencies") {
        None => Ok(out),
        Some(v) => match v.as_table() {
            None => Err(invalid_type("dependencies")),
            Some(d) => {
                let ghost dd = d.data();
                let mut i: usize = 0;
                let n = d.len();
                while i < n
                    invariant
                        n == dd.len(),
                        dd == d.data(),
                        dd == section_entries(t.data(), "dependencies"@),
                        i <= n,
                        out@.len() == i,
                        forall|j: int| 0 <= j < i ==> (#[trigger] out@[j]).0@ == dd[j].0 && dep_matches(dd[j].1, out@[j].1),
                        forall|j: int| 0 <= j < i ==> (#[trigger] dd[j].1 is Str || dd[j].1 is Table),
                        deps_from_de(dd, 0) == deps_from_de(dd, i as int),
                    decreases n - i,
                {
                    let (k, x) = d.entry(i);
                    match x.as_str() {
                        Some(s) => {
                            out.push((k.clone(), DependencyConfig::Version(owned(s))));
                            assert(deps_from_de(dd, i as int) == deps_from_de(dd, i + 1));
                        },
                        None => match x.as_table() {
                            Some(xt) => {
                                out.push((k.clone(), DependencyConfig::Table(xt.deep_clone())));
                                assert(deps_from_de(dd, i as int) == deps_from_de(dd, i + 1));
                            },
                            None => {
                                assert(!(dd[i as int].1 is Str || dd[i as int].1 is Table));
                                assert(deps_from_de(dd, i as int) == Some(bad_type_msg(dd[i as int].0)));
                                return Err(invalid_type(k.as_str()));
                            },
                        },
                    }
                    i = i + 1;
                }
                assert(deps_from_de(dd, i as int) is None);
                Ok(out)
            },
        },
    }
}

fn read_toolchain(t: &TomlTable) -> (r: Result<Option<ToolchainConfig>, ConfigError>)
    ensures
        r is Ok <==> toolchain_ok(t.data()),
        r matches Ok(c) ==> match c {
            Some(tc) => data_get(t.data(), "toolchain"@) matches Some(TomlData::Table(tt)) && toolchain_matches(tt, tc),
            None => data_get(t.data(), "toolchain"@) is None,
        },
        r matches Err(e) ==> e is TomlDe,
        de_is(r, toolchain_de(t.data())),
{
    match t.get("toolchain") {
        None => Ok(None),
        Some(v) => match v.as_table() {
            None => Err(invalid_type("toolchain")),
            Some(c) => {
                let cc = field_opt_str(c, "cc")?;
                let cxx = field_opt_str(c, "cxx")?;
                let assembler = field_opt_str(c, "as")?;
                let ar = field_opt_str(c, "ar")?;
                let ld = field_opt_str(c, "ld")?;
                Ok(Some(ToolchainConfig { cc, cxx, assembler, ar, ld }))
            },
        },
    }
}

fn read_member(v: &TomlValue) -> (r: Result<WorkspaceMemberConfig, ConfigError>)
    ensures
        r is Ok <==> member_ok(v.data()),
        r matches Ok(c) ==> member_matches(v.data(), c),
        r matches Err(e) ==> e is TomlDe,
        de_is(r, member_de(v.data())),
{
    match v.as_table() {
        None => Err(invalid_type("workspace")),
        Some(m) => {
            let path = field_req_str(m, "path")?;
            let deps = field_str_list(m, "deps")?;
            Ok(WorkspaceMemberConfig { path, deps })
        },
    }
}

fn read_workspace(t: &TomlTable) -> (r: Result<Vec<(String, WorkspaceMemberConfig)>, ConfigError>)
    ensures
        r is Ok <==> workspace_ok(t.data()),
        r matches Ok(c) ==> {
            let ws = section_entries(t.data(), "workspace"@);
            &&& c@.len() == ws.len()
            &&& forall|i: int| 0 <= i < ws.len() ==> (#[trigger] c@[i]).0@ == ws[i].0 && member_matches(ws[i].1, c@[i].1)
        },
        r matches Err(e) ==> e is TomlDe,
        de_is(r, workspace_de(t.data())),
{
    let mut out: Vec<(String, WorkspaceMemberConfig)> = Vec::new();
    match t.get("workspace") {
        None => Ok(out),
        Some(v) => match v.as_table() {
            None => Err(invalid_type("workspace")),
            Some(w) => {
                let ghost ww = w.data();
                let mut i: usize = 0;
                let n = w.len();
                while i < n
                    invariant
                        n == ww.len(),
                        ww == w.data(),
                        ww == section_entries(t.data(), "workspace"@),
                        i <= n,
                        out@.len() == i,
                        forall|j: int| 0 <= j < i ==> (#[trigger] out@[j]).0@ == ww[j].0 && member_matches(ww[j].1, out@[j].1),
                        forall|j: int| 0 <= j < i ==> member_ok(#[trigger] ww[j].1),
                        members_de(ww, 0) == members_de(ww, i as int),
                    decreases n - i,
                {
                    let (k, x) = w.entry(i);
                    match read_member(x) {
                        Ok(m) => {
                            out.push((k.clone(), m));
                            assert(members_de(ww, i as int) == members_de(ww, i + 1));
                        },
                        Err(e) => {
                            assert(!member_ok(ww[i as int].1));
                            assert(members_de(ww, i as int) == member_de(ww[i as int].1));
                            return Err(e);
                        },
                    }
                    i = i + 1;
                }
                assert(members_de(ww, i as int) is None);
                Ok(out)
            },
        },
    }
}

/// Reads the typed configuration out of a document: `[package]` and `[build]` are required,
/// the other sections optional, and every field present must have its type.
pub fn typed_config(doc: &TomlValue) -> (r: Result<DcrConfig, ConfigError>)
    ensures
        r is Ok <==> typed_ok(doc.data()),
        r matches Ok(c) ==> typed_matches(doc.data(), c),
        r matches Err(e) ==> e is TomlDe,
        de_is(r, typed_msg(doc.data())),
{
    match doc.as_table() {
        None => Err(invalid_type("root")),
        Some(t) => {
            let p = section_table(t, "package")?;
            let b = section_table(t, "build")?;
            let package = read_package(p)?;
            let build = read_build(b)?;
            let dependencies = read_dependencies(t)?;
            let toolchain = read_toolchain(t)?;
            let workspace = read_workspace(t)?;
            Ok(DcrConfig { package, build, dependencies, toolchain, workspace })
        },
    }
}

// ---------------------------------------------------------------------------------------------
// The configuration file: its document and the typed view of it, always meeting the rules.
// ---------------------------------------------------------------------------------------------

/// A dotted key split at its dots.
pub open spec fn key_path(key: Seq<char>) -> Seq<Seq<char>> {
    split_seq(key, '.')
}

/// The loaded `dcr.toml`: where it lives, its document, and the typed configuration read out of
/// the document. The document can always be read as the typed configuration and meets every
/// rule of `config_valid`.
pub struct Config {
    path: String,
    data: TomlValue,
    typed: DcrConfig,
}

impl Config {
    #[verifier::type_invariant]
    spec fn wf(self) -> bool {
        &&& typed_ok(self.data.data())
        &&& typed_matches(self.data.data(), self.typed)
        &&& config_valid(self.data.data())
    }

    /// The document.
    pub closed spec fn doc(self) -> TomlData {
        self.data.data()
    }

    /// Where the file lives.
    pub closed spec fn file(self) -> Seq<char> {
        self.path@
    }

    /// The typed configuration.
    pub closed spec fn typed_view(self) -> DcrConfig {
        self.typed
    }

    /// A configuration from a document: it must read as the typed configuration and meet the
    /// rules.
    fn from_document(path: &str, data: TomlValue) -> (r: Result<Config, ConfigError>)
        ensures
            r is Ok <==> typed_ok(data.data()) && config_valid(data.data()),
            r matches Ok(c) ==> c.doc() == data.data() && c.file() == path@,
            r matches Err(e) ==> (if typed_ok(data.data()) { e is Invalid } else { e is TomlDe }),
            typed_ok(data.data()) ==> (r matches Err(e) ==> (e matches ConfigError::Invalid(m) && config_msg(data.data()) == Some(m@))),
            !typed_ok(data.data()) ==> (r matches Err(e) && e matches ConfigError::TomlDe(m) && typed_msg(data.data()) == Some(m@)),
    {
        let typed = typed_config(&data)?;
        validate(&typed, &data)?;
        Ok(Config { path: owned(path), data, typed })
    }

    /// Opens the configuration file at `path`, given its content (`None`: there is no such
    /// file).
    pub fn open(path: &str, content: Option<&str>) -> (r: Result<Config, ConfigError>)
        ensures
            content is None ==> (r matches Err(e) && e is Invalid),
            content matches Some(text) ==> {
                &&& r is Ok <==> (toml_document(text@) matches Some(d) && typed_ok(d) && config_valid(d))
                &&& r matches Ok(c) ==> Some(c.doc()) == toml_document(text@) && c.file() == path@
                &&& r matches Err(e) ==> match toml_document(text@) {
                    Some(d) => if typed_ok(d) {
                        e matches ConfigError::Invalid(m) && config_msg(d) == Some(m@)
                    } else {
                        e matches ConfigError::TomlDe(m) && typed_msg(d) == Some(m@)
                    },
                    None => e matches ConfigError::TomlDe(m) && m@ == toml_error(text@),
                }
            },
    {
        let text = match content {
            Some(t) => t,
            None => {
                return Err(ConfigError::Invalid("dcr.toml not found".to_owned()));
            },
        };
        let data = match parse_toml(text) {
            Ok(v) => v,
            Err(m) => {
                return Err(ConfigError::TomlDe(m));
            },
        };
        Config::from_document(path, data)
    }

    /// The configuration at `path`: read from `existing` (the file's content) when the file
    /// exists, else the default document for a project named `project_name` (which the caller
    /// writes to the file).
    pub fn new(path: &str, existing: Option<&str>, project_name: &str) -> (r: Result<Config, ConfigError>)
        ensures
            existing matches Some(content) ==> match r {
                Ok(c) => Some(c.doc()) == toml_document(content@) && c.file() == path@,
                Err(_) => !(toml_document(content@) matches Some(d) && typed_ok(d) && config_valid(d)),
            },
            existing is None ==> (r is Ok <==> !blank(project_name@) && package_name_ok(project_name@)),
            existing is None ==> (r matches Ok(c) ==> is_default_doc(c.doc(), project_name@) && c.file() == path@),
            existing is None ==> (r matches Err(e) ==> e is Invalid),
            existing is None ==> (r matches Err(e) ==> (e matches ConfigError::Invalid(m) && if blank(project_name@) {
                m@ == "package.name is empty"@
            } else {
                name_msg(project_name@) == Some(m@)
            })),
            existing matches Some(content) ==> (r matches Err(e) ==> match toml_document(content@) {
                Some(d) => if typed_ok(d) {
                    e matches ConfigError::Invalid(m) && config_msg(d) == Some(m@)
                } else {
                    e matches ConfigError::TomlDe(m) && typed_msg(d) == Some(m@)
                },
                None => e matches ConfigError::TomlDe(m) && m@ == toml_error(content@),
            }),
    {
        match existing {
            Some(content) => Config::open(path, Some(content)),
            None => {
                let data = default_toml(project_name);
                proof { lemma_default_doc(data.data(), project_name@); }
                let r = Config::from_document(path, data);
                proof {
                    if r is Err {
                        let d = data.data();
                        let t = d->Table_0;
                        let p = data_get(t, "package"@)->0->Table_0;
                        lemma_default_keys();
                        assert(data_get(p, "name"@) == default_package(project_name@, "name"@));
                        assert(data_get(p, "version"@) == default_package(project_name@, "version"@));
                        assert(table_field(t, "package"@) == Some(p));
                        assert(req_str(p, "name"@) == Some(project_name@));
                        reveal_strlit("0.1.0");
                        assert(!blank("0.1.0"@));
                        assert(req_str(p, "version"@) == Some("0.1.0"@));
                    }
                }
                r
            },
        }
    }

    /// The typed configuration.
    pub fn typed(&self) -> (r: &DcrConfig)
        ensures
            *r == self.typed_view(),
    {
        &self.typed
    }

    /// The `[package]` section.
    pub fn package(&self) -> (r: &PackageConfig)
        ensures
            *r == self.typed_view().package,
    {
        &self.typed.package
    }

    /// The `[build]` section.
    pub fn build_config(&self) -> (r: &BuildConfig)
        ensures
            *r == self.typed_view().build,
    {
        &self.typed.build
    }

    /// The document's root table (a configuration's document always is a table).
    pub fn root(&self) -> (r: Option<&TomlTable>)
        ensures
            r matches Some(t) && self.doc() == TomlData::Table(t.data()),
    {
        proof { use_type_invariant(self); }
        self.data.as_table()
    }

    /// Where the file lives.
    pub fn path(&self) -> (r: &str)
        ensures
            r@ == self.file(),
    {
        self.path.as_str()
    }

    /// The value at the dotted key `key` (`package.name`), if every step finds a table.
    pub fn get(&self, key: &str) -> (r: Option<&TomlValue>)
        ensures
            match r {
                Some(v) => data_at(self.doc(), key_path(key@)) == Some(v.data()),
                None => data_at(self.doc(), key_path(key@)) is None,
            },
    {
        let parts = split_char(key, '.');
        get_path(&self.data, &parts)
    }

    /// Whether the configuration meets the rules (it always does: a configuration that does
    /// not is never made).
    pub fn check(&self) -> (r: bool)
        ensures
            r == config_valid(self.doc()),
            r,
    {
        self.validate().is_ok()
    }

    /// Checks the rules again.
    pub fn validate(&self) -> (r: Result<(), ConfigError>)
        ensures
            r is Ok <==> config_valid(self.doc()),
            r is Ok,
    {
        proof { use_type_invariant(self); }
        validate(&self.typed, &self.data)
    }

    /// The text to write to the file: the document in the layout of `format_toml`. Fails when
    /// the document has no `[dependencies]` table.
    pub fn save(&self) -> (r: Result<String, ConfigError>)
        ensures
            r is Ok <==> writable(self.doc()),
            r matches Ok(text) ==> text@ == toml_text(self.doc()->Table_0),
            r matches Err(e) ==> e is Invalid,
            r matches Err(e) ==> (e matches ConfigError::Invalid(m) && m@ == "missing [dependencies]"@),
    {
        proof { use_type_invariant(self); }
        format_toml(&self.data)
    }

    /// Sets the dotted key `key` to `value` (`edit`).
    pub fn add(&mut self, key: &str, value: TomlValue) -> (r: Result<(), ConfigError>)
        ensures
            edit_outcome(old(self).doc(), key@, value.data(), final(self).doc(), r),
            final(self).file() == old(self).file(),
            r is Err ==> *final(self) == *old(self),
    {
        self.set(key, value)
    }

    /// Sets the dotted key `key` to `value`, creating the tables on the way. The change is kept
    /// only if the document still reads as the typed configuration and meets the rules;
    /// otherwise the configuration is left as it was and the error says why.
    pub fn edit(&mut self, key: &str, value: TomlValue) -> (r: Result<(), ConfigError>)
        ensures
            edit_outcome(old(self).doc(), key@, value.data(), final(self).doc(), r),
            final(self).file() == old(self).file(),
            r is Err ==> *final(self) == *old(self),
    {
        self.set(key, value)
    }

    fn set(&mut self, key: &str, value: TomlValue) -> (r: Result<(), ConfigError>)
        ensures
            edit_outcome(old(self).doc(), key@, value.data(), final(self).doc(), r),
            final(self).file() == old(self).file(),
            r is Err ==> *final(self) == *old(self),
    {
        proof { use_type_invariant(&*self); }
        let parts = split_char(key, '.');
        proof { lemma_split_nonempty(key@, '.'); }
        let ghost nv = value.data();
        let data = match set_path(&self.data, &parts, value) {
            Ok(d) => d,
            Err(m) => {
                return Err(ConfigError::Invalid(m));
            },
        };
        let typed = typed_config(&data)?;
        validate(&typed, &data)?;
        let path = self.path.clone();
        *self = Config { path, data, typed };
        Ok(())
    }
}

/// What an edit of `key` to `n` did, from document `before` to document `after`: on success
/// the key reads `n` and the rest is as before (`set_effect`), and the new document meets the
/// rules; on failure the key ran through a value that is not a table (the error names it), or
/// the document that the edit would make breaks the typed configuration (a `TomlDe` error) or a
/// rule (an `Invalid` error with that rule's message).
pub open spec fn edit_outcome(before: TomlData, key: Seq<char>, n: TomlData, after: TomlData, r: Result<(), ConfigError>) -> bool {
    let p = key_path(key);
    match r {
        Ok(_) => set_effect(before->Table_0, p, n, after->Table_0) && typed_ok(after) && config_valid(after),
        Err(e) => if path_blocked(before->Table_0, p) {
            e matches ConfigError::Invalid(m) && blocking_key(before->Table_0, p) matches Some(k) && m@ == not_a_table(k)
        } else {
            exists|nd: Seq<(Seq<char>, TomlData)>| #[trigger] set_effect(before->Table_0, p, n, nd) && !(typed_ok(
                TomlData::Table(nd),
            ) && config_valid(TomlData::Table(nd))) && if typed_ok(TomlData::Table(nd)) {
                e matches ConfigError::Invalid(m) && config_msg(TomlData::Table(nd)) == Some(m@)
            } else {
                e matches ConfigError::TomlDe(m) && typed_msg(TomlData::Table(nd)) == Some(m@)
            }
        },
    }
}

/// After a successful edit, the edited key reads the new value, every key below it reads what
/// the new value holds there, and every key neither above nor below it reads what it read before.
pub proof fn law_edit_reads_back(before: TomlData, key: Seq<char>, n: TomlData, after: TomlData)
    requires
        before is Table,
        edit_outcome(before, key, n, after, Ok(())),
    ensures
        data_at(after, key_path(key)) == Some(n),
        forall|q: Seq<Seq<char>>| #![trigger data_at(after, q)]
            key_path(key).is_prefix_of(q) ==> data_at(after, q) == data_at(n, q.skip(key_path(key).len() as int)),
        forall|q: Seq<Seq<char>>| #![trigger data_at(after, q)]
            !key_path(key).is_prefix_of(q) && !q.is_prefix_of(key_path(key)) ==> data_at(after, q) == data_at(before, q),
{
    assert(after is Table);
    assert(TomlData::Table(after->Table_0) == after);
    assert(TomlData::Table(before->Table_0) == before);
}

/// The path of the key `package.name`.
pub proof fn lemma_package_name_path()
    ensures
        key_path("package.name"@) == seq!["package"@, "name"@],
{
    reveal_strlit("package.name");
    reveal_strlit("package");
    reveal_strlit("name");
    assert("package.name"@ =~= "package"@ + seq!['.'] + "name"@);
    lemma_split_join("package"@, "name"@, '.');
    lemma_split_plain("package"@, '.');
    lemma_split_plain("name"@, '.');
    assert(seq!["package"@] + seq!["name"@] =~= seq!["package"@, "name"@]);
}

/// In a new project's document, `package` is a table, so `package.name` can be set.
pub proof fn lemma_default_not_blocked(d: TomlData, name: Seq<char>)
    requires
        is_default_doc(d, name),
    ensures
        !path_blocked(d->Table_0, seq!["package"@, "name"@]),
{
    reveal_with_fuel(path_blocked, 2);
    let pn = seq!["package"@, "name"@];
    assert(pn.drop_first() =~= seq!["name"@]);
    assert(pn[0] == "package"@);
    let c = data_get(d->Table_0, "package"@)->0->Table_0;
    assert(!path_blocked(c, pn.drop_first()));
}

/// Setting `package.name` of a new project's document to `n` gives the document of a new
/// project named `n`.
pub proof fn lemma_default_renamed(d: TomlData, old_name: Seq<char>, n: Seq<char>, nd: Seq<(Seq<char>, TomlData)>)
    requires
        is_default_doc(d, old_name),
        set_effect(d->Table_0, seq!["package"@, "name"@], TomlData::Str(n), nd),
    ensures
        is_default_doc(TomlData::Table(nd), n),
{
    lemma_default_keys();
    let t = d->Table_0;
    let p = data_get(t, "package"@)->0->Table_0;
    reveal_with_fuel(data_at, 3);
    let pn = seq!["package"@, "name"@];
    assert(data_at(TomlData::Table(nd), pn) == Some(TomlData::Str(n)));
    assert(pn.drop_first() =~= seq!["name"@]);
    let pc = data_get(nd, "package"@)->0;
    assert(data_get(nd, "package"@) is Some);
    assert(pc is Table);
    let q = pc->Table_0;
    assert forall|k: Seq<char>| #[trigger] data_get(q, k) == default_package(n, k) by {
        reveal_with_fuel(data_at, 3);
        let path = seq!["package"@, k];
        assert(path.drop_first() =~= seq![k]);
        assert(seq![k].drop_first() =~= Seq::<Seq<char>>::empty());
        if k == "name"@ {
            assert(path =~= pn);
        } else {
            assert(!pn.is_prefix_of(path)) by {
                assert(pn[1] != path[1]);
            }
            assert(!path.is_prefix_of(pn)) by {
                assert(pn[1] != path[1]);
            }
            assert(data_at(TomlData::Table(nd), path) == data_at(TomlData::Table(t), path));
            assert(data_get(p, k) == default_package(old_name, k));
        }
    }
    assert forall|k: Seq<char>| k != "package"@ implies #[trigger] data_get(nd, k) == data_get(t, k) by {
        let path = seq![k];
        assert(path.drop_first() =~= Seq::<Seq<char>>::empty());
        assert(!pn.is_prefix_of(path));
        assert(!path.is_prefix_of(pn)) by {
            assert(path[0] != pn[0]);
        }
        assert(data_at(TomlData::Table(nd), path) == data_at(TomlData::Table(t), path));
    }
    assert(data_get(nd, "build"@) == data_get(t, "build"@));
    assert(data_get(nd, "dependencies"@) == data_get(t, "dependencies"@));
}

// ---------------------------------------------------------------------------------------------
// The document of a new project.
// ---------------------------------------------------------------------------------------------

/// `[package]` of a new project named `name`.
pub open spec fn default_package(name: Seq<char>, k: Seq<char>) -> Option<TomlData> {
    if k == "name"@ {
        Some(TomlData::Str(name))
    } else if k == "version"@ {
        Some(TomlData::Str("0.1.0"@))
    } else if k == "type"@ {
        Some(TomlData::Str("none"@))
    } else if k == "description"@ || k == "author"@ {
        Some(TomlData::Str(Seq::empty()))
    } else if k == "license"@ {
        Some(TomlData::Str("GPL-3.0-or-later"@))
    } else {
        None
    }
}

/// `[build]` of a new project.
pub open spec fn default_build(k: Seq<char>) -> Option<TomlData> {
    if k == "language"@ {
        Some(TomlData::Str("c"@))
    } else if k == "standard"@ {
        Some(TomlData::Str("c11"@))
    } else if k == "compiler"@ {
        Some(TomlData::Str("clang"@))
    } else if k == "kind"@ {
        Some(TomlData::Str("bin"@))
    } else {
        None
    }
}

/// The document of a new project named `name`: `[package]`, `[build]` and an empty
/// `[dependencies]`, nothing else.
pub open spec fn is_default_doc(d: TomlData, name: Seq<char>) -> bool {
    &&& d is Table
    &&& data_get(d->Table_0, "package"@) matches Some(TomlData::Table(p)) && forall|k: Seq<char>| #[trigger] data_get(p, k) == default_package(name, k)
    &&& data_get(d->Table_0, "build"@) matches Some(TomlData::Table(b)) && forall|k: Seq<char>| #[trigger] data_get(b, k) == default_build(k)
    &&& data_get(d->Table_0, "dependencies"@) matches Some(TomlData::Table(dd)) && dd.len() == 0
    &&& forall|k: Seq<char>| k != "package"@ && k != "build"@ && k != "dependencies"@ ==> #[trigger] data_get(d->Table_0, k) is None
}

/// The lengths and first characters of the keys of a new project's document (enough to tell
/// them apart).
proof fn lemma_default_keys()
    ensures
        "name"@.len() == 4,
        "name"@[0] == 'n',
        "version"@.len() == 7,
        "version"@[0] == 'v',
        "type"@.len() == 4,
        "type"@[0] == 't',
        "description"@.len() == 11,
        "description"@[0] == 'd',
        "author"@.len() == 6,
        "author"@[0] == 'a',
        "license"@.len() == 7,
        "license"@[0] == 'l',
        "language"@.len() == 8,
        "language"@[0] == 'l',
        "standard"@.len() == 8,
        "standard"@[0] == 's',
        "compiler"@.len() == 8,
        "compiler"@[0] == 'c',
        "kind"@.len() == 4,
        "kind"@[0] == 'k',
        "package"@.len() == 7,
        "package"@[0] == 'p',
        "build"@.len() == 5,
        "build"@[0] == 'b',
        "dependencies"@.len() == 12,
        "dependencies"@[0] == 'd',
        "toolchain"@.len() == 9,
        "toolchain"@[0] == 't',
        "workspace"@.len() == 9,
        "workspace"@[0] == 'w',
        "target"@.len() == 6,
        "target"@[0] == 't',
        "platform"@.len() == 8,
        "platform"@[0] == 'p',
        "cflags"@.len() == 6,
        "cflags"@[0] == 'c',
        "ldflags"@.len() == 7,
        "ldflags"@[0] == 'l',
        "exclude"@.len() == 7,
        "exclude"@[0] == 'e',
        "include"@.len() == 7,
        "include"@[0] == 'i',
        "roots"@.len() == 5,
        "roots"@[0] == 'r',
        "clean"@.len() == 5,
        "clean"@[0] == 'c',
        "src_disable"@.len() == 11,
        "src_disable"@[0] == 's',
        "release"@.len() == 7,
        "release"@[0] == 'r',
        "debug"@.len() == 5,
        "debug"@[0] == 'd',
{
    reveal_strlit("name");
    reveal_strlit("version");
    reveal_strlit("type");
    reveal_strlit("description");
    reveal_strlit("author");
    reveal_strlit("license");
    reveal_strlit("language");
    reveal_strlit("standard");
    reveal_strlit("compiler");
    reveal_strlit("kind");
    reveal_strlit("package");
    reveal_strlit("build");
    reveal_strlit("dependencies");
    reveal_strlit("toolchain");
    reveal_strlit("workspace");
    reveal_strlit("target");
    reveal_strlit("platform");
    reveal_strlit("cflags");
    reveal_strlit("ldflags");
    reveal_strlit("exclude");
    reveal_strlit("include");
    reveal_strlit("roots");
    reveal_strlit("clean");
    reveal_strlit("src_disable");
    reveal_strlit("release");
    reveal_strlit("debug");
}

fn insert_str(t: &mut TomlTable, k: &str, v: &str)
    ensures
        forall|x: Seq<char>| #[trigger] final(t).lookup(x) == if x == k@ {
            Some(TomlData::Str(v@))
        } else {
            old(t).lookup(x)
        },
{
    t.insert(owned(k), TomlValue::from_str(owned(v)));
}

/// The document of a new project named `name`.
pub fn default_toml(name: &str) -> (v: TomlValue)
    ensures
        is_default_doc(v.data(), name@),
{
    let mut package = TomlTable::new();
    insert_str(&mut package, "name", name);
    insert_str(&mut package, "version", "0.1.0");
    insert_str(&mut package, "type", "none");
    insert_str(&mut package, "description", "");
    insert_str(&mut package, "author", "");
    insert_str(&mut package, "license", "GPL-3.0-or-later");
    proof {
        lemma_default_keys();
        reveal_strlit("");
        assert(""@ =~= Seq::<char>::empty());
    }
    assert(forall|k: Seq<char>| #[trigger] package.lookup(k) == default_package(name@, k));
    let mut build = TomlTable::new();
    insert_str(&mut build, "language", "c");
    insert_str(&mut build, "standard", "c11");
    insert_str(&mut build, "compiler", "clang");
    insert_str(&mut build, "kind", "bin");
    assert(forall|k: Seq<char>| #[trigger] build.lookup(k) == default_build(k));
    let ghost pk = package;
    let ghost bk = build;
    let deps = TomlTable::new();
    let ghost dk = deps;
    let mut root = TomlTable::new();
    root.insert(owned("package"), TomlValue::from_table(package));
    root.insert(owned("build"), TomlValue::from_table(build));
    root.insert(owned("dependencies"), TomlValue::from_table(deps));
    assert(root.lookup("package"@) == Some(TomlData::Table(pk.data())));
    assert(root.lookup("build"@) == Some(TomlData::Table(bk.data())));
    assert(root.lookup("dependencies"@) == Some(TomlData::Table(dk.data())));
    assert forall|k: Seq<char>| k != "package"@ && k != "build"@ && k != "dependencies"@ implies #[trigger] data_get(
        root.data(),
        k,
    ) is None by {
        assert(root.lookup(k) is None);
    }
    assert forall|k: Seq<char>| #[trigger] data_get(pk.data(), k) == default_package(name@, k) by {
        assert(pk.lookup(k) == default_package(name@, k));
    }
    assert forall|k: Seq<char>| #[trigger] data_get(bk.data(), k) == default_build(k) by {
        assert(bk.lookup(k) == default_build(k));
    }
    TomlValue::from_table(root)
}

/// The document of a new project reads as the typed configuration, and meets the rules exactly
/// when the project's name is a valid package name.
pub proof fn lemma_default_doc(d: TomlData, name: Seq<char>)
    requires
        is_default_doc(d, name),
    ensures
        typed_ok(d),
        config_valid(d) == (!blank(name) && package_name_ok(name)),
{
    lemma_default_keys();
    let t = d->Table_0;
    let p = data_get(t, "package"@)->0->Table_0;
    let b = data_get(t, "build"@)->0->Table_0;
    assert(data_get(p, "name"@) == default_package(name, "name"@));
    assert(data_get(p, "version"@) == default_package(name, "version"@));
    assert(data_get(p, "type"@) == default_package(name, "type"@));
    assert(data_get(b, "language"@) == default_build("language"@));
    assert(data_get(b, "standard"@) == default_build("standard"@));
    assert(data_get(b, "compiler"@) == default_build("compiler"@));
    assert(data_get(b, "kind"@) == default_build("kind"@));
    assert(data_get(b, "target"@) == default_build("target"@));
    assert(data_get(b, "platform"@) == default_build("platform"@));
    assert(data_get(b, "cflags"@) == default_build("cflags"@));
    assert(data_get(b, "ldflags"@) == default_build("ldflags"@));
    assert(data_get(b, "exclude"@) == default_build("exclude"@));
    assert(data_get(b, "include"@) == default_build("include"@));
    assert(data_get(b, "roots"@) == default_build("roots"@));
    assert(data_get(b, "clean"@) == default_build("clean"@));
    assert(data_get(b, "src_disable"@) == default_build("src_disable"@));
    assert(data_get(b, "release"@) == default_build("release"@));
    assert(data_get(b, "debug"@) == default_build("debug"@));
    lemma_default_keys();
    assert(data_get(t, "toolchain"@) is None);
    assert(data_get(t, "workspace"@) is None);
    reveal_strlit("0.1.0");
    reveal_strlit("none");
    reveal_strlit("c");
    reveal_strlit("c11");
    reveal_strlit("clang");
    reveal_strlit("bin");
    assert(trim_seq("0.1.0"@) == "0.1.0"@);
    assert(trim_seq("none"@) == "none"@);
    assert(trim_seq("c"@) == "c"@);
    assert(trim_seq("c11"@) == "c11"@);
    assert(trim_seq("clang"@) == "clang"@);
    assert(trim_seq("bin"@) == "bin"@);
    assert(strs_of(Seq::<TomlData>::empty()) =~= Seq::<Seq<char>>::empty());
}

} // verus!
