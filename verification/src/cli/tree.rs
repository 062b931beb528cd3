//! `dcr tree`: where each dependency lives, how it is labelled, and how the lines of the tree
//! are drawn.
use vstd::prelude::*;
use crate::cli::run::{str_at, str_or_empty};
use crate::project::config::Config;
use crate::project::value::{data_get, TomlData, TomlValue};
use crate::utils::paths::{join, join_path};
use crate::utils::strings::{starts, starts_with, strip_prefix};

verus! {

/// The first line of the tree: `<name> v<version>` (`unknown` and `0.0.0` when unset).
pub open spec fn tree_header_of(d: TomlData) -> Seq<char> {
    (match str_at(d, "package.name"@) {
        Some(n) => n,
        None => "unknown"@,
    }) + " v"@ + match str_at(d, "package.version"@) {
        Some(v) => v,
        None => "0.0.0"@,
    }
}

/// The first line of the tree (see `tree_header_of`).
pub fn tree_header(config: &Config) -> (r: String)
    ensures
        r@ == tree_header_of(config.doc()),
{
    let name = match config.get("package.name") {
        Some(v) => match v.as_str() {
            Some(s) => s,
            None => "unknown",
        },
        None => "unknown",
    };
    let version = match config.get("package.version") {
        Some(v) => match v.as_str() {
            Some(s) => s,
            None => "0.0.0",
        },
        None => "0.0.0",
    };
    let mut r = name.to_owned();
    r.append(" v");
    r.append(version);
    r
}

/// Where a dependency lives, against `base`: a `path:` string, or a table's `path`.
pub open spec fn tree_dep_path_of(d: TomlData, base: Seq<char>) -> Option<Seq<char>> {
    match d {
        TomlData::Str(s) => if starts(s, "path:"@) {
            Some(join_path(base, s.subrange("path:"@.len() as int, s.len() as int)))
        } else {
            None
        },
        TomlData::Table(t) => match data_get(t, "path"@) {
            Some(TomlData::Str(p)) => Some(join_path(base, p)),
            _ => None,
        },
        _ => None,
    }
}

/// Where a dependency lives (see `tree_dep_path_of`).
pub fn resolve_dep_path(value: &TomlValue, base: &str) -> (r: Option<String>)
    ensures
        match r {
            Some(p) => tree_dep_path_of(value.data(), base@) == Some(p@),
            None => tree_dep_path_of(value.data(), base@) is None,
        },
{
    if let Some(s) = value.as_str() {
        return match strip_prefix(s, "path:") {
            Some(rest) => Some(join(base, rest)),
            None => None,
        };
    }
    if let Some(t) = value.as_table() {
        return match t.get("path") {
            Some(p) => match p.as_str() {
                Some(ps) => Some(join(base, ps)),
                None => None,
            },
            None => None,
        };
    }
    None
}

/// How a dependency is labelled when its own configuration gives no version: a `git:` or
/// `github:` string in brackets; a table's ` v<version>`, else its `git` in brackets; else
/// nothing.
pub open spec fn tree_label_of(d: TomlData) -> Seq<char> {
    match d {
        TomlData::Str(s) => if starts(s, "git:"@) || starts(s, "github:"@) {
            " ("@ + s + ")"@
        } else {
            Seq::empty()
        },
        TomlData::Table(t) => match data_get(t, "version"@) {
            Some(TomlData::Str(v)) => " v"@ + v,
            _ => match data_get(t, "git"@) {
                Some(TomlData::Str(g)) => " ("@ + g + ")"@,
                _ => Seq::empty(),
            },
        },
        _ => Seq::empty(),
    }
}

fn bracketed(s: &str) -> (r: String)
    ensures
        r@ == " ("@ + s@ + ")"@,
{
    let mut r = " (".to_owned();
    r.append(s);
    r.append(")");
    r
}

fn versioned(v: &str) -> (r: String)
    ensures
        r@ == " v"@ + v@,
{
    let mut r = " v".to_owned();
    r.append(v);
    r
}

/// How a dependency is labelled (see `tree_label_of`), given the version its own
/// configuration states, if any: ` v<version>` then.
pub fn tree_label(value: &TomlValue, own_version: Option<&str>) -> (r: String)
    ensures
        r@ == match own_version {
            Some(v) => " v"@ + v@,
            None => tree_label_of(value.data()),
        },
{
    if let Some(v) = own_version {
        return versioned(v);
    }
    if let Some(s) = value.as_str() {
        if starts_with(s, "git:") || starts_with(s, "github:") {
            return bracketed(s);
        }
        return String::new();
    }
    if let Some(t) = value.as_table() {
        if let Some(v) = t.get("version") {
            if let Some(vs) = v.as_str() {
                return versioned(vs);
            }
        }
        if let Some(g) = t.get("git") {
            if let Some(gs) = g.as_str() {
                return bracketed(gs);
            }
        }
        return String::new();
    }
    String::new()
}

/// A line of the tree: the prefix, the connector (`└── ` for the last entry, `├── ` before),
/// the name and the label.
pub open spec fn tree_line_of(prefix: Seq<char>, last: bool, name: Seq<char>, label: Seq<char>) -> Seq<char> {
    prefix + (if last {
        "\u{2514}\u{2500}\u{2500} "@
    } else {
        "\u{251c}\u{2500}\u{2500} "@
    }) + name + label
}

/// A line of the tree (see `tree_line_of`).
pub fn tree_line(prefix: &str, last: bool, name: &str, label: &str) -> (r: String)
    ensures
        r@ == tree_line_of(prefix@, last, name@, label@),
{
    let mut r = prefix.to_owned();
    r.append(if last {
        "\u{2514}\u{2500}\u{2500} "
    } else {
        "\u{251c}\u{2500}\u{2500} "
    });
    r.append(name);
    r.append(label);
    r
}

/// The prefix of an entry's children: four spaces below the last entry, a bar before.
pub open spec fn child_prefix_of(prefix: Seq<char>, last: bool) -> Seq<char> {
    prefix + if last {
        "    "@
    } else {
        "\u{2502}   "@
    }
}

/// The prefix of an entry's children (see `child_prefix_of`).
pub fn tree_child_prefix(prefix: &str, last: bool) -> (r: String)
    ensures
        r@ == child_prefix_of(prefix@, last),
{
    let mut r = prefix.to_owned();
    r.append(if last {
        "    "
    } else {
        "\u{2502}   "
    });
    r
}

} // verus!
