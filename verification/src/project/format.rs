//! Writing the configuration document back as the text of `dcr.toml`: the known keys of
//! `[package]`, `[build]`, `[toolchain]` and `[dependencies]` in a fixed layout, and every
//! other key after them, so that no key of the document is lost.
use vstd::prelude::*;
use crate::project::config::ConfigError;
use crate::project::rules::blank;
use crate::project::value::{data_get, TomlData, TomlTable, TomlValue};
use crate::cli::gen::{json_quoted, json_str};
use crate::utils::strings::{
    chars_of, decimal, is_ascii_alnum, is_ascii_alphanumeric, is_blank, join, join_seq, push_decimal, starts, starts_with,
    str_eq, views,
};

verus! {

/// `s` in double quotes.
pub open spec fn quoted(s: Seq<char>) -> Seq<char> {
    "\""@ + s + "\""@
}

/// The quoted strings among array items (other items are left out).
pub open spec fn quoted_items(a: Seq<TomlData>) -> Seq<Seq<char>>
    decreases a.len(),
{
    if a.len() == 0 {
        Seq::empty()
    } else {
        let init = quoted_items(a.drop_last());
        match a.last() {
            TomlData::Str(s) => init.push(quoted(s)),
            _ => init,
        }
    }
}

/// A value written as an array of strings: `["a", "b"]` (`[]` for a value that is not an
/// array).
pub open spec fn array_text(d: TomlData) -> Seq<char> {
    match d {
        TomlData::Array(a) => "["@ + join_seq(quoted_items(a), ", "@) + "]"@,
        _ => "[]"@,
    }
}

/// The string under `k`, or `dflt`.
pub open spec fn str_or(t: Seq<(Seq<char>, TomlData)>, k: Seq<char>, dflt: Seq<char>) -> Seq<char> {
    match data_get(t, k) {
        Some(TomlData::Str(s)) => s,
        _ => dflt,
    }
}

/// The line `k = "v"`.
pub open spec fn str_line(k: Seq<char>, v: Seq<char>) -> Seq<char> {
    k + " = "@ + quoted(v) + "\n"@
}

/// An optional `[package]` line: a string is quoted, an array written as one, anything else
/// left out.
pub open spec fn meta_line(p: Seq<(Seq<char>, TomlData)>, k: Seq<char>) -> Seq<char> {
    match data_get(p, k) {
        Some(TomlData::Str(s)) => str_line(k, s),
        Some(TomlData::Array(a)) => k + " = "@ + array_text(TomlData::Array(a)) + "\n"@,
        _ => Seq::empty(),
    }
}

/// The optional lines of `[package]`, in a fixed order.
pub open spec fn meta_lines(p: Seq<(Seq<char>, TomlData)>) -> Seq<char> {
    meta_line(p, "type"@) + meta_line(p, "description"@) + meta_line(p, "author"@) + meta_line(p, "authors"@)
        + meta_line(p, "homepage"@) + meta_line(p, "license"@) + meta_line(p, "repository"@) + meta_line(
        p,
        "readme"@,
    ) + meta_line(p, "keywords"@) + meta_line(p, "categories"@)
}

/// The `[package]` section: name, version and the optional lines in a fixed layout, then the
/// other keys, then its tables as sections.
pub open spec fn package_text(p: Seq<(Seq<char>, TomlData)>) -> Seq<char> {
    "[package]\n"@ + str_line("name"@, str_or(p, "name"@, Seq::empty())) + str_line(
        "version"@,
        str_or(p, "version"@, Seq::empty()),
    ) + meta_lines(p) + plain_lines(p, package_known()) + "\n"@ + sub_sections("package."@, p, package_known())
}

/// The language setting as written: a string as it is, an array as an array.
pub open spec fn language_text(b: Seq<(Seq<char>, TomlData)>) -> Seq<char> {
    match data_get(b, "language"@) {
        Some(TomlData::Str(s)) => s,
        Some(TomlData::Array(a)) => array_text(TomlData::Array(a)),
        _ => Seq::empty(),
    }
}

/// The `language` line: quoted unless the text begins with `[`.
pub open spec fn language_line(b: Seq<(Seq<char>, TomlData)>) -> Seq<char> {
    let l = language_text(b);
    if starts(l, "["@) {
        "language = "@ + l + "\n"@
    } else {
        str_line("language"@, l)
    }
}

/// An optional line for a string that is present and not blank.
pub open spec fn nonblank_line(t: Seq<(Seq<char>, TomlData)>, k: Seq<char>) -> Seq<char> {
    match data_get(t, k) {
        Some(TomlData::Str(s)) => if !blank(s) {
            str_line(k, s)
        } else {
            Seq::empty()
        },
        _ => Seq::empty(),
    }
}

/// An optional line for a value written as an array, when present.
pub open spec fn array_line(t: Seq<(Seq<char>, TomlData)>, k: Seq<char>) -> Seq<char> {
    match data_get(t, k) {
        Some(d) => k + " = "@ + array_text(d) + "\n"@,
        None => Seq::empty(),
    }
}

/// The `[build]` section: the main settings in a fixed layout, then the other keys, then its
/// tables (profiles, targets) as sections.
pub open spec fn build_text(b: Seq<(Seq<char>, TomlData)>) -> Seq<char> {
    build_head(b) + plain_lines(b, build_known()) + "\n"@ + sub_sections("build."@, b, build_known())
}

/// The fixed part of `[build]`: the header and the main settings.
pub open spec fn build_head(b: Seq<(Seq<char>, TomlData)>) -> Seq<char> {
    "[build]\n"@ + language_line(b) + str_line("standard"@, str_or(b, "standard"@, Seq::empty())) + str_line(
        "compiler"@,
        str_or(b, "compiler"@, Seq::empty()),
    ) + str_line("kind"@, str_or(b, "kind"@, "bin"@)) + nonblank_line(b, "target"@) + array_line(b, "cflags"@)
        + array_line(b, "ldflags"@)
}

/// The lines of the toolchain table.
pub open spec fn toolchain_lines(c: Seq<(Seq<char>, TomlData)>) -> Seq<char> {
    nonblank_line(c, "cc"@) + nonblank_line(c, "cxx"@) + nonblank_line(c, "as"@) + nonblank_line(c, "ar"@)
        + nonblank_line(c, "ld"@)
}

/// The `[toolchain]` section: the tools in a fixed layout, then the other keys, then its tables
/// (targets) as sections; written only when it has a line or a table.
pub open spec fn toolchain_text(root: Seq<(Seq<char>, TomlData)>) -> Seq<char> {
    match data_get(root, "toolchain"@) {
        Some(TomlData::Table(c)) => {
            let body = toolchain_lines(c) + plain_lines(c, toolchain_known());
            let subs = sub_sections("toolchain."@, c, toolchain_known());
            if body.len() > 0 || subs.len() > 0 {
                "[toolchain]\n"@ + body + "\n"@ + subs
            } else {
                Seq::empty()
            }
        },
        _ => Seq::empty(),
    }
}

/// An optional `k = "v"` part of an inline dependency table.
pub open spec fn dep_str_part(t: Seq<(Seq<char>, TomlData)>, k: Seq<char>) -> Seq<Seq<char>> {
    match data_get(t, k) {
        Some(TomlData::Str(s)) => seq![k + " = "@ + quoted(s)],
        _ => Seq::empty(),
    }
}

/// `true` or `false`.
pub open spec fn bool_text(b: bool) -> Seq<char> {
    if b {
        "true"@
    } else {
        "false"@
    }
}

/// An optional `k = true|false` part of an inline dependency table.
pub open spec fn dep_bool_part(t: Seq<(Seq<char>, TomlData)>, k: Seq<char>) -> Seq<Seq<char>> {
    match data_get(t, k) {
        Some(TomlData::Bool(b)) => seq![k + " = "@ + bool_text(b)],
        _ => Seq::empty(),
    }
}

/// The parts of an inline dependency table: the fixed ones in a fixed order, then the others in
/// key order.
pub open spec fn dep_parts(t: Seq<(Seq<char>, TomlData)>) -> Seq<Seq<char>> {
    dep_str_part(t, "version"@) + dep_str_part(t, "path"@) + dep_str_part(t, "git"@) + dep_str_part(t, "branch"@)
        + dep_str_part(t, "tag"@) + dep_str_part(t, "rev"@) + dep_bool_part(t, "default-features"@) + match data_get(
        t,
        "features"@,
    ) {
        Some(d) => seq!["features = "@ + array_text(d)],
        None => Seq::empty(),
    } + dep_bool_part(t, "system"@) + dep_extra_parts(t)
}

/// A dependency written as a TOML value: a string quoted, a table inline, anything else `""`.
pub open spec fn dep_text(d: TomlData) -> Seq<char> {
    match d {
        TomlData::Str(s) => quoted(s),
        TomlData::Table(t) => "{ "@ + join_seq(dep_parts(t), ", "@) + " }"@,
        _ => "\"\""@,
    }
}

/// The dependency lines, in key order.
pub open spec fn dep_lines(d: Seq<(Seq<char>, TomlData)>) -> Seq<char>
    decreases d.len(),
{
    if d.len() == 0 {
        Seq::empty()
    } else {
        dep_lines(d.drop_last()) + d.last().0 + " = "@ + dep_text(d.last().1) + "\n"@
    }
}

// ---------------------------------------------------------------------------------------------
// Any value, any key, any table: how the keys outside the fixed layout are written.
// ---------------------------------------------------------------------------------------------

/// A key that TOML takes bare: ASCII letters, digits, `-` and `_`.
pub open spec fn bare_key(k: Seq<char>) -> bool {
    k.len() > 0 && forall|i: int| 0 <= i < k.len() ==> is_ascii_alnum(#[trigger] k[i]) || k[i] == '-' || k[i] == '_'
}

/// A key as it is written: bare when TOML takes it bare, quoted otherwise.
pub open spec fn key_text(k: Seq<char>) -> Seq<char> {
    if bare_key(k) {
        k
    } else {
        json_quoted(k)
    }
}

/// An integer in decimal, with a `-` when it is negative.
pub open spec fn int_text(i: int) -> Seq<char> {
    if i < 0 {
        "-"@ + decimal((-i) as nat)
    } else {
        decimal(i as nat)
    }
}

/// A value as TOML writes it: a string quoted and escaped, an integer in decimal, a float and
/// a date-time as they were read, a boolean, an array of its items, a table inline.
pub open spec fn value_text(d: TomlData) -> Seq<char>
    decreases d,
{
    match d {
        TomlData::Str(s) => json_quoted(s),
        TomlData::Int(i) => int_text(i),
        TomlData::Float(s) => s,
        TomlData::Bool(b) => bool_text(b),
        TomlData::Datetime(s) => s,
        TomlData::Array(a) => "["@ + join_seq(item_texts(a), ", "@) + "]"@,
        TomlData::Table(t) => "{ "@ + join_seq(inline_parts(t), ", "@) + " }"@,
    }
}

/// The written items of an array.
pub open spec fn item_texts(a: Seq<TomlData>) -> Seq<Seq<char>>
    decreases a,
{
    if a.len() == 0 {
        Seq::empty()
    } else {
        item_texts(a.subrange(0, a.len() - 1)).push(value_text(a[a.len() - 1]))
    }
}

/// The `key = value` parts of an inline table.
pub open spec fn inline_parts(t: Seq<(Seq<char>, TomlData)>) -> Seq<Seq<char>>
    decreases t,
{
    if t.len() == 0 {
        Seq::empty()
    } else {
        inline_parts(t.subrange(0, t.len() - 1)).push(key_text(t[t.len() - 1].0) + " = "@ + value_text(t[t.len() - 1].1))
    }
}

/// The line of an entry of a section: its key and value, unless the key is one of `known`
/// (written elsewhere), or the value is a table (a section of its own).
pub open spec fn entry_line(e: (Seq<char>, TomlData), known: Seq<Seq<char>>) -> Seq<char> {
    if known.contains(e.0) || e.1 is Table {
        Seq::empty()
    } else {
        key_text(e.0) + " = "@ + value_text(e.1) + "\n"@
    }
}

/// The lines of the entries of a section, in key order (see `entry_line`).
pub open spec fn plain_lines(t: Seq<(Seq<char>, TomlData)>, known: Seq<Seq<char>>) -> Seq<char>
    decreases t.len(),
{
    if t.len() == 0 {
        Seq::empty()
    } else {
        plain_lines(t.drop_last(), known) + entry_line(t.last(), known)
    }
}

/// A table as a section `[path]`: its lines, a blank line, then its tables as sections below
/// it.
pub open spec fn table_section(path: Seq<char>, t: Seq<(Seq<char>, TomlData)>) -> Seq<char>
    decreases t, 1int,
{
    "["@ + path + "]\n"@ + plain_lines(t, Seq::empty()) + "\n"@ + sub_sections(path + "."@, t, Seq::empty())
}

/// The tables among the entries, in key order, each as a section named `prefix` and its key
/// (keys among `known` are left out).
pub open spec fn sub_sections(prefix: Seq<char>, t: Seq<(Seq<char>, TomlData)>, known: Seq<Seq<char>>) -> Seq<char>
    decreases t, 0int,
{
    if t.len() == 0 {
        Seq::empty()
    } else {
        sub_sections(prefix, t.subrange(0, t.len() - 1), known) + if known.contains(t[t.len() - 1].0) {
            Seq::empty()
        } else {
            match t[t.len() - 1].1 {
                TomlData::Table(c) => table_section(prefix + key_text(t[t.len() - 1].0), c),
                _ => Seq::empty(),
            }
        }
    }
}

/// The keys of `[package]` that the fixed layout writes.
pub open spec fn package_known() -> Seq<Seq<char>> {
    seq![
        "name"@, "version"@, "type"@, "description"@, "author"@, "authors"@, "homepage"@, "license"@, "repository"@,
        "readme"@, "keywords"@, "categories"@,
    ]
}

/// The keys of `[build]` that the fixed layout writes.
pub open spec fn build_known() -> Seq<Seq<char>> {
    seq!["language"@, "standard"@, "compiler"@, "kind"@, "target"@, "cflags"@, "ldflags"@]
}

/// The keys of `[toolchain]` that the fixed layout writes.
pub open spec fn toolchain_known() -> Seq<Seq<char>> {
    seq!["cc"@, "cxx"@, "as"@, "ar"@, "ld"@]
}

/// The keys of a dependency table that the fixed layout writes.
pub open spec fn dep_known() -> Seq<Seq<char>> {
    seq!["version"@, "path"@, "git"@, "branch"@, "tag"@, "rev"@, "default-features"@, "features"@, "system"@]
}

/// The tables of the root that have a fixed place.
pub open spec fn root_known() -> Seq<Seq<char>> {
    seq!["package"@, "build"@, "toolchain"@, "dependencies"@]
}

/// The `key = value` parts of a dependency table outside its fixed ones.
pub open spec fn dep_extra_parts(t: Seq<(Seq<char>, TomlData)>) -> Seq<Seq<char>>
    decreases t.len(),
{
    if t.len() == 0 {
        Seq::empty()
    } else {
        let init = dep_extra_parts(t.drop_last());
        if dep_known().contains(t.last().0) {
            init
        } else {
            init.push(key_text(t.last().0) + " = "@ + value_text(t.last().1))
        }
    }
}

/// The whole text of a document whose root has the tables `[package]`, `[build]` and
/// `[dependencies]`: the root's own keys, `[package]`, `[build]`, `[toolchain]`,
/// `[dependencies]`, then the root's other tables (`[workspace]`, `[run]`, ...) as sections.
pub open spec fn toml_text(root: Seq<(Seq<char>, TomlData)>) -> Seq<char> {
    let p = data_get(root, "package"@)->0->Table_0;
    let b = data_get(root, "build"@)->0->Table_0;
    let d = data_get(root, "dependencies"@)->0->Table_0;
    plain_lines(root, root_known()) + package_text(p) + build_text(b) + toolchain_text(root) + "[dependencies]\n"@
        + dep_lines(d) + sub_sections(Seq::empty(), root, root_known())
}

/// The document can be written: its root is a table with the tables `[package]`, `[build]`
/// and `[dependencies]`.
pub open spec fn writable(d: TomlData) -> bool {
    &&& d is Table
    &&& data_get(d->Table_0, "package"@) matches Some(TomlData::Table(_))
    &&& data_get(d->Table_0, "build"@) matches Some(TomlData::Table(_))
    &&& data_get(d->Table_0, "dependencies"@) matches Some(TomlData::Table(_))
}

/// Why a document cannot be written: its root is no table, or a required table is missing.
pub open spec fn unwritable_msg(d: TomlData) -> Seq<char> {
    if !(d is Table) {
        "root is not a table"@
    } else if !(data_get(d->Table_0, "package"@) matches Some(TomlData::Table(_))) {
        "missing [package]"@
    } else if !(data_get(d->Table_0, "build"@) matches Some(TomlData::Table(_))) {
        "missing [build]"@
    } else {
        "missing [dependencies]"@
    }
}

/// `s` in double quotes.
fn quote(s: &str) -> (r: String)
    ensures
        r@ == quoted(s@),
{
    let mut r = String::new();
    r.append("\"");
    r.append(s);
    r.append("\"");
    r
}

/// A value written as an array of strings (`format_string_array`).
pub fn format_string_array(value: &TomlValue) -> (r: String)
    ensures
        r@ == array_text(value.data()),
{
    match value.as_array() {
        None => {
            let mut r = String::new();
            r.append("[]");
            r
        },
        Some(arr) => {
            let ghost d = value.data()->Array_0;
            let mut items: Vec<String> = Vec::new();
            let mut i: usize = 0;
            while i < arr.len()
                invariant
                    i <= arr@.len(),
                    d.len() == arr@.len(),
                    forall|j: int| 0 <= j < arr@.len() ==> #[trigger] d[j] == arr@[j].data(),
                    views(items@) == quoted_items(d.take(i as int)),
                decreases arr@.len() - i,
            {
                assert(d.take(i + 1).drop_last() =~= d.take(i as int));
                if let Some(s) = arr[i].as_str() {
                    let q = quote(s);
                    let ghost prev = items@;
                    items.push(q);
                    assert(views(items@) =~= views(prev).push(q@));
                }
                i = i + 1;
            }
            assert(d.take(i as int) =~= d);
            let mut r = String::new();
            r.append("[");
            let joined = join(&items, ", ");
            r.append(joined.as_str());
            r.append("]");
            r
        },
    }
}

/// Whether `k` is one of `names`.
fn names_contain(names: &Vec<&str>, k: &str) -> (r: bool)
    ensures
        r == names@.map_values(|s: &str| s@).contains(k@),
{
    let ghost nv = names@.map_values(|s: &str| s@);
    let mut i: usize = 0;
    while i < names.len()
        invariant
            nv == names@.map_values(|s: &str| s@),
            i <= names@.len(),
            forall|j: int| 0 <= j < i ==> nv[j] != k@,
        decreases names@.len() - i,
    {
        if str_eq(names[i], k) {
            assert(nv[i as int] == k@);
            return true;
        }
        i = i + 1;
    }
    assert(!nv.contains(k@)) by {
        if nv.contains(k@) {
            let j = choose|j: int| 0 <= j < nv.len() && nv[j] == k@;
            assert(nv[j] != k@);
        }
    }
    false
}

/// Appends a key as it is written (see `key_text`).
fn push_key(out: &mut String, k: &str)
    ensures
        final(out)@ == old(out)@ + key_text(k@),
{
    let v = chars_of(k);
    let mut bare = v.len() > 0;
    let mut i: usize = 0;
    while i < v.len()
        invariant
            v@ == k@,
            i <= v@.len(),
            bare == (k@.len() > 0 && forall|j: int| 0 <= j < i ==> is_ascii_alnum(#[trigger] k@[j]) || k@[j] == '-' || k@[j]
                == '_'),
        decreases v@.len() - i,
    {
        let c = v[i];
        if !(is_ascii_alphanumeric(c) || c == '-' || c == '_') {
            bare = false;
        }
        i = i + 1;
    }
    if bare {
        out.append(k);
    } else {
        let q = json_str(k);
        out.append(q.as_str());
    }
}

/// Appends an integer in decimal (see `int_text`).
fn push_int(out: &mut String, i: i64)
    ensures
        final(out)@ == old(out)@ + int_text(i as int),
{
    if i < 0 {
        out.append("-");
        let m: i128 = -(i as i128);
        push_decimal(out, m as u128);
        assert(final(out)@ =~= old(out)@ + int_text(i as int));
    } else {
        push_decimal(out, i as u128);
    }
}

/// Appends a value as TOML writes it (see `value_text`).
fn push_value(out: &mut String, v: &TomlValue)
    ensures
        final(out)@ == old(out)@ + value_text(v.data()),
    decreases v.data(),
{
    if let Some(s) = v.as_str() {
        let q = json_str(s);
        out.append(q.as_str());
        return;
    }
    if let Some(i) = v.as_int() {
        push_int(out, i);
        return;
    }
    if let Some(b) = v.as_bool() {
        out.append(if b { "true" } else { "false" });
        assert(final(out)@ =~= old(out)@ + value_text(v.data()));
        return;
    }
    if let Some(s) = v.as_datetime() {
        out.append(s);
        return;
    }
    if let Some(a) = v.as_array() {
        let ghost d = v.data()->Array_0;
        let mut items: Vec<String> = Vec::new();
        let mut i: usize = 0;
        assert(d.subrange(0, 0) =~= Seq::<TomlData>::empty());
        while i < a.len()
            invariant
                v.data() == TomlData::Array(d),
                d.len() == a@.len(),
                forall|j: int| 0 <= j < a@.len() ==> #[trigger] d[j] == a@[j].data(),
                i <= a@.len(),
                views(items@) == item_texts(d.subrange(0, i as int)),
            decreases a@.len() - i,
        {
            let e = &a[i];
            assert(d.subrange(0, i + 1).subrange(0, i as int) =~= d.subrange(0, i as int));
            assert(d.subrange(0, i + 1)[i as int] == e.data());
            let mut t = String::new();
            proof {
                assert(decreases_to!(v.data() => v.data()->Array_0));
                assert(decreases_to!(d => d[i as int]));
            }
            push_value(&mut t, e);
            let ghost prev = items@;
            items.push(t);
            assert(views(items@) =~= views(prev).push(t@));
            i = i + 1;
        }
        assert(d.subrange(0, i as int) =~= d);
        out.append("[");
        let joined = join(&items, ", ");
        out.append(joined.as_str());
        out.append("]");
        assert(final(out)@ =~= old(out)@ + value_text(v.data()));
        return;
    }
    if let Some(t) = v.as_table() {
        let ghost td = t.data();
        let mut parts: Vec<String> = Vec::new();
        let mut i: usize = 0;
        assert(td.subrange(0, 0) =~= Seq::<(Seq<char>, TomlData)>::empty());
        while i < t.len()
            invariant
                v.data() == TomlData::Table(td),
                td == t.data(),
                i <= td.len(),
                views(parts@) == inline_parts(td.subrange(0, i as int)),
            decreases td.len() - i,
        {
            let (k, c) = t.entry(i);
            assert(td.subrange(0, i + 1).subrange(0, i as int) =~= td.subrange(0, i as int));
            assert(td.subrange(0, i + 1)[i as int] == td[i as int]);
            let mut part = String::new();
            push_key(&mut part, k.as_str());
            part.append(" = ");
            proof {
                assert(decreases_to!(v.data() => v.data()->Table_0));
                assert(decreases_to!(td => td[i as int]));
                assert(decreases_to!(td[i as int] => td[i as int].1));
            }
            push_value(&mut part, c);
            let ghost prev = parts@;
            parts.push(part);
            assert(views(parts@) =~= views(prev).push(part@));
            i = i + 1;
        }
        assert(td.subrange(0, i as int) =~= td);
        out.append("{ ");
        let joined = join(&parts, ", ");
        out.append(joined.as_str());
        out.append(" }");
        assert(final(out)@ =~= old(out)@ + value_text(v.data()));
        return;
    }
    let f = v.as_float_text();
    out.append(f);
}

/// Appends the lines of the entries of a section (see `plain_lines`).
fn push_plain_lines(out: &mut String, t: &TomlTable, known: &Vec<&str>)
    ensures
        final(out)@ == old(out)@ + plain_lines(t.data(), known@.map_values(|s: &str| s@)),
{
    let ghost start = out@;
    let ghost td = t.data();
    let ghost kn = known@.map_values(|s: &str| s@);
    let n = t.len();
    let mut i: usize = 0;
    assert(td.take(0) =~= Seq::<(Seq<char>, TomlData)>::empty());
    while i < n
        invariant
            n == td.len(),
            td == t.data(),
            kn == known@.map_values(|s: &str| s@),
            i <= n,
            out@ == start + plain_lines(td.take(i as int), kn),
        decreases n - i,
    {
        let (k, c) = t.entry(i);
        assert(td.take(i + 1).drop_last() =~= td.take(i as int));
        assert(td.take(i + 1).last() == td[i as int]);
        let skip = names_contain(known, k.as_str()) || c.as_table().is_some();
        if !skip {
            push_key(out, k.as_str());
            out.append(" = ");
            push_value(out, c);
            out.append("\n");
        }
        i = i + 1;
        assert(out@ =~= start + plain_lines(td.take(i as int), kn));
    }
    assert(td.take(i as int) =~= td);
}

/// Appends a table as a section `[path]` (see `table_section`).
fn push_table_section(out: &mut String, path: &str, t: &TomlTable)
    ensures
        final(out)@ == old(out)@ + table_section(path@, t.data()),
    decreases t.data(), 1int,
{
    let ghost start = out@;
    let none: Vec<&str> = Vec::new();
    assert(none@.map_values(|s: &str| s@) =~= Seq::<Seq<char>>::empty());
    out.append("[");
    out.append(path);
    out.append("]\n");
    push_plain_lines(out, t, &none);
    out.append("\n");
    let mut prefix = path.to_owned();
    prefix.append(".");
    push_sub_sections(out, prefix.as_str(), t, &none);
    assert(final(out)@ =~= start + table_section(path@, t.data()));
}

/// Appends the tables among the entries as sections (see `sub_sections`).
fn push_sub_sections(out: &mut String, prefix: &str, t: &TomlTable, known: &Vec<&str>)
    ensures
        final(out)@ == old(out)@ + sub_sections(prefix@, t.data(), known@.map_values(|s: &str| s@)),
    decreases t.data(), 0int,
{
    let ghost start = out@;
    let ghost td = t.data();
    let ghost kn = known@.map_values(|s: &str| s@);
    let n = t.len();
    let mut i: usize = 0;
    assert(td.subrange(0, 0) =~= Seq::<(Seq<char>, TomlData)>::empty());
    while i < n
        invariant
            n == td.len(),
            td == t.data(),
            kn == known@.map_values(|s: &str| s@),
            i <= n,
            out@ == start + sub_sections(prefix@, td.subrange(0, i as int), kn),
        decreases n - i,
    {
        let (k, c) = t.entry(i);
        assert(td.subrange(0, i + 1).subrange(0, i as int) =~= td.subrange(0, i as int));
        assert(td.subrange(0, i + 1)[i as int] == td[i as int]);
        let ghost before = out@;
        if !names_contain(known, k.as_str()) {
            if let Some(ct) = c.as_table() {
                let mut path = prefix.to_owned();
                push_key(&mut path, k.as_str());
                proof {
                    assert(decreases_to!(td => td[i as int]));
                    assert(decreases_to!(td[i as int] => td[i as int].1));
                    assert(decreases_to!(td[i as int].1 => td[i as int].1->Table_0));
                }
                push_table_section(out, path.as_str(), ct);
            }
        }
        i = i + 1;
        assert(out@ =~= start + sub_sections(prefix@, td.subrange(0, i as int), kn));
    }
    assert(td.subrange(0, i as int) =~= td);
}

/// Appends the parts of a dependency table outside its fixed ones (see `dep_extra_parts`).
fn push_dep_extra_parts(parts: &mut Vec<String>, t: &TomlTable)
    ensures
        views(final(parts)@) == views(old(parts)@) + dep_extra_parts(t.data()),
{
    let known = vec!["version", "path", "git", "branch", "tag", "rev", "default-features", "features", "system"];
    assert(known@.map_values(|s: &str| s@) =~= dep_known());
    let ghost start = views(parts@);
    let ghost td = t.data();
    let n = t.len();
    let mut i: usize = 0;
    assert(td.take(0) =~= Seq::<(Seq<char>, TomlData)>::empty());
    while i < n
        invariant
            n == td.len(),
            td == t.data(),
            known@.map_values(|s: &str| s@) == dep_known(),
            i <= n,
            views(parts@) == start + dep_extra_parts(td.take(i as int)),
        decreases n - i,
    {
        let (k, c) = t.entry(i);
        assert(td.take(i + 1).drop_last() =~= td.take(i as int));
        assert(td.take(i + 1).last() == td[i as int]);
        if !names_contain(&known, k.as_str()) {
            let mut part = String::new();
            push_key(&mut part, k.as_str());
            part.append(" = ");
            push_value(&mut part, c);
            let ghost prev = parts@;
            parts.push(part);
            assert(views(parts@) =~= views(prev).push(part@));
        }
        i = i + 1;
        assert(views(parts@) =~= start + dep_extra_parts(td.take(i as int)));
    }
    assert(td.take(i as int) =~= td);
}

/// The string under `k`, or `dflt`.
fn get_str_or<'a>(t: &'a TomlTable, k: &str, dflt: &'a str) -> (r: &'a str)
    ensures
        r@ == str_or(t.data(), k@, dflt@),
{
    match t.get(k) {
        Some(v) => match v.as_str() {
            Some(s) => s,
            None => dflt,
        },
        None => dflt,
    }
}

/// The line `k = "v"`.
fn push_str_line(out: &mut String, k: &str, v: &str)
    ensures
        final(out)@ == old(out)@ + str_line(k@, v@),
{
    out.append(k);
    out.append(" = ");
    let q = quote(v);
    out.append(q.as_str());
    out.append("\n");
    assert(final(out)@ =~= old(out)@ + str_line(k@, v@));
}

fn push_meta_line(out: &mut String, p: &TomlTable, k: &str)
    ensures
        final(out)@ == old(out)@ + meta_line(p.data(), k@),
{
    if let Some(v) = p.get(k) {
        if let Some(s) = v.as_str() {
            push_str_line(out, k, s);
            return;
        }
        if v.as_array().is_some() {
            out.append(k);
            out.append(" = ");
            let a = format_string_array(v);
            out.append(a.as_str());
            out.append("\n");
            assert(final(out)@ =~= old(out)@ + meta_line(p.data(), k@));
            return;
        }
    }
    assert(meta_line(p.data(), k@) =~= Seq::<char>::empty());
    assert(final(out)@ =~= old(out)@ + meta_line(p.data(), k@));
}

fn push_package(out: &mut String, p: &TomlTable)
    ensures
        final(out)@ == old(out)@ + package_text(p.data()),
{
    let ghost start = out@;
    out.append("[package]\n");
    proof { reveal_strlit(""); }
    push_str_line(out, "name", get_str_or(p, "name", ""));
    push_str_line(out, "version", get_str_or(p, "version", ""));
    push_meta_lines(out, p);
    let known = vec![
        "name", "version", "type", "description", "author", "authors", "homepage", "license", "repository", "readme",
        "keywords", "categories",
    ];
    assert(known@.map_values(|s: &str| s@) =~= package_known());
    push_plain_lines(out, p, &known);
    out.append("\n");
    push_sub_sections(out, "package.", p, &known);
    assert(""@ =~= Seq::<char>::empty());
    assert(final(out)@ =~= start + package_text(p.data()));
}

fn push_meta_lines(out: &mut String, p: &TomlTable)
    ensures
        final(out)@ == old(out)@ + meta_lines(p.data()),
{
    let ghost start = out@;
    push_meta_line(out, p, "type");
    push_meta_line(out, p, "description");
    push_meta_line(out, p, "author");
    push_meta_line(out, p, "authors");
    push_meta_line(out, p, "homepage");
    push_meta_line(out, p, "license");
    push_meta_line(out, p, "repository");
    push_meta_line(out, p, "readme");
    push_meta_line(out, p, "keywords");
    push_meta_line(out, p, "categories");
    assert(final(out)@ =~= start + meta_lines(p.data()));
}

fn push_nonblank_line(out: &mut String, t: &TomlTable, k: &str)
    ensures
        final(out)@ == old(out)@ + nonblank_line(t.data(), k@),
{
    if let Some(v) = t.get(k) {
        if let Some(s) = v.as_str() {
            if !is_blank(s) {
                push_str_line(out, k, s);
                return;
            }
        }
    }
    assert(final(out)@ =~= old(out)@ + nonblank_line(t.data(), k@));
}

fn push_array_line(out: &mut String, t: &TomlTable, k: &str)
    ensures
        final(out)@ == old(out)@ + array_line(t.data(), k@),
{
    if let Some(v) = t.get(k) {
        out.append(k);
        out.append(" = ");
        let a = format_string_array(v);
        out.append(a.as_str());
        out.append("\n");
    }
    assert(final(out)@ =~= old(out)@ + array_line(t.data(), k@));
}

fn language_of(b: &TomlTable) -> (r: String)
    ensures
        r@ == language_text(b.data()),
{
    match b.get("language") {
        Some(v) => match v.as_str() {
            Some(s) => s.to_owned(),
            None => if v.as_array().is_some() {
                format_string_array(v)
            } else {
                String::new()
            },
        },
        None => String::new(),
    }
}

fn push_build_head(out: &mut String, b: &TomlTable)
    ensures
        final(out)@ == old(out)@ + build_head(b.data()),
{
    let ghost start = out@;
    out.append("[build]\n");
    let language = language_of(b);
    let ghost before_lang = out@;
    if starts_with(language.as_str(), "[") {
        out.append("language = ");
        out.append(language.as_str());
        out.append("\n");
    } else {
        push_str_line(out, "language", language.as_str());
    }
    assert(out@ =~= before_lang + language_line(b.data()));
    proof { reveal_strlit(""); }
    push_str_line(out, "standard", get_str_or(b, "standard", ""));
    push_str_line(out, "compiler", get_str_or(b, "compiler", ""));
    push_str_line(out, "kind", get_str_or(b, "kind", "bin"));
    push_nonblank_line(out, b, "target");
    push_array_line(out, b, "cflags");
    push_array_line(out, b, "ldflags");
    assert(""@ =~= Seq::<char>::empty());
    assert(final(out)@ =~= start + build_head(b.data()));
}

fn push_build(out: &mut String, b: &TomlTable)
    ensures
        final(out)@ == old(out)@ + build_text(b.data()),
{
    let ghost start = out@;
    push_build_head(out, b);
    let known = vec!["language", "standard", "compiler", "kind", "target", "cflags", "ldflags"];
    assert(known@.map_values(|s: &str| s@) =~= build_known());
    push_plain_lines(out, b, &known);
    out.append("\n");
    push_sub_sections(out, "build.", b, &known);
    assert(final(out)@ =~= start + build_text(b.data()));
}

fn push_toolchain(out: &mut String, root: &TomlTable)
    ensures
        final(out)@ == old(out)@ + toolchain_text(root.data()),
{
    if let Some(v) = root.get("toolchain") {
        if let Some(c) = v.as_table() {
            let mut lines = String::new();
            push_nonblank_line(&mut lines, c, "cc");
            push_nonblank_line(&mut lines, c, "cxx");
            push_nonblank_line(&mut lines, c, "as");
            push_nonblank_line(&mut lines, c, "ar");
            push_nonblank_line(&mut lines, c, "ld");
            assert(lines@ =~= toolchain_lines(c.data()));
            let known = vec!["cc", "cxx", "as", "ar", "ld"];
            assert(known@.map_values(|s: &str| s@) =~= toolchain_known());
            push_plain_lines(&mut lines, c, &known);
            let mut subs = String::new();
            push_sub_sections(&mut subs, "toolchain.", c, &known);
            assert(subs@ =~= sub_sections("toolchain."@, c.data(), toolchain_known()));
            if lines.unicode_len() > 0 || subs.unicode_len() > 0 {
                out.append("[toolchain]\n");
                out.append(lines.as_str());
                out.append("\n");
                out.append(subs.as_str());
            }
            assert(final(out)@ =~= old(out)@ + toolchain_text(root.data()));
            return;
        }
    }
    assert(final(out)@ =~= old(out)@ + toolchain_text(root.data()));
}

fn push_dep_str_part(parts: &mut Vec<String>, t: &TomlTable, k: &str)
    ensures
        views(final(parts)@) == views(old(parts)@) + dep_str_part(t.data(), k@),
{
    let ghost prev = parts@;
    if let Some(v) = t.get(k) {
        if let Some(s) = v.as_str() {
            let mut p = String::new();
            p.append(k);
            p.append(" = ");
            let q = quote(s);
            p.append(q.as_str());
            parts.push(p);
            assert(views(parts@) =~= views(prev) + dep_str_part(t.data(), k@));
            return;
        }
    }
    assert(views(parts@) =~= views(prev) + dep_str_part(t.data(), k@));
}

fn push_dep_bool_part(parts: &mut Vec<String>, t: &TomlTable, k: &str)
    ensures
        views(final(parts)@) == views(old(parts)@) + dep_bool_part(t.data(), k@),
{
    let ghost prev = parts@;
    if let Some(v) = t.get(k) {
        if let Some(b) = v.as_bool() {
            let mut p = String::new();
            p.append(k);
            p.append(" = ");
            p.append(if b { "true" } else { "false" });
            parts.push(p);
            assert(views(parts@) =~= views(prev) + dep_bool_part(t.data(), k@));
            return;
        }
    }
    assert(views(parts@) =~= views(prev) + dep_bool_part(t.data(), k@));
}

/// A dependency written as a TOML value (`format_dep_value`).
pub fn format_dep_value(value: &TomlValue) -> (r: String)
    ensures
        r@ == dep_text(value.data()),
{
    if let Some(s) = value.as_str() {
        return quote(s);
    }
    match value.as_table() {
        Some(t) => {
            let mut parts: Vec<String> = Vec::new();
            assert(views(parts@) =~= Seq::<Seq<char>>::empty());
            push_dep_str_part(&mut parts, t, "version");
            push_dep_str_part(&mut parts, t, "path");
            push_dep_str_part(&mut parts, t, "git");
            push_dep_str_part(&mut parts, t, "branch");
            push_dep_str_part(&mut parts, t, "tag");
            push_dep_str_part(&mut parts, t, "rev");
            push_dep_bool_part(&mut parts, t, "default-features");
            let ghost prev = parts@;
            if let Some(f) = t.get("features") {
                let mut p = String::new();
                p.append("features = ");
                let a = format_string_array(f);
                p.append(a.as_str());
                parts.push(p);
            }
            assert(views(parts@) =~= views(prev) + match data_get(t.data(), "features"@) {
                Some(d) => seq!["features = "@ + array_text(d)],
                None => Seq::<Seq<char>>::empty(),
            });
            push_dep_bool_part(&mut parts, t, "system");
            push_dep_extra_parts(&mut parts, t);
            assert(views(parts@) =~= dep_parts(t.data()));
            let mut r = String::new();
            r.append("{ ");
            let joined = join(&parts, ", ");
            r.append(joined.as_str());
            r.append(" }");
            r
        },
        None => {
            let mut r = String::new();
            r.append("\"\"");
            r
        },
    }
}

fn push_dependencies(out: &mut String, d: &TomlTable)
    ensures
        final(out)@ == old(out)@ + dep_lines(d.data()),
{
    let ghost start = out@;
    let ghost dd = d.data();
    let n = d.len();
    let mut i: usize = 0;
    assert(dd.take(0) =~= Seq::<(Seq<char>, TomlData)>::empty());
    while i < n
        invariant
            n == dd.len(),
            dd == d.data(),
            i <= n,
            out@ == start + dep_lines(dd.take(i as int)),
        decreases n - i,
    {
        let (k, v) = d.entry(i);
        assert(dd.take(i + 1).drop_last() =~= dd.take(i as int));
        out.append(k.as_str());
        out.append(" = ");
        let t = format_dep_value(v);
        out.append(t.as_str());
        out.append("\n");
        i = i + 1;
        assert(out@ =~= start + dep_lines(dd.take(i as int)));
    }
    assert(dd.take(i as int) =~= dd);
}

/// The text of `dcr.toml` for a document: the known keys of `[package]`, `[build]`,
/// `[toolchain]` (when it has a line) and `[dependencies]` in a fixed layout, and every other key
/// of the document after them (see `toml_text`). Fails when the root is not a table or one of
/// the three required tables is missing.
#[verifier::rlimit(50)]
pub fn format_toml(value: &TomlValue) -> (r: Result<String, ConfigError>)
    ensures
        r is Ok <==> writable(value.data()),
        r matches Ok(text) ==> text@ == toml_text(value.data()->Table_0),
        r matches Err(e) ==> e is Invalid,
        r matches Err(e) ==> (e matches ConfigError::Invalid(m) && m@ == unwritable_msg(value.data())),
{
    let root = match value.as_table() {
        Some(t) => t,
        None => {
            return Err(ConfigError::Invalid("root is not a table".to_owned()));
        },
    };
    let package = match root.get("package") {
        Some(v) => match v.as_table() {
            Some(t) => t,
            None => {
                return Err(ConfigError::Invalid("missing [package]".to_owned()));
            },
        },
        None => {
            return Err(ConfigError::Invalid("missing [package]".to_owned()));
        },
    };
    let build = match root.get("build") {
        Some(v) => match v.as_table() {
            Some(t) => t,
            None => {
                return Err(ConfigError::Invalid("missing [build]".to_owned()));
            },
        },
        None => {
            return Err(ConfigError::Invalid("missing [build]".to_owned()));
        },
    };
    let deps = match root.get("dependencies") {
        Some(v) => match v.as_table() {
            Some(t) => t,
            None => {
                return Err(ConfigError::Invalid("missing [dependencies]".to_owned()));
            },
        },
        None => {
            return Err(ConfigError::Invalid("missing [dependencies]".to_owned()));
        },
    };
    let mut out = String::new();
    let known = vec!["package", "build", "toolchain", "dependencies"];
    assert(known@.map_values(|s: &str| s@) =~= root_known());
    push_plain_lines(&mut out, root, &known);
    push_package(&mut out, package);
    push_build(&mut out, build);
    push_toolchain(&mut out, root);
    out.append("[dependencies]\n");
    push_dependencies(&mut out, deps);
    push_sub_sections(&mut out, "", root, &known);
    proof { reveal_strlit(""); }
    assert(""@ =~= Seq::<char>::empty());
    assert(out@ =~= toml_text(value.data()->Table_0));
    Ok(out)
}

} // verus!
