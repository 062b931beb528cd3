//! Reading settings out of the configuration: plain keys, and keys that a profile and a target
//! can override (`build.<target>.<profile>.<field>` before `build.<field>`).
use vstd::prelude::*;
use crate::project::config::{key_path, Config};
use crate::project::value::{data_at, data_get, TomlData, TomlTable, TomlValue};
use crate::utils::build_helpers::{normalize_target_os, target_triple};
use crate::project::config::{all_strs, strs_of, value_strings};
use crate::utils::strings::{is_blank, trim, trim_seq, views};

verus! {

/// The value at the dotted key `key` of a document.
pub open spec fn cfg_at(d: TomlData, key: Seq<char>) -> Option<TomlData> {
    data_at(d, key_path(key))
}

/// The string at `key`, or the empty string.
pub open spec fn cfg_str(d: TomlData, key: Seq<char>) -> Seq<char> {
    match cfg_at(d, key) {
        Some(TomlData::Str(s)) => s,
        _ => Seq::empty(),
    }
}

/// The string at `key` (`""` when it is missing or not a string).
pub fn get_config_str(config: &Config, key: &str) -> (r: String)
    ensures
        r@ == cfg_str(config.doc(), key@),
{
    match config.get(key) {
        Some(v) => match v.as_str() {
            Some(s) => s.to_owned(),
            None => String::new(),
        },
        None => String::new(),
    }
}

/// The string at `key`, trimmed, unless it is missing, not a string, or blank.
pub open spec fn cfg_opt(d: TomlData, key: Seq<char>) -> Option<Seq<char>> {
    match cfg_at(d, key) {
        Some(TomlData::Str(s)) => if trim_seq(s).len() > 0 {
            Some(trim_seq(s))
        } else {
            None
        },
        _ => None,
    }
}

/// The string at `key`, trimmed (see `cfg_opt`).
pub fn get_config_opt(config: &Config, key: &str) -> (r: Option<String>)
    ensures
        match r {
            Some(s) => cfg_opt(config.doc(), key@) == Some(s@),
            None => cfg_opt(config.doc(), key@) is None,
        },
{
    let v = config.get(key)?;
    let s = v.as_str()?;
    let t = trim(s);
    if t.unicode_len() == 0 {
        return None;
    }
    Some(t.to_owned())
}

/// The profile section `build.<profile>`, when it is a table.
pub open spec fn profile_section(d: TomlData, profile: Seq<char>) -> Option<Seq<(Seq<char>, TomlData)>> {
    match cfg_at(d, "build"@) {
        Some(TomlData::Table(b)) => match data_get(b, profile) {
            Some(TomlData::Table(t)) => Some(t),
            _ => None,
        },
        _ => None,
    }
}

/// The profile section `build.<profile>` (see `profile_section`).
pub fn profile_table<'a>(config: &'a Config, profile: &str) -> (r: Option<&'a TomlTable>)
    ensures
        match r {
            Some(t) => profile_section(config.doc(), profile@) == Some(t.data()),
            None => profile_section(config.doc(), profile@) is None,
        },
{
    let b = config.get("build")?.as_table()?;
    b.get(profile)?.as_table()
}

/// The keys a layered setting is looked up under, most specific first: with a target,
/// `<section>.<target>.<profile>.<field>`, `<section>.<profile>.<target>.<field>` and
/// `<section>.<target>.<field>`; then `<section>.<profile>.<field>` and `<section>.<field>`.
/// The target is given by its full triple.
pub open spec fn layered_keys(section: Seq<char>, field: Seq<char>, profile: Seq<char>, target: Option<Seq<char>>) -> Seq<Seq<char>> {
    let d = "."@;
    match target {
        Some(t) => {
            let nt = target_triple(t);
            seq![
                section + d + nt + d + profile + d + field,
                section + d + profile + d + nt + d + field,
                section + d + nt + d + field,
                section + d + profile + d + field,
                section + d + field,
            ]
        },
        None => seq![section + d + profile + d + field, section + d + field],
    }
}

/// The value under the first of `keys` that has one.
pub open spec fn first_hit(d: TomlData, keys: Seq<Seq<char>>) -> Option<TomlData>
    decreases keys.len(),
{
    if keys.len() == 0 {
        None
    } else {
        match cfg_at(d, keys[0]) {
            Some(v) => Some(v),
            None => first_hit(d, keys.drop_first()),
        }
    }
}

fn dotted(parts: Vec<&str>) -> (r: String)
    requires
        parts@.len() > 0,
    ensures
        r@ == dotted_seq(parts@.map_values(|s: &str| s@)),
{
    let mut r = parts[0].to_owned();
    let mut i: usize = 1;
    while i < parts.len()
        invariant
            1 <= i <= parts@.len(),
            r@ == dotted_seq(parts@.map_values(|s: &str| s@).take(i as int)),
        decreases parts@.len() - i,
    {
        assert(parts@.map_values(|s: &str| s@).take(i + 1).drop_last() =~= parts@.map_values(|s: &str| s@).take(i as int));
        r.append(".");
        r.append(parts[i]);
        i = i + 1;
    }
    assert(parts@.map_values(|s: &str| s@).take(i as int) =~= parts@.map_values(|s: &str| s@));
    r
}

/// Parts joined with dots.
pub open spec fn dotted_seq(parts: Seq<Seq<char>>) -> Seq<char>
    decreases parts.len(),
{
    if parts.len() <= 1 {
        if parts.len() == 1 {
            parts[0]
        } else {
            Seq::empty()
        }
    } else {
        dotted_seq(parts.drop_last()) + "."@ + parts.last()
    }
}

/// The keys a layered setting is looked up under (see `layered_keys`).
pub fn layered_lookup_keys(section: &str, field: &str, profile: &str, target: Option<&str>) -> (r: Vec<String>)
    ensures
        views(r@) == layered_keys(section@, field@, profile@, target_view(target)),
{
    let mut keys: Vec<String> = Vec::new();
    if let Some(t) = target {
        let nt = normalize_target_os(t);
        let k1 = dotted(vec![section, nt, profile, field]);
        let k2 = dotted(vec![section, profile, nt, field]);
        let k3 = dotted(vec![section, nt, field]);
        keys.push(k1);
        keys.push(k2);
        keys.push(k3);
    }
    let k4 = dotted(vec![section, profile, field]);
    let k5 = dotted(vec![section, field]);
    keys.push(k4);
    keys.push(k5);
    proof {
        let d = "."@;
        reveal_with_fuel(dotted_seq, 5);
    }
    assert(views(keys@) =~= layered_keys(section@, field@, profile@, target_view(target)));
    keys
}

/// The value of a layered setting: under the most specific key that has one.
pub fn get_config_value_raw<'a>(config: &'a Config, section: &str, field: &str, profile: &str, target: Option<&str>) -> (r: Option<&'a TomlValue>)
    ensures
        ({
            let h = first_hit(config.doc(), layered_keys(section@, field@, profile@, target_view(target)));
            match r {
                Some(v) => h == Some(v.data()),
                None => h is None,
            }
        }),
{
    let keys = layered_lookup_keys(section, field, profile, target);
    let ghost ks = views(keys@);
    let mut i: usize = 0;
    assert(ks.skip(0) =~= ks);
    while i < keys.len()
        invariant
            ks == views(keys@),
            ks == layered_keys(section@, field@, profile@, target_view(target)),
            i <= keys@.len(),
            first_hit(config.doc(), ks) == first_hit(config.doc(), ks.skip(i as int)),
        decreases keys@.len() - i,
    {
        assert(ks.skip(i as int).drop_first() =~= ks.skip(i + 1));
        assert(ks.skip(i as int)[0] == keys@[i as int]@);
        if let Some(v) = config.get(keys[i].as_str()) {
            return Some(v);
        }
        i = i + 1;
    }
    None
}

/// Whether a section inherits the base settings (`inherit`, true unless set to `false`).
pub open spec fn inherits(d: TomlData, section: Seq<char>, profile: Seq<char>, target: Option<Seq<char>>) -> bool {
    match first_hit(d, layered_keys(section, "inherit"@, profile, target)) {
        Some(TomlData::Bool(b)) => b,
        _ => true,
    }
}

/// The view of an optional string slice.
pub open spec fn target_view(t: Option<&str>) -> Option<Seq<char>> {
    match t {
        Some(s) => Some(s@),
        None => None,
    }
}

/// Whether a section inherits the base settings (see `inherits`).
pub fn get_inherit(config: &Config, section: &str, profile: &str, target: Option<&str>) -> (r: bool)
    ensures
        r == inherits(config.doc(), section@, profile@, target_view(target)),
{
    match get_config_value_raw(config, section, "inherit", profile, target) {
        Some(v) => match v.as_bool() {
            Some(b) => b,
            None => true,
        },
        None => true,
    }
}

/// A layered string setting, trimmed, unless it is missing, not a string, or blank.
pub open spec fn layered_str(d: TomlData, section: Seq<char>, field: Seq<char>, profile: Seq<char>, target: Option<Seq<char>>) -> Option<Seq<char>> {
    match first_hit(d, layered_keys(section, field, profile, target)) {
        Some(TomlData::Str(s)) => if trim_seq(s).len() > 0 {
            Some(trim_seq(s))
        } else {
            None
        },
        _ => None,
    }
}

/// A layered string setting (see `layered_str`).
pub fn get_config_value(config: &Config, section: &str, field: &str, profile: &str, target: Option<&str>) -> (r: Option<String>)
    ensures
        match r {
            Some(s) => layered_str(config.doc(), section@, field@, profile@, target_view(target)) == Some(s@),
            None => layered_str(config.doc(), section@, field@, profile@, target_view(target)) is None,
        },
{
    let v = get_config_value_raw(config, section, field, profile, target)?;
    let s = v.as_str()?;
    let t = trim(s);
    if t.unicode_len() == 0 {
        return None;
    }
    Some(t.to_owned())
}

/// A `build` string setting for a profile and target: the layered value, else (when the
/// profile inherits) the plain `build.<field>`, else empty.
pub open spec fn build_string(d: TomlData, field: Seq<char>, profile: Seq<char>, target: Option<Seq<char>>) -> Seq<char> {
    match layered_str(d, "build"@, field, profile, target) {
        Some(s) => s,
        None => if inherits(d, "build"@, profile, target) {
            cfg_str(d, "build."@ + field)
        } else {
            Seq::empty()
        },
    }
}

/// A `build` string setting for a profile and target (see `build_string`).
pub fn get_string_with_profile_and_target(config: &Config, field: &str, profile: &str, target: Option<&str>) -> (r: String)
    ensures
        r@ == build_string(config.doc(), field@, profile@, target_view(target)),
{
    let inherit = get_inherit(config, "build", profile, target);
    match get_config_value(config, "build", field, profile, target) {
        Some(s) => s,
        None => if inherit {
            let mut k = "build.".to_owned();
            k.append(field);
            get_config_str(config, k.as_str())
        } else {
            String::new()
        },
    }
}

/// `key must be an array of strings`.
fn not_strings(key: &str) -> (r: String)
    ensures
        r@ == key@ + " must be an array of strings"@,
{
    let mut m = key.to_owned();
    m.append(" must be an array of strings");
    m
}

/// The strings of an array value; `Err` names the key when it is not an array of strings.
pub open spec fn string_array(d: TomlData, key: Seq<char>) -> Result<Seq<Seq<char>>, Seq<char>> {
    match d {
        TomlData::Array(a) => if all_strs(a) {
            Ok(strs_of(a))
        } else {
            Err(key + " must be an array of strings"@)
        },
        _ => Err(key + " must be an array of strings"@),
    }
}

/// The strings of an array value (see `string_array`).
pub fn parse_string_array(value: &TomlValue, key: &str) -> (r: Result<Vec<String>, String>)
    ensures
        match r {
            Ok(v) => string_array(value.data(), key@) == Ok::<Seq<Seq<char>>, Seq<char>>(views(v@)),
            Err(m) => string_array(value.data(), key@) == Err::<Seq<Seq<char>>, Seq<char>>(m@),
        },
{
    match value_strings(value) {
        Some(v) => Ok(v),
        None => Err(not_strings(key)),
    }
}

/// The list at `key`: empty when missing, else its strings.
pub open spec fn cfg_list(d: TomlData, key: Seq<char>) -> Result<Seq<Seq<char>>, Seq<char>> {
    match cfg_at(d, key) {
        Some(v) => string_array(v, key),
        None => Ok(Seq::empty()),
    }
}

/// The list at `key` (see `cfg_list`).
pub fn get_config_list(config: &Config, key: &str) -> (r: Result<Vec<String>, String>)
    ensures
        match r {
            Ok(v) => cfg_list(config.doc(), key@) == Ok::<Seq<Seq<char>>, Seq<char>>(views(v@)),
            Err(m) => cfg_list(config.doc(), key@) == Err::<Seq<Seq<char>>, Seq<char>>(m@),
        },
{
    match config.get(key) {
        Some(v) => parse_string_array(v, key),
        None => {
            let v: Vec<String> = Vec::new();
            assert(views(v@) =~= Seq::<Seq<char>>::empty());
            Ok(v)
        },
    }
}

/// The extra items of a profile or target section `build.<name>.<field>` (appended when the
/// settings inherit and no layered list is set).
pub open spec fn section_extra(d: TomlData, name: Seq<char>, field: Seq<char>) -> Result<Seq<Seq<char>>, Seq<char>> {
    match profile_section(d, name) {
        Some(t) => match data_get(t, field) {
            Some(v) => string_array(v, "build."@ + name + "."@ + field),
            None => Ok(Seq::empty()),
        },
        None => Ok(Seq::empty()),
    }
}

/// A `build` list setting for a profile and target: the base list `build.<field>` when the
/// settings inherit; a layered array then extends it (or replaces it without inheritance); with
/// no layered value and inheritance, the legacy sections `build.<profile>.<field>` and
/// `build.<target>.<field>` are appended.
pub open spec fn build_list(d: TomlData, field: Seq<char>, profile: Seq<char>, target: Option<Seq<char>>) -> Result<Seq<Seq<char>>, Seq<char>> {
    let inherit = inherits(d, "build"@, profile, target);
    let key = "build."@ + field;
    let base: Result<Seq<Seq<char>>, Seq<char>> = if inherit {
        cfg_list(d, key)
    } else {
        Ok(Seq::empty())
    };
    match base {
        Err(m) => Err(m),
        Ok(out) => match first_hit(d, layered_keys("build"@, field, profile, target)) {
            Some(v) => if v is Array {
                match string_array(v, key) {
                    Ok(custom) => Ok(if inherit {
                        out + custom
                    } else {
                        custom
                    }),
                    Err(m) => Err(m),
                }
            } else {
                Ok(out)
            },
            None => if inherit {
                match section_extra(d, profile, field) {
                    Err(m) => Err(m),
                    Ok(e1) => match target {
                        Some(t) => match section_extra(d, target_triple(t), field) {
                            Err(m) => Err(m),
                            Ok(e2) => Ok(out + e1 + e2),
                        },
                        None => Ok(out + e1),
                    },
                }
            } else {
                Ok(out)
            },
        },
    }
}

fn get_section_extra(config: &Config, name: &str, field: &str) -> (r: Result<Vec<String>, String>)
    ensures
        match r {
            Ok(v) => section_extra(config.doc(), name@, field@) == Ok::<Seq<Seq<char>>, Seq<char>>(views(v@)),
            Err(m) => section_extra(config.doc(), name@, field@) == Err::<Seq<Seq<char>>, Seq<char>>(m@),
        },
{
    let empty: Vec<String> = Vec::new();
    assert(views(empty@) =~= Seq::<Seq<char>>::empty());
    match profile_table(config, name) {
        Some(t) => match t.get(field) {
            Some(v) => {
                let mut k = "build.".to_owned();
                k.append(name);
                k.append(".");
                k.append(field);
                parse_string_array(v, k.as_str())
            },
            None => Ok(empty),
        },
        None => Ok(empty),
    }
}

fn append_all(out: &mut Vec<String>, extra: Vec<String>)
    ensures
        views(final(out)@) == views(old(out)@) + views(extra@),
{
    let ghost start = views(out@);
    let mut i: usize = 0;
    while i < extra.len()
        invariant
            i <= extra@.len(),
            views(out@) == start + views(extra@).take(i as int),
        decreases extra@.len() - i,
    {
        let ghost prev = out@;
        out.push(extra[i].clone());
        assert(views(out@) =~= views(prev).push(extra@[i as int]@));
        assert(views(extra@).take(i + 1) =~= views(extra@).take(i as int).push(extra@[i as int]@));
        i = i + 1;
    }
    assert(views(extra@).take(i as int) =~= views(extra@));
}

/// A `build` list setting for a profile and target (see `build_list`).
pub fn get_list_with_profile_and_target(config: &Config, field: &str, profile: &str, target: Option<&str>) -> (r: Result<Vec<String>, String>)
    ensures
        match r {
            Ok(v) => build_list(config.doc(), field@, profile@, target_view(target)) == Ok::<Seq<Seq<char>>, Seq<char>>(views(v@)),
            Err(m) => build_list(config.doc(), field@, profile@, target_view(target)) == Err::<Seq<Seq<char>>, Seq<char>>(m@),
        },
{
    let inherit = get_inherit(config, "build", profile, target);
    let mut key = "build.".to_owned();
    key.append(field);
    let mut out: Vec<String> = if inherit {
        get_config_list(config, key.as_str())?
    } else {
        let v: Vec<String> = Vec::new();
        assert(views(v@) =~= Seq::<Seq<char>>::empty());
        v
    };
    match get_config_value_raw(config, "build", field, profile, target) {
        Some(val) => {
            if val.as_array().is_some() {
                let custom = parse_string_array(val, key.as_str())?;
                if inherit {
                    append_all(&mut out, custom);
                } else {
                    out = custom;
                }
            }
        },
        None => {
            if inherit {
                let e1 = get_section_extra(config, profile, field)?;
                append_all(&mut out, e1);
                if let Some(t) = target {
                    let nt = normalize_target_os(t);
                    let e2 = get_section_extra(config, nt, field)?;
                    append_all(&mut out, e2);
                }
            }
        },
    }
    Ok(out)
}

/// A build step: a command that makes `output` from `input`.
pub struct BuildStep {
    pub name: String,
    pub input: String,
    pub output: String,
    pub cmd: String,
}

/// A field of a step, trimmed (empty when missing or not a string).
pub open spec fn step_field(t: Seq<(Seq<char>, TomlData)>, k: Seq<char>) -> Seq<char> {
    match data_get(t, k) {
        Some(TomlData::Str(s)) => trim_seq(s),
        _ => Seq::empty(),
    }
}

/// A step read from a table, when it has every field.
pub open spec fn step_of(d: TomlData) -> Option<(Seq<char>, Seq<char>, Seq<char>, Seq<char>)> {
    match d {
        TomlData::Table(t) => {
            let s = (step_field(t, "name"@), step_field(t, "in"@), step_field(t, "out"@), step_field(t, "cmd"@));
            if s.0.len() > 0 && s.1.len() > 0 && s.2.len() > 0 && s.3.len() > 0 {
                Some(s)
            } else {
                None
            }
        },
        _ => None,
    }
}

/// The view of a step.
pub open spec fn step_view(s: BuildStep) -> (Seq<char>, Seq<char>, Seq<char>, Seq<char>) {
    (s.name@, s.input@, s.output@, s.cmd@)
}

fn step_str(t: &TomlTable, k: &str) -> (r: String)
    ensures
        r@ == step_field(t.data(), k@),
{
    match t.get(k) {
        Some(v) => match v.as_str() {
            Some(s) => trim(s).to_owned(),
            None => String::new(),
        },
        None => String::new(),
    }
}

/// Why an entry is not a build step: not a table, or a field missing.
pub open spec fn step_error(d: TomlData, key: Seq<char>) -> Option<Seq<char>> {
    match d {
        TomlData::Table(_) => if step_of(d) is None {
            Some(key + " entries must include name, in, out, cmd"@)
        } else {
            None
        },
        _ => Some(key + " entries must be tables"@),
    }
}

/// The build steps of array items, or the error of the first item that is not one.
pub open spec fn steps_of(a: Seq<TomlData>, key: Seq<char>) -> Result<Seq<(Seq<char>, Seq<char>, Seq<char>, Seq<char>)>, Seq<char>>
    decreases a.len(),
{
    if a.len() == 0 {
        Ok(Seq::empty())
    } else {
        match steps_of(a.drop_last(), key) {
            Err(m) => Err(m),
            Ok(ss) => match step_error(a.last(), key) {
                Some(m) => Err(m),
                None => Ok(ss.push(step_of(a.last())->0)),
            },
        }
    }
}

/// The build steps of a value: it must be an array of steps (see `steps_of`).
pub open spec fn build_steps_of(d: TomlData, key: Seq<char>) -> Result<Seq<(Seq<char>, Seq<char>, Seq<char>, Seq<char>)>, Seq<char>> {
    match d {
        TomlData::Array(a) => steps_of(a, key),
        _ => Err(key + " must be an array"@),
    }
}

proof fn lemma_steps_err(d: Seq<TomlData>, key: Seq<char>, n: int, m: Seq<char>)
    requires
        0 <= n <= d.len(),
        steps_of(d.take(n), key) == Err::<Seq<(Seq<char>, Seq<char>, Seq<char>, Seq<char>)>, Seq<char>>(m),
    ensures
        steps_of(d, key) == Err::<Seq<(Seq<char>, Seq<char>, Seq<char>, Seq<char>)>, Seq<char>>(m),
    decreases d.len() - n,
{
    if n < d.len() {
        assert(d.take(n + 1).drop_last() =~= d.take(n));
        lemma_steps_err(d, key, n + 1, m);
    } else {
        assert(d.take(n) =~= d);
    }
}

/// The build steps in an array value (see `build_steps_of`).
pub fn get_build_steps_from_value(value: &TomlValue, key: &str) -> (r: Result<Vec<BuildStep>, String>)
    ensures
        match r {
            Ok(v) => build_steps_of(value.data(), key@) == Ok::<Seq<(Seq<char>, Seq<char>, Seq<char>, Seq<char>)>, Seq<char>>(
                v@.map_values(|s: BuildStep| step_view(s)),
            ),
            Err(m) => build_steps_of(value.data(), key@) == Err::<Seq<(Seq<char>, Seq<char>, Seq<char>, Seq<char>)>, Seq<char>>(m@),
        },
{
    let arr = match value.as_array() {
        Some(a) => a,
        None => {
            let mut m = key.to_owned();
            m.append(" must be an array");
            return Err(m);
        },
    };
    let ghost d = value.data()->Array_0;
    let mut out: Vec<BuildStep> = Vec::new();
    let mut i: usize = 0;
    assert(d.take(0) =~= Seq::<TomlData>::empty());
    assert(out@.map_values(|s: BuildStep| step_view(s)) =~= Seq::<(Seq<char>, Seq<char>, Seq<char>, Seq<char>)>::empty());
    while i < arr.len()
        invariant
            d == value.data()->Array_0,
            value.data() is Array,
            d.len() == arr@.len(),
            forall|j: int| 0 <= j < arr@.len() ==> #[trigger] d[j] == arr@[j].data(),
            i <= arr@.len(),
            out@.len() == i,
            steps_of(d.take(i as int), key@) == Ok::<Seq<(Seq<char>, Seq<char>, Seq<char>, Seq<char>)>, Seq<char>>(
                out@.map_values(|s: BuildStep| step_view(s)),
            ),
        decreases arr@.len() - i,
    {
        assert(d.take(i + 1).drop_last() =~= d.take(i as int));
        assert(d.take(i + 1).last() == d[i as int]);
        let tbl = match arr[i].as_table() {
            Some(t) => t,
            None => {
                let mut m = key.to_owned();
                m.append(" entries must be tables");
                proof { lemma_steps_err(d, key@, i + 1, m@); }
                return Err(m);
            },
        };
        let name = step_str(tbl, "name");
        let input = step_str(tbl, "in");
        let output = step_str(tbl, "out");
        let cmd = step_str(tbl, "cmd");
        if name.unicode_len() == 0 || input.unicode_len() == 0 || output.unicode_len() == 0 || cmd.unicode_len() == 0 {
            let mut m = key.to_owned();
            m.append(" entries must include name, in, out, cmd");
            proof { lemma_steps_err(d, key@, i + 1, m@); }
            return Err(m);
        }
        let ghost prev = out@;
        assert(step_of(d[i as int]) == Some((name@, input@, output@, cmd@)));
        out.push(BuildStep { name, input, output, cmd });
        assert(out@.map_values(|s: BuildStep| step_view(s)) =~= prev.map_values(|s: BuildStep| step_view(s)).push(
            step_view(out@[i as int]),
        ));
        i = i + 1;
    }
    assert(d.take(i as int) =~= d);
    Ok(out)
}

/// The build steps of a profile: the profile section's `<field>` when it has one, else
/// `build.<field>` (none when that is missing too).
pub open spec fn profile_steps_of(d: TomlData, field: Seq<char>, profile: Seq<char>) -> Result<Seq<(Seq<char>, Seq<char>, Seq<char>, Seq<char>)>, Seq<char>> {
    match profile_section(d, profile) {
        Some(t) if data_get(t, field) is Some => build_steps_of(data_get(t, field)->0, "build."@ + profile + "."@ + field),
        _ => match cfg_at(d, "build."@ + field) {
            Some(v) => build_steps_of(v, "build."@ + field),
            None => Ok(Seq::empty()),
        },
    }
}

/// The build steps of a profile (see `profile_steps_of`).
pub fn get_build_steps_with_profile(config: &Config, field: &str, profile: &str) -> (r: Result<Vec<BuildStep>, String>)
    ensures
        match r {
            Ok(v) => profile_steps_of(config.doc(), field@, profile@) == Ok::<Seq<(Seq<char>, Seq<char>, Seq<char>, Seq<char>)>, Seq<char>>(
                v@.map_values(|s: BuildStep| step_view(s)),
            ),
            Err(m) => profile_steps_of(config.doc(), field@, profile@) == Err::<Seq<(Seq<char>, Seq<char>, Seq<char>, Seq<char>)>, Seq<char>>(m@),
        },
{
    if let Some(t) = profile_table(config, profile) {
        if let Some(v) = t.get(field) {
            let mut k = "build.".to_owned();
            k.append(profile);
            k.append(".");
            k.append(field);
            return get_build_steps_from_value(v, k.as_str());
        }
    }
    let mut k = "build.".to_owned();
    k.append(field);
    match config.get(k.as_str()) {
        Some(v) => get_build_steps_from_value(v, k.as_str()),
        None => {
            let out: Vec<BuildStep> = Vec::new();
            assert(out@.map_values(|s: BuildStep| step_view(s)) =~= Seq::<(Seq<char>, Seq<char>, Seq<char>, Seq<char>)>::empty());
            Ok(out)
        },
    }
}

/// A profile's own string setting wins over `[build]`: when `build.<profile>.<field>` holds a
/// non-blank string, that string, trimmed, is the setting for the profile.
pub proof fn law_profile_overrides_base(d: TomlData, field: Seq<char>, profile: Seq<char>, s: Seq<char>)
    requires
        cfg_at(d, "build."@ + profile + "."@ + field) == Some(TomlData::Str(s)),
        trim_seq(s).len() > 0,
    ensures
        build_string(d, field, profile, None) == trim_seq(s),
{
    reveal_strlit("build.");
    reveal_strlit("build");
    reveal_strlit(".");
    assert("build."@ + profile + "."@ + field =~= "build"@ + "."@ + profile + "."@ + field);
}

/// The most specific setting wins: for a target, `build.<target>.<profile>.<field>` (the target
/// by its full triple) comes before every other place.
pub proof fn law_target_profile_first(d: TomlData, field: Seq<char>, profile: Seq<char>, target: Seq<char>, s: Seq<char>)
    requires
        cfg_at(d, "build."@ + target_triple(target) + "."@ + profile + "."@ + field) == Some(TomlData::Str(s)),
        trim_seq(s).len() > 0,
    ensures
        build_string(d, field, profile, Some(target)) == trim_seq(s),
{
    reveal_strlit("build.");
    reveal_strlit("build");
    reveal_strlit(".");
    assert("build."@ + target_triple(target) + "."@ + profile + "."@ + field =~= "build"@ + "."@ + target_triple(target) + "."@
        + profile + "."@ + field);
}

/// Array settings add up: when the settings inherit, a profile whose section sets an array of
/// strings gets the `[build]` array followed by its own.
pub proof fn law_profile_list_appends(d: TomlData, field: Seq<char>, profile: Seq<char>, base: Seq<Seq<char>>, a: Seq<TomlData>)
    requires
        inherits(d, "build"@, profile, None),
        cfg_list(d, "build."@ + field) == Ok::<Seq<Seq<char>>, Seq<char>>(base),
        cfg_at(d, "build."@ + profile + "."@ + field) == Some(TomlData::Array(a)),
        all_strs(a),
    ensures
        build_list(d, field, profile, None) == Ok::<Seq<Seq<char>>, Seq<char>>(base + strs_of(a)),
{
    reveal_strlit("build.");
    reveal_strlit("build");
    reveal_strlit(".");
    assert("build."@ + profile + "."@ + field =~= "build"@ + "."@ + profile + "."@ + field);
}

} // verus!
