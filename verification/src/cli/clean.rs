//! `dcr clean`: which flags it takes, which directory it removes, and which extra paths
//! (`build.clean`) it removes too.
use vstd::prelude::*;
use crate::cli::flags::opt_string_view;
use crate::cli::run::{fill_version_vars, str_at, str_or_empty, version_vars};
use crate::platform::opt_str_view;
use crate::profile::{flags, profile_flags};
use crate::project::config::Config;
use crate::project::deps::{expand_profile, expand_profile_seq};
use crate::project::value::TomlData;
use crate::utils::strings::{starts, starts_with, str_eq, trim, trim_seq, trim_start_matches, trim_start_matches_seq, views};

verus! {

/// The flags of `dcr clean`: a profile, a target, and `--all` for the workspace's members.
pub struct CleanFlags {
    pub profile: Option<String>,
    pub target: Option<String>,
    pub all: bool,
}

/// The flags read so far: profile, target, `--all`.
pub type CleanScan = (Option<Seq<char>>, Option<Seq<char>>, bool);

/// Reads the flags from `args[i..]` on top of `st`; an error is the message to print.
pub open spec fn scan_clean(args: Seq<Seq<char>>, i: int, st: CleanScan) -> Result<CleanScan, Seq<char>>
    decreases args.len() - i,
{
    if i < 0 || i >= args.len() {
        Ok(st)
    } else {
        let a = args[i];
        let c = trim_start_matches_seq(a, "--"@);
        if a == "--all"@ {
            scan_clean(args, i + 1, (st.0, st.1, true))
        } else if a == "--target"@ {
            if i + 1 < args.len() {
                scan_clean(args, i + 2, (st.0, Some(args[i + 1]), st.2))
            } else {
                Err("--target requires a value"@)
            }
        } else if starts(a, "--"@) && profile_flags(c) is Some {
            if st.0 is Some {
                Err("Duplicate profile flag"@)
            } else {
                scan_clean(args, i + 1, (Some(c), st.1, st.2))
            }
        } else {
            Err("Unknown argument"@)
        }
    }
}

/// Reads `--all`, `--target <t>` and one profile flag (`--debug`, `--release`); anything else
/// is an unknown argument.
pub fn parse_clean_flags(args: &Vec<String>) -> (r: Result<CleanFlags, String>)
    ensures
        match r {
            Ok(f) => scan_clean(views(args@), 0, (None, None, false)) == Ok::<CleanScan, Seq<char>>(
                (opt_string_view(f.profile), opt_string_view(f.target), f.all),
            ),
            Err(m) => scan_clean(views(args@), 0, (None, None, false)) == Err::<CleanScan, Seq<char>>(m@),
        },
{
    let ghost a = views(args@);
    let mut profile: Option<String> = None;
    let mut target: Option<String> = None;
    let mut all = false;
    let mut i: usize = 0;
    while i < args.len()
        invariant
            a == views(args@),
            i <= args@.len(),
            scan_clean(a, 0, (None, None, false)) == scan_clean(
                a,
                i as int,
                (opt_string_view(profile), opt_string_view(target), all),
            ),
        decreases args@.len() - i,
    {
        let arg = args[i].as_str();
        assert(a[i as int] == arg@);
        if str_eq(arg, "--all") {
            all = true;
            i = i + 1;
        } else if str_eq(arg, "--target") {
            if i + 1 < args.len() {
                assert(a[i + 1] == args@[i + 1]@);
                target = Some(args[i + 1].clone());
                i = i + 2;
            } else {
                return Err("--target requires a value".to_owned());
            }
        } else if starts_with(arg, "--") && flags(trim_start_matches(arg, "--")).is_some() {
            if profile.is_some() {
                return Err("Duplicate profile flag".to_owned());
            }
            profile = Some(trim_start_matches(arg, "--").to_owned());
            i = i + 1;
        } else {
            return Err("Unknown argument".to_owned());
        }
    }
    Ok(CleanFlags { profile, target, all })
}

/// The target whose directory is cleaned: the one given, else `build.target` when it is not
/// blank (trimmed), else the host's.
pub open spec fn clean_target_of(d: TomlData, given: Option<Seq<char>>, host: Seq<char>) -> Seq<char> {
    match given {
        Some(t) => t,
        None => match str_at(d, "build.target"@) {
            Some(t) => if trim_seq(t).len() > 0 {
                trim_seq(t)
            } else {
                host
            },
            None => host,
        },
    }
}

/// The target whose directory is cleaned (see `clean_target_of`).
pub fn clean_target(config: &Config, given: Option<&str>, host: &str) -> (r: String)
    ensures
        r@ == clean_target_of(config.doc(), opt_str_view(given), host@),
{
    if let Some(t) = given {
        return t.to_owned();
    }
    let configured = match config.get("build.target") {
        Some(v) => v.as_str(),
        None => None,
    };
    match configured {
        Some(t) => {
            let tt = trim(t);
            if tt.unicode_len() > 0 {
                tt.to_owned()
            } else {
                host.to_owned()
            }
        },
        None => host.to_owned(),
    }
}

/// The directory a profile's clean removes: `target/<target>/<profile>`, or
/// `target/<profile>` without a target.
pub open spec fn clean_dir_of(profile: Seq<char>, target: Option<Seq<char>>) -> Seq<char> {
    match target {
        Some(t) => "target/"@ + t + "/"@ + profile,
        None => "target/"@ + profile,
    }
}

/// The directory a profile's clean removes (see `clean_dir_of`).
pub fn clean_dir(profile: &str, target: Option<&str>) -> (r: String)
    ensures
        r@ == clean_dir_of(profile@, opt_str_view(target)),
{
    let mut d = "target/".to_owned();
    if let Some(t) = target {
        d.append(t);
        d.append("/");
    }
    d.append(profile);
    d
}

/// Whether a profile's directory is there to clean: `target/` (whose entries are
/// `target_items`) holds the target's directory, or, without a target, the profile's.
pub fn clean_dir_present(profile: &str, target: Option<&str>, target_items: &Vec<String>) -> (r: bool)
    ensures
        r == views(target_items@).contains(
            match target {
                Some(t) => t@,
                None => profile@,
            },
        ),
{
    let name: &str = match target {
        Some(t) => t,
        None => profile,
    };
    let mut i: usize = 0;
    while i < target_items.len()
        invariant
            i <= target_items@.len(),
            name@ == (match target {
                Some(t) => t@,
                None => profile@,
            }),
            forall|k: int| 0 <= k < i ==> target_items@[k]@ != name@,
        decreases target_items@.len() - i,
    {
        if str_eq(target_items[i].as_str(), name) {
            assert(views(target_items@)[i as int] == name@);
            return true;
        }
        i = i + 1;
    }
    assert(!views(target_items@).contains(name@)) by {
        if views(target_items@).contains(name@) {
            let k = choose|k: int| 0 <= k < views(target_items@).len() && views(target_items@)[k] == name@;
            assert(target_items@[k]@ != name@);
        }
    }
    false
}

/// `value` with the project's version variables filled in (see `version_vars`).
pub fn substitute_version_vars(value: &str, config: &Config) -> (r: String)
    ensures
        r@ == version_vars(value@, str_or_empty(config.doc(), "package.version"@)),
{
    proof { reveal_strlit(""); }
    let version: &str = match config.get("package.version") {
        Some(v) => match v.as_str() {
            Some(s) => s,
            None => "",
        },
        None => "",
    };
    fill_version_vars(value, version)
}

/// The extra paths a profile's clean removes: the strings of `build.clean`, with `{profile}`
/// and the version variables filled in (items that are not strings are skipped).
pub open spec fn clean_items(a: Seq<TomlData>, profile: Seq<char>, version: Seq<char>) -> Seq<Seq<char>>
    decreases a.len(),
{
    if a.len() == 0 {
        Seq::empty()
    } else {
        let init = clean_items(a.drop_last(), profile, version);
        match a.last() {
            TomlData::Str(s) => init.push(version_vars(expand_profile_seq(s, profile), version)),
            _ => init,
        }
    }
}

/// The glob patterns of the extra paths a profile's clean removes (see `clean_items`);
/// `build.clean` must be an array.
pub open spec fn clean_patterns_of(d: TomlData, profile: Seq<char>) -> Result<Seq<Seq<char>>, Seq<char>> {
    match crate::project::lookup::cfg_at(d, "build.clean"@) {
        Some(TomlData::Array(a)) => Ok(clean_items(a, profile, str_or_empty(d, "package.version"@))),
        Some(_) => Err("build.clean must be an array of strings"@),
        None => Ok(Seq::empty()),
    }
}

/// The glob patterns of the extra paths a profile's clean removes (see `clean_patterns_of`).
pub fn clean_patterns(config: &Config, profile: &str) -> (r: Result<Vec<String>, String>)
    ensures
        match r {
            Ok(v) => clean_patterns_of(config.doc(), profile@) == Ok::<Seq<Seq<char>>, Seq<char>>(views(v@)),
            Err(m) => clean_patterns_of(config.doc(), profile@) == Err::<Seq<Seq<char>>, Seq<char>>(m@),
        },
{
    let mut out: Vec<String> = Vec::new();
    assert(views(out@) =~= Seq::<Seq<char>>::empty());
    let v = match config.get("build.clean") {
        Some(v) => v,
        None => return Ok(out),
    };
    let a = match v.as_array() {
        Some(a) => a,
        None => return Err("build.clean must be an array of strings".to_owned()),
    };
    let ghost d = v.data()->Array_0;
    let ghost version = str_or_empty(config.doc(), "package.version"@);
    let mut i: usize = 0;
    while i < a.len()
        invariant
            i <= a@.len(),
            d.len() == a@.len(),
            forall|j: int| 0 <= j < a@.len() ==> #[trigger] d[j] == a@[j].data(),
            version == str_or_empty(config.doc(), "package.version"@),
            views(out@) == clean_items(d.take(i as int), profile@, version),
        decreases a@.len() - i,
    {
        assert(d.take(i + 1).drop_last() =~= d.take(i as int));
        assert(d.take(i + 1).last() == a@[i as int].data());
        if let Some(s) = a[i].as_str() {
            let e = expand_profile(s, profile);
            let f = substitute_version_vars(e.as_str(), config);
            let ghost prev = out@;
            out.push(f);
            assert(views(out@) =~= views(prev).push(f@));
        }
        i = i + 1;
    }
    assert(d.take(i as int) =~= d);
    Ok(out)
}

} // verus!
