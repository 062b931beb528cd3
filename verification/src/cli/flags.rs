//! The flags of `dcr build` and `dcr run`.
use vstd::prelude::*;
use crate::profile::{flags, profile_flags, PROFILE};
use crate::utils::strings::{starts, starts_with, str_eq, trim_start_matches, trim_start_matches_seq};

verus! {

/// What `dcr build` / `dcr run` were asked for.
pub struct BuildRunFlags {
    pub profile: String,
    pub target: Option<String>,
    pub force: bool,
    pub clean: bool,
    pub verbose: bool,
}

/// The flags read so far: profile, target, `--force`, `--clean`, `--verbose`.
pub type FlagScan = (Seq<char>, Option<Seq<char>>, bool, bool, bool);

/// Reads the flags from `args[i..]` on top of `st`; `seen` tells whether a profile flag was
/// read already, so that a second one is refused. An error carries the warning to print.
pub open spec fn scan_flags(args: Seq<Seq<char>>, i: int, st: FlagScan, seen: bool) -> Result<FlagScan, Seq<char>>
    decreases args.len() - i,
{
    if i < 0 || i >= args.len() {
        Ok(st)
    } else {
        let a = args[i];
        let c = trim_start_matches_seq(a, "--"@);
        if !starts(a, "--"@) {
            Err("Unknown argument"@)
        } else if c == "force"@ {
            scan_flags(args, i + 1, (st.0, st.1, true, st.3, st.4), seen)
        } else if c == "clean"@ {
            scan_flags(args, i + 1, (st.0, st.1, st.2, true, st.4), seen)
        } else if c == "verbose"@ {
            scan_flags(args, i + 1, (st.0, st.1, st.2, st.3, true), seen)
        } else if c == "target"@ {
            if i + 1 < args.len() {
                scan_flags(args, i + 2, (st.0, Some(args[i + 1]), st.2, st.3, st.4), seen)
            } else {
                Err("--target requires a value"@)
            }
        } else if profile_flags(c) is Some {
            if seen {
                Err("Duplicate profile flag"@)
            } else {
                scan_flags(args, i + 1, (c, st.1, st.2, st.3, st.4), true)
            }
        } else {
            Err("Unknown build flag"@)
        }
    }
}

/// The view of an optional string.
pub open spec fn opt_string_view(o: Option<String>) -> Option<Seq<char>> {
    match o {
        Some(s) => Some(s@),
        None => None,
    }
}

/// Reads `--force`, `--clean`, `--verbose`, `--target <t>` and one profile flag
/// (`--release`, `--debug`, in any position; a second profile flag is refused); the profile
/// is `debug` unless one is given. An error is the warning the command prints before it fails.
pub fn parse_build_run_flags(args: &Vec<String>) -> (r: Result<BuildRunFlags, String>)
    ensures
        match r {
            Ok(f) => scan_flags(args@.map_values(|s: String| s@), 0, ("debug"@, None, false, false, false), false) == Ok::<
                FlagScan,
                Seq<char>,
            >((f.profile@, opt_string_view(f.target), f.force, f.clean, f.verbose)),
            Err(m) => scan_flags(args@.map_values(|s: String| s@), 0, ("debug"@, None, false, false, false), false)
                == Err::<FlagScan, Seq<char>>(m@),
        },
{
    let ghost a = args@.map_values(|s: String| s@);
    let mut profile = PROFILE.to_owned();
    let mut target: Option<String> = None;
    let mut force = false;
    let mut clean = false;
    let mut verbose = false;
    let mut seen = false;
    let mut i: usize = 0;
    while i < args.len()
        invariant
            a == args@.map_values(|s: String| s@),
            i <= args@.len(),
            scan_flags(a, 0, ("debug"@, None, false, false, false), false) == scan_flags(
                a,
                i as int,
                (profile@, opt_string_view(target), force, clean, verbose),
                seen,
            ),
        decreases args@.len() - i,
    {
        let arg = args[i].as_str();
        assert(a[i as int] == arg@);
        if !starts_with(arg, "--") {
            return Err("Unknown argument".to_owned());
        }
        let candidate = trim_start_matches(arg, "--");
        if str_eq(candidate, "force") {
            force = true;
            i = i + 1;
        } else if str_eq(candidate, "clean") {
            clean = true;
            i = i + 1;
        } else if str_eq(candidate, "verbose") {
            verbose = true;
            i = i + 1;
        } else if str_eq(candidate, "target") {
            if i + 1 < args.len() {
                assert(a[i + 1] == args@[i + 1]@);
                target = Some(args[i + 1].clone());
                i = i + 2;
            } else {
                return Err("--target requires a value".to_owned());
            }
        } else if flags(candidate).is_some() {
            if seen {
                return Err("Duplicate profile flag".to_owned());
            }
            profile = candidate.to_owned();
            seen = true;
            i = i + 1;
        } else {
            return Err("Unknown build flag".to_owned());
        }
    }
    Ok(BuildRunFlags { profile, target, force, clean, verbose })
}

} // verus!
