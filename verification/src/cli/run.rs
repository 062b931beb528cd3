//! `dcr run`: the command that runs a project (a configured `run.cmd` or the built binary),
//! with the project's variables filled in.
use vstd::prelude::*;
use crate::cli::flags::{opt_string_view, BuildRunFlags};
use crate::cli::gen_info::{normalize_target, target_dir_of};
use crate::platform::{bin_path, opt_str_view, output_path};
use crate::project::config::Config;
use crate::project::lookup::cfg_at;
use crate::project::value::data_str;
use crate::utils::build_helpers::{
    normalize_target_os, parse_version_info, target_triple, version_full, version_part, version_suffix,
};
use crate::utils::strings::{replace, replace_seq, str_eq, trim, trim_seq};

verus! {

/// The string at a dotted key, if it holds one.
pub open spec fn str_at(d: crate::project::value::TomlData, key: Seq<char>) -> Option<Seq<char>> {
    match cfg_at(d, key) {
        Some(v) => data_str(v),
        None => None,
    }
}

fn config_str<'a>(config: &'a Config, key: &str) -> (r: Option<&'a str>)
    ensures
        opt_str_view(r) == str_at(config.doc(), key@),
{
    match config.get(key) {
        Some(v) => v.as_str(),
        None => None,
    }
}

/// `{version_suffix}` with its dash: `-` and the suffix, or nothing without a suffix.
pub open spec fn suffix_dash(full: Seq<char>) -> Seq<char> {
    if version_suffix(full).len() == 0 {
        Seq::empty()
    } else {
        seq!['-'] + version_suffix(full)
    }
}

/// `value` with the version variables filled in from `version`: `{version}`,
/// `{version_major}`, `{version_minor}`, `{version_patch}`, `{version_suffix}` and
/// `{version_suffix_dash}`, in that order.
pub open spec fn version_vars(value: Seq<char>, version: Seq<char>) -> Seq<char> {
    let full = version_full(version);
    replace_seq(
        replace_seq(
            replace_seq(
                replace_seq(
                    replace_seq(replace_seq(value, "{version}"@, full), "{version_major}"@, version_part(full, 0)),
                    "{version_minor}"@,
                    version_part(full, 1),
                ),
                "{version_patch}"@,
                version_part(full, 2),
            ),
            "{version_suffix}"@,
            version_suffix(full),
        ),
        "{version_suffix_dash}"@,
        suffix_dash(full),
    )
}

/// `value` with the version variables filled in (see `version_vars`).
pub fn fill_version_vars(value: &str, version: &str) -> (r: String)
    ensures
        r@ == version_vars(value@, version@),
{
    proof {
        reveal_strlit("{version}");
        reveal_strlit("{version_major}");
        reveal_strlit("{version_minor}");
        reveal_strlit("{version_patch}");
        reveal_strlit("{version_suffix}");
        reveal_strlit("{version_suffix_dash}");
    }
    let info = parse_version_info(version);
    let a = replace(value, "{version}", info.full.as_str());
    let b = replace(a.as_str(), "{version_major}", info.major.as_str());
    let c = replace(b.as_str(), "{version_minor}", info.minor.as_str());
    let d = replace(c.as_str(), "{version_patch}", info.patch.as_str());
    let e = replace(d.as_str(), "{version_suffix}", info.suffix.as_str());
    replace(e.as_str(), "{version_suffix_dash}", info.suffix_dash.as_str())
}

/// A run command with its variables filled in: `{profile}`, then the version variables.
pub open spec fn run_vars(cmd: Seq<char>, profile: Seq<char>, version: Seq<char>) -> Seq<char> {
    version_vars(replace_seq(cmd, "{profile}"@, profile), version)
}

/// A run command with its variables filled in (see `run_vars`).
pub fn substitute_run_vars(cmd: &str, profile: &str, version: &str) -> (r: String)
    ensures
        r@ == run_vars(cmd@, profile@, version@),
{
    proof { reveal_strlit("{profile}"); }
    let p = replace(cmd, "{profile}", profile);
    fill_version_vars(p.as_str(), version)
}

/// `run.<name>.cmd`.
pub open spec fn run_key(name: Seq<char>) -> Seq<char> {
    "run."@ + name + ".cmd"@
}

fn run_key_of(name: &str) -> (r: String)
    ensures
        r@ == run_key(name@),
{
    let mut k = "run.".to_owned();
    k.append(name);
    k.append(".cmd");
    k
}

/// The configured run command for a profile and target: the target's (by its triple, else by
/// the name given), else the profile's, else `run.cmd`; none when it is blank. It is trimmed,
/// and its variables are filled in.
pub open spec fn run_cmd_of(d: crate::project::value::TomlData, profile: Seq<char>, target: Option<Seq<char>>, version: Seq<char>) -> Option<Seq<char>> {
    let target_cmd = match target {
        Some(t) => match cfg_at(d, run_key(target_triple(t))) {
            Some(v) => data_str(v),
            None => str_at(d, run_key(t)),
        },
        None => None,
    };
    let cmd = match target_cmd {
        Some(c) => Some(c),
        None => match str_at(d, run_key(profile)) {
            Some(c) => Some(c),
            None => str_at(d, "run.cmd"@),
        },
    };
    match cmd {
        Some(c) => if trim_seq(c).len() == 0 {
            None
        } else {
            Some(run_vars(trim_seq(c), profile, version))
        },
        None => None,
    }
}

/// The configured run command (see `run_cmd_of`).
pub fn get_run_cmd(config: &Config, profile: &str, target: Option<&str>, version: &str) -> (r: Option<String>)
    ensures
        match r {
            Some(c) => run_cmd_of(config.doc(), profile@, opt_str_view(target), version@) == Some(c@),
            None => run_cmd_of(config.doc(), profile@, opt_str_view(target), version@) is None,
        },
{
    let base = config_str(config, "run.cmd");
    let target_cmd: Option<&str> = match target {
        Some(t) => {
            let nt = normalize_target_os(t);
            let k1 = run_key_of(nt);
            match config.get(k1.as_str()) {
                Some(v) => v.as_str(),
                None => {
                    let k2 = run_key_of(t);
                    config_str(config, k2.as_str())
                },
            }
        },
        None => None,
    };
    let kp = run_key_of(profile);
    let profile_cmd = config_str(config, kp.as_str());
    let cmd = match target_cmd {
        Some(c) => c,
        None => match profile_cmd {
            Some(c) => c,
            None => match base {
                Some(c) => c,
                None => return None,
            },
        },
    };
    let trimmed = trim(cmd);
    if trimmed.unicode_len() == 0 {
        None
    } else {
        Some(substitute_run_vars(trimmed, profile, version))
    }
}

/// What `dcr run` does after the build: run the configured command in a shell, or run the
/// project's binary at `bin_path` (built for `target_dir`, when there is one).
pub struct RunPlan {
    pub project_name: String,
    pub profile: String,
    pub command: Option<String>,
    pub bin_path: String,
    pub target_dir: Option<String>,
}

/// A kind of output that cannot be run.
pub open spec fn unrunnable(kind: Seq<char>) -> bool {
    kind == "staticlib"@ || kind == "sharedlib"@ || kind == "efi"@ || kind == "elf"@
}

/// The kind of output for a profile: `build.<profile>.kind`, else `build.kind`, trimmed.
pub open spec fn run_kind(d: crate::project::value::TomlData, profile: Seq<char>) -> Seq<char> {
    trim_seq(
        match str_at(d, "build."@ + profile + ".kind"@) {
            Some(k) => k,
            None => match str_at(d, "build.kind"@) {
                Some(k) => k,
                None => Seq::empty(),
            },
        },
    )
}

/// The string at a key, or the empty string.
pub open spec fn str_or_empty(d: crate::project::value::TomlData, key: Seq<char>) -> Seq<char> {
    match str_at(d, key) {
        Some(s) => s,
        None => Seq::empty(),
    }
}

/// The target `dcr run` works for: the one given, else the host's.
pub open spec fn run_target(flags: BuildRunFlags, host_target: Seq<char>) -> Seq<char> {
    match flags.target {
        Some(t) => t@,
        None => host_target,
    }
}

/// What `dcr run` will do for the flags (`host_target` is the triple of the machine it runs
/// on): the configured run command for the profile and target, else the binary; a library
/// kind without a run command cannot be run.
pub fn plan_run(config: &Config, flags: &BuildRunFlags, host_target: &str) -> (r: Result<RunPlan, String>)
    ensures
        ({
            let d = config.doc();
            let target = run_target(*flags, host_target@);
            let cmd = run_cmd_of(d, flags.profile@, Some(target), str_or_empty(d, "package.version"@));
            match r {
                Ok(p) => {
                    &&& !(cmd is None && unrunnable(run_kind(d, flags.profile@)))
                    &&& p.project_name@ == str_or_empty(d, "package.name"@)
                    &&& p.profile@ == flags.profile@
                    &&& opt_string_view(p.command) == cmd
                    &&& opt_string_view(p.target_dir) == target_dir_of(target, flags.profile@)
                    &&& p.bin_path@ == output_path(flags.profile@, p.project_name@, target_dir_of(target, flags.profile@))
                },
                Err(m) => cmd is None && unrunnable(run_kind(d, flags.profile@)) && m@ == "Cannot run library build"@,
            }
        }),
{
    let project_name: &str = match config_str(config, "package.name") {
        Some(s) => s,
        None => "",
    };
    proof { reveal_strlit(""); }
    let target: &str = match &flags.target {
        Some(t) => t.as_str(),
        None => host_target,
    };
    let mut kp = "build.".to_owned();
    kp.append(flags.profile.as_str());
    kp.append(".kind");
    let build_kind: &str = match config_str(config, kp.as_str()) {
        Some(k) => k,
        None => match config_str(config, "build.kind") {
            Some(k) => k,
            None => "",
        },
    };
    let target_dir = normalize_target(target, flags.profile.as_str());
    let version: &str = match config_str(config, "package.version") {
        Some(v) => v,
        None => "",
    };
    let run_cmd = get_run_cmd(config, flags.profile.as_str(), Some(target), version);
    let kind = trim(build_kind);
    assert(kp@ == "build."@ + flags.profile@ + ".kind"@);
    assert(kind@ == run_kind(config.doc(), flags.profile@));
    assert(target@ == run_target(*flags, host_target@));
    if run_cmd.is_none() && (str_eq(kind, "staticlib") || str_eq(kind, "sharedlib") || str_eq(kind, "efi") || str_eq(kind, "elf")) {
        return Err("Cannot run library build".to_owned());
    }
    let bin = match &target_dir {
        Some(t) => bin_path(flags.profile.as_str(), project_name, Some(t.as_str())),
        None => bin_path(flags.profile.as_str(), project_name, None),
    };
    Ok(RunPlan {
        project_name: project_name.to_owned(),
        profile: flags.profile.clone(),
        command: run_cmd,
        bin_path: bin,
        target_dir,
    })
}

} // verus!
