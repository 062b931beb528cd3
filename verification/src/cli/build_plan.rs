//! What `dcr build` reads from a project's configuration for a profile and target, and the
//! build context it puts together from that, the resolved dependencies and what the caller
//! found on disk.
use vstd::prelude::*;
use crate::cli::gen_info::{
    dir_includes, gen_bool, get_bool_with_profile, joined_nonblank, kind_of, negated_patterns, normalize_kind,
    normalize_target, slashed, source_roots_of, target_dir_of, GenEnv,
};
use crate::project::builder::common::{glob_magic, has_glob_magic};
use crate::project::builder::context::BuildContext;
use crate::project::builder::unix_cc::{ov, push_strings};
use crate::project::config::{opt_view, Config};
use crate::project::deps::ResolvedDeps;
use crate::project::lookup::{
    build_list, build_string, cfg_opt, cfg_str, get_build_steps_with_profile, get_config_opt, get_config_str,
    get_config_value, get_list_with_profile_and_target, get_string_with_profile_and_target, layered_str,
    profile_steps_of, step_view, target_view, BuildStep,
};
use crate::project::value::TomlData;
use crate::utils::build_helpers::{build_compiler_for, get_language_with_profile, resolve_compiler, resolve_tool, strict_profile_language};
use crate::utils::paths::{join, join_path};
use crate::utils::strings::{replace, starts, starts_with, str_eq, trim, trim_seq, views};
use crate::cli::gen_info::env_value;
use crate::platform::opt_str_view;

verus! {

/// The first error in a list of outcomes, if any.
pub open spec fn first_err(errs: Seq<Option<Seq<char>>>) -> Option<Seq<char>>
    decreases errs.len(),
{
    if errs.len() == 0 {
        None
    } else {
        match errs[0] {
            Some(m) => Some(m),
            None => first_err(errs.drop_first()),
        }
    }
}

/// The error of an outcome, if it failed.
pub open spec fn err_of<T>(r: Result<T, Seq<char>>) -> Option<Seq<char>> {
    match r {
        Ok(_) => None,
        Err(m) => Some(m),
    }
}

/// The target a project is built for: the one given, else the profile's `build.target`
/// when it is not empty.
pub open spec fn build_target_of(d: TomlData, profile: Seq<char>, target: Option<Seq<char>>) -> Option<Seq<char>> {
    match target {
        Some(t) => Some(t),
        None => {
            let c = build_string(d, "target"@, profile, None);
            if c.len() == 0 {
                None
            } else {
                Some(c)
            }
        },
    }
}

/// A toolchain setting: the layered `toolchain` value, else `toolchain.<field>`.
pub open spec fn toolchain_of(d: TomlData, field: Seq<char>, profile: Seq<char>, target: Option<Seq<char>>) -> Option<Seq<char>> {
    match layered_str(d, "toolchain"@, field, profile, target) {
        Some(v) => Some(v),
        None => cfg_opt(d, "toolchain."@ + field),
    }
}

/// The `--target=` flag a target adds to the compiler flags, when it is not blank.
pub open spec fn target_flag_of(target: Option<Seq<char>>) -> Option<Seq<char>> {
    match target {
        Some(t) => if trim_seq(t).len() > 0 {
            Some("--target="@ + trim_seq(t))
        } else {
            None
        },
        None => None,
    }
}

/// The compiler flags with the target's flag in front, unless it is there already or another
/// `--target=` flag is.
pub open spec fn with_target_flag(flags: Seq<Seq<char>>, target: Option<Seq<char>>) -> Seq<Seq<char>> {
    match target_flag_of(target) {
        Some(f) => if exists|i: int| 0 <= i < flags.len() && (#[trigger] flags[i] == f || starts(flags[i], "--target="@)) {
            flags
        } else {
            seq![f] + flags
        },
        None => flags,
    }
}

/// The linker flags with `-T<script>` at the end when a linker script is set.
pub open spec fn with_ldscript(flags: Seq<Seq<char>>, script: Seq<char>) -> Seq<Seq<char>> {
    if script.len() > 0 {
        flags.push("-T"@ + script)
    } else {
        flags
    }
}

/// Everything `dcr build` reads from a project's configuration for a profile and target.
pub struct BuildSettings {
    pub name: String,
    pub version: String,
    pub target: Option<String>,
    pub compiler: String,
    pub language: String,
    pub standard: String,
    pub kind: String,
    pub platform: String,
    pub build_type: String,
    pub cflags: Vec<String>,
    pub ldflags: Vec<String>,
    pub filename: String,
    pub extension: String,
    pub excludes: Vec<String>,
    pub includes: Vec<String>,
    pub roots: Vec<String>,
    pub src_disable: bool,
    pub expects: Vec<String>,
    pub pkg_configs: Vec<String>,
    pub generated: Vec<String>,
    pub steps: Vec<BuildStep>,
    pub post_steps: Vec<BuildStep>,
    pub linker: Option<String>,
    pub archiver: Option<String>,
    pub uic: Option<String>,
    pub moc: Option<String>,
    pub rcc: Option<String>,
}

/// The first error reading the settings: the language, then the lists `cflags`, `ldflags`,
/// `exclude`, `include`, `roots`, `expect`, `pkg_config`, `generated`, then the `steps` and
/// `post_steps`.
pub open spec fn settings_error(d: TomlData, profile: Seq<char>, t: Option<Seq<char>>) -> Option<Seq<char>> {
    first_err(
        seq![
            err_of(strict_profile_language(d, profile)),
            err_of(build_list(d, "cflags"@, profile, t)),
            err_of(build_list(d, "ldflags"@, profile, t)),
            err_of(build_list(d, "exclude"@, profile, t)),
            err_of(build_list(d, "include"@, profile, t)),
            err_of(build_list(d, "roots"@, profile, t)),
            err_of(build_list(d, "expect"@, profile, t)),
            err_of(build_list(d, "pkg_config"@, profile, t)),
            err_of(build_list(d, "generated"@, profile, t)),
            err_of(profile_steps_of(d, "steps"@, profile)),
            err_of(profile_steps_of(d, "post_steps"@, profile)),
        ],
    )
}

/// What the settings hold when they could be read (see `read_build_settings`).
pub open spec fn settings_ok(s: BuildSettings, d: TomlData, profile: Seq<char>, target: Option<Seq<char>>, env: GenEnv) -> bool {
    let t = build_target_of(d, profile, target);
    let list = |f: Seq<char>| build_list(d, f, profile, t)->Ok_0;
    let ty = build_string(d, "type"@, profile, t);
    &&& s.name@ == cfg_str(d, "package.name"@)
    &&& s.version@ == cfg_str(d, "package.version"@)
    &&& opt_view(s.target) == t
    &&& s.language@ == strict_profile_language(d, profile)->Ok_0
    &&& s.compiler@ == build_compiler_for(
        s.language@,
        build_string(d, "compiler"@, profile, t),
        toolchain_of(d, "cc"@, profile, t),
        toolchain_of(d, "cxx"@, profile, t),
        toolchain_of(d, "as"@, profile, t),
        opt_view(env.compiler),
        opt_view(env.assembler),
        opt_view(env.cxx),
        opt_view(env.cc),
    )
    &&& s.standard@ == build_string(d, "standard"@, profile, t)
    &&& s.kind@ == build_string(d, "kind"@, profile, t)
    &&& s.platform@ == build_string(d, "platform"@, profile, t)
    &&& s.build_type@ == (if ty.len() == 0 {
        cfg_str(d, "package.type"@)
    } else {
        ty
    })
    &&& views(s.cflags@) == with_target_flag(list("cflags"@), t)
    &&& views(s.ldflags@) == with_ldscript(list("ldflags"@), build_string(d, "ldscript"@, profile, t))
    &&& s.filename@ == build_string(d, "filename"@, profile, t)
    &&& s.extension@ == build_string(d, "extension"@, profile, t)
    &&& views(s.excludes@) == list("exclude"@)
    &&& views(s.includes@) == list("include"@)
    &&& views(s.roots@) == list("roots"@)
    &&& s.src_disable == gen_bool(d, "src_disable"@, profile, false)
    &&& views(s.expects@) == list("expect"@)
    &&& views(s.pkg_configs@) == list("pkg_config"@)
    &&& views(s.generated@) == list("generated"@)
    &&& s.steps@.map_values(|x: BuildStep| step_view(x)) == profile_steps_of(d, "steps"@, profile)->Ok_0
    &&& s.post_steps@.map_values(|x: BuildStep| step_view(x)) == profile_steps_of(d, "post_steps"@, profile)->Ok_0
    &&& opt_view(s.linker) == (if env_value(opt_view(env.linker)) is Some {
        env_value(opt_view(env.linker))
    } else {
        toolchain_of(d, "ld"@, profile, t)
    })
    &&& opt_view(s.archiver) == (if env_value(opt_view(env.archiver)) is Some {
        env_value(opt_view(env.archiver))
    } else {
        toolchain_of(d, "ar"@, profile, t)
    })
    &&& opt_view(s.uic) == toolchain_of(d, "uic"@, profile, t)
    &&& opt_view(s.moc) == toolchain_of(d, "moc"@, profile, t)
    &&& opt_view(s.rcc) == toolchain_of(d, "rcc"@, profile, t)
}

fn toolchain_value(config: &Config, field: &str, profile: &str, target: Option<&str>) -> (r: Option<String>)
    ensures
        opt_view(r) == toolchain_of(config.doc(), field@, profile@, target_view(target)),
{
    match get_config_value(config, "toolchain", field, profile, target) {
        Some(v) => Some(v),
        None => {
            let mut k = "toolchain.".to_owned();
            k.append(field);
            get_config_opt(config, k.as_str())
        },
    }
}

fn opt_as_str(o: &Option<String>) -> (r: Option<&str>)
    ensures
        opt_str_view(r) == opt_view(*o),
        target_view(r) == opt_view(*o),
{
    match o {
        Some(s) => Some(s.as_str()),
        None => None,
    }
}

fn add_target_flag(flags: &mut Vec<String>, target: Option<&str>)
    ensures
        views(final(flags)@) == with_target_flag(views(old(flags)@), target_view(target)),
{
    proof { reveal_strlit("--target="); }
    let t = match target {
        Some(t) => trim(t),
        None => return,
    };
    if t.unicode_len() == 0 {
        return;
    }
    let mut f = "--target=".to_owned();
    f.append(t);
    let ghost fs = views(flags@);
    assert(target_flag_of(target_view(target)) == Some(f@));
    let mut i: usize = 0;
    while i < flags.len()
        invariant
            i <= flags@.len(),
            fs == views(flags@),
            target_flag_of(target_view(target)) == Some(f@),
            "--target="@.len() == 9,
            forall|k: int| 0 <= k < i ==> !(#[trigger] fs[k] == f@ || starts(fs[k], "--target="@)),
        decreases flags@.len() - i,
    {
        if str_eq(flags[i].as_str(), f.as_str()) || starts_with(flags[i].as_str(), "--target=") {
            assert(fs[i as int] == f@ || starts(fs[i as int], "--target="@));
            assert(target_flag_of(target_view(target)) == Some(f@));
            assert(with_target_flag(fs, target_view(target)) == fs);
            return;
        }
        i = i + 1;
    }
    flags.insert(0, f);
    assert(views(flags@) =~= seq![f@] + fs);
}

/// The compiler, linker and archiver of a build (see `settings_ok`).
fn settings_tools(
    language: &String,
    compiler: &String,
    tc_cc: &Option<String>,
    tc_cxx: &Option<String>,
    tc_as: &Option<String>,
    tc_ld: &Option<String>,
    tc_ar: &Option<String>,
    env: &GenEnv,
) -> (r: (String, Option<String>, Option<String>))
    ensures
        r.0@ == build_compiler_for(
            language@,
            compiler@,
            opt_view(*tc_cc),
            opt_view(*tc_cxx),
            opt_view(*tc_as),
            opt_view(env.compiler),
            opt_view(env.assembler),
            opt_view(env.cxx),
            opt_view(env.cc),
        ),
        opt_view(r.1) == (if env_value(opt_view(env.linker)) is Some {
            env_value(opt_view(env.linker))
        } else {
            opt_view(*tc_ld)
        }),
        opt_view(r.2) == (if env_value(opt_view(env.archiver)) is Some {
            env_value(opt_view(env.archiver))
        } else {
            opt_view(*tc_ar)
        }),
{
    let c = resolve_compiler(
        language.as_str(),
        compiler.as_str(),
        opt_as_str(tc_cc),
        opt_as_str(tc_cxx),
        opt_as_str(tc_as),
        opt_as_str(&env.compiler),
        opt_as_str(&env.assembler),
        opt_as_str(&env.cxx),
        opt_as_str(&env.cc),
    );
    let l = resolve_tool(opt_as_str(&env.linker), opt_as_str(tc_ld));
    let a = resolve_tool(opt_as_str(&env.archiver), opt_as_str(tc_ar));
    (c, l, a)
}

/// Reads what `dcr build` needs from the configuration for a profile and a target (see
/// `settings_ok`); the `env` values are those of `DCR_COMPILER`, `DCR_AS`, `DCR_CXX`,
/// `DCR_CC`, `DCR_LD` and `DCR_AR`. Fails with the first error (see `settings_error`).
#[verifier::rlimit(80)]
pub fn read_build_settings(config: &Config, profile: &str, target: Option<&str>, env: &GenEnv) -> (r: Result<BuildSettings, String>)
    ensures
        match r {
            Ok(s) => settings_error(config.doc(), profile@, build_target_of(config.doc(), profile@, target_view(target))) is None
                && settings_ok(s, config.doc(), profile@, target_view(target), *env),
            Err(m) => settings_error(config.doc(), profile@, build_target_of(config.doc(), profile@, target_view(target)))
                == Some(m@),
        },
{
    let ghost d = config.doc();
    proof { reveal_with_fuel(first_err, 12); }
    let name = get_config_str(config, "package.name");
    let version = get_config_str(config, "package.version");
    let configured = get_string_with_profile_and_target(config, "target", profile, None);
    let build_target: Option<String> = match target {
        Some(t) => Some(t.to_owned()),
        None => if configured.unicode_len() == 0 {
            None
        } else {
            Some(configured)
        },
    };
    let ghost t = build_target_of(d, profile@, target_view(target));
    assert(opt_view(build_target) == t);
    let bt = opt_as_str(&build_target);
    let compiler_s = get_string_with_profile_and_target(config, "compiler", profile, bt);
    let language = get_language_with_profile(config, profile)?;
    let standard = get_string_with_profile_and_target(config, "standard", profile, bt);
    let kind = get_string_with_profile_and_target(config, "kind", profile, bt);
    let platform = get_string_with_profile_and_target(config, "platform", profile, bt);
    let mut build_type = get_string_with_profile_and_target(config, "type", profile, bt);
    if build_type.unicode_len() == 0 {
        build_type = get_config_str(config, "package.type");
    }
    let tc_cc = toolchain_value(config, "cc", profile, bt);
    let tc_cxx = toolchain_value(config, "cxx", profile, bt);
    let tc_as = toolchain_value(config, "as", profile, bt);
    let tc_ar = toolchain_value(config, "ar", profile, bt);
    let tc_ld = toolchain_value(config, "ld", profile, bt);
    let uic = toolchain_value(config, "uic", profile, bt);
    let moc = toolchain_value(config, "moc", profile, bt);
    let rcc = toolchain_value(config, "rcc", profile, bt);
    let mut cflags = get_list_with_profile_and_target(config, "cflags", profile, bt)?;
    add_target_flag(&mut cflags, bt);
    let mut ldflags = get_list_with_profile_and_target(config, "ldflags", profile, bt)?;
    let ldscript = get_string_with_profile_and_target(config, "ldscript", profile, bt);
    if ldscript.unicode_len() > 0 {
        let mut l = "-T".to_owned();
        l.append(ldscript.as_str());
        let ghost prev = views(ldflags@);
        ldflags.push(l);
        assert(views(ldflags@) =~= prev.push("-T"@ + ldscript@));
    }
    let filename = get_string_with_profile_and_target(config, "filename", profile, bt);
    let extension = get_string_with_profile_and_target(config, "extension", profile, bt);
    let excludes = get_list_with_profile_and_target(config, "exclude", profile, bt)?;
    let includes = get_list_with_profile_and_target(config, "include", profile, bt)?;
    let roots = get_list_with_profile_and_target(config, "roots", profile, bt)?;
    let src_disable = get_bool_with_profile(config, "src_disable", profile, false);
    let expects = get_list_with_profile_and_target(config, "expect", profile, bt)?;
    let pkg_configs = get_list_with_profile_and_target(config, "pkg_config", profile, bt)?;
    let generated = get_list_with_profile_and_target(config, "generated", profile, bt)?;
    let steps = get_build_steps_with_profile(config, "steps", profile)?;
    let post_steps = get_build_steps_with_profile(config, "post_steps", profile)?;
    let (compiler, linker, archiver) = settings_tools(&language, &compiler_s, &tc_cc, &tc_cxx, &tc_as, &tc_ld, &tc_ar, env);
    Ok(BuildSettings {
        name,
        version,
        target: build_target,
        compiler,
        language,
        standard,
        kind,
        platform,
        build_type,
        cflags,
        ldflags,
        filename,
        extension,
        excludes,
        includes,
        roots,
        src_disable,
        expects,
        pkg_configs,
        generated,
        steps,
        post_steps,
        linker,
        archiver,
        uic,
        moc,
        rcc,
    })
}

/// The exclusions that are not blank and not glob patterns, trimmed, against the project's
/// root.
pub open spec fn joined_non_glob(root: Seq<char>, items: Seq<Seq<char>>) -> Seq<Seq<char>>
    decreases items.len(),
{
    if items.len() == 0 {
        Seq::empty()
    } else {
        let init = joined_non_glob(root, items.drop_last());
        let t = trim_seq(items.last());
        if t.len() > 0 && !glob_magic(slashed(t)) {
            init.push(join_path(root, t))
        } else {
            init
        }
    }
}

/// The build context of a project (`extra_excludes` are directories kept out of its walk,
/// such as its workspace's members): the settings, with the exclusions as directories and
/// as negated include patterns, the source roots, the dependencies' header directories then
/// the `include` entries that are directories (`include_is_dir`), and the flags with those
/// of `pkg-config` after them.
pub open spec fn context_ok(
    ctx: BuildContext,
    s: BuildSettings,
    profile: Seq<char>,
    root: Seq<char>,
    extra_excludes: Seq<Seq<char>>,
    deps: ResolvedDeps,
    pkg_cflags: Seq<Seq<char>>,
    pkg_ldflags: Seq<Seq<char>>,
    include_is_dir: Seq<bool>,
) -> bool {
    &&& ctx.profile@ == profile
    &&& ctx.project_name@ == s.name@
    &&& ctx.compiler@ == s.compiler@
    &&& ctx.language@ == s.language@
    &&& ctx.standard@ == s.standard@
    &&& ov(ctx.target) == opt_view(s.target)
    &&& ov(ctx.target_dir) == target_dir_of(
        match opt_view(s.target) {
            Some(t) => t,
            None => Seq::empty(),
        },
        profile,
    )
    &&& ctx.kind@ == kind_of(s.kind@)
    &&& ov(ctx.platform) == (if trim_seq(s.platform@).len() == 0 {
        None
    } else {
        Some(trim_seq(s.platform@))
    })
    &&& ov(ctx.linker) == opt_view(s.linker)
    &&& ov(ctx.archiver) == opt_view(s.archiver)
    &&& ov(ctx.package_type) == (if s.build_type@.len() == 0 {
        None
    } else {
        Some(s.build_type@)
    })
    &&& views(ctx.source_roots@) == source_roots_of(root, views(s.roots@), s.src_disable)
    &&& views(ctx.exclude_dirs@) == extra_excludes + joined_non_glob(root, views(s.excludes@))
    &&& views(ctx.include_paths@) == negated_patterns(views(s.excludes@)) + views(s.includes@).map_values(|v: Seq<char>| slashed(v))
    &&& views(ctx.include_dirs@) == views(deps.include_dirs@) + dir_includes(root, views(s.includes@), include_is_dir)
    &&& views(ctx.lib_dirs@) == views(deps.lib_dirs@)
    &&& views(ctx.libs@) == views(deps.libs@)
    &&& views(ctx.cflags@) == views(s.cflags@) + pkg_cflags
    &&& views(ctx.ldflags@) == views(s.ldflags@) + pkg_ldflags
    &&& ov(ctx.output_filename) == (if s.filename@.len() == 0 {
        None
    } else {
        Some(s.filename@)
    })
    &&& ov(ctx.output_extension) == (if s.extension@.len() == 0 {
        None
    } else {
        Some(s.extension@)
    })
}

fn push_non_glob(out: &mut Vec<String>, root: &str, items: &Vec<String>)
    ensures
        views(final(out)@) == views(old(out)@) + joined_non_glob(root@, views(items@)),
{
    let ghost start = views(out@);
    let mut i: usize = 0;
    while i < items.len()
        invariant
            i <= items@.len(),
            views(out@) == start + joined_non_glob(root@, views(items@).take(i as int)),
        decreases items@.len() - i,
    {
        assert(views(items@).take(i + 1).drop_last() =~= views(items@).take(i as int));
        assert(views(items@).take(i + 1).last() == items@[i as int]@);
        let t = trim(items[i].as_str());
        if t.unicode_len() > 0 {
            proof { reveal_strlit("\\"); }
            let norm = replace(t, "\\", "/");
            if !has_glob_magic(norm.as_str()) {
                let ghost prev = out@;
                let j = join(root, t);
                out.push(j);
                assert(views(out@) =~= views(prev).push(j@));
            }
        }
        assert(views(out@) =~= start + joined_non_glob(root@, views(items@).take(i + 1)));
        i = i + 1;
    }
    assert(views(items@).take(i as int) =~= views(items@));
}

fn non_empty(s: &String) -> (r: Option<String>)
    ensures
        opt_view(r) == (if s@.len() == 0 {
            None
        } else {
            Some(s@)
        }),
{
    if s.unicode_len() == 0 {
        None
    } else {
        Some(s.clone())
    }
}

/// The build context of a project (see `context_ok`).
pub fn build_context(
    settings: &BuildSettings,
    profile: &str,
    root: &str,
    extra_excludes: &Vec<String>,
    deps: &ResolvedDeps,
    pkg_cflags: &Vec<String>,
    pkg_ldflags: &Vec<String>,
    include_is_dir: &Vec<bool>,
    verbose: bool,
) -> (r: BuildContext)
    ensures
        context_ok(r, *settings, profile@, root@, views(extra_excludes@), *deps, views(pkg_cflags@), views(pkg_ldflags@), include_is_dir@),
        r.verbose == verbose,
{
    let mut exclude_dirs: Vec<String> = Vec::new();
    assert(views(exclude_dirs@) =~= Seq::<Seq<char>>::empty());
    push_strings(&mut exclude_dirs, extra_excludes);
    push_non_glob(&mut exclude_dirs, root, &settings.excludes);
    let include_paths = crate::cli::gen_info::include_patterns_of(&settings.excludes, &settings.includes);
    let source_roots = crate::cli::gen_info::source_roots(root, &settings.roots, settings.src_disable);
    let mut include_dirs: Vec<String> = Vec::new();
    assert(views(include_dirs@) =~= Seq::<Seq<char>>::empty());
    push_strings(&mut include_dirs, &deps.include_dirs);
    crate::cli::gen_info::push_existing_includes(&mut include_dirs, root, &settings.includes, include_is_dir);
    let mut lib_dirs: Vec<String> = Vec::new();
    assert(views(lib_dirs@) =~= Seq::<Seq<char>>::empty());
    push_strings(&mut lib_dirs, &deps.lib_dirs);
    let mut libs: Vec<String> = Vec::new();
    assert(views(libs@) =~= Seq::<Seq<char>>::empty());
    push_strings(&mut libs, &deps.libs);
    let mut cflags: Vec<String> = Vec::new();
    assert(views(cflags@) =~= Seq::<Seq<char>>::empty());
    push_strings(&mut cflags, &settings.cflags);
    push_strings(&mut cflags, pkg_cflags);
    let mut ldflags: Vec<String> = Vec::new();
    assert(views(ldflags@) =~= Seq::<Seq<char>>::empty());
    push_strings(&mut ldflags, &settings.ldflags);
    push_strings(&mut ldflags, pkg_ldflags);
    proof { reveal_strlit(""); }
    let target_name: &str = match &settings.target {
        Some(t) => t.as_str(),
        None => "",
    };
    assert(target_name@ == match opt_view(settings.target) {
        Some(t) => t,
        None => Seq::<char>::empty(),
    });
    let platform = match crate::cli::gen_info::normalize_platform(settings.platform.as_str()) {
        Some(p) => Some(p.to_owned()),
        None => None,
    };
    BuildContext {
        profile: profile.to_owned(),
        project_name: settings.name.clone(),
        compiler: settings.compiler.clone(),
        language: settings.language.clone(),
        standard: settings.standard.clone(),
        target: settings.target.clone(),
        target_dir: normalize_target(target_name, profile),
        kind: normalize_kind(settings.kind.as_str()).to_owned(),
        platform,
        linker: settings.linker.clone(),
        archiver: settings.archiver.clone(),
        package_type: non_empty(&settings.build_type),
        source_roots,
        exclude_dirs,
        include_paths,
        include_dirs,
        lib_dirs,
        libs,
        cflags,
        ldflags,
        output_filename: non_empty(&settings.filename),
        output_extension: non_empty(&settings.extension),
        verbose,
    }
}

} // verus!
