//! The build's generated-code steps, its fingerprint and its output paths: the variables a
//! step's command is written with, the flags it gets, when a step or the build is due, and
//! where the build's output and cache file go.
use vstd::prelude::*;
use crate::cli::run::{suffix_dash, version_vars};
use crate::platform::{bin_path, efi_path, elf_path, lib_path, opt_str_view, output_path, shared_lib_path};
use crate::project::builder::common::file_ext;
use crate::project::builder::context::BuildContext;
use crate::project::builder::unix_cc::{final_name, ov};
use crate::project::deps::sha256_of;
use crate::utils::build_helpers::{parse_version_info, version_full, version_part, version_suffix};
use crate::utils::paths::{join, join_path};
use crate::utils::strings::{
    has_sub, is_whitespace, is_ws, lowercase_of, replace, replace_seq, starts, starts_with, str_eq, to_hex,
    hex_seq, to_lowercase, trim, trim_seq, contains_str, views, join_seq,
};

verus! {

/// The variables a step's input, output and command are written with: the profile and the
/// parts of the project's version.
pub struct StepVars {
    pub profile: String,
    pub version: String,
    pub version_major: String,
    pub version_minor: String,
    pub version_patch: String,
    pub version_suffix: String,
    pub version_suffix_dash: String,
}

/// The step variables for a profile and a version string.
pub fn step_vars(profile: &str, version: &str) -> (r: StepVars)
    ensures
        r.profile@ == profile@,
        r.version@ == version_full(version@),
        r.version_major@ == version_part(version_full(version@), 0),
        r.version_minor@ == version_part(version_full(version@), 1),
        r.version_patch@ == version_part(version_full(version@), 2),
        r.version_suffix@ == version_suffix(version_full(version@)),
        r.version_suffix_dash@ == suffix_dash(version_full(version@)),
{
    let info = parse_version_info(version);
    StepVars {
        profile: profile.to_owned(),
        version: info.full,
        version_major: info.major,
        version_minor: info.minor,
        version_patch: info.patch,
        version_suffix: info.suffix,
        version_suffix_dash: info.suffix_dash,
    }
}

/// `value` with the step variables filled in: `{profile}`, then the version variables in the
/// order `{version}`, `{version_major}`, `{version_minor}`, `{version_patch}`,
/// `{version_suffix}`, `{version_suffix_dash}`.
pub open spec fn vars_filled(value: Seq<char>, vars: StepVars) -> Seq<char> {
    replace_seq(
        replace_seq(
            replace_seq(
                replace_seq(
                    replace_seq(
                        replace_seq(replace_seq(value, "{profile}"@, vars.profile@), "{version}"@, vars.version@),
                        "{version_major}"@,
                        vars.version_major@,
                    ),
                    "{version_minor}"@,
                    vars.version_minor@,
                ),
                "{version_patch}"@,
                vars.version_patch@,
            ),
            "{version_suffix}"@,
            vars.version_suffix@,
        ),
        "{version_suffix_dash}"@,
        vars.version_suffix_dash@,
    )
}

fn fill_vars(value: &str, vars: &StepVars) -> (r: String)
    ensures
        r@ == vars_filled(value@, *vars),
{
    proof {
        reveal_strlit("{profile}");
        reveal_strlit("{version}");
        reveal_strlit("{version_major}");
        reveal_strlit("{version_minor}");
        reveal_strlit("{version_patch}");
        reveal_strlit("{version_suffix}");
        reveal_strlit("{version_suffix_dash}");
    }
    let a = replace(value, "{profile}", vars.profile.as_str());
    let b = replace(a.as_str(), "{version}", vars.version.as_str());
    let c = replace(b.as_str(), "{version_major}", vars.version_major.as_str());
    let d = replace(c.as_str(), "{version_minor}", vars.version_minor.as_str());
    let e = replace(d.as_str(), "{version_patch}", vars.version_patch.as_str());
    let f = replace(e.as_str(), "{version_suffix}", vars.version_suffix.as_str());
    replace(f.as_str(), "{version_suffix_dash}", vars.version_suffix_dash.as_str())
}

/// A step's input or output pattern: `{stem}` first, then the step variables.
pub open spec fn step_value(template: Seq<char>, stem: Seq<char>, vars: StepVars) -> Seq<char> {
    vars_filled(replace_seq(template, "{stem}"@, stem), vars)
}

/// A step's input or output pattern (see `step_value`).
pub fn expand_step_value(template: &str, stem: &str, vars: &StepVars) -> (r: String)
    ensures
        r@ == step_value(template@, stem@, *vars),
{
    proof { reveal_strlit("{stem}"); }
    let s = replace(template, "{stem}", stem);
    fill_vars(s.as_str(), vars)
}

/// The Qt tools a step may name: `uic`, `moc`, `rcc`.
pub struct ToolchainExecs {
    pub uic: String,
    pub moc: String,
    pub rcc: String,
}

/// A step's command: `{in}`, `{out}`, `{uic}`, `{moc}`, `{rcc}`, `{cflags}` and `{stem}`
/// filled in, in that order, then the step variables.
pub open spec fn step_cmd(template: Seq<char>, input: Seq<char>, output: Seq<char>, tools: ToolchainExecs, flags: Seq<char>, stem: Seq<char>, vars: StepVars) -> Seq<char> {
    vars_filled(
        replace_seq(
            replace_seq(
                replace_seq(
                    replace_seq(
                        replace_seq(replace_seq(replace_seq(template, "{in}"@, input), "{out}"@, output), "{uic}"@, tools.uic@),
                        "{moc}"@,
                        tools.moc@,
                    ),
                    "{rcc}"@,
                    tools.rcc@,
                ),
                "{cflags}"@,
                flags,
            ),
            "{stem}"@,
            stem,
        ),
        vars,
    )
}

/// A step's command (see `step_cmd`).
pub fn substitute_step_cmd(template: &str, input: &str, output: &str, tools: &ToolchainExecs, step_flags: &str, stem: &str, vars: &StepVars) -> (r: String)
    ensures
        r@ == step_cmd(template@, input@, output@, *tools, step_flags@, stem@, *vars),
{
    proof {
        reveal_strlit("{in}");
        reveal_strlit("{out}");
        reveal_strlit("{uic}");
        reveal_strlit("{moc}");
        reveal_strlit("{rcc}");
        reveal_strlit("{cflags}");
        reveal_strlit("{stem}");
    }
    let a = replace(template, "{in}", input);
    let b = replace(a.as_str(), "{out}", output);
    let c = replace(b.as_str(), "{uic}", tools.uic.as_str());
    let d = replace(c.as_str(), "{moc}", tools.moc.as_str());
    let e = replace(d.as_str(), "{rcc}", tools.rcc.as_str());
    let f = replace(e.as_str(), "{cflags}", step_flags);
    let g = replace(f.as_str(), "{stem}", stem);
    fill_vars(g.as_str(), vars)
}

/// A compiler that takes MSVC-style flags (by its lower-case name): names with `cl.exe`,
/// `clang-cl` or `msvc`, and `cl` itself.
pub open spec fn msvc_compiler(compiler: Seq<char>) -> bool {
    let c = lowercase_of(compiler);
    has_sub(c, "cl.exe"@) || c == "cl"@ || has_sub(c, "clang-cl"@) || has_sub(c, "msvc"@)
}

/// Whether the compiler takes MSVC-style flags (see `msvc_compiler`).
pub fn is_msvc_compiler(compiler: &str) -> (r: bool)
    ensures
        r == msvc_compiler(compiler@),
{
    let lower = to_lowercase(compiler);
    contains_str(lower.as_str(), "cl.exe") || str_eq(lower.as_str(), "cl") || contains_str(lower.as_str(), "clang-cl")
        || contains_str(lower.as_str(), "msvc")
}

/// An argument of a step's command line: in double quotes (its own quotes escaped) when it
/// holds white space or a quote, else as it is.
pub open spec fn quoted_arg(arg: Seq<char>) -> Seq<char> {
    if exists|i: int| 0 <= i < arg.len() && (is_ws(#[trigger] arg[i]) || arg[i] == '"') {
        "\""@ + replace_seq(arg, "\""@, "\\\""@) + "\""@
    } else {
        arg
    }
}

/// An argument of a step's command line (see `quoted_arg`).
pub fn quote_step_arg(arg: String) -> (r: String)
    ensures
        r@ == quoted_arg(arg@),
{
    let v = crate::utils::strings::chars_of(arg.as_str());
    let mut i: usize = 0;
    let mut found = false;
    while i < v.len()
        invariant
            v@ == arg@,
            i <= v@.len(),
            found == exists|k: int| 0 <= k < i && (is_ws(#[trigger] arg@[k]) || arg@[k] == '"'),
        decreases v@.len() - i,
    {
        if is_whitespace(v[i]) || v[i] == '"' {
            assert(is_ws(arg@[i as int]) || arg@[i as int] == '"');
            found = true;
        }
        i = i + 1;
    }
    if !found {
        return arg;
    }
    proof { reveal_strlit("\""); }
    let escaped = replace(arg.as_str(), "\"", "\\\"");
    let mut r = "\"".to_owned();
    r.append(escaped.as_str());
    r.append("\"");
    r
}

/// The items with later repeats dropped.
pub open spec fn dedup_seq(v: Seq<Seq<char>>) -> Seq<Seq<char>>
    decreases v.len(),
{
    if v.len() == 0 {
        Seq::empty()
    } else {
        let init = dedup_seq(v.drop_last());
        if init.contains(v.last()) {
            init
        } else {
            init.push(v.last())
        }
    }
}

/// The flags one compiler flag gives a step: `-I…` and `-D…` as they are, `/I…` and `/D…`
/// as they are, and for MSVC style a `/D` copy of each `-D…`.
pub open spec fn flag_items(flag: Seq<char>, msvc: bool) -> Seq<Seq<char>> {
    (if starts(flag, "-I"@) || starts(flag, "-D"@) {
        seq![flag]
    } else {
        Seq::empty()
    }) + (if starts(flag, "/I"@) || starts(flag, "/D"@) {
        seq![flag]
    } else {
        Seq::empty()
    }) + (if msvc && starts(flag, "-D"@) {
        seq!["/D"@ + crate::utils::strings::trim_start_matches_seq(flag, "-D"@)]
    } else {
        Seq::empty()
    })
}

/// The flags all compiler flags give a step.
pub open spec fn flags_items(cflags: Seq<Seq<char>>, msvc: bool) -> Seq<Seq<char>>
    decreases cflags.len(),
{
    if cflags.len() == 0 {
        Seq::empty()
    } else {
        flags_items(cflags.drop_last(), msvc) + flag_items(cflags.last(), msvc)
    }
}

/// The flags the header directories give a step: `-I<dir>`, and `/I<dir>` too for MSVC style.
pub open spec fn dir_items(dirs: Seq<Seq<char>>, msvc: bool) -> Seq<Seq<char>>
    decreases dirs.len(),
{
    if dirs.len() == 0 {
        Seq::empty()
    } else {
        dir_items(dirs.drop_last(), msvc) + seq!["-I"@ + dirs.last()] + (if msvc {
            seq!["/I"@ + dirs.last()]
        } else {
            Seq::empty()
        })
    }
}

/// Whether the flags are MSVC style: the compiler takes them, or a flag begins with `/`.
pub open spec fn msvc_style(cflags: Seq<Seq<char>>, compiler: Seq<char>) -> bool {
    msvc_compiler(compiler) || exists|i: int| 0 <= i < cflags.len() && starts(#[trigger] cflags[i], "/"@)
}

/// `{cflags}` of a step's command: the header and define flags (see `flag_items` and
/// `dir_items`) without repeats, each quoted (see `quoted_arg`), joined with spaces.
pub open spec fn step_flags_text(cflags: Seq<Seq<char>>, include_dirs: Seq<Seq<char>>, compiler: Seq<char>) -> Seq<char> {
    let msvc = msvc_style(cflags, compiler);
    join_seq(dedup_seq(flags_items(cflags, msvc) + dir_items(include_dirs, msvc)).map_values(|a: Seq<char>| quoted_arg(a)), " "@)
}

fn push_new(out: &mut Vec<String>, item: String)
    ensures
        views(final(out)@) == (if views(old(out)@).contains(item@) {
            views(old(out)@)
        } else {
            views(old(out)@).push(item@)
        }),
{
    let mut i: usize = 0;
    while i < out.len()
        invariant
            i <= out@.len(),
            forall|k: int| 0 <= k < i ==> out@[k]@ != item@,
        decreases out@.len() - i,
    {
        if str_eq(out[i].as_str(), item.as_str()) {
            assert(views(out@)[i as int] == item@);
            return;
        }
        i = i + 1;
    }
    assert(!views(out@).contains(item@)) by {
        if views(out@).contains(item@) {
            let k = choose|k: int| 0 <= k < views(out@).len() && views(out@)[k] == item@;
            assert(out@[k]@ != item@);
        }
    }
    let ghost prev = out@;
    out.push(item);
    assert(views(out@) =~= views(prev).push(out@.last()@));
}

proof fn lemma_dedup_append(a: Seq<Seq<char>>, x: Seq<char>)
    ensures
        dedup_seq(a.push(x)) == (if dedup_seq(a).contains(x) {
            dedup_seq(a)
        } else {
            dedup_seq(a).push(x)
        }),
{
    assert(a.push(x).drop_last() =~= a);
}

proof fn lemma_dedup_concat(a: Seq<Seq<char>>, b: Seq<Seq<char>>, x: Seq<char>)
    ensures
        dedup_seq(a + b.push(x)) == (if dedup_seq(a + b).contains(x) {
            dedup_seq(a + b)
        } else {
            dedup_seq(a + b).push(x)
        }),
{
    assert(a + b.push(x) =~= (a + b).push(x));
    lemma_dedup_append(a + b, x);
}

/// `{cflags}` of a step's command (see `step_flags_text`).
pub fn build_step_flags(cflags: &Vec<String>, include_dirs: &Vec<String>, compiler: &str) -> (r: String)
    ensures
        r@ == step_flags_text(views(cflags@), views(include_dirs@), compiler@),
{
    proof {
        reveal_strlit("-I");
        reveal_strlit("-D");
        reveal_strlit("/I");
        reveal_strlit("/D");
        reveal_strlit("/");
    }
    let ghost cf = views(cflags@);
    let mut slash = false;
    let mut k: usize = 0;
    while k < cflags.len()
        invariant
            k <= cflags@.len(),
            cf == views(cflags@),
            slash == exists|i: int| 0 <= i < k && starts(#[trigger] cf[i], "/"@),
        decreases cflags@.len() - k,
    {
        if starts_with(cflags[k].as_str(), "/") {
            assert(starts(cf[k as int], "/"@));
            slash = true;
        }
        proof {
            if !starts(cf[k as int], "/"@) && !slash {
                assert forall|i: int| 0 <= i < k + 1 implies !starts(#[trigger] cf[i], "/"@) by {}
            }
        }
        k = k + 1;
    }
    let msvc = is_msvc_compiler(compiler) || slash;
    assert(msvc == msvc_style(cf, compiler@));
    let mut items: Vec<String> = Vec::new();
    let mut i: usize = 0;
    assert(cf.take(0) =~= Seq::<Seq<char>>::empty());
    assert(views(items@) =~= dedup_seq(flags_items(cf.take(0), msvc)));
    while i < cflags.len()
        invariant
            i <= cflags@.len(),
            cf == views(cflags@),
            views(items@) == dedup_seq(flags_items(cf.take(i as int), msvc)),
            "-I"@.len() == 2,
            "-D"@ == seq!['-', 'D'],
            "-I"@ == seq!['-', 'I'],
            "/I"@ == seq!['/', 'I'],
            "/D"@ == seq!['/', 'D'],
        decreases cflags@.len() - i,
    {
        let flag = cflags[i].as_str();
        assert(cf.take(i + 1).drop_last() =~= cf.take(i as int));
        assert(cf.take(i + 1).last() == flag@);
        let ghost base = flags_items(cf.take(i as int), msvc);
        let ghost step = flag_items(flag@, msvc);
        let a1 = starts_with(flag, "-I") || starts_with(flag, "-D");
        if a1 {
            proof { lemma_dedup_append(base, flag@); }
            assert(base + seq![flag@] =~= base.push(flag@));
            push_new(&mut items, flag.to_owned());
        } else {
            assert(base + Seq::<Seq<char>>::empty() =~= base);
        }
        let ghost s1 = if a1 { seq![flag@] } else { Seq::<Seq<char>>::empty() };
        assert(views(items@) == dedup_seq(base + s1));
        let a2 = starts_with(flag, "/I") || starts_with(flag, "/D");
        if a2 {
            proof { lemma_dedup_concat(base, s1, flag@); }
            push_new(&mut items, flag.to_owned());
        }
        let ghost s2 = s1 + if a2 { seq![flag@] } else { Seq::<Seq<char>>::empty() };
        assert(s1.push(flag@) =~= s1 + seq![flag@]);
        assert(views(items@) == dedup_seq(base + s2)) by {
            if a2 {
                assert(base + s1.push(flag@) =~= base + s2);
            } else {
                assert(s2 =~= s1);
            }
        }
        let a3 = msvc && starts_with(flag, "-D");
        if a3 {
            let mut d = "/D".to_owned();
            d.append(crate::utils::strings::trim_start_matches(flag, "-D"));
            proof { lemma_dedup_concat(base, s2, d@); }
            assert(base + s2.push(d@) =~= base + (s2 + seq![d@]));
            push_new(&mut items, d);
        }
        assert(views(items@) == dedup_seq(base + step)) by {
            assert(step =~= s2 + if a3 {
                seq!["/D"@ + crate::utils::strings::trim_start_matches_seq(flag@, "-D"@)]
            } else {
                Seq::<Seq<char>>::empty()
            });
            if !a3 {
                assert(s2 + Seq::<Seq<char>>::empty() =~= s2);
            }
        }
        assert(flags_items(cf.take(i + 1), msvc) == base + step);
        i = i + 1;
    }
    assert(cf.take(i as int) =~= cf);
    let ghost fi = flags_items(cf, msvc);
    let ghost ds = views(include_dirs@);
    let mut j: usize = 0;
    assert(ds.take(0) =~= Seq::<Seq<char>>::empty());
    assert(fi + dir_items(ds.take(0), msvc) =~= fi);
    while j < include_dirs.len()
        invariant
            j <= include_dirs@.len(),
            ds == views(include_dirs@),
            views(items@) == dedup_seq(fi + dir_items(ds.take(j as int), msvc)),
        decreases include_dirs@.len() - j,
    {
        let dir = include_dirs[j].as_str();
        assert(ds.take(j + 1).drop_last() =~= ds.take(j as int));
        assert(ds.take(j + 1).last() == dir@);
        let ghost base = fi + dir_items(ds.take(j as int), msvc);
        let mut a = "-I".to_owned();
        a.append(dir);
        proof { lemma_dedup_append(base, a@); }
        push_new(&mut items, a);
        let ghost b1 = base.push("-I"@ + dir@);
        if msvc {
            let mut b = "/I".to_owned();
            b.append(dir);
            proof { lemma_dedup_append(b1, b@); }
            push_new(&mut items, b);
        }
        assert(fi + dir_items(ds.take(j + 1), msvc) =~= b1 + if msvc {
            seq!["/I"@ + dir@]
        } else {
            Seq::<Seq<char>>::empty()
        });
        proof {
            if msvc {
                assert(b1 + seq!["/I"@ + dir@] =~= b1.push("/I"@ + dir@));
            } else {
                assert(b1 + Seq::<Seq<char>>::empty() =~= b1);
            }
        }
        j = j + 1;
    }
    assert(ds.take(j as int) =~= ds);
    let ghost dd = views(items@);
    let mut quoted: Vec<String> = Vec::new();
    let mut q: usize = 0;
    while q < items.len()
        invariant
            q <= items@.len(),
            dd == views(items@),
            views(quoted@) == dd.map_values(|a: Seq<char>| quoted_arg(a)).take(q as int),
        decreases items@.len() - q,
    {
        let qa = quote_step_arg(items[q].clone());
        let ghost prev = quoted@;
        quoted.push(qa);
        assert(views(quoted@) =~= views(prev).push(quoted_arg(dd[q as int])));
        assert(dd.map_values(|a: Seq<char>| quoted_arg(a)).take(q + 1) =~= dd.map_values(|a: Seq<char>| quoted_arg(a)).take(
            q as int,
        ).push(quoted_arg(dd[q as int])));
        q = q + 1;
    }
    assert(dd.map_values(|a: Seq<char>| quoted_arg(a)).take(q as int) =~= dd.map_values(|a: Seq<char>| quoted_arg(a)));
    crate::utils::strings::join(&quoted, " ")
}

/// Whether a step is due for an input: the output is older than the input, or either's time
/// is unknown (a missing file).
pub fn should_run_step(input_time: Option<u128>, output_time: Option<u128>) -> (r: bool)
    ensures
        r == match (input_time, output_time) {
            (Some(i), Some(o)) => i > o,
            _ => true,
        },
{
    match (input_time, output_time) {
        (Some(i), Some(o)) => i > o,
        _ => true,
    }
}

/// A step with several inputs must name its outputs with `{stem}`.
pub fn check_step_outputs(name: &str, output: &str, inputs: usize) -> (r: Result<(), String>)
    ensures
        r is Ok <==> !(inputs > 1 && !has_sub(output@, "{stem}"@)),
        r matches Err(m) ==> m@ == "build.steps '"@ + name@ + "' output must include {stem} for multiple inputs"@,
{
    if inputs > 1 && !contains_str(output, "{stem}") {
        let mut m = "build.steps '".to_owned();
        m.append(name);
        m.append("' output must include {stem} for multiple inputs");
        return Err(m);
    }
    Ok(())
}

/// Where the build's fingerprint is kept: `.dcr-build.hash` in the target directory, or in
/// `./target/<profile>`.
pub open spec fn build_cache_of(profile: Seq<char>, target_dir: Option<Seq<char>>) -> Seq<char> {
    match target_dir {
        Some(d) => join_path(d, ".dcr-build.hash"@),
        None => join_path(join_path("./target"@, profile), ".dcr-build.hash"@),
    }
}

/// Where the build's fingerprint is kept (see `build_cache_of`).
pub fn build_cache_path(profile: &str, target_dir: Option<&str>) -> (r: String)
    ensures
        r@ == build_cache_of(profile@, opt_str_view(target_dir)),
{
    match target_dir {
        Some(d) => join(d, ".dcr-build.hash"),
        None => {
            let p = join("./target", profile);
            join(p.as_str(), ".dcr-build.hash")
        },
    }
}

/// The build's main output: the static library, shared library, EFI image, ELF image or
/// executable, by kind, named as configured (see `final_name`).
pub open spec fn build_output_of(ctx: BuildContext) -> Seq<char> {
    let name = final_name(ctx);
    let td = ov(ctx.target_dir);
    if ctx.kind@ == "staticlib"@ {
        output_path(ctx.profile@, "lib"@ + name + ".a"@, td)
    } else if ctx.kind@ == "sharedlib"@ {
        output_path(ctx.profile@, "lib"@ + name + ".so"@, td)
    } else if ctx.kind@ == "efi"@ {
        output_path(ctx.profile@, name + ".efi"@, td)
    } else {
        output_path(ctx.profile@, name, td)
    }
}

fn final_file_name(ctx: &BuildContext) -> (r: String)
    ensures
        r@ == final_name(*ctx),
{
    let mut name = match &ctx.output_filename {
        Some(n) => n.clone(),
        None => ctx.project_name.clone(),
    };
    if let Some(e) = &ctx.output_extension {
        if e.unicode_len() > 0 {
            name.append(".");
            name.append(e.as_str());
        }
    }
    name
}

/// The build's main output (see `build_output_of`).
pub fn build_output_path(ctx: &BuildContext) -> (r: String)
    ensures
        r@ == build_output_of(*ctx),
{
    let name = final_file_name(ctx);
    let td: Option<&str> = match &ctx.target_dir {
        Some(d) => Some(d.as_str()),
        None => None,
    };
    if str_eq(ctx.kind.as_str(), "staticlib") {
        return lib_path(ctx.profile.as_str(), name.as_str(), td);
    }
    if str_eq(ctx.kind.as_str(), "sharedlib") {
        return shared_lib_path(ctx.profile.as_str(), name.as_str(), td);
    }
    if str_eq(ctx.kind.as_str(), "efi") {
        return efi_path(ctx.profile.as_str(), name.as_str(), td);
    }
    if str_eq(ctx.kind.as_str(), "elf") {
        return elf_path(ctx.profile.as_str(), name.as_str(), td);
    }
    bin_path(ctx.profile.as_str(), name.as_str(), td)
}

/// A header file: extension `h`, `hpp`, `hh`, `hxx` or `inc`.
pub open spec fn header_ext(path: Seq<char>) -> bool {
    let e = file_ext(path);
    e == "h"@ || e == "hpp"@ || e == "hh"@ || e == "hxx"@ || e == "inc"@
}

/// Whether the file is a header (see `header_ext`).
pub fn is_header_file(path: &str) -> (r: bool)
    ensures
        r == header_ext(path@),
{
    let e = crate::project::builder::common::extension_of(path);
    str_eq(e.as_str(), "h") || str_eq(e.as_str(), "hpp") || str_eq(e.as_str(), "hh") || str_eq(e.as_str(), "hxx") || str_eq(
        e.as_str(),
        "inc",
    )
}

/// The systems whose library files are named differently.
#[derive(PartialEq, Eq, Structural, Clone, Copy)]
pub enum HostOs {
    Windows,
    MacOs,
    Other,
}

/// The file names a library `name` may have: `<name>.lib` on Windows; `lib<name>.a`,
/// `.dylib` and `.so` on macOS; `lib<name>.a`, `.so` and `.so.0` elsewhere.
pub open spec fn lib_names(name: Seq<char>, os: HostOs) -> Seq<Seq<char>> {
    match os {
        HostOs::Windows => seq![name + ".lib"@],
        HostOs::MacOs => seq!["lib"@ + name + ".a"@, "lib"@ + name + ".dylib"@, "lib"@ + name + ".so"@],
        HostOs::Other => seq!["lib"@ + name + ".a"@, "lib"@ + name + ".so"@, "lib"@ + name + ".so.0"@],
    }
}

fn affixed(prefix: &str, name: &str, suffix: &str) -> (r: String)
    ensures
        r@ == prefix@ + name@ + suffix@,
{
    let mut r = prefix.to_owned();
    r.append(name);
    r.append(suffix);
    r
}

/// The file names a library may have (see `lib_names`).
pub fn lib_candidates(name: &str, os: HostOs) -> (r: Vec<String>)
    ensures
        views(r@) == lib_names(name@, os),
{
    let v = match os {
        HostOs::Windows => vec![affixed("", name, ".lib")],
        HostOs::MacOs => vec![affixed("lib", name, ".a"), affixed("lib", name, ".dylib"), affixed("lib", name, ".so")],
        HostOs::Other => vec![affixed("lib", name, ".a"), affixed("lib", name, ".so"), affixed("lib", name, ".so.0")],
    };
    proof { reveal_strlit(""); }
    assert(views(v@) =~= lib_names(name@, os));
    v
}

/// Whether the build can be skipped: its output is there and the cached fingerprint (trimmed)
/// is the current one.
pub fn should_skip_build(output_is_file: bool, cached: Option<&str>, fingerprint: &str) -> (r: bool)
    ensures
        r == (output_is_file && match cached {
            Some(c) => trim_seq(c@) == fingerprint@,
            None => fingerprint@.len() == 0,
        }),
{
    if !output_is_file {
        return false;
    }
    match cached {
        Some(c) => str_eq(trim(c), fingerprint),
        None => fingerprint.unicode_len() == 0,
    }
}

/// The bytes of a number in little-endian order, `k` of them.
pub open spec fn le_bytes(n: nat, k: nat) -> Seq<u8>
    decreases k,
{
    if k == 0 {
        Seq::empty()
    } else {
        seq![(n % 256) as u8] + le_bytes(n / 256, (k - 1) as nat)
    }
}

fn push_le(buf: &mut Vec<u8>, n: u128, k: usize)
    ensures
        final(buf)@ == old(buf)@ + le_bytes(n as nat, k as nat),
{
    let ghost target = buf@ + le_bytes(n as nat, k as nat);
    let mut x: u128 = n;
    let mut i: usize = 0;
    while i < k
        invariant
            i <= k,
            buf@ + le_bytes(x as nat, (k - i) as nat) == target,
        decreases k - i,
    {
        let ghost before = buf@;
        buf.push((x % 256) as u8);
        assert(le_bytes(x as nat, (k - i) as nat) == seq![(x % 256) as u8] + le_bytes((x / 256) as nat, (k - i - 1) as nat));
        assert(buf@ + le_bytes((x / 256) as nat, (k - i - 1) as nat) =~= before + le_bytes(x as nat, (k - i) as nat));
        x = x / 256;
        i = i + 1;
    }
    assert(le_bytes(x as nat, 0) =~= Seq::<u8>::empty());
    assert(buf@ =~= target);
}

/// A file the fingerprint covers: its path, its length, and its modification time in
/// nanoseconds since the epoch, when known.
pub struct FileStamp {
    pub path: String,
    pub len: u64,
    pub modified_nanos: Option<u128>,
}

/// What a file adds to the fingerprint: its path in UTF-8, its length in 8 little-endian
/// bytes, and its time in 16 when known.
pub open spec fn stamp_bytes(f: FileStamp) -> Seq<u8> {
    vstd::utf8::encode_utf8(f.path@) + le_bytes(f.len as nat, 8) + match f.modified_nanos {
        Some(t) => le_bytes(t as nat, 16),
        None => Seq::empty(),
    }
}

/// The strings' bytes in UTF-8, one after another.
pub open spec fn strings_bytes(v: Seq<Seq<char>>) -> Seq<u8>
    decreases v.len(),
{
    if v.len() == 0 {
        Seq::empty()
    } else {
        strings_bytes(v.drop_last()) + vstd::utf8::encode_utf8(v.last())
    }
}

/// The files' contributions, one after another.
pub open spec fn stamps_bytes(v: Seq<FileStamp>) -> Seq<u8>
    decreases v.len(),
{
    if v.len() == 0 {
        Seq::empty()
    } else {
        stamps_bytes(v.drop_last()) + stamp_bytes(v.last())
    }
}

/// An optional string's bytes (none when it is missing).
pub open spec fn opt_bytes(o: Option<Seq<char>>) -> Seq<u8> {
    match o {
        Some(s) => vstd::utf8::encode_utf8(s),
        None => Seq::empty(),
    }
}

/// What the build's fingerprint hashes: the profile, name, compiler, language, standard and
/// kind; the target directory, platform, linker and archiver when set; the header and library
/// directories, libraries, compiler and linker flags; `dcr.toml` and `dcr.lock` (when there is
/// one); then each file (see `stamp_bytes`).
pub open spec fn fingerprint_input(ctx: BuildContext, toml: Seq<char>, lock: Option<Seq<char>>, files: Seq<FileStamp>) -> Seq<u8> {
    vstd::utf8::encode_utf8(ctx.profile@) + vstd::utf8::encode_utf8(ctx.project_name@) + vstd::utf8::encode_utf8(ctx.compiler@)
        + vstd::utf8::encode_utf8(ctx.language@) + vstd::utf8::encode_utf8(ctx.standard@) + vstd::utf8::encode_utf8(ctx.kind@)
        + opt_bytes(ov(ctx.target_dir)) + opt_bytes(ov(ctx.platform)) + opt_bytes(ov(ctx.linker)) + opt_bytes(ov(ctx.archiver))
        + strings_bytes(views(ctx.include_dirs@)) + strings_bytes(views(ctx.lib_dirs@)) + strings_bytes(views(ctx.libs@))
        + strings_bytes(views(ctx.cflags@)) + strings_bytes(views(ctx.ldflags@)) + vstd::utf8::encode_utf8(toml) + opt_bytes(lock)
        + stamps_bytes(files)
}

fn push_bytes(buf: &mut Vec<u8>, s: &str)
    ensures
        final(buf)@ == old(buf)@ + vstd::utf8::encode_utf8(s@),
{
    let b = s.as_bytes();
    let ghost start = buf@;
    let mut i: usize = 0;
    while i < b.len()
        invariant
            i <= b@.len(),
            b@ == vstd::utf8::encode_utf8(s@),
            buf@ == start + b@.take(i as int),
        decreases b@.len() - i,
    {
        buf.push(b[i]);
        assert(b@.take(i + 1) =~= b@.take(i as int).push(b@[i as int]));
        i = i + 1;
    }
    assert(b@.take(i as int) =~= b@);
}

fn push_opt_bytes(buf: &mut Vec<u8>, o: &Option<String>)
    ensures
        final(buf)@ == old(buf)@ + opt_bytes(ov(*o)),
{
    match o {
        Some(s) => push_bytes(buf, s.as_str()),
        None => {
            assert(old(buf)@ + Seq::<u8>::empty() =~= old(buf)@);
        },
    }
}

fn push_strings_bytes(buf: &mut Vec<u8>, v: &Vec<String>)
    ensures
        final(buf)@ == old(buf)@ + strings_bytes(views(v@)),
{
    let ghost start = buf@;
    let mut i: usize = 0;
    while i < v.len()
        invariant
            i <= v@.len(),
            buf@ == start + strings_bytes(views(v@).take(i as int)),
        decreases v@.len() - i,
    {
        assert(views(v@).take(i + 1).drop_last() =~= views(v@).take(i as int));
        assert(views(v@).take(i + 1).last() == v@[i as int]@);
        push_bytes(buf, v[i].as_str());
        assert(buf@ =~= start + strings_bytes(views(v@).take(i + 1)));
        i = i + 1;
    }
    assert(views(v@).take(i as int) =~= views(v@));
}

/// The build's fingerprint: the SHA-256 of what it covers (see `fingerprint_input`), in
/// lower-case hexadecimal.
pub fn compute_build_fingerprint(ctx: &BuildContext, toml: &str, lock: Option<&str>, files: &Vec<FileStamp>) -> (r: String)
    ensures
        r@ == hex_seq(sha256_of(fingerprint_input(*ctx, toml@, opt_str_view(lock), files@))),
{
    let mut buf: Vec<u8> = Vec::new();
    push_bytes(&mut buf, ctx.profile.as_str());
    push_bytes(&mut buf, ctx.project_name.as_str());
    push_bytes(&mut buf, ctx.compiler.as_str());
    push_bytes(&mut buf, ctx.language.as_str());
    push_bytes(&mut buf, ctx.standard.as_str());
    push_bytes(&mut buf, ctx.kind.as_str());
    push_opt_bytes(&mut buf, &ctx.target_dir);
    push_opt_bytes(&mut buf, &ctx.platform);
    push_opt_bytes(&mut buf, &ctx.linker);
    push_opt_bytes(&mut buf, &ctx.archiver);
    push_strings_bytes(&mut buf, &ctx.include_dirs);
    push_strings_bytes(&mut buf, &ctx.lib_dirs);
    push_strings_bytes(&mut buf, &ctx.libs);
    push_strings_bytes(&mut buf, &ctx.cflags);
    push_strings_bytes(&mut buf, &ctx.ldflags);
    push_bytes(&mut buf, toml);
    match lock {
        Some(l) => push_bytes(&mut buf, l),
        None => {},
    }
    let ghost head = buf@;
    let mut i: usize = 0;
    while i < files.len()
        invariant
            i <= files@.len(),
            buf@ == head + stamps_bytes(files@.take(i as int)),
        decreases files@.len() - i,
    {
        assert(files@.take(i + 1).drop_last() =~= files@.take(i as int));
        assert(files@.take(i + 1).last() == files@[i as int]);
        let f = &files[i];
        push_bytes(&mut buf, f.path.as_str());
        push_le(&mut buf, f.len as u128, 8);
        match f.modified_nanos {
            Some(t) => push_le(&mut buf, t, 16),
            None => {},
        }
        assert(buf@ =~= head + stamps_bytes(files@.take(i + 1)));
        i = i + 1;
    }
    assert(files@.take(i as int) =~= files@);
    assert(buf@ =~= fingerprint_input(*ctx, toml@, opt_str_view(lock), files@));
    let h = crate::project::deps::sha256_digest(buf.as_slice());
    to_hex(h.as_slice())
}

} // verus!
