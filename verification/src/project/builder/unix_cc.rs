//! The Unix-style compiler backend (`cc`, `gcc`, `clang`): the command lines that compile each
//! source and link or archive the objects.
use vstd::prelude::*;
use crate::platform::{bin_path, lib_path, opt_str_view, output_path, shared_lib_path};
use crate::profile::{flags, profile_flags, str_views};
use crate::project::builder::common::file_ext;
use crate::project::builder::context::BuildContext;
use crate::project::rules::blank;
use crate::utils::paths::{set_extension, with_ext};
use crate::utils::strings::{is_blank, lowercase_of, str_eq, to_lowercase, views};

verus! {

/// The view of an optional string.
pub open spec fn ov(o: Option<String>) -> Option<Seq<char>> {
    match o {
        Some(s) => Some(s@),
        None => None,
    }
}

/// `prefix` before each item.
pub open spec fn prefixed(prefix: Seq<char>, v: Seq<Seq<char>>) -> Seq<Seq<char>> {
    v.map_values(|x: Seq<char>| prefix + x)
}

/// Appends `prefix` + each item.
pub fn push_prefixed(out: &mut Vec<String>, prefix: &str, items: &Vec<String>)
    ensures
        views(final(out)@) == views(old(out)@) + prefixed(prefix@, views(items@)),
{
    let ghost start = views(out@);
    let mut i: usize = 0;
    while i < items.len()
        invariant
            i <= items@.len(),
            views(out@) == start + prefixed(prefix@, views(items@)).take(i as int),
        decreases items@.len() - i,
    {
        let mut a = prefix.to_owned();
        a.append(items[i].as_str());
        let ghost prev = out@;
        out.push(a);
        assert(views(out@) =~= views(prev).push(prefix@ + items@[i as int]@));
        assert(prefixed(prefix@, views(items@)).take(i + 1) =~= prefixed(prefix@, views(items@)).take(i as int).push(
            prefix@ + items@[i as int]@,
        ));
        i = i + 1;
    }
    assert(prefixed(prefix@, views(items@)).take(i as int) =~= prefixed(prefix@, views(items@)));
}

/// Appends each item.
pub fn push_strings(out: &mut Vec<String>, items: &Vec<String>)
    ensures
        views(final(out)@) == views(old(out)@) + views(items@),
{
    let ghost start = views(out@);
    let mut i: usize = 0;
    while i < items.len()
        invariant
            i <= items@.len(),
            views(out@) == start + views(items@).take(i as int),
        decreases items@.len() - i,
    {
        let ghost prev = out@;
        out.push(items[i].clone());
        assert(views(out@) =~= views(prev).push(items@[i as int]@));
        assert(views(items@).take(i + 1) =~= views(items@).take(i as int).push(items@[i as int]@));
        i = i + 1;
    }
    assert(views(items@).take(i as int) =~= views(items@));
}

/// Appends each string slice.
pub fn push_strs(out: &mut Vec<String>, items: &Vec<&str>)
    ensures
        views(final(out)@) == views(old(out)@) + str_views(items@),
{
    let ghost start = views(out@);
    let mut i: usize = 0;
    while i < items.len()
        invariant
            i <= items@.len(),
            views(out@) == start + str_views(items@).take(i as int),
        decreases items@.len() - i,
    {
        let ghost prev = out@;
        out.push(items[i].to_owned());
        assert(views(out@) =~= views(prev).push(items@[i as int]@));
        assert(str_views(items@).take(i + 1) =~= str_views(items@).take(i as int).push(items@[i as int]@));
        i = i + 1;
    }
    assert(str_views(items@).take(i as int) =~= str_views(items@));
}

/// The flags a profile adds when the project sets no `cflags` (none for an unknown profile).
pub open spec fn unix_default_flags(profile: Seq<char>) -> Seq<Seq<char>> {
    match profile_flags(profile) {
        Some(f) => f,
        None => Seq::empty(),
    }
}

/// The language a source is assembled as: `assembler-with-cpp` for `.S`, `assembler` for `.s`
/// and `.asm`.
pub open spec fn asm_lang(source: Seq<char>) -> Option<Seq<char>> {
    let e = file_ext(source);
    if e == "S"@ {
        Some("assembler-with-cpp"@)
    } else if e == "s"@ || e == "asm"@ {
        Some("assembler"@)
    } else {
        None
    }
}

/// The language a source is assembled as (see `asm_lang`).
pub fn asm_lang_flag(source: &str) -> (r: Option<&'static str>)
    ensures
        match r {
            Some(f) => asm_lang(source@) == Some(f@),
            None => asm_lang(source@) is None,
        },
{
    let e = crate::project::builder::common::extension_of(source);
    if str_eq(e.as_str(), "S") {
        Some("assembler-with-cpp")
    } else if str_eq(e.as_str(), "s") || str_eq(e.as_str(), "asm") {
        Some("assembler")
    } else {
        None
    }
}

/// The arguments that compile `source` into `obj` (after the compiler's name).
pub open spec fn compile_args(ctx: BuildContext, source: Seq<char>, obj: Seq<char>) -> Seq<Seq<char>> {
    seq!["-c"@, source, "-o"@, obj] + (if ctx.kind@ == "sharedlib"@ {
        seq!["-fPIC"@]
    } else {
        Seq::empty()
    }) + match asm_lang(source) {
        Some(f) => seq!["-x"@, f],
        None => Seq::empty(),
    } + match ov(ctx.platform) {
        Some(p) => if !blank(p) {
            seq!["-march="@ + p]
        } else {
            Seq::empty()
        },
        None => Seq::empty(),
    } + (if ctx.standard@.len() > 0 && lowercase_of(ctx.language@) != "asm"@ {
        seq!["-std="@ + ctx.standard@]
    } else {
        Seq::empty()
    }) + (if ctx.cflags@.len() == 0 {
        unix_default_flags(ctx.profile@)
    } else {
        Seq::empty()
    }) + views(ctx.cflags@) + prefixed("-I"@, views(ctx.include_dirs@)) + seq!["-MMD"@, "-MF"@, with_ext(obj, "d"@)]
}

/// The compiler a build runs: the configured one, or `cc`.
pub open spec fn compiler_name(ctx: BuildContext) -> Seq<char> {
    if ctx.compiler@.len() == 0 {
        "cc"@
    } else {
        ctx.compiler@
    }
}

/// The program and arguments that compile `source` into `obj`.
pub fn compile_command(ctx: &BuildContext, source: &str, obj: &str) -> (r: (String, Vec<String>))
    ensures
        r.0@ == compiler_name(*ctx),
        views(r.1@) == compile_args(*ctx, source@, obj@),
{
    let program = if ctx.compiler.unicode_len() == 0 {
        "cc".to_owned()
    } else {
        ctx.compiler.clone()
    };
    let mut args: Vec<String> = Vec::new();
    let first = vec!["-c", source, "-o", obj];
    assert(str_views(first@) =~= seq!["-c"@, source@, "-o"@, obj@]);
    push_strs(&mut args, &first);
    let ghost a1 = views(args@);
    if str_eq(ctx.kind.as_str(), "sharedlib") {
        args.push("-fPIC".to_owned());
    }
    assert(views(args@) =~= a1 + (if ctx.kind@ == "sharedlib"@ { seq!["-fPIC"@] } else { Seq::empty() }));
    let ghost a2 = views(args@);
    if let Some(flag) = asm_lang_flag(source) {
        args.push("-x".to_owned());
        args.push(flag.to_owned());
    }
    assert(views(args@) =~= a2 + match asm_lang(source@) {
        Some(f) => seq!["-x"@, f],
        None => Seq::empty(),
    });
    let ghost a3 = views(args@);
    if let Some(platform) = &ctx.platform {
        if !is_blank(platform.as_str()) {
            let mut m = "-march=".to_owned();
            m.append(platform.as_str());
            args.push(m);
        }
    }
    assert(views(args@) =~= a3 + match ov(ctx.platform) {
        Some(p) => if !blank(p) { seq!["-march="@ + p] } else { Seq::empty() },
        None => Seq::empty(),
    });
    let ghost a4 = views(args@);
    let lang = to_lowercase(ctx.language.as_str());
    if ctx.standard.unicode_len() > 0 && !str_eq(lang.as_str(), "asm") {
        let mut m = "-std=".to_owned();
        m.append(ctx.standard.as_str());
        args.push(m);
    }
    assert(views(args@) =~= a4 + (if ctx.standard@.len() > 0 && lowercase_of(ctx.language@) != "asm"@ {
        seq!["-std="@ + ctx.standard@]
    } else {
        Seq::empty()
    }));
    let ghost a5 = views(args@);
    if ctx.cflags.len() == 0 {
        if let Some(d) = flags(ctx.profile.as_str()) {
            push_strs(&mut args, &d);
        }
    }
    assert(views(args@) =~= a5 + (if ctx.cflags@.len() == 0 { unix_default_flags(ctx.profile@) } else { Seq::empty() }));
    push_strings(&mut args, &ctx.cflags);
    push_prefixed(&mut args, "-I", &ctx.include_dirs);
    let ghost a6 = views(args@);
    let d_path = set_extension(obj, "d");
    args.push("-MMD".to_owned());
    args.push("-MF".to_owned());
    args.push(d_path);
    assert(views(args@) =~= a6 + seq!["-MMD"@, "-MF"@, with_ext(obj@, "d"@)]);
    (program, args)
}

/// The file name of the output: the configured file name (or the project's name), with the
/// configured extension when there is one.
pub open spec fn final_name(ctx: BuildContext) -> Seq<char> {
    let name = match ov(ctx.output_filename) {
        Some(n) => n,
        None => ctx.project_name@,
    };
    match ov(ctx.output_extension) {
        Some(e) => if e.len() > 0 {
            name + "."@ + e
        } else {
            name
        },
        None => name,
    }
}

fn output_name(ctx: &BuildContext) -> (r: String)
    ensures
        r@ == final_name(*ctx),
{
    let mut name = match &ctx.output_filename {
        Some(n) => n.clone(),
        None => ctx.project_name.clone(),
    };
    if let Some(e) = &ctx.output_extension {
        if e.unicode_len() > 0 {
            name.append(".");
            name.append(e.as_str());
        }
    }
    name
}

/// The program and arguments that make the build's output from `objects`: `ar rcs` into the
/// static library for a `staticlib`, else the linker (or the compiler) into the shared library
/// or the executable. `macos` picks `-dynamiclib` over `-shared`.
pub open spec fn link_plan(ctx: BuildContext, objects: Seq<Seq<char>>, macos: bool) -> (Seq<char>, Seq<Seq<char>>) {
    let td = ov(ctx.target_dir);
    if ctx.kind@ == "staticlib"@ {
        (
            match ov(ctx.archiver) {
                Some(a) => a,
                None => "ar"@,
            },
            seq!["rcs"@, output_path(ctx.profile@, "lib"@ + ctx.project_name@ + ".a"@, td)] + objects,
        )
    } else {
        let out = if ctx.kind@ == "sharedlib"@ {
            output_path(ctx.profile@, "lib"@ + final_name(ctx) + ".so"@, td)
        } else {
            output_path(ctx.profile@, final_name(ctx), td)
        };
        (
            match ov(ctx.linker) {
                Some(l) => l,
                None => compiler_name(ctx),
            },
            (if ctx.kind@ == "sharedlib"@ {
                seq![if macos { "-dynamiclib"@ } else { "-shared"@ }]
            } else {
                Seq::empty()
            }) + objects + prefixed("-L"@, views(ctx.lib_dirs@)) + prefixed("-l"@, views(ctx.libs@)) + views(
                ctx.ldflags@,
            ) + seq!["-o"@, out],
        )
    }
}

fn target_dir_of(ctx: &BuildContext) -> (r: Option<&str>)
    ensures
        opt_str_view(r) == ov(ctx.target_dir),
{
    match &ctx.target_dir {
        Some(d) => Some(d.as_str()),
        None => None,
    }
}

/// The program and arguments that make the output from `objects` (see `link_plan`).
pub fn link_command(ctx: &BuildContext, objects: &Vec<String>, macos: bool) -> (r: (String, Vec<String>))
    ensures
        r.0@ == link_plan(*ctx, views(objects@), macos).0,
        views(r.1@) == link_plan(*ctx, views(objects@), macos).1,
{
    let td = target_dir_of(ctx);
    let mut args: Vec<String> = Vec::new();
    if str_eq(ctx.kind.as_str(), "staticlib") {
        let program = match &ctx.archiver {
            Some(a) => a.clone(),
            None => "ar".to_owned(),
        };
        args.push("rcs".to_owned());
        args.push(lib_path(ctx.profile.as_str(), ctx.project_name.as_str(), td));
        push_strings(&mut args, objects);
        return (program, args);
    }
    let program = match &ctx.linker {
        Some(l) => l.clone(),
        None => if ctx.compiler.unicode_len() == 0 {
            "cc".to_owned()
        } else {
            ctx.compiler.clone()
        },
    };
    let shared = str_eq(ctx.kind.as_str(), "sharedlib");
    if shared {
        args.push(if macos { "-dynamiclib".to_owned() } else { "-shared".to_owned() });
    }
    push_strings(&mut args, objects);
    push_prefixed(&mut args, "-L", &ctx.lib_dirs);
    push_prefixed(&mut args, "-l", &ctx.libs);
    push_strings(&mut args, &ctx.ldflags);
    let name = output_name(ctx);
    let out = if shared {
        shared_lib_path(ctx.profile.as_str(), name.as_str(), td)
    } else {
        bin_path(ctx.profile.as_str(), name.as_str(), td)
    };
    let ghost a = views(args@);
    args.push("-o".to_owned());
    args.push(out);
    assert(views(args@) =~= a + seq!["-o"@, out@]);
    (program, args)
}

/// Where the Unix-style and MSVC backends put their objects: `./target/<profile>/obj`.
pub fn build_obj_dir(profile: &str) -> (r: String)
    ensures
        r@ == crate::utils::paths::join_path(crate::utils::paths::join_path("./target"@, profile@), "obj"@),
{
    let p = crate::utils::paths::join("./target", profile);
    crate::utils::paths::join(p.as_str(), "obj")
}

} // verus!
