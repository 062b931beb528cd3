//! The GNU as backend: the language it accepts, where its objects go, and the command lines
//! that assemble each source and archive or link the objects.
use vstd::prelude::*;
use crate::platform::{bin_path, elf_path, lib_path, opt_str_view, output_path, shared_lib_path};
use crate::project::builder::context::BuildContext;
use crate::project::builder::unix_cc::{final_name, ov, prefixed, push_prefixed, push_strings};
use crate::utils::paths::{join, join_path};
use crate::utils::strings::{lowercase_of, split_char, split_seq, str_eq, to_lowercase, trim, trim_seq, views};

verus! {

/// Every `+`-separated part of the language, trimmed, is `asm` (compared in lower case).
pub open spec fn gas_language(language: Seq<char>) -> bool {
    let parts = split_seq(lowercase_of(language), '+');
    forall|i: int| 0 <= i < parts.len() ==> trim_seq(#[trigger] parts[i]) == "asm"@
}

/// Checks that the build's language is assembly only.
pub fn check_gas_language(language: &str) -> (r: Result<(), String>)
    ensures
        r is Ok <==> gas_language(language@),
        r matches Err(m) ==> m@ == "GAS backend requires build.language = \"asm\""@,
{
    let lower = to_lowercase(language);
    let parts = split_char(lower.as_str(), '+');
    let ghost ps = split_seq(lowercase_of(language@), '+');
    let mut i: usize = 0;
    while i < parts.len()
        invariant
            i <= parts@.len(),
            views(parts@) == ps,
            ps == split_seq(lowercase_of(language@), '+'),
            forall|k: int| 0 <= k < i ==> trim_seq(#[trigger] ps[k]) == "asm"@,
        decreases parts@.len() - i,
    {
        assert(ps[i as int] == parts@[i as int]@);
        if !str_eq(trim(parts[i].as_str()), "asm") {
            return Err("GAS backend requires build.language = \"asm\"".to_owned());
        }
        i = i + 1;
    }
    Ok(())
}

/// The assembler: the configured compiler, or `as`.
pub open spec fn assembler_name(ctx: BuildContext) -> Seq<char> {
    if ctx.compiler@.len() == 0 {
        "as"@
    } else {
        ctx.compiler@
    }
}

/// Where the objects go: `<target_dir>/obj`, or `./target/<profile>/obj`.
pub open spec fn gas_obj_dir_of(ctx: BuildContext) -> Seq<char> {
    match ov(ctx.target_dir) {
        Some(d) => join_path(d, "obj"@),
        None => join_path(join_path("./target"@, ctx.profile@), "obj"@),
    }
}

/// Where the objects go (see `gas_obj_dir_of`).
pub fn gas_obj_dir(ctx: &BuildContext) -> (r: String)
    ensures
        r@ == gas_obj_dir_of(*ctx),
{
    match &ctx.target_dir {
        Some(d) => join(d.as_str(), "obj"),
        None => {
            let p = join("./target", ctx.profile.as_str());
            join(p.as_str(), "obj")
        },
    }
}

/// The program and arguments that assemble `source` into `obj`: the source, `-o`, the object,
/// then the build's flags.
pub fn gas_assemble_command(ctx: &BuildContext, source: &str, obj: &str) -> (r: (String, Vec<String>))
    ensures
        r.0@ == assembler_name(*ctx),
        views(r.1@) == seq![source@, "-o"@, obj@] + views(ctx.cflags@),
{
    let program = if ctx.compiler.unicode_len() == 0 {
        "as".to_owned()
    } else {
        ctx.compiler.clone()
    };
    let mut args: Vec<String> = Vec::new();
    args.push(source.to_owned());
    args.push("-o".to_owned());
    args.push(obj.to_owned());
    assert(views(args@) =~= seq![source@, "-o"@, obj@]);
    push_strings(&mut args, &ctx.cflags);
    (program, args)
}

/// The program and arguments that make the output from `objects`: for a `staticlib` the
/// archiver (the configured one, else `lib` on Windows and `ar` elsewhere; Microsoft's `lib`
/// takes `/nologo /OUT:<lib>`, others `rcs <lib>`); otherwise the linker (else `cc`) into the
/// shared library, the ELF image or the executable.
pub open spec fn gas_link_plan(ctx: BuildContext, objects: Seq<Seq<char>>, windows: bool, macos: bool) -> (Seq<char>, Seq<Seq<char>>) {
    let td = ov(ctx.target_dir);
    if ctx.kind@ == "staticlib"@ {
        let archiver = match ov(ctx.archiver) {
            Some(a) => a,
            None => if windows {
                "lib"@
            } else {
                "ar"@
            },
        };
        let lib = output_path(ctx.profile@, "lib"@ + ctx.project_name@ + ".a"@, td);
        (
            archiver,
            (if windows && archiver == "lib"@ {
                seq!["/nologo"@, "/OUT:"@ + lib]
            } else {
                seq!["rcs"@, lib]
            }) + objects,
        )
    } else {
        let out = if ctx.kind@ == "sharedlib"@ {
            output_path(ctx.profile@, "lib"@ + final_name(ctx) + ".so"@, td)
        } else {
            output_path(ctx.profile@, final_name(ctx), td)
        };
        (
            match ov(ctx.linker) {
                Some(l) => l,
                None => "cc"@,
            },
            (if ctx.kind@ == "sharedlib"@ {
                seq![if macos {
                    "-dynamiclib"@
                } else {
                    "-shared"@
                }]
            } else {
                Seq::empty()
            }) + objects + prefixed("-L"@, views(ctx.lib_dirs@)) + prefixed("-l"@, views(ctx.libs@)) + views(ctx.ldflags@)
                + seq!["-o"@, out],
        )
    }
}

fn target_dir_str(ctx: &BuildContext) -> (r: Option<&str>)
    ensures
        opt_str_view(r) == ov(ctx.target_dir),
{
    match &ctx.target_dir {
        Some(d) => Some(d.as_str()),
        None => None,
    }
}

fn output_file_name(ctx: &BuildContext) -> (r: String)
    ensures
        r@ == final_name(*ctx),
{
    let mut name = match &ctx.output_filename {
        Some(n) => n.clone(),
        None => ctx.project_name.clone(),
    };
    if let Some(e) = &ctx.output_extension {
        if e.unicode_len() > 0 {
            name.append(".");
            name.append(e.as_str());
        }
    }
    name
}

/// The program and arguments that make the output from `objects` (see `gas_link_plan`).
pub fn gas_link_command(ctx: &BuildContext, objects: &Vec<String>, windows: bool, macos: bool) -> (r: (String, Vec<String>))
    ensures
        r.0@ == gas_link_plan(*ctx, views(objects@), windows, macos).0,
        views(r.1@) == gas_link_plan(*ctx, views(objects@), windows, macos).1,
{
    let td = target_dir_str(ctx);
    let mut args: Vec<String> = Vec::new();
    if str_eq(ctx.kind.as_str(), "staticlib") {
        let archiver = match &ctx.archiver {
            Some(a) => a.clone(),
            None => if windows {
                "lib".to_owned()
            } else {
                "ar".to_owned()
            },
        };
        let lib = lib_path(ctx.profile.as_str(), ctx.project_name.as_str(), td);
        if windows && str_eq(archiver.as_str(), "lib") {
            args.push("/nologo".to_owned());
            let mut o = "/OUT:".to_owned();
            o.append(lib.as_str());
            args.push(o);
        } else {
            args.push("rcs".to_owned());
            args.push(lib);
        }
        push_strings(&mut args, objects);
        return (archiver, args);
    }
    let program = match &ctx.linker {
        Some(l) => l.clone(),
        None => "cc".to_owned(),
    };
    let shared = str_eq(ctx.kind.as_str(), "sharedlib");
    if shared {
        args.push(if macos {
            "-dynamiclib".to_owned()
        } else {
            "-shared".to_owned()
        });
    }
    push_strings(&mut args, objects);
    push_prefixed(&mut args, "-L", &ctx.lib_dirs);
    push_prefixed(&mut args, "-l", &ctx.libs);
    push_strings(&mut args, &ctx.ldflags);
    let name = output_file_name(ctx);
    let out = if shared {
        shared_lib_path(ctx.profile.as_str(), name.as_str(), td)
    } else if str_eq(ctx.kind.as_str(), "elf") {
        elf_path(ctx.profile.as_str(), name.as_str(), td)
    } else {
        bin_path(ctx.profile.as_str(), name.as_str(), td)
    };
    let ghost a = views(args@);
    args.push("-o".to_owned());
    args.push(out);
    assert(views(args@) =~= a + seq!["-o"@, out@]);
    (program, args)
}

} // verus!
