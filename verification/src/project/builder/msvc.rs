//! The MSVC backend (`cl`, `clang-cl`): its flags, its command lines, and the header list it
//! prints with `/showIncludes`.
use vstd::prelude::*;
use crate::platform::{bin_path, lib_path, opt_str_view, output_path, shared_lib_path};
use crate::profile::str_views;
use crate::project::builder::common::{utf8_bytes, utf8_width};
use crate::project::builder::context::BuildContext;
use crate::project::builder::unix_cc::{ov, prefixed, push_prefixed, push_strings, push_strs};
use crate::utils::strings::{
    lines, lines_seq, chars_of, ends, ends_with, is_blank, lowercase_of, replace, replace_seq, starts, starts_with, str_eq,
    strip_prefix, to_lowercase, trim, trim_seq, views,
};

verus! {

/// The `/std:` flag of a language and standard (by their lower-case names); `Err` names what
/// MSVC does not support.
pub open spec fn msvc_std(language: Seq<char>, standard: Seq<char>) -> Result<Seq<char>, Seq<char>> {
    let lang = lowercase_of(language);
    let st = lowercase_of(standard);
    if lang == "c"@ {
        if st == "c11"@ {
            Ok("/std:c11"@)
        } else if st == "c17"@ {
            Ok("/std:c17"@)
        } else {
            Err("Unsupported C standard for MSVC"@)
        }
    } else if lang == "c++"@ || lang == "cpp"@ || lang == "cxx"@ {
        if st == "c++11"@ {
            Ok("/std:c++11"@)
        } else if st == "c++14"@ {
            Ok("/std:c++14"@)
        } else if st == "c++17"@ {
            Ok("/std:c++17"@)
        } else if st == "c++20"@ {
            Ok("/std:c++20"@)
        } else if st == "c++23"@ {
            Ok("/std:c++latest"@)
        } else {
            Err("Unsupported C++ standard for MSVC"@)
        }
    } else {
        Err("Unsupported language"@)
    }
}

/// The `/std:` flag of a language and standard (see `msvc_std`).
pub fn msvc_standard_flag(language: &str, standard: &str) -> (r: Result<String, String>)
    ensures
        match r {
            Ok(f) => msvc_std(language@, standard@) == Ok::<Seq<char>, Seq<char>>(f@),
            Err(m) => msvc_std(language@, standard@) == Err::<Seq<char>, Seq<char>>(m@),
        },
{
    let lang = to_lowercase(language);
    let st = to_lowercase(standard);
    let l = lang.as_str();
    let s = st.as_str();
    if str_eq(l, "c") {
        return if str_eq(s, "c11") {
            Ok("/std:c11".to_owned())
        } else if str_eq(s, "c17") {
            Ok("/std:c17".to_owned())
        } else {
            Err("Unsupported C standard for MSVC".to_owned())
        };
    }
    if str_eq(l, "c++") || str_eq(l, "cpp") || str_eq(l, "cxx") {
        return if str_eq(s, "c++11") {
            Ok("/std:c++11".to_owned())
        } else if str_eq(s, "c++14") {
            Ok("/std:c++14".to_owned())
        } else if str_eq(s, "c++17") {
            Ok("/std:c++17".to_owned())
        } else if str_eq(s, "c++20") {
            Ok("/std:c++20".to_owned())
        } else if str_eq(s, "c++23") {
            Ok("/std:c++latest".to_owned())
        } else {
            Err("Unsupported C++ standard for MSVC".to_owned())
        };
    }
    Err("Unsupported language".to_owned())
}

/// The `/arch:` flag of a target platform (trimmed, in lower case, `-` read as `_`): `x86` and
/// `i?86` give `/arch:IA32`; `sse2`, `avx`, `avx2` their own flag; anything else none.
pub open spec fn msvc_arch(platform: Option<Seq<char>>) -> Option<Seq<char>> {
    match platform {
        None => None,
        Some(raw0) => {
            let raw = trim_seq(raw0);
            let p = replace_seq(lowercase_of(raw), "-"@, "_"@);
            if raw.len() == 0 {
                None
            } else if p == "x86"@ || (starts(p, "i"@) && ends(p, "86"@) && utf8_bytes(p) == 4) {
                Some("/arch:IA32"@)
            } else if p == "sse2"@ {
                Some("/arch:SSE2"@)
            } else if p == "avx"@ {
                Some("/arch:AVX"@)
            } else if p == "avx2"@ {
                Some("/arch:AVX2"@)
            } else {
                None
            }
        },
    }
}

fn byte_len(s: &str) -> (r: u128)
    ensures
        r == utf8_bytes(s@),
{
    let v = chars_of(s);
    let mut n: u128 = 0;
    let mut i: usize = 0;
    while i < v.len()
        invariant
            v@ == s@,
            i <= v@.len(),
            n == utf8_bytes(s@.take(i as int)),
            n <= 4 * i,
        decreases v@.len() - i,
    {
        assert(s@.take(i + 1).drop_last() =~= s@.take(i as int));
        n = n + utf8_width(v[i]) as u128;
        i = i + 1;
    }
    assert(s@.take(i as int) =~= s@);
    n
}

/// The `/arch:` flag of a target platform (see `msvc_arch`).
pub fn msvc_arch_flag(platform: Option<&str>) -> (r: Option<&'static str>)
    ensures
        match r {
            Some(f) => msvc_arch(opt_str_view(platform)) == Some(f@),
            None => msvc_arch(opt_str_view(platform)) is None,
        },
{
    let raw = trim(platform?);
    if raw.unicode_len() == 0 {
        return None;
    }
    let lower = to_lowercase(raw);
    proof { reveal_strlit("-"); }
    let p = replace(lower.as_str(), "-", "_");
    let ps = p.as_str();
    if str_eq(ps, "x86") || (starts_with(ps, "i") && ends_with(ps, "86") && byte_len(ps) == 4) {
        return Some("/arch:IA32");
    }
    if str_eq(ps, "sse2") {
        Some("/arch:SSE2")
    } else if str_eq(ps, "avx") {
        Some("/arch:AVX")
    } else if str_eq(ps, "avx2") {
        Some("/arch:AVX2")
    } else {
        None
    }
}

/// The flags a profile adds under MSVC when the project sets no `cflags`.
pub open spec fn msvc_profile_flags(profile: Seq<char>) -> Seq<Seq<char>> {
    if profile == "release"@ {
        seq!["/O2"@, "/DNDEBUG"@]
    } else if profile == "debug"@ {
        seq!["/Od"@, "/Zi"@, "/W4"@, "/DDCR_DEBUG"@, "/Oy-"@]
    } else {
        Seq::empty()
    }
}

/// The flags a profile adds under MSVC (see `msvc_profile_flags`).
pub fn default_flags(profile: &str) -> (r: Vec<&'static str>)
    ensures
        str_views(r@) == msvc_profile_flags(profile@),
{
    if str_eq(profile, "release") {
        let v = vec!["/O2", "/DNDEBUG"];
        assert(str_views(v@) =~= seq!["/O2"@, "/DNDEBUG"@]);
        v
    } else if str_eq(profile, "debug") {
        let v = vec!["/Od", "/Zi", "/W4", "/DDCR_DEBUG", "/Oy-"];
        assert(str_views(v@) =~= seq!["/Od"@, "/Zi"@, "/W4"@, "/DDCR_DEBUG"@, "/Oy-"@]);
        v
    } else {
        let v: Vec<&'static str> = Vec::new();
        assert(str_views(v@) =~= Seq::<Seq<char>>::empty());
        v
    }
}

/// The flag that tells MSVC the language of the sources.
pub open spec fn msvc_lang_flag(language: Seq<char>) -> Option<Seq<char>> {
    let l = lowercase_of(language);
    if l == "c"@ {
        Some("/TC"@)
    } else if l == "c++"@ || l == "cpp"@ || l == "cxx"@ {
        Some("/TP"@)
    } else {
        None
    }
}

fn lang_flag(language: &str) -> (r: Option<&'static str>)
    ensures
        match r {
            Some(f) => msvc_lang_flag(language@) == Some(f@),
            None => msvc_lang_flag(language@) is None,
        },
{
    let l = to_lowercase(language);
    if str_eq(l.as_str(), "c") {
        Some("/TC")
    } else if str_eq(l.as_str(), "c++") || str_eq(l.as_str(), "cpp") || str_eq(l.as_str(), "cxx") {
        Some("/TP")
    } else {
        None
    }
}

/// The arguments that compile `source` into `obj` with MSVC; `Err` when the language or the
/// standard is not supported.
pub open spec fn msvc_compile_args(ctx: BuildContext, source: Seq<char>, obj: Seq<char>) -> Result<Seq<Seq<char>>, Seq<char>> {
    match msvc_lang_flag(ctx.language@) {
        None => Err("Unsupported language"@),
        Some(lf) => {
            let std_part: Result<Seq<Seq<char>>, Seq<char>> = if ctx.standard@.len() > 0 && lowercase_of(ctx.language@)
                != "asm"@ {
                match msvc_std(ctx.language@, ctx.standard@) {
                    Ok(f) => Ok(seq![f]),
                    Err(m) => Err(m),
                }
            } else {
                Ok(Seq::empty())
            };
            match std_part {
                Err(m) => Err(m),
                Ok(sp) => Ok(seq!["/nologo"@, lf] + sp + match msvc_arch(ov(ctx.platform)) {
                    Some(a) => seq![a],
                    None => Seq::empty(),
                } + (if ctx.cflags@.len() == 0 {
                    msvc_profile_flags(ctx.profile@)
                } else {
                    Seq::empty()
                }) + views(ctx.cflags@) + prefixed("/I"@, views(ctx.include_dirs@)) + seq![
                    "/c"@,
                    source,
                    "/Fo:"@ + obj,
                    "/showIncludes"@,
                ]),
            }
        },
    }
}

fn platform_of(ctx: &BuildContext) -> (r: Option<&str>)
    ensures
        opt_str_view(r) == ov(ctx.platform),
{
    match &ctx.platform {
        Some(p) => Some(p.as_str()),
        None => None,
    }
}

/// The arguments that compile `source` into `obj` with MSVC (see `msvc_compile_args`).
pub fn compile_args(ctx: &BuildContext, source: &str, obj: &str) -> (r: Result<Vec<String>, String>)
    ensures
        match r {
            Ok(v) => msvc_compile_args(*ctx, source@, obj@) == Ok::<Seq<Seq<char>>, Seq<char>>(views(v@)),
            Err(m) => msvc_compile_args(*ctx, source@, obj@) == Err::<Seq<Seq<char>>, Seq<char>>(m@),
        },
{
    let lf = match lang_flag(ctx.language.as_str()) {
        Some(f) => f,
        None => {
            return Err("Unsupported language".to_owned());
        },
    };
    let mut args: Vec<String> = Vec::new();
    args.push("/nologo".to_owned());
    args.push(lf.to_owned());
    let ghost a0 = views(args@);
    assert(a0 =~= seq!["/nologo"@, lf@]);
    let lang = to_lowercase(ctx.language.as_str());
    let ghost mut sp: Seq<Seq<char>> = Seq::empty();
    if ctx.standard.unicode_len() > 0 && !str_eq(lang.as_str(), "asm") {
        let f = msvc_standard_flag(ctx.language.as_str(), ctx.standard.as_str())?;
        proof { sp = seq![f@]; }
        args.push(f);
    }
    let ghost a1 = views(args@);
    assert(a1 =~= a0 + sp);
    if let Some(a) = msvc_arch_flag(platform_of(ctx)) {
        args.push(a.to_owned());
    }
    assert(views(args@) =~= a1 + match msvc_arch(ov(ctx.platform)) {
        Some(a) => seq![a],
        None => Seq::<Seq<char>>::empty(),
    });
    let ghost a2 = views(args@);
    if ctx.cflags.len() == 0 {
        let d = default_flags(ctx.profile.as_str());
        push_strs(&mut args, &d);
    }
    assert(views(args@) =~= a2 + (if ctx.cflags@.len() == 0 {
        msvc_profile_flags(ctx.profile@)
    } else {
        Seq::<Seq<char>>::empty()
    }));
    push_strings(&mut args, &ctx.cflags);
    push_prefixed(&mut args, "/I", &ctx.include_dirs);
    let ghost a3 = views(args@);
    args.push("/c".to_owned());
    args.push(source.to_owned());
    let mut fo = "/Fo:".to_owned();
    fo.append(obj);
    args.push(fo);
    args.push("/showIncludes".to_owned());
    assert(views(args@) =~= a3 + seq!["/c"@, source@, "/Fo:"@ + obj@, "/showIncludes"@]);
    assert(views(args@) =~= seq!["/nologo"@, lf@] + sp + match msvc_arch(ov(ctx.platform)) {
        Some(a) => seq![a],
        None => Seq::<Seq<char>>::empty(),
    } + (if ctx.cflags@.len() == 0 {
        msvc_profile_flags(ctx.profile@)
    } else {
        Seq::<Seq<char>>::empty()
    }) + views(ctx.cflags@) + prefixed("/I"@, views(ctx.include_dirs@)) + seq!["/c"@, source@, "/Fo:"@ + obj@, "/showIncludes"@]);
    Ok(args)
}

/// A library named on the MSVC command line: as it is when it ends in `.lib` (in any case),
/// else with `.lib` added.
pub open spec fn msvc_lib(lib: Seq<char>) -> Seq<char> {
    if ends(lowercase_of(lib), ".lib"@) {
        lib
    } else {
        lib + ".lib"@
    }
}

/// The program and arguments that make the output from `objects` with MSVC: `lib /OUT:` for a
/// `staticlib`, else the compiler as linker. `Err` when the language or standard is not
/// supported.
pub open spec fn msvc_link_plan(ctx: BuildContext, objects: Seq<Seq<char>>) -> Result<(Seq<char>, Seq<Seq<char>>), Seq<char>> {
    let td = ov(ctx.target_dir);
    let compiler = if ctx.compiler@.len() == 0 {
        "cl"@
    } else {
        ctx.compiler@
    };
    if ctx.kind@ == "staticlib"@ {
        Ok((
            match ov(ctx.archiver) {
                Some(a) => a,
                None => "lib"@,
            },
            seq!["/nologo"@, "/OUT:"@ + output_path(ctx.profile@, "lib"@ + ctx.project_name@ + ".a"@, td)] + objects,
        ))
    } else {
        match msvc_lang_flag(ctx.language@) {
            None => Err("Unsupported language"@),
            Some(lf) => {
                let std_part: Result<Seq<Seq<char>>, Seq<char>> = if ctx.standard@.len() > 0 {
                    match msvc_std(ctx.language@, ctx.standard@) {
                        Ok(f) => Ok(seq![f]),
                        Err(m) => Err(m),
                    }
                } else {
                    Ok(Seq::empty())
                };
                let out = if ctx.kind@ == "sharedlib"@ {
                    output_path(ctx.profile@, "lib"@ + ctx.project_name@ + ".so"@, td)
                } else {
                    output_path(ctx.profile@, ctx.project_name@, td)
                };
                match std_part {
                    Err(m) => Err(m),
                    Ok(sp) => Ok((
                        compiler,
                        seq!["/nologo"@] + (if ctx.kind@ == "sharedlib"@ {
                            seq!["/LD"@]
                        } else {
                            Seq::empty()
                        }) + seq![lf] + sp + objects + (if ctx.cflags@.len() == 0 {
                            msvc_profile_flags(ctx.profile@)
                        } else {
                            Seq::empty()
                        }) + views(ctx.cflags@) + prefixed("/LIBPATH:"@, views(ctx.lib_dirs@)) + views(
                            ctx.libs@,
                        ).map_values(|l: Seq<char>| msvc_lib(l)) + (if ctx.ldflags@.len() > 0 {
                            seq!["/link"@] + views(ctx.ldflags@)
                        } else {
                            Seq::empty()
                        }) + seq!["/Fe:"@ + out],
                    )),
                }
            },
        }
    }
}

fn push_libs(out: &mut Vec<String>, libs: &Vec<String>)
    ensures
        views(final(out)@) == views(old(out)@) + views(libs@).map_values(|l: Seq<char>| msvc_lib(l)),
{
    let ghost start = views(out@);
    let mut i: usize = 0;
    while i < libs.len()
        invariant
            i <= libs@.len(),
            views(out@) == start + views(libs@).map_values(|l: Seq<char>| msvc_lib(l)).take(i as int),
        decreases libs@.len() - i,
    {
        let lower = to_lowercase(libs[i].as_str());
        let item = if ends_with(lower.as_str(), ".lib") {
            libs[i].clone()
        } else {
            let mut s = libs[i].clone();
            s.append(".lib");
            s
        };
        let ghost prev = out@;
        out.push(item);
        assert(views(out@) =~= views(prev).push(msvc_lib(libs@[i as int]@)));
        assert(views(libs@).map_values(|l: Seq<char>| msvc_lib(l)).take(i + 1) =~= views(libs@).map_values(
            |l: Seq<char>| msvc_lib(l),
        ).take(i as int).push(msvc_lib(libs@[i as int]@)));
        i = i + 1;
    }
    assert(views(libs@).map_values(|l: Seq<char>| msvc_lib(l)).take(i as int) =~= views(libs@).map_values(
        |l: Seq<char>| msvc_lib(l),
    ));
}

/// The program and arguments that make the output with MSVC (see `msvc_link_plan`).
pub fn link_command(ctx: &BuildContext, objects: &Vec<String>) -> (r: Result<(String, Vec<String>), String>)
    ensures
        match r {
            Ok(c) => msvc_link_plan(*ctx, views(objects@)) == Ok::<(Seq<char>, Seq<Seq<char>>), Seq<char>>((c.0@, views(c.1@))),
            Err(m) => msvc_link_plan(*ctx, views(objects@)) == Err::<(Seq<char>, Seq<Seq<char>>), Seq<char>>(m@),
        },
{
    let td = match &ctx.target_dir {
        Some(d) => Some(d.as_str()),
        None => None,
    };
    assert(opt_str_view(td) == ov(ctx.target_dir));
    let mut args: Vec<String> = Vec::new();
    if str_eq(ctx.kind.as_str(), "staticlib") {
        let program = match &ctx.archiver {
            Some(a) => a.clone(),
            None => "lib".to_owned(),
        };
        args.push("/nologo".to_owned());
        let mut o = "/OUT:".to_owned();
        let lp = lib_path(ctx.profile.as_str(), ctx.project_name.as_str(), td);
        o.append(lp.as_str());
        args.push(o);
        let ghost a0 = views(args@);
        push_strings(&mut args, objects);
        assert(a0 =~= seq!["/nologo"@, "/OUT:"@ + lp@]);
        return Ok((program, args));
    }
    let lf = match lang_flag(ctx.language.as_str()) {
        Some(f) => f,
        None => {
            return Err("Unsupported language".to_owned());
        },
    };
    let program = if ctx.compiler.unicode_len() == 0 {
        "cl".to_owned()
    } else {
        ctx.compiler.clone()
    };
    let shared = str_eq(ctx.kind.as_str(), "sharedlib");
    args.push("/nologo".to_owned());
    if shared {
        args.push("/LD".to_owned());
    }
    args.push(lf.to_owned());
    let ghost mut sp: Seq<Seq<char>> = Seq::empty();
    if ctx.standard.unicode_len() > 0 {
        let f = msvc_standard_flag(ctx.language.as_str(), ctx.standard.as_str())?;
        proof { sp = seq![f@]; }
        args.push(f);
    }
    let ghost a1 = views(args@);
    assert(a1 =~= seq!["/nologo"@] + (if shared { seq!["/LD"@] } else { Seq::<Seq<char>>::empty() }) + seq![lf@] + sp);
    push_strings(&mut args, objects);
    let ghost a15 = views(args@);
    if ctx.cflags.len() == 0 {
        let d = default_flags(ctx.profile.as_str());
        push_strs(&mut args, &d);
    }
    assert(views(args@) =~= a15 + (if ctx.cflags@.len() == 0 {
        msvc_profile_flags(ctx.profile@)
    } else {
        Seq::<Seq<char>>::empty()
    }));
    push_strings(&mut args, &ctx.cflags);
    push_prefixed(&mut args, "/LIBPATH:", &ctx.lib_dirs);
    push_libs(&mut args, &ctx.libs);
    let ghost a2 = views(args@);
    if ctx.ldflags.len() > 0 {
        args.push("/link".to_owned());
        push_strings(&mut args, &ctx.ldflags);
    }
    assert(views(args@) =~= a2 + (if ctx.ldflags@.len() > 0 {
        seq!["/link"@] + views(ctx.ldflags@)
    } else {
        Seq::<Seq<char>>::empty()
    }));
    let out = if shared {
        shared_lib_path(ctx.profile.as_str(), ctx.project_name.as_str(), td)
    } else {
        bin_path(ctx.profile.as_str(), ctx.project_name.as_str(), td)
    };
    let ghost a3 = views(args@);
    let mut fe = "/Fe:".to_owned();
    fe.append(out.as_str());
    args.push(fe);
    assert(views(args@) =~= a3 + seq!["/Fe:"@ + out@]);
    assert(views(args@) =~= a1 + views(objects@) + (if ctx.cflags@.len() == 0 {
        msvc_profile_flags(ctx.profile@)
    } else {
        Seq::<Seq<char>>::empty()
    }) + views(ctx.cflags@) + prefixed("/LIBPATH:"@, views(ctx.lib_dirs@)) + views(ctx.libs@).map_values(
        |l: Seq<char>| msvc_lib(l),
    ) + (if ctx.ldflags@.len() > 0 {
        seq!["/link"@] + views(ctx.ldflags@)
    } else {
        Seq::<Seq<char>>::empty()
    }) + seq!["/Fe:"@ + out@]);
    Ok((program, args))
}

/// The header a `/showIncludes` note names (English or Russian compiler output), trimmed.
pub open spec fn include_note(line: Seq<char>) -> Option<Seq<char>> {
    if starts(line, "Note: including file:"@) {
        Some(trim_seq(line.skip("Note: including file:"@.len() as int)))
    } else if starts(line, "Примечание: включение файла:"@) {
        Some(trim_seq(line.skip("Примечание: включение файла:"@.len() as int)))
    } else {
        None
    }
}

/// The headers the notes name, and the other lines (each with its newline), in order.
pub open spec fn split_notes(lines: Seq<Seq<char>>) -> (Seq<Seq<char>>, Seq<char>)
    decreases lines.len(),
{
    if lines.len() == 0 {
        (Seq::empty(), Seq::empty())
    } else {
        let (h, c) = split_notes(lines.drop_last());
        match include_note(lines.last()) {
            Some(x) => (h.push(x), c),
            None => (h, c + lines.last() + "\n"@),
        }
    }
}

/// Splits what MSVC printed with `/showIncludes` into the headers it included and the rest of
/// its output.
pub fn parse_show_includes(stdout: &str) -> (r: (Vec<String>, String))
    ensures
        (views(r.0@), r.1@) == split_notes(lines_seq(stdout@)),
{
    let ls = lines(stdout);
    let ghost lv = views(ls@);
    let mut headers: Vec<String> = Vec::new();
    let mut clean = String::new();
    let mut i: usize = 0;
    while i < ls.len()
        invariant
            lv == views(ls@),
            i <= ls@.len(),
            (views(headers@), clean@) == split_notes(lv.take(i as int)),
        decreases ls@.len() - i,
    {
        assert(lv.take(i + 1).drop_last() =~= lv.take(i as int));
        assert(lv.take(i + 1).last() == ls@[i as int]@);
        let line = ls[i].as_str();
        if let Some(rest) = strip_prefix(line, "Note: including file:") {
            let ghost prev = headers@;
            headers.push(trim(rest).to_owned());
            assert(views(headers@) =~= views(prev).push(trim_seq(line@.skip("Note: including file:"@.len() as int))));
        } else if let Some(rest) = strip_prefix(line, "Примечание: включение файла:") {
            let ghost prev = headers@;
            headers.push(trim(rest).to_owned());
            assert(views(headers@) =~= views(prev).push(trim_seq(line@.skip("Примечание: включение файла:"@.len() as int))));
        } else {
            clean.append(line);
            clean.append("\n");
        }
        i = i + 1;
    }
    assert(lv.take(i as int) =~= lv);
    (headers, clean)
}

/// The MSVC backend builds no assembly: the language, in lower case, must not name `asm`.
pub fn check_msvc_language(language: &str) -> (r: Result<(), String>)
    ensures
        r is Ok <==> !crate::utils::strings::has_sub(lowercase_of(language@), "asm"@),
        r matches Err(m) ==> m@ == "MSVC backend does not support build.language with asm"@,
{
    let lower = to_lowercase(language);
    if crate::utils::strings::contains_str(lower.as_str(), "asm") {
        return Err("MSVC backend does not support build.language with asm".to_owned());
    }
    Ok(())
}

/// A path as the dependency file writes it: `\` as `/`, then each space escaped as `\ `.
pub open spec fn d_file_path(p: Seq<char>) -> Seq<char> {
    replace_seq(replace_seq(p, "\\"@, "/"@), " "@, "\\ "@)
}

/// The lines of the dependency file after the rule: `  <header> \` for each header.
pub open spec fn d_file_lines(headers: Seq<Seq<char>>) -> Seq<char>
    decreases headers.len(),
{
    if headers.len() == 0 {
        Seq::empty()
    } else {
        d_file_lines(headers.drop_last()) + "  "@ + d_file_path(headers.last()) + " \\\n"@
    }
}

/// The dependency file of an object from the headers MSVC reported: `<obj>: \` (with `\`
/// written `/`), then a line for each header.
pub open spec fn msvc_d_text(obj: Seq<char>, headers: Seq<Seq<char>>) -> Seq<char> {
    replace_seq(obj, "\\"@, "/"@) + ": \\\n"@ + d_file_lines(headers)
}

/// The dependency file of an object (see `msvc_d_text`).
pub fn msvc_d_file(obj: &str, headers: &Vec<String>) -> (r: String)
    ensures
        r@ == msvc_d_text(obj@, views(headers@)),
{
    proof {
        reveal_strlit("\\");
        reveal_strlit(" ");
    }
    let mut out = replace(obj, "\\", "/");
    out.append(": \\\n");
    let ghost hv = views(headers@);
    let ghost head = replace_seq(obj@, "\\"@, "/"@) + ": \\\n"@;
    assert(out@ == head + d_file_lines(hv.take(0)));
    let mut i: usize = 0;
    while i < headers.len()
        invariant
            i <= headers@.len(),
            hv == views(headers@),
            out@ == head + d_file_lines(hv.take(i as int)),
        decreases headers@.len() - i,
    {
        proof {
            reveal_strlit("\\");
            reveal_strlit(" ");
        }
        let slashed = replace(headers[i].as_str(), "\\", "/");
        let escaped = replace(slashed.as_str(), " ", "\\ ");
        out.append("  ");
        out.append(escaped.as_str());
        out.append(" \\\n");
        assert(hv.take(i + 1).drop_last() =~= hv.take(i as int));
        assert(hv.take(i + 1).last() == headers@[i as int]@);
        assert(out@ =~= head + d_file_lines(hv.take(i + 1)));
        i = i + 1;
    }
    assert(hv.take(i as int) =~= hv);
    out
}

} // verus!
