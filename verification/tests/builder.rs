use dcr::project::builder::common::{is_excluded, normalize_source_path, object_path};
use dcr::project::builder::context::{BuildContext, Backend, select_backend, source_extensions};
use dcr::project::builder::gas::{check_gas_language, gas_assemble_command, gas_link_command, gas_obj_dir};
use dcr::project::builder::msvc;
use dcr::project::builder::unix_cc::{compile_command, link_command};

#[test]
fn object_path_basic() {
    let result = object_path("target/debug/obj", "./src/main.c", "o");
    assert_eq!(result, "target/debug/obj/main.o");
}

#[test]
fn object_path_nested() {
    let result = object_path("target/debug/obj", "./src/core/utils.c", "o");
    assert_eq!(result, "target/debug/obj/core/utils.o");
}

#[test]
fn object_path_no_prefix() {
    let result = object_path("target/debug/obj", "src/main.c", "o");
    assert_eq!(result, "target/debug/obj/main.o");
}

#[test]
fn object_path_msvc_ext() {
    let result = object_path("target/debug/obj", "./src/main.c", "obj");
    assert_eq!(result, "target/debug/obj/main.obj");
}

#[test]
fn is_excluded_match() {
    let includes: Vec<String> = Vec::new();
    let excluded = vec!["/project/src/vendor".to_string()];
    assert!(is_excluded("/project/src/vendor", &excluded, &includes, None));
    assert!(is_excluded("/project/src/vendor/lib.c", &excluded, &includes, None));
}

#[test]
fn is_excluded_no_match() {
    let includes: Vec<String> = Vec::new();
    let excluded = vec!["/project/src/vendor".to_string()];
    assert!(!is_excluded("/project/src/main.c", &excluded, &includes, None));
    assert!(!is_excluded("/other/vendor", &excluded, &includes, None));
}

#[test]
fn normalize_relative_path() {
    let result = normalize_source_path("./src/main.c", None);
    assert_eq!(result, "./src/main.c");
}

fn ctx(compiler: &str, language: &str, kind: &str) -> BuildContext {
    BuildContext {
        profile: "debug".to_string(),
        project_name: "demo".to_string(),
        compiler: compiler.to_string(),
        language: language.to_string(),
        standard: "c11".to_string(),
        target: None,
        target_dir: None,
        kind: kind.to_string(),
        platform: None,
        linker: None,
        archiver: None,
        package_type: None,
        source_roots: vec!["/p/src".to_string()],
        exclude_dirs: Vec::new(),
        include_paths: Vec::new(),
        include_dirs: vec!["inc".to_string()],
        lib_dirs: vec!["libdir".to_string()],
        libs: vec!["m".to_string()],
        cflags: Vec::new(),
        ldflags: vec!["-pthread".to_string()],
        output_filename: None,
        output_extension: None,
        verbose: false,
    }
}

#[test]
fn backend_follows_compiler_name() {
    assert!(select_backend("clang-cl") == Backend::Msvc);
    assert!(select_backend("as") == Backend::Gas);
    assert!(select_backend("nasm") == Backend::Nasm);
    assert!(select_backend("cl") == Backend::Msvc);
    assert!(select_backend("gcc") == Backend::UnixCc);
}

#[test]
fn source_extensions_follow_language() {
    assert_eq!(source_extensions("c", true), vec!["c"]);
    assert_eq!(source_extensions("cpp", true), vec!["cpp", "cxx", "cc"]);
    assert_eq!(source_extensions("c++", true), vec!["c"]);
}

#[test]
fn unix_compile_command_uses_profile_defaults() {
    let c = ctx("gcc", "c", "bin");
    let (program, args) = compile_command(&c, "src/main.c", "obj/main.o");
    assert_eq!(program, "gcc");
    assert_eq!(
        args,
        vec![
            "-c", "src/main.c", "-o", "obj/main.o", "-std=c11", "-O0", "-g", "-Wall", "-Wextra",
            "-fno-omit-frame-pointer", "-DDCR_DEBUG", "-Iinc", "-MMD", "-MF", "obj/main.d",
        ]
    );
}

#[test]
fn unix_link_command_for_static_library() {
    let c = ctx("gcc", "c", "staticlib");
    let (program, args) = link_command(&c, &vec!["a.o".to_string()], false);
    assert_eq!(program, "ar");
    assert_eq!(args, vec!["rcs", "./target/debug/libdemo.a", "a.o"]);
}

#[test]
fn gas_accepts_assembly_only() {
    assert!(check_gas_language("asm").is_ok());
    assert!(check_gas_language(" ASM + asm").is_ok());
    assert_eq!(
        check_gas_language("c+asm").unwrap_err(),
        "GAS backend requires build.language = \"asm\""
    );
}

#[test]
fn gas_commands() {
    let mut c = ctx("", "asm", "bin");
    c.cflags = vec!["--32".to_string()];
    assert_eq!(gas_obj_dir(&c), "./target/debug/obj");
    let (program, args) = gas_assemble_command(&c, "src/a.s", "obj/a.o");
    assert_eq!(program, "as");
    assert_eq!(args, vec!["src/a.s", "-o", "obj/a.o", "--32"]);
    let (linker, largs) = gas_link_command(&c, &vec!["obj/a.o".to_string()], false, false);
    assert_eq!(linker, "cc");
    assert_eq!(largs, vec!["obj/a.o", "-Llibdir", "-lm", "-pthread", "-o", "./target/debug/demo"]);
}

#[test]
fn gas_static_library_on_windows_uses_lib() {
    let mut c = ctx("as", "asm", "staticlib");
    c.target_dir = Some("out".to_string());
    assert_eq!(gas_obj_dir(&c), "out/obj");
    let (program, args) = gas_link_command(&c, &vec!["a.o".to_string()], true, false);
    assert_eq!(program, "lib");
    assert_eq!(args, vec!["/nologo", "/OUT:out/libdemo.a", "a.o"]);
}

#[test]
fn msvc_flags_for_language_standard_and_platform() {
    assert_eq!(msvc::msvc_standard_flag("C", "C17").unwrap(), "/std:c17");
    assert_eq!(msvc::msvc_standard_flag("cpp", "c++23").unwrap(), "/std:c++latest");
    assert_eq!(msvc::msvc_standard_flag("c", "c99").unwrap_err(), "Unsupported C standard for MSVC");
    assert_eq!(msvc::msvc_standard_flag("rust", "c11").unwrap_err(), "Unsupported language");
    assert_eq!(msvc::msvc_arch_flag(Some(" i686 ")), Some("/arch:IA32"));
    assert_eq!(msvc::msvc_arch_flag(Some("AVX2")), Some("/arch:AVX2"));
    assert_eq!(msvc::msvc_arch_flag(Some("arm64")), None);
    assert_eq!(msvc::msvc_arch_flag(None), None);
    assert_eq!(msvc::default_flags("release"), vec!["/O2", "/DNDEBUG"]);
}

#[test]
fn msvc_compile_and_link_commands() {
    let c = ctx("cl", "c", "bin");
    let args = msvc::compile_args(&c, "src/main.c", "obj/main.obj").unwrap();
    assert_eq!(
        args,
        vec![
            "/nologo", "/TC", "/std:c11", "/Od", "/Zi", "/W4", "/DDCR_DEBUG", "/Oy-", "/Iinc", "/c", "src/main.c",
            "/Fo:obj/main.obj", "/showIncludes",
        ]
    );
    let (program, largs) = msvc::link_command(&c, &vec!["a.obj".to_string()]).unwrap();
    assert_eq!(program, "cl");
    assert_eq!(
        largs,
        vec![
            "/nologo", "/TC", "/std:c11", "a.obj", "/Od", "/Zi", "/W4", "/DDCR_DEBUG", "/Oy-", "/LIBPATH:libdir",
            "m.lib", "/link", "-pthread", "/Fe:./target/debug/demo",
        ]
    );
    let s = ctx("cl", "c", "staticlib");
    let (archiver, sargs) = msvc::link_command(&s, &vec!["a.obj".to_string()]).unwrap();
    assert_eq!(archiver, "lib");
    assert_eq!(sargs, vec!["/nologo", "/OUT:./target/debug/libdemo.a", "a.obj"]);
    assert_eq!(msvc::compile_args(&ctx("cl", "asm", "bin"), "a", "b").unwrap_err(), "Unsupported language");
}

#[test]
fn msvc_show_includes_and_dependency_file() {
    let out = "main.c\nNote: including file:  C:\\inc\\a b.h\nwarning here\n";
    let (headers, rest) = msvc::parse_show_includes(out);
    assert_eq!(headers, vec!["C:\\inc\\a b.h"]);
    assert_eq!(rest, "main.c\nwarning here\n");
    assert_eq!(
        msvc::msvc_d_file("obj\\main.obj", &headers),
        "obj/main.obj: \\\n  C:/inc/a\\ b.h \\\n"
    );
    assert_eq!(msvc::msvc_d_file("main.obj", &Vec::new()), "main.obj: \\\n");
}

#[test]
fn msvc_refuses_assembly() {
    assert!(msvc::check_msvc_language("C++").is_ok());
    assert_eq!(
        msvc::check_msvc_language("c+ASM").unwrap_err(),
        "MSVC backend does not support build.language with asm"
    );
}
