use dcr::cli::gen::{
    build_compile_command, build_compile_commands, gen_clion_misc_xml, gen_clion_run_config, gen_launch_json,
    gen_settings_json, json_str, json_str_array, parse_gen_profile, project_info_to_json, sanitize_filename,
    strip_src_prefix, xml_escape, ProjectInfo, LAUNCH_PLACEHOLDER,
};
use dcr::cli::gen_info::{
    collect_project_info_inner, gen_dep_roots, gen_include_candidates, include_dir_candidates, gen_source_roots, get_bool_with_profile,
    get_language_with_profile, get_list_with_profile, get_string_with_profile, normalize_kind, normalize_platform,
    normalize_target, primary_language, resolve_deps_for_gen, GenEnv, GenFound,
};
use dcr::utils::build_helpers::resolve_compiler;
use dcr::project::config::Config;
use dcr::project::deps::PathFacts;

fn info(kind: &str) -> ProjectInfo {
    ProjectInfo {
        name: "demo".to_string(),
        version: "1.0.0".to_string(),
        root: "/p".to_string(),
        profile: "debug".to_string(),
        language: "c".to_string(),
        standard: "c11".to_string(),
        compiler: String::new(),
        kind: kind.to_string(),
        sources: vec!["/p/src/main.c".to_string()],
        include_dirs: vec!["/dep/include".to_string()],
        lib_dirs: Vec::new(),
        libs: vec!["m".to_string()],
        cflags: vec!["-Iinclude".to_string(), "-DX".to_string()],
        ldflags: Vec::new(),
    }
}

fn no_env() -> GenEnv {
    GenEnv { compiler: None, assembler: None, cxx: None, cc: None, linker: None, archiver: None }
}

fn config(text: &str) -> Config {
    Config::open("/p/dcr.toml", Some(text)).ok().unwrap()
}

const PROJECT: &str = "[package]\nname = \"demo\"\nversion = \"1.0.0\"\n\n[build]\nlanguage = \"c\"\nstandard = \"c11\"\ncompiler = \"gcc\"\nkind = \"bin\"\ncflags = [\"-Wall\"]\n\n[build.release]\ncflags = [\"-O2\"]\nstandard = \" c17 \"\n\n[dependencies]\nfoo = { path = \"deps/{profile}/foo\", libs = [\"foo\"] }\n";

#[test]
fn json_strings_are_escaped() {
    assert_eq!(json_str("a\"b\\c\n\u{1}"), "\"a\\\"b\\\\c\\n\\u0001\"");
    assert_eq!(json_str("tab\there"), "\"tab\\there\"");
    assert_eq!(json_str_array(&vec!["a".to_string(), "b".to_string()]), "[\"a\", \"b\"]");
    assert_eq!(json_str_array(&Vec::new()), "[]");
}

#[test]
fn xml_and_file_names() {
    assert_eq!(xml_escape("<a & 'b'>\""), "&lt;a &amp; &apos;b&apos;&gt;&quot;");
    assert_eq!(sanitize_filename("my app-1_x.y"), "my_app-1_x_y");
}

#[test]
fn src_prefix_is_stripped() {
    assert_eq!(strip_src_prefix("./src/core/util.c"), "core/util.c");
    assert_eq!(strip_src_prefix("./src/main.c"), "main.c");
    assert_eq!(strip_src_prefix("src\\main.c"), "main.c");
    assert_eq!(strip_src_prefix("./src/src\\x.c"), "src\\x.c");
    assert_eq!(strip_src_prefix("lib/a.c"), "lib/a.c");
}

#[test]
fn compile_command_for_a_source() {
    let args = build_compile_command(&info("bin"), "/p/src/main.c", "debug");
    assert_eq!(
        args,
        vec![
            "cc", "-c", "/p/src/main.c", "-o", "/p/target/debug/obj/main.o", "-std=c11", "-O0", "-g", "-Wall", "-Wextra",
            "-fno-omit-frame-pointer", "-DDCR_DEBUG", "-I/p/include", "-DX", "-I/dep/include",
        ]
    );
    let shared = build_compile_command(&info("sharedlib"), "src/a.S", "release");
    assert_eq!(
        shared,
        vec![
            "cc", "-c", "src/a.S", "-o", "/p/target/release/obj/a.o", "-fPIC", "-x", "assembler-with-cpp",
            "-std=c11", "-O3", "-DNDEBUG", "-I/p/include", "-DX", "-I/dep/include",
        ]
    );
}

#[test]
fn compile_commands_file() {
    let text = build_compile_commands(&vec![info("bin")], "custom");
    assert_eq!(
        text,
        "[\n  {\n    \"directory\": \"/p\",\n    \"file\": \"/p/src/main.c\",\n    \"arguments\": [\"cc\", \"-c\", \"/p/src/main.c\", \"-o\", \"/p/target/custom/obj/main.o\", \"-std=c11\", \"-I/p/include\", \"-DX\", \"-I/dep/include\"]\n  }\n]\n"
    );
    assert_eq!(build_compile_commands(&Vec::new(), "debug"), "[\n\n]\n");
}

#[test]
fn project_info_json() {
    let mut i = info("bin");
    i.sources = Vec::new();
    i.cflags = Vec::new();
    let expected = "  {\n    \"name\": \"demo\",\n    \"version\": \"1.0.0\",\n    \"root\": \"/p\",\n    \"profile\": \"debug\",\n    \"language\": \"c\",\n    \"standard\": \"c11\",\n    \"compiler\": \"\",\n    \"kind\": \"bin\",\n    \"sources\": [],\n    \"include_dirs\": [\"/dep/include\"],\n    \"lib_dirs\": [],\n    \"libs\": [\"m\"],\n    \"cflags\": [],\n    \"ldflags\": []\n  }";
    assert_eq!(project_info_to_json(&i), expected);
}

#[test]
fn launch_json_has_debug_and_release_entries() {
    let text = gen_launch_json(&vec![info("bin"), info("staticlib")]);
    assert!(text.starts_with("{\n  \"version\": \"0.2.0\",\n  \"configurations\": [\n    {\n      \"name\": \"demo (debug)\","));
    assert!(text.contains("\"program\": \"/p/target/release/demo\","));
    assert_eq!(text.matches("\"request\": \"launch\"").count(), 2);
    let none = gen_launch_json(&vec![info("staticlib")]);
    assert_eq!(none, format!("{{\n  \"version\": \"0.2.0\",\n  \"configurations\": [\n{}\n  ]\n}}\n", LAUNCH_PLACEHOLDER));
}

#[test]
fn settings_and_clion_files() {
    assert!(gen_settings_json("/p").contains("\"--compile-commands-dir=/p\","));
    assert!(gen_clion_misc_xml("/a&b").contains("<customCompileCommandsPath>/a&amp;b/compile_commands.json</customCompileCommandsPath>"));
    let run = gen_clion_run_config(&info("bin"), "/p", "release");
    assert!(run.contains("name=\"demo (release)\""));
    assert!(run.contains("<build target=\"dcr: build (release)\" />"));
    assert!(run.contains("<executable path=\"/p/target/release/demo\" />"));
}

#[test]
fn gen_profile_is_the_last_flag() {
    assert_eq!(parse_gen_profile(&Vec::new()), "debug");
    assert_eq!(parse_gen_profile(&vec!["--release".to_string(), "--debug".to_string()]), "debug");
    assert_eq!(parse_gen_profile(&vec!["x".to_string(), "--release".to_string()]), "release");
}

#[test]
fn primary_language_prefers_cxx() {
    assert_eq!(primary_language("C + CXX"), "cxx");
    assert_eq!(primary_language("c+asm"), "c");
    assert_eq!(primary_language("asm"), "asm");
    assert_eq!(primary_language("c++"), "c");
    assert_eq!(primary_language("Rust"), "rust");
}

#[test]
fn compiler_resolution_order() {
    assert_eq!(
        resolve_compiler("cpp", "gcc", Some("cc1"), Some("cxx1"), None, None, None, Some(" clang++ "), None),
        "clang++"
    );
    assert_eq!(resolve_compiler("cpp", "gcc", Some("cc1"), Some("cxx1"), None, None, None, None, None), "cxx1");
    // Assembly takes DCR_AS or the toolchain's assembler, not DCR_CC.
    assert_eq!(resolve_compiler("asm", "gcc", Some("cc1"), None, None, None, None, None, Some("tcc")), "gcc");
    // The environment beats the toolchain: DCR_CC wins over the toolchain's C++ compiler.
    assert_eq!(resolve_compiler("cpp", "clang", None, Some("clang++"), None, None, None, None, Some("gcc")), "gcc");
    assert_eq!(resolve_compiler("c", "gcc", None, None, None, Some("  "), None, None, None), "gcc");
    assert_eq!(resolve_compiler("c", "gcc", None, None, None, Some(" zig cc "), None, None, None), "zig cc");
}

#[test]
fn normalizers() {
    assert_eq!(normalize_target("linux", "debug"), Some("target/x86_64-unknown-linux-gnu/debug".to_string()));
    assert_eq!(normalize_target("  ", "debug"), None);
    assert_eq!(normalize_kind("  "), "bin");
    assert_eq!(normalize_kind(" elf "), "elf");
    assert_eq!(normalize_platform(" "), None);
    assert_eq!(normalize_platform(" x86 "), Some("x86"));
}

#[test]
fn profile_settings() {
    let c = config(PROJECT);
    assert_eq!(get_string_with_profile(&c, "standard", "release"), "c17");
    assert_eq!(get_string_with_profile(&c, "standard", "debug"), "c11");
    assert_eq!(get_list_with_profile(&c, "cflags", "release"), vec!["-Wall", "-O2"]);
    assert_eq!(get_list_with_profile(&c, "cflags", "debug"), vec!["-Wall"]);
    assert!(!get_bool_with_profile(&c, "src_disable", "debug", false));
    assert_eq!(get_language_with_profile(&c, "debug"), "c");
}

#[test]
fn gen_dependencies_and_sources() {
    let c = config(PROJECT);
    assert_eq!(gen_dep_roots(&c, "debug", "/p"), vec![Some("/p/deps/debug/foo".to_string())]);
    let facts = vec![PathFacts { include_dir: true, lib: false, lib64: true, target_lib: false }];
    let deps = resolve_deps_for_gen(&c, "debug", "/p", &facts);
    assert_eq!(deps.include_dirs, vec!["/p/deps/debug/foo/include"]);
    assert_eq!(deps.lib_dirs, vec!["/p/deps/debug/foo/lib64"]);
    assert_eq!(deps.libs, vec!["foo"]);
    assert_eq!(gen_source_roots(&c, "/p", "debug"), vec!["/p/src"]);
    assert!(gen_include_candidates(&c, "/p", "debug").is_empty());
}

#[test]
fn project_info_from_configuration() {
    let c = config(PROJECT);
    let found = GenFound {
        dep_facts: vec![PathFacts { include_dir: false, lib: true, lib64: false, target_lib: false }],
        pkg_cflags: vec!["-I/usr/include/x".to_string()],
        pkg_ldflags: vec!["-lx".to_string()],
        include_is_dir: Vec::new(),
        files: vec!["/p/src/main.c".to_string(), "/p/src/util.h".to_string(), "/p/src/a.c".to_string()],
        cwd: Some("/p".to_string()),
    };
    let i = collect_project_info_inner(&c, "/p", "debug", &no_env(), &found).ok().unwrap();
    assert_eq!(i.name, "demo");
    assert_eq!(i.compiler, "gcc");
    let cc_env = GenEnv { compiler: None, assembler: None, cxx: None, cc: Some(" tcc ".to_string()), linker: None, archiver: None };
    assert_eq!(collect_project_info_inner(&c, "/p", "debug", &cc_env, &found).ok().unwrap().compiler, "tcc");
    assert_eq!(i.kind, "bin");
    assert_eq!(i.sources, vec!["/p/./src/a.c", "/p/./src/main.c"]);
    assert_eq!(i.include_dirs, Vec::<String>::new());
    assert_eq!(i.lib_dirs, vec!["/p/deps/debug/foo/lib"]);
    assert_eq!(i.libs, vec!["foo"]);
    assert_eq!(i.cflags, vec!["-Wall", "-I/usr/include/x"]);
    assert_eq!(i.ldflags, vec!["-lx"]);
    let nothing = GenFound {
        dep_facts: Vec::new(),
        pkg_cflags: Vec::new(),
        pkg_ldflags: Vec::new(),
        include_is_dir: Vec::new(),
        files: vec!["/p/src/readme.md".to_string()],
        cwd: Some("/p".to_string()),
    };
    assert_eq!(
        collect_project_info_inner(&c, "/p", "debug", &no_env(), &nothing).err().unwrap(),
        "Failed to collect sources: No source files found in /p/src"
    );
}

#[test]
fn include_dir_candidates_skip_globs_and_blanks() {
    let includes = vec![" inc ".to_string(), "src/**/*.h".to_string(), "  ".to_string(), "/abs/inc".to_string()];
    assert_eq!(
        include_dir_candidates("/p", &includes),
        vec![Some("/p/inc".to_string()), None, None, Some("/abs/inc".to_string())]
    );
}
