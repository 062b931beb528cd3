use dcr::cli::add::{parse_add_args, AddRequest};
use dcr::cli::flags::parse_build_run_flags;
use dcr::cli::clean::{clean_dir, clean_dir_present, clean_patterns, clean_target, parse_clean_flags, substitute_version_vars};
use dcr::cli::flags::BuildRunFlags;
use dcr::cli::gen_info::GenEnv;
use dcr::cli::new::{check_new_args, new_project_config, NewError};
use dcr::cli::run::{get_run_cmd, plan_run, substitute_run_vars};
use dcr::cli::testsuite::{
    compile_test_source_args, extract_test_names, link_test_binary_args, parse_test_args, select_test_sources,
    summarize_testsuite, test_artifacts, test_include_dirs, test_plan, test_step, TestAction, TestCommand, TestOutcome,
    TestPhase, TestState, TestStatus,
};
use dcr::cli::tree::{resolve_dep_path, tree_child_prefix, tree_header, tree_label, tree_line};
use dcr::cli::update::{asset_candidates, pacman_owned_package, pick_asset, release_version, temp_binary_path};
use dcr::project::config::Config;
use dcr::project::value::{TomlTable, TomlValue};
use dcr::utils::build_helpers::{get_language_with_profile, parse_language_value, resolve_compiler, resolve_tool};

fn strings(v: &[&str]) -> Vec<String> {
    v.iter().map(|s| s.to_string()).collect()
}

fn project(extra: &str, kind: &str) -> Config {
    let text = format!(
        "[package]\nname = \"demo\"\nversion = \"1.2.3-rc1\"\n\n[build]\nlanguage = \"c\"\nstandard = \"c11\"\ncompiler = \"gcc\"\nkind = \"{kind}\"\n{extra}\n[dependencies]\n"
    );
    Config::open("dcr.toml", Some(&text)).ok().unwrap()
}

fn no_env() -> GenEnv {
    GenEnv { compiler: None, assembler: None, cxx: None, cc: None, linker: None, archiver: None }
}

fn flags(profile: &str, target: Option<&str>) -> BuildRunFlags {
    BuildRunFlags { profile: profile.to_string(), target: target.map(|t| t.to_string()), force: false, clean: false, verbose: false }
}

#[test]
fn run_variables_are_filled_in() {
    assert_eq!(
        substitute_run_vars("./t/{profile}/x {version} {version_major}.{version_minor}.{version_patch} {version_suffix}{version_suffix_dash}", "debug", "1.2.3-rc1"),
        "./t/debug/x 1.2.3-rc1 1.2.3 rc1-rc1"
    );
    assert_eq!(substitute_run_vars("{version}", "debug", ""), "0.0.0");
}

#[test]
fn run_command_lookup() {
    let c = Config::open(
        "dcr.toml",
        Some("[package]\nname = \"demo\"\nversion = \"1.2.3\"\n\n[build]\nlanguage = \"c\"\nstandard = \"c11\"\ncompiler = \"gcc\"\nkind = \"bin\"\n\n[run]\ncmd = \" ./target/{profile}/demo --v {version_major} \"\n\n[run.release]\ncmd = \"echo release\"\n\n[dependencies]\n"),
    )
    .ok()
    .unwrap();
    assert_eq!(get_run_cmd(&c, "debug", None, "1.2.3"), Some("./target/debug/demo --v 1".to_string()));
    assert_eq!(get_run_cmd(&c, "release", None, "1.2.3"), Some("echo release".to_string()));
    let plain = project("", "bin");
    assert_eq!(get_run_cmd(&plain, "debug", Some("linux"), "1.2.3"), None);
}

#[test]
fn run_plan_for_binaries_and_libraries() {
    let c = project("", "bin");
    let p = plan_run(&c, &flags("debug", None), "x86_64-unknown-linux-gnu").ok().unwrap();
    assert_eq!(p.command, None);
    assert_eq!(p.target_dir, Some("target/x86_64-unknown-linux-gnu/debug".to_string()));
    assert_eq!(p.bin_path, "target/x86_64-unknown-linux-gnu/debug/demo");
    let lib = project("", "staticlib");
    assert_eq!(plan_run(&lib, &flags("release", Some("linux")), "host").err().unwrap(), "Cannot run library build");
}

#[test]
fn clean_flags() {
    let f = parse_clean_flags(&strings(&["--release", "--target", "linux", "--all"])).ok().unwrap();
    assert_eq!(f.profile, Some("release".to_string()));
    assert_eq!(f.target, Some("linux".to_string()));
    assert!(f.all);
    assert_eq!(parse_clean_flags(&strings(&["--debug", "--release"])).err().unwrap(), "Duplicate profile flag");
    assert_eq!(parse_clean_flags(&strings(&["--target"])).err().unwrap(), "--target requires a value");
    assert_eq!(parse_clean_flags(&strings(&["--foo"])).err().unwrap(), "Unknown argument");
    let none = parse_clean_flags(&Vec::new()).ok().unwrap();
    assert_eq!(none.profile, None);
    assert!(!none.all);
}

#[test]
fn clean_directories() {
    assert_eq!(clean_dir("debug", Some("t")), "target/t/debug");
    assert_eq!(clean_dir("debug", None), "target/debug");
    let items = strings(&["debug", "x86_64-unknown-linux-gnu"]);
    assert!(clean_dir_present("debug", None, &items));
    assert!(clean_dir_present("release", Some("x86_64-unknown-linux-gnu"), &items));
    assert!(!clean_dir_present("release", None, &items));
    let c = project("target = \" linux \"\n", "bin");
    assert_eq!(clean_target(&c, None, "host"), "linux");
    assert_eq!(clean_target(&c, Some("given"), "host"), "given");
    assert_eq!(clean_target(&project("", "bin"), None, "host"), "host");
}

#[test]
fn clean_patterns_fill_in_variables() {
    let c = project("clean = [\"out/{profile}/*.tmp\", \"v{version}.log\"]\n", "bin");
    assert_eq!(clean_patterns(&c, "debug").ok().unwrap(), vec!["out/debug/*.tmp", "v1.2.3-rc1.log"]);
    assert_eq!(substitute_version_vars("{version_major}-{version_suffix}", &c), "1-rc1");
    assert!(clean_patterns(&project("", "bin"), "debug").ok().unwrap().is_empty());
}

#[test]
fn test_arguments() {
    match parse_test_args(&strings(&["--init", "--release"])).ok().unwrap() {
        TestCommand::Run { init, profile } => {
            assert!(init);
            assert_eq!(profile, "release");
        }
        TestCommand::Help => panic!("expected a run"),
    }
    assert!(matches!(parse_test_args(&strings(&["--release", "--help"])).ok().unwrap(), TestCommand::Help));
    assert_eq!(parse_test_args(&strings(&["--x"])).err().unwrap(), "Unknown argument");
}

#[test]
fn test_build_plan_and_commands() {
    let c = project("cflags = [\"-Wall\"]\n", "staticlib");
    let plan = test_plan(&c, "release", &no_env()).ok().unwrap();
    assert_eq!(plan.compiler, "gcc");
    assert_eq!(plan.cflags, vec!["-O3", "-DNDEBUG", "-Wall"]);
    assert!(plan.link_project_lib);
    assert_eq!(plan.includes, vec!["./tests", "./src", "./target/include"]);
    assert_eq!(test_include_dirs(&c, "release"), vec!["./tests", "./src", "./target/include"]);
    let (obj, bin) = test_artifacts("./tests/test.c", "");
    assert_eq!(obj, "./tests/target/test.o");
    assert_eq!(bin, "./tests/target/test");
    assert_eq!(
        compile_test_source_args(&plan, "./tests/test.c", &obj),
        vec!["-c", "./tests/test.c", "-o", "./tests/target/test.o", "-std=c11", "-O3", "-DNDEBUG", "-Wall", "-I./tests", "-I./src", "-I./target/include"]
    );
    assert_eq!(
        link_test_binary_args(&plan, &obj, &bin),
        vec!["./tests/target/test.o", "-Ltarget/lib", "-ldemo", "-o", "./tests/target/test"]
    );
}

#[test]
fn test_names_declared() {
    assert_eq!(
        extract_test_names("TEST_CASE(test_a),\n  TEST_CASE(test_b),  \nTEST_CASE(bad)\n"),
        vec!["test_a", "test_b"]
    );
}

#[test]
fn test_report_from_output() {
    let s = summarize_testsuite("[PASS] a\nSKIP\tb\n[FAIL] c\nnoise\n", &Vec::new(), false);
    assert_eq!(s.reports.len(), 3);
    assert!(s.reports[1].0 == TestStatus::Skip && s.reports[1].1 == "b");
    assert_eq!((s.pass, s.skip, s.fail, s.total, s.code), (1, 1, 1, 3, 1));
    let ok = summarize_testsuite("", &strings(&["x", "y"]), true);
    assert_eq!((ok.pass, ok.skip, ok.fail, ok.total, ok.code), (2, 0, 0, 2, 0));
    let bad = summarize_testsuite("", &strings(&["x", "y"]), false);
    assert!(bad.reports[0].0 == TestStatus::Fail && bad.reports[0].1 == "testsuite");
    assert_eq!((bad.pass, bad.fail, bad.total, bad.code), (0, 1, 2, 1));
}

#[test]
fn strict_language_and_build_compiler() {
    let c = project("", "bin");
    assert_eq!(get_language_with_profile(&c, "debug").ok().unwrap(), "c");
    let arr = TomlValue::from_array(vec![TomlValue::from_str(" c ".to_string()), TomlValue::from_str("c++".to_string())]);
    assert_eq!(parse_language_value(&arr, "build.language").ok().unwrap(), "c+c++");
    let blank = TomlValue::from_array(vec![TomlValue::from_str(" ".to_string())]);
    assert_eq!(parse_language_value(&blank, "build.language").err().unwrap(), "build.language contains empty value");
    assert_eq!(parse_language_value(&TomlValue::from_array(Vec::new()), "k").err().unwrap(), "k is empty");
    assert_eq!(resolve_compiler("asm", "gcc", Some("cc1"), None, None, None, None, None, Some("tcc")), "gcc");
    assert_eq!(resolve_compiler("c", "gcc", Some("cc1"), None, None, None, None, None, None), "cc1");
    assert_eq!(resolve_tool(Some(" ld.lld "), Some("ld")), Some("ld.lld".to_string()));
    assert_eq!(resolve_tool(None, Some("ld")), Some("ld".to_string()));
}

#[test]
fn update_assets() {
    assert_eq!(asset_candidates("x86_64-pc-windows-msvc"), vec!["dcr-x86_64-pc-windows-msvc", "dcr-x86_64-pc-windows-msvc.exe"]);
    assert_eq!(asset_candidates("x86_64-unknown-linux-gnu"), vec!["dcr-x86_64-unknown-linux-gnu"]);
    assert_eq!(pick_asset(&strings(&["a", "dcr-x86_64-unknown-linux-gnu"]), "x86_64-unknown-linux-gnu"), Some(1));
    assert_eq!(pick_asset(&strings(&["a"]), "x86_64-unknown-linux-gnu"), None);
    assert_eq!(release_version("v1.2.3"), "1.2.3");
    assert_eq!(temp_binary_path("/usr/bin/dcr", 1700000000123, false), "/usr/bin/dcr.new-1700000000123");
    assert_eq!(temp_binary_path("C:/x/dcr.exe", 5, true), "C:/x/dcr.new-5.exe");
    assert_eq!(pacman_owned_package(true, "dcr-bin\n"), Some("dcr-bin".to_string()));
    assert_eq!(pacman_owned_package(false, "x"), None);
    assert_eq!(pacman_owned_package(true, "  "), None);
}

#[test]
fn new_project_checks() {
    assert!(check_new_args(&Vec::new(), &Vec::new()).err().unwrap() == NewError::NoName);
    assert!(check_new_args(&strings(&["a", "b"]), &Vec::new()).err().unwrap() == NewError::ExtraArgs);
    assert!(check_new_args(&strings(&["demo"]), &strings(&["demo"])).err().unwrap() == NewError::Exists);
    assert_eq!(check_new_args(&strings(&["demo"]), &strings(&["other"])).ok().unwrap(), "demo");
    let c = new_project_config("./demo/dcr.toml", "work", "demo").ok().unwrap();
    assert_eq!(c.get("package.name").and_then(|v| v.as_str()), Some("demo"));
    assert!(new_project_config("./demo/dcr.toml", "bad name", "demo").err().unwrap() == NewError::CreateToml);
    assert!(new_project_config("./x/dcr.toml", "work", "bad name").err().unwrap() == NewError::WriteToml);
    assert!(new_project_config("./x/dcr.toml", "work", "").err().unwrap() == NewError::WriteToml);
    assert!(new_project_config("./x/dcr.toml", "", "").err().unwrap() == NewError::CreateToml);
}

#[test]
fn tree_lines() {
    let c = project("", "bin");
    assert_eq!(tree_header(&c), "demo v1.2.3-rc1");
    assert_eq!(resolve_dep_path(&TomlValue::from_str("path:../x".to_string()), "/p"), Some("/p/../x".to_string()));
    let mut t = TomlTable::new();
    t.insert("git".to_string(), TomlValue::from_str("https://g/x.git".to_string()));
    let git = TomlValue::from_table(t);
    assert_eq!(tree_label(&git, None), " (https://g/x.git)");
    assert_eq!(tree_label(&git, Some("2.0")), " v2.0");
    assert_eq!(tree_line("", true, "foo", " v1"), "\u{2514}\u{2500}\u{2500} foo v1");
    assert_eq!(tree_child_prefix("", false), "\u{2502}   ");
}

#[test]
fn add_bare_repository_means_github() {
    match parse_add_args(&strings(&["mylib", "user/repo"])) {
        Ok(AddRequest::Source(a)) => {
            assert_eq!(a.name, "mylib");
            assert_eq!(a.path, None);
            assert_eq!(a.git, Some("https://github.com/user/repo".to_string()));
            assert_eq!(a.branch, None);
            assert_eq!(a.tag, None);
            assert_eq!(a.rev, None);
            assert_eq!(a.version_from_registry, None);
        }
        _ => panic!("a bare user/repo source is a GitHub repository"),
    }
    match parse_add_args(&strings(&["mylib", "git:host.com/user/repo", "--tag", "v1"])) {
        Ok(AddRequest::Source(a)) => {
            assert_eq!(a.git, Some("https://host.com/user/repo".to_string()));
            assert_eq!(a.tag, Some("v1".to_string()));
        }
        _ => panic!("git: source"),
    }
    match parse_add_args(&strings(&["mylib", "nosource"])) {
        Err(lines) => assert_eq!(
            lines,
            vec!["Source must have a prefix (path:, git:, github:, gitlab:) or be a full URL".to_string()]
        ),
        _ => panic!("a source without prefix or slash is refused"),
    }
    match parse_add_args(&strings(&["zlib"])) {
        Ok(AddRequest::Registry(n)) => assert_eq!(n, "zlib"),
        _ => panic!("a name alone is looked up in the registry"),
    }
}

#[test]
fn second_profile_flag_is_refused() {
    assert_eq!(parse_build_run_flags(&strings(&["--debug", "--release"])).err(), Some("Duplicate profile flag".to_string()));
    assert_eq!(parse_build_run_flags(&strings(&["--debug", "--debug"])).err(), Some("Duplicate profile flag".to_string()));
    assert_eq!(parse_build_run_flags(&strings(&["--release", "--debug"])).err(), Some("Duplicate profile flag".to_string()));
    let f = parse_build_run_flags(&strings(&["--force", "--release", "--target", "linux"])).ok().unwrap();
    assert_eq!(f.profile, "release");
    assert_eq!(f.target, Some("linux".to_string()));
    assert!(f.force);
    let d = parse_build_run_flags(&strings(&["--debug"])).ok().unwrap();
    assert_eq!(d.profile, "debug");
}

#[test]
fn test_sources_are_c_files_in_order() {
    let entries = strings(&["./tests/b.c", "./tests/dcr_test.h", "./tests/a.c", "./tests/target", "./tests/c.cc"]);
    assert_eq!(select_test_sources(&entries), vec!["./tests/a.c", "./tests/b.c"]);
    assert!(select_test_sources(&Vec::new()).is_empty());
}

#[test]
fn test_run_steps() {
    let c = project("", "bin");
    let plan = test_plan(&c, "debug", &no_env()).ok().unwrap();
    let sources = strings(&["./tests/a.c", "./tests/b.c"]);
    let start = TestState { index: 0, phase: TestPhase::Compile, suite_success: true };
    match test_step(&plan, &Vec::new(), "", start, TestOutcome::Start).1 {
        TestAction::Stop(m) => assert_eq!(m, "tests/test.c not found; run 'dcr test --init' first"),
        _ => panic!("no sources stops the run"),
    }
    let (st, a) = test_step(&plan, &sources, "", start, TestOutcome::Start);
    match a {
        TestAction::Compile { source, args } => {
            assert_eq!(source, "./tests/a.c");
            assert_eq!(args[..4].to_vec(), vec!["-c", "./tests/a.c", "-o", "./tests/target/a.o"]);
        }
        _ => panic!("the first source is compiled"),
    }
    match test_step(&plan, &sources, "", st, TestOutcome::Done(false)).1 {
        TestAction::Stop(m) => assert_eq!(m, "Compilation of ./tests/a.c failed"),
        _ => panic!("a failed compile stops the run"),
    }
    let (st, a) = test_step(&plan, &sources, "", st, TestOutcome::Done(true));
    match a {
        TestAction::Link { bin, args } => {
            assert_eq!(bin, "./tests/target/a");
            assert_eq!(args[0], "./tests/target/a.o");
        }
        _ => panic!("a compiled source is linked"),
    }
    match test_step(&plan, &sources, ".exe", st, TestOutcome::Done(false)).1 {
        TestAction::Stop(m) => assert_eq!(m, "Linking of ./tests/target/a.exe failed"),
        _ => panic!("a failed link stops the run"),
    }
    let (st, a) = test_step(&plan, &sources, "", st, TestOutcome::Done(true));
    assert!(matches!(a, TestAction::Run { ref bin } if bin == "./tests/target/a"));
    // The first binary fails: the run goes on with the next source, the suite is failed.
    let (st, a) = test_step(&plan, &sources, "", st, TestOutcome::Done(false));
    assert!(!st.suite_success);
    assert_eq!(st.index, 1);
    assert!(matches!(a, TestAction::Compile { ref source, .. } if source == "./tests/b.c"));
    let (st, _) = test_step(&plan, &sources, "", st, TestOutcome::Done(true));
    let (st, _) = test_step(&plan, &sources, "", st, TestOutcome::Done(true));
    let (_, a) = test_step(&plan, &sources, "", st, TestOutcome::Done(true));
    assert!(matches!(a, TestAction::Report { suite_success: false }));
}
