use dcr::project::config::{Config, ConfigError, DependencyConfig, LanguageConfig};
use dcr::project::value::TomlValue;
use dcr::project::workspace::{parse_workspace, topo_sort, WorkspaceMember};

fn minimal_valid_toml() -> &'static str {
    "[package]\nname = \"test\"\nversion = \"0.1.0\"\n\n[build]\nlanguage = \"c\"\nstandard = \"c11\"\ncompiler = \"clang\"\nkind = \"bin\"\n\n[dependencies]\n"
}

fn open_text(text: &str) -> Result<Config, ConfigError> {
    Config::open("dcr.toml", Some(text))
}

fn get_str(config: &Config, key: &str) -> Option<String> {
    config.get(key).and_then(|v| v.as_str()).map(|s| s.to_string())
}

#[test]
fn open_valid_toml() {
    let config = open_text(minimal_valid_toml());
    assert!(config.is_ok(), "should open valid toml");
}

#[test]
fn exposes_typed_config() {
    let config = open_text(
        "[package]\nname = \"typed\"\nversion = \"1.2.3\"\ntype = \"lib\"\n\n[build]\nlanguage = [\"c\", \"c++\"]\nstandard = \"c11\"\ncompiler = \"clang\"\nkind = \"staticlib\"\ncflags = [\"-Wall\"]\n\n[dependencies]\nfoo = \"1.0.0\"\n",
    )
    .ok()
    .unwrap();
    assert_eq!(config.package().name, "typed");
    assert_eq!(config.typed().package.version, "1.2.3");
    assert_eq!(config.build_config().compiler, "clang");
    assert_eq!(config.build_config().cflags, ["-Wall"]);
    assert!(config.typed().dependencies.iter().any(|(k, _)| k == "foo"));
    match &config.build_config().language {
        LanguageConfig::Many(v) => assert_eq!(v, &vec!["c".to_string(), "c++".to_string()]),
        LanguageConfig::One(_) => panic!("language should be an array"),
    }
    match &config.typed().dependencies[0].1 {
        DependencyConfig::Version(v) => assert_eq!(v, "1.0.0"),
        DependencyConfig::Table(_) => panic!("dependency should be a version"),
    }
}

#[test]
fn open_invalid_toml_syntax() {
    let config = open_text("this is not [valid toml !!!");
    assert!(config.is_err(), "should fail on invalid TOML syntax");
    assert!(matches!(config, Err(ConfigError::TomlDe(_))));
}

#[test]
fn open_nonexistent_fails() {
    let result = Config::open("/tmp/dcr_nonexistent_file_12345.toml", None);
    assert!(result.is_err(), "should fail on nonexistent file");
    match result {
        Err(e) => assert_eq!(e.message(), "Invalid config: dcr.toml not found"),
        Ok(_) => panic!("expected an error"),
    }
}

#[test]
fn validate_missing_package_fails() {
    let result = open_text(
        "[build]\nlanguage = \"c\"\nstandard = \"c11\"\ncompiler = \"clang\"\n\n[dependencies]\n",
    );
    assert!(result.is_err(), "missing [package] should fail validation");
}

#[test]
fn validate_missing_build_fails() {
    let result = open_text("[package]\nname = \"test\"\nversion = \"0.1.0\"\n\n[dependencies]\n");
    assert!(result.is_err(), "missing [build] should fail validation");
}

#[test]
fn validate_wrong_field_type_fails() {
    let result = open_text(
        "[package]\nname = \"test\"\nversion = \"0.1.0\"\n\n[build]\nlanguage = \"c\"\nstandard = \"c11\"\ncompiler = [\"clang\"]\nkind = \"bin\"\n\n[dependencies]\n",
    );
    assert!(result.is_err(), "typed config should reject wrong field types");
    assert!(matches!(result, Err(ConfigError::TomlDe(_))));
}

#[test]
fn validate_invalid_package_names_fail() {
    for name in ["../evil", "bad/name", "bad name", "", " name", "name ", "a.b"] {
        let content = format!(
            "[package]\nname = \"{name}\"\nversion = \"0.1.0\"\n\n[build]\nlanguage = \"c\"\nstandard = \"c11\"\ncompiler = \"clang\"\nkind = \"bin\"\n\n[dependencies]\n"
        );
        let result = open_text(&content);
        assert!(result.is_err(), "package name `{name}` should fail");
    }
}

#[test]
fn valid_package_names_pass() {
    for name in ["bad_name", "my-lib", "Lib2"] {
        let content = format!(
            "[package]\nname = \"{name}\"\nversion = \"0.1.0\"\n\n[build]\nlanguage = \"c\"\nstandard = \"c11\"\ncompiler = \"clang\"\nkind = \"bin\"\n\n[dependencies]\n"
        );
        assert!(open_text(&content).is_ok(), "package name `{name}` should pass");
    }
}

#[test]
fn validate_empty_language_fails() {
    let result = open_text(
        "[package]\nname = \"test\"\nversion = \"0.1.0\"\n\n[build]\nlanguage = \"\"\nstandard = \"c11\"\ncompiler = \"clang\"\n\n[dependencies]\n",
    );
    assert!(result.is_err(), "empty language should fail validation");
}

#[test]
fn validate_language_array() {
    let result = open_text(
        "[package]\nname = \"test\"\nversion = \"0.1.0\"\n\n[build]\nlanguage = [\"c\", \"c++\", \"asm\"]\nstandard = \"c11\"\ncompiler = \"clang\"\n\n[dependencies]\n",
    );
    assert!(result.is_ok(), "language array should be valid");
}

#[test]
fn validate_language_array_empty_fails() {
    let result = open_text(
        "[package]\nname = \"test\"\nversion = \"0.1.0\"\n\n[build]\nlanguage = []\nstandard = \"c11\"\ncompiler = \"clang\"\n\n[dependencies]\n",
    );
    assert!(result.is_err(), "empty language array should fail");
}

#[test]
fn validate_unknown_kind_fails() {
    let result = open_text(
        "[package]\nname = \"test\"\nversion = \"0.1.0\"\n\n[build]\nlanguage = \"c\"\nstandard = \"c11\"\ncompiler = \"clang\"\nkind = \"exe\"\n\n[dependencies]\n",
    );
    assert!(result.is_err(), "unknown kind 'exe' should fail validation");
    match result {
        Err(e) => assert_eq!(e.message(), "Invalid config: build.kind is invalid"),
        Ok(_) => panic!("expected an error"),
    }
}

#[test]
fn validate_valid_kinds() {
    for kind in ["bin", "staticlib", "sharedlib", "efi", "elf"] {
        let toml = format!(
            "[package]\nname = \"test\"\nversion = \"0.1.0\"\n\n[build]\nlanguage = \"c\"\nstandard = \"c11\"\ncompiler = \"clang\"\nkind = \"{kind}\"\n\n[dependencies]\n"
        );
        assert!(open_text(&toml).is_ok(), "kind '{kind}' should be valid");
    }
}

#[test]
fn get_values() {
    let config = open_text(minimal_valid_toml()).ok().unwrap();
    assert_eq!(get_str(&config, "package.name"), Some("test".to_string()));
    assert_eq!(get_str(&config, "build.language"), Some("c".to_string()));
    assert_eq!(get_str(&config, "build.kind"), Some("bin".to_string()));
    assert!(config.get("nonexistent.key").is_none());
}

#[test]
fn set_and_read_back() {
    let mut config = open_text(minimal_valid_toml()).ok().unwrap();
    assert!(config.edit("package.name", TomlValue::from_str("newname".to_string())).is_ok());
    assert_eq!(get_str(&config, "package.name"), Some("newname".to_string()));

    // What would be written to disk reads back the same way.
    let text = config.save().ok().unwrap();
    let config2 = open_text(&text).ok().unwrap();
    assert_eq!(get_str(&config2, "package.name"), Some("newname".to_string()));
}

#[test]
fn failed_edit_leaves_config_unchanged() {
    let mut config = open_text(minimal_valid_toml()).ok().unwrap();
    let result = config.edit("build.kind", TomlValue::from_str("exe".to_string()));
    assert!(matches!(result, Err(ConfigError::Invalid(_))));
    assert_eq!(get_str(&config, "build.kind"), Some("bin".to_string()));
    let blocked = config.edit("package.name.inner", TomlValue::from_str("x".to_string()));
    assert!(matches!(blocked, Err(ConfigError::Invalid(_))));
    assert_eq!(get_str(&config, "package.name"), Some("test".to_string()));
}

#[test]
fn edit_adds_dependency_table() {
    let mut config = open_text(minimal_valid_toml()).ok().unwrap();
    assert!(config.add("dependencies.zlib", TomlValue::from_str("1.3".to_string())).is_ok());
    let text = config.save().ok().unwrap();
    assert!(text.ends_with("[dependencies]\nzlib = \"1.3\"\n"));
}

#[test]
fn new_creates_default_config() {
    let config = Config::new("dcr.toml", None, "new_default").ok().unwrap();
    assert_eq!(get_str(&config, "build.language"), Some("c".to_string()));
    assert_eq!(get_str(&config, "build.standard"), Some("c11".to_string()));
    assert_eq!(get_str(&config, "build.compiler"), Some("clang".to_string()));
    assert_eq!(get_str(&config, "build.kind"), Some("bin".to_string()));
}

#[test]
fn new_default_text_layout() {
    let config = Config::new("dcr.toml", None, "demo").ok().unwrap();
    let text = config.save().ok().unwrap();
    assert_eq!(
        text,
        "[package]\nname = \"demo\"\nversion = \"0.1.0\"\ntype = \"none\"\ndescription = \"\"\nauthor = \"\"\nlicense = \"GPL-3.0-or-later\"\n\n[build]\nlanguage = \"c\"\nstandard = \"c11\"\ncompiler = \"clang\"\nkind = \"bin\"\n\n[dependencies]\n"
    );
}

#[test]
fn new_with_invalid_project_name_fails() {
    assert!(Config::new("dcr.toml", None, "bad name").is_err());
}

#[test]
fn validate_workspace_empty_path_fails() {
    let result = open_text(
        "[package]\nname = \"test\"\nversion = \"0.1.0\"\n\n[build]\nlanguage = \"c\"\nstandard = \"c11\"\ncompiler = \"clang\"\n\n[workspace]\n[workspace.member1]\npath = \"\"\n\n[dependencies]\n",
    );
    assert!(result.is_err(), "workspace member with empty path should fail");
}

#[test]
fn check_returns_bool() {
    let config = open_text(minimal_valid_toml()).ok().unwrap();
    assert!(config.check(), "valid config should return true");
}

#[test]
fn profile_section_rules() {
    let base = "[package]\nname = \"test\"\nversion = \"0.1.0\"\n\n[build]\nlanguage = \"c\"\nstandard = \"c11\"\ncompiler = \"clang\"\n";
    let ok = format!("{base}\n[build.release]\ncflags = [\"-O2\"]\nsteps = [{{ name = \"gen\", in = \"a\", out = \"b\", cmd = \"c\" }}]\n");
    assert!(open_text(&ok).is_ok());
    let bad_kind = format!("{base}\n[build.debug]\nkind = \"exe\"\n");
    assert!(open_text(&bad_kind).is_err());
    let bad_step = format!("{base}\n[build.release]\nsteps = [{{ name = \"gen\", in = \"a\", out = \"b\" }}]\n");
    assert!(open_text(&bad_step).is_err());
    let not_table = format!("{base}\nrelease = \"x\"\n");
    assert!(open_text(&not_table).is_err());
}

#[test]
fn format_dependency_table_inline() {
    let mut config = open_text(
        "[package]\nname = \"t\"\nversion = \"1\"\n\n[build]\nlanguage = \"c\"\nstandard = \"c11\"\ncompiler = \"cc\"\n\n[dependencies]\nb = { git = \"https://x/y\", branch = \"main\" }\na = { path = \"./a\", system = true }\n",
    )
    .ok()
    .unwrap();
    assert!(config.check());
    let text = config.save().ok().unwrap();
    assert!(text.ends_with(
        "[dependencies]\na = { path = \"./a\", system = true }\nb = { git = \"https://x/y\", branch = \"main\" }\n"
    ));
    assert!(config.edit("toolchain.cc", TomlValue::from_str("gcc".to_string())).is_ok());
    let text = config.save().ok().unwrap();
    assert!(text.contains("\n[toolchain]\ncc = \"gcc\"\n\n[dependencies]\n"));
}


fn ws_config(extra: &str) -> Config {
    open_text(&format!(
        "[package]\nname = \"root\"\nversion = \"0.1.0\"\n\n[build]\nlanguage = \"c\"\nstandard = \"c11\"\ncompiler = \"clang\"\nkind = \"bin\"\n\n[dependencies]\n\n{extra}"
    ))
    .ok()
    .unwrap()
}

const TWO_MEMBERS: &str = "[workspace.app]\npath = \"app\"\ndeps = [\"core\"]\n\n[workspace.core]\npath = \"libs/core\"\n";

#[test]
fn workspace_members_come_after_their_dependencies() {
    let c = ws_config(TWO_MEMBERS);
    let ws = parse_workspace(&c, "debug", None, "/r", &vec![true, true]).ok().unwrap().unwrap();
    let names: Vec<&str> = ws.members.iter().map(|m| m.name.as_str()).collect();
    assert_eq!(names, vec!["core", "app"]);
    assert_eq!(ws.members[0].path, "/r/libs/core");
    assert_eq!(ws.members[1].path, "/r/app");
    assert_eq!(ws.members[1].deps, vec!["core".to_string()]);
}

#[test]
fn workspace_member_without_manifest_fails() {
    let c = ws_config(TWO_MEMBERS);
    assert_eq!(
        parse_workspace(&c, "debug", None, "/r", &vec![true, false]).err().unwrap(),
        "workspace.core.path does not contain dcr.toml: /r/libs/core"
    );
}

#[test]
fn workspace_dependency_errors() {
    let unknown = ws_config("[workspace.app]\npath = \"app\"\ndeps = [\"zz\"]\n");
    assert_eq!(
        parse_workspace(&unknown, "debug", None, "/r", &vec![true]).err().unwrap(),
        "workspace dependency 'zz' not found"
    );
    let cycle = ws_config("[workspace.a]\npath = \"a\"\ndeps = [\"b\"]\n\n[workspace.b]\npath = \"b\"\ndeps = [\"a\"]\n");
    let err = parse_workspace(&cycle, "debug", None, "/r", &vec![true, true]).err().unwrap();
    assert!(err.starts_with("workspace dependency cycle at "));
}

#[test]
fn workspace_table_choice_and_entry_shape() {
    let none = ws_config("");
    assert!(parse_workspace(&none, "debug", None, "/r", &Vec::new()).ok().unwrap().is_none());
    let c = ws_config("[workspace.release]\npath = \"x\"\n");
    assert_eq!(
        parse_workspace(&c, "release", None, "/r", &Vec::new()).err().unwrap(),
        "workspace.path must be a table with path and deps"
    );
    let ws = parse_workspace(&c, "debug", None, "/r", &vec![true]).ok().unwrap().unwrap();
    assert_eq!(ws.members[0].name, "release");
    assert_eq!(ws.members[0].path, "/r/x");
}

fn member(name: &str, deps: &[&str]) -> WorkspaceMember {
    WorkspaceMember { name: name.to_string(), path: format!("/w/{name}"), deps: deps.iter().map(|d| d.to_string()).collect() }
}

#[test]
fn topo_sort_orders_dependencies_first() {
    let ms = vec![member("app", &["net", "core"]), member("net", &["core"]), member("core", &[])];
    let sorted = topo_sort(&ms).ok().unwrap();
    let names: Vec<&str> = sorted.iter().map(|m| m.name.as_str()).collect();
    assert_eq!(names, vec!["core", "net", "app"]);
    assert!(topo_sort(&vec![member("a", &["a"])]).is_err());
    assert!(topo_sort(&vec![member("a", &["b"])]).is_err());
}

fn invalid_message(extra_build: &str, tail: &str) -> String {
    let text = format!(
        "[package]\nname = \"test\"\nversion = \"0.1.0\"\n\n[build]\nlanguage = \"c\"\nstandard = \"c11\"\ncompiler = \"clang\"\n{extra_build}\n[dependencies]\n{tail}"
    );
    match open_text(&text) {
        Err(ConfigError::Invalid(m)) => m,
        Err(e) => panic!("unexpected error: {}", e.message()),
        Ok(_) => panic!("document was accepted"),
    }
}

#[test]
fn validation_reports_the_first_broken_rule() {
    assert_eq!(invalid_message("cflags = [\"-O2\", \" \"]\n", ""), "build.cflags contains empty value");
    assert_eq!(invalid_message("target = \"  \"\n", ""), "build.target contains empty value");
    assert_eq!(
        invalid_message("[build.release]\nkind = \"dll\"\n", ""),
        "build.release.kind is invalid"
    );
    assert_eq!(
        invalid_message("[build.debug]\ncflags = \"-g\"\n", ""),
        "build.debug.cflags must be an array of strings"
    );
    assert_eq!(
        invalid_message("[build.debug]\nsteps = [{ name = \"gen\", in = \"a\", out = \"b\" }]\n", ""),
        "build.debug.steps missing cmd"
    );
    assert_eq!(
        invalid_message("", "\n[workspace.core]\npath = \"core\"\ndeps = [\"\"]\n"),
        "workspace.core.deps contains empty value"
    );
    assert_eq!(
        invalid_message("", "\n[toolchain]\ncc = \"gcc\"\ncxx = \" \"\n"),
        "toolchain.cxx contains empty value"
    );
}

#[test]
fn edit_through_a_value_names_it() {
    let mut config = open_text(minimal_valid_toml()).ok().unwrap();
    match config.edit("package.name.inner", TomlValue::from_str("x".to_string())) {
        Err(ConfigError::Invalid(m)) => assert_eq!(m, "'name' is not a table"),
        _ => panic!("edit through a string should fail"),
    }
    match config.edit("build.kind", TomlValue::from_str("dll".to_string())) {
        Err(ConfigError::Invalid(m)) => assert_eq!(m, "build.kind is invalid"),
        _ => panic!("edit to an unknown kind should fail"),
    }
    assert_eq!(get_str(&config, "build.kind"), Some("bin".to_string()));
}

#[test]
fn typed_read_reports_the_first_bad_field() {
    let missing = open_text("[build]\nlanguage = \"c\"\nstandard = \"c11\"\ncompiler = \"clang\"\n\n[dependencies]\n");
    match missing {
        Err(ConfigError::TomlDe(m)) => assert_eq!(m, "missing field `package`"),
        _ => panic!("a document without [package] should not read"),
    }
    let wrong = open_text(
        "[package]\nname = \"test\"\nversion = \"0.1.0\"\n\n[build]\nlanguage = \"c\"\nstandard = 11\ncompiler = \"clang\"\n\n[dependencies]\n",
    );
    match wrong {
        Err(e) => assert_eq!(e.message(), "TOML parse error: invalid type for `standard`"),
        Ok(_) => panic!("a number standard should not read"),
    }
    let dep = open_text(
        "[package]\nname = \"test\"\nversion = \"0.1.0\"\n\n[build]\nlanguage = \"c\"\nstandard = \"c11\"\ncompiler = \"clang\"\n\n[dependencies]\nzlib = 3\n",
    );
    match dep {
        Err(ConfigError::TomlDe(m)) => assert_eq!(m, "invalid type for `zlib`"),
        _ => panic!("a number dependency should not read"),
    }
}

fn str_list(config: &Config, key: &str) -> Vec<String> {
    match config.get(key).and_then(|v| v.as_array()) {
        Some(items) => items.iter().filter_map(|v| v.as_str()).map(|s| s.to_string()).collect(),
        None => Vec::new(),
    }
}

#[test]
fn save_keeps_keys_outside_the_fixed_layout() {
    let text = "[package]\nname = \"t\"\nversion = \"1.0.0\"\n\n[build]\nlanguage = \"c\"\nstandard = \"c11\"\ncompiler = \"cc\"\nkind = \"bin\"\nexclude = [\"src/vendor\"]\nroots = [\"src\", \"lib\"]\n\n[build.release]\ncflags = [\"-O2\"]\n\n[toolchain]\ncc = \"gcc\"\nuic = \"uic6\"\n\n[dependencies]\nz = { path = \"./z\", include = [\"inc\"], libs = [\"z\"] }\n\n[run]\ncmd = \"./x \\\"quoted\\\"\"\n\n[workspace.app]\npath = \"app\"\ndeps = []\n";
    let config = open_text(text).ok().unwrap();
    let saved = config.save().ok().unwrap();
    let again = open_text(&saved).ok().unwrap();
    assert_eq!(str_list(&again, "build.exclude"), vec!["src/vendor"]);
    assert_eq!(str_list(&again, "build.roots"), vec!["src", "lib"]);
    assert_eq!(str_list(&again, "build.release.cflags"), vec!["-O2"]);
    assert_eq!(get_str(&again, "toolchain.uic"), Some("uic6".to_string()));
    assert_eq!(get_str(&again, "toolchain.cc"), Some("gcc".to_string()));
    assert_eq!(str_list(&again, "dependencies.z.include"), vec!["inc"]);
    assert_eq!(str_list(&again, "dependencies.z.libs"), vec!["z"]);
    assert_eq!(get_str(&again, "run.cmd"), Some("./x \"quoted\"".to_string()));
    assert_eq!(get_str(&again, "workspace.app.path"), Some("app".to_string()));
    // Saving what was read back gives the same text.
    assert_eq!(again.save().ok().unwrap(), saved);
}

#[test]
fn save_writes_other_tables_after_dependencies() {
    let config = open_text(&format!("{}\n[run]\ncmd = \"go\"\n", minimal_valid_toml())).ok().unwrap();
    let saved = config.save().ok().unwrap();
    assert!(saved.ends_with("[dependencies]\n[run]\ncmd = \"go\"\n\n"));
}

#[test]
fn save_keeps_float_values() {
    let config = open_text(&format!("{}\n[run]\nratio = 1.5\nlevels = [0.25, 2.0]\n", minimal_valid_toml())).ok().unwrap();
    let saved = config.save().ok().unwrap();
    assert!(saved.contains("[run]\nlevels = [0.25, 2.0]\nratio = 1.5\n"));
    let again = open_text(&saved).ok().unwrap();
    assert_eq!(again.save().ok().unwrap(), saved);
}
