use dcr::project::deps::{
    add_path_dependency, compute_checksum, dcr_config_dir, dep_version, get_index_path, home_dir,
    is_registry_dep, package_root_from_registry_info, path_dep_path, registry_cache_root, PathFacts,
    ResolvedDeps,
};
use dcr::project::json::JsonValue;
use dcr::project::value::{TomlTable, TomlValue};

fn table(entries: Vec<(&str, TomlValue)>) -> TomlValue {
    let mut t = TomlTable::new();
    for (k, v) in entries {
        t.insert(k.to_string(), v);
    }
    TomlValue::from_table(t)
}

fn s(v: &str) -> TomlValue {
    TomlValue::from_str(v.to_string())
}

#[test]
fn path_dep_path_supports_table_and_legacy_strings() {
    let t = table(vec![("path", s("./libs/mylib"))]);
    assert_eq!(path_dep_path(&t), Some("./libs/mylib"));
    assert_eq!(path_dep_path(&s("path:./libs/mylib")), Some("./libs/mylib"));
    assert_eq!(path_dep_path(&s("./libs/mylib")), Some("./libs/mylib"));
    assert_eq!(path_dep_path(&s("1.2.3")), None);
}

#[test]
fn default_lib_dirs_include_packaged_library_output() {
    let mut resolved = ResolvedDeps { include_dirs: Vec::new(), lib_dirs: Vec::new(), libs: Vec::new() };
    let facts = PathFacts { include_dir: false, lib: false, lib64: false, target_lib: true };
    add_path_dependency(&mut resolved, "mylib", &table(vec![]), "/tmp/dep", &facts);
    assert!(resolved.lib_dirs.iter().any(|p| p.ends_with("target/lib")));
    assert_eq!(resolved.libs, vec!["mylib"]);
}

#[test]
fn registry_dep_detection_excludes_local_and_git_strings() {
    assert!(is_registry_dep(&s("1.2.3")));
    assert!(!is_registry_dep(&s("path:./libs/mylib")));
    assert!(!is_registry_dep(&s("./libs/mylib")));
    assert!(!is_registry_dep(&s("git:https://example.com/repo.git")));
}

#[test]
fn registry_dep_detection_excludes_source_tables() {
    let path_table = table(vec![("path", s("./libs/mylib"))]);
    assert!(!is_registry_dep(&path_table));
    let registry_table = table(vec![("features", TomlValue::from_array(Vec::new()))]);
    assert!(is_registry_dep(&registry_table));
}

#[test]
fn registry_package_root_accepts_package_dir_or_manifest_path() {
    let pkg = JsonValue::Object(vec![("path".to_string(), JsonValue::Str("/tmp/pkg".to_string()))]);
    assert_eq!(package_root_from_registry_info(&pkg, "/cache").unwrap(), "/tmp/pkg");
    let pkg = JsonValue::Object(vec![("path".to_string(), JsonValue::Str("/tmp/pkg/dcr.toml".to_string()))]);
    assert_eq!(package_root_from_registry_info(&pkg, "/cache").unwrap(), "/tmp/pkg");
}

#[test]
fn registry_package_root_relative_to_cache() {
    let pkg = JsonValue::Object(vec![("path".to_string(), JsonValue::Str("pkgs/foo".to_string()))]);
    assert_eq!(package_root_from_registry_info(&pkg, "/cache").unwrap(), "/cache/pkgs/foo");
    let empty = JsonValue::Object(vec![("path".to_string(), JsonValue::Str("  ".to_string()))]);
    assert!(package_root_from_registry_info(&empty, "/cache").is_err());
}

#[test]
fn dep_version_reads_package_version() {
    let text = "[package]\nname = \"dep\"\nversion = \"2.1.0\"\n\n[build]\nlanguage = \"c\"\nstandard = \"c11\"\ncompiler = \"clang\"\nkind = \"bin\"\n\n[dependencies]\n";
    assert_eq!(dep_version("dep/dcr.toml", Some(text)), "2.1.0");
    assert_eq!(dep_version("dep/dcr.toml", None), "");
    assert_eq!(dep_version("dep/dcr.toml", Some("not toml [")), "");
}

#[test]
fn checksum_sorts_files_and_hashes_paths_and_contents() {
    let a = vec![
        ("b.c".to_string(), b"int b;".to_vec()),
        ("a.c".to_string(), b"int a;".to_vec()),
    ];
    let b = vec![
        ("a.c".to_string(), b"int a;".to_vec()),
        ("b.c".to_string(), b"int b;".to_vec()),
    ];
    let ha = compute_checksum(&a);
    assert_eq!(ha, compute_checksum(&b));
    assert_eq!(ha.len(), 64);
    // SHA-256 of "a.cint a;b.cint b;"
    assert_eq!(ha, "6e0fd07e4d12f27b5402e2c649101601b3f3753ddf7e7975c9808041e78146f9");
    let empty: Vec<(String, Vec<u8>)> = Vec::new();
    assert_eq!(
        compute_checksum(&empty),
        "e3b0c44298fc1c149afbf4c8996fb92427ae41e4649b934ca495991b7852b855"
    );
}

#[test]
fn home_and_registry_paths() {
    assert_eq!(home_dir(Some("/home/u"), Some("C:/Users/u")), Some("/home/u".to_string()));
    assert_eq!(home_dir(None, Some("C:/Users/u")), Some("C:/Users/u".to_string()));
    assert_eq!(home_dir(None, None), None);
    assert_eq!(dcr_config_dir(Some("/home/u")), Some("/home/u/.dcr".to_string()));
    assert_eq!(get_index_path(None, Some("/home/u")), "/home/u/.dcr/index.json");
    assert_eq!(get_index_path(None, None), "./index.json");
    assert_eq!(get_index_path(Some("/srv/index.json"), Some("/home/u")), "/srv/index.json");
    assert_eq!(registry_cache_root("/home/u/.dcr/index.json"), "/home/u/.dcr");
    assert_eq!(registry_cache_root("index.json"), "");
    assert_eq!(registry_cache_root("/index.json"), "/");
}
