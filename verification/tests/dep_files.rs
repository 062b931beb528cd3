use dcr::project::builder::common::parse_d_file;

#[test]
fn parse_d_file_gcc_format() {
    let content = "target/obj/main.o: src/main.c src/utils.h \\\n src/core/types.h";
    let deps = parse_d_file(content);
    assert_eq!(deps, vec!["src/main.c", "src/utils.h", "src/core/types.h"]);
}

#[test]
fn parse_d_file_msvc_format() {
    let content = "target/obj/main.obj: \\\n  C:/sdk/include/windows.h \\\n  src/main.c";
    let deps = parse_d_file(content);
    assert_eq!(deps, vec!["C:/sdk/include/windows.h", "src/main.c"]);
}

#[test]
fn parse_d_file_without_rule_lists_every_word() {
    let deps = parse_d_file("no colon here");
    assert_eq!(deps, vec!["no", "colon", "here"]);
}

#[test]
fn parse_d_file_keeps_drive_letter() {
    let deps = parse_d_file("C:/x/main.o: C:/x/a.h");
    assert_eq!(deps, vec!["C:/x/a.h"]);
}
