//! `dcr test`: its arguments, the settings and command lines of a test build, the test names
//! a test source declares, and the report of a run.
use vstd::prelude::*;
use crate::cli::gen_info::{gen_profile_list, gen_string, get_list_with_profile, get_string_with_profile, GenEnv};
use crate::platform::opt_str_view;
use crate::profile::flags;
use crate::project::builder::unix_cc::{prefixed, push_prefixed, push_strings, push_strs, unix_default_flags};
use crate::project::config::{opt_view, Config};
use crate::project::lookup::{cfg_opt, cfg_str, get_config_opt, get_config_str};
use crate::project::value::TomlData;
use crate::utils::build_helpers::{build_compiler_for, get_language_with_profile, resolve_compiler, strict_profile_language};
use crate::project::builder::common::{extension_of, file_ext};
use crate::utils::paths::{join, join_path, last_index};
use crate::utils::sort::{key_leq, sort_strings};
use crate::utils::strings::{
    ends, ends_with, find_char, lines, lines_seq, split_once_char, starts, str_eq, strip_prefix, trim,
    trim_seq, trim_start_matches, trim_start_matches_seq, views,
};

verus! {

/// What `dcr test` was asked to do: print its help, or build and run the tests for a
/// profile, first writing the test header when `init` is set.
pub enum TestCommand {
    Help,
    Run { init: bool, profile: String },
}

/// Reads the arguments from `args[i..]` on top of `init` and `profile`: `None` is the help.
pub open spec fn scan_test(args: Seq<Seq<char>>, i: int, init: bool, profile: Seq<char>) -> Result<Option<(bool, Seq<char>)>, Seq<char>>
    decreases args.len() - i,
{
    if i < 0 || i >= args.len() {
        Ok(Some((init, profile)))
    } else {
        let a = args[i];
        if a == "--help"@ {
            Ok(None)
        } else if a == "--init"@ {
            scan_test(args, i + 1, true, profile)
        } else if a == "--debug"@ || a == "--release"@ {
            scan_test(args, i + 1, init, trim_start_matches_seq(a, "--"@))
        } else {
            Err("Unknown argument"@)
        }
    }
}

/// Reads `--help`, `--init`, `--debug` and `--release` (the last profile given counts; debug
/// without one); anything else is an unknown argument.
pub fn parse_test_args(args: &Vec<String>) -> (r: Result<TestCommand, String>)
    ensures
        match r {
            Ok(TestCommand::Help) => scan_test(views(args@), 0, false, "debug"@) == Ok::<Option<(bool, Seq<char>)>, Seq<char>>(None),
            Ok(TestCommand::Run { init, profile }) => scan_test(views(args@), 0, false, "debug"@) == Ok::<
                Option<(bool, Seq<char>)>,
                Seq<char>,
            >(Some((init, profile@))),
            Err(m) => scan_test(views(args@), 0, false, "debug"@) == Err::<Option<(bool, Seq<char>)>, Seq<char>>(m@),
        },
{
    let ghost a = views(args@);
    let mut init = false;
    let mut profile = "debug".to_owned();
    let mut i: usize = 0;
    while i < args.len()
        invariant
            a == views(args@),
            i <= args@.len(),
            scan_test(a, 0, false, "debug"@) == scan_test(a, i as int, init, profile@),
        decreases args@.len() - i,
    {
        let arg = args[i].as_str();
        assert(a[i as int] == arg@);
        if str_eq(arg, "--help") {
            return Ok(TestCommand::Help);
        }
        if str_eq(arg, "--init") {
            init = true;
        } else if str_eq(arg, "--debug") || str_eq(arg, "--release") {
            profile = trim_start_matches(arg, "--").to_owned();
        } else {
            return Err("Unknown argument".to_owned());
        }
        i = i + 1;
    }
    Ok(TestCommand::Run { init, profile })
}

/// What a test build needs: the project's name, the compiler, the standard, the compiler and
/// linker flags, the `pkg_config` packages, the header directories, and whether the tests
/// link the project's library.
pub struct TestPlan {
    pub name: String,
    pub compiler: String,
    pub standard: String,
    pub cflags: Vec<String>,
    pub ldflags: Vec<String>,
    pub pkg_configs: Vec<String>,
    pub includes: Vec<String>,
    pub link_project_lib: bool,
}

/// The header directories of a test build: `./tests`, `./src`, `./target/include`, then the
/// profile's `include` entries.
pub open spec fn test_includes_of(d: TomlData, profile: Seq<char>) -> Seq<Seq<char>> {
    seq!["./tests"@, "./src"@, "./target/include"@] + gen_profile_list(d, "include"@, profile)
}

/// The header directories of a test build (see `test_includes_of`).
pub fn test_include_dirs(config: &Config, profile: &str) -> (r: Vec<String>)
    ensures
        views(r@) == test_includes_of(config.doc(), profile@),
{
    let mut dirs = vec!["./tests".to_owned(), "./src".to_owned(), "./target/include".to_owned()];
    let ghost d0 = views(dirs@);
    assert(d0 =~= seq!["./tests"@, "./src"@, "./target/include"@]);
    let extra = get_list_with_profile(config, "include", profile);
    push_strings(&mut dirs, &extra);
    dirs
}

/// Whether the tests link the project's library: a `lib` package, or a static or shared
/// library kind.
pub open spec fn links_project_lib(d: TomlData, profile: Seq<char>) -> bool {
    cfg_str(d, "package.type"@) == "lib"@ || gen_string(d, "kind"@, profile) == "staticlib"@ || gen_string(d, "kind"@, profile)
        == "sharedlib"@
}

fn opt_as_str(o: &Option<String>) -> (r: Option<&str>)
    ensures
        opt_str_view(r) == opt_view(*o),
{
    match o {
        Some(s) => Some(s.as_str()),
        None => None,
    }
}

/// What a test build for `profile` uses (the `env` values are those of the environment); the
/// language must be set (see `strict_profile_language`).
pub fn test_plan(config: &Config, profile: &str, env: &GenEnv) -> (r: Result<TestPlan, String>)
    ensures
        ({
            let d = config.doc();
            match r {
                Ok(p) => {
                    &&& strict_profile_language(d, profile@) is Ok
                    &&& p.name@ == cfg_str(d, "package.name"@)
                    &&& p.compiler@ == build_compiler_for(
                        strict_profile_language(d, profile@)->Ok_0,
                        gen_string(d, "compiler"@, profile@),
                        cfg_opt(d, "toolchain.cc"@),
                        cfg_opt(d, "toolchain.cxx"@),
                        cfg_opt(d, "toolchain.as"@),
                        opt_view(env.compiler),
                        opt_view(env.assembler),
                        opt_view(env.cxx),
                        opt_view(env.cc),
                    )
                    &&& p.standard@ == gen_string(d, "standard"@, profile@)
                    &&& views(p.cflags@) == unix_default_flags(profile@) + gen_profile_list(d, "cflags"@, profile@)
                    &&& views(p.ldflags@) == gen_profile_list(d, "ldflags"@, profile@)
                    &&& views(p.pkg_configs@) == gen_profile_list(d, "pkg_config"@, profile@)
                    &&& views(p.includes@) == test_includes_of(d, profile@)
                    &&& p.link_project_lib == links_project_lib(d, profile@)
                },
                Err(m) => strict_profile_language(d, profile@) == Err::<Seq<char>, Seq<char>>(m@),
            }
        }),
{
    let name = get_config_str(config, "package.name");
    let language = get_language_with_profile(config, profile)?;
    let compiler_cfg = get_string_with_profile(config, "compiler", profile);
    let standard = get_string_with_profile(config, "standard", profile);
    let package_type = get_config_str(config, "package.type");
    let build_kind = get_string_with_profile(config, "kind", profile);
    let tc_cc = get_config_opt(config, "toolchain.cc");
    let tc_cxx = get_config_opt(config, "toolchain.cxx");
    let tc_as = get_config_opt(config, "toolchain.as");
    let compiler = resolve_compiler(
        language.as_str(),
        compiler_cfg.as_str(),
        opt_as_str(&tc_cc),
        opt_as_str(&tc_cxx),
        opt_as_str(&tc_as),
        opt_as_str(&env.compiler),
        opt_as_str(&env.assembler),
        opt_as_str(&env.cxx),
        opt_as_str(&env.cc),
    );
    let mut cflags: Vec<String> = Vec::new();
    if let Some(f) = flags(profile) {
        push_strs(&mut cflags, &f);
    }
    assert(views(cflags@) =~= unix_default_flags(profile@));
    let extra = get_list_with_profile(config, "cflags", profile);
    push_strings(&mut cflags, &extra);
    let ldflags = get_list_with_profile(config, "ldflags", profile);
    let pkg_configs = get_list_with_profile(config, "pkg_config", profile);
    let includes = test_include_dirs(config, profile);
    let link_project_lib = str_eq(package_type.as_str(), "lib") || str_eq(build_kind.as_str(), "staticlib") || str_eq(
        build_kind.as_str(),
        "sharedlib",
    );
    Ok(TestPlan { name, compiler, standard, cflags, ldflags, pkg_configs, includes, link_project_lib })
}

/// The arguments that compile a test source: `-c`, the source, `-o`, the object, `-std=` with
/// the trimmed standard unless it is blank, the flags, and a `-I` for each header directory.
pub open spec fn test_compile_args_of(standard: Seq<char>, cflags: Seq<Seq<char>>, includes: Seq<Seq<char>>, source: Seq<char>, obj: Seq<char>) -> Seq<Seq<char>> {
    seq!["-c"@, source, "-o"@, obj] + (if trim_seq(standard).len() > 0 {
        seq!["-std="@ + trim_seq(standard)]
    } else {
        Seq::empty()
    }) + cflags + prefixed("-I"@, includes)
}

/// The arguments that compile a test source (see `test_compile_args_of`); the program is the
/// plan's compiler.
pub fn compile_test_source_args(plan: &TestPlan, source: &str, obj: &str) -> (r: Vec<String>)
    ensures
        views(r@) == test_compile_args_of(plan.standard@, views(plan.cflags@), views(plan.includes@), source@, obj@),
{
    let mut cmd: Vec<String> = Vec::new();
    cmd.push("-c".to_owned());
    cmd.push(source.to_owned());
    cmd.push("-o".to_owned());
    cmd.push(obj.to_owned());
    let std = trim(plan.standard.as_str());
    if std.unicode_len() > 0 {
        let mut a = "-std=".to_owned();
        a.append(std);
        cmd.push(a);
    }
    assert(views(cmd@) =~= seq!["-c"@, source@, "-o"@, obj@] + (if trim_seq(plan.standard@).len() > 0 {
        seq!["-std="@ + trim_seq(plan.standard@)]
    } else {
        Seq::<Seq<char>>::empty()
    }));
    push_strings(&mut cmd, &plan.cflags);
    push_prefixed(&mut cmd, "-I", &plan.includes);
    cmd
}

/// The arguments that link a test binary: the object, `-Ltarget/lib -l<name>` when the
/// project's library is linked, the linker flags, `-o` and the binary.
pub open spec fn test_link_args_of(ldflags: Seq<Seq<char>>, project_lib: Option<Seq<char>>, obj: Seq<char>, bin: Seq<char>) -> Seq<Seq<char>> {
    seq![obj] + (match project_lib {
        Some(n) => seq!["-Ltarget/lib"@, "-l"@ + n],
        None => Seq::empty(),
    }) + ldflags + seq!["-o"@, bin]
}

/// The arguments that link a test binary (see `test_link_args_of`); the program is the plan's
/// compiler.
pub fn link_test_binary_args(plan: &TestPlan, obj: &str, bin: &str) -> (r: Vec<String>)
    ensures
        views(r@) == test_link_args_of(
            views(plan.ldflags@),
            if plan.link_project_lib {
                Some(plan.name@)
            } else {
                None
            },
            obj@,
            bin@,
        ),
{
    let mut cmd: Vec<String> = Vec::new();
    cmd.push(obj.to_owned());
    if plan.link_project_lib {
        cmd.push("-Ltarget/lib".to_owned());
        let mut l = "-l".to_owned();
        l.append(plan.name.as_str());
        cmd.push(l);
    }
    let ghost c0 = views(cmd@);
    push_strings(&mut cmd, &plan.ldflags);
    let ghost c1 = views(cmd@);
    cmd.push("-o".to_owned());
    cmd.push(bin.to_owned());
    assert(views(cmd@) =~= c1 + seq!["-o"@, bin@]);
    cmd
}

/// The file name's stem (`Path::file_stem`): the name without its last extension (a name
/// whose only dot is its first character keeps it); none for an empty name, `.` or `..`.
pub open spec fn file_stem_of(path: Seq<char>) -> Option<Seq<char>> {
    let start = match last_index(path, '/') {
        Some(i) => i + 1,
        None => 0,
    };
    let name = path.skip(start);
    if name.len() == 0 || name == "."@ || name == ".."@ {
        None
    } else {
        Some(
            match last_index(name, '.') {
                Some(j) => if j > 0 {
                    name.take(j)
                } else {
                    name
                },
                None => name,
            },
        )
    }
}

/// Where a test source's object and binary go: `./tests/target/<stem>.o` and
/// `./tests/target/<stem><exe_suffix>` (the stem is `test` when the source has none).
pub open spec fn test_artifacts_of(source: Seq<char>, exe_suffix: Seq<char>) -> (Seq<char>, Seq<char>) {
    let stem = match file_stem_of(source) {
        Some(s) => s,
        None => "test"@,
    };
    (join_path("./tests/target"@, stem + ".o"@), join_path("./tests/target"@, stem + exe_suffix))
}

fn file_stem(path: &str) -> (r: Option<String>)
    ensures
        match r {
            Some(s) => file_stem_of(path@) == Some(s@),
            None => file_stem_of(path@) is None,
        },
{
    let start = match crate::utils::paths::rfind_char(path, '/') {
        Some(i) => i + 1,
        None => 0,
    };
    let n = path.unicode_len();
    let name = path.substring_char(start, n);
    assert(name@ =~= path@.skip(start as int));
    if name.unicode_len() == 0 || str_eq(name, ".") || str_eq(name, "..") {
        return None;
    }
    match crate::utils::paths::rfind_char(name, '.') {
        Some(j) => if j > 0 {
            Some(name.substring_char(0, j).to_owned())
        } else {
            Some(name.to_owned())
        },
        None => Some(name.to_owned()),
    }
}

/// Where a test source's object and binary go (see `test_artifacts_of`).
pub fn test_artifacts(source: &str, exe_suffix: &str) -> (r: (String, String))
    ensures
        (r.0@, r.1@) == test_artifacts_of(source@, exe_suffix@),
{
    let stem = match file_stem(source) {
        Some(s) => s,
        None => "test".to_owned(),
    };
    let mut o = stem.clone();
    o.append(".o");
    let mut b = stem;
    b.append(exe_suffix);
    (join("./tests/target", o.as_str()), join("./tests/target", b.as_str()))
}

/// The test declared on a line: `TEST_CASE(<name>),` once the line is trimmed.
pub open spec fn declared_name(line: Seq<char>) -> Option<Seq<char>> {
    let t = trim_seq(line);
    if starts(t, "TEST_CASE("@) && ends(t.skip(10), "),"@) {
        Some(t.skip(10).drop_last().drop_last())
    } else {
        None
    }
}

/// The tests declared on the lines, in order.
pub open spec fn declared_names(lines: Seq<Seq<char>>) -> Seq<Seq<char>>
    decreases lines.len(),
{
    if lines.len() == 0 {
        Seq::empty()
    } else {
        let init = declared_names(lines.drop_last());
        match declared_name(lines.last()) {
            Some(n) => init.push(n),
            None => init,
        }
    }
}

/// The tests a test source declares (see `declared_name`).
pub fn extract_test_names(content: &str) -> (r: Vec<String>)
    ensures
        views(r@) == declared_names(lines_seq(content@)),
{
    proof {
        reveal_strlit("TEST_CASE(");
        reveal_strlit("),");
    }
    let ls = lines(content);
    let mut names: Vec<String> = Vec::new();
    let mut i: usize = 0;
    while i < ls.len()
        invariant
            i <= ls@.len(),
            views(ls@) == lines_seq(content@),
            "TEST_CASE("@.len() == 10,
            "),"@ == seq![')', ','],
            views(names@) == declared_names(views(ls@).take(i as int)),
        decreases ls@.len() - i,
    {
        assert(views(ls@).take(i + 1).drop_last() =~= views(ls@).take(i as int));
        assert(views(ls@).take(i + 1).last() == ls@[i as int]@);
        let t = trim(ls[i].as_str());
        if let Some(rest) = strip_prefix(t, "TEST_CASE(") {
            assert(rest@ =~= t@.skip(10));
            if ends_with(rest, "),") {
                let n = rest.unicode_len();
                let name = rest.substring_char(0, n - 2);
                assert(name@ =~= rest@.drop_last().drop_last());
                let ghost prev = names@;
                names.push(name.to_owned());
                assert(views(names@) =~= views(prev).push(name@));
            }
        }
        i = i + 1;
    }
    assert(views(ls@).take(i as int) =~= views(ls@));
    names
}

/// A test's outcome.
#[derive(PartialEq, Eq, Structural, Clone, Copy)]
pub enum TestStatus {
    Pass,
    Skip,
    Fail,
}

/// The outcome a line of the tests' output reports: `[PASS] <name>`, `[SKIP] <name>`,
/// `[FAIL] <name>`, or `PASS`, `SKIP` or `FAIL`, a tab and the name, once the line is trimmed.
pub open spec fn line_result(line: Seq<char>) -> Option<(TestStatus, Seq<char>)> {
    let t = trim_seq(line);
    if starts(t, "[PASS] "@) {
        Some((TestStatus::Pass, t.subrange("[PASS] "@.len() as int, t.len() as int)))
    } else if starts(t, "[SKIP] "@) {
        Some((TestStatus::Skip, t.subrange("[SKIP] "@.len() as int, t.len() as int)))
    } else if starts(t, "[FAIL] "@) {
        Some((TestStatus::Fail, t.subrange("[FAIL] "@.len() as int, t.len() as int)))
    } else {
        match find_char(t, '\t') {
            Some(k) => {
                let status = t.subrange(0, k);
                let name = t.subrange(k + 1, t.len() as int);
                if status == "PASS"@ {
                    Some((TestStatus::Pass, name))
                } else if status == "SKIP"@ {
                    Some((TestStatus::Skip, name))
                } else if status == "FAIL"@ {
                    Some((TestStatus::Fail, name))
                } else {
                    None
                }
            },
            None => None,
        }
    }
}

/// The outcomes the lines report, in order.
pub open spec fn results_of(lines: Seq<Seq<char>>) -> Seq<(TestStatus, Seq<char>)>
    decreases lines.len(),
{
    if lines.len() == 0 {
        Seq::empty()
    } else {
        let init = results_of(lines.drop_last());
        match line_result(lines.last()) {
            Some(r) => init.push(r),
            None => init,
        }
    }
}

/// How many of the outcomes are `st`.
pub open spec fn count_of(rs: Seq<(TestStatus, Seq<char>)>, st: TestStatus) -> nat
    decreases rs.len(),
{
    if rs.len() == 0 {
        0
    } else {
        count_of(rs.drop_last(), st) + if rs.last().0 == st {
            1nat
        } else {
            0nat
        }
    }
}

/// The report of a test run: the outcomes in the order shown, the counts, the total, and the
/// exit code.
pub struct TestSummary {
    pub reports: Vec<(TestStatus, String)>,
    pub pass: usize,
    pub skip: usize,
    pub fail: usize,
    pub total: usize,
    pub code: i32,
}

/// The views of reported outcomes.
pub open spec fn report_views(v: Seq<(TestStatus, String)>) -> Seq<(TestStatus, Seq<char>)> {
    v.map_values(|p: (TestStatus, String)| (p.0, p.1@))
}

/// The outcomes shown: those the output reports; when it reports none, each declared test as
/// passed if every test binary succeeded, else one failure of the test suite.
pub open spec fn shown_results(stdout: Seq<char>, declared: Seq<Seq<char>>, ok: bool) -> Seq<(TestStatus, Seq<char>)> {
    let rs = results_of(lines_seq(stdout));
    if rs.len() > 0 {
        rs
    } else if ok {
        declared.map_values(|n: Seq<char>| (TestStatus::Pass, n))
    } else {
        seq![(TestStatus::Fail, "testsuite"@)]
    }
}

/// The report of a test run: the outcomes shown (see `shown_results`) and their counts; the
/// total is the declared tests' number when the output reports no outcome and tests were
/// declared; the exit code is 1 when a test failed or a test binary did not succeed.
pub open spec fn summary_ok(s: TestSummary, stdout: Seq<char>, declared: Seq<Seq<char>>, ok: bool) -> bool {
    let shown = shown_results(stdout, declared, ok);
    let parsed = results_of(lines_seq(stdout)).len() > 0;
    &&& report_views(s.reports@) == shown
    &&& s.pass == count_of(shown, TestStatus::Pass)
    &&& s.skip == count_of(shown, TestStatus::Skip)
    &&& s.fail == count_of(shown, TestStatus::Fail)
    &&& s.total == (if parsed || declared.len() == 0 {
        s.pass + s.skip + s.fail
    } else {
        declared.len() as int
    })
    &&& s.code == (if s.fail > 0 || !ok {
        1i32
    } else {
        0i32
    })
}

/// The counts of the outcomes add up to their number.
pub proof fn lemma_counts_add_up(rs: Seq<(TestStatus, Seq<char>)>)
    ensures
        count_of(rs, TestStatus::Pass) + count_of(rs, TestStatus::Skip) + count_of(rs, TestStatus::Fail) == rs.len(),
    decreases rs.len(),
{
    if rs.len() > 0 {
        lemma_counts_add_up(rs.drop_last());
    }
}

proof fn lemma_all_pass(ns: Seq<Seq<char>>)
    ensures
        count_of(ns.map_values(|n: Seq<char>| (TestStatus::Pass, n)), TestStatus::Pass) == ns.len(),
        count_of(ns.map_values(|n: Seq<char>| (TestStatus::Pass, n)), TestStatus::Skip) == 0,
        count_of(ns.map_values(|n: Seq<char>| (TestStatus::Pass, n)), TestStatus::Fail) == 0,
    decreases ns.len(),
{
    if ns.len() > 0 {
        assert(ns.map_values(|n: Seq<char>| (TestStatus::Pass, n)).drop_last() =~= ns.drop_last().map_values(
            |n: Seq<char>| (TestStatus::Pass, n),
        ));
        lemma_all_pass(ns.drop_last());
    }
}

fn line_outcome(line: &str) -> (r: Option<(TestStatus, String)>)
    ensures
        match r {
            Some(p) => line_result(line@) == Some((p.0, p.1@)),
            None => line_result(line@) is None,
        },
{
    let t = trim(line);
    if let Some(n) = strip_prefix(t, "[PASS] ") {
        return Some((TestStatus::Pass, n.to_owned()));
    }
    if let Some(n) = strip_prefix(t, "[SKIP] ") {
        return Some((TestStatus::Skip, n.to_owned()));
    }
    if let Some(n) = strip_prefix(t, "[FAIL] ") {
        return Some((TestStatus::Fail, n.to_owned()));
    }
    match split_once_char(t, '\t') {
        Some((status, name)) => {
            if str_eq(status.as_str(), "PASS") {
                Some((TestStatus::Pass, name))
            } else if str_eq(status.as_str(), "SKIP") {
                Some((TestStatus::Skip, name))
            } else if str_eq(status.as_str(), "FAIL") {
                Some((TestStatus::Fail, name))
            } else {
                None
            }
        },
        None => None,
    }
}

/// The report of a test run from the binaries' output, the tests the sources declare, and
/// whether every test binary succeeded (see `summary_ok`).
pub fn summarize_testsuite(stdout: &str, declared: &Vec<String>, suite_success: bool) -> (r: TestSummary)
    ensures
        summary_ok(r, stdout@, views(declared@), suite_success),
{
    let ls = lines(stdout);
    let mut reports: Vec<(TestStatus, String)> = Vec::new();
    let mut pass: usize = 0;
    let mut skip: usize = 0;
    let mut fail: usize = 0;
    let mut i: usize = 0;
    while i < ls.len()
        invariant
            i <= ls@.len(),
            views(ls@) == lines_seq(stdout@),
            report_views(reports@) == results_of(views(ls@).take(i as int)),
            pass == count_of(report_views(reports@), TestStatus::Pass),
            skip == count_of(report_views(reports@), TestStatus::Skip),
            fail == count_of(report_views(reports@), TestStatus::Fail),
            reports@.len() <= i,
        decreases ls@.len() - i,
    {
        assert(views(ls@).take(i + 1).drop_last() =~= views(ls@).take(i as int));
        assert(views(ls@).take(i + 1).last() == ls@[i as int]@);
        proof { lemma_counts_add_up(report_views(reports@)); }
        if let Some((st, name)) = line_outcome(ls[i].as_str()) {
            let ghost prev = reports@;
            reports.push((st, name));
            assert(report_views(reports@) =~= report_views(prev).push((st, reports@.last().1@)));
            assert(report_views(reports@).drop_last() =~= report_views(prev));
            match st {
                TestStatus::Pass => pass = pass + 1,
                TestStatus::Skip => skip = skip + 1,
                TestStatus::Fail => fail = fail + 1,
            }
        }
        i = i + 1;
    }
    assert(views(ls@).take(i as int) =~= views(ls@));
    let parsed = reports.len() > 0;
    if !parsed {
        if suite_success {
            let mut k: usize = 0;
            while k < declared.len()
                invariant
                    k <= declared@.len(),
                    report_views(reports@) == views(declared@).map_values(|n: Seq<char>| (TestStatus::Pass, n)).take(k as int),
                decreases declared@.len() - k,
            {
                let ghost prev = reports@;
                reports.push((TestStatus::Pass, declared[k].clone()));
                assert(report_views(reports@) =~= report_views(prev).push((TestStatus::Pass, declared@[k as int]@)));
                assert(views(declared@).map_values(|n: Seq<char>| (TestStatus::Pass, n)).take(k + 1) =~= views(declared@).map_values(
                    |n: Seq<char>| (TestStatus::Pass, n),
                ).take(k as int).push((TestStatus::Pass, declared@[k as int]@)));
                k = k + 1;
            }
            assert(views(declared@).map_values(|n: Seq<char>| (TestStatus::Pass, n)).take(k as int) =~= views(declared@).map_values(
                |n: Seq<char>| (TestStatus::Pass, n),
            ));
            proof { lemma_all_pass(views(declared@)); }
            pass = declared.len();
        } else {
            reports.push((TestStatus::Fail, "testsuite".to_owned()));
            assert(report_views(reports@) =~= seq![(TestStatus::Fail, "testsuite"@)]);
            assert(report_views(reports@).drop_last() =~= Seq::<(TestStatus, Seq<char>)>::empty());
            fail = 1;
        }
    }
    proof { lemma_counts_add_up(report_views(reports@)); }
    let total = if parsed || declared.len() == 0 {
        pass + skip + fail
    } else {
        declared.len()
    };
    let code: i32 = if fail > 0 || !suite_success {
        1
    } else {
        0
    };
    TestSummary { reports, pass, skip, fail, total, code }
}

/// The C sources among paths, in their order: those whose extension is `c`.
pub open spec fn c_sources(paths: Seq<Seq<char>>) -> Seq<Seq<char>>
    decreases paths.len(),
{
    if paths.len() == 0 {
        Seq::empty()
    } else if file_ext(paths.last()) == "c"@ {
        c_sources(paths.drop_last()).push(paths.last())
    } else {
        c_sources(paths.drop_last())
    }
}

/// The test sources among the entries of `tests/`: the C sources, in increasing order.
pub open spec fn test_sources_of(entries: Seq<Seq<char>>) -> Seq<Seq<char>> {
    c_sources(entries).sort_by(key_leq())
}

/// The test sources among the entries of `tests/` (see `test_sources_of`).
pub fn select_test_sources(entries: &Vec<String>) -> (r: Vec<String>)
    ensures
        views(r@) == test_sources_of(views(entries@)),
{
    proof { reveal_strlit("c"); }
    let mut kept: Vec<String> = Vec::new();
    let mut i: usize = 0;
    while i < entries.len()
        invariant
            i <= entries@.len(),
            views(kept@) == c_sources(views(entries@).take(i as int)),
        decreases entries@.len() - i,
    {
        assert(views(entries@).take(i + 1).drop_last() =~= views(entries@).take(i as int));
        assert(views(entries@).take(i + 1).last() == entries@[i as int]@);
        let e = extension_of(entries[i].as_str());
        if str_eq(e.as_str(), "c") {
            let ghost prev = kept@;
            kept.push(entries[i].clone());
            assert(views(kept@) =~= views(prev).push(entries@[i as int]@));
        }
        i = i + 1;
    }
    assert(views(entries@).take(i as int) =~= views(entries@));
    sort_strings(kept)
}

/// The step of a test source that `dcr test` is at: compiling it, linking its binary, or
/// running that binary.
#[derive(PartialEq, Eq, Structural, Clone, Copy)]
pub enum TestPhase {
    Compile,
    Link,
    Run,
}

/// Where a run of the tests stands: the index of the test source, its step, and whether every
/// test binary run so far succeeded.
#[derive(PartialEq, Eq, Structural, Clone, Copy)]
pub struct TestState {
    pub index: usize,
    pub phase: TestPhase,
    pub suite_success: bool,
}

/// What the last action came to: nothing was done yet, or it succeeded or failed.
#[derive(PartialEq, Eq, Structural, Clone, Copy)]
pub enum TestOutcome {
    Start,
    Done(bool),
}

/// What `dcr test` does next: compile a source, link a binary, run a binary (each with the
/// plan's compiler and these arguments), print the report, or stop with an error.
pub enum TestAction {
    Compile { source: String, args: Vec<String> },
    Link { bin: String, args: Vec<String> },
    Run { bin: String },
    Report { suite_success: bool },
    Stop(String),
}

/// An action as plain values.
pub enum TestActionView {
    Compile(Seq<char>, Seq<Seq<char>>),
    Link(Seq<char>, Seq<Seq<char>>),
    Run(Seq<char>),
    Report(bool),
    Stop(Seq<char>),
}

/// The view of an action.
pub open spec fn action_view(a: TestAction) -> TestActionView {
    match a {
        TestAction::Compile { source, args } => TestActionView::Compile(source@, views(args@)),
        TestAction::Link { bin, args } => TestActionView::Link(bin@, views(args@)),
        TestAction::Run { bin } => TestActionView::Run(bin@),
        TestAction::Report { suite_success } => TestActionView::Report(suite_success),
        TestAction::Stop(m) => TestActionView::Stop(m@),
    }
}

/// The message when there is no test source.
pub open spec fn no_tests_msg() -> Seq<char> {
    "tests/test.c not found; run 'dcr test --init' first"@
}

/// Compiling `source` to its object.
pub open spec fn compile_view(plan: TestPlan, source: Seq<char>, suffix: Seq<char>) -> TestActionView {
    TestActionView::Compile(
        source,
        test_compile_args_of(plan.standard@, views(plan.cflags@), views(plan.includes@), source, test_artifacts_of(source, suffix).0),
    )
}

/// Linking the binary of `source` from its object.
pub open spec fn link_view(plan: TestPlan, source: Seq<char>, suffix: Seq<char>) -> TestActionView {
    let (obj, bin) = test_artifacts_of(source, suffix);
    TestActionView::Link(
        bin,
        test_link_args_of(
            views(plan.ldflags@),
            if plan.link_project_lib {
                Some(plan.name@)
            } else {
                None
            },
            obj,
            bin,
        ),
    )
}

/// The next state and action of a test run: the sources are compiled, linked and run one
/// after the other; a failed compile or link stops the run with its message; a failed binary
/// marks the suite failed and the run goes on; after the last binary the report is printed;
/// with no source at all the run stops at once.
pub open spec fn test_step_of(plan: TestPlan, sources: Seq<Seq<char>>, suffix: Seq<char>, st: TestState, outcome: TestOutcome) -> (TestState, TestActionView) {
    match outcome {
        TestOutcome::Start => if sources.len() == 0 {
            (st, TestActionView::Stop(no_tests_msg()))
        } else {
            (TestState { index: 0, phase: TestPhase::Compile, suite_success: true }, compile_view(plan, sources[0], suffix))
        },
        TestOutcome::Done(ok) => {
            let src = sources[st.index as int];
            let bin = test_artifacts_of(src, suffix).1;
            match st.phase {
                TestPhase::Compile => if ok {
                    (TestState { index: st.index, phase: TestPhase::Link, suite_success: st.suite_success }, link_view(plan, src, suffix))
                } else {
                    (st, TestActionView::Stop("Compilation of "@ + src + " failed"@))
                },
                TestPhase::Link => if ok {
                    (TestState { index: st.index, phase: TestPhase::Run, suite_success: st.suite_success }, TestActionView::Run(bin))
                } else {
                    (st, TestActionView::Stop("Linking of "@ + bin + " failed"@))
                },
                TestPhase::Run => {
                    let s = st.suite_success && ok;
                    if st.index + 1 < sources.len() {
                        (
                            TestState { index: (st.index + 1) as usize, phase: TestPhase::Compile, suite_success: s },
                            compile_view(plan, sources[st.index + 1], suffix),
                        )
                    } else {
                        (TestState { index: st.index, phase: TestPhase::Run, suite_success: s }, TestActionView::Report(s))
                    }
                },
            }
        },
    }
}

fn compile_action(plan: &TestPlan, source: &str, exe_suffix: &str) -> (r: TestAction)
    ensures
        action_view(r) == compile_view(*plan, source@, exe_suffix@),
{
    let (obj, _bin) = test_artifacts(source, exe_suffix);
    let args = compile_test_source_args(plan, source, obj.as_str());
    TestAction::Compile { source: source.to_owned(), args }
}

/// The next state and action of a test run (see `test_step_of`), from the plan, the test
/// sources, the executable suffix of the platform, the state, and what the last action came to.
pub fn test_step(plan: &TestPlan, sources: &Vec<String>, exe_suffix: &str, st: TestState, outcome: TestOutcome) -> (r: (TestState, TestAction))
    requires
        outcome is Done ==> st.index < sources@.len(),
    ensures
        (r.0, action_view(r.1)) == test_step_of(*plan, views(sources@), exe_suffix@, st, outcome),
        r.0.index < sources@.len() || r.1 is Stop,
{
    match outcome {
        TestOutcome::Start => {
            if sources.len() == 0 {
                return (st, TestAction::Stop("tests/test.c not found; run 'dcr test --init' first".to_owned()));
            }
            let a = compile_action(plan, sources[0].as_str(), exe_suffix);
            (TestState { index: 0, phase: TestPhase::Compile, suite_success: true }, a)
        },
        TestOutcome::Done(ok) => {
            let src = sources[st.index].as_str();
            let (obj, bin) = test_artifacts(src, exe_suffix);
            match st.phase {
                TestPhase::Compile => {
                    if ok {
                        let args = link_test_binary_args(plan, obj.as_str(), bin.as_str());
                        (TestState { index: st.index, phase: TestPhase::Link, suite_success: st.suite_success }, TestAction::Link { bin, args })
                    } else {
                        let mut m = "Compilation of ".to_owned();
                        m.append(src);
                        m.append(" failed");
                        (st, TestAction::Stop(m))
                    }
                },
                TestPhase::Link => {
                    if ok {
                        (TestState { index: st.index, phase: TestPhase::Run, suite_success: st.suite_success }, TestAction::Run { bin })
                    } else {
                        let mut m = "Linking of ".to_owned();
                        m.append(bin.as_str());
                        m.append(" failed");
                        (st, TestAction::Stop(m))
                    }
                },
                TestPhase::Run => {
                    let s = st.suite_success && ok;
                    if st.index < sources.len() - 1 {
                        let a = compile_action(plan, sources[st.index + 1].as_str(), exe_suffix);
                        (TestState { index: st.index + 1, phase: TestPhase::Compile, suite_success: s }, a)
                    } else {
                        (TestState { index: st.index, phase: TestPhase::Run, suite_success: s }, TestAction::Report { suite_success: s })
                    }
                },
            }
        },
    }
}

/// Once a test binary has failed, the suite stays failed: no later step of the run marks it
/// successful again, and the report it ends with says so.
pub proof fn law_failure_sticks(plan: TestPlan, sources: Seq<Seq<char>>, suffix: Seq<char>, st: TestState, ok: bool)
    requires
        st.index < sources.len(),
        !st.suite_success,
    ensures
        !test_step_of(plan, sources, suffix, st, TestOutcome::Done(ok)).0.suite_success,
        test_step_of(plan, sources, suffix, st, TestOutcome::Done(ok)).1 != TestActionView::Report(true),
{
}

/// A failed binary marks the suite failed.
pub proof fn law_failed_binary_fails_suite(plan: TestPlan, sources: Seq<Seq<char>>, suffix: Seq<char>, st: TestState)
    requires
        st.index < sources.len(),
        st.phase == TestPhase::Run,
    ensures
        !test_step_of(plan, sources, suffix, st, TestOutcome::Done(false)).0.suite_success,
{
}

} // verus!
