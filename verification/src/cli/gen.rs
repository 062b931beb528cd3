//! `dcr gen`: project metadata as JSON, `compile_commands.json`, and the files that set up
//! VS Code and CLion for a project.
use vstd::prelude::*;
use crate::project::builder::unix_cc::{asm_lang, asm_lang_flag, prefixed, push_prefixed, push_strings, push_strs, unix_default_flags};
use crate::profile::{flags, profile_flags, str_views};
use crate::utils::paths::{is_abs, is_absolute, join, join_path, set_extension, strip_base, strip_base_path, with_ext};
use crate::utils::strings::{
    alphanumeric, ends, has_sub, occurs_at, hex_char, hex_digit, is_alphanumeric, lemma_join_adjacent, lemma_join_first, lemma_join_last, is_control, is_control_char, join_seq, lowercase_of,
    push_char, replace, replace_seq, starts, starts_with, str_eq, strip_prefix, to_lowercase,
    trim_start_matches, trim_start_matches_seq, views,
};

verus! {

/// Everything `dcr gen` writes about one project.
pub struct ProjectInfo {
    pub name: String,
    pub version: String,
    pub root: String,
    pub profile: String,
    pub language: String,
    pub standard: String,
    pub compiler: String,
    pub kind: String,
    pub sources: Vec<String>,
    pub include_dirs: Vec<String>,
    pub lib_dirs: Vec<String>,
    pub libs: Vec<String>,
    pub cflags: Vec<String>,
    pub ldflags: Vec<String>,
}

/// A character as it stands inside a JSON string.
pub open spec fn json_char(c: char) -> Seq<char> {
    if c == '\\' {
        "\\\\"@
    } else if c == '"' {
        "\\\""@
    } else if c == '\n' {
        "\\n"@
    } else if c == '\r' {
        "\\r"@
    } else if c == '\t' {
        "\\t"@
    } else if c == '\x08' {
        "\\b"@
    } else if c == '\x0c' {
        "\\f"@
    } else if is_control_char(c) {
        "\\u00"@ + seq![hex_digit(((c as u32) / 16) as u8), hex_digit(((c as u32) % 16) as u8)]
    } else {
        seq![c]
    }
}

/// The characters of a string as they stand inside a JSON string.
pub open spec fn json_chars(s: Seq<char>) -> Seq<char>
    decreases s.len(),
{
    if s.len() == 0 {
        Seq::empty()
    } else {
        json_chars(s.drop_last()) + json_char(s.last())
    }
}

/// A string as a JSON string literal.
pub open spec fn json_quoted(s: Seq<char>) -> Seq<char> {
    "\""@ + json_chars(s) + "\""@
}

fn push_json_char(out: &mut String, c: char)
    ensures
        final(out)@ == old(out)@ + json_char(c),
{
    if c == '\\' {
        out.append("\\\\");
    } else if c == '"' {
        out.append("\\\"");
    } else if c == '\n' {
        out.append("\\n");
    } else if c == '\r' {
        out.append("\\r");
    } else if c == '\t' {
        out.append("\\t");
    } else if c == '\x08' {
        out.append("\\b");
    } else if c == '\x0c' {
        out.append("\\f");
    } else if is_control(c) {
        let u = c as u32;
        out.append("\\u00");
        push_char(out, hex_char((u / 16) as u8));
        push_char(out, hex_char((u % 16) as u8));
        assert(final(out)@ =~= old(out)@ + json_char(c));
    } else {
        push_char(out, c);
        assert(final(out)@ =~= old(out)@ + json_char(c));
    }
}

/// A string as a JSON string literal: quotes, backslashes and control characters escaped.
pub fn json_str(s: &str) -> (r: String)
    ensures
        r@ == json_quoted(s@),
{
    let v = crate::utils::strings::chars_of(s);
    let mut out = String::new();
    out.append("\"");
    let ghost start = out@;
    let mut i: usize = 0;
    while i < v.len()
        invariant
            v@ == s@,
            i <= v@.len(),
            out@ == start + json_chars(s@.take(i as int)),
        decreases v@.len() - i,
    {
        assert(s@.take(i + 1).drop_last() =~= s@.take(i as int));
        push_json_char(&mut out, v[i]);
        i = i + 1;
        assert(out@ =~= start + json_chars(s@.take(i as int)));
    }
    assert(s@.take(i as int) =~= s@);
    out.append("\"");
    out
}

/// Strings as a JSON array of string literals.
pub open spec fn json_array_text(items: Seq<Seq<char>>) -> Seq<char> {
    "["@ + join_seq(items.map_values(|s: Seq<char>| json_quoted(s)), ", "@) + "]"@
}

/// Strings as a JSON array (see `json_array_text`).
pub fn json_str_array(items: &Vec<String>) -> (r: String)
    ensures
        r@ == json_array_text(views(items@)),
{
    let mut parts: Vec<String> = Vec::new();
    let mut i: usize = 0;
    while i < items.len()
        invariant
            i <= items@.len(),
            views(parts@) == views(items@).map_values(|s: Seq<char>| json_quoted(s)).take(i as int),
        decreases items@.len() - i,
    {
        let q = json_str(items[i].as_str());
        let ghost prev = parts@;
        parts.push(q);
        assert(views(parts@) =~= views(prev).push(q@));
        assert(views(items@).map_values(|s: Seq<char>| json_quoted(s)).take(i + 1) =~= views(items@).map_values(
            |s: Seq<char>| json_quoted(s),
        ).take(i as int).push(json_quoted(items@[i as int]@)));
        i = i + 1;
    }
    assert(views(items@).map_values(|s: Seq<char>| json_quoted(s)).take(i as int) =~= views(items@).map_values(
        |s: Seq<char>| json_quoted(s),
    ));
    let mut r = "[".to_owned();
    let j = crate::utils::strings::join(&parts, ", ");
    r.append(j.as_str());
    r.append("]");
    r
}

/// A string escaped for XML: `&`, `<`, `>`, `"` and `'` as entities.
pub open spec fn xml_escaped(s: Seq<char>) -> Seq<char> {
    replace_seq(
        replace_seq(
            replace_seq(replace_seq(replace_seq(s, "&"@, "&amp;"@), "<"@, "&lt;"@), ">"@, "&gt;"@),
            "\""@,
            "&quot;"@,
        ),
        "'"@,
        "&apos;"@,
    )
}

/// A string escaped for XML (see `xml_escaped`).
pub fn xml_escape(s: &str) -> (r: String)
    ensures
        r@ == xml_escaped(s@),
{
    proof {
        reveal_strlit("&");
        reveal_strlit("<");
        reveal_strlit(">");
        reveal_strlit("\"");
        reveal_strlit("'");
    }
    let a = replace(s, "&", "&amp;");
    let b = replace(a.as_str(), "<", "&lt;");
    let c = replace(b.as_str(), ">", "&gt;");
    let d = replace(c.as_str(), "\"", "&quot;");
    replace(d.as_str(), "'", "&apos;")
}

/// A character kept in a file name: alphanumeric, `-` or `_`; anything else becomes `_`.
pub open spec fn file_char(c: char) -> char {
    if alphanumeric(c) || c == '-' || c == '_' {
        c
    } else {
        '_'
    }
}

/// A name made safe for a file name (see `file_char`).
pub fn sanitize_filename(s: &str) -> (r: String)
    ensures
        r@ == s@.map_values(|c: char| file_char(c)),
{
    let v = crate::utils::strings::chars_of(s);
    let mut out = String::new();
    let mut i: usize = 0;
    while i < v.len()
        invariant
            v@ == s@,
            i <= v@.len(),
            out@ == s@.map_values(|c: char| file_char(c)).take(i as int),
        decreases v@.len() - i,
    {
        let c = v[i];
        let k = if is_alphanumeric(c) || c == '-' || c == '_' {
            c
        } else {
            '_'
        };
        push_char(&mut out, k);
        assert(out@ =~= s@.map_values(|c: char| file_char(c)).take(i + 1));
        i = i + 1;
    }
    assert(s@.map_values(|c: char| file_char(c)).take(i as int) =~= s@.map_values(|c: char| file_char(c)));
    out
}

/// What remains of a source path for the object file's place: the leading `./` prefixes are
/// dropped, then a leading `src/` (or `src\`).
pub open spec fn src_rel(p: Seq<char>) -> Seq<char> {
    let trimmed = trim_start_matches_seq(p, "./"@);
    if starts(trimmed, "src/"@) || starts(trimmed, "src\\"@) {
        trimmed.skip(4)
    } else {
        trimmed
    }
}

/// What remains of a source path for the object file's place (see `src_rel`).
pub fn strip_src_prefix(p: &str) -> (r: String)
    ensures
        r@ == src_rel(p@),
{
    proof {
        reveal_strlit("src/");
        reveal_strlit("src\\");
    }
    let trimmed = trim_start_matches(p, "./");
    match strip_prefix(trimmed, "src/") {
        Some(x) => x.to_owned(),
        None => match strip_prefix(trimmed, "src\\") {
            Some(x) => x.to_owned(),
            None => trimmed.to_owned(),
        },
    }
}

/// A source's path relative to the project's root, when it lies under the root; otherwise the
/// path as it is.
pub open spec fn rel_to_root(root: Seq<char>, source: Seq<char>) -> Seq<char> {
    match strip_base(source, root) {
        Some(r) => r,
        None => source,
    }
}

/// The object file `dcr gen` names for a source: under `<root>/target/<profile>/obj`, the
/// source's path relative to the root and to `src/` (see `rel_to_root`, `src_rel`) with the
/// extension `o`.
pub open spec fn gen_obj_path(root: Seq<char>, profile: Seq<char>, source: Seq<char>) -> Seq<char> {
    with_ext(
        join_path(join_path(join_path(join_path(root, "target"@), profile), "obj"@), src_rel(rel_to_root(root, source))),
        "o"@,
    )
}

/// A compiler flag as `compile_commands.json` states it: a relative `-I` directory is made
/// absolute against the project's root.
pub open spec fn include_flag(root: Seq<char>, flag: Seq<char>) -> Seq<char> {
    if starts(flag, "-I"@) {
        "-I"@ + join_path(root, flag.skip(2))
    } else {
        flag
    }
}

/// The compiler to name: the project's, or `cc` when it has none.
pub open spec fn compiler_or_cc(c: Seq<char>) -> Seq<char> {
    if c.len() == 0 {
        "cc"@
    } else {
        c
    }
}

/// The command line that compiles `source` of a project, as `compile_commands.json` states
/// it: compiler, `-c`, the source, `-o` and its object, `-fPIC` for a shared library, the
/// assembler language, `-std=` (not for assembly), the profile's flags, the project's flags
/// and a `-I` for each header directory.
pub open spec fn compile_args_of(info: ProjectInfo, source: Seq<char>, profile: Seq<char>) -> Seq<Seq<char>> {
    seq![compiler_or_cc(info.compiler@), "-c"@, source, "-o"@, gen_obj_path(info.root@, profile, source)]
        + (if info.kind@ == "sharedlib"@ {
        seq!["-fPIC"@]
    } else {
        Seq::empty()
    }) + (match asm_lang(source) {
        Some(f) => seq!["-x"@, f],
        None => Seq::empty(),
    }) + (if info.standard@.len() > 0 && lowercase_of(info.language@) != "asm"@ {
        seq!["-std="@ + info.standard@]
    } else {
        Seq::empty()
    }) + unix_default_flags(profile) + views(info.cflags@).map_values(|f: Seq<char>| include_flag(info.root@, f))
        + prefixed("-I"@, views(info.include_dirs@))
}

fn push_include_flags(out: &mut Vec<String>, root: &str, items: &Vec<String>)
    ensures
        views(final(out)@) == views(old(out)@) + views(items@).map_values(|f: Seq<char>| include_flag(root@, f)),
{
    proof { reveal_strlit("-I"); }
    let ghost start = views(out@);
    let mut i: usize = 0;
    while i < items.len()
        invariant
            i <= items@.len(),
            views(out@) == start + views(items@).map_values(|f: Seq<char>| include_flag(root@, f)).take(i as int),
        decreases items@.len() - i,
    {
        proof { reveal_strlit("-I"); }
        let flag = items[i].as_str();
        let a = match strip_prefix(flag, "-I") {
            Some(rel) => {
                let mut a = "-I".to_owned();
                let j = join(root, rel);
                a.append(j.as_str());
                assert(rel@ =~= flag@.skip(2));
                assert(a@ =~= include_flag(root@, flag@));
                a
            },
            None => flag.to_owned(),
        };
        assert(a@ == include_flag(root@, items@[i as int]@));
        let ghost prev = out@;
        out.push(a);
        assert(views(out@) =~= views(prev).push(include_flag(root@, items@[i as int]@)));
        assert(views(items@).map_values(|f: Seq<char>| include_flag(root@, f)).take(i + 1) =~= views(items@).map_values(
            |f: Seq<char>| include_flag(root@, f),
        ).take(i as int).push(include_flag(root@, items@[i as int]@)));
        i = i + 1;
    }
    assert(views(items@).map_values(|f: Seq<char>| include_flag(root@, f)).take(i as int) =~= views(items@).map_values(
        |f: Seq<char>| include_flag(root@, f),
    ));
}

fn gen_object_path(root: &str, profile: &str, source: &str) -> (r: String)
    ensures
        r@ == gen_obj_path(root@, profile@, source@),
{
    let t = join(root, "target");
    let p = join(t.as_str(), profile);
    let o = join(p.as_str(), "obj");
    let in_root = match strip_base_path(source, root) {
        Some(r) => r,
        None => source.to_owned(),
    };
    let rel = strip_src_prefix(in_root.as_str());
    let f = join(o.as_str(), rel.as_str());
    set_extension(f.as_str(), "o")
}

/// The command line that compiles `source` (see `compile_args_of`).
pub fn build_compile_command(info: &ProjectInfo, source: &str, profile: &str) -> (r: Vec<String>)
    ensures
        views(r@) == compile_args_of(*info, source@, profile@),
{
    let mut cmd: Vec<String> = Vec::new();
    let compiler = if info.compiler.unicode_len() == 0 {
        "cc".to_owned()
    } else {
        info.compiler.clone()
    };
    cmd.push(compiler);
    cmd.push("-c".to_owned());
    cmd.push(source.to_owned());
    cmd.push("-o".to_owned());
    cmd.push(gen_object_path(info.root.as_str(), profile, source));
    let ghost c0 = views(cmd@);
    assert(c0 =~= seq![compiler_or_cc(info.compiler@), "-c"@, source@, "-o"@, gen_obj_path(info.root@, profile@, source@)]);
    if str_eq(info.kind.as_str(), "sharedlib") {
        cmd.push("-fPIC".to_owned());
    }
    let ghost c1 = views(cmd@);
    assert(c1 =~= c0 + (if info.kind@ == "sharedlib"@ {
        seq!["-fPIC"@]
    } else {
        Seq::<Seq<char>>::empty()
    }));
    if let Some(flag) = asm_lang_flag(source) {
        cmd.push("-x".to_owned());
        cmd.push(flag.to_owned());
    }
    let ghost c2 = views(cmd@);
    assert(c2 =~= c1 + (match asm_lang(source@) {
        Some(f) => seq!["-x"@, f],
        None => Seq::<Seq<char>>::empty(),
    }));
    if info.standard.unicode_len() > 0 && !str_eq(to_lowercase(info.language.as_str()).as_str(), "asm") {
        let mut a = "-std=".to_owned();
        a.append(info.standard.as_str());
        cmd.push(a);
    }
    let ghost c3 = views(cmd@);
    assert(c3 =~= c2 + (if info.standard@.len() > 0 && lowercase_of(info.language@) != "asm"@ {
        seq!["-std="@ + info.standard@]
    } else {
        Seq::<Seq<char>>::empty()
    }));
    if let Some(f) = flags(profile) {
        push_strs(&mut cmd, &f);
    }
    assert(views(cmd@) =~= c3 + unix_default_flags(profile@));
    push_include_flags(&mut cmd, info.root.as_str(), &info.cflags);
    push_prefixed(&mut cmd, "-I", &info.include_dirs);
    cmd
}

/// One entry of `compile_commands.json`.
pub open spec fn cc_entry(info: ProjectInfo, source: Seq<char>, profile: Seq<char>) -> Seq<char> {
    "  {\n"@ + "    \"directory\": "@ + json_quoted(info.root@) + ",\n"@ + "    \"file\": "@ + json_quoted(source) + ",\n"@
        + "    \"arguments\": "@ + json_array_text(compile_args_of(info, source, profile)) + "\n"@ + "  }"@
}

/// The entries of `compile_commands.json`: each project's sources in order.
pub open spec fn cc_entries(projects: Seq<ProjectInfo>, profile: Seq<char>) -> Seq<Seq<char>>
    decreases projects.len(),
{
    if projects.len() == 0 {
        Seq::empty()
    } else {
        let info = projects.last();
        cc_entries(projects.drop_last(), profile) + views(info.sources@).map_values(|s: Seq<char>| cc_entry(info, s, profile))
    }
}

/// The text of `compile_commands.json`.
pub open spec fn compile_commands_text(projects: Seq<ProjectInfo>, profile: Seq<char>) -> Seq<char> {
    "[\n"@ + join_seq(cc_entries(projects, profile), ",\n"@) + "\n]\n"@
}

/// The number of (project, source) pairs.
pub open spec fn source_total(projects: Seq<ProjectInfo>) -> nat
    decreases projects.len(),
{
    if projects.len() == 0 {
        0
    } else {
        source_total(projects.drop_last()) + projects.last().sources@.len()
    }
}

proof fn lemma_cc_entries_in_order(projects: Seq<ProjectInfo>, profile: Seq<char>)
    ensures
        cc_entries(projects, profile).len() == source_total(projects),
        forall|j: int, i: int|
            0 <= j < projects.len() && 0 <= i < projects[j].sources@.len() ==> #[trigger] cc_entries(projects, profile)[source_total(
                projects.take(j),
            ) + i] == cc_entry(projects[j], #[trigger] projects[j].sources@[i]@, profile),
    decreases projects.len(),
{
    if projects.len() > 0 {
        let dl = projects.drop_last();
        lemma_cc_entries_in_order(dl, profile);
        let last = projects.last();
        let m = views(last.sources@).map_values(|s: Seq<char>| cc_entry(last, s, profile));
        assert forall|j: int, i: int|
            0 <= j < projects.len() && 0 <= i < projects[j].sources@.len() implies #[trigger] cc_entries(projects, profile)[source_total(
                projects.take(j),
            ) + i] == cc_entry(projects[j], #[trigger] projects[j].sources@[i]@, profile) by {
            if j < projects.len() - 1 {
                assert(projects.take(j) =~= dl.take(j));
                assert(dl[j] == projects[j]);
                lemma_source_total_take(dl, j);
                assert(source_total(dl.take(j)) + i < source_total(dl.take(j + 1)));
                lemma_source_total_mono(dl, j + 1);
            } else {
                assert(projects.take(j) =~= dl);
                assert(m[i] == cc_entry(last, last.sources@[i]@, profile));
            }
        }
    }
}

proof fn lemma_source_total_take(ps: Seq<ProjectInfo>, j: int)
    requires
        0 <= j < ps.len(),
    ensures
        source_total(ps.take(j + 1)) == source_total(ps.take(j)) + ps[j].sources@.len(),
{
    assert(ps.take(j + 1).drop_last() =~= ps.take(j));
}

proof fn lemma_source_total_mono(ps: Seq<ProjectInfo>, j: int)
    requires
        0 <= j <= ps.len(),
    ensures
        source_total(ps.take(j)) <= source_total(ps),
    decreases ps.len() - j,
{
    if j < ps.len() {
        lemma_source_total_take(ps, j);
        lemma_source_total_mono(ps, j + 1);
    } else {
        assert(ps.take(j) =~= ps);
    }
}

/// Each entry of `compile_commands.json` is one JSON object naming the project's root as its
/// directory, the source as its file, and the source's compile command line as its arguments.
pub proof fn law_compile_commands_entry(info: ProjectInfo, source: Seq<char>, profile: Seq<char>)
    ensures
        starts(cc_entry(info, source, profile), "  {\n"@),
        ends(cc_entry(info, source, profile), "  }"@),
        has_sub(cc_entry(info, source, profile), "    \"directory\": "@ + json_quoted(info.root@) + ",\n"@),
        has_sub(cc_entry(info, source, profile), "    \"file\": "@ + json_quoted(source) + ",\n"@),
        has_sub(
            cc_entry(info, source, profile),
            "    \"arguments\": "@ + json_array_text(compile_args_of(info, source, profile)) + "\n"@,
        ),
{
    let a = "  {\n"@;
    let d = "    \"directory\": "@ + json_quoted(info.root@) + ",\n"@;
    let f = "    \"file\": "@ + json_quoted(source) + ",\n"@;
    let g = "    \"arguments\": "@ + json_array_text(compile_args_of(info, source, profile)) + "\n"@;
    let z = "  }"@;
    let e = cc_entry(info, source, profile);
    assert(e =~= a + d + f + g + z);
    assert(e.subrange(0, a.len() as int) =~= a);
    assert(e.subrange(e.len() - z.len(), e.len() as int) =~= z);
    assert(e.subrange(a.len() as int, (a.len() + d.len()) as int) =~= d);
    assert(occurs_at(e, d, a.len() as int));
    assert(e.subrange((a.len() + d.len()) as int, (a.len() + d.len() + f.len()) as int) =~= f);
    assert(occurs_at(e, f, (a.len() + d.len()) as int));
    assert(e.subrange((a.len() + d.len() + f.len()) as int, (a.len() + d.len() + f.len() + g.len()) as int) =~= g);
    assert(occurs_at(e, g, (a.len() + d.len() + f.len()) as int));
}

/// `compile_commands.json` is a JSON array with one object per (project, source) pair, in
/// order: the `k`-th entry is the object of the `k`-th pair, the text opens with `[` and the
/// first entry, closes with the last entry and `]`, and consecutive entries are separated by a
/// comma.
pub proof fn law_compile_commands_array(projects: Seq<ProjectInfo>, profile: Seq<char>)
    ensures
        cc_entries(projects, profile).len() == source_total(projects),
        forall|j: int, i: int|
            0 <= j < projects.len() && 0 <= i < projects[j].sources@.len() ==> #[trigger] cc_entries(projects, profile)[source_total(
                projects.take(j),
            ) + i] == cc_entry(projects[j], #[trigger] projects[j].sources@[i]@, profile),
        cc_entries(projects, profile).len() == 0 ==> compile_commands_text(projects, profile) == "[\n"@ + "\n]\n"@,
        cc_entries(projects, profile).len() > 0 ==> starts(
            compile_commands_text(projects, profile),
            "[\n"@ + cc_entries(projects, profile)[0],
        ),
        cc_entries(projects, profile).len() > 0 ==> ends(
            compile_commands_text(projects, profile),
            cc_entries(projects, profile).last() + "\n]\n"@,
        ),
        forall|k: int|
            0 <= k < cc_entries(projects, profile).len() - 1 ==> has_sub(
                compile_commands_text(projects, profile),
                #[trigger] cc_entries(projects, profile)[k] + ",\n"@ + cc_entries(projects, profile)[k + 1],
            ),
{
    lemma_cc_entries_in_order(projects, profile);
    let es = cc_entries(projects, profile);
    let j = join_seq(es, ",\n"@);
    let text = compile_commands_text(projects, profile);
    assert(text == "[\n"@ + j + "\n]\n"@);
    if es.len() == 0 {
        assert(j =~= Seq::<char>::empty());
        assert(text =~= "[\n"@ + "\n]\n"@);
    } else {
        lemma_join_first(es, ",\n"@);
        let h = "[\n"@ + es[0];
        assert(text.subrange(0, h.len() as int) =~= "[\n"@ + j.subrange(0, es[0].len() as int));
        lemma_join_last(es, ",\n"@);
        let pre = if es.len() == 1 {
            Seq::<char>::empty()
        } else {
            join_seq(es.drop_last(), ",\n"@) + ",\n"@
        };
        let t = es.last() + "\n]\n"@;
        assert(text =~= ("[\n"@ + pre) + t);
        assert(text.subrange(text.len() - t.len(), text.len() as int) =~= t);
    }
    assert forall|k: int| 0 <= k < es.len() - 1 implies has_sub(text, #[trigger] es[k] + ",\n"@ + es[k + 1]) by {
        lemma_join_adjacent(es, ",\n"@, k);
        let needle = es[k] + ",\n"@ + es[k + 1];
        let i = choose|i: int| occurs_at(j, needle, i);
        let off = "[\n"@.len();
        assert(text.subrange(off + i, off + i + needle.len()) =~= j.subrange(i, i + needle.len()));
        assert(occurs_at(text, needle, off + i));
    }
}

fn compile_command_entry(info: &ProjectInfo, source: &str, profile: &str) -> (r: String)
    ensures
        r@ == cc_entry(*info, source@, profile@),
{
    let command = build_compile_command(info, source, profile);
    let mut out = "  {\n".to_owned();
    out.append("    \"directory\": ");
    let d = json_str(info.root.as_str());
    out.append(d.as_str());
    out.append(",\n");
    out.append("    \"file\": ");
    let f = json_str(source);
    out.append(f.as_str());
    out.append(",\n");
    out.append("    \"arguments\": ");
    let a = json_str_array(&command);
    out.append(a.as_str());
    out.append("\n");
    out.append("  }");
    out
}

/// The text of `compile_commands.json` for the projects (see `compile_commands_text`).
pub fn build_compile_commands(projects: &Vec<ProjectInfo>, profile: &str) -> (r: String)
    ensures
        r@ == compile_commands_text(projects@, profile@),
{
    let mut entries: Vec<String> = Vec::new();
    let mut i: usize = 0;
    while i < projects.len()
        invariant
            i <= projects@.len(),
            views(entries@) == cc_entries(projects@.take(i as int), profile@),
        decreases projects@.len() - i,
    {
        let info = &projects[i];
        assert(projects@.take(i + 1).drop_last() =~= projects@.take(i as int));
        assert(projects@.take(i + 1).last() == *info);
        let ghost base = views(entries@);
        let mut k: usize = 0;
        while k < info.sources.len()
            invariant
                k <= info.sources@.len(),
                views(entries@) == base + views(info.sources@).map_values(|s: Seq<char>| cc_entry(*info, s, profile@)).take(k as int),
            decreases info.sources@.len() - k,
        {
            let e = compile_command_entry(info, info.sources[k].as_str(), profile);
            let ghost prev = entries@;
            entries.push(e);
            assert(views(entries@) =~= views(prev).push(e@));
            assert(views(info.sources@).map_values(|s: Seq<char>| cc_entry(*info, s, profile@)).take(k + 1) =~= views(info.sources@).map_values(
                |s: Seq<char>| cc_entry(*info, s, profile@),
            ).take(k as int).push(cc_entry(*info, info.sources@[k as int]@, profile@)));
            k = k + 1;
        }
        assert(views(info.sources@).map_values(|s: Seq<char>| cc_entry(*info, s, profile@)).take(k as int) =~= views(info.sources@).map_values(
            |s: Seq<char>| cc_entry(*info, s, profile@),
        ));
        i = i + 1;
    }
    assert(projects@.take(i as int) =~= projects@);
    let mut out = "[\n".to_owned();
    let j = crate::utils::strings::join(&entries, ",\n");
    out.append(j.as_str());
    out.append("\n]\n");
    out
}

/// A line of a JSON object as `dcr gen` writes it: `    "<key>": <value>`, then `,` unless it
/// is the last.
pub open spec fn json_line(key: Seq<char>, value: Seq<char>, last: bool) -> Seq<char> {
    "    \""@ + key + "\": "@ + value + (if last {
        "\n"@
    } else {
        ",\n"@
    })
}

fn push_json_line(out: &mut String, key: &str, value: &str, last: bool)
    ensures
        final(out)@ == old(out)@ + json_line(key@, value@, last),
{
    out.append("    \"");
    out.append(key);
    out.append("\": ");
    out.append(value);
    if last {
        out.append("\n");
    } else {
        out.append(",\n");
    }
}

/// A project as a JSON object (`dcr gen project-info`).
pub open spec fn project_json(info: ProjectInfo) -> Seq<char> {
    "  {\n"@ + json_line("name"@, json_quoted(info.name@), false) + json_line("version"@, json_quoted(info.version@), false)
        + json_line("root"@, json_quoted(info.root@), false) + json_line("profile"@, json_quoted(info.profile@), false)
        + json_line("language"@, json_quoted(info.language@), false) + json_line("standard"@, json_quoted(info.standard@), false)
        + json_line("compiler"@, json_quoted(info.compiler@), false) + json_line("kind"@, json_quoted(info.kind@), false)
        + json_line("sources"@, json_array_text(views(info.sources@)), false)
        + json_line("include_dirs"@, json_array_text(views(info.include_dirs@)), false)
        + json_line("lib_dirs"@, json_array_text(views(info.lib_dirs@)), false)
        + json_line("libs"@, json_array_text(views(info.libs@)), false)
        + json_line("cflags"@, json_array_text(views(info.cflags@)), false)
        + json_line("ldflags"@, json_array_text(views(info.ldflags@)), true) + "  }"@
}

/// A project as a JSON object (see `project_json`).
pub fn project_info_to_json(info: &ProjectInfo) -> (r: String)
    ensures
        r@ == project_json(*info),
{
    let mut out = "  {\n".to_owned();
    let ghost o0 = out@;
    push_json_line(&mut out, "name", json_str(info.name.as_str()).as_str(), false);
    push_json_line(&mut out, "version", json_str(info.version.as_str()).as_str(), false);
    push_json_line(&mut out, "root", json_str(info.root.as_str()).as_str(), false);
    push_json_line(&mut out, "profile", json_str(info.profile.as_str()).as_str(), false);
    push_json_line(&mut out, "language", json_str(info.language.as_str()).as_str(), false);
    push_json_line(&mut out, "standard", json_str(info.standard.as_str()).as_str(), false);
    push_json_line(&mut out, "compiler", json_str(info.compiler.as_str()).as_str(), false);
    push_json_line(&mut out, "kind", json_str(info.kind.as_str()).as_str(), false);
    let ghost o1 = out@;
    assert(o1 =~= "  {\n"@ + json_line("name"@, json_quoted(info.name@), false) + json_line("version"@, json_quoted(info.version@), false)
        + json_line("root"@, json_quoted(info.root@), false) + json_line("profile"@, json_quoted(info.profile@), false)
        + json_line("language"@, json_quoted(info.language@), false) + json_line("standard"@, json_quoted(info.standard@), false)
        + json_line("compiler"@, json_quoted(info.compiler@), false) + json_line("kind"@, json_quoted(info.kind@), false));
    push_json_line(&mut out, "sources", json_str_array(&info.sources).as_str(), false);
    push_json_line(&mut out, "include_dirs", json_str_array(&info.include_dirs).as_str(), false);
    push_json_line(&mut out, "lib_dirs", json_str_array(&info.lib_dirs).as_str(), false);
    push_json_line(&mut out, "libs", json_str_array(&info.libs).as_str(), false);
    push_json_line(&mut out, "cflags", json_str_array(&info.cflags).as_str(), false);
    push_json_line(&mut out, "ldflags", json_str_array(&info.ldflags).as_str(), true);
    out.append("  }");
    assert(out@ =~= project_json(*info));
    out
}

/// The path of a project's binary for a profile: `<root>/target/<profile>/<name>`.
pub open spec fn binary_of(root: Seq<char>, profile: Seq<char>, name: Seq<char>) -> Seq<char> {
    join_path(join_path(join_path(root, "target"@), profile), name)
}

fn binary_path(root: &str, profile: &str, name: &str) -> (r: String)
    ensures
        r@ == binary_of(root@, profile@, name@),
{
    let t = join(root, "target");
    let p = join(t.as_str(), profile);
    join(p.as_str(), name)
}

/// A debugger launch configuration of a binary project for `mode` (`debug` or `release`).
pub open spec fn launch_entry(info: ProjectInfo, mode: Seq<char>) -> Seq<char> {
    "    {\n      \"name\": "@ + json_quoted(info.name@ + " ("@ + mode + ")"@) + ",\n      \"type\": \"lldb\",\n      \"request\": \"launch\",\n      \"program\": "@
        + json_quoted(binary_of(info.root@, mode, info.name@))
        + ",\n      \"args\": [],\n      \"stopOnEntry\": false,\n      \"cwd\": "@ + json_quoted(info.root@)
        + ",\n      \"terminal\": \"integrated\",\n      \"preLaunchTask\": \"dcr: build ("@ + mode + ")\"\n    }"@
}

fn launch_config(info: &ProjectInfo, mode: &str) -> (r: String)
    ensures
        r@ == launch_entry(*info, mode@),
{
    let mut label = info.name.clone();
    label.append(" (");
    label.append(mode);
    label.append(")");
    let prog = binary_path(info.root.as_str(), mode, info.name.as_str());
    let mut out = "    {\n      \"name\": ".to_owned();
    out.append(json_str(label.as_str()).as_str());
    out.append(",\n      \"type\": \"lldb\",\n      \"request\": \"launch\",\n      \"program\": ");
    out.append(json_str(prog.as_str()).as_str());
    out.append(",\n      \"args\": [],\n      \"stopOnEntry\": false,\n      \"cwd\": ");
    out.append(json_str(info.root.as_str()).as_str());
    out.append(",\n      \"terminal\": \"integrated\",\n      \"preLaunchTask\": \"dcr: build (");
    out.append(mode);
    out.append(")\"\n    }");
    out
}

/// The launch configuration written when no project builds a binary.
pub const LAUNCH_PLACEHOLDER: &'static str = "    {\n      \"name\": \"(placeholder \u{2014} no binary targets found)\",\n      \"type\": \"lldb\",\n      \"request\": \"launch\",\n      \"program\": \"\",\n      \"cwd\": \"${workspaceFolder}\"\n    }";

/// The launch configurations: a debug and a release one for each binary project.
pub open spec fn launch_entries(projects: Seq<ProjectInfo>) -> Seq<Seq<char>>
    decreases projects.len(),
{
    if projects.len() == 0 {
        Seq::empty()
    } else {
        let info = projects.last();
        launch_entries(projects.drop_last()) + if info.kind@ == "bin"@ {
            seq![launch_entry(info, "debug"@), launch_entry(info, "release"@)]
        } else {
            Seq::empty()
        }
    }
}

/// The text of `.vscode/launch.json`: the launch configurations, or a placeholder when there
/// is none.
pub open spec fn launch_json_text(projects: Seq<ProjectInfo>) -> Seq<char> {
    let configs = launch_entries(projects);
    let shown = if configs.len() == 0 {
        seq![LAUNCH_PLACEHOLDER@]
    } else {
        configs
    };
    "{\n  \"version\": \"0.2.0\",\n  \"configurations\": [\n"@ + join_seq(shown, ",\n"@) + "\n  ]\n}\n"@
}

/// The text of `.vscode/launch.json` (see `launch_json_text`).
pub fn gen_launch_json(projects: &Vec<ProjectInfo>) -> (r: String)
    ensures
        r@ == launch_json_text(projects@),
{
    let mut configs: Vec<String> = Vec::new();
    let mut i: usize = 0;
    while i < projects.len()
        invariant
            i <= projects@.len(),
            views(configs@) == launch_entries(projects@.take(i as int)),
        decreases projects@.len() - i,
    {
        let info = &projects[i];
        assert(projects@.take(i + 1).drop_last() =~= projects@.take(i as int));
        assert(projects@.take(i + 1).last() == *info);
        let ghost prev = configs@;
        if str_eq(info.kind.as_str(), "bin") {
            proof { reveal_strlit("debug"); reveal_strlit("release"); }
            let d = launch_config(info, "debug");
            let r = launch_config(info, "release");
            configs.push(d);
            configs.push(r);
            assert(views(configs@) =~= views(prev) + seq![launch_entry(*info, "debug"@), launch_entry(*info, "release"@)]);
        } else {
            assert(views(configs@) =~= views(prev) + Seq::<Seq<char>>::empty());
        }
        i = i + 1;
    }
    assert(projects@.take(i as int) =~= projects@);
    if configs.len() == 0 {
        configs.push(LAUNCH_PLACEHOLDER.to_owned());
        assert(views(configs@) =~= seq![LAUNCH_PLACEHOLDER@]);
    }
    let mut out = "{\n  \"version\": \"0.2.0\",\n  \"configurations\": [\n".to_owned();
    let j = crate::utils::strings::join(&configs, ",\n");
    out.append(j.as_str());
    out.append("\n  ]\n}\n");
    out
}

/// The text of `.vscode/settings.json`: clangd reads `compile_commands.json` from the
/// project's root, and the Microsoft C/C++ extension is switched off.
pub open spec fn settings_json_text(root: Seq<char>) -> Seq<char> {
    "{\n  \"clangd.arguments\": [\n    \"--compile-commands-dir="@ + root
        + "\",\n    \"--header-insertion=never\",\n    \"--clang-tidy=false\"\n  ],\n  \"C_Cpp.intelliSenseEngine\": \"disabled\",\n  \"C_Cpp.autocomplete\": \"disabled\",\n  \"C_Cpp.errorSquiggles\": \"disabled\",\n  \"C_Cpp.hover\": \"disabled\"\n}\n"@
}

/// The text of `.vscode/settings.json` (see `settings_json_text`).
pub fn gen_settings_json(root: &str) -> (r: String)
    ensures
        r@ == settings_json_text(root@),
{
    let mut out = "{\n  \"clangd.arguments\": [\n    \"--compile-commands-dir=".to_owned();
    out.append(root);
    out.append(
        "\",\n    \"--header-insertion=never\",\n    \"--clang-tidy=false\"\n  ],\n  \"C_Cpp.intelliSenseEngine\": \"disabled\",\n  \"C_Cpp.autocomplete\": \"disabled\",\n  \"C_Cpp.errorSquiggles\": \"disabled\",\n  \"C_Cpp.hover\": \"disabled\"\n}\n",
    );
    out
}

/// The text of `.idea/misc.xml`: CLion reads `<root>/compile_commands.json`.
pub open spec fn misc_xml_text(root: Seq<char>) -> Seq<char> {
    "<?xml version=\"1.0\" encoding=\"UTF-8\"?>\n<project version=\"4\">\n  <component name=\"CMakeWorkspace\" PROJECT_DIR=\"$PROJECT_DIR$\" />\n  <component name=\"CompDBWorkspace\" projectDir=\"$PROJECT_DIR$\">\n    <customCompileCommandsPath>"@
        + xml_escaped(join_path(root, "compile_commands.json"@)) + "</customCompileCommandsPath>\n  </component>\n</project>\n"@
}

/// The text of `.idea/misc.xml` (see `misc_xml_text`).
pub fn gen_clion_misc_xml(root: &str) -> (r: String)
    ensures
        r@ == misc_xml_text(root@),
{
    let cc_path = join(root, "compile_commands.json");
    let cc = xml_escape(cc_path.as_str());
    let mut out = "<?xml version=\"1.0\" encoding=\"UTF-8\"?>\n<project version=\"4\">\n  <component name=\"CMakeWorkspace\" PROJECT_DIR=\"$PROJECT_DIR$\" />\n  <component name=\"CompDBWorkspace\" projectDir=\"$PROJECT_DIR$\">\n    <customCompileCommandsPath>".to_owned();
    out.append(cc.as_str());
    out.append("</customCompileCommandsPath>\n  </component>\n</project>\n");
    out
}

/// The build target a CLion run configuration runs first.
pub open spec fn run_target(profile: Seq<char>) -> Seq<char> {
    if profile == "release"@ {
        "dcr: build (release)"@
    } else {
        "dcr: build (debug)"@
    }
}

/// The text of a CLion run configuration for a binary project: named `<name> (<profile>)`,
/// running `<root>/target/<profile>/<name>` after the matching build target.
pub open spec fn run_config_text(info: ProjectInfo, root: Seq<char>, profile: Seq<char>) -> Seq<char> {
    "<?xml version=\"1.0\" encoding=\"UTF-8\"?>\n<component name=\"ProjectRunConfigurationManager\">\n  <configuration default=\"false\"\n                 name=\""@
        + xml_escaped(info.name@ + " ("@ + profile + ")"@)
        + "\"\n                 type=\"CLionExternalRunConfiguration\"\n                 factoryName=\"Application\">\n    <build target=\""@
        + xml_escaped(run_target(profile)) + "\" />\n    <executable path=\""@ + xml_escaped(binary_of(root, profile, info.name@))
        + "\" />\n    <workingDirectory value=\"$PROJECT_DIR$\" />\n    <envs />\n    <method v=\"2\">\n      <option name=\"CLionExternalBuildTargetBeforeRunTask\" enabled=\"true\" />\n    </method>\n  </configuration>\n</component>\n"@
}

/// The text of a CLion run configuration (see `run_config_text`).
pub fn gen_clion_run_config(info: &ProjectInfo, root: &str, profile: &str) -> (r: String)
    ensures
        r@ == run_config_text(*info, root@, profile@),
{
    let bin_path = binary_path(root, profile, info.name.as_str());
    let bin = xml_escape(bin_path.as_str());
    let target = if str_eq(profile, "release") {
        "dcr: build (release)"
    } else {
        "dcr: build (debug)"
    };
    let target_esc = xml_escape(target);
    let mut label = info.name.clone();
    label.append(" (");
    label.append(profile);
    label.append(")");
    let name_esc = xml_escape(label.as_str());
    let mut out = "<?xml version=\"1.0\" encoding=\"UTF-8\"?>\n<component name=\"ProjectRunConfigurationManager\">\n  <configuration default=\"false\"\n                 name=\"".to_owned();
    out.append(name_esc.as_str());
    out.append("\"\n                 type=\"CLionExternalRunConfiguration\"\n                 factoryName=\"Application\">\n    <build target=\"");
    out.append(target_esc.as_str());
    out.append("\" />\n    <executable path=\"");
    out.append(bin.as_str());
    out.append(
        "\" />\n    <workingDirectory value=\"$PROJECT_DIR$\" />\n    <envs />\n    <method v=\"2\">\n      <option name=\"CLionExternalBuildTargetBeforeRunTask\" enabled=\"true\" />\n    </method>\n  </configuration>\n</component>\n",
    );
    out
}

/// The profile that `dcr gen` works for: the last of `--debug` and `--release` given, else
/// debug.
pub open spec fn gen_profile_of(args: Seq<Seq<char>>) -> Seq<char>
    decreases args.len(),
{
    if args.len() == 0 {
        "debug"@
    } else if args.last() == "--debug"@ {
        "debug"@
    } else if args.last() == "--release"@ {
        "release"@
    } else {
        gen_profile_of(args.drop_last())
    }
}

/// The profile that `dcr gen` works for (see `gen_profile_of`).
pub fn parse_gen_profile(args: &Vec<String>) -> (r: String)
    ensures
        r@ == gen_profile_of(views(args@)),
{
    let mut i: usize = args.len();
    assert(views(args@).take(i as int) =~= views(args@));
    while i > 0
        invariant
            i <= args@.len(),
            forall|k: int| i <= k < args@.len() ==> args@[k]@ != "--debug"@ && args@[k]@ != "--release"@,
            gen_profile_of(views(args@)) == gen_profile_of(views(args@).take(i as int)),
        decreases i,
    {
        let a = args[i - 1].as_str();
        assert(views(args@).take(i as int).drop_last() =~= views(args@).take(i - 1));
        assert(views(args@).take(i as int).last() == args@[i - 1]@);
        if str_eq(a, "--debug") {
            return "debug".to_owned();
        }
        if str_eq(a, "--release") {
            return "release".to_owned();
        }
        i = i - 1;
    }
    assert(views(args@).take(0) =~= Seq::<Seq<char>>::empty());
    "debug".to_owned()
}

/// The text of `.vscode/extensions.json`: clangd and CodeLLDB recommended, the Microsoft C/C++
/// extensions unwanted.
pub const EXTENSIONS_JSON: &'static str = "{\n  \"recommendations\": [\n    \"llvm-vs-code-extensions.vscode-clangd\",\n    \"vadimcn.vscode-lldb\"\n  ],\n  \"unwantedRecommendations\": [\n    \"ms-vscode.cpptools\",\n    \"ms-vscode.cpptools-extension-pack\",\n    \"ms-vscode.cpptools-themes\"\n  ]\n}\n";

/// The text of `.vscode/extensions.json`.
pub fn gen_extensions_json() -> (r: String)
    ensures
        r@ == EXTENSIONS_JSON@,
{
    EXTENSIONS_JSON.to_owned()
}

/// The text of `.vscode/tasks.json`: build and run in both profiles, clean, and
/// `gen compile-commands`.
pub const TASKS_JSON: &'static str = "{\n  \"version\": \"2.0.0\",\n  \"tasks\": [\n    {\n      \"label\": \"dcr: build (debug)\",\n      \"type\": \"shell\",\n      \"command\": \"dcr build --debug\",\n      \"group\": {\n        \"kind\": \"build\",\n        \"isDefault\": true\n      },\n      \"problemMatcher\": [\"$gcc\"],\n      \"presentation\": { \"reveal\": \"always\", \"panel\": \"shared\" }\n    },\n    {\n      \"label\": \"dcr: build (release)\",\n      \"type\": \"shell\",\n      \"command\": \"dcr build --release\",\n      \"group\": \"build\",\n      \"problemMatcher\": [\"$gcc\"],\n      \"presentation\": { \"reveal\": \"always\", \"panel\": \"shared\" }\n    },\n    {\n      \"label\": \"dcr: run (debug)\",\n      \"type\": \"shell\",\n      \"command\": \"dcr run --debug\",\n      \"group\": {\n        \"kind\": \"test\",\n        \"isDefault\": true\n      },\n      \"problemMatcher\": [\"$gcc\"],\n      \"presentation\": { \"reveal\": \"always\", \"panel\": \"shared\" }\n    },\n    {\n      \"label\": \"dcr: run (release)\",\n      \"type\": \"shell\",\n      \"command\": \"dcr run --release\",\n      \"group\": \"test\",\n      \"problemMatcher\": [\"$gcc\"],\n      \"presentation\": { \"reveal\": \"always\", \"panel\": \"shared\" }\n    },\n    {\n      \"label\": \"dcr: clean\",\n      \"type\": \"shell\",\n      \"command\": \"dcr clean --all\",\n      \"group\": \"none\",\n      \"problemMatcher\": [],\n      \"presentation\": { \"reveal\": \"always\", \"panel\": \"shared\" }\n    },\n    {\n      \"label\": \"dcr: gen compile-commands\",\n      \"type\": \"shell\",\n      \"command\": \"dcr gen compile-commands\",\n      \"group\": \"none\",\n      \"problemMatcher\": [],\n      \"presentation\": { \"reveal\": \"always\", \"panel\": \"shared\" }\n    }\n  ]\n}\n";

/// The text of `.vscode/tasks.json`.
pub fn gen_tasks_json() -> (r: String)
    ensures
        r@ == TASKS_JSON@,
{
    TASKS_JSON.to_owned()
}

/// The text of `.idea/externalTools.xml`: the `dcr` commands as CLion external tools.
pub const CLION_EXTERNAL_TOOLS: &'static str = "<?xml version=\"1.0\" encoding=\"UTF-8\"?>\n<project version=\"4\">\n  <component name=\"ExternalToolsComponent\">\n    <tools name=\"DCR\">\n      <tool name=\"Build Debug\"\n            description=\"dcr build --debug\"\n            showInMainMenu=\"true\"\n            showInEditor=\"false\"\n            showInProject=\"false\"\n            showInSearchPopup=\"false\"\n            disabled=\"false\"\n            useConsole=\"true\"\n            showConsoleOnStdOut=\"false\"\n            showConsoleOnStdErr=\"true\"\n            synchronizeAfterRun=\"true\">\n        <exec>\n          <option name=\"COMMAND\" value=\"dcr\" />\n          <option name=\"PARAMETERS\" value=\"build --debug\" />\n          <option name=\"WORKING_DIRECTORY\" value=\"$ProjectFileDir$\" />\n        </exec>\n      </tool>\n      <tool name=\"Build Release\"\n            description=\"dcr build --release\"\n            showInMainMenu=\"true\"\n            showInEditor=\"false\"\n            showInProject=\"false\"\n            showInSearchPopup=\"false\"\n            disabled=\"false\"\n            useConsole=\"true\"\n            showConsoleOnStdOut=\"false\"\n            showConsoleOnStdErr=\"true\"\n            synchronizeAfterRun=\"true\">\n        <exec>\n          <option name=\"COMMAND\" value=\"dcr\" />\n          <option name=\"PARAMETERS\" value=\"build --release\" />\n          <option name=\"WORKING_DIRECTORY\" value=\"$ProjectFileDir$\" />\n        </exec>\n      </tool>\n      <tool name=\"Clean\"\n            description=\"dcr clean\"\n            showInMainMenu=\"true\"\n            showInEditor=\"false\"\n            showInProject=\"false\"\n            showInSearchPopup=\"false\"\n            disabled=\"false\"\n            useConsole=\"true\"\n            showConsoleOnStdOut=\"false\"\n            showConsoleOnStdErr=\"true\"\n            synchronizeAfterRun=\"true\">\n        <exec>\n          <option name=\"COMMAND\" value=\"dcr\" />\n          <option name=\"PARAMETERS\" value=\"clean\" />\n          <option name=\"WORKING_DIRECTORY\" value=\"$ProjectFileDir$\" />\n        </exec>\n      </tool>\n      <tool name=\"Gen Compile Commands\"\n            description=\"dcr gen compile-commands\"\n            showInMainMenu=\"true\"\n            showInEditor=\"false\"\n            showInProject=\"false\"\n            showInSearchPopup=\"false\"\n            disabled=\"false\"\n            useConsole=\"true\"\n            showConsoleOnStdOut=\"false\"\n            showConsoleOnStdErr=\"true\"\n            synchronizeAfterRun=\"true\">\n        <exec>\n          <option name=\"COMMAND\" value=\"dcr\" />\n          <option name=\"PARAMETERS\" value=\"gen compile-commands\" />\n          <option name=\"WORKING_DIRECTORY\" value=\"$ProjectFileDir$\" />\n        </exec>\n      </tool>\n    </tools>\n  </component>\n</project>\n";

/// The text of `.idea/externalTools.xml`.
pub fn gen_clion_external_tools() -> (r: String)
    ensures
        r@ == CLION_EXTERNAL_TOOLS@,
{
    CLION_EXTERNAL_TOOLS.to_owned()
}

/// The text of `.idea/customTargets.xml`: the debug and release builds as CLion targets.
pub const CLION_CUSTOM_TARGETS: &'static str = "<?xml version=\"1.0\" encoding=\"UTF-8\"?>\n<project version=\"4\">\n  <component name=\"CLionExternalBuildManager\">\n    <target id=\"dcr00000-0000-0000-0000-000000000001\"\n            name=\"dcr: build (debug)\"\n            defaultType=\"TOOL\">\n      <build type=\"TOOL\">\n        <tool actionId=\"Tool_DCR_Build Debug\" />\n      </build>\n      <clean type=\"TOOL\">\n        <tool actionId=\"Tool_DCR_Clean\" />\n      </clean>\n    </target>\n    <target id=\"dcr00000-0000-0000-0000-000000000002\"\n            name=\"dcr: build (release)\"\n            defaultType=\"TOOL\">\n      <build type=\"TOOL\">\n        <tool actionId=\"Tool_DCR_Build Release\" />\n      </build>\n      <clean type=\"TOOL\">\n        <tool actionId=\"Tool_DCR_Clean\" />\n      </clean>\n    </target>\n  </component>\n</project>\n";

/// The text of `.idea/customTargets.xml`.
pub fn gen_clion_custom_targets() -> (r: String)
    ensures
        r@ == CLION_CUSTOM_TARGETS@,
{
    CLION_CUSTOM_TARGETS.to_owned()
}

} // verus!
