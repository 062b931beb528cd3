//! `dcr add`: reading the dependency's name and source, and the value written under
//! `[dependencies]`.
use vstd::prelude::*;
use crate::project::value::{TomlData, TomlTable, TomlValue};
use crate::utils::strings::{contains_char, starts, starts_with, str_eq, strip_prefix};

verus! {

/// A dependency to add: its name and where it comes from.
pub struct AddArgs {
    pub name: String,
    pub path: Option<String>,
    pub git: Option<String>,
    pub branch: Option<String>,
    pub tag: Option<String>,
    pub rev: Option<String>,
    pub version_from_registry: Option<String>,
}

/// What the arguments of `dcr add` ask for: a dependency with its source, or a lookup of the
/// named package in the registry (when no source is given).
pub enum AddRequest {
    Source(AddArgs),
    Registry(String),
}

/// The git URL a source names, or the local path. A bare `user/repo` names a GitHub
/// repository; `Err`: the source has no known prefix and no `/`.
pub open spec fn source_of(spec: Seq<char>) -> Result<(Option<Seq<char>>, Option<Seq<char>>), ()> {
    if starts(spec, "path:"@) {
        Ok((Some(spec.skip(5)), None))
    } else if starts(spec, "github:"@) {
        Ok((None, Some("https://github.com/"@ + spec.skip(7))))
    } else if starts(spec, "gitlab:"@) {
        Ok((None, Some("https://gitlab.com/"@ + spec.skip(7))))
    } else if starts(spec, "git:"@) {
        let g = spec.skip(4);
        if g.contains('/') && !g.contains('.') {
            Ok((None, Some("https://github.com/"@ + g)))
        } else if starts(g, "http"@) || starts(g, "git@"@) {
            Ok((None, Some(g)))
        } else {
            Ok((None, Some("https://"@ + g)))
        }
    } else if starts(spec, "http://"@) || starts(spec, "https://"@) || starts(spec, "git@"@) {
        Ok((None, Some(spec)))
    } else if spec.contains('/') {
        Ok((None, Some("https://github.com/"@ + spec)))
    } else {
        Err(())
    }
}

/// The options after the source: `--branch`, `--tag`, `--rev`, each with a value; the later
/// one wins. `Err` holds the message of the first bad argument.
pub open spec fn scan_add_options(args: Seq<Seq<char>>, i: int, st: (Option<Seq<char>>, Option<Seq<char>>, Option<Seq<char>>)) -> Result<(Option<Seq<char>>, Option<Seq<char>>, Option<Seq<char>>), Seq<char>>
    decreases args.len() - i,
{
    if i < 0 || i >= args.len() {
        Ok(st)
    } else {
        let a = args[i];
        let has_value = i + 1 < args.len();
        if a == "--branch"@ {
            if has_value {
                scan_add_options(args, i + 2, (Some(args[i + 1]), st.1, st.2))
            } else {
                Err("--branch requires a value"@)
            }
        } else if a == "--tag"@ {
            if has_value {
                scan_add_options(args, i + 2, (st.0, Some(args[i + 1]), st.2))
            } else {
                Err("--tag requires a value"@)
            }
        } else if a == "--rev"@ {
            if has_value {
                scan_add_options(args, i + 2, (st.0, st.1, Some(args[i + 1])))
            } else {
                Err("--rev requires a value"@)
            }
        } else {
            Err("Unknown argument: "@ + a)
        }
    }
}

/// The usage lines printed when `dcr add` gets no argument.
pub open spec fn add_usage() -> Seq<Seq<char>> {
    seq![
        "Usage: dcr add <name> <source> [--branch <branch> | --tag <tag> | --rev <rev>]"@,
        "Sources:"@,
        "  user/repo                 -> github.com/user/repo"@,
        "  github:user/repo          -> github.com/user/repo"@,
        "  gitlab:user/repo          -> gitlab.com/user/repo"@,
        "  git:host.com/user/repo    -> host.com/user/repo"@,
        "  path:./path/to/lib        -> local path"@,
    ]
}

/// The view of an optional string.
pub open spec fn osv(o: Option<String>) -> Option<Seq<char>> {
    match o {
        Some(s) => Some(s@),
        None => None,
    }
}

/// What `dcr add` reads from its arguments: `Err` holds the error lines it prints.
pub open spec fn add_request(args: Seq<Seq<char>>) -> Result<(Seq<char>, Option<(Option<Seq<char>>, Option<Seq<char>>, (Option<Seq<char>>, Option<Seq<char>>, Option<Seq<char>>))>), Seq<Seq<char>>> {
    if args.len() == 0 {
        Err(add_usage())
    } else if starts(args[0], "--"@) {
        Err(seq!["First argument must be the dependency name"@])
    } else if args.len() == 1 {
        Ok((args[0], None))
    } else if starts(args[1], "--"@) {
        Err(seq!["Second argument must be the dependency source"@])
    } else {
        match scan_add_options(args, 2, (None, None, None)) {
            Err(m) => Err(seq![m]),
            Ok(opts) => match source_of(args[1]) {
                Err(_) => Err(seq!["Source must have a prefix (path:, git:, github:, gitlab:) or be a full URL"@]),
                Ok(src) => Ok((args[0], Some((src.0, src.1, opts)))),
            },
        }
    }
}

fn lines_of(v: Vec<&str>) -> (r: Vec<String>)
    ensures
        r@.map_values(|s: String| s@) == v@.map_values(|s: &str| s@),
{
    let mut out: Vec<String> = Vec::new();
    let mut i: usize = 0;
    while i < v.len()
        invariant
            i <= v@.len(),
            out@.map_values(|s: String| s@) == v@.map_values(|s: &str| s@).take(i as int),
        decreases v@.len() - i,
    {
        let ghost prev = out@;
        out.push(v[i].to_owned());
        assert(out@.map_values(|s: String| s@) =~= prev.map_values(|s: String| s@).push(v@[i as int]@));
        assert(v@.map_values(|s: &str| s@).take(i + 1) =~= v@.map_values(|s: &str| s@).take(i as int).push(v@[i as int]@));
        i = i + 1;
    }
    assert(v@.map_values(|s: &str| s@).take(i as int) =~= v@.map_values(|s: &str| s@));
    out
}

fn one_line(s: String) -> (r: Vec<String>)
    ensures
        r@.map_values(|x: String| x@) =~= seq![s@],
{
    let v = vec![s];
    assert(v@.map_values(|x: String| x@) =~= seq![v@[0]@]);
    v
}

fn prefixed_url(prefix: &str, rest: &str) -> (r: String)
    ensures
        r@ == prefix@ + rest@,
{
    let mut u = prefix.to_owned();
    u.append(rest);
    u
}

fn parse_source(spec: &str) -> (r: Option<(Option<String>, Option<String>)>)
    ensures
        match r {
            Some(p) => source_of(spec@) == Ok::<(Option<Seq<char>>, Option<Seq<char>>), ()>((osv(p.0), osv(p.1))),
            None => source_of(spec@) is Err,
        },
{
    proof {
        reveal_strlit("path:");
        reveal_strlit("github:");
        reveal_strlit("gitlab:");
        reveal_strlit("git:");
    }
    if let Some(p) = strip_prefix(spec, "path:") {
        return Some((Some(p.to_owned()), None));
    }
    if let Some(g) = strip_prefix(spec, "github:") {
        return Some((None, Some(prefixed_url("https://github.com/", g))));
    }
    if let Some(g) = strip_prefix(spec, "gitlab:") {
        return Some((None, Some(prefixed_url("https://gitlab.com/", g))));
    }
    if let Some(g) = strip_prefix(spec, "git:") {
        if contains_char(g, '/') && !contains_char(g, '.') {
            return Some((None, Some(prefixed_url("https://github.com/", g))));
        }
        let url = if starts_with(g, "http") || starts_with(g, "git@") {
            g.to_owned()
        } else {
            prefixed_url("https://", g)
        };
        return Some((None, Some(url)));
    }
    if starts_with(spec, "http://") || starts_with(spec, "https://") || starts_with(spec, "git@") {
        return Some((None, Some(spec.to_owned())));
    }
    if contains_char(spec, '/') {
        return Some((None, Some(prefixed_url("https://github.com/", spec))));
    }
    None
}

/// Reads the arguments of `dcr add`: a name, then a source (`path:`, `git:`, `github:`,
/// `gitlab:` or a full URL) and `--branch`/`--tag`/`--rev`; with a name alone, the package is
/// to be looked up in the registry. `Err` holds the error lines to print.
pub fn parse_add_args(args: &Vec<String>) -> (r: Result<AddRequest, Vec<String>>)
    ensures
        match r {
            Ok(AddRequest::Registry(n)) => add_request(args@.map_values(|s: String| s@)) == Ok::<_, Seq<Seq<char>>>((n@, None::<(Option<Seq<char>>, Option<Seq<char>>, (Option<Seq<char>>, Option<Seq<char>>, Option<Seq<char>>))>)),
            Ok(AddRequest::Source(a)) => a.version_from_registry is None && add_request(args@.map_values(|s: String| s@)) == Ok::<_, Seq<Seq<char>>>((a.name@, Some((osv(a.path), osv(a.git), (osv(a.branch), osv(a.tag), osv(a.rev)))))),
            Err(lines) => add_request(args@.map_values(|s: String| s@)) == Err::<(Seq<char>, Option<(Option<Seq<char>>, Option<Seq<char>>, (Option<Seq<char>>, Option<Seq<char>>, Option<Seq<char>>))>), Seq<Seq<char>>>(lines@.map_values(|s: String| s@)),
        },
{
    let ghost a = args@.map_values(|s: String| s@);
    if args.len() == 0 {
        let v = vec![
            "Usage: dcr add <name> <source> [--branch <branch> | --tag <tag> | --rev <rev>]",
            "Sources:",
            "  user/repo                 -> github.com/user/repo",
            "  github:user/repo          -> github.com/user/repo",
            "  gitlab:user/repo          -> gitlab.com/user/repo",
            "  git:host.com/user/repo    -> host.com/user/repo",
            "  path:./path/to/lib        -> local path",
        ];
        assert(v@.map_values(|s: &str| s@) =~= add_usage());
        let usage = lines_of(v);
        assert(usage@.map_values(|s: String| s@) =~= add_usage());
        return Err(usage);
    }
    assert(a[0] == args@[0]@);
    if starts_with(args[0].as_str(), "--") {
        return Err(one_line("First argument must be the dependency name".to_owned()));
    }
    let name = args[0].clone();
    if args.len() == 1 {
        return Ok(AddRequest::Registry(name));
    }
    assert(a[1] == args@[1]@);
    if starts_with(args[1].as_str(), "--") {
        return Err(one_line("Second argument must be the dependency source".to_owned()));
    }
    let mut branch: Option<String> = None;
    let mut tag: Option<String> = None;
    let mut rev: Option<String> = None;
    let mut i: usize = 2;
    while i < args.len()
        invariant
            a == args@.map_values(|s: String| s@),
            2 <= i <= args@.len(),
            !starts(a[0], "--"@),
            !starts(a[1], "--"@),
            scan_add_options(a, 2, (None, None, None)) == scan_add_options(a, i as int, (osv(branch), osv(tag), osv(rev))),
        decreases args@.len() - i,
    {
        let arg = args[i].as_str();
        assert(a[i as int] == arg@);
        if i + 1 < args.len() {
            assert(a[i + 1] == args@[i + 1]@);
        }
        if str_eq(arg, "--branch") {
            if i + 1 >= args.len() {
                return Err(one_line("--branch requires a value".to_owned()));
            }
            branch = Some(args[i + 1].clone());
            i = i + 2;
        } else if str_eq(arg, "--tag") {
            if i + 1 >= args.len() {
                return Err(one_line("--tag requires a value".to_owned()));
            }
            tag = Some(args[i + 1].clone());
            i = i + 2;
        } else if str_eq(arg, "--rev") {
            if i + 1 >= args.len() {
                return Err(one_line("--rev requires a value".to_owned()));
            }
            rev = Some(args[i + 1].clone());
            i = i + 2;
        } else {
            return Err(one_line(prefixed_url("Unknown argument: ", arg)));
        }
    }
    match parse_source(args[1].as_str()) {
        None => Err(one_line("Source must have a prefix (path:, git:, github:, gitlab:) or be a full URL".to_owned())),
        Some((path, git)) => Ok(AddRequest::Source(AddArgs { name, path, git, branch, tag, rev, version_from_registry: None })),
    }
}

/// The entry written under `[dependencies]`: a git source as a table of `git` and whichever of
/// `branch`, `tag`, `rev` are given; a path as a table of `path`; a registry version as the
/// version string. `None` when the arguments name no source.
pub open spec fn dep_entry(a: AddArgs, k: Seq<char>) -> Option<TomlData> {
    if a.git is Some {
        if k == "git"@ {
            Some(TomlData::Str(a.git->0@))
        } else if k == "branch"@ && a.branch is Some {
            Some(TomlData::Str(a.branch->0@))
        } else if k == "tag"@ && a.tag is Some {
            Some(TomlData::Str(a.tag->0@))
        } else if k == "rev"@ && a.rev is Some {
            Some(TomlData::Str(a.rev->0@))
        } else {
            None
        }
    } else if a.path is Some {
        if k == "path"@ {
            Some(TomlData::Str(a.path->0@))
        } else {
            None
        }
    } else {
        None
    }
}

/// The value `dcr add` writes for the dependency (see `dep_entry`).
pub fn dependency_value(a: &AddArgs) -> (r: Option<TomlValue>)
    ensures
        a.git is Some || a.path is Some ==> (r matches Some(v) && v.data() is Table && forall|k: Seq<char>| #[trigger] crate::project::value::data_get(v.data()->Table_0, k) == dep_entry(*a, k)),
        a.git is None && a.path is None ==> match a.version_from_registry {
            Some(ver) => (r matches Some(v) && v.data() == TomlData::Str(ver@)),
            None => r is None,
        },
{
    proof {
        reveal_strlit("git");
        reveal_strlit("branch");
        reveal_strlit("tag");
        reveal_strlit("rev");
        assert("git"@.len() == 3 && "tag"@.len() == 3 && "rev"@.len() == 3 && "branch"@.len() == 6);
        assert("git"@[0] == 'g' && "tag"@[0] == 't' && "rev"@[0] == 'r');
    }
    if let Some(git) = &a.git {
        let mut t = TomlTable::new();
        t.insert("git".to_owned(), TomlValue::from_str(git.clone()));
        if let Some(b) = &a.branch {
            t.insert("branch".to_owned(), TomlValue::from_str(b.clone()));
        }
        if let Some(x) = &a.tag {
            t.insert("tag".to_owned(), TomlValue::from_str(x.clone()));
        }
        if let Some(x) = &a.rev {
            t.insert("rev".to_owned(), TomlValue::from_str(x.clone()));
        }
        assert forall|k: Seq<char>| #[trigger] crate::project::value::data_get(t.data(), k) == dep_entry(*a, k) by {
            assert(t.lookup(k) == dep_entry(*a, k));
        }
        let v = TomlValue::from_table(t);
        return Some(v);
    }
    if let Some(path) = &a.path {
        let mut t = TomlTable::new();
        t.insert("path".to_owned(), TomlValue::from_str(path.clone()));
        assert forall|k: Seq<char>| #[trigger] crate::project::value::data_get(t.data(), k) == dep_entry(*a, k) by {
            assert(t.lookup(k) == dep_entry(*a, k));
        }
        return Some(TomlValue::from_table(t));
    }
    match &a.version_from_registry {
        Some(v) => Some(TomlValue::from_str(v.clone())),
        None => None,
    }
}

} // verus!
