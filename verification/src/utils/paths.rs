//! Paths as `/`-separated strings: joining a relative path onto a base, and the parts of a file
//! name.
use vstd::prelude::*;
use crate::utils::strings::{join_seq, split_char, split_seq, str_eq, trim_end_char, trim_end_char_seq, views};

verus! {

/// An absolute path: it begins with `/`.
pub open spec fn is_abs(p: Seq<char>) -> bool {
    p.len() > 0 && p[0] == '/'
}

/// `base` joined with `p` (`Path::join`): an absolute `p` replaces the base, an empty base
/// gives `p`, and a separator is put between the two unless the base already ends with one.
pub open spec fn join_path(base: Seq<char>, p: Seq<char>) -> Seq<char> {
    if is_abs(p) || base.len() == 0 {
        p
    } else if base.last() == '/' {
        base + p
    } else {
        base + "/"@ + p
    }
}

/// Whether `p` is an absolute path.
pub fn is_absolute(p: &str) -> (r: bool)
    ensures
        r == is_abs(p@),
{
    p.unicode_len() > 0 && p.get_char(0) == '/'
}

/// `base` joined with `p` (see `join_path`).
pub fn join(base: &str, p: &str) -> (r: String)
    ensures
        r@ == join_path(base@, p@),
{
    if is_absolute(p) || base.unicode_len() == 0 {
        return p.to_owned();
    }
    let mut r = base.to_owned();
    if base.get_char(base.unicode_len() - 1) != '/' {
        r.append("/");
    }
    r.append(p);
    r
}

/// `dir` without trailing separators, then `/` and `name`.
pub open spec fn under_dir(dir: Seq<char>, name: Seq<char>) -> Seq<char> {
    trim_end_char_seq(dir, '/') + "/"@ + name
}

/// `dir` without trailing separators, then `/` and `name`.
pub fn under(dir: &str, name: &str) -> (r: String)
    ensures
        r@ == under_dir(dir@, name@),
{
    let mut r = trim_end_char(dir, '/').to_owned();
    r.append("/");
    r.append(name);
    r
}

/// The pieces of a path between separators that name something: not empty, not `.`.
pub open spec fn normal_parts(pieces: Seq<Seq<char>>) -> Seq<Seq<char>>
    decreases pieces.len(),
{
    if pieces.len() == 0 {
        Seq::empty()
    } else {
        let init = normal_parts(pieces.drop_last());
        let x = pieces.last();
        if x.len() > 0 && x != "."@ {
            init.push(x)
        } else {
            init
        }
    }
}

/// The components of a path (`Path::components`): `/` for the root of an absolute path, `.`
/// for a leading `./`, then the named pieces (empty pieces and inner `.` dropped).
pub open spec fn comps(p: Seq<char>) -> Seq<Seq<char>> {
    let named = normal_parts(split_seq(p, '/'));
    if is_abs(p) {
        seq!["/"@].add(named)
    } else if p == "."@ || (p.len() >= 2 && p[0] == '.' && p[1] == '/') {
        seq!["."@].add(named)
    } else {
        named
    }
}

/// The components of a path (see `comps`).
pub fn components(p: &str) -> (r: Vec<String>)
    ensures
        views(r@) == comps(p@),
{
    let pieces = split_char(p, '/');
    let ghost ps = views(pieces@);
    let mut named: Vec<String> = Vec::new();
    let mut i: usize = 0;
    proof { reveal_strlit("."); }
    while i < pieces.len()
        invariant
            ps == views(pieces@),
            ps == split_seq(p@, '/'),
            i <= pieces@.len(),
            views(named@) == normal_parts(ps.take(i as int)),
        decreases pieces@.len() - i,
    {
        assert(ps.take(i + 1).drop_last() =~= ps.take(i as int));
        assert(ps[i as int] == pieces@[i as int]@);
        if pieces[i].unicode_len() > 0 && !str_eq(pieces[i].as_str(), ".") {
            let ghost prev = named@;
            named.push(pieces[i].clone());
            assert(views(named@) =~= views(prev).push(pieces@[i as int]@));
        }
        i = i + 1;
    }
    assert(ps.take(i as int) =~= ps);
    let n = p.unicode_len();
    let lead: Option<&str> = if is_absolute(p) {
        Some("/")
    } else if str_eq(p, ".") || (n >= 2 && p.get_char(0) == '.' && p.get_char(1) == '/') {
        Some(".")
    } else {
        None
    };
    match lead {
        Some(l) => {
            let mut r: Vec<String> = Vec::new();
            r.push(l.to_owned());
            let mut j: usize = 0;
            while j < named.len()
                invariant
                    j <= named@.len(),
                    views(r@) == seq![l@].add(views(named@).take(j as int)),
                decreases named@.len() - j,
            {
                let ghost prev = r@;
                r.push(named[j].clone());
                assert(views(r@) =~= views(prev).push(named@[j as int]@));
                assert(views(named@).take(j + 1) =~= views(named@).take(j as int).push(named@[j as int]@));
                j = j + 1;
            }
            assert(views(named@).take(j as int) =~= views(named@));
            proof { reveal_strlit("/"); }
            r
        },
        None => named,
    }
}

/// Component-wise prefix (`Path::starts_with`).
pub open spec fn path_starts(p: Seq<char>, base: Seq<char>) -> bool {
    comps(base).is_prefix_of(comps(p))
}

fn comps_prefix(a: &Vec<String>, b: &Vec<String>) -> (r: bool)
    ensures
        r == views(b@).is_prefix_of(views(a@)),
{
    if b.len() > a.len() {
        return false;
    }
    let mut i: usize = 0;
    while i < b.len()
        invariant
            b@.len() <= a@.len(),
            i <= b@.len(),
            forall|j: int| 0 <= j < i ==> #[trigger] views(b@)[j] == views(a@)[j],
        decreases b@.len() - i,
    {
        if !str_eq(a[i].as_str(), b[i].as_str()) {
            assert(views(b@)[i as int] != views(a@)[i as int]);
            return false;
        }
        i = i + 1;
    }
    assert(views(b@) =~= views(a@).take(b@.len() as int));
    true
}

/// Whether `p` begins with the components of `base` (`Path::starts_with`).
pub fn path_starts_with(p: &str, base: &str) -> (r: bool)
    ensures
        r == path_starts(p@, base@),
{
    let a = components(p);
    let b = components(base);
    comps_prefix(&a, &b)
}

/// What remains of `p` after the components of `base`, joined with `/` (`Path::strip_prefix`),
/// or `None` when `p` does not begin with them.
pub open spec fn strip_base(p: Seq<char>, base: Seq<char>) -> Option<Seq<char>> {
    if path_starts(p, base) {
        Some(join_seq(comps(p).skip(comps(base).len() as int), "/"@))
    } else {
        None
    }
}

/// What remains of `p` after `base` (see `strip_base`).
pub fn strip_base_path(p: &str, base: &str) -> (r: Option<String>)
    ensures
        match r {
            Some(s) => strip_base(p@, base@) == Some(s@),
            None => strip_base(p@, base@) is None,
        },
{
    let a = components(p);
    let b = components(base);
    if !comps_prefix(&a, &b) {
        return None;
    }
    let mut rest: Vec<String> = Vec::new();
    let mut i: usize = b.len();
    while i < a.len()
        invariant
            b@.len() <= i <= a@.len(),
            views(rest@) == views(a@).subrange(b@.len() as int, i as int),
        decreases a@.len() - i,
    {
        let ghost prev = rest@;
        rest.push(a[i].clone());
        assert(views(rest@) =~= views(prev).push(a@[i as int]@));
        assert(views(a@).subrange(b@.len() as int, i + 1) =~= views(a@).subrange(b@.len() as int, i as int).push(a@[i as int]@));
        i = i + 1;
    }
    assert(views(a@).subrange(b@.len() as int, a@.len() as int) =~= views(a@).skip(b@.len() as int));
    Some(crate::utils::strings::join(&rest, "/"))
}

/// The index of the last `c` in `s`.
pub open spec fn last_index(s: Seq<char>, c: char) -> Option<int>
    decreases s.len(),
{
    if s.len() == 0 {
        None
    } else if s.last() == c {
        Some(s.len() - 1)
    } else {
        last_index(s.drop_last(), c)
    }
}

fn rfind(v: &Vec<char>, c: char, lo: usize, hi: usize) -> (r: Option<usize>)
    requires
        lo <= hi <= v@.len(),
    ensures
        match r {
            Some(k) => lo <= k < hi && last_index(v@.subrange(lo as int, hi as int), c) == Some(k - lo),
            None => last_index(v@.subrange(lo as int, hi as int), c) is None,
        },
{
    let mut j: usize = hi;
    while j > lo
        invariant
            lo <= j <= hi <= v@.len(),
            last_index(v@.subrange(lo as int, hi as int), c) == last_index(v@.subrange(lo as int, j as int), c),
        decreases j,
    {
        assert(v@.subrange(lo as int, j as int).drop_last() =~= v@.subrange(lo as int, j - 1));
        if v[j - 1] == c {
            return Some(j - 1);
        }
        j = j - 1;
    }
    None
}

/// The path with the extension of its file name set to `ext` (`PathBuf::set_extension`): the
/// part after the last `.` that is not the name's first character is replaced, or `.ext` is
/// added; an empty `ext` removes the extension. A path without a file name is left as it is.
pub open spec fn with_ext(path: Seq<char>, ext: Seq<char>) -> Seq<char> {
    let start = match last_index(path, '/') {
        Some(i) => i + 1,
        None => 0,
    };
    let dir = path.take(start);
    let name = path.skip(start);
    if name.len() == 0 || name == "."@ || name == ".."@ {
        path
    } else {
        let stem = match last_index(name, '.') {
            Some(j) => if j > 0 {
                name.take(j)
            } else {
                name
            },
            None => name,
        };
        dir + stem + (if ext.len() > 0 {
            "."@ + ext
        } else {
            Seq::empty()
        })
    }
}

/// The index of the last `c` in `s` (see `last_index`).
pub fn rfind_char(s: &str, c: char) -> (r: Option<usize>)
    ensures
        match r {
            Some(k) => k < s@.len() <= usize::MAX && last_index(s@, c) == Some(k as int),
            None => last_index(s@, c) is None,
        },
{
    let v = crate::utils::strings::chars_of(s);
    let n = v.len();
    assert(v@.subrange(0, n as int) =~= s@);
    rfind(&v, c, 0, n)
}

/// `path` with the extension of its file name set to `ext` (see `with_ext`).
pub fn set_extension(path: &str, ext: &str) -> (r: String)
    ensures
        r@ == with_ext(path@, ext@),
{
    let v = crate::utils::strings::chars_of(path);
    let n = v.len();
    assert(v@.subrange(0, n as int) =~= path@);
    let start: usize = match rfind(&v, '/', 0, n) {
        Some(i) => i + 1,
        None => 0,
    };
    let name = crate::utils::strings::string_of_range(&v, start, n);
    assert(name@ =~= path@.skip(start as int));
    proof {
        reveal_strlit(".");
        reveal_strlit("..");
    }
    if name.unicode_len() == 0 || str_eq(name.as_str(), ".") || str_eq(name.as_str(), "..") {
        return path.to_owned();
    }
    let stem_end: usize = match rfind(&v, '.', start, n) {
        Some(j) => if j > start {
            j
        } else {
            n
        },
        None => n,
    };
    assert(v@.subrange(start as int, n as int) =~= name@);
    let mut r = crate::utils::strings::string_of_range(&v, 0, stem_end);
    if ext.unicode_len() > 0 {
        r.append(".");
        r.append(ext);
    }
    assert(v@.subrange(0, stem_end as int) =~= path@.take(start as int) + (if stem_end < n {
        name@.take(stem_end - start)
    } else {
        name@
    }));
    r
}

/// The parent of a path (`Path::parent`, for paths without `.` components): none for an empty
/// path or the root; `/` for an entry of the root; the empty path for a single relative name;
/// else the path before its last name, without trailing separators.
pub open spec fn parent_of(p: Seq<char>) -> Option<Seq<char>> {
    let t = trim_end_char_seq(p, '/');
    if t.len() == 0 {
        None
    } else {
        match last_index(t, '/') {
            Some(k) => {
                let q = trim_end_char_seq(t.take(k), '/');
                Some(if q.len() == 0 {
                    "/"@
                } else {
                    q
                })
            },
            None => Some(Seq::empty()),
        }
    }
}

/// The parent of a path (see `parent_of`).
pub fn parent(p: &str) -> (r: Option<String>)
    ensures
        match r {
            Some(x) => parent_of(p@) == Some(x@),
            None => parent_of(p@) is None,
        },
{
    let t = trim_end_char(p, '/');
    if t.unicode_len() == 0 {
        return None;
    }
    match rfind_char(t, '/') {
        Some(k) => {
            let head = t.substring_char(0, k);
            assert(head@ =~= t@.take(k as int));
            let q = trim_end_char(head, '/');
            if q.unicode_len() == 0 {
                Some("/".to_owned())
            } else {
                Some(q.to_owned())
            }
        },
        None => Some(String::new()),
    }
}

} // verus!
