//! `dcr --update`: which release asset fits the running binary, where the new binary is put
//! before it replaces the old one, and when a package manager owns the binary instead.
use vstd::prelude::*;
use crate::utils::paths::{set_extension, with_ext};
use crate::utils::strings::{
    contains_str, decimal, ends, ends_with, has_sub, push_decimal, str_eq, trim, trim_seq, trim_start_matches,
    trim_start_matches_seq, views,
};

verus! {

/// The names a release asset for `target` may have: `dcr-<target>`, and for a Windows target
/// also `dcr-<target>.exe`.
pub open spec fn asset_names(target: Seq<char>) -> Seq<Seq<char>> {
    let base = "dcr-"@ + target;
    if has_sub(target, "-windows-"@) || ends(target, "-windows"@) {
        seq![base, base + ".exe"@]
    } else {
        seq![base]
    }
}

/// The names a release asset for `target` may have (see `asset_names`).
pub fn asset_candidates(target: &str) -> (r: Vec<String>)
    ensures
        views(r@) == asset_names(target@),
{
    let mut base = "dcr-".to_owned();
    base.append(target);
    let mut names = vec![base.clone()];
    if contains_str(target, "-windows-") || ends_with(target, "-windows") {
        let mut exe = base;
        exe.append(".exe");
        names.push(exe);
    }
    assert(views(names@) =~= asset_names(target@));
    names
}

/// The first release asset whose name is one of the candidates.
pub open spec fn first_asset(names: Seq<Seq<char>>, candidates: Seq<Seq<char>>) -> Option<int>
    decreases names.len(),
{
    if names.len() == 0 {
        None
    } else if candidates.contains(names[0]) {
        Some(0)
    } else {
        match first_asset(names.drop_first(), candidates) {
            Some(i) => Some(i + 1),
            None => None,
        }
    }
}

proof fn lemma_first_asset_skip(names: Seq<Seq<char>>, candidates: Seq<Seq<char>>, i: int)
    requires
        0 <= i <= names.len(),
        forall|j: int| 0 <= j < i ==> !candidates.contains(#[trigger] names[j]),
    ensures
        first_asset(names, candidates) == match first_asset(names.skip(i), candidates) {
            Some(k) => Some(k + i),
            None => None::<int>,
        },
    decreases i,
{
    if i == 0 {
        assert(names.skip(0) =~= names);
    } else {
        assert(!candidates.contains(names[0]));
        assert forall|j: int| 0 <= j < i - 1 implies !candidates.contains(#[trigger] names.drop_first()[j]) by {
            assert(names.drop_first()[j] == names[j + 1]);
        }
        assert(names.drop_first().skip(i - 1) =~= names.skip(i));
        lemma_first_asset_skip(names.drop_first(), candidates, i - 1);
    }
}

fn is_candidate(name: &str, candidates: &Vec<String>) -> (r: bool)
    ensures
        r == views(candidates@).contains(name@),
{
    let mut i: usize = 0;
    while i < candidates.len()
        invariant
            i <= candidates@.len(),
            forall|k: int| 0 <= k < i ==> candidates@[k]@ != name@,
        decreases candidates@.len() - i,
    {
        if str_eq(candidates[i].as_str(), name) {
            assert(views(candidates@)[i as int] == name@);
            return true;
        }
        i = i + 1;
    }
    assert(!views(candidates@).contains(name@)) by {
        if views(candidates@).contains(name@) {
            let k = choose|k: int| 0 <= k < views(candidates@).len() && views(candidates@)[k] == name@;
            assert(candidates@[k]@ != name@);
        }
    }
    false
}

/// The release asset for `target` among the assets' names (see `first_asset`).
pub fn pick_asset(names: &Vec<String>, target: &str) -> (r: Option<usize>)
    ensures
        match r {
            Some(i) => first_asset(views(names@), asset_names(target@)) == Some(i as int),
            None => first_asset(views(names@), asset_names(target@)) is None,
        },
{
    let candidates = asset_candidates(target);
    let ghost ns = views(names@);
    let mut i: usize = 0;
    while i < names.len()
        invariant
            i <= names@.len(),
            ns == views(names@),
            views(candidates@) == asset_names(target@),
            forall|k: int| 0 <= k < i ==> !asset_names(target@).contains(#[trigger] ns[k]),
        decreases names@.len() - i,
    {
        if is_candidate(names[i].as_str(), &candidates) {
            proof {
                lemma_first_asset_skip(ns, asset_names(target@), i as int);
                assert(ns.skip(i as int)[0] == ns[i as int]);
            }
            return Some(i);
        }
        i = i + 1;
    }
    proof {
        lemma_first_asset_skip(ns, asset_names(target@), i as int);
        assert(ns.skip(i as int).len() == 0);
    }
    None
}

/// The version a release tag names: the tag without its leading `v`s.
pub fn release_version(tag: &str) -> (r: &str)
    ensures
        r@ == trim_start_matches_seq(tag@, "v"@),
{
    trim_start_matches(tag, "v")
}

/// Where the downloaded binary is put before it replaces the running one: the running
/// binary's path with the extension `new-<stamp>` (`.exe` added on Windows); `stamp` is the
/// time in milliseconds.
pub open spec fn temp_binary_of(current_exe: Seq<char>, stamp: nat, windows: bool) -> Seq<char> {
    with_ext(current_exe, "new-"@ + decimal(stamp) + if windows {
        ".exe"@
    } else {
        Seq::empty()
    })
}

/// Where the downloaded binary is put (see `temp_binary_of`).
pub fn temp_binary_path(current_exe: &str, stamp: u128, windows: bool) -> (r: String)
    ensures
        r@ == temp_binary_of(current_exe@, stamp as nat, windows),
{
    let mut ext = "new-".to_owned();
    push_decimal(&mut ext, stamp);
    if windows {
        ext.append(".exe");
    }
    set_extension(current_exe, ext.as_str())
}

/// The package that owns the binary, from what `pacman -Qoq` answered: its output trimmed,
/// when it succeeded and printed a name.
pub fn pacman_owned_package(succeeded: bool, stdout: &str) -> (r: Option<String>)
    ensures
        match r {
            Some(p) => succeeded && trim_seq(stdout@).len() > 0 && p@ == trim_seq(stdout@),
            None => !succeeded || trim_seq(stdout@).len() == 0,
        },
{
    if !succeeded {
        return None;
    }
    let t = trim(stdout);
    if t.unicode_len() == 0 {
        return None;
    }
    Some(t.to_owned())
}

} // verus!
