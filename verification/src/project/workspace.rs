//! Workspaces: the member projects a root project builds, each after the members it depends on.
use vstd::prelude::*;
use crate::project::config::{value_strings, all_strs, strs_of, Config};
use crate::project::lookup::{cfg_at, target_view};
use crate::project::value::{data_get, key_lt, lemma_key_lt_irreflexive, TomlData, TomlTable, TomlValue};
use crate::utils::build_helpers::{normalize_target_os, target_triple};
use crate::utils::paths::{join, join_path};
use crate::utils::strings::{str_eq, views};

verus! {

/// A member project: its name, where it lives and the members it depends on.
pub struct WorkspaceMember {
    pub name: String,
    pub path: String,
    pub deps: Vec<String>,
}

/// The members of a workspace, each after the members it depends on.
pub struct Workspace {
    pub members: Vec<WorkspaceMember>,
}

/// The `j`-th dependency of member `i`.
pub open spec fn dep_of(ms: Seq<WorkspaceMember>, i: int, j: int) -> Seq<char> {
    ms[i].deps@[j]@
}

/// No two members share a name.
pub open spec fn names_unique(ms: Seq<WorkspaceMember>) -> bool {
    forall|a: int, b: int| 0 <= a < b < ms.len() ==> #[trigger] ms[a].name@ != #[trigger] ms[b].name@
}

/// Some member has this name.
pub open spec fn names_member(ms: Seq<WorkspaceMember>, name: Seq<char>) -> bool {
    exists|k: int| 0 <= k < ms.len() && #[trigger] ms[k].name@ == name
}

/// Every dependency names a member.
pub open spec fn known_deps(ms: Seq<WorkspaceMember>) -> bool {
    forall|i: int, j: int| 0 <= i < ms.len() && 0 <= j < ms[i].deps@.len() ==> names_member(ms, #[trigger] dep_of(ms, i, j))
}

/// Member `i` depends on member `k`.
pub open spec fn depends_on(ms: Seq<WorkspaceMember>, i: int, k: int) -> bool {
    exists|j: int| 0 <= j < ms[i].deps@.len() && #[trigger] dep_of(ms, i, j) == ms[k].name@
}

/// A set of members each of which depends on a member of the set: a dependency cycle runs
/// through it.
pub open spec fn blocked(ms: Seq<WorkspaceMember>, s: Set<int>) -> bool {
    &&& exists|i: int| s.contains(i)
    &&& forall|i: int| #[trigger] s.contains(i) ==> 0 <= i < ms.len() && exists|k: int| s.contains(k) && depends_on(ms, i, k)
}

/// The dependencies of the members run in a cycle.
pub open spec fn cyclic(ms: Seq<WorkspaceMember>) -> bool {
    exists|s: Set<int>| blocked(ms, s)
}

/// `order` lists the members by index, each once.
pub open spec fn is_permutation(order: Seq<int>, n: int) -> bool {
    &&& order.len() == n
    &&& forall|p: int| 0 <= p < n ==> 0 <= #[trigger] order[p] < n
    &&& forall|p: int, q: int| 0 <= p < q < n ==> #[trigger] order[p] != #[trigger] order[q]
}

/// In `order`, every member comes after the members it depends on.
pub open spec fn deps_first(ms: Seq<WorkspaceMember>, order: Seq<int>) -> bool {
    forall|p: int, k: int| 0 <= p < order.len() && 0 <= k < ms.len() && #[trigger] depends_on(ms, order[p], k)
        ==> exists|q: int| 0 <= q < p && #[trigger] order[q] == k
}

/// A member with the same fields.
pub open spec fn same_member(a: WorkspaceMember, b: WorkspaceMember) -> bool {
    a.name@ == b.name@ && a.path@ == b.path@ && views(a.deps@) == views(b.deps@)
}

fn copy_strings(v: &Vec<String>) -> (r: Vec<String>)
    ensures
        views(r@) == views(v@),
{
    let mut out: Vec<String> = Vec::new();
    let mut i: usize = 0;
    while i < v.len()
        invariant
            i <= v@.len(),
            out@ == v@.take(i as int),
        decreases v@.len() - i,
    {
        out.push(v[i].clone());
        assert(out@ =~= v@.take(i + 1));
        i = i + 1;
    }
    assert(out@ =~= v@);
    out
}

fn copy_member(m: &WorkspaceMember) -> (r: WorkspaceMember)
    ensures
        same_member(r, *m),
{
    WorkspaceMember { name: m.name.clone(), path: m.path.clone(), deps: copy_strings(&m.deps) }
}

fn index_of(ms: &Vec<WorkspaceMember>, name: &str) -> (r: Option<usize>)
    ensures
        match r {
            Some(k) => k < ms@.len() && ms@[k as int].name@ == name@,
            None => forall|k: int| 0 <= k < ms@.len() ==> #[trigger] ms@[k].name@ != name@,
        },
{
    let mut k: usize = 0;
    while k < ms.len()
        invariant
            k <= ms@.len(),
            forall|j: int| 0 <= j < k ==> #[trigger] ms@[j].name@ != name@,
        decreases ms@.len() - k,
    {
        if str_eq(ms[k].name.as_str(), name) {
            return Some(k);
        }
        k = k + 1;
    }
    None
}

/// A topological order never meets a blocked set: the first member of the set in the order
/// would depend on a member of the set that comes before it.
proof fn lemma_ordered_not_blocked(ms: Seq<WorkspaceMember>, order: Seq<int>, s: Set<int>)
    requires
        is_permutation(order, ms.len() as int),
        deps_first(ms, order),
    ensures
        !blocked(ms, s),
{
    if blocked(ms, s) {
        assert forall|p: int| 0 <= p < order.len() implies !s.contains(#[trigger] order[p]) by {
            lemma_prefix_outside(ms, order, s, p);
        }
        let i = choose|i: int| s.contains(i);
        assert(0 <= i < ms.len());
        lemma_permutation_covers(order, ms.len() as int, i);
    }
}

proof fn lemma_prefix_outside(ms: Seq<WorkspaceMember>, order: Seq<int>, s: Set<int>, p: int)
    requires
        is_permutation(order, ms.len() as int),
        deps_first(ms, order),
        blocked(ms, s),
        0 <= p < order.len(),
    ensures
        !s.contains(order[p]),
    decreases p,
{
    if s.contains(order[p]) {
        let k = choose|k: int| s.contains(k) && depends_on(ms, order[p], k);
        assert(0 <= k < ms.len());
        let q = choose|q: int| 0 <= q < p && #[trigger] order[q] == k;
        lemma_prefix_outside(ms, order, s, q);
    }
}

proof fn lemma_permutation_covers(order: Seq<int>, n: int, i: int)
    requires
        is_permutation(order, n),
        0 <= i < n,
    ensures
        exists|p: int| 0 <= p < n && order[p] == i,
{
    // the indices of a permutation are n distinct values below n, so each value occurs
    let m = order.to_set();
    assert(order.no_duplicates()) by {
        assert forall|a: int, b: int| 0 <= a < order.len() && 0 <= b < order.len() && a != b implies order[a] != order[b] by {
            if a < b {
            } else {
            }
        }
    }
    order.unique_seq_to_set();
    let r = vstd::set_lib::set_int_range(0, n);
    vstd::set_lib::lemma_int_range(0, n);
    if !m.contains(i) {
        assert(m.subset_of(r.remove(i)));
        vstd::set_lib::lemma_len_subset(m, r.remove(i));
        assert(r.contains(i));
    }
}

/// `dep_idx[a][j]` is the index of the member that the `j`-th dependency of member `a` names.
pub open spec fn dep_index_ok(ms: Seq<WorkspaceMember>, dep_idx: Seq<Vec<usize>>) -> bool {
    &&& dep_idx.len() == ms.len()
    &&& forall|a: int| 0 <= a < ms.len() ==> (#[trigger] dep_idx[a])@.len() == ms[a].deps@.len()
    &&& forall|a: int, j: int| 0 <= a < ms.len() && 0 <= j < ms[a].deps@.len() ==> #[trigger] dep_idx[a]@[j] < ms.len()
        && ms[dep_idx[a]@[j] as int].name@ == dep_of(ms, a, j)
}

/// The message of a dependency that names no member.
pub open spec fn missing_dep_msg(d: Seq<char>) -> Seq<char> {
    "workspace dependency '"@ + d + "' not found"@
}

/// The message of a dependency cycle (`at` names a member that is not yet ordered).
pub open spec fn cycle_msg(at: Seq<char>) -> Seq<char> {
    "workspace dependency cycle at "@ + at
}

/// Finds, for every dependency, the member it names; fails on the first that names none.
fn dep_indices(members: &Vec<WorkspaceMember>) -> (r: Result<Vec<Vec<usize>>, String>)
    ensures
        r is Ok <==> known_deps(members@),
        r matches Ok(di) ==> dep_index_ok(members@, di@),
        r matches Err(m) ==> exists|a: int, j: int| 0 <= a < members@.len() && 0 <= j < members@[a].deps@.len()
            && !names_member(members@, #[trigger] dep_of(members@, a, j)) && m@ == missing_dep_msg(dep_of(members@, a, j)),
{
    let ghost ms = members@;
    let n = members.len();
    let mut dep_idx: Vec<Vec<usize>> = Vec::new();
    let mut i: usize = 0;
    while i < n
        invariant
            ms == members@,
            n == ms.len(),
            i <= n,
            dep_idx@.len() == i,
            forall|a: int| 0 <= a < i ==> (#[trigger] dep_idx@[a])@.len() == ms[a].deps@.len(),
            forall|a: int, j: int| 0 <= a < i && 0 <= j < ms[a].deps@.len() ==> #[trigger] dep_idx@[a]@[j] < n
                && ms[dep_idx@[a]@[j] as int].name@ == dep_of(ms, a, j),
        decreases n - i,
    {
        let mut row: Vec<usize> = Vec::new();
        let mut j: usize = 0;
        while j < members[i].deps.len()
            invariant
                ms == members@,
                n == ms.len(),
                i < n,
                j <= ms[i as int].deps@.len(),
                row@.len() == j,
                forall|j2: int| 0 <= j2 < j ==> #[trigger] row@[j2] < n && ms[row@[j2] as int].name@ == dep_of(ms, i as int, j2),
            decreases ms[i as int].deps@.len() - j,
        {
            match index_of(members, members[i].deps[j].as_str()) {
                Some(k) => {
                    row.push(k);
                },
                None => {
                    assert(!names_member(ms, dep_of(ms, i as int, j as int)));
                    let mut m = "workspace dependency '".to_owned();
                    m.append(members[i].deps[j].as_str());
                    m.append("' not found");
                    assert(m@ == missing_dep_msg(dep_of(ms, i as int, j as int)));
                    return Err(m);
                },
            }
            j = j + 1;
        }
        dep_idx.push(row);
        i = i + 1;
    }
    assert forall|a: int, j: int| 0 <= a < ms.len() && 0 <= j < ms[a].deps@.len() implies names_member(ms, #[trigger] dep_of(ms, a, j)) by {
        let k = dep_idx@[a]@[j] as int;
        assert(ms[k].name@ == dep_of(ms, a, j));
    }
    Ok(dep_idx)
}

/// With unique names, member `a` depends on member `k` exactly when one of its dependency
/// indices is `k`.
proof fn lemma_depends_iff(ms: Seq<WorkspaceMember>, dep_idx: Seq<Vec<usize>>, a: int, k: int)
    requires
        names_unique(ms),
        dep_index_ok(ms, dep_idx),
        0 <= a < ms.len(),
        0 <= k < ms.len(),
    ensures
        depends_on(ms, a, k) <==> exists|j: int| 0 <= j < dep_idx[a]@.len() && #[trigger] dep_idx[a]@[j] == k,
{
    if depends_on(ms, a, k) {
        let j = choose|j: int| 0 <= j < ms[a].deps@.len() && #[trigger] dep_of(ms, a, j) == ms[k].name@;
        let k2 = dep_idx[a]@[j] as int;
        if k2 != k {
            if k2 < k {
                assert(ms[k2].name@ != ms[k].name@);
            } else {
                assert(ms[k].name@ != ms[k2].name@);
            }
        }
        assert(dep_idx[a]@[j] == k);
    }
    if exists|j: int| 0 <= j < dep_idx[a]@.len() && #[trigger] dep_idx[a]@[j] == k {
        let j = choose|j: int| 0 <= j < dep_idx[a]@.len() && #[trigger] dep_idx[a]@[j] == k;
        assert(dep_of(ms, a, j) == ms[k].name@);
    }
}

/// Every member that member `i` depends on is done.
pub open spec fn ready(dep_idx: Seq<Vec<usize>>, done: Seq<bool>, i: int) -> bool {
    forall|j: int| 0 <= j < dep_idx[i]@.len() ==> #[trigger] done[dep_idx[i]@[j] as int]
}

fn is_ready(dep_idx: &Vec<Vec<usize>>, done: &Vec<bool>, i: usize) -> (r: bool)
    requires
        i < dep_idx@.len(),
        forall|j: int| 0 <= j < dep_idx@[i as int]@.len() ==> #[trigger] dep_idx@[i as int]@[j] < done@.len(),
    ensures
        r == ready(dep_idx@, done@, i as int),
{
    let mut j: usize = 0;
    while j < dep_idx[i].len()
        invariant
            i < dep_idx@.len(),
            j <= dep_idx@[i as int]@.len(),
            forall|j2: int| 0 <= j2 < dep_idx@[i as int]@.len() ==> #[trigger] dep_idx@[i as int]@[j2] < done@.len(),
            forall|j2: int| 0 <= j2 < j ==> #[trigger] done@[dep_idx@[i as int]@[j2] as int],
        decreases dep_idx@[i as int]@.len() - j,
    {
        if !done[dep_idx[i][j]] {
            return false;
        }
        j = j + 1;
    }
    true
}

/// The first member that is not done and whose dependencies all are.
fn find_ready(dep_idx: &Vec<Vec<usize>>, done: &Vec<bool>) -> (r: Option<usize>)
    requires
        dep_idx@.len() == done@.len(),
        forall|a: int, j: int| 0 <= a < dep_idx@.len() && 0 <= j < dep_idx@[a]@.len() ==> #[trigger] dep_idx@[a]@[j] < done@.len(),
    ensures
        match r {
            Some(c) => c < done@.len() && !done@[c as int] && ready(dep_idx@, done@, c as int),
            None => forall|a: int| 0 <= a < done@.len() ==> #[trigger] done@[a] || !ready(dep_idx@, done@, a),
        },
{
    let n = done.len();
    let mut c: usize = 0;
    while c < n
        invariant
            n == done@.len(),
            dep_idx@.len() == n,
            forall|a: int, j: int| 0 <= a < dep_idx@.len() && 0 <= j < dep_idx@[a]@.len() ==> #[trigger] dep_idx@[a]@[j] < n,
            c <= n,
            forall|a: int| 0 <= a < c ==> #[trigger] done@[a] || !ready(dep_idx@, done@, a),
        decreases n - c,
    {
        if !done[c] && is_ready(dep_idx, done, c) {
            return Some(c);
        }
        c = c + 1;
    }
    None
}

/// A sequence of distinct indices below `n` that is shorter than `n` misses one of them.
proof fn lemma_short_misses(order: Seq<int>, n: int)
    requires
        order.len() < n,
        forall|p: int| 0 <= p < order.len() ==> 0 <= #[trigger] order[p] < n,
        forall|p: int, q: int| 0 <= p < q < order.len() ==> #[trigger] order[p] != #[trigger] order[q],
    ensures
        exists|i: int| 0 <= i < n && !order.contains(i),
{
    let m = order.to_set();
    assert(order.no_duplicates()) by {
        assert forall|a: int, b: int| 0 <= a < order.len() && 0 <= b < order.len() && a != b implies order[a] != order[b] by {
            if a < b {
            } else {
            }
        }
    }
    order.unique_seq_to_set();
    let r = vstd::set_lib::set_int_range(0, n);
    vstd::set_lib::lemma_int_range(0, n);
    if forall|i: int| 0 <= i < n ==> order.contains(i) {
        assert(r.subset_of(m));
        vstd::set_lib::lemma_len_subset(r, m);
    }
}

/// Every member comes after the members it depends on, by name.
pub open spec fn deps_before(v: Seq<WorkspaceMember>) -> bool {
    forall|p: int, j: int| 0 <= p < v.len() && 0 <= j < v[p].deps@.len() ==> has_earlier(v, p, #[trigger] v[p].deps@[j]@)
}

/// A member before position `p` has the name `d`.
pub open spec fn has_earlier(v: Seq<WorkspaceMember>, p: int, d: Seq<char>) -> bool {
    exists|q: int| 0 <= q < p && #[trigger] v[q].name@ == d
}

proof fn lemma_deps_before(ms: Seq<WorkspaceMember>, order: Seq<int>, v: Seq<WorkspaceMember>)
    requires
        known_deps(ms),
        is_permutation(order, ms.len() as int),
        deps_first(ms, order),
        v.len() == ms.len(),
        forall|p: int| 0 <= p < v.len() ==> same_member(#[trigger] v[p], ms[order[p]]),
    ensures
        deps_before(v),
{
    assert forall|p: int, j: int| 0 <= p < v.len() && 0 <= j < v[p].deps@.len() implies has_earlier(v, p, #[trigger] v[p].deps@[j]@) by {
        let i = order[p];
        assert(0 <= i < ms.len());
        assert(same_member(v[p], ms[i]));
        assert(views(v[p].deps@).len() == v[p].deps@.len());
        assert(views(ms[i].deps@).len() == ms[i].deps@.len());
        assert(views(v[p].deps@)[j] == views(ms[i].deps@)[j]);
        let d = dep_of(ms, i, j);
        assert(d == v[p].deps@[j]@);
        assert(names_member(ms, d));
        let k = choose|k: int| 0 <= k < ms.len() && #[trigger] ms[k].name@ == d;
        assert(depends_on(ms, i, k));
        let q = choose|q: int| 0 <= q < p && #[trigger] order[q] == k;
        assert(same_member(v[q], ms[k]));
        assert(v[q].name@ == v[p].deps@[j]@);
    }
}

/// The indices as integers.
pub open spec fn as_ints(v: Seq<usize>) -> Seq<int> {
    v.map_values(|x: usize| x as int)
}

/// The state of the ordering: `order` holds distinct members, exactly those marked `done`,
/// each after the members it depends on.
pub open spec fn order_state(ms: Seq<WorkspaceMember>, order: Seq<usize>, done: Seq<bool>) -> bool {
    &&& done.len() == ms.len()
    &&& order.len() <= ms.len()
    &&& forall|p: int| 0 <= p < order.len() ==> #[trigger] order[p] < ms.len()
    &&& forall|p: int, q: int| 0 <= p < q < order.len() ==> #[trigger] order[p] != #[trigger] order[q]
    &&& forall|a: int| 0 <= a < ms.len() ==> (#[trigger] done[a] <==> exists|p: int| 0 <= p < order.len() && order[p] == a)
    &&& deps_first(ms, as_ints(order))
}

/// When no member is ready, the members not done form a blocked set.
#[verifier::spinoff_prover]
#[verifier::rlimit(40)]
proof fn lemma_stuck(ms: Seq<WorkspaceMember>, dep_idx: Seq<Vec<usize>>, order: Seq<usize>, done: Seq<bool>)
    requires
        names_unique(ms),
        dep_index_ok(ms, dep_idx),
        order_state(ms, order, done),
        order.len() < ms.len(),
        forall|a: int| 0 <= a < done.len() ==> #[trigger] done[a] || !ready(dep_idx, done, a),
    ensures
        cyclic(ms),
{
    let n = ms.len() as int;
    let ord = as_ints(order);
    lemma_short_misses(ord, n);
    let s = Set::new(|a: int| 0 <= a < n && !done[a]);
    let i0 = choose|i: int| 0 <= i < n && !ord.contains(i);
    if done[i0] {
        let p = choose|p: int| 0 <= p < order.len() && order[p] == i0;
        assert(ord[p] == i0);
    }
    assert(s.contains(i0));
    assert forall|a: int| #[trigger] s.contains(a) implies 0 <= a < ms.len() && exists|k: int| s.contains(k) && depends_on(ms, a, k) by {
        assert(!ready(dep_idx, done, a));
        let j = choose|j: int| 0 <= j < dep_idx[a]@.len() && !#[trigger] done[dep_idx[a]@[j] as int];
        let k = dep_idx[a]@[j] as int;
        assert(s.contains(k));
        lemma_depends_iff(ms, dep_idx, a, k);
    }
    assert(blocked(ms, s));
}

/// Taking a ready member keeps the ordering state.
proof fn lemma_take(ms: Seq<WorkspaceMember>, dep_idx: Seq<Vec<usize>>, order: Seq<usize>, done: Seq<bool>, c: usize)
    requires
        names_unique(ms),
        dep_index_ok(ms, dep_idx),
        order_state(ms, order, done),
        order.len() < ms.len(),
        c < ms.len(),
        !done[c as int],
        ready(dep_idx, done, c as int),
    ensures
        order_state(ms, order.push(c), done.update(c as int, true)),
{
    let n = ms.len() as int;
    let no = order.push(c);
    let nd = done.update(c as int, true);
    assert forall|a: int| 0 <= a < n implies (#[trigger] nd[a] <==> exists|p: int| 0 <= p < no.len() && no[p] == a) by {
        if a == c {
            assert(no[order.len() as int] == c);
        } else if done[a] {
            let p = choose|p: int| 0 <= p < order.len() && order[p] == a;
            assert(no[p] == a);
        } else {
            if exists|p: int| 0 <= p < no.len() && no[p] == a {
                let p = choose|p: int| 0 <= p < no.len() && no[p] == a;
                assert(p < order.len());
                assert(order[p] == a);
            }
        }
    }
    assert forall|p: int, q: int| 0 <= p < q < no.len() implies #[trigger] no[p] != #[trigger] no[q] by {
        if q == order.len() {
            if no[p] == c {
                assert(order[p] == c);
                assert(done[c as int]);
            }
        } else {
            assert(no[p] == order[p] && no[q] == order[q]);
        }
    }
    let ord = as_ints(order);
    let nord = as_ints(no);
    assert forall|p: int, k: int| 0 <= p < nord.len() && 0 <= k < n && #[trigger] depends_on(ms, nord[p], k) implies exists|q: int| 0 <= q < p && #[trigger] nord[q] == k by {
        if p < order.len() {
            assert(nord[p] == ord[p]);
            let q = choose|q: int| 0 <= q < p && #[trigger] ord[q] == k;
            assert(nord[q] == k);
        } else {
            assert(nord[p] == c);
            lemma_depends_iff(ms, dep_idx, c as int, k);
            let j = choose|j: int| 0 <= j < dep_idx[c as int]@.len() && #[trigger] dep_idx[c as int]@[j] == k;
            assert(done[dep_idx[c as int]@[j] as int]);
            let q = choose|q: int| 0 <= q < order.len() && order[q] == k;
            assert(nord[q] == k);
        }
    }
    assert(deps_first(ms, as_ints(no)));
    assert(forall|p: int| 0 <= p < no.len() ==> #[trigger] no[p] < ms.len());
    assert(nd.len() == ms.len());
}

/// Orders the members so that each comes after the members it depends on. Fails when a
/// dependency names no member (the message names such a dependency), or when the
/// dependencies run in a cycle (the message names a member left unordered).
pub fn topo_sort(members: &Vec<WorkspaceMember>) -> (r: Result<Vec<WorkspaceMember>, String>)
    requires
        names_unique(members@),
    ensures
        r is Ok <==> known_deps(members@) && !cyclic(members@),
        r matches Ok(v) ==> exists|order: Seq<int>| #[trigger] is_permutation(order, members@.len() as int)
            && deps_first(members@, order) && v@.len() == members@.len() && forall|p: int| 0 <= p < v@.len()
            ==> same_member(#[trigger] v@[p], members@[order[p]]),
        r matches Ok(v) ==> deps_before(v@),
        r matches Err(m) ==> if known_deps(members@) {
            m@ == cycle_msg(Seq::empty()) || exists|k: int| 0 <= k < members@.len() && m@ == cycle_msg(#[trigger] members@[k].name@)
        } else {
            exists|a: int, j: int| 0 <= a < members@.len() && 0 <= j < members@[a].deps@.len() && !names_member(
                members@,
                #[trigger] dep_of(members@, a, j),
            ) && m@ == missing_dep_msg(dep_of(members@, a, j))
        },
{
    let ghost ms = members@;
    let n = members.len();
    let dep_idx = match dep_indices(members) {
        Ok(d) => d,
        Err(m) => return Err(m),
    };
    let mut done: Vec<bool> = Vec::new();
    let mut z: usize = 0;
    while z < n
        invariant
            z <= n,
            done@.len() == z,
            forall|a: int| 0 <= a < z ==> !#[trigger] done@[a],
        decreases n - z,
    {
        done.push(false);
        z = z + 1;
    }
    let mut order: Vec<usize> = Vec::new();
    assert(as_ints(order@) =~= Seq::<int>::empty());
    while order.len() < n
        invariant
            ms == members@,
            n == ms.len(),
            names_unique(ms),
            known_deps(ms),
            dep_index_ok(ms, dep_idx@),
            order_state(ms, order@, done@),
        decreases n - order@.len(),
    {
        match find_ready(&dep_idx, &done) {
            None => {
                proof { lemma_stuck(ms, dep_idx@, order@, done@); }
                let mut first: usize = 0;
                while first < n && done[first]
                    invariant
                        first <= n,
                        done@.len() == n,
                    decreases n - first,
                {
                    first = first + 1;
                }
                let mut m = "workspace dependency cycle at ".to_owned();
                if first < n {
                    m.append(members[first].name.as_str());
                    assert(m@ == cycle_msg(ms[first as int].name@));
                } else {
                    assert(m@ =~= cycle_msg(Seq::empty()));
                }
                return Err(m);
            },
            Some(c) => {
                proof { lemma_take(ms, dep_idx@, order@, done@, c); }
                done.set(c, true);
                order.push(c);
            },
        }
    }
    let ghost ord = as_ints(order@);
    let mut out: Vec<WorkspaceMember> = Vec::new();
    let mut p: usize = 0;
    while p < n
        invariant
            ms == members@,
            n == ms.len(),
            order@.len() == n,
            forall|q: int| 0 <= q < order@.len() ==> #[trigger] order@[q] < n,
            ord == as_ints(order@),
            p <= n,
            out@.len() == p,
            forall|q: int| 0 <= q < p ==> same_member(#[trigger] out@[q], ms[ord[q]]),
        decreases n - p,
    {
        out.push(copy_member(&members[order[p]]));
        p = p + 1;
    }
    proof {
        assert(is_permutation(ord, n as int));
        assert forall|s: Set<int>| !blocked(ms, s) by {
            lemma_ordered_not_blocked(ms, ord, s);
        }
        lemma_deps_before(ms, ord, out@);
    }
    Ok(out)
}

/// The keys a workspace table is looked up under, most specific first.
pub open spec fn workspace_keys(profile: Seq<char>, target: Option<Seq<char>>) -> Seq<Seq<char>> {
    let w = "workspace."@;
    match target {
        Some(t) => {
            let nt = target_triple(t);
            seq![w + nt + "."@ + profile, w + profile + "."@ + nt, w + nt, w + profile, "workspace"@]
        },
        None => seq![w + profile, "workspace"@],
    }
}

/// The first of `keys` whose value is a table.
pub open spec fn first_table(d: TomlData, keys: Seq<Seq<char>>) -> Option<Seq<(Seq<char>, TomlData)>>
    decreases keys.len(),
{
    if keys.len() == 0 {
        None
    } else {
        match cfg_at(d, keys[0]) {
            Some(TomlData::Table(t)) => Some(t),
            _ => first_table(d, keys.drop_first()),
        }
    }
}

fn workspace_lookup_keys(profile: &str, target: Option<&str>) -> (r: Vec<String>)
    ensures
        views(r@) == workspace_keys(profile@, target_view(target)),
{
    let mut keys: Vec<String> = Vec::new();
    if let Some(t) = target {
        let nt = normalize_target_os(t);
        let mut k1 = "workspace.".to_owned();
        k1.append(nt);
        k1.append(".");
        k1.append(profile);
        let mut k2 = "workspace.".to_owned();
        k2.append(profile);
        k2.append(".");
        k2.append(nt);
        let mut k3 = "workspace.".to_owned();
        k3.append(nt);
        keys.push(k1);
        keys.push(k2);
        keys.push(k3);
    }
    let mut k4 = "workspace.".to_owned();
    k4.append(profile);
    keys.push(k4);
    keys.push("workspace".to_owned());
    assert(views(keys@) =~= workspace_keys(profile@, target_view(target)));
    keys
}

/// The workspace table for a profile and target: the first key that holds a table.
pub fn workspace_table<'a>(config: &'a Config, profile: &str, target: Option<&str>) -> (r: Option<&'a TomlTable>)
    ensures
        match r {
            Some(t) => first_table(config.doc(), workspace_keys(profile@, target_view(target))) == Some(t.data()),
            None => first_table(config.doc(), workspace_keys(profile@, target_view(target))) is None,
        },
{
    let keys = workspace_lookup_keys(profile, target);
    let ghost ks = views(keys@);
    let mut i: usize = 0;
    assert(ks.skip(0) =~= ks);
    while i < keys.len()
        invariant
            ks == views(keys@),
            ks == workspace_keys(profile@, target_view(target)),
            i <= keys@.len(),
            first_table(config.doc(), ks) == first_table(config.doc(), ks.skip(i as int)),
        decreases keys@.len() - i,
    {
        assert(ks.skip(i as int).drop_first() =~= ks.skip(i + 1));
        assert(ks.skip(i as int)[0] == keys@[i as int]@);
        if let Some(v) = config.get(keys[i].as_str()) {
            if let Some(t) = v.as_table() {
                return Some(t);
            }
        }
        i = i + 1;
    }
    None
}

/// A member read from a workspace entry: a table with a string `path` (resolved against the
/// root) and `deps`, an array of strings (none when missing).
pub open spec fn member_entry(e: (Seq<char>, TomlData), root: Seq<char>) -> Option<(Seq<char>, Seq<char>, Seq<Seq<char>>)> {
    match e.1 {
        TomlData::Table(t) => match data_get(t, "path"@) {
            Some(TomlData::Str(p)) => match data_get(t, "deps"@) {
                None => Some((e.0, join_path(root, p), Seq::empty())),
                Some(TomlData::Array(a)) => if all_strs(a) {
                    Some((e.0, join_path(root, p), strs_of(a)))
                } else {
                    None
                },
                Some(_) => None,
            },
            _ => None,
        },
        _ => None,
    }
}

/// The view of a member.
pub open spec fn member_view(m: WorkspaceMember) -> (Seq<char>, Seq<char>, Seq<Seq<char>>) {
    (m.name@, m.path@, views(m.deps@))
}

/// Some entry of the table reads as member `m`.
pub open spec fn entry_for(t: Seq<(Seq<char>, TomlData)>, root: Seq<char>, m: WorkspaceMember) -> bool {
    exists|i: int| 0 <= i < t.len() && #[trigger] member_entry(t[i], root) == Some(member_view(m))
}

/// The members came from the workspace table `t`: one per entry, each read from an entry whose
/// directory has a `dcr.toml`, each after the members it depends on.
pub open spec fn members_from(t: Seq<(Seq<char>, TomlData)>, root: Seq<char>, has_manifest: Seq<bool>, v: Seq<WorkspaceMember>) -> bool {
    &&& v.len() == t.len()
    &&& deps_before(v)
    &&& forall|p: int| 0 <= p < v.len() ==> entry_for(t, root, #[trigger] v[p])
    &&& forall|i: int| 0 <= i < t.len() ==> i < has_manifest.len() && #[trigger] has_manifest[i]
}

/// Some entry of the workspace table does not read as a member, or its directory has no
/// `dcr.toml`.
pub open spec fn bad_entry(t: Seq<(Seq<char>, TomlData)>, root: Seq<char>, has_manifest: Seq<bool>) -> bool {
    exists|i: int| 0 <= i < t.len() && (#[trigger] member_entry(t[i], root) is None || !(i < has_manifest.len() && has_manifest[i]))
}

/// The members read from the entries, in order, name a dependency that is no member or depend
/// on each other in a cycle.
pub open spec fn bad_deps(t: Seq<(Seq<char>, TomlData)>, root: Seq<char>) -> bool {
    exists|ms: Seq<WorkspaceMember>| #![trigger known_deps(ms)]
        ms.len() == t.len() && (forall|i: int| 0 <= i < t.len() ==> member_entry(t[i], root) == Some(member_view(#[trigger] ms[i])))
            && (!known_deps(ms) || cyclic(ms))
}

/// What is wrong with a workspace entry, as the error says it, checked in this order: it is
/// no table; it has no string `path`; its directory (`manifest` tells) has no `dcr.toml`; its
/// `deps` is no array of strings.
pub open spec fn entry_error(e: (Seq<char>, TomlData), root: Seq<char>, manifest: bool) -> Option<Seq<char>> {
    match e.1 {
        TomlData::Table(t) => match data_get(t, "path"@) {
            Some(TomlData::Str(p)) => if !manifest {
                Some("workspace."@ + e.0 + ".path does not contain dcr.toml: "@ + join_path(root, p))
            } else {
                match data_get(t, "deps"@) {
                    None => None,
                    Some(TomlData::Array(a)) => if all_strs(a) {
                        None
                    } else {
                        Some("workspace deps must be an array of strings"@)
                    },
                    Some(_) => Some("workspace deps must be an array of strings"@),
                }
            },
            _ => Some("workspace."@ + e.0 + ".path is required"@),
        },
        _ => Some("workspace."@ + e.0 + " must be a table with path and deps"@),
    }
}

/// The error of the first faulty entry from the `i`-th on (see `entry_error`).
pub open spec fn entries_error(t: Seq<(Seq<char>, TomlData)>, root: Seq<char>, has_manifest: Seq<bool>, i: int) -> Option<Seq<char>>
    decreases t.len() - i,
{
    if i < 0 || i >= t.len() {
        None
    } else {
        match entry_error(t[i], root, i < has_manifest.len() && has_manifest[i]) {
            Some(m) => Some(m),
            None => entries_error(t, root, has_manifest, i + 1),
        }
    }
}

/// Members whose names and dependencies read the same.
pub open spec fn same_views(a: Seq<WorkspaceMember>, b: Seq<WorkspaceMember>) -> bool {
    &&& a.len() == b.len()
    &&& forall|i: int| 0 <= i < a.len() ==> member_view(#[trigger] a[i]) == member_view(b[i])
}

proof fn lemma_same_at(a: Seq<WorkspaceMember>, b: Seq<WorkspaceMember>, i: int)
    requires
        same_views(a, b),
        0 <= i < a.len(),
    ensures
        a[i].name@ == b[i].name@,
        a[i].deps@.len() == b[i].deps@.len(),
        forall|j: int| 0 <= j < a[i].deps@.len() ==> #[trigger] dep_of(a, i, j) == dep_of(b, i, j),
{
    assert(member_view(a[i]) == member_view(b[i]));
    assert(views(a[i].deps@).len() == views(b[i].deps@).len());
    assert forall|j: int| 0 <= j < a[i].deps@.len() implies #[trigger] dep_of(a, i, j) == dep_of(b, i, j) by {
        assert(views(a[i].deps@)[j] == views(b[i].deps@)[j]);
    }
}

proof fn lemma_same_known(a: Seq<WorkspaceMember>, b: Seq<WorkspaceMember>)
    requires
        same_views(a, b),
        known_deps(a),
    ensures
        known_deps(b),
{
    assert forall|i: int, j: int| 0 <= i < b.len() && 0 <= j < b[i].deps@.len() implies names_member(b, #[trigger] dep_of(b, i, j)) by {
        lemma_same_at(a, b, i);
        assert(dep_of(a, i, j) == dep_of(b, i, j));
        assert(names_member(a, dep_of(a, i, j)));
        let k = choose|k: int| 0 <= k < a.len() && #[trigger] a[k].name@ == dep_of(a, i, j);
        lemma_same_at(a, b, k);
    }
}

proof fn lemma_same_depends(a: Seq<WorkspaceMember>, b: Seq<WorkspaceMember>, i: int, k: int)
    requires
        same_views(a, b),
        0 <= i < a.len(),
        0 <= k < a.len(),
        depends_on(a, i, k),
    ensures
        depends_on(b, i, k),
{
    let j = choose|j: int| 0 <= j < a[i].deps@.len() && #[trigger] dep_of(a, i, j) == a[k].name@;
    lemma_same_at(a, b, i);
    lemma_same_at(a, b, k);
    assert(dep_of(b, i, j) == b[k].name@);
}

/// Every dependency between members of `a` holds between the members of `b` at the same places.
pub open spec fn depends_within(a: Seq<WorkspaceMember>, b: Seq<WorkspaceMember>) -> bool {
    &&& a.len() == b.len()
    &&& forall|i: int, k: int| 0 <= i < a.len() && 0 <= k < a.len() && #[trigger] depends_on(a, i, k) ==> depends_on(b, i, k)
}

proof fn lemma_same_depends_all(a: Seq<WorkspaceMember>, b: Seq<WorkspaceMember>)
    requires
        same_views(a, b),
    ensures
        depends_within(a, b),
{
    assert forall|i: int, k: int| 0 <= i < a.len() && 0 <= k < a.len() && #[trigger] depends_on(a, i, k) implies depends_on(b, i, k) by {
        lemma_same_depends(a, b, i, k);
    }
}

/// The symmetric of `same_views`.
proof fn lemma_same_views_sym(a: Seq<WorkspaceMember>, b: Seq<WorkspaceMember>)
    requires
        same_views(a, b),
    ensures
        same_views(b, a),
{
    assert forall|i: int| 0 <= i < b.len() implies member_view(#[trigger] b[i]) == member_view(a[i]) by {
        assert(member_view(a[i]) == member_view(b[i]));
    }
}

/// Members read from every entry leave no faulty entry.
proof fn lemma_no_bad_entry(t: Seq<(Seq<char>, TomlData)>, root: Seq<char>, has_manifest: Seq<bool>, ms: Seq<WorkspaceMember>)
    requires
        ms.len() == t.len(),
        forall|a: int| 0 <= a < t.len() ==> member_entry(t[a], root) == Some(member_view(#[trigger] ms[a])),
        forall|a: int| 0 <= a < t.len() ==> a < has_manifest.len() && #[trigger] has_manifest[a],
    ensures
        !bad_entry(t, root, has_manifest),
{
    assert forall|i: int| 0 <= i < t.len() implies !(#[trigger] member_entry(t[i], root) is None || !(i < has_manifest.len() && has_manifest[i])) by {
        assert(member_entry(t[i], root) == Some(member_view(ms[i])));
        assert(has_manifest[i]);
    }
}

/// Members read from every entry, with known dependencies and an order that puts each after
/// the members it depends on, leave the dependencies sound: any members read from the entries
/// have the same dependencies, so the same order serves them.
proof fn lemma_not_bad_deps(t: Seq<(Seq<char>, TomlData)>, root: Seq<char>, ms: Seq<WorkspaceMember>, order: Seq<int>)
    requires
        ms.len() == t.len(),
        forall|a: int| 0 <= a < t.len() ==> member_entry(t[a], root) == Some(member_view(#[trigger] ms[a])),
        known_deps(ms),
        is_permutation(order, ms.len() as int),
        deps_first(ms, order),
    ensures
        !bad_deps(t, root),
{
    if bad_deps(t, root) {
        let other = choose|o: Seq<WorkspaceMember>| #![trigger known_deps(o)]
            o.len() == t.len() && (forall|i: int| 0 <= i < t.len() ==> member_entry(t[i], root) == Some(member_view(#[trigger] o[i])))
                && (!known_deps(o) || cyclic(o));
        assert forall|i: int| 0 <= i < ms.len() implies member_view(#[trigger] ms[i]) == member_view(other[i]) by {
            assert(member_entry(t[i], root) == Some(member_view(other[i])));
            assert(member_entry(t[i], root) == Some(member_view(ms[i])));
        }
        assert(same_views(ms, other));
        lemma_same_known(ms, other);
        lemma_same_views_sym(ms, other);
        lemma_same_depends_all(other, ms);
        assert forall|p: int, k: int| 0 <= p < order.len() && 0 <= k < other.len() && #[trigger] depends_on(other, order[p], k)
            implies exists|q: int| 0 <= q < p && #[trigger] order[q] == k by {
            assert(depends_on(ms, order[p], k));
        }
        assert forall|s: Set<int>| !blocked(other, s) by {
            lemma_ordered_not_blocked(other, order, s);
        }
    }
}

/// The members of a workspace: the workspace table for the profile and target (none when there
/// is no such table), each entry a member whose directory holds a `dcr.toml` (`has_manifest[i]`
/// tells whether the `i`-th entry's does), ordered so that each member comes after the members
/// it depends on. Fails on a malformed entry, a missing `dcr.toml`, a dependency that names no
/// member, or a dependency cycle.
#[verifier::rlimit(30)]
pub fn parse_workspace(config: &Config, profile: &str, target: Option<&str>, root: &str, has_manifest: &Vec<bool>) -> (r: Result<Option<Workspace>, String>)
    ensures
        (r matches Ok(None)) <==> first_table(config.doc(), workspace_keys(profile@, target_view(target))) is None,
        r matches Ok(Some(ws)) ==> members_from(first_table(config.doc(), workspace_keys(profile@, target_view(target)))->0, root@, has_manifest@, ws.members@),
        r is Err ==> (first_table(config.doc(), workspace_keys(profile@, target_view(target))) matches Some(t) && (bad_entry(
            t,
            root@,
            has_manifest@,
        ) || bad_deps(t, root@))),
        first_table(config.doc(), workspace_keys(profile@, target_view(target))) matches Some(t) ==> match entries_error(
            t,
            root@,
            has_manifest@,
            0,
        ) {
            Some(m) => r matches Err(e) && e@ == m,
            None => !bad_entry(t, root@, has_manifest@) && (r is Err <==> bad_deps(t, root@)),
        },
{
    let table = match workspace_table(config, profile, target) {
        Some(t) => t,
        None => {
            return Ok(None);
        },
    };
    let ghost td = table.data();
    let keys = table.keys();
    let n = table.len();
    let mut members: Vec<WorkspaceMember> = Vec::new();
    let mut i: usize = 0;
    while i < n
        invariant
            n == td.len(),
            td == table.data(),
            first_table(config.doc(), workspace_keys(profile@, target_view(target))) == Some(td),
            keys@.len() == n,
            forall|a: int| 0 <= a < n ==> #[trigger] keys@[a]@ == td[a].0,
            forall|a: int, b: int| 0 <= a < b < n ==> key_lt(#[trigger] keys@[a]@, #[trigger] keys@[b]@),
            i <= n,
            members@.len() == i,
            forall|a: int| 0 <= a < i ==> member_entry(td[a], root@) == Some(member_view(#[trigger] members@[a])),
            forall|a: int| 0 <= a < i ==> #[trigger] members@[a].name@ == td[a].0,
            forall|a: int| 0 <= a < i ==> a < has_manifest@.len() && #[trigger] has_manifest@[a],
            i == 0 || i <= has_manifest@.len(),
            entries_error(td, root@, has_manifest@, 0) == entries_error(td, root@, has_manifest@, i as int),
        decreases n - i,
    {
        let (name, value) = table.entry(i);
        let tbl = match value.as_table() {
            Some(t) => t,
            None => {
                assert(member_entry(td[i as int], root@) is None);
                let mut m = "workspace.".to_owned();
                m.append(name.as_str());
                m.append(" must be a table with path and deps");
                assert(entries_error(td, root@, has_manifest@, i as int) == Some(m@));
                return Err(m);
            },
        };
        let raw = match tbl.get("path") {
            Some(v) => match v.as_str() {
                Some(s) => s,
                None => {
                    assert(member_entry(td[i as int], root@) is None);
                    let mut m = "workspace.".to_owned();
                    m.append(name.as_str());
                    m.append(".path is required");
                    assert(entries_error(td, root@, has_manifest@, i as int) == Some(m@));
                    return Err(m);
                },
            },
            None => {
                assert(member_entry(td[i as int], root@) is None);
                let mut m = "workspace.".to_owned();
                m.append(name.as_str());
                m.append(".path is required");
                assert(entries_error(td, root@, has_manifest@, i as int) == Some(m@));
                return Err(m);
            },
        };
        let path = join(root, raw);
        if i >= has_manifest.len() || !has_manifest[i] {
            assert(!(i < has_manifest@.len() && has_manifest@[i as int]));
            let mut m = "workspace.".to_owned();
            m.append(name.as_str());
            m.append(".path does not contain dcr.toml: ");
            m.append(path.as_str());
            assert(entries_error(td, root@, has_manifest@, i as int) == Some(m@));
            return Err(m);
        }
        let deps: Vec<String> = match tbl.get("deps") {
            None => {
                let v: Vec<String> = Vec::new();
                assert(views(v@) =~= Seq::<Seq<char>>::empty());
                v
            },
            Some(dv) => match value_strings(dv) {
                Some(v) => v,
                None => {
                    assert(member_entry(td[i as int], root@) is None);
                    let m = "workspace deps must be an array of strings".to_owned();
                    assert(entries_error(td, root@, has_manifest@, i as int) == Some(m@));
                    return Err(m);
                },
            },
        };
        members.push(WorkspaceMember { name: name.clone(), path, deps });
        assert(entry_error(td[i as int], root@, i < has_manifest@.len() && has_manifest@[i as int]) is None);
        assert(entries_error(td, root@, has_manifest@, i as int) == entries_error(td, root@, has_manifest@, i + 1));
        i = i + 1;
    }
    assert(entries_error(td, root@, has_manifest@, i as int) is None);
    proof { lemma_no_bad_entry(td, root@, has_manifest@, members@); }
    proof {
        assert forall|a: int, b: int| 0 <= a < b < members@.len() implies #[trigger] members@[a].name@ != #[trigger] members@[b].name@ by {
            assert(key_lt(keys@[a]@, keys@[b]@));
            lemma_key_lt_irreflexive(keys@[a]@);
        }
    }
    let sorted = match topo_sort(&members) {
        Ok(v) => v,
        Err(e) => {
            proof {
                assert(members@.len() == td.len());
                assert(forall|a: int| 0 <= a < td.len() ==> member_entry(td[a], root@) == Some(member_view(#[trigger] members@[a])));
                assert(!known_deps(members@) || cyclic(members@));
                assert(bad_deps(td, root@));
            }
            return Err(e);
        },
    };
    proof {
        let ord = choose|order: Seq<int>| #[trigger] is_permutation(order, members@.len() as int)
            && deps_first(members@, order) && sorted@.len() == members@.len() && forall|p: int| 0 <= p < sorted@.len()
            ==> same_member(#[trigger] sorted@[p], members@[order[p]]);
        assert forall|p: int| 0 <= p < sorted@.len() implies entry_for(td, root@, #[trigger] sorted@[p]) by {
            let k = ord[p];
            assert(0 <= k < members@.len());
            assert(same_member(sorted@[p], members@[k]));
            assert(member_view(sorted@[p]) == member_view(members@[k]));
            assert(member_entry(td[k], root@) == Some(member_view(members@[k])));
        }
        assert(sorted@.len() == td.len());
        assert(deps_before(sorted@));
        assert(forall|i: int| 0 <= i < td.len() ==> i < has_manifest@.len() && #[trigger] has_manifest@[i]);
        assert(first_table(config.doc(), workspace_keys(profile@, target_view(target))) == Some(td));
        assert(sorted@.len() == td.len());
        assert(deps_before(sorted@));
        assert(forall|i: int| 0 <= i < td.len() ==> i < has_manifest@.len() && #[trigger] has_manifest@[i]);
        assert(members_from(td, root@, has_manifest@, sorted@));
        lemma_not_bad_deps(td, root@, members@, ord);
    }
    let ws = Workspace { members: sorted };
    assert(members_from(td, root@, has_manifest@, ws.members@));
    Ok(Some(ws))
}

} // verus!
