//! Character-level string operations with their specifications.
//!
//! Strings are viewed as sequences of Unicode scalar values (`Seq<char>`).
use vstd::prelude::*;

verus! {

broadcast use vstd::string::group_string_axioms;

/// The Unicode `White_Space` property, the set that `char::is_whitespace` tests.
pub open spec fn is_ws(c: char) -> bool {
    let u = c as u32;
    (0x9 <= u && u <= 0xd) || u == 0x20 || u == 0x85 || u == 0xa0 || u == 0x1680
        || (0x2000 <= u && u <= 0x200a) || u == 0x2028 || u == 0x2029 || u == 0x202f
        || u == 0x205f || u == 0x3000
}

/// `s` with its leading white space removed.
pub open spec fn trim_start_seq(s: Seq<char>) -> Seq<char>
    decreases s.len(),
{
    if s.len() > 0 && is_ws(s[0]) {
        trim_start_seq(s.drop_first())
    } else {
        s
    }
}

/// `s` with its trailing white space removed.
pub open spec fn trim_end_seq(s: Seq<char>) -> Seq<char>
    decreases s.len(),
{
    if s.len() > 0 && is_ws(s.last()) {
        trim_end_seq(s.drop_last())
    } else {
        s
    }
}

/// `s` with leading and trailing white space removed.
pub open spec fn trim_seq(s: Seq<char>) -> Seq<char> {
    trim_end_seq(trim_start_seq(s))
}

/// `p` is a prefix of `s`.
pub open spec fn starts(s: Seq<char>, p: Seq<char>) -> bool {
    p.len() <= s.len() && s.subrange(0, p.len() as int) == p
}

/// `p` is a suffix of `s`.
pub open spec fn ends(s: Seq<char>, p: Seq<char>) -> bool {
    p.len() <= s.len() && s.subrange(s.len() - p.len(), s.len() as int) == p
}

/// `needle` occurs in `s` at position `i`.
pub open spec fn occurs_at(s: Seq<char>, needle: Seq<char>, i: int) -> bool {
    0 <= i && i + needle.len() <= s.len() && s.subrange(i, i + needle.len()) == needle
}

/// `needle` occurs somewhere in `s`.
pub open spec fn has_sub(s: Seq<char>, needle: Seq<char>) -> bool {
    exists|i: int| occurs_at(s, needle, i)
}

/// Every non-overlapping occurrence of `from` in `s`, scanned left to right, replaced by `to`.
pub open spec fn replace_seq(s: Seq<char>, from: Seq<char>, to: Seq<char>) -> Seq<char>
    decreases s.len(),
{
    if s.len() == 0 || from.len() == 0 {
        s
    } else if starts(s, from) {
        to + replace_seq(s.subrange(from.len() as int, s.len() as int), from, to)
    } else {
        seq![s[0]] + replace_seq(s.drop_first(), from, to)
    }
}

/// The pieces of `s` between the occurrences of `sep` (there is always at least one piece).
pub open spec fn split_seq(s: Seq<char>, sep: char) -> Seq<Seq<char>>
    decreases s.len(),
{
    if s.len() == 0 {
        seq![Seq::<char>::empty()]
    } else {
        let init = split_seq(s.drop_last(), sep);
        if s.last() == sep {
            init.push(Seq::<char>::empty())
        } else {
            init.update(init.len() - 1, init.last().push(s.last()))
        }
    }
}

/// There is always at least one piece.
pub proof fn lemma_split_nonempty(s: Seq<char>, c: char)
    ensures
        split_seq(s, c).len() > 0,
    decreases s.len(),
{
    if s.len() > 0 {
        lemma_split_nonempty(s.drop_last(), c);
    }
}

/// A string without the separator is one piece.
pub proof fn lemma_split_plain(s: Seq<char>, c: char)
    requires
        !s.contains(c),
    ensures
        split_seq(s, c) == seq![s],
    decreases s.len(),
{
    if s.len() > 0 {
        assert(!s.drop_last().contains(c)) by {
            if s.drop_last().contains(c) {
                let i = choose|i: int| 0 <= i < s.drop_last().len() && s.drop_last()[i] == c;
                assert(s[i] == c);
            }
        }
        lemma_split_plain(s.drop_last(), c);
        assert(s.last() != c) by {
            assert(s[s.len() - 1] == s.last());
        }
        assert(Seq::<char>::empty().push(s.last()) =~= seq![s.last()]);
        assert(s.drop_last().push(s.last()) =~= s);
        assert(split_seq(s, c) =~= seq![s]);
    } else {
        assert(s =~= Seq::<char>::empty());
    }
}

/// Splitting `a`, the separator, `b` gives the pieces of `a` then those of `b`.
pub proof fn lemma_split_join(a: Seq<char>, b: Seq<char>, c: char)
    ensures
        split_seq(a + seq![c] + b, c) == split_seq(a, c) + split_seq(b, c),
    decreases b.len(),
{
    let s = a + seq![c] + b;
    if b.len() == 0 {
        assert(s.drop_last() =~= a);
        assert(s.last() == c);
        assert(split_seq(b, c) =~= seq![Seq::<char>::empty()]);
        assert(split_seq(s, c) =~= split_seq(a, c) + split_seq(b, c));
    } else {
        let b0 = b.drop_last();
        assert(s.drop_last() =~= a + seq![c] + b0);
        assert(s.last() == b.last());
        lemma_split_join(a, b0, c);
        lemma_split_nonempty(b0, c);
        lemma_split_nonempty(a, c);
        let x = split_seq(a, c);
        let y = split_seq(b0, c);
        if b.last() == c {
            assert(split_seq(s, c) =~= (x + y).push(Seq::<char>::empty()));
            assert(split_seq(b, c) =~= y.push(Seq::<char>::empty()));
            assert((x + y).push(Seq::<char>::empty()) =~= x + y.push(Seq::<char>::empty()));
        } else {
            assert((x + y).last() == y.last());
            assert((x + y).update((x + y).len() - 1, (x + y).last().push(b.last())) =~= x + y.update(
                y.len() - 1,
                y.last().push(b.last()),
            ));
        }
    }
}

/// The index of the first occurrence of `c` in `s`, if any.
pub open spec fn find_char(s: Seq<char>, c: char) -> Option<int>
    decreases s.len(),
{
    if s.len() == 0 {
        None
    } else if s[0] == c {
        Some(0)
    } else {
        match find_char(s.drop_first(), c) {
            Some(i) => Some(i + 1),
            None => None,
        }
    }
}

/// The elements of `parts` with `sep` between each two of them.
pub open spec fn join_seq(parts: Seq<Seq<char>>, sep: Seq<char>) -> Seq<char>
    decreases parts.len(),
{
    if parts.len() == 0 {
        Seq::empty()
    } else if parts.len() == 1 {
        parts[0]
    } else {
        join_seq(parts.drop_last(), sep) + sep + parts.last()
    }
}

/// A join of parts ends with the last part, after the join of the others and a separator.
pub proof fn lemma_join_last(parts: Seq<Seq<char>>, sep: Seq<char>)
    requires
        parts.len() > 0,
    ensures
        join_seq(parts, sep) == (if parts.len() == 1 {
            Seq::<char>::empty()
        } else {
            join_seq(parts.drop_last(), sep) + sep
        }) + parts.last(),
{
    if parts.len() == 1 {
        assert(Seq::<char>::empty() + parts.last() =~= parts[0]);
    } else {
        assert(join_seq(parts.drop_last(), sep) + sep + parts.last() =~= (join_seq(parts.drop_last(), sep) + sep) + parts.last());
    }
}

/// A join of parts begins with the first part.
pub proof fn lemma_join_first(parts: Seq<Seq<char>>, sep: Seq<char>)
    requires
        parts.len() > 0,
    ensures
        starts(join_seq(parts, sep), parts[0]),
    decreases parts.len(),
{
    if parts.len() > 1 {
        lemma_join_first(parts.drop_last(), sep);
        assert(parts.drop_last()[0] == parts[0]);
        let j = join_seq(parts.drop_last(), sep);
        assert(join_seq(parts, sep) == j + sep + parts.last());
        assert((j + sep + parts.last()).subrange(0, parts[0].len() as int) =~= j.subrange(0, parts[0].len() as int));
    } else {
        assert(join_seq(parts, sep) == parts[0]);
        assert(parts[0].subrange(0, parts[0].len() as int) =~= parts[0]);
    }
}

/// Joining a part in front of other parts puts it and a separator before their join.
pub proof fn lemma_join_cons(x: Seq<char>, parts: Seq<Seq<char>>, sep: Seq<char>)
    requires
        parts.len() > 0,
    ensures
        join_seq(seq![x] + parts, sep) == x + sep + join_seq(parts, sep),
    decreases parts.len(),
{
    let whole = seq![x] + parts;
    assert(whole.drop_last() =~= seq![x] + parts.drop_last());
    if parts.len() == 1 {
        assert(seq![x].len() == 1);
        assert(join_seq(seq![x], sep) == x);
        assert(whole.drop_last() =~= seq![x]);
    } else {
        lemma_join_cons(x, parts.drop_last(), sep);
        assert(join_seq(whole, sep) =~= x + sep + join_seq(parts, sep));
    }
}

/// In a join, every part is followed by the separator and the next part.
pub proof fn lemma_join_adjacent(parts: Seq<Seq<char>>, sep: Seq<char>, k: int)
    requires
        0 <= k,
        k + 1 < parts.len(),
    ensures
        has_sub(join_seq(parts, sep), parts[k] + sep + parts[k + 1]),
    decreases parts.len(),
{
    let dl = parts.drop_last();
    let full = join_seq(parts, sep);
    let needle = parts[k] + sep + parts[k + 1];
    assert(full == join_seq(dl, sep) + sep + parts.last());
    if k + 1 == parts.len() - 1 {
        lemma_join_last(dl, sep);
        let pre = if dl.len() == 1 {
            Seq::<char>::empty()
        } else {
            join_seq(dl.drop_last(), sep) + sep
        };
        assert(dl.last() == parts[k]);
        assert(full =~= pre + needle);
        assert(occurs_at(full, needle, pre.len() as int)) by {
            assert(full.subrange(pre.len() as int, (pre.len() + needle.len()) as int) =~= needle);
        }
    } else {
        lemma_join_adjacent(dl, sep, k);
        assert(dl[k] == parts[k] && dl[k + 1] == parts[k + 1]);
        let i = choose|i: int| occurs_at(join_seq(dl, sep), needle, i);
        assert(full.subrange(i, i + needle.len()) =~= join_seq(dl, sep).subrange(i, i + needle.len()));
        assert(occurs_at(full, needle, i));
    }
}

/// The views of a sequence of strings.
pub open spec fn views(v: Seq<String>) -> Seq<Seq<char>> {
    v.map_values(|s: String| s@)
}

/// `s` with every leading copy of `pat` removed (nothing is removed for an empty `pat`).
pub open spec fn trim_start_matches_seq(s: Seq<char>, pat: Seq<char>) -> Seq<char>
    decreases s.len(),
{
    if pat.len() > 0 && starts(s, pat) {
        trim_start_matches_seq(s.subrange(pat.len() as int, s.len() as int), pat)
    } else {
        s
    }
}

/// `s` with every trailing `c` removed.
pub open spec fn trim_end_char_seq(s: Seq<char>, c: char) -> Seq<char>
    decreases s.len(),
{
    if s.len() > 0 && s.last() == c {
        trim_end_char_seq(s.drop_last(), c)
    } else {
        s
    }
}

/// Appends one character to a string (`String::push`).
#[verifier::external_body]
pub fn push_char(s: &mut String, c: char)
    ensures
        final(s)@ == old(s)@.push(c),
{
    s.push(c);
}

/// The characters of `s`.
pub fn chars_of(s: &str) -> (v: Vec<char>)
    ensures
        v@ == s@,
{
    let mut v: Vec<char> = Vec::new();
    for c in it: s.chars()
        invariant
            v@ == it.seq().take(it.index() as int),
            it.seq() == s@,
    {
        v.push(c);
    }
    v
}

/// A new string holding `t`.
pub fn owned(t: &str) -> (s: String)
    ensures
        s@ == t@,
{
    t.to_owned()
}

/// The string made of the characters `v[from..to]`.
pub fn string_of_range(v: &Vec<char>, from: usize, to: usize) -> (s: String)
    requires
        from <= to <= v.len(),
    ensures
        s@ == v@.subrange(from as int, to as int),
{
    let mut s = String::new();
    let mut i = from;
    while i < to
        invariant
            from <= i <= to <= v.len(),
            s@ == v@.subrange(from as int, i as int),
        decreases to - i,
    {
        push_char(&mut s, v[i]);
        i = i + 1;
        assert(s@ =~= v@.subrange(from as int, i as int));
    }
    s
}

/// Whether two strings hold the same characters.
pub fn str_eq(a: &str, b: &str) -> (r: bool)
    ensures
        r == (a@ == b@),
{
    let va = chars_of(a);
    let vb = chars_of(b);
    if va.len() != vb.len() {
        return false;
    }
    let mut i: usize = 0;
    while i < va.len()
        invariant
            va@ == a@,
            vb@ == b@,
            va.len() == vb.len(),
            i <= va.len(),
            forall|j: int| 0 <= j < i ==> va@[j] == vb@[j],
        decreases va.len() - i,
    {
        if va[i] != vb[i] {
            return false;
        }
        i = i + 1;
    }
    assert(va@ =~= vb@);
    true
}

/// Whether `v[at..]` begins with `p`.
pub fn chars_start_at(v: &Vec<char>, at: usize, p: &Vec<char>) -> (r: bool)
    requires
        at <= v.len(),
    ensures
        r == occurs_at(v@, p@, at as int),
{
    if p.len() > v.len() - at {
        return false;
    }
    let mut i: usize = 0;
    while i < p.len()
        invariant
            at + p.len() <= v.len(),
            i <= p.len(),
            forall|j: int| 0 <= j < i ==> v@[at + j] == p@[j],
        decreases p.len() - i,
    {
        if v[at + i] != p[i] {
            assert(v@.subrange(at as int, at + p.len())[i as int] != p@[i as int]);
            return false;
        }
        i = i + 1;
    }
    assert(v@.subrange(at as int, at + p.len()) =~= p@);
    true
}

/// Whether `s` begins with `p`.
pub fn starts_with(s: &str, p: &str) -> (r: bool)
    ensures
        r == starts(s@, p@),
{
    let v = chars_of(s);
    let w = chars_of(p);
    chars_start_at(&v, 0, &w)
}

/// Whether `s` ends with `p`.
pub fn ends_with(s: &str, p: &str) -> (r: bool)
    ensures
        r == ends(s@, p@),
{
    let v = chars_of(s);
    let w = chars_of(p);
    if w.len() > v.len() {
        return false;
    }
    chars_start_at(&v, v.len() - w.len(), &w)
}

/// Whether `c` occurs in `s`.
pub fn contains_char(s: &str, c: char) -> (r: bool)
    ensures
        r == s@.contains(c),
{
    let v = chars_of(s);
    let mut i: usize = 0;
    while i < v.len()
        invariant
            v@ == s@,
            i <= v.len(),
            forall|j: int| 0 <= j < i ==> v@[j] != c,
        decreases v.len() - i,
    {
        if v[i] == c {
            return true;
        }
        i = i + 1;
    }
    false
}

/// Whether `needle` occurs in `s`.
pub fn contains_str(s: &str, needle: &str) -> (r: bool)
    ensures
        r == has_sub(s@, needle@),
{
    let v = chars_of(s);
    let w = chars_of(needle);
    let mut i: usize = 0;
    while i < v.len()
        invariant
            v@ == s@,
            w@ == needle@,
            i <= v.len(),
            forall|j: int| 0 <= j < i ==> !occurs_at(s@, needle@, j),
        decreases v.len() - i,
    {
        if chars_start_at(&v, i, &w) {
            return true;
        }
        i = i + 1;
    }
    if chars_start_at(&v, i, &w) {
        return true;
    }
    assert forall|j: int| !occurs_at(s@, needle@, j) by {
        if 0 <= j && j + needle@.len() <= s@.len() {
            assert(j <= i);
        }
    }
    false
}

/// `s` without the prefix `p`, or `None` when `s` does not begin with `p`.
pub fn strip_prefix<'a>(s: &'a str, p: &str) -> (r: Option<&'a str>)
    ensures
        r is Some <==> starts(s@, p@),
        r matches Some(t) ==> t@ == s@.subrange(p@.len() as int, s@.len() as int),
{
    if starts_with(s, p) {
        let n = s.unicode_len();
        let k = p.unicode_len();
        Some(s.substring_char(k, n))
    } else {
        None
    }
}

/// Whether the character is white space (`char::is_whitespace`).
pub fn is_whitespace(c: char) -> (r: bool)
    ensures
        r == is_ws(c),
{
    let u = c as u32;
    (0x9 <= u && u <= 0xd) || u == 0x20 || u == 0x85 || u == 0xa0 || u == 0x1680
        || (0x2000 <= u && u <= 0x200a) || u == 0x2028 || u == 0x2029 || u == 0x202f
        || u == 0x205f || u == 0x3000
}

proof fn lemma_trim_start_step(s: Seq<char>, i: int)
    requires
        0 <= i < s.len(),
        is_ws(s[i]),
    ensures
        trim_start_seq(s.subrange(i, s.len() as int)) == trim_start_seq(s.subrange(i + 1, s.len() as int)),
{
    assert(s.subrange(i, s.len() as int).drop_first() =~= s.subrange(i + 1, s.len() as int));
}

proof fn lemma_trim_end_step(s: Seq<char>, a: int, j: int)
    requires
        0 <= a < j <= s.len(),
        is_ws(s[j - 1]),
    ensures
        trim_end_seq(s.subrange(a, j)) == trim_end_seq(s.subrange(a, j - 1)),
{
    assert(s.subrange(a, j).drop_last() =~= s.subrange(a, j - 1));
}

/// `s` without leading and trailing white space (`str::trim`).
pub fn trim(s: &str) -> (r: &str)
    ensures
        r@ == trim_seq(s@),
{
    let v = chars_of(s);
    let n = v.len();
    let mut i: usize = 0;
    assert(s@.subrange(0, n as int) =~= s@);
    while i < n && is_whitespace(v[i])
        invariant
            v@ == s@,
            n == v.len(),
            i <= n,
            trim_start_seq(s@) == trim_start_seq(s@.subrange(i as int, n as int)),
        decreases n - i,
    {
        proof { lemma_trim_start_step(s@, i as int); }
        i = i + 1;
    }
    assert(trim_start_seq(s@.subrange(i as int, n as int)) == s@.subrange(i as int, n as int));
    let mut j: usize = n;
    while j > i && is_whitespace(v[j - 1])
        invariant
            v@ == s@,
            n == v.len(),
            i <= j <= n,
            trim_seq(s@) == trim_end_seq(s@.subrange(i as int, j as int)),
        decreases j,
    {
        proof { lemma_trim_end_step(s@, i as int, j as int); }
        j = j - 1;
    }
    assert(trim_end_seq(s@.subrange(i as int, j as int)) == s@.subrange(i as int, j as int));
    s.substring_char(i, j)
}

/// `s` without leading white space (`str::trim_start`).
pub fn trim_start(s: &str) -> (r: &str)
    ensures
        r@ == trim_start_seq(s@),
{
    let v = chars_of(s);
    let n = v.len();
    let mut i: usize = 0;
    assert(s@.subrange(0, n as int) =~= s@);
    while i < n && is_whitespace(v[i])
        invariant
            v@ == s@,
            n == v.len(),
            i <= n,
            trim_start_seq(s@) == trim_start_seq(s@.subrange(i as int, n as int)),
        decreases n - i,
    {
        proof { lemma_trim_start_step(s@, i as int); }
        i = i + 1;
    }
    assert(trim_start_seq(s@.subrange(i as int, n as int)) == s@.subrange(i as int, n as int));
    s.substring_char(i, n)
}

/// `s` without trailing white space (`str::trim_end`).
pub fn trim_end(s: &str) -> (r: &str)
    ensures
        r@ == trim_end_seq(s@),
{
    let v = chars_of(s);
    let n = v.len();
    let mut j: usize = n;
    assert(s@.subrange(0, n as int) =~= s@);
    while j > 0 && is_whitespace(v[j - 1])
        invariant
            v@ == s@,
            n == v.len(),
            j <= n,
            trim_end_seq(s@) == trim_end_seq(s@.subrange(0, j as int)),
        decreases j,
    {
        proof { lemma_trim_end_step(s@, 0, j as int); }
        j = j - 1;
    }
    assert(trim_end_seq(s@.subrange(0, j as int)) == s@.subrange(0, j as int));
    s.substring_char(0, j)
}

/// Whether `s` holds only white space (or nothing), that is, whether `trim(s)` is empty.
pub fn is_blank(s: &str) -> (r: bool)
    ensures
        r == (trim_seq(s@).len() == 0),
{
    let t = trim(s);
    t.unicode_len() == 0
}


proof fn lemma_replace_step(s: Seq<char>, from: Seq<char>, to: Seq<char>, i: int)
    requires
        0 <= i < s.len(),
        from.len() > 0,
    ensures
        occurs_at(s, from, i) ==> replace_seq(s.subrange(i, s.len() as int), from, to) == to
            + replace_seq(s.subrange(i + from.len(), s.len() as int), from, to),
        !occurs_at(s, from, i) ==> replace_seq(s.subrange(i, s.len() as int), from, to) == seq![
            s[i],
        ] + replace_seq(s.subrange(i + 1, s.len() as int), from, to),
{
    let t = s.subrange(i, s.len() as int);
    assert(t.subrange(0, from.len() as int) =~= s.subrange(i, i + from.len()) || from.len() > t.len());
    if occurs_at(s, from, i) {
        assert(t.subrange(from.len() as int, t.len() as int) =~= s.subrange(i + from.len(), s.len() as int));
    } else {
        assert(t.drop_first() =~= s.subrange(i + 1, s.len() as int));
    }
}

/// `s` with every non-overlapping occurrence of `from` replaced by `to` (`str::replace`).
pub fn replace(s: &str, from: &str, to: &str) -> (r: String)
    requires
        from@.len() > 0,
    ensures
        r@ == replace_seq(s@, from@, to@),
{
    let v = chars_of(s);
    let w = chars_of(from);
    let n = v.len();
    let mut out = String::new();
    let mut i: usize = 0;
    assert(s@.subrange(0, n as int) =~= s@);
    while i < n
        invariant
            v@ == s@,
            w@ == from@,
            n == v.len(),
            from@.len() > 0,
            i <= n,
            out@ + replace_seq(s@.subrange(i as int, n as int), from@, to@) == replace_seq(s@, from@, to@),
        decreases n - i,
    {
        proof { lemma_replace_step(s@, from@, to@, i as int); }
        if chars_start_at(&v, i, &w) {
            let ghost prev = out@;
            out.append(to);
            assert(out@ + replace_seq(s@.subrange(i + w.len(), n as int), from@, to@)
                =~= prev + (to@ + replace_seq(s@.subrange(i + w.len(), n as int), from@, to@)));
            i = i + w.len();
        } else {
            let ghost prev = out@;
            push_char(&mut out, v[i]);
            assert(out@ + replace_seq(s@.subrange(i + 1, n as int), from@, to@)
                =~= prev + (seq![v@[i as int]] + replace_seq(s@.subrange(i + 1, n as int), from@, to@)));
            i = i + 1;
        }
    }
    assert(s@.subrange(n as int, n as int) =~= Seq::<char>::empty());
    assert(out@ + Seq::<char>::empty() =~= out@);
    out
}

proof fn lemma_views_push(v: Seq<String>, x: String)
    ensures
        views(v.push(x)) == views(v).push(x@),
{
    assert(views(v.push(x)) =~= views(v).push(x@));
}

/// The pieces of `s` between occurrences of `sep` (`str::split` with a character).
pub fn split_char(s: &str, sep: char) -> (r: Vec<String>)
    ensures
        views(r@) == split_seq(s@, sep),
{
    let v = chars_of(s);
    let n = v.len();
    let mut pieces: Vec<String> = Vec::new();
    let mut cur = String::new();
    let mut i: usize = 0;
    assert(views(pieces@).push(cur@) =~= split_seq(s@.take(0), sep)) by {
        assert(s@.take(0) =~= Seq::<char>::empty());
    }
    while i < n
        invariant
            v@ == s@,
            n == v.len(),
            i <= n,
            views(pieces@).push(cur@) == split_seq(s@.take(i as int), sep),
        decreases n - i,
    {
        let c = v[i];
        assert(s@.take(i + 1).drop_last() =~= s@.take(i as int));
        assert(s@.take(i + 1).last() == c);
        if c == sep {
            proof { lemma_views_push(pieces@, cur); }
            pieces.push(cur);
            cur = String::new();
            assert(views(pieces@).push(cur@) =~= split_seq(s@.take(i + 1), sep));
        } else {
            let ghost prev = cur@;
            push_char(&mut cur, c);
            assert(views(pieces@).push(cur@) =~= split_seq(s@.take(i + 1), sep));
        }
        i = i + 1;
    }
    assert(s@.take(n as int) =~= s@);
    proof { lemma_views_push(pieces@, cur); }
    pieces.push(cur);
    pieces
}

proof fn lemma_find_char_prefix(s: Seq<char>, c: char, i: int)
    requires
        0 <= i <= s.len(),
        forall|j: int| 0 <= j < i ==> s[j] != c,
    ensures
        i < s.len() && s[i] == c ==> find_char(s, c) == Some(i),
        i == s.len() ==> find_char(s, c) is None,
    decreases i,
{
    if i > 0 {
        lemma_find_char_prefix(s.drop_first(), c, i - 1);
    } else if s.len() > 0 {
    }
}

/// The position of the first `c` in `s`, counted in characters.
pub fn find_char_index(s: &str, c: char) -> (r: Option<usize>)
    ensures
        r matches Some(i) ==> find_char(s@, c) == Some(i as int) && i < s@.len() && s@[i as int] == c,
        r is None ==> find_char(s@, c) is None,
        r is None <==> !s@.contains(c),
{
    let v = chars_of(s);
    let mut i: usize = 0;
    while i < v.len()
        invariant
            v@ == s@,
            i <= v.len(),
            forall|j: int| 0 <= j < i ==> s@[j] != c,
        decreases v.len() - i,
    {
        if v[i] == c {
            proof { lemma_find_char_prefix(s@, c, i as int); }
            return Some(i);
        }
        i = i + 1;
    }
    proof { lemma_find_char_prefix(s@, c, i as int); }
    None
}

/// `s` split at the first `c` (`str::split_once` with a character).
pub fn split_once_char(s: &str, c: char) -> (r: Option<(String, String)>)
    ensures
        r is None <==> !s@.contains(c),
        r is None ==> find_char(s@, c) is None,
        r matches Some(p) ==> exists|k: int| find_char(s@, c) == Some(k) && p.0@ == s@.subrange(0, k)
            && p.1@ == s@.subrange(k + 1, s@.len() as int),
{
    match find_char_index(s, c) {
        Some(k) => {
            let v = chars_of(s);
            let a = string_of_range(&v, 0, k);
            let b = string_of_range(&v, k + 1, v.len());
            Some((a, b))
        },
        None => None,
    }
}

/// The strings of `parts` joined with `sep` (`[String]::join`).
pub fn join(parts: &Vec<String>, sep: &str) -> (r: String)
    ensures
        r@ == join_seq(views(parts@), sep@),
{
    let mut out = String::new();
    let mut i: usize = 0;
    while i < parts.len()
        invariant
            i <= parts.len(),
            out@ == join_seq(views(parts@).take(i as int), sep@),
        decreases parts.len() - i,
    {
        let ghost t = views(parts@).take(i + 1);
        assert(t.drop_last() =~= views(parts@).take(i as int));
        if i > 0 {
            out.append(sep);
        }
        out.append(parts[i].as_str());
        proof {
            if i == 0 {
                assert(t.len() == 1);
                assert(out@ =~= t[0]);
            } else {
                assert(out@ =~= join_seq(t.drop_last(), sep@) + sep@ + t.last());
            }
        }
        i = i + 1;
    }
    assert(views(parts@).take(parts.len() as int) =~= views(parts@));
    out
}

/// `s` with every leading copy of `pat` removed (`str::trim_start_matches` with a string).
pub fn trim_start_matches<'a>(s: &'a str, pat: &str) -> (r: &'a str)
    ensures
        r@ == trim_start_matches_seq(s@, pat@),
{
    let v = chars_of(s);
    let w = chars_of(pat);
    let n = v.len();
    if w.len() == 0 {
        return s.substring_char(0, n);
    }
    let mut i: usize = 0;
    assert(s@.subrange(0, n as int) =~= s@);
    while i < n && chars_start_at(&v, i, &w)
        invariant
            v@ == s@,
            w@ == pat@,
            n == v.len(),
            w.len() > 0,
            i <= n,
            trim_start_matches_seq(s@, pat@) == trim_start_matches_seq(s@.subrange(i as int, n as int), pat@),
        decreases n - i,
    {
        let ghost t = s@.subrange(i as int, n as int);
        assert(t.subrange(0, pat@.len() as int) =~= s@.subrange(i as int, i + pat@.len()));
        assert(t.subrange(pat@.len() as int, t.len() as int) =~= s@.subrange(i + w.len(), n as int));
        i = i + w.len();
    }
    proof {
        let t = s@.subrange(i as int, n as int);
        if i < n {
            if starts(t, pat@) {
                assert(t.subrange(0, pat@.len() as int) =~= s@.subrange(i as int, i + pat@.len()));
            }
        } else {
            assert(t.len() == 0);
        }
    }
    s.substring_char(i, n)
}

/// `s` with every trailing `c` removed (`str::trim_end_matches` with a character).
pub fn trim_end_char<'a>(s: &'a str, c: char) -> (r: &'a str)
    ensures
        r@ == trim_end_char_seq(s@, c),
{
    let v = chars_of(s);
    let n = v.len();
    let mut j: usize = n;
    assert(s@.subrange(0, n as int) =~= s@);
    while j > 0 && v[j - 1] == c
        invariant
            v@ == s@,
            n == v.len(),
            j <= n,
            trim_end_char_seq(s@, c) == trim_end_char_seq(s@.subrange(0, j as int), c),
        decreases j,
    {
        assert(s@.subrange(0, j as int).drop_last() =~= s@.subrange(0, j - 1));
        j = j - 1;
    }
    s.substring_char(0, j)
}


/// An ASCII letter.
pub open spec fn is_ascii_alpha(c: char) -> bool {
    ('a' as u32 <= c as u32 && c as u32 <= 'z' as u32) || ('A' as u32 <= c as u32 && c as u32 <= 'Z' as u32)
}

/// An ASCII letter or digit.
pub open spec fn is_ascii_alnum(c: char) -> bool {
    is_ascii_alpha(c) || ('0' as u32 <= c as u32 && c as u32 <= '9' as u32)
}

/// A character below U+0080.
pub open spec fn is_ascii_char(c: char) -> bool {
    (c as u32) < 0x80
}

/// The ASCII lower-case form of a character (other characters unchanged).
pub open spec fn ascii_lower(c: char) -> char {
    if 'A' as u32 <= c as u32 && c as u32 <= 'Z' as u32 {
        ((c as u32) + 32) as char
    } else {
        c
    }
}

/// The general category `Cc` (control codes), the set that `char::is_control` tests.
pub open spec fn is_control_char(c: char) -> bool {
    (c as u32) <= 0x1f || (0x7f <= (c as u32) && (c as u32) <= 0x9f)
}

/// Whether the character is an ASCII letter (`char::is_ascii_alphabetic`).
pub fn is_ascii_alphabetic(c: char) -> (r: bool)
    ensures
        r == is_ascii_alpha(c),
{
    let u = c as u32;
    ('a' as u32 <= u && u <= 'z' as u32) || ('A' as u32 <= u && u <= 'Z' as u32)
}

/// Whether the character is an ASCII letter or digit (`char::is_ascii_alphanumeric`).
pub fn is_ascii_alphanumeric(c: char) -> (r: bool)
    ensures
        r == is_ascii_alnum(c),
{
    let u = c as u32;
    ('a' as u32 <= u && u <= 'z' as u32) || ('A' as u32 <= u && u <= 'Z' as u32) || ('0' as u32 <= u
        && u <= '9' as u32)
}

/// Whether the character is a control code (`char::is_control`).
pub fn is_control(c: char) -> (r: bool)
    ensures
        r == is_control_char(c),
{
    let u = c as u32;
    u <= 0x1f || (0x7f <= u && u <= 0x9f)
}

/// What `str::to_lowercase` makes of a string (the Unicode lower-case mapping).
pub uninterp spec fn lowercase_of(s: Seq<char>) -> Seq<char>;

/// What `char::is_alphanumeric` says of a character (Unicode `Alphabetic` or `Numeric`).
pub uninterp spec fn alphanumeric(c: char) -> bool;

/// The lower-case form of `s`, by `str::to_lowercase`.
///
/// Trusted: the result is the Unicode lower-case mapping of `s`, which is named and not written
/// out; of a string made only of ASCII characters it is the ASCII lower-case form, character by
/// character, as the standard library documents and implements it.
#[verifier::external_body]
pub fn to_lowercase(s: &str) -> (r: String)
    ensures
        r@ == lowercase_of(s@),
        (forall|i: int| 0 <= i < s@.len() ==> is_ascii_char(#[trigger] s@[i])) ==> r@ == s@.map_values(
            |c: char| ascii_lower(c),
        ),
{
    s.to_lowercase()
}

/// Whether the character is alphabetic or numeric, by `char::is_alphanumeric`.
///
/// Trusted: the Unicode tables are named, not written out; on ASCII characters the answer is
/// that of `is_ascii_alphanumeric`, as the standard library documents.
#[verifier::external_body]
pub fn is_alphanumeric(c: char) -> (r: bool)
    ensures
        r == alphanumeric(c),
        is_ascii_char(c) ==> r == is_ascii_alnum(c),
{
    c.is_alphanumeric()
}

/// A hexadecimal digit in lower case.
pub open spec fn hex_digit(d: u8) -> char
    recommends
        d < 16,
{
    if d < 10 {
        (('0' as u32) + d) as char
    } else {
        (('a' as u32) + d - 10) as char
    }
}

/// A number in decimal.
pub open spec fn decimal(n: nat) -> Seq<char>
    decreases n,
{
    if n < 10 {
        seq![hex_digit(n as u8)]
    } else {
        decimal(n / 10).push(hex_digit((n % 10) as u8))
    }
}

/// Appends a number in decimal.
pub fn push_decimal(out: &mut String, n: u128)
    ensures
        final(out)@ == old(out)@ + decimal(n as nat),
    decreases n,
{
    if n >= 10 {
        push_decimal(out, n / 10);
    }
    let d = (n % 10) as u8;
    push_char(out, hex_char(d));
    assert(final(out)@ =~= old(out)@ + decimal(n as nat));
}

/// Two lower-case hexadecimal digits per byte.
pub open spec fn hex_seq(bytes: Seq<u8>) -> Seq<char>
    decreases bytes.len(),
{
    if bytes.len() == 0 {
        Seq::empty()
    } else {
        hex_seq(bytes.drop_last()) + seq![hex_digit(bytes.last() / 16), hex_digit(bytes.last() % 16)]
    }
}

pub fn hex_char(d: u8) -> (c: char)
    requires
        d < 16,
    ensures
        c == hex_digit(d),
{
    match d {
        0 => '0',
        1 => '1',
        2 => '2',
        3 => '3',
        4 => '4',
        5 => '5',
        6 => '6',
        7 => '7',
        8 => '8',
        9 => '9',
        10 => 'a',
        11 => 'b',
        12 => 'c',
        13 => 'd',
        14 => 'e',
        _ => 'f',
    }
}

/// The bytes written as lower-case hexadecimal, two digits each (`format!("{:02x}")` per byte).
pub fn to_hex(bytes: &[u8]) -> (r: String)
    ensures
        r@ == hex_seq(bytes@),
{
    let mut out = String::new();
    let mut i: usize = 0;
    while i < bytes.len()
        invariant
            i <= bytes.len(),
            out@ == hex_seq(bytes@.take(i as int)),
        decreases bytes.len() - i,
    {
        let b = bytes[i];
        assert(bytes@.take(i + 1).drop_last() =~= bytes@.take(i as int));
        push_char(&mut out, hex_char(b / 16));
        push_char(&mut out, hex_char(b % 16));
        assert(out@ =~= hex_seq(bytes@.take(i + 1)));
        i = i + 1;
    }
    assert(bytes@.take(bytes.len() as int) =~= bytes@);
    out
}

/// A line without its trailing carriage return.
pub open spec fn strip_cr(l: Seq<char>) -> Seq<char> {
    if l.len() > 0 && l.last() == '\r' {
        l.drop_last()
    } else {
        l
    }
}

/// The lines of `s` (`str::lines`): split at `\n`, without a final empty line, each without a
/// trailing `\r`.
pub open spec fn lines_seq(s: Seq<char>) -> Seq<Seq<char>> {
    let pieces = split_seq(s, '\n');
    let kept = if pieces.last().len() == 0 {
        pieces.drop_last()
    } else {
        pieces
    };
    kept.map_values(|l: Seq<char>| strip_cr(l))
}

/// The lines of `s` (see `lines_seq`).
pub fn lines(s: &str) -> (r: Vec<String>)
    ensures
        views(r@) == lines_seq(s@),
{
    let pieces = split_char(s, '\n');
    let ghost ps = views(pieces@);
    proof { lemma_split_len(s@, '\n'); }
    let n = if pieces[pieces.len() - 1].unicode_len() == 0 {
        pieces.len() - 1
    } else {
        pieces.len()
    };
    let ghost kept = if ps.last().len() == 0 {
        ps.drop_last()
    } else {
        ps
    };
    assert(kept.len() == n);
    let mut out: Vec<String> = Vec::new();
    let mut i: usize = 0;
    while i < n
        invariant
            ps == views(pieces@),
            n <= pieces@.len(),
            kept.len() == n,
            forall|j: int| 0 <= j < n ==> #[trigger] kept[j] == ps[j],
            i <= n,
            views(out@) == kept.map_values(|l: Seq<char>| strip_cr(l)).take(i as int),
        decreases n - i,
    {
        let p = pieces[i].as_str();
        let len = p.unicode_len();
        let line = if len > 0 && p.get_char(len - 1) == '\r' {
            p.substring_char(0, len - 1).to_owned()
        } else {
            p.to_owned()
        };
        proof {
            if len > 0 {
                assert(p@.drop_last() =~= p@.subrange(0, len - 1));
            }
        }
        let ghost prev = out@;
        out.push(line);
        assert(views(out@) =~= views(prev).push(strip_cr(ps[i as int])));
        assert(kept.map_values(|l: Seq<char>| strip_cr(l)).take(i + 1) =~= kept.map_values(|l: Seq<char>| strip_cr(l)).take(
            i as int,
        ).push(strip_cr(kept[i as int])));
        i = i + 1;
    }
    assert(kept.map_values(|l: Seq<char>| strip_cr(l)).take(i as int) =~= kept.map_values(|l: Seq<char>| strip_cr(l)));
    out
}

/// A split has at least one piece.
pub proof fn lemma_split_len(s: Seq<char>, c: char)
    ensures
        split_seq(s, c).len() > 0,
    decreases s.len(),
{
    if s.len() > 0 {
        lemma_split_len(s.drop_last(), c);
    }
}

} // verus!
