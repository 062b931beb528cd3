//! Source collection, object paths and dependency (`.d`) files shared by the build backends.
use vstd::prelude::*;
use crate::utils::paths::{
    normal_parts, last_index, comps, components, is_abs, is_absolute, join, join_path, path_starts, path_starts_with, set_extension, strip_base,
    strip_base_path, with_ext,
};
use crate::utils::sort::{key_leq, sort_strings};
use crate::utils::strings::{
    lemma_join_cons, lemma_split_join, lemma_split_plain, lowercase_of, to_lowercase, str_eq, chars_of, is_ascii_alpha, is_ascii_alphabetic, is_blank, is_whitespace, is_ws, join_seq, push_char, replace,
    replace_seq, split_seq, starts, starts_with, trim, trim_end_char, trim_end_char_seq, trim_seq, trim_start_matches,
    trim_start_matches_seq, views,
};

verus! {

/// Number of bytes of a character in UTF-8.
pub open spec fn utf8_len(c: char) -> nat {
    if (c as u32) < 0x80 {
        1
    } else if (c as u32) < 0x800 {
        2
    } else if (c as u32) < 0x10000 {
        3
    } else {
        4
    }
}

/// Number of UTF-8 bytes of a sequence of characters.
pub open spec fn utf8_bytes(s: Seq<char>) -> nat
    decreases s.len(),
{
    if s.len() == 0 {
        0
    } else {
        utf8_bytes(s.drop_last()) + utf8_len(s.last())
    }
}

/// The colon that ends the target of a make rule, searched from position `j`: the first `:`
/// that is not the drive colon of a Windows path (`C:\` or `C:/` at the very start).
pub open spec fn rule_colon_from(t: Seq<char>, j: int) -> Option<int>
    decreases t.len() - j,
{
    if j < 0 || j >= t.len() {
        None
    } else if t[j] == ':' && !(j == 1 && is_ascii_alpha(t[0]) && j + 1 < t.len() && (t[j + 1] == '\\'
        || t[j + 1] == '/')) {
        Some(j)
    } else {
        rule_colon_from(t, j + 1)
    }
}

/// The text of a dependency file with its line continuations joined.
pub open spec fn d_joined(content: Seq<char>) -> Seq<char> {
    replace_seq(replace_seq(content, seq!['\\', '\n'], seq![' ']), seq!['\\', '\r', '\n'], seq![' '])
}

/// The byte offset where the prerequisite list starts: one past the rule colon, taken as a
/// byte offset into the text, or 0 when there is no rule colon.
pub open spec fn d_target_end(t: Seq<char>) -> int {
    match rule_colon_from(t, 0) {
        Some(i) => i + 1,
        None => 0,
    }
}

/// Tokenizer state after a prefix of the prerequisite list: finished paths, the path being
/// read, and whether the previous character was an escaping backslash.
pub open spec fn d_scan(s: Seq<char>) -> (Seq<Seq<char>>, Seq<char>, bool)
    decreases s.len(),
{
    if s.len() == 0 {
        (Seq::empty(), Seq::empty(), false)
    } else {
        let (deps, cur, esc) = d_scan(s.drop_last());
        let c = s.last();
        if esc {
            if c != '\n' && c != '\r' {
                (deps, cur.push(c), false)
            } else {
                (deps, cur, false)
            }
        } else if c == '\\' {
            (deps, cur, true)
        } else if is_ws(c) {
            if cur.len() > 0 {
                (deps.push(cur), Seq::empty(), false)
            } else {
                (deps, cur, false)
            }
        } else {
            (deps, cur.push(c), false)
        }
    }
}

/// The paths of a prerequisite list: white space separates them, a backslash escapes the next
/// character (an escaped line break is dropped).
pub open spec fn d_tokens(s: Seq<char>) -> Seq<Seq<char>> {
    let (deps, cur, esc) = d_scan(s);
    if cur.len() > 0 {
        deps.push(cur)
    } else {
        deps
    }
}

/// A path as a dependency file writes it: every white-space character gets a backslash before
/// it.
pub open spec fn d_escaped(p: Seq<char>) -> Seq<char>
    decreases p.len(),
{
    if p.len() == 0 {
        Seq::empty()
    } else {
        d_escaped(p.drop_last()) + if is_ws(p.last()) {
            seq!['\\', p.last()]
        } else {
            seq![p.last()]
        }
    }
}

/// A path a dependency file can name: not empty, without backslashes or line breaks.
pub open spec fn d_plain(p: Seq<char>) -> bool {
    p.len() > 0 && forall|i: int| 0 <= i < p.len() ==> #[trigger] p[i] != '\\' && p[i] != '\n' && p[i] != '\r'
}

/// Paths written as a prerequisite list: each escaped, separated by single spaces.
pub open spec fn d_line(ps: Seq<Seq<char>>) -> Seq<char>
    decreases ps.len(),
{
    if ps.len() == 0 {
        Seq::empty()
    } else if ps.len() == 1 {
        d_escaped(ps[0])
    } else {
        d_line(ps.drop_last()) + seq![' '] + d_escaped(ps.last())
    }
}

proof fn lemma_scan_escaped(a: Seq<char>, p: Seq<char>)
    requires
        !d_scan(a).2,
        forall|i: int| 0 <= i < p.len() ==> #[trigger] p[i] != '\\' && p[i] != '\n' && p[i] != '\r',
    ensures
        d_scan(a + d_escaped(p)) == (d_scan(a).0, d_scan(a).1 + p, false),
    decreases p.len(),
{
    if p.len() == 0 {
        assert(a + d_escaped(p) =~= a);
        assert(d_scan(a).1 + p =~= d_scan(a).1);
    } else {
        let dl = p.drop_last();
        let c = p.last();
        assert(forall|i: int| 0 <= i < dl.len() ==> #[trigger] dl[i] == p[i]);
        lemma_scan_escaped(a, dl);
        let x = a + d_escaped(dl);
        assert(c == p[p.len() - 1]);
        if is_ws(c) {
            assert(a + d_escaped(p) =~= x.push('\\').push(c));
            assert(x.push('\\').drop_last() =~= x);
            assert(x.push('\\').push(c).drop_last() =~= x.push('\\'));
            assert(d_scan(x.push('\\')) == (d_scan(a).0, d_scan(a).1 + dl, true));
        } else {
            assert(a + d_escaped(p) =~= x.push(c));
            assert(x.push(c).drop_last() =~= x);
        }
        assert(d_scan(a).1 + dl.push(c) =~= d_scan(a).1 + p);
    }
}

proof fn lemma_scan_line(a: Seq<char>, ps: Seq<Seq<char>>)
    requires
        ps.len() > 0,
        d_scan(a) == (d_scan(a).0, Seq::<char>::empty(), false),
        forall|i: int| 0 <= i < ps.len() ==> d_plain(#[trigger] ps[i]),
    ensures
        d_scan(a + d_line(ps)) == (d_scan(a).0 + ps.drop_last(), ps.last(), false),
    decreases ps.len(),
{
    let d0 = d_scan(a).0;
    if ps.len() == 1 {
        assert(d_plain(ps[0]));
        lemma_scan_escaped(a, ps[0]);
        assert(Seq::<char>::empty() + ps[0] =~= ps.last());
        assert(d0 + ps.drop_last() =~= d0);
    } else {
        let dl = ps.drop_last();
        assert(forall|i: int| 0 <= i < dl.len() ==> #[trigger] dl[i] == ps[i]);
        lemma_scan_line(a, dl);
        let x = a + d_line(dl);
        assert(d_plain(dl.last()));
        assert(dl.last() == ps[ps.len() - 2]);
        assert(x.push(' ').drop_last() =~= x);
        assert(is_ws(' '));
        assert(d_scan(x.push(' ')) == (d0 + dl.drop_last() + seq![dl.last()], Seq::<char>::empty(), false));
        assert(d0 + dl.drop_last() + seq![dl.last()] =~= d0 + dl);
        assert(d_plain(ps.last()));
        assert(ps.last() == ps[ps.len() - 1]);
        lemma_scan_escaped(x.push(' '), ps.last());
        assert(a + d_line(ps) =~= x.push(' ') + d_escaped(ps.last()));
        assert(Seq::<char>::empty() + ps.last() =~= ps.last());
    }
}

/// A backslash escapes the next character into the current path, and unescaped white space
/// separates paths: a prerequisite list of escaped paths (spaces inside a path written as
/// `\ `), separated by spaces and after any leading space, reads back as those paths.
pub proof fn law_escaped_paths_read_back(ps: Seq<Seq<char>>, lead: nat)
    requires
        forall|i: int| 0 <= i < ps.len() ==> d_plain(#[trigger] ps[i]),
    ensures
        d_tokens(Seq::new(lead, |i: int| ' ') + d_line(ps)) == ps,
{
    let a = Seq::new(lead, |i: int| ' ');
    lemma_scan_spaces(lead);
    if ps.len() == 0 {
        assert(a + d_line(ps) =~= a);
    } else {
        lemma_scan_line(a, ps);
        assert(ps.drop_last().push(ps.last()) =~= ps);
        assert(Seq::<Seq<char>>::empty() + ps.drop_last() =~= ps.drop_last());
    }
}

proof fn lemma_scan_spaces(n: nat)
    ensures
        d_scan(Seq::new(n, |i: int| ' ')) == (Seq::<Seq<char>>::empty(), Seq::<char>::empty(), false),
    decreases n,
{
    if n > 0 {
        lemma_scan_spaces((n - 1) as nat);
        assert(Seq::new(n, |i: int| ' ').drop_last() =~= Seq::new((n - 1) as nat, |i: int| ' '));
        assert(is_ws(' '));
    }
}

/// No backslash in `s` is followed by a line break.
pub open spec fn no_escaped_break(s: Seq<char>) -> bool {
    forall|i: int| 0 <= i < s.len() - 1 && #[trigger] s[i] == '\\' ==> s[i + 1] != '\n' && s[i + 1] != '\r'
}

proof fn lemma_no_escaped_break_concat(x: Seq<char>, y: Seq<char>)
    requires
        no_escaped_break(x),
        no_escaped_break(y),
        y.len() > 0 ==> y[0] != '\n' && y[0] != '\r',
    ensures
        no_escaped_break(x + y),
{
    let z = x + y;
    assert forall|i: int| 0 <= i < z.len() - 1 && #[trigger] z[i] == '\\' implies z[i + 1] != '\n' && z[i + 1] != '\r' by {
        if i < x.len() - 1 {
            assert(x[i] == z[i] && x[i + 1] == z[i + 1]);
        } else if i == x.len() - 1 {
            assert(z[i + 1] == y[0]);
        } else {
            assert(y[i - x.len()] == z[i] && y[i - x.len() + 1] == z[i + 1]);
        }
    }
}

proof fn lemma_escaped_no_break(p: Seq<char>)
    requires
        forall|i: int| 0 <= i < p.len() ==> #[trigger] p[i] != '\\' && p[i] != '\n' && p[i] != '\r',
    ensures
        no_escaped_break(d_escaped(p)),
        d_escaped(p).len() > 0 ==> d_escaped(p)[0] != '\n' && d_escaped(p)[0] != '\r',
    decreases p.len(),
{
    if p.len() > 0 {
        let dl = p.drop_last();
        assert(forall|i: int| 0 <= i < dl.len() ==> #[trigger] dl[i] == p[i]);
        lemma_escaped_no_break(dl);
        let c = p.last();
        assert(c == p[p.len() - 1]);
        let chunk = if is_ws(c) {
            seq!['\\', c]
        } else {
            seq![c]
        };
        assert(no_escaped_break(chunk)) by {
            assert forall|i: int| 0 <= i < chunk.len() - 1 && #[trigger] chunk[i] == '\\' implies chunk[i + 1] != '\n' && chunk[i + 1]
                != '\r' by {
                assert(chunk[1] == c);
            }
        }
        lemma_no_escaped_break_concat(d_escaped(dl), chunk);
        if d_escaped(dl).len() == 0 {
            assert(d_escaped(p) =~= chunk);
        } else {
            assert(d_escaped(p)[0] == d_escaped(dl)[0]);
        }
    }
}

proof fn lemma_line_no_break(ps: Seq<Seq<char>>)
    requires
        forall|i: int| 0 <= i < ps.len() ==> d_plain(#[trigger] ps[i]),
    ensures
        no_escaped_break(d_line(ps)),
        d_line(ps).len() > 0 ==> d_line(ps)[0] != '\n' && d_line(ps)[0] != '\r',
    decreases ps.len(),
{
    if ps.len() == 1 {
        assert(d_plain(ps[0]));
        lemma_escaped_no_break(ps[0]);
    } else if ps.len() > 1 {
        let dl = ps.drop_last();
        assert(forall|i: int| 0 <= i < dl.len() ==> #[trigger] dl[i] == ps[i]);
        lemma_line_no_break(dl);
        assert(d_plain(ps.last()));
        assert(ps.last() == ps[ps.len() - 1]);
        lemma_escaped_no_break(ps.last());
        assert(no_escaped_break(seq![' '])) by {
            assert forall|i: int| 0 <= i < seq![' '].len() - 1 && #[trigger] seq![' '][i] == '\\' implies false by {}
        }
        lemma_no_escaped_break_concat(seq![' '], d_escaped(ps.last()));
        let tail = seq![' '] + d_escaped(ps.last());
        assert(tail[0] == ' ');
        lemma_no_escaped_break_concat(d_line(dl), tail);
        assert(d_line(ps) =~= d_line(dl) + tail);
        if d_line(dl).len() > 0 {
            assert(d_line(ps)[0] == d_line(dl)[0]);
        } else {
            assert(d_line(ps)[0] == tail[0]);
        }
    }
}

proof fn lemma_replace_absent(s: Seq<char>, from: Seq<char>, to: Seq<char>)
    requires
        from.len() >= 2,
        from[0] == '\\',
        from[1] == '\n' || from[1] == '\r',
        no_escaped_break(s),
    ensures
        replace_seq(s, from, to) == s,
    decreases s.len(),
{
    if s.len() > 0 {
        if starts(s, from) {
            assert(s.subrange(0, from.len() as int)[0] == s[0]);
            assert(s.subrange(0, from.len() as int)[1] == s[1]);
            assert(false);
        }
        let t = s.drop_first();
        assert(no_escaped_break(t)) by {
            assert forall|i: int| 0 <= i < t.len() - 1 && #[trigger] t[i] == '\\' implies t[i + 1] != '\n' && t[i + 1] != '\r' by {
                assert(s[i + 1] == t[i] && s[i + 2] == t[i + 1]);
            }
        }
        lemma_replace_absent(t, from, to);
        assert(seq![s[0]] + t =~= s);
    }
}

proof fn lemma_rule_colon_at(t: Seq<char>, j: int, m: int)
    requires
        0 <= j <= m < t.len(),
        forall|i: int| j <= i < m ==> #[trigger] t[i] != ':' || (i == 1 && is_ascii_alpha(t[0]) && i + 1 < t.len() && (t[i
            + 1] == '\\' || t[i + 1] == '/')),
        t[m] == ':',
        !(m == 1 && m + 1 < t.len() && (t[m + 1] == '\\' || t[m + 1] == '/')),
    ensures
        rule_colon_from(t, j) == Some(m),
    decreases m - j,
{
    if j < m {
        lemma_rule_colon_at(t, j + 1, m);
    }
}

proof fn lemma_ascii_bytes(s: Seq<char>)
    requires
        forall|i: int| 0 <= i < s.len() ==> (#[trigger] s[i] as u32) < 0x80,
    ensures
        utf8_bytes(s) == s.len(),
    decreases s.len(),
{
    if s.len() > 0 {
        let dl = s.drop_last();
        assert(forall|i: int| 0 <= i < dl.len() ==> #[trigger] dl[i] == s[i]);
        lemma_ascii_bytes(dl);
        assert(s.last() == s[s.len() - 1]);
    }
}

/// The text of a one-line make rule: the target, a colon, a space, and the prerequisites.
pub open spec fn d_rule(target: Seq<char>, ps: Seq<Seq<char>>) -> Seq<char> {
    target + seq![':', ' '] + d_line(ps)
}

/// A dependency file `target: p1 p2 ...`, with white space inside each path escaped by a
/// backslash (as compilers write it), lists exactly those paths: the target (ASCII, without a
/// backslash or a line break, and without a colon but that of a drive such as `C:/`) is
/// skipped and each escaped path reads back whole.
pub proof fn law_d_file_reads_back(target: Seq<char>, ps: Seq<Seq<char>>)
    requires
        forall|i: int| 0 <= i < target.len() ==> (#[trigger] target[i] as u32) < 0x80 && target[i] != '\\' && target[i]
            != '\n' && target[i] != '\r',
        forall|i: int| 0 <= i < target.len() && #[trigger] target[i] == ':' ==> i == 1 && is_ascii_alpha(target[0])
            && target.len() > 2 && target[2] == '/',
        forall|i: int| 0 <= i < ps.len() ==> d_plain(#[trigger] ps[i]),
    ensures
        d_file_sliceable(d_rule(target, ps)),
        d_deps(d_rule(target, ps)) == ps,
        forall|k: int|
            char_at_byte(d_joined(d_rule(target, ps)), d_target_end(d_joined(d_rule(target, ps))), k) ==> #[trigger] d_deps_from(
                d_rule(target, ps),
                k,
            ) == ps,
{
    let head = target + seq![':', ' '];
    let content = head + d_line(ps);
    // no line continuation to join
    assert(no_escaped_break(head)) by {
        assert forall|i: int| 0 <= i < head.len() - 1 && #[trigger] head[i] == '\\' implies head[i + 1] != '\n' && head[i + 1] != '\r' by {
            if i < target.len() {
                assert(head[i] == target[i]);
            }
        }
    }
    lemma_line_no_break(ps);
    lemma_no_escaped_break_concat(head, d_line(ps));
    lemma_replace_absent(content, seq!['\\', '\n'], seq![' ']);
    lemma_replace_absent(content, seq!['\\', '\r', '\n'], seq![' ']);
    assert(d_joined(content) == content);
    // the rule's colon ends the target
    let m = target.len() as int;
    assert(content[m] == ':');
    assert(forall|i: int| 0 <= i < m ==> #[trigger] content[i] == target[i]);
    assert(content[m + 1] == ' ');
    assert forall|i: int| 0 <= i < m implies #[trigger] content[i] != ':' || (i == 1 && is_ascii_alpha(content[0]) && i + 1
        < content.len() && (content[i + 1] == '\\' || content[i + 1] == '/')) by {
        if content[i] == ':' {
            assert(target[i] == ':');
            assert(content[0] == target[0] && content[2] == target[2]);
        }
    }
    lemma_rule_colon_at(content, 0, m);
    assert(d_target_end(content) == m + 1);
    let k = m + 1;
    assert(content.take(k) =~= target + seq![':']);
    assert forall|i: int| 0 <= i < content.take(k).len() implies (#[trigger] content.take(k)[i] as u32) < 0x80 by {
        if i < m {
            assert(content.take(k)[i] == target[i]);
        }
    }
    lemma_ascii_bytes(content.take(k));
    assert(char_at_byte(content, m + 1, k));
    assert(d_file_sliceable(content));
    let c = choose|c: int| char_at_byte(d_joined(content), d_target_end(d_joined(content)), c);
    lemma_char_at_byte_unique(content, m + 1, k, c);
    assert(content.subrange(k, content.len() as int) =~= Seq::new(1, |i: int| ' ') + d_line(ps));
    law_escaped_paths_read_back(ps, 1);
    assert forall|k2: int| char_at_byte(d_joined(content), d_target_end(d_joined(content)), k2) implies #[trigger] d_deps_from(
        content,
        k2,
    ) == ps by {
        lemma_char_at_byte_unique(content, m + 1, k, k2);
    }
}

/// The index `k` of the character at byte offset `b` of `t`, when `b` falls on a character
/// boundary.
pub open spec fn char_at_byte(t: Seq<char>, b: int, k: int) -> bool {
    0 <= k <= t.len() && utf8_bytes(t.take(k)) == b
}

/// The prerequisites a dependency file lists, given the character index where they start.
pub open spec fn d_deps_from(content: Seq<char>, k: int) -> Seq<Seq<char>> {
    d_tokens(d_joined(content).subrange(k, d_joined(content).len() as int))
}

/// Whether slicing the joined text at the rule's byte offset is valid (it falls on a character
/// boundary).
pub open spec fn d_file_sliceable(content: Seq<char>) -> bool {
    exists|k: int| char_at_byte(d_joined(content), d_target_end(d_joined(content)), k)
}

pub fn utf8_width(c: char) -> (n: usize)
    ensures
        n == utf8_len(c),
{
    let u = c as u32;
    if u < 0x80 {
        1
    } else if u < 0x800 {
        2
    } else if u < 0x10000 {
        3
    } else {
        4
    }
}

proof fn lemma_utf8_bytes_mono(t: Seq<char>, a: int, b: int)
    requires
        0 <= a <= b <= t.len(),
    ensures
        utf8_bytes(t.take(a)) <= utf8_bytes(t.take(b)),
        a < b ==> utf8_bytes(t.take(a)) < utf8_bytes(t.take(b)),
    decreases b - a,
{
    if a < b {
        lemma_utf8_bytes_mono(t, a, b - 1);
        assert(t.take(b).drop_last() =~= t.take(b - 1));
    }
}

fn rule_colon(chars: &Vec<char>) -> (r: Option<usize>)
    ensures
        r matches Some(i) ==> rule_colon_from(chars@, 0) == Some(i as int) && i < chars@.len(),
        r is None ==> rule_colon_from(chars@, 0) is None,
{
    let n = chars.len();
    let mut i: usize = 0;
    while i < n
        invariant
            n == chars@.len(),
            i <= n,
            rule_colon_from(chars@, 0) == rule_colon_from(chars@, i as int),
        decreases n - i,
    {
        if chars[i] == ':' {
            if !(i == 1 && is_ascii_alphabetic(chars[0]) && i + 1 < n && (chars[i + 1] == '\\' || chars[
                i + 1] == '/')) {
                return Some(i);
            }
        }
        i = i + 1;
    }
    None
}

/// Whether a dependency file can be read (see `d_file_sliceable`): the rule colon's position,
/// taken as a byte offset, falls on a character boundary of the joined text.
pub fn d_file_parsable(content: &str) -> (r: bool)
    ensures
        r == d_file_sliceable(content@),
{
    proof {
        reveal_strlit("\\\n");
        reveal_strlit(" ");
        reveal_strlit("\\\r\n");
        assert("\\\n"@ =~= seq!['\\', '\n']);
        assert(" "@ =~= seq![' ']);
        assert("\\\r\n"@ =~= seq!['\\', '\r', '\n']);
    }
    let step1 = replace(content, "\\\n", " ");
    let text = replace(step1.as_str(), "\\\r\n", " ");
    let ghost t = text@;
    assert(t == d_joined(content@));
    let chars = chars_of(text.as_str());
    let n = chars.len();
    let target_end: usize = match rule_colon(&chars) {
        Some(i) => i + 1,
        None => 0,
    };
    assert(d_target_end(t) == target_end);
    let mut k: usize = 0;
    let mut bytes: u128 = 0;
    assert(t.take(0) =~= Seq::<char>::empty());
    while bytes < target_end as u128 && k < n
        invariant
            chars@ == t,
            n == t.len(),
            k <= n,
            bytes == utf8_bytes(t.take(k as int)),
            k > 0 ==> utf8_bytes(t.take(k - 1)) < target_end,
            target_end <= n + 1,
            bytes <= target_end + 3,
            d_target_end(t) == target_end,
        decreases n - k,
    {
        assert(t.take(k + 1).drop_last() =~= t.take(k as int));
        bytes = bytes + utf8_width(chars[k]) as u128;
        k = k + 1;
    }
    if bytes == target_end as u128 {
        assert(char_at_byte(t, target_end as int, k as int));
        return true;
    }
    proof {
        if d_file_sliceable(content@) {
            let kk = choose|kk: int| char_at_byte(t, target_end as int, kk);
            if kk < k {
                if kk < k - 1 {
                    lemma_utf8_bytes_mono(t, kk, k - 1);
                }
            } else if kk > k {
                lemma_utf8_bytes_mono(t, k as int, kk);
            }
            assert(false);
        }
    }
    false
}

/// The prerequisites listed by a make-style dependency file (`target: dep dep \` lines),
/// as compilers write them with `-MMD`.
pub fn parse_d_file(content: &str) -> (deps: Vec<String>)
    requires
        d_file_sliceable(content@),
    ensures
        exists|k: int| char_at_byte(d_joined(content@), d_target_end(d_joined(content@)), k)
            && views(deps@) == d_deps_from(content@, k),
{
    proof {
        reveal_strlit("\\\n");
        reveal_strlit(" ");
        reveal_strlit("\\\r\n");
        assert("\\\n"@ =~= seq!['\\', '\n']);
        assert(" "@ =~= seq![' ']);
        assert("\\\r\n"@ =~= seq!['\\', '\r', '\n']);
    }
    let step1 = replace(content, "\\\n", " ");
    let text = replace(step1.as_str(), "\\\r\n", " ");
    let ghost t = text@;
    assert(t == d_joined(content@));
    let chars = chars_of(text.as_str());
    let n = chars.len();
    let target_end: usize = match rule_colon(&chars) {
        Some(i) => i + 1,
        None => 0,
    };
    assert(d_target_end(t) == target_end);
    // Find the character index whose UTF-8 byte offset is `target_end`.
    let mut k: usize = 0;
    let mut bytes: u128 = 0;
    assert(t.take(0) =~= Seq::<char>::empty());
    while bytes < target_end as u128 && k < n
        invariant
            chars@ == t,
            n == t.len(),
            k <= n,
            bytes == utf8_bytes(t.take(k as int)),
            k > 0 ==> utf8_bytes(t.take(k - 1)) < target_end,
            target_end <= n + 1,
            bytes <= target_end + 3,
            d_file_sliceable(content@),
            d_target_end(t) == target_end,
        decreases n - k,
    {
        assert(t.take(k + 1).drop_last() =~= t.take(k as int));
        bytes = bytes + utf8_width(chars[k]) as u128;
        k = k + 1;
    }
    proof {
        let kk = choose|kk: int| char_at_byte(t, target_end as int, kk);
        if kk < k {
            lemma_utf8_bytes_mono(t, kk, k - 1);
        } else if kk > k {
            lemma_utf8_bytes_mono(t, k as int, kk);
        }
        assert(kk == k);
    }
    let mut deps: Vec<String> = Vec::new();
    let mut current = String::new();
    let mut in_escape = false;
    let mut j: usize = k;
    let ghost rest = t.subrange(k as int, n as int);
    assert(rest.take(0) =~= Seq::<char>::empty());
    while j < n
        invariant
            chars@ == t,
            n == t.len(),
            k <= j <= n,
            rest == t.subrange(k as int, n as int),
            (views(deps@), current@, in_escape) == d_scan(rest.take(j - k)),
        decreases n - j,
    {
        let c = chars[j];
        assert(rest.take(j - k + 1).drop_last() =~= rest.take(j - k));
        assert(rest.take(j - k + 1).last() == c);
        if in_escape {
            if c != '\n' && c != '\r' {
                push_char(&mut current, c);
            }
            in_escape = false;
        } else if c == '\\' {
            in_escape = true;
        } else if is_whitespace(c) {
            if current.unicode_len() > 0 {
                let ghost d = deps@;
                deps.push(current);
                assert(views(deps@) =~= views(d).push(current@));
                current = String::new();
                assert(current@ =~= Seq::<char>::empty());
            }
        } else {
            push_char(&mut current, c);
        }
        j = j + 1;
    }
    assert(rest.take(n - k) =~= rest);
    if current.unicode_len() > 0 {
        let ghost d = deps@;
        deps.push(current);
        assert(views(deps@) =~= views(d).push(current@));
    }
    assert(char_at_byte(t, target_end as int, k as int));
    assert(views(deps@) == d_tokens(rest));
    assert(views(deps@) == d_deps_from(content@, k as int));
    deps
}

/// A character that makes a pattern a glob.
pub open spec fn glob_char(c: char) -> bool {
    c == '*' || c == '?' || c == '['
}

/// Whether `value` holds `*`, `?` or `[` (and is then matched as a glob).
pub fn has_glob_magic(value: &str) -> (r: bool)
    ensures
        r == exists|i: int| 0 <= i < value@.len() && glob_char(#[trigger] value@[i]),
{
    let v = chars_of(value);
    let mut i: usize = 0;
    while i < v.len()
        invariant
            v@ == value@,
            i <= v@.len(),
            forall|j: int| 0 <= j < i ==> !glob_char(#[trigger] value@[j]),
        decreases v@.len() - i,
    {
        if v[i] == '*' || v[i] == '?' || v[i] == '[' {
            assert(glob_char(value@[i as int]));
            return true;
        }
        i = i + 1;
    }
    false
}

/// The glob test spelled out: some character of `value` is `*`, `?` or `[`.
pub open spec fn glob_magic(value: Seq<char>) -> bool {
    exists|i: int| 0 <= i < value.len() && glob_char(#[trigger] value[i])
}

/// Where the object file of `source` goes: the source path without a leading `./` and without
/// its first component (`src/`), under `obj_dir`, with the extension `obj_ext` (without leading
/// dots). A source of a single component keeps it.
pub open spec fn object_path_of(obj_dir: Seq<char>, source: Seq<char>, obj_ext: Seq<char>) -> Seq<char> {
    let stripped = match strip_base(source, "./"@) {
        Some(s) => s,
        None => source,
    };
    let rest = if comps(stripped).len() > 0 {
        comps(stripped).skip(1)
    } else {
        Seq::empty()
    };
    let rel = if rest.len() > 0 {
        join_seq(rest, "/"@)
    } else {
        stripped
    };
    with_ext(join_path(obj_dir, rel), trim_start_matches_seq(obj_ext, "."@))
}

/// A path component as written between separators: not empty, no `/`, not `.`.
pub open spec fn plain_component(x: Seq<char>) -> bool {
    x.len() > 0 && !x.contains('/') && x != "."@
}

proof fn lemma_split_components(segs: Seq<Seq<char>>)
    requires
        segs.len() > 0,
        forall|i: int| 0 <= i < segs.len() ==> plain_component(#[trigger] segs[i]),
    ensures
        split_seq(join_seq(segs, "/"@), '/') == segs,
        normal_parts(segs) == segs,
    decreases segs.len(),
{
    reveal_strlit("/");
    let dl = segs.drop_last();
    lemma_split_plain(segs.last(), '/');
    if segs.len() == 1 {
        assert(join_seq(segs, "/"@) == segs[0]);
        assert(normal_parts(segs.drop_last()) =~= Seq::<Seq<char>>::empty());
        assert(normal_parts(segs) =~= segs);
    } else {
        lemma_split_components(dl);
        assert("/"@ =~= seq!['/']);
        lemma_split_join(join_seq(dl, "/"@), segs.last(), '/');
        assert(join_seq(segs, "/"@) == join_seq(dl, "/"@) + seq!['/'] + segs.last());
        assert(split_seq(join_seq(segs, "/"@), '/') =~= segs);
        assert(normal_parts(segs) =~= dl.push(segs.last()));
    }
}

proof fn lemma_dot_slash_comps()
    ensures
        comps("./"@) == seq!["."@],
{
    reveal_strlit("./");
    reveal_strlit(".");
    assert("./"@ =~= seq!['.'] + seq!['/'] + Seq::<char>::empty());
    lemma_split_join(seq!['.'], Seq::<char>::empty(), '/');
    lemma_split_plain(seq!['.'], '/');
    assert(split_seq(Seq::<char>::empty(), '/') == seq![Seq::<char>::empty()]);
    let pieces = split_seq("./"@, '/');
    assert(pieces =~= seq![seq!['.'], Seq::<char>::empty()]);
    assert(seq!['.'] =~= "."@);
    let one = pieces.drop_last();
    assert(one =~= seq![seq!['.']]);
    assert(one.last() == "."@);
    assert(one.drop_last() =~= Seq::<Seq<char>>::empty());
    assert(normal_parts(one.drop_last()) == Seq::<Seq<char>>::empty());
    assert(normal_parts(one) == normal_parts(one.drop_last()));
    assert(normal_parts(one) =~= Seq::<Seq<char>>::empty());
    assert(normal_parts(pieces) =~= Seq::<Seq<char>>::empty());
    assert(!is_abs("./"@));
}

/// Every component of a source after its first stays in its object's path: a source
/// `first/c1/.../cn` (with or without a leading `./`) has its object at `obj_dir/c1/.../cn`
/// with the extension replaced. Sources that differ in any directory below the first one get
/// different object paths.
pub proof fn law_object_keeps_components(obj_dir: Seq<char>, first: Seq<char>, segs: Seq<Seq<char>>, obj_ext: Seq<char>)
    requires
        plain_component(first),
        segs.len() > 0,
        forall|i: int| 0 <= i < segs.len() ==> plain_component(#[trigger] segs[i]),
    ensures
        object_path_of(obj_dir, first + "/"@ + join_seq(segs, "/"@), obj_ext) == with_ext(
            join_path(obj_dir, join_seq(segs, "/"@)),
            trim_start_matches_seq(obj_ext, "."@),
        ),
        object_path_of(obj_dir, "./"@ + first + "/"@ + join_seq(segs, "/"@), obj_ext) == with_ext(
            join_path(obj_dir, join_seq(segs, "/"@)),
            trim_start_matches_seq(obj_ext, "."@),
        ),
{
    reveal_strlit("/");
    reveal_strlit("./");
    reveal_strlit(".");
    let rel = join_seq(segs, "/"@);
    let p = first + "/"@ + rel;
    let all = seq![first] + segs;
    assert forall|i: int| 0 <= i < all.len() implies plain_component(#[trigger] all[i]) by {
        if i > 0 {
            assert(all[i] == segs[i - 1]);
        }
    }
    lemma_split_components(all);
    lemma_join_cons(first, segs, "/"@);
    assert(join_seq(all, "/"@) == p);
    // `p` is relative and does not begin with `./`
    assert(p[0] == first[0]);
    assert(first[0] != '/') by {
        if first[0] == '/' {
            assert(first.contains('/'));
        }
    }
    assert(!is_abs(p));
    assert(!(p == "."@ || (p.len() >= 2 && p[0] == '.' && p[1] == '/'))) by {
        if p.len() >= 2 && p[0] == '.' && p[1] == '/' {
            if first.len() == 1 {
                assert(first =~= "."@);
            } else {
                assert(first[1] == '/');
                assert(first.contains('/'));
            }
        }
    }
    assert(comps(p) == all);
    lemma_dot_slash_comps();
    assert(!path_starts(p, "./"@)) by {
        if seq!["."@].is_prefix_of(all) {
            assert(all.subrange(0, 1) == seq!["."@]);
            assert(all.subrange(0, 1)[0] == all[0]);
            assert(first == "."@);
        }
    }
    assert(strip_base(p, "./"@) is None);
    assert(comps(p).skip(1) =~= segs);
    // with a leading `./`
    let q = "./"@ + first + "/"@ + rel;
    assert(q =~= seq!['.'] + seq!['/'] + p);
    lemma_split_join(seq!['.'], p, '/');
    lemma_split_plain(seq!['.'], '/');
    assert(seq!['.'] =~= "."@);
    let qs = split_seq(q, '/');
    assert(qs =~= seq!["."@] + all);
    assert(normal_parts(qs) == all) by {
        lemma_normal_parts_after_dot(all);
    }
    assert(!is_abs(q));
    assert(q.len() >= 2 && q[0] == '.' && q[1] == '/');
    assert(comps(q) =~= seq!["."@].add(all));
    assert(path_starts(q, "./"@)) by {
        assert(seq!["."@].is_prefix_of(comps(q)));
    }
    assert(comps(q).skip(comps("./"@).len() as int) =~= all);
    assert(strip_base(q, "./"@) == Some(p));
}

proof fn lemma_normal_parts_after_dot(all: Seq<Seq<char>>)
    requires
        normal_parts(all) == all,
    ensures
        normal_parts(seq!["."@] + all) == all,
    decreases all.len(),
{
    reveal_strlit(".");
    let whole = seq!["."@] + all;
    if all.len() == 0 {
        assert(whole =~= seq!["."@]);
        assert(whole.drop_last() =~= Seq::<Seq<char>>::empty());
    } else {
        assert(whole.drop_last() =~= seq!["."@] + all.drop_last());
        assert(normal_parts(all) == {
            let init = normal_parts(all.drop_last());
            let x = all.last();
            if x.len() > 0 && x != "."@ {
                init.push(x)
            } else {
                init
            }
        });
        lemma_normal_parts_prefix(all);
        lemma_normal_parts_after_dot(all.drop_last());
        assert(whole.last() == all.last());
    }
}

proof fn lemma_normal_parts_prefix(all: Seq<Seq<char>>)
    requires
        all.len() > 0,
        normal_parts(all) == all,
    ensures
        normal_parts(all.drop_last()) == all.drop_last(),
        all.last().len() > 0 && all.last() != "."@,
{
    lemma_normal_parts_len(all.drop_last());
    if !(all.last().len() > 0 && all.last() != "."@) {
        assert(normal_parts(all) == normal_parts(all.drop_last()));
        assert(false);
    }
    assert(normal_parts(all) == normal_parts(all.drop_last()).push(all.last()));
    assert(normal_parts(all.drop_last()) =~= normal_parts(all).drop_last());
}

proof fn lemma_normal_parts_len(xs: Seq<Seq<char>>)
    ensures
        normal_parts(xs).len() <= xs.len(),
    decreases xs.len(),
{
    if xs.len() > 0 {
        lemma_normal_parts_len(xs.drop_last());
    }
}

/// The object file of `source` (see `object_path_of`).
pub fn object_path(obj_dir: &str, source: &str, obj_ext: &str) -> (r: String)
    ensures
        r@ == object_path_of(obj_dir@, source@, obj_ext@),
{
    let stripped = match strip_base_path(source, "./") {
        Some(s) => s,
        None => source.to_owned(),
    };
    let parts = crate::utils::paths::components(stripped.as_str());
    let mut rest: Vec<String> = Vec::new();
    if parts.len() > 0 {
        let mut i: usize = 1;
        while i < parts.len()
            invariant
                1 <= i <= parts@.len(),
                views(rest@) == views(parts@).subrange(1, i as int),
            decreases parts@.len() - i,
        {
            let ghost prev = rest@;
            rest.push(parts[i].clone());
            assert(views(rest@) =~= views(prev).push(parts@[i as int]@));
            assert(views(parts@).subrange(1, i + 1) =~= views(parts@).subrange(1, i as int).push(parts@[i as int]@));
            i = i + 1;
        }
        assert(views(parts@).subrange(1, parts@.len() as int) =~= views(parts@).skip(1));
    }
    assert(views(rest@) =~= (if comps(stripped@).len() > 0 {
        comps(stripped@).skip(1)
    } else {
        Seq::<Seq<char>>::empty()
    }));
    let rel = if rest.len() > 0 {
        crate::utils::strings::join(&rest, "/")
    } else {
        stripped
    };
    let joined = join(obj_dir, rel.as_str());
    let ext = trim_start_matches(obj_ext, ".");
    set_extension(joined.as_str(), ext)
}

/// What `glob::Pattern::new(pattern)` and then `matches(text)` give: `None` when the pattern
/// does not compile.
pub uninterp spec fn glob_result(pattern: Seq<char>, text: Seq<char>) -> Option<bool>;

/// Compiles `pattern` with `glob::Pattern::new` and matches `text` against it
/// (`Pattern::matches`); `None` when the pattern does not compile.
///
/// Trusted: the outcome is the one named by `glob_result`, a function of the two strings.
#[verifier::external_body]
fn glob_matches(pattern: &str, text: &str) -> (r: Option<bool>)
    ensures
        r == glob_result(pattern@, text@),
{
    glob::Pattern::new(pattern).ok().map(|p| p.matches(text))
}

/// The view of an optional string slice.
pub open spec fn cwd_view(o: Option<&str>) -> Option<Seq<char>> {
    match o {
        Some(s) => Some(s@),
        None => None,
    }
}

/// `path` made absolute against the working directory (when it is known).
pub open spec fn abs_of(path: Seq<char>, cwd: Option<Seq<char>>) -> Seq<char> {
    if is_abs(path) {
        path
    } else {
        match cwd {
            Some(base) => join_path(base, path),
            None => path,
        }
    }
}

/// `path` relative to the working directory, with `/` separators (empty when it is not below
/// it).
pub open spec fn rel_of(abs_path: Seq<char>, cwd: Option<Seq<char>>) -> Seq<char> {
    match cwd {
        Some(base) => match strip_base(abs_path, base) {
            Some(r) => replace_seq(r, "\\"@, "/"@),
            None => Seq::empty(),
        },
        None => Seq::empty(),
    }
}

/// Whether one exclude/include pattern applies to `path`. A pattern starting with `!` is
/// negative; only the patterns of the sign asked for count. A glob is matched against the
/// absolute path, the relative path and the relative path after `./`; another pattern is a
/// directory prefix (resolved against the working directory).
pub open spec fn pattern_hit(raw: Seq<char>, positive: bool, path: Seq<char>, cwd: Option<Seq<char>>) -> bool {
    let trimmed = trim_seq(raw);
    let is_neg = starts(trimmed, "!"@);
    let normalized = replace_seq(trim_start_matches_seq(trimmed, "!"@), "\\"@, "/"@);
    let abs_path = abs_of(path, cwd);
    let abs = replace_seq(abs_path, "\\"@, "/"@);
    let rel = rel_of(abs_path, cwd);
    let rel_dot = if rel.len() == 0 {
        Seq::empty()
    } else {
        "./"@ + rel
    };
    &&& trimmed.len() > 0
    &&& is_neg != positive
    &&& normalized.len() > 0
    &&& if glob_magic(normalized) {
        glob_result(normalized, abs) == Some(true) || (rel.len() > 0 && (glob_result(normalized, rel) == Some(true)
            || glob_result(normalized, rel_dot) == Some(true)))
    } else {
        let norm = trim_end_char_seq(normalized, '/');
        let full = if is_abs(norm) {
            norm
        } else {
            match cwd {
                Some(base) => join_path(base, norm),
                None => norm,
            }
        };
        path_starts(abs_path, full)
    }
}

/// Whether some pattern of the sign asked for applies to `path`.
pub open spec fn any_pattern_hit(patterns: Seq<Seq<char>>, positive: bool, path: Seq<char>, cwd: Option<Seq<char>>) -> bool {
    exists|i: int| 0 <= i < patterns.len() && pattern_hit(#[trigger] patterns[i], positive, path, cwd)
}

fn abs_path_of(path: &str, cwd: Option<&str>) -> (r: String)
    ensures
        r@ == abs_of(path@, cwd_view(cwd)),
{
    if is_absolute(path) {
        return path.to_owned();
    }
    match cwd {
        Some(base) => join(base, path),
        None => path.to_owned(),
    }
}

fn slashes(s: &str) -> (r: String)
    ensures
        r@ == replace_seq(s@, "\\"@, "/"@),
{
    proof { reveal_strlit("\\"); }
    replace(s, "\\", "/")
}

fn hit(raw: &str, positive: bool, path: &str, cwd: Option<&str>) -> (r: bool)
    ensures
        r == pattern_hit(raw@, positive, path@, cwd_view(cwd)),
{
    let trimmed = trim(raw);
    if trimmed.unicode_len() == 0 {
        return false;
    }
    proof { reveal_strlit("!"); }
    let is_neg = starts_with(trimmed, "!");
    if is_neg == positive {
        return false;
    }
    let normalized = slashes(trim_start_matches(trimmed, "!"));
    if normalized.unicode_len() == 0 {
        return false;
    }
    let abs_path = abs_path_of(path, cwd);
    if has_glob_magic(normalized.as_str()) {
        let abs = slashes(abs_path.as_str());
        let rel = match cwd {
            Some(base) => match strip_base_path(abs_path.as_str(), base) {
                Some(r) => slashes(r.as_str()),
                None => String::new(),
            },
            None => String::new(),
        };
        let rel_dot = if rel.unicode_len() == 0 {
            String::new()
        } else {
            let mut d = "./".to_owned();
            d.append(rel.as_str());
            d
        };
        if glob_matches(normalized.as_str(), abs.as_str()) == Some(true) {
            return true;
        }
        if rel.unicode_len() > 0 {
            if glob_matches(normalized.as_str(), rel.as_str()) == Some(true) {
                return true;
            }
            if glob_matches(normalized.as_str(), rel_dot.as_str()) == Some(true) {
                return true;
            }
        }
        return false;
    }
    let norm = trim_end_char(normalized.as_str(), '/');
    let full = if is_absolute(norm) {
        norm.to_owned()
    } else {
        match cwd {
            Some(base) => join(base, norm),
            None => norm.to_owned(),
        }
    };
    path_starts_with(abs_path.as_str(), full.as_str())
}

/// Whether some pattern of the sign asked for applies to `path` (`cwd`: the working
/// directory, when known).
pub fn matches_patterns(path: &str, patterns: &Vec<String>, positive: bool, cwd: Option<&str>) -> (r: bool)
    ensures
        r == any_pattern_hit(views(patterns@), positive, path@, cwd_view(cwd)),
{
    let mut i: usize = 0;
    while i < patterns.len()
        invariant
            i <= patterns@.len(),
            forall|j: int| 0 <= j < i ==> !pattern_hit(#[trigger] views(patterns@)[j], positive, path@, cwd_view(cwd)),
        decreases patterns@.len() - i,
    {
        if hit(patterns[i].as_str(), positive, path, cwd) {
            assert(pattern_hit(views(patterns@)[i as int], positive, path@, cwd_view(cwd)));
            return true;
        }
        i = i + 1;
    }
    false
}

/// Whether `path` is left out of a build: an include pattern keeps it, a negative include
/// pattern (`!glob`) drops it, and otherwise it is dropped when it lies under an excluded
/// directory.
pub open spec fn excluded(path: Seq<char>, exclude_dirs: Seq<Seq<char>>, include_paths: Seq<Seq<char>>, cwd: Option<Seq<char>>) -> bool {
    if any_pattern_hit(include_paths, true, path, cwd) {
        false
    } else if any_pattern_hit(include_paths, false, path, cwd) {
        true
    } else {
        exists|i: int| 0 <= i < exclude_dirs.len() && path_starts(path, #[trigger] exclude_dirs[i])
    }
}

/// Whether `path` is left out of a build (see `excluded`).
pub fn is_excluded(path: &str, exclude_dirs: &Vec<String>, include_paths: &Vec<String>, cwd: Option<&str>) -> (r: bool)
    ensures
        r == excluded(path@, views(exclude_dirs@), views(include_paths@), cwd_view(cwd)),
{
    if matches_patterns(path, include_paths, true, cwd) {
        return false;
    }
    if matches_patterns(path, include_paths, false, cwd) {
        return true;
    }
    let mut i: usize = 0;
    while i < exclude_dirs.len()
        invariant
            i <= exclude_dirs@.len(),
            !any_pattern_hit(views(include_paths@), true, path@, cwd_view(cwd)),
            !any_pattern_hit(views(include_paths@), false, path@, cwd_view(cwd)),
            forall|j: int| 0 <= j < i ==> !path_starts(path@, #[trigger] views(exclude_dirs@)[j]),
        decreases exclude_dirs@.len() - i,
    {
        if path_starts_with(path, exclude_dirs[i].as_str()) {
            assert(path_starts(path@, views(exclude_dirs@)[i as int]));
            return true;
        }
        i = i + 1;
    }
    false
}

/// The extension of the file a path names: what follows the last `.` of the file name that is
/// not its first character (empty when there is none).
pub open spec fn file_ext(path: Seq<char>) -> Seq<char> {
    let start = match last_index(path, '/') {
        Some(i) => i + 1,
        None => 0,
    };
    let name = path.skip(start);
    match last_index(name, '.') {
        Some(j) => if j > 0 {
            name.skip(j + 1)
        } else {
            Seq::empty()
        },
        None => Seq::empty(),
    }
}

pub fn extension_of(path: &str) -> (r: String)
    ensures
        r@ == file_ext(path@),
{
    let v = chars_of(path);
    let n = v.len();
    assert(v@.subrange(0, n as int) =~= path@);
    let start: usize = match rfind_in(&v, '/', 0, n) {
        Some(i) => i + 1,
        None => 0,
    };
    assert(v@.subrange(start as int, n as int) =~= path@.skip(start as int));
    match rfind_in(&v, '.', start, n) {
        Some(j) => if j > start {
            assert(v@.subrange(j + 1, n as int) =~= path@.skip(start as int).skip(j - start + 1));
            crate::utils::strings::string_of_range(&v, j + 1, n)
        } else {
            String::new()
        },
        None => String::new(),
    }
}

fn rfind_in(v: &Vec<char>, c: char, lo: usize, hi: usize) -> (r: Option<usize>)
    requires
        lo <= hi <= v@.len(),
    ensures
        match r {
            Some(k) => lo <= k < hi && last_index(v@.subrange(lo as int, hi as int), c) == Some(k - lo),
            None => last_index(v@.subrange(lo as int, hi as int), c) is None,
        },
{
    let mut j: usize = hi;
    while j > lo
        invariant
            lo <= j <= hi <= v@.len(),
            last_index(v@.subrange(lo as int, hi as int), c) == last_index(v@.subrange(lo as int, j as int), c),
        decreases j,
    {
        assert(v@.subrange(lo as int, j as int).drop_last() =~= v@.subrange(lo as int, j - 1));
        if v[j - 1] == c {
            return Some(j - 1);
        }
        j = j - 1;
    }
    None
}

/// The extension is one of `extensions`, as written or in lower case.
pub open spec fn ext_allowed(ext: Seq<char>, extensions: Seq<Seq<char>>) -> bool {
    exists|i: int| 0 <= i < extensions.len() && (#[trigger] extensions[i] == ext || extensions[i] == lowercase_of(ext))
}

/// A file found under a source root is a source of the build: it is not excluded and its
/// extension is one of `extensions`.
pub open spec fn source_kept(path: Seq<char>, extensions: Seq<Seq<char>>, exclude_dirs: Seq<Seq<char>>, include_paths: Seq<Seq<char>>, cwd: Option<Seq<char>>) -> bool {
    !excluded(path, exclude_dirs, include_paths, cwd) && ext_allowed(file_ext(path), extensions)
}

/// How a source is named in the build: `./` and its path relative to the working directory
/// when it lies below it, else as found.
pub open spec fn normalized_source(path: Seq<char>, cwd: Option<Seq<char>>) -> Seq<char> {
    if !is_abs(path) {
        path
    } else {
        match cwd {
            Some(base) => match strip_base(path, base) {
                Some(r) => "./"@ + r,
                None => path,
            },
            None => path,
        }
    }
}

/// How a source is named in the build (see `normalized_source`).
pub fn normalize_source_path(path: &str, cwd: Option<&str>) -> (r: String)
    ensures
        r@ == normalized_source(path@, cwd_view(cwd)),
{
    if !is_absolute(path) {
        return path.to_owned();
    }
    if let Some(base) = cwd {
        if let Some(rel) = strip_base_path(path, base) {
            let mut r = "./".to_owned();
            r.append(rel.as_str());
            return r;
        }
    }
    path.to_owned()
}

/// Whether the walk over the source roots enters the directory `dir`: not when it is excluded
/// and there are no include patterns.
pub fn should_descend(dir: &str, exclude_dirs: &Vec<String>, include_paths: &Vec<String>, cwd: Option<&str>) -> (r: bool)
    ensures
        r == !(excluded(dir@, views(exclude_dirs@), views(include_paths@), cwd_view(cwd)) && include_paths@.len() == 0),
{
    !(is_excluded(dir, exclude_dirs, include_paths, cwd) && include_paths.len() == 0)
}

/// Whether a file found by the walk is a source of the build (see `source_kept`).
pub fn is_source(path: &str, extensions: &Vec<String>, exclude_dirs: &Vec<String>, include_paths: &Vec<String>, cwd: Option<&str>) -> (r: bool)
    ensures
        r == source_kept(path@, views(extensions@), views(exclude_dirs@), views(include_paths@), cwd_view(cwd)),
{
    if is_excluded(path, exclude_dirs, include_paths, cwd) {
        return false;
    }
    let ext = extension_of(path);
    let lower = to_lowercase(ext.as_str());
    let mut i: usize = 0;
    while i < extensions.len()
        invariant
            i <= extensions@.len(),
            ext@ == file_ext(path@),
            lower@ == lowercase_of(ext@),
            !excluded(path@, views(exclude_dirs@), views(include_paths@), cwd_view(cwd)),
            forall|j: int| 0 <= j < i ==> !(#[trigger] views(extensions@)[j] == ext@ || views(extensions@)[j] == lowercase_of(ext@)),
        decreases extensions@.len() - i,
    {
        if str_eq(extensions[i].as_str(), ext.as_str()) || str_eq(extensions[i].as_str(), lower.as_str()) {
            assert(views(extensions@)[i as int] == extensions@[i as int]@);
            assert(ext_allowed(file_ext(path@), views(extensions@)));
            return true;
        }
        i = i + 1;
    }
    false
}

/// The sources among the files a walk found, named as in the build, in the order found.
pub open spec fn kept_sources(files: Seq<Seq<char>>, extensions: Seq<Seq<char>>, exclude_dirs: Seq<Seq<char>>, include_paths: Seq<Seq<char>>, cwd: Option<Seq<char>>) -> Seq<Seq<char>>
    decreases files.len(),
{
    if files.len() == 0 {
        Seq::empty()
    } else {
        let init = kept_sources(files.drop_last(), extensions, exclude_dirs, include_paths, cwd);
        if source_kept(files.last(), extensions, exclude_dirs, include_paths, cwd) {
            init.push(normalized_source(files.last(), cwd))
        } else {
            init
        }
    }
}

/// The source roots as an error message names them.
pub open spec fn roots_text(roots: Seq<Seq<char>>) -> Seq<char> {
    if roots.len() == 0 {
        "<none>"@
    } else {
        join_seq(roots, ", "@)
    }
}

/// The source roots as an error message names them (see `roots_text`).
pub fn format_roots(roots: &Vec<String>) -> (r: String)
    ensures
        r@ == roots_text(views(roots@)),
{
    if roots.len() == 0 {
        return "<none>".to_owned();
    }
    crate::utils::strings::join(roots, ", ")
}

/// The sources of a build, sorted: `files` are the regular files found by walking the source
/// roots (absolute paths, each once), `roots` the roots as configured. Fails when there is none.
pub fn collect_sources(files: &Vec<String>, roots: &Vec<String>, extensions: &Vec<String>, exclude_dirs: &Vec<String>, include_paths: &Vec<String>, cwd: Option<&str>) -> (r: Result<Vec<String>, String>)
    ensures
        ({
            let kept = kept_sources(views(files@), views(extensions@), views(exclude_dirs@), views(include_paths@), cwd_view(cwd));
            match r {
                Ok(v) => kept.len() > 0 && views(v@) == kept.sort_by(key_leq()),
                Err(m) => kept.len() == 0 && m@ == "No source files found in "@ + roots_text(views(roots@)),
            }
        }),
{
    let ghost ex = views(extensions@);
    let ghost ed = views(exclude_dirs@);
    let ghost ip = views(include_paths@);
    let ghost cw = cwd_view(cwd);
    let mut sources: Vec<String> = Vec::new();
    let mut i: usize = 0;
    while i < files.len()
        invariant
            i <= files@.len(),
            ex == views(extensions@),
            ed == views(exclude_dirs@),
            ip == views(include_paths@),
            cw == cwd_view(cwd),
            views(sources@) == kept_sources(views(files@).take(i as int), ex, ed, ip, cw),
        decreases files@.len() - i,
    {
        assert(views(files@).take(i + 1).drop_last() =~= views(files@).take(i as int));
        assert(views(files@).take(i + 1).last() == files@[i as int]@);
        if is_source(files[i].as_str(), extensions, exclude_dirs, include_paths, cwd) {
            let n = normalize_source_path(files[i].as_str(), cwd);
            let ghost prev = sources@;
            sources.push(n);
            assert(views(sources@) =~= views(prev).push(n@));
        }
        i = i + 1;
    }
    assert(views(files@).take(i as int) =~= views(files@));
    let ghost sv = views(sources@);
    let sorted = sort_strings(sources);
    proof {
        crate::utils::sort::lemma_key_leq_total();
        sv.lemma_sort_by_ensures(key_leq());
        vstd::seq_lib::to_multiset_len(sv);
        vstd::seq_lib::to_multiset_len(views(sorted@));
    }
    if sorted.len() == 0 {
        let mut m = "No source files found in ".to_owned();
        let rt = format_roots(roots);
        m.append(rt.as_str());
        return Err(m);
    }
    Ok(sorted)
}

/// The prerequisites a dependency file lists (see `parse_d_file`).
pub open spec fn d_deps(content: Seq<char>) -> Seq<Seq<char>> {
    d_deps_from(content, choose|k: int| char_at_byte(d_joined(content), d_target_end(d_joined(content)), k))
}

proof fn lemma_char_at_byte_unique(t: Seq<char>, b: int, k1: int, k2: int)
    requires
        char_at_byte(t, b, k1),
        char_at_byte(t, b, k2),
    ensures
        k1 == k2,
{
    if k1 < k2 {
        lemma_utf8_bytes_mono(t, k1, k2);
    } else if k2 < k1 {
        lemma_utf8_bytes_mono(t, k2, k1);
    }
}

/// The prerequisites a dependency file lists, as `d_deps` names them.
pub fn read_d_file(content: &str) -> (deps: Vec<String>)
    requires
        d_file_sliceable(content@),
    ensures
        views(deps@) == d_deps(content@),
{
    let deps = parse_d_file(content);
    proof {
        let t = d_joined(content@);
        let b = d_target_end(t);
        let k = choose|k: int| char_at_byte(t, b, k) && views(deps@) == d_deps_from(content@, k);
        let c = choose|k: int| char_at_byte(t, b, k);
        lemma_char_at_byte_unique(t, b, k, c);
    }
    deps
}

/// Whether two paths name the same place component by component (`Path` equality).
pub fn same_path(a: &str, b: &str) -> (r: bool)
    ensures
        r == (comps(a@) == comps(b@)),
{
    let x = components(a);
    let y = components(b);
    if x.len() != y.len() {
        assert(views(x@).len() != views(y@).len());
        return false;
    }
    let mut i: usize = 0;
    while i < x.len()
        invariant
            x@.len() == y@.len(),
            views(x@) == comps(a@),
            views(y@) == comps(b@),
            i <= x@.len(),
            forall|k: int| 0 <= k < i ==> x@[k]@ == y@[k]@,
        decreases x@.len() - i,
    {
        if !str_eq(x[i].as_str(), y[i].as_str()) {
            assert(views(x@)[i as int] != views(y@)[i as int]);
            assert(views(x@) != views(y@));
            return false;
        }
        i = i + 1;
    }
    assert(views(x@) =~= views(y@));
    true
}

/// The modification time of the `i`-th prerequisite (none past the end: the file is missing).
pub open spec fn time_at(times: Seq<Option<u128>>, i: int) -> Option<u128> {
    if 0 <= i < times.len() {
        times[i]
    } else {
        None
    }
}

/// A prerequisite other than the object and the source that is missing (no time) or newer
/// than the object.
pub open spec fn dep_due(dep: Seq<char>, source: Seq<char>, object: Seq<char>, time: Option<u128>, o: u128) -> bool {
    comps(dep) != comps(object) && comps(dep) != comps(source) && match time {
        None => true,
        Some(t) => t > o,
    }
}

/// Whether an object must be rebuilt: it is missing; the source's time is unknown or newer;
/// or a prerequisite of its dependency file is due (see `dep_due`).
pub open spec fn rebuild_due(source: Seq<char>, object: Seq<char>, src_time: Option<u128>, obj_time: Option<u128>, deps: Option<Seq<Seq<char>>>, dep_times: Seq<Option<u128>>) -> bool {
    ||| obj_time is None
    ||| src_time is None
    ||| src_time->0 > obj_time->0
    ||| deps is Some && exists|i: int|
        0 <= i < deps->0.len() && #[trigger] dep_due(deps->0[i], source, object, time_at(dep_times, i), obj_time->0)
}

proof fn lemma_dep_newer(source: Seq<char>, object: Seq<char>, s: u128, o: u128, ds: Seq<Seq<char>>, dep_times: Seq<Option<u128>>, i: int)
    requires
        s <= o,
        0 <= i < ds.len(),
        dep_due(ds[i], source, object, time_at(dep_times, i), o),
    ensures
        rebuild_due(source, object, Some(s), Some(o), Some(ds), dep_times),
{
    assert(dep_due(Some(ds)->0[i], source, object, time_at(dep_times, i), Some(o)->0));
}

/// An object that is missing is rebuilt.
pub proof fn law_missing_object_rebuilds(
    source: Seq<char>,
    object: Seq<char>,
    src_time: Option<u128>,
    deps: Option<Seq<Seq<char>>>,
    dep_times: Seq<Option<u128>>,
)
    ensures
        rebuild_due(source, object, src_time, None, deps, dep_times),
{
}

/// An object older than its source (or whose source's time is unknown) is rebuilt.
pub proof fn law_newer_source_rebuilds(
    source: Seq<char>,
    object: Seq<char>,
    src_time: Option<u128>,
    o: u128,
    deps: Option<Seq<Seq<char>>>,
    dep_times: Seq<Option<u128>>,
)
    requires
        src_time is None || src_time->0 > o,
    ensures
        rebuild_due(source, object, src_time, Some(o), deps, dep_times),
{
}

/// An object older than a prerequisite its dependency file lists (other than the source and
/// the object themselves) is rebuilt: a header edited after the object was built.
pub proof fn law_newer_prerequisite_rebuilds(
    source: Seq<char>,
    object: Seq<char>,
    src_time: Option<u128>,
    o: u128,
    ds: Seq<Seq<char>>,
    dep_times: Seq<Option<u128>>,
    i: int,
)
    requires
        0 <= i < ds.len(),
        i < dep_times.len(),
        dep_times[i] is Some,
        dep_times[i]->0 > o,
        comps(ds[i]) != comps(object),
        comps(ds[i]) != comps(source),
    ensures
        rebuild_due(source, object, src_time, Some(o), Some(ds), dep_times),
{
    assert(dep_due(Some(ds)->0[i], source, object, time_at(dep_times, i), Some(o)->0));
}

/// An object whose dependency file lists a prerequisite that is missing (other than the source
/// and the object themselves) is rebuilt.
pub proof fn law_missing_prerequisite_rebuilds(
    source: Seq<char>,
    object: Seq<char>,
    src_time: Option<u128>,
    o: u128,
    ds: Seq<Seq<char>>,
    dep_times: Seq<Option<u128>>,
    i: int,
)
    requires
        0 <= i < ds.len(),
        i >= dep_times.len() || dep_times[i] is None,
        comps(ds[i]) != comps(object),
        comps(ds[i]) != comps(source),
    ensures
        rebuild_due(source, object, src_time, Some(o), Some(ds), dep_times),
{
    assert(time_at(dep_times, i) is None);
    assert(dep_due(Some(ds)->0[i], source, object, time_at(dep_times, i), Some(o)->0));
}

/// An object that exists and is no older than its source and than every prerequisite its
/// dependency file lists, all of which exist, is not rebuilt (the source and the object may be
/// listed themselves).
pub proof fn law_up_to_date_not_rebuilt(
    source: Seq<char>,
    object: Seq<char>,
    s: u128,
    o: u128,
    deps: Option<Seq<Seq<char>>>,
    dep_times: Seq<Option<u128>>,
)
    requires
        s <= o,
        deps is Some ==> forall|i: int|
            #![trigger deps->0[i]]
            0 <= i < deps->0.len() ==> comps(deps->0[i]) == comps(object) || comps(deps->0[i]) == comps(source) || (i
                < dep_times.len() && dep_times[i] is Some && dep_times[i]->0 <= o),
    ensures
        !rebuild_due(source, object, Some(s), Some(o), deps, dep_times),
{
    if deps is Some {
        let ds = deps->0;
        assert forall|i: int| 0 <= i < ds.len() implies !#[trigger] dep_due(ds[i], source, object, time_at(dep_times, i), o) by {
            assert(deps->0[i] == ds[i]);
        }
    }
}

/// Whether an object must be rebuilt (see `rebuild_due`): `d_content` is its dependency file
/// when it could be read, and `dep_times[i]` the time of its `i`-th prerequisite (see
/// `read_d_file`) when that file exists.
pub fn needs_rebuild(source: &str, object: &str, src_time: Option<u128>, obj_time: Option<u128>, d_content: Option<&str>, dep_times: &Vec<Option<u128>>) -> (r: bool)
    requires
        d_content matches Some(c) ==> d_file_sliceable(c@),
    ensures
        r == rebuild_due(
            source@,
            object@,
            src_time,
            obj_time,
            match d_content {
                Some(c) => Some(d_deps(c@)),
                None => None,
            },
            dep_times@,
        ),
{
    let o = match obj_time {
        Some(o) => o,
        None => return true,
    };
    match src_time {
        Some(s) => if s > o {
            return true;
        },
        None => return true,
    }
    let content = match d_content {
        Some(c) => c,
        None => return false,
    };
    let deps = read_d_file(content);
    let ghost ds = views(deps@);
    let mut i: usize = 0;
    while i < deps.len()
        invariant
            i <= deps@.len(),
            ds == views(deps@),
            ds == d_deps(content@),
            d_content == Some(content),
            obj_time == Some(o),
            src_time matches Some(s) && s <= o,
            forall|k: int| 0 <= k < i ==> !#[trigger] dep_due(ds[k], source@, object@, time_at(dep_times@, k), o),
        decreases deps@.len() - i,
    {
        let d = deps[i].as_str();
        assert(ds[i as int] == d@);
        if !same_path(d, object) && !same_path(d, source) {
            let t = if i < dep_times.len() {
                dep_times[i]
            } else {
                None
            };
            assert(time_at(dep_times@, i as int) == t);
            match t {
                None => {
                    proof { lemma_dep_newer(source@, object@, src_time->0, o, ds, dep_times@, i as int); }
                    return true;
                },
                Some(tt) => if tt > o {
                    proof { lemma_dep_newer(source@, object@, src_time->0, o, ds, dep_times@, i as int); }
                    return true;
                },
            }
        }
        i = i + 1;
    }
    false
}

} // verus!
