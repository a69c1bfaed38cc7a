//! Name completion: prefix tests, the longest common prefix of the
//! candidates, and the line that a completed command is sent back as.
use vstd::prelude::*;
use crate::text::{push_char, chars_of, string_from_range};
use crate::escape::{esc_string_blanks, spec_esc_blanks};
use crate::wildcard::views;

verus! {

/// A character with ASCII upper case folded to lower case, as a code point.
pub open spec fn fold_ascii(c: char) -> u32 {
    if 'A' <= c <= 'Z' {
        (c as u32 + 32) as u32
    } else {
        c as u32
    }
}

/// Whether two characters are equal, ignoring ASCII case where asked to.
pub open spec fn chars_match(a: char, b: char, ignore_case: bool) -> bool {
    if ignore_case {
        fold_ascii(a) == fold_ascii(b)
    } else {
        a == b
    }
}

/// Whether `s` starts with `prefix`, comparing characters by `chars_match`.
pub open spec fn spec_starts_with(s: Seq<char>, prefix: Seq<char>, ignore_case: bool) -> bool {
    &&& prefix.len() <= s.len()
    &&& forall|i: int| 0 <= i < prefix.len() ==> chars_match(#[trigger] s[i], prefix[i], ignore_case)
}

fn fold_ascii_exec(c: char) -> (r: u32)
    ensures
        r == fold_ascii(c),
{
    if 'A' <= c && c <= 'Z' {
        c as u32 + 32
    } else {
        c as u32
    }
}

fn starts_with_by(s: &str, prefix: &str, ignore_case: bool) -> (res: bool)
    ensures
        res == spec_starts_with(s@, prefix@, ignore_case),
{
    let sv = chars_of(s);
    let pv = chars_of(prefix);
    if pv.len() > sv.len() {
        return false;
    }
    let mut i: usize = 0;
    while i < pv.len()
        invariant
            sv@ == s@,
            pv@ == prefix@,
            pv.len() <= sv.len(),
            i <= pv.len(),
            forall|j: int| 0 <= j < i ==> chars_match(#[trigger] sv@[j], pv@[j], ignore_case),
        decreases pv.len() - i,
    {
        let same = if ignore_case {
            fold_ascii_exec(sv[i]) == fold_ascii_exec(pv[i])
        } else {
            sv[i] == pv[i]
        };
        if !same {
            return false;
        }
        i += 1;
    }
    true
}

/// Whether `s` starts with `prefix`, ASCII letters matching in either case.
pub fn starts_with_ignore_case_ascii(s: &str, prefix: &str) -> (res: bool)
    ensures
        res == spec_starts_with(s@, prefix@, true),
{
    starts_with_by(s, prefix, true)
}

/// Whether a directory entry name starts with the text typed so far; where
/// the file system ignores case (`ignore_case`), ASCII letters match either
/// case.
pub fn platform_starts_with(s: &str, prefix: &str, ignore_case: bool) -> (res: bool)
    ensures
        res == spec_starts_with(s@, prefix@, ignore_case),
{
    if ignore_case {
        starts_with_ignore_case_ascii(s, prefix)
    } else {
        starts_with_by(s, prefix, false)
    }
}

/// The length of the longest common prefix of two texts.
pub open spec fn common_len(a: Seq<char>, b: Seq<char>) -> nat
    decreases a.len(),
{
    if a.len() == 0 || b.len() == 0 || a[0] != b[0] {
        0
    } else {
        1 + common_len(a.drop_first(), b.drop_first())
    }
}

/// The longest common prefix of a list of texts, character by character:
/// empty for an empty list.
pub open spec fn longest_common_text(list: Seq<Seq<char>>) -> Seq<char>
    decreases list.len(),
{
    if list.len() == 0 {
        Seq::empty()
    } else if list.len() == 1 {
        list[0]
    } else {
        let p = longest_common_text(list.drop_last());
        p.take(common_len(p, list.last()) as int)
    }
}

/// `common_len` is the first position where the texts differ or one ends.
proof fn lemma_common_len(a: Seq<char>, b: Seq<char>)
    ensures
        common_len(a, b) <= a.len(),
        common_len(a, b) <= b.len(),
        a.take(common_len(a, b) as int) == b.take(common_len(a, b) as int),
        common_len(a, b) == a.len() || common_len(a, b) == b.len() || a[common_len(a, b) as int]
            != b[common_len(a, b) as int],
    decreases a.len(),
{
    if !(a.len() == 0 || b.len() == 0 || a[0] != b[0]) {
        lemma_common_len(a.drop_first(), b.drop_first());
        let k = common_len(a.drop_first(), b.drop_first()) as int;
        assert(a.take(k + 1) == seq![a[0]] + a.drop_first().take(k as int));
        assert(b.take(k + 1) == seq![b[0]] + b.drop_first().take(k as int));
        if k < a.drop_first().len() && k < b.drop_first().len() {
            assert(a[k + 1] == a.drop_first()[k as int]);
            assert(b[k + 1] == b.drop_first()[k as int]);
        }
    } else {
        assert(a.take(0) == b.take(0));
    }
}

/// A position at which two texts agree on everything before and differ or
/// one ends is their common length.
proof fn lemma_common_len_unique(a: Seq<char>, b: Seq<char>, k: int)
    requires
        0 <= k <= a.len(),
        k <= b.len(),
        a.take(k) == b.take(k),
        k == a.len() || k == b.len() || a[k] != b[k],
    ensures
        common_len(a, b) == k,
{
    lemma_common_len(a, b);
    let c = common_len(a, b) as int;
    if c < k {
        assert(a[c] == a.take(k)[c]);
        assert(b[c] == b.take(k)[c]);
    } else if c > k {
        assert(a[k] == a.take(c)[k]);
        assert(b[k] == b.take(c)[k]);
    }
}

/// The number of bytes that UTF-8 takes for a character.
pub open spec fn utf8_len(c: char) -> nat {
    if (c as u32) < 0x80 {
        1
    } else if (c as u32) < 0x800 {
        2
    } else if (c as u32) < 0x10000 {
        3
    } else {
        4
    }
}

/// The number of bytes of a text in UTF-8.
pub open spec fn byte_len(s: Seq<char>) -> nat
    decreases s.len(),
{
    if s.len() == 0 {
        0
    } else {
        byte_len(s.drop_last()) + utf8_len(s.last())
    }
}

/// How many leading characters of a text lie wholly within its first `n`
/// bytes.
pub open spec fn chars_within(s: Seq<char>, n: int) -> nat
    decreases s.len(),
{
    if s.len() == 0 || n < utf8_len(s[0]) {
        0
    } else {
        1 + chars_within(s.drop_first(), n - utf8_len(s[0]))
    }
}

/// Whether every character of a text is ASCII.
pub open spec fn all_ascii(s: Seq<char>) -> bool {
    forall|i: int| 0 <= i < s.len() ==> (#[trigger] s[i] as u32) < 0x80
}

/// One step of the common prefix of the candidates: a candidate equal to
/// the prefix so far leaves it whole; any other cuts it after as many bytes
/// as the two have leading characters in common.
pub open spec fn lcp_step(p: Seq<char>, o: Seq<char>) -> Seq<char> {
    if p == o {
        p
    } else {
        p.take(chars_within(p, common_len(p, o) as int) as int)
    }
}

/// Whether the cut of `lcp_step` falls between two characters.
pub open spec fn lcp_step_clean(p: Seq<char>, o: Seq<char>) -> bool {
    p == o || byte_len(p.take(chars_within(p, common_len(p, o) as int) as int)) == common_len(p, o)
}

/// The common prefix of the candidates of a completion: the first candidate
/// cut by `lcp_step` against each further one; empty for no candidates.
pub open spec fn spec_lcp(list: Seq<Seq<char>>) -> Seq<char>
    decreases list.len(),
{
    if list.len() == 0 {
        Seq::empty()
    } else if list.len() == 1 {
        list[0]
    } else {
        lcp_step(spec_lcp(list.drop_last()), list.last())
    }
}

/// Whether every cut made on the way to `spec_lcp` falls between two
/// characters.
pub open spec fn lcp_cuts_clean(list: Seq<Seq<char>>) -> bool
    decreases list.len(),
{
    list.len() <= 1 || (lcp_cuts_clean(list.drop_last()) && lcp_step_clean(
        spec_lcp(list.drop_last()),
        list.last(),
    ))
}

fn utf8_len_exec(c: char) -> (n: usize)
    ensures
        n == utf8_len(c),
{
    let v = c as u32;
    if v < 0x80 {
        1
    } else if v < 0x800 {
        2
    } else if v < 0x10000 {
        3
    } else {
        4
    }
}

/// How many leading characters of `p` lie within its first `n` bytes, and
/// how many bytes they take.
fn chars_in_bytes(p: &Vec<char>, n: usize) -> (res: (usize, usize))
    ensures
        res.0 == chars_within(p@, n as int),
        res.0 <= p.len(),
        res.1 == byte_len(p@.take(res.0 as int)),
{
    let mut k: usize = 0;
    let mut b: usize = 0;
    proof {
        assert(p@.skip(0) == p@);
        assert(p@.take(0).len() == 0);
    }
    loop
        invariant
            k <= p.len(),
            b <= n,
            b == byte_len(p@.take(k as int)),
            chars_within(p@, n as int) == k + chars_within(p@.skip(k as int), n - b),
        decreases p.len() - k,
    {
        if k == p.len() {
            return (k, b);
        }
        let u = utf8_len_exec(p[k]);
        proof {
            let s = p@.skip(k as int);
            assert(s[0] == p@[k as int]);
        }
        if u > n - b {
            return (k, b);
        }
        proof {
            let s = p@.skip(k as int);
            assert(s.drop_first() == p@.skip(k + 1));
            assert(p@.take(k + 1).drop_last() == p@.take(k as int));
            assert(p@.take(k + 1).last() == p@[k as int]);
        }
        b = b + u;
        k = k + 1;
    }
}

/// The common prefix of the texts, and whether each cut on the way fell
/// between two characters.
fn lcp_checked(strs: &Vec<String>) -> (res: (Vec<char>, bool))
    ensures
        res.0@ == spec_lcp(views(strs@)),
        res.1 == lcp_cuts_clean(views(strs@)),
{
    if strs.len() == 0 {
        return (Vec::new(), true);
    }
    let mut prefix = chars_of(strs[0].as_str());
    let mut clean = true;
    let mut i: usize = 1;
    proof {
        assert(views(strs@).take(1) == seq![strs@[0]@]);
    }
    while i < strs.len()
        invariant
            1 <= i <= strs.len(),
            prefix@ == spec_lcp(views(strs@).take(i as int)),
            clean == lcp_cuts_clean(views(strs@).take(i as int)),
        decreases strs.len() - i,
    {
        let other = chars_of(strs[i].as_str());
        let mut j: usize = 0;
        while j < prefix.len() && j < other.len() && prefix[j] == other[j]
            invariant
                j <= prefix.len(),
                j <= other.len(),
                prefix@.take(j as int) == other@.take(j as int),
            decreases prefix.len() - j,
        {
            proof {
                assert(prefix@.take(j + 1) == prefix@.take(j as int).push(prefix@[j as int]));
                assert(other@.take(j + 1) == other@.take(j as int).push(other@[j as int]));
            }
            j += 1;
        }
        proof {
            lemma_common_len_unique(prefix@, other@, j as int);
            let l = views(strs@).take(i + 1);
            assert(l.drop_last() == views(strs@).take(i as int));
            assert(l.last() == strs@[i as int]@);
            assert(prefix@ == prefix@.take(prefix.len() as int));
            assert(other@ == other@.take(other.len() as int));
        }
        if !(j == prefix.len() && j == other.len()) {
            let (k, b) = chars_in_bytes(&prefix, j);
            clean = clean && b == j;
            prefix.truncate(k);
        }
        i += 1;
    }
    proof {
        assert(views(strs@).take(strs.len() as int) == views(strs@));
    }
    (prefix, clean)
}

/// The common prefix of the candidates of a completion. Each further
/// candidate cuts the prefix after as many bytes as it has leading
/// characters in common with it, which must fall between two characters.
pub fn longest_common_prefix(strs: Vec<String>) -> (res: String)
    requires
        lcp_cuts_clean(views(strs@)),
    ensures
        res@ == spec_lcp(views(strs@)),
{
    let (prefix, _clean) = lcp_checked(&strs);
    string_from_range(&prefix, 0, prefix.len())
}

/// Whether `longest_common_prefix` accepts the texts: every cut it makes
/// falls between two characters.
pub fn common_prefix_cuts_cleanly(strs: &Vec<String>) -> (res: bool)
    ensures
        res == lcp_cuts_clean(views(strs@)),
{
    let (_prefix, clean) = lcp_checked(strs);
    clean
}

/// The longest common prefix is a prefix of every text of the list, and no
/// longer text is: the texts end or differ right after it.
pub proof fn lemma_lcp_is_longest(list: Seq<Seq<char>>)
    requires
        list.len() > 0,
    ensures
        forall|i: int|
            0 <= i < list.len() ==> longest_common_text(list).len() <= (#[trigger] list[i]).len()
                && list[i].take(longest_common_text(list).len() as int) == longest_common_text(list),
        !(forall|i: int|
            0 <= i < list.len() ==> (#[trigger] list[i]).len() > longest_common_text(list).len() && list[i][longest_common_text(
                list,
            ).len() as int] == list[0][longest_common_text(list).len() as int]),
    decreases list.len(),
{
    let r = longest_common_text(list);
    if list.len() == 1 {
        assert(list[0].take(list[0].len() as int) == list[0]);
        assert(!(list[0].len() > r.len()));
    } else {
        let rest = list.drop_last();
        lemma_lcp_is_longest(rest);
        let p = longest_common_text(rest);
        let last = list.last();
        lemma_common_len(p, last);
        let k = common_len(p, last) as int;
        assert(r == p.take(k));
        assert forall|i: int| 0 <= i < list.len() implies r.len() <= (#[trigger] list[i]).len()
            && list[i].take(r.len() as int) == r by {
            if i < list.len() - 1 {
                assert(list[i] == rest[i]);
                assert(rest[i].take(p.len() as int) == p);
                assert(list[i].take(k) == p.take(k));
            } else {
                assert(list[i] == last);
            }
        }
        if forall|i: int|
            0 <= i < list.len() ==> (#[trigger] list[i]).len() > r.len() && list[i][r.len() as int]
                == list[0][r.len() as int] {
            // the last text agrees with the first after `r`, so `r` is shorter than `p`
            assert(list[list.len() - 1].len() > r.len());
            if k == p.len() {
                assert forall|i: int|
                    0 <= i < rest.len() implies (#[trigger] rest[i]).len() > p.len() && rest[i][p.len() as int]
                    == rest[0][p.len() as int] by {
                    assert(rest[i] == list[i]);
                    assert(rest[0] == list[0]);
                }
            } else {
                assert(k < last.len());
                assert(p[k] != last[k]);
                assert(list[0] == rest[0]);
                assert(rest[0].take(p.len() as int) == p);
                assert(list[0][k] == p[k]);
                assert(list[list.len() - 1][k] == last[k]);
            }
        }
    }
}

/// No more characters lie within `n` bytes than the text has, nor than `n`:
/// each takes at least one byte.
proof fn lemma_chars_within_bounds(s: Seq<char>, n: int)
    ensures
        chars_within(s, n) <= s.len(),
        n >= 0 ==> chars_within(s, n) <= n,
    decreases s.len(),
{
    if !(s.len() == 0 || n < utf8_len(s[0])) {
        lemma_chars_within_bounds(s.drop_first(), n - utf8_len(s[0]));
    }
}

/// Where the first `k` characters are ASCII and `k <= n`, all of them lie
/// within `n` bytes.
proof fn lemma_chars_within_ascii(s: Seq<char>, n: int, k: int)
    requires
        0 <= k <= s.len(),
        k <= n,
        forall|i: int| 0 <= i < k ==> (#[trigger] s[i] as u32) < 0x80,
    ensures
        chars_within(s, n) >= k,
    decreases s.len(),
{
    if k > 0 {
        assert((s[0] as u32) < 0x80);
        let t = s.drop_first();
        assert forall|i: int| 0 <= i < k - 1 implies (#[trigger] t[i] as u32) < 0x80 by {
            assert(t[i] == s[i + 1]);
        }
        lemma_chars_within_ascii(t, n - 1, k - 1);
    }
}

/// An ASCII text takes one byte per character.
proof fn lemma_byte_len_ascii(s: Seq<char>)
    requires
        all_ascii(s),
    ensures
        byte_len(s) == s.len(),
    decreases s.len(),
{
    if s.len() > 0 {
        let t = s.drop_last();
        assert forall|i: int| 0 <= i < t.len() implies (#[trigger] t[i] as u32) < 0x80 by {
            assert(t[i] == s[i]);
        }
        lemma_byte_len_ascii(t);
        assert((s[s.len() - 1] as u32) < 0x80);
    }
}

/// The common prefix of the candidates is a prefix of each of them.
pub proof fn lemma_lcp_is_common_prefix(list: Seq<Seq<char>>)
    ensures
        forall|i: int|
            0 <= i < list.len() ==> spec_lcp(list).len() <= (#[trigger] list[i]).len()
                && list[i].take(spec_lcp(list).len() as int) == spec_lcp(list),
    decreases list.len(),
{
    if list.len() == 1 {
        assert(list[0].take(list[0].len() as int) == list[0]);
    } else if list.len() > 1 {
        let rest = list.drop_last();
        lemma_lcp_is_common_prefix(rest);
        let p = spec_lcp(rest);
        let o = list.last();
        let r = spec_lcp(list);
        lemma_common_len(p, o);
        let c = common_len(p, o) as int;
        lemma_chars_within_bounds(p, c);
        let k = r.len() as int;
        assert(k <= p.len());
        assert(r == p.take(k));
        assert forall|i: int| 0 <= i < list.len() implies r.len() <= (#[trigger] list[i]).len()
            && list[i].take(r.len() as int) == r by {
            if i < list.len() - 1 {
                assert(list[i] == rest[i]);
                assert(rest[i].take(p.len() as int) == p);
                assert(list[i].take(k) == p.take(k)) by {
                    assert forall|m: int| 0 <= m < k implies list[i].take(k)[m] == p.take(k)[m] by {
                        assert(list[i].take(p.len() as int)[m] == p[m]);
                    }
                }
            } else {
                assert(list[i] == o);
                if p == o {
                    assert(o.take(o.len() as int) == o);
                } else {
                    assert(k <= c);
                    assert(o.take(k) == p.take(k)) by {
                        assert forall|m: int| 0 <= m < k implies o.take(k)[m] == p.take(k)[m] by {
                            assert(o.take(c)[m] == p.take(c)[m]);
                        }
                    }
                }
            }
        }
    }
}

/// On ASCII texts every cut of the common prefix falls between two
/// characters, and the common prefix of the candidates is their longest
/// common prefix: a prefix of each, after which they end or differ.
pub proof fn lemma_lcp_of_ascii_is_longest(list: Seq<Seq<char>>)
    requires
        list.len() > 0,
        forall|i: int| 0 <= i < list.len() ==> all_ascii(#[trigger] list[i]),
    ensures
        lcp_cuts_clean(list),
        spec_lcp(list) == longest_common_text(list),
        !(forall|i: int|
            0 <= i < list.len() ==> (#[trigger] list[i]).len() > spec_lcp(list).len()
                && list[i][spec_lcp(list).len() as int] == list[0][spec_lcp(list).len() as int]),
    decreases list.len(),
{
    if list.len() > 1 {
        let rest = list.drop_last();
        assert forall|i: int| 0 <= i < rest.len() implies all_ascii(#[trigger] rest[i]) by {
            assert(rest[i] == list[i]);
        }
        lemma_lcp_of_ascii_is_longest(rest);
        lemma_lcp_is_common_prefix(rest);
        let p = spec_lcp(rest);
        let o = list.last();
        lemma_common_len(p, o);
        let c = common_len(p, o) as int;
        assert(rest[0].take(p.len() as int) == p);
        assert(all_ascii(rest[0]));
        assert forall|i: int| 0 <= i < p.len() implies (#[trigger] p[i] as u32) < 0x80 by {
            assert(rest[0].take(p.len() as int)[i] == rest[0][i]);
        }
        if p == o {
            assert(p.take(c) == p);
        } else {
            lemma_chars_within_bounds(p, c);
            lemma_chars_within_ascii(p, c, c);
            let t = p.take(c);
            assert forall|i: int| 0 <= i < t.len() implies (#[trigger] t[i] as u32) < 0x80 by {
                assert(t[i] == p[i]);
            }
            lemma_byte_len_ascii(t);
        }
    }
    lemma_lcp_is_longest(list);
}

/// Where each candidate starts with an ASCII text, so does their common
/// prefix.
proof fn lemma_lcp_keeps_ascii_prefix(list: Seq<Seq<char>>, part: Seq<char>)
    requires
        list.len() > 0,
        all_ascii(part),
        forall|i: int|
            0 <= i < list.len() ==> part.len() <= (#[trigger] list[i]).len() && list[i].take(
                part.len() as int,
            ) == part,
    ensures
        part.len() <= spec_lcp(list).len(),
        spec_lcp(list).take(part.len() as int) == part,
    decreases list.len(),
{
    let m = part.len() as int;
    if list.len() == 1 {
        assert(list[0] == list[0]);
    } else {
        let rest = list.drop_last();
        assert forall|i: int| 0 <= i < rest.len() implies part.len() <= (#[trigger] rest[i]).len()
            && rest[i].take(m) == part by {
            assert(rest[i] == list[i]);
        }
        lemma_lcp_keeps_ascii_prefix(rest, part);
        let p = spec_lcp(rest);
        let o = list.last();
        assert(o == list[list.len() - 1]);
        if p != o {
            lemma_common_len(p, o);
            let c = common_len(p, o) as int;
            if c < m {
                assert(p[c] == p.take(m)[c]);
                assert(o[c] == o.take(m)[c]);
            }
            assert forall|i: int| 0 <= i < m implies (#[trigger] p[i] as u32) < 0x80 by {
                assert(p.take(m)[i] == p[i]);
                assert(part[i] == p[i]);
            }
            lemma_chars_within_ascii(p, c, m);
            lemma_chars_within_bounds(p, c);
            let k = chars_within(p, c) as int;
            assert(p.take(k).take(m) == p.take(m));
        }
    }
}


/// A directory entry as completion sees it.
pub struct EntryInfo {
    pub name: String,
    pub is_dir: bool,
    pub is_exec: bool,
}

/// The candidates of a completion: the entries whose name starts with
/// `part`, and, where only executables are asked for, that are executable
/// or directories, through which a program's path goes on; directories get
/// the separator appended.
pub open spec fn spec_candidates(
    entries: Seq<EntryInfo>,
    part: Seq<char>,
    sep: Seq<char>,
    exe: bool,
    ignore_case: bool,
) -> Seq<Seq<char>>
    decreases entries.len(),
{
    if entries.len() == 0 {
        Seq::empty()
    } else {
        let rest = spec_candidates(entries.drop_last(), part, sep, exe, ignore_case);
        let e = entries.last();
        if (!exe || e.is_dir || e.is_exec) && spec_starts_with(e.name@, part, ignore_case) {
            rest.push(if e.is_dir { e.name@ + sep } else { e.name@ })
        } else {
            rest
        }
    }
}

/// The completed path: the directory, the separator, and the one candidate;
/// without candidates the typed part; with several their longest common
/// prefix followed by a bell.
pub open spec fn spec_completion(dir: Seq<char>, sep: Seq<char>, part: Seq<char>, cands: Seq<Seq<char>>) -> Seq<
    char,
> {
    if cands.len() == 0 {
        dir + sep + part
    } else if cands.len() == 1 {
        dir + sep + cands[0]
    } else {
        dir + sep + spec_lcp(cands).push('\x07')
    }
}

/// The candidates of completing the name `part` against the entries of a
/// directory, in the order of the entries.
pub fn completion_candidates(
    sep: &str,
    part: &str,
    entries: &Vec<EntryInfo>,
    exe: bool,
    ignore_case: bool,
) -> (res: Vec<String>)
    ensures
        views(res@) == spec_candidates(entries@, part@, sep@, exe, ignore_case),
{
    let mut files: Vec<String> = Vec::new();
    let mut i: usize = 0;
    while i < entries.len()
        invariant
            i <= entries.len(),
            views(files@) == spec_candidates(entries@.take(i as int), part@, sep@, exe, ignore_case),
        decreases entries.len() - i,
    {
        let ghost old_files = files@;
        proof {
            assert(entries@.take(i + 1).drop_last() == entries@.take(i as int));
            assert(entries@.take(i + 1).last() == entries@[i as int]);
        }
        let e = &entries[i];
        if (!exe || e.is_dir || e.is_exec) && platform_starts_with(e.name.as_str(), part, ignore_case) {
            let mut n = e.name.clone();
            if e.is_dir {
                n.append(sep);
            }
            files.push(n);
            assert(views(files@) == views(old_files).push(n@));
        }
        i += 1;
    }
    proof {
        assert(entries@.take(entries.len() as int) == entries@);
    }
    files
}

/// Completes the name `part` typed in directory `dir` against the entries
/// of that directory. The common prefix of several candidates must be cut
/// between two characters.
pub fn complete_name(
    dir: &str,
    sep: &str,
    part: &str,
    entries: &Vec<EntryInfo>,
    exe: bool,
    ignore_case: bool,
) -> (res: String)
    requires
        lcp_cuts_clean(spec_candidates(entries@, part@, sep@, exe, ignore_case)),
    ensures
        res@ == spec_completion(
            dir@,
            sep@,
            part@,
            spec_candidates(entries@, part@, sep@, exe, ignore_case),
        ),
{
    let files = completion_candidates(sep, part, entries, exe, ignore_case);
    let mut res = String::from_str(dir);
    res.append(sep);
    if files.len() == 0 {
        res.append(part);
    } else if files.len() == 1 {
        res.append(files[0].as_str());
    } else {
        let p = longest_common_prefix(files);
        res.append(p.as_str());
        push_char(&mut res, '\x07');
    }
    res
}

/// Every candidate of a case-sensitive completion starts with the typed
/// part.
proof fn lemma_candidates_start_with(
    entries: Seq<EntryInfo>,
    part: Seq<char>,
    sep: Seq<char>,
    exe: bool,
)
    ensures
        forall|j: int|
            0 <= j < spec_candidates(entries, part, sep, exe, false).len() ==> part.len()
                <= (#[trigger] spec_candidates(entries, part, sep, exe, false)[j]).len()
                && spec_candidates(entries, part, sep, exe, false)[j].take(part.len() as int) == part,
    decreases entries.len(),
{
    if entries.len() > 0 {
        lemma_candidates_start_with(entries.drop_last(), part, sep, exe);
        let e = entries.last();
        let c = spec_candidates(entries, part, sep, exe, false);
        let cp = spec_candidates(entries.drop_last(), part, sep, exe, false);
        if (!exe || e.is_dir || e.is_exec) && spec_starts_with(e.name@, part, false) {
            let n = if e.is_dir {
                e.name@ + sep
            } else {
                e.name@
            };
            assert(n.take(part.len() as int) == part) by {
                assert forall|i: int| 0 <= i < part.len() implies n.take(part.len() as int)[i] == part[i] by {
                    assert(chars_match(e.name@[i], part[i], false));
                    assert(n[i] == e.name@[i]);
                }
            }
            assert forall|j: int| 0 <= j < c.len() implies part.len() <= (#[trigger] c[j]).len()
                && c[j].take(part.len() as int) == part by {
                if j < cp.len() {
                    assert(c[j] == cp[j]);
                } else {
                    assert(c[j] == n);
                }
            }
        }
    }
}

/// A case-sensitive completion of an ASCII text never loses what was typed:
/// the completed path is the directory, the separator, the typed part and
/// more.
pub proof fn lemma_completion_extends_typed(
    dir: Seq<char>,
    sep: Seq<char>,
    part: Seq<char>,
    entries: Seq<EntryInfo>,
    exe: bool,
)
    requires
        all_ascii(part),
    ensures
        exists|rest: Seq<char>|
            spec_completion(dir, sep, part, spec_candidates(entries, part, sep, exe, false)) == dir
                + sep + part + rest,
{
    let c = spec_candidates(entries, part, sep, exe, false);
    lemma_candidates_start_with(entries, part, sep, exe);
    if c.len() == 0 {
        assert(dir + sep + part == dir + sep + part + Seq::<char>::empty());
    } else if c.len() == 1 {
        let rest = c[0].skip(part.len() as int);
        assert(c[0] == part + rest);
        assert(dir + sep + c[0] == dir + sep + part + rest);
    } else {
        lemma_lcp_keeps_ascii_prefix(c, part);
        let l = spec_lcp(c);
        let rest = l.skip(part.len() as int).push('\x07');
        assert(l == part + l.skip(part.len() as int));
        assert(dir + sep + l.push('\x07') == dir + sep + part + rest);
    }
}

/// The word a completion works on: the output file where one is given,
/// else the input file, else the last word of the command.
pub open spec fn spec_completion_target(
    cmd: Seq<Seq<char>>,
    in_file: Seq<char>,
    out_file: Seq<char>,
) -> Seq<char> {
    if out_file.len() == 0 {
        if in_file.len() == 0 {
            cmd.last()
        } else {
            in_file
        }
    } else {
        out_file
    }
}

pub fn completion_target(cmd: &Vec<String>, in_file: &String, out_file: &String) -> (res: String)
    requires
        cmd.len() > 0,
    ensures
        res@ == spec_completion_target(views(cmd@), in_file@, out_file@),
{
    if out_file.unicode_len() == 0 {
        if in_file.unicode_len() == 0 {
            cmd[cmd.len() - 1].clone()
        } else {
            in_file.clone()
        }
    } else {
        out_file.clone()
    }
}

/// Words joined by blanks, all but the first escaped.
pub open spec fn spec_join_escaped(words: Seq<Seq<char>>) -> Seq<char>
    decreases words.len(),
{
    if words.len() == 0 {
        Seq::empty()
    } else if words.len() == 1 {
        words[0]
    } else {
        spec_join_escaped(words.drop_last()).push(' ') + spec_esc_blanks(words.last())
    }
}

fn join_escaped(words: &Vec<String>, upto: usize) -> (res: String)
    requires
        0 < upto <= words.len(),
    ensures
        res@ == spec_join_escaped(views(words@).take(upto as int)),
{
    let mut res = words[0].clone();
    let mut i: usize = 1;
    proof {
        assert(views(words@).take(1) == seq![words@[0]@]);
    }
    while i < upto
        invariant
            1 <= i <= upto <= words.len(),
            res@ == spec_join_escaped(views(words@).take(i as int)),
        decreases upto - i,
    {
        proof {
            let l = views(words@).take(i + 1);
            assert(l.drop_last() == views(words@).take(i as int));
            assert(l.last() == words@[i as int]@);
        }
        push_char(&mut res, ' ');
        let e = esc_string_blanks(words[i].clone());
        res.append(e.as_str());
        i += 1;
    }
    res
}

/// The pipeline stages before the command, each joined and followed by `|`.
pub open spec fn spec_pipe_prefix(piped: Seq<Seq<Seq<char>>>) -> Seq<char>
    decreases piped.len(),
{
    if piped.len() == 0 {
        Seq::empty()
    } else {
        spec_pipe_prefix(piped.drop_last()) + spec_join_escaped(piped.last()).push('|')
    }
}

pub open spec fn views2(v: Seq<Vec<String>>) -> Seq<Seq<Seq<char>>> {
    v.map_values(|g: Vec<String>| views(g@))
}

/// The command line that a completion is shown as, up to the completed
/// word: the pipeline stages, then, where the command has arguments, the
/// command without the word being completed and the redirection signs.
pub open spec fn spec_completion_prefix(
    piped: Seq<Seq<Seq<char>>>,
    cmd: Seq<Seq<char>>,
    in_file: Seq<char>,
    out_file: Seq<char>,
    append: bool,
) -> Seq<char> {
    let beg = spec_pipe_prefix(piped);
    if cmd.len() > 1 {
        let words = if out_file.len() == 0 && in_file.len() == 0 {
            cmd.drop_last()
        } else {
            cmd
        };
        let line = beg + spec_join_escaped(words);
        if out_file.len() != 0 {
            let with_in = if in_file.len() != 0 {
                line.push('<') + in_file
            } else {
                line
            };
            let with_app = if append {
                with_in.push('>')
            } else {
                with_in
            };
            with_app.push('>')
        } else if in_file.len() != 0 {
            line.push('<')
        } else {
            line
        }
    } else {
        beg
    }
}

/// The line sent back for a completion: a carriage return, the command line
/// up to the completed word, a blank and the escaped completion.
pub open spec fn spec_completion_line(
    piped: Seq<Seq<Seq<char>>>,
    cmd: Seq<Seq<char>>,
    in_file: Seq<char>,
    out_file: Seq<char>,
    append: bool,
    completed: Seq<char>,
) -> Seq<char> {
    (seq!['\r'] + spec_completion_prefix(piped, cmd, in_file, out_file, append)).push(' ')
        + spec_esc_blanks(completed)
}

pub fn completion_line(
    piped: &Vec<Vec<String>>,
    cmd: &Vec<String>,
    in_file: &String,
    out_file: &String,
    append: bool,
    completed: String,
) -> (res: String)
    requires
        cmd.len() > 0,
        forall|i: int| 0 <= i < piped.len() ==> (#[trigger] piped@[i]).len() > 0,
    ensures
        res@ == spec_completion_line(
            views2(piped@),
            views(cmd@),
            in_file@,
            out_file@,
            append,
            completed@,
        ),
{
    let mut beg = String::new();
    let mut g: usize = 0;
    while g < piped.len()
        invariant
            g <= piped.len(),
            forall|i: int| 0 <= i < piped.len() ==> (#[trigger] piped@[i]).len() > 0,
            beg@ == spec_pipe_prefix(views2(piped@).take(g as int)),
        decreases piped.len() - g,
    {
        let group = &piped[g];
        let part = join_escaped(group, group.len());
        proof {
            let l = views2(piped@).take(g + 1);
            assert(l.drop_last() == views2(piped@).take(g as int));
            assert(l.last() == views(piped@[g as int]@));
            assert(views(group@).take(group.len() as int) == views(group@));
        }
        beg.append(part.as_str());
        push_char(&mut beg, '|');
        g += 1;
    }
    proof {
        assert(views2(piped@).take(piped.len() as int) == views2(piped@));
    }
    let out_empty = out_file.unicode_len() == 0;
    let in_empty = in_file.unicode_len() == 0;
    if cmd.len() > 1 {
        let upto = if out_empty && in_empty {
            cmd.len() - 1
        } else {
            cmd.len()
        };
        let words = join_escaped(cmd, upto);
        proof {
            assert(views(cmd@).take(cmd.len() - 1) == views(cmd@).drop_last());
            assert(views(cmd@).take(cmd.len() as int) == views(cmd@));
        }
        beg.append(words.as_str());
        if !out_empty {
            if !in_empty {
                push_char(&mut beg, '<');
                beg.append(in_file.as_str());
            }
            if append {
                push_char(&mut beg, '>');
            }
            push_char(&mut beg, '>');
        } else if !in_empty {
            push_char(&mut beg, '<');
        }
    }
    let mut res = String::new();
    push_char(&mut res, '\r');
    res.append(beg.as_str());
    push_char(&mut res, ' ');
    let e = esc_string_blanks(completed);
    res.append(e.as_str());
    proof {
        assert(seq!['\r'] + beg@ == Seq::<char>::empty().push('\r') + beg@);
    }
    res
}

} // verus!
