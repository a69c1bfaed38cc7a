//! Splitting a file name pattern at its wildcard, and matching directory
//! entries against the two halves.
use vstd::prelude::*;
use crate::text::{push_char, chars_of, string_from_range};

verus! {

/// The states of the command-line scanners.
#[derive(Clone, Copy, Debug, PartialEq, Eq, Structural)]
pub enum CmdState {
    StartArg,
    QuotedArg,
    DblQuotedArg,
    InArg,
    Esc,
    QEsc,
    DEsc,
}

/// The scanner state of `split_at_star`: the state, the text before the
/// wildcard once one was met, and the text collected since.
pub type StarScan = (CmdState, Option<Seq<char>>, Seq<char>);

/// One step of the wildcard scan. Before the wildcard the states are
/// `StartArg` and `Esc`, after it `InArg` and `QEsc`.
pub open spec fn star_step(st: StarScan, c: char) -> StarScan {
    let (state, before, cur) = st;
    if c == '\\' {
        match state {
            CmdState::Esc | CmdState::QEsc => (state, before, cur.push(c)),
            CmdState::StartArg => (CmdState::Esc, before, cur),
            CmdState::InArg => (CmdState::QEsc, before, cur),
            _ => st,
        }
    } else if c == '*' {
        match state {
            CmdState::Esc => (CmdState::StartArg, before, cur.push(c)),
            CmdState::StartArg => (CmdState::InArg, Some(cur), Seq::empty()),
            CmdState::InArg | CmdState::QEsc => (CmdState::InArg, before, cur.push(c)),
            _ => st,
        }
    } else {
        match state {
            CmdState::Esc => (CmdState::StartArg, before, cur.push('\\').push(c)),
            CmdState::QEsc => (CmdState::InArg, before, cur.push('\\').push(c)),
            CmdState::StartArg | CmdState::InArg => (state, before, cur.push(c)),
            _ => st,
        }
    }
}

/// The wildcard scan after reading `s`.
pub open spec fn star_scan(s: Seq<char>) -> StarScan
    decreases s.len(),
{
    if s.len() == 0 {
        (CmdState::StartArg, None, Seq::empty())
    } else {
        star_step(star_scan(s.drop_last()), s.last())
    }
}

/// The scan states that can occur, and that the text before the wildcard is
/// known once the wildcard was met.
pub open spec fn star_scan_ok(st: StarScan) -> bool {
    &&& (st.0 == CmdState::StartArg || st.0 == CmdState::InArg || st.0 == CmdState::Esc
        || st.0 == CmdState::QEsc)
    &&& (st.0 == CmdState::InArg || st.0 == CmdState::QEsc) ==> st.1 is Some
}

/// The split of a file name at its first unescaped `*`: the text before it
/// and the text after it, or `None` where there is no unescaped `*`.
pub open spec fn spec_split_at_star(s: Seq<char>) -> Option<(Seq<char>, Seq<char>)> {
    let (state, before, cur) = star_scan(s);
    match state {
        CmdState::InArg => Some((before.unwrap(), cur)),
        CmdState::QEsc => Some((before.unwrap(), cur.push('\\'))),
        _ => None,
    }
}

pub proof fn lemma_star_scan_ok(s: Seq<char>)
    ensures
        star_scan_ok(star_scan(s)),
    decreases s.len(),
{
    if s.len() > 0 {
        lemma_star_scan_ok(s.drop_last());
    }
}

/// Splits a file name at its first unescaped `*`.
pub fn split_at_star(line: &str) -> (res: Option<(String, String)>)
    ensures
        match res {
            Some((b, a)) => spec_split_at_star(line@) == Some((b@, a@)),
            None => spec_split_at_star(line@) is None,
        },
{
    broadcast use vstd::string::group_string_axioms;
    let mut state = CmdState::StartArg;
    let mut current = String::new();
    let mut before: Option<String> = None;
    for c in it: line.chars()
        invariant
            it.seq() == line@,
            star_scan(line@.take(it.index())) == (state, match before {
                Some(b) => Some(b@),
                None => None,
            }, current@),
            star_scan_ok(star_scan(line@.take(it.index()))),
    {
        proof {
            assert(line@.take(it.index() + 1).drop_last() == line@.take(it.index()));
            lemma_star_scan_ok(line@.take(it.index() + 1));
        }
        if c == '\\' {
            match state {
                CmdState::Esc | CmdState::QEsc => push_char(&mut current, c),
                CmdState::StartArg => state = CmdState::Esc,
                _ => state = CmdState::QEsc,
            }
        } else if c == '*' {
            match state {
                CmdState::Esc => {
                    push_char(&mut current, c);
                    state = CmdState::StartArg;
                },
                CmdState::StartArg => {
                    state = CmdState::InArg;
                    before = Some(current);
                    current = String::new();
                },
                _ => {
                    state = CmdState::InArg;
                    push_char(&mut current, c);
                },
            }
        } else {
            match state {
                CmdState::Esc => {
                    state = CmdState::StartArg;
                    push_char(&mut current, '\\');
                    push_char(&mut current, c);
                },
                CmdState::QEsc => {
                    state = CmdState::InArg;
                    push_char(&mut current, '\\');
                    push_char(&mut current, c);
                },
                _ => push_char(&mut current, c),
            }
        }
    }
    proof {
        assert(line@.take(line@.len() as int) == line@);
    }
    match state {
        CmdState::InArg => match before {
            Some(b) => Some((b, current)),
            None => None,
        },
        CmdState::QEsc => match before {
            Some(b) => {
                push_char(&mut current, '\\');
                Some((b, current))
            },
            None => None,
        },
        _ => None,
    }
}

/// For a name without backslashes the scan sees every character plainly:
/// before the first `*` it collects the name, after it the rest.
proof fn lemma_star_scan_plain(s: Seq<char>)
    requires
        !s.contains('\\'),
    ensures
        !s.contains('*') ==> star_scan(s) == (CmdState::StartArg, None::<Seq<char>>, s),
        forall|k: int|
            0 <= k < s.len() && s[k] == '*' && !s.take(k).contains('*') ==> star_scan(s) == (
                CmdState::InArg,
                Some(s.take(k)),
                s.skip(k + 1),
            ),
    decreases s.len(),
{
    if s.len() > 0 {
        let p = s.drop_last();
        let c = s.last();
        assert(!p.contains('\\')) by {
            if p.contains('\\') {
                let j = choose|j: int| 0 <= j < p.len() && p[j] == '\\';
                assert(s[j] == '\\');
            }
        }
        lemma_star_scan_plain(p);
        assert(s[s.len() - 1] == c);
        assert(c != '\\');
        if !s.contains('*') {
            assert(!p.contains('*')) by {
                if p.contains('*') {
                    let j = choose|j: int| 0 <= j < p.len() && p[j] == '*';
                    assert(s[j] == '*');
                }
            }
            assert(c != '*');
            assert(p.push(c) == s);
        }
        assert forall|k: int|
            0 <= k < s.len() && s[k] == '*' && !s.take(k).contains('*') implies star_scan(s) == (
                CmdState::InArg,
                Some(s.take(k)),
                s.skip(k + 1),
            ) by {
            if k == s.len() - 1 {
                assert(s.take(k) == p);
                assert(s.skip(k + 1) == Seq::<char>::empty());
            } else {
                assert(p[k] == '*');
                assert(p.take(k) == s.take(k));
                assert(p.skip(k + 1).push(c) == s.skip(k + 1));
            }
        }
    }
}

/// A file name without backslashes splits at its first `*`, into the text
/// before it and the text after it; without a `*` it does not split.
pub proof fn lemma_split_plain_name(s: Seq<char>)
    requires
        !s.contains('\\'),
    ensures
        spec_split_at_star(s) is None <==> !s.contains('*'),
        spec_split_at_star(s) matches Some((b, a)) ==> s == b + seq!['*'] + a && !b.contains('*'),
{
    lemma_star_scan_plain(s);
    if s.contains('*') {
        let k = choose|k: int| 0 <= k < s.len() && s[k] == '*';
        let m = first_index_of(s, '*', k);
        assert(s.take(m) + seq!['*'] + s.skip(m + 1) == s);
    }
}

/// The first position of `c` in `s`, given one position holding it.
proof fn first_index_of(s: Seq<char>, c: char, k: int) -> (m: int)
    requires
        0 <= k < s.len(),
        s[k] == c,
    ensures
        0 <= m <= k,
        s[m] == c,
        !s.take(m).contains(c),
    decreases k,
{
    if s.take(k).contains(c) {
        let j = choose|j: int| 0 <= j < s.take(k).len() && s.take(k)[j] == c;
        first_index_of(s, c, j)
    } else {
        k
    }
}

/// The part of `name` that a wildcard matches, where `name` starts with
/// `before` and ends with `after` and is at least as long as both together.
pub open spec fn spec_match_wild(name: Seq<char>, before: Seq<char>, after: Seq<char>) -> Option<
    Seq<char>,
> {
    if name.len() >= before.len() + after.len() && name.take(before.len() as int) == before
        && name.skip(name.len() - after.len()) == after {
        Some(name.subrange(before.len() as int, name.len() - after.len()))
    } else {
        None
    }
}

/// Whether `v[at..at + p.len()]` equals `p`.
fn matches_at(v: &Vec<char>, at: usize, p: &Vec<char>) -> (res: bool)
    requires
        at + p.len() <= v.len(),
    ensures
        res == (v@.subrange(at as int, at + p.len()) == p@),
{
    let mut i: usize = 0;
    while i < p.len()
        invariant
            at + p.len() <= v.len(),
            i <= p.len(),
            forall|j: int| 0 <= j < i ==> v@[at + j] == p@[j],
        decreases p.len() - i,
    {
        if v[at + i] != p[i] {
            assert(v@.subrange(at as int, at + p.len())[i as int] != p@[i as int]);
            return false;
        }
        i += 1;
    }
    assert(v@.subrange(at as int, at + p.len()) == p@);
    true
}

/// The part of a directory entry's name that the wildcard of the pattern
/// `before*after` matches, if it matches.
pub fn match_wild(name: &str, before: &str, after: &str) -> (res: Option<String>)
    ensures
        match res {
            Some(m) => spec_match_wild(name@, before@, after@) == Some(m@),
            None => spec_match_wild(name@, before@, after@) is None,
        },
{
    let n = chars_of(name);
    let b = chars_of(before);
    let a = chars_of(after);
    if b.len() > n.len() || a.len() > n.len() - b.len() {
        return None;
    }
    if !matches_at(&n, 0, &b) {
        assert(n@.subrange(0, b@.len() as int) == n@.take(b@.len() as int));
        return None;
    }
    let tail = n.len() - a.len();
    if !matches_at(&n, tail, &a) {
        assert(n@.subrange(tail as int, tail + a@.len()) == n@.skip(tail as int));
        return None;
    }
    assert(n@.subrange(0, b@.len() as int) == n@.take(b@.len() as int));
    assert(n@.subrange(tail as int, tail + a@.len()) == n@.skip(tail as int));
    Some(string_from_range(&n, b.len(), tail))
}

/// The wildcard parts of the names that match `before*after`, in order.
pub open spec fn spec_wild_list(names: Seq<Seq<char>>, before: Seq<char>, after: Seq<char>) -> Seq<
    Seq<char>,
>
    decreases names.len(),
{
    if names.len() == 0 {
        Seq::empty()
    } else {
        let rest = spec_wild_list(names.drop_last(), before, after);
        match spec_match_wild(names.last(), before, after) {
            Some(m) => rest.push(m),
            None => rest,
        }
    }
}

/// The views of a list of strings.
pub open spec fn views(v: Seq<String>) -> Seq<Seq<char>> {
    v.map_values(|s: String| s@)
}

/// The deep view of a list of strings is the list of their views.
pub proof fn lemma_deep_view_is_views(v: Vec<String>)
    ensures
        v.deep_view() == views(v@),
{
    assert(v.deep_view() =~= views(v@));
}

/// The wildcard parts of the directory entries that match `before*after`,
/// in the order of the entries.
pub fn wild_matches(names: &Vec<String>, before: &str, after: &str) -> (res: Vec<String>)
    ensures
        views(res@) == spec_wild_list(views(names@), before@, after@),
{
    let mut res: Vec<String> = Vec::new();
    let mut i: usize = 0;
    while i < names.len()
        invariant
            i <= names.len(),
            views(res@) == spec_wild_list(views(names@.take(i as int)), before@, after@),
        decreases names.len() - i,
    {
        let ghost old_res = res@;
        proof {
            assert(views(names@.take(i + 1)).drop_last() == views(names@.take(i as int)));
            assert(views(names@.take(i + 1)).last() == names@[i as int]@);
        }
        match match_wild(names[i].as_str(), before, after) {
            Some(m) => {
                res.push(m);
                assert(views(res@) == views(old_res).push(m@));
            },
            None => {},
        }
        i += 1;
    }
    assert(names@.take(names.len() as int) == names@);
    res
}


/// Wildcard matching is sound and complete: every match comes from an entry
/// that is the text before the wildcard, the match and the text after it;
/// and every entry of that form yields its match.
pub proof fn lemma_wild_list_sound_complete(names: Seq<Seq<char>>, before: Seq<char>, after: Seq<char>)
    ensures
        forall|j: int|
            0 <= j < spec_wild_list(names, before, after).len() ==> exists|i: int|
                0 <= i < names.len() && names[i] == before + #[trigger] spec_wild_list(
                    names,
                    before,
                    after,
                )[j] + after,
        forall|i: int|
            0 <= i < names.len() && spec_match_wild(#[trigger] names[i], before, after) is Some
                ==> spec_wild_list(names, before, after).contains(
                spec_match_wild(names[i], before, after).unwrap(),
            ),
    decreases names.len(),
{
    if names.len() > 0 {
        let p = names.drop_last();
        let last = names.last();
        lemma_wild_list_sound_complete(p, before, after);
        let r = spec_wild_list(names, before, after);
        let rp = spec_wild_list(p, before, after);
        assert forall|j: int| 0 <= j < r.len() implies exists|i: int|
            0 <= i < names.len() && names[i] == before + #[trigger] r[j] + after by {
            if j < rp.len() {
                assert(r[j] == rp[j]);
                let i = choose|i: int| 0 <= i < p.len() && p[i] == before + rp[j] + after;
                assert(names[i] == p[i]);
            } else {
                let m = last.subrange(before.len() as int, last.len() - after.len());
                assert(spec_match_wild(last, before, after) == Some(m));
                assert(r[j] == m);
                assert(last.take(before.len() as int) + m + last.skip(last.len() - after.len()) == last);
                assert(names[names.len() - 1] == before + r[j] + after);
            }
        }
        assert forall|i: int|
            0 <= i < names.len() && spec_match_wild(#[trigger] names[i], before, after) is Some implies r.contains(
            spec_match_wild(names[i], before, after).unwrap(),
        ) by {
            let m = spec_match_wild(names[i], before, after).unwrap();
            if i < p.len() {
                assert(p[i] == names[i]);
                let k = choose|k: int| 0 <= k < rp.len() && rp[k] == m;
                assert(r[k] == m);
            } else {
                assert(r[r.len() - 1] == m);
            }
        }
    }
}

/// A name made of the text before the wildcard, some text, and the text
/// after it matches with exactly that text.
pub proof fn lemma_match_wild_of_pattern(before: Seq<char>, m: Seq<char>, after: Seq<char>)
    ensures
        spec_match_wild(before + m + after, before, after) == Some(m),
{
    let n = before + m + after;
    assert(n.take(before.len() as int) == before);
    assert(n.skip(n.len() - after.len()) == after);
    assert(n.subrange(before.len() as int, n.len() - after.len()) == m);
}

/// The wildcard expansion of a file name: with a wildcard, the matching
/// parts of the directory entries and the text before and after the
/// wildcard; without one, the name itself and two empty texts.
pub open spec fn spec_name_pattern(name: Seq<char>, entries: Seq<Seq<char>>) -> (
    Seq<Seq<char>>,
    Seq<char>,
    Seq<char>,
) {
    match spec_split_at_star(name) {
        None => (seq![name], Seq::empty(), Seq::empty()),
        Some((b, a)) => (spec_wild_list(entries, b, a), b, a),
    }
}

/// Expands the wildcard of a file name against the entries of its
/// directory: the names it stands for, the text before the wildcard and the
/// text after it.
pub fn expand_name_pattern(from_name: String, entries: &Vec<String>) -> (res: (
    Vec<String>,
    String,
    String,
))
    ensures
        (views(res.0@), res.1@, res.2@) == spec_name_pattern(from_name@, views(entries@)),
{
    match split_at_star(from_name.as_str()) {
        None => {
            let mut v: Vec<String> = Vec::new();
            v.push(from_name);
            assert(views(v@) == seq![from_name@]);
            (v, String::new(), String::new())
        },
        Some((b, a)) => {
            let w = wild_matches(entries, b.as_str(), a.as_str());
            (w, b, a)
        },
    }
}

} // verus!
