//! Character-level helpers for `String` and `&str`.
use vstd::prelude::*;

verus! {

/// Appends one character to a string.
///
/// Trusted: calls `String::push`, which std documents as appending the given
/// `char` to the end of the string; the contract states exactly that.
#[verifier::external_body]
pub(crate) fn push_char(s: &mut String, c: char)
    ensures
        final(s)@ == old(s)@.push(c),
{
    s.push(c);
}

/// A fresh `String` holding the characters of `s`.
pub fn string_of(s: &str) -> (res: String)
    ensures
        res@ == s@,
{
    String::from_str(s)
}

/// Whether a `String` holds exactly the characters of `lit`.
pub fn text_is(s: &String, lit: &str) -> (res: bool)
    ensures
        res == (s@ == lit@),
{
    let other = String::from_str(lit);
    *s == other
}

/// The characters of `s`, in order.
pub fn chars_of(s: &str) -> (res: Vec<char>)
    ensures
        res@ == s@,
{
    broadcast use vstd::string::group_string_axioms;
    let mut res: Vec<char> = Vec::new();
    for c in it: s.chars()
        invariant
            it.seq() == s@,
            res@ == s@.take(it.index()),
    {
        proof {
            assert(s@.take(it.index() + 1) == s@.take(it.index()).push(c));
        }
        res.push(c);
    }
    proof {
        assert(s@.take(s@.len() as int) == s@);
    }
    res
}

/// A `String` holding `v[lo..hi]`.
pub fn string_from_range(v: &Vec<char>, lo: usize, hi: usize) -> (res: String)
    requires
        lo <= hi <= v.len(),
    ensures
        res@ == v@.subrange(lo as int, hi as int),
{
    let mut res = String::new();
    let mut i = lo;
    while i < hi
        invariant
            lo <= i <= hi <= v.len(),
            res@ == v@.subrange(lo as int, i as int),
        decreases hi - i,
    {
        proof {
            assert(v@.subrange(lo as int, i + 1) == v@.subrange(lo as int, i as int).push(v@[i as int]));
        }
        push_char(&mut res, v[i]);
        i += 1;
    }
    res
}

/// Whether `s` holds the character `c`.
pub fn has_char(s: &str, c: char) -> (res: bool)
    ensures
        res == s@.contains(c),
{
    let v = chars_of(s);
    let mut i: usize = 0;
    while i < v.len()
        invariant
            v@ == s@,
            i <= v.len(),
            forall|j: int| 0 <= j < i ==> v@[j] != c,
        decreases v.len() - i,
    {
        if v[i] == c {
            return true;
        }
        i += 1;
    }
    false
}

/// Whether `c` has the Unicode `White_Space` property: the tab, line feed,
/// vertical tab, form feed and carriage return, the blank, U+0085, U+00A0,
/// U+1680, U+2000 to U+200A, U+2028, U+2029, U+202F, U+205F and U+3000.
pub open spec fn spec_is_whitespace(c: char) -> bool {
    let u = c as u32;
    (0x09 <= u <= 0x0d) || u == 0x20 || u == 0x85 || u == 0xa0 || u == 0x1680 || (0x2000 <= u
        <= 0x200a) || u == 0x2028 || u == 0x2029 || u == 0x202f || u == 0x205f || u == 0x3000
}

/// Whether a character is white space in the sense of `str::trim`.
pub fn is_whitespace(c: char) -> (r: bool)
    ensures
        r == spec_is_whitespace(c),
{
    let u = c as u32;
    (0x09 <= u && u <= 0x0d) || u == 0x20 || u == 0x85 || u == 0xa0 || u == 0x1680 || (0x2000 <= u
        && u <= 0x200a) || u == 0x2028 || u == 0x2029 || u == 0x202f || u == 0x205f || u == 0x3000
}

/// `s` without its leading white space.
pub open spec fn spec_trim_start(s: Seq<char>) -> Seq<char>
    decreases s.len(),
{
    if s.len() > 0 && spec_is_whitespace(s[0]) {
        spec_trim_start(s.drop_first())
    } else {
        s
    }
}

/// `s` without its trailing white space.
pub open spec fn spec_trim_end(s: Seq<char>) -> Seq<char>
    decreases s.len(),
{
    if s.len() > 0 && spec_is_whitespace(s.last()) {
        spec_trim_end(s.drop_last())
    } else {
        s
    }
}

/// `s` without leading and trailing white space.
pub open spec fn spec_trim(s: Seq<char>) -> Seq<char> {
    spec_trim_end(spec_trim_start(s))
}

/// Removes leading and trailing white space.
pub fn trim(s: &str) -> (res: String)
    ensures
        res@ == spec_trim(s@),
{
    let v = chars_of(s);
    let mut lo: usize = 0;
    proof {
        assert(s@.skip(0) == s@);
    }
    while lo < v.len() && is_whitespace(v[lo])
        invariant
            v@ == s@,
            lo <= v.len(),
            spec_trim_start(s@) == spec_trim_start(s@.skip(lo as int)),
        decreases v.len() - lo,
    {
        proof {
            assert(s@.skip(lo as int).drop_first() == s@.skip(lo + 1));
        }
        lo += 1;
    }
    let mut hi: usize = v.len();
    proof {
        assert(s@.skip(lo as int) == s@.subrange(lo as int, hi as int));
    }
    while hi > lo && is_whitespace(v[hi - 1])
        invariant
            v@ == s@,
            lo <= hi <= v.len(),
            spec_trim(s@) == spec_trim_end(s@.subrange(lo as int, hi as int)),
        decreases hi - lo,
    {
        proof {
            assert(s@.subrange(lo as int, hi as int).drop_last() == s@.subrange(lo as int, hi - 1));
        }
        hi -= 1;
    }
    string_from_range(&v, lo, hi)
}

/// The characters `trim_matches` strips around an alias definition.
pub open spec fn is_quote_or_blank(c: char) -> bool {
    c == '"' || c == '\'' || c == ' '
}

/// `s` without leading and trailing quotes and blanks.
pub open spec fn spec_trim_quotes(s: Seq<char>) -> Seq<char>
    decreases s.len(),
{
    if s.len() > 0 && is_quote_or_blank(s[0]) {
        spec_trim_quotes(s.drop_first())
    } else if s.len() > 0 && is_quote_or_blank(s.last()) {
        spec_trim_quotes(s.drop_last())
    } else {
        s
    }
}

/// Removes leading and trailing quotes and blanks.
pub fn trim_quotes(s: &str) -> (res: String)
    ensures
        res@ == spec_trim_quotes(s@),
{
    let v = chars_of(s);
    let mut lo: usize = 0;
    proof {
        assert(s@.skip(0) == s@);
    }
    while lo < v.len() && (v[lo] == '"' || v[lo] == '\'' || v[lo] == ' ')
        invariant
            v@ == s@,
            lo <= v.len(),
            spec_trim_quotes(s@) == spec_trim_quotes(s@.skip(lo as int)),
        decreases v.len() - lo,
    {
        proof {
            assert(s@.skip(lo as int).drop_first() == s@.skip(lo + 1));
        }
        lo += 1;
    }
    let mut hi: usize = v.len();
    proof {
        assert(s@.skip(lo as int) == s@.subrange(lo as int, hi as int));
    }
    while hi > lo && (v[hi - 1] == '"' || v[hi - 1] == '\'' || v[hi - 1] == ' ')
        invariant
            v@ == s@,
            lo <= hi <= v.len(),
            spec_trim_quotes(s@) == spec_trim_quotes(s@.subrange(lo as int, hi as int)),
            lo == v.len() || !is_quote_or_blank(v@[lo as int]),
        decreases hi - lo,
    {
        proof {
            let t = s@.subrange(lo as int, hi as int);
            assert(t[0] == v@[lo as int]);
            assert(t.drop_last() == s@.subrange(lo as int, hi - 1));
        }
        hi -= 1;
    }
    proof {
        let t = s@.subrange(lo as int, hi as int);
        if t.len() > 0 {
            assert(t[0] == v@[lo as int]);
            assert(t.last() == v@[hi - 1]);
        }
    }
    string_from_range(&v, lo, hi)
}

/// The split of `s` at the first `c`: the text before it and after it.
pub open spec fn spec_split_once(s: Seq<char>, c: char) -> Option<(Seq<char>, Seq<char>)>
    decreases s.len(),
{
    if s.len() == 0 {
        None
    } else if s[0] == c {
        Some((Seq::empty(), s.drop_first()))
    } else {
        match spec_split_once(s.drop_first(), c) {
            Some((a, b)) => Some((seq![s[0]] + a, b)),
            None => None,
        }
    }
}

/// Splits `s` at the first `c`.
pub fn split_once(s: &str, c: char) -> (res: Option<(String, String)>)
    ensures
        match res {
            Some((a, b)) => spec_split_once(s@, c) == Some((a@, b@)),
            None => spec_split_once(s@, c) is None,
        },
{
    let v = chars_of(s);
    let mut i: usize = 0;
    proof {
        assert(s@.skip(0) == s@);
        assert(s@.take(0) + s@ == s@);
    }
    while i < v.len()
        invariant
            v@ == s@,
            i <= v.len(),
            spec_split_once(s@, c) == match spec_split_once(s@.skip(i as int), c) {
                Some((a, b)) => Some((s@.take(i as int) + a, b)),
                None => None,
            },
        decreases v.len() - i,
    {
        if v[i] == c {
            proof {
                assert(s@.skip(i as int)[0] == c);
                assert(s@.skip(i as int).drop_first() == s@.skip(i + 1));
                assert(s@.take(i as int) + Seq::<char>::empty() == s@.take(i as int));
                assert(v@.subrange(0, i as int) == s@.take(i as int));
                assert(v@.subrange(i + 1, v@.len() as int) == s@.skip(i + 1));
            }
            return Some((string_from_range(&v, 0, i), string_from_range(&v, i + 1, v.len())));
        }
        proof {
            let t = s@.skip(i as int);
            assert(t[0] == v@[i as int]);
            assert(t.drop_first() == s@.skip(i + 1));
            assert(s@.take(i + 1) == s@.take(i as int) + seq![v@[i as int]]);
            match spec_split_once(s@.skip(i + 1), c) {
                Some((a, b)) => {
                    assert(s@.take(i as int) + (seq![v@[i as int]] + a) == s@.take(i + 1) + a);
                },
                None => {},
            }
        }
        i += 1;
    }
    proof {
        assert(s@.skip(v.len() as int) == Seq::<char>::empty());
    }
    None
}

/// The ASCII white space that `split_ascii_whitespace` splits at.
pub open spec fn is_ascii_ws(c: char) -> bool {
    c == ' ' || c == '\t' || c == '\n' || c == '\x0C' || c == '\r'
}

/// The words of `s` that ASCII white space separates, with the word being
/// read last.
pub open spec fn ascii_words_scan(s: Seq<char>) -> (Seq<Seq<char>>, Seq<char>)
    decreases s.len(),
{
    if s.len() == 0 {
        (Seq::empty(), Seq::empty())
    } else {
        let (ws, cur) = ascii_words_scan(s.drop_last());
        if is_ascii_ws(s.last()) {
            if cur.len() > 0 {
                (ws.push(cur), Seq::empty())
            } else {
                (ws, cur)
            }
        } else {
            (ws, cur.push(s.last()))
        }
    }
}

/// The nonempty runs of `s` between ASCII white space.
pub open spec fn spec_ascii_words(s: Seq<char>) -> Seq<Seq<char>> {
    let (ws, cur) = ascii_words_scan(s);
    if cur.len() > 0 {
        ws.push(cur)
    } else {
        ws
    }
}

/// Splits `s` into the nonempty runs between ASCII white space.
pub fn split_ascii_whitespace(s: &str) -> (res: Vec<String>)
    ensures
        res@.map_values(|w: String| w@) == spec_ascii_words(s@),
{
    let v = chars_of(s);
    let mut res: Vec<String> = Vec::new();
    let mut start: usize = 0;
    let mut i: usize = 0;
    while i < v.len()
        invariant
            v@ == s@,
            start <= i <= v.len(),
            ascii_words_scan(s@.take(i as int)) == (
                res@.map_values(|w: String| w@),
                s@.subrange(start as int, i as int),
            ),
        decreases v.len() - i,
    {
        proof {
            assert(s@.take(i + 1).drop_last() == s@.take(i as int));
            assert(s@.take(i + 1).last() == v@[i as int]);
        }
        let c = v[i];
        if c == ' ' || c == '\t' || c == '\n' || c == '\x0C' || c == '\r' {
            if start < i {
                let ghost old_res = res@;
                res.push(string_from_range(&v, start, i));
                proof {
                    assert(res@.map_values(|w: String| w@) == old_res.map_values(|w: String| w@).push(
                        s@.subrange(start as int, i as int),
                    ));
                }
            }
            start = i + 1;
            proof {
                assert(s@.subrange(start as int, i + 1) == Seq::<char>::empty());
            }
        } else {
            proof {
                assert(s@.subrange(start as int, i + 1) == s@.subrange(start as int, i as int).push(c));
            }
        }
        i += 1;
    }
    proof {
        assert(s@.take(v.len() as int) == s@);
    }
    if start < v.len() {
        let ghost old_res = res@;
        res.push(string_from_range(&v, start, v.len()));
        proof {
            assert(res@.map_values(|w: String| w@) == old_res.map_values(|w: String| w@).push(
                s@.subrange(start as int, v.len() as int),
            ));
        }
    }
    res
}

} // verus!
