//! Backslash escaping of blanks and shell metacharacters, and its inverse
//! for the characters that name completion works on.
use vstd::prelude::*;
use crate::text::push_char;

verus! {

/// The state of the unescaping scan after reading `s`: whether a backslash
/// is pending, and the text produced so far.
pub open spec fn unescape_scan(s: Seq<char>) -> (bool, Seq<char>)
    decreases s.len(),
{
    if s.len() == 0 {
        (false, Seq::empty())
    } else {
        let (esc, out) = unescape_scan(s.drop_last());
        let c = s.last();
        if c == '\\' {
            if esc {
                (false, out.push(c))
            } else {
                (true, out)
            }
        } else if c == ':' || c == ' ' || c == '!' {
            (false, out.push(c))
        } else if esc {
            (false, out.push('\\').push(c))
        } else {
            (false, out.push(c))
        }
    }
}

/// Unescaping: a backslash disappears before another backslash, `:`, a
/// space or `!`, stays before any other character, and disappears at the
/// very end of the text.
pub open spec fn spec_unescape(s: Seq<char>) -> Seq<char> {
    unescape_scan(s).1
}

/// Removes the backslashes that escape a backslash, `:`, a blank or `!`.
pub fn unescape(string: &str) -> (res: String)
    ensures
        res@ == spec_unescape(string@),
{
    broadcast use vstd::string::group_string_axioms;
    let mut res = String::new();
    let mut esc = false;
    for c in it: string.chars()
        invariant
            it.seq() == string@,
            (esc, res@) == unescape_scan(string@.take(it.index())),
    {
        proof {
            assert(string@.take(it.index() + 1).drop_last() == string@.take(it.index()));
        }
        if c == '\\' {
            if esc {
                esc = false;
                push_char(&mut res, c);
            } else {
                esc = true;
            }
        } else if c == ':' || c == ' ' || c == '!' {
            esc = false;
            push_char(&mut res, c);
        } else {
            if esc {
                push_char(&mut res, '\\');
            }
            esc = false;
            push_char(&mut res, c);
        }
    }
    proof {
        assert(string@.take(string@.len() as int) == string@);
    }
    res
}

/// The characters that `esc_string_blanks` puts a backslash before.
pub open spec fn needs_escape(c: char) -> bool {
    c == ' ' || c == '\\' || c == '"' || c == '|' || c == '(' || c == ')' || c == '<' || c == '>'
        || c == ';' || c == '&' || c == '$' || c == '\''
}

/// `s` with a backslash put before every blank and shell metacharacter.
pub open spec fn spec_esc_blanks(s: Seq<char>) -> Seq<char>
    decreases s.len(),
{
    if s.len() == 0 {
        Seq::empty()
    } else if needs_escape(s.last()) {
        spec_esc_blanks(s.drop_last()).push('\\').push(s.last())
    } else {
        spec_esc_blanks(s.drop_last()).push(s.last())
    }
}

/// Escapes blanks, backslashes, quotes and the shell metacharacters
/// `| ( ) < > ; & $` with a backslash.
pub fn esc_string_blanks(string: String) -> (res: String)
    ensures
        res@ == spec_esc_blanks(string@),
{
    broadcast use vstd::string::group_string_axioms;
    let mut res = String::new();
    for c in it: string.as_str().chars()
        invariant
            it.seq() == string@,
            res@ == spec_esc_blanks(string@.take(it.index())),
    {
        proof {
            assert(string@.take(it.index() + 1).drop_last() == string@.take(it.index()));
        }
        if c == ' ' || c == '\\' || c == '"' || c == '|' || c == '(' || c == ')' || c == '<'
            || c == '>' || c == ';' || c == '&' || c == '$' || c == '\'' {
            push_char(&mut res, '\\');
        }
        push_char(&mut res, c);
    }
    proof {
        assert(string@.take(string@.len() as int) == string@);
    }
    res
}

/// The characters that escaping protects and unescaping does not give back.
pub open spec fn escape_is_one_way(c: char) -> bool {
    needs_escape(c) && c != ' ' && c != '\\'
}

/// Unescaping undoes escaping for every text that holds none of
/// `" | ( ) < > ; & $ '`: blanks and backslashes come back as they were.
pub proof fn lemma_unescape_undoes_escape(s: Seq<char>)
    requires
        forall|i: int| 0 <= i < s.len() ==> !escape_is_one_way(#[trigger] s[i]),
    ensures
        spec_unescape(spec_esc_blanks(s)) == s,
        unescape_scan(spec_esc_blanks(s)) == (false, s),
    decreases s.len(),
{
    if s.len() > 0 {
        let p = s.drop_last();
        let c = s.last();
        assert forall|i: int| 0 <= i < p.len() implies !escape_is_one_way(#[trigger] p[i]) by {
            assert(p[i] == s[i]);
        }
        lemma_unescape_undoes_escape(p);
        let e = spec_esc_blanks(p);
        assert(!escape_is_one_way(s[s.len() - 1]));
        if needs_escape(c) {
            let e1 = e.push('\\');
            assert(e1.drop_last() == e);
            assert(e1.push(c).drop_last() == e1);
            assert(e1.last() == '\\');
            assert(unescape_scan(e1) == (true, p));
            assert(e1.push(c).last() == c);
            assert(spec_esc_blanks(s) == e1.push(c));
            assert(unescape_scan(e1.push(c)) == (false, p.push(c)));
        } else {
            assert(e.push(c).drop_last() == e);
            assert(e.push(c).last() == c);
            assert(spec_esc_blanks(s) == e.push(c));
            assert(unescape_scan(e.push(c)) == (false, p.push(c)));
        }
        assert(s.drop_last().push(c) == s);
    }
}

/// Escaping leaves a text with no blank or metacharacter unchanged.
pub proof fn lemma_escape_plain_text(s: Seq<char>)
    requires
        forall|i: int| 0 <= i < s.len() ==> !needs_escape(#[trigger] s[i]),
    ensures
        spec_esc_blanks(s) == s,
    decreases s.len(),
{
    if s.len() > 0 {
        let p = s.drop_last();
        assert forall|i: int| 0 <= i < p.len() implies !needs_escape(#[trigger] p[i]) by {
            assert(p[i] == s[i]);
        }
        lemma_escape_plain_text(p);
        assert(!needs_escape(s[s.len() - 1]));
        assert(p.push(s.last()) == s);
    }
}

/// Unescaping leaves a text with no backslash unchanged.
pub proof fn lemma_unescape_plain_text(s: Seq<char>)
    requires
        !s.contains('\\'),
    ensures
        unescape_scan(s) == (false, s),
    decreases s.len(),
{
    if s.len() > 0 {
        let p = s.drop_last();
        assert(!p.contains('\\')) by {
            if p.contains('\\') {
                let k = choose|k: int| 0 <= k < p.len() && p[k] == '\\';
                assert(s[k] == '\\');
            }
        }
        lemma_unescape_plain_text(p);
        assert(s[s.len() - 1] != '\\');
        assert(p.push(s.last()) == s);
    }
}

} // verus!
