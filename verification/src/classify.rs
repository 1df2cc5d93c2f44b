//! Deciding whether a command line is a query.
//!
//! A command expects a reply exactly when its first space-delimited token,
//! trimmed of surrounding blanks, ends with `?`.

use vstd::prelude::*;

verus! {

/// Whitespace as the trimming rules of this library understand it: the ASCII
/// blank characters an instrument may leave around a token or a reply.
pub open spec fn is_space_char(c: char) -> bool {
    c == ' ' || c == '\t' || c == '\n' || c == '\r' || c == '\u{b}' || c == '\u{c}'
}

/// Number of characters of `s` before the first occurrence of `d`
/// (all of `s` when `d` does not occur).
pub open spec fn prefix_until(s: Seq<char>, d: char) -> nat
    decreases s.len(),
{
    if s.len() == 0 {
        0
    } else if s[0] == d {
        0
    } else {
        1 + prefix_until(s.drop_first(), d)
    }
}

/// `prefix_until(s, d)` is the index of the first `d` in `s`, or `s.len()`:
/// no earlier character equals `d`, and the character there, if any, does.
pub proof fn lemma_prefix_until(s: Seq<char>, d: char)
    ensures
        prefix_until(s, d) <= s.len(),
        forall|k: int| 0 <= k < prefix_until(s, d) ==> s[k] != d,
        prefix_until(s, d) < s.len() ==> s[prefix_until(s, d) as int] == d,
    decreases s.len(),
{
    if s.len() > 0 && s[0] != d {
        lemma_prefix_until(s.drop_first(), d);
        assert forall|k: int| 0 <= k < prefix_until(s, d) implies s[k] != d by {
            if k > 0 {
                assert(s.drop_first()[k - 1] == s[k]);
            }
        }
        if prefix_until(s, d) < s.len() {
            assert(s.drop_first()[prefix_until(s, d) - 1] == s[prefix_until(s, d) as int]);
        }
    }
}

/// The first space-delimited token of a command line: everything before the
/// first literal space character. Splitting is on the space alone; other
/// blanks are part of the token and fall to trimming.
pub open spec fn first_token(s: Seq<char>) -> Seq<char> {
    s.subrange(0, prefix_until(s, ' ') as int)
}

/// `s` without its trailing blank characters.
pub open spec fn trim_end(s: Seq<char>) -> Seq<char>
    decreases s.len(),
{
    if s.len() > 0 && is_space_char(s.last()) {
        trim_end(s.drop_last())
    } else {
        s
    }
}

/// `s` without its leading blank characters.
pub open spec fn trim_start(s: Seq<char>) -> Seq<char>
    decreases s.len(),
{
    if s.len() > 0 && is_space_char(s[0]) {
        trim_start(s.drop_first())
    } else {
        s
    }
}

/// `s` without its leading and trailing blank characters.
pub open spec fn trim_spaces(s: Seq<char>) -> Seq<char> {
    trim_start(trim_end(s))
}

/// `trim_end(s)` is the prefix of `s` that stops at the last non-blank
/// character: all of `s` past it is blank and its own last character is not.
pub proof fn lemma_trim_end_props(s: Seq<char>)
    ensures
        trim_end(s).len() <= s.len(),
        trim_end(s) == s.subrange(0, trim_end(s).len() as int),
        forall|k: int| trim_end(s).len() <= k < s.len() ==> is_space_char(s[k]),
        trim_end(s).len() > 0 ==> !is_space_char(s[trim_end(s).len() - 1]),
    decreases s.len(),
{
    if s.len() > 0 && is_space_char(s.last()) {
        lemma_trim_end_props(s.drop_last());
        let m = trim_end(s).len() as int;
        assert(s.drop_last().subrange(0, m) =~= s.subrange(0, m));
        assert forall|k: int| m <= k < s.len() implies is_space_char(s[k]) by {
            if k < s.len() - 1 {
                assert(s.drop_last()[k] == s[k]);
            }
        }
        if m > 0 {
            assert(s.drop_last()[m - 1] == s[m - 1]);
        }
    } else {
        assert(trim_end(s) =~= s.subrange(0, s.len() as int));
    }
}

/// `trim_start(s)` is the suffix of `s` that starts at the first non-blank
/// character: all of `s` before it is blank and its own first character is not.
pub proof fn lemma_trim_start_props(s: Seq<char>)
    ensures
        trim_start(s).len() <= s.len(),
        trim_start(s) == s.subrange(s.len() - trim_start(s).len(), s.len() as int),
        forall|k: int| 0 <= k < s.len() - trim_start(s).len() ==> is_space_char(s[k]),
        trim_start(s).len() > 0 ==> !is_space_char(s[s.len() - trim_start(s).len()]),
    decreases s.len(),
{
    if s.len() > 0 && is_space_char(s[0]) {
        lemma_trim_start_props(s.drop_first());
        let d = s.len() - trim_start(s).len();
        assert(s.drop_first().subrange(d - 1, s.len() - 1) =~= s.subrange(d, s.len() as int));
        assert forall|k: int| 0 <= k < d implies is_space_char(s[k]) by {
            if k > 0 {
                assert(s.drop_first()[k - 1] == s[k]);
            }
        }
        if trim_start(s).len() > 0 {
            assert(s.drop_first()[d - 1] == s[d as int]);
        }
    } else {
        assert(trim_start(s) =~= s.subrange(0, s.len() as int));
    }
}

/// A command expects a reply exactly when its first space-delimited token,
/// trimmed of surrounding blanks, is non-empty and ends with `?`.
/// The empty command expects none.
pub open spec fn spec_is_query(s: Seq<char>) -> bool {
    let t = trim_spaces(first_token(s));
    t.len() > 0 && t.last() == '?'
}

/// Law: the empty command is never a query.
pub proof fn lemma_empty_not_query()
    ensures
        !spec_is_query(Seq::<char>::empty()),
{
    assert(first_token(Seq::<char>::empty()) =~= Seq::<char>::empty());
}

/// Determine if a command string is a query or not: true exactly when the
/// first space-delimited token of `command`, trimmed of surrounding blanks,
/// ends with `?`.
pub fn is_query(command: &str) -> (b: bool)
    ensures
        b == spec_is_query(command@),
{
    let ghost s = command@;
    let n = command.unicode_len();

    // End of the first space-delimited token.
    let mut e: usize = 0;
    while e < n && command.get_char(e) != ' '
        invariant
            e <= n,
            n == s.len(),
            s == command@,
            forall|k: int| 0 <= k < e ==> s[k] != ' ',
        decreases n - e,
    {
        e += 1;
    }
    proof {
        lemma_prefix_until(s, ' ');
        let p = prefix_until(s, ' ') as int;
        if p < e {
            assert(s[p] != ' ');
        }
        if e < p {
            assert(s[e as int] == ' ');
        }
        assert(e == p);
    }

    // Last non-blank character of the token, if any.
    let mut j: usize = e;
    while j > 0 && is_space(command.get_char(j - 1))
        invariant
            j <= e,
            e <= n,
            n == s.len(),
            s == command@,
            forall|k: int| j <= k < e ==> is_space_char(s[k]),
        decreases j,
    {
        j -= 1;
    }

    proof {
        let t = first_token(s);
        lemma_trim_end_props(t);
        let m = trim_end(t).len() as int;
        // The loop's stop index and the spec's trim agree.
        if m < j {
            assert(is_space_char(t[m]));
            assert(!is_space_char(s[j - 1]));
            assert(t[j - 1] == s[j - 1]);
        }
        if j < m {
            assert(is_space_char(s[m - 1]));
            assert(t[m - 1] == s[m - 1]);
        }
        assert(m == j);
        if j > 0 {
            let u = trim_end(t);
            lemma_trim_start_props(u);
            assert(u.last() == t[j - 1]);
            assert(t[j - 1] == s[j - 1]);
            if trim_start(u).len() == 0 {
                assert(is_space_char(u[u.len() - 1]));
            }
            assert(trim_spaces(t).last() == u.last());
        }
    }

    if j == 0 {
        false
    } else {
        command.get_char(j - 1) == '?'
    }
}

/// True exactly when `c` is one of the blank characters this library trims.
pub fn is_space(c: char) -> (b: bool)
    ensures
        b == is_space_char(c),
{
    c == ' ' || c == '\t' || c == '\n' || c == '\r' || c == '\u{b}' || c == '\u{c}'
}

} // verus!
