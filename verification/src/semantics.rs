//! Mathematical model of the pattern grammar and of matching.
//!
//! Patterns and input lines are sequences of characters. A pattern is a
//! sequence of tokens (literal, wildcard, escape, bracket class, alternation
//! group), each optionally followed by a single quantifier `*`, `+` or `?`.
//! `match_here_spec` gives the meaning of matching a pattern against an input
//! suffix; `match_spec` adds the leftmost-offset search and the `^` anchor.

use vstd::prelude::*;

verus! {

/// `c` is an ASCII decimal digit.
pub open spec fn is_digit_char(c: char) -> bool {
    48 <= c as u32 && c as u32 <= 57
}

/// `c` is an ASCII letter or digit.
pub open spec fn is_word_char(c: char) -> bool {
    ||| is_digit_char(c)
    ||| 65 <= c as u32 && c as u32 <= 90
    ||| 97 <= c as u32 && c as u32 <= 122
}

/// `c` is a quantifier suffix character.
pub open spec fn is_quant(c: char) -> bool {
    c == '*' || c == '+' || c == '?'
}

/// Index of the first occurrence of `c` in `p`, or -1 when `c` does not occur.
pub open spec fn find(p: Seq<char>, c: char) -> int
    decreases p.len(),
{
    if p.len() == 0 {
        -1
    } else if p[0] == c {
        0
    } else if find(p.skip(1), c) < 0 {
        -1
    } else {
        find(p.skip(1), c) + 1
    }
}

/// `p` starts with a well-delimited alternation group `(a|b)`: the first `|`
/// comes before the first `)`, the group holds exactly one `|`, and no nested
/// `(` appears inside it.
pub open spec fn group_ok(p: Seq<char>) -> bool {
    let bar = find(p, '|');
    let rp = find(p, ')');
    &&& 1 <= bar && bar < rp && rp < p.len()
    &&& forall|k: int| bar < k < rp ==> p[k] != '|'
    &&& forall|k: int| 1 <= k < rp ==> p[k] != '('
}

/// A complete token stands at the start of `p`: a recognized escape after
/// `\`, a closed bracket class after `[`, a well-delimited group after `(`,
/// or any single character otherwise.
pub open spec fn head_ok(p: Seq<char>) -> bool {
    &&& p.len() > 0
    &&& (p[0] == '\\' ==> p.len() >= 2 && (p[1] == 'd' || p[1] == 'w' || p[1] == '\\'))
    &&& (p[0] == '[' ==> 0 <= find(p.skip(1), ']') && find(p.skip(1), ']') <= p.len() - 2)
    &&& (p[0] == '(' ==> group_ok(p))
}

/// Length of the token at the start of `p`.
pub open spec fn token_len(p: Seq<char>) -> int
    recommends
        head_ok(p),
{
    if p[0] == '\\' {
        2
    } else if p[0] == '[' {
        find(p.skip(1), ']') + 2
    } else if p[0] == '(' {
        find(p, ')') + 1
    } else {
        1
    }
}

/// First branch of the alternation group at the start of `p`.
pub open spec fn branch_a(p: Seq<char>) -> Seq<char>
    recommends
        group_ok(p),
{
    p.subrange(1, find(p, '|'))
}

/// Second branch of the alternation group at the start of `p`.
pub open spec fn branch_b(p: Seq<char>) -> Seq<char>
    recommends
        group_ok(p),
{
    p.subrange(find(p, '|') + 1, find(p, ')'))
}

/// One input character `c` satisfies the atomic token `tok`. The
/// end-of-input marker `$` never consumes a character, so it satisfies none:
/// wherever the matcher reaches `$` with input characters remaining, that
/// branch fails.
pub open spec fn atom_match(c: char, tok: Seq<char>) -> bool {
    if tok.len() == 1 {
        if tok[0] == '$' {
            false
        } else {
            tok[0] == c || tok[0] == '.'
        }
    } else if tok.len() == 2 && tok[0] == '\\' && tok[1] == '\\' {
        c == '\\'
    } else if tok.len() == 2 && tok[0] == '\\' && tok[1] == 'd' {
        is_digit_char(c)
    } else if tok.len() == 2 && tok[0] == '\\' && tok[1] == 'w' {
        is_word_char(c)
    } else if tok.len() >= 2 && tok[0] == '[' && tok[tok.len() - 1] == ']' {
        let inner = tok.subrange(1, tok.len() - 1);
        if inner.len() > 0 && inner[0] == '^' {
            !inner.skip(1).contains(c)
        } else {
            inner.contains(c)
        }
    } else {
        false
    }
}

/// `p` does not begin with a quantifier character.
pub open spec fn no_quant_head(p: Seq<char>) -> bool {
    p.len() == 0 || !is_quant(p[0])
}

/// The whole of `p` consists of well-delimited tokens, each followed by at
/// most one quantifier; `*` and `+` never follow a group, and a quantifier
/// never follows another quantifier. Both alternation branches are themselves
/// well-formed. A malformed pattern is a contract violation by the caller,
/// never a legitimate "no match".
pub open spec fn wf(p: Seq<char>) -> bool
    decreases p.len(), 2int,
{
    if p.len() == 0 {
        true
    } else if !head_ok(p) {
        false
    } else if p[0] == '(' {
        wf(branch_a(p)) && wf(branch_b(p)) && wf_after(p)
    } else {
        wf_after(p)
    }
}

/// What may follow the token at the start of `p`: nothing, a quantifier and
/// then a well-formed remainder that starts with no quantifier, or directly a
/// well-formed remainder.
pub open spec fn wf_after(p: Seq<char>) -> bool
    recommends
        head_ok(p),
    decreases p.len(), 1int,
{
    if !head_ok(p) {
        false
    } else {
        let tl = token_len(p);
        if p.len() == tl {
            true
        } else if p[tl] == '*' || p[tl] == '+' {
            p[0] != '(' && no_quant_head(p.skip(tl + 1)) && wf(p.skip(tl + 1))
        } else if p[tl] == '?' {
            no_quant_head(p.skip(tl + 1)) && wf(p.skip(tl + 1))
        } else {
            wf(p.skip(tl))
        }
    }
}

/// The backtracking matcher's meaning: pattern suffix `p` matches at the
/// start of input suffix `s`. An exhausted pattern always matches; with the
/// input exhausted, only the end-of-input marker `$` still matches, and `$`
/// matches nothing else (see `atom_match`). An alternation branch is matched
/// by concatenating it with the pattern remainder after the group, and `x?`
/// by matching either the token followed by the remainder or the remainder
/// alone; on empty input the optional token can consume nothing, so only the
/// remainder is matched.
pub open spec fn match_here_spec(s: Seq<char>, p: Seq<char>) -> bool
    decreases p.len(), 1int,
{
    if p.len() == 0 {
        true
    } else if !head_ok(p) {
        false
    } else {
        let tl = token_len(p);
        let tok = p.subrange(0, tl);
        if tl < p.len() && p[tl] == '*' {
            star_spec(s, tok, p.skip(tl + 1))
        } else if tl < p.len() && p[tl] == '+' {
            s.len() > 0 && atom_match(s[0], tok) && star_spec(s.skip(1), tok, p.skip(tl + 1))
        } else if tl < p.len() && p[tl] == '?' {
            if s.len() == 0 {
                match_here_spec(s, p.skip(tl + 1))
            } else {
                match_here_spec(s, tok + p.skip(tl + 1)) || match_here_spec(s, p.skip(tl + 1))
            }
        } else if s.len() == 0 {
            tl == 1 && p[0] == '$'
        } else if p[0] == '(' {
            match_here_spec(s, branch_a(p) + p.skip(tl)) || match_here_spec(
                s,
                branch_b(p) + p.skip(tl),
            )
        } else {
            atom_match(s[0], tok) && match_here_spec(s.skip(1), p.skip(tl))
        }
    }
}

/// Zero or more repetitions of `tok` followed by `rest`: some run of `k`
/// leading characters of `s` each satisfies `tok`, and `rest` matches the
/// input left after the run.
pub open spec fn star_spec(s: Seq<char>, tok: Seq<char>, rest: Seq<char>) -> bool
    decreases tok.len() + rest.len(), 0int,
{
    if tok.len() == 0 {
        false
    } else {
        exists|k: int|
            0 <= k <= s.len() && (forall|j: int| 0 <= j < k ==> atom_match(s[j], tok))
                && match_here_spec(s.skip(k), rest)
    }
}

/// Top-level search: a `^`-anchored pattern must match at offset 0; any other
/// pattern matches if it matches at some offset, the empty suffix included.
pub open spec fn match_spec(s: Seq<char>, p: Seq<char>) -> bool {
    if p.len() > 0 && p[0] == '^' {
        match_here_spec(s, p.skip(1))
    } else {
        exists|i: int| 0 <= i <= s.len() && match_here_spec(s.skip(i), p)
    }
}

/// The pattern as supplied by the caller is well-formed; a leading `^` is an
/// anchor, not a token.
pub open spec fn pattern_valid(p: Seq<char>) -> bool {
    if p.len() > 0 && p[0] == '^' {
        wf(p.skip(1))
    } else {
        wf(p)
    }
}

} // verus!
