//! The executable matching engine.
//!
//! The engine works on character slices. `match_here` is the recursive
//! backtracking matcher, `match_star` explores the consumption counts of a
//! quantified token, `match_simple_pattern` is the atom matcher and
//! `next_pattern` the tokenizer. `match_pattern` adds the leftmost-offset
//! search over a string, and `matches` is the validating entry point that
//! reports a malformed pattern as an error instead of a match result.

use vstd::prelude::*;
use vstd::string::StrSliceExecFns;

use crate::lemmas::{lemma_find, lemma_find_is, lemma_token_shape, lemma_wf_parts};
use crate::semantics::{
    atom_match, branch_a, branch_b, find, group_ok, head_ok, is_digit_char, is_word_char,
    match_here_spec, match_spec, pattern_valid, star_spec, token_len, wf, wf_after,
};

verus! {

/// The fatal outcome of a match attempt: the caller supplied a pattern that
/// violates the supported grammar. Distinct from an ordinary "no match".
#[derive(Debug, Clone, Copy, PartialEq, Eq)]
pub enum RegexError {
    InvalidPattern,
}

/// The characters of `s`, in order.
fn to_chars(s: &str) -> (v: Vec<char>)
    ensures
        v@ == s@,
{
    let n = s.unicode_len();
    let mut v: Vec<char> = Vec::new();
    let mut i: usize = 0;
    while i < n
        invariant
            i <= n,
            n == s@.len(),
            v@ =~= s@.subrange(0, i as int),
        decreases n - i,
    {
        v.push(s.get_char(i));
        i = i + 1;
    }
    assert(v@ =~= s@);
    v
}

/// Index of the first occurrence of `c` in `p`, if any.
fn find_char(p: &[char], c: char) -> (r: Option<usize>)
    ensures
        match r {
            Some(j) => j as int == find(p@, c) && j < p@.len() && p@[j as int] == c,
            None => find(p@, c) == -1,
        },
{
    let mut i: usize = 0;
    while i < p.len()
        invariant
            i <= p@.len(),
            forall|k: int| 0 <= k < i ==> p@[k] != c,
        decreases p@.len() - i,
    {
        if p[i] == c {
            proof {
                lemma_find_is(p@, c, i as int);
            }
            return Some(i);
        }
        i = i + 1;
    }
    proof {
        lemma_find(p@, c);
    }
    None
}

/// The concatenation of two character slices as a fresh vector.
fn concat_slices(a: &[char], b: &[char]) -> (v: Vec<char>)
    ensures
        v@ == a@ + b@,
{
    let mut v: Vec<char> = Vec::new();
    let mut i: usize = 0;
    while i < a.len()
        invariant
            i <= a@.len(),
            v@ =~= a@.subrange(0, i as int),
        decreases a@.len() - i,
    {
        v.push(a[i]);
        i = i + 1;
    }
    let mut j: usize = 0;
    while j < b.len()
        invariant
            j <= b@.len(),
            v@ =~= a@ + b@.subrange(0, j as int),
        decreases b@.len() - j,
    {
        v.push(b[j]);
        j = j + 1;
    }
    assert(v@ =~= a@ + b@);
    v
}

/// `c` is an ASCII decimal digit.
fn is_digit(c: char) -> (r: bool)
    ensures
        r == is_digit_char(c),
{
    let u: u32 = c as u32;
    48 <= u && u <= 57
}

/// `c` is an ASCII letter or digit.
fn is_word(c: char) -> (r: bool)
    ensures
        r == is_word_char(c),
{
    let u: u32 = c as u32;
    (48 <= u && u <= 57) || (65 <= u && u <= 90) || (97 <= u && u <= 122)
}

/// Tokenizer: length of the next token at the start of `pattern`, or `None`
/// when the pattern is exhausted.
pub fn next_pattern(pattern: &[char]) -> (r: Option<usize>)
    requires
        pattern@.len() == 0 || head_ok(pattern@),
    ensures
        match r {
            None => pattern@.len() == 0,
            Some(tl) => pattern@.len() > 0 && tl as int == token_len(pattern@) && 1 <= tl
                <= pattern@.len(),
        },
{
    if pattern.len() == 0 {
        return None;
    }
    proof {
        lemma_token_shape(pattern@);
    }
    let c = pattern[0];
    if c == '\\' {
        return Some(2);
    }
    if c == '[' {
        let tail = &pattern[1..pattern.len()];
        proof {
            assert(tail@ =~= pattern@.skip(1));
        }
        match find_char(tail, ']') {
            Some(j) => {
                return Some(j + 2);
            },
            None => {
                proof {
                    assert(false);
                }
                return Some(1);
            },
        }
    }
    if c == '(' {
        match find_char(pattern, ')') {
            Some(j) => {
                return Some(j + 1);
            },
            None => {
                proof {
                    assert(false);
                }
                return Some(1);
            },
        }
    }
    Some(1)
}

/// Atom matcher: the first character of `input_line` satisfies the single
/// token `pattern` (a literal, `.`, an escape or a bracket class); false on
/// empty input, and false for the end-of-input marker `$`, which consumes no
/// character.
#[verifier::loop_isolation(false)]
pub fn match_simple_pattern(input_line: &[char], pattern: &[char]) -> (r: bool)
    requires
        head_ok(pattern@),
        token_len(pattern@) == pattern@.len(),
        pattern@[0] != '(',
    ensures
        r == (input_line@.len() > 0 && atom_match(input_line@[0], pattern@)),
{
    if input_line.len() == 0 {
        return false;
    }
    let c = input_line[0];
    if pattern.len() == 1 {
        if pattern[0] == '$' {
            return false;
        }
        return pattern[0] == c || pattern[0] == '.';
    }
    if pattern[0] == '\\' {
        let e = pattern[1];
        if e == 'd' {
            return is_digit(c);
        }
        if e == 'w' {
            return is_word(c);
        }
        return c == '\\';
    }
    proof {
        lemma_token_shape(pattern@);
    }
    let n = pattern.len();
    let ghost inner = pattern@.subrange(1, n - 1);
    let negated = pattern[1] == '^';
    let start: usize = if negated {
        2
    } else {
        1
    };
    let mut i: usize = start;
    while i < n - 1
        invariant
            2 <= n == pattern@.len(),
            inner == pattern@.subrange(1, n - 1),
            start <= i <= n - 1,
            start == if negated {
                2int
            } else {
                1int
            },
            forall|k: int| start <= k < i ==> pattern@[k] != c,
        decreases n - 1 - i,
    {
        if pattern[i] == c {
            proof {
                assert(inner[i - 1] == pattern@[i as int]);
                if negated {
                    assert(inner.skip(1)[i - 2] == pattern@[i as int]);
                    assert(inner.skip(1).contains(c));
                } else {
                    assert(inner.contains(c));
                }
            }
            return !negated;
        }
        i = i + 1;
    }
    proof {
        if negated {
            assert forall|m: int| 0 <= m < inner.skip(1).len() implies inner.skip(1)[m] != c by {
                assert(inner.skip(1)[m] == pattern@[m + 2]);
            }
            assert(!inner.skip(1).contains(c));
            assert(inner[0] == pattern@[1]);
        } else {
            assert forall|m: int| 0 <= m < inner.len() implies inner[m] != c by {
                assert(inner[m] == pattern@[m + 1]);
            }
            assert(!inner.contains(c));
        }
    }
    negated
}

/// Greedy-with-backtracking repetition: `pattern` (a single token) repeated
/// zero or more times, followed by `rest`. At each offset the continuation is
/// tried first; the run is extended by one character only while the token
/// still matches, so the quantifier can both match zero occurrences and give
/// characters back.
#[verifier::loop_isolation(false)]
pub fn match_star(input_line: &[char], pattern: &[char], rest: &[char]) -> (r: bool)
    requires
        head_ok(pattern@),
        token_len(pattern@) == pattern@.len(),
        pattern@[0] != '(',
        wf(rest@),
    ensures
        r == star_spec(input_line@, pattern@, rest@),
    decreases pattern@.len() + rest@.len(), 0int,
{
    let mut i: usize = 0;
    loop
        invariant
            i <= input_line@.len(),
            forall|k: int| 0 <= k < i ==> !match_here_spec(input_line@.skip(k), rest@),
            forall|j: int| 0 <= j < i ==> atom_match(input_line@[j], pattern@),
        decreases input_line@.len() - i,
    {
        let sub = &input_line[i..input_line.len()];
        proof {
            assert(sub@ =~= input_line@.skip(i as int));
        }
        if match_here(sub, rest) {
            return true;
        }
        if i == input_line.len() {
            return false;
        }
        if !match_simple_pattern(sub, pattern) {
            proof {
                assert(!atom_match(input_line@[i as int], pattern@));
                assert forall|k: int|
                    0 <= k <= input_line@.len() && (forall|j: int|
                        0 <= j < k ==> atom_match(input_line@[j], pattern@)) implies !match_here_spec(
                    input_line@.skip(k),
                    rest@,
                ) by {
                    if k > i {
                        assert(atom_match(input_line@[i as int], pattern@));
                    }
                }
            }
            return false;
        }
        i = i + 1;
    }
}

/// Backtracking matcher: does the pattern match at the very start of the
/// input suffix? Consumes one token of pattern per step, dispatching on its
/// quantifier suffix; alternation branches and optional tokens are rejoined
/// with the pattern remainder and rerun through the matcher.
pub fn match_here(input_line: &[char], pattern: &[char]) -> (r: bool)
    requires
        wf(pattern@),
    ensures
        r == match_here_spec(input_line@, pattern@),
    decreases pattern@.len(), 1int,
{
    let tl = match next_pattern(pattern) {
        None => {
            return true;
        },
        Some(t) => t,
    };
    proof {
        lemma_wf_parts(pattern@);
    }
    let n = pattern.len();
    let ghost tok = pattern@.subrange(0, tl as int);
    if tl < n {
        let q = pattern[tl];
        if q == '*' {
            let tok_s = &pattern[0..tl];
            let rest = &pattern[tl + 1..n];
            proof {
                assert(tok_s@ =~= tok);
                assert(rest@ =~= pattern@.skip(tl + 1));
            }
            return match_star(input_line, tok_s, rest);
        }
        if q == '+' {
            let tok_s = &pattern[0..tl];
            let rest = &pattern[tl + 1..n];
            proof {
                assert(tok_s@ =~= tok);
                assert(rest@ =~= pattern@.skip(tl + 1));
            }
            if !match_simple_pattern(input_line, tok_s) {
                return false;
            }
            let sub = &input_line[1..input_line.len()];
            proof {
                assert(sub@ =~= input_line@.skip(1));
            }
            return match_star(sub, tok_s, rest);
        }
        if q == '?' {
            let tok_s = &pattern[0..tl];
            let rest = &pattern[tl + 1..n];
            proof {
                assert(tok_s@ =~= tok);
                assert(rest@ =~= pattern@.skip(tl + 1));
            }
            if input_line.len() == 0 {
                return match_here(input_line, rest);
            }
            let joined = concat_slices(tok_s, rest);
            if match_here(input_line, joined.as_slice()) {
                return true;
            }
            return match_here(input_line, rest);
        }
    }
    if input_line.len() == 0 {
        return tl == 1 && pattern[0] == '$';
    }
    if pattern[0] == '(' {
        let bar = match find_char(pattern, '|') {
            Some(b) => b,
            None => {
                proof {
                    assert(false);
                }
                0
            },
        };
        let rp = tl - 1;
        let rest = &pattern[tl..n];
        proof {
            assert(pattern@.subrange(1, bar as int) =~= branch_a(pattern@));
            assert(pattern@.subrange(bar + 1, rp as int) =~= branch_b(pattern@));
            assert(rest@ =~= pattern@.skip(tl as int));
        }
        let qa = concat_slices(&pattern[1..bar], rest);
        let qb = concat_slices(&pattern[bar + 1..rp], rest);
        if match_here(input_line, qa.as_slice()) {
            return true;
        }
        return match_here(input_line, qb.as_slice());
    }
    let tok_s = &pattern[0..tl];
    proof {
        assert(tok_s@ =~= tok);
    }
    if match_simple_pattern(input_line, tok_s) {
        let sub = &input_line[1..input_line.len()];
        let rest = &pattern[tl..n];
        proof {
            assert(sub@ =~= input_line@.skip(1));
            assert(rest@ =~= pattern@.skip(tl as int));
        }
        return match_here(sub, rest);
    }
    false
}

/// Checks what may follow the head token of `pattern` (whose length is
/// `tl`): nothing, or a quantifier and a further well-formed remainder, or
/// directly a further well-formed remainder.
fn check_after(pattern: &[char], tl: usize) -> (r: bool)
    requires
        head_ok(pattern@),
        tl as int == token_len(pattern@),
    ensures
        r == wf_after(pattern@),
    decreases pattern@.len(), 1int,
{
    proof {
        lemma_token_shape(pattern@);
    }
    let n = pattern.len();
    if tl == n {
        return true;
    }
    let q = pattern[tl];
    if q == '*' || q == '+' {
        if pattern[0] == '(' {
            return false;
        }
        if tl + 1 < n {
            let h = pattern[tl + 1];
            if h == '*' || h == '+' || h == '?' {
                return false;
            }
        }
        let rest = &pattern[tl + 1..n];
        proof {
            assert(rest@ =~= pattern@.skip(tl + 1));
        }
        return pattern_well_formed(rest);
    }
    if q == '?' {
        if tl + 1 < n {
            let h = pattern[tl + 1];
            if h == '*' || h == '+' || h == '?' {
                return false;
            }
        }
        let rest = &pattern[tl + 1..n];
        proof {
            assert(rest@ =~= pattern@.skip(tl + 1));
        }
        return pattern_well_formed(rest);
    }
    let rest = &pattern[tl..n];
    proof {
        assert(rest@ =~= pattern@.skip(tl as int));
    }
    pattern_well_formed(rest)
}

/// Decides whether `pattern` obeys the supported grammar: every escape is
/// recognized, every bracket class and alternation group is closed, a group
/// holds exactly one `|` and no nested `(`, `*` and `+` never follow a group,
/// and a quantifier never follows another quantifier.
pub fn pattern_well_formed(pattern: &[char]) -> (r: bool)
    ensures
        r == wf(pattern@),
    decreases pattern@.len(), 2int,
{
    if pattern.len() == 0 {
        return true;
    }
    let c = pattern[0];
    if c == '\\' {
        if pattern.len() < 2 {
            return false;
        }
        let e = pattern[1];
        if !(e == 'd' || e == 'w' || e == '\\') {
            return false;
        }
        return check_after(pattern, 2);
    }
    if c == '[' {
        let tail = &pattern[1..pattern.len()];
        proof {
            assert(tail@ =~= pattern@.skip(1));
        }
        match find_char(tail, ']') {
            None => {
                return false;
            },
            Some(j) => {
                return check_after(pattern, j + 2);
            },
        }
    }
    if c == '(' {
        let bar = match find_char(pattern, '|') {
            None => {
                return false;
            },
            Some(b) => b,
        };
        let rp = match find_char(pattern, ')') {
            None => {
                return false;
            },
            Some(x) => x,
        };
        if bar < 1 || bar >= rp {
            return false;
        }
        let mid = &pattern[bar + 1..rp];
        proof {
            assert(mid@ =~= pattern@.subrange(bar + 1, rp as int));
        }
        match find_char(mid, '|') {
            Some(j2) => {
                proof {
                    assert(pattern@[bar + 1 + j2] == '|');
                }
                return false;
            },
            None => {},
        }
        let pre = &pattern[1..rp];
        proof {
            assert(pre@ =~= pattern@.subrange(1, rp as int));
        }
        match find_char(pre, '(') {
            Some(j3) => {
                proof {
                    assert(pattern@[1 + j3] == '(');
                }
                return false;
            },
            None => {},
        }
        proof {
            lemma_find(mid@, '|');
            lemma_find(pre@, '(');
            assert forall|k: int| bar < k < rp implies pattern@[k] != '|' by {
                assert(pattern@[k] == mid@[k - bar - 1]);
            }
            assert forall|k: int| 1 <= k < rp implies pattern@[k] != '(' by {
                assert(pattern@[k] == pre@[k - 1]);
            }
            assert(group_ok(pattern@));
            assert(pattern@.subrange(1, bar as int) =~= branch_a(pattern@));
            assert(pattern@.subrange(bar + 1, rp as int) =~= branch_b(pattern@));
        }
        if !pattern_well_formed(&pattern[1..bar]) {
            return false;
        }
        if !pattern_well_formed(&pattern[bar + 1..rp]) {
            return false;
        }
        return check_after(pattern, rp + 1);
    }
    check_after(pattern, 1)
}

/// The caller-supplied pattern is well-formed; a leading `^` is the anchor.
pub fn valid_pattern(pattern: &str) -> (r: bool)
    ensures
        r == pattern_valid(pattern@),
{
    let p = to_chars(pattern);
    let pv = p.as_slice();
    if p.len() > 0 && pv[0] == '^' {
        let rest = &pv[1..p.len()];
        proof {
            assert(rest@ =~= pattern@.skip(1));
        }
        pattern_well_formed(rest)
    } else {
        pattern_well_formed(pv)
    }
}

/// Top-level search: the pattern matches somewhere in the input line, at the
/// earliest offset where any match exists; a `^`-anchored pattern is tried at
/// offset 0 only. The pattern must be well-formed — `matches` checks that
/// first and never calls this otherwise.
#[verifier::loop_isolation(false)]
pub fn match_pattern(input_line: &str, pattern: &str) -> (r: bool)
    requires
        pattern_valid(pattern@),
    ensures
        r == match_spec(input_line@, pattern@),
{
    let s = to_chars(input_line);
    let p = to_chars(pattern);
    let sv = s.as_slice();
    let pv = p.as_slice();
    if p.len() > 0 && pv[0] == '^' {
        let rest = &pv[1..p.len()];
        proof {
            assert(rest@ =~= pattern@.skip(1));
        }
        return match_here(sv, rest);
    }
    let mut i: usize = 0;
    loop
        invariant
            i <= s@.len(),
            forall|k: int| 0 <= k < i ==> !match_here_spec(input_line@.skip(k), pattern@),
        decreases s@.len() - i,
    {
        let sub = &sv[i..s.len()];
        proof {
            assert(sub@ =~= input_line@.skip(i as int));
        }
        if match_here(sub, pv) {
            return true;
        }
        if i == s.len() {
            return false;
        }
        i = i + 1;
    }
}

/// Entry point: decides whether `pattern` matches somewhere in `input_line`.
/// A pattern that violates the supported grammar is a contract violation by
/// the caller and is reported as `Err(RegexError::InvalidPattern)`, exactly
/// when the pattern is malformed — never as a silent "no match".
pub fn matches(pattern: &str, input_line: &str) -> (r: Result<bool, RegexError>)
    ensures
        match r {
            Ok(b) => pattern_valid(pattern@) && b == match_spec(input_line@, pattern@),
            Err(e) => !pattern_valid(pattern@) && e == RegexError::InvalidPattern,
        },
{
    if !valid_pattern(pattern) {
        return Err(RegexError::InvalidPattern);
    }
    Ok(match_pattern(input_line, pattern))
}

} // verus!
