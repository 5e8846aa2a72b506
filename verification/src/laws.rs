//! General laws of the matcher, stated over the specification.
//!
//! Determinism needs no lemma of its own: `matches` and `match_pattern`
//! ensure that their result equals a function of the two views alone, so two
//! calls on equal pattern and input always agree.

use vstd::prelude::*;

use crate::lemmas::{lemma_find, lemma_head_concat};
use crate::semantics::{
    find, match_here_spec, match_spec, pattern_valid, star_spec, token_len, wf, wf_after,
};

verus! {

/// The empty pattern is valid and matches every input, the empty input
/// included.
pub proof fn lemma_empty_pattern_matches(s: Seq<char>)
    ensures
        pattern_valid(Seq::<char>::empty()),
        match_spec(s, Seq::<char>::empty()),
{
    let e = Seq::<char>::empty();
    assert(match_here_spec(s.skip(0), e));
}

/// A bare literal requires at least one input character: against the empty
/// input it never matches. The end-of-input marker `$` and the anchor `^` are
/// not literals and are left out.
pub proof fn lemma_bare_literal_rejects_empty(c: char)
    requires
        wf(seq![c]),
        c != '$',
        c != '^',
    ensures
        pattern_valid(seq![c]),
        !match_spec(Seq::<char>::empty(), seq![c]),
{
    let p = seq![c];
    let s = Seq::<char>::empty();
    assert forall|i: int| 0 <= i <= s.len() implies !match_here_spec(s.skip(i), p) by {
        assert(s.skip(i) =~= s);
        assert(token_len(p) == 1);
    }
}

/// A single token under `*` is fully optional: the whole pattern matches the
/// empty input.
pub proof fn lemma_star_of_token_matches_empty(tok: Seq<char>)
    requires
        wf(tok),
        token_len(tok) == tok.len(),
        tok.len() > 0,
        tok[0] != '(',
        tok[0] != '^',
    ensures
        pattern_valid(tok + seq!['*']),
        match_spec(Seq::<char>::empty(), tok + seq!['*']),
{
    reveal_with_fuel(wf, 2);
    reveal_with_fuel(wf_after, 2);
    reveal_with_fuel(match_here_spec, 2);
    reveal_with_fuel(star_spec, 2);
    let p = tok + seq!['*'];
    let s = Seq::<char>::empty();
    lemma_head_concat(tok, seq!['*']);
    assert(p[tok.len() as int] == '*');
    assert(p.skip(tok.len() as int + 1) =~= Seq::<char>::empty());
    assert(wf_after(p));
    assert(wf(p));
    assert(p.subrange(0, tok.len() as int) =~= tok);
    assert(match_here_spec(s.skip(0), Seq::<char>::empty()));
    assert(star_spec(s, tok, Seq::<char>::empty()));
    assert(match_here_spec(s, p));
    assert(s.skip(0) =~= s);
    assert(match_here_spec(s.skip(0), p));
}

/// A single token under `?` is fully optional: the whole pattern matches the
/// empty input. Alternation groups are tokens, so this covers an optional
/// group as well.
pub proof fn lemma_optional_token_matches_empty(tok: Seq<char>)
    requires
        wf(tok),
        token_len(tok) == tok.len(),
        tok.len() > 0,
        tok[0] != '^',
    ensures
        pattern_valid(tok + seq!['?']),
        match_spec(Seq::<char>::empty(), tok + seq!['?']),
{
    reveal_with_fuel(wf, 2);
    reveal_with_fuel(wf_after, 2);
    reveal_with_fuel(match_here_spec, 2);
    let p = tok + seq!['?'];
    let s = Seq::<char>::empty();
    lemma_head_concat(tok, seq!['?']);
    assert(p[tok.len() as int] == '?');
    assert(p.skip(tok.len() as int + 1) =~= Seq::<char>::empty());
    if tok[0] == '(' {
        assert(crate::semantics::branch_a(p) =~= crate::semantics::branch_a(tok));
        assert(crate::semantics::branch_b(p) =~= crate::semantics::branch_b(tok));
    }
    assert(wf_after(p));
    assert(wf(p));
    assert(match_here_spec(s, p.skip(tok.len() as int + 1)));
    assert(match_here_spec(s, p));
    assert(match_here_spec(s.skip(0), p));
}

/// Malformed patterns are never a silent "no match": an unrecognized escape,
/// an unterminated bracket class and an unterminated alternation group each
/// make the pattern invalid, so by the contract of `matches` every such
/// pattern is answered with the fatal `InvalidPattern` error, whatever the
/// input. (A leading `^` is the anchor, not a token, so the law is stated for
/// patterns that do not start with it; an anchored pattern is invalid exactly
/// when its tail after `^` is.)
pub proof fn lemma_malformed_pattern_is_invalid(p: Seq<char>)
    requires
        p.len() > 0,
        p[0] != '^',
    ensures
        p[0] == '\\' && (p.len() < 2 || (p[1] != 'd' && p[1] != 'w' && p[1] != '\\'))
            ==> !pattern_valid(p),
        p[0] == '[' && (forall|k: int| 1 <= k < p.len() ==> p[k] != ']') ==> !pattern_valid(p),
        p[0] == '(' && (forall|k: int| 0 <= k < p.len() ==> p[k] != ')') ==> !pattern_valid(p),
{
    if p[0] == '[' {
        lemma_find(p.skip(1), ']');
        let n = find(p.skip(1), ']');
        if n != -1 {
            assert(p[n + 1] == p.skip(1)[n]);
        }
    }
    if p[0] == '(' {
        lemma_find(p, ')');
    }
}

} // verus!
