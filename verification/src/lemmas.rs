//! Facts about the pattern grammar used by the matcher's proofs.
//!
//! The matcher recurses on slices of the pattern and on concatenations of
//! such slices (a token rejoined with the remainder, an alternation branch
//! rejoined with the remainder). These lemmas show that tokenization
//! is stable under such concatenations and that well-formedness carries over
//! to every pattern the recursion constructs.

use vstd::prelude::*;

use crate::semantics::{
    branch_a, branch_b, find, group_ok, head_ok, is_quant, no_quant_head, token_len, wf, wf_after,
};

verus! {

/// `find` returns the index of the first occurrence: a non-negative result
/// points at `c` with no earlier occurrence, and -1 means `c` is absent.
pub proof fn lemma_find(p: Seq<char>, c: char)
    ensures
        find(p, c) == -1 ==> forall|k: int| 0 <= k < p.len() ==> p[k] != c,
        find(p, c) != -1 ==> 0 <= find(p, c) < p.len() && p[find(p, c)] == c && (forall|k: int|
            0 <= k < find(p, c) ==> p[k] != c),
    decreases p.len(),
{
    if p.len() > 0 && p[0] != c {
        lemma_find(p.skip(1), c);
        let f1 = find(p.skip(1), c);
        if f1 == -1 {
            assert forall|k: int| 0 <= k < p.len() implies p[k] != c by {
                if k >= 1 {
                    assert(p[k] == p.skip(1)[k - 1]);
                }
            }
        } else {
            assert(p[f1 + 1] == p.skip(1)[f1]);
            assert forall|k: int| 0 <= k < f1 + 1 implies p[k] != c by {
                if k >= 1 {
                    assert(p[k] == p.skip(1)[k - 1]);
                }
            }
        }
    }
}

/// Helper: the first occurrence is unique, so knowing a position with `c` and
/// nothing before it pins `find` down.
pub proof fn lemma_find_is(p: Seq<char>, c: char, n: int)
    requires
        0 <= n < p.len(),
        p[n] == c,
        forall|k: int| 0 <= k < n ==> p[k] != c,
    ensures
        find(p, c) == n,
{
    lemma_find(p, c);
}

/// Shape of the head token: its length stays within the pattern, a class
/// token ends at the first `]`, and a group token ends at the first `)` with
/// its single `|` before it.
pub proof fn lemma_token_shape(p: Seq<char>)
    requires
        head_ok(p),
    ensures
        1 <= token_len(p) <= p.len(),
        p[0] == '[' ==> p[token_len(p) - 1] == ']' && (forall|k: int|
            1 <= k < token_len(p) - 1 ==> p[k] != ']'),
        p[0] == '(' ==> p[token_len(p) - 1] == ')' && (forall|k: int|
            0 <= k < token_len(p) - 1 ==> p[k] != ')') && p[find(p, '|')] == '|' && (forall|k: int|
            0 <= k < find(p, '|') ==> p[k] != '|'),
{
    if p[0] == '[' {
        lemma_find(p.skip(1), ']');
        let n = find(p.skip(1), ']');
        assert(p[n + 1] == p.skip(1)[n]);
        assert forall|k: int| 1 <= k < token_len(p) - 1 implies p[k] != ']' by {
            assert(p[k] == p.skip(1)[k - 1]);
        }
    } else if p[0] == '(' {
        lemma_find(p, ')');
        lemma_find(p, '|');
    }
}

/// Tokenization is stable under appending: the token at the start of `a` is
/// also the token at the start of `a + b`.
pub proof fn lemma_head_concat(a: Seq<char>, b: Seq<char>)
    requires
        head_ok(a),
    ensures
        head_ok(a + b),
        token_len(a + b) == token_len(a),
        a[0] == '(' ==> find(a + b, '|') == find(a, '|') && find(a + b, ')') == find(a, ')'),
{
    let ab = a + b;
    assert(ab[0] == a[0]);
    if a[0] == '\\' {
        assert(ab[1] == a[1]);
    } else if a[0] == '[' {
        lemma_find(a.skip(1), ']');
        let n = find(a.skip(1), ']');
        assert(a.skip(1)[n] == a[n + 1]);
        assert(ab.skip(1)[n] == ab[n + 1]);
        assert forall|k: int| 0 <= k < n implies ab.skip(1)[k] != ']' by {
            assert(ab.skip(1)[k] == ab[k + 1]);
            assert(a.skip(1)[k] == a[k + 1]);
        }
        lemma_find_is(ab.skip(1), ']', n);
    } else if a[0] == '(' {
        let bar = find(a, '|');
        let rp = find(a, ')');
        lemma_find(a, '|');
        lemma_find(a, ')');
        lemma_find_is(ab, '|', bar);
        lemma_find_is(ab, ')', rp);
    }
}

/// The head token of a well-formed pattern is itself a well-formed pattern.
pub proof fn lemma_token_prefix_wf(p: Seq<char>)
    requires
        head_ok(p),
        p[0] == '(' ==> wf(branch_a(p)) && wf(branch_b(p)),
    ensures
        head_ok(p.subrange(0, token_len(p))),
        token_len(p.subrange(0, token_len(p))) == token_len(p),
        wf(p.subrange(0, token_len(p))),
{
    lemma_token_shape(p);
    let tl = token_len(p);
    let t = p.subrange(0, tl);
    assert(t[0] == p[0]);
    if p[0] == '\\' {
        assert(t[1] == p[1]);
        assert(wf_after(t));
    } else if p[0] == '[' {
        lemma_find(p.skip(1), ']');
        let n = find(p.skip(1), ']');
        assert(t.skip(1)[n] == t[n + 1]);
        assert(t[n + 1] == p[n + 1]);
        assert(p.skip(1)[n] == p[n + 1]);
        assert forall|k: int| 0 <= k < n implies t.skip(1)[k] != ']' by {
            assert(t.skip(1)[k] == t[k + 1]);
            assert(t[k + 1] == p[k + 1]);
            assert(p.skip(1)[k] == p[k + 1]);
        }
        lemma_find_is(t.skip(1), ']', n);
        assert(head_ok(t));
        assert(token_len(t) == tl);
        assert(wf_after(t));
    } else if p[0] == '(' {
        let bar = find(p, '|');
        let rp = find(p, ')');
        lemma_find(p, '|');
        lemma_find(p, ')');
        assert forall|k: int| 0 <= k < t.len() implies t[k] == p[k] by {}
        lemma_find_is(t, '|', bar);
        lemma_find_is(t, ')', rp);
        assert(group_ok(t));
        assert(branch_a(t) =~= branch_a(p));
        assert(branch_b(t) =~= branch_b(p));
        assert(token_len(t) == tl);
        assert(wf_after(t));
    } else {
        assert(wf_after(t));
    }
}

/// Well-formedness is preserved by concatenation, provided the second part
/// does not begin with a quantifier that would attach itself to the last
/// token of the first part.
pub proof fn lemma_wf_concat(a: Seq<char>, b: Seq<char>)
    requires
        wf(a),
        wf(b),
        no_quant_head(b),
    ensures
        wf(a + b),
    decreases a.len(),
{
    reveal_with_fuel(wf, 2);
    reveal_with_fuel(wf_after, 2);
    if a.len() == 0 {
        assert(a + b =~= b);
    } else {
        let ab = a + b;
        lemma_head_concat(a, b);
        lemma_token_shape(a);
        let tl = token_len(a);
        if a[0] == '(' {
            assert(branch_a(ab) =~= branch_a(a));
            assert(branch_b(ab) =~= branch_b(a));
        }
        if a.len() == tl {
            // `a` is a single token; what follows it in `ab` is exactly `b`.
            if b.len() == 0 {
                assert(ab =~= a);
            } else {
                assert(ab[tl] == b[0]);
                assert(!is_quant(ab[tl]));
                assert(ab.skip(tl) =~= b);
                assert(wf_after(ab));
            }
        } else {
            let q = a[tl];
            assert(ab[tl] == a[tl]);
            if q == '*' || q == '+' || q == '?' {
                assert(no_quant_head(a.skip(tl + 1)) && wf(a.skip(tl + 1)));
                lemma_wf_concat(a.skip(tl + 1), b);
                assert(ab.skip(tl + 1) =~= a.skip(tl + 1) + b);
                if a.skip(tl + 1).len() > 0 {
                    assert(ab.skip(tl + 1)[0] == a.skip(tl + 1)[0]);
                } else if b.len() > 0 {
                    assert(ab.skip(tl + 1)[0] == b[0]);
                }
                assert(no_quant_head(ab.skip(tl + 1)));
                assert(wf_after(ab));
            } else {
                assert(wf(a.skip(tl)));
                lemma_wf_concat(a.skip(tl), b);
                assert(ab.skip(tl) =~= a.skip(tl) + b);
                assert(wf_after(ab));
            }
        }
        assert(wf(ab));
    }
}

/// Everything the matcher needs about one step through a well-formed
/// pattern: the head token is itself well-formed, and every pattern the
/// recursion constructs from `p` — the remainder after the token or its
/// quantifier, a token rejoined with the remainder for `?`, an alternation
/// branch rejoined with the remainder — is well-formed again.
pub proof fn lemma_wf_parts(p: Seq<char>)
    requires
        wf(p),
        p.len() > 0,
    ensures
        head_ok(p),
        1 <= token_len(p) <= p.len(),
        head_ok(p.subrange(0, token_len(p))),
        token_len(p.subrange(0, token_len(p))) == token_len(p),
        wf(p.subrange(0, token_len(p))),
        token_len(p) < p.len() && (p[token_len(p)] == '*' || p[token_len(p)] == '+') ==> p[0] != '('
            && wf(p.skip(token_len(p) + 1)),
        token_len(p) < p.len() && p[token_len(p)] == '?' ==> wf(
            p.subrange(0, token_len(p)) + p.skip(token_len(p) + 1),
        ) && wf(p.skip(token_len(p) + 1)),
        token_len(p) == p.len() || !is_quant(p[token_len(p)]) ==> wf(p.skip(token_len(p))),
        p[0] == '(' ==> 1 <= find(p, '|') < find(p, ')') == token_len(p) - 1 < p.len() && p[find(
            p,
            '|',
        )] == '|' && p[token_len(p) - 1] == ')',
        p[0] == '(' && (token_len(p) == p.len() || !is_quant(p[token_len(p)])) ==> wf(
            branch_a(p) + p.skip(token_len(p)),
        ) && wf(branch_b(p) + p.skip(token_len(p))),
{
    reveal_with_fuel(wf, 2);
    reveal_with_fuel(wf_after, 2);
    lemma_token_shape(p);
    lemma_token_prefix_wf(p);
    let tl = token_len(p);
    let tok = p.subrange(0, tl);
    if p[0] == '(' {
        lemma_find(p, '|');
        lemma_find(p, ')');
    }
    if tl < p.len() && p[tl] == '?' {
        lemma_wf_concat(tok, p.skip(tl + 1));
    }
    if tl == p.len() || !is_quant(p[tl]) {
        if tl == p.len() {
            assert(p.skip(tl) =~= Seq::<char>::empty());
        }
        assert(wf(p.skip(tl)));
        if p[0] == '(' {
            assert(no_quant_head(p.skip(tl)));
            lemma_wf_concat(branch_a(p), p.skip(tl));
            lemma_wf_concat(branch_b(p), p.skip(tl));
        }
    }
}

} // verus!
