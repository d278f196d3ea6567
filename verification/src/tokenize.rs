//! Splitting a raw input line into a command token and a remainder.
//!
//! A line is split on runs of whitespace. The first token is the command
//! name; the remaining tokens, rejoined with single spaces, form the
//! remainder. The specification-level account lives in [`tokens`] and
//! [`join_tokens`]; the dispatcher's `parse_command` is proved against it.

use vstd::prelude::*;

verus! {

/// The characters the tokenizer treats as whitespace: the Unicode
/// White_Space set, the same set `char::is_whitespace` recognizes.
pub open spec fn is_space(c: char) -> bool {
    ||| c == ' '
    ||| c == '\t'
    ||| c == '\n'
    ||| c == '\u{000B}'
    ||| c == '\u{000C}'
    ||| c == '\r'
    ||| c == '\u{0085}'
    ||| c == '\u{00A0}'
    ||| c == '\u{1680}'
    ||| c == '\u{2000}'
    ||| c == '\u{2001}'
    ||| c == '\u{2002}'
    ||| c == '\u{2003}'
    ||| c == '\u{2004}'
    ||| c == '\u{2005}'
    ||| c == '\u{2006}'
    ||| c == '\u{2007}'
    ||| c == '\u{2008}'
    ||| c == '\u{2009}'
    ||| c == '\u{200A}'
    ||| c == '\u{2028}'
    ||| c == '\u{2029}'
    ||| c == '\u{202F}'
    ||| c == '\u{205F}'
    ||| c == '\u{3000}'
}

/// Executable mirror of [`is_space`].
pub fn is_space_char(c: char) -> (b: bool)
    ensures
        b == is_space(c),
{
    c == ' ' || c == '\t' || c == '\n' || c == '\u{000B}' || c == '\u{000C}' || c == '\r'
        || c == '\u{0085}' || c == '\u{00A0}' || c == '\u{1680}' || c == '\u{2000}'
        || c == '\u{2001}' || c == '\u{2002}' || c == '\u{2003}' || c == '\u{2004}'
        || c == '\u{2005}' || c == '\u{2006}' || c == '\u{2007}' || c == '\u{2008}'
        || c == '\u{2009}' || c == '\u{200A}' || c == '\u{2028}' || c == '\u{2029}'
        || c == '\u{202F}' || c == '\u{205F}' || c == '\u{3000}'
}

/// The position where the token starting at `i` ends: the first position at
/// or after `i` holding whitespace, or the end of the line.
pub open spec fn token_end(s: Seq<char>, i: int) -> int
    decreases s.len() - i when 0 <= i <= s.len()
{
    if i >= s.len() || is_space(s[i]) {
        i
    } else {
        token_end(s, i + 1)
    }
}

/// The token end lies between `i` and the end of the line, and everything
/// from `i` up to it is non-whitespace.
pub proof fn lemma_token_end_bounds(s: Seq<char>, i: int)
    requires
        0 <= i <= s.len(),
    ensures
        i <= token_end(s, i) <= s.len(),
        forall|k: int| i <= k < token_end(s, i) ==> !is_space(s[k]),
        i < s.len() && !is_space(s[i]) ==> token_end(s, i) > i,
    decreases s.len() - i,
{
    if i >= s.len() || is_space(s[i]) {
    } else {
        lemma_token_end_bounds(s, i + 1);
    }
}

/// The whitespace-delimited tokens of `s` from position `i` onward, in
/// order.
pub open spec fn tokens_from(s: Seq<char>, i: int) -> Seq<Seq<char>>
    decreases s.len() - i when 0 <= i <= s.len() via tokens_from_decreases
{
    if i >= s.len() {
        Seq::empty()
    } else if is_space(s[i]) {
        tokens_from(s, i + 1)
    } else {
        seq![s.subrange(i, token_end(s, i))] + tokens_from(s, token_end(s, i))
    }
}

#[via_fn]
proof fn tokens_from_decreases(s: Seq<char>, i: int) {
    if 0 <= i < s.len() && !is_space(s[i]) {
        lemma_token_end_bounds(s, i);
        assert(token_end(s, i) > i);
    }
}

/// The whitespace-delimited tokens of the whole line.
pub open spec fn tokens(s: Seq<char>) -> Seq<Seq<char>> {
    tokens_from(s, 0)
}

/// The given token sequences rejoined with one space between neighbours.
pub open spec fn join_tokens(ts: Seq<Seq<char>>) -> Seq<char>
    decreases ts.len(),
{
    if ts.len() == 0 {
        Seq::empty()
    } else if ts.len() == 1 {
        ts[0]
    } else {
        ts[0] + seq![' '] + join_tokens(ts.skip(1))
    }
}

/// Appending one more token to a join adds one space and the token.
pub proof fn lemma_join_snoc(ts: Seq<Seq<char>>, t: Seq<char>)
    requires
        ts.len() >= 1,
    ensures
        join_tokens(ts.push(t)) == join_tokens(ts) + seq![' '] + t,
    decreases ts.len(),
{
    let grown = ts.push(t);
    if ts.len() == 1 {
        assert(grown.skip(1) =~= seq![t]);
        assert(join_tokens(seq![t]) == t);
        assert(join_tokens(grown) =~= ts[0] + seq![' '] + t);
        assert(join_tokens(ts) + seq![' '] + t =~= ts[0] + seq![' '] + t);
    } else {
        lemma_join_snoc(ts.skip(1), t);
        assert(grown.skip(1) =~= ts.skip(1).push(t));
        assert(join_tokens(grown) == grown[0] + seq![' '] + join_tokens(grown.skip(1)));
        assert(join_tokens(ts.push(t)) =~= join_tokens(ts) + seq![' '] + t);
    }
}

/// A run of characters known non-space up to a space or the end pins the
/// token end down exactly.
pub proof fn lemma_token_end_at(s: Seq<char>, from: int, to: int)
    requires
        0 <= from <= to <= s.len(),
        forall|k: int| from <= k < to ==> !is_space(s[k]),
        to == s.len() || is_space(s[to]),
    ensures
        token_end(s, from) == to,
    decreases to - from,
{
    if from < to {
        lemma_token_end_at(s, from + 1, to);
    }
}

/// Skipping over whitespace leaves the tokens unchanged.
pub proof fn lemma_tokens_skip_spaces(s: Seq<char>, from: int, to: int)
    requires
        0 <= from <= to <= s.len(),
        forall|k: int| from <= k < to ==> is_space(s[k]),
    ensures
        tokens_from(s, from) == tokens_from(s, to),
    decreases to - from,
{
    if from < to {
        lemma_tokens_skip_spaces(s, from + 1, to);
    }
}

/// The position of the first non-space character at or after `from`, or the
/// end of the line.
pub(crate) fn scan_spaces(s: &str, from: usize) -> (r: usize)
    requires
        from as int <= s@.len(),
    ensures
        from <= r <= s@.len(),
        forall|k: int| from <= k < r ==> is_space(s@[k]),
        (r as int) < s@.len() ==> !is_space(s@[r as int]),
{
    let n = s.unicode_len();
    let mut i: usize = from;
    loop
        invariant_except_break
            from <= i <= n,
            n == s@.len(),
            forall|k: int| from <= k < i ==> is_space(s@[k]),
        ensures
            from <= i <= n,
            n == s@.len(),
            forall|k: int| from <= k < i ==> is_space(s@[k]),
            i < n ==> !is_space(s@[i as int]),
        decreases n - i,
    {
        if i >= n {
            break;
        }
        let c = s.get_char(i);
        if !is_space_char(c) {
            break;
        }
        i = i + 1;
    }
    i
}

/// The end of the token starting at `from`: the first space at or after it,
/// or the end of the line.
pub(crate) fn scan_token(s: &str, from: usize) -> (r: usize)
    requires
        from as int <= s@.len(),
    ensures
        from <= r <= s@.len(),
        r as int == token_end(s@, from as int),
{
    let n = s.unicode_len();
    let mut i: usize = from;
    loop
        invariant_except_break
            from <= i <= n,
            n == s@.len(),
            forall|k: int| from <= k < i ==> !is_space(s@[k]),
        ensures
            from <= i <= n,
            n == s@.len(),
            forall|k: int| from <= k < i ==> !is_space(s@[k]),
            i == n || is_space(s@[i as int]),
        decreases n - i,
    {
        if i >= n {
            break;
        }
        let c = s.get_char(i);
        if is_space_char(c) {
            break;
        }
        i = i + 1;
    }
    proof {
        lemma_token_end_at(s@, from as int, i as int);
    }
    i
}

/// A single well-formed token: non-empty and free of whitespace.
pub open spec fn token_is_wf(t: Seq<char>) -> bool {
    &&& t.len() > 0
    &&& forall|j: int| 0 <= j < t.len() ==> !is_space(t[j])
}

/// Every member of `ts` is a well-formed token.
pub open spec fn all_tokens_wf(ts: Seq<Seq<char>>) -> bool {
    forall|k: int| 0 <= k < ts.len() ==> token_is_wf(#[trigger] ts[k])
}

/// Every token the tokenizer yields is non-empty and free of whitespace.
pub proof fn lemma_tokens_wf(s: Seq<char>, i: int)
    requires
        0 <= i <= s.len(),
    ensures
        all_tokens_wf(tokens_from(s, i)),
    decreases s.len() - i,
{
    if i >= s.len() {
    } else if is_space(s[i]) {
        lemma_tokens_wf(s, i + 1);
    } else {
        lemma_token_end_bounds(s, i);
        let te = token_end(s, i);
        lemma_tokens_wf(s, te);
        let t = s.subrange(i, te);
        let rest = tokens_from(s, te);
        let full = tokens_from(s, i);
        assert(full == seq![t] + rest);
        assert(token_is_wf(t));
        assert forall|k: int| 0 <= k < full.len() implies token_is_wf(#[trigger] full[k]) by {
            if k == 0 {
                assert(full[0] == t);
            } else {
                assert(full[k] == rest[k - 1]);
                assert(token_is_wf(rest[k - 1]));
            }
        }
    }
}

/// A join of well-formed tokens is non-empty and has no whitespace at
/// either edge.
pub proof fn lemma_join_edges(ts: Seq<Seq<char>>)
    requires
        ts.len() >= 1,
        all_tokens_wf(ts),
    ensures
        join_tokens(ts).len() > 0,
        !is_space(join_tokens(ts)[0]),
        !is_space(join_tokens(ts).last()),
    decreases ts.len(),
{
    assert(token_is_wf(ts[0]));
    if ts.len() == 1 {
    } else {
        assert forall|k: int| 0 <= k < ts.skip(1).len() implies token_is_wf(
            #[trigger] ts.skip(1)[k],
        ) by {
            assert(ts.skip(1)[k] == ts[k + 1]);
            assert(token_is_wf(ts[k + 1]));
        }
        lemma_join_edges(ts.skip(1));
        let joined = join_tokens(ts);
        let rest = join_tokens(ts.skip(1));
        assert(joined == ts[0] + seq![' '] + rest);
        assert(joined[0] == ts[0][0]);
        assert(joined.last() == rest.last());
    }
}

/// A non-empty line with no whitespace at all is its own single token: it
/// tokenizes to itself as the command, with nothing left over.
pub proof fn lemma_tokenize_single_token(l: Seq<char>)
    requires
        l.len() > 0,
        forall|i: int| 0 <= i < l.len() ==> !is_space(l[i]),
    ensures
        tokens(l) == seq![l],
    decreases l.len(),
{
    lemma_token_end_bounds(l, 0);
    lemma_token_end_no_space(l, 0);
    assert(token_end(l, 0) == l.len());
    assert(l.subrange(0, l.len() as int) =~= l);
    assert(tokens(l) == seq![l] + tokens_from(l, l.len() as int));
    assert(tokens_from(l, l.len() as int) =~= Seq::<Seq<char>>::empty());
    assert(tokens(l) =~= seq![l]);
}

/// With no whitespace from `i` onward, the token starting at `i` runs to
/// the end of the line.
proof fn lemma_token_end_no_space(s: Seq<char>, i: int)
    requires
        0 <= i <= s.len(),
        forall|k: int| i <= k < s.len() ==> !is_space(s[k]),
    ensures
        token_end(s, i) == s.len(),
    decreases s.len() - i,
{
    if i < s.len() {
        lemma_token_end_no_space(s, i + 1);
    }
}

/// A line of two or more tokens has a remainder — the tokens after the
/// first, rejoined with single spaces — that is non-empty and carries no
/// leading or trailing whitespace.
pub proof fn lemma_tokenize_remainder_trimmed(l: Seq<char>)
    requires
        tokens(l).len() >= 2,
    ensures
        join_tokens(tokens(l).skip(1)).len() > 0,
        !is_space(join_tokens(tokens(l).skip(1))[0]),
        !is_space(join_tokens(tokens(l).skip(1)).last()),
{
    lemma_tokens_wf(l, 0);
    let rest = tokens(l).skip(1);
    assert forall|k: int| 0 <= k < rest.len() implies token_is_wf(#[trigger] rest[k]) by {
        assert(rest[k] == tokens(l)[k + 1]);
        assert(token_is_wf(tokens(l)[k + 1]));
    }
    lemma_join_edges(rest);
}

} // verus!

