//! Whitespace normalization of link text.
//!
//! The visible text of an anchor is normalized by splitting it on runs of
//! whitespace and rejoining the tokens with single spaces, which also trims
//! leading and trailing whitespace.

use vstd::prelude::*;

verus! {

/// Whitespace for normalization purposes: space, tab, newline, carriage return.
pub open spec fn is_space(c: char) -> bool {
    c == ' ' || c == '\t' || c == '\n' || c == '\r'
}

/// The maximal runs of non-whitespace characters of `s`, in order.
pub open spec fn split_ws(s: Seq<char>) -> Seq<Seq<char>>
    decreases s.len(),
{
    if s.len() == 0 {
        Seq::empty()
    } else if is_space(s.last()) {
        split_ws(s.drop_last())
    } else if s.len() == 1 || is_space(s[s.len() - 2]) {
        split_ws(s.drop_last()).push(seq![s.last()])
    } else {
        let ts = split_ws(s.drop_last());
        ts.update(ts.len() - 1, ts.last().push(s.last()))
    }
}

/// The tokens of `ts` concatenated with a single space between consecutive tokens.
pub open spec fn join_sp(ts: Seq<Seq<char>>) -> Seq<char>
    decreases ts.len(),
{
    if ts.len() == 0 {
        Seq::empty()
    } else if ts.len() == 1 {
        ts[0]
    } else {
        join_sp(ts.drop_last()) + seq![' '] + ts.last()
    }
}

/// Whitespace-normal form of `s`: its whitespace-separated tokens, rejoined
/// with single spaces.
pub open spec fn normalize_spec(s: Seq<char>) -> Seq<char> {
    join_sp(split_ws(s))
}

fn is_space_exec(c: char) -> (r: bool)
    ensures
        r == is_space(c),
{
    c == ' ' || c == '\t' || c == '\n' || c == '\r'
}

/// A nonempty token free of whitespace.
pub open spec fn token_wf(t: Seq<char>) -> bool {
    &&& t.len() > 0
    &&& forall|k: int| 0 <= k < t.len() ==> !is_space(#[trigger] t[k])
}

/// Every token of `ts` is nonempty and free of whitespace.
pub open spec fn tokens_wf(ts: Seq<Seq<char>>) -> bool {
    forall|j: int| 0 <= j < ts.len() ==> token_wf(#[trigger] ts[j])
}

/// A text ending in a non-whitespace character splits into at least one token.
proof fn lemma_split_nonempty(s: Seq<char>)
    requires
        s.len() > 0,
        !is_space(s.last()),
    ensures
        split_ws(s).len() > 0,
    decreases s.len(),
{
    if s.len() == 1 || is_space(s[s.len() - 2]) {
    } else {
        lemma_split_nonempty(s.drop_last());
    }
}

/// Splitting on whitespace yields only nonempty, whitespace-free tokens.
proof fn lemma_split_ws_wf(s: Seq<char>)
    ensures
        tokens_wf(split_ws(s)),
    decreases s.len(),
{
    if s.len() == 0 {
    } else {
        lemma_split_ws_wf(s.drop_last());
        if is_space(s.last()) {
        } else if s.len() == 1 || is_space(s[s.len() - 2]) {
            let ts = split_ws(s.drop_last());
            assert(token_wf(seq![s.last()]));
            assert forall|j: int| 0 <= j < ts.push(seq![s.last()]).len() implies token_wf(
                #[trigger] ts.push(seq![s.last()])[j],
            ) by {
                if j < ts.len() {
                    assert(token_wf(ts[j]));
                }
            }
        } else {
            let ts = split_ws(s.drop_last());
            lemma_split_nonempty(s.drop_last());
            let grown = ts.last().push(s.last());
            assert(token_wf(ts.last()));
            assert(token_wf(grown));
            assert forall|j: int| 0 <= j < ts.update(ts.len() - 1, grown).len() implies token_wf(
                #[trigger] ts.update(ts.len() - 1, grown)[j],
            ) by {
                if j < ts.len() - 1 {
                    assert(token_wf(ts[j]));
                }
            }
        }
    }
}

/// Appending one whitespace-free token `t` to `u`, which is empty or ends in
/// whitespace, appends exactly one token to the split.
proof fn lemma_split_append(u: Seq<char>, t: Seq<char>)
    requires
        token_wf(t),
        u.len() == 0 || is_space(u.last()),
    ensures
        split_ws(u + t) == split_ws(u).push(t),
    decreases t.len(),
{
    let s = u + t;
    assert(s.last() == t.last());
    if t.len() == 1 {
        assert(s.drop_last() =~= u);
        assert(seq![s.last()] =~= t);
    } else {
        lemma_split_append(u, t.drop_last());
        assert(s.drop_last() =~= u + t.drop_last());
        assert(s[s.len() - 2] == t[t.len() - 2]);
        assert(!is_space(s[s.len() - 2]));
        let ts = split_ws(u).push(t.drop_last());
        assert(split_ws(s) == ts.update(ts.len() - 1, ts.last().push(s.last())));
        assert(ts.last().push(s.last()) =~= t);
        assert(ts.update(ts.len() - 1, t) =~= split_ws(u).push(t));
    }
}

/// Joining well-formed tokens with single spaces and splitting again yields
/// the same tokens.
proof fn lemma_split_join(ts: Seq<Seq<char>>)
    requires
        tokens_wf(ts),
    ensures
        split_ws(join_sp(ts)) == ts,
    decreases ts.len(),
{
    if ts.len() == 0 {
    } else if ts.len() == 1 {
        assert(token_wf(ts[0]));
        lemma_split_append(Seq::empty(), ts[0]);
        assert(Seq::<char>::empty() + ts[0] =~= ts[0]);
        assert(split_ws(Seq::<char>::empty()).push(ts[0]) =~= ts);
    } else {
        assert(tokens_wf(ts.drop_last())) by {
            assert forall|j: int| 0 <= j < ts.drop_last().len() implies token_wf(
                #[trigger] ts.drop_last()[j],
            ) by {
                assert(ts.drop_last()[j] == ts[j]);
            }
        }
        lemma_split_join(ts.drop_last());
        assert(token_wf(ts.last()));
        let u = join_sp(ts.drop_last()) + seq![' '];
        lemma_split_append(u, ts.last());
        assert(u + ts.last() =~= join_sp(ts));
        assert(u.drop_last() =~= join_sp(ts.drop_last()));
        assert(split_ws(u) == split_ws(join_sp(ts.drop_last())));
        assert(ts.drop_last().push(ts.last()) =~= ts);
    }
}

/// Normalization is idempotent: normalizing an already-normalized text
/// returns it unchanged.
pub proof fn lemma_normalize_idempotent(s: Seq<char>)
    ensures
        normalize_spec(normalize_spec(s)) == normalize_spec(s),
{
    lemma_split_ws_wf(s);
    lemma_split_join(split_ws(s));
}

/// Collapses every run of whitespace in `text` to a single space and trims
/// the ends, per `normalize_spec`.
pub fn normalize_link_text(text: &str) -> (r: String)
    ensures
        r@ == normalize_spec(text@),
{
    let len = text.unicode_len();
    let mut out = String::new();
    let mut first: bool = true;
    let mut i: usize = 0;
    while i < len
        invariant
            len == text@.len(),
            i <= len,
            out@ == join_sp(split_ws(text@.take(i as int))),
            first == (split_ws(text@.take(i as int)).len() == 0),
            0 < i < len ==> is_space(text@[i - 1]) || is_space(text@[i as int]),
        decreases len - i,
    {
        let c = text.get_char(i);
        if is_space_exec(c) {
            proof {
                assert(text@.take(i + 1).drop_last() =~= text@.take(i as int));
                assert(split_ws(text@.take(i + 1)) == split_ws(text@.take(i as int)));
            }
            i = i + 1;
        } else {
            let mut j: usize = i + 1;
            while j < len && !is_space_exec(text.get_char(j))
                invariant
                    len == text@.len(),
                    i < j <= len,
                    forall|k: int| i <= k < j ==> !is_space(text@[k]),
                decreases len - j,
            {
                j = j + 1;
            }
            let tok = text.substring_char(i, j);
            proof {
                assert(token_wf(tok@));
                assert(text@.take(j as int) =~= text@.take(i as int) + tok@);
                lemma_split_append(text@.take(i as int), tok@);
            }
            if first {
                proof {
                    assert(out@ =~= Seq::<char>::empty());
                    assert(out@ + tok@ =~= tok@);
                }
                out.append(tok);
                first = false;
            } else {
                proof {
                    reveal_strlit(" ");
                    assert(" "@ =~= seq![' ']);
                    let ts = split_ws(text@.take(i as int));
                    assert(ts.push(tok@).drop_last() =~= ts);
                    assert(join_sp(ts.push(tok@)) == join_sp(ts) + seq![' '] + tok@);
                }
                out.append(" ");
                out.append(tok);
            }
            i = j;
        }
    }
    proof {
        assert(text@.take(len as int) =~= text@);
    }
    out
}

} // verus!
