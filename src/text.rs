//! Facts about joining runs of text back together.

use vstd::prelude::*;
use crate::movement_lexer::runs;

verus! {

/// The pieces of `ps` joined in order.
pub open spec fn flatten(ps: Seq<Seq<char>>) -> Seq<char>
    decreases ps.len(),
{
    if ps.len() == 0 {
        Seq::empty()
    } else {
        flatten(ps.drop_last()) + ps.last()
    }
}

/// The text of a token stream: its lexemes joined in order.
pub open spec fn token_text<C>(ts: Seq<(Seq<char>, C)>) -> Seq<char> {
    flatten(ts.map_values(|t: (Seq<char>, C)| t.0))
}

pub proof fn lemma_flatten_push(ps: Seq<Seq<char>>, x: Seq<char>)
    ensures
        flatten(ps.push(x)) == flatten(ps) + x,
{
    assert(ps.push(x).drop_last() =~= ps);
}

pub proof fn lemma_flatten_concat(a: Seq<Seq<char>>, b: Seq<Seq<char>>)
    ensures
        flatten(a + b) == flatten(a) + flatten(b),
    decreases b.len(),
{
    if b.len() == 0 {
        assert(a + b =~= a);
        assert(flatten(a) + flatten(b) =~= flatten(a));
    } else {
        lemma_flatten_concat(a, b.drop_last());
        assert((a + b).drop_last() =~= a + b.drop_last());
        assert(flatten(a) + flatten(b) =~= flatten(a) + flatten(b.drop_last()) + b.last());
    }
}

/// Every run is non-empty.
pub proof fn lemma_runs_nonempty(s: Seq<char>)
    ensures
        forall|k: int| 0 <= k < runs(s).len() ==> #[trigger] runs(s)[k].len() > 0,
    decreases s.len(),
{
    if s.len() > 0 {
        lemma_runs_nonempty(s.drop_last());
        let p = runs(s.drop_last());
        let c = s.last();
        if p.len() > 0 && crate::movement_lexer::is_space(p.last().last())
            == crate::movement_lexer::is_space(c) {
            let q = p.update(p.len() - 1, p.last().push(c));
            assert forall|k: int| 0 <= k < q.len() implies #[trigger] q[k].len() > 0 by {
                if k < q.len() - 1 {
                    assert(q[k] == p[k]);
                }
            }
        } else {
            let q = p.push(seq![c]);
            assert forall|k: int| 0 <= k < q.len() implies #[trigger] q[k].len() > 0 by {
                if k < q.len() - 1 {
                    assert(q[k] == p[k]);
                }
            }
        }
    }
}

/// Joining the runs of `s` gives `s` back.
pub proof fn lemma_runs_flatten(s: Seq<char>)
    ensures
        flatten(runs(s)) == s,
    decreases s.len(),
{
    if s.len() > 0 {
        let p = runs(s.drop_last());
        let c = s.last();
        lemma_runs_flatten(s.drop_last());
        lemma_runs_nonempty(s.drop_last());
        if p.len() > 0 && crate::movement_lexer::is_space(p.last().last())
            == crate::movement_lexer::is_space(c) {
            let q = p.update(p.len() - 1, p.last().push(c));
            assert(q.drop_last() =~= p.drop_last());
            assert(flatten(p) == flatten(p.drop_last()) + p.last());
            assert(flatten(q) =~= flatten(p).push(c));
        } else {
            lemma_flatten_push(p, seq![c]);
        }
        assert(s.drop_last().push(c) =~= s);
        assert(flatten(p) + seq![c] =~= flatten(p).push(c));
    }
}

} // verus!
