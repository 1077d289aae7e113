//! What holds of every tagging pass.

use vstd::prelude::*;
use vstd::seq_lib::lemma_seq_contains_after_push;
use crate::buffer::Category;
use crate::jump::{pass, step, tagging, token_units, units, PassConfig, PassState, Unit};
use crate::text::{flatten, lemma_flatten_concat, lemma_flatten_push, lemma_runs_flatten, lemma_runs_nonempty, token_text};
use crate::movement_lexer::runs;
use crate::single_character_tag_generator::{lemma_single_tag_at_injective, single_tag_at, SINGLE_TAG_COUNT};
use crate::tag_generator::{lemma_tag_at_injective, tag_at, TAG_COUNT};

verus! {

/// The facts that every step of a pass keeps.
pub open spec fn pass_invariant(st: PassState, cfg: PassConfig) -> bool {
    &&& cfg.line_mode ==> st.multi == 0 && st.tags.len() == st.single && st.single
        <= SINGLE_TAG_COUNT && forall|k: int|
        0 <= k < st.tags.len() ==> #[trigger] st.tags[k] == single_tag_at(k as nat)
    &&& !cfg.line_mode ==> st.single == 0 && st.tags.len() == st.multi && st.multi <= TAG_COUNT
        && forall|k: int| 0 <= k < st.tags.len() ==> #[trigger] st.tags[k] == tag_at(k as nat)
    &&& st.positions.dom() == st.tags.to_set()
    &&& forall|key: Seq<char>| #[trigger]
        st.positions.contains_key(key) ==> cfg.range.spec_includes(st.positions[key].line as nat)
    &&& forall|k: int|
        0 <= k < st.tags.len() ==> st.out.contains((#[trigger] st.tags[k], Category::Keyword))
}

proof fn lemma_step_invariant(st: PassState, cfg: PassConfig, u: Unit)
    requires
        pass_invariant(st, cfg),
    ensures
        pass_invariant(step(st, cfg, u), cfg),
{
    broadcast use lemma_seq_contains_after_push;
    broadcast use Seq::lemma_push_to_set_commute;

    let nx = step(st, cfg, u);
    assert forall|k: int| 0 <= k < st.tags.len() implies #[trigger] nx.out.contains(
        (st.tags[k], Category::Keyword),
    ) by {
        assert(st.out.contains((st.tags[k], Category::Keyword)));
    }
    if nx.tags.len() > st.tags.len() {
        let t = nx.tags.last();
        assert(nx.tags =~= st.tags.push(t));
        assert(nx.out.contains((t, Category::Keyword)));
    }
}

/// The facts that hold after any units.
pub proof fn lemma_pass_invariant(us: Seq<Unit>, cfg: PassConfig)
    ensures
        pass_invariant(pass(us, cfg), cfg),
    decreases us.len(),
{
    if us.len() == 0 {
        assert(Seq::<Seq<char>>::empty().to_set() =~= Set::empty());
    } else {
        lemma_pass_invariant(us.drop_last(), cfg);
        lemma_step_invariant(pass(us.drop_last(), cfg), cfg, us.last());
    }
}

/// Within one pass no tag is issued twice; the recorded positions are exactly
/// the issued tags, one entry each; and every issued tag is shown as a keyword
/// token.
pub proof fn law_tags_unique(ts: Seq<(Seq<char>, Category)>, cfg: PassConfig)
    ensures
        tagging(ts, cfg).tags.no_duplicates(),
        tagging(ts, cfg).positions.dom() == tagging(ts, cfg).tags.to_set(),
        tagging(ts, cfg).positions.len() == tagging(ts, cfg).tags.len(),
        forall|k: int|
            0 <= k < tagging(ts, cfg).tags.len() ==> tagging(ts, cfg).out.contains(
                (#[trigger] tagging(ts, cfg).tags[k], Category::Keyword),
            ),
{
    let st = tagging(ts, cfg);
    lemma_pass_invariant(units(ts), cfg);
    assert forall|i: int, j: int|
        0 <= i < st.tags.len() && 0 <= j < st.tags.len() && i != j implies st.tags[i]
        != st.tags[j] by {
        if cfg.line_mode {
            lemma_single_tag_at_injective(i as nat, j as nat);
        } else {
            lemma_tag_at_injective(i as nat, j as nat);
        }
    }
    st.tags.unique_seq_to_set();
}

/// Every recorded position lies in the visible line range: text off screen
/// gets no tag.
pub proof fn law_visible_only(ts: Seq<(Seq<char>, Category)>, cfg: PassConfig)
    ensures
        forall|key: Seq<char>| #[trigger]
            tagging(ts, cfg).positions.contains_key(key) ==> cfg.range.spec_includes(
                tagging(ts, cfg).positions[key].line as nat,
            ),
{
    lemma_pass_invariant(units(ts), cfg);
}

/// Outside line mode every pass issues the two-letter tags in order from the
/// first, "aa": the tags depend on the input alone, never on an earlier pass.
pub proof fn law_restart(ts: Seq<(Seq<char>, Category)>, cfg: PassConfig)
    requires
        !cfg.line_mode,
    ensures
        forall|k: int|
            0 <= k < tagging(ts, cfg).tags.len() ==> #[trigger] tagging(ts, cfg).tags[k] == tag_at(
                k as nat,
            ),
        tagging(ts, cfg).tags.len() > 0 ==> tagging(ts, cfg).tags[0] == seq!['a', 'a'],
{
    lemma_pass_invariant(units(ts), cfg);
    reveal_with_fuel(crate::tag_generator::pow26, 3);
    reveal_with_fuel(crate::tag_generator::digits, 3);
    assert(tag_at(0) =~= seq!['a', 'a']);
}

/// What a line-mode pass keeps: every recorded line is at or above the current
/// one, the current line holds a tag only if it is the last tagged line, and no
/// two tags share a line.
pub open spec fn line_invariant(st: PassState, cfg: PassConfig) -> bool {
    cfg.line_mode ==> {
        &&& forall|key: Seq<char>| #[trigger]
            st.positions.contains_key(key) ==> st.positions[key].line <= st.pos.line && (
            st.positions[key].line == st.pos.line ==> st.tagged_line == Some(st.pos.line))
        &&& forall|a: Seq<char>, b: Seq<char>|
            #![trigger st.positions[a], st.positions[b]]
            st.positions.contains_key(a) && st.positions.contains_key(b) && a != b
                ==> st.positions[a].line != st.positions[b].line
    }
}

proof fn lemma_line_invariant(us: Seq<Unit>, cfg: PassConfig)
    ensures
        line_invariant(pass(us, cfg), cfg),
    decreases us.len(),
{
    if us.len() > 0 {
        lemma_line_invariant(us.drop_last(), cfg);
        let st = pass(us.drop_last(), cfg);
        let nx = step(st, cfg, us.last());
        if cfg.line_mode {
            assert(nx.pos.line >= st.pos.line);
            assert forall|a: Seq<char>, b: Seq<char>|
                nx.positions.contains_key(a) && nx.positions.contains_key(b) && a != b
                implies #[trigger] nx.positions[a].line != #[trigger] nx.positions[b].line by {
                if nx.tags.len() > st.tags.len() {
                    let t = nx.tags.last();
                    if a != t && b != t {
                        assert(st.positions.contains_key(a) && st.positions.contains_key(b));
                    } else if a == t {
                        assert(st.positions.contains_key(b));
                    } else {
                        assert(st.positions.contains_key(a));
                    }
                } else {
                    assert(st.positions.contains_key(a) && st.positions.contains_key(b));
                }
            }
            assert forall|key: Seq<char>| #[trigger]
                nx.positions.contains_key(key) implies nx.positions[key].line <= nx.pos.line && (
                nx.positions[key].line == nx.pos.line ==> nx.tagged_line == Some(nx.pos.line)) by {
                if nx.tags.len() > st.tags.len() && key == nx.tags.last() {
                } else {
                    assert(st.positions.contains_key(key));
                }
            }
        }
    }
}

/// In line mode no two tags of a pass stand on the same line.
pub proof fn law_one_tag_per_line(ts: Seq<(Seq<char>, Category)>, cfg: PassConfig)
    requires
        cfg.line_mode,
    ensures
        forall|a: Seq<char>, b: Seq<char>|
            #![trigger tagging(ts, cfg).positions[a], tagging(ts, cfg).positions[b]]
            tagging(ts, cfg).positions.contains_key(a) && tagging(ts, cfg).positions.contains_key(b)
                && a != b ==> tagging(ts, cfg).positions[a].line != tagging(ts, cfg).positions[b].line,
{
    lemma_line_invariant(units(ts), cfg);
}

/// In line mode every tag is a single letter, issued in alphabet order.
pub proof fn law_line_mode_single(ts: Seq<(Seq<char>, Category)>, cfg: PassConfig)
    requires
        cfg.line_mode,
    ensures
        forall|k: int|
            0 <= k < tagging(ts, cfg).tags.len() ==> #[trigger] tagging(ts, cfg).tags[k]
                == single_tag_at(k as nat) && tagging(ts, cfg).tags[k].len() == 1,
{
    lemma_pass_invariant(units(ts), cfg);
}

/// A pass over an empty stream shows nothing and records no position, whatever
/// came before it.
pub proof fn law_empty_pass_clears(cfg: PassConfig)
    ensures
        tagging(Seq::empty(), cfg).positions == Map::<Seq<char>, crate::buffer::Position>::empty(),
        tagging(Seq::empty(), cfg).out.len() == 0,
{
    assert(units(Seq::<(Seq<char>, Category)>::empty()) =~= Seq::<Unit>::empty());
}

proof fn lemma_text_push(s: Seq<(Seq<char>, Category)>, x: (Seq<char>, Category))
    ensures
        token_text(s.push(x)) == token_text(s) + x.0,
{
    assert(s.push(x).map_values(|t: (Seq<char>, Category)| t.0) =~= s.map_values(
        |t: (Seq<char>, Category)| t.0,
    ).push(x.0));
    lemma_flatten_push(s.map_values(|t: (Seq<char>, Category)| t.0), x.0);
}

proof fn lemma_text_concat(a: Seq<(Seq<char>, Category)>, b: Seq<(Seq<char>, Category)>)
    ensures
        token_text(a + b) == token_text(a) + token_text(b),
{
    assert((a + b).map_values(|t: (Seq<char>, Category)| t.0) =~= a.map_values(
        |t: (Seq<char>, Category)| t.0,
    ) + b.map_values(|t: (Seq<char>, Category)| t.0));
    lemma_flatten_concat(
        a.map_values(|t: (Seq<char>, Category)| t.0),
        b.map_values(|t: (Seq<char>, Category)| t.0),
    );
}

/// The units of a stream carry its text, and none of them is empty.
proof fn lemma_units_text(ts: Seq<(Seq<char>, Category)>)
    ensures
        token_text(units(ts)) == token_text(ts),
        forall|k: int| 0 <= k < units(ts).len() ==> #[trigger] units(ts)[k].0.len() > 0,
    decreases ts.len(),
{
    if ts.len() > 0 {
        let t = ts.last();
        let a = units(ts.drop_last());
        let b = token_units(t);
        lemma_units_text(ts.drop_last());
        lemma_runs_flatten(t.0);
        lemma_runs_nonempty(t.0);
        lemma_text_concat(a, b);
        assert(b.map_values(|x: (Seq<char>, Category)| x.0) =~= runs(t.0));
        assert(ts.drop_last().push(t) =~= ts);
        lemma_text_push(ts.drop_last(), t);
        assert forall|k: int| 0 <= k < units(ts).len() implies #[trigger] units(ts)[k].0.len()
            > 0 by {
            if k >= a.len() {
                assert(units(ts)[k] == b[k - a.len()]);
            } else {
                assert(units(ts)[k] == a[k]);
            }
        }
    } else {
        assert(ts.map_values(|x: (Seq<char>, Category)| x.0) =~= Seq::<Seq<char>>::empty());
        assert(units(ts).map_values(|x: (Seq<char>, Category)| x.0) =~= Seq::<Seq<char>>::empty());
    }
}

/// Whether each tag of the pass over `us` is no longer than the piece it
/// stands on.
pub open spec fn tags_fit(us: Seq<Unit>, cfg: PassConfig) -> bool
    decreases us.len(),
{
    if us.len() == 0 {
        true
    } else {
        let st = pass(us.drop_last(), cfg);
        let nx = step(st, cfg, us.last());
        tags_fit(us.drop_last(), cfg) && (nx.tags.len() > st.tags.len() ==> nx.tags.last().len()
            <= us.last().0.len())
    }
}

proof fn lemma_pass_text(us: Seq<Unit>, cfg: PassConfig)
    requires
        forall|k: int| 0 <= k < us.len() ==> #[trigger] us[k].0.len() > 0,
    ensures
        tags_fit(us, cfg) ==> token_text(pass(us, cfg).out).len() == token_text(us).len(),
        pass(us, cfg).tags.len() == 0 ==> token_text(pass(us, cfg).out) == token_text(us),
    decreases us.len(),
{
    if us.len() == 0 {
        assert(us.map_values(|x: (Seq<char>, Category)| x.0) =~= Seq::<Seq<char>>::empty());
        assert(pass(us, cfg).out.map_values(|x: (Seq<char>, Category)| x.0) =~= Seq::<
            Seq<char>,
        >::empty());
    } else {
        let pre = us.drop_last();
        let u = us.last();
        let st = pass(pre, cfg);
        let nx = step(st, cfg, u);
        assert forall|k: int| 0 <= k < pre.len() implies #[trigger] pre[k].0.len() > 0 by {
            assert(pre[k] == us[k]);
        }
        lemma_pass_text(pre, cfg);
        assert(pre.push(u) =~= us);
        lemma_text_push(pre, u);
        let piece = u.0;
        if nx.tags.len() > st.tags.len() {
            let tag = nx.tags.last();
            let rest = (crate::jump::rest_after(piece, tag), Category::Text);
            assert(nx.out == st.out.push((tag, Category::Keyword)).push(rest));
            lemma_text_push(st.out, (tag, Category::Keyword));
            lemma_text_push(st.out.push((tag, Category::Keyword)), rest);
        } else {
            assert(nx.out == st.out.push((piece, nx.out.last().1)));
            lemma_text_push(st.out, (piece, nx.out.last().1));
        }
    }
}

/// Tags fit in their words in line mode, and in anywhere mode while the pass
/// issues no more than the two-letter tags.
proof fn lemma_tags_fit(us: Seq<Unit>, cfg: PassConfig)
    requires
        forall|k: int| 0 <= k < us.len() ==> #[trigger] us[k].0.len() > 0,
        cfg.line_mode || pass(us, cfg).tags.len() <= 676,
    ensures
        tags_fit(us, cfg),
    decreases us.len(),
{
    if us.len() > 0 {
        let pre = us.drop_last();
        let st = pass(pre, cfg);
        assert forall|k: int| 0 <= k < pre.len() implies #[trigger] pre[k].0.len() > 0 by {
            assert(pre[k] == us[k]);
        }
        lemma_tags_fit(pre, cfg);
        lemma_pass_invariant(pre, cfg);
        reveal_with_fuel(crate::tag_generator::pow26, 3);
        crate::tag_generator::lemma_tag_of_len(st.multi, 2);
    }
}

proof fn lemma_pass_source(us: Seq<Unit>, cfg: PassConfig)
    ensures
        pass(us, cfg).source.len() == pass(us, cfg).out.len(),
        flatten(pass(us, cfg).source) == token_text(us),
        forall|i: int|
            0 <= i < pass(us, cfg).out.len() && #[trigger] pass(us, cfg).source[i] != pass(
                us,
                cfg,
            ).out[i].0 ==> pass(us, cfg).out[i].1 == Category::Keyword && pass(
                us,
                cfg,
            ).positions.contains_key(pass(us, cfg).out[i].0),
    decreases us.len(),
{
    if us.len() == 0 {
        assert(us.map_values(|x: (Seq<char>, Category)| x.0) =~= Seq::<Seq<char>>::empty());
    } else {
        let pre = us.drop_last();
        let u = us.last();
        let st = pass(pre, cfg);
        let nx = step(st, cfg, u);
        let piece = u.0;
        lemma_pass_source(pre, cfg);
        assert(pre.push(u) =~= us);
        lemma_text_push(pre, u);
        if nx.tags.len() > st.tags.len() {
            let tag = nx.tags.last();
            let c = crate::jump::covered_by(piece, tag);
            let r = crate::jump::rest_after(piece, tag);
            assert(nx.source == st.source.push(c).push(r));
            lemma_flatten_push(st.source, c);
            lemma_flatten_push(st.source.push(c), r);
            assert(c + r =~= piece);
            assert(flatten(st.source) + c + r =~= flatten(st.source) + piece);
            assert(nx.positions.contains_key(tag));
        } else {
            assert(nx.source == st.source.push(piece));
            lemma_flatten_push(st.source, piece);
        }
        assert forall|i: int|
            0 <= i < nx.out.len() && #[trigger] nx.source[i] != nx.out[i].0 implies nx.out[i].1
            == Category::Keyword && nx.positions.contains_key(nx.out[i].0) by {
            if i < st.out.len() {
                assert(nx.source[i] == st.source[i]);
                assert(nx.out[i] == st.out[i]);
                assert(st.positions.contains_key(st.out[i].0));
            }
        }
    }
}

/// Each display token stands in place of a span of the input, and those spans
/// joined give the input text back. A token differs from its span only where
/// it is a tag: a keyword token with a recorded position, shown in place of as
/// many leading characters of its word as it has, or of the whole word where
/// the word is the shorter.
pub proof fn law_restore_text(ts: Seq<(Seq<char>, Category)>, cfg: PassConfig)
    ensures
        tagging(ts, cfg).source.len() == tagging(ts, cfg).out.len(),
        flatten(tagging(ts, cfg).source) == token_text(ts),
        forall|i: int|
            0 <= i < tagging(ts, cfg).out.len() && #[trigger] tagging(ts, cfg).source[i]
                != tagging(ts, cfg).out[i].0 ==> tagging(ts, cfg).out[i].1 == Category::Keyword
                && tagging(ts, cfg).positions.contains_key(tagging(ts, cfg).out[i].0),
{
    lemma_units_text(ts);
    lemma_pass_source(units(ts), cfg);
}

/// A pass where it issues no tag keeps the text itself; one where every tag
/// fits in its word keeps the length of the text. (A tag takes the place of as
/// many leading characters as it has, so a pass that issues one changes the
/// text.)
pub proof fn law_text_preserved(ts: Seq<(Seq<char>, Category)>, cfg: PassConfig)
    ensures
        tags_fit(units(ts), cfg) ==> token_text(tagging(ts, cfg).out).len() == token_text(ts).len(),
        tagging(ts, cfg).tags.len() == 0 ==> token_text(tagging(ts, cfg).out) == token_text(ts),
{
    lemma_units_text(ts);
    lemma_pass_text(units(ts), cfg);
}

/// In line mode, and in anywhere mode while a pass issues no more tags than
/// there are two-letter ones, a pass keeps the length of the text.
pub proof fn law_text_length_kept(ts: Seq<(Seq<char>, Category)>, cfg: PassConfig)
    requires
        cfg.line_mode || tagging(ts, cfg).tags.len() <= 676,
    ensures
        token_text(tagging(ts, cfg).out).len() == token_text(ts).len(),
{
    lemma_units_text(ts);
    lemma_tags_fit(units(ts), cfg);
    lemma_pass_text(units(ts), cfg);
}

/// The units of a stream without keyword tokens carry no keyword category.
proof fn lemma_units_no_keyword(ts: Seq<(Seq<char>, Category)>)
    requires
        forall|k: int| 0 <= k < ts.len() ==> #[trigger] ts[k].1 != Category::Keyword,
    ensures
        forall|k: int| 0 <= k < units(ts).len() ==> #[trigger] units(ts)[k].1 != Category::Keyword,
    decreases ts.len(),
{
    if ts.len() > 0 {
        let pre = ts.drop_last();
        assert forall|k: int| 0 <= k < pre.len() implies #[trigger] pre[k].1 != Category::Keyword by {
            assert(pre[k] == ts[k]);
        }
        lemma_units_no_keyword(pre);
        let a = units(pre);
        let b = token_units(ts.last());
        assert forall|k: int| 0 <= k < units(ts).len() implies #[trigger] units(ts)[k].1
            != Category::Keyword by {
            if k >= a.len() {
                assert(units(ts)[k] == b[k - a.len()]);
            } else {
                assert(units(ts)[k] == a[k]);
            }
        }
    }
}

proof fn lemma_keywords_are_tags(us: Seq<Unit>, cfg: PassConfig)
    requires
        forall|k: int| 0 <= k < us.len() ==> #[trigger] us[k].1 != Category::Keyword,
    ensures
        forall|i: int|
            0 <= i < pass(us, cfg).out.len() && (#[trigger] pass(us, cfg).out[i]).1
                == Category::Keyword ==> pass(us, cfg).positions.contains_key(
                pass(us, cfg).out[i].0,
            ),
    decreases us.len(),
{
    if us.len() > 0 {
        let pre = us.drop_last();
        assert forall|k: int| 0 <= k < pre.len() implies #[trigger] pre[k].1 != Category::Keyword by {
            assert(pre[k] == us[k]);
        }
        lemma_keywords_are_tags(pre, cfg);
        let st = pass(pre, cfg);
        let nx = pass(us, cfg);
        assert(us.last() == us[us.len() - 1]);
        assert forall|i: int|
            0 <= i < nx.out.len() && (#[trigger] nx.out[i]).1 == Category::Keyword implies nx.positions.contains_key(
            nx.out[i].0,
        ) by {
            if i < st.out.len() {
                assert(nx.out[i] == st.out[i]);
            }
        }
    }
}

/// For a stream without keyword tokens, every keyword token shown is a tag
/// with a recorded position.
pub proof fn law_keywords_are_tags(ts: Seq<(Seq<char>, Category)>, cfg: PassConfig)
    requires
        forall|k: int| 0 <= k < ts.len() ==> #[trigger] ts[k].1 != Category::Keyword,
    ensures
        forall|i: int|
            0 <= i < tagging(ts, cfg).out.len() && (#[trigger] tagging(ts, cfg).out[i]).1
                == Category::Keyword ==> tagging(ts, cfg).positions.contains_key(
                tagging(ts, cfg).out[i].0,
            ),
{
    lemma_units_no_keyword(ts);
    lemma_keywords_are_tags(units(ts), cfg);
}

} // verus!
