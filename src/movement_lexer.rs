//! Splits a lexeme into maximal runs of whitespace and of other characters.

use vstd::prelude::*;
use crate::buffer::{Category, Token};

verus! {

/// Unicode's `White_Space` characters.
pub open spec fn is_space(c: char) -> bool {
    c == '\t' || c == '\n' || c == '\u{0B}' || c == '\u{0C}' || c == '\r' || c == ' '
        || c == '\u{85}' || c == '\u{A0}' || c == '\u{1680}' || ('\u{2000}' <= c
        && c <= '\u{200A}') || c == '\u{2028}' || c == '\u{2029}' || c == '\u{202F}'
        || c == '\u{205F}' || c == '\u{3000}'
}

/// Whether `c` is a whitespace character.
pub fn is_whitespace(c: char) -> (r: bool)
    ensures
        r == is_space(c),
{
    c == '\t' || c == '\n' || c == '\u{0B}' || c == '\u{0C}' || c == '\r' || c == ' '
        || c == '\u{85}' || c == '\u{A0}' || c == '\u{1680}' || ('\u{2000}' <= c
        && c <= '\u{200A}') || c == '\u{2028}' || c == '\u{2029}' || c == '\u{202F}'
        || c == '\u{205F}' || c == '\u{3000}'
}

/// The runs of `s`, read left to right: each character joins the last run when
/// it is of the same kind (whitespace or not), and starts a new run otherwise.
pub open spec fn runs(s: Seq<char>) -> Seq<Seq<char>>
    decreases s.len(),
{
    if s.len() == 0 {
        Seq::empty()
    } else {
        let p = runs(s.drop_last());
        let c = s.last();
        if p.len() > 0 && is_space(p.last().last()) == is_space(c) {
            p.update(p.len() - 1, p.last().push(c))
        } else {
            p.push(seq![c])
        }
    }
}

/// The category given to a run: `Whitespace` for a run of whitespace, `Text`
/// for any other.
pub open spec fn run_category(r: Seq<char>) -> Category {
    if r.len() > 0 && is_space(r[0]) {
        Category::Whitespace
    } else {
        Category::Text
    }
}

/// The sub-tokens of `s`, one per run.
pub open spec fn lexed(s: Seq<char>) -> Seq<(Seq<char>, Category)> {
    runs(s).map_values(|r: Seq<char>| (r, run_category(r)))
}

/// Splits `s` into its maximal runs of whitespace and of other characters, on
/// character boundaries.
pub fn lex(s: &str) -> (r: Vec<Token>)
    ensures
        r@.map_values(|t: Token| t@) == lexed(s@),
{
    let n = s.unicode_len();
    let mut out: Vec<Token> = Vec::new();
    if n == 0 {
        assert(s@ =~= Seq::<char>::empty());
        assert(out@.map_values(|t: Token| t@) =~= lexed(s@));
        return out;
    }
    let mut start: usize = 0;
    let mut prev_space = is_whitespace(s.get_char(0));
    let mut i: usize = 1;
    assert(s@.take(1).drop_last() =~= Seq::<char>::empty());
    assert(runs(s@.take(1).drop_last()) =~= Seq::<Seq<char>>::empty());
    assert(seq![s@.take(1).last()] =~= s@.subrange(0, 1));
    assert(runs(s@.take(1)) =~= seq![s@.subrange(0, 1)]);
    while i < n
        invariant
            n == s@.len(),
            start < i <= n,
            runs(s@.take(i as int)) =~= out@.map_values(|t: Token| t@.0).push(
                s@.subrange(start as int, i as int),
            ),
            forall|k: int| 0 <= k < out@.len() ==> out@[k]@.1 == run_category(#[trigger] out@[k]@.0),
            forall|k: int| start <= k < i ==> is_space(#[trigger] s@[k]) == prev_space,
        decreases n - i,
    {
        let c = s.get_char(i);
        let c_space = is_whitespace(c);
        let ghost prev = runs(s@.take(i as int));
        let ghost old_out = out@.map_values(|t: Token| t@.0);
        let ghost old_start = start;
        proof {
            assert(s@.take(i + 1).drop_last() =~= s@.take(i as int));
            assert(s@.take(i + 1).last() == c);
            assert(prev.last().last() == s@[i - 1]);
        }
        if c_space != prev_space {
            let piece = s.substring_char(start, i);
            let category = if prev_space { Category::Whitespace } else { Category::Text };
            proof {
                assert(piece@[0] == s@[start as int]);
            }
            out.push(Token { lexeme: String::from_str(piece), category });
            start = i;
            prev_space = c_space;
            proof {
                assert(runs(s@.take(i + 1)) =~= prev.push(seq![c]));
                assert(out@.map_values(|t: Token| t@.0) =~= old_out.push(
                    s@.subrange(old_start as int, i as int),
                ));
                assert(seq![c] =~= s@.subrange(i as int, i + 1));
            }
        } else {
            proof {
                assert(runs(s@.take(i + 1)) =~= prev.update(
                    prev.len() - 1,
                    prev.last().push(c),
                ));
                assert(prev.last().push(c) =~= s@.subrange(start as int, i + 1));
                assert(runs(s@.take(i + 1)) =~= old_out.push(s@.subrange(start as int, i + 1)));
            }
        }
        i = i + 1;
        assert(runs(s@.take(i as int)) =~= out@.map_values(|t: Token| t@.0).push(
            s@.subrange(start as int, i as int),
        ));
    }
    let piece = s.substring_char(start, n);
    let category = if prev_space { Category::Whitespace } else { Category::Text };
    proof {
        assert(piece@[0] == s@[start as int]);
    }
    out.push(Token { lexeme: String::from_str(piece), category });
    assert(s@.take(n as int) =~= s@);
    assert(out@.map_values(|t: Token| t@) =~= lexed(s@));
    out
}

} // verus!
