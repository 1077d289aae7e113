//! Jump mode: tags the visible words of a buffer's token stream and remembers
//! which position each tag stands for.

use vstd::prelude::*;
use vstd::hash_map::StringHashMap;
use crate::buffer::{advance, saturate, Buffer, Category, Distance, LineRange, Position, Token};
use crate::movement_lexer::{lex, lexed, run_category, runs};
use crate::single_character_tag_generator::{single_tag_at, SingleCharacterTagGenerator, SINGLE_TAG_COUNT};
use crate::tag_generator::{tag_at, TagGenerator, TAG_COUNT};
use crate::text::lemma_runs_nonempty;

verus! {

/// A selection being extended from a fixed anchor position.
#[derive(Clone, Copy, Debug, PartialEq, Eq, Structural)]
pub struct SelectMode {
    pub anchor: Position,
}

impl SelectMode {
    pub fn new(anchor: Position) -> (m: SelectMode)
        ensures
            m.anchor == anchor,
    {
        SelectMode { anchor }
    }
}

/// A line-wise selection being extended from a fixed anchor line.
#[derive(Clone, Copy, Debug, PartialEq, Eq, Structural)]
pub struct SelectLineMode {
    pub anchor: usize,
}

impl SelectLineMode {
    pub fn new(anchor: usize) -> (m: SelectLineMode)
        ensures
            m.anchor == anchor,
    {
        SelectLineMode { anchor }
    }
}

/// Used to compose select and jump modes, allowing jump mode to be used for
/// cursor navigation (to select a range of text).
#[derive(Clone, Copy, Debug, PartialEq, Eq, Structural)]
pub enum SelectModeOptions {
    NoSelection,
    Select(SelectMode),
    SelectLine(SelectLineMode),
}

/// One unit of a tagging pass: a run of a lexeme, with the category of the
/// token it came from.
pub type Unit = (Seq<char>, Category);

/// The units of a token stream: each token's runs, in order, each with the
/// token's category.
pub open spec fn units(ts: Seq<(Seq<char>, Category)>) -> Seq<Unit>
    decreases ts.len(),
{
    if ts.len() == 0 {
        Seq::empty()
    } else {
        units(ts.drop_last()) + token_units(ts.last())
    }
}

/// The units of one token.
pub open spec fn token_units(t: (Seq<char>, Category)) -> Seq<Unit> {
    runs(t.0).map_values(|r: Seq<char>| (r, t.1))
}

/// The state of a tagging pass after some units.
pub struct PassState {
    /// Where the next unit starts.
    pub pos: Position,
    /// The display tokens so far.
    pub out: Seq<(Seq<char>, Category)>,
    /// For each display token, the input text it stands in place of.
    pub source: Seq<Seq<char>>,
    /// Where each tag issued so far points.
    pub positions: Map<Seq<char>, Position>,
    /// The tags issued so far, in order.
    pub tags: Seq<Seq<char>>,
    /// How many two-letter tags were issued.
    pub multi: nat,
    /// How many one-letter tags were issued.
    pub single: nat,
    /// The line of the last one-letter tag, if one was issued.
    pub tagged_line: Option<usize>,
}

/// The state at the start of a pass.
pub open spec fn initial() -> PassState {
    PassState {
        pos: Position { line: 0, offset: 0 },
        out: Seq::empty(),
        source: Seq::empty(),
        positions: Map::empty(),
        tags: Seq::empty(),
        multi: 0,
        single: 0,
        tagged_line: None,
    }
}

/// A tagging pass's settings: the visible lines, the mode, and the cursor's line.
pub struct PassConfig {
    pub range: LineRange,
    pub line_mode: bool,
    pub cursor_line: nat,
}

/// Whether a non-whitespace unit starting at `pos` gets a one-letter tag: in
/// line mode, the first word of each visible line at or below the cursor's
/// line, while letters are left.
pub open spec fn takes_single(st: PassState, cfg: PassConfig) -> bool {
    cfg.range.spec_includes(st.pos.line as nat) && cfg.line_mode && st.pos.line >= cfg.cursor_line
        && st.tagged_line != Some(st.pos.line) && st.single < SINGLE_TAG_COUNT
}

/// Whether a non-whitespace unit `piece` starting at `pos` gets a two-letter tag.
pub open spec fn takes_multi(st: PassState, cfg: PassConfig, piece: Seq<char>) -> bool {
    cfg.range.spec_includes(st.pos.line as nat) && !cfg.line_mode && piece.len() > 1 && st.multi
        < TAG_COUNT
}

/// What is left of `piece` once `tag` takes the place of its leading
/// characters: nothing, when the tag is the longer.
pub open spec fn rest_after(piece: Seq<char>, tag: Seq<char>) -> Seq<char> {
    if tag.len() <= piece.len() {
        piece.skip(tag.len() as int)
    } else {
        Seq::empty()
    }
}

/// The leading characters of `piece` that `tag` is shown in place of.
pub open spec fn covered_by(piece: Seq<char>, tag: Seq<char>) -> Seq<char> {
    if tag.len() <= piece.len() {
        piece.take(tag.len() as int)
    } else {
        piece
    }
}

/// The state after `piece` when it receives `tag`: the tag as a keyword, the
/// rest of the piece as text, and the tag recorded at `pos`.
pub open spec fn with_tag(st: PassState, piece: Seq<char>, tag: Seq<char>) -> PassState {
    PassState {
        pos: Position { line: st.pos.line, offset: saturate(st.pos.offset + piece.len()) },
        out: st.out.push((tag, Category::Keyword)).push((rest_after(piece, tag), Category::Text)),
        source: st.source.push(covered_by(piece, tag)).push(rest_after(piece, tag)),
        positions: st.positions.insert(tag, st.pos),
        tags: st.tags.push(tag),
        ..st
    }
}

/// One step of a pass. Whitespace moves the position over its text and is
/// shown as it is. Other text may receive a tag (see `takes_single` and
/// `takes_multi`); if not, it is shown with its token's category.
pub open spec fn step(st: PassState, cfg: PassConfig, u: Unit) -> PassState {
    let piece = u.0;
    if run_category(piece) == Category::Whitespace {
        PassState {
            pos: advance(st.pos, piece),
            out: st.out.push((piece, Category::Whitespace)),
            source: st.source.push(piece),
            ..st
        }
    } else if takes_single(st, cfg) {
        PassState {
            single: st.single + 1,
            tagged_line: Some(st.pos.line),
            ..with_tag(st, piece, single_tag_at(st.single))
        }
    } else if takes_multi(st, cfg, piece) {
        PassState { multi: st.multi + 1, ..with_tag(st, piece, tag_at(st.multi)) }
    } else {
        PassState {
            pos: Position { line: st.pos.line, offset: saturate(st.pos.offset + piece.len()) },
            out: st.out.push((piece, u.1)),
            source: st.source.push(piece),
            ..st
        }
    }
}

/// The state after the units `us`, from the start of a pass.
pub open spec fn pass(us: Seq<Unit>, cfg: PassConfig) -> PassState
    decreases us.len(),
{
    if us.len() == 0 {
        initial()
    } else {
        step(pass(us.drop_last(), cfg), cfg, us.last())
    }
}

/// The outcome of tagging the token stream `ts`.
pub open spec fn tagging(ts: Seq<(Seq<char>, Category)>, cfg: PassConfig) -> PassState {
    pass(units(ts), cfg)
}

/// The plain view of a token stream.
pub open spec fn token_views(ts: Seq<Token>) -> Seq<(Seq<char>, Category)> {
    ts.map_values(|t: Token| t@)
}

/// The settings of a pass in the given mode over `buffer` showing `range`.
pub open spec fn config(line_mode: bool, buffer: &Buffer, range: LineRange) -> PassConfig {
    PassConfig { range, line_mode, cursor_line: buffer.cursor.line as nat }
}

pub struct JumpMode {
    pub input: String,
    pub line_mode: bool,
    pub select_mode: SelectModeOptions,
    pub tag_positions: StringHashMap<Position>,
}

impl JumpMode {
    /// The tags of the last pass, with the positions they stand for.
    pub open spec fn tag_map(&self) -> Map<Seq<char>, Position> {
        self.tag_positions@
    }

    /// A jump mode in line mode, with no input, no selection and no tags.
    pub fn new() -> (j: JumpMode)
        ensures
            j.input@ == Seq::<char>::empty(),
            j.line_mode,
            j.select_mode == SelectModeOptions::NoSelection,
            j.tag_map() == Map::<Seq<char>, Position>::empty(),
    {
        JumpMode {
            input: String::new(),
            line_mode: true,
            select_mode: SelectModeOptions::NoSelection,
            tag_positions: StringHashMap::new(),
        }
    }

    /// Translates the buffer's tokens into the display tokens of jump mode and
    /// records, for each tag shown, the position it stands for. Tags from an
    /// earlier pass are dropped first, and tag generation starts afresh.
    pub fn tokens(&mut self, buffer: &Buffer, visible_range: LineRange) -> (r: Vec<Token>)
        ensures
            token_views(r@) == tagging(
                token_views(buffer.tokens@),
                config(old(self).line_mode, buffer, visible_range),
            ).out,
            final(self).tag_map() == tagging(
                token_views(buffer.tokens@),
                config(old(self).line_mode, buffer, visible_range),
            ).positions,
            final(self).input == old(self).input,
            final(self).line_mode == old(self).line_mode,
            final(self).select_mode == old(self).select_mode,
    {
        let ghost ts = token_views(buffer.tokens@);
        let ghost cfg = config(self.line_mode, buffer, visible_range);
        let mut jump_tokens: Vec<Token> = Vec::new();
        let mut current_position = Position { line: 0, offset: 0 };

        // Previous tag positions don't apply.
        self.tag_positions.clear();

        let mut tag_generator = TagGenerator::new();
        let mut single_characters = SingleCharacterTagGenerator::new();
        let mut tagged_line: Option<usize> = None;
        let ghost mut st = initial();
        proof {
            assert(ts.take(0) =~= Seq::<(Seq<char>, Category)>::empty());
            assert(token_views(jump_tokens@) =~= st.out);
        }
        let n = buffer.tokens.len();
        let mut i: usize = 0;
        while i < n
            invariant
                n == buffer.tokens@.len(),
                ts == token_views(buffer.tokens@),
                cfg == config(self.line_mode, buffer, visible_range),
                i <= n,
                st == pass(units(ts.take(i as int)), cfg),
                token_views(jump_tokens@) == st.out,
                self.tag_positions@ == st.positions,
                current_position == st.pos,
                tag_generator.issued() == st.multi,
                single_characters.issued() == st.single,
                tagged_line == st.tagged_line,
                self.input == old(self).input,
                self.line_mode == old(self).line_mode,
                self.select_mode == old(self).select_mode,
            decreases n - i,
        {
            let token = &buffer.tokens[i];
            // Split the token's lexeme on whitespace, so that words within
            // comments and strings can be jumped to as well.
            let subtokens = lex(token.lexeme.as_str());
            let ghost tu = token_units(ts[i as int]);
            let ghost rs = runs(token.lexeme@);
            proof {
                lemma_runs_nonempty(token.lexeme@);
                assert(ts[i as int] == token@);
                assert(rs.take(0) =~= Seq::<Seq<char>>::empty());
                assert(units(ts.take(i as int)) + tu.take(0) =~= units(ts.take(i as int)));
                assert(subtokens@.map_values(|t: Token| t@).len() == subtokens@.len());
                assert(lexed(token.lexeme@).len() == rs.len());
            }
            let m = subtokens.len();
            let mut j: usize = 0;
            while j < m
                invariant
                    n == buffer.tokens@.len(),
                    ts == token_views(buffer.tokens@),
                    cfg == config(self.line_mode, buffer, visible_range),
                    i < n,
                    *token == buffer.tokens@[i as int],
                    ts[i as int] == token@,
                    subtokens@.map_values(|t: Token| t@) == lexed(token.lexeme@),
                    m == subtokens@.len(),
                    rs == runs(token.lexeme@),
                    m == rs.len(),
                    tu.len() == rs.len(),
                    tu == token_units(ts[i as int]),
                    forall|k: int| 0 <= k < rs.len() ==> #[trigger] rs[k].len() > 0,
                    j <= m,
                    st == pass(units(ts.take(i as int)) + tu.take(j as int), cfg),
                    token_views(jump_tokens@) == st.out,
                    self.tag_positions@ == st.positions,
                    current_position == st.pos,
                    tag_generator.issued() == st.multi,
                    single_characters.issued() == st.single,
                tagged_line == st.tagged_line,
                    self.input == old(self).input,
                    self.line_mode == old(self).line_mode,
                    self.select_mode == old(self).select_mode,
                decreases m - j,
            {
                let sub = &subtokens[j];
                let ghost u: Unit = tu[j as int];
                let ghost prefix = units(ts.take(i as int)) + tu.take(j as int);
                proof {
                    assert(subtokens@.map_values(|t: Token| t@)[j as int] == subtokens@[j as int]@);
                    assert(lexed(token.lexeme@)[j as int] == (rs[j as int], run_category(rs[j as int])));
                    assert(sub.lexeme@ == rs[j as int]);
                    assert(sub.category == run_category(rs[j as int]));
                    assert(u == (rs[j as int], token.category));
                    assert(rs.take(j + 1) =~= rs.take(j as int).push(rs[j as int]));
                    assert(prefix.push(u).drop_last() =~= prefix);
                    assert(units(ts.take(i as int)) + tu.take(j + 1) =~= prefix.push(u));
                }
                let piece_len = sub.lexeme.as_str().unicode_len();
                if sub.category == Category::Whitespace {
                    // Whitespace is never tagged; it only moves the position.
                    let d = Distance::from_str(sub.lexeme.as_str());
                    current_position.add(&d);
                    jump_tokens.push(Token { lexeme: sub.lexeme.clone(), category: sub.category });
                } else {
                    // Off-screen text gets no tag; in line mode, only the first
                    // word of each line at or below the cursor's line gets one.
                    let tag: Option<String> = if !visible_range.includes(current_position.line) {
                        None
                    } else if self.line_mode {
                        let fresh_line = match tagged_line {
                            Some(line) => line != current_position.line,
                            None => true,
                        };
                        if current_position.line >= buffer.cursor.line && fresh_line {
                            let t = single_characters.next();
                            if t.is_some() {
                                tagged_line = Some(current_position.line);
                            }
                            t
                        } else {
                            None
                        }
                    } else if piece_len > 1 {
                        tag_generator.next()
                    } else {
                        None
                    };
                    match tag {
                        Some(tag) => {
                            // A leading jump token, and the rest as plain text.
                            let tag_len = tag.as_str().unicode_len();
                            let rest = if tag_len <= piece_len {
                                String::from_str(sub.lexeme.as_str().substring_char(tag_len, piece_len))
                            } else {
                                String::new()
                            };
                            jump_tokens.push(Token { lexeme: tag.clone(), category: Category::Keyword });
                            jump_tokens.push(Token { lexeme: rest, category: Category::Text });
                            self.tag_positions.insert(tag, current_position);
                        },
                        None => {
                            jump_tokens.push(Token { lexeme: sub.lexeme.clone(), category: token.category });
                        },
                    }
                    current_position.offset = current_position.offset.saturating_add(piece_len);
                }
                proof {
                    st = step(st, cfg, u);
                    assert(token_views(jump_tokens@) =~= st.out);
                }
                j = j + 1;
            }
            proof {
                assert(tu.take(m as int) =~= tu);
                assert(rs.take(m as int) =~= rs);
                assert(ts.take(i + 1).drop_last() =~= ts.take(i as int));
            }
            i = i + 1;
        }
        proof {
            assert(ts.take(n as int) =~= ts);
        }
        jump_tokens
    }

    /// The position that `tag` stands for in the last pass, if it was issued.
    pub fn map_tag(&self, tag: &str) -> (r: Option<&Position>)
        ensures
            self.tag_map().contains_key(tag@) ==> r == Some(&self.tag_map()[tag@]),
            !self.tag_map().contains_key(tag@) ==> r is None,
    {
        self.tag_positions.get(tag)
    }
}

} // verus!
