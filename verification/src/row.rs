use vstd::prelude::*;

use crate::syntax::{Syntax, SyntaxV, TokenState, TokenStateV, TokenType};
use crate::unicode::{display_width, graphemes_of, split_graphemes, str_width};

verus! {

/// One editable unit of a row: a grapheme cluster and its displayed width.
pub struct Cell {
    /// The grapheme cluster's text.
    pub text: String,
    /// The displayed column width of the cluster.
    pub width: usize,
}

/// The mathematical value of a `Cell`.
pub struct CellV {
    pub text: Seq<char>,
    pub width: nat,
}

impl View for Cell {
    type V = CellV;

    open spec fn view(&self) -> CellV {
        CellV { text: self.text@, width: self.width as nat }
    }
}

impl Clone for Cell {
    fn clone(&self) -> (r: Self)
        ensures
            r@ == self@,
    {
        Cell { text: self.text.clone(), width: self.width }
    }
}

impl Cell {
    pub fn new(text: String, width: usize) -> (r: Cell)
        ensures
            r@ == (CellV { text: text@, width: width as nat }),
    {
        Cell { text, width }
    }

    /// Whether two cells hold the same text and width.
    pub fn cell_eq(&self, other: &Cell) -> (r: bool)
        ensures
            r == (self@ == other@),
    {
        self.width == other.width && self.text == other.text
    }
}

/// The cell sequence a rope of cells stands for.
pub open spec fn cells_view(rope: Seq<Cell>) -> Seq<CellV> {
    rope.map_values(|c: Cell| c@)
}

/// The cells a string turns into: one per grapheme cluster, with its width.
pub open spec fn str_cells(s: Seq<char>) -> Seq<CellV> {
    graphemes_of(s).map_values(|g: Seq<char>| CellV { text: g, width: display_width(g) as nat })
}

/// The concatenated text of a sequence of cells, from index `i` on.
pub open spec fn text_from(cells: Seq<CellV>, i: int) -> Seq<char>
    decreases cells.len() - i,
{
    if i < 0 || i >= cells.len() {
        Seq::empty()
    } else {
        cells[i].text + text_from(cells, i + 1)
    }
}

/// The concatenated text of a sequence of cells.
pub open spec fn text_of(cells: Seq<CellV>) -> Seq<char> {
    text_from(cells, 0)
}

/// The concatenated text from `i` on is the text of the cells from `i` on.
pub proof fn lemma_text_from_skip(cells: Seq<CellV>, i: int)
    requires
        0 <= i <= cells.len(),
    ensures
        text_from(cells, i) == text_of(cells.skip(i)),
    decreases cells.len() - i,
{
    if i < cells.len() {
        lemma_text_from_skip(cells, i + 1);
        assert(cells.skip(i).drop_first() =~= cells.skip(i + 1));
        assert(cells.skip(i)[0] == cells[i]);
        assert(text_of(cells.skip(i)) == cells[i].text + text_from(cells.skip(i), 1));
        assert(text_from(cells.skip(i), 1) == text_of(cells.skip(i).skip(1))) by {
            lemma_text_from_skip(cells.skip(i), 1);
        }
        assert(cells.skip(i).skip(1) =~= cells.skip(i + 1));
    } else {
        assert(cells.skip(i) =~= Seq::<CellV>::empty());
    }
}

/// The text of the cells a grapheme split turns into is the concatenation of
/// the clusters.
pub proof fn lemma_text_of_grapheme_cells(gs: Seq<Seq<char>>)
    ensures
        text_of(gs.map_values(|g: Seq<char>| CellV { text: g, width: display_width(g) as nat }))
            == gs.flatten(),
    decreases gs.len(),
{
    let m = gs.map_values(|g: Seq<char>| CellV { text: g, width: display_width(g) as nat });
    if gs.len() == 0 {
        assert(text_of(m) =~= gs.flatten());
    } else {
        lemma_text_of_grapheme_cells(gs.drop_first());
        let m2 = gs.drop_first().map_values(
            |g: Seq<char>| CellV { text: g, width: display_width(g) as nat },
        );
        assert(m.skip(1) =~= m2) by {
            assert forall|k: int| 0 <= k < m.skip(1).len() implies m.skip(1)[k] == m2[k] by {
                assert(m[k + 1] == (CellV {
                    text: gs[k + 1],
                    width: display_width(gs[k + 1]) as nat,
                }));
                assert(m2[k] == (CellV {
                    text: gs.drop_first()[k],
                    width: display_width(gs.drop_first()[k]) as nat,
                }));
            }
        }
        lemma_text_from_skip(m, 1);
        assert(text_of(m) == m[0].text + text_from(m, 1));
        assert(m[0] == (CellV { text: gs[0], width: display_width(gs[0]) as nat }));
        assert(gs.flatten() == gs.first() + gs.drop_first().flatten());
        assert(text_of(m) == gs[0] + text_of(m2));
    }
}

/// One line of the document: an ordered sequence of grapheme cells, plus the
/// highlight categories computed for them and the state that classification
/// ended in.
pub struct Row {
    pub rope: Vec<Cell>,
    pub syntax: Vec<TokenType>,
    pub final_state: TokenState,
}

/// The mathematical value of a `Row`.
pub struct RowV {
    pub cells: Seq<CellV>,
    pub syntax: Seq<TokenType>,
    pub final_state: TokenStateV,
}

impl View for Row {
    type V = RowV;

    open spec fn view(&self) -> RowV {
        RowV {
            cells: cells_view(self.rope@),
            syntax: self.syntax@,
            final_state: self.final_state@,
        }
    }
}

impl Clone for Row {
    fn clone(&self) -> (r: Self)
        ensures
            r@ == self@,
    {
        let rope = clone_cells(&self.rope);
        let mut syntax: Vec<TokenType> = Vec::new();
        let mut i: usize = 0;
        while i < self.syntax.len()
            invariant
                i <= self.syntax.len(),
                syntax@ == self.syntax@.take(i as int),
            decreases self.syntax.len() - i,
        {
            syntax.push(self.syntax[i]);
            proof {
                assert(syntax@ =~= self.syntax@.take(i + 1));
            }
            i += 1;
        }
        proof {
            assert(syntax@ =~= self.syntax@);
        }
        Row { rope, syntax, final_state: self.final_state.clone() }
    }
}

/// A copy of a cell vector whose cells stand for the same values.
pub(crate) fn clone_cells(rope: &Vec<Cell>) -> (r: Vec<Cell>)
    ensures
        cells_view(r@) == cells_view(rope@),
{
    let mut out: Vec<Cell> = Vec::new();
    let mut i: usize = 0;
    while i < rope.len()
        invariant
            i <= rope.len(),
            cells_view(out@) == cells_view(rope@).take(i as int),
        decreases rope.len() - i,
    {
        proof {
            assert(cells_view(out@).len() == i);
            assert(out@.len() == i);
        }
        out.push(rope[i].clone());
        proof {
            assert(out@.len() == i + 1);
            assert(out@[i as int]@ == rope@[i as int]@);
            assert forall|k: int| 0 <= k < i + 1 implies cells_view(out@)[k] == cells_view(
                rope@,
            ).take(i + 1)[k] by {
                assert(cells_view(out@)[k] == out@[k]@);
                assert(cells_view(rope@).take(i + 1)[k] == rope@[k]@);
                assert(out@[k]@ == rope@[k]@);
            }
            assert(cells_view(out@) =~= cells_view(rope@).take(i + 1));
        }
        i += 1;
    }
    proof {
        assert(cells_view(out@) =~= cells_view(rope@));
    }
    out
}

impl Default for Row {
    fn default() -> (r: Self)
        ensures
            r@.cells == Seq::<CellV>::empty(),
            r@.syntax == Seq::<TokenType>::empty(),
            r@.final_state == TokenStateV::Normal,
    {
        proof {
            assert(cells_view(Seq::<Cell>::empty()) =~= Seq::<CellV>::empty());
        }
        Row { rope: Vec::new(), syntax: Vec::new(), final_state: TokenState::Normal }
    }
}

impl Row {
    /// The number of cells in the row.
    pub fn len(&self) -> (r: usize)
        ensures
            r == self@.cells.len(),
    {
        self.rope.len()
    }

    pub fn is_empty(&self) -> (r: bool)
        ensures
            r == (self@.cells.len() == 0),
    {
        self.rope.len() == 0
    }

    /// The row's text: its cells' grapheme clusters, concatenated in order.
    #[allow(clippy::inherent_to_string)]
    pub fn to_string(&self) -> (r: String)
        ensures
            r@ == text_of(self@.cells),
    {
        let ghost cells = self@.cells;
        let mut s = String::new();
        let mut i: usize = 0;
        while i < self.rope.len()
            invariant
                i <= self.rope.len(),
                cells == self@.cells,
                cells.len() == self.rope.len(),
                s@ + text_from(cells, i as int) == text_of(cells),
            decreases self.rope.len() - i,
        {
            s.append(self.rope[i].text.as_str());
            proof {
                assert(cells[i as int].text == self.rope@[i as int]@.text);
                assert(s@ + text_from(cells, i + 1) =~= text_of(cells));
            }
            i += 1;
        }
        proof {
            assert(s@ =~= text_of(cells));
        }
        s
    }

    /// A row holding the grapheme cells of `s`, with no highlighting yet;
    /// the cells' texts concatenate back to `s` exactly.
    pub fn from_str(s: &str) -> (r: Row)
        ensures
            r@.cells == str_cells(s@),
            text_of(r@.cells) == s@,
            r@.syntax == Seq::<TokenType>::empty(),
            r@.final_state == TokenStateV::Normal,
    {
        let gs = split_graphemes(s);
        proof {
            lemma_text_of_grapheme_cells(graphemes_of(s@));
        }
        let mut rope: Vec<Cell> = Vec::new();
        let mut i: usize = 0;
        while i < gs.len()
            invariant
                i <= gs.len(),
                gs@.map_values(|g: String| g@) == graphemes_of(s@),
                cells_view(rope@) == str_cells(s@).take(i as int),
            decreases gs.len() - i,
        {
            proof {
                assert(gs@.map_values(|g: String| g@)[i as int] == gs@[i as int]@);
                assert(str_cells(s@)[i as int] == (CellV {
                    text: graphemes_of(s@)[i as int],
                    width: display_width(graphemes_of(s@)[i as int]) as nat,
                }));
            }
            proof {
                assert(cells_view(rope@).len() == i);
                assert(rope@.len() == i);
            }
            let w = str_width(gs[i].as_str());
            let text = gs[i].clone();
            rope.push(Cell { text, width: w });
            proof {
                assert forall|k: int| 0 <= k < i + 1 implies cells_view(rope@)[k] == str_cells(
                    s@,
                ).take(i + 1)[k] by {
                    assert(cells_view(rope@)[k] == rope@[k]@);
                    assert(str_cells(s@).take(i + 1)[k] == str_cells(s@)[k]);
                }
                assert(cells_view(rope@) =~= str_cells(s@).take(i + 1));
            }
            i += 1;
        }
        proof {
            assert(cells_view(rope@) =~= str_cells(s@));
        }
        Row { rope, syntax: Vec::new(), final_state: TokenState::Normal }
    }

    /// A row holding exactly the given cells, with no highlighting yet.
    pub fn from_cells(rope: Vec<Cell>) -> (r: Row)
        ensures
            r@.cells == cells_view(rope@),
            r@.syntax == Seq::<TokenType>::empty(),
            r@.final_state == TokenStateV::Normal,
    {
        Row { rope, syntax: Vec::new(), final_state: TokenState::Normal }
    }

    /// Insert a cell at index `at`, shifting the suffix right.
    pub fn insert_cell(&mut self, at: usize, cell: Cell)
        requires
            at <= old(self)@.cells.len(),
        ensures
            final(self)@.cells == old(self)@.cells.insert(at as int, cell@),
            final(self)@.syntax == old(self)@.syntax,
            final(self)@.final_state == old(self)@.final_state,
    {
        self.rope.insert(at, cell);
        proof {
            assert(cells_view(self.rope@) =~= old(self)@.cells.insert(at as int, self.rope@[at as int]@));
        }
    }

    /// Remove the cell at index `at`, shifting the suffix left.
    pub fn remove_cell(&mut self, at: usize) -> (r: Cell)
        requires
            at < old(self)@.cells.len(),
        ensures
            final(self)@.cells == old(self)@.cells.remove(at as int),
            final(self)@.syntax == old(self)@.syntax,
            final(self)@.final_state == old(self)@.final_state,
            r@ == old(self)@.cells[at as int],
    {
        let r = self.rope.remove(at);
        proof {
            assert(cells_view(self.rope@) =~= old(self)@.cells.remove(at as int));
        }
        r
    }

    /// Split the row at cell index `x` into the prefix row and the suffix
    /// row; concatenating the two halves' cells reconstructs this row's
    /// cells exactly.
    pub fn split_at(&self, x: usize) -> (r: (Row, Row))
        requires
            x <= self@.cells.len(),
        ensures
            r.0@.cells == self@.cells.take(x as int),
            r.1@.cells == self@.cells.skip(x as int),
            r.0@.cells + r.1@.cells == self@.cells,
            r.0@.syntax == Seq::<TokenType>::empty(),
            r.1@.syntax == Seq::<TokenType>::empty(),
            r.0@.final_state == TokenStateV::Normal,
            r.1@.final_state == TokenStateV::Normal,
    {
        let mut left: Vec<Cell> = Vec::new();
        let mut i: usize = 0;
        while i < x
            invariant
                i <= x,
                x <= self@.cells.len(),
                self@.cells.len() == self.rope.len(),
                cells_view(left@) == self@.cells.take(i as int),
            decreases x - i,
        {
            proof {
                assert(cells_view(left@).len() == i);
                assert(left@.len() == i);
            }
            left.push(self.rope[i].clone());
            proof {
                assert forall|k: int| 0 <= k < i + 1 implies cells_view(left@)[k]
                    == self@.cells.take(i + 1)[k] by {
                    assert(cells_view(left@)[k] == left@[k]@);
                    assert(self@.cells.take(i + 1)[k] == self@.cells[k]);
                }
                assert(cells_view(left@) =~= self@.cells.take(i + 1));
            }
            i += 1;
        }
        let mut right: Vec<Cell> = Vec::new();
        let mut j: usize = x;
        while j < self.rope.len()
            invariant
                x <= j <= self.rope.len(),
                self@.cells.len() == self.rope.len(),
                cells_view(right@) == self@.cells.subrange(x as int, j as int),
            decreases self.rope.len() - j,
        {
            proof {
                assert(cells_view(right@).len() == j - x);
                assert(right@.len() == j - x);
            }
            right.push(self.rope[j].clone());
            proof {
                assert forall|k: int| 0 <= k < j + 1 - x implies cells_view(right@)[k]
                    == self@.cells.subrange(x as int, j + 1)[k] by {
                    assert(cells_view(right@)[k] == right@[k]@);
                    assert(self@.cells.subrange(x as int, j + 1)[k] == self@.cells[x + k]);
                }
                assert(cells_view(right@) =~= self@.cells.subrange(x as int, j + 1));
            }
            j += 1;
        }
        proof {
            assert(self@.cells.subrange(x as int, self@.cells.len() as int) =~= self@.cells.skip(
                x as int,
            ));
            lemma_split_concat(self@.cells, x as int);
        }
        (Row::from_cells(left), Row::from_cells(right))
    }

    /// The concatenation of this row's cells with another's.
    pub fn concat(&self, other: &Row) -> (r: Row)
        ensures
            r@.cells == self@.cells + other@.cells,
            r@.syntax == Seq::<TokenType>::empty(),
            r@.final_state == TokenStateV::Normal,
    {
        let mut rope = clone_cells(&self.rope);
        let mut rest = clone_cells(&other.rope);
        proof {
            assert(cells_view(rope@).len() == rope@.len());
            assert(cells_view(rest@).len() == rest@.len());
        }
        let ghost left_part = rope@;
        let ghost right_part = rest@;
        rope.append(&mut rest);
        proof {
            assert forall|k: int| 0 <= k < rope@.len() implies cells_view(rope@)[k] == (self@.cells
                + other@.cells)[k] by {
                assert(cells_view(rope@)[k] == rope@[k]@);
                if k < left_part.len() {
                    assert(rope@[k] == left_part[k]);
                    assert(cells_view(left_part)[k] == left_part[k]@);
                } else {
                    assert(rope@[k] == right_part[k - left_part.len()]);
                    assert(cells_view(right_part)[k - left_part.len()] == right_part[k
                        - left_part.len()]@);
                }
            }
            assert(cells_view(rope@) =~= self@.cells + other@.cells);
        }
        Row::from_cells(rope)
    }

    /// Recompute the row's per-cell highlight categories from the ruleset,
    /// starting in `state`; `state` is left at the state the row ends in (it
    /// carries to the next row), while the row records a sanitized copy (an
    /// unterminated single-line string does not carry over).
    pub fn update_syntax(&mut self, syntax: &Syntax, state: &mut TokenState) -> (r: TokenState)
        ensures
            final(self).rope == old(self).rope,
            final(self)@.cells == old(self)@.cells,
            final(self)@.syntax == classify(syntax@, old(self)@.cells, old(state)@).0,
            final(state)@ == classify(syntax@, old(self)@.cells, old(state)@).1,
            final(self)@.final_state == sanitize_state(final(state)@),
            r@ == final(self)@.final_state,
    {
        let ghost cells = self@.cells;
        let ghost st0 = state@;
        self.syntax.clear();
        proof {
            lemma_classify_len(syntax@, cells, Seq::<TokenType>::empty(), st0);
            assert(self.syntax@ =~= Seq::<TokenType>::empty());
        }
        while self.syntax.len() < self.rope.len()
            invariant
                cells == cells_view(self.rope@),
                self.rope == old(self).rope,
                cells.len() == self.rope@.len(),
                self.syntax@.len() <= self.rope@.len(),
                classify(syntax@, cells, st0) == classify_from(syntax@, cells, self.syntax@, state@),
            decreases self.rope@.len() - self.syntax@.len(),
        {
            proof {
                lemma_classify_step_len(syntax@, cells, self.syntax@, state@);
            }
            classify_step_exec(syntax, &self.rope, &mut self.syntax, state);
        }
        let sanitized = match &*state {
            TokenState::String(_) => TokenState::Normal,
            other => other.clone(),
        };
        self.final_state = sanitized;
        let r = self.final_state.clone();
        r
    }

    /// Whether two rows agree on cells, highlighting, and final state.
    pub fn content_eq(&self, other: &Row) -> (r: bool)
        ensures
            r == (self@ == other@),
    {
        if self.rope.len() != other.rope.len() || self.syntax.len() != other.syntax.len() {
            proof {
                assert(self@.cells.len() == self.rope.len());
                assert(other@.cells.len() == other.rope.len());
            }
            return false;
        }
        let mut i: usize = 0;
        while i < self.rope.len()
            invariant
                i <= self.rope.len(),
                self.rope.len() == other.rope.len(),
                forall|k: int| 0 <= k < i ==> self@.cells[k] == other@.cells[k],
            decreases self.rope.len() - i,
        {
            if !self.rope[i].cell_eq(&other.rope[i]) {
                proof {
                    assert(self@.cells[i as int] == self.rope@[i as int]@);
                    assert(other@.cells[i as int] == other.rope@[i as int]@);
                }
                return false;
            }
            i += 1;
        }
        let mut j: usize = 0;
        while j < self.syntax.len()
            invariant
                j <= self.syntax.len(),
                self.syntax.len() == other.syntax.len(),
                forall|k: int| 0 <= k < j ==> self@.syntax[k] == other@.syntax[k],
            decreases self.syntax.len() - j,
        {
            if self.syntax[j] != other.syntax[j] {
                return false;
            }
            j += 1;
        }
        let r = self.final_state.state_eq(&other.final_state);
        proof {
            if r {
                assert(self@.cells =~= other@.cells);
                assert(self@.syntax =~= other@.syntax);
            }
        }
        r
    }
}


// ---------------------------------------------------------------------------
// Syntax classification: per-cell highlight categories, with a highlight
// state threaded across rows.
// ---------------------------------------------------------------------------

/// Whether `pat` occurs in the row's text starting at cell `i`.
pub open spec fn matches_at(cells: Seq<CellV>, i: int, pat: Seq<char>) -> bool {
    pat.is_prefix_of(text_from(cells, i))
}

/// An ASCII separator character: whitespace, NUL, or punctuation other than
/// underscore.
pub open spec fn is_sep_char(c: char) -> bool {
    let u = c as u32;
    ||| u == 32
    ||| u == 9
    ||| u == 10
    ||| u == 12
    ||| u == 13
    ||| u == 0
    ||| (33 <= u && u <= 47)
    ||| (58 <= u && u <= 64)
    ||| (91 <= u && u <= 96 && u != 95)
    ||| (123 <= u && u <= 126)
}

/// A separator cell: a single separator character.
pub open spec fn is_sep_cell(c: CellV) -> bool {
    c.text.len() == 1 && is_sep_char(c.text[0])
}

/// A cell holding a single ASCII digit.
pub open spec fn is_digit_cell(c: CellV) -> bool {
    c.text.len() == 1 && 48 <= c.text[0] as u32 <= 57
}

/// How many cells a matched token of `n` characters covers when `rem` cells
/// remain: at least one, and never past the end of the row.
pub open spec fn ext_len(n: int, rem: int) -> int
    recommends
        rem >= 1,
{
    if n < 1 {
        1
    } else if n > rem {
        rem
    } else {
        n
    }
}

/// Whether `kw` is a keyword occurrence at cell `i`: non-empty, present, and
/// followed by a separator cell or the end of the row.
pub open spec fn kw_matches(cells: Seq<CellV>, i: int, kw: Seq<char>) -> bool {
    &&& kw.len() > 0
    &&& matches_at(cells, i, kw)
    &&& (i + kw.len() >= cells.len() || is_sep_cell(cells[i + kw.len()]))
}

/// The first keyword of `kws` with an occurrence at cell `i`.
pub open spec fn first_kw(kws: Seq<Seq<char>>, cells: Seq<CellV>, i: int) -> Option<Seq<char>>
    decreases kws.len(),
{
    if kws.len() == 0 {
        None
    } else if kw_matches(cells, i, kws[0]) {
        Some(kws[0])
    } else {
        first_kw(kws.drop_first(), cells, i)
    }
}

/// The first keyword group with an occurrence at cell `i`, and the keyword.
pub open spec fn first_kw_group(
    groups: Seq<(TokenType, Seq<Seq<char>>)>,
    cells: Seq<CellV>,
    i: int,
) -> Option<(TokenType, Seq<char>)>
    decreases groups.len(),
{
    if groups.len() == 0 {
        None
    } else {
        match first_kw(groups[0].1, cells, i) {
            Option::Some(kw) => Some((groups[0].0, kw)),
            Option::None => first_kw_group(groups.drop_first(), cells, i),
        }
    }
}

/// Whether some single-line comment starter occurs at cell `i`.
pub open spec fn comment_starts_at(syn: SyntaxV, cells: Seq<CellV>, i: int) -> bool {
    exists|k: int|
        0 <= k < syn.sl_comment_start.len() && matches_at(cells, i, syn.sl_comment_start[k])
}

/// Whether the cell's text is one of the single-line string quotes.
pub open spec fn is_quote(syn: SyntaxV, c: CellV) -> bool {
    exists|k: int| 0 <= k < syn.sl_string_quotes.len() && syn.sl_string_quotes[k] == c.text
}

/// One classification step at the current position (the tag count so far):
/// the tags appended for the cells consumed, and the state after them.
/// In order: a single-line comment paints the rest of the row; multi-line
/// comment and multi-line string delimiters open and close their states; a
/// string state paints string tags (honoring a backslash escape) until its
/// quote; a quote cell opens a string; a digit after a separator (or
/// continuing a number) is a number; after a separator, the first matching
/// keyword paints its cells; anything else is normal.
pub open spec fn classify_step(
    syn: SyntaxV,
    cells: Seq<CellV>,
    tags: Seq<TokenType>,
    st: TokenStateV,
) -> (Seq<TokenType>, TokenStateV)
    recommends
        tags.len() < cells.len(),
{
    let i = tags.len() as int;
    let rem = cells.len() - i;
    let c = cells[i];
    let prev_sep = i == 0 || is_sep_cell(cells[i - 1]);
    if st == TokenStateV::Normal && comment_starts_at(syn, cells, i) {
        (Seq::new(rem as nat, |j: int| TokenType::Comment), st)
    } else if syn.ml_comment_delims is Some && st == TokenStateV::MultiLineComment {
        if matches_at(cells, i, (syn.ml_comment_delims->0).1) {
            (
                Seq::new(
                    ext_len((syn.ml_comment_delims->0).1.len() as int, rem) as nat,
                    |j: int| TokenType::MlComment,
                ),
                TokenStateV::Normal,
            )
        } else {
            (seq![TokenType::MlComment], st)
        }
    } else if syn.ml_comment_delims is Some && st == TokenStateV::Normal && matches_at(
        cells,
        i,
        (syn.ml_comment_delims->0).0,
    ) {
        (
            Seq::new(
                ext_len((syn.ml_comment_delims->0).0.len() as int, rem) as nat,
                |j: int| TokenType::MlComment,
            ),
            TokenStateV::MultiLineComment,
        )
    } else if syn.ml_string_delim is Some && st == TokenStateV::MultiLineString {
        if matches_at(cells, i, syn.ml_string_delim->0) {
            (
                Seq::new(
                    ext_len(syn.ml_string_delim->0.len() as int, rem) as nat,
                    |j: int| TokenType::MlString,
                ),
                TokenStateV::Normal,
            )
        } else {
            (seq![TokenType::MlString], st)
        }
    } else if syn.ml_string_delim is Some && st == TokenStateV::Normal && matches_at(
        cells,
        i,
        syn.ml_string_delim->0,
    ) {
        (
            Seq::new(
                ext_len(syn.ml_string_delim->0.len() as int, rem) as nat,
                |j: int| TokenType::MlString,
            ),
            TokenStateV::MultiLineString,
        )
    } else if st is InString {
        if c.text == st->0 {
            (seq![TokenType::String], TokenStateV::Normal)
        } else if c.text == seq!['\\'] && i != cells.len() - 1 {
            (seq![TokenType::String, TokenType::String], st)
        } else {
            (seq![TokenType::String], st)
        }
    } else if st == TokenStateV::Normal && is_quote(syn, c) {
        (seq![TokenType::String], TokenStateV::InString(c.text))
    } else if syn.highlight_numbers && ((is_digit_cell(c) && prev_sep) || (i != 0 && tags[i - 1]
        == TokenType::Number && !prev_sep && !is_sep_cell(c))) {
        (seq![TokenType::Number], st)
    } else if prev_sep && first_kw_group(syn.keywords, cells, i) is Some {
        (
            Seq::new(
                ext_len((first_kw_group(syn.keywords, cells, i)->0).1.len() as int, rem) as nat,
                |j: int| (first_kw_group(syn.keywords, cells, i)->0).0,
            ),
            st,
        )
    } else {
        (seq![TokenType::Normal], st)
    }
}

/// Classifying the rest of a row, given the tags computed so far.
pub open spec fn classify_from(
    syn: SyntaxV,
    cells: Seq<CellV>,
    tags: Seq<TokenType>,
    st: TokenStateV,
) -> (Seq<TokenType>, TokenStateV)
    decreases cells.len() - tags.len(),
{
    if tags.len() >= cells.len() {
        (tags, st)
    } else {
        let stp = classify_step(syn, cells, tags, st);
        classify_from(syn, cells, tags + stp.0, stp.1)
    }
}

/// The per-cell tags of a whole row and the state its classification ends in.
pub open spec fn classify(syn: SyntaxV, cells: Seq<CellV>, st: TokenStateV) -> (
    Seq<TokenType>,
    TokenStateV,
) {
    classify_from(syn, cells, Seq::<TokenType>::empty(), st)
}

/// A string state is not carried into the next row as that row's record:
/// an unterminated single-line string records a normal final state.
pub open spec fn sanitize_state(st: TokenStateV) -> TokenStateV {
    if st is InString {
        TokenStateV::Normal
    } else {
        st
    }
}

/// A classification step consumes at least one cell and never overshoots.
pub proof fn lemma_classify_step_len(
    syn: SyntaxV,
    cells: Seq<CellV>,
    tags: Seq<TokenType>,
    st: TokenStateV,
)
    requires
        tags.len() < cells.len(),
    ensures
        1 <= classify_step(syn, cells, tags, st).0.len() <= cells.len() - tags.len(),
{
}

/// A full classification gives exactly one tag per cell.
pub proof fn lemma_classify_len(
    syn: SyntaxV,
    cells: Seq<CellV>,
    tags: Seq<TokenType>,
    st: TokenStateV,
)
    requires
        tags.len() <= cells.len(),
    ensures
        classify_from(syn, cells, tags, st).0.len() == cells.len(),
    decreases cells.len() - tags.len(),
{
    if tags.len() < cells.len() {
        let stp = classify_step(syn, cells, tags, st);
        lemma_classify_step_len(syn, cells, tags, st);
        lemma_classify_len(syn, cells, tags + stp.0, stp.1);
    }
}

/// The row's text from cell `i` on.
fn text_from_exec(rope: &Vec<Cell>, i: usize) -> (r: String)
    requires
        i <= rope@.len(),
    ensures
        r@ == text_from(cells_view(rope@), i as int),
{
    let ghost cells = cells_view(rope@);
    let mut out = String::new();
    let mut j = i;
    while j < rope.len()
        invariant
            i <= j <= rope.len(),
            cells == cells_view(rope@),
            cells.len() == rope.len(),
            out@ + text_from(cells, j as int) == text_from(cells, i as int),
        decreases rope.len() - j,
    {
        out.append(rope[j].text.as_str());
        proof {
            assert(cells[j as int].text == rope@[j as int]@.text);
            assert(out@ + text_from(cells, j + 1) =~= text_from(cells, i as int));
        }
        j += 1;
    }
    proof {
        assert(out@ =~= text_from(cells, i as int));
    }
    out
}

/// Whether `pat` is a prefix of `s`, character by character.
fn is_prefix_exec(pat: &str, s: &str) -> (r: bool)
    ensures
        r == pat@.is_prefix_of(s@),
{
    let n = pat.unicode_len();
    let m = s.unicode_len();
    if n > m {
        return false;
    }
    let mut k: usize = 0;
    while k < n
        invariant
            k <= n,
            n == pat@.len(),
            m == s@.len(),
            n <= m,
            forall|j: int| 0 <= j < k ==> pat@[j] == s@[j],
        decreases n - k,
    {
        if pat.get_char(k) != s.get_char(k) {
            return false;
        }
        k += 1;
    }
    proof {
        assert(pat@ =~= s@.subrange(0, n as int));
    }
    true
}

/// Whether `pat` occurs in the row's text starting at cell `i`.
fn matches_at_exec(rope: &Vec<Cell>, i: usize, pat: &str) -> (r: bool)
    requires
        i <= rope@.len(),
    ensures
        r == matches_at(cells_view(rope@), i as int, pat@),
{
    let suffix = text_from_exec(rope, i);
    is_prefix_exec(pat, suffix.as_str())
}

/// Whether `c` is a separator character.
fn is_sep_char_exec(c: char) -> (r: bool)
    ensures
        r == is_sep_char(c),
{
    let u = c as u32;
    u == 32 || u == 9 || u == 10 || u == 12 || u == 13 || u == 0 || (33 <= u && u <= 47) || (58
        <= u && u <= 64) || (91 <= u && u <= 96 && u != 95) || (123 <= u && u <= 126)
}

/// Whether the cell is a separator cell.
fn is_sep_cell_exec(c: &Cell) -> (r: bool)
    ensures
        r == is_sep_cell(c@),
{
    if c.text.as_str().unicode_len() != 1 {
        return false;
    }
    is_sep_char_exec(c.text.as_str().get_char(0))
}

/// Whether the cell holds a single ASCII digit.
fn is_digit_cell_exec(c: &Cell) -> (r: bool)
    ensures
        r == is_digit_cell(c@),
{
    if c.text.as_str().unicode_len() != 1 {
        return false;
    }
    let u = c.text.as_str().get_char(0) as u32;
    48 <= u && u <= 57
}

/// Append `n` copies of a tag.
fn push_repeat(tags: &mut Vec<TokenType>, t: TokenType, n: usize)
    ensures
        final(tags)@ == old(tags)@ + Seq::new(n as nat, |j: int| t),
{
    let mut k: usize = 0;
    while k < n
        invariant
            k <= n,
            tags@.len() == old(tags)@.len() + k,
            tags@ == old(tags)@ + Seq::new(k as nat, |j: int| t),
        decreases n - k,
    {
        tags.push(t);
        proof {
            assert(tags@ =~= old(tags)@ + Seq::new((k + 1) as nat, |j: int| t));
        }
        k += 1;
    }
}

/// The first keyword occurrence at cell `i` over all keyword groups: its
/// category and its character count.
fn find_keyword(groups: &Vec<(TokenType, Vec<String>)>, rope: &Vec<Cell>, i: usize) -> (r: Option<
    (TokenType, usize),
>)
    requires
        i < rope@.len(),
    ensures
        ({
            let groupsv = groups@.map_values(
                |p: (TokenType, Vec<String>)| (p.0, p.1@.map_values(|s: String| s@)),
            );
            let spec = first_kw_group(groupsv, cells_view(rope@), i as int);
            match r {
                Option::Some(p) => spec is Some && p.0 == (spec->0).0 && p.1 == (spec->0).1.len(),
                Option::None => spec is None,
            }
        }),
{
    let ghost cells = cells_view(rope@);
    let ghost groupsv = groups@.map_values(
        |p: (TokenType, Vec<String>)| (p.0, p.1@.map_values(|s: String| s@)),
    );
    proof {
        assert(groupsv.skip(0) =~= groupsv);
    }
    let mut g: usize = 0;
    while g < groups.len()
        invariant
            g <= groups.len(),
            i < rope@.len(),
            cells == cells_view(rope@),
            groupsv == groups@.map_values(
                |p: (TokenType, Vec<String>)| (p.0, p.1@.map_values(|s: String| s@)),
            ),
            groupsv.len() == groups@.len(),
            first_kw_group(groupsv, cells, i as int) == first_kw_group(
                groupsv.skip(g as int),
                cells,
                i as int,
            ),
        decreases groups.len() - g,
    {
        proof {
            assert(groupsv[g as int] == (groups@[g as int].0, groups@[g as int].1@.map_values(
                |s: String| s@,
            )));
        }
        let kws = &groups[g].1;
        let ghost kwsv = groups@[g as int].1@.map_values(|s: String| s@);
        let mut k: usize = 0;
        let mut found: Option<usize> = None;
        proof {
            assert(kwsv.skip(0) =~= kwsv);
        }
        while k < kws.len() && found.is_none()
            invariant
                k <= kws.len(),
                i < rope@.len(),
                cells == cells_view(rope@),
                kwsv == kws@.map_values(|s: String| s@),
                kwsv.len() == kws@.len(),
                found is None ==> first_kw(kwsv, cells, i as int) == first_kw(
                    kwsv.skip(k as int),
                    cells,
                    i as int,
                ),
                found matches Some(n) ==> first_kw(kwsv, cells, i as int) is Some && (first_kw(
                    kwsv,
                    cells,
                    i as int,
                )->0).len() == n,
            decreases kws.len() - k + (if found is None { 1int } else { 0int }),
        {
            proof {
                assert(kwsv[k as int] == kws@[k as int]@);
                assert(kwsv.skip(k as int)[0] == kwsv[k as int]);
                assert(kwsv.skip(k as int).drop_first() =~= kwsv.skip(k + 1));
            }
            let kw = &kws[k];
            let kwlen = kw.as_str().unicode_len();
            let mut matched = kwlen > 0 && matches_at_exec(rope, i, kw.as_str());
            if matched {
                // boundary: the keyword ends the row or a separator follows
                if kwlen < rope.len() - i {
                    matched = is_sep_cell_exec(&rope[i + kwlen]);
                }
            }
            if matched {
                proof {
                    assert(kw_matches(cells, i as int, kwsv[k as int]));
                }
                found = Some(kwlen);
            } else {
                proof {
                    assert(!kw_matches(cells, i as int, kwsv[k as int]));
                }
                k += 1;
            }
        }
        match found {
            Some(n) => {
                proof {
                    assert(first_kw_group(groupsv.skip(g as int), cells, i as int) == Some(
                        (groupsv[g as int].0, first_kw(kwsv, cells, i as int)->0),
                    ));
                }
                return Some((groups[g].0, n));
            },
            None => {
                proof {
                    assert(kwsv.skip(kws@.len() as int) =~= Seq::<Seq<char>>::empty());
                    assert(first_kw(kwsv, cells, i as int) is None);
                    assert(groupsv.skip(g as int).drop_first() =~= groupsv.skip(g + 1));
                }
            },
        }
        g += 1;
    }
    proof {
        assert(groupsv.skip(groups@.len() as int) =~= Seq::<(TokenType, Seq<Seq<char>>)>::empty());
    }
    None
}

/// Perform one classification step: append the step's tags and adopt its
/// state.
fn classify_step_exec(syn: &Syntax, rope: &Vec<Cell>, tags: &mut Vec<TokenType>, state: &mut TokenState)
    requires
        old(tags)@.len() < rope@.len(),
    ensures
        final(tags)@ == old(tags)@ + classify_step(
            syn@,
            cells_view(rope@),
            old(tags)@,
            old(state)@,
        ).0,
        final(state)@ == classify_step(syn@, cells_view(rope@), old(tags)@, old(state)@).1,
{
    let ghost cells = cells_view(rope@);
    let ghost stp = classify_step(syn@, cells_view(rope@), old(tags)@, old(state)@);
    let i = tags.len();
    let rem = rope.len() - i;
    let is_normal = matches!(state, TokenState::Normal);

    // single-line comment: the rest of the row
    if is_normal {
        let mut found = false;
        let mut k: usize = 0;
        while k < syn.sl_comment_start.len() && !found
            invariant
                k <= syn.sl_comment_start.len(),
                i < rope@.len(),
                cells == cells_view(rope@),
                found ==> comment_starts_at(syn@, cells, i as int),
                !found ==> forall|j: int|
                    0 <= j < k ==> !matches_at(cells, i as int, syn@.sl_comment_start[j]),
            decreases syn.sl_comment_start.len() - k + (if found {
                0int
            } else {
                1int
            }),
        {
            proof {
                assert(syn@.sl_comment_start[k as int] == syn.sl_comment_start@[k as int]@);
            }
            if matches_at_exec(rope, i, syn.sl_comment_start[k].as_str()) {
                found = true;
            } else {
                k += 1;
            }
        }
        if found {
            push_repeat(tags, TokenType::Comment, rem);
            return ;
        }
        proof {
            assert(!comment_starts_at(syn@, cells, i as int));
        }
    }

    // multi-line comment delimiters
    if let Some((start_d, end_d)) = &syn.ml_comment_delims {
        proof {
            assert(syn@.ml_comment_delims == Some((start_d@, end_d@)));
        }
        if matches!(state, TokenState::MultiLineComment) {
            if matches_at_exec(rope, i, end_d.as_str()) {
                let n = end_d.as_str().unicode_len();
                let ext = if n < 1 {
                    1
                } else if n > rem {
                    rem
                } else {
                    n
                };
                push_repeat(tags, TokenType::MlComment, ext);
                *state = TokenState::Normal;
            } else {
                tags.push(TokenType::MlComment);
                proof {
                    assert(tags@ =~= old(tags)@ + seq![TokenType::MlComment]);
                }
            }
            return ;
        }
        if is_normal && matches_at_exec(rope, i, start_d.as_str()) {
            let n = start_d.as_str().unicode_len();
            let ext = if n < 1 {
                1
            } else if n > rem {
                rem
            } else {
                n
            };
            push_repeat(tags, TokenType::MlComment, ext);
            *state = TokenState::MultiLineComment;
            return ;
        }
    }

    // multi-line string delimiter
    if let Some(delim) = &syn.ml_string_delim {
        proof {
            assert(syn@.ml_string_delim == Some(delim@));
        }
        if matches!(state, TokenState::MultiLineString) {
            if matches_at_exec(rope, i, delim.as_str()) {
                let n = delim.as_str().unicode_len();
                let ext = if n < 1 {
                    1
                } else if n > rem {
                    rem
                } else {
                    n
                };
                push_repeat(tags, TokenType::MlString, ext);
                *state = TokenState::Normal;
            } else {
                tags.push(TokenType::MlString);
                proof {
                    assert(tags@ =~= old(tags)@ + seq![TokenType::MlString]);
                }
            }
            return ;
        }
        if is_normal && matches_at_exec(rope, i, delim.as_str()) {
            let n = delim.as_str().unicode_len();
            let ext = if n < 1 {
                1
            } else if n > rem {
                rem
            } else {
                n
            };
            push_repeat(tags, TokenType::MlString, ext);
            *state = TokenState::MultiLineString;
            return ;
        }
    }

    // inside a single-line string
    let in_string = matches!(state, TokenState::String(_));
    if in_string {
        let quote = match &*state {
            TokenState::String(q) => q.clone(),
            _ => String::new(),
        };
        proof {
            assert(old(state)@ == TokenStateV::InString(quote@));
        }
        if rope[i].text == quote {
            tags.push(TokenType::String);
            *state = TokenState::Normal;
            proof {
                assert(tags@ =~= old(tags)@ + seq![TokenType::String]);
            }
            return ;
        }
        let is_backslash = rope[i].text.as_str().unicode_len() == 1 && rope[
            i
        ].text.as_str().get_char(0) == '\\';
        proof {
            if is_backslash {
                assert(cells[i as int].text =~= seq!['\\']);
            } else {
                assert(cells[i as int].text != seq!['\\']);
            }
        }
        if is_backslash && i != rope.len() - 1 {
            tags.push(TokenType::String);
            tags.push(TokenType::String);
            proof {
                assert(tags@ =~= old(tags)@ + seq![TokenType::String, TokenType::String]);
            }
        } else {
            tags.push(TokenType::String);
            proof {
                assert(tags@ =~= old(tags)@ + seq![TokenType::String]);
            }
        }
        return ;
    }

    // a quote cell opens a single-line string
    if is_normal {
        let mut qfound = false;
        let mut k: usize = 0;
        while k < syn.sl_string_quotes.len() && !qfound
            invariant
                k <= syn.sl_string_quotes.len(),
                i < rope@.len(),
                cells == cells_view(rope@),
                qfound ==> is_quote(syn@, cells[i as int]),
                !qfound ==> forall|j: int|
                    0 <= j < k ==> syn@.sl_string_quotes[j] != cells[i as int].text,
            decreases syn.sl_string_quotes.len() - k + (if qfound {
                0int
            } else {
                1int
            }),
        {
            proof {
                assert(syn@.sl_string_quotes[k as int] == syn.sl_string_quotes@[k as int]@);
                assert(cells[i as int].text == rope@[i as int]@.text);
            }
            if rope[i].text == syn.sl_string_quotes[k] {
                qfound = true;
            } else {
                k += 1;
            }
        }
        if qfound {
            tags.push(TokenType::String);
            let q = rope[i].text.clone();
            *state = TokenState::String(q);
            proof {
                assert(tags@ =~= old(tags)@ + seq![TokenType::String]);
            }
            return ;
        }
        proof {
            assert(!is_quote(syn@, cells[i as int]));
        }
    }

    let prev_sep = i == 0 || is_sep_cell_exec(&rope[i - 1]);

    // numbers
    if syn.highlight_numbers {
        let digit_start = is_digit_cell_exec(&rope[i]) && prev_sep;
        let number_run = i != 0 && tags[i - 1] == TokenType::Number && !prev_sep
            && !is_sep_cell_exec(&rope[i]);
        if digit_start || number_run {
            tags.push(TokenType::Number);
            proof {
                assert(tags@ =~= old(tags)@ + seq![TokenType::Number]);
            }
            return ;
        }
    }

    // keywords, only at a word boundary
    if prev_sep {
        if let Some((tp, n)) = find_keyword(&syn.keywords, rope, i) {
            let ext = if n < 1 {
                1
            } else if n > rem {
                rem
            } else {
                n
            };
            push_repeat(tags, tp, ext);
            return ;
        }
    }

    tags.push(TokenType::Normal);
    proof {
        assert(tags@ =~= old(tags)@ + seq![TokenType::Normal]);
    }
}

// ---------------------------------------------------------------------------
// Word motion and visual-column arithmetic, shared by the editor's cursor
// logic and the modal input line.
// ---------------------------------------------------------------------------

/// A cell holding a single space.
pub open spec fn is_space_cell(c: CellV) -> bool {
    c.text == seq![' ']
}

/// The first index at or after `x` whose cell is not a space.
pub open spec fn fwd_while_space(cells: Seq<CellV>, x: int) -> int
    decreases cells.len() - x,
{
    if 0 <= x < cells.len() && is_space_cell(cells[x]) {
        fwd_while_space(cells, x + 1)
    } else {
        x
    }
}

/// The first index at or after `x` whose cell is a space (or the end).
pub open spec fn fwd_while_nonspace(cells: Seq<CellV>, x: int) -> int
    decreases cells.len() - x,
{
    if 0 <= x < cells.len() && !is_space_cell(cells[x]) {
        fwd_while_nonspace(cells, x + 1)
    } else {
        x
    }
}

/// The last index at or before `x` not preceded by a space.
pub open spec fn back_while_space(cells: Seq<CellV>, x: int) -> int
    decreases x,
{
    if 0 < x <= cells.len() && is_space_cell(cells[x - 1]) {
        back_while_space(cells, x - 1)
    } else {
        x
    }
}

/// The last index at or before `x` not preceded by a non-space cell.
pub open spec fn back_while_nonspace(cells: Seq<CellV>, x: int) -> int
    decreases x,
{
    if 0 < x <= cells.len() && !is_space_cell(cells[x - 1]) {
        back_while_nonspace(cells, x - 1)
    } else {
        x
    }
}

/// The summed displayed width of the first `n` cells, saturating at the
/// machine limit as the editor's defensive arithmetic does.
pub open spec fn width_sum(cells: Seq<CellV>, n: int) -> int
    decreases n,
{
    if n <= 0 {
        0
    } else {
        let rest = width_sum(cells, n - 1) + cells[n - 1].width;
        if rest > usize::MAX {
            usize::MAX as int
        } else {
            rest
        }
    }
}

/// The cell index a visual column maps to: the first index whose preceding
/// cells' widths already reach the column, or the cell count if none does.
pub open spec fn visual_to_cell_from(cells: Seq<CellV>, i: int, acc: int, x: int) -> int
    decreases cells.len() - i,
{
    if i < 0 || i >= cells.len() {
        cells.len() as int
    } else if acc >= x {
        i
    } else {
        let acc2 = if acc + cells[i].width > usize::MAX {
            usize::MAX as int
        } else {
            acc + cells[i].width
        };
        visual_to_cell_from(cells, i + 1, acc2, x)
    }
}

/// The cell index visual column `x` maps to.
pub open spec fn visual_to_cell(cells: Seq<CellV>, x: int) -> int {
    visual_to_cell_from(cells, 0, 0, x)
}

/// Whether the cell holds a single space.
fn is_space_cell_exec(c: &Cell) -> (r: bool)
    ensures
        r == is_space_cell(c@),
{
    let r = c.text.as_str().unicode_len() == 1 && c.text.as_str().get_char(0) == ' ';
    proof {
        if r {
            assert(c@.text =~= seq![' ']);
        } else {
            assert(c@.text != seq![' ']);
        }
    }
    r
}

/// Skip forward over spaces.
pub fn fwd_space(rope: &Vec<Cell>, x: usize) -> (r: usize)
    requires
        x <= rope@.len(),
    ensures
        r == fwd_while_space(cells_view(rope@), x as int),
        x <= r <= rope@.len(),
    decreases rope@.len() - x,
{
    if x < rope.len() && is_space_cell_exec(&rope[x]) {
        proof {
            assert(cells_view(rope@)[x as int] == rope@[x as int]@);
        }
        fwd_space(rope, x + 1)
    } else {
        proof {
            if x < rope@.len() {
                assert(cells_view(rope@)[x as int] == rope@[x as int]@);
            }
        }
        x
    }
}

/// Skip forward over non-spaces.
pub fn fwd_nonspace(rope: &Vec<Cell>, x: usize) -> (r: usize)
    requires
        x <= rope@.len(),
    ensures
        r == fwd_while_nonspace(cells_view(rope@), x as int),
        x <= r <= rope@.len(),
    decreases rope@.len() - x,
{
    if x < rope.len() && !is_space_cell_exec(&rope[x]) {
        proof {
            assert(cells_view(rope@)[x as int] == rope@[x as int]@);
        }
        fwd_nonspace(rope, x + 1)
    } else {
        proof {
            if x < rope@.len() {
                assert(cells_view(rope@)[x as int] == rope@[x as int]@);
            }
        }
        x
    }
}

/// Skip backward over spaces.
pub fn back_space(rope: &Vec<Cell>, x: usize) -> (r: usize)
    requires
        x <= rope@.len(),
    ensures
        r == back_while_space(cells_view(rope@), x as int),
        r <= x,
    decreases x,
{
    if x > 0 && is_space_cell_exec(&rope[x - 1]) {
        proof {
            assert(cells_view(rope@)[x - 1] == rope@[x - 1]@);
        }
        back_space(rope, x - 1)
    } else {
        proof {
            if x > 0 {
                assert(cells_view(rope@)[x - 1] == rope@[x - 1]@);
            }
        }
        x
    }
}

/// Skip backward over non-spaces.
pub fn back_nonspace(rope: &Vec<Cell>, x: usize) -> (r: usize)
    requires
        x <= rope@.len(),
    ensures
        r == back_while_nonspace(cells_view(rope@), x as int),
        r <= x,
    decreases x,
{
    if x > 0 && !is_space_cell_exec(&rope[x - 1]) {
        proof {
            assert(cells_view(rope@)[x - 1] == rope@[x - 1]@);
        }
        back_nonspace(rope, x - 1)
    } else {
        proof {
            if x > 0 {
                assert(cells_view(rope@)[x - 1] == rope@[x - 1]@);
            }
        }
        x
    }
}

/// The summed displayed width of the first `n` cells, saturating.
pub fn visual_width_upto(rope: &Vec<Cell>, n: usize) -> (r: usize)
    requires
        n <= rope@.len(),
    ensures
        r == width_sum(cells_view(rope@), n as int),
{
    let mut acc: usize = 0;
    let mut i: usize = 0;
    while i < n
        invariant
            i <= n <= rope@.len(),
            acc == width_sum(cells_view(rope@), i as int),
        decreases n - i,
    {
        proof {
            assert(cells_view(rope@)[i as int] == rope@[i as int]@);
        }
        acc = acc.saturating_add(rope[i].width);
        i += 1;
    }
    acc
}

/// The cell index visual column `x` maps to in this row.
pub fn cell_at_visual(rope: &Vec<Cell>, x: usize) -> (r: usize)
    ensures
        r == visual_to_cell(cells_view(rope@), x as int),
        r <= rope@.len(),
{
    let ghost cells = cells_view(rope@);
    let mut acc: usize = 0;
    let mut i: usize = 0;
    while i < rope.len()
        invariant
            i <= rope@.len(),
            cells == cells_view(rope@),
            visual_to_cell(cells, x as int) == visual_to_cell_from(
                cells,
                i as int,
                acc as int,
                x as int,
            ),
        decreases rope@.len() - i,
    {
        if acc >= x {
            return i;
        }
        proof {
            assert(cells[i as int] == rope@[i as int]@);
        }
        acc = acc.saturating_add(rope[i].width);
        i += 1;
    }
    rope.len()
}

/// Splitting a row's cells at any index and concatenating the two parts
/// reconstructs the cells exactly.
pub proof fn lemma_split_concat(cells: Seq<CellV>, x: int)
    requires
        0 <= x <= cells.len(),
    ensures
        cells.take(x) + cells.skip(x) == cells,
{
    assert(cells.take(x) + cells.skip(x) =~= cells);
}

/// Deleting the cell range `[i, j)` from a row and re-inserting the removed
/// cells at index `i` reproduces the row exactly.
pub proof fn lemma_delete_reinsert(cells: Seq<CellV>, i: int, j: int)
    requires
        0 <= i <= j <= cells.len(),
    ensures
        (cells.take(i) + cells.skip(j)).take(i) + cells.subrange(i, j) + (cells.take(i)
            + cells.skip(j)).skip(i) == cells,
{
    let deleted = cells.take(i) + cells.skip(j);
    assert(deleted.take(i) =~= cells.take(i));
    assert(deleted.skip(i) =~= cells.skip(j));
    assert(cells.take(i) + cells.subrange(i, j) + cells.skip(j) =~= cells);
}

} // verus!
