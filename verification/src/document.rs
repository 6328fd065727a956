//! The document: an ordered, growable sequence of rows — the grid as a
//! whole.
//!
//! The document grows vertically on demand (writing at a row beyond the
//! current bounds pads with default rows), supports coordinate-addressed
//! insert/delete, column operations, a two-directional content search, and
//! conversion to and from the persisted text form (one row per line, fields
//! separated by `;`).  Reading and writing the backing file itself is the
//! shell's business; the document only computes the text.

use vstd::prelude::*;

use crate::cell::Cell;
use crate::cell::CellView;
use crate::cell::ValueView;
use crate::cell::cell_matches;
use crate::cell::marker_literal;
use crate::cell::render_v;
use crate::editor::Position;
use crate::editor::SearchDirection;
use crate::row::Row;
use crate::row::pad_cells;
use crate::row::row_delete_view;
use crate::row::row_insert_cell_view;
use crate::row::row_insert_view;
use crate::row::row_texts;
use crate::text::join_with;
use crate::text::lines_of;
use crate::text::split_on;

verus! {

/// A cell exists at `p` iff the row index and, within that row, the column
/// index are in bounds.  This predicate gates every read and the
/// bounds-sensitive writes.
pub open spec fn grid_exists(g: Seq<Seq<CellView>>, p: Position) -> bool {
    (p.y as int) < g.len() && (p.x as int) < g[p.y as int].len()
}

/// The query occurs in the display string of the cell at `(y, x)`.
pub open spec fn grid_matches(g: Seq<Seq<CellView>>, q: Seq<char>, y: int, x: int) -> bool {
    cell_matches(g[y][x], q)
}

/// The coordinates a forward search starting at `from` walks, in
/// lexicographic order: the rest of the starting row, then every following
/// row from column zero.
pub open spec fn fwd_scanned(g: Seq<Seq<CellView>>, from: Position, y: int, x: int) -> bool {
    from.y <= y < g.len() && 0 <= x < g[y].len() && (y == from.y ==> from.x <= x)
}

/// The coordinates a backward search starting at `from` walks: the columns
/// below `from.x` in the starting row (none when `from.x` lies beyond that
/// row), then every earlier row in full, later coordinates first.
pub open spec fn bwd_scanned(g: Seq<Seq<CellView>>, from: Position, y: int, x: int) -> bool {
    0 <= y <= from.y && y < g.len() && 0 <= x < g[y].len() && (y == from.y ==> x < from.x
        && from.x <= g[y].len())
}

/// `g` padded with empty rows up to `n` rows.
pub open spec fn pad_rows(g: Seq<Seq<CellView>>, n: int) -> Seq<Seq<CellView>> {
    g + Seq::new((n - g.len()) as nat, |i: int| Seq::<CellView>::empty())
}

/// The grid after a character insert at `at`: pad with rows up to `at.y` if
/// needed, then insert into that row.
pub open spec fn doc_insert_view(g: Seq<Seq<CellView>>, at: Position, c: char) -> Seq<
    Seq<CellView>,
> {
    let p = if (at.y as int) < g.len() {
        g
    } else {
        pad_rows(g, at.y + 1)
    };
    p.update(at.y as int, row_insert_view(p[at.y as int], at.x as int, c))
}

/// The grid after a whole-cell overwrite at `at`.
pub open spec fn doc_insert_cell_view(g: Seq<Seq<CellView>>, at: Position, cv: CellView) -> Seq<
    Seq<CellView>,
> {
    let p = if (at.y as int) < g.len() {
        g
    } else {
        pad_rows(g, at.y + 1)
    };
    p.update(at.y as int, row_insert_cell_view(p[at.y as int], at.x as int, cv))
}

/// The grid after a delete at `at`: a no-op when the row is out of bounds.
pub open spec fn doc_delete_view(g: Seq<Seq<CellView>>, at: Position) -> Seq<Seq<CellView>> {
    if (at.y as int) < g.len() {
        g.update(at.y as int, row_delete_view(g[at.y as int], at.x as int))
    } else {
        g
    }
}

/// The grid after a float promotion at `at`: when a cell exists there and
/// holds marker-prefixed text, it becomes a float with the given rendering;
/// otherwise nothing changes.
pub open spec fn doc_promote_view(g: Seq<Seq<CellView>>, at: Position, rend: Seq<char>) -> Seq<
    Seq<CellView>,
> {
    if grid_exists(g, at) && marker_literal(g[at.y as int][at.x as int].val) is Some {
        g.update(
            at.y as int,
            g[at.y as int].update(
                at.x as int,
                CellView { val: ValueView::Float(rend), pos: g[at.y as int][at.x as int].pos },
            ),
        )
    } else {
        g
    }
}

/// The widest row length — the grid's visual width, even though rows may be
/// jagged.
pub open spec fn grid_width(g: Seq<Seq<CellView>>) -> int
    decreases g.len(),
{
    if g.len() == 0 {
        0
    } else {
        let w = grid_width(g.drop_last());
        if g.last().len() > w {
            g.last().len() as int
        } else {
            w
        }
    }
}

/// A non-empty grid attains its width on some row.
pub proof fn lemma_grid_width_attained(g: Seq<Seq<CellView>>)
    requires
        g.len() > 0,
    ensures
        exists|i: int| 0 <= i < g.len() && (#[trigger] g[i]).len() == grid_width(g),
    decreases g.len(),
{
    if g.len() == 1 {
        assert(g.drop_last().len() == 0);
        assert(grid_width(g.drop_last()) == 0);
        if g.last().len() > 0 {
            assert(g[0].len() == grid_width(g));
        } else {
            assert(g[0].len() == grid_width(g));
        }
    } else {
        let h = g.drop_last();
        lemma_grid_width_attained(h);
        if g.last().len() > grid_width(h) {
            assert(g[g.len() - 1].len() == grid_width(g));
        } else {
            let i = choose|i: int| 0 <= i < h.len() && (#[trigger] h[i]).len() == grid_width(h);
            assert(g[i] == h[i]);
            assert(g[i].len() == grid_width(g));
        }
    }
}

pub proof fn lemma_grid_width_ge(g: Seq<Seq<CellView>>, i: int)
    requires
        0 <= i < g.len(),
    ensures
        g[i].len() <= grid_width(g),
    decreases g.len(),
{
    if i < g.len() - 1 {
        lemma_grid_width_ge(g.drop_last(), i);
    }
}

/// The persisted text of a grid: each row's cell texts joined with `;`,
/// every row followed by a newline.
pub open spec fn doc_text_of(g: Seq<Seq<CellView>>) -> Seq<char>
    decreases g.len(),
{
    if g.len() == 0 {
        Seq::empty()
    } else {
        join_with(row_texts(g[0]), seq![';']) + seq!['\n'] + doc_text_of(g.drop_first())
    }
}

pub proof fn lemma_doc_text_push(g: Seq<Seq<CellView>>, r: Seq<CellView>)
    ensures
        doc_text_of(g.push(r)) == doc_text_of(g) + join_with(row_texts(r), seq![';'])
            + seq!['\n'],
    decreases g.len(),
{
    if g.len() == 0 {
        assert(g.push(r)[0] == r);
        assert(g.push(r).drop_first() =~~= Seq::<Seq<CellView>>::empty());
        assert(doc_text_of(Seq::<Seq<CellView>>::empty()) == Seq::<char>::empty());
        assert(doc_text_of(g.push(r)) =~= join_with(row_texts(r), seq![';']) + seq!['\n']);
        assert(doc_text_of(g) + join_with(row_texts(r), seq![';']) + seq!['\n'] =~= join_with(
            row_texts(r),
            seq![';'],
        ) + seq!['\n']);
    } else {
        lemma_doc_text_push(g.drop_first(), r);
        assert(g.push(r).drop_first() =~~= g.drop_first().push(r));
        assert(g.push(r)[0] == g[0]);
        assert(doc_text_of(g.push(r)) =~= join_with(row_texts(g[0]), seq![';']) + seq!['\n'] + (
        doc_text_of(g.drop_first()) + join_with(row_texts(r), seq![';']) + seq!['\n']));
        assert(doc_text_of(g) + join_with(row_texts(r), seq![';']) + seq!['\n'] =~= join_with(
            row_texts(g[0]),
            seq![';'],
        ) + seq!['\n'] + (doc_text_of(g.drop_first()) + join_with(row_texts(r), seq![';'])
            + seq!['\n']));
    }
}

/// The grid a text parses to: one row per line, one text cell per
/// `;`-separated token.  No numeric coercion happens on load: tokens become
/// text cells even when a formula marker is present.
pub open spec fn parse_grid(s: Seq<char>) -> Seq<Seq<CellView>> {
    lines_of(s).map(
        |i: int, l: Seq<char>|
            split_on(l, ';').map(
                |j: int, t: Seq<char>|
                    CellView { val: ValueView::Text(t), pos: Position { x: 0, y: 0 } },
            ),
    )
}

/// The persisted line of one row: its cell texts joined with `;`.
pub open spec fn line_of(r: Seq<CellView>) -> Seq<char> {
    join_with(row_texts(r), seq![';'])
}

/// Splitting the persisted text on newlines gives every row's line and a
/// final empty piece, provided no line contains a newline itself.
proof fn lemma_doc_text_split(g: Seq<Seq<CellView>>)
    requires
        forall|yy: int, k: int|
            0 <= yy < g.len() && 0 <= k < line_of(g[yy]).len() ==> #[trigger] line_of(g[yy])[k]
                != '\n',
    ensures
        split_on(doc_text_of(g), '\n') == g.map(|i: int, r: Seq<CellView>| line_of(r)).push(
            Seq::<char>::empty(),
        ),
    decreases g.len(),
{
    if g.len() == 0 {
        assert(doc_text_of(g) == Seq::<char>::empty());
        assert(split_on(Seq::<char>::empty(), '\n') == seq![Seq::<char>::empty()]);
        assert(g.map(|i: int, r: Seq<CellView>| line_of(r)).push(Seq::<char>::empty()) =~~= seq![
            Seq::<char>::empty(),
        ]);
    } else {
        let rest = g.drop_first();
        assert forall|yy: int, k: int|
            0 <= yy < rest.len() && 0 <= k < line_of(rest[yy]).len() implies #[trigger] line_of(
            rest[yy],
        )[k] != '\n' by {
            assert(rest[yy] == g[yy + 1]);
        }
        lemma_doc_text_split(rest);
        let line0 = line_of(g[0]);
        assert(doc_text_of(g) =~= line0 + seq!['\n'] + doc_text_of(rest));
        crate::text::lemma_split_on_prefix(line0, doc_text_of(rest), '\n');
        assert(split_on(doc_text_of(g), '\n') == seq![line0] + split_on(doc_text_of(rest), '\n'));
        assert(seq![line0] + rest.map(|i: int, r: Seq<CellView>| line_of(r)).push(
            Seq::<char>::empty(),
        ) =~~= g.map(|i: int, r: Seq<CellView>| line_of(r)).push(Seq::<char>::empty()));
    }
}

/// The grid as a whole, with the backing file path it was opened from (if
/// any).
pub struct Document {
    pub rows: Vec<Row>,
    pub file_name: Option<String>,
    pub len: usize,
}

impl View for Document {
    type V = Seq<Seq<CellView>>;

    open spec fn view(&self) -> Seq<Seq<CellView>> {
        self.rows@.map(|i: int, r: Row| r@)
    }
}

impl Default for Document {
    fn default() -> (r: Self)
        ensures
            r.wf(),
            r@ == Seq::<Seq<CellView>>::empty(),
            r.len == 0,
            r.file_name is None,
    {
        let r = Document { rows: Vec::new(), file_name: Option::None, len: 0 };
        proof {
            assert(r@ =~= Seq::<Seq<CellView>>::empty());
        }
        r
    }
}

impl Document {
    /// The cached length equals the number of rows, and every row's cached
    /// length equals its number of cells.
    pub open spec fn wf(&self) -> bool {
        self.len == self.rows@.len() && forall|i: int|
            0 <= i < self.rows@.len() ==> (#[trigger] self.rows@[i]).wf()
    }

    /// Append one default (empty) row.
    pub fn add_row(&mut self)
        requires
            old(self).wf(),
        ensures
            final(self).wf(),
            final(self)@ == old(self)@.push(Seq::<CellView>::empty()),
            final(self).len == old(self).len + 1,
            final(self).file_name == old(self).file_name,
    {
        self.rows.push(Row::default());
        self.len = self.rows.len();
        proof {
            assert(self@ =~= old(self)@.push(Seq::<CellView>::empty()));
        }
    }

    /// Append `n` default rows.
    pub fn fill(&mut self, n: usize)
        requires
            old(self).wf(),
        ensures
            final(self).wf(),
            final(self)@ == pad_rows(old(self)@, old(self)@.len() + n),
            final(self).len == old(self).len + n,
            final(self).file_name == old(self).file_name,
    {
        let mut i: usize = 0;
        proof {
            assert(self@ =~= pad_rows(old(self)@, old(self)@.len() as int));
        }
        while i < n
            invariant
                i <= n,
                self.wf(),
                self.len == old(self).len + i,
                self.file_name == old(self).file_name,
                self@ == pad_rows(old(self)@, old(self)@.len() + i),
            decreases n - i,
        {
            let ghost prev = self@;
            self.add_row();
            proof {
                assert(self@ =~= pad_rows(old(self)@, old(self)@.len() + i + 1));
            }
            i = i + 1;
        }
    }

    /// Whether a cell exists at `p`: the row index and, within that row,
    /// the column index are both in bounds.
    pub fn cell_exist(&self, p: &Position) -> (r: bool)
        requires
            self.wf(),
        ensures
            r == grid_exists(self@, *p),
    {
        p.y < self.len && p.x < self.rows[p.y].len
    }

    /// The cell at `p`, or nothing when the coordinate is out of range.
    pub fn get_cell(&self, p: &Position) -> (r: Option<&Cell>)
        requires
            self.wf(),
        ensures
            match r {
                Some(c) => grid_exists(self@, *p) && c@ == self@[p.y as int][p.x as int],
                None => !grid_exists(self@, *p),
            },
    {
        if p.y < self.len && p.x < self.rows[p.y].len {
            Option::Some(&self.rows[p.y].cells[p.x])
        } else {
            Option::None
        }
    }

    /// Insert a character at `at`, growing the document and the addressed
    /// row first when the coordinate is beyond the current bounds.  After
    /// the call a cell exists at `at`, and every newly created cell other
    /// than the target is empty.
    pub fn insert(&mut self, at: &Position, c: char)
        requires
            old(self).wf(),
            at.x < usize::MAX,
            at.y < usize::MAX,
        ensures
            final(self).wf(),
            final(self)@ == doc_insert_view(old(self)@, *at, c),
            final(self).file_name == old(self).file_name,
            grid_exists(final(self)@, *at),
            forall|yy: int, xx: int|
                0 <= yy < final(self)@.len() && 0 <= xx < final(self)@[yy].len() && !(0 <= yy
                    < old(self)@.len() && xx < old(self)@[yy].len()) && !(yy == at.y as int && xx
                    == at.x as int) ==> (#[trigger] final(self)@[yy][xx]).val is Empty,
            forall|yy: int, xx: int|
                0 <= yy < old(self)@.len() && 0 <= xx < old(self)@[yy].len() && !(yy == at.y as int
                    && xx == at.x as int) ==> #[trigger] final(self)@[yy][xx] == old(
                    self,
                )@[yy][xx],
    {
        if self.rows.len() <= at.y {
            let n = at.y - self.len + 1;
            self.fill(n);
            proof {
                assert(self@ == pad_rows(old(self)@, at.y + 1));
            }
        }
        let ghost padded = self@;
        self.rows[at.y].insert(c, at.x);
        proof {
            assert(self@ =~= padded.update(
                at.y as int,
                row_insert_view(padded[at.y as int], at.x as int, c),
            ));
            assert(self@ == doc_insert_view(old(self)@, *at, c));
            let fin = self@;
            let oldg = old(self)@;
            assert(grid_exists(fin, *at));
            assert forall|yy: int, xx: int|
                0 <= yy < fin.len() && 0 <= xx < fin[yy].len() && !(0 <= yy < oldg.len() && xx
                    < oldg[yy].len()) && !(yy == at.y as int && xx == at.x as int) implies (
            #[trigger] fin[yy][xx]).val is Empty by {
                if yy != at.y as int {
                    assert(fin[yy] =~= Seq::<CellView>::empty());
                } else {
                    let base = padded[at.y as int];
                    let p = if (at.x as int) < base.len() {
                        base
                    } else {
                        pad_cells(base, at.x + 1)
                    };
                    assert(fin[yy] == p.update(
                        at.x as int,
                        CellView {
                            val: crate::cell::vinsert(p[at.x as int].val, c),
                            pos: p[at.x as int].pos,
                        },
                    ));
                    assert(fin[yy][xx] == p[xx]);
                    assert(p[xx] == crate::cell::default_cell_view());
                }
            }
            assert forall|yy: int, xx: int|
                0 <= yy < oldg.len() && 0 <= xx < oldg[yy].len() && !(yy == at.y as int && xx
                    == at.x as int) implies #[trigger] fin[yy][xx] == oldg[yy][xx] by {
                if yy != at.y as int {
                    assert(fin[yy] == oldg[yy]);
                } else {
                    let base = padded[at.y as int];
                    assert(base == oldg[yy]);
                    let p = if (at.x as int) < base.len() {
                        base
                    } else {
                        pad_cells(base, at.x + 1)
                    };
                    assert(fin[yy][xx] == p[xx]);
                    assert(p[xx] == oldg[yy][xx]);
                }
            }
        }
    }

    /// Overwrite the cell at `at` with a copy of the given cell, growing
    /// the document and the addressed row first when needed.
    pub fn insert_cell(&mut self, at: &Position, cell: &Cell)
        requires
            old(self).wf(),
            at.x < usize::MAX,
            at.y < usize::MAX,
        ensures
            final(self).wf(),
            final(self)@ == doc_insert_cell_view(old(self)@, *at, cell@),
            final(self).file_name == old(self).file_name,
            grid_exists(final(self)@, *at),
            final(self)@[at.y as int][at.x as int] == cell@,
    {
        if self.rows.len() <= at.y {
            let n = at.y - self.len + 1;
            self.fill(n);
            proof {
                assert(self@ == pad_rows(old(self)@, at.y + 1));
            }
        }
        let ghost padded = self@;
        self.rows[at.y].insert_cell(at.x, cell);
        proof {
            assert(self@ =~= padded.update(
                at.y as int,
                row_insert_cell_view(padded[at.y as int], at.x as int, cell@),
            ));
            assert(self@ == doc_insert_cell_view(old(self)@, *at, cell@));
        }
    }

    /// Delete at `at`: a no-op when no cell exists there (the document
    /// neither grows nor changes), otherwise the addressed cell's text
    /// loses its last character.
    pub fn delete(&mut self, at: &Position)
        requires
            old(self).wf(),
        ensures
            final(self).wf(),
            final(self)@ == doc_delete_view(old(self)@, *at),
            final(self).len == old(self).len,
            final(self).file_name == old(self).file_name,
            !grid_exists(old(self)@, *at) ==> final(self)@ == old(self)@,
    {
        if self.rows.len() <= at.y {
            return ;
        }
        let ghost prev = self@;
        self.rows[at.y].delete(at.x);
        proof {
            assert(self@ =~= prev.update(
                at.y as int,
                row_delete_view(prev[at.y as int], at.x as int),
            ));
            if !grid_exists(prev, *at) {
                assert(row_delete_view(prev[at.y as int], at.x as int) == prev[at.y as int]);
                assert(self@ =~= prev);
            }
        }
    }
    /// The widest row length: the grid's visual width, 0 for an empty
    /// document.
    pub fn col_count(&self) -> (r: usize)
        requires
            self.wf(),
        ensures
            r == grid_width(self@),
            forall|i: int| 0 <= i < self@.len() ==> (#[trigger] self@[i]).len() <= r,
            r == 0 || exists|i: int| 0 <= i < self@.len() && (#[trigger] self@[i]).len() == r,
    {
        let mut width: usize = 0;
        let mut i: usize = 0;
        proof {
            assert(self@.take(0) =~= Seq::<Seq<CellView>>::empty());
        }
        while i < self.rows.len()
            invariant
                self.wf(),
                i <= self.rows@.len(),
                width == grid_width(self@.take(i as int)),
            decreases self.rows@.len() - i,
        {
            let l = self.rows[i].len;
            proof {
                let t = self@.take(i as int + 1);
                assert(t.drop_last() =~= self@.take(i as int));
                assert(t.last() == self@[i as int]);
                assert(self@[i as int].len() == l);
            }
            if l > width {
                width = l;
            }
            i = i + 1;
        }
        proof {
            assert(self@.take(self.rows@.len() as int) =~= self@);
            assert forall|k: int| 0 <= k < self@.len() implies (#[trigger] self@[k]).len() <= width
                by {
                lemma_grid_width_ge(self@, k);
            }
            if width != 0 {
                lemma_grid_width_attained(self@);
            }
        }
        width
    }

    /// Add one column: pad every row up to the current maximum row length,
    /// then append one more default cell to every row.  Afterwards every
    /// row's length equals the old maximum row length plus one — this is
    /// the one operation that makes the grid rectangular.
    pub fn add_column(&mut self)
        requires
            old(self).wf(),
            grid_width(old(self)@) < usize::MAX,
        ensures
            final(self).wf(),
            final(self)@.len() == old(self)@.len(),
            final(self).len == old(self).len,
            final(self).file_name == old(self).file_name,
            forall|yy: int|
                0 <= yy < final(self)@.len() ==> #[trigger] final(self)@[yy] == pad_cells(
                    old(self)@[yy],
                    grid_width(old(self)@) + 1,
                ),
            forall|yy: int|
                0 <= yy < final(self)@.len() ==> (#[trigger] final(self)@[yy]).len()
                    == grid_width(old(self)@) + 1,
    {
        let max_len = self.col_count();
        let mut i: usize = 0;
        while i < self.rows.len()
            invariant
                self.wf(),
                old(self).wf(),
                i <= self.rows@.len(),
                self.rows@.len() == old(self).rows@.len(),
                self.len == old(self).len,
                self.file_name == old(self).file_name,
                max_len == grid_width(old(self)@),
                max_len < usize::MAX,
                forall|k: int|
                    0 <= k < i ==> #[trigger] self@[k] == pad_cells(old(self)@[k], max_len + 1),
                forall|k: int| i <= k < self.rows@.len() ==> #[trigger] self@[k] == old(self)@[k],
            decreases self.rows@.len() - i,
        {
            let rl = self.rows[i].len;
            proof {
                lemma_grid_width_ge(old(self)@, i as int);
                assert(self@[i as int] == old(self)@[i as int]);
                assert(self@[i as int].len() == rl);
            }
            let n = max_len - rl + 1;
            let ghost prev = self@;
            self.rows[i].fill(n);
            proof {
                assert(self@ =~= prev.update(
                    i as int,
                    pad_cells(prev[i as int], prev[i as int].len() + n),
                ));
            }
            i = i + 1;
        }
        proof {
            assert forall|yy: int| 0 <= yy < self@.len() implies (#[trigger] self@[yy]).len()
                == grid_width(old(self)@) + 1 by {
                lemma_grid_width_ge(old(self)@, yy);
            }
        }
    }

    /// Remove the cell at column `at` from every row long enough to have
    /// one; shorter rows are left untouched, so the grid may become jagged
    /// again.
    pub fn del_col(&mut self, at: usize)
        requires
            old(self).wf(),
        ensures
            final(self).wf(),
            final(self)@.len() == old(self)@.len(),
            final(self).len == old(self).len,
            final(self).file_name == old(self).file_name,
            forall|yy: int|
                0 <= yy < old(self)@.len() ==> #[trigger] final(self)@[yy] == if (at as int) < old(
                    self,
                )@[yy].len() {
                    old(self)@[yy].remove(at as int)
                } else {
                    old(self)@[yy]
                },
    {
        let mut i: usize = 0;
        while i < self.rows.len()
            invariant
                self.wf(),
                old(self).wf(),
                i <= self.rows@.len(),
                self.rows@.len() == old(self).rows@.len(),
                self.len == old(self).len,
                self.file_name == old(self).file_name,
                forall|k: int|
                    0 <= k < i ==> #[trigger] self@[k] == if (at as int) < old(self)@[k].len() {
                        old(self)@[k].remove(at as int)
                    } else {
                        old(self)@[k]
                    },
                forall|k: int| i <= k < self.rows@.len() ==> #[trigger] self@[k] == old(self)@[k],
            decreases self.rows@.len() - i,
        {
            proof {
                assert(self@[i as int] == old(self)@[i as int]);
                assert(self@[i as int].len() == self.rows@[i as int].cells@.len());
            }
            if at < self.rows[i].len {
                let ghost prev = self@;
                let ghost prevrow = self.rows@[i as int];
                let _removed = self.rows[i].cells.remove(at);
                self.rows[i].len = self.rows[i].cells.len();
                proof {
                    assert(self.rows@[i as int].cells@ == prevrow.cells@.remove(at as int));
                    assert(self.rows@[i as int]@ =~= prevrow@.remove(at as int));
                    assert(self@ =~= prev.update(i as int, prevrow@.remove(at as int)));
                }
            }
            i = i + 1;
        }
    }

    /// Whether every existing cell in column `at` holds the empty value; a
    /// column with no existing cells at all is vacuously empty.
    pub fn is_col_empty(&self, at: usize) -> (r: bool)
        requires
            self.wf(),
        ensures
            r == (forall|yy: int|
                0 <= yy < self@.len() && (at as int) < self@[yy].len()
                    ==> (#[trigger] self@[yy][at as int]).val is Empty),
    {
        let mut i: usize = 0;
        while i < self.rows.len()
            invariant
                self.wf(),
                i <= self.rows@.len(),
                forall|yy: int|
                    0 <= yy < i && (at as int) < self@[yy].len()
                        ==> (#[trigger] self@[yy][at as int]).val is Empty,
            decreases self.rows@.len() - i,
        {
            if at < self.rows[i].len {
                if !self.rows[i].cells[at].val.is_empy() {
                    proof {
                        assert(!(self@[i as int][at as int].val is Empty));
                    }
                    return false;
                }
                proof {
                    assert(self@[i as int][at as int].val is Empty);
                }
            }
            i = i + 1;
        }
        true
    }

    /// Search the grid for `query` from `curr_position`.  Forward walks the
    /// rest of the starting row, then each following row from column zero;
    /// backward walks the starting row below the start column, then each
    /// earlier row from its end.  The coordinate of the first match in scan
    /// order is returned; a start below the grid or an empty query finds
    /// nothing.
    pub fn find(&self, query: &str, curr_position: &Position, direction: SearchDirection) -> (r:
        Option<Position>)
        requires
            self.wf(),
        ensures
            query@.len() == 0 ==> r is None,
            (curr_position.y as int) >= self@.len() ==> r is None,
            direction == SearchDirection::Forward ==> (match r {
                Some(p) => fwd_scanned(self@, *curr_position, p.y as int, p.x as int)
                    && grid_matches(self@, query@, p.y as int, p.x as int) && forall|
                    yy: int,
                    xx: int,
                |
                    fwd_scanned(self@, *curr_position, yy, xx) && (yy < p.y as int || (yy
                        == p.y as int && xx < p.x as int)) ==> !grid_matches(
                        self@,
                        query@,
                        yy,
                        xx,
                    ),
                None => query@.len() > 0 ==> forall|yy: int, xx: int|
                    fwd_scanned(self@, *curr_position, yy, xx) ==> !grid_matches(
                        self@,
                        query@,
                        yy,
                        xx,
                    ),
            }),
            direction == SearchDirection::Backward ==> (match r {
                Some(p) => (curr_position.y as int) < self@.len() && bwd_scanned(
                    self@,
                    *curr_position,
                    p.y as int,
                    p.x as int,
                ) && grid_matches(self@, query@, p.y as int, p.x as int) && forall|
                    yy: int,
                    xx: int,
                |
                    bwd_scanned(self@, *curr_position, yy, xx) && (yy > p.y as int || (yy
                        == p.y as int && xx > p.x as int)) ==> !grid_matches(
                        self@,
                        query@,
                        yy,
                        xx,
                    ),
                None => query@.len() > 0 && (curr_position.y as int) < self@.len() ==> forall|
                    yy: int,
                    xx: int,
                |
                    bwd_scanned(self@, *curr_position, yy, xx) ==> !grid_matches(
                        self@,
                        query@,
                        yy,
                        xx,
                    ),
            }),
    {
        if curr_position.y >= self.rows.len() {
            return Option::None;
        }
        if query.is_empty() {
            return Option::None;
        }
        match direction {
            SearchDirection::Forward => {
                let mut y: usize = curr_position.y;
                let mut x: usize = curr_position.x;
                while y < self.rows.len()
                    invariant
                        self.wf(),
                        direction == SearchDirection::Forward,
                        query@.len() > 0,
                        curr_position.y <= y,
                        y <= self@.len(),
                        (curr_position.y as int) < self@.len(),
                        y == curr_position.y ==> x == curr_position.x,
                        y > curr_position.y ==> x == 0,
                        forall|yy: int, xx: int|
                            fwd_scanned(self@, *curr_position, yy, xx) && yy < y
                                ==> !grid_matches(self@, query@, yy, xx),
                    decreases self@.len() - y,
                {
                    proof {
                        assert(self.rows@[y as int].wf());
                    }
                    let row = &self.rows[y];
                    proof {
                        assert(row@ == self@[y as int]);
                    }
                    match row.find(query, x, direction) {
                        Option::Some(cx) => {
                            proof {
                                assert(grid_matches(self@, query@, y as int, cx as int));
                                assert forall|yy: int, xx: int|
                                    fwd_scanned(self@, *curr_position, yy, xx) && (yy < y as int
                                        || (yy == y as int && xx < cx as int)) implies !grid_matches(
                                    self@,
                                    query@,
                                    yy,
                                    xx,
                                ) by {
                                    if yy == y as int {
                                        assert(x <= xx);
                                        assert(!cell_matches(self@[y as int][xx], query@));
                                    }
                                }
                            }
                            return Option::Some(Position { x: cx, y });
                        },
                        Option::None => {
                            proof {
                                assert forall|yy: int, xx: int|
                                    fwd_scanned(self@, *curr_position, yy, xx) && yy < y + 1 implies
                                    !grid_matches(self@, query@, yy, xx) by {
                                    if yy == y as int {
                                        assert(x <= xx);
                                        assert(!cell_matches(self@[y as int][xx], query@));
                                    }
                                }
                            }
                            y = y + 1;
                            x = 0;
                        },
                    }
                }
                Option::None
            },
            SearchDirection::Backward => {
                let mut y: usize = curr_position.y;
                let mut x: usize = curr_position.x;
                loop
                    invariant
                        self.wf(),
                        direction == SearchDirection::Backward,
                        query@.len() > 0,
                        y <= curr_position.y,
                        (curr_position.y as int) < self@.len(),
                        y == curr_position.y ==> x == curr_position.x,
                        y < curr_position.y ==> x as int == self@[y as int].len(),
                        forall|yy: int, xx: int|
                            bwd_scanned(self@, *curr_position, yy, xx) && yy > y
                                ==> !grid_matches(self@, query@, yy, xx),
                    decreases y,
                {
                    proof {
                        assert(self.rows@[y as int].wf());
                    }
                    let row = &self.rows[y];
                    proof {
                        assert(row@ == self@[y as int]);
                    }
                    match row.find(query, x, direction) {
                        Option::Some(cx) => {
                            proof {
                                assert(grid_matches(self@, query@, y as int, cx as int));
                                assert(bwd_scanned(self@, *curr_position, y as int, cx as int));
                                assert forall|yy: int, xx: int|
                                    bwd_scanned(self@, *curr_position, yy, xx) && (yy > y as int
                                        || (yy == y as int && xx > cx as int)) implies !grid_matches(
                                    self@,
                                    query@,
                                    yy,
                                    xx,
                                ) by {
                                    if yy == y as int {
                                        assert(xx < x);
                                        assert(!cell_matches(self@[y as int][xx], query@));
                                    }
                                }
                            }
                            return Option::Some(Position { x: cx, y });
                        },
                        Option::None => {
                            proof {
                                assert forall|yy: int, xx: int|
                                    bwd_scanned(self@, *curr_position, yy, xx) && yy >= y implies
                                    !grid_matches(self@, query@, yy, xx) by {
                                    if yy == y as int {
                                        assert(xx < x);
                                        assert(!cell_matches(self@[y as int][xx], query@));
                                    }
                                }
                            }
                            if y == 0 {
                                return Option::None;
                            }
                            y = y - 1;
                            proof {
                                assert(self.rows@[y as int].wf());
                            }
                            x = self.rows[y].len;
                        },
                    }
                }
            },
        }
    }

    /// The persisted text of the document: each row's cells joined with
    /// `;`, one row per line, every line ended by a newline.  The shell
    /// writes this text to the backing file when saving.
    pub fn to_text(&self) -> (r: String)
        requires
            self.wf(),
        ensures
            r@ == doc_text_of(self@),
    {
        let mut r = String::new();
        let mut i: usize = 0;
        proof {
            assert(self@.take(0) =~= Seq::<Seq<CellView>>::empty());
        }
        while i < self.rows.len()
            invariant
                self.wf(),
                i <= self.rows@.len(),
                r@ == doc_text_of(self@.take(i as int)),
            decreases self.rows@.len() - i,
        {
            let line = self.rows[i].stringify(";");
            r.append(line.as_str());
            r.append("\n");
            proof {
                reveal_strlit(";");
                reveal_strlit("\n");
                assert(";"@ =~= seq![';']);
                assert("\n"@ =~= seq!['\n']);
                assert(self.rows@[i as int]@ == self@[i as int]);
                let t = self@.take(i as int + 1);
                assert(t =~= self@.take(i as int).push(self@[i as int]));
                lemma_doc_text_push(self@.take(i as int), self@[i as int]);
                assert(r@ =~= doc_text_of(t));
            }
            i = i + 1;
        }
        proof {
            assert(self@.take(self.rows@.len() as int) =~= self@);
        }
        r
    }

    /// Parse the persisted text form: one row per line, one text cell per
    /// `;`-separated token.  No numeric coercion happens on load — tokens
    /// become text cells even when a formula marker is present; only
    /// interactive typing coerces.  The new document carries no file name;
    /// the shell records the path it read the text from.
    pub fn from_text(content: &str) -> (d: Document)
        ensures
            d.wf(),
            d@ == parse_grid(content@),
            d.file_name is None,
    {
        let lines = crate::text::split_lines(content);
        let mut rows: Vec<Row> = Vec::new();
        let mut i: usize = 0;
        while i < lines.len()
            invariant
                i <= lines@.len(),
                lines.deep_view() == lines_of(content@),
                rows@.len() == i,
                forall|k: int| 0 <= k < i ==> (#[trigger] rows@[k]).wf(),
                forall|k: int| 0 <= k < i ==> (#[trigger] rows@[k])@ == parse_grid(content@)[k],
            decreases lines@.len() - i,
        {
            proof {
                assert(lines@[i as int]@ == lines_of(content@)[i as int]);
            }
            let toks = crate::text::split_str(lines[i].as_str(), ';');
            let mut cells: Vec<Cell> = Vec::new();
            let mut j: usize = 0;
            while j < toks.len()
                invariant
                    j <= toks@.len(),
                    toks.deep_view() == split_on(lines_of(content@)[i as int], ';'),
                    0 <= (i as int) < lines_of(content@).len(),
                    cells@.len() == j,
                    forall|k: int|
                        0 <= k < j ==> (#[trigger] cells@[k])@ == (CellView {
                            val: ValueView::Text(toks.deep_view()[k]),
                            pos: Position { x: 0, y: 0 },
                        }),
                decreases toks@.len() - j,
            {
                proof {
                    assert(toks@[j as int]@ == toks.deep_view()[j as int]);
                }
                let tok = toks[j].clone();
                let cell = Cell::from(tok);
                cells.push(cell);
                j = j + 1;
            }
            let rl = cells.len();
            let row = Row { cells: cells, len: rl };
            proof {
                assert(row.wf());
                assert(row@ =~= parse_grid(content@)[i as int]);
            }
            rows.push(row);
            i = i + 1;
        }
        let n = rows.len();
        let d = Document { rows: rows, file_name: Option::None, len: n };
        proof {
            assert(lines_of(content@).len() == parse_grid(content@).len());
            assert(d@ =~= parse_grid(content@));
        }
        d
    }

    /// Saving and re-opening reproduces the grid's text content: parsing
    /// the persisted text yields a grid of the same shape whose every cell
    /// is a text cell holding the original cell's display string.  Types
    /// are not preserved — a numeric cell comes back as text.  The law
    /// holds for grids whose rows each have at least one cell and whose
    /// cell texts avoid the field separator and the line ending characters,
    /// which the format does not escape.
    pub proof fn lemma_save_open_round_trip(&self)
        requires
            self.wf(),
            forall|yy: int| 0 <= yy < self@.len() ==> (#[trigger] self@[yy]).len() > 0,
            forall|yy: int, xx: int, k: int|
                0 <= yy < self@.len() && 0 <= xx < self@[yy].len() && 0 <= k < render_v(
                    self@[yy][xx].val,
                ).len() ==> #[trigger] render_v(self@[yy][xx].val)[k] != ';' && render_v(
                    self@[yy][xx].val,
                )[k] != '\n' && render_v(self@[yy][xx].val)[k] != '\r',
        ensures
            parse_grid(doc_text_of(self@)).len() == self@.len(),
            forall|yy: int|
                0 <= yy < self@.len() ==> (#[trigger] parse_grid(doc_text_of(self@))[yy]).len()
                    == self@[yy].len(),
            forall|yy: int, xx: int|
                0 <= yy < self@.len() && 0 <= xx < self@[yy].len() ==> (#[trigger] parse_grid(
                    doc_text_of(self@),
                )[yy][xx]).val == ValueView::Text(render_v(self@[yy][xx].val)),
    {
        let g = self@;
        let text = doc_text_of(g);
        assert forall|yy: int, k: int|
            0 <= yy < g.len() && 0 <= k < line_of(g[yy]).len() implies #[trigger] line_of(g[yy])[k]
            != '\n' && line_of(g[yy])[k] != '\r' by {
            assert forall|xx: int, t: int|
                0 <= xx < row_texts(g[yy]).len() && 0 <= t < row_texts(g[yy])[xx].len() implies
                #[trigger] row_texts(g[yy])[xx][t] != '\n' && row_texts(g[yy])[xx][t] != '\r' by {
                assert(row_texts(g[yy])[xx] == render_v(g[yy][xx].val));
                assert(render_v(g[yy][xx].val)[t] != '\n' && render_v(g[yy][xx].val)[t] != '\r');
            }
            crate::text::lemma_join_with_avoids(row_texts(g[yy]), seq![';'], '\n');
            crate::text::lemma_join_with_avoids(row_texts(g[yy]), seq![';'], '\r');
        }
        lemma_doc_text_split(g);
        let lines = g.map(|i: int, r: Seq<CellView>| line_of(r));
        let p = split_on(text, '\n');
        assert(p == lines.push(Seq::<char>::empty()));
        assert(p.last().len() == 0);
        assert(p.drop_last() =~~= lines);
        assert forall|yy: int| 0 <= yy < lines.len() implies crate::text::strip_cr(
            #[trigger] lines[yy],
        ) == lines[yy] by {
            assert(lines[yy] == line_of(g[yy]));
            if lines[yy].len() > 0 {
                assert(lines[yy].last() != '\r');
            }
        }
        assert(lines_of(text) =~~= lines);
        assert forall|yy: int| 0 <= yy < g.len() implies split_on(#[trigger] lines[yy], ';')
            == row_texts(g[yy]) by {
            assert forall|xx: int, t: int|
                0 <= xx < row_texts(g[yy]).len() && 0 <= t < row_texts(g[yy])[xx].len() implies
                #[trigger] row_texts(g[yy])[xx][t] != ';' by {
                assert(row_texts(g[yy])[xx] == render_v(g[yy][xx].val));
                assert(render_v(g[yy][xx].val)[t] != ';');
            }
            assert(row_texts(g[yy]).len() == g[yy].len());
            crate::text::lemma_split_join(row_texts(g[yy]), ';');
        }
        assert(parse_grid(text).len() == g.len());
        assert forall|yy: int, xx: int| 0 <= yy < g.len() && 0 <= xx < g[yy].len() implies (
        #[trigger] parse_grid(text)[yy][xx]).val == ValueView::Text(render_v(g[yy][xx].val)) by {
            assert(parse_grid(text)[yy] == split_on(lines_of(text)[yy], ';').map(
                |j: int, t: Seq<char>|
                    CellView { val: ValueView::Text(t), pos: Position { x: 0, y: 0 } },
            ));
            assert(split_on(lines_of(text)[yy], ';') == row_texts(g[yy]));
            assert(row_texts(g[yy])[xx] == render_v(g[yy][xx].val));
        }
        assert forall|yy: int| 0 <= yy < g.len() implies (#[trigger] parse_grid(text)[yy]).len()
            == g[yy].len() by {
            assert(parse_grid(text)[yy] == split_on(lines_of(text)[yy], ';').map(
                |j: int, t: Seq<char>|
                    CellView { val: ValueView::Text(t), pos: Position { x: 0, y: 0 } },
            ));
            assert(split_on(lines_of(text)[yy], ';') == row_texts(g[yy]));
        }
    }

    /// If a cell exists at `at` and holds text beginning with the formula
    /// marker, the literal after the marker.
    pub fn coercion_literal(&self, at: &Position) -> (r: Option<String>)
        requires
            self.wf(),
        ensures
            r is Some <==> grid_exists(self@, *at) && marker_literal(
                self@[at.y as int][at.x as int].val,
            ) is Some,
            r matches Some(s) ==> s@ == marker_literal(self@[at.y as int][at.x as int].val)->0,
    {
        if at.y < self.len && at.x < self.rows[at.y].len {
            self.rows[at.y].cells[at.x].val.coercion_literal()
        } else {
            Option::None
        }
    }

    /// Promote the cell at `at` to a float carrying the given rendering,
    /// when a cell exists there and holds marker-prefixed text; otherwise
    /// nothing changes.  The numeric parse that justifies the promotion is
    /// the caller's business (it involves floating point).
    pub fn promote(&mut self, at: &Position, rendering: String)
        requires
            old(self).wf(),
        ensures
            final(self).wf(),
            final(self)@ == doc_promote_view(old(self)@, *at, rendering@),
            final(self).len == old(self).len,
            final(self).file_name == old(self).file_name,
    {
        if at.y < self.len && at.x < self.rows[at.y].len {
            let ghost prev = self@;
            let ghost prevrow = self@[at.y as int];
            let ghost prevcell = self@[at.y as int][at.x as int];
            self.rows[at.y].cells[at.x].val.promote(rendering);
            proof {
                assert(self.rows@[at.y as int]@ =~= prevrow.update(
                    at.x as int,
                    CellView {
                        val: self.rows@[at.y as int].cells@[at.x as int].val@,
                        pos: prevcell.pos,
                    },
                ));
                assert(self@ =~= prev.update(at.y as int, self.rows@[at.y as int]@));
                if marker_literal(prevcell.val) is Some {
                    assert(self@ =~= doc_promote_view(prev, *at, rendering@));
                } else {
                    assert(self.rows@[at.y as int]@ =~= prevrow);
                    assert(self@ =~= prev);
                }
            }
        }
    }
}

} // verus!
