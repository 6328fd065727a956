//! A row: an ordered, growable sequence of cells.
//!
//! Rows grow monotonically: writing at a column beyond the current bounds
//! first pads the row with default (empty) cells.  The cached `len` field
//! always equals the number of cells.

use vstd::prelude::*;

use crate::cell::Cell;
use crate::cell::CellView;
use crate::cell::cell_matches;
use crate::cell::default_cell_view;
use crate::cell::render_v;
use crate::cell::vdelete;
use crate::cell::vinsert;
use crate::editor::SearchDirection;
use crate::text::join_with;
use crate::text::lemma_join_with_push;
use crate::text::str_contains;

verus! {

/// The token texts of a row: each cell's full display string, in column
/// order.
pub open spec fn row_texts(cells: Seq<CellView>) -> Seq<Seq<char>> {
    cells.map(|i: int, c: CellView| render_v(c.val))
}

/// `cells` padded with default cells up to length `n`.
pub open spec fn pad_cells(cells: Seq<CellView>, n: int) -> Seq<CellView> {
    cells + Seq::new((n - cells.len()) as nat, |i: int| default_cell_view())
}

/// The cells of a row after a character insert at column `at`: the row is
/// padded up to the column if needed, then the cell there takes the
/// character under the value rules.
pub open spec fn row_insert_view(cells: Seq<CellView>, at: int, c: char) -> Seq<CellView> {
    let p = if at < cells.len() {
        cells
    } else {
        pad_cells(cells, at + 1)
    };
    p.update(at, CellView { val: vinsert(p[at].val, c), pos: p[at].pos })
}

/// The cells of a row after a whole-cell overwrite at column `at`: the row
/// is padded up to the column if needed, then the cell there is replaced.
pub open spec fn row_insert_cell_view(cells: Seq<CellView>, at: int, cv: CellView) -> Seq<
    CellView,
> {
    let p = if at < cells.len() {
        cells
    } else {
        pad_cells(cells, at + 1)
    };
    p.update(at, cv)
}

/// The cells of a row after a delete at column `at`: out of bounds is a
/// no-op, otherwise the cell's value loses its last text character.
pub open spec fn row_delete_view(cells: Seq<CellView>, at: int) -> Seq<CellView> {
    if 0 <= at < cells.len() {
        cells.update(at, CellView { val: vdelete(cells[at].val), pos: cells[at].pos })
    } else {
        cells
    }
}

/// The row's debug rendering: every display string followed by `" | "`.
pub open spec fn row_render_view(cells: Seq<CellView>) -> Seq<char>
    decreases cells.len(),
{
    if cells.len() == 0 {
        Seq::empty()
    } else {
        row_render_view(cells.drop_last()) + render_v(cells.last().val) + seq![' ', '|', ' ']
    }
}

/// An ordered, growable sequence of cells.
pub struct Row {
    pub cells: Vec<Cell>,
    pub len: usize,
}

impl View for Row {
    type V = Seq<CellView>;

    open spec fn view(&self) -> Seq<CellView> {
        self.cells@.map(|i: int, c: Cell| c@)
    }
}

impl Default for Row {
    fn default() -> (r: Self)
        ensures
            r.wf(),
            r@ == Seq::<CellView>::empty(),
            r.len == 0,
    {
        let r = Row { cells: Vec::new(), len: 0 };
        proof {
            assert(r@ =~= Seq::<CellView>::empty());
        }
        r
    }
}

impl Row {
    /// The cached length always equals the number of cells.
    pub open spec fn wf(&self) -> bool {
        self.len == self.cells@.len()
    }

    /// Append `n` default cells.
    pub fn fill(&mut self, n: usize)
        requires
            old(self).wf(),
        ensures
            final(self).wf(),
            final(self)@ == pad_cells(old(self)@, old(self)@.len() + n),
            final(self).len == old(self).len + n,
    {
        let mut i: usize = 0;
        proof {
            assert(self@ =~= pad_cells(old(self)@, old(self)@.len() as int));
        }
        while i < n
            invariant
                i <= n,
                old(self).wf(),
                self.cells@.len() == old(self).cells@.len() + i,
                self@ == pad_cells(old(self)@, old(self)@.len() + i),
        decreases n - i,
        {
            let ghost prev = self@;
            self.cells.push(Cell::default());
            proof {
                assert(self@ =~= prev.push(default_cell_view()));
                assert(self@ =~= pad_cells(old(self)@, old(self)@.len() + i + 1));
            }
            i = i + 1;
        }
        self.len = self.cells.len();
        proof {
            assert(old(self).len + n <= usize::MAX) by {
                assert(self.cells@.len() <= usize::MAX);
            }
        }
    }

    /// Insert a character at column `at`, growing the row first when the
    /// column is beyond the current bounds.
    pub fn insert(&mut self, c: char, at: usize)
        requires
            old(self).wf(),
            at < usize::MAX,
        ensures
            final(self).wf(),
            final(self)@ == row_insert_view(old(self)@, at as int, c),
            final(self)@.len() == if at < old(self)@.len() {
                old(self)@.len() as int
            } else {
                at + 1
            },
    {
        if self.len <= at {
            let n = at - self.len + 1;
            self.fill(n);
            proof {
                assert(self@ == pad_cells(old(self)@, at + 1));
            }
        }
        let ghost padded = self@;
        self.cells[at].insert(c);
        proof {
            assert(self@ =~= padded.update(
                at as int,
                CellView { val: vinsert(padded[at as int].val, c), pos: padded[at as int].pos },
            ));
        }
    }

    /// Overwrite (not merge) the cell at column `at` with a copy of the
    /// given cell, growing the row first when needed.
    pub fn insert_cell(&mut self, at: usize, cell: &Cell)
        requires
            old(self).wf(),
            at < usize::MAX,
        ensures
            final(self).wf(),
            final(self)@ == row_insert_cell_view(old(self)@, at as int, cell@),
    {
        if self.len <= at {
            let n = at - self.len + 1;
            self.fill(n);
            proof {
                assert(self@ == pad_cells(old(self)@, at + 1));
            }
        }
        let ghost padded = self@;
        let cl = cell.clone();
        self.cells[at] = cl;
        proof {
            assert(self@ =~= padded.update(at as int, cell@));
        }
    }

    /// Delete at column `at`: a no-op when the column is out of bounds,
    /// otherwise the cell's text loses its last character (the column only
    /// selects the cell; deletion always trims the end).
    pub fn delete(&mut self, at: usize)
        requires
            old(self).wf(),
        ensures
            final(self).wf(),
            final(self).len == old(self).len,
            final(self)@ == row_delete_view(old(self)@, at as int),
    {
        if self.cells.len() <= at {
            return ;
        }
        let ghost prev = self@;
        let n = self.cells[at].val.len();
        self.cells[at].delete(n);
        proof {
            assert(self@ =~= row_delete_view(prev, at as int));
        }
    }

    /// Search the cells' display strings for `query`.  Forward scans the
    /// columns from `at` upward and backward scans the columns below `at`
    /// downward; either way the first match in scan order is returned.  A
    /// start beyond the row or an empty query finds nothing.
    pub fn find(&self, query: &str, at: usize, direction: SearchDirection) -> (r: Option<usize>)
        requires
            self.wf(),
        ensures
            at > self.len || query@.len() == 0 ==> r is None,
            r matches Some(i) ==> query@.len() > 0 && at <= self@.len() && (i as int)
                < self@.len(),
            direction == SearchDirection::Forward ==> (match r {
                Some(i) => at <= i && cell_matches(self@[i as int], query@) && forall|j: int|
                    at <= j < i ==> !cell_matches(self@[j], query@),
                None => query@.len() > 0 ==> forall|j: int|
                    at <= j < self@.len() ==> !cell_matches(self@[j], query@),
            }),
            direction == SearchDirection::Backward ==> (match r {
                Some(i) => (i as int) < at && cell_matches(self@[i as int], query@) && forall|
                    j: int,
                |
                    i < j < at ==> !cell_matches(self@[j], query@),
                None => query@.len() > 0 && at <= self@.len() ==> forall|j: int|
                    0 <= j < at ==> !cell_matches(self@[j], query@),
            }),
    {
        if at > self.len || query.is_empty() {
            return Option::None;
        }
        match direction {
            SearchDirection::Forward => {
                let mut i: usize = at;
                while i < self.cells.len()
                    invariant
                        self.wf(),
                        direction == SearchDirection::Forward,
                        query@.len() > 0,
                        at <= i <= self@.len(),
                        forall|j: int| at <= j < i ==> !cell_matches(self@[j], query@),
                    decreases self@.len() - i,
                {
                    let s = self.cells[i].val.display();
                    if str_contains(s.as_str(), query) {
                        proof {
                            assert(cell_matches(self@[i as int], query@));
                        }
                        return Option::Some(i);
                    }
                    proof {
                        assert(!cell_matches(self@[i as int], query@));
                    }
                    i = i + 1;
                }
                Option::None
            },
            SearchDirection::Backward => {
                let mut i: usize = at;
                while i > 0
                    invariant
                        self.wf(),
                        direction == SearchDirection::Backward,
                        query@.len() > 0,
                        i <= at <= self@.len(),
                        forall|j: int| i <= j < at ==> !cell_matches(self@[j], query@),
                    decreases i,
                {
                    i = i - 1;
                    let s = self.cells[i].val.display();
                    if str_contains(s.as_str(), query) {
                        proof {
                            assert(cell_matches(self@[i as int], query@));
                        }
                        return Option::Some(i);
                    }
                    proof {
                        assert(!cell_matches(self@[i as int], query@));
                    }
                }
                Option::None
            },
        }
    }

    /// The row's debug rendering: every display string followed by `" | "`.
    pub fn render(&self) -> (r: String)
        ensures
            r@ == row_render_view(self@),
    {
        let mut result = String::new();
        let mut i: usize = 0;
        proof {
            assert(self@.take(0) =~= Seq::<CellView>::empty());
        }
        while i < self.cells.len()
            invariant
                i <= self.cells@.len(),
                result@ == row_render_view(self@.take(i as int)),
            decreases self.cells@.len() - i,
        {
            let s = self.cells[i].val.display();
            result.append(s.as_str());
            result.append(" | ");
            proof {
                reveal_strlit(" | ");
                let t = self@.take(i as int + 1);
                assert(t.drop_last() =~= self@.take(i as int));
                assert(t.last() == self@[i as int]);
                assert(result@ =~= row_render_view(t));
            }
            i = i + 1;
        }
        proof {
            assert(self@.take(self.cells@.len() as int) =~= self@);
        }
        result
    }

    /// The persisted form of the row: every cell's full display string,
    /// joined with the separator in column order.
    pub fn stringify(&self, sep: &str) -> (r: String)
        ensures
            r@ == join_with(row_texts(self@), sep@),
    {
        let mut r = String::new();
        let mut i: usize = 0;
        proof {
            assert(row_texts(self@.take(0)) =~= Seq::<Seq<char>>::empty());
        }
        while i < self.cells.len()
            invariant
                i <= self.cells@.len(),
                r@ == join_with(row_texts(self@.take(i as int)), sep@),
            decreases self.cells@.len() - i,
        {
            if i > 0 {
                r.append(sep);
            }
            let s = self.cells[i].val.display();
            r.append(s.as_str());
            proof {
                lemma_join_with_push(
                    row_texts(self@.take(i as int)),
                    sep@,
                    render_v(self@[i as int].val),
                );
                assert(row_texts(self@.take(i as int + 1)) =~~= row_texts(
                    self@.take(i as int),
                ).push(render_v(self@[i as int].val)));
            }
            i = i + 1;
        }
        proof {
            assert(self@.take(self.cells@.len() as int) =~= self@);
        }
        r
    }
}

} // verus!
