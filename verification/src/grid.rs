//! Uniform spatial grid for the broad collision phase.
//!
//! The grid is a flat, pre-sized two-dimensional array of cells over the
//! world rectangle; each cell holds the indices of the bodies whose bounding
//! squares overlap it during the current frame.  Clearing the grid advances
//! a single epoch stamp instead of touching every cell: a cell's contents
//! count only while its stamp equals the grid's (lazy clearing).  Queries
//! de-duplicate their result through a dense mark array backed by a hash-set
//! fallback for indices beyond the array's bound.
//!
//! The mapping from world coordinates to cell columns and rows is the
//! caller's: this module works on inclusive column/row ranges alone.

use vstd::prelude::*;

verus! {

broadcast use vstd::seq_lib::lemma_seq_contains_after_push;

// ---------------------------------------------------------------------------
// Trusted declarations for the two outside collections the grid is built on.
// ---------------------------------------------------------------------------

/// Body-index list of one cell, backed by smallvec's inline-capacity vector.
/// Verus cannot declare `SmallVec`'s `Array` bound, so the collection sits in
/// an opaque struct whose contents are named by `small_vec_items`.
#[verifier::external_body]
pub struct IndexList {
    items: smallvec::SmallVec<[usize; 2]>,
}

#[verifier::external_type_specification]
#[verifier::external_body]
#[verifier::reject_recursive_types(T)]
#[verifier::reject_recursive_types(S)]
pub struct ExAHashSet<T, S>(ahash::AHashSet<T, S>);

#[verifier::external_type_specification]
#[verifier::external_body]
pub struct ExRandomState(ahash::RandomState);

/// The elements a small vector of body indices holds, in order.
pub uninterp spec fn small_vec_items(v: IndexList) -> Seq<usize>;

/// The elements a hash set of body indices holds.
pub uninterp spec fn hash_set_items(s: ahash::AHashSet<usize>) -> Set<usize>;

/// Relies on smallvec::SmallVec::new: a fresh vector is empty.
#[verifier::external_body]
fn sv_new() -> (r: IndexList)
    ensures
        small_vec_items(r) == Seq::<usize>::empty(),
{
    IndexList { items: smallvec::SmallVec::new() }
}

/// Relies on smallvec::SmallVec::push: appends the value at the end.
#[verifier::external_body]
fn sv_push(v: &mut IndexList, value: usize)
    ensures
        small_vec_items(*final(v)) == small_vec_items(*old(v)).push(value),
{
    v.items.push(value);
}

/// Relies on smallvec::SmallVec::clear: removes every element.
#[verifier::external_body]
fn sv_clear(v: &mut IndexList)
    ensures
        small_vec_items(*final(v)) == Seq::<usize>::empty(),
{
    v.items.clear();
}

/// Relies on smallvec::SmallVec::len: the number of elements held.
#[verifier::external_body]
fn sv_len(v: &IndexList) -> (r: usize)
    ensures
        r == small_vec_items(*v).len(),
{
    v.items.len()
}

/// Relies on smallvec's Deref to a slice: the element at the position.
#[verifier::external_body]
fn sv_get(v: &IndexList, i: usize) -> (r: usize)
    requires
        i < small_vec_items(*v).len(),
    ensures
        r == small_vec_items(*v)[i as int],
{
    v.items[i]
}

/// Relies on ahash::AHashSet::new: a fresh set is empty.
#[verifier::external_body]
fn aset_new() -> (r: ahash::AHashSet<usize>)
    ensures
        hash_set_items(r) == Set::<usize>::empty(),
{
    ahash::AHashSet::new()
}

/// Relies on std's HashSet::insert, reached through ahash's DerefMut: adds
/// the value and reports whether it was absent.
#[verifier::external_body]
fn aset_insert(s: &mut ahash::AHashSet<usize>, value: usize) -> (r: bool)
    ensures
        hash_set_items(*final(s)) == hash_set_items(*old(s)).insert(value),
        r == !hash_set_items(*old(s)).contains(value),
{
    s.insert(value)
}

/// Relies on std's HashSet::clear, reached through ahash's DerefMut.
#[verifier::external_body]
fn aset_clear(s: &mut ahash::AHashSet<usize>)
    ensures
        hash_set_items(*final(s)) == Set::<usize>::empty(),
{
    s.clear();
}

// ---------------------------------------------------------------------------
// Cell ranges and their clamping to the grid rectangle.
// ---------------------------------------------------------------------------

/// An inclusive range of grid columns and rows, as the caller computed it
/// from a body's bounding square; it may lie partly or wholly outside the
/// grid and is clamped before use.
#[derive(Clone, Copy)]
pub struct CellRange {
    pub min_col: i64,
    pub max_col: i64,
    pub min_row: i64,
    pub max_row: i64,
}

/// `v` clamped to the valid indices `0 .. bound - 1`.
pub open spec fn clamp_to(v: int, bound: int) -> int {
    if v < 0 {
        0
    } else if v >= bound {
        bound - 1
    } else {
        v
    }
}

/// Whether cell `(c, r)` lies in `range` once the range is clamped to a grid
/// of `cols` columns and `rows` rows.  This is the exact set of cells an
/// insertion writes.
pub open spec fn covered_cell(range: CellRange, cols: int, rows: int, c: int, r: int) -> bool {
    &&& clamp_to(range.min_col as int, cols) <= c <= clamp_to(range.max_col as int, cols)
    &&& clamp_to(range.min_row as int, rows) <= r <= clamp_to(range.max_row as int, rows)
}

/// Whether cell `(c, r)` lies in `range` expanded by one extra ring of cells
/// in every direction, clamped to the grid.  This is the exact set of cells
/// a query reads.
pub open spec fn query_covered_cell(range: CellRange, cols: int, rows: int, c: int, r: int) -> bool {
    &&& clamp_to(range.min_col - 1, cols) <= c <= clamp_to(range.max_col + 1, cols)
    &&& clamp_to(range.min_row - 1, rows) <= r <= clamp_to(range.max_row + 1, rows)
}

/// Clamps a possibly out-of-range index to the valid `0 .. bound - 1`.
fn clamp_index(v: i64, bound: usize) -> (r: usize)
    requires
        1 <= bound,
    ensures
        r == clamp_to(v as int, bound as int),
{
    if v < 0 {
        0
    } else if v as u64 >= bound as u64 {
        bound - 1
    } else {
        v as usize
    }
}

// ---------------------------------------------------------------------------
// The grid itself.
// ---------------------------------------------------------------------------

/// One cell of the grid: the body indices written during the frame named by
/// `stamp`.  The contents count only while `stamp` equals the grid's epoch.
struct Cell {
    items: IndexList,
    stamp: u32,
}

/// Epoch-stamped uniform grid over `cols x rows` cells, stored row-major.
pub struct SpatialGrid {
    cells: Vec<Cell>,
    cols: usize,
    rows: usize,
    stamp: u32,
    seen_marks: Vec<u32>,
    seen_stamp: u32,
    seen_fallback: ahash::AHashSet<usize>,
}

impl SpatialGrid {
    /// Number of columns.
    pub closed spec fn spec_cols(self) -> int {
        self.cols as int
    }

    /// Number of rows.
    pub closed spec fn spec_rows(self) -> int {
        self.rows as int
    }

    /// The body indices cell `(c, r)` holds for the current frame: what was
    /// written under the current epoch stamp, and nothing at all if the
    /// cell's stamp is stale.
    pub closed spec fn live_at(self, c: int, r: int) -> Seq<usize> {
        let cell = self.cells@[r * self.cols + c];
        if cell.stamp == self.stamp {
            small_vec_items(cell.items)
        } else {
            Seq::<usize>::empty()
        }
    }

    /// Well-formedness: the cell array matches the dimensions, and no cell
    /// or de-duplication mark carries a stamp from the future.
    pub closed spec fn wf(self) -> bool {
        &&& 1 <= self.cols
        &&& 1 <= self.rows
        &&& self.cells@.len() == self.cols * self.rows
        &&& 1 <= self.stamp
        &&& forall|i: int|
            0 <= i < self.cells@.len() ==> (#[trigger] self.cells@[i]).stamp <= self.stamp
        &&& 1 <= self.seen_stamp
        &&& forall|i: int|
            0 <= i < self.seen_marks@.len() ==> (#[trigger] self.seen_marks@[i]) <= self.seen_stamp
    }

    /// Every cell of the grid is logically empty.
    pub open spec fn all_clear(self) -> bool {
        forall|c: int, r: int|
            0 <= c < self.spec_cols() && 0 <= r < self.spec_rows() ==> #[trigger] self.live_at(
                c,
                r,
            ) == Seq::<usize>::empty()
    }

    /// A grid of `cols x rows` empty cells.
    pub fn new(cols: usize, rows: usize) -> (g: SpatialGrid)
        requires
            1 <= cols,
            1 <= rows,
            cols * rows <= usize::MAX,
        ensures
            g.wf(),
            g.spec_cols() == cols,
            g.spec_rows() == rows,
            g.all_clear(),
    {
        let cells = make_cells(cols * rows);
        let g = SpatialGrid {
            cells,
            cols,
            rows,
            stamp: 1,
            seen_marks: Vec::new(),
            seen_stamp: 1,
            seen_fallback: aset_new(),
        };
        proof {
            assert forall|c: int, r: int|
                0 <= c < g.spec_cols() && 0 <= r < g.spec_rows() implies #[trigger] g.live_at(c, r)
                == Seq::<usize>::empty() by {
                lemma_cell_index_in_bounds(cols as int, rows as int, c, r);
            }
        }
        g
    }

    /// Changes the grid to `cols x rows` cells.  A changed shape reallocates
    /// the cell array; an unchanged one only resets every stamp.  Either way
    /// the whole grid comes out logically empty and the query
    /// de-duplication state is reset.
    pub fn set_dims(&mut self, cols: usize, rows: usize)
        requires
            old(self).wf(),
            1 <= cols,
            1 <= rows,
            cols * rows <= usize::MAX,
        ensures
            final(self).wf(),
            final(self).spec_cols() == cols,
            final(self).spec_rows() == rows,
            final(self).all_clear(),
    {
        if cols != self.cols || rows != self.rows {
            self.cols = cols;
            self.rows = rows;
            self.cells = make_cells(cols * rows);
        } else {
            self.reset_cells();
            self.stamp = 1;
        }
        self.seen_marks.clear();
        self.seen_stamp = 1;
        proof {
            assert forall|c: int, r: int|
                0 <= c < self.spec_cols() && 0 <= r < self.spec_rows() implies #[trigger] self
                .live_at(c, r) == Seq::<usize>::empty() by {
                lemma_cell_index_in_bounds(cols as int, rows as int, c, r);
            }
        }
    }

    /// Grows the dense de-duplication mark array to cover indices below `n`,
    /// so that queries for them stay off the hash-set fallback.  Contents
    /// and dimensions are untouched.
    pub fn reserve_marks(&mut self, n: usize)
        requires
            old(self).wf(),
        ensures
            final(self).wf(),
            final(self).spec_cols() == old(self).spec_cols(),
            final(self).spec_rows() == old(self).spec_rows(),
            forall|c: int, r: int|
                0 <= c < old(self).spec_cols() && 0 <= r < old(self).spec_rows()
                    ==> #[trigger] final(self).live_at(c, r) == old(self).live_at(c, r),
    {
        let mut len = self.seen_marks.len();
        while len < n
            invariant
                old(self).wf(),
                len == self.seen_marks@.len(),
                self.cells == old(self).cells,
                self.cols == old(self).cols,
                self.rows == old(self).rows,
                self.stamp == old(self).stamp,
                self.seen_stamp == old(self).seen_stamp,
                self.seen_fallback == old(self).seen_fallback,
                forall|i: int|
                    0 <= i < self.seen_marks@.len() ==> (#[trigger] self.seen_marks@[i])
                        <= self.seen_stamp,
            decreases n - len,
        {
            self.seen_marks.push(0);
            len = len + 1;
        }
    }

    /// Number of columns.
    pub fn cols(&self) -> (r: usize)
        ensures
            r == self.spec_cols(),
    {
        self.cols
    }

    /// Number of rows.
    pub fn rows(&self) -> (r: usize)
        ensures
            r == self.spec_rows(),
    {
        self.rows
    }

    /// Advances the epoch stamp, making every cell logically empty in one
    /// step.  On the rare stamp wrap-around every cell is re-initialized
    /// instead.
    pub fn clear(&mut self)
        requires
            old(self).wf(),
        ensures
            final(self).wf(),
            final(self).spec_cols() == old(self).spec_cols(),
            final(self).spec_rows() == old(self).spec_rows(),
            final(self).all_clear(),
    {
        let next = self.stamp.wrapping_add(1);
        if next == 0 {
            self.reset_cells();
            self.stamp = 1;
        } else {
            self.stamp = next;
        }
        proof {
            assert forall|c: int, r: int|
                0 <= c < self.spec_cols() && 0 <= r < self.spec_rows() implies #[trigger] self
                .live_at(c, r) == Seq::<usize>::empty() by {
                lemma_cell_index_in_bounds(self.cols as int, self.rows as int, c, r);
            }
        }
    }

    /// Re-initializes every cell to an empty body list with stamp zero.
    fn reset_cells(&mut self)
        requires
            old(self).wf(),
        ensures
            final(self).cols == old(self).cols,
            final(self).rows == old(self).rows,
            final(self).stamp == old(self).stamp,
            final(self).seen_marks == old(self).seen_marks,
            final(self).seen_stamp == old(self).seen_stamp,
            final(self).cells@.len() == old(self).cells@.len(),
            forall|j: int|
                0 <= j < final(self).cells@.len() ==> (#[trigger] final(self).cells@[j]).stamp == 0
                    && small_vec_items(final(self).cells@[j].items) == Seq::<usize>::empty(),
    {
        let n: usize = self.cells.len();
        let mut i: usize = 0;
        while i < n
            invariant
                i <= n,
                n == self.cells@.len(),
                self.cols == old(self).cols,
                self.rows == old(self).rows,
                self.stamp == old(self).stamp,
                self.seen_marks == old(self).seen_marks,
                self.seen_stamp == old(self).seen_stamp,
                forall|j: int|
                    0 <= j < i ==> (#[trigger] self.cells@[j]).stamp == 0 && small_vec_items(
                        self.cells@[j].items,
                    ) == Seq::<usize>::empty(),
            decreases n - i,
        {
            let cell = &mut self.cells[i];
            cell.stamp = 0;
            sv_clear(&mut cell.items);
            i = i + 1;
        }
    }
}

impl SpatialGrid {
    /// Appends `index` to every cell the clamped `range` covers, lazily
    /// clearing cells whose stamp is stale; every other cell keeps its
    /// contents.
    pub fn insert(&mut self, index: usize, range: CellRange)
        requires
            old(self).wf(),
        ensures
            final(self).wf(),
            final(self).spec_cols() == old(self).spec_cols(),
            final(self).spec_rows() == old(self).spec_rows(),
            forall|c: int, r: int|
                0 <= c < old(self).spec_cols() && 0 <= r < old(self).spec_rows()
                    ==> #[trigger] final(self).live_at(c, r) == (if covered_cell(
                    range,
                    old(self).spec_cols(),
                    old(self).spec_rows(),
                    c,
                    r,
                ) {
                    old(self).live_at(c, r).push(index)
                } else {
                    old(self).live_at(c, r)
                }),
    {
        let c0 = clamp_index(range.min_col, self.cols);
        let c1 = clamp_index(range.max_col, self.cols);
        let r0 = clamp_index(range.min_row, self.rows);
        let r1 = clamp_index(range.max_row, self.rows);
        let cols = self.cols;
        let rows = self.rows;
        let stamp = self.stamp;
        // Reading the length ties `cols * rows` to the machine-word bound.
        let _n_cells: usize = self.cells.len();
        let mut row = r0;
        while row <= r1
            invariant
                self.wf(),
                self.cols == cols,
                self.rows == rows,
                self.stamp == stamp,
                old(self).cols == cols,
                old(self).rows == rows,
                c0 == clamp_to(range.min_col as int, cols as int),
                c1 == clamp_to(range.max_col as int, cols as int),
                r0 == clamp_to(range.min_row as int, rows as int),
                r1 == clamp_to(range.max_row as int, rows as int),
                r0 <= row,
                r1 < rows,
                c0 < cols,
                c1 < cols,
                cols * rows <= usize::MAX,
                forall|c: int, r: int|
                    0 <= c < cols && 0 <= r < rows ==> #[trigger] self.live_at(c, r)
                        == inserted_so_far(
                        *old(self),
                        index,
                        c0 as int,
                        c1 as int,
                        r0 as int,
                        r1 as int,
                        row as int,
                        c0 as int,
                        c,
                        r,
                    ),
            decreases r1 + 1 - row,
        {
            let mut col = c0;
            while col <= c1
                invariant
                    self.wf(),
                    self.cols == cols,
                    self.rows == rows,
                    self.stamp == stamp,
                    old(self).cols == cols,
                    old(self).rows == rows,
                    c0 <= col,
                    r0 <= row <= r1,
                    r1 < rows,
                    c0 < cols,
                    c1 < cols,
                    cols * rows <= usize::MAX,
                    forall|c: int, r: int|
                        0 <= c < cols && 0 <= r < rows ==> #[trigger] self.live_at(c, r)
                            == inserted_so_far(
                            *old(self),
                            index,
                            c0 as int,
                            c1 as int,
                            r0 as int,
                            r1 as int,
                            row as int,
                            col as int,
                            c,
                            r,
                        ),
                decreases c1 + 1 - col,
            {
                proof {
                    lemma_cell_index_in_bounds(cols as int, rows as int, col as int, row as int);
                }
                let ghost prev = *self;
                let idx: usize = row * cols + col;
                let cell = &mut self.cells[idx];
                if cell.stamp != stamp {
                    sv_clear(&mut cell.items);
                    cell.stamp = stamp;
                }
                sv_push(&mut cell.items, index);
                proof {
                    assert forall|c: int, r: int| 0 <= c < cols && 0 <= r < rows implies #[trigger] self
                        .live_at(c, r) == inserted_so_far(
                        *old(self),
                        index,
                        c0 as int,
                        c1 as int,
                        r0 as int,
                        r1 as int,
                        row as int,
                        col as int + 1,
                        c,
                        r,
                    ) by {
                        lemma_cell_index_in_bounds(cols as int, rows as int, c, r);
                        assert(prev.live_at(c, r) == inserted_so_far(
                            *old(self),
                            index,
                            c0 as int,
                            c1 as int,
                            r0 as int,
                            r1 as int,
                            row as int,
                            col as int,
                            c,
                            r,
                        ));
                        if r * (cols as int) + c == idx {
                            lemma_cell_index_injective(cols as int, c, r, col as int, row as int);
                            assert(self.live_at(c, r) == prev.live_at(c, r).push(index));
                        } else {
                            assert(self.cells@[r * (cols as int) + c] == prev.cells@[r * (cols as int) + c]);
                            assert(self.live_at(c, r) == prev.live_at(c, r));
                        }
                    }
                }
                col = col + 1;
            }
            row = row + 1;
        }
    }
}

/// A body index `x` stands in some cell that the query over `range` reads:
/// a cell of the grid, inside the one-ring expansion of the clamped range,
/// whose contents are live for the current frame.
pub open spec fn query_hit(g: SpatialGrid, range: CellRange, x: usize) -> bool {
    exists|c: int, r: int|
        0 <= c < g.spec_cols() && 0 <= r < g.spec_rows() && query_covered_cell(
            range,
            g.spec_cols(),
            g.spec_rows(),
            c,
            r,
        ) && (#[trigger] g.live_at(c, r)).contains(x)
}

/// No element appears twice.
pub open spec fn distinct_seq(s: Seq<usize>) -> bool {
    forall|i: int, j: int| 0 <= i < j < s.len() ==> s[i] != s[j]
}

/// The de-duplication state agrees with the result gathered so far: an index
/// below the mark array's bound is in `out` exactly when its mark carries the
/// current query stamp, and one beyond the bound exactly when the fallback
/// set holds it.
spec fn dedup_synced(g: SpatialGrid, qstamp: u32, marks_len: int, out: Seq<usize>) -> bool {
    &&& forall|x: usize|
        0 <= x < marks_len ==> ((#[trigger] g.seen_marks@[x as int]) == qstamp <==> out.contains(
            x,
        ))
    &&& forall|x: usize| #![trigger hash_set_items(g.seen_fallback).contains(x)]
        hash_set_items(g.seen_fallback).contains(x) <==> (out.contains(x) && x >= marks_len)
}

/// Everything in the live cells strictly before position `(row, col)` of the
/// clamped query region has been gathered into `out`.
spec fn query_region_complete(
    g: SpatialGrid,
    c0: int,
    c1: int,
    r0: int,
    r1: int,
    row: int,
    col: int,
    out: Seq<usize>,
) -> bool {
    forall|c: int, r: int, i: int|
        c0 <= c <= c1 && r0 <= r <= r1 && (r < row || (r == row && c < col)) && 0 <= i < g.live_at(
            c,
            r,
        ).len() ==> out.contains(#[trigger] g.live_at(c, r)[i])
}

/// Clamps `v - 1` to the valid indices without underflowing the machine type.
fn dec_clamp(v: i64, bound: usize) -> (r: usize)
    requires
        1 <= bound,
    ensures
        r == clamp_to(v as int - 1, bound as int),
{
    if v <= 0 {
        0
    } else {
        clamp_index(v - 1, bound)
    }
}

/// Clamps `v + 1` to the valid indices without overflowing the machine type.
fn inc_clamp(v: i64, bound: usize) -> (r: usize)
    requires
        1 <= bound,
    ensures
        r == clamp_to(v as int + 1, bound as int),
{
    if v < 0 {
        0
    } else if v as u64 >= bound as u64 - 1 {
        bound - 1
    } else {
        (v as u64 + 1) as usize
    }
}

impl SpatialGrid {
    /// The de-duplicated union of the live cells' contents over `range`
    /// expanded by one ring of cells, clamped to the grid.  The result holds
    /// exactly the indices standing in those cells — a superset of every
    /// body actually near the queried footprint, since insertion wrote each
    /// body to all cells its bounding square covers — with no duplicates and
    /// no promised order.  Only the query de-duplication state changes: every
    /// cell keeps its contents.
    pub fn query(&mut self, range: CellRange) -> (out: Vec<usize>)
        requires
            old(self).wf(),
        ensures
            final(self).wf(),
            final(self).spec_cols() == old(self).spec_cols(),
            final(self).spec_rows() == old(self).spec_rows(),
            forall|c: int, r: int|
                0 <= c < old(self).spec_cols() && 0 <= r < old(self).spec_rows()
                    ==> #[trigger] final(self).live_at(c, r) == old(self).live_at(c, r),
            distinct_seq(out@),
            forall|i: int| 0 <= i < out@.len() ==> query_hit(*old(self), range, #[trigger] out@[i]),
            forall|x: usize| query_hit(*old(self), range, x) ==> out@.contains(x),
    {
        // Advance the per-query stamp; on the rare wrap-around reset every mark.
        let next = self.seen_stamp.wrapping_add(1);
        if next == 0 {
            self.reset_marks();
            self.seen_stamp = 1;
        } else {
            self.seen_stamp = next;
        }
        aset_clear(&mut self.seen_fallback);

        let c0 = dec_clamp(range.min_col, self.cols);
        let c1 = inc_clamp(range.max_col, self.cols);
        let r0 = dec_clamp(range.min_row, self.rows);
        let r1 = inc_clamp(range.max_row, self.rows);
        let cols = self.cols;
        let rows = self.rows;
        let qstamp = self.seen_stamp;
        let marks_len = self.seen_marks.len();
        // Reading the length ties `cols * rows` to the machine-word bound.
        let _n_cells: usize = self.cells.len();

        let mut out: Vec<usize> = Vec::new();
        let mut row = r0;
        while row <= r1
            invariant
                self.wf(),
                self.cells@ == old(self).cells@,
                self.cols == cols,
                self.rows == rows,
                self.stamp == old(self).stamp,
                self.seen_stamp == qstamp,
                self.seen_marks@.len() == marks_len,
                old(self).cols == cols,
                old(self).rows == rows,
                c0 == clamp_to(range.min_col as int - 1, cols as int),
                c1 == clamp_to(range.max_col as int + 1, cols as int),
                r0 == clamp_to(range.min_row as int - 1, rows as int),
                r1 == clamp_to(range.max_row as int + 1, rows as int),
                r0 <= row,
                r1 < rows,
                c0 < cols,
                c1 < cols,
                cols * rows <= usize::MAX,
                distinct_seq(out@),
                dedup_synced(*self, qstamp, marks_len as int, out@),
                forall|i: int|
                    0 <= i < out@.len() ==> query_hit(*old(self), range, #[trigger] out@[i]),
                query_region_complete(
                    *old(self),
                    c0 as int,
                    c1 as int,
                    r0 as int,
                    r1 as int,
                    row as int,
                    c0 as int,
                    out@,
                ),
            decreases r1 + 1 - row,
        {
            let mut col = c0;
            while col <= c1
                invariant
                    self.wf(),
                    self.cells@ == old(self).cells@,
                    self.cols == cols,
                    self.rows == rows,
                    self.stamp == old(self).stamp,
                    self.seen_stamp == qstamp,
                    self.seen_marks@.len() == marks_len,
                    old(self).cols == cols,
                    old(self).rows == rows,
                    c0 == clamp_to(range.min_col as int - 1, cols as int),
                    c1 == clamp_to(range.max_col as int + 1, cols as int),
                    r0 == clamp_to(range.min_row as int - 1, rows as int),
                    r1 == clamp_to(range.max_row as int + 1, rows as int),
                    c0 <= col,
                    r0 <= row <= r1,
                    r1 < rows,
                    c0 < cols,
                    c1 < cols,
                    cols * rows <= usize::MAX,
                    distinct_seq(out@),
                    dedup_synced(*self, qstamp, marks_len as int, out@),
                    forall|i: int|
                        0 <= i < out@.len() ==> query_hit(*old(self), range, #[trigger] out@[i]),
                    query_region_complete(
                        *old(self),
                        c0 as int,
                        c1 as int,
                        r0 as int,
                        r1 as int,
                        row as int,
                        col as int,
                        out@,
                    ),
                decreases c1 + 1 - col,
            {
                proof {
                    lemma_cell_index_in_bounds(cols as int, rows as int, col as int, row as int);
                }
                let idx: usize = row * cols + col;
                if self.cells[idx].stamp == self.stamp {
                    let ghost live = old(self).live_at(col as int, row as int);
                    proof {
                        assert(live == small_vec_items(self.cells@[idx as int].items));
                    }
                    let n_items = sv_len(&self.cells[idx].items);
                    let mut k: usize = 0;
                    while k < n_items
                        invariant
                            self.wf(),
                            self.cells@ == old(self).cells@,
                            self.cols == cols,
                            self.rows == rows,
                            self.stamp == old(self).stamp,
                            self.seen_stamp == qstamp,
                            self.seen_marks@.len() == marks_len,
                            old(self).cols == cols,
                            old(self).rows == rows,
                            c0 == clamp_to(range.min_col as int - 1, cols as int),
                            c1 == clamp_to(range.max_col as int + 1, cols as int),
                            r0 == clamp_to(range.min_row as int - 1, rows as int),
                            r1 == clamp_to(range.max_row as int + 1, rows as int),
                            c0 <= col <= c1,
                            r0 <= row <= r1,
                            r1 < rows,
                            c0 < cols,
                            c1 < cols,
                            cols * rows <= usize::MAX,
                            idx == row * cols + col,
                            idx < self.cells@.len(),
                            k <= n_items,
                            live == old(self).live_at(col as int, row as int),
                            live == small_vec_items(self.cells@[idx as int].items),
                            n_items == live.len(),
                            distinct_seq(out@),
                            dedup_synced(*self, qstamp, marks_len as int, out@),
                            forall|i: int|
                                0 <= i < out@.len() ==> query_hit(
                                    *old(self),
                                    range,
                                    #[trigger] out@[i],
                                ),
                            query_region_complete(
                                *old(self),
                                c0 as int,
                                c1 as int,
                                r0 as int,
                                r1 as int,
                                row as int,
                                col as int,
                                out@,
                            ),
                            forall|i: int| 0 <= i < k ==> out@.contains(#[trigger] live[i]),
                        decreases n_items - k,
                    {
                        let item = sv_get(&self.cells[idx].items, k);
                        proof {
                            assert(live[k as int] == item);
                            assert(live.contains(item));
                            assert(query_covered_cell(
                                range,
                                cols as int,
                                rows as int,
                                col as int,
                                row as int,
                            ));
                            assert(query_hit(*old(self), range, item));
                        }
                        if item < marks_len {
                            let already = self.seen_marks[item] == qstamp;
                            if !already {
                                self.seen_marks[item] = qstamp;
                                out.push(item);
                            }
                        } else {
                            let fresh = aset_insert(&mut self.seen_fallback, item);
                            if fresh {
                                out.push(item);
                            }
                        }
                        k = k + 1;
                    }
                }
                col = col + 1;
            }
            row = row + 1;
        }
        proof {
            assert forall|x: usize| query_hit(*old(self), range, x) implies out@.contains(x) by {
                let (c, r) = choose|c: int, r: int|
                    0 <= c < old(self).spec_cols() && 0 <= r < old(self).spec_rows()
                        && query_covered_cell(
                        range,
                        old(self).spec_cols(),
                        old(self).spec_rows(),
                        c,
                        r,
                    ) && (#[trigger] old(self).live_at(c, r)).contains(x);
                let i = choose|i: int|
                    0 <= i < old(self).live_at(c, r).len() && old(self).live_at(c, r)[i] == x;
                assert(out@.contains(old(self).live_at(c, r)[i]));
            }
            assert forall|c: int, r: int|
                0 <= c < old(self).spec_cols() && 0 <= r < old(self).spec_rows() implies #[trigger] self
                .live_at(c, r) == old(self).live_at(c, r) by {
                lemma_cell_index_in_bounds(cols as int, rows as int, c, r);
            }
        }
        out
    }

    /// Resets every de-duplication mark to zero.
    fn reset_marks(&mut self)
        requires
            old(self).wf(),
        ensures
            final(self).cols == old(self).cols,
            final(self).rows == old(self).rows,
            final(self).stamp == old(self).stamp,
            final(self).cells == old(self).cells,
            final(self).seen_stamp == old(self).seen_stamp,
            final(self).seen_fallback == old(self).seen_fallback,
            final(self).seen_marks@.len() == old(self).seen_marks@.len(),
            forall|i: int|
                0 <= i < final(self).seen_marks@.len() ==> (#[trigger] final(self).seen_marks@[i])
                    == 0,
    {
        let n: usize = self.seen_marks.len();
        let mut i: usize = 0;
        while i < n
            invariant
                i <= n,
                n == self.seen_marks@.len(),
                self.cols == old(self).cols,
                self.rows == old(self).rows,
                self.stamp == old(self).stamp,
                self.cells == old(self).cells,
                self.seen_stamp == old(self).seen_stamp,
                self.seen_fallback == old(self).seen_fallback,
                forall|j: int| 0 <= j < i ==> (#[trigger] self.seen_marks@[j]) == 0,
            decreases n - i,
        {
            self.seen_marks[i] = 0;
            i = i + 1;
        }
    }
}

/// The contents of cell `(c, r)` part way through an insertion of `index`
/// over the clamped range `c0..=c1` x `r0..=r1`: cells strictly before
/// position `(row, col)` in row-major order have received the index, the
/// rest still hold what they held before.
spec fn inserted_so_far(
    g: SpatialGrid,
    index: usize,
    c0: int,
    c1: int,
    r0: int,
    r1: int,
    row: int,
    col: int,
    c: int,
    r: int,
) -> Seq<usize> {
    if c0 <= c <= c1 && r0 <= r <= r1 && (r < row || (r == row && c < col)) {
        g.live_at(c, r).push(index)
    } else {
        g.live_at(c, r)
    }
}

/// Fresh cells: empty body lists, all stamps zero (stale under any epoch).
fn make_cells(n: usize) -> (cells: Vec<Cell>)
    ensures
        cells@.len() == n,
        forall|j: int| 0 <= j < n ==> (#[trigger] cells@[j]).stamp == 0,
{
    let mut cells: Vec<Cell> = Vec::new();
    let mut i: usize = 0;
    while i < n
        invariant
            i <= n,
            cells@.len() == i,
            forall|j: int| 0 <= j < i ==> (#[trigger] cells@[j]).stamp == 0,
        decreases n - i,
    {
        cells.push(Cell { items: sv_new(), stamp: 0 });
        i = i + 1;
    }
    cells
}

/// Grid query completeness: a body index written to a cell by an insertion
/// is a hit for every query whose expanded range reads that cell.  Together
/// with the contracts of `insert` and `query` this says the broad phase
/// never misses: `query` returns a superset of everything inserted nearby.
pub proof fn lemma_inserted_is_query_hit(
    before: SpatialGrid,
    after: SpatialGrid,
    index: usize,
    insert_range: CellRange,
    query_range: CellRange,
    c: int,
    r: int,
)
    requires
        after.spec_cols() == before.spec_cols(),
        after.spec_rows() == before.spec_rows(),
        0 <= c < before.spec_cols(),
        0 <= r < before.spec_rows(),
        covered_cell(insert_range, before.spec_cols(), before.spec_rows(), c, r),
        query_covered_cell(query_range, before.spec_cols(), before.spec_rows(), c, r),
        after.live_at(c, r) == before.live_at(c, r).push(index),
    ensures
        query_hit(after, query_range, index),
{
    assert(after.live_at(c, r)[before.live_at(c, r).len() as int] == index);
    assert(after.live_at(c, r).contains(index));
}

/// Row-major cell indexing is injective.
proof fn lemma_cell_index_injective(cols: int, c1: int, r1: int, c2: int, r2: int)
    requires
        1 <= cols,
        0 <= c1 < cols,
        0 <= c2 < cols,
        0 <= r1,
        0 <= r2,
        r1 * cols + c1 == r2 * cols + c2,
    ensures
        c1 == c2,
        r1 == r2,
{
    assert(c1 == c2 && r1 == r2) by (nonlinear_arith)
        requires
            1 <= cols,
            0 <= c1 < cols,
            0 <= c2 < cols,
            0 <= r1,
            0 <= r2,
            r1 * cols + c1 == r2 * cols + c2,
    ;
}

/// Row-major cell indexing stays inside the cell array.
proof fn lemma_cell_index_in_bounds(cols: int, rows: int, c: int, r: int)
    requires
        1 <= cols,
        1 <= rows,
        0 <= c < cols,
        0 <= r < rows,
    ensures
        0 <= r * cols + c < cols * rows,
{
    assert(r * cols + c < cols * rows) by (nonlinear_arith)
        requires
            0 <= c < cols,
            0 <= r < rows,
    ;
    assert(0 <= r * cols) by (nonlinear_arith)
        requires
            0 <= r,
            0 <= cols,
    ;
}

} // verus!
