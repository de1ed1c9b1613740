//! The uniform broad-phase grid over the arena square `[-1.0, 1.0]^2`.
//!
//! Each cell holds the indices of the bodies whose center falls inside it;
//! the grid is rebuilt from scratch before every collision pass and owns no
//! bodies, only back-references. A body strictly outside the arena is filed
//! in the nearest border cell: the cell coordinate is clamped, never trusted.

use vstd::prelude::*;

use crate::fixed::{COORD_LIMIT, UNIT};
use crate::object::VerletObject;
use crate::vec2::Vec2;

verus! {

/// The bin of a single axis value: `floor((v + 1) / cell_size)`, clamped
/// into `[0, n - 1]`.
pub open spec fn cell_coord(v: int, cell_size: int, n: int) -> int {
    let t = if v + UNIT < 0 {
        0
    } else {
        v + UNIT
    };
    let c = t / cell_size;
    if c >= n {
        n - 1
    } else {
        c
    }
}

/// The dimensions of a grid: bin counts along both axes and the derived
/// cell sides, in fixed-point units.
#[derive(Clone, Copy, PartialEq, Eq, Structural, Debug)]
pub struct GridDims {
    pub rows: usize,
    pub cols: usize,
    pub cell_w: i64,
    pub cell_h: i64,
}

impl GridDims {
    /// Sane dimensions, with cell sides derived from them.
    pub open spec fn wf(self) -> bool {
        &&& 3 <= self.rows <= 2_000_000
        &&& 3 <= self.cols <= 2_000_000
        &&& self.cols * self.rows <= 100_000_000
        &&& self.cell_w == 2 * UNIT / (self.cols as int)
        &&& self.cell_h == 2 * UNIT / (self.rows as int)
        &&& 1 <= self.cell_w
        &&& 1 <= self.cell_h
    }

    /// Column bin of an x coordinate.
    pub open spec fn cell_i(self, x: int) -> int {
        cell_coord(x, self.cell_w as int, self.cols as int)
    }

    /// Row bin of a y coordinate.
    pub open spec fn cell_j(self, y: int) -> int {
        cell_coord(y, self.cell_h as int, self.rows as int)
    }

    /// Flat table index of bin `(i, j)`.
    pub open spec fn flat(self, i: int, j: int) -> int {
        i * self.rows + j
    }

    /// Flat table index of the cell holding a center.
    pub open spec fn cell_of(self, p: Vec2) -> int {
        self.flat(self.cell_i(p.x as int), self.cell_j(p.y as int))
    }
}

/// A table of `cols * rows` cells in column-major order: the cell for bin
/// `(i, j)` (column `i` along x, row `j` along y) sits at `i * rows + j`.
pub struct SpatialGrid {
    pub dims: GridDims,
    pub cells: Vec<Vec<usize>>,
}

impl SpatialGrid {
    /// Structural well-formedness: sane dimensions and a matching table.
    pub open spec fn wf(self) -> bool {
        &&& self.dims.wf()
        &&& self.cells@.len() == self.dims.cols * self.dims.rows
    }

    /// The cell contents as a sequence of sequences.
    pub open spec fn table(self) -> Seq<Seq<usize>> {
        self.cells.deep_view()
    }

    /// The table correctly files the population `s`: every entry is the
    /// index of a body whose center falls in that very cell, entries within
    /// a cell are strictly increasing (hence distinct), and every body is
    /// filed in its cell.
    pub open spec fn models(self, s: Seq<VerletObject>) -> bool {
        &&& forall|c: int, t: int|
            0 <= c < self.table().len() && 0 <= t < self.table()[c].len() ==> (
            #[trigger] self.table()[c][t]) < s.len() && self.dims.cell_of(
                s[self.table()[c][t] as int].position,
            ) == c
        &&& forall|c: int, t: int, u: int|
            0 <= c < self.table().len() && 0 <= t < u < self.table()[c].len()
                ==> #[trigger] self.table()[c][t] < #[trigger] self.table()[c][u]
        &&& forall|b: int|
            0 <= b < s.len() ==> self.table()[self.dims.cell_of(
                #[trigger] s[b].position,
            )].contains(b as usize)
    }
}

/// An all-empty table of `n` cells.
pub open spec fn empty_cells(n: nat) -> Seq<Seq<usize>> {
    Seq::new(n, |c: int| Seq::<usize>::empty())
}

/// The table after filing body index `b` into cell `c`.
pub open spec fn file_body(cells: Seq<Seq<usize>>, c: int, b: usize) -> Seq<Seq<usize>> {
    cells.update(c, cells[c].push(b))
}

/// The table obtained by filing the first `k` bodies of `s` into the empty
/// grid of dimensions `d`, in index order.
pub open spec fn cells_built(s: Seq<VerletObject>, d: GridDims, k: nat) -> Seq<Seq<usize>>
    decreases k,
{
    if k == 0 {
        empty_cells((d.cols * d.rows) as nat)
    } else {
        file_body(
            cells_built(s, d, (k - 1) as nat),
            d.cell_of(s[k - 1].position),
            (k - 1) as usize,
        )
    }
}

/// A cell coordinate is always a valid bin.
pub proof fn lemma_cell_coord_range(v: int, cell_size: int, n: int)
    requires
        1 <= cell_size,
        1 <= n,
    ensures
        0 <= cell_coord(v, cell_size, n) < n,
{
    let t = if v + UNIT < 0 {
        0
    } else {
        v + UNIT
    };
    vstd::arithmetic::div_mod::lemma_div_pos_is_pos(t, cell_size);
}

/// A flat cell index is always inside the table.
pub proof fn lemma_cell_of_range(d: GridDims, p: Vec2)
    requires
        d.wf(),
    ensures
        0 <= d.cell_of(p) < d.cols * d.rows,
{
    lemma_cell_coord_range(p.x as int, d.cell_w as int, d.cols as int);
    lemma_cell_coord_range(p.y as int, d.cell_h as int, d.rows as int);
    let i = d.cell_i(p.x as int);
    let j = d.cell_j(p.y as int);
    assert(0 <= i * d.rows + j < d.cols * d.rows) by (nonlinear_arith)
        requires
            0 <= i < d.cols,
            0 <= j < d.rows,
            0 < d.rows,
    ;
}

/// The built table files exactly the first `k` bodies, each in its cell,
/// with strictly increasing entries.
pub proof fn lemma_cells_built_models(s: Seq<VerletObject>, d: GridDims, k: nat)
    requires
        d.wf(),
        k <= s.len(),
        k <= usize::MAX,
    ensures
        cells_built(s, d, k).len() == d.cols * d.rows,
        forall|c: int, t: int|
            0 <= c < cells_built(s, d, k).len() && 0 <= t < cells_built(s, d, k)[c].len() ==> (
            #[trigger] cells_built(s, d, k)[c][t]) < k && d.cell_of(
                s[cells_built(s, d, k)[c][t] as int].position,
            ) == c,
        forall|c: int, t: int, u: int|
            0 <= c < cells_built(s, d, k).len() && 0 <= t < u < cells_built(s, d, k)[c].len()
                ==> #[trigger] cells_built(s, d, k)[c][t] < #[trigger] cells_built(s, d, k)[c][u],
        forall|b: int|
            0 <= b < k ==> cells_built(s, d, k)[d.cell_of(#[trigger] s[b].position)].contains(
                b as usize,
            ),
    decreases k,
{
    if k == 0 {
    } else {
        let prev = cells_built(s, d, (k - 1) as nat);
        let c0 = d.cell_of(s[k - 1].position);
        let cur = cells_built(s, d, k);
        lemma_cells_built_models(s, d, (k - 1) as nat);
        lemma_cell_of_range(d, s[k - 1].position);
        assert(cur == file_body(prev, c0, (k - 1) as usize));
        assert forall|c: int, t: int|
            0 <= c < cur.len() && 0 <= t < cur[c].len() implies (#[trigger] cur[c][t]) < k
            && d.cell_of(s[cur[c][t] as int].position) == c by {
            if c == c0 {
                if t < prev[c0].len() {
                    assert(cur[c][t] == prev[c][t]);
                } else {
                    assert(cur[c][t] == (k - 1) as usize);
                }
            } else {
                assert(cur[c] == prev[c]);
            }
        }
        assert forall|c: int, t: int, u: int|
            0 <= c < cur.len() && 0 <= t < u < cur[c].len() implies #[trigger] cur[c][t]
            < #[trigger] cur[c][u] by {
            if c == c0 {
                assert(cur[c][t] == prev[c][t]);
                if u < prev[c0].len() {
                    assert(cur[c][u] == prev[c][u]);
                } else {
                    assert(cur[c][u] == (k - 1) as usize);
                    assert(prev[c][t] < k - 1);
                }
            } else {
                assert(cur[c] == prev[c]);
            }
        }
        assert forall|b: int| 0 <= b < k implies cur[d.cell_of(#[trigger] s[b].position)].contains(
            b as usize,
        ) by {
            let cb = d.cell_of(s[b].position);
            lemma_cell_of_range(d, s[b].position);
            if b == k - 1 {
                assert(cur[c0] == prev[c0].push((k - 1) as usize));
                assert(cur[c0][prev[c0].len() as int] == (k - 1) as usize);
            } else {
                assert(prev[cb].contains(b as usize));
                let t = choose|t: int| 0 <= t < prev[cb].len() && prev[cb][t] == b as usize;
                if cb == c0 {
                    assert(cur[cb][t] == b as usize);
                } else {
                    assert(cur[cb] == prev[cb]);
                }
            }
        }
    }
}

impl SpatialGrid {
    /// A fresh grid of the given dimensions with all cells empty.
    pub fn new(rows: usize, cols: usize) -> (r: SpatialGrid)
        requires
            3 <= rows <= 2_000_000,
            3 <= cols <= 2_000_000,
            rows * cols <= 100_000_000,
        ensures
            r.wf(),
            r.dims.rows == rows,
            r.dims.cols == cols,
            r.table() == empty_cells((cols * rows) as nat),
    {
        proof {
            assert(cols * rows == rows * cols && cols * rows <= 100_000_000) by (nonlinear_arith)
                requires
                    rows * cols <= 100_000_000,
            ;
        }
        let n = cols * rows;
        let mut cells: Vec<Vec<usize>> = Vec::new();
        let mut k: usize = 0;
        while k < n
            invariant
                0 <= k <= n,
                cells.deep_view().len() == k,
                forall|c: int| 0 <= c < k ==> (#[trigger] cells@[c])@.len() == 0,
            decreases n - k,
        {
            cells.push(Vec::new());
            k = k + 1;
        }
        let cw = (2 * (UNIT as u64)) / (cols as u64);
        let ch = (2 * (UNIT as u64)) / (rows as u64);
        proof {
            vstd::arithmetic::div_mod::lemma_div_is_ordered(
                cols as int,
                2 * UNIT,
                cols as int,
            );
            vstd::arithmetic::div_mod::lemma_div_multiples_vanish(1, cols as int);
            vstd::arithmetic::div_mod::lemma_div_is_ordered(
                rows as int,
                2 * UNIT,
                rows as int,
            );
            vstd::arithmetic::div_mod::lemma_div_multiples_vanish(1, rows as int);
            assert forall|c: int| 0 <= c < n implies (#[trigger] cells.deep_view()[c]).len()
                == 0 by {}
            assert(cells.deep_view() =~~= empty_cells((cols * rows) as nat));
        }
        SpatialGrid { dims: GridDims { rows, cols, cell_w: cw as i64, cell_h: ch as i64 }, cells }
    }

    /// The two bins of a center, clamped into the grid.
    pub fn get_ij(&self, x: i64, y: i64) -> (r: (usize, usize))
        requires
            self.wf(),
            -COORD_LIMIT <= x <= COORD_LIMIT,
            -COORD_LIMIT <= y <= COORD_LIMIT,
        ensures
            r.0 == self.dims.cell_i(x as int),
            r.1 == self.dims.cell_j(y as int),
            r.0 < self.dims.cols,
            r.1 < self.dims.rows,
    {
        proof {
            lemma_cell_coord_range(x as int, self.dims.cell_w as int, self.dims.cols as int);
            lemma_cell_coord_range(y as int, self.dims.cell_h as int, self.dims.rows as int);
        }
        let tx: i64 = x + UNIT;
        let tx: u64 = if tx < 0 {
            0
        } else {
            tx as u64
        };
        let i = tx / (self.dims.cell_w as u64);
        let i: usize = if i >= self.dims.cols as u64 {
            self.dims.cols - 1
        } else {
            i as usize
        };
        let ty: i64 = y + UNIT;
        let ty: u64 = if ty < 0 {
            0
        } else {
            ty as u64
        };
        let j = ty / (self.dims.cell_h as u64);
        let j: usize = if j >= self.dims.rows as u64 {
            self.dims.rows - 1
        } else {
            j as usize
        };
        (i, j)
    }

    /// Files body index `idx` under the cell of center `(x, y)`.
    pub fn push(&mut self, idx: usize, x: i64, y: i64)
        requires
            old(self).wf(),
            -COORD_LIMIT <= x <= COORD_LIMIT,
            -COORD_LIMIT <= y <= COORD_LIMIT,
        ensures
            final(self).wf(),
            final(self).dims == old(self).dims,
            final(self).table() == file_body(
                old(self).table(),
                old(self).dims.cell_of(Vec2 { x, y }),
                idx,
            ),
    {
        proof {
            lemma_cell_of_range(self.dims, Vec2 { x, y });
            assert(self.dims.cell_i(x as int) * self.dims.rows + self.dims.cell_j(y as int)
                < self.dims.cols * self.dims.rows) by (nonlinear_arith)
                requires
                    0 <= self.dims.cell_i(x as int) < self.dims.cols,
                    0 <= self.dims.cell_j(y as int) < self.dims.rows,
                    0 < self.dims.rows,
            ;
        }
        let (i, j) = self.get_ij(x, y);
        let f = i * self.dims.rows + j;
        let mut cell = self.cells[f].clone();
        proof {
            broadcast use vstd::std_specs::vec::vec_clone_deep_view_proof;

            assert(cell.deep_view() == self.cells[f as int].deep_view());
        }
        cell.push(idx);
        self.cells[f] = cell;
        proof {
            assert(self.table() =~~= file_body(
                old(self).table(),
                old(self).dims.cell_of(Vec2 { x, y }),
                idx,
            ));
        }
    }

    /// Empties every cell, keeping the dimensions.
    pub fn clear(&mut self)
        requires
            old(self).wf(),
        ensures
            final(self).wf(),
            final(self).dims == old(self).dims,
            final(self).table() == empty_cells(
                (old(self).dims.cols * old(self).dims.rows) as nat,
            ),
    {
        let n = self.cells.len();
        let mut k: usize = 0;
        while k < n
            invariant
                0 <= k <= n,
                n == self.cells@.len(),
                self.dims == old(self).dims,
                old(self).wf(),
                self.cells@.len() == old(self).cells@.len(),
                forall|c: int| 0 <= c < k ==> (#[trigger] self.cells@[c])@.len() == 0,
            decreases n - k,
        {
            self.cells[k] = Vec::new();
            k = k + 1;
        }
        proof {
            assert forall|c: int| 0 <= c < n implies (#[trigger] self.cells.deep_view()[
                c]).len() == 0 by {}
            assert(self.table() =~~= empty_cells(
                (old(self).dims.cols * old(self).dims.rows) as nat,
            ));
        }
    }

    /// Reads the cell at bin `(i, j)`.
    pub fn get(&self, i: usize, j: usize) -> (r: &Vec<usize>)
        requires
            self.wf(),
            i < self.dims.cols,
            j < self.dims.rows,
        ensures
            r@ == self.table()[self.dims.flat(i as int, j as int)],
    {
        proof {
            assert(0 <= i * self.dims.rows + j < self.dims.cols * self.dims.rows) by (nonlinear_arith)
                requires
                    0 <= i < self.dims.cols,
                    0 <= j < self.dims.rows,
                    0 < self.dims.rows,
            ;
        }
        &self.cells[i * self.dims.rows + j]
    }

    /// Clears the grid and files the whole population, one cell per body.
    pub fn rebuild(&mut self, objects: &Vec<VerletObject>)
        requires
            old(self).wf(),
            crate::collisions::bodies_ok(objects@),
        ensures
            final(self).wf(),
            final(self).dims == old(self).dims,
            final(self).table() == cells_built(objects@, old(self).dims, objects@.len()),
            final(self).models(objects@),
    {
        self.clear();
        let n = objects.len();
        let mut b: usize = 0;
        while b < n
            invariant
                0 <= b <= n,
                n == objects@.len(),
                self.wf(),
                self.dims == old(self).dims,
                crate::collisions::bodies_ok(objects@),
                self.table() == cells_built(objects@, old(self).dims, b as nat),
            decreases n - b,
        {
            let p = objects[b].get_center();
            self.push(b, p.x, p.y);
            b = b + 1;
        }
        proof {
            lemma_cells_built_models(objects@, old(self).dims, objects@.len());
        }
    }
}

} // verus!
