//! Broad-phase collision passes over the grid, and the nine-phase chunk
//! schedule that makes them safe to parallelize.
//!
//! A pass visits every interior cell and resolves all pairs among the bodies
//! of its 3x3 neighborhood (the "pocket"). The chunked variant visits the
//! same cells grouped into nine phases by `(row mod 3, column mod 3)`: two
//! neighborhoods of one phase can never share a cell, so the work of one
//! phase could be handed to parallel workers; the phases themselves must
//! stay sequential.

use vstd::prelude::*;

use crate::collisions::{
    bodies_ok, indexes_ok, lemma_solve_from_no_overlap, lemma_solve_from_props, solve_at,
    solved_at,
};
use crate::grid::{cells_built, GridDims, SpatialGrid};
use crate::object::VerletObject;

verus! {

/// The flat ids of the 3x3 block of cells centered at bin `(i, j)`, in scan
/// order: columns `i-1..=i+1` outer, rows `j-1..=j+1` inner.
pub open spec fn pocket_cells(d: GridDims, i: int, j: int) -> Seq<int> {
    seq![
        d.flat(i - 1, j - 1),
        d.flat(i - 1, j),
        d.flat(i - 1, j + 1),
        d.flat(i, j - 1),
        d.flat(i, j),
        d.flat(i, j + 1),
        d.flat(i + 1, j - 1),
        d.flat(i + 1, j),
        d.flat(i + 1, j + 1),
    ]
}

/// The concatenation of the named cells of a table.
pub open spec fn concat_cells(table: Seq<Seq<usize>>, cs: Seq<int>) -> Seq<usize>
    decreases cs.len(),
{
    if cs.len() == 0 {
        Seq::empty()
    } else {
        table[cs[0]] + concat_cells(table, cs.drop_first())
    }
}

/// The candidate set of the neighborhood centered at bin `(i, j)`.
pub open spec fn pocket_spec(table: Seq<Seq<usize>>, d: GridDims, i: int, j: int) -> Seq<usize> {
    concat_cells(table, pocket_cells(d, i, j))
}

/// Two distinct bins have distinct flat ids.
proof fn lemma_flat_injective(rows: int, a: int, b: int, a2: int, b2: int)
    by (nonlinear_arith)
    requires
        0 <= b < rows,
        0 <= b2 < rows,
        a * rows + b == a2 * rows + b2,
    ensures
        a == a2,
        b == b2,
{
}

/// The nine pocket cells of an interior bin are valid and pairwise distinct.
proof fn lemma_pocket_cells_ok(d: GridDims, i: int, j: int)
    requires
        d.wf(),
        1 <= i < d.cols - 1,
        1 <= j < d.rows - 1,
    ensures
        pocket_cells(d, i, j).len() == 9,
        forall|t: int|
            0 <= t < 9 ==> 0 <= #[trigger] pocket_cells(d, i, j)[t] < d.cols * d.rows,
        forall|t: int, u: int|
            0 <= t < u < 9 ==> pocket_cells(d, i, j)[t] != pocket_cells(d, i, j)[u],
{
    let cs = pocket_cells(d, i, j);
    assert forall|t: int| 0 <= t < 9 implies #[trigger] cs[t] == d.flat(
        i - 1 + t / 3,
        j - 1 + t % 3,
    ) by {
        if t == 0 {
        } else if t == 1 {
        } else if t == 2 {
        } else if t == 3 {
        } else if t == 4 {
        } else if t == 5 {
        } else if t == 6 {
        } else if t == 7 {
        } else {
            assert(t == 8);
        }
    }
    assert forall|t: int| 0 <= t < 9 implies 0 <= #[trigger] cs[t] < d.cols * d.rows by {
        let a = i - 1 + t / 3;
        let b = j - 1 + t % 3;
        assert(0 <= a * d.rows + b < d.cols * d.rows) by (nonlinear_arith)
            requires
                0 <= a < d.cols,
                0 <= b < d.rows,
                0 < d.rows,
        ;
    }
    assert forall|t: int, u: int| 0 <= t < u < 9 implies cs[t] != cs[u] by {
        let a = i - 1 + t / 3;
        let b = j - 1 + t % 3;
        let a2 = i - 1 + u / 3;
        let b2 = j - 1 + u % 3;
        if cs[t] == cs[u] {
            lemma_flat_injective(d.rows as int, a, b, a2, b2);
        }
    }
}

/// The models facts of a table for a population, free of the grid struct:
/// every entry names a body filed in that cell, and entries are strictly
/// increasing within a cell.
pub open spec fn table_models(
    table: Seq<Seq<usize>>,
    d: GridDims,
    s: Seq<VerletObject>,
) -> bool {
    &&& table.len() == d.cols * d.rows
    &&& forall|c: int, t: int|
        0 <= c < table.len() && 0 <= t < table[c].len() ==> (#[trigger] table[c][t]) < s.len()
            && d.cell_of(s[table[c][t] as int].position) == c
    &&& forall|c: int, t: int, u: int|
        0 <= c < table.len() && 0 <= t < u < table[c].len() ==> #[trigger] table[c][t]
            < #[trigger] table[c][u]
}

/// A concatenation of distinct cells of a well-formed table is a valid
/// candidate set: entries in range and pairwise distinct, each filed in one
/// of the named cells.
pub proof fn lemma_concat_cells_ok(
    table: Seq<Seq<usize>>,
    cs: Seq<int>,
    d: GridDims,
    s: Seq<VerletObject>,
)
    requires
        table_models(table, d, s),
        forall|t: int| 0 <= t < cs.len() ==> 0 <= #[trigger] cs[t] < table.len(),
        forall|t: int, u: int| 0 <= t < u < cs.len() ==> cs[t] != cs[u],
    ensures
        indexes_ok(concat_cells(table, cs), s.len()),
        forall|t: int|
            0 <= t < concat_cells(table, cs).len() ==> exists|u: int|
                0 <= u < cs.len() && cs[u] == d.cell_of(
                    s[#[trigger] concat_cells(table, cs)[t] as int].position,
                ),
    decreases cs.len(),
{
    if cs.len() == 0 {
    } else {
        let head = table[cs[0]];
        let rest = cs.drop_first();
        let tail = concat_cells(table, rest);
        let cc = concat_cells(table, cs);
        lemma_concat_cells_ok(table, rest, d, s);
        assert(cc == head + tail);
        assert forall|t: int|
            0 <= t < cc.len() implies (#[trigger] cc[t]) < s.len() && exists|u: int|
                0 <= u < cs.len() && cs[u] == d.cell_of(s[cc[t] as int].position) by {
            if t < head.len() {
                assert(cc[t] == head[t]);
                assert(cs[0] == d.cell_of(s[cc[t] as int].position));
            } else {
                assert(cc[t] == tail[t - head.len()]);
                let u0 = choose|u0: int|
                    0 <= u0 < rest.len() && rest[u0] == d.cell_of(s[cc[t] as int].position);
                assert(cs[u0 + 1] == rest[u0]);
            }
        }
        assert forall|t: int, u: int| 0 <= t < u < cc.len() implies cc[t] != cc[u] by {
            if u < head.len() {
                assert(cc[t] == head[t] && cc[u] == head[u]);
            } else if t >= head.len() {
                assert(cc[t] == tail[t - head.len()] && cc[u] == tail[u - head.len()]);
            } else {
                let e = cc[t];
                let f = cc[u];
                assert(cc[t] == head[t]);
                assert(cc[u] == tail[u - head.len()]);
                assert(d.cell_of(s[e as int].position) == cs[0]);
                if e == f {
                    let u0 = choose|u0: int|
                        0 <= u0 < rest.len() && rest[u0] == d.cell_of(s[f as int].position);
                    assert(cs[u0 + 1] == rest[u0]);
                    assert(cs[0] != cs[u0 + 1]);
                }
            }
        }
    }
}

/// Collects the bodies of the 3x3 neighborhood of interior bin `(i, j)`.
pub fn pocket(grid: &SpatialGrid, i: usize, j: usize) -> (r: Vec<usize>)
    requires
        grid.wf(),
        1 <= i < grid.dims.cols - 1,
        1 <= j < grid.dims.rows - 1,
    ensures
        r@ == pocket_spec(grid.table(), grid.dims, i as int, j as int),
{
    let mut r: Vec<usize> = Vec::new();
    append_cell(&mut r, grid.get(i - 1, j - 1));
    append_cell(&mut r, grid.get(i - 1, j));
    append_cell(&mut r, grid.get(i - 1, j + 1));
    append_cell(&mut r, grid.get(i, j - 1));
    append_cell(&mut r, grid.get(i, j));
    append_cell(&mut r, grid.get(i, j + 1));
    append_cell(&mut r, grid.get(i + 1, j - 1));
    append_cell(&mut r, grid.get(i + 1, j));
    append_cell(&mut r, grid.get(i + 1, j + 1));
    proof {
        reveal_with_fuel(concat_cells, 11);
        assert(r@ =~= pocket_spec(grid.table(), grid.dims, i as int, j as int));
    }
    r
}

/// Appends the contents of one cell to a candidate list.
fn append_cell(dst: &mut Vec<usize>, src: &Vec<usize>)
    ensures
        final(dst)@ == old(dst)@ + src@,
{
    let n = src.len();
    let mut t: usize = 0;
    while t < n
        invariant
            0 <= t <= n,
            n == src@.len(),
            dst@ == old(dst)@ + src@.take(t as int),
        decreases n - t,
    {
        dst.push(src[t]);
        proof {
            assert(dst@ =~= old(dst)@ + src@.take(t + 1));
        }
        t = t + 1;
    }
    proof {
        assert(src@.take(n as int) =~= src@);
    }
}

} // verus!

verus! {

/// The population after the plain grid pass starting at interior bin
/// `(i, j)`: neighborhoods are visited column by column, row by row, and
/// each candidate set is resolved against the then-current positions. The
/// table is the one built before the pass and stays fixed throughout it.
pub open spec fn grid_pass_from(
    s: Seq<VerletObject>,
    table: Seq<Seq<usize>>,
    d: GridDims,
    i: nat,
    j: nat,
) -> Seq<VerletObject>
    decreases d.cols - i, d.rows - j,
{
    if i + 1 >= d.cols {
        s
    } else if j + 1 >= d.rows {
        grid_pass_from(s, table, d, (i + 1) as nat, 1)
    } else {
        grid_pass_from(
            solved_at(s, pocket_spec(table, d, i as int, j as int)),
            table,
            d,
            i,
            (j + 1) as nat,
        )
    }
}

/// One full grid-based resolution pass: the grid is rebuilt from the
/// current positions, then every interior neighborhood is resolved.
pub open spec fn grid_solved(s: Seq<VerletObject>, d: GridDims) -> Seq<VerletObject> {
    grid_pass_from(s, cells_built(s, d, s.len()), d, 1, 1)
}

/// The population after the chunked pass from phase `(ro, co)` at bin
/// `(i, j)`: the nine phases run in order, and within a phase the visited
/// bins step by three along both axes starting at the phase offsets.
pub open spec fn chunk_pass_from(
    s: Seq<VerletObject>,
    table: Seq<Seq<usize>>,
    d: GridDims,
    ro: nat,
    co: nat,
    i: nat,
    j: nat,
) -> Seq<VerletObject>
    decreases 4 - ro, 4 - co, d.cols + 3 - i, d.rows + 3 - j,
{
    if ro >= 4 {
        s
    } else if co >= 4 {
        chunk_pass_from(s, table, d, (ro + 1) as nat, 1, (ro + 1) as nat, 1)
    } else if i + 1 >= d.cols {
        chunk_pass_from(s, table, d, ro, (co + 1) as nat, ro, (co + 1) as nat)
    } else if j + 1 >= d.rows {
        chunk_pass_from(s, table, d, ro, co, (i + 3) as nat, co)
    } else {
        chunk_pass_from(
            solved_at(s, pocket_spec(table, d, i as int, j as int)),
            table,
            d,
            ro,
            co,
            i,
            (j + 3) as nat,
        )
    }
}

/// One full chunked resolution pass over a freshly built grid.
pub open spec fn chunks_solved(s: Seq<VerletObject>, d: GridDims) -> Seq<VerletObject> {
    chunk_pass_from(s, cells_built(s, d, s.len()), d, 1, 1, 1, 1)
}

/// Rebuilds the grid from the current positions and resolves every interior
/// 3x3 neighborhood, column by column.
pub fn solve_grid(objects: &mut Vec<VerletObject>, grid: &mut SpatialGrid)
    requires
        old(grid).wf(),
        bodies_ok(old(objects)@),
    ensures
        final(grid).wf(),
        final(grid).dims == old(grid).dims,
        final(grid).table() == cells_built(old(objects)@, old(grid).dims, old(objects)@.len()),
        final(objects)@ == grid_solved(old(objects)@, old(grid).dims),
        final(objects)@.len() == old(objects)@.len(),
        bodies_ok(final(objects)@),
        forall|k: int|
            0 <= k < old(objects)@.len() ==> crate::collisions::same_frame(
                old(objects)@[k],
                #[trigger] final(objects)@[k],
            ),
{
    let ghost orig = objects@;
    grid.rebuild(objects);
    let ghost table = grid.table();
    let ghost d = grid.dims;
    let cols = grid.dims.cols;
    let rows = grid.dims.rows;
    let mut i: usize = 1;
    while i + 1 < cols
        invariant
            grid.wf(),
            table == grid.table(),
            d == grid.dims,
            cols == d.cols,
            rows == d.rows,
            table_models(table, d, orig),
            1 <= i <= cols,
            objects@.len() == orig.len(),
            bodies_ok(objects@),
            grid_pass_from(objects@, table, d, i as nat, 1) == grid_pass_from(
                orig,
                table,
                d,
                1,
                1,
            ),
        decreases cols - i,
    {
        let mut j: usize = 1;
        while j + 1 < rows
            invariant
                grid.wf(),
                table == grid.table(),
                d == grid.dims,
                cols == d.cols,
                rows == d.rows,
                table_models(table, d, orig),
                1 <= i,
                i + 1 < cols,
                1 <= j <= rows,
                objects@.len() == orig.len(),
                bodies_ok(objects@),
                grid_pass_from(objects@, table, d, i as nat, j as nat) == grid_pass_from(
                    orig,
                    table,
                    d,
                    1,
                    1,
                ),
            decreases rows - j,
        {
            let pk = pocket(grid, i, j);
            proof {
                lemma_pocket_cells_ok(d, i as int, j as int);
                lemma_concat_cells_ok(table, pocket_cells(d, i as int, j as int), d, orig);
            }
            let ghost before = objects@;
            solve_at(objects, &pk);
            proof {
                assert(grid_pass_from(before, table, d, i as nat, j as nat) == grid_pass_from(
                    objects@,
                    table,
                    d,
                    i as nat,
                    (j + 1) as nat,
                ));
            }
            j = j + 1;
        }
        proof {
            assert(grid_pass_from(objects@, table, d, i as nat, j as nat) == grid_pass_from(
                objects@,
                table,
                d,
                (i + 1) as nat,
                1,
            ));
        }
        i = i + 1;
    }
    proof {
        assert(grid_pass_from(objects@, table, d, i as nat, 1) == objects@);
        lemma_pockets_ok(table, d, orig);
        lemma_grid_pass_props(orig, table, d, 1, 1);
    }
}

/// Rebuilds the grid from the current positions and resolves every interior
/// 3x3 neighborhood in nine phases keyed by `(column mod 3, row mod 3)`.
/// Within one phase no two neighborhoods share a cell, so each phase is
/// safe to parallelize; the phases themselves run in order.
pub fn solve_grid_chunks(objects: &mut Vec<VerletObject>, grid: &mut SpatialGrid)
    requires
        old(grid).wf(),
        bodies_ok(old(objects)@),
    ensures
        final(grid).wf(),
        final(grid).dims == old(grid).dims,
        final(grid).table() == cells_built(old(objects)@, old(grid).dims, old(objects)@.len()),
        final(objects)@ == chunks_solved(old(objects)@, old(grid).dims),
        final(objects)@.len() == old(objects)@.len(),
        bodies_ok(final(objects)@),
        forall|k: int|
            0 <= k < old(objects)@.len() ==> crate::collisions::same_frame(
                old(objects)@[k],
                #[trigger] final(objects)@[k],
            ),
{
    let ghost orig = objects@;
    grid.rebuild(objects);
    let ghost table = grid.table();
    let ghost d = grid.dims;
    let cols = grid.dims.cols;
    let rows = grid.dims.rows;
    let mut ro: usize = 1;
    while ro < 4
        invariant
            grid.wf(),
            table == grid.table(),
            d == grid.dims,
            cols == d.cols,
            rows == d.rows,
            table_models(table, d, orig),
            1 <= ro <= 4,
            objects@.len() == orig.len(),
            bodies_ok(objects@),
            chunk_pass_from(objects@, table, d, ro as nat, 1, ro as nat, 1) == chunk_pass_from(
                orig,
                table,
                d,
                1,
                1,
                1,
                1,
            ),
        decreases 4 - ro,
    {
        let mut co: usize = 1;
        while co < 4
            invariant
                grid.wf(),
                table == grid.table(),
                d == grid.dims,
                cols == d.cols,
                rows == d.rows,
                table_models(table, d, orig),
                1 <= ro < 4,
                1 <= co <= 4,
                objects@.len() == orig.len(),
                bodies_ok(objects@),
                chunk_pass_from(objects@, table, d, ro as nat, co as nat, ro as nat, co as nat)
                    == chunk_pass_from(orig, table, d, 1, 1, 1, 1),
            decreases 4 - co,
        {
            let mut i: usize = ro;
            while i + 1 < cols
                invariant
                    grid.wf(),
                    table == grid.table(),
                    d == grid.dims,
                    cols == d.cols,
                    rows == d.rows,
                    table_models(table, d, orig),
                    1 <= ro < 4,
                    1 <= co < 4,
                    1 <= i <= cols + 2,
                    objects@.len() == orig.len(),
                    bodies_ok(objects@),
                    chunk_pass_from(objects@, table, d, ro as nat, co as nat, i as nat, co as nat)
                        == chunk_pass_from(orig, table, d, 1, 1, 1, 1),
                decreases cols + 3 - i,
            {
                let mut j: usize = co;
                while j + 1 < rows
                    invariant
                        grid.wf(),
                        table == grid.table(),
                        d == grid.dims,
                        cols == d.cols,
                        rows == d.rows,
                        table_models(table, d, orig),
                        1 <= ro < 4,
                        1 <= co < 4,
                        1 <= i,
                        i + 1 < cols,
                        1 <= j <= rows + 2,
                        objects@.len() == orig.len(),
                        bodies_ok(objects@),
                        chunk_pass_from(
                            objects@,
                            table,
                            d,
                            ro as nat,
                            co as nat,
                            i as nat,
                            j as nat,
                        ) == chunk_pass_from(orig, table, d, 1, 1, 1, 1),
                    decreases rows + 3 - j,
                {
                    let pk = pocket(grid, i, j);
                    proof {
                        lemma_pocket_cells_ok(d, i as int, j as int);
                        lemma_concat_cells_ok(table, pocket_cells(d, i as int, j as int), d, orig);
                    }
                    let ghost before = objects@;
                    solve_at(objects, &pk);
                    proof {
                        assert(chunk_pass_from(
                            before,
                            table,
                            d,
                            ro as nat,
                            co as nat,
                            i as nat,
                            j as nat,
                        ) == chunk_pass_from(
                            objects@,
                            table,
                            d,
                            ro as nat,
                            co as nat,
                            i as nat,
                            (j + 3) as nat,
                        ));
                    }
                    j = j + 3;
                }
                proof {
                    assert(chunk_pass_from(
                        objects@,
                        table,
                        d,
                        ro as nat,
                        co as nat,
                        i as nat,
                        j as nat,
                    ) == chunk_pass_from(
                        objects@,
                        table,
                        d,
                        ro as nat,
                        co as nat,
                        (i + 3) as nat,
                        co as nat,
                    ));
                }
                i = i + 3;
            }
            proof {
                assert(chunk_pass_from(
                    objects@,
                    table,
                    d,
                    ro as nat,
                    co as nat,
                    i as nat,
                    co as nat,
                ) == chunk_pass_from(
                    objects@,
                    table,
                    d,
                    ro as nat,
                    (co + 1) as nat,
                    ro as nat,
                    (co + 1) as nat,
                ));
            }
            co = co + 1;
        }
        proof {
            assert(chunk_pass_from(objects@, table, d, ro as nat, co as nat, ro as nat, co as nat)
                == chunk_pass_from(
                objects@,
                table,
                d,
                (ro + 1) as nat,
                1,
                (ro + 1) as nat,
                1,
            ));
        }
        ro = ro + 1;
    }
    proof {
        assert(chunk_pass_from(objects@, table, d, ro as nat, 1, ro as nat, 1) == objects@);
        lemma_pockets_ok(table, d, orig);
        lemma_chunk_pass_props(orig, table, d, 1, 1, 1, 1);
    }
}

} // verus!

verus! {

/// If no two bodies of the population overlap, the plain grid pass changes
/// nothing from any starting bin onward.
pub proof fn lemma_grid_pass_no_overlap(
    s: Seq<VerletObject>,
    table: Seq<Seq<usize>>,
    d: GridDims,
    i: nat,
    j: nat,
)
    requires
        d.wf(),
        bodies_ok(s),
        table_models(table, d, s),
        1 <= i,
        1 <= j,
        forall|a: int, b: int|
            0 <= a < s.len() && 0 <= b < s.len() && a != b ==> !crate::object::overlapping(
                s[a],
                s[b],
            ),
    ensures
        grid_pass_from(s, table, d, i, j) == s,
    decreases d.cols - i, d.rows - j,
{
    if i + 1 >= d.cols {
    } else if j + 1 >= d.rows {
        lemma_grid_pass_no_overlap(s, table, d, (i + 1) as nat, 1);
    } else {
        let pk = pocket_spec(table, d, i as int, j as int);
        lemma_pocket_cells_ok(d, i as int, j as int);
        lemma_concat_cells_ok(table, pocket_cells(d, i as int, j as int), d, s);
        assert forall|a: int, b: int|
            0 <= a < pk.len() && 0 <= b < pk.len() && a != b implies !crate::object::overlapping(
            s[pk[a] as int],
            s[pk[b] as int],
        ) by {
            assert(pk[a] != pk[b]);
        }
        lemma_solve_from_no_overlap(s, pk, 0, 1);
        assert(solved_at(s, pk) == s);
        lemma_grid_pass_no_overlap(s, table, d, i, (j + 1) as nat);
    }
}

/// If no two bodies of the population overlap, the chunked pass changes
/// nothing from any phase and bin onward.
pub proof fn lemma_chunk_pass_no_overlap(
    s: Seq<VerletObject>,
    table: Seq<Seq<usize>>,
    d: GridDims,
    ro: nat,
    co: nat,
    i: nat,
    j: nat,
)
    requires
        d.wf(),
        bodies_ok(s),
        table_models(table, d, s),
        1 <= ro,
        1 <= co,
        1 <= i,
        1 <= j,
        forall|a: int, b: int|
            0 <= a < s.len() && 0 <= b < s.len() && a != b ==> !crate::object::overlapping(
                s[a],
                s[b],
            ),
    ensures
        chunk_pass_from(s, table, d, ro, co, i, j) == s,
    decreases 4 - ro, 4 - co, d.cols + 3 - i, d.rows + 3 - j,
{
    if ro >= 4 {
    } else if co >= 4 {
        lemma_chunk_pass_no_overlap(s, table, d, (ro + 1) as nat, 1, (ro + 1) as nat, 1);
    } else if i + 1 >= d.cols {
        lemma_chunk_pass_no_overlap(s, table, d, ro, (co + 1) as nat, ro, (co + 1) as nat);
    } else if j + 1 >= d.rows {
        lemma_chunk_pass_no_overlap(s, table, d, ro, co, (i + 3) as nat, co);
    } else {
        let pk = pocket_spec(table, d, i as int, j as int);
        lemma_pocket_cells_ok(d, i as int, j as int);
        lemma_concat_cells_ok(table, pocket_cells(d, i as int, j as int), d, s);
        assert forall|a: int, b: int|
            0 <= a < pk.len() && 0 <= b < pk.len() && a != b implies !crate::object::overlapping(
            s[pk[a] as int],
            s[pk[b] as int],
        ) by {
            assert(pk[a] != pk[b]);
        }
        lemma_solve_from_no_overlap(s, pk, 0, 1);
        assert(solved_at(s, pk) == s);
        lemma_chunk_pass_no_overlap(s, table, d, ro, co, i, (j + 3) as nat);
    }
}

/// Collision resolution is idempotent on a separated population: when no
/// two bodies overlap, the grid pass and the chunked pass both leave every
/// position unchanged, exactly as the brute-force pass does.
pub proof fn lemma_no_overlap_identity(s: Seq<VerletObject>, d: GridDims)
    requires
        d.wf(),
        bodies_ok(s),
        s.len() <= usize::MAX,
        forall|a: int, b: int|
            0 <= a < s.len() && 0 <= b < s.len() && a != b ==> !crate::object::overlapping(
                s[a],
                s[b],
            ),
    ensures
        grid_solved(s, d) == s,
        chunks_solved(s, d) == s,
        crate::collisions::solved_all(s) == s,
{
    let table = cells_built(s, d, s.len());
    crate::grid::lemma_cells_built_models(s, d, s.len());
    lemma_grid_pass_no_overlap(s, table, d, 1, 1);
    lemma_chunk_pass_no_overlap(s, table, d, 1, 1, 1, 1);
    crate::collisions::lemma_solved_all_no_overlap(s);
}

/// Every interior bin index belongs to exactly one of the three phase
/// offsets `1, 2, 3`: the one congruent to it modulo three.
pub proof fn lemma_phase_cover(i: int)
    requires
        1 <= i,
    ensures
        1 <= (i - 1) % 3 + 1 < 4,
        ((i - 1) % 3 + 1) % 3 == i % 3,
        forall|r2: int| 1 <= r2 < 4 && (#[trigger] (r2 % 3)) == i % 3 ==> r2 == (i - 1) % 3 + 1,
{
}

/// Two distinct bins of the same phase are at least three apart on some
/// axis, so their 3x3 neighborhoods share no cell: within one phase, the
/// candidate sets are pairwise disjoint and the phase may run in parallel.
pub proof fn lemma_phase_disjoint(i1: int, j1: int, i2: int, j2: int)
    requires
        0 <= i1 && 0 <= i2 && 0 <= j1 && 0 <= j2,
        i1 % 3 == i2 % 3,
        j1 % 3 == j2 % 3,
        i1 != i2 || j1 != j2,
    ensures
        i1 + 1 < i2 - 1 || i2 + 1 < i1 - 1 || j1 + 1 < j2 - 1 || j2 + 1 < j1 - 1,
{
    if i1 != i2 {
        assert(i1 - i2 >= 3 || i2 - i1 >= 3);
    } else {
        assert(j1 - j2 >= 3 || j2 - j1 >= 3);
    }
}

} // verus!

verus! {

/// Every interior pocket of the table is a valid candidate set for a
/// population of `n` bodies. Unlike `table_models`, this depends only on
/// the table and the population size, so it survives position updates.
pub open spec fn pockets_ok(table: Seq<Seq<usize>>, d: GridDims, n: nat) -> bool {
    forall|i: int, j: int|
        1 <= i < d.cols - 1 && 1 <= j < d.rows - 1 ==> indexes_ok(
            #[trigger] pocket_spec(table, d, i, j),
            n,
        )
}

/// A table that models a population has valid pockets everywhere.
pub proof fn lemma_pockets_ok(table: Seq<Seq<usize>>, d: GridDims, s: Seq<VerletObject>)
    requires
        d.wf(),
        table_models(table, d, s),
    ensures
        pockets_ok(table, d, s.len()),
{
    assert forall|i: int, j: int|
        1 <= i < d.cols - 1 && 1 <= j < d.rows - 1 implies indexes_ok(
        #[trigger] pocket_spec(table, d, i, j),
        s.len(),
    ) by {
        lemma_pocket_cells_ok(d, i, j);
        lemma_concat_cells_ok(table, pocket_cells(d, i, j), d, s);
    }
}

/// A grid pass keeps the population's length, well-formedness and every
/// non-positional field.
pub proof fn lemma_grid_pass_props(
    s: Seq<VerletObject>,
    table: Seq<Seq<usize>>,
    d: GridDims,
    i: nat,
    j: nat,
)
    requires
        d.wf(),
        bodies_ok(s),
        pockets_ok(table, d, s.len()),
        1 <= i,
        1 <= j,
    ensures
        grid_pass_from(s, table, d, i, j).len() == s.len(),
        bodies_ok(grid_pass_from(s, table, d, i, j)),
        forall|k: int|
            0 <= k < s.len() ==> crate::collisions::same_frame(
                s[k],
                #[trigger] grid_pass_from(s, table, d, i, j)[k],
            ),
    decreases d.cols - i, d.rows - j,
{
    if i + 1 >= d.cols {
    } else if j + 1 >= d.rows {
        lemma_grid_pass_props(s, table, d, (i + 1) as nat, 1);
    } else {
        let pk = pocket_spec(table, d, i as int, j as int);
        lemma_solve_from_props(s, pk, 0, 1);
        let s1 = solved_at(s, pk);
        lemma_grid_pass_props(s1, table, d, i, (j + 1) as nat);
    }
}

/// A chunked pass keeps the population's length, well-formedness and every
/// non-positional field.
pub proof fn lemma_chunk_pass_props(
    s: Seq<VerletObject>,
    table: Seq<Seq<usize>>,
    d: GridDims,
    ro: nat,
    co: nat,
    i: nat,
    j: nat,
)
    requires
        d.wf(),
        bodies_ok(s),
        pockets_ok(table, d, s.len()),
        1 <= ro,
        1 <= co,
        1 <= i,
        1 <= j,
    ensures
        chunk_pass_from(s, table, d, ro, co, i, j).len() == s.len(),
        bodies_ok(chunk_pass_from(s, table, d, ro, co, i, j)),
        forall|k: int|
            0 <= k < s.len() ==> crate::collisions::same_frame(
                s[k],
                #[trigger] chunk_pass_from(s, table, d, ro, co, i, j)[k],
            ),
    decreases 4 - ro, 4 - co, d.cols + 3 - i, d.rows + 3 - j,
{
    if ro >= 4 {
    } else if co >= 4 {
        lemma_chunk_pass_props(s, table, d, (ro + 1) as nat, 1, (ro + 1) as nat, 1);
    } else if i + 1 >= d.cols {
        lemma_chunk_pass_props(s, table, d, ro, (co + 1) as nat, ro, (co + 1) as nat);
    } else if j + 1 >= d.rows {
        lemma_chunk_pass_props(s, table, d, ro, co, (i + 3) as nat, co);
    } else {
        let pk = pocket_spec(table, d, i as int, j as int);
        lemma_solve_from_props(s, pk, 0, 1);
        let s1 = solved_at(s, pk);
        lemma_chunk_pass_props(s1, table, d, ro, co, i, (j + 3) as nat);
    }
}

} // verus!

verus! {

/// Whether a bin is interior: only interior bins are collision-tested, so
/// that the 3x3 neighborhood never reaches outside the grid.
pub open spec fn interior_bin(d: GridDims, p: (int, int)) -> bool {
    &&& 1 <= p.0 < d.cols - 1
    &&& 1 <= p.1 < d.rows - 1
}

/// All interior bins.
pub open spec fn interior_bins(d: GridDims) -> Set<(int, int)> {
    Set::new(|p: (int, int)| interior_bin(d, p))
}

/// The bins the plain grid pass visits from `(i, j)` onward: the recursion
/// follows `grid_pass_from` branch for branch, recording the bin wherever
/// that pass resolves a pocket.
pub open spec fn grid_bins_from(d: GridDims, i: nat, j: nat) -> Set<(int, int)>
    decreases d.cols - i, d.rows - j,
{
    if i + 1 >= d.cols {
        Set::empty()
    } else if j + 1 >= d.rows {
        grid_bins_from(d, (i + 1) as nat, 1)
    } else {
        grid_bins_from(d, i, (j + 1) as nat).insert((i as int, j as int))
    }
}

/// The bins the chunked pass visits from phase `(ro, co)` at `(i, j)`
/// onward: the recursion follows `chunk_pass_from` branch for branch,
/// recording the bin wherever that pass resolves a pocket.
pub open spec fn chunk_bins_from(d: GridDims, ro: nat, co: nat, i: nat, j: nat) -> Set<(int, int)>
    decreases 4 - ro, 4 - co, d.cols + 3 - i, d.rows + 3 - j,
{
    if ro >= 4 {
        Set::empty()
    } else if co >= 4 {
        chunk_bins_from(d, (ro + 1) as nat, 1, (ro + 1) as nat, 1)
    } else if i + 1 >= d.cols {
        chunk_bins_from(d, ro, (co + 1) as nat, ro, (co + 1) as nat)
    } else if j + 1 >= d.rows {
        chunk_bins_from(d, ro, co, (i + 3) as nat, co)
    } else {
        chunk_bins_from(d, ro, co, i, (j + 3) as nat).insert((i as int, j as int))
    }
}

/// The interior bins at or after `(i, j)` in the plain pass's scan order.
spec fn scan_tail(d: GridDims, i: int, j: int) -> Set<(int, int)> {
    Set::new(|p: (int, int)| interior_bin(d, p) && (p.0 > i || (p.0 == i && p.1 >= j)))
}

/// The interior bins of one phase.
spec fn phase_bins(d: GridDims, ro: int, co: int) -> Set<(int, int)> {
    Set::new(
        |p: (int, int)| interior_bin(d, p) && p.0 % 3 == ro % 3 && p.1 % 3 == co % 3,
    )
}

/// The interior bins of one phase at or after `(i, j)` in its scan order.
spec fn phase_tail(d: GridDims, ro: int, co: int, i: int, j: int) -> Set<(int, int)> {
    Set::new(
        |p: (int, int)|
            interior_bin(d, p) && p.0 % 3 == ro % 3 && p.1 % 3 == co % 3 && (p.0 > i || (p.0 == i
                && p.1 >= j)),
    )
}

/// The interior bins of all phases from `(ro, co)` onward.
spec fn phases_from(d: GridDims, ro: nat, co: nat) -> Set<(int, int)>
    decreases 4 - ro, 4 - co,
{
    if ro >= 4 {
        Set::empty()
    } else if co >= 4 {
        phases_from(d, (ro + 1) as nat, 1)
    } else {
        phase_bins(d, ro as int, co as int).union(phases_from(d, ro, (co + 1) as nat))
    }
}

/// The plain pass visits exactly the interior bins at or after its current
/// position.
proof fn lemma_grid_bins(d: GridDims, i: nat, j: nat)
    requires
        d.wf(),
        1 <= i,
        1 <= j,
    ensures
        grid_bins_from(d, i, j) == scan_tail(d, i as int, j as int),
    decreases d.cols - i, d.rows - j,
{
    if i + 1 >= d.cols {
        assert(grid_bins_from(d, i, j) =~= scan_tail(d, i as int, j as int));
    } else if j + 1 >= d.rows {
        lemma_grid_bins(d, (i + 1) as nat, 1);
        assert(grid_bins_from(d, i, j) =~= scan_tail(d, i as int, j as int));
    } else {
        lemma_grid_bins(d, i, (j + 1) as nat);
        assert(grid_bins_from(d, i, j) =~= scan_tail(d, i as int, j as int));
    }
}

/// A phase entered at its offset bin covers all of its bins: any bin of the
/// phase lies at or after `(ro, co)` in the phase's scan order.
proof fn lemma_phase_from_start(d: GridDims, ro: int, co: int)
    requires
        1 <= ro <= 3,
        1 <= co <= 3,
    ensures
        phase_tail(d, ro, co, ro, co) == phase_bins(d, ro, co),
{
    assert forall|p: (int, int)| phase_bins(d, ro, co).contains(p) implies phase_tail(
        d,
        ro,
        co,
        ro,
        co,
    ).contains(p) by {
        assert(p.0 >= 1 && p.0 % 3 == ro % 3);
        assert(p.0 >= ro);
        if p.0 == ro {
            assert(p.1 >= 1 && p.1 % 3 == co % 3);
            assert(p.1 >= co);
        }
    }
    assert(phase_tail(d, ro, co, ro, co) =~= phase_bins(d, ro, co));
}

/// The chunked pass visits, from any of its states onward, exactly the rest
/// of the current phase and then the remaining phases whole.
proof fn lemma_chunk_bins(d: GridDims, ro: nat, co: nat, i: nat, j: nat)
    requires
        d.wf(),
        1 <= ro,
        1 <= co <= 4,
        co <= 3 ==> {
            &&& 1 <= i
            &&& 1 <= j
            &&& i % 3 == ro % 3
            &&& j % 3 == co % 3
        },
    ensures
        chunk_bins_from(d, ro, co, i, j) == if ro >= 4 {
            Set::<(int, int)>::empty()
        } else if co >= 4 {
            phases_from(d, (ro + 1) as nat, 1)
        } else {
            phase_tail(d, ro as int, co as int, i as int, j as int).union(
                phases_from(d, ro, (co + 1) as nat),
            )
        },
    decreases 4 - ro, 4 - co, d.cols + 3 - i, d.rows + 3 - j,
{
    if ro >= 4 {
    } else if co >= 4 {
        lemma_chunk_bins(d, (ro + 1) as nat, 1, (ro + 1) as nat, 1);
        if ro + 1 >= 4 {
            assert(chunk_bins_from(d, ro, co, i, j) =~= phases_from(d, (ro + 1) as nat, 1));
        } else {
            lemma_phase_from_start(d, ro as int + 1, 1);
            assert(chunk_bins_from(d, ro, co, i, j) =~= phases_from(d, (ro + 1) as nat, 1));
        }
    } else if i + 1 >= d.cols {
        lemma_chunk_bins(d, ro, (co + 1) as nat, ro, (co + 1) as nat);
        if co + 1 >= 4 {
            assert(chunk_bins_from(d, ro, co, i, j) =~= phase_tail(
                d,
                ro as int,
                co as int,
                i as int,
                j as int,
            ).union(phases_from(d, ro, (co + 1) as nat)));
        } else {
            lemma_phase_from_start(d, ro as int, co as int + 1);
            assert(chunk_bins_from(d, ro, co, i, j) =~= phase_tail(
                d,
                ro as int,
                co as int,
                i as int,
                j as int,
            ).union(phases_from(d, ro, (co + 1) as nat)));
        }
    } else if j + 1 >= d.rows {
        lemma_chunk_bins(d, ro, co, (i + 3) as nat, co);
        assert forall|p: (int, int)|
            phase_tail(d, ro as int, co as int, i as int, j as int).contains(p) implies phase_tail(
            d,
            ro as int,
            co as int,
            i as int + 3,
            co as int,
        ).contains(p) by {
            assert(p.1 < d.rows - 1 && j + 1 >= d.rows ==> p.1 < j);
            assert(p.0 > i);
            assert(p.0 % 3 == i % 3);
            assert(p.0 >= i + 3);
            if p.0 == i + 3 {
                assert(p.1 >= co);
            }
        }
        assert(chunk_bins_from(d, ro, co, i, j) =~= phase_tail(
            d,
            ro as int,
            co as int,
            i as int,
            j as int,
        ).union(phases_from(d, ro, (co + 1) as nat)));
    } else {
        lemma_chunk_bins(d, ro, co, i, (j + 3) as nat);
        assert forall|p: (int, int)|
            phase_tail(d, ro as int, co as int, i as int, j as int).contains(p) && p != ((
            i as int,
            j as int,
        )) implies phase_tail(d, ro as int, co as int, i as int, j as int + 3).contains(p) by {
            if p.0 == i {
                assert(p.1 % 3 == j % 3);
                assert(p.1 > j ==> p.1 >= j + 3);
            }
        }
        assert(chunk_bins_from(d, ro, co, i, j) =~= phase_tail(
            d,
            ro as int,
            co as int,
            i as int,
            j as int,
        ).union(phases_from(d, ro, (co + 1) as nat)));
    }
}

/// The nine phases together are exactly the interior bins.
proof fn lemma_phases_cover_interior(d: GridDims)
    requires
        d.wf(),
    ensures
        phases_from(d, 1, 1) == interior_bins(d),
{
    assert forall|p: (int, int)| interior_bins(d).contains(p) implies phases_from(
        d,
        1,
        1,
    ).contains(p) by {
        let r0 = (p.0 - 1) % 3 + 1;
        let c0 = (p.1 - 1) % 3 + 1;
        lemma_phase_cover(p.0);
        lemma_phase_cover(p.1);
        assert(phase_bins(d, r0, c0).contains(p));
        lemma_phase_in_phases_from(d, 1, 1, r0, c0);
    }
    assert forall|p: (int, int)| phases_from(d, 1, 1).contains(p) implies interior_bins(
        d,
    ).contains(p) by {
        lemma_phases_from_interior(d, 1, 1, p);
    }
    assert(phases_from(d, 1, 1) =~= interior_bins(d));
}

/// Every bin of every phase enumeration is interior.
proof fn lemma_phases_from_interior(d: GridDims, ro: nat, co: nat, p: (int, int))
    requires
        phases_from(d, ro, co).contains(p),
    ensures
        interior_bin(d, p),
    decreases 4 - ro, 4 - co,
{
    if ro >= 4 {
    } else if co >= 4 {
        lemma_phases_from_interior(d, (ro + 1) as nat, 1, p);
    } else {
        if !phase_bins(d, ro as int, co as int).contains(p) {
            lemma_phases_from_interior(d, ro, (co + 1) as nat, p);
        }
    }
}

/// A phase at or after `(ro, co)` in the enumeration contributes all of its
/// bins to the enumeration.
proof fn lemma_phase_in_phases_from(d: GridDims, ro: nat, co: nat, r0: int, c0: int)
    requires
        1 <= ro <= 4,
        1 <= co <= 4,
        1 <= r0 <= 3,
        1 <= c0 <= 3,
        r0 > ro || (r0 == ro && c0 >= co),
    ensures
        phase_bins(d, r0, c0).subset_of(phases_from(d, ro, co)),
    decreases 4 - ro, 4 - co,
{
    if ro >= 4 {
        assert(false);
    } else if co >= 4 {
        lemma_phase_in_phases_from(d, (ro + 1) as nat, 1, r0, c0);
    } else {
        if r0 == ro && c0 == co {
        } else {
            lemma_phase_in_phases_from(d, ro, (co + 1) as nat, r0, c0);
        }
    }
}

/// The phased chunk schedule visits exactly the same neighborhoods as the
/// plain grid pass: both passes resolve the candidate set of every interior
/// bin, and of nothing else. Partitioning into phases changes the order of
/// the work, never its extent.
pub proof fn lemma_passes_visit_same_bins(d: GridDims)
    requires
        d.wf(),
    ensures
        grid_bins_from(d, 1, 1) == interior_bins(d),
        chunk_bins_from(d, 1, 1, 1, 1) == interior_bins(d),
{
    lemma_grid_bins(d, 1, 1);
    assert(scan_tail(d, 1, 1) =~= interior_bins(d));
    lemma_chunk_bins(d, 1, 1, 1, 1);
    lemma_phase_from_start(d, 1, 1);
    lemma_phases_cover_interior(d);
    assert(phase_tail(d, 1, 1, 1, 1).union(phases_from(d, 1, 2)) =~= phases_from(d, 1, 1));
}

} // verus!
