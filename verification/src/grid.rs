//! The spatial index: a uniform grid of buckets over the plane.
//!
//! The grid has a fixed number of columns and rows of square cells, the
//! first of which has its corner at the origin. A position outside the grid
//! counts for the nearest cell at its edge, so that every position has a
//! cell, and two positions no further apart than the cell size always have
//! the same cell or adjacent ones.

use crate::fixed::{is_within, within, Vec2};
use crate::store::{ParticleStore, StoreView};
use vstd::prelude::*;

verus! {

/// The largest number of columns, and of rows, of a grid.
pub const MAX_SIDE: usize = 4096;

/// One indexed particle: its id and where it was when the index was built.
#[derive(Clone, Copy, Debug, PartialEq, Eq, Structural)]
pub struct Entry {
    pub id: usize,
    pub position: Vec2,
}

/// The column (or row) of the coordinate `x` in a grid with `count` columns
/// (or rows) of cells of size `cell_size`.
pub open spec fn cell_coord(x: int, cell_size: int, count: int) -> int {
    if x < 0 {
        0
    } else if x / cell_size >= count {
        count - 1
    } else {
        x / cell_size
    }
}

/// The ids of the entries of a bucket that lie within `radius` of
/// `position`, in the bucket's order.
pub open spec fn within_ids(bucket: Seq<Entry>, position: Vec2, radius: int) -> Seq<usize>
    decreases bucket.len(),
{
    if bucket.len() == 0 {
        Seq::empty()
    } else if within(position, bucket.last().position, radius) {
        within_ids(bucket.drop_last(), position, radius).push(bucket.last().id)
    } else {
        within_ids(bucket.drop_last(), position, radius)
    }
}

/// An index as a mathematical value.
pub struct IndexView {
    pub cell_size: int,
    pub cols: int,
    pub rows: int,
    /// The buckets, row by row.
    pub buckets: Seq<Seq<Entry>>,
}

impl IndexView {
    /// The bucket of the cell that `position` counts for.
    pub open spec fn bucket_of(self, position: Vec2) -> int {
        cell_coord(position.y as int, self.cell_size, self.rows) * self.cols + cell_coord(
            position.x as int,
            self.cell_size,
            self.cols,
        )
    }

    /// Whether the index holds the entry `e`.
    pub open spec fn contains(self, e: Entry) -> bool {
        exists|b: int, i: int| self.holds_at(b, i) && self.buckets[b][i] == e
    }

    /// Whether `i` is a place in bucket `b`.
    pub open spec fn holds_at(self, b: int, i: int) -> bool {
        0 <= b < self.buckets.len() && 0 <= i < self.buckets[b].len()
    }

    /// Every entry is in the bucket of its cell, and no id occurs twice.
    pub open spec fn wf(self) -> bool {
        &&& 1 <= self.cell_size <= i32::MAX
        &&& 1 <= self.cols <= MAX_SIDE
        &&& 1 <= self.rows <= MAX_SIDE
        &&& self.buckets.len() == self.cols * self.rows
        &&& forall|b: int, i: int| #[trigger]
            self.holds_at(b, i) ==> self.bucket_of(self.buckets[b][i].position) == b
        &&& forall|b: int, i: int, c: int, j: int|
            #[trigger] self.holds_at(b, i) && #[trigger] self.holds_at(c, j) && self.buckets[b][i].id
                == self.buckets[c][j].id ==> b == c && i == j
    }

    /// Whether the index holds exactly the live particles of `store`, each
    /// at its position.
    pub open spec fn mirrors(self, store: StoreView) -> bool {
        &&& forall|b: int, i: int| #[trigger]
            self.holds_at(b, i) ==> store.is_live(self.buckets[b][i].id as int) && store.particle(
                self.buckets[b][i].id as int,
            ).position == self.buckets[b][i].position
        &&& forall|id: int| #[trigger]
            store.is_live(id) ==> self.contains(
                Entry { id: id as usize, position: store.particle(id).position },
            )
    }

    /// The bucket of the cell in column `x` of row `y`.
    pub open spec fn cell(self, x: int, y: int) -> int {
        y * self.cols + x
    }

    /// Whether entry `i` of the cell in column `x` of row `y` has the id `id`
    /// and lies within `radius` of `position`.
    pub open spec fn hit(self, x: int, y: int, i: int, id: usize, position: Vec2, radius: int) -> bool {
        &&& 0 <= x < self.cols
        &&& 0 <= y < self.rows
        &&& self.holds_at(self.cell(x, y), i)
        &&& self.buckets[self.cell(x, y)][i].id == id
        &&& within(position, self.buckets[self.cell(x, y)][i].position, radius)
    }

    /// The ids within `radius` of `position` in row `y`, from column `x_lo`
    /// up to but not including column `x_hi`, cell after cell.
    pub open spec fn row_ids(self, y: int, x_lo: int, x_hi: int, position: Vec2, radius: int) -> Seq<
        usize,
    >
        decreases x_hi - x_lo,
    {
        if x_hi <= x_lo {
            Seq::empty()
        } else {
            self.row_ids(y, x_lo, x_hi - 1, position, radius) + within_ids(
                self.buckets[self.cell(x_hi - 1, y)],
                position,
                radius,
            )
        }
    }

    /// The ids within `radius` of `position` in the rows from `y_lo` up to
    /// but not including `y_hi`, row after row.
    pub open spec fn block_ids(
        self,
        y_lo: int,
        y_hi: int,
        x_lo: int,
        x_hi: int,
        position: Vec2,
        radius: int,
    ) -> Seq<usize>
        decreases y_hi - y_lo,
    {
        if y_hi <= y_lo {
            Seq::empty()
        } else {
            self.block_ids(y_lo, y_hi - 1, x_lo, x_hi, position, radius) + self.row_ids(
                y_hi - 1,
                x_lo,
                x_hi,
                position,
                radius,
            )
        }
    }

    /// What a neighbour query returns: the ids within `radius` of `position`
    /// in the cell of `position` and the cells around it.
    pub open spec fn neighbors(self, position: Vec2, radius: int) -> Seq<usize> {
        let cx = cell_coord(position.x as int, self.cell_size, self.cols);
        let cy = cell_coord(position.y as int, self.cell_size, self.rows);
        self.block_ids(
            block_low(cy),
            block_high(cy, self.rows),
            block_low(cx),
            block_high(cx, self.cols),
            position,
            radius,
        )
    }

    /// Whether the index holds no entry.
    pub open spec fn is_empty(self) -> bool {
        forall|b: int| 0 <= b < self.buckets.len() ==> (#[trigger] self.buckets[b]).len() == 0
    }
}

/// A cell of the grid has a bucket.
pub proof fn lemma_bucket_in_range(cx: int, cy: int, cols: int, rows: int)
    requires
        0 <= cx < cols,
        0 <= cy < rows,
    ensures
        0 <= cy * cols + cx < cols * rows,
{
    assert(0 <= cy * cols + cx < cols * rows) by (nonlinear_arith)
        requires
            0 <= cx < cols,
            0 <= cy < rows,
    ;
}

/// Two cells with the same bucket are the same cell.
pub proof fn lemma_bucket_injective(cx: int, cy: int, dx: int, dy: int, cols: int)
    requires
        0 <= cx < cols,
        0 <= dx < cols,
        cy * cols + cx == dy * cols + dx,
    ensures
        cx == dx,
        cy == dy,
{
    assert(cy == dy) by (nonlinear_arith)
        requires
            0 <= cx < cols,
            0 <= dx < cols,
            cy * cols + cx == dy * cols + dx,
    ;
}

/// A coordinate's cell is a cell of the grid.
pub proof fn lemma_cell_coord_range(x: int, cell_size: int, count: int)
    requires
        cell_size >= 1,
        count >= 1,
    ensures
        0 <= cell_coord(x, cell_size, count) < count,
{
    if x >= 0 {
        assert(x / cell_size >= 0) by (nonlinear_arith)
            requires
                x >= 0,
                cell_size >= 1,
        ;
    }
}

/// Coordinates no further apart than the cell size have the same cell or
/// adjacent ones.
pub proof fn lemma_cells_adjacent(x: int, y: int, cell_size: int, count: int)
    requires
        cell_size >= 1,
        count >= 1,
        x <= y <= x + cell_size,
    ensures
        cell_coord(x, cell_size, count) <= cell_coord(y, cell_size, count) <= cell_coord(
            x,
            cell_size,
            count,
        ) + 1,
{
    lemma_cell_coord_range(x, cell_size, count);
    lemma_cell_coord_range(y, cell_size, count);
    if y >= 0 {
        if x >= 0 {
            assert(x / cell_size <= y / cell_size <= x / cell_size + 1) by (nonlinear_arith)
                requires
                    cell_size >= 1,
                    0 <= x <= y <= x + cell_size,
            ;
        } else {
            assert(y / cell_size <= 1) by (nonlinear_arith)
                requires
                    cell_size >= 1,
                    0 <= y <= cell_size,
            ;
        }
    }
}

/// The first column (or row) that a query from column (or row) `c` visits.
pub open spec fn block_low(c: int) -> int {
    if c > 0 {
        c - 1
    } else {
        0
    }
}

/// The column (or row) before which a query from column (or row) `c` of
/// `count` stops.
pub open spec fn block_high(c: int, count: int) -> int {
    if c + 2 <= count {
        c + 2
    } else {
        count
    }
}

/// A point within a radius differs by no more than the radius in either
/// coordinate.
pub proof fn lemma_within_box(a: Vec2, b: Vec2, radius: int)
    requires
        within(a, b, radius),
    ensures
        a.x - radius <= b.x <= a.x + radius,
        a.y - radius <= b.y <= a.y + radius,
{
    let dx = b.x - a.x;
    let dy = b.y - a.y;
    assert(-radius <= dx <= radius && -radius <= dy <= radius) by (nonlinear_arith)
        requires
            radius >= 0,
            dx * dx + dy * dy <= radius * radius,
    ;
}

/// Of a bucket without a repeated id, `within_ids` lists each id within the
/// radius once and no other.
pub proof fn lemma_within_ids(bucket: Seq<Entry>, position: Vec2, radius: int)
    requires
        forall|i: int, j: int| 0 <= i < j < bucket.len() ==> bucket[i].id != bucket[j].id,
    ensures
        within_ids(bucket, position, radius).no_duplicates(),
        forall|id: usize| #[trigger]
            within_ids(bucket, position, radius).contains(id) <==> exists|i: int|
                0 <= i < bucket.len() && (#[trigger] bucket[i]).id == id && within(
                    position,
                    bucket[i].position,
                    radius,
                ),
    decreases bucket.len(),
{
    broadcast use vstd::seq_lib::lemma_seq_contains_after_push;

    let all = within_ids(bucket, position, radius);
    if bucket.len() > 0 {
        let rest = bucket.drop_last();
        let last = bucket.last();
        let before = within_ids(rest, position, radius);
        lemma_within_ids(rest, position, radius);
        assert forall|id: usize| #[trigger] all.contains(id) <==> exists|i: int|
            0 <= i < bucket.len() && (#[trigger] bucket[i]).id == id && within(
                position,
                bucket[i].position,
                radius,
            ) by {
            if before.contains(id) {
                let i = choose|i: int|
                    0 <= i < rest.len() && (#[trigger] rest[i]).id == id && within(
                        position,
                        rest[i].position,
                        radius,
                    );
                assert(bucket[i] == rest[i]);
            }
            if exists|i: int|
                0 <= i < bucket.len() && (#[trigger] bucket[i]).id == id && within(
                    position,
                    bucket[i].position,
                    radius,
                ) {
                let i = choose|i: int|
                    0 <= i < bucket.len() && (#[trigger] bucket[i]).id == id && within(
                        position,
                        bucket[i].position,
                        radius,
                    );
                if i < rest.len() {
                    assert(rest[i] == bucket[i]);
                }
            }
        }
        if within(position, last.position, radius) {
            if before.contains(last.id) {
                let i = choose|i: int|
                    0 <= i < rest.len() && (#[trigger] rest[i]).id == last.id && within(
                        position,
                        rest[i].position,
                        radius,
                    );
                assert(bucket[i] == rest[i]);
                assert(false);
            }
            assert forall|i: int, j: int| 0 <= i < j < all.len() implies all[i] != all[j] by {
                if j == all.len() - 1 {
                    assert(before[i] == all[i]);
                    assert(before.contains(all[i]));
                } else {
                    assert(before[i] == all[i] && before[j] == all[j]);
                }
            }
        }
    }
}

/// Of a well-formed index, `row_ids` lists each id within the radius in the
/// given columns of a row once and no other.
pub proof fn lemma_row_ids(v: IndexView, y: int, x_lo: int, x_hi: int, position: Vec2, radius: int)
    requires
        v.wf(),
        0 <= y < v.rows,
        0 <= x_lo <= x_hi <= v.cols,
    ensures
        v.row_ids(y, x_lo, x_hi, position, radius).no_duplicates(),
        forall|id: usize| #[trigger]
            v.row_ids(y, x_lo, x_hi, position, radius).contains(id) <==> exists|x: int, i: int|
                x_lo <= x < x_hi && #[trigger] v.hit(x, y, i, id, position, radius),
    decreases x_hi - x_lo,
{
    broadcast use vstd::seq_lib::lemma_seq_concat_contains_all_elements;

    let all = v.row_ids(y, x_lo, x_hi, position, radius);
    if x_hi > x_lo {
        let last = x_hi - 1;
        let b = v.cell(last, y);
        let before = v.row_ids(y, x_lo, last, position, radius);
        let here = within_ids(v.buckets[b], position, radius);
        lemma_row_ids(v, y, x_lo, last, position, radius);
        lemma_bucket_in_range(last, y, v.cols, v.rows);
        assert forall|i: int, j: int| 0 <= i < j < v.buckets[b].len() implies v.buckets[b][i].id
            != v.buckets[b][j].id by {
            assert(v.holds_at(b, i) && v.holds_at(b, j));
        }
        lemma_within_ids(v.buckets[b], position, radius);
        assert forall|id: usize| #[trigger] all.contains(id) <==> exists|x: int, i: int|
            x_lo <= x < x_hi && #[trigger] v.hit(x, y, i, id, position, radius) by {
            if before.contains(id) {
                let (x, i) = choose|x: int, i: int|
                    x_lo <= x < last && #[trigger] v.hit(x, y, i, id, position, radius);
                assert(x_lo <= x < x_hi && v.hit(x, y, i, id, position, radius));
            }
            if here.contains(id) {
                let i = choose|i: int|
                    0 <= i < v.buckets[b].len() && (#[trigger] v.buckets[b][i]).id == id && within(
                        position,
                        v.buckets[b][i].position,
                        radius,
                    );
                assert(v.hit(last, y, i, id, position, radius));
            }
            if exists|x: int, i: int|
                x_lo <= x < x_hi && #[trigger] v.hit(x, y, i, id, position, radius) {
                let (x, i) = choose|x: int, i: int|
                    x_lo <= x < x_hi && #[trigger] v.hit(x, y, i, id, position, radius);
                if x == last {
                    assert(v.buckets[b][i].id == id);
                    assert(here.contains(id));
                } else {
                    assert(x_lo <= x < last && v.hit(x, y, i, id, position, radius));
                    assert(before.contains(id));
                }
            }
        }
        assert forall|i: int, j: int| 0 <= i < before.len() && 0 <= j < here.len() implies before[i]
            != here[j] by {
            let id = before[i];
            assert(before.contains(id));
            if id == here[j] {
                assert(here.contains(id));
                let (x, k) = choose|x: int, k: int|
                    x_lo <= x < last && #[trigger] v.hit(x, y, k, id, position, radius);
                let m = choose|m: int|
                    0 <= m < v.buckets[b].len() && (#[trigger] v.buckets[b][m]).id == id && within(
                        position,
                        v.buckets[b][m].position,
                        radius,
                    );
                assert(v.holds_at(v.cell(x, y), k) && v.holds_at(b, m));
                lemma_bucket_injective(x, y, last, y, v.cols);
            }
        }
        vstd::seq_lib::lemma_no_dup_in_concat(before, here);
    }
}

/// Of a well-formed index, `block_ids` lists each id within the radius in
/// the given block of cells once and no other.
pub proof fn lemma_block_ids(
    v: IndexView,
    y_lo: int,
    y_hi: int,
    x_lo: int,
    x_hi: int,
    position: Vec2,
    radius: int,
)
    requires
        v.wf(),
        0 <= y_lo <= y_hi <= v.rows,
        0 <= x_lo <= x_hi <= v.cols,
    ensures
        v.block_ids(y_lo, y_hi, x_lo, x_hi, position, radius).no_duplicates(),
        forall|id: usize| #[trigger]
            v.block_ids(y_lo, y_hi, x_lo, x_hi, position, radius).contains(id) <==> exists|
                x: int,
                y: int,
                i: int,
            |
                x_lo <= x < x_hi && y_lo <= y < y_hi && #[trigger] v.hit(
                    x,
                    y,
                    i,
                    id,
                    position,
                    radius,
                ),
    decreases y_hi - y_lo,
{
    broadcast use vstd::seq_lib::lemma_seq_concat_contains_all_elements;

    let all = v.block_ids(y_lo, y_hi, x_lo, x_hi, position, radius);
    if y_hi > y_lo {
        let last = y_hi - 1;
        let before = v.block_ids(y_lo, last, x_lo, x_hi, position, radius);
        let here = v.row_ids(last, x_lo, x_hi, position, radius);
        lemma_block_ids(v, y_lo, last, x_lo, x_hi, position, radius);
        lemma_row_ids(v, last, x_lo, x_hi, position, radius);
        assert forall|id: usize| #[trigger] all.contains(id) <==> exists|x: int, y: int, i: int|
            x_lo <= x < x_hi && y_lo <= y < y_hi && #[trigger] v.hit(
                x,
                y,
                i,
                id,
                position,
                radius,
            ) by {
            if before.contains(id) {
                let (x, y, i) = choose|x: int, y: int, i: int|
                    x_lo <= x < x_hi && y_lo <= y < last && #[trigger] v.hit(
                        x,
                        y,
                        i,
                        id,
                        position,
                        radius,
                    );
                assert(y_lo <= y < y_hi && v.hit(x, y, i, id, position, radius));
            }
            if here.contains(id) {
                let (x, i) = choose|x: int, i: int|
                    x_lo <= x < x_hi && #[trigger] v.hit(x, last, i, id, position, radius);
                assert(y_lo <= last < y_hi && v.hit(x, last, i, id, position, radius));
            }
            if exists|x: int, y: int, i: int|
                x_lo <= x < x_hi && y_lo <= y < y_hi && #[trigger] v.hit(
                    x,
                    y,
                    i,
                    id,
                    position,
                    radius,
                ) {
                let (x, y, i) = choose|x: int, y: int, i: int|
                    x_lo <= x < x_hi && y_lo <= y < y_hi && #[trigger] v.hit(
                        x,
                        y,
                        i,
                        id,
                        position,
                        radius,
                    );
                if y == last {
                    assert(x_lo <= x < x_hi && v.hit(x, last, i, id, position, radius));
                    assert(here.contains(id));
                } else {
                    assert(y_lo <= y < last && v.hit(x, y, i, id, position, radius));
                    assert(before.contains(id));
                }
            }
        }
        assert forall|i: int, j: int| 0 <= i < before.len() && 0 <= j < here.len() implies before[i]
            != here[j] by {
            let id = before[i];
            assert(before.contains(id));
            if id == here[j] {
                assert(here.contains(id));
                let (x, y, k) = choose|x: int, y: int, k: int|
                    x_lo <= x < x_hi && y_lo <= y < last && #[trigger] v.hit(
                        x,
                        y,
                        k,
                        id,
                        position,
                        radius,
                    );
                let (z, m) = choose|z: int, m: int|
                    x_lo <= z < x_hi && #[trigger] v.hit(z, last, m, id, position, radius);
                assert(v.holds_at(v.cell(x, y), k) && v.holds_at(v.cell(z, last), m));
                lemma_bucket_injective(x, y, z, last, v.cols);
            }
        }
        vstd::seq_lib::lemma_no_dup_in_concat(before, here);
    }
}

/// What a neighbour query on a well-formed index returns: no id twice; only
/// ids of entries within the radius; and, where the radius is no larger than
/// the cell size, the id of every such entry.
pub proof fn lemma_neighbors(v: IndexView, position: Vec2, radius: int)
    requires
        v.wf(),
    ensures
        v.neighbors(position, radius).no_duplicates(),
        forall|id: usize| #[trigger]
            v.neighbors(position, radius).contains(id) ==> exists|b: int, i: int| #[trigger]
                v.holds_at(b, i) && v.buckets[b][i].id == id && within(
                    position,
                    v.buckets[b][i].position,
                    radius,
                ),
        radius <= v.cell_size ==> forall|b: int, i: int| #[trigger]
            v.holds_at(b, i) && within(position, v.buckets[b][i].position, radius) ==> v.neighbors(
                position,
                radius,
            ).contains(v.buckets[b][i].id),
{
    let cx = cell_coord(position.x as int, v.cell_size, v.cols);
    let cy = cell_coord(position.y as int, v.cell_size, v.rows);
    let x_lo = block_low(cx);
    let x_hi = block_high(cx, v.cols);
    let y_lo = block_low(cy);
    let y_hi = block_high(cy, v.rows);
    let found = v.neighbors(position, radius);
    lemma_cell_coord_range(position.x as int, v.cell_size, v.cols);
    lemma_cell_coord_range(position.y as int, v.cell_size, v.rows);
    lemma_block_ids(v, y_lo, y_hi, x_lo, x_hi, position, radius);
    assert forall|id: usize| #[trigger] found.contains(id) implies exists|b: int, i: int| #[trigger]
        v.holds_at(b, i) && v.buckets[b][i].id == id && within(
            position,
            v.buckets[b][i].position,
            radius,
        ) by {
        let (x, y, i) = choose|x: int, y: int, i: int|
            x_lo <= x < x_hi && y_lo <= y < y_hi && #[trigger] v.hit(x, y, i, id, position, radius);
        assert(v.holds_at(v.cell(x, y), i));
    }
    if radius <= v.cell_size {
        assert forall|b: int, i: int| #[trigger]
            v.holds_at(b, i) && within(
                position,
                v.buckets[b][i].position,
                radius,
            ) implies found.contains(v.buckets[b][i].id) by {
            let e = v.buckets[b][i];
            let ex = cell_coord(e.position.x as int, v.cell_size, v.cols);
            let ey = cell_coord(e.position.y as int, v.cell_size, v.rows);
            lemma_cell_coord_range(e.position.x as int, v.cell_size, v.cols);
            lemma_cell_coord_range(e.position.y as int, v.cell_size, v.rows);
            lemma_within_box(position, e.position, radius);
            if position.x <= e.position.x {
                lemma_cells_adjacent(position.x as int, e.position.x as int, v.cell_size, v.cols);
            } else {
                lemma_cells_adjacent(e.position.x as int, position.x as int, v.cell_size, v.cols);
            }
            if position.y <= e.position.y {
                lemma_cells_adjacent(position.y as int, e.position.y as int, v.cell_size, v.rows);
            } else {
                lemma_cells_adjacent(e.position.y as int, position.y as int, v.cell_size, v.rows);
            }
            assert(v.bucket_of(e.position) == b);
            assert(v.cell(ex, ey) == b);
            assert(x_lo <= ex < x_hi && y_lo <= ey < y_hi && v.hit(
                ex,
                ey,
                i,
                e.id,
                position,
                radius,
            ));
        }
    }
}

/// A neighbour query on an index that mirrors a store finds what a search
/// through the whole store finds: where the radius is no larger than the
/// cell size, it returns the ids of exactly the live particles within the
/// radius, each once.
pub proof fn lemma_neighbors_match_exhaustive_search(
    v: IndexView,
    store: StoreView,
    position: Vec2,
    radius: int,
)
    requires
        v.wf(),
        v.mirrors(store),
        radius <= v.cell_size,
    ensures
        v.neighbors(position, radius).no_duplicates(),
        forall|id: usize| #[trigger]
            v.neighbors(position, radius).contains(id) <==> store.is_live(id as int) && within(
                position,
                store.particle(id as int).position,
                radius,
            ),
{
    let found = v.neighbors(position, radius);
    lemma_neighbors(v, position, radius);
    assert forall|id: usize| #[trigger] found.contains(id) <==> store.is_live(id as int) && within(
        position,
        store.particle(id as int).position,
        radius,
    ) by {
        if found.contains(id) {
            let (b, i) = choose|b: int, i: int| #[trigger]
                v.holds_at(b, i) && v.buckets[b][i].id == id && within(
                    position,
                    v.buckets[b][i].position,
                    radius,
                );
            assert(store.is_live(v.buckets[b][i].id as int));
        }
        if store.is_live(id as int) && within(position, store.particle(id as int).position, radius) {
            let e = Entry { id: (id as int) as usize, position: store.particle(id as int).position };
            assert(v.contains(e));
            let (b, i) = choose|b: int, i: int| v.holds_at(b, i) && v.buckets[b][i] == e;
            assert(v.holds_at(b, i) && within(position, v.buckets[b][i].position, radius));
        }
    }
}

/// The column (or row) of the coordinate `x`.
pub fn cell_of(x: i32, cell_size: i32, count: usize) -> (r: usize)
    requires
        cell_size >= 1,
        1 <= count <= MAX_SIDE,
    ensures
        r == cell_coord(x as int, cell_size as int, count as int),
        r < count,
{
    proof {
        lemma_cell_coord_range(x as int, cell_size as int, count as int);
    }
    if x < 0 {
        0
    } else {
        let q: u32 = (x as u32) / (cell_size as u32);
        if q as usize >= count {
            count - 1
        } else {
            q as usize
        }
    }
}

/// The spatial index.
pub struct SpatialIndex {
    cell_size: i32,
    cols: usize,
    rows: usize,
    buckets: Vec<Vec<Entry>>,
}

impl View for SpatialIndex {
    type V = IndexView;

    closed spec fn view(&self) -> IndexView {
        IndexView {
            cell_size: self.cell_size as int,
            cols: self.cols as int,
            rows: self.rows as int,
            buckets: Seq::new(self.buckets@.len(), |b: int| self.buckets@[b]@),
        }
    }
}

impl SpatialIndex {
    /// An empty index over a grid of `cols` by `rows` cells of size
    /// `cell_size`, or `None` where the cell size is not positive or a side
    /// is zero or longer than `MAX_SIDE`.
    pub fn new(cell_size: i32, cols: usize, rows: usize) -> (r: Option<SpatialIndex>)
        ensures
            r is Some <==> cell_size >= 1 && 1 <= cols <= MAX_SIDE && 1 <= rows <= MAX_SIDE,
            r is Some ==> {
                let index = r->Some_0@;
                &&& index.wf()
                &&& index.is_empty()
                &&& index.cell_size == cell_size
                &&& index.cols == cols
                &&& index.rows == rows
            },
    {
        if cell_size < 1 || cols < 1 || cols > MAX_SIDE || rows < 1 || rows > MAX_SIDE {
            return None;
        }
        assert(cols * rows <= MAX_SIDE * MAX_SIDE) by (nonlinear_arith)
            requires
                1 <= cols <= MAX_SIDE,
                1 <= rows <= MAX_SIDE,
        ;
        let cells: usize = cols * rows;
        let mut buckets: Vec<Vec<Entry>> = Vec::new();
        let mut b: usize = 0;
        while b < cells
            invariant
                b <= cells,
                buckets@.len() == b,
                forall|k: int| 0 <= k < b ==> (#[trigger] buckets@[k])@.len() == 0,
            decreases cells - b,
        {
            buckets.push(Vec::new());
            b += 1;
        }
        let index = SpatialIndex { cell_size, cols, rows, buckets };
        assert(index@.is_empty());
        Some(index)
    }

    /// The size of a cell.
    pub fn cell_size(&self) -> (r: i32)
        ensures
            r == self@.cell_size,
    {
        self.cell_size
    }

    /// The bucket of the cell that `position` counts for.
    pub fn bucket_of(&self, position: Vec2) -> (b: usize)
        requires
            self@.wf(),
        ensures
            b == self@.bucket_of(position),
            b < self@.buckets.len(),
    {
        let cx: usize = cell_of(position.x, self.cell_size, self.cols);
        let cy: usize = cell_of(position.y, self.cell_size, self.rows);
        proof {
            lemma_bucket_in_range(cx as int, cy as int, self.cols as int, self.rows as int);
            assert(0 <= cy * self.cols <= MAX_SIDE * MAX_SIDE) by (nonlinear_arith)
                requires
                    0 <= cy < self.rows <= MAX_SIDE,
                    1 <= self.cols <= MAX_SIDE,
            ;
        }
        cy * self.cols + cx
    }

    /// Empties the index and enters every live particle of `store` into the
    /// bucket of its cell.
    pub fn rebuild(&mut self, store: &ParticleStore)
        requires
            old(self)@.wf(),
        ensures
            final(self)@.wf(),
            final(self)@.mirrors(store@),
            final(self)@.cell_size == old(self)@.cell_size,
            final(self)@.cols == old(self)@.cols,
            final(self)@.rows == old(self)@.rows,
    {
        let cells: usize = self.buckets.len();
        let mut b: usize = 0;
        while b < cells
            invariant
                b <= cells,
                cells == self.buckets@.len(),
                self@.cell_size == old(self)@.cell_size,
                self@.cols == old(self)@.cols,
                self@.rows == old(self)@.rows,
                self@.buckets.len() == old(self)@.buckets.len(),
                old(self)@.wf(),
                forall|k: int| 0 <= k < b ==> (#[trigger] self.buckets@[k])@.len() == 0,
            decreases cells - b,
        {
            self.buckets[b].clear();
            b += 1;
        }
        assert(self@.is_empty());
        assert(self@.wf());
        let n: usize = store.slot_count();
        let mut id: usize = 0;
        while id < n
            invariant
                id <= n,
                n == store@.slots.len(),
                self@.wf(),
                self@.cell_size == old(self)@.cell_size,
                self@.cols == old(self)@.cols,
                self@.rows == old(self)@.rows,
                forall|b: int, i: int| #[trigger]
                    self@.holds_at(b, i) ==> self@.buckets[b][i].id < id && store@.is_live(
                        self@.buckets[b][i].id as int,
                    ) && store@.particle(self@.buckets[b][i].id as int).position
                        == self@.buckets[b][i].position,
                forall|k: int|
                    0 <= k < id && #[trigger] store@.is_live(k) ==> self@.contains(
                        Entry { id: k as usize, position: store@.particle(k).position },
                    ),
            decreases n - id,
        {
            match store.get(id) {
                Some(p) => {
                    let slot: usize = self.bucket_of(p.position);
                    let ghost before = self@;
                    let entry = Entry { id, position: p.position };
                    self.buckets[slot].push(entry);
                    proof {
                        let after = self@;
                        assert(after.buckets[slot as int] == before.buckets[slot as int].push(
                            entry,
                        ));
                        assert forall|b: int, i: int| #[trigger]
                            before.holds_at(b, i) implies after.holds_at(b, i) && after.buckets[b][i]
                            == before.buckets[b][i] by {}
                        assert forall|b: int, i: int| #[trigger]
                            after.holds_at(b, i) implies (before.holds_at(b, i)
                            && after.buckets[b][i] == before.buckets[b][i]) || (b == slot && i
                            == before.buckets[b].len() && after.buckets[b][i] == entry) by {
                            if b != slot {
                                assert(after.buckets[b] == before.buckets[b]);
                            }
                        }
                        assert(after.holds_at(
                            slot as int,
                            before.buckets[slot as int].len() as int,
                        ));
                        assert forall|k: int|
                            0 <= k < id + 1 && #[trigger] store@.is_live(k) implies after.contains(
                            Entry { id: k as usize, position: store@.particle(k).position },
                        ) by {
                            let e = Entry { id: k as usize, position: store@.particle(k).position };
                            if k < id {
                                assert(before.contains(e));
                                let (b, i) = choose|b: int, i: int|
                                    before.holds_at(b, i) && before.buckets[b][i] == e;
                                assert(after.holds_at(b, i) && after.buckets[b][i] == e);
                            } else {
                                assert(after.buckets[slot as int][before.buckets[slot as int].len() as int]
                                    == e);
                            }
                        }
                    }
                },
                None => {},
            }
            id += 1;
        }
    }

    /// The ids of the indexed particles within `radius` of `position`, found
    /// by visiting the cell of `position` and the cells around it. Where
    /// `radius` is larger than the cell size, particles further away than
    /// those cells are missed.
    pub fn neighbors(&self, position: Vec2, radius: i32) -> (r: Vec<usize>)
        requires
            self@.wf(),
        ensures
            r@ == self@.neighbors(position, radius as int),
            r@.no_duplicates(),
            forall|id: usize| #[trigger]
                r@.contains(id) ==> exists|b: int, i: int| #[trigger]
                    self@.holds_at(b, i) && self@.buckets[b][i].id == id && within(
                        position,
                        self@.buckets[b][i].position,
                        radius as int,
                    ),
            radius <= self@.cell_size ==> forall|b: int, i: int| #[trigger]
                self@.holds_at(b, i) && within(
                    position,
                    self@.buckets[b][i].position,
                    radius as int,
                ) ==> r@.contains(self@.buckets[b][i].id),
    {
        let cx: usize = cell_of(position.x, self.cell_size, self.cols);
        let cy: usize = cell_of(position.y, self.cell_size, self.rows);
        let x_lo: usize = if cx > 0 {
            cx - 1
        } else {
            0
        };
        let x_hi: usize = if cx + 2 <= self.cols {
            cx + 2
        } else {
            self.cols
        };
        let y_lo: usize = if cy > 0 {
            cy - 1
        } else {
            0
        };
        let y_hi: usize = if cy + 2 <= self.rows {
            cy + 2
        } else {
            self.rows
        };
        let ghost v = self@;
        let ghost reach = radius as int;
        let mut out: Vec<usize> = Vec::new();
        let mut y: usize = y_lo;
        while y < y_hi
            invariant
                v == self@,
                v.wf(),
                reach == radius,
                y_lo <= y <= y_hi <= self.rows,
                x_lo <= x_hi <= self.cols,
                out@ == v.block_ids(y_lo as int, y as int, x_lo as int, x_hi as int, position, reach),
            decreases y_hi - y,
        {
            let ghost rows_before = out@;
            let mut x: usize = x_lo;
            while x < x_hi
                invariant
                    v == self@,
                    v.wf(),
                    reach == radius,
                    y < self.rows,
                    x_lo <= x <= x_hi <= self.cols,
                    out@ == rows_before + v.row_ids(y as int, x_lo as int, x as int, position, reach),
                decreases x_hi - x,
            {
                proof {
                    lemma_bucket_in_range(x as int, y as int, self.cols as int, self.rows as int);
                    assert(0 <= y * self.cols <= MAX_SIDE * MAX_SIDE) by (nonlinear_arith)
                        requires
                            0 <= y < self.rows <= MAX_SIDE,
                            1 <= self.cols <= MAX_SIDE,
                    ;
                }
                let b: usize = y * self.cols + x;
                let ghost cells_before = out@;
                let ghost bucket = v.buckets[b as int];
                let mut k: usize = 0;
                while k < self.buckets[b].len()
                    invariant
                        v == self@,
                        reach == radius,
                        b < self.buckets@.len(),
                        bucket == self.buckets@[b as int]@,
                        k <= bucket.len(),
                        out@ == cells_before + within_ids(bucket.take(k as int), position, reach),
                    decreases bucket.len() - k,
                {
                    let e: Entry = self.buckets[b][k];
                    proof {
                        assert(bucket.take(k as int + 1).drop_last() =~= bucket.take(k as int));
                        assert(bucket.take(k as int + 1).last() == e);
                    }
                    if is_within(position, e.position, radius) {
                        out.push(e.id);
                    }
                    k += 1;
                }
                proof {
                    assert(bucket.take(k as int) =~= bucket);
                    assert(out@ =~= rows_before + v.row_ids(
                        y as int,
                        x_lo as int,
                        x as int + 1,
                        position,
                        reach,
                    ));
                }
                x += 1;
            }
            proof {
                assert(out@ =~= v.block_ids(
                    y_lo as int,
                    y as int + 1,
                    x_lo as int,
                    x_hi as int,
                    position,
                    reach,
                ));
            }
            y += 1;
        }
        proof {
            lemma_neighbors(v, position, reach);
        }
        out
    }
}

} // verus!
