//! Boolean terrain tile grid.
//!
//! The generated map's terrain is a row-major grid of booleans, `true` for
//! grass and `false` for road.  Callers address cells two ways: by raw
//! `(column, row)` position, or by signed coordinates centered on the middle
//! of the grid, which is how the generator thinks of the arena (the origin
//! sits at the arena's center).  A raw index is valid whenever it lands
//! inside the backing row-major buffer, and every cell starts as grass.

use vstd::prelude::*;

verus! {

use vstd::arithmetic::mul::lemma_mul_basics;
use vstd::arithmetic::mul::lemma_mul_inequality;
use vstd::arithmetic::mul::lemma_mul_is_commutative;
use vstd::arithmetic::mul::lemma_mul_is_distributive_add_other_way;
use vstd::arithmetic::mul::lemma_mul_nonnegative;
use vstd::arithmetic::mul::lemma_mul_upper_bound;

/// Largest accepted grid side length; keeps every index computation well
/// inside the machine word.
pub const GRID_SIDE_MAX: usize = 0x8000;

/// The row-major buffer position of the signed, center-addressed cell
/// `(x, y)` of a `width` by `height` grid.
pub open spec fn cell_at(width: int, height: int, x: int, y: int) -> int {
    (y + height / 2) * width + (x + width / 2)
}

/// Whether the signed cell `(x, y)` lands strictly inside the window of a
/// `width` by `height` grid.
pub open spec fn in_window(width: int, height: int, x: int, y: int) -> bool {
    &&& 0 <= x + width / 2 < width
    &&& 0 <= y + height / 2 < height
}

/// Whether some tile of `tiles`, center-addressed and inside the window,
/// lands on buffer position `c`.
pub open spec fn tiles_cover(width: int, height: int, tiles: Seq<(i32, i32)>, c: int) -> bool
    decreases tiles.len(),
{
    if tiles.len() == 0 {
        false
    } else {
        let p = tiles[tiles.len() - 1];
        ||| (in_window(width, height, p.0 as int, p.1 as int) && cell_at(
            width,
            height,
            p.0 as int,
            p.1 as int,
        ) == c)
        ||| tiles_cover(width, height, tiles.drop_last(), c)
    }
}

/// Row-major boolean terrain grid; `true` is grass, `false` is road.
pub struct TileGrid {
    pub width: usize,
    pub height: usize,
    pub grass: Vec<bool>,
}

impl TileGrid {
    /// The backing buffer covers exactly `width * height` cells and the
    /// sides are within the accepted maximum.
    pub open spec fn wf(self) -> bool {
        &&& self.grass@.len() == self.width * self.height
        &&& self.width <= GRID_SIDE_MAX
        &&& self.height <= GRID_SIDE_MAX
    }

    /// The buffer position of the signed, center-addressed cell `(x, y)`.
    pub open spec fn centered_cell(self, x: int, y: int) -> int {
        cell_at(self.width as int, self.height as int, x, y)
    }

    /// Whether the signed cell `(x, y)` lands inside the backing buffer
    /// (its row offset may run past the row's end but not past the buffer).
    pub open spec fn centered_in_bounds(self, x: int, y: int) -> bool {
        &&& 0 <= x + self.width / 2
        &&& 0 <= y + self.height / 2
        &&& self.centered_cell(x, y) < self.grass@.len()
    }

    /// Whether the signed cell `(x, y)` lands strictly inside the grid
    /// window, both coordinates within their own side.
    pub open spec fn centered_in_window(self, x: int, y: int) -> bool {
        in_window(self.width as int, self.height as int, x, y)
    }

    /// A fresh grid of the given dimensions, all grass.
    pub fn create(width: usize, height: usize) -> (r: TileGrid)
        requires
            width <= GRID_SIDE_MAX,
            height <= GRID_SIDE_MAX,
        ensures
            r.wf(),
            r.width == width,
            r.height == height,
            forall|c: int| 0 <= c < r.grass@.len() ==> r.grass@[c] == true,
    {
        proof {
            lemma_mul_upper_bound(
                width as int,
                GRID_SIDE_MAX as int,
                height as int,
                GRID_SIDE_MAX as int,
            );
            lemma_mul_nonnegative(width as int, height as int);
        }
        let total: usize = width * height;
        let mut grass: Vec<bool> = Vec::new();
        while grass.len() < total
            invariant
                grass@.len() <= total,
                forall|c: int| 0 <= c < grass@.len() ==> grass@[c] == true,
            decreases total - grass@.len(),
        {
            grass.push(true);
        }
        TileGrid { width, height, grass }
    }

    /// The buffer position of the raw cell `(x, y)`, or `None` when
    /// `y * width + x` runs past the backing buffer.
    pub fn grid_index(&self, x: usize, y: usize) -> (r: Option<usize>)
        requires
            self.wf(),
        ensures
            match r {
                Some(i) => i == y * self.width + x && i < self.grass@.len(),
                None => y * self.width + x >= self.grass@.len(),
            },
    {
        proof {
            lemma_mul_is_commutative(self.width as int, self.height as int);
        }
        if y >= self.height {
            proof {
                lemma_mul_inequality(self.height as int, y as int, self.width as int);
            }
            return None;
        }
        proof {
            assert(0 <= (y as int) * (self.width as int) && (y as int) * (self.width as int)
                + (self.width as int) <= (self.width as int) * (self.height as int)) by (nonlinear_arith)
                requires
                    (y as int) < (self.height as int),
                    0 <= y as int,
                    0 <= self.width as int,
            ;
        }
        let n: usize = self.grass.len();
        let base: usize = y * self.width;
        let remaining: usize = n - base;
        if x < remaining {
            Some(base + x)
        } else {
            None
        }
    }

    /// Whether the signed, center-addressed cell `(x, y)` is grass; cells
    /// outside the backing buffer count as not grass.
    pub fn is_tile_grass(&self, x: i32, y: i32) -> (r: bool)
        requires
            self.wf(),
        ensures
            r == if self.centered_in_bounds(x as int, y as int) {
                self.grass@[self.centered_cell(x as int, y as int)]
            } else {
                false
            },
    {
        let cx: i64 = x as i64 + (self.width / 2) as i64;
        let cy: i64 = y as i64 + (self.height / 2) as i64;
        if cx < 0 || cy < 0 {
            return false;
        }
        proof {
            lemma_mul_upper_bound(cy as int, 0x8000_3fff, self.width as int, GRID_SIDE_MAX as int);
            lemma_mul_upper_bound(
                self.width as int,
                GRID_SIDE_MAX as int,
                self.height as int,
                GRID_SIDE_MAX as int,
            );
            lemma_mul_nonnegative(cy as int, self.width as int);
        }
        let idx: i64 = cy * (self.width as i64) + cx;
        if idx < self.grass.len() as i64 {
            self.grass[idx as usize]
        } else {
            false
        }
    }

    /// Marks the signed, center-addressed cell `(x, y)` as road; cells
    /// outside the grid window are left untouched.
    pub fn set_tile_road(&mut self, x: i32, y: i32)
        requires
            old(self).wf(),
        ensures
            final(self).wf(),
            final(self).width == old(self).width,
            final(self).height == old(self).height,
            final(self).grass@ == if old(self).centered_in_window(x as int, y as int) {
                old(self).grass@.update(old(self).centered_cell(x as int, y as int), false)
            } else {
                old(self).grass@
            },
    {
        let cx: i64 = x as i64 + (self.width / 2) as i64;
        let cy: i64 = y as i64 + (self.height / 2) as i64;
        if cx < 0 || cy < 0 || cx >= self.width as i64 || cy >= self.height as i64 {
            return ;
        }
        proof {
            lemma_mul_is_commutative(self.width as int, self.height as int);
            lemma_mul_inequality(cy as int + 1, self.height as int, self.width as int);
            lemma_mul_is_distributive_add_other_way(self.width as int, cy as int, 1);
            lemma_mul_basics(self.width as int);
            lemma_mul_upper_bound(
                self.width as int,
                GRID_SIDE_MAX as int,
                self.height as int,
                GRID_SIDE_MAX as int,
            );
            lemma_mul_nonnegative(cy as int, self.width as int);
        }
        let idx: i64 = cy * (self.width as i64) + cx;
        self.grass.set(idx as usize, false);
    }

    /// Marks every listed signed cell that falls inside the window as road;
    /// afterwards a cell is grass exactly when it was grass before and no
    /// listed tile lands on it.
    pub fn mark_road_tiles(&mut self, tiles: &Vec<(i32, i32)>)
        requires
            old(self).wf(),
        ensures
            final(self).wf(),
            final(self).width == old(self).width,
            final(self).height == old(self).height,
            final(self).grass@.len() == old(self).grass@.len(),
            forall|c: int|
                0 <= c < final(self).grass@.len() ==> final(self).grass@[c] == (old(
                    self,
                ).grass@[c] && !tiles_cover(
                    old(self).width as int,
                    old(self).height as int,
                    tiles@,
                    c,
                )),
    {
        let ghost w = self.width as int;
        let ghost h = self.height as int;
        let mut t: usize = 0;
        proof {
            assert(tiles@.take(0) =~= Seq::<(i32, i32)>::empty());
        }
        while t < tiles.len()
            invariant
                self.wf(),
                self.width == old(self).width,
                self.height == old(self).height,
                self.grass@.len() == old(self).grass@.len(),
                w == self.width as int,
                h == self.height as int,
                t <= tiles@.len(),
                forall|c: int|
                    0 <= c < self.grass@.len() ==> self.grass@[c] == (old(self).grass@[c]
                        && !tiles_cover(w, h, tiles@.take(t as int), c)),
            decreases tiles@.len() - t,
        {
            let (x, y) = tiles[t];
            self.set_tile_road(x, y);
            proof {
                assert(tiles@.take(t as int + 1).drop_last() =~= tiles@.take(t as int));
                assert(tiles@.take(t as int + 1).last() == tiles@[t as int]);
                if in_window(w, h, x as int, y as int) {
                    assert(0 <= cell_at(w, h, x as int, y as int) && cell_at(
                        w,
                        h,
                        x as int,
                        y as int,
                    ) < w * h) by (nonlinear_arith)
                        requires
                            in_window(w, h, x as int, y as int),
                            0 <= w,
                            0 <= h,
                    ;
                }
                assert forall|c: int| 0 <= c < self.grass@.len() implies self.grass@[c] == (old(
                    self,
                ).grass@[c] && !tiles_cover(w, h, tiles@.take(t as int + 1), c)) by {
                    assert(tiles_cover(w, h, tiles@.take(t as int + 1), c) == ((in_window(
                        w,
                        h,
                        tiles@[t as int].0 as int,
                        tiles@[t as int].1 as int,
                    ) && cell_at(w, h, tiles@[t as int].0 as int, tiles@[t as int].1 as int) == c)
                        || tiles_cover(w, h, tiles@.take(t as int), c)));
                }
            }
            t += 1;
        }
        proof {
            assert(tiles@.take(tiles@.len() as int) =~= tiles@);
        }
    }
}

} // verus!
