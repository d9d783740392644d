//! A fixed-size dense 2D array with row-major indexing: the storage of one
//! chunk. The cell at `(x, y)` lives at index `y * width + x`.

use vstd::prelude::*;

verus! {

/// Dense 2D array of `T` with fixed extent.
#[derive(Debug, Clone)]
pub struct Grid<T> {
    pub array: Vec<T>,
    pub width: usize,
    pub height: usize,
}

/// Row-major index of the cell at `(x, y)`.
pub open spec fn grid_index(width: int, x: int, y: int) -> int {
    y * width + x
}

/// Facts about the index of one in-bounds cell: it lands inside the backing
/// vector, and the extents themselves are bounded by the cell count.
proof fn lemma_cell_bounds(width: int, height: int, x: int, y: int)
    requires
        0 <= x < width,
        0 <= y < height,
    ensures
        0 <= grid_index(width, x, y),
        grid_index(width, x, y) < width * height,
        grid_index(width, x, y) == y * width + x,
        width <= width * height,
        height <= width * height,
        y * width + x < width * height,
{
    assert(0 <= y * width + x && y * width + x < width * height && width <= width * height
        && height <= width * height) by (nonlinear_arith)
        requires
            0 <= x < width,
            0 <= y < height,
    ;
}

impl<T> Grid<T> {
    /// The backing vector holds exactly one cell per coordinate.
    pub open spec fn wf(self) -> bool {
        self.array@.len() == self.width * self.height
    }

    /// The value stored at `(x, y)`.
    pub open spec fn spec_cell(self, x: int, y: int) -> T {
        self.array@[grid_index(self.width as int, x, y)]
    }

    /// `(x, y)` lies inside the grid.
    pub open spec fn in_bounds(self, x: int, y: int) -> bool {
        0 <= x < self.width && 0 <= y < self.height
    }

    /// Bounds-checked read: the absence marker exactly when `(x, y)` is
    /// outside `[0, width) x [0, height)`.
    pub fn get(&self, x: u32, y: u32) -> (r: Option<&T>)
        requires
            self.wf(),
            self.width * self.height <= usize::MAX,
        ensures
            self.in_bounds(x as int, y as int) ==> (r matches Some(v) && *v
                == self.spec_cell(x as int, y as int)),
            !self.in_bounds(x as int, y as int) ==> r is None,
    {
        if (x as usize) < self.width && (y as usize) < self.height {
            proof {
                lemma_cell_bounds(self.width as int, self.height as int, x as int, y as int);
            }
            let i: usize = (y as usize) * self.width + (x as usize);
            Some(&self.array[i])
        } else {
            None
        }
    }

    /// Mutable access to one cell. The caller must stay in bounds; the rest
    /// of the grid is untouched.
    pub fn get_mut(&mut self, x: u32, y: u32) -> (r: &mut T)
        requires
            old(self).wf(),
            old(self).width * old(self).height <= usize::MAX,
            old(self).in_bounds(x as int, y as int),
        ensures
            *r == old(self).spec_cell(x as int, y as int),
            final(self).array@ == old(self).array@.update(
                grid_index(old(self).width as int, x as int, y as int),
                *final(r),
            ),
            final(self).width == old(self).width,
            final(self).height == old(self).height,
    {
        proof {
            lemma_cell_bounds(self.width as int, self.height as int, x as int, y as int);
        }
        let i: usize = (y as usize) * self.width + (x as usize);
        &mut self.array[i]
    }
}

impl<T: Copy> Grid<T> {
    /// Allocate a `width x height` grid and fill every cell from `setter`,
    /// called once per cell with that cell's `(x, y)` coordinate. The order
    /// of the calls is unspecified; the result is determined coordinate by
    /// coordinate by what `setter` may return.
    pub fn new_filled<F: Fn(u32, u32) -> T>(
        width: usize,
        height: usize,
        setter: F,
        _default: T,
    ) -> (r: Grid<T>)
        requires
            width * height <= 0x1000_0000,
            forall|x: u32, y: u32|
                x < width && y < height ==> #[trigger] call_requires(setter, (x, y)),
        ensures
            r.wf(),
            r.width == width,
            r.height == height,
            forall|x: int, y: int|
                0 <= x < width && 0 <= y < height ==> call_ensures(
                    setter,
                    (x as u32, y as u32),
                    #[trigger] r.spec_cell(x, y),
                ),
    {
        let mut array: Vec<T> = Vec::new();
        let mut y: usize = 0;
        while y < height
            invariant
                y <= height,
                width * height <= 0x1000_0000,
                array@.len() == y * width,
                forall|x: u32, yy: u32|
                    x < width && yy < height ==> #[trigger] call_requires(setter, (x, yy)),
                forall|xx: int, yy: int|
                    0 <= xx < width && 0 <= yy < y ==> call_ensures(
                        setter,
                        (xx as u32, yy as u32),
                        #[trigger] array@[grid_index(width as int, xx, yy)],
                    ),
            decreases height - y,
        {
            let mut x: usize = 0;
            while x < width
                invariant
                    x <= width,
                    y < height,
                    width * height <= 0x1000_0000,
                    array@.len() == y * width + x,
                    forall|xx: u32, yy: u32|
                        xx < width && yy < height ==> #[trigger] call_requires(setter, (xx, yy)),
                    forall|xx: int, yy: int|
                        0 <= xx < width && 0 <= yy < y ==> call_ensures(
                            setter,
                            (xx as u32, yy as u32),
                            #[trigger] array@[grid_index(width as int, xx, yy)],
                        ),
                    forall|xx: int|
                        0 <= xx < x ==> call_ensures(
                            setter,
                            (xx as u32, y as u32),
                            #[trigger] array@[grid_index(width as int, xx, y as int)],
                        ),
                decreases width - x,
            {
                proof {
                    lemma_cell_bounds(width as int, height as int, x as int, y as int);
                }
                let cell = setter(x as u32, y as u32);
                array.push(cell);
                x = x + 1;
                proof {
                    assert forall|xx: int| 0 <= xx < x implies call_ensures(
                        setter,
                        (xx as u32, y as u32),
                        #[trigger] array@[grid_index(width as int, xx, y as int)],
                    ) by {
                        lemma_cell_bounds(width as int, height as int, xx, y as int);
                    }
                    assert forall|xx: int, yy: int| 0 <= xx < width && 0 <= yy < y
                        implies call_ensures(
                        setter,
                        (xx as u32, yy as u32),
                        #[trigger] array@[grid_index(width as int, xx, yy)],
                    ) by {
                        lemma_cell_bounds(width as int, height as int, xx, yy);
                        assert(grid_index(width as int, xx, yy) < y * width)
                            by (nonlinear_arith)
                            requires
                                0 <= xx < width,
                                0 <= yy < y,
                        ;
                    }
                }
            }
            y = y + 1;
            proof {
                assert(y * width == (y - 1) * width + width) by (nonlinear_arith);
            }
        }
        proof {
            assert(y * width == width * height) by (nonlinear_arith)
                requires
                    y == height,
            ;
        }
        Grid { array, width, height }
    }

    /// Visit every cell exactly once, read-only, passing its coordinate and
    /// its value; the grid itself is untouched.
    pub fn for_each_immut<F: Fn(u32, u32, T) -> ()>(&self, func: F)
        requires
            self.wf(),
            self.width * self.height <= 0x1000_0000,
            forall|x: u32, y: u32, t: T|
                x < self.width && y < self.height && t == self.spec_cell(x as int, y as int)
                    ==> #[trigger] call_requires(func, (x, y, t)),
    {
        let mut y: usize = 0;
        while y < self.height
            invariant
                y <= self.height,
                self.wf(),
                self.width * self.height <= 0x1000_0000,
                forall|x: u32, yy: u32, t: T|
                    x < self.width && yy < self.height && t == self.spec_cell(x as int, yy as int)
                        ==> #[trigger] call_requires(func, (x, yy, t)),
            decreases self.height - y,
        {
            let mut x: usize = 0;
            while x < self.width
                invariant
                    x <= self.width,
                    y < self.height,
                    self.wf(),
                    self.width * self.height <= 0x1000_0000,
                    forall|xx: u32, yy: u32, t: T|
                        xx < self.width && yy < self.height && t == self.spec_cell(
                            xx as int,
                            yy as int,
                        ) ==> #[trigger] call_requires(func, (xx, yy, t)),
                decreases self.width - x,
            {
                proof {
                    lemma_cell_bounds(
                        self.width as int,
                        self.height as int,
                        x as int,
                        y as int,
                    );
                }
                let i: usize = y * self.width + x;
                let cell: T = self.array[i];
                func(x as u32, y as u32, cell);
                x = x + 1;
            }
            y = y + 1;
        }
    }

    /// Same visit as [`Grid::for_each_immut`], offered on a mutable grid for
    /// call sites that hold one; the grid is left unchanged.
    pub fn for_each<F: Fn(u32, u32, T) -> ()>(&mut self, func: F)
        requires
            old(self).wf(),
            old(self).width * old(self).height <= 0x1000_0000,
            forall|x: u32, y: u32, t: T|
                x < old(self).width && y < old(self).height && t == old(self).spec_cell(
                    x as int,
                    y as int,
                ) ==> #[trigger] call_requires(func, (x, y, t)),
        ensures
            *final(self) == *old(self),
    {
        self.for_each_immut(func);
    }
}

} // verus!
