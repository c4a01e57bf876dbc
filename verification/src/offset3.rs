use vstd::prelude::*;

verus! {

/// Offset into a 3-dimensional grid, counted in cells from the grid's
/// "origin cell" at `(0, 0, 0)`.
#[derive(Debug, Clone, Copy, PartialEq, Eq, Hash, Structural)]
pub struct Offset3 {
    pub x: i64,
    pub y: i64,
    pub z: i64,
}

/// The flat index of the cell `(x, y, z)` in a grid that is `width_x` cells
/// wide and `width_y` cells deep: cells are laid out with `x` running
/// fastest, then `y`, then `z`.
pub open spec fn flat_index(x: int, y: int, z: int, width_x: int, width_y: int) -> int {
    x + y * width_x + z * width_x * width_y
}

/// Whether the cell `(x, y, z)` exists in a grid of the given size.
pub open spec fn in_grid(x: int, y: int, z: int, grid_size: (usize, usize, usize)) -> bool {
    &&& 0 <= x < grid_size.0
    &&& 0 <= y < grid_size.1
    &&& 0 <= z < grid_size.2
}

impl Offset3 {
    /// The offset with the given components.
    pub fn new(x: i64, y: i64, z: i64) -> (offset: Self)
        ensures
            offset.x == x,
            offset.y == y,
            offset.z == z,
    {
        Self { x, y, z }
    }

    /// The flat index that `into_grid_index1` computes, as a mathematical
    /// value: `None` when the offset names a cell outside the grid.
    pub open spec fn grid_index1(self, grid_size: (usize, usize, usize)) -> Option<usize> {
        if in_grid(self.x as int, self.y as int, self.z as int, grid_size) {
            Some(
                flat_index(
                    self.x as int,
                    self.y as int,
                    self.z as int,
                    grid_size.0 as int,
                    grid_size.1 as int,
                ) as usize,
            )
        } else {
            None
        }
    }

    /// The offset of the cell with the flat index `i` in a grid `width_x`
    /// cells wide and `width_y` cells deep.
    pub open spec fn at_grid_index1(i: int, width_x: int, width_y: int) -> Offset3 {
        Offset3 {
            x: (i % width_x) as i64,
            y: ((i / width_x) % width_y) as i64,
            z: (i / (width_x * width_y)) as i64,
        }
    }

    /// The componentwise sum of two offsets, where it can be represented.
    pub open spec fn sum(self, other: Self) -> Self {
        Offset3 {
            x: (self.x + other.x) as i64,
            y: (self.y + other.y) as i64,
            z: (self.z + other.z) as i64,
        }
    }

    /// Whether the componentwise sum of two offsets fits the component type.
    pub open spec fn sum_fits(self, other: Self) -> bool {
        &&& i64::MIN <= self.x + other.x <= i64::MAX
        &&& i64::MIN <= self.y + other.y <= i64::MAX
        &&& i64::MIN <= self.z + other.z <= i64::MAX
    }

    /// Converts the 3-dimensional offset into a 1-dimensional index.
    ///
    /// `grid_size` is the width of the grid, in number of cells, in each
    /// dimension. The returned index points into a flat vector that holds the
    /// cells of the grid. An offset that references a cell outside the bounds
    /// of the grid gives `None`.
    pub fn into_grid_index1(self, grid_size: (usize, usize, usize)) -> (index: Option<usize>)
        requires
            grid_size.0 * grid_size.1 * grid_size.2 <= usize::MAX,
        ensures
            index == self.grid_index1(grid_size),
            index matches Some(i) ==> i < grid_size.0 * grid_size.1 * grid_size.2,
    {
        if self.x >= 0 && (self.x as u64) < grid_size.0 as u64 && self.y >= 0 && (self.y as u64)
            < grid_size.1 as u64 && self.z >= 0 && (self.z as u64) < grid_size.2 as u64 {
            let x: usize = self.x as usize;
            let y: usize = self.y as usize;
            let z: usize = self.z as usize;
            proof {
                lemma_flat_index_bound(
                    x as int,
                    y as int,
                    z as int,
                    grid_size.0 as int,
                    grid_size.1 as int,
                    grid_size.2 as int,
                );
                assert(0 <= y * grid_size.0 && 0 <= z * grid_size.0 * grid_size.1)
                    by (nonlinear_arith)
                    requires
                        0 <= y,
                        0 <= z,
                        0 <= grid_size.0,
                        0 <= grid_size.1,
                ;
                assert(z * grid_size.0 <= z * grid_size.0 * grid_size.1) by (nonlinear_arith)
                    requires
                        0 <= z,
                        0 <= grid_size.0,
                        1 <= grid_size.1,
                ;
            }
            Some(x + y * grid_size.0 + z * grid_size.0 * grid_size.1)
        } else {
            None
        }
    }

    /// Converts a 1-dimensional index into a 3-dimensional offset.
    ///
    /// The given index points into a flat vector that holds the cells of a
    /// grid `grid_width_x` cells wide and `grid_width_y` cells deep.
    pub fn from_grid_index1(i: usize, grid_width_x: usize, grid_width_y: usize) -> (offset: Self)
        requires
            grid_width_x > 0,
            grid_width_y > 0,
            grid_width_x * grid_width_y <= usize::MAX,
            i <= i64::MAX,
        ensures
            offset == Offset3::at_grid_index1(i as int, grid_width_x as int, grid_width_y as int),
            offset.x == i as int % grid_width_x as int,
            offset.y == (i as int / grid_width_x as int) % grid_width_y as int,
            offset.z == i as int / (grid_width_x * grid_width_y),
    {
        proof {
            assert(grid_width_x * grid_width_y > 0) by (nonlinear_arith)
                requires
                    grid_width_x > 0,
                    grid_width_y > 0,
            ;
        }
        let x: usize = i % grid_width_x;
        let y: usize = (i / grid_width_x) % grid_width_y;
        let z: usize = i / (grid_width_x * grid_width_y);
        assert(x <= i && y <= i && z <= i) by (nonlinear_arith)
            requires
                x == i as int % grid_width_x as int,
                y == (i as int / grid_width_x as int) % grid_width_y as int,
                z == i as int / (grid_width_x * grid_width_y),
                grid_width_x > 0,
                grid_width_y > 0,
                grid_width_x * grid_width_y > 0,
        ;
        Self::new(x as i64, y as i64, z as i64)
    }
}

impl core::ops::Add for Offset3 {
    type Output = Self;

    /// The componentwise sum. It has to fit the component type.
    fn add(self, other: Self) -> (total: Self) {
        Self { x: self.x + other.x, y: self.y + other.y, z: self.z + other.z }
    }
}

impl vstd::std_specs::ops::AddSpecImpl for Offset3 {
    open spec fn obeys_add_spec() -> bool {
        true
    }

    open spec fn add_req(self, other: Self) -> bool {
        self.sum_fits(other)
    }

    open spec fn add_spec(self, other: Self) -> Self {
        self.sum(other)
    }
}

impl core::ops::Add<&Offset3> for Offset3 {
    type Output = Self;

    /// The componentwise sum. It has to fit the component type.
    fn add(self, other: &Self) -> (total: Self) {
        Self { x: self.x + other.x, y: self.y + other.y, z: self.z + other.z }
    }
}

impl vstd::std_specs::ops::AddSpecImpl<&Offset3> for Offset3 {
    open spec fn obeys_add_spec() -> bool {
        true
    }

    open spec fn add_req(self, other: &Self) -> bool {
        self.sum_fits(*other)
    }

    open spec fn add_spec(self, other: &Self) -> Self {
        self.sum(*other)
    }
}

/// The flat index of a cell inside the grid is below the number of cells.
pub proof fn lemma_flat_index_bound(
    x: int,
    y: int,
    z: int,
    width_x: int,
    width_y: int,
    width_z: int,
)
    requires
        0 <= x < width_x,
        0 <= y < width_y,
        0 <= z < width_z,
    ensures
        0 <= flat_index(x, y, z, width_x, width_y) < width_x * width_y * width_z,
{
    assert(y * width_x + width_x <= width_y * width_x) by (nonlinear_arith)
        requires
            0 <= y < width_y,
            0 <= width_x,
    ;
    assert(z * width_x * width_y + width_x * width_y <= width_x * width_y * width_z)
        by (nonlinear_arith)
        requires
            0 <= z < width_z,
            0 <= width_x,
            0 <= width_y,
    ;
    assert(0 <= y * width_x) by (nonlinear_arith)
        requires
            0 <= y,
            0 <= width_x,
    ;
    assert(0 <= z * width_x * width_y) by (nonlinear_arith)
        requires
            0 <= z,
            0 <= width_x,
            0 <= width_y,
    ;
    assert(width_y * width_x == width_x * width_y) by (nonlinear_arith);
}

/// The offset that is read off a flat index below the number of cells names
/// a cell of the grid, and that cell has this flat index.
pub proof fn lemma_index_of_offset_at_index(i: int, grid_size: (usize, usize, usize))
    requires
        grid_size.0 * grid_size.1 * grid_size.2 <= usize::MAX,
        0 <= i < grid_size.0 * grid_size.1 * grid_size.2,
        i <= i64::MAX,
    ensures
        Offset3::at_grid_index1(i, grid_size.0 as int, grid_size.1 as int).grid_index1(grid_size)
            == Some(i as usize),
{
    let w0 = grid_size.0 as int;
    let w1 = grid_size.1 as int;
    let w2 = grid_size.2 as int;
    assert(w0 > 0 && w1 > 0 && w2 > 0) by (nonlinear_arith)
        requires
            0 < w0 * w1 * w2,
            w0 >= 0,
            w1 >= 0,
            w2 >= 0,
    ;
    let rows = i / w0;
    let x = i % w0;
    let y = rows % w1;
    let z = rows / w1;
    vstd::arithmetic::div_mod::lemma_fundamental_div_mod(i, w0);
    vstd::arithmetic::div_mod::lemma_mod_bound(i, w0);
    vstd::arithmetic::div_mod::lemma_div_pos_is_pos(i, w0);
    vstd::arithmetic::div_mod::lemma_fundamental_div_mod(rows, w1);
    vstd::arithmetic::div_mod::lemma_mod_bound(rows, w1);
    vstd::arithmetic::div_mod::lemma_div_pos_is_pos(rows, w1);
    vstd::arithmetic::div_mod::lemma_div_denominator(i, w0, w1);
    assert(i == x + y * w0 + z * w0 * w1) by (nonlinear_arith)
        requires
            i == w0 * rows + x,
            rows == w1 * z + y,
    ;
    assert(z < w2) by (nonlinear_arith)
        requires
            i == x + y * w0 + z * w0 * w1,
            i < w0 * w1 * w2,
            0 <= x,
            0 <= y,
            0 < w0,
            0 < w1,
    ;
    assert(x <= i && y <= i && z <= i) by (nonlinear_arith)
        requires
            i == x + y * w0 + z * w0 * w1,
            0 <= x,
            0 <= y,
            0 <= z,
            0 < w0,
            0 < w1,
    ;
    let offset = Offset3::at_grid_index1(i, w0, w1);
    assert(z == i / (w0 * w1));
    assert(offset.x == x && offset.y == y && offset.z == z);
    assert(in_grid(x, y, z, grid_size));
    assert(flat_index(x, y, z, w0, w1) == i);
}

/// The offset of a cell of the grid can be read off the cell's flat index.
pub proof fn lemma_offset_at_index_of_offset(offset: Offset3, grid_size: (usize, usize, usize))
    requires
        grid_size.0 * grid_size.1 * grid_size.2 <= usize::MAX,
        offset.grid_index1(grid_size) is Some,
    ensures
        Offset3::at_grid_index1(
            offset.grid_index1(grid_size)->Some_0 as int,
            grid_size.0 as int,
            grid_size.1 as int,
        ) == offset,
{
    lemma_flat_index_bound(
        offset.x as int,
        offset.y as int,
        offset.z as int,
        grid_size.0 as int,
        grid_size.1 as int,
        grid_size.2 as int,
    );
    lemma_flat_index_parts(
        offset.x as int,
        offset.y as int,
        offset.z as int,
        grid_size.0 as int,
        grid_size.1 as int,
    );
}

/// Two cells of a grid with the same flat index are the same cell.
pub proof fn lemma_grid_index1_is_one_to_one(
    a: Offset3,
    b: Offset3,
    grid_size: (usize, usize, usize),
)
    requires
        grid_size.0 * grid_size.1 * grid_size.2 <= usize::MAX,
        a.grid_index1(grid_size) is Some,
        a.grid_index1(grid_size) == b.grid_index1(grid_size),
    ensures
        a == b,
{
    let w0 = grid_size.0 as int;
    let w1 = grid_size.1 as int;
    let w2 = grid_size.2 as int;
    lemma_flat_index_bound(a.x as int, a.y as int, a.z as int, w0, w1, w2);
    lemma_flat_index_bound(b.x as int, b.y as int, b.z as int, w0, w1, w2);
    lemma_flat_index_parts(a.x as int, a.y as int, a.z as int, w0, w1);
    lemma_flat_index_parts(b.x as int, b.y as int, b.z as int, w0, w1);
}

/// The components of a cell can be read off its flat index.
pub proof fn lemma_flat_index_parts(x: int, y: int, z: int, width_x: int, width_y: int)
    requires
        0 <= x < width_x,
        0 <= y < width_y,
        0 <= z,
    ensures
        flat_index(x, y, z, width_x, width_y) % width_x == x,
        (flat_index(x, y, z, width_x, width_y) / width_x) % width_y == y,
        flat_index(x, y, z, width_x, width_y) / (width_x * width_y) == z,
{
    let i = flat_index(x, y, z, width_x, width_y);
    let rows = y + z * width_y;
    assert(i == rows * width_x + x) by (nonlinear_arith)
        requires
            i == x + y * width_x + z * width_x * width_y,
            rows == y + z * width_y,
    ;
    vstd::arithmetic::div_mod::lemma_fundamental_div_mod_converse(i, width_x, rows, x);
    vstd::arithmetic::div_mod::lemma_fundamental_div_mod_converse(rows, width_y, z, y);
    let plane = width_x * width_y;
    let rest = x + y * width_x;
    assert(0 <= rest < plane) by (nonlinear_arith)
        requires
            rest == x + y * width_x,
            plane == width_x * width_y,
            0 <= x < width_x,
            0 <= y < width_y,
    ;
    assert(i == z * plane + rest) by (nonlinear_arith)
        requires
            i == x + y * width_x + z * width_x * width_y,
            rest == x + y * width_x,
            plane == width_x * width_y,
    ;
    vstd::arithmetic::div_mod::lemma_fundamental_div_mod_converse(i, plane, z, rest);
}

} // verus!
