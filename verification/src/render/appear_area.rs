use vstd::arithmetic::div_mod::{
    lemma_div_pos_is_pos, lemma_fundamental_div_mod, lemma_fundamental_div_mod_converse,
    lemma_mod_bound,
};
use vstd::arithmetic::mul::{lemma_mul_inequality, lemma_mul_nonnegative};
use vstd::prelude::*;
use vstd::std_specs::convert::FromSpecImpl;

verus! {

/// Extent of a three-dimensional grid of appear areas, in cells per axis.
#[derive(Debug, Copy, Clone, PartialEq)]
pub struct D3Shape {
    pub x: u32,
    pub y: u32,
    pub z: u32,
}

impl D3Shape {
    pub fn new(x: u32, y: u32, z: u32) -> (shape: Self)
        ensures
            shape.x == x,
            shape.y == y,
            shape.z == z,
    {
        Self { x, y, z }
    }

    /// Number of cells in one layer of constant `z`.
    pub open spec fn layer(self) -> int {
        self.x * self.y
    }
}

impl From<(u32, u32, u32)> for D3Shape {
    fn from(val: (u32, u32, u32)) -> (shape: Self) {
        D3Shape { x: val.0, y: val.1, z: val.2 }
    }
}

impl FromSpecImpl<(u32, u32, u32)> for D3Shape {
    open spec fn obeys_from_spec() -> bool {
        true
    }

    open spec fn from_spec(val: (u32, u32, u32)) -> Self {
        D3Shape { x: val.0, y: val.1, z: val.2 }
    }
}

impl From<(usize, usize, usize)> for D3Shape {
    fn from(val: (usize, usize, usize)) -> (shape: Self) {
        D3Shape {
            x: #[verifier::truncate] (val.0 as u32),
            y: #[verifier::truncate] (val.1 as u32),
            z: #[verifier::truncate] (val.2 as u32),
        }
    }
}

impl FromSpecImpl<(usize, usize, usize)> for D3Shape {
    open spec fn obeys_from_spec() -> bool {
        true
    }

    /// Each extent is cut down to its low 32 bits.
    open spec fn from_spec(val: (usize, usize, usize)) -> Self {
        D3Shape { x: val.0 as u32, y: val.1 as u32, z: val.2 as u32 }
    }
}

/// Position of a cell in the row-major numbering of a grid: `x` runs
/// fastest, then `y`, then `z`.
#[derive(Debug, Copy, Clone, PartialEq, Eq, PartialOrd, Ord)]
pub struct AppearAreaIndex(pub u32);

/// The number of the cell `(x, y, z)` in a grid of the given shape.
pub open spec fn linear_index(x: u32, y: u32, z: u32, shape: D3Shape) -> int {
    z * shape.layer() + y * shape.x + x
}

/// The cell `(x, y, z)` that carries the number `index`.
pub open spec fn cell_of(index: u32, shape: D3Shape) -> (u32, u32, u32) {
    let rest = index as int % shape.layer();
    ((rest % shape.x as int) as u32, (rest / shape.x as int) as u32, (index as int / shape.layer()) as u32)
}

impl AppearAreaIndex {
    pub fn new(x: u32, y: u32, z: u32, shape: D3Shape) -> (index: AppearAreaIndex)
        requires
            linear_index(x, y, z, shape) <= u32::MAX,
        ensures
            index.0 == linear_index(x, y, z, shape),
    {
        let layer: u64 = Self::layer_cells(&shape);
        proof {
            lemma_mul_nonnegative(z as int, shape.layer());
            lemma_mul_nonnegative(y as int, shape.x as int);
            if z > 0 {
                lemma_mul_inequality(1, z as int, shape.layer());
                assert(shape.layer() * z == z * shape.layer()) by (nonlinear_arith);
                assert(shape.layer() * 1 == shape.layer());
            } else {
                assert(z as u64 * layer == 0) by (nonlinear_arith)
                    requires
                        z == 0,
                ;
                assert(z * shape.layer() == 0) by (nonlinear_arith)
                    requires
                        z == 0,
                ;
            }
        }
        let above: u64 = (z as u64) * layer;
        let row: u64 = (y as u64) * (shape.x as u64);
        let index: u64 = above + row + (x as u64);
        AppearAreaIndex(index as u32)
    }

    fn layer_cells(shape: &D3Shape) -> (layer: u64)
        ensures
            layer == shape.layer(),
    {
        proof {
            assert(shape.x * shape.y <= 0xffff_ffff * 0xffff_ffff) by (nonlinear_arith)
                requires
                    0 <= shape.x <= 0xffff_ffff,
                    0 <= shape.y <= 0xffff_ffff,
            ;
        }
        (shape.x as u64) * (shape.y as u64)
    }

    /// Splits the index into the coordinates of its cell.
    pub fn to_position(&self, shape: &D3Shape) -> (pos: (u32, u32, u32))
        requires
            shape.x > 0,
            shape.y > 0,
        ensures
            pos == cell_of(self.0, *shape),
            pos.0 < shape.x,
            pos.1 < shape.y,
            linear_index(pos.0, pos.1, pos.2, *shape) == self.0,
    {
        let layer: u64 = Self::layer_cells(shape);
        let index: u64 = self.0 as u64;
        proof {
            assert(shape.layer() > 0) by (nonlinear_arith)
                requires
                    shape.layer() == shape.x * shape.y,
                    shape.x > 0,
                    shape.y > 0,
            ;
            lemma_cell_of(self.0, *shape);
            lemma_fundamental_div_mod(index as int, layer as int);
        }
        let z: u64 = index / layer;
        let rest: u64 = index - layer * z;
        let y: u64 = rest / (shape.x as u64);
        let x: u64 = rest % (shape.x as u64);
        (x as u32, y as u32, z as u32)
    }

    pub fn to_array_u32(&self, shape: &D3Shape) -> (pos: [u32; 3])
        requires
            shape.x > 0,
            shape.y > 0,
        ensures
            (pos[0], pos[1], pos[2]) == cell_of(self.0, *shape),
    {
        let (x, y, z) = self.to_position(shape);
        [x, y, z]
    }
}

impl From<u32> for AppearAreaIndex {
    fn from(val: u32) -> (index: Self) {
        AppearAreaIndex(val)
    }
}

impl FromSpecImpl<u32> for AppearAreaIndex {
    open spec fn obeys_from_spec() -> bool {
        true
    }

    open spec fn from_spec(val: u32) -> Self {
        AppearAreaIndex(val)
    }
}

impl From<AppearAreaIndex> for u32 {
    fn from(val: AppearAreaIndex) -> (index: Self) {
        val.0
    }
}

impl FromSpecImpl<AppearAreaIndex> for u32 {
    open spec fn obeys_from_spec() -> bool {
        true
    }

    open spec fn from_spec(val: AppearAreaIndex) -> Self {
        val.0
    }
}

/// The coordinates that `cell_of` gives lie inside a layer, and number the
/// cell they came from.
pub proof fn lemma_cell_of(index: u32, shape: D3Shape)
    requires
        shape.x > 0,
        shape.y > 0,
    ensures
        ({
            let pos = cell_of(index, shape);
            &&& pos.0 < shape.x
            &&& pos.1 < shape.y
            &&& pos.2 == index as int / shape.layer()
            &&& pos.1 == (index as int % shape.layer()) / (shape.x as int)
            &&& pos.0 == (index as int % shape.layer()) % (shape.x as int)
            &&& linear_index(pos.0, pos.1, pos.2, shape) == index
        }),
{
    let layer = shape.layer();
    let sx = shape.x as int;
    assert(layer > 0) by (nonlinear_arith)
        requires
            layer == shape.x * shape.y,
            shape.x > 0,
            shape.y > 0,
    ;
    let rest = index as int % layer;
    let z = index as int / layer;
    lemma_fundamental_div_mod(index as int, layer);
    lemma_mod_bound(index as int, layer);
    lemma_div_pos_is_pos(index as int, layer);
    assert(z <= index) by (nonlinear_arith)
        requires
            index == layer * z + rest,
            rest >= 0,
            layer > 0,
            z >= 0,
    ;
    lemma_fundamental_div_mod(rest, sx);
    lemma_mod_bound(rest, sx);
    lemma_div_pos_is_pos(rest, sx);
    let y = rest / sx;
    let x = rest % sx;
    assert(y < shape.y) by (nonlinear_arith)
        requires
            rest == sx * y + x,
            0 <= x < sx,
            0 <= rest < sx * shape.y,
    ;
    assert(z * layer + y * sx + x == index) by (nonlinear_arith)
        requires
            index == layer * z + rest,
            rest == sx * y + x,
    ;
}

/// A cell inside a layer gets a number from which `cell_of` recovers it.
pub proof fn lemma_cell_of_linear_index(x: u32, y: u32, z: u32, shape: D3Shape)
    requires
        x < shape.x,
        y < shape.y,
        linear_index(x, y, z, shape) <= u32::MAX,
    ensures
        cell_of(linear_index(x, y, z, shape) as u32, shape) == (x, y, z),
{
    let layer = shape.layer();
    let sx = shape.x as int;
    let rest = y * sx + x;
    assert(0 <= rest < layer) by (nonlinear_arith)
        requires
            rest == y * sx + x,
            0 <= x < sx,
            0 <= y < shape.y,
            layer == sx * shape.y,
    ;
    lemma_mul_nonnegative(z as int, layer);
    let index = linear_index(x, y, z, shape);
    assert(index == z * layer + rest);
    lemma_fundamental_div_mod_converse(index, layer, z as int, rest);
    assert(rest == x + y * sx) by (nonlinear_arith)
        requires
            rest == y * sx + x,
    ;
    lemma_fundamental_div_mod_converse(rest, sx, y as int, x as int);
}

} // verus!
