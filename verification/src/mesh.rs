use crate::render::appear_area::{cell_of, linear_index, AppearAreaIndex, D3Shape};
use ndarray::parallel::prelude::{IntoParallelIterator, ParallelIterator};
use vstd::prelude::*;

verus! {

/// One cell of a grid of mesh boxes: its number, its place in the grid,
/// and the appear area that was put into it, if any.
pub struct BoxInfo<T> {
    pub index: AppearAreaIndex,
    pub position: (u32, u32, u32),
    pub ref_appear_area: Option<T>,
}

/// Number of cells of a grid.
pub open spec fn cell_count(shape: D3Shape) -> int {
    shape.x * shape.y * shape.z
}

/// The places of the cells `0 .. count` of a grid, in the order of their
/// numbers.
///
/// `into_par_iter` on a range, `map` and `collect` of rayon, as ndarray
/// hands them on: the closure runs once for each number of the range, on
/// whatever thread, and the vector holds the results in the order of the
/// range.
#[verifier::external_body]
fn par_positions(count: u32, shape: D3Shape) -> (positions: Vec<(u32, u32, u32)>)
    requires
        count > 0 ==> shape.x > 0 && shape.y > 0,
    ensures
        positions@.len() == count,
        forall|m: int| 0 <= m < count ==> #[trigger] positions@[m] == cell_of(m as u32, shape),
{
    (0..count).into_par_iter().map(|m| AppearAreaIndex(m).to_position(&shape)).collect()
}

/// A grid of mesh boxes, one for each cell, in the order of the cell numbers.
///
/// A grid is made by `new` and changed by its own methods only, and each
/// of them keeps it well formed.
pub struct MeshBoxes<T> {
    values: Vec<BoxInfo<T>>,
    shape: D3Shape,
}

/// What a grid of mesh boxes holds.
pub ghost struct MeshState<T> {
    pub cells: Seq<BoxInfo<T>>,
    pub shape: D3Shape,
}

impl<T> MeshState<T> {
    /// There is one cell for each place of the grid, and each cell knows
    /// its number and its place.
    pub open spec fn wf(self) -> bool {
        &&& self.cells.len() == cell_count(self.shape)
        &&& self.cells.len() <= u32::MAX
        &&& forall|m: int|
            0 <= m < self.cells.len() ==> (#[trigger] self.cells[m]).index == AppearAreaIndex(
                m as u32,
            ) && self.cells[m].position == cell_of(m as u32, self.shape)
    }

    /// Cell `m` holds an appear area.
    pub open spec fn occupied(self, m: int) -> bool {
        0 <= m < self.cells.len() && self.cells[m].ref_appear_area.is_some()
    }
}

impl<T> View for MeshBoxes<T> {
    type V = MeshState<T>;

    closed spec fn view(&self) -> MeshState<T> {
        MeshState { cells: self.values@, shape: self.shape }
    }
}

impl<T> MeshBoxes<T> {
    /// A grid of the given shape, with no appear area in any cell.
    pub fn new(shape: D3Shape) -> (boxes: Self)
        requires
            cell_count(shape) <= u32::MAX,
        ensures
            boxes@.wf(),
            boxes@.shape == shape,
            forall|m: int| 0 <= m < boxes@.cells.len() ==> !boxes@.occupied(m),
    {
        proof {
            lemma_cell_count(shape);
        }
        let layer: u64 = (shape.x as u64) * (shape.y as u64);
        let count: u32 = (layer * (shape.z as u64)) as u32;
        let positions = par_positions(count, shape);
        let mut values: Vec<BoxInfo<T>> = Vec::new();
        let mut m: u32 = 0;
        while m < count
            invariant
                m <= count,
                positions@.len() == count,
                forall|k: int|
                    0 <= k < count ==> #[trigger] positions@[k] == cell_of(k as u32, shape),
                values@.len() == m,
                forall|k: int|
                    0 <= k < m ==> (#[trigger] values@[k]).index == AppearAreaIndex(k as u32)
                        && values@[k].position == cell_of(k as u32, shape)
                        && values@[k].ref_appear_area.is_none(),
            decreases count - m,
        {
            values.push(
                BoxInfo {
                    index: AppearAreaIndex(m),
                    position: positions[m as usize],
                    ref_appear_area: None,
                },
            );
            m += 1;
        }
        MeshBoxes { values, shape }
    }

    /// The shape of the grid.
    pub fn shape(&self) -> (shape: D3Shape)
        ensures
            shape == self@.shape,
    {
        self.shape
    }

    /// Puts an appear area into the cell at `(x, y, z)`, in place of the
    /// one that may be there. Nothing comes back.
    pub fn insert_mesh_box(&mut self, x: u32, y: u32, z: u32, appear_area: T) -> (displaced: Vec<T>)
        requires
            old(self)@.wf(),
            linear_index(x, y, z, old(self)@.shape) < old(self)@.cells.len(),
        ensures
            final(self)@.wf(),
            final(self)@.shape == old(self)@.shape,
            final(self)@.cells == old(self)@.cells.update(
                linear_index(x, y, z, old(self)@.shape),
                BoxInfo {
                    ref_appear_area: Some(appear_area),
                    ..old(self)@.cells[linear_index(x, y, z, old(self)@.shape)]
                },
            ),
            displaced@.len() == 0,
    {
        let appear_index = AppearAreaIndex::new(x, y, z, self.shape);
        let index: usize = appear_index.0 as usize;
        let item = &mut self.values[index];
        item.ref_appear_area = Some(appear_area);
        Vec::new()
    }

    /// The cells, in the order of their numbers.
    pub fn to_render_array(&self) -> (cells: &[BoxInfo<T>])
        ensures
            cells@ == self@.cells,
    {
        self.values.as_slice()
    }

    /// The numbers of the cells that hold an appear area, in rising order.
    pub fn get_non_empty_mapping_indexs(&self) -> (indices: Vec<u32>)
        requires
            self@.wf(),
        ensures
            forall|k: int| 0 <= k < indices@.len() ==> self@.occupied(#[trigger] indices@[k] as int),
            forall|a: int, b: int|
                0 <= a < b < indices@.len() ==> #[trigger] indices@[a] < #[trigger] indices@[b],
            forall|m: int| self@.occupied(m) ==> indices@.contains(m as u32),
    {
        let mut indices: Vec<u32> = Vec::new();
        let mut m: usize = 0;
        while m < self.values.len()
            invariant
                self@.wf(),
                m <= self.values@.len(),
                forall|k: int|
                    0 <= k < indices@.len() ==> self@.occupied(#[trigger] indices@[k] as int)
                        && indices@[k] < m,
                forall|a: int, b: int|
                    0 <= a < b < indices@.len() ==> #[trigger] indices@[a] < #[trigger] indices@[b],
                forall|k: int| 0 <= k < m && self@.occupied(k) ==> indices@.contains(k as u32),
            decreases self.values@.len() - m,
        {
            if self.values[m].ref_appear_area.is_some() {
                let ghost before = indices@;
                indices.push(m as u32);
                proof {
                    assert(indices@[before.len() as int] == m as u32);
                    assert forall|k: int| 0 <= k < m + 1 && self@.occupied(k) implies indices@.contains(
                        k as u32,
                    ) by {
                        if k < m {
                            let at = choose|at: int| 0 <= at < before.len() && before[at] == k as u32;
                            assert(indices@[at] == k as u32);
                        }
                    }
                }
            }
            m += 1;
        }
        indices
    }
}

/// A grid with cells has no side of length zero, and a layer of it has no
/// more cells than the grid.
proof fn lemma_cell_count(shape: D3Shape)
    requires
        cell_count(shape) <= u32::MAX,
    ensures
        shape.x * shape.y <= 0xffff_ffff * 0xffff_ffff,
        (shape.x * shape.y) * shape.z == cell_count(shape),
        cell_count(shape) >= 0,
        cell_count(shape) > 0 ==> shape.x > 0 && shape.y > 0 && shape.z > 0,
{
    assert(shape.x * shape.y <= 0xffff_ffff * 0xffff_ffff) by (nonlinear_arith)
        requires
            0 <= shape.x <= 0xffff_ffff,
            0 <= shape.y <= 0xffff_ffff,
    ;
    assert(cell_count(shape) >= 0 && (cell_count(shape) > 0 ==> shape.x > 0 && shape.y > 0
        && shape.z > 0)) by (nonlinear_arith)
        requires
            cell_count(shape) == shape.x * shape.y * shape.z,
            shape.x >= 0,
            shape.y >= 0,
            shape.z >= 0,
    ;
}

} // verus!
