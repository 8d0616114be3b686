use vstd::prelude::*;
use vstd::arithmetic::mul::{lemma_mul_inequality, lemma_mul_is_distributive_add_other_way};

verus! {

/// A rectangular table of terrain surface heights, one per world column
/// `(wx, wz)`, in world voxel units. The caller samples its coherent-noise
/// function (a float computation this crate does not perform itself) into
/// such a grid; everything downstream of the sampled heights is verified
/// against the grid's content.
pub struct HeightGrid {
    /// World voxel x coordinate of the first column.
    pub origin_x: i64,
    /// World voxel z coordinate of the first column.
    pub origin_z: i64,
    /// Number of columns along x.
    pub size_x: usize,
    /// Number of columns along z.
    pub size_z: usize,
    /// Row-major heights: column `(wx, wz)` lives at
    /// `(wx - origin_x) * size_z + (wz - origin_z)`.
    pub data: Vec<i32>,
}

impl View for HeightGrid {
    type V = Map<(int, int), int>;

    /// The grid as a partial mapping from world column to height.
    open spec fn view(&self) -> Map<(int, int), int> {
        Map::new(
            |c: (int, int)| self.covers(c.0, c.1),
            |c: (int, int)|
                self.data@[(c.0 - self.origin_x) * (self.size_z as int) + (c.1
                    - self.origin_z)] as int,
        )
    }
}

impl HeightGrid {
    /// One height per cell of the rectangle, and extents that keep the
    /// world coordinates of its columns inside `i64`.
    pub open spec fn wf(&self) -> bool {
        &&& self.data@.len() == (self.size_x as int) * (self.size_z as int)
        &&& self.size_x <= u32::MAX
        &&& self.size_z <= u32::MAX
        &&& self.origin_x + self.size_x <= i64::MAX
        &&& self.origin_z + self.size_z <= i64::MAX
    }

    /// Whether the grid holds a height for world column `(wx, wz)`.
    pub open spec fn covers(&self, wx: int, wz: int) -> bool {
        &&& self.origin_x <= wx < self.origin_x + self.size_x
        &&& self.origin_z <= wz < self.origin_z + self.size_z
    }

    /// Build a grid from its parts; the data must fill the rectangle
    /// exactly.
    pub fn new(origin_x: i64, origin_z: i64, size_x: usize, size_z: usize, data: Vec<i32>) -> (g:
        HeightGrid)
        requires
            data@.len() == (size_x as int) * (size_z as int),
            size_x <= u32::MAX,
            size_z <= u32::MAX,
            origin_x + size_x <= i64::MAX,
            origin_z + size_z <= i64::MAX,
        ensures
            g.wf(),
            g.origin_x == origin_x,
            g.origin_z == origin_z,
            g.size_x == size_x,
            g.size_z == size_z,
            g.data@ == data@,
    {
        HeightGrid { origin_x, origin_z, size_x, size_z, data }
    }

    /// The stored height of a covered world column.
    pub fn height_at(&self, wx: i64, wz: i64) -> (h: i32)
        requires
            self.wf(),
            self.covers(wx as int, wz as int),
        ensures
            h as int == self@[(wx as int, wz as int)],
    {
        let ix = (wx - self.origin_x) as usize;
        let iz = (wz - self.origin_z) as usize;
        let n = self.data.len();
        proof {
            lemma_mul_inequality(ix + 1, self.size_x as int, self.size_z as int);
            lemma_mul_inequality(ix as int, ix + 1, self.size_z as int);
            lemma_mul_is_distributive_add_other_way(self.size_z as int, ix as int, 1);
            assert(ix * self.size_z + iz < n);
        }
        self.data[ix * self.size_z + iz]
    }
}

} // verus!
