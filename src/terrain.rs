//! The terrain height map: 16-bit little-endian samples on a square grid.
use vstd::prelude::*;

verus! {

pub const WIDTH: usize = 513;
pub const HEIGHT: usize = 513;

/// A decompressed height map, two bytes per sample, row by row.
pub struct Terrain {
    pub heightmap: Vec<u8>,
}

/// The sample at column `x`, row `y`, in height quanta, when the map holds it.
pub open spec fn sample_spec(data: Seq<u8>, x: int, y: int) -> Option<int> {
    let i = x + y * WIDTH;
    if 0 <= x < WIDTH && 0 <= y < HEIGHT && 2 * i + 1 < data.len() {
        Some(data[2 * i] + 256 * data[2 * i + 1])
    } else {
        None
    }
}

impl Terrain {
    pub fn new(heightmap: Vec<u8>) -> (r: Terrain)
        ensures
            r.heightmap@ == heightmap@,
    {
        Terrain { heightmap }
    }

    /// The height at grid point (`x`, `y`), or nothing off the map.
    pub fn sample(&self, x: usize, y: usize) -> (r: Option<u32>)
        ensures
            match r {
                Some(v) => sample_spec(self.heightmap@, x as int, y as int) == Some(v as int),
                None => sample_spec(self.heightmap@, x as int, y as int) is None,
            },
    {
        if x >= WIDTH || y >= HEIGHT {
            return None;
        }
        let i: usize = x + y * WIDTH;
        if i >= self.heightmap.len() / 2 {
            return None;
        }
        let lo = self.heightmap[2 * i] as u32;
        let hi = self.heightmap[2 * i + 1] as u32;
        Some(lo + 256 * hi)
    }
}

} // verus!
