use vstd::prelude::*;

use crate::vector::Vector2;

verus! {

/// Side of one square tile, in pixels of the render output.
pub const TILE_SIZE: u32 = 20;

/// A tile either blocks movement (`Wall`) or permits it (`Floor`).
/// Tiles are fixed once the grid is built.
#[derive(Clone, Copy, PartialEq, Eq, Structural, Debug)]
pub enum Tile {
    Wall,
    Floor,
}

impl Tile {
    pub open spec fn spec_color(self) -> u32 {
        match self {
            Tile::Floor => 0x191919,
            Tile::Wall => 0x033499,
        }
    }

    pub fn get_color(&self) -> (c: u32)
        ensures
            c == self.spec_color(),
    {
        match self {
            Tile::Floor => 0x191919,
            Tile::Wall => 0x033499,
        }
    }
}

/// The flat position of coordinate `(x, y)` in a tile sequence of the
/// given stride. The first coordinate strides by the full row: the grid
/// addresses its tiles with this row/column-swapped scheme throughout.
pub open spec fn flat_index(x: int, y: int, stride: int) -> int {
    x * stride + y
}

/// The pixel coordinate of grid coordinate `c`: `c * TILE_SIZE`, wrapping
/// at the `u32` boundary (negative coordinates wrap through `u32` first).
pub open spec fn pixel(c: int) -> u32 {
    (c as u32).wrapping_mul(TILE_SIZE)
}

/// The mathematical model of a `Grid`.
pub ghost struct GridView {
    pub width: u32,
    pub height: u32,
    pub tiles: Seq<Tile>,
}

impl GridView {
    /// A grid is well formed when it holds exactly one tile per cell.
    pub open spec fn wf(self) -> bool {
        self.tiles.len() == self.width * self.height
    }

    /// Bounds-checked lookup: `None` whenever either coordinate is
    /// negative or the flat index `x * width + y` falls outside the tile
    /// sequence.
    pub open spec fn get_tile(self, position: Vector2) -> Option<Tile> {
        if 0 <= position.x && 0 <= position.y && flat_index(
            position.x as int,
            position.y as int,
            self.width as int,
        ) < self.tiles.len() {
            Some(self.tiles[flat_index(position.x as int, position.y as int, self.width as int)])
        } else {
            None
        }
    }

}

/// An immutable tile layout with bounds-checked lookup and a render
/// descriptor accessor. Every grid holds exactly one tile per cell: the
/// constructor demands it and the type invariant keeps it.
pub struct Grid {
    tiles: Vec<Tile>,
    width: u32,
    height: u32,
}

impl Clone for Grid {
    fn clone(&self) -> (res: Self)
        ensures
            res@ == self@,
    {
        proof {
            use_type_invariant(self);
        }
        let mut tiles: Vec<Tile> = Vec::new();
        let mut i: usize = 0;
        while i < self.tiles.len()
            invariant
                0 <= i <= self.tiles@.len(),
                tiles@ == self.tiles@.take(i as int),
            decreases self.tiles@.len() - i,
        {
            tiles.push(self.tiles[i]);
            proof {
                assert(tiles@ =~= self.tiles@.take(i as int + 1));
            }
            i = i + 1;
        }
        proof {
            assert(tiles@ =~= self.tiles@);
        }
        Grid { tiles, width: self.width, height: self.height }
    }
}

impl View for Grid {
    type V = GridView;

    closed spec fn view(&self) -> GridView {
        GridView { width: self.width, height: self.height, tiles: self.tiles@ }
    }
}

impl Grid {
    #[verifier::type_invariant]
    closed spec fn wf_inv(self) -> bool {
        self.tiles@.len() == self.width * self.height
    }

    pub fn new(width: u32, height: u32, tiles: Vec<Tile>) -> (g: Grid)
        requires
            tiles@.len() == width * height,
        ensures
            g@ == (GridView { width, height, tiles: tiles@ }),
            g@.wf(),
    {
        Grid { tiles, width, height }
    }

    pub fn get_tile(&self, position: Vector2) -> (t: Option<Tile>)
        ensures
            t == self@.get_tile(position),
    {
        if position.x < 0 || position.y < 0 {
            return None;
        }
        proof {
            assert(position.x as int * self.width as int + position.y as int
                <= 0x7fff_ffff * 0xffff_ffff + 0x7fff_ffff) by (nonlinear_arith)
                requires
                    0 <= position.x <= 0x7fff_ffff,
                    0 <= position.y <= 0x7fff_ffff,
                    0 <= self.width <= 0xffff_ffff,
            ;
        }
        let index: u64 = position.x as u64 * self.width as u64 + position.y as u64;
        if index < self.tiles.len() as u64 {
            Some(self.tiles[index as usize])
        } else {
            None
        }
    }

    /// One group of five values per tile, in row-major iteration order:
    /// the tile's color, its pixel position, and the tile size twice.
    /// One group of five values per tile, in its flat order: the tile's
    /// color, the pixel position of its cell under the swapped addressing
    /// (the cell of tile `k` is `(k / width, k % width)`), and the tile
    /// size twice. Every tile is emitted exactly once.
    pub fn draw(&self) -> (out: Vec<u32>)
        ensures
            out@.len() == 5 * self@.tiles.len(),
            forall|k: int|
                0 <= k < self@.tiles.len() ==> {
                    &&& out@[5 * k] == self@.tiles[k].spec_color()
                    &&& out@[5 * k + 1] == pixel(k / self@.width as int)
                    &&& out@[5 * k + 2] == pixel(k % self@.width as int)
                    &&& out@[5 * k + 3] == TILE_SIZE
                    &&& out@[5 * k + 4] == TILE_SIZE
                },
    {
        proof {
            use_type_invariant(self);
        }
        let ghost gv = self@;
        let mut out: Vec<u32> = Vec::new();
        let n: usize = self.tiles.len();
        let mut k: usize = 0;
        while k < n
            invariant
                self@ == gv,
                n == gv.tiles.len(),
                gv.tiles.len() == gv.width * gv.height,
                0 <= k <= n,
                out@.len() == 5 * k,
                forall|j: int|
                    0 <= j < k ==> {
                        &&& out@[5 * j] == gv.tiles[j].spec_color()
                        &&& out@[5 * j + 1] == pixel(j / gv.width as int)
                        &&& out@[5 * j + 2] == pixel(j % gv.width as int)
                        &&& out@[5 * j + 3] == TILE_SIZE
                        &&& out@[5 * j + 4] == TILE_SIZE
                    },
            decreases n - k,
        {
            proof {
                assert(gv.width > 0 && (k as int / gv.width as int) < gv.height && (k as int
                    % gv.width as int) < gv.width) by (nonlinear_arith)
                    requires
                        0 <= k < gv.tiles.len(),
                        gv.tiles.len() == gv.width * gv.height,
                        gv.width >= 0,
                        gv.height >= 0,
                ;
            }
            let x = (k as u64 / self.width as u64) as u32;
            let y = (k as u64 % self.width as u64) as u32;
            let tile_color = self.tiles[k].get_color();
            out.push(tile_color);
            out.push(x.wrapping_mul(TILE_SIZE));
            out.push(y.wrapping_mul(TILE_SIZE));
            out.push(TILE_SIZE);
            out.push(TILE_SIZE);
            k = k + 1;
        }
        out
    }
}

} // verus!
