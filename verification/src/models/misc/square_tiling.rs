//! Square Tiling.
//!
//! Given Wang tiles (colors on the top, right, bottom and left edge) and a
//! grid size `N`, decide whether the `N x N` grid can be filled with tiles,
//! repetition allowed and no rotation, so that touching edges agree. A
//! configuration gives the tile of every cell in row-major order.
use crate::message::{tile_color_message, tile_color_text};
use crate::types::Or;
use vstd::prelude::*;

verus! {

/// A tile's edge colors: `(top, right, bottom, left)`.
pub type Tile = (usize, usize, usize, usize);

/// Mathematical model of a [`SquareTiling`] instance.
pub struct SquareTilingView {
    pub num_colors: nat,
    pub tiles: Seq<Tile>,
    pub grid_size: nat,
}

/// Some edge of the tile has a color outside `0..num_colors`.
pub open spec fn tile_out_of_range(t: Tile, num_colors: usize) -> bool {
    t.0 >= num_colors || t.1 >= num_colors || t.2 >= num_colors || t.3 >= num_colors
}

/// The first tile, from position `k` on, with a color out of range, reported
/// as its message.
pub open spec fn tile_error_from(tiles: Seq<Tile>, num_colors: usize, k: int) -> Option<Seq<char>>
    decreases tiles.len() - k,
{
    if k < 0 || k >= tiles.len() {
        None
    } else if tile_out_of_range(tiles[k], num_colors) {
        Some(tile_color_text(k as usize, num_colors))
    } else {
        tile_error_from(tiles, num_colors, k + 1)
    }
}

/// The reason an instance is rejected, if any, in the order the checks are made.
pub open spec fn tiling_instance_error(num_colors: usize, tiles: Seq<Tile>, grid_size: usize) -> Option<Seq<char>> {
    if num_colors == 0 {
        Some("SquareTiling requires at least one color"@)
    } else if tiles.len() == 0 {
        Some("SquareTiling requires at least one tile"@)
    } else if grid_size == 0 {
        Some("SquareTiling requires grid_size >= 1"@)
    } else {
        tile_error_from(tiles, num_colors, 0)
    }
}

/// The tile placed in cell `(i, j)`.
pub open spec fn cell(m: SquareTilingView, config: Seq<usize>, i: int, j: int) -> Tile {
    m.tiles[config[i * m.grid_size + j] as int]
}

/// The configuration names a tile for every cell and all touching edges agree.
pub open spec fn valid_tiling(m: SquareTilingView, config: Seq<usize>) -> bool {
    let n = m.grid_size as int;
    &&& config.len() == n * n
    &&& forall|k: int| 0 <= k < config.len() ==> (#[trigger] config[k]) < m.tiles.len()
    &&& forall|i: int, j: int|
        0 <= i < n && 0 <= j < n - 1 ==> (#[trigger] cell(m, config, i, j)).1 == cell(m, config, i, j + 1).3
    &&& forall|i: int, j: int|
        0 <= i < n - 1 && 0 <= j < n ==> (#[trigger] cell(m, config, i, j)).2 == cell(m, config, i + 1, j).0
}

proof fn lemma_cell_index(i: int, j: int, n: int)
    requires
        0 <= i < n,
        0 <= j < n,
    ensures
        0 <= i * n + j < n * n,
        (i + 1) * n + j == i * n + j + n,
{
    assert(0 <= i * n + j < n * n) by (nonlinear_arith)
        requires
            0 <= i < n,
            0 <= j < n,
    ;
    assert((i + 1) * n + j == i * n + j + n) by (nonlinear_arith);
}

/// The Square Tiling problem.
#[derive(Debug)]
pub struct SquareTiling {
    num_colors: usize,
    tiles: Vec<Tile>,
    grid_size: usize,
}

impl View for SquareTiling {
    type V = SquareTilingView;

    closed spec fn view(&self) -> SquareTilingView {
        SquareTilingView { num_colors: self.num_colors as nat, tiles: self.tiles@, grid_size: self.grid_size as nat }
    }
}

impl SquareTiling {
    /// The stored instance passed validation.
    #[verifier::type_invariant]
    pub closed spec fn inv(self) -> bool {
        tiling_instance_error(self.num_colors, self.tiles@, self.grid_size) is None
    }

    /// Create an instance, or report the first problem found.
    pub fn try_new(num_colors: usize, tiles: Vec<Tile>, grid_size: usize) -> (r: Result<Self, String>)
        ensures
            match r {
                Ok(p) => tiling_instance_error(num_colors, tiles@, grid_size) is None && p@ == (SquareTilingView {
                    num_colors: num_colors as nat,
                    tiles: tiles@,
                    grid_size: grid_size as nat,
                }),
                Err(e) => tiling_instance_error(num_colors, tiles@, grid_size) == Some(e@),
            },
    {
        if num_colors == 0 {
            return Err("SquareTiling requires at least one color".to_owned());
        }
        if tiles.len() == 0 {
            return Err("SquareTiling requires at least one tile".to_owned());
        }
        if grid_size == 0 {
            return Err("SquareTiling requires grid_size >= 1".to_owned());
        }
        let ghost ts = tiles@;
        for i in 0..tiles.len()
            invariant
                ts == tiles@,
                tile_error_from(ts, num_colors, 0) == tile_error_from(ts, num_colors, i as int),
        {
            let (top, right, bottom, left) = tiles[i];
            assert(ts[i as int] == (top, right, bottom, left));
            if top >= num_colors || right >= num_colors || bottom >= num_colors || left >= num_colors {
                return Err(tile_color_message(i, num_colors));
            }
        }
        Ok(SquareTiling { num_colors, tiles, grid_size })
    }

    /// Create an instance that passes validation.
    pub fn new(num_colors: usize, tiles: Vec<Tile>, grid_size: usize) -> (r: Self)
        requires
            tiling_instance_error(num_colors, tiles@, grid_size) is None,
        ensures
            r@ == (SquareTilingView { num_colors: num_colors as nat, tiles: tiles@, grid_size: grid_size as nat }),
    {
        match Self::try_new(num_colors, tiles, grid_size) {
            Ok(p) => p,
            Err(_) => vstd::pervasive::unreached(),
        }
    }

    /// Get the number of colors.
    pub fn num_colors(&self) -> (r: usize)
        ensures
            r == self@.num_colors,
    {
        self.num_colors
    }

    /// Get the number of tiles.
    pub fn num_tiles(&self) -> (r: usize)
        ensures
            r == self@.tiles.len(),
    {
        self.tiles.len()
    }

    /// Get the grid size.
    pub fn grid_size(&self) -> (r: usize)
        ensures
            r == self@.grid_size,
    {
        self.grid_size
    }

    /// Get the tiles.
    pub fn tiles(&self) -> (r: &[Tile])
        ensures
            r@ == self@.tiles,
    {
        self.tiles.as_slice()
    }

    /// Each of the `N * N` cells chooses a tile.
    pub fn dims(&self) -> (r: Vec<usize>)
        requires
            self@.grid_size * self@.grid_size <= usize::MAX,
        ensures
            r@ == Seq::new(self@.grid_size * self@.grid_size, |i: int| self@.tiles.len() as usize),
    {
        crate::util::repeat_usize(self.tiles.len(), self.grid_size * self.grid_size)
    }

    /// Whether the configuration tiles the grid with all touching edges agreeing.
    fn is_valid_tiling(&self, config: &[usize]) -> (r: bool)
        requires
            self@.grid_size * self@.grid_size <= usize::MAX,
        ensures
            r == valid_tiling(self@, config@),
    {
        proof {
            use_type_invariant(self);
        }
        let n = self.grid_size;
        let ghost m = self@;
        if config.len() != n * n {
            return false;
        }
        for k in 0..config.len()
            invariant
                forall|q: int| 0 <= q < k ==> (#[trigger] config@[q]) < self@.tiles.len(),
        {
            if config[k] >= self.tiles.len() {
                assert(!(config@[k as int] < self@.tiles.len()));
                return false;
            }
        }
        for i in 0..n
            invariant
                m == self@,
                n == m.grid_size,
                n >= 1,
                config@.len() == n * n,
                forall|q: int| 0 <= q < config@.len() ==> (#[trigger] config@[q]) < m.tiles.len(),
                forall|a: int, b: int|
                    0 <= a < i && 0 <= b < n - 1 ==> (#[trigger] cell(m, config@, a, b)).1 == cell(m, config@, a, b + 1).3,
        {
            for j in 0..n - 1
                invariant
                    m == self@,
                    n == m.grid_size,
                    n >= 1,
                    i < n,
                    config@.len() == n * n,
                    forall|q: int| 0 <= q < config@.len() ==> (#[trigger] config@[q]) < m.tiles.len(),
                    forall|a: int, b: int|
                        0 <= a < i && 0 <= b < n - 1 ==> (#[trigger] cell(m, config@, a, b)).1 == cell(m, config@, a, b + 1).3,
                    forall|b: int| 0 <= b < j ==> (#[trigger] cell(m, config@, i as int, b)).1 == cell(m, config@, i as int, b + 1).3,
            {
                proof {
                    lemma_cell_index(i as int, j as int, n as int);
                    lemma_cell_index(i as int, j + 1, n as int);
                }
                let left_tile = self.tiles[config[i * n + j]];
                let right_tile = self.tiles[config[i * n + j + 1]];
                if left_tile.1 != right_tile.3 {
                    assert(cell(m, config@, i as int, j as int) == left_tile);
                    assert(cell(m, config@, i as int, j + 1) == right_tile);
                    return false;
                }
            }
        }
        for i in 0..n - 1
            invariant
                m == self@,
                n == m.grid_size,
                n >= 1,
                config@.len() == n * n,
                forall|q: int| 0 <= q < config@.len() ==> (#[trigger] config@[q]) < m.tiles.len(),
                forall|a: int, b: int|
                    0 <= a < i && 0 <= b < n ==> (#[trigger] cell(m, config@, a, b)).2 == cell(m, config@, a + 1, b).0,
        {
            for j in 0..n
                invariant
                    m == self@,
                    n == m.grid_size,
                    n >= 1,
                    i < n - 1,
                    config@.len() == n * n,
                    forall|q: int| 0 <= q < config@.len() ==> (#[trigger] config@[q]) < m.tiles.len(),
                    forall|a: int, b: int|
                        0 <= a < i && 0 <= b < n ==> (#[trigger] cell(m, config@, a, b)).2 == cell(m, config@, a + 1, b).0,
                    forall|b: int| 0 <= b < j ==> (#[trigger] cell(m, config@, i as int, b)).2 == cell(m, config@, i + 1, b).0,
            {
                proof {
                    lemma_cell_index(i as int, j as int, n as int);
                    lemma_cell_index(i + 1, j as int, n as int);
                }
                let upper_tile = self.tiles[config[i * n + j]];
                let lower_tile = self.tiles[config[(i + 1) * n + j]];
                if upper_tile.2 != lower_tile.0 {
                    assert(cell(m, config@, i as int, j as int) == upper_tile);
                    assert(cell(m, config@, i + 1, j as int) == lower_tile);
                    return false;
                }
            }
        }
        true
    }

    /// Whether the configuration is a valid tiling.
    pub fn evaluate(&self, config: &[usize]) -> (r: Or)
        requires
            self@.grid_size * self@.grid_size <= usize::MAX,
        ensures
            r.0 == valid_tiling(self@, config@),
    {
        Or(self.is_valid_tiling(config))
    }
}

} // verus!
