use vstd::prelude::*;
use ndarray::{Array, Ix2};
use crate::direction::pos;

verus! {

/// One cell of the stage.
#[derive(Clone, Copy, PartialEq, Eq, Structural, Debug)]
pub enum Tile {
    Ground,
    SoftWall,
    HardWall,
}

impl Tile {
    pub open spec fn spec_is_wall(self) -> bool {
        self != Tile::Ground
    }

    /// Soft and hard walls are walls; ground is not.
    pub fn is_wall(&self) -> (r: bool)
        ensures
            r == self.spec_is_wall(),
    {
        match self {
            Tile::Ground => false,
            Tile::SoftWall => true,
            Tile::HardWall => true,
        }
    }
}

/// A dense two-dimensional ndarray of tiles. Verus cannot read the array
/// type itself, so it is held here and reached through the functions below.
#[verifier::external_body]
pub struct TileGrid {
    tiles: Array<Tile, Ix2>,
}

/// The cells of a grid, row by row.
pub uninterp spec fn grid_cells(g: TileGrid) -> Seq<Seq<Tile>>;

/// Relies on ndarray's `Array::from_elem`: `rows` rows of `cols` copies of
/// `t`.
#[verifier::external_body]
fn grid_filled(rows: usize, cols: usize, t: Tile) -> (r: TileGrid)
    ensures
        grid_cells(r) == Seq::new(rows as nat, |i: int| Seq::new(cols as nat, |j: int| t)),
{
    TileGrid { tiles: Array::from_elem((rows, cols), t) }
}

/// Relies on ndarray's `ArrayBase::shape`: for an array of two axes it gives
/// the number of rows, then the length shared by every row.
#[verifier::external_body]
fn grid_shape(a: &TileGrid) -> (r: (usize, usize))
    ensures
        r.0 == grid_cells(*a).len(),
        forall|i: int| 0 <= i < r.0 ==> (#[trigger] grid_cells(*a)[i]).len() == r.1,
{
    let s = a.tiles.shape();
    (s[0], s[1])
}

/// Relies on ndarray's `Index<[usize; 2]>`: the cell at a row and a column.
#[verifier::external_body]
fn grid_get(a: &TileGrid, row: usize, col: usize) -> (r: Tile)
    requires
        row < grid_cells(*a).len(),
        col < grid_cells(*a)[row as int].len(),
    ensures
        r == grid_cells(*a)[row as int][col as int],
{
    a.tiles[[row, col]]
}

/// Relies on ndarray's `IndexMut<[usize; 2]>`: assigning through it replaces
/// that one cell.
#[verifier::external_body]
fn grid_set(a: &mut TileGrid, row: usize, col: usize, t: Tile)
    requires
        row < grid_cells(*old(a)).len(),
        col < grid_cells(*old(a))[row as int].len(),
    ensures
        grid_cells(*final(a)) == grid_cells(*old(a)).update(
            row as int,
            grid_cells(*old(a))[row as int].update(col as int, t),
        ),
{
    a.tiles[[row, col]] = t;
}

/// Relies on ndarray's `Clone` for owned arrays: a deep copy of every cell.
#[verifier::external_body]
fn grid_clone(a: &TileGrid) -> (r: TileGrid)
    ensures
        grid_cells(r) == grid_cells(*a),
{
    TileGrid { tiles: a.tiles.clone() }
}

/// The widest stage, in cells.
pub const MAX_WIDTH: i8 = 15;

/// The tallest stage, in cells.
pub const MAX_HEIGHT: i8 = 9;

/// The contents of a stage: `cells[y][x]` is the tile at column `x`, row `y`.
pub struct StageView {
    pub width: int,
    pub height: int,
    pub cells: Seq<Seq<Tile>>,
}

impl StageView {
    /// Dimensions within the largest stage, and a grid of exactly that shape.
    pub open spec fn valid(self) -> bool {
        &&& 0 <= self.width <= MAX_WIDTH
        &&& 0 <= self.height <= MAX_HEIGHT
        &&& self.cells.len() == self.height
        &&& forall|y: int| 0 <= y < self.height ==> (#[trigger] self.cells[y]).len() == self.width
    }

    pub open spec fn in_bounds(self, p: (int, int)) -> bool {
        0 <= p.0 < self.width && 0 <= p.1 < self.height
    }

    pub open spec fn tile_at(self, p: (int, int)) -> Tile {
        self.cells[p.1][p.0]
    }

    /// A cell blocks a flame when it is a wall or lies outside the stage.
    pub open spec fn blocked(self, p: (int, int)) -> bool {
        !self.in_bounds(p) || self.tile_at(p).spec_is_wall()
    }

    /// The same stage with the one cell at `p` replaced by `t`.
    pub open spec fn set(self, p: (int, int), t: Tile) -> StageView {
        StageView { cells: self.cells.update(p.1, self.cells[p.1].update(p.0, t)), ..self }
    }
}

/// Why a stage lookup failed.
#[derive(Clone, Copy, PartialEq, Eq, Structural, Debug)]
pub enum StageError {
    OutOfBounds,
}

/// A fixed-size grid of tiles. Every update yields a new stage and leaves
/// the old one as it was.
pub struct StageImpl {
    dimensions: (i8, i8),
    tiles: TileGrid,
}

impl View for StageImpl {
    type V = StageView;

    closed spec fn view(&self) -> StageView {
        StageView {
            width: self.dimensions.0 as int,
            height: self.dimensions.1 as int,
            cells: grid_cells(self.tiles),
        }
    }
}

/// A stage: a grid of tiles that answers lookups and yields changed
/// copies.
pub trait Stage: View<V = StageView> + Sized {
    /// An independent stage with the same contents.
    fn copy(&self) -> (r: Self)
        ensures
            r.view() == self.view(),
    ;

    /// The underlying grid, one row per value of the second coordinate.
    fn get_tiles(&self) -> (r: &TileGrid)
        ensures
            grid_cells(*r) == self.view().cells,
    ;

    /// The tile at `position`, or `OutOfBounds` when it lies off the stage.
    fn get_tile(&self, position: &(i8, i8)) -> (r: Result<Tile, StageError>)
        requires
            self@.valid(),
        ensures
            self.view().in_bounds(pos(*position)) <==> r.is_ok(),
            r matches Ok(t) ==> t == self.view().tile_at(pos(*position)),
            r matches Err(e) ==> e == StageError::OutOfBounds,
    ;

    /// A new stage equal to this one but for `tile` at `position`.
    fn set_tile(&self, position: &(i8, i8), tile: Tile) -> (r: Self)
        requires
            self@.valid(),
            self.view().in_bounds(pos(*position)),
        ensures
            r@.valid(),
            r.view() == self.view().set(pos(*position), tile),
    ;
}

impl StageImpl {
    pub open spec fn wf(&self) -> bool {
        self.view().valid()
    }

    /// A stage over `tiles`, whose rows run along the second coordinate.
    /// `None` when the grid is wider or taller than the largest stage.
    pub fn new(tiles: TileGrid) -> (r: Option<StageImpl>)
        ensures
            r.is_some() <==> (grid_cells(tiles).len() <= MAX_HEIGHT && (grid_cells(tiles).len()
                == 0 || grid_cells(tiles)[0].len() <= MAX_WIDTH)),
            r matches Some(s) ==> s.wf() && s.view().cells == grid_cells(tiles),
    {
        let (rows, cols) = grid_shape(&tiles);
        if rows == 0 {
            Some(StageImpl { dimensions: (0, 0), tiles })
        } else if rows <= MAX_HEIGHT as usize && cols <= MAX_WIDTH as usize {
            Some(StageImpl { dimensions: (cols as i8, rows as i8), tiles })
        } else {
            proof {
                assert(grid_cells(tiles)[0].len() == cols);
            }
            None
        }
    }

    /// A stage `width` cells wide and `height` cells tall with `tile` in
    /// every cell; `None` when it would be wider or taller than the largest
    /// stage.
    pub fn filled(width: usize, height: usize, tile: Tile) -> (r: Option<StageImpl>)
        ensures
            r.is_some() <==> (width <= MAX_WIDTH && height <= MAX_HEIGHT),
            r matches Some(s) ==> {
                &&& s.wf()
                &&& s.view().height == height
                &&& height > 0 ==> s.view().width == width
                &&& forall|p: (int, int)| s.view().in_bounds(p) ==> #[trigger] s.view().tile_at(p) == tile
            },
    {
        if width > MAX_WIDTH as usize || height > MAX_HEIGHT as usize {
            return None;
        }
        let tiles = grid_filled(height, width, tile);
        let r = StageImpl::new(tiles);
        proof {
            if height > 0 {
                assert(grid_cells(tiles)[0].len() == width);
            }
        }
        r
    }

    /// Whether the dimensions match the grid and lie within the largest
    /// stage.
    pub fn is_well_formed(&self) -> (r: bool)
        ensures
            r == self.wf(),
    {
        let (rows, cols) = grid_shape(&self.tiles);
        let (w, h) = self.dimensions;
        let r = 0 <= w && w <= MAX_WIDTH && 0 <= h && h <= MAX_HEIGHT && h as usize == rows && (rows
            == 0 || w as usize == cols);
        proof {
            if !r && 0 <= w <= MAX_WIDTH && 0 <= h <= MAX_HEIGHT && h as usize == rows {
                assert(grid_cells(self.tiles)[0].len() == cols);
            }
        }
        r
    }

    /// Width and height, in cells.
    pub fn get_dimensions(&self) -> (r: (i8, i8))
        ensures
            r.0 == self.view().width,
            r.1 == self.view().height,
    {
        self.dimensions
    }

    /// Whether `position` lies on the stage.
    pub fn in_bounds(&self, position: &(i8, i8)) -> (r: bool)
        ensures
            r == self.view().in_bounds(pos(*position)),
    {
        0 <= position.0 && position.0 < self.dimensions.0 && 0 <= position.1 && position.1
            < self.dimensions.1
    }

    /// A wall or a cell off the stage: either one stops a flame.
    pub fn is_wall_or_oob(&self, position: &(i8, i8)) -> (r: bool)
        requires
            self.wf(),
        ensures
            r == self.view().blocked(pos(*position)),
    {
        match self.get_tile(position) {
            Ok(tile) => tile.is_wall(),
            Err(_) => true,
        }
    }
}

impl Stage for StageImpl {
    fn copy(&self) -> (r: StageImpl) {
        StageImpl { dimensions: self.dimensions, tiles: grid_clone(&self.tiles) }
    }

    fn get_tiles(&self) -> (r: &TileGrid) {
        &self.tiles
    }

    fn get_tile(&self, position: &(i8, i8)) -> (r: Result<Tile, StageError>) {
        if self.in_bounds(position) {
            Ok(grid_get(&self.tiles, position.1 as usize, position.0 as usize))
        } else {
            Err(StageError::OutOfBounds)
        }
    }

    fn set_tile(&self, position: &(i8, i8), tile: Tile) -> (r: StageImpl) {
        let mut tiles = grid_clone(&self.tiles);
        grid_set(&mut tiles, position.1 as usize, position.0 as usize, tile);
        let r = StageImpl { dimensions: self.dimensions, tiles };
        proof {
            let v = self.view().set(pos(*position), tile);
            assert(r.view().cells =~= v.cells);
            assert forall|y: int| 0 <= y < v.height implies (#[trigger] v.cells[y]).len() == v.width by {
                assert(self.view().cells[y].len() == v.width);
            }
        }
        r
    }
}

/// Setting a cell and reading it back gives the tile that was set; every
/// other cell keeps its tile, and the stage stays well formed.
pub proof fn lemma_set_then_get(s: StageView, p: (int, int), t: Tile)
    requires
        s.valid(),
        s.in_bounds(p),
    ensures
        s.set(p, t).valid(),
        s.set(p, t).in_bounds(p),
        s.set(p, t).tile_at(p) == t,
        forall|q: (int, int)|
            s.in_bounds(q) && q != p ==> #[trigger] s.set(p, t).tile_at(q) == s.tile_at(q),
{
    let v = s.set(p, t);
    assert forall|y: int| 0 <= y < v.height implies (#[trigger] v.cells[y]).len() == v.width by {
        assert(s.cells[y].len() == s.width);
    }
}

} // verus!
