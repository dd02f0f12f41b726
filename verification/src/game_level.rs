//! The level grid: a rectangle of tiles addressed row-major, with
//! coordinate/index math and axis-aligned neighbor lookup. The grid itself
//! performs no wraparound: stepping past an edge is reported as absence of a
//! neighbor, and the wrap policy belongs to the snake state machine.
use vstd::prelude::*;
use vstd::arithmetic::div_mod::{
    lemma_fundamental_div_mod, lemma_fundamental_div_mod_converse_div,
    lemma_fundamental_div_mod_converse_mod, lemma_mod_division_less_than_divisor,
};

verus! {

/// What a grid cell currently holds.
#[derive(Debug, Copy, Clone, PartialEq, Eq, Structural)]
pub enum TileType {
    Empty,
    Snake,
    Fruit,
}

/// One grid cell: its fixed row-major index, and its current content.
#[derive(Debug, Copy, Clone, PartialEq, Eq, Structural)]
pub struct Tile {
    pub index: usize,
    pub kind: TileType,
}

impl Tile {
    #[inline]
    pub fn get_index(&self) -> (r: usize)
        ensures
            r == self.index,
    {
        self.index
    }

    #[inline]
    pub fn tile_type(&self) -> (r: TileType)
        ensures
            r == self.kind,
    {
        self.kind
    }

    #[inline]
    pub fn set_to(&mut self, tile_type: TileType)
        ensures
            final(self).index == old(self).index,
            final(self).kind == tile_type,
    {
        self.kind = tile_type;
    }
}

/// How many tiles of `tiles` hold content `k`.
pub open spec fn count_kind(tiles: Seq<Tile>, k: TileType) -> int
    decreases tiles.len(),
{
    if tiles.len() == 0 {
        0
    } else {
        count_kind(tiles.drop_last(), k) + if tiles.last().kind == k {
            1int
        } else {
            0int
        }
    }
}

/// Extending a prefix by one tile raises the count by one exactly when that
/// tile holds `k`.
pub proof fn lemma_count_kind_take_succ(tiles: Seq<Tile>, k: TileType, i: int)
    requires
        0 <= i < tiles.len(),
    ensures
        count_kind(tiles.take(i + 1), k) == count_kind(tiles.take(i), k) + if tiles[i].kind == k {
            1int
        } else {
            0int
        },
{
    assert(tiles.take(i + 1).drop_last() =~= tiles.take(i));
    assert(tiles.take(i + 1).last() == tiles[i]);
}

pub proof fn lemma_count_kind_whole(tiles: Seq<Tile>, k: TileType)
    ensures
        count_kind(tiles.take(tiles.len() as int), k) == count_kind(tiles, k),
{
    assert(tiles.take(tiles.len() as int) =~= tiles);
}

/// Replacing the tile at `i` adjusts the count by the change at `i` alone.
pub proof fn lemma_count_kind_update(tiles: Seq<Tile>, k: TileType, i: int, t: Tile)
    requires
        0 <= i < tiles.len(),
    ensures
        count_kind(tiles.update(i, t), k) == count_kind(tiles, k) + (if t.kind == k {
            1int
        } else {
            0int
        }) - (if tiles[i].kind == k {
            1int
        } else {
            0int
        }),
    decreases tiles.len(),
{
    if i == tiles.len() - 1 {
        assert(tiles.update(i, t).drop_last() =~= tiles.drop_last());
        assert(tiles.update(i, t).last() == t);
    } else {
        assert(tiles.update(i, t).drop_last() =~= tiles.drop_last().update(i, t));
        assert(tiles.update(i, t).last() == tiles.last());
        lemma_count_kind_update(tiles.drop_last(), k, i, t);
    }
}

/// A position on the level, as column `x` and row `y`.
pub struct TileXY {
    pub x: usize,
    pub y: usize,
}

/// The level's extent in tiles.
pub struct LevelDimensions {
    pub width: usize,
    pub height: usize,
}

/// The inclusive coordinate bounds of the level.
pub struct LevelCoordinates {
    pub x_min: usize,
    pub y_min: usize,
    pub x_max: usize,
    pub y_max: usize,
}

/// A direction of axis-aligned adjacency.
#[derive(Debug, Copy, Clone, PartialEq, Eq, Structural)]
pub enum SiblingPosition {
    Up,
    Down,
    Left,
    Right,
}

/// The four neighbors of a tile; absent where the tile sits on that edge.
pub struct TileSiblings<'l> {
    pub up: Option<&'l Tile>,
    pub down: Option<&'l Tile>,
    pub left: Option<&'l Tile>,
    pub right: Option<&'l Tile>,
}

/// The rectangular grid of tiles, stored row-major: the tile at column `x`,
/// row `y` sits at index `y * width + x`.
pub struct GameLevel {
    pub width: usize,
    pub height: usize,
    pub level: Vec<Tile>,
}

impl GameLevel {
    /// Total number of tiles.
    pub open spec fn size(self) -> int {
        self.width * self.height
    }

    /// A usable level: at least one column and one row, one stored tile per
    /// cell, and each tile carrying its own row-major index.
    pub open spec fn wf(self) -> bool {
        &&& 1 <= self.width
        &&& 1 <= self.height
        &&& self.size() <= usize::MAX
        &&& self.level@.len() == self.size()
        &&& forall|i: int|
            0 <= i < self.level@.len() ==> (#[trigger] self.level@[i]).index == i
    }

    /// The content of the tile at index `i`.
    pub open spec fn kind_at(self, i: int) -> TileType {
        self.level@[i].kind
    }

    /// Column of index `i`.
    pub open spec fn spec_x(self, i: int) -> int {
        i % (self.width as int)
    }

    /// Row of index `i`.
    pub open spec fn spec_y(self, i: int) -> int {
        i / (self.width as int)
    }

    /// The index one step from `i` in direction `p`, or `None` exactly when
    /// that step leaves the grid.
    pub open spec fn spec_sibling_index(self, i: int, p: SiblingPosition) -> Option<int> {
        let x = self.spec_x(i);
        let y = self.spec_y(i);
        let w = self.width as int;
        match p {
            SiblingPosition::Up => if y > 0 {
                Some(i - w)
            } else {
                None
            },
            SiblingPosition::Down => if y < self.height - 1 {
                Some(i + w)
            } else {
                None
            },
            SiblingPosition::Left => if x > 0 {
                Some(i - 1)
            } else {
                None
            },
            SiblingPosition::Right => if x < w - 1 {
                Some(i + 1)
            } else {
                None
            },
        }
    }

    pub fn new(width: usize, height: usize) -> (r: GameLevel)
        requires
            1 <= width,
            1 <= height,
            width * height <= usize::MAX,
        ensures
            r.wf(),
            r.width == width,
            r.height == height,
            forall|i: int| 0 <= i < r.level@.len() ==> (#[trigger] r.level@[i]).kind is Empty,
    {
        let size = height * width;
        let mut level: Vec<Tile> = Vec::new();
        let mut i: usize = 0;
        while i < size
            invariant
                i <= size,
                level@.len() == i,
                forall|j: int|
                    0 <= j < i ==> (#[trigger] level@[j]).index == j && level@[j].kind is Empty,
            decreases size - i,
        {
            level.push(Tile { index: i, kind: TileType::Empty });
            i += 1;
        }
        GameLevel { width, height, level }
    }

    /// The inclusive coordinate bounds: maxima are one below the extent
    /// because counting starts at zero.
    pub fn level_coordinates(&self) -> (r: LevelCoordinates)
        requires
            1 <= self.width,
            1 <= self.height,
        ensures
            r.x_min == 0,
            r.y_min == 0,
            r.x_max == self.width - 1,
            r.y_max == self.height - 1,
    {
        LevelCoordinates { x_min: 0, y_min: 0, x_max: self.width - 1, y_max: self.height - 1 }
    }

    pub fn level_dimensions(&self) -> (r: LevelDimensions)
        ensures
            r.width == self.width,
            r.height == self.height,
    {
        LevelDimensions { width: self.width, height: self.height }
    }

    /// All tiles, row-major.
    pub fn level(&self) -> (r: &[Tile])
        ensures
            r@ == self.level@,
    {
        self.level.as_slice()
    }

    /// Decode a tile's row-major index into its column and row.
    pub fn get_tile_position(&self, tile: &Tile) -> (r: TileXY)
        requires
            1 <= self.width,
        ensures
            r.x == self.spec_x(tile.index as int),
            r.y == self.spec_y(tile.index as int),
            r.x < self.width,
    {
        let i = tile.get_index();
        let y = i / self.width;
        proof {
            lemma_fundamental_div_mod(i as int, self.width as int);
            lemma_mod_division_less_than_divisor(i as int, self.width as int);
            assert(self.width as int * (y as int) == y as int * (self.width as int))
                by (nonlinear_arith);
            assert(y as int * (self.width as int) <= i as int);
        }
        let x = i - y * self.width;
        TileXY { x, y }
    }

    pub fn get_tile(&self, index: usize) -> (r: Option<&Tile>)
        ensures
            index < self.level@.len() ==> r.is_some() && *r.unwrap() == self.level@[index as int],
            index >= self.level@.len() ==> r.is_none(),
    {
        if index < self.level.len() {
            Some(&self.level[index])
        } else {
            None
        }
    }

    pub fn get_tile_mut(&mut self, index: usize) -> (r: Option<&mut Tile>)
        ensures
            index < old(self).level@.len() ==> r.is_some()
                && *r.unwrap() == old(self).level@[index as int]
                && final(self).level@ == old(self).level@.update(index as int, *final(r.unwrap()))
                && final(self).width == old(self).width
                && final(self).height == old(self).height,
            index >= old(self).level@.len() ==> r.is_none() && *final(self) == *old(self),
    {
        if index < self.level.len() {
            Some(&mut self.level[index])
        } else {
            None
        }
    }

    fn is_tile_in_level_bounds(&self, x: usize, y: usize) -> (r: bool)
        requires
            1 <= self.width,
            1 <= self.height,
        ensures
            r == (x < self.width && y < self.height),
    {
        let d = self.level_coordinates();
        x <= d.x_max && y <= d.y_max
    }

    proof fn lemma_xy_to_index(self, x: int, y: int)
        requires
            self.wf(),
            0 <= x < self.width,
            0 <= y < self.height,
        ensures
            0 <= y * self.width + x < self.size(),
            self.spec_x(y * self.width + x) == x,
            self.spec_y(y * self.width + x) == y,
    {
        let w = self.width as int;
        assert(y * w + x < self.size()) by (nonlinear_arith)
            requires
                0 <= x < w,
                0 <= y <= self.height - 1,
                self.size() == w * self.height,
        ;
        assert(y * w + x >= 0) by (nonlinear_arith)
            requires
                0 <= x,
                0 <= y,
                w >= 1,
        ;
        lemma_fundamental_div_mod_converse_div(y * w + x, w, y, x);
        lemma_fundamental_div_mod_converse_mod(y * w + x, w, y, x);
    }

    pub fn get_tile_on(&self, x: usize, y: usize) -> (r: Option<&Tile>)
        requires
            self.wf(),
        ensures
            x < self.width && y < self.height ==> r.is_some()
                && *r.unwrap() == self.level@[y * self.width + x]
                && self.spec_x(y * self.width + x) == x
                && self.spec_y(y * self.width + x) == y,
            !(x < self.width && y < self.height) ==> r.is_none(),
    {
        if self.is_tile_in_level_bounds(x, y) {
            proof {
                self.lemma_xy_to_index(x as int, y as int);
            }
            Some(&self.level[y * self.width + x])
        } else {
            None
        }
    }

    pub fn get_tile_mut_on(&mut self, x: usize, y: usize) -> (r: Option<&mut Tile>)
        requires
            old(self).wf(),
        ensures
            x < old(self).width && y < old(self).height ==> r.is_some()
                && *r.unwrap() == old(self).level@[y * old(self).width + x]
                && final(self).level@ == old(self).level@.update(
                    y * old(self).width + x,
                    *final(r.unwrap()),
                )
                && final(self).width == old(self).width
                && final(self).height == old(self).height,
            !(x < old(self).width && y < old(self).height) ==> r.is_none()
                && *final(self) == *old(self),
    {
        if self.is_tile_in_level_bounds(x, y) {
            proof {
                self.lemma_xy_to_index(x as int, y as int);
            }
            Some(&mut self.level[y * self.width + x])
        } else {
            None
        }
    }

    /// The adjacent tile in the given direction, or `None` exactly when the
    /// step would leave the grid bounds. No wraparound happens here.
    pub fn tile_sibling(&self, tile: &Tile, on_position: SiblingPosition) -> (r: Option<&Tile>)
        requires
            self.wf(),
            tile.index < self.size(),
        ensures
            match self.spec_sibling_index(tile.index as int, on_position) {
                Some(j) => r.is_some() && 0 <= j < self.size() && *r.unwrap() == self.level@[j],
                None => r.is_none(),
            },
    {
        let TileXY { x, y } = self.get_tile_position(tile);
        proof {
            self.lemma_index_to_xy(tile.index as int);
        }
        match on_position {
            SiblingPosition::Up => {
                if y > 0 {
                    proof {
                        self.lemma_xy_to_index(x as int, y - 1);
                        assert((y - 1) * (self.width as int) == y * (self.width as int)
                            - self.width) by (nonlinear_arith);
                    }
                    self.get_tile_on(x, y - 1)
                } else {
                    None
                }
            },
            SiblingPosition::Down => {
                if y + 1 < self.height {
                    proof {
                        self.lemma_xy_to_index(x as int, y + 1);
                        assert((y + 1) * (self.width as int) == y * (self.width as int)
                            + self.width) by (nonlinear_arith);
                    }
                    self.get_tile_on(x, y + 1)
                } else {
                    None
                }
            },
            SiblingPosition::Left => {
                if x > 0 {
                    proof {
                        self.lemma_xy_to_index(x - 1, y as int);
                    }
                    self.get_tile_on(x - 1, y)
                } else {
                    None
                }
            },
            SiblingPosition::Right => {
                if x + 1 < self.width {
                    proof {
                        self.lemma_xy_to_index(x + 1, y as int);
                    }
                    self.get_tile_on(x + 1, y)
                } else {
                    None
                }
            },
        }
    }

    /// An in-range index decomposes into coordinates that re-encode to it.
    pub proof fn lemma_index_to_xy(self, i: int)
        requires
            self.wf(),
            0 <= i < self.size(),
        ensures
            0 <= self.spec_x(i) < self.width,
            0 <= self.spec_y(i) < self.height,
            self.spec_y(i) * self.width + self.spec_x(i) == i,
    {
        let w = self.width as int;
        lemma_fundamental_div_mod(i, w);
        lemma_mod_division_less_than_divisor(i, w);
        assert(i / w < self.height) by (nonlinear_arith)
            requires
                w >= 1,
                i < w * self.height,
                i == w * (i / w) + i % w,
                0 <= i % w < w,
        ;
        assert(i / w >= 0) by (nonlinear_arith)
            requires
                w >= 1,
                i >= 0,
                i == w * (i / w) + i % w,
                0 <= i % w < w,
        ;
    }

    /// Coordinates encode row-major to an index that decodes back to them:
    /// `position` and the row-major encoding are mutual inverses.
    pub proof fn lemma_position_roundtrip(self, x: int, y: int)
        requires
            self.wf(),
            0 <= x < self.width,
            0 <= y < self.height,
        ensures
            0 <= y * self.width + x < self.size(),
            self.spec_x(y * self.width + x) == x,
            self.spec_y(y * self.width + x) == y,
    {
        self.lemma_xy_to_index(x, y);
    }

    /// All four neighbors of a tile at once.
    pub fn tile_siblings<'l>(&'l self, tile: &Tile) -> (r: TileSiblings<'l>)
        requires
            self.wf(),
            tile.index < self.size(),
        ensures
            match self.spec_sibling_index(tile.index as int, SiblingPosition::Up) {
                Some(j) => r.up.is_some() && *r.up.unwrap() == self.level@[j],
                None => r.up.is_none(),
            },
            match self.spec_sibling_index(tile.index as int, SiblingPosition::Down) {
                Some(j) => r.down.is_some() && *r.down.unwrap() == self.level@[j],
                None => r.down.is_none(),
            },
            match self.spec_sibling_index(tile.index as int, SiblingPosition::Left) {
                Some(j) => r.left.is_some() && *r.left.unwrap() == self.level@[j],
                None => r.left.is_none(),
            },
            match self.spec_sibling_index(tile.index as int, SiblingPosition::Right) {
                Some(j) => r.right.is_some() && *r.right.unwrap() == self.level@[j],
                None => r.right.is_none(),
            },
    {
        TileSiblings {
            up: self.tile_sibling(tile, SiblingPosition::Up),
            down: self.tile_sibling(tile, SiblingPosition::Down),
            left: self.tile_sibling(tile, SiblingPosition::Left),
            right: self.tile_sibling(tile, SiblingPosition::Right),
        }
    }

    /// Put a fruit on the tile at (`x`, `y`) only if that tile exists and is
    /// currently empty; otherwise change nothing. Never errors.
    pub fn put_fruit(&mut self, x: usize, y: usize)
        requires
            old(self).wf(),
        ensures
            final(self).wf(),
            final(self).width == old(self).width,
            final(self).height == old(self).height,
            ({
                let i = y * old(self).width + x;
                if x < old(self).width && y < old(self).height && old(self).kind_at(i) is Empty {
                    final(self).level@ == old(self).level@.update(
                        i,
                        Tile { index: i as usize, kind: TileType::Fruit },
                    )
                } else {
                    *final(self) == *old(self)
                }
            }),
    {
        proof {
            if x < self.width && y < self.height {
                self.lemma_xy_to_index(x as int, y as int);
            }
        }
        let found: Option<usize> = match self.get_tile_on(x, y) {
            Some(tile) => {
                if matches!(tile.tile_type(), TileType::Empty) {
                    Some(tile.get_index())
                } else {
                    None
                }
            },
            None => None,
        };
        if let Some(index) = found {
            match self.get_tile_mut(index) {
                Some(tile) => {
                    tile.set_to(TileType::Fruit);
                },
                None => {},
            }
            proof {
                assert forall|j: int| 0 <= j < self.level@.len() implies (
                #[trigger] self.level@[j]).index == j by {}
            }
        }
    }
}

} // verus!
