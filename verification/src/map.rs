//! The current dungeon level: tile grid, per-tile occupant lists, blocking
//! flags, and the room list the generator handed over.

use vstd::prelude::*;
use crate::components::Point;

verus! {

/// Upper bound on a map dimension, so that tile indices and room centers
/// stay well inside the integer types.
pub const MAX_DIM: i32 = 0x4000;

#[derive(Clone, Copy, PartialEq, Eq, Structural, Debug)]
pub enum TileType {
    Wall,
    Floor,
    DownStairs,
}

/// A rectangular room, by its corner coordinates (both inclusive).
#[derive(Clone, Copy, PartialEq, Eq, Structural, Debug)]
pub struct Room {
    pub x1: i32,
    pub y1: i32,
    pub x2: i32,
    pub y2: i32,
}

impl Room {
    /// The room lies inside a map of the given dimensions.
    pub open spec fn wf_in(self, width: int, height: int) -> bool {
        0 <= self.x1 <= self.x2 < width && 0 <= self.y1 <= self.y2 < height
    }

    /// The room's center point.
    pub open spec fn center_spec(self) -> Point {
        Point { x: ((self.x1 + self.x2) / 2) as i32, y: ((self.y1 + self.y2) / 2) as i32 }
    }

    pub fn center(&self, width: i32, height: i32) -> (c: Point)
        requires
            self.wf_in(width as int, height as int),
            width <= MAX_DIM,
            height <= MAX_DIM,
        ensures
            c == self.center_spec(),
    {
        Point { x: (self.x1 + self.x2) / 2, y: (self.y1 + self.y2) / 2 }
    }
}

/// The row-major index of a coordinate on a grid of the given width.
pub open spec fn idx_at(width: int, x: int, y: int) -> int {
    y * width + x
}

/// The point lies on a grid of the given dimensions.
pub open spec fn in_bounds_at(width: int, height: int, p: Point) -> bool {
    0 <= p.x < width && 0 <= p.y < height
}

/// The point lies strictly inside the grid, off the outermost border
/// ring.
pub open spec fn interior_at(width: int, height: int, p: Point) -> bool {
    0 < p.x < width - 1 && 0 < p.y < height - 1
}

/// One dungeon level.
pub struct MapGrid {
    pub width: i32,
    pub height: i32,
    pub depth: i32,
    /// Tile kinds, row-major; length `width * height`.
    pub tiles: Vec<TileType>,
    /// Whether each tile blocks movement; rebuilt by the spatial index.
    pub blocked: Vec<bool>,
    /// The entities standing on each tile; rebuilt by the spatial index.
    pub tile_content: Vec<Vec<usize>>,
    /// The generator's room list; the first room holds the entry point.
    pub rooms: Vec<Room>,
}

impl MapGrid {
    /// Well-formed: positive bounded dimensions, grids of the right length,
    /// rooms inside the map.
    pub open spec fn wf(self) -> bool {
        &&& 0 < self.width <= MAX_DIM
        &&& 0 < self.height <= MAX_DIM
        &&& self.tiles@.len() == self.width * self.height
        &&& self.blocked@.len() == self.width * self.height
        &&& self.tile_content@.len() == self.width * self.height
        &&& forall|r: int|
            0 <= r < self.rooms@.len() ==> self.rooms@[r].wf_in(
                self.width as int,
                self.height as int,
            )
    }


    /// The per-tile occupant lists as the contracts see them.
    pub open spec fn contents(self) -> Seq<Seq<usize>> {
        self.tile_content@.map_values(|v: Vec<usize>| v@)
    }

    /// The row-major index of a coordinate.
    pub open spec fn idx_of(self, x: int, y: int) -> int {
        idx_at(self.width as int, x, y)
    }

    /// The point lies on the map.
    pub open spec fn in_bounds(self, p: Point) -> bool {
        in_bounds_at(self.width as int, self.height as int, p)
    }

    /// The point lies strictly inside the map, off the outermost border
    /// ring. Blast tiles outside this region are discarded.
    pub open spec fn interior(self, p: Point) -> bool {
        interior_at(self.width as int, self.height as int, p)
    }

    pub fn xy_idx(&self, x: i32, y: i32) -> (r: usize)
        requires
            self.wf(),
            0 <= x < self.width,
            0 <= y < self.height,
        ensures
            r == self.idx_of(x as int, y as int),
            r < self.tile_content@.len(),
    {
        proof {
            assert((y as int) * (self.width as int) + (x as int) < (self.height as int) * (
            self.width as int)) by (nonlinear_arith)
                requires
                    0 <= x < self.width,
                    0 <= y < self.height,
            ;
            assert((self.height as int) * (self.width as int) <= 0x4000 * 0x4000)
                by (nonlinear_arith)
                requires
                    0 < self.width <= 0x4000,
                    0 < self.height <= 0x4000,
            ;
            assert((self.width as int) * (self.height as int) == (self.height as int) * (
            self.width as int)) by (nonlinear_arith);
        }
        (y as usize) * (self.width as usize) + (x as usize)
    }

    /// An empty map of the given dimensions: all walls, nothing on any
    /// tile, no rooms.
    pub fn new(width: i32, height: i32, depth: i32) -> (m: MapGrid)
        requires
            0 < width <= MAX_DIM,
            0 < height <= MAX_DIM,
        ensures
            m.wf(),
            m.width == width,
            m.height == height,
            m.depth == depth,
            m.rooms@.len() == 0,
            forall|t: int| 0 <= t < m.tiles@.len() ==> m.tiles@[t] == TileType::Wall,
            forall|t: int| 0 <= t < m.tile_content@.len() ==> m.tile_content@[t]@.len() == 0,
    {
        proof {
            assert((width as int) * (height as int) <= 0x4000 * 0x4000) by (nonlinear_arith)
                requires
                    0 < width <= 0x4000,
                    0 < height <= 0x4000,
            ;
        }
        let n: usize = (width as usize) * (height as usize);
        let mut tiles: Vec<TileType> = Vec::new();
        let mut blocked: Vec<bool> = Vec::new();
        let mut tile_content: Vec<Vec<usize>> = Vec::new();
        let mut i: usize = 0;
        while i < n
            invariant
                i <= n,
                tiles@.len() == i,
                blocked@.len() == i,
                tile_content@.len() == i,
                forall|t: int| 0 <= t < i ==> tiles@[t] == TileType::Wall,
                forall|t: int| 0 <= t < i ==> tile_content@[t]@.len() == 0,
            decreases n - i,
        {
            tiles.push(TileType::Wall);
            blocked.push(false);
            tile_content.push(Vec::new());
            i = i + 1;
        }
        MapGrid { width, height, depth, tiles, blocked, tile_content, rooms: Vec::new() }
    }


    /// Reset one tile for the spatial index: no occupants, blocked only
    /// when the tile is a wall.
    pub fn reset_tile(&mut self, t: usize)
        requires
            t < old(self).tile_content@.len(),
            t < old(self).blocked@.len(),
            t < old(self).tiles@.len(),
        ensures
            final(self).contents() =~= old(self).contents().update(t as int, Seq::empty()),
            final(self).blocked@ =~= old(self).blocked@.update(
                t as int,
                old(self).tiles@[t as int] == TileType::Wall,
            ),
            final(self).width == old(self).width,
            final(self).height == old(self).height,
            final(self).depth == old(self).depth,
            final(self).tiles == old(self).tiles,
            final(self).rooms == old(self).rooms,
    {
        let is_wall = match self.tiles[t] {
            TileType::Wall => true,
            _ => false,
        };
        self.blocked[t] = is_wall;
        self.tile_content[t].clear();
    }

    /// Record an entity as standing on a tile.
    pub fn push_occupant(&mut self, t: usize, e: usize)
        requires
            t < old(self).tile_content@.len(),
        ensures
            final(self).contents() =~= old(self).contents().update(
                t as int,
                old(self).contents()[t as int].push(e),
            ),
            final(self).blocked == old(self).blocked,
            final(self).width == old(self).width,
            final(self).height == old(self).height,
            final(self).depth == old(self).depth,
            final(self).tiles == old(self).tiles,
            final(self).rooms == old(self).rooms,
    {
        self.tile_content[t].push(e);
    }

    /// Mark a tile as blocked.
    pub fn set_blocked(&mut self, t: usize, v: bool)
        requires
            t < old(self).blocked@.len(),
        ensures
            final(self).blocked@ =~= old(self).blocked@.update(t as int, v),
            final(self).contents() == old(self).contents(),
            final(self).tile_content == old(self).tile_content,
            final(self).width == old(self).width,
            final(self).height == old(self).height,
            final(self).depth == old(self).depth,
            final(self).tiles == old(self).tiles,
            final(self).rooms == old(self).rooms,
    {
        self.blocked[t] = v;
    }

    /// Append a room to the list.
    pub fn push_room(&mut self, room: Room)
        requires
            room.wf_in(old(self).width as int, old(self).height as int),
        ensures
            *final(self) == (MapGrid { rooms: final(self).rooms, ..*old(self) }),
            final(self).rooms@ == old(self).rooms@.push(room),
    {
        self.rooms.push(room);
    }
}

} // verus!
