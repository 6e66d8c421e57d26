//! The tile grid of a dungeon: what each cell is, which rooms and corridors
//! were cut into it, and the primitive operations that change it.

use crate::rect::{h_span, v_span, Corridor, Rect};
use vstd::prelude::*;

verus! {

/// A tile of the map and its properties.
#[derive(Clone, Copy, Debug, PartialEq, Eq, Structural)]
pub struct Tile {
    /// Blocks movement.
    pub impassable: bool,
    /// Blocks the line of sight.
    pub block_sight: bool,
    /// Has been in view at least once.
    pub explored: bool,
}

impl Tile {
    /// A wall blocks both movement and sight.
    pub open spec fn is_wall(self) -> bool {
        self.impassable && self.block_sight
    }

    /// A floor tile blocks neither movement nor sight.
    pub open spec fn is_floor(self) -> bool {
        !self.impassable && !self.block_sight
    }

    /// The tile once it is cut open: floor, with its memory of having been
    /// seen left as it was.
    pub open spec fn carved(self) -> Tile {
        Tile { impassable: false, block_sight: false, explored: self.explored }
    }

    /// The tile once it has been in view.
    pub open spec fn seen(self) -> Tile {
        Tile { impassable: self.impassable, block_sight: self.block_sight, explored: true }
    }

    pub fn empty() -> (t: Tile)
        ensures
            t == (Tile { impassable: false, block_sight: false, explored: false }),
            t.is_floor(),
    {
        Tile { impassable: false, block_sight: false, explored: false }
    }

    pub fn wall() -> (t: Tile)
        ensures
            t == (Tile { impassable: true, block_sight: true, explored: false }),
            t.is_wall(),
    {
        Tile { impassable: true, block_sight: true, explored: false }
    }
}

/// The mathematical content of a [`TileGrid`]: a `width` by `height` array
/// of tiles, addressed as `tiles[x][y]`, with the rooms and corridors that
/// were cut into it, in the order in which they were placed.
pub struct GridView {
    pub width: int,
    pub height: int,
    pub tiles: Seq<Seq<Tile>>,
    pub rooms: Seq<Rect>,
    pub corridors: Seq<Corridor>,
}

impl GridView {
    /// The tile array is rectangular and has the stated size.
    pub open spec fn shaped(self) -> bool {
        &&& 0 <= self.width <= i32::MAX
        &&& 0 <= self.height <= i32::MAX
        &&& self.tiles.len() == self.width
        &&& forall|x: int| 0 <= x < self.width ==> (#[trigger] self.tiles[x]).len() == self.height
    }

    pub open spec fn in_bounds(self, x: int, y: int) -> bool {
        0 <= x < self.width && 0 <= y < self.height
    }

    pub open spec fn tile(self, x: int, y: int) -> Tile {
        self.tiles[x][y]
    }

    /// Whether every cell of `region` is a cell of the grid.
    pub open spec fn holds(self, region: Set<(int, int)>) -> bool {
        forall|x: int, y: int| #[trigger] region.contains((x, y)) ==> self.in_bounds(x, y)
    }

    /// A grid of the given size in which every tile is an unexplored wall
    /// and nothing has been placed.
    pub open spec fn walls(width: int, height: int) -> GridView {
        GridView {
            width,
            height,
            tiles: Seq::new(
                width as nat,
                |x: int|
                    Seq::new(
                        height as nat,
                        |y: int| Tile { impassable: true, block_sight: true, explored: false },
                    ),
            ),
            rooms: Seq::empty(),
            corridors: Seq::empty(),
        }
    }

    /// The grid with every tile of `region` turned into floor.
    pub open spec fn carve(self, region: Set<(int, int)>) -> GridView {
        GridView {
            tiles: Seq::new(
                self.width as nat,
                |x: int|
                    Seq::new(
                        self.height as nat,
                        |y: int|
                            if region.contains((x, y)) {
                                self.tiles[x][y].carved()
                            } else {
                                self.tiles[x][y]
                            },
                    ),
            ),
            ..self
        }
    }

    /// The grid with the tile at `(x, y)` marked as explored.
    pub open spec fn explore(self, x: int, y: int) -> GridView {
        GridView {
            tiles: self.tiles.update(x, self.tiles[x].update(y, self.tiles[x][y].seen())),
            ..self
        }
    }

    /// The grid with one more room on its list.
    pub open spec fn record_room(self, room: Rect) -> GridView {
        GridView { rooms: self.rooms.push(room), ..self }
    }

    /// The grid with one more corridor on its list.
    pub open spec fn record_corridor(self, corridor: Corridor) -> GridView {
        GridView { corridors: self.corridors.push(corridor), ..self }
    }

    /// Whether `self` and `other` have the same size and agree, tile by tile,
    /// on what blocks movement and sight.
    pub open spec fn same_layout(self, other: GridView) -> bool {
        &&& self.width == other.width
        &&& self.height == other.height
        &&& forall|x: int, y: int|
            self.in_bounds(x, y) ==> {
                &&& (#[trigger] self.tile(x, y)).impassable == other.tile(x, y).impassable
                &&& self.tile(x, y).block_sight == other.tile(x, y).block_sight
            }
    }

    /// Whether every tile that is explored in `self` is explored in `later`.
    pub open spec fn explored_within(self, later: GridView) -> bool {
        forall|x: int, y: int|
            self.in_bounds(x, y) && (#[trigger] self.tile(x, y)).explored ==> later.tile(
                x,
                y,
            ).explored
    }
}

/// Two shaped grids are the same grid when they agree on their size, on
/// every tile and on what was placed.
pub proof fn lemma_grid_extensional(a: GridView, b: GridView)
    requires
        a.shaped(),
        b.shaped(),
        a.width == b.width,
        a.height == b.height,
        a.rooms == b.rooms,
        a.corridors == b.corridors,
        forall|x: int, y: int| a.in_bounds(x, y) ==> a.tile(x, y) == b.tile(x, y),
    ensures
        a == b,
{
    assert forall|x: int| 0 <= x < a.width implies a.tiles[x] == b.tiles[x] by {
        assert forall|y: int| 0 <= y < a.height implies a.tiles[x][y] == b.tiles[x][y] by {
            assert(a.in_bounds(x, y));
            assert(a.tile(x, y) == b.tile(x, y));
        }
        assert(a.tiles[x] =~= b.tiles[x]);
    }
    assert(a.tiles =~= b.tiles);
}

/// What exploring does, tile by tile: the tile at `(x, y)` is seen, every
/// other tile stays as it is.
pub proof fn lemma_explore_tiles(g: GridView, x: int, y: int)
    requires
        g.shaped(),
        g.in_bounds(x, y),
    ensures
        g.explore(x, y).shaped(),
        g.explore(x, y).width == g.width,
        g.explore(x, y).height == g.height,
        g.explore(x, y).rooms == g.rooms,
        g.explore(x, y).corridors == g.corridors,
        forall|a: int, b: int|
            g.in_bounds(a, b) ==> #[trigger] g.explore(x, y).tile(a, b) == (if a == x && b == y {
                g.tile(a, b).seen()
            } else {
                g.tile(a, b)
            }),
{
    let h = g.explore(x, y);
    assert(g.tiles[x].len() == g.height);
    assert forall|a: int| 0 <= a < h.width implies (#[trigger] h.tiles[a]).len() == h.height by {
        assert(g.tiles[a].len() == g.height);
    }
    assert forall|a: int, b: int| g.in_bounds(a, b) implies #[trigger] h.tile(a, b) == (if a == x
        && b == y {
        g.tile(a, b).seen()
    } else {
        g.tile(a, b)
    }) by {
        assert(g.tiles[a].len() == g.height);
    }
}

/// The tile grid: a `width` by `height` array of tiles, the rooms that were
/// accepted and the corridors that join them.
#[derive(Clone, Debug, PartialEq, Eq)]
pub struct TileGrid {
    width: i32,
    height: i32,
    map: Vec<Vec<Tile>>,
    rooms: Vec<Rect>,
    corridors: Vec<Corridor>,
}

impl View for TileGrid {
    type V = GridView;

    closed spec fn view(&self) -> GridView {
        GridView {
            width: self.width as int,
            height: self.height as int,
            tiles: Seq::new(self.map.len() as nat, |x: int| self.map[x]@),
            rooms: self.rooms@,
            corridors: self.corridors@,
        }
    }
}

impl TileGrid {
    /// What the view holds.
    proof fn lemma_view(&self)
        ensures
            self@.width == self.width,
            self@.height == self.height,
            self@.tiles.len() == self.map.len(),
            forall|x: int| 0 <= x < self.map.len() ==> #[trigger] self@.tiles[x] == self.map[x]@,
            self@.rooms == self.rooms@,
            self@.corridors == self.corridors@,
    {
    }

    /// A cell of a shaped grid is an element of the stored columns.
    proof fn lemma_cell(&self, x: int, y: int)
        requires
            self@.shaped(),
            self@.in_bounds(x, y),
        ensures
            0 <= x < self.map.len(),
            0 <= y < self.map[x].len(),
            self@.tile(x, y) == self.map[x][y],
    {
        self.lemma_view();
        assert(self@.tiles[x].len() == self@.height);
    }

    /// What a grid is after one of its tiles was replaced.
    proof fn lemma_cell_replaced(before: &TileGrid, after: &TileGrid, x: int, y: int, t: Tile)
        requires
            before@.shaped(),
            before@.in_bounds(x, y),
            after.width == before.width,
            after.height == before.height,
            after.rooms == before.rooms,
            after.corridors == before.corridors,
            after.map@.len() == before.map@.len(),
            forall|a: int|
                0 <= a < before.map@.len() && a != x ==> #[trigger] after.map@[a]
                    == before.map@[a],
            after.map@[x]@ == before.map@[x]@.update(y, t),
        ensures
            after@.shaped(),
            after@.width == before@.width,
            after@.height == before@.height,
            after@.rooms == before@.rooms,
            after@.corridors == before@.corridors,
            forall|a: int, b: int|
                before@.in_bounds(a, b) ==> #[trigger] after@.tile(a, b) == (if a == x && b == y {
                    t
                } else {
                    before@.tile(a, b)
                }),
    {
        before.lemma_view();
        after.lemma_view();
        assert forall|a: int| 0 <= a < after@.width implies (#[trigger] after@.tiles[a]).len()
            == after@.height by {
            assert(before@.tiles[a].len() == before@.height);
            assert(after@.tiles[a] == after.map@[a]@);
            assert(before@.tiles[a] == before.map@[a]@);
        }
        assert forall|a: int, b: int| before@.in_bounds(a, b) implies #[trigger] after@.tile(a, b)
            == (if a == x && b == y {
            t
        } else {
            before@.tile(a, b)
        }) by {
            assert(before@.tiles[a].len() == before@.height);
            assert(after@.tiles[a] == after.map@[a]@);
            assert(before@.tiles[a] == before.map@[a]@);
        }
    }

    /// A grid of the given size, all of it wall, with nothing placed.
    pub fn walls(width: i32, height: i32) -> (grid: TileGrid)
        requires
            0 <= width,
            0 <= height,
        ensures
            grid@ == GridView::walls(width as int, height as int),
            grid@.shaped(),
    {
        let mut map: Vec<Vec<Tile>> = Vec::new();
        let mut x: i32 = 0;
        while x < width
            invariant
                0 <= x <= width,
                0 <= height,
                map.len() == x,
                forall|a: int| 0 <= a < x ==> (#[trigger] map[a]).len() == height,
                forall|a: int, b: int|
                    0 <= a < x && 0 <= b < height ==> (#[trigger] map[a][b]).is_wall()
                        && !map[a][b].explored,
            decreases width - x,
        {
            let mut column: Vec<Tile> = Vec::new();
            let mut y: i32 = 0;
            while y < height
                invariant
                    0 <= y <= height,
                    column.len() == y,
                    forall|b: int|
                        0 <= b < y ==> (#[trigger] column[b]).is_wall() && !column[b].explored,
                decreases height - y,
            {
                column.push(Tile::wall());
                y += 1;
            }
            map.push(column);
            x += 1;
        }
        let grid = TileGrid { width, height, map, rooms: Vec::new(), corridors: Vec::new() };
        proof {
            grid.lemma_view();
            let expected = GridView::walls(width as int, height as int);
            assert(grid@.shaped());
            assert(expected.shaped());
            assert(grid@.rooms =~= expected.rooms);
            assert(grid@.corridors =~= expected.corridors);
            lemma_grid_extensional(grid@, expected);
        }
        grid
    }

    pub fn width(&self) -> (w: i32)
        ensures
            w == self@.width,
    {
        self.width
    }

    pub fn height(&self) -> (h: i32)
        ensures
            h == self@.height,
    {
        self.height
    }

    /// The rooms that were accepted, in the order of their placement.
    pub fn rooms(&self) -> (rooms: &Vec<Rect>)
        ensures
            rooms@ == self@.rooms,
    {
        &self.rooms
    }

    /// The corridors that were cut, in the order of their placement.
    pub fn corridors(&self) -> (corridors: &Vec<Corridor>)
        ensures
            corridors@ == self@.corridors,
    {
        &self.corridors
    }

    /// Whether `(x, y)` names a cell of the grid.
    pub fn in_bounds(&self, x: i32, y: i32) -> (b: bool)
        ensures
            b == self@.in_bounds(x as int, y as int),
    {
        0 <= x && x < self.width && 0 <= y && y < self.height
    }

    pub fn is_passable(&self, x: i32, y: i32) -> (b: bool)
        requires
            self@.shaped(),
            self@.in_bounds(x as int, y as int),
        ensures
            b == !self@.tile(x as int, y as int).impassable,
    {
        proof {
            self.lemma_cell(x as int, y as int);
        }
        !self.map[x as usize][y as usize].impassable
    }

    pub fn blocks_sight(&self, x: i32, y: i32) -> (b: bool)
        requires
            self@.shaped(),
            self@.in_bounds(x as int, y as int),
        ensures
            b == self@.tile(x as int, y as int).block_sight,
    {
        proof {
            self.lemma_cell(x as int, y as int);
        }
        self.map[x as usize][y as usize].block_sight
    }

    /// Whether the tile at `(x, y)` has ever been in view.
    pub fn is_explored(&self, x: i32, y: i32) -> (b: bool)
        requires
            self@.shaped(),
            self@.in_bounds(x as int, y as int),
        ensures
            b == self@.tile(x as int, y as int).explored,
    {
        proof {
            self.lemma_cell(x as int, y as int);
        }
        self.map[x as usize][y as usize].explored
    }

    /// Remembers that the tile at `(x, y)` has been in view. Nothing else
    /// changes, and nothing is ever forgotten.
    pub fn explore(&mut self, x: i32, y: i32)
        requires
            old(self)@.shaped(),
            old(self)@.in_bounds(x as int, y as int),
        ensures
            final(self)@ == old(self)@.explore(x as int, y as int),
            final(self)@.shaped(),
            final(self)@.tile(x as int, y as int).explored,
            final(self)@.same_layout(old(self)@),
            old(self)@.explored_within(final(self)@),
    {
        proof {
            self.lemma_cell(x as int, y as int);
        }
        self.map[x as usize][y as usize].explored = true;
        proof {
            let before = old(self)@;
            let expected = before.explore(x as int, y as int);
            Self::lemma_cell_replaced(
                old(self),
                self,
                x as int,
                y as int,
                before.tile(x as int, y as int).seen(),
            );
            assert(expected.shaped()) by {
                assert forall|a: int| 0 <= a < expected.width implies (
                #[trigger] expected.tiles[a]).len() == expected.height by {
                    assert(before.tiles[a].len() == before.height);
                }
            }
            assert forall|a: int, b: int| self@.in_bounds(a, b) implies self@.tile(a, b)
                == expected.tile(a, b) by {
                assert(before.tiles[a].len() == before.height);
            }
            lemma_grid_extensional(self@, expected);
        }
    }

    /// Turns the tile at `(x, y)` into floor.
    fn carve_cell(&mut self, x: i32, y: i32)
        requires
            old(self)@.shaped(),
            old(self)@.in_bounds(x as int, y as int),
        ensures
            final(self)@.shaped(),
            final(self)@.width == old(self)@.width,
            final(self)@.height == old(self)@.height,
            final(self)@.rooms == old(self)@.rooms,
            final(self)@.corridors == old(self)@.corridors,
            forall|a: int, b: int|
                old(self)@.in_bounds(a, b) ==> #[trigger] final(self)@.tile(a, b) == (if a == x
                    && b == y {
                    old(self)@.tile(a, b).carved()
                } else {
                    old(self)@.tile(a, b)
                }),
    {
        proof {
            self.lemma_cell(x as int, y as int);
        }
        self.map[x as usize][y as usize].impassable = false;
        self.map[x as usize][y as usize].block_sight = false;
        proof {
            old(self).lemma_cell(x as int, y as int);
            assert(self.map@[x as int]@ =~= old(self).map@[x as int]@.update(
                y as int,
                old(self)@.tile(x as int, y as int).carved(),
            ));
            Self::lemma_cell_replaced(
                old(self),
                self,
                x as int,
                y as int,
                old(self)@.tile(x as int, y as int).carved(),
            );
        }
    }

    /// Goes through the tiles strictly inside the rectangle and makes them
    /// floor; the perimeter is left as it is.
    pub fn create_room(&mut self, room: Rect)
        requires
            old(self)@.shaped(),
            old(self)@.holds(room.interior()),
        ensures
            final(self)@ == old(self)@.carve(room.interior()),
            final(self)@.shaped(),
            old(self)@.explored_within(final(self)@),
    {
        let ghost before = self@;
        proof {
            if room.x1 + 1 < room.x2 && room.y1 + 1 < room.y2 {
                assert(room.interior().contains((room.x1 + 1, room.y1 + 1)));
                assert(room.interior().contains((room.x2 - 1, room.y2 - 1)));
            }
        }
        if room.x1 as i64 + 1 >= room.x2 as i64 || room.y1 as i64 + 1 >= room.y2 as i64 {
            proof {
                assert forall|a: int, b: int| before.in_bounds(a, b) implies before.tile(a, b)
                    == before.carve(room.interior()).tile(a, b) by {
                    assert(!room.interior().contains((a, b)));
                }
                lemma_grid_extensional(self@, before.carve(room.interior()));
            }
            return ;
        }
        let mut x: i32 = room.x1 + 1;
        while x < room.x2
            invariant
                room.x1 < x <= room.x2,
                room.y1 + 1 < room.y2,
                0 <= room.x1 + 1,
                room.x2 <= before.width,
                0 <= room.y1 + 1,
                room.y2 <= before.height,
                before.shaped(),
                self@.shaped(),
                self@.width == before.width,
                self@.height == before.height,
                self@.rooms == before.rooms,
                self@.corridors == before.corridors,
                forall|a: int, b: int|
                    before.in_bounds(a, b) ==> #[trigger] self@.tile(a, b) == (if room.x1 < a < x
                        && room.y1 < b < room.y2 {
                        before.tile(a, b).carved()
                    } else {
                        before.tile(a, b)
                    }),
            decreases room.x2 - x,
        {
            let mut y: i32 = room.y1 + 1;
            while y < room.y2
                invariant
                    room.x1 < x < room.x2,
                    room.y1 < y <= room.y2,
                    0 <= room.x1 + 1,
                    room.x2 <= before.width,
                    0 <= room.y1 + 1,
                    room.y2 <= before.height,
                    before.shaped(),
                    self@.shaped(),
                    self@.width == before.width,
                    self@.height == before.height,
                    self@.rooms == before.rooms,
                    self@.corridors == before.corridors,
                    forall|a: int, b: int|
                        before.in_bounds(a, b) ==> #[trigger] self@.tile(a, b) == (if room.y1 < b
                            < room.y2 && (room.x1 < a < x || (a == x && b < y)) {
                            before.tile(a, b).carved()
                        } else {
                            before.tile(a, b)
                        }),
                decreases room.y2 - y,
            {
                self.carve_cell(x, y);
                y += 1;
            }
            x += 1;
        }
        proof {
            let expected = before.carve(room.interior());
            assert forall|a: int, b: int| self@.in_bounds(a, b) implies self@.tile(a, b)
                == expected.tile(a, b) by {
                assert(room.interior().contains((a, b)) == room.encloses(a, b));
            }
            lemma_grid_extensional(self@, expected);
        }
    }

    /// Horizontal tunnel along row `y`, from the smaller of `x1` and `x2` to
    /// the larger, both ends included.
    pub fn create_h_tunnel(&mut self, x1: i32, x2: i32, y: i32)
        requires
            old(self)@.shaped(),
            old(self)@.holds(h_span(x1 as int, x2 as int, y as int)),
        ensures
            final(self)@ == old(self)@.carve(h_span(x1 as int, x2 as int, y as int)),
            final(self)@.shaped(),
            old(self)@.explored_within(final(self)@),
    {
        let ghost before = self@;
        let ghost span = h_span(x1 as int, x2 as int, y as int);
        let (lo, hi) = if x1 <= x2 {
            (x1, x2)
        } else {
            (x2, x1)
        };
        proof {
            assert(span.contains((lo as int, y as int)));
            assert(span.contains((hi as int, y as int)));
        }
        let mut x: i32 = lo;
        while x <= hi
            invariant
                lo <= x <= hi + 1,
                0 <= lo,
                hi < before.width,
                0 <= y < before.height,
                before.shaped(),
                self@.shaped(),
                self@.width == before.width,
                self@.height == before.height,
                self@.rooms == before.rooms,
                self@.corridors == before.corridors,
                forall|a: int, b: int|
                    before.in_bounds(a, b) ==> #[trigger] self@.tile(a, b) == (if b == y && lo
                        <= a < x {
                        before.tile(a, b).carved()
                    } else {
                        before.tile(a, b)
                    }),
            decreases hi + 1 - x,
        {
            self.carve_cell(x, y);
            x += 1;
        }
        proof {
            let expected = before.carve(span);
            assert forall|a: int, b: int| self@.in_bounds(a, b) implies self@.tile(a, b)
                == expected.tile(a, b) by {
                assert(span.contains((a, b)) == (b == y && lo <= a <= hi));
            }
            lemma_grid_extensional(self@, expected);
        }
    }

    /// Vertical tunnel along column `x`, from the smaller of `y1` and `y2` to
    /// the larger, both ends included.
    pub fn create_v_tunnel(&mut self, y1: i32, y2: i32, x: i32)
        requires
            old(self)@.shaped(),
            old(self)@.holds(v_span(y1 as int, y2 as int, x as int)),
        ensures
            final(self)@ == old(self)@.carve(v_span(y1 as int, y2 as int, x as int)),
            final(self)@.shaped(),
            old(self)@.explored_within(final(self)@),
    {
        let ghost before = self@;
        let ghost span = v_span(y1 as int, y2 as int, x as int);
        let (lo, hi) = if y1 <= y2 {
            (y1, y2)
        } else {
            (y2, y1)
        };
        proof {
            assert(span.contains((x as int, lo as int)));
            assert(span.contains((x as int, hi as int)));
        }
        let mut y: i32 = lo;
        while y <= hi
            invariant
                lo <= y <= hi + 1,
                0 <= lo,
                hi < before.height,
                0 <= x < before.width,
                before.shaped(),
                self@.shaped(),
                self@.width == before.width,
                self@.height == before.height,
                self@.rooms == before.rooms,
                self@.corridors == before.corridors,
                forall|a: int, b: int|
                    before.in_bounds(a, b) ==> #[trigger] self@.tile(a, b) == (if a == x && lo
                        <= b < y {
                        before.tile(a, b).carved()
                    } else {
                        before.tile(a, b)
                    }),
            decreases hi + 1 - y,
        {
            self.carve_cell(x, y);
            y += 1;
        }
        proof {
            let expected = before.carve(span);
            assert forall|a: int, b: int| self@.in_bounds(a, b) implies self@.tile(a, b)
                == expected.tile(a, b) by {
                assert(span.contains((a, b)) == (a == x && lo <= b <= hi));
            }
            lemma_grid_extensional(self@, expected);
        }
    }

    /// Puts `room` at the end of the list of rooms.
    pub(crate) fn record_room(&mut self, room: Rect)
        ensures
            final(self)@ == old(self)@.record_room(room),
    {
        self.rooms.push(room);
        proof {
            old(self).lemma_view();
            self.lemma_view();
            assert(self@.tiles =~= old(self)@.tiles);
        }
    }

    /// Puts `corridor` at the end of the list of corridors.
    pub(crate) fn record_corridor(&mut self, corridor: Corridor)
        ensures
            final(self)@ == old(self)@.record_corridor(corridor),
    {
        self.corridors.push(corridor);
        proof {
            old(self).lemma_view();
            self.lemma_view();
            assert(self@.tiles =~= old(self)@.tiles);
        }
    }
}

} // verus!
