//! What a dungeon is: the rule that ties the tiles of a grid to the rooms
//! and corridors placed on it, and the steps by which rooms and corridors
//! are added.

use crate::map::GridView;
use crate::rect::{lemma_center_covered, Corridor, Rect};
use vstd::prelude::*;

verus! {

/// One placement attempt: the candidate room, and which span of the elbow
/// comes first should the room be joined to the one before it.
#[derive(Clone, Copy, Debug, PartialEq, Eq, Structural)]
pub struct Attempt {
    pub room: Rect,
    pub horizontal_first: bool,
}

/// The corridor that runs from the center of `a` to the center of `b`.
pub open spec fn elbow(a: Rect, b: Rect, horizontal_first: bool) -> Corridor {
    Corridor {
        from_x: a.center_point().0 as i32,
        from_y: a.center_point().1 as i32,
        to_x: b.center_point().0 as i32,
        to_y: b.center_point().1 as i32,
        horizontal_first,
    }
}

impl Corridor {
    /// Whether the corridor runs from the center of `a` to the center of `b`.
    pub open spec fn joins(self, a: Rect, b: Rect) -> bool {
        &&& self.from_x == a.center_point().0
        &&& self.from_y == a.center_point().1
        &&& self.to_x == b.center_point().0
        &&& self.to_y == b.center_point().1
    }
}

impl GridView {
    /// Whether `(x, y)` lies strictly inside one of the rooms.
    pub open spec fn in_some_room(self, x: int, y: int) -> bool {
        exists|i: int| 0 <= i < self.rooms.len() && (#[trigger] self.rooms[i]).encloses(x, y)
    }

    /// Whether `(x, y)` lies on one of the corridors.
    pub open spec fn on_some_corridor(self, x: int, y: int) -> bool {
        exists|j: int|
            0 <= j < self.corridors.len() && (#[trigger] self.corridors[j]).path().contains(
                (x, y),
            )
    }

    /// Whether the rooms and corridors call for floor at `(x, y)`.
    pub open spec fn planned(self, x: int, y: int) -> bool {
        self.in_some_room(x, y) || self.on_some_corridor(x, y)
    }

    /// Whether `room` is a proper rectangle that lies on the grid, perimeter
    /// included.
    pub open spec fn admits(self, room: Rect) -> bool {
        &&& 0 <= room.x1 < room.x2 < self.width
        &&& 0 <= room.y1 < room.y2 < self.height
    }

    /// Whether `room` keeps clear of every room placed so far. Bounding
    /// boxes are compared, so a room that only touches another one does not
    /// fit.
    pub open spec fn fits(self, room: Rect) -> bool {
        forall|i: int| 0 <= i < self.rooms.len() ==> !room.intersects(#[trigger] self.rooms[i])
    }

    /// What holds of a grid at every step of its making: the rooms lie on
    /// the grid and no two of them meet; the corridors placed so far join
    /// each room to the next; and a tile is floor exactly where a room or a
    /// corridor calls for it, and wall everywhere else.
    pub open spec fn sound(self) -> bool {
        &&& self.shaped()
        &&& forall|i: int| 0 <= i < self.rooms.len() ==> self.admits(#[trigger] self.rooms[i])
        &&& forall|i: int, j: int|
            0 <= i < j < self.rooms.len() ==> !(#[trigger] self.rooms[i]).intersects(
                #[trigger] self.rooms[j],
            )
        &&& self.corridors.len() == 0 || self.corridors.len() < self.rooms.len()
        &&& forall|j: int|
            0 <= j < self.corridors.len() ==> (#[trigger] self.corridors[j]).joins(
                self.rooms[j],
                self.rooms[j + 1],
            )
        &&& forall|x: int, y: int|
            self.in_bounds(x, y) ==> {
                &&& (#[trigger] self.tile(x, y)).impassable == !self.planned(x, y)
                &&& self.tile(x, y).block_sight == !self.planned(x, y)
            }
    }

    /// A well-formed dungeon is sound and every room but the first is joined
    /// to the one before it.
    pub open spec fn wf(self) -> bool {
        &&& self.sound()
        &&& self.corridors.len() == if self.rooms.len() == 0 {
            0
        } else {
            self.rooms.len() - 1
        }
    }

    /// The state between the placing of a room and its joining: sound, with
    /// every room joined to the one before it but the last.
    pub open spec fn awaiting_corridor(self) -> bool {
        &&& self.sound()
        &&& self.rooms.len() >= 2
        &&& self.corridors.len() == self.rooms.len() - 2
    }

    /// Whether `self` can have come from `earlier` by placing rooms and
    /// corridors: the size is the same, what was placed is still there in
    /// the same order, floor is still floor, and what was explored or not is
    /// as it was.
    pub open spec fn grown_from(self, earlier: GridView) -> bool {
        &&& self.width == earlier.width
        &&& self.height == earlier.height
        &&& earlier.rooms.len() <= self.rooms.len()
        &&& forall|i: int| 0 <= i < earlier.rooms.len() ==> #[trigger] self.rooms[i] == earlier.rooms[i]
        &&& earlier.corridors.len() <= self.corridors.len()
        &&& forall|j: int|
            0 <= j < earlier.corridors.len() ==> #[trigger] self.corridors[j]
                == earlier.corridors[j]
        &&& forall|x: int, y: int|
            self.in_bounds(x, y) ==> {
                &&& (#[trigger] self.tile(x, y)).explored == earlier.tile(x, y).explored
                &&& earlier.tile(x, y).is_floor() ==> self.tile(x, y).is_floor()
            }
    }

    /// The grid with `room` painted and put on the list.
    pub open spec fn add_room(self, room: Rect) -> GridView {
        self.carve(room.interior()).record_room(room)
    }

    /// The corridor that joins the last room to the one before it.
    pub open spec fn last_link(self, horizontal_first: bool) -> Corridor {
        elbow(
            self.rooms[self.rooms.len() - 2],
            self.rooms[self.rooms.len() - 1],
            horizontal_first,
        )
    }

    /// The grid with the last room joined to the one before it.
    pub open spec fn link(self, horizontal_first: bool) -> GridView {
        let corridor = self.last_link(horizontal_first);
        self.carve(corridor.path()).record_corridor(corridor)
    }

    /// The grid after one placement attempt. A candidate that meets a room
    /// changes nothing. One that fits is painted and put on the list and,
    /// unless it is the first room of all, joined to the room before it.
    pub open spec fn place(self, attempt: Attempt) -> GridView {
        if !self.fits(attempt.room) {
            self
        } else if self.rooms.len() == 0 {
            self.add_room(attempt.room)
        } else {
            self.add_room(attempt.room).link(attempt.horizontal_first)
        }
    }

    /// The grid after a run of placement attempts, made in order.
    pub open spec fn place_all(self, attempts: Seq<Attempt>) -> GridView
        decreases attempts.len(),
    {
        if attempts.len() == 0 {
            self
        } else {
            self.place_all(attempts.drop_last()).place(attempts.last())
        }
    }
}

/// What carving does, tile by tile: a tile of the region becomes floor and
/// keeps its memory, any other tile stays as it is.
pub proof fn lemma_carve_tiles(g: GridView, region: Set<(int, int)>)
    requires
        g.shaped(),
    ensures
        g.carve(region).shaped(),
        g.carve(region).width == g.width,
        g.carve(region).height == g.height,
        g.carve(region).rooms == g.rooms,
        g.carve(region).corridors == g.corridors,
        forall|x: int, y: int|
            g.in_bounds(x, y) ==> #[trigger] g.carve(region).tile(x, y) == (if region.contains(
                (x, y),
            ) {
                g.tile(x, y).carved()
            } else {
                g.tile(x, y)
            }),
{
}

/// Carving one region after another is carving their union.
pub proof fn lemma_carve_twice(g: GridView, a: Set<(int, int)>, b: Set<(int, int)>)
    requires
        g.shaped(),
    ensures
        g.carve(a).carve(b) == g.carve(a.union(b)),
{
    lemma_carve_tiles(g, a);
    lemma_carve_tiles(g.carve(a), b);
    lemma_carve_tiles(g, a.union(b));
    crate::map::lemma_grid_extensional(g.carve(a).carve(b), g.carve(a.union(b)));
}

/// Placing a room that lies on the grid and fits keeps the grid sound.
pub proof fn lemma_add_room(g: GridView, room: Rect)
    requires
        g.sound(),
        g.admits(room),
        g.fits(room),
    ensures
        g.add_room(room).sound(),
        g.add_room(room).grown_from(g),
        g.add_room(room).rooms == g.rooms.push(room),
        g.add_room(room).corridors == g.corridors,
        g.holds(room.interior()),
{
    let h = g.add_room(room);
    let n = g.rooms.len() as int;
    lemma_carve_tiles(g, room.interior());
    assert(h.rooms == g.rooms.push(room));
    assert(h.corridors == g.corridors);
    assert(h.shaped());
    assert forall|i: int| 0 <= i < h.rooms.len() implies h.admits(#[trigger] h.rooms[i]) by {
        if i < n {
            assert(h.rooms[i] == g.rooms[i]);
        }
    }
    assert forall|i: int, j: int| 0 <= i < j < h.rooms.len() implies !(#[trigger] h.rooms[i]).intersects(
        #[trigger] h.rooms[j],
    ) by {
        assert(h.rooms[i] == g.rooms[i]);
        if j < n {
            assert(h.rooms[j] == g.rooms[j]);
        } else {
            assert(!room.intersects(g.rooms[i]));
        }
    }
    assert forall|j: int| 0 <= j < h.corridors.len() implies (#[trigger] h.corridors[j]).joins(
        h.rooms[j],
        h.rooms[j + 1],
    ) by {
        assert(g.corridors[j].joins(g.rooms[j], g.rooms[j + 1]));
        assert(h.rooms[j] == g.rooms[j]);
        assert(h.rooms[j + 1] == g.rooms[j + 1]);
    }
    assert forall|x: int, y: int| h.in_bounds(x, y) implies {
        &&& (#[trigger] h.tile(x, y)).impassable == !h.planned(x, y)
        &&& h.tile(x, y).block_sight == !h.planned(x, y)
    } by {
        assert(g.tile(x, y).impassable == !g.planned(x, y));
        assert(h.on_some_corridor(x, y) == g.on_some_corridor(x, y));
        if g.in_some_room(x, y) {
            let i = choose|i: int| 0 <= i < g.rooms.len() && (#[trigger] g.rooms[i]).encloses(x, y);
            assert(h.rooms[i].encloses(x, y));
        }
        if room.encloses(x, y) {
            assert(h.rooms[n].encloses(x, y));
        }
        if h.in_some_room(x, y) {
            let i = choose|i: int| 0 <= i < h.rooms.len() && (#[trigger] h.rooms[i]).encloses(x, y);
            if i < n {
                assert(g.rooms[i].encloses(x, y));
            }
        }
        assert(h.in_some_room(x, y) == (g.in_some_room(x, y) || room.encloses(x, y)));
        assert(room.interior().contains((x, y)) == room.encloses(x, y));
    }
    assert forall|x: int, y: int| h.in_bounds(x, y) implies {
        &&& (#[trigger] h.tile(x, y)).explored == g.tile(x, y).explored
        &&& g.tile(x, y).is_floor() ==> h.tile(x, y).is_floor()
    } by {
    }
}

/// The corridor between the last two rooms of a sound grid runs over cells
/// of the grid, from the one center to the other.
pub proof fn lemma_last_link(g: GridView, horizontal_first: bool)
    requires
        g.sound(),
        g.rooms.len() >= 2,
    ensures
        g.holds(g.last_link(horizontal_first).path()),
        g.last_link(horizontal_first).joins(
            g.rooms[g.rooms.len() - 2],
            g.rooms[g.rooms.len() - 1],
        ),
{
    let a = g.rooms[g.rooms.len() - 2];
    let b = g.rooms[g.rooms.len() - 1];
    assert(g.admits(a));
    assert(g.admits(b));
    lemma_center_covered(a);
    lemma_center_covered(b);
}

/// Joining the last room to the one before it makes the grid well-formed
/// again.
pub proof fn lemma_link(g: GridView, horizontal_first: bool)
    requires
        g.awaiting_corridor(),
    ensures
        g.link(horizontal_first).wf(),
        g.link(horizontal_first).grown_from(g),
        g.link(horizontal_first).rooms == g.rooms,
        g.link(horizontal_first).corridors == g.corridors.push(g.last_link(horizontal_first)),
{
    let c = g.last_link(horizontal_first);
    let h = g.link(horizontal_first);
    let n = g.corridors.len() as int;
    lemma_last_link(g, horizontal_first);
    lemma_carve_tiles(g, c.path());
    assert(h.corridors == g.corridors.push(c));
    assert(h.rooms == g.rooms);
    assert forall|j: int| 0 <= j < h.corridors.len() implies (#[trigger] h.corridors[j]).joins(
        h.rooms[j],
        h.rooms[j + 1],
    ) by {
        if j < n {
            assert(h.corridors[j] == g.corridors[j]);
        }
    }
    assert forall|x: int, y: int| h.in_bounds(x, y) implies {
        &&& (#[trigger] h.tile(x, y)).impassable == !h.planned(x, y)
        &&& h.tile(x, y).block_sight == !h.planned(x, y)
    } by {
        assert(g.tile(x, y).impassable == !g.planned(x, y));
        assert(h.in_some_room(x, y) == g.in_some_room(x, y));
        if g.on_some_corridor(x, y) {
            let j = choose|j: int|
                0 <= j < g.corridors.len() && (#[trigger] g.corridors[j]).path().contains((x, y));
            assert(h.corridors[j].path().contains((x, y)));
        }
        if c.path().contains((x, y)) {
            assert(h.corridors[n].path().contains((x, y)));
        }
        if h.on_some_corridor(x, y) {
            let j = choose|j: int|
                0 <= j < h.corridors.len() && (#[trigger] h.corridors[j]).path().contains((x, y));
            if j < n {
                assert(g.corridors[j].path().contains((x, y)));
            }
        }
        assert(h.on_some_corridor(x, y) == (g.on_some_corridor(x, y) || c.path().contains(
            (x, y),
        )));
    }
    assert forall|x: int, y: int| h.in_bounds(x, y) implies {
        &&& (#[trigger] h.tile(x, y)).explored == g.tile(x, y).explored
        &&& g.tile(x, y).is_floor() ==> h.tile(x, y).is_floor()
    } by {
    }
}

/// Coming from an earlier grid carries over: what has grown from a grid
/// that has grown from a third has grown from the third.
pub proof fn lemma_grown_transitive(a: GridView, b: GridView, c: GridView)
    requires
        b.grown_from(a),
        c.grown_from(b),
    ensures
        c.grown_from(a),
{
    assert forall|i: int| 0 <= i < a.rooms.len() implies #[trigger] c.rooms[i] == a.rooms[i] by {
        assert(b.rooms[i] == a.rooms[i]);
    }
    assert forall|j: int| 0 <= j < a.corridors.len() implies #[trigger] c.corridors[j]
        == a.corridors[j] by {
        assert(b.corridors[j] == a.corridors[j]);
    }
    assert forall|x: int, y: int| c.in_bounds(x, y) implies {
        &&& (#[trigger] c.tile(x, y)).explored == a.tile(x, y).explored
        &&& a.tile(x, y).is_floor() ==> c.tile(x, y).is_floor()
    } by {
        assert(b.tile(x, y).explored == a.tile(x, y).explored);
    }
}

/// A placement attempt with a candidate that lies on the grid takes a
/// well-formed dungeon to a well-formed dungeon, with at most one room
/// more.
pub proof fn lemma_place(g: GridView, attempt: Attempt)
    requires
        g.wf(),
        g.admits(attempt.room),
    ensures
        g.place(attempt).wf(),
        g.place(attempt).grown_from(g),
        g.place(attempt).rooms == (if g.fits(attempt.room) {
            g.rooms.push(attempt.room)
        } else {
            g.rooms
        }),
{
    if g.fits(attempt.room) {
        lemma_add_room(g, attempt.room);
        let mid = g.add_room(attempt.room);
        if g.rooms.len() > 0 {
            lemma_link(mid, attempt.horizontal_first);
            lemma_grown_transitive(g, mid, mid.link(attempt.horizontal_first));
        }
    }
}

/// Whether every candidate of the run lies on the grid.
pub open spec fn all_admitted(g: GridView, attempts: Seq<Attempt>) -> bool {
    forall|k: int| 0 <= k < attempts.len() ==> g.admits((#[trigger] attempts[k]).room)
}

/// A run of placement attempts takes a well-formed dungeon to a
/// well-formed dungeon, with at most one room more for each attempt.
pub proof fn lemma_place_all(g: GridView, attempts: Seq<Attempt>)
    requires
        g.wf(),
        all_admitted(g, attempts),
    ensures
        g.place_all(attempts).wf(),
        g.place_all(attempts).grown_from(g),
        g.place_all(attempts).rooms.len() <= g.rooms.len() + attempts.len(),
    decreases attempts.len(),
{
    if attempts.len() > 0 {
        let before = attempts.drop_last();
        assert forall|k: int| 0 <= k < before.len() implies g.admits(
            (#[trigger] before[k]).room,
        ) by {
            assert(before[k] == attempts[k]);
        }
        lemma_place_all(g, before);
        let mid = g.place_all(before);
        assert(mid.admits(attempts.last().room)) by {
            assert(g.admits(attempts[attempts.len() - 1].room));
        }
        lemma_place(mid, attempts.last());
        lemma_grown_transitive(g, mid, mid.place(attempts.last()));
    }
}

/// No two rooms of a dungeon meet: their bounding boxes, perimeters
/// included, share no cell.
pub proof fn lemma_rooms_apart(g: GridView, i: int, j: int)
    requires
        g.sound(),
        0 <= i < g.rooms.len(),
        0 <= j < g.rooms.len(),
        i != j,
    ensures
        !g.rooms[i].intersects(g.rooms[j]),
        forall|x: int, y: int| !(g.rooms[i].covers(x, y) && g.rooms[j].covers(x, y)),
{
    if i < j {
        assert(!g.rooms[i].intersects(g.rooms[j]));
    } else {
        assert(!g.rooms[j].intersects(g.rooms[i]));
    }
}

/// Every tile strictly inside a room is floor: it blocks neither movement
/// nor sight.
pub proof fn lemma_room_interior_is_floor(g: GridView, i: int, x: int, y: int)
    requires
        g.sound(),
        0 <= i < g.rooms.len(),
        g.rooms[i].encloses(x, y),
    ensures
        g.in_bounds(x, y),
        g.tile(x, y).is_floor(),
{
    assert(g.admits(g.rooms[i]));
    assert(g.in_some_room(x, y));
    assert(g.tile(x, y).impassable == !g.planned(x, y));
}

/// A tile on the perimeter of a room lies inside no room; unless a
/// corridor runs over it, it is a wall.
pub proof fn lemma_room_perimeter_is_wall(g: GridView, i: int, x: int, y: int)
    requires
        g.sound(),
        0 <= i < g.rooms.len(),
        g.rooms[i].on_perimeter(x, y),
    ensures
        g.in_bounds(x, y),
        !g.in_some_room(x, y),
        !g.on_some_corridor(x, y) ==> g.tile(x, y).is_wall(),
{
    assert(g.admits(g.rooms[i]));
    if g.in_some_room(x, y) {
        let k = choose|k: int| 0 <= k < g.rooms.len() && (#[trigger] g.rooms[k]).encloses(x, y);
        if k != i {
            lemma_rooms_apart(g, i, k);
            assert(g.rooms[k].covers(x, y));
        }
    }
    assert(g.tile(x, y).impassable == !g.planned(x, y));
}

/// Every tile on a corridor is floor, the two ends included.
pub proof fn lemma_corridor_is_floor(g: GridView, j: int, x: int, y: int)
    requires
        g.sound(),
        0 <= j < g.corridors.len(),
        g.corridors[j].path().contains((x, y)),
    ensures
        g.in_bounds(x, y),
        g.tile(x, y).is_floor(),
{
    let c = g.corridors[j];
    assert(c.joins(g.rooms[j], g.rooms[j + 1]));
    assert(g.admits(g.rooms[j]));
    assert(g.admits(g.rooms[j + 1]));
    lemma_center_covered(g.rooms[j]);
    lemma_center_covered(g.rooms[j + 1]);
    assert(g.in_bounds(x, y));
    assert(g.on_some_corridor(x, y));
    assert(g.tile(x, y).impassable == !g.planned(x, y));
}

/// A tile is floor only where a room or a corridor calls for it; every
/// other tile is a wall.
pub proof fn lemma_unplanned_is_wall(g: GridView, x: int, y: int)
    requires
        g.sound(),
        g.in_bounds(x, y),
        !g.planned(x, y),
    ensures
        g.tile(x, y).is_wall(),
{
    assert(g.tile(x, y).impassable == !g.planned(x, y));
}

/// Whether every room has at least one cell strictly inside it.
pub open spec fn all_roomy(g: GridView) -> bool {
    forall|i: int| 0 <= i < g.rooms.len() ==> (#[trigger] g.rooms[i]).roomy()
}

/// The occupant of a roomy room stands on floor: the center of the room
/// lies strictly inside it.
pub proof fn lemma_center_is_floor(g: GridView, i: int)
    requires
        g.sound(),
        0 <= i < g.rooms.len(),
        g.rooms[i].roomy(),
    ensures
        g.in_bounds(g.rooms[i].center_point().0, g.rooms[i].center_point().1),
        g.tile(g.rooms[i].center_point().0, g.rooms[i].center_point().1).is_floor(),
{
    crate::rect::lemma_center_enclosed(g.rooms[i]);
    lemma_room_interior_is_floor(g, i, g.rooms[i].center_point().0, g.rooms[i].center_point().1);
}

/// Whether the center of every room is floor: an occupant that is put
/// there can stand and walk.
pub open spec fn centers_open(g: GridView) -> bool {
    forall|i: int|
        0 <= i < g.rooms.len() ==> {
            &&& g.in_bounds((#[trigger] g.rooms[i]).center_point().0, g.rooms[i].center_point().1)
            &&& g.tile(g.rooms[i].center_point().0, g.rooms[i].center_point().1).is_floor()
        }
}

/// Where every room is roomy every center is floor.
pub proof fn lemma_centers_open(g: GridView)
    requires
        g.sound(),
        all_roomy(g),
    ensures
        centers_open(g),
{
    assert forall|i: int| 0 <= i < g.rooms.len() implies {
        &&& g.in_bounds((#[trigger] g.rooms[i]).center_point().0, g.rooms[i].center_point().1)
        &&& g.tile(g.rooms[i].center_point().0, g.rooms[i].center_point().1).is_floor()
    } by {
        lemma_center_is_floor(g, i);
    }
}

/// Whether every tile on the rim of the grid is a wall.
pub open spec fn walled(g: GridView) -> bool {
    forall|x: int, y: int|
        g.in_bounds(x, y) && (x == 0 || y == 0 || x == g.width - 1 || y == g.height - 1) ==> (
        #[trigger] g.tile(x, y)).is_wall()
}

/// Where every room is roomy the rim of the grid stays wall: rooms are
/// painted strictly inside their perimeter, and corridors run between
/// centers.
pub proof fn lemma_rim_is_wall(g: GridView)
    requires
        g.sound(),
        all_roomy(g),
    ensures
        walled(g),
{
    assert forall|x: int, y: int|
        g.in_bounds(x, y) && (x == 0 || y == 0 || x == g.width - 1 || y == g.height - 1) implies (
    #[trigger] g.tile(x, y)).is_wall() by {
        if g.in_some_room(x, y) {
            let i = choose|i: int| 0 <= i < g.rooms.len() && (#[trigger] g.rooms[i]).encloses(x, y);
            assert(g.admits(g.rooms[i]));
        }
        if g.on_some_corridor(x, y) {
            let j = choose|j: int|
                0 <= j < g.corridors.len() && (#[trigger] g.corridors[j]).path().contains((x, y));
            assert(g.corridors[j].joins(g.rooms[j], g.rooms[j + 1]));
            assert(g.admits(g.rooms[j]));
            assert(g.admits(g.rooms[j + 1]));
            assert(g.rooms[j].roomy());
            assert(g.rooms[j + 1].roomy());
            crate::rect::lemma_center_enclosed(g.rooms[j]);
            crate::rect::lemma_center_enclosed(g.rooms[j + 1]);
        }
        lemma_unplanned_is_wall(g, x, y);
    }
}

} // verus!
