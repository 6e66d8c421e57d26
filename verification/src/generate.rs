//! The making of a dungeon: candidates are drawn, tested against the rooms
//! placed so far, painted, given an occupant and joined to the room before
//! them. The number of attempts is fixed; an attempt that fails is not
//! made again.

use crate::actors::Actor;
use crate::config::{Config, MAP_HEIGHT, MAP_WIDTH};
use crate::dungeon::{
    all_admitted, all_roomy, centers_open, lemma_add_room, lemma_centers_open, lemma_last_link,
    lemma_link, lemma_place, lemma_rim_is_wall, walled, Attempt,
};
use crate::map::{GridView, TileGrid};
use crate::random::{coin_flip, random_range};
use crate::rect::{Corridor, Rect};
use vstd::prelude::*;

verus! {

/// How the occupants stand once rooms have been placed: the occupant at
/// index `k` stands at the center of the room at index `from + k`, as far as
/// there are rooms; the occupants beyond that are where they were, and
/// nothing but the place of an occupant changes.
pub open spec fn seated(before: Seq<Actor>, after: Seq<Actor>, rooms: Seq<Rect>, from: int) -> bool {
    &&& after.len() == before.len()
    &&& forall|k: int|
        0 <= k < before.len() ==> (#[trigger] after[k])@ == (if from + k < rooms.len() {
            before[k]@.at(rooms[from + k].center_point().0, rooms[from + k].center_point().1)
        } else {
            before[k]@
        })
}

/// Whether `attempts` is a run that the configuration can draw: as many
/// attempts as it allows, each with a candidate that it admits.
pub open spec fn drawn(cfg: Config, attempts: Seq<Attempt>) -> bool {
    &&& attempts.len() == cfg.max_rooms
    &&& forall|k: int| 0 <= k < attempts.len() ==> cfg.admits((#[trigger] attempts[k]).room)
}

/// Whether some run that the configuration can draw takes `start` to `end`.
pub open spec fn reachable(cfg: Config, start: GridView, end: GridView) -> bool {
    exists|attempts: Seq<Attempt>|
        drawn(cfg, attempts) && end == #[trigger] start.place_all(attempts)
}

/// Moves the occupant at index `k` to `(x, y)`.
fn seat(npc_vec: &mut Vec<Actor>, k: usize, x: i32, y: i32)
    requires
        k < old(npc_vec).len(),
    ensures
        final(npc_vec).len() == old(npc_vec).len(),
        final(npc_vec)@[k as int]@ == old(npc_vec)@[k as int]@.at(x as int, y as int),
        forall|i: int|
            0 <= i < old(npc_vec).len() && i != k ==> #[trigger] final(npc_vec)@[i] == old(
                npc_vec,
            )@[i],
{
    let mut actor = npc_vec[k];
    actor.set_coords(x, y);
    npc_vec[k] = actor;
}

/// Draws a candidate: a width and a height within the limits of the
/// configuration, and a corner such that the room lies on the map.
pub fn draw_candidate(cfg: &Config) -> (room: Rect)
    requires
        cfg.valid(),
    ensures
        cfg.admits(room),
{
    // random width and height
    let w: i32 = random_range(cfg.room_min_size, cfg.room_max_size + 1);
    let h: i32 = random_range(cfg.room_min_size, cfg.room_max_size + 1);
    // random position without going out of the boundaries of the map
    let x: i32 = random_range(0, cfg.map_width - w);
    let y: i32 = random_range(0, cfg.map_height - h);
    Rect::new(x, y, w, h)
}

impl TileGrid {
    /// Whether `room` is a proper rectangle that lies on the grid.
    pub fn admits(&self, room: &Rect) -> (b: bool)
        ensures
            b == self@.admits(*room),
    {
        0 <= room.x1 && room.x1 < room.x2 && room.x2 < self.width() && 0 <= room.y1 && room.y1
            < room.y2 && room.y2 < self.height()
    }

    /// Runs through the rooms placed so far and sees whether any of them
    /// meets the candidate.
    pub fn fits(&self, candidate: &Rect) -> (ok: bool)
        ensures
            ok == self@.fits(*candidate),
    {
        let rooms = self.rooms();
        let mut i: usize = 0;
        while i < rooms.len()
            invariant
                i <= rooms.len(),
                rooms@ == self@.rooms,
                forall|k: int| 0 <= k < i ==> !candidate.intersects(#[trigger] self@.rooms[k]),
            decreases rooms.len() - i,
        {
            if candidate.intersects_with(&rooms[i]) {
                return false;
            }
            i += 1;
        }
        true
    }

    /// Cuts the elbow: one horizontal and one vertical tunnel, in the order
    /// that the corridor names. Whatever was there becomes floor.
    pub fn connect(&mut self, corridor: Corridor)
        requires
            old(self)@.shaped(),
            old(self)@.holds(corridor.path()),
        ensures
            final(self)@ == old(self)@.carve(corridor.path()),
            final(self)@.shaped(),
            old(self)@.explored_within(final(self)@),
            forall|x: int, y: int|
                corridor.path().contains((x, y)) ==> (#[trigger] final(self)@.tile(
                    x,
                    y,
                )).is_floor(),
    {
        let ghost before = self@;
        proof {
            assert(before.holds(corridor.h_part())) by {
                assert forall|x: int, y: int| #[trigger]
                    corridor.h_part().contains((x, y)) implies before.in_bounds(x, y) by {
                    assert(corridor.path().contains((x, y)));
                }
            }
            assert(before.holds(corridor.v_part())) by {
                assert forall|x: int, y: int| #[trigger]
                    corridor.v_part().contains((x, y)) implies before.in_bounds(x, y) by {
                    assert(corridor.path().contains((x, y)));
                }
            }
        }
        if corridor.horizontal_first {
            // first move horizontally, then vertically
            self.create_h_tunnel(corridor.from_x, corridor.to_x, corridor.from_y);
            self.create_v_tunnel(corridor.from_y, corridor.to_y, corridor.to_x);
            proof {
                crate::dungeon::lemma_carve_twice(before, corridor.h_part(), corridor.v_part());
            }
        } else {
            // first move vertically, then horizontally
            self.create_v_tunnel(corridor.from_y, corridor.to_y, corridor.from_x);
            self.create_h_tunnel(corridor.from_x, corridor.to_x, corridor.to_y);
            proof {
                crate::dungeon::lemma_carve_twice(before, corridor.v_part(), corridor.h_part());
                assert(corridor.v_part().union(corridor.h_part()) =~= corridor.path());
            }
        }
        proof {
            crate::dungeon::lemma_carve_tiles(before, corridor.path());
        }
    }

    /// Paints the room and puts it on the list.
    fn admit_room(&mut self, room: Rect)
        requires
            old(self)@.sound(),
            old(self)@.admits(room),
            old(self)@.fits(room),
        ensures
            final(self)@ == old(self)@.add_room(room),
            final(self)@.sound(),
            final(self)@.grown_from(old(self)@),
            final(self)@.rooms == old(self)@.rooms.push(room),
            final(self)@.corridors == old(self)@.corridors,
    {
        proof {
            lemma_add_room(self@, room);
        }
        self.create_room(room);
        self.record_room(room);
    }

    /// Joins the last room to the one before it; `horizontal_first` says
    /// which span of the elbow leaves the earlier room.
    fn link(&mut self, horizontal_first: bool)
        requires
            old(self)@.awaiting_corridor(),
        ensures
            final(self)@ == old(self)@.link(horizontal_first),
            final(self)@.wf(),
            final(self)@.grown_from(old(self)@),
            final(self)@.rooms == old(self)@.rooms,
    {
        let rooms = self.rooms();
        let n: usize = rooms.len();
        let (new_x, new_y) = rooms[n - 1].center();
        // center coordinates of the previous room
        let (prev_x, prev_y) = rooms[n - 2].center();
        let corridor = Corridor {
            from_x: prev_x,
            from_y: prev_y,
            to_x: new_x,
            to_y: new_y,
            horizontal_first,
        };
        proof {
            lemma_last_link(self@, horizontal_first);
            lemma_link(self@, horizontal_first);
            assert(corridor == self@.last_link(horizontal_first));
        }
        self.connect(corridor);
        self.record_corridor(corridor);
    }

    /// Joins the room that was placed last to the one before it. A coin is
    /// tossed for the order of the two spans; both are always cut.
    fn connect_new_room_with_previous(&mut self)
        requires
            old(self)@.awaiting_corridor(),
        ensures
            final(self)@ == old(self)@.link(true) || final(self)@ == old(self)@.link(false),
            final(self)@.wf(),
            final(self)@.grown_from(old(self)@),
            final(self)@.rooms == old(self)@.rooms,
    {
        // toss a coin (random bool value -- either true or false)
        let horizontal_first = coin_flip();
        self.link(horizontal_first);
    }

    /// Makes one placement attempt with the given candidate and says whether
    /// the candidate was accepted.
    pub fn attempt(&mut self, attempt: Attempt) -> (accepted: bool)
        requires
            old(self)@.wf(),
            old(self)@.admits(attempt.room),
        ensures
            accepted == old(self)@.fits(attempt.room),
            final(self)@ == old(self)@.place(attempt),
            final(self)@.wf(),
            final(self)@.grown_from(old(self)@),
            final(self)@.rooms == (if accepted {
                old(self)@.rooms.push(attempt.room)
            } else {
                old(self)@.rooms
            }),
    {
        proof {
            lemma_place(self@, attempt);
        }
        if !self.fits(&attempt.room) {
            return false;
        }
        // this means there are no intersections, so this room is valid
        self.admit_room(attempt.room);
        if self.rooms().len() > 1 {
            // all rooms after the first:
            // connect it to the previous room with a tunnel
            self.link(attempt.horizontal_first);
        }
        true
    }

    /// Asks for a candidate and hands it back if it fits among the rooms
    /// placed so far. While no room is placed every candidate fits.
    pub fn try_place_room(&self, cfg: &Config) -> (candidate: Option<Rect>)
        requires
            cfg.valid(),
        ensures
            candidate matches Some(room) ==> cfg.admits(room) && self@.fits(room),
            self@.rooms.len() == 0 ==> candidate is Some,
    {
        let new_room = draw_candidate(cfg);
        // run through the other rooms and see if they intersect with this one
        if self.fits(&new_room) {
            Some(new_room)
        } else {
            None
        }
    }

    /// Makes the given placement attempts in order. Each room that is
    /// accepted goes to the next occupant that has none yet, for as long as
    /// there are such occupants.
    pub fn fill_from(&mut self, attempts: &Vec<Attempt>, npc_vec: &mut Vec<Actor>)
        requires
            old(self)@.wf(),
            all_admitted(old(self)@, attempts@),
        ensures
            final(self)@ == old(self)@.place_all(attempts@),
            final(self)@.wf(),
            final(self)@.grown_from(old(self)@),
            final(self)@.rooms.len() <= old(self)@.rooms.len() + attempts.len(),
            seated(
                old(npc_vec)@,
                final(npc_vec)@,
                final(self)@.rooms,
                old(self)@.rooms.len() as int,
            ),
    {
        let ghost start = self@;
        let ghost occupants = npc_vec@;
        let from: usize = self.rooms().len();
        let mut cursor: usize = 0;
        let mut k: usize = 0;
        assert(attempts@.take(0) =~= Seq::<Attempt>::empty());
        while k < attempts.len()
            invariant
                k <= attempts.len(),
                start.wf(),
                all_admitted(start, attempts@),
                from == start.rooms.len(),
                self@ == start.place_all(attempts@.take(k as int)),
                self@.wf(),
                self@.grown_from(start),
                self@.rooms.len() <= from + k,
                cursor <= npc_vec.len(),
                cursor == if self@.rooms.len() - from < npc_vec.len() {
                    self@.rooms.len() - from
                } else {
                    npc_vec.len() as int
                },
                seated(occupants, npc_vec@, self@.rooms, from as int),
            decreases attempts.len() - k,
        {
            let attempt = attempts[k];
            let ghost mid = self@;
            let ghost mid_occupants = npc_vec@;
            proof {
                assert(start.admits(attempts@[k as int].room));
            }
            let accepted = self.attempt(attempt);
            if accepted && cursor < npc_vec.len() {
                let (new_x, new_y) = attempt.room.center();
                seat(npc_vec, cursor, new_x, new_y);
                cursor += 1;
            }
            proof {
                let next = attempts@.take(k as int + 1);
                assert(next.drop_last() =~= attempts@.take(k as int));
                assert(next.last() == attempt);
                crate::dungeon::lemma_grown_transitive(start, mid, self@);
                assert forall|i: int| 0 <= i < occupants.len() implies (#[trigger] npc_vec@[i])@
                    == (if from + i < self@.rooms.len() {
                    occupants[i]@.at(
                        self@.rooms[from + i].center_point().0,
                        self@.rooms[from + i].center_point().1,
                    )
                } else {
                    occupants[i]@
                }) by {
                    assert(mid_occupants[i]@ == (if from + i < mid.rooms.len() {
                        occupants[i]@.at(
                            mid.rooms[from + i].center_point().0,
                            mid.rooms[from + i].center_point().1,
                        )
                    } else {
                        occupants[i]@
                    }));
                    if from + i < mid.rooms.len() {
                        assert(self@.rooms[from + i] == mid.rooms[from + i]);
                    }
                }
            }
            k += 1;
        }
        assert(attempts@.take(k as int) =~= attempts@);
    }

    /// Makes as many placement attempts as the configuration allows, each
    /// with a candidate drawn at random. Each room that is accepted goes to
    /// the next occupant that has none yet, and every room but the first of
    /// the grid is joined to the room placed before it.
    pub fn fill_with(&mut self, cfg: &Config, npc_vec: &mut Vec<Actor>)
        requires
            cfg.valid(),
            old(self)@.wf(),
            old(self)@.width == cfg.map_width,
            old(self)@.height == cfg.map_height,
        ensures
            reachable(*cfg, old(self)@, final(self)@),
            final(self)@.wf(),
            final(self)@.grown_from(old(self)@),
            final(self)@.rooms.len() <= old(self)@.rooms.len() + cfg.max_rooms,
            cfg.max_rooms > 0 ==> final(self)@.rooms.len() > 0,
            forall|i: int|
                old(self)@.rooms.len() <= i < final(self)@.rooms.len() ==> cfg.admits(
                    #[trigger] final(self)@.rooms[i],
                ),
            seated(
                old(npc_vec)@,
                final(npc_vec)@,
                final(self)@.rooms,
                old(self)@.rooms.len() as int,
            ),
    {
        let ghost start = self@;
        let ghost occupants = npc_vec@;
        let ghost mut tape: Seq<Attempt> = Seq::empty();
        let from: usize = self.rooms().len();
        let mut cursor: usize = 0;
        let mut k: i32 = 0;
        while k < cfg.max_rooms
            invariant
                0 <= k <= cfg.max_rooms,
                cfg.valid(),
                start.wf(),
                start.width == cfg.map_width,
                start.height == cfg.map_height,
                from == start.rooms.len(),
                tape.len() == k,
                forall|i: int| 0 <= i < tape.len() ==> cfg.admits((#[trigger] tape[i]).room),
                self@ == start.place_all(tape),
                self@.wf(),
                self@.grown_from(start),
                self@.rooms.len() <= from + k,
                k > 0 ==> self@.rooms.len() > 0,
                forall|i: int|
                    from <= i < self@.rooms.len() ==> cfg.admits(#[trigger] self@.rooms[i]),
                cursor <= npc_vec.len(),
                cursor == if self@.rooms.len() - from < npc_vec.len() {
                    self@.rooms.len() - from
                } else {
                    npc_vec.len() as int
                },
                seated(occupants, npc_vec@, self@.rooms, from as int),
            decreases cfg.max_rooms - k,
        {
            let ghost mid = self@;
            let ghost mid_occupants = npc_vec@;
            let new_room = draw_candidate(cfg);
            let ghost mut horizontal_first = false;
            // run through the other rooms and see if they intersect with this one
            if self.fits(&new_room) {
                // "paint" it to the map's tiles
                self.admit_room(new_room);
                if cursor < npc_vec.len() {
                    let (new_x, new_y) = new_room.center();
                    seat(npc_vec, cursor, new_x, new_y);
                    cursor += 1;
                }
                let ghost painted = self@;
                if self.rooms().len() > 1 {
                    // all rooms after the first:
                    // connect it to the previous room with a tunnel
                    self.connect_new_room_with_previous();
                    proof {
                        horizontal_first = (self@ == painted.link(true));
                        crate::dungeon::lemma_grown_transitive(mid, painted, self@);
                    }
                }
            }
            let ghost attempt = Attempt { room: new_room, horizontal_first };
            proof {
                assert(self@ == mid.place(attempt));
            }
            proof {
                let next = tape.push(attempt);
                assert(next.drop_last() =~= tape);
                assert(next.last() == attempt);
                tape = next;
                crate::dungeon::lemma_grown_transitive(start, mid, self@);
                assert forall|i: int| 0 <= i < occupants.len() implies (#[trigger] npc_vec@[i])@
                    == (if from + i < self@.rooms.len() {
                    occupants[i]@.at(
                        self@.rooms[from + i].center_point().0,
                        self@.rooms[from + i].center_point().1,
                    )
                } else {
                    occupants[i]@
                }) by {
                    assert(mid_occupants[i]@ == (if from + i < mid.rooms.len() {
                        occupants[i]@.at(
                            mid.rooms[from + i].center_point().0,
                            mid.rooms[from + i].center_point().1,
                        )
                    } else {
                        occupants[i]@
                    }));
                    if from + i < mid.rooms.len() {
                        assert(self@.rooms[from + i] == mid.rooms[from + i]);
                    }
                }
            }
            k += 1;
        }
        proof {
            assert(drawn(*cfg, tape));
        }
    }

    /// Fills the grid with rooms and corridors of the standard
    /// configuration, drawn at random.
    pub fn fill(&mut self, npc_vec: &mut Vec<Actor>)
        requires
            old(self)@.wf(),
            old(self)@.width == MAP_WIDTH,
            old(self)@.height == MAP_HEIGHT,
        ensures
            reachable(Config::standard_spec(), old(self)@, final(self)@),
            final(self)@.wf(),
            final(self)@.grown_from(old(self)@),
            final(self)@.rooms.len() <= old(self)@.rooms.len() + Config::standard_spec().max_rooms,
            final(self)@.rooms.len() > 0,
            forall|i: int|
                old(self)@.rooms.len() <= i < final(self)@.rooms.len()
                    ==> Config::standard_spec().admits(#[trigger] final(self)@.rooms[i]),
            seated(
                old(npc_vec)@,
                final(npc_vec)@,
                final(self)@.rooms,
                old(self)@.rooms.len() as int,
            ),
    {
        let cfg = Config::standard();
        self.fill_with(&cfg, npc_vec);
    }

    /// A dungeon of the standard configuration, drawn at random: all wall
    /// at first, and filled with rooms and corridors. The occupants are
    /// put into the rooms in the order of the list.
    pub fn new(npc_vec: &mut Vec<Actor>) -> (map: TileGrid)
        ensures
            reachable(
                Config::standard_spec(),
                GridView::walls(MAP_WIDTH as int, MAP_HEIGHT as int),
                map@,
            ),
            map@.wf(),
            map@.width == MAP_WIDTH,
            map@.height == MAP_HEIGHT,
            0 < map@.rooms.len() <= Config::standard_spec().max_rooms,
            forall|i: int|
                0 <= i < map@.rooms.len() ==> Config::standard_spec().admits(
                    #[trigger] map@.rooms[i],
                ),
            forall|x: int, y: int| map@.in_bounds(x, y) ==> !(#[trigger] map@.tile(x, y)).explored,
            seated(old(npc_vec)@, final(npc_vec)@, map@.rooms, 0),
            all_roomy(map@),
            walled(map@),
            centers_open(map@),
    {
        let mut map = TileGrid::walls(MAP_WIDTH, MAP_HEIGHT);
        proof {
            lemma_walls_wf(MAP_WIDTH as int, MAP_HEIGHT as int);
        }
        map.fill(npc_vec);
        proof {
            lemma_rim_is_wall(map@);
            lemma_centers_open(map@);
        }
        map
    }

    /// A dungeon of the given configuration, drawn at random.
    pub fn generate(cfg: &Config, npc_vec: &mut Vec<Actor>) -> (map: TileGrid)
        requires
            cfg.valid(),
        ensures
            reachable(*cfg, GridView::walls(cfg.map_width as int, cfg.map_height as int), map@),
            map@.wf(),
            map@.width == cfg.map_width,
            map@.height == cfg.map_height,
            map@.rooms.len() <= cfg.max_rooms,
            cfg.max_rooms > 0 ==> map@.rooms.len() > 0,
            forall|i: int| 0 <= i < map@.rooms.len() ==> cfg.admits(#[trigger] map@.rooms[i]),
            forall|x: int, y: int| map@.in_bounds(x, y) ==> !(#[trigger] map@.tile(x, y)).explored,
            seated(old(npc_vec)@, final(npc_vec)@, map@.rooms, 0),
            cfg.room_min_size >= 2 ==> all_roomy(map@) && walled(map@) && centers_open(map@),
    {
        let mut map = TileGrid::walls(cfg.map_width, cfg.map_height);
        proof {
            lemma_walls_wf(cfg.map_width as int, cfg.map_height as int);
        }
        map.fill_with(cfg, npc_vec);
        proof {
            if cfg.room_min_size >= 2 {
                assert(all_roomy(map@)) by {
                    assert forall|i: int| 0 <= i < map@.rooms.len() implies (
                    #[trigger] map@.rooms[i]).roomy() by {
                        assert(cfg.admits(map@.rooms[i]));
                    }
                }
                lemma_rim_is_wall(map@);
                lemma_centers_open(map@);
            }
        }
        map
    }

    /// The dungeon of the given size that the given placement attempts
    /// make, in their order. The same attempts always make the same
    /// dungeon and seat the occupants in the same places.
    pub fn generate_from(
        width: i32,
        height: i32,
        attempts: &Vec<Attempt>,
        npc_vec: &mut Vec<Actor>,
    ) -> (map: TileGrid)
        requires
            0 <= width,
            0 <= height,
            all_admitted(GridView::walls(width as int, height as int), attempts@),
        ensures
            map@ == GridView::walls(width as int, height as int).place_all(attempts@),
            map@.wf(),
            map@.width == width,
            map@.height == height,
            map@.rooms.len() <= attempts.len(),
            forall|x: int, y: int| map@.in_bounds(x, y) ==> !(#[trigger] map@.tile(x, y)).explored,
            seated(old(npc_vec)@, final(npc_vec)@, map@.rooms, 0),
    {
        let mut map = TileGrid::walls(width, height);
        proof {
            lemma_walls_wf(width as int, height as int);
        }
        map.fill_from(attempts, npc_vec);
        map
    }
}

/// A grid that is all wall, with nothing placed, is a well-formed dungeon.
pub proof fn lemma_walls_wf(width: int, height: int)
    requires
        0 <= width <= i32::MAX,
        0 <= height <= i32::MAX,
    ensures
        GridView::walls(width, height).wf(),
        GridView::walls(width, height).width == width,
        GridView::walls(width, height).height == height,
        GridView::walls(width, height).rooms.len() == 0,
        forall|x: int, y: int|
            GridView::walls(width, height).in_bounds(x, y) ==> !(#[trigger] GridView::walls(
                width,
                height,
            ).tile(x, y)).explored,
{
}

/// The same attempts on the same grid make the same dungeon and seat the
/// same occupants in the same places: nothing but the candidates and the
/// order of the spans decides what is built.
pub proof fn lemma_same_attempts_same_dungeon(
    start: GridView,
    attempts: Seq<Attempt>,
    occupants: Seq<Actor>,
    first: GridView,
    first_seats: Seq<Actor>,
    second: GridView,
    second_seats: Seq<Actor>,
)
    requires
        first == start.place_all(attempts),
        seated(occupants, first_seats, first.rooms, start.rooms.len() as int),
        second == start.place_all(attempts),
        seated(occupants, second_seats, second.rooms, start.rooms.len() as int),
    ensures
        first == second,
        first_seats == second_seats,
{
    assert forall|k: int| 0 <= k < first_seats.len() implies first_seats[k] == second_seats[k] by {
        assert(first_seats[k]@ == second_seats[k]@);
        crate::actors::lemma_view_injective(first_seats[k], second_seats[k]);
    }
    assert(first_seats =~= second_seats);
}

} // verus!
