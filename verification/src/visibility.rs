//! What is in view and what has been seen. The field of view itself is
//! computed elsewhere: this module says what such an engine is fed, when it
//! has to be asked again, and what its answer does to the memory of the
//! grid.

use crate::config::{FovAlgorithm, FOV_ALGO, FOV_LIGHT_WALLS, TORCH_RADIUS};
use crate::map::{lemma_grid_extensional, GridView, TileGrid};
use vstd::prelude::*;

verus! {

/// What a field-of-view engine has to know of one cell.
#[derive(Clone, Copy, Debug, PartialEq, Eq, Structural)]
pub struct FovCell {
    /// Sight passes through the cell.
    pub transparent: bool,
    /// The cell can be walked on.
    pub walkable: bool,
}

/// One question to a field-of-view engine: what can be seen from `(x, y)`.
#[derive(Clone, Copy, Debug, PartialEq, Eq, Structural)]
pub struct FovRequest {
    pub x: i32,
    pub y: i32,
    pub radius: i32,
    pub light_walls: bool,
    pub algorithm: FovAlgorithm,
}

/// The answer of a field-of-view engine, cell by cell, as `lit[x][y]`.
pub open spec fn lit_cells(visible: Seq<Vec<bool>>) -> Seq<Seq<bool>> {
    Seq::new(visible.len(), |x: int| visible[x]@)
}

/// Whether `lit` has one entry for each cell of a `width` by `height` grid.
pub open spec fn covers_grid(lit: Seq<Seq<bool>>, width: int, height: int) -> bool {
    &&& lit.len() == width
    &&& forall|x: int| 0 <= x < width ==> (#[trigger] lit[x]).len() == height
}

impl GridView {
    /// The grid with every tile that is lit marked as explored. Nothing is
    /// forgotten: a tile that is not lit stays as it is.
    pub open spec fn unveil(self, lit: Seq<Seq<bool>>) -> GridView {
        GridView {
            tiles: Seq::new(
                self.width as nat,
                |x: int|
                    Seq::new(
                        self.height as nat,
                        |y: int|
                            if lit[x][y] {
                                self.tiles[x][y].seen()
                            } else {
                                self.tiles[x][y]
                            },
                    ),
            ),
            ..self
        }
    }

    /// The grid after a run of answers has been taken in, one after the
    /// other.
    pub open spec fn unveil_all(self, answers: Seq<Seq<Seq<bool>>>) -> GridView
        decreases answers.len(),
    {
        if answers.len() == 0 {
            self
        } else {
            self.unveil_all(answers.drop_last()).unveil(answers.last())
        }
    }

    /// What the engine is fed for the cell at `(x, y)`: sight passes where
    /// the tile does not block it, and one can walk where the tile does not
    /// block movement.
    pub open spec fn fov_cell(self, x: int, y: int) -> FovCell {
        FovCell {
            transparent: !self.tile(x, y).block_sight,
            walkable: !self.tile(x, y).impassable,
        }
    }
}

/// What unveiling does, tile by tile.
pub proof fn lemma_unveil_tiles(g: GridView, lit: Seq<Seq<bool>>)
    requires
        g.shaped(),
    ensures
        g.unveil(lit).shaped(),
        g.unveil(lit).width == g.width,
        g.unveil(lit).height == g.height,
        g.unveil(lit).rooms == g.rooms,
        g.unveil(lit).corridors == g.corridors,
        g.unveil(lit).same_layout(g),
        g.explored_within(g.unveil(lit)),
        forall|x: int, y: int|
            g.in_bounds(x, y) ==> #[trigger] g.unveil(lit).tile(x, y) == (if lit[x][y] {
                g.tile(x, y).seen()
            } else {
                g.tile(x, y)
            }),
{
}

/// Marking tiles as explored leaves a dungeon what it is: soundness and
/// well-formedness speak of walls, floor, rooms and corridors only.
pub proof fn lemma_same_layout_sound(before: GridView, after: GridView)
    requires
        after.shaped(),
        after.same_layout(before),
        after.rooms == before.rooms,
        after.corridors == before.corridors,
    ensures
        before.sound() ==> after.sound(),
        before.wf() ==> after.wf(),
{
    if before.sound() {
        assert forall|x: int, y: int| after.in_bounds(x, y) implies {
            &&& (#[trigger] after.tile(x, y)).impassable == !after.planned(x, y)
            &&& after.tile(x, y).block_sight == !after.planned(x, y)
        } by {
            assert(before.tile(x, y).impassable == !before.planned(x, y));
            assert(after.planned(x, y) == before.planned(x, y));
        }
    }
}

/// Exploring a tile twice is exploring it once.
pub proof fn lemma_explore_idempotent(g: GridView, x: int, y: int)
    requires
        g.shaped(),
        g.in_bounds(x, y),
    ensures
        g.explore(x, y).explore(x, y) == g.explore(x, y),
        g.explore(x, y).tile(x, y).explored,
        g.explored_within(g.explore(x, y)),
{
    let once = g.explore(x, y);
    let twice = once.explore(x, y);
    assert(g.tiles[x].len() == g.height);
    assert(once.tiles[x] =~= twice.tiles[x]);
    assert(once.tiles =~= twice.tiles);
    assert forall|a: int, b: int| g.in_bounds(a, b) && (#[trigger] g.tile(a, b)).explored implies once.tile(
        a,
        b,
    ).explored by {
        assert(g.tiles[a].len() == g.height);
    }
}

/// What was explored stays explored, whatever is taken in afterwards and
/// from wherever it was seen: the explored tiles only ever become more.
pub proof fn lemma_explored_only_grows(g: GridView, answers: Seq<Seq<Seq<bool>>>, k: int)
    requires
        g.shaped(),
        0 <= k <= answers.len(),
    ensures
        g.unveil_all(answers).shaped(),
        g.unveil_all(answers).width == g.width,
        g.unveil_all(answers).height == g.height,
        g.unveil_all(answers.take(k)).explored_within(g.unveil_all(answers)),
        g.explored_within(g.unveil_all(answers)),
    decreases answers.len(),
{
    if answers.len() == 0 {
        assert(answers.take(k) =~= answers);
    } else {
        let before = answers.drop_last();
        let mid = g.unveil_all(before);
        if k == answers.len() {
            assert(answers.take(k) =~= answers);
            lemma_explored_only_grows(g, before, 0);
            lemma_unveil_tiles(mid, answers.last());
        } else {
            assert(answers.take(k) =~= before.take(k));
            lemma_explored_only_grows(g, before, k);
            lemma_unveil_tiles(mid, answers.last());
            let early = g.unveil_all(before.take(k));
            lemma_explored_only_grows(g, before.take(k), 0);
            assert forall|x: int, y: int|
                early.in_bounds(x, y) && (#[trigger] early.tile(x, y)).explored implies g.unveil_all(
                answers,
            ).tile(x, y).explored by {
                assert(mid.tile(x, y).explored);
            }
        }
        assert forall|x: int, y: int| g.in_bounds(x, y) && (#[trigger] g.tile(x, y)).explored implies g.unveil_all(
            answers,
        ).tile(x, y).explored by {
            assert(mid.tile(x, y).explored);
        }
    }
}

/// What a [`VisibilityTracker`] holds: the cells that the last answer lit,
/// and the viewpoint that the answer was computed for, if there was one.
pub struct TrackerView {
    pub width: int,
    pub height: int,
    pub lit: Seq<Seq<bool>>,
    pub viewpoint: Option<(i32, i32)>,
}

impl TrackerView {
    pub open spec fn wf(self) -> bool {
        &&& 0 <= self.width <= i32::MAX
        &&& 0 <= self.height <= i32::MAX
        &&& covers_grid(self.lit, self.width, self.height)
    }

    pub open spec fn in_bounds(self, x: int, y: int) -> bool {
        0 <= x < self.width && 0 <= y < self.height
    }

    /// Whether the tracker has no answer for the viewpoint `(x, y)`: it was
    /// never asked, or the viewpoint has moved since.
    pub open spec fn stale(self, x: i32, y: i32) -> bool {
        self.viewpoint != Some((x, y))
    }

    /// A tracker that was never asked: nothing is in view.
    pub open spec fn dark(width: int, height: int) -> TrackerView {
        TrackerView {
            width,
            height,
            lit: Seq::new(width as nat, |x: int| Seq::new(height as nat, |y: int| false)),
            viewpoint: None,
        }
    }
}

/// Keeps the answer of the field-of-view engine between two moves of the
/// viewpoint.
#[derive(Clone, Debug, PartialEq, Eq)]
pub struct VisibilityTracker {
    width: i32,
    height: i32,
    visible: Vec<Vec<bool>>,
    viewpoint: Option<(i32, i32)>,
}

impl View for VisibilityTracker {
    type V = TrackerView;

    closed spec fn view(&self) -> TrackerView {
        TrackerView {
            width: self.width as int,
            height: self.height as int,
            lit: lit_cells(self.visible@),
            viewpoint: self.viewpoint,
        }
    }
}

/// Whether `visible` has one entry for each cell of the grid.
pub fn covers(visible: &Vec<Vec<bool>>, width: i32, height: i32) -> (b: bool)
    requires
        0 <= width,
        0 <= height,
    ensures
        b == covers_grid(lit_cells(visible@), width as int, height as int),
{
    if visible.len() != width as usize {
        return false;
    }
    let mut x: usize = 0;
    while x < visible.len()
        invariant
            x <= visible.len(),
            visible.len() == width,
            0 <= height,
            forall|a: int| 0 <= a < x ==> (#[trigger] lit_cells(visible@)[a]).len() == height,
        decreases visible.len() - x,
    {
        if visible[x].len() != height as usize {
            assert(lit_cells(visible@)[x as int].len() != height);
            return false;
        }
        assert(lit_cells(visible@)[x as int].len() == height);
        x += 1;
    }
    true
}

impl VisibilityTracker {
    /// A tracker for the given grid that was never asked: it is stale for
    /// every viewpoint and nothing is in view.
    pub fn init(grid: &TileGrid) -> (tracker: VisibilityTracker)
        requires
            grid@.shaped(),
        ensures
            tracker@ == TrackerView::dark(grid@.width, grid@.height),
            tracker@.wf(),
    {
        let width = grid.width();
        let height = grid.height();
        let mut visible: Vec<Vec<bool>> = Vec::new();
        let mut x: i32 = 0;
        while x < width
            invariant
                0 <= x <= width,
                0 <= height,
                visible.len() == x,
                forall|a: int| 0 <= a < x ==> (#[trigger] visible[a]).len() == height,
                forall|a: int, b: int| 0 <= a < x && 0 <= b < height ==> !(#[trigger] visible[a][b]),
            decreases width - x,
        {
            let mut column: Vec<bool> = Vec::new();
            let mut y: i32 = 0;
            while y < height
                invariant
                    0 <= y <= height,
                    column.len() == y,
                    forall|b: int| 0 <= b < y ==> !(#[trigger] column[b]),
                decreases height - y,
            {
                column.push(false);
                y += 1;
            }
            visible.push(column);
            x += 1;
        }
        let tracker = VisibilityTracker { width, height, visible, viewpoint: None };
        proof {
            let expected = TrackerView::dark(grid@.width, grid@.height);
            assert forall|a: int| 0 <= a < width implies #[trigger] tracker@.lit[a]
                == expected.lit[a] by {
                assert(tracker@.lit[a] =~= expected.lit[a]);
            }
            assert(tracker@.lit =~= expected.lit);
        }
        tracker
    }

    pub fn width(&self) -> (w: i32)
        ensures
            w == self@.width,
    {
        self.width
    }

    pub fn height(&self) -> (h: i32)
        ensures
            h == self@.height,
    {
        self.height
    }

    /// Whether the cell at `(x, y)` was lit by the last answer.
    pub fn is_visible(&self, x: i32, y: i32) -> (b: bool)
        requires
            self@.wf(),
            self@.in_bounds(x as int, y as int),
        ensures
            b == self@.lit[x as int][y as int],
    {
        proof {
            assert(self@.lit[x as int].len() == self@.height);
        }
        self.visible[x as usize][y as usize]
    }

    /// Whether the engine has to be asked before the next frame is drawn:
    /// it was never asked, or the viewpoint is no longer where it was when
    /// it was asked last.
    pub fn is_stale(&self, x: i32, y: i32) -> (b: bool)
        ensures
            b == self@.stale(x, y),
    {
        match self.viewpoint {
            None => true,
            Some(at) => at.0 != x || at.1 != y,
        }
    }

    /// The question to put to the engine for the viewpoint `(x, y)`, if one
    /// has to be put at all: nothing is asked while the viewpoint stays
    /// where it is.
    pub fn request(&self, x: i32, y: i32) -> (request: Option<FovRequest>)
        ensures
            request == (if self@.stale(x, y) {
                Some(
                    FovRequest {
                        x,
                        y,
                        radius: TORCH_RADIUS,
                        light_walls: FOV_LIGHT_WALLS,
                        algorithm: FOV_ALGO,
                    },
                )
            } else {
                None
            }),
    {
        if self.is_stale(x, y) {
            Some(
                FovRequest {
                    x,
                    y,
                    radius: TORCH_RADIUS,
                    light_walls: FOV_LIGHT_WALLS,
                    algorithm: FOV_ALGO,
                },
            )
        } else {
            None
        }
    }

    /// Takes in the answer of the engine for the viewpoint `(x, y)`: the
    /// answer is kept, the tracker is fresh for that viewpoint, and every
    /// tile that is lit is explored from now on.
    pub fn recompute(&mut self, grid: &mut TileGrid, x: i32, y: i32, visible: Vec<Vec<bool>>)
        requires
            old(self)@.wf(),
            old(grid)@.shaped(),
            old(grid)@.width == old(self)@.width,
            old(grid)@.height == old(self)@.height,
            covers_grid(lit_cells(visible@), old(grid)@.width, old(grid)@.height),
        ensures
            final(self)@ == (TrackerView {
                lit: lit_cells(visible@),
                viewpoint: Some((x, y)),
                ..old(self)@
            }),
            final(self)@.wf(),
            !final(self)@.stale(x, y),
            final(grid)@ == old(grid)@.unveil(lit_cells(visible@)),
            final(grid)@.shaped(),
            final(grid)@.same_layout(old(grid)@),
            old(grid)@.explored_within(final(grid)@),
            old(grid)@.sound() ==> final(grid)@.sound(),
            old(grid)@.wf() ==> final(grid)@.wf(),
    {
        let ghost before = grid@;
        let ghost lit = lit_cells(visible@);
        let width = grid.width();
        let height = grid.height();
        let mut a: i32 = 0;
        while a < width
            invariant
                0 <= a <= width,
                width == before.width,
                height == before.height,
                before.shaped(),
                lit == lit_cells(visible@),
                covers_grid(lit, before.width, before.height),
                grid@.shaped(),
                grid@.width == before.width,
                grid@.height == before.height,
                grid@.rooms == before.rooms,
                grid@.corridors == before.corridors,
                forall|i: int, j: int|
                    before.in_bounds(i, j) ==> #[trigger] grid@.tile(i, j) == (if i < a
                        && lit[i][j] {
                        before.tile(i, j).seen()
                    } else {
                        before.tile(i, j)
                    }),
            decreases width - a,
        {
            let mut b: i32 = 0;
            while b < height
                invariant
                    0 <= a < width,
                    0 <= b <= height,
                    width == before.width,
                    height == before.height,
                    before.shaped(),
                    lit == lit_cells(visible@),
                    covers_grid(lit, before.width, before.height),
                    grid@.shaped(),
                    grid@.width == before.width,
                    grid@.height == before.height,
                    grid@.rooms == before.rooms,
                    grid@.corridors == before.corridors,
                    forall|i: int, j: int|
                        before.in_bounds(i, j) ==> #[trigger] grid@.tile(i, j) == (if (i < a || (i
                            == a && j < b)) && lit[i][j] {
                            before.tile(i, j).seen()
                        } else {
                            before.tile(i, j)
                        }),
                decreases height - b,
            {
                proof {
                    assert(lit[a as int].len() == height);
                    assert(lit[a as int] == visible@[a as int]@);
                }
                if visible[a as usize][b as usize] {
                    let ghost mid = grid@;
                    grid.explore(a, b);
                    proof {
                        crate::map::lemma_explore_tiles(mid, a as int, b as int);
                    }
                }
                b += 1;
            }
            a += 1;
        }
        proof {
            let expected = before.unveil(lit);
            lemma_unveil_tiles(before, lit);
            lemma_grid_extensional(grid@, expected);
            lemma_same_layout_sound(before, expected);
        }
        self.visible = visible;
        self.viewpoint = Some((x, y));
    }
}

/// What the engine is fed before it is first asked: one entry for each
/// cell of the grid, addressed as `cells[x][y]`.
pub fn fov_inputs(grid: &TileGrid) -> (cells: Vec<Vec<FovCell>>)
    requires
        grid@.shaped(),
    ensures
        cells.len() == grid@.width,
        forall|x: int| 0 <= x < grid@.width ==> (#[trigger] cells[x]).len() == grid@.height,
        forall|x: int, y: int|
            grid@.in_bounds(x, y) ==> #[trigger] cells[x][y] == grid@.fov_cell(x, y),
{
    let width = grid.width();
    let height = grid.height();
    let mut cells: Vec<Vec<FovCell>> = Vec::new();
    let mut x: i32 = 0;
    while x < width
        invariant
            0 <= x <= width,
            width == grid@.width,
            height == grid@.height,
            grid@.shaped(),
            cells.len() == x,
            forall|a: int| 0 <= a < x ==> (#[trigger] cells[a]).len() == height,
            forall|a: int, b: int|
                0 <= a < x && 0 <= b < height ==> #[trigger] cells[a][b] == grid@.fov_cell(a, b),
        decreases width - x,
    {
        let mut column: Vec<FovCell> = Vec::new();
        let mut y: i32 = 0;
        while y < height
            invariant
                0 <= x < width,
                0 <= y <= height,
                width == grid@.width,
                height == grid@.height,
                grid@.shaped(),
                column.len() == y,
                forall|b: int| 0 <= b < y ==> #[trigger] column[b] == grid@.fov_cell(x as int, b),
            decreases height - y,
        {
            column.push(
                FovCell { transparent: !grid.blocks_sight(x, y), walkable: grid.is_passable(x, y) },
            );
            y += 1;
        }
        cells.push(column);
        x += 1;
    }
    cells
}

} // verus!
