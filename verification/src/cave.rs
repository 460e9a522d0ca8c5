//! The deterministic clean-up pass of cave generation.
//!
//! A cave is carved by a random walk (the caller's business); afterwards
//! the grid is smoothed: two-by-two checkerboard patterns are opened up and
//! walls with fewer than two wall neighbours are removed, over and over
//! until neither occurs anywhere. Everything here is a pure function of
//! the grid, so the pass is verified down to its fixpoint: after
//! [`TileMap::smooth`], no cell is part of a checkerboard and no wall is
//! nearly isolated.

use crate::map::{Tile, TileMap};
use vstd::prelude::*;

verus! {

/// One where a tile is a wall, else zero.
pub open spec fn spec_wall01(t: Tile) -> int {
    if t.wall {
        1
    } else {
        0
    }
}

/// The number of walls in a store.
pub open spec fn count_walls(s: Seq<Tile>) -> int
    decreases s.len(),
{
    if s.len() == 0 {
        0
    } else {
        count_walls(s.drop_last()) + spec_wall01(s.last())
    }
}

/// The wall count is never negative.
pub proof fn lemma_count_walls_nonneg(s: Seq<Tile>)
    ensures
        0 <= count_walls(s),
    decreases s.len(),
{
    if s.len() > 0 {
        lemma_count_walls_nonneg(s.drop_last());
    }
}

/// Replacing one tile changes the count by the difference of the two
/// tiles' contributions.
pub proof fn lemma_count_walls_update(s: Seq<Tile>, i: int, t: Tile)
    requires
        0 <= i < s.len(),
    ensures
        count_walls(s.update(i, t)) == count_walls(s) - spec_wall01(s[i]) + spec_wall01(t),
    decreases s.len(),
{
    if i == s.len() - 1 {
        assert(s.update(i, t).drop_last() =~= s.drop_last());
    } else {
        assert(s.update(i, t).drop_last() =~= s.drop_last().update(i, t));
        lemma_count_walls_update(s.drop_last(), i, t);
    }
}

/// Monotonicity carries across one smoothing mutation: if walls in `mid`
/// all come from `base`, and `cur` agrees with `mid` except where it has
/// floor, walls in `cur` all come from `base`.
proof fn lemma_smooth_step_monotone(mid: Seq<Tile>, cur: Seq<Tile>, base: Seq<Tile>)
    requires
        mid.len() == cur.len() == base.len(),
        forall|i: int| 0 <= i < mid.len() ==> ((#[trigger] mid[i]).wall ==> base[i].wall),
        forall|i: int| 0 <= i < cur.len() ==> ((#[trigger] cur[i]).wall ==> mid[i].wall),
    ensures
        forall|i: int| 0 <= i < cur.len() ==> ((#[trigger] cur[i]).wall ==> base[i].wall),
{
}

/// Which diagonal a two-by-two checkerboard forms: `Back` is walls on the
/// north-west and south-east corners, `Fore` walls on the other two.
#[derive(Clone, Copy, Debug, PartialEq, Eq, Structural)]
pub enum Diagonal {
    /// Walls at `(x, y)` and `(x+1, y+1)`.
    Back,
    /// Walls at `(x+1, y)` and `(x, y+1)`.
    Fore,
}

impl TileMap {
    /// Whether the (wrapped) cell is a wall.
    pub open spec fn spec_wall_mod(self, x: int, y: int) -> bool {
        self.spec_tile_modulo(x, y).wall
    }

    /// How many of the eight neighbours of the (wrapped) cell are walls.
    pub open spec fn spec_wall_neighbors(self, x: int, y: int) -> int {
        spec_wall01(self.spec_tile_modulo(x - 1, y - 1)) + spec_wall01(
            self.spec_tile_modulo(x - 1, y),
        ) + spec_wall01(self.spec_tile_modulo(x - 1, y + 1)) + spec_wall01(
            self.spec_tile_modulo(x, y - 1),
        ) + spec_wall01(self.spec_tile_modulo(x, y + 1)) + spec_wall01(
            self.spec_tile_modulo(x + 1, y - 1),
        ) + spec_wall01(self.spec_tile_modulo(x + 1, y)) + spec_wall01(
            self.spec_tile_modulo(x + 1, y + 1),
        )
    }

    /// The checkerboard pattern with `(x, y)` as its top-left corner, if
    /// any: opposite corners equal, adjacent corners different.
    pub open spec fn spec_checkerboard(self, x: int, y: int) -> Option<Diagonal> {
        let nw = self.spec_wall_mod(x, y);
        let ne = self.spec_wall_mod(x + 1, y);
        let sw = self.spec_wall_mod(x, y + 1);
        let se = self.spec_wall_mod(x + 1, y + 1);
        if nw == se && ne == sw && nw != ne {
            if nw {
                Some(Diagonal::Back)
            } else {
                Some(Diagonal::Fore)
            }
        } else {
            None
        }
    }

    /// A cell the smoothing pass has nothing to do at: no checkerboard
    /// starts there, and if it is a wall it has at least two wall
    /// neighbours.
    pub open spec fn spec_cell_settled(self, x: int, y: int) -> bool {
        &&& self.spec_checkerboard(x, y) is None
        &&& (self.spec_wall_mod(x, y) ==> self.spec_wall_neighbors(x, y) >= 2)
    }

    /// Counts the wall neighbours of the (wrapped) cell.
    pub fn num_wall_neighbors(&self, x: u32, y: u32) -> (n: u32)
        requires
            self.wf(),
            1 <= self.width <= i32::MAX,
            1 <= self.height <= i32::MAX,
            x < self.width,
            y < self.height,
        ensures
            n == self.spec_wall_neighbors(x as int, y as int),
    {
        let i_x = x as i32;
        let i_y = y as i32;
        let mut n: u32 = 0;
        if self.get_tile_modulo(i_x - 1, i_y - 1).unwrap().wall {
            n = n + 1;
        }
        if self.get_tile_modulo(i_x - 1, i_y).unwrap().wall {
            n = n + 1;
        }
        if self.get_tile_modulo(i_x - 1, i_y + 1).unwrap().wall {
            n = n + 1;
        }
        if self.get_tile_modulo(i_x, i_y - 1).unwrap().wall {
            n = n + 1;
        }
        if self.get_tile_modulo(i_x, i_y + 1).unwrap().wall {
            n = n + 1;
        }
        if self.get_tile_modulo(i_x + 1, i_y - 1).unwrap().wall {
            n = n + 1;
        }
        if self.get_tile_modulo(i_x + 1, i_y).unwrap().wall {
            n = n + 1;
        }
        if self.get_tile_modulo(i_x + 1, i_y + 1).unwrap().wall {
            n = n + 1;
        }
        n
    }

    /// Turns the (wrapped) cell to floor.
    fn clear_cell(&mut self, x: i32, y: i32)
        requires
            old(self).wf(),
            1 <= old(self).width <= i32::MAX,
            1 <= old(self).height <= i32::MAX,
        ensures
            final(self).wf(),
            final(self).width == old(self).width,
            final(self).height == old(self).height,
            final(self).tiles@ == old(self).tiles@.update(
                old(self).spec_idx(
                    x as int % (old(self).width as int),
                    y as int % (old(self).height as int),
                ),
                Tile { wall: false },
            ),
            count_walls(final(self).tiles@) == count_walls(old(self).tiles@) - spec_wall01(
                old(self).spec_tile_modulo(x as int, y as int),
            ),
            forall|i: int|
                0 <= i < final(self).tiles@.len() ==> ((#[trigger] final(self).tiles@[i]).wall
                    ==> old(self).tiles@[i].wall),
    {
        let ghost w = self.width as int;
        let ghost h = self.height as int;
        let t = self.get_tile_modulo_mut(x, y);
        *t = Tile { wall: false };
        proof {
            let xm = x as int % w;
            let ym = y as int % h;
            assert(0 <= ym * w + xm < w * h) by (nonlinear_arith)
                requires
                    0 <= xm < w,
                    0 <= ym < h,
            ;
            lemma_count_walls_update(old(self).tiles@, ym * w + xm, Tile { wall: false });
            assert forall|i: int|
                0 <= i < self.tiles@.len() implies ((#[trigger] self.tiles@[i]).wall ==> old(
                self,
            ).tiles@[i].wall) by {
                if i != ym * w + xm {
                    assert(self.tiles@[i] == old(self).tiles@[i]);
                }
            }
        }
    }

    /// Opens checkerboards and removes nearly isolated walls until neither
    /// occurs anywhere: walls are only ever removed, and afterwards every
    /// cell is settled in the sense of [`TileMap::spec_cell_settled`].
    pub fn smooth(&mut self)
        requires
            old(self).wf(),
            1 <= old(self).width <= i32::MAX,
            1 <= old(self).height <= i32::MAX,
        ensures
            final(self).wf(),
            final(self).width == old(self).width,
            final(self).height == old(self).height,
            forall|i: int|
                0 <= i < final(self).tiles@.len() ==> ((#[trigger] final(self).tiles@[i]).wall
                    ==> old(self).tiles@[i].wall),
            forall|x: int, y: int|
                0 <= x < final(self).width && 0 <= y < final(self).height
                    ==> #[trigger] final(self).spec_cell_settled(x, y),
            (forall|x: int, y: int|
                0 <= x < old(self).width && 0 <= y < old(self).height
                    ==> #[trigger] old(self).spec_cell_settled(x, y)) ==> final(self).tiles@
                == old(self).tiles@,
    {
        let mut recheck = true;
        proof {
            lemma_count_walls_nonneg(self.tiles@);
        }
        while recheck
            invariant
                self.wf(),
                old(self).wf(),
                self.width == old(self).width,
                self.height == old(self).height,
                1 <= self.width <= i32::MAX,
                1 <= self.height <= i32::MAX,
                0 <= count_walls(self.tiles@),
                forall|i: int|
                    0 <= i < self.tiles@.len() ==> ((#[trigger] self.tiles@[i]).wall ==> old(
                        self,
                    ).tiles@[i].wall),
                (forall|a: int, b: int|
                    0 <= a < old(self).width && 0 <= b < old(self).height
                        ==> #[trigger] old(self).spec_cell_settled(a, b)) ==> self.tiles@
                    == old(self).tiles@,
                !recheck ==> forall|x: int, y: int|
                    0 <= x < self.width && 0 <= y < self.height
                        ==> #[trigger] self.spec_cell_settled(x, y),
            decreases 2 * count_walls(self.tiles@) + (if recheck {
                1int
            } else {
                0int
            }),
        {
            recheck = false;
            let ghost c0 = count_walls(self.tiles@);
            let mut x: u32 = 0;
            while x < self.width
                invariant
                    self.wf(),
                    old(self).wf(),
                    self.width == old(self).width,
                    self.height == old(self).height,
                    1 <= self.width <= i32::MAX,
                    1 <= self.height <= i32::MAX,
                    x <= self.width,
                    count_walls(self.tiles@) <= c0,
                    recheck ==> count_walls(self.tiles@) < c0,
                    forall|i: int|
                        0 <= i < self.tiles@.len() ==> ((#[trigger] self.tiles@[i]).wall ==> old(
                            self,
                        ).tiles@[i].wall),
                    (forall|a: int, b: int|
                        0 <= a < old(self).width && 0 <= b < old(self).height
                            ==> #[trigger] old(self).spec_cell_settled(a, b)) ==> self.tiles@
                        == old(self).tiles@,
                    !recheck ==> forall|a: int, b: int|
                        0 <= a < x && 0 <= b < self.height
                            ==> #[trigger] self.spec_cell_settled(a, b),
                decreases self.width - x,
            {
                let mut y: u32 = 0;
                while y < self.height
                    invariant
                        self.wf(),
                        old(self).wf(),
                        self.width == old(self).width,
                        self.height == old(self).height,
                        1 <= self.width <= i32::MAX,
                        1 <= self.height <= i32::MAX,
                        x < self.width,
                        y <= self.height,
                        count_walls(self.tiles@) <= c0,
                        recheck ==> count_walls(self.tiles@) < c0,
                        forall|i: int|
                            0 <= i < self.tiles@.len() ==> ((#[trigger] self.tiles@[i]).wall
                                ==> old(self).tiles@[i].wall),
                        (forall|a: int, b: int|
                            0 <= a < old(self).width && 0 <= b < old(self).height
                                ==> #[trigger] old(self).spec_cell_settled(a, b)) ==> self.tiles@
                            == old(self).tiles@,
                        !recheck ==> forall|a: int, b: int|
                            (0 <= a < x && 0 <= b < self.height) || (a == x && 0 <= b < y)
                                ==> #[trigger] self.spec_cell_settled(a, b),
                    decreases self.height - y,
                {
                    let ghost before = *self;
                    match self.is_part_of_checkerboard(x, y) {
                        Some(Diagonal::Back) => {
                        proof {
                            if forall|a: int, b: int|
                                0 <= a < old(self).width && 0 <= b < old(self).height
                                    ==> #[trigger] old(self).spec_cell_settled(a, b) {
                                assert(before.tiles@ == old(self).tiles@);
                                assert(before.spec_checkerboard(x as int, y as int) == old(
                                    self,
                                ).spec_checkerboard(x as int, y as int));
                                assert(old(self).spec_cell_settled(x as int, y as int));
                                assert(false);
                            }
                        }
                            self.clear_cell(x as i32, y as i32);
                            proof {
                                lemma_smooth_step_monotone(before.tiles@, self.tiles@, old(self).tiles@);
                            }
                            let ghost mid = *self;
                            self.clear_cell(x as i32 + 1, y as i32 + 1);
                            proof {
                                lemma_smooth_step_monotone(mid.tiles@, self.tiles@, old(self).tiles@);
                            }
                            recheck = true;
                        },
                        Some(Diagonal::Fore) => {
                        proof {
                            if forall|a: int, b: int|
                                0 <= a < old(self).width && 0 <= b < old(self).height
                                    ==> #[trigger] old(self).spec_cell_settled(a, b) {
                                assert(before.tiles@ == old(self).tiles@);
                                assert(before.spec_checkerboard(x as int, y as int) == old(
                                    self,
                                ).spec_checkerboard(x as int, y as int));
                                assert(old(self).spec_cell_settled(x as int, y as int));
                                assert(false);
                            }
                        }
                            self.clear_cell(x as i32 + 1, y as i32);
                            proof {
                                lemma_smooth_step_monotone(before.tiles@, self.tiles@, old(self).tiles@);
                            }
                            let ghost mid = *self;
                            self.clear_cell(x as i32, y as i32 + 1);
                            proof {
                                lemma_smooth_step_monotone(mid.tiles@, self.tiles@, old(self).tiles@);
                            }
                            recheck = true;
                        },
                        None => {},
                    }
                    let ghost checked = *self;
                    let wall_here = self.get_tile_modulo(x as i32, y as i32).unwrap().wall;
                    if wall_here {
                        let neighbors = self.num_wall_neighbors(x, y);
                        if neighbors < 2 {
                            proof {
                                if forall|a: int, b: int|
                                    0 <= a < old(self).width && 0 <= b < old(self).height
                                        ==> #[trigger] old(self).spec_cell_settled(a, b) {
                                    assert(checked.tiles@ == old(self).tiles@);
                                    assert(checked.spec_wall_mod(x as int, y as int) == old(
                                        self,
                                    ).spec_wall_mod(x as int, y as int));
                                    assert(checked.spec_wall_neighbors(x as int, y as int) == old(
                                        self,
                                    ).spec_wall_neighbors(x as int, y as int));
                                    assert(old(self).spec_cell_settled(x as int, y as int));
                                    assert(false);
                                }
                            }
                            self.clear_cell(x as i32, y as i32);
                            proof {
                                lemma_smooth_step_monotone(checked.tiles@, self.tiles@, old(self).tiles@);
                            }
                            recheck = true;
                        }
                    }
                    proof {
                        lemma_count_walls_nonneg(self.tiles@);
                        if !recheck {
                            assert(*self == before);
                            assert(self.spec_checkerboard(x as int, y as int) is None);
                            assert(self.spec_cell_settled(x as int, y as int));
                            assert forall|a: int, b: int|
                                (0 <= a < x && 0 <= b < self.height) || (a == x && 0 <= b < y
                                    + 1) implies #[trigger] self.spec_cell_settled(a, b) by {
                            }
                        }
                    }
                    y = y + 1;
                }
                x = x + 1;
            }
            proof {
                lemma_count_walls_nonneg(self.tiles@);
            }
        }
    }

    /// Reports the checkerboard pattern with `(x, y)` as its top-left
    /// corner, if any.
    pub fn is_part_of_checkerboard(&self, x: u32, y: u32) -> (r: Option<Diagonal>)
        requires
            self.wf(),
            1 <= self.width <= i32::MAX,
            1 <= self.height <= i32::MAX,
            x < self.width,
            y < self.height,
        ensures
            r == self.spec_checkerboard(x as int, y as int),
    {
        let i_x = x as i32;
        let i_y = y as i32;
        let nw = self.get_tile_modulo(i_x, i_y).unwrap().wall;
        let ne = self.get_tile_modulo(i_x + 1, i_y).unwrap().wall;
        let sw = self.get_tile_modulo(i_x, i_y + 1).unwrap().wall;
        let se = self.get_tile_modulo(i_x + 1, i_y + 1).unwrap().wall;
        if nw == se && ne == sw && nw != ne {
            if nw {
                Some(Diagonal::Back)
            } else {
                Some(Diagonal::Fore)
            }
        } else {
            None
        }
    }
}

} // verus!
