//! A rectangular tile grid with wrap-around indexing.
//!
//! Tiles are stored row-major. The plain accessors demand in-range
//! coordinates; the `modulo` accessors accept any signed coordinate and
//! wrap it into range, so a walk may step off any edge and re-enter on the
//! opposite one.

use vstd::prelude::*;

verus! {

/// One grid cell: either wall or floor.
#[derive(Clone, Copy, Debug, PartialEq, Eq, Structural)]
pub struct Tile {
    /// Whether the cell is solid.
    pub wall: bool,
}

/// A `width` by `height` grid of tiles, row-major.
pub struct TileMap {
    /// Number of columns.
    pub width: u32,
    /// Number of rows.
    pub height: u32,
    /// The cells, row by row.
    pub tiles: Vec<Tile>,
}

impl TileMap {
    /// The storage matches the dimensions, which fit a `u32` index space.
    pub open spec fn wf(self) -> bool {
        &&& self.tiles@.len() == self.width * self.height
        &&& self.width * self.height <= u32::MAX
    }

    /// The row-major index of `(x, y)`.
    pub open spec fn spec_idx(self, x: int, y: int) -> int {
        y * self.width + x
    }

    /// The tile at in-range `(x, y)`.
    pub open spec fn spec_tile(self, x: int, y: int) -> Tile {
        self.tiles@[self.spec_idx(x, y)]
    }

    /// The tile at arbitrary `(x, y)`, wrapped into range.
    pub open spec fn spec_tile_modulo(self, x: int, y: int) -> Tile {
        self.spec_tile(x % (self.width as int), y % (self.height as int))
    }

    /// A grid of the given dimensions, all walls.
    pub fn new(width: u32, height: u32) -> (m: TileMap)
        requires
            width * height <= u32::MAX,
        ensures
            m.width == width,
            m.height == height,
            m.wf(),
            forall|i: int| 0 <= i < m.tiles@.len() ==> (#[trigger] m.tiles@[i]).wall,
    {
        TileMap { width, height, tiles: vec![Tile { wall: true }; (width * height) as usize] }
    }

    /// The row-major index of in-range `(x, y)`; always inside the store.
    fn xy_to_idx(&self, x: u32, y: u32) -> (idx: usize)
        requires
            self.wf(),
            x < self.width,
            y < self.height,
        ensures
            idx == self.spec_idx(x as int, y as int),
            idx < self.tiles@.len(),
    {
        proof {
            lemma_row_major_in_range(
                x as int,
                y as int,
                self.width as int,
                self.height as int,
            );
        }
        (y * self.width + x) as usize
    }

    /// The tile at in-range `(x, y)`.
    pub fn get_tile(&self, x: u32, y: u32) -> (r: Option<&Tile>)
        requires
            self.wf(),
            x < self.width,
            y < self.height,
        ensures
            r matches Some(t) && *t == self.spec_tile(x as int, y as int),
    {
        let index = self.xy_to_idx(x, y);
        self.tiles.get(index)
    }

    /// Mutable access to the tile at in-range `(x, y)`.
    pub fn get_tile_mut(&mut self, x: u32, y: u32) -> (t: &mut Tile)
        requires
            old(self).wf(),
            x < old(self).width,
            y < old(self).height,
        ensures
            *t == old(self).spec_tile(x as int, y as int),
            final(self).tiles@ == old(self).tiles@.update(
                old(self).spec_idx(x as int, y as int),
                *final(t),
            ),
            final(self).width == old(self).width,
            final(self).height == old(self).height,
            final(self).wf(),
    {
        let index = self.xy_to_idx(x, y);
        &mut self.tiles[index]
    }

    /// The tile at any `(x, y)`, wrapped into range.
    pub fn get_tile_modulo(&self, x: i32, y: i32) -> (r: Option<&Tile>)
        requires
            self.wf(),
            1 <= self.width <= i32::MAX,
            1 <= self.height <= i32::MAX,
        ensures
            r matches Some(t) && *t == self.spec_tile_modulo(x as int, y as int),
    {
        let mod_x = wrap_coord(x, self.width);
        let mod_y = wrap_coord(y, self.height);
        self.get_tile(mod_x, mod_y)
    }

    /// Mutable access to the tile at any `(x, y)`, wrapped into range.
    pub fn get_tile_modulo_mut(&mut self, x: i32, y: i32) -> (t: &mut Tile)
        requires
            old(self).wf(),
            1 <= old(self).width <= i32::MAX,
            1 <= old(self).height <= i32::MAX,
        ensures
            *t == old(self).spec_tile_modulo(x as int, y as int),
            final(self).tiles@ == old(self).tiles@.update(
                old(self).spec_idx(
                    x as int % (old(self).width as int),
                    y as int % (old(self).height as int),
                ),
                *final(t),
            ),
            final(self).width == old(self).width,
            final(self).height == old(self).height,
            final(self).wf(),
    {
        let mod_x = wrap_coord(x, self.width);
        let mod_y = wrap_coord(y, self.height);
        self.get_tile_mut(mod_x, mod_y)
    }
}

impl TileMap {
    /// The character a tile renders as: a full block for a wall, a space
    /// for floor.
    pub open spec fn spec_tile_char(t: Tile) -> char {
        if t.wall {
            '\u{2588}'
        } else {
            ' '
        }
    }

    /// The grid as text: one line per row, top to bottom, each ended by a
    /// newline.
    pub fn render(&self) -> (r: String)
        requires
            self.wf(),
        ensures
            r@.len() == self.height * (self.width + 1),
            forall|y: int, x: int|
                0 <= y < self.height && 0 <= x < self.width ==> r@[y * (self.width + 1) + x]
                    == TileMap::spec_tile_char(#[trigger] self.spec_tile(x, y)),
            forall|y: int|
                0 <= y < self.height ==> r@[#[trigger] (y * (self.width + 1)) + self.width]
                    == '\n',
    {
        let ghost row_len = self.width as int + 1;
        let mut acc = String::new();
        proof {
            reveal_strlit("\u{2588}");
            reveal_strlit(" ");
            reveal_strlit("\n");
        }
        let mut y: u32 = 0;
        while y < self.height
            invariant
                self.wf(),
                row_len == self.width as int + 1,
                y <= self.height,
                acc@.len() == y * row_len,
                forall|yy: int, xx: int|
                    0 <= yy < y && 0 <= xx < self.width ==> acc@[yy * row_len + xx]
                        == TileMap::spec_tile_char(#[trigger] self.spec_tile(xx, yy)),
                forall|yy: int|
                    0 <= yy < y ==> acc@[#[trigger] (yy * row_len) + self.width] == '\n',
            decreases self.height - y,
        {
            let ghost row_base = y * row_len;
            proof {
                assert(0 <= y * row_len && (y + 1) * row_len <= self.height * row_len)
                    by (nonlinear_arith)
                    requires
                        0 <= y < self.height,
                        1 <= row_len,
                ;
            }
            let mut x: u32 = 0;
            while x < self.width
                invariant
                    self.wf(),
                    row_len == self.width as int + 1,
                    y < self.height,
                    x <= self.width,
                    row_base == y * row_len,
                    acc@.len() == row_base + x,
                    forall|yy: int, xx: int|
                        0 <= yy < y && 0 <= xx < self.width ==> acc@[yy * row_len + xx]
                            == TileMap::spec_tile_char(#[trigger] self.spec_tile(xx, yy)),
                    forall|yy: int|
                    0 <= yy < y ==> acc@[#[trigger] (yy * row_len) + self.width] == '\n',
                    forall|xx: int|
                        0 <= xx < x ==> acc@[row_base + xx] == TileMap::spec_tile_char(
                            #[trigger] self.spec_tile(xx, y as int),
                        ),
                decreases self.width - x,
            {
                let t = *self.get_tile(x, y).unwrap();
                if t.wall {
                    acc.append("\u{2588}");
                } else {
                    acc.append(" ");
                }
                proof {
                    reveal_strlit("\u{2588}");
                    reveal_strlit(" ");
                    assert forall|yy: int, xx: int|
                        0 <= yy < y && 0 <= xx < self.width implies acc@[yy * row_len + xx]
                        == TileMap::spec_tile_char(#[trigger] self.spec_tile(xx, yy)) by {
                        assert(0 <= yy * row_len + xx < (yy + 1) * row_len) by (nonlinear_arith)
                            requires
                                0 <= yy,
                                0 <= xx < row_len,
                        ;
                        assert((yy + 1) * row_len <= y * row_len) by (nonlinear_arith)
                            requires
                                yy + 1 <= y,
                                1 <= row_len,
                        ;
                    }
                    assert forall|yy: int|
                        0 <= yy < y implies acc@[#[trigger] (yy * row_len) + self.width]
                        == '\n' by {
                        assert(0 <= yy * row_len + self.width < (yy + 1) * row_len)
                            by (nonlinear_arith)
                            requires
                                0 <= yy,
                                0 <= (self.width as int) < row_len,
                        ;
                        assert((yy + 1) * row_len <= y * row_len) by (nonlinear_arith)
                            requires
                                yy + 1 <= y,
                                1 <= row_len,
                        ;
                    }
                }
                x = x + 1;
            }
            let ghost prev = acc@;
            acc.append("\n");
            proof {
                reveal_strlit("\n");
                assert(acc@ == prev + "\n"@);
                assert(prev.len() == row_base + self.width);
                assert(acc@[row_base + self.width] == '\n');
                assert forall|yy: int, xx: int|
                    0 <= yy < y + 1 && 0 <= xx < self.width implies acc@[yy * row_len + xx]
                    == TileMap::spec_tile_char(#[trigger] self.spec_tile(xx, yy)) by {
                    if yy == y {
                        assert(yy * row_len + xx == row_base + xx);
                        assert(acc@[row_base + xx] == prev[row_base + xx]);
                    } else {
                        assert(0 <= yy * row_len + xx < (yy + 1) * row_len) by (nonlinear_arith)
                            requires
                                0 <= yy,
                                0 <= xx < row_len,
                        ;
                        assert((yy + 1) * row_len <= y * row_len) by (nonlinear_arith)
                            requires
                                yy + 1 <= y,
                                1 <= row_len,
                        ;
                        assert(acc@[yy * row_len + xx] == prev[yy * row_len + xx]);
                    }
                }
                assert forall|yy: int|
                    0 <= yy < y + 1 implies acc@[#[trigger] (yy * row_len) + self.width]
                    == '\n' by {
                    if yy == y {
                        assert(yy * row_len + self.width == row_base + self.width);
                    } else {
                        assert(0 <= yy * row_len + self.width < (yy + 1) * row_len)
                            by (nonlinear_arith)
                            requires
                                0 <= yy,
                                0 <= (self.width as int) < row_len,
                        ;
                        assert((yy + 1) * row_len <= y * row_len) by (nonlinear_arith)
                            requires
                                yy + 1 <= y,
                                1 <= row_len,
                        ;
                        assert(acc@[yy * row_len + self.width] == prev[yy * row_len + self.width]);
                    }
                }
                assert(acc@.len() == (y + 1) * row_len) by (nonlinear_arith)
                    requires
                        acc@.len() == y * row_len + row_len,
                ;
            }
            y = y + 1;
        }
        acc
    }
}

/// Wraps a signed coordinate into `[0, size)`, as the mathematical
/// (Euclidean) remainder.
fn wrap_coord(x: i32, size: u32) -> (r: u32)
    requires
        1 <= size <= i32::MAX,
    ensures
        r == x as int % size as int,
        r < size,
{
    let s64: i64 = size as i64;
    if x >= 0 {
        let r64: i64 = (x as i64) % s64;
        proof {
            vstd::arithmetic::div_mod::lemma_fundamental_div_mod(x as int, s64 as int);
            vstd::arithmetic::div_mod::lemma_mod_bound(x as int, s64 as int);
        }
        r64 as u32
    } else {
        let n: i64 = -(x as i64);
        let rem: i64 = n % s64;
        proof {
            vstd::arithmetic::div_mod::lemma_mod_bound(n as int, s64 as int);
        }
        if rem == 0 {
            proof {
                vstd::arithmetic::div_mod::lemma_fundamental_div_mod(n as int, s64 as int);
                // x is an exact multiple of the size, so it wraps to zero.
                assert(x as int == (-(n as int / s64 as int)) * s64 + 0) by (nonlinear_arith)
                    requires
                        x as int == -(n as int),
                        n as int == s64 * (n as int / s64 as int),
                ;
                vstd::arithmetic::div_mod::lemma_fundamental_div_mod_converse(
                    x as int,
                    s64 as int,
                    -(n as int / s64 as int),
                    0,
                );
            }
            0u32
        } else {
            proof {
                vstd::arithmetic::div_mod::lemma_fundamental_div_mod(n as int, s64 as int);
                assert(x as int == (-(n as int / s64 as int) - 1) * s64 + (s64 - rem))
                    by (nonlinear_arith)
                    requires
                        x as int == -(n as int),
                        n as int == s64 * (n as int / s64 as int) + rem,
                ;
                vstd::arithmetic::div_mod::lemma_fundamental_div_mod_converse(
                    x as int,
                    s64 as int,
                    -(n as int / s64 as int) - 1,
                    s64 - rem,
                );
            }
            (s64 - rem) as u32
        }
    }
}

/// A row-major index formed from in-range coordinates stays inside a
/// `w * h` store.
proof fn lemma_row_major_in_range(x: int, y: int, w: int, h: int)
    requires
        0 <= x < w,
        0 <= y < h,
    ensures
        0 <= y * w + x < w * h,
{
    assert(0 <= y * w + x < w * h) by (nonlinear_arith)
        requires
            0 <= x < w,
            0 <= y < h,
    ;
}

} // verus!
