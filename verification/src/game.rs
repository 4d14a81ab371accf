//! The core game state: playfield, active piece, bag randomizer, and
//! the game orchestration with movement, rotation, hold, and lock.

use crate::misc::{Color, Vec2};
use crate::pieces::{all_pieces_table, PieceBoolMatrix, PieceData, PIECE_COUNT};
use crate::rng::{rng_below, rng_from_entropy, rng_from_seed};
use std::collections::VecDeque;
use vstd::prelude::*;

verus! {

/// The width of the playfield in blocks.
pub const PLAYFIELD_WIDTH: usize = 10;

/// The height of the visible playfield in blocks. The stored height
/// is double this value; only the lower half is visible.
pub const PLAYFIELD_HEIGHT: usize = 20;

/// The stored height of the playfield in blocks, including the hidden
/// overhang above the visible area.
pub const TRUE_PLAYFIELD_HEIGHT: usize = PLAYFIELD_HEIGHT * 2;

/// An active, falling piece: its kind, its rotation index (0 to 3),
/// and the grid position of the top-left corner of its 4x4 frame.
#[derive(Clone, Copy)]
pub struct ActivePiece {
    pub piece_data: PieceData,
    pub rotation: usize,
    pub position: Vec2,
}

/// The playfield: a grid of cell colors, where pure black marks an
/// empty cell.
pub struct Playfield {
    fill_state: [[Color; 10]; 40],
}

impl View for Playfield {
    type V = Seq<Seq<Color>>;

    /// The grid as a sequence of rows, each a sequence of cell colors;
    /// row index 0 is the top of the hidden overhang.
    closed spec fn view(&self) -> Seq<Seq<Color>> {
        Seq::new(40, |y: int| Seq::new(10, |x: int| self.fill_state[y][x]))
    }
}

/// The color a tile query resolves to: the stored color inside the
/// grid, the white out-of-bounds sentinel outside it.
pub open spec fn tile_at(g: Seq<Seq<Color>>, x: int, y: int) -> Color {
    if 0 <= x < 10 && 0 <= y < 40 {
        g[y][x]
    } else {
        Color { r: 0xff, g: 0xff, b: 0xff }
    }
}

/// Whether a coordinate blocks a piece: every cell outside the grid
/// counts as occupied, and a cell inside it is occupied when its
/// stored color is not black.
pub open spec fn occupied_at(g: Seq<Seq<Color>>, x: int, y: int) -> bool {
    !tile_at(g, x, y).spec_is_black()
}

/// Whether the piece, in its current rotation and position, has an
/// occupied cell on an occupied coordinate (including any coordinate
/// outside the grid).
pub open spec fn overlaps(g: Seq<Seq<Color>>, p: ActivePiece) -> bool {
    exists|i: int, j: int|
        0 <= i < 4 && 0 <= j < 4 && p.cell(i, j) && occupied_at(
            g,
            p.position.x + i,
            p.position.y + j,
        )
}

/// Whether the piece covers the grid coordinate (`x`, `y`) with one of
/// its occupied cells.
pub open spec fn covers(p: ActivePiece, x: int, y: int) -> bool {
    exists|i: int, j: int|
        0 <= i < 4 && 0 <= j < 4 && p.cell(i, j) && p.position.x + i == x && p.position.y + j == y
}

/// The grid after stamping the piece: every coordinate the piece
/// covers takes the piece's color, all others keep their color.
pub open spec fn stamp(g: Seq<Seq<Color>>, p: ActivePiece) -> Seq<Seq<Color>> {
    Seq::new(
        g.len(),
        |y: int|
            Seq::new(
                g[y].len(),
                |x: int|
                    if covers(p, x, y) {
                        p.piece_data.spec_color()
                    } else {
                        g[y][x]
                    },
            ),
    )
}

/// Like [`covers`], but only through piece cells that come before
/// column `cx`, or in column `cx` before row `cy`, in iteration order.
pub open spec fn covers_before(p: ActivePiece, cx: int, cy: int, x: int, y: int) -> bool {
    exists|i: int, j: int|
        0 <= i < 4 && 0 <= j < 4 && (i < cx || (i == cx && j < cy)) && p.cell(i, j)
            && p.position.x + i == x && p.position.y + j == y
}

/// Whether every cell of the row is occupied, i.e. not black.
pub open spec fn row_full(row: Seq<Color>) -> bool {
    forall|x: int| 0 <= x < 10 ==> !(#[trigger] row[x]).spec_is_black()
}

/// An all-black, i.e. empty, row.
pub open spec fn black_row() -> Seq<Color> {
    Seq::new(10, |x: int| (Color { r: 0, g: 0, b: 0 }))
}

/// The full rows of the grid, in order.
pub open spec fn full_rows(g: Seq<Seq<Color>>) -> Seq<Seq<Color>> {
    g.filter(|row: Seq<Color>| row_full(row))
}

/// The rows of the grid that are not full, in order.
pub open spec fn keep_rows(g: Seq<Seq<Color>>) -> Seq<Seq<Color>> {
    g.filter(|row: Seq<Color>| !row_full(row))
}

/// How many rows of the grid are full.
pub open spec fn cleared_count(g: Seq<Seq<Color>>) -> nat {
    full_rows(g).len()
}

/// The grid after line clearing: as many empty rows on top as rows
/// were full, then every row that was not full, in order.
pub open spec fn cleared_grid(g: Seq<Seq<Color>>) -> Seq<Seq<Color>> {
    Seq::new(cleared_count(g), |i: int| black_row()) + keep_rows(g)
}

/// Filtering a one-element sequence keeps or drops that element.
proof fn lemma_filter_singleton<A>(r: A, pred: spec_fn(A) -> bool)
    ensures
        seq![r].filter(pred) == (if pred(r) {
            seq![r]
        } else {
            Seq::<A>::empty()
        }),
{
    reveal_with_fuel(Seq::filter, 2);
    assert(seq![r].drop_last() =~= Seq::<A>::empty());
    assert(seq![r].last() == r);
}

impl ActivePiece {
    /// The occupancy of the piece's current rotation state at cell
    /// (`x`, `y`) of its 4x4 frame.
    pub open spec fn cell(self, x: int, y: int) -> bool {
        self.piece_data.spec_states()[self.rotation as int].spec_matrix().cell(x, y)
    }

    /// A well-formed active piece: a well-formed kind and a rotation
    /// index below 4.
    pub open spec fn wf(self) -> bool {
        &&& self.piece_data.wf()
        &&& self.rotation < 4
    }

    /// Creates an active piece of the given kind at a spawn position,
    /// in the default rotation state.
    pub fn new(piece_data: PieceData, spawn_pos: Vec2) -> (r: ActivePiece)
        ensures
            r.piece_data == piece_data,
            r.rotation == 0,
            r.position == spawn_pos,
    {
        ActivePiece { piece_data, position: spawn_pos, rotation: 0 }
    }

    /// The 4x4 occupancy matrix of the current rotation state.
    pub fn matrix(&self) -> (r: PieceBoolMatrix)
        requires
            self.rotation < 4,
        ensures
            forall|x: int, y: int| 0 <= x < 4 && 0 <= y < 4 ==> r[x][y] == self.cell(x, y),
    {
        self.piece_data.state(self.rotation).matrix()
    }

    /// The 4x4 occupancy matrix of the current rotation state; an
    /// alias kept for callers that use the longer name.
    pub fn get_matrix(&self) -> (r: PieceBoolMatrix)
        requires
            self.rotation < 4,
        ensures
            forall|x: int, y: int| 0 <= x < 4 && 0 <= y < 4 ==> r[x][y] == self.cell(x, y),
    {
        self.piece_data.state(self.rotation).matrix()
    }
}

impl Playfield {
    /// Creates an empty playfield: every tile is black.
    pub fn new() -> (r: Playfield)
        ensures
            forall|x: int, y: int|
                0 <= x < 10 && 0 <= y < 40 ==> (#[trigger] r@[y][x]) == (Color { r: 0, g: 0, b: 0 }),
    {
        let c = Color { r: 0, g: 0, b: 0 };
        let mut pf = Playfield { fill_state: [[c; 10]; 40] };
        let mut y: usize = 0;
        while y < 40
            invariant
                y <= 40,
                c == (Color { r: 0, g: 0, b: 0 }),
                forall|gx: int, gy: int|
                    0 <= gx < 10 && 0 <= gy < y ==> (#[trigger] pf@[gy][gx]) == c,
            decreases 40 - y,
        {
            let mut x: usize = 0;
            while x < 10
                invariant
                    y < 40,
                    x <= 10,
                    c == (Color { r: 0, g: 0, b: 0 }),
                    forall|gx: int, gy: int|
                        0 <= gx < 10 && 0 <= gy < y ==> (#[trigger] pf@[gy][gx]) == c,
                    forall|gx: int| 0 <= gx < x ==> (#[trigger] pf@[y as int][gx]) == c,
                decreases 10 - x,
            {
                pf.set_tile(x, y, c);
                x += 1;
            }
            y += 1;
        }
        pf
    }

    /// Determines if a coordinate lies inside the stored grid.
    pub fn is_in_bounds(x: usize, y: usize) -> (r: bool)
        ensures
            r == (x < 10 && y < 40),
    {
        x < PLAYFIELD_WIDTH && y < TRUE_PLAYFIELD_HEIGHT
    }

    /// The color of the tile at (`x`, `y`), or the white out-of-bounds
    /// sentinel if the coordinate lies outside the grid.
    pub fn get_tile(&self, x: usize, y: usize) -> (r: Color)
        ensures
            r == tile_at(self@, x as int, y as int),
    {
        if Playfield::is_in_bounds(x, y) {
            self.fill_state[y][x]
        } else {
            Color { r: 0xff, g: 0xff, b: 0xff }
        }
    }

    /// Writes the color of the tile at (`x`, `y`). Returns whether the
    /// coordinate was inside the grid; outside it nothing changes.
    pub fn set_tile(&mut self, x: usize, y: usize, c: Color) -> (r: bool)
        ensures
            r == (x < 10 && y < 40),
            forall|gx: int, gy: int|
                0 <= gx < 10 && 0 <= gy < 40 ==> (#[trigger] final(self)@[gy][gx]) == (if gx
                    == x as int && gy == y as int {
                    c
                } else {
                    old(self)@[gy][gx]
                }),
    {
        if Playfield::is_in_bounds(x, y) {
            let mut row = self.fill_state[y];
            row[x] = c;
            self.fill_state[y] = row;
            true
        } else {
            false
        }
    }

    /// Determines if a tile blocks a piece: true outside the grid, and
    /// inside it true exactly when the stored color is not black.
    pub fn has_tile(&self, x: usize, y: usize) -> (r: bool)
        ensures
            r == occupied_at(self@, x as int, y as int),
    {
        !self.get_tile(x, y).is_black()
    }

    /// Determines whether the piece's occupied cells overlap an
    /// occupied coordinate, with every coordinate outside the grid
    /// counting as occupied.
    pub fn has_overlap(&self, piece: &ActivePiece) -> (r: bool)
        requires
            piece.rotation < 4,
        ensures
            r == overlaps(self@, *piece),
    {
        let mat = piece.matrix();
        let px = piece.position.x as i16;
        let py = piece.position.y as i16;
        let mut x: usize = 0;
        while x < 4
            invariant
                x <= 4,
                piece.rotation < 4,
                px == piece.position.x as int,
                py == piece.position.y as int,
                forall|i: int, j: int| 0 <= i < 4 && 0 <= j < 4 ==> mat[i][j] == piece.cell(i, j),
                forall|i: int, j: int|
                    0 <= i < x && 0 <= j < 4 ==> !((#[trigger] piece.cell(i, j)) && occupied_at(
                        self@,
                        piece.position.x + i,
                        piece.position.y + j,
                    )),
            decreases 4 - x,
        {
            let mut y: usize = 0;
            while y < 4
                invariant
                    x < 4,
                    y <= 4,
                    piece.rotation < 4,
                    px == piece.position.x as int,
                    py == piece.position.y as int,
                    forall|i: int, j: int|
                        0 <= i < 4 && 0 <= j < 4 ==> mat[i][j] == piece.cell(i, j),
                    forall|i: int, j: int|
                        0 <= i < x && 0 <= j < 4 ==> !((#[trigger] piece.cell(i, j)) && occupied_at(
                            self@,
                            piece.position.x + i,
                            piece.position.y + j,
                        )),
                    forall|j: int|
                        0 <= j < y ==> !((#[trigger] piece.cell(x as int, j)) && occupied_at(
                            self@,
                            piece.position.x + x,
                            piece.position.y + j,
                        )),
                decreases 4 - y,
            {
                if mat[x][y] {
                    let tx = px + x as i16;
                    let ty = py + y as i16;
                    if tx < 0 || tx >= 10 || ty < 0 || ty >= 40 {
                        proof {
                            assert(piece.cell(x as int, y as int) && occupied_at(
                                self@,
                                piece.position.x + x,
                                piece.position.y + y,
                            ));
                        }
                        return true;
                    }
                    if self.has_tile(tx as usize, ty as usize) {
                        proof {
                            assert(piece.cell(x as int, y as int) && occupied_at(
                                self@,
                                piece.position.x + x,
                                piece.position.y + y,
                            ));
                        }
                        return true;
                    }
                }
                y += 1;
            }
            x += 1;
        }
        false
    }

    /// Stamps every occupied cell of the piece's current matrix with
    /// the piece's color; cells that resolve outside the grid are
    /// skipped.
    #[verifier::loop_isolation(false)]
    pub fn copy_in_piece(&mut self, piece: &ActivePiece)
        requires
            piece.rotation < 4,
        ensures
            final(self)@ == stamp(old(self)@, *piece),
    {
        let mat = piece.matrix();
        let color = piece.piece_data.color();
        let px = piece.position.x as i16;
        let py = piece.position.y as i16;
        let mut x: usize = 0;
        while x < 4
            invariant
                x <= 4,
                piece.rotation < 4,
                px == piece.position.x as int,
                py == piece.position.y as int,
                color == piece.piece_data.spec_color(),
                forall|i: int, j: int| 0 <= i < 4 && 0 <= j < 4 ==> mat[i][j] == piece.cell(i, j),
                forall|gx: int, gy: int|
                    0 <= gx < 10 && 0 <= gy < 40 ==> (#[trigger] self@[gy][gx]) == (if covers_before(
                        *piece,
                        x as int,
                        0,
                        gx,
                        gy,
                    ) {
                        piece.piece_data.spec_color()
                    } else {
                        old(self)@[gy][gx]
                    }),
            decreases 4 - x,
        {
            let mut y: usize = 0;
            while y < 4
                invariant
                    x < 4,
                    y <= 4,
                    piece.rotation < 4,
                    px == piece.position.x as int,
                    py == piece.position.y as int,
                    color == piece.piece_data.spec_color(),
                    forall|i: int, j: int|
                        0 <= i < 4 && 0 <= j < 4 ==> mat[i][j] == piece.cell(i, j),
                    forall|gx: int, gy: int|
                        0 <= gx < 10 && 0 <= gy < 40 ==> (#[trigger] self@[gy][gx]) == (if covers_before(
                            *piece,
                            x as int,
                            y as int,
                            gx,
                            gy,
                        ) {
                            piece.piece_data.spec_color()
                        } else {
                            old(self)@[gy][gx]
                        }),
                decreases 4 - y,
            {
                let ghost prev_grid = self@;
                if mat[x][y] {
                    let tx = px + x as i16;
                    let ty = py + y as i16;
                    if tx >= 0 && tx < 10 && ty >= 0 && ty < 40 {
                        self.set_tile(tx as usize, ty as usize, color);
                    }
                }
                proof {
                    assert forall|gx: int, gy: int|
                        0 <= gx < 10 && 0 <= gy < 40 implies (covers_before(
                        *piece,
                        x as int,
                        y + 1,
                        gx,
                        gy,
                    ) == (covers_before(*piece, x as int, y as int, gx, gy) || (piece.cell(
                        x as int,
                        y as int,
                    ) && piece.position.x + x == gx && piece.position.y + y == gy))) by {
                        if covers_before(*piece, x as int, y + 1, gx, gy) {
                            let (i, j): (int, int) = choose|i: int, j: int|
                                0 <= i < 4 && 0 <= j < 4 && (i < x as int || (i == x as int && j < y
                                    + 1)) && #[trigger] piece.cell(i, j) && piece.position.x + i
                                    == gx && piece.position.y + j == gy;
                            if i < x as int || (i == x as int && j < y as int) {
                                assert(covers_before(*piece, x as int, y as int, gx, gy));
                            } else {
                                assert(i == x as int && j == y as int);
                            }
                        }
                        if covers_before(*piece, x as int, y as int, gx, gy) {
                            let (i, j): (int, int) = choose|i: int, j: int|
                                0 <= i < 4 && 0 <= j < 4 && (i < x as int || (i == x as int && j
                                    < y as int)) && #[trigger] piece.cell(i, j) && piece.position.x
                                    + i == gx && piece.position.y + j == gy;
                            assert(i < x as int || (i == x as int && j < y + 1));
                            assert(covers_before(*piece, x as int, y + 1, gx, gy));
                        }
                        if piece.cell(x as int, y as int) && piece.position.x + x == gx
                            && piece.position.y + y == gy {
                            assert(covers_before(*piece, x as int, y + 1, gx, gy));
                        }
                    }
                    let c0 = piece.piece_data.spec_color();
                    assert forall|gx: int, gy: int| 0 <= gx < 10 && 0 <= gy < 40 implies ((
                    #[trigger] self@[gy][gx]) == (if covers_before(*piece, x as int, y + 1, gx, gy) {
                        c0
                    } else {
                        old(self)@[gy][gx]
                    })) by {
                        if covers_before(*piece, x as int, y + 1, gx, gy) {
                            if covers_before(*piece, x as int, y as int, gx, gy) {
                                assert(prev_grid[gy][gx] == c0);
                                assert(self@[gy][gx] == c0);
                            } else {
                                assert(piece.cell(x as int, y as int) && gx == piece.position.x + x
                                    && gy == piece.position.y + y);
                                assert(self@[gy][gx] == c0);
                            }
                        } else {
                            assert(!covers_before(*piece, x as int, y as int, gx, gy));
                            assert(prev_grid[gy][gx] == old(self)@[gy][gx]);
                            assert(self@[gy][gx] == prev_grid[gy][gx]);
                        }
                    }
                }
                y += 1;
            }
            proof {
                assert forall|gx: int, gy: int| 0 <= gx < 10 && 0 <= gy < 40 implies (covers_before(
                    *piece,
                    x + 1,
                    0,
                    gx,
                    gy,
                ) == covers_before(*piece, x as int, 4, gx, gy)) by {
                    if covers_before(*piece, x + 1, 0, gx, gy) {
                        let (i, j): (int, int) = choose|i: int, j: int|
                            0 <= i < 4 && 0 <= j < 4 && (i < x + 1 || (i == x + 1 && j < 0))
                                && #[trigger] piece.cell(i, j) && piece.position.x + i == gx
                                && piece.position.y + j == gy;
                        assert(i < x as int || (i == x as int && j < 4));
                        assert(covers_before(*piece, x as int, 4, gx, gy));
                    }
                    if covers_before(*piece, x as int, 4, gx, gy) {
                        let (i, j): (int, int) = choose|i: int, j: int|
                            0 <= i < 4 && 0 <= j < 4 && (i < x as int || (i == x as int && j < 4))
                                && #[trigger] piece.cell(i, j) && piece.position.x + i == gx
                                && piece.position.y + j == gy;
                        assert(i < x + 1 || (i == x + 1 && j < 0));
                        assert(covers_before(*piece, x + 1, 0, gx, gy));
                    }
                }
            }
            x += 1;
        }
        proof {
            assert forall|gx: int, gy: int| 0 <= gx < 10 && 0 <= gy < 40 implies (covers_before(
                *piece,
                4,
                0,
                gx,
                gy,
            ) == covers(*piece, gx, gy)) by {
                if covers(*piece, gx, gy) {
                    let (i, j): (int, int) = choose|i: int, j: int|
                        0 <= i < 4 && 0 <= j < 4 && #[trigger] piece.cell(i, j) && piece.position.x
                            + i == gx && piece.position.y + j == gy;
                    assert(i < 4 || (i == 4 && j < 0));
                    assert(covers_before(*piece, 4, 0, gx, gy));
                }
                if covers_before(*piece, 4, 0, gx, gy) {
                    let (i, j): (int, int) = choose|i: int, j: int|
                        0 <= i < 4 && 0 <= j < 4 && (i < 4 || (i == 4 && j < 0))
                            && #[trigger] piece.cell(i, j) && piece.position.x + i == gx
                            && piece.position.y + j == gy;
                    assert(covers(*piece, gx, gy));
                }
            }
            assert(self@ =~~= stamp(old(self)@, *piece));
        }
    }

    /// Whether every cell of row `y` is occupied.
    fn is_row_full(&self, y: usize) -> (r: bool)
        requires
            y < 40,
        ensures
            r == row_full(self@[y as int]),
    {
        let mut x: usize = 0;
        while x < 10
            invariant
                y < 40,
                x <= 10,
                forall|i: int| 0 <= i < x ==> !(#[trigger] self@[y as int][i]).spec_is_black(),
            decreases 10 - x,
        {
            if !self.has_tile(x, y) {
                proof {
                    assert((self@[y as int][x as int]).spec_is_black());
                }
                return false;
            }
            x += 1;
        }
        true
    }

    /// Overwrites every cell of row `y` with black.
    fn clear_row(&mut self, y: usize)
        requires
            y < 40,
        ensures
            forall|gx: int, gy: int|
                0 <= gx < 10 && 0 <= gy < 40 ==> (#[trigger] final(self)@[gy][gx]) == (if gy
                    == y as int {
                    Color { r: 0, g: 0, b: 0 }
                } else {
                    old(self)@[gy][gx]
                }),
    {
        let c = Color { r: 0, g: 0, b: 0 };
        let mut x: usize = 0;
        while x < 10
            invariant
                y < 40,
                x <= 10,
                c == (Color { r: 0, g: 0, b: 0 }),
                forall|gx: int, gy: int|
                    0 <= gx < 10 && 0 <= gy < 40 ==> (#[trigger] self@[gy][gx]) == (if gy
                        == y as int && gx < x {
                        c
                    } else {
                        old(self)@[gy][gx]
                    }),
            decreases 10 - x,
        {
            self.set_tile(x, y, c);
            x += 1;
        }
    }

    /// Clears all completed lines in one pass: each full row is
    /// removed, every row above it shifts down one, and an empty row
    /// enters at the top. Returns how many rows were cleared.
    pub fn clear_completed_lines(&mut self) -> (r: usize)
        ensures
            r == cleared_count(old(self)@),
            final(self)@ == cleared_grid(old(self)@),
    {
        let mut cnt: usize = 0;
        let mut y: usize = 0;
        while y < 40
            invariant
                y <= 40,
                cnt <= y,
                cnt == cleared_count(old(self)@.subrange(0, y as int)),
                self@.subrange(0, y as int) =~~= Seq::new(cnt as nat, |i: int| black_row())
                    + keep_rows(old(self)@.subrange(0, y as int)),
                forall|k: int| y <= k < 40 ==> (#[trigger] self@[k]) =~= old(self)@[k],
            decreases 40 - y,
        {
            let ghost pre = old(self)@.subrange(0, y as int);
            let ghost pre1 = old(self)@.subrange(0, y as int + 1);
            proof {
                assert(pre1 =~= pre + seq![old(self)@[y as int]]);
                lemma_filter_singleton(
                    old(self)@[y as int],
                    |row: Seq<Color>| row_full(row),
                );
                lemma_filter_singleton(
                    old(self)@[y as int],
                    |row: Seq<Color>| !row_full(row),
                );
            }
            let full = self.is_row_full(y);
            if full {
                proof {
                    assert(row_full(old(self)@[y as int]));
                }
                cnt += 1;
                let ghost g0 = self@;
                let mut yc: usize = y;
                while yc >= 1
                    invariant
                        yc <= y,
                        y < 40,
                        forall|k: int| yc < k <= y ==> (#[trigger] self@[k]) =~= g0[k - 1],
                        forall|k: int| 0 <= k <= yc ==> (#[trigger] self@[k]) =~= g0[k],
                        forall|k: int| y < k < 40 ==> (#[trigger] self@[k]) =~= g0[k],
                    decreases yc,
                {
                    let ghost prev = self@;
                    let row = self.fill_state[yc - 1];
                    self.fill_state[yc] = row;
                    proof {
                        assert forall|k: int| 0 <= k < 40 && k != yc implies #[trigger] self@[k]
                            =~= prev[k] by {
                            assert(forall|x: int|
                                0 <= x < 10 ==> self@[k][x] == #[trigger] prev[k][x]);
                        }
                        assert(self@[yc as int] =~= prev[yc - 1]) by {
                            assert(forall|x: int|
                                0 <= x < 10 ==> self@[yc as int][x] == #[trigger] prev[yc - 1][x]);
                        }
                    }
                    yc -= 1;
                }
                self.clear_row(0);
                proof {
                    assert(self@.subrange(0, y as int + 1) =~~= seq![black_row()] + g0.subrange(
                        0,
                        y as int,
                    ));
                    assert(g0.subrange(0, y as int) =~~= Seq::new(
                        (cnt - 1) as nat,
                        |i: int| black_row(),
                    ) + keep_rows(pre));
                    assert(seq![black_row()] + (Seq::new((cnt - 1) as nat, |i: int| black_row())
                        + keep_rows(pre)) =~~= Seq::new(cnt as nat, |i: int| black_row())
                        + keep_rows(pre));
                    assert(keep_rows(pre1) =~~= keep_rows(pre));
                    assert(full_rows(pre1) =~~= full_rows(pre) + seq![old(self)@[y as int]]);
                    assert(self@.subrange(0, y as int + 1) =~~= Seq::new(
                        cnt as nat,
                        |i: int| black_row(),
                    ) + keep_rows(pre1));
                }
            } else {
                proof {
                    assert(!row_full(old(self)@[y as int]));
                    assert(self@.subrange(0, y as int + 1) =~~= self@.subrange(0, y as int)
                        + seq![old(self)@[y as int]]);
                    assert(keep_rows(pre1) =~~= keep_rows(pre) + seq![old(self)@[y as int]]);
                    assert(full_rows(pre1) =~~= full_rows(pre));
                    assert(self@.subrange(0, y as int + 1) =~~= Seq::new(
                        cnt as nat,
                        |i: int| black_row(),
                    ) + keep_rows(pre1));
                }
            }
            y += 1;
        }
        proof {
            assert(old(self)@.subrange(0, 40) =~= old(self)@);
            assert(self@.subrange(0, 40) =~= self@);
            assert(self@ =~~= cleared_grid(old(self)@));
        }
        cnt
    }
}

impl Default for Playfield {
    /// An empty playfield.
    fn default() -> (r: Playfield)
        ensures
            forall|x: int, y: int|
                0 <= x < 10 && 0 <= y < 40 ==> (#[trigger] r@[y][x]) == (Color { r: 0, g: 0, b: 0 }),
    {
        Playfield::new()
    }
}

/// A bag of piece indices is a permutation when it holds 7 pairwise
/// distinct indices, each below 7.
pub open spec fn bag_is_permutation(b: Seq<usize>) -> bool {
    &&& b.len() == 7
    &&& forall|i: int| 0 <= i < 7 ==> (#[trigger] b[i]) < 7
    &&& forall|i: int, j: int| 0 <= i < j < 7 ==> b[i] != b[j]
}

/// The 7-bag randomizer: it fills a bag with all piece kinds in
/// random order, drains it draw by draw, and refills it only once it
/// is empty.
pub struct RandomGenerator {
    rng: rand::rngs::StdRng,
    pieces: [PieceData; PIECE_COUNT],
    bag: [usize; PIECE_COUNT],
    bag_left: usize,
}

impl RandomGenerator {
    /// The canonical piece table this generator draws from.
    pub closed spec fn spec_pieces(self) -> Seq<PieceData> {
        self.pieces@
    }

    /// The current bag ordering; draws take indices 6 down to 0.
    pub closed spec fn spec_bag(self) -> Seq<usize> {
        self.bag@
    }

    /// How many draws are left before the bag refills.
    pub closed spec fn spec_bag_left(self) -> int {
        self.bag_left as int
    }

    /// The generator's invariant: it holds the canonical piece table,
    /// and every not-yet-drawn bag entry indexes it.
    pub open spec fn inv(self) -> bool {
        &&& all_pieces_table(self.spec_pieces())
        &&& 0 <= self.spec_bag_left() <= 7
        &&& forall|i: int| 0 <= i < self.spec_bag_left() ==> (#[trigger] self.spec_bag()[i]) < 7
    }

    /// Creates a generator with an empty bag, seeded from the
    /// operating system's entropy source.
    pub fn new() -> (r: RandomGenerator)
        ensures
            r.inv(),
            r.spec_bag_left() == 0,
    {
        RandomGenerator {
            rng: rng_from_entropy(),
            pieces: PieceData::create_all_pieces(),
            bag: [0; 7],
            bag_left: 0,
        }
    }

    /// Creates a generator with an empty bag whose draws are fixed by
    /// the given seed, for reproducible play and testing.
    pub fn from_seed(seed: u64) -> (r: RandomGenerator)
        ensures
            r.inv(),
            r.spec_bag_left() == 0,
    {
        RandomGenerator {
            rng: rng_from_seed(seed),
            pieces: PieceData::create_all_pieces(),
            bag: [0; 7],
            bag_left: 0,
        }
    }

    /// Draws the next piece. While the bag has entries it pops them in
    /// fixed order; an empty bag is first refilled with a random
    /// permutation of all 7 kinds, so any 7 draws from a bag boundary
    /// contain each kind exactly once.
    pub fn next_piece(&mut self) -> (r: PieceData)
        requires
            old(self).inv(),
        ensures
            final(self).inv(),
            final(self).spec_pieces() == old(self).spec_pieces(),
            old(self).spec_bag_left() > 0 ==> {
                &&& final(self).spec_bag() == old(self).spec_bag()
                &&& final(self).spec_bag_left() == old(self).spec_bag_left() - 1
            },
            old(self).spec_bag_left() == 0 ==> {
                &&& final(self).spec_bag_left() == 6
                &&& bag_is_permutation(final(self).spec_bag())
            },
            r == final(self).spec_pieces()[final(self).spec_bag()[final(self).spec_bag_left()] as int],
            r.wf(),
    {
        if self.bag_left > 0 {
            self.bag_left = self.bag_left - 1;
            proof {
                assert(old(self).spec_bag()[self.bag_left as int] < 7);
            }
            let idx = self.bag[self.bag_left];
            proof {
                assert(self.spec_pieces()[idx as int].wf());
            }
            self.pieces[idx]
        } else {
            let mut new_bag: Vec<usize> = Vec::new();
            let mut k: usize = 0;
            while k < 7
                invariant
                    k <= 7,
                    new_bag@.len() == k,
                    forall|a: int| 0 <= a < k ==> (#[trigger] new_bag@[a]) == a,
                decreases 7 - k,
            {
                new_bag.push(k);
                k += 1;
            }
            let ghost pieces0 = self.pieces@;
            let ghost bag_left0 = self.bag_left;
            let mut i: usize = 0;
            while i < 7
                invariant
                    i <= 7,
                    new_bag@.len() == 7 - i,
                    self.pieces@ == pieces0,
                    self.bag_left == bag_left0,
                    forall|a: int| 0 <= a < 7 - i ==> (#[trigger] new_bag@[a]) < 7,
                    forall|a: int, b: int|
                        0 <= a < b < 7 - i ==> new_bag@[a] != new_bag@[b],
                    forall|a: int| 0 <= a < i ==> (#[trigger] self.bag@[a]) < 7,
                    forall|a: int, b: int| 0 <= a < b < i ==> self.bag@[a] != self.bag@[b],
                    forall|a: int, c: int|
                        0 <= a < i && 0 <= c < 7 - i ==> self.bag@[a] != new_bag@[c],
                decreases 7 - i,
            {
                let ghost nb0 = new_bag@;
                let j = rng_below(&mut self.rng, new_bag.len());
                let v = new_bag.remove(j);
                proof {
                    assert(forall|a: int|
                        0 <= a < nb0.len() - 1 ==> (#[trigger] new_bag@[a]) == (if a < j {
                            nb0[a]
                        } else {
                            nb0[a + 1]
                        }));
                }
                self.bag[i] = v;
                i += 1;
            }
            self.bag_left = 6;
            let idx = self.bag[6];
            proof {
                assert(bag_is_permutation(self.spec_bag()));
                assert(self.spec_bag()[6] < 7);
                assert(self.spec_pieces()[idx as int].wf());
            }
            self.pieces[idx]
        }
    }
}

impl Default for RandomGenerator {
    /// A fresh entropy-seeded generator with an empty bag.
    fn default() -> (r: RandomGenerator)
        ensures
            r.inv(),
            r.spec_bag_left() == 0,
    {
        RandomGenerator::new()
    }
}

/// Negates all four kick offsets; used for counter-clockwise
/// rotation, which reads the target state's table negated.
fn neg_kicks(src: &[Vec2; 4]) -> (r: [Vec2; 4])
    requires
        forall|i: int|
            0 <= i < 4 ==> -2 <= (#[trigger] src[i]).x <= 2 && -2 <= src[i].y <= 2,
    ensures
        forall|i: int|
            0 <= i < 4 ==> (#[trigger] r[i]).x == -src[i].x && r[i].y == -src[i].y,
{
    [
        Vec2 { x: -src[0].x, y: -src[0].y },
        Vec2 { x: -src[1].x, y: -src[1].y },
        Vec2 { x: -src[2].x, y: -src[2].y },
        Vec2 { x: -src[3].x, y: -src[3].y },
    ]
}

/// The piece moved by (`dx`, `dy`), same kind and rotation.
pub open spec fn translated(p: ActivePiece, dx: int, dy: int) -> ActivePiece {
    ActivePiece {
        position: Vec2 { x: (p.position.x + dx) as i8, y: (p.position.y + dy) as i8 },
        ..p
    }
}

/// The rotation index reached from `rot` by one clockwise or
/// counter-clockwise step.
pub open spec fn target_rotation(rot: int, clockwise: bool) -> int {
    if clockwise {
        if rot == 3 {
            0
        } else {
            rot + 1
        }
    } else {
        if rot == 0 {
            3
        } else {
            rot - 1
        }
    }
}

/// Kick offset `k` for rotating the piece: clockwise reads the
/// current state's table, counter-clockwise the target state's table
/// with both components negated.
pub open spec fn rotation_kick(p: ActivePiece, clockwise: bool, k: int) -> Vec2 {
    if clockwise {
        p.piece_data.spec_states()[p.rotation as int].spec_kicks()[k]
    } else {
        let v = p.piece_data.spec_states()[target_rotation(
            p.rotation as int,
            false,
        )].spec_kicks()[k];
        Vec2 { x: (-v.x) as i8, y: (-v.y) as i8 }
    }
}

/// Candidate pose `k` of a rotation attempt: candidate 0 is the bare
/// rotation, candidates 1 to 4 combine it with the kick offsets in
/// table order.
pub open spec fn rotation_candidate(p: ActivePiece, clockwise: bool, k: int) -> ActivePiece {
    let trg = target_rotation(p.rotation as int, clockwise) as usize;
    if k == 0 {
        ActivePiece { rotation: trg, ..p }
    } else {
        let kick = rotation_kick(p, clockwise, k - 1);
        ActivePiece {
            rotation: trg,
            position: Vec2 {
                x: (p.position.x + kick.x) as i8,
                y: (p.position.y + kick.y) as i8,
            },
            ..p
        }
    }
}

/// A grid with no occupied cell.
pub open spec fn grid_empty(g: Seq<Seq<Color>>) -> bool {
    forall|x: int, y: int| 0 <= x < 10 && 0 <= y < 40 ==> (#[trigger] g[y][x]).spec_is_black()
}

/// A well-formed piece that does not overlap the grid stands, frame
/// and all, within a small window of positions.
pub proof fn lemma_placed_bounds(g: Seq<Seq<Color>>, p: ActivePiece)
    requires
        p.wf(),
        !overlaps(g, p),
    ensures
        -3 <= p.position.x <= 9,
        -3 <= p.position.y <= 39,
{
    assert(p.piece_data.spec_states()[p.rotation as int].wf());
    let st = p.piece_data.spec_states()[p.rotation as int].spec_matrix();
    assert(st.nonempty());
    let (i, j): (int, int) = choose|i: int, j: int| 0 <= i < 4 && 0 <= j < 4 && st.cell(i, j);
    assert(p.cell(i, j));
    assert(!(p.cell(i, j) && occupied_at(g, p.position.x + i, p.position.y + j)));
    assert(0 <= p.position.x + i < 10 && 0 <= p.position.y + j < 40);
}

/// Tries to put the piece at the given position and rotation: commits
/// exactly when the pose does not overlap the playfield, else leaves
/// the piece unchanged.
fn try_pose_piece(pf: &Playfield, piece: &mut ActivePiece, pos: Vec2, rot: usize) -> (r: bool)
    requires
        old(piece).piece_data.wf(),
        rot < 4,
    ensures
        r == !overlaps(
            pf@,
            (ActivePiece { piece_data: old(piece).piece_data, rotation: rot, position: pos }),
        ),
        r ==> *final(piece) == (ActivePiece {
            piece_data: old(piece).piece_data,
            rotation: rot,
            position: pos,
        }),
        !r ==> *final(piece) == *old(piece),
{
    let old_pos = piece.position;
    let old_rot = piece.rotation;
    piece.position = pos;
    piece.rotation = rot;
    if pf.has_overlap(piece) {
        piece.position = old_pos;
        piece.rotation = old_rot;
        false
    } else {
        true
    }
}

/// Tries a pure translation of the piece by (`dx`, `dy`): commits
/// exactly when the moved pose does not overlap the playfield, else
/// leaves the piece byte-for-byte unchanged.
pub fn try_move_piece(pf: &Playfield, piece: &mut ActivePiece, dx: i8, dy: i8) -> (r: bool)
    requires
        old(piece).wf(),
        -3 <= old(piece).position.x <= 9,
        -3 <= old(piece).position.y <= 39,
        -2 <= dx <= 2,
        -2 <= dy <= 2,
    ensures
        r == !overlaps(pf@, translated(*old(piece), dx as int, dy as int)),
        r ==> *final(piece) == translated(*old(piece), dx as int, dy as int),
        !r ==> *final(piece) == *old(piece),
        final(piece).wf(),
        r ==> !overlaps(pf@, *final(piece)) && -3 <= final(piece).position.x <= 9 && -3
            <= final(piece).position.y <= 39,
{
    let pos = Vec2 { x: piece.position.x + dx, y: piece.position.y + dy };
    let r = try_pose_piece(pf, piece, pos, piece.rotation);
    proof {
        if r {
            lemma_placed_bounds(pf@, *piece);
        }
    }
    r
}

/// Tries to rotate the piece one step: first the bare rotation, then
/// each of the 4 kick offsets in table order, committing the first
/// candidate pose that does not overlap. On total failure the piece is
/// left byte-for-byte unchanged.
pub fn rotate_piece(pf: &Playfield, piece: &mut ActivePiece, clockwise: bool) -> (r: bool)
    requires
        old(piece).wf(),
        -3 <= old(piece).position.x <= 9,
        -3 <= old(piece).position.y <= 39,
    ensures
        r == (exists|k: int|
            0 <= k < 5 && !overlaps(pf@, rotation_candidate(*old(piece), clockwise, k))),
        r ==> (exists|k: int|
            {
                &&& 0 <= k < 5
                &&& !overlaps(pf@, rotation_candidate(*old(piece), clockwise, k))
                &&& forall|j: int|
                    0 <= j < k ==> overlaps(pf@, rotation_candidate(*old(piece), clockwise, j))
                &&& *final(piece) == rotation_candidate(*old(piece), clockwise, k)
            }),
        !r ==> *final(piece) == *old(piece),
        final(piece).wf(),
        r ==> !overlaps(pf@, *final(piece)) && -3 <= final(piece).position.x <= 9 && -3
            <= final(piece).position.y <= 39,
{
    let cur = piece.rotation;
    let trg: usize = if clockwise {
        if cur == 3 {
            0
        } else {
            cur + 1
        }
    } else {
        if cur == 0 {
            3
        } else {
            cur - 1
        }
    };
    assert(trg as int == target_rotation(old(piece).rotation as int, clockwise));
    if try_pose_piece(pf, piece, piece.position, trg) {
        proof {
            assert(*piece == rotation_candidate(*old(piece), clockwise, 0));
            assert(!overlaps(pf@, rotation_candidate(*old(piece), clockwise, 0)));
            lemma_placed_bounds(pf@, *piece);
        }
        return true;
    }
    let kicks: [Vec2; 4] = if clockwise {
        proof {
            assert(old(piece).piece_data.spec_states()[cur as int].wf());
        }
        *piece.piece_data.state(cur).kick_tests()
    } else {
        proof {
            assert(old(piece).piece_data.spec_states()[trg as int].wf());
        }
        neg_kicks(piece.piece_data.state(trg).kick_tests())
    };
    assert(forall|i: int|
        0 <= i < 4 ==> (#[trigger] kicks[i]) == rotation_kick(*old(piece), clockwise, i));
    let mut k: usize = 0;
    while k < 4
        invariant
            k <= 4,
            *piece == *old(piece),
            old(piece).wf(),
            -3 <= old(piece).position.x <= 9,
            -3 <= old(piece).position.y <= 39,
            trg < 4,
            trg as int == target_rotation(old(piece).rotation as int, clockwise),
            forall|i: int|
                0 <= i < 4 ==> (#[trigger] kicks[i]) == rotation_kick(*old(piece), clockwise, i),
            forall|j: int|
                0 <= j <= k ==> overlaps(pf@, rotation_candidate(*old(piece), clockwise, j)),
        decreases 4 - k,
    {
        let t = kicks[k];
        proof {
            assert(old(piece).piece_data.spec_states()[old(piece).rotation as int].wf());
            assert(old(piece).piece_data.spec_states()[trg as int].wf());
        }
        let pos = Vec2 { x: piece.position.x + t.x, y: piece.position.y + t.y };
        if try_pose_piece(pf, piece, pos, trg) {
            proof {
                assert(*piece == rotation_candidate(*old(piece), clockwise, k + 1));
                assert(!overlaps(pf@, rotation_candidate(*old(piece), clockwise, k + 1)));
                lemma_placed_bounds(pf@, *piece);
            }
            return true;
        }
        proof {
            assert(overlaps(pf@, rotation_candidate(*old(piece), clockwise, k + 1)));
        }
        k += 1;
    }
    proof {
        assert(forall|j: int|
            0 <= j < 5 ==> overlaps(pf@, rotation_candidate(*old(piece), clockwise, j)));
    }
    false
}

/// The whole game state: playfield, active piece, lookahead queue,
/// hold slot, and the bag randomizer.
pub struct Game {
    playfield: Playfield,
    active_piece: ActivePiece,
    next_pieces: VecDeque<PieceData>,
    held_piece: Option<PieceData>,
    used_hold: bool,
    rng: RandomGenerator,
}

/// The column a piece of the given kind spawns at: size-2 pieces at
/// column 4, larger pieces at column 3, centering them on the field.
pub open spec fn spawn_x(k: PieceData) -> int {
    if k.spec_size() == 2 {
        4
    } else {
        3
    }
}

/// The pose a fresh piece is first placed in: default rotation, one
/// row above the visible area.
pub open spec fn spawn_start(k: PieceData) -> ActivePiece {
    ActivePiece {
        piece_data: k,
        rotation: 0,
        position: Vec2 { x: spawn_x(k) as i8, y: 19 },
    }
}

/// Where a freshly drawn piece ends up: every kind but the size-4 one
/// immediately tries a single row drop, which commits exactly when the
/// dropped pose does not overlap.
pub open spec fn spawned_piece(g: Seq<Seq<Color>>, k: PieceData) -> ActivePiece {
    let p0 = spawn_start(k);
    let p1 = translated(p0, 0, 1);
    if k.spec_size() < 4 && !overlaps(g, p1) {
        p1
    } else {
        p0
    }
}

impl Game {
    /// The playfield grid.
    pub closed spec fn spec_playfield(self) -> Seq<Seq<Color>> {
        self.playfield@
    }

    /// The active piece.
    pub closed spec fn spec_active(self) -> ActivePiece {
        self.active_piece
    }

    /// The lookahead queue, front first.
    pub closed spec fn spec_queue(self) -> Seq<PieceData> {
        self.next_pieces@
    }

    /// The held piece, if any.
    pub closed spec fn spec_held(self) -> Option<PieceData> {
        self.held_piece
    }

    /// Whether hold was already used since the last lock.
    pub closed spec fn spec_used_hold(self) -> bool {
        self.used_hold
    }

    /// The bag randomizer.
    pub closed spec fn spec_rng(self) -> RandomGenerator {
        self.rng
    }

    /// The game's invariant: a well-formed active piece within the
    /// position window, a full lookahead queue of well-formed pieces,
    /// a well-formed hold slot, and a sound randomizer.
    pub open spec fn inv(self) -> bool {
        &&& self.spec_active().wf()
        &&& -3 <= self.spec_active().position.x <= 9
        &&& -3 <= self.spec_active().position.y <= 39
        &&& self.spec_queue().len() == 8
        &&& forall|i: int| 0 <= i < 8 ==> (#[trigger] self.spec_queue()[i]).wf()
        &&& match self.spec_held() {
            Some(p) => p.wf(),
            None => true,
        }
        &&& self.spec_rng().inv()
    }

    /// The active piece does not overlap the playfield.
    pub open spec fn piece_placed(self) -> bool {
        !overlaps(self.spec_playfield(), self.spec_active())
    }

    /// Everything but the active piece's pose is unchanged between the
    /// two states.
    pub open spec fn same_except_active(a: Game, b: Game) -> bool {
        &&& b.spec_playfield() == a.spec_playfield()
        &&& b.spec_queue() == a.spec_queue()
        &&& b.spec_held() == a.spec_held()
        &&& b.spec_used_hold() == a.spec_used_hold()
        &&& b.spec_rng() == a.spec_rng()
        &&& b.spec_active().piece_data == a.spec_active().piece_data
    }

    /// Builds a game around the given randomizer: an empty playfield,
    /// a full lookahead queue, and the first piece already spawned.
    fn init(generator: RandomGenerator) -> (r: Game)
        requires
            generator.inv(),
        ensures
            r.inv(),
            r.piece_placed(),
            grid_empty(r.spec_playfield()),
            r.spec_held() is None,
            !r.spec_used_hold(),
            r.spec_active() == spawned_piece(r.spec_playfield(), r.spec_active().piece_data),
    {
        let mut generator = generator;
        let first = generator.next_piece();
        let mut queue: VecDeque<PieceData> = VecDeque::new();
        let mut i: usize = 0;
        while i < 8
            invariant
                i <= 8,
                queue@.len() == i,
                generator.inv(),
                forall|a: int| 0 <= a < i ==> (#[trigger] queue@[a]).wf(),
            decreases 8 - i,
        {
            let d = generator.next_piece();
            queue.push_back(d);
            i += 1;
        }
        let mut game = Game {
            playfield: Playfield::new(),
            active_piece: ActivePiece::new(first, Vec2 { x: 3, y: 19 }),
            next_pieces: queue,
            held_piece: None,
            used_hold: false,
            rng: generator,
        };
        proof {
            lemma_spawn_on_empty(game.spec_playfield(), first);
        }
        game.spawn_new_piece(first);
        game
    }

    /// Creates a new game with an empty playfield, a seeded lookahead
    /// queue, and an active piece already placed on the field, drawing
    /// from the operating system's entropy source.
    pub fn new() -> (r: Game)
        ensures
            r.inv(),
            r.piece_placed(),
            grid_empty(r.spec_playfield()),
            r.spec_held() is None,
            !r.spec_used_hold(),
            r.spec_active() == spawned_piece(r.spec_playfield(), r.spec_active().piece_data),
    {
        Game::init(RandomGenerator::new())
    }

    /// Like [`Game::new`], but every draw is fixed by the given seed,
    /// for reproducible play and testing.
    pub fn from_seed(seed: u64) -> (r: Game)
        ensures
            r.inv(),
            r.piece_placed(),
            grid_empty(r.spec_playfield()),
            r.spec_held() is None,
            !r.spec_used_hold(),
            r.spec_active() == spawned_piece(r.spec_playfield(), r.spec_active().piece_data),
    {
        Game::init(RandomGenerator::from_seed(seed))
    }

    /// Tries to move the active piece one column left. Commits exactly
    /// when the moved pose does not overlap; a failing move changes
    /// nothing.
    pub fn move_left(&mut self) -> (r: bool)
        requires
            old(self).inv(),
        ensures
            final(self).inv(),
            Game::same_except_active(*old(self), *final(self)),
            r == !overlaps(old(self).spec_playfield(), translated(old(self).spec_active(), -1, 0)),
            r ==> final(self).spec_active() == translated(old(self).spec_active(), -1, 0)
                && final(self).piece_placed(),
            !r ==> *final(self) == *old(self),
    {
        try_move_piece(&self.playfield, &mut self.active_piece, -1, 0)
    }

    /// Tries to move the active piece one column right. Commits
    /// exactly when the moved pose does not overlap; a failing move
    /// changes nothing.
    pub fn move_right(&mut self) -> (r: bool)
        requires
            old(self).inv(),
        ensures
            final(self).inv(),
            Game::same_except_active(*old(self), *final(self)),
            r == !overlaps(old(self).spec_playfield(), translated(old(self).spec_active(), 1, 0)),
            r ==> final(self).spec_active() == translated(old(self).spec_active(), 1, 0)
                && final(self).piece_placed(),
            !r ==> *final(self) == *old(self),
    {
        try_move_piece(&self.playfield, &mut self.active_piece, 1, 0)
    }

    /// Tries to move the active piece one row down. A failure means
    /// the piece has landed; a failing move changes nothing.
    pub fn move_down(&mut self) -> (r: bool)
        requires
            old(self).inv(),
        ensures
            final(self).inv(),
            Game::same_except_active(*old(self), *final(self)),
            r == !overlaps(old(self).spec_playfield(), translated(old(self).spec_active(), 0, 1)),
            r ==> final(self).spec_active() == translated(old(self).spec_active(), 0, 1)
                && final(self).piece_placed(),
            !r ==> *final(self) == *old(self),
    {
        try_move_piece(&self.playfield, &mut self.active_piece, 0, 1)
    }

    /// Tries to rotate the active piece counter-clockwise, kicking per
    /// the target state's negated table. A total failure changes
    /// nothing.
    pub fn rotate_left(&mut self) -> (r: bool)
        requires
            old(self).inv(),
        ensures
            final(self).inv(),
            Game::same_except_active(*old(self), *final(self)),
            r == (exists|k: int|
                0 <= k < 5 && !overlaps(
                    old(self).spec_playfield(),
                    rotation_candidate(old(self).spec_active(), false, k),
                )),
            r ==> (exists|k: int|
                {
                    &&& 0 <= k < 5
                    &&& !overlaps(
                        old(self).spec_playfield(),
                        rotation_candidate(old(self).spec_active(), false, k),
                    )
                    &&& forall|j: int|
                        0 <= j < k ==> overlaps(
                            old(self).spec_playfield(),
                            rotation_candidate(old(self).spec_active(), false, j),
                        )
                    &&& final(self).spec_active() == rotation_candidate(
                        old(self).spec_active(),
                        false,
                        k,
                    )
                }),
            r ==> final(self).piece_placed(),
            !r ==> *final(self) == *old(self),
    {
        rotate_piece(&self.playfield, &mut self.active_piece, false)
    }

    /// Tries to rotate the active piece clockwise, kicking per the
    /// current state's table. A total failure changes nothing.
    pub fn rotate_right(&mut self) -> (r: bool)
        requires
            old(self).inv(),
        ensures
            final(self).inv(),
            Game::same_except_active(*old(self), *final(self)),
            r == (exists|k: int|
                0 <= k < 5 && !overlaps(
                    old(self).spec_playfield(),
                    rotation_candidate(old(self).spec_active(), true, k),
                )),
            r ==> (exists|k: int|
                {
                    &&& 0 <= k < 5
                    &&& !overlaps(
                        old(self).spec_playfield(),
                        rotation_candidate(old(self).spec_active(), true, k),
                    )
                    &&& forall|j: int|
                        0 <= j < k ==> overlaps(
                            old(self).spec_playfield(),
                            rotation_candidate(old(self).spec_active(), true, j),
                        )
                    &&& final(self).spec_active() == rotation_candidate(
                        old(self).spec_active(),
                        true,
                        k,
                    )
                }),
            r ==> final(self).piece_placed(),
            !r ==> *final(self) == *old(self),
    {
        rotate_piece(&self.playfield, &mut self.active_piece, true)
    }

    /// Drops the piece to the lowest non-overlapping row in a single
    /// call. Locking stays a separate, explicit step.
    pub fn quick_drop(&mut self)
        requires
            old(self).inv(),
        ensures
            final(self).inv(),
            Game::same_except_active(*old(self), *final(self)),
            final(self).spec_active().rotation == old(self).spec_active().rotation,
            final(self).spec_active().position.x == old(self).spec_active().position.x,
            final(self).spec_active().position.y >= old(self).spec_active().position.y,
            overlaps(old(self).spec_playfield(), translated(final(self).spec_active(), 0, 1)),
            forall|dy: int|
                0 < dy <= final(self).spec_active().position.y - old(
                    self,
                ).spec_active().position.y ==> !overlaps(
                    old(self).spec_playfield(),
                    translated(old(self).spec_active(), 0, dy),
                ),
            final(self).spec_active().position.y > old(self).spec_active().position.y
                ==> final(self).spec_active() == translated(
                old(self).spec_active(),
                0,
                final(self).spec_active().position.y - old(self).spec_active().position.y,
            ) && final(self).piece_placed(),
            final(self).spec_active().position.y == old(self).spec_active().position.y
                ==> *final(self) == *old(self),
    {
        loop
            invariant_except_break
                self.inv(),
                Game::same_except_active(*old(self), *self),
                self.spec_active().rotation == old(self).spec_active().rotation,
                self.spec_active().position.x == old(self).spec_active().position.x,
                self.spec_active().position.y >= old(self).spec_active().position.y,
                forall|dy: int|
                    0 < dy <= self.spec_active().position.y - old(self).spec_active().position.y
                        ==> !overlaps(
                        old(self).spec_playfield(),
                        translated(old(self).spec_active(), 0, dy),
                    ),
                self.spec_active().position.y > old(self).spec_active().position.y
                    ==> self.spec_active() == translated(
                    old(self).spec_active(),
                    0,
                    self.spec_active().position.y - old(self).spec_active().position.y,
                ) && self.piece_placed(),
                self.spec_active().position.y == old(self).spec_active().position.y ==> *self
                    == *old(self),
            ensures
                self.inv(),
                Game::same_except_active(*old(self), *self),
                self.spec_active().rotation == old(self).spec_active().rotation,
                self.spec_active().position.x == old(self).spec_active().position.x,
                self.spec_active().position.y >= old(self).spec_active().position.y,
                overlaps(self.spec_playfield(), translated(self.spec_active(), 0, 1)),
                forall|dy: int|
                    0 < dy <= self.spec_active().position.y - old(self).spec_active().position.y
                        ==> !overlaps(
                        old(self).spec_playfield(),
                        translated(old(self).spec_active(), 0, dy),
                    ),
                self.spec_active().position.y > old(self).spec_active().position.y
                    ==> self.spec_active() == translated(
                    old(self).spec_active(),
                    0,
                    self.spec_active().position.y - old(self).spec_active().position.y,
                ) && self.piece_placed(),
                self.spec_active().position.y == old(self).spec_active().position.y ==> *self
                    == *old(self),
            decreases 39 - self.spec_active().position.y,
        {
            if !self.move_down() {
                break;
            }
        }
    }

    /// Pops the queue's front and refills its tail from the
    /// randomizer, keeping the queue's length constant.
    fn pop_next_piece(&mut self) -> (r: PieceData)
        requires
            old(self).inv(),
        ensures
            final(self).inv(),
            r == old(self).spec_queue()[0],
            r.wf(),
            final(self).spec_queue().len() == 8,
            final(self).spec_queue().subrange(0, 7) == old(self).spec_queue().subrange(1, 8),
            final(self).spec_queue()[7].wf(),
            final(self).spec_playfield() == old(self).spec_playfield(),
            final(self).spec_active() == old(self).spec_active(),
            final(self).spec_held() == old(self).spec_held(),
            final(self).spec_used_hold() == old(self).spec_used_hold(),
    {
        let next = self.next_pieces.pop_front().unwrap();
        let d = self.rng.next_piece();
        self.next_pieces.push_back(d);
        proof {
            assert(old(self).spec_queue()[0].wf());
            assert(final(self).spec_queue().subrange(0, 7) =~= old(self).spec_queue().subrange(
                1,
                8,
            ));
            assert(forall|i: int| 0 <= i < 8 ==> (#[trigger] self.spec_queue()[i]).wf());
        }
        next
    }

    /// Replaces the active piece with a freshly spawned one of the
    /// given kind. Returns whether the spawned pose is collision-free;
    /// `false` is the game-over signal.
    fn spawn_new_piece(&mut self, new_piece: PieceData) -> (r: bool)
        requires
            old(self).inv(),
            new_piece.wf(),
        ensures
            final(self).inv(),
            final(self).spec_playfield() == old(self).spec_playfield(),
            final(self).spec_queue() == old(self).spec_queue(),
            final(self).spec_held() == old(self).spec_held(),
            final(self).spec_used_hold() == old(self).spec_used_hold(),
            final(self).spec_rng() == old(self).spec_rng(),
            final(self).spec_active() == spawned_piece(old(self).spec_playfield(), new_piece),
            r == !overlaps(old(self).spec_playfield(), final(self).spec_active()),
    {
        let size = new_piece.size();
        let x: i8 = if size == 2 {
            4
        } else {
            3
        };
        self.active_piece = ActivePiece::new(new_piece, Vec2 { x, y: 19 });
        proof {
            assert(self.spec_active() == spawn_start(new_piece));
        }
        if size < 4 {
            try_move_piece(&self.playfield, &mut self.active_piece, 0, 1);
        }
        proof {
            assert(self.spec_active() == spawned_piece(old(self).spec_playfield(), new_piece));
        }
        !self.playfield.has_overlap(&self.active_piece)
    }

    /// Holds the active piece's kind, swapping in the held piece if
    /// there is one, else the queue's front. Fails with no effect if
    /// hold was already used since the last lock.
    pub fn hold_piece(&mut self) -> (r: bool)
        requires
            old(self).inv(),
        ensures
            final(self).inv(),
            r == !old(self).spec_used_hold(),
            !r ==> *final(self) == *old(self),
            r ==> {
                &&& final(self).spec_used_hold()
                &&& final(self).spec_held() == Some(old(self).spec_active().piece_data)
                &&& final(self).spec_playfield() == old(self).spec_playfield()
                &&& match old(self).spec_held() {
                    Some(h) => final(self).spec_active() == spawned_piece(
                        old(self).spec_playfield(),
                        h,
                    ) && final(self).spec_queue() == old(self).spec_queue(),
                    None => final(self).spec_active() == spawned_piece(
                        old(self).spec_playfield(),
                        old(self).spec_queue()[0],
                    ) && final(self).spec_queue().len() == 8 && final(self).spec_queue().subrange(
                        0,
                        7,
                    ) == old(self).spec_queue().subrange(1, 8) && final(self).spec_queue()[7].wf(),
                }
            },
    {
        if self.used_hold {
            return false;
        }
        let to_hold = self.active_piece.piece_data;
        match self.held_piece {
            Some(held) => {
                self.held_piece = None;
                self.spawn_new_piece(held);
            },
            None => {
                let next = self.pop_next_piece();
                self.spawn_new_piece(next);
            },
        }
        self.used_hold = true;
        self.held_piece = Some(to_hold);
        true
    }

    /// Stamps the active piece into the playfield, with no further
    /// actions.
    pub fn lock_down_piece(&mut self)
        requires
            old(self).inv(),
        ensures
            final(self).inv(),
            final(self).spec_playfield() == stamp(
                old(self).spec_playfield(),
                old(self).spec_active(),
            ),
            final(self).spec_active() == old(self).spec_active(),
            final(self).spec_queue() == old(self).spec_queue(),
            final(self).spec_held() == old(self).spec_held(),
            final(self).spec_used_hold() == old(self).spec_used_hold(),
            final(self).spec_rng() == old(self).spec_rng(),
    {
        self.playfield.copy_in_piece(&self.active_piece)
    }

    /// Clears all completed lines and returns how many were cleared.
    pub fn clear_completed_lines(&mut self) -> (r: usize)
        requires
            old(self).inv(),
        ensures
            final(self).inv(),
            r == cleared_count(old(self).spec_playfield()),
            final(self).spec_playfield() == cleared_grid(old(self).spec_playfield()),
            final(self).spec_active() == old(self).spec_active(),
            final(self).spec_queue() == old(self).spec_queue(),
            final(self).spec_held() == old(self).spec_held(),
            final(self).spec_used_hold() == old(self).spec_used_hold(),
            final(self).spec_rng() == old(self).spec_rng(),
    {
        self.playfield.clear_completed_lines()
    }

    /// Locks the active piece into the playfield, clears completed
    /// lines, resets the hold flag, and spawns the queue's front.
    /// `Some` carries the cleared-line count; `None` signals game
    /// over: the new piece cannot be placed without overlap.
    pub fn finish_piece_turn(&mut self) -> (r: Option<usize>)
        requires
            old(self).inv(),
        ensures
            final(self).inv(),
            !final(self).spec_used_hold(),
            final(self).spec_held() == old(self).spec_held(),
            final(self).spec_queue().len() == 8,
            final(self).spec_queue().subrange(0, 7) == old(self).spec_queue().subrange(1, 8),
            ({
                let stamped = stamp(old(self).spec_playfield(), old(self).spec_active());
                let cleared = cleared_grid(stamped);
                let head = old(self).spec_queue()[0];
                &&& final(self).spec_playfield() == cleared
                &&& final(self).spec_active() == spawned_piece(cleared, head)
                &&& r == (if !overlaps(cleared, spawned_piece(cleared, head)) {
                    Some(cleared_count(stamped) as usize)
                } else {
                    None::<usize>
                })
                &&& r is Some ==> final(self).piece_placed()
            }),
    {
        self.lock_down_piece();
        let next = self.pop_next_piece();
        self.used_hold = false;
        let cleared = self.clear_completed_lines();
        if self.spawn_new_piece(next) {
            Some(cleared)
        } else {
            None
        }
    }

    /// The playfield.
    pub fn playfield(&self) -> (r: &Playfield)
        ensures
            r@ == self.spec_playfield(),
    {
        &self.playfield
    }

    /// The active piece.
    pub fn active_piece(&self) -> (r: &ActivePiece)
        ensures
            *r == self.spec_active(),
    {
        &self.active_piece
    }

    /// The queue of upcoming pieces, front first.
    pub fn next_pieces(&self) -> (r: &VecDeque<PieceData>)
        ensures
            r@ == self.spec_queue(),
    {
        &self.next_pieces
    }

    /// The held piece, if any.
    pub fn held_piece(&self) -> (r: Option<&PieceData>)
        ensures
            (r is Some) == (self.spec_held() is Some),
            r matches Some(p) ==> self.spec_held() matches Some(q) && *p == q,
    {
        match &self.held_piece {
            Some(p) => Some(p),
            None => None,
        }
    }
}

impl Default for Game {
    /// A new entropy-seeded game; see [`Game::new`].
    fn default() -> (r: Game)
        ensures
            r.inv(),
            r.piece_placed(),
            grid_empty(r.spec_playfield()),
            r.spec_held() is None,
            !r.spec_used_hold(),
    {
        Game::new()
    }
}

/// Bag fairness: a refilled bag is a permutation of all 7 kind
/// indices, and the 7 draws that empty it take its entries one by
/// one; so every kind below 7 stands at exactly one draw position of
/// those 7 draws.
pub proof fn lemma_bag_fairness(bag: Seq<usize>)
    requires
        bag_is_permutation(bag),
    ensures
        forall|k: usize| k < 7 ==> #[trigger] bag.contains(k),
        forall|i: int, j: int| 0 <= i < j < 7 ==> bag[i] != bag[j],
{
    assert forall|k: usize| k < 7 implies #[trigger] bag.contains(k) by {
        let b0 = bag[0];
        let b1 = bag[1];
        let b2 = bag[2];
        let b3 = bag[3];
        let b4 = bag[4];
        let b5 = bag[5];
        let b6 = bag[6];
        if b0 != k && b1 != k && b2 != k && b3 != k && b4 != k && b5 != k && b6 != k {
            assert(false);
        }
    }
}

/// How often kind `k` occurs in a sequence of drawn kind indices.
pub open spec fn kind_count(s: Seq<usize>, k: usize) -> nat {
    s.filter(|v: usize| v == k).len()
}

/// A sequence without an occurrence of `k` counts zero.
proof fn lemma_kind_count_none(s: Seq<usize>, k: usize)
    requires
        forall|i: int| 0 <= i < s.len() ==> (#[trigger] s[i]) != k,
    ensures
        kind_count(s, k) == 0,
    decreases s.len(),
{
    reveal_with_fuel(Seq::filter, 2);
    if s.len() == 0 {
    } else {
        assert(forall|i: int|
            0 <= i < s.len() - 1 ==> (#[trigger] s.drop_last()[i]) == s[i]);
        lemma_kind_count_none(s.drop_last(), k);
        assert(s.last() != k);
    }
}

/// A sequence in which `k` occurs at exactly one position counts one.
proof fn lemma_kind_count_unique(s: Seq<usize>, k: usize)
    requires
        exists|i: int| 0 <= i < s.len() && s[i] == k,
        forall|i: int, j: int|
            0 <= i < s.len() && 0 <= j < s.len() && s[i] == k && s[j] == k ==> i == j,
    ensures
        kind_count(s, k) == 1,
    decreases s.len(),
{
    reveal_with_fuel(Seq::filter, 2);
    let i = choose|i: int| 0 <= i < s.len() && s[i] == k;
    assert(forall|a: int| 0 <= a < s.len() - 1 ==> (#[trigger] s.drop_last()[a]) == s[a]);
    if s.last() == k {
        assert(i == s.len() - 1);
        assert(forall|a: int| 0 <= a < s.len() - 1 ==> (#[trigger] s.drop_last()[a]) != k);
        lemma_kind_count_none(s.drop_last(), k);
    } else {
        assert(0 <= i < s.len() - 1);
        assert(s.drop_last()[i] == k);
        lemma_kind_count_unique(s.drop_last(), k);
    }
}

/// One full bag draws each kind exactly once.
pub proof fn lemma_bag_kind_count(bag: Seq<usize>, k: usize)
    requires
        bag_is_permutation(bag),
        k < 7,
    ensures
        kind_count(bag, k) == 1,
{
    lemma_bag_fairness(bag);
    assert(bag.contains(k));
    assert forall|i: int, j: int|
        0 <= i < bag.len() && 0 <= j < bag.len() && bag[i] == k && bag[j] == k implies i == j by {
        if i < j {
            assert(bag[i] != bag[j]);
        }
        if j < i {
            assert(bag[j] != bag[i]);
        }
    }
    lemma_kind_count_unique(bag, k);
}

/// A partial bag draws each kind at most once.
pub proof fn lemma_partial_bag_kind_count(bag: Seq<usize>, n: int, k: usize)
    requires
        bag_is_permutation(bag),
        0 <= n <= 7,
        k < 7,
    ensures
        kind_count(bag.subrange(0, n), k) <= 1,
{
    let part = bag.subrange(0, n);
    if exists|i: int| 0 <= i < part.len() && part[i] == k {
        assert forall|i: int, j: int|
            0 <= i < part.len() && 0 <= j < part.len() && part[i] == k && part[j] == k implies i
            == j by {
            if i < j {
                assert(bag[i] != bag[j]);
            }
            if j < i {
                assert(bag[j] != bag[i]);
            }
        }
        lemma_kind_count_unique(part, k);
    } else {
        assert(forall|i: int| 0 <= i < part.len() ==> (#[trigger] part[i]) != k);
        lemma_kind_count_none(part, k);
    }
}

/// The kind indices that a run of bags supplies, bag after bag. The
/// draws of one bag are exactly its entries (taken back to front), so
/// counts over this sequence are counts over the draws.
pub open spec fn concat_bags(bags: Seq<Seq<usize>>) -> Seq<usize>
    decreases bags.len(),
{
    if bags.len() == 0 {
        Seq::empty()
    } else {
        concat_bags(bags.drop_last()) + bags.last()
    }
}

/// Bag fairness over whole runs: over any `N` full bags, each kind is
/// drawn exactly `N` times.
pub proof fn lemma_bags_fair_counts(bags: Seq<Seq<usize>>, k: usize)
    requires
        k < 7,
        forall|b: int| 0 <= b < bags.len() ==> bag_is_permutation(#[trigger] bags[b]),
    ensures
        kind_count(concat_bags(bags), k) == bags.len(),
    decreases bags.len(),
{
    if bags.len() == 0 {
        assert(forall|i: int|
            0 <= i < concat_bags(bags).len() ==> (#[trigger] concat_bags(bags)[i]) != k);
        lemma_kind_count_none(concat_bags(bags), k);
    } else {
        assert(forall|b: int|
            0 <= b < bags.len() - 1 ==> (#[trigger] bags.drop_last()[b]) == bags[b]);
        lemma_bags_fair_counts(bags.drop_last(), k);
        lemma_bag_kind_count(bags.last(), k);
        assert(concat_bags(bags) == concat_bags(bags.drop_last()) + bags.last());
    }
}

/// Bag fairness with a trailing partial bag: over `N` full bags and
/// any prefix of the next one, each kind's draw count is within one
/// of `N`.
pub proof fn lemma_bag_counts_within_one(
    bags: Seq<Seq<usize>>,
    next: Seq<usize>,
    n: int,
    k: usize,
)
    requires
        k < 7,
        forall|b: int| 0 <= b < bags.len() ==> bag_is_permutation(#[trigger] bags[b]),
        bag_is_permutation(next),
        0 <= n <= 7,
    ensures
        bags.len() <= kind_count(concat_bags(bags) + next.subrange(0, n), k) <= bags.len() + 1,
{
    lemma_bags_fair_counts(bags, k);
    lemma_partial_bag_kind_count(next, n, k);
}

/// Spawning on an empty playfield never overlaps: every cell of the
/// spawn pose, dropped one row or not, lies inside the grid on an
/// empty cell.
pub proof fn lemma_spawn_on_empty(g: Seq<Seq<Color>>, k: PieceData)
    requires
        k.wf(),
        grid_empty(g),
    ensures
        !overlaps(g, spawn_start(k)),
        !overlaps(g, translated(spawn_start(k), 0, 1)),
        !overlaps(g, spawned_piece(g, k)),
{
    let p0 = spawn_start(k);
    let p1 = translated(p0, 0, 1);
    assert(k.spec_states()[0].wf());
    assert forall|i: int, j: int|
        0 <= i < 4 && 0 <= j < 4 && p0.cell(i, j) implies !occupied_at(
        g,
        p0.position.x + i,
        p0.position.y + j,
    ) && !occupied_at(g, p1.position.x + i, p1.position.y + j) by {
        assert(i < k.spec_size() && j < k.spec_size());
        assert(0 <= p0.position.x + i < 10);
        assert(19 <= p0.position.y + j < 25);
    }
    assert(!overlaps(g, p0));
    assert(!overlaps(g, p1));
}

} // verus!
