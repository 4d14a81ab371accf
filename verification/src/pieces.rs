//! The immutable piece table: for each of the 7 tetromino kinds, the 4
//! rotation-state occupancy matrices and the kick-offset tables tried
//! when a bare rotation is blocked.

use crate::misc::{Color, Vec2};
use vstd::prelude::*;

mod pieces_def;

verus! {

/// A 4x4 boolean occupancy grid; the first index is the column, the
/// second the row.
pub type PieceBoolMatrix = [[bool; 4]; 4];

/// The number of distinct tetromino kinds.
pub const PIECE_COUNT: usize = 7;

/// The occupancy matrix of one rotation state, together with the edge
/// of the piece's bounding box (2, 3, or 4). Only cells inside the
/// size x size submatrix may be set.
#[derive(Clone, Copy)]
pub struct PieceMatrix {
    cells: [[bool; 4]; 4],
    size: u8,
}

/// One rotation state of a piece: its matrix and the ordered kick
/// offsets tried, beyond the bare rotation, when rotating clockwise
/// out of this state. Counter-clockwise rotation reuses the target
/// state's table with every offset negated.
#[derive(Clone, Copy)]
pub struct PieceState {
    matrix: PieceMatrix,
    kick_tests: [Vec2; 4],
}

/// One tetromino kind: its 4 rotation states and its display color.
#[derive(Clone, Copy)]
pub struct PieceData {
    states: [PieceState; 4],
    color: Color,
}

impl PieceMatrix {
    /// Whether the cell at column `x`, row `y` is occupied.
    pub closed spec fn cell(self, x: int, y: int) -> bool
        recommends
            0 <= x < 4,
            0 <= y < 4,
    {
        self.cells[x][y]
    }

    /// The edge of the bounding box this matrix was built for.
    pub closed spec fn spec_size(self) -> int {
        self.size as int
    }

    /// A matrix is well formed when its size tag is 2, 3, or 4 and no
    /// cell outside the size x size submatrix is set.
    pub open spec fn wf(self) -> bool {
        &&& 2 <= self.spec_size() <= 4
        &&& forall|x: int, y: int|
            0 <= x < 4 && 0 <= y < 4 && self.cell(x, y) ==> x < self.spec_size() && y
                < self.spec_size()
    }

    /// At least one cell is occupied.
    pub open spec fn nonempty(self) -> bool {
        exists|x: int, y: int| 0 <= x < 4 && 0 <= y < 4 && self.cell(x, y)
    }

    /// `self` is `other` rotated 90 degrees clockwise about the
    /// bounding box: the cell at column `x`, row `y` comes from
    /// `other`'s column `y`, row `size - 1 - x`.
    pub open spec fn is_cw_rotation_of(self, other: PieceMatrix) -> bool {
        &&& self.spec_size() == other.spec_size()
        &&& forall|x: int, y: int|
            0 <= x < 4 && 0 <= y < 4 ==> self.cell(x, y) == (x < self.spec_size() && y
                < self.spec_size() && other.cell(y, self.spec_size() - 1 - x))
    }

    /// An empty matrix with the smallest size tag.
    fn empty() -> (r: PieceMatrix)
        ensures
            r.spec_size() == 2,
            forall|x: int, y: int| 0 <= x < 4 && 0 <= y < 4 ==> !r.cell(x, y),
    {
        PieceMatrix { cells: [[false; 4]; 4], size: 2 }
    }

    /// A size-2 matrix from the given filled blocks.
    fn new_size2(bits: &[[bool; 2]; 2]) -> (r: PieceMatrix)
        ensures
            r.spec_size() == 2,
            forall|x: int, y: int|
                0 <= x < 4 && 0 <= y < 4 ==> r.cell(x, y) == (x < 2 && y < 2 && bits[x][y]),
    {
        PieceMatrix {
            cells: [
                [bits[0][0], bits[0][1], false, false],
                [bits[1][0], bits[1][1], false, false],
                [false; 4],
                [false; 4],
            ],
            size: 2,
        }
    }

    /// A size-3 matrix from the given filled blocks.
    fn new_size3(bits: &[[bool; 3]; 3]) -> (r: PieceMatrix)
        ensures
            r.spec_size() == 3,
            forall|x: int, y: int|
                0 <= x < 4 && 0 <= y < 4 ==> r.cell(x, y) == (x < 3 && y < 3 && bits[x][y]),
    {
        PieceMatrix {
            cells: [
                [bits[0][0], bits[0][1], bits[0][2], false],
                [bits[1][0], bits[1][1], bits[1][2], false],
                [bits[2][0], bits[2][1], bits[2][2], false],
                [false; 4],
            ],
            size: 3,
        }
    }

    /// A size-4 matrix from the given filled blocks.
    fn new_size4(bits: &[[bool; 4]; 4]) -> (r: PieceMatrix)
        ensures
            r.spec_size() == 4,
            forall|x: int, y: int| 0 <= x < 4 && 0 <= y < 4 ==> r.cell(x, y) == bits[x][y],
    {
        PieceMatrix { cells: *bits, size: 4 }
    }

    /// This matrix rotated 90 degrees clockwise about its bounding
    /// box; cells outside the size x size submatrix stay clear.
    #[verifier::rlimit(60)]
    fn rotate_right(&self) -> (r: PieceMatrix)
        requires
            self.wf(),
        ensures
            r.wf(),
            r.is_cw_rotation_of(*self),
    {
        let b = &self.cells;
        if self.size == 2 {
            PieceMatrix::new_size2(&[[b[0][1], b[1][1]], [b[0][0], b[1][0]]])
        } else if self.size == 3 {
            PieceMatrix::new_size3(
                &[
                    [b[0][2], b[1][2], b[2][2]],
                    [b[0][1], b[1][1], b[2][1]],
                    [b[0][0], b[1][0], b[2][0]],
                ],
            )
        } else {
            PieceMatrix::new_size4(
                &[
                    [b[0][3], b[1][3], b[2][3], b[3][3]],
                    [b[0][2], b[1][2], b[2][2], b[3][2]],
                    [b[0][1], b[1][1], b[2][1], b[3][1]],
                    [b[0][0], b[1][0], b[2][0], b[3][0]],
                ],
            )
        }
    }

    /// The 4x4 boolean matrix of this state.
    pub fn matrix(&self) -> (r: PieceBoolMatrix)
        ensures
            forall|x: int, y: int| 0 <= x < 4 && 0 <= y < 4 ==> r[x][y] == self.cell(x, y),
    {
        self.cells
    }

    /// The 4x4 boolean matrix of this state; an alias kept for
    /// callers that use the longer name.
    pub fn get_matrix(&self) -> (r: PieceBoolMatrix)
        ensures
            forall|x: int, y: int| 0 <= x < 4 && 0 <= y < 4 ==> r[x][y] == self.cell(x, y),
    {
        self.cells
    }
}

impl Default for PieceMatrix {
    /// A fully occupied size-4 matrix, a visible placeholder.
    fn default() -> (r: PieceMatrix)
        ensures
            r.spec_size() == 4,
            forall|x: int, y: int| 0 <= x < 4 && 0 <= y < 4 ==> r.cell(x, y),
    {
        PieceMatrix { cells: [[true; 4]; 4], size: 4 }
    }
}

impl PieceState {
    /// The occupancy matrix of this state.
    pub closed spec fn spec_matrix(self) -> PieceMatrix {
        self.matrix
    }

    /// The four kick offsets of this state, in the order they are
    /// tried.
    pub closed spec fn spec_kicks(self) -> Seq<Vec2> {
        self.kick_tests@
    }

    /// Every kick offset is small: both components lie in [-2, 2].
    pub open spec fn kicks_wf(self) -> bool {
        &&& self.spec_kicks().len() == 4
        &&& forall|i: int|
            0 <= i < 4 ==> -2 <= #[trigger] self.spec_kicks()[i].x <= 2 && -2
                <= self.spec_kicks()[i].y <= 2
    }

    /// A state is well formed when its matrix is well formed and
    /// occupies at least one cell, and its kicks are small offsets.
    pub open spec fn wf(self) -> bool {
        &&& self.spec_matrix().wf()
        &&& self.spec_matrix().nonempty()
        &&& self.kicks_wf()
    }

    /// An empty state with no useful kick data.
    pub fn empty() -> (r: PieceState)
        ensures
            r.spec_matrix().spec_size() == 2,
            forall|x: int, y: int| 0 <= x < 4 && 0 <= y < 4 ==> !r.spec_matrix().cell(x, y),
            r.spec_kicks() =~= Seq::new(4, |i: int| (Vec2 { x: 0i8, y: 0i8 })),
    {
        PieceState { matrix: PieceMatrix::empty(), kick_tests: [Vec2 { x: 0i8, y: 0i8 }; 4] }
    }

    /// The 4x4 boolean matrix of this state.
    pub fn matrix(&self) -> (r: PieceBoolMatrix)
        ensures
            forall|x: int, y: int|
                0 <= x < 4 && 0 <= y < 4 ==> r[x][y] == self.spec_matrix().cell(x, y),
    {
        self.matrix.matrix()
    }

    /// The 4x4 boolean matrix of this state; an alias kept for
    /// callers that use the longer name.
    pub fn get_matrix(&self) -> (r: PieceBoolMatrix)
        ensures
            forall|x: int, y: int|
                0 <= x < 4 && 0 <= y < 4 ==> r[x][y] == self.spec_matrix().cell(x, y),
    {
        self.matrix.matrix()
    }

    /// The kick offsets tried for this state; the bare (0, 0) attempt
    /// is implied.
    pub fn kick_tests(&self) -> (r: &[Vec2; 4])
        ensures
            r@ == self.spec_kicks(),
    {
        &self.kick_tests
    }
}

impl Default for PieceState {
    /// The placeholder matrix with all-zero kick offsets.
    fn default() -> (r: PieceState)
        ensures
            r.spec_matrix().spec_size() == 4,
            forall|x: int, y: int| 0 <= x < 4 && 0 <= y < 4 ==> r.spec_matrix().cell(x, y),
            r.spec_kicks() =~= Seq::new(4, |i: int| (Vec2 { x: 0i8, y: 0i8 })),
    {
        PieceState { matrix: PieceMatrix::default(), kick_tests: [Vec2 { x: 0i8, y: 0i8 }; 4] }
    }
}

impl PieceData {
    /// The four rotation states, in order.
    pub closed spec fn spec_states(self) -> Seq<PieceState> {
        self.states@
    }

    /// The display color of the piece.
    pub closed spec fn spec_color(self) -> Color {
        self.color
    }

    /// The bounding-box edge of the piece, read off its first state.
    pub open spec fn spec_size(self) -> int {
        self.spec_states()[0].spec_matrix().spec_size()
    }

    /// A piece is well formed when all four states are well formed,
    /// share one bounding-box size, and each state past the first is
    /// the previous state rotated clockwise.
    pub open spec fn wf(self) -> bool {
        &&& self.spec_states().len() == 4
        &&& forall|i: int| 0 <= i < 4 ==> (#[trigger] self.spec_states()[i]).wf()
        &&& forall|i: int|
            0 <= i < 4 ==> (#[trigger] self.spec_states()[i]).spec_matrix().spec_size()
                == self.spec_size()
        &&& forall|i: int|
            1 <= i < 4 ==> (#[trigger] self.spec_states()[i]).spec_matrix().is_cw_rotation_of(
                self.spec_states()[i - 1].spec_matrix(),
            )
    }

    /// Builds a piece from its base matrix, the kick table of its four
    /// states, and its display color. States 1 to 3 are derived by
    /// rotating the base clockwise, successively.
    fn new(base: PieceMatrix, kick_tests: &[[Vec2; 4]; 4], color: Color) -> (r: PieceData)
        requires
            base.wf(),
            base.nonempty(),
            forall|s: int, t: int|
                0 <= s < 4 && 0 <= t < 4 ==> -2 <= #[trigger] kick_tests[s][t].x <= 2 && -2
                    <= kick_tests[s][t].y <= 2,
        ensures
            r.wf(),
            r.spec_color() == color,
            r.spec_states()[0].spec_matrix() == base,
            forall|s: int, t: int|
                0 <= s < 4 && 0 <= t < 4 ==> #[trigger] r.spec_states()[s].spec_kicks()[t]
                    == kick_tests[s][t],
    {
        let m1 = base.rotate_right();
        let m2 = m1.rotate_right();
        let m3 = m2.rotate_right();
        proof {
            lemma_cw_rotation_preserves_nonempty(base, m1);
            lemma_cw_rotation_preserves_nonempty(m1, m2);
            lemma_cw_rotation_preserves_nonempty(m2, m3);
        }
        let s0 = PieceState { matrix: base, kick_tests: kick_tests[0] };
        let s1 = PieceState { matrix: m1, kick_tests: kick_tests[1] };
        let s2 = PieceState { matrix: m2, kick_tests: kick_tests[2] };
        let s3 = PieceState { matrix: m3, kick_tests: kick_tests[3] };
        PieceData { states: [s0, s1, s2, s3], color }
    }

    /// The table of all 7 canonical pieces, with their fixed colors
    /// and kick tables.
    pub fn create_all_pieces() -> (r: [PieceData; PIECE_COUNT])
        ensures
            all_pieces_table(r@),
    {
        pieces_def::create_all_pieces()
    }

    /// The table of all 7 canonical pieces; an alias of
    /// [`PieceData::create_all_pieces`].
    pub fn make_all_pieces() -> (r: [PieceData; PIECE_COUNT])
        ensures
            all_pieces_table(r@),
    {
        pieces_def::create_all_pieces()
    }

    /// The rotation state at `index`.
    pub fn state(&self, index: usize) -> (r: &PieceState)
        requires
            index < 4,
        ensures
            *r == self.spec_states()[index as int],
    {
        &self.states[index]
    }

    /// The array of the 4 rotation states.
    pub fn states(&self) -> (r: &[PieceState; 4])
        ensures
            r@ == self.spec_states(),
    {
        &self.states
    }

    /// The display color of the piece.
    pub fn color(&self) -> (r: Color)
        ensures
            r == self.spec_color(),
    {
        self.color
    }

    /// The bounding-box edge of the piece (2, 3, or 4).
    pub fn size(&self) -> (r: u8)
        ensures
            r == self.spec_size(),
    {
        self.states[0].matrix.size
    }

    /// The matrix of the default (spawn) rotation state.
    pub fn default_matrix(&self) -> (r: PieceBoolMatrix)
        ensures
            forall|x: int, y: int|
                0 <= x < 4 && 0 <= y < 4 ==> r[x][y] == self.spec_states()[0].spec_matrix().cell(
                    x,
                    y,
                ),
    {
        self.states[0].matrix()
    }
}

impl Default for PieceData {
    /// A black placeholder piece with four placeholder states.
    fn default() -> (r: PieceData)
        ensures
            forall|i: int|
                0 <= i < 4 ==> (#[trigger] r.spec_states()[i]).spec_matrix().spec_size() == 4,
            r.spec_color() == (Color { r: 0, g: 0, b: 0 }),
    {
        let s = PieceState::default();
        PieceData { states: [s, s, s, s], color: Color { r: 0, g: 0, b: 0 } }
    }
}

/// Rotation preserves occupancy: if `m` has an occupied cell, so has
/// any clockwise rotation of it.
pub proof fn lemma_cw_rotation_preserves_nonempty(m: PieceMatrix, r: PieceMatrix)
    requires
        m.wf(),
        m.nonempty(),
        r.is_cw_rotation_of(m),
    ensures
        r.nonempty(),
{
    let (a, b): (int, int) = choose|a: int, b: int| 0 <= a < 4 && 0 <= b < 4 && m.cell(a, b);
    let s = m.spec_size();
    assert(a < s && b < s);
    assert(r.cell(s - 1 - b, a) == m.cell(a, s - 1 - (s - 1 - b)));
    assert(r.cell(s - 1 - b, a));
}

/// The bounding-box edge of the canonical piece at index `i`: the I
/// piece spans 4, the O piece 2, the rest 3.
pub open spec fn piece_size(i: int) -> int {
    if i == 0 {
        4
    } else if i == 3 {
        2
    } else {
        3
    }
}

/// The base (spawn-state) occupancy of the canonical piece at index
/// `i`, at column `x`, row `y`. The order is I, J, L, O, S, T, Z.
pub open spec fn base_cell(i: int, x: int, y: int) -> bool {
    if i == 0 {
        0 <= x < 4 && y == 1
    } else if i == 1 {
        (x == 0 && y == 0) || (0 <= x < 3 && y == 1)
    } else if i == 2 {
        (x == 2 && y == 0) || (0 <= x < 3 && y == 1)
    } else if i == 3 {
        0 <= x < 2 && 0 <= y < 2
    } else if i == 4 {
        ((x == 1 || x == 2) && y == 0) || ((x == 0 || x == 1) && y == 1)
    } else if i == 5 {
        (x == 1 && y == 0) || (0 <= x < 3 && y == 1)
    } else {
        ((x == 0 || x == 1) && y == 0) || ((x == 1 || x == 2) && y == 1)
    }
}

/// The kick table shared by the J, L, S, T, and Z pieces: offset `t`
/// tried when rotating clockwise out of state `s`.
pub open spec fn jlstz_kick(s: int, t: int) -> Vec2 {
    if s == 0 {
        if t == 0 {
            Vec2 { x: -1i8, y: 0i8 }
        } else if t == 1 {
            Vec2 { x: -1i8, y: -1i8 }
        } else if t == 2 {
            Vec2 { x: 0i8, y: 2i8 }
        } else {
            Vec2 { x: -1i8, y: 2i8 }
        }
    } else if s == 1 {
        if t == 0 {
            Vec2 { x: 1i8, y: 0i8 }
        } else if t == 1 {
            Vec2 { x: 1i8, y: 1i8 }
        } else if t == 2 {
            Vec2 { x: 0i8, y: -2i8 }
        } else {
            Vec2 { x: 1i8, y: -2i8 }
        }
    } else if s == 2 {
        if t == 0 {
            Vec2 { x: 1i8, y: 0i8 }
        } else if t == 1 {
            Vec2 { x: 1i8, y: -1i8 }
        } else if t == 2 {
            Vec2 { x: 0i8, y: 2i8 }
        } else {
            Vec2 { x: 1i8, y: 2i8 }
        }
    } else {
        if t == 0 {
            Vec2 { x: -1i8, y: 0i8 }
        } else if t == 1 {
            Vec2 { x: -1i8, y: 1i8 }
        } else if t == 2 {
            Vec2 { x: 0i8, y: -2i8 }
        } else {
            Vec2 { x: -1i8, y: 2i8 }
        }
    }
}

/// The kick table of the I piece: offset `t` tried when rotating
/// clockwise out of state `s`.
pub open spec fn i_kick(s: int, t: int) -> Vec2 {
    if s == 0 {
        if t == 0 {
            Vec2 { x: -2i8, y: 0i8 }
        } else if t == 1 {
            Vec2 { x: 1i8, y: 0i8 }
        } else if t == 2 {
            Vec2 { x: -2i8, y: 1i8 }
        } else {
            Vec2 { x: 1i8, y: -2i8 }
        }
    } else if s == 1 {
        if t == 0 {
            Vec2 { x: -1i8, y: 0i8 }
        } else if t == 1 {
            Vec2 { x: 2i8, y: 0i8 }
        } else if t == 2 {
            Vec2 { x: -1i8, y: -2i8 }
        } else {
            Vec2 { x: 2i8, y: 1i8 }
        }
    } else if s == 2 {
        if t == 0 {
            Vec2 { x: 2i8, y: 0i8 }
        } else if t == 1 {
            Vec2 { x: -1i8, y: 0i8 }
        } else if t == 2 {
            Vec2 { x: 2i8, y: -1i8 }
        } else {
            Vec2 { x: -1i8, y: 2i8 }
        }
    } else {
        if t == 0 {
            Vec2 { x: 1i8, y: 0i8 }
        } else if t == 1 {
            Vec2 { x: -2i8, y: 0i8 }
        } else if t == 2 {
            Vec2 { x: 1i8, y: 1i8 }
        } else {
            Vec2 { x: -2i8, y: -1i8 }
        }
    }
}

/// Kick offset `t` of state `s` of the canonical piece at index `i`:
/// the I piece has its own table, the O piece never kicks, the rest
/// share one table.
pub open spec fn piece_kick(i: int, s: int, t: int) -> Vec2 {
    if i == 0 {
        i_kick(s, t)
    } else if i == 3 {
        Vec2 { x: 0i8, y: 0i8 }
    } else {
        jlstz_kick(s, t)
    }
}

/// The fixed display color of the canonical piece at index `i`.
pub open spec fn piece_color(i: int) -> Color {
    if i == 0 {
        Color { r: 0x00, g: 0xf0, b: 0xf0 }
    } else if i == 1 {
        Color { r: 0x00, g: 0x00, b: 0xf0 }
    } else if i == 2 {
        Color { r: 0xf0, g: 0xa0, b: 0x00 }
    } else if i == 3 {
        Color { r: 0xf0, g: 0xf0, b: 0x00 }
    } else if i == 4 {
        Color { r: 0x00, g: 0xf0, b: 0x00 }
    } else if i == 5 {
        Color { r: 0xa0, g: 0x00, b: 0xf0 }
    } else {
        Color { r: 0xf0, g: 0x00, b: 0x00 }
    }
}

/// The full description of the canonical piece table: 7 well-formed
/// pieces with the standard base matrices, sizes, kick tables, and
/// pairwise distinct, non-black colors.
pub open spec fn all_pieces_table(ps: Seq<PieceData>) -> bool {
    &&& ps.len() == 7
    &&& forall|i: int| 0 <= i < 7 ==> (#[trigger] ps[i]).wf()
    &&& forall|i: int| 0 <= i < 7 ==> (#[trigger] ps[i]).spec_size() == piece_size(i)
    &&& forall|i: int, x: int, y: int|
        0 <= i < 7 && 0 <= x < 4 && 0 <= y < 4
            ==> #[trigger] ps[i].spec_states()[0].spec_matrix().cell(x, y) == base_cell(i, x, y)
    &&& forall|i: int, s: int, t: int|
        0 <= i < 7 && 0 <= s < 4 && 0 <= t < 4
            ==> #[trigger] ps[i].spec_states()[s].spec_kicks()[t] == piece_kick(i, s, t)
    &&& forall|i: int| 0 <= i < 7 ==> (#[trigger] ps[i]).spec_color() == piece_color(i)
    &&& forall|i: int, j: int|
        0 <= i < 7 && 0 <= j < 7 && i != j ==> (#[trigger] ps[i]).spec_color() != (
        #[trigger] ps[j]).spec_color()
}

} // verus!
