//! Builds the canonical pieces with their fixed colors and kick
//! tables.

use super::{
    all_pieces_table, base_cell, i_kick, jlstz_kick, piece_color, piece_kick, piece_size,
    PieceData, PieceMatrix, PIECE_COUNT,
};
use crate::misc::{Color, Vec2};
use vstd::prelude::*;

verus! {

/// The kick tests of the J, L, S, T, and Z pieces.
fn create_jlstz_kick_tests() -> (r: [[Vec2; 4]; 4])
    ensures
        forall|s: int, t: int|
            0 <= s < 4 && 0 <= t < 4 ==> #[trigger] r[s][t] == jlstz_kick(s, t),
{
    [
        [
            Vec2 { x: -1, y: 0 },
            Vec2 { x: -1, y: -1 },
            Vec2 { x: 0, y: 2 },
            Vec2 { x: -1, y: 2 },
        ],
        [Vec2 { x: 1, y: 0 }, Vec2 { x: 1, y: 1 }, Vec2 { x: 0, y: -2 }, Vec2 { x: 1, y: -2 }],
        [Vec2 { x: 1, y: 0 }, Vec2 { x: 1, y: -1 }, Vec2 { x: 0, y: 2 }, Vec2 { x: 1, y: 2 }],
        [
            Vec2 { x: -1, y: 0 },
            Vec2 { x: -1, y: 1 },
            Vec2 { x: 0, y: -2 },
            Vec2 { x: -1, y: 2 },
        ],
    ]
}

/// The kick tests of the I piece.
fn create_i_kick_tests() -> (r: [[Vec2; 4]; 4])
    ensures
        forall|s: int, t: int| 0 <= s < 4 && 0 <= t < 4 ==> #[trigger] r[s][t] == i_kick(s, t),
{
    [
        [Vec2 { x: -2, y: 0 }, Vec2 { x: 1, y: 0 }, Vec2 { x: -2, y: 1 }, Vec2 { x: 1, y: -2 }],
        [
            Vec2 { x: -1, y: 0 },
            Vec2 { x: 2, y: 0 },
            Vec2 { x: -1, y: -2 },
            Vec2 { x: 2, y: 1 },
        ],
        [
            Vec2 { x: 2, y: 0 },
            Vec2 { x: -1, y: 0 },
            Vec2 { x: 2, y: -1 },
            Vec2 { x: -1, y: 2 },
        ],
        [
            Vec2 { x: 1, y: 0 },
            Vec2 { x: -2, y: 0 },
            Vec2 { x: 1, y: 1 },
            Vec2 { x: -2, y: -1 },
        ],
    ]
}

/// The all-zero kick tests of the O piece, which never kicks.
fn create_o_kick_tests() -> (r: [[Vec2; 4]; 4])
    ensures
        forall|s: int, t: int|
            0 <= s < 4 && 0 <= t < 4 ==> #[trigger] r[s][t] == (Vec2 { x: 0, y: 0 }),
{
    let z = Vec2 { x: 0, y: 0 };
    let row = [z, z, z, z];
    [row, row, row, row]
}

/// Builds the table of all canonical pieces, in the order I, J, L, O,
/// S, T, Z.
pub(crate) fn create_all_pieces() -> (r: [PieceData; PIECE_COUNT])
    ensures
        all_pieces_table(r@),
{
    let jlstz_kick_tests = create_jlstz_kick_tests();
    let i_kick_tests = create_i_kick_tests();
    let o_kick_tests = create_o_kick_tests();

    let i_base = PieceMatrix::new_size4(&[[false, true, false, false]; 4]);
    assert(forall|x: int, y: int|
        0 <= x < 4 && 0 <= y < 4 ==> i_base.cell(x, y) == base_cell(0, x, y));
    assert(i_base.cell(0, 1));
    let i_piece = PieceData::new(i_base, &i_kick_tests, Color { r: 0x00, g: 0xf0, b: 0xf0 });

    let j_base = PieceMatrix::new_size3(
        &[[true, true, false], [false, true, false], [false, true, false]],
    );
    assert(forall|x: int, y: int|
        0 <= x < 4 && 0 <= y < 4 ==> j_base.cell(x, y) == base_cell(1, x, y));
    assert(j_base.cell(0, 0));
    let j_piece = PieceData::new(j_base, &jlstz_kick_tests, Color { r: 0x00, g: 0x00, b: 0xf0 });

    let l_base = PieceMatrix::new_size3(
        &[[false, true, false], [false, true, false], [true, true, false]],
    );
    assert(forall|x: int, y: int|
        0 <= x < 4 && 0 <= y < 4 ==> l_base.cell(x, y) == base_cell(2, x, y));
    assert(l_base.cell(2, 0));
    let l_piece = PieceData::new(l_base, &jlstz_kick_tests, Color { r: 0xf0, g: 0xa0, b: 0x00 });

    let o_base = PieceMatrix::new_size2(&[[true; 2]; 2]);
    assert(forall|x: int, y: int|
        0 <= x < 4 && 0 <= y < 4 ==> o_base.cell(x, y) == base_cell(3, x, y));
    assert(o_base.cell(0, 0));
    let o_piece = PieceData::new(o_base, &o_kick_tests, Color { r: 0xf0, g: 0xf0, b: 0x00 });

    let s_base = PieceMatrix::new_size3(
        &[[false, true, false], [true, true, false], [true, false, false]],
    );
    assert(forall|x: int, y: int|
        0 <= x < 4 && 0 <= y < 4 ==> s_base.cell(x, y) == base_cell(4, x, y));
    assert(s_base.cell(1, 0));
    let s_piece = PieceData::new(s_base, &jlstz_kick_tests, Color { r: 0x00, g: 0xf0, b: 0x00 });

    let t_base = PieceMatrix::new_size3(
        &[[false, true, false], [true, true, false], [false, true, false]],
    );
    assert(forall|x: int, y: int|
        0 <= x < 4 && 0 <= y < 4 ==> t_base.cell(x, y) == base_cell(5, x, y));
    assert(t_base.cell(1, 0));
    let t_piece = PieceData::new(t_base, &jlstz_kick_tests, Color { r: 0xa0, g: 0x00, b: 0xf0 });

    let z_base = PieceMatrix::new_size3(
        &[[true, false, false], [true, true, false], [false, true, false]],
    );
    assert(forall|x: int, y: int|
        0 <= x < 4 && 0 <= y < 4 ==> z_base.cell(x, y) == base_cell(6, x, y));
    assert(z_base.cell(0, 0));
    let z_piece = PieceData::new(z_base, &jlstz_kick_tests, Color { r: 0xf0, g: 0x00, b: 0x00 });

    let table = [i_piece, j_piece, l_piece, o_piece, s_piece, t_piece, z_piece];
    assert(all_pieces_table(table@));
    table
}

} // verus!
