use tetromino_core::rotate_piece;
use tetromino_core::try_move_piece;
use tetromino_core::ActivePiece;
use tetromino_core::Color;
use tetromino_core::PieceData;
use tetromino_core::Playfield;
use tetromino_core::Vec2;

#[test]
fn tile_queries_and_bounds() {
    let mut pf = Playfield::new();
    assert!(Playfield::is_in_bounds(9, 39));
    assert!(!Playfield::is_in_bounds(10, 0));
    assert!(!Playfield::is_in_bounds(0, 40));

    // Inside the grid a fresh field is black, i.e. empty.
    assert_eq!(pf.get_tile(4, 20), Color::black());
    assert!(!pf.has_tile(4, 20));

    // Outside it every query resolves to the white sentinel and
    // counts as occupied; that alone fences the field.
    assert_eq!(pf.get_tile(10, 20), Color::white());
    assert!(pf.has_tile(10, 20));
    assert!(pf.has_tile(0, 40));

    // Writes inside the grid stick; writes outside are rejected.
    let c = Color::new(1, 2, 3);
    assert!(pf.set_tile(7, 33, c));
    assert_eq!(pf.get_tile(7, 33), c);
    assert!(pf.has_tile(7, 33));
    assert!(!pf.set_tile(10, 0, c));
}

#[test]
fn walls_block_movement() {
    let pf = Playfield::new();
    let pieces = PieceData::create_all_pieces();
    // O piece at spawn: occupies columns 4-5.
    let mut piece = ActivePiece::new(pieces[3], Vec2::new(4, 20));
    let mut lefts = 0;
    while try_move_piece(&pf, &mut piece, -1, 0) {
        lefts += 1;
    }
    assert_eq!(lefts, 4);
    assert_eq!(piece.position.x, 0);
    // A failing move leaves the piece exactly where it was.
    assert!(!try_move_piece(&pf, &mut piece, -1, 0));
    assert_eq!(piece.position.x, 0);
    assert_eq!(piece.position.y, 20);
    assert_eq!(piece.rotation, 0);
}

#[test]
fn stamping_colors_covered_cells() {
    let mut pf = Playfield::new();
    let pieces = PieceData::create_all_pieces();
    // T piece at (3, 30): cells (3,31), (4,30), (4,31), (5,31).
    let piece = ActivePiece::new(pieces[5], Vec2::new(3, 30));
    pf.copy_in_piece(&piece);
    let c = pieces[5].color();
    assert_eq!(pf.get_tile(3, 31), c);
    assert_eq!(pf.get_tile(4, 30), c);
    assert_eq!(pf.get_tile(4, 31), c);
    assert_eq!(pf.get_tile(5, 31), c);
    assert!(!pf.has_tile(3, 30));
    assert!(!pf.has_tile(5, 30));
    assert!(!pf.has_tile(4, 32));
}

#[test]
fn line_clear_compacts_two_separated_rows() {
    let mut pf = Playfield::new();
    let a = Color::new(10, 10, 10);
    let b = Color::new(20, 20, 20);
    let c = Color::new(30, 30, 30);
    let d = Color::new(40, 40, 40);
    // Row 36 full, row 37 partial, row 38 full, row 39 partial.
    for x in 0..10 {
        pf.set_tile(x, 36, a);
        pf.set_tile(x, 38, c);
    }
    for x in [0usize, 2, 4] {
        pf.set_tile(x, 37, b);
    }
    for x in [1usize, 3, 5] {
        pf.set_tile(x, 39, d);
    }

    assert_eq!(pf.clear_completed_lines(), 2);

    // The partial rows compact: the first one now sits directly above
    // the second, at the bottom of the field.
    for x in 0..10 {
        let in_b = x == 0 || x == 2 || x == 4;
        let in_d = x == 1 || x == 3 || x == 5;
        assert_eq!(pf.get_tile(x, 38), if in_b { b } else { Color::black() });
        assert_eq!(pf.get_tile(x, 39), if in_d { d } else { Color::black() });
        // Everything above is empty again.
        assert!(!pf.has_tile(x, 37));
        assert!(!pf.has_tile(x, 0));
        assert!(!pf.has_tile(x, 1));
    }
}

#[test]
fn i_piece_kick_fidelity() {
    let mut pf = Playfield::new();
    let pieces = PieceData::create_all_pieces();
    // I piece in rotation state 0 at (3, 30): a bar on row 31,
    // columns 3-6. Rotated clockwise it becomes a bar in column
    // position.x + 2.
    let mut piece = ActivePiece::new(pieces[0], Vec2::new(3, 30));

    // Block the bare rotation (column 5) and the first kick (-2, 0)
    // (column 3); the second kick (1, 0) (column 6) stays free.
    let wall = Color::new(99, 99, 99);
    pf.set_tile(5, 32, wall);
    pf.set_tile(3, 32, wall);

    assert!(rotate_piece(&pf, &mut piece, true));
    assert_eq!(piece.rotation, 1);
    assert_eq!((piece.position.x, piece.position.y), (4, 30));
}

#[test]
fn blocked_rotation_changes_nothing() {
    let mut pf = Playfield::new();
    let pieces = PieceData::create_all_pieces();
    let mut piece = ActivePiece::new(pieces[0], Vec2::new(3, 30));
    // Block every candidate column for the clockwise rotation of the
    // I piece: bare at 5, kicks (-2,0) -> 3, (1,0) -> 6, (-2,1) -> 3
    // shifted down, (1,-2) -> 6 shifted up.
    let wall = Color::new(99, 99, 99);
    for y in 25..40 {
        pf.set_tile(3, y, wall);
        pf.set_tile(5, y, wall);
        pf.set_tile(6, y, wall);
    }
    assert!(!rotate_piece(&pf, &mut piece, true));
    assert_eq!(piece.rotation, 0);
    assert_eq!((piece.position.x, piece.position.y), (3, 30));
    // The grid is untouched as well.
    assert!(!pf.has_tile(4, 31));
}
