use tetromino_core::Color;
use tetromino_core::PieceData;
use tetromino_core::Vec2;

#[test]
fn piece_table_sizes_and_colors() {
    let pieces = PieceData::create_all_pieces();
    let sizes: Vec<u8> = pieces.iter().map(|p| p.size()).collect();
    assert_eq!(sizes, vec![4, 3, 3, 2, 3, 3, 3]);

    let expected = [
        Color::new(0x00, 0xf0, 0xf0),
        Color::new(0x00, 0x00, 0xf0),
        Color::new(0xf0, 0xa0, 0x00),
        Color::new(0xf0, 0xf0, 0x00),
        Color::new(0x00, 0xf0, 0x00),
        Color::new(0xa0, 0x00, 0xf0),
        Color::new(0xf0, 0x00, 0x00),
    ];
    for (p, c) in pieces.iter().zip(expected.iter()) {
        assert_eq!(p.color(), *c);
        assert!(!p.color().is_black());
    }
}

#[test]
fn i_piece_base_and_rotated_matrices() {
    let pieces = PieceData::make_all_pieces();
    let i_piece = &pieces[0];

    // Spawn state: a horizontal bar in row 1.
    let m0 = i_piece.default_matrix();
    for x in 0..4 {
        for y in 0..4 {
            assert_eq!(m0[x][y], y == 1);
        }
    }

    // One clockwise rotation: a vertical bar in column 2.
    let m1 = i_piece.state(1).matrix();
    for x in 0..4 {
        for y in 0..4 {
            assert_eq!(m1[x][y], x == 2);
        }
    }
}

#[test]
fn t_piece_rotations() {
    let pieces = PieceData::create_all_pieces();
    let t_piece = &pieces[5];

    // Spawn state: stem up, bar across row 1.
    let m0 = t_piece.state(0).get_matrix();
    let cells0: Vec<(usize, usize)> =
        (0..4).flat_map(|x| (0..4).map(move |y| (x, y))).filter(|&(x, y)| m0[x][y]).collect();
    assert_eq!(cells0, vec![(0, 1), (1, 0), (1, 1), (2, 1)]);

    // Clockwise: stem points right.
    let m1 = t_piece.state(1).matrix();
    let cells1: Vec<(usize, usize)> =
        (0..4).flat_map(|x| (0..4).map(move |y| (x, y))).filter(|&(x, y)| m1[x][y]).collect();
    assert_eq!(cells1, vec![(1, 0), (1, 1), (1, 2), (2, 1)]);
}

#[test]
fn o_piece_is_rotation_invariant() {
    let pieces = PieceData::create_all_pieces();
    let o_piece = &pieces[3];
    let base = o_piece.state(0).matrix();
    for s in 1..4 {
        assert_eq!(o_piece.state(s).matrix(), base);
    }
    // All its kicks are (0, 0): it never kicks.
    for s in 0..4 {
        for t in o_piece.state(s).kick_tests().iter() {
            assert_eq!((t.x, t.y), (0, 0));
        }
    }
}

#[test]
fn published_kick_tables() {
    let pieces = PieceData::create_all_pieces();

    // J, L, S, T, Z share one table; spot-check state 0 and state 2.
    for idx in [1usize, 2, 4, 5, 6] {
        let p = &pieces[idx];
        let k0 = p.state(0).kick_tests();
        assert_eq!(
            k0.iter().map(|v| (v.x, v.y)).collect::<Vec<_>>(),
            vec![(-1, 0), (-1, -1), (0, 2), (-1, 2)]
        );
        let k2 = p.state(2).kick_tests();
        assert_eq!(
            k2.iter().map(|v| (v.x, v.y)).collect::<Vec<_>>(),
            vec![(1, 0), (1, -1), (0, 2), (1, 2)]
        );
    }

    // The I piece uses its own, larger-offset table.
    let i_piece = &pieces[0];
    let k0 = i_piece.state(0).kick_tests();
    assert_eq!(
        k0.iter().map(|v| (v.x, v.y)).collect::<Vec<_>>(),
        vec![(-2, 0), (1, 0), (-2, 1), (1, -2)]
    );
    let k3 = i_piece.state(3).kick_tests();
    assert_eq!(
        k3.iter().map(|v| (v.x, v.y)).collect::<Vec<_>>(),
        vec![(1, 0), (-2, 0), (1, 1), (-2, -1)]
    );
}

#[test]
fn vector_and_color_basics() {
    let a = Vec2::new(3, -2);
    let b = Vec2::new(-1, 4);
    let s = a.add(b);
    assert_eq!((s.x, s.y), (2, 2));
    let d = a.sub(b);
    assert_eq!((d.x, d.y), (4, -6));
    let n = b.neg();
    assert_eq!((n.x, n.y), (1, -4));

    assert!(Color::black().is_black());
    assert!(!Color::white().is_black());
    assert!(!Color::new(0, 0, 1).is_black());
    assert_eq!(Color::default(), Color::black());
}
