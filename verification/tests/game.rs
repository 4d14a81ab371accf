use tetromino_core::Game;
use tetromino_core::PieceData;
use tetromino_core::RandomGenerator;

#[test]
fn seven_bag_draws_are_fair() {
    let mut rng = RandomGenerator::from_seed(42);
    let expected: Vec<(u8, u8, u8)> = PieceData::create_all_pieces()
        .iter()
        .map(|p| (p.color().r, p.color().g, p.color().b))
        .collect();

    // A fresh generator starts at a bag boundary: every 7 consecutive
    // draws contain each of the 7 kinds exactly once.
    for _bag in 0..10 {
        let mut drawn: Vec<(u8, u8, u8)> = (0..7)
            .map(|_| {
                let p = rng.next_piece();
                (p.color().r, p.color().g, p.color().b)
            })
            .collect();
        let mut want = expected.clone();
        drawn.sort();
        want.sort();
        assert_eq!(drawn, want);
    }
}

#[test]
fn kind_counts_over_many_bags_are_balanced() {
    let mut rng = RandomGenerator::from_seed(7);
    let mut counts = std::collections::HashMap::new();
    for _ in 0..70 {
        let p = rng.next_piece();
        *counts.entry((p.color().r, p.color().g, p.color().b)).or_insert(0u32) += 1;
    }
    assert_eq!(counts.len(), 7);
    for (_, n) in counts {
        assert_eq!(n, 10);
    }
}

#[test]
fn hold_succeeds_once_then_fails() {
    let mut game = Game::from_seed(3);
    assert!(game.held_piece().is_none());
    assert!(game.hold_piece());
    assert!(game.held_piece().is_some());
    assert!(!game.hold_piece());
}

#[test]
fn hold_remembers_the_active_kind() {
    let mut game = Game::from_seed(5);
    let active_color = game.active_piece().piece_data.color();
    let head_color = game.next_pieces()[0].color();
    assert!(game.hold_piece());
    // The previous active kind sits in the hold slot, and the former
    // queue head became the active piece.
    assert_eq!(game.held_piece().unwrap().color(), active_color);
    assert_eq!(game.active_piece().piece_data.color(), head_color);
}

#[test]
fn hold_resets_after_lock() {
    let mut game = Game::from_seed(11);
    assert!(game.hold_piece());
    assert!(!game.hold_piece());
    game.quick_drop();
    assert!(game.finish_piece_turn().is_some());
    // Locking a piece re-arms the hold.
    assert!(game.hold_piece());
}

#[test]
fn drop_to_floor_then_lock() {
    let mut game = Game::from_seed(9);

    // Work out how far the fresh piece must fall from its spawn pose:
    // its lowest occupied row has to land on the bottom row, 39.
    let piece = game.active_piece().clone();
    let mat = piece.matrix();
    let mut max_j = 0usize;
    for i in 0..4 {
        for j in 0..4 {
            if mat[i][j] && j > max_j {
                max_j = j;
            }
        }
    }
    let moves = 39 - (piece.position.y as i32 + max_j as i32);
    assert!(moves > 0);

    let head_color = game.next_pieces()[0].color();
    for _ in 0..moves {
        assert!(game.move_down());
    }
    // The piece now rests on the floor: one more row is blocked.
    assert!(!game.move_down());

    // Locking it clears no lines on an otherwise empty field, and the
    // former queue head becomes the active piece.
    assert_eq!(game.finish_piece_turn(), Some(0));
    assert_eq!(game.active_piece().piece_data.color(), head_color);
    assert_eq!(game.next_pieces().len(), 8);
}

#[test]
fn stacking_in_place_ends_the_game() {
    let mut game = Game::from_seed(13);
    let mut over = false;
    for _ in 0..300 {
        game.quick_drop();
        match game.finish_piece_turn() {
            Some(n) => {
                // Untouched spawn columns never complete a row.
                assert_eq!(n, 0);
            }
            None => {
                over = true;
                break;
            }
        }
    }
    assert!(over);
}

#[test]
fn active_piece_never_overlaps_after_successful_ops() {
    let mut game = Game::from_seed(17);
    for step in 0..200 {
        match step % 5 {
            0 => {
                game.move_left();
            }
            1 => {
                game.move_right();
            }
            2 => {
                game.rotate_right();
            }
            3 => {
                game.rotate_left();
            }
            _ => {
                if !game.move_down() {
                    if game.finish_piece_turn().is_none() {
                        break;
                    }
                }
            }
        }
        let piece = game.active_piece().clone();
        assert!(!game.playfield().has_overlap(&piece));
    }
}

#[test]
fn failing_moves_change_nothing() {
    let mut game = Game::from_seed(19);
    // Push the piece against the left wall.
    while game.move_left() {}
    let piece = game.active_piece().clone();
    let before: Vec<(u8, u8, u8)> = (0..40)
        .flat_map(|y| {
            let pf = game.playfield();
            (0..10)
                .map(|x| {
                    let c = pf.get_tile(x, y);
                    (c.r, c.g, c.b)
                })
                .collect::<Vec<_>>()
        })
        .collect();

    assert!(!game.move_left());

    let after_piece = game.active_piece().clone();
    assert_eq!(after_piece.position.x, piece.position.x);
    assert_eq!(after_piece.position.y, piece.position.y);
    assert_eq!(after_piece.rotation, piece.rotation);
    let after: Vec<(u8, u8, u8)> = (0..40)
        .flat_map(|y| {
            let pf = game.playfield();
            (0..10)
                .map(|x| {
                    let c = pf.get_tile(x, y);
                    (c.r, c.g, c.b)
                })
                .collect::<Vec<_>>()
        })
        .collect();
    assert_eq!(before, after);
}

#[test]
fn queue_keeps_its_length() {
    let mut game = Game::from_seed(23);
    assert_eq!(game.next_pieces().len(), 8);
    game.quick_drop();
    assert!(game.finish_piece_turn().is_some());
    assert_eq!(game.next_pieces().len(), 8);
    assert!(game.hold_piece());
    assert_eq!(game.next_pieces().len(), 8);
}

#[test]
fn fresh_game_is_well_formed() {
    let mut game = Game::new();
    assert_eq!(game.next_pieces().len(), 8);
    assert!(game.held_piece().is_none());
    let piece = game.active_piece().clone();
    assert!(!game.playfield().has_overlap(&piece));
    // The field starts empty.
    for y in 0..40 {
        for x in 0..10 {
            assert!(!game.playfield().has_tile(x, y));
        }
    }
    // The first soft drop on an empty field always succeeds.
    assert!(game.move_down());
}
