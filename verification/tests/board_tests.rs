use nixchess::board::Board;

#[test]
fn initial_position_fingerprint_is_deterministic() {
    let b1 = Board::new();
    let b2 = Board::new();
    assert_eq!(b1.fingerprint(), b2.fingerprint());
}

#[test]
fn legal_opening_moves_are_accepted() {
    let mut b = Board::new();
    assert!(b.try_play("e4"));
    assert!(b.try_play("e5"));
    assert!(b.try_play("Nf3"));
}

#[test]
fn illegal_first_move_is_rejected() {
    let mut b = Board::new();
    // A pawn cannot reach e5 in one move from the initial position.
    assert!(!b.try_play("e5"));
    // Nonsense notation is rejected too.
    assert!(!b.try_play("zz9"));
}

#[test]
fn transposed_move_orders_fingerprint_equal() {
    let mut a = Board::new();
    assert!(a.try_play("Nf3"));
    assert!(a.try_play("d5"));
    assert!(a.try_play("d4"));

    let mut b = Board::new();
    assert!(b.try_play("d4"));
    assert!(b.try_play("d5"));
    assert!(b.try_play("Nf3"));

    assert_eq!(a.fingerprint(), b.fingerprint());
}

#[test]
fn different_positions_fingerprint_differently() {
    let mut a = Board::new();
    assert!(a.try_play("e4"));
    let mut b = Board::new();
    assert!(b.try_play("d4"));
    assert_ne!(a.fingerprint(), b.fingerprint());
}

#[test]
fn move_squares_reports_from_and_to() {
    let b = Board::new();
    // e2 = file 4, rank 1 -> square 12; e4 -> square 28.
    let sq = b.move_squares("e4");
    assert_eq!(sq, Some((Some(12), 28)));
    assert_eq!(b.move_squares("e5"), None);
}
