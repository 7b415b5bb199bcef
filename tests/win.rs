use connect_4::board::Board;

fn board(heights: Vec<u8>, columns: Vec<u8>) -> Board {
    Board { heights, columns }
}

#[test]
fn vertical_four() {
    let b = board(vec![4, 0, 0, 0, 0, 0, 0], vec![0b110000, 0, 0, 0, 0, 0, 0]);
    assert!(b.check_win(0));
}

#[test]
fn vertical_four_on_top_of_opponent() {
    let b = board(vec![6, 0], vec![0b000011, 0]);
    assert!(b.check_win(0));
    let c = board(vec![5, 0], vec![0b000011, 0]);
    assert!(!c.check_win(0));
}

#[test]
fn vertical_three_is_not_a_win() {
    let b = board(vec![4, 0], vec![0b0001, 0]);
    assert!(!b.check_win(0));
}

#[test]
fn horizontal_four_symmetric_and_asymmetric() {
    let b = board(vec![1, 1, 1, 1, 0, 0, 0], vec![0, 0, 0, 0, 0, 0, 0]);
    assert!(b.check_win(0));
    assert!(b.check_win(1));
    assert!(b.check_win(2));
    assert!(b.check_win(3));
    assert!(!b.check_win(4));
}

#[test]
fn horizontal_four_on_an_upper_row() {
    // row 1 of columns 2..=5 is the mover's; row 0 is the opponent's
    let b = board(vec![0, 0, 2, 2, 2, 3, 0], vec![0, 0, 0b01, 0b01, 0b01, 0b101, 0]);
    assert!(b.check_win(3));
    // column 5's top stone (row 2) belongs to the opponent
    assert!(!b.check_win(5));
}

#[test]
fn horizontal_gap_is_not_a_win() {
    let b = board(vec![1, 1, 1, 1, 1, 0, 0], vec![0, 0, 0, 1, 0, 0, 0]);
    assert!(!b.check_win(2));
    assert!(!b.check_win(4));
    let c = board(vec![1, 1, 1, 0, 1, 0, 0], vec![0, 0, 0, 0, 0, 0, 0]);
    assert!(!c.check_win(2));
    assert!(!c.check_win(4));
}

#[test]
fn ascending_diagonal() {
    let b = board(vec![1, 2, 3, 4, 0, 0, 0], vec![0b0, 0b01, 0b011, 0b0111, 0, 0, 0]);
    assert!(b.check_win(3));
    assert!(b.check_win(0));
    assert!(b.check_win(1));
    // a lower stone of the diagonal is not the top of its column
    let c = board(vec![1, 3, 3, 4, 0, 0, 0], vec![0b0, 0b101, 0b011, 0b0111, 0, 0, 0]);
    assert!(!c.check_win(1));
    assert!(c.check_win(3));
}

#[test]
fn descending_diagonal() {
    let b = board(vec![0, 0, 0, 4, 3, 2, 1], vec![0, 0, 0, 0b0111, 0b011, 0b01, 0b0]);
    assert!(b.check_win(3));
    assert!(b.check_win(6));
    assert!(b.check_win(5));
}

#[test]
fn diagonal_with_gap_is_not_a_win() {
    let b = board(vec![1, 2, 3, 4, 5, 0, 0], vec![0b0, 0b01, 0b111, 0b0111, 0b01111, 0, 0]);
    assert!(!b.check_win(3));
    assert!(!b.check_win(1));
    assert!(!b.check_win(4));
}

#[test]
fn opponent_top_stone_never_wins() {
    let b = board(vec![4, 1, 1, 1], vec![0b1111, 1, 1, 1]);
    assert!(!b.check_win(0));
    assert!(!b.check_win(1));
}

#[test]
fn out_of_range_or_empty_column_never_wins() {
    let b = board(vec![0, 1, 1, 1, 1], vec![0, 0, 0, 0, 0]);
    assert!(!b.check_win(0));
    assert!(!b.check_win(5));
    assert!(!b.check_win(200));
    assert!(b.check_win(1));
}

#[test]
fn win_after_real_moves() {
    let mut b = Board::new(7);
    for &c in &[0u8, 6, 0, 6, 0, 6] {
        b.confirm_move(c).unwrap();
        assert!(!b.check_win(c));
    }
    b.confirm_move(0).unwrap();
    assert!(b.check_win(0));
}
