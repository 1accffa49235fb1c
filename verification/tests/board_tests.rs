use falling_blocks::sorting::sort_row_major;
use falling_blocks::{Block, BlockShape, Board, Point};

fn points(raw: &[(i32, i32)]) -> Vec<Point> {
    raw.iter().map(|&(x, y)| Point::new(x, y)).collect()
}

#[test]
fn test_clear_no_rows_filled() {
    let mut board = Board::new(4, 5);
    board.filled = vec![Point::new(0, 0), Point::new(1, 2), Point::new(3, 4)];

    board.clear_board();

    // No rows were cleared, so the filled points remain unchanged
    let expected = vec![Point::new(0, 0), Point::new(1, 2), Point::new(3, 4)];
    assert_eq!(board.filled, expected);
}

#[test]
fn test_clear_one_row_filled() {
    let mut board = Board::new(4, 5);
    board.filled = vec![
        Point::new(0, 0),
        Point::new(1, 0),
        Point::new(2, 0),
        Point::new(3, 0), // Row 0 is full
        Point::new(0, 1),
        Point::new(1, 2),
        Point::new(2, 2),
    ];

    board.clear_board();

    // Row 0 is cleared, and the points above it shift down
    let expected = vec![Point::new(0, 0), Point::new(1, 1), Point::new(2, 1)];
    assert_eq!(board.filled, expected);
}

#[test]
fn test_clear_multiple_rows_filled() {
    let mut board = Board::new(4, 5);
    board.filled = vec![
        Point::new(0, 0),
        Point::new(1, 0),
        Point::new(2, 0),
        Point::new(3, 0), // Row 0 is full
        Point::new(0, 1),
        Point::new(1, 1),
        Point::new(2, 1),
        Point::new(3, 1), // Row 1 is full
        Point::new(0, 2),
        Point::new(1, 2),
        Point::new(2, 3),
    ];

    board.clear_board();

    // Rows 0 and 1 are cleared, and points above them shift down
    let expected = vec![Point::new(0, 0), Point::new(1, 0), Point::new(2, 1)];
    assert_eq!(board.filled, expected);
}

#[test]
fn test_block_touches_filled() {
    let mut board = Board::new(4, 5);
    board.filled = vec![Point::new(1, 3), Point::new(2, 3)];

    let block = Block::new(Point::new(1, 2), BlockShape::Line);

    // The block lies in row 2, right above the filled points of row 3:
    // next to them, not on them.
    assert!(!board.block_touches(&block));

    let overlapping_block = Block::new(Point::new(1, 3), BlockShape::Line);

    // Block touches the filled points (overlapping)
    assert!(board.block_touches(&overlapping_block));

    let non_touching_block = Block::new(Point::new(3, 0), BlockShape::Line);

    // Block does not touch any filled points
    assert!(!board.block_touches(&non_touching_block));
}

#[test]
fn test_block_touches_bottom() {
    let board = Board::new(4, 5);

    let block = Block::new(Point::new(0, 4), BlockShape::Square);

    // Block touches the bottom of the board
    assert!(board.block_touches(&block));
}

#[test]
fn test_place_block() {
    let mut board = Board::new(4, 5);

    let block = Block::new(Point::new(0, 0), BlockShape::Square);

    board.place_block(&block);

    let mut expected_filled = vec![
        Point::new(0, 0),
        Point::new(1, 0),
        Point::new(0, 1),
        Point::new(1, 1),
    ];

    board.sort_filled();
    expected_filled.sort_by_key(|p| (p.get_y(), p.get_x())); // Sort by y, then x

    assert_eq!(board.filled, expected_filled);
}

#[test]
fn new_board_is_empty() {
    let board = Board::new(10, 20);
    assert_eq!(board.x_dim, 10);
    assert_eq!(board.y_dim, 20);
    assert!(board.filled.is_empty());
    let board = Board::new(0, 0);
    assert_eq!((board.x_dim, board.y_dim), (0, 0));
    let board = Board::new(i32::MAX as usize, 1);
    assert_eq!(board.x_dim, i32::MAX);
}

#[test]
fn sort_row_major_orders_by_row_then_column() {
    let mut cells = points(&[(3, 1), (0, 2), (1, 0), (0, 1), (1, 0), (-2, 1), (5, -1)]);
    sort_row_major(&mut cells);
    assert_eq!(cells, points(&[(5, -1), (1, 0), (1, 0), (-2, 1), (0, 1), (3, 1), (0, 2)]));
    let mut none: Vec<Point> = Vec::new();
    sort_row_major(&mut none);
    assert!(none.is_empty());
    let mut one = points(&[(4, 4)]);
    sort_row_major(&mut one);
    assert_eq!(one, points(&[(4, 4)]));
}

#[test]
fn sort_filled_is_row_major_not_column_major() {
    let mut board = Board::new(4, 5);
    board.filled = points(&[(0, 1), (1, 0), (0, 0), (1, 1)]);
    board.sort_filled();
    assert_eq!(board.filled, points(&[(0, 0), (1, 0), (0, 1), (1, 1)]));
    assert_eq!((board.x_dim, board.y_dim), (4, 5));
}

#[test]
fn is_filled_finds_listed_cells_only() {
    let mut board = Board::new(4, 5);
    board.filled = points(&[(1, 3), (2, 3)]);
    assert!(board.is_filled(Point::new(1, 3)));
    assert!(board.is_filled(Point::new(2, 3)));
    assert!(!board.is_filled(Point::new(3, 1)));
    assert!(!board.is_filled(Point::new(3, 3)));
}

#[test]
fn touching_means_overlap_not_adjacency() {
    let mut board = Board::new(6, 6);
    board.filled = points(&[(2, 3)]);
    // Directly left of, right of and above the filled cell: no collision.
    let left = Block::new(Point::new(0, 2), BlockShape::Square);
    assert!(!board.block_touches(&left));
    let right = Block::new(Point::new(3, 2), BlockShape::Square);
    assert!(!board.block_touches(&right));
    let above = Block::new(Point::new(2, 1), BlockShape::Square);
    assert!(!board.block_touches(&above));
    // Only the last cell of this one overlaps.
    let over = Block::new(Point::new(1, 2), BlockShape::Square);
    assert!(board.block_touches(&over));
}

#[test]
fn touching_ignores_the_side_walls_and_the_top() {
    let board = Board::new(4, 5);
    let beyond_right = Block::new(Point::new(3, 0), BlockShape::Line);
    assert!(!board.block_touches(&beyond_right));
    let beyond_left = Block::new(Point::new(-3, 0), BlockShape::Line);
    assert!(!board.block_touches(&beyond_left));
    let above = Block::new(Point::new(0, -5), BlockShape::L);
    assert!(!board.block_touches(&above));
    assert!(!board.within_bounds(&beyond_right));
    assert!(!board.within_bounds(&beyond_left));
    assert!(!board.within_bounds(&above));
}

#[test]
fn touching_the_bottom_row_exactly() {
    let board = Board::new(4, 5);
    // Rows 3 and 4: still on the board.
    let resting = Block::new(Point::new(0, 3), BlockShape::Square);
    assert!(!board.block_touches(&resting));
    assert!(board.within_bounds(&resting));
    // L reaches row 5 with its last two cells only.
    let sunk = Block::new(Point::new(0, 3), BlockShape::L);
    assert!(board.block_touches(&sunk));
    assert!(!board.within_bounds(&sunk));
}

#[test]
fn within_bounds_checks_all_four_walls() {
    let board = Board::new(4, 5);
    assert!(board.within_bounds(&Block::new(Point::new(0, 0), BlockShape::Line)));
    assert!(board.within_bounds(&Block::new(Point::new(2, 3), BlockShape::Square)));
    assert!(!board.within_bounds(&Block::new(Point::new(1, 0), BlockShape::Line)));
    assert!(!board.within_bounds(&Block::new(Point::new(3, 0), BlockShape::Square)));
    assert!(!board.within_bounds(&Block::new(Point::new(0, 4), BlockShape::Square)));
    assert!(!board.within_bounds(&Block::new(Point::new(-1, 0), BlockShape::Square)));
    assert!(!board.within_bounds(&Block::new(Point::new(0, -1), BlockShape::Square)));
}

#[test]
fn place_keeps_the_list_row_major() {
    let mut board = Board::new(6, 6);
    board.filled = points(&[(5, 5), (0, 5)]);
    board.place_block(&Block::new(Point::new(1, 3), BlockShape::Z));
    assert_eq!(board.filled, points(&[(2, 3), (3, 3), (1, 4), (2, 4), (0, 5), (5, 5)]));
    assert_eq!((board.x_dim, board.y_dim), (6, 6));
}

#[test]
fn place_twice_adds_nothing_the_second_time() {
    let mut board = Board::new(4, 5);
    let block = Block::new(Point::new(0, 0), BlockShape::Square);
    board.place_block(&block);
    let once = board.filled.clone();
    board.place_block(&block);
    assert_eq!(board.filled, once);
    assert_eq!(board.filled.len(), 4);
}

#[test]
fn place_overlapping_blocks_lists_each_cell_once() {
    let mut board = Board::new(6, 6);
    board.place_block(&Block::new(Point::new(0, 0), BlockShape::Square));
    // Shares (1, 0) and (1, 1) with the square.
    board.place_block(&Block::new(Point::new(1, 0), BlockShape::Square));
    assert_eq!(board.filled, points(&[(0, 0), (1, 0), (2, 0), (0, 1), (1, 1), (2, 1)]));
    let mut unique = board.filled.clone();
    unique.sort();
    unique.dedup();
    assert_eq!(unique.len(), board.filled.len());
}

#[test]
fn place_leaves_earlier_repeats_alone() {
    let mut board = Board::new(6, 6);
    board.filled = points(&[(3, 3), (3, 3)]);
    board.place_block(&Block::new(Point::new(3, 3), BlockShape::Square));
    assert_eq!(board.filled, points(&[(3, 3), (3, 3), (4, 3), (3, 4), (4, 4)]));
}

#[test]
fn clear_returns_the_number_of_rows() {
    let mut board = Board::new(4, 5);
    board.filled = points(&[(0, 0), (1, 2), (3, 4)]);
    assert_eq!(board.clear_board(), 0);

    let mut board = Board::new(4, 5);
    board.filled = points(&[(0, 0), (1, 0), (2, 0), (3, 0), (0, 1), (1, 2), (2, 2)]);
    assert_eq!(board.clear_board(), 1);

    let mut board = Board::new(4, 5);
    board.filled = points(&[
        (0, 0), (1, 0), (2, 0), (3, 0), (0, 1), (1, 1), (2, 1), (3, 1), (0, 2), (1, 2), (2, 3),
    ]);
    assert_eq!(board.clear_board(), 2);
    assert_eq!((board.x_dim, board.y_dim), (4, 5));
}

#[test]
fn clear_without_a_complete_row_keeps_the_order() {
    let mut board = Board::new(4, 5);
    board.filled = points(&[(3, 4), (0, 0), (1, 2), (2, 2), (0, 2)]);
    assert_eq!(board.clear_board(), 0);
    assert_eq!(board.filled, points(&[(3, 4), (0, 0), (1, 2), (2, 2), (0, 2)]));
}

#[test]
fn clear_on_an_empty_board() {
    let mut board = Board::new(4, 5);
    assert_eq!(board.clear_board(), 0);
    assert!(board.filled.is_empty());
}

#[test]
fn clear_moves_each_cell_by_the_rows_cleared_before_it() {
    // Rows 1 and 3 are complete. Row 0 has nothing cleared before it, row 2
    // has one, row 4 has two.
    let mut board = Board::new(2, 5);
    board.filled = points(&[(0, 0), (0, 1), (1, 1), (1, 2), (0, 3), (1, 3), (0, 4), (1, 4)]);
    // Row 4 is complete as well: three rows go.
    assert_eq!(board.clear_board(), 3);
    assert_eq!(board.filled, points(&[(0, 0), (1, 1)]));

    let mut board = Board::new(2, 5);
    board.filled = points(&[(0, 0), (0, 1), (1, 1), (1, 2), (0, 3), (1, 3), (1, 4)]);
    assert_eq!(board.clear_board(), 2);
    assert_eq!(board.filled, points(&[(0, 0), (1, 1), (1, 2)]));
}

#[test]
fn clear_sorts_what_is_left() {
    let mut board = Board::new(2, 4);
    board.filled = points(&[(1, 3), (0, 2), (1, 0), (0, 0), (1, 1)]);
    assert_eq!(board.clear_board(), 1);
    assert_eq!(board.filled, points(&[(1, 0), (0, 1), (1, 2)]));
}

#[test]
fn clear_every_row() {
    let mut board = Board::new(2, 2);
    board.filled = points(&[(0, 0), (1, 0), (0, 1), (1, 1)]);
    assert_eq!(board.clear_board(), 2);
    assert!(board.filled.is_empty());
}

#[test]
fn clear_after_placing_the_last_cells_of_a_row() {
    let mut board = Board::new(4, 4);
    board.place_block(&Block::new(Point::new(0, 3), BlockShape::Line));
    board.place_block(&Block::new(Point::new(0, 1), BlockShape::Square));
    assert_eq!(board.clear_board(), 1);
    assert_eq!(board.filled, points(&[(0, 1), (1, 1), (0, 2), (1, 2)]));
}

#[test]
fn clear_counts_cells_off_the_board_with_their_row_only_on_the_board() {
    // Row 7 is not a row of this board, however many cells are listed there.
    let mut board = Board::new(2, 3);
    board.filled = points(&[(0, 7), (1, 7), (0, 1), (1, 1), (0, -1), (5, 2)]);
    assert_eq!(board.clear_board(), 1);
    // One row was cleared before rows 2 and 7, none before row -1.
    assert_eq!(board.filled, points(&[(0, -1), (5, 1), (0, 6), (1, 6)]));
}
