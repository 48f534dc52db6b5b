use game_of_life::board::Board;
use game_of_life::board::BoardError;

#[test]
fn test_basic_creation() {
    let width = 30;
    let height = 27;
    let b = Board::new(width, height).unwrap();
    assert_eq!(b.cols, width);
    assert_eq!(b.rows, height);
    assert_eq!(b.grid.len(), width);
    for col in b.grid {
        assert_eq!(col.len(), height);
    }
}

#[test]
fn test_empty_board_creation() {
    assert_eq!(Board::new(0, 0).unwrap_err(), BoardError::InvalidDimensions);
    assert_eq!(Board::new(0, 5).unwrap_err(), BoardError::InvalidDimensions);
    assert_eq!(Board::new(5, 0).unwrap_err(), BoardError::InvalidDimensions);
}

#[test]
fn test_one_x_one_creation() {
    let mut b = Board::new(1, 1).unwrap();

    b.grid[0][0] = true;
    assert_eq!(b.grid[0][0], true);
    b.grid[0][0] = false;
    assert_eq!(b.grid[0][0], false);
}

#[test]
fn test_population() {
    let width = 1999;
    let height = 1000;
    let mut b = Board::new(width, height).unwrap();

    for x in 0..width {
        for y in 0..height {
            b.grid[x][y] = (x + y) % 2 == 0;
        }
    }

    for x in 0..width {
        for y in 0..height {
            assert_eq!(b.grid[x][y], (x + y) % 2 == 0);
        }
    }
}

#[test]
fn test_flip() {
    let width = 1999;
    let height = 1000;
    let mut b = Board::new(width, height).unwrap();

    for x in 0..width {
        for y in 0..height {
            b.grid[x][y] = (x + y) % 2 == 0;
        }
    }

    for x in 0..width {
        for y in 0..height {
            b.flip(x, y).unwrap();
        }
    }

    for x in 0..width {
        for y in 0..height {
            assert_eq!(b.grid[x][y], (x + y) % 2 != 0);
        }
    }
}

#[test]
#[should_panic]
fn test_out_of_bounds_col_get() {
    let b = Board::new(10, 10).unwrap();
    println!("{:?}", b.grid[15][5]);
}

#[test]
#[should_panic]
fn test_out_of_bounds_row_get() {
    let b = Board::new(10, 10).unwrap();
    println!("{:?}", b.grid[5][15]);
}

#[test]
#[should_panic]
fn test_out_of_bounds_col_set() {
    let mut b = Board::new(10, 10).unwrap();
    b.grid[15][5] = true;
}

#[test]
#[should_panic]
fn test_out_of_bounds_row_set() {
    let mut b = Board::new(10, 10).unwrap();
    b.grid[5][15] = true;
}

#[test]
fn test_out_of_bounds_get_is_error() {
    let b = Board::new(10, 10).unwrap();
    assert_eq!(b.get(10, 5).unwrap_err(), BoardError::OutOfBounds);
    assert_eq!(b.get(5, 10).unwrap_err(), BoardError::OutOfBounds);
    assert_eq!(b.get(15, 15).unwrap_err(), BoardError::OutOfBounds);
}

#[test]
fn test_out_of_bounds_flip_is_error_and_preserves_board() {
    let mut b = Board::new(3, 3).unwrap();
    b.flip(1, 2).unwrap();
    assert_eq!(b.flip(3, 0).unwrap_err(), BoardError::OutOfBounds);
    assert_eq!(b.flip(0, 3).unwrap_err(), BoardError::OutOfBounds);
    for x in 0..3 {
        for y in 0..3 {
            assert_eq!(b.get(x, y).unwrap(), x == 1 && y == 2);
        }
    }
}

#[test]
fn test_flip_twice_restores() {
    let mut b = Board::new(4, 4).unwrap();
    b.flip(2, 3).unwrap();
    assert_eq!(b.get(2, 3).unwrap(), true);
    b.flip(2, 3).unwrap();
    assert_eq!(b.get(2, 3).unwrap(), false);
    b.flip(0, 0).unwrap();
    b.flip(0, 0).unwrap();
    for x in 0..4 {
        for y in 0..4 {
            assert_eq!(b.get(x, y).unwrap(), false);
        }
    }
}

#[test]
fn test_neighbors_iterator_all_empty() {
    let b = Board::new(10, 10).unwrap();
    for x in b.neighbors(1, 1) {
        println!("{:?}", x);
        assert_eq!(x, false);
    }
}

#[test]
fn test_boundary_iterator() {
    let b = Board::new(10, 10).unwrap();
    assert_eq!(b.neighbors(1, 1).len(), 8);
    assert_eq!(b.neighbors(0, 0).len(), 3);
    assert_eq!(b.neighbors(0, 9).len(), 3);
    assert_eq!(b.neighbors(9, 0).len(), 3);
    assert_eq!(b.neighbors(9, 9).len(), 3);
    assert_eq!(b.neighbors(0, 3).len(), 5);
    assert_eq!(b.neighbors(3, 0).len(), 5);
    assert_eq!(b.neighbors(8, 9).len(), 5);
    assert_eq!(b.neighbors(9, 8).len(), 5);
}

#[test]
fn test_neighbors_iterator_all_full() {
    let mut b = Board::new(10, 10).unwrap();
    for x in 0..10 {
        for y in 0..10 {
            b.flip(x, y).unwrap();
        }
    }
    let interior = b.neighbors(1, 1);
    assert_eq!(interior.len(), 8);
    for v in interior {
        assert_eq!(v, true);
    }
    let corner = b.neighbors(0, 0);
    assert_eq!(corner, vec![true, true, true]);
    assert_eq!(b.count_live_neighbors(1, 1), 8);
    assert_eq!(b.count_live_neighbors(0, 0), 3);
    assert_eq!(b.count_live_neighbors(0, 4), 5);
}

#[test]
fn test_neighbors_iterator_mixed() {
    let mut b = Board::new(4, 4).unwrap();
    b.flip(0, 0).unwrap();
    b.flip(1, 2).unwrap();
    b.flip(2, 1).unwrap();
    // Around (1, 1), in the documented order (by dx then dy):
    // (0,0) (0,1) (0,2) (1,0) (1,2) (2,0) (2,1) (2,2)
    assert_eq!(
        b.neighbors(1, 1),
        vec![true, false, false, false, true, false, true, false]
    );
    assert_eq!(b.count_live_neighbors(1, 1), 3);
    // Around the corner (0, 0): (0,1) (1,0) (1,1)
    assert_eq!(b.neighbors(0, 0), vec![false, false, false]);
    // Around the edge cell (0, 1): (0,0) (0,2) (1,0) (1,1) (1,2)
    assert_eq!(b.neighbors(0, 1), vec![true, false, false, false, true]);
    assert_eq!(b.count_live_neighbors(0, 1), 2);
}

#[test]
fn test_neighbors_one_x_one_board() {
    let b = Board::new(1, 1).unwrap();
    assert_eq!(b.neighbors(0, 0).len(), 0);
}
