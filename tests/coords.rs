use sudoku::coords::{linear, square_to_point_cords, Point};

#[test]
fn box_major_formula() {
    let p = square_to_point_cords(1, 5);
    assert_eq!((p.x, p.y), (5, 1));
    let p = square_to_point_cords(4, 4);
    assert_eq!((p.x, p.y), (4, 4));
    let p = square_to_point_cords(8, 8);
    assert_eq!((p.x, p.y), (8, 8));
    let p = square_to_point_cords(6, 2);
    assert_eq!((p.x, p.y), (2, 6));
    let p = square_to_point_cords(0, 0);
    assert_eq!((p.x, p.y), (0, 0));
}

#[test]
fn box_major_covers_each_point_once() {
    let mut seen = [[0u8; 9]; 9];
    for block in 0..9 {
        for cell in 0..9 {
            let p = square_to_point_cords(block, cell);
            assert!(p.x < 9 && p.y < 9);
            seen[p.y][p.x] += 1;
            assert_eq!(p.y / 3 * 3 + p.x / 3, block);
        }
    }
    for row in seen {
        for count in row {
            assert_eq!(count, 1);
        }
    }
}

#[test]
fn linear_index_formula() {
    assert_eq!(linear(0, 0), 0);
    assert_eq!(linear(2, 3), 21);
    assert_eq!(linear(8, 8), 80);
    assert_eq!(Point { x: 3, y: 2 }.as_board_cords(), 21);
    assert_eq!(Point { x: 8, y: 0 }.as_board_cords(), 8);
}

#[test]
fn moves_clamp_at_the_edges() {
    let mut p = Point::origin();
    p.left();
    p.up();
    assert_eq!(p, Point { x: 0, y: 0 });
    p.right();
    p.down();
    assert_eq!(p, Point { x: 1, y: 1 });
    let mut q = Point { x: 8, y: 8 };
    q.right();
    q.down();
    assert_eq!(q, Point { x: 8, y: 8 });
    q.left();
    q.up();
    assert_eq!(q, Point { x: 7, y: 7 });
}
