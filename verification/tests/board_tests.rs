use wasm_terminal_2048::tile::Board;
use wasm_terminal_2048::tile::Direction;

#[test]
fn test_board_draw() {
    /* expected screen
    ╔═══════╦═══════╦═══════╦═══════╗
    ║       ║   2   ║   4   ║   8   ║
    ╠═══════╬═══════╬═══════╬═══════╣
    ║  16   ║  32   ║  64   ║  128  ║
    ╠═══════╬═══════╬═══════╬═══════╣
    ║  256  ║  512  ║ 1024  ║ 2048  ║
    ╠═══════╬═══════╬═══════╬═══════╣
    ║ 4096  ║ 8192  ║ 16384 ║ 32768 ║
    ╚═══════╩═══════╩═══════╩═══════╝
    */
    let mut values = Vec::new();
    for i in 0..16 {
        values.push(if i != 0 { 1 << i } else { 0 });
    }
    let board = Board::new(values);
    println!("{}", board.draw());
}

#[test]
fn test_board_ini() {
    let values = vec![0, 2, 512, 16, 0, 2, 8, 16, 0, 4, 2, 32, 2, 0, 4, 32];
    let board = Board::new(values.clone());
    assert_eq!(board.get_values().to_vec(), values);
}

#[test]
fn test_board_move_right() {
    let values = vec![0, 2, 512, 16, 0, 2, 8, 16, 4, 4, 2, 32, 2, 0, 4, 32];
    let expected_values = vec![0, 2, 512, 16, 0, 2, 8, 16, 0, 8, 2, 32, 0, 2, 4, 32];
    let mut board = Board::new(values);
    board.move_right();
    assert_eq!(board.get_values().to_vec(), expected_values);
}

#[test]
fn test_board_move_left() {
    let values = vec![0, 2, 512, 16, 0, 2, 8, 16, 4, 4, 2, 32, 2, 0, 4, 32];
    let expected_values = vec![2, 512, 16, 0, 2, 8, 16, 0, 8, 2, 32, 0, 2, 4, 32, 0];
    let mut board = Board::new(values);
    board.move_left();
    assert_eq!(board.get_values().to_vec(), expected_values);
}

#[test]
fn test_board_move_up() {
    let values = vec![0, 2, 512, 16, 0, 2, 8, 16, 4, 4, 2, 32, 2, 0, 4, 32];
    let expected_values = vec![4, 4, 512, 32, 2, 4, 8, 64, 0, 0, 2, 0, 0, 0, 4, 0];
    let mut board = Board::new(values);
    board.move_up();
    assert_eq!(board.get_values().to_vec(), expected_values);
}

#[test]
fn test_board_move_down() {
    let values = vec![0, 2, 512, 16, 0, 2, 8, 16, 4, 4, 2, 32, 2, 0, 4, 32];
    let expected_values = vec![0, 0, 512, 0, 0, 0, 8, 0, 4, 4, 2, 32, 2, 4, 4, 64];
    let mut board = Board::new(values);
    board.move_down();
    assert_eq!(board.get_values().to_vec(), expected_values);
}

#[test]
fn test_board_transpose() {
    let values = vec![0, 2, 512, 16, 0, 2, 8, 16, 4, 4, 2, 32, 2, 0, 4, 32];
    let expected_values = vec![0, 0, 4, 2, 2, 2, 4, 0, 512, 8, 2, 4, 16, 16, 32, 32];
    let mut board = Board::new(values);
    board.transpose();
    assert_eq!(board.get_values().to_vec(), expected_values);
}

#[test]
fn test_board_set_tile_value() {
    let values = vec![0, 2, 512, 16, 0, 2, 8, 16, 4, 4, 2, 32, 2, 0, 4, 32];
    let expected_values = vec![0, 2, 512, 16, 0, 2, 8, 16, 4, 4, 2, 512, 2, 0, 4, 1024];
    let mut board = Board::new(values);
    board.set_tile_value(11, 512);
    board.set_tile_value(15, 1024);
    assert_eq!(board.get_values().to_vec(), expected_values);
}

#[test]
fn test_board_generate_new_tile() {
    let values = vec![0, 2, 512, 16, 0, 2, 8, 16, 4, 4, 2, 32, 2, 0, 4, 32];
    let mut board = Board::new(values);
    let r = board.generate_new_tile();
    assert_eq!(r, true);

    let values = vec![2, 2, 512, 16, 2, 2, 8, 16, 4, 4, 2, 32, 2, 4, 4, 32];
    let mut board = Board::new(values);
    let r = board.generate_new_tile();
    assert_eq!(r, false);
}

#[test]
fn test_board_default() {
    let board: Board = Default::default();
    let expected_values = vec![0, 0, 0, 0, 0, 0, 0, 0, 0, 0, 0, 0, 0, 0, 0, 0];
    assert_eq!(board.get_values().to_vec(), expected_values);
}

#[test]
fn spawn_on_full_board_changes_nothing() {
    let values = vec![2, 4, 2, 4, 4, 2, 4, 2, 2, 4, 2, 4, 4, 2, 4, 2];
    let mut board = Board::new(values.clone());
    assert!(!board.generate_new_tile());
    assert_eq!(board.get_values().to_vec(), values);
}

#[test]
fn spawn_fills_exactly_one_empty_cell() {
    let values = vec![2, 4, 2, 4, 4, 0, 4, 2, 2, 4, 2, 4, 4, 2, 4, 2];
    let mut board = Board::new(values.clone());
    assert!(board.generate_new_tile());
    let after = board.get_values().to_vec();
    let zeros_before = values.iter().filter(|v| **v == 0).count();
    let zeros_after = after.iter().filter(|v| **v == 0).count();
    assert_eq!(zeros_before, zeros_after + 1);
    assert!(after[5] == 2 || after[5] == 4);
    for i in 0..16 {
        if i != 5 {
            assert_eq!(after[i], values[i]);
        }
    }
}

#[test]
fn move_fits_detects_oversized_merges() {
    // two 32768 tiles side by side would merge to 65536, past u16
    let values = vec![32768, 32768, 0, 0, 0, 0, 0, 0, 0, 0, 0, 0, 0, 0, 0, 0];
    let board = Board::new(values);
    assert!(!board.move_fits(Direction::Left));
    assert!(!board.move_fits(Direction::Right));
    // the same tiles in one column block only the vertical moves
    let values = vec![32768, 0, 0, 0, 32768, 0, 0, 0, 0, 0, 0, 0, 0, 0, 0, 0];
    let board = Board::new(values);
    assert!(board.move_fits(Direction::Left));
    assert!(board.move_fits(Direction::Right));
    assert!(!board.move_fits(Direction::Up));
    assert!(!board.move_fits(Direction::Down));
    // a lone 32768 merges with nothing, so every direction fits
    let values = vec![32768, 16384, 0, 0, 0, 0, 0, 0, 0, 0, 0, 0, 0, 0, 0, 0];
    let board = Board::new(values);
    assert!(board.move_fits(Direction::Left));
    assert!(board.move_fits(Direction::Up));
}

#[test]
fn reset_empties_every_cell() {
    let values = vec![0, 2, 512, 16, 0, 2, 8, 16, 4, 4, 2, 32, 2, 0, 4, 32];
    let mut board = Board::new(values);
    board.reset();
    assert_eq!(board.get_values().to_vec(), vec![0u16; 16]);
}

#[test]
fn draw_of_empty_board_is_exact() {
    let board: Board = Default::default();
    let blank_cell = "\x1b[40;1m       \x1b[0m";
    let mut expected = String::new();
    expected.push_str("   ╔═══════╦═══════╦═══════╦═══════╗\n\r");
    for row in 0..4 {
        expected.push_str("   ║");
        for _ in 0..4 {
            expected.push_str(blank_cell);
            expected.push_str("║");
        }
        expected.push_str("\n\r");
        if row != 3 {
            expected.push_str("   ╠═══════╬═══════╬═══════╬═══════╣\n\r");
        }
    }
    expected.push_str("   ╚═══════╩═══════╩═══════╩═══════╝\n\r");
    assert_eq!(board.draw(), expected);
}

#[test]
fn draw_centers_and_colors_values() {
    let values = vec![0, 2, 512, 16, 0, 2, 8, 16, 4, 4, 2, 32, 2, 0, 4, 1024];
    let board = Board::new(values);
    let text = board.draw();
    assert!(text.contains("\x1b[31;1m   2   \x1b[0m"));
    assert!(text.contains("\x1b[36;1m  512  \x1b[0m"));
    assert!(text.contains("\x1b[33;1m  16   \x1b[0m"));
    assert!(text.contains("\x1b[36;1m 1024  \x1b[0m"));
    assert!(text.contains("\x1b[40;1m       \x1b[0m"));
}
