use wasm_terminal_2048::controller::GameController;
use wasm_terminal_2048::game::Game;
use wasm_terminal_2048::tile::Direction;

#[test]
fn test_start_game() {
    let mut game = Game::new();
    game.start_game();
}

#[test]
fn test_actions() {
    let int_values = vec![0, 0, 0, 0, 0, 2, 0, 0, 0, 0, 0, 0, 0, 0, 0, 0];
    let left_expected_values = vec![0, 0, 0, 0, 2, 0, 0, 0, 0, 0, 0, 0, 0, 0, 0, 0];

    let right_expected_values = vec![0, 0, 0, 0, 0, 0, 0, 2, 0, 0, 0, 0, 0, 0, 0, 0];

    let up_expected_values = vec![0, 2, 0, 0, 0, 0, 0, 0, 0, 0, 0, 0, 0, 0, 0, 0];
    let down_expected_values = vec![0, 0, 0, 0, 0, 0, 0, 0, 0, 0, 0, 0, 0, 2, 0, 0];
    let mut game = Game::new_with_values(int_values.clone());
    game.action(Direction::Left);
    assert_eq!(game.get_board().get_values().to_vec(), left_expected_values);
    let mut game = Game::new_with_values(int_values.clone());
    game.action(Direction::Right);
    assert_eq!(game.get_board().get_values().to_vec(), right_expected_values);
    let mut game = Game::new_with_values(int_values.clone());
    game.action(Direction::Up);
    assert_eq!(game.get_board().get_values().to_vec(), up_expected_values);
    let mut game = Game::new_with_values(int_values.clone());
    game.action(Direction::Down);
    assert_eq!(game.get_board().get_values().to_vec(), down_expected_values);
}

#[test]
fn start_game_spawns_one_tile_and_clears_steps() {
    let mut game = Game::new_with_values(vec![2; 16]);
    game.start_game();
    assert_eq!(game.get_steps(), 0);
    let values = game.get_board().get_values().to_vec();
    let nonzero: Vec<u16> = values.iter().copied().filter(|v| *v != 0).collect();
    assert_eq!(nonzero.len(), 1);
    assert!(nonzero[0] == 2 || nonzero[0] == 4);
}

#[test]
fn next_counts_only_successful_spawns() {
    let mut game = Game::new_with_values(vec![0; 16]);
    assert_eq!(game.get_steps(), 0);
    assert!(game.next());
    assert_eq!(game.get_steps(), 1);
    assert!(game.next());
    assert_eq!(game.get_steps(), 2);

    let mut full = Game::new_with_values(vec![2; 16]);
    assert!(!full.next());
    assert_eq!(full.get_steps(), 0);
}

#[test]
fn controller_steps_advance_only_on_successful_spawn() {
    let mut controller = GameController::new();
    controller.start_new_game();
    assert_eq!(controller.get_steps(), 0);
    assert!(controller.next());
    assert_eq!(controller.get_steps(), 1);
    // fill the board so that no further spawn can land
    for _ in 0..20 {
        if !controller.next() {
            break;
        }
    }
    let steps = controller.get_steps();
    assert!(!controller.next());
    assert_eq!(controller.get_steps(), steps);
    let rendered = controller.render();
    assert!(rendered.ends_with(&format!("Current steps:  {}\n\r", steps)));
}

#[test]
fn controller_moves_by_integer_codes() {
    let mut controller = GameController::new();
    assert_eq!(controller.get_steps(), 0);
    let text = controller.run();
    assert!(text.contains("\u{2554}"));
    controller.action(0);
    controller.action(1);
    controller.action(2);
    controller.action(3);
    controller.action(7);
    assert!(controller.next());
    assert_eq!(controller.get_steps(), 1);
}

#[test]
fn controller_render_shows_board_and_steps() {
    let mut controller = GameController::new();
    controller.start_new_game();
    let text = controller.render();
    assert!(text.starts_with("   \u{2554}"));
    assert!(text.contains("============= 2048 ============="));
    assert!(text.ends_with("Current steps:  0\n\r"));
}

#[test]
fn full_board_move_merges_columns_upward() {
    let mut game = Game::new_with_values(vec![
        0, 2, 512, 16, 0, 2, 8, 16, 4, 4, 2, 32, 2, 0, 4, 32,
    ]);
    game.action(Direction::Up);
    assert_eq!(
        game.get_board().get_values().to_vec(),
        vec![4, 4, 512, 32, 2, 4, 8, 64, 0, 0, 2, 0, 0, 0, 4, 0]
    );
}
