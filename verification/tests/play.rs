use side_scroller::{Bullet, Game, Player};

fn started(text: &str) -> Game {
    let mut game = Game::new(text).unwrap();
    game.start();
    game
}

#[test]
fn player_keeps_its_row() {
    let player = Player::new(3);
    assert_eq!(player.y(), 3);
}

#[test]
fn nothing_happens_before_start() {
    let mut game = Game::new("....\n....\n....").unwrap();
    game.update();
    game.move_up();
    game.move_down();
    game.fire();
    assert!(!game.is_started());
    assert!(!game.is_ended());
    assert!(!game.is_won());
    assert_eq!(game.get_time(), 0);
    assert_eq!(game.get_visible_x(), 0);
    assert_eq!(game.get_player().y(), 1);
    assert_eq!(game.num_bullets(), 0);
}

#[test]
fn start_is_idempotent() {
    let mut game = Game::new("....\n....").unwrap();
    game.start();
    game.update();
    game.start();
    assert!(game.is_started());
    assert!(!game.is_ended());
    assert_eq!(game.get_time(), 1);
}

#[test]
fn wall_under_the_player_loses() {
    let mut game = started("..\n.#");
    assert_eq!(game.get_player().y(), 1);
    game.update();
    assert!(!game.is_ended());
    assert_eq!(game.get_visible_x(), 0);
    game.update();
    assert_eq!(game.get_visible_x(), 1);
    assert!(game.is_ended());
    assert!(!game.is_won());
}

#[test]
fn empty_map_is_won_at_the_last_column() {
    let mut game = started(".....\n.....");
    for frame in 1..8u32 {
        game.update();
        assert_eq!(game.get_time(), frame);
        assert_eq!(u32::from(game.get_visible_x()), frame / 2);
        assert!(!game.is_ended());
        assert!(!game.is_won());
    }
    game.update();
    assert_eq!(game.get_visible_x(), 4);
    assert!(game.is_ended());
    assert!(game.is_won());
    game.update();
    game.update();
    assert_eq!(game.get_time(), 8);
    assert_eq!(game.get_visible_x(), 4);
    assert!(game.is_ended());
    assert!(game.is_won());
}

#[test]
fn map_of_one_column_is_won_at_once() {
    let mut game = started(".\n.");
    game.update();
    assert_eq!(game.get_time(), 1);
    assert_eq!(game.get_visible_x(), 0);
    assert!(game.is_ended());
    assert!(game.is_won());
}

#[test]
fn nothing_happens_once_the_game_is_over() {
    let mut game = started(".\n.");
    game.update();
    assert!(game.is_ended());
    game.move_up();
    game.fire();
    game.update();
    game.move_down();
    assert_eq!(game.get_player().y(), 1);
    assert_eq!(game.num_bullets(), 0);
    assert_eq!(game.get_time(), 1);
    assert!(game.is_won());
}

#[test]
fn no_moving_up_from_the_top_row() {
    let mut game = started("...\n...\n...");
    game.move_up();
    assert_eq!(game.get_player().y(), 0);
    game.move_up();
    assert_eq!(game.get_player().y(), 0);
    assert!(!game.is_ended());
}

#[test]
fn no_moving_down_from_the_bottom_row() {
    let mut game = started("...\n...\n...");
    game.move_down();
    assert_eq!(game.get_player().y(), 2);
    game.move_down();
    assert_eq!(game.get_player().y(), 2);
    assert!(!game.is_ended());
}

#[test]
fn moving_into_a_wall_loses_and_the_player_stays_there() {
    let mut game = started("#..\n...\nr..");
    game.move_up();
    assert_eq!(game.get_player().y(), 0);
    assert!(game.is_ended());
    assert!(!game.is_won());
    let mut game = started("#..\n...\nr..");
    game.move_down();
    assert_eq!(game.get_player().y(), 2);
    assert!(game.is_ended());
    assert!(!game.is_won());
}

#[test]
fn player_below_a_map_of_one_row_hits_nothing() {
    let mut game = started("###");
    assert_eq!(game.get_player().y(), 1);
    game.move_down();
    assert_eq!(game.get_player().y(), 1);
    game.update();
    assert!(!game.is_ended());
    game.move_up();
    assert_eq!(game.get_player().y(), 0);
    assert!(game.is_ended());
    assert!(!game.is_won());
}

#[test]
fn bullet_starts_one_column_ahead() {
    let mut game = started(".....\n.....");
    game.update();
    game.update();
    game.fire();
    assert_eq!(game.num_bullets(), 1);
    assert_eq!(game.bullets(), vec![Bullet { x: 2, y: 1 }]);
    game.move_up();
    game.fire();
    assert_eq!(game.bullets(), vec![Bullet { x: 2, y: 1 }, Bullet { x: 2, y: 0 }]);
}

#[test]
fn bullet_moves_one_column_each_frame() {
    let mut game = started("......\n......");
    game.fire();
    game.update();
    assert_eq!(game.bullets(), vec![Bullet { x: 2, y: 1 }]);
    game.update();
    assert_eq!(game.bullets(), vec![Bullet { x: 3, y: 1 }]);
}

#[test]
fn bullet_clears_a_target_and_is_lost() {
    let mut game = started(".....\n...r.");
    game.fire();
    game.update();
    assert_eq!(game.bullets(), vec![Bullet { x: 2, y: 1 }]);
    assert_eq!(game.get_tile(1, 3), 2);
    game.update();
    assert_eq!(game.get_tile(1, 3), 0);
    assert_eq!(game.num_bullets(), 0);
    assert!(!game.is_ended());
}

#[test]
fn target_takes_one_bullet_only() {
    let mut game = started(".....\n..r..");
    game.fire();
    game.fire();
    game.update();
    assert_eq!(game.get_tile(1, 2), 0);
    assert_eq!(game.bullets(), vec![Bullet { x: 2, y: 1 }]);
    game.update();
    assert_eq!(game.bullets(), vec![Bullet { x: 3, y: 1 }]);
}

#[test]
fn wall_swallows_a_bullet_and_stays() {
    let mut game = started(".....\n...#.");
    game.move_up();
    game.move_down();
    game.fire();
    game.fire();
    game.update();
    assert_eq!(game.num_bullets(), 2);
    game.update();
    assert_eq!(game.get_tile(1, 3), 1);
    assert_eq!(game.num_bullets(), 0);
}

#[test]
fn bullet_is_lost_beyond_the_last_column() {
    let mut game = started("....\n....");
    game.fire();
    game.update();
    game.update();
    assert_eq!(game.bullets(), vec![Bullet { x: 3, y: 1 }]);
    game.update();
    assert_eq!(game.num_bullets(), 0);
}

#[test]
fn cleared_target_no_longer_stops_the_player() {
    let mut game = started("....\n..r.");
    game.fire();
    game.update();
    assert_eq!(game.get_tile(1, 2), 0);
    for _ in 0..5 {
        game.update();
    }
    assert!(game.is_ended());
    assert!(game.is_won());
    let mut game = started("....\n..r.");
    for _ in 0..4 {
        game.update();
    }
    assert_eq!(game.get_visible_x(), 2);
    assert!(game.is_ended());
    assert!(!game.is_won());
}

#[test]
fn bullet_below_a_map_of_one_row_flies_on() {
    let mut game = started("#####");
    game.fire();
    game.update();
    assert_eq!(game.bullets(), vec![Bullet { x: 2, y: 1 }]);
    assert_eq!(game.get_map(), vec![1u8, 1, 1, 1, 1]);
}

#[test]
fn score_adds_up() {
    let mut game = Game::new("..\n..").unwrap();
    game.update_score(5);
    game.update_score(-2);
    assert_eq!(game.get_score(), 3);
}

#[test]
fn tile_can_be_read_and_set() {
    let mut game = Game::new(".#\nr.").unwrap();
    assert_eq!(game.get_tile(0, 1), 1);
    assert_eq!(game.get_tile(1, 0), 2);
    game.set_tile(1, 0, 1);
    game.set_tile(0, 0, 2);
    assert_eq!(game.get_tile(1, 0), 1);
    assert_eq!(game.get_map(), vec![2u8, 1, 1, 0]);
}

#[test]
fn map_is_listed_row_after_row() {
    let game = Game::new(".#r\nr..").unwrap();
    assert_eq!(game.get_map(), vec![0u8, 1, 2, 2, 0, 0]);
}

#[test]
fn viewport_is_eight_by_four() {
    let game = Game::new("..\n..").unwrap();
    assert_eq!(game.get_visible_width(), 8);
    assert_eq!(game.get_visible_height(), 4);
    assert_eq!(game.get_visible_map().len(), 32);
}

#[test]
fn viewport_shows_the_map_from_the_scroll_position() {
    let mut game = started(".#r.......\n..........\n#........r");
    let mut expected = vec![0u8; 32];
    expected[1] = 1;
    expected[2] = 2;
    expected[16] = 1;
    assert_eq!(game.get_visible_map(), expected);
    for _ in 0..4 {
        game.update();
    }
    assert_eq!(game.get_visible_x(), 2);
    let mut expected = vec![0u8; 32];
    expected[0] = 2;
    expected[16 + 7] = 2;
    assert_eq!(game.get_visible_map(), expected);
}

#[test]
fn viewport_beyond_the_map_is_empty() {
    let mut game = started("###\n...\n###");
    for _ in 0..2 {
        game.update();
    }
    assert_eq!(game.get_visible_x(), 1);
    let mut expected = vec![0u8; 32];
    expected[0] = 1;
    expected[1] = 1;
    expected[16] = 1;
    expected[17] = 1;
    assert_eq!(game.get_visible_map(), expected);
}
