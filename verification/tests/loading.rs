use side_scroller::{Game, LoadError};

#[test]
fn unknown_character_is_refused() {
    assert_eq!(Game::new("..\n.x").err(), Some(LoadError::InvalidCharacter));
    assert_eq!(Game::load_map_from_string("R").err(), Some(LoadError::InvalidCharacter));
    assert_eq!(Game::load_map_from_string(". ").err(), Some(LoadError::InvalidCharacter));
}

#[test]
fn rectangular_map_has_its_rows_and_columns() {
    let game = Game::new("....#\n..r..\n#....").unwrap();
    assert_eq!(game.height(), 3);
    assert_eq!(game.width(), 5);
}

#[test]
fn characters_become_tile_codes() {
    let map = Game::load_map_from_string(".#r\nr#.").unwrap();
    assert_eq!(map, vec![vec![0u8, 1, 2], vec![2u8, 1, 0]]);
}

#[test]
fn ragged_rows_are_refused() {
    assert_eq!(Game::new("...\n..").err(), Some(LoadError::RaggedRows));
    assert_eq!(Game::new("..\n\n..").err(), Some(LoadError::RaggedRows));
}

#[test]
fn unknown_character_is_reported_before_ragged_rows() {
    assert_eq!(Game::new("...\n.?").err(), Some(LoadError::InvalidCharacter));
}

#[test]
fn final_line_ending_is_optional() {
    let with = Game::load_map_from_string("..\n.#\n").unwrap();
    let without = Game::load_map_from_string("..\n.#").unwrap();
    assert_eq!(with, without);
    assert_eq!(with.len(), 2);
}

#[test]
fn carriage_return_before_line_feed_belongs_to_the_ending() {
    let map = Game::load_map_from_string("..\r\n.#\r\n").unwrap();
    assert_eq!(map, vec![vec![0u8, 0], vec![0u8, 1]]);
}

#[test]
fn lone_carriage_return_is_an_unknown_character() {
    assert_eq!(Game::new("..\r..").err(), Some(LoadError::InvalidCharacter));
    assert_eq!(Game::new("..\n..\r").err(), Some(LoadError::InvalidCharacter));
}

#[test]
fn empty_text_is_a_map_without_rows() {
    let game = Game::new("").unwrap();
    assert_eq!(game.height(), 0);
    assert_eq!(game.width(), 0);
    assert_eq!(game.get_map(), Vec::<u8>::new());
}

#[test]
fn empty_lines_are_rows_without_columns() {
    let game = Game::new("\n\n").unwrap();
    assert_eq!(game.height(), 2);
    assert_eq!(game.width(), 0);
}

#[test]
fn largest_map_is_accepted() {
    let line = ".".repeat(256);
    let mut text = String::new();
    for _ in 0..256 {
        text.push_str(&line);
        text.push('\n');
    }
    let game = Game::new(&text).unwrap();
    assert_eq!(game.height(), 256);
    assert_eq!(game.width(), 256);
}

#[test]
fn too_many_columns_are_refused() {
    let line = ".".repeat(257);
    assert_eq!(Game::new(&line).err(), Some(LoadError::TooLarge));
}

#[test]
fn too_many_rows_are_refused() {
    let text = ".\n".repeat(257);
    assert_eq!(Game::new(&text).err(), Some(LoadError::TooLarge));
}

#[test]
fn new_game_is_at_rest() {
    let game = Game::new("...\n...").unwrap();
    assert_eq!(game.get_player().y(), 1);
    assert_eq!(game.get_score(), 0);
    assert_eq!(game.get_visible_x(), 0);
    assert_eq!(game.get_time(), 0);
    assert_eq!(game.num_bullets(), 0);
    assert!(!game.is_started());
    assert!(!game.is_ended());
    assert!(!game.is_won());
}
