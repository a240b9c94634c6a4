use rustdancer::{
    ClientMessage, Direction, Game, GameMap, Pos, ServerMessage, State, Tile,
};

// A hand-built world: a Border ring, Wall everywhere else, with the given
// cells carved or replaced, the player standing at `player`, and diamonds
// where listed.
fn world(player: (u32, u32), cells: &[(u32, u32, Tile)], diamonds: &[(u32, u32)]) -> GameMap {
    let mut tiles = Vec::new();
    for i in 0..1369u32 {
        let x = i % 37;
        let y = i / 37;
        if x == 0 || x == 36 || y == 0 || y == 36 {
            tiles.push(Tile::BORDER);
        } else {
            tiles.push(Tile::WALL);
        }
    }
    for &(x, y, t) in cells {
        tiles[(y * 37 + x) as usize] = t;
    }
    let ds = diamonds.iter().map(|&(x, y)| Pos::new(x, y)).collect();
    GameMap::new(tiles, Pos::new(player.0, player.1), ds)
}

fn started(map: GameMap) -> Game {
    let mut g = Game::new();
    g.install_map(map);
    g
}

#[test]
fn digging_opens_the_wall_and_keeps_the_player_in_place() {
    // MOVE LEFT with the player at (5,5) and a Wall at (4,5).
    let mut g = started(world((5, 5), &[(5, 5, Tile::EMPTY)], &[]));
    g.react_to_message(ClientMessage::Move(Direction::LEFT));
    assert_eq!(g.response(), None);
    for _ in 0..3 {
        assert!(!g.tick());
        assert_eq!(g.response(), None);
    }
    assert!(!g.tick());
    assert_eq!(g.response(), Some(ServerMessage::ValidMove));
    assert_eq!(g.map.tile_at(Pos::new(4, 5)), Some(Tile::EMPTY));
    assert_eq!(g.map.player_pos(), Pos::new(5, 5));
}

#[test]
fn moving_onto_an_empty_tile_relocates_the_player() {
    // MOVE UP with the player at (5,5) and an Empty tile at (5,4).
    let mut g = started(world((5, 5), &[(5, 5, Tile::EMPTY), (5, 4, Tile::EMPTY)], &[]));
    g.react_to_message(ClientMessage::Move(Direction::UP));
    for _ in 0..4 {
        assert!(!g.tick());
    }
    assert_eq!(g.response(), Some(ServerMessage::ValidMove));
    assert_eq!(g.map.player_pos(), Pos::new(5, 4));
}

#[test]
fn moving_into_stone_is_refused_without_mutation() {
    // MOVE RIGHT with the player at (5,5) and Stone at (6,5).
    let mut g = started(world((5, 5), &[(5, 5, Tile::EMPTY), (6, 5, Tile::STONE)], &[]));
    let before = g.map.repr();
    g.react_to_message(ClientMessage::Move(Direction::RIGHT));
    assert_eq!(
        g.response(),
        Some(ServerMessage::Error(b"invalid move".to_vec()))
    );
    assert_eq!(g.map.repr(), before);
    assert_eq!(g.state, State::PLAYING);
    assert!(g.tick());
}

#[test]
fn moving_into_the_border_is_refused() {
    let mut g = started(world((1, 5), &[(1, 5, Tile::EMPTY)], &[]));
    g.react_to_message(ClientMessage::Move(Direction::LEFT));
    assert_eq!(
        g.response(),
        Some(ServerMessage::Error(b"invalid move".to_vec()))
    );
}

#[test]
fn no_reply_is_offered_while_an_action_is_pending() {
    let mut g = started(world((5, 5), &[(5, 5, Tile::EMPTY), (5, 4, Tile::EMPTY)], &[]));
    g.react_to_message(ClientMessage::Move(Direction::UP));
    // A second MOVE before the first resolves: still no reply until the
    // pending action has run its course.
    assert_eq!(g.response(), None);
    g.react_to_message(ClientMessage::Move(Direction::UP));
    assert_eq!(g.response(), None);
    assert!(!g.tick());
    assert_eq!(g.response(), None);
}

#[test]
fn reaching_the_exit_with_no_diamonds_wins() {
    let cells = [
        (17, 18, Tile::EMPTY),
        (18, 18, Tile::EXIT),
    ];
    let mut g = started(world((17, 18), &cells, &[]));
    g.react_to_message(ClientMessage::Move(Direction::RIGHT));
    for _ in 0..4 {
        g.tick();
    }
    assert_eq!(g.state, State::WON);
    assert_eq!(g.response(), Some(ServerMessage::ValidMove));
}

#[test]
fn reaching_the_exit_with_diamonds_left_does_not_win() {
    let cells = [
        (17, 18, Tile::EMPTY),
        (18, 18, Tile::EXIT),
        (3, 3, Tile::EMPTY),
    ];
    let mut g = started(world((17, 18), &cells, &[(3, 3)]));
    g.react_to_message(ClientMessage::Move(Direction::RIGHT));
    for _ in 0..4 {
        g.tick();
    }
    assert_eq!(g.state, State::PLAYING);
}

#[test]
fn landing_on_a_diamond_collects_exactly_one() {
    let cells = [(5, 5, Tile::EMPTY), (5, 4, Tile::EMPTY), (3, 3, Tile::EMPTY)];
    let mut g = started(world((5, 5), &cells, &[(5, 4), (3, 3)]));
    assert_eq!(g.diamonds_left, 2);
    g.react_to_message(ClientMessage::Move(Direction::UP));
    for _ in 0..4 {
        g.tick();
    }
    assert_eq!(g.diamonds_left, 1);
    assert_eq!(g.map.diamonds_pos(), vec![Pos::new(3, 3)]);
}

#[test]
fn end_game_stops_the_session() {
    let mut g = started(world((5, 5), &[(5, 5, Tile::EMPTY)], &[]));
    g.react_to_message(ClientMessage::EndGame);
    assert_eq!(g.state, State::STOPPED);
    assert_eq!(g.response(), Some(ServerMessage::EndGame));
    // Further commands are ignored.
    g.react_to_message(ClientMessage::GetMap);
    assert_eq!(g.response(), None);
}

#[test]
fn stopped_session_counts_down_to_the_shutdown_sentinel() {
    let mut g = started(world((5, 5), &[(5, 5, Tile::EMPTY)], &[]));
    g.react_to_message(ClientMessage::EndGame);
    assert_eq!(g.response(), Some(ServerMessage::EndGame));
    for _ in 0..6 {
        assert!(!g.tick());
        assert_eq!(g.response(), None);
    }
    assert!(g.tick());
    assert_eq!(g.response(), Some(ServerMessage::EndConnection));
}

#[test]
fn map_command_returns_the_representation() {
    let mut g = started(world((5, 5), &[(5, 5, Tile::EMPTY)], &[]));
    let expected = g.map.repr();
    g.react_to_message(ClientMessage::GetMap);
    assert_eq!(g.response(), Some(ServerMessage::MapResponse(expected)));
}

#[test]
fn empty_command_is_answered_with_an_error() {
    let mut g = started(world((5, 5), &[(5, 5, Tile::EMPTY)], &[]));
    g.react_to_message(ClientMessage::EmptyCommand);
    assert_eq!(
        g.response(),
        Some(ServerMessage::Error(b"empty command".to_vec()))
    );
}

#[test]
fn unknown_command_is_answered_with_an_error() {
    let mut g = started(world((5, 5), &[(5, 5, Tile::EMPTY)], &[]));
    g.react_to_message(ClientMessage::UnknownCommand(b"HELLO".to_vec()));
    assert_eq!(
        g.response(),
        Some(ServerMessage::Error(
            b"unknown command \xc2\xabHELLO\xc2\xbb".to_vec()
        ))
    );
}

#[test]
fn invalid_arguments_are_echoed_as_the_error() {
    let mut g = started(world((5, 5), &[(5, 5, Tile::EMPTY)], &[]));
    g.react_to_message(ClientMessage::InvalidArguments(
        b"invalid direction \xc2\xabXX\xc2\xbb".to_vec(),
    ));
    assert_eq!(
        g.response(),
        Some(ServerMessage::Error(
            b"invalid direction \xc2\xabXX\xc2\xbb".to_vec()
        ))
    );
}

#[test]
fn a_session_can_be_reset_from_a_seed() {
    let mut g = Game::new();
    assert_eq!(g.state, State::STOPPED);
    g.reset(42);
    assert_eq!(g.state, State::PLAYING);
    assert_eq!(g.diamonds_left, 10);
    let expected = GameMap::generate(42).repr();
    g.react_to_message(ClientMessage::GetMap);
    assert_eq!(g.response(), Some(ServerMessage::MapResponse(expected)));
}

#[test]
fn an_interrupt_stops_a_playing_session() {
    let mut g = started(world((5, 5), &[(5, 5, Tile::EMPTY)], &[]));
    g.interrupt();
    assert_eq!(g.state, State::STOPPED);
    g.react_to_message(ClientMessage::GetMap);
    assert_eq!(g.response(), None);
}

#[test]
fn an_interrupt_does_not_demote_a_won_session() {
    let cells = [(17, 18, Tile::EMPTY), (18, 18, Tile::EXIT)];
    let mut g = started(world((17, 18), &cells, &[]));
    g.react_to_message(ClientMessage::Move(Direction::RIGHT));
    for _ in 0..4 {
        g.tick();
    }
    assert_eq!(g.state, State::WON);
    g.interrupt();
    assert_eq!(g.state, State::WON);
}

#[test]
fn a_pending_action_still_completes_after_an_interrupt() {
    let mut g = started(world((5, 5), &[(5, 5, Tile::EMPTY)], &[]));
    g.react_to_message(ClientMessage::Move(Direction::LEFT));
    g.interrupt();
    assert_eq!(g.state, State::STOPPED);
    for _ in 0..4 {
        g.tick();
    }
    assert_eq!(g.map.tile_at(Pos::new(4, 5)), Some(Tile::EMPTY));
}
