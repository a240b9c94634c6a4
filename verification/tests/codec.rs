use rustdancer::{ClientMessage, Direction, ServerMessage};

fn decode(line: &[u8]) -> ClientMessage {
    ClientMessage::from_bytes(&line.to_vec())
}

#[test]
fn empty_line_is_empty_command() {
    assert_eq!(decode(b""), ClientMessage::EmptyCommand);
}

#[test]
fn whitespace_only_line_is_empty_command() {
    assert_eq!(decode(b"  \t "), ClientMessage::EmptyCommand);
}

#[test]
fn end_parses() {
    assert_eq!(decode(b"END"), ClientMessage::EndGame);
}

#[test]
fn end_with_argument_is_rejected() {
    assert_eq!(
        decode(b"END x"),
        ClientMessage::InvalidArguments(
            b"too many arguments for command \xc2\xabEND\xc2\xbb".to_vec()
        )
    );
}

#[test]
fn map_parses() {
    assert_eq!(decode(b"MAP"), ClientMessage::GetMap);
}

#[test]
fn map_with_argument_is_rejected() {
    assert_eq!(
        decode(b"MAP now"),
        ClientMessage::InvalidArguments(
            b"too many arguments for command \xc2\xabMAP\xc2\xbb".to_vec()
        )
    );
}

#[test]
fn move_parses_each_direction() {
    assert_eq!(decode(b"MOVE UP"), ClientMessage::Move(Direction::UP));
    assert_eq!(decode(b"MOVE DOWN"), ClientMessage::Move(Direction::DOWN));
    assert_eq!(decode(b"MOVE LEFT"), ClientMessage::Move(Direction::LEFT));
    assert_eq!(decode(b"MOVE RIGHT"), ClientMessage::Move(Direction::RIGHT));
}

#[test]
fn move_without_direction_is_rejected() {
    assert_eq!(
        decode(b"MOVE"),
        ClientMessage::InvalidArguments(
            b"missing arguments for command \xc2\xabMOVE\xc2\xbb".to_vec()
        )
    );
}

#[test]
fn move_with_unknown_direction_is_rejected() {
    assert_eq!(
        decode(b"MOVE NORTH"),
        ClientMessage::InvalidArguments(b"invalid direction \xc2\xabNORTH\xc2\xbb".to_vec())
    );
}

#[test]
fn move_direction_is_case_sensitive() {
    assert_eq!(
        decode(b"MOVE up"),
        ClientMessage::InvalidArguments(b"invalid direction \xc2\xabup\xc2\xbb".to_vec())
    );
}

#[test]
fn move_with_two_directions_is_rejected() {
    assert_eq!(
        decode(b"MOVE UP DOWN"),
        ClientMessage::InvalidArguments(
            b"too many arguments for command \xc2\xabMOVE\xc2\xbb".to_vec()
        )
    );
}

#[test]
fn unknown_word_is_unknown_command() {
    assert_eq!(decode(b"HELLO"), ClientMessage::UnknownCommand(b"HELLO".to_vec()));
}

#[test]
fn leading_whitespace_is_ignored() {
    assert_eq!(decode(b"   END  "), ClientMessage::EndGame);
}

#[test]
fn client_round_trip_fixed_commands() {
    for m in [
        ClientMessage::EmptyCommand,
        ClientMessage::EndGame,
        ClientMessage::GetMap,
        ClientMessage::Move(Direction::UP),
        ClientMessage::Move(Direction::DOWN),
        ClientMessage::Move(Direction::LEFT),
        ClientMessage::Move(Direction::RIGHT),
        ClientMessage::UnknownCommand(b"HELLO".to_vec()),
    ] {
        let wire = match &m {
            ClientMessage::EmptyCommand => ClientMessage::EmptyCommand.into_bytes(),
            ClientMessage::EndGame => ClientMessage::EndGame.into_bytes(),
            ClientMessage::GetMap => ClientMessage::GetMap.into_bytes(),
            ClientMessage::Move(d) => ClientMessage::Move(*d).into_bytes(),
            ClientMessage::UnknownCommand(c) => {
                ClientMessage::UnknownCommand(c.clone()).into_bytes()
            }
            _ => unreachable!(),
        };
        assert_eq!(ClientMessage::from_bytes(&wire), m);
    }
}

#[test]
fn move_encodes_canonically() {
    assert_eq!(ClientMessage::Move(Direction::UP).into_bytes(), b"MOVE UP".to_vec());
}

#[test]
fn server_replies_encode() {
    assert_eq!(ServerMessage::Error(b"oops".to_vec()).into_bytes(), b"NOK oops".to_vec());
    assert_eq!(ServerMessage::ValidMove.into_bytes(), b"OK".to_vec());
    assert_eq!(ServerMessage::EndGame.into_bytes(), b"END".to_vec());
    assert_eq!(ServerMessage::EndConnection.into_bytes(), b"".to_vec());
    assert_eq!(
        ServerMessage::MapResponse(b"BBBB".to_vec()).into_bytes(),
        b"BBBB".to_vec()
    );
}

#[test]
fn server_replies_decode() {
    assert_eq!(ServerMessage::from_bytes(&b"".to_vec()), ServerMessage::EndConnection);
    assert_eq!(ServerMessage::from_bytes(&b"OK".to_vec()), ServerMessage::ValidMove);
    assert_eq!(ServerMessage::from_bytes(&b"END".to_vec()), ServerMessage::EndGame);
    assert_eq!(
        ServerMessage::from_bytes(&b"NOK invalid move".to_vec()),
        ServerMessage::Error(b"invalid move".to_vec())
    );
    assert_eq!(
        ServerMessage::from_bytes(&b"BBBMMM".to_vec()),
        ServerMessage::MapResponse(b"BBBMMM".to_vec())
    );
}

#[test]
fn server_round_trip() {
    for m in [
        ServerMessage::EndConnection,
        ServerMessage::Error(b"empty command".to_vec()),
        ServerMessage::ValidMove,
        ServerMessage::MapResponse(b"BMP S".to_vec()),
        ServerMessage::EndGame,
    ] {
        let wire = match &m {
            ServerMessage::EndConnection => ServerMessage::EndConnection.into_bytes(),
            ServerMessage::Error(e) => ServerMessage::Error(e.clone()).into_bytes(),
            ServerMessage::ValidMove => ServerMessage::ValidMove.into_bytes(),
            ServerMessage::MapResponse(r) => ServerMessage::MapResponse(r.clone()).into_bytes(),
            ServerMessage::EndGame => ServerMessage::EndGame.into_bytes(),
        };
        assert_eq!(ServerMessage::from_bytes(&wire), m);
    }
}
