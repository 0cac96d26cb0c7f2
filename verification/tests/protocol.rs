use snake_core::codec::{
    chars_of, encode_coord, encode_eat_food_message, encode_envelope, encode_player_data,
    escape_str, parse_envelope, parse_map_state, parse_player_states, u64_to_string,
};
use snake_core::game::{BodySegment, GameGridComponent, Msg, PlayerStateData};
use snake_core::grid::{Direction, PositionCoords};

fn fresh(x: i8, y: i8, direction: Direction) -> GameGridComponent {
    GameGridComponent {
        x,
        y,
        current_direction: direction,
        pending_body_segment: false,
        score: 0,
        paused: false,
        dead: false,
        food_positions: vec![],
        body_segments: vec![],
        network_id: 0,
        player_states: vec![],
    }
}

#[test]
fn decimal_encoding_is_canonical() {
    assert_eq!(u64_to_string(0), "0");
    assert_eq!(u64_to_string(7), "7");
    assert_eq!(u64_to_string(31), "31");
    assert_eq!(u64_to_string(12345), "12345");
    assert_eq!(u64_to_string(u64::MAX), "18446744073709551615");
}

#[test]
fn escaping_quotes_and_backslashes() {
    assert_eq!(escape_str("plain"), "plain");
    assert_eq!(escape_str("{\"x\":5}"), "{\\\"x\\\":5}");
    assert_eq!(escape_str("a\\b"), "a\\\\b");
}

#[test]
fn eat_food_envelope_exact_text() {
    let frame = encode_eat_food_message(3, PositionCoords::new(5, 5));
    assert_eq!(
        frame,
        "{\"message_type\":\"eat_food\",\"player_id\":3,\"message\":\"{\\\"x\\\":5,\\\"y\\\":5}\"}"
    );
}

#[test]
fn player_state_envelope_exact_text() {
    let data = PlayerStateData {
        player_id: 7,
        body_segments: vec![
            BodySegment { x: 5, y: 5, direction: Direction::RIGHT },
            BodySegment { x: 6, y: 5, direction: Direction::RIGHT },
        ],
    };
    let frame = encode_player_data(7, &data);
    let expected = "{\"message_type\":\"player_state\",\"player_id\":7,\"message\":\"{\\\"player_id\\\":7,\\\"body_segments\\\":[{\\\"x\\\":5,\\\"y\\\":5,\\\"direction\\\":\\\"RIGHT\\\"},{\\\"x\\\":6,\\\"y\\\":5,\\\"direction\\\":\\\"RIGHT\\\"}]}\"}";
    assert_eq!(frame, expected);
}

#[test]
fn envelope_round_trip_at_runtime() {
    let frame = encode_envelope("player_state", 42, "{\"player_id\":42,\"body_segments\":[]}");
    let chars = chars_of(&frame);
    let (ty, id, msg) = parse_envelope(&chars).expect("canonical frame must parse");
    assert_eq!(ty.iter().collect::<String>(), "player_state");
    assert_eq!(id, 42);
    assert_eq!(msg.iter().collect::<String>(), "{\"player_id\":42,\"body_segments\":[]}");
}

#[test]
fn malformed_envelopes_are_rejected() {
    let cases = [
        "",
        "{",
        "{\"message_type\":\"assign_id\"}",
        "{\"message_type\":\"assign_id\",\"player_id\":007,\"message\":\"\"}",
        "{\"message_type\":\"assign_id\",\"player_id\":-1,\"message\":\"\"}",
        "{\"message_type\":\"assign_id\",\"player_id\":18446744073709551616,\"message\":\"\"}",
        "{\"message_type\":\"assign_id\",\"player_id\":7,\"message\":\"\"} ",
        "{\"message_type\":\"assign_id\",\"player_id\":7,\"message\":\"unterminated}",
    ];
    for frame in cases {
        let chars = chars_of(frame);
        assert!(parse_envelope(&chars).is_none(), "should reject: {frame}");
    }
}

#[test]
fn player_states_payload_parses() {
    let payload = "[{\"player_id\":2,\"body_segments\":[{\"x\":3,\"y\":4,\"direction\":\"UP\"}]},{\"player_id\":5,\"body_segments\":[]}]";
    let states = parse_player_states(&chars_of(payload)).expect("canonical payload must parse");
    assert_eq!(states.len(), 2);
    assert_eq!(states[0].player_id, 2);
    assert_eq!(states[0].body_segments.len(), 1);
    assert_eq!(states[0].body_segments[0].x, 3);
    assert_eq!(states[0].body_segments[0].y, 4);
    assert_eq!(states[0].body_segments[0].direction, Direction::UP);
    assert_eq!(states[1].player_id, 5);
    assert!(states[1].body_segments.is_empty());
}

#[test]
fn player_states_payload_rejects_off_grid() {
    let payload = "[{\"player_id\":2,\"body_segments\":[{\"x\":32,\"y\":4,\"direction\":\"UP\"}]}]";
    assert!(parse_player_states(&chars_of(payload)).is_none());
}

#[test]
fn map_state_payload_parses() {
    let food = parse_map_state(&chars_of("{\"food_positions\":[{\"x\":5,\"y\":5},{\"x\":0,\"y\":31}]}"))
        .expect("canonical payload must parse");
    assert_eq!(food, vec![PositionCoords::new(5, 5), PositionCoords::new(0, 31)]);
    let none = parse_map_state(&chars_of("{\"food_positions\":[]}")).expect("empty list is canonical");
    assert!(none.is_empty());
}

#[test]
fn assign_id_frame_sets_identity_and_next_tick_reports_it() {
    let mut game = fresh(5, 5, Direction::RIGHT);
    game.handle_inbound("{\"message_type\":\"assign_id\",\"player_id\":7,\"message\":\"\"}");
    assert_eq!(game.network_id, 7);
    let effects = game.update(Msg::GameTicked(()));
    let state = effects.player_state.expect("player_state owed under identity 7");
    assert_eq!(state.player_id, 7);
    let frame = encode_player_data(game.network_id, &state);
    assert!(frame.starts_with("{\"message_type\":\"player_state\",\"player_id\":7,"));
}

#[test]
fn eating_food_scenario() {
    let mut game = fresh(4, 5, Direction::RIGHT);
    game.network_id = 3;
    game.handle_inbound(
        "{\"message_type\":\"map_state\",\"player_id\":0,\"message\":\"{\\\"food_positions\\\":[{\\\"x\\\":5,\\\"y\\\":5}]}\"}",
    );
    assert_eq!(game.food_positions, vec![PositionCoords::new(5, 5)]);
    let effects = game.update(Msg::GameTicked(()));
    assert!(game.is_food_eaten());
    assert!(game.pending_body_segment);
    assert_eq!(game.score, 1);
    let eaten = effects.eat_food.expect("eat_food owed on the food cell");
    assert_eq!(eaten, PositionCoords::new(5, 5));
    let frame = encode_eat_food_message(game.network_id, eaten);
    assert_eq!(
        frame,
        "{\"message_type\":\"eat_food\",\"player_id\":3,\"message\":\"{\\\"x\\\":5,\\\"y\\\":5}\"}"
    );
    // The food is not removed locally; only an authoritative update removes
    // it.
    assert!(game.is_food_coordinate(5, 5));
}

#[test]
fn player_states_frame_replaces_opponents() {
    let mut game = fresh(5, 5, Direction::RIGHT);
    game.handle_inbound(
        "{\"message_type\":\"player_states\",\"player_id\":0,\"message\":\"[{\\\"player_id\\\":2,\\\"body_segments\\\":[{\\\"x\\\":9,\\\"y\\\":9,\\\"direction\\\":\\\"LEFT\\\"}]}]\"}",
    );
    assert_eq!(game.player_states.len(), 1);
    assert!(game.is_other_player_segment(9, 9));
}

#[test]
fn unknown_and_malformed_inbound_frames_are_ignored() {
    let mut game = fresh(5, 5, Direction::RIGHT);
    game.network_id = 11;
    let before_food = game.food_positions.clone();
    game.handle_inbound("{\"message_type\":\"heartbeat\",\"player_id\":4,\"message\":\"\"}");
    assert_eq!(game.network_id, 11);
    game.handle_inbound("not json at all");
    game.handle_inbound("{\"message_type\":\"map_state\",\"player_id\":0,\"message\":\"{broken\"}");
    assert_eq!(game.network_id, 11);
    assert_eq!(game.food_positions, before_food);
    assert!(game.player_states.is_empty());
}

#[test]
fn largest_player_id_round_trips() {
    let frame =
        "{\"message_type\":\"assign_id\",\"player_id\":18446744073709551615,\"message\":\"\"}";
    let (ty, id, _) = parse_envelope(&chars_of(frame)).expect("maximal id is canonical");
    assert_eq!(ty.iter().collect::<String>(), "assign_id");
    assert_eq!(id, u64::MAX);
}

#[test]
fn map_state_payload_rejects_off_grid() {
    assert!(parse_map_state(&chars_of("{\"food_positions\":[{\"x\":5,\"y\":32}]}")).is_none());
}

#[test]
fn coordinate_payload_exact_text() {
    assert_eq!(encode_coord(PositionCoords::new(0, 31)), "{\"x\":0,\"y\":31}");
}
