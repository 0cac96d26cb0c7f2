use snake_core::game::{BodySegment, GameGridComponent, MapState, Msg, PlayerStateData};
use snake_core::grid::{advance, is_boundary, Direction, PositionCoords};

fn fresh(x: i8, y: i8, direction: Direction) -> GameGridComponent {
    GameGridComponent {
        x,
        y,
        current_direction: direction,
        pending_body_segment: false,
        score: 0,
        paused: false,
        dead: false,
        food_positions: vec![],
        body_segments: vec![],
        network_id: 0,
        player_states: vec![],
    }
}

#[test]
fn advance_opposite_headings_return() {
    for x in 0..32i8 {
        for y in 0..32i8 {
            let p = PositionCoords::new(x, y);
            assert_eq!(advance(advance(p, Direction::UP), Direction::DOWN), p);
            assert_eq!(advance(advance(p, Direction::DOWN), Direction::UP), p);
            assert_eq!(advance(advance(p, Direction::LEFT), Direction::RIGHT), p);
            assert_eq!(advance(advance(p, Direction::RIGHT), Direction::LEFT), p);
        }
    }
}

#[test]
fn advance_wraps_at_edges() {
    assert_eq!(advance(PositionCoords::new(4, 0), Direction::UP), PositionCoords::new(4, 31));
    assert_eq!(advance(PositionCoords::new(4, 31), Direction::DOWN), PositionCoords::new(4, 0));
    assert_eq!(advance(PositionCoords::new(0, 9), Direction::LEFT), PositionCoords::new(31, 9));
    assert_eq!(advance(PositionCoords::new(31, 9), Direction::RIGHT), PositionCoords::new(0, 9));
}

#[test]
fn boundary_cells_are_the_margin() {
    assert!(is_boundary(0, 10));
    assert!(is_boundary(31, 10));
    assert!(is_boundary(10, 0));
    assert!(is_boundary(10, 31));
    assert!(!is_boundary(1, 1));
    assert!(!is_boundary(30, 30));
}

#[test]
fn spawn_heading_right_wraps_after_27_ticks() {
    let mut game = fresh(5, 5, Direction::RIGHT);
    for _ in 0..27 {
        game.update(Msg::GameTicked(()));
    }
    assert_eq!(game.x, 0);
    assert_eq!(game.y, 5);
}

#[test]
fn tick_shifts_segments_back_to_front() {
    let mut game = fresh(10, 10, Direction::RIGHT);
    game.body_segments = vec![
        BodySegment { x: 9, y: 10, direction: Direction::RIGHT },
        BodySegment { x: 8, y: 10, direction: Direction::RIGHT },
        BodySegment { x: 8, y: 11, direction: Direction::UP },
    ];
    game.handle_tick();
    assert_eq!(game.x, 11);
    assert_eq!(game.y, 10);
    assert_eq!(
        game.body_segments,
        vec![
            BodySegment { x: 10, y: 10, direction: Direction::RIGHT },
            BodySegment { x: 9, y: 10, direction: Direction::RIGHT },
            BodySegment { x: 8, y: 10, direction: Direction::RIGHT },
        ]
    );
}

#[test]
fn growth_appends_at_eating_position() {
    let mut game = fresh(4, 5, Direction::RIGHT);
    game.food_positions = vec![PositionCoords::new(5, 5), PositionCoords::new(6, 5)];
    let effects = game.update(Msg::GameTicked(()));
    assert!(effects.eat_food.is_some());
    assert!(game.pending_body_segment);
    assert_eq!(game.score, 1);
    assert_eq!(game.body_segments.len(), 0);
    let effects = game.update(Msg::GameTicked(()));
    assert!(effects.eat_food.is_some());
    assert_eq!(game.score, 2);
    assert_eq!(game.body_segments.len(), 1);
    // The segment grown by the second tick sits where the head ate the first
    // food.
    assert_eq!(game.body_segments[0].x, 5);
    assert_eq!(game.body_segments[0].y, 5);
    let _ = game.update(Msg::GameTicked(()));
    assert_eq!(game.body_segments.len(), 2);
    assert_eq!(game.score, 2);
}

#[test]
fn self_collision_pauses_until_restart() {
    let mut game = fresh(10, 10, Direction::RIGHT);
    game.body_segments = vec![BodySegment { x: 10, y: 10, direction: Direction::RIGHT }];
    assert!(game.is_game_over());
    let effects = game.update(Msg::GameTicked(()));
    assert!(effects.player_state.is_none());
    assert!(game.paused);
    assert!(game.dead);
    // A further tick is a no-op while dead.
    let effects = game.update(Msg::GameTicked(()));
    assert!(!effects.render);
    assert!(effects.player_state.is_none());
    assert!(effects.eat_food.is_none());
    assert_eq!(game.x, 10);
    assert_eq!(game.y, 10);
    game.update(Msg::RestartGame(()));
    assert!(!game.paused);
    assert!(!game.dead);
    assert_eq!(game.score, 0);
    assert!(game.body_segments.is_empty());
    assert!(game.x >= 1 && game.x <= 30);
    assert!(game.y >= 1 && game.y <= 30);
}

#[test]
fn opponent_collision_is_game_over() {
    let mut game = fresh(7, 8, Direction::UP);
    game.player_states = vec![PlayerStateData {
        player_id: 9,
        body_segments: vec![BodySegment { x: 7, y: 8, direction: Direction::LEFT }],
    }];
    assert!(game.is_game_over());
}

#[test]
fn boundary_cells_do_not_end_the_game() {
    for &(x, y) in &[(0i8, 0i8), (0, 15), (31, 15), (15, 0), (15, 31), (31, 31)] {
        let game = fresh(x, y, Direction::UP);
        assert!(!game.is_game_over());
    }
}

#[test]
fn unassigned_id_suppresses_player_state() {
    let mut game = fresh(5, 5, Direction::RIGHT);
    for _ in 0..40 {
        let effects = game.update(Msg::GameTicked(()));
        assert!(effects.player_state.is_none());
    }
    assert_eq!(game.network_id, 0);
}

#[test]
fn assigned_id_enables_player_state() {
    let mut game = fresh(5, 5, Direction::RIGHT);
    game.update(Msg::UpdateNetworkId(7));
    let effects = game.update(Msg::GameTicked(()));
    let state = effects.player_state.expect("player_state owed once an id is assigned");
    assert_eq!(state.player_id, 7);
    // The head travels as a synthetic last segment.
    assert_eq!(state.body_segments.len(), 1);
    assert_eq!(state.body_segments[0].x, 6);
    assert_eq!(state.body_segments[0].y, 5);
}

#[test]
fn keydown_changes_heading_on_arrows_only() {
    let mut game = fresh(5, 5, Direction::RIGHT);
    game.handle_keydown("ArrowUp");
    assert_eq!(game.current_direction, Direction::UP);
    game.handle_keydown("ArrowLeft");
    assert_eq!(game.current_direction, Direction::LEFT);
    game.handle_keydown("ArrowDown");
    assert_eq!(game.current_direction, Direction::DOWN);
    game.handle_keydown("ArrowRight");
    assert_eq!(game.current_direction, Direction::RIGHT);
    game.handle_keydown(" ");
    assert_eq!(game.current_direction, Direction::RIGHT);
}

#[test]
fn pause_toggles_and_stops_ticks() {
    let mut game = fresh(5, 5, Direction::RIGHT);
    game.update(Msg::HandlePause(()));
    assert!(game.paused);
    let effects = game.update(Msg::GameTicked(()));
    assert!(!effects.render);
    assert_eq!(game.x, 5);
    game.update(Msg::HandlePause(()));
    assert!(!game.paused);
}

#[test]
fn authoritative_updates_replace_wholesale() {
    let mut game = fresh(5, 5, Direction::RIGHT);
    game.food_positions = vec![PositionCoords::new(1, 1)];
    game.update(Msg::UpdateMapState(MapState {
        food_positions: vec![PositionCoords::new(2, 2), PositionCoords::new(3, 3)],
    }));
    assert_eq!(game.food_positions.len(), 2);
    assert!(game.is_food_coordinate(2, 2));
    assert!(!game.is_food_coordinate(1, 1));
    game.update(Msg::UpdatePlayerStates(vec![PlayerStateData {
        player_id: 4,
        body_segments: vec![BodySegment { x: 9, y: 9, direction: Direction::DOWN }],
    }]));
    assert!(game.is_other_player_segment(9, 9));
    game.update(Msg::UpdatePlayerStates(vec![]));
    assert!(!game.is_other_player_segment(9, 9));
}

#[test]
fn create_spawns_inside_playable_area() {
    let game = GameGridComponent::create();
    assert!(game.x >= 1 && game.x <= 30);
    assert!(game.y >= 1 && game.y <= 30);
    assert_eq!(game.current_direction, Direction::RIGHT);
    assert_eq!(game.network_id, 0);
    assert_eq!(game.score, 0);
    assert!(game.body_segments.is_empty());
    assert!(!game.paused);
    assert!(!game.dead);
}
