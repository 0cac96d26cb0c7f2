//! The per-client game engine: local snake state, the tick-driven movement
//! and growth simulation, collision and food predicates, and the dispatch of
//! inbound authoritative updates.
//!
//! Every mutation is specified against the mathematical model `GameView`;
//! the tick itself is pinned to `spec_tick`, and the general invariants of
//! the engine are stated and proved as lemmas below.

use crate::grid::{
    in_bounds, spec_advance, Coord, Direction, PositionCoords, BOUNDARY_THICKNESS, GRID_HEIGHT,
    GRID_OFFSET, GRID_WIDTH,
};
use crate::random::{get_random_direction, get_random_position};
use vstd::prelude::*;

verus! {

#[derive(Clone, Copy, PartialEq, Eq, Structural, Debug)]
pub struct BodySegment {
    pub x: i8,
    pub y: i8,
    pub direction: Direction,
}

/// Mathematical model of one body segment.
pub ghost struct Seg {
    pub x: int,
    pub y: int,
    pub direction: Direction,
}

impl Seg {
    pub open spec fn coord(self) -> Coord {
        Coord { x: self.x, y: self.y }
    }
}

impl View for BodySegment {
    type V = Seg;

    open spec fn view(&self) -> Seg {
        Seg { x: self.x as int, y: self.y as int, direction: self.direction }
    }
}

impl DeepView for BodySegment {
    type V = Seg;

    open spec fn deep_view(&self) -> Seg {
        self.view()
    }
}

#[derive(Clone, PartialEq, Eq, Debug)]
pub struct PlayerStateData {
    pub player_id: u64,
    pub body_segments: Vec<BodySegment>,
}

/// Mathematical model of one player's reported state.
pub ghost struct PlayerView {
    pub player_id: int,
    pub segments: Seq<Seg>,
}

impl View for PlayerStateData {
    type V = PlayerView;

    open spec fn view(&self) -> PlayerView {
        PlayerView { player_id: self.player_id as int, segments: self.body_segments.deep_view() }
    }
}

impl DeepView for PlayerStateData {
    type V = PlayerView;

    open spec fn deep_view(&self) -> PlayerView {
        self.view()
    }
}

#[derive(Clone, PartialEq, Eq, Debug)]
pub struct MapState {
    pub food_positions: Vec<PositionCoords>,
}

impl View for MapState {
    type V = Seq<Coord>;

    open spec fn view(&self) -> Seq<Coord> {
        self.food_positions.deep_view()
    }
}

/// Mathematical model of the whole engine state.
pub ghost struct GameView {
    pub x: int,
    pub y: int,
    pub current_direction: Direction,
    pub pending_body_segment: bool,
    pub score: int,
    pub paused: bool,
    pub dead: bool,
    pub food_positions: Seq<Coord>,
    pub body_segments: Seq<Seg>,
    pub network_id: int,
    pub player_states: Seq<PlayerView>,
}

impl GameView {
    pub open spec fn head(self) -> Coord {
        Coord { x: self.x, y: self.y }
    }

    /// The head rendered as a segment: its position and the heading it is
    /// moving in.
    pub open spec fn head_seg(self) -> Seg {
        Seg { x: self.x, y: self.y, direction: self.current_direction }
    }

    /// Well-formedness: neither the head nor any stored body segment ever
    /// leaves the grid.
    pub open spec fn wf(self) -> bool {
        &&& in_bounds(self.head())
        &&& forall|i: int|
            0 <= i < self.body_segments.len() ==> in_bounds(
                #[trigger] self.body_segments[i].coord(),
            )
    }
}

pub struct GameGridComponent {
    pub x: i8,
    pub y: i8,
    pub current_direction: Direction,
    pub pending_body_segment: bool,
    pub score: u64,
    pub paused: bool,
    pub dead: bool,
    pub food_positions: Vec<PositionCoords>,
    pub body_segments: Vec<BodySegment>,
    pub network_id: u64,
    pub player_states: Vec<PlayerStateData>,
}

impl View for GameGridComponent {
    type V = GameView;

    open spec fn view(&self) -> GameView {
        GameView {
            x: self.x as int,
            y: self.y as int,
            current_direction: self.current_direction,
            pending_body_segment: self.pending_body_segment,
            score: self.score as int,
            paused: self.paused,
            dead: self.dead,
            food_positions: self.food_positions.deep_view(),
            body_segments: self.body_segments.deep_view(),
            network_id: self.network_id as int,
            player_states: self.player_states.deep_view(),
        }
    }
}

pub enum Msg {
    GameTicked(()),
    HandleKeyboardEvent(String),
    RestartGame(()),
    HandlePause(()),
    UpdateNetworkId(u64),
    UpdatePlayerStates(Vec<PlayerStateData>),
    UpdateMapState(MapState),
}

/// What one call of `update` asks the caller to do besides re-rendering:
/// the outbound messages owed to the peer, in emission order
/// (`player_state` before `eat_food`).
pub struct UpdateEffects {
    pub render: bool,
    pub player_state: Option<PlayerStateData>,
    pub eat_food: Option<PositionCoords>,
}

// ---------------------------------------------------------------------------
// The specification model.
// ---------------------------------------------------------------------------

pub open spec fn spec_is_body_segment(v: GameView, x: int, y: int) -> bool {
    exists|i: int|
        0 <= i < v.body_segments.len() && v.body_segments[i].x == x && v.body_segments[i].y == y
}

pub open spec fn spec_is_other_player_segment(v: GameView, x: int, y: int) -> bool {
    exists|i: int, j: int|
        0 <= i < v.player_states.len() && 0 <= j < v.player_states[i].segments.len()
            && v.player_states[i].segments[j].x == x && v.player_states[i].segments[j].y == y
}

/// The game is over exactly when the head coincides with one of the snake's
/// own segments or with any opponent segment. Margin cells are deliberately
/// not collision barriers.
pub open spec fn spec_is_game_over(v: GameView) -> bool {
    spec_is_body_segment(v, v.x, v.y) || spec_is_other_player_segment(v, v.x, v.y)
}

pub open spec fn spec_is_food_at(v: GameView, x: int, y: int) -> bool {
    exists|i: int|
        0 <= i < v.food_positions.len() && v.food_positions[i].x == x && v.food_positions[i].y
            == y
}

/// One back-to-front shift: each segment takes the state its predecessor
/// held, and the foremost segment takes the pre-move head state.
pub open spec fn spec_shift(segs: Seq<Seg>, head: Seg) -> Seq<Seg> {
    if segs.len() == 0 {
        segs
    } else {
        Seq::new(segs.len(), |i: int| if i == 0 { head } else { segs[i - 1] })
    }
}

/// The segments after one tick: a pending growth first appends a segment at
/// the pre-move head, then every segment copies its predecessor.
pub open spec fn spec_tick_segments(v: GameView) -> Seq<Seg> {
    let base = if v.pending_body_segment {
        v.body_segments.push(v.head_seg())
    } else {
        v.body_segments
    };
    spec_shift(base, v.head_seg())
}

/// One tick: the head advances toroidally, the body shifts back-to-front,
/// and any pending growth is consumed.
pub open spec fn spec_tick(v: GameView) -> GameView {
    let h = spec_advance(v.head(), v.current_direction);
    GameView {
        x: h.x,
        y: h.y,
        pending_body_segment: false,
        body_segments: spec_tick_segments(v),
        ..v
    }
}

/// A food-eaten event: growth becomes pending and the score increments.
/// The food itself is not removed locally; removal is authoritative and
/// arrives with the next map update.
pub open spec fn spec_eat(v: GameView) -> GameView {
    GameView { pending_body_segment: true, score: v.score + 1, ..v }
}

/// The movement part of a tick: a detected collision pauses the game and
/// marks it dead in place of moving.
pub open spec fn spec_after_move(v: GameView) -> GameView {
    if spec_is_game_over(v) {
        GameView { paused: true, dead: true, ..v }
    } else {
        spec_tick(v)
    }
}

/// A full scheduler pulse: a no-op while paused; otherwise move (or die),
/// then check the head for food.
pub open spec fn spec_update_ticked(v: GameView) -> GameView {
    if v.paused {
        v
    } else {
        let m = spec_after_move(v);
        if spec_is_food_at(m, m.x, m.y) {
            spec_eat(m)
        } else {
            m
        }
    }
}

/// The `player_state` payload: the body segments with the head appended as a
/// synthetic last segment, under the assigned identity.
pub open spec fn spec_player_state_payload(v: GameView) -> PlayerView {
    PlayerView { player_id: v.network_id, segments: v.body_segments.push(v.head_seg()) }
}

/// The `player_state` message a pulse emits: only after a successful move,
/// and suppressed entirely while no identity is assigned.
pub open spec fn spec_ticked_player_state(v: GameView) -> Option<PlayerView> {
    if v.paused || spec_is_game_over(v) || v.network_id == 0 {
        None
    } else {
        Some(spec_player_state_payload(spec_tick(v)))
    }
}

/// The `eat_food` message a pulse emits: the head position, whenever the
/// post-move head stands on food.
pub open spec fn spec_ticked_eat_food(v: GameView) -> Option<Coord> {
    if v.paused {
        None
    } else {
        let m = spec_after_move(v);
        if spec_is_food_at(m, m.x, m.y) {
            Some(m.head())
        } else {
            None
        }
    }
}

pub open spec fn spec_key_direction(k: Seq<char>) -> Option<Direction> {
    if k == "ArrowUp"@ {
        Some(Direction::UP)
    } else if k == "ArrowDown"@ {
        Some(Direction::DOWN)
    } else if k == "ArrowLeft"@ {
        Some(Direction::LEFT)
    } else if k == "ArrowRight"@ {
        Some(Direction::RIGHT)
    } else {
        None
    }
}

pub open spec fn spec_keydown(v: GameView, k: Seq<char>) -> GameView {
    match spec_key_direction(k) {
        Some(d) => GameView { current_direction: d, ..v },
        None => v,
    }
}

pub open spec fn opt_player_view(o: Option<PlayerStateData>) -> Option<PlayerView> {
    match o {
        Some(p) => Some(p.deep_view()),
        None => None,
    }
}

pub open spec fn opt_coord(o: Option<PositionCoords>) -> Option<Coord> {
    match o {
        Some(p) => Some(p@),
        None => None,
    }
}

// ---------------------------------------------------------------------------
// The executable engine.
// ---------------------------------------------------------------------------

/// Shifts `segs` in place from the tail toward the head, so that each
/// segment copies the one in front of it before that one is overwritten;
/// the foremost segment takes `head`.
fn shift_segments(segs: &mut Vec<BodySegment>, head: BodySegment)
    ensures
        final(segs).deep_view() == spec_shift(old(segs).deep_view(), head@),
{
    let ghost orig = segs@;
    let n = segs.len();
    let mut i = n;
    while i > 0
        invariant
            i <= n,
            segs.len() == n,
            orig.len() == n,
            forall|k: int| 0 <= k < i ==> segs@[k] == orig[k],
            forall|k: int|
                i <= k < n ==> segs@[k] == (if k == 0 {
                    head
                } else {
                    orig[k - 1]
                }),
        decreases i,
    {
        let j = i - 1;
        if j == 0 {
            segs[0] = head;
        } else {
            let prev = segs[j - 1];
            segs[j] = prev;
        }
        i = j;
    }
    assert(segs.deep_view() =~= spec_shift(old(segs).deep_view(), head@));
}

impl GameGridComponent {
    /// A fresh session: a random spawn away from the margin, heading right,
    /// no identity assigned yet, and empty authoritative caches.
    pub fn create() -> (r: Self)
        ensures
            r@.wf(),
            BOUNDARY_THICKNESS <= r.x <= GRID_WIDTH,
            BOUNDARY_THICKNESS <= r.y <= GRID_HEIGHT,
            r@.current_direction == Direction::RIGHT,
            !r@.pending_body_segment,
            r@.score == 0,
            !r@.paused,
            !r@.dead,
            r@.food_positions.len() == 0,
            r@.body_segments.len() == 0,
            r@.network_id == 0,
            r@.player_states.len() == 0,
    {
        let spawn_position = get_random_position();
        Self {
            x: spawn_position.x,
            y: spawn_position.y,
            current_direction: Direction::RIGHT,
            pending_body_segment: false,
            score: 0,
            paused: false,
            dead: false,
            food_positions: Vec::new(),
            body_segments: Vec::new(),
            network_id: 0,
            player_states: Vec::new(),
        }
    }

    pub fn move_up(&mut self)
        requires
            old(self)@.wf(),
        ensures
            final(self)@ == (GameView {
                x: spec_advance(old(self)@.head(), Direction::UP).x,
                y: spec_advance(old(self)@.head(), Direction::UP).y,
                ..old(self)@
            }),
            final(self)@.wf(),
    {
        if self.y == 0 {
            self.y = GRID_HEIGHT + GRID_OFFSET - 1;
        } else {
            self.y = self.y - 1;
        }
    }

    pub fn move_down(&mut self)
        requires
            old(self)@.wf(),
        ensures
            final(self)@ == (GameView {
                x: spec_advance(old(self)@.head(), Direction::DOWN).x,
                y: spec_advance(old(self)@.head(), Direction::DOWN).y,
                ..old(self)@
            }),
            final(self)@.wf(),
    {
        if self.y == GRID_HEIGHT + GRID_OFFSET - 1 {
            self.y = 0;
        } else {
            self.y = self.y + 1;
        }
    }

    pub fn move_left(&mut self)
        requires
            old(self)@.wf(),
        ensures
            final(self)@ == (GameView {
                x: spec_advance(old(self)@.head(), Direction::LEFT).x,
                y: spec_advance(old(self)@.head(), Direction::LEFT).y,
                ..old(self)@
            }),
            final(self)@.wf(),
    {
        if self.x == 0 {
            self.x = GRID_WIDTH + GRID_OFFSET - 1;
        } else {
            self.x = self.x - 1;
        }
    }

    pub fn move_right(&mut self)
        requires
            old(self)@.wf(),
        ensures
            final(self)@ == (GameView {
                x: spec_advance(old(self)@.head(), Direction::RIGHT).x,
                y: spec_advance(old(self)@.head(), Direction::RIGHT).y,
                ..old(self)@
            }),
            final(self)@.wf(),
    {
        if self.x == GRID_WIDTH + GRID_OFFSET - 1 {
            self.x = 0;
        } else {
            self.x = self.x + 1;
        }
    }

    /// Overwrites the heading immediately; it takes effect on the next tick.
    /// Reversing into oneself is deliberately not rejected.
    pub fn update_direction(&mut self, dir: Direction)
        ensures
            final(self)@ == (GameView { current_direction: dir, ..old(self)@ }),
    {
        self.current_direction = dir;
    }

    pub fn update_pause(&mut self, pause: bool)
        ensures
            final(self)@ == (GameView { paused: pause, ..old(self)@ }),
    {
        self.paused = pause;
    }

    pub fn handle_keydown(&mut self, key: &str)
        ensures
            final(self)@ == spec_keydown(old(self)@, key@),
    {
        if crate::codec::str_eq(key, "ArrowUp") {
            self.update_direction(Direction::UP);
        } else if crate::codec::str_eq(key, "ArrowDown") {
            self.update_direction(Direction::DOWN);
        } else if crate::codec::str_eq(key, "ArrowLeft") {
            self.update_direction(Direction::LEFT);
        } else if crate::codec::str_eq(key, "ArrowRight") {
            self.update_direction(Direction::RIGHT);
        }
    }

    /// One simulation step: advance the head, consume a pending growth, and
    /// shift the body back-to-front.
    pub fn handle_tick(&mut self)
        requires
            old(self)@.wf(),
        ensures
            final(self)@ == spec_tick(old(self)@),
            final(self)@.wf(),
    {
        let head = BodySegment { x: self.x, y: self.y, direction: self.current_direction };
        match self.current_direction {
            Direction::UP => self.move_up(),
            Direction::DOWN => self.move_down(),
            Direction::LEFT => self.move_left(),
            Direction::RIGHT => self.move_right(),
        }
        if self.pending_body_segment {
            self.body_segments.push(head);
            self.pending_body_segment = false;
            assert(self.body_segments.deep_view() =~= old(self).body_segments.deep_view().push(
                head@,
            ));
        }
        shift_segments(&mut self.body_segments, head);
        assert(final(self)@ == spec_tick(old(self)@));
        proof {
            let ov = old(self)@;
            let nv = final(self)@;
            assert forall|k: int| 0 <= k < nv.body_segments.len() implies in_bounds(
                #[trigger] nv.body_segments[k].coord(),
            ) by {
                if k > 0 {
                    if ov.pending_body_segment && k - 1 == ov.body_segments.len() {
                        assert(nv.body_segments[k] == ov.head_seg());
                    } else {
                        assert(nv.body_segments[k] == ov.body_segments[k - 1]);
                        assert(in_bounds(ov.body_segments[k - 1].coord()));
                    }
                } else {
                    assert(nv.body_segments[k] == ov.head_seg());
                }
            };
        }
    }

    pub fn is_game_over(&self) -> (r: bool)
        ensures
            r == spec_is_game_over(self@),
    {
        self.is_body_segment(self.x, self.y) || self.is_other_player_segment(self.x, self.y)
    }

    pub fn increment_score(&mut self)
        requires
            old(self).score < u64::MAX,
        ensures
            final(self)@ == (GameView { score: old(self)@.score + 1, ..old(self)@ }),
    {
        self.score = self.score + 1;
    }

    /// Re-rolls the spawn position and heading and clears the session state;
    /// the authoritative caches and the assigned identity survive a restart.
    pub fn restart(&mut self)
        ensures
            final(self)@.wf(),
            BOUNDARY_THICKNESS <= final(self).x <= GRID_WIDTH,
            BOUNDARY_THICKNESS <= final(self).y <= GRID_HEIGHT,
            final(self)@.score == 0,
            !final(self)@.paused,
            !final(self)@.dead,
            final(self)@.body_segments.len() == 0,
            final(self)@.pending_body_segment == old(self)@.pending_body_segment,
            final(self)@.food_positions == old(self)@.food_positions,
            final(self)@.network_id == old(self)@.network_id,
            final(self)@.player_states == old(self)@.player_states,
    {
        let spawn_position = get_random_position();
        self.x = spawn_position.x;
        self.y = spawn_position.y;
        self.current_direction = get_random_direction();
        self.score = 0;
        self.paused = false;
        self.dead = false;
        self.body_segments.clear();
    }

    pub fn is_food_coordinate(&self, x: i8, y: i8) -> (r: bool)
        ensures
            r == spec_is_food_at(self@, x as int, y as int),
    {
        let n = self.food_positions.len();
        let mut i: usize = 0;
        while i < n
            invariant
                i <= n,
                n == self.food_positions.len(),
                forall|k: int|
                    0 <= k < i ==> !(self.food_positions.deep_view()[k].x == x
                        && self.food_positions.deep_view()[k].y == y),
            decreases n - i,
        {
            let pos = self.food_positions[i];
            if pos.x == x && pos.y == y {
                assert(self@.food_positions[i as int].x == x as int && self@.food_positions[
                    i as int
                ].y == y as int);
                return true;
            }
            i = i + 1;
        }
        false
    }

    /// Whether the head currently stands on food. The outbound `eat_food`
    /// message this event owes the peer is returned by `update`.
    pub fn is_food_eaten(&self) -> (r: bool)
        ensures
            r == spec_is_food_at(self@, self@.x, self@.y),
    {
        self.is_food_coordinate(self.x, self.y)
    }

    pub fn is_body_segment(&self, x: i8, y: i8) -> (r: bool)
        ensures
            r == spec_is_body_segment(self@, x as int, y as int),
    {
        let n = self.body_segments.len();
        let mut i: usize = 0;
        while i < n
            invariant
                i <= n,
                n == self.body_segments.len(),
                forall|k: int|
                    0 <= k < i ==> !(self.body_segments.deep_view()[k].x == x
                        && self.body_segments.deep_view()[k].y == y),
            decreases n - i,
        {
            let seg = self.body_segments[i];
            if seg.x == x && seg.y == y {
                assert(self@.body_segments[i as int].x == x as int && self@.body_segments[
                    i as int
                ].y == y as int);
                return true;
            }
            i = i + 1;
        }
        false
    }

    pub fn is_other_player_segment(&self, x: i8, y: i8) -> (r: bool)
        ensures
            r == spec_is_other_player_segment(self@, x as int, y as int),
    {
        let n = self.player_states.len();
        let mut i: usize = 0;
        while i < n
            invariant
                i <= n,
                n == self.player_states.len(),
                forall|k: int, j: int|
                    0 <= k < i && 0 <= j < self.player_states.deep_view()[k].segments.len() ==> !(
                    self.player_states.deep_view()[k].segments[j].x == x
                        && self.player_states.deep_view()[k].segments[j].y == y),
            decreases n - i,
        {
            let m = self.player_states[i].body_segments.len();
            let mut j: usize = 0;
            while j < m
                invariant
                    i < n,
                    j <= m,
                    n == self.player_states.len(),
                    m == self.player_states[i as int].body_segments.len(),
                    forall|k: int, l: int|
                        0 <= k < i && 0 <= l < self.player_states.deep_view()[k].segments.len()
                            ==> !(self.player_states.deep_view()[k].segments[l].x == x
                            && self.player_states.deep_view()[k].segments[l].y == y),
                    forall|l: int|
                        0 <= l < j ==> !(self.player_states.deep_view()[i as int].segments[l].x
                            == x && self.player_states.deep_view()[i as int].segments[l].y == y),
                decreases m - j,
            {
                let seg = self.player_states[i].body_segments[j];
                if seg.x == x && seg.y == y {
                    assert(self@.player_states[i as int].segments[j as int].x == x as int
                        && self@.player_states[i as int].segments[j as int].y == y as int);
                    return true;
                }
                j = j + 1;
            }
            i = i + 1;
        }
        false
    }

    /// The full body with the head appended as a synthetic last segment,
    /// under the assigned identity.
    pub fn player_state_data(&self) -> (r: PlayerStateData)
        ensures
            r.deep_view() == spec_player_state_payload(self@),
    {
        let n = self.body_segments.len();
        let mut segments: Vec<BodySegment> = Vec::new();
        let mut i: usize = 0;
        while i < n
            invariant
                i <= n,
                n == self.body_segments.len(),
                segments@ == self.body_segments@.take(i as int),
            decreases n - i,
        {
            segments.push(self.body_segments[i]);
            assert(segments@ =~= self.body_segments@.take(i + 1));
            i = i + 1;
        }
        assert(segments@ =~= self.body_segments@);
        segments.push(BodySegment { x: self.x, y: self.y, direction: self.current_direction });
        assert(segments.deep_view() =~= spec_player_state_payload(self@).segments);
        PlayerStateData { player_id: self.network_id, body_segments: segments }
    }

    /// The single dispatch point of the engine: every mutation — tick,
    /// key press, restart, pause, and each authoritative update — goes
    /// through here, serialized by the caller.
    pub fn update(&mut self, msg: Msg) -> (r: UpdateEffects)
        requires
            old(self)@.wf(),
            (msg matches Msg::GameTicked(_)) ==> old(self).score < u64::MAX,
        ensures
            final(self)@.wf(),
            match msg {
                Msg::GameTicked(_) => {
                    &&& final(self)@ == spec_update_ticked(old(self)@)
                    &&& r.render == !old(self)@.paused
                    &&& opt_player_view(r.player_state) == spec_ticked_player_state(old(self)@)
                    &&& opt_coord(r.eat_food) == spec_ticked_eat_food(old(self)@)
                },
                Msg::HandleKeyboardEvent(key) => {
                    &&& final(self)@ == spec_keydown(old(self)@, key@)
                    &&& r.render
                    &&& r.player_state is None
                    &&& r.eat_food is None
                },
                Msg::RestartGame(_) => {
                    &&& final(self)@.score == 0
                    &&& !final(self)@.paused
                    &&& !final(self)@.dead
                    &&& final(self)@.body_segments.len() == 0
                    &&& BOUNDARY_THICKNESS <= final(self).x <= GRID_WIDTH
                    &&& BOUNDARY_THICKNESS <= final(self).y <= GRID_HEIGHT
                    &&& final(self)@.food_positions == old(self)@.food_positions
                    &&& final(self)@.network_id == old(self)@.network_id
                    &&& final(self)@.player_states == old(self)@.player_states
                    &&& r.render
                    &&& r.player_state is None
                    &&& r.eat_food is None
                },
                Msg::HandlePause(_) => {
                    &&& final(self)@ == (GameView { paused: !old(self)@.paused, ..old(self)@ })
                    &&& r.render
                    &&& r.player_state is None
                    &&& r.eat_food is None
                },
                Msg::UpdateNetworkId(id) => {
                    &&& final(self)@ == (GameView { network_id: id as int, ..old(self)@ })
                    &&& r.render
                    &&& r.player_state is None
                    &&& r.eat_food is None
                },
                Msg::UpdatePlayerStates(states) => {
                    &&& final(self)@ == (GameView {
                        player_states: states.deep_view(),
                        ..old(self)@
                    })
                    &&& r.render
                    &&& r.player_state is None
                    &&& r.eat_food is None
                },
                Msg::UpdateMapState(map_state) => {
                    &&& final(self)@ == (GameView { food_positions: map_state@, ..old(self)@ })
                    &&& r.render
                    &&& r.player_state is None
                    &&& r.eat_food is None
                },
            },
    {
        match msg {
            Msg::GameTicked(_) => {
                if self.paused {
                    return UpdateEffects { render: false, player_state: None, eat_food: None };
                }
                let mut player_state: Option<PlayerStateData> = None;
                if self.is_game_over() {
                    self.update_pause(true);
                    self.dead = true;
                } else {
                    self.handle_tick();
                    if self.network_id != 0 {
                        player_state = Some(self.player_state_data());
                    }
                }
                let mut eat_food: Option<PositionCoords> = None;
                if self.is_food_eaten() {
                    eat_food = Some(PositionCoords::new(self.x, self.y));
                    self.pending_body_segment = true;
                    self.increment_score();
                }
                UpdateEffects { render: true, player_state, eat_food }
            },
            Msg::HandleKeyboardEvent(key) => {
                self.handle_keydown(key.as_str());
                UpdateEffects { render: true, player_state: None, eat_food: None }
            },
            Msg::RestartGame(_) => {
                self.restart();
                UpdateEffects { render: true, player_state: None, eat_food: None }
            },
            Msg::HandlePause(_) => {
                let paused = self.paused;
                self.update_pause(!paused);
                UpdateEffects { render: true, player_state: None, eat_food: None }
            },
            Msg::UpdateNetworkId(id) => {
                self.network_id = id;
                UpdateEffects { render: true, player_state: None, eat_food: None }
            },
            Msg::UpdatePlayerStates(states) => {
                self.player_states = states;
                UpdateEffects { render: true, player_state: None, eat_food: None }
            },
            Msg::UpdateMapState(map_state) => {
                self.food_positions = map_state.food_positions;
                UpdateEffects { render: true, player_state: None, eat_food: None }
            },
        }
    }
}

/// What one inbound frame does to the engine state: an `assign_id` frame
/// sets the network identity, a `player_states` frame replaces the opponent
/// snapshots wholesale, a `map_state` frame replaces the food set wholesale,
/// and every other frame — unknown type or malformed text — changes nothing.
pub open spec fn spec_apply_inbound(v: GameView, s: Seq<char>) -> GameView {
    match crate::codec::spec_parse_envelope(s) {
        None => v,
        Some((ty, id, msg)) => if ty == "assign_id"@ {
            GameView { network_id: id as int, ..v }
        } else if ty == "player_states"@ {
            match crate::codec::spec_parse_player_states(msg) {
                None => v,
                Some(ps) => GameView { player_states: ps, ..v },
            }
        } else if ty == "map_state"@ {
            match crate::codec::spec_parse_map_state(msg) {
                None => v,
                Some(cs) => GameView { food_positions: cs, ..v },
            }
        } else {
            v
        },
    }
}

impl GameGridComponent {
    /// Applies one inbound frame from the peer. Malformed frames and unknown
    /// message types are dropped; they are never fatal.
    pub fn handle_inbound(&mut self, frame: &str)
        ensures
            final(self)@ == spec_apply_inbound(old(self)@, frame@),
    {
        let chars = crate::codec::chars_of(frame);
        match crate::codec::parse_envelope(&chars) {
            None => {},
            Some((ty, id, msg)) => {
                if crate::codec::chars_eq_lit(&ty, "assign_id") {
                    self.network_id = id;
                } else if crate::codec::chars_eq_lit(&ty, "player_states") {
                    match crate::codec::parse_player_states(&msg) {
                        None => {},
                        Some(states) => {
                            self.player_states = states;
                        },
                    }
                } else if crate::codec::chars_eq_lit(&ty, "map_state") {
                    match crate::codec::parse_map_state(&msg) {
                        None => {},
                        Some(food) => {
                            self.food_positions = food;
                        },
                    }
                }
            },
        }
    }
}

// ---------------------------------------------------------------------------
// Laws of the engine.
// ---------------------------------------------------------------------------

/// Law: after one tick, each body segment holds exactly the position and
/// heading its immediate predecessor held before the tick, and the foremost
/// segment holds the pre-tick head state.
pub proof fn lemma_tick_order(v: GameView)
    ensures
        forall|i: int|
            1 <= i < spec_tick(v).body_segments.len() ==> spec_tick(v).body_segments[i]
                == v.body_segments[i - 1],
        v.body_segments.len() > 0 || v.pending_body_segment ==> spec_tick(v).body_segments[0]
            == v.head_seg(),
{
}

/// One food-eaten event followed by the tick that consumes it.
pub open spec fn spec_eat_tick(v: GameView) -> GameView {
    spec_tick(spec_eat(v))
}

pub open spec fn spec_eat_tick_n(v: GameView, n: nat) -> GameView
    decreases n,
{
    if n == 0 {
        v
    } else {
        spec_eat_tick_n(spec_eat_tick(v), (n - 1) as nat)
    }
}

/// One eat-then-tick step grows the body by exactly one segment, placed at
/// the position the head occupied at the moment of eating, with every prior
/// segment retained behind it.
pub proof fn lemma_growth_step(v: GameView)
    ensures
        spec_eat_tick(v).body_segments =~= seq![v.head_seg()] + v.body_segments,
        spec_eat_tick(v).score == v.score + 1,
{
}

/// Law: N consecutive food-eaten events, each consumed by a tick and with no
/// intervening death, grow the body by exactly N segments and the score by
/// exactly N.
pub proof fn lemma_growth_invariant(v: GameView, n: nat)
    ensures
        spec_eat_tick_n(v, n).body_segments.len() == v.body_segments.len() + n,
        spec_eat_tick_n(v, n).score == v.score + n,
    decreases n,
{
    if n > 0 {
        lemma_growth_step(v);
        lemma_growth_invariant(spec_eat_tick(v), (n - 1) as nat);
    }
}

/// Law: a head standing on one of the snake's own segments is a game over.
pub proof fn lemma_self_collision(v: GameView, i: int)
    requires
        0 <= i < v.body_segments.len(),
        v.body_segments[i].x == v.x,
        v.body_segments[i].y == v.y,
    ensures
        spec_is_game_over(v),
{
    assert(v.body_segments[i].x == v.x && v.body_segments[i].y == v.y);
}

/// A detected collision pauses the game and marks it dead in place of
/// moving.
pub proof fn lemma_game_over_pauses(v: GameView)
    requires
        !v.paused,
        spec_is_game_over(v),
    ensures
        spec_update_ticked(v).paused,
        spec_update_ticked(v).dead,
        spec_ticked_player_state(v) is None,
{
}

/// Law: while paused — in particular after a collision, until a restart — a
/// scheduler pulse changes nothing and emits nothing.
pub proof fn lemma_paused_tick_noop(v: GameView)
    requires
        v.paused,
    ensures
        spec_update_ticked(v) == v,
        spec_ticked_player_state(v) is None,
        spec_ticked_eat_food(v) is None,
{
}

/// Law: the head position alone never ends the game; with no own segment and
/// no opponent segment on the grid, any head position — the margin rows and
/// columns 0 and 31 included — leaves the game running.
pub proof fn lemma_boundary_non_collision(v: GameView)
    requires
        v.body_segments.len() == 0,
        v.player_states.len() == 0,
    ensures
        !spec_is_game_over(v),
{
}

/// Law: a canonical `assign_id` envelope carrying identity `id` — whatever
/// its nested payload — sets the network identity to `id` and changes
/// nothing else.
pub proof fn lemma_assign_id_applies(v: GameView, id: u64, msg: Seq<char>)
    ensures
        spec_apply_inbound(v, crate::codec::json_envelope("assign_id"@, id as nat, msg))
            == (GameView { network_id: id as int, ..v }),
{
    crate::codec::lemma_envelope_round_trip("assign_id"@, id, msg);
}

/// Law: a canonical `player_states` envelope replaces the opponent
/// snapshots wholesale and changes nothing else.
pub proof fn lemma_player_states_applies(v: GameView, id: u64, ps: Seq<PlayerView>)
    requires
        forall|k: int| 0 <= k < ps.len() ==> 0 <= (#[trigger] ps[k]).player_id <= u64::MAX,
        forall|k: int, l: int|
            0 <= k < ps.len() && 0 <= l < ps[k].segments.len() ==> in_bounds(
                #[trigger] ps[k].segments[l].coord(),
            ),
    ensures
        spec_apply_inbound(
            v,
            crate::codec::json_envelope(
                "player_states"@,
                id as nat,
                crate::codec::json_player_states(ps),
            ),
        ) == (GameView { player_states: ps, ..v }),
{
    crate::codec::lemma_envelope_round_trip(
        "player_states"@,
        id,
        crate::codec::json_player_states(ps),
    );
    crate::codec::lemma_player_states_round_trip(ps);
    reveal_strlit("player_states");
    reveal_strlit("assign_id");
    assert("player_states"@.len() != "assign_id"@.len());
}

/// Law: a canonical `map_state` envelope replaces the food set wholesale and
/// changes nothing else.
pub proof fn lemma_map_state_applies(v: GameView, id: u64, cs: Seq<Coord>)
    requires
        forall|k: int| 0 <= k < cs.len() ==> in_bounds(#[trigger] cs[k]),
    ensures
        spec_apply_inbound(
            v,
            crate::codec::json_envelope(
                "map_state"@,
                id as nat,
                crate::codec::json_map_state(cs),
            ),
        ) == (GameView { food_positions: cs, ..v }),
{
    crate::codec::lemma_envelope_round_trip("map_state"@, id, crate::codec::json_map_state(cs));
    crate::codec::lemma_map_state_round_trip(cs);
    reveal_strlit("map_state");
    reveal_strlit("assign_id");
    reveal_strlit("player_states");
    assert("map_state"@[0] != "assign_id"@[0]);
    assert("map_state"@ != "assign_id"@);
    assert("map_state"@.len() != "player_states"@.len());
}

pub open spec fn spec_ticks_n(v: GameView, n: nat) -> GameView
    decreases n,
{
    if n == 0 {
        v
    } else {
        spec_ticks_n(spec_update_ticked(v), (n - 1) as nat)
    }
}

/// Law: while no identity is assigned, no number of scheduler pulses ever
/// emits a `player_state` message.
pub proof fn lemma_unassigned_id_suppression(v: GameView, n: nat)
    requires
        v.network_id == 0,
    ensures
        spec_ticks_n(v, n).network_id == 0,
        spec_ticked_player_state(spec_ticks_n(v, n)) is None,
    decreases n,
{
    if n > 0 {
        assert(spec_update_ticked(v).network_id == 0);
        lemma_unassigned_id_suppression(spec_update_ticked(v), (n - 1) as nat);
    }
}

} // verus!
