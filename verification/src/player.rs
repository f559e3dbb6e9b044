//! The player's animation state: where it looks, whether it moves, and which
//! frames of the character sheet show that.
use crate::level::LevelMeasurements;
use vstd::prelude::*;

verus! {

/// Whether the player moves.
#[derive(Debug, Clone, Copy, PartialEq, Eq, Structural)]
pub enum MovingState {
    Idle,
    Moving,
}

/// Where the player looks.
#[derive(Debug, Clone, Copy, PartialEq, Eq, Structural)]
pub enum LookDirection {
    Up,
    Down,
    Left,
    Right,
}

/// The animation state a player starts with.
pub struct AnimationStateBundle {
    pub moving_state: MovingState,
    pub look_direction: LookDirection,
}

impl Default for AnimationStateBundle {
    fn default() -> (r: Self)
        ensures
            r.moving_state == MovingState::Idle,
            r.look_direction == LookDirection::Up,
    {
        Self { moving_state: MovingState::Idle, look_direction: LookDirection::Up }
    }
}

/// Where a player moving along `(x, y)` looks: sideways when it moves
/// sideways at all, else up or down; nowhere when it does not move.
pub open spec fn spec_look_direction(x: i32, y: i32) -> Option<LookDirection> {
    if x > 0 {
        Some(LookDirection::Right)
    } else if x < 0 {
        Some(LookDirection::Left)
    } else if y > 0 {
        Some(LookDirection::Up)
    } else if y < 0 {
        Some(LookDirection::Down)
    } else {
        None
    }
}

/// The direction a player moving along `(x, y)` looks in; only the signs of
/// `x` and `y` matter.
pub fn look_direction_from_direction(x: i32, y: i32) -> (r: Option<LookDirection>)
    ensures
        r == spec_look_direction(x, y),
{
    if x > 0 {
        Some(LookDirection::Right)
    } else if x < 0 {
        Some(LookDirection::Left)
    } else if y > 0 {
        Some(LookDirection::Up)
    } else if y < 0 {
        Some(LookDirection::Down)
    } else {
        None
    }
}

/// Position of a direction's block of frames in the character sheet.
pub open spec fn direction_block(look_direction: LookDirection) -> int {
    match look_direction {
        LookDirection::Down => 0,
        LookDirection::Up => 1,
        LookDirection::Left => 2,
        LookDirection::Right => 3,
    }
}

/// First frame of an animation: four frames per direction, the idle pair first.
pub open spec fn first_frame(moving_state: MovingState, look_direction: LookDirection) -> int {
    4 * direction_block(look_direction) + if moving_state == MovingState::Moving {
        2int
    } else {
        0int
    }
}

/// The frames `start..end` of the character sheet that animate a player in the given state.
pub fn animation_frames(moving_state: MovingState, look_direction: LookDirection) -> (r: (u32, u32))
    ensures
        r.0 == first_frame(moving_state, look_direction),
        r.1 == r.0 + 2,
{
    match (moving_state, look_direction) {
        (MovingState::Idle, LookDirection::Up) => (4, 6),
        (MovingState::Idle, LookDirection::Down) => (0, 2),
        (MovingState::Idle, LookDirection::Left) => (8, 10),
        (MovingState::Idle, LookDirection::Right) => (12, 14),
        (MovingState::Moving, LookDirection::Up) => (6, 8),
        (MovingState::Moving, LookDirection::Down) => (2, 4),
        (MovingState::Moving, LookDirection::Left) => (10, 12),
        (MovingState::Moving, LookDirection::Right) => (14, 16),
    }
}

/// Different animation states show different frames: their ranges of two
/// frames do not overlap, and all lie within the sixteen frames of the sheet.
pub proof fn lemma_animation_frames_disjoint(
    m1: MovingState,
    l1: LookDirection,
    m2: MovingState,
    l2: LookDirection,
)
    requires
        m1 != m2 || l1 != l2,
    ensures
        first_frame(m1, l1) + 2 <= first_frame(m2, l2) || first_frame(m2, l2) + 2 <= first_frame(
            m1,
            l1,
        ),
        0 <= first_frame(m1, l1) && first_frame(m1, l1) + 2 <= 16,
{
}

/// Changes to make to a player's animation state; `None` leaves a part as it is.
pub struct AnimationChange {
    pub moving_state: Option<MovingState>,
    pub look_direction: Option<LookDirection>,
}

/// How the animation state of a player moving along `(x, y)` changes: a moving
/// player looks in its direction and is `Moving`, a player that stands still
/// is `Idle` and keeps looking where it looked; parts that stay the same are
/// left untouched.
pub open spec fn spec_animation_change(
    x: i32,
    y: i32,
    moving_state: MovingState,
    look_direction: LookDirection,
) -> AnimationChange {
    if x != 0 || y != 0 {
        AnimationChange {
            moving_state: if moving_state == MovingState::Moving {
                None
            } else {
                Some(MovingState::Moving)
            },
            look_direction: if spec_look_direction(x, y) == Some(look_direction) {
                None
            } else {
                spec_look_direction(x, y)
            },
        }
    } else {
        AnimationChange {
            moving_state: if moving_state == MovingState::Idle {
                None
            } else {
                Some(MovingState::Idle)
            },
            look_direction: None,
        }
    }
}

/// The animation state after a change.
pub open spec fn apply_change(
    moving_state: MovingState,
    look_direction: LookDirection,
    change: AnimationChange,
) -> (MovingState, LookDirection) {
    (
        match change.moving_state {
            Some(m) => m,
            None => moving_state,
        },
        match change.look_direction {
            Some(l) => l,
            None => look_direction,
        },
    )
}

/// The change to a player's animation state as the player moves along `(x, y)`.
pub fn animation_change(
    x: i32,
    y: i32,
    moving_state: MovingState,
    look_direction: LookDirection,
) -> (r: AnimationChange)
    ensures
        r == spec_animation_change(x, y, moving_state, look_direction),
{
    if x != 0 || y != 0 {
        let look_direction_next = match look_direction_from_direction(x, y) {
            Some(d) => d,
            None => look_direction,
        };
        let look_change = if look_direction_next != look_direction {
            Some(look_direction_next)
        } else {
            None
        };
        let moving_change = if moving_state != MovingState::Moving {
            Some(MovingState::Moving)
        } else {
            None
        };
        AnimationChange { moving_state: moving_change, look_direction: look_change }
    } else {
        let moving_change = if moving_state != MovingState::Idle {
            Some(MovingState::Idle)
        } else {
            None
        };
        AnimationChange { moving_state: moving_change, look_direction: None }
    }
}

/// Once a change is applied, moving on in the same direction changes nothing
/// more, so the animation is not restarted on every frame.
pub proof fn lemma_animation_change_settles(
    x: i32,
    y: i32,
    moving_state: MovingState,
    look_direction: LookDirection,
)
    ensures
        ({
            let (m, l) = apply_change(
                moving_state,
                look_direction,
                spec_animation_change(x, y, moving_state, look_direction),
            );
            spec_animation_change(x, y, m, l) == AnimationChange {
                moving_state: None,
                look_direction: None,
            }
        }),
{
}

/// A player that moves in any direction becomes `Moving`, one that stands
/// still becomes `Idle`; a moving player looks right or left when it moves
/// sideways at all, else up or down, and one that stands still keeps looking
/// where it looked. A part of the state is changed exactly when its new value
/// differs from the old one.
pub proof fn lemma_animation_change_exactly(
    x: i32,
    y: i32,
    moving_state: MovingState,
    look_direction: LookDirection,
)
    ensures
        ({
            let r = spec_animation_change(x, y, moving_state, look_direction);
            let moving_next = if x != 0 || y != 0 {
                MovingState::Moving
            } else {
                MovingState::Idle
            };
            let look_next = if x > 0 {
                LookDirection::Right
            } else if x < 0 {
                LookDirection::Left
            } else if y > 0 {
                LookDirection::Up
            } else if y < 0 {
                LookDirection::Down
            } else {
                look_direction
            };
            &&& match r.moving_state {
                Some(m) => m == moving_next && m != moving_state,
                None => moving_state == moving_next,
            }
            &&& match r.look_direction {
                Some(l) => l == look_next && l != look_direction,
                None => look_direction == look_next,
            }
        }),
{
}

/// The box, in pixels, that the centre of a player may occupy in a level, and
/// the half sizes of the player (one cell width in pixels) and of a cell.
pub struct ConfinementBounds {
    pub half_player_size: u32,
    pub x_min: u32,
    pub x_max: u32,
    pub y_min: u32,
    pub y_max: u32,
    pub half_cell_size: u32,
}

/// The box that keeps a player of `c_wid` pixels wholly inside a level of
/// `c_wid` by `c_hei` cells of `grid_size` pixels.
pub fn confinement_bounds(level_measurements: &LevelMeasurements) -> (r: ConfinementBounds)
    requires
        level_measurements.grid_size * level_measurements.c_wid <= u32::MAX,
        level_measurements.grid_size * level_measurements.c_hei <= u32::MAX,
        level_measurements.c_wid / 2 <= level_measurements.grid_size * level_measurements.c_wid,
        level_measurements.c_wid / 2 <= level_measurements.grid_size * level_measurements.c_hei,
    ensures
        r.half_player_size == level_measurements.c_wid / 2,
        r.x_min == r.half_player_size,
        r.x_max == level_measurements.grid_size * level_measurements.c_wid - r.half_player_size,
        r.y_min == r.half_player_size,
        r.y_max == level_measurements.grid_size * level_measurements.c_hei - r.half_player_size,
        r.half_cell_size == level_measurements.grid_size / 2,
{
    let player_size = level_measurements.c_wid;
    let half_player_size = player_size / 2;
    let x_min = 0 + half_player_size;
    let x_max = (level_measurements.grid_size * level_measurements.c_wid) - half_player_size;
    let y_min = 0 + half_player_size;
    let y_max = (level_measurements.grid_size * level_measurements.c_hei) - half_player_size;
    ConfinementBounds {
        half_player_size,
        x_min,
        x_max,
        y_min,
        y_max,
        half_cell_size: level_measurements.grid_size / 2,
    }
}

} // verus!
