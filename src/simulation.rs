//! One simulation tick: velocity commands in, pose integration, sensing, and
//! the values handed to the display (one per ray, then the mode signal).
use vstd::prelude::*;
use crate::geometry::{Crossing, Rect};
use crate::robot::{obstacles_wf, sensor_reading, Dir, Ratio, Robot, UNIT};

verus! {

/// Thickness of the arena walls, in sub-units.
pub const WALL_THICKNESS: i64 = 40 * UNIT;

/// Velocity commands from the input source.
#[derive(Clone, Copy, Debug, PartialEq, Eq, Structural)]
pub struct RobotInput {
    pub linear_velocity: i32,
    pub angular_velocity: i32,
}

impl RobotInput {
    pub fn new(linear_velocity: i32, angular_velocity: i32) -> (r: RobotInput)
        ensures
            r.linear_velocity == linear_velocity,
            r.angular_velocity == angular_velocity,
    {
        RobotInput { linear_velocity, angular_velocity }
    }
}

/// The values of one tick as the display gets them.
pub struct SensorsOutput {
    pub values: Vec<Ratio>,
}

impl SensorsOutput {
    pub fn new(values: Vec<Ratio>) -> (r: SensorsOutput)
        ensures
            r.values@ == values@,
    {
        SensorsOutput { values }
    }
}

/// The robot, the obstacles, and the last tick's sensor readings.
pub struct Model {
    pub robot: Robot,
    pub obstacles: Vec<Rect>,
    pub colliding_points: (Vec<Option<Crossing>>, Vec<Ratio>),
}

/// The walkable area of a window of bounds `win_rect` whose left `panel_width`
/// is taken by the side panel, inset by `WALL_THICKNESS` on every side.
pub open spec fn walkable_area(win_rect: Rect, panel_width: int) -> Rect {
    Rect {
        left: (win_rect.left + panel_width + WALL_THICKNESS) as i64,
        bottom: (win_rect.bottom + WALL_THICKNESS) as i64,
        right: (win_rect.right - WALL_THICKNESS) as i64,
        top: (win_rect.top - WALL_THICKNESS) as i64,
    }
}

pub open spec fn area_fits(win_rect: Rect, panel_width: int) -> bool {
    &&& win_rect.wf()
    &&& 0 <= panel_width
    &&& win_rect.left + panel_width + 2 * WALL_THICKNESS <= win_rect.right
    &&& win_rect.bottom + 2 * WALL_THICKNESS <= win_rect.top
}

/// Adds the walkable area of the window as the obstacle the rays sense.
pub fn create_obstacle(obstacles: &mut Vec<Rect>, win_rect: Rect, panel_width: i64)
    requires
        area_fits(win_rect, panel_width as int),
    ensures
        final(obstacles)@ == old(obstacles)@.push(walkable_area(win_rect, panel_width as int)),
        walkable_area(win_rect, panel_width as int).wf(),
{
    let valid_area = Rect {
        left: win_rect.left + panel_width + WALL_THICKNESS,
        bottom: win_rect.bottom + WALL_THICKNESS,
        right: win_rect.right - WALL_THICKNESS,
        top: win_rect.top - WALL_THICKNESS,
    };
    obstacles.push(valid_area);
}

impl Model {
    pub open spec fn wf(&self) -> bool {
        self.robot.wf() && obstacles_wf(self.obstacles@)
    }
}

/// A new robot at rest at the origin, with the walkable area of the window
/// as its one obstacle.
pub fn model(win_rect: Rect, panel_width: i64) -> (r: Model)
    requires
        area_fits(win_rect, panel_width as int),
    ensures
        r.wf(),
        r.robot.is_initial(),
        r.obstacles@ == seq![walkable_area(win_rect, panel_width as int)],
        r.colliding_points.0@.len() == 0,
        r.colliding_points.1@.len() == 0,
{
    let mut m = Model {
        robot: Robot::new(),
        obstacles: Vec::new(),
        colliding_points: (Vec::new(), Vec::new()),
    };
    create_obstacle(&mut m.obstacles, win_rect, panel_width);
    m
}


/// Sets the robot's velocity commands from `input`, when there is one.
pub fn apply_input(model: &mut Model, input: Option<RobotInput>)
    requires
        old(model).wf(),
    ensures
        final(model).wf(),
        final(model).obstacles@ == old(model).obstacles@,
        final(model).robot.position == old(model).robot.position,
        final(model).robot.rotation == old(model).robot.rotation,
        final(model).robot.facing == old(model).robot.facing,
        final(model).robot.mode == old(model).robot.mode,
        final(model).robot.sensors == old(model).robot.sensors,
        final(model).robot.speed == old(model).robot.speed,
        final(model).robot.radius == old(model).robot.radius,
        match input {
            Some(i) => final(model).robot.linear_velocity == i.linear_velocity
                && final(model).robot.angular_velocity == i.angular_velocity,
            None => final(model).robot.linear_velocity == old(model).robot.linear_velocity
                && final(model).robot.angular_velocity == old(model).robot.angular_velocity,
        },
{
    if let Some(robot_input) = input {
        model.robot.set_linear_velocity(robot_input.linear_velocity);
        model.robot.set_angular_velocity(robot_input.angular_velocity);
    }
}

/// One tick: moves the robot (ending facing `facing`, the sine and cosine of
/// its next heading), senses the obstacles, keeps the readings, and returns
/// the display values: the proximity of each ray in order, then the mode
/// signal.
pub fn update(model: &mut Model, facing: Dir) -> (r: SensorsOutput)
    requires
        old(model).wf(),
        old(model).robot.spec_can_update(),
        facing.wf(),
    ensures
        final(model).wf(),
        final(model).robot.is_tick_of(&old(model).robot, facing),
        final(model).obstacles@ == old(model).obstacles@,
        final(model).colliding_points.0@.len() == final(model).robot.sensors.lines@.len(),
        final(model).colliding_points.1@.len() == final(model).robot.sensors.lines@.len(),
        forall|i: int|
            0 <= i < final(model).robot.sensors.lines@.len() ==> sensor_reading(
                #[trigger] final(model).robot.sensors.lines@[i],
                final(model).obstacles@,
                final(model).colliding_points.0@[i],
                final(model).colliding_points.1@[i],
            ),
        r.values@ == final(model).colliding_points.1@.push(
            Ratio { num: old(model).robot.mode.signal() as i128, den: 1 },
        ),
{
    model.robot.update(facing);
    model.colliding_points = model.robot.get_closest_collisions(&model.obstacles);
    let mut display_values = model.colliding_points.1.clone();
    let signal = model.robot.get_mode_numeric();
    display_values.push(Ratio { num: signal as i128, den: 1 });
    SensorsOutput::new(display_values)
}

} // verus!
