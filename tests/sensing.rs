use robot_sensing::geometry::{collision_line_line, collision_line_rect, Point, Rect};
use robot_sensing::robot::{map_to_proximity, Dir, Mode, Ratio, Robot, DIR_SCALE, SENSOR_RANGE, UNIT};
use robot_sensing::simulation::{apply_input, create_obstacle, model, update, RobotInput};

fn p(x: i64, y: i64) -> Point {
    Point::new(x, y)
}

fn same_ratio(a: Ratio, num: i128, den: i128) -> bool {
    a.num * den == num * a.den
}

#[test]
fn crossing_diagonals_meet_in_the_middle() {
    let a = (p(0, 0), p(10, 10));
    let b = (p(0, 10), p(10, 0));
    let c = collision_line_line(&a, &b).expect("the diagonals cross");
    assert_eq!(c.x, 5 * c.den);
    assert_eq!(c.y, 5 * c.den);
    assert_eq!(2 * c.along, c.den);
}

#[test]
fn crossing_outside_the_segments_is_none() {
    let a = (p(0, 0), p(1, 1));
    let b = (p(5, 0), p(5, 10));
    assert!(collision_line_line(&a, &b).is_none());
    let c = (p(0, 0), p(10, 0));
    let d = (p(5, 1), p(5, 10));
    assert!(collision_line_line(&c, &d).is_none());
}

#[test]
fn parallel_segments_never_cross() {
    let a = (p(0, 0), p(10, 0));
    assert!(collision_line_line(&a, &(p(0, 5), p(10, 5))).is_none());
    assert!(collision_line_line(&a, &(p(5, 0), p(15, 0))).is_none());
    assert!(collision_line_line(&a, &a).is_none());
}

#[test]
fn touching_at_an_end_counts() {
    let a = (p(0, 0), p(10, 0));
    let b = (p(10, -5), p(10, 5));
    let c = collision_line_line(&a, &b).expect("the end of a lies on b");
    assert_eq!(c.along, c.den);
    assert_eq!(c.x, 10 * c.den);
    assert_eq!(c.y, 0);
}

#[test]
fn rect_slots_keep_edge_order() {
    let r = Rect::from_xy_wh(0, 0, 20, 20);
    let slots = collision_line_rect(&(p(-20, 0), p(20, 0)), &r);
    assert_eq!(slots.len(), 4);
    assert!(slots[0].is_none());
    assert!(slots[2].is_none());
    let right = slots[1].expect("right edge");
    let left = slots[3].expect("left edge");
    assert_eq!(right.x, 10 * right.den);
    assert_eq!(4 * right.along, 3 * right.den);
    assert_eq!(left.x, -10 * left.den);
    assert_eq!(4 * left.along, left.den);
}

#[test]
fn rect_corners_from_centre() {
    let r = Rect::from_xy_wh(0, -100, 40, 40);
    assert_eq!(r.top_left(), p(-20, -80));
    assert_eq!(r.top_right(), p(20, -80));
    assert_eq!(r.bottom_right(), p(20, -120));
    assert_eq!(r.bottom_left(), p(-20, -120));
}

#[test]
fn ray_beyond_rect_finds_nothing() {
    let r = Rect::from_xy_wh(0, 0, 20, 20);
    let slots = collision_line_rect(&(p(100, 100), p(200, 200)), &r);
    assert_eq!(slots.len(), 4);
    assert!(slots.iter().all(|s| s.is_none()));
}

#[test]
fn proximity_map_ends_and_order() {
    let near = map_to_proximity(Ratio { num: 0, den: 5 });
    assert!(same_ratio(near, 1, 1));
    let far = map_to_proximity(Ratio { num: 5, den: 5 });
    assert_eq!(far.num, 0);
    let a = map_to_proximity(Ratio { num: 1, den: 4 });
    let b = map_to_proximity(Ratio { num: 3, den: 4 });
    assert!(same_ratio(a, 3, 4));
    assert!(same_ratio(b, 1, 4));
    assert!(b.num * a.den < a.num * b.den);
}

fn robot_facing_up() -> Robot {
    let mut robot = Robot::new();
    robot.update(Dir::new(0, DIR_SCALE));
    robot
}

#[test]
fn obstacle_ahead_is_sensed() {
    let robot = robot_facing_up();
    let box_ahead = Rect::from_xy_wh(0, 100 * UNIT, 40 * UNIT, 40 * UNIT);
    let (points, values) = robot.get_closest_collisions(&vec![box_ahead]);
    assert_eq!(points.len(), 5);
    assert_eq!(values.len(), 5);
    let hit = points[2].expect("the forward ray hits the near edge");
    assert_eq!(hit.x, 0);
    assert_eq!(hit.y, 80 * UNIT as i128 * hit.den);
    let v = values[2];
    assert!(0 < v.num && v.num < v.den);
    // 80 of 200 units away.
    assert!(same_ratio(v, 3, 5));
}

#[test]
fn obstacle_behind_is_not_sensed_by_forward_ray() {
    let robot = robot_facing_up();
    let box_behind = Rect::from_xy_wh(0, -100 * UNIT, 40 * UNIT, 40 * UNIT);
    let (points, values) = robot.get_closest_collisions(&vec![box_behind]);
    assert!(points[2].is_none());
    assert_eq!(values[2], Ratio { num: 0, den: 1 });
}

#[test]
fn far_obstacle_gives_zero() {
    let robot = robot_facing_up();
    let far = Rect::from_xy_wh(1000 * UNIT, 1000 * UNIT, 40 * UNIT, 40 * UNIT);
    let (points, values) = robot.get_closest_collisions(&vec![far]);
    assert_eq!(points.len(), 5);
    for k in 0..5 {
        assert!(points[k].is_none());
        assert_eq!(values[k], Ratio { num: 0, den: 1 });
    }
}

#[test]
fn closest_of_two_obstacles_wins() {
    let robot = robot_facing_up();
    let far = Rect::from_xy_wh(0, 150 * UNIT, 40 * UNIT, 40 * UNIT);
    let near = Rect::from_xy_wh(0, 60 * UNIT, 40 * UNIT, 40 * UNIT);
    let (points, values) = robot.get_closest_collisions(&vec![far, near]);
    let hit = points[2].expect("hit");
    assert_eq!(hit.y, 40 * UNIT as i128 * hit.den);
    assert!(same_ratio(values[2], 4, 5));
}

#[test]
fn no_rays_before_first_tick() {
    let robot = Robot::new();
    let (points, values) = robot.get_closest_collisions(&vec![Rect::from_xy_wh(0, 0, 2, 2)]);
    assert!(points.is_empty());
    assert!(values.is_empty());
}

#[test]
fn zero_velocity_keeps_pose() {
    let mut robot = Robot::new();
    for _ in 0..10 {
        assert!(robot.can_update());
        robot.update(Dir::new(0, DIR_SCALE));
        assert_eq!(robot.get_position(), p(0, 0));
        assert_eq!(robot.get_heading(), 0);
    }
}

#[test]
fn toggle_mode_is_two_cycle() {
    let mut robot = Robot::new();
    assert_eq!(robot.get_mode_numeric(), -1);
    robot.toggle_mode();
    assert_eq!(robot.get_mode_numeric(), 1);
    robot.toggle_mode();
    assert_eq!(robot.get_mode_numeric(), -1);
    assert_eq!(Mode::Follow.next(), Mode::Divert);
    assert_eq!(Mode::Divert.next(), Mode::Follow);
    assert_eq!(Mode::Divert.get_mode(), 1);
}

#[test]
fn one_tick_of_turn_adds_a_sixtieth_radian() {
    let mut robot = Robot::new();
    robot.set_angular_velocity(1000);
    let h = robot.next_heading().expect("in range");
    assert_eq!(h, 1000);
    let angle = h as f64 / 60000.0;
    let facing = Dir::new(
        (angle.sin() * DIR_SCALE as f64).round() as i64,
        (angle.cos() * DIR_SCALE as f64).round() as i64,
    );
    assert_eq!(facing, Dir::new(17, 1000));
    robot.update(facing);
    assert_eq!(robot.get_heading(), 1000);
    let length = SENSOR_RANGE * UNIT;
    let forward = robot.sensors.lines[2];
    assert_eq!(forward.0, p(0, 0));
    assert_eq!(forward.1, p(length * 17 / 1000, length));
}

#[test]
fn linear_velocity_moves_along_heading() {
    let mut robot = Robot::new();
    robot.set_linear_velocity(2);
    robot.update(Dir::new(0, DIR_SCALE));
    // 2 * 100 world units per second over 1/60 s.
    assert_eq!(robot.get_position(), p(0, 200 * UNIT / 60));
}

#[test]
fn distance_rounds_down() {
    let robot = Robot::new();
    assert_eq!(robot.distance_to(p(3, 4)), 5);
    assert_eq!(robot.distance_to(p(1, 1)), 1);
    assert_eq!(robot.distance_to(p(-6, 8)), 10);
}

#[test]
fn obstacle_is_the_walkable_area() {
    let win = Rect::from_xy_wh(0, 0, 1000 * UNIT, 800 * UNIT);
    let mut obstacles = Vec::new();
    create_obstacle(&mut obstacles, win, 200 * UNIT);
    assert_eq!(obstacles.len(), 1);
    let r = obstacles[0];
    assert_eq!(r.left, -260 * UNIT);
    assert_eq!(r.right, 460 * UNIT);
    assert_eq!(r.bottom, -360 * UNIT);
    assert_eq!(r.top, 360 * UNIT);
}

#[test]
fn tick_reports_values_and_mode() {
    let win = Rect::from_xy_wh(0, 0, 1000 * UNIT, 800 * UNIT);
    let mut m = model(win, 200 * UNIT);
    apply_input(&mut m, Some(RobotInput::new(0, 0)));
    let out = update(&mut m, Dir::new(0, DIR_SCALE));
    assert_eq!(out.values.len(), 6);
    assert_eq!(out.values[5], Ratio { num: -1, den: 1 });
    // The forward ray ends 160 units short of the top wall.
    assert_eq!(out.values[2], Ratio { num: 0, den: 1 });
    assert_eq!(m.colliding_points.0.len(), 5);
    m.robot.toggle_mode();
    let out = update(&mut m, Dir::new(0, DIR_SCALE));
    assert_eq!(out.values[5], Ratio { num: 1, den: 1 });
}

#[test]
fn input_sets_velocities() {
    let win = Rect::from_xy_wh(0, 0, 1000 * UNIT, 800 * UNIT);
    let mut m = model(win, 200 * UNIT);
    apply_input(&mut m, Some(RobotInput::new(2, 1000)));
    assert_eq!(m.robot.linear_velocity, 2);
    assert_eq!(m.robot.angular_velocity, 1000);
    apply_input(&mut m, None);
    assert_eq!(m.robot.linear_velocity, 2);
}
