use boids::{Edge, Environment, Obstacle};

fn layout(left: i32, right: i32, bottom: i32, top: i32) -> Vec<Obstacle> {
    Environment::<f32>::initialize_obstacles(left, right, bottom, top)
}

#[test]
fn border_of_a_hundred_by_a_hundred_world() {
    // Full extents 100 x 100: the corners of the border lie at +-25.
    let half: f32 = 100.0 / 2.0;
    let quarter: f32 = half / 2.0;
    let left = -quarter as i32;
    let right = quarter as i32;
    let bottom = -quarter as i32;
    let top = quarter as i32;
    assert_eq!((left, right, bottom, top), (-25, 25, -25, 25));
    let obstacles = layout(left, right, bottom, top);
    assert_eq!(
        obstacles,
        vec![
            Obstacle::new(Edge::Top, -25),
            Obstacle::new(Edge::Bottom, -25),
            Obstacle::new(Edge::Left, -25),
            Obstacle::new(Edge::Right, -25),
        ]
    );
}

#[test]
fn border_pairs_step_by_fifty() {
    let obstacles = layout(-25, 80, 0, 0);
    assert_eq!(
        obstacles,
        vec![
            Obstacle::new(Edge::Top, -25),
            Obstacle::new(Edge::Bottom, -25),
            Obstacle::new(Edge::Top, 25),
            Obstacle::new(Edge::Bottom, 25),
            Obstacle::new(Edge::Top, 75),
            Obstacle::new(Edge::Bottom, 75),
        ]
    );
}

#[test]
fn border_far_end_is_excluded() {
    // 0, 50 lie below 100; 100 itself does not.
    let obstacles = layout(0, 100, 0, 0);
    assert_eq!(obstacles.len(), 4);
    assert_eq!(obstacles[2], Obstacle::new(Edge::Top, 50));
    assert_eq!(obstacles[3], Obstacle::new(Edge::Bottom, 50));
    // One past a multiple of the spacing adds a pair.
    assert_eq!(layout(0, 101, 0, 0).len(), 6);
}

#[test]
fn border_left_and_right_follow_top_and_bottom() {
    let obstacles = layout(0, 50, -10, 60);
    assert_eq!(
        obstacles,
        vec![
            Obstacle::new(Edge::Top, 0),
            Obstacle::new(Edge::Bottom, 0),
            Obstacle::new(Edge::Left, -10),
            Obstacle::new(Edge::Right, -10),
            Obstacle::new(Edge::Left, 40),
            Obstacle::new(Edge::Right, 40),
        ]
    );
}

#[test]
fn border_of_an_empty_or_inverted_range_is_empty() {
    assert!(layout(0, 0, 0, 0).is_empty());
    assert!(layout(10, -10, 5, 5).is_empty());
    assert!(layout(7, 7, 30, -30).is_empty());
}

#[test]
fn border_of_the_full_screen_world() {
    // Full extents 1920 x 1080: corners at +-480 and +-270.
    let obstacles = layout(-480, 480, -270, 270);
    assert_eq!(obstacles.len(), 2 * 20 + 2 * 11);
    assert_eq!(obstacles[0], Obstacle::new(Edge::Top, -480));
    assert_eq!(obstacles[39], Obstacle::new(Edge::Bottom, 470));
    assert_eq!(obstacles[40], Obstacle::new(Edge::Left, -270));
    assert_eq!(obstacles[61], Obstacle::new(Edge::Right, 230));
}

#[test]
fn border_at_the_ends_of_the_number_range() {
    let high = layout(i32::MAX - 10, i32::MAX, 0, 0);
    assert_eq!(
        high,
        vec![
            Obstacle::new(Edge::Top, i32::MAX - 10),
            Obstacle::new(Edge::Bottom, i32::MAX - 10),
        ]
    );
    let low = layout(0, 0, i32::MIN, i32::MIN + 101);
    assert_eq!(low.len(), 6);
    assert_eq!(low[4], Obstacle::new(Edge::Left, i32::MIN + 100));
    assert_eq!(low[5], Obstacle::new(Edge::Right, i32::MIN + 100));
}

#[test]
fn obstacle_new_keeps_its_fields() {
    let o = Obstacle::new(Edge::Right, -7);
    assert_eq!(o.edge, Edge::Right);
    assert_eq!(o.offset, -7);
    assert_ne!(o, Obstacle::new(Edge::Left, -7));
}

#[test]
fn border_walk_stays_on_the_grid_below_the_far_end() {
    let (from, to) = (-130, 95);
    let obstacles = layout(from, to, 0, 0);
    // -130, -80, -30, 20, 70: five positions, the next one (120) is past 95.
    assert_eq!(obstacles.len(), 10);
    for (k, o) in obstacles.iter().enumerate() {
        assert_eq!(o.offset, from + boids::OBSTACLE_SPACING * (k as i32 / 2));
        assert!(from <= o.offset && o.offset < to);
        assert_eq!(o.edge, if k % 2 == 0 { Edge::Top } else { Edge::Bottom });
    }
    assert!(from + boids::OBSTACLE_SPACING * 5 >= to);
}
