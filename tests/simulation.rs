use natural_control::agents::{Entity, EntityType};
use natural_control::geometry::Point;
use natural_control::simulation::Simulation;

fn dir_of(heading: i64) -> Point {
    let a = heading as f64 / 1_000_000.0;
    Point {
        x: (a.cos() * 1000.0).round() as i64,
        y: (a.sin() * 1000.0).round() as i64,
    }
}

fn tick(sim: &mut Simulation) {
    sim.steer_all();
    let dirs: Vec<Point> = sim.entities.iter().map(|e| dir_of(e.heading)).collect();
    sim.move_all(&dirs);
}

fn east() -> Point {
    Point { x: 1000, y: 0 }
}

#[test]
fn prey_ahead_of_food_keeps_course_and_food_survives() {
    let mut sim = Simulation::new(800, 800);
    sim.spawn_agent(100_000, 100_000, EntityType::Prey, 0, east(), 0, 0);
    sim.spawn_food(110_000, 100_000);
    tick(&mut sim);
    let e = sim.entities[0];
    assert_eq!(e.heading, 0);
    assert_eq!(e.pos, Point { x: 101_000, y: 100_000 });
    assert!(!sim.foods[0].is_eaten);
    assert_eq!(sim.food_qt.query(&sim.bounds()).len(), 1);
    tick(&mut sim);
    let e = sim.entities[0];
    // nine units from the food: a turn of a ninth of a radian toward it
    assert_eq!(e.heading, 111_111);
    assert!(e.pos.x > 101_900 && e.pos.x < 102_000);
    assert!(!sim.foods[0].is_eaten);
}

#[test]
fn food_within_reach_is_eaten_and_leaves_the_index() {
    let mut sim = Simulation::new(800, 800);
    sim.spawn_agent(100_000, 100_000, EntityType::Prey, 0, east(), 0, 0);
    sim.spawn_food(102_000, 100_000);
    tick(&mut sim);
    assert!(sim.foods[0].is_eaten);
    assert_eq!(sim.food_qt.query(&sim.bounds()).len(), 0);
    tick(&mut sim);
    assert!(sim.foods[0].is_eaten);
    assert_eq!(sim.foods.len(), 1);
}

#[test]
fn predator_turns_toward_prey() {
    let mut sim = Simulation::new(800, 800);
    sim.spawn_agent(100_000, 100_000, EntityType::Predator, 0, east(), 0, 0);
    sim.spawn_agent(100_000, 110_000, EntityType::Prey, 0, east(), 0, 0);
    tick(&mut sim);
    assert_eq!(sim.entities[0].heading, 100_000);
    // prey have no food in sight and keep their heading
    assert_eq!(sim.entities[1].heading, 0);
    assert_eq!(sim.entity_qt.query(&sim.bounds()).len(), 2);
}

#[test]
fn predators_ignore_predators() {
    let mut sim = Simulation::new(800, 800);
    sim.spawn_agent(100_000, 100_000, EntityType::Predator, 0, east(), 0, 0);
    sim.spawn_agent(100_000, 110_000, EntityType::Predator, 0, east(), 0, 0);
    tick(&mut sim);
    assert_eq!(sim.entities[0].heading, 0);
    assert_eq!(sim.entities[1].heading, 0);
}

#[test]
fn agent_crossing_the_edge_reappears_opposite() {
    let mut sim = Simulation::new(800, 800);
    sim.spawn_agent(799_500, 400_000, EntityType::Prey, 0, east(), 0, 0);
    tick(&mut sim);
    assert_eq!(sim.entities[0].pos, Point { x: 500, y: 400_000 });
}

#[test]
fn paused_world_does_not_move() {
    let mut sim = Simulation::new(800, 800);
    sim.spawn_agent(100_000, 100_000, EntityType::Prey, 0, east(), 0, 0);
    sim.spawn_food(102_000, 100_000);
    sim.toggle_pause();
    assert!(sim.is_paused());
    tick(&mut sim);
    assert_eq!(sim.entities[0].pos, Point { x: 100_000, y: 100_000 });
    assert!(!sim.foods[0].is_eaten);
    assert_eq!(sim.food_qt.query(&sim.bounds()).len(), 1);
    assert_eq!(sim.entity_qt.query(&sim.bounds()).len(), 1);
}

#[test]
fn spawn_positions_wrap_into_the_world() {
    let mut sim = Simulation::new(800, 800);
    sim.spawn_agent(-1_000, 801_000, EntityType::Prey, 0, east(), 0, 0);
    sim.spawn_food(1_600_500, -250);
    assert_eq!(sim.entities[0].pos, Point { x: 799_000, y: 1_000 });
    assert_eq!(sim.foods[0].pos, Point { x: 500, y: 799_750 });
}

#[test]
fn commands_toggle_and_clear() {
    let mut sim = Simulation::new(800, 600);
    assert!(!sim.is_debug());
    sim.toggle_debug();
    assert!(sim.is_debug());
    sim.spawn_agent(1, 2, EntityType::Prey, 0, east(), 0, 0);
    sim.spawn_food(3, 4);
    sim.clear_population();
    assert!(sim.entities.is_empty());
    assert!(sim.foods.is_empty());
    sim.is_running = true;
    sim.terminate();
    assert!(!sim.is_running);
    assert_eq!(sim.bounds().h, 600_000);
}

#[test]
fn target_exactly_at_sensing_range_is_seen() {
    let mut sim = Simulation::new(800, 800);
    sim.spawn_agent(100_000, 100_000, EntityType::Predator, 0, east(), 0, 0);
    sim.spawn_agent(200_000, 100_000, EntityType::Prey, 0, east(), 0, 0);
    sim.spawn_agent(100_000, 100_000, EntityType::Predator, 0, east(), 0, 0);
    sim.spawn_agent(100_000, 200_001, EntityType::Prey, 0, east(), 0, 0);
    sim.steer_all();
    // a hundred units straight ahead: a hundredth of a radian
    assert_eq!(sim.entities[0].heading, 10_000);
    assert_eq!(sim.entities[2].heading, 10_000);
}

#[test]
fn spawn_brings_values_into_range() {
    let mut sim = Simulation::new(800, 800);
    sim.spawn_agent(1, 2, EntityType::Prey, -1, Point { x: 5000, y: -5000 }, 2_000_000, 7);
    let e = sim.entities[0];
    assert_eq!(e.heading, 6_283_184);
    assert_eq!(e.dir, Point { x: 1000, y: -1000 });
    assert_eq!(e.coop, 1_000_000);
    assert_eq!(e.share, 7);
    assert_eq!(e.food_collected, 0);
}

#[test]
fn reset_replaces_the_population() {
    let mut sim = Simulation::new(800, 800);
    sim.spawn_agent(1, 2, EntityType::Predator, 0, east(), 0, 0);
    sim.spawn_food(3, 4);
    sim.spawn_food(5, 6);
    let agents = vec![
        Entity::new(10_000, 20_000, EntityType::Prey, 0, east(), 0, 0),
        Entity::new(900_000, -1, EntityType::Prey, 0, east(), 0, 0),
    ];
    let foods = vec![Point { x: 7, y: 8 }];
    sim.reset_population(&agents, &foods);
    assert_eq!(sim.entities.len(), 2);
    assert_eq!(sim.entities[1].pos, Point { x: 100_000, y: 799_999 });
    assert_eq!(sim.entities[0].group, EntityType::Prey);
    assert_eq!(sim.foods.len(), 1);
    assert_eq!(sim.foods[0].pos, Point { x: 7, y: 8 });
}

#[test]
fn new_world_has_empty_leaf_indices() {
    let sim = Simulation::new(800, 600);
    assert_eq!(sim.entity_qt.bounds(), sim.bounds());
    assert_eq!(sim.food_qt.bounds(), sim.bounds());
    assert!(!sim.entity_qt.divided());
    assert!(sim.food_qt.query(&sim.bounds()).is_empty());
}

#[test]
fn prey_targets_are_the_nearest_foods() {
    let mut sim = Simulation::new(800, 800);
    sim.spawn_agent(100_000, 100_000, EntityType::Prey, 0, east(), 0, 0);
    for (i, x) in [150_000i64, 120_000, 190_000, 112_000, 130_000].iter().enumerate() {
        sim.spawn_food(*x, 100_000 + i as i64);
    }
    tick(&mut sim);
    let e = sim.entities[0];
    let t = e.targets(&sim.entity_qt, &sim.entities, &sim.food_qt);
    let ids: Vec<usize> = t.iter().map(|t| t.id).collect();
    assert_eq!(ids, vec![3, 1, 4]);
}
