use life_sim::components::{create_food, create_prey, Entity, Genes, Position, SpeciesId, WorldObject};
use life_sim::fixed::ONE;
use life_sim::grid::{coordinate, update_grid_system, SpatialGrid};
use life_sim::vector::Vector;
use life_sim::world::World;

fn at(x: f64, y: f64) -> Vector {
    Vector::new((x * 1e6).round() as i64, (y * 1e6).round() as i64)
}

fn object(id: u64, x: f64, y: f64) -> WorldObject {
    WorldObject { entity: Entity(id), position: Position(at(x, y)) }
}

#[test]
fn coordinate_rounds_down() {
    let cell = 64 * ONE;
    assert_eq!(coordinate(70 * ONE, cell), 1);
    assert_eq!(coordinate(10 * ONE, cell), 0);
    assert_eq!(coordinate(64 * ONE, cell), 1);
    assert_eq!(coordinate(64 * ONE - 1, cell), 0);
    assert_eq!(coordinate(0, cell), 0);
    assert_eq!(coordinate(-1, cell), -1);
    assert_eq!(coordinate(-64 * ONE, cell), -1);
    assert_eq!(coordinate(-64 * ONE - 1, cell), -2);
}

#[test]
fn coordinate_saturates_and_needs_a_cell_size() {
    assert_eq!(coordinate(i64::MAX, 1), i32::MAX);
    assert_eq!(coordinate(i64::MIN, 1), i32::MIN);
    assert_eq!(coordinate(70 * ONE, 0), 0);
    assert_eq!(coordinate(70 * ONE, -5), 0);
}

#[test]
fn neighbors_are_those_within_one_cell() {
    let mut grid = SpatialGrid::new(64 * ONE);
    let objects = vec![
        object(1, 70.0, 70.0),
        object(2, 10.0, 10.0),
        object(3, 200.0, 70.0),
        object(4, 130.0, 70.0),
        object(5, 70.0, 200.0),
    ];
    grid.rebuild(&objects);
    assert_eq!(grid.cell(at(70.0, 70.0)), (1, 1));
    assert_eq!(grid.cell(at(10.0, 10.0)), (0, 0));
    let seen = grid.query_neighbors(at(70.0, 70.0));
    assert!(seen.contains(&Entity(1)));
    assert!(seen.contains(&Entity(2)));
    assert!(seen.contains(&Entity(4)));
    assert!(!seen.contains(&Entity(3)));
    assert!(!seen.contains(&Entity(5)));
    assert_eq!(seen.len(), 3);
}

#[test]
fn the_grid_decides_not_the_distance() {
    let mut grid = SpatialGrid::new(64 * ONE);
    // 64.2 apart, but two cells from each other
    let near = vec![object(1, 127.9, 0.0), object(2, 192.1, 0.0)];
    grid.rebuild(&near);
    assert_eq!(grid.query_neighbors(at(127.9, 0.0)), vec![Entity(1)]);
    assert_eq!(grid.query_neighbors(at(192.1, 0.0)), vec![Entity(2)]);
    // 127.8 apart, but in cells that touch
    let far = vec![object(1, 0.1, 0.0), object(2, 127.9, 0.0)];
    grid.rebuild(&far);
    assert_eq!(grid.query_neighbors(at(0.1, 0.0)), vec![Entity(1), Entity(2)]);
    assert_eq!(grid.query_neighbors(at(127.9, 0.0)), vec![Entity(1), Entity(2)]);
}

#[test]
fn neighbors_come_bucket_after_bucket() {
    let mut grid = SpatialGrid::new(10 * ONE);
    let objects = vec![
        object(9, 15.0, 15.0),
        object(8, 25.0, 25.0),
        object(7, 5.0, 5.0),
        object(6, 5.0, 15.0),
        object(5, 15.0, 17.0),
        object(4, 25.0, 5.0),
    ];
    grid.rebuild(&objects);
    assert_eq!(grid.bucket((1, 1)), vec![Entity(9), Entity(5)]);
    assert_eq!(grid.bucket((7, 7)), Vec::<Entity>::new());
    assert_eq!(
        grid.query_neighbors(at(15.0, 15.0)),
        vec![Entity(7), Entity(6), Entity(9), Entity(5), Entity(4), Entity(8)]
    );
}

#[test]
fn rebuild_forgets_what_was_there() {
    let mut grid = SpatialGrid::new(64 * ONE);
    grid.rebuild(&vec![object(1, 1.0, 1.0), object(2, 2.0, 2.0)]);
    assert_eq!(grid.bucket((0, 0)), vec![Entity(1), Entity(2)]);
    grid.rebuild(&vec![object(3, 1.0, 1.0)]);
    assert_eq!(grid.bucket((0, 0)), vec![Entity(3)]);
    grid.rebuild(&Vec::new());
    assert!(grid.query_neighbors(at(1.0, 1.0)).is_empty());
}

#[test]
fn insert_appends_to_the_bucket() {
    let mut grid = SpatialGrid::new(64 * ONE);
    grid.insert((2, -3), Entity(11));
    grid.insert((2, -3), Entity(12));
    grid.insert((2, -2), Entity(13));
    assert_eq!(grid.bucket((2, -3)), vec![Entity(11), Entity(12)]);
    assert_eq!(grid.bucket((2, -2)), vec![Entity(13)]);
    assert_eq!(grid.cell_size, 64 * ONE);
}

#[test]
fn neighborhood_at_the_edge_of_the_range_has_fewer_cells() {
    let mut grid = SpatialGrid::new(1);
    let objects = vec![WorldObject {
        entity: Entity(1),
        position: Position(Vector::new(i64::MAX, i64::MAX)),
    }];
    grid.rebuild(&objects);
    assert_eq!(grid.cell(Vector::new(i64::MAX, i64::MAX)), (i32::MAX, i32::MAX));
    assert_eq!(grid.query_neighbors(Vector::new(i64::MAX, i64::MAX)), vec![Entity(1)]);
}

#[test]
fn grid_is_built_from_every_world_object() {
    let genes = Genes::default();
    let mut world = World::new();
    let prey = world.spawn_living(create_prey(at(70.0, 70.0), SpeciesId(0), genes)).unwrap();
    let food = world.spawn_food(create_food(at(10.0, 10.0), 5 * ONE)).unwrap();
    let corpse = world
        .spawn_corpse(life_sim::components::create_corpse(at(300.0, 300.0), 5 * ONE))
        .unwrap();
    let mut grid = SpatialGrid::new(64 * ONE);
    update_grid_system(&mut grid, &world);
    assert_eq!(grid.bucket((1, 1)), vec![prey]);
    assert_eq!(grid.bucket((0, 0)), vec![food]);
    assert_eq!(grid.bucket((4, 4)), vec![corpse]);
    assert_eq!(grid.query_neighbors(at(70.0, 70.0)), vec![food, prey]);
}
