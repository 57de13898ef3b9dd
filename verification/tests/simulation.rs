use life_sim::components::{
    create_food, create_predator, create_prey, FoodAmount, Genes, Position, Role, SimulationSpeed,
    SpeciesId,
};
use life_sim::fixed::ONE;
use life_sim::simulation::{
    forest_areas, forest_food_count, found_species, handle_input, scattered_food, setup_entities,
    spawn_forest, Click, Simulation,
};
use life_sim::vector::Vector;
use life_sim::world::World;

fn at(x: i64, y: i64) -> Vector {
    Vector::new(x * ONE, y * ONE)
}

#[test]
fn a_left_click_brings_ten_prey() {
    let mut world = World::new();
    world.spawn_food(create_food(at(0, 0), ONE));
    handle_input(&mut world, Click::Left(at(40, 50)));
    assert_eq!(world.agents.len(), 10);
    assert_eq!(world.foods.len(), 1);
    for living in &world.agents {
        assert_eq!(living.position, Position(at(40, 50)));
        assert_eq!(living.role, Role::Prey);
        assert_eq!(living.species, SpeciesId(0));
        assert_eq!(living.needs.hunger, 0);
        assert!(5 * ONE <= living.genes.max_speed && living.genes.max_speed < 10 * ONE);
    }
    assert_eq!(world.next_entity, 11);
}

#[test]
fn a_right_click_scatters_food() {
    let mut world = World::new();
    handle_input(&mut world, Click::Right(at(40, 50)));
    assert!(world.agents.is_empty());
    assert!(10 <= world.foods.len() && world.foods.len() < 30);
    for food in &world.foods {
        assert!(10 * ONE <= food.amount.0 && food.amount.0 < 100 * ONE);
        assert!(30 * ONE <= food.position.0.x && food.position.0.x < 50 * ONE);
        assert!(40 * ONE <= food.position.0.y && food.position.0.y < 60 * ONE);
    }
}

#[test]
fn a_click_into_a_full_world_brings_nothing() {
    let mut world = World::new();
    world.next_entity = u64::MAX - 3;
    handle_input(&mut world, Click::Left(at(0, 0)));
    assert_eq!(world.agents.len(), 3);
    handle_input(&mut world, Click::Right(at(0, 0)));
    assert!(world.foods.is_empty());
}

#[test]
fn scattered_food_lies_around_its_center() {
    for _ in 0..100 {
        let food = scattered_food(at(-5, 5), 2 * ONE);
        assert!(-7 * ONE <= food.position.0.x && food.position.0.x < -3 * ONE);
        assert!(3 * ONE <= food.position.0.y && food.position.0.y < 7 * ONE);
        assert!(10 * ONE <= food.amount.0 && food.amount.0 < 100 * ONE);
    }
    let food = scattered_food(at(1, 1), 0);
    assert_eq!(food.position, Position(at(1, 1)));
}

#[test]
fn the_noise_decides_how_much_grows() {
    // half the size, raised or lowered by the noise
    assert_eq!(forest_food_count(0, 100 * ONE), 50);
    assert_eq!(forest_food_count(ONE, 100 * ONE), 100);
    assert_eq!(forest_food_count(-ONE, 100 * ONE), 0);
    assert_eq!(forest_food_count(ONE / 2, 150 * ONE), 112);
    assert_eq!(forest_food_count(-ONE / 2, 150 * ONE), 37);
    assert_eq!(forest_food_count(-2 * ONE, 150 * ONE), 0);
    assert_eq!(forest_food_count(0, 0), 0);
}

#[test]
fn forests_lie_within_the_world() {
    let areas = forest_areas();
    assert!(20 <= areas.len() && areas.len() < 30);
    for area in &areas {
        assert!(0 <= area.x && area.x < 800 * ONE);
        assert!(0 <= area.y && area.y < 600 * ONE);
    }
}

#[test]
fn a_forest_grows_around_each_area() {
    let mut world = World::new();
    let areas = vec![at(100, 100), at(500, 300)];
    spawn_forest(&mut world, &areas, &vec![0, ONE / 2], 100 * ONE);
    assert_eq!(world.foods.len(), 50 + 75);
    for (k, food) in world.foods.iter().enumerate() {
        let area = if k < 50 { areas[0] } else { areas[1] };
        assert!((food.position.0.x - area.x).abs() <= 50 * ONE);
        assert!((food.position.0.y - area.y).abs() <= 50 * ONE);
        assert!(10 * ONE <= food.amount.0 && food.amount.0 < 100 * ONE);
    }
    assert!(world.agents.is_empty());
}

#[test]
fn a_species_has_two_sets_of_genes() {
    let species = found_species(SpeciesId(4));
    assert_eq!(species.id, SpeciesId(4));
    assert_eq!(species.genetic_max.max_age, species.genetic_min.max_age);
    assert!((species.genetic_max.vision_range - species.genetic_min.vision_range).abs() <= 100 * ONE);
    assert!(species.genetic_max.sociality >= 0);
}

#[test]
fn a_new_world_is_settled() {
    let mut world = World::new();
    let areas = forest_areas();
    let noises = vec![0; areas.len()];
    setup_entities(&mut world, &areas, &noises);
    assert_eq!(world.agents.len(), 2100);
    assert!(world.corpses.is_empty());
    // each forest is from a hundred to two hundred wide and, without noise,
    // grows half as many food sources as it is wide
    assert_eq!(world.foods.len() % areas.len(), 0);
    let each = world.foods.len() / areas.len();
    assert!(50 <= each && each < 100);
    for (k, living) in world.agents.iter().enumerate() {
        assert_eq!(living.role, if k < 2000 { Role::Prey } else { Role::Predator });
        assert!(0 <= living.position.0.x && living.position.0.x < 800 * ONE);
        assert!(0 <= living.position.0.y && living.position.0.y < 600 * ONE);
        assert!(living.species.0 < 14);
        assert!(living.genes.sociality >= 0);
        assert_eq!(living.needs.energy, ONE);
    }
}

#[test]
fn a_simulation_starts_empty() {
    let simulation = Simulation::new();
    assert!(simulation.world.agents.is_empty());
    assert_eq!(simulation.grid.cell_size, 64 * ONE);
    assert_eq!(simulation.speed, SimulationSpeed(2 * ONE));
}

#[test]
fn a_tick_runs_every_system_in_order() {
    let mut simulation = Simulation::new();
    simulation.speed = SimulationSpeed(ONE);
    let mut genes = Genes::default();
    genes.laziness = 0;
    genes.bite_size = 10 * ONE;
    genes.hunger_rate = 0;
    genes.vision_range = 100 * ONE;
    let prey = simulation.world.spawn_living(create_prey(at(0, 0), SpeciesId(0), genes)).unwrap();
    let food = simulation.world.spawn_food(create_food(at(2, 0), 5 * ONE)).unwrap();
    simulation.world.agents[0].needs.hunger = 60 * ONE;
    simulation.tick(ONE);
    // it saw the food through the grid, ate it up, and the food left
    assert_eq!(simulation.grid.bucket((0, 0)), vec![prey, food]);
    assert!(simulation.world.foods.is_empty());
    assert_eq!(simulation.world.agents[0].needs.hunger, 55 * ONE);
    assert_eq!(simulation.world.agents[0].age.0, ONE);
    assert_eq!(simulation.world.agents[0].needs.energy, ONE);
}

#[test]
fn a_populated_world_stays_in_order_over_many_ticks() {
    let mut simulation = Simulation::new();
    let areas = forest_areas();
    let noises = vec![0; areas.len()];
    setup_entities(&mut simulation.world, &areas, &noises);
    simulation.world.agents.truncate(300);
    for living in simulation.world.agents.iter_mut() {
        living.age.0 = living.genes.max_age / 2;
        living.position = Position(Vector::new(living.position.0.x / 8, living.position.0.y / 8));
    }
    for _ in 0..40 {
        simulation.tick(ONE / 4);
        for living in &simulation.world.agents {
            let needs = &living.needs;
            assert!(0 <= needs.hunger && needs.hunger <= 100 * ONE);
            assert!(0 <= needs.energy && needs.energy <= ONE);
            assert!(0 <= needs.sanity && needs.sanity <= ONE);
        }
        for lists in [
            simulation.world.agents.iter().map(|l| l.entity.0).collect::<Vec<_>>(),
            simulation.world.foods.iter().map(|f| f.entity.0).collect(),
            simulation.world.corpses.iter().map(|c| c.entity.0).collect(),
        ] {
            for pair in lists.windows(2) {
                assert!(pair[0] < pair[1]);
            }
            for id in lists {
                assert!(id < simulation.world.next_entity);
            }
        }
    }
}

#[test]
fn a_world_of_hunters_and_prey_keeps_its_accounts() {
    let mut simulation = Simulation::new();
    simulation.speed = SimulationSpeed(ONE);
    let mut genes = Genes::default();
    genes.laziness = 0;
    genes.hunger_rate = 0;
    genes.vision_range = 60 * ONE;
    genes.bite_size = 5 * ONE;
    genes.max_age = 1000 * ONE;
    for i in 0..30 {
        let mut prey = create_prey(at(i % 6 * 8, i / 6 * 8), SpeciesId(0), genes);
        prey.food_amount = Some(FoodAmount(10 * ONE));
        simulation.world.spawn_living(prey);
    }
    for i in 0..5 {
        let mut hunter = create_predator(at(i * 9, 20), SpeciesId(1), genes);
        hunter.needs.hunger = 90 * ONE;
        simulation.world.spawn_living(hunter);
    }
    for _ in 0..60 {
        simulation.tick(ONE / 2);
        assert!(simulation.world.is_well_formed());
        let prey = simulation.world.agents.iter().filter(|l| l.role == Role::Prey).count();
        let born = simulation.world.agents.iter().filter(|l| l.needs.mother.is_some()).count();
        // whoever left the world as a meal left a corpse or, later, the food it decayed into
        let remains = simulation.world.corpses.len() + simulation.world.foods.len();
        assert_eq!(prey - born + remains, 30);
        for living in &simulation.world.agents {
            if let Some(amount) = living.food_amount {
                assert!(amount.0 > 0);
            }
        }
    }
    assert_eq!(simulation.world.agents.iter().filter(|l| l.role == Role::Predator).count(), 5);
}
